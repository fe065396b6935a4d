//! Glulx main memory: the ROM/RAM map (Glulx: The Memory Map).
//!
//! Addresses 0 to RAMSTART are ROM -- the header included -- and
//! writing there is illegal; RAM runs from RAMSTART to ENDMEM. The
//! game file stores only the bytes up to EXTSTART, and everything
//! above starts zeroed. Memory has no alignment rule: a four-byte
//! read at an odd address is legal Glulx. The bounds checks are
//! unconditional.

use vstd::prelude::*;

use crate::error::VoxamError;

verus! {

/// Boundaries sit on 256-byte seats (Glulx: The Header).
pub const BOUNDARY: u32 = 256;

/// The big-endian 16-bit value at a position.
pub open spec fn be_short(bytes: Seq<u8>, at: int) -> u16 {
    (bytes[at] as int * 256 + bytes[at + 1] as int) as u16
}

/// The big-endian 32-bit value at a position.
pub open spec fn be_word(bytes: Seq<u8>, at: int) -> u32 {
    (bytes[at] as int * 16777216 + bytes[at + 1] as int * 65536 + bytes[at + 2] as int * 256
        + bytes[at + 3] as int) as u32
}

/// Bytes with a big-endian 16-bit value laid in at a position.
pub open spec fn put_short(bytes: Seq<u8>, at: int, value: u16) -> Seq<u8> {
    bytes.update(at, (value / 256) as u8).update(at + 1, (value % 256) as u8)
}

/// Bytes with a big-endian 32-bit value laid in at a position.
pub open spec fn put_word(bytes: Seq<u8>, at: int, value: u32) -> Seq<u8> {
    bytes.update(at, (value / 16777216) as u8).update(at + 1, ((value / 65536) % 256) as u8).update(
        at + 2,
        ((value / 256) % 256) as u8,
    ).update(at + 3, (value % 256) as u8)
}

/// Bytes with a run laid in at a position.
pub open spec fn put_run(bytes: Seq<u8>, at: int, run: Seq<u8>) -> Seq<u8> {
    Seq::new(
        bytes.len(),
        |i: int|
            if at <= i < at + run.len() {
                run[i - at]
            } else {
                bytes[i]
            },
    )
}

/// The value a width-selected read yields: a byte, a short, or a
/// word (any width but 1 and 4 reads a short).
pub open spec fn read_at(bytes: Seq<u8>, at: int, width: u32) -> u32 {
    if width == 4 {
        be_word(bytes, at)
    } else if width == 1 {
        bytes[at] as u32
    } else {
        be_short(bytes, at) as u32
    }
}

/// How many bytes a width-selected access touches.
pub open spec fn span_of(width: u32) -> int {
    if width == 4 {
        4
    } else if width == 1 {
        1
    } else {
        2
    }
}

/// Bytes after a width-selected write, the value masked to width.
pub open spec fn write_at(bytes: Seq<u8>, at: int, width: u32, value: u32) -> Seq<u8> {
    if width == 4 {
        put_word(bytes, at, value)
    } else if width == 1 {
        bytes.update(at, (value % 256) as u8)
    } else {
        put_short(bytes, at, (value % 65536) as u16)
    }
}

/// The error a refused write reports: ROM below RAMSTART, or off
/// the map.
pub open spec fn refusal(address: u32, ramstart: u32) -> VoxamError {
    if address < ramstart {
        VoxamError::RomWrite { address, ramstart }
    } else {
        VoxamError::OutOfRange { address }
    }
}

/// The boot image laid into a map of a size: the image's bytes,
/// zeroes after.
pub open spec fn booted(image: Seq<u8>, size: nat) -> Seq<u8> {
    Seq::new(size, |i: int| if i < image.len() { image[i] } else { 0u8 })
}

/// What the memory map holds, as a mathematical value.
pub struct MemoryState {
    /// Every byte of the map; its length is ENDMEM.
    pub bytes: Seq<u8>,
    /// The first writable address.
    pub ramstart: u32,
    /// The map's size at boot, which it never shrinks below.
    pub boot_endmem: u32,
    /// The stored game image.
    pub image: Seq<u8>,
    /// The protected range's first address.
    pub protect_start: u32,
    /// One past the protected range's last address.
    pub protect_end: u32,
}

/// The live memory map: ROM held sacred, RAM growable.
pub struct Memory {
    image: Vec<u8>,
    ramstart: u32,
    boot_endmem: u32,
    protect_start: u32,
    protect_end: u32,
    data: Vec<u8>,
}

impl View for Memory {
    type V = MemoryState;

    closed spec fn view(&self) -> MemoryState {
        MemoryState {
            bytes: self.data@,
            ramstart: self.ramstart,
            boot_endmem: self.boot_endmem,
            image: self.image@,
            protect_start: self.protect_start,
            protect_end: self.protect_end,
        }
    }
}

impl MemoryState {
    /// The end of the map.
    pub open spec fn endmem(self) -> nat {
        self.bytes.len()
    }

    /// What every map keeps: its size a u32 on the 256-byte
    /// boundary, never below boot, with the image inside the boot
    /// size.
    pub open spec fn wf(self) -> bool {
        &&& self.bytes.len() <= u32::MAX
        &&& self.bytes.len() % 256 == 0
        &&& 256 <= self.boot_endmem <= self.bytes.len()
        &&& self.boot_endmem % 256 == 0
        &&& self.image.len() <= self.boot_endmem
        &&& self.ramstart <= self.boot_endmem
    }

    /// Whether a run lies wholly in RAM.
    pub open spec fn writable(self, address: u32, count: int) -> bool {
        self.ramstart <= address && address + count <= self.endmem()
    }

    /// The same map with other bytes and nothing else changed.
    pub open spec fn with_bytes(self, bytes: Seq<u8>) -> MemoryState {
        MemoryState { bytes, ..self }
    }

    /// The map a restart leaves: the boot image at the boot size,
    /// with the protected range's live bytes kept.
    pub open spec fn reset_bytes(self) -> Seq<u8> {
        Seq::new(
            self.boot_endmem as nat,
            |i: int|
                if self.protect_start <= i < self.protect_end && i < self.bytes.len() {
                    self.bytes[i]
                } else if i < self.image.len() {
                    self.image[i]
                } else {
                    0u8
                },
        )
    }

    /// The map a restore leaves: RAM laid in from RAMSTART, the
    /// protected range untouched.
    pub open spec fn restored_bytes(self, contents: Seq<u8>) -> Seq<u8> {
        Seq::new(
            self.bytes.len(),
            |i: int|
                if self.ramstart <= i < self.ramstart + contents.len() && !(self.protect_start <= i
                    < self.protect_end) {
                    contents[i - self.ramstart]
                } else {
                    self.bytes[i]
                },
        )
    }

    /// The game file's bytes over a span, zeroes past its end.
    pub open spec fn original(self, address: u32, count: u32) -> Seq<u8> {
        Seq::new(
            count as nat,
            |i: int|
                if address + i < self.image.len() {
                    self.image[address + i]
                } else {
                    0u8
                },
        )
    }

    /// The map resized: growth zero-filled, shrinkage discarded.
    pub open spec fn resized_bytes(self, size: u32) -> Seq<u8> {
        Seq::new(size as nat, |i: int| if i < self.bytes.len() { self.bytes[i] } else { 0u8 })
    }

    /// A fill of a run of RAM with one byte value: its verdict and the
    /// map it leaves. An empty run is no write; a run that leaves RAM
    /// is refused and changes nothing.
    pub open spec fn filled(self, address: u32, count: u32, value: u8) -> (
        Result<(), VoxamError>,
        MemoryState,
    ) {
        if count == 0 {
            (Ok(()), self)
        } else if self.writable(address, count as int) {
            (
                Ok(()),
                self.with_bytes(
                    put_run(self.bytes, address as int, Seq::new(count as nat, |i: int| value)),
                ),
            )
        } else {
            (Err(refusal(address, self.ramstart)), self)
        }
    }

    /// A copy of a run within the map: its verdict and the map it
    /// leaves. The source must lie on the map and the destination in
    /// RAM; the source is read whole before a byte lands.
    pub open spec fn copied(self, destination: u32, source: u32, count: u32) -> (
        Result<(), VoxamError>,
        MemoryState,
    ) {
        if count == 0 {
            (Ok(()), self)
        } else if source + count > self.endmem() {
            (Err(VoxamError::OutOfRange { address: source }), self)
        } else if !self.writable(destination, count as int) {
            (Err(refusal(destination, self.ramstart)), self)
        } else {
            (
                Ok(()),
                self.with_bytes(
                    put_run(
                        self.bytes,
                        destination as int,
                        self.bytes.subrange(source as int, source + count),
                    ),
                ),
            )
        }
    }

    /// A resize of the map: its verdict and the map it leaves. Every
    /// size sits on the 256-byte boundary and none falls below the boot
    /// size; growth is zero-filled and shrinkage discards.
    pub open spec fn sized(self, size: u32) -> (Result<(), VoxamError>, MemoryState) {
        if size % 256 != 0 {
            (Err(VoxamError::UnalignedSize { size }), self)
        } else if size < self.boot_endmem {
            (Err(VoxamError::BelowBoot { size, boot: self.boot_endmem }), self)
        } else {
            (Ok(()), self.with_bytes(self.resized_bytes(size)))
        }
    }

    /// The map with its protected range set: a zero length turns
    /// protection off, and a range past the top of the address space
    /// stops there.
    pub open spec fn protected(self, start: u32, length: u32) -> MemoryState {
        if length == 0 {
            MemoryState { protect_start: 0, protect_end: 0, ..self }
        } else {
            MemoryState {
                protect_start: start,
                protect_end: if start + length > u32::MAX {
                    u32::MAX
                } else {
                    (start + length) as u32
                },
                ..self
            }
        }
    }
}

impl Memory {
    /// Lay the stored image into a map grown to ENDMEM.
    ///
    /// The story's header already holds the sizes to their
    /// promises: ENDMEM sits on the 256-byte boundary, at least one
    /// boundary in, and the image and RAMSTART fit inside it.
    pub fn new(image: Vec<u8>, ramstart: u32, endmem: u32) -> (memory: Self)
        requires
            image.len() <= endmem,
            ramstart <= endmem,
            endmem % 256 == 0,
            256 <= endmem,
        ensures
            memory@.bytes == booted(image@, endmem as nat),
            memory@.ramstart == ramstart,
            memory@.boot_endmem == endmem,
            memory@.image == image@,
            memory@.protect_start == 0,
            memory@.protect_end == 0,
            memory@.wf(),
    {
        let data = Self::laid(&image, endmem);
        Self {
            image,
            ramstart,
            boot_endmem: endmem,
            protect_start: 0,
            protect_end: 0,
            data,
        }
    }

    /// The image laid into a zeroed map of a size.
    fn laid(image: &Vec<u8>, size: u32) -> (data: Vec<u8>)
        requires
            image.len() <= size,
        ensures
            data@ == booted(image@, size as nat),
    {
        let mut data: Vec<u8> = Vec::new();
        let mut index: u32 = 0;
        while index < size
            invariant
                index <= size,
                image.len() <= size,
                data@.len() == index,
                forall|i: int|
                    0 <= i < index ==> data@[i] == if i < image@.len() {
                        image@[i]
                    } else {
                        0u8
                    },
            decreases size - index,
        {
            if (index as usize) < image.len() {
                data.push(image[index as usize]);
            } else {
                data.push(0u8);
            }
            index += 1;
        }
        proof {
            assert(data@ == booted(image@, size as nat));
        }
        data
    }

    /// The first writable address (Glulx: The Memory Map).
    pub fn ramstart(&self) -> (ramstart: u32)
        requires
            self@.wf(),
        ensures
            ramstart == self@.ramstart,
    {
        self.ramstart
    }

    /// The current end of the memory map.
    pub fn endmem(&self) -> (endmem: u32)
        requires
            self@.wf(),
        ensures
            endmem == self@.endmem(),
            self@.wf(),
    {
        self.data.len() as u32
    }

    /// The raw backing store, for the instruction decoder only.
    pub fn data(&self) -> (data: &[u8])
        requires
            self@.wf(),
        ensures
            data@ == self@.bytes,
    {
        self.data.as_slice()
    }

    /// Read one byte anywhere in the map.
    pub fn read_byte(&self, address: u32) -> (result: Result<u8, VoxamError>)
        requires
            self@.wf(),
        ensures
            result == if address < self@.endmem() {
                Ok::<u8, VoxamError>(self@.bytes[address as int])
            } else {
                Err(VoxamError::OutOfRange { address })
            },
    {
        if address >= (self.data.len() as u32) {
            return Err(VoxamError::OutOfRange { address });
        }
        Ok(self.data[address as usize])
    }

    /// Read a big-endian 16-bit short, any alignment.
    pub fn read_short(&self, address: u32) -> (result: Result<u16, VoxamError>)
        requires
            self@.wf(),
        ensures
            result == if address + 2 <= self@.endmem() {
                Ok::<u16, VoxamError>(be_short(self@.bytes, address as int))
            } else {
                Err(VoxamError::OutOfRange { address })
            },
    {
        if (self.data.len() as u32) < 2 || address > (self.data.len() as u32) - 2 {
            return Err(VoxamError::OutOfRange { address });
        }
        let at = address as usize;
        let high = self.data[at] as u16;
        let low = self.data[at + 1] as u16;
        Ok(high * 256 + low)
    }

    /// Read a big-endian 32-bit word, any alignment.
    pub fn read_word(&self, address: u32) -> (result: Result<u32, VoxamError>)
        requires
            self@.wf(),
        ensures
            result == if address + 4 <= self@.endmem() {
                Ok::<u32, VoxamError>(be_word(self@.bytes, address as int))
            } else {
                Err(VoxamError::OutOfRange { address })
            },
    {
        if (self.data.len() as u32) < 4 || address > (self.data.len() as u32) - 4 {
            return Err(VoxamError::OutOfRange { address });
        }
        let at = address as usize;
        let b0 = self.data[at] as u32;
        let b1 = self.data[at + 1] as u32;
        let b2 = self.data[at + 2] as u32;
        let b3 = self.data[at + 3] as u32;
        Ok(b0 * 16777216 + b1 * 65536 + b2 * 256 + b3)
    }

    /// Read at an operand's width: 1, 2, or 4 bytes.
    pub fn read(&self, address: u32, width: u32) -> (result: Result<u32, VoxamError>)
        requires
            self@.wf(),
        ensures
            result == if address + span_of(width) <= self@.endmem() {
                Ok::<u32, VoxamError>(read_at(self@.bytes, address as int, width))
            } else {
                Err(VoxamError::OutOfRange { address })
            },
    {
        if width == 4 {
            self.read_word(address)
        } else if width == 1 {
            match self.read_byte(address) {
                Ok(value) => Ok(value as u32),
                Err(error) => Err(error),
            }
        } else {
            match self.read_short(address) {
                Ok(value) => Ok(value as u32),
                Err(error) => Err(error),
            }
        }
    }

    /// Read a run of bytes; an empty run needs no address at all.
    pub fn read_run(&self, address: u32, count: u32) -> (result: Result<Vec<u8>, VoxamError>)
        requires
            self@.wf(),
        ensures
            match result {
                Ok(run) => if count == 0 {
                    run@ == Seq::<u8>::empty()
                } else {
                    address + count <= self@.endmem() && run@ == self@.bytes.subrange(
                        address as int,
                        address + count,
                    )
                },
                Err(error) => count > 0 && address + count > self@.endmem() && error
                    == VoxamError::OutOfRange { address },
            },
    {
        let mut run: Vec<u8> = Vec::new();
        if count == 0 {
            return Ok(run);
        }
        if address as u64 + count as u64 > self.data.len() as u64 {
            return Err(VoxamError::OutOfRange { address });
        }
        let end = address as usize + count as usize;
        let mut at = address as usize;
        while at < end
            invariant
                address <= at <= end,
                end == address + count,
                end <= self.data@.len(),
                run@ == self.data@.subrange(address as int, at as int),
            decreases end - at,
        {
            run.push(self.data[at]);
            at += 1;
        }
        Ok(run)
    }

    /// Hold a run to the map (Glulx: The Memory Map).
    fn require_readable(&self, address: u32, count: u32) -> (result: Result<(), VoxamError>)
        requires
            self@.wf(),
        ensures
            result == if address + count <= self@.endmem() {
                Ok::<(), VoxamError>(())
            } else {
                Err(VoxamError::OutOfRange { address })
            },
    {
        if address as u64 + count as u64 > self.data.len() as u64 {
            return Err(VoxamError::OutOfRange { address });
        }
        Ok(())
    }

    /// Hold a run to RAM (Glulx: The Memory Map).
    fn require_writable(&self, address: u32, count: u32) -> (result: Result<(), VoxamError>)
        requires
            self@.wf(),
        ensures
            result == if self@.writable(address, count as int) {
                Ok::<(), VoxamError>(())
            } else {
                Err(refusal(address, self@.ramstart))
            },
    {
        if address < self.ramstart || address as u64 + count as u64 > self.data.len() as u64 {
            return Err(Self::refused(address, self.ramstart));
        }
        Ok(())
    }

    /// Why a write was refused: ROM below RAMSTART, or off the map.
    fn refused(address: u32, ramstart: u32) -> (error: VoxamError)
        ensures
            error == refusal(address, ramstart),
    {
        if address < ramstart {
            return VoxamError::RomWrite { address, ramstart };
        }
        VoxamError::OutOfRange { address }
    }

    /// Write one byte into RAM.
    pub fn write_byte(&mut self, address: u32, value: u8) -> (result: Result<(), VoxamError>)
        requires
            old(self)@.wf(),
        ensures
            final(self)@.wf(),
            result == if old(self)@.writable(address, 1) {
                Ok::<(), VoxamError>(())
            } else {
                Err(refusal(address, old(self)@.ramstart))
            },
            final(self)@ == if old(self)@.writable(address, 1) {
                old(self)@.with_bytes(old(self)@.bytes.update(address as int, value))
            } else {
                old(self)@
            },
    {
        if address < self.ramstart || address >= (self.data.len() as u32) {
            return Err(Self::refused(address, self.ramstart));
        }
        self.data.set(address as usize, value);
        Ok(())
    }

    /// Write a big-endian short into RAM.
    pub fn write_short(&mut self, address: u32, value: u16) -> (result: Result<(), VoxamError>)
        requires
            old(self)@.wf(),
        ensures
            final(self)@.wf(),
            result == if old(self)@.writable(address, 2) {
                Ok::<(), VoxamError>(())
            } else {
                Err(refusal(address, old(self)@.ramstart))
            },
            final(self)@ == if old(self)@.writable(address, 2) {
                old(self)@.with_bytes(put_short(old(self)@.bytes, address as int, value))
            } else {
                old(self)@
            },
    {
        if address < self.ramstart || address > (self.data.len() as u32) - 2 {
            return Err(Self::refused(address, self.ramstart));
        }
        let at = address as usize;
        self.data.set(at, (value / 256) as u8);
        self.data.set(at + 1, (value % 256) as u8);
        Ok(())
    }

    /// Write a big-endian word into RAM.
    pub fn write_word(&mut self, address: u32, value: u32) -> (result: Result<(), VoxamError>)
        requires
            old(self)@.wf(),
        ensures
            final(self)@.wf(),
            result == if old(self)@.writable(address, 4) {
                Ok::<(), VoxamError>(())
            } else {
                Err(refusal(address, old(self)@.ramstart))
            },
            final(self)@ == if old(self)@.writable(address, 4) {
                old(self)@.with_bytes(put_word(old(self)@.bytes, address as int, value))
            } else {
                old(self)@
            },
    {
        if address < self.ramstart || address > (self.data.len() as u32) - 4 {
            return Err(Self::refused(address, self.ramstart));
        }
        let at = address as usize;
        self.data.set(at, (value / 16777216) as u8);
        self.data.set(at + 1, ((value / 65536) % 256) as u8);
        self.data.set(at + 2, ((value / 256) % 256) as u8);
        self.data.set(at + 3, (value % 256) as u8);
        Ok(())
    }

    /// Write at an operand's width, the value masked to it.
    pub fn write(&mut self, address: u32, width: u32, value: u32) -> (result: Result<
        (),
        VoxamError,
    >)
        requires
            old(self)@.wf(),
        ensures
            final(self)@.wf(),
            result == if old(self)@.writable(address, span_of(width)) {
                Ok::<(), VoxamError>(())
            } else {
                Err(refusal(address, old(self)@.ramstart))
            },
            final(self)@ == if old(self)@.writable(address, span_of(width)) {
                old(self)@.with_bytes(write_at(old(self)@.bytes, address as int, width, value))
            } else {
                old(self)@
            },
    {
        if width == 4 {
            self.write_word(address, value)
        } else if width == 1 {
            self.write_byte(address, (value % 256) as u8)
        } else {
            self.write_short(address, (value % 65536) as u16)
        }
    }

    /// Write a run of bytes into RAM; an empty run writes nowhere.
    pub fn write_run(&mut self, address: u32, data: &[u8]) -> (result: Result<(), VoxamError>)
        requires
            old(self)@.wf(),
            data.len() <= u32::MAX,
        ensures
            final(self)@.wf(),
            result == if data.len() == 0 || old(self)@.writable(address, data.len() as int) {
                Ok::<(), VoxamError>(())
            } else {
                Err(refusal(address, old(self)@.ramstart))
            },
            final(self)@ == if data.len() > 0 && old(self)@.writable(address, data.len() as int) {
                old(self)@.with_bytes(put_run(old(self)@.bytes, address as int, data@))
            } else {
                old(self)@
            },
    {
        if data.len() == 0 {
            return Ok(());
        }
        match self.require_writable(address, data.len() as u32) {
            Err(error) => return Err(error),
            Ok(()) => {},
        }
        let ghost start_state = self@;
        let ghost before = self.data@;
        let at = address as usize;
        let mut index: usize = 0;
        while index < data.len()
            invariant
                start_state.wf(),
                self@ == start_state.with_bytes(self.data@),
                before == start_state.bytes,
                index <= data.len(),
                at + data.len() <= self.data@.len(),
                self.data@.len() == before.len(),
                forall|i: int|
                    0 <= i < before.len() ==> self.data@[i] == if at <= i < at + index {
                        data@[i - at]
                    } else {
                        before[i]
                    },
            decreases data.len() - index,
        {
            self.data.set(at + index, data[index]);
            index += 1;
        }
        proof {
            assert(self.data@ == put_run(before, address as int, data@));
        }
        Ok(())
    }

    /// Set a run of RAM bytes to one value -- mzero's work.
    pub fn fill(&mut self, address: u32, count: u32, value: u8) -> (result: Result<(), VoxamError>)
        requires
            old(self)@.wf(),
        ensures
            final(self)@.wf(),
            (result, final(self)@) == old(self)@.filled(address, count, value),
    {
        if count == 0 {
            return Ok(());
        }
        match self.require_writable(address, count) {
            Err(error) => return Err(error),
            Ok(()) => {},
        }
        let ghost start_state = self@;
        let ghost before = self.data@;
        let at = address as usize;
        let end = at + count as usize;
        let mut index: usize = at;
        while index < end
            invariant
                start_state.wf(),
                self@ == start_state.with_bytes(self.data@),
                before == start_state.bytes,
                at <= index <= end,
                end == at + count,
                end <= self.data@.len(),
                self.data@.len() == before.len(),
                forall|i: int|
                    0 <= i < before.len() ==> self.data@[i] == if at <= i < index {
                        value
                    } else {
                        before[i]
                    },
            decreases end - index,
        {
            self.data.set(index, value);
            index += 1;
        }
        proof {
            assert(self.data@ == put_run(
                before,
                address as int,
                Seq::new(count as nat, |i: int| value),
            ));
        }
        Ok(())
    }

    /// Copy a run within memory -- mcopy's work. Overlap is handled
    /// correctly: the source is read out whole before a byte lands.
    pub fn copy(&mut self, destination: u32, source: u32, count: u32) -> (result: Result<
        (),
        VoxamError,
    >)
        requires
            old(self)@.wf(),
        ensures
            final(self)@.wf(),
            (result, final(self)@) == old(self)@.copied(destination, source, count),
    {
        if count == 0 {
            return Ok(());
        }
        match self.require_readable(source, count) {
            Err(error) => return Err(error),
            Ok(()) => {},
        }
        match self.require_writable(destination, count) {
            Err(error) => return Err(error),
            Ok(()) => {},
        }
        let held = match self.read_run(source, count) {
            Ok(run) => run,
            Err(error) => return Err(error),
        };
        self.write_run(destination, held.as_slice())
    }

    /// Resize the memory map -- setmemsize's work: growth is
    /// zero-filled and shrinkage discards, but the map never
    /// shrinks below its boot ENDMEM, and every size sits on the
    /// 256-byte boundary (Glulx: Game State).
    pub fn set_size(&mut self, size: u32) -> (result: Result<(), VoxamError>)
        requires
            old(self)@.wf(),
        ensures
            final(self)@.wf(),
            (result, final(self)@) == old(self)@.sized(size),
    {
        if size % BOUNDARY != 0 {
            return Err(VoxamError::UnalignedSize { size });
        }
        if size < self.boot_endmem {
            return Err(VoxamError::BelowBoot { size, boot: self.boot_endmem });
        }
        let mut data: Vec<u8> = Vec::new();
        let mut index: usize = 0;
        while index < size as usize
            invariant
                index <= size,
                data@.len() == index,
                self@.wf(),
                forall|i: int|
                    0 <= i < index ==> data@[i] == if i < self.data@.len() {
                        self.data@[i]
                    } else {
                        0u8
                    },
            decreases size - index,
        {
            if index < self.data.len() {
                data.push(self.data[index]);
            } else {
                data.push(0u8);
            }
            index += 1;
        }
        proof {
            assert(data@ == self@.resized_bytes(size));
        }
        self.data = data;
        Ok(())
    }

    /// Mark the range restart and restore leave alone -- protect's
    /// work. One range exists at a time, a zero length turns
    /// protection off, and the range is deliberately not part of
    /// saved state (Glulx: Game State).
    pub fn set_protection(&mut self, start: u32, length: u32)
        requires
            old(self)@.wf(),
        ensures
            final(self)@ == old(self)@.protected(start, length),
            final(self)@.wf(),
    {
        if length == 0 {
            self.protect_start = 0;
            self.protect_end = 0;
        } else {
            self.protect_start = start;
            self.protect_end = start.saturating_add(length);
        }
    }

    /// What the game file held over a span; zeroes past its end
    /// (Glulx: The Save-Game Format).
    pub fn original_run(&self, address: u32, count: u32) -> (run: Vec<u8>)
        requires
            self@.wf(),
        ensures
            run@ == self@.original(address, count),
    {
        let mut run: Vec<u8> = Vec::new();
        let mut index: u32 = 0;
        while index < count
            invariant
                index <= count,
                run@.len() == index,
                self.image@.len() <= u32::MAX,
                forall|i: int|
                    0 <= i < index ==> run@[i] == if address + i < self.image@.len() {
                        self.image@[address + i]
                    } else {
                        0u8
                    },
            decreases count - index,
        {
            let at = address as u64 + index as u64;
            if at < self.image.len() as u64 {
                run.push(self.image[at as usize]);
            } else {
                run.push(0u8);
            }
            index += 1;
        }
        proof {
            assert(run@ == self@.original(address, count));
        }
        run
    }

    /// Lay restored RAM in from RAMSTART, sparing protection: the
    /// protected range is "silently unaffected" by a restore
    /// (Glulx: Game State).
    pub fn overwrite_ram(&mut self, contents: &[u8])
        requires
            old(self)@.wf(),
            old(self)@.ramstart + contents.len() <= old(self)@.endmem(),
        ensures
            final(self)@ == old(self)@.with_bytes(old(self)@.restored_bytes(contents@)),
            final(self)@.wf(),
    {
        let ghost start_state = self@;
        let start = self.ramstart as usize;
        let end = start + contents.len();
        let low = if (self.protect_start as usize) > start {
            self.protect_start as usize
        } else {
            start
        };
        let high = if (self.protect_end as usize) < end {
            self.protect_end as usize
        } else {
            end
        };
        let mut at = start;
        while at < end
            invariant
                start_state.wf(),
                self@ == start_state.with_bytes(self.data@),
                start == start_state.ramstart,
                end == start + contents@.len(),
                end <= start_state.bytes.len(),
                start <= at <= end,
                low == if start_state.protect_start > start {
                    start_state.protect_start as int
                } else {
                    start as int
                },
                high == if start_state.protect_end < end {
                    start_state.protect_end as int
                } else {
                    end as int
                },
                self.data@.len() == start_state.bytes.len(),
                forall|i: int|
                    0 <= i < self.data@.len() ==> self.data@[i] == if start <= i < at
                        && !(low <= i < high) {
                        contents@[i - start]
                    } else {
                        start_state.bytes[i]
                    },
            decreases end - at,
        {
            if high <= low || at < low || at >= high {
                self.data.set(at, contents[at - start]);
            }
            at += 1;
        }
        proof {
            assert(self.data@ == start_state.restored_bytes(contents@));
        }
    }

    /// Restore the boot image whole -- restart's work. The
    /// protected range is "silently unaffected" (Glulx: Game
    /// State), surviving even above EXTSTART, and the map returns
    /// to its boot size.
    pub fn reset(&mut self)
        requires
            old(self)@.wf(),
        ensures
            final(self)@ == old(self)@.with_bytes(old(self)@.reset_bytes()),
            final(self)@.wf(),
    {
        let ghost start_state = self@;
        let saved = self.protected_copy();
        let mut data = Self::laid(&self.image, self.boot_endmem);
        if let Some((start, held)) = saved {
            let start = start as usize;
            let reach = start + held.len();
            let end = if reach < data.len() {
                reach
            } else {
                data.len()
            };
            let mut at = start;
            while at < end
                invariant
                    start <= at,
                    at <= end || at == start,
                    end <= data@.len(),
                    end <= start + held@.len(),
                    data@.len() == start_state.boot_endmem,
                    forall|i: int|
                        0 <= i < data@.len() ==> data@[i] == if start <= i < at {
                            held@[i - start]
                        } else {
                            booted(start_state.image, start_state.boot_endmem as nat)[i]
                        },
                decreases end - at,
            {
                data.set(at, held[at - start]);
                at += 1;
            }
            proof {
                assert forall|i: int| 0 <= i < data@.len() implies data@[i]
                    == start_state.reset_bytes()[i] by {
                    if start <= i < at {
                        assert(held@[i - start] == start_state.bytes[i]);
                    }
                }
                assert(data@ == start_state.reset_bytes());
            }
        } else {
            proof {
                assert(data@ == start_state.reset_bytes());
            }
        }
        self.data = data;
    }

    /// The protected range's live bytes, None when none is set.
    fn protected_copy(&self) -> (saved: Option<(u32, Vec<u8>)>)
        requires
            self@.wf(),
        ensures
            match saved {
                None => self@.protect_start >= self@.protect_end || self@.protect_start
                    >= self@.endmem(),
                Some((start, held)) => {
                    &&& start == self@.protect_start
                    &&& start < self@.protect_end
                    &&& start < self@.endmem()
                    &&& held@ == self@.bytes.subrange(
                        start as int,
                        if self@.protect_end < self@.endmem() {
                            self@.protect_end as int
                        } else {
                            self@.endmem() as int
                        },
                    )
                },
            },
    {
        let start = self.protect_start;
        let endmem = self.data.len() as u32;
        let end = if self.protect_end < endmem {
            self.protect_end
        } else {
            endmem
        };
        if end <= start {
            return None;
        }
        match self.read_run(start, end - start) {
            Ok(held) => Some((start, held)),
            Err(_) => None,
        }
    }
}

/// A word laid in big-endian reads back as itself.
pub proof fn word_reads_back(bytes: Seq<u8>, at: int, value: u32)
    requires
        0 <= at,
        at + 4 <= bytes.len(),
    ensures
        be_word(put_word(bytes, at, value), at) == value,
{
    let laid = put_word(bytes, at, value);
    let v = value as int;
    assert(laid[at] == v / 16777216);
    assert(laid[at + 1] == (v / 65536) % 256);
    assert(laid[at + 2] == (v / 256) % 256);
    assert(laid[at + 3] == v % 256);
    assert((v / 16777216) * 16777216 + ((v / 65536) % 256) * 65536 + ((v / 256) % 256) * 256 + v
        % 256 == v) by (nonlinear_arith)
        requires
            0 <= v < 4294967296,
    ;
}

/// A run a map accepts reads back as itself: the bytes it was written
/// over hold exactly the run, its length fits a count, and every byte
/// outside it is as it was.
pub proof fn runs_read_back(state: MemoryState, at: u32, run: Seq<u8>)
    requires
        state.wf(),
        run.len() > 0,
        state.writable(at, run.len() as int),
    ensures
        run.len() <= u32::MAX,
        put_run(state.bytes, at as int, run).subrange(at as int, at + run.len()) == run,
        state.with_bytes(put_run(state.bytes, at as int, run)).wf(),
        forall|i: int|
            0 <= i < state.bytes.len() && !(at <= i < at + run.len()) ==> #[trigger] put_run(
                state.bytes,
                at as int,
                run,
            )[i] == state.bytes[i],
{
    assert(put_run(state.bytes, at as int, run).subrange(at as int, at + run.len()) =~= run);
}

/// A short laid in big-endian reads back as itself.
pub proof fn short_reads_back(bytes: Seq<u8>, at: int, value: u16)
    requires
        0 <= at,
        at + 2 <= bytes.len(),
    ensures
        be_short(put_short(bytes, at, value), at) == value,
{
    let v = value as int;
    assert((v / 256) * 256 + v % 256 == v) by (nonlinear_arith)
        requires
            0 <= v < 65536,
    ;
}

/// Whatever width a value is written at, reading at that width
/// gives the value back masked to the width.
pub proof fn width_reads_back(bytes: Seq<u8>, at: int, width: u32, value: u32)
    requires
        0 <= at,
        at + span_of(width) <= bytes.len(),
    ensures
        read_at(write_at(bytes, at, width, value), at, width) == if width == 4 {
            value
        } else if width == 1 {
            value % 256
        } else {
            value % 65536
        },
{
    if width == 4 {
        word_reads_back(bytes, at, value);
    } else if width == 1 {
    } else {
        short_reads_back(bytes, at, (value % 65536) as u16);
    }
}

/// A width-selected write touches only its own bytes: everything
/// outside the span reads as before.
pub proof fn writes_touch_only_their_span(bytes: Seq<u8>, at: int, width: u32, value: u32, i: int)
    requires
        0 <= at,
        at + span_of(width) <= bytes.len(),
        0 <= i < bytes.len(),
        !(at <= i < at + span_of(width)),
    ensures
        write_at(bytes, at, width, value)[i] == bytes[i],
        write_at(bytes, at, width, value).len() == bytes.len(),
{
}

/// ROM is sacred: a write the map accepts leaves every byte below
/// RAMSTART as it was.
pub proof fn accepted_writes_spare_rom(state: MemoryState, at: u32, width: u32, value: u32)
    requires
        state.wf(),
        state.writable(at, span_of(width)),
    ensures
        forall|i: int|
            0 <= i < state.ramstart ==> #[trigger] write_at(state.bytes, at as int, width, value)[i]
                == state.bytes[i],
{
}

/// A restart keeps the protected range's live bytes, lays the rest
/// of the boot image back, and returns the map to its boot size.
pub proof fn restart_keeps_protection(state: MemoryState)
    requires
        state.wf(),
    ensures
        state.reset_bytes().len() == state.boot_endmem,
        forall|i: int|
            state.protect_start <= i < state.protect_end && i < state.boot_endmem ==> #[trigger] state.reset_bytes()[i]
                == state.bytes[i],
        forall|i: int|
            0 <= i < state.boot_endmem && !(state.protect_start <= i < state.protect_end) ==> #[trigger] state.reset_bytes()[i]
                == booted(state.image, state.boot_endmem as nat)[i],
{
}

/// Restarting twice is restarting once.
pub proof fn restart_is_idempotent(state: MemoryState)
    requires
        state.wf(),
    ensures
        state.with_bytes(state.reset_bytes()).reset_bytes() == state.reset_bytes(),
{
    let once = state.with_bytes(state.reset_bytes());
    assert(once.reset_bytes() =~= state.reset_bytes());
}

/// A restore spares the protected range.
pub proof fn restore_spares_protection(state: MemoryState, contents: Seq<u8>)
    requires
        state.wf(),
    ensures
        forall|i: int|
            state.protect_start <= i < state.protect_end && 0 <= i < state.bytes.len() ==> #[trigger] state.restored_bytes(contents)[i]
                == state.bytes[i],
{
}

/// Growing and shrinking keep what lies below both sizes, and
/// growth reads as zero.
pub proof fn resizing_keeps_the_low_bytes(state: MemoryState, size: u32)
    ensures
        forall|i: int|
            0 <= i < size && i < state.bytes.len() ==> #[trigger] state.resized_bytes(size)[i]
                == state.bytes[i],
        forall|i: int|
            state.bytes.len() <= i < size ==> #[trigger] state.resized_bytes(size)[i] == 0u8,
{
}

} // verus!
