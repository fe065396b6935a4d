//! The dynamic allocation heap (Glulx: Memory Allocation Heap).
//!
//! Allocated blocks live above ENDMEM. The first malloc activates
//! the heap: the current end of memory becomes the heap's start
//! address, and the map grows from there. Freeing the last block
//! deactivates it and shrinks memory back to where it began.
//!
//! The block list covers the heap completely and in address order
//! -- the first block starts at the heap's start, each one ends
//! where the next begins, and the last ends at endmem. Free blocks
//! are part of that list rather than a separate free-list, which is
//! why coalescing is something the allocator does as it searches.
//! The heap does not hold the memory map: the methods that grow or
//! shrink it take the map as an argument.

use vstd::prelude::*;

use crate::error::VoxamError;
use crate::memory::{Memory, MemoryState};

verus! {

/// Memory grows in 256-byte units, like every Glulx boundary.
const GRAIN: u32 = 0x100;

/// One span of the heap, allocated or free.
#[derive(Debug, Clone, Copy, PartialEq, Eq, Structural)]
pub struct Block {
    /// Where the span begins.
    pub address: u32,
    /// How many bytes it covers.
    pub length: u32,
    /// Whether the span is unclaimed.
    pub free: bool,
}

/// Where a block ends.
pub open spec fn end_of(block: Block) -> int {
    block.address + block.length
}

/// Whether the block at a position ends where its successor begins.
pub open spec fn adjacent(blocks: Seq<Block>, i: int) -> bool {
    end_of(blocks[i]) == blocks[i + 1].address
}

/// Whether a block list lays end to end, no block empty, from one
/// address to another.
pub open spec fn tiles(blocks: Seq<Block>, from: int, to: int) -> bool {
    &&& blocks.len() > 0
    &&& blocks[0].address == from
    &&& end_of(blocks.last()) == to
    &&& forall|i: int| 0 <= i < blocks.len() ==> #[trigger] blocks[i].length > 0
    &&& forall|i: int| 0 <= i < blocks.len() - 1 ==> #[trigger] adjacent(blocks, i)
}

/// The allocated blocks, in order.
pub open spec fn extant(blocks: Seq<Block>) -> Seq<Block>
    decreases blocks.len(),
{
    if blocks.len() == 0 {
        Seq::empty()
    } else {
        let rest = extant(blocks.drop_last());
        if blocks.last().free {
            rest
        } else {
            rest.push(blocks.last())
        }
    }
}

/// Where the gap before the k-th allocated block begins: the heap's
/// start, or the end of the allocated block before it. Gap
/// `extant.len()` is the tail, out to endmem.
pub open spec fn gap_start(start: int, allocated: Seq<Block>, k: int) -> int {
    if k == 0 {
        start
    } else {
        end_of(allocated[k - 1])
    }
}

/// Whether a span of a length at an address meets no allocated
/// block and ends inside the map.
pub open spec fn room(allocated: Seq<Block>, endmem: int, at: int, length: int) -> bool {
    &&& at + length <= endmem
    &&& forall|j: int|
        0 <= j < allocated.len() ==> end_of(#[trigger] allocated[j]) <= at || allocated[j].address
            >= at + length
}

/// Whether the k-th gap can hold a length.
pub open spec fn fits(start: int, allocated: Seq<Block>, endmem: int, length: int, k: int) -> bool {
    0 <= k <= allocated.len() && room(allocated, endmem, gap_start(start, allocated, k), length)
}

/// Whether k is the first gap that can hold a length: first fit.
pub open spec fn first_fit(
    start: int,
    allocated: Seq<Block>,
    endmem: int,
    length: int,
    k: int,
) -> bool {
    &&& fits(start, allocated, endmem, length, k)
    &&& forall|other: int| 0 <= other < k ==> !#[trigger] fits(start, allocated, endmem, length, other)
}

/// Whether no gap can hold a length.
pub open spec fn no_fit(start: int, allocated: Seq<Block>, endmem: int, length: int) -> bool {
    forall|k: int| 0 <= k <= allocated.len() ==> !#[trigger] fits(start, allocated, endmem, length, k)
}

/// How far a heap grows for a request: double, or the request, or
/// one grain -- whichever is largest -- rounded up to the grain.
pub open spec fn extension(held: int, length: int) -> int {
    let wanted = if held >= length && held >= 256 {
        held
    } else if length >= 256 {
        length
    } else {
        256
    };
    (wanted + 255) / 256 * 256
}

/// The heap's words for the save format: start, count, then each
/// extant block's address and length.
pub open spec fn pairs(allocated: Seq<Block>) -> Seq<u32>
    decreases allocated.len(),
{
    if allocated.len() == 0 {
        Seq::empty()
    } else {
        pairs(allocated.drop_last()).push(allocated.last().address).push(allocated.last().length)
    }
}

/// The block list a summary rebuilds: each extant block in turn,
/// the gap before it free, and the space after the last free out
/// to endmem.
pub open spec fn rebuilt(cursor: int, extant_words: Seq<u32>, endmem: int) -> Seq<Block>
    decreases extant_words.len(),
{
    if extant_words.len() < 2 {
        if cursor < endmem {
            seq![Block { address: cursor as u32, length: (endmem - cursor) as u32, free: true }]
        } else {
            Seq::empty()
        }
    } else {
        let address = extant_words[0];
        let length = extant_words[1];
        let gap = if cursor < address {
            seq![Block { address: cursor as u32, length: (address - cursor) as u32, free: true }]
        } else {
            Seq::<Block>::empty()
        };
        gap + seq![Block { address, length, free: false }] + rebuilt(
            address + length,
            extant_words.subrange(2, extant_words.len() as int),
            endmem,
        )
    }
}

/// The allocation heap for one machine.
#[derive(Debug)]
pub struct Heap {
    /// The heap's start address; zero means inactive.
    pub start: u32,
    /// Every span, allocated and free, in address order.
    pub blocks: Vec<Block>,
    /// How many blocks are currently allocated.
    pub alloc_count: u32,
}

impl Heap {
    /// The allocated blocks, in address order.
    pub open spec fn allocated(&self) -> Seq<Block> {
        extant(self.blocks@)
    }

    /// Whether the heap is active.
    pub open spec fn is_active(&self) -> bool {
        self.start != 0
    }

    /// What every heap over a map keeps: inactive with nothing in
    /// it, or active with its blocks tiling from its start -- a
    /// boundary-aligned address at or past the boot size -- to the
    /// end of the map, and at least one of them allocated.
    pub open spec fn wf(&self, memory: MemoryState) -> bool {
        if self.start == 0 {
            &&& self.blocks@.len() == 0
            &&& self.alloc_count == 0
        } else {
            &&& tiles(self.blocks@, self.start as int, memory.endmem() as int)
            &&& self.start % 256 == 0
            &&& memory.boot_endmem <= self.start
            &&& self.alloc_count == self.allocated().len()
            &&& self.alloc_count > 0
        }
    }

    /// The summary words a heap gives.
    pub open spec fn summary_words(&self) -> Seq<u32> {
        if self.start == 0 {
            Seq::empty()
        } else {
            seq![self.start, self.alloc_count] + pairs(self.allocated())
        }
    }
}

/// What an allocation of `length` bytes does: refused for an empty
/// request; otherwise the first gap that fits takes the block, or the
/// map grows to hold it after the last block, or, where the map cannot
/// grow that far, nothing changes and the address is zero (Glulx:
/// Memory Allocation Heap).
pub open spec fn allocation(
    before: Heap,
    memory: MemoryState,
    length: u32,
    after: Heap,
    after_memory: MemoryState,
    result: Result<u32, VoxamError>,
) -> bool {
    &&& (length == 0 ==> result == Err::<u32, VoxamError>(VoxamError::EmptyAllocation)
        && after == before && after_memory == memory)
    &&& (length > 0 && before.is_active() && !no_fit(
        before.start as int,
        before.allocated(),
        memory.endmem() as int,
        length as int,
    ) ==> exists|k: int|
        {
            &&& first_fit(
                before.start as int,
                before.allocated(),
                memory.endmem() as int,
                length as int,
                k,
            )
            &&& result == Ok::<u32, VoxamError>(
                gap_start(before.start as int, before.allocated(), k) as u32,
            )
            &&& after.allocated() == before.allocated().insert(
                k,
                Block {
                    address: gap_start(before.start as int, before.allocated(), k) as u32,
                    length,
                    free: false,
                },
            )
            &&& after_memory == memory
            &&& after.start == before.start
        })
    &&& (length > 0 && (!before.is_active() || no_fit(
        before.start as int,
        before.allocated(),
        memory.endmem() as int,
        length as int,
    )) ==> ({
        let endmem = memory.endmem() as int;
        let held = if before.start != 0 {
            endmem - before.start
        } else {
            0
        };
        let size = endmem + extension(held, length as int);
        let start = if before.start != 0 {
            before.start as int
        } else {
            endmem
        };
        let address = gap_start(start, before.allocated(), before.allocated().len() as int);
        if size > u32::MAX {
            &&& result == Ok::<u32, VoxamError>(0)
            &&& after.allocated() == before.allocated()
            &&& after.start == before.start
            &&& after_memory == memory
        } else {
            &&& result == Ok::<u32, VoxamError>(address as u32)
            &&& after.allocated() == before.allocated().push(
                Block { address: address as u32, length, free: false },
            )
            &&& after.start == start
            &&& after_memory == memory.with_bytes(
                memory.resized_bytes(size as u32),
            )
        }
    }))
}

/// What freeing the block at `address` does: refused, changing
/// nothing, where no allocated block begins there; otherwise the block
/// leaves the allocated ones, and freeing the last of them retires the
/// heap and gives its memory back (Glulx: Memory Allocation Heap).
pub open spec fn freeing(
    before: Heap,
    memory: MemoryState,
    address: u32,
    after: Heap,
    after_memory: MemoryState,
    result: Result<(), VoxamError>,
) -> bool {
    &&& (match result {
        Ok(()) => exists|j: int|
            0 <= j < before.allocated().len() && (#[trigger] before.allocated()[j]).address
                == address && after.allocated() == before.allocated().remove(j),
        Err(error) => error == (VoxamError::NoHeapBlock { address }) && forall|j: int|
            0 <= j < before.allocated().len() ==> (
            #[trigger] before.allocated()[j]).address != address,
    })
    &&& (result is Err ==> after == before && after_memory == memory)
    &&& (result is Ok && after.allocated().len() == 0 ==> {
        &&& !after.is_active()
        &&& after_memory == memory.with_bytes(
            memory.resized_bytes(before.start),
        )
    })
    &&& (result is Ok && after.allocated().len() > 0 ==> after_memory == memory && after.start
        == before.start)
}

// -- facts about tilings and their allocated blocks --------------------------

/// The summary words of a concatenation are those of each part.
pub proof fn lemma_pairs_concat(a: Seq<Block>, b: Seq<Block>)
    ensures
        pairs(a + b) == pairs(a) + pairs(b),
    decreases b.len(),
{
    if b.len() == 0 {
        assert(a + b == a);
        assert(pairs(a) + pairs(b) == pairs(a));
    } else {
        lemma_pairs_concat(a, b.drop_last());
        assert((a + b).drop_last() == a + b.drop_last());
        assert((a + b).last() == b.last());
        assert(pairs(a + b) == (pairs(a) + pairs(b.drop_last())).push(b.last().address).push(
            b.last().length,
        ));
        assert((pairs(a) + pairs(b.drop_last())).push(b.last().address).push(b.last().length)
            == pairs(a) + pairs(b.drop_last()).push(b.last().address).push(b.last().length));
    }
}

/// An allocation in the summary: when a heap's allocated blocks are
/// another's with one block placed among them at position `k`, and the
/// heap keeps its invariant, its summary is the other's blocks' words
/// with the count one higher and the new block's address and length
/// set in at the block's place.
pub proof fn allocation_in_summary(
    before: Seq<Block>,
    after: Heap,
    memory: MemoryState,
    k: int,
    block: Block,
)
    requires
        after.wf(memory),
        0 <= k <= before.len(),
        after.allocated() == before.insert(k, block),
    ensures
        after.summary_words() == seq![after.start, (before.len() + 1) as u32] + pairs(
            before.take(k),
        ) + seq![block.address, block.length] + pairs(before.skip(k)),
{
    assert(after.allocated().len() == before.len() + 1);
    assert(after.start != 0) by {
        if after.start == 0 {
            assert(after.blocks@.len() == 0);
            assert(extant(after.blocks@) == Seq::<Block>::empty());
        }
    }
    assert(before.insert(k, block) == before.take(k) + seq![block] + before.skip(k));
    lemma_pairs_concat(before.take(k) + seq![block], before.skip(k));
    lemma_pairs_concat(before.take(k), seq![block]);
    assert(seq![block].drop_last() == Seq::<Block>::empty());
    assert(seq![block].last() == block);
    assert(pairs(Seq::<Block>::empty()) == Seq::<u32>::empty());
    assert(pairs(seq![block]) == Seq::<u32>::empty().push(block.address).push(block.length));
    assert(pairs(seq![block]) == seq![block.address, block.length]);
}

/// Every allocated block of a list is among its allocated blocks.
pub proof fn lemma_extant_contains(blocks: Seq<Block>, m: int)
    requires
        0 <= m < blocks.len(),
        !blocks[m].free,
    ensures
        exists|j: int| 0 <= j < extant(blocks).len() && #[trigger] extant(blocks)[j] == blocks[m],
    decreases blocks.len(),
{
    let rest = blocks.drop_last();
    if m == blocks.len() - 1 {
        assert(extant(blocks)[extant(rest).len() as int] == blocks[m]);
    } else {
        lemma_extant_contains(rest, m);
        let j = choose|j: int| 0 <= j < extant(rest).len() && #[trigger] extant(rest)[j] == rest[m];
        assert(extant(blocks)[j] == blocks[m]);
    }
}

/// Freeing refuses exactly an address at which no allocated block of
/// the heap begins. A granted free leaves one allocated block fewer,
/// and freeing the last one retires the heap, empties its list, and
/// gives the map back down to where the heap began.
pub proof fn freeing_refuses_exactly_unallocated(
    before: Heap,
    memory: MemoryState,
    address: u32,
    after: Heap,
    after_memory: MemoryState,
    result: Result<(), VoxamError>,
)
    requires
        before.wf(memory),
        after.wf(after_memory),
        freeing(before, memory, address, after, after_memory, result),
    ensures
        result is Err <==> !exists|i: int|
            0 <= i < before.blocks@.len() && #[trigger] before.blocks@[i].address == address
                && !before.blocks@[i].free,
        result is Ok ==> after.alloc_count == before.alloc_count - 1,
        result is Ok && after.alloc_count == 0 ==> !after.is_active() && after.blocks@.len() == 0
            && after_memory.endmem() == before.start,
{
    lemma_extant_members(before.blocks@);
    if result is Err {
        if exists|i: int|
            0 <= i < before.blocks@.len() && #[trigger] before.blocks@[i].address == address
                && !before.blocks@[i].free {
            let i = choose|i: int|
                0 <= i < before.blocks@.len() && #[trigger] before.blocks@[i].address == address
                    && !before.blocks@[i].free;
            lemma_extant_contains(before.blocks@, i);
            let j = choose|j: int|
                0 <= j < extant(before.blocks@).len() && #[trigger] extant(before.blocks@)[j]
                    == before.blocks@[i];
            assert(before.allocated()[j].address == address);
        }
    } else {
        let j = choose|j: int|
            0 <= j < before.allocated().len() && (#[trigger] before.allocated()[j]).address
                == address && after.allocated() == before.allocated().remove(j);
        let m = choose|m: int|
            0 <= m < before.blocks@.len() && before.blocks@[m] == #[trigger] extant(
                before.blocks@,
            )[j] && !before.blocks@[m].free;
        assert(before.blocks@[m].address == address);
        assert(before.is_active()) by {
            if !before.is_active() {
                assert(before.blocks@.len() == 0);
            }
        }
        if after.is_active() {
            assert(after.alloc_count == after.allocated().len());
        } else {
            assert(after.allocated().len() == 0) by {
                assert(after.blocks@.len() == 0);
                assert(extant(after.blocks@) == Seq::<Block>::empty());
            }
        }
    }
}

/// An allocation in the summary words: a refused request changes
/// nothing; a granted one either changes nothing and gives the address
/// zero, where the map could not grow, or sets the new block's address
/// and length in at its place among the allocated blocks, the count one
/// higher.
pub proof fn allocation_in_summary_words(
    before: Heap,
    memory: MemoryState,
    length: u32,
    after: Heap,
    after_memory: MemoryState,
    result: Result<u32, VoxamError>,
)
    requires
        before.wf(memory),
        after.wf(after_memory),
        allocation(before, memory, length, after, after_memory, result),
    ensures
        result is Err ==> after.summary_words() == before.summary_words(),
        result matches Ok(address) ==> (address == 0 && after.summary_words()
            == before.summary_words()) || exists|k: int|
            0 <= k <= before.allocated().len() && after.summary_words() == seq![
                after.start,
                (before.allocated().len() + 1) as u32,
            ] + pairs(before.allocated().take(k)) + seq![address, length] + pairs(
                before.allocated().skip(k),
            ),
{
    let endmem = memory.endmem() as int;
    if length > 0 && before.is_active() && !no_fit(
        before.start as int,
        before.allocated(),
        endmem,
        length as int,
    ) {
        let k = choose|k: int|
            {
                &&& first_fit(before.start as int, before.allocated(), endmem, length as int, k)
                &&& result == Ok::<u32, VoxamError>(
                    gap_start(before.start as int, before.allocated(), k) as u32,
                )
                &&& after.allocated() == before.allocated().insert(
                    k,
                    Block {
                        address: gap_start(before.start as int, before.allocated(), k) as u32,
                        length,
                        free: false,
                    },
                )
                &&& after_memory == memory
                &&& after.start == before.start
            };
        let block = Block {
            address: gap_start(before.start as int, before.allocated(), k) as u32,
            length,
            free: false,
        };
        assert(0 <= k <= before.allocated().len()) by {
            assert(fits(before.start as int, before.allocated(), endmem, length as int, k));
        }
        allocation_in_summary(before.allocated(), after, after_memory, k, block);
    } else if length > 0 {
        if after.allocated() == before.allocated() {
            if before.is_active() {
                assert(after.is_active());
            } else {
                assert(before.allocated().len() == 0) by {
                    assert(extant(before.blocks@) == Seq::<Block>::empty());
                }
                assert(!after.is_active()) by {
                    if after.is_active() {
                        assert(after.alloc_count > 0);
                    }
                }
            }
        } else {
            let k = before.allocated().len() as int;
            let address = result->Ok_0;
            let block = Block { address, length, free: false };
            assert(before.allocated().insert(k, block) =~= before.allocated().push(block));
            allocation_in_summary(before.allocated(), after, after_memory, k, block);
            assert(before.allocated().take(k) =~= before.allocated());
            assert(before.allocated().skip(k) =~= Seq::<Block>::empty());
        }
    }
}

/// The allocated blocks of a concatenation are those of each part.
pub proof fn lemma_extant_concat(a: Seq<Block>, b: Seq<Block>)
    ensures
        extant(a + b) == extant(a) + extant(b),
    decreases b.len(),
{
    if b.len() == 0 {
        assert(a + b == a);
        assert(extant(b) == Seq::<Block>::empty());
        assert(extant(a) + extant(b) == extant(a));
    } else {
        lemma_extant_concat(a, b.drop_last());
        assert((a + b).drop_last() == a + b.drop_last());
        assert((a + b).last() == b.last());
    }
}

/// The allocated blocks of one block.
pub proof fn lemma_extant_single(block: Block)
    ensures
        extant(seq![block]) == if block.free {
            Seq::<Block>::empty()
        } else {
            seq![block]
        },
{
    assert(seq![block].drop_last() == Seq::<Block>::empty());
    assert(extant(Seq::<Block>::empty()) == Seq::<Block>::empty());
    assert(Seq::<Block>::empty().push(block) == seq![block]);
}

/// Every allocated block is an allocated member of the list.
pub proof fn lemma_extant_members(blocks: Seq<Block>)
    ensures
        forall|j: int|
            0 <= j < extant(blocks).len() ==> exists|m: int|
                0 <= m < blocks.len() && blocks[m] == #[trigger] extant(blocks)[j] && !blocks[m].free,
        forall|j: int| 0 <= j < extant(blocks).len() ==> !(#[trigger] extant(blocks)[j]).free,
        extant(blocks).len() <= blocks.len(),
    decreases blocks.len(),
{
    if blocks.len() > 0 {
        lemma_extant_members(blocks.drop_last());
        let rest = blocks.drop_last();
        assert forall|j: int| 0 <= j < extant(blocks).len() implies exists|m: int|
            0 <= m < blocks.len() && blocks[m] == #[trigger] extant(blocks)[j] && !blocks[m].free by {
            if j < extant(rest).len() {
                let m = choose|m: int|
                    0 <= m < rest.len() && rest[m] == #[trigger] extant(rest)[j] && !rest[m].free;
                assert(blocks[m] == rest[m]);
            } else {
                assert(blocks[blocks.len() - 1] == extant(blocks)[j]);
            }
        }
    }
}

/// A tiling's blocks run in address order: an earlier block ends no
/// later than a later one begins.
pub proof fn lemma_tiles_ordered(blocks: Seq<Block>, from: int, to: int, j: int, k: int)
    requires
        tiles(blocks, from, to),
        0 <= j < k < blocks.len(),
    ensures
        end_of(blocks[j]) <= blocks[k].address,
    decreases k - j,
{
    assert(adjacent(blocks, j));
    if k > j + 1 {
        lemma_tiles_ordered(blocks, from, to, j + 1, k);
    }
}

/// A tiling's blocks lie between its ends.
pub proof fn lemma_tiles_bounds(blocks: Seq<Block>, from: int, to: int, j: int)
    requires
        tiles(blocks, from, to),
        0 <= j < blocks.len(),
    ensures
        from <= blocks[j].address,
        end_of(blocks[j]) <= to,
        blocks.len() <= to - from,
{
    if j > 0 {
        lemma_tiles_ordered(blocks, from, to, 0, j);
    }
    if j < blocks.len() - 1 {
        lemma_tiles_ordered(blocks, from, to, j, blocks.len() - 1);
    }
    lemma_tiles_count(blocks, from, to);
}

/// A tiling holds no more blocks than bytes.
pub proof fn lemma_tiles_count(blocks: Seq<Block>, from: int, to: int)
    requires
        tiles(blocks, from, to),
    ensures
        blocks.len() <= to - from,
    decreases blocks.len(),
{
    if blocks.len() > 1 {
        let rest = blocks.drop_first();
        assert(adjacent(blocks, 0));
        assert forall|i: int| 0 <= i < rest.len() - 1 implies #[trigger] adjacent(rest, i) by {
            assert(adjacent(blocks, i + 1));
        }
        assert forall|i: int| 0 <= i < rest.len() implies #[trigger] rest[i].length > 0 by {
            assert(blocks[i + 1].length > 0);
        }
        lemma_tiles_count(rest, end_of(blocks[0]), to);
    } else {
        assert(blocks[0].length > 0);
    }
}


/// Splitting a list around a position splits its allocated blocks:
/// those before, the block itself if allocated, those after.
pub proof fn lemma_extant_around(blocks: Seq<Block>, i: int)
    requires
        0 <= i < blocks.len(),
    ensures
        blocks == blocks.take(i) + seq![blocks[i]] + blocks.skip(i + 1),
        extant(blocks) == extant(blocks.take(i)) + extant(seq![blocks[i]]) + extant(
            blocks.skip(i + 1),
        ),
{
    assert(blocks =~= blocks.take(i) + seq![blocks[i]] + blocks.skip(i + 1));
    lemma_extant_concat(blocks.take(i) + seq![blocks[i]], blocks.skip(i + 1));
    lemma_extant_concat(blocks.take(i), seq![blocks[i]]);
}

/// The allocated blocks of a prefix one longer.
pub proof fn lemma_extant_take_next(blocks: Seq<Block>, i: int)
    requires
        0 <= i < blocks.len(),
    ensures
        extant(blocks.take(i + 1)) == if blocks[i].free {
            extant(blocks.take(i))
        } else {
            extant(blocks.take(i)).push(blocks[i])
        },
{
    assert(blocks.take(i + 1).drop_last() =~= blocks.take(i));
}

/// A tiling's allocated blocks begin at distinct addresses, in
/// increasing order.
pub proof fn lemma_extant_ordered(blocks: Seq<Block>, from: int, to: int)
    requires
        tiles(blocks, from, to),
    ensures
        forall|a: int, b: int|
            0 <= a < b < extant(blocks).len() ==> end_of(#[trigger] extant(blocks)[a])
                <= (#[trigger] extant(blocks)[b]).address,
        forall|a: int|
            0 <= a < extant(blocks).len() ==> from <= (#[trigger] extant(blocks)[a]).address
                && end_of(extant(blocks)[a]) <= to && extant(blocks)[a].length > 0,
    decreases blocks.len(),
{
    lemma_extant_members(blocks);
    let ext = extant(blocks);
    assert forall|a: int| 0 <= a < ext.len() implies from <= (#[trigger] ext[a]).address
        && end_of(ext[a]) <= to && ext[a].length > 0 by {
        let m = choose|m: int| 0 <= m < blocks.len() && blocks[m] == ext[a] && !blocks[m].free;
        lemma_tiles_bounds(blocks, from, to, m);
    }
    if blocks.len() > 1 {
        let rest = blocks.drop_last();
        assert(adjacent(blocks, blocks.len() - 2));
        assert forall|i: int| 0 <= i < rest.len() - 1 implies #[trigger] adjacent(rest, i) by {
            assert(adjacent(blocks, i));
        }
        assert forall|i: int| 0 <= i < rest.len() implies #[trigger] rest[i].length > 0 by {
            assert(blocks[i].length > 0);
        }
        let last = blocks.len() - 1;
        lemma_extant_ordered(rest, from, blocks[last].address as int);
        let early = extant(rest);
        assert forall|a: int, b: int| 0 <= a < b < ext.len() implies end_of(#[trigger] ext[a])
            <= (#[trigger] ext[b]).address by {
            if b < early.len() {
                assert(ext[a] == early[a]);
                assert(ext[b] == early[b]);
            } else {
                assert(ext[a] == early[a]);
                assert(ext[b] == blocks[last]);
            }
        }
    }
}

/// The summary words of one more allocated block.
pub proof fn lemma_pairs_push(allocated: Seq<Block>, block: Block)
    ensures
        pairs(allocated.push(block)) == pairs(allocated).push(block.address).push(block.length),
{
    assert(allocated.push(block).drop_last() =~= allocated);
}

impl Heap {
    /// A heap standing over no map yet, inactive.
    pub fn new() -> (heap: Self)
        ensures
            heap.start == 0,
            heap.blocks@.len() == 0,
            heap.alloc_count == 0,
    {
        Heap { start: 0, blocks: Vec::new(), alloc_count: 0 }
    }

    /// Whether any block is extant -- the heap owns the map.
    pub fn active(&self) -> (active: bool)
        ensures
            active == self.is_active(),
    {
        self.start != 0
    }

    /// Deactivate the heap and give its memory back.
    ///
    /// Freeing the last block lands here, and so does restart --
    /// the heap does not survive one (Glulx: Memory Allocation
    /// Heap). The block list empties first; a map that refuses to
    /// shrink to the heap's start leaves the start and count as
    /// they were.
    pub fn clear(&mut self, memory: &mut Memory) -> (result: Result<(), VoxamError>)
        requires
            old(memory)@.wf(),
        ensures
            final(self).blocks@.len() == 0,
            final(memory)@.wf(),
            old(self).start == 0 ==> {
                &&& result is Ok
                &&& final(memory)@ == old(memory)@
            },
            old(self).start != 0 ==> {
                &&& result == if old(self).start % 256 != 0 {
                    Err(VoxamError::UnalignedSize { size: old(self).start })
                } else if old(self).start < old(memory)@.boot_endmem {
                    Err(VoxamError::BelowBoot { size: old(self).start, boot: old(memory)@.boot_endmem })
                } else {
                    Ok::<(), VoxamError>(())
                }
                &&& final(memory)@ == if result is Ok {
                    old(memory)@.with_bytes(old(memory)@.resized_bytes(old(self).start))
                } else {
                    old(memory)@
                }
            },
            result is Ok ==> final(self).start == 0 && final(self).alloc_count == 0,
            result is Err ==> final(self).start == old(self).start && final(self).alloc_count
                == old(self).alloc_count,
    {
        self.blocks.clear();
        if self.start != 0 {
            match memory.set_size(self.start) {
                Ok(()) => {},
                Err(error) => return Err(error),
            }
        }
        self.start = 0;
        self.alloc_count = 0;
        Ok(())
    }

    /// The heap as the save format's MAll words.
    ///
    /// The layout is start, count, then address and length for
    /// each extant block (Glulx: Memory Allocation Heap); an
    /// inactive heap summarizes as nothing at all.
    pub fn summary(&self) -> (values: Vec<u32>)
        ensures
            values@ == self.summary_words(),
    {
        let mut values: Vec<u32> = Vec::new();
        if self.start == 0 {
            return values;
        }
        values.push(self.start);
        values.push(self.alloc_count);
        let mut index: usize = 0;
        while index < self.blocks.len()
            invariant
                index <= self.blocks@.len(),
                values@ == seq![self.start, self.alloc_count] + pairs(
                    extant(self.blocks@.take(index as int)),
                ),
            decreases self.blocks.len() - index,
        {
            let block = self.blocks[index];
            proof {
                lemma_extant_take_next(self.blocks@, index as int);
            }
            if !block.free {
                values.push(block.address);
                values.push(block.length);
                proof {
                    lemma_pairs_push(extant(self.blocks@.take(index as int)), block);
                }
            }
            index += 1;
        }
        proof {
            assert(self.blocks@.take(self.blocks@.len() as int) =~= self.blocks@);
        }
        values
    }

    /// Release the block at an address, which must be extant.
    ///
    /// Freeing the last block deactivates the heap and hands the
    /// memory back (Glulx: Memory Allocation Heap). Refused for an
    /// address that names no allocated block.
    pub fn free(&mut self, memory: &mut Memory, address: u32) -> (result: Result<(), VoxamError>)
        requires
            old(memory)@.wf(),
            old(self).wf(old(memory)@),
        ensures
            final(memory)@.wf(),
            final(self).wf(final(memory)@),
            match result {
                Ok(()) => exists|j: int|
                    0 <= j < old(self).allocated().len() && (#[trigger] old(self).allocated()[j]).address
                        == address && final(self).allocated() == old(self).allocated().remove(j),
                Err(error) => error == (VoxamError::NoHeapBlock { address }) && forall|j: int|
                    0 <= j < old(self).allocated().len() ==> (
                    #[trigger] old(self).allocated()[j]).address != address,
            },
            result is Err ==> *final(self) == *old(self) && final(memory)@ == old(memory)@,
            result is Ok && final(self).allocated().len() == 0 ==> {
                &&& !final(self).is_active()
                &&& final(memory)@ == old(memory)@.with_bytes(
                    old(memory)@.resized_bytes(old(self).start),
                )
            },
            result is Ok && final(self).allocated().len() > 0 ==> final(memory)@ == old(memory)@ && final(self).start
                == old(self).start,
    {
        let ghost before = self.blocks@;
        let ghost endmem = memory@.endmem() as int;
        let mut index: usize = 0;
        while index < self.blocks.len() && !(self.blocks[index].address == address
            && !self.blocks[index].free)
            invariant
                index <= self.blocks@.len(),
                self.blocks@ == before,
                forall|m: int|
                    0 <= m < index ==> !(#[trigger] before[m].address == address && !before[m].free),
            decreases self.blocks.len() - index,
        {
            index += 1;
        }
        if index == self.blocks.len() {
            proof {
                lemma_extant_members(before);
            }
            return Err(VoxamError::NoHeapBlock { address });
        }
        let ghost i = index as int;
        let ghost j = extant(before.take(i)).len() as int;
        let mut block = self.blocks[index];
        proof {
            assert(before[i].address == address && !before[i].free);
            lemma_extant_around(before, i);
            lemma_extant_single(before[i]);
            assert(extant(before)[j] == before[i]);
            lemma_extant_ordered(before, self.start as int, endmem);
        }
        block.free = true;
        self.blocks.set(index, block);
        proof {
            let after = self.blocks@;
            lemma_extant_around(after, i);
            lemma_extant_single(after[i]);
            assert(after.take(i) == before.take(i));
            assert(after.skip(i + 1) == before.skip(i + 1));
            assert(extant(after) =~= extant(before).remove(j));
            assert forall|k: int| 0 <= k < after.len() - 1 implies #[trigger] adjacent(after, k) by {
                assert(adjacent(before, k));
            }
            assert forall|k: int| 0 <= k < after.len() implies #[trigger] after[k].length > 0 by {
                assert(before[k].length > 0);
            }
        }
        self.alloc_count = self.alloc_count - 1;
        if self.alloc_count == 0 {
            let cleared = self.clear(memory);
            proof {
                assert(cleared is Ok);
            }
        }
        Ok(())
    }
}


/// Where the blocks from a position on begin, when the block before
/// it (if any) is allocated: the start of the gap with as many
/// allocated blocks before it as there are before the position.
pub proof fn lemma_gap_at(blocks: Seq<Block>, start: int, endmem: int, i: int)
    requires
        tiles(blocks, start, endmem),
        0 <= i <= blocks.len(),
        i == 0 || !blocks[i - 1].free,
    ensures
        gap_start(start, extant(blocks), extant(blocks.take(i)).len() as int) == if i
            < blocks.len() {
            blocks[i].address as int
        } else {
            endmem
        },
{
    if i > 0 {
        lemma_extant_take_next(blocks, i - 1);
        assert(blocks.take(i) + blocks.skip(i) =~= blocks);
        lemma_extant_concat(blocks.take(i), blocks.skip(i));
        let k = extant(blocks.take(i)).len() as int;
        assert(extant(blocks)[k - 1] == blocks[i - 1]);
        if i < blocks.len() {
            assert(adjacent(blocks, i - 1));
        }
    } else {
        assert(blocks.take(0) =~= Seq::<Block>::empty());
    }
}

/// Where the blocks from a position on begin, when the block before
/// it is free and the one before that allocated (or absent): the
/// gap begins at that free block.
pub proof fn lemma_gap_behind(blocks: Seq<Block>, start: int, endmem: int, i: int)
    requires
        tiles(blocks, start, endmem),
        1 <= i <= blocks.len(),
        blocks[i - 1].free,
        i == 1 || !blocks[i - 2].free,
    ensures
        gap_start(start, extant(blocks), extant(blocks.take(i)).len() as int) == blocks[i
            - 1].address,
{
    lemma_gap_at(blocks, start, endmem, i - 1);
    lemma_extant_take_next(blocks, i - 1);
}

/// The allocated blocks before a position end by the time the block
/// there begins, and those after it begin after it ends.
pub proof fn lemma_sides(blocks: Seq<Block>, start: int, endmem: int, i: int)
    requires
        tiles(blocks, start, endmem),
        0 <= i < blocks.len(),
        blocks[i].free,
    ensures
        forall|j: int|
            0 <= j < extant(blocks.take(i)).len() ==> end_of(#[trigger] extant(blocks)[j])
                <= blocks[i].address,
        forall|j: int|
            extant(blocks.take(i)).len() <= j < extant(blocks).len() ==> (
            #[trigger] extant(blocks)[j]).address >= end_of(blocks[i]),
{
    let before = blocks.take(i);
    let after = blocks.skip(i + 1);
    lemma_extant_around(blocks, i);
    lemma_extant_single(blocks[i]);
    lemma_extant_members(before);
    lemma_extant_members(after);
    let k = extant(before).len() as int;
    assert forall|j: int| 0 <= j < k implies end_of(#[trigger] extant(blocks)[j])
        <= blocks[i].address by {
        assert(extant(blocks)[j] == extant(before)[j]);
        let m = choose|m: int|
            0 <= m < before.len() && before[m] == #[trigger] extant(before)[j] && !before[m].free;
        lemma_tiles_ordered(blocks, start, endmem, m, i);
    }
    assert forall|j: int| k <= j < extant(blocks).len() implies (
    #[trigger] extant(blocks)[j]).address >= end_of(blocks[i]) by {
        assert(extant(blocks)[j] == extant(after)[j - k]);
        let m = choose|m: int|
            0 <= m < after.len() && after[m] == #[trigger] extant(after)[j - k] && !after[m].free;
        assert(after[m] == blocks[i + 1 + m]);
        lemma_tiles_ordered(blocks, start, endmem, i, i + 1 + m);
    }
}

/// Two neighbouring free blocks fused into one tile the same span
/// and keep the same allocated blocks.
pub proof fn lemma_merge(blocks: Seq<Block>, start: int, endmem: int, i: int)
    requires
        tiles(blocks, start, endmem),
        endmem <= u32::MAX,
        0 <= i < blocks.len() - 1,
        blocks[i].free,
        blocks[i + 1].free,
    ensures
        ({
            let merged = Block {
                address: blocks[i].address,
                length: (blocks[i].length + blocks[i + 1].length) as u32,
                free: true,
            };
            let fused = blocks.update(i, merged).remove(i + 1);
            &&& blocks[i].length + blocks[i + 1].length <= u32::MAX
            &&& tiles(fused, start, endmem)
            &&& extant(fused) == extant(blocks)
            &&& fused.take(i) == blocks.take(i)
        }),
{
    let merged = Block {
        address: blocks[i].address,
        length: (blocks[i].length + blocks[i + 1].length) as u32,
        free: true,
    };
    assert(adjacent(blocks, i));
    lemma_tiles_bounds(blocks, start, endmem, i + 1);
    let fused = blocks.update(i, merged).remove(i + 1);
    assert(fused.len() == blocks.len() - 1);
    assert forall|k: int| 0 <= k < fused.len() implies #[trigger] fused[k].length > 0 by {
        if k > i {
            assert(fused[k] == blocks[k + 1]);
        } else if k == i {
            assert(fused[k] == merged);
        } else {
            assert(fused[k] == blocks[k]);
        }
    }
    assert forall|k: int| 0 <= k < fused.len() - 1 implies #[trigger] adjacent(fused, k) by {
        if k < i - 1 {
            assert(adjacent(blocks, k));
        } else if k == i - 1 {
            assert(adjacent(blocks, k));
        } else if k == i {
            assert(adjacent(blocks, i + 1));
        } else {
            assert(fused[k] == blocks[k + 1]);
            assert(fused[k + 1] == blocks[k + 2]);
            assert(adjacent(blocks, k + 1));
        }
    }
    if i + 2 == blocks.len() {
        assert(fused.last() == merged);
    } else {
        assert(fused.last() == blocks.last());
    }
    assert(blocks =~= blocks.take(i) + seq![blocks[i], blocks[i + 1]] + blocks.skip(i + 2));
    assert(fused =~= blocks.take(i) + seq![merged] + blocks.skip(i + 2));
    lemma_extant_concat(blocks.take(i) + seq![blocks[i], blocks[i + 1]], blocks.skip(i + 2));
    lemma_extant_concat(blocks.take(i), seq![blocks[i], blocks[i + 1]]);
    lemma_extant_concat(blocks.take(i) + seq![merged], blocks.skip(i + 2));
    lemma_extant_concat(blocks.take(i), seq![merged]);
    lemma_extant_single(merged);
    assert(seq![blocks[i], blocks[i + 1]].drop_last() =~= seq![blocks[i]]);
    lemma_extant_single(blocks[i]);
    assert(fused.take(i) =~= blocks.take(i));
}

impl Heap {
    /// First-fit search, coalescing free neighbors on the way.
    ///
    /// Merging happens during the search rather than eagerly: a run
    /// of free blocks is only joined up when something actually needs
    /// the space.
    fn find_free(&mut self, length: u32, Ghost(endmem): Ghost<int>) -> (found: Option<usize>)
        requires
            length > 0,
            endmem <= u32::MAX,
            old(self).blocks@.len() > 0 ==> tiles(old(self).blocks@, old(self).start as int, endmem),
        ensures
            final(self).start == old(self).start,
            final(self).alloc_count == old(self).alloc_count,
            final(self).allocated() == old(self).allocated(),
            final(self).blocks@.len() == 0 <==> old(self).blocks@.len() == 0,
            final(self).blocks@.len() > 0 ==> tiles(final(self).blocks@, old(self).start as int, endmem),
            match found {
                Some(index) => {
                    &&& index < final(self).blocks@.len()
                    &&& final(self).blocks@[index as int].free
                    &&& final(self).blocks@[index as int].length >= length
                    &&& first_fit(
                        old(self).start as int,
                        old(self).allocated(),
                        endmem,
                        length as int,
                        extant(final(self).blocks@.take(index as int)).len() as int,
                    )
                    &&& gap_start(
                        old(self).start as int,
                        old(self).allocated(),
                        extant(final(self).blocks@.take(index as int)).len() as int,
                    ) == final(self).blocks@[index as int].address
                },
                None => {
                    &&& old(self).blocks@.len() > 0 ==> no_fit(
                        old(self).start as int,
                        old(self).allocated(),
                        endmem,
                        length as int,
                    )
                    &&& final(self).blocks@.len() > 0 && final(self).blocks@.last().free
                        ==> final(self).blocks@.last().address == gap_start(
                        old(self).start as int,
                        old(self).allocated(),
                        old(self).allocated().len() as int,
                    )
                },
            },
    {
        let ghost start = self.start as int;
        let ghost ext = self.allocated();
        let mut index: usize = 0;
        while index < self.blocks.len()
            invariant
                self.start == start,
                start == old(self).start,
                endmem <= u32::MAX,
                self.alloc_count == old(self).alloc_count,
                extant(self.blocks@) == ext,
                ext == old(self).allocated(),
                length > 0,
                index <= self.blocks@.len(),
                self.blocks@.len() == 0 <==> old(self).blocks@.len() == 0,
                self.blocks@.len() > 0 ==> tiles(self.blocks@, start, endmem),
                forall|m: int|
                    0 <= m < index && #[trigger] self.blocks@[m].free ==> self.blocks@[m].length
                        < length && (m + 1 < self.blocks@.len() ==> !self.blocks@[m + 1].free),
                forall|other: int|
                    0 <= other < extant(self.blocks@.take(index as int)).len() ==> !#[trigger] fits(
                        start,
                        ext,
                        endmem,
                        length as int,
                        other,
                    ),
            decreases self.blocks.len() - index,
        {
            let block = self.blocks[index];
            let ghost b = self.blocks@;
            let ghost k = extant(b.take(index as int)).len() as int;
            if block.free && block.length >= length {
                proof {
                    if index > 0 && b[index - 1].free {
                        assert(!b[index as int].free);
                    }
                    lemma_extant_around(b, index as int);
                    lemma_gap_at(b, start, endmem, index as int);
                    lemma_sides(b, start, endmem, index as int);
                    lemma_tiles_bounds(b, start, endmem, index as int);
                    assert(fits(start, ext, endmem, length as int, k));
                }
                return Some(index);
            }
            if !block.free {
                proof {
                    lemma_extant_take_next(b, index as int);
                    lemma_extant_around(b, index as int);
                    lemma_extant_single(b[index as int]);
                    assert(ext[k] == b[index as int]);
                    assert(b[index as int].length > 0);
                    if index > 0 && b[index - 1].free {
                        if index > 1 {
                            assert(!b[index - 2].free);
                        }
                        lemma_gap_behind(b, start, endmem, index as int);
                        assert(gap_start(start, ext, k) == b[index - 1].address);
                        assert(adjacent(b, index - 1));
                    } else {
                        lemma_gap_at(b, start, endmem, index as int);
                    }
                    assert(!fits(start, ext, endmem, length as int, k));
                }
                index += 1;
            } else if index + 1 < self.blocks.len() && self.blocks[index + 1].free {
                // Free, too small, and followed by free space: merge
                // and retry at the same position rather than
                // advancing.
                let next = self.blocks[index + 1];
                proof {
                    lemma_merge(b, start, endmem, index as int);
                }
                let merged = Block {
                    address: block.address,
                    length: block.length + next.length,
                    free: true,
                };
                self.blocks.set(index, merged);
                self.blocks.remove(index + 1);
                proof {
                    let fused = self.blocks@;
                    assert(fused == b.update(index as int, merged).remove(index + 1));
                    assert forall|m: int|
                        0 <= m < index && #[trigger] fused[m].free implies fused[m].length < length
                        && (m + 1 < fused.len() ==> !fused[m + 1].free) by {
                        assert(fused[m] == b[m]);
                        if m + 1 < index {
                            assert(fused[m + 1] == b[m + 1]);
                        }
                    }
                }
            } else {
                proof {
                    lemma_extant_take_next(b, index as int);
                }
                index += 1;
            }
        }
        proof {
            let b = self.blocks@;
            if b.len() > 0 {
                assert(b.take(b.len() as int) =~= b);
                let k = ext.len() as int;
                let last = b.len() - 1;
                if b[last].free {
                    if last > 0 {
                        assert(!b[last - 1].free);
                    }
                    lemma_gap_behind(b, start, endmem, b.len() as int);
                } else {
                    lemma_gap_at(b, start, endmem, b.len() as int);
                }
                assert(!fits(start, ext, endmem, length as int, k));
            }
        }
        None
    }
}


/// The block list after claiming a length from the front of a free
/// block: the claimed span allocated, any remainder left free just
/// after it.
pub open spec fn claimed(blocks: Seq<Block>, index: int, length: u32) -> Seq<Block> {
    let block = blocks[index];
    let taken = Block { address: block.address, length, free: false };
    let rest = Block {
        address: (block.address + length) as u32,
        length: (block.length - length) as u32,
        free: true,
    };
    let middle = if block.length > length {
        seq![taken, rest]
    } else {
        seq![taken]
    };
    blocks.take(index) + middle + blocks.skip(index + 1)
}

/// Claiming from a free block keeps the tiling and adds exactly the
/// claimed span to the allocated blocks, in its place.
pub proof fn lemma_claim(blocks: Seq<Block>, start: int, endmem: int, index: int, length: u32)
    requires
        tiles(blocks, start, endmem),
        endmem <= u32::MAX,
        0 <= index < blocks.len(),
        blocks[index].free,
        blocks[index].length >= length > 0,
    ensures
        tiles(claimed(blocks, index, length), start, endmem),
        extant(claimed(blocks, index, length)) == extant(blocks).insert(
            extant(blocks.take(index)).len() as int,
            Block { address: blocks[index].address, length, free: false },
        ),
        extant(claimed(blocks, index, length)).len() <= u32::MAX,
{
    let laid = blocks;
    let block = blocks[index];
    let k = extant(laid.take(index)).len() as int;
    lemma_tiles_bounds(laid, start, endmem, index);
    lemma_extant_around(laid, index);
    lemma_extant_single(block);
    let after = claimed(blocks, index, length);
    let taken = Block { address: block.address, length, free: false };
    let rest = Block {
        address: (block.address + length) as u32,
        length: (block.length - length) as u32,
        free: true,
    };
    let middle = if block.length > length {
        seq![taken, rest]
    } else {
        seq![taken]
    };
    lemma_extant_concat(laid.take(index) + middle, laid.skip(index + 1));
    lemma_extant_concat(laid.take(index), middle);
    lemma_extant_single(taken);
    if block.length > length {
        assert(middle.drop_last() =~= seq![taken]);
    }
    assert(extant(middle) == seq![taken]);
    assert(extant(after) =~= extant(laid).insert(k, taken));
    assert forall|j: int| 0 <= j < after.len() implies #[trigger] after[j].length > 0 by {
        if j < index {
            assert(after[j] == laid[j]);
        } else if j > index + middle.len() - 1 {
            assert(after[j] == laid.skip(index + 1)[j - index - middle.len()]);
            assert(after[j] == laid[j - middle.len() + 1]);
        }
    }
    assert forall|j: int| 0 <= j < after.len() - 1 implies #[trigger] adjacent(after, j) by {
        if j < index - 1 {
            assert(adjacent(laid, j));
        } else if j == index - 1 {
            assert(adjacent(laid, j));
        } else if j == index + middle.len() - 1 {
            assert(after[j] == middle.last());
            assert(after[j + 1] == laid[index + 1]);
            assert(adjacent(laid, index));
        } else if j >= index + middle.len() {
            assert(after[j] == laid.skip(index + 1)[j - index - middle.len()]);
            assert(after[j] == laid[j - middle.len() + 1]);
            assert(after[j + 1] == laid[j - middle.len() + 2]);
            assert(adjacent(laid, j - middle.len() + 1));
        } else {
            assert(after[j] == taken);
            assert(after[j + 1] == rest);
        }
    }
    if index + 1 == laid.len() {
        assert(after.last() == middle.last());
    } else {
        assert(after.last() == laid.last());
    }
    lemma_tiles_count(after, start, endmem);
    lemma_extant_members(after);
}

impl Heap {
    /// The layout every heap method other than the summary rebuild
    /// works on, before its count is checked: inactive and empty,
    /// or active and tiling its span of the map.
    pub open spec fn laid_out(&self, memory: MemoryState) -> bool {
        if self.start == 0 {
            &&& self.blocks@.len() == 0
            &&& self.alloc_count == 0
        } else {
            &&& tiles(self.blocks@, self.start as int, memory.endmem() as int)
            &&& self.start % 256 == 0
            &&& memory.boot_endmem <= self.start
            &&& self.alloc_count == self.allocated().len()
        }
    }

    /// Grow the map; the new free block's index comes back.
    ///
    /// The heap doubles, or grows by the requested length, or by
    /// one boundary -- whichever is largest -- rounded up to the
    /// 256-byte grain. A map the address space cannot hold refuses
    /// the same way a map the machine cannot hold does.
    fn extend(&mut self, memory: &mut Memory, length: u32) -> (grown: Option<usize>)
        requires
            old(memory)@.wf(),
            length > 0,
            old(self).laid_out(old(memory)@),
            old(self).blocks@.len() > 0 && old(self).blocks@.last().free ==> old(
                self,
            ).blocks@.last().address == gap_start(
                old(self).start as int,
                old(self).allocated(),
                old(self).allocated().len() as int,
            ),
        ensures
            final(memory)@.wf(),
            ({
                let endmem = old(memory)@.endmem() as int;
                let held = if old(self).start != 0 {
                    endmem - old(self).start
                } else {
                    0
                };
                let size = endmem + extension(held, length as int);
                match grown {
                    None => {
                        &&& size > u32::MAX
                        &&& *final(self) == *old(self)
                        &&& final(memory)@ == old(memory)@
                    },
                    Some(index) => {
                        let start = if old(self).start != 0 {
                            old(self).start as int
                        } else {
                            endmem
                        };
                        &&& size <= u32::MAX
                        &&& final(memory)@ == old(memory)@.with_bytes(
                            old(memory)@.resized_bytes(size as u32),
                        )
                        &&& final(self).start == start
                        &&& final(self).alloc_count == old(self).alloc_count
                        &&& final(self).allocated() == old(self).allocated()
                        &&& tiles(final(self).blocks@, start, size)
                        &&& index + 1 == final(self).blocks@.len()
                        &&& final(self).blocks@[index as int].free
                        &&& final(self).blocks@[index as int].length >= length
                        &&& final(self).blocks@[index as int].address == gap_start(
                            start,
                            old(self).allocated(),
                            old(self).allocated().len() as int,
                        )
                    },
                }
            }),
    {
        let old_endmem = memory.endmem();
        let ghost ext = self.allocated();
        if self.start != 0 {
            proof {
                lemma_tiles_bounds(self.blocks@, self.start as int, old_endmem as int, 0);
            }
        }
        let held = if self.start != 0 {
            old_endmem - self.start
        } else {
            0
        };
        let mut wanted = if held > length {
            held
        } else {
            length
        };
        if wanted < GRAIN {
            wanted = GRAIN;
        }
        let rounded = match wanted.checked_add(GRAIN - 1) {
            Some(rounded) => rounded,
            None => return None,
        };
        let growth = rounded / GRAIN * GRAIN;
        proof {
            assert(growth == extension(held as int, length as int));
        }
        // Allocation is never guaranteed (Glulx: Memory Allocation
        // Heap).
        let size = match old_endmem.checked_add(growth) {
            Some(size) => size,
            None => return None,
        };
        proof {
            assert(growth % 256 == 0) by (nonlinear_arith)
                requires
                    growth == rounded / 256 * 256,
            ;
        }
        match memory.set_size(size) {
            Ok(()) => {},
            Err(_) => return None,
        }
        if self.start == 0 {
            self.start = old_endmem;
        }
        let count = self.blocks.len();
        if count > 0 && self.blocks[count - 1].free {
            let last = self.blocks[count - 1];
            let grown = Block { address: last.address, length: last.length + growth, free: true };
            self.blocks.set(count - 1, grown);
            proof {
                let before = old(self).blocks@;
                let after = self.blocks@;
                assert(after.drop_last() == before.drop_last());
                assert forall|k: int| 0 <= k < after.len() implies #[trigger] after[k].length > 0 by {
                    if k < after.len() - 1 {
                        assert(after[k] == before[k]);
                    }
                }
                assert forall|k: int| 0 <= k < after.len() - 1 implies #[trigger] adjacent(after, k) by {
                    assert(adjacent(before, k));
                }
                assert(extant(after) == extant(before));
            }
        } else {
            let fresh = Block { address: old_endmem, length: growth, free: true };
            self.blocks.push(fresh);
            proof {
                let before = old(self).blocks@;
                let after = self.blocks@;
                assert(after.drop_last() == before);
                if before.len() > 0 {
                    assert(adjacent(after, before.len() - 1));
                    assert forall|k: int| 0 <= k < after.len() implies #[trigger] after[k].length
                        > 0 by {
                        if k < before.len() {
                            assert(after[k] == before[k]);
                        }
                    }
                    assert forall|k: int| 0 <= k < after.len() - 1 implies #[trigger] adjacent(
                        after,
                        k,
                    ) by {
                        if k < before.len() - 1 {
                            assert(adjacent(before, k));
                        }
                    }
                    lemma_gap_at(before, self.start as int, old_endmem as int, before.len() as int);
                    assert(before.take(before.len() as int) =~= before);
                } else {
                    assert(extant(before) == Seq::<Block>::empty());
                }
            }
        }
        Some(self.blocks.len() - 1)
    }

    /// Claim a span; the address comes back, or 0 on failure.
    ///
    /// Allocation is never guaranteed: a refusal is an answer, not
    /// an error (Glulx: Memory Allocation Heap). A zero-length
    /// request, which no answer could name, is refused loudly.
    /// The span is the first gap between allocated blocks that can
    /// hold it; with none, the heap grows and the span opens the
    /// tail.
    pub fn allocate(&mut self, memory: &mut Memory, length: u32) -> (result: Result<u32, VoxamError>)
        requires
            old(memory)@.wf(),
            old(self).wf(old(memory)@),
        ensures
            final(memory)@.wf(),
            final(self).wf(final(memory)@),
            length == 0 ==> result == Err::<u32, VoxamError>(VoxamError::EmptyAllocation)
                && *final(self) == *old(self) && final(memory)@ == old(memory)@,
            length > 0 && old(self).is_active() && !no_fit(
                old(self).start as int,
                old(self).allocated(),
                old(memory)@.endmem() as int,
                length as int,
            ) ==> exists|k: int|
                {
                    &&& first_fit(
                        old(self).start as int,
                        old(self).allocated(),
                        old(memory)@.endmem() as int,
                        length as int,
                        k,
                    )
                    &&& result == Ok::<u32, VoxamError>(
                        gap_start(old(self).start as int, old(self).allocated(), k) as u32,
                    )
                    &&& final(self).allocated() == old(self).allocated().insert(
                        k,
                        Block {
                            address: gap_start(old(self).start as int, old(self).allocated(), k) as u32,
                            length,
                            free: false,
                        },
                    )
                    &&& final(memory)@ == old(memory)@
                    &&& final(self).start == old(self).start
                },
            length > 0 && (!old(self).is_active() || no_fit(
                old(self).start as int,
                old(self).allocated(),
                old(memory)@.endmem() as int,
                length as int,
            )) ==> ({
                let endmem = old(memory)@.endmem() as int;
                let held = if old(self).start != 0 {
                    endmem - old(self).start
                } else {
                    0
                };
                let size = endmem + extension(held, length as int);
                let start = if old(self).start != 0 {
                    old(self).start as int
                } else {
                    endmem
                };
                let address = gap_start(start, old(self).allocated(), old(self).allocated().len() as int);
                if size > u32::MAX {
                    &&& result == Ok::<u32, VoxamError>(0)
                    &&& final(self).allocated() == old(self).allocated()
                    &&& final(self).start == old(self).start
                    &&& final(memory)@ == old(memory)@
                } else {
                    &&& result == Ok::<u32, VoxamError>(address as u32)
                    &&& final(self).allocated() == old(self).allocated().push(
                        Block { address: address as u32, length, free: false },
                    )
                    &&& final(self).start == start
                    &&& final(memory)@ == old(memory)@.with_bytes(
                        old(memory)@.resized_bytes(size as u32),
                    )
                }
            }),
    {
        if length == 0 {
            return Err(VoxamError::EmptyAllocation);
        }
        let ghost endmem = memory@.endmem() as int;
        let ghost ext = self.allocated();
        let ghost start0 = self.start as int;
        let index = match self.find_free(length, Ghost(endmem)) {
            Some(index) => index,
            None => match self.extend(memory, length) {
                Some(index) => index,
                None => return Ok(0),
            },
        };
        let ghost laid = self.blocks@;
        let ghost new_end = memory@.endmem() as int;
        let block = self.blocks[index];
        proof {
            lemma_claim(laid, self.start as int, new_end, index as int, length);
            lemma_tiles_count(laid, self.start as int, new_end);
        }
        if block.length > length {
            // Split, leaving the remainder free and the list still
            // in address order.
            self.blocks.insert(
                index + 1,
                Block { address: block.address + length, length: block.length - length, free: true },
            );
        }
        self.blocks.set(index, Block { address: block.address, length, free: false });
        proof {
            assert(self.blocks@ =~= claimed(laid, index as int, length));
        }
        self.alloc_count = self.alloc_count + 1;
        Ok(block.address)
    }
}


/// Whether a summary's words past the start and count land: pairs
/// whole, addresses strictly increasing.
pub open spec fn well_ordered(extant_words: Seq<u32>) -> bool {
    &&& extant_words.len() % 2 == 0
    &&& forall|i: int|
        0 <= i && 2 * i + 2 < extant_words.len() ==> #[trigger] extant_words[2 * i]
            < extant_words[2 * i + 2]
}

/// Whether every pair's block ends inside the address space.
pub open spec fn pairs_fit(extant_words: Seq<u32>) -> bool {
    forall|i: int|
        0 <= i && 2 * i + 1 < extant_words.len() ==> #[trigger] extant_words[2 * i] + extant_words[2
            * i + 1] <= u32::MAX
}

/// Whether a summary's words describe a heap to rebuild, rather
/// than nothing or a refusal.
pub open spec fn summary_rebuilds(values: Seq<u32>) -> bool {
    &&& values.len() >= 2
    &&& !(values[0] == 0 && values[1] == 0)
    &&& well_ordered(values.subrange(2, values.len() as int))
}

impl Heap {
    /// Rebuild the heap from a summary's words.
    ///
    /// Memory must already be the size it was when the summary was
    /// taken -- restoring the map is the caller's job -- and the
    /// free blocks are reconstructed from the gaps between extant
    /// ones, out to endmem. Refused when the heap is already
    /// active, the summary's pairs are cut short, or its blocks are
    /// out of address order.
    pub fn apply_summary(&mut self, memory: &Memory, values: &[u32]) -> (result: Result<
        (),
        VoxamError,
    >)
        requires
            memory@.wf(),
            values.len() != 1,
            !old(self).is_active() && summary_rebuilds(values@) ==> pairs_fit(
                values@.subrange(2, values.len() as int),
            ),
        ensures
            old(self).is_active() ==> result == Err::<(), VoxamError>(VoxamError::ActiveHeapSummary)
                && *final(self) == *old(self),
            !old(self).is_active() && (values.len() == 0 || (values[0] == 0 && values[1] == 0))
                ==> result is Ok && *final(self) == *old(self),
            !old(self).is_active() && values.len() >= 2 && !(values[0] == 0 && values[1] == 0)
                ==> {
                let words = values@.subrange(2, values.len() as int);
                if words.len() % 2 != 0 {
                    &&& result == Err::<(), VoxamError>(VoxamError::SummaryCutShort)
                    &&& *final(self) == *old(self)
                } else if !well_ordered(words) {
                    &&& result == Err::<(), VoxamError>(VoxamError::SummaryOutOfOrder)
                    &&& *final(self) == *old(self)
                } else {
                    &&& result is Ok
                    &&& final(self).start == values[0]
                    &&& final(self).alloc_count == values[1]
                    &&& final(self).blocks@ == rebuilt(
                        values[0] as int,
                        words,
                        memory@.endmem() as int,
                    )
                }
            },
    {
        if self.start != 0 {
            return Err(VoxamError::ActiveHeapSummary);
        }
        if values.len() == 0 || (values[0] == 0 && values[1] == 0) {
            return Ok(());
        }
        let ghost words = values@.subrange(2, values.len() as int);
        let count = values.len() - 2;
        if count % 2 != 0 {
            return Err(VoxamError::SummaryCutShort);
        }
        let mut at: usize = 2;
        while at < values.len() - 2
            invariant
                2 <= at <= values.len(),
                (at - 2) % 2 == 0,
                old(self).start == 0,
                *self == *old(self),
                values.len() >= 2,
                !(values[0] == 0 && values[1] == 0),
                words == values@.subrange(2, values.len() as int),
                words.len() % 2 == 0,
                forall|i: int| 0 <= i && 2 * i + 2 < at - 2 + 2 ==> #[trigger] words[2 * i] < words[2 * i + 2],
            decreases values.len() - at,
        {
            if values[at] >= values[at + 2] {
                proof {
                    let i = (at - 2) / 2;
                    assert(words[2 * i] == values[at as int]);
                    assert(!well_ordered(words));
                }
                return Err(VoxamError::SummaryOutOfOrder);
            }
            at += 2;
        }
        proof {
            assert forall|i: int| 0 <= i && 2 * i + 2 < words.len() implies #[trigger] words[2 * i]
                < words[2 * i + 2] by {
                assert(2 * i + 2 < at - 2 + 2);
            }
        }
        let endmem = memory.endmem();
        let start = values[0];
        let mut blocks: Vec<Block> = Vec::new();
        let mut position: usize = 2;
        let mut cursor: u32 = start;
        while position < values.len()
            invariant
                2 <= position <= values.len(),
                old(self).start == 0,
                *self == *old(self),
                (position - 2) % 2 == 0,
                values.len() % 2 == 0,
                words == values@.subrange(2, values.len() as int),
                pairs_fit(words),
                endmem == memory@.endmem(),
                blocks@ + rebuilt(
                    cursor as int,
                    values@.subrange(position as int, values.len() as int),
                    endmem as int,
                ) == rebuilt(start as int, words, endmem as int),
            decreases values.len() - position,
        {
            let address = values[position];
            let length = values[position + 1];
            let ghost rest = values@.subrange(position as int, values.len() as int);
            proof {
                let i = (position - 2) / 2;
                assert(words[2 * i] == address);
                assert(words[2 * i + 1] == length);
                assert(rest.subrange(2, rest.len() as int) =~= values@.subrange(
                    position + 2,
                    values.len() as int,
                ));
            }
            if cursor < address {
                // A gap before the next extant block is free space.
                blocks.push(Block { address: cursor, length: address - cursor, free: true });
            }
            blocks.push(Block { address, length, free: false });
            position += 2;
            cursor = address + length;
            proof {
                assert(blocks@ + rebuilt(
                    cursor as int,
                    values@.subrange(position as int, values.len() as int),
                    endmem as int,
                ) =~= rebuilt(start as int, words, endmem as int));
            }
        }
        if cursor < endmem {
            // Trailing free space, out to the end of the map.
            blocks.push(Block { address: cursor, length: endmem - cursor, free: true });
        }
        proof {
            assert(values@.subrange(position as int, values.len() as int).len() == 0);
            assert(blocks@ =~= rebuilt(start as int, words, endmem as int));
        }
        self.start = start;
        self.alloc_count = values[1];
        self.blocks = blocks;
        Ok(())
    }
}


/// The summary words of a list of blocks, read by position.
pub proof fn lemma_pairs_index(allocated: Seq<Block>)
    ensures
        pairs(allocated).len() == 2 * allocated.len(),
        forall|k: int|
            0 <= k < 2 * allocated.len() ==> #[trigger] pairs(allocated)[k] == if k % 2 == 0 {
                allocated[k / 2].address
            } else {
                allocated[k / 2].length
            },
    decreases allocated.len(),
{
    if allocated.len() > 0 {
        lemma_pairs_index(allocated.drop_last());
        let rest = allocated.drop_last();
        assert forall|k: int| 0 <= k < 2 * allocated.len() implies #[trigger] pairs(allocated)[k]
            == if k % 2 == 0 {
            allocated[k / 2].address
        } else {
            allocated[k / 2].length
        } by {
            if k < 2 * rest.len() {
                assert(pairs(allocated)[k] == pairs(rest)[k]);
                assert(rest[k / 2] == allocated[k / 2]);
            }
        }
    }
}

/// The summary words of a list of blocks, read from the front.
pub proof fn lemma_pairs_front(allocated: Seq<Block>)
    requires
        allocated.len() > 0,
    ensures
        pairs(allocated).subrange(2, pairs(allocated).len() as int) == pairs(allocated.drop_first()),
{
    lemma_pairs_index(allocated);
    lemma_pairs_index(allocated.drop_first());
    let tail = pairs(allocated).subrange(2, pairs(allocated).len() as int);
    let rest = pairs(allocated.drop_first());
    assert forall|w: int| 0 <= w < tail.len() implies tail[w] == rest[w] by {
        assert(tail[w] == pairs(allocated)[w + 2]);
        assert(rest[w] == pairs(allocated.drop_first())[w]);
        assert((w + 2) / 2 == w / 2 + 1);
        assert((w + 2) % 2 == w % 2);
        assert(allocated.drop_first()[w / 2] == allocated[w / 2 + 1]);
    }
    assert(tail =~= rest);
}

/// Two tilings laid end to end tile the whole.
pub proof fn lemma_tiles_concat(a: Seq<Block>, b: Seq<Block>, x: int, y: int, z: int)
    requires
        tiles(a, x, y),
        tiles(b, y, z),
    ensures
        tiles(a + b, x, z),
{
    let whole = a + b;
    assert forall|i: int| 0 <= i < whole.len() implies #[trigger] whole[i].length > 0 by {
        if i < a.len() {
            assert(a[i].length > 0);
        } else {
            assert(b[i - a.len()].length > 0);
        }
    }
    assert forall|i: int| 0 <= i < whole.len() - 1 implies #[trigger] adjacent(whole, i) by {
        if i < a.len() - 1 {
            assert(adjacent(a, i));
        } else if i >= a.len() {
            assert(adjacent(b, i - a.len()));
        }
    }
}

/// A sorted run of allocated blocks rebuilds, from its words, into
/// a tiling whose allocated blocks are exactly that run.
pub proof fn lemma_rebuild(allocated: Seq<Block>, cursor: int, endmem: int)
    requires
        0 <= cursor <= endmem <= u32::MAX,
        forall|a: int, b: int|
            0 <= a < b < allocated.len() ==> end_of(#[trigger] allocated[a]) <= (
            #[trigger] allocated[b]).address,
        forall|a: int|
            0 <= a < allocated.len() ==> cursor <= (#[trigger] allocated[a]).address && end_of(
                allocated[a],
            ) <= endmem && allocated[a].length > 0 && !allocated[a].free,
    ensures
        extant(rebuilt(cursor, pairs(allocated), endmem)) == allocated,
        rebuilt(cursor, pairs(allocated), endmem).len() > 0 ==> tiles(
            rebuilt(cursor, pairs(allocated), endmem),
            cursor,
            endmem,
        ),
        rebuilt(cursor, pairs(allocated), endmem).len() == 0 ==> cursor == endmem,
    decreases allocated.len(),
{
    let words = pairs(allocated);
    lemma_pairs_index(allocated);
    if allocated.len() == 0 {
        if cursor < endmem {
            let tail = Block { address: cursor as u32, length: (endmem - cursor) as u32, free: true };
            lemma_extant_single(tail);
        } else {
            assert(extant(Seq::<Block>::empty()) == Seq::<Block>::empty());
        }
    } else {
        let first = allocated[0];
        let rest = allocated.drop_first();
        lemma_pairs_front(allocated);
        assert(words[0] == first.address && words[1] == first.length) by {
            assert(words[0] == pairs(allocated)[0]);
            assert(words[1] == pairs(allocated)[1]);
        }
        assert(first == Block { address: words[0], length: words[1], free: false });
        assert forall|a: int, b: int| 0 <= a < b < rest.len() implies end_of(#[trigger] rest[a])
            <= (#[trigger] rest[b]).address by {
            assert(end_of(allocated[a + 1]) <= allocated[b + 1].address);
        }
        assert forall|a: int| 0 <= a < rest.len() implies end_of(first) <= (
        #[trigger] rest[a]).address && end_of(rest[a]) <= endmem && rest[a].length > 0
            && !rest[a].free by {
            assert(end_of(allocated[0]) <= allocated[a + 1].address);
            assert(rest[a] == allocated[a + 1]);
        }
        lemma_rebuild(rest, end_of(first), endmem);
        let after = rebuilt(end_of(first), pairs(rest), endmem);
        let gap = if cursor < first.address {
            seq![Block { address: cursor as u32, length: (first.address - cursor) as u32, free: true }]
        } else {
            Seq::<Block>::empty()
        };
        assert(rebuilt(cursor, words, endmem) == gap + seq![first] + after);
        lemma_extant_concat(gap + seq![first], after);
        lemma_extant_concat(gap, seq![first]);
        lemma_extant_single(first);
        if cursor < first.address {
            lemma_extant_single(gap[0]);
        } else {
            assert(extant(gap) == Seq::<Block>::empty());
        }
        assert(extant(rebuilt(cursor, words, endmem)) =~= seq![first] + rest);
        assert(seq![first] + rest =~= allocated);
        let head = gap + seq![first];
        assert(tiles(head, cursor, end_of(first))) by {
            if cursor < first.address {
                assert(adjacent(head, 0));
            }
        }
        if after.len() > 0 {
            lemma_tiles_concat(head, after, cursor, end_of(first), endmem);
        } else {
            assert(head + after =~= head);
        }
    }
}

/// What a heap's summary rebuilds: the summary applies, and the
/// heap rebuilt from it over a map of the same size tiles the same
/// span with the same allocated blocks -- so it summarizes the same.
pub proof fn summary_round_trip(heap: &Heap, memory: MemoryState)
    requires
        memory.wf(),
        heap.wf(memory),
        heap.is_active(),
    ensures
        summary_rebuilds(heap.summary_words()),
        pairs_fit(heap.summary_words().subrange(2, heap.summary_words().len() as int)),
        ({
            let words = heap.summary_words();
            let blocks = rebuilt(
                words[0] as int,
                words.subrange(2, words.len() as int),
                memory.endmem() as int,
            );
            &&& words[0] == heap.start
            &&& words[1] == heap.alloc_count
            &&& tiles(blocks, heap.start as int, memory.endmem() as int)
            &&& extant(blocks) == heap.allocated()
            &&& seq![words[0], words[1]] + pairs(extant(blocks)) == words
        }),
{
    let ext = heap.allocated();
    let endmem = memory.endmem() as int;
    let words = heap.summary_words();
    lemma_extant_ordered(heap.blocks@, heap.start as int, endmem);
    lemma_extant_members(heap.blocks@);
    lemma_pairs_index(ext);
    assert(words.subrange(2, words.len() as int) =~= pairs(ext));
    let tail = pairs(ext);
    assert forall|i: int| 0 <= i && 2 * i + 2 < tail.len() implies #[trigger] tail[2 * i] < tail[2
        * i + 2] by {
        assert(tail[2 * i] == ext[i].address);
        assert(tail[2 * i + 2] == ext[i + 1].address);
        assert(end_of(ext[i]) <= ext[i + 1].address);
    }
    assert forall|i: int| 0 <= i && 2 * i + 1 < tail.len() implies #[trigger] tail[2 * i]
        + tail[2 * i + 1] <= u32::MAX by {
        assert(tail[2 * i] == ext[i].address);
        assert(tail[2 * i + 1] == ext[i].length);
        assert(end_of(ext[i]) <= endmem);
    }
    lemma_rebuild(ext, heap.start as int, endmem);
    lemma_tiles_bounds(heap.blocks@, heap.start as int, endmem, 0);
    lemma_tiles_count(heap.blocks@, heap.start as int, endmem);
}

} // verus!
