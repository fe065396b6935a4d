//! The library's open streams: each under the key it was opened with,
//! in the order a walk visits them -- newest first -- with the current
//! stream the printing functions write to (Glk: Streams; Glk:
//! Iterating Through Opaque Objects).

use vstd::prelude::*;

use crate::error::VoxamError;
use crate::glk::api::next_in;
use crate::glk::objects::{
    file_mode, has_room, put_step, reads, writes, Holding, MemArray, Stream, StreamState,
};
use crate::memory::Memory;

verus! {

/// The open streams, newest first.
pub struct Streams {
    entries: Vec<(u32, Stream)>,
    current: Option<u32>,
    closed: Vec<u32>,
}

/// Where a key stands in a walk order, if it stands there at all.
pub open spec fn place_of(order: Seq<u32>, key: u32) -> Option<int> {
    order.index_of_first(key)
}

impl Streams {
    /// The keys in walk order, newest first.
    pub closed spec fn order(&self) -> Seq<u32> {
        self.entries@.map_values(|entry: (u32, Stream)| entry.0)
    }

    /// The open stream under a key, as a value.
    pub closed spec fn stream(&self, key: u32) -> Option<StreamState> {
        match self.order().index_of_first(key) {
            Some(index) => Some(self.entries@[index].1@),
            None => None,
        }
    }

    /// The stream the printing functions write to, if any.
    pub closed spec fn current_stream(&self) -> Option<u32> {
        self.current
    }

    /// The keys of closed streams not yet reported.
    pub closed spec fn closed_keys(&self) -> Seq<u32> {
        self.closed@
    }

    /// Each key stands once.
    pub closed spec fn wf(&self) -> bool {
        self.order().no_duplicates()
    }

    /// No streams open, none current, nothing to report.
    pub fn new() -> (streams: Self)
        ensures
            streams.wf(),
            streams.order() == Seq::<u32>::empty(),
            streams.current_stream() is None,
            streams.closed_keys() == Seq::<u32>::empty(),
    {
        let streams = Streams { entries: Vec::new(), current: None, closed: Vec::new() };
        proof {
            assert(streams.order() =~= Seq::<u32>::empty());
        }
        streams
    }

    /// Whether a stream is open under a key.
    pub fn contains(&self, key: u32) -> (open: bool)
        ensures
            open == self.order().contains(key),
    {
        self.position(key).is_some()
    }

    /// Where a key stands among the entries.
    fn position(&self, key: u32) -> (found: Option<usize>)
        ensures
            match found {
                Some(index) => index < self.entries@.len() && self.order().index_of_first(key)
                    == Some(index as int),
                None => self.order().index_of_first(key) is None,
            },
            found is Some <==> self.order().contains(key),
    {
        let ghost order = self.order();
        let mut index: usize = 0;
        while index < self.entries.len()
            invariant
                index <= self.entries@.len(),
                order == self.order(),
                order.len() == self.entries@.len(),
                forall|j: int| 0 <= j < index ==> order[j] != key,
            decreases self.entries@.len() - index,
        {
            if self.entries[index].0 == key {
                proof {
                    assert(order[index as int] == key);
                    order.index_of_first_ensures(key);
                    assert(order.contains(key));
                }
                return Some(index);
            }
            index += 1;
        }
        proof {
            order.index_of_first_ensures(key);
            assert(!order.contains(key));
        }
        None
    }

    /// Open a stream over game memory under a fresh key, first in the
    /// walk (Glk: Memory Streams). Append is refused: a memory stream
    /// takes read, write, or both.
    pub fn open_memory(
        &mut self,
        key: u32,
        buf: Option<MemArray>,
        fmode: u32,
        rock: u32,
        unicode: bool,
    ) -> (result: Result<u32, VoxamError>)
        requires
            old(self).wf(),
            !old(self).order().contains(key),
        ensures
            final(self).wf(),
            final(self).current_stream() == old(self).current_stream(),
            final(self).closed_keys() == old(self).closed_keys(),
            fmode == file_mode::READ || fmode == file_mode::WRITE || fmode == file_mode::READ_WRITE
                ==> {
                &&& result == Ok::<u32, VoxamError>(key)
                &&& final(self).order() == seq![key] + old(self).order()
                &&& final(self).stream(key) == Some(
                    StreamState {
                        rock,
                        disposed: false,
                        readable: reads(fmode),
                        writable: writes(fmode),
                        unicode,
                        readcount: 0,
                        writecount: 0,
                        hyperlink: 0,
                        holding: Holding::Memory { buf, position: 0 },
                    },
                )
                &&& forall|other: u32| other != key ==> #[trigger] final(self).stream(other) == old(
                    self,
                ).stream(other)
            },
            !(fmode == file_mode::READ || fmode == file_mode::WRITE || fmode
                == file_mode::READ_WRITE) ==> result == Err::<u32, VoxamError>(
                VoxamError::MemoryStreamMode,
            ) && final(self).order() == old(self).order() && forall|other: u32|
                #[trigger] final(self).stream(other) == old(self).stream(other),
    {
        if !(fmode == file_mode::READ || fmode == file_mode::WRITE || fmode == file_mode::READ_WRITE) {
            return Err(VoxamError::MemoryStreamMode);
        }
        let ghost before = self.order();
        let ghost old_entries = self.entries@;
        let stream = Stream::memory(buf, fmode, rock, unicode);
        self.entries.insert(0, (key, stream));
        proof {
            let order = self.order();
            assert(order =~= seq![key] + before);
            assert(order.no_duplicates()) by {
                assert forall|i: int, j: int|
                    0 <= i < order.len() && 0 <= j < order.len() && i != j implies order[i]
                    != order[j] by {
                    if i == 0 && j > 0 {
                        assert(order[j] == before[j - 1]);
                    } else if j == 0 && i > 0 {
                        assert(order[i] == before[i - 1]);
                    } else if i > 0 && j > 0 {
                        assert(order[i] == before[i - 1]);
                        assert(order[j] == before[j - 1]);
                    }
                }
            }
            order.index_of_first_ensures(key);
            assert(order[0] == key);
            assert forall|other: u32| other != key implies #[trigger] self.stream(other) == old(
                self,
            ).stream(other) by {
                order.index_of_first_ensures(other);
                before.index_of_first_ensures(other);
                match before.index_of_first(other) {
                    Some(at) => {
                        assert(order[at + 1] == other);
                        assert forall|j: int| 0 <= j < at + 1 implies order[j] != other by {
                            if j > 0 {
                                assert(order[j] == before[j - 1]);
                            }
                        }
                        assert(order.index_of_first(other) == Some(at + 1));
                        assert(self.entries@[at + 1] == old_entries[at]);
                    },
                    None => {
                        assert(!before.contains(other));
                        if order.contains(other) {
                            let j = choose|j: int| 0 <= j < order.len() && order[j] == other;
                            assert(j > 0);
                            assert(before[j - 1] == other);
                        }
                    },
                }
            }
        }
        Ok(key)
    }

    /// Close a stream, answering its counts of characters read and
    /// written (Glk: Closing Streams). It leaves the walk, stops being
    /// current if it was, and its key waits to be reported. Refused for
    /// the null stream and for one not open.
    pub fn close(&mut self, stream: Option<u32>) -> (result: Result<(u32, u32), VoxamError>)
        requires
            old(self).wf(),
        ensures
            final(self).wf(),
            match stream {
                Some(key) if old(self).order().contains(key) => {
                    let index = old(self).order().index_of_first(key)->Some_0;
                    let held = old(self).stream(key)->Some_0;
                    &&& result == Ok::<(u32, u32), VoxamError>((held.readcount, held.writecount))
                    &&& final(self).order() == old(self).order().remove(index)
                    &&& final(self).stream(key) is None
                    &&& forall|other: u32| other != key ==> #[trigger] final(self).stream(other)
                        == old(self).stream(other)
                    &&& final(self).current_stream() == if old(self).current_stream() == Some(key) {
                        None
                    } else {
                        old(self).current_stream()
                    }
                    &&& final(self).closed_keys() == old(self).closed_keys().push(key)
                },
                _ => {
                    &&& result == Err::<(u32, u32), VoxamError>(VoxamError::NoStreamToClose)
                    &&& final(self).order() == old(self).order()
                    &&& forall|other: u32| #[trigger] final(self).stream(other) == old(self).stream(
                        other,
                    )
                    &&& final(self).current_stream() == old(self).current_stream()
                    &&& final(self).closed_keys() == old(self).closed_keys()
                },
            },
    {
        let key = match stream {
            Some(key) => key,
            None => return Err(VoxamError::NoStreamToClose),
        };
        let index = match self.position(key) {
            Some(index) => index,
            None => return Err(VoxamError::NoStreamToClose),
        };
        let ghost before = self.order();
        let ghost old_entries = self.entries@;
        let (_, mut held) = self.entries.remove(index);
        let counts = held.close();
        if self.current == Some(key) {
            self.current = None;
        }
        self.closed.push(key);
        proof {
            let order = self.order();
            assert(order =~= before.remove(index as int));
            before.index_of_first_ensures(key);
            assert(order.no_duplicates()) by {
                assert forall|i: int, j: int|
                    0 <= i < order.len() && 0 <= j < order.len() && i != j implies order[i]
                    != order[j] by {
                    let bi = if i < index {
                        i
                    } else {
                        i + 1
                    };
                    let bj = if j < index {
                        j
                    } else {
                        j + 1
                    };
                    assert(order[i] == before[bi]);
                    assert(order[j] == before[bj]);
                }
            }
            assert(!order.contains(key)) by {
                if order.contains(key) {
                    let j = choose|j: int| 0 <= j < order.len() && order[j] == key;
                    let bj = if j < index {
                        j
                    } else {
                        j + 1
                    };
                    assert(before[bj] == key);
                }
            }
            order.index_of_first_ensures(key);
            assert forall|other: u32| other != key implies #[trigger] self.stream(other) == old(
                self,
            ).stream(other) by {
                order.index_of_first_ensures(other);
                before.index_of_first_ensures(other);
                match before.index_of_first(other) {
                    Some(at) => {
                        assert(at != index);
                        let now = if at < index {
                            at
                        } else {
                            at - 1
                        };
                        assert(order[now] == other);
                        assert forall|j: int| 0 <= j < now implies order[j] != other by {
                            let bj = if j < index {
                                j
                            } else {
                                j + 1
                            };
                            assert(order[j] == before[bj]);
                        }
                        assert(order.index_of_first(other) == Some(now));
                        assert(self.entries@[now] == old_entries[at]);
                    },
                    None => {
                        if order.contains(other) {
                            let j = choose|j: int| 0 <= j < order.len() && order[j] == other;
                            let bj = if j < index {
                                j
                            } else {
                                j + 1
                            };
                            assert(before[bj] == other);
                        }
                    },
                }
            }
        }
        Ok(counts)
    }

    /// One step of the walk over open streams: the first for the null
    /// stream, the next after a stream, none after the last or after a
    /// stream no longer open; with the rock of what was found.
    pub fn iterate(&self, stream: Option<u32>) -> (found: Option<(u32, u32)>)
        requires
            self.wf(),
        ensures
            match next_in(self.order(), stream) {
                Some(key) => found == Some((key, self.stream(key)->Some_0.rock)),
                None => found is None,
            },
    {
        let ghost order = self.order();
        let next = match stream {
            None => if self.entries.len() > 0 {
                Some(0usize)
            } else {
                None
            },
            Some(key) => match self.position(key) {
                Some(index) => if index < self.entries.len() - 1 {
                    Some(index + 1)
                } else {
                    None
                },
                None => None,
            },
        };
        match next {
            Some(index) => {
                let key = self.entries[index].0;
                proof {
                    assert(order[index as int] == key);
                    order.index_of_first_ensures(key);
                    let first = order.index_of_first(key)->Some_0;
                    assert(first == index as int);
                }
                Some((key, self.entries[index].1.rock))
            },
            None => None,
        }
    }

    /// The rock a stream was opened with, or zero for the null stream
    /// and for one not open (Glk: Rocks).
    pub fn get_rock(&self, stream: Option<u32>) -> (rock: u32)
        ensures
            rock == match stream {
                Some(key) => match self.stream(key) {
                    Some(held) => held.rock,
                    None => 0,
                },
                None => 0,
            },
    {
        match stream {
            Some(key) => match self.position(key) {
                Some(index) => self.entries[index].1.rock,
                None => 0,
            },
            None => 0,
        }
    }

    /// Write one character to a stream, counting it even if it goes
    /// nowhere; the null stream and a stream not open take nothing. A
    /// window stream hands the character back for its window to take
    /// (Glk: Output).
    pub fn put_to(&mut self, memory: &mut Memory, stream: Option<u32>, character: u32) -> (result:
        Result<Option<u32>, VoxamError>)
        requires
            old(self).wf(),
            old(memory)@.wf(),
            match stream {
                Some(key) => match old(self).stream(key) {
                    Some(held) => has_room(held),
                    None => true,
                },
                None => true,
            },
        ensures
            final(self).wf(),
            final(memory)@.wf(),
            final(self).order() == old(self).order(),
            final(self).current_stream() == old(self).current_stream(),
            final(self).closed_keys() == old(self).closed_keys(),
            match stream {
                Some(key) if old(self).stream(key) is Some => {
                    let step = put_step(old(self).stream(key)->Some_0, old(memory)@, character);
                    &&& final(self).stream(key) == Some(step.0)
                    &&& final(memory)@ == step.1
                    &&& result == step.2
                    &&& forall|other: u32| other != key ==> #[trigger] final(self).stream(other)
                        == old(self).stream(other)
                },
                _ => {
                    &&& result == Ok::<Option<u32>, VoxamError>(None)
                    &&& final(memory)@ == old(memory)@
                    &&& forall|other: u32| #[trigger] final(self).stream(other) == old(self).stream(
                        other,
                    )
                },
            },
    {
        let key = match stream {
            Some(key) => key,
            None => return Ok(None),
        };
        let index = match self.position(key) {
            Some(index) => index,
            None => {
                proof {
                    self.order().index_of_first_ensures(key);
                }
                return Ok(None);
            },
        };
        let ghost before = self.order();
        let ghost old_entries = self.entries@;
        let (held_key, mut held) = self.entries.remove(index);
        let result = held.put_char(memory, character);
        self.entries.insert(index, (held_key, held));
        proof {
            let order = self.order();
            before.index_of_first_ensures(key);
            assert(before[index as int] == key);
            assert(old_entries[index as int].0 == before[index as int]);
            assert(held_key == key);
            assert(order =~= before);
            assert forall|other: u32| other != key implies #[trigger] self.stream(other) == old(
                self,
            ).stream(other) by {
                match before.index_of_first(other) {
                    Some(at) => {
                        before.index_of_first_ensures(other);
                        assert(at != index);
                        assert(self.entries@[at] == old_entries[at]);
                    },
                    None => {},
                }
            }
        }
        result
    }

    /// Choose where the printing functions send output; any key, or
    /// none (Glk: Streams).
    pub fn set_current(&mut self, stream: Option<u32>)
        ensures
            final(self).current_stream() == stream,
            final(self).order() == old(self).order(),
            forall|other: u32| #[trigger] final(self).stream(other) == old(self).stream(other),
            final(self).closed_keys() == old(self).closed_keys(),
            final(self).wf() == old(self).wf(),
    {
        self.current = stream;
    }

    /// The stream the printing functions write to, or none.
    pub fn get_current(&self) -> (stream: Option<u32>)
        ensures
            stream == self.current_stream(),
    {
        self.current
    }

    /// Hand over the keys of streams closed since the last call.
    pub fn take_closed(&mut self) -> (keys: Vec<u32>)
        ensures
            keys@ == old(self).closed_keys(),
            final(self).closed_keys() == Seq::<u32>::empty(),
            final(self).order() == old(self).order(),
            forall|other: u32| #[trigger] final(self).stream(other) == old(self).stream(other),
            final(self).current_stream() == old(self).current_stream(),
            final(self).wf() == old(self).wf(),
    {
        let mut keys: Vec<u32> = Vec::new();
        std::mem::swap(&mut keys, &mut self.closed);
        keys
    }
}

} // verus!
