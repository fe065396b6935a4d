//! A table of one class of the library's objects -- file references,
//! sound channels -- each under the key it was made with, in the order
//! a walk visits them, newest first, with the keys of the ones dropped
//! since last asked (Glk: Iterating Through Opaque Objects).

use vstd::prelude::*;

use crate::error::VoxamError;
use crate::glk::api::next_in;
use crate::glk::objects::{FileRef, SoundChannel};

verus! {

/// An object filed under a rock the game chose (Glk: Rocks).
pub trait Rocked {
    /// The object's rock.
    spec fn rock_of(&self) -> u32;

    /// The object's rock.
    fn rock(&self) -> (rock: u32)
        ensures
            rock == self.rock_of(),
    ;
}

impl Rocked for FileRef {
    open spec fn rock_of(&self) -> u32 {
        self.rock
    }

    fn rock(&self) -> (rock: u32) {
        self.rock
    }
}

impl Rocked for SoundChannel {
    open spec fn rock_of(&self) -> u32 {
        self.rock
    }

    fn rock(&self) -> (rock: u32) {
        self.rock
    }
}

/// The live objects of one class, newest first.
pub struct Table<T> {
    entries: Vec<(u32, T)>,
    dropped: Vec<u32>,
}

impl<T: Rocked> Table<T> {
    /// The keys in walk order, newest first.
    pub closed spec fn order(&self) -> Seq<u32> {
        self.entries@.map_values(|entry: (u32, T)| entry.0)
    }

    /// The live object under a key.
    pub closed spec fn held(&self, key: u32) -> Option<T> {
        match self.order().index_of_first(key) {
            Some(index) => Some(self.entries@[index].1),
            None => None,
        }
    }

    /// The keys of dropped objects not yet reported.
    pub closed spec fn dropped_keys(&self) -> Seq<u32> {
        self.dropped@
    }

    /// Each key stands once.
    pub closed spec fn wf(&self) -> bool {
        self.order().no_duplicates()
    }

    /// An empty table.
    pub fn new() -> (table: Self)
        ensures
            table.wf(),
            table.order() == Seq::<u32>::empty(),
            table.dropped_keys() == Seq::<u32>::empty(),
    {
        let table = Table { entries: Vec::new(), dropped: Vec::new() };
        proof {
            assert(table.order() =~= Seq::<u32>::empty());
        }
        table
    }

    /// Where a key stands among the entries.
    fn position(&self, key: u32) -> (found: Option<usize>)
        ensures
            match found {
                Some(index) => index < self.entries@.len() && self.order().index_of_first(key)
                    == Some(index as int),
                None => self.order().index_of_first(key) is None,
            },
            found is Some <==> self.order().contains(key),
    {
        let ghost order = self.order();
        let mut index: usize = 0;
        while index < self.entries.len()
            invariant
                index <= self.entries@.len(),
                order == self.order(),
                order.len() == self.entries@.len(),
                forall|j: int| 0 <= j < index ==> order[j] != key,
            decreases self.entries@.len() - index,
        {
            if self.entries[index].0 == key {
                proof {
                    assert(order[index as int] == key);
                    order.index_of_first_ensures(key);
                }
                return Some(index);
            }
            index += 1;
        }
        proof {
            order.index_of_first_ensures(key);
        }
        None
    }

    /// Whether an object lives under a key.
    pub fn contains(&self, key: u32) -> (live: bool)
        ensures
            live == self.order().contains(key),
    {
        self.position(key).is_some()
    }

    /// The object under a key, if one lives there.
    pub fn get(&self, key: u32) -> (found: Option<&T>)
        ensures
            match found {
                Some(object) => self.held(key) == Some(*object),
                None => self.held(key) is None,
            },
    {
        match self.position(key) {
            Some(index) => Some(&self.entries[index].1),
            None => None,
        }
    }

    /// File an object under a fresh key, first in the walk.
    pub fn insert(&mut self, key: u32, object: T)
        requires
            old(self).wf(),
            !old(self).order().contains(key),
        ensures
            final(self).wf(),
            final(self).order() == seq![key] + old(self).order(),
            final(self).held(key) == Some(object),
            forall|other: u32| other != key ==> #[trigger] final(self).held(other) == old(self).held(
                other,
            ),
            final(self).dropped_keys() == old(self).dropped_keys(),
    {
        let ghost before = self.order();
        let ghost old_entries = self.entries@;
        self.entries.insert(0, (key, object));
        proof {
            let order = self.order();
            assert(order =~= seq![key] + before);
            assert(order.no_duplicates()) by {
                assert forall|i: int, j: int|
                    0 <= i < order.len() && 0 <= j < order.len() && i != j implies order[i]
                    != order[j] by {
                    if i > 0 {
                        assert(order[i] == before[i - 1]);
                    }
                    if j > 0 {
                        assert(order[j] == before[j - 1]);
                    }
                }
            }
            order.index_of_first_ensures(key);
            assert(order[0] == key);
            assert(self.entries@[0] == (key, object));
            assert forall|other: u32| other != key implies #[trigger] self.held(other) == old(
                self,
            ).held(other) by {
                order.index_of_first_ensures(other);
                before.index_of_first_ensures(other);
                match before.index_of_first(other) {
                    Some(at) => {
                        assert(order[at + 1] == other);
                        assert forall|j: int| 0 <= j < at + 1 implies order[j] != other by {
                            if j > 0 {
                                assert(order[j] == before[j - 1]);
                            }
                        }
                        assert(self.entries@[at + 1] == old_entries[at]);
                    },
                    None => {
                        if order.contains(other) {
                            let j = choose|j: int| 0 <= j < order.len() && order[j] == other;
                            assert(before[j - 1] == other);
                        }
                    },
                }
            }
        }
    }

    /// Drop the object under a key: it leaves the walk and its key waits
    /// to be reported. The null object and a key with no object drop
    /// nothing.
    pub fn remove(&mut self, key: Option<u32>) -> (removed: Option<T>)
        requires
            old(self).wf(),
        ensures
            final(self).wf(),
            match key {
                Some(held) if old(self).order().contains(held) => {
                    &&& removed == old(self).held(held)
                    &&& final(self).order() == old(self).order().remove(
                        old(self).order().index_of_first(held)->Some_0,
                    )
                    &&& final(self).held(held) is None
                    &&& forall|other: u32| other != held ==> #[trigger] final(self).held(other)
                        == old(self).held(other)
                    &&& final(self).dropped_keys() == old(self).dropped_keys().push(held)
                },
                _ => {
                    &&& removed is None
                    &&& final(self).order() == old(self).order()
                    &&& forall|other: u32| #[trigger] final(self).held(other) == old(self).held(
                        other,
                    )
                    &&& final(self).dropped_keys() == old(self).dropped_keys()
                },
            },
    {
        let key = match key {
            Some(key) => key,
            None => return None,
        };
        let index = match self.position(key) {
            Some(index) => index,
            None => return None,
        };
        let ghost before = self.order();
        let ghost old_entries = self.entries@;
        let (_, object) = self.entries.remove(index);
        self.dropped.push(key);
        proof {
            let order = self.order();
            assert(order =~= before.remove(index as int));
            before.index_of_first_ensures(key);
            assert(order.no_duplicates()) by {
                assert forall|i: int, j: int|
                    0 <= i < order.len() && 0 <= j < order.len() && i != j implies order[i]
                    != order[j] by {
                    let bi = if i < index {
                        i
                    } else {
                        i + 1
                    };
                    let bj = if j < index {
                        j
                    } else {
                        j + 1
                    };
                    assert(order[i] == before[bi]);
                    assert(order[j] == before[bj]);
                }
            }
            assert(!order.contains(key)) by {
                if order.contains(key) {
                    let j = choose|j: int| 0 <= j < order.len() && order[j] == key;
                    let bj = if j < index {
                        j
                    } else {
                        j + 1
                    };
                    assert(before[bj] == key);
                }
            }
            order.index_of_first_ensures(key);
            assert forall|other: u32| other != key implies #[trigger] self.held(other) == old(
                self,
            ).held(other) by {
                order.index_of_first_ensures(other);
                before.index_of_first_ensures(other);
                match before.index_of_first(other) {
                    Some(at) => {
                        let now = if at < index {
                            at
                        } else {
                            at - 1
                        };
                        assert(order[now] == other);
                        assert forall|j: int| 0 <= j < now implies order[j] != other by {
                            let bj = if j < index {
                                j
                            } else {
                                j + 1
                            };
                            assert(order[j] == before[bj]);
                        }
                        assert(self.entries@[now] == old_entries[at]);
                    },
                    None => {
                        if order.contains(other) {
                            let j = choose|j: int| 0 <= j < order.len() && order[j] == other;
                            let bj = if j < index {
                                j
                            } else {
                                j + 1
                            };
                            assert(before[bj] == other);
                        }
                    },
                }
            }
        }
        Some(object)
    }

    /// One step of the walk: the first object for the null object, the
    /// next after an object, none after the last or after one no longer
    /// live; with the rock of what was found.
    pub fn iterate(&self, key: Option<u32>) -> (found: Option<(u32, u32)>)
        requires
            self.wf(),
        ensures
            match next_in(self.order(), key) {
                Some(next) => found == Some((next, self.held(next)->Some_0.rock_of())),
                None => found is None,
            },
    {
        let ghost order = self.order();
        let next = match key {
            None => if self.entries.len() > 0 {
                Some(0usize)
            } else {
                None
            },
            Some(key) => match self.position(key) {
                Some(index) => if index < self.entries.len() - 1 {
                    Some(index + 1)
                } else {
                    None
                },
                None => None,
            },
        };
        match next {
            Some(index) => {
                let found = self.entries[index].0;
                proof {
                    assert(order[index as int] == found);
                    order.index_of_first_ensures(found);
                }
                Some((found, self.entries[index].1.rock()))
            },
            None => None,
        }
    }

    /// The rock of the object under a key, or zero for the null object
    /// and a key with no object (Glk: Rocks).
    pub fn get_rock(&self, key: Option<u32>) -> (rock: u32)
        ensures
            rock == match key {
                Some(held) => match self.held(held) {
                    Some(object) => object.rock_of(),
                    None => 0,
                },
                None => 0,
            },
    {
        match key {
            Some(held) => match self.position(held) {
                Some(index) => self.entries[index].1.rock(),
                None => 0,
            },
            None => 0,
        }
    }

    /// Hand over the keys of objects dropped since the last call.
    pub fn take_dropped(&mut self) -> (keys: Vec<u32>)
        ensures
            keys@ == old(self).dropped_keys(),
            final(self).dropped_keys() == Seq::<u32>::empty(),
            final(self).order() == old(self).order(),
            forall|other: u32| #[trigger] final(self).held(other) == old(self).held(other),
            final(self).wf() == old(self).wf(),
    {
        let mut keys: Vec<u32> = Vec::new();
        std::mem::swap(&mut keys, &mut self.dropped);
        keys
    }
}

/// A reference to the same file as another, for a usage of its own and
/// under a rock of its own, filed under a fresh key (Glk: File
/// References). Refused for the null reference and one not live.
pub fn fileref_from_fileref(
    filerefs: &mut Table<FileRef>,
    key: u32,
    usage: u32,
    source: Option<u32>,
    rock: u32,
) -> (result: Result<u32, VoxamError>)
    requires
        old(filerefs).wf(),
        !old(filerefs).order().contains(key),
    ensures
        final(filerefs).wf(),
        match source {
            Some(held) if old(filerefs).order().contains(held) => {
                let made = final(filerefs).held(key)->Some_0;
                &&& result == Ok::<u32, VoxamError>(key)
                &&& final(filerefs).order() == seq![key] + old(filerefs).order()
                &&& final(filerefs).held(key) is Some
                &&& made.filename@ == old(filerefs).held(held)->Some_0.filename@
                &&& made.rock == rock
                &&& !made.disposed
                &&& made.usage == usage & crate::glk::objects::file_usage::TYPE_MASK
                &&& made.text_mode == (usage & crate::glk::objects::file_usage::TEXT_MODE != 0)
                &&& !made.temporary
                &&& forall|other: u32| other != key ==> #[trigger] final(filerefs).held(other)
                    == old(filerefs).held(other)
            },
            _ => result == Err::<u32, VoxamError>(VoxamError::NoSourceFileRef)
                && final(filerefs).order() == old(filerefs).order() && forall|other: u32|
                #[trigger] final(filerefs).held(other) == old(filerefs).held(other),
        },
{
    let name = match source {
        Some(held) => match filerefs.get(held) {
            Some(found) => found.filename.clone(),
            None => {
                proof {
                    filerefs.order().index_of_first_ensures(held);
                }
                return Err(VoxamError::NoSourceFileRef);
            },
        },
        None => return Err(VoxamError::NoSourceFileRef),
    };
    proof {
        let held = source->Some_0;
        filerefs.order().index_of_first_ensures(held);
    }
    filerefs.insert(key, FileRef::new(name, usage, rock, false));
    Ok(key)
}

/// A sound channel at a volume, filed under a fresh key, or none where
/// the display plays no sound (Glk: Creating and Destroying Sound
/// Channels).
pub fn schannel_create(
    channels: &mut Table<SoundChannel>,
    key: u32,
    sound: bool,
    rock: u32,
    volume: u32,
) -> (made: Option<u32>)
    requires
        old(channels).wf(),
        !old(channels).order().contains(key),
    ensures
        final(channels).wf(),
        sound ==> made == Some(key) && final(channels).order() == seq![key] + old(channels).order()
            && final(channels).held(key) == Some(
            SoundChannel {
                rock,
                disposed: false,
                volume,
                sound: 0,
                repeats: 0,
                notify: 0,
                paused: false,
            },
        ) && forall|
            other: u32,
        | other != key ==> #[trigger] final(channels).held(other) == old(channels).held(other),
        !sound ==> made is None && final(channels).order() == old(channels).order() && forall|
            other: u32,
        | #[trigger] final(channels).held(other) == old(channels).held(other),
{
    if !sound {
        return None;
    }
    channels.insert(key, SoundChannel::new(volume, rock));
    Some(key)
}

} // verus!
