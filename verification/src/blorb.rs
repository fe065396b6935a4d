//! A Blorb container as its resource index reads: which chunk answers
//! for each (usage, number), and which picture the Fspc chunk names as
//! the cover (Blorb: The Resource Index Chunk; The Frontispiece Chunk).

use vstd::prelude::*;

use crate::iff::IffChunk;

verus! {

/// The usage of a picture resource.
pub const USAGE_PICTURE: [u8; 4] = [0x50, 0x69, 0x63, 0x74];

/// The usage of a sound resource.
pub const USAGE_SOUND: [u8; 4] = [0x53, 0x6E, 0x64, 0x20];

/// The usage of a data resource.
pub const USAGE_DATA: [u8; 4] = [0x44, 0x61, 0x74, 0x61];

/// The chunk type of a PNG picture: PNG followed by a space.
pub const PNG_ID: [u8; 4] = [0x50, 0x4E, 0x47, 0x20];

/// One entry of the resource index, with the chunk it points at.
#[derive(Debug, Clone, PartialEq, Eq)]
pub struct Resource {
    /// What the resource is for: picture, sound, or data.
    pub usage: [u8; 4],
    /// The number the game asks for it by.
    pub number: u32,
    /// The chunk the index entry points at.
    pub chunk: IffChunk,
}

/// A Blorb container, as its index and frontispiece read.
#[derive(Debug, Clone, PartialEq, Eq)]
pub struct Blorb {
    /// The index entries, in the order the index lists them.
    pub resources: Vec<Resource>,
    /// The picture number the Fspc chunk names, if there is one.
    pub frontispiece: Option<u32>,
}

/// The first index entry for a usage and a number.
pub open spec fn lookup(entries: Seq<Resource>, usage: Seq<u8>, number: u32) -> Option<Resource>
    decreases entries.len(),
{
    if entries.len() == 0 {
        None
    } else if entries[0].usage@ == usage && entries[0].number == number {
        Some(entries[0])
    } else {
        lookup(entries.drop_first(), usage, number)
    }
}

/// Whether two chunk types or usages are the same four bytes.
pub fn same_id(first: &[u8; 4], second: &[u8; 4]) -> (same: bool)
    ensures
        same == (first@ == second@),
{
    let same = first[0] == second[0] && first[1] == second[1] && first[2] == second[2]
        && first[3] == second[3];
    proof {
        if same {
            assert(first@ =~= second@);
        }
    }
    same
}

impl Blorb {
    /// Every chunk body is short enough for a chunk's length word, as
    /// any body read out of a file is.
    pub open spec fn fits(&self) -> bool {
        forall|i: int|
            0 <= i < self.resources@.len() ==> (#[trigger] self.resources@[i]).chunk.payload@.len()
                <= u32::MAX
    }

    /// The resource a usage and a number name, if the index has one.
    pub fn resource(&self, usage: &[u8; 4], number: u32) -> (found: Option<&Resource>)
        ensures
            found == match lookup(self.resources@, usage@, number) {
                Some(entry) => Some(&entry),
                None => None::<&Resource>,
            },
            found matches Some(entry) ==> exists|i: int|
                0 <= i < self.resources@.len() && self.resources@[i] == *entry,
    {
        let mut index: usize = 0;
        proof {
            assert(self.resources@.skip(0) =~= self.resources@);
        }
        while index < self.resources.len()
            invariant
                index <= self.resources@.len(),
                lookup(self.resources@, usage@, number) == lookup(
                    self.resources@.skip(index as int),
                    usage@,
                    number,
                ),
            decreases self.resources@.len() - index,
        {
            let entry = &self.resources[index];
            proof {
                assert(self.resources@.skip(index as int)[0] == self.resources@[index as int]);
                assert(self.resources@.skip(index as int).drop_first() =~= self.resources@.skip(
                    index + 1,
                ));
            }
            if same_id(&entry.usage, usage) && entry.number == number {
                return Some(entry);
            }
            index += 1;
        }
        proof {
            assert(self.resources@.skip(index as int).len() == 0);
        }
        None
    }
}

} // verus!
