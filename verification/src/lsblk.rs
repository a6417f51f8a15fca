//! The sizes of the block devices, as the listing of block devices states
//! them: one device to a line, its name, a space, and its size in bytes.

use vstd::prelude::*;
use vstd::string::*;
use crate::parse::{after, before, chars_of, find_char, pieces, split, split_chars, text_of};

verus! {

/// The listing of block devices.
pub struct Lsblk {}

/// One block device of the listing.
#[derive(Debug, Clone, PartialEq, Eq)]
pub struct LsblkEntry {
    /// The name of the device.
    pub device: String,
    /// Its size in bytes, as the listing wrote it.
    pub bytes: String,
}

impl View for LsblkEntry {
    type V = (Seq<char>, Seq<char>);

    open spec fn view(&self) -> (Seq<char>, Seq<char>) {
        (self.device@, self.bytes@)
    }
}

/// What a `Vec` of entries holds.
pub open spec fn entries(list: Seq<LsblkEntry>) -> Seq<(Seq<char>, Seq<char>)> {
    Seq::new(list.len(), |i: int| list[i]@)
}

impl Lsblk {
    /// The devices that the listing names, with their sizes: of each line
    /// what stands before its first space, and what stands behind it. A line
    /// without a space names a device and no size.
    pub open spec fn listed(res: Seq<char>) -> Seq<(Seq<char>, Seq<char>)> {
        Seq::new(
            split(res, '\n').len(),
            |i: int| (before(split(res, '\n')[i], ' '), after(split(res, '\n')[i], ' ')),
        )
    }

    /// Reads the listing `res`.
    pub fn execute(res: &str) -> (r: Vec<LsblkEntry>)
        ensures
            entries(r@) == Self::listed(res@),
    {
        let text = chars_of(res);
        let lines = split_chars(text.as_slice(), '\n');
        let mut list: Vec<LsblkEntry> = Vec::new();
        let mut i: usize = 0;
        while i < lines.len()
            invariant
                i <= lines@.len(),
                pieces(lines@) == split(res@, '\n'),
                list@.len() == i,
                forall|j: int| 0 <= j < i ==> (#[trigger] list@[j])@ == Self::listed(res@)[j],
            decreases lines@.len() - i,
        {
            let line = lines[i].as_slice();
            assert(line@ == split(res@, '\n')[i as int]) by {
                assert(pieces(lines@)[i as int] == lines@[i as int]@);
            }
            let end: usize = line.len();
            let space: usize = find_char(line, ' ');
            let device = text_of(line, 0, space);
            let bytes = if space < end {
                text_of(line, space + 1, end)
            } else {
                String::new()
            };
            list.push(LsblkEntry { device, bytes });
            i = i + 1;
        }
        assert(entries(list@) =~= Self::listed(res@));
        list
    }
}

} // verus!
