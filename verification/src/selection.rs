//! The selection: a range of display cells counted from the start of the text.

use vstd::prelude::*;

verus! {

/// A selection given by its two ends, in display cells from the start of
/// the whole text. The ends come from an anchor and a cursor and may stand
/// in either order; `start == end` is a caret.
#[derive(Clone, Copy, Debug, PartialEq, Eq, Structural)]
pub struct SelectionRange {
    pub start: u32,
    pub end: u32,
}

impl SelectionRange {
    /// The first highlighted cell: the smaller of the two ends.
    pub open spec fn lo(self) -> nat {
        if self.start <= self.end {
            self.start as nat
        } else {
            self.end as nat
        }
    }

    /// One past the last highlighted cell: the larger of the two ends, or
    /// one cell further for a caret, which is shown as a single cell.
    pub open spec fn hi(self) -> nat {
        if self.start == self.end {
            (self.start + 1) as nat
        } else if self.start < self.end {
            self.end as nat
        } else {
            self.start as nat
        }
    }

    /// A selection between the two given ends.
    pub fn new(start: u32, end: u32) -> (selection: Self)
        ensures
            selection.start == start,
            selection.end == end,
    {
        SelectionRange { start, end }
    }

    /// The selection for what a text input reports of itself: where it
    /// reports no start, the selection begins at the start of the text,
    /// and where it reports no end, it ends at the length of the text, cut
    /// to 32 bits.
    pub fn reported(start: Option<u32>, end: Option<u32>, text_len: usize) -> (selection: Self)
        ensures
            selection.start == (match start {
                Some(start) => start,
                None => 0,
            }),
            selection.end == (match end {
                Some(end) => end as int,
                None => text_len as int % 0x1_0000_0000,
            }),
    {
        let start = match start {
            Some(start) => start,
            None => 0,
        };
        let end = match end {
            Some(end) => end,
            None => (text_len as u64 % 0x1_0000_0000) as u32,
        };
        SelectionRange { start, end }
    }

    /// The first highlighted cell.
    pub fn low(&self) -> (lo: u64)
        ensures
            lo == self.lo(),
    {
        if self.start <= self.end {
            self.start as u64
        } else {
            self.end as u64
        }
    }

    /// One past the last highlighted cell.
    pub fn high(&self) -> (hi: u64)
        ensures
            hi == self.hi(),
    {
        if self.start == self.end {
            self.start as u64 + 1
        } else if self.start < self.end {
            self.end as u64
        } else {
            self.start as u64
        }
    }
}

} // verus!
