//! Line and column bookkeeping for source locations.

use vstd::prelude::*;

verus! {

/// A source location: the line (counted from 1) and the column (counted from 0).
#[derive(Debug, Clone, Copy, PartialEq, Eq, Structural)]
pub struct LineCol(pub usize, pub usize);

impl LineCol {
    /// Moves the column forward by `x` and returns the new location.
    pub fn add_offset(&mut self, x: usize) -> (r: Self)
        requires
            old(self).1 + x <= usize::MAX,
        ensures
            final(self).0 == old(self).0,
            final(self).1 == old(self).1 + x,
            r == *final(self),
    {
        self.1 = self.1 + x;
        LineCol(self.0, self.1)
    }

    /// Moves the column past a quoted text of `len` characters, counting the two
    /// quotes that were stripped from it, and returns the new location.
    pub fn surrounding_offset(&mut self, len: usize) -> (r: Self)
        requires
            old(self).1 + len + 2 <= usize::MAX,
        ensures
            final(self).0 == old(self).0,
            final(self).1 == old(self).1 + len + 2,
            r == *final(self),
    {
        self.1 = self.1 + len + 2;
        LineCol(self.0, self.1)
    }

    /// Moves to the start of the next line and returns the new location.
    pub fn newline_offset(&mut self) -> (r: Self)
        requires
            old(self).0 + 1 <= usize::MAX,
        ensures
            final(self).0 == old(self).0 + 1,
            final(self).1 == 0,
            r == *final(self),
    {
        self.0 = self.0 + 1;
        self.1 = 0;
        LineCol(self.0, self.1)
    }

    /// Moves to the start of the line `n` lines further down and returns the new
    /// location.
    pub fn multiple_newline_offset(&mut self, n: usize) -> (r: Self)
        requires
            old(self).0 + n <= usize::MAX,
        ensures
            final(self).0 == old(self).0 + n,
            final(self).1 == 0,
            r == *final(self),
    {
        self.0 = self.0 + n;
        self.1 = 0;
        LineCol(self.0, self.1)
    }
}

} // verus!
