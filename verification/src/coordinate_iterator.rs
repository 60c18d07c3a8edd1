//! The shared pixel cursor: a monotonically advancing (row, column) pair
//! covering the full raster exactly once, from the top row down.

use vstd::prelude::*;

verus! {

/// The cursor. Rows run from `max_height - 1` down to zero; columns run
/// left to right; the column starts one step before the first pixel.
pub struct CoordinateIterator {
    pub row: u32,
    pub col: i32,
    pub max_width: u32,
}

impl CoordinateIterator {
    /// The cursor's few shape constraints: the column is one step behind
    /// a valid position, and the width is positive and moderate.
    pub open spec fn wf(self, max_height: int) -> bool {
        1 <= self.max_width <= 0x10000 && -1 <= self.col < self.max_width && self.row < max_height
    }

    /// A fresh cursor over the raster, one step before the first pixel of
    /// the top row.
    pub fn new(max_width: u32, max_height: u32) -> (it: CoordinateIterator)
        requires
            1 <= max_width <= 0x10000,
            1 <= max_height <= 0x10000,
        ensures
            it.wf(max_height as int),
            it.row == max_height - 1,
            it.col == -1,
            it.max_width == max_width,
    {
        CoordinateIterator { row: max_height - 1, col: -1, max_width }
    }

    /// Advances to the next coordinate: across the row, then down to the
    /// next row; `None` exactly when the raster is exhausted.
    pub fn next(&mut self) -> (r: Option<(u32, u32)>)
        requires
            old(self).wf(0x10000),
        ensures
            final(self).max_width == old(self).max_width,
            final(self).wf(0x10000),
            ({
                let was_last_col = old(self).col == old(self).max_width - 1;
                if was_last_col && old(self).row == 0 {
                    r is None && *final(self) == *old(self)
                } else if was_last_col {
                    r == Some((((old(self).row - 1) as u32), 0u32)) && final(self).row == old(
                        self,
                    ).row - 1 && final(self).col == 0
                } else {
                    r == Some((old(self).row, ((old(self).col + 1) as u32))) && final(self).row
                        == old(self).row && final(self).col == old(self).col + 1
                }
            }),
    {
        if self.col == (self.max_width - 1) as i32 && self.row == 0 {
            return None;
        }

        if self.col == (self.max_width - 1) as i32 {
            self.col = 0;
            self.row = self.row - 1;
        } else {
            self.col = self.col + 1;
        }

        Some((self.row, self.col as u32))
    }
}

} // verus!
