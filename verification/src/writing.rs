//! The streaming output synchronizer.
//!
//! Pixels finish out of order across threads, but the output format wants
//! them in raster order. Every pixel gets a target index that decreases
//! strictly along the required output order, ending at `-1`; completed
//! pixels wait in a buffer keyed by that index, and whenever the next
//! required index is present, a contiguous run is flushed. Submitting
//! every pixel exactly once — in any order — provably emits every pixel
//! exactly once, in exactly raster order.

use crate::color::Color;
use vstd::prelude::*;

verus! {

/// The reorder buffer and its emission state. The ghost `submitted` map
/// records which target indices have arrived and with which colors; the
/// ghost `emitted` sequence records what has been flushed, in order.
pub struct WritingSynchronizer {
    pub buffer: Vec<Option<Color>>,
    pub next_index: i64,
    pub width: u32,
    pub height: u32,
    pub submitted: Ghost<Map<int, Color>>,
    pub emitted: Ghost<Seq<Color>>,
}

impl WritingSynchronizer {
    /// The number of pixels in the raster.
    pub open spec fn total(self) -> int {
        self.width as int * self.height as int
    }

    /// The target index of a pixel: rows count down the output order, and
    /// within a row the columns count down, so the whole output order is
    /// a strictly decreasing index sequence from `total - 1` to `0`.
    pub open spec fn spec_target_index(self, row: int, col: int) -> int {
        row * self.width as int + (self.width as int - 1 - col)
    }

    /// The synchronizer's invariant: the expected index walks down from
    /// `total - 1` to `-1`; indices above it are all emitted (in order, at
    /// their place in the output); indices at or below it are pending in
    /// the buffer exactly when they have been submitted; and the expected
    /// slot itself is empty, since flushing only stops at a hole.
    pub open spec fn wf(self) -> bool {
        &&& 1 <= self.width <= 0x8000
        &&& 1 <= self.height <= 0x8000
        &&& self.buffer@.len() == self.total()
        &&& -1 <= self.next_index < self.total()
        &&& (forall|i: int|
            self.next_index < i < self.total() ==> self.submitted@.dom().contains(i))
        &&& (forall|i: int|
            0 <= i <= self.next_index ==> (self.buffer@[i] is Some <==> self.submitted@.dom()
                .contains(i)))
        &&& (forall|i: int|
            0 <= i <= self.next_index && self.buffer@[i] is Some ==> self.buffer@[i]
                == Some(self.submitted@[i]))
        &&& (forall|i: int| self.next_index < i < self.total() ==> self.buffer@[i] is None)
        &&& self.emitted@.len() == self.total() - 1 - self.next_index
        &&& (forall|j: int|
            0 <= j < self.emitted@.len() ==> self.emitted@[j] == self.submitted@[
                self.total() - 1 - j])
        &&& (self.next_index >= 0 ==> self.buffer@[self.next_index as int] is None)
    }

    /// A fresh synchronizer for the raster: nothing submitted, nothing
    /// emitted, the expected index at the top.
    pub fn new(width: u32, height: u32) -> (s: WritingSynchronizer)
        requires
            1 <= width <= 0x8000,
            1 <= height <= 0x8000,
        ensures
            s.wf(),
            s.width == width,
            s.height == height,
            s.submitted@ == Map::<int, Color>::empty(),
            s.emitted@ == Seq::<Color>::empty(),
            s.next_index == s.total() - 1,
    {
        proof {
            assert(1 <= width as int * height as int <= 0x4000_0000) by (nonlinear_arith)
                requires
                    1 <= width <= 0x8000,
                    1 <= height <= 0x8000,
            ;
        }
        let n: usize = (width as usize) * (height as usize);
        let buffer: Vec<Option<Color>> = vec![None; n];
        WritingSynchronizer {
            buffer,
            next_index: (n - 1) as i64,
            width,
            height,
            submitted: Ghost(Map::empty()),
            emitted: Ghost(Seq::empty()),
        }
    }

    /// The raster width.
    pub fn width(&self) -> (w: u32)
        ensures
            w == self.width,
    {
        self.width
    }

    /// The raster height.
    pub fn height(&self) -> (h: u32)
        ensures
            h == self.height,
    {
        self.height
    }

    /// The next target index the output is waiting for; `-1` when done.
    pub fn next_expected(&self) -> (i: i64)
        ensures
            i == self.next_index,
    {
        self.next_index
    }

    /// Whether every pixel has been emitted.
    pub fn all_data_written(&self) -> (done: bool)
        requires
            self.wf(),
        ensures
            done == (self.next_index == -1),
            done ==> self.emitted@.len() == self.total(),
    {
        self.next_index < 0
    }

    /// Accepts one completed pixel and flushes the contiguous run it may
    /// complete. The returned colors are exactly what must be written
    /// next, in output order; the ghost state records the pixel as
    /// submitted and the flushed run as emitted.
    pub fn write(&mut self, color: Color, row: u32, col: u32) -> (flushed: Vec<Color>)
        requires
            old(self).wf(),
            row < old(self).height,
            col < old(self).width,
            !old(self).submitted@.dom().contains(
                old(self).spec_target_index(row as int, col as int),
            ),
        ensures
            final(self).wf(),
            final(self).width == old(self).width,
            final(self).height == old(self).height,
            final(self).submitted@ == old(self).submitted@.insert(
                old(self).spec_target_index(row as int, col as int),
                color,
            ),
            final(self).emitted@ == old(self).emitted@ + flushed@,
            final(self).next_index <= old(self).next_index,
    {
        proof {
            lemma_index_in_raster(
                self.width as int,
                self.height as int,
                row as int,
                col as int,
            );
            assert(row as int * self.width as int <= 0x4000_0000) by (nonlinear_arith)
                requires
                    0 <= row < 0x8000,
                    1 <= self.width <= 0x8000,
            ;
        }
        let k_u: usize = (row as usize) * (self.width as usize) + (self.width as usize - 1
            - col as usize);
        let ghost k = self.spec_target_index(row as int, col as int);
        assert(k_u as int == k);
        self.buffer[k_u] = Some(color);
        proof {
            self.submitted@ = self.submitted@.insert(k, color);
        }
        let mut flushed: Vec<Color> = Vec::new();
        while self.should_flush()
            invariant
                self.wf_inner(),
                self.width == old(self).width,
                self.height == old(self).height,
                self.submitted@ == old(self).submitted@.insert(k, color),
                self.emitted@ == old(self).emitted@ + flushed@,
                self.next_index <= old(self).next_index + 1,
                self.buffer@.len() == self.total(),
            decreases self.next_index + 1,
        {
            proof {
                assert(self.total() <= 0x4000_0000) by (nonlinear_arith)
                    requires
                        1 <= self.width <= 0x8000,
                        1 <= self.height <= 0x8000,
                        self.total() == self.width as int * self.height as int,
                ;
            }
            let i = self.next_index as usize;
            proof {
                assert(self.buffer@[self.next_index as int] is Some);
                assert(self.buffer@[self.next_index as int] == Some(
                    self.submitted@[self.next_index as int],
                ));
            }
            let c = self.buffer[i].unwrap();
            self.buffer[i] = None;
            flushed.push(c);
            proof {
                self.emitted@ = self.emitted@.push(c);
            }
            self.next_index = self.next_index - 1;
        }
        flushed
    }

    /// Whether the expected slot is filled and waiting.
    fn should_flush(&self) -> (r: bool)
        requires
            1 <= self.width <= 0x8000,
            1 <= self.height <= 0x8000,
            self.buffer@.len() == self.total(),
            -1 <= self.next_index < self.total(),
        ensures
            r == (self.next_index >= 0 && self.buffer@[self.next_index as int] is Some),
    {
        if self.next_index < 0 {
            return false;
        }
        proof {
            assert(self.total() <= 0x4000_0000) by (nonlinear_arith)
                requires
                    1 <= self.width <= 0x8000,
                    1 <= self.height <= 0x8000,
                    self.total() == self.width as int * self.height as int,
            ;
        }
        self.buffer[self.next_index as usize].is_some()
    }

    /// The invariant parts that hold during flushing (the expected slot
    /// may still be full until the loop reaches a hole).
    pub open spec fn wf_inner(self) -> bool {
        &&& 1 <= self.width <= 0x8000
        &&& 1 <= self.height <= 0x8000
        &&& self.buffer@.len() == self.total()
        &&& -1 <= self.next_index < self.total()
        &&& (forall|i: int|
            self.next_index < i < self.total() ==> self.submitted@.dom().contains(i))
        &&& (forall|i: int|
            0 <= i <= self.next_index ==> (self.buffer@[i] is Some <==> self.submitted@.dom()
                .contains(i)))
        &&& (forall|i: int|
            0 <= i <= self.next_index && self.buffer@[i] is Some ==> self.buffer@[i]
                == Some(self.submitted@[i]))
        &&& (forall|i: int| self.next_index < i < self.total() ==> self.buffer@[i] is None)
        &&& self.emitted@.len() == self.total() - 1 - self.next_index
        &&& (forall|j: int|
            0 <= j < self.emitted@.len() ==> self.emitted@[j] == self.submitted@[
                self.total() - 1 - j])
    }
}

/// Every pixel of the raster has a target index within it.
proof fn lemma_index_in_raster(width: int, height: int, row: int, col: int)
    requires
        1 <= width,
        1 <= height,
        0 <= row < height,
        0 <= col < width,
    ensures
        0 <= row * width + (width - 1 - col) < width * height,
{
    assert(0 <= row * width + (width - 1 - col) < width * height) by (nonlinear_arith)
        requires
            1 <= width,
            1 <= height,
            0 <= row < height,
            0 <= col < width,
    ;
}

/// Once every target index has been submitted, everything has been
/// emitted: exactly one pixel per raster position, in exactly the output
/// order. Pixels may have been submitted in any order at all.
pub proof fn lemma_all_submitted_all_emitted(s: WritingSynchronizer)
    requires
        s.wf(),
        forall|i: int| 0 <= i < s.total() ==> s.submitted@.dom().contains(i),
    ensures
        s.next_index == -1,
        s.emitted@.len() == s.total(),
        forall|j: int|
            0 <= j < s.total() ==> s.emitted@[j] == s.submitted@[s.total() - 1 - j],
{
    if s.next_index >= 0 {
        assert(s.submitted@.dom().contains(s.next_index as int));
        assert(s.buffer@[s.next_index as int] is Some);
        assert(false);
    }
}

} // verus!
