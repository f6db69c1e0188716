use vstd::prelude::*;

use crate::color::CellColor;

verus! {

/// Depth stored in a cell that nothing has drawn yet. Every accepted write
/// carries a strictly greater depth, so the first write to a cleared cell
/// always lands.
pub const DEPTH_EMPTY: i32 = -101376;

/// One frame's worth of cells: three parallel arrays of glyph, depth and
/// color, row-major. A session allocates one buffer at its terminal size,
/// clears it at the start of every tick, lets each layer draw through the
/// depth test, and serializes the result.
pub struct FrameBuffer {
    /// Cells per row.
    pub width: usize,
    /// Number of rows.
    pub height: usize,
    /// Glyph per cell; a space means nothing visible was drawn.
    pub glyphs: Vec<char>,
    /// Greatest depth written so far per cell (larger is nearer).
    pub depths: Vec<i32>,
    /// Color per cell.
    pub colors: Vec<CellColor>,
}

impl FrameBuffer {
    /// The three arrays cover exactly width * height cells.
    pub open spec fn wf(self) -> bool {
        &&& self.glyphs@.len() == self.width * self.height
        &&& self.depths@.len() == self.width * self.height
        &&& self.colors@.len() == self.width * self.height
    }

    /// Index of the cell at column `x`, row `y`.
    pub open spec fn cell_index(self, x: int, y: int) -> int {
        y * self.width + x
    }

    /// Every cell is a space at the empty depth with no color.
    pub open spec fn is_cleared(self) -> bool {
        forall|i: int|
            0 <= i < self.glyphs@.len() ==> {
                &&& self.glyphs@[i] == ' '
                &&& self.depths@[i] == DEPTH_EMPTY
                &&& self.colors@[i] == CellColor::Blank
            }
    }

    /// Allocates a cleared buffer of the given size.
    pub fn new(width: usize, height: usize) -> (fb: FrameBuffer)
        requires
            width * height <= usize::MAX,
        ensures
            fb.wf(),
            fb.width == width,
            fb.height == height,
            fb.is_cleared(),
    {
        let total: usize = width * height;
        let mut glyphs: Vec<char> = Vec::new();
        let mut depths: Vec<i32> = Vec::new();
        let mut colors: Vec<CellColor> = Vec::new();
        let mut i: usize = 0;
        while i < total
            invariant
                i <= total,
                glyphs@.len() == i,
                depths@.len() == i,
                colors@.len() == i,
                forall|k: int|
                    0 <= k < i ==> {
                        &&& glyphs@[k] == ' '
                        &&& depths@[k] == DEPTH_EMPTY
                        &&& colors@[k] == CellColor::Blank
                    },
            decreases total - i,
        {
            glyphs.push(' ');
            depths.push(DEPTH_EMPTY);
            colors.push(CellColor::Blank);
            i = i + 1;
        }
        FrameBuffer { width, height, glyphs, depths, colors }
    }

    /// Resets every cell in place, keeping the allocation.
    pub fn clear(&mut self)
        requires
            old(self).wf(),
        ensures
            final(self).wf(),
            final(self).width == old(self).width,
            final(self).height == old(self).height,
            final(self).is_cleared(),
    {
        let total: usize = self.glyphs.len();
        let mut i: usize = 0;
        while i < total
            invariant
                i <= total,
                self.wf(),
                self.width == old(self).width,
                self.height == old(self).height,
                total == self.glyphs@.len(),
                forall|k: int|
                    0 <= k < i ==> {
                        &&& self.glyphs@[k] == ' '
                        &&& self.depths@[k] == DEPTH_EMPTY
                        &&& self.colors@[k] == CellColor::Blank
                    },
            decreases total - i,
        {
            self.glyphs.set(i, ' ');
            self.depths.set(i, DEPTH_EMPTY);
            self.colors.set(i, CellColor::Blank);
            i = i + 1;
        }
    }

    /// Writes one cell through the depth test.
    ///
    /// The write is accepted exactly when `depth` strictly exceeds the depth
    /// the cell already holds; a rejected write leaves the whole buffer
    /// untouched. So once a cell holds depth D, no later write in the same
    /// tick at depth <= D can alter it.
    pub fn write_cell(&mut self, x: usize, y: usize, depth: i32, glyph: char, color: CellColor)
        -> (wrote: bool)
        requires
            old(self).wf(),
            x < old(self).width,
            y < old(self).height,
        ensures
            final(self).wf(),
            final(self).width == old(self).width,
            final(self).height == old(self).height,
            wrote == (depth > old(self).depths@[old(self).cell_index(x as int, y as int)]),
            wrote ==> {
                &&& final(self).glyphs@ == old(self).glyphs@.update(
                    old(self).cell_index(x as int, y as int),
                    glyph,
                )
                &&& final(self).depths@ == old(self).depths@.update(
                    old(self).cell_index(x as int, y as int),
                    depth,
                )
                &&& final(self).colors@ == old(self).colors@.update(
                    old(self).cell_index(x as int, y as int),
                    color,
                )
            },
            !wrote ==> *final(self) == *old(self),
            frame_evolves(*old(self), *final(self)),
    {
        let total: usize = self.depths.len();
        proof {
            lemma_cell_index_in_range(
                x as int,
                y as int,
                self.width as int,
                self.height as int,
            );
            assert(y * self.width + x < total);
        }
        let idx: usize = y * self.width + x;
        if depth > self.depths[idx] {
            self.glyphs.set(idx, glyph);
            self.depths.set(idx, depth);
            self.colors.set(idx, color);
            true
        } else {
            false
        }
    }
}

/// Row-major cell indices stay inside the buffer.
pub proof fn lemma_cell_index_in_range(x: int, y: int, w: int, h: int)
    requires
        0 <= x < w,
        0 <= y < h,
    ensures
        0 <= y * w + x < w * h,
{
    assert(0 <= y * w + x < w * h) by (nonlinear_arith)
        requires
            0 <= x < w,
            0 <= y < h,
    ;
}

/// How a buffer may change while layers of one tick draw into it: sizes are
/// kept, no cell's depth ever drops, and a cell whose glyph or color changed
/// had its depth strictly raised.
pub open spec fn frame_evolves(a: FrameBuffer, b: FrameBuffer) -> bool {
    &&& b.width == a.width
    &&& b.height == a.height
    &&& b.glyphs@.len() == a.glyphs@.len()
    &&& b.depths@.len() == a.depths@.len()
    &&& b.colors@.len() == a.colors@.len()
    &&& forall|i: int| 0 <= i < a.depths@.len() ==> b.depths@[i] >= a.depths@[i]
    &&& forall|i: int|
        0 <= i < a.depths@.len() && (b.glyphs@[i] != a.glyphs@[i] || b.colors@[i]
            != a.colors@[i]) ==> b.depths@[i] > a.depths@[i]
}

/// Evolution is transitive: layers drawn one after the other still only
/// deepen cells.
pub proof fn lemma_frame_evolves_trans(a: FrameBuffer, b: FrameBuffer, c: FrameBuffer)
    requires
        frame_evolves(a, b),
        frame_evolves(b, c),
    ensures
        frame_evolves(a, c),
{
    assert forall|i: int|
        0 <= i < a.depths@.len() && (c.glyphs@[i] != a.glyphs@[i] || c.colors@[i]
            != a.colors@[i]) implies c.depths@[i] > a.depths@[i] by {
        if c.glyphs@[i] == b.glyphs@[i] && c.colors@[i] == b.colors@[i] {
            assert(b.depths@[i] > a.depths@[i]);
        } else {
            assert(c.depths@[i] > b.depths@[i]);
        }
    }
}

} // verus!
