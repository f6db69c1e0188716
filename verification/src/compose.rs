use vstd::prelude::*;

use vstd::arithmetic::div_mod::lemma_fundamental_div_mod;
use vstd::arithmetic::div_mod::lemma_fundamental_div_mod_converse;

use crate::ascii::AsciiImage;
use crate::color::CellColor;
use crate::color::ColorMode;
use crate::color::Rgb;
use crate::framebuffer::FrameBuffer;
use crate::framebuffer::DEPTH_EMPTY;
use crate::framebuffer::frame_evolves;
use crate::framebuffer::lemma_cell_index_in_range;
use crate::framebuffer::lemma_frame_evolves_trans;
use crate::game::Phase;
use crate::game::SceneState;
use crate::game::Screen;
use crate::game::CLOSE_FRAMES;
use crate::game::OPEN_FRAMES;
use crate::serialize::push_dec;
use crate::serialize::render_frame;
use crate::serialize::spec_dec;
use crate::serialize::spec_frame_chars;
use crate::sphere::div_floor;
use crate::sphere::rasterize_sphere;
use crate::sphere::spec_cells_of;
use crate::sphere::spec_sphere_pass;
use crate::sphere::FrameCells;

verus! {

/// Nominal depth of the sprite layer.
pub const SPRITE_DEPTH: i32 = 410;

/// Nominal depth of the absorb particle stream.
pub const PARTICLE_DEPTH: i32 = 614;

/// Nominal depth of the starburst overlay.
pub const STAR_DEPTH: i32 = 922;

/// Nominal depth of status and prompt text, above every scene layer.
pub const TEXT_DEPTH: i32 = 3000;

/// What the sprite layer owes the frame cell at index `i`: the sprite
/// glyph and color where a visible sprite cell lands there, nothing
/// elsewhere.
pub open spec fn spec_blit_cell(
    chars: Seq<char>,
    colors: Seq<Rgb>,
    imgw: int,
    imgh: int,
    offx: int,
    offy: int,
    w: int,
    i: int,
) -> Option<(char, Rgb)> {
    let x = i % w;
    let y = i / w;
    if offx <= x < offx + imgw && offy <= y < offy + imgh {
        let si = (x - offx) + (y - offy) * imgw;
        if chars[si] != ' ' {
            Some((chars[si], colors[si]))
        } else {
            None
        }
    } else {
        None
    }
}

/// The three arrays agree with the old buffer at cell `i`.
pub open spec fn spec_cell_unchanged(a: FrameBuffer, b: FrameBuffer, i: int) -> bool {
    &&& b.glyphs@[i] == a.glyphs@[i]
    &&& b.depths@[i] == a.depths@[i]
    &&& b.colors@[i] == a.colors@[i]
}

/// The cell holds the given glyph and color at the given depth.
pub open spec fn spec_cell_holds(b: FrameBuffer, i: int, g: char, c: CellColor, d: int) -> bool {
    &&& b.glyphs@[i] == g
    &&& b.depths@[i] == d
    &&& b.colors@[i] == c
}

/// The outcome the sprite layer owes cell `i`, given the buffer before.
pub open spec fn spec_blit_done(
    old_fb: FrameBuffer,
    new_fb: FrameBuffer,
    chars: Seq<char>,
    colors: Seq<Rgb>,
    imgw: int,
    imgh: int,
    offx: int,
    offy: int,
    i: int,
) -> bool {
    match spec_blit_cell(chars, colors, imgw, imgh, offx, offy, old_fb.width as int, i) {
        Some(gc) => {
            if SPRITE_DEPTH > old_fb.depths@[i] {
                spec_cell_holds(
                    new_fb,
                    i,
                    gc.0,
                    CellColor::Rgb(gc.1.r, gc.1.g, gc.1.b),
                    SPRITE_DEPTH as int,
                )
            } else {
                spec_cell_unchanged(old_fb, new_fb, i)
            }
        },
        None => spec_cell_unchanged(old_fb, new_fb, i),
    }
}

/// The cell planes after a glyph image is painted: each visible sprite
/// cell that lands in the frame and beats the depth test takes the sprite
/// glyph, its color and the sprite depth; every other cell keeps its
/// planes.
pub open spec fn spec_blit_cells(
    c: FrameCells,
    w: int,
    chars: Seq<char>,
    colors: Seq<Rgb>,
    imgw: int,
    imgh: int,
    offx: int,
    offy: int,
) -> FrameCells {
    FrameCells {
        glyphs: Seq::new(
            c.glyphs.len(),
            |i: int|
                match spec_blit_cell(chars, colors, imgw, imgh, offx, offy, w, i) {
                    Some(gc) => if SPRITE_DEPTH > c.depths[i] {
                        gc.0
                    } else {
                        c.glyphs[i]
                    },
                    None => c.glyphs[i],
                },
        ),
        depths: Seq::new(
            c.depths.len(),
            |i: int|
                match spec_blit_cell(chars, colors, imgw, imgh, offx, offy, w, i) {
                    Some(gc) => if SPRITE_DEPTH > c.depths[i] {
                        SPRITE_DEPTH
                    } else {
                        c.depths[i]
                    },
                    None => c.depths[i],
                },
        ),
        colors: Seq::new(
            c.colors.len(),
            |i: int|
                match spec_blit_cell(chars, colors, imgw, imgh, offx, offy, w, i) {
                    Some(gc) => if SPRITE_DEPTH > c.depths[i] {
                        CellColor::Rgb(gc.1.r, gc.1.g, gc.1.b)
                    } else {
                        c.colors[i]
                    },
                    None => c.colors[i],
                },
        ),
    }
}

/// Paints a glyph image into the frame through the depth test at the
/// sprite layer's nominal depth.
///
/// The buffer's planes afterward are exactly the sprite layer applied to
/// the planes before (see [`spec_blit_cells`]): the visible sprite cells
/// that land inside the frame and beat the depth test are written, every
/// other cell is untouched.
#[verifier::rlimit(100)]
pub fn blit_sprite(fb: &mut FrameBuffer, img: &AsciiImage, offx: usize, offy: usize)
    requires
        old(fb).wf(),
        img.wf(),
        img.width >= 1,
        img.width <= 65536,
        img.height <= 65536,
        offx <= 65536,
        offy <= 65536,
    ensures
        final(fb).wf(),
        final(fb).width == old(fb).width,
        final(fb).height == old(fb).height,
        frame_evolves(*old(fb), *final(fb)),
        forall|i: int|
            0 <= i < final(fb).glyphs@.len() ==> spec_blit_done(
                *old(fb),
                *final(fb),
                img.chars@,
                img.colors@,
                img.width as int,
                img.height as int,
                offx as int,
                offy as int,
                i,
            ),
        spec_cells_of(*final(fb)) == spec_blit_cells(
            spec_cells_of(*old(fb)),
            old(fb).width as int,
            img.chars@,
            img.colors@,
            img.width as int,
            img.height as int,
            offx as int,
            offy as int,
        ),
{
    let ghost fb0 = *fb;
    let ghost w = fb.width as int;
    let ghost iw = img.width as int;
    let ghost ih = img.height as int;
    let mut sy: usize = 0;
    while sy < img.height
        invariant
            sy <= ih,
            fb.wf(),
            fb.width == fb0.width,
            fb.height == fb0.height,
            fb0.wf(),
            img.wf(),
            w == fb0.width as int,
            iw == img.width as int,
            ih == img.height as int,
            1 <= iw <= 65536,
            ih <= 65536,
            offx <= 65536,
            offy <= 65536,
            frame_evolves(fb0, *fb),
            forall|i: int|
                0 <= i < fb.glyphs@.len() && spec_blit_visited(
                    iw,
                    ih,
                    offx as int,
                    offy as int,
                    w,
                    i,
                    sy as int,
                    0,
                ) ==> spec_blit_done(
                    fb0,
                    *fb,
                    img.chars@,
                    img.colors@,
                    iw,
                    ih,
                    offx as int,
                    offy as int,
                    i,
                ),
            forall|i: int|
                0 <= i < fb.glyphs@.len() && !spec_blit_visited(
                    iw,
                    ih,
                    offx as int,
                    offy as int,
                    w,
                    i,
                    sy as int,
                    0,
                ) ==> spec_cell_unchanged(fb0, *fb, i),
        decreases ih - sy,
    {
        let mut sx: usize = 0;
        while sx < img.width
            invariant
                sy < ih,
                sx <= iw,
                fb.wf(),
                fb.width == fb0.width,
                fb.height == fb0.height,
                fb0.wf(),
                img.wf(),
                w == fb0.width as int,
                iw == img.width as int,
                ih == img.height as int,
                1 <= iw <= 65536,
                ih <= 65536,
                offx <= 65536,
                offy <= 65536,
                frame_evolves(fb0, *fb),
                forall|i: int|
                    0 <= i < fb.glyphs@.len() && spec_blit_visited(
                        iw,
                        ih,
                        offx as int,
                        offy as int,
                        w,
                        i,
                        sy as int,
                        sx as int,
                    ) ==> spec_blit_done(
                        fb0,
                        *fb,
                        img.chars@,
                        img.colors@,
                        iw,
                        ih,
                        offx as int,
                        offy as int,
                        i,
                    ),
                forall|i: int|
                    0 <= i < fb.glyphs@.len() && !spec_blit_visited(
                        iw,
                        ih,
                        offx as int,
                        offy as int,
                        w,
                        i,
                        sy as int,
                        sx as int,
                    ) ==> spec_cell_unchanged(fb0, *fb, i),
            decreases iw - sx,
        {
            let tx: usize = offx + sx;
            let ty: usize = offy + sy;
            let ghost pre = *fb;
            let ghost tgt: int = ty as int * w + tx as int;
            if tx < fb.width && ty < fb.height {
                proof {
                    lemma_cell_index_in_range(tx as int, ty as int, w, fb0.height as int);
                    lemma_fundamental_div_mod_converse(
                        ty as int * w + tx,
                        w,
                        ty as int,
                        tx as int,
                    );
                    lemma_cell_index_in_range(sx as int, sy as int, iw, ih);
                    assert(!spec_blit_visited(iw, ih, offx as int, offy as int, w, tgt, sy as int, sx as int));
                    assert(spec_cell_unchanged(fb0, pre, tgt));
                }
                let cap: usize = img.chars.len();
                proof {
                    assert(sy * img.width + sx < cap);
                }
                let si: usize = sy * img.width + sx;
                proof {
                    assert((tgt % w - offx) + (tgt / w - offy) * iw == si as int)
                        by (nonlinear_arith)
                        requires
                            tgt % w == offx + sx,
                            tgt / w == offy + sy,
                            si == sy * iw + sx,
                    ;
                }
                let ch = img.chars[si];
                if ch != ' ' {
                    let col = img.colors[si];
                    fb.write_cell(
                        tx,
                        ty,
                        SPRITE_DEPTH,
                        ch,
                        CellColor::Rgb(col.r, col.g, col.b),
                    );
                    proof {
                        lemma_frame_evolves_trans(fb0, pre, *fb);
                        assert forall|i: int|
                            0 <= i < fb.glyphs@.len() && spec_blit_visited(
                                iw, ih, offx as int, offy as int, w, i, sy as int, sx + 1,
                            ) implies spec_blit_done(
                            fb0, *fb, img.chars@, img.colors@, iw, ih, offx as int, offy as int, i,
                        ) by {
                            lemma_fundamental_div_mod(i, w);
                            if i == tgt {
                            } else {
                                if i % w == tx as int && i / w == ty as int {
                                    assert(i == tgt) by (nonlinear_arith)
                                        requires
                                            tgt == ty as int * w + tx as int,
                                            i == w * (i / w) + i % w,
                                            i % w == tx as int,
                                            i / w == ty as int,
                                    ;
                                }
                                assert(spec_blit_visited(iw, ih, offx as int, offy as int, w, i, sy as int, sx as int));
                                assert(spec_blit_done(
                                    fb0, pre, img.chars@, img.colors@, iw, ih, offx as int, offy as int, i,
                                ));
                            }
                        }
                        assert forall|i: int|
                            0 <= i < fb.glyphs@.len() && !spec_blit_visited(
                                iw, ih, offx as int, offy as int, w, i, sy as int, sx + 1,
                            ) implies spec_cell_unchanged(fb0, *fb, i) by {
                            lemma_fundamental_div_mod(i, w);
                            assert(!spec_blit_visited(iw, ih, offx as int, offy as int, w, i, sy as int, sx as int));
                            assert(spec_cell_unchanged(fb0, pre, i));
                            assert(i % w != tx as int || i / w != ty as int);
                            assert(tgt % w == tx as int && tgt / w == ty as int);
                            assert(i != tgt);
                        }
                    }
                } else {
                    proof {
                        assert forall|i: int|
                            0 <= i < fb.glyphs@.len() && spec_blit_visited(
                                iw, ih, offx as int, offy as int, w, i, sy as int, sx + 1,
                            ) implies spec_blit_done(
                            fb0, *fb, img.chars@, img.colors@, iw, ih, offx as int, offy as int, i,
                        ) by {
                            lemma_fundamental_div_mod(i, w);
                            if i == tgt {
                                assert(spec_cell_unchanged(fb0, *fb, i));
                            } else {
                                if i % w == tx as int && i / w == ty as int {
                                    assert(i == tgt) by (nonlinear_arith)
                                        requires
                                            tgt == ty as int * w + tx as int,
                                            i == w * (i / w) + i % w,
                                            i % w == tx as int,
                                            i / w == ty as int,
                                    ;
                                }
                                assert(spec_blit_visited(iw, ih, offx as int, offy as int, w, i, sy as int, sx as int));
                                assert(spec_blit_done(
                                    fb0, *fb, img.chars@, img.colors@, iw, ih, offx as int, offy as int, i,
                                ));
                            }
                        }
                        assert forall|i: int|
                            0 <= i < fb.glyphs@.len() && !spec_blit_visited(
                                iw, ih, offx as int, offy as int, w, i, sy as int, sx + 1,
                            ) implies spec_cell_unchanged(fb0, *fb, i) by {
                            assert(!spec_blit_visited(iw, ih, offx as int, offy as int, w, i, sy as int, sx as int));
                            assert(spec_cell_unchanged(fb0, *fb, i));
                        }
                    }
                }
            } else {
                proof {
                    assert forall|i: int|
                        0 <= i < fb.glyphs@.len() && spec_blit_visited(
                            iw, ih, offx as int, offy as int, w, i, sy as int, sx + 1,
                        ) implies spec_blit_done(
                        fb0, *fb, img.chars@, img.colors@, iw, ih, offx as int, offy as int, i,
                    ) by {
                        lemma_fundamental_div_mod(i, w);
                        assert(w >= 1 && i / w < fb0.height as int) by (nonlinear_arith)
                            requires
                                0 <= i,
                                i < w * (fb0.height as int),
                                i == w * (i / w) + i % w,
                                0 <= i % w < w,
                        ;
                        assert(spec_blit_visited(iw, ih, offx as int, offy as int, w, i, sy as int, sx as int));
                        assert(spec_blit_done(
                            fb0, *fb, img.chars@, img.colors@, iw, ih, offx as int, offy as int, i,
                        ));
                    }
                    assert forall|i: int|
                        0 <= i < fb.glyphs@.len() && !spec_blit_visited(
                            iw, ih, offx as int, offy as int, w, i, sy as int, sx + 1,
                        ) implies spec_cell_unchanged(fb0, *fb, i) by {
                        assert(!spec_blit_visited(iw, ih, offx as int, offy as int, w, i, sy as int, sx as int));
                        assert(spec_cell_unchanged(fb0, *fb, i));
                    }
                }
            }
            sx = sx + 1;
        }
        proof {
            assert forall|i: int|
                0 <= i < fb.glyphs@.len() && spec_blit_visited(
                    iw,
                    ih,
                    offx as int,
                    offy as int,
                    w,
                    i,
                    sy + 1,
                    0,
                ) implies spec_blit_done(
                fb0,
                *fb,
                img.chars@,
                img.colors@,
                iw,
                ih,
                offx as int,
                offy as int,
                i,
            ) by {
                assert(spec_blit_visited(iw, ih, offx as int, offy as int, w, i, sy as int, iw));
                assert(spec_blit_done(
                    fb0,
                    *fb,
                    img.chars@,
                    img.colors@,
                    iw,
                    ih,
                    offx as int,
                    offy as int,
                    i,
                ));
            }
            assert forall|i: int|
                0 <= i < fb.glyphs@.len() && !spec_blit_visited(
                    iw,
                    ih,
                    offx as int,
                    offy as int,
                    w,
                    i,
                    sy + 1,
                    0,
                ) implies spec_cell_unchanged(fb0, *fb, i) by {
                assert(!spec_blit_visited(iw, ih, offx as int, offy as int, w, i, sy as int, iw));
                assert(spec_cell_unchanged(fb0, *fb, i));
            }
        }
        sy = sy + 1;
    }
    proof {
        assert forall|i: int| 0 <= i < fb.glyphs@.len() implies spec_blit_done(
            fb0,
            *fb,
            img.chars@,
            img.colors@,
            iw,
            ih,
            offx as int,
            offy as int,
            i,
        ) by {
            if spec_blit_visited(iw, ih, offx as int, offy as int, w, i, ih, 0) {
                assert(spec_blit_done(
                    fb0,
                    *fb,
                    img.chars@,
                    img.colors@,
                    iw,
                    ih,
                    offx as int,
                    offy as int,
                    i,
                ));
            } else {
                assert(spec_cell_unchanged(fb0, *fb, i));
            }
        }
        let expect = spec_blit_cells(
            spec_cells_of(fb0),
            fb0.width as int,
            img.chars@,
            img.colors@,
            iw,
            ih,
            offx as int,
            offy as int,
        );
        assert forall|i: int| 0 <= i < fb.glyphs@.len() implies fb.glyphs@[i]
            == expect.glyphs[i] && fb.depths@[i] == expect.depths[i] && fb.colors@[i]
            == expect.colors[i] by {
            assert(spec_blit_done(
                fb0,
                *fb,
                img.chars@,
                img.colors@,
                iw,
                ih,
                offx as int,
                offy as int,
                i,
            ));
        }
        assert(fb.glyphs@ =~= expect.glyphs);
        assert(fb.depths@ =~= expect.depths);
        assert(fb.colors@ =~= expect.colors);
    }
}

/// A sprite cell already painted by the loops: earlier row, or same row
/// and earlier column.
pub open spec fn spec_blit_visited(
    imgw: int,
    imgh: int,
    offx: int,
    offy: int,
    w: int,
    i: int,
    sy: int,
    sx: int,
) -> bool {
    let x = i % w;
    let y = i / w;
    &&& offx <= x < offx + imgw
    &&& offy <= y < offy + imgh
    &&& (y - offy < sy || (y - offy == sy && x - offx < sx))
}

/// What the text layer owes cell `i`: the character of the text that lands
/// there, if any.
pub open spec fn spec_text_cell(
    text: Seq<char>,
    row: int,
    col: int,
    w: int,
    i: int,
) -> Option<char> {
    let x = i % w;
    let y = i / w;
    if y == row && col <= x < col + text.len() {
        Some(text[x - col])
    } else {
        None
    }
}

/// The outcome the text layer owes cell `i`, given the buffer before.
pub open spec fn spec_text_done(
    a: FrameBuffer,
    b: FrameBuffer,
    text: Seq<char>,
    row: int,
    col: int,
    color: CellColor,
    depth: int,
    i: int,
) -> bool {
    match spec_text_cell(text, row, col, a.width as int, i) {
        Some(g) => {
            if depth > a.depths@[i] {
                spec_cell_holds(b, i, g, color, depth)
            } else {
                spec_cell_unchanged(a, b, i)
            }
        },
        None => spec_cell_unchanged(a, b, i),
    }
}

/// The outcome after the first `k` characters have been painted.
pub open spec fn spec_text_partial(
    a: FrameBuffer,
    b: FrameBuffer,
    text: Seq<char>,
    row: int,
    col: int,
    color: CellColor,
    depth: int,
    k: int,
    i: int,
) -> bool {
    match spec_text_cell(text, row, col, a.width as int, i) {
        Some(g) => {
            if 0 <= i % (a.width as int) - col < k {
                if depth > a.depths@[i] {
                    spec_cell_holds(b, i, g, color, depth)
                } else {
                    spec_cell_unchanged(a, b, i)
                }
            } else {
                spec_cell_unchanged(a, b, i)
            }
        },
        None => spec_cell_unchanged(a, b, i),
    }
}

/// The cell planes after a line of text is painted: each text cell that
/// lands in the frame and beats the depth test takes the character, the
/// color and the text depth; every other cell keeps its planes.
pub open spec fn spec_text_cells(
    c: FrameCells,
    w: int,
    text: Seq<char>,
    row: int,
    col: int,
    color: CellColor,
    depth: i32,
) -> FrameCells {
    FrameCells {
        glyphs: Seq::new(
            c.glyphs.len(),
            |i: int|
                match spec_text_cell(text, row, col, w, i) {
                    Some(g) => if depth > c.depths[i] {
                        g
                    } else {
                        c.glyphs[i]
                    },
                    None => c.glyphs[i],
                },
        ),
        depths: Seq::new(
            c.depths.len(),
            |i: int|
                match spec_text_cell(text, row, col, w, i) {
                    Some(g) => if depth > c.depths[i] {
                        depth
                    } else {
                        c.depths[i]
                    },
                    None => c.depths[i],
                },
        ),
        colors: Seq::new(
            c.colors.len(),
            |i: int|
                match spec_text_cell(text, row, col, w, i) {
                    Some(g) => if depth > c.depths[i] {
                        color
                    } else {
                        c.colors[i]
                    },
                    None => c.colors[i],
                },
        ),
    }
}

/// Writes a line of text at the given row and column through the depth
/// test. The buffer's planes afterward are exactly the text layer applied
/// to the planes before (see [`spec_text_cells`]): the text cells that
/// land inside the frame and beat the depth test are written, every other
/// cell is untouched.
#[verifier::rlimit(60)]
pub fn draw_text(
    fb: &mut FrameBuffer,
    text: &Vec<char>,
    row: usize,
    col: usize,
    color: CellColor,
    depth: i32,
)
    requires
        old(fb).wf(),
        row <= 65536,
        col <= 65536,
        text@.len() <= 65536,
    ensures
        final(fb).wf(),
        final(fb).width == old(fb).width,
        final(fb).height == old(fb).height,
        frame_evolves(*old(fb), *final(fb)),
        forall|i: int|
            0 <= i < final(fb).glyphs@.len() ==> #[trigger] spec_text_done(
                *old(fb),
                *final(fb),
                text@,
                row as int,
                col as int,
                color,
                depth as int,
                i,
            ),
        spec_cells_of(*final(fb)) == spec_text_cells(
            spec_cells_of(*old(fb)),
            old(fb).width as int,
            text@,
            row as int,
            col as int,
            color,
            depth,
        ),
{
    let ghost fb0 = *fb;
    let ghost w = fb.width as int;
    let mut k: usize = 0;
    while k < text.len()
        invariant
            k <= text@.len(),
            text@.len() <= 65536,
            row <= 65536,
            col <= 65536,
            fb.wf(),
            fb.width == fb0.width,
            fb.height == fb0.height,
            fb0.wf(),
            w == fb0.width as int,
            frame_evolves(fb0, *fb),
            forall|i: int|
                0 <= i < fb.glyphs@.len() ==> #[trigger] spec_text_partial(
                    fb0,
                    *fb,
                    text@,
                    row as int,
                    col as int,
                    color,
                    depth as int,
                    k as int,
                    i,
                ),
        decreases text@.len() - k,
    {
        let tx: usize = col + k;
        let ghost pre = *fb;
        if tx < fb.width && row < fb.height {
            proof {
                lemma_cell_index_in_range(tx as int, row as int, w, fb0.height as int);
                lemma_fundamental_div_mod_converse(row as int * w + tx, w, row as int, tx as int);
            }
            fb.write_cell(tx, row, depth, text[k], color);
            proof {
                lemma_frame_evolves_trans(fb0, pre, *fb);
            }
        }
        proof {
            assert forall|i: int| 0 <= i < fb.glyphs@.len() implies #[trigger] spec_text_partial(
                fb0,
                *fb,
                text@,
                row as int,
                col as int,
                color,
                depth as int,
                k + 1,
                i,
            ) by {
                assert(spec_text_partial(
                    fb0,
                    pre,
                    text@,
                    row as int,
                    col as int,
                    color,
                    depth as int,
                    k as int,
                    i,
                ));
                lemma_fundamental_div_mod(i, w);
                assert(w >= 1 && i / w < fb0.height as int) by (nonlinear_arith)
                    requires
                        0 <= i,
                        i < w * (fb0.height as int),
                        i == w * (i / w) + i % w,
                        0 <= i % w < w,
                ;
                if i % w == tx as int && i / w == row as int {
                    assert(i == row as int * w + tx as int) by (nonlinear_arith)
                        requires
                            i == w * (i / w) + i % w,
                            i % w == tx as int,
                            i / w == row as int,
                    ;
                }
            }
        }
        k = k + 1;
    }
    proof {
        assert forall|i: int| 0 <= i < fb.glyphs@.len() implies #[trigger] spec_text_done(
            fb0,
            *fb,
            text@,
            row as int,
            col as int,
            color,
            depth as int,
            i,
        ) by {
            assert(spec_text_partial(
                fb0,
                *fb,
                text@,
                row as int,
                col as int,
                color,
                depth as int,
                text@.len() as int,
                i,
            ));
        }
        let expect = spec_text_cells(
            spec_cells_of(fb0),
            fb0.width as int,
            text@,
            row as int,
            col as int,
            color,
            depth,
        );
        assert forall|i: int| 0 <= i < fb.glyphs@.len() implies fb.glyphs@[i]
            == expect.glyphs[i] && fb.depths@[i] == expect.depths[i] && fb.colors@[i]
            == expect.colors[i] by {
            assert(spec_text_done(
                fb0,
                *fb,
                text@,
                row as int,
                col as int,
                color,
                depth as int,
                i,
            ));
        }
        assert(fb.glyphs@ =~= expect.glyphs);
        assert(fb.depths@ =~= expect.depths);
        assert(fb.colors@ =~= expect.colors);
    }
}

/// One absorb-stream particle: a visible sprite cell on its way to the
/// ball, position in tenths of a cell. Particles render as asterisks in
/// the cell's color.
pub struct Particle {
    /// Column, tenths of a cell.
    pub x: i32,
    /// Row, tenths of a cell.
    pub y: i32,
    /// The color it carries.
    pub color: Rgb,
}

/// The particles the first `upto` sprite cells contribute, in row-major
/// order: one per visible cell, at that cell's frame position.
pub open spec fn spec_particle_plan(
    chars: Seq<char>,
    colors: Seq<Rgb>,
    imgw: int,
    offx: int,
    offy: int,
    upto: int,
) -> Seq<Particle>
    decreases upto,
{
    if upto <= 0 {
        Seq::empty()
    } else {
        let rest = spec_particle_plan(chars, colors, imgw, offx, offy, upto - 1);
        if chars[upto - 1] != ' ' {
            rest.push(
                Particle {
                    x: (10 * (offx + (upto - 1) % imgw)) as i32,
                    y: (10 * (offy + (upto - 1) / imgw)) as i32,
                    color: colors[upto - 1],
                },
            )
        } else {
            rest
        }
    }
}

/// Builds the absorb particle plan from a sprite: exactly its visible
/// cells, row-major, each particle carrying the cell's glyph, color and
/// frame position.
#[verifier::spinoff_prover]
#[verifier::rlimit(60)]
pub fn build_particles(img: &AsciiImage, offx: usize, offy: usize) -> (plan: Vec<Particle>)
    requires
        img.wf(),
        1 <= img.width <= 65536,
        img.height <= 65536,
        offx <= 65536,
        offy <= 65536,
    ensures
        plan@ == spec_particle_plan(
            img.chars@,
            img.colors@,
            img.width as int,
            offx as int,
            offy as int,
            img.chars@.len() as int,
        ),
        forall|k: int|
            0 <= k < plan@.len() ==> {
                &&& -2000000 <= (#[trigger] plan@[k]).x <= 2000000
                &&& -2000000 <= plan@[k].y <= 2000000
            },
{
    let total: usize = img.chars.len();
    let mut plan: Vec<Particle> = Vec::new();
    let mut i: usize = 0;
    while i < total
        invariant
            i <= total,
            img.wf(),
            1 <= img.width <= 65536,
            img.height <= 65536,
            offx <= 65536,
            offy <= 65536,
            total == img.chars@.len(),
            plan@ == spec_particle_plan(
                img.chars@,
                img.colors@,
                img.width as int,
                offx as int,
                offy as int,
                i as int,
            ),
            forall|k: int|
                0 <= k < plan@.len() ==> {
                    &&& -2000000 <= (#[trigger] plan@[k]).x <= 2000000
                    &&& -2000000 <= plan@[k].y <= 2000000
                },
        decreases total - i,
    {
        let ch = img.chars[i];
        if ch != ' ' {
            proof {
                assert((i as int) / (img.width as int) < (img.height as int))
                    by (nonlinear_arith)
                    requires
                        0 <= (i as int) < (img.width as int) * (img.height as int),
                        1 <= (img.width as int),
                ;
            }
            let px: usize = 10 * (offx + i % img.width);
            let py: usize = 10 * (offy + i / img.width);
            let part = Particle { x: px as i32, y: py as i32, color: img.colors[i] };
            let ghost pre_plan = plan@;
            plan.push(part);
            proof {
                assert(plan@.len() == pre_plan.len() + 1);
                assert forall|k: int| 0 <= k < plan@.len() implies {
                    &&& -2000000 <= (#[trigger] plan@[k]).x <= 2000000
                    &&& -2000000 <= plan@[k].y <= 2000000
                } by {
                    assert(plan@.len() == pre_plan.len() + 1);
                    assert(plan@ == pre_plan.push(part));
                    assert(0 <= k < pre_plan.len() + 1);
                    if k < pre_plan.len() {
                        assert(pre_plan.push(part)[k] == pre_plan[k]);
                        assert(-2000000 <= pre_plan[k].x <= 2000000);
                    } else {
                        assert(pre_plan.push(part)[k] == part);
                    }
                }
            }
        }
        i = i + 1;
    }
    plan
}

/// The cell a particle lands on once moved toward the ball center by the
/// given progress, in whole cells.
pub open spec fn spec_particle_target(p: Particle, progress: int, cx: int, cy: int) -> (int, int) {
    let mx = p.x + (cx - p.x) * progress / 1024;
    let my = p.y + (cy - p.y) * progress / 1024;
    (mx / 10, my / 10)
}

/// The cell planes after one particle of the stream is drawn: the moved
/// particle is written as an asterisk in its color through the depth test
/// at the particle depth; off-frame or losing particles change nothing.
pub open spec fn spec_particle_step(
    c: FrameCells,
    w: int,
    h: int,
    p: Particle,
    progress: int,
    cx: int,
    cy: int,
) -> FrameCells {
    let g = spec_particle_target(p, progress, cx, cy);
    if 0 <= g.0 < w && 0 <= g.1 < h {
        let idx = g.1 * w + g.0;
        if PARTICLE_DEPTH > c.depths[idx] {
            FrameCells {
                glyphs: c.glyphs.update(idx, '*'),
                depths: c.depths.update(idx, PARTICLE_DEPTH),
                colors: c.colors.update(idx, CellColor::Rgb(p.color.r, p.color.g, p.color.b)),
            }
        } else {
            c
        }
    } else {
        c
    }
}

/// The cell planes after the first `upto` particles of the plan, in
/// order.
pub open spec fn spec_particles_pass(
    c: FrameCells,
    w: int,
    h: int,
    plan: Seq<Particle>,
    progress: int,
    cx: int,
    cy: int,
    upto: int,
) -> FrameCells
    decreases upto,
{
    if upto <= 0 {
        c
    } else {
        spec_particle_step(
            spec_particles_pass(c, w, h, plan, progress, cx, cy, upto - 1),
            w,
            h,
            plan[upto - 1],
            progress,
            cx,
            cy,
        )
    }
}

/// Draws the absorb stream: the buffer's planes afterward are exactly the
/// particle pass applied to the planes before - every particle of the
/// plan, in order, moved toward the ball center by the given progress and
/// written as an asterisk through the depth test at the particle depth
/// (see [`spec_particle_step`]). The buffer only ever deepens.
pub fn draw_particles(
    fb: &mut FrameBuffer,
    plan: &Vec<Particle>,
    progress: i32,
    cx: i32,
    cy: i32,
)
    requires
        old(fb).wf(),
        old(fb).width <= 4096,
        old(fb).height <= 4096,
        0 <= progress <= 1024,
        -100000 <= cx <= 100000,
        -100000 <= cy <= 100000,
        forall|k: int|
            0 <= k < plan@.len() ==> {
                &&& -2000000 <= (#[trigger] plan@[k]).x <= 2000000
                &&& -2000000 <= plan@[k].y <= 2000000
            },
    ensures
        final(fb).wf(),
        final(fb).width == old(fb).width,
        final(fb).height == old(fb).height,
        frame_evolves(*old(fb), *final(fb)),
        spec_cells_of(*final(fb)) == spec_particles_pass(
            spec_cells_of(*old(fb)),
            old(fb).width as int,
            old(fb).height as int,
            plan@,
            progress as int,
            cx as int,
            cy as int,
            plan@.len() as int,
        ),
        // the stream writes nothing but asterisks at its nominal depth
        forall|i: int|
            0 <= i < final(fb).depths@.len() && final(fb).depths@[i] != old(fb).depths@[i]
                ==> final(fb).glyphs@[i] == '*' && #[trigger] final(fb).depths@[i]
                == PARTICLE_DEPTH as int,
{
    let ghost fb0 = *fb;
    let mut k: usize = 0;
    while k < plan.len()
        invariant
            k <= plan@.len(),
            fb.wf(),
            fb.width == fb0.width,
            fb.height == fb0.height,
            frame_evolves(fb0, *fb),
            forall|i: int|
                0 <= i < fb.depths@.len() && fb.depths@[i] != fb0.depths@[i] ==> fb.glyphs@[i]
                    == '*' && #[trigger] fb.depths@[i] == PARTICLE_DEPTH as int,
            spec_cells_of(*fb) == spec_particles_pass(
                spec_cells_of(fb0),
                fb0.width as int,
                fb0.height as int,
                plan@,
                progress as int,
                cx as int,
                cy as int,
                k as int,
            ),
            fb0.wf(),
            fb0.width <= 4096,
            fb0.height <= 4096,
            0 <= progress <= 1024,
            -100000 <= cx <= 100000,
            -100000 <= cy <= 100000,
            forall|j: int|
                0 <= j < plan@.len() ==> {
                    &&& -2000000 <= (#[trigger] plan@[j]).x <= 2000000
                    &&& -2000000 <= plan@[j].y <= 2000000
                },
        decreases plan@.len() - k,
    {
        let ghost cpre = spec_cells_of(*fb);
        let p = &plan[k];
        let dx: i64 = cx as i64 - p.x as i64;
        let dy: i64 = cy as i64 - p.y as i64;
        proof {
            assert({
                &&& -3000000000 <= dx * progress <= 3000000000
                &&& -3000000000 <= dy * progress <= 3000000000
            }) by (nonlinear_arith)
                requires
                    -2200000 <= dx <= 2200000,
                    -2200000 <= dy <= 2200000,
                    0 <= progress <= 1024,
            ;
        }
        let prod_x: i64 = dx * progress as i64;
        let prod_y: i64 = dy * progress as i64;
        proof {
            assert(-3000000 <= prod_x / 1024 <= 3000000) by (nonlinear_arith)
                requires
                    -3000000000 <= prod_x <= 3000000000,
            ;
            assert(-3000000 <= prod_y / 1024 <= 3000000) by (nonlinear_arith)
                requires
                    -3000000000 <= prod_y <= 3000000000,
            ;
        }
        let mx: i64 = p.x as i64 + div_floor(prod_x, 1024);
        let my: i64 = p.y as i64 + div_floor(prod_y, 1024);
        let gx: i64 = div_floor(mx, 10);
        let gy: i64 = div_floor(my, 10);
        if 0 <= gx && gx < fb.width as i64 && 0 <= gy && gy < fb.height as i64 {
            let ghost pre = *fb;
            let ghost tgt = pre.cell_index((gx as usize) as int, (gy as usize) as int);
            fb.write_cell(
                gx as usize,
                gy as usize,
                PARTICLE_DEPTH,
                '*',
                CellColor::Rgb(p.color.r, p.color.g, p.color.b),
            );
            proof {
                lemma_frame_evolves_trans(fb0, pre, *fb);
                lemma_cell_index_in_range(
                    (gx as usize) as int,
                    (gy as usize) as int,
                    pre.width as int,
                    pre.height as int,
                );
                assert forall|i: int|
                    0 <= i < fb.depths@.len() && fb.depths@[i] != fb0.depths@[i]
                    implies fb.glyphs@[i] == '*' && #[trigger] fb.depths@[i]
                    == PARTICLE_DEPTH as int by {
                    if fb.depths@[i] != pre.depths@[i] {
                        assert(fb.depths@ == pre.depths@.update(tgt, PARTICLE_DEPTH));
                        if i != tgt {
                            assert(pre.depths@.update(tgt, PARTICLE_DEPTH)[i]
                                == pre.depths@[i]);
                        }
                    } else {
                        if i != tgt {
                            assert(fb.glyphs@[i] == pre.glyphs@[i]);
                        } else {
                            assert(fb.depths@[i] == PARTICLE_DEPTH || *fb == pre);
                        }
                    }
                }
                assert(spec_cells_of(*fb) == spec_particle_step(
                    cpre,
                    fb0.width as int,
                    fb0.height as int,
                    plan@[k as int],
                    progress as int,
                    cx as int,
                    cy as int,
                ));
            }
        } else {
            proof {
                assert(spec_cells_of(*fb) == spec_particle_step(
                    cpre,
                    fb0.width as int,
                    fb0.height as int,
                    plan@[k as int],
                    progress as int,
                    cx as int,
                    cy as int,
                ));
            }
        }
        proof {
            assert(spec_particles_pass(
                spec_cells_of(fb0),
                fb0.width as int,
                fb0.height as int,
                plan@,
                progress as int,
                cx as int,
                cy as int,
                k + 1,
            ) == spec_particle_step(
                cpre,
                fb0.width as int,
                fb0.height as int,
                plan@[k as int],
                progress as int,
                cx as int,
                cy as int,
            ));
        }
        k = k + 1;
    }
}

/// Direction of one of the eight starburst rays.
pub open spec fn spec_ray_dir(d: int) -> (int, int) {
    if d == 0 {
        (1, 0)
    } else if d == 1 {
        (-1, 0)
    } else if d == 2 {
        (0, 1)
    } else if d == 3 {
        (0, -1)
    } else if d == 4 {
        (1, 1)
    } else if d == 5 {
        (1, -1)
    } else if d == 6 {
        (-1, 1)
    } else {
        (-1, -1)
    }
}

/// Ray length of the starburst for a hold counter.
pub open spec fn spec_star_radius(frame: int) -> int {
    1 + frame / 6
}

/// The cell planes after the starburst cell with index `s`: ray `s`
/// divided by the radius, step along it `s` modulo the radius plus one,
/// an asterisk written through the depth test at the starburst depth.
pub open spec fn spec_star_step(
    c: FrameCells,
    w: int,
    h: int,
    cx: int,
    cy: int,
    radius: int,
    s: int,
) -> FrameCells {
    let dir = spec_ray_dir(s / radius);
    let r = s % radius + 1;
    let gx = cx / 10 + dir.0 * r;
    let gy = cy / 10 + dir.1 * r;
    if 0 <= gx < w && 0 <= gy < h {
        let idx = gy * w + gx;
        if STAR_DEPTH > c.depths[idx] {
            FrameCells {
                glyphs: c.glyphs.update(idx, '*'),
                depths: c.depths.update(idx, STAR_DEPTH),
                colors: c.colors.update(idx, CellColor::Named(93)),
            }
        } else {
            c
        }
    } else {
        c
    }
}

/// The cell planes after the first `upto` starburst cells.
pub open spec fn spec_star_pass(
    c: FrameCells,
    w: int,
    h: int,
    cx: int,
    cy: int,
    radius: int,
    upto: int,
) -> FrameCells
    decreases upto,
{
    if upto <= 0 {
        c
    } else {
        spec_star_step(
            spec_star_pass(c, w, h, cx, cy, radius, upto - 1),
            w,
            h,
            cx,
            cy,
            radius,
            upto - 1,
        )
    }
}

/// Draws the starburst overlay: the buffer's planes afterward are exactly
/// the starburst pass applied to the planes before - eight rays of
/// asterisks out to radius 1 + frame/6 around the ball center, each cell
/// written through the depth test at the starburst depth (see
/// [`spec_star_step`]). The buffer only ever deepens.
pub fn draw_starburst(fb: &mut FrameBuffer, cx: i32, cy: i32, frame: u32)
    requires
        old(fb).wf(),
        old(fb).width <= 4096,
        old(fb).height <= 4096,
        -100000 <= cx <= 100000,
        -100000 <= cy <= 100000,
        frame <= 1000,
    ensures
        final(fb).wf(),
        final(fb).width == old(fb).width,
        final(fb).height == old(fb).height,
        frame_evolves(*old(fb), *final(fb)),
        spec_cells_of(*final(fb)) == spec_star_pass(
            spec_cells_of(*old(fb)),
            old(fb).width as int,
            old(fb).height as int,
            cx as int,
            cy as int,
            spec_star_radius(frame as int),
            8 * spec_star_radius(frame as int),
        ),
        // the rays write nothing but asterisks at the starburst depth
        forall|i: int|
            0 <= i < final(fb).depths@.len() && final(fb).depths@[i] != old(fb).depths@[i]
                ==> final(fb).glyphs@[i] == '*' && #[trigger] final(fb).depths@[i]
                == STAR_DEPTH as int,
{
    let ghost fb0 = *fb;
    let radius: i32 = 1 + (frame as i32) / 6;
    proof {
        assert(radius == spec_star_radius(frame as int));
    }
    let ghost rad: int = radius as int;
    let ghost mut scount: int = 0;
    let mut d: usize = 0;
    while d < 8
        invariant
            d <= 8,
            fb.wf(),
            fb.width == fb0.width,
            fb.height == fb0.height,
            fb0.wf(),
            fb0.width <= 4096,
            fb0.height <= 4096,
            frame_evolves(fb0, *fb),
            forall|i: int|
                0 <= i < fb.depths@.len() && fb.depths@[i] != fb0.depths@[i] ==> fb.glyphs@[i]
                    == '*' && #[trigger] fb.depths@[i] == STAR_DEPTH as int,
            rad == radius as int,
            1 <= radius <= 200,
            scount == d as int * rad,
            spec_cells_of(*fb) == spec_star_pass(
                spec_cells_of(fb0),
                fb0.width as int,
                fb0.height as int,
                cx as int,
                cy as int,
                rad,
                scount,
            ),
            -100000 <= cx <= 100000,
            -100000 <= cy <= 100000,
        decreases 8 - d,
    {
        let (dx, dy): (i32, i32) = match d {
            0 => (1, 0),
            1 => (-1, 0),
            2 => (0, 1),
            3 => (0, -1),
            4 => (1, 1),
            5 => (1, -1),
            6 => (-1, 1),
            _ => (-1, -1),
        };
        proof {
            assert((dx as int, dy as int) == spec_ray_dir(d as int));
        }
        let gcx: i64 = div_floor(cx as i64, 10);
        let gcy: i64 = div_floor(cy as i64, 10);
        let mut r: i32 = 1;
        while r <= radius
            invariant
                1 <= r <= radius + 1,
                1 <= radius <= 200,
                d < 8,
                fb.wf(),
                fb.width == fb0.width,
                fb.height == fb0.height,
                fb0.wf(),
                fb0.width <= 4096,
                fb0.height <= 4096,
                frame_evolves(fb0, *fb),
                forall|i: int|
                    0 <= i < fb.depths@.len() && fb.depths@[i] != fb0.depths@[i]
                        ==> fb.glyphs@[i] == '*' && #[trigger] fb.depths@[i]
                        == STAR_DEPTH as int,
                rad == radius as int,
                scount == d as int * rad + (r as int - 1),
                spec_cells_of(*fb) == spec_star_pass(
                    spec_cells_of(fb0),
                    fb0.width as int,
                    fb0.height as int,
                    cx as int,
                    cy as int,
                    rad,
                    scount,
                ),
                (dx as int, dy as int) == spec_ray_dir(d as int),
                gcx == cx as int / 10,
                gcy == cy as int / 10,
                -10000 <= gcx <= 10000,
                -10000 <= gcy <= 10000,
                -1 <= dx <= 1,
                -1 <= dy <= 1,
                -100000 <= cx <= 100000,
                -100000 <= cy <= 100000,
            decreases radius + 1 - r,
        {
            let ghost cpre = spec_cells_of(*fb);
            proof {
                lemma_fundamental_div_mod_converse(scount, rad, d as int, r as int - 1);
                assert(-200 <= dx * r <= 200) by (nonlinear_arith)
                    requires
                        -1 <= dx <= 1,
                        1 <= r <= 200,
                ;
                assert(-200 <= dy * r <= 200) by (nonlinear_arith)
                    requires
                        -1 <= dy <= 1,
                        1 <= r <= 200,
                ;
                assert(dx as int * (r as int) == (dx as int) * (r as int));
            }
            let gx: i64 = gcx + (dx * r) as i64;
            let gy: i64 = gcy + (dy * r) as i64;
            if 0 <= gx && gx < fb.width as i64 && 0 <= gy && gy < fb.height as i64 {
                let ghost pre = *fb;
                let ghost tgt = pre.cell_index((gx as usize) as int, (gy as usize) as int);
                fb.write_cell(gx as usize, gy as usize, STAR_DEPTH, '*', CellColor::Named(93));
                proof {
                    lemma_frame_evolves_trans(fb0, pre, *fb);
                    lemma_cell_index_in_range(
                        (gx as usize) as int,
                        (gy as usize) as int,
                        pre.width as int,
                        pre.height as int,
                    );
                    assert forall|i: int|
                        0 <= i < fb.depths@.len() && fb.depths@[i] != fb0.depths@[i]
                        implies fb.glyphs@[i] == '*' && #[trigger] fb.depths@[i]
                        == STAR_DEPTH as int by {
                        if fb.depths@[i] != pre.depths@[i] {
                            assert(fb.depths@ == pre.depths@.update(tgt, STAR_DEPTH));
                            if i != tgt {
                                assert(pre.depths@.update(tgt, STAR_DEPTH)[i]
                                    == pre.depths@[i]);
                            }
                        } else {
                            if i != tgt {
                                assert(fb.glyphs@[i] == pre.glyphs@[i]);
                            } else {
                                assert(fb.depths@[i] == STAR_DEPTH || *fb == pre);
                            }
                        }
                    }
                    assert(spec_cells_of(*fb) == spec_star_step(
                        cpre,
                        fb0.width as int,
                        fb0.height as int,
                        cx as int,
                        cy as int,
                        rad,
                        scount,
                    ));
                }
            } else {
                proof {
                    assert(spec_cells_of(*fb) == spec_star_step(
                        cpre,
                        fb0.width as int,
                        fb0.height as int,
                        cx as int,
                        cy as int,
                        rad,
                        scount,
                    ));
                }
            }
            proof {
                assert(spec_star_pass(
                    spec_cells_of(fb0),
                    fb0.width as int,
                    fb0.height as int,
                    cx as int,
                    cy as int,
                    rad,
                    scount + 1,
                ) == spec_star_step(
                    cpre,
                    fb0.width as int,
                    fb0.height as int,
                    cx as int,
                    cy as int,
                    rad,
                    scount,
                ));
                scount = scount + 1;
            }
            r = r + 1;
        }
        proof {
            assert(scount == (d as int + 1) * rad) by (nonlinear_arith)
                requires
                    scount == d as int * rad + (radius as int - 1) + 1,
                    rad == radius as int,
            ;
        }
        d = d + 1;
    }
    proof {
        assert(scount == 8 * rad);
    }
}

/// How far the ball stands open in [0, 1024]: ramping up through Opening,
/// fully open while Absorbing, ramping shut through Closing, shut
/// everywhere else.
pub open spec fn spec_open_amount(phase: Phase, frame: int) -> int {
    match phase {
        Phase::Opening => if frame >= OPEN_FRAMES {
            1024
        } else {
            frame * 1024 / (OPEN_FRAMES as int)
        },
        Phase::Absorbing => 1024,
        Phase::Closing => if frame >= CLOSE_FRAMES {
            0
        } else {
            (CLOSE_FRAMES - frame) * 1024 / (CLOSE_FRAMES as int)
        },
        _ => 0,
    }
}

/// Open amount of the ball for the current phase and counter.
pub fn open_amount(phase: Phase, frame: u32) -> (o: i32)
    requires
        frame <= 1000,
    ensures
        o == spec_open_amount(phase, frame as int),
        0 <= o <= 1024,
{
    match phase {
        Phase::Opening => {
            if frame >= OPEN_FRAMES {
                1024
            } else {
                proof {
                    assert(frame * 1024 / 30 <= 1024) by (nonlinear_arith)
                        requires
                            0 <= frame < 30,
                    ;
                }
                ((frame * 1024) / OPEN_FRAMES) as i32
            }
        },
        Phase::Absorbing => 1024,
        Phase::Closing => {
            if frame >= CLOSE_FRAMES {
                0
            } else {
                proof {
                    assert((20 - frame) * 1024 / 20 <= 1024) by (nonlinear_arith)
                        requires
                            0 <= frame < 20,
                    ;
                }
                (((CLOSE_FRAMES - frame) * 1024) / CLOSE_FRAMES) as i32
            }
        },
        _ => 0,
    }
}

/// Converts ASCII bytes to the characters a text row draws.
pub fn bytes_to_chars(v: &Vec<u8>) -> (out: Vec<char>)
    ensures
        out@.len() == v@.len(),
        forall|k: int| 0 <= k < v@.len() ==> out@[k] == v@[k] as char,
{
    let mut out: Vec<char> = Vec::new();
    let mut i: usize = 0;
    while i < v.len()
        invariant
            i <= v@.len(),
            out@.len() == i,
            forall|k: int| 0 <= k < i ==> out@[k] == v@[k] as char,
        decreases v@.len() - i,
    {
        out.push(v[i] as char);
        i = i + 1;
    }
    out
}

/// The planes of a buffer that was just cleared: spaces at the empty
/// depth with no color.
pub open spec fn spec_cleared_cells(n: int) -> FrameCells {
    FrameCells {
        glyphs: Seq::new(n as nat, |i: int| ' '),
        depths: Seq::new(n as nat, |i: int| DEPTH_EMPTY),
        colors: Seq::new(n as nat, |i: int| CellColor::Blank),
    }
}

/// The name-entry banner.
pub open spec fn spec_name_prompt_text() -> Seq<char> {
    seq![
        'e',
        'n',
        't',
        'e',
        'r',
        ' ',
        't',
        'r',
        'a',
        'i',
        'n',
        'e',
        'r',
        ' ',
        'n',
        'a',
        'm',
        'e',
        ':',
    ]
}

/// The grid screen's caught-count line, the count clamped to a byte.
pub open spec fn spec_dex_grid_text(n: int) -> Seq<char> {
    seq!['c', 'a', 'u', 'g', 'h', 't', ':', ' '] + spec_dec(
        if n > 255 {
            255
        } else {
            n
        },
    )
}

/// The detail screen's entry line.
pub open spec fn spec_dex_detail_text(idx: int) -> Seq<char> {
    seq!['e', 'n', 't', 'r', 'y', ' '] + spec_dec(idx)
}

/// The caught announcement.
pub open spec fn spec_gotcha_text(target: Seq<u8>) -> Seq<char> {
    seq!['g', 'o', 't', 'c', 'h', 'a', '!', ' '] + target.map_values(|b: u8| b as char)
}

/// The cell planes of one fully composed frame: the cleared buffer, the
/// screen's layers in paint order - on the game screen the sprite while
/// the capture has not absorbed it, the rasterized ball, the absorb
/// stream, the starburst and caught message - and the prompt line last.
pub open spec fn spec_scene_cells(
    state: SceneState,
    sprite: AsciiImage,
    ramp: Seq<char>,
    w: int,
    h: int,
) -> FrameCells {
    let c0 = spec_cleared_cells(w * h);
    let c1 = match state.screen {
        Screen::Name => spec_text_cells(
            c0,
            w,
            spec_name_prompt_text(),
            h / 2,
            4,
            CellColor::Named(97),
            TEXT_DEPTH,
        ),
        Screen::DexGrid => spec_text_cells(
            c0,
            w,
            spec_dex_grid_text(state.caught@.len() as int),
            2,
            4,
            CellColor::Named(97),
            TEXT_DEPTH,
        ),
        Screen::DexDetail(idx) => spec_text_cells(
            c0,
            w,
            spec_dex_detail_text(idx as int),
            2,
            4,
            CellColor::Named(97),
            TEXT_DEPTH,
        ),
        Screen::Game => {
            let base = if state.phase is Idle || state.phase is Throwing || state.phase
                is Opening {
                spec_blit_cells(
                    c0,
                    w,
                    sprite.chars@,
                    sprite.colors@,
                    sprite.width as int,
                    sprite.height as int,
                    w / 2 + 2,
                    5,
                )
            } else {
                c0
            };
            let with_ball = spec_sphere_pass(
                base,
                w,
                h,
                ramp,
                state.spin as int,
                state.tilt_phase as int,
                state.ball_x as int,
                state.ball_y as int,
                spec_open_amount(state.phase, state.frame as int),
                22050,
            );
            let cx = 10 * (w / 2) + state.ball_x;
            let cy = 10 * (h / 2) + state.ball_y;
            let with_stream = if state.phase is Absorbing {
                let plan = spec_particle_plan(
                    sprite.chars@,
                    sprite.colors@,
                    sprite.width as int,
                    w / 2 + 2,
                    5,
                    sprite.chars@.len() as int,
                );
                spec_particles_pass(
                    with_ball,
                    w,
                    h,
                    plan,
                    spec_open_amount(Phase::Opening, state.frame as int),
                    cx,
                    cy,
                    plan.len() as int,
                )
            } else {
                with_ball
            };
            if state.phase is StarHold {
                let with_star = spec_star_pass(
                    with_stream,
                    w,
                    h,
                    cx,
                    cy,
                    spec_star_radius(state.frame as int),
                    8 * spec_star_radius(state.frame as int),
                );
                let gt = spec_gotcha_text(state.target@);
                if gt.len() <= 65536 {
                    spec_text_cells(with_star, w, gt, 2, 4, CellColor::Named(93), TEXT_DEPTH)
                } else {
                    with_star
                }
            } else {
                with_stream
            }
        },
    };
    let pt = spec_prompt_chars(state.last_cmd@);
    if pt.len() <= 65536 {
        spec_text_cells(c1, w, pt, h - 1, 0, CellColor::Named(97), TEXT_DEPTH)
    } else {
        c1
    }
}

/// The characters of the prompt line for an echoed command.
pub open spec fn spec_prompt_chars(last_cmd: Seq<u8>) -> Seq<char> {
    seq!['c', 'o', 'm', 'm', 'a', 'n', 'd', ':', ' '] + last_cmd.map_values(|b: u8| b as char)
}

/// Every cell of the given row still lies below the text layer's depth,
/// so a text write onto that row always lands.
pub open spec fn spec_row_shallow(fb: FrameBuffer, row: int) -> bool {
    forall|i: int|
        0 <= i < fb.depths@.len() && i / (fb.width as int) == row ==> #[trigger] fb.depths@[i]
            < TEXT_DEPTH as int
}

/// Composes and serializes one frame of the scene.
///
/// The buffer's planes afterward are exactly the composed scene (see
/// [`spec_scene_cells`]): the cleared buffer, the screen's layers in
/// paint order, and the prompt line last, every layer writing through the
/// shared depth test. The returned characters are exactly the frame's
/// escape-sequence serialization, and on every screen the bottom row
/// carries the prompt with the echoed command.
#[verifier::rlimit(100)]
#[verifier::spinoff_prover]
pub fn render_scene(
    fb: &mut FrameBuffer,
    state: &SceneState,
    sprite: &AsciiImage,
    ramp: &Vec<char>,
    mode: ColorMode,
) -> (out: Vec<char>)
    requires
        old(fb).wf(),
        state.wf(),
        sprite.wf(),
        1 <= old(fb).width <= 4096,
        1 <= old(fb).height <= 4096,
        1 <= sprite.width <= 4096,
        sprite.height <= 4096,
        2 <= ramp@.len() <= 0xFFFF_FFFF,
    ensures
        final(fb).wf(),
        final(fb).width == old(fb).width,
        final(fb).height == old(fb).height,
        out@ == spec_frame_chars(*final(fb), mode),
        spec_cells_of(*final(fb)) == spec_scene_cells(
            *state,
            *sprite,
            ramp@,
            old(fb).width as int,
            old(fb).height as int,
        ),
        // the prompt line stands on the bottom row, above every layer
        old(fb).height >= 4 && state.last_cmd@.len() + 9 <= 65536 ==> forall|i: int|
            #![trigger final(fb).depths@[i]]
            0 <= i < final(fb).glyphs@.len() && i / (old(fb).width as int) == old(
                fb,
            ).height - 1 && i % (old(fb).width as int) < 9 + state.last_cmd@.len()
                ==> spec_cell_holds(
                *final(fb),
                i,
                spec_prompt_chars(state.last_cmd@)[i % (old(fb).width as int)],
                CellColor::Named(97),
                TEXT_DEPTH as int,
            ),
{
    fb.clear();
    let width = fb.width;
    let height = fb.height;
    let prompt_row: usize = height - 1;
    let ghost w_ = width as int;
    let ghost h_ = height as int;
    let ghost prow = h_ - 1;
    let ghost c0 = spec_cleared_cells(w_ * h_);
    proof {
        assert forall|i: int|
            0 <= i < fb.depths@.len() && i / w_ == prow implies #[trigger] fb.depths@[i]
            < TEXT_DEPTH as int by {}
        assert(spec_row_shallow(*fb, prow));
        assert(fb.glyphs@ =~= c0.glyphs);
        assert(fb.depths@ =~= c0.depths);
        assert(fb.colors@ =~= c0.colors);
        assert(spec_cells_of(*fb) == c0);
    }

    match state.screen {
        Screen::Name => {
            let mut text: Vec<char> = Vec::new();
            text.push('e');
            text.push('n');
            text.push('t');
            text.push('e');
            text.push('r');
            text.push(' ');
            text.push('t');
            text.push('r');
            text.push('a');
            text.push('i');
            text.push('n');
            text.push('e');
            text.push('r');
            text.push(' ');
            text.push('n');
            text.push('a');
            text.push('m');
            text.push('e');
            text.push(':');
            proof {
                assert(text@ =~= spec_name_prompt_text());
            }
            let ghost pre = *fb;
            draw_text(fb, &text, height / 2, 4, CellColor::Named(97), TEXT_DEPTH);
            proof {
                assert(spec_cells_of(*fb) == spec_text_cells(
                    c0,
                    w_,
                    spec_name_prompt_text(),
                    h_ / 2,
                    4,
                    CellColor::Named(97),
                    TEXT_DEPTH,
                ));
                if h_ >= 4 {
                    assert forall|i: int|
                        0 <= i < fb.depths@.len() && i / w_ == prow implies
                        #[trigger] fb.depths@[i] < TEXT_DEPTH as int by {
                        assert(spec_text_done(
                            pre,
                            *fb,
                            text@,
                            h_ / 2,
                            4,
                            CellColor::Named(97),
                            TEXT_DEPTH as int,
                            i,
                        ));
                        assert(pre.depths@[i] < TEXT_DEPTH as int);
                    }
                    assert(spec_row_shallow(*fb, prow));
                }
            }
        },
        Screen::DexGrid => {
            let mut text: Vec<char> = Vec::new();
            text.push('c');
            text.push('a');
            text.push('u');
            text.push('g');
            text.push('h');
            text.push('t');
            text.push(':');
            text.push(' ');
            proof {
                assert(text@ =~= seq!['c', 'a', 'u', 'g', 'h', 't', ':', ' ']);
            }
            let n = state.caught.len();
            let small: u8 = if n > 255 {
                255
            } else {
                n as u8
            };
            push_dec(&mut text, small);
            proof {
                assert(text@ == spec_dex_grid_text(state.caught@.len() as int));
            }
            let ghost pre = *fb;
            draw_text(fb, &text, 2, 4, CellColor::Named(97), TEXT_DEPTH);
            proof {
                assert(spec_cells_of(*fb) == spec_text_cells(
                    c0,
                    w_,
                    spec_dex_grid_text(state.caught@.len() as int),
                    2,
                    4,
                    CellColor::Named(97),
                    TEXT_DEPTH,
                ));
                if h_ >= 4 {
                    assert forall|i: int|
                        0 <= i < fb.depths@.len() && i / w_ == prow implies
                        #[trigger] fb.depths@[i] < TEXT_DEPTH as int by {
                        assert(spec_text_done(
                            pre,
                            *fb,
                            text@,
                            2,
                            4,
                            CellColor::Named(97),
                            TEXT_DEPTH as int,
                            i,
                        ));
                        assert(pre.depths@[i] < TEXT_DEPTH as int);
                    }
                    assert(spec_row_shallow(*fb, prow));
                }
            }
        },
        Screen::DexDetail(idx) => {
            let mut text: Vec<char> = Vec::new();
            text.push('e');
            text.push('n');
            text.push('t');
            text.push('r');
            text.push('y');
            text.push(' ');
            proof {
                assert(text@ =~= seq!['e', 'n', 't', 'r', 'y', ' ']);
            }
            push_dec(&mut text, idx);
            proof {
                assert(text@ == spec_dex_detail_text(idx as int));
            }
            let ghost pre = *fb;
            draw_text(fb, &text, 2, 4, CellColor::Named(97), TEXT_DEPTH);
            proof {
                assert(spec_cells_of(*fb) == spec_text_cells(
                    c0,
                    w_,
                    spec_dex_detail_text(idx as int),
                    2,
                    4,
                    CellColor::Named(97),
                    TEXT_DEPTH,
                ));
                if h_ >= 4 {
                    assert forall|i: int|
                        0 <= i < fb.depths@.len() && i / w_ == prow implies
                        #[trigger] fb.depths@[i] < TEXT_DEPTH as int by {
                        assert(spec_text_done(
                            pre,
                            *fb,
                            text@,
                            2,
                            4,
                            CellColor::Named(97),
                            TEXT_DEPTH as int,
                            i,
                        ));
                        assert(pre.depths@[i] < TEXT_DEPTH as int);
                    }
                    assert(spec_row_shallow(*fb, prow));
                }
            }
        },
        Screen::Game => {
            let sprite_x: usize = width / 2 + 2;
            let sprite_y: usize = 5;
            let show_sprite = matches!(state.phase, Phase::Idle) || matches!(
                state.phase,
                Phase::Throwing,
            ) || matches!(state.phase, Phase::Opening);
            let ghost pre1 = *fb;
            let ghost base = if show_sprite {
                spec_blit_cells(
                    c0,
                    w_,
                    sprite.chars@,
                    sprite.colors@,
                    sprite.width as int,
                    sprite.height as int,
                    w_ / 2 + 2,
                    5,
                )
            } else {
                c0
            };
            if show_sprite {
                blit_sprite(fb, sprite, sprite_x, sprite_y);
            }
            proof {
                assert(spec_cells_of(*fb) == base);
                if h_ >= 4 {
                    assert forall|i: int|
                        0 <= i < fb.depths@.len() && i / w_ == prow implies
                        #[trigger] fb.depths@[i] < TEXT_DEPTH as int by {
                        if show_sprite {
                            assert(spec_blit_done(
                                pre1,
                                *fb,
                                sprite.chars@,
                                sprite.colors@,
                                sprite.width as int,
                                sprite.height as int,
                                sprite_x as int,
                                sprite_y as int,
                                i,
                            ));
                        }
                        assert(pre1.depths@[i] < TEXT_DEPTH as int);
                    }
                    assert(spec_row_shallow(*fb, prow));
                }
            }
            let open = open_amount(state.phase, state.frame);
            let ghost pre2 = *fb;
            rasterize_sphere(
                fb,
                ramp,
                state.spin,
                state.tilt_phase,
                state.ball_x,
                state.ball_y,
                open,
            );
            let ghost with_ball = spec_sphere_pass(
                base,
                w_,
                h_,
                ramp@,
                state.spin as int,
                state.tilt_phase as int,
                state.ball_x as int,
                state.ball_y as int,
                spec_open_amount(state.phase, state.frame as int),
                22050,
            );
            proof {
                assert(spec_cells_of(*fb) == with_ball);
                if h_ >= 4 {
                    assert forall|i: int|
                        0 <= i < fb.depths@.len() && i / w_ == prow implies
                        #[trigger] fb.depths@[i] < TEXT_DEPTH as int by {
                        assert(pre2.depths@[i] < TEXT_DEPTH as int);
                    }
                    assert(spec_row_shallow(*fb, prow));
                }
            }
            let cx: i32 = 10 * (width as i32 / 2) + state.ball_x;
            let cy: i32 = 10 * (height as i32 / 2) + state.ball_y;
            let ghost with_stream = if state.phase is Absorbing {
                spec_particles_pass(
                    with_ball,
                    w_,
                    h_,
                    spec_particle_plan(
                        sprite.chars@,
                        sprite.colors@,
                        sprite.width as int,
                        w_ / 2 + 2,
                        5,
                        sprite.chars@.len() as int,
                    ),
                    spec_open_amount(Phase::Opening, state.frame as int),
                    cx as int,
                    cy as int,
                    spec_particle_plan(
                        sprite.chars@,
                        sprite.colors@,
                        sprite.width as int,
                        w_ / 2 + 2,
                        5,
                        sprite.chars@.len() as int,
                    ).len() as int,
                )
            } else {
                with_ball
            };
            let ghost pre3 = *fb;
            if matches!(state.phase, Phase::Absorbing) {
                let plan = build_particles(sprite, sprite_x, sprite_y);
                let progress = open_amount(Phase::Opening, state.frame);
                draw_particles(fb, &plan, progress, cx, cy);
            }
            proof {
                assert(spec_cells_of(*fb) == with_stream);
                if h_ >= 4 {
                    assert forall|i: int|
                        0 <= i < fb.depths@.len() && i / w_ == prow implies
                        #[trigger] fb.depths@[i] < TEXT_DEPTH as int by {
                        assert(pre3.depths@[i] < TEXT_DEPTH as int);
                    }
                    assert(spec_row_shallow(*fb, prow));
                }
            }
            if matches!(state.phase, Phase::StarHold) {
                let ghost pre4 = *fb;
                draw_starburst(fb, cx, cy, state.frame);
                let ghost with_star = spec_star_pass(
                    with_stream,
                    w_,
                    h_,
                    cx as int,
                    cy as int,
                    spec_star_radius(state.frame as int),
                    8 * spec_star_radius(state.frame as int),
                );
                proof {
                    assert(spec_cells_of(*fb) == with_star);
                    if h_ >= 4 {
                        assert forall|i: int|
                            0 <= i < fb.depths@.len() && i / w_ == prow implies
                            #[trigger] fb.depths@[i] < TEXT_DEPTH as int by {
                            assert(pre4.depths@[i] < TEXT_DEPTH as int);
                        }
                        assert(spec_row_shallow(*fb, prow));
                    }
                }
                let mut text: Vec<char> = Vec::new();
                text.push('g');
                text.push('o');
                text.push('t');
                text.push('c');
                text.push('h');
                text.push('a');
                text.push('!');
                text.push(' ');
                proof {
                    assert(text@ =~= seq!['g', 'o', 't', 'c', 'h', 'a', '!', ' ']);
                }
                let ghost gheader = text@;
                let name = bytes_to_chars(&state.target);
                let mut j: usize = 0;
                while j < name.len()
                    invariant
                        fb.wf(),
                        fb.width == old(fb).width,
                        fb.height == old(fb).height,
                        1 <= fb.width <= 4096,
                        1 <= fb.height <= 4096,
                        w_ == fb.width as int,
                        h_ == fb.height as int,
                        prow == h_ - 1,
                        h_ >= 4 ==> spec_row_shallow(*fb, prow),
                        j <= name@.len(),
                        name@.len() == state.target@.len(),
                        forall|k: int|
                            0 <= k < name@.len() ==> name@[k] == state.target@[k] as char,
                        gheader == seq!['g', 'o', 't', 'c', 'h', 'a', '!', ' '],
                        text@ == gheader + name@.subrange(0, j as int),
                    decreases name@.len() - j,
                {
                    text.push(name[j]);
                    proof {
                        assert(text@ =~= gheader + name@.subrange(0, j + 1));
                    }
                    j = j + 1;
                }
                proof {
                    assert(name@.subrange(0, name@.len() as int) =~= name@);
                    assert(name@ =~= state.target@.map_values(|b: u8| b as char));
                    assert(text@ == spec_gotcha_text(state.target@));
                }
                let ghost pre5 = *fb;
                if text.len() <= 65536 {
                    draw_text(fb, &text, 2, 4, CellColor::Named(93), TEXT_DEPTH);
                    proof {
                        assert(spec_cells_of(*fb) == spec_text_cells(
                            with_star,
                            w_,
                            spec_gotcha_text(state.target@),
                            2,
                            4,
                            CellColor::Named(93),
                            TEXT_DEPTH,
                        ));
                        if h_ >= 4 {
                            assert forall|i: int|
                                0 <= i < fb.depths@.len() && i / w_ == prow implies
                                #[trigger] fb.depths@[i] < TEXT_DEPTH as int by {
                                assert(spec_text_done(
                                    pre5,
                                    *fb,
                                    text@,
                                    2,
                                    4,
                                    CellColor::Named(93),
                                    TEXT_DEPTH as int,
                                    i,
                                ));
                                assert(pre5.depths@[i] < TEXT_DEPTH as int);
                            }
                            assert(spec_row_shallow(*fb, prow));
                        }
                    }
                }
            }
        },
    }
    proof {
        if h_ >= 4 {
            assert(spec_row_shallow(*fb, prow));
        }
    }
    let ghost composed = spec_cells_of(*fb);

    // prompt line, painted last and above every layer
    let mut prompt: Vec<char> = Vec::new();
    prompt.push('c');
    prompt.push('o');
    prompt.push('m');
    prompt.push('m');
    prompt.push('a');
    prompt.push('n');
    prompt.push('d');
    prompt.push(':');
    prompt.push(' ');
    proof {
        assert(prompt@ =~= seq!['c', 'o', 'm', 'm', 'a', 'n', 'd', ':', ' ']);
    }
    let ghost header = prompt@;
    let cmd = bytes_to_chars(&state.last_cmd);
    let mut j: usize = 0;
    while j < cmd.len()
        invariant
            fb.wf(),
            fb.width == old(fb).width,
            fb.height == old(fb).height,
            1 <= fb.width <= 4096,
            1 <= fb.height <= 4096,
            w_ == fb.width as int,
            h_ == fb.height as int,
            prow == h_ - 1,
            h_ >= 4 ==> spec_row_shallow(*fb, prow),
            composed == spec_cells_of(*fb),
            j <= cmd@.len(),
            cmd@.len() == state.last_cmd@.len(),
            forall|k: int| 0 <= k < cmd@.len() ==> cmd@[k] == state.last_cmd@[k] as char,
            header == seq!['c', 'o', 'm', 'm', 'a', 'n', 'd', ':', ' '],
            prompt@ == header + cmd@.subrange(0, j as int),
        decreases cmd@.len() - j,
    {
        prompt.push(cmd[j]);
        proof {
            assert(prompt@ =~= header + cmd@.subrange(0, j + 1));
        }
        j = j + 1;
    }
    proof {
        assert(cmd@.subrange(0, cmd@.len() as int) =~= cmd@);
        assert(cmd@ =~= state.last_cmd@.map_values(|b: u8| b as char));
        assert(prompt@ == spec_prompt_chars(state.last_cmd@));
        assert(prompt_row <= 65536);
    }
    let ghost pre_prompt = *fb;
    if prompt.len() <= 65536 && prompt_row <= 65536 {
        draw_text(fb, &prompt, prompt_row, 0, CellColor::Named(97), TEXT_DEPTH);
        proof {
            assert(spec_cells_of(*fb) == spec_text_cells(
                composed,
                w_,
                spec_prompt_chars(state.last_cmd@),
                prow,
                0,
                CellColor::Named(97),
                TEXT_DEPTH,
            ));
            if h_ >= 4 && state.last_cmd@.len() + 9 <= 65536 {
                assert forall|i: int|
                    #![trigger fb.depths@[i]]
                    0 <= i < fb.glyphs@.len() && i / w_ == prow && i % w_ < 9
                        + state.last_cmd@.len() implies spec_cell_holds(
                    *fb,
                    i,
                    spec_prompt_chars(state.last_cmd@)[i % w_],
                    CellColor::Named(97),
                    TEXT_DEPTH as int,
                ) by {
                    assert(spec_text_done(
                        pre_prompt,
                        *fb,
                        prompt@,
                        prow,
                        0,
                        CellColor::Named(97),
                        TEXT_DEPTH as int,
                        i,
                    ));
                    assert(pre_prompt.depths@[i] < TEXT_DEPTH as int);
                }
            }
        }
    }
    proof {
        assert(spec_cells_of(*fb) == spec_scene_cells(*state, *sprite, ramp@, w_, h_));
    }

    render_frame(fb, mode)
}

} // verus!
