use vstd::prelude::*;

use vstd::arithmetic::div_mod::lemma_fundamental_div_mod_converse;

use crate::background::spec_abs;
use crate::background::spec_bg_reachable;
use crate::background::background_mask;
use crate::color::Rgb;
use crate::decode::decode_rgb_resized;
use crate::decode::decode_gif_frames_rgb_resized;
use crate::decode::decoded_rgb_of;
use crate::decode::decoded_gif_frames_of;
use crate::framebuffer::lemma_cell_index_in_range;

verus! {

/// A raster image converted to glyphs: parallel row-major grids of
/// characters and colors. A space glyph marks a cell with no visible
/// content; its color is never sampled.
pub struct AsciiImage {
    /// Cells per row.
    pub width: usize,
    /// Number of rows.
    pub height: usize,
    /// Glyph per cell, row-major.
    pub chars: Vec<char>,
    /// Color per cell, row-major.
    pub colors: Vec<Rgb>,
}

impl AsciiImage {
    /// Both grids cover exactly width * height cells.
    pub open spec fn wf(self) -> bool {
        &&& self.chars@.len() == self.width * self.height
        &&& self.colors@.len() == self.width * self.height
    }
}

/// `v` clamped to [lo, hi].
pub open spec fn spec_clamp(v: int, lo: int, hi: int) -> int {
    if v < lo {
        lo
    } else if v > hi {
        hi
    } else {
        v
    }
}

/// Rec. 709 luminance of a pixel, in fixed point: 0 for black, 1024 for
/// white.
pub open spec fn spec_luminance(p: Rgb) -> int {
    (2126 * p.r + 7152 * p.g + 722 * p.b) * 1024 / 2550000
}

/// Luminance of one pixel.
pub fn luminance(p: Rgb) -> (l: u32)
    ensures
        l == spec_luminance(p),
        l <= 1024,
{
    let num: u64 = 2126 * p.r as u64 + 7152 * p.g as u64 + 722 * p.b as u64;
    let l: u64 = num * 1024 / 2550000;
    proof {
        assert(num * 1024 / 2550000 <= 1024) by (nonlinear_arith)
            requires
                num <= 2550000,
        ;
    }
    l as u32
}

/// Glyph ramp index for a shaded luminance: bright cells pick low indices,
/// dark cells high ones, with round-to-nearest.
pub open spec fn spec_glyph_index(shaded: int, n: int) -> int {
    ((1024 - shaded) * (n - 1) + 512) / 1024
}

/// Maps a shaded luminance to an index into a glyph ramp of length `n`.
///
/// The index is always in [0, n-1]; full brightness (1024) maps to index 0
/// and full darkness (0) maps to index n-1.
pub fn glyph_index(shaded: u32, n: usize) -> (idx: usize)
    requires
        2 <= n <= 0xFFFF_FFFF,
        shaded <= 1024,
    ensures
        idx == spec_glyph_index(shaded as int, n as int),
        idx < n,
        shaded == 1024 ==> idx == 0,
        shaded == 0 ==> idx == n - 1,
{
    let a: u64 = 1024 - shaded as u64;
    let b: u64 = n as u64 - 1;
    proof {
        assert(a * b <= 1024 * 0xFFFF_FFFFu64) by (nonlinear_arith)
            requires
                a <= 1024,
                b <= 0xFFFF_FFFF,
        ;
    }
    let q: u64 = (a * b + 512) / 1024;
    proof {
        assert(q < n) by (nonlinear_arith)
            requires
                q == (a * b + 512) / 1024,
                a == 1024 - shaded,
                b == n - 1,
                0 <= shaded <= 1024,
                2 <= n,
        ;
        if shaded == 0 {
            assert(q == n - 1) by (nonlinear_arith)
                requires
                    q == (a * b + 512) / 1024,
                    a == 1024,
                    b == n - 1,
                    2 <= n,
            ;
        }
        if shaded == 1024 {
            assert(q == 0) by (nonlinear_arith)
                requires
                    q == (a * b + 512) / 1024,
                    a == 0,
                    b >= 1,
            ;
        }
    }
    q as usize
}

/// Directional light factor across the image: a linear gradient along the
/// fixed light direction (-0.6, -0.4), offset by 1 and clamped to
/// [0.4, 1.2], all in fixed point.
pub open spec fn spec_light(w: int, h: int, x: int, y: int) -> int {
    spec_clamp(1024 - 6 * (x * 1024 / (w - 1)) / 10 - 4 * (y * 1024 / (h - 1)) / 10, 410, 1229)
}

/// Light factor at a cell.
pub fn light_factor(width: usize, height: usize, x: usize, y: usize) -> (l: u32)
    requires
        width >= 2,
        height >= 2,
        width <= 0xFFFF_FFFF,
        height <= 0xFFFF_FFFF,
        x < width,
        y < height,
    ensures
        l == spec_light(width as int, height as int, x as int, y as int),
        410 <= l <= 1229,
{
    proof {
        assert(x * 1024 <= 0xFFFF_FFFFu64 * 1024) by (nonlinear_arith)
            requires
                x <= 0xFFFF_FFFFu64,
        ;
        assert(y * 1024 <= 0xFFFF_FFFFu64 * 1024) by (nonlinear_arith)
            requires
                y <= 0xFFFF_FFFFu64,
        ;
    }
    let xn: u64 = x as u64 * 1024 / (width as u64 - 1);
    let yn: u64 = y as u64 * 1024 / (height as u64 - 1);
    proof {
        assert(xn <= 1024) by (nonlinear_arith)
            requires
                xn == x * 1024 / (width - 1),
                0 <= x <= width - 1,
                1 <= width - 1,
        ;
        assert(yn <= 1024) by (nonlinear_arith)
            requires
                yn == y * 1024 / (height - 1),
                0 <= y <= height - 1,
                1 <= height - 1,
        ;
    }
    let raw: i64 = 1024 - (6 * xn as i64) / 10 - (4 * yn as i64) / 10;
    let clamped: i64 = if raw < 410 {
        410
    } else if raw > 1229 {
        1229
    } else {
        raw
    };
    clamped as u32
}

/// Edge strength at a cell: 0.7 times the sum of the absolute horizontal
/// and vertical luminance differences of its 4-neighbors, border cells
/// reusing the center value for missing neighbors.
pub open spec fn spec_cell_edge(pixels: Seq<Rgb>, w: int, h: int, i: int) -> int {
    let x = i % w;
    let y = i / w;
    let lc = spec_luminance(pixels[i]);
    let ll = if x > 0 {
        spec_luminance(pixels[i - 1])
    } else {
        lc
    };
    let lr = if x + 1 < w {
        spec_luminance(pixels[i + 1])
    } else {
        lc
    };
    let lu = if y > 0 {
        spec_luminance(pixels[i - w])
    } else {
        lc
    };
    let ld = if y + 1 < h {
        spec_luminance(pixels[i + w])
    } else {
        lc
    };
    7 * (spec_abs(lr - ll) + spec_abs(ld - lu)) / 10
}

/// Shaded luminance of a cell: luminance scaled by the light factor, less
/// 0.45 of the edge strength, clamped to [0, 1].
pub open spec fn spec_cell_shaded(pixels: Seq<Rgb>, w: int, h: int, i: int) -> int {
    spec_clamp(
        spec_luminance(pixels[i]) * spec_light(w, h, i % w, i / w) / 1024 - 45 * spec_cell_edge(
            pixels,
            w,
            h,
            i,
        ) / 100,
        0,
        1024,
    )
}

/// Shade multiplier applied to a cell's color: 0.55 plus 0.7 of the shaded
/// luminance, clamped to [0.35, 1.15], in fixed point.
pub open spec fn spec_shade_mult(shaded: int) -> int {
    spec_clamp(563 + 7 * shaded / 10, 358, 1178)
}

/// One output channel of the color boost: the channel is pushed away from
/// the pixel's own luminance by the saturation factor 1.15, scaled by the
/// shade multiplier, and clamped back to a byte.
pub open spec fn spec_boost_channel(c: int, lum: int, shade: int) -> int {
    let cf = c * 1024 / 255;
    let v100 = 100 * lum + 115 * (cf - lum);
    if v100 <= 0 {
        0
    } else {
        let s = v100 * shade / 102400;
        let out = s * 255 / 1024;
        if out > 255 {
            255
        } else {
            out
        }
    }
}

/// Applies saturation and shading to one channel.
pub fn boost_channel(c: u8, lum: u32, shade: u32) -> (r: u8)
    requires
        lum <= 1024,
        358 <= shade <= 1178,
    ensures
        r == spec_boost_channel(c as int, lum as int, shade as int),
{
    let cf: i64 = c as i64 * 1024 / 255;
    proof {
        assert(cf <= 1024) by (nonlinear_arith)
            requires
                cf == c * 1024 / 255,
                0 <= c <= 255,
        ;
    }
    let v100: i64 = 100 * lum as i64 + 115 * (cf - lum as i64);
    if v100 <= 0 {
        0
    } else {
        proof {
            assert(0 < v100 * (shade as i64) <= 220160 * 1178) by (nonlinear_arith)
                requires
                    0 < v100 <= 220160,
                    358 <= shade <= 1178,
            ;
        }
        let s: i64 = v100 * shade as i64 / 102400;
        let out: i64 = s * 255 / 1024;
        if out > 255 {
            255
        } else {
            out as u8
        }
    }
}

/// Boosted color of a foreground cell.
pub open spec fn spec_cell_color(pixels: Seq<Rgb>, w: int, h: int, i: int) -> Rgb {
    let lum = spec_luminance(pixels[i]);
    let shade = spec_shade_mult(spec_cell_shaded(pixels, w, h, i));
    Rgb {
        r: spec_boost_channel(pixels[i].r as int, lum, shade) as u8,
        g: spec_boost_channel(pixels[i].g as int, lum, shade) as u8,
        b: spec_boost_channel(pixels[i].b as int, lum, shade) as u8,
    }
}

/// Ramp index of a foreground cell's glyph.
pub open spec fn spec_cell_glyph_index(pixels: Seq<Rgb>, w: int, h: int, i: int, n: int) -> int {
    spec_glyph_index(spec_cell_shaded(pixels, w, h, i), n)
}

/// What one converted cell must hold: background-reachable cells become a
/// space with a black color; every other cell gets the ramp glyph and the
/// boosted color of its shading.
pub open spec fn spec_converted_cell(
    pixels: Seq<Rgb>,
    w: int,
    h: int,
    ramp: Seq<char>,
    i: int,
    ch: char,
    col: Rgb,
) -> bool {
    if spec_bg_reachable(pixels, w, h, i) {
        ch == ' ' && col == (Rgb { r: 0, g: 0, b: 0 })
    } else {
        &&& ch == ramp[spec_cell_glyph_index(pixels, w, h, i, ramp.len() as int)]
        &&& col == spec_cell_color(pixels, w, h, i)
    }
}

/// Converts a decoded raster image to a glyph grid.
///
/// Background is removed by the border flood fill; every remaining cell is
/// shaded by luminance, edge strength and the directional light, picks its
/// glyph from the ramp and carries a saturation-boosted color.
#[verifier::rlimit(80)]
pub fn ascii_from_rgb(pixels: &Vec<Rgb>, width: usize, height: usize, ramp: &Vec<char>)
    -> (img: AsciiImage)
    requires
        pixels@.len() == width * height,
        width >= 2,
        height >= 2,
        width <= 0xFFFF_FFFF,
        height <= 0xFFFF_FFFF,
        2 <= ramp@.len() <= 0xFFFF_FFFF,
    ensures
        img.wf(),
        img.width == width,
        img.height == height,
        forall|i: int|
            0 <= i < width * height ==> spec_converted_cell(
                pixels@,
                width as int,
                height as int,
                ramp@,
                i,
                #[trigger] img.chars@[i],
                img.colors@[i],
            ),
{
    let ghost w: int = width as int;
    let ghost h: int = height as int;
    let total: usize = pixels.len();

    let mut lums: Vec<u32> = Vec::new();
    let mut i: usize = 0;
    while i < total
        invariant
            i <= total,
            pixels@.len() == total,
            lums@.len() == i,
            forall|k: int| 0 <= k < i ==> #[trigger] lums@[k] == spec_luminance(pixels@[k]),
            forall|k: int| 0 <= k < i ==> #[trigger] lums@[k] <= 1024,
        decreases total - i,
    {
        let l = luminance(pixels[i]);
        lums.push(l);
        i = i + 1;
    }

    let mask = background_mask(pixels, width, height);

    let mut chars: Vec<char> = Vec::new();
    let mut colors: Vec<Rgb> = Vec::new();
    let mut y: usize = 0;
    while y < height
        invariant
            y <= height,
            width >= 2,
            height >= 2,
            width <= 0xFFFF_FFFF,
            height <= 0xFFFF_FFFF,
            2 <= ramp@.len() <= 0xFFFF_FFFF,
            w == width as int,
            h == height as int,
            total == width * height,
            pixels@.len() == total,
            lums@.len() == total,
            mask@.len() == total,
            forall|k: int| 0 <= k < total ==> #[trigger] lums@[k] == spec_luminance(pixels@[k]),
            forall|k: int| 0 <= k < total ==> #[trigger] lums@[k] <= 1024,
            forall|k: int|
                0 <= k < total ==> (#[trigger] mask@[k] <==> spec_bg_reachable(pixels@, w, h, k)),
            chars@.len() == y * width,
            colors@.len() == y * width,
            forall|k: int|
                0 <= k < y * width ==> spec_converted_cell(
                    pixels@,
                    w,
                    h,
                    ramp@,
                    k,
                    #[trigger] chars@[k],
                    colors@[k],
                ),
        decreases height - y,
    {
        let mut x: usize = 0;
        while x < width
            invariant
                x <= width,
                y < height,
                width >= 2,
                height >= 2,
                width <= 0xFFFF_FFFF,
                height <= 0xFFFF_FFFF,
                2 <= ramp@.len() <= 0xFFFF_FFFF,
                w == width as int,
                h == height as int,
                total == width * height,
                pixels@.len() == total,
                lums@.len() == total,
                mask@.len() == total,
                forall|k: int| 0 <= k < total ==> #[trigger] lums@[k] == spec_luminance(pixels@[k]),
                forall|k: int| 0 <= k < total ==> #[trigger] lums@[k] <= 1024,
                forall|k: int|
                    0 <= k < total ==> (#[trigger] mask@[k] <==> spec_bg_reachable(
                        pixels@,
                        w,
                        h,
                        k,
                    )),
                chars@.len() == y * width + x,
                colors@.len() == y * width + x,
                forall|k: int|
                    0 <= k < y * width + x ==> spec_converted_cell(
                        pixels@,
                        w,
                        h,
                        ramp@,
                        k,
                        #[trigger] chars@[k],
                        colors@[k],
                    ),
            decreases width - x,
        {
            proof {
                lemma_cell_index_in_range(x as int, y as int, w, h);
                lemma_fundamental_div_mod_converse(y * w + x, w, y as int, x as int);
            }
            let idx: usize = y * width + x;
            if mask[idx] {
                chars.push(' ');
                colors.push(Rgb { r: 0, g: 0, b: 0 });
            } else {
                let lc: u32 = lums[idx];
                let ll: u32 = if x > 0 {
                    lums[idx - 1]
                } else {
                    lc
                };
                let lr: u32 = if x + 1 < width {
                    proof {
                        lemma_cell_index_in_range(x + 1, y as int, w, h);
                    }
                    lums[idx + 1]
                } else {
                    lc
                };
                let lu: u32 = if y > 0 {
                    proof {
                        assert(idx >= width) by (nonlinear_arith)
                            requires
                                idx == y * width + x,
                                y >= 1,
                                x >= 0,
                                width >= 0,
                        ;
                    }
                    lums[idx - width]
                } else {
                    lc
                };
                let ld: u32 = if y + 1 < height {
                    proof {
                        lemma_cell_index_in_range(x as int, y + 1, w, h);
                        assert(idx + width == (y + 1) * width + x) by (nonlinear_arith)
                            requires
                                idx == y * width + x,
                        ;
                    }
                    lums[idx + width]
                } else {
                    lc
                };
                let d1: u32 = if lr >= ll {
                    lr - ll
                } else {
                    ll - lr
                };
                let d2: u32 = if ld >= lu {
                    ld - lu
                } else {
                    lu - ld
                };
                let edge: u32 = 7 * (d1 + d2) / 10;
                proof {
                    assert(edge == spec_cell_edge(pixels@, w, h, idx as int));
                }
                let light: u32 = light_factor(width, height, x, y);
                proof {
                    assert(0 <= lc as i64 * (light as i64) <= 1024 * 1229) by (nonlinear_arith)
                        requires
                            0 <= lc <= 1024,
                            0 <= light <= 1229,
                    ;
                }
                let raw: i64 = lc as i64 * light as i64 / 1024 - 45 * edge as i64 / 100;
                let shaded: u32 = if raw < 0 {
                    0
                } else if raw > 1024 {
                    1024
                } else {
                    raw as u32
                };
                proof {
                    assert(shaded == spec_cell_shaded(pixels@, w, h, idx as int));
                }
                let gi: usize = glyph_index(shaded, ramp.len());
                let shade_raw: u32 = 563 + 7 * shaded / 10;
                let shade: u32 = if shade_raw > 1178 {
                    1178
                } else {
                    shade_raw
                };
                proof {
                    assert(shade == spec_shade_mult(shaded as int));
                }
                let p = pixels[idx];
                let col = Rgb {
                    r: boost_channel(p.r, lc, shade),
                    g: boost_channel(p.g, lc, shade),
                    b: boost_channel(p.b, lc, shade),
                };
                chars.push(ramp[gi]);
                colors.push(col);
                proof {
                    assert(spec_converted_cell(
                        pixels@,
                        w,
                        h,
                        ramp@,
                        idx as int,
                        chars@[idx as int],
                        colors@[idx as int],
                    ));
                }
            }
            x = x + 1;
        }
        proof {
            assert((y + 1) * width == y * width + width) by (nonlinear_arith);
        }
        y = y + 1;
    }
    proof {
        assert(y * width == total) by (nonlinear_arith)
            requires
                y == height,
                total == width * height,
        ;
    }
    AsciiImage { width, height, chars, colors }
}

/// An image was faithfully converted from some decoded pixel grid: sizes
/// line up and every cell is the conversion of that grid's cell.
pub open spec fn spec_converted_image(
    px: Seq<Rgb>,
    w: int,
    h: int,
    ramp: Seq<char>,
    img: AsciiImage,
) -> bool {
    &&& px.len() == w * h
    &&& img.wf()
    &&& img.width == w
    &&& img.height == h
    &&& forall|i: int|
        0 <= i < w * h ==> spec_converted_cell(px, w, h, ramp, i, #[trigger] img.chars@[i],
        img.colors@[i])
}

/// Decodes an encoded still image and converts it to a glyph grid.
///
/// Succeeds exactly when the bytes decode (see [`decoded_rgb_of`]); the
/// result is then the glyph conversion of that decoded, resampled pixel
/// grid, cell for cell.
pub fn load_ascii_image(data: &Vec<u8>, width: usize, height: usize, ramp: &Vec<char>) -> (r:
    Option<AsciiImage>)
    requires
        2 <= width <= 4096,
        2 <= height <= 4096,
        2 <= ramp@.len() <= 0xFFFF_FFFF,
    ensures
        r is Some <==> decoded_rgb_of(data@, width as int, height as int) is Some,
        match r {
            Some(img) => spec_converted_image(
                decoded_rgb_of(data@, width as int, height as int).unwrap(),
                width as int,
                height as int,
                ramp@,
                img,
            ),
            None => true,
        },
{
    match decode_rgb_resized(data, width, height) {
        Some(pixels) => {
            let r: Option<AsciiImage> = Some(ascii_from_rgb(&pixels, width, height, ramp));
            proof {
                assert(pixels@ == decoded_rgb_of(data@, width as int, height as int).unwrap());
                assert(spec_converted_image(
                    pixels@,
                    width as int,
                    height as int,
                    ramp@,
                    r.unwrap(),
                ));
            }
            r
        },
        None => None,
    }
}

/// Decodes a looped animation and converts every frame to a glyph grid.
///
/// Succeeds exactly when the bytes decode (see [`decoded_gif_frames_of`]);
/// the result then holds one image per decoded frame, in source order,
/// each the glyph conversion of that frame's pixel grid - conversion is
/// all or nothing, never a shortened list.
pub fn load_ascii_animation(data: &Vec<u8>, width: usize, height: usize, ramp: &Vec<char>) -> (r:
    Option<Vec<AsciiImage>>)
    requires
        2 <= width <= 4096,
        2 <= height <= 4096,
        2 <= ramp@.len() <= 0xFFFF_FFFF,
    ensures
        r is Some <==> decoded_gif_frames_of(data@, width as int, height as int) is Some,
        match r {
            Some(v) => v@.len() == decoded_gif_frames_of(
                data@,
                width as int,
                height as int,
            ).unwrap().len() && forall|k: int|
                #![trigger v@[k]]
                0 <= k < v@.len() ==> spec_converted_image(
                    decoded_gif_frames_of(data@, width as int, height as int).unwrap()[k],
                    width as int,
                    height as int,
                    ramp@,
                    v@[k],
                ),
            None => true,
        },
{
    match decode_gif_frames_rgb_resized(data, width, height) {
        Some(frames) => {
            let ghost gframes = decoded_gif_frames_of(
                data@,
                width as int,
                height as int,
            ).unwrap();
            let mut out: Vec<AsciiImage> = Vec::new();
            let mut k: usize = 0;
            while k < frames.len()
                invariant
                    k <= frames@.len(),
                    2 <= width <= 4096,
                    2 <= height <= 4096,
                    2 <= ramp@.len() <= 0xFFFF_FFFF,
                    frames@.len() == gframes.len(),
                    forall|j: int|
                        0 <= j < frames@.len() ==> (#[trigger] frames@[j])@ == gframes[j]
                            && frames@[j]@.len() == width * height,
                    out@.len() == k,
                    forall|j: int|
                        #![trigger out@[j]]
                        0 <= j < k ==> spec_converted_image(
                            gframes[j],
                            width as int,
                            height as int,
                            ramp@,
                            out@[j],
                        ),
                decreases frames@.len() - k,
            {
                let ghost pre_out = out@;
                let img = ascii_from_rgb(&frames[k], width, height, ramp);
                out.push(img);
                proof {
                    assert(spec_converted_image(
                        gframes[k as int],
                        width as int,
                        height as int,
                        ramp@,
                        out@[k as int],
                    ));
                    assert forall|j: int|
                        #![trigger out@[j]]
                        0 <= j < k + 1 implies spec_converted_image(
                        gframes[j],
                        width as int,
                        height as int,
                        ramp@,
                        out@[j],
                    ) by {
                        if j < k {
                            assert(out@[j] == pre_out[j]);
                            assert(spec_converted_image(
                                gframes[j],
                                width as int,
                                height as int,
                                ramp@,
                                pre_out[j],
                            ));
                        }
                    }
                }
                k = k + 1;
            }
            Some(out)
        },
        None => None,
    }
}

} // verus!
