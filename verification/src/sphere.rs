use vstd::prelude::*;

use vstd::arithmetic::div_mod::lemma_fundamental_div_mod;
use vstd::arithmetic::div_mod::lemma_fundamental_div_mod_converse;

use crate::color::CellColor;
use crate::fixed::sin_cr;
use crate::fixed::cos_cr;
use crate::fixed::spec_sin_cr;
use crate::fixed::spec_cos_cr;
use crate::framebuffer::FrameBuffer;
use crate::framebuffer::frame_evolves;
use crate::framebuffer::lemma_cell_index_in_range;
use crate::framebuffer::lemma_frame_evolves_trans;

verus! {

/// Normalized light direction, fixed point: (-0.6, 0.4, -1.0) scaled to
/// unit length.
pub const LIGHT_X: i64 = -498;

/// Vertical component of the light direction.
pub const LIGHT_Y: i64 = 332;

/// Depth component of the light direction.
pub const LIGHT_Z: i64 = -831;

/// Floor division by a positive divisor, matching the `/` of
/// specifications on negative numerators as well.
pub fn div_floor(a: i64, d: i64) -> (q: i64)
    requires
        1 <= d <= 0x1000_0000,
        -0x1000_0000_0000_0000 < a < 0x1000_0000_0000_0000,
    ensures
        q == a as int / d as int,
{
    if a >= 0 {
        a / d
    } else {
        let neg = (-a + (d - 1)) / d;
        proof {
            lemma_fundamental_div_mod(a as int, d as int);
            let q0 = a as int / d as int;
            let r0 = a as int % d as int;
            assert(-a + (d - 1) == (-q0) * d + (d - 1 - r0)) by (nonlinear_arith)
                requires
                    a == d * q0 + r0,
            ;
            lemma_fundamental_div_mod_converse(-a + (d - 1), d as int, -q0, d - 1 - r0);
            assert(neg == -q0);
            assert(-q0 < 0x1000_0000_0000_0000) by (nonlinear_arith)
                requires
                    a == d * q0 + r0,
                    0 <= r0 < d,
                    a > -0x1000_0000_0000_0000,
                    d >= 1,
            ;
        }
        -neg
    }
}

/// Fixed-point product: `a * b` scaled back down by one unit.
pub open spec fn spec_fpmul(a: int, b: int) -> int {
    a * b / 1024
}

/// Fixed-point multiply.
pub fn fpmul(a: i64, b: i64) -> (r: i64)
    requires
        -1000000 <= a <= 1000000,
        -1000000 <= b <= 1000000,
    ensures
        r == spec_fpmul(a as int, b as int),
{
    proof {
        assert(-0x1000_0000_0000_0000 < a * b < 0x1000_0000_0000_0000) by (nonlinear_arith)
            requires
                -1000000 <= a <= 1000000,
                -1000000 <= b <= 1000000,
        ;
    }
    div_floor(a * b, 1024)
}

/// The texture of the ball's surface at an object-space point: the button
/// face and its rim, the seam band, and the red and white halves. Solid
/// glyphs bypass lighting.
pub open spec fn spec_texture(ox: int, oy: int, oz: int) -> (char, u8, bool) {
    let d = ox * ox + oy * oy + (oz - 1024) * (oz - 1024);
    if d < 125829 {
        ('@', 97u8, true)
    } else if d < 188744 {
        ('#', 30u8, true)
    } else if -61 < oy < 61 {
        ('#', 30u8, true)
    } else if oy > 0 {
        ('.', 91u8, false)
    } else {
        ('.', 97u8, false)
    }
}

/// Classifies one surface sample: glyph, ANSI color code, and whether the
/// glyph is solid (drawn without lighting).
pub fn texture_at(ox: i64, oy: i64, oz: i64) -> (t: (char, u8, bool))
    requires
        -2048 <= ox <= 2048,
        -2048 <= oy <= 2048,
        -2048 <= oz <= 2048,
    ensures
        t == spec_texture(ox as int, oy as int, oz as int),
{
    proof {
        assert(0 <= ox * ox <= 2048 * 2048) by (nonlinear_arith)
            requires
                -2048 <= ox <= 2048,
        ;
        assert(0 <= oy * oy <= 2048 * 2048) by (nonlinear_arith)
            requires
                -2048 <= oy <= 2048,
        ;
        assert(0 <= (oz - 1024) * (oz - 1024) <= 3072 * 3072) by (nonlinear_arith)
            requires
                -2048 <= oz <= 2048,
        ;
    }
    let d: i64 = ox * ox + oy * oy + (oz - 1024) * (oz - 1024);
    if d < 125829 {
        ('@', 97, true)
    } else if d < 188744 {
        ('#', 30, true)
    } else if -61 < oy && oy < 61 {
        ('#', 30, true)
    } else if oy > 0 {
        ('.', 91, false)
    } else {
        ('.', 97, false)
    }
}

/// Diffuse-plus-specular shade of a lit sample, in [0, 1024].
///
/// `sum` is the dot product of the rotated position with the light
/// direction at double scale; the specular base is the reflected-light
/// term clamped to [0, 3], raised to the 16th power by four squarings.
pub open spec fn spec_sphere_shade(xf: int, yf: int, zf: int) -> int {
    let sum = xf * LIGHT_X + yf * LIGHT_Y + zf * LIGHT_Z;
    let diffuse = if sum <= 0 {
        0
    } else {
        sum / 1024
    };
    let m = -2 * sum * zf;
    let base0 = if m <= 0 {
        0
    } else {
        m / 1048576 - 831
    };
    let base = if base0 < 0 {
        0
    } else if base0 > 3072 {
        3072
    } else {
        base0
    };
    let s1 = base * base / 1024;
    let s2 = s1 * s1 / 1024;
    let s3 = s2 * s2 / 1024;
    let s4 = s3 * s3 / 1024;
    let raw = 123 + diffuse * 921 / 1024 + s4 * 614 / 1024;
    if raw > 1024 {
        1024
    } else {
        raw
    }
}

/// Shade of one lit sample.
pub fn sphere_shade(xf: i64, yf: i64, zf: i64) -> (shade: i64)
    requires
        -4200 <= xf <= 4200,
        -4200 <= yf <= 4200,
        -4200 <= zf <= 4200,
    ensures
        shade == spec_sphere_shade(xf as int, yf as int, zf as int),
        0 <= shade <= 1024,
{
    proof {
        assert(-2100000 <= xf * LIGHT_X <= 2100000) by (nonlinear_arith)
            requires
                -4200 <= xf <= 4200,
        ;
        assert(-2100000 <= yf * LIGHT_Y <= 2100000) by (nonlinear_arith)
            requires
                -4200 <= yf <= 4200,
        ;
        assert(-4200000 <= zf * LIGHT_Z <= 4200000) by (nonlinear_arith)
            requires
                -4200 <= zf <= 4200,
        ;
    }
    let sum: i64 = xf * LIGHT_X + yf * LIGHT_Y + zf * LIGHT_Z;
    proof {
        assert(-8400000 <= sum <= 8400000);
    }
    let diffuse: i64 = if sum <= 0 {
        0
    } else {
        sum / 1024
    };
    proof {
        assert(-0x1000_0000_0000 <= -2 * sum * zf <= 0x1000_0000_0000) by (nonlinear_arith)
            requires
                -8400000 <= sum <= 8400000,
                -4200 <= zf <= 4200,
        ;
    }
    let m: i64 = -2 * sum * zf;
    let base0: i64 = if m <= 0 {
        0
    } else {
        m / 1048576 - 831
    };
    let base: i64 = if base0 < 0 {
        0
    } else if base0 > 3072 {
        3072
    } else {
        base0
    };
    proof {
        assert(0 <= base * base <= 3072 * 3072) by (nonlinear_arith)
            requires
                0 <= base <= 3072,
        ;
    }
    let s1: i64 = base * base / 1024;
    proof {
        assert(0 <= s1 * s1 <= 9216 * 9216) by (nonlinear_arith)
            requires
                0 <= s1 <= 9216,
        ;
    }
    let s2: i64 = s1 * s1 / 1024;
    proof {
        assert(0 <= s2 * s2 <= 82944 * 82944) by (nonlinear_arith)
            requires
                0 <= s2 <= 82944,
        ;
    }
    let s3: i64 = s2 * s2 / 1024;
    proof {
        assert(0 <= s3 * s3 <= 6718464 * 6718464) by (nonlinear_arith)
            requires
                0 <= s3 <= 6718464,
        ;
    }
    let s4: i64 = s3 * s3 / 1024;
    proof {
        assert(0 <= diffuse * 921 <= 8400000 * 921) by (nonlinear_arith)
            requires
                0 <= diffuse <= 8400000,
        ;
        assert(0 <= s4 * 614 <= 44079842304 * 614) by (nonlinear_arith)
            requires
                0 <= s4 <= 44079842304,
        ;
    }
    let raw: i64 = 123 + diffuse * 921 / 1024 + s4 * 614 / 1024;
    if raw > 1024 {
        1024
    } else {
        raw
    }
}

/// Ramp index a lit shade selects: floor of shade scaled over the ramp.
pub open spec fn spec_shade_glyph_index(shade: int, n: int) -> int {
    shade * (n - 1) / 1024
}

/// Glyph a lit shade selects from the ramp.
pub fn glyph_for_shade(shade: i64, ramp: &Vec<char>) -> (ch: char)
    requires
        0 <= shade <= 1024,
        2 <= ramp@.len() <= 0xFFFF_FFFF,
    ensures
        ch == ramp@[spec_shade_glyph_index(shade as int, ramp@.len() as int)],
{
    let n: u64 = ramp.len() as u64;
    proof {
        assert(0 <= shade * (n - 1) <= 1024 * 0xFFFF_FFFFi64) by (nonlinear_arith)
            requires
                0 <= shade <= 1024,
                1 <= n - 1 <= 0xFFFF_FFFF,
        ;
    }
    let q: i64 = shade * (n as i64 - 1) / 1024;
    proof {
        assert(q < n) by (nonlinear_arith)
            requires
                q == shade * (n - 1) / 1024,
                0 <= shade <= 1024,
                2 <= n,
        ;
    }
    ramp[q as usize]
}

/// The three cell planes of a frame buffer, as one ghost value, so that a
/// whole drawing pass can be stated as a function from planes to planes.
pub struct FrameCells {
    /// Glyph per cell.
    pub glyphs: Seq<char>,
    /// Depth per cell.
    pub depths: Seq<i32>,
    /// Color per cell.
    pub colors: Seq<CellColor>,
}

/// The cell planes a buffer currently holds.
pub open spec fn spec_cells_of(fb: FrameBuffer) -> FrameCells {
    FrameCells { glyphs: fb.glyphs@, depths: fb.depths@, colors: fb.colors@ }
}

/// The tilt angle for a tilt phase: 0.25 + 0.1 sin(phase), in
/// centiradians and fixed point.
pub open spec fn spec_tilt_angle(tilt_phase: int) -> int {
    25 + (10 * (spec_sin_cr(tilt_phase) + 1024) / 1024 - 10)
}

/// The cell planes after the sample with index `s` of the sphere pass:
/// the sample's longitude is its quotient on the 105-step latitude grid.
/// The sample is textured in object space, optionally skipped or lifted
/// while the ball is open, spun, tilted, projected with perspective
/// division, lit unless solid, and written through the depth test; a
/// sample that is skipped, falls outside the frame or loses the depth
/// test leaves the planes unchanged.
pub open spec fn spec_sphere_sample(
    c: FrameCells,
    w: int,
    h: int,
    ramp: Seq<char>,
    spin: int,
    tilt_phase: int,
    ball_x: int,
    ball_y: int,
    open: int,
    s: int,
) -> FrameCells {
    let theta = 3 * (s % 105);
    let phi = 3 * (s / 105);
    let st = spec_sin_cr(theta);
    let ox = spec_fpmul(st, spec_cos_cr(phi));
    let oy0 = spec_cos_cr(theta);
    let oz = spec_fpmul(st, spec_sin_cr(phi));
    if open > 0 && -61 < oy0 < 61 {
        c
    } else {
        let t = spec_texture(ox, oy0, oz);
        let oy = if open > 0 && oy0 >= 61 {
            oy0 + open / 4
        } else {
            oy0
        };
        let ca = spec_cos_cr(spin);
        let sa = spec_sin_cr(spin);
        let cb = spec_cos_cr(spec_tilt_angle(tilt_phase));
        let sb = spec_sin_cr(spec_tilt_angle(tilt_phase));
        let xf = spec_fpmul(ox, ca) - spec_fpmul(oy, sa);
        let yr = spec_fpmul(ox, sa) + spec_fpmul(oy, ca);
        let yf = spec_fpmul(yr, cb) - spec_fpmul(oz, sb);
        let zf = spec_fpmul(yr, sb) + spec_fpmul(oz, cb);
        let denom = zf + 3072;
        if denom < 512 {
            c
        } else {
            let ooz = 1048576int / denom;
            let xp = w / 2 + ball_x / 10 + 45 * ooz * xf / 1048576;
            let yp = h / 2 + ball_y / 10 + 18 * ooz * yf / 1048576;
            if 0 <= xp < w && 0 <= yp < h {
                let idx = yp * w + xp;
                if ooz > c.depths[idx] {
                    let glyph = if t.2 {
                        t.0
                    } else {
                        ramp[spec_shade_glyph_index(
                            spec_sphere_shade(xf, yf, zf),
                            ramp.len() as int,
                        )]
                    };
                    FrameCells {
                        glyphs: c.glyphs.update(idx, glyph),
                        depths: c.depths.update(idx, ooz as i32),
                        colors: c.colors.update(idx, CellColor::Named(t.1)),
                    }
                } else {
                    c
                }
            } else {
                c
            }
        }
    }
}

/// The cell planes after the first `upto` samples of the sphere pass.
pub open spec fn spec_sphere_pass(
    c: FrameCells,
    w: int,
    h: int,
    ramp: Seq<char>,
    spin: int,
    tilt_phase: int,
    ball_x: int,
    ball_y: int,
    open: int,
    upto: int,
) -> FrameCells
    decreases upto,
{
    if upto <= 0 {
        c
    } else {
        spec_sphere_sample(
            spec_sphere_pass(c, w, h, ramp, spin, tilt_phase, ball_x, ball_y, open, upto - 1),
            w,
            h,
            ramp,
            spin,
            tilt_phase,
            ball_x,
            ball_y,
            open,
            upto - 1,
        )
    }
}

/// Rasterizes the ball into the frame buffer.
///
/// The buffer's planes afterward are exactly the sphere pass applied to
/// the planes before: all 210 x 105 samples of the fixed angular grid, in
/// order, each textured, spun, tilted, displaced while open, projected,
/// lit unless solid, and written through the depth test (see
/// [`spec_sphere_sample`]). The buffer only ever deepens, and every cell
/// the ball touched holds a reciprocal depth in (0, 2048].
#[verifier::rlimit(100)]
#[verifier::spinoff_prover]
pub fn rasterize_sphere(
    fb: &mut FrameBuffer,
    ramp: &Vec<char>,
    spin: i32,
    tilt_phase: i32,
    ball_x: i32,
    ball_y: i32,
    open_amount: i32,
)
    requires
        old(fb).wf(),
        0 <= spin < 628,
        0 <= tilt_phase < 628,
        -500 <= ball_x <= 500,
        0 <= ball_y <= 100,
        0 <= open_amount <= 1024,
        old(fb).width <= 4096,
        old(fb).height <= 4096,
        2 <= ramp@.len() <= 0xFFFF_FFFF,
    ensures
        final(fb).wf(),
        final(fb).width == old(fb).width,
        final(fb).height == old(fb).height,
        frame_evolves(*old(fb), *final(fb)),
        spec_cells_of(*final(fb)) == spec_sphere_pass(
            spec_cells_of(*old(fb)),
            old(fb).width as int,
            old(fb).height as int,
            ramp@,
            spin as int,
            tilt_phase as int,
            ball_x as int,
            ball_y as int,
            open_amount as int,
            22050,
        ),
        forall|i: int|
            0 <= i < final(fb).depths@.len() && final(fb).depths@[i] != old(fb).depths@[i]
                ==> 0 < #[trigger] final(fb).depths@[i] <= 2048,
{
    let ghost fb0 = *fb;
    let ghost w_ = fb0.width as int;
    let ghost h_ = fb0.height as int;
    let ca: i64 = cos_cr(spin) as i64;
    let sa: i64 = sin_cr(spin) as i64;
    let tilt_mod: i32 = sin_cr(tilt_phase);
    // tilt angle 0.25 + 0.1 * sin(tilt_phase), in centiradians
    let tilt_cr: i32 = 25 + (10 * (tilt_mod + 1024) / 1024 - 10);
    let cb: i64 = cos_cr(tilt_cr) as i64;
    let sb: i64 = sin_cr(tilt_cr) as i64;
    proof {
        assert(tilt_cr == spec_tilt_angle(tilt_phase as int));
    }

    let mut pi: usize = 0;
    while pi < 210
        invariant
            fb.wf(),
            fb.width == fb0.width,
            fb.height == fb0.height,
            fb0.wf(),
            w_ == fb0.width as int,
            h_ == fb0.height as int,
            fb0.width <= 4096,
            fb0.height <= 4096,
            frame_evolves(fb0, *fb),
            forall|i: int|
                0 <= i < fb.depths@.len() && fb.depths@[i] != fb0.depths@[i] ==> 0
                    < #[trigger] fb.depths@[i] <= 2048,
            pi <= 210,
            spec_cells_of(*fb) == spec_sphere_pass(
                spec_cells_of(fb0),
                w_,
                h_,
                ramp@,
                spin as int,
                tilt_phase as int,
                ball_x as int,
                ball_y as int,
                open_amount as int,
                105 * (pi as int),
            ),
            2 <= ramp@.len() <= 0xFFFF_FFFF,
            ca == spec_cos_cr(spin as int),
            sa == spec_sin_cr(spin as int),
            cb == spec_cos_cr(spec_tilt_angle(tilt_phase as int)),
            sb == spec_sin_cr(spec_tilt_angle(tilt_phase as int)),
            -1024 <= ca <= 1024,
            -1024 <= sa <= 1024,
            -1024 <= cb <= 1024,
            -1024 <= sb <= 1024,
            -500 <= ball_x <= 500,
            0 <= ball_y <= 100,
            0 <= open_amount <= 1024,
        decreases 210 - pi,
    {
        let phi: i32 = 3 * pi as i32;
        let sphi: i64 = sin_cr(phi) as i64;
        let cphi: i64 = cos_cr(phi) as i64;
        let mut ti: usize = 0;
        while ti < 105
            invariant
                fb.wf(),
                fb.width == fb0.width,
                fb.height == fb0.height,
                fb0.wf(),
                w_ == fb0.width as int,
                h_ == fb0.height as int,
                fb0.width <= 4096,
                fb0.height <= 4096,
                frame_evolves(fb0, *fb),
                forall|i: int|
                    0 <= i < fb.depths@.len() && fb.depths@[i] != fb0.depths@[i] ==> 0
                        < #[trigger] fb.depths@[i] <= 2048,
                pi < 210,
                ti <= 105,
                spec_cells_of(*fb) == spec_sphere_pass(
                    spec_cells_of(fb0),
                    w_,
                    h_,
                    ramp@,
                    spin as int,
                    tilt_phase as int,
                    ball_x as int,
                    ball_y as int,
                    open_amount as int,
                    105 * (pi as int) + ti as int,
                ),
                2 <= ramp@.len() <= 0xFFFF_FFFF,
                ca == spec_cos_cr(spin as int),
                sa == spec_sin_cr(spin as int),
                cb == spec_cos_cr(spec_tilt_angle(tilt_phase as int)),
                sb == spec_sin_cr(spec_tilt_angle(tilt_phase as int)),
                phi == 3 * pi as int,
                sphi == spec_sin_cr(3 * (pi as int)),
                cphi == spec_cos_cr(3 * (pi as int)),
                -1024 <= ca <= 1024,
                -1024 <= sa <= 1024,
                -1024 <= cb <= 1024,
                -1024 <= sb <= 1024,
                -1024 <= sphi <= 1024,
                -1024 <= cphi <= 1024,
                -500 <= ball_x <= 500,
                0 <= ball_y <= 100,
                0 <= open_amount <= 1024,
            decreases 105 - ti,
        {
            let ghost s: int = 105 * (pi as int) + ti as int;
            let ghost cpre = spec_cells_of(*fb);
            proof {
                lemma_fundamental_div_mod_converse(s, 105, pi as int, ti as int);
            }
            let theta: i32 = 3 * ti as i32;
            let st: i64 = sin_cr(theta) as i64;
            let ct: i64 = cos_cr(theta) as i64;

            let ox: i64 = fpmul(st, cphi);
            let oy0: i64 = ct;
            let oz: i64 = fpmul(st, sphi);
            proof {
                assert(-1025 <= st * cphi / 1024 <= 1024) by (nonlinear_arith)
                    requires
                        -1024 <= st <= 1024,
                        -1024 <= cphi <= 1024,
                ;
                assert(-1025 <= st * sphi / 1024 <= 1024) by (nonlinear_arith)
                    requires
                        -1024 <= st <= 1024,
                        -1024 <= sphi <= 1024,
                ;
            }

            // hinge gap: while the ball is open, the seam band is skipped
            let in_band: bool = -61 < oy0 && oy0 < 61;
            if !(open_amount > 0 && in_band) {
                let (glyph, color_code, solid) = texture_at(ox, oy0, oz);

                // open displacement: the upper hemisphere lifts away
                let oy: i64 = if open_amount > 0 && oy0 >= 61 {
                    oy0 + (open_amount as i64) / 4
                } else {
                    oy0
                };

                let t1: i64 = fpmul(ox, ca);
                let t2: i64 = fpmul(oy, sa);
                let t3: i64 = fpmul(ox, sa);
                let t4: i64 = fpmul(oy, ca);
                proof {
                    assert(-1300 <= ox * ca / 1024 <= 1300) by (nonlinear_arith)
                        requires
                            -1025 <= ox <= 1025,
                            -1024 <= ca <= 1024,
                    ;
                    assert(-1300 <= oy * sa / 1024 <= 1300) by (nonlinear_arith)
                        requires
                            -1281 <= oy <= 1281,
                            -1024 <= sa <= 1024,
                    ;
                    assert(-1300 <= ox * sa / 1024 <= 1300) by (nonlinear_arith)
                        requires
                            -1025 <= ox <= 1025,
                            -1024 <= sa <= 1024,
                    ;
                    assert(-1300 <= oy * ca / 1024 <= 1300) by (nonlinear_arith)
                        requires
                            -1281 <= oy <= 1281,
                            -1024 <= ca <= 1024,
                    ;
                }
                let xr: i64 = t1 - t2;
                let yr: i64 = t3 + t4;
                let t5: i64 = fpmul(yr, cb);
                let t6: i64 = fpmul(oz, sb);
                let t7: i64 = fpmul(yr, sb);
                let t8: i64 = fpmul(oz, cb);
                proof {
                    assert(-2700 <= yr * cb / 1024 <= 2700) by (nonlinear_arith)
                        requires
                            -2600 <= yr <= 2600,
                            -1024 <= cb <= 1024,
                    ;
                    assert(-1100 <= oz * sb / 1024 <= 1100) by (nonlinear_arith)
                        requires
                            -1025 <= oz <= 1024,
                            -1024 <= sb <= 1024,
                    ;
                    assert(-2700 <= yr * sb / 1024 <= 2700) by (nonlinear_arith)
                        requires
                            -2600 <= yr <= 2600,
                            -1024 <= sb <= 1024,
                    ;
                    assert(-1100 <= oz * cb / 1024 <= 1100) by (nonlinear_arith)
                        requires
                            -1025 <= oz <= 1024,
                            -1024 <= cb <= 1024,
                    ;
                }
                let yf: i64 = t5 - t6;
                let zf: i64 = t7 + t8;
                let xf: i64 = xr;

                // perspective: reciprocal depth, guarded away from the pole
                let denom: i64 = zf + 3072;
                if denom >= 512 {
                    let ooz: i64 = 1048576 / denom;
                    proof {
                        assert(0 <= ooz <= 2048) by (nonlinear_arith)
                            requires
                                ooz == 1048576 as int / denom as int,
                                512 <= denom,
                        ;
                        assert({
                            &&& -0x1000_0000_0000 < 45 * ooz * xf < 0x1000_0000_0000
                            &&& -0x1000_0000_0000 < 18 * ooz * yf < 0x1000_0000_0000
                            &&& -0x1000_0000 < 45 * ooz < 0x1000_0000
                            &&& -0x1000_0000 < 18 * ooz < 0x1000_0000
                        }) by (nonlinear_arith)
                            requires
                                0 <= ooz <= 2048,
                                -3900 <= xf <= 3900,
                                -3900 <= yf <= 3900,
                        ;
                    }
                    let px: i64 = 45 * ooz * xf;
                    let py: i64 = 18 * ooz * yf;
                    let xp: i64 = fb.width as i64 / 2 + div_floor(ball_x as i64, 10)
                        + div_floor(px, 1048576);
                    let yp: i64 = fb.height as i64 / 2 + div_floor(ball_y as i64, 10)
                        + div_floor(py, 1048576);
                    if 0 <= xp && xp < fb.width as i64 && 0 <= yp && yp < fb.height as i64 {
                        let cell_glyph: char = if solid {
                            glyph
                        } else {
                            let shade = sphere_shade(xf, yf, zf);
                            glyph_for_shade(shade, ramp)
                        };
                        let ghost pre = *fb;
                        proof {
                            assert(0 < ooz <= 2048) by (nonlinear_arith)
                                requires
                                    ooz == 1048576 as int / denom as int,
                                    512 <= denom <= 7000,
                            ;
                        }
                        let ghost tgt = pre.cell_index((xp as usize) as int, (yp as usize) as int);
                        fb.write_cell(
                            xp as usize,
                            yp as usize,
                            ooz as i32,
                            cell_glyph,
                            CellColor::Named(color_code),
                        );
                        proof {
                            lemma_frame_evolves_trans(fb0, pre, *fb);
                            lemma_cell_index_in_range(
                                (xp as usize) as int,
                                (yp as usize) as int,
                                pre.width as int,
                                pre.height as int,
                            );
                            assert(0 <= tgt < pre.depths@.len());
                            assert forall|i: int|
                                0 <= i < fb.depths@.len() && fb.depths@[i] != fb0.depths@[i]
                                implies 0 < #[trigger] fb.depths@[i] <= 2048 by {
                                if fb.depths@[i] != pre.depths@[i] {
                                    assert(fb.depths@ == pre.depths@.update(tgt, ooz as i32));
                                    if i != tgt {
                                        assert(pre.depths@.update(tgt, ooz as i32)[i]
                                            == pre.depths@[i]);
                                    }
                                    assert(fb.depths@[i] == ooz as i32);
                                }
                            }
                            assert(spec_cells_of(*fb) == spec_sphere_sample(
                                cpre,
                                w_,
                                h_,
                                ramp@,
                                spin as int,
                                tilt_phase as int,
                                ball_x as int,
                                ball_y as int,
                                open_amount as int,
                                s,
                            ));
                        }
                    } else {
                        proof {
                            assert(spec_cells_of(*fb) == spec_sphere_sample(
                                cpre,
                                w_,
                                h_,
                                ramp@,
                                spin as int,
                                tilt_phase as int,
                                ball_x as int,
                                ball_y as int,
                                open_amount as int,
                                s,
                            ));
                        }
                    }
                } else {
                    proof {
                        assert(spec_cells_of(*fb) == spec_sphere_sample(
                            cpre,
                            w_,
                            h_,
                            ramp@,
                            spin as int,
                            tilt_phase as int,
                            ball_x as int,
                            ball_y as int,
                            open_amount as int,
                            s,
                        ));
                    }
                }
            } else {
                proof {
                    assert(spec_cells_of(*fb) == spec_sphere_sample(
                        cpre,
                        w_,
                        h_,
                        ramp@,
                        spin as int,
                        tilt_phase as int,
                        ball_x as int,
                        ball_y as int,
                        open_amount as int,
                        s,
                    ));
                }
            }
            proof {
                assert(spec_sphere_pass(
                    spec_cells_of(fb0),
                    w_,
                    h_,
                    ramp@,
                    spin as int,
                    tilt_phase as int,
                    ball_x as int,
                    ball_y as int,
                    open_amount as int,
                    s + 1,
                ) == spec_sphere_sample(
                    cpre,
                    w_,
                    h_,
                    ramp@,
                    spin as int,
                    tilt_phase as int,
                    ball_x as int,
                    ball_y as int,
                    open_amount as int,
                    s,
                ));
            }
            ti = ti + 1;
        }
        pi = pi + 1;
    }
}

} // verus!
