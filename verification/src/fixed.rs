use vstd::prelude::*;

verus! {

/// One whole unit in the fixed-point scale: values the scene treats as reals
/// in [0, 1] are carried as integers in [0, FP_ONE].
pub const FP_ONE: i32 = 1024;

/// A full turn, in centiradians (hundredths of a radian, 2*pi rounded).
pub const TURN_CR: i32 = 628;

/// Half a turn, in centiradians.
pub const HALF_TURN_CR: i32 = 314;

/// A quarter turn, in centiradians.
pub const QUARTER_TURN_CR: i32 = 157;

/// An angle reduced to one turn: the representative of `a` in [0, 628).
pub open spec fn spec_norm_cr(a: int) -> int {
    a % 628
}

/// The product t (pi - t) that the sine approximation is built from.
pub open spec fn spec_sin_arc(x: int) -> int {
    x * (314 - x)
}

/// Fixed-point sine on half a turn, by the rational approximation
/// sin(t) ~= 16 t (pi - t) / (5 pi^2 - 4 t (pi - t)) for t in [0, pi],
/// evaluated in centiradians with pi taken as 314.
pub open spec fn spec_sin_half(x: int) -> int {
    16 * spec_sin_arc(x) * 1024 / (492980 - 4 * spec_sin_arc(x))
}

/// Fixed-point sine of an angle in [0, 628) centiradians, in [-1024, 1024].
pub open spec fn spec_sin_cr(a: int) -> int {
    if a < 314 {
        spec_sin_half(a)
    } else {
        -spec_sin_half(a - 314)
    }
}

/// Fixed-point cosine of an angle in [0, 628) centiradians.
pub open spec fn spec_cos_cr(a: int) -> int {
    spec_sin_cr(spec_norm_cr(a + 157))
}

/// Reduces an angle in centiradians to [0, 628).
pub fn norm_cr(a: i32) -> (r: i32)
    ensures
        r == spec_norm_cr(a as int),
        0 <= r < 628,
{
    let m: i32 = a % 628;
    if m < 0 {
        m + 628
    } else {
        m
    }
}

/// Sine on the first half turn, in fixed point.
fn sin_half(x: i32) -> (r: i32)
    requires
        0 <= x <= 314,
    ensures
        r == spec_sin_half(x as int),
        0 <= r <= 1024,
{
    let d: i64 = 314 - x as i64;
    proof {
        assert(0 <= (x as i64) * d <= 24649) by (nonlinear_arith)
            requires
                0 <= x <= 314,
                d == 314 - x,
        ;
    }
    let p: i64 = (x as i64) * d;
    proof {
        assert(p == spec_sin_arc(x as int));
    }
    let num: i64 = 16 * p * 1024;
    let den: i64 = 492980 - 4 * p;
    let q: i64 = num / den;
    proof {
        assert(0 <= q <= 1024) by (nonlinear_arith)
            requires
                q == num / den,
                num == 16 * p * 1024,
                den == 492980 - 4 * p,
                0 <= p <= 24649,
        ;
    }
    q as i32
}

/// Fixed-point sine of a normalized angle in centiradians.
pub fn sin_cr(a: i32) -> (r: i32)
    requires
        0 <= a < 628,
    ensures
        r == spec_sin_cr(a as int),
        -1024 <= r <= 1024,
{
    if a < 314 {
        sin_half(a)
    } else {
        -sin_half(a - 314)
    }
}

/// Fixed-point cosine of a normalized angle in centiradians.
pub fn cos_cr(a: i32) -> (r: i32)
    requires
        0 <= a < 628,
    ensures
        r == spec_cos_cr(a as int),
        -1024 <= r <= 1024,
{
    let b: i32 = if a + 157 >= 628 {
        a + 157 - 628
    } else {
        a + 157
    };
    proof {
        assert(b == spec_norm_cr(a + 157));
    }
    sin_cr(b)
}

} // verus!
