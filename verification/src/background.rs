use vstd::prelude::*;

use vstd::arithmetic::div_mod::lemma_fundamental_div_mod;
use vstd::arithmetic::div_mod::lemma_fundamental_div_mod_converse;

use crate::color::Rgb;

verus! {

/// Channel-wise tolerance against the corner mean inside which a pixel
/// counts as background.
pub const BG_THRESHOLD: i32 = 18;

/// Absolute value of an integer.
pub open spec fn spec_abs(x: int) -> int {
    if x < 0 {
        -x
    } else {
        x
    }
}

/// Channel-wise mean of the four corner pixels, the reference background
/// color of an image.
pub open spec fn spec_corner_mean(pixels: Seq<Rgb>, w: int, h: int) -> (int, int, int) {
    (
        (pixels[0].r + pixels[w - 1].r + pixels[(h - 1) * w].r + pixels[h * w - 1].r) / 4,
        (pixels[0].g + pixels[w - 1].g + pixels[(h - 1) * w].g + pixels[h * w - 1].g) / 4,
        (pixels[0].b + pixels[w - 1].b + pixels[(h - 1) * w].b + pixels[h * w - 1].b) / 4,
    )
}

/// A pixel is background-similar when every channel lies within
/// [`BG_THRESHOLD`] of the corner mean.
pub open spec fn spec_bg_similar(pixels: Seq<Rgb>, w: int, h: int, i: int) -> bool {
    let bg = spec_corner_mean(pixels, w, h);
    &&& spec_abs(pixels[i].r - bg.0) <= 18
    &&& spec_abs(pixels[i].g - bg.1) <= 18
    &&& spec_abs(pixels[i].b - bg.2) <= 18
}

/// The cell at row-major index `i` touches the image border.
pub open spec fn spec_is_border(w: int, h: int, i: int) -> bool {
    i % w == 0 || i % w == w - 1 || i / w == 0 || i / w == h - 1
}

/// Two row-major indices are 4-neighbors of one another.
pub open spec fn spec_adjacent(w: int, i: int, j: int) -> bool {
    ||| (i / w == j / w && (j == i + 1 || i == j + 1))
    ||| j == i + w
    ||| i == j + w
}

/// A chain of background-similar cells that starts on the border and steps
/// through 4-neighbors.
pub open spec fn spec_is_bg_path(pixels: Seq<Rgb>, w: int, h: int, p: Seq<int>) -> bool {
    &&& p.len() >= 1
    &&& spec_is_border(w, h, p[0])
    &&& forall|k: int|
        0 <= k < p.len() ==> 0 <= #[trigger] p[k] < w * h && spec_bg_similar(pixels, w, h, p[k])
    &&& forall|k: int| 1 <= k < p.len() ==> spec_adjacent(w, p[k - 1], #[trigger] p[k])
}

/// A cell is background exactly when some background path ends on it.
pub open spec fn spec_bg_reachable(pixels: Seq<Rgb>, w: int, h: int, i: int) -> bool {
    exists|p: Seq<int>| spec_is_bg_path(pixels, w, h, p) && p.last() == i
}

/// A background-reachable cell is itself background-similar and in range:
/// a speckle whose color is off the corner mean stays foreground no matter
/// what surrounds it.
pub proof fn lemma_bg_reachable_similar(pixels: Seq<Rgb>, w: int, h: int, i: int)
    requires
        spec_bg_reachable(pixels, w, h, i),
    ensures
        0 <= i < w * h,
        spec_bg_similar(pixels, w, h, i),
{
    let p = choose|p: Seq<int>| spec_is_bg_path(pixels, w, h, p) && p.last() == i;
    assert(p[p.len() - 1] == i);
}

/// A border cell that is background-similar is reachable by the one-cell
/// path.
proof fn lemma_reach_border(pixels: Seq<Rgb>, w: int, h: int, e: int)
    requires
        0 <= e < w * h,
        spec_is_border(w, h, e),
        spec_bg_similar(pixels, w, h, e),
    ensures
        spec_bg_reachable(pixels, w, h, e),
{
    let p: Seq<int> = seq![e];
    assert(spec_is_bg_path(pixels, w, h, p));
    assert(p.last() == e);
}

/// Reachability extends across one 4-neighbor step onto a similar cell.
proof fn lemma_reach_extend(pixels: Seq<Rgb>, w: int, h: int, j: int, e: int)
    requires
        spec_bg_reachable(pixels, w, h, j),
        spec_adjacent(w, j, e),
        0 <= e < w * h,
        spec_bg_similar(pixels, w, h, e),
    ensures
        spec_bg_reachable(pixels, w, h, e),
{
    let p = choose|p: Seq<int>| spec_is_bg_path(pixels, w, h, p) && p.last() == j;
    let q = p.push(e);
    assert(q[0] == p[0]);
    assert forall|k: int| 0 <= k < q.len() implies 0 <= #[trigger] q[k] < w * h
        && spec_bg_similar(pixels, w, h, q[k]) by {
        if k < p.len() {
            assert(q[k] == p[k]);
        }
    }
    assert forall|k: int| 1 <= k < q.len() implies spec_adjacent(w, q[k - 1], #[trigger] q[k]) by {
        if k < p.len() {
            assert(q[k] == p[k] && q[k - 1] == p[k - 1]);
        } else {
            assert(q[k - 1] == p[p.len() - 1] && q[k] == e);
        }
    }
    assert(spec_is_bg_path(pixels, w, h, q));
    assert(q.last() == e);
}

/// Number of `false` entries in a sequence, the flood fill's fuel.
pub open spec fn count_false(s: Seq<bool>) -> nat
    decreases s.len(),
{
    if s.len() == 0 {
        0
    } else {
        (if !s.last() {
            1nat
        } else {
            0nat
        }) + count_false(s.drop_last())
    }
}

/// Marking a `false` entry `true` strictly lowers the fuel.
proof fn lemma_count_false_update(s: Seq<bool>, i: int)
    requires
        0 <= i < s.len(),
        !s[i],
    ensures
        count_false(s.update(i, true)) < count_false(s),
    decreases s.len(),
{
    let su = s.update(i, true);
    if i == s.len() - 1 {
        assert(su.drop_last() =~= s.drop_last());
    } else {
        assert(su.drop_last() =~= s.drop_last().update(i, true));
        assert(su.last() == s.last());
        lemma_count_false_update(s.drop_last(), i);
    }
}

/// Some entry of the sequence equals `c`.
pub open spec fn in_seq(s: Seq<usize>, c: int) -> bool {
    exists|k: int| 0 <= k < s.len() && s[k] == c
}

/// Pushing never removes an entry.
proof fn lemma_in_seq_push(s: Seq<usize>, v: usize, c: int)
    requires
        in_seq(s, c),
    ensures
        in_seq(s.push(v), c),
{
    let k = choose|k: int| 0 <= k < s.len() && s[k] == c;
    assert(s.push(v)[k] == c);
}

/// The flood-filled background mask of a raster image.
///
/// Every border cell is seeded; a cell becomes background when a chain of
/// 4-neighbor steps through background-similar cells connects it to the
/// border. The result is exact: a cell is marked if and only if it is
/// background-reachable, so an interior speckle that is not connected to the
/// border stays foreground even if its color matches the background.
#[verifier::rlimit(60)]
pub fn background_mask(pixels: &Vec<Rgb>, width: usize, height: usize) -> (mask: Vec<bool>)
    requires
        pixels@.len() == width * height,
        width >= 1,
        height >= 1,
    ensures
        mask@.len() == width * height,
        forall|i: int|
            0 <= i < width * height ==> (mask@[i] <==> spec_bg_reachable(
                pixels@,
                width as int,
                height as int,
                i,
            )),
{
    let ghost w: int = width as int;
    let ghost h: int = height as int;
    let total: usize = pixels.len();

    proof {
        assert((h - 1) * w + (w - 1) < w * h && 0 <= (h - 1) * w) by (nonlinear_arith)
            requires
                w >= 1,
                h >= 1,
        ;
    }
    let c00 = pixels[0];
    let c10 = pixels[width - 1];
    let c01 = pixels[(height - 1) * width];
    let c11 = pixels[(height - 1) * width + (width - 1)];
    let bg_r: i32 = ((c00.r as u32 + c10.r as u32 + c01.r as u32 + c11.r as u32) / 4) as i32;
    let bg_g: i32 = ((c00.g as u32 + c10.g as u32 + c01.g as u32 + c11.g as u32) / 4) as i32;
    let bg_b: i32 = ((c00.b as u32 + c10.b as u32 + c01.b as u32 + c11.b as u32) / 4) as i32;
    proof {
        assert(h * w - 1 == (h - 1) * w + (w - 1)) by (nonlinear_arith);
        assert(bg_r == spec_corner_mean(pixels@, w, h).0);
        assert(bg_g == spec_corner_mean(pixels@, w, h).1);
        assert(bg_b == spec_corner_mean(pixels@, w, h).2);
    }

    let mut mask: Vec<bool> = Vec::new();
    let mut i: usize = 0;
    while i < total
        invariant
            i <= total,
            mask@.len() == i,
            forall|k: int| 0 <= k < i ==> !mask@[k],
        decreases total - i,
    {
        mask.push(false);
        i = i + 1;
    }

    let mut stack: Vec<usize> = Vec::new();

    // Seed the top and bottom rows.
    let mut x: usize = 0;
    while x < width
        invariant
            x <= width,
            width >= 1,
            height >= 1,
            total == width * height,
            w == width as int,
            h == height as int,
            forall|k: int| 0 <= k < stack@.len() ==> #[trigger] stack@[k] < total,
            forall|k: int|
                0 <= k < stack@.len() ==> spec_is_border(w, h, #[trigger] stack@[k] as int),
            forall|c: int| 0 <= c < x ==> #[trigger] in_seq(stack@, c),
            forall|c: int|
                (h - 1) * w <= c < (h - 1) * w + x ==> #[trigger] in_seq(stack@, c),
        decreases width - x,
    {
        proof {
            assert(x + (h - 1) * w < w * h && x as int / w == 0) by (nonlinear_arith)
                requires
                    0 <= x < w,
                    h >= 1,
            ;
            lemma_fundamental_div_mod_converse(x + (h - 1) * w, w, h - 1, x as int);
        }
        let ghost pre = stack@;
        stack.push(x);
        stack.push(x + (height - 1) * width);
        proof {
            assert(stack@[pre.len() as int] == x);
            assert(stack@[pre.len() as int + 1] == x + (height - 1) * width);
            assert(in_seq(stack@, x as int));
            assert(in_seq(stack@, x + (h - 1) * w));
            assert forall|c: int| 0 <= c < x + 1 implies #[trigger] in_seq(stack@, c) by {
                if c < x {
                    assert(in_seq(pre, c));
                    let k = choose|k: int| 0 <= k < pre.len() && pre[k] == c;
                    assert(stack@[k] == c);
                }
            }
            assert forall|c: int|
                (h - 1) * w <= c < (h - 1) * w + x + 1 implies #[trigger] in_seq(stack@, c) by {
                if c < (h - 1) * w + x {
                    assert(in_seq(pre, c));
                    let k = choose|k: int| 0 <= k < pre.len() && pre[k] == c;
                    assert(stack@[k] == c);
                }
            }
        }
        x = x + 1;
    }

    // Seed the left and right columns.
    let mut y: usize = 0;
    while y < height
        invariant
            y <= height,
            width >= 1,
            height >= 1,
            total == width * height,
            w == width as int,
            h == height as int,
            forall|k: int| 0 <= k < stack@.len() ==> #[trigger] stack@[k] < total,
            forall|k: int|
                0 <= k < stack@.len() ==> spec_is_border(w, h, #[trigger] stack@[k] as int),
            forall|c: int| 0 <= c < width ==> #[trigger] in_seq(stack@, c),
            forall|c: int|
                (h - 1) * w <= c < (h - 1) * w + width ==> #[trigger] in_seq(stack@, c),
            forall|c: int|
                0 <= c < total && c % w == 0 && c / w < y ==> #[trigger] in_seq(stack@, c),
            forall|c: int|
                0 <= c < total && c % w == w - 1 && c / w < y ==> #[trigger] in_seq(stack@, c),
        decreases height - y,
    {
        proof {
            assert(y * w + (w - 1) < w * h) by (nonlinear_arith)
                requires
                    0 <= y < h,
                    w >= 1,
            ;
            lemma_fundamental_div_mod_converse(y * w, w, y as int, 0);
            lemma_fundamental_div_mod_converse(y * w + (w - 1), w, y as int, w - 1);
        }
        let ghost pre = stack@;
        stack.push(y * width);
        stack.push(y * width + (width - 1));
        proof {
            assert(stack@[pre.len() as int] == y * width);
            assert(stack@[pre.len() as int + 1] == y * width + (width - 1));
            assert(in_seq(stack@, y * w));
            assert(in_seq(stack@, y * w + (w - 1)));
            assert forall|c: int| 0 <= c < width implies #[trigger] in_seq(stack@, c) by {
                assert(in_seq(pre, c));
                let k = choose|k: int| 0 <= k < pre.len() && pre[k] == c;
                assert(stack@[k] == c);
            }
            assert forall|c: int|
                (h - 1) * w <= c < (h - 1) * w + width implies #[trigger] in_seq(stack@, c) by {
                assert(in_seq(pre, c));
                let k = choose|k: int| 0 <= k < pre.len() && pre[k] == c;
                assert(stack@[k] == c);
            }
            assert forall|c: int|
                0 <= c < total && c % w == 0 && c / w < y + 1 implies #[trigger] in_seq(
                stack@,
                c,
            ) by {
                if c / w == y {
                    lemma_fundamental_div_mod(c, w);
                    assert(c == y * w) by (nonlinear_arith)
                        requires
                            c == w * (c / w) + c % w,
                            c % w == 0,
                            c / w == y,
                    ;
                } else {
                    assert(in_seq(pre, c));
                    let k = choose|k: int| 0 <= k < pre.len() && pre[k] == c;
                    assert(stack@[k] == c);
                }
            }
            assert forall|c: int|
                0 <= c < total && c % w == w - 1 && c / w < y + 1 implies #[trigger] in_seq(
                stack@,
                c,
            ) by {
                if c / w == y {
                    lemma_fundamental_div_mod(c, w);
                    assert(c == y * w + (w - 1)) by (nonlinear_arith)
                        requires
                            c == w * (c / w) + c % w,
                            c % w == w - 1,
                            c / w == y,
                    ;
                } else {
                    assert(in_seq(pre, c));
                    let k = choose|k: int| 0 <= k < pre.len() && pre[k] == c;
                    assert(stack@[k] == c);
                }
            }
        }
        y = y + 1;
    }

    proof {
        assert forall|c: int|
            0 <= c < total && spec_is_border(w, h, c) implies in_seq(stack@, c) by {
            lemma_fundamental_div_mod(c, w);
            let xc = c % w;
            let yc = c / w;
            assert(0 <= yc < h) by (nonlinear_arith)
                requires
                    c == w * yc + xc,
                    0 <= xc < w,
                    0 <= c < w * h,
                    w >= 1,
            ;
            if yc == 0 {
                assert(c == xc) by (nonlinear_arith)
                    requires
                        c == w * yc + xc,
                        yc == 0,
                ;
                assert(in_seq(stack@, c));
            } else if yc == h - 1 {
                assert(c == xc + (h - 1) * w) by (nonlinear_arith)
                    requires
                        c == w * yc + xc,
                        yc == h - 1,
                ;
                assert(in_seq(stack@, c));
            } else if xc == 0 {
                assert(c % w == 0 && c / w < h);
                assert(in_seq(stack@, c));
            } else {
                assert(c % w == w - 1 && c / w < h);
                assert(in_seq(stack@, c));
            }
        }
    }

    // Flood from the seeds: pop a cell; if it is background-similar, mark it
    // and queue its 4-neighbors.
    while stack.len() != 0
        invariant
            width >= 1,
            height >= 1,
            total == width * height,
            w == width as int,
            h == height as int,
            pixels@.len() == total,
            mask@.len() == total,
            bg_r == spec_corner_mean(pixels@, w, h).0,
            bg_g == spec_corner_mean(pixels@, w, h).1,
            bg_b == spec_corner_mean(pixels@, w, h).2,
            forall|k: int| 0 <= k < stack@.len() ==> #[trigger] stack@[k] < total,
            // every queued cell is justified: it sits on the border or next
            // to an already marked cell
            forall|k: int|
                0 <= k < stack@.len() ==> spec_is_border(w, h, #[trigger] stack@[k] as int)
                    || exists|j: int|
                    0 <= j < total && mask@[j] && spec_adjacent(w, j, stack@[k] as int),
            // soundness: marked cells are reachable
            forall|i: int| 0 <= i < total && #[trigger] mask@[i] ==> spec_bg_reachable(pixels@, w, h, i),
            // completeness in progress: a similar cell that is justified is
            // marked or still queued
            forall|c: int|
                0 <= c < total && spec_bg_similar(pixels@, w, h, c) && (spec_is_border(w, h, c)
                    || exists|j: int| 0 <= j < total && mask@[j] && spec_adjacent(w, j, c))
                    ==> mask@[c] || in_seq(stack@, c),
        decreases count_false(mask@), stack@.len(),
    {
        let ghost pre_stack = stack@;
        let ghost pre_mask = mask@;
        let e: usize = stack.pop().unwrap();
        proof {
            assert(stack@ =~= pre_stack.drop_last());
            assert(pre_stack[pre_stack.len() - 1] == e);
        }
        if !mask[e] {
            let pe = pixels[e];
            let dr: i32 = pe.r as i32 - bg_r;
            let dg: i32 = pe.g as i32 - bg_g;
            let db: i32 = pe.b as i32 - bg_b;
            let adr: i32 = if dr < 0 { -dr } else { dr };
            let adg: i32 = if dg < 0 { -dg } else { dg };
            let adb: i32 = if db < 0 { -db } else { db };
            let similar: bool = adr <= BG_THRESHOLD && adg <= BG_THRESHOLD && adb <= BG_THRESHOLD;
            proof {
                assert(similar == spec_bg_similar(pixels@, w, h, e as int));
            }
            if similar {
                proof {
                    // e is justified, so it is reachable once marked
                    if spec_is_border(w, h, e as int) {
                        lemma_reach_border(pixels@, w, h, e as int);
                    } else {
                        let j = choose|j: int|
                            0 <= j < total && pre_mask[j] && spec_adjacent(w, j, e as int);
                        lemma_reach_extend(pixels@, w, h, j, e as int);
                    }
                    lemma_count_false_update(pre_mask, e as int);
                }
                mask.set(e, true);
                let ghost mid_mask = mask@;
                proof {
                    assert(mid_mask =~= pre_mask.update(e as int, true));
                }

                let ex: usize = e % width;
                let ey: usize = e / width;
                proof {
                    lemma_fundamental_div_mod(e as int, w);
                    assert(e == ey * w + ex) by (nonlinear_arith)
                        requires
                            e == w * (ey as int) + ex,
                    ;
                }
                let ghost mark_stack = stack@;
                if ex > 0 {
                    proof {
                        lemma_fundamental_div_mod_converse(e - 1, w, ey as int, ex - 1);
                    }
                    stack.push(e - 1);
                    proof {
                        assert(stack@.last() == e - 1);
                    }
                }
                let ghost stack_a = stack@;
                assert(ex > 0 ==> in_seq(stack_a, e - 1));
                if ex + 1 < width {
                    proof {
                        lemma_fundamental_div_mod_converse(e + 1, w, ey as int, ex + 1);
                        assert(e + 1 < total) by (nonlinear_arith)
                            requires
                                e == w * ey + ex,
                                0 <= ex,
                                ex + 1 < w,
                                0 <= ey,
                                e < total,
                                total == w * h,
                                w >= 1,
                        ;
                    }
                    stack.push(e + 1);
                    proof {
                        if ex > 0 {
                            lemma_in_seq_push(stack_a, (e + 1) as usize, e - 1);
                        }
                        assert(stack@.last() == e + 1);
                    }
                }
                let ghost stack_b = stack@;
                assert(ex > 0 ==> in_seq(stack_b, e - 1));
                assert(ex + 1 < width ==> in_seq(stack_b, e + 1));
                if ey > 0 {
                    proof {
                        assert(e >= width) by (nonlinear_arith)
                            requires
                                e == w * ey + ex,
                                w == width,
                                ey >= 1,
                                ex >= 0,
                                w >= 1,
                        ;
                    }
                    stack.push(e - width);
                    proof {
                        if ex > 0 {
                            lemma_in_seq_push(stack_b, (e - width) as usize, e - 1);
                        }
                        if ex + 1 < width {
                            lemma_in_seq_push(stack_b, (e - width) as usize, e + 1);
                        }
                        assert(stack@.last() == e - width);
                    }
                }
                let ghost stack_c = stack@;
                assert(ex > 0 ==> in_seq(stack_c, e - 1));
                assert(ex + 1 < width ==> in_seq(stack_c, e + 1));
                assert(ey > 0 ==> in_seq(stack_c, e - w));
                if ey + 1 < height {
                    proof {
                        assert(e + w < total) by (nonlinear_arith)
                            requires
                                e == w * ey + ex,
                                0 <= ex < w,
                                0 <= ey,
                                ey + 1 < h,
                                total == w * h,
                                w >= 1,
                        ;
                    }
                    stack.push(e + width);
                    proof {
                        if ex > 0 {
                            lemma_in_seq_push(stack_c, (e + width) as usize, e - 1);
                        }
                        if ex + 1 < width {
                            lemma_in_seq_push(stack_c, (e + width) as usize, e + 1);
                        }
                        if ey > 0 {
                            lemma_in_seq_push(stack_c, (e + width) as usize, e - w);
                        }
                        assert(stack@.last() == e + width);
                    }
                }
                assert(ex > 0 ==> in_seq(stack@, e - 1));
                assert(ex + 1 < width ==> in_seq(stack@, e + 1));
                assert(ey > 0 ==> in_seq(stack@, e - w));
                assert(ey + 1 < height ==> in_seq(stack@, e + w));
                proof {
                    // queued neighbors are justified by the newly marked e
                    assert(mid_mask[e as int]);
                    assert forall|k: int|
                        0 <= k < stack@.len() implies spec_is_border(
                        w,
                        h,
                        #[trigger] stack@[k] as int,
                    ) || exists|j: int|
                        0 <= j < total && mid_mask[j] && spec_adjacent(w, j, stack@[k] as int) by {
                        if k < mark_stack.len() {
                            assert(mark_stack[k] == pre_stack[k]);
                            if !spec_is_border(w, h, stack@[k] as int) {
                                let j = choose|j: int|
                                    0 <= j < total && pre_mask[j] && spec_adjacent(
                                        w,
                                        j,
                                        pre_stack[k] as int,
                                    );
                                assert(mid_mask[j]);
                            }
                        } else {
                            assert(spec_adjacent(w, e as int, stack@[k] as int));
                        }
                    }
                    // a cell justified by the new mark is queued
                    assert forall|c: int|
                        0 <= c < total && spec_bg_similar(pixels@, w, h, c) && (spec_is_border(
                            w,
                            h,
                            c,
                        ) || exists|j: int|
                            0 <= j < total && mid_mask[j] && spec_adjacent(w, j, c)) implies
                        mid_mask[c] || in_seq(stack@, c) by {
                        if c == e as int {
                            assert(mid_mask[c]);
                        } else if spec_is_border(w, h, c) || exists|j: int|
                            0 <= j < total && pre_mask[j] && spec_adjacent(w, j, c) {
                            // justified before this iteration
                            assert(pre_mask[c] || in_seq(pre_stack, c));
                            if pre_mask[c] {
                                assert(mid_mask[c]);
                            } else {
                                let k = choose|k: int|
                                    0 <= k < pre_stack.len() && pre_stack[k] == c;
                                if k < pre_stack.len() - 1 {
                                    assert(mark_stack[k] == c);
                                    assert(stack@[k] == c);
                                    assert(in_seq(stack@, c));
                                } else {
                                    assert(c == e as int);
                                }
                            }
                        } else {
                            // the only new justification is adjacency to e
                            let j = choose|j: int|
                                0 <= j < total && mid_mask[j] && spec_adjacent(w, j, c);
                            assert(j == e as int);
                            lemma_adjacent_pushed(
                                w,
                                h,
                                e as int,
                                ex as int,
                                ey as int,
                                c,
                                mark_stack,
                                stack@,
                                total as int,
                                width as int,
                                height as int,
                            );
                        }
                    }
                }
            } else {
                proof {
                    assert forall|c: int|
                        0 <= c < total && spec_bg_similar(pixels@, w, h, c) && (spec_is_border(
                            w,
                            h,
                            c,
                        ) || exists|j: int|
                            0 <= j < total && mask@[j] && spec_adjacent(w, j, c)) implies mask@[c]
                        || in_seq(stack@, c) by {
                        assert(pre_mask[c] || in_seq(pre_stack, c));
                        if !pre_mask[c] {
                            let k = choose|k: int| 0 <= k < pre_stack.len() && pre_stack[k] == c;
                            if k < pre_stack.len() - 1 {
                                assert(stack@[k] == c);
                                assert(in_seq(stack@, c));
                            } else {
                                assert(c == e as int);
                                assert(spec_bg_similar(pixels@, w, h, e as int));
                            }
                        }
                    }
                }
            }
        } else {
            proof {
                assert forall|c: int|
                    0 <= c < total && spec_bg_similar(pixels@, w, h, c) && (spec_is_border(w, h, c)
                        || exists|j: int|
                        0 <= j < total && mask@[j] && spec_adjacent(w, j, c)) implies mask@[c]
                    || in_seq(stack@, c) by {
                    assert(pre_mask[c] || in_seq(pre_stack, c));
                    if !pre_mask[c] {
                        let k = choose|k: int| 0 <= k < pre_stack.len() && pre_stack[k] == c;
                        if k < pre_stack.len() - 1 {
                            assert(stack@[k] == c);
                            assert(in_seq(stack@, c));
                        } else {
                            assert(mask@[c]);
                        }
                    }
                }
            }
        }
    }

    proof {
        // the queue is empty: the marked set is closed, so every reachable
        // cell is marked
        assert forall|i: int|
            0 <= i < total && spec_bg_reachable(pixels@, w, h, i) implies mask@[i] by {
            let p = choose|p: Seq<int>| spec_is_bg_path(pixels@, w, h, p) && p.last() == i;
            lemma_path_marked(pixels@, w, h, mask@, p);
        }
    }
    mask
}

/// A 4-neighbor of a freshly marked cell is among the entries just pushed.
proof fn lemma_adjacent_pushed(
    w: int,
    h: int,
    e: int,
    ex: int,
    ey: int,
    c: int,
    before: Seq<usize>,
    after: Seq<usize>,
    total: int,
    width: int,
    height: int,
)
    requires
        w == width,
        h == height,
        total == w * h,
        w >= 1,
        h >= 1,
        0 <= e < total,
        e == w * ey + ex,
        0 <= ex < w,
        0 <= ey,
        spec_adjacent(w, e, c),
        0 <= c < total,
        ex > 0 ==> in_seq(after, e - 1),
        ex + 1 < w ==> in_seq(after, e + 1),
        ey > 0 ==> in_seq(after, e - w),
        ey + 1 < h ==> in_seq(after, e + w),
    ensures
        in_seq(after, c),
{
    assert(e == ey * w + ex) by (nonlinear_arith)
        requires
            e == w * ey + ex,
    ;
    assert(ey == e / w && ex == e % w) by {
        lemma_fundamental_div_mod_converse(e, w, ey, ex);
    }
    assert(0 <= ey < h) by (nonlinear_arith)
        requires
            e == w * ey + ex,
            0 <= ex < w,
            0 <= e < w * h,
            w >= 1,
    ;
    if c == e + w {
        assert(ey + 1 < h) by (nonlinear_arith)
            requires
                c == e + w,
                e == w * ey + ex,
                0 <= ex < w,
                c < w * h,
                w >= 1,
        ;
    } else if e == c + w {
        assert(ey > 0) by (nonlinear_arith)
            requires
                e == c + w,
                e == w * ey + ex,
                0 <= ex < w,
                0 <= c,
                w >= 1,
                0 <= ey,
        ;
    } else if c == e + 1 {
        if ex + 1 == w {
            assert(c == (ey + 1) * w + 0) by (nonlinear_arith)
                requires
                    c == e + 1,
                    e == w * ey + ex,
                    ex + 1 == w,
            ;
            assert(c / w == ey + 1) by {
                lemma_fundamental_div_mod_converse(c, w, ey + 1, 0);
            }
            assert(false);
        }
    } else {
        assert(e == c + 1);
        if ex == 0 {
            assert(c == (ey - 1) * w + (w - 1)) by (nonlinear_arith)
                requires
                    e == c + 1,
                    e == w * ey + ex,
                    ex == 0,
            ;
            assert(0 <= ey - 1) by (nonlinear_arith)
                requires
                    c == (ey - 1) * w + (w - 1),
                    0 <= c,
                    w >= 1,
                    ey <= h,
            ;
            assert(c / w == ey - 1) by {
                lemma_fundamental_div_mod_converse(c, w, ey - 1, w - 1);
            }
            assert(false);
        }
    }
}

/// With an empty queue the marked set is closed under the flood step, so
/// every cell a background path ends on is marked.
proof fn lemma_path_marked(pixels: Seq<Rgb>, w: int, h: int, mask: Seq<bool>, p: Seq<int>)
    requires
        w >= 1,
        h >= 1,
        mask.len() == w * h,
        spec_is_bg_path(pixels, w, h, p),
        // closure for border cells
        forall|c: int|
            0 <= c < w * h && spec_bg_similar(pixels, w, h, c) && spec_is_border(w, h, c)
                ==> mask[c],
        // closure across adjacency
        forall|c: int|
            0 <= c < w * h && spec_bg_similar(pixels, w, h, c) && (exists|j: int|
                0 <= j < w * h && mask[j] && spec_adjacent(w, j, c)) ==> mask[c],
    ensures
        mask[p.last()],
    decreases p.len(),
{
    if p.len() == 1 {
        assert(mask[p[0]]);
    } else {
        let q = p.drop_last();
        assert(q[0] == p[0]);
        assert(forall|k: int| 0 <= k < q.len() ==> q[k] == #[trigger] p[k]);
        assert forall|k: int| 1 <= k < q.len() implies spec_adjacent(w, q[k - 1], #[trigger] q[k]) by {
            assert(p[k] == q[k] && p[k - 1] == q[k - 1]);
            assert(spec_adjacent(w, p[k - 1], p[k]));
        }
        assert(spec_is_bg_path(pixels, w, h, q));
        lemma_path_marked(pixels, w, h, mask, q);
        let last = p.last();
        let prev = q.last();
        assert(prev == p[p.len() - 2]);
        assert(spec_adjacent(w, prev, last));
        assert(mask[prev]);
        assert(0 <= prev < w * h);
        assert(mask[last]);
    }
}

} // verus!
