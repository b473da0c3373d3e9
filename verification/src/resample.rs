//! The path resampler: densifies a path so that no segment is longer than
//! the step length, then emits one oriented sample point per densified
//! segment.  The last vertex produces no sample, since it has no following
//! segment to take a direction from.

use vstd::prelude::*;

verus! {

use crate::geom::{round_div, round_div_exec, sqrt_floor, is_sqrt_floor, isqrt, Coord, COORD_LIMIT,
    lemma_round_div_interp_range, lemma_abs_mul_bound};

/// A sample point: a position on the densified path and the direction of the
/// densified segment that starts there.  The direction is a (non-unit)
/// vector; a direction of zero length never occurs.
#[derive(Clone, Copy, PartialEq, Eq, Structural, Debug)]
pub struct Sample {
    pub pos: Coord,
    pub dx: i64,
    pub dy: i64,
}

/// The squared Euclidean length of the segment from `a` to `b`.
pub open spec fn seg_len_sq(a: Coord, b: Coord) -> int {
    (b.x - a.x) * (b.x - a.x) + (b.y - a.y) * (b.y - a.y)
}

/// The least number of equal pieces the segment from `a` to `b` must be cut
/// into so that each piece is at most `step` long: the least `n >= 1` with
/// `(n * step)^2 >= seg_len_sq(a, b)`.
pub open spec fn pieces(a: Coord, b: Coord, step: int) -> int {
    let d = seg_len_sq(a, b);
    let s = sqrt_floor(d);
    let l = if s * s == d {
        s
    } else {
        s + 1
    };
    if l <= step {
        1
    } else {
        (l + step - 1) / step
    }
}

/// The `k`-th of `n` evenly spaced points from `a` toward `b`, each
/// coordinate rounded to the nearest millimeter.
pub open spec fn interp(a: Coord, b: Coord, n: int, k: int) -> Coord {
    Coord {
        x: (a.x + round_div(k * (b.x - a.x), n)) as i64,
        y: (a.y + round_div(k * (b.y - a.y), n)) as i64,
    }
}

/// The densified vertices contributed by the segment from `a` to `b`: the
/// start `a` and the inserted intermediate points, excluding `b` itself.
pub open spec fn densify_pair(a: Coord, b: Coord, step: int) -> Seq<Coord> {
    Seq::new(pieces(a, b, step) as nat, |k: int| interp(a, b, pieces(a, b, step), k))
}

/// The densified vertex sequence of a whole path: every original vertex, in
/// order, with intermediate points inserted so that no densified segment is
/// longer than `step`.
pub open spec fn densify(path: Seq<Coord>, step: int) -> Seq<Coord>
    decreases path.len(),
{
    if path.len() <= 1 {
        path
    } else {
        densify_pair(path[0], path[1], step) + densify(path.drop_first(), step)
    }
}

/// The sample points of a densified vertex sequence: one per consecutive
/// pair of distinct vertices, positioned at the first vertex of the pair and
/// oriented along it.
pub open spec fn samples_of(dense: Seq<Coord>) -> Seq<Sample>
    decreases dense.len(),
{
    if dense.len() <= 1 {
        Seq::empty()
    } else {
        let rest = samples_of(dense.drop_first());
        if dense[0] == dense[1] {
            rest
        } else {
            seq![
                Sample {
                    pos: dense[0],
                    dx: (dense[1].x - dense[0].x) as i64,
                    dy: (dense[1].y - dense[0].y) as i64,
                },
            ] + rest
        }
    }
}

/// The oriented sample points of a path resampled at `step`.
pub open spec fn sample_points(path: Seq<Coord>, step: int) -> Seq<Sample> {
    samples_of(densify(path, step))
}

/// A sample whose position and direction come from coordinates of the
/// workable region.
pub open spec fn sample_in_bounds(s: Sample) -> bool {
    s.pos.in_bounds() && -2 * (COORD_LIMIT as int) <= s.dx as int <= 2 * (COORD_LIMIT as int) && -2
        * (COORD_LIMIT as int) <= s.dy as int <= 2 * (COORD_LIMIT as int) && !(s.dx == 0 && s.dy
        == 0)
}

/// Densifies one segment into exec form, appending to `out`.
fn push_densify_pair(out: &mut Vec<Coord>, a: Coord, b: Coord, step: i64)
    requires
        step >= 1,
        a.in_bounds(),
        b.in_bounds(),
    ensures
        final(out)@ == old(out)@ + densify_pair(a, b, step as int),
        forall|i: int|
            old(out)@.len() <= i < final(out)@.len() ==> (#[trigger] final(out)@[i]).in_bounds(),
{
    let dx: i128 = b.x as i128 - a.x as i128;
    let dy: i128 = b.y as i128 - a.y as i128;
    proof {
        lemma_abs_mul_bound(dx as int, dx as int, 400000000, 400000000);
        lemma_abs_mul_bound(dy as int, dy as int, 400000000, 400000000);
    }
    assert(0 <= dx * dx && 0 <= dy * dy) by (nonlinear_arith);
    let dsq: i128 = dx * dx + dy * dy;
    assert(0 <= dsq <= 320000000000000000);
    assert(dsq as int == seg_len_sq(a, b));
    let d: u128 = dsq as u128;
    let s: u128 = isqrt(d);
    proof {
        assert((s as int) * (s as int) <= d as int);
        assert(s as int <= 800000000) by (nonlinear_arith)
            requires
                (s as int) * (s as int) <= d as int,
                d as int <= 320000000000000000,
                0 <= s as int,
        ;
    }
    let l: u128 = if s * s == d {
        s
    } else {
        s + 1
    };
    let n: u128 = if l <= step as u128 {
        1
    } else {
        (l + step as u128 - 1) / step as u128
    };
    proof {
        if l > step as u128 {
            assert(1 <= n as int <= l as int) by (nonlinear_arith)
                requires
                    n as int == (l as int + step as int - 1) / (step as int),
                    step as int >= 1,
                    l as int > step as int,
            ;
        }
        assert(n as int == pieces(a, b, step as int));
    }
    let n64: i64 = n as i64;
    let ghost gn: int = n as int;
    let mut k: i64 = 0;
    while k < n64
        invariant
            0 <= k <= n64,
            n64 as int == gn,
            n as int == gn,
            step >= 1,
            gn == pieces(a, b, step as int),
            1 <= gn <= 800000001,
            a.in_bounds(),
            b.in_bounds(),
            dx as int == b.x - a.x,
            dy as int == b.y - a.y,
            out@ == old(out)@ + densify_pair(a, b, step as int).take(k as int),
            forall|i: int|
                old(out)@.len() <= i < out@.len() ==> (#[trigger] out@[i]).in_bounds(),
        decreases n64 - k,
    {
        proof {
            lemma_abs_mul_bound(k as int, dx as int, 800000001, 400000000);
            lemma_abs_mul_bound(k as int, dy as int, 800000001, 400000000);
            lemma_round_div_interp_range(b.x - a.x, k as int, gn);
            lemma_round_div_interp_range(b.y - a.y, k as int, gn);
        }
        let px: i128 = a.x as i128 + round_div_exec(k as i128 * dx, n as i128);
        let py: i128 = a.y as i128 + round_div_exec(k as i128 * dy, n as i128);
        let c = Coord { x: px as i64, y: py as i64 };
        assert(c == interp(a, b, gn, k as int));
        out.push(c);
        proof {
            assert(out@ =~= old(out)@ + densify_pair(a, b, step as int).take(k + 1));
        }
        k = k + 1;
    }
    proof {
        assert(densify_pair(a, b, step as int).take(gn) =~= densify_pair(a, b, step as int));
    }
}

/// Densifies a path: inserts colinear intermediate vertices so that no
/// segment of the result is longer than `step` millimeters; the original
/// vertices, in particular the first and last, are preserved exactly.
pub fn densify_path(path: &Vec<Coord>, step: i64) -> (r: Vec<Coord>)
    requires
        step >= 1,
        forall|i: int| 0 <= i < path@.len() ==> (#[trigger] path@[i]).in_bounds(),
    ensures
        r@ == densify(path@, step as int),
        forall|i: int| 0 <= i < r@.len() ==> (#[trigger] r@[i]).in_bounds(),
{
    let mut r: Vec<Coord> = Vec::new();
    if path.len() == 0 {
        proof {
            assert(r@ =~= densify(path@, step as int));
        }
        return r;
    }
    let n = path.len();
    proof {
        assert(path@.skip(0) =~= path@);
        assert(r@ + densify(path@, step as int) =~= densify(path@, step as int));
    }
    let mut i: usize = 0;
    while i < n - 1
        invariant
            0 <= i <= n - 1,
            n == path@.len(),
            n >= 1,
            step >= 1,
            forall|j: int| 0 <= j < path@.len() ==> (#[trigger] path@[j]).in_bounds(),
            r@ + densify(path@.skip(i as int), step as int) == densify(path@, step as int),
            forall|j: int| 0 <= j < r@.len() ==> (#[trigger] r@[j]).in_bounds(),
        decreases n - 1 - i,
    {
        let ghost pre = r@;
        let a = path[i];
        let b = path[i + 1];
        push_densify_pair(&mut r, a, b, step);
        proof {
            let suf = path@.skip(i as int);
            assert(suf.len() >= 2);
            assert(suf[0] == path@[i as int]);
            assert(suf[1] == path@[i as int + 1]);
            assert(suf.drop_first() =~= path@.skip(i as int + 1));
            assert(densify(suf, step as int) == densify_pair(a, b, step as int) + densify(
                path@.skip(i as int + 1),
                step as int,
            ));
            assert(r@ + densify(path@.skip(i as int + 1), step as int) =~= pre + densify(
                suf,
                step as int,
            ));
        }
        i = i + 1;
    }
    let last = path[n - 1];
    r.push(last);
    proof {
        let suf = path@.skip(n - 1);
        assert(suf.len() == 1);
        assert(suf[0] == path@[n - 1]);
        assert(densify(suf, step as int) == suf);
        assert(r@ =~= densify(path@, step as int));
    }
    r
}

/// Resamples a path: densifies it at `step` and emits one oriented sample
/// per densified segment whose endpoints are distinct.
pub fn resample(path: &Vec<Coord>, step: i64) -> (r: Vec<Sample>)
    requires
        step >= 1,
        forall|i: int| 0 <= i < path@.len() ==> (#[trigger] path@[i]).in_bounds(),
    ensures
        r@ == sample_points(path@, step as int),
        forall|i: int| 0 <= i < r@.len() ==> sample_in_bounds(#[trigger] r@[i]),
{
    let dense = densify_path(path, step);
    let mut r: Vec<Sample> = Vec::new();
    let n = dense.len();
    if n == 0 {
        proof {
            assert(r@ =~= samples_of(dense@));
        }
        return r;
    }
    proof {
        assert(dense@.skip(0) =~= dense@);
        assert(r@ + samples_of(dense@) =~= samples_of(dense@));
    }
    let mut i: usize = 0;
    while i < n - 1
        invariant
            0 <= i <= n - 1,
            n == dense@.len(),
            n >= 1,
            forall|j: int| 0 <= j < dense@.len() ==> (#[trigger] dense@[j]).in_bounds(),
            r@ + samples_of(dense@.skip(i as int)) == samples_of(dense@),
            forall|j: int| 0 <= j < r@.len() ==> sample_in_bounds(#[trigger] r@[j]),
        decreases n - 1 - i,
    {
        let ghost pre = r@;
        let a = dense[i];
        let b = dense[i + 1];
        proof {
            let suf = dense@.skip(i as int);
            assert(suf.len() >= 2);
            assert(suf[0] == dense@[i as int]);
            assert(suf[1] == dense@[i as int + 1]);
            assert(suf.drop_first() =~= dense@.skip(i as int + 1));
        }
        if !(a.x == b.x && a.y == b.y) {
            let s = Sample { pos: a, dx: b.x - a.x, dy: b.y - a.y };
            r.push(s);
            proof {
                assert(r@ + samples_of(dense@.skip(i as int + 1)) =~= pre + samples_of(
                    dense@.skip(i as int),
                ));
            }
        } else {
            proof {
                assert(a == b);
                assert(r@ + samples_of(dense@.skip(i as int + 1)) =~= pre + samples_of(
                    dense@.skip(i as int),
                ));
            }
        }
        i = i + 1;
    }
    proof {
        let suf = dense@.skip(n - 1);
        assert(suf.len() == 1);
        assert(samples_of(suf) =~= Seq::<Sample>::empty());
        assert(r@ =~= samples_of(dense@));
        assert(r@ =~= sample_points(path@, step as int));
    }
    r
}

} // verus!
