//! Planar integer geometry: coordinates in millimeters, axis-aligned boxes,
//! exact helper arithmetic (integer square root, sign-aware division) and the
//! bounds that keep every intermediate product inside `i128`.

use vstd::prelude::*;

verus! {

/// Largest magnitude, in millimeters, of any input coordinate the engine
/// accepts (100 km from the local origin).  Keeping inputs inside this box
/// bounds every intermediate product of the intersection arithmetic.
pub const COORD_LIMIT: i64 = 100_000_000;

/// A point of the locally flat metric plane, in millimeters.
#[derive(Clone, Copy, PartialEq, Eq, Structural, Debug)]
pub struct Coord {
    pub x: i64,
    pub y: i64,
}

impl Coord {
    /// The coordinate lies inside the workable region.
    pub open spec fn in_bounds(self) -> bool {
        -(COORD_LIMIT as int) <= self.x as int <= COORD_LIMIT as int
            && -(COORD_LIMIT as int) <= self.y as int <= COORD_LIMIT as int
    }

    /// The coordinate lies inside twice the workable region; probe endpoints
    /// and hit points stay within this looser box.
    pub open spec fn in_wide_bounds(self) -> bool {
        -2 * (COORD_LIMIT as int) <= self.x as int <= 2 * (COORD_LIMIT as int)
            && -2 * (COORD_LIMIT as int) <= self.y as int <= 2 * (COORD_LIMIT as int)
    }
}

/// An axis-aligned box, closed on all sides.
#[derive(Clone, Copy, PartialEq, Eq, Structural, Debug)]
pub struct Aabb {
    pub min_x: i64,
    pub min_y: i64,
    pub max_x: i64,
    pub max_y: i64,
}

impl Aabb {
    /// The corners are ordered.
    pub open spec fn wf(self) -> bool {
        self.min_x <= self.max_x && self.min_y <= self.max_y
    }

    /// Two closed boxes share at least one point.
    pub open spec fn intersects(self, o: Aabb) -> bool {
        self.min_x <= o.max_x && o.min_x <= self.max_x && self.min_y <= o.max_y
            && o.min_y <= self.max_y
    }

    /// The box contains the point.
    pub open spec fn contains(self, c: Coord) -> bool {
        self.min_x <= c.x <= self.max_x && self.min_y <= c.y <= self.max_y
    }
}

/// The cross product of the vectors `(ax, ay)` and `(bx, by)`.
pub open spec fn cross(ax: int, ay: int, bx: int, by: int) -> int {
    ax * by - ay * bx
}

/// `r` is the integer square root of `n`.
pub open spec fn is_sqrt_floor(n: int, r: int) -> bool {
    0 <= r && r * r <= n && n < (r + 1) * (r + 1)
}

/// The integer square root of `n`: the greatest `r` with `r * r <= n`.
pub open spec fn sqrt_floor(n: int) -> int {
    choose|r: int| is_sqrt_floor(n, r)
}

/// Integer square roots are unique.
pub proof fn lemma_sqrt_floor_unique(n: int, r1: int, r2: int)
    requires
        is_sqrt_floor(n, r1),
        is_sqrt_floor(n, r2),
    ensures
        r1 == r2,
{
    if r1 < r2 {
        assert(false) by (nonlinear_arith)
            requires
                0 <= r1 < r2,
                r2 * r2 <= n,
                n < (r1 + 1) * (r1 + 1),
        ;
    }
    if r2 < r1 {
        assert(false) by (nonlinear_arith)
            requires
                0 <= r2 < r1,
                r1 * r1 <= n,
                n < (r2 + 1) * (r2 + 1),
        ;
    }
}

/// Any witness of `is_sqrt_floor` is the `sqrt_floor`.
pub proof fn lemma_sqrt_floor_is(n: int, r: int)
    requires
        is_sqrt_floor(n, r),
    ensures
        sqrt_floor(n) == r,
{
    assert(is_sqrt_floor(n, sqrt_floor(n)));
    lemma_sqrt_floor_unique(n, sqrt_floor(n), r);
}

/// The integer square root is monotone.
pub proof fn lemma_sqrt_floor_monotone(m: int, n: int)
    requires
        0 <= m <= n,
        is_sqrt_floor(m, sqrt_floor(m)),
        is_sqrt_floor(n, sqrt_floor(n)),
    ensures
        sqrt_floor(m) <= sqrt_floor(n),
{
    let rm = sqrt_floor(m);
    let rn = sqrt_floor(n);
    if rn < rm {
        assert(false) by (nonlinear_arith)
            requires
                0 <= rn < rm,
                rm * rm <= m,
                m <= n,
                n < (rn + 1) * (rn + 1),
        ;
    }
}

/// Every nonnegative integer has an integer square root, so `sqrt_floor` is
/// well defined on it.
pub proof fn lemma_sqrt_floor_exists(n: int)
    requires
        0 <= n,
    ensures
        is_sqrt_floor(n, sqrt_floor(n)),
    decreases n,
{
    if n == 0 {
        assert(is_sqrt_floor(0, 0));
    } else {
        lemma_sqrt_floor_exists(n - 1);
        let r = sqrt_floor(n - 1);
        if (r + 1) * (r + 1) <= n {
            assert(n == (r + 1) * (r + 1));
            assert(n < (r + 2) * (r + 2)) by (nonlinear_arith)
                requires
                    n == (r + 1) * (r + 1),
                    0 <= r,
            ;
            assert(is_sqrt_floor(n, r + 1));
        } else {
            assert(is_sqrt_floor(n, r));
        }
    }
    assert(exists|r: int| is_sqrt_floor(n, r));
}

/// Integer square root: the greatest `r` with `r * r <= n`.
pub fn isqrt(n: u128) -> (r: u128)
    ensures
        is_sqrt_floor(n as int, r as int),
        r as int == sqrt_floor(n as int),
{
    let mut lo: u128 = 0;
    let mut hi: u128 = 18446744073709551616;
    assert((hi as int) * (hi as int) > n as int) by (nonlinear_arith)
        requires
            hi == 18446744073709551616,
            n <= u128::MAX,
    ;
    while lo + 1 < hi
        invariant
            (lo as int) * (lo as int) <= n as int,
            (n as int) < (hi as int) * (hi as int),
            lo < hi,
            hi <= 18446744073709551616,
        decreases hi - lo,
    {
        let mid: u128 = lo + (hi - lo) / 2;
        assert(lo < mid < hi);
        assert((mid as int) * (mid as int) < 0x100000000000000000000000000000000int) by (nonlinear_arith)
            requires
                mid < 18446744073709551616,
        ;
        if mid * mid <= n {
            lo = mid;
        } else {
            hi = mid;
        }
    }
    proof {
        lemma_sqrt_floor_is(n as int, lo as int);
    }
    lo
}

/// Division of `a` by `b > 0`, rounding toward negative infinity.  This is
/// Euclidean division as spec arithmetic defines it for a positive divisor.
pub fn floor_div(a: i128, b: i128) -> (q: i128)
    requires
        0 < b,
        -0x10000000000000000000000000000i128 <= a <= 0x10000000000000000000000000000i128,
        b <= 0x10000000000000000000000000000i128,
    ensures
        q as int == (a as int) / (b as int),
{
    if a >= 0 {
        let q = (a as u128 / b as u128) as i128;
        proof {
            lemma_div_in_range(a as int, b as int);
        }
        q
    } else {
        let m: u128 = (-a) as u128;
        let ub: u128 = b as u128;
        let qm: u128 = m / ub;
        let rm: u128 = m % ub;
        proof {
            lemma_div_in_range(m as int, b as int);
        }
        if rm == 0 {
            let q = -(qm as i128);
            proof {
                lemma_floor_div_neg_exact(a as int, b as int, qm as int);
            }
            q
        } else {
            let q = -(qm as i128) - 1;
            proof {
                lemma_floor_div_neg_inexact(a as int, b as int, qm as int, rm as int);
            }
            q
        }
    }
}

proof fn lemma_div_in_range(a: int, b: int)
    requires
        0 <= a,
        0 < b,
    ensures
        0 <= a / b <= a,
        a == b * (a / b) + a % b,
        0 <= a % b < b,
{
    assert(0 <= a / b <= a && a == b * (a / b) + a % b && 0 <= a % b < b) by (nonlinear_arith)
        requires
            0 <= a,
            0 < b,
    ;
}

proof fn lemma_floor_div_neg_exact(a: int, b: int, qm: int)
    requires
        a < 0,
        0 < b,
        (-a) == b * qm,
        0 <= qm,
    ensures
        a / b == -qm,
{
    assert(a == b * (-qm)) by (nonlinear_arith)
        requires
            (-a) == b * qm,
    ;
    assert(a / b == -qm) by (nonlinear_arith)
        requires
            a == b * (-qm),
            0 < b,
    ;
}

proof fn lemma_floor_div_neg_inexact(a: int, b: int, qm: int, rm: int)
    requires
        a < 0,
        0 < b,
        (-a) == b * qm + rm,
        0 < rm < b,
        0 <= qm,
    ensures
        a / b == -qm - 1,
{
    assert(a == b * (-qm - 1) + (b - rm)) by (nonlinear_arith)
        requires
            (-a) == b * qm + rm,
    ;
    assert(a / b == -qm - 1) by (nonlinear_arith)
        requires
            a == b * (-qm - 1) + (b - rm),
            0 < b - rm < b,
    ;
}

/// Division of `a` by `b > 0`, rounded to the nearest integer, halves away
/// from negative infinity.
pub open spec fn round_div(a: int, b: int) -> int {
    (2 * a + b) / (2 * b)
}

/// Division of `a` by `b > 0`, rounded toward zero.
pub open spec fn trunc_div(a: int, b: int) -> int {
    if a >= 0 {
        a / b
    } else {
        -((-a) / b)
    }
}

/// Exec form of `round_div`.
pub fn round_div_exec(a: i128, b: i128) -> (q: i128)
    requires
        0 < b,
        -0x1000000000000000000000000000i128 <= a <= 0x1000000000000000000000000000i128,
        b <= 0x1000000000000000000000000000i128,
    ensures
        q as int == round_div(a as int, b as int),
{
    floor_div(2 * a + b, 2 * b)
}

/// Exec form of `trunc_div`.
pub fn trunc_div_exec(a: i128, b: i128) -> (q: i128)
    requires
        0 < b,
        -0x10000000000000000000000000000i128 <= a <= 0x10000000000000000000000000000i128,
        b <= 0x10000000000000000000000000000i128,
    ensures
        q as int == trunc_div(a as int, b as int),
{
    if a >= 0 {
        floor_div(a, b)
    } else {
        let m = floor_div(-a, b);
        proof {
            lemma_div_in_range(-a as int, b as int);
        }
        -m
    }
}

/// `round_div` stays between the endpoints `0` and `a` when `0 <= k <= b`
/// scales `a`: the rounded interpolation point `round_div(k * a, b)` lies in
/// the closed interval spanned by `0` and `a`.
pub proof fn lemma_round_div_interp_range(a: int, k: int, b: int)
    requires
        0 < b,
        0 <= k <= b,
    ensures
        a >= 0 ==> 0 <= round_div(k * a, b) <= a,
        a < 0 ==> a <= round_div(k * a, b) <= 0,
{
    let v = k * a;
    if a >= 0 {
        assert(0 <= v <= b * a) by (nonlinear_arith)
            requires
                0 <= k <= b,
                0 <= a,
                v == k * a,
        ;
        assert(0 <= (2 * v + b) / (2 * b)) by (nonlinear_arith)
            requires
                0 < b,
                0 <= v,
        ;
        assert((2 * v + b) / (2 * b) <= a) by (nonlinear_arith)
            requires
                0 < b,
                v <= b * a,
        ;
    } else {
        assert(b * a <= v <= 0) by (nonlinear_arith)
            requires
                0 <= k <= b,
                a < 0,
                v == k * a,
        ;
        assert((2 * v + b) / (2 * b) <= 0) by (nonlinear_arith)
            requires
                0 < b,
                v <= 0,
        ;
        assert(a <= (2 * v + b) / (2 * b)) by (nonlinear_arith)
            requires
                0 < b,
                b * a <= v,
        ;
    }
}

/// `|x * y| <= bx * by` when `|x| <= bx` and `|y| <= by`.
pub proof fn lemma_abs_mul_bound(x: int, y: int, bx: int, by: int)
    requires
        -bx <= x <= bx,
        -by <= y <= by,
    ensures
        -(bx * by) <= x * y <= bx * by,
{
    assert(-(bx * by) <= x * y <= bx * by) by (nonlinear_arith)
        requires
            -bx <= x <= bx,
            -by <= y <= by,
    ;
}

} // verus!
