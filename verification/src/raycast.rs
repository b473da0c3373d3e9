//! The perpendicular ray caster: builds the two lateral test segments of a
//! sample point and decides, in exact integer arithmetic, whether and where a
//! test segment meets a polygon edge in a single point.

use vstd::prelude::*;

verus! {

use crate::geom::{cross, sqrt_floor, isqrt, trunc_div, trunc_div_exec, Coord, COORD_LIMIT,
    lemma_abs_mul_bound};
use crate::resample::{sample_in_bounds, Sample};

/// The squared length of a test segment's direction.
pub open spec fn dir_len_sq(s: Sample) -> int {
    (s.dx as int) * (s.dx as int) + (s.dy as int) * (s.dy as int)
}

/// The x component of the perpendicular of the sample direction on the given
/// side: the direction rotated by -90 degrees on side `a`, +90 on the other.
pub open spec fn perp_x(s: Sample, side_a: bool) -> int {
    if side_a {
        s.dy as int
    } else {
        -(s.dy as int)
    }
}

/// The y component of the perpendicular, as `perp_x`.
pub open spec fn perp_y(s: Sample, side_a: bool) -> int {
    if side_a {
        -(s.dx as int)
    } else {
        s.dx as int
    }
}

/// `floor(|num| / sqrt(den))` carrying the sign of `num`; `den > 0`.
pub open spec fn scaled_ratio(num: int, den: int) -> int {
    if num >= 0 {
        sqrt_floor((num * num) / den)
    } else {
        -sqrt_floor((num * num) / den)
    }
}

/// The far endpoint of the test segment of sample `s` on one side: the
/// sample position offset by `probe` along the unit perpendicular, each
/// coordinate truncated toward the sample so that the segment is never
/// longer than `probe`.
pub open spec fn probe_end_spec(s: Sample, probe: int, side_a: bool) -> Coord {
    let d = dir_len_sq(s);
    Coord {
        x: (s.pos.x + scaled_ratio(probe * perp_x(s, side_a), d)) as i64,
        y: (s.pos.y + scaled_ratio(probe * perp_y(s, side_a), d)) as i64,
    }
}

/// `floor(|num|/sqrt(den))`, computed exactly: the greatest `q >= 0` with
/// `q * q * den <= num * num`.
fn sqrt_ratio_mag(num_abs: u128, den: u128) -> (q: u128)
    requires
        0 < den,
        num_abs <= 10000000000000000000,
    ensures
        q as int == sqrt_floor(((num_abs as int) * (num_abs as int)) / (den as int)),
        (q as int) * (q as int) * (den as int) <= (num_abs as int) * (num_abs as int),
{
    proof {
        lemma_abs_mul_bound(
            num_abs as int,
            num_abs as int,
            10000000000000000000,
            10000000000000000000,
        );
    }
    let m: u128 = num_abs * num_abs;
    let q = isqrt(m / den);
    proof {
        vstd::arithmetic::div_mod::lemma_fundamental_div_mod(m as int, den as int);
        vstd::arithmetic::div_mod::lemma_mod_bound(m as int, den as int);
        let qq = (q as int) * (q as int);
        assert(qq <= (m as int) / (den as int));
        assert(qq * (den as int) <= m as int) by (nonlinear_arith)
            requires
                qq <= (m as int) / (den as int),
                0 < den as int,
                m as int == (den as int) * ((m as int) / (den as int)) + (m as int) % (den as int),
                0 <= (m as int) % (den as int),
        ;
    }
    q
}

/// Computes `probe_end_spec` and bounds the offset: the test segment is at
/// most `probe` long, so the endpoint stays in the wide coordinate box.
pub fn probe_end(s: Sample, probe: i64, side_a: bool) -> (e: Coord)
    requires
        sample_in_bounds(s),
        1 <= probe <= COORD_LIMIT,
    ensures
        e == probe_end_spec(s, probe as int, side_a),
        e.in_wide_bounds(),
        (e.x - s.pos.x) * (e.x - s.pos.x) + (e.y - s.pos.y) * (e.y - s.pos.y) <= (probe as int) * (
        probe as int),
{
    let dx: i128 = s.dx as i128;
    let dy: i128 = s.dy as i128;
    proof {
        lemma_abs_mul_bound(dx as int, dx as int, 400000000, 400000000);
        lemma_abs_mul_bound(dy as int, dy as int, 400000000, 400000000);
        assert(0 <= dx * dx && 0 <= dy * dy) by (nonlinear_arith);
    }
    let den: i128 = dx * dx + dy * dy;
    assert(0 < den) by (nonlinear_arith)
        requires
            den == dx * dx + dy * dy,
            !(dx == 0 && dy == 0),
    ;
    let px: i128 = if side_a {
        dy
    } else {
        -dy
    };
    let py: i128 = if side_a {
        -dx
    } else {
        dx
    };
    proof {
        lemma_abs_mul_bound(probe as int, px as int, 100000000, 400000000);
        lemma_abs_mul_bound(probe as int, py as int, 100000000, 400000000);
    }
    let numx: i128 = probe as i128 * px;
    let numy: i128 = probe as i128 * py;
    proof {
        assert(px * px + py * py == den) by (nonlinear_arith)
            requires
                (px == dy && py == -dx) || (px == -dy && py == dx),
                den == dx * dx + dy * dy,
        ;
        assert(numx * numx + numy * numy == (probe as int) * (probe as int) * (den as int))
            by (nonlinear_arith)
            requires
                numx == probe as int * px,
                numy == probe as int * py,
                px * px + py * py == den,
        ;
    }
    let qx: u128 = sqrt_ratio_mag(if numx >= 0 {
        numx as u128
    } else {
        (-numx) as u128
    }, den as u128);
    let qy: u128 = sqrt_ratio_mag(if numy >= 0 {
        numy as u128
    } else {
        (-numy) as u128
    }, den as u128);
    proof {
        if numx >= 0 {
            assert(scaled_ratio(numx as int, den as int) == qx as int);
        } else {
            assert((-numx) as int * ((-numx) as int) == (numx as int) * (numx as int)) by (nonlinear_arith);
            assert(scaled_ratio(numx as int, den as int) == -(qx as int));
        }
        if numy >= 0 {
            assert(scaled_ratio(numy as int, den as int) == qy as int);
        } else {
            assert((-numy) as int * ((-numy) as int) == (numy as int) * (numy as int)) by (nonlinear_arith);
            assert(scaled_ratio(numy as int, den as int) == -(qy as int));
        }
        lemma_offset_norm(numx as int, numy as int, qx as int, qy as int, den as int, probe as int);
    }
    let ox: i128 = if numx >= 0 {
        qx as i128
    } else {
        -(qx as i128)
    };
    let oy: i128 = if numy >= 0 {
        qy as i128
    } else {
        -(qy as i128)
    };
    let e = Coord { x: (s.pos.x as i128 + ox) as i64, y: (s.pos.y as i128 + oy) as i64 };
    proof {
        assert(ox * ox == (qx as int) * (qx as int)) by (nonlinear_arith)
            requires
                ox == qx as int || ox == -(qx as int),
        ;
        assert(oy * oy == (qy as int) * (qy as int)) by (nonlinear_arith)
            requires
                oy == qy as int || oy == -(qy as int),
        ;
        assert((e.x - s.pos.x) * (e.x - s.pos.x) == (ox as int) * (ox as int)) by (nonlinear_arith)
            requires
                e.x as int == s.pos.x as int + ox as int,
        ;
        assert((e.y - s.pos.y) * (e.y - s.pos.y) == (oy as int) * (oy as int)) by (nonlinear_arith)
            requires
                e.y as int == s.pos.y as int + oy as int,
        ;
    }
    e
}

/// The offsets produced by `sqrt_ratio_mag` for the two perpendicular
/// components have Euclidean norm at most `probe`, and each component at
/// most `probe` in magnitude.
pub proof fn lemma_offset_norm(numx: int, numy: int, qx: int, qy: int, den: int, probe: int)
    requires
        0 < den,
        0 <= probe,
        0 <= qx,
        0 <= qy,
        qx * qx * den <= numx * numx,
        qy * qy * den <= numy * numy,
        numx * numx + numy * numy == probe * probe * den,
    ensures
        qx * qx + qy * qy <= probe * probe,
        qx <= probe,
        qy <= probe,
{
    assert(qx * qx + qy * qy <= probe * probe) by (nonlinear_arith)
        requires
            0 < den,
            qx * qx * den <= numx * numx,
            qy * qy * den <= numy * numy,
            numx * numx + numy * numy == probe * probe * den,
    ;
    assert(qx <= probe && qy <= probe) by (nonlinear_arith)
        requires
            0 <= qx,
            0 <= qy,
            0 <= probe,
            qx * qx + qy * qy <= probe * probe,
    ;
}

/// The raw determinant of the test segment `(p1, p2)` against the edge
/// `(q1, q2)`: the cross product of their direction vectors.  Zero means
/// parallel or collinear; such configurations never count as a single-point
/// hit, matching intersection kernels that classify them as collinear or
/// disjoint.
pub open spec fn hit_det(p1: Coord, p2: Coord, q1: Coord, q2: Coord) -> int {
    cross(p2.x - p1.x, p2.y - p1.y, q2.x - q1.x, q2.y - q1.y)
}

/// The raw numerator of the parameter of the intersection point along the
/// test segment.
pub open spec fn hit_t_raw(p1: Coord, p2: Coord, q1: Coord, q2: Coord) -> int {
    cross(q1.x - p1.x, q1.y - p1.y, q2.x - q1.x, q2.y - q1.y)
}

/// The raw numerator of the parameter of the intersection point along the
/// edge.
pub open spec fn hit_u_raw(p1: Coord, p2: Coord, q1: Coord, q2: Coord) -> int {
    cross(q1.x - p1.x, q1.y - p1.y, p2.x - p1.x, p2.y - p1.y)
}

/// The normalized (positive) denominator of the intersection parameters.
pub open spec fn hit_den(p1: Coord, p2: Coord, q1: Coord, q2: Coord) -> int {
    let dd = hit_det(p1, p2, q1, q2);
    if dd >= 0 {
        dd
    } else {
        -dd
    }
}

/// The normalized numerator of the parameter along the test segment.
pub open spec fn hit_tn(p1: Coord, p2: Coord, q1: Coord, q2: Coord) -> int {
    if hit_det(p1, p2, q1, q2) >= 0 {
        hit_t_raw(p1, p2, q1, q2)
    } else {
        -hit_t_raw(p1, p2, q1, q2)
    }
}

/// The normalized numerator of the parameter along the edge.
pub open spec fn hit_un(p1: Coord, p2: Coord, q1: Coord, q2: Coord) -> int {
    if hit_det(p1, p2, q1, q2) >= 0 {
        hit_u_raw(p1, p2, q1, q2)
    } else {
        -hit_u_raw(p1, p2, q1, q2)
    }
}

/// The test segment and the edge meet in exactly one point: they are not
/// parallel, and both intersection parameters lie in the closed unit
/// interval.
pub open spec fn hit_exists(p1: Coord, p2: Coord, q1: Coord, q2: Coord) -> bool {
    hit_det(p1, p2, q1, q2) != 0 && 0 <= hit_tn(p1, p2, q1, q2) <= hit_den(p1, p2, q1, q2) && 0
        <= hit_un(p1, p2, q1, q2) <= hit_den(p1, p2, q1, q2)
}

/// The intersection point, each coordinate truncated toward the segment
/// start `p1`.
pub open spec fn hit_point(p1: Coord, p2: Coord, q1: Coord, q2: Coord) -> Coord {
    let tn = hit_tn(p1, p2, q1, q2);
    let dd = hit_den(p1, p2, q1, q2);
    Coord {
        x: (p1.x + trunc_div(tn * (p2.x - p1.x), dd)) as i64,
        y: (p1.y + trunc_div(tn * (p2.y - p1.y), dd)) as i64,
    }
}

/// One hit candidate: the intersection point and the exact intersection
/// parameter `t_num / t_den` along the test segment.
#[derive(Clone, Copy, PartialEq, Eq, Structural, Debug)]
pub struct Hit {
    pub point: Coord,
    pub t_num: i64,
    pub t_den: i64,
}

/// `trunc_div` of a scaled difference stays between `0` and the difference.
pub proof fn lemma_trunc_interp_range(a: int, k: int, b: int)
    requires
        0 < b,
        0 <= k <= b,
    ensures
        a >= 0 ==> 0 <= trunc_div(k * a, b) <= a,
        a < 0 ==> a <= trunc_div(k * a, b) <= 0,
{
    if a >= 0 {
        assert(0 <= k * a) by (nonlinear_arith)
            requires
                0 <= k,
                0 <= a,
        ;
        assert(0 <= (k * a) / b <= a) by (nonlinear_arith)
            requires
                0 < b,
                0 <= k <= b,
                0 <= a,
                0 <= k * a,
        ;
    } else {
        assert(0 <= k * (-a)) by (nonlinear_arith)
            requires
                0 <= k,
                a < 0,
        ;
        assert(0 <= (k * (-a)) / b <= -a) by (nonlinear_arith)
            requires
                0 < b,
                0 <= k <= b,
                a < 0,
                0 <= k * (-a),
        ;
        assert(-(k * a) == k * (-a)) by (nonlinear_arith);
    }
}

/// Tests the segment `(p1, p2)` against the edge `(q1, q2)` and returns the
/// single-point intersection nearest facts, or `None` when the two do not
/// meet in a single point.
pub fn edge_hit(p1: Coord, p2: Coord, q1: Coord, q2: Coord) -> (r: Option<Hit>)
    requires
        p1.in_wide_bounds(),
        p2.in_wide_bounds(),
        q1.in_bounds(),
        q2.in_bounds(),
    ensures
        r is Some <==> hit_exists(p1, p2, q1, q2),
        r is Some ==> {
            let h = r->Some_0;
            h.t_num as int == hit_tn(p1, p2, q1, q2) && h.t_den as int == hit_den(p1, p2, q1, q2)
                && h.point == hit_point(p1, p2, q1, q2) && 0 < h.t_den && 0 <= h.t_num
                <= h.t_den && h.point.in_wide_bounds()
        },
{
    let rx: i128 = p2.x as i128 - p1.x as i128;
    let ry: i128 = p2.y as i128 - p1.y as i128;
    let sx: i128 = q2.x as i128 - q1.x as i128;
    let sy: i128 = q2.y as i128 - q1.y as i128;
    let qpx: i128 = q1.x as i128 - p1.x as i128;
    let qpy: i128 = q1.y as i128 - p1.y as i128;
    proof {
        lemma_abs_mul_bound(rx as int, sy as int, 800000000, 800000000);
        lemma_abs_mul_bound(ry as int, sx as int, 800000000, 800000000);
        lemma_abs_mul_bound(qpx as int, sy as int, 800000000, 800000000);
        lemma_abs_mul_bound(qpy as int, sx as int, 800000000, 800000000);
        lemma_abs_mul_bound(qpx as int, ry as int, 800000000, 800000000);
        lemma_abs_mul_bound(qpy as int, rx as int, 800000000, 800000000);
    }
    let det: i128 = rx * sy - ry * sx;
    if det == 0 {
        return None;
    }
    let t_raw: i128 = qpx * sy - qpy * sx;
    let u_raw: i128 = qpx * ry - qpy * rx;
    let dd: i128 = if det >= 0 {
        det
    } else {
        -det
    };
    let tn: i128 = if det >= 0 {
        t_raw
    } else {
        -t_raw
    };
    let un: i128 = if det >= 0 {
        u_raw
    } else {
        -u_raw
    };
    if !(0 <= tn && tn <= dd && 0 <= un && un <= dd) {
        return None;
    }
    proof {
        lemma_abs_mul_bound(tn as int, rx as int, 1280000000000000000, 800000000);
        lemma_abs_mul_bound(tn as int, ry as int, 1280000000000000000, 800000000);
        lemma_trunc_interp_range(rx as int, tn as int, dd as int);
        lemma_trunc_interp_range(ry as int, tn as int, dd as int);
    }
    let hx: i128 = p1.x as i128 + trunc_div_exec(tn * rx, dd);
    let hy: i128 = p1.y as i128 + trunc_div_exec(tn * ry, dd);
    let h = Hit {
        point: Coord { x: hx as i64, y: hy as i64 },
        t_num: tn as i64,
        t_den: dd as i64,
    };
    Some(h)
}

} // verus!
