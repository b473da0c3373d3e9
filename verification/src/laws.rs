//! The engine's general guarantees, stated and proved over the measurement
//! specification: determinism, the probe-distance bound on every width, the
//! empty-obstacle case, and the irrelevance of polygon holes.

use vstd::prelude::*;

verus! {

use crate::engine::{measure_sample, measure_seq, measurements_spec, WidthMeasurement};
use crate::geom::{is_sqrt_floor, lemma_sqrt_floor_exists, lemma_sqrt_floor_is,
    lemma_sqrt_floor_monotone, sqrt_floor, Coord, COORD_LIMIT};
use crate::nearest::{best_before, lemma_best_before, nearest_spec, pair_hits, pair_point, pair_td,
    pair_tn, valid_pair};
use crate::polygon::Polygon;
use crate::geom::trunc_div;
use crate::raycast::{dir_len_sq, hit_den, hit_exists, hit_point, hit_tn, lemma_offset_norm,
    lemma_trunc_interp_range, perp_x, perp_y, probe_end_spec, scaled_ratio};
use crate::resample::{densify, densify_pair, interp, pieces, sample_in_bounds, sample_points,
    samples_of, seg_len_sq, Sample};
use vstd::arithmetic::div_mod::{lemma_div_is_ordered, lemma_fundamental_div_mod, lemma_mod_bound};

/// Determinism: the emitted measurement sequence is a function of the path,
/// the obstacle set, the step and the probe distance alone, so two runs on
/// identical inputs emit identical measurements in identical order.
pub proof fn lemma_deterministic(
    r1: Seq<WidthMeasurement>,
    r2: Seq<WidthMeasurement>,
    path: Seq<Coord>,
    polys: Seq<Polygon>,
    step: int,
    probe: int,
)
    requires
        r1 == measurements_spec(path, polys, step, probe),
        r2 == measurements_spec(path, polys, step, probe),
    ensures
        r1 == r2,
{
}

/// With no obstacle polygons every ray misses, so the engine emits no
/// measurements at all.
pub proof fn lemma_no_obstacles_no_output(path: Seq<Coord>, step: int, probe: int, polys: Seq<
    Polygon,
>)
    requires
        polys.len() == 0,
    ensures
        measurements_spec(path, polys, step, probe) =~= Seq::<WidthMeasurement>::empty(),
{
    lemma_measure_seq_empty(sample_points(path, step), polys, probe);
}

proof fn lemma_measure_seq_empty(samples: Seq<Sample>, polys: Seq<Polygon>, probe: int)
    requires
        polys.len() == 0,
    ensures
        measure_seq(samples, polys, probe) =~= Seq::<WidthMeasurement>::empty(),
    decreases samples.len(),
{
    if samples.len() > 0 {
        lemma_measure_seq_empty(samples.drop_first(), polys, probe);
    }
}

/// Two obstacle sets whose exterior rings agree polygon by polygon; their
/// holes may differ arbitrarily.
pub open spec fn same_exteriors(a: Seq<Polygon>, b: Seq<Polygon>) -> bool {
    a.len() == b.len() && forall|i: int|
        0 <= i < a.len() ==> (#[trigger] a[i]).exterior@ == b[i].exterior@
}

proof fn lemma_best_before_cong(
    p1: Coord,
    p2: Coord,
    a: Seq<Polygon>,
    b: Seq<Polygon>,
    i: int,
    j: int,
)
    requires
        same_exteriors(a, b),
        0 <= i <= a.len(),
        0 <= j,
        i < a.len() ==> j <= a[i].edge_count(),
        i == a.len() as int ==> j == 0,
    ensures
        best_before(p1, p2, a, i, j) == best_before(p1, p2, b, i, j),
    decreases i, j,
{
    if i <= 0 && j <= 0 {
    } else if j <= 0 {
        assert(a[i - 1].exterior@ == b[i - 1].exterior@);
        assert(a[i - 1].edge_count() == b[i - 1].edge_count());
        lemma_best_before_cong(p1, p2, a, b, i - 1, a[i - 1].edge_count());
    } else {
        lemma_best_before_cong(p1, p2, a, b, i, j - 1);
        lemma_best_before(p1, p2, a, i, j - 1);
        assert(a[i].exterior@ == b[i].exterior@);
        assert(pair_hits(p1, p2, a, i, j - 1) == pair_hits(p1, p2, b, i, j - 1));
        let prev = best_before(p1, p2, a, i, j - 1);
        if pair_hits(p1, p2, a, i, j - 1) {
            match prev {
                Option::None => {},
                Option::Some(w) => {
                    assert(valid_pair(a, w.0, w.1));
                    assert(a[w.0].exterior@ == b[w.0].exterior@);
                    assert(pair_tn(p1, p2, a, w.0, w.1) == pair_tn(p1, p2, b, w.0, w.1));
                    assert(pair_td(p1, p2, a, w.0, w.1) == pair_td(p1, p2, b, w.0, w.1));
                    assert(pair_tn(p1, p2, a, i, j - 1) == pair_tn(p1, p2, b, i, j - 1));
                    assert(pair_td(p1, p2, a, i, j - 1) == pair_td(p1, p2, b, i, j - 1));
                },
            }
        }
    }
}

proof fn lemma_measure_sample_cong(s: Sample, a: Seq<Polygon>, b: Seq<Polygon>, probe: int)
    requires
        same_exteriors(a, b),
    ensures
        measure_sample(s, a, probe) == measure_sample(s, b, probe),
{
    let e1 = probe_end_spec(s, probe, true);
    let e2 = probe_end_spec(s, probe, false);
    lemma_best_before_cong(s.pos, e1, a, b, a.len() as int, 0);
    lemma_best_before_cong(s.pos, e2, a, b, a.len() as int, 0);
    lemma_best_before(s.pos, e1, a, a.len() as int, 0);
    lemma_best_before(s.pos, e2, a, a.len() as int, 0);
    let h1 = nearest_spec(s.pos, e1, a);
    let h2 = nearest_spec(s.pos, e2, a);
    if h1 is Some && h2 is Some {
        let w1 = h1->Some_0;
        let w2 = h2->Some_0;
        assert(valid_pair(a, w1.0, w1.1));
        assert(valid_pair(a, w2.0, w2.1));
        assert(a[w1.0].exterior@ == b[w1.0].exterior@);
        assert(a[w2.0].exterior@ == b[w2.0].exterior@);
        assert(pair_point(s.pos, e1, a, w1.0, w1.1) == pair_point(s.pos, e1, b, w1.0, w1.1));
        assert(pair_point(s.pos, e2, a, w2.0, w2.1) == pair_point(s.pos, e2, b, w2.0, w2.1));
    }
}

proof fn lemma_measure_seq_cong(samples: Seq<Sample>, a: Seq<Polygon>, b: Seq<Polygon>, probe: int)
    requires
        same_exteriors(a, b),
    ensures
        measure_seq(samples, a, probe) == measure_seq(samples, b, probe),
    decreases samples.len(),
{
    if samples.len() > 0 {
        lemma_measure_sample_cong(samples[0], a, b, probe);
        lemma_measure_seq_cong(samples.drop_first(), a, b, probe);
    }
}

/// Hole irrelevance: holes never take part in intersection testing, so two
/// obstacle sets with the same exterior rings yield exactly the same
/// measurements, whatever their holes.
pub proof fn lemma_holes_do_not_matter(
    path: Seq<Coord>,
    step: int,
    probe: int,
    a: Seq<Polygon>,
    b: Seq<Polygon>,
)
    requires
        same_exteriors(a, b),
    ensures
        measurements_spec(path, a, step, probe) == measurements_spec(path, b, step, probe),
{
    lemma_measure_seq_cong(sample_points(path, step), a, b, probe);
}

/// The test segment of a sample is at most `probe` long, and its far
/// endpoint stays in the wide coordinate box.
proof fn lemma_probe_end_norm(s: Sample, probe: int, side_a: bool)
    requires
        sample_in_bounds(s),
        1 <= probe <= COORD_LIMIT as int,
    ensures
        probe_end_spec(s, probe, side_a).in_wide_bounds(),
        seg_len_sq(s.pos, probe_end_spec(s, probe, side_a)) <= probe * probe,
{
    let d = dir_len_sq(s);
    let px = perp_x(s, side_a);
    let py = perp_y(s, side_a);
    assert(0 < d) by (nonlinear_arith)
        requires
            d == (s.dx as int) * (s.dx as int) + (s.dy as int) * (s.dy as int),
            !(s.dx == 0 && s.dy == 0),
    ;
    let numx = probe * px;
    let numy = probe * py;
    assert(0 <= numx * numx && 0 <= numy * numy) by (nonlinear_arith);
    lemma_div_is_ordered(0, numx * numx, d);
    lemma_div_is_ordered(0, numy * numy, d);
    lemma_sqrt_floor_exists((numx * numx) / d);
    lemma_sqrt_floor_exists((numy * numy) / d);
    let qx = sqrt_floor((numx * numx) / d);
    let qy = sqrt_floor((numy * numy) / d);
    lemma_fundamental_div_mod(numx * numx, d);
    lemma_mod_bound(numx * numx, d);
    lemma_fundamental_div_mod(numy * numy, d);
    lemma_mod_bound(numy * numy, d);
    assert(qx * qx * d <= numx * numx) by (nonlinear_arith)
        requires
            qx * qx <= (numx * numx) / d,
            0 < d,
            numx * numx == d * ((numx * numx) / d) + (numx * numx) % d,
            0 <= (numx * numx) % d,
    ;
    assert(qy * qy * d <= numy * numy) by (nonlinear_arith)
        requires
            qy * qy <= (numy * numy) / d,
            0 < d,
            numy * numy == d * ((numy * numy) / d) + (numy * numy) % d,
            0 <= (numy * numy) % d,
    ;
    assert(px * px + py * py == d) by (nonlinear_arith)
        requires
            (px == s.dy as int && py == -(s.dx as int)) || (px == -(s.dy as int) && py
                == s.dx as int),
            d == (s.dx as int) * (s.dx as int) + (s.dy as int) * (s.dy as int),
    ;
    assert(numx * numx + numy * numy == probe * probe * d) by (nonlinear_arith)
        requires
            numx == probe * px,
            numy == probe * py,
            px * px + py * py == d,
    ;
    lemma_offset_norm(numx, numy, qx, qy, d, probe);
    let ox = scaled_ratio(numx, d);
    let oy = scaled_ratio(numy, d);
    if numx < 0 {
        assert((-numx) * (-numx) == numx * numx) by (nonlinear_arith);
    }
    if numy < 0 {
        assert((-numy) * (-numy) == numy * numy) by (nonlinear_arith);
    }
    assert(ox == qx || ox == -qx);
    assert(oy == qy || oy == -qy);
    let e = probe_end_spec(s, probe, side_a);
    assert(e.x as int == s.pos.x + ox && e.y as int == s.pos.y + oy);
    assert(ox * ox == qx * qx) by (nonlinear_arith)
        requires
            ox == qx || ox == -qx,
    ;
    assert(oy * oy == qy * qy) by (nonlinear_arith)
        requires
            oy == qy || oy == -qy,
    ;
    assert(seg_len_sq(s.pos, e) == ox * ox + oy * oy) by (nonlinear_arith)
        requires
            e.x as int == s.pos.x + ox,
            e.y as int == s.pos.y + oy,
    ;
}

/// A hit point lies no farther from the segment start than the segment's
/// far endpoint, coordinate by coordinate, so also in squared distance.
proof fn lemma_hit_point_dist(p1: Coord, p2: Coord, q1: Coord, q2: Coord)
    requires
        hit_exists(p1, p2, q1, q2),
        p1.in_wide_bounds(),
        p2.in_wide_bounds(),
    ensures
        hit_point(p1, p2, q1, q2).in_wide_bounds(),
        seg_len_sq(p1, hit_point(p1, p2, q1, q2)) <= seg_len_sq(p1, p2),
{
    let tn = hit_tn(p1, p2, q1, q2);
    let dd = hit_den(p1, p2, q1, q2);
    let rx = p2.x - p1.x;
    let ry = p2.y - p1.y;
    lemma_trunc_interp_range(rx, tn, dd);
    lemma_trunc_interp_range(ry, tn, dd);
    let ox = trunc_div(tn * rx, dd);
    let oy = trunc_div(tn * ry, dd);
    let h = hit_point(p1, p2, q1, q2);
    assert(h.x as int == p1.x + ox && h.y as int == p1.y + oy);
    assert(ox * ox <= rx * rx) by (nonlinear_arith)
        requires
            (rx >= 0 && 0 <= ox <= rx) || (rx < 0 && rx <= ox <= 0),
    ;
    assert(oy * oy <= ry * ry) by (nonlinear_arith)
        requires
            (ry >= 0 && 0 <= oy <= ry) || (ry < 0 && ry <= oy <= 0),
    ;
    assert(seg_len_sq(p1, h) == ox * ox + oy * oy) by (nonlinear_arith)
        requires
            h.x as int == p1.x + ox,
            h.y as int == p1.y + oy,
    ;
}

/// Two points each within squared distance `pp` of a common origin are
/// within squared distance `4 * pp` of each other.
proof fn lemma_two_sided_span(pos: Coord, a: Coord, b: Coord, pp: int)
    requires
        seg_len_sq(pos, a) <= pp,
        seg_len_sq(pos, b) <= pp,
    ensures
        seg_len_sq(a, b) <= 4 * pp,
{
    assert((b.x - a.x) * (b.x - a.x) <= 2 * ((a.x - pos.x) * (a.x - pos.x)) + 2 * ((b.x - pos.x) * (
    b.x - pos.x)) && (b.y - a.y) * (b.y - a.y) <= 2 * ((a.y - pos.y) * (a.y - pos.y)) + 2 * ((b.y
        - pos.y) * (b.y - pos.y))) by (nonlinear_arith);
}

/// One accepted sample's width is between zero and twice the probe distance.
proof fn lemma_measure_sample_width(s: Sample, polys: Seq<Polygon>, probe: int)
    requires
        sample_in_bounds(s),
        1 <= probe <= COORD_LIMIT as int,
        measure_sample(s, polys, probe) is Some,
    ensures
        0 <= measure_sample(s, polys, probe)->Some_0.width <= 2 * probe,
{
    let e1 = probe_end_spec(s, probe, true);
    let e2 = probe_end_spec(s, probe, false);
    lemma_probe_end_norm(s, probe, true);
    lemma_probe_end_norm(s, probe, false);
    let w1 = nearest_spec(s.pos, e1, polys)->Some_0;
    let w2 = nearest_spec(s.pos, e2, polys)->Some_0;
    lemma_best_before(s.pos, e1, polys, polys.len() as int, 0);
    lemma_best_before(s.pos, e2, polys, polys.len() as int, 0);
    assert(pair_hits(s.pos, e1, polys, w1.0, w1.1));
    assert(pair_hits(s.pos, e2, polys, w2.0, w2.1));
    let a = pair_point(s.pos, e1, polys, w1.0, w1.1);
    let b = pair_point(s.pos, e2, polys, w2.0, w2.1);
    assert(s.pos.in_wide_bounds());
    lemma_hit_point_dist(
        s.pos,
        e1,
        polys[w1.0].edge_start(w1.1),
        polys[w1.0].edge_end(w1.1),
    );
    lemma_hit_point_dist(
        s.pos,
        e2,
        polys[w2.0].edge_start(w2.1),
        polys[w2.0].edge_end(w2.1),
    );
    assert(seg_len_sq(s.pos, a) <= probe * probe);
    assert(seg_len_sq(s.pos, b) <= probe * probe);
    lemma_two_sided_span(s.pos, a, b, probe * probe);
    let dsq = seg_len_sq(a, b);
    assert(0 <= (b.x - a.x) * (b.x - a.x) + (b.y - a.y) * (b.y - a.y)) by (nonlinear_arith);
    assert(0 <= dsq);
    lemma_sqrt_floor_exists(dsq);
    lemma_sqrt_floor_exists(4 * (probe * probe));
    lemma_sqrt_floor_monotone(dsq, 4 * (probe * probe));
    assert(is_sqrt_floor(4 * (probe * probe), 2 * probe)) by (nonlinear_arith)
        requires
            1 <= probe,
    ;
    lemma_sqrt_floor_is(4 * (probe * probe), 2 * probe);
    assert(0 <= sqrt_floor(dsq) <= 2 * probe);
    assert(measure_sample(s, polys, probe)->Some_0.width as int == sqrt_floor(dsq));
}

proof fn lemma_measure_seq_width(samples: Seq<Sample>, polys: Seq<Polygon>, probe: int, k: int)
    requires
        forall|i: int| 0 <= i < samples.len() ==> sample_in_bounds(#[trigger] samples[i]),
        1 <= probe <= COORD_LIMIT as int,
        0 <= k < measure_seq(samples, polys, probe).len(),
    ensures
        0 <= measure_seq(samples, polys, probe)[k].width <= 2 * probe,
    decreases samples.len(),
{
    if samples.len() > 0 {
        let rest = measure_seq(samples.drop_first(), polys, probe);
        match measure_sample(samples[0], polys, probe) {
            Option::Some(m) => {
                if k == 0 {
                    lemma_measure_sample_width(samples[0], polys, probe);
                } else {
                    lemma_measure_seq_width(samples.drop_first(), polys, probe, k - 1);
                }
            },
            Option::None => {
                lemma_measure_seq_width(samples.drop_first(), polys, probe, k);
            },
        }
    }
}

/// Every densified vertex of an in-bounds path is in bounds.
proof fn lemma_densify_in_bounds(path: Seq<Coord>, step: int)
    requires
        1 <= step,
        forall|i: int| 0 <= i < path.len() ==> (#[trigger] path[i]).in_bounds(),
    ensures
        forall|i: int|
            0 <= i < densify(path, step).len() ==> (#[trigger] densify(path, step)[i]).in_bounds(),
    decreases path.len(),
{
    if path.len() <= 1 {
    } else {
        let a = path[0];
        let b = path[1];
        lemma_pieces_pos(a, b, step);
        let n = pieces(a, b, step);
        assert forall|i: int|
            0 <= i < path.drop_first().len() implies (#[trigger] path.drop_first()[i]).in_bounds() by {}
        lemma_densify_in_bounds(path.drop_first(), step);
        let dp = densify_pair(a, b, step);
        let rest = densify(path.drop_first(), step);
        assert(densify(path, step) == dp + rest);
        assert forall|i: int|
            0 <= i < densify(path, step).len() implies (#[trigger] densify(path, step)[i]).in_bounds() by {
            if i < dp.len() {
                assert(densify(path, step)[i] == dp[i]);
                assert(dp[i] == interp(a, b, n, i));
                crate::geom::lemma_round_div_interp_range(b.x - a.x, i, n);
                crate::geom::lemma_round_div_interp_range(b.y - a.y, i, n);
            } else {
                assert(densify(path, step)[i] == rest[i - dp.len()]);
            }
        }
    }
}

/// A segment is cut into at least one piece.
proof fn lemma_pieces_pos(a: Coord, b: Coord, step: int)
    requires
        1 <= step,
    ensures
        pieces(a, b, step) >= 1,
{
    let d = seg_len_sq(a, b);
    assert(0 <= (b.x - a.x) * (b.x - a.x) + (b.y - a.y) * (b.y - a.y)) by (nonlinear_arith);
    assert(0 <= d);
    lemma_sqrt_floor_exists(d);
    let s = sqrt_floor(d);
    let l = if s * s == d {
        s
    } else {
        s + 1
    };
    if l > step {
        assert((l + step - 1) / step >= 1) by (nonlinear_arith)
            requires
                1 <= step,
                l > step,
        ;
    }
}

/// Every sample of an in-bounds path is in bounds, with a nonzero direction.
pub proof fn lemma_sample_points_in_bounds(path: Seq<Coord>, step: int)
    requires
        1 <= step,
        forall|i: int| 0 <= i < path.len() ==> (#[trigger] path[i]).in_bounds(),
    ensures
        forall|i: int|
            0 <= i < sample_points(path, step).len() ==> sample_in_bounds(
                #[trigger] sample_points(path, step)[i],
            ),
{
    lemma_densify_in_bounds(path, step);
    lemma_samples_of_in_bounds(densify(path, step));
}

proof fn lemma_samples_of_in_bounds(dense: Seq<Coord>)
    requires
        forall|i: int| 0 <= i < dense.len() ==> (#[trigger] dense[i]).in_bounds(),
    ensures
        forall|i: int|
            0 <= i < samples_of(dense).len() ==> sample_in_bounds(#[trigger] samples_of(dense)[i]),
    decreases dense.len(),
{
    if dense.len() > 1 {
        assert forall|i: int|
            0 <= i < dense.drop_first().len() implies (#[trigger] dense.drop_first()[i]).in_bounds() by {}
        lemma_samples_of_in_bounds(dense.drop_first());
        let rest = samples_of(dense.drop_first());
        assert forall|i: int|
            0 <= i < samples_of(dense).len() implies sample_in_bounds(
            #[trigger] samples_of(dense)[i],
        ) by {
            if dense[0] == dense[1] {
                assert(samples_of(dense)[i] == rest[i]);
            } else {
                if i == 0 {
                    let s0 = samples_of(dense)[0];
                    assert(s0.pos == dense[0]);
                    assert(s0.dx as int == dense[1].x - dense[0].x);
                    assert(s0.dy as int == dense[1].y - dense[0].y);
                    assert(!(dense[1].x == dense[0].x && dense[1].y == dense[0].y));
                } else {
                    assert(samples_of(dense)[i] == rest[i - 1]);
                }
            }
        }
    }
}

/// Probe containment: every emitted width lies between zero and twice the
/// probe distance, the maximum two bounded test segments can span.
pub proof fn lemma_width_within_probe(
    path: Seq<Coord>,
    polys: Seq<Polygon>,
    step: int,
    probe: int,
    k: int,
)
    requires
        1 <= step,
        1 <= probe <= COORD_LIMIT as int,
        forall|i: int| 0 <= i < path.len() ==> (#[trigger] path[i]).in_bounds(),
        0 <= k < measurements_spec(path, polys, step, probe).len(),
    ensures
        0 <= measurements_spec(path, polys, step, probe)[k].width <= 2 * probe,
{
    lemma_sample_points_in_bounds(path, step);
    lemma_measure_seq_width(sample_points(path, step), polys, probe, k);
}

} // verus!
