//! The width measurement engine: for each oriented sample point of the
//! resampled path, casts one perpendicular test segment to each side, finds
//! the nearest obstacle hit on each, and emits a width measurement exactly
//! when both sides hit within the probe distance.

use vstd::prelude::*;

verus! {

use crate::geom::{sqrt_floor, isqrt, Aabb, Coord, COORD_LIMIT};
use crate::index::{build_index, index_boxes};
use crate::nearest::{nearest_hit, nearest_spec, pair_point};
use crate::polygon::{coords_bbox, coords_bbox_spec, Polygon};
use crate::raycast::{probe_end, probe_end_spec};
use crate::resample::{resample, sample_points, seg_len_sq, Sample};

/// One accepted measurement: the line between the two lateral hit points and
/// its length in millimeters (the integer square root of the exact squared
/// length).
#[derive(Clone, Copy, PartialEq, Eq, Structural, Debug)]
pub struct WidthMeasurement {
    pub start: Coord,
    pub end: Coord,
    pub width: i64,
}

/// The sink the engine reports to.  `nearby_polygon` receives every obstacle
/// polygon once, for debugging or visualization only; `perp_line` receives
/// each accepted measurement, in path order.
pub trait Output {
    /// Receives one obstacle polygon.
    fn nearby_polygon(&mut self, polygon: &Polygon);

    /// Receives one accepted width measurement.
    fn perp_line(&mut self, start: Coord, end: Coord, width: i64);
}

/// The measurement of a single sample point, if both lateral test segments
/// hit an obstacle within the probe distance.
pub open spec fn measure_sample(s: Sample, polys: Seq<Polygon>, probe: int) -> Option<
    WidthMeasurement,
> {
    let e1 = probe_end_spec(s, probe, true);
    let e2 = probe_end_spec(s, probe, false);
    let h1 = nearest_spec(s.pos, e1, polys);
    let h2 = nearest_spec(s.pos, e2, polys);
    if h1 is Some && h2 is Some {
        let a = pair_point(s.pos, e1, polys, h1->Some_0.0, h1->Some_0.1);
        let b = pair_point(s.pos, e2, polys, h2->Some_0.0, h2->Some_0.1);
        Some(
            WidthMeasurement {
                start: a,
                end: b,
                width: sqrt_floor(seg_len_sq(a, b)) as i64,
            },
        )
    } else {
        None
    }
}

/// The measurements of a sample sequence, in order, skipping rejected
/// samples.
pub open spec fn measure_seq(samples: Seq<Sample>, polys: Seq<Polygon>, probe: int) -> Seq<
    WidthMeasurement,
>
    decreases samples.len(),
{
    if samples.len() == 0 {
        Seq::empty()
    } else {
        let rest = measure_seq(samples.drop_first(), polys, probe);
        match measure_sample(samples[0], polys, probe) {
            Option::Some(m) => seq![m] + rest,
            Option::None => rest,
        }
    }
}

/// Everything the engine emits for the given inputs: the width measurements
/// of the resampled path against the obstacle set, in path order.
pub open spec fn measurements_spec(
    path: Seq<Coord>,
    polys: Seq<Polygon>,
    step: int,
    probe: int,
) -> Seq<WidthMeasurement> {
    measure_seq(sample_points(path, step), polys, probe)
}

/// The engine accepts these inputs: a path of at least two vertices inside
/// the workable region, obstacle polygons inside the region, a positive step
/// and a positive probe distance.
pub open spec fn inputs_ok(path: Seq<Coord>, polys: Seq<Polygon>, step: int, probe: int) -> bool {
    path.len() >= 2 && 1 <= step && 1 <= probe <= COORD_LIMIT as int && (forall|i: int|
        0 <= i < path.len() ==> (#[trigger] path[i]).in_bounds()) && (forall|i: int|
        0 <= i < polys.len() ==> (#[trigger] polys[i]).in_bounds())
}

/// Computes the width measurements of the path against the obstacle set: the
/// engine's core, returning exactly `measurements_spec`.
pub fn calculate_measurements(
    route: &Vec<Coord>,
    polygons: &Vec<Polygon>,
    step: i64,
    probe: i64,
) -> (r: Vec<WidthMeasurement>)
    requires
        inputs_ok(route@, polygons@, step as int, probe as int),
    ensures
        r@ == measurements_spec(route@, polygons@, step as int, probe as int),
{
    let npolys = polygons.len();
    let mut boxes: Vec<Aabb> = Vec::new();
    let mut i: usize = 0;
    while i < npolys
        invariant
            0 <= i <= npolys,
            npolys == polygons@.len(),
            boxes@.len() == i as int,
            forall|k: int| 0 <= k < i ==> (#[trigger] boxes@[k]) == polygons@[k].bbox_spec(),
            forall|k: int| 0 <= k < i ==> (#[trigger] boxes@[k]).wf(),
        decreases npolys - i,
    {
        let b = polygons[i].bbox();
        boxes.push(b);
        i = i + 1;
    }
    let idx = build_index(&boxes);
    let samples = resample(route, step);
    let nsamples = samples.len();
    let mut out: Vec<WidthMeasurement> = Vec::new();
    proof {
        assert(samples@.skip(0) =~= samples@);
        assert(out@ + measure_seq(samples@, polygons@, probe as int) =~= measure_seq(
            samples@,
            polygons@,
            probe as int,
        ));
    }
    let mut k: usize = 0;
    while k < nsamples
        invariant
            0 <= k <= nsamples,
            nsamples == samples@.len(),
            step >= 1,
            1 <= probe <= COORD_LIMIT,
            forall|j: int|
                0 <= j < samples@.len() ==> crate::resample::sample_in_bounds(
                    #[trigger] samples@[j],
                ),
            forall|j: int| 0 <= j < polygons@.len() ==> (#[trigger] polygons@[j]).in_bounds(),
            index_boxes(idx).len() == polygons@.len(),
            forall|j: int|
                0 <= j < polygons@.len() ==> index_boxes(idx)[j] == (#[trigger] polygons@[j]).bbox_spec(),
            out@ + measure_seq(samples@.skip(k as int), polygons@, probe as int) == measure_seq(
                samples@,
                polygons@,
                probe as int,
            ),
        decreases nsamples - k,
    {
        let ghost pre = out@;
        let s = samples[k];
        let e1 = probe_end(s, probe, true);
        let h1 = nearest_hit(s.pos, e1, polygons, &idx);
        let e2 = probe_end(s, probe, false);
        let h2 = nearest_hit(s.pos, e2, polygons, &idx);
        proof {
            let suf = samples@.skip(k as int);
            assert(suf.len() >= 1);
            assert(suf[0] == samples@[k as int]);
            assert(suf.drop_first() =~= samples@.skip(k as int + 1));
        }
        match (h1, h2) {
            (Option::Some(a), Option::Some(b)) => {
                let dx: i128 = b.point.x as i128 - a.point.x as i128;
                let dy: i128 = b.point.y as i128 - a.point.y as i128;
                proof {
                    crate::geom::lemma_abs_mul_bound(dx as int, dx as int, 800000000, 800000000);
                    crate::geom::lemma_abs_mul_bound(dy as int, dy as int, 800000000, 800000000);
                    assert(0 <= dx * dx && 0 <= dy * dy) by (nonlinear_arith);
                }
                let dsq: u128 = (dx * dx + dy * dy) as u128;
                let w = isqrt(dsq);
                proof {
                    assert((w as int) * (w as int) <= dsq as int);
                    assert(w as int <= 1600000000) by (nonlinear_arith)
                        requires
                            (w as int) * (w as int) <= dsq as int,
                            dsq as int <= 1280000000000000000,
                            0 <= w as int,
                    ;
                }
                let m = WidthMeasurement { start: a.point, end: b.point, width: w as i64 };
                assert(measure_sample(samples@[k as int], polygons@, probe as int) == Some(m));
                out.push(m);
                proof {
                    assert(out@ + measure_seq(samples@.skip(k as int + 1), polygons@, probe as int)
                        =~= pre + measure_seq(samples@.skip(k as int), polygons@, probe as int));
                }
            },
            _ => {
                proof {
                    assert(measure_sample(samples@[k as int], polygons@, probe as int) is None);
                    assert(out@ + measure_seq(samples@.skip(k as int + 1), polygons@, probe as int)
                        =~= pre + measure_seq(samples@.skip(k as int), polygons@, probe as int));
                }
            },
        }
        k = k + 1;
    }
    proof {
        assert(samples@.skip(nsamples as int) =~= Seq::<Sample>::empty());
        assert(out@ =~= measure_seq(samples@, polygons@, probe as int));
    }
    out
}

/// Runs the engine and reports to the sink: every obstacle polygon once,
/// then every accepted measurement, in path order.
pub fn calculate<O: Output>(
    route: &Vec<Coord>,
    polygons: &Vec<Polygon>,
    step: i64,
    probe: i64,
    output: &mut O,
)
    requires
        inputs_ok(route@, polygons@, step as int, probe as int),
{
    let npolys = polygons.len();
    let mut i: usize = 0;
    while i < npolys
        invariant
            0 <= i <= npolys,
            npolys == polygons@.len(),
        decreases npolys - i,
    {
        output.nearby_polygon(&polygons[i]);
        i = i + 1;
    }
    let measurements = calculate_measurements(route, polygons, step, probe);
    let nm = measurements.len();
    let mut k: usize = 0;
    while k < nm
        invariant
            0 <= k <= nm,
            nm == measurements@.len(),
        decreases nm - k,
    {
        let m = measurements[k];
        output.perp_line(m.start, m.end, m.width);
        k = k + 1;
    }
}

/// The bounding box of the route, widened on every side by the probe
/// distance: the region whose obstacle polygons can possibly matter.
pub fn bbox(route: &Vec<Coord>, margin: i64) -> (r: Aabb)
    requires
        forall|i: int| 0 <= i < route@.len() ==> (#[trigger] route@[i]).in_bounds(),
        0 <= margin <= COORD_LIMIT,
    ensures
        r.min_x as int == coords_bbox_spec(route@).min_x - margin,
        r.min_y as int == coords_bbox_spec(route@).min_y - margin,
        r.max_x as int == coords_bbox_spec(route@).max_x + margin,
        r.max_y as int == coords_bbox_spec(route@).max_y + margin,
{
    let b = coords_bbox(route);
    proof {
        if route@.len() > 0 {
            crate::polygon::lemma_coords_bbox_contains(route@, 0);
        }
    }
    Aabb {
        min_x: b.min_x - margin,
        min_y: b.min_y - margin,
        max_x: b.max_x + margin,
        max_y: b.max_y + margin,
    }
}

} // verus!
