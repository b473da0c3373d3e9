use widths::engine::bbox;
use widths::geom::{isqrt, Aabb, Coord};
use widths::polygon::Polygon;
use widths::resample::{densify_path, resample};

fn c(x: i64, y: i64) -> Coord {
    Coord { x, y }
}

#[test]
fn isqrt_exact_and_floor() {
    assert_eq!(isqrt(0), 0);
    assert_eq!(isqrt(1), 1);
    assert_eq!(isqrt(3), 1);
    assert_eq!(isqrt(4), 2);
    assert_eq!(isqrt(99), 9);
    assert_eq!(isqrt(100), 10);
    assert_eq!(isqrt(10_000_000_000), 100_000);
    assert_eq!(isqrt(u64::MAX as u128), 4_294_967_295);
}

#[test]
fn densify_preserves_endpoints_and_spacing() {
    let path = vec![c(0, 0), c(10_000, 0)];
    let dense = densify_path(&path, 3_000);
    // 10 m at a 3 m step: four pieces of 2.5 m each.
    assert_eq!(dense.len(), 5);
    assert_eq!(dense[0], c(0, 0));
    assert_eq!(dense[1], c(2_500, 0));
    assert_eq!(dense[2], c(5_000, 0));
    assert_eq!(dense[3], c(7_500, 0));
    assert_eq!(dense[4], c(10_000, 0));
}

#[test]
fn densify_keeps_short_segments() {
    let path = vec![c(0, 0), c(2_000, 0), c(2_000, 1_000)];
    let dense = densify_path(&path, 5_000);
    assert_eq!(dense.len(), 3);
    assert_eq!(dense[0], c(0, 0));
    assert_eq!(dense[1], c(2_000, 0));
    assert_eq!(dense[2], c(2_000, 1_000));
}

#[test]
fn resample_orients_and_drops_last_vertex() {
    let path = vec![c(0, 0), c(10_000, 0), c(10_000, 6_000)];
    let samples = resample(&path, 5_000);
    // Two samples along the x run, two up the y run; the last vertex has no
    // sample of its own.
    assert_eq!(samples.len(), 4);
    assert_eq!(samples[0].pos, c(0, 0));
    assert_eq!((samples[0].dx, samples[0].dy), (5_000, 0));
    assert_eq!(samples[2].pos, c(10_000, 0));
    assert_eq!((samples[2].dx, samples[2].dy), (0, 3_000));
}

#[test]
fn resample_skips_duplicate_vertices() {
    let path = vec![c(0, 0), c(0, 0), c(4_000, 0)];
    let samples = resample(&path, 5_000);
    assert_eq!(samples.len(), 1);
    assert_eq!(samples[0].pos, c(0, 0));
    assert_eq!((samples[0].dx, samples[0].dy), (4_000, 0));
}

#[test]
fn route_bbox_expands_by_margin() {
    let route = vec![c(-1_000, 2_000), c(9_000, -4_000)];
    let b = bbox(&route, 50_000);
    assert_eq!(
        b,
        Aabb { min_x: -51_000, min_y: -54_000, max_x: 59_000, max_y: 52_000 }
    );
}

#[test]
fn polygon_constructor_closes_ring() {
    let p = Polygon::new(vec![c(0, 0), c(1_000, 0), c(0, 1_000)], Vec::new());
    assert_eq!(p.exterior.len(), 4);
    assert_eq!(p.exterior[3], c(0, 0));
    let already = Polygon::new(
        vec![c(0, 0), c(1_000, 0), c(0, 1_000), c(0, 0)],
        Vec::new(),
    );
    assert_eq!(already.exterior.len(), 4);
    let b = p.bbox();
    assert_eq!(b, Aabb { min_x: 0, min_y: 0, max_x: 1_000, max_y: 1_000 });
}
