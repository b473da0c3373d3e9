use widths::engine::{calculate, calculate_measurements, Output, WidthMeasurement};
use widths::geom::Coord;
use widths::polygon::Polygon;

fn c(x: i64, y: i64) -> Coord {
    Coord { x, y }
}

fn rect(x1: i64, y1: i64, x2: i64, y2: i64) -> Polygon {
    Polygon::new(
        vec![c(x1, y1), c(x2, y1), c(x2, y2), c(x1, y2)],
        Vec::new(),
    )
}

/// A 100 m straight path midway between two parallel walls 10 m apart, with
/// a 5 m step and a 50 m probe: one measurement per sample, each exactly
/// 10 m wide and perpendicular to the path.
#[test]
fn straight_path_between_parallel_walls() {
    let route = vec![c(0, 0), c(100_000, 0)];
    let walls = vec![
        rect(-10_000, 5_000, 110_000, 6_000),
        rect(-10_000, -6_000, 110_000, -5_000),
    ];
    let r = calculate_measurements(&route, &walls, 5_000, 50_000);
    assert_eq!(r.len(), 20);
    for m in &r {
        assert_eq!(m.width, 10_000);
        // The measurement line is perpendicular to the (x-axis) path.
        assert_eq!(m.start.x, m.end.x);
        assert_eq!(m.start.y.min(m.end.y), -5_000);
        assert_eq!(m.start.y.max(m.end.y), 5_000);
    }
}

/// A wall on one side only: the open side never hits, so no sample produces
/// a measurement.
#[test]
fn one_sided_wall_yields_nothing() {
    let route = vec![c(0, 0), c(100_000, 0)];
    let walls = vec![rect(-10_000, 5_000, 110_000, 6_000)];
    let r = calculate_measurements(&route, &walls, 5_000, 50_000);
    assert_eq!(r.len(), 0);
}

/// An empty obstacle set: every ray is a guaranteed no-hit and the output is
/// empty.
#[test]
fn empty_obstacles_yield_nothing() {
    let route = vec![c(0, 0), c(100_000, 0)];
    let r = calculate_measurements(&route, &Vec::new(), 5_000, 50_000);
    assert_eq!(r.len(), 0);
}

/// A ray exactly tangent to a corner vertex of a triangle: the touch counts
/// as a single-point hit, is not duplicated, and the run does not crash.
#[test]
fn tangent_corner_is_single_hit() {
    let route = vec![c(0, 0), c(10_000, 0)];
    let triangle = Polygon::new(
        vec![c(5_000, -3_000), c(8_000, -6_000), c(2_000, -6_000)],
        Vec::new(),
    );
    let ceiling = rect(-10_000, 5_000, 20_000, 6_000);
    let polys = vec![triangle, ceiling];
    let r = calculate_measurements(&route, &polys, 5_000, 50_000);
    // Only the sample at x = 5000 hits on both sides; the apex is met in
    // exactly one point, 3 m below, against the ceiling 5 m above.
    assert_eq!(r.len(), 1);
    assert_eq!(r[0].width, 8_000);
    assert_eq!(r[0].start.x, 5_000);
    assert_eq!(r[0].end.x, 5_000);
}

/// Halving the step doubles the number of samples here, and measurements at
/// shared positions agree.
#[test]
fn halving_step_doubles_samples() {
    let route = vec![c(0, 0), c(100_000, 0)];
    let walls = vec![
        rect(-10_000, 5_000, 110_000, 6_000),
        rect(-10_000, -6_000, 110_000, -5_000),
    ];
    let coarse = calculate_measurements(&route, &walls, 5_000, 50_000);
    let fine = calculate_measurements(&route, &walls, 2_500, 50_000);
    assert_eq!(coarse.len(), 20);
    assert_eq!(fine.len(), 40);
    for m in coarse.iter() {
        let twin = fine.iter().find(|f| f.start.x == m.start.x).unwrap();
        assert_eq!(twin.width, m.width);
        assert_eq!(twin.start, m.start);
        assert_eq!(twin.end, m.end);
    }
}

/// Repeated runs on identical inputs give identical output, measurement by
/// measurement.
#[test]
fn repeated_runs_are_identical() {
    let route = vec![c(0, 0), c(50_000, 30_000), c(90_000, 10_000)];
    let walls = vec![
        rect(-10_000, 25_000, 110_000, 29_000),
        rect(-10_000, -20_000, 110_000, -15_000),
        rect(30_000, 40_000, 60_000, 45_000),
    ];
    let r1 = calculate_measurements(&route, &walls, 5_000, 50_000);
    let r2 = calculate_measurements(&route, &walls, 5_000, 50_000);
    assert_eq!(r1.len(), r2.len());
    for (a, b) in r1.iter().zip(r2.iter()) {
        assert_eq!(a, b);
    }
}

/// Every emitted width is at most twice the probe distance.
#[test]
fn widths_bounded_by_twice_probe() {
    let route = vec![c(0, 0), c(50_000, 30_000), c(90_000, 10_000)];
    let walls = vec![
        rect(-60_000, 32_000, 160_000, 36_000),
        rect(-60_000, -20_000, 160_000, -16_000),
    ];
    let probe: i64 = 50_000;
    let r = calculate_measurements(&route, &walls, 5_000, probe);
    assert!(r.len() > 0);
    for m in &r {
        assert!(0 <= m.width && m.width <= 2 * probe);
    }
}

/// Adding a hole that does not touch the exterior ring changes nothing:
/// holes are excluded from intersection testing.
#[test]
fn holes_do_not_change_measurements() {
    let route = vec![c(0, 0), c(100_000, 0)];
    let plain = vec![
        rect(-10_000, 5_000, 110_000, 6_000),
        rect(-10_000, -6_000, 110_000, -5_000),
    ];
    let mut wall_with_hole = rect(-10_000, 5_000, 110_000, 6_000);
    wall_with_hole.holes = vec![vec![
        c(1_000, 5_200),
        c(2_000, 5_200),
        c(2_000, 5_800),
        c(1_000, 5_800),
        c(1_000, 5_200),
    ]];
    let holed = vec![wall_with_hole, rect(-10_000, -6_000, 110_000, -5_000)];
    let r1 = calculate_measurements(&route, &plain, 5_000, 50_000);
    let r2 = calculate_measurements(&route, &holed, 5_000, 50_000);
    assert_eq!(r1, r2);
}

/// A polygon far outside the probe reach never influences the result; the
/// spatial index prunes it but the measurements must be exactly the same.
#[test]
fn distant_polygon_is_irrelevant() {
    let route = vec![c(0, 0), c(100_000, 0)];
    let near = vec![
        rect(-10_000, 5_000, 110_000, 6_000),
        rect(-10_000, -6_000, 110_000, -5_000),
    ];
    let mut with_far = near.clone_polys();
    with_far.push(rect(50_000_000, 50_000_000, 50_001_000, 50_001_000));
    let r1 = calculate_measurements(&route, &near, 5_000, 50_000);
    let r2 = calculate_measurements(&route, &with_far, 5_000, 50_000);
    assert_eq!(r1, r2);
}

/// A probe too short to reach either wall: every ray is a no-hit and the
/// output is empty.
#[test]
fn short_probe_reaches_nothing() {
    let route = vec![c(0, 0), c(100_000, 0)];
    let walls = vec![
        rect(-10_000, 5_000, 110_000, 6_000),
        rect(-10_000, -6_000, 110_000, -5_000),
    ];
    let r = calculate_measurements(&route, &walls, 5_000, 4_000);
    assert_eq!(r.len(), 0);
}

/// Two walls on the same side: the nearer one provides the hit, so the width
/// is measured against it and not the farther one.
#[test]
fn nearest_of_two_walls_wins() {
    let route = vec![c(0, 0), c(100_000, 0)];
    let walls = vec![
        rect(-10_000, 6_000, 110_000, 7_000),
        rect(-10_000, 3_000, 110_000, 4_000),
        rect(-10_000, -6_000, 110_000, -5_000),
    ];
    let r = calculate_measurements(&route, &walls, 5_000, 50_000);
    assert_eq!(r.len(), 20);
    for m in &r {
        assert_eq!(m.width, 8_000);
        assert_eq!(m.start.y.min(m.end.y), -5_000);
        assert_eq!(m.start.y.max(m.end.y), 3_000);
    }
}

/// The engine works right up to the edge of the workable region.
#[test]
fn far_from_origin_still_measures() {
    let route = vec![c(99_000_000, 99_000_000), c(99_100_000, 99_000_000)];
    let walls = vec![
        rect(98_990_000, 99_005_000, 99_110_000, 99_006_000),
        rect(98_990_000, 98_994_000, 99_110_000, 98_995_000),
    ];
    let r = calculate_measurements(&route, &walls, 5_000, 50_000);
    assert_eq!(r.len(), 20);
    for m in &r {
        assert_eq!(m.width, 10_000);
    }
}

/// A diagonal path between two walls parallel to it: the perpendicular
/// arithmetic truncates toward the sample point, so the measured widths sit
/// within a few millimeters below the exact separation.
#[test]
fn diagonal_path_measures_separation() {
    let route = vec![c(0, 0), c(70_000, 70_000)];
    // Walls along the lines y = x + 14142 and y = x - 14142; their exact
    // separation is 14142 * 2 / sqrt(2), a hair under 20 m.
    let upper = Polygon::new(
        vec![
            c(-50_000, -50_000 + 14_142),
            c(120_000, 120_000 + 14_142),
            c(120_000, 120_000 + 50_000),
            c(-50_000, -50_000 + 50_000),
        ],
        Vec::new(),
    );
    let lower = Polygon::new(
        vec![
            c(-50_000, -50_000 - 14_142),
            c(120_000, 120_000 - 14_142),
            c(120_000, 120_000 - 50_000),
            c(-50_000, -50_000 - 50_000),
        ],
        Vec::new(),
    );
    let r = calculate_measurements(&route, &vec![upper, lower], 5_000, 50_000);
    assert!(r.len() > 0);
    let exact = 19_999; // floor(2 * 14142 / sqrt(2))
    for m in &r {
        assert!(m.width <= exact + 1, "width {} too large", m.width);
        assert!(m.width >= exact - 10, "width {} too small", m.width);
    }
}

trait ClonePolys {
    fn clone_polys(&self) -> Vec<Polygon>;
}

impl ClonePolys for Vec<Polygon> {
    fn clone_polys(&self) -> Vec<Polygon> {
        self.iter()
            .map(|p| Polygon {
                exterior: p.exterior.clone(),
                holes: p.holes.clone(),
            })
            .collect()
    }
}

struct Collector {
    polygons: usize,
    lines: Vec<WidthMeasurement>,
}

impl Output for Collector {
    fn nearby_polygon(&mut self, _polygon: &Polygon) {
        self.polygons += 1;
    }
    fn perp_line(&mut self, start: Coord, end: Coord, width: i64) {
        self.lines.push(WidthMeasurement { start, end, width });
    }
}

/// The sink-driving entry point echoes every polygon once and forwards the
/// same measurements as the pure engine, in the same order.
#[test]
fn calculate_reports_through_sink() {
    let route = vec![c(0, 0), c(100_000, 0)];
    let walls = vec![
        rect(-10_000, 5_000, 110_000, 6_000),
        rect(-10_000, -6_000, 110_000, -5_000),
    ];
    let mut sink = Collector { polygons: 0, lines: Vec::new() };
    calculate(&route, &walls, 5_000, 50_000, &mut sink);
    let pure = calculate_measurements(&route, &walls, 5_000, 50_000);
    assert_eq!(sink.polygons, 2);
    assert_eq!(sink.lines, pure);
}
