use widths::boundaries::Boundary;
use widths::geom::Coord;
use widths::ratings::{Class, Intervention, Rating, Scenario};
use widths::roads::Road;

fn road(width_mm: i64, length_mm: i64, one_way: bool) -> Road {
    Road::new(
        vec![Coord { x: 0, y: 0 }, Coord { x: length_mm, y: 0 }],
        length_mm,
        String::from("road"),
        Class::C,
        one_way,
        width_mm,
        width_mm,
        0,
    )
}

#[test]
fn tally_counts_by_rating_and_intervention() {
    let mut b = Boundary::new();
    assert!(!b.any_matches);

    // A 120 m class C road, 7.5 m wide, two-way: red unrestricted, amber
    // restricted-one-side, green in both one-way scenarios.
    let r1 = road(7_500, 120_000, false);
    assert_eq!(r1.ratings.get(Scenario::U), Rating::Red);
    assert_eq!(r1.intervention, Intervention::Y);
    b.handle_road(&r1);

    // A 30 m class C road, 10 m wide: green everywhere, no change needed.
    let r2 = road(10_000, 30_000, false);
    assert_eq!(r2.intervention, Intervention::NoChange);
    b.handle_road(&r2);

    assert!(b.any_matches);
    assert_eq!(b.u.red.count, 1);
    assert_eq!(b.u.red.length_mm, 120_000);
    assert_eq!(b.u.green.count, 1);
    assert_eq!(b.u.green.length_mm, 30_000);
    assert_eq!(b.u.amber.count, 0);
    assert_eq!(b.x.amber.count, 1);
    assert_eq!(b.y.green.count, 2);
    assert_eq!(b.y.green.length_mm, 150_000);
    assert_eq!(b.one_way_both.count, 1);
    assert_eq!(b.one_way_both.length_mm, 120_000);
    assert_eq!(b.no_change.count, 1);
    assert_eq!(b.no_change.length_mm, 30_000);
    assert_eq!(b.impossible.count, 0);
}
