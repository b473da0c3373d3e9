use widths::geom::Coord;
use widths::ratings::{parkable_kerb_length, Class, Intervention, Rating, Scenario, ScenarioRatings};
use widths::roads::{parse_class, parse_direction, Road, RoadError};

#[test]
fn rating_thresholds_class_b() {
    // Unrestricted, B road: desirable 12.8 m, absolute 11.5 m.
    assert_eq!(Rating::new(Scenario::U, Class::B, 12_800), Rating::Green);
    assert_eq!(Rating::new(Scenario::U, Class::B, 12_799), Rating::Amber);
    assert_eq!(Rating::new(Scenario::U, Class::B, 11_500), Rating::Amber);
    assert_eq!(Rating::new(Scenario::U, Class::B, 11_499), Rating::Red);
    assert_eq!(Rating::new(Scenario::X, Class::B, 10_300), Rating::Green);
    assert_eq!(Rating::new(Scenario::Y, Class::B, 8_250), Rating::Amber);
    assert_eq!(Rating::new(Scenario::Z, Class::B, 5_749), Rating::Red);
}

#[test]
fn rating_thresholds_class_c_and_unclassified() {
    assert_eq!(Rating::new(Scenario::U, Class::C, 10_000), Rating::Green);
    assert_eq!(Rating::new(Scenario::X, Class::C, 7_300), Rating::Amber);
    assert_eq!(Rating::new(Scenario::Y, Class::C, 6_349), Rating::Red);
    assert_eq!(Rating::new(Scenario::Z, Class::C, 5_000), Rating::Green);
    assert_eq!(Rating::new(Scenario::U, Class::Unclassified, 9_500), Rating::Green);
    assert_eq!(Rating::new(Scenario::X, Class::Unclassified, 6_600), Rating::Amber);
    assert_eq!(Rating::new(Scenario::Y, Class::Unclassified, 5_999), Rating::Red);
    assert_eq!(Rating::new(Scenario::Z, Class::Unclassified, 4_750), Rating::Green);
}

#[test]
fn rating_class_a_is_lenient() {
    // The class A row of the table is not filled out: 1 m desirable, 0 absolute.
    assert_eq!(Rating::new(Scenario::U, Class::A, 1_000), Rating::Green);
    assert_eq!(Rating::new(Scenario::X, Class::A, 500), Rating::Amber);
    assert_eq!(Rating::new(Scenario::Z, Class::A, -1), Rating::Red);
}

#[test]
fn rating_to_str() {
    assert_eq!(Rating::Red.to_str(), "red");
    assert_eq!(Rating::Amber.to_str(), "amber");
    assert_eq!(Rating::Green.to_str(), "green");
}

#[test]
fn intervention_prefers_no_change() {
    let all_green = ScenarioRatings {
        u: Rating::Green,
        x: Rating::Green,
        y: Rating::Green,
        z: Rating::Green,
    };
    assert_eq!(Intervention::calculate(&all_green, false), Intervention::NoChange);
}

#[test]
fn intervention_scans_in_order() {
    let r = ScenarioRatings {
        u: Rating::Amber,
        x: Rating::Green,
        y: Rating::Green,
        z: Rating::Green,
    };
    assert_eq!(Intervention::calculate(&r, false), Intervention::Y);
    let r2 = ScenarioRatings {
        u: Rating::Red,
        x: Rating::Green,
        y: Rating::Amber,
        z: Rating::Green,
    };
    assert_eq!(Intervention::calculate(&r2, false), Intervention::X);
    // A road that is already one-way skips the two-way scenario.
    assert_eq!(Intervention::calculate(&r2, true), Intervention::Z);
    let none = ScenarioRatings {
        u: Rating::Red,
        x: Rating::Amber,
        y: Rating::Red,
        z: Rating::Amber,
    };
    assert_eq!(Intervention::calculate(&none, false), Intervention::Impossible);
}

#[test]
fn parkable_kerb_length_rules() {
    assert_eq!(parkable_kerb_length(120_000, Rating::Green, Class::C), 240_000);
    assert_eq!(parkable_kerb_length(120_000, Rating::Amber, Class::C), 120_000);
    assert_eq!(parkable_kerb_length(120_000, Rating::Red, Class::A), 0);
    assert_eq!(parkable_kerb_length(120_000, Rating::Red, Class::B), 120_000);
    assert_eq!(parkable_kerb_length(120_000, Rating::Red, Class::Unclassified), 120_000);
}

#[test]
fn class_strings_parse() {
    assert_eq!(parse_class(&String::from("A Road")), Ok(Some(Class::A)));
    assert_eq!(parse_class(&String::from("B Road")), Ok(Some(Class::B)));
    assert_eq!(parse_class(&String::from("Classified Unnumbered")), Ok(Some(Class::C)));
    assert_eq!(parse_class(&String::from("Unclassified")), Ok(Some(Class::Unclassified)));
    assert_eq!(parse_class(&String::from("Motorway")), Ok(None));
    assert_eq!(parse_class(&String::from("Unknown")), Ok(None));
    assert_eq!(parse_class(&String::from("Not Classified")), Ok(None));
    assert_eq!(
        parse_class(&String::from("Bridleway")),
        Err(RoadError::UnknownClassification)
    );
}

#[test]
fn direction_strings_parse() {
    assert_eq!(parse_direction(&String::from("Both Directions")), Ok(false));
    assert_eq!(parse_direction(&String::from("In Direction")), Ok(true));
    assert_eq!(parse_direction(&String::from("In Opposite Direction")), Ok(true));
    assert_eq!(
        parse_direction(&String::from("Sideways")),
        Err(RoadError::UnknownDirectionality)
    );
}

#[test]
fn road_record_derives_assessment() {
    let geom = vec![Coord { x: 0, y: 0 }, Coord { x: 120_000, y: 0 }];
    let road = Road::new(
        geom,
        120_000,
        String::from("High Street"),
        Class::C,
        false,
        7_500,
        7_000,
        2_500,
    );
    assert_eq!(road.ratings.get(Scenario::U), Rating::Red);
    assert_eq!(road.ratings.get(Scenario::X), Rating::Amber);
    assert_eq!(road.ratings.get(Scenario::Y), Rating::Green);
    assert_eq!(road.ratings.get(Scenario::Z), Rating::Green);
    assert_eq!(road.intervention, Intervention::Y);
    assert_eq!(road.name, "High Street");
    assert_eq!(road.length_mm, 120_000);
}
