use widths::lanes::{lane_config, lane_offsets, LaneError};

#[test]
fn lane_codes_have_widths_and_colors() {
    assert_eq!(lane_config('s'), Ok(("grey", 2_000)));
    assert_eq!(lane_config('c'), Ok(("green", 1_500)));
    assert_eq!(lane_config('b'), Ok(("red", 3_250)));
    assert_eq!(lane_config('d'), Ok(("black", 3_000)));
    assert_eq!(lane_config('|'), Ok(("yellow", 500)));
    assert_eq!(lane_config('q'), Err(LaneError::UnknownLane('q')));
}

#[test]
fn offsets_center_on_the_route() {
    // Sidewalk, cycle lane, driving lane: 2 m + 1.5 m + 3 m = 6.5 m.
    let codes = vec!['s', 'c', 'd'];
    let (offsets, total) = lane_offsets(&codes).unwrap();
    assert_eq!(total, 6_500);
    assert_eq!(offsets, vec![-3_250, -1_250, 250, 3_250]);
}

#[test]
fn offsets_of_empty_lane_string() {
    let codes: Vec<char> = Vec::new();
    let (offsets, total) = lane_offsets(&codes).unwrap();
    assert_eq!(total, 0);
    assert_eq!(offsets, vec![0]);
}

#[test]
fn unknown_lane_code_is_rejected() {
    let codes = vec!['s', 'z', 'd'];
    assert_eq!(lane_offsets(&codes), Err(LaneError::UnknownLane('z')));
}
