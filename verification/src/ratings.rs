//! Road width ratings: given a parking scenario, a road classification and a
//! measured road width, rates the road and derives the least intervention
//! that turns it green.  All widths are integer millimeters.

use vstd::prelude::*;

verus! {

/// A parking scenario.
#[derive(Clone, Copy, Debug, PartialEq, Eq, Structural)]
pub enum Scenario {
    /// No parking restrictions.
    U,
    /// Two-way traffic, parking one side only.
    X,
    /// One-way traffic, parking both sides.
    Y,
    /// One-way traffic, parking one side only.
    Z,
}

/// A width rating under one scenario.
#[derive(Clone, Copy, Debug, PartialEq, Eq, Structural)]
pub enum Rating {
    Red,
    Amber,
    Green,
}

/// A road classification.
#[derive(Clone, Copy, Debug, PartialEq, Eq, Structural)]
pub enum Class {
    A,
    B,
    C,
    Unclassified,
}

impl Rating {
    /// The desirable minimum width, in millimeters, for a scenario and
    /// class.
    pub open spec fn desirable_min(scenario: Scenario, class: Class) -> int {
        match class {
            Class::A => 1000,
            Class::B => match scenario {
                Scenario::U => 12800,
                Scenario::X => 10300,
                Scenario::Y => 8900,
                Scenario::Z => 6400,
            },
            Class::C => match scenario {
                Scenario::U => 10000,
                Scenario::X => 8000,
                Scenario::Y => 7000,
                Scenario::Z => 5000,
            },
            Class::Unclassified => match scenario {
                Scenario::U => 9500,
                Scenario::X => 7500,
                Scenario::Y => 6750,
                Scenario::Z => 4750,
            },
        }
    }

    /// The absolute minimum width, in millimeters, for a scenario and class.
    pub open spec fn absolute_min(scenario: Scenario, class: Class) -> int {
        match class {
            Class::A => 0,
            Class::B => match scenario {
                Scenario::U => 11500,
                Scenario::X => 9000,
                Scenario::Y => 8250,
                Scenario::Z => 5750,
            },
            Class::C => match scenario {
                Scenario::U => 9100,
                Scenario::X => 7300,
                Scenario::Y => 6350,
                Scenario::Z => 4550,
            },
            Class::Unclassified => match scenario {
                Scenario::U => 8400,
                Scenario::X => 6600,
                Scenario::Y => 6000,
                Scenario::Z => 4200,
            },
        }
    }

    /// The rating of a width: green at or above the desirable minimum, amber
    /// at or above the absolute minimum, red below.
    pub open spec fn new_spec(scenario: Scenario, class: Class, width_mm: int) -> Rating {
        if width_mm >= Self::desirable_min(scenario, class) {
            Rating::Green
        } else if width_mm >= Self::absolute_min(scenario, class) {
            Rating::Amber
        } else {
            Rating::Red
        }
    }

    /// Rates a road width under a scenario and class.
    pub fn new(scenario: Scenario, class: Class, width_mm: i64) -> (r: Rating)
        ensures
            r == Self::new_spec(scenario, class, width_mm as int),
    {
        let (desirable_min, absolute_min): (i64, i64) = match (scenario, class) {
            (_, Class::A) => (1000, 0),
            (Scenario::U, Class::B) => (12800, 11500),
            (Scenario::X, Class::B) => (10300, 9000),
            (Scenario::Y, Class::B) => (8900, 8250),
            (Scenario::Z, Class::B) => (6400, 5750),
            (Scenario::U, Class::C) => (10000, 9100),
            (Scenario::X, Class::C) => (8000, 7300),
            (Scenario::Y, Class::C) => (7000, 6350),
            (Scenario::Z, Class::C) => (5000, 4550),
            (Scenario::U, Class::Unclassified) => (9500, 8400),
            (Scenario::X, Class::Unclassified) => (7500, 6600),
            (Scenario::Y, Class::Unclassified) => (6750, 6000),
            (Scenario::Z, Class::Unclassified) => (4750, 4200),
        };
        if width_mm >= desirable_min {
            Rating::Green
        } else if width_mm >= absolute_min {
            Rating::Amber
        } else {
            Rating::Red
        }
    }

    /// The lower-case name of the rating.
    pub fn to_str(&self) -> (r: &'static str)
        ensures
            *self is Red ==> r@ == "red"@,
            *self is Amber ==> r@ == "amber"@,
            *self is Green ==> r@ == "green"@,
    {
        match self {
            Rating::Red => "red",
            Rating::Amber => "amber",
            Rating::Green => "green",
        }
    }
}

/// The ratings of one road under each of the four scenarios: a total map
/// from scenario to rating.
#[derive(Clone, Copy, Debug, PartialEq, Eq, Structural)]
pub struct ScenarioRatings {
    pub u: Rating,
    pub x: Rating,
    pub y: Rating,
    pub z: Rating,
}

impl ScenarioRatings {
    /// The rating under one scenario.
    pub open spec fn spec_get(self, s: Scenario) -> Rating {
        match s {
            Scenario::U => self.u,
            Scenario::X => self.x,
            Scenario::Y => self.y,
            Scenario::Z => self.z,
        }
    }

    /// Looks up the rating under one scenario.
    pub fn get(&self, s: Scenario) -> (r: Rating)
        ensures
            r == self.spec_get(s),
    {
        match s {
            Scenario::U => self.u,
            Scenario::X => self.x,
            Scenario::Y => self.y,
            Scenario::Z => self.z,
        }
    }

    /// The ratings of a road width under every scenario.
    pub open spec fn new_spec(class: Class, width_mm: int) -> ScenarioRatings {
        ScenarioRatings {
            u: Rating::new_spec(Scenario::U, class, width_mm),
            x: Rating::new_spec(Scenario::X, class, width_mm),
            y: Rating::new_spec(Scenario::Y, class, width_mm),
            z: Rating::new_spec(Scenario::Z, class, width_mm),
        }
    }

    /// Rates a road width under every scenario.
    pub fn new(class: Class, width_mm: i64) -> (r: ScenarioRatings)
        ensures
            r == Self::new_spec(class, width_mm as int),
    {
        ScenarioRatings {
            u: Rating::new(Scenario::U, class, width_mm),
            x: Rating::new(Scenario::X, class, width_mm),
            y: Rating::new(Scenario::Y, class, width_mm),
            z: Rating::new(Scenario::Z, class, width_mm),
        }
    }
}

/// The least intervention that makes a road green, scanning scenarios in
/// preference order; isomorphic to an optional scenario, but clearer named.
#[derive(Clone, Copy, Debug, PartialEq, Eq, Structural)]
pub enum Intervention {
    /// No change needed: the road is already green unrestricted.
    NoChange,
    Y,
    X,
    Z,
    /// No scenario yields green.
    Impossible,
}

impl Intervention {
    /// The intervention chosen for a road: the first scenario, in the order
    /// unrestricted, one-way both sides, restricted one side, one-way one
    /// side, whose rating is green; a road that is already one-way skips the
    /// two-way scenario.
    pub open spec fn calculate_spec(ratings: ScenarioRatings, already_one_way: bool) -> Intervention {
        if ratings.u == Rating::Green {
            Intervention::NoChange
        } else if ratings.y == Rating::Green {
            Intervention::Y
        } else if !already_one_way && ratings.x == Rating::Green {
            Intervention::X
        } else if ratings.z == Rating::Green {
            Intervention::Z
        } else {
            Intervention::Impossible
        }
    }

    /// Chooses the intervention for a road from its scenario ratings.
    pub fn calculate(ratings: &ScenarioRatings, already_one_way: bool) -> (r: Intervention)
        ensures
            r == Self::calculate_spec(*ratings, already_one_way),
    {
        if ratings.u == Rating::Green {
            Intervention::NoChange
        } else if ratings.y == Rating::Green {
            Intervention::Y
        } else if !already_one_way && ratings.x == Rating::Green {
            Intervention::X
        } else if ratings.z == Rating::Green {
            Intervention::Z
        } else {
            Intervention::Impossible
        }
    }
}

/// An estimate of the kerb length along which a car can park, from the
/// road's rating and class: both sides of a green road, one side of an amber
/// road, one side of a red road unless it is a class A road.
pub open spec fn parkable_kerb_length_spec(length_mm: int, rating: Rating, class: Class) -> int {
    match rating {
        Rating::Green => 2 * length_mm,
        Rating::Amber => length_mm,
        Rating::Red => match class {
            Class::A => 0,
            Class::B => length_mm,
            Class::C => length_mm,
            Class::Unclassified => length_mm,
        },
    }
}

/// Estimates the parkable kerb length of a road.
pub fn parkable_kerb_length(length_mm: i64, rating: Rating, class: Class) -> (r: i64)
    requires
        0 <= length_mm <= 0x3fffffffffffffff,
    ensures
        r as int == parkable_kerb_length_spec(length_mm as int, rating, class),
{
    match rating {
        Rating::Green => 2 * length_mm,
        Rating::Amber => length_mm,
        Rating::Red => match class {
            Class::A => 0,
            Class::B => length_mm,
            Class::C => length_mm,
            Class::Unclassified => length_mm,
        },
    }
}

} // verus!
