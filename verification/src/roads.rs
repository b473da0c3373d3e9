//! One road of the pavement-parking survey: its classification and
//! directionality parsed from the source strings, its widths in millimeters,
//! and the derived ratings and intervention.

use vstd::prelude::*;

verus! {

use crate::geom::Coord;
use crate::ratings::{Class, Intervention, ScenarioRatings};

/// Why a road record is rejected.
#[derive(Clone, Copy, Debug, PartialEq, Eq, Structural)]
pub enum RoadError {
    /// The classification string is not one the survey knows.
    UnknownClassification,
    /// The directionality string is not one the survey knows.
    UnknownDirectionality,
}

/// What a classification string means: a class to analyse, a road to skip,
/// or an error.  The skipped classes are motorways and roads of unknown or
/// unassigned classification.
pub open spec fn class_of(s: Seq<char>) -> Result<Option<Class>, RoadError> {
    if s == "A Road"@ {
        Ok(Some(Class::A))
    } else if s == "B Road"@ {
        Ok(Some(Class::B))
    } else if s == "Classified Unnumbered"@ {
        Ok(Some(Class::C))
    } else if s == "Unclassified"@ {
        Ok(Some(Class::Unclassified))
    } else if s == "Motorway"@ || s == "Unknown"@ || s == "Not Classified"@ {
        Ok(None)
    } else {
        Err(RoadError::UnknownClassification)
    }
}

/// Parses a road classification string.
pub fn parse_class(s: &String) -> (r: Result<Option<Class>, RoadError>)
    ensures
        r == class_of(s@),
{
    if *s == String::from_str("A Road") {
        Ok(Some(Class::A))
    } else if *s == String::from_str("B Road") {
        Ok(Some(Class::B))
    } else if *s == String::from_str("Classified Unnumbered") {
        Ok(Some(Class::C))
    } else if *s == String::from_str("Unclassified") {
        Ok(Some(Class::Unclassified))
    } else if *s == String::from_str("Motorway") || *s == String::from_str("Unknown") || *s
        == String::from_str("Not Classified") {
        Ok(None)
    } else {
        Err(RoadError::UnknownClassification)
    }
}

/// What a directionality string means: `true` for a one-way road, `false`
/// for a two-way road, or an error.
pub open spec fn one_way_of(s: Seq<char>) -> Result<bool, RoadError> {
    if s == "Both Directions"@ {
        Ok(false)
    } else if s == "In Direction"@ || s == "In Opposite Direction"@ {
        Ok(true)
    } else {
        Err(RoadError::UnknownDirectionality)
    }
}

/// Parses a road directionality string.
pub fn parse_direction(s: &String) -> (r: Result<bool, RoadError>)
    ensures
        r == one_way_of(s@),
{
    if *s == String::from_str("Both Directions") {
        Ok(false)
    } else if *s == String::from_str("In Direction") || *s == String::from_str(
        "In Opposite Direction",
    ) {
        Ok(true)
    } else {
        Err(RoadError::UnknownDirectionality)
    }
}

/// One road, its survey attributes and its derived assessment.  All
/// distances are in millimeters; the geometry is in the engine's metric
/// plane.
pub struct Road {
    pub geom: Vec<Coord>,
    pub length_mm: i64,
    pub name: String,
    pub class: Class,
    pub one_way: bool,
    pub road_average_width_mm: i64,
    pub road_minimum_width_mm: i64,
    pub pavement_average_width_mm: i64,
    pub ratings: ScenarioRatings,
    pub intervention: Intervention,
}

impl Road {
    /// Builds one road record from parsed attributes: rates the average road
    /// width under every scenario and derives the intervention.
    pub fn new(
        geom: Vec<Coord>,
        length_mm: i64,
        name: String,
        class: Class,
        one_way: bool,
        road_average_width_mm: i64,
        road_minimum_width_mm: i64,
        pavement_average_width_mm: i64,
    ) -> (r: Road)
        ensures
            r.geom == geom,
            r.length_mm == length_mm,
            r.name == name,
            r.class == class,
            r.one_way == one_way,
            r.road_average_width_mm == road_average_width_mm,
            r.road_minimum_width_mm == road_minimum_width_mm,
            r.pavement_average_width_mm == pavement_average_width_mm,
            r.ratings == ScenarioRatings::new_spec(class, road_average_width_mm as int),
            r.intervention == Intervention::calculate_spec(r.ratings, one_way),
    {
        let ratings = ScenarioRatings::new(class, road_average_width_mm);
        let intervention = Intervention::calculate(&ratings, one_way);
        Road {
            geom,
            length_mm,
            name,
            class,
            one_way,
            road_average_width_mm,
            road_minimum_width_mm,
            pavement_average_width_mm,
            ratings,
            intervention,
        }
    }
}

} // verus!
