//! Per-boundary aggregation of road assessments: for every scenario and
//! rating, how many roads fall in the cell and how much road length they
//! carry, and the same per chosen intervention.  The geometric matching of
//! roads to boundary polygons is the caller's work; this holds the counting.

use vstd::prelude::*;

verus! {

use crate::ratings::{Intervention, Rating, Scenario, ScenarioRatings};
use crate::roads::Road;

/// One aggregation cell: a road count and a total length in millimeters.
#[derive(Clone, Copy, Debug, PartialEq, Eq, Structural)]
pub struct Cell {
    pub count: u64,
    pub length_mm: u64,
}

/// The three rating cells of one scenario.
#[derive(Clone, Copy, Debug, PartialEq, Eq, Structural)]
pub struct RatingCells {
    pub red: Cell,
    pub amber: Cell,
    pub green: Cell,
}

/// The aggregate of one boundary area.
#[derive(Clone, Copy, Debug, PartialEq, Eq, Structural)]
pub struct Boundary {
    pub any_matches: bool,
    pub u: RatingCells,
    pub x: RatingCells,
    pub y: RatingCells,
    pub z: RatingCells,
    pub no_change: Cell,
    pub one_way_both: Cell,
    pub restrict_one: Cell,
    pub one_way_one: Cell,
    pub impossible: Cell,
}

impl RatingCells {
    /// The cell of one rating.
    pub open spec fn spec_cell(self, r: Rating) -> Cell {
        match r {
            Rating::Red => self.red,
            Rating::Amber => self.amber,
            Rating::Green => self.green,
        }
    }
}

impl Boundary {
    /// The cell of one scenario and rating.
    pub open spec fn cell(self, s: Scenario, r: Rating) -> Cell {
        match s {
            Scenario::U => self.u.spec_cell(r),
            Scenario::X => self.x.spec_cell(r),
            Scenario::Y => self.y.spec_cell(r),
            Scenario::Z => self.z.spec_cell(r),
        }
    }

    /// The cell of one intervention.
    pub open spec fn intervention_cell(self, iv: Intervention) -> Cell {
        match iv {
            Intervention::NoChange => self.no_change,
            Intervention::Y => self.one_way_both,
            Intervention::X => self.restrict_one,
            Intervention::Z => self.one_way_one,
            Intervention::Impossible => self.impossible,
        }
    }

    /// The boundary can absorb one more road of the given length without
    /// any counter or length sum overflowing.
    pub open spec fn can_absorb(self, length_mm: int) -> bool {
        (forall|s: Scenario, r: Rating|
            (#[trigger] self.cell(s, r)).count < u64::MAX && self.cell(s, r).length_mm + length_mm
                <= u64::MAX) && (forall|iv: Intervention|
            (#[trigger] self.intervention_cell(iv)).count < u64::MAX && self.intervention_cell(
                iv,
            ).length_mm + length_mm <= u64::MAX)
    }

    /// A fresh boundary with nothing aggregated.
    pub fn new() -> (r: Boundary)
        ensures
            !r.any_matches,
            forall|s: Scenario, rt: Rating|
                (#[trigger] r.cell(s, rt)) == (Cell { count: 0u64, length_mm: 0u64 }),
            forall|iv: Intervention|
                (#[trigger] r.intervention_cell(iv)) == (Cell { count: 0u64, length_mm: 0u64 }),
    {
        let zero = Cell { count: 0, length_mm: 0 };
        let row = RatingCells { red: zero, amber: zero, green: zero };
        Boundary {
            any_matches: false,
            u: row,
            x: row,
            y: row,
            z: row,
            no_change: zero,
            one_way_both: zero,
            restrict_one: zero,
            one_way_one: zero,
            impossible: zero,
        }
    }

    /// Aggregates one road that lies in this boundary: for each scenario the
    /// cell of the road's rating gains the road, as does the cell of its
    /// intervention; every other cell stays as it was.
    pub fn handle_road(&mut self, road: &Road)
        requires
            old(self).can_absorb(road.length_mm as int),
            0 <= road.length_mm,
        ensures
            final(self).any_matches,
            forall|s: Scenario, r: Rating|
                (#[trigger] final(self).cell(s, r)) == (if road.ratings.spec_get(s) == r {
                    Cell {
                        count: (old(self).cell(s, r).count + 1) as u64,
                        length_mm: (old(self).cell(s, r).length_mm + road.length_mm) as u64,
                    }
                } else {
                    old(self).cell(s, r)
                }),
            forall|iv: Intervention|
                (#[trigger] final(self).intervention_cell(iv)) == (if road.intervention == iv {
                    Cell {
                        count: (old(self).intervention_cell(iv).count + 1) as u64,
                        length_mm: (old(self).intervention_cell(iv).length_mm
                            + road.length_mm) as u64,
                    }
                } else {
                    old(self).intervention_cell(iv)
                }),
    {
        let length = road.length_mm as u64;
        proof {
            assert forall|s: Scenario, rt: Rating|
                (#[trigger] old(self).cell(s, rt)).count < u64::MAX && old(self).cell(
                    s,
                    rt,
                ).length_mm + length <= u64::MAX by {}
            assert(old(self).cell(Scenario::U, Rating::Red) == old(self).u.red);
            assert(old(self).cell(Scenario::U, Rating::Amber) == old(self).u.amber);
            assert(old(self).cell(Scenario::U, Rating::Green) == old(self).u.green);
            assert(old(self).cell(Scenario::X, Rating::Red) == old(self).x.red);
            assert(old(self).cell(Scenario::X, Rating::Amber) == old(self).x.amber);
            assert(old(self).cell(Scenario::X, Rating::Green) == old(self).x.green);
            assert(old(self).cell(Scenario::Y, Rating::Red) == old(self).y.red);
            assert(old(self).cell(Scenario::Y, Rating::Amber) == old(self).y.amber);
            assert(old(self).cell(Scenario::Y, Rating::Green) == old(self).y.green);
            assert(old(self).cell(Scenario::Z, Rating::Red) == old(self).z.red);
            assert(old(self).cell(Scenario::Z, Rating::Amber) == old(self).z.amber);
            assert(old(self).cell(Scenario::Z, Rating::Green) == old(self).z.green);
            assert(old(self).intervention_cell(Intervention::NoChange) == old(self).no_change);
            assert(old(self).intervention_cell(Intervention::Y) == old(self).one_way_both);
            assert(old(self).intervention_cell(Intervention::X) == old(self).restrict_one);
            assert(old(self).intervention_cell(Intervention::Z) == old(self).one_way_one);
            assert(old(self).intervention_cell(Intervention::Impossible) == old(self).impossible);
        }
        self.any_matches = true;
        bump_row(&mut self.u, road.ratings.u, length);
        bump_row(&mut self.x, road.ratings.x, length);
        bump_row(&mut self.y, road.ratings.y, length);
        bump_row(&mut self.z, road.ratings.z, length);
        match road.intervention {
            Intervention::NoChange => bump(&mut self.no_change, length),
            Intervention::Y => bump(&mut self.one_way_both, length),
            Intervention::X => bump(&mut self.restrict_one, length),
            Intervention::Z => bump(&mut self.one_way_one, length),
            Intervention::Impossible => bump(&mut self.impossible, length),
        }
    }
}

/// Adds one road to a cell.
fn bump(c: &mut Cell, length_mm: u64)
    requires
        old(c).count < u64::MAX,
        old(c).length_mm + length_mm <= u64::MAX,
    ensures
        final(c).count == old(c).count + 1,
        final(c).length_mm == old(c).length_mm + length_mm,
{
    c.count = c.count + 1;
    c.length_mm = c.length_mm + length_mm;
}

/// Adds one road to the cell of its rating in one scenario row.
fn bump_row(row: &mut RatingCells, r: Rating, length_mm: u64)
    requires
        old(row).red.count < u64::MAX,
        old(row).amber.count < u64::MAX,
        old(row).green.count < u64::MAX,
        old(row).red.length_mm + length_mm <= u64::MAX,
        old(row).amber.length_mm + length_mm <= u64::MAX,
        old(row).green.length_mm + length_mm <= u64::MAX,
    ensures
        forall|rt: Rating|
            (#[trigger] final(row).spec_cell(rt)) == (if rt == r {
                Cell {
                    count: (old(row).spec_cell(rt).count + 1) as u64,
                    length_mm: (old(row).spec_cell(rt).length_mm + length_mm) as u64,
                }
            } else {
                old(row).spec_cell(rt)
            }),
{
    match r {
        Rating::Red => bump(&mut row.red, length_mm),
        Rating::Amber => bump(&mut row.amber, length_mm),
        Rating::Green => bump(&mut row.green, length_mm),
    }
}

} // verus!
