//! Obstacle polygons: an exterior ring and optional holes.  The engine tests
//! rays against exterior edges only; holes are carried for the output sink
//! but never take part in intersection testing.

use vstd::prelude::*;

verus! {

use crate::geom::{Aabb, Coord, COORD_LIMIT};

/// The bounding box of the first `n` coordinates; an empty sequence gets the
/// degenerate point box at the origin.
pub open spec fn coords_bbox_upto(cs: Seq<Coord>, n: int) -> Aabb
    decreases n,
{
    if n <= 0 {
        Aabb { min_x: 0, min_y: 0, max_x: 0, max_y: 0 }
    } else if n == 1 {
        Aabb { min_x: cs[0].x, min_y: cs[0].y, max_x: cs[0].x, max_y: cs[0].y }
    } else {
        let prev = coords_bbox_upto(cs, n - 1);
        let c = cs[n - 1];
        Aabb {
            min_x: if c.x < prev.min_x {
                c.x
            } else {
                prev.min_x
            },
            min_y: if c.y < prev.min_y {
                c.y
            } else {
                prev.min_y
            },
            max_x: if c.x > prev.max_x {
                c.x
            } else {
                prev.max_x
            },
            max_y: if c.y > prev.max_y {
                c.y
            } else {
                prev.max_y
            },
        }
    }
}

/// The bounding box of a coordinate sequence.
pub open spec fn coords_bbox_spec(cs: Seq<Coord>) -> Aabb {
    coords_bbox_upto(cs, cs.len() as int)
}

/// Computes the bounding box of a coordinate sequence.
pub fn coords_bbox(cs: &Vec<Coord>) -> (r: Aabb)
    ensures
        r == coords_bbox_spec(cs@),
        r.wf(),
        forall|i: int| 0 <= i < cs@.len() ==> r.contains(#[trigger] cs@[i]),
        (forall|i: int| 0 <= i < cs@.len() ==> (#[trigger] cs@[i]).in_bounds()) ==> -(
        COORD_LIMIT as int) <= r.min_x && r.max_x <= COORD_LIMIT as int && -(COORD_LIMIT as int)
            <= r.min_y && r.max_y <= COORD_LIMIT as int,
{
    let n = cs.len();
    if n == 0 {
        return Aabb { min_x: 0, min_y: 0, max_x: 0, max_y: 0 };
    }
    let first = cs[0];
    let mut r = Aabb { min_x: first.x, min_y: first.y, max_x: first.x, max_y: first.y };
    let mut i: usize = 1;
    while i < n
        invariant
            1 <= i <= n,
            n == cs@.len(),
            r == coords_bbox_upto(cs@, i as int),
            r.wf(),
            forall|k: int| 0 <= k < i ==> r.contains(#[trigger] cs@[k]),
            (forall|k: int| 0 <= k < cs@.len() ==> (#[trigger] cs@[k]).in_bounds()) ==> -(
            COORD_LIMIT as int) <= r.min_x && r.max_x <= COORD_LIMIT as int && -(
            COORD_LIMIT as int) <= r.min_y && r.max_y <= COORD_LIMIT as int,
        decreases n - i,
    {
        let c = cs[i];
        let next = Aabb {
            min_x: if c.x < r.min_x {
                c.x
            } else {
                r.min_x
            },
            min_y: if c.y < r.min_y {
                c.y
            } else {
                r.min_y
            },
            max_x: if c.x > r.max_x {
                c.x
            } else {
                r.max_x
            },
            max_y: if c.y > r.max_y {
                c.y
            } else {
                r.max_y
            },
        };
        r = next;
        i = i + 1;
    }
    r
}

/// Every coordinate of the sequence lies inside its bounding box.
pub proof fn lemma_coords_bbox_contains(cs: Seq<Coord>, i: int)
    requires
        0 <= i < cs.len(),
    ensures
        coords_bbox_spec(cs).contains(cs[i]),
{
    lemma_coords_bbox_upto_contains(cs, cs.len() as int, i);
}

proof fn lemma_coords_bbox_upto_contains(cs: Seq<Coord>, n: int, i: int)
    requires
        0 <= i < n <= cs.len(),
    ensures
        coords_bbox_upto(cs, n).contains(cs[i]),
    decreases n,
{
    if i < n - 1 {
        lemma_coords_bbox_upto_contains(cs, n - 1, i);
    }
}

/// A simple polygon.  Only the exterior ring is significant for width
/// measurement; holes are kept so that the output sink can echo the full
/// geometry.
pub struct Polygon {
    pub exterior: Vec<Coord>,
    pub holes: Vec<Vec<Coord>>,
}

impl Polygon {
    /// Every exterior vertex lies in the workable region.
    pub open spec fn in_bounds(self) -> bool {
        forall|i: int| 0 <= i < self.exterior@.len() ==> (#[trigger] self.exterior@[i]).in_bounds()
    }

    /// The number of exterior edges: one per consecutive vertex pair.
    pub open spec fn edge_count(self) -> int {
        if self.exterior@.len() == 0 {
            0
        } else {
            self.exterior@.len() - 1
        }
    }

    /// Start vertex of exterior edge `j`.
    pub open spec fn edge_start(self, j: int) -> Coord {
        self.exterior@[j]
    }

    /// End vertex of exterior edge `j`.
    pub open spec fn edge_end(self, j: int) -> Coord {
        self.exterior@[j + 1]
    }

    /// The bounding box of the exterior ring.
    pub open spec fn bbox_spec(self) -> Aabb {
        coords_bbox_spec(self.exterior@)
    }

    /// Computes the bounding box of the exterior ring.
    pub fn bbox(&self) -> (r: Aabb)
        ensures
            r == self.bbox_spec(),
            r.wf(),
            forall|i: int|
                0 <= i < self.exterior@.len() ==> r.contains(#[trigger] self.exterior@[i]),
    {
        coords_bbox(&self.exterior)
    }

    /// Builds a polygon, closing the exterior ring if its last vertex does
    /// not repeat the first, as polygon constructors conventionally do.
    pub fn new(exterior: Vec<Coord>, holes: Vec<Vec<Coord>>) -> (p: Polygon)
        ensures
            p.holes == holes,
            exterior@.len() == 0 ==> p.exterior == exterior,
            exterior@.len() > 0 && exterior@.last() == exterior@[0] ==> p.exterior == exterior,
            exterior@.len() > 0 && exterior@.last() != exterior@[0] ==> p.exterior@ == exterior@.push(
                exterior@[0],
            ),
    {
        let mut exterior = exterior;
        let n = exterior.len();
        if n > 0 {
            let first = exterior[0];
            let last = exterior[n - 1];
            if !(first.x == last.x && first.y == last.y) {
                exterior.push(first);
            }
        }
        Polygon { exterior, holes }
    }
}

/// Every vertex of a polygon lies inside its bounding box.
pub proof fn lemma_bbox_contains_vertices(p: Polygon, i: int)
    requires
        0 <= i < p.exterior@.len(),
    ensures
        p.bbox_spec().contains(p.exterior@[i]),
{
    lemma_coords_bbox_contains(p.exterior@, i);
}

} // verus!
