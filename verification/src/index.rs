//! The obstacle spatial index: an R-tree over the bounding boxes of the
//! obstacle polygons, held by integer handle into the polygon array.  The
//! tree itself comes from the `rstar` crate and is trusted; everything the
//! engine concludes from a query rests on the contracts below.

use vstd::prelude::*;

verus! {

use crate::geom::Aabb;

/// A bulk-built, read-only index of obstacle bounding boxes.  Box `i` is the
/// bounding box of obstacle polygon `i`.
#[verifier::external_body]
pub struct ObstacleIndex {
    tree: rstar::RTree<rstar::primitives::GeomWithData<rstar::primitives::Rectangle<[i64; 2]>, usize>>,
}

/// The boxes an `ObstacleIndex` stores, in handle order.
pub uninterp spec fn index_boxes(idx: ObstacleIndex) -> Seq<Aabb>;

/// Relies on `rstar::RTree::bulk_load`: the tree stores exactly the given
/// rectangles, each tagged with its position in the input.
#[verifier::external_body]
pub fn build_index(boxes: &Vec<Aabb>) -> (idx: ObstacleIndex)
    requires
        forall|i: int| 0 <= i < boxes@.len() ==> (#[trigger] boxes@[i]).wf(),
    ensures
        index_boxes(idx) == boxes@,
{
    let elements = boxes
        .iter()
        .enumerate()
        .map(|(i, b)| rstar::primitives::GeomWithData::new(
            rstar::primitives::Rectangle::from_corners([b.min_x, b.min_y], [b.max_x, b.max_y]),
            i,
        ))
        .collect();
    ObstacleIndex { tree: rstar::RTree::bulk_load(elements) }
}

/// Relies on `rstar::RTree::locate_in_envelope_intersecting`: it yields
/// exactly the stored rectangles whose (closed) axis-aligned envelope
/// intersects the query envelope.  The iteration order is the tree's own, so
/// nothing is promised about the order of the handles.
#[verifier::external_body]
pub fn query_index(idx: &ObstacleIndex, q: &Aabb) -> (r: Vec<usize>)
    requires
        q.wf(),
    ensures
        forall|k: int|
            0 <= k < r@.len() ==> (#[trigger] r@[k]) < index_boxes(*idx).len()
                && index_boxes(*idx)[r@[k] as int].intersects(*q),
        forall|i: int|
            0 <= i < index_boxes(*idx).len() && (#[trigger] index_boxes(*idx)[i]).intersects(*q)
                ==> r@.contains(i as usize),
{
    let envelope = rstar::AABB::from_corners([q.min_x, q.min_y], [q.max_x, q.max_y]);
    idx.tree.locate_in_envelope_intersecting(envelope).map(|obj| obj.data).collect()
}

} // verus!
