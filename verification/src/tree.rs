//! The spatial partitioning structure behind the index: an r-tree from the
//! `rstar` crate, holding one `(x, y, id)` triple per live entity.
//!
//! The tree is kept behind a small trusted surface. Its contents are named by
//! the uninterpreted `tree_items`, a multiset because the tree itself neither
//! orders its elements nor forbids duplicates; every wrapper states over that
//! name what the crate's source shows of the call it makes.
//!
//! All wrappers that make the tree compute distances or areas require the
//! coordinates involved to satisfy `coord_ok`: this keeps the `i64` arithmetic
//! inside `rstar` (squared distances, bounding-box areas and their sums) free
//! of overflow.

use vstd::multiset::Multiset;
use vstd::prelude::*;

use crate::types::{coord_ok, pos_ok, sq_dist, Position};

verus! {

/// An r-tree of `(x, y, id)` triples, opaque to the verifier.
#[verifier::external_body]
pub struct SpatialTree {
    rtree: rstar::RTree<rstar::primitives::GeomWithData<[i64; 2], u64>>,
}

/// What the tree holds, as a multiset of `(x, y, id)` triples.
pub uninterp spec fn tree_items(t: SpatialTree) -> Multiset<(i64, i64, u64)>;

/// The triple a given id is stored under when it sits at `(x, y)`.
pub open spec fn tree_item(x: i64, y: i64, id: u64) -> (i64, i64, u64) {
    (x, y, id)
}

/// Every triple of the tree lies on the world grid.
pub open spec fn tree_in_range(t: SpatialTree) -> bool {
    forall|it: (i64, i64, u64)|
        tree_items(t).count(it) > 0 ==> coord_ok(#[trigger] it.0) && coord_ok(it.1)
}

/// The position a triple stands at.
pub open spec fn item_pos(it: (i64, i64, u64)) -> Position {
    Position { x: it.0, y: it.1 }
}

/// Selection of the triples inside the closed box `[lower, upper]`.
pub open spec fn box_sel(lower: Position, upper: Position) -> spec_fn((i64, i64, u64)) -> bool {
    |it: (i64, i64, u64)| lower.x <= it.0 <= upper.x && lower.y <= it.1 <= upper.y
}

/// Selection of the triples within squared distance `max_sq_dist` of `center`.
pub open spec fn within_sel(center: Position, max_sq_dist: int) -> spec_fn(
    (i64, i64, u64),
) -> bool {
    |it: (i64, i64, u64)| sq_dist(item_pos(it), center) <= max_sq_dist
}

/// Relies on `rstar::RTree::new`: it returns an empty tree.
#[verifier::external_body]
pub fn tree_new() -> (t: SpatialTree)
    ensures
        tree_items(t) == Multiset::<(i64, i64, u64)>::empty(),
{
    SpatialTree { rtree: rstar::RTree::new() }
}

/// Relies on `rstar::RTree::insert`: the element is added, and an element
/// already present is then present twice.
#[verifier::external_body]
pub fn tree_insert(t: &mut SpatialTree, x: i64, y: i64, id: u64)
    requires
        coord_ok(x),
        coord_ok(y),
        tree_in_range(*old(t)),
    ensures
        tree_items(*final(t)) == tree_items(*old(t)).insert(tree_item(x, y, id)),
{
    t.rtree.insert(rstar::primitives::GeomWithData::new([x, y], id));
}

/// Relies on `rstar::RTree::remove`: it removes and returns one element equal
/// to the given one, or `None` when no equal element is stored.
#[verifier::external_body]
pub fn tree_remove(t: &mut SpatialTree, x: i64, y: i64, id: u64) -> (removed: bool)
    requires
        coord_ok(x),
        coord_ok(y),
        tree_in_range(*old(t)),
    ensures
        removed == (tree_items(*old(t)).count(tree_item(x, y, id)) > 0),
        removed ==> tree_items(*final(t)) == tree_items(*old(t)).remove(tree_item(x, y, id)),
        !removed ==> tree_items(*final(t)) == tree_items(*old(t)),
{
    t.rtree.remove(&rstar::primitives::GeomWithData::new([x, y], id)).is_some()
}

/// Relies on `rstar::RTree::iter`: it visits every element exactly once, in an
/// unspecified order.
#[verifier::external_body]
pub fn tree_all(t: &SpatialTree) -> (r: Vec<(i64, i64, u64)>)
    ensures
        r@.to_multiset() == tree_items(*t),
{
    t.rtree.iter().map(|g| (g.geom()[0], g.geom()[1], g.data)).collect()
}

/// Relies on `rstar::RTree::locate_in_envelope` with an `rstar::AABB`: it
/// returns exactly the stored points inside the closed box, in an unspecified
/// order.
#[verifier::external_body]
pub fn tree_in_box(t: &SpatialTree, lower: Position, upper: Position) -> (r: Vec<(i64, i64, u64)>)
    requires
        lower.x <= upper.x,
        lower.y <= upper.y,
    ensures
        r@.to_multiset() == tree_items(*t).filter(box_sel(lower, upper)),
{
    let envelope = rstar::AABB::from_corners([lower.x, lower.y], [upper.x, upper.y]);
    t.rtree.locate_in_envelope(envelope).map(|g| (g.geom()[0], g.geom()[1], g.data)).collect()
}

/// Relies on `rstar::RTree::locate_within_distance`: it returns exactly the
/// stored points whose squared distance to the query point is at most the
/// given bound, in an unspecified order.
#[verifier::external_body]
pub fn tree_within_distance(t: &SpatialTree, center: Position, max_sq_dist: i64) -> (r: Vec<
    (i64, i64, u64),
>)
    requires
        pos_ok(center),
        tree_in_range(*t),
        0 <= max_sq_dist,
    ensures
        r@.to_multiset() == tree_items(*t).filter(within_sel(center, max_sq_dist as int)),
{
    t.rtree.locate_within_distance([center.x, center.y], max_sq_dist).map(
        |g| (g.geom()[0], g.geom()[1], g.data),
    ).collect()
}

/// Relies on `rstar::RTree::nearest_neighbor`: it returns a stored point at
/// least as close to the query point as any other, or `None` exactly when the
/// tree is empty.
#[verifier::external_body]
pub fn tree_nearest(t: &SpatialTree, center: Position) -> (r: Option<(i64, i64, u64)>)
    requires
        pos_ok(center),
        tree_in_range(*t),
    ensures
        match r {
            Option::None => tree_items(*t).len() == 0,
            Option::Some(it) => {
                &&& tree_items(*t).count(it) > 0
                &&& forall|other: (i64, i64, u64)|
                    #[trigger] tree_items(*t).count(other) > 0 ==> sq_dist(item_pos(it), center)
                        <= sq_dist(item_pos(other), center)
            },
        },
{
    t.rtree.nearest_neighbor([center.x, center.y]).map(|g| (g.geom()[0], g.geom()[1], g.data))
}

} // verus!
