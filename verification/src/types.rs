//! The entity and coordinate model of the spatial index.
//!
//! Coordinates are plain integers in a fixed-point world grid. Keeping every
//! coordinate within `COORD_LIMIT` ensures that every squared distance, every
//! bounding-box area and every sum of such areas that the underlying r-tree
//! computes stays well inside the range of `i64`.

use vstd::prelude::*;

verus! {

/// Largest magnitude a coordinate may have.
pub const COORD_LIMIT: i64 = 500_000_000;

/// Largest radius a radius query ever needs: any two in-range points are
/// closer than this, so a larger radius selects everything anyway.
pub const RADIUS_LIMIT: i64 = 2_000_000_000;

pub type EntityId = u64;

/// The closed tag carried by every entity; never interpreted by the index.
#[derive(Clone, Copy, PartialEq, Eq, Structural, Debug)]
pub enum EntityType {
    Planet,
    Star,
    Ship,
    Mine,
    Player,
}

/// A point of the 2D world grid.
#[derive(Clone, Copy, PartialEq, Eq, Structural, Debug)]
pub struct Position {
    pub x: i64,
    pub y: i64,
}

/// The identity card of an entity: id and kind, without the mutable state.
#[derive(Clone, Copy, PartialEq, Eq, Structural, Debug)]
pub struct EntityMeta {
    pub id: EntityId,
    pub entity_type: EntityType,
}

/// A positioned game object tracked by the spatial index.
///
/// `payload` is opaque, caller-defined data; the index stores and returns it
/// but never inspects it.
pub struct Entity {
    pub id: EntityId,
    pub owner: u64,
    pub entity_type: EntityType,
    pub position: Position,
    pub payload: Vec<u8>,
}

/// The mathematical value of an `Entity`: the payload as a sequence.
#[verifier::ext_equal]
pub struct EntityModel {
    pub id: EntityId,
    pub owner: u64,
    pub entity_type: EntityType,
    pub position: Position,
    pub payload: Seq<u8>,
}

impl View for Entity {
    type V = EntityModel;

    open spec fn view(&self) -> EntityModel {
        EntityModel {
            id: self.id,
            owner: self.owner,
            entity_type: self.entity_type,
            position: self.position,
            payload: self.payload@,
        }
    }
}

impl Entity {
    /// The identity card of this entity.
    pub fn meta(&self) -> (m: EntityMeta)
        ensures
            m.id == self.id,
            m.entity_type == self.entity_type,
    {
        EntityMeta { id: self.id, entity_type: self.entity_type }
    }
}

impl Clone for Entity {
    fn clone(&self) -> (r: Self)
        ensures
            r@ == self@,
    {
        Entity {
            id: self.id,
            owner: self.owner,
            entity_type: self.entity_type,
            position: self.position,
            payload: self.payload.clone(),
        }
    }
}

/// How an operation on the index can fail.
#[derive(Clone, Copy, PartialEq, Eq, Structural, Debug)]
pub enum IndexError {
    /// The id is not present in the index.
    NotFound,
    /// An insert named an id that is already present.
    DuplicateId,
    /// A coordinate lies outside the world grid, or a radius is negative.
    InvalidCoordinate,
}

pub open spec fn coord_ok(c: i64) -> bool {
    -COORD_LIMIT <= c <= COORD_LIMIT
}

pub open spec fn pos_ok(p: Position) -> bool {
    coord_ok(p.x) && coord_ok(p.y)
}

pub open spec fn entity_ok(e: EntityModel) -> bool {
    pos_ok(e.position)
}

/// The squared Euclidean distance between two points, exact over `int`.
pub open spec fn sq_dist(a: Position, b: Position) -> int {
    (a.x - b.x) * (a.x - b.x) + (a.y - b.y) * (a.y - b.y)
}

/// Membership in the closed axis-aligned box `[lower.x, upper.x] x [lower.y, upper.y]`.
pub open spec fn in_box(p: Position, lower: Position, upper: Position) -> bool {
    lower.x <= p.x <= upper.x && lower.y <= p.y <= upper.y
}

/// Membership in the closed disc of radius `r` around `c`, by squared distance:
/// for `r >= 0` this says exactly that the Euclidean distance is at most `r`.
pub open spec fn within_radius(p: Position, c: Position, r: int) -> bool {
    sq_dist(p, c) <= r * r
}

/// A squared distance is never negative.
pub proof fn lemma_sq_dist_nonneg(a: Position, b: Position)
    ensures
        sq_dist(a, b) >= 0,
{
    let dx = a.x - b.x;
    let dy = a.y - b.y;
    assert(dx * dx >= 0 && dy * dy >= 0) by (nonlinear_arith);
}

/// A squared distance is zero exactly between a point and itself.
pub proof fn lemma_sq_dist_zero(a: Position, b: Position)
    ensures
        sq_dist(a, b) == 0 <==> a == b,
{
    let dx = a.x - b.x;
    let dy = a.y - b.y;
    assert(dx * dx >= 0 && dy * dy >= 0) by (nonlinear_arith);
    assert(dx != 0 ==> dx * dx > 0) by (nonlinear_arith);
    assert(dy != 0 ==> dy * dy > 0) by (nonlinear_arith);
}

/// Two in-range points are closer than `RADIUS_LIMIT`.
pub proof fn lemma_sq_dist_bounded(a: Position, b: Position)
    requires
        pos_ok(a),
        pos_ok(b),
    ensures
        sq_dist(a, b) <= RADIUS_LIMIT * RADIUS_LIMIT,
{
    let dx = a.x - b.x;
    let dy = a.y - b.y;
    assert(-2 * COORD_LIMIT <= dx <= 2 * COORD_LIMIT);
    assert(-2 * COORD_LIMIT <= dy <= 2 * COORD_LIMIT);
    assert(dx * dx <= 4 * (COORD_LIMIT as int) * (COORD_LIMIT as int)) by (nonlinear_arith)
        requires
            -2 * (COORD_LIMIT as int) <= dx <= 2 * (COORD_LIMIT as int),
    ;
    assert(dy * dy <= 4 * (COORD_LIMIT as int) * (COORD_LIMIT as int)) by (nonlinear_arith)
        requires
            -2 * (COORD_LIMIT as int) <= dy <= 2 * (COORD_LIMIT as int),
    ;
}

} // verus!
