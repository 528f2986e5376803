//! Laws that tie several operations of the index together, stated over the
//! index's abstract value, the `Map<EntityId, EntityModel>` that the
//! operations' own contracts speak of.

use vstd::prelude::*;

use crate::index::relocated;
use crate::types::{
    entity_ok, lemma_sq_dist_nonneg, lemma_sq_dist_zero, within_radius, EntityId, EntityModel,
    Position,
};

verus! {

/// One step of the index's mutating interface.
pub enum IndexOp {
    Insert(EntityModel),
    Remove(EntityId),
}

/// The index's value after one operation, exactly as the contracts of
/// `SpatialIndex::insert` and `SpatialIndex::remove` describe it: a failed
/// operation leaves the value untouched.
pub open spec fn apply_op(m: Map<EntityId, EntityModel>, op: IndexOp) -> Map<
    EntityId,
    EntityModel,
> {
    match op {
        IndexOp::Insert(e) => if entity_ok(e) && !m.contains_key(e.id) {
            m.insert(e.id, e)
        } else {
            m
        },
        IndexOp::Remove(id) => if m.contains_key(id) {
            m.remove(id)
        } else {
            m
        },
    }
}

/// The index's value after a whole sequence of operations.
pub open spec fn apply_ops(m: Map<EntityId, EntityModel>, ops: Seq<IndexOp>) -> Map<
    EntityId,
    EntityModel,
>
    decreases ops.len(),
{
    if ops.len() == 0 {
        m
    } else {
        apply_ops(apply_op(m, ops[0]), ops.drop_first())
    }
}

/// The net count of a sequence of operations: one up for every insert that is
/// admitted, one down for every remove that finds its id, each judged against
/// the state it runs in.
pub open spec fn net_count(m: Map<EntityId, EntityModel>, ops: Seq<IndexOp>) -> int
    decreases ops.len(),
{
    if ops.len() == 0 {
        0
    } else {
        (match ops[0] {
            IndexOp::Insert(e) => if entity_ok(e) && !m.contains_key(e.id) {
                1int
            } else {
                0int
            },
            IndexOp::Remove(id) => if m.contains_key(id) {
                -1int
            } else {
                0int
            },
        }) + net_count(apply_op(m, ops[0]), ops.drop_first())
    }
}

/// Exact count: after any sequence of inserts and removes, the number of live
/// entities has changed by exactly the number of successful inserts minus the
/// number of successful removes. With `SpatialIndex::all` returning one entry
/// per live entity, this pins `all().len()` after any such sequence.
pub proof fn lemma_exact_count(m: Map<EntityId, EntityModel>, ops: Seq<IndexOp>)
    requires
        m.dom().finite(),
    ensures
        apply_ops(m, ops).len() as int == m.len() + net_count(m, ops),
    decreases ops.len(),
{
    if ops.len() > 0 {
        let m1 = apply_op(m, ops[0]);
        match ops[0] {
            IndexOp::Insert(e) => {
                if entity_ok(e) && !m.contains_key(e.id) {
                    assert(m1.dom() =~= m.dom().insert(e.id));
                }
            },
            IndexOp::Remove(id) => {
                if m.contains_key(id) {
                    assert(m1.dom() =~= m.dom().remove(id));
                }
            },
        }
        lemma_exact_count(m1, ops.drop_first());
    }
}

/// Round trip of identity: an insert puts exactly the inserted entity under
/// its id, and a removal leaves nothing there.
///
/// `SpatialIndex::insert` ensures the index's value becomes
/// `m.insert(e.id, e)`, `SpatialIndex::remove` ensures it becomes
/// `m.remove(id)`, and `SpatialIndex::get` answers exactly from that value;
/// this law closes the loop between the three.
pub proof fn lemma_round_trip(m: Map<EntityId, EntityModel>, e: EntityModel)
    ensures
        m.insert(e.id, e).contains_key(e.id),
        m.insert(e.id, e)[e.id] == e,
        !m.remove(e.id).contains_key(e.id),
{
}

/// Positional consistency: a present entity always lies within radius zero of
/// its own position; after a relocation it lies within radius zero of the new
/// position, and no longer of the old one unless the two coincide.
///
/// `SpatialIndex::relocate` ensures the index's value becomes
/// `m.insert(id, relocated(m[id], to, pay))`, and `SpatialIndex::query_radius`
/// includes an entity exactly when `within_radius` accepts its position; this
/// law connects the two.
pub proof fn lemma_positional_consistency(
    m: Map<EntityId, EntityModel>,
    id: EntityId,
    to: Position,
    pay: Option<Seq<u8>>,
)
    requires
        m.contains_key(id),
    ensures
        within_radius(m[id].position, m[id].position, 0),
        ({
            let m2 = m.insert(id, relocated(m[id], to, pay));
            &&& m2.contains_key(id)
            &&& m2[id].position == to
            &&& within_radius(m2[id].position, to, 0)
            &&& (m[id].position != to ==> !within_radius(m2[id].position, m[id].position, 0))
        }),
{
    lemma_sq_dist_zero(m[id].position, m[id].position);
    let m2 = m.insert(id, relocated(m[id], to, pay));
    assert(m2[id].position == to);
    lemma_sq_dist_zero(m2[id].position, to);
    lemma_sq_dist_zero(m2[id].position, m[id].position);
    lemma_sq_dist_nonneg(m2[id].position, m[id].position);
}

} // verus!
