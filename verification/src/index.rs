//! The spatial entity index: a mutable set of entities keyed by id and
//! positioned on a 2D grid, with exact lookup, range, radius and
//! nearest-neighbor queries.
//!
//! The index pairs an id-to-entity map (exact lookup in constant expected
//! time) with an r-tree over `(x, y, id)` triples (sub-linear spatial
//! queries). Its abstract value is a `Map<EntityId, EntityModel>`; the
//! well-formedness predicate `inv` says that map and tree always agree, so
//! no query can ever see a stale position.

use std::collections::HashMap;

use vstd::multiset::Multiset;
use vstd::prelude::*;

use crate::tree::{
    box_sel, item_pos, tree_all, tree_in_box, tree_in_range, tree_insert, tree_item, tree_items,
    tree_nearest, tree_new, tree_remove, tree_within_distance, within_sel, SpatialTree,
};
use crate::types::{
    coord_ok, entity_ok, in_box, pos_ok, sq_dist, within_radius, Entity, EntityId, EntityModel,
    IndexError, Position, COORD_LIMIT, RADIUS_LIMIT,
};

verus! {

broadcast use {
    vstd::std_specs::hash::group_hash_axioms,
    vstd::multiset::group_multiset_axioms,
    vstd::multiset::group_multiset_properties,
    vstd::seq_lib::group_to_multiset_ensures,
};

/// The triple under which an entity is stored in the tree.
pub open spec fn entity_item(e: EntityModel) -> (i64, i64, u64) {
    (e.position.x, e.position.y, e.id)
}

/// The entity an entity model turns into after a relocation to `to`, with the
/// payload replaced when one is supplied.
pub open spec fn relocated(e: EntityModel, to: Position, pay: Option<Seq<u8>>) -> EntityModel {
    EntityModel {
        position: to,
        payload: match pay {
            Option::Some(b) => b,
            Option::None => e.payload,
        },
        ..e
    }
}

/// Selection of every triple: what a full export asks of the tree.
pub open spec fn any_sel() -> spec_fn((i64, i64, u64)) -> bool {
    |it: (i64, i64, u64)| it == it
}

/// The abstract value of an optional replacement payload.
pub open spec fn payload_model(p: Option<Vec<u8>>) -> Option<Seq<u8>> {
    match p {
        Option::Some(b) => Option::Some(b@),
        Option::None => Option::None,
    }
}

/// A mutable set of entities admitting exact lookup by id and spatial
/// queries by position.
pub struct SpatialIndex {
    tree: SpatialTree,
    entities: HashMap<EntityId, Entity>,
}

impl View for SpatialIndex {
    type V = Map<EntityId, EntityModel>;

    closed spec fn view(&self) -> Map<EntityId, EntityModel> {
        self.entities@.map_values(|e: Entity| e@)
    }
}

impl SpatialIndex {
    /// The index is well formed: every entry carries its own key as id and an
    /// in-range position, the tree holds exactly one triple per entry, every
    /// triple of the tree belongs to an entry at that very position, and the
    /// tree is exactly as large as the map.
    pub closed spec fn inv(self) -> bool {
        &&& forall|id: EntityId| #[trigger] self@.contains_key(id) ==> {
            &&& self@[id].id == id
            &&& entity_ok(self@[id])
            &&& tree_items(self.tree).count(entity_item(self@[id])) == 1
        }
        &&& forall|it: (i64, i64, u64)| #[trigger] tree_items(self.tree).count(it) > 0 ==> {
            &&& self@.contains_key(it.2)
            &&& self@[it.2].position == item_pos(it)
        }
        &&& tree_items(self.tree).len() == self@.len()
    }

    /// The view is the entity map, entry by entry.
    proof fn lemma_view(self)
        ensures
            self@.dom() == self.entities@.dom(),
            self@.len() == self.entities@.len(),
            forall|id: EntityId| #[trigger] self@.contains_key(id) == self.entities@.contains_key(
                id,
            ),
            forall|id: EntityId| #[trigger] self.entities@.contains_key(id) ==> self@[id]
                == self.entities@[id]@,
    {
        assert(self@.dom() =~= self.entities@.dom());
    }

    /// A well-formed index keeps every triple of its tree on the world grid.
    proof fn lemma_tree_in_range(self)
        requires
            self.inv(),
        ensures
            tree_in_range(self.tree),
    {
        assert forall|it: (i64, i64, u64)| tree_items(self.tree).count(it) > 0 implies coord_ok(
            it.0,
        ) && coord_ok(it.1) by {
            assert(self@[it.2].position == item_pos(it));
            assert(entity_ok(self@[it.2]));
        }
    }

    /// Creates an empty index.
    pub fn new() -> (s: Self)
        ensures
            s.inv(),
            s@ == Map::<EntityId, EntityModel>::empty(),
    {
        let tree = tree_new();
        let entities: HashMap<EntityId, Entity> = HashMap::new();
        let s = SpatialIndex { tree, entities };
        proof {
            s.lemma_view();
            assert(s@ =~= Map::<EntityId, EntityModel>::empty());
        }
        s
    }

    /// The number of live entities.
    pub fn len(&self) -> (n: usize)
        ensures
            n == self@.len(),
    {
        proof {
            self.lemma_view();
        }
        self.entities.len()
    }

    /// Exact lookup by identity: returns a copy of the entity with the given
    /// id, or `None` when the id is absent.
    pub fn get(&self, id: EntityId) -> (r: Option<Entity>)
        ensures
            r.is_some() == self@.contains_key(id),
            match r {
                Option::Some(e) => self@.contains_key(id) && e@ == self@[id],
                Option::None => !self@.contains_key(id),
            },
    {
        proof {
            self.lemma_view();
        }
        match self.entities.get(&id) {
            Option::Some(e) => Option::Some(e.clone()),
            Option::None => Option::None,
        }
    }

    /// Adds an entity at its current coordinates.
    ///
    /// Fails with `InvalidCoordinate` exactly when the position is off the
    /// grid, and with `DuplicateId` exactly when the id is already live; the
    /// index is unchanged in both cases.
    pub fn insert(&mut self, e: Entity) -> (r: Result<(), IndexError>)
        requires
            old(self).inv(),
        ensures
            final(self).inv(),
            match r {
                Result::Ok(()) => {
                    &&& entity_ok(e@)
                    &&& !old(self)@.contains_key(e.id)
                    &&& final(self)@ == old(self)@.insert(e.id, e@)
                    &&& final(self)@.len() == old(self)@.len() + 1
                },
                Result::Err(IndexError::InvalidCoordinate) => {
                    &&& !entity_ok(e@)
                    &&& final(self)@ == old(self)@
                },
                Result::Err(IndexError::DuplicateId) => {
                    &&& entity_ok(e@)
                    &&& old(self)@.contains_key(e.id)
                    &&& final(self)@ == old(self)@
                },
                Result::Err(IndexError::NotFound) => false,
            },
    {
        if e.position.x < -COORD_LIMIT || e.position.x > COORD_LIMIT || e.position.y < -COORD_LIMIT
            || e.position.y > COORD_LIMIT {
            return Result::Err(IndexError::InvalidCoordinate);
        }
        proof {
            old(self).lemma_view();
        }
        if self.entities.contains_key(&e.id) {
            return Result::Err(IndexError::DuplicateId);
        }
        let id = e.id;
        let x = e.position.x;
        let y = e.position.y;
        proof {
            old(self).lemma_tree_in_range();
        }
        tree_insert(&mut self.tree, x, y, id);
        self.entities.insert(id, e);
        proof {
            self.lemma_view();
            assert(self@ =~= old(self)@.insert(id, e@));
            assert(old(self)@.dom().finite());
            self.lemma_insert_inv(*old(self), id, e@);
        }
        Result::Ok(())
    }

    /// The insert of a fresh, in-range entity preserves well-formedness.
    proof fn lemma_insert_inv(self, pre: Self, id: EntityId, v: EntityModel)
        requires
            pre.inv(),
            pre@.dom().finite(),
            !pre@.contains_key(id),
            v.id == id,
            entity_ok(v),
            self@ == pre@.insert(id, v),
            tree_items(self.tree) == tree_items(pre.tree).insert(entity_item(v)),
        ensures
            self.inv(),
            self@.len() == pre@.len() + 1,
    {
        let titems = tree_items(self.tree);
        let pitems = tree_items(pre.tree);
        let new_it = entity_item(v);
        // The fresh triple was absent: its id names no entry of the old map.
        assert(pitems.count(new_it) == 0) by {
            if pitems.count(new_it) > 0 {
                assert(pre@.contains_key(new_it.2));
            }
        }
        assert forall|k: EntityId| #[trigger] self@.contains_key(k) implies {
            &&& self@[k].id == k
            &&& entity_ok(self@[k])
            &&& titems.count(entity_item(self@[k])) == 1
        } by {
            if k == id {
                assert(titems.count(new_it) == 1);
            } else {
                assert(pre@.contains_key(k));
                assert(self@[k] == pre@[k]);
                assert(entity_item(pre@[k]).2 == k);
                assert(entity_item(pre@[k]) != new_it);
                assert(titems.count(entity_item(pre@[k])) == pitems.count(entity_item(pre@[k])));
            }
        }
        assert forall|it: (i64, i64, u64)| #[trigger] titems.count(it) > 0 implies {
            &&& self@.contains_key(it.2)
            &&& self@[it.2].position == item_pos(it)
        } by {
            if it == new_it {
                assert(self@.contains_key(id));
                assert(self@[id] == v);
            } else {
                assert(pitems.count(it) == titems.count(it));
                assert(pre@.contains_key(it.2));
                assert(it.2 != id);
                assert(self@[it.2] == pre@[it.2]);
            }
        }
        assert(self@.dom() =~= pre@.dom().insert(id));
        assert(titems.len() == pitems.len() + 1);
    }

    /// The removal of a present entity preserves well-formedness.
    proof fn lemma_remove_inv(self, pre: Self, id: EntityId)
        requires
            pre.inv(),
            pre@.dom().finite(),
            pre@.contains_key(id),
            self@ == pre@.remove(id),
            tree_items(self.tree) == tree_items(pre.tree).remove(entity_item(pre@[id])),
        ensures
            self.inv(),
            self@.len() == pre@.len() - 1,
    {
        let titems = tree_items(self.tree);
        let pitems = tree_items(pre.tree);
        let old_it = entity_item(pre@[id]);
        assert(pitems.count(old_it) == 1);
        assert forall|k: EntityId| #[trigger] self@.contains_key(k) implies {
            &&& self@[k].id == k
            &&& entity_ok(self@[k])
            &&& titems.count(entity_item(self@[k])) == 1
        } by {
            assert(pre@.contains_key(k) && k != id);
            assert(self@[k] == pre@[k]);
            assert(entity_item(pre@[k]).2 == k && old_it.2 == id);
            assert(titems.count(entity_item(pre@[k])) == pitems.count(entity_item(pre@[k])));
        }
        assert forall|it: (i64, i64, u64)| #[trigger] titems.count(it) > 0 implies {
            &&& self@.contains_key(it.2)
            &&& self@[it.2].position == item_pos(it)
        } by {
            assert(pitems.count(it) > 0);
            assert(pre@.contains_key(it.2));
            if it.2 == id {
                assert(pre@[it.2].position == item_pos(it));
                assert(old_it == it);
                assert(titems.count(it) == 0);
            }
            assert(self@[it.2] == pre@[it.2]);
        }
        assert(self@.dom() =~= pre@.dom().remove(id));
        assert(Multiset::singleton(old_it).subset_of(pitems)) by {
            assert forall|v: (i64, i64, u64)|
                Multiset::singleton(old_it).count(v) <= pitems.count(v) by {
                if v == old_it {
                } else {
                    assert(Multiset::singleton(old_it).count(v) == 0);
                }
            }
        }
        assert(titems.len() == pitems.len() - 1);
    }

    /// Removes and returns the entity with the given id.
    ///
    /// Fails with `NotFound` exactly when the id is absent, leaving the index
    /// unchanged.
    pub fn remove(&mut self, id: EntityId) -> (r: Result<Entity, IndexError>)
        requires
            old(self).inv(),
        ensures
            final(self).inv(),
            match r {
                Result::Ok(e) => {
                    &&& old(self)@.contains_key(id)
                    &&& e@ == old(self)@[id]
                    &&& final(self)@ == old(self)@.remove(id)
                    &&& final(self)@.len() == old(self)@.len() - 1
                },
                Result::Err(err) => {
                    &&& err == IndexError::NotFound
                    &&& !old(self)@.contains_key(id)
                    &&& final(self)@ == old(self)@
                },
            },
    {
        proof {
            old(self).lemma_view();
            old(self).lemma_tree_in_range();
        }
        match self.entities.remove(&id) {
            Option::Some(e) => {
                proof {
                    assert(old(self)@.contains_key(id) && e@ == old(self)@[id]);
                    assert(entity_ok(e@));
                }
                let removed = tree_remove(&mut self.tree, e.position.x, e.position.y, e.id);
                proof {
                    assert(entity_item(e@) == tree_item(e.position.x, e.position.y, e.id));
                    assert(removed);
                    self.lemma_view();
                    assert(self@ =~= old(self)@.remove(id));
                    assert(old(self)@.dom().finite());
                    self.lemma_remove_inv(*old(self), id);
                }
                Result::Ok(e)
            },
            Option::None => {
                proof {
                    self.lemma_view();
                    assert(self@ =~= old(self)@);
                }
                Result::Err(IndexError::NotFound)
            },
        }
    }

    /// An update that keeps an entry's id and position preserves
    /// well-formedness without touching the tree.
    proof fn lemma_update_entry_inv(self, pre: Self, id: EntityId, v: EntityModel)
        requires
            pre.inv(),
            pre@.contains_key(id),
            v.id == id,
            entity_ok(v),
            v.position == pre@[id].position,
            self@ == pre@.insert(id, v),
            self.tree == pre.tree,
        ensures
            self.inv(),
            self@.len() == pre@.len(),
    {
        let titems = tree_items(self.tree);
        assert(entity_item(v) == entity_item(pre@[id]));
        assert forall|k: EntityId| #[trigger] self@.contains_key(k) implies {
            &&& self@[k].id == k
            &&& entity_ok(self@[k])
            &&& titems.count(entity_item(self@[k])) == 1
        } by {
            if k != id {
                assert(pre@.contains_key(k) && self@[k] == pre@[k]);
            }
        }
        assert forall|it: (i64, i64, u64)| #[trigger] titems.count(it) > 0 implies {
            &&& self@.contains_key(it.2)
            &&& self@[it.2].position == item_pos(it)
        } by {
            assert(pre@.contains_key(it.2) && pre@[it.2].position == item_pos(it));
            if it.2 != id {
                assert(self@[it.2] == pre@[it.2]);
            }
        }
        assert(self@.dom() =~= pre@.dom());
    }

    /// Hands an entity to a new owner; a pure metadata change that leaves
    /// every position as it was.
    ///
    /// Fails with `NotFound` exactly when the id is absent, leaving the index
    /// unchanged.
    pub fn set_owner(&mut self, id: EntityId, new_owner: u64) -> (r: Result<(), IndexError>)
        requires
            old(self).inv(),
        ensures
            final(self).inv(),
            match r {
                Result::Ok(()) => {
                    &&& old(self)@.contains_key(id)
                    &&& final(self)@ == old(self)@.insert(
                        id,
                        EntityModel { owner: new_owner, ..old(self)@[id] },
                    )
                    &&& final(self)@.len() == old(self)@.len()
                },
                Result::Err(err) => {
                    &&& err == IndexError::NotFound
                    &&& !old(self)@.contains_key(id)
                    &&& final(self)@ == old(self)@
                },
            },
    {
        proof {
            old(self).lemma_view();
        }
        match self.entities.remove(&id) {
            Option::Some(mut e) => {
                e.owner = new_owner;
                self.entities.insert(id, e);
                proof {
                    self.lemma_view();
                    let v = EntityModel { owner: new_owner, ..old(self)@[id] };
                    assert(e@ =~= v);
                    assert(self@ =~= old(self)@.insert(id, v));
                    self.lemma_update_entry_inv(*old(self), id, v);
                }
                Result::Ok(())
            },
            Option::None => {
                proof {
                    self.lemma_view();
                    assert(self@ =~= old(self)@);
                }
                Result::Err(IndexError::NotFound)
            },
        }
    }

    /// Moves an entity to new coordinates, optionally replacing its payload;
    /// the entity leaves its old spot in the tree and is reinserted at the
    /// new one, so no query sees the old position afterwards.
    ///
    /// Fails with `InvalidCoordinate` exactly when the target is off the
    /// grid, and with `NotFound` exactly when the target is on the grid but
    /// the id is absent; the index is unchanged in both cases.
    pub fn relocate(&mut self, id: EntityId, to: Position, new_payload: Option<Vec<u8>>) -> (r:
        Result<(), IndexError>)
        requires
            old(self).inv(),
        ensures
            final(self).inv(),
            match r {
                Result::Ok(()) => {
                    &&& pos_ok(to)
                    &&& old(self)@.contains_key(id)
                    &&& final(self)@ == old(self)@.insert(
                        id,
                        relocated(old(self)@[id], to, payload_model(new_payload)),
                    )
                    &&& final(self)@.len() == old(self)@.len()
                },
                Result::Err(IndexError::InvalidCoordinate) => {
                    &&& !pos_ok(to)
                    &&& final(self)@ == old(self)@
                },
                Result::Err(IndexError::NotFound) => {
                    &&& pos_ok(to)
                    &&& !old(self)@.contains_key(id)
                    &&& final(self)@ == old(self)@
                },
                Result::Err(IndexError::DuplicateId) => false,
            },
    {
        if to.x < -COORD_LIMIT || to.x > COORD_LIMIT || to.y < -COORD_LIMIT || to.y > COORD_LIMIT {
            return Result::Err(IndexError::InvalidCoordinate);
        }
        proof {
            old(self).lemma_view();
            old(self).lemma_tree_in_range();
        }
        match self.entities.remove(&id) {
            Option::Some(mut e) => {
                proof {
                    assert(old(self)@.contains_key(id) && e@ == old(self)@[id]);
                    assert(entity_ok(e@));
                }
                let removed = tree_remove(&mut self.tree, e.position.x, e.position.y, e.id);
                let ghost mid = SpatialIndex { tree: self.tree, entities: self.entities };
                proof {
                    assert(entity_item(e@) == tree_item(e.position.x, e.position.y, e.id));
                    assert(removed);
                    mid.lemma_view();
                    assert(mid@ =~= old(self)@.remove(id));
                    assert(old(self)@.dom().finite());
                    mid.lemma_remove_inv(*old(self), id);
                    mid.lemma_tree_in_range();
                }
                e.position = to;
                match new_payload {
                    Option::Some(b) => {
                        e.payload = b;
                    },
                    Option::None => {},
                }
                let ghost vnew = relocated(old(self)@[id], to, payload_model(new_payload));
                proof {
                    assert(e@ =~= vnew);
                }
                tree_insert(&mut self.tree, to.x, to.y, e.id);
                self.entities.insert(id, e);
                proof {
                    self.lemma_view();
                    assert(self@ =~= mid@.insert(id, vnew));
                    assert(mid@.dom().finite()) by {
                        assert(mid@.dom() =~= old(self)@.dom().remove(id));
                    }
                    self.lemma_insert_inv(mid, id, vnew);
                    assert(self@ =~= old(self)@.insert(id, vnew));
                }
                Result::Ok(())
            },
            Option::None => {
                proof {
                    self.lemma_view();
                    assert(self@ =~= old(self)@);
                }
                Result::Err(IndexError::NotFound)
            },
        }
    }

    /// Turns the triples a tree query handed back into copies of the
    /// entities they stand for.
    fn collect_entities(&self, items: &Vec<(i64, i64, u64)>) -> (r: Vec<Entity>)
        requires
            self.inv(),
            forall|i: int|
                0 <= i < items@.len() ==> tree_items(self.tree).count(#[trigger] items@[i]) > 0,
        ensures
            r@.len() == items@.len(),
            forall|i: int|
                #![trigger r@[i]]
                0 <= i < items@.len() ==> {
                    &&& self@.contains_key(items@[i].2)
                    &&& r@[i]@ == self@[items@[i].2]
                },
    {
        let mut r: Vec<Entity> = Vec::new();
        let mut k: usize = 0;
        while k < items.len()
            invariant
                self.inv(),
                forall|i: int|
                    0 <= i < items@.len() ==> tree_items(self.tree).count(#[trigger] items@[i])
                        > 0,
                k <= items@.len(),
                r@.len() == k,
                forall|i: int|
                    #![trigger r@[i]]
                    0 <= i < k ==> {
                        &&& self@.contains_key(items@[i].2)
                        &&& r@[i]@ == self@[items@[i].2]
                    },
            decreases items@.len() - k,
        {
            let it = items[k];
            proof {
                assert(tree_items(self.tree).count(it) > 0);
                assert(self@.contains_key(it.2));
                self.lemma_view();
            }
            let e = match self.entities.get(&it.2) {
                Option::Some(e) => e.clone(),
                Option::None => unreached(),
            };
            r.push(e);
            k = k + 1;
        }
        r
    }

    /// What a query's raw triples say of its entity results: every result is
    /// a live entity the selection accepts, every live entity the selection
    /// accepts appears, and no id appears twice.
    proof fn lemma_query_result(
        self,
        items: Seq<(i64, i64, u64)>,
        r: Seq<Entity>,
        sel: spec_fn((i64, i64, u64)) -> bool,
    )
        requires
            self.inv(),
            items.to_multiset() == tree_items(self.tree).filter(sel),
            r.len() == items.len(),
            forall|i: int|
                #![trigger r[i]]
                0 <= i < items.len() ==> {
                    &&& self@.contains_key(items[i].2)
                    &&& r[i]@ == self@[items[i].2]
                },
        ensures
            forall|i: int|
                #![trigger r[i]]
                0 <= i < r.len() ==> {
                    &&& self@.contains_key(r[i]@.id)
                    &&& r[i]@ == self@[r[i]@.id]
                    &&& sel(entity_item(r[i]@))
                },
            forall|id: EntityId|
                #[trigger] self@.contains_key(id) && sel(entity_item(self@[id]))
                    ==> exists|i: int| 0 <= i < r.len() && (#[trigger] r[i])@.id == id,
            forall|i: int, j: int| 0 <= i < j < r.len() ==> r[i]@.id != r[j]@.id,
    {
        let titems = tree_items(self.tree);
        let fitems = titems.filter(sel);
        // Every triple handed back is the one its entity is stored under.
        assert forall|i: int| 0 <= i < items.len() implies {
            &&& #[trigger] items[i] == entity_item(self@[items[i].2])
            &&& sel(items[i])
        } by {
            assert(items.contains(items[i]));
            assert(fitems.count(items[i]) > 0);
            assert(titems.count(items[i]) > 0);
            assert(self@[items[i].2].id == items[i].2);
            assert(self@[items[i].2].position == item_pos(items[i]));
        }
        assert forall|id: EntityId|
            #[trigger] self@.contains_key(id) && sel(entity_item(self@[id])) implies exists|i: int|
            0 <= i < r.len() && (#[trigger] r[i])@.id == id by {
            let x = entity_item(self@[id]);
            assert(titems.count(x) == 1);
            assert(fitems.count(x) == 1);
            assert(items.contains(x));
            let i = choose|i: int| 0 <= i < items.len() && items[i] == x;
            assert(r[i]@ == self@[id]);
            assert(r[i]@.id == id);
        }
        // Each triple occurs once, so no id can occur twice.
        assert forall|x: (i64, i64, u64)| items.to_multiset().contains(x) implies items.to_multiset().count(
            x,
        ) == 1 by {
            assert(fitems.count(x) > 0);
            assert(titems.count(x) > 0);
            assert(x == entity_item(self@[x.2]));
            assert(titems.count(x) == 1);
        }
        items.lemma_multiset_has_no_duplicates_conv();
        assert forall|i: int, j: int| 0 <= i < j < r.len() implies r[i]@.id != r[j]@.id by {
            if r[i]@.id == r[j]@.id {
                let id = items[i].2;
                assert(items[i] == entity_item(self@[id]));
                assert(items[j].2 == id);
                assert(items[j] == entity_item(self@[id]));
                assert(items[i] == items[j]);
            }
        }
    }

    /// Returns every entity whose position lies in the closed axis-aligned
    /// box between the two corners, each exactly once, in an unspecified
    /// order.
    pub fn query_range(&self, lower: Position, upper: Position) -> (r: Vec<Entity>)
        requires
            self.inv(),
        ensures
            forall|i: int|
                #![trigger r@[i]]
                0 <= i < r@.len() ==> {
                    &&& self@.contains_key(r@[i]@.id)
                    &&& r@[i]@ == self@[r@[i]@.id]
                    &&& in_box(r@[i]@.position, lower, upper)
                },
            forall|id: EntityId|
                #[trigger] self@.contains_key(id) && in_box(self@[id].position, lower, upper)
                    ==> exists|i: int| 0 <= i < r@.len() && (#[trigger] r@[i])@.id == id,
            forall|i: int, j: int| 0 <= i < j < r@.len() ==> r@[i]@.id != r@[j]@.id,
    {
        if upper.x < lower.x || upper.y < lower.y {
            let r: Vec<Entity> = Vec::new();
            return r;
        }
        let items = tree_in_box(&self.tree, lower, upper);
        proof {
            assert forall|i: int|
                0 <= i < items@.len() implies tree_items(self.tree).count(#[trigger] items@[i])
                > 0 by {
                assert(items@.contains(items@[i]));
                assert(items@.to_multiset().count(items@[i]) > 0);
            }
        }
        let r = self.collect_entities(&items);
        proof {
            let sel = box_sel(lower, upper);
            self.lemma_query_result(items@, r@, sel);
            assert forall|i: int| 0 <= i < r@.len() implies in_box(
                (#[trigger] r@[i])@.position,
                lower,
                upper,
            ) by {
                assert(sel(entity_item(r@[i]@)));
            }
            assert forall|id: EntityId|
                #[trigger] self@.contains_key(id) && in_box(
                    self@[id].position,
                    lower,
                    upper,
                ) implies exists|i: int| 0 <= i < r@.len() && (#[trigger] r@[i])@.id == id by {
                assert(sel(entity_item(self@[id])));
            }
        }
        r
    }

    /// Returns every entity whose Euclidean distance to `center` is at most
    /// `radius`, each exactly once, in an unspecified order.
    ///
    /// The contract compares squared distances: for a non-negative radius
    /// that says exactly that the Euclidean distance is at most `radius`.
    pub fn query_radius(&self, center: Position, radius: i64) -> (r: Vec<Entity>)
        requires
            self.inv(),
            pos_ok(center),
            0 <= radius,
        ensures
            forall|i: int|
                #![trigger r@[i]]
                0 <= i < r@.len() ==> {
                    &&& self@.contains_key(r@[i]@.id)
                    &&& r@[i]@ == self@[r@[i]@.id]
                    &&& within_radius(r@[i]@.position, center, radius as int)
                },
            forall|id: EntityId|
                #[trigger] self@.contains_key(id) && within_radius(
                    self@[id].position,
                    center,
                    radius as int,
                ) ==> exists|i: int| 0 <= i < r@.len() && (#[trigger] r@[i])@.id == id,
            forall|i: int, j: int| 0 <= i < j < r@.len() ==> r@[i]@.id != r@[j]@.id,
    {
        // Any radius beyond `RADIUS_LIMIT` reaches every point of the grid,
        // so capping it changes no answer and keeps the square inside `i64`.
        let rr: i64 = if radius > RADIUS_LIMIT {
            RADIUS_LIMIT
        } else {
            radius
        };
        proof {
            assert(rr * rr <= RADIUS_LIMIT * RADIUS_LIMIT) by (nonlinear_arith)
                requires
                    0 <= rr <= RADIUS_LIMIT,
            ;
        }
        let d2: i64 = rr * rr;
        proof {
            self.lemma_tree_in_range();
        }
        let items = tree_within_distance(&self.tree, center, d2);
        proof {
            assert forall|i: int|
                0 <= i < items@.len() implies tree_items(self.tree).count(#[trigger] items@[i])
                > 0 by {
                assert(items@.contains(items@[i]));
                assert(items@.to_multiset().count(items@[i]) > 0);
            }
        }
        let r = self.collect_entities(&items);
        proof {
            let sel = within_sel(center, d2 as int);
            self.lemma_query_result(items@, r@, sel);
            // The cap is invisible: on the grid, the selection agrees with
            // the requested radius.
            assert forall|id: EntityId| #[trigger] self@.contains_key(id) implies (sel(
                entity_item(self@[id]),
            ) <==> within_radius(self@[id].position, center, radius as int)) by {
                let p = self@[id].position;
                assert(item_pos(entity_item(self@[id])) == p);
                if radius > RADIUS_LIMIT {
                    crate::types::lemma_sq_dist_bounded(p, center);
                    assert((radius as int) * (radius as int) >= (RADIUS_LIMIT as int) * (
                    RADIUS_LIMIT as int)) by (nonlinear_arith)
                        requires
                            radius as int >= RADIUS_LIMIT as int >= 0,
                    ;
                }
            }
            assert forall|i: int| 0 <= i < r@.len() implies within_radius(
                (#[trigger] r@[i])@.position,
                center,
                radius as int,
            ) by {
                assert(sel(entity_item(r@[i]@)));
            }
        }
        r
    }

    /// Returns an entity at least as close to `center` as any other live
    /// entity, or `None` exactly when the index is empty. Among equally close
    /// entities the choice follows the tree's traversal and is fixed for a
    /// given index state.
    pub fn query_nearest(&self, center: Position) -> (r: Option<Entity>)
        requires
            self.inv(),
            pos_ok(center),
        ensures
            r.is_none() <==> self@.len() == 0,
            match r {
                Option::None => self@.len() == 0,
                Option::Some(e) => {
                    &&& self@.contains_key(e@.id)
                    &&& e@ == self@[e@.id]
                    &&& forall|id: EntityId|
                        #[trigger] self@.contains_key(id) ==> sq_dist(e@.position, center)
                            <= sq_dist(self@[id].position, center)
                },
            },
    {
        proof {
            self.lemma_tree_in_range();
        }
        match tree_nearest(&self.tree, center) {
            Option::None => {
                proof {
                    if self@.len() != 0 {
                        let id = self@.dom().choose();
                        assert(self@.dom().contains(id)) by {
                            vstd::set_lib::lemma_set_empty_equivalency_len(self@.dom());
                        }
                        assert(tree_items(self.tree).count(entity_item(self@[id])) == 1);
                    }
                }
                Option::None
            },
            Option::Some(it) => {
                proof {
                    assert(tree_items(self.tree).count(it) > 0);
                    assert(self@.contains_key(it.2));
                    self.lemma_view();
                }
                let e = match self.entities.get(&it.2) {
                    Option::Some(e) => e.clone(),
                    Option::None => unreached(),
                };
                proof {
                    assert(e@ == self@[it.2]);
                    assert(e@.id == it.2);
                    assert(e@.position == item_pos(it));
                    assert forall|id: EntityId| #[trigger] self@.contains_key(id) implies sq_dist(
                        e@.position,
                        center,
                    ) <= sq_dist(self@[id].position, center) by {
                        assert(tree_items(self.tree).count(entity_item(self@[id])) == 1);
                        assert(item_pos(entity_item(self@[id])) == self@[id].position);
                    }
                    assert(tree_items(self.tree).len() >= 1);
                }
                Option::Some(e)
            },
        }
    }

    /// Cold-start population: builds an index from a full entity set, such as
    /// a snapshot that `all` handed back. The set must carry distinct ids and
    /// in-range positions, as any set of live entities does.
    pub fn bulk_load(list: Vec<Entity>) -> (s: Self)
        requires
            forall|i: int| 0 <= i < list@.len() ==> entity_ok((#[trigger] list@[i])@),
            forall|i: int, j: int| 0 <= i < j < list@.len() ==> list@[i].id != list@[j].id,
        ensures
            s.inv(),
            s@.len() == list@.len(),
            forall|i: int|
                0 <= i < list@.len() ==> {
                    &&& s@.contains_key((#[trigger] list@[i]).id)
                    &&& s@[list@[i].id] == list@[i]@
                },
            forall|id: EntityId|
                #[trigger] s@.contains_key(id) ==> exists|i: int|
                    0 <= i < list@.len() && (#[trigger] list@[i]).id == id,
    {
        let mut s = SpatialIndex::new();
        let mut k: usize = 0;
        while k < list.len()
            invariant
                s.inv(),
                k <= list@.len(),
                s@.len() == k,
                forall|i: int| 0 <= i < list@.len() ==> entity_ok((#[trigger] list@[i])@),
                forall|i: int, j: int| 0 <= i < j < list@.len() ==> list@[i].id != list@[j].id,
                forall|i: int|
                    0 <= i < k ==> {
                        &&& s@.contains_key((#[trigger] list@[i]).id)
                        &&& s@[list@[i].id] == list@[i]@
                    },
                forall|id: EntityId|
                    #[trigger] s@.contains_key(id) ==> exists|i: int|
                        0 <= i < k && (#[trigger] list@[i]).id == id,
            decreases list@.len() - k,
        {
            let e = list[k].clone();
            proof {
                assert(e@ == list@[k as int]@);
                assert(e.id == list@[k as int].id);
                if s@.contains_key(e.id) {
                    let i = choose|i: int| 0 <= i < k && list@[i].id == e.id;
                    assert(list@[i].id == list@[k as int].id);
                }
            }
            match s.insert(e) {
                Result::Ok(()) => {},
                Result::Err(_) => unreached(),
            }
            k = k + 1;
        }
        s
    }

    /// A full snapshot: every live entity exactly once, in an unspecified
    /// order.
    pub fn all(&self) -> (r: Vec<Entity>)
        requires
            self.inv(),
        ensures
            r@.len() == self@.len(),
            forall|i: int|
                #![trigger r@[i]]
                0 <= i < r@.len() ==> {
                    &&& self@.contains_key(r@[i]@.id)
                    &&& r@[i]@ == self@[r@[i]@.id]
                },
            forall|id: EntityId|
                #[trigger] self@.contains_key(id) ==> exists|i: int|
                    0 <= i < r@.len() && (#[trigger] r@[i])@.id == id,
            forall|i: int, j: int| 0 <= i < j < r@.len() ==> r@[i]@.id != r@[j]@.id,
    {
        let items = tree_all(&self.tree);
        proof {
            assert(tree_items(self.tree).filter(any_sel()) =~= tree_items(self.tree)) by {
                assert forall|it: (i64, i64, u64)|
                    tree_items(self.tree).filter(any_sel()).count(it) == tree_items(
                        self.tree,
                    ).count(it) by {
                    assert(any_sel()(it));
                }
            }
            assert forall|i: int|
                0 <= i < items@.len() implies tree_items(self.tree).count(#[trigger] items@[i])
                > 0 by {
                assert(items@.contains(items@[i]));
                assert(items@.to_multiset().count(items@[i]) > 0);
            }
        }
        let r = self.collect_entities(&items);
        proof {
            self.lemma_query_result(items@, r@, any_sel());
            assert forall|id: EntityId| #[trigger] self@.contains_key(id) implies exists|i: int|
                0 <= i < r@.len() && (#[trigger] r@[i])@.id == id by {
                assert(any_sel()(entity_item(self@[id])));
            }
            assert(items@.to_multiset().len() == items@.len());
            assert(r@.len() == self@.len());
        }
        r
    }
}

} // verus!
