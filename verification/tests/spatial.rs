use galaxy::ids::IdCounter;
use galaxy::index::SpatialIndex;
use galaxy::types::{Entity, EntityType, IndexError, Position, COORD_LIMIT};

fn ent(id: u64, x: i64, y: i64) -> Entity {
    Entity {
        id,
        owner: 0,
        entity_type: EntityType::Ship,
        position: Position { x, y },
        payload: Vec::new(),
    }
}

fn sorted_ids(entities: &[Entity]) -> Vec<u64> {
    let mut ids: Vec<u64> = entities.iter().map(|e| e.id).collect();
    ids.sort();
    ids
}

#[test]
fn test_create_entity() {
    let mut counter = IdCounter::new();
    let mut index = SpatialIndex::new();
    let first = counter.fresh();
    assert_eq!(first, 0);
    assert_eq!(counter.fresh(), 1);
    assert!(index.insert(ent(0, 10, 10)).is_ok());
    assert!(index.insert(ent(1, 20, 20)).is_ok());
    assert_eq!(index.len(), 2);
}

#[test]
fn test_add_component() {
    let mut index = SpatialIndex::new();
    let mut e = ent(4, 1, 2);
    e.payload = vec![1, 0, 0, 0];
    assert!(index.insert(e).is_ok());
    assert_eq!(index.len(), 1);
    assert!(index.get(4).is_some());
}

#[test]
fn test_get_component() {
    let mut index = SpatialIndex::new();
    let mut e = ent(9, 1, 2);
    e.payload = vec![7, 8, 9];
    assert!(index.insert(e).is_ok());
    let back = index.get(9).unwrap();
    assert_eq!(back.payload, vec![7, 8, 9]);
    assert_eq!(back.position, Position { x: 1, y: 2 });
}

#[test]
fn test_round_trip() {
    let mut index = SpatialIndex::new();
    let mut e = ent(42, -5, 17);
    e.owner = 3;
    e.entity_type = EntityType::Planet;
    e.payload = vec![0xab, 0xcd];
    assert!(index.insert(e).is_ok());

    let back = index.get(42).expect("inserted entity must be found");
    assert_eq!(back.id, 42);
    assert_eq!(back.owner, 3);
    assert_eq!(back.entity_type, EntityType::Planet);
    assert_eq!(back.position, Position { x: -5, y: 17 });
    assert_eq!(back.payload, vec![0xab, 0xcd]);

    let removed = index.remove(42).expect("present id must be removable");
    assert_eq!(removed.id, 42);
    assert_eq!(removed.payload, vec![0xab, 0xcd]);
    assert!(index.get(42).is_none());
}

#[test]
fn test_exact_count() {
    let mut index = SpatialIndex::new();
    assert_eq!(index.all().len(), 0);
    for id in 0..5u64 {
        assert!(index.insert(ent(id, id as i64, 0)).is_ok());
    }
    assert_eq!(index.all().len(), 5);
    assert!(index.remove(3).is_ok());
    assert!(index.remove(0).is_ok());
    assert_eq!(index.all().len(), 3);
    // A failed remove and a failed insert change nothing.
    assert!(matches!(index.remove(3), Err(IndexError::NotFound)));
    assert_eq!(index.insert(ent(1, 50, 50)), Err(IndexError::DuplicateId));
    assert_eq!(index.all().len(), 3);
    assert_eq!(index.len(), 3);
}

#[test]
fn test_positional_consistency() {
    let mut index = SpatialIndex::new();
    let old_pos = Position { x: 100, y: -200 };
    let new_pos = Position { x: -300, y: 400 };
    assert!(index.insert(ent(1, old_pos.x, old_pos.y)).is_ok());
    assert_eq!(sorted_ids(&index.query_radius(old_pos, 0)), vec![1]);
    assert!(index.relocate(1, new_pos, None).is_ok());
    assert!(index.query_radius(old_pos, 0).is_empty());
    assert_eq!(sorted_ids(&index.query_radius(new_pos, 0)), vec![1]);
}

#[test]
fn test_range_correctness() {
    let mut index = SpatialIndex::new();
    assert!(index.insert(ent(1, 0, 0)).is_ok());
    assert!(index.insert(ent(2, 5, 5)).is_ok());
    assert!(index.insert(ent(3, 5, 6)).is_ok());
    assert!(index.insert(ent(4, -1, 3)).is_ok());
    // The box is closed: both corners belong to it.
    let hits = index.query_range(Position { x: 0, y: 0 }, Position { x: 5, y: 5 });
    assert_eq!(sorted_ids(&hits), vec![1, 2]);
    // An inverted box holds nothing.
    let none = index.query_range(Position { x: 5, y: 5 }, Position { x: 0, y: 0 });
    assert!(none.is_empty());
}

#[test]
fn test_radius_correctness() {
    let mut index = SpatialIndex::new();
    // A 3-4-5 triangle: the entity sits at Euclidean distance exactly 5.
    assert!(index.insert(ent(1, 3, 4)).is_ok());
    let center = Position { x: 0, y: 0 };
    assert_eq!(sorted_ids(&index.query_radius(center, 5)), vec![1]);
    assert!(index.query_radius(center, 4).is_empty());
}

#[test]
fn test_radius_reaches_whole_grid() {
    let mut index = SpatialIndex::new();
    assert!(index.insert(ent(1, -COORD_LIMIT, -COORD_LIMIT)).is_ok());
    assert!(index.insert(ent(2, COORD_LIMIT, COORD_LIMIT)).is_ok());
    // A radius beyond any possible distance finds everything.
    let everywhere = index.query_radius(Position { x: 0, y: 0 }, i64::MAX);
    assert_eq!(sorted_ids(&everywhere), vec![1, 2]);
}

#[test]
fn test_nearest_correctness() {
    let mut index = SpatialIndex::new();
    assert!(index.query_nearest(Position { x: 0, y: 0 }).is_none());
    assert!(index.insert(ent(1, 10, 0)).is_ok());
    assert!(index.insert(ent(2, 3, 4)).is_ok());
    assert!(index.insert(ent(3, -100, 50)).is_ok());
    let nearest = index.query_nearest(Position { x: 0, y: 0 }).unwrap();
    assert_eq!(nearest.id, 2);
}

#[test]
fn test_remove_idempotence() {
    let mut index = SpatialIndex::new();
    assert!(index.insert(ent(1, 0, 0)).is_ok());
    assert!(matches!(index.remove(99), Err(IndexError::NotFound)));
    assert_eq!(sorted_ids(&index.all()), vec![1]);
    assert!(matches!(index.remove(99), Err(IndexError::NotFound)));
    assert_eq!(sorted_ids(&index.all()), vec![1]);
}

#[test]
fn test_example_scenario() {
    // Fixed-point coordinates at a scale of 100 per world unit: A=(0,0),
    // B=(5,5), C=(10,10); a radius of 7.1 units reaches B (distance about
    // 7.07) but not C (distance about 14.14).
    let mut index = SpatialIndex::new();
    let a = 1u64;
    let b = 2u64;
    let c = 3u64;
    assert!(index.insert(ent(a, 0, 0)).is_ok());
    assert!(index.insert(ent(b, 500, 500)).is_ok());
    assert!(index.insert(ent(c, 1000, 1000)).is_ok());
    let origin = Position { x: 0, y: 0 };
    assert_eq!(sorted_ids(&index.query_radius(origin, 710)), vec![a, b]);
    assert_eq!(
        sorted_ids(&index.query_range(origin, Position { x: 500, y: 500 })),
        vec![a, b]
    );
    assert!(index.relocate(c, origin, None).is_ok());
    assert_eq!(sorted_ids(&index.query_radius(origin, 0)), vec![a, c]);
}

#[test]
fn test_relocate_replaces_payload() {
    let mut index = SpatialIndex::new();
    let mut e = ent(5, 1, 1);
    e.payload = vec![1];
    assert!(index.insert(e).is_ok());
    // Without a new payload the old one is kept.
    assert!(index.relocate(5, Position { x: 2, y: 2 }, None).is_ok());
    assert_eq!(index.get(5).unwrap().payload, vec![1]);
    // With one, it is replaced.
    assert!(index
        .relocate(5, Position { x: 3, y: 3 }, Some(vec![2, 2]))
        .is_ok());
    let back = index.get(5).unwrap();
    assert_eq!(back.payload, vec![2, 2]);
    assert_eq!(back.position, Position { x: 3, y: 3 });
}

#[test]
fn test_relocate_errors() {
    let mut index = SpatialIndex::new();
    assert!(index.insert(ent(1, 0, 0)).is_ok());
    assert_eq!(
        index.relocate(2, Position { x: 1, y: 1 }, None),
        Err(IndexError::NotFound)
    );
    assert_eq!(
        index.relocate(1, Position { x: COORD_LIMIT + 1, y: 0 }, None),
        Err(IndexError::InvalidCoordinate)
    );
    // The failed calls left the entity where it was.
    assert_eq!(index.get(1).unwrap().position, Position { x: 0, y: 0 });
}

#[test]
fn test_insert_rejects_bad_coordinates() {
    let mut index = SpatialIndex::new();
    assert_eq!(
        index.insert(ent(1, 0, -COORD_LIMIT - 1)),
        Err(IndexError::InvalidCoordinate)
    );
    assert_eq!(index.len(), 0);
    assert!(index.insert(ent(1, 0, -COORD_LIMIT)).is_ok());
    assert_eq!(index.len(), 1);
}

#[test]
fn test_set_owner() {
    let mut index = SpatialIndex::new();
    assert!(index.insert(ent(1, 7, 7)).is_ok());
    assert!(index.set_owner(1, 55).is_ok());
    let back = index.get(1).unwrap();
    assert_eq!(back.owner, 55);
    assert_eq!(back.position, Position { x: 7, y: 7 });
    assert_eq!(index.set_owner(2, 55), Err(IndexError::NotFound));
}

#[test]
fn test_bulk_load() {
    let list = vec![ent(1, 0, 0), ent(2, 10, 10), ent(3, -10, 5)];
    let index = SpatialIndex::bulk_load(list);
    assert_eq!(index.len(), 3);
    assert_eq!(sorted_ids(&index.all()), vec![1, 2, 3]);
    assert_eq!(
        sorted_ids(&index.query_range(Position { x: -20, y: -20 }, Position { x: 5, y: 20 })),
        vec![1, 3]
    );
}

#[test]
fn test_entity_meta() {
    let e = ent(12, 1, 1);
    let meta = e.meta();
    assert_eq!(meta.id, 12);
    assert_eq!(meta.entity_type, EntityType::Ship);
}
