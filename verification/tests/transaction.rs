use rebit::entity::{Entity, EntityCategory, EntityGraph, EntityId};
use rebit::transaction::{Change, Transaction, TransactionError};

#[derive(Debug, Clone, PartialEq)]
struct BoxSolid {
    id: u64,
    w: f64,
    d: f64,
    h: f64,
}

fn make_box_solid(id: u64, w: f64, d: f64, h: f64) -> BoxSolid {
    BoxSolid { id, w, d, h }
}

type Graph = EntityGraph<BoxSolid, f64>;
type Tx = Transaction<BoxSolid, f64>;

#[test]
fn transaction_commit_create() {
    let mut graph = Graph::new();
    let mut tx = Tx::new();
    let entity = Entity::new(EntityId(1), EntityCategory::Wall, "TxWall", make_box_solid(0, 5.0, 0.3, 3.0));
    tx.record_create(entity.clone());
    assert_eq!(tx.change_count(), 1);
    tx.commit(&mut graph).unwrap();
    assert!(graph.get(EntityId(1)).is_some());
}

#[test]
fn transaction_rollback_create() {
    let mut graph = Graph::new();
    let mut tx = Tx::new();
    let entity = Entity::new(EntityId(1), EntityCategory::Slab, "TxSlab", make_box_solid(0, 10.0, 10.0, 0.2));
    tx.record_create(entity);
    tx.rollback(&mut graph).unwrap();
    assert!(graph.is_empty());
}

#[test]
fn transaction_rollback_remove() {
    let mut graph = Graph::new();
    let entity = Entity::new(EntityId(1), EntityCategory::Column, "Col-01", make_box_solid(0, 0.3, 0.3, 4.0));
    graph.insert(entity.clone());
    let mut tx = Tx::new();
    tx.record_remove(EntityId(1), entity);
    assert!(graph.get(EntityId(1)).is_some());
    tx.rollback(&mut graph).unwrap();
    assert!(graph.get(EntityId(1)).is_some());
}

#[test]
fn rollback_restores_updated_entity() {
    let mut graph = Graph::new();
    let id = graph.create(EntityCategory::Wall, "Old", make_box_solid(0, 1.0, 1.0, 1.0));
    let previous = graph.get(id).unwrap().clone();
    let mut tx = Tx::new();
    graph.get_mut(id).unwrap().name = "New".into();
    tx.record_update(id, previous);
    tx.rollback(&mut graph).unwrap();
    assert_eq!(graph.get(id).unwrap().name, "Old");
}

#[test]
fn commit_applies_in_order() {
    let mut graph = Graph::new();
    let mut tx = Tx::new();
    let a = Entity::new(EntityId(3), EntityCategory::Beam, "A", make_box_solid(3, 1.0, 1.0, 1.0));
    let b = Entity::new(EntityId(4), EntityCategory::Beam, "B", make_box_solid(4, 1.0, 1.0, 1.0));
    tx.record_create(a.clone());
    tx.record_create(b);
    tx.record_remove(EntityId(3), a);
    assert_eq!(tx.changes().len(), 3);
    tx.commit(&mut graph).unwrap();
    assert!(graph.get(EntityId(3)).is_none());
    assert!(graph.get(EntityId(4)).is_some());
    assert_eq!(graph.create(EntityCategory::Door, "D", make_box_solid(5, 1.0, 1.0, 1.0)), EntityId(5));
}

#[test]
fn change_descriptions() {
    let e = Entity::new(EntityId(12), EntityCategory::Column, "Col-7", make_box_solid(0, 1.0, 1.0, 1.0));
    let created: Change<BoxSolid, f64> = Change::EntityCreated(e.clone());
    assert_eq!(created.description(), "created Column (Col-7)");
    let updated: Change<BoxSolid, f64> = Change::EntityUpdated { id: EntityId(12), previous: e.clone() };
    assert_eq!(updated.description(), "updated E12");
    let removed: Change<BoxSolid, f64> = Change::EntityRemoved { id: EntityId(12), removed: e };
    assert_eq!(removed.description(), "removed E12");
    assert_eq!(TransactionError::AlreadyFinalized.to_string(), "transaction already finalized");
}
