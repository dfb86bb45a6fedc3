use rebit::entity::EntityId;
use rebit::relationship::{RelationshipGraph, RelationshipType};

#[test]
fn relationship_graph_neighbors() {
    let mut g = RelationshipGraph::new();
    let a = EntityId(1);
    let b = EntityId(2);
    let c = EntityId(3);
    g.add(a, b, RelationshipType::Contains);
    g.add(a, c, RelationshipType::ConnectedTo);
    assert_eq!(g.len(), 2);
    let neighbors = g.neighbors(a);
    assert_eq!(neighbors.len(), 2);
    assert!(neighbors.contains(&b));
    assert!(neighbors.contains(&c));
}

#[test]
fn relationship_graph_outgoing() {
    let mut g = RelationshipGraph::new();
    let wall = EntityId(10);
    let door = EntityId(11);
    g.add(wall, door, RelationshipType::Contains);
    let outgoing = g.outgoing_edges(wall);
    assert_eq!(outgoing.len(), 1);
    assert_eq!(outgoing[0].rel_type, RelationshipType::Contains);
}

#[test]
fn relationship_graph_remove() {
    let mut g = RelationshipGraph::new();
    let id = g.add(EntityId(1), EntityId(2), RelationshipType::Supports);
    assert_eq!(g.len(), 1);
    g.remove(id);
    assert_eq!(g.len(), 0);
}

#[test]
fn remove_updates_both_indexes() {
    let mut g = RelationshipGraph::new();
    let a = EntityId(1);
    let b = EntityId(2);
    let r1 = g.add(a, b, RelationshipType::Supports);
    let r2 = g.add(b, a, RelationshipType::Hosts);
    let r3 = g.add(a, b, RelationshipType::ConnectedTo);
    assert_eq!((r1, r2, r3), (1, 2, 3));
    let removed = g.remove(r1).unwrap();
    assert_eq!(removed.rel_type, RelationshipType::Supports);
    assert!(g.remove(r1).is_none());
    assert!(g.get(r1).is_none());
    assert_eq!(g.get(r2).unwrap().source, b);
    let out: Vec<u64> = g.outgoing_edges(a).iter().map(|r| r.id).collect();
    assert_eq!(out, vec![3]);
    let inc: Vec<u64> = g.incoming_edges(b).iter().map(|r| r.id).collect();
    assert_eq!(inc, vec![3]);
    let neighbors = g.neighbors(b);
    assert_eq!(neighbors, vec![a]);
    assert!(g.outgoing_edges(EntityId(99)).is_empty());
    assert_eq!(g.iter().len(), 2);
    assert!(!g.is_empty());
}

#[test]
fn relationship_labels() {
    assert_eq!(RelationshipType::ConnectedTo.label(), "connected_to");
    assert_eq!(RelationshipType::Contains.label(), "contains");
    assert_eq!(RelationshipType::Supports.label(), "supports");
    assert_eq!(RelationshipType::Hosts.label(), "hosts");
}
