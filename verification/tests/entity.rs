use rebit::entity::{Entity, EntityCategory, EntityGraph, EntityId};

/// A stand-in for the solid geometry an entity carries.
#[derive(Debug, Clone, PartialEq)]
struct BoxSolid {
    id: u64,
    w: f64,
    d: f64,
    h: f64,
}

#[derive(Debug, Clone, PartialEq)]
enum PropertyValue {
    String(String),
    Number(f64),
}

fn make_box_solid(id: u64, w: f64, d: f64, h: f64) -> BoxSolid {
    BoxSolid { id, w, d, h }
}

type Graph = EntityGraph<BoxSolid, PropertyValue>;

#[test]
fn entity_graph_insert_and_retrieve() {
    let mut graph = Graph::new();
    let solid = make_box_solid(0, 5.0, 0.3, 3.0);
    let id = graph.create(EntityCategory::Wall, "Wall-01", solid);
    let entity = graph.get(id).unwrap();
    assert_eq!(entity.category, EntityCategory::Wall);
    assert_eq!(entity.name, "Wall-01");
}

#[test]
fn entity_graph_by_category() {
    let mut graph = Graph::new();
    graph.create(EntityCategory::Wall, "W1", make_box_solid(0, 5.0, 0.3, 3.0));
    graph.create(EntityCategory::Wall, "W2", make_box_solid(1, 3.0, 0.3, 3.0));
    graph.create(EntityCategory::Door, "D1", make_box_solid(2, 1.0, 0.1, 2.1));
    let walls = graph.by_category(EntityCategory::Wall);
    assert_eq!(walls.len(), 2);
    let doors = graph.by_category(EntityCategory::Door);
    assert_eq!(doors.len(), 1);
}

#[test]
fn entity_properties() {
    let mut graph = Graph::new();
    let id = graph.create(EntityCategory::Slab, "Slab-01", make_box_solid(0, 10.0, 10.0, 0.2));
    let entity = graph.get_mut(id).unwrap();
    entity.properties.insert("material", PropertyValue::String("Concrete".into()));
    entity.properties.insert("thickness", PropertyValue::Number(0.2));
    assert_eq!(
        entity.properties.get("material"),
        Some(&PropertyValue::String("Concrete".into()))
    );
}

#[test]
fn entity_children() {
    let mut graph = Graph::new();
    let wall_id = graph.create(EntityCategory::Wall, "Wall-A", make_box_solid(0, 6.0, 0.3, 3.0));
    let mut window = Entity::new(
        EntityId(100),
        EntityCategory::Window,
        "Win-01",
        make_box_solid(100, 1.2, 0.1, 1.5),
    );
    window.parent = Some(wall_id);
    graph.insert(window);
    let children = graph.children(wall_id);
    assert_eq!(children.len(), 1);
    assert_eq!(children[0].category, EntityCategory::Window);
}

#[test]
fn insert_moves_next_id_past_inserted() {
    let mut graph = Graph::new();
    graph.insert(Entity::new(EntityId(7), EntityCategory::Beam, "B", make_box_solid(7, 1.0, 1.0, 1.0)));
    let id = graph.create(EntityCategory::Column, "C", make_box_solid(8, 1.0, 1.0, 1.0));
    assert_eq!(id, EntityId(8));
    graph.insert(Entity::new(EntityId(7), EntityCategory::Slab, "S", make_box_solid(7, 2.0, 2.0, 2.0)));
    assert_eq!(graph.len(), 2);
    assert_eq!(graph.get(EntityId(7)).unwrap().category, EntityCategory::Slab);
    let removed = graph.remove(EntityId(7)).unwrap();
    assert_eq!(removed.name, "S");
    assert!(graph.remove(EntityId(7)).is_none());
    assert!(graph.get(EntityId(7)).is_none());
    assert_eq!(graph.iter().len(), 1);
    assert!(!graph.is_empty());
}

#[test]
fn properties_replace_and_count() {
    let mut graph = Graph::new();
    let id = graph.create(EntityCategory::Door, "D", make_box_solid(0, 1.0, 1.0, 1.0));
    let e = graph.get_mut(id).unwrap();
    assert!(e.properties.is_empty());
    e.properties.insert("fire_rating", PropertyValue::Number(30.0));
    e.properties.insert("fire_rating", PropertyValue::Number(60.0));
    assert_eq!(e.properties.len(), 1);
    assert_eq!(e.properties.get("fire_rating"), Some(&PropertyValue::Number(60.0)));
    assert!(e.properties.get("colour").is_none());
    assert_eq!(e.properties.iter().len(), 1);
}

#[test]
fn entity_id_display() {
    assert_eq!(EntityId(42).to_string(), "E42");
    assert_eq!(EntityId(0).to_string(), "E0");
}
