use rebit::dwg::{export_dwg, import_dwg};
use rebit::entity::EntityGraph;
use rebit::ifc::{export_ifc, import_ifc};

#[test]
fn dwg_import_stub() {
    let r = import_dwg("t.dwg").unwrap();
    assert!(r.layers.contains(&"0".to_string()));
    assert!(r.layers.contains(&"A-WALL".to_string()));
}

#[test]
fn import_stub_returns_empty_graph() {
    let (graph, result) = import_ifc::<(), ()>("test.ifc").unwrap();
    assert_eq!(result.entity_count, 0);
    assert!(graph.is_empty());
    assert!(!result.warnings.is_empty());
}

#[test]
fn exports_write_nothing() {
    let r = export_dwg("out.dwg").unwrap();
    assert_eq!(r.entity_count, 0);
    assert!(r.layers.is_empty());
    let g: EntityGraph<(), ()> = EntityGraph::new();
    let r = export_ifc(&g, "out.ifc").unwrap();
    assert_eq!(r.warnings, vec!["IFC export stub — not yet implemented (Phase C)".to_string()]);
}
