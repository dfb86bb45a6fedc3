use rebit::ai::{AiWorkflowEngine, RuleCheck, SuggestionKind};
use rebit::entity::{EntityCategory, EntityGraph};

#[derive(Debug, Clone, PartialEq)]
struct BoxSolid {
    id: u64,
    w: f64,
    d: f64,
    h: f64,
}

fn make_box_solid(id: u64, w: f64, d: f64, h: f64) -> BoxSolid {
    BoxSolid { id, w, d, h }
}

type Graph = EntityGraph<BoxSolid, f64>;

#[test]
fn engine_returns_empty_for_empty_graph() {
    let engine = AiWorkflowEngine::new();
    let graph = Graph::new();
    let (suggestions, results) = engine.analyze(&graph);
    assert!(suggestions.is_empty());
    assert!(results.is_empty());
}

#[test]
fn engine_suggests_doors_for_walls_only() {
    let mut graph = Graph::new();
    graph.create(EntityCategory::Wall, "W1", make_box_solid(0, 5.0, 0.3, 3.0));
    let engine = AiWorkflowEngine::new();
    let (suggestions, _) = engine.analyze(&graph);
    assert!(!suggestions.is_empty());
    assert!(suggestions.iter().any(|s| s.description().contains("doors")));
}

#[test]
fn rule_checks_are_executed() {
    let mut graph = Graph::new();
    graph.create(EntityCategory::Wall, "W1", make_box_solid(0, 5.0, 0.3, 3.0));
    graph.create(EntityCategory::Door, "D1", make_box_solid(1, 1.0, 0.1, 2.1));
    let engine = AiWorkflowEngine::new();
    let results = engine.run_checks(&graph);
    assert_eq!(results.len(), 2);
    assert!(results.iter().all(|r| r.passed));
}

#[test]
fn default_rules_registered() {
    let engine = AiWorkflowEngine::new();
    assert_eq!(engine.rule_count(), 3);
}

#[test]
fn windows_suggested_when_doors_present() {
    let mut graph = Graph::new();
    graph.create(EntityCategory::Wall, "W1", make_box_solid(0, 5.0, 0.3, 3.0));
    graph.create(EntityCategory::Door, "D1", make_box_solid(1, 1.0, 0.1, 2.1));
    let engine = AiWorkflowEngine::new();
    let (suggestions, results) = engine.analyze(&graph);
    assert_eq!(suggestions, vec![SuggestionKind::AddWindows]);
    assert_eq!(suggestions[0].category(), EntityCategory::Window);
    assert_eq!(results[0].rule_id, 1);
    assert_eq!(results[0].message, "Wall thickness check: passed");
    assert_eq!(results[1].message, "Door clearance check: passed");
    graph.create(EntityCategory::Window, "Win", make_box_solid(2, 1.0, 0.1, 1.0));
    let (suggestions, results) = engine.analyze(&graph);
    assert!(suggestions.is_empty());
    assert_eq!(results.len(), 3);
}

#[test]
fn registered_rule_runs_per_matching_entity() {
    let mut engine = AiWorkflowEngine::default();
    assert_eq!(engine.rule_count(), 0);
    engine.register_rule(RuleCheck {
        id: 9,
        name: "Beam span".into(),
        description: "Beams must not span too far".into(),
        applies_to: EntityCategory::Beam,
    });
    let mut graph = Graph::new();
    graph.create(EntityCategory::Beam, "B1", make_box_solid(0, 1.0, 1.0, 1.0));
    graph.create(EntityCategory::Slab, "S1", make_box_solid(1, 1.0, 1.0, 1.0));
    graph.create(EntityCategory::Beam, "B2", make_box_solid(2, 1.0, 1.0, 1.0));
    let results = engine.run_checks(&graph);
    assert_eq!(results.len(), 2);
    assert!(results.iter().all(|r| r.rule_id == 9 && r.message == "Beam span: passed"));
}

#[test]
fn default_rules_give_one_result_per_matching_entity() {
    let mut graph = Graph::new();
    graph.create(EntityCategory::Wall, "W1", make_box_solid(0, 5.0, 0.3, 3.0));
    graph.create(EntityCategory::Wall, "W2", make_box_solid(6, 5.0, 0.3, 3.0));
    graph.create(EntityCategory::Door, "D1", make_box_solid(12, 1.0, 0.1, 2.0));
    graph.create(EntityCategory::Slab, "S1", make_box_solid(18, 5.0, 4.0, 0.2));
    let engine = AiWorkflowEngine::new();
    let results = engine.run_checks(&graph);
    assert_eq!(results.iter().filter(|r| r.rule_id == 1).count(), 2);
    assert_eq!(results.iter().filter(|r| r.rule_id == 2).count(), 1);
    assert_eq!(results.iter().filter(|r| r.rule_id == 3).count(), 0);
    assert_eq!(results.len(), 3);
    assert!(results.iter().all(|r| r.passed));
}

#[test]
fn registering_a_rule_adds_results_for_its_category() {
    let mut graph = Graph::new();
    graph.create(EntityCategory::Slab, "S1", make_box_solid(0, 5.0, 4.0, 0.2));
    graph.create(EntityCategory::Slab, "S2", make_box_solid(6, 5.0, 4.0, 0.2));
    graph.create(EntityCategory::Wall, "W1", make_box_solid(12, 5.0, 0.3, 3.0));
    let mut engine = AiWorkflowEngine::new();
    let before = engine.run_checks(&graph).len();
    engine.register_rule(RuleCheck {
        id: 9,
        name: "Slab depth".into(),
        description: "Slabs must be deep enough".into(),
        applies_to: EntityCategory::Slab,
    });
    assert_eq!(engine.rule_count(), 4);
    assert_eq!(engine.run_checks(&graph).len(), before + 2);
}
