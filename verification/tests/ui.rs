use rebit::ui::{Command, CommandRegistry, Tool, UndoStack};

#[test]
fn undo_redo() {
    let mut s = UndoStack::new();
    s.push("a");
    s.push("b");
    assert_eq!(s.undo(), Some("b"));
    assert_eq!(s.redo(), Some("b"));
}

#[test]
fn push_after_undo_discards_redo() {
    let mut s = UndoStack::new();
    assert_eq!(s.undo(), None);
    s.push("a");
    s.push("b");
    assert_eq!(s.undo(), Some("b"));
    assert!(s.can_redo());
    s.push("c");
    assert!(!s.can_redo());
    assert_eq!(s.len(), 2);
    assert_eq!(s.redo(), None);
    assert_eq!(s.undo(), Some("c"));
    assert_eq!(s.undo(), Some("a"));
    assert!(!s.can_undo());
    assert!(!s.is_empty());
}

#[test]
fn command_registry_replaces_by_id() {
    let mut reg = CommandRegistry::new();
    assert!(reg.is_empty());
    reg.register(Command { id: "save".into(), label: "Save".into(), shortcut: Some("Ctrl+S".into()) });
    reg.register(Command { id: "open".into(), label: "Open".into(), shortcut: None });
    reg.register(Command { id: "save".into(), label: "Save All".into(), shortcut: None });
    assert_eq!(reg.len(), 2);
    assert_eq!(reg.get("save").unwrap().label, "Save All");
    assert!(reg.get("quit").is_none());
}

#[test]
fn default_tool_is_none() {
    assert_eq!(Tool::default(), Tool::NoTool);
}

#[test]
fn registry_len_counts_distinct_ids() {
    let mut reg = CommandRegistry::new();
    let cmd = |id: &str, label: &str| Command { id: id.into(), label: label.into(), shortcut: None };
    reg.register(cmd("save", "Save"));
    reg.register(cmd("open", "Open"));
    assert_eq!(reg.len(), 2);
    reg.register(cmd("save", "Save all"));
    assert_eq!(reg.len(), 2);
    assert_eq!(reg.get("save").unwrap().label, "Save all");
    assert_eq!(reg.get("open").unwrap().label, "Open");
}
