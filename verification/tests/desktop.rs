use rebit::desktop::DesktopApp;

#[test]
fn app_creation() {
    assert_eq!(DesktopApp::new("Rebit").title, "Rebit");
}

#[test]
fn open_file_adds_to_recent() {
    let mut app = DesktopApp::new("Test");
    app.open_file("/models/project.rbt");
    assert_eq!(app.recent_files.len(), 1);
    assert_eq!(app.current_file.as_deref(), Some("/models/project.rbt"));
}

#[test]
fn modified_tracking() {
    let mut app = DesktopApp::new("Test");
    assert!(!app.has_unsaved_changes());
    app.mark_dirty();
    assert!(app.has_unsaved_changes());
    app.save();
    assert!(!app.has_unsaved_changes());
}

#[test]
fn recent_files_capped_at_ten_most_recent_first() {
    let mut app = DesktopApp::new("Test");
    for i in 0..12 {
        app.open_file(&format!("/m/{}.rbt", i));
    }
    assert_eq!(app.recent_files().len(), 10);
    assert_eq!(app.recent_files()[0], "/m/11.rbt");
    assert_eq!(app.recent_files()[9], "/m/2.rbt");
    app.open_file("/m/5.rbt");
    assert_eq!(app.recent_files()[0], "/m/11.rbt");
    assert_eq!(app.recent_files().len(), 10);
}

#[test]
fn close_file_clears_state() {
    let mut app = DesktopApp::new("Test");
    app.open_file("a.rbt");
    app.mark_dirty();
    app.close_file();
    assert!(app.current_file.is_none());
    assert!(!app.has_unsaved_changes());
    assert_eq!(app.recent_files().len(), 1);
}
