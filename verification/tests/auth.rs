use rebit::auth::{Role, SessionStore, UserIdentity};

fn user(id: &str, email: &str, roles: &[&str]) -> UserIdentity {
    UserIdentity {
        id: id.to_string(),
        email: email.to_string(),
        roles: roles.iter().map(|r| r.to_string()).collect(),
    }
}

#[test]
fn user_role_hierarchy() {
    let admin = user("u1", "admin@b.com", &["admin"]);
    assert!(admin.is_admin());
    assert!(admin.can_edit());
    assert_eq!(admin.highest_role(), Role::Admin);
}

#[test]
fn viewer_cannot_edit() {
    let viewer = user("u2", "viewer@b.com", &["viewer"]);
    assert!(!viewer.can_edit());
    assert_eq!(viewer.highest_role(), Role::Viewer);
}

#[test]
fn session_store_creates_token() {
    let mut store = SessionStore::new();
    let user = user("u1", "a@b.com", &["editor"]);
    let session = store.create_session(&user);
    assert!(session.token.starts_with("tok_"));
    assert_eq!(store.len(), 1);
}

#[test]
fn editor_can_edit_but_is_not_admin() {
    let editor = user("u3", "e@b.com", &["viewer", "editor"]);
    assert!(editor.can_edit());
    assert!(!editor.is_admin());
    assert_eq!(editor.highest_role(), Role::Editor);
    assert!(editor.has_role("viewer"));
    assert!(!editor.has_role("admin"));
}

#[test]
fn no_roles_means_viewer() {
    let nobody = user("u4", "n@b.com", &[]);
    assert_eq!(nobody.highest_role(), Role::Viewer);
    assert!(!nobody.can_edit());
}

#[test]
fn session_tokens_count_up() {
    let mut store = SessionStore::default();
    assert!(store.is_empty());
    let u = user("alice", "a@b.com", &[]);
    let t0 = store.create_session(&u).token.clone();
    let t1 = store.create_session(&u).token.clone();
    assert_eq!(t0, "tok_alice_0");
    assert_eq!(t1, "tok_alice_1");
    let s = store.get("tok_alice_1").unwrap();
    assert_eq!(s.user_id, "alice");
    assert_eq!(s.expires_at, 9999999999);
    assert!(s.refresh_token.is_none());
    assert!(store.get("tok_bob_0").is_none());
    assert_eq!(store.len(), 2);
}
