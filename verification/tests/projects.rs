use rebit::auth::UserIdentity;
use rebit::projects::{Project, ProjectService};

fn admin() -> UserIdentity {
    UserIdentity {
        id: "u1".into(),
        email: "a@b.com".into(),
        roles: vec!["admin".into()],
    }
}

fn guest() -> UserIdentity {
    UserIdentity {
        id: "u2".into(),
        email: "c@d.com".into(),
        roles: vec!["viewer".into()],
    }
}

#[test]
fn create_and_access() {
    let mut svc = ProjectService::new();
    let pid = svc.create("Project A", &admin());
    assert_eq!(svc.len(), 1);
    assert!(svc.can_access(&pid, &admin()));
}

#[test]
fn project_versioning() {
    let mut proj = Project {
        id: "p1".into(),
        name: "Test".into(),
        owner: "u1".into(),
        versions: vec![],
        collaborators: vec![],
    };
    proj.add_version("v0.1", 100, "Initial");
    proj.add_version("v0.2", 120, "Updated");
    assert_eq!(proj.versions.len(), 2);
    assert_eq!(proj.latest_version().unwrap().label, "v0.2");
}

#[test]
fn access_control() {
    let mut svc = ProjectService::new();
    let pid = svc.create("Secret", &admin());
    assert!(svc.can_access(&pid, &admin()));
    assert!(!svc.can_access(&pid, &guest()));
    svc.add_collaborator(&pid, "u2");
    assert!(svc.can_access(&pid, &guest()));
}

#[test]
fn project_ids_and_owners() {
    let mut svc = ProjectService::default();
    assert!(svc.is_empty());
    let a = svc.create("A", &admin());
    let b = svc.create("B", &guest());
    assert_eq!(a, "p1");
    assert_eq!(b, "p2");
    assert_eq!(svc.get("p2").unwrap().name, "B");
    assert!(svc.get("p3").is_none());
    let owned = svc.by_owner("u1");
    assert_eq!(owned.len(), 1);
    assert_eq!(owned[0].id, "p1");
    assert_eq!(svc.get("p1").unwrap().collaborators, vec!["u1".to_string()]);
}

#[test]
fn add_collaborator_is_idempotent() {
    let mut svc = ProjectService::new();
    let pid = svc.create("A", &admin());
    svc.add_collaborator(&pid, "u2");
    svc.add_collaborator(&pid, "u2");
    assert_eq!(svc.get(&pid).unwrap().collaborators.len(), 2);
    svc.add_collaborator("missing", "u2");
    assert!(!svc.can_access("missing", &guest()));
    let v = svc.get_mut(&pid).unwrap();
    v.add_version("v1", 3, "first");
    assert_eq!(svc.get(&pid).unwrap().latest_version().unwrap().id, 1);
}

#[test]
fn latest_version_of_empty_project() {
    let proj = Project {
        id: "p9".into(),
        name: "Empty".into(),
        owner: "u1".into(),
        versions: vec![],
        collaborators: vec![],
    };
    assert!(proj.latest_version().is_none());
}

#[test]
fn adding_collaborators_keeps_earlier_access() {
    let mut svc = ProjectService::new();
    let a = svc.create("A", &admin());
    let b = svc.create("B", &admin());
    svc.add_collaborator(&a, "u2");
    svc.add_collaborator(&a, "u2");
    svc.add_collaborator("missing", "u2");
    assert!(svc.can_access(&a, &admin()));
    assert!(svc.can_access(&a, &guest()));
    assert!(svc.can_access(&b, &admin()));
    assert!(!svc.can_access(&b, &guest()));
    assert!(!svc.can_access("missing", &guest()));
}

#[test]
fn collaborator_listed_once() {
    let mut svc = ProjectService::new();
    let a = svc.create("A", &admin());
    svc.add_collaborator(&a, "u2");
    svc.add_collaborator(&a, "u2");
    let p = svc.get(&a).unwrap();
    assert_eq!(p.collaborators.iter().filter(|c| c.as_str() == "u2").count(), 1);
    assert_eq!(p.collaborators.len(), 2);
}
