use rebit::collaboration::{CollaborationSession, ReviewState};

#[test]
fn add_comment() {
    let mut session = CollaborationSession::new();
    session.add_comment("u1", "Great work");
    assert_eq!(session.comment_count(), 1);
}

#[test]
fn threaded_reply() {
    let mut session = CollaborationSession::new();
    let root = session.add_comment("u1", "Check this area");
    let _reply = session.reply_to(root, "u2", "Fixed in v2").unwrap();
    assert_eq!(session.comment_count(), 2);
    assert_eq!(session.unresolved_count(), 2);
    session.resolve_thread(root);
    assert_eq!(session.unresolved_count(), 0);
}

#[test]
fn review_states() {
    let mut session = CollaborationSession::new();
    assert_eq!(session.review_state(), ReviewState::Draft);
    session.set_review_state(ReviewState::InReview);
    assert_eq!(session.review_state(), ReviewState::InReview);
}

#[test]
fn reply_to_missing_comment_is_refused() {
    let mut session = CollaborationSession::new();
    assert_eq!(session.reply_to(42, "u2", "hello"), None);
    assert_eq!(session.comment_count(), 0);
    let a = session.add_comment("u1", "first");
    assert_eq!(a, 1);
}

#[test]
fn resolve_only_touches_the_thread() {
    let mut session = CollaborationSession::new();
    let a = session.add_comment("u1", "A");
    let b = session.add_comment("u1", "B");
    session.reply_to(b, "u2", "re B").unwrap();
    session.resolve_thread(a);
    assert_eq!(session.unresolved_count(), 2);
    let tops = session.top_level_comments();
    assert_eq!(tops.len(), 2);
    assert_eq!(tops[0].id, a);
    assert!(tops[0].resolved);
    assert!(!tops[1].resolved);
}

#[test]
fn review_state_labels() {
    assert_eq!(ReviewState::Draft.label(), "draft");
    assert_eq!(ReviewState::InReview.label(), "in_review");
    assert_eq!(ReviewState::Approved.label(), "approved");
    assert_eq!(ReviewState::Rejected.label(), "rejected");
    assert_eq!(ReviewState::default(), ReviewState::Draft);
}

#[test]
fn resolve_reaches_replies_of_replies() {
    let mut s = CollaborationSession::new();
    let root = s.add_comment("u1", "Check this area");
    let r1 = s.reply_to(root, "u2", "Fixed in v2").unwrap();
    s.reply_to(r1, "u3", "Confirmed").unwrap();
    let other = s.add_comment("u4", "Unrelated");
    s.reply_to(other, "u5", "Noted").unwrap();
    s.resolve_thread(root);
    assert_eq!(s.comment_count(), 5);
    assert_eq!(s.unresolved_count(), 2);
    s.resolve_thread(other);
    assert_eq!(s.unresolved_count(), 0);
}
