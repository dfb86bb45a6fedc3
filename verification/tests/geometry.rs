use rebit::geometry::{
    check_edge_pairing, combine_point_key, face_action, face_side_from, keep_piece, FaceAction,
    FaceSide, IdGenerator, PointLocation, ValidationResult,
};

#[test]
fn face_side_counts() {
    let (i, o, b) = (PointLocation::Inside, PointLocation::Outside, PointLocation::OnBoundary);
    assert_eq!(face_side_from(&vec![i, i, b]), FaceSide::Inside);
    assert_eq!(face_side_from(&vec![o, b]), FaceSide::Outside);
    assert_eq!(face_side_from(&vec![i, o]), FaceSide::Straddling);
    assert_eq!(face_side_from(&vec![b]), FaceSide::On);
    assert_eq!(face_side_from(&vec![]), FaceSide::On);
}

#[test]
fn id_generator_continues_past_face_ids() {
    let mut g = IdGenerator::new(&[0, 5, 3, 1]);
    assert_eq!(g.next_face(), 6);
    assert_eq!(g.next_face(), 7);
    assert_eq!(g.next_edge(), 10000);
    assert_eq!(g.next_vert(), 20000);
    assert_eq!(g.next_vert(), 20001);
    let mut e = IdGenerator::new(&[]);
    assert_eq!(e.next_face(), 1);
}

#[test]
fn point_key_wraps() {
    assert_eq!(combine_point_key(1, 2, 3), 1_000_003 + 2 * 1_000_009 + 3 * 1_000_013);
    let big = u64::MAX;
    let expected = big
        .wrapping_mul(1_000_003)
        .wrapping_add(big.wrapping_mul(1_000_009))
        .wrapping_add(big.wrapping_mul(1_000_013));
    assert_eq!(combine_point_key(big, big, big), expected);
}

#[test]
fn closed_square_pairs_every_edge() {
    // Two triangles sharing a diagonal, each edge listed once per use, in
    // both directions.
    let edges = vec![(1, 2), (2, 3), (3, 1), (3, 2), (2, 1), (1, 3)];
    let mut r = ValidationResult::new();
    check_edge_pairing(&edges, &mut r);
    assert!(r.valid);
    assert!(r.issues.is_empty());
    assert!(r.warnings.is_empty());
}

#[test]
fn open_and_non_manifold_edges_reported() {
    let edges = vec![(7, 4), (4, 7), (7, 4), (9, 1)];
    let mut r = ValidationResult::new();
    check_edge_pairing(&edges, &mut r);
    assert!(!r.valid);
    assert_eq!(r.warnings, vec!["edge (4,7) appears 3 times (non-manifold)".to_string()]);
    assert_eq!(
        r.issues,
        vec!["edge (1,9) appears only once — shell is not watertight".to_string()]
    );
}

#[test]
fn validation_result_records() {
    let mut r = ValidationResult::default();
    r.add_warning("w");
    assert!(r.valid);
    r.add_issue("i");
    assert!(!r.valid);
    assert_eq!(r.issues, vec!["i".to_string()]);
    assert_eq!(r.warnings, vec!["w".to_string()]);
}

#[test]
fn boolean_face_actions() {
    assert_eq!(face_action(FaceSide::Outside, true), FaceAction::Keep);
    assert_eq!(face_action(FaceSide::Inside, true), FaceAction::Drop);
    assert_eq!(face_action(FaceSide::Outside, false), FaceAction::Drop);
    assert_eq!(face_action(FaceSide::Inside, false), FaceAction::Keep);
    assert_eq!(face_action(FaceSide::Straddling, true), FaceAction::Split);
    assert_eq!(face_action(FaceSide::Straddling, false), FaceAction::Split);
    assert_eq!(face_action(FaceSide::On, true), FaceAction::Drop);
    assert_eq!(face_action(FaceSide::On, false), FaceAction::Drop);
}

#[test]
fn split_pieces_kept_by_side() {
    assert!(keep_piece(FaceSide::Outside, true));
    assert!(!keep_piece(FaceSide::Outside, false));
    assert!(keep_piece(FaceSide::Inside, false));
    assert!(!keep_piece(FaceSide::Inside, true));
    assert!(keep_piece(FaceSide::On, true));
    assert!(keep_piece(FaceSide::On, false));
    assert!(!keep_piece(FaceSide::Straddling, true));
}
