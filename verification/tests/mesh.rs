use rebit::mesh::{append_fan_indices, append_offset_indices, fan_triangles};

#[test]
fn triangulate_quad() {
    // A quad has four vertices and triangulates into two fan triangles.
    let tris = fan_triangles(4);
    assert_eq!(tris.len(), 2);
    assert_eq!(tris, vec![[0, 1, 2], [0, 2, 3]]);
}

#[test]
fn degenerate_polygons_have_no_triangles() {
    assert!(fan_triangles(0).is_empty());
    assert!(fan_triangles(2).is_empty());
    assert_eq!(fan_triangles(3), vec![[0, 1, 2]]);
}

#[test]
fn fan_indices_are_offset() {
    let mut idx = vec![9];
    append_fan_indices(&mut idx, 4, 4);
    assert_eq!(idx, vec![9, 4, 5, 6, 4, 6, 7]);
    append_fan_indices(&mut idx, 0, 2);
    assert_eq!(idx.len(), 7);
}

#[test]
fn merged_indices_are_shifted() {
    let mut dst = vec![0, 1, 2];
    append_offset_indices(&mut dst, &[0, 2, 3], 8);
    assert_eq!(dst, vec![0, 1, 2, 8, 10, 11]);
}
