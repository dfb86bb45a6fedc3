use rebit::scene::SceneGraph;

/// A stand-in axis-aligned box given by two corners.
#[derive(Debug, Clone, Copy, PartialEq)]
struct BoundingBox {
    min: [f64; 3],
    max: [f64; 3],
}

impl BoundingBox {
    fn from_corners(a: [f64; 3], b: [f64; 3]) -> Self {
        BoundingBox {
            min: [a[0].min(b[0]), a[1].min(b[1]), a[2].min(b[2])],
            max: [a[0].max(b[0]), a[1].max(b[1]), a[2].max(b[2])],
        }
    }

    fn overlaps(&self, o: &Self, tol: f64) -> bool {
        (0..3).all(|i| self.max[i] + tol >= o.min[i] && o.max[i] + tol >= self.min[i])
    }
}

fn overlapping(sg: &SceneGraph<BoundingBox>, frustum: &BoundingBox) -> Vec<u64> {
    let mut ids = Vec::new();
    for id in 0..100u64 {
        if let Some(n) = sg.get(id) {
            if n.bounding_box.overlaps(frustum, 1e-6) {
                ids.push(id);
            }
        }
    }
    ids
}

#[test]
fn scene_graph_add_node() {
    let mut sg = SceneGraph::new();
    let bbox = BoundingBox::from_corners([0.0, 0.0, 0.0], [1.0, 1.0, 1.0]);
    let id = sg.add_node("root", bbox);
    assert_eq!(sg.len(), 1);
    assert!(!sg.is_empty());
    assert!(sg.get(id).is_some());
}

#[test]
fn scene_graph_hierarchy() {
    let mut sg = SceneGraph::new();
    let bbox = BoundingBox::from_corners([0.0, 0.0, 0.0], [10.0, 10.0, 10.0]);
    let root = sg.add_node("root", bbox);
    let child = sg
        .add_child("child", BoundingBox::from_corners([0.0, 0.0, 0.0], [1.0, 1.0, 1.0]), root)
        .unwrap();
    let children = sg.children(root);
    assert_eq!(children.len(), 1);
    assert_eq!(children[0].id, child);
}

#[test]
fn scene_graph_frustum_culling() {
    let mut sg = SceneGraph::new();
    sg.add_node("inside", BoundingBox::from_corners([0.0, 0.0, 0.0], [1.0, 1.0, 1.0]));
    sg.add_node("outside", BoundingBox::from_corners([10.0, 10.0, 10.0], [11.0, 11.0, 11.0]));
    let frustum = BoundingBox::from_corners([-5.0, -5.0, -5.0], [5.0, 5.0, 5.0]);
    let visible = sg.collect_visible(&overlapping(&sg, &frustum));
    assert_eq!(visible.len(), 1);
}

#[test]
fn parents_with_visible_children_are_not_drawn() {
    let mut sg = SceneGraph::new();
    let b = BoundingBox::from_corners([0.0, 0.0, 0.0], [1.0, 1.0, 1.0]);
    let root = sg.add_node("root", b);
    let c1 = sg.add_child("c1", b, root).unwrap();
    let c2 = sg.add_child("c2", b, root).unwrap();
    assert!(sg.add_child("orphan", b, 99).is_none());
    assert_eq!(sg.get(c1).unwrap().parent, Some(root));
    assert_eq!(sg.get(root).unwrap().children, vec![c1, c2]);
    let all = overlapping(&sg, &b);
    assert_eq!(sg.collect_visible(&all), vec![c1, c2]);
    assert!(sg.children(42).is_empty());
}
