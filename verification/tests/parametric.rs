use rebit::parametric::ParametricModel;

/// A unit-bearing scalar as the geometry code keeps it.
#[derive(Debug, Clone, Copy, PartialEq)]
struct Scalar {
    value: f64,
}

fn scalar(value: f64) -> Scalar {
    Scalar { value }
}

#[test]
fn parametric_set_and_get() {
    let mut m = ParametricModel::new();
    m.set("Width", scalar(3.0));
    assert!((m.get("Width").unwrap().value - 3.0).abs() < 1e-9);
    assert!(!m.is_empty());
}

#[test]
fn parametric_missing_key() {
    let m: ParametricModel<Scalar> = ParametricModel::new();
    assert!(m.get("Nope").is_none());
    assert!(m.is_empty());
}

#[test]
fn parametric_set_replaces() {
    let mut m = ParametricModel::new();
    m.set("Height", 2u32);
    m.set("Depth", 5u32);
    m.set("Height", 7u32);
    assert_eq!(m.get("Height"), Some(7));
    assert_eq!(m.get("Depth"), Some(5));
    assert_eq!(m.len(), 2);
}
