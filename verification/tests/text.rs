use rebit::constraints::PointMapping;
use rebit::text::{str_eq, u64_to_decimal};

#[test]
fn decimal_rendering() {
    assert_eq!(u64_to_decimal(0), "0");
    assert_eq!(u64_to_decimal(7), "7");
    assert_eq!(u64_to_decimal(1234567890), "1234567890");
    assert_eq!(u64_to_decimal(u64::MAX), u64::MAX.to_string());
    assert!(str_eq("abc", "abc"));
    assert!(!str_eq("abc", "abd"));
}

#[test]
fn point_mapping_finds_first_variables() {
    let mut m = PointMapping::new();
    m.add_point(1, 1, 2, 3);
    m.add_point(2, 4, 5, 6);
    m.add_point(1, 7, 8, 9);
    assert_eq!(m.var_ids(1), (Some(1), Some(2), Some(3)));
    assert_eq!(m.var_ids(2), (Some(4), Some(5), Some(6)));
    assert_eq!(m.var_ids(3), (None, None, None));
    assert_eq!(m.x_vars.len(), 3);
}
