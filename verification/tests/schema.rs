use rebit::schema::{CategoryDefinition, Schema, SchemaVersion};

#[test]
fn schema_version_display() {
    let v = SchemaVersion::new(1, 2, 3);
    assert_eq!(v.to_string(), "v1.2.3");
}

#[test]
fn schema_current_version_is_defined() {
    assert_eq!(SchemaVersion::current().major, 0);
    assert_eq!(SchemaVersion::current().minor, 1);
}

#[test]
fn default_schema_has_six_categories() {
    let schema = Schema::default();
    assert_eq!(schema.categories.len(), 6);
    assert_eq!(schema.categories[0].name, "Wall");
    assert_eq!(schema.categories[5].name, "Window");
}

#[test]
fn schema_register_category() {
    let mut schema = Schema::new("Test", "Test schema");
    assert!(schema.categories.is_empty());
    schema.register_category(CategoryDefinition {
        name: "TestCategory".into(),
        description: "A test".into(),
        has_geometry: false,
    });
    assert_eq!(schema.categories.len(), 1);
}

#[test]
fn schema_version_display_multi_digit() {
    assert_eq!(SchemaVersion::new(10, 0, 250).to_string(), "v10.0.250");
    assert_eq!(SchemaVersion::current().to_string(), "v0.1.0");
    assert!(SchemaVersion::new(0, 2, 0) > SchemaVersion::new(0, 1, 9));
}
