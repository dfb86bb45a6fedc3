use rebit::plugins::{Plugin, PluginContext, PluginManifest, PluginRegistry, PluginState};

fn manifest(name: &str, min: u32, max: u32) -> PluginManifest {
    PluginManifest {
        name: name.into(),
        version: "1.0".into(),
        author: "dev".into(),
        min_sdk_version: min,
        max_sdk_version: max,
    }
}

#[test]
fn plugin_lifecycle() {
    let manifest = PluginManifest {
        name: "TestPlugin".into(),
        version: "1.0".into(),
        author: "dev".into(),
        min_sdk_version: 1,
        max_sdk_version: 3,
    };
    let mut plugin = Plugin::new(manifest);
    assert_eq!(plugin.state, PluginState::Unloaded);
    plugin.load();
    assert_eq!(plugin.state, PluginState::Loaded);
    plugin.initialize(&PluginContext::new());
    assert!(plugin.is_runnable());
}

#[test]
fn manifest_compatibility() {
    let manifest = PluginManifest {
        name: "P".into(),
        version: "1.0".into(),
        author: "a".into(),
        min_sdk_version: 2,
        max_sdk_version: 5,
    };
    assert!(!manifest.is_compatible(1));
    assert!(manifest.is_compatible(2));
    assert!(manifest.is_compatible(5));
    assert!(!manifest.is_compatible(6));
}

#[test]
fn registry_loads_only_compatible() {
    let mut reg = PluginRegistry::new();
    assert!(reg.is_empty());
    reg.register(Plugin::new(manifest("A", 1, 2)));
    reg.register(Plugin::new(manifest("B", 3, 4)));
    reg.load_all(2);
    assert_eq!(reg.get("A").unwrap().state, PluginState::Loaded);
    assert_eq!(reg.get("B").unwrap().state, PluginState::Unloaded);
    assert!(reg.get("C").is_none());
    assert_eq!(reg.len(), 2);
}

#[test]
fn run_and_unload() {
    let mut p = Plugin::new(manifest("A", 1, 1));
    assert!(!p.is_runnable());
    p.run();
    assert!(p.is_runnable());
    p.unload();
    assert_eq!(p.state, PluginState::Unloaded);
    assert_eq!(PluginContext::new().api_version, 1);
}
