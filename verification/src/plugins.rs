//! Plugin SDK: manifests, plugin lifecycle and the plugin registry.
use vstd::prelude::*;

use crate::text::str_eq;

verus! {

/// Plugin manifest: name, version, author and the range of SDK versions
/// the plugin supports.
#[derive(Debug, Clone, PartialEq, Eq)]
pub struct PluginManifest {
    pub name: String,
    pub version: String,
    pub author: String,
    pub min_sdk_version: u32,
    pub max_sdk_version: u32,
}

/// Whether `sdk_version` lies in the manifest's supported range.
pub open spec fn compatible(m: PluginManifest, sdk_version: u32) -> bool {
    m.min_sdk_version <= sdk_version && sdk_version <= m.max_sdk_version
}

impl PluginManifest {
    /// Whether `sdk_version` lies in `[min_sdk_version, max_sdk_version]`.
    pub fn is_compatible(&self, sdk_version: u32) -> (ok: bool)
        ensures
            ok == compatible(*self, sdk_version),
    {
        sdk_version >= self.min_sdk_version && sdk_version <= self.max_sdk_version
    }
}

/// Plugin lifecycle state.
#[derive(Debug, Clone, Copy, PartialEq, Eq, Structural)]
pub enum PluginState {
    Unloaded,
    Loaded,
    Initialized,
    Running,
    Error,
}

/// The API version plugins get by default.
pub const PLUGIN_API_VERSION: u32 = 1;

/// Context handed to plugins at runtime.
#[derive(Debug, Clone)]
pub struct PluginContext {
    pub api_version: u32,
}

impl Default for PluginContext {
    fn default() -> (c: Self)
        ensures
            c.api_version == PLUGIN_API_VERSION,
    {
        PluginContext { api_version: PLUGIN_API_VERSION }
    }
}

impl PluginContext {
    /// The default context.
    pub fn new() -> (c: Self)
        ensures
            c.api_version == PLUGIN_API_VERSION,
    {
        PluginContext::default()
    }
}

/// A plugin instance.
#[derive(Debug, Clone)]
pub struct Plugin {
    pub manifest: PluginManifest,
    pub state: PluginState,
}

impl Plugin {
    /// A plugin in the unloaded state.
    pub fn new(manifest: PluginManifest) -> (p: Self)
        ensures
            p.manifest == manifest,
            p.state == PluginState::Unloaded,
    {
        Plugin { manifest, state: PluginState::Unloaded }
    }

    /// Load the plugin.
    pub fn load(&mut self)
        ensures
            final(self).state == PluginState::Loaded,
            final(self).manifest == old(self).manifest,
    {
        self.state = PluginState::Loaded;
    }

    /// Initialize the plugin with a context.
    pub fn initialize(&mut self, _ctx: &PluginContext)
        ensures
            final(self).state == PluginState::Initialized,
            final(self).manifest == old(self).manifest,
    {
        self.state = PluginState::Initialized;
    }

    /// Run the plugin.
    pub fn run(&mut self)
        ensures
            final(self).state == PluginState::Running,
            final(self).manifest == old(self).manifest,
    {
        self.state = PluginState::Running;
    }

    /// Unload the plugin.
    pub fn unload(&mut self)
        ensures
            final(self).state == PluginState::Unloaded,
            final(self).manifest == old(self).manifest,
    {
        self.state = PluginState::Unloaded;
    }

    /// Whether the plugin is initialized or running.
    pub fn is_runnable(&self) -> (b: bool)
        ensures
            b == (self.state == PluginState::Initialized || self.state == PluginState::Running),
    {
        match self.state {
            PluginState::Initialized | PluginState::Running => true,
            _ => false,
        }
    }
}

/// The first plugin named `name` is at `k`.
pub open spec fn is_first_named(ps: Seq<Plugin>, name: Seq<char>, k: int) -> bool {
    &&& 0 <= k < ps.len()
    &&& ps[k].manifest.name@ == name
    &&& forall|i: int| 0 <= i < k ==> (#[trigger] ps[i]).manifest.name@ != name
}

/// The registry of installed plugins.
#[derive(Debug)]
pub struct PluginRegistry {
    plugins: Vec<Plugin>,
}

impl View for PluginRegistry {
    type V = Seq<Plugin>;

    closed spec fn view(&self) -> Seq<Plugin> {
        self.plugins@
    }
}

impl Default for PluginRegistry {
    fn default() -> (r: Self)
        ensures
            r@ == Seq::<Plugin>::empty(),
    {
        PluginRegistry::new()
    }
}

impl PluginRegistry {
    /// An empty registry.
    pub fn new() -> (r: Self)
        ensures
            r@ == Seq::<Plugin>::empty(),
    {
        PluginRegistry { plugins: Vec::new() }
    }

    /// Register a plugin.
    pub fn register(&mut self, plugin: Plugin)
        ensures
            final(self)@ == old(self)@.push(plugin),
    {
        self.plugins.push(plugin);
    }

    /// The first plugin named `name`.
    pub fn get(&self, name: &str) -> (r: Option<&Plugin>)
        ensures
            match r {
                Some(p) => exists|k: int| is_first_named(self@, name@, k) && *p == self@[k],
                None => forall|i: int| 0 <= i < self@.len() ==> (#[trigger] self@[i]).manifest.name@ != name@,
            },
    {
        let mut i: usize = 0;
        while i < self.plugins.len()
            invariant
                i <= self.plugins@.len(),
                forall|m: int| 0 <= m < i ==> (#[trigger] self.plugins@[m]).manifest.name@ != name@,
            decreases self.plugins@.len() - i,
        {
            if str_eq(self.plugins[i].manifest.name.as_str(), name) {
                assert(is_first_named(self@, name@, i as int));
                return Some(&self.plugins[i]);
            }
            i = i + 1;
        }
        None
    }

    /// Load every plugin compatible with `sdk_version`; the others are left
    /// as they were.
    pub fn load_all(&mut self, sdk_version: u32)
        ensures
            final(self)@.len() == old(self)@.len(),
            forall|i: int|
                0 <= i < old(self)@.len() ==> #[trigger] final(self)@[i] == if compatible(
                    old(self)@[i].manifest,
                    sdk_version,
                ) {
                    Plugin { state: PluginState::Loaded, ..old(self)@[i] }
                } else {
                    old(self)@[i]
                },
    {
        let mut i: usize = 0;
        while i < self.plugins.len()
            invariant
                i <= self.plugins@.len(),
                self.plugins@.len() == old(self).plugins@.len(),
                forall|j: int|
                    0 <= j < i ==> #[trigger] self.plugins@[j] == if compatible(
                        old(self).plugins@[j].manifest,
                        sdk_version,
                    ) {
                        Plugin { state: PluginState::Loaded, ..old(self).plugins@[j] }
                    } else {
                        old(self).plugins@[j]
                    },
                forall|j: int| i <= j < self.plugins@.len() ==> #[trigger] self.plugins@[j] == old(self).plugins@[j],
            decreases self.plugins@.len() - i,
        {
            if self.plugins[i].manifest.is_compatible(sdk_version) {
                self.plugins[i].load();
            }
            i = i + 1;
        }
    }

    /// Number of plugins.
    pub fn len(&self) -> (n: usize)
        ensures
            n == self@.len(),
    {
        self.plugins.len()
    }

    /// Whether no plugin is registered.
    pub fn is_empty(&self) -> (b: bool)
        ensures
            b == (self@.len() == 0),
    {
        self.plugins.len() == 0
    }
}

} // verus!
