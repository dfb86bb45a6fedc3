//! BIM schema: versioned metadata and the category registry.
use vstd::prelude::*;
use vstd::string::*;

use crate::text::{decimal, u64_to_decimal};

verus! {

/// A schema version following SemVer.
#[derive(Debug, Clone, Copy, PartialEq, Eq, Structural, PartialOrd, Ord, Hash)]
pub struct SchemaVersion {
    /// Major version: backwards-incompatible changes.
    pub major: u32,
    /// Minor version: backwards-compatible additions.
    pub minor: u32,
    /// Patch version: backwards-compatible fixes.
    pub patch: u32,
}

impl SchemaVersion {
    /// The current schema version: 0.1.0.
    pub open spec fn spec_current() -> SchemaVersion {
        SchemaVersion { major: 0, minor: 1, patch: 0 }
    }

    /// The current schema version: 0.1.0.
    #[verifier::when_used_as_spec(spec_current)]
    pub fn current() -> (v: SchemaVersion)
        ensures
            v == Self::spec_current(),
    {
        SchemaVersion { major: 0, minor: 1, patch: 0 }
    }

    /// Create a schema version.
    pub fn new(major: u32, minor: u32, patch: u32) -> (v: Self)
        ensures
            v == (SchemaVersion { major, minor, patch }),
    {
        SchemaVersion { major, minor, patch }
    }

    /// Display form `v<major>.<minor>.<patch>`.
    pub open spec fn spec_display(self) -> Seq<char> {
        "v"@ + decimal(self.major as nat) + "."@ + decimal(self.minor as nat) + "."@ + decimal(
            self.patch as nat,
        )
    }

    /// Display form `v<major>.<minor>.<patch>`.
    pub fn to_string(&self) -> (s: String)
        ensures
            s@ == self.spec_display(),
    {
        let mut s = String::from_str("v");
        let a = u64_to_decimal(self.major as u64);
        s.append(a.as_str());
        s.append(".");
        let b = u64_to_decimal(self.minor as u64);
        s.append(b.as_str());
        s.append(".");
        let c = u64_to_decimal(self.patch as u64);
        s.append(c.as_str());
        s
    }
}

/// Metadata for one entity category of the schema.
#[derive(Debug, Clone, PartialEq, Eq)]
pub struct CategoryDefinition {
    /// Category name.
    pub name: String,
    /// Human-readable description.
    pub description: String,
    /// Whether entities of this category carry geometry.
    pub has_geometry: bool,
}

/// The BIM schema: metadata about the model format and its categories.
#[derive(Debug, Clone)]
pub struct Schema {
    /// Schema version.
    pub version: SchemaVersion,
    /// Name of the schema.
    pub name: String,
    /// Purpose of the schema.
    pub description: String,
    /// Categories defined in this schema.
    pub categories: Vec<CategoryDefinition>,
}

/// A category definition with geometry.
fn geometric_category(name: &str, description: &str) -> (c: CategoryDefinition)
    ensures
        c.name@ == name@,
        c.description@ == description@,
        c.has_geometry,
{
    CategoryDefinition {
        name: String::from_str(name),
        description: String::from_str(description),
        has_geometry: true,
    }
}

/// The names of the default schema's categories, in order.
pub open spec fn default_category_names() -> Seq<Seq<char>> {
    seq!["Wall"@, "Slab"@, "Beam"@, "Column"@, "Door"@, "Window"@]
}

impl Default for Schema {
    /// The core schema with the six architectural categories.
    fn default() -> (s: Self)
        ensures
            s.version == SchemaVersion::spec_current(),
            s.name@ == "Rebit Core Schema"@,
            s.description@ == "Phase A BIM data model for architectural elements"@,
            s.categories@.map_values(|c: CategoryDefinition| c.name@) == default_category_names(),
            forall|i: int| 0 <= i < s.categories@.len() ==> (#[trigger] s.categories@[i]).has_geometry,
    {
        let mut schema = Schema::new("Rebit Core Schema", "Phase A BIM data model for architectural elements");
        schema.register_category(
            geometric_category("Wall", "A vertical planar element that defines and separates spaces"),
        );
        schema.register_category(geometric_category("Slab", "A horizontal planar element (floor or roof)"));
        schema.register_category(geometric_category("Beam", "A horizontal or sloped structural member"));
        schema.register_category(geometric_category("Column", "A vertical structural member"));
        schema.register_category(geometric_category("Door", "An opening element for access"));
        schema.register_category(
            geometric_category("Window", "An opening element for light and ventilation"),
        );
        assert(schema.categories@.map_values(|c: CategoryDefinition| c.name@) =~= default_category_names());
        schema
    }
}

impl Schema {
    /// A schema at the current version with no categories.
    pub fn new(name: &str, description: &str) -> (s: Self)
        ensures
            s.version == SchemaVersion::spec_current(),
            s.name@ == name@,
            s.description@ == description@,
            s.categories@ == Seq::<CategoryDefinition>::empty(),
    {
        Schema {
            version: SchemaVersion::current(),
            name: String::from_str(name),
            description: String::from_str(description),
            categories: Vec::new(),
        }
    }

    /// Register a category definition.
    pub fn register_category(&mut self, category: CategoryDefinition)
        ensures
            final(self).categories@ == old(self).categories@.push(category),
            final(self).version == old(self).version,
            final(self).name == old(self).name,
            final(self).description == old(self).description,
    {
        self.categories.push(category);
    }
}

} // verus!
