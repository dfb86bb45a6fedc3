//! IFC import/export results (metadata only for now).
use vstd::prelude::*;
use vstd::string::*;

use crate::entity::{Entity, EntityGraph};
use crate::text::strs;

verus! {

/// An IFC entity class.
#[derive(Debug, Clone, PartialEq, Eq)]
pub enum IfcClass {
    IfcWall,
    IfcSlab,
    IfcBeam,
    IfcColumn,
    IfcDoor,
    IfcWindow,
    IfcWallStandardCase,
    Unknown(String),
}

/// Result of an IFC import or export.
#[derive(Debug, Clone)]
pub struct IfcImportResult {
    pub entity_count: usize,
    pub warnings: Vec<String>,
    pub classes_found: Vec<IfcClass>,
    pub duration_ms: u64,
}

/// A result with no entities and one warning.
fn stub_result(warning: &str) -> (r: IfcImportResult)
    ensures
        r.entity_count == 0,
        strs(r.warnings@) == seq![warning@],
        r.classes_found@.len() == 0,
        r.duration_ms == 0,
{
    let mut warnings: Vec<String> = Vec::new();
    warnings.push(String::from_str(warning));
    assert(strs(warnings@) =~= seq![warning@]);
    IfcImportResult { entity_count: 0, warnings, classes_found: Vec::new(), duration_ms: 0 }
}

/// Import an IFC file into an entity graph: geometry parsing is not
/// implemented, so the graph is empty and a warning says so.
pub fn import_ifc<G, V>(_path: &str) -> (r: Result<(EntityGraph<G, V>, IfcImportResult), String>)
    ensures
        r matches Ok((g, res)) && g.wf() && g@ == Map::<u64, Entity<G, V>>::empty() && res.entity_count
            == 0 && strs(res.warnings@) == seq!["IFC geometry parsing not yet implemented (Phase C)"@]
            && res.classes_found@.len() == 0 && res.duration_ms == 0,
{
    let graph = EntityGraph::new();
    Ok((graph, stub_result("IFC geometry parsing not yet implemented (Phase C)")))
}

/// Export an entity graph to an IFC file: not implemented, so nothing is
/// written and a warning says so.
pub fn export_ifc<G, V>(_graph: &EntityGraph<G, V>, _path: &str) -> (r: Result<IfcImportResult, String>)
    ensures
        r matches Ok(res) && res.entity_count == 0 && strs(res.warnings@) == seq![
            "IFC export stub — not yet implemented (Phase C)"@,
        ] && res.classes_found@.len() == 0 && res.duration_ms == 0,
{
    Ok(stub_result("IFC export stub — not yet implemented (Phase C)"))
}

} // verus!
