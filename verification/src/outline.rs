//! Records produced by the schematic outline: nets with their scope and the
//! summary counts.

use vstd::prelude::*;

verus! {

/// Net label scope - determines the visibility/reach of a net
#[derive(Debug, Clone, Copy, PartialEq, Eq, Structural)]
pub enum NetLabelScope {
    /// Global scope - visible across all sheets (from global_label or power symbols)
    Global,
    /// Hierarchical scope - connects parent/child sheets (from hierarchical_label)
    Hierarchical,
    /// Local scope - only visible within current sheet (from label)
    Local,
}

impl Default for NetLabelScope {
    fn default() -> (r: Self)
        ensures
            r == NetLabelScope::Global,
    {
        NetLabelScope::Global
    }
}

/// Information about a net
#[derive(Debug, Clone)]
pub struct NetInfo {
    /// Net name
    pub name: String,
    /// Whether this is a global net (from global label) - kept for backward compatibility
    pub is_global: bool,
    /// Net label scope (Global, Hierarchical, or Local)
    pub scope: NetLabelScope,
    /// Connections in "REF:PIN" format
    pub connections: Vec<String>,
}

/// Summary statistics
#[derive(Debug, Clone, Copy, PartialEq, Eq, Structural)]
pub struct SchematicStats {
    pub component_count: usize,
    pub wire_count: usize,
    pub junction_count: usize,
    pub label_count: usize,
    pub global_label_count: usize,
    pub net_count: usize,
}

} // verus!
