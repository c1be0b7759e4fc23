//! Layout graph edges and layout defaults.

use vstd::prelude::*;

verus! {

/// An edge in the layout graph (represents a wire connection)
#[derive(Debug, Clone)]
pub struct LayoutEdge {
    /// Source node reference
    pub from_node: String,
    /// Source pin key
    pub from_pin: String,
    /// Target node reference
    pub to_node: String,
    /// Target pin key
    pub to_pin: String,
}

impl LayoutEdge {
    /// Create a new layout edge
    pub fn new(from_node: String, from_pin: String, to_node: String, to_pin: String) -> (r: Self)
        ensures
            r.from_node == from_node,
            r.from_pin == from_pin,
            r.to_node == to_node,
            r.to_pin == to_pin,
    {
        LayoutEdge { from_node, from_pin, to_node, to_pin }
    }
}

/// Default number of layout iterations.
pub fn default_iterations() -> (r: usize)
    ensures
        r == 200,
{
    200
}

} // verus!
