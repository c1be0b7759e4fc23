use libkicaddy::tools::{ToolKind, ToolRegistry};

#[test]
fn known_tools_are_found_by_name() {
    assert_eq!(ToolRegistry::tool_named("outline").unwrap(), ToolKind::Outline);
    assert_eq!(ToolRegistry::tool_named("write_yaml_schematic").unwrap(), ToolKind::WriteYamlSchematic);
    assert_eq!(ToolKind::GetNetlist.name(), "get_netlist");
}

#[test]
fn unknown_tool_is_reported_by_name() {
    let e = ToolRegistry::tool_named("frobnicate").unwrap_err();
    assert_eq!(e.to_string(), "Unknown tool: frobnicate");
}
