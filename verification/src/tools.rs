//! Inputs and outputs of the stateless schematic tools, and their errors.
//!
//! Each tool reads a schematic file, runs a command on it and writes it back;
//! the file handling lives with the caller, these are the records exchanged.

use vstd::prelude::*;

use crate::config::KicadConfig;
use crate::text::str_eq;

verus! {

/// Errors that can occur during tool execution
#[derive(Debug, Clone)]
pub enum ToolError {
    ReadError(String),
    WriteError(String),
    SymbolNotFound(String),
    ComponentNotFound(String),
    PinNotFound { reference: String, pin: String },
    InvalidInput(String),
    LookupError(String),
    ConfigError(String),
    CommandError(String),
    Other(String),
}

impl ToolError {
    /// The message shown for this error.
    pub open spec fn message_spec(&self) -> Seq<char> {
        match self {
            ToolError::ReadError(s) => "Failed to read schematic: "@ + s@,
            ToolError::WriteError(s) => "Failed to write schematic: "@ + s@,
            ToolError::SymbolNotFound(s) => "Symbol not found: "@ + s@,
            ToolError::ComponentNotFound(s) => "Component not found: "@ + s@,
            ToolError::PinNotFound { reference, pin } => "Pin not found: "@ + reference@ + ":"@
                + pin@,
            ToolError::InvalidInput(s) => "Invalid input: "@ + s@,
            ToolError::LookupError(s) => "Library lookup failed: "@ + s@,
            ToolError::ConfigError(s) => "Configuration error: "@ + s@,
            ToolError::CommandError(s) => "Command error: "@ + s@,
            ToolError::Other(s) => s@,
        }
    }

    /// The message shown for this error.
    pub fn to_string(&self) -> (r: String)
        ensures
            r@ == self.message_spec(),
    {
        let (prefix, body): (&str, &String) = match self {
            ToolError::ReadError(s) => ("Failed to read schematic: ", s),
            ToolError::WriteError(s) => ("Failed to write schematic: ", s),
            ToolError::SymbolNotFound(s) => ("Symbol not found: ", s),
            ToolError::ComponentNotFound(s) => ("Component not found: ", s),
            ToolError::PinNotFound { reference, pin } => {
                let mut r = String::from_str("Pin not found: ");
                r.append(reference.as_str());
                r.append(":");
                r.append(pin.as_str());
                return r;
            },
            ToolError::InvalidInput(s) => ("Invalid input: ", s),
            ToolError::LookupError(s) => ("Library lookup failed: ", s),
            ToolError::ConfigError(s) => ("Configuration error: ", s),
            ToolError::CommandError(s) => ("Command error: ", s),
            ToolError::Other(s) => {
                return s.clone();
            },
        };
        let mut r = String::from_str(prefix);
        r.append(body.as_str());
        r
    }
}

/// Registry of all available tools
pub struct ToolRegistry;

/// The tools the registry runs, one per name.
#[derive(Debug, Clone, Copy, PartialEq, Eq, Structural)]
pub enum ToolKind {
    Outline,
    UpdateComponent,
    PlaceComponent,
    DeleteComponent,
    AddWire,
    DeleteWire,
    AddLabel,
    DeleteLabel,
    SearchSymbol,
    GetConfig,
    NewSchematic,
    Connect,
    Disconnect,
    GetNetlist,
    CompileYaml,
    WriteYamlSchematic,
}

impl ToolKind {
    /// The name a tool is called by.
    pub open spec fn name_spec(self) -> Seq<char> {
        match self {
            ToolKind::Outline => "outline"@,
            ToolKind::UpdateComponent => "update_component"@,
            ToolKind::PlaceComponent => "place_component"@,
            ToolKind::DeleteComponent => "delete_component"@,
            ToolKind::AddWire => "add_wire"@,
            ToolKind::DeleteWire => "delete_wire"@,
            ToolKind::AddLabel => "add_label"@,
            ToolKind::DeleteLabel => "delete_label"@,
            ToolKind::SearchSymbol => "search_symbol"@,
            ToolKind::GetConfig => "get_config"@,
            ToolKind::NewSchematic => "new_schematic"@,
            ToolKind::Connect => "connect"@,
            ToolKind::Disconnect => "disconnect"@,
            ToolKind::GetNetlist => "get_netlist"@,
            ToolKind::CompileYaml => "compile_yaml"@,
            ToolKind::WriteYamlSchematic => "write_yaml_schematic"@,
        }
    }

    /// The name a tool is called by.
    pub fn name(self) -> (r: &'static str)
        ensures
            r@ == self.name_spec(),
    {
        match self {
            ToolKind::Outline => "outline",
            ToolKind::UpdateComponent => "update_component",
            ToolKind::PlaceComponent => "place_component",
            ToolKind::DeleteComponent => "delete_component",
            ToolKind::AddWire => "add_wire",
            ToolKind::DeleteWire => "delete_wire",
            ToolKind::AddLabel => "add_label",
            ToolKind::DeleteLabel => "delete_label",
            ToolKind::SearchSymbol => "search_symbol",
            ToolKind::GetConfig => "get_config",
            ToolKind::NewSchematic => "new_schematic",
            ToolKind::Connect => "connect",
            ToolKind::Disconnect => "disconnect",
            ToolKind::GetNetlist => "get_netlist",
            ToolKind::CompileYaml => "compile_yaml",
            ToolKind::WriteYamlSchematic => "write_yaml_schematic",
        }
    }
}

/// The tools in the registry's order.
pub open spec fn all_tools() -> Seq<ToolKind> {
    seq![
        ToolKind::Outline,
        ToolKind::UpdateComponent,
        ToolKind::PlaceComponent,
        ToolKind::DeleteComponent,
        ToolKind::AddWire,
        ToolKind::DeleteWire,
        ToolKind::AddLabel,
        ToolKind::DeleteLabel,
        ToolKind::SearchSymbol,
        ToolKind::GetConfig,
        ToolKind::NewSchematic,
        ToolKind::Connect,
        ToolKind::Disconnect,
        ToolKind::GetNetlist,
        ToolKind::CompileYaml,
        ToolKind::WriteYamlSchematic,
    ]
}

impl ToolRegistry {
    /// The tool called `name`; `Unknown tool: <name>` for any other name.
    pub fn tool_named(name: &str) -> (r: Result<ToolKind, ToolError>)
        ensures
            match r {
                Ok(k) => k.name_spec() == name@,
                Err(e) => e.message_spec() == "Unknown tool: "@ + name@ && forall|i: int|
                    0 <= i < all_tools().len() ==> (#[trigger] all_tools()[i]).name_spec() != name@,
            },
    {
        let mut k: usize = 0;
        let tools: [ToolKind; 16] = [
            ToolKind::Outline,
            ToolKind::UpdateComponent,
            ToolKind::PlaceComponent,
            ToolKind::DeleteComponent,
            ToolKind::AddWire,
            ToolKind::DeleteWire,
            ToolKind::AddLabel,
            ToolKind::DeleteLabel,
            ToolKind::SearchSymbol,
            ToolKind::GetConfig,
            ToolKind::NewSchematic,
            ToolKind::Connect,
            ToolKind::Disconnect,
            ToolKind::GetNetlist,
            ToolKind::CompileYaml,
            ToolKind::WriteYamlSchematic,
        ];
        assert(tools@ =~= all_tools());
        while k < 16
            invariant
                k <= 16,
                tools@ == all_tools(),
                forall|i: int| 0 <= i < k ==> (#[trigger] all_tools()[i]).name_spec() != name@,
            decreases 16 - k,
        {
            if str_eq(tools[k].name(), name) {
                return Ok(tools[k]);
            }
            k = k + 1;
        }
        let mut m = String::from_str("Unknown tool: ");
        m.append(name);
        Err(ToolError::Other(m))
    }
}

/// Input for outline tool
#[derive(Debug, Clone)]
pub struct OutlineInput {
    /// Path to the schematic file
    pub schematic: String,
}

/// Outline tool
pub struct OutlineTool;

/// Update component tool
pub struct UpdateComponentTool;

/// Place component tool
pub struct PlaceComponentTool;

/// Input for delete_component tool
#[derive(Debug, Clone)]
pub struct DeleteComponentInput {
    pub schematic: String,
    pub reference: String,
}

/// Output of delete_component tool
#[derive(Debug, Clone)]
pub struct DeleteComponentOutput {
    pub reference: String,
    pub success: bool,
}

/// Delete component tool
pub struct DeleteComponentTool;

/// Add wire tool
pub struct AddWireTool;

/// Delete wire tool
pub struct DeleteWireTool;

/// Add label tool
pub struct AddLabelTool;

/// Output of delete_label tool
#[derive(Debug, Clone)]
pub struct DeleteLabelOutput {
    pub name: String,
    pub success: bool,
}

/// Delete label tool
pub struct DeleteLabelTool;

/// Input for search_symbol tool
#[derive(Debug, Clone)]
pub struct SearchSymbolInput {
    pub query: String,
    pub limit: Option<usize>,
    pub library: Option<String>,
}

/// Search symbol tool
pub struct SearchSymbolTool;

/// Input for get_config tool (no parameters needed)
#[derive(Debug, Clone)]
pub struct GetConfigInput {}

/// Output of get_config tool
#[derive(Debug, Clone)]
pub struct GetConfigOutput {
    pub kicad_path: String,
    pub symbol_lib_path: String,
    pub footprint_lib_path: String,
}

impl GetConfigOutput {
    /// The paths of a configuration.
    pub fn from_config(config: &KicadConfig) -> (r: Self)
        ensures
            r.kicad_path@ == config.kicad_path@,
            r.symbol_lib_path@ == config.symbol_lib_path@,
            r.footprint_lib_path@ == config.footprint_lib_path@,
    {
        GetConfigOutput {
            kicad_path: config.kicad_path.clone(),
            symbol_lib_path: config.symbol_lib_path.clone(),
            footprint_lib_path: config.footprint_lib_path.clone(),
        }
    }
}

/// Get config tool
pub struct GetConfigTool;

/// Input for new_schematic tool
#[derive(Debug, Clone)]
pub struct NewSchematicInput {
    pub path: String,
    pub paper: Option<String>,
}

/// Output of new_schematic tool
#[derive(Debug, Clone)]
pub struct NewSchematicOutput {
    pub path: String,
    pub paper: String,
}

/// New schematic tool
pub struct NewSchematicTool;

/// Input for connect tool
#[derive(Debug, Clone)]
pub struct ConnectInput {
    pub schematic: String,
    pub endpoints: Vec<String>,
}

/// Output of connect tool
#[derive(Debug, Clone)]
pub struct ConnectOutput {
    pub wires_created: usize,
    pub junctions_created: usize,
    pub labels_created: Vec<String>,
    pub net_name: Option<String>,
}

/// Connect tool
pub struct ConnectTool;

/// Input for disconnect tool
#[derive(Debug, Clone)]
pub struct DisconnectInput {
    pub schematic: String,
    pub endpoints: Vec<String>,
}

/// Output of disconnect tool
#[derive(Debug, Clone)]
pub struct DisconnectOutput {
    pub wires_removed: usize,
    pub junctions_removed: usize,
    pub labels_removed: usize,
}

/// Disconnect tool
pub struct DisconnectTool;

/// Input for get_netlist tool
#[derive(Debug, Clone)]
pub struct GetNetlistInput {
    pub schematic: String,
    pub filter: Option<String>,
}

/// A single connection entry in the netlist
#[derive(Debug, Clone)]
pub struct NetlistEntry {
    /// Pin reference (e.g., "R1:1")
    pub pin: String,
    /// What this pin is connected to - either other pins or a net label
    pub connections: String,
}

/// Output of get_netlist tool
#[derive(Debug, Clone)]
pub struct GetNetlistOutput {
    pub entries: Vec<NetlistEntry>,
    pub count: usize,
}

/// Get netlist tool
pub struct GetNetlistTool;

/// Input for compile_yaml tool
#[derive(Debug, Clone)]
pub struct CompileYamlInput {
    pub yaml_path: String,
    pub output_path: Option<String>,
    pub validate_only: Option<bool>,
}

/// Output of compile_yaml tool
#[derive(Debug, Clone)]
pub struct CompileYamlOutput {
    pub output_path: Option<String>,
    pub components_placed: usize,
    pub connections_made: usize,
    pub warnings: Vec<String>,
    pub is_valid: bool,
    pub errors: Vec<String>,
}

/// Compile YAML tool
pub struct CompileYamlTool;

/// Input for write_yaml_schematic tool
#[derive(Debug, Clone)]
pub struct WriteYamlSchematicInput {
    pub path: String,
    pub template: Option<String>,
    pub content: Option<String>,
}

/// Output of write_yaml_schematic tool
#[derive(Debug, Clone)]
pub struct WriteYamlSchematicOutput {
    pub path: String,
    pub template: String,
}

/// Write YAML schematic tool
pub struct WriteYamlSchematicTool;

} // verus!
