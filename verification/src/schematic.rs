//! Schematic-level data types: label shapes, mirroring, routing modes and the
//! bookkeeping records of placed symbols.

use vstd::prelude::*;

use crate::text::str_eq;

verus! {

/// Errors from reading a schematic.
#[derive(Debug, Clone)]
pub enum SchematicError {
    /// The file could not be read or written (the system's message)
    Io(String),
    Parse(String),
    InvalidFormat { expected: String, got: String },
    MissingField(String),
}

impl SchematicError {
    /// The message shown for this error.
    pub open spec fn message_spec(&self) -> Seq<char> {
        match self {
            SchematicError::Io(m) => "IO error: "@ + m@,
            SchematicError::Parse(m) => "Parse error: "@ + m@,
            SchematicError::InvalidFormat { expected, got } => "Invalid format: expected "@ + expected@
                + ", got "@ + got@,
            SchematicError::MissingField(f) => "Missing field: "@ + f@,
        }
    }

    /// The message shown for this error.
    pub fn to_string(&self) -> (r: String)
        ensures
            r@ == self.message_spec(),
    {
        match self {
            SchematicError::Io(m) => {
                let mut r = String::from_str("IO error: ");
                r.append(m.as_str());
                r
            },
            SchematicError::Parse(m) => {
                let mut r = String::from_str("Parse error: ");
                r.append(m.as_str());
                r
            },
            SchematicError::InvalidFormat { expected, got } => {
                let mut r = String::from_str("Invalid format: expected ");
                r.append(expected.as_str());
                r.append(", got ");
                r.append(got.as_str());
                r
            },
            SchematicError::MissingField(f) => {
                let mut r = String::from_str("Missing field: ");
                r.append(f.as_str());
                r
            },
        }
    }
}

/// Label shape for global and hierarchical labels
#[derive(Debug, Clone, Copy, PartialEq, Eq, Structural)]
pub enum LabelShape {
    Input,
    Output,
    Bidirectional,
    TriState,
    Passive,
}

impl LabelShape {
    /// The variant named by a keyword; unknown keywords give `Input`.
    pub open spec fn from_keyword(s: Seq<char>) -> LabelShape {
        if s == "output"@ {
            LabelShape::Output
        } else if s == "bidirectional"@ {
            LabelShape::Bidirectional
        } else if s == "tri_state"@ {
            LabelShape::TriState
        } else if s == "passive"@ {
            LabelShape::Passive
        } else {
            LabelShape::Input
        }
    }

    /// The keyword written for a variant.
    pub open spec fn keyword(self) -> Seq<char> {
        match self {
            LabelShape::Input => "input"@,
            LabelShape::Output => "output"@,
            LabelShape::Bidirectional => "bidirectional"@,
            LabelShape::TriState => "tri_state"@,
            LabelShape::Passive => "passive"@,
        }
    }

    pub fn from_str(s: &str) -> (r: Self)
        ensures
            r == Self::from_keyword(s@),
    {
        if str_eq(s, "output") {
            LabelShape::Output
        } else if str_eq(s, "bidirectional") {
            LabelShape::Bidirectional
        } else if str_eq(s, "tri_state") {
            LabelShape::TriState
        } else if str_eq(s, "passive") {
            LabelShape::Passive
        } else {
            LabelShape::Input
        }
    }

    pub fn as_str(&self) -> (r: &'static str)
        ensures
            r@ == self.keyword(),
    {
        match self {
            LabelShape::Input => "input",
            LabelShape::Output => "output",
            LabelShape::Bidirectional => "bidirectional",
            LabelShape::TriState => "tri_state",
            LabelShape::Passive => "passive",
        }
    }
}

impl Default for LabelShape {
    fn default() -> (r: Self)
        ensures
            r == LabelShape::Input,
    {
        LabelShape::Input
    }
}

/// Reading back the keyword written for a variant gives that variant.
pub proof fn lemma_label_shape_round_trip(t: LabelShape)
    ensures
        LabelShape::from_keyword(t.keyword()) == t,
{
    reveal_strlit("input");
    reveal_strlit("output");
    reveal_strlit("bidirectional");
    reveal_strlit("tri_state");
    reveal_strlit("passive");
    assert("input"@.len() == 5);
    assert("output"@.len() == 6);
    assert("bidirectional"@.len() == 13);
    assert("tri_state"@.len() == 9);
    assert("passive"@.len() == 7);
}
/// Mirror setting for symbol instances
#[derive(Debug, Clone, Copy, PartialEq, Eq, Structural)]
pub enum Mirror {
    X,
    Y,
}

impl Mirror {
    /// The variant named by a keyword; unknown keywords give no variant.
    pub open spec fn from_keyword(s: Seq<char>) -> Option<Mirror> {
        if s == "x"@ {
            Some(Mirror::X)
        } else if s == "y"@ {
            Some(Mirror::Y)
        } else {
            None
        }
    }

    /// The keyword written for a variant.
    pub open spec fn keyword(self) -> Seq<char> {
        match self {
            Mirror::X => "x"@,
            Mirror::Y => "y"@,
        }
    }

    pub fn from_str(s: &str) -> (r: Option<Self>)
        ensures
            r == Self::from_keyword(s@),
    {
        if str_eq(s, "x") {
            Some(Mirror::X)
        } else if str_eq(s, "y") {
            Some(Mirror::Y)
        } else {
            None
        }
    }

    pub fn as_str(&self) -> (r: &'static str)
        ensures
            r@ == self.keyword(),
    {
        match self {
            Mirror::X => "x",
            Mirror::Y => "y",
        }
    }
}

/// Reading back the keyword written for a variant gives that variant.
pub proof fn lemma_mirror_round_trip(t: Mirror)
    ensures
        Mirror::from_keyword(t.keyword()) == Some(t),
{
    reveal_strlit("x");
    reveal_strlit("y");
    assert("x"@.len() == 1);
    assert("y"@.len() == 1);
    assert("x"@[0] != "y"@[0]);
}
/// Routing mode for wire placement
#[derive(Debug, Clone, Copy, PartialEq, Eq, Structural)]
pub enum RoutingMode {
    /// Single segment, diagonal allowed
    Direct,
    /// Horizontal then vertical (two segments)
    Orthogonal,
    /// Vertical then horizontal
    OrthogonalVH,
}

impl Default for RoutingMode {
    fn default() -> (r: Self)
        ensures
            r == RoutingMode::Direct,
    {
        RoutingMode::Direct
    }
}

/// Title block information
#[derive(Debug, Clone)]
pub struct TitleBlock {
    pub title: Option<String>,
    pub date: Option<String>,
    pub rev: Option<String>,
    pub company: Option<String>,
    /// Comment fields (indexed 1-9)
    pub comments: Vec<(u8, String)>,
}

impl Default for TitleBlock {
    fn default() -> (r: Self)
        ensures
            r.title is None,
            r.date is None,
            r.rev is None,
            r.company is None,
            r.comments@.len() == 0,
    {
        TitleBlock { title: None, date: None, rev: None, company: None, comments: Vec::new() }
    }
}

/// Pin instance in a symbol placement
#[derive(Debug, Clone)]
pub struct PinInstance {
    pub number: String,
    pub uuid: String,
}

/// Path instance within a project
#[derive(Debug, Clone)]
pub struct PathInstance {
    pub path: String,
    pub reference: String,
    pub unit: u32,
}

/// Project instance data for hierarchical designs
#[derive(Debug, Clone)]
pub struct ProjectInstance {
    pub project_name: String,
    pub paths: Vec<PathInstance>,
}

/// Sheet instance information
#[derive(Debug, Clone)]
pub struct SheetInstance {
    pub path: String,
    pub page: String,
}

} // verus!
