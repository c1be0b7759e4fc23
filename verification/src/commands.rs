//! Argument parsing shared by the schematic editing commands.

use vstd::prelude::*;

use crate::outline_nets::GridPoint;
use crate::schematic::{LabelShape, RoutingMode};
use crate::sexpr::Decimal;
use crate::sexpr_write::{number_text, write_number};
use crate::text::{chars_of, find_char, str_eq, string_from_chars};

verus! {

/// A coordinate in millimetres: its grid units read with four decimals, trailing zeros
/// left out.
pub open spec fn mm_text(v: i32) -> Seq<char> {
    number_text(Decimal { mantissa: v as i64, scale: 4 })
}

/// A position as `(x, y)` in millimetres.
pub open spec fn point_text(p: GridPoint) -> Seq<char> {
    "("@ + mm_text(p.x) + ", "@ + mm_text(p.y) + ")"@
}

fn push_point_text(out: &mut String, p: GridPoint)
    ensures
        final(out)@ == old(out)@ + point_text(p),
{
    out.append("(");
    write_number(out, Decimal { mantissa: p.x as i64, scale: 4 });
    out.append(", ");
    write_number(out, Decimal { mantissa: p.y as i64, scale: 4 });
    out.append(")");
}

/// Errors that can occur during command execution
#[derive(Debug, Clone)]
pub enum CommandError {
    /// Symbol/component not found by reference
    SymbolNotFound(String),
    /// Pin not found on symbol
    PinNotFound { reference: String, pin: String },
    /// Wire not found at position
    WireNotFound(GridPoint),
    /// Label not found
    LabelNotFound { name: String, position: Option<GridPoint> },
    /// Invalid pin reference format
    InvalidPinRef(String),
    /// Invalid routing mode
    InvalidRoutingMode(String),
    /// Invalid label shape
    InvalidLabelShape(String),
    /// Other errors
    Other(String),
}

impl CommandError {
    /// The message shown for this error.
    pub open spec fn message_spec(&self) -> Seq<char> {
        match self {
            CommandError::SymbolNotFound(r) => "Symbol '"@ + r@ + "' not found"@,
            CommandError::PinNotFound { reference, pin } => "Pin '"@ + pin@ + "' not found on '"@
                + reference@ + "'"@,
            CommandError::WireNotFound(p) => "No wire found at "@ + point_text(*p),
            CommandError::LabelNotFound { name, position } => match position {
                Some(p) => "Label '"@ + name@ + "' not found at "@ + point_text(*p),
                None => "Label '"@ + name@ + "' not found"@,
            },
            CommandError::InvalidPinRef(s) => "Invalid pin reference '"@ + s@
                + "', expected 'REF:PIN' format"@,
            CommandError::InvalidRoutingMode(s) => "Invalid routing mode '"@ + s@
                + "'. Use: direct, orthogonal, or orthogonal-vh"@,
            CommandError::InvalidLabelShape(s) => "Invalid label shape '"@ + s@
                + "'. Use: input, output, bidirectional, tri_state, or passive"@,
            CommandError::Other(msg) => msg@,
        }
    }

    /// The message shown for this error.
    pub fn to_string(&self) -> (r: String)
        ensures
            r@ == self.message_spec(),
    {
        match self {
            CommandError::SymbolNotFound(s) => {
                let mut r = String::from_str("Symbol '");
                r.append(s.as_str());
                r.append("' not found");
                r
            },
            CommandError::PinNotFound { reference, pin } => {
                let mut r = String::from_str("Pin '");
                r.append(pin.as_str());
                r.append("' not found on '");
                r.append(reference.as_str());
                r.append("'");
                r
            },
            CommandError::WireNotFound(p) => {
                let mut r = String::from_str("No wire found at ");
                push_point_text(&mut r, *p);
                r
            },
            CommandError::LabelNotFound { name, position } => {
                let mut r = String::from_str("Label '");
                r.append(name.as_str());
                match position {
                    Some(p) => {
                        r.append("' not found at ");
                        push_point_text(&mut r, *p);
                    },
                    None => {
                        r.append("' not found");
                    },
                }
                r
            },
            CommandError::InvalidPinRef(s) => {
                let mut r = String::from_str("Invalid pin reference '");
                r.append(s.as_str());
                r.append("', expected 'REF:PIN' format");
                r
            },
            CommandError::InvalidRoutingMode(s) => {
                let mut r = String::from_str("Invalid routing mode '");
                r.append(s.as_str());
                r.append("'. Use: direct, orthogonal, or orthogonal-vh");
                r
            },
            CommandError::InvalidLabelShape(s) => {
                let mut r = String::from_str("Invalid label shape '");
                r.append(s.as_str());
                r.append("'. Use: input, output, bidirectional, tri_state, or passive");
                r
            },
            CommandError::Other(msg) => msg.clone(),
        }
    }
}

/// Connect pins and nets logically.
#[derive(Debug, Clone)]
pub struct ConnectCommand {
    /// Endpoints: "REF:PIN" or "&NET"
    pub endpoints: Vec<String>,
}

/// Output of a connect command
#[derive(Debug, Clone)]
pub struct ConnectOutput {
    pub wires_created: usize,
    pub junctions_created: usize,
    /// Labels created (empty if none)
    pub labels_created: Vec<String>,
    /// Net name if connecting to a net
    pub net_name: Option<String>,
}

/// Delete a component by reference
#[derive(Debug, Clone)]
pub struct DeleteComponentCommand {
    pub reference: String,
}

/// Remove the connection between two endpoints
#[derive(Debug, Clone)]
pub struct DisconnectCommand {
    pub endpoint1: String,
    pub endpoint2: String,
}

/// Output of a disconnect command
#[derive(Debug, Clone)]
pub struct DisconnectOutput {
    pub wires_removed: usize,
    pub junctions_removed: usize,
    pub labels_removed: usize,
}

/// `i` is the position of the first `:` in `s`.
pub open spec fn is_first_colon(s: Seq<char>, i: int) -> bool {
    &&& 0 <= i < s.len()
    &&& s[i] == ':'
    &&& forall|j: int| 0 <= j < i ==> s[j] != ':'
}

/// Parse "REF:PIN" format into (reference, pin): the text is cut at its first `:`.
pub fn parse_pin_ref(s: &str) -> (r: Result<(String, String), CommandError>)
    ensures
        (exists|i: int| is_first_colon(s@, i)) ==> ({
            let i = choose|i: int| is_first_colon(s@, i);
            r matches Ok(p) && p.0@ == s@.subrange(0, i) && p.1@ == s@.subrange(
                i + 1,
                s@.len() as int,
            )
        }),
        !(exists|i: int| is_first_colon(s@, i)) ==> (r matches Err(CommandError::InvalidPinRef(
            t,
        )) && t@ == s@),
{
    let v = chars_of(s);
    match find_char(&v, 0, v.len(), ':') {
        Some(c) => {
            assert(is_first_colon(s@, c as int));
            assert forall|k: int| is_first_colon(s@, k) implies k == c by {
                if k > c {
                    assert(s@[c as int] == ':');
                }
            }
            Ok((string_from_chars(&v, 0, c), string_from_chars(&v, c + 1, v.len())))
        },
        None => {
            assert(v@.subrange(0, v@.len() as int) == v@);
            Err(CommandError::InvalidPinRef(string_from_chars(&v, 0, v.len())))
        },
    }
}

/// The routing mode a keyword names.
pub open spec fn routing_mode_spec(s: Seq<char>) -> Option<RoutingMode> {
    if s == "direct"@ {
        Some(RoutingMode::Direct)
    } else if s == "orthogonal"@ {
        Some(RoutingMode::Orthogonal)
    } else if s == "orthogonal-vh"@ {
        Some(RoutingMode::OrthogonalVH)
    } else {
        None
    }
}

/// Parse routing mode from string
pub fn parse_routing_mode(s: &str) -> (r: Result<RoutingMode, CommandError>)
    ensures
        match routing_mode_spec(s@) {
            Some(m) => r == Ok::<RoutingMode, CommandError>(m),
            None => r matches Err(CommandError::InvalidRoutingMode(t)) && t@ == s@,
        },
{
    if str_eq(s, "direct") {
        Ok(RoutingMode::Direct)
    } else if str_eq(s, "orthogonal") {
        Ok(RoutingMode::Orthogonal)
    } else if str_eq(s, "orthogonal-vh") {
        Ok(RoutingMode::OrthogonalVH)
    } else {
        Err(CommandError::InvalidRoutingMode(String::from_str(s)))
    }
}

/// The label shape a keyword names.
pub open spec fn label_shape_spec(s: Seq<char>) -> Option<LabelShape> {
    if s == "input"@ {
        Some(LabelShape::Input)
    } else if s == "output"@ {
        Some(LabelShape::Output)
    } else if s == "bidirectional"@ {
        Some(LabelShape::Bidirectional)
    } else if s == "tri_state"@ {
        Some(LabelShape::TriState)
    } else if s == "passive"@ {
        Some(LabelShape::Passive)
    } else {
        None
    }
}

/// Parse label shape from string
pub fn parse_label_shape(s: &str) -> (r: Result<LabelShape, CommandError>)
    ensures
        match label_shape_spec(s@) {
            Some(m) => r == Ok::<LabelShape, CommandError>(m),
            None => r matches Err(CommandError::InvalidLabelShape(t)) && t@ == s@,
        },
{
    if str_eq(s, "input") {
        Ok(LabelShape::Input)
    } else if str_eq(s, "output") {
        Ok(LabelShape::Output)
    } else if str_eq(s, "bidirectional") {
        Ok(LabelShape::Bidirectional)
    } else if str_eq(s, "tri_state") {
        Ok(LabelShape::TriState)
    } else if str_eq(s, "passive") {
        Ok(LabelShape::Passive)
    } else {
        Err(CommandError::InvalidLabelShape(String::from_str(s)))
    }
}

/// A label shape keyword accepted by `parse_label_shape` names the same shape
/// as `LabelShape::from_str`, and every shape's keyword is accepted.
pub proof fn lemma_label_shape_keywords_agree(t: LabelShape)
    ensures
        label_shape_spec(t.keyword()) == Some(t),
        LabelShape::from_keyword(t.keyword()) == t,
{
    crate::schematic::lemma_label_shape_round_trip(t);
    reveal_strlit("input");
    reveal_strlit("output");
    reveal_strlit("bidirectional");
    reveal_strlit("tri_state");
    reveal_strlit("passive");
    assert("input"@.len() == 5);
    assert("output"@.len() == 6);
    assert("bidirectional"@.len() == 13);
    assert("tri_state"@.len() == 9);
    assert("passive"@.len() == 7);
}

} // verus!
