//! Pin types for KiCAD symbols: electrical types and graphic styles.

use vstd::prelude::*;

use crate::text::str_eq;

verus! {

/// Pin electrical type
#[derive(Debug, Clone, Copy, PartialEq, Eq, Structural)]
pub enum PinElectricalType {
    Input,
    Output,
    Bidirectional,
    TriState,
    Passive,
    Free,
    Unspecified,
    PowerIn,
    PowerOut,
    OpenCollector,
    OpenEmitter,
    NoConnect,
}

impl PinElectricalType {
    /// The variant named by a keyword; unknown keywords give `Unspecified`.
    pub open spec fn from_keyword(s: Seq<char>) -> PinElectricalType {
        if s == "input"@ {
            PinElectricalType::Input
        } else if s == "output"@ {
            PinElectricalType::Output
        } else if s == "bidirectional"@ {
            PinElectricalType::Bidirectional
        } else if s == "tri_state"@ {
            PinElectricalType::TriState
        } else if s == "passive"@ {
            PinElectricalType::Passive
        } else if s == "free"@ {
            PinElectricalType::Free
        } else if s == "power_in"@ {
            PinElectricalType::PowerIn
        } else if s == "power_out"@ {
            PinElectricalType::PowerOut
        } else if s == "open_collector"@ {
            PinElectricalType::OpenCollector
        } else if s == "open_emitter"@ {
            PinElectricalType::OpenEmitter
        } else if s == "no_connect"@ {
            PinElectricalType::NoConnect
        } else {
            PinElectricalType::Unspecified
        }
    }

    /// The keyword written for a variant.
    pub open spec fn keyword(self) -> Seq<char> {
        match self {
            PinElectricalType::Input => "input"@,
            PinElectricalType::Output => "output"@,
            PinElectricalType::Bidirectional => "bidirectional"@,
            PinElectricalType::TriState => "tri_state"@,
            PinElectricalType::Passive => "passive"@,
            PinElectricalType::Free => "free"@,
            PinElectricalType::Unspecified => "unspecified"@,
            PinElectricalType::PowerIn => "power_in"@,
            PinElectricalType::PowerOut => "power_out"@,
            PinElectricalType::OpenCollector => "open_collector"@,
            PinElectricalType::OpenEmitter => "open_emitter"@,
            PinElectricalType::NoConnect => "no_connect"@,
        }
    }

    pub fn from_str(s: &str) -> (r: Self)
        ensures
            r == Self::from_keyword(s@),
    {
        if str_eq(s, "input") {
            PinElectricalType::Input
        } else if str_eq(s, "output") {
            PinElectricalType::Output
        } else if str_eq(s, "bidirectional") {
            PinElectricalType::Bidirectional
        } else if str_eq(s, "tri_state") {
            PinElectricalType::TriState
        } else if str_eq(s, "passive") {
            PinElectricalType::Passive
        } else if str_eq(s, "free") {
            PinElectricalType::Free
        } else if str_eq(s, "power_in") {
            PinElectricalType::PowerIn
        } else if str_eq(s, "power_out") {
            PinElectricalType::PowerOut
        } else if str_eq(s, "open_collector") {
            PinElectricalType::OpenCollector
        } else if str_eq(s, "open_emitter") {
            PinElectricalType::OpenEmitter
        } else if str_eq(s, "no_connect") {
            PinElectricalType::NoConnect
        } else {
            PinElectricalType::Unspecified
        }
    }

    pub fn as_str(&self) -> (r: &'static str)
        ensures
            r@ == self.keyword(),
    {
        match self {
            PinElectricalType::Input => "input",
            PinElectricalType::Output => "output",
            PinElectricalType::Bidirectional => "bidirectional",
            PinElectricalType::TriState => "tri_state",
            PinElectricalType::Passive => "passive",
            PinElectricalType::Free => "free",
            PinElectricalType::Unspecified => "unspecified",
            PinElectricalType::PowerIn => "power_in",
            PinElectricalType::PowerOut => "power_out",
            PinElectricalType::OpenCollector => "open_collector",
            PinElectricalType::OpenEmitter => "open_emitter",
            PinElectricalType::NoConnect => "no_connect",
        }
    }
}

/// Reading back the keyword written for a variant gives that variant.
pub proof fn lemma_pin_electrical_type_round_trip(t: PinElectricalType)
    ensures
        PinElectricalType::from_keyword(t.keyword()) == t,
{
    reveal_strlit("input");
    reveal_strlit("output");
    reveal_strlit("bidirectional");
    reveal_strlit("tri_state");
    reveal_strlit("passive");
    reveal_strlit("free");
    reveal_strlit("unspecified");
    reveal_strlit("power_in");
    reveal_strlit("power_out");
    reveal_strlit("open_collector");
    reveal_strlit("open_emitter");
    reveal_strlit("no_connect");
    assert("input"@.len() == 5);
    assert("output"@.len() == 6);
    assert("bidirectional"@.len() == 13);
    assert("tri_state"@.len() == 9);
    assert("passive"@.len() == 7);
    assert("free"@.len() == 4);
    assert("unspecified"@.len() == 11);
    assert("power_in"@.len() == 8);
    assert("power_out"@.len() == 9);
    assert("open_collector"@.len() == 14);
    assert("open_emitter"@.len() == 12);
    assert("no_connect"@.len() == 10);
    assert("tri_state"@[0] != "power_out"@[0]);
}
/// Pin graphic style
#[derive(Debug, Clone, Copy, PartialEq, Eq, Structural)]
pub enum PinGraphicStyle {
    Line,
    Inverted,
    Clock,
    InvertedClock,
    InputLow,
    ClockLow,
    OutputLow,
    EdgeClockHigh,
    NonLogic,
}

impl PinGraphicStyle {
    /// The variant named by a keyword; unknown keywords give `Line`.
    pub open spec fn from_keyword(s: Seq<char>) -> PinGraphicStyle {
        if s == "inverted"@ {
            PinGraphicStyle::Inverted
        } else if s == "clock"@ {
            PinGraphicStyle::Clock
        } else if s == "inverted_clock"@ {
            PinGraphicStyle::InvertedClock
        } else if s == "input_low"@ {
            PinGraphicStyle::InputLow
        } else if s == "clock_low"@ {
            PinGraphicStyle::ClockLow
        } else if s == "output_low"@ {
            PinGraphicStyle::OutputLow
        } else if s == "edge_clock_high"@ {
            PinGraphicStyle::EdgeClockHigh
        } else if s == "non_logic"@ {
            PinGraphicStyle::NonLogic
        } else {
            PinGraphicStyle::Line
        }
    }

    /// The keyword written for a variant.
    pub open spec fn keyword(self) -> Seq<char> {
        match self {
            PinGraphicStyle::Line => "line"@,
            PinGraphicStyle::Inverted => "inverted"@,
            PinGraphicStyle::Clock => "clock"@,
            PinGraphicStyle::InvertedClock => "inverted_clock"@,
            PinGraphicStyle::InputLow => "input_low"@,
            PinGraphicStyle::ClockLow => "clock_low"@,
            PinGraphicStyle::OutputLow => "output_low"@,
            PinGraphicStyle::EdgeClockHigh => "edge_clock_high"@,
            PinGraphicStyle::NonLogic => "non_logic"@,
        }
    }

    pub fn from_str(s: &str) -> (r: Self)
        ensures
            r == Self::from_keyword(s@),
    {
        if str_eq(s, "inverted") {
            PinGraphicStyle::Inverted
        } else if str_eq(s, "clock") {
            PinGraphicStyle::Clock
        } else if str_eq(s, "inverted_clock") {
            PinGraphicStyle::InvertedClock
        } else if str_eq(s, "input_low") {
            PinGraphicStyle::InputLow
        } else if str_eq(s, "clock_low") {
            PinGraphicStyle::ClockLow
        } else if str_eq(s, "output_low") {
            PinGraphicStyle::OutputLow
        } else if str_eq(s, "edge_clock_high") {
            PinGraphicStyle::EdgeClockHigh
        } else if str_eq(s, "non_logic") {
            PinGraphicStyle::NonLogic
        } else {
            PinGraphicStyle::Line
        }
    }

    pub fn as_str(&self) -> (r: &'static str)
        ensures
            r@ == self.keyword(),
    {
        match self {
            PinGraphicStyle::Line => "line",
            PinGraphicStyle::Inverted => "inverted",
            PinGraphicStyle::Clock => "clock",
            PinGraphicStyle::InvertedClock => "inverted_clock",
            PinGraphicStyle::InputLow => "input_low",
            PinGraphicStyle::ClockLow => "clock_low",
            PinGraphicStyle::OutputLow => "output_low",
            PinGraphicStyle::EdgeClockHigh => "edge_clock_high",
            PinGraphicStyle::NonLogic => "non_logic",
        }
    }
}

/// Reading back the keyword written for a variant gives that variant.
pub proof fn lemma_pin_graphic_style_round_trip(t: PinGraphicStyle)
    ensures
        PinGraphicStyle::from_keyword(t.keyword()) == t,
{
    reveal_strlit("line");
    reveal_strlit("inverted");
    reveal_strlit("clock");
    reveal_strlit("inverted_clock");
    reveal_strlit("input_low");
    reveal_strlit("clock_low");
    reveal_strlit("output_low");
    reveal_strlit("edge_clock_high");
    reveal_strlit("non_logic");
    assert("line"@.len() == 4);
    assert("inverted"@.len() == 8);
    assert("clock"@.len() == 5);
    assert("inverted_clock"@.len() == 14);
    assert("input_low"@.len() == 9);
    assert("clock_low"@.len() == 9);
    assert("output_low"@.len() == 10);
    assert("edge_clock_high"@.len() == 15);
    assert("non_logic"@.len() == 9);
    assert("input_low"@[0] != "clock_low"@[0]);
    assert("input_low"@[0] != "non_logic"@[0]);
    assert("clock_low"@[0] != "non_logic"@[0]);
}
} // verus!
