//! Core data types shared across KiCAD file formats: stroke and fill styles,
//! text justification and colors.

use vstd::prelude::*;

use crate::text::str_eq;

verus! {

/// Stroke line type
#[derive(Debug, Clone, Copy, PartialEq, Eq, Structural)]
pub enum StrokeType {
    Default,
    Solid,
    Dash,
    Dot,
    DashDot,
    DashDotDot,
}

impl StrokeType {
    /// The variant named by a keyword; unknown keywords give `Default`.
    pub open spec fn from_keyword(s: Seq<char>) -> StrokeType {
        if s == "solid"@ {
            StrokeType::Solid
        } else if s == "dash"@ {
            StrokeType::Dash
        } else if s == "dot"@ {
            StrokeType::Dot
        } else if s == "dash_dot"@ {
            StrokeType::DashDot
        } else if s == "dash_dot_dot"@ {
            StrokeType::DashDotDot
        } else {
            StrokeType::Default
        }
    }

    /// The keyword written for a variant.
    pub open spec fn keyword(self) -> Seq<char> {
        match self {
            StrokeType::Default => "default"@,
            StrokeType::Solid => "solid"@,
            StrokeType::Dash => "dash"@,
            StrokeType::Dot => "dot"@,
            StrokeType::DashDot => "dash_dot"@,
            StrokeType::DashDotDot => "dash_dot_dot"@,
        }
    }

    pub fn from_str(s: &str) -> (r: Self)
        ensures
            r == Self::from_keyword(s@),
    {
        if str_eq(s, "solid") {
            StrokeType::Solid
        } else if str_eq(s, "dash") {
            StrokeType::Dash
        } else if str_eq(s, "dot") {
            StrokeType::Dot
        } else if str_eq(s, "dash_dot") {
            StrokeType::DashDot
        } else if str_eq(s, "dash_dot_dot") {
            StrokeType::DashDotDot
        } else {
            StrokeType::Default
        }
    }

    pub fn as_str(&self) -> (r: &'static str)
        ensures
            r@ == self.keyword(),
    {
        match self {
            StrokeType::Default => "default",
            StrokeType::Solid => "solid",
            StrokeType::Dash => "dash",
            StrokeType::Dot => "dot",
            StrokeType::DashDot => "dash_dot",
            StrokeType::DashDotDot => "dash_dot_dot",
        }
    }
}

impl Default for StrokeType {
    fn default() -> (r: Self)
        ensures
            r == StrokeType::Default,
    {
        StrokeType::Default
    }
}

/// Reading back the keyword written for a variant gives that variant.
pub proof fn lemma_stroke_type_round_trip(t: StrokeType)
    ensures
        StrokeType::from_keyword(t.keyword()) == t,
{
    reveal_strlit("default");
    reveal_strlit("solid");
    reveal_strlit("dash");
    reveal_strlit("dot");
    reveal_strlit("dash_dot");
    reveal_strlit("dash_dot_dot");
    assert("default"@.len() == 7);
    assert("solid"@.len() == 5);
    assert("dash"@.len() == 4);
    assert("dot"@.len() == 3);
    assert("dash_dot"@.len() == 8);
    assert("dash_dot_dot"@.len() == 12);
}
/// Fill type
#[derive(Debug, Clone, Copy, PartialEq, Eq, Structural)]
pub enum FillType {
    NoFill,
    Outline,
    Background,
    Solid,
}

impl FillType {
    /// The variant named by a keyword; unknown keywords give `NoFill`.
    pub open spec fn from_keyword(s: Seq<char>) -> FillType {
        if s == "outline"@ {
            FillType::Outline
        } else if s == "background"@ {
            FillType::Background
        } else if s == "solid"@ {
            FillType::Solid
        } else {
            FillType::NoFill
        }
    }

    /// The keyword written for a variant.
    pub open spec fn keyword(self) -> Seq<char> {
        match self {
            FillType::NoFill => "none"@,
            FillType::Outline => "outline"@,
            FillType::Background => "background"@,
            FillType::Solid => "solid"@,
        }
    }

    pub fn from_str(s: &str) -> (r: Self)
        ensures
            r == Self::from_keyword(s@),
    {
        if str_eq(s, "outline") {
            FillType::Outline
        } else if str_eq(s, "background") {
            FillType::Background
        } else if str_eq(s, "solid") {
            FillType::Solid
        } else {
            FillType::NoFill
        }
    }

    pub fn as_str(&self) -> (r: &'static str)
        ensures
            r@ == self.keyword(),
    {
        match self {
            FillType::NoFill => "none",
            FillType::Outline => "outline",
            FillType::Background => "background",
            FillType::Solid => "solid",
        }
    }
}

impl Default for FillType {
    fn default() -> (r: Self)
        ensures
            r == FillType::NoFill,
    {
        FillType::NoFill
    }
}

/// Reading back the keyword written for a variant gives that variant.
pub proof fn lemma_fill_type_round_trip(t: FillType)
    ensures
        FillType::from_keyword(t.keyword()) == t,
{
    reveal_strlit("none");
    reveal_strlit("outline");
    reveal_strlit("background");
    reveal_strlit("solid");
    assert("none"@.len() == 4);
    assert("outline"@.len() == 7);
    assert("background"@.len() == 10);
    assert("solid"@.len() == 5);
}
/// RGBA color
#[derive(Debug, Clone, Copy, PartialEq, Eq, Structural)]
pub struct Color {
    pub r: u8,
    pub g: u8,
    pub b: u8,
    pub a: u8,
}

impl Color {
    pub fn new(r: u8, g: u8, b: u8, a: u8) -> (c: Self)
        ensures
            c == (Color { r, g, b, a }),
    {
        Color { r, g, b, a }
    }
}

/// Fill style for shapes
#[derive(Debug, Clone, Copy, PartialEq, Eq, Structural)]
pub struct Fill {
    pub fill_type: FillType,
    pub color: Option<Color>,
}

impl Default for Fill {
    fn default() -> (r: Self)
        ensures
            r == (Fill { fill_type: FillType::NoFill, color: None }),
    {
        Fill { fill_type: FillType::NoFill, color: None }
    }
}

/// Horizontal text justification
#[derive(Debug, Clone, Copy, PartialEq, Eq, Structural)]
pub enum HorizontalJustify {
    Left,
    Center,
    Right,
}

impl Default for HorizontalJustify {
    fn default() -> (r: Self)
        ensures
            r == HorizontalJustify::Center,
    {
        HorizontalJustify::Center
    }
}

/// Vertical text justification
#[derive(Debug, Clone, Copy, PartialEq, Eq, Structural)]
pub enum VerticalJustify {
    Top,
    Center,
    Bottom,
}

impl Default for VerticalJustify {
    fn default() -> (r: Self)
        ensures
            r == VerticalJustify::Center,
    {
        VerticalJustify::Center
    }
}

/// Text justification
#[derive(Debug, Clone, Copy, PartialEq, Eq, Structural)]
pub struct Justify {
    pub horizontal: HorizontalJustify,
    pub vertical: VerticalJustify,
    pub mirror: bool,
}

impl Default for Justify {
    fn default() -> (r: Self)
        ensures
            r == (Justify {
                horizontal: HorizontalJustify::Center,
                vertical: VerticalJustify::Center,
                mirror: false,
            }),
    {
        Justify {
            horizontal: HorizontalJustify::Center,
            vertical: VerticalJustify::Center,
            mirror: false,
        }
    }
}

} // verus!
