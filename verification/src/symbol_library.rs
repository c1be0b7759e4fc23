//! Reading a KiCAD symbol library (`kicad_symbol_lib`) out of its S-expression tree:
//! each symbol with its properties, units, drawings and pins.
//!
//! Inside a list, a setting given twice takes its last value, as the file is read item
//! by item.
use vstd::prelude::*;
use crate::common::{Fill, FillType, HorizontalJustify, Justify, StrokeType, VerticalJustify};
use crate::lookup::{LookupError, SymbolError};
use crate::pin::{PinElectricalType, PinGraphicStyle};
use crate::schematic_read_back::{args_v, children_v, lemma_args};
use crate::schematic_write::{
    Arc, Circle, Effects, Font, GraphicItem, Pin, PinText, Point, Polyline, Position, Property, Rectangle, Stroke,
    Symbol, SymbolUnit, Text,
};
use crate::sexpr::{error_text, format_error, parse_spec, pow10, pow10_exec, views, Decimal, ParseError, SExpr, SExprParser, SExprView, Step};
use crate::sexpr_write::kicad_text;
use crate::sheet_reader::text_or_empty;
use crate::text::str_eq;

verus! {

pub open spec fn zero_dec() -> Decimal {
    Decimal { mantissa: 0, scale: 0 }
}

/// The number at `k`, or `d` where there is none.
pub open spec fn num_or(a: Seq<SExprView>, k: int, d: Decimal) -> Decimal {
    if 0 <= k < a.len() && a[k] is Number {
        a[k]->Number_0
    } else {
        d
    }
}

pub open spec fn num_at(a: Seq<SExprView>, k: int) -> Option<Decimal> {
    if 0 <= k < a.len() && a[k] is Number {
        Some(a[k]->Number_0)
    } else {
        None
    }
}

/// The quoted string at `k`.
pub open spec fn str_at(a: Seq<SExprView>, k: int) -> Option<Seq<char>> {
    if 0 <= k < a.len() && a[k] is Str {
        Some(a[k]->Str_0)
    } else {
        None
    }
}

/// The bare symbol at `k`.
pub open spec fn sym_at(a: Seq<SExprView>, k: int) -> Option<Seq<char>> {
    if 0 <= k < a.len() && a[k] is Symbol {
        Some(a[k]->Symbol_0)
    } else {
        None
    }
}

/// The arguments of the last item headed by `name`.
pub open spec fn last_args(xs: Seq<SExprView>, name: Seq<char>) -> Option<Seq<SExprView>>
    decreases xs.len(),
{
    if xs.len() == 0 {
        None
    } else {
        match args_v(xs.last(), name) {
            Some(a) => Some(a),
            None => last_args(xs.drop_last(), name),
        }
    }
}

/// Whether the bare symbol `s` is among the items.
pub open spec fn has_sym(xs: Seq<SExprView>, s: Seq<char>) -> bool {
    exists|i: int| 0 <= i < xs.len() && xs[i] == SExprView::Symbol(s)
}

pub open spec fn position_of(a: Seq<SExprView>) -> Position {
    Position { x: num_or(a, 0, zero_dec()), y: num_or(a, 1, zero_dec()), angle: num_or(a, 2, zero_dec()) }
}

pub open spec fn point_args(a: Seq<SExprView>) -> Point {
    Point { x: num_or(a, 0, zero_dec()), y: num_or(a, 1, zero_dec()) }
}

/// The last `at` among the items, at the origin where there is none.
pub open spec fn position_in(xs: Seq<SExprView>) -> Position {
    match last_args(xs, "at"@) {
        Some(a) => position_of(a),
        None => Position { x: zero_dec(), y: zero_dec(), angle: zero_dec() },
    }
}

/// The last point headed by `name`, the origin where there is none.
pub open spec fn point_in(xs: Seq<SExprView>, name: Seq<char>) -> Point {
    match last_args(xs, name) {
        Some(a) => point_args(a),
        None => Point { x: zero_dec(), y: zero_dec() },
    }
}

pub open spec fn default_size() -> Decimal {
    Decimal { mantissa: 127, scale: 2 }
}

pub open spec fn font_of(a: Seq<SExprView>) -> Font {
    Font {
        size: match last_args(a, "size"@) {
            Some(s) => Some((num_or(s, 0, default_size()), num_or(s, 1, default_size()))),
            None => None,
        },
        thickness: match last_args(a, "thickness"@) {
            Some(t) => num_at(t, 0),
            None => None,
        },
        bold: has_sym(a, "bold"@),
        italic: has_sym(a, "italic"@),
    }
}

/// The last of `left` and `right` among the items.
pub open spec fn horizontal_of(xs: Seq<SExprView>) -> HorizontalJustify
    decreases xs.len(),
{
    if xs.len() == 0 {
        HorizontalJustify::Center
    } else if xs.last() == SExprView::Symbol("left"@) {
        HorizontalJustify::Left
    } else if xs.last() == SExprView::Symbol("right"@) {
        HorizontalJustify::Right
    } else {
        horizontal_of(xs.drop_last())
    }
}

/// The last of `top` and `bottom` among the items.
pub open spec fn vertical_of(xs: Seq<SExprView>) -> VerticalJustify
    decreases xs.len(),
{
    if xs.len() == 0 {
        VerticalJustify::Center
    } else if xs.last() == SExprView::Symbol("top"@) {
        VerticalJustify::Top
    } else if xs.last() == SExprView::Symbol("bottom"@) {
        VerticalJustify::Bottom
    } else {
        vertical_of(xs.drop_last())
    }
}

pub open spec fn justify_of(a: Seq<SExprView>) -> Justify {
    Justify { horizontal: horizontal_of(a), vertical: vertical_of(a), mirror: has_sym(a, "mirror"@) }
}

/// `hide` as a bare symbol or as a list.
pub open spec fn is_hide(v: SExprView) -> bool {
    args_v(v, "hide"@) is Some || v == SExprView::Symbol("hide"@)
}

pub open spec fn effects_of(a: Seq<SExprView>) -> Effects {
    Effects {
        font: match last_args(a, "font"@) {
            Some(f) => Some(font_of(f)),
            None => None,
        },
        justify: match last_args(a, "justify"@) {
            Some(j) => Some(justify_of(j)),
            None => None,
        },
        hide: exists|i: int| 0 <= i < a.len() && is_hide(#[trigger] a[i]),
    }
}

/// The last `effects` among the items.
pub open spec fn effects_in(xs: Seq<SExprView>) -> Option<Effects> {
    match last_args(xs, "effects"@) {
        Some(e) => Some(effects_of(e)),
        None => None,
    }
}

pub open spec fn stroke_of(a: Seq<SExprView>) -> Stroke {
    Stroke {
        width: match last_args(a, "width"@) {
            Some(w) => num_or(w, 0, zero_dec()),
            None => zero_dec(),
        },
        stroke_type: match last_args(a, "type"@) {
            Some(t) => match sym_at(t, 0) {
                Some(s) => StrokeType::from_keyword(s),
                None => StrokeType::Default,
            },
            None => StrokeType::Default,
        },
        color: None,
    }
}

pub open spec fn fill_of(a: Seq<SExprView>) -> Fill {
    Fill {
        fill_type: match last_args(a, "type"@) {
            Some(t) => match sym_at(t, 0) {
                Some(s) => FillType::from_keyword(s),
                None => FillType::NoFill,
            },
            None => FillType::NoFill,
        },
        color: None,
    }
}

/// The last `stroke` among the items, the default stroke where there is none.
pub open spec fn stroke_in(xs: Seq<SExprView>) -> Stroke {
    match last_args(xs, "stroke"@) {
        Some(a) => stroke_of(a),
        None => Stroke { width: zero_dec(), stroke_type: StrokeType::Default, color: None },
    }
}

pub open spec fn fill_in(xs: Seq<SExprView>) -> Fill {
    match last_args(xs, "fill"@) {
        Some(a) => fill_of(a),
        None => Fill { fill_type: FillType::NoFill, color: None },
    }
}

pub open spec fn rectangle_of(a: Seq<SExprView>) -> Rectangle {
    Rectangle { start: point_in(a, "start"@), end: point_in(a, "end"@), stroke: stroke_in(a), fill: fill_in(a) }
}

pub open spec fn circle_of(a: Seq<SExprView>) -> Circle {
    Circle {
        center: point_in(a, "center"@),
        radius: match last_args(a, "radius"@) {
            Some(r) => num_or(r, 0, zero_dec()),
            None => zero_dec(),
        },
        stroke: stroke_in(a),
        fill: fill_in(a),
    }
}

pub open spec fn arc_of(a: Seq<SExprView>) -> Arc {
    Arc {
        start: point_in(a, "start"@),
        mid: point_in(a, "mid"@),
        end: point_in(a, "end"@),
        stroke: stroke_in(a),
        fill: fill_in(a),
    }
}

/// The points of every `pts` item, in order.
pub open spec fn poly_points(a: Seq<SExprView>) -> Seq<Point>
    decreases a.len(),
{
    if a.len() == 0 {
        Seq::empty()
    } else {
        poly_points(a.drop_last()) + match args_v(a.last(), "pts"@) {
            Some(p) => children_v(p, "xy"@).map_values(|xy: Seq<SExprView>| point_args(xy)),
            None => Seq::empty(),
        }
    }
}

pub open spec fn polyline_matches(p: Polyline, a: Seq<SExprView>) -> bool {
    &&& p.points@ == poly_points(a)
    &&& p.stroke == stroke_in(a)
    &&& p.fill == fill_in(a)
}

pub open spec fn text_matches(t: Text, a: Seq<SExprView>) -> bool {
    &&& t.text@ == text_or_empty(str_at(a, 0))
    &&& t.position == position_in(a.skip(1))
    &&& t.effects == effects_in(a.skip(1))
}

/// A pin's name or number: its text and effects.
pub open spec fn pin_text_matches(t: PinText, a: Option<Seq<SExprView>>) -> bool {
    match a {
        Some(a) => t.text@ == text_or_empty(str_at(a, 0)) && t.effects == effects_in(a.skip(1)),
        None => t.text@ == Seq::<char>::empty() && t.effects is None,
    }
}

pub open spec fn pin_matches(p: Pin, a: Seq<SExprView>) -> bool {
    let rest = a.skip(2);
    &&& p.electrical_type == match sym_at(a, 0) {
        Some(s) => PinElectricalType::from_keyword(s),
        None => PinElectricalType::Unspecified,
    }
    &&& p.graphic_style == match sym_at(a, 1) {
        Some(s) => PinGraphicStyle::from_keyword(s),
        None => PinGraphicStyle::Line,
    }
    &&& p.position == position_in(rest)
    &&& p.length == match last_args(rest, "length"@) {
        Some(l) => num_or(l, 0, zero_dec()),
        None => zero_dec(),
    }
    &&& pin_text_matches(p.name, last_args(rest, "name"@))
    &&& pin_text_matches(p.number, last_args(rest, "number"@))
    &&& p.hide == has_sym(rest, "hide"@)
}

pub open spec fn is_graphic(v: SExprView) -> bool {
    args_v(v, "rectangle"@) is Some || args_v(v, "polyline"@) is Some || args_v(v, "circle"@) is Some || args_v(
        v,
        "arc"@,
    ) is Some || args_v(v, "text"@) is Some
}

/// A drawing item as read from its list.
pub open spec fn graphic_matches(g: GraphicItem, v: SExprView) -> bool {
    if args_v(v, "rectangle"@) is Some {
        g == GraphicItem::Rectangle(rectangle_of(args_v(v, "rectangle"@)->Some_0))
    } else if args_v(v, "polyline"@) is Some {
        g matches GraphicItem::Polyline(p) && polyline_matches(p, args_v(v, "polyline"@)->Some_0)
    } else if args_v(v, "circle"@) is Some {
        g == GraphicItem::Circle(circle_of(args_v(v, "circle"@)->Some_0))
    } else if args_v(v, "arc"@) is Some {
        g == GraphicItem::Arc(arc_of(args_v(v, "arc"@)->Some_0))
    } else {
        g matches GraphicItem::Text(t) && text_matches(t, args_v(v, "text"@)->Some_0)
    }
}

pub open spec fn graphic_items(xs: Seq<SExprView>) -> Seq<SExprView> {
    xs.filter(|v: SExprView| is_graphic(v))
}

pub(crate) proof fn lemma_views_len(xs: Seq<SExpr>)
    ensures
        views(xs).len() == xs.len(),
        forall|i: int| 0 <= i < xs.len() ==> #[trigger] views(xs)[i] == xs[i]@,
{
}

/// The arguments of `e` when it is a list headed by `name`.
pub(crate) fn args_exec<'a>(e: &'a SExpr, name: &str) -> (r: Option<&'a [SExpr]>)
    ensures
        match args_v(e@, name@) {
            Some(a) => r matches Some(s) && views(s@) == a,
            None => r is None,
        },
{
    proof {
        lemma_args(*e, name@);
    }
    e.as_list_starting_with(name)
}

/// The arguments of the last item from `from` on headed by `name`.
pub(crate) fn last_args_exec<'a>(xs: &'a [SExpr], from: usize, name: &str) -> (r: Option<&'a [SExpr]>)
    requires
        from <= xs@.len(),
    ensures
        match last_args(views(xs@).skip(from as int), name@) {
            Some(a) => r matches Some(s) && views(s@) == a,
            None => r is None,
        },
{
    let ghost v = views(xs@);
    proof {
        lemma_views_len(xs@);
    }
    let mut k: usize = xs.len();
    assert(v.skip(from as int) =~= v.subrange(from as int, k as int));
    while k > from
        invariant
            from <= k <= xs@.len(),
            v == views(xs@),
            v.len() == xs@.len(),
            last_args(v.skip(from as int), name@) == last_args(v.subrange(from as int, k as int), name@),
        decreases k,
    {
        let ghost sub = v.subrange(from as int, k as int);
        assert(sub.drop_last() =~= v.subrange(from as int, k - 1));
        assert(sub.last() == xs@[k - 1]@);
        match args_exec(&xs[k - 1], name) {
            Some(a) => {
                return Some(a);
            },
            None => {},
        }
        k = k - 1;
    }
    None
}

fn num_or_exec(a: &[SExpr], k: usize, d: Decimal) -> (r: Decimal)
    ensures
        r == num_or(views(a@), k as int, d),
{
    proof {
        lemma_views_len(a@);
    }
    if k < a.len() {
        match a[k].as_number() {
            Some(n) => n,
            None => d,
        }
    } else {
        d
    }
}

pub(crate) fn num_at_exec(a: &[SExpr], k: usize) -> (r: Option<Decimal>)
    ensures
        r == num_at(views(a@), k as int),
{
    proof {
        lemma_views_len(a@);
    }
    if k < a.len() {
        a[k].as_number()
    } else {
        None
    }
}

pub(crate) fn str_at_exec(a: &[SExpr], k: usize) -> (r: Option<String>)
    ensures
        match str_at(views(a@), k as int) {
            Some(t) => r matches Some(x) && x@ == t,
            None => r is None,
        },
{
    proof {
        lemma_views_len(a@);
    }
    if k < a.len() {
        match a[k].as_string() {
            Some(t) => Some(String::from_str(t)),
            None => None,
        }
    } else {
        None
    }
}

fn str_or_empty_exec(a: &[SExpr], k: usize) -> (r: String)
    ensures
        r@ == text_or_empty(str_at(views(a@), k as int)),
{
    match str_at_exec(a, k) {
        Some(t) => t,
        None => String::new(),
    }
}

pub(crate) fn sym_at_exec<'a>(a: &'a [SExpr], k: usize) -> (r: Option<&'a str>)
    ensures
        match sym_at(views(a@), k as int) {
            Some(t) => r matches Some(x) && x@ == t,
            None => r is None,
        },
{
    proof {
        lemma_views_len(a@);
    }
    if k < a.len() {
        a[k].as_symbol()
    } else {
        None
    }
}

fn sym_is(e: &SExpr, s: &str) -> (r: bool)
    ensures
        r == (e@ == SExprView::Symbol(s@)),
{
    match e.as_symbol() {
        Some(t) => str_eq(t, s),
        None => false,
    }
}

/// Whether the bare symbol `s` is among the items from `from` on.
fn has_sym_exec(xs: &[SExpr], from: usize, s: &str) -> (r: bool)
    requires
        from <= xs@.len(),
    ensures
        r == has_sym(views(xs@).skip(from as int), s@),
{
    let ghost v = views(xs@).skip(from as int);
    proof {
        lemma_views_len(xs@);
    }
    let mut k: usize = from;
    while k < xs.len()
        invariant
            from <= k <= xs@.len(),
            v == views(xs@).skip(from as int),
            v.len() == xs@.len() - from,
            forall|i: int| 0 <= i < k - from ==> v[i] != SExprView::Symbol(s@),
        decreases xs@.len() - k,
    {
        assert(v[k - from] == xs@[k as int]@);
        if sym_is(&xs[k], s) {
            return true;
        }
        k = k + 1;
    }
    false
}

fn position_of_exec(a: &[SExpr]) -> (r: Position)
    ensures
        r == position_of(views(a@)),
{
    Position {
        x: num_or_exec(a, 0, Decimal { mantissa: 0, scale: 0 }),
        y: num_or_exec(a, 1, Decimal { mantissa: 0, scale: 0 }),
        angle: num_or_exec(a, 2, Decimal { mantissa: 0, scale: 0 }),
    }
}

fn point_args_exec(a: &[SExpr]) -> (r: Point)
    ensures
        r == point_args(views(a@)),
{
    Point { x: num_or_exec(a, 0, Decimal { mantissa: 0, scale: 0 }), y: num_or_exec(a, 1, Decimal { mantissa: 0, scale: 0 }) }
}

fn position_in_exec(xs: &[SExpr], from: usize) -> (r: Position)
    requires
        from <= xs@.len(),
    ensures
        r == position_in(views(xs@).skip(from as int)),
{
    match last_args_exec(xs, from, "at") {
        Some(a) => position_of_exec(a),
        None => Position { x: Decimal { mantissa: 0, scale: 0 }, y: Decimal { mantissa: 0, scale: 0 }, angle: Decimal { mantissa: 0, scale: 0 } },
    }
}

fn point_in_exec(xs: &[SExpr], name: &str) -> (r: Point)
    ensures
        r == point_in(views(xs@), name@),
{
    assert(views(xs@).skip(0) =~= views(xs@));
    match last_args_exec(xs, 0, name) {
        Some(a) => point_args_exec(a),
        None => Point { x: Decimal { mantissa: 0, scale: 0 }, y: Decimal { mantissa: 0, scale: 0 } },
    }
}

fn font_exec(a: &[SExpr]) -> (r: Font)
    ensures
        r == font_of(views(a@)),
{
    assert(views(a@).skip(0) =~= views(a@));
    let size = match last_args_exec(a, 0, "size") {
        Some(sz) => Some((num_or_exec(sz, 0, Decimal { mantissa: 127, scale: 2 }), num_or_exec(sz, 1, Decimal { mantissa: 127, scale: 2 }))),
        None => None,
    };
    let thickness = match last_args_exec(a, 0, "thickness") {
        Some(t) => num_at_exec(t, 0),
        None => None,
    };
    Font { size, thickness, bold: has_sym_exec(a, 0, "bold"), italic: has_sym_exec(a, 0, "italic") }
}

fn justify_exec(a: &[SExpr]) -> (r: Justify)
    ensures
        r == justify_of(views(a@)),
{
    let ghost v = views(a@);
    proof {
        lemma_views_len(a@);
    }
    assert(v.take(v.len() as int) =~= v);
    proof {
        reveal_strlit("left");
        reveal_strlit("right");
        reveal_strlit("top");
        reveal_strlit("bottom");
        assert("left"@.len() != "right"@.len());
        assert("top"@.len() != "bottom"@.len());
    }
    let mut horizontal = HorizontalJustify::Center;
    let mut vertical = VerticalJustify::Center;
    let mut h_found = false;
    let mut v_found = false;
    let mut k: usize = a.len();
    while k > 0
        invariant
            k <= a@.len(),
            v == views(a@),
            v.len() == a@.len(),
            h_found ==> horizontal == horizontal_of(v),
            !h_found ==> horizontal == HorizontalJustify::Center,
            !v_found ==> vertical == VerticalJustify::Center,
            !h_found ==> horizontal_of(v) == horizontal_of(v.take(k as int)),
            v_found ==> vertical == vertical_of(v),
            !v_found ==> vertical_of(v) == vertical_of(v.take(k as int)),
        decreases k,
    {
        let ghost t = v.take(k as int);
        assert(t.drop_last() =~= v.take(k - 1));
        assert(t.last() == a@[k - 1]@);
        if !h_found {
            if sym_is(&a[k - 1], "left") {
                horizontal = HorizontalJustify::Left;
                h_found = true;
            } else if sym_is(&a[k - 1], "right") {
                horizontal = HorizontalJustify::Right;
                h_found = true;
            }
        }
        if !v_found {
            if sym_is(&a[k - 1], "top") {
                vertical = VerticalJustify::Top;
                v_found = true;
            } else if sym_is(&a[k - 1], "bottom") {
                vertical = VerticalJustify::Bottom;
                v_found = true;
            }
        }
        k = k - 1;
    }
    assert(v.take(0) =~= Seq::<SExprView>::empty());
    assert(horizontal_of(v.take(0)) == HorizontalJustify::Center);
    assert(vertical_of(v.take(0)) == VerticalJustify::Center);
    assert(v.skip(0) =~= v);
    Justify { horizontal, vertical, mirror: has_sym_exec(a, 0, "mirror") }
}

fn effects_exec(a: &[SExpr]) -> (r: Effects)
    ensures
        r == effects_of(views(a@)),
{
    let ghost v = views(a@);
    proof {
        lemma_views_len(a@);
    }
    assert(v.skip(0) =~= v);
    let font = match last_args_exec(a, 0, "font") {
        Some(f) => Some(font_exec(f)),
        None => None,
    };
    let justify = match last_args_exec(a, 0, "justify") {
        Some(j) => Some(justify_exec(j)),
        None => None,
    };
    let mut hidden = false;
    let mut k: usize = 0;
    while k < a.len()
        invariant
            k <= a@.len(),
            v == views(a@),
            v.len() == a@.len(),
            hidden == exists|i: int| 0 <= i < k && is_hide(#[trigger] v[i]),
        decreases a@.len() - k,
    {
        assert(v[k as int] == a@[k as int]@);
        if args_exec(&a[k], "hide").is_some() || sym_is(&a[k], "hide") {
            hidden = true;
        }
        k = k + 1;
    }
    Effects { font, justify, hide: hidden }
}

fn effects_in_exec(xs: &[SExpr], from: usize) -> (r: Option<Effects>)
    requires
        from <= xs@.len(),
    ensures
        r == effects_in(views(xs@).skip(from as int)),
{
    match last_args_exec(xs, from, "effects") {
        Some(e) => Some(effects_exec(e)),
        None => None,
    }
}

fn stroke_in_exec(xs: &[SExpr]) -> (r: Stroke)
    ensures
        r == stroke_in(views(xs@)),
{
    assert(views(xs@).skip(0) =~= views(xs@));
    match last_args_exec(xs, 0, "stroke") {
        Some(a) => {
            assert(views(a@).skip(0) =~= views(a@));
            let width = match last_args_exec(a, 0, "width") {
                Some(w) => num_or_exec(w, 0, Decimal { mantissa: 0, scale: 0 }),
                None => Decimal { mantissa: 0, scale: 0 },
            };
            let stroke_type = match last_args_exec(a, 0, "type") {
                Some(t) => match sym_at_exec(t, 0) {
                    Some(s) => StrokeType::from_str(s),
                    None => StrokeType::Default,
                },
                None => StrokeType::Default,
            };
            Stroke { width, stroke_type, color: None }
        },
        None => Stroke { width: Decimal { mantissa: 0, scale: 0 }, stroke_type: StrokeType::Default, color: None },
    }
}

fn fill_in_exec(xs: &[SExpr]) -> (r: Fill)
    ensures
        r == fill_in(views(xs@)),
{
    assert(views(xs@).skip(0) =~= views(xs@));
    match last_args_exec(xs, 0, "fill") {
        Some(a) => {
            assert(views(a@).skip(0) =~= views(a@));
            let fill_type = match last_args_exec(a, 0, "type") {
                Some(t) => match sym_at_exec(t, 0) {
                    Some(s) => FillType::from_str(s),
                    None => FillType::NoFill,
                },
                None => FillType::NoFill,
            };
            Fill { fill_type, color: None }
        },
        None => Fill { fill_type: FillType::NoFill, color: None },
    }
}

fn rectangle_exec(a: &[SExpr]) -> (r: Rectangle)
    ensures
        r == rectangle_of(views(a@)),
{
    Rectangle { start: point_in_exec(a, "start"), end: point_in_exec(a, "end"), stroke: stroke_in_exec(a), fill: fill_in_exec(a) }
}

fn circle_exec(a: &[SExpr]) -> (r: Circle)
    ensures
        r == circle_of(views(a@)),
{
    assert(views(a@).skip(0) =~= views(a@));
    let radius = match last_args_exec(a, 0, "radius") {
        Some(x) => num_or_exec(x, 0, Decimal { mantissa: 0, scale: 0 }),
        None => Decimal { mantissa: 0, scale: 0 },
    };
    Circle { center: point_in_exec(a, "center"), radius, stroke: stroke_in_exec(a), fill: fill_in_exec(a) }
}

fn arc_exec(a: &[SExpr]) -> (r: Arc)
    ensures
        r == arc_of(views(a@)),
{
    Arc {
        start: point_in_exec(a, "start"),
        mid: point_in_exec(a, "mid"),
        end: point_in_exec(a, "end"),
        stroke: stroke_in_exec(a),
        fill: fill_in_exec(a),
    }
}

fn polyline_exec(a: &[SExpr]) -> (r: Polyline)
    ensures
        polyline_matches(r, views(a@)),
{
    let ghost v = views(a@);
    proof {
        lemma_views_len(a@);
    }
    let mut points: Vec<Point> = Vec::new();
    let mut k: usize = 0;
    while k < a.len()
        invariant
            k <= a@.len(),
            v == views(a@),
            v.len() == a@.len(),
            points@ == poly_points(v.take(k as int)),
        decreases a@.len() - k,
    {
        assert(v.take(k + 1).drop_last() =~= v.take(k as int));
        assert(v.take(k + 1).last() == a@[k as int]@);
        match args_exec(&a[k], "pts") {
            Some(p) => {
                let ghost pv = views(p@);
                let ghost before = points@;
                proof {
                    lemma_views_len(p@);
                }
                let mut j: usize = 0;
                while j < p.len()
                    invariant
                        j <= p@.len(),
                        pv == views(p@),
                        pv.len() == p@.len(),
                        points@ == before + children_v(pv.take(j as int), "xy"@).map_values(
                            |xy: Seq<SExprView>| point_args(xy),
                        ),
                    decreases p@.len() - j,
                {
                    assert(pv.take(j + 1).drop_last() =~= pv.take(j as int));
                    assert(pv.take(j + 1).last() == p@[j as int]@);
                    let ghost prev = children_v(pv.take(j as int), "xy"@);
                    match args_exec(&p[j], "xy") {
                        Some(xy) => {
                            points.push(point_args_exec(xy));
                            assert((prev + seq![views(xy@)]).map_values(|q: Seq<SExprView>| point_args(q)) =~= prev.map_values(
                                |q: Seq<SExprView>| point_args(q),
                            ).push(point_args(views(xy@))));
                        },
                        None => {
                            assert(prev + Seq::<Seq<SExprView>>::empty() =~= prev);
                        },
                    }
                    j = j + 1;
                }
                assert(pv.take(p@.len() as int) =~= pv);
            },
            None => {
                assert(poly_points(v.take(k + 1)) =~= poly_points(v.take(k as int)));
            },
        }
        k = k + 1;
    }
    assert(v.take(a@.len() as int) =~= v);
    Polyline { points, stroke: stroke_in_exec(a), fill: fill_in_exec(a) }
}

/// Why an item cannot be read: a required field is missing, or the item is too short to
/// be read at all.
pub enum ReadProblem {
    Missing(Seq<char>),
    Unreadable,
}

/// The first problem among the items, in order.
pub open spec fn first_problem(xs: Seq<SExprView>, f: spec_fn(SExprView) -> Option<ReadProblem>) -> Option<ReadProblem>
    decreases xs.len(),
{
    if xs.len() == 0 {
        None
    } else {
        match f(xs[0]) {
            Some(p) => Some(p),
            None => first_problem(xs.skip(1), f),
        }
    }
}

/// A pin needs its two kinds, and each of its names and numbers a text.
pub open spec fn pin_item_problem(x: SExprView) -> Option<ReadProblem> {
    if args_v(x, "at"@) is Some {
        None
    } else if args_v(x, "length"@) is Some {
        None
    } else if args_v(x, "name"@) is Some {
        if args_v(x, "name"@)->Some_0.len() == 0 { Some(ReadProblem::Unreadable) } else { None }
    } else if args_v(x, "number"@) is Some {
        if args_v(x, "number"@)->Some_0.len() == 0 { Some(ReadProblem::Unreadable) } else { None }
    } else {
        None
    }
}

pub open spec fn pin_problem(a: Seq<SExprView>) -> Option<ReadProblem> {
    if a.len() < 2 {
        Some(ReadProblem::Unreadable)
    } else {
        first_problem(a.skip(2), |x: SExprView| pin_item_problem(x))
    }
}

pub open spec fn unit_item_problem(x: SExprView) -> Option<ReadProblem> {
    if args_v(x, "rectangle"@) is Some || args_v(x, "polyline"@) is Some || args_v(x, "circle"@) is Some || args_v(
        x,
        "arc"@,
    ) is Some {
        None
    } else if args_v(x, "text"@) is Some {
        if args_v(x, "text"@)->Some_0.len() == 0 { Some(ReadProblem::Unreadable) } else { None }
    } else if args_v(x, "pin"@) is Some {
        pin_problem(args_v(x, "pin"@)->Some_0)
    } else {
        None
    }
}

/// A unit needs its name.
pub open spec fn unit_problem(a: Seq<SExprView>) -> Option<ReadProblem> {
    if str_at(a, 0) is None {
        Some(ReadProblem::Missing("unit name"@))
    } else {
        first_problem(a.skip(1), |x: SExprView| unit_item_problem(x))
    }
}

/// Where the name of a property stands: after `private`, if it is there.
pub open spec fn prop_name_index(a: Seq<SExprView>) -> int {
    if sym_at(a, 0) == Some("private"@) {
        1
    } else {
        0
    }
}

/// A property needs its name, and a value slot after it.
pub open spec fn prop_problem(a: Seq<SExprView>) -> Option<ReadProblem> {
    let i = prop_name_index(a);
    if str_at(a, i) is None {
        Some(ReadProblem::Missing("property name"@))
    } else if a.len() < i + 2 {
        Some(ReadProblem::Unreadable)
    } else {
        None
    }
}

pub open spec fn symbol_item_problem(x: SExprView) -> Option<ReadProblem> {
    if args_v(x, "pin_numbers"@) is Some || args_v(x, "pin_names"@) is Some || args_v(x, "exclude_from_sim"@) is Some
        || args_v(x, "in_bom"@) is Some || args_v(x, "on_board"@) is Some {
        None
    } else if args_v(x, "property"@) is Some {
        prop_problem(args_v(x, "property"@)->Some_0)
    } else if args_v(x, "symbol"@) is Some {
        unit_problem(args_v(x, "symbol"@)->Some_0)
    } else {
        None
    }
}

/// A symbol needs its name; then the first problem of its properties and units.
pub open spec fn symbol_problem(a: Seq<SExprView>) -> Option<ReadProblem> {
    if str_at(a, 0) is None {
        Some(ReadProblem::Missing("symbol name"@))
    } else {
        first_problem(a.skip(1), |x: SExprView| symbol_item_problem(x))
    }
}

pub open spec fn lib_item_problem(x: SExprView) -> Option<ReadProblem> {
    if args_v(x, "version"@) is Some || args_v(x, "generator"@) is Some || args_v(x, "generator_version"@) is Some {
        None
    } else if args_v(x, "symbol"@) is Some {
        symbol_problem(args_v(x, "symbol"@)->Some_0)
    } else {
        None
    }
}

pub open spec fn lib_problem(a: Seq<SExprView>) -> Option<ReadProblem> {
    first_problem(a, |x: SExprView| lib_item_problem(x))
}

pub open spec fn not_unreadable(p: Option<ReadProblem>) -> bool {
    !(p matches Some(ReadProblem::Unreadable))
}

proof fn lemma_first_problem_step(v: Seq<SExprView>, k: int, f: spec_fn(SExprView) -> Option<ReadProblem>)
    requires
        0 <= k < v.len(),
    ensures
        first_problem(v.skip(k), f) == match f(v[k]) {
            Some(p) => Some(p),
            None => first_problem(v.skip(k + 1), f),
        },
{
    assert(v.skip(k).skip(1) =~= v.skip(k + 1));
    assert(v.skip(k)[0] == v[k]);
}

fn text_exec(a: &[SExpr]) -> (r: Text)
    requires
        a@.len() > 0,
    ensures
        text_matches(r, views(a@)),
{
    proof {
        lemma_views_len(a@);
    }
    Text { text: str_or_empty_exec(a, 0), position: position_in_exec(a, 1), effects: effects_in_exec(a, 1) }
}

fn pin_text_exec(a: Option<&[SExpr]>) -> (r: PinText)
    requires
        a matches Some(x) ==> x@.len() > 0,
    ensures
        pin_text_matches(
            r,
            match a {
                Some(x) => Some(views(x@)),
                None => None,
            },
        ),
{
    match a {
        Some(x) => {
            proof {
                lemma_views_len(x@);
            }
            PinText { text: str_or_empty_exec(x, 0), effects: effects_in_exec(x, 1) }
        },
        None => PinText { text: String::new(), effects: None },
    }
}

/// The arguments of the last `name` or `number` item are not empty when no pin item
/// is unreadable.
proof fn lemma_last_nonempty(v: Seq<SExprView>, name: Seq<char>)
    requires
        first_problem(v, |x: SExprView| pin_item_problem(x)) is None,
        name == "name"@ || name == "number"@,
    ensures
        last_args(v, name) matches Some(a) ==> a.len() > 0,
    decreases v.len(),
{
    reveal_strlit("at");
    reveal_strlit("length");
    reveal_strlit("name");
    reveal_strlit("number");
    assert("at"@.len() == 2 && "length"@.len() == 6 && "name"@.len() == 4 && "number"@.len() == 6);
    assert("length"@[0] != "number"@[0]);
    if v.len() > 0 {
        lemma_no_problem_all(v, |x: SExprView| pin_item_problem(x));
        let f = |x: SExprView| pin_item_problem(x);
        let x = v.last();
        assert(f(v[v.len() - 1]) is None);
        assert(pin_item_problem(x) is None);
        if args_v(x, name) is None {
            lemma_no_problem_prefix(v, |x: SExprView| pin_item_problem(x));
            lemma_last_nonempty(v.drop_last(), name);
        }
    }
}

proof fn lemma_no_problem_all(v: Seq<SExprView>, f: spec_fn(SExprView) -> Option<ReadProblem>)
    requires
        first_problem(v, f) is None,
    ensures
        forall|i: int| 0 <= i < v.len() ==> #[trigger] f(v[i]) is None,
    decreases v.len(),
{
    if v.len() > 0 {
        lemma_no_problem_all(v.skip(1), f);
        assert forall|i: int| 0 <= i < v.len() implies #[trigger] f(v[i]) is None by {
            if i > 0 {
                assert(v.skip(1)[i - 1] == v[i]);
            }
        }
    }
}

proof fn lemma_all_no_problem(v: Seq<SExprView>, f: spec_fn(SExprView) -> Option<ReadProblem>)
    requires
        forall|i: int| 0 <= i < v.len() ==> #[trigger] f(v[i]) is None,
    ensures
        first_problem(v, f) is None,
    decreases v.len(),
{
    if v.len() > 0 {
        assert forall|i: int| 0 <= i < v.skip(1).len() implies #[trigger] f(v.skip(1)[i]) is None by {
            assert(v.skip(1)[i] == v[i + 1]);
        }
        lemma_all_no_problem(v.skip(1), f);
    }
}

proof fn lemma_no_problem_prefix(v: Seq<SExprView>, f: spec_fn(SExprView) -> Option<ReadProblem>)
    requires
        v.len() > 0,
        first_problem(v, f) is None,
    ensures
        first_problem(v.drop_last(), f) is None,
{
    lemma_no_problem_all(v, f);
    assert forall|i: int| 0 <= i < v.drop_last().len() implies #[trigger] f(v.drop_last()[i]) is None by {
        assert(v.drop_last()[i] == v[i]);
    }
    lemma_all_no_problem(v.drop_last(), f);
}

fn pin_exec(a: &[SExpr]) -> (r: Pin)
    requires
        pin_problem(views(a@)) is None,
    ensures
        pin_matches(r, views(a@)),
{
    let ghost v = views(a@);
    proof {
        lemma_views_len(a@);
        lemma_last_nonempty(v.skip(2), "name"@);
        lemma_last_nonempty(v.skip(2), "number"@);
        reveal_strlit("name");
        reveal_strlit("number");
    }
    let electrical_type = match sym_at_exec(a, 0) {
        Some(t) => PinElectricalType::from_str(t),
        None => PinElectricalType::Unspecified,
    };
    let graphic_style = match sym_at_exec(a, 1) {
        Some(t) => PinGraphicStyle::from_str(t),
        None => PinGraphicStyle::Line,
    };
    let length = match last_args_exec(a, 2, "length") {
        Some(l) => num_or_exec(l, 0, Decimal { mantissa: 0, scale: 0 }),
        None => Decimal { mantissa: 0, scale: 0 },
    };
    let name = pin_text_exec(last_args_exec(a, 2, "name"));
    let number = pin_text_exec(last_args_exec(a, 2, "number"));
    Pin {
        electrical_type,
        graphic_style,
        position: position_in_exec(a, 2),
        length,
        name,
        number,
        hide: has_sym_exec(a, 2, "hide"),
    }
}

pub open spec fn unit_matches(u: SymbolUnit, a: Seq<SExprView>) -> bool {
    let rest = a.skip(1);
    let gs = graphic_items(rest);
    let ps = children_v(rest, "pin"@);
    &&& str_at(a, 0) == Some(u.name@)
    &&& u.graphics@.len() == gs.len()
    &&& forall|k: int| 0 <= k < gs.len() ==> graphic_matches(#[trigger] u.graphics@[k], gs[k])
    &&& u.pins@.len() == ps.len()
    &&& forall|k: int| 0 <= k < ps.len() ==> pin_matches(#[trigger] u.pins@[k], ps[k])
}

fn graphic_exec(x: &SExpr) -> (r: Option<GraphicItem>)
    requires
        unit_item_problem(x@) is None,
    ensures
        is_graphic(x@) ==> (r matches Some(g) && graphic_matches(g, x@)),
        !is_graphic(x@) ==> r is None,
{
    if let Some(a) = args_exec(x, "rectangle") {
        return Some(GraphicItem::Rectangle(rectangle_exec(a)));
    }
    if let Some(a) = args_exec(x, "polyline") {
        return Some(GraphicItem::Polyline(polyline_exec(a)));
    }
    if let Some(a) = args_exec(x, "circle") {
        return Some(GraphicItem::Circle(circle_exec(a)));
    }
    if let Some(a) = args_exec(x, "arc") {
        return Some(GraphicItem::Arc(arc_exec(a)));
    }
    if let Some(a) = args_exec(x, "text") {
        return Some(GraphicItem::Text(text_exec(a)));
    }
    None
}

fn unit_exec(a: &[SExpr]) -> (r: Result<SymbolUnit, SymbolError>)
    requires
        not_unreadable(unit_problem(views(a@))),
    ensures
        match unit_problem(views(a@)) {
            Some(ReadProblem::Missing(f)) => r matches Err(SymbolError::MissingField(m)) && m@ == f,
            Some(ReadProblem::Unreadable) => true,
            None => r matches Ok(u) && unit_matches(u, views(a@)),
        },
{
    let ghost v = views(a@);
    proof {
        lemma_views_len(a@);
        reveal_strlit("unit name");
    }
    let name = match str_at_exec(a, 0) {
        Some(t) => t,
        None => {
            return Err(SymbolError::MissingField(String::from_str("unit name")));
        },
    };
    let ghost rest = v.skip(1);
    proof {
        let f = |x: SExprView| unit_item_problem(x);
        lemma_unit_items_only_unreadable(rest);
        lemma_no_problem_all(rest, f);
        assert forall|i: int| 0 <= i < rest.len() implies unit_item_problem(#[trigger] rest[i]) is None by {
            assert(f(rest[i]) is None);
        }
    }
    let mut graphics: Vec<GraphicItem> = Vec::new();
    let mut pins: Vec<Pin> = Vec::new();
    let mut k: usize = 1;
    while k < a.len()
        invariant
            1 <= k <= a@.len(),
            v == views(a@),
            v.len() == a@.len(),
            rest == v.skip(1),
            forall|i: int| 0 <= i < rest.len() ==> unit_item_problem(#[trigger] rest[i]) is None,
            graphics@.len() == graphic_items(rest.take(k - 1)).len(),
            forall|i: int|
                0 <= i < graphics@.len() ==> graphic_matches(#[trigger] graphics@[i], graphic_items(rest.take(k - 1))[i]),
            pins@.len() == children_v(rest.take(k - 1), "pin"@).len(),
            forall|i: int| 0 <= i < pins@.len() ==> pin_matches(#[trigger] pins@[i], children_v(rest.take(k - 1), "pin"@)[i]),
        decreases a@.len() - k,
    {
        let ghost t = rest.take(k as int);
        assert(t.drop_last() =~= rest.take(k - 1));
        assert(t.last() == a@[k as int]@);
        assert(rest[k - 1] == a@[k as int]@);
        assert(unit_item_problem(a@[k as int]@) is None);
        let ghost gprev = graphic_items(rest.take(k - 1));
        let ghost pprev = children_v(rest.take(k - 1), "pin"@);
        proof {
            reveal(Seq::filter);
        }
        match graphic_exec(&a[k]) {
            Some(g) => {
                graphics.push(g);
                assert(graphic_items(t) == gprev.push(a@[k as int]@));
            },
            None => {
                assert(graphic_items(t) == gprev);
            },
        }
        match args_exec(&a[k], "pin") {
            Some(p) => {
                proof {
                    reveal_strlit("pin");
                    reveal_strlit("rectangle");
                    reveal_strlit("polyline");
                    reveal_strlit("circle");
                    reveal_strlit("arc");
                    reveal_strlit("text");
                    assert("pin"@.len() == 3 && "rectangle"@.len() == 9 && "polyline"@.len() == 8);
                    assert("circle"@.len() == 6 && "arc"@.len() == 3 && "text"@.len() == 4);
                    assert("pin"@[0] != "arc"@[0]);
                }
                let pin = pin_exec(p);
                pins.push(pin);
                assert(children_v(t, "pin"@) == pprev + seq![views(p@)]);
            },
            None => {
                assert(children_v(t, "pin"@) =~= pprev);
            },
        }
        k = k + 1;
    }
    assert(rest.take(a@.len() - 1) =~= rest);
    Ok(SymbolUnit { name, graphics, pins })
}

/// Items whose problems can only make them unreadable give no missing field.
proof fn lemma_only_unreadable(v: Seq<SExprView>, f: spec_fn(SExprView) -> Option<ReadProblem>)
    requires
        forall|x: SExprView| #[trigger] f(x) is None || f(x) == Some(ReadProblem::Unreadable),
    ensures
        first_problem(v, f) is None || first_problem(v, f) == Some(ReadProblem::Unreadable),
    decreases v.len(),
{
    if v.len() > 0 {
        lemma_only_unreadable(v.skip(1), f);
    }
}

proof fn lemma_pin_only_unreadable(a: Seq<SExprView>)
    ensures
        pin_problem(a) is None || pin_problem(a) == Some(ReadProblem::Unreadable),
{
    if a.len() >= 2 {
        lemma_only_unreadable(a.skip(2), |x: SExprView| pin_item_problem(x));
    }
}

proof fn lemma_unit_items_only_unreadable(v: Seq<SExprView>)
    ensures
        first_problem(v, |x: SExprView| unit_item_problem(x)) is None || first_problem(
            v,
            |x: SExprView| unit_item_problem(x),
        ) == Some(ReadProblem::Unreadable),
{
    let f = |x: SExprView| unit_item_problem(x);
    assert forall|x: SExprView| #[trigger] f(x) is None || f(x) == Some(ReadProblem::Unreadable) by {
        if args_v(x, "pin"@) is Some {
            lemma_pin_only_unreadable(args_v(x, "pin"@)->Some_0);
        }
    }
    lemma_only_unreadable(v, f);
}

pub open spec fn prop_matches(p: Property, a: Seq<SExprView>) -> bool {
    let i = prop_name_index(a);
    let rest = a.skip(i + 2);
    &&& str_at(a, i) == Some(p.name@)
    &&& p.value@ == text_or_empty(str_at(a, i + 1))
    &&& p.position == match last_args(rest, "at"@) {
        Some(x) => Some(position_of(x)),
        None => None,
    }
    &&& p.effects == effects_in(rest)
}

fn prop_exec(a: &[SExpr]) -> (r: Result<Property, SymbolError>)
    requires
        not_unreadable(prop_problem(views(a@))),
    ensures
        match prop_problem(views(a@)) {
            Some(ReadProblem::Missing(f)) => r matches Err(SymbolError::MissingField(m)) && m@ == f,
            Some(ReadProblem::Unreadable) => true,
            None => r matches Ok(p) && prop_matches(p, views(a@)),
        },
{
    proof {
        lemma_views_len(a@);
        reveal_strlit("property name");
    }
    let i: usize = match sym_at_exec(a, 0) {
        Some(t) => if str_eq(t, "private") {
            1
        } else {
            0
        },
        None => 0,
    };
    let name = match str_at_exec(a, i) {
        Some(t) => t,
        None => {
            return Err(SymbolError::MissingField(String::from_str("property name")));
        },
    };
    let value = str_or_empty_exec(a, i + 1);
    let position = match last_args_exec(a, i + 2, "at") {
        Some(x) => Some(position_of_exec(x)),
        None => None,
    };
    Ok(Property { name, value, position, effects: effects_in_exec(a, i + 2) })
}

/// The arguments of every `pin_names` item, one after another.
pub open spec fn pin_names_args(xs: Seq<SExprView>) -> Seq<SExprView>
    decreases xs.len(),
{
    if xs.len() == 0 {
        Seq::empty()
    } else {
        pin_names_args(xs.drop_last()) + match args_v(xs.last(), "pin_names"@) {
            Some(a) => a,
            None => Seq::empty(),
        }
    }
}

/// The last `offset` with a number among the items.
pub open spec fn last_offset(xs: Seq<SExprView>) -> Option<Decimal>
    decreases xs.len(),
{
    if xs.len() == 0 {
        None
    } else if args_v(xs.last(), "offset"@) is Some && num_at(args_v(xs.last(), "offset"@)->Some_0, 0) is Some {
        num_at(args_v(xs.last(), "offset"@)->Some_0, 0)
    } else {
        last_offset(xs.drop_last())
    }
}

pub open spec fn flag_yes(xs: Seq<SExprView>, name: Seq<char>) -> bool {
    match last_args(xs, name) {
        Some(x) => sym_at(x, 0) == Some("yes"@),
        None => false,
    }
}

pub open spec fn flag_not_no(xs: Seq<SExprView>, name: Seq<char>) -> bool {
    match last_args(xs, name) {
        Some(x) => sym_at(x, 0) != Some("no"@),
        None => true,
    }
}

pub open spec fn symbol_matches(s: Symbol, a: Seq<SExprView>) -> bool {
    let rest = a.skip(1);
    let props = children_v(rest, "property"@);
    let units = children_v(rest, "symbol"@);
    &&& str_at(a, 0) == Some(s.name@)
    &&& s.extends is None
    &&& s.pin_numbers_hide == match last_args(rest, "pin_numbers"@) {
        Some(pn) => exists|i: int| 0 <= i < pn.len() && args_v(#[trigger] pn[i], "hide"@) is Some,
        None => false,
    }
    &&& s.pin_names_offset == match last_offset(pin_names_args(rest)) {
        Some(d) => d,
        None => zero_dec(),
    }
    &&& s.pin_names_hide == exists|i: int| 0 <= i < pin_names_args(rest).len() && is_hide(#[trigger] pin_names_args(rest)[i])
    &&& s.exclude_from_sim == flag_yes(rest, "exclude_from_sim"@)
    &&& s.in_bom == flag_not_no(rest, "in_bom"@)
    &&& s.on_board == flag_not_no(rest, "on_board"@)
    &&& s.embedded_fonts == match last_args(rest, "embedded_fonts"@) {
        Some(x) => Some(sym_at(x, 0) != Some("no"@)),
        None => None,
    }
    &&& s.properties@.len() == props.len()
    &&& forall|k: int| 0 <= k < props.len() ==> prop_matches(#[trigger] s.properties@[k], props[k])
    &&& s.units@.len() == units.len()
    &&& forall|k: int| 0 <= k < units.len() ==> unit_matches(#[trigger] s.units@[k], units[k])
}

fn flag_yes_exec(a: &[SExpr], name: &str) -> (r: bool)
    requires
        1 <= a@.len(),
    ensures
        r == flag_yes(views(a@).skip(1), name@),
{
    match last_args_exec(a, 1, name) {
        Some(x) => match sym_at_exec(x, 0) {
            Some(t) => str_eq(t, "yes"),
            None => false,
        },
        None => false,
    }
}

fn flag_not_no_exec(a: &[SExpr], name: &str) -> (r: bool)
    requires
        1 <= a@.len(),
    ensures
        r == flag_not_no(views(a@).skip(1), name@),
{
    match last_args_exec(a, 1, name) {
        Some(x) => match sym_at_exec(x, 0) {
            Some(t) => !str_eq(t, "no"),
            None => true,
        },
        None => true,
    }
}

fn has_hide_list(xs: &[SExpr]) -> (r: bool)
    ensures
        r == exists|i: int| 0 <= i < views(xs@).len() && args_v(#[trigger] views(xs@)[i], "hide"@) is Some,
{
    let ghost v = views(xs@);
    proof {
        lemma_views_len(xs@);
    }
    let mut k: usize = 0;
    while k < xs.len()
        invariant
            k <= xs@.len(),
            v == views(xs@),
            v.len() == xs@.len(),
            forall|i: int| 0 <= i < k ==> args_v(#[trigger] v[i], "hide"@) is None,
        decreases xs@.len() - k,
    {
        assert(v[k as int] == xs@[k as int]@);
        if args_exec(&xs[k], "hide").is_some() {
            return true;
        }
        k = k + 1;
    }
    false
}

/// The pin-name settings of a symbol's items from 1 on: the offset and whether names
/// are hidden.
fn pin_names_exec(a: &[SExpr]) -> (r: (Decimal, bool))
    requires
        1 <= a@.len(),
    ensures
        r.0 == match last_offset(pin_names_args(views(a@).skip(1))) {
            Some(d) => d,
            None => zero_dec(),
        },
        r.1 == exists|i: int|
            0 <= i < pin_names_args(views(a@).skip(1)).len() && is_hide(#[trigger] pin_names_args(views(a@).skip(1))[i]),
{
    let ghost rest = views(a@).skip(1);
    proof {
        lemma_views_len(a@);
    }
    let mut offset: Option<Decimal> = None;
    let mut hidden = false;
    let mut k: usize = 1;
    while k < a.len()
        invariant
            1 <= k <= a@.len(),
            rest == views(a@).skip(1),
            rest.len() == a@.len() - 1,
            offset == last_offset(pin_names_args(rest.take(k - 1))),
            hidden == exists|i: int|
                0 <= i < pin_names_args(rest.take(k - 1)).len() && is_hide(#[trigger] pin_names_args(rest.take(k - 1))[i]),
        decreases a@.len() - k,
    {
        let ghost t = rest.take(k as int);
        let ghost before = pin_names_args(rest.take(k - 1));
        assert(t.drop_last() =~= rest.take(k - 1));
        assert(t.last() == a@[k as int]@);
        match args_exec(&a[k], "pin_names") {
            Some(args) => {
                let ghost av = views(args@);
                proof {
                    lemma_views_len(args@);
                }
                assert(pin_names_args(t) == before + av);
                let mut j: usize = 0;
                while j < args.len()
                    invariant
                        j <= args@.len(),
                        av == views(args@),
                        av.len() == args@.len(),
                        offset == last_offset(before + av.take(j as int)),
                        hidden == exists|i: int|
                            0 <= i < (before + av.take(j as int)).len() && is_hide(#[trigger] (before + av.take(j as int))[i]),
                    decreases args@.len() - j,
                {
                    let ghost u = before + av.take(j + 1);
                    assert(u.drop_last() =~= before + av.take(j as int));
                    assert(u.last() == args@[j as int]@);
                    match args_exec(&args[j], "offset") {
                        Some(o) => {
                            match num_at_exec(o, 0) {
                                Some(d) => {
                                    offset = Some(d);
                                },
                                None => {},
                            }
                        },
                        None => {
                            if args_exec(&args[j], "hide").is_some() || sym_is(&args[j], "hide") {
                                hidden = true;
                            }
                        },
                    }
                    proof {
                        reveal_strlit("offset");
                        reveal_strlit("hide");
                        assert("offset"@.len() != "hide"@.len());
                        assert forall|i: int| 0 <= i < u.len() - 1 implies u[i] == (before + av.take(j as int))[i] by {}
                    }
                    j = j + 1;
                }
                assert(before + av.take(args@.len() as int) =~= before + av);
            },
            None => {
                assert(pin_names_args(t) =~= before);
            },
        }
        k = k + 1;
    }
    assert(rest.take(a@.len() - 1) =~= rest);
    let d = match offset {
        Some(d) => d,
        None => Decimal { mantissa: 0, scale: 0 },
    };
    (d, hidden)
}

proof fn lemma_symbol_heads()
    ensures
        "property"@ != "pin_numbers"@ && "property"@ != "pin_names"@ && "property"@ != "exclude_from_sim"@,
        "property"@ != "in_bom"@ && "property"@ != "on_board"@,
        "symbol"@ != "pin_numbers"@ && "symbol"@ != "pin_names"@ && "symbol"@ != "exclude_from_sim"@,
        "symbol"@ != "in_bom"@ && "symbol"@ != "on_board"@ && "symbol"@ != "property"@,
        "symbol"@ != "version"@ && "symbol"@ != "generator"@ && "symbol"@ != "generator_version"@,
{
    reveal_strlit("property");
    reveal_strlit("pin_numbers");
    reveal_strlit("pin_names");
    reveal_strlit("exclude_from_sim");
    reveal_strlit("in_bom");
    reveal_strlit("on_board");
    reveal_strlit("symbol");
    reveal_strlit("version");
    reveal_strlit("generator");
    reveal_strlit("generator_version");
    assert("property"@.len() == 8 && "pin_numbers"@.len() == 11 && "pin_names"@.len() == 9);
    assert("exclude_from_sim"@.len() == 16 && "in_bom"@.len() == 6 && "on_board"@.len() == 8);
    assert("symbol"@.len() == 6 && "version"@.len() == 7 && "generator"@.len() == 9 && "generator_version"@.len() == 17);
    assert("property"@[0] != "on_board"@[0]);
    assert("symbol"@[0] != "in_bom"@[0]);
}

fn symbol_exec(a: &[SExpr]) -> (r: Result<Symbol, SymbolError>)
    requires
        not_unreadable(symbol_problem(views(a@))),
    ensures
        match symbol_problem(views(a@)) {
            Some(ReadProblem::Missing(f)) => r matches Err(SymbolError::MissingField(m)) && m@ == f,
            Some(ReadProblem::Unreadable) => true,
            None => r matches Ok(s) && symbol_matches(s, views(a@)),
        },
{
    let ghost v = views(a@);
    proof {
        lemma_views_len(a@);
        reveal_strlit("symbol name");
        lemma_symbol_heads();
    }
    let name = match str_at_exec(a, 0) {
        Some(t) => t,
        None => {
            return Err(SymbolError::MissingField(String::from_str("symbol name")));
        },
    };
    let ghost rest = v.skip(1);
    let ghost g = |x: SExprView| symbol_item_problem(x);
    assert(rest.skip(0) =~= rest);
    let mut properties: Vec<Property> = Vec::new();
    let mut units: Vec<SymbolUnit> = Vec::new();
    let mut k: usize = 1;
    while k < a.len()
        invariant
            1 <= k <= a@.len(),
            v == views(a@),
            v.len() == a@.len(),
            rest == v.skip(1),
            g == (|x: SExprView| symbol_item_problem(x)),
            symbol_problem(v) == first_problem(rest.skip(k - 1), g),
            not_unreadable(symbol_problem(v)),
            properties@.len() == children_v(rest.take(k - 1), "property"@).len(),
            forall|i: int|
                0 <= i < properties@.len() ==> prop_matches(#[trigger] properties@[i], children_v(rest.take(k - 1), "property"@)[i]),
            units@.len() == children_v(rest.take(k - 1), "symbol"@).len(),
            forall|i: int| 0 <= i < units@.len() ==> unit_matches(#[trigger] units@[i], children_v(rest.take(k - 1), "symbol"@)[i]),
        decreases a@.len() - k,
    {
        let ghost t = rest.take(k as int);
        assert(t.drop_last() =~= rest.take(k - 1));
        assert(t.last() == a@[k as int]@);
        assert(rest[k - 1] == a@[k as int]@);
        proof {
            lemma_first_problem_step(rest, k - 1, g);
            lemma_symbol_heads();
        }
        let ghost pprev = children_v(rest.take(k - 1), "property"@);
        let ghost uprev = children_v(rest.take(k - 1), "symbol"@);
        match args_exec(&a[k], "property") {
            Some(p) => {
                assert(g(rest[k - 1]) == symbol_item_problem(rest[k - 1]));
                assert(args_v(a@[k as int]@, "pin_numbers"@) is None);
                assert(symbol_item_problem(a@[k as int]@) == prop_problem(views(p@)));
                let prop = prop_exec(p)?;
                properties.push(prop);
                assert(children_v(t, "property"@) == pprev + seq![views(p@)]);
                assert(children_v(t, "symbol"@) =~= uprev);
            },
            None => {
                match args_exec(&a[k], "symbol") {
                    Some(u) => {
                        assert(g(rest[k - 1]) == symbol_item_problem(rest[k - 1]));
                        assert(symbol_item_problem(a@[k as int]@) == unit_problem(views(u@)));
                        let unit = unit_exec(u)?;
                        units.push(unit);
                        assert(children_v(t, "symbol"@) == uprev + seq![views(u@)]);
                    },
                    None => {
                        assert(children_v(t, "symbol"@) =~= uprev);
                    },
                }
                assert(children_v(t, "property"@) =~= pprev);
            },
        }
        assert(rest.skip(k - 1).skip(1) =~= rest.skip(k as int));
        k = k + 1;
    }
    assert(rest.take(a@.len() - 1) =~= rest);
    assert(rest.skip(a@.len() - 1) =~= Seq::<SExprView>::empty());
    let pin_numbers_hide = match last_args_exec(a, 1, "pin_numbers") {
        Some(pn) => has_hide_list(pn),
        None => false,
    };
    let (pin_names_offset, pin_names_hide) = pin_names_exec(a);
    let embedded_fonts = match last_args_exec(a, 1, "embedded_fonts") {
        Some(x) => Some(
            match sym_at_exec(x, 0) {
                Some(t) => !str_eq(t, "no"),
                None => true,
            },
        ),
        None => None,
    };
    Ok(
        Symbol {
            name,
            extends: None,
            pin_numbers_hide,
            pin_names_offset,
            pin_names_hide,
            exclude_from_sim: flag_yes_exec(a, "exclude_from_sim"),
            in_bom: flag_not_no_exec(a, "in_bom"),
            on_board: flag_not_no_exec(a, "on_board"),
            properties,
            units,
            embedded_fonts,
        },
    )
}

/// A symbol library: format version, generator and its version, and the symbols.
#[derive(Debug)]
pub struct SymbolLibrary {
    pub version: u32,
    pub generator: Option<String>,
    pub generator_version: Option<String>,
    pub symbols: Vec<Symbol>,
}

/// A version number as a whole number: its fraction dropped, held to `0..=u32::MAX`.
pub open spec fn version_of(d: Decimal) -> u32 {
    if d.mantissa <= 0 {
        0
    } else if (d.mantissa as int) / pow10(d.scale as nat) > u32::MAX {
        u32::MAX
    } else {
        ((d.mantissa as int) / pow10(d.scale as nat)) as u32
    }
}

/// The number of the last `version` item that has one.
pub open spec fn last_version(xs: Seq<SExprView>) -> Option<Decimal>
    decreases xs.len(),
{
    if xs.len() == 0 {
        None
    } else if args_v(xs.last(), "version"@) is Some && num_at(args_v(xs.last(), "version"@)->Some_0, 0) is Some {
        num_at(args_v(xs.last(), "version"@)->Some_0, 0)
    } else {
        last_version(xs.drop_last())
    }
}

/// The quoted text of the last item headed by `name`.
pub open spec fn text_field(xs: Seq<SExprView>, name: Seq<char>) -> Option<Seq<char>> {
    match last_args(xs, name) {
        Some(g) => str_at(g, 0),
        None => None,
    }
}

pub open spec fn opt_string_view(o: Option<String>) -> Option<Seq<char>> {
    match o {
        Some(s) => Some(s@),
        None => None,
    }
}

/// A library as read from the arguments of its `kicad_symbol_lib` list.
pub open spec fn library_matches(l: SymbolLibrary, a: Seq<SExprView>) -> bool {
    let syms = children_v(a, "symbol"@);
    &&& l.version == match last_version(a) {
        Some(d) => version_of(d),
        None => 0,
    }
    &&& opt_string_view(l.generator) == text_field(a, "generator"@)
    &&& opt_string_view(l.generator_version) == text_field(a, "generator_version"@)
    &&& l.symbols@.len() == syms.len()
    &&& forall|k: int| 0 <= k < syms.len() ==> symbol_matches(#[trigger] l.symbols@[k], syms[k])
}

/// A tree the reader can take: not a library at all, or one where no item is too short
/// to be read before the first missing field.
pub open spec fn library_readable_spec(e: SExprView) -> bool {
    match args_v(e, "kicad_symbol_lib"@) {
        Some(a) => not_unreadable(lib_problem(a)),
        None => true,
    }
}

/// What reading a library tree gives.
pub open spec fn library_result(e: SExprView, r: Result<SymbolLibrary, SymbolError>) -> bool {
    match args_v(e, "kicad_symbol_lib"@) {
        None => r matches Err(SymbolError::InvalidFormat { expected, got }) && expected@ == "kicad_symbol_lib"@ && got@
            == kicad_text(e, 0),
        Some(a) => match lib_problem(a) {
            Some(ReadProblem::Missing(f)) => r matches Err(SymbolError::MissingField(m)) && m@ == f,
            Some(ReadProblem::Unreadable) => true,
            None => r matches Ok(l) && library_matches(l, a),
        },
    }
}

proof fn lemma_pow10_large(k: nat)
    requires
        k >= 19,
    ensures
        pow10(k) >= 10_000_000_000_000_000_000,
    decreases k,
{
    if k == 19 {
        reveal_with_fuel(pow10, 20);
    } else {
        lemma_pow10_large((k - 1) as nat);
    }
}

pub(crate) fn version_of_exec(d: Decimal) -> (r: u32)
    ensures
        r == version_of(d),
{
    if d.mantissa <= 0 {
        return 0;
    }
    if d.scale > 19 {
        proof {
            lemma_pow10_large(d.scale as nat);
            assert((d.mantissa as int) / pow10(d.scale as nat) == 0) by (nonlinear_arith)
                requires
                    0 < d.mantissa < pow10(d.scale as nat),
            ;
        }
        return 0;
    }
    let f = pow10_exec(d.scale);
    proof {
        lemma_pow10_positive(d.scale as nat);
    }
    let q = (d.mantissa as u64) / f;
    if q > 0xffff_ffffu64 {
        0xffff_ffffu32
    } else {
        q as u32
    }
}

proof fn lemma_pow10_positive(k: nat)
    ensures
        pow10(k) >= 1,
    decreases k,
{
    if k > 0 {
        lemma_pow10_positive((k - 1) as nat);
    }
}

pub(crate) fn text_field_exec(a: &[SExpr], name: &str) -> (r: Option<String>)
    ensures
        opt_string_view(r) == text_field(views(a@), name@),
{
    assert(views(a@).skip(0) =~= views(a@));
    match last_args_exec(a, 0, name) {
        Some(g) => str_at_exec(g, 0),
        None => None,
    }
}

proof fn lemma_lib_heads()
    ensures
        "symbol"@ != "version"@ && "symbol"@ != "generator"@ && "symbol"@ != "generator_version"@,
{
    lemma_symbol_heads();
}

fn library_items_exec(a: &[SExpr]) -> (r: Result<SymbolLibrary, SymbolError>)
    requires
        not_unreadable(lib_problem(views(a@))),
    ensures
        match lib_problem(views(a@)) {
            Some(ReadProblem::Missing(f)) => r matches Err(SymbolError::MissingField(m)) && m@ == f,
            Some(ReadProblem::Unreadable) => true,
            None => r matches Ok(l) && library_matches(l, views(a@)),
        },
{
    let ghost v = views(a@);
    let ghost g = |x: SExprView| lib_item_problem(x);
    proof {
        lemma_views_len(a@);
    }
    assert(v.skip(0) =~= v);
    assert(v.take(0) =~= Seq::<SExprView>::empty());
    let mut version: Option<Decimal> = None;
    let mut symbols: Vec<Symbol> = Vec::new();
    let mut k: usize = 0;
    while k < a.len()
        invariant
            k <= a@.len(),
            v == views(a@),
            v.len() == a@.len(),
            g == (|x: SExprView| lib_item_problem(x)),
            lib_problem(v) == first_problem(v.skip(k as int), g),
            not_unreadable(lib_problem(v)),
            version == last_version(v.take(k as int)),
            symbols@.len() == children_v(v.take(k as int), "symbol"@).len(),
            forall|i: int| 0 <= i < symbols@.len() ==> symbol_matches(#[trigger] symbols@[i], children_v(v.take(k as int), "symbol"@)[i]),
        decreases a@.len() - k,
    {
        let ghost t = v.take(k + 1);
        assert(t.drop_last() =~= v.take(k as int));
        assert(t.last() == a@[k as int]@);
        assert(v[k as int] == a@[k as int]@);
        proof {
            lemma_first_problem_step(v, k as int, g);
            lemma_lib_heads();
        }
        let ghost sprev = children_v(v.take(k as int), "symbol"@);
        match args_exec(&a[k], "version") {
            Some(x) => {
                match num_at_exec(x, 0) {
                    Some(d) => {
                        version = Some(d);
                    },
                    None => {},
                }
            },
            None => {},
        }
        match args_exec(&a[k], "symbol") {
            Some(x) => {
                assert(g(v[k as int]) == lib_item_problem(v[k as int]));
                assert(lib_item_problem(a@[k as int]@) == symbol_problem(views(x@)));
                let sym = symbol_exec(x)?;
                symbols.push(sym);
                assert(children_v(t, "symbol"@) == sprev + seq![views(x@)]);
            },
            None => {
                assert(children_v(t, "symbol"@) =~= sprev);
            },
        }
        assert(v.skip(k as int).skip(1) =~= v.skip(k + 1));
        k = k + 1;
    }
    assert(v.take(a@.len() as int) =~= v);
    let version = match version {
        Some(d) => version_of_exec(d),
        None => 0,
    };
    Ok(
        SymbolLibrary {
            version,
            generator: text_field_exec(a, "generator"),
            generator_version: text_field_exec(a, "generator_version"),
            symbols,
        },
    )
}

/// Whether a problem stops reading (`Some(true)`), names a missing field
/// (`Some(false)`), or there is none.
pub open spec fn problem_kind(p: Option<ReadProblem>) -> Option<bool> {
    match p {
        Some(ReadProblem::Unreadable) => Some(true),
        Some(ReadProblem::Missing(_)) => Some(false),
        None => None,
    }
}

fn pin_problem_exec(a: &[SExpr]) -> (r: Option<bool>)
    ensures
        r == problem_kind(pin_problem(views(a@))),
{
    let ghost v = views(a@);
    proof {
        lemma_views_len(a@);
        reveal_strlit("at");
        reveal_strlit("length");
        reveal_strlit("name");
        reveal_strlit("number");
        assert("at"@.len() == 2 && "length"@.len() == 6 && "name"@.len() == 4 && "number"@.len() == 6);
        assert("length"@[0] != "number"@[0]);
    }
    if a.len() < 2 {
        return Some(true);
    }
    let ghost g = |x: SExprView| pin_item_problem(x);
    let mut k: usize = 2;
    while k < a.len()
        invariant
            2 <= k <= a@.len(),
            v == views(a@),
            v.len() == a@.len(),
            g == (|x: SExprView| pin_item_problem(x)),
            pin_problem(v) == first_problem(v.skip(k as int), g),
        decreases a@.len() - k,
    {
        proof {
            lemma_first_problem_step(v, k as int, g);
            reveal_strlit("at");
            reveal_strlit("length");
            reveal_strlit("name");
            reveal_strlit("number");
            assert("at"@.len() == 2 && "length"@.len() == 6 && "name"@.len() == 4 && "number"@.len() == 6);
            assert("length"@[0] != "number"@[0]);
        }
        assert(v[k as int] == a@[k as int]@);
        assert(g(v[k as int]) == pin_item_problem(v[k as int]));
        if args_exec(&a[k], "at").is_none() && args_exec(&a[k], "length").is_none() {
            match args_exec(&a[k], "name") {
                Some(n) => {
                    if n.len() == 0 {
                        return Some(true);
                    }
                },
                None => match args_exec(&a[k], "number") {
                    Some(n) => {
                        if n.len() == 0 {
                            return Some(true);
                        }
                    },
                    None => {},
                },
            }
        }
        assert(v.skip(k as int).skip(1) =~= v.skip(k + 1));
        k = k + 1;
    }
    assert(v.skip(a@.len() as int) =~= Seq::<SExprView>::empty());
    None
}

fn unit_problem_exec(a: &[SExpr]) -> (r: Option<bool>)
    ensures
        r == problem_kind(unit_problem(views(a@))),
{
    let ghost v = views(a@);
    proof {
        lemma_views_len(a@);
    }
    if str_at_exec(a, 0).is_none() {
        return Some(false);
    }
    let ghost rest = v.skip(1);
    let ghost g = |x: SExprView| unit_item_problem(x);
    assert(rest.skip(0) =~= rest);
    let mut k: usize = 1;
    while k < a.len()
        invariant
            1 <= k <= a@.len(),
            v == views(a@),
            v.len() == a@.len(),
            rest == v.skip(1),
            g == (|x: SExprView| unit_item_problem(x)),
            unit_problem(v) == first_problem(rest.skip(k - 1), g),
        decreases a@.len() - k,
    {
        proof {
            lemma_first_problem_step(rest, k - 1, g);
            reveal_strlit("pin");
            reveal_strlit("rectangle");
            reveal_strlit("polyline");
            reveal_strlit("circle");
            reveal_strlit("arc");
            reveal_strlit("text");
            assert("pin"@.len() == 3 && "rectangle"@.len() == 9 && "polyline"@.len() == 8);
            assert("circle"@.len() == 6 && "arc"@.len() == 3 && "text"@.len() == 4);
            assert("pin"@[0] != "arc"@[0]);
        }
        assert(rest[k - 1] == a@[k as int]@);
        assert(g(rest[k - 1]) == unit_item_problem(rest[k - 1]));
        match args_exec(&a[k], "text") {
            Some(t) => {
                if t.len() == 0 {
                    return Some(true);
                }
            },
            None => match args_exec(&a[k], "pin") {
                Some(p) => {
                    let q = pin_problem_exec(p);
                    if q.is_some() {
                        return q;
                    }
                },
                None => {},
            },
        }
        assert(rest.skip(k - 1).skip(1) =~= rest.skip(k as int));
        k = k + 1;
    }
    assert(rest.skip(a@.len() - 1) =~= Seq::<SExprView>::empty());
    None
}

fn prop_problem_exec(a: &[SExpr]) -> (r: Option<bool>)
    ensures
        r == problem_kind(prop_problem(views(a@))),
{
    proof {
        lemma_views_len(a@);
    }
    let i: usize = match sym_at_exec(a, 0) {
        Some(t) => if str_eq(t, "private") {
            1
        } else {
            0
        },
        None => 0,
    };
    if str_at_exec(a, i).is_none() {
        Some(false)
    } else if a.len() < i + 2 {
        Some(true)
    } else {
        None
    }
}

fn symbol_problem_exec(a: &[SExpr]) -> (r: Option<bool>)
    ensures
        r == problem_kind(symbol_problem(views(a@))),
{
    let ghost v = views(a@);
    proof {
        lemma_views_len(a@);
    }
    if str_at_exec(a, 0).is_none() {
        return Some(false);
    }
    let ghost rest = v.skip(1);
    let ghost g = |x: SExprView| symbol_item_problem(x);
    assert(rest.skip(0) =~= rest);
    let mut k: usize = 1;
    while k < a.len()
        invariant
            1 <= k <= a@.len(),
            v == views(a@),
            v.len() == a@.len(),
            rest == v.skip(1),
            g == (|x: SExprView| symbol_item_problem(x)),
            symbol_problem(v) == first_problem(rest.skip(k - 1), g),
        decreases a@.len() - k,
    {
        proof {
            lemma_first_problem_step(rest, k - 1, g);
            lemma_symbol_heads();
        }
        assert(rest[k - 1] == a@[k as int]@);
        assert(g(rest[k - 1]) == symbol_item_problem(rest[k - 1]));
        match args_exec(&a[k], "property") {
            Some(p) => {
                let q = prop_problem_exec(p);
                if q.is_some() {
                    return q;
                }
            },
            None => match args_exec(&a[k], "symbol") {
                Some(u) => {
                    let q = unit_problem_exec(u);
                    if q.is_some() {
                        return q;
                    }
                },
                None => {},
            },
        }
        assert(rest.skip(k - 1).skip(1) =~= rest.skip(k as int));
        k = k + 1;
    }
    assert(rest.skip(a@.len() - 1) =~= Seq::<SExprView>::empty());
    None
}

/// Whether the reader can take the tree: it is not a library at all, or no item of it
/// is too short to be read before the first missing field.
pub fn library_readable(e: &SExpr) -> (r: bool)
    ensures
        r == library_readable_spec(e@),
{
    let a = match args_exec(e, "kicad_symbol_lib") {
        Some(a) => a,
        None => {
            return true;
        },
    };
    let ghost v = views(a@);
    let ghost g = |x: SExprView| lib_item_problem(x);
    proof {
        lemma_views_len(a@);
    }
    assert(v.skip(0) =~= v);
    let mut k: usize = 0;
    while k < a.len()
        invariant
            k <= a@.len(),
            v == views(a@),
            v.len() == a@.len(),
            g == (|x: SExprView| lib_item_problem(x)),
            lib_problem(v) == first_problem(v.skip(k as int), g),
            library_readable_spec(e@) == not_unreadable(lib_problem(v)),
        decreases a@.len() - k,
    {
        proof {
            lemma_first_problem_step(v, k as int, g);
            lemma_lib_heads();
        }
        assert(v[k as int] == a@[k as int]@);
        assert(g(v[k as int]) == lib_item_problem(v[k as int]));
        match args_exec(&a[k], "symbol") {
            Some(x) => {
                assert(lib_item_problem(a@[k as int]@) == symbol_problem(views(x@)));
                let q = symbol_problem_exec(x);
                if q.is_some() {
                    return q != Some(true);
                }
            },
            None => {},
        }
        assert(v.skip(k as int).skip(1) =~= v.skip(k + 1));
        k = k + 1;
    }
    assert(v.skip(a@.len() as int) =~= Seq::<SExprView>::empty());
    true
}

/// Read a symbol library out of its tree, as `library_result` states.
pub fn symbol_library_from_sexpr(e: &SExpr) -> (r: Result<SymbolLibrary, SymbolError>)
    requires
        library_readable_spec(e@),
    ensures
        library_result(e@, r),
{
    match args_exec(e, "kicad_symbol_lib") {
        Some(a) => library_items_exec(a),
        None => Err(
            SymbolError::InvalidFormat { expected: String::from_str("kicad_symbol_lib"), got: e.to_kicad_string() },
        ),
    }
}

/// Read a symbol library out of its text: the first expression of the text is read as
/// `symbol_library_from_sexpr` states; text that is no expression gives the reading
/// error's message.
pub fn parse_symbol_library_str(input: &str) -> (r: Result<SymbolLibrary, SymbolError>)
    requires
        match parse_spec(input@) {
            Step::Done(e, _) => library_readable_spec(e),
            _ => true,
        },
    ensures
        match parse_spec(input@) {
            Step::Done(e, _) => library_result(e, r),
            Step::Fail(p, kind) => r matches Err(SymbolError::Parse(m)) && m@ == error_text(
                input@,
                ParseError { position: p as usize, kind },
            ),
            Step::NoMatch => true,
        },
{
    match SExprParser::parse(input) {
        Ok((_, e)) => symbol_library_from_sexpr(&e),
        Err(err) => Err(SymbolError::Parse(format_error(input, &err))),
    }
}

/// The index of the first symbol named `name`.
pub open spec fn symbol_index(syms: Seq<Symbol>, name: Seq<char>, k: int) -> Option<int>
    decreases syms.len() - k,
{
    if k < 0 || k >= syms.len() {
        None
    } else if syms[k].name@ == name {
        Some(k)
    } else {
        symbol_index(syms, name, k + 1)
    }
}

/// The first symbol named `symbol` in the library `library`; `SymbolNotFound` with both
/// names when there is none.
pub fn find_symbol_in(lib: SymbolLibrary, library: &str, symbol: &str) -> (r: Result<Symbol, LookupError>)
    ensures
        match symbol_index(lib.symbols@, symbol@, 0) {
            Some(i) => r matches Ok(s) && s == lib.symbols@[i],
            None => r matches Err(LookupError::SymbolNotFound { library: l, symbol: s }) && l@ == library@ && s@
                == symbol@,
        },
{
    let ghost all = lib.symbols@;
    let mut syms = lib.symbols;
    assert(syms@ == all);
    let mut k: usize = 0;
    while k < syms.len()
        invariant
            k <= syms@.len(),
            syms@ == all,
            all == lib.symbols@,
            symbol_index(all, symbol@, 0) == symbol_index(all, symbol@, k as int),
        decreases syms@.len() - k,
    {
        if str_eq(syms[k].name.as_str(), symbol) {
            assert(all[k as int].name@ == symbol@);
            assert(symbol_index(all, symbol@, k as int) == Some(k as int));
            let found = syms.remove(k);
            assert(found == all[k as int]);
            return Ok(found);
        }
        k = k + 1;
    }
    Err(LookupError::SymbolNotFound { library: String::from_str(library), symbol: String::from_str(symbol) })
}

} // verus!
