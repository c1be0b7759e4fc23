//! Writing the typed schematic model as S-expressions, item by item, in the order and
//! form KiCAD files use.
use vstd::prelude::*;
use crate::common::{Color, Fill, HorizontalJustify, Justify, StrokeType, VerticalJustify};
use crate::pin::{PinElectricalType, PinGraphicStyle};
use crate::schematic::{LabelShape, Mirror, PathInstance, PinInstance, ProjectInstance, SheetInstance, TitleBlock};
use crate::sexpr::{pow10, pow10_exec, views, Decimal, SExpr, SExprView, ToSExpr};
use crate::sexpr_write::kicad_text;

verus! {

pub open spec fn sym_v(s: Seq<char>) -> SExprView {
    SExprView::Symbol(s)
}

pub open spec fn str_v(s: Seq<char>) -> SExprView {
    SExprView::Str(s)
}

pub open spec fn num_v(d: Decimal) -> SExprView {
    SExprView::Number(d)
}

/// `(name value)`.
pub open spec fn field_v(name: Seq<char>, value: SExprView) -> SExprView {
    SExprView::List(seq![sym_v(name), value])
}

pub open spec fn yes_no(b: bool) -> Seq<char> {
    if b {
        "yes"@
    } else {
        "no"@
    }
}

/// A whole number as a decimal.
pub open spec fn whole(n: int) -> Decimal {
    Decimal { mantissa: n as i64, scale: 0 }
}

pub open spec fn opt_v(o: Option<SExprView>) -> Seq<SExprView> {
    match o {
        Some(v) => seq![v],
        None => Seq::empty(),
    }
}

pub open spec fn forms<T: ToSExpr>(v: Seq<T>) -> Seq<SExprView> {
    v.map_values(|t: T| t.sexpr_form())
}

proof fn lemma_views_push(v: Seq<SExpr>, x: SExpr)
    ensures
        views(v.push(x)) == views(v).push(x@),
{
    assert(views(v.push(x)) =~= views(v).push(x@));
}

/// Append an expression to the items being built.
fn push_expr(items: &mut Vec<SExpr>, e: SExpr)
    ensures
        views(final(items)@) == views(old(items)@).push(e@),
{
    proof {
        lemma_views_push(items@, e);
    }
    items.push(e);
}

fn list_of(items: Vec<SExpr>) -> (r: SExpr)
    ensures
        r@ == SExprView::List(views(items@)),
{
    SExpr::list(items)
}

/// `(name value)`.
fn field(name: &str, value: SExpr) -> (r: SExpr)
    ensures
        r@ == field_v(name@, value@),
{
    let mut items: Vec<SExpr> = Vec::new();
    push_expr(&mut items, SExpr::symbol(name));
    push_expr(&mut items, value);
    assert(views(items@) =~= seq![sym_v(name@), value@]);
    list_of(items)
}

fn yes_no_exec(b: bool) -> (r: &'static str)
    ensures
        r@ == yes_no(b),
{
    if b {
        "yes"
    } else {
        "no"
    }
}

/// Append the forms of all values.
fn push_all<T: ToSExpr>(items: &mut Vec<SExpr>, v: &Vec<T>)
    ensures
        views(final(items)@) == views(old(items)@) + forms(v@),
{
    let ghost start = views(items@);
    let mut k: usize = 0;
    while k < v.len()
        invariant
            k <= v@.len(),
            views(items@) == start + forms(v@.take(k as int)),
        decreases v@.len() - k,
    {
        push_expr(items, v[k].to_sexpr());
        assert(forms(v@.take(k + 1)) =~= forms(v@.take(k as int)).push(v@[k as int].sexpr_form()));
        k = k + 1;
    }
    assert(v@.take(v@.len() as int) == v@);
}

/// Position with rotation: `(at x y angle)`.
#[derive(Debug, Clone, Copy)]
pub struct Position {
    pub x: Decimal,
    pub y: Decimal,
    pub angle: Decimal,
}

/// A point: `(xy x y)`.
#[derive(Debug, Clone, Copy)]
pub struct Point {
    pub x: Decimal,
    pub y: Decimal,
}

impl ToSExpr for Position {
    open spec fn sexpr_form(&self) -> SExprView {
        SExprView::List(seq![sym_v("at"@), num_v(self.x), num_v(self.y), num_v(self.angle)])
    }

    fn to_sexpr(&self) -> (r: SExpr) {
        let mut items: Vec<SExpr> = Vec::new();
        push_expr(&mut items, SExpr::symbol("at"));
        push_expr(&mut items, SExpr::number(self.x));
        push_expr(&mut items, SExpr::number(self.y));
        push_expr(&mut items, SExpr::number(self.angle));
        assert(views(items@) =~= seq![sym_v("at"@), num_v(self.x), num_v(self.y), num_v(self.angle)]);
        list_of(items)
    }
}

impl ToSExpr for Point {
    open spec fn sexpr_form(&self) -> SExprView {
        SExprView::List(seq![sym_v("xy"@), num_v(self.x), num_v(self.y)])
    }

    fn to_sexpr(&self) -> (r: SExpr) {
        let mut items: Vec<SExpr> = Vec::new();
        push_expr(&mut items, SExpr::symbol("xy"));
        push_expr(&mut items, SExpr::number(self.x));
        push_expr(&mut items, SExpr::number(self.y));
        assert(views(items@) =~= seq![sym_v("xy"@), num_v(self.x), num_v(self.y)]);
        list_of(items)
    }
}

/// `(color r g b a)`.
pub open spec fn color_v(c: Color) -> SExprView {
    SExprView::List(
        seq![sym_v("color"@), num_v(whole(c.r as int)), num_v(whole(c.g as int)), num_v(whole(c.b as int)), num_v(whole(c.a as int))],
    )
}

fn color_sexpr(c: Color) -> (r: SExpr)
    ensures
        r@ == color_v(c),
{
    let mut items: Vec<SExpr> = Vec::new();
    push_expr(&mut items, SExpr::symbol("color"));
    push_expr(&mut items, SExpr::number(Decimal { mantissa: c.r as i64, scale: 0 }));
    push_expr(&mut items, SExpr::number(Decimal { mantissa: c.g as i64, scale: 0 }));
    push_expr(&mut items, SExpr::number(Decimal { mantissa: c.b as i64, scale: 0 }));
    push_expr(&mut items, SExpr::number(Decimal { mantissa: c.a as i64, scale: 0 }));
    assert(views(items@) =~= seq![sym_v("color"@), num_v(whole(c.r as int)), num_v(whole(c.g as int)), num_v(whole(c.b as int)), num_v(whole(c.a as int))]);
    list_of(items)
}

/// Stroke of a line: width, type and optional color.
#[derive(Debug, Clone, Copy)]
pub struct Stroke {
    pub width: Decimal,
    pub stroke_type: StrokeType,
    pub color: Option<Color>,
}

impl ToSExpr for Stroke {
    open spec fn sexpr_form(&self) -> SExprView {
        SExprView::List(
            seq![sym_v("stroke"@), field_v("width"@, num_v(self.width)), field_v("type"@, sym_v(self.stroke_type.keyword()))]
                + match self.color {
                Some(c) => seq![color_v(c)],
                None => Seq::empty(),
            },
        )
    }

    fn to_sexpr(&self) -> (r: SExpr) {
        let mut items: Vec<SExpr> = Vec::new();
        push_expr(&mut items, SExpr::symbol("stroke"));
        push_expr(&mut items, field("width", SExpr::number(self.width)));
        push_expr(&mut items, field("type", SExpr::symbol(self.stroke_type.as_str())));
        match self.color {
            Some(c) => push_expr(&mut items, color_sexpr(c)),
            None => {},
        }
        assert(views(items@) =~= self.sexpr_form()->List_0);
        list_of(items)
    }
}

/// Font of a text: size, thickness, bold, italic.
#[derive(Debug, Clone, Copy)]
pub struct Font {
    pub size: Option<(Decimal, Decimal)>,
    pub thickness: Option<Decimal>,
    pub bold: bool,
    pub italic: bool,
}

impl ToSExpr for Font {
    open spec fn sexpr_form(&self) -> SExprView {
        SExprView::List(
            seq![sym_v("font"@)] + match self.size {
                Some((w, h)) => seq![SExprView::List(seq![sym_v("size"@), num_v(w), num_v(h)])],
                None => Seq::empty(),
            } + match self.thickness {
                Some(t) => seq![field_v("thickness"@, num_v(t))],
                None => Seq::empty(),
            } + if self.bold {
                seq![sym_v("bold"@)]
            } else {
                Seq::empty()
            } + if self.italic {
                seq![sym_v("italic"@)]
            } else {
                Seq::empty()
            },
        )
    }

    fn to_sexpr(&self) -> (r: SExpr) {
        let mut items: Vec<SExpr> = Vec::new();
        push_expr(&mut items, SExpr::symbol("font"));
        match self.size {
            Some((w, h)) => {
                let mut sz: Vec<SExpr> = Vec::new();
                push_expr(&mut sz, SExpr::symbol("size"));
                push_expr(&mut sz, SExpr::number(w));
                push_expr(&mut sz, SExpr::number(h));
                assert(views(sz@) =~= seq![sym_v("size"@), num_v(w), num_v(h)]);
                push_expr(&mut items, list_of(sz));
            },
            None => {},
        }
        match self.thickness {
            Some(t) => push_expr(&mut items, field("thickness", SExpr::number(t))),
            None => {},
        }
        if self.bold {
            push_expr(&mut items, SExpr::symbol("bold"));
        }
        if self.italic {
            push_expr(&mut items, SExpr::symbol("italic"));
        }
        assert(views(items@) =~= self.sexpr_form()->List_0);
        list_of(items)
    }
}

impl ToSExpr for Justify {
    open spec fn sexpr_form(&self) -> SExprView {
        SExprView::List(
            seq![sym_v("justify"@)] + match self.horizontal {
                HorizontalJustify::Left => seq![sym_v("left"@)],
                HorizontalJustify::Right => seq![sym_v("right"@)],
                HorizontalJustify::Center => Seq::empty(),
            } + match self.vertical {
                VerticalJustify::Top => seq![sym_v("top"@)],
                VerticalJustify::Bottom => seq![sym_v("bottom"@)],
                VerticalJustify::Center => Seq::empty(),
            } + if self.mirror {
                seq![sym_v("mirror"@)]
            } else {
                Seq::empty()
            },
        )
    }

    fn to_sexpr(&self) -> (r: SExpr) {
        let mut items: Vec<SExpr> = Vec::new();
        push_expr(&mut items, SExpr::symbol("justify"));
        match self.horizontal {
            HorizontalJustify::Left => push_expr(&mut items, SExpr::symbol("left")),
            HorizontalJustify::Right => push_expr(&mut items, SExpr::symbol("right")),
            HorizontalJustify::Center => {},
        }
        match self.vertical {
            VerticalJustify::Top => push_expr(&mut items, SExpr::symbol("top")),
            VerticalJustify::Bottom => push_expr(&mut items, SExpr::symbol("bottom")),
            VerticalJustify::Center => {},
        }
        if self.mirror {
            push_expr(&mut items, SExpr::symbol("mirror"));
        }
        assert(views(items@) =~= self.sexpr_form()->List_0);
        list_of(items)
    }
}

/// Text effects: font, justification, hidden.
#[derive(Debug, Clone, Copy)]
pub struct Effects {
    pub font: Option<Font>,
    pub justify: Option<Justify>,
    pub hide: bool,
}

impl ToSExpr for Effects {
    open spec fn sexpr_form(&self) -> SExprView {
        SExprView::List(
            seq![sym_v("effects"@)] + match self.font {
                Some(f) => seq![f.sexpr_form()],
                None => Seq::empty(),
            } + match self.justify {
                Some(j) => seq![j.sexpr_form()],
                None => Seq::empty(),
            } + if self.hide {
                seq![field_v("hide"@, sym_v("yes"@))]
            } else {
                Seq::empty()
            },
        )
    }

    fn to_sexpr(&self) -> (r: SExpr) {
        let mut items: Vec<SExpr> = Vec::new();
        push_expr(&mut items, SExpr::symbol("effects"));
        match self.font {
            Some(f) => push_expr(&mut items, f.to_sexpr()),
            None => {},
        }
        match self.justify {
            Some(j) => push_expr(&mut items, j.to_sexpr()),
            None => {},
        }
        if self.hide {
            push_expr(&mut items, field("hide", SExpr::symbol("yes")));
        }
        assert(views(items@) =~= self.sexpr_form()->List_0);
        list_of(items)
    }
}

/// A property: name, value, optional position and effects.
#[derive(Debug, Clone)]
pub struct Property {
    pub name: String,
    pub value: String,
    pub position: Option<Position>,
    pub effects: Option<Effects>,
}

impl ToSExpr for Property {
    open spec fn sexpr_form(&self) -> SExprView {
        SExprView::List(
            seq![sym_v("property"@), str_v(self.name@), str_v(self.value@)] + match self.position {
                Some(p) => seq![p.sexpr_form()],
                None => Seq::empty(),
            } + match self.effects {
                Some(e) => seq![e.sexpr_form()],
                None => Seq::empty(),
            },
        )
    }

    fn to_sexpr(&self) -> (r: SExpr) {
        let mut items: Vec<SExpr> = Vec::new();
        push_expr(&mut items, SExpr::symbol("property"));
        push_expr(&mut items, SExpr::string(self.name.as_str()));
        push_expr(&mut items, SExpr::string(self.value.as_str()));
        match self.position {
            Some(p) => push_expr(&mut items, p.to_sexpr()),
            None => {},
        }
        match self.effects {
            Some(e) => push_expr(&mut items, e.to_sexpr()),
            None => {},
        }
        assert(views(items@) =~= self.sexpr_form()->List_0);
        list_of(items)
    }
}

/// `(uuid "…")`.
pub open spec fn uuid_v(u: Seq<char>) -> SExprView {
    field_v("uuid"@, str_v(u))
}

fn uuid_sexpr(u: &String) -> (r: SExpr)
    ensures
        r@ == uuid_v(u@),
{
    field("uuid", SExpr::string(u.as_str()))
}

/// A junction of wires.
#[derive(Debug, Clone)]
pub struct Junction {
    pub position: Point,
    pub diameter: Decimal,
    pub color: Option<Color>,
    pub uuid: String,
}

impl ToSExpr for Junction {
    open spec fn sexpr_form(&self) -> SExprView {
        SExprView::List(
            seq![
                sym_v("junction"@),
                SExprView::List(seq![sym_v("at"@), num_v(self.position.x), num_v(self.position.y)]),
                field_v("diameter"@, num_v(self.diameter)),
            ] + match self.color {
                Some(c) => seq![color_v(c)],
                None => Seq::empty(),
            } + seq![uuid_v(self.uuid@)],
        )
    }

    fn to_sexpr(&self) -> (r: SExpr) {
        let mut items: Vec<SExpr> = Vec::new();
        push_expr(&mut items, SExpr::symbol("junction"));
        push_expr(&mut items, at_xy(self.position));
        push_expr(&mut items, field("diameter", SExpr::number(self.diameter)));
        match self.color {
            Some(c) => push_expr(&mut items, color_sexpr(c)),
            None => {},
        }
        push_expr(&mut items, uuid_sexpr(&self.uuid));
        assert(views(items@) =~= self.sexpr_form()->List_0);
        list_of(items)
    }
}

/// `(at x y)` without an angle.
fn at_xy(p: Point) -> (r: SExpr)
    ensures
        r@ == SExprView::List(seq![sym_v("at"@), num_v(p.x), num_v(p.y)]),
{
    let mut items: Vec<SExpr> = Vec::new();
    push_expr(&mut items, SExpr::symbol("at"));
    push_expr(&mut items, SExpr::number(p.x));
    push_expr(&mut items, SExpr::number(p.y));
    assert(views(items@) =~= seq![sym_v("at"@), num_v(p.x), num_v(p.y)]);
    list_of(items)
}

/// A no-connect flag.
#[derive(Debug, Clone)]
pub struct NoConnect {
    pub position: Point,
    pub uuid: String,
}

impl ToSExpr for NoConnect {
    open spec fn sexpr_form(&self) -> SExprView {
        SExprView::List(
            seq![
                sym_v("no_connect"@),
                SExprView::List(seq![sym_v("at"@), num_v(self.position.x), num_v(self.position.y)]),
                uuid_v(self.uuid@),
            ],
        )
    }

    fn to_sexpr(&self) -> (r: SExpr) {
        let mut items: Vec<SExpr> = Vec::new();
        push_expr(&mut items, SExpr::symbol("no_connect"));
        push_expr(&mut items, at_xy(self.position));
        push_expr(&mut items, uuid_sexpr(&self.uuid));
        assert(views(items@) =~= self.sexpr_form()->List_0);
        list_of(items)
    }
}

/// `(pts (xy …) …)`.
pub open spec fn pts_v(points: Seq<Point>) -> SExprView {
    SExprView::List(seq![sym_v("pts"@)] + forms(points))
}

fn pts_sexpr(points: &Vec<Point>) -> (r: SExpr)
    ensures
        r@ == pts_v(points@),
{
    let mut items: Vec<SExpr> = Vec::new();
    push_expr(&mut items, SExpr::symbol("pts"));
    assert(views(items@) =~= seq![sym_v("pts"@)]);
    push_all(&mut items, points);
    list_of(items)
}

/// A wire: its points, stroke and uuid.
#[derive(Debug, Clone)]
pub struct Wire {
    pub points: Vec<Point>,
    pub stroke: Stroke,
    pub uuid: String,
}

impl ToSExpr for Wire {
    open spec fn sexpr_form(&self) -> SExprView {
        SExprView::List(seq![sym_v("wire"@), pts_v(self.points@), self.stroke.sexpr_form(), uuid_v(self.uuid@)])
    }

    fn to_sexpr(&self) -> (r: SExpr) {
        let mut items: Vec<SExpr> = Vec::new();
        push_expr(&mut items, SExpr::symbol("wire"));
        push_expr(&mut items, pts_sexpr(&self.points));
        push_expr(&mut items, self.stroke.to_sexpr());
        push_expr(&mut items, uuid_sexpr(&self.uuid));
        assert(views(items@) =~= self.sexpr_form()->List_0);
        list_of(items)
    }
}

/// A bus: its points, stroke and uuid.
#[derive(Debug, Clone)]
pub struct Bus {
    pub points: Vec<Point>,
    pub stroke: Stroke,
    pub uuid: String,
}

impl ToSExpr for Bus {
    open spec fn sexpr_form(&self) -> SExprView {
        SExprView::List(seq![sym_v("bus"@), pts_v(self.points@), self.stroke.sexpr_form(), uuid_v(self.uuid@)])
    }

    fn to_sexpr(&self) -> (r: SExpr) {
        let mut items: Vec<SExpr> = Vec::new();
        push_expr(&mut items, SExpr::symbol("bus"));
        push_expr(&mut items, pts_sexpr(&self.points));
        push_expr(&mut items, self.stroke.to_sexpr());
        push_expr(&mut items, uuid_sexpr(&self.uuid));
        assert(views(items@) =~= self.sexpr_form()->List_0);
        list_of(items)
    }
}

/// A bus entry: position, size, stroke and uuid.
#[derive(Debug, Clone)]
pub struct BusEntry {
    pub position: Point,
    pub size: Point,
    pub stroke: Stroke,
    pub uuid: String,
}

impl ToSExpr for BusEntry {
    open spec fn sexpr_form(&self) -> SExprView {
        SExprView::List(
            seq![
                sym_v("bus_entry"@),
                SExprView::List(seq![sym_v("at"@), num_v(self.position.x), num_v(self.position.y)]),
                SExprView::List(seq![sym_v("size"@), num_v(self.size.x), num_v(self.size.y)]),
                self.stroke.sexpr_form(),
                uuid_v(self.uuid@),
            ],
        )
    }

    fn to_sexpr(&self) -> (r: SExpr) {
        let mut items: Vec<SExpr> = Vec::new();
        push_expr(&mut items, SExpr::symbol("bus_entry"));
        push_expr(&mut items, at_xy(self.position));
        let mut sz: Vec<SExpr> = Vec::new();
        push_expr(&mut sz, SExpr::symbol("size"));
        push_expr(&mut sz, SExpr::number(self.size.x));
        push_expr(&mut sz, SExpr::number(self.size.y));
        assert(views(sz@) =~= seq![sym_v("size"@), num_v(self.size.x), num_v(self.size.y)]);
        push_expr(&mut items, list_of(sz));
        push_expr(&mut items, self.stroke.to_sexpr());
        push_expr(&mut items, uuid_sexpr(&self.uuid));
        assert(views(items@) =~= self.sexpr_form()->List_0);
        list_of(items)
    }
}

pub open spec fn opt_effects(e: Option<Effects>) -> Seq<SExprView> {
    match e {
        Some(x) => seq![x.sexpr_form()],
        None => Seq::empty(),
    }
}

pub open spec fn autoplaced(b: bool) -> Seq<SExprView> {
    if b {
        seq![field_v("fields_autoplaced"@, sym_v("yes"@))]
    } else {
        Seq::empty()
    }
}

fn push_effects(items: &mut Vec<SExpr>, e: &Option<Effects>)
    ensures
        views(final(items)@) == views(old(items)@) + opt_effects(*e),
{
    match e {
        Some(x) => push_expr(items, x.to_sexpr()),
        None => {},
    }
    assert(views(items@) =~= views(old(items)@) + opt_effects(*e));
}

fn push_autoplaced(items: &mut Vec<SExpr>, b: bool)
    ensures
        views(final(items)@) == views(old(items)@) + autoplaced(b),
{
    if b {
        push_expr(items, field("fields_autoplaced", SExpr::symbol("yes")));
    }
    assert(views(items@) =~= views(old(items)@) + autoplaced(b));
}

/// A text item on the sheet.
#[derive(Debug, Clone)]
pub struct TextItem {
    pub text: String,
    pub position: Position,
    pub effects: Option<Effects>,
    pub uuid: String,
}

impl ToSExpr for TextItem {
    open spec fn sexpr_form(&self) -> SExprView {
        SExprView::List(
            seq![sym_v("text"@), str_v(self.text@), self.position.sexpr_form()] + opt_effects(self.effects) + seq![
                uuid_v(self.uuid@),
            ],
        )
    }

    fn to_sexpr(&self) -> (r: SExpr) {
        let mut items: Vec<SExpr> = Vec::new();
        push_expr(&mut items, SExpr::symbol("text"));
        push_expr(&mut items, SExpr::string(self.text.as_str()));
        push_expr(&mut items, self.position.to_sexpr());
        push_effects(&mut items, &self.effects);
        push_expr(&mut items, uuid_sexpr(&self.uuid));
        assert(views(items@) =~= self.sexpr_form()->List_0);
        list_of(items)
    }
}

/// A local label.
#[derive(Debug, Clone)]
pub struct Label {
    pub text: String,
    pub position: Position,
    pub fields_autoplaced: bool,
    pub effects: Option<Effects>,
    pub uuid: String,
}

impl ToSExpr for Label {
    open spec fn sexpr_form(&self) -> SExprView {
        SExprView::List(
            seq![sym_v("label"@), str_v(self.text@), self.position.sexpr_form()] + autoplaced(self.fields_autoplaced)
                + opt_effects(self.effects) + seq![uuid_v(self.uuid@)],
        )
    }

    fn to_sexpr(&self) -> (r: SExpr) {
        let mut items: Vec<SExpr> = Vec::new();
        push_expr(&mut items, SExpr::symbol("label"));
        push_expr(&mut items, SExpr::string(self.text.as_str()));
        push_expr(&mut items, self.position.to_sexpr());
        push_autoplaced(&mut items, self.fields_autoplaced);
        push_effects(&mut items, &self.effects);
        push_expr(&mut items, uuid_sexpr(&self.uuid));
        assert(views(items@) =~= self.sexpr_form()->List_0);
        list_of(items)
    }
}

/// A global or hierarchical label: `kind` names which.
pub open spec fn shaped_label_v(
    kind: Seq<char>,
    text: Seq<char>,
    shape: LabelShape,
    position: Position,
    fields_autoplaced: bool,
    effects: Option<Effects>,
    uuid: Seq<char>,
    properties: Seq<Property>,
) -> SExprView {
    SExprView::List(
        seq![sym_v(kind), str_v(text), field_v("shape"@, sym_v(shape.keyword())), position.sexpr_form()]
            + autoplaced(fields_autoplaced) + opt_effects(effects) + seq![uuid_v(uuid)] + forms(properties),
    )
}

fn shaped_label_sexpr(
    kind: &str,
    text: &String,
    shape: LabelShape,
    position: Position,
    fields_autoplaced: bool,
    effects: &Option<Effects>,
    uuid: &String,
    properties: &Vec<Property>,
) -> (r: SExpr)
    ensures
        r@ == shaped_label_v(kind@, text@, shape, position, fields_autoplaced, *effects, uuid@, properties@),
{
    let mut items: Vec<SExpr> = Vec::new();
    push_expr(&mut items, SExpr::symbol(kind));
    push_expr(&mut items, SExpr::string(text.as_str()));
    push_expr(&mut items, field("shape", SExpr::symbol(shape.as_str())));
    push_expr(&mut items, position.to_sexpr());
    push_autoplaced(&mut items, fields_autoplaced);
    push_effects(&mut items, effects);
    push_expr(&mut items, uuid_sexpr(uuid));
    push_all(&mut items, properties);
    assert(views(items@) =~= shaped_label_v(kind@, text@, shape, position, fields_autoplaced, *effects, uuid@, properties@)->List_0);
    list_of(items)
}

/// A global label.
#[derive(Debug, Clone)]
pub struct GlobalLabel {
    pub text: String,
    pub shape: LabelShape,
    pub position: Position,
    pub fields_autoplaced: bool,
    pub effects: Option<Effects>,
    pub uuid: String,
    pub properties: Vec<Property>,
}

impl ToSExpr for GlobalLabel {
    open spec fn sexpr_form(&self) -> SExprView {
        shaped_label_v("global_label"@, self.text@, self.shape, self.position, self.fields_autoplaced, self.effects, self.uuid@, self.properties@)
    }

    fn to_sexpr(&self) -> (r: SExpr) {
        shaped_label_sexpr(
            "global_label",
            &self.text,
            self.shape,
            self.position,
            self.fields_autoplaced,
            &self.effects,
            &self.uuid,
            &self.properties,
        )
    }
}

/// A hierarchical label.
#[derive(Debug, Clone)]
pub struct HierarchicalLabel {
    pub text: String,
    pub shape: LabelShape,
    pub position: Position,
    pub fields_autoplaced: bool,
    pub effects: Option<Effects>,
    pub uuid: String,
    pub properties: Vec<Property>,
}

impl ToSExpr for HierarchicalLabel {
    open spec fn sexpr_form(&self) -> SExprView {
        shaped_label_v("hierarchical_label"@, self.text@, self.shape, self.position, self.fields_autoplaced, self.effects, self.uuid@, self.properties@)
    }

    fn to_sexpr(&self) -> (r: SExpr) {
        shaped_label_sexpr(
            "hierarchical_label",
            &self.text,
            self.shape,
            self.position,
            self.fields_autoplaced,
            &self.effects,
            &self.uuid,
            &self.properties,
        )
    }
}

impl ToSExpr for PinInstance {
    open spec fn sexpr_form(&self) -> SExprView {
        SExprView::List(seq![sym_v("pin"@), str_v(self.number@), uuid_v(self.uuid@)])
    }

    fn to_sexpr(&self) -> (r: SExpr) {
        let mut items: Vec<SExpr> = Vec::new();
        push_expr(&mut items, SExpr::symbol("pin"));
        push_expr(&mut items, SExpr::string(self.number.as_str()));
        push_expr(&mut items, uuid_sexpr(&self.uuid));
        assert(views(items@) =~= self.sexpr_form()->List_0);
        list_of(items)
    }
}

impl ToSExpr for PathInstance {
    open spec fn sexpr_form(&self) -> SExprView {
        SExprView::List(
            seq![
                sym_v("path"@),
                str_v(self.path@),
                field_v("reference"@, str_v(self.reference@)),
                field_v("unit"@, num_v(whole(self.unit as int))),
            ],
        )
    }

    fn to_sexpr(&self) -> (r: SExpr) {
        let mut items: Vec<SExpr> = Vec::new();
        push_expr(&mut items, SExpr::symbol("path"));
        push_expr(&mut items, SExpr::string(self.path.as_str()));
        push_expr(&mut items, field("reference", SExpr::string(self.reference.as_str())));
        push_expr(&mut items, field("unit", SExpr::number(Decimal { mantissa: self.unit as i64, scale: 0 })));
        assert(views(items@) =~= self.sexpr_form()->List_0);
        list_of(items)
    }
}

impl ToSExpr for ProjectInstance {
    open spec fn sexpr_form(&self) -> SExprView {
        SExprView::List(seq![sym_v("project"@), str_v(self.project_name@)] + forms(self.paths@))
    }

    fn to_sexpr(&self) -> (r: SExpr) {
        let mut items: Vec<SExpr> = Vec::new();
        push_expr(&mut items, SExpr::symbol("project"));
        push_expr(&mut items, SExpr::string(self.project_name.as_str()));
        assert(views(items@) =~= seq![sym_v("project"@), str_v(self.project_name@)]);
        push_all(&mut items, &self.paths);
        list_of(items)
    }
}

impl ToSExpr for SheetInstance {
    open spec fn sexpr_form(&self) -> SExprView {
        SExprView::List(seq![sym_v("path"@), str_v(self.path@), field_v("page"@, str_v(self.page@))])
    }

    fn to_sexpr(&self) -> (r: SExpr) {
        let mut items: Vec<SExpr> = Vec::new();
        push_expr(&mut items, SExpr::symbol("path"));
        push_expr(&mut items, SExpr::string(self.path.as_str()));
        push_expr(&mut items, field("page", SExpr::string(self.page.as_str())));
        assert(views(items@) =~= self.sexpr_form()->List_0);
        list_of(items)
    }
}

pub open spec fn opt_text_field(name: Seq<char>, t: Option<String>) -> Seq<SExprView> {
    match t {
        Some(s) => seq![field_v(name, str_v(s@))],
        None => Seq::empty(),
    }
}

fn push_text_field(items: &mut Vec<SExpr>, name: &str, t: &Option<String>)
    ensures
        views(final(items)@) == views(old(items)@) + opt_text_field(name@, *t),
{
    match t {
        Some(s) => push_expr(items, field(name, SExpr::string(s.as_str()))),
        None => {},
    }
    assert(views(items@) =~= views(old(items)@) + opt_text_field(name@, *t));
}

pub open spec fn comment_v(c: (u8, String)) -> SExprView {
    SExprView::List(seq![sym_v("comment"@), num_v(whole(c.0 as int)), str_v(c.1@)])
}

impl ToSExpr for TitleBlock {
    open spec fn sexpr_form(&self) -> SExprView {
        SExprView::List(
            seq![sym_v("title_block"@)] + opt_text_field("title"@, self.title) + opt_text_field("date"@, self.date)
                + opt_text_field("rev"@, self.rev) + opt_text_field("company"@, self.company)
                + self.comments@.map_values(|c: (u8, String)| comment_v(c)),
        )
    }

    fn to_sexpr(&self) -> (r: SExpr) {
        let mut items: Vec<SExpr> = Vec::new();
        push_expr(&mut items, SExpr::symbol("title_block"));
        assert(views(items@) =~= seq![sym_v("title_block"@)]);
        push_text_field(&mut items, "title", &self.title);
        push_text_field(&mut items, "date", &self.date);
        push_text_field(&mut items, "rev", &self.rev);
        push_text_field(&mut items, "company", &self.company);
        let ghost start = views(items@);
        let mut k: usize = 0;
        while k < self.comments.len()
            invariant
                k <= self.comments@.len(),
                views(items@) == start + self.comments@.take(k as int).map_values(|c: (u8, String)| comment_v(c)),
            decreases self.comments@.len() - k,
        {
            let mut c: Vec<SExpr> = Vec::new();
            push_expr(&mut c, SExpr::symbol("comment"));
            push_expr(&mut c, SExpr::number(Decimal { mantissa: self.comments[k].0 as i64, scale: 0 }));
            push_expr(&mut c, SExpr::string(self.comments[k].1.as_str()));
            assert(views(c@) =~= comment_v(self.comments@[k as int])->List_0);
            push_expr(&mut items, list_of(c));
            assert(self.comments@.take(k + 1).map_values(|c: (u8, String)| comment_v(c)) =~= self.comments@.take(
                k as int,
            ).map_values(|c: (u8, String)| comment_v(c)).push(comment_v(self.comments@[k as int])));
            k = k + 1;
        }
        assert(self.comments@.take(self.comments@.len() as int) == self.comments@);
        assert(views(items@) =~= self.sexpr_form()->List_0);
        list_of(items)
    }
}

pub open spec fn flag_v(name: Seq<char>, b: bool) -> SExprView {
    field_v(name, sym_v(yes_no(b)))
}

fn flag(name: &str, b: bool) -> (r: SExpr)
    ensures
        r@ == flag_v(name@, b),
{
    field(name, SExpr::symbol(yes_no_exec(b)))
}

/// `(name items…)`, left out when there are no items.
pub open spec fn block_v<T: ToSExpr>(name: Seq<char>, v: Seq<T>) -> Seq<SExprView> {
    if v.len() == 0 {
        Seq::empty()
    } else {
        seq![SExprView::List(seq![sym_v(name)] + forms(v))]
    }
}

fn push_block<T: ToSExpr>(items: &mut Vec<SExpr>, name: &str, v: &Vec<T>)
    ensures
        views(final(items)@) == views(old(items)@) + block_v(name@, v@),
{
    if v.len() > 0 {
        let mut inner: Vec<SExpr> = Vec::new();
        push_expr(&mut inner, SExpr::symbol(name));
        assert(views(inner@) =~= seq![sym_v(name@)]);
        push_all(&mut inner, v);
        push_expr(items, list_of(inner));
    }
    assert(views(items@) =~= views(old(items)@) + block_v(name@, v@));
}

/// A placed symbol.
#[derive(Debug, Clone)]
pub struct SymbolInstance {
    pub lib_id: String,
    pub position: Position,
    pub unit: u32,
    pub exclude_from_sim: bool,
    pub in_bom: bool,
    pub on_board: bool,
    pub dnp: bool,
    pub fields_autoplaced: bool,
    pub uuid: String,
    pub properties: Vec<Property>,
    pub pins: Vec<PinInstance>,
    pub instances: Vec<ProjectInstance>,
    pub mirror: Option<Mirror>,
}

impl ToSExpr for SymbolInstance {
    open spec fn sexpr_form(&self) -> SExprView {
        SExprView::List(
            seq![sym_v("symbol"@), field_v("lib_id"@, str_v(self.lib_id@)), self.position.sexpr_form()]
                + match self.mirror {
                Some(m) => seq![field_v("mirror"@, sym_v(m.keyword()))],
                None => Seq::empty(),
            } + seq![
                field_v("unit"@, num_v(whole(self.unit as int))),
                flag_v("exclude_from_sim"@, self.exclude_from_sim),
                flag_v("in_bom"@, self.in_bom),
                flag_v("on_board"@, self.on_board),
                flag_v("dnp"@, self.dnp),
            ] + autoplaced(self.fields_autoplaced) + seq![uuid_v(self.uuid@)] + forms(self.properties@) + forms(
                self.pins@,
            ) + block_v("instances"@, self.instances@),
        )
    }

    fn to_sexpr(&self) -> (r: SExpr) {
        let mut items: Vec<SExpr> = Vec::new();
        push_expr(&mut items, SExpr::symbol("symbol"));
        push_expr(&mut items, field("lib_id", SExpr::string(self.lib_id.as_str())));
        push_expr(&mut items, self.position.to_sexpr());
        match self.mirror {
            Some(m) => push_expr(&mut items, field("mirror", SExpr::symbol(m.as_str()))),
            None => {},
        }
        push_expr(&mut items, field("unit", SExpr::number(Decimal { mantissa: self.unit as i64, scale: 0 })));
        push_expr(&mut items, flag("exclude_from_sim", self.exclude_from_sim));
        push_expr(&mut items, flag("in_bom", self.in_bom));
        push_expr(&mut items, flag("on_board", self.on_board));
        push_expr(&mut items, flag("dnp", self.dnp));
        push_autoplaced(&mut items, self.fields_autoplaced);
        push_expr(&mut items, uuid_sexpr(&self.uuid));
        let ghost mid = views(items@);
        push_all(&mut items, &self.properties);
        push_all(&mut items, &self.pins);
        push_block(&mut items, "instances", &self.instances);
        assert(views(items@) =~= self.sexpr_form()->List_0);
        list_of(items)
    }
}

/// The larger of two scales.
pub open spec fn max_scale(a: Decimal, b: Decimal) -> nat {
    if a.scale >= b.scale {
        a.scale as nat
    } else {
        b.scale as nat
    }
}

/// The mantissa of `d` written at scale `s` (not below its own).
pub open spec fn mantissa_at(d: Decimal, s: nat) -> int {
    d.mantissa * pow10((s - d.scale) as nat)
}

/// The exact sum of two decimals, at the larger scale.
pub open spec fn dec_sum(a: Decimal, b: Decimal) -> Decimal {
    let s = max_scale(a, b);
    Decimal { mantissa: (mantissa_at(a, s) + mantissa_at(b, s)) as i64, scale: s as u32 }
}

/// Whether the exact sum of two decimals can be held: scales at most eighteen apart and
/// the mantissa within range.
pub open spec fn dec_sum_fits(a: Decimal, b: Decimal) -> bool {
    let s = max_scale(a, b);
    &&& s - a.scale <= 18
    &&& s - b.scale <= 18
    &&& i64::MIN <= mantissa_at(a, s) + mantissa_at(b, s) <= i64::MAX
}

proof fn lemma_pow10_positive(k: nat)
    ensures
        pow10(k) >= 1,
    decreases k,
{
    if k > 0 {
        lemma_pow10_positive((k - 1) as nat);
    }
}

/// The exact sum of two decimals, where it can be held.
fn dec_add_checked(a: Decimal, b: Decimal) -> (r: Option<Decimal>)
    ensures
        r is Some <==> dec_sum_fits(a, b),
        r matches Some(d) ==> d == dec_sum(a, b),
{
    let s: u32 = if a.scale >= b.scale {
        a.scale
    } else {
        b.scale
    };
    if s - a.scale > 18 || s - b.scale > 18 {
        return None;
    }
    let fa = pow10_exec(s - a.scale) as i128;
    let fb = pow10_exec(s - b.scale) as i128;
    proof {
        lemma_pow10_positive((s - a.scale) as nat);
        lemma_pow10_positive((s - b.scale) as nat);
        assert(pow10(18) == 1_000_000_000_000_000_000) by {
            reveal_with_fuel(pow10, 19);
        }
        lemma_pow10_monotone((s - a.scale) as nat, 18);
        lemma_pow10_monotone((s - b.scale) as nat, 18);
    }
    let ma = a.mantissa as i128;
    let mb = b.mantissa as i128;
    assert(-0x8000_0000_0000_0000 * 1_000_000_000_000_000_000 <= ma * fa <= 0x7fff_ffff_ffff_ffff * 1_000_000_000_000_000_000)
        by (nonlinear_arith)
        requires
            -0x8000_0000_0000_0000 <= ma <= 0x7fff_ffff_ffff_ffff,
            1 <= fa <= 1_000_000_000_000_000_000,
    ;
    assert(-0x8000_0000_0000_0000 * 1_000_000_000_000_000_000 <= mb * fb <= 0x7fff_ffff_ffff_ffff * 1_000_000_000_000_000_000)
        by (nonlinear_arith)
        requires
            -0x8000_0000_0000_0000 <= mb <= 0x7fff_ffff_ffff_ffff,
            1 <= fb <= 1_000_000_000_000_000_000,
    ;
    let m = ma * fa + mb * fb;
    if m < i64::MIN as i128 || m > i64::MAX as i128 {
        None
    } else {
        Some(Decimal { mantissa: m as i64, scale: s })
    }
}

fn dec_add(a: Decimal, b: Decimal) -> (r: Decimal)
    requires
        dec_sum_fits(a, b),
    ensures
        r == dec_sum(a, b),
{
    match dec_add_checked(a, b) {
        Some(d) => d,
        None => a,
    }
}

proof fn lemma_pow10_monotone(k: nat, n: nat)
    requires
        k <= n,
    ensures
        pow10(k) <= pow10(n),
    decreases n - k,
{
    if k < n {
        lemma_pow10_monotone(k, (n - 1) as nat);
        lemma_pow10_positive((n - 1) as nat);
    }
}

/// A pin of a hierarchical sheet.
#[derive(Debug, Clone)]
pub struct SheetPin {
    pub name: String,
    pub shape: LabelShape,
    pub position: Position,
    pub uuid: String,
}

/// The effects of a sheet's pins and properties: 1.27 mm text, justified as given.
pub open spec fn small_text(j: Justify) -> Effects {
    Effects {
        font: Some(Font { size: Some((Decimal { mantissa: 127, scale: 2 }, Decimal { mantissa: 127, scale: 2 })), thickness: None, bold: false, italic: false }),
        justify: Some(j),
        hide: false,
    }
}

fn small_text_exec(j: Justify) -> (r: Effects)
    ensures
        r == small_text(j),
{
    Effects {
        font: Some(Font { size: Some((Decimal { mantissa: 127, scale: 2 }, Decimal { mantissa: 127, scale: 2 })), thickness: None, bold: false, italic: false }),
        justify: Some(j),
        hide: false,
    }
}

impl ToSExpr for SheetPin {
    open spec fn sexpr_form(&self) -> SExprView {
        SExprView::List(
            seq![
                sym_v("pin"@),
                str_v(self.name@),
                sym_v(self.shape.keyword()),
                self.position.sexpr_form(),
                uuid_v(self.uuid@),
                small_text(Justify { horizontal: HorizontalJustify::Right, vertical: VerticalJustify::Center, mirror: false }).sexpr_form(),
            ],
        )
    }

    fn to_sexpr(&self) -> (r: SExpr) {
        let mut items: Vec<SExpr> = Vec::new();
        push_expr(&mut items, SExpr::symbol("pin"));
        push_expr(&mut items, SExpr::string(self.name.as_str()));
        push_expr(&mut items, SExpr::symbol(self.shape.as_str()));
        push_expr(&mut items, self.position.to_sexpr());
        push_expr(&mut items, uuid_sexpr(&self.uuid));
        let e = small_text_exec(Justify { horizontal: HorizontalJustify::Right, vertical: VerticalJustify::Center, mirror: false });
        push_expr(&mut items, e.to_sexpr());
        assert(views(items@) =~= self.sexpr_form()->List_0);
        list_of(items)
    }
}

/// A sheet's project instance: the project and the sheet's pages in it.
#[derive(Debug, Clone)]
pub struct SheetProjectInstance {
    pub project_name: String,
    pub paths: Vec<SheetInstance>,
}

impl ToSExpr for SheetProjectInstance {
    open spec fn sexpr_form(&self) -> SExprView {
        SExprView::List(seq![sym_v("project"@), str_v(self.project_name@)] + forms(self.paths@))
    }

    fn to_sexpr(&self) -> (r: SExpr) {
        let mut items: Vec<SExpr> = Vec::new();
        push_expr(&mut items, SExpr::symbol("project"));
        push_expr(&mut items, SExpr::string(self.project_name.as_str()));
        assert(views(items@) =~= seq![sym_v("project"@), str_v(self.project_name@)]);
        push_all(&mut items, &self.paths);
        list_of(items)
    }
}

/// A hierarchical sheet: where it sits, its size, flags, identity, name, file, pins and
/// page instances.
#[derive(Debug, Clone)]
pub struct Sheet {
    pub position: Point,
    pub size: Point,
    pub exclude_from_sim: bool,
    pub in_bom: bool,
    pub on_board: bool,
    pub dnp: bool,
    pub fields_autoplaced: bool,
    pub uuid: String,
    pub sheet_name: String,
    pub sheet_file: String,
    pub pins: Vec<SheetPin>,
    pub instances: Vec<SheetProjectInstance>,
}

pub open spec fn name_offset() -> Decimal {
    Decimal { mantissa: -7116i64, scale: 4 }
}

pub open spec fn file_offset() -> Decimal {
    Decimal { mantissa: 5846, scale: 4 }
}

/// A sheet's numbers can be added exactly: the name above it, the file below it.
pub open spec fn sheet_fits(s: Sheet) -> bool {
    &&& dec_sum_fits(s.position.y, name_offset())
    &&& dec_sum_fits(s.position.y, s.size.y)
    &&& dec_sum_fits(dec_sum(s.position.y, s.size.y), file_offset())
}

pub open spec fn sheet_property(name: Seq<char>, value: Seq<char>, x: Decimal, y: Decimal, j: Justify) -> SExprView {
    SExprView::List(
        seq![
            sym_v("property"@),
            str_v(name),
            str_v(value),
            SExprView::List(seq![sym_v("at"@), num_v(x), num_v(y), num_v(Decimal { mantissa: 0, scale: 0 })]),
            small_text(j).sexpr_form(),
        ],
    )
}

/// The expression a sheet is written as.
pub open spec fn sheet_sexpr(s: Sheet) -> SExprView {
    SExprView::List(
        seq![
            sym_v("sheet"@),
            SExprView::List(seq![sym_v("at"@), num_v(s.position.x), num_v(s.position.y)]),
            SExprView::List(seq![sym_v("size"@), num_v(s.size.x), num_v(s.size.y)]),
            flag_v("exclude_from_sim"@, s.exclude_from_sim),
            flag_v("in_bom"@, s.in_bom),
            flag_v("on_board"@, s.on_board),
            flag_v("dnp"@, s.dnp),
        ] + autoplaced(s.fields_autoplaced) + seq![
            SExprView::List(
                seq![
                    sym_v("stroke"@),
                    field_v("width"@, num_v(Decimal { mantissa: 1524, scale: 4 })),
                    field_v("type"@, sym_v("solid"@)),
                ],
            ),
            SExprView::List(seq![sym_v("fill"@), color_v(Color { r: 0, g: 0, b: 0, a: 0 })]),
            uuid_v(s.uuid@),
            sheet_property(
                "Sheetname"@,
                s.sheet_name@,
                s.position.x,
                dec_sum(s.position.y, name_offset()),
                Justify { horizontal: HorizontalJustify::Left, vertical: VerticalJustify::Bottom, mirror: false },
            ),
            sheet_property(
                "Sheetfile"@,
                s.sheet_file@,
                s.position.x,
                dec_sum(dec_sum(s.position.y, s.size.y), file_offset()),
                Justify { horizontal: HorizontalJustify::Left, vertical: VerticalJustify::Top, mirror: false },
            ),
        ] + forms(s.pins@) + block_v("instances"@, s.instances@),
    )
}

fn sheet_property_exec(name: &str, value: &String, x: Decimal, y: Decimal, j: Justify) -> (r: SExpr)
    ensures
        r@ == sheet_property(name@, value@, x, y, j),
{
    let mut at: Vec<SExpr> = Vec::new();
    push_expr(&mut at, SExpr::symbol("at"));
    push_expr(&mut at, SExpr::number(x));
    push_expr(&mut at, SExpr::number(y));
    push_expr(&mut at, SExpr::number(Decimal { mantissa: 0, scale: 0 }));
    assert(views(at@) =~= seq![sym_v("at"@), num_v(x), num_v(y), num_v(Decimal { mantissa: 0, scale: 0 })]);
    let mut items: Vec<SExpr> = Vec::new();
    push_expr(&mut items, SExpr::symbol("property"));
    push_expr(&mut items, SExpr::string(name));
    push_expr(&mut items, SExpr::string(value.as_str()));
    push_expr(&mut items, list_of(at));
    push_expr(&mut items, small_text_exec(j).to_sexpr());
    assert(views(items@) =~= sheet_property(name@, value@, x, y, j)->List_0);
    list_of(items)
}

/// Write a hierarchical sheet, as `sheet_sexpr` states.
pub fn sheet_to_sexpr(s: &Sheet) -> (r: SExpr)
    requires
        sheet_fits(*s),
    ensures
        r@ == sheet_sexpr(*s),
{
    let mut items: Vec<SExpr> = Vec::new();
    push_expr(&mut items, SExpr::symbol("sheet"));
    push_expr(&mut items, at_xy(s.position));
    let mut sz: Vec<SExpr> = Vec::new();
    push_expr(&mut sz, SExpr::symbol("size"));
    push_expr(&mut sz, SExpr::number(s.size.x));
    push_expr(&mut sz, SExpr::number(s.size.y));
    assert(views(sz@) =~= seq![sym_v("size"@), num_v(s.size.x), num_v(s.size.y)]);
    push_expr(&mut items, list_of(sz));
    push_expr(&mut items, flag("exclude_from_sim", s.exclude_from_sim));
    push_expr(&mut items, flag("in_bom", s.in_bom));
    push_expr(&mut items, flag("on_board", s.on_board));
    push_expr(&mut items, flag("dnp", s.dnp));
    push_autoplaced(&mut items, s.fields_autoplaced);
    let mut st: Vec<SExpr> = Vec::new();
    push_expr(&mut st, SExpr::symbol("stroke"));
    push_expr(&mut st, field("width", SExpr::number(Decimal { mantissa: 1524, scale: 4 })));
    push_expr(&mut st, field("type", SExpr::symbol("solid")));
    assert(views(st@) =~= seq![
        sym_v("stroke"@),
        field_v("width"@, num_v(Decimal { mantissa: 1524, scale: 4 })),
        field_v("type"@, sym_v("solid"@)),
    ]);
    push_expr(&mut items, list_of(st));
    let mut fill: Vec<SExpr> = Vec::new();
    push_expr(&mut fill, SExpr::symbol("fill"));
    push_expr(&mut fill, color_sexpr(Color { r: 0, g: 0, b: 0, a: 0 }));
    assert(views(fill@) =~= seq![sym_v("fill"@), color_v(Color { r: 0, g: 0, b: 0, a: 0 })]);
    push_expr(&mut items, list_of(fill));
    push_expr(&mut items, uuid_sexpr(&s.uuid));
    let name_y = dec_add(s.position.y, Decimal { mantissa: -7116, scale: 4 });
    push_expr(
        &mut items,
        sheet_property_exec(
            "Sheetname",
            &s.sheet_name,
            s.position.x,
            name_y,
            Justify { horizontal: HorizontalJustify::Left, vertical: VerticalJustify::Bottom, mirror: false },
        ),
    );
    let bottom = dec_add(s.position.y, s.size.y);
    let file_y = dec_add(bottom, Decimal { mantissa: 5846, scale: 4 });
    push_expr(
        &mut items,
        sheet_property_exec(
            "Sheetfile",
            &s.sheet_file,
            s.position.x,
            file_y,
            Justify { horizontal: HorizontalJustify::Left, vertical: VerticalJustify::Top, mirror: false },
        ),
    );
    push_all(&mut items, &s.pins);
    push_block(&mut items, "instances", &s.instances);
    assert(views(items@) =~= sheet_sexpr(*s)->List_0);
    list_of(items)
}

/// `(start x y)`, `(mid x y)`, `(end x y)`, `(center x y)`.
pub open spec fn corner_v(name: Seq<char>, p: Point) -> SExprView {
    SExprView::List(seq![sym_v(name), num_v(p.x), num_v(p.y)])
}

fn corner(name: &str, p: Point) -> (r: SExpr)
    ensures
        r@ == corner_v(name@, p),
{
    let mut items: Vec<SExpr> = Vec::new();
    push_expr(&mut items, SExpr::symbol(name));
    push_expr(&mut items, SExpr::number(p.x));
    push_expr(&mut items, SExpr::number(p.y));
    assert(views(items@) =~= seq![sym_v(name@), num_v(p.x), num_v(p.y)]);
    list_of(items)
}

impl ToSExpr for Fill {
    open spec fn sexpr_form(&self) -> SExprView {
        SExprView::List(
            seq![sym_v("fill"@), field_v("type"@, sym_v(self.fill_type.keyword()))] + match self.color {
                Some(c) => seq![color_v(c)],
                None => Seq::empty(),
            },
        )
    }

    fn to_sexpr(&self) -> (r: SExpr) {
        let mut items: Vec<SExpr> = Vec::new();
        push_expr(&mut items, SExpr::symbol("fill"));
        push_expr(&mut items, field("type", SExpr::symbol(self.fill_type.as_str())));
        match self.color {
            Some(c) => push_expr(&mut items, color_sexpr(c)),
            None => {},
        }
        assert(views(items@) =~= self.sexpr_form()->List_0);
        list_of(items)
    }
}

/// A rectangle of a symbol's drawing.
#[derive(Debug, Clone, Copy)]
pub struct Rectangle {
    pub start: Point,
    pub end: Point,
    pub stroke: Stroke,
    pub fill: Fill,
}

impl ToSExpr for Rectangle {
    open spec fn sexpr_form(&self) -> SExprView {
        SExprView::List(
            seq![
                sym_v("rectangle"@),
                corner_v("start"@, self.start),
                corner_v("end"@, self.end),
                self.stroke.sexpr_form(),
                self.fill.sexpr_form(),
            ],
        )
    }

    fn to_sexpr(&self) -> (r: SExpr) {
        let mut items: Vec<SExpr> = Vec::new();
        push_expr(&mut items, SExpr::symbol("rectangle"));
        push_expr(&mut items, corner("start", self.start));
        push_expr(&mut items, corner("end", self.end));
        push_expr(&mut items, self.stroke.to_sexpr());
        push_expr(&mut items, self.fill.to_sexpr());
        assert(views(items@) =~= self.sexpr_form()->List_0);
        list_of(items)
    }
}

/// A polyline of a symbol's drawing.
#[derive(Debug, Clone)]
pub struct Polyline {
    pub points: Vec<Point>,
    pub stroke: Stroke,
    pub fill: Fill,
}

impl ToSExpr for Polyline {
    open spec fn sexpr_form(&self) -> SExprView {
        SExprView::List(seq![sym_v("polyline"@), pts_v(self.points@), self.stroke.sexpr_form(), self.fill.sexpr_form()])
    }

    fn to_sexpr(&self) -> (r: SExpr) {
        let mut items: Vec<SExpr> = Vec::new();
        push_expr(&mut items, SExpr::symbol("polyline"));
        push_expr(&mut items, pts_sexpr(&self.points));
        push_expr(&mut items, self.stroke.to_sexpr());
        push_expr(&mut items, self.fill.to_sexpr());
        assert(views(items@) =~= self.sexpr_form()->List_0);
        list_of(items)
    }
}

/// A circle of a symbol's drawing.
#[derive(Debug, Clone, Copy)]
pub struct Circle {
    pub center: Point,
    pub radius: Decimal,
    pub stroke: Stroke,
    pub fill: Fill,
}

impl ToSExpr for Circle {
    open spec fn sexpr_form(&self) -> SExprView {
        SExprView::List(
            seq![
                sym_v("circle"@),
                corner_v("center"@, self.center),
                field_v("radius"@, num_v(self.radius)),
                self.stroke.sexpr_form(),
                self.fill.sexpr_form(),
            ],
        )
    }

    fn to_sexpr(&self) -> (r: SExpr) {
        let mut items: Vec<SExpr> = Vec::new();
        push_expr(&mut items, SExpr::symbol("circle"));
        push_expr(&mut items, corner("center", self.center));
        push_expr(&mut items, field("radius", SExpr::number(self.radius)));
        push_expr(&mut items, self.stroke.to_sexpr());
        push_expr(&mut items, self.fill.to_sexpr());
        assert(views(items@) =~= self.sexpr_form()->List_0);
        list_of(items)
    }
}

/// An arc of a symbol's drawing, through three points.
#[derive(Debug, Clone, Copy)]
pub struct Arc {
    pub start: Point,
    pub mid: Point,
    pub end: Point,
    pub stroke: Stroke,
    pub fill: Fill,
}

impl ToSExpr for Arc {
    open spec fn sexpr_form(&self) -> SExprView {
        SExprView::List(
            seq![
                sym_v("arc"@),
                corner_v("start"@, self.start),
                corner_v("mid"@, self.mid),
                corner_v("end"@, self.end),
                self.stroke.sexpr_form(),
                self.fill.sexpr_form(),
            ],
        )
    }

    fn to_sexpr(&self) -> (r: SExpr) {
        let mut items: Vec<SExpr> = Vec::new();
        push_expr(&mut items, SExpr::symbol("arc"));
        push_expr(&mut items, corner("start", self.start));
        push_expr(&mut items, corner("mid", self.mid));
        push_expr(&mut items, corner("end", self.end));
        push_expr(&mut items, self.stroke.to_sexpr());
        push_expr(&mut items, self.fill.to_sexpr());
        assert(views(items@) =~= self.sexpr_form()->List_0);
        list_of(items)
    }
}

/// A text of a symbol's drawing.
#[derive(Debug, Clone)]
pub struct Text {
    pub text: String,
    pub position: Position,
    pub effects: Option<Effects>,
}

impl ToSExpr for Text {
    open spec fn sexpr_form(&self) -> SExprView {
        SExprView::List(seq![sym_v("text"@), str_v(self.text@), self.position.sexpr_form()] + opt_effects(self.effects))
    }

    fn to_sexpr(&self) -> (r: SExpr) {
        let mut items: Vec<SExpr> = Vec::new();
        push_expr(&mut items, SExpr::symbol("text"));
        push_expr(&mut items, SExpr::string(self.text.as_str()));
        push_expr(&mut items, self.position.to_sexpr());
        push_effects(&mut items, &self.effects);
        assert(views(items@) =~= self.sexpr_form()->List_0);
        list_of(items)
    }
}

/// One drawing item of a symbol.
#[derive(Debug, Clone)]
pub enum GraphicItem {
    Rectangle(Rectangle),
    Polyline(Polyline),
    Circle(Circle),
    Arc(Arc),
    Text(Text),
}

impl ToSExpr for GraphicItem {
    open spec fn sexpr_form(&self) -> SExprView {
        match self {
            GraphicItem::Rectangle(r) => r.sexpr_form(),
            GraphicItem::Polyline(p) => p.sexpr_form(),
            GraphicItem::Circle(c) => c.sexpr_form(),
            GraphicItem::Arc(a) => a.sexpr_form(),
            GraphicItem::Text(t) => t.sexpr_form(),
        }
    }

    fn to_sexpr(&self) -> (r: SExpr) {
        match self {
            GraphicItem::Rectangle(r) => r.to_sexpr(),
            GraphicItem::Polyline(p) => p.to_sexpr(),
            GraphicItem::Circle(c) => c.to_sexpr(),
            GraphicItem::Arc(a) => a.to_sexpr(),
            GraphicItem::Text(t) => t.to_sexpr(),
        }
    }
}

/// A pin's name or number text, with optional effects.
#[derive(Debug, Clone)]
pub struct PinText {
    pub text: String,
    pub effects: Option<Effects>,
}

pub open spec fn pin_text_v(name: Seq<char>, t: PinText) -> SExprView {
    SExprView::List(seq![sym_v(name), str_v(t.text@)] + opt_effects(t.effects))
}

fn pin_text_sexpr(name: &str, t: &PinText) -> (r: SExpr)
    ensures
        r@ == pin_text_v(name@, *t),
{
    let mut items: Vec<SExpr> = Vec::new();
    push_expr(&mut items, SExpr::symbol(name));
    push_expr(&mut items, SExpr::string(t.text.as_str()));
    push_effects(&mut items, &t.effects);
    assert(views(items@) =~= pin_text_v(name@, *t)->List_0);
    list_of(items)
}

/// A pin of a symbol.
#[derive(Debug, Clone)]
pub struct Pin {
    pub electrical_type: PinElectricalType,
    pub graphic_style: PinGraphicStyle,
    pub position: Position,
    pub length: Decimal,
    pub name: PinText,
    pub number: PinText,
    pub hide: bool,
}

impl ToSExpr for Pin {
    /// `hide` stands before `name`, as KiCAD reads it.
    open spec fn sexpr_form(&self) -> SExprView {
        SExprView::List(
            seq![
                sym_v("pin"@),
                sym_v(self.electrical_type.keyword()),
                sym_v(self.graphic_style.keyword()),
                self.position.sexpr_form(),
                field_v("length"@, num_v(self.length)),
            ] + (if self.hide {
                seq![field_v("hide"@, sym_v("yes"@))]
            } else {
                Seq::empty()
            }) + seq![pin_text_v("name"@, self.name), pin_text_v("number"@, self.number)],
        )
    }

    fn to_sexpr(&self) -> (r: SExpr) {
        let mut items: Vec<SExpr> = Vec::new();
        push_expr(&mut items, SExpr::symbol("pin"));
        push_expr(&mut items, SExpr::symbol(self.electrical_type.as_str()));
        push_expr(&mut items, SExpr::symbol(self.graphic_style.as_str()));
        push_expr(&mut items, self.position.to_sexpr());
        push_expr(&mut items, field("length", SExpr::number(self.length)));
        if self.hide {
            push_expr(&mut items, field("hide", SExpr::symbol("yes")));
        }
        push_expr(&mut items, pin_text_sexpr("name", &self.name));
        push_expr(&mut items, pin_text_sexpr("number", &self.number));
        assert(views(items@) =~= self.sexpr_form()->List_0);
        list_of(items)
    }
}

/// One unit of a symbol: its drawing and its pins.
#[derive(Debug, Clone)]
pub struct SymbolUnit {
    pub name: String,
    pub graphics: Vec<GraphicItem>,
    pub pins: Vec<Pin>,
}

impl ToSExpr for SymbolUnit {
    open spec fn sexpr_form(&self) -> SExprView {
        SExprView::List(seq![sym_v("symbol"@), str_v(self.name@)] + forms(self.graphics@) + forms(self.pins@))
    }

    fn to_sexpr(&self) -> (r: SExpr) {
        let mut items: Vec<SExpr> = Vec::new();
        push_expr(&mut items, SExpr::symbol("symbol"));
        push_expr(&mut items, SExpr::string(self.name.as_str()));
        assert(views(items@) =~= seq![sym_v("symbol"@), str_v(self.name@)]);
        push_all(&mut items, &self.graphics);
        push_all(&mut items, &self.pins);
        assert(views(items@) =~= self.sexpr_form()->List_0);
        list_of(items)
    }
}

/// A symbol definition, as embedded in a schematic's `lib_symbols`.
#[derive(Debug, Clone)]
pub struct Symbol {
    pub name: String,
    pub extends: Option<String>,
    pub pin_numbers_hide: bool,
    pub pin_names_offset: Decimal,
    pub pin_names_hide: bool,
    pub exclude_from_sim: bool,
    pub in_bom: bool,
    pub on_board: bool,
    pub properties: Vec<Property>,
    pub units: Vec<SymbolUnit>,
    pub embedded_fonts: Option<bool>,
}

/// The contents of `(pin_names …)`: a nonzero offset, then `hide`.
pub open spec fn pin_names_items(offset: Decimal, hide: bool) -> Seq<SExprView> {
    (if offset.mantissa != 0 {
        seq![field_v("offset"@, num_v(offset))]
    } else {
        Seq::empty()
    }) + (if hide {
        seq![sym_v("hide"@)]
    } else {
        Seq::empty()
    })
}

pub open spec fn pin_numbers_part(hide: bool) -> Seq<SExprView> {
    if hide {
        seq![SExprView::List(seq![sym_v("pin_numbers"@), field_v("hide"@, sym_v("yes"@))])]
    } else {
        Seq::empty()
    }
}

/// `(pin_names …)`, written only when it has something in it.
pub open spec fn pin_names_part(offset: Decimal, hide: bool) -> Seq<SExprView> {
    if pin_names_items(offset, hide).len() > 0 {
        seq![SExprView::List(seq![sym_v("pin_names"@)] + pin_names_items(offset, hide))]
    } else {
        Seq::empty()
    }
}

pub open spec fn symbol_head(s: Symbol) -> Seq<SExprView> {
    seq![sym_v("symbol"@), str_v(s.name@)] + pin_numbers_part(s.pin_numbers_hide) + pin_names_part(
        s.pin_names_offset,
        s.pin_names_hide,
    ) + seq![flag_v("exclude_from_sim"@, s.exclude_from_sim), flag_v("in_bom"@, s.in_bom), flag_v("on_board"@, s.on_board)]
}

fn push_pin_names(items: &mut Vec<SExpr>, offset: Decimal, hide: bool)
    ensures
        views(final(items)@) == views(old(items)@) + pin_names_part(offset, hide),
{
    let mut names: Vec<SExpr> = Vec::new();
    push_expr(&mut names, SExpr::symbol("pin_names"));
    if offset.mantissa != 0 {
        push_expr(&mut names, field("offset", SExpr::number(offset)));
    }
    if hide {
        push_expr(&mut names, SExpr::symbol("hide"));
    }
    assert(views(names@) =~= seq![sym_v("pin_names"@)] + pin_names_items(offset, hide));
    if names.len() > 1 {
        push_expr(items, list_of(names));
    }
    assert(views(items@) =~= views(old(items)@) + pin_names_part(offset, hide));
}

impl ToSExpr for Symbol {
    open spec fn sexpr_form(&self) -> SExprView {
        SExprView::List(
            symbol_head(*self) + forms(self.properties@) + forms(self.units@) + match self.embedded_fonts {
                Some(b) => seq![flag_v("embedded_fonts"@, b)],
                None => Seq::empty(),
            },
        )
    }

    fn to_sexpr(&self) -> (r: SExpr) {
        let mut items: Vec<SExpr> = Vec::new();
        push_expr(&mut items, SExpr::symbol("symbol"));
        push_expr(&mut items, SExpr::string(self.name.as_str()));
        if self.pin_numbers_hide {
            let mut pn: Vec<SExpr> = Vec::new();
            push_expr(&mut pn, SExpr::symbol("pin_numbers"));
            push_expr(&mut pn, field("hide", SExpr::symbol("yes")));
            assert(views(pn@) =~= seq![sym_v("pin_numbers"@), field_v("hide"@, sym_v("yes"@))]);
            push_expr(&mut items, list_of(pn));
        }
        assert(views(items@) =~= seq![sym_v("symbol"@), str_v(self.name@)] + pin_numbers_part(self.pin_numbers_hide));
        push_pin_names(&mut items, self.pin_names_offset, self.pin_names_hide);
        push_expr(&mut items, flag("exclude_from_sim", self.exclude_from_sim));
        push_expr(&mut items, flag("in_bom", self.in_bom));
        push_expr(&mut items, flag("on_board", self.on_board));
        assert(views(items@) =~= symbol_head(*self));
        push_all(&mut items, &self.properties);
        push_all(&mut items, &self.units);
        match self.embedded_fonts {
            Some(b) => push_expr(&mut items, flag("embedded_fonts", b)),
            None => {},
        }
        assert(views(items@) =~= self.sexpr_form()->List_0);
        list_of(items)
    }
}

/// Paper size of a schematic.
#[derive(Debug, Clone, Copy)]
pub enum PaperSize {
    A4,
    A3,
    A2,
    A1,
    A0,
    A,
    B,
    C,
    D,
    E,
    USLetter,
    USLegal,
    USLedger,
    Custom { width: Decimal, height: Decimal },
}

impl PaperSize {
    /// The name written for a paper size; a custom one is written `User`.
    pub open spec fn keyword(self) -> Seq<char> {
        match self {
            PaperSize::A4 => "A4"@,
            PaperSize::A3 => "A3"@,
            PaperSize::A2 => "A2"@,
            PaperSize::A1 => "A1"@,
            PaperSize::A0 => "A0"@,
            PaperSize::A => "A"@,
            PaperSize::B => "B"@,
            PaperSize::C => "C"@,
            PaperSize::D => "D"@,
            PaperSize::E => "E"@,
            PaperSize::USLetter => "USLetter"@,
            PaperSize::USLegal => "USLegal"@,
            PaperSize::USLedger => "USLedger"@,
            PaperSize::Custom { .. } => "User"@,
        }
    }

    pub fn as_str(&self) -> (r: &'static str)
        ensures
            r@ == self.keyword(),
    {
        match self {
            PaperSize::A4 => "A4",
            PaperSize::A3 => "A3",
            PaperSize::A2 => "A2",
            PaperSize::A1 => "A1",
            PaperSize::A0 => "A0",
            PaperSize::A => "A",
            PaperSize::B => "B",
            PaperSize::C => "C",
            PaperSize::D => "D",
            PaperSize::E => "E",
            PaperSize::USLetter => "USLetter",
            PaperSize::USLegal => "USLegal",
            PaperSize::USLedger => "USLedger",
            PaperSize::Custom { .. } => "User",
        }
    }
}

/// A whole schematic file.
#[derive(Debug, Clone)]
pub struct Schematic {
    pub version: u32,
    pub generator: Option<String>,
    pub generator_version: Option<String>,
    pub uuid: String,
    pub paper: PaperSize,
    pub title_block: Option<TitleBlock>,
    pub lib_symbols: Vec<Symbol>,
    pub junctions: Vec<Junction>,
    pub no_connects: Vec<NoConnect>,
    pub wires: Vec<Wire>,
    pub buses: Vec<Bus>,
    pub bus_entries: Vec<BusEntry>,
    pub global_labels: Vec<GlobalLabel>,
    pub hierarchical_labels: Vec<HierarchicalLabel>,
    pub labels: Vec<Label>,
    pub text_items: Vec<TextItem>,
    pub symbols: Vec<SymbolInstance>,
    pub sheets: Vec<Sheet>,
    pub sheet_instances: Vec<SheetInstance>,
    pub embedded_fonts: bool,
}

/// The file format version new schematics are written in.
pub const CURRENT_VERSION: u32 = 20250114;

/// The generator version new schematics are stamped with.
pub const GENERATOR_VERSION: &'static str = "0.1.0";

/// Every sheet's numbers can be added exactly.
pub open spec fn sheets_fit(d: Schematic) -> bool {
    forall|i: int| 0 <= i < d.sheets@.len() ==> sheet_fits(#[trigger] d.sheets@[i])
}

pub open spec fn sheet_forms(v: Seq<Sheet>) -> Seq<SExprView> {
    v.map_values(|s: Sheet| sheet_sexpr(s))
}

/// Version, generator, uuid, paper, title block and the embedded symbol definitions.
pub open spec fn schematic_head(d: Schematic) -> Seq<SExprView> {
    seq![sym_v("kicad_sch"@), field_v("version"@, num_v(whole(d.version as int)))] + opt_text_field(
        "generator"@,
        d.generator,
    ) + opt_text_field("generator_version"@, d.generator_version) + seq![
        uuid_v(d.uuid@),
        field_v("paper"@, str_v(d.paper.keyword())),
    ] + match d.title_block {
        Some(t) => seq![t.sexpr_form()],
        None => Seq::empty(),
    } + seq![SExprView::List(seq![sym_v("lib_symbols"@)] + forms(d.lib_symbols@))]
}

/// The drawn items, kind by kind.
pub open spec fn schematic_items(d: Schematic) -> Seq<SExprView> {
    forms(d.junctions@) + forms(d.no_connects@) + forms(d.wires@) + forms(d.buses@) + forms(d.bus_entries@) + forms(
        d.global_labels@,
    ) + forms(d.hierarchical_labels@) + forms(d.labels@) + forms(d.text_items@) + forms(d.symbols@)
}

/// The expression a schematic is written as.
pub open spec fn schematic_sexpr(d: Schematic) -> SExprView {
    SExprView::List(
        schematic_head(d) + schematic_items(d) + sheet_forms(d.sheets@) + block_v("sheet_instances"@, d.sheet_instances@)
            + seq![flag_v("embedded_fonts"@, d.embedded_fonts)],
    )
}

fn push_sheets(items: &mut Vec<SExpr>, v: &Vec<Sheet>)
    requires
        forall|i: int| 0 <= i < v@.len() ==> sheet_fits(#[trigger] v@[i]),
    ensures
        views(final(items)@) == views(old(items)@) + sheet_forms(v@),
{
    let ghost start = views(items@);
    let mut k: usize = 0;
    while k < v.len()
        invariant
            k <= v@.len(),
            forall|i: int| 0 <= i < v@.len() ==> sheet_fits(#[trigger] v@[i]),
            views(items@) == start + sheet_forms(v@.take(k as int)),
        decreases v@.len() - k,
    {
        push_expr(items, sheet_to_sexpr(&v[k]));
        assert(sheet_forms(v@.take(k + 1)) =~= sheet_forms(v@.take(k as int)).push(sheet_sexpr(v@[k as int])));
        k = k + 1;
    }
    assert(v@.take(v@.len() as int) == v@);
}

fn push_head(items: &mut Vec<SExpr>, d: &Schematic)
    requires
        old(items)@.len() == 0,
    ensures
        views(final(items)@) == schematic_head(*d),
{
    push_expr(items, SExpr::symbol("kicad_sch"));
    push_expr(items, field("version", SExpr::number(Decimal { mantissa: d.version as i64, scale: 0 })));
    assert(views(items@) =~= seq![sym_v("kicad_sch"@), field_v("version"@, num_v(whole(d.version as int)))]);
    push_text_field(items, "generator", &d.generator);
    push_text_field(items, "generator_version", &d.generator_version);
    push_expr(items, uuid_sexpr(&d.uuid));
    push_expr(items, field("paper", SExpr::string(d.paper.as_str())));
    match &d.title_block {
        Some(t) => push_expr(items, t.to_sexpr()),
        None => {},
    }
    let mut lib: Vec<SExpr> = Vec::new();
    push_expr(&mut lib, SExpr::symbol("lib_symbols"));
    assert(views(lib@) =~= seq![sym_v("lib_symbols"@)]);
    push_all(&mut lib, &d.lib_symbols);
    push_expr(items, list_of(lib));
    assert(views(items@) =~= schematic_head(*d));
}

fn push_items(items: &mut Vec<SExpr>, d: &Schematic)
    ensures
        views(final(items)@) == views(old(items)@) + schematic_items(*d),
{
    push_all(items, &d.junctions);
    push_all(items, &d.no_connects);
    push_all(items, &d.wires);
    push_all(items, &d.buses);
    push_all(items, &d.bus_entries);
    push_all(items, &d.global_labels);
    push_all(items, &d.hierarchical_labels);
    push_all(items, &d.labels);
    push_all(items, &d.text_items);
    push_all(items, &d.symbols);
    assert(views(items@) =~= views(old(items)@) + schematic_items(*d));
}

/// Write a whole schematic, as `schematic_sexpr` states.
pub fn schematic_to_sexpr(d: &Schematic) -> (r: SExpr)
    requires
        sheets_fit(*d),
    ensures
        r@ == schematic_sexpr(*d),
{
    let mut items: Vec<SExpr> = Vec::new();
    push_head(&mut items, d);
    push_items(&mut items, d);
    push_sheets(&mut items, &d.sheets);
    push_block(&mut items, "sheet_instances", &d.sheet_instances);
    push_expr(&mut items, flag("embedded_fonts", d.embedded_fonts));
    assert(views(items@) =~= schematic_sexpr(*d)->List_0);
    list_of(items)
}

impl Schematic {
    /// An empty schematic with the given uuid: current version, A4 paper, and the root
    /// sheet instance on page 1.
    pub fn new(uuid: String) -> (r: Schematic)
        ensures
            r.version == CURRENT_VERSION,
            r.generator matches Some(g) && g@ == "kicaddy"@,
            r.generator_version matches Some(g) && g@ == GENERATOR_VERSION@,
            r.uuid@ == uuid@,
            r.paper == PaperSize::A4,
            r.title_block.is_none(),
            r.lib_symbols@.len() == 0 && r.junctions@.len() == 0 && r.no_connects@.len() == 0,
            r.wires@.len() == 0 && r.buses@.len() == 0 && r.bus_entries@.len() == 0,
            r.global_labels@.len() == 0 && r.hierarchical_labels@.len() == 0 && r.labels@.len() == 0,
            r.text_items@.len() == 0 && r.symbols@.len() == 0 && r.sheets@.len() == 0,
            r.sheet_instances@.len() == 1,
            r.sheet_instances@[0].path@ == "/"@ && r.sheet_instances@[0].page@ == "1"@,
            !r.embedded_fonts,
    {
        let mut sheet_instances: Vec<SheetInstance> = Vec::new();
        sheet_instances.push(SheetInstance { path: String::from_str("/"), page: String::from_str("1") });
        Schematic {
            version: CURRENT_VERSION,
            generator: Some(String::from_str("kicaddy")),
            generator_version: Some(String::from_str(GENERATOR_VERSION)),
            uuid,
            paper: PaperSize::A4,
            title_block: None,
            lib_symbols: Vec::new(),
            junctions: Vec::new(),
            no_connects: Vec::new(),
            wires: Vec::new(),
            buses: Vec::new(),
            bus_entries: Vec::new(),
            global_labels: Vec::new(),
            hierarchical_labels: Vec::new(),
            labels: Vec::new(),
            text_items: Vec::new(),
            symbols: Vec::new(),
            sheets: Vec::new(),
            sheet_instances,
            embedded_fonts: false,
        }
    }

    /// The schematic's file text.
    pub fn to_kicad_string(&self) -> (r: String)
        requires
            sheets_fit(*self),
        ensures
            r@ == kicad_text(schematic_sexpr(*self), 0),
    {
        schematic_to_sexpr(self).to_kicad_string()
    }
}

fn sheet_fits_exec(s: &Sheet) -> (r: bool)
    ensures
        r == sheet_fits(*s),
{
    if dec_add_checked(s.position.y, Decimal { mantissa: -7116, scale: 4 }).is_none() {
        return false;
    }
    match dec_add_checked(s.position.y, s.size.y) {
        Some(bottom) => dec_add_checked(bottom, Decimal { mantissa: 5846, scale: 4 }).is_some(),
        None => false,
    }
}

impl Schematic {
    /// Whether every sheet's numbers can be added exactly, so that the schematic can be
    /// written.
    pub fn can_write(&self) -> (r: bool)
        ensures
            r == sheets_fit(*self),
    {
        let mut k: usize = 0;
        while k < self.sheets.len()
            invariant
                k <= self.sheets@.len(),
                forall|i: int| 0 <= i < k ==> sheet_fits(#[trigger] self.sheets@[i]),
            decreases self.sheets@.len() - k,
        {
            if !sheet_fits_exec(&self.sheets[k]) {
                return false;
            }
            k = k + 1;
        }
        true
    }
}

} // verus!
