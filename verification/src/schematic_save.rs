//! Saving edits: a schematic's tree with the wires, junctions and labels that editing
//! kept left as they were written, those it added written after them, its placed
//! symbols kept while their component is, with their property values taken from it.
use vstd::prelude::*;
use crate::common::StrokeType;
use crate::component_edit::{first_with_reference, PlacedComponent, SchematicItems};
use crate::label_edit::PlacedLabel;
use crate::outline_nets::GridPoint;
use crate::schematic::LabelShape;
use crate::schematic_write::{
    autoplaced, opt_effects, pts_v, shaped_label_v, str_v, sym_v, uuid_v, whole, Effects, GlobalLabel, Junction, Label,
    Point, Position, Property, Stroke, Symbol, SymbolInstance, Wire,
};
use crate::sheet_points::{grid_point, grid_point_exec, grid_points_exec, whole_degrees};
use crate::sheet_reader::{arg_text, args_of, at_of, field_text, text_or_empty, wire_spec};
use crate::semantic_components::pair_views;
use crate::sexpr::{sexpr_view, views, Decimal, SExpr, SExprView, ToSExpr};
use crate::sheet_points::prop_exec;
use crate::sheet_reader::prop_value;
use crate::text::str_eq;

verus! {

/// A grid coordinate in millimetres.
pub open spec fn mm_of(v: i32) -> Decimal {
    Decimal { mantissa: v as i64, scale: 4 }
}

pub open spec fn point_of(g: GridPoint) -> Point {
    Point { x: mm_of(g.x), y: mm_of(g.y) }
}

pub open spec fn default_stroke() -> Stroke {
    Stroke { width: Decimal { mantissa: 0, scale: 0 }, stroke_type: StrokeType::Default, color: None }
}

pub open spec fn plain_effects() -> Effects {
    Effects { font: None, justify: None, hide: false }
}

/// Whether `v` is a list whose first item is the symbol `name`.
pub open spec fn head_is(v: SExprView, name: Seq<char>) -> bool {
    match v {
        SExprView::List(xs) => xs.len() > 0 && xs[0] == SExprView::Symbol(name),
        _ => false,
    }
}

/// The items that editing replaces wholesale.
pub open spec fn is_drawn(v: SExprView) -> bool {
    head_is(v, "wire"@) || head_is(v, "junction"@) || head_is(v, "label"@) || head_is(v, "global_label"@)
}

/// `(property "name" "value" …)`: its name and value.
pub open spec fn prop_entry(v: SExprView) -> Option<(Seq<char>, Seq<char>)> {
    match v {
        SExprView::List(p) => if p.len() >= 3 && p[0] == SExprView::Symbol("property"@) {
            match (p[1], p[2]) {
                (SExprView::Str(n), SExprView::Str(val)) => Some((n, val)),
                _ => None,
            }
        } else {
            None
        },
        _ => None,
    }
}

/// The value of the first `Reference` property among the items from `k` on.
pub open spec fn item_reference_from(xs: Seq<SExprView>, k: int) -> Option<Seq<char>>
    decreases xs.len() - k,
{
    if k < 0 || k >= xs.len() {
        None
    } else if prop_entry(xs[k]) matches Some((n, val)) && n == "Reference"@ {
        Some(prop_entry(xs[k])->Some_0.1)
    } else {
        item_reference_from(xs, k + 1)
    }
}

/// A placed symbol item's reference.
pub open spec fn item_reference(v: SExprView) -> Option<Seq<char>> {
    match v {
        SExprView::List(xs) => item_reference_from(xs, 0),
        _ => None,
    }
}

/// A property item with its value taken from the component, where the component has a
/// property of that name.
pub open spec fn with_value(p: SExprView, c: PlacedComponent) -> SExprView {
    with_props_value(p, c.properties@)
}

/// A property item with its value taken from the first property of that name among
/// `ps`, where there is one.
pub open spec fn with_props_value(p: SExprView, ps: Seq<(String, String)>) -> SExprView {
    match prop_entry(p) {
        Some((n, _)) => match prop_value(pair_views(ps), n, 0) {
            Some(val) => SExprView::List(p->List_0.update(2, SExprView::Str(val))),
            None => p,
        },
        None => p,
    }
}

/// A placed symbol item with its property values taken from the component.
pub open spec fn symbol_updated(v: SExprView, c: PlacedComponent) -> SExprView {
    SExprView::List(v->List_0.map_values(|x: SExprView| with_value(x, c)))
}

/// What becomes of one item of the tree: drawn items go; a placed symbol stays, updated,
/// while a component has its reference; everything else stays as it is.
pub open spec fn kept_item(v: SExprView, cs: Seq<PlacedComponent>) -> Option<SExprView> {
    if is_drawn(v) {
        None
    } else if head_is(v, "symbol"@) {
        match item_reference(v) {
            Some(r) => match first_with_reference(cs, r, 0) {
                Some(i) => Some(symbol_updated(v, cs[i])),
                None => None,
            },
            None => Some(v),
        }
    } else {
        Some(v)
    }
}

/// A component's reference: its first `Reference` property.
pub open spec fn component_reference(c: PlacedComponent) -> Option<Seq<char>> {
    prop_value(pair_views(c.properties@), "Reference"@, 0)
}

/// Whether the tree holds a placed symbol with reference `r`.
pub open spec fn has_symbol_item(xs: Seq<SExprView>, r: Seq<char>) -> bool {
    exists|k: int| 0 <= k < xs.len() && head_is(xs[k], "symbol"@) && #[trigger] item_reference(xs[k]) == Some(r)
}

/// Whether every component stands in the tree as a placed symbol.
pub open spec fn all_placed(xs: Seq<SExprView>, cs: Seq<PlacedComponent>) -> bool {
    forall|k: int|
        0 <= k < cs.len() ==> (#[trigger] component_reference(cs[k]) matches Some(r) && has_symbol_item(xs, r))
}

pub open spec fn wire_item(pts: Seq<GridPoint>, u: Seq<char>) -> SExprView {
    SExprView::List(
        seq![sym_v("wire"@), pts_v(pts.map_values(|g: GridPoint| point_of(g))), default_stroke().sexpr_form(), uuid_v(u)],
    )
}

pub open spec fn junction_item(g: GridPoint, u: Seq<char>) -> SExprView {
    SExprView::List(
        seq![
            sym_v("junction"@),
            SExprView::List(seq![sym_v("at"@), SExprView::Number(mm_of(g.x)), SExprView::Number(mm_of(g.y))]),
            SExprView::List(seq![sym_v("diameter"@), SExprView::Number(Decimal { mantissa: 0, scale: 0 })]),
            uuid_v(u),
        ],
    )
}

pub open spec fn label_position(l: PlacedLabel) -> Position {
    Position { x: mm_of(l.position.x), y: mm_of(l.position.y), angle: whole(l.angle as int) }
}

pub open spec fn label_item(l: PlacedLabel, u: Seq<char>) -> SExprView {
    SExprView::List(
        seq![sym_v("label"@), str_v(l.text@), label_position(l).sexpr_form()] + autoplaced(true) + opt_effects(
            Some(plain_effects()),
        ) + seq![uuid_v(u)],
    )
}

/// A global label's shape; one without is written as an input.
pub open spec fn shape_or_input(s: Option<LabelShape>) -> LabelShape {
    match s {
        Some(x) => x,
        None => LabelShape::Input,
    }
}

pub open spec fn global_item(l: PlacedLabel, u: Seq<char>) -> SExprView {
    shaped_label_v(
        "global_label"@,
        l.text@,
        shape_or_input(l.shape),
        label_position(l),
        true,
        Some(plain_effects()),
        u,
        Seq::<Property>::empty(),
    )
}

proof fn lemma_list_view(items: Vec<SExpr>)
    ensures
        sexpr_view(SExpr::List(items)) == SExprView::List(views(items@)),
{
    assert(sexpr_view(SExpr::List(items))->List_0 =~= views(items@));
}

fn copy_sexpr(e: &SExpr) -> (r: SExpr)
    ensures
        r@ == e@,
    decreases e, 1int,
{
    match e {
        SExpr::Symbol(s) => SExpr::Symbol(s.clone()),
        SExpr::String(s) => SExpr::String(s.clone()),
        SExpr::Number(n) => SExpr::Number(*n),
        SExpr::List(items) => {
            proof {
                assert(decreases_to!(*e => *items));
                lemma_list_view(*items);
            }
            let v = copy_items(items);
            proof {
                lemma_list_view(v);
            }
            SExpr::List(v)
        },
    }
}

fn copy_items(items: &Vec<SExpr>) -> (r: Vec<SExpr>)
    ensures
        views(r@) == views(items@),
    decreases items, 0int,
{
    let mut out: Vec<SExpr> = Vec::new();
    let mut k: usize = 0;
    while k < items.len()
        invariant
            k <= items@.len(),
            views(out@) == views(items@).take(k as int),
        decreases items@.len() - k,
    {
        proof {
            assert(decreases_to!(*items => items@));
            assert(decreases_to!(items@ => items@[k as int]));
        }
        let x = copy_sexpr(&items[k]);
        let ghost before = out@;
        out.push(x);
        assert(views(out@) =~= views(before).push(x@));
        assert(views(items@).take(k + 1) =~= views(items@).take(k as int).push(items@[k as int]@));
        k = k + 1;
    }
    assert(views(items@).take(items@.len() as int) =~= views(items@));
    out
}

fn head_is_exec(x: &SExpr, name: &str) -> (r: bool)
    ensures
        r == head_is(x@, name@),
{
    match x {
        SExpr::List(ys) => {
            proof {
                lemma_list_view(*ys);
            }
            if ys.len() == 0 {
                return false;
            }
            match &ys[0] {
                SExpr::Symbol(s) => str_eq(s.as_str(), name),
                _ => false,
            }
        },
        _ => false,
    }
}

pub(crate) fn prop_entry_exec(x: &SExpr) -> (r: Option<(String, String)>)
    ensures
        match prop_entry(x@) {
            Some((n, v)) => r matches Some((rn, rv)) && rn@ == n && rv@ == v,
            None => r is None,
        },
{
    match x {
        SExpr::List(ys) => {
            proof {
                lemma_list_view(*ys);
                reveal_strlit("property");
            }
            if ys.len() < 3 {
                return None;
            }
            let is_prop = match &ys[0] {
                SExpr::Symbol(s) => str_eq(s.as_str(), "property"),
                _ => false,
            };
            if !is_prop {
                return None;
            }
            match (&ys[1], &ys[2]) {
                (SExpr::String(n), SExpr::String(v)) => Some((n.clone(), v.clone())),
                _ => None,
            }
        },
        _ => None,
    }
}

fn item_reference_exec(x: &SExpr) -> (r: Option<String>)
    ensures
        match item_reference(x@) {
            Some(v) => r matches Some(t) && t@ == v,
            None => r is None,
        },
{
    match x {
        SExpr::List(ys) => {
            proof {
                lemma_list_view(*ys);
            }
            let ghost xs = views(ys@);
            assert(x@ == SExprView::List(xs));
            assert(item_reference(x@) == item_reference_from(xs, 0));
            let mut k: usize = 0;
            while k < ys.len()
                invariant
                    k <= ys@.len(),
                    xs == views(ys@),
                    item_reference(x@) == item_reference_from(xs, 0),
                    item_reference_from(xs, 0) == item_reference_from(xs, k as int),
                decreases ys@.len() - k,
            {
                assert(xs[k as int] == ys@[k as int]@);
                match prop_entry_exec(&ys[k]) {
                    Some((n, v)) => {
                        if str_eq(n.as_str(), "Reference") {
                            assert(prop_entry(xs[k as int]) == Some((n@, v@)));
                            return Some(v);
                        }
                    },
                    None => {},
                }
                k = k + 1;
            }
            None
        },
        _ => None,
    }
}

fn with_value_exec(x: &SExpr, c: &PlacedComponent) -> (r: SExpr)
    ensures
        r@ == with_value(x@, *c),
{
    with_props_value_exec(x, &c.properties)
}

pub(crate) fn with_props_value_exec(x: &SExpr, ps: &Vec<(String, String)>) -> (r: SExpr)
    ensures
        r@ == with_props_value(x@, ps@),
{
    let n = match prop_entry_exec(x) {
        Some((n, _)) => n,
        None => {
            return copy_sexpr(x);
        },
    };
    let val = match prop_exec(ps, n.as_str()) {
        Some(v) => v,
        None => {
            return copy_sexpr(x);
        },
    };
    match x {
        SExpr::List(ys) => {
            proof {
                lemma_list_view(*ys);
            }
            let ghost target = views(ys@).update(2, SExprView::Str(val@));
            let mut out: Vec<SExpr> = Vec::new();
            let mut k: usize = 0;
            while k < ys.len()
                invariant
                    k <= ys@.len(),
                    ys@.len() >= 3,
                    target == views(ys@).update(2, SExprView::Str(val@)),
                    views(out@) == target.take(k as int),
                decreases ys@.len() - k,
            {
                let y = if k == 2 {
                    SExpr::String(val.clone())
                } else {
                    copy_sexpr(&ys[k])
                };
                let ghost before = out@;
                out.push(y);
                assert(views(out@) =~= views(before).push(y@));
                assert(target.take(k + 1) =~= target.take(k as int).push(target[k as int]));
                k = k + 1;
            }
            assert(target.take(ys@.len() as int) =~= target);
            proof {
                lemma_list_view(out);
            }
            SExpr::List(out)
        },
        _ => copy_sexpr(x),
    }
}

fn symbol_updated_exec(x: &SExpr, c: &PlacedComponent) -> (r: SExpr)
    requires
        x@ is List,
    ensures
        r@ == symbol_updated(x@, *c),
{
    match x {
        SExpr::List(ys) => {
            proof {
                lemma_list_view(*ys);
            }
            let ghost target = views(ys@).map_values(|y: SExprView| with_value(y, *c));
            let mut out: Vec<SExpr> = Vec::new();
            let mut k: usize = 0;
            while k < ys.len()
                invariant
                    k <= ys@.len(),
                    target == views(ys@).map_values(|y: SExprView| with_value(y, *c)),
                    views(out@) == target.take(k as int),
                decreases ys@.len() - k,
            {
                let y = with_value_exec(&ys[k], c);
                let ghost before = out@;
                out.push(y);
                assert(views(out@) =~= views(before).push(y@));
                assert(target.take(k + 1) =~= target.take(k as int).push(target[k as int]));
                k = k + 1;
            }
            assert(target.take(ys@.len() as int) =~= target);
            proof {
                lemma_list_view(out);
            }
            SExpr::List(out)
        },
        _ => copy_sexpr(x),
    }
}

fn kept_item_exec(x: &SExpr, items: &SchematicItems) -> (r: Option<SExpr>)
    ensures
        match kept_item(x@, items.components@) {
            Some(v) => r matches Some(e) && e@ == v,
            None => r is None,
        },
{
    if head_is_exec(x, "wire") || head_is_exec(x, "junction") || head_is_exec(x, "label") || head_is_exec(
        x,
        "global_label",
    ) {
        return None;
    }
    if head_is_exec(x, "symbol") {
        match item_reference_exec(x) {
            Some(r) => match items.find_symbol_by_reference(r.as_str()) {
                Some(c) => Some(symbol_updated_exec(x, c)),
                None => None,
            },
            None => Some(copy_sexpr(x)),
        }
    } else {
        Some(copy_sexpr(x))
    }
}

fn has_symbol_item_exec(ys: &Vec<SExpr>, r: &str) -> (b: bool)
    ensures
        b == has_symbol_item(views(ys@), r@),
{
    let ghost xs = views(ys@);
    let mut k: usize = 0;
    while k < ys.len()
        invariant
            k <= ys@.len(),
            xs == views(ys@),
            forall|j: int| 0 <= j < k ==> !(head_is(xs[j], "symbol"@) && #[trigger] item_reference(xs[j]) == Some(r@)),
        decreases ys@.len() - k,
    {
        assert(xs[k as int] == ys@[k as int]@);
        if head_is_exec(&ys[k], "symbol") {
            match item_reference_exec(&ys[k]) {
                Some(t) => {
                    if str_eq(t.as_str(), r) {
                        assert(item_reference(xs[k as int]) == Some(r@));
                        return true;
                    }
                },
                None => {},
            }
        }
        k = k + 1;
    }
    false
}

fn all_placed_exec(ys: &Vec<SExpr>, items: &SchematicItems) -> (b: bool)
    ensures
        b == all_placed(views(ys@), items.components@),
{
    let mut k: usize = 0;
    while k < items.components.len()
        invariant
            k <= items.components@.len(),
            forall|i: int|
                0 <= i < k ==> (#[trigger] component_reference(items.components@[i]) matches Some(r) && has_symbol_item(
                    views(ys@),
                    r,
                )),
        decreases items.components@.len() - k,
    {
        match prop_exec(&items.components[k].properties, "Reference") {
            Some(r) => {
                if !has_symbol_item_exec(ys, r.as_str()) {
                    assert(component_reference(items.components@[k as int]) == Some(r@));
                    return false;
                }
            },
            None => {
                assert(component_reference(items.components@[k as int]) is None);
                return false;
            },
        }
        k = k + 1;
    }
    true
}

fn point_exec(g: GridPoint) -> (r: Point)
    ensures
        r == point_of(g),
{
    Point { x: Decimal { mantissa: g.x as i64, scale: 4 }, y: Decimal { mantissa: g.y as i64, scale: 4 } }
}

fn wire_exec(pts: &Vec<GridPoint>, u: String) -> (r: SExpr)
    ensures
        r@ == wire_item(pts@, u@),
{
    let mut points: Vec<Point> = Vec::new();
    let mut k: usize = 0;
    while k < pts.len()
        invariant
            k <= pts@.len(),
            points@ == pts@.take(k as int).map_values(|g: GridPoint| point_of(g)),
        decreases pts@.len() - k,
    {
        points.push(point_exec(pts[k]));
        assert(pts@.take(k + 1).map_values(|g: GridPoint| point_of(g)) =~= pts@.take(k as int).map_values(
            |g: GridPoint| point_of(g),
        ).push(point_of(pts@[k as int])));
        k = k + 1;
    }
    assert(pts@.take(pts@.len() as int) =~= pts@);
    let w = Wire {
        points,
        stroke: Stroke { width: Decimal { mantissa: 0, scale: 0 }, stroke_type: StrokeType::Default, color: None },
        uuid: u,
    };
    w.to_sexpr()
}

fn junction_exec(g: GridPoint, u: String) -> (r: SExpr)
    ensures
        r@ == junction_item(g, u@),
{
    let j = Junction { position: point_exec(g), diameter: Decimal { mantissa: 0, scale: 0 }, color: None, uuid: u };
    let r = j.to_sexpr();
    assert(j.sexpr_form()->List_0 =~= junction_item(g, u@)->List_0);
    r
}

fn label_position_exec(l: &PlacedLabel) -> (r: Position)
    ensures
        r == label_position(*l),
{
    Position {
        x: Decimal { mantissa: l.position.x as i64, scale: 4 },
        y: Decimal { mantissa: l.position.y as i64, scale: 4 },
        angle: Decimal { mantissa: l.angle as i64, scale: 0 },
    }
}

fn label_item_exec(l: &PlacedLabel, u: String) -> (r: SExpr)
    ensures
        r@ == label_item(*l, u@),
{
    let x = Label {
        text: l.text.clone(),
        position: label_position_exec(l),
        fields_autoplaced: true,
        effects: Some(Effects { font: None, justify: None, hide: false }),
        uuid: u,
    };
    x.to_sexpr()
}

fn global_item_exec(l: &PlacedLabel, u: String) -> (r: SExpr)
    ensures
        r@ == global_item(*l, u@),
{
    let shape = match l.shape {
        Some(s) => s,
        None => LabelShape::Input,
    };
    let x = GlobalLabel {
        text: l.text.clone(),
        shape,
        position: label_position_exec(l),
        fields_autoplaced: true,
        effects: Some(Effects { font: None, justify: None, hide: false }),
        uuid: u,
        properties: Vec::new(),
    };
    let r = x.to_sexpr();
    assert(x.properties@ =~= Seq::<Property>::empty());
    r
}

pub open spec fn uuid_views(v: Seq<String>) -> Seq<Seq<char>> {
    v.map_values(|s: String| s@)
}

/// A symbol placed by editing: its library definition, named by its library id, and the
/// placed instance.
#[derive(Debug, Clone)]
pub struct NewSymbol {
    pub definition: Symbol,
    pub instance: SymbolInstance,
}

/// A wire item's points on the grid.
pub open spec fn wire_grid(a: Seq<SExpr>) -> Seq<GridPoint> {
    wire_spec(a).map_values(|q: (Decimal, Decimal)| grid_point(q.0, q.1))
}

/// A junction item's point on the grid.
pub open spec fn junction_grid(a: Seq<SExpr>) -> GridPoint {
    grid_point(at_of(a).0, at_of(a).1)
}

/// Whether a label item reads as the label `l`: text, place, direction and shape.
pub open spec fn label_fits(l: PlacedLabel, a: Seq<SExpr>) -> bool {
    &&& l.text@ == text_or_empty(arg_text(a, 0))
    &&& l.position == grid_point(at_of(a).0, at_of(a).1)
    &&& l.angle == match whole_degrees(at_of(a).2) {
        Some(x) => x,
        None => 0,
    }
    &&& l.shape == match field_text(a, "shape"@) {
        Some(t) => Some(LabelShape::from_keyword(t)),
        None => None,
    }
}

/// How far the scan has come through the edited wires, junctions, labels and global
/// labels.
pub type ScanState = (int, int, int, int);

/// The items of the old tree that stay, and how many edited items of each kind they
/// stand for. A wire, junction or label item stays when it reads as the next edited item
/// of its kind not yet accounted for; otherwise it was deleted and goes. Placed symbols
/// stay while a component has their reference, with its property values; the list of
/// library symbols takes the definitions of newly placed symbols it lacks.
pub open spec fn scan(xs: Seq<SExpr>, it: SchematicItems, news: Seq<NewSymbol>) -> (Seq<SExprView>, ScanState)
    decreases xs.len(),
{
    if xs.len() == 0 {
        (Seq::empty(), (0, 0, 0, 0))
    } else {
        let (k, st) = scan(xs.drop_last(), it, news);
        let x = xs.last();
        if args_of(x, "wire"@) is Some {
            if 0 <= st.0 < it.wires@.len() && wire_grid(args_of(x, "wire"@)->Some_0) == it.wires@[st.0]@ {
                (k.push(x@), (st.0 + 1, st.1, st.2, st.3))
            } else {
                (k, st)
            }
        } else if args_of(x, "junction"@) is Some {
            if 0 <= st.1 < it.junctions@.len() && junction_grid(args_of(x, "junction"@)->Some_0) == it.junctions@[st.1] {
                (k.push(x@), (st.0, st.1 + 1, st.2, st.3))
            } else {
                (k, st)
            }
        } else if args_of(x, "label"@) is Some {
            if 0 <= st.2 < it.labels@.len() && label_fits(it.labels@[st.2], args_of(x, "label"@)->Some_0) {
                (k.push(x@), (st.0, st.1, st.2 + 1, st.3))
            } else {
                (k, st)
            }
        } else if args_of(x, "global_label"@) is Some {
            if 0 <= st.3 < it.global_labels@.len() && label_fits(it.global_labels@[st.3], args_of(x, "global_label"@)->Some_0) {
                (k.push(x@), (st.0, st.1, st.2, st.3 + 1))
            } else {
                (k, st)
            }
        } else if head_is(x@, "lib_symbols"@) {
            (k.push(SExprView::List(x@->List_0 + defs_to_add(x@->List_0, news))), st)
        } else {
            match kept_item(x@, it.components@) {
                Some(v) => (k.push(v), st),
                None => (k, st),
            }
        }
    }
}

/// Whether a list of library symbols defines `name`.
pub open spec fn defines(lib: Seq<SExprView>, name: Seq<char>) -> bool {
    exists|i: int| 0 <= i < lib.len() && head_is(lib[i], "symbol"@) && #[trigger] lib[i]->List_0.len() > 1
        && lib[i]->List_0[1] == SExprView::Str(name)
}

/// The definitions of newly placed symbols that the list lacks, each once, in order.
pub open spec fn defs_to_add(lib: Seq<SExprView>, news: Seq<NewSymbol>) -> Seq<SExprView>
    decreases news.len(),
{
    if news.len() == 0 {
        Seq::empty()
    } else {
        let d = news.last().definition;
        defs_to_add(lib, news.drop_last()) + if defines(lib, d.name@) || exists|i: int|
            0 <= i < news.len() - 1 && #[trigger] news[i].definition.name@ == d.name@ {
            Seq::empty()
        } else {
            seq![d.sexpr_form()]
        }
    }
}

/// How many uuids saving may take: one for each edited wire, junction, label and global
/// label.
pub open spec fn new_item_count(it: SchematicItems) -> int {
    it.wires@.len() as int + it.junctions@.len() as int + it.labels@.len() as int + it.global_labels@.len() as int
}

/// The edited items that no old item stands for: the wires, junctions, labels and global
/// labels from where the scan stopped, in that order, each with the uuid at its place
/// among all the edited items.
pub open spec fn added_items(it: SchematicItems, u: Seq<Seq<char>>, st: ScanState) -> Seq<SExprView> {
    let nw = it.wires@.len() as int;
    let nj = it.junctions@.len() as int;
    let nl = it.labels@.len() as int;
    let ng = it.global_labels@.len() as int;
    Seq::new((nw - st.0) as nat, |i: int| wire_item(it.wires@[st.0 + i]@, u[st.0 + i])) + Seq::new(
        (nj - st.1) as nat,
        |i: int| junction_item(it.junctions@[st.1 + i], u[nw + st.1 + i]),
    ) + Seq::new((nl - st.2) as nat, |i: int| label_item(it.labels@[st.2 + i], u[nw + nj + st.2 + i])) + Seq::new(
        (ng - st.3) as nat,
        |i: int| global_item(it.global_labels@[st.3 + i], u[nw + nj + nl + st.3 + i]),
    )
}

pub open spec fn instance_forms(news: Seq<NewSymbol>) -> Seq<SExprView> {
    news.map_values(|n: NewSymbol| n.instance.sexpr_form())
}

/// The saved tree: what stays of the old one, the newly placed symbols, then the added
/// wires, junctions and labels.
pub open spec fn saved_tree(xs: Seq<SExpr>, it: SchematicItems, u: Seq<Seq<char>>, news: Seq<NewSymbol>) -> SExprView {
    let (k, st) = scan(xs, it, news);
    SExprView::List(k + instance_forms(news) + added_items(it, u, st))
}

fn points_eq(a: &Vec<GridPoint>, b: &Vec<GridPoint>) -> (r: bool)
    ensures
        r == (a@ == b@),
{
    if a.len() != b.len() {
        return false;
    }
    let mut k: usize = 0;
    while k < a.len()
        invariant
            k <= a@.len(),
            a@.len() == b@.len(),
            forall|i: int| 0 <= i < k ==> a@[i] == b@[i],
        decreases a@.len() - k,
    {
        if a[k].x != b[k].x || a[k].y != b[k].y {
            return false;
        }
        k = k + 1;
    }
    assert(a@ =~= b@);
    true
}

fn same_label(a: &PlacedLabel, b: &PlacedLabel) -> (r: bool)
    ensures
        r == (a.text@ == b.text@ && a.position == b.position && a.angle == b.angle && a.shape == b.shape),
{
    let shapes = match (a.shape, b.shape) {
        (Some(x), Some(y)) => x == y,
        (None, None) => true,
        _ => false,
    };
    str_eq(a.text.as_str(), b.text.as_str()) && a.position.x == b.position.x && a.position.y == b.position.y && a.angle
        == b.angle && shapes
}

fn label_fits_exec(l: &PlacedLabel, a: &[SExpr]) -> (r: bool)
    ensures
        r == label_fits(*l, a@),
{
    let d = crate::sheet_reader::label_exec(a);
    let pl = crate::schematic_items::label_exec(&d);
    same_label(l, &pl)
}

fn defines_exec(lib: &Vec<SExpr>, name: &str) -> (r: bool)
    ensures
        r == defines(views(lib@), name@),
{
    let ghost v = views(lib@);
    let mut k: usize = 0;
    while k < lib.len()
        invariant
            k <= lib@.len(),
            v == views(lib@),
            forall|i: int|
                0 <= i < k ==> !(head_is(v[i], "symbol"@) && #[trigger] v[i]->List_0.len() > 1 && v[i]->List_0[1]
                    == SExprView::Str(name@)),
        decreases lib@.len() - k,
    {
        assert(v[k as int] == lib@[k as int]@);
        if head_is_exec(&lib[k], "symbol") {
            match &lib[k] {
                SExpr::List(ys) => {
                    proof {
                        lemma_list_view(*ys);
                    }
                    if ys.len() > 1 {
                        assert(ys@[1]@ == views(ys@)[1]);
                        match &ys[1] {
                            SExpr::String(t) => {
                                if str_eq(t.as_str(), name) {
                                    return true;
                                }
                            },
                            _ => {},
                        }
                    }
                },
                _ => {},
            }
        }
        k = k + 1;
    }
    false
}

fn defs_to_add_exec(lib: &Vec<SExpr>, news: &Vec<NewSymbol>) -> (r: Vec<SExpr>)
    ensures
        views(r@) == defs_to_add(views(lib@), news@),
{
    let mut out: Vec<SExpr> = Vec::new();
    let mut k: usize = 0;
    while k < news.len()
        invariant
            k <= news@.len(),
            views(out@) == defs_to_add(views(lib@), news@.take(k as int)),
        decreases news@.len() - k,
    {
        let ghost t = news@.take(k + 1);
        assert(t.drop_last() =~= news@.take(k as int));
        assert(t.last() == news@[k as int]);
        let name = news[k].definition.name.as_str();
        let mut seen = false;
        let mut j: usize = 0;
        while j < k
            invariant
                j <= k < news@.len(),
                t == news@.take(k + 1),
                name@ == news@[k as int].definition.name@,
                seen == exists|i: int| 0 <= i < j && #[trigger] t[i].definition.name@ == name@,
            decreases k - j,
        {
            assert(t[j as int] == news@[j as int]);
            if str_eq(news[j].definition.name.as_str(), name) {
                seen = true;
            }
            j = j + 1;
        }
        assert(t.len() - 1 == k);
        if !defines_exec(lib, name) && !seen {
            let ghost before = out@;
            let d = news[k].definition.to_sexpr();
            out.push(d);
            assert(views(out@) =~= views(before).push(d@));
        }
        k = k + 1;
    }
    assert(news@.take(news@.len() as int) =~= news@);
    out
}

pub open spec fn list_items(e: SExpr) -> Seq<SExpr> {
    match e {
        SExpr::List(v) => v@,
        _ => Seq::empty(),
    }
}

fn scan_exec(ys: &Vec<SExpr>, it: &SchematicItems, news: &Vec<NewSymbol>) -> (r: (Vec<SExpr>, usize, usize, usize, usize))
    ensures
        views(r.0@) == scan(ys@, *it, news@).0,
        (r.1 as int, r.2 as int, r.3 as int, r.4 as int) == scan(ys@, *it, news@).1,
        r.1 <= it.wires@.len() && r.2 <= it.junctions@.len() && r.3 <= it.labels@.len() && r.4 <= it.global_labels@.len(),
{
    let mut out: Vec<SExpr> = Vec::new();
    let mut iw: usize = 0;
    let mut ij: usize = 0;
    let mut il: usize = 0;
    let mut ig: usize = 0;
    let mut k: usize = 0;
    while k < ys.len()
        invariant
            k <= ys@.len(),
            views(out@) == scan(ys@.take(k as int), *it, news@).0,
            (iw as int, ij as int, il as int, ig as int) == scan(ys@.take(k as int), *it, news@).1,
            iw <= it.wires@.len() && ij <= it.junctions@.len() && il <= it.labels@.len() && ig <= it.global_labels@.len(),
        decreases ys@.len() - k,
    {
        let ghost t = ys@.take(k + 1);
        assert(t.drop_last() =~= ys@.take(k as int));
        assert(t.last() == ys@[k as int]);
        let x = &ys[k];
        let ghost before = out@;
        if let Some(a) = crate::sheet_reader::args_of_exec(x, "wire") {
            if iw < it.wires.len() && points_eq(&grid_points_exec(&crate::sheet_reader::wire_exec(a)), &it.wires[iw]) {
                let c = copy_sexpr(x);
                out.push(c);
                assert(views(out@) =~= views(before).push(x@));
                iw = iw + 1;
            }
        } else if let Some(a) = crate::sheet_reader::args_of_exec(x, "junction") {
            let (jx, jy, _) = crate::sheet_reader::at_exec(a);
            let g = grid_point_exec(jx, jy);
            if ij < it.junctions.len() && g.x == it.junctions[ij].x && g.y == it.junctions[ij].y {
                let c = copy_sexpr(x);
                out.push(c);
                assert(views(out@) =~= views(before).push(x@));
                ij = ij + 1;
            }
        } else if let Some(a) = crate::sheet_reader::args_of_exec(x, "label") {
            if il < it.labels.len() && label_fits_exec(&it.labels[il], a) {
                let c = copy_sexpr(x);
                out.push(c);
                assert(views(out@) =~= views(before).push(x@));
                il = il + 1;
            }
        } else if let Some(a) = crate::sheet_reader::args_of_exec(x, "global_label") {
            if ig < it.global_labels.len() && label_fits_exec(&it.global_labels[ig], a) {
                let c = copy_sexpr(x);
                out.push(c);
                assert(views(out@) =~= views(before).push(x@));
                ig = ig + 1;
            }
        } else if head_is_exec(x, "lib_symbols") {
            match x {
                SExpr::List(zs) => {
                    proof {
                        lemma_list_view(*zs);
                    }
                    let mut inner = copy_items(zs);
                    let mut defs = defs_to_add_exec(zs, news);
                    let ghost a1 = views(inner@);
                    let ghost a2 = views(defs@);
                    inner.append(&mut defs);
                    assert(views(inner@) =~= a1 + a2);
                    proof {
                        lemma_list_view(inner);
                    }
                    let c = SExpr::List(inner);
                    out.push(c);
                    assert(views(out@) =~= views(before).push(c@));
                },
                _ => {},
            }
        } else {
            match kept_item_exec(x, it) {
                Some(c) => {
                    out.push(c);
                    assert(views(out@) =~= views(before).push(c@));
                },
                None => {},
            }
        }
        k = k + 1;
    }
    assert(ys@.take(ys@.len() as int) =~= ys@);
    (out, iw, ij, il, ig)
}

fn added_items_exec(it: &SchematicItems, uuids: &Vec<String>, sw: usize, sj: usize, sl: usize, sg: usize) -> (r: Vec<SExpr>)
    requires
        uuids@.len() == new_item_count(*it),
        sw <= it.wires@.len() && sj <= it.junctions@.len() && sl <= it.labels@.len() && sg <= it.global_labels@.len(),
    ensures
        views(r@) == added_items(*it, uuid_views(uuids@), (sw as int, sj as int, sl as int, sg as int)),
{
    let ghost u = uuid_views(uuids@);
    let nw = it.wires.len();
    let nj = it.junctions.len();
    let nl = it.labels.len();
    let ng = it.global_labels.len();
    let ghost p1 = Seq::new((nw - sw) as nat, |i: int| wire_item(it.wires@[sw + i]@, u[sw + i]));
    let ghost p2 = Seq::new((nj - sj) as nat, |i: int| junction_item(it.junctions@[sj + i], u[nw + sj + i]));
    let ghost p3 = Seq::new((nl - sl) as nat, |i: int| label_item(it.labels@[sl + i], u[nw + nj + sl + i]));
    let ghost p4 = Seq::new((ng - sg) as nat, |i: int| global_item(it.global_labels@[sg + i], u[nw + nj + nl + sg + i]));
    let total = uuids.len();
    let mut out: Vec<SExpr> = Vec::new();
    let mut k: usize = sw;
    assert(p1.take(0) =~= Seq::<SExprView>::empty());
    while k < nw
        invariant
            sw <= k <= nw == it.wires@.len(),
            uuids@.len() == new_item_count(*it),
            total == uuids@.len(),
            u == uuid_views(uuids@),
            p1 == Seq::new((nw - sw) as nat, |i: int| wire_item(it.wires@[sw + i]@, u[sw + i])),
            views(out@) == p1.take(k - sw),
        decreases nw - k,
    {
        let x = wire_exec(&it.wires[k], uuids[k].clone());
        let ghost before = out@;
        out.push(x);
        assert(views(out@) =~= views(before).push(x@));
        assert(p1.take(k + 1 - sw) =~= p1.take(k - sw).push(p1[k - sw]));
        k = k + 1;
    }
    assert(p1.take(nw - sw) =~= p1);
    let mut k: usize = sj;
    while k < nj
        invariant
            sj <= k <= nj == it.junctions@.len(),
            nw == it.wires@.len(),
            uuids@.len() == new_item_count(*it),
            total == uuids@.len(),
            u == uuid_views(uuids@),
            p2 == Seq::new((nj - sj) as nat, |i: int| junction_item(it.junctions@[sj + i], u[nw + sj + i])),
            views(out@) == p1 + p2.take(k - sj),
        decreases nj - k,
    {
        let x = junction_exec(it.junctions[k], uuids[nw + k].clone());
        let ghost before = out@;
        out.push(x);
        assert(views(out@) =~= views(before).push(x@));
        assert(p2.take(k + 1 - sj) =~= p2.take(k - sj).push(p2[k - sj]));
        k = k + 1;
    }
    assert(p2.take(nj - sj) =~= p2);
    let mut k: usize = sl;
    while k < nl
        invariant
            sl <= k <= nl == it.labels@.len(),
            nw == it.wires@.len(),
            nj == it.junctions@.len(),
            uuids@.len() == new_item_count(*it),
            total == uuids@.len(),
            u == uuid_views(uuids@),
            p3 == Seq::new((nl - sl) as nat, |i: int| label_item(it.labels@[sl + i], u[nw + nj + sl + i])),
            views(out@) == p1 + p2 + p3.take(k - sl),
        decreases nl - k,
    {
        let x = label_item_exec(&it.labels[k], uuids[nw + nj + k].clone());
        let ghost before = out@;
        out.push(x);
        assert(views(out@) =~= views(before).push(x@));
        assert(p3.take(k + 1 - sl) =~= p3.take(k - sl).push(p3[k - sl]));
        k = k + 1;
    }
    assert(p3.take(nl - sl) =~= p3);
    let mut k: usize = sg;
    while k < ng
        invariant
            sg <= k <= ng == it.global_labels@.len(),
            nw == it.wires@.len(),
            nj == it.junctions@.len(),
            nl == it.labels@.len(),
            uuids@.len() == new_item_count(*it),
            total == uuids@.len(),
            u == uuid_views(uuids@),
            p4 == Seq::new((ng - sg) as nat, |i: int| global_item(it.global_labels@[sg + i], u[nw + nj + nl + sg + i])),
            views(out@) == p1 + p2 + p3 + p4.take(k - sg),
        decreases ng - k,
    {
        let x = global_item_exec(&it.global_labels[k], uuids[nw + nj + nl + k].clone());
        let ghost before = out@;
        out.push(x);
        assert(views(out@) =~= views(before).push(x@));
        assert(p4.take(k + 1 - sg) =~= p4.take(k - sg).push(p4[k - sg]));
        k = k + 1;
    }
    assert(p4.take(ng - sg) =~= p4);
    out
}

fn instance_forms_exec(news: &Vec<NewSymbol>) -> (r: Vec<SExpr>)
    ensures
        views(r@) == instance_forms(news@),
{
    let mut out: Vec<SExpr> = Vec::new();
    let mut k: usize = 0;
    while k < news.len()
        invariant
            k <= news@.len(),
            views(out@) == instance_forms(news@.take(k as int)),
        decreases news@.len() - k,
    {
        let x = news[k].instance.to_sexpr();
        let ghost before = out@;
        out.push(x);
        assert(views(out@) =~= views(before).push(x@));
        assert(instance_forms(news@.take(k + 1)) =~= instance_forms(news@.take(k as int)).push(x@));
        k = k + 1;
    }
    assert(news@.take(news@.len() as int) =~= news@);
    out
}

/// The schematic's tree with the edits saved, as `saved_tree` states; `news` are the
/// symbols placed by editing. An error when the tree is not a schematic, or when a
/// component stands neither in the tree nor among the newly placed symbols.
pub fn schematic_with_items(e: &SExpr, items: &SchematicItems, news: &Vec<NewSymbol>, uuids: &Vec<String>) -> (r: Result<
    SExpr,
    String,
>)
    requires
        uuids@.len() == new_item_count(*items),
    ensures
        r is Ok <==> (head_is(e@, "kicad_sch"@) && all_placed(e@->List_0 + instance_forms(news@), items.components@)),
        r matches Ok(t) ==> t@ == saved_tree(list_items(*e), *items, uuid_views(uuids@), news@),
{
    if !head_is_exec(e, "kicad_sch") {
        return Err(String::from_str("Not a KiCAD schematic"));
    }
    match e {
        SExpr::List(ys) => {
            proof {
                lemma_list_view(*ys);
            }
            let mut placed = copy_items(ys);
            let mut insts = instance_forms_exec(news);
            let ghost pa = views(placed@);
            let ghost pb = views(insts@);
            placed.append(&mut insts);
            assert(views(placed@) =~= pa + pb);
            if !all_placed_exec(&placed, items) {
                return Err(String::from_str("A component has no placed symbol in the schematic"));
            }
            let (mut out, sw, sj, sl, sg) = scan_exec(ys, items, news);
            let mut insts2 = instance_forms_exec(news);
            let mut added = added_items_exec(items, uuids, sw, sj, sl, sg);
            let ghost a = views(out@);
            let ghost b = views(insts2@);
            let ghost c = views(added@);
            out.append(&mut insts2);
            out.append(&mut added);
            assert(views(out@) =~= a + b + c);
            proof {
                lemma_list_view(out);
            }
            Ok(SExpr::List(out))
        },
        _ => Err(String::from_str("Not a KiCAD schematic")),
    }
}

} // verus!
