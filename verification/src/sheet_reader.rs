//! Reading the parts of a schematic that connections depend on out of its S-expression
//! tree: library symbol pins, placed symbols, wires, junctions, labels and sheets,
//! with their numbers kept exact.
use vstd::prelude::*;
use crate::semantic_components::{pair_views, string_views};
use crate::sexpr::{starts_with_symbol, Decimal, SExpr, SExprView};

verus! {

/// The arguments of `e` when it is a list headed by the symbol `name`.
pub open spec fn args_of(e: SExpr, name: Seq<char>) -> Option<Seq<SExpr>> {
    match e {
        SExpr::List(items) => if starts_with_symbol(e@, name) {
            Some(items@.subrange(1, items@.len() as int))
        } else {
            None
        },
        _ => None,
    }
}

/// The arguments of the first item from `k` on headed by `name`.
pub open spec fn child_from(items: Seq<SExpr>, name: Seq<char>, k: int) -> Option<Seq<SExpr>>
    decreases items.len() - k,
{
    if k < 0 || k >= items.len() {
        None
    } else {
        match args_of(items[k], name) {
            Some(a) => Some(a),
            None => child_from(items, name, k + 1),
        }
    }
}

/// The arguments of the first item headed by `name`.
pub open spec fn child(items: Seq<SExpr>, name: Seq<char>) -> Option<Seq<SExpr>> {
    child_from(items, name, 0)
}

/// The arguments of every item headed by `name`, in order.
pub open spec fn children(items: Seq<SExpr>, name: Seq<char>) -> Seq<Seq<SExpr>>
    decreases items.len(),
{
    if items.len() == 0 {
        Seq::empty()
    } else {
        children(items.drop_last(), name) + match args_of(items.last(), name) {
            Some(a) => seq![a],
            None => Seq::empty(),
        }
    }
}

/// The text of a string or a symbol.
pub open spec fn text_of(e: SExpr) -> Option<Seq<char>> {
    match e@ {
        SExprView::Str(s) => Some(s),
        SExprView::Symbol(s) => Some(s),
        _ => None,
    }
}

pub open spec fn number_of(e: SExpr) -> Option<Decimal> {
    match e@ {
        SExprView::Number(n) => Some(n),
        _ => None,
    }
}

/// The text of argument `k`, if it is one.
pub open spec fn arg_text(args: Seq<SExpr>, k: int) -> Option<Seq<char>> {
    if 0 <= k < args.len() {
        text_of(args[k])
    } else {
        None
    }
}

/// The number of argument `k`, if it is one.
pub open spec fn arg_number(args: Seq<SExpr>, k: int) -> Option<Decimal> {
    if 0 <= k < args.len() {
        number_of(args[k])
    } else {
        None
    }
}

pub open spec fn zero() -> Decimal {
    Decimal { mantissa: 0, scale: 0 }
}

pub open spec fn number_or_zero(n: Option<Decimal>) -> Decimal {
    match n {
        Some(d) => d,
        None => zero(),
    }
}

pub open spec fn text_or_empty(t: Option<Seq<char>>) -> Seq<char> {
    match t {
        Some(s) => s,
        None => Seq::empty(),
    }
}

/// The text of the first argument of the first item headed by `name`.
pub open spec fn field_text(items: Seq<SExpr>, name: Seq<char>) -> Option<Seq<char>> {
    match child(items, name) {
        Some(a) => arg_text(a, 0),
        None => None,
    }
}

/// The position and angle of the first `at` item, zero where missing.
pub open spec fn at_of(items: Seq<SExpr>) -> (Decimal, Decimal, Decimal) {
    match child(items, "at"@) {
        Some(a) => (number_or_zero(arg_number(a, 0)), number_or_zero(arg_number(a, 1)), number_or_zero(arg_number(a, 2))),
        None => (zero(), zero(), zero()),
    }
}

/// The arguments of the first item headed by `name`.
pub fn child_exec<'a>(items: &'a [SExpr], name: &str) -> (r: Option<&'a [SExpr]>)
    ensures
        match child(items@, name@) {
            Some(a) => r matches Some(s) && s@ == a,
            None => r is None,
        },
{
    let mut k: usize = 0;
    while k < items.len()
        invariant
            k <= items@.len(),
            child_from(items@, name@, 0) == child_from(items@, name@, k as int),
        decreases items@.len() - k,
    {
        match items[k].as_list_starting_with(name) {
            Some(a) => {
                return Some(a);
            },
            None => {},
        }
        k = k + 1;
    }
    None
}

/// The arguments of every item headed by `name`, in order.
pub fn children_exec<'a>(items: &'a [SExpr], name: &str) -> (r: Vec<&'a [SExpr]>)
    ensures
        r@.map_values(|s: &[SExpr]| s@) == children(items@, name@),
{
    let mut out: Vec<&'a [SExpr]> = Vec::new();
    let mut k: usize = 0;
    while k < items.len()
        invariant
            k <= items@.len(),
            out@.map_values(|s: &[SExpr]| s@) == children(items@.take(k as int), name@),
        decreases items@.len() - k,
    {
        assert(items@.take(k + 1).drop_last() == items@.take(k as int));
        assert(items@.take(k + 1).last() == items@[k as int]);
        let ghost before = out@;
        match items[k].as_list_starting_with(name) {
            Some(a) => {
                out.push(a);
                assert(out@.map_values(|s: &[SExpr]| s@) =~= before.map_values(|s: &[SExpr]| s@).push(a@));
            },
            None => {},
        }
        k = k + 1;
    }
    assert(items@.take(items@.len() as int) == items@);
    out
}

/// The text of a string or a symbol.
pub fn text_exec(e: &SExpr) -> (r: Option<String>)
    ensures
        match text_of(*e) {
            Some(s) => r matches Some(t) && t@ == s,
            None => r is None,
        },
{
    match e.as_string() {
        Some(s) => Some(String::from_str(s)),
        None => match e.as_symbol() {
            Some(s) => Some(String::from_str(s)),
            None => None,
        },
    }
}

fn arg_text_exec(args: &[SExpr], k: usize) -> (r: Option<String>)
    ensures
        match arg_text(args@, k as int) {
            Some(s) => r matches Some(t) && t@ == s,
            None => r is None,
        },
{
    if k < args.len() {
        text_exec(&args[k])
    } else {
        None
    }
}

fn arg_number_exec(args: &[SExpr], k: usize) -> (r: Decimal)
    ensures
        r == number_or_zero(arg_number(args@, k as int)),
{
    if k < args.len() {
        match args[k].as_number() {
            Some(d) => d,
            None => Decimal { mantissa: 0, scale: 0 },
        }
    } else {
        Decimal { mantissa: 0, scale: 0 }
    }
}

fn field_text_exec(items: &[SExpr], name: &str) -> (r: Option<String>)
    ensures
        match field_text(items@, name@) {
            Some(s) => r matches Some(t) && t@ == s,
            None => r is None,
        },
{
    match child_exec(items, name) {
        Some(a) => arg_text_exec(a, 0),
        None => None,
    }
}

pub(crate) fn at_exec(items: &[SExpr]) -> (r: (Decimal, Decimal, Decimal))
    ensures
        r == at_of(items@),
{
    match child_exec(items, "at") {
        Some(a) => (arg_number_exec(a, 0), arg_number_exec(a, 1), arg_number_exec(a, 2)),
        None => (Decimal { mantissa: 0, scale: 0 }, Decimal { mantissa: 0, scale: 0 }, Decimal { mantissa: 0, scale: 0 }),
    }
}

/// The number of the first argument of the first item headed by `name`.
pub open spec fn field_number(items: Seq<SExpr>, name: Seq<char>) -> Option<Decimal> {
    match child(items, name) {
        Some(a) => arg_number(a, 0),
        None => None,
    }
}

/// A pin of a library symbol as the file gives it: number, name, position, direction
/// and length, in millimetres and degrees.
#[derive(Debug, Clone)]
pub struct PinData {
    pub number: String,
    pub name: String,
    pub x: Decimal,
    pub y: Decimal,
    pub angle: Decimal,
    pub length: Decimal,
}

/// A library symbol embedded in a schematic: its name and the pins of all its units.
#[derive(Debug, Clone)]
pub struct LibSymbolData {
    pub name: String,
    pub pins: Vec<PinData>,
}

/// A placed symbol: its library symbol, position, rotation, mirroring, properties and
/// the pin numbers it lists.
#[derive(Debug, Clone)]
pub struct SymbolData {
    pub lib_id: String,
    pub x: Decimal,
    pub y: Decimal,
    pub angle: Decimal,
    pub mirror: Option<String>,
    pub properties: Vec<(String, String)>,
    pub pins: Vec<String>,
}

/// A label (or sheet pin): its text, position, direction and, where it has one, its
/// shape.
#[derive(Debug, Clone)]
pub struct LabelData {
    pub text: String,
    pub x: Decimal,
    pub y: Decimal,
    pub angle: Decimal,
    pub shape: Option<String>,
}

/// A sheet: its name, its file and its pins.
#[derive(Debug, Clone)]
pub struct SheetData {
    pub name: String,
    pub file: String,
    pub pins: Vec<LabelData>,
}

/// The parts of a schematic that connections depend on.
#[derive(Debug, Clone)]
pub struct SchematicData {
    pub lib_symbols: Vec<LibSymbolData>,
    pub symbols: Vec<SymbolData>,
    pub wires: Vec<Vec<(Decimal, Decimal)>>,
    pub junctions: Vec<(Decimal, Decimal)>,
    pub labels: Vec<LabelData>,
    pub global_labels: Vec<LabelData>,
    pub hierarchical_labels: Vec<LabelData>,
    pub sheets: Vec<SheetData>,
}

pub open spec fn pin_data_view(p: PinData) -> (Seq<char>, Seq<char>, Decimal, Decimal, Decimal, Decimal) {
    (p.number@, p.name@, p.x, p.y, p.angle, p.length)
}

/// A pin item's number, name, position, direction and length; empty texts and zeros
/// where missing.
pub open spec fn pin_spec(p: Seq<SExpr>) -> (Seq<char>, Seq<char>, Decimal, Decimal, Decimal, Decimal) {
    let at = at_of(p);
    (
        text_or_empty(field_text(p, "number"@)),
        text_or_empty(field_text(p, "name"@)),
        at.0,
        at.1,
        at.2,
        number_or_zero(field_number(p, "length"@)),
    )
}

/// The pins of the units, unit by unit.
pub open spec fn units_pins(units: Seq<Seq<SExpr>>) -> Seq<(Seq<char>, Seq<char>, Decimal, Decimal, Decimal, Decimal)>
    decreases units.len(),
{
    if units.len() == 0 {
        Seq::empty()
    } else {
        units_pins(units.drop_last()) + children(units.last(), "pin"@).map_values(|p: Seq<SExpr>| pin_spec(p))
    }
}

/// A library symbol: its name and the pins of its units (the `symbol` items in it).
pub open spec fn lib_symbol_matches(d: LibSymbolData, sym: Seq<SExpr>) -> bool {
    &&& d.name@ == text_or_empty(arg_text(sym, 0))
    &&& d.pins@.map_values(|p: PinData| pin_data_view(p)) == units_pins(children(sym, "symbol"@))
}

/// The properties that have a name and a value, in order.
pub open spec fn props_spec(ps: Seq<Seq<SExpr>>) -> Seq<(Seq<char>, Seq<char>)>
    decreases ps.len(),
{
    if ps.len() == 0 {
        Seq::empty()
    } else {
        let p = ps.last();
        props_spec(ps.drop_last()) + match (arg_text(p, 0), arg_text(p, 1)) {
            (Some(n), Some(v)) => seq![(n, v)],
            _ => Seq::empty(),
        }
    }
}

/// The pin numbers listed, in order.
pub open spec fn listed_pins(ps: Seq<Seq<SExpr>>) -> Seq<Seq<char>>
    decreases ps.len(),
{
    if ps.len() == 0 {
        Seq::empty()
    } else {
        listed_pins(ps.drop_last()) + match arg_text(ps.last(), 0) {
            Some(n) => seq![n],
            None => Seq::empty(),
        }
    }
}

pub open spec fn opt_view(o: Option<String>) -> Option<Seq<char>> {
    match o {
        Some(s) => Some(s@),
        None => None,
    }
}

/// A placed symbol item: its `lib_id`, `at`, `mirror`, named properties and listed pins.
pub open spec fn symbol_matches(d: SymbolData, sym: Seq<SExpr>) -> bool {
    let at = at_of(sym);
    &&& d.lib_id@ == text_or_empty(field_text(sym, "lib_id"@))
    &&& d.x == at.0 && d.y == at.1 && d.angle == at.2
    &&& opt_view(d.mirror) == field_text(sym, "mirror"@)
    &&& pair_views(d.properties@) == props_spec(children(sym, "property"@))
    &&& string_views(d.pins@) == listed_pins(children(sym, "pin"@))
}

/// A label item: its text (the first argument), position, direction and shape.
pub open spec fn label_matches(d: LabelData, l: Seq<SExpr>) -> bool {
    &&& d.text@ == text_or_empty(arg_text(l, 0))
    &&& d.x == at_of(l).0
    &&& d.y == at_of(l).1
    &&& d.angle == at_of(l).2
    &&& opt_view(d.shape) == field_text(l, "shape"@)
}

/// The value of the first property named `name`.
pub open spec fn prop_value(ps: Seq<(Seq<char>, Seq<char>)>, name: Seq<char>, k: int) -> Option<Seq<char>>
    decreases ps.len() - k,
{
    if k < 0 || k >= ps.len() {
        None
    } else if ps[k].0 == name {
        Some(ps[k].1)
    } else {
        prop_value(ps, name, k + 1)
    }
}

/// A sheet item: its `Sheetname` and `Sheetfile` properties and its pins.
pub open spec fn sheet_matches(d: SheetData, sh: Seq<SExpr>) -> bool {
    let props = props_spec(children(sh, "property"@));
    let pins = children(sh, "pin"@);
    &&& d.name@ == text_or_empty(prop_value(props, "Sheetname"@, 0))
    &&& d.file@ == text_or_empty(prop_value(props, "Sheetfile"@, 0))
    &&& d.pins@.len() == pins.len()
    &&& forall|k: int| 0 <= k < pins.len() ==> label_matches(#[trigger] d.pins@[k], pins[k])
}

/// The points of a wire item's `pts`.
pub open spec fn wire_spec(w: Seq<SExpr>) -> Seq<(Decimal, Decimal)> {
    match child(w, "pts"@) {
        Some(pts) => children(pts, "xy"@).map_values(
            |xy: Seq<SExpr>| (number_or_zero(arg_number(xy, 0)), number_or_zero(arg_number(xy, 1))),
        ),
        None => Seq::empty(),
    }
}

/// The labels of the items, in order.
pub open spec fn labels_match(ds: Seq<LabelData>, ls: Seq<Seq<SExpr>>) -> bool {
    &&& ds.len() == ls.len()
    &&& forall|k: int| 0 <= k < ls.len() ==> label_matches(#[trigger] ds[k], ls[k])
}

/// What a schematic's items hold, kind by kind, each in order.
pub open spec fn schematic_matches(d: SchematicData, items: Seq<SExpr>) -> bool {
    let libs = match child(items, "lib_symbols"@) {
        Some(l) => children(l, "symbol"@),
        None => Seq::empty(),
    };
    let syms = children(items, "symbol"@);
    let wires = children(items, "wire"@);
    let junctions = children(items, "junction"@);
    let sheets = children(items, "sheet"@);
    &&& d.lib_symbols@.len() == libs.len()
    &&& forall|k: int| 0 <= k < libs.len() ==> lib_symbol_matches(#[trigger] d.lib_symbols@[k], libs[k])
    &&& d.symbols@.len() == syms.len()
    &&& forall|k: int| 0 <= k < syms.len() ==> symbol_matches(#[trigger] d.symbols@[k], syms[k])
    &&& d.wires@.len() == wires.len()
    &&& forall|k: int| 0 <= k < wires.len() ==> (#[trigger] d.wires@[k])@ == wire_spec(wires[k])
    &&& d.junctions@ == junctions.map_values(|j: Seq<SExpr>| (at_of(j).0, at_of(j).1))
    &&& labels_match(d.labels@, children(items, "label"@))
    &&& labels_match(d.global_labels@, children(items, "global_label"@))
    &&& labels_match(d.hierarchical_labels@, children(items, "hierarchical_label"@))
    &&& d.sheets@.len() == sheets.len()
    &&& forall|k: int| 0 <= k < sheets.len() ==> sheet_matches(#[trigger] d.sheets@[k], sheets[k])
}

fn field_number_exec(items: &[SExpr], name: &str) -> (r: Decimal)
    ensures
        r == number_or_zero(field_number(items@, name@)),
{
    match child_exec(items, name) {
        Some(a) => arg_number_exec(a, 0),
        None => Decimal { mantissa: 0, scale: 0 },
    }
}

fn pin_exec(p: &[SExpr]) -> (r: PinData)
    ensures
        pin_data_view(r) == pin_spec(p@),
{
    let (x, y, angle) = at_exec(p);
    let number = match field_text_exec(p, "number") {
        Some(t) => t,
        None => String::new(),
    };
    let name = match field_text_exec(p, "name") {
        Some(t) => t,
        None => String::new(),
    };
    let length = field_number_exec(p, "length");
    PinData { number, name, x, y, angle, length }
}

fn lib_symbol_exec(sym: &[SExpr]) -> (r: LibSymbolData)
    ensures
        lib_symbol_matches(r, sym@),
{
    let name = match arg_text_exec(sym, 0) {
        Some(t) => t,
        None => String::new(),
    };
    let units = children_exec(sym, "symbol");
    let ghost uv = units@.map_values(|s: &[SExpr]| s@);
    let mut pins: Vec<PinData> = Vec::new();
    let mut u: usize = 0;
    while u < units.len()
        invariant
            u <= units@.len(),
            uv == units@.map_values(|s: &[SExpr]| s@),
            pins@.map_values(|p: PinData| pin_data_view(p)) == units_pins(uv.take(u as int)),
        decreases units@.len() - u,
    {
        assert(uv.take(u + 1).drop_last() == uv.take(u as int));
        assert(uv.take(u + 1).last() == units@[u as int]@);
        let ps = children_exec(units[u], "pin");
        let ghost base = pins@.map_values(|p: PinData| pin_data_view(p));
        let ghost pv = ps@.map_values(|s: &[SExpr]| s@);
        let mut k: usize = 0;
        while k < ps.len()
            invariant
                k <= ps@.len(),
                pv == ps@.map_values(|s: &[SExpr]| s@),
                pins@.map_values(|p: PinData| pin_data_view(p)) == base + pv.take(k as int).map_values(
                    |p: Seq<SExpr>| pin_spec(p),
                ),
            decreases ps@.len() - k,
        {
            let ghost before = pins@;
            let d = pin_exec(ps[k]);
            pins.push(d);
            assert(pins@.map_values(|p: PinData| pin_data_view(p)) =~= before.map_values(
                |p: PinData| pin_data_view(p),
            ).push(pin_data_view(d)));
            assert(pv.take(k + 1).map_values(|p: Seq<SExpr>| pin_spec(p)) =~= pv.take(k as int).map_values(
                |p: Seq<SExpr>| pin_spec(p),
            ).push(pin_spec(pv[k as int])));
            k = k + 1;
        }
        assert(pv.take(pv.len() as int) == pv);
        u = u + 1;
    }
    assert(uv.take(uv.len() as int) == uv);
    LibSymbolData { name, pins }
}

fn props_exec(ps: &Vec<&[SExpr]>) -> (r: Vec<(String, String)>)
    ensures
        pair_views(r@) == props_spec(ps@.map_values(|s: &[SExpr]| s@)),
{
    let ghost pv = ps@.map_values(|s: &[SExpr]| s@);
    let mut out: Vec<(String, String)> = Vec::new();
    let mut k: usize = 0;
    while k < ps.len()
        invariant
            k <= ps@.len(),
            pv == ps@.map_values(|s: &[SExpr]| s@),
            pair_views(out@) == props_spec(pv.take(k as int)),
        decreases ps@.len() - k,
    {
        assert(pv.take(k + 1).drop_last() == pv.take(k as int));
        assert(pv.take(k + 1).last() == ps@[k as int]@);
        let ghost before = out@;
        match (arg_text_exec(ps[k], 0), arg_text_exec(ps[k], 1)) {
            (Some(n), Some(v)) => {
                out.push((n, v));
                assert(pair_views(out@) =~= pair_views(before).push(pair_views(out@).last()));
            },
            _ => {},
        }
        k = k + 1;
    }
    assert(pv.take(pv.len() as int) == pv);
    out
}

fn listed_pins_exec(ps: &Vec<&[SExpr]>) -> (r: Vec<String>)
    ensures
        string_views(r@) == listed_pins(ps@.map_values(|s: &[SExpr]| s@)),
{
    let ghost pv = ps@.map_values(|s: &[SExpr]| s@);
    let mut out: Vec<String> = Vec::new();
    let mut k: usize = 0;
    while k < ps.len()
        invariant
            k <= ps@.len(),
            pv == ps@.map_values(|s: &[SExpr]| s@),
            string_views(out@) == listed_pins(pv.take(k as int)),
        decreases ps@.len() - k,
    {
        assert(pv.take(k + 1).drop_last() == pv.take(k as int));
        assert(pv.take(k + 1).last() == ps@[k as int]@);
        let ghost before = out@;
        match arg_text_exec(ps[k], 0) {
            Some(n) => {
                out.push(n);
                assert(string_views(out@) =~= string_views(before).push(string_views(out@).last()));
            },
            None => {},
        }
        k = k + 1;
    }
    assert(pv.take(pv.len() as int) == pv);
    out
}

fn symbol_exec(sym: &[SExpr]) -> (r: SymbolData)
    ensures
        symbol_matches(r, sym@),
{
    let (x, y, angle) = at_exec(sym);
    let lib_id = match field_text_exec(sym, "lib_id") {
        Some(t) => t,
        None => String::new(),
    };
    let mirror = field_text_exec(sym, "mirror");
    let props = children_exec(sym, "property");
    let properties = props_exec(&props);
    let pin_items = children_exec(sym, "pin");
    let pins = listed_pins_exec(&pin_items);
    SymbolData { lib_id, x, y, angle, mirror, properties, pins }
}

pub(crate) fn label_exec(l: &[SExpr]) -> (r: LabelData)
    ensures
        label_matches(r, l@),
{
    let (x, y, angle) = at_exec(l);
    let text = match arg_text_exec(l, 0) {
        Some(t) => t,
        None => String::new(),
    };
    let shape = field_text_exec(l, "shape");
    LabelData { text, x, y, angle, shape }
}

fn labels_exec(ls: &Vec<&[SExpr]>) -> (r: Vec<LabelData>)
    ensures
        labels_match(r@, ls@.map_values(|s: &[SExpr]| s@)),
{
    let mut out: Vec<LabelData> = Vec::new();
    let mut k: usize = 0;
    while k < ls.len()
        invariant
            k <= ls@.len(),
            out@.len() == k,
            forall|j: int| 0 <= j < k ==> label_matches(#[trigger] out@[j], ls@[j]@),
        decreases ls@.len() - k,
    {
        out.push(label_exec(ls[k]));
        k = k + 1;
    }
    out
}

fn prop_value_exec(ps: &Vec<(String, String)>, name: &str) -> (r: String)
    ensures
        r@ == text_or_empty(prop_value(pair_views(ps@), name@, 0)),
{
    let ghost pv = pair_views(ps@);
    let mut k: usize = 0;
    while k < ps.len()
        invariant
            k <= ps@.len(),
            pv == pair_views(ps@),
            prop_value(pv, name@, 0) == prop_value(pv, name@, k as int),
        decreases ps@.len() - k,
    {
        if crate::text::str_eq(ps[k].0.as_str(), name) {
            return ps[k].1.clone();
        }
        k = k + 1;
    }
    String::new()
}

fn sheet_exec(sh: &[SExpr]) -> (r: SheetData)
    ensures
        sheet_matches(r, sh@),
{
    let props = children_exec(sh, "property");
    let named = props_exec(&props);
    let name = prop_value_exec(&named, "Sheetname");
    let file = prop_value_exec(&named, "Sheetfile");
    let pin_items = children_exec(sh, "pin");
    let pins = labels_exec(&pin_items);
    SheetData { name, file, pins }
}

pub(crate) fn wire_exec(w: &[SExpr]) -> (r: Vec<(Decimal, Decimal)>)
    ensures
        r@ == wire_spec(w@),
{
    let mut out: Vec<(Decimal, Decimal)> = Vec::new();
    match child_exec(w, "pts") {
        Some(pts) => {
            let xys = children_exec(pts, "xy");
            let ghost xv = xys@.map_values(|s: &[SExpr]| s@);
            let mut k: usize = 0;
            while k < xys.len()
                invariant
                    k <= xys@.len(),
                    xv == xys@.map_values(|s: &[SExpr]| s@),
                    out@ == xv.take(k as int).map_values(
                        |xy: Seq<SExpr>| (number_or_zero(arg_number(xy, 0)), number_or_zero(arg_number(xy, 1))),
                    ),
                decreases xys@.len() - k,
            {
                let p = (arg_number_exec(xys[k], 0), arg_number_exec(xys[k], 1));
                out.push(p);
                assert(xv.take(k + 1) == xv.take(k as int).push(xv[k as int]));
                k = k + 1;
            }
            assert(xv.take(xv.len() as int) == xv);
        },
        None => {},
    }
    out
}

/// Whether the first argument is a quoted string.
pub open spec fn starts_with_string(args: Seq<SExpr>) -> bool {
    args.len() > 0 && args[0]@ is Str
}

/// The field a text-bearing item lacks: a label, global label, hierarchical label or
/// text item needs a quoted string as its first argument.
pub open spec fn missing_text(e: SExpr) -> Option<Seq<char>> {
    if args_of(e, "global_label"@) is Some {
        if starts_with_string(args_of(e, "global_label"@)->Some_0) { None } else { Some("global_label text"@) }
    } else if args_of(e, "hierarchical_label"@) is Some {
        if starts_with_string(args_of(e, "hierarchical_label"@)->Some_0) { None } else { Some("hierarchical_label text"@) }
    } else if args_of(e, "label"@) is Some {
        if starts_with_string(args_of(e, "label"@)->Some_0) { None } else { Some("label text"@) }
    } else if args_of(e, "text"@) is Some {
        if starts_with_string(args_of(e, "text"@)->Some_0) { None } else { Some("text content"@) }
    } else {
        None
    }
}

/// The field lacking in the first item from `k` on that lacks one.
pub open spec fn first_missing_text(items: Seq<SExpr>, k: int) -> Option<Seq<char>>
    decreases items.len() - k,
{
    if k < 0 || k >= items.len() {
        None
    } else if missing_text(items[k]) is Some {
        missing_text(items[k])
    } else {
        first_missing_text(items, k + 1)
    }
}

fn string_first(args: &[SExpr]) -> (r: bool)
    ensures
        r == starts_with_string(args@),
{
    args.len() > 0 && match &args[0] {
        SExpr::String(_) => true,
        _ => false,
    }
}

fn missing_text_exec(e: &SExpr) -> (r: Option<&'static str>)
    ensures
        match missing_text(*e) {
            Some(f) => r matches Some(t) && t@ == f,
            None => r is None,
        },
{
    if let Some(a) = args_of_exec(e, "global_label") {
        if string_first(a) { None } else { Some("global_label text") }
    } else if let Some(a) = args_of_exec(e, "hierarchical_label") {
        if string_first(a) { None } else { Some("hierarchical_label text") }
    } else if let Some(a) = args_of_exec(e, "label") {
        if string_first(a) { None } else { Some("label text") }
    } else if let Some(a) = args_of_exec(e, "text") {
        if string_first(a) { None } else { Some("text content") }
    } else {
        None
    }
}

pub(crate) fn args_of_exec<'a>(e: &'a SExpr, name: &str) -> (r: Option<&'a [SExpr]>)
    ensures
        match args_of(*e, name@) {
            Some(a) => r matches Some(sl) && sl@ == a,
            None => r is None,
        },
{
    e.as_list_starting_with(name)
}

fn first_missing_text_exec(items: &[SExpr]) -> (r: Option<&'static str>)
    ensures
        match first_missing_text(items@, 0) {
            Some(f) => r matches Some(t) && t@ == f,
            None => r is None,
        },
{
    let mut k: usize = 0;
    while k < items.len()
        invariant
            k <= items@.len(),
            first_missing_text(items@, 0) == first_missing_text(items@, k as int),
        decreases items@.len() - k,
    {
        let m = missing_text_exec(&items[k]);
        if m.is_some() {
            return m;
        }
        k = k + 1;
    }
    None
}

impl SchematicData {
    /// Read a schematic's S-expression (a `kicad_sch` list) as `schematic_matches`
    /// states; any other expression is no schematic, and a label, global label,
    /// hierarchical label or text item without its quoted text is refused, the first
    /// such item naming the missing field.
    pub fn from_sexpr(e: &SExpr) -> (r: Result<SchematicData, String>)
        ensures
            match args_of(*e, "kicad_sch"@) {
                Some(items) => match first_missing_text(items, 0) {
                    Some(f) => r matches Err(m) && m@ == "Missing field: "@ + f,
                    None => r matches Ok(d) && schematic_matches(d, items),
                },
                None => r matches Err(m) && m@ == "not a KiCAD schematic"@,
            },
    {
        let items = match e.as_list_starting_with("kicad_sch") {
            Some(items) => items,
            None => {
                return Err(String::from_str("not a KiCAD schematic"));
            },
        };
        match first_missing_text_exec(items) {
            Some(f) => {
                let mut m = String::from_str("Missing field: ");
                m.append(f);
                return Err(m);
            },
            None => {},
        }
        let mut lib_symbols: Vec<LibSymbolData> = Vec::new();
        match child_exec(items, "lib_symbols") {
            Some(libs) => {
                let syms = children_exec(libs, "symbol");
                let mut k: usize = 0;
                while k < syms.len()
                    invariant
                        k <= syms@.len(),
                        lib_symbols@.len() == k,
                        forall|j: int| 0 <= j < k ==> lib_symbol_matches(#[trigger] lib_symbols@[j], syms@[j]@),
                    decreases syms@.len() - k,
                {
                    lib_symbols.push(lib_symbol_exec(syms[k]));
                    k = k + 1;
                }
            },
            None => {},
        }
        let syms = children_exec(items, "symbol");
        let mut symbols: Vec<SymbolData> = Vec::new();
        let mut k: usize = 0;
        while k < syms.len()
            invariant
                k <= syms@.len(),
                symbols@.len() == k,
                forall|j: int| 0 <= j < k ==> symbol_matches(#[trigger] symbols@[j], syms@[j]@),
            decreases syms@.len() - k,
        {
            symbols.push(symbol_exec(syms[k]));
            k = k + 1;
        }
        let wire_items = children_exec(items, "wire");
        let mut wires: Vec<Vec<(Decimal, Decimal)>> = Vec::new();
        let mut k: usize = 0;
        while k < wire_items.len()
            invariant
                k <= wire_items@.len(),
                wires@.len() == k,
                forall|j: int| 0 <= j < k ==> (#[trigger] wires@[j])@ == wire_spec(wire_items@[j]@),
            decreases wire_items@.len() - k,
        {
            wires.push(wire_exec(wire_items[k]));
            k = k + 1;
        }
        let junction_items = children_exec(items, "junction");
        let ghost jv = junction_items@.map_values(|s: &[SExpr]| s@);
        let mut junctions: Vec<(Decimal, Decimal)> = Vec::new();
        let mut k: usize = 0;
        while k < junction_items.len()
            invariant
                k <= junction_items@.len(),
                jv == junction_items@.map_values(|s: &[SExpr]| s@),
                junctions@ == jv.take(k as int).map_values(|j: Seq<SExpr>| (at_of(j).0, at_of(j).1)),
            decreases junction_items@.len() - k,
        {
            let (x, y, _) = at_exec(junction_items[k]);
            junctions.push((x, y));
            assert(jv.take(k + 1) == jv.take(k as int).push(jv[k as int]));
            k = k + 1;
        }
        assert(jv.take(jv.len() as int) == jv);
        let labels = labels_exec(&children_exec(items, "label"));
        let global_labels = labels_exec(&children_exec(items, "global_label"));
        let hierarchical_labels = labels_exec(&children_exec(items, "hierarchical_label"));
        let sheet_items = children_exec(items, "sheet");
        let mut sheets: Vec<SheetData> = Vec::new();
        let mut k: usize = 0;
        while k < sheet_items.len()
            invariant
                k <= sheet_items@.len(),
                sheets@.len() == k,
                forall|j: int| 0 <= j < k ==> sheet_matches(#[trigger] sheets@[j], sheet_items@[j]@),
            decreases sheet_items@.len() - k,
        {
            sheets.push(sheet_exec(sheet_items[k]));
            k = k + 1;
        }
        Ok(SchematicData { lib_symbols, symbols, wires, junctions, labels, global_labels, hierarchical_labels, sheets })
    }
}

} // verus!
