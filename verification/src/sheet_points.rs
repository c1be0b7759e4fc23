//! Placing what a schematic holds on the grid: wires, junctions, labels, sheet pins, and
//! the pins of placed symbols where rotation by quarter turns places them exactly.
use vstd::prelude::*;
use crate::outline_nets::{GridPoint, SchematicPoints, SheetPins, SymbolPins};
use crate::pin_geometry::{pin_position, LibPinGeometry, Placement};
use crate::place::placed_point;
use crate::schematic::Mirror;
use crate::sexpr::{pow10, pow10_exec, Decimal};
use crate::semantic_components::{
    component_pins, dedup_adjacent, number_labels, pair_views, pin_labels, string_views, text_order,
};
use crate::semantic_merge::ComponentData;
use crate::semantic_outline::{classify_lib_id, ComponentType};
use crate::semantic_text::SemanticSheet;
use crate::ordering::sort_by;
use crate::sheet_reader::{
    opt_view, LabelData, LibSymbolData, PinData, SchematicData, SymbolData, prop_value, text_or_empty,
};
use crate::text::str_eq;

verus! {

/// `m / q` rounded to the nearest whole number, halves away from zero.
pub open spec fn round_div(m: int, q: int) -> int {
    if m >= 0 {
        (m + q / 2) / q
    } else {
        -(((-m) + q / 2) / q)
    }
}

/// A length in millimetres in grid units (1/10000 mm): exact to four decimals, finer
/// ones rounded to the nearest unit, halves away from zero.
pub open spec fn units_of(d: Decimal) -> int {
    if d.scale <= 4 {
        d.mantissa * pow10((4 - d.scale) as nat)
    } else {
        round_div(d.mantissa as int, pow10((d.scale - 4) as nat))
    }
}

pub open spec fn clamp_i32(v: int) -> i32 {
    if v < i32::MIN {
        i32::MIN
    } else if v > i32::MAX {
        i32::MAX
    } else {
        v as i32
    }
}

/// A coordinate on the grid, held to the grid's range.
pub open spec fn grid_value(d: Decimal) -> i32 {
    clamp_i32(units_of(d))
}

pub open spec fn grid_point(x: Decimal, y: Decimal) -> GridPoint {
    GridPoint { x: grid_value(x), y: grid_value(y) }
}

/// An angle that is a whole number of degrees.
pub open spec fn whole_degrees(d: Decimal) -> Option<i32> {
    if d.scale == 0 && i32::MIN <= d.mantissa <= i32::MAX {
        Some(d.mantissa as i32)
    } else {
        None
    }
}

proof fn lemma_pow10_grows(k: nat)
    ensures
        pow10(k) >= 1,
        k >= 20 ==> pow10(k) >= 100_000_000_000_000_000_000,
    decreases k,
{
    if k > 0 {
        lemma_pow10_grows((k - 1) as nat);
        if k == 20 {
            assert(pow10(20) == 100_000_000_000_000_000_000) by {
                reveal_with_fuel(pow10, 21);
            }
        }
    }
}

/// A coordinate in grid units.
pub fn grid_value_exec(d: Decimal) -> (r: i32)
    ensures
        r == grid_value(d),
{
    let m = d.mantissa as i128;
    let v: i128 = if d.scale <= 4 {
        let f = pow10_exec(4 - d.scale) as i128;
        assert(1 <= f <= 10000) by {
            reveal_with_fuel(pow10, 5);
        }
        assert(-0x8000_0000_0000_0000 * 10000 <= m * f <= 0x7fff_ffff_ffff_ffff * 10000) by (nonlinear_arith)
            requires
                -0x8000_0000_0000_0000 <= m <= 0x7fff_ffff_ffff_ffff,
                1 <= f <= 10000,
        ;
        m * f
    } else if d.scale - 4 <= 19 {
        let q = pow10_exec(d.scale - 4) as i128;
        proof {
            lemma_pow10_grows((d.scale - 4) as nat);
        }
        if m >= 0 {
            (m + q / 2) / q
        } else {
            -(((-m) + q / 2) / q)
        }
    } else {
        proof {
            let q = pow10((d.scale - 4) as nat);
            lemma_pow10_grows((d.scale - 4) as nat);
            if m >= 0 {
                assert((m + q / 2) / q == 0) by (nonlinear_arith)
                    requires
                        0 <= m <= 0x7fff_ffff_ffff_ffff,
                        q >= 100_000_000_000_000_000_000,
                ;
            } else {
                assert(((-m) + q / 2) / q == 0) by (nonlinear_arith)
                    requires
                        0 < -m <= 0x8000_0000_0000_0000,
                        q >= 100_000_000_000_000_000_000,
                ;
            }
        }
        0
    };
    if v < i32::MIN as i128 {
        i32::MIN
    } else if v > i32::MAX as i128 {
        i32::MAX
    } else {
        v as i32
    }
}

pub fn grid_point_exec(x: Decimal, y: Decimal) -> (r: GridPoint)
    ensures
        r == grid_point(x, y),
{
    GridPoint { x: grid_value_exec(x), y: grid_value_exec(y) }
}

pub open spec fn mirror_of(m: Option<String>) -> Option<Mirror> {
    match m {
        Some(s) => Mirror::from_keyword(s@),
        None => None,
    }
}

/// The first library symbol from `k` on named `lib_id`.
pub open spec fn lib_index(libs: Seq<LibSymbolData>, lib_id: Seq<char>, k: int) -> Option<int>
    decreases libs.len() - k,
{
    if k < 0 || k >= libs.len() {
        None
    } else if libs[k].name@ == lib_id {
        Some(k)
    } else {
        lib_index(libs, lib_id, k + 1)
    }
}

/// The first library pin from `k` on whose number or name is `key`.
pub open spec fn lib_pin_index(pins: Seq<PinData>, key: Seq<char>, k: int) -> Option<int>
    decreases pins.len() - k,
{
    if k < 0 || k >= pins.len() {
        None
    } else if pins[k].number@ == key || pins[k].name@ == key {
        Some(k)
    } else {
        lib_pin_index(pins, key, k + 1)
    }
}

/// The first library pin from `k` on numbered `n`.
pub open spec fn pin_numbered(pins: Seq<PinData>, n: Seq<char>, k: int) -> Option<int>
    decreases pins.len() - k,
{
    if k < 0 || k >= pins.len() {
        None
    } else if pins[k].number@ == n {
        Some(k)
    } else {
        pin_numbered(pins, n, k + 1)
    }
}

/// Where pin `pin` of a placed symbol attaches on the grid, when its library pin is
/// found and both angles are whole numbers of degrees that are quarter turns.
pub open spec fn exact_pin_position(libs: Seq<LibSymbolData>, sym: SymbolData, pin: Seq<char>) -> Option<GridPoint> {
    match lib_index(libs, sym.lib_id@, 0) {
        Some(li) => match lib_pin_index(libs[li].pins@, pin, 0) {
            Some(pi) => {
                let p = libs[li].pins@[pi];
                match (whole_degrees(p.angle), whole_degrees(sym.angle)) {
                    (Some(pa), Some(sa)) => match placed_point(
                        LibPinGeometry { x: grid_value(p.x), y: grid_value(p.y), angle: pa, length: grid_value(p.length) },
                        Placement { x: grid_value(sym.x), y: grid_value(sym.y), angle: sa, mirror: mirror_of(sym.mirror) },
                    ) {
                        Some((g, _)) => Some(g),
                        None => None,
                    },
                    _ => None,
                }
            },
            None => None,
        },
        None => None,
    }
}

/// The name of pin number `n`: its library pin's, else the number itself.
pub open spec fn pin_name_of(libs: Seq<LibSymbolData>, sym: SymbolData, n: Seq<char>) -> Seq<char> {
    match lib_index(libs, sym.lib_id@, 0) {
        Some(li) => match pin_numbered(libs[li].pins@, n, 0) {
            Some(pi) => libs[li].pins@[pi].name@,
            None => n,
        },
        None => n,
    }
}

/// A placed symbol's reference: its first `Reference` property, else `?`.
pub open spec fn reference_of(sym: SymbolData) -> Seq<char> {
    match prop_value(pair_views(sym.properties@), "Reference"@, 0) {
        Some(r) => r,
        None => "?"@,
    }
}

pub open spec fn value_of(sym: SymbolData) -> Seq<char> {
    text_or_empty(prop_value(pair_views(sym.properties@), "Value"@, 0))
}

/// A placed symbol's pins as the outline reads them: each listed number, its name, and
/// its exact position on the grid when there is one.
pub open spec fn symbol_pins_match(sp: SymbolPins, libs: Seq<LibSymbolData>, sym: SymbolData) -> bool {
    &&& sp.reference@ == reference_of(sym)
    &&& sp.value@ == value_of(sym)
    &&& sp.pins@.len() == sym.pins@.len()
    &&& forall|k: int|
        0 <= k < sym.pins@.len() ==> {
            let e = #[trigger] sp.pins@[k];
            &&& e.0@ == sym.pins@[k]@
            &&& e.1@ == pin_name_of(libs, sym, sym.pins@[k]@)
            &&& e.2 == exact_pin_position(libs, sym, sym.pins@[k]@)
        }
}

/// Labels by their text and grid position, in order.
pub open spec fn label_points_match(ps: Seq<(String, GridPoint)>, ls: Seq<LabelData>) -> bool {
    &&& ps.len() == ls.len()
    &&& forall|k: int| 0 <= k < ls.len() ==> (#[trigger] ps[k]).0@ == ls[k].text@ && ps[k].1 == grid_point(ls[k].x, ls[k].y)
}

/// The connection points of a schematic on the grid, item by item.
pub open spec fn points_match(p: SchematicPoints, d: SchematicData) -> bool {
    &&& p.symbols@.len() == d.symbols@.len()
    &&& forall|k: int| 0 <= k < d.symbols@.len() ==> symbol_pins_match(#[trigger] p.symbols@[k], d.lib_symbols@, d.symbols@[k])
    &&& p.wires@.len() == d.wires@.len()
    &&& forall|k: int|
        0 <= k < d.wires@.len() ==> (#[trigger] p.wires@[k])@ == d.wires@[k]@.map_values(
            |q: (Decimal, Decimal)| grid_point(q.0, q.1),
        )
    &&& p.junctions@ == d.junctions@.map_values(|q: (Decimal, Decimal)| grid_point(q.0, q.1))
    &&& label_points_match(p.labels@, d.labels@)
    &&& label_points_match(p.global_labels@, d.global_labels@)
    &&& label_points_match(p.hierarchical_labels@, d.hierarchical_labels@)
    &&& p.sheets@.len() == d.sheets@.len()
    &&& forall|k: int|
        0 <= k < d.sheets@.len() ==> (#[trigger] p.sheets@[k]).sheet_name@ == d.sheets@[k].name@
            && label_points_match(p.sheets@[k].pins@, d.sheets@[k].pins@)
}

pub(crate) fn lib_index_exec(libs: &Vec<LibSymbolData>, lib_id: &str) -> (r: Option<usize>)
    ensures
        match lib_index(libs@, lib_id@, 0) {
            Some(i) => r matches Some(k) && k == i && i < libs@.len(),
            None => r is None,
        },
{
    let mut k: usize = 0;
    while k < libs.len()
        invariant
            k <= libs@.len(),
            lib_index(libs@, lib_id@, 0) == lib_index(libs@, lib_id@, k as int),
        decreases libs@.len() - k,
    {
        if str_eq(libs[k].name.as_str(), lib_id) {
            return Some(k);
        }
        k = k + 1;
    }
    None
}

fn lib_pin_index_exec(pins: &Vec<PinData>, key: &str) -> (r: Option<usize>)
    ensures
        match lib_pin_index(pins@, key@, 0) {
            Some(i) => r matches Some(k) && k == i && i < pins@.len(),
            None => r is None,
        },
{
    let mut k: usize = 0;
    while k < pins.len()
        invariant
            k <= pins@.len(),
            lib_pin_index(pins@, key@, 0) == lib_pin_index(pins@, key@, k as int),
        decreases pins@.len() - k,
    {
        if str_eq(pins[k].number.as_str(), key) || str_eq(pins[k].name.as_str(), key) {
            return Some(k);
        }
        k = k + 1;
    }
    None
}

fn pin_numbered_exec(pins: &Vec<PinData>, n: &str) -> (r: Option<usize>)
    ensures
        match pin_numbered(pins@, n@, 0) {
            Some(i) => r matches Some(k) && k == i && i < pins@.len(),
            None => r is None,
        },
{
    let mut k: usize = 0;
    while k < pins.len()
        invariant
            k <= pins@.len(),
            pin_numbered(pins@, n@, 0) == pin_numbered(pins@, n@, k as int),
        decreases pins@.len() - k,
    {
        if str_eq(pins[k].number.as_str(), n) {
            return Some(k);
        }
        k = k + 1;
    }
    None
}

pub(crate) fn whole_degrees_exec(d: Decimal) -> (r: Option<i32>)
    ensures
        r == whole_degrees(d),
{
    if d.scale == 0 && i32::MIN as i64 <= d.mantissa && d.mantissa <= i32::MAX as i64 {
        Some(d.mantissa as i32)
    } else {
        None
    }
}

pub(crate) fn mirror_exec(m: &Option<String>) -> (r: Option<Mirror>)
    ensures
        r == mirror_of(*m),
{
    match m {
        Some(s) => Mirror::from_str(s.as_str()),
        None => None,
    }
}

/// Where pin `pin` of a placed symbol attaches on the grid, as `exact_pin_position`.
pub fn exact_pin_position_exec(libs: &Vec<LibSymbolData>, sym: &SymbolData, pin: &str) -> (r: Option<GridPoint>)
    ensures
        r == exact_pin_position(libs@, *sym, pin@),
{
    let li = match lib_index_exec(libs, sym.lib_id.as_str()) {
        Some(i) => i,
        None => {
            return None;
        },
    };
    let pi = match lib_pin_index_exec(&libs[li].pins, pin) {
        Some(i) => i,
        None => {
            return None;
        },
    };
    let p = &libs[li].pins[pi];
    let pa = match whole_degrees_exec(p.angle) {
        Some(a) => a,
        None => {
            return None;
        },
    };
    let sa = match whole_degrees_exec(sym.angle) {
        Some(a) => a,
        None => {
            return None;
        },
    };
    let geometry = LibPinGeometry {
        x: grid_value_exec(p.x),
        y: grid_value_exec(p.y),
        angle: pa,
        length: grid_value_exec(p.length),
    };
    let placement = Placement {
        x: grid_value_exec(sym.x),
        y: grid_value_exec(sym.y),
        angle: sa,
        mirror: mirror_exec(&sym.mirror),
    };
    match pin_position(geometry, placement) {
        Some((g, _)) => Some(g),
        None => None,
    }
}

pub(crate) fn prop_exec(ps: &Vec<(String, String)>, name: &str) -> (r: Option<String>)
    ensures
        match prop_value(pair_views(ps@), name@, 0) {
            Some(v) => r matches Some(t) && t@ == v,
            None => r is None,
        },
{
    let ghost pv = pair_views(ps@);
    let mut k: usize = 0;
    while k < ps.len()
        invariant
            k <= ps@.len(),
            pv == pair_views(ps@),
            prop_value(pv, name@, 0) == prop_value(pv, name@, k as int),
        decreases ps@.len() - k,
    {
        if str_eq(ps[k].0.as_str(), name) {
            return Some(ps[k].1.clone());
        }
        k = k + 1;
    }
    None
}

fn pin_name_exec(libs: &Vec<LibSymbolData>, sym: &SymbolData, n: &String) -> (r: String)
    ensures
        r@ == pin_name_of(libs@, *sym, n@),
{
    match lib_index_exec(libs, sym.lib_id.as_str()) {
        Some(li) => match pin_numbered_exec(&libs[li].pins, n.as_str()) {
            Some(pi) => libs[li].pins[pi].name.clone(),
            None => n.clone(),
        },
        None => n.clone(),
    }
}

fn symbol_pins_exec(libs: &Vec<LibSymbolData>, sym: &SymbolData) -> (r: SymbolPins)
    ensures
        symbol_pins_match(r, libs@, *sym),
{
    let reference = match prop_exec(&sym.properties, "Reference") {
        Some(r) => r,
        None => String::from_str("?"),
    };
    let value = match prop_exec(&sym.properties, "Value") {
        Some(v) => v,
        None => String::new(),
    };
    let mut pins: Vec<(String, String, Option<GridPoint>)> = Vec::new();
    let mut k: usize = 0;
    while k < sym.pins.len()
        invariant
            k <= sym.pins@.len(),
            pins@.len() == k,
            forall|j: int|
                0 <= j < k ==> {
                    let e = #[trigger] pins@[j];
                    &&& e.0@ == sym.pins@[j]@
                    &&& e.1@ == pin_name_of(libs@, *sym, sym.pins@[j]@)
                    &&& e.2 == exact_pin_position(libs@, *sym, sym.pins@[j]@)
                },
        decreases sym.pins@.len() - k,
    {
        let n = &sym.pins[k];
        let name = pin_name_exec(libs, sym, n);
        let pos = exact_pin_position_exec(libs, sym, n.as_str());
        pins.push((n.clone(), name, pos));
        k = k + 1;
    }
    SymbolPins { reference, value, pins }
}

fn label_points_exec(ls: &Vec<LabelData>) -> (r: Vec<(String, GridPoint)>)
    ensures
        label_points_match(r@, ls@),
{
    let mut out: Vec<(String, GridPoint)> = Vec::new();
    let mut k: usize = 0;
    while k < ls.len()
        invariant
            k <= ls@.len(),
            out@.len() == k,
            forall|j: int| 0 <= j < k ==> (#[trigger] out@[j]).0@ == ls@[j].text@ && out@[j].1 == grid_point(ls@[j].x, ls@[j].y),
        decreases ls@.len() - k,
    {
        out.push((ls[k].text.clone(), grid_point_exec(ls[k].x, ls[k].y)));
        k = k + 1;
    }
    out
}

pub(crate) fn grid_points_exec(v: &Vec<(Decimal, Decimal)>) -> (r: Vec<GridPoint>)
    ensures
        r@ == v@.map_values(|q: (Decimal, Decimal)| grid_point(q.0, q.1)),
{
    let mut out: Vec<GridPoint> = Vec::new();
    let mut k: usize = 0;
    while k < v.len()
        invariant
            k <= v@.len(),
            out@ == v@.take(k as int).map_values(|q: (Decimal, Decimal)| grid_point(q.0, q.1)),
        decreases v@.len() - k,
    {
        out.push(grid_point_exec(v[k].0, v[k].1));
        assert(v@.take(k + 1) == v@.take(k as int).push(v@[k as int]));
        k = k + 1;
    }
    assert(v@.take(v@.len() as int) == v@);
    out
}

impl SchematicData {
    /// The things that make connections, placed on the grid as `points_match` states;
    /// a pin whose position needs a rotation other than quarter turns has none here.
    pub fn connection_points(&self) -> (r: SchematicPoints)
        ensures
            points_match(r, *self),
    {
        let mut symbols: Vec<SymbolPins> = Vec::new();
        let mut k: usize = 0;
        while k < self.symbols.len()
            invariant
                k <= self.symbols@.len(),
                symbols@.len() == k,
                forall|j: int|
                    0 <= j < k ==> symbol_pins_match(#[trigger] symbols@[j], self.lib_symbols@, self.symbols@[j]),
            decreases self.symbols@.len() - k,
        {
            symbols.push(symbol_pins_exec(&self.lib_symbols, &self.symbols[k]));
            k = k + 1;
        }
        let mut wires: Vec<Vec<GridPoint>> = Vec::new();
        let mut k: usize = 0;
        while k < self.wires.len()
            invariant
                k <= self.wires@.len(),
                wires@.len() == k,
                forall|j: int|
                    0 <= j < k ==> (#[trigger] wires@[j])@ == self.wires@[j]@.map_values(
                        |q: (Decimal, Decimal)| grid_point(q.0, q.1),
                    ),
            decreases self.wires@.len() - k,
        {
            wires.push(grid_points_exec(&self.wires[k]));
            k = k + 1;
        }
        let mut sheets: Vec<SheetPins> = Vec::new();
        let mut k: usize = 0;
        while k < self.sheets.len()
            invariant
                k <= self.sheets@.len(),
                sheets@.len() == k,
                forall|j: int|
                    0 <= j < k ==> (#[trigger] sheets@[j]).sheet_name@ == self.sheets@[j].name@
                        && label_points_match(sheets@[j].pins@, self.sheets@[j].pins@),
            decreases self.sheets@.len() - k,
        {
            sheets.push(
                SheetPins { sheet_name: self.sheets[k].name.clone(), pins: label_points_exec(&self.sheets[k].pins) },
            );
            k = k + 1;
        }
        SchematicPoints {
            symbols,
            wires,
            junctions: grid_points_exec(&self.junctions),
            labels: label_points_exec(&self.labels),
            global_labels: label_points_exec(&self.global_labels),
            hierarchical_labels: label_points_exec(&self.hierarchical_labels),
            sheets,
        }
    }
}

/// A power symbol: one whose reference starts with `#`.
pub open spec fn is_power_symbol(sym: SymbolData) -> bool {
    "#"@.is_prefix_of(reference_of(sym))
}

/// The placed symbols that are not power symbols, in order.
pub open spec fn parts(syms: Seq<SymbolData>) -> Seq<SymbolData>
    decreases syms.len(),
{
    if syms.len() == 0 {
        Seq::empty()
    } else {
        parts(syms.drop_last()) + if is_power_symbol(syms.last()) {
            Seq::empty()
        } else {
            seq![syms.last()]
        }
    }
}

/// The number and name of each pin of a placed symbol's library symbol, if it has one.
pub open spec fn lib_pairs(libs: Seq<LibSymbolData>, sym: SymbolData) -> Option<Seq<(Seq<char>, Seq<char>)>> {
    match lib_index(libs, sym.lib_id@, 0) {
        Some(li) => Some(libs[li].pins@.map_values(|p: PinData| (p.number@, p.name@))),
        None => None,
    }
}

/// A component of the semantic outline read from a placed symbol: its kind, reference,
/// library symbol, value, pins (`component_pins`) and description (when not empty).
pub open spec fn component_matches(c: ComponentData, libs: Seq<LibSymbolData>, sym: SymbolData) -> bool {
    &&& c.component_type == classify_lib_id(sym.lib_id@)
    &&& c.reference@ == reference_of(sym)
    &&& c.lib_id@ == sym.lib_id@
    &&& c.value@ == value_of(sym)
    &&& match lib_pairs(libs, sym) {
        Some(lp) => string_views(c.pins@) == dedup_adjacent(sort_by(pin_labels(lp), text_order()))
            && pair_views(c.pin_num_to_name@) == number_labels(lp),
        None => string_views(c.pins@) == string_views(sym.pins@) && pair_views(c.pin_num_to_name@)
            == string_views(sym.pins@).map_values(|n: Seq<char>| (n, n)),
    }
    &&& opt_view(c.description) == match prop_value(pair_views(sym.properties@), "Description"@, 0) {
        Some(d) => if d.len() > 0 {
            Some(d)
        } else {
            None
        },
        None => None,
    }
}

/// The placed symbols that have a `Reference` property, each with its reference and
/// listed pins.
pub open spec fn netlist_parts(syms: Seq<SymbolData>) -> Seq<(Seq<char>, Seq<Seq<char>>)>
    decreases syms.len(),
{
    if syms.len() == 0 {
        Seq::empty()
    } else {
        let s = syms.last();
        netlist_parts(syms.drop_last()) + match prop_value(pair_views(s.properties@), "Reference"@, 0) {
            Some(r) => seq![(r, string_views(s.pins@))],
            None => Seq::empty(),
        }
    }
}

fn lib_pairs_exec(pins: &Vec<PinData>) -> (r: Vec<(String, String)>)
    ensures
        pair_views(r@) == pins@.map_values(|p: PinData| (p.number@, p.name@)),
{
    let mut out: Vec<(String, String)> = Vec::new();
    let mut k: usize = 0;
    while k < pins.len()
        invariant
            k <= pins@.len(),
            pair_views(out@) == pins@.take(k as int).map_values(|p: PinData| (p.number@, p.name@)),
        decreases pins@.len() - k,
    {
        let ghost before = out@;
        out.push((pins[k].number.clone(), pins[k].name.clone()));
        assert(pair_views(out@) =~= pair_views(before).push((pins@[k as int].number@, pins@[k as int].name@)));
        assert(pins@.take(k + 1) == pins@.take(k as int).push(pins@[k as int]));
        k = k + 1;
    }
    assert(pins@.take(pins@.len() as int) == pins@);
    out
}

fn component_exec(libs: &Vec<LibSymbolData>, sym: &SymbolData, reference: String) -> (r: ComponentData)
    requires
        reference@ == reference_of(*sym),
    ensures
        component_matches(r, libs@, *sym),
{
    let (pins, pin_num_to_name) = match lib_index_exec(libs, sym.lib_id.as_str()) {
        Some(li) => {
            let lp = lib_pairs_exec(&libs[li].pins);
            component_pins(Some(&lp), &sym.pins)
        },
        None => component_pins(None, &sym.pins),
    };
    let value = match prop_exec(&sym.properties, "Value") {
        Some(v) => v,
        None => String::new(),
    };
    let description = match prop_exec(&sym.properties, "Description") {
        Some(d) => if d.as_str().is_empty() {
            None
        } else {
            Some(d)
        },
        None => None,
    };
    ComponentData {
        component_type: ComponentType::classify(reference.as_str(), sym.lib_id.as_str()),
        reference,
        lib_id: sym.lib_id.clone(),
        value,
        pins,
        pin_num_to_name,
        description,
    }
}

pub(crate) fn starts_with_hash(s: &String) -> (r: bool)
    ensures
        r == "#"@.is_prefix_of(s@),
{
    let v = crate::text::chars_of(s.as_str());
    proof {
        reveal_strlit("#");
    }
    if v.len() == 0 {
        return false;
    }
    let c = v[0];
    proof {
        if c == '#' {
            assert(s@.subrange(0, 1) =~= "#"@);
        } else {
            assert(s@[0] != "#"@[0]);
        }
    }
    c == '#'
}

impl SchematicData {
    /// The components of the semantic outline: the placed symbols other than power
    /// symbols, in order, as `component_matches` reads each.
    pub fn component_data(&self) -> (r: Vec<ComponentData>)
        ensures
            r@.len() == parts(self.symbols@).len(),
            forall|k: int|
                0 <= k < r@.len() ==> component_matches(#[trigger] r@[k], self.lib_symbols@, parts(self.symbols@)[k]),
    {
        let mut out: Vec<ComponentData> = Vec::new();
        let mut k: usize = 0;
        while k < self.symbols.len()
            invariant
                k <= self.symbols@.len(),
                out@.len() == parts(self.symbols@.take(k as int)).len(),
                forall|j: int|
                    0 <= j < out@.len() ==> component_matches(
                        #[trigger] out@[j],
                        self.lib_symbols@,
                        parts(self.symbols@.take(k as int))[j],
                    ),
            decreases self.symbols@.len() - k,
        {
            let ghost done = self.symbols@.take(k as int);
            assert(self.symbols@.take(k + 1).drop_last() == done);
            assert(self.symbols@.take(k + 1).last() == self.symbols@[k as int]);
            let sym = &self.symbols[k];
            let reference = match prop_exec(&sym.properties, "Reference") {
                Some(r) => r,
                None => String::from_str("?"),
            };
            if !starts_with_hash(&reference) {
                let c = component_exec(&self.lib_symbols, sym, reference);
                out.push(c);
            }
            proof {
                let now = parts(self.symbols@.take(k + 1));
                assert forall|j: int| 0 <= j < out@.len() implies component_matches(
                    #[trigger] out@[j],
                    self.lib_symbols@,
                    now[j],
                ) by {
                    if j < parts(done).len() {
                        assert(now[j] == parts(done)[j]);
                    }
                }
            }
            k = k + 1;
        }
        assert(self.symbols@.take(self.symbols@.len() as int) == self.symbols@);
        out
    }

    /// The placed symbols with a reference, each with its listed pin numbers, for the
    /// netlist.
    pub fn netlist_components(&self) -> (r: Vec<(String, Vec<String>)>)
        ensures
            r@.map_values(|c: (String, Vec<String>)| (c.0@, string_views(c.1@))) == netlist_parts(self.symbols@),
    {
        let mut out: Vec<(String, Vec<String>)> = Vec::new();
        let mut k: usize = 0;
        while k < self.symbols.len()
            invariant
                k <= self.symbols@.len(),
                out@.map_values(|c: (String, Vec<String>)| (c.0@, string_views(c.1@))) == netlist_parts(
                    self.symbols@.take(k as int),
                ),
            decreases self.symbols@.len() - k,
        {
            assert(self.symbols@.take(k + 1).drop_last() == self.symbols@.take(k as int));
            assert(self.symbols@.take(k + 1).last() == self.symbols@[k as int]);
            let ghost before = out@;
            match prop_exec(&self.symbols[k].properties, "Reference") {
                Some(r) => {
                    let pins = self.symbols[k].pins.clone();
                    assert(string_views(pins@) == string_views(self.symbols@[k as int].pins@));
                    out.push((r, pins));
                    assert(out@.map_values(|c: (String, Vec<String>)| (c.0@, string_views(c.1@))) =~= before.map_values(
                        |c: (String, Vec<String>)| (c.0@, string_views(c.1@)),
                    ).push((out@.last().0@, string_views(out@.last().1@))));
                },
                None => {},
            }
            k = k + 1;
        }
        assert(self.symbols@.take(self.symbols@.len() as int) == self.symbols@);
        out
    }

    /// The sheets of the semantic outline: name, file and pin names.
    pub fn semantic_sheets(&self) -> (r: Vec<SemanticSheet>)
        ensures
            r@.len() == self.sheets@.len(),
            forall|k: int|
                0 <= k < r@.len() ==> {
                    let s = #[trigger] r@[k];
                    &&& s.name@ == self.sheets@[k].name@
                    &&& s.file@ == self.sheets@[k].file@
                    &&& string_views(s.pins@) == self.sheets@[k].pins@.map_values(|p: LabelData| p.text@)
                },
    {
        let mut out: Vec<SemanticSheet> = Vec::new();
        let mut k: usize = 0;
        while k < self.sheets.len()
            invariant
                k <= self.sheets@.len(),
                out@.len() == k,
                forall|j: int|
                    0 <= j < k ==> {
                        let s = #[trigger] out@[j];
                        &&& s.name@ == self.sheets@[j].name@
                        &&& s.file@ == self.sheets@[j].file@
                        &&& string_views(s.pins@) == self.sheets@[j].pins@.map_values(|p: LabelData| p.text@)
                    },
            decreases self.sheets@.len() - k,
        {
            let sh = &self.sheets[k];
            let mut pins: Vec<String> = Vec::new();
            let mut j: usize = 0;
            while j < sh.pins.len()
                invariant
                    j <= sh.pins@.len(),
                    string_views(pins@) == sh.pins@.take(j as int).map_values(|p: LabelData| p.text@),
                decreases sh.pins@.len() - j,
            {
                let ghost before = pins@;
                pins.push(sh.pins[j].text.clone());
                assert(string_views(pins@) =~= string_views(before).push(sh.pins@[j as int].text@));
                assert(sh.pins@.take(j + 1) == sh.pins@.take(j as int).push(sh.pins@[j as int]));
                j = j + 1;
            }
            assert(sh.pins@.take(sh.pins@.len() as int) == sh.pins@);
            out.push(SemanticSheet { name: sh.name.clone(), file: sh.file.clone(), pins });
            k = k + 1;
        }
        out
    }
}

} // verus!
