//! The editable view of a schematic read from its file: placed components with the
//! pins of their embedded library symbols on the grid, wires, junctions and labels.
use vstd::prelude::*;
use crate::component_edit::{PlacedComponent, PlacedPin, SchematicItems};
use crate::label_edit::PlacedLabel;
use crate::outline_nets::GridPoint;
use crate::pin_geometry::{pin_position, LibPinGeometry, Placement};
use crate::place::{pin_views, placed_point};
use crate::schematic::LabelShape;
use crate::semantic_components::{pair_views, string_views};
use crate::semantic_text::copy_strings;
use crate::sheet_points::{
    grid_point, grid_point_exec, grid_points_exec, grid_value, grid_value_exec, lib_index, lib_index_exec, mirror_exec,
    mirror_of, whole_degrees, whole_degrees_exec,
};
use crate::sheet_reader::{LabelData, LibSymbolData, PinData, SchematicData, SymbolData};
use crate::sexpr::Decimal;

verus! {

/// A library pin on the symbol's grid, when its direction is a whole number of degrees.
pub open spec fn pin_geometry_of(p: PinData) -> Option<LibPinGeometry> {
    match whole_degrees(p.angle) {
        Some(a) => Some(LibPinGeometry { x: grid_value(p.x), y: grid_value(p.y), angle: a, length: grid_value(p.length) }),
        None => None,
    }
}

/// Where a symbol sits on the grid, when its rotation is a whole number of degrees.
pub open spec fn placement_of(s: SymbolData) -> Option<Placement> {
    match whole_degrees(s.angle) {
        Some(a) => Some(Placement { x: grid_value(s.x), y: grid_value(s.y), angle: a, mirror: mirror_of(s.mirror) }),
        None => None,
    }
}

/// Where a library pin attaches when its symbol is placed as `s`, and its direction.
pub open spec fn pin_on_sheet(p: PinData, s: SymbolData) -> Option<(GridPoint, int)> {
    match (pin_geometry_of(p), placement_of(s)) {
        (Some(g), Some(pl)) => placed_point(g, pl),
        _ => None,
    }
}

/// The library pins that have a place on the sheet, in order, by number, name, point and
/// direction.
pub open spec fn pins_on_sheet(pins: Seq<PinData>, s: SymbolData) -> Seq<(Seq<char>, Seq<char>, GridPoint, int)>
    decreases pins.len(),
{
    if pins.len() == 0 {
        Seq::empty()
    } else {
        let p = pins.last();
        pins_on_sheet(pins.drop_last(), s) + match pin_on_sheet(p, s) {
            Some((g, a)) => seq![(p.number@, p.name@, g, a)],
            None => Seq::empty(),
        }
    }
}

/// The pins of the library symbol a placed symbol names; none when it is not embedded.
pub open spec fn lib_pins_of(libs: Seq<LibSymbolData>, s: SymbolData) -> Seq<PinData> {
    match lib_index(libs, s.lib_id@, 0) {
        Some(i) => libs[i].pins@,
        None => Seq::empty(),
    }
}

/// A placed component as read from a placed symbol.
pub open spec fn component_from(c: PlacedComponent, libs: Seq<LibSymbolData>, s: SymbolData) -> bool {
    &&& pair_views(c.properties@) == pair_views(s.properties@)
    &&& c.lib_id@ == s.lib_id@
    &&& pin_views(c.pins@) == pins_on_sheet(lib_pins_of(libs, s), s)
    &&& string_views(c.instance_pins@) == string_views(s.pins@)
}

/// A label's direction in whole degrees; one that is not whole counts as 0.
pub open spec fn label_angle(d: LabelData) -> i32 {
    match whole_degrees(d.angle) {
        Some(a) => a,
        None => 0,
    }
}

pub open spec fn label_shape_of(shape: Option<String>) -> Option<LabelShape> {
    match shape {
        Some(t) => Some(LabelShape::from_keyword(t@)),
        None => None,
    }
}

/// A placed label as read from a label item.
pub open spec fn label_from(l: PlacedLabel, d: LabelData) -> bool {
    &&& l.text@ == d.text@
    &&& l.position == grid_point(d.x, d.y)
    &&& l.angle == label_angle(d)
    &&& l.shape == label_shape_of(d.shape)
}

pub open spec fn labels_from(ls: Seq<PlacedLabel>, ds: Seq<LabelData>) -> bool {
    &&& ls.len() == ds.len()
    &&& forall|k: int| 0 <= k < ds.len() ==> label_from(#[trigger] ls[k], ds[k])
}

/// The editable items of a schematic, kind by kind, each in the file's order.
pub open spec fn items_match(r: SchematicItems, d: SchematicData) -> bool {
    &&& string_views(r.lib_symbols@) == d.lib_symbols@.map_values(|l: LibSymbolData| l.name@)
    &&& r.components@.len() == d.symbols@.len()
    &&& forall|k: int|
        0 <= k < d.symbols@.len() ==> component_from(#[trigger] r.components@[k], d.lib_symbols@, d.symbols@[k])
    &&& r.wires@.len() == d.wires@.len()
    &&& forall|k: int|
        0 <= k < d.wires@.len() ==> (#[trigger] r.wires@[k])@ == d.wires@[k]@.map_values(
            |q: (Decimal, Decimal)| grid_point(q.0, q.1),
        )
    &&& r.junctions@ == d.junctions@.map_values(|q: (Decimal, Decimal)| grid_point(q.0, q.1))
    &&& labels_from(r.labels@, d.labels@)
    &&& labels_from(r.global_labels@, d.global_labels@)
}

fn pin_on_sheet_exec(p: &PinData, s: &SymbolData) -> (r: Option<(GridPoint, i32)>)
    ensures
        match pin_on_sheet(*p, *s) {
            Some((g, a)) => r matches Some((rg, ra)) && rg == g && ra == a,
            None => r is None,
        },
{
    let pa = match whole_degrees_exec(p.angle) {
        Some(a) => a,
        None => {
            return None;
        },
    };
    let sa = match whole_degrees_exec(s.angle) {
        Some(a) => a,
        None => {
            return None;
        },
    };
    let geometry = LibPinGeometry {
        x: grid_value_exec(p.x),
        y: grid_value_exec(p.y),
        angle: pa,
        length: grid_value_exec(p.length),
    };
    let placement = Placement {
        x: grid_value_exec(s.x),
        y: grid_value_exec(s.y),
        angle: sa,
        mirror: mirror_exec(&s.mirror),
    };
    pin_position(geometry, placement)
}

fn pins_on_sheet_exec(pins: &Vec<PinData>, s: &SymbolData) -> (r: Vec<PlacedPin>)
    ensures
        pin_views(r@) == pins_on_sheet(pins@, *s),
{
    let mut out: Vec<PlacedPin> = Vec::new();
    let mut k: usize = 0;
    while k < pins.len()
        invariant
            k <= pins@.len(),
            pin_views(out@) == pins_on_sheet(pins@.take(k as int), *s),
        decreases pins@.len() - k,
    {
        let ghost before = out@;
        assert(pins@.take(k + 1).drop_last() == pins@.take(k as int));
        match pin_on_sheet_exec(&pins[k], s) {
            Some((g, a)) => {
                out.push(PlacedPin { number: pins[k].number.clone(), name: pins[k].name.clone(), position: g, angle: a });
                assert(pin_views(out@) =~= pin_views(before).push(pin_views(out@).last()));
            },
            None => {},
        }
        k = k + 1;
    }
    assert(pins@.take(pins@.len() as int) == pins@);
    out
}

fn copy_pairs(v: &Vec<(String, String)>) -> (r: Vec<(String, String)>)
    ensures
        pair_views(r@) == pair_views(v@),
{
    let mut out: Vec<(String, String)> = Vec::new();
    let mut k: usize = 0;
    while k < v.len()
        invariant
            k <= v@.len(),
            pair_views(out@) == pair_views(v@).take(k as int),
        decreases v@.len() - k,
    {
        let p = (v[k].0.clone(), v[k].1.clone());
        let ghost before = out@;
        out.push(p);
        assert(pair_views(out@) =~= pair_views(before).push(pair_views(v@)[k as int]));
        assert(pair_views(v@).take(k + 1) =~= pair_views(v@).take(k as int).push(pair_views(v@)[k as int]));
        k = k + 1;
    }
    assert(pair_views(v@).take(v@.len() as int) =~= pair_views(v@));
    out
}

fn component_exec(libs: &Vec<LibSymbolData>, s: &SymbolData) -> (r: PlacedComponent)
    ensures
        component_from(r, libs@, *s),
{
    let pins = match lib_index_exec(libs, s.lib_id.as_str()) {
        Some(i) => pins_on_sheet_exec(&libs[i].pins, s),
        None => {
            let v: Vec<PlacedPin> = Vec::new();
            assert(pin_views(v@) =~= Seq::empty());
            v
        },
    };
    PlacedComponent {
        properties: copy_pairs(&s.properties),
        lib_id: s.lib_id.clone(),
        pins,
        instance_pins: copy_strings(&s.pins),
    }
}

pub(crate) fn label_exec(d: &LabelData) -> (r: PlacedLabel)
    ensures
        label_from(r, *d),
{
    let angle = match whole_degrees_exec(d.angle) {
        Some(a) => a,
        None => 0,
    };
    let shape = match &d.shape {
        Some(t) => Some(LabelShape::from_str(t.as_str())),
        None => None,
    };
    PlacedLabel { text: d.text.clone(), position: grid_point_exec(d.x, d.y), angle, shape }
}

fn labels_exec(ds: &Vec<LabelData>) -> (r: Vec<PlacedLabel>)
    ensures
        labels_from(r@, ds@),
{
    let mut out: Vec<PlacedLabel> = Vec::new();
    let mut k: usize = 0;
    while k < ds.len()
        invariant
            k <= ds@.len(),
            out@.len() == k,
            forall|i: int| 0 <= i < k ==> label_from(#[trigger] out@[i], ds@[i]),
        decreases ds@.len() - k,
    {
        out.push(label_exec(&ds[k]));
        k = k + 1;
    }
    out
}

/// The editable items of a schematic read from its file, as `items_match` states: a
/// pin whose place needs a rotation other than whole degrees, or that falls off the
/// grid, is left out of its component.
pub fn items_from_schematic(d: &SchematicData) -> (r: SchematicItems)
    ensures
        items_match(r, *d),
{
    let mut lib_symbols: Vec<String> = Vec::new();
    let mut k: usize = 0;
    while k < d.lib_symbols.len()
        invariant
            k <= d.lib_symbols@.len(),
            string_views(lib_symbols@) == d.lib_symbols@.take(k as int).map_values(|l: LibSymbolData| l.name@),
        decreases d.lib_symbols@.len() - k,
    {
        let ghost before = lib_symbols@;
        lib_symbols.push(d.lib_symbols[k].name.clone());
        assert(string_views(lib_symbols@) =~= string_views(before).push(d.lib_symbols@[k as int].name@));
        assert(d.lib_symbols@.take(k + 1) == d.lib_symbols@.take(k as int).push(d.lib_symbols@[k as int]));
        k = k + 1;
    }
    assert(d.lib_symbols@.take(d.lib_symbols@.len() as int) == d.lib_symbols@);
    let mut components: Vec<PlacedComponent> = Vec::new();
    let mut k: usize = 0;
    while k < d.symbols.len()
        invariant
            k <= d.symbols@.len(),
            components@.len() == k,
            forall|i: int| 0 <= i < k ==> component_from(#[trigger] components@[i], d.lib_symbols@, d.symbols@[i]),
        decreases d.symbols@.len() - k,
    {
        components.push(component_exec(&d.lib_symbols, &d.symbols[k]));
        k = k + 1;
    }
    let mut wires: Vec<Vec<GridPoint>> = Vec::new();
    let mut k: usize = 0;
    while k < d.wires.len()
        invariant
            k <= d.wires@.len(),
            wires@.len() == k,
            forall|i: int|
                0 <= i < k ==> (#[trigger] wires@[i])@ == d.wires@[i]@.map_values(
                    |q: (Decimal, Decimal)| grid_point(q.0, q.1),
                ),
        decreases d.wires@.len() - k,
    {
        wires.push(grid_points_exec(&d.wires[k]));
        k = k + 1;
    }
    SchematicItems {
        lib_symbols,
        components,
        wires,
        labels: labels_exec(&d.labels),
        global_labels: labels_exec(&d.global_labels),
        junctions: grid_points_exec(&d.junctions),
    }
}

} // verus!
