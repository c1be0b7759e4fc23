//! Placing a library symbol on the schematic: its embedded library symbol, its
//! reference and value, its properties, and where its pins attach.
use vstd::prelude::*;
use crate::component_edit::{PlacedComponent, PlacedPin, SchematicItems};
use crate::component_update::props_view;
use crate::ordering::sort_by;
use crate::outline_nets::GridPoint;
use crate::pin_geometry::{pin_position, pin_tip, pin_world_angle, LibPinGeometry, Placement};
use crate::references::{chosen_reference, max_ref_number, numbering_prefix, opt_str};
use crate::semantic_components::{dedup_adjacent, string_views, text_order};
use crate::symbol_instance::{
    fields_fit, instance_properties_spec, plan_symbol_instance, property_views, reference_prefix,
    reference_prefix_exec, PlacedProperty,
};
use crate::commands::CommandError;
use crate::text::str_eq;
use crate::wire_edit::{snap_spec, snap_to_grid};

verus! {

/// A pin of a library symbol: its number, its name and its geometry.
#[derive(Debug, Clone)]
pub struct LibPin {
    pub number: String,
    pub name: String,
    pub geometry: LibPinGeometry,
}

/// A library symbol as placing reads it: its name, its properties, and the pins of all
/// its units in order.
#[derive(Debug, Clone)]
pub struct LibSymbol {
    pub name: String,
    pub properties: Vec<PlacedProperty>,
    pub pins: Vec<LibPin>,
}

/// The values of the `Reference` properties, in order.
pub open spec fn references_in(ps: Seq<(String, String)>) -> Seq<Seq<char>>
    decreases ps.len(),
{
    if ps.len() == 0 {
        Seq::empty()
    } else {
        references_in(ps.drop_last()) + if ps.last().0@ == "Reference"@ {
            seq![ps.last().1@]
        } else {
            Seq::empty()
        }
    }
}

/// The references of all components, in order.
pub open spec fn all_references(cs: Seq<PlacedComponent>) -> Seq<Seq<char>>
    decreases cs.len(),
{
    if cs.len() == 0 {
        Seq::empty()
    } else {
        all_references(cs.drop_last()) + references_in(cs.last().properties@)
    }
}

/// Where a pin attaches when its symbol sits at `s`, and the direction it points; none
/// when an angle is not a whole number of quarter turns or the point falls outside the
/// grid's range.
pub open spec fn placed_point(g: LibPinGeometry, s: Placement) -> Option<(GridPoint, int)> {
    match pin_tip(g, s) {
        Some((x, y)) => if i32::MIN <= x <= i32::MAX && i32::MIN <= y <= i32::MAX {
            Some((GridPoint { x: x as i32, y: y as i32 }, pin_world_angle(g, s)))
        } else {
            None
        },
        None => None,
    }
}

pub open spec fn pin_view(p: PlacedPin) -> (Seq<char>, Seq<char>, GridPoint, int) {
    (p.number@, p.name@, p.position, p.angle as int)
}

pub open spec fn pin_views(ps: Seq<PlacedPin>) -> Seq<(Seq<char>, Seq<char>, GridPoint, int)> {
    ps.map_values(|p: PlacedPin| pin_view(p))
}

/// The pins of a symbol placed at `s`: each library pin whose attachment point is
/// known, in order.
pub open spec fn placed_pins(pins: Seq<LibPin>, s: Placement) -> Seq<(Seq<char>, Seq<char>, GridPoint, int)>
    decreases pins.len(),
{
    if pins.len() == 0 {
        Seq::empty()
    } else {
        let p = pins.last();
        placed_pins(pins.drop_last(), s) + match placed_point(p.geometry, s) {
            Some((g, a)) => seq![(p.number@, p.name@, g, a)],
            None => Seq::empty(),
        }
    }
}

pub open spec fn lib_pin_numbers(pins: Seq<LibPin>) -> Seq<Seq<char>> {
    pins.map_values(|p: LibPin| p.number@)
}

/// The name and value of each property.
pub open spec fn name_values(ps: Seq<(Seq<char>, Seq<char>, Option<GridPoint>)>) -> Seq<(Seq<char>, Seq<char>)> {
    ps.map_values(|p: (Seq<char>, Seq<char>, Option<GridPoint>)| (p.0, p.1))
}

/// Whether the schematic's library symbols already hold `lib_id`.
pub open spec fn has_lib_symbol(names: Seq<String>, lib_id: Seq<char>) -> bool {
    exists|k: int| 0 <= k < names.len() && (#[trigger] names[k])@ == lib_id
}

/// The references that placing can number without overflow: the number after the
/// largest one under the prefix in use fits in a `u32`.
pub open spec fn numbering_fits(cs: Seq<PlacedComponent>, reference: Option<Seq<char>>, symbol: LibSymbol) -> bool {
    numbering_prefix(reference, reference_prefix(symbol.properties@)) matches Some(p) ==> max_ref_number(
        all_references(cs),
        p,
    ) < u32::MAX
}

/// Placing `symbol` as `lib_id` at `at` turned by `angle` takes `s` to `t`: the library
/// symbol is embedded once; a new component comes last, with the reference chosen
/// among the existing ones (`chosen_reference`), the requested value or else the
/// symbol's name, the symbol's properties for that reference and value, the symbol's
/// pins where they attach, and its pin numbers sorted, each once. Nothing else changes.
pub open spec fn symbol_added(
    s: SchematicItems,
    t: SchematicItems,
    symbol: LibSymbol,
    lib_id: Seq<char>,
    at: GridPoint,
    angle: i32,
    reference: Option<Seq<char>>,
    value: Option<Seq<char>>,
) -> bool {
    let c = t.components@.last();
    let v = match value {
        Some(v) => v,
        None => symbol.name@,
    };
    let assigned = chosen_reference(all_references(s.components@), reference, reference_prefix(symbol.properties@));
    &&& if has_lib_symbol(s.lib_symbols@, lib_id) {
        t.lib_symbols@ == s.lib_symbols@
    } else {
        &&& t.lib_symbols@.len() == s.lib_symbols@.len() + 1
        &&& t.lib_symbols@.drop_last() == s.lib_symbols@
        &&& t.lib_symbols@.last()@ == lib_id
    }
    &&& t.components@.len() == s.components@.len() + 1
    &&& t.components@.drop_last() == s.components@
    &&& c.lib_id@ == lib_id
    &&& props_view(c.properties@) == name_values(
        instance_properties_spec(property_views(symbol.properties@), at, assigned, v),
    )
    &&& pin_views(c.pins@) == placed_pins(symbol.pins@, Placement { x: at.x, y: at.y, angle, mirror: None })
    &&& string_views(c.instance_pins@) == dedup_adjacent(sort_by(lib_pin_numbers(symbol.pins@), text_order()))
    &&& t.wires == s.wires
    &&& t.labels == s.labels
    &&& t.global_labels == s.global_labels
    &&& t.junctions == s.junctions
}

fn references_exec(cs: &Vec<PlacedComponent>) -> (r: Vec<String>)
    ensures
        string_views(r@) == all_references(cs@),
{
    let mut out: Vec<String> = Vec::new();
    let mut ci: usize = 0;
    while ci < cs.len()
        invariant
            ci <= cs@.len(),
            string_views(out@) == all_references(cs@.take(ci as int)),
        decreases cs@.len() - ci,
    {
        let ps = &cs[ci].properties;
        let ghost base = string_views(out@);
        assert(cs@.take(ci + 1).drop_last() == cs@.take(ci as int));
        assert(cs@.take(ci + 1).last() == cs@[ci as int]);
        let mut k: usize = 0;
        while k < ps.len()
            invariant
                k <= ps@.len(),
                ps == &cs@[ci as int].properties,
                string_views(out@) == base + references_in(ps@.take(k as int)),
            decreases ps@.len() - k,
        {
            assert(ps@.take(k + 1).drop_last() == ps@.take(k as int));
            assert(ps@.take(k + 1).last() == ps@[k as int]);
            if str_eq(ps[k].0.as_str(), "Reference") {
                let ghost before = out@;
                let v = ps[k].1.clone();
                assert(v@ == ps@[k as int].1@);
                out.push(v);
                assert(string_views(out@) =~= string_views(before).push(ps@[k as int].1@));
            }
            k = k + 1;
        }
        assert(ps@.take(ps@.len() as int) == ps@);
        ci = ci + 1;
    }
    assert(cs@.take(cs@.len() as int) == cs@);
    out
}

fn pin_numbers_exec(pins: &Vec<LibPin>) -> (r: Vec<String>)
    ensures
        string_views(r@) == lib_pin_numbers(pins@),
{
    let mut out: Vec<String> = Vec::new();
    let mut k: usize = 0;
    while k < pins.len()
        invariant
            k <= pins@.len(),
            string_views(out@) == lib_pin_numbers(pins@.take(k as int)),
        decreases pins@.len() - k,
    {
        let ghost before = out@;
        let v = pins[k].number.clone();
        out.push(v);
        assert(pins@.take(k + 1) == pins@.take(k as int).push(pins@[k as int]));
        assert(string_views(out@) =~= string_views(before).push(pins@[k as int].number@));
        assert(lib_pin_numbers(pins@.take(k + 1)) =~= lib_pin_numbers(pins@.take(k as int)).push(
            pins@[k as int].number@,
        ));
        k = k + 1;
    }
    assert(pins@.take(pins@.len() as int) == pins@);
    out
}

fn placed_pins_exec(pins: &Vec<LibPin>, s: Placement) -> (r: Vec<PlacedPin>)
    ensures
        pin_views(r@) == placed_pins(pins@, s),
{
    let mut out: Vec<PlacedPin> = Vec::new();
    let mut k: usize = 0;
    while k < pins.len()
        invariant
            k <= pins@.len(),
            pin_views(out@) == placed_pins(pins@.take(k as int), s),
        decreases pins@.len() - k,
    {
        assert(pins@.take(k + 1).drop_last() == pins@.take(k as int));
        assert(pins@.take(k + 1).last() == pins@[k as int]);
        let p = &pins[k];
        match pin_position(p.geometry, s) {
            Some((g, a)) => {
                let pp = PlacedPin { number: p.number.clone(), name: p.name.clone(), position: g, angle: a };
                out.push(pp);
                assert(pin_views(out@) == pin_views(out@).drop_last().push(pin_view(pp)));
            },
            None => {},
        }
        k = k + 1;
    }
    assert(pins@.take(pins@.len() as int) == pins@);
    out
}

fn name_values_exec(ps: &Vec<PlacedProperty>) -> (r: Vec<(String, String)>)
    ensures
        props_view(r@) == name_values(property_views(ps@)),
{
    let mut out: Vec<(String, String)> = Vec::new();
    let mut k: usize = 0;
    while k < ps.len()
        invariant
            k <= ps@.len(),
            props_view(out@) == name_values(property_views(ps@.take(k as int))),
        decreases ps@.len() - k,
    {
        let ghost before = out@;
        let pair = (ps[k].name.clone(), ps[k].value.clone());
        out.push(pair);
        assert(ps@.take(k + 1) == ps@.take(k as int).push(ps@[k as int]));
        assert(props_view(out@) =~= props_view(before).push((ps@[k as int].name@, ps@[k as int].value@)));
        assert(name_values(property_views(ps@.take(k + 1))) =~= name_values(property_views(ps@.take(k as int))).push(
            (ps@[k as int].name@, ps@[k as int].value@),
        ));
        k = k + 1;
    }
    assert(ps@.take(ps@.len() as int) == ps@);
    out
}

impl SchematicItems {
    /// Place `symbol` as `lib_id` at `at` turned by `angle`, as `symbol_added` states;
    /// returns the reference it got.
    pub fn add_symbol(
        &mut self,
        symbol: &LibSymbol,
        lib_id: &str,
        at: GridPoint,
        angle: i32,
        reference: Option<&str>,
        value: Option<&str>,
    ) -> (r: String)
        requires
            numbering_fits(old(self).components@, opt_str(reference), *symbol),
            fields_fit(symbol.properties@, at),
        ensures
            symbol_added(*old(self), *final(self), *symbol, lib_id@, at, angle, opt_str(reference), opt_str(value)),
            r@ == chosen_reference(
                all_references(old(self).components@),
                opt_str(reference),
                reference_prefix(symbol.properties@),
            ),
    {
        let mut present = false;
        let mut k: usize = 0;
        while k < self.lib_symbols.len()
            invariant
                k <= self.lib_symbols@.len(),
                present == exists|j: int| 0 <= j < k && (#[trigger] self.lib_symbols@[j])@ == lib_id@,
            decreases self.lib_symbols@.len() - k,
        {
            if str_eq(self.lib_symbols[k].as_str(), lib_id) {
                present = true;
            }
            k = k + 1;
        }
        let existing = references_exec(&self.components);
        let numbers = pin_numbers_exec(&symbol.pins);
        let planned = plan_symbol_instance(
            &existing,
            reference,
            value,
            &symbol.name,
            &symbol.properties,
            numbers,
            at,
        );
        let placement = Placement { x: at.x, y: at.y, angle, mirror: None };
        let pins = placed_pins_exec(&symbol.pins, placement);
        let properties = name_values_exec(&planned.properties);
        if !present {
            let ghost names = self.lib_symbols@;
            self.lib_symbols.push(String::from_str(lib_id));
            assert(self.lib_symbols@.drop_last() =~= names);
        }
        let assigned = planned.reference.clone();
        let ghost before = *self;
        self.components.push(
            PlacedComponent {
                properties,
                lib_id: String::from_str(lib_id),
                pins,
                instance_pins: planned.pin_numbers,
            },
        );
        assert(self.components@.drop_last() == before.components@);
        assigned
    }
}

/// Command to place a component in a schematic
#[derive(Debug, Clone)]
pub struct PlaceComponentCommand {
    /// The symbol definition from the library
    pub symbol: LibSymbol,
    /// Library ID in "Library:Symbol" format (e.g., "Device:R")
    pub lib_id: String,
    /// Position to place the symbol (will be snapped to grid)
    pub position: GridPoint,
    /// Rotation in degrees
    pub angle: i32,
    /// Optional reference designator (e.g., "R1"). If None, uses symbol's default
    pub reference: Option<String>,
    /// Optional component value. If None, uses symbol name
    pub value: Option<String>,
}

/// Result of placing a component
#[derive(Debug, Clone)]
pub struct PlaceComponentResult {
    /// The reference asked for: the requested one, else the symbol's prefix with `?`
    pub reference: String,
    /// The snapped X position
    pub x: i32,
    /// The snapped Y position
    pub y: i32,
    /// Whether the position was snapped (different from requested)
    pub was_snapped: bool,
}

pub open spec fn opt_string(s: Option<String>) -> Option<Seq<char>> {
    match s {
        Some(t) => Some(t@),
        None => None,
    }
}

impl PlaceComponentCommand {
    /// Place the component at its position snapped to the grid, as `symbol_added`
    /// states; the result gives the reference asked for (the requested one, else the
    /// symbol's prefix followed by `?`, else `U?`), the snapped position and whether
    /// snapping moved it.
    pub fn execute(self, items: &mut SchematicItems) -> (r: Result<PlaceComponentResult, CommandError>)
        requires
            numbering_fits(old(items).components@, opt_string(self.reference), self.symbol),
            fields_fit(
                self.symbol.properties@,
                GridPoint {
                    x: snap_spec(self.position.x as int) as i32,
                    y: snap_spec(self.position.y as int) as i32,
                },
            ),
        ensures
            r matches Ok(o) && {
                &&& o.x == snap_spec(self.position.x as int)
                &&& o.y == snap_spec(self.position.y as int)
                &&& o.was_snapped == (o.x != self.position.x || o.y != self.position.y)
                &&& o.reference@ == match self.reference {
                    Some(s) => s@,
                    None => match reference_prefix(self.symbol.properties@) {
                        Some(p) => p + "?"@,
                        None => "U?"@,
                    },
                }
                &&& symbol_added(
                    *old(items),
                    *final(items),
                    self.symbol,
                    self.lib_id@,
                    GridPoint { x: o.x, y: o.y },
                    self.angle,
                    opt_string(self.reference),
                    opt_string(self.value),
                )
            },
    {
        let x = snap_to_grid(self.position.x);
        let y = snap_to_grid(self.position.y);
        let was_snapped = x != self.position.x || y != self.position.y;
        let at = GridPoint { x, y };
        let shown = match &self.reference {
            Some(s) => s.clone(),
            None => match reference_prefix_exec(&self.symbol.properties) {
                Some(p) => {
                    let mut t = p.clone();
                    t.append("?");
                    t
                },
                None => String::from_str("U?"),
            },
        };
        let requested = match &self.reference {
            Some(s) => Some(s.as_str()),
            None => None,
        };
        let value = match &self.value {
            Some(s) => Some(s.as_str()),
            None => None,
        };
        items.add_symbol(&self.symbol, self.lib_id.as_str(), at, self.angle, requested, value);
        Ok(PlaceComponentResult { reference: shown, x, y, was_snapped })
    }
}

} // verus!
