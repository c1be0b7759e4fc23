//! From a library symbol read out of its file to what placing, the symbol summary and
//! saving need: its pins and properties on the grid, its summary, and the placed
//! instance written into the schematic.
use vstd::prelude::*;
use crate::outline_nets::GridPoint;
use crate::pin_geometry::LibPinGeometry;
use crate::place::{LibPin, LibSymbol};
use crate::schematic::{PathInstance, PinInstance, ProjectInstance};
use crate::schematic_save::{mm_of, NewSymbol};
use crate::schematic_write::{Effects, PinText, Position, Property, Symbol, SymbolInstance, SymbolUnit};
use crate::semantic_components::pair_views;
use crate::sexpr::Decimal;
use crate::sheet_points::{grid_point, grid_point_exec, grid_value, grid_value_exec, whole_degrees, whole_degrees_exec};
use crate::symbol_info::{PinSummary, SymbolSummary};
use crate::symbol_instance::{fields_fit, instance_properties, instance_properties_spec, property_views, PlacedProperty};
use crate::text::{push_char, str_eq};

verus! {

/// A pin's direction in whole degrees; one that is not whole is held as 1°, which is no
/// quarter turn, so that the pin gets no exact place.
pub open spec fn pin_degrees(d: Decimal) -> i32 {
    match whole_degrees(d) {
        Some(a) => a,
        None => 1,
    }
}

/// A library pin on the grid.
pub open spec fn lib_pin_of(p: crate::schematic_write::Pin) -> (Seq<char>, Seq<char>, LibPinGeometry) {
    (
        p.number.text@,
        p.name.text@,
        LibPinGeometry {
            x: grid_value(p.position.x),
            y: grid_value(p.position.y),
            angle: pin_degrees(p.position.angle),
            length: grid_value(p.length),
        },
    )
}

/// The pins of all units, in order.
pub open spec fn all_pins(units: Seq<SymbolUnit>) -> Seq<crate::schematic_write::Pin>
    decreases units.len(),
{
    if units.len() == 0 {
        Seq::empty()
    } else {
        all_pins(units.drop_last()) + units.last().pins@
    }
}

pub open spec fn lib_pin_view(p: LibPin) -> (Seq<char>, Seq<char>, LibPinGeometry) {
    (p.number@, p.name@, p.geometry)
}

/// A property on the grid: name, value, and position when it has one.
pub open spec fn placed_property_of(p: Property) -> (Seq<char>, Seq<char>, Option<GridPoint>) {
    (
        p.name@,
        p.value@,
        match p.position {
            Some(q) => Some(grid_point(q.x, q.y)),
            None => None,
        },
    )
}

/// What placing reads of a library symbol: its name, its properties on the grid, and the
/// pins of all its units on the grid.
pub open spec fn lib_symbol_matches(l: LibSymbol, s: Symbol) -> bool {
    &&& l.name@ == s.name@
    &&& property_views(l.properties@) == s.properties@.map_values(|p: Property| placed_property_of(p))
    &&& l.pins@.map_values(|p: LibPin| lib_pin_view(p)) == all_pins(s.units@).map_values(
        |p: crate::schematic_write::Pin| lib_pin_of(p),
    )
}

fn pin_degrees_exec(d: Decimal) -> (r: i32)
    ensures
        r == pin_degrees(d),
{
    match whole_degrees_exec(d) {
        Some(a) => a,
        None => 1,
    }
}

/// What placing reads of a library symbol, as `lib_symbol_matches` states.
pub fn lib_symbol_of(s: &Symbol) -> (r: LibSymbol)
    ensures
        lib_symbol_matches(r, *s),
{
    let mut properties: Vec<PlacedProperty> = Vec::new();
    let mut k: usize = 0;
    while k < s.properties.len()
        invariant
            k <= s.properties@.len(),
            property_views(properties@) == s.properties@.take(k as int).map_values(|p: Property| placed_property_of(p)),
        decreases s.properties@.len() - k,
    {
        let p = &s.properties[k];
        let position = match p.position {
            Some(q) => Some(grid_point_exec(q.x, q.y)),
            None => None,
        };
        let pp = PlacedProperty { name: p.name.clone(), value: p.value.clone(), position };
        let ghost before = properties@;
        properties.push(pp);
        assert(property_views(properties@) =~= property_views(before).push(placed_property_of(*p)));
        assert(s.properties@.take(k + 1).map_values(|p: Property| placed_property_of(p)) =~= s.properties@.take(
            k as int,
        ).map_values(|p: Property| placed_property_of(p)).push(placed_property_of(*p)));
        k = k + 1;
    }
    assert(s.properties@.take(s.properties@.len() as int) =~= s.properties@);
    let mut pins: Vec<LibPin> = Vec::new();
    let mut u: usize = 0;
    while u < s.units.len()
        invariant
            u <= s.units@.len(),
            pins@.map_values(|p: LibPin| lib_pin_view(p)) == all_pins(s.units@.take(u as int)).map_values(
                |p: crate::schematic_write::Pin| lib_pin_of(p),
            ),
        decreases s.units@.len() - u,
    {
        let ghost base = all_pins(s.units@.take(u as int));
        assert(s.units@.take(u + 1).drop_last() =~= s.units@.take(u as int));
        assert(s.units@.take(u + 1).last() == s.units@[u as int]);
        let ups = &s.units[u].pins;
        let mut j: usize = 0;
        while j < ups.len()
            invariant
                j <= ups@.len(),
                ups@ == s.units@[u as int].pins@,
                pins@.map_values(|p: LibPin| lib_pin_view(p)) == (base + ups@.take(j as int)).map_values(
                    |p: crate::schematic_write::Pin| lib_pin_of(p),
                ),
            decreases ups@.len() - j,
        {
            let p = &ups[j];
            let lp = LibPin {
                number: p.number.text.clone(),
                name: p.name.text.clone(),
                geometry: LibPinGeometry {
                    x: grid_value_exec(p.position.x),
                    y: grid_value_exec(p.position.y),
                    angle: pin_degrees_exec(p.position.angle),
                    length: grid_value_exec(p.length),
                },
            };
            let ghost before = pins@;
            pins.push(lp);
            assert(pins@.map_values(|p: LibPin| lib_pin_view(p)) =~= before.map_values(|p: LibPin| lib_pin_view(p)).push(
                lib_pin_of(*p),
            ));
            assert((base + ups@.take(j + 1)).map_values(|p: crate::schematic_write::Pin| lib_pin_of(p)) =~= (base
                + ups@.take(j as int)).map_values(|p: crate::schematic_write::Pin| lib_pin_of(p)).push(lib_pin_of(*p)));
            j = j + 1;
        }
        assert(base + ups@.take(ups@.len() as int) =~= all_pins(s.units@.take(u + 1)));
        u = u + 1;
    }
    assert(s.units@.take(s.units@.len() as int) =~= s.units@);
    LibSymbol { name: s.name.clone(), properties, pins }
}

pub open spec fn pin_summary_of(p: crate::schematic_write::Pin) -> (Seq<char>, Seq<char>, Seq<char>, bool) {
    (p.number.text@, p.name.text@, p.electrical_type.keyword(), p.hide)
}

/// The summary of a library symbol: its name, property names and values, units with
/// their pins, and whether it goes in the bill of materials and on the board.
pub open spec fn summary_matches(r: SymbolSummary, s: Symbol) -> bool {
    &&& r.name@ == s.name@
    &&& pair_views(r.properties@) == s.properties@.map_values(|p: Property| (p.name@, p.value@))
    &&& r.units@.len() == s.units@.len()
    &&& forall|k: int|
        0 <= k < s.units@.len() ==> {
            let u = #[trigger] r.units@[k];
            &&& u.0@ == s.units@[k].name@
            &&& u.1@.map_values(|p: PinSummary| crate::symbol_info::pin_view(p)) == s.units@[k].pins@.map_values(
                |p: crate::schematic_write::Pin| pin_summary_of(p),
            )
        }
    &&& r.in_bom == s.in_bom
    &&& r.on_board == s.on_board
}

/// The summary of a library symbol, as `summary_matches` states.
pub fn summary_of(s: &Symbol) -> (r: SymbolSummary)
    ensures
        summary_matches(r, *s),
{
    let mut properties: Vec<(String, String)> = Vec::new();
    let mut k: usize = 0;
    while k < s.properties.len()
        invariant
            k <= s.properties@.len(),
            pair_views(properties@) == s.properties@.take(k as int).map_values(|p: Property| (p.name@, p.value@)),
        decreases s.properties@.len() - k,
    {
        let p = &s.properties[k];
        let ghost before = properties@;
        properties.push((p.name.clone(), p.value.clone()));
        assert(pair_views(properties@) =~= pair_views(before).push((p.name@, p.value@)));
        assert(s.properties@.take(k + 1).map_values(|p: Property| (p.name@, p.value@)) =~= s.properties@.take(
            k as int,
        ).map_values(|p: Property| (p.name@, p.value@)).push((p.name@, p.value@)));
        k = k + 1;
    }
    assert(s.properties@.take(s.properties@.len() as int) =~= s.properties@);
    let mut units: Vec<(String, Vec<PinSummary>)> = Vec::new();
    let mut u: usize = 0;
    while u < s.units.len()
        invariant
            u <= s.units@.len(),
            units@.len() == u,
            forall|i: int|
                0 <= i < u ==> {
                    let x = #[trigger] units@[i];
                    &&& x.0@ == s.units@[i].name@
                    &&& x.1@.map_values(|p: PinSummary| crate::symbol_info::pin_view(p)) == s.units@[i].pins@.map_values(
                        |p: crate::schematic_write::Pin| pin_summary_of(p),
                    )
                },
        decreases s.units@.len() - u,
    {
        let ups = &s.units[u].pins;
        let mut ps: Vec<PinSummary> = Vec::new();
        let mut j: usize = 0;
        while j < ups.len()
            invariant
                j <= ups@.len(),
                ups@ == s.units@[u as int].pins@,
                ps@.map_values(|p: PinSummary| crate::symbol_info::pin_view(p)) == ups@.take(j as int).map_values(
                    |p: crate::schematic_write::Pin| pin_summary_of(p),
                ),
            decreases ups@.len() - j,
        {
            let p = &ups[j];
            let x = PinSummary {
                number: p.number.text.clone(),
                name: p.name.text.clone(),
                electrical_type: p.electrical_type,
                hidden: p.hide,
            };
            let ghost before = ps@;
            ps.push(x);
            assert(ps@.map_values(|p: PinSummary| crate::symbol_info::pin_view(p)) =~= before.map_values(
                |p: PinSummary| crate::symbol_info::pin_view(p),
            ).push(pin_summary_of(*p)));
            assert(ups@.take(j + 1).map_values(|p: crate::schematic_write::Pin| pin_summary_of(p)) =~= ups@.take(
                j as int,
            ).map_values(|p: crate::schematic_write::Pin| pin_summary_of(p)).push(pin_summary_of(*p)));
            j = j + 1;
        }
        assert(ups@.take(ups@.len() as int) =~= ups@);
        units.push((s.units[u].name.clone(), ps));
        u = u + 1;
    }
    SymbolSummary { name: s.name.clone(), properties, units, in_bom: s.in_bom, on_board: s.on_board }
}

/// The first property named `name`.
pub open spec fn def_property(ps: Seq<Property>, name: Seq<char>, k: int) -> Option<Property>
    decreases ps.len() - k,
{
    if k < 0 || k >= ps.len() {
        None
    } else if ps[k].name@ == name {
        Some(ps[k])
    } else {
        def_property(ps, name, k + 1)
    }
}

/// A placed property: name, value and place as placing states them; the direction and
/// effects of the library property of that name, or no turn and plain effects for a
/// Reference or Value that placing added.
pub open spec fn placed_property(p: Property, sp: (Seq<char>, Seq<char>, Option<GridPoint>), def_ps: Seq<Property>) -> bool {
    let d = def_property(def_ps, sp.0, 0);
    &&& p.name@ == sp.0
    &&& p.value@ == sp.1
    &&& p.position == match sp.2 {
        Some(g) => Some(
            Position {
                x: mm_of(g.x),
                y: mm_of(g.y),
                angle: match d {
                    Some(q) => match q.position {
                        Some(pos) => pos.angle,
                        None => Decimal { mantissa: 0, scale: 0 },
                    },
                    None => Decimal { mantissa: 0, scale: 0 },
                },
            },
        ),
        None => None,
    }
    &&& p.effects == match d {
        Some(q) => q.effects,
        None => Some(Effects { font: None, justify: None, hide: false }),
    }
}

/// The symbol that placing `def` (read from its library; `lib` is what placing read of
/// it) as `lib_id` at `at` turned by `angle` writes: the definition under the library
/// id, and an instance with unit 1, the definition's flags, the first uuid, the
/// properties placing gives for `reference` and `value`, one pin per listed number with
/// the following uuids, and its place in the root sheet `/root_uuid`.
pub open spec fn new_symbol_matches(
    r: NewSymbol,
    def: Symbol,
    lib: LibSymbol,
    lib_id: Seq<char>,
    at: GridPoint,
    angle: i32,
    reference: Seq<char>,
    value: Seq<char>,
    pins: Seq<String>,
    root_uuid: Seq<char>,
    uuids: Seq<String>,
) -> bool {
    let sp = instance_properties_spec(property_views(lib.properties@), at, reference, value);
    let i = r.instance;
    &&& r.definition.name@ == lib_id
    &&& r.definition.pin_numbers_hide == def.pin_numbers_hide && r.definition.pin_names_offset == def.pin_names_offset
    &&& r.definition.pin_names_hide == def.pin_names_hide && r.definition.exclude_from_sim == def.exclude_from_sim
    &&& r.definition.in_bom == def.in_bom && r.definition.on_board == def.on_board
    &&& r.definition.properties == def.properties && r.definition.units == def.units
    &&& r.definition.embedded_fonts == def.embedded_fonts && r.definition.extends == def.extends
    &&& i.lib_id@ == lib_id
    &&& i.position == Position { x: mm_of(at.x), y: mm_of(at.y), angle: Decimal { mantissa: angle as i64, scale: 0 } }
    &&& i.unit == 1
    &&& i.exclude_from_sim == def.exclude_from_sim && i.in_bom == def.in_bom && i.on_board == def.on_board
    &&& !i.dnp && i.fields_autoplaced
    &&& i.uuid@ == uuids[0]@
    &&& i.properties@.len() == sp.len()
    &&& forall|k: int| 0 <= k < sp.len() ==> placed_property(#[trigger] i.properties@[k], sp[k], def.properties@)
    &&& i.pins@.len() == pins.len()
    &&& forall|k: int| 0 <= k < pins.len() ==> (#[trigger] i.pins@[k]).number@ == pins[k]@ && i.pins@[k].uuid@ == uuids[k + 1]@
    &&& i.instances@.len() == 1
    &&& i.instances@[0].project_name@ == Seq::<char>::empty()
    &&& i.instances@[0].paths@.len() == 1
    &&& i.instances@[0].paths@[0].path@ == seq!['/'] + root_uuid
    &&& i.instances@[0].paths@[0].reference@ == reference
    &&& i.instances@[0].paths@[0].unit == 1
    &&& i.mirror is None
}

fn def_property_exec<'a>(ps: &'a Vec<Property>, name: &str) -> (r: Option<&'a Property>)
    ensures
        match def_property(ps@, name@, 0) {
            Some(p) => r matches Some(q) && *q == p,
            None => r is None,
        },
{
    let mut k: usize = 0;
    while k < ps.len()
        invariant
            k <= ps@.len(),
            def_property(ps@, name@, 0) == def_property(ps@, name@, k as int),
        decreases ps@.len() - k,
    {
        if str_eq(ps[k].name.as_str(), name) {
            return Some(&ps[k]);
        }
        k = k + 1;
    }
    None
}

/// Build the symbol placing writes, as `new_symbol_matches` states.
pub fn new_symbol(
    def: Symbol,
    lib: &LibSymbol,
    lib_id: &str,
    at: GridPoint,
    angle: i32,
    reference: &String,
    value: &String,
    pins: &Vec<String>,
    root_uuid: &String,
    uuids: &Vec<String>,
) -> (r: NewSymbol)
    requires
        fields_fit(lib.properties@, at),
        uuids@.len() == pins@.len() + 1,
    ensures
        new_symbol_matches(r, def, *lib, lib_id@, at, angle, reference@, value@, pins@, root_uuid@, uuids@),
{
    let placed = instance_properties(&lib.properties, at, reference, value);
    let ghost sp = instance_properties_spec(property_views(lib.properties@), at, reference@, value@);
    let mut properties: Vec<Property> = Vec::new();
    let mut k: usize = 0;
    while k < placed.len()
        invariant
            k <= placed@.len(),
            property_views(placed@) == sp,
            properties@.len() == k,
            forall|i: int| 0 <= i < k ==> placed_property(#[trigger] properties@[i], sp[i], def.properties@),
        decreases placed@.len() - k,
    {
        let pp = &placed[k];
        assert(sp[k as int] == crate::symbol_instance::property_view(*pp));
        let d = def_property_exec(&def.properties, pp.name.as_str());
        let position = match pp.position {
            Some(g) => {
                let a = match d {
                    Some(q) => match q.position {
                        Some(pos) => pos.angle,
                        None => Decimal { mantissa: 0, scale: 0 },
                    },
                    None => Decimal { mantissa: 0, scale: 0 },
                };
                Some(Position { x: Decimal { mantissa: g.x as i64, scale: 4 }, y: Decimal { mantissa: g.y as i64, scale: 4 }, angle: a })
            },
            None => None,
        };
        let effects = match d {
            Some(q) => q.effects,
            None => Some(Effects { font: None, justify: None, hide: false }),
        };
        properties.push(Property { name: pp.name.clone(), value: pp.value.clone(), position, effects });
        k = k + 1;
    }
    let mut pin_list: Vec<PinInstance> = Vec::new();
    let mut k: usize = 0;
    while k < pins.len()
        invariant
            k <= pins@.len(),
            uuids@.len() == pins@.len() + 1,
            pin_list@.len() == k,
            forall|i: int| 0 <= i < k ==> (#[trigger] pin_list@[i]).number@ == pins@[i]@ && pin_list@[i].uuid@ == uuids@[i + 1]@,
        decreases pins@.len() - k,
    {
        pin_list.push(PinInstance { number: pins[k].clone(), uuid: uuids[k + 1].clone() });
        k = k + 1;
    }
    let mut path = String::new();
    push_char(&mut path, '/');
    path.append(root_uuid.as_str());
    let mut paths: Vec<PathInstance> = Vec::new();
    paths.push(PathInstance { path, reference: reference.clone(), unit: 1 });
    let mut instances: Vec<ProjectInstance> = Vec::new();
    instances.push(ProjectInstance { project_name: String::new(), paths });
    let instance = SymbolInstance {
        lib_id: String::from_str(lib_id),
        position: Position {
            x: Decimal { mantissa: at.x as i64, scale: 4 },
            y: Decimal { mantissa: at.y as i64, scale: 4 },
            angle: Decimal { mantissa: angle as i64, scale: 0 },
        },
        unit: 1,
        exclude_from_sim: def.exclude_from_sim,
        in_bom: def.in_bom,
        on_board: def.on_board,
        dnp: false,
        fields_autoplaced: true,
        uuid: uuids[0].clone(),
        properties,
        pins: pin_list,
        instances,
        mirror: None,
    };
    let mut definition = def;
    definition.name = String::from_str(lib_id);
    NewSymbol { definition, instance }
}

} // verus!
