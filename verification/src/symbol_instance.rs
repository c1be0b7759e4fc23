//! What a newly placed symbol gets: its reference and value, the properties it takes
//! from its library symbol, and its pin numbers.
use vstd::prelude::*;
use crate::ordering::sort_by;
use crate::outline_nets::GridPoint;
use crate::references::{choose_reference, chosen_reference, max_ref_number, numbering_prefix, opt_str};
use crate::semantic_components::{dedup_adjacent, dedup_strings, sort_strings, string_views, text_order};
use crate::text::{chars_of, has_prefix, str_eq};

verus! {

/// Reference and Value fields placed without a position go this far above and below
/// the symbol: 2.54 mm in grid units.
pub const FIELD_OFFSET: i32 = 25400;

/// A property of a symbol: its name, value, and position when it has one.
#[derive(Debug, Clone)]
pub struct PlacedProperty {
    pub name: String,
    pub value: String,
    pub position: Option<GridPoint>,
}

pub open spec fn property_view(p: PlacedProperty) -> (Seq<char>, Seq<char>, Option<GridPoint>) {
    (p.name@, p.value@, p.position)
}

pub open spec fn property_views(v: Seq<PlacedProperty>) -> Seq<(Seq<char>, Seq<char>, Option<GridPoint>)> {
    v.map_values(|p: PlacedProperty| property_view(p))
}

/// A position moved by `at`.
pub open spec fn shifted(pos: Option<GridPoint>, at: GridPoint) -> Option<GridPoint> {
    match pos {
        Some(q) => Some(GridPoint { x: (q.x + at.x) as i32, y: (q.y + at.y) as i32 }),
        None => None,
    }
}

/// The library properties a placed symbol keeps, in order: all but the `ki_` ones,
/// moved to the symbol's position, with the Reference and Value replaced.
pub open spec fn carried_properties(
    ps: Seq<(Seq<char>, Seq<char>, Option<GridPoint>)>,
    at: GridPoint,
    reference: Seq<char>,
    value: Seq<char>,
) -> Seq<(Seq<char>, Seq<char>, Option<GridPoint>)>
    decreases ps.len(),
{
    if ps.len() == 0 {
        Seq::empty()
    } else {
        let p = ps.last();
        carried_properties(ps.drop_last(), at, reference, value) + if "ki_"@.is_prefix_of(p.0) {
            Seq::empty()
        } else {
            seq![
                (
                    p.0,
                    if p.0 == "Reference"@ {
                        reference
                    } else if p.0 == "Value"@ {
                        value
                    } else {
                        p.1
                    },
                    shifted(p.2, at),
                ),
            ]
        }
    }
}

pub open spec fn has_named(ps: Seq<(Seq<char>, Seq<char>, Option<GridPoint>)>, name: Seq<char>) -> bool {
    exists|k: int| 0 <= k < ps.len() && (#[trigger] ps[k]).0 == name
}

/// The properties of a new symbol placed at `at`: the carried library properties, with
/// a Reference first and a Value second when the library symbol has none.
pub open spec fn instance_properties_spec(
    ps: Seq<(Seq<char>, Seq<char>, Option<GridPoint>)>,
    at: GridPoint,
    reference: Seq<char>,
    value: Seq<char>,
) -> Seq<(Seq<char>, Seq<char>, Option<GridPoint>)> {
    let c = carried_properties(ps, at, reference, value);
    let r = if has_named(c, "Reference"@) {
        c
    } else {
        c.insert(0, ("Reference"@, reference, Some(GridPoint { x: at.x, y: (at.y - FIELD_OFFSET) as i32 })))
    };
    if has_named(r, "Value"@) {
        r
    } else {
        r.insert(1, ("Value"@, value, Some(GridPoint { x: at.x, y: (at.y + FIELD_OFFSET) as i32 })))
    }
}

/// The positions of the properties, moved by `at`, stay on the grid's range.
pub open spec fn fields_fit(ps: Seq<PlacedProperty>, at: GridPoint) -> bool {
    &&& i32::MIN <= at.y - FIELD_OFFSET
    &&& at.y + FIELD_OFFSET <= i32::MAX
    &&& forall|k: int|
        0 <= k < ps.len() ==> match (#[trigger] ps[k]).position {
            Some(q) => i32::MIN <= q.x + at.x <= i32::MAX && i32::MIN <= q.y + at.y <= i32::MAX,
            None => true,
        }
}

fn has_named_exec(ps: &Vec<PlacedProperty>, name: &str) -> (b: bool)
    ensures
        b == has_named(property_views(ps@), name@),
{
    let ghost pv = property_views(ps@);
    let mut k: usize = 0;
    while k < ps.len()
        invariant
            k <= ps@.len(),
            pv == property_views(ps@),
            forall|j: int| 0 <= j < k ==> (#[trigger] pv[j]).0 != name@,
        decreases ps@.len() - k,
    {
        assert(pv[k as int] == property_view(ps@[k as int]));
        if str_eq(ps[k].name.as_str(), name) {
            return true;
        }
        k = k + 1;
    }
    false
}

/// The properties of a new symbol placed at `at` with the given reference and value.
pub fn instance_properties(lib_props: &Vec<PlacedProperty>, at: GridPoint, reference: &String, value: &String) -> (r:
    Vec<PlacedProperty>)
    requires
        fields_fit(lib_props@, at),
    ensures
        property_views(r@) == instance_properties_spec(property_views(lib_props@), at, reference@, value@),
{
    let ghost pv = property_views(lib_props@);
    let ki = chars_of("ki_");
    let mut out: Vec<PlacedProperty> = Vec::new();
    let mut k: usize = 0;
    assert(pv.take(0) == Seq::<(Seq<char>, Seq<char>, Option<GridPoint>)>::empty());
    while k < lib_props.len()
        invariant
            k <= lib_props@.len(),
            pv == property_views(lib_props@),
            ki@ == "ki_"@,
            fields_fit(lib_props@, at),
            property_views(out@) == carried_properties(pv.take(k as int), at, reference@, value@),
        decreases lib_props@.len() - k,
    {
        let p = &lib_props[k];
        assert(pv.take(k + 1).drop_last() == pv.take(k as int));
        assert(pv.take(k + 1).last() == property_view(*p));
        if !has_prefix(&chars_of(p.name.as_str()), &ki) {
            let v = if str_eq(p.name.as_str(), "Reference") {
                reference.clone()
            } else if str_eq(p.name.as_str(), "Value") {
                value.clone()
            } else {
                p.value.clone()
            };
            let position = match p.position {
                Some(q) => Some(GridPoint { x: q.x + at.x, y: q.y + at.y }),
                None => None,
            };
            let np = PlacedProperty { name: p.name.clone(), value: v, position };
            assert(property_views(out@.push(np)) == property_views(out@).push(property_view(np)));
            out.push(np);
        } else {
            assert(property_views(out@) + Seq::<(Seq<char>, Seq<char>, Option<GridPoint>)>::empty()
                == property_views(out@));
        }
        k = k + 1;
    }
    assert(pv.take(lib_props@.len() as int) == pv);
    if !has_named_exec(&out, "Reference") {
        let np = PlacedProperty {
            name: String::from_str("Reference"),
            value: reference.clone(),
            position: Some(GridPoint { x: at.x, y: at.y - FIELD_OFFSET }),
        };
        assert(property_views(out@.insert(0, np)) == property_views(out@).insert(0, property_view(np)));
        out.insert(0, np);
    }
    if !has_named_exec(&out, "Value") {
        let np = PlacedProperty {
            name: String::from_str("Value"),
            value: value.clone(),
            position: Some(GridPoint { x: at.x, y: at.y + FIELD_OFFSET }),
        };
        assert(property_views(out@.insert(1, np)) == property_views(out@).insert(1, property_view(np)));
        out.insert(1, np);
    }
    out
}

/// What a newly placed symbol gets.
#[derive(Debug, Clone)]
pub struct NewInstance {
    pub reference: String,
    pub value: String,
    pub properties: Vec<PlacedProperty>,
    /// The numbers of its pins, sorted, each once
    pub pin_numbers: Vec<String>,
}

pub open spec fn reference_prefix(props: Seq<PlacedProperty>) -> Option<Seq<char>>
    decreases props.len(),
{
    if props.len() == 0 {
        None
    } else if props[0].name@ == "Reference"@ {
        Some(props[0].value@)
    } else {
        reference_prefix(props.drop_first())
    }
}

/// The first Reference property's value of a library symbol: the prefix its new
/// references are numbered under.
pub(crate) fn reference_prefix_exec(props: &Vec<PlacedProperty>) -> (r: Option<&String>)
    ensures
        match reference_prefix(props@) {
            Some(p) => r matches Some(s) && s@ == p,
            None => r is None,
        },
{
    let mut k: usize = 0;
    assert(props@.skip(0) == props@);
    while k < props.len()
        invariant
            k <= props@.len(),
            reference_prefix(props@) == reference_prefix(props@.skip(k as int)),
        decreases props@.len() - k,
    {
        assert(props@.skip(k as int)[0] == props@[k as int]);
        assert(props@.skip(k as int).drop_first() == props@.skip(k + 1));
        if str_eq(props[k].name.as_str(), "Reference") {
            return Some(&props[k].value);
        }
        k = k + 1;
    }
    None
}

/// Place a new symbol: its reference (the requested one, or the next free one under
/// its prefix), its value (the requested one, else the symbol's name), its properties
/// from the library symbol, and its pin numbers sorted and each once.
pub fn plan_symbol_instance(
    existing_references: &Vec<String>,
    requested_reference: Option<&str>,
    requested_value: Option<&str>,
    symbol_name: &String,
    lib_props: &Vec<PlacedProperty>,
    lib_pin_numbers: Vec<String>,
    at: GridPoint,
) -> (r: NewInstance)
    requires
        numbering_prefix(opt_str(requested_reference), reference_prefix(lib_props@)) matches Some(p)
            ==> max_ref_number(string_views(existing_references@), p) < u32::MAX,
        fields_fit(lib_props@, at),
    ensures
        r.reference@ == chosen_reference(
            string_views(existing_references@),
            opt_str(requested_reference),
            reference_prefix(lib_props@),
        ),
        r.value@ == match requested_value {
            Some(v) => v@,
            None => symbol_name@,
        },
        property_views(r.properties@) == instance_properties_spec(
            property_views(lib_props@),
            at,
            r.reference@,
            r.value@,
        ),
        string_views(r.pin_numbers@) == dedup_adjacent(sort_by(string_views(lib_pin_numbers@), text_order())),
{
    let prefix = reference_prefix_exec(lib_props);
    let reference = match prefix {
        Some(p) => choose_reference(existing_references, requested_reference, Some(p.as_str())),
        None => choose_reference(existing_references, requested_reference, None),
    };
    let value = match requested_value {
        Some(v) => String::from_str(v),
        None => symbol_name.clone(),
    };
    let properties = instance_properties(lib_props, at, &reference, &value);
    let pin_numbers = dedup_strings(sort_strings(lib_pin_numbers));
    NewInstance { reference, value, properties, pin_numbers }
}

} // verus!
