//! Updating a placed component: moving it on the grid, turning and mirroring it,
//! renaming it and changing its value, with a list of what changed.
use vstd::prelude::*;
use crate::commands::mm_text;
use crate::schematic::Mirror;
use crate::semantic_components::string_views;
use crate::sexpr::Decimal;
use crate::sexpr_write::{number_text, write_number};
use crate::text::{lowercase, str_eq, to_lowercase};
use crate::tools::{ToolError, UpdateComponentTool};
use crate::wire_edit::{snap_spec, snap_to_grid};

verus! {

/// A placed component as an update sees it: its properties, position (grid units),
/// rotation (degrees), mirroring, and the references of its instance paths.
#[derive(Debug, Clone)]
pub struct ComponentState {
    pub properties: Vec<(String, String)>,
    pub x: i32,
    pub y: i32,
    pub angle: i32,
    pub mirror: Option<Mirror>,
    pub instance_refs: Vec<String>,
}

/// The changes asked of a component, found by its reference.
#[derive(Debug, Clone)]
pub struct ComponentUpdate {
    pub reference: String,
    pub x: Option<i32>,
    pub y: Option<i32>,
    pub angle: Option<i32>,
    pub new_reference: Option<String>,
    pub value: Option<String>,
    pub mirror: Option<String>,
}

/// What an update reports.
#[derive(Debug, Clone)]
pub struct UpdateComponentOutput {
    pub reference: String,
    pub x: i32,
    pub y: i32,
    pub angle: i32,
    pub value: String,
    pub was_snapped: bool,
    pub changes: Vec<String>,
}

pub open spec fn props_view(ps: Seq<(String, String)>) -> Seq<(Seq<char>, Seq<char>)> {
    ps.map_values(|p: (String, String)| (p.0@, p.1@))
}

/// The first property from `k` on named `name`.
pub open spec fn first_named(ps: Seq<(Seq<char>, Seq<char>)>, name: Seq<char>, k: int) -> Option<int>
    decreases ps.len() - k,
{
    if k < 0 || k >= ps.len() {
        None
    } else if ps[k].0 == name {
        Some(k)
    } else {
        first_named(ps, name, k + 1)
    }
}

/// The value of the first property named `name` replaced by `v`, if there is one.
pub open spec fn set_first(ps: Seq<(Seq<char>, Seq<char>)>, name: Seq<char>, v: Seq<char>) -> Seq<
    (Seq<char>, Seq<char>),
> {
    match first_named(ps, name, 0) {
        Some(k) => ps.update(k, (name, v)),
        None => ps,
    }
}

pub open spec fn has_ref(c: ComponentState, r: Seq<char>) -> bool {
    exists|k: int|
        0 <= k < c.properties@.len() && #[trigger] c.properties@[k].0@ == "Reference"@
            && c.properties@[k].1@ == r
}

pub open spec fn first_with_ref(cs: Seq<ComponentState>, r: Seq<char>, k: int) -> Option<int>
    decreases cs.len() - k,
{
    if k < 0 || k >= cs.len() {
        None
    } else if has_ref(cs[k], r) {
        Some(k)
    } else {
        first_with_ref(cs, r, k + 1)
    }
}

/// Two grid coordinates within a thousandth of a millimetre.
pub open spec fn close(a: int, b: int) -> bool {
    -10 <= a - b <= 10
}

/// A coordinate after an update: the requested one snapped to the grid, unless it is
/// within a thousandth of a millimetre of the present one.
pub open spec fn new_coord(old: int, requested: Option<i32>) -> int {
    match requested {
        Some(v) => if close(old, snap_spec(v as int)) {
            old
        } else {
            snap_spec(v as int)
        },
        None => old,
    }
}

pub open spec fn snapped(requested: Option<i32>) -> bool {
    match requested {
        Some(v) => !close(snap_spec(v as int), v as int),
        None => false,
    }
}

/// A rotation after an update: the requested one brought into 0..360.
pub open spec fn new_angle(old: int, requested: Option<i32>) -> int {
    match requested {
        Some(a) => (a as int) % 360,
        None => old,
    }
}

/// The mirroring that a text names, lower-cased: `x`, `y`, or `none` (or nothing) for
/// none; no choice for any other text.
pub open spec fn mirror_choice(lower: Seq<char>) -> Option<Option<Mirror>> {
    if lower == "x"@ {
        Some(Some(Mirror::X))
    } else if lower == "y"@ {
        Some(Some(Mirror::Y))
    } else if lower == "none"@ || lower.len() == 0 {
        Some(None)
    } else {
        None
    }
}

pub open spec fn new_mirror(old: Option<Mirror>, requested: Option<String>) -> Option<Mirror> {
    match requested {
        Some(m) => mirror_choice(lowercase(m@)).unwrap(),
        None => old,
    }
}

pub open spec fn renames(u: ComponentUpdate) -> bool {
    u.new_reference matches Some(n) && n@ != u.reference@
}

pub open spec fn angle_text(a: int) -> Seq<char> {
    number_text(Decimal { mantissa: a as i64, scale: 0 })
}

/// How a mirroring is shown in a change: `None`, `Some("x")` or `Some("y")`.
pub open spec fn mirror_text(m: Option<Mirror>) -> Seq<char> {
    match m {
        None => "None"@,
        Some(Mirror::X) => "Some(\"x\")"@,
        Some(Mirror::Y) => "Some(\"y\")"@,
    }
}

/// The properties after the rename and the new value.
pub open spec fn new_props(c: ComponentState, u: ComponentUpdate) -> Seq<(Seq<char>, Seq<char>)> {
    let p1 = renamed_props(c, u);
    match u.value {
        Some(v) => set_first(p1, "Value"@, v@),
        None => p1,
    }
}

/// The instance references after the rename.
pub open spec fn new_instance_refs(c: ComponentState, u: ComponentUpdate) -> Seq<Seq<char>> {
    let rs = string_views(c.instance_refs@);
    if renames(u) {
        rs.map_values(|r: Seq<char>| if r == u.reference@ {
            u.new_reference.unwrap()@
        } else {
            r
        })
    } else {
        rs
    }
}

/// The properties after the rename only.
pub open spec fn renamed_props(c: ComponentState, u: ComponentUpdate) -> Seq<(Seq<char>, Seq<char>)> {
    let p0 = props_view(c.properties@);
    if renames(u) {
        set_first(p0, "Reference"@, u.new_reference.unwrap()@)
    } else {
        p0
    }
}

pub open spec fn coord_change(label: Seq<char>, before: int, after: int) -> Seq<Seq<char>> {
    if after != before {
        seq![label + ": "@ + mm_text(before as i32) + " -> "@ + mm_text(after as i32)]
    } else {
        Seq::empty()
    }
}

pub open spec fn angle_change(c: ComponentState, u: ComponentUpdate) -> Seq<Seq<char>> {
    let na = new_angle(c.angle as int, u.angle);
    if na != c.angle {
        seq!["angle: "@ + angle_text(c.angle as int) + " -> "@ + angle_text(na)]
    } else {
        Seq::empty()
    }
}

pub open spec fn mirror_change(c: ComponentState, u: ComponentUpdate) -> Seq<Seq<char>> {
    let nm = new_mirror(c.mirror, u.mirror);
    if nm != c.mirror {
        seq!["mirror: "@ + mirror_text(c.mirror) + " -> "@ + mirror_text(nm)]
    } else {
        Seq::empty()
    }
}

pub open spec fn reference_change(c: ComponentState, u: ComponentUpdate) -> Seq<Seq<char>> {
    let p0 = props_view(c.properties@);
    match (renames(u), first_named(p0, "Reference"@, 0)) {
        (true, Some(k)) => seq!["reference: "@ + p0[k].1 + " -> "@ + u.new_reference.unwrap()@],
        _ => Seq::empty(),
    }
}

pub open spec fn value_change(c: ComponentState, u: ComponentUpdate) -> Seq<Seq<char>> {
    let p1 = renamed_props(c, u);
    match (u.value, first_named(p1, "Value"@, 0)) {
        (Some(v), Some(k)) => if p1[k].1 != v@ {
            seq!["value: "@ + p1[k].1 + " -> "@ + v@]
        } else {
            Seq::empty()
        },
        _ => Seq::empty(),
    }
}

/// What changed, in order: x, y, angle, mirroring, reference, value.
pub open spec fn change_texts(c: ComponentState, u: ComponentUpdate) -> Seq<Seq<char>> {
    coord_change("x"@, c.x as int, new_coord(c.x as int, u.x)) + coord_change(
        "y"@,
        c.y as int,
        new_coord(c.y as int, u.y),
    ) + angle_change(c, u) + mirror_change(c, u) + reference_change(c, u) + value_change(c, u)
}

/// The component after the update.
pub open spec fn updated(c: ComponentState, u: ComponentUpdate, r: ComponentState) -> bool {
    &&& r.x == new_coord(c.x as int, u.x)
    &&& r.y == new_coord(c.y as int, u.y)
    &&& r.angle == new_angle(c.angle as int, u.angle)
    &&& r.mirror == new_mirror(c.mirror, u.mirror)
    &&& props_view(r.properties@) == new_props(c, u)
    &&& string_views(r.instance_refs@) == new_instance_refs(c, u)
}

/// What the update reports of the component `c` it changed.
pub open spec fn reported(c: ComponentState, u: ComponentUpdate, o: UpdateComponentOutput) -> bool {
    let ps = new_props(c, u);
    &&& o.reference@ == (if renames(u) {
        u.new_reference.unwrap()@
    } else {
        u.reference@
    })
    &&& o.x == new_coord(c.x as int, u.x)
    &&& o.y == new_coord(c.y as int, u.y)
    &&& o.angle == new_angle(c.angle as int, u.angle)
    &&& o.value@ == match first_named(ps, "Value"@, 0) {
        Some(k) => ps[k].1,
        None => Seq::empty(),
    }
    &&& o.was_snapped == (snapped(u.x) || snapped(u.y))
    &&& string_views(o.changes@) == change_texts(c, u)
}

fn first_named_exec(ps: &Vec<(String, String)>, name: &str) -> (r: Option<usize>)
    ensures
        match first_named(props_view(ps@), name@, 0) {
            Some(k) => r == Some(k as usize) && 0 <= k < ps@.len(),
            None => r is None,
        },
{
    let ghost pv = props_view(ps@);
    let mut k: usize = 0;
    while k < ps.len()
        invariant
            k <= ps@.len(),
            pv == props_view(ps@),
            first_named(pv, name@, 0) == first_named(pv, name@, k as int),
        decreases ps@.len() - k,
    {
        assert(pv[k as int] == (ps@[k as int].0@, ps@[k as int].1@));
        if str_eq(ps[k].0.as_str(), name) {
            return Some(k);
        }
        k = k + 1;
    }
    None
}

fn has_ref_exec(c: &ComponentState, r: &str) -> (b: bool)
    ensures
        b == has_ref(*c, r@),
{
    let mut k: usize = 0;
    while k < c.properties.len()
        invariant
            k <= c.properties@.len(),
            forall|j: int|
                0 <= j < k ==> !(#[trigger] c.properties@[j].0@ == "Reference"@ && c.properties@[j].1@
                    == r@),
        decreases c.properties@.len() - k,
    {
        if str_eq(c.properties[k].0.as_str(), "Reference") && str_eq(c.properties[k].1.as_str(), r) {
            return true;
        }
        k = k + 1;
    }
    false
}

/// The index of the first component with reference `r`.
pub fn first_with_ref_exec(cs: &Vec<ComponentState>, r: &str) -> (i: Option<usize>)
    ensures
        match first_with_ref(cs@, r@, 0) {
            Some(k) => i == Some(k as usize) && 0 <= k < cs@.len(),
            None => i is None,
        },
{
    let mut k: usize = 0;
    while k < cs.len()
        invariant
            k <= cs@.len(),
            first_with_ref(cs@, r@, 0) == first_with_ref(cs@, r@, k as int),
        decreases cs@.len() - k,
    {
        if has_ref_exec(&cs[k], r) {
            return Some(k);
        }
        k = k + 1;
    }
    None
}

fn mirror_choice_exec(m: &String) -> (r: Option<Option<Mirror>>)
    ensures
        r == mirror_choice(lowercase(m@)),
{
    let lower = to_lowercase(m.as_str());
    if str_eq(lower.as_str(), "x") {
        Some(Some(Mirror::X))
    } else if str_eq(lower.as_str(), "y") {
        Some(Some(Mirror::Y))
    } else if str_eq(lower.as_str(), "none") || lower.as_str().is_empty() {
        Some(None)
    } else {
        None
    }
}

fn push_mirror_text(out: &mut String, m: Option<Mirror>)
    ensures
        final(out)@ == old(out)@ + mirror_text(m),
{
    match m {
        None => out.append("None"),
        Some(Mirror::X) => out.append("Some(\"x\")"),
        Some(Mirror::Y) => out.append("Some(\"y\")"),
    }
}

proof fn lemma_first_named(ps: Seq<(Seq<char>, Seq<char>)>, name: Seq<char>, j: int)
    requires
        0 <= j,
    ensures
        match first_named(ps, name, j) {
            Some(k) => j <= k < ps.len() && ps[k].0 == name && forall|q: int|
                j <= q < k ==> (#[trigger] ps[q]).0 != name,
            None => forall|q: int| j <= q < ps.len() ==> (#[trigger] ps[q]).0 != name,
        },
    decreases ps.len() - j,
{
    if j < ps.len() && ps[j].0 != name {
        lemma_first_named(ps, name, j + 1);
    }
}

/// Replace the value of the first property named `name`.
fn set_first_exec(ps: &mut Vec<(String, String)>, name: &str, v: &String)
    ensures
        props_view(final(ps)@) == set_first(props_view(old(ps)@), name@, v@),
{
    let ghost before = props_view(ps@);
    proof {
        lemma_first_named(before, name@, 0);
    }
    let len = ps.len();
    let found = first_named_exec(ps, name);
    match found {
        Some(k) => {
            assert(first_named(before, name@, 0) is Some);
            let ghost ks = first_named(before, name@, 0).unwrap();
            assert(0 <= ks < len);
            assert(k as int == ks);
            assert(before[k as int].0 == name@);
            let n = ps[k].0.clone();
            ps.set(k, (n, v.clone()));
            assert(props_view(ps@) =~= before.update(k as int, (name@, v@)));
        },
        None => {},
    }
}

fn rename_instances(rs: &mut Vec<String>, from: &String, to: &String)
    ensures
        string_views(final(rs)@) == string_views(old(rs)@).map_values(|r: Seq<char>| if r == from@ {
            to@
        } else {
            r
        }),
{
    let ghost start = string_views(rs@);
    let mut k: usize = 0;
    while k < rs.len()
        invariant
            k <= rs@.len() == start.len(),
            forall|j: int| k <= j < rs@.len() ==> (#[trigger] rs@[j])@ == start[j],
            forall|j: int|
                0 <= j < k ==> (#[trigger] rs@[j])@ == (if start[j] == from@ {
                    to@
                } else {
                    start[j]
                }),
        decreases rs@.len() - k,
    {
        if str_eq(rs[k].as_str(), from.as_str()) {
            rs.set(k, to.clone());
        }
        k = k + 1;
    }
    assert(string_views(rs@) =~= start.map_values(|r: Seq<char>| if r == from@ {
        to@
    } else {
        r
    }));
}

fn coord_text(out: &mut String, label: &str, before: i32, after: i32)
    ensures
        final(out)@ == old(out)@ + label@ + ": "@ + mm_text(before) + " -> "@ + mm_text(after),
{
    out.append(label);
    out.append(": ");
    write_number(out, Decimal { mantissa: before as i64, scale: 4 });
    out.append(" -> ");
    write_number(out, Decimal { mantissa: after as i64, scale: 4 });
}

fn push_text(changes: &mut Vec<String>, t: String)
    ensures
        string_views(final(changes)@) == string_views(old(changes)@).push(t@),
{
    let ghost before = changes@;
    changes.push(t);
    assert(string_views(changes@) == string_views(before).push(t@));
}

fn update_coord(before: i32, requested: Option<i32>, label: &str, changes: &mut Vec<String>) -> (r: (i32, bool))
    ensures
        r.0 == new_coord(before as int, requested),
        r.1 == snapped(requested),
        string_views(final(changes)@) == string_views(old(changes)@) + coord_change(
            label@,
            before as int,
            new_coord(before as int, requested),
        ),
{
    match requested {
        None => {
            assert(string_views(changes@) + Seq::<Seq<char>>::empty() == string_views(changes@));
            (before, false)
        },
        Some(v) => {
            let s = snap_to_grid(v);
            let e = s as i64 - v as i64;
            let sn = !(-10 <= e && e <= 10);
            let d = before as i64 - s as i64;
            if -10 <= d && d <= 10 {
                assert(string_views(changes@) + Seq::<Seq<char>>::empty() == string_views(changes@));
                (before, sn)
            } else {
                let mut t = String::new();
                coord_text(&mut t, label, before, s);
                assert(t@ == label@ + ": "@ + mm_text(before) + " -> "@ + mm_text(s));
                push_text(changes, t);
                (s, sn)
            }
        },
    }
}

proof fn lemma_turn_shift(a: int, k: int)
    requires
        k >= 0,
    ensures
        (a + 360 * k) % 360 == a % 360,
{
    assert((a + 360 * k) % 360 == a % 360) by (nonlinear_arith)
        requires
            k >= 0,
    ;
}

/// An angle in degrees brought into 0..360.
fn normalize_angle(a: i32) -> (r: i32)
    ensures
        r == (a as int) % 360,
{
    let k: i64 = 6_000_000;
    let d: i64 = a as i64 + 360 * k;
    proof {
        lemma_turn_shift(a as int, k as int);
    }
    (d % 360) as i32
}

fn update_angle(before: i32, requested: Option<i32>, changes: &mut Vec<String>) -> (r: i32)
    ensures
        r == new_angle(before as int, requested),
        string_views(final(changes)@) == string_views(old(changes)@) + (if r != before {
            seq!["angle: "@ + angle_text(before as int) + " -> "@ + angle_text(r as int)]
        } else {
            Seq::<Seq<char>>::empty()
        }),
{
    match requested {
        None => {
            assert(string_views(changes@) + Seq::<Seq<char>>::empty() == string_views(changes@));
            before
        },
        Some(a) => {
            let na = normalize_angle(a);
            if na != before {
                let mut t = String::from_str("angle: ");
                write_number(&mut t, Decimal { mantissa: before as i64, scale: 0 });
                t.append(" -> ");
                write_number(&mut t, Decimal { mantissa: na as i64, scale: 0 });
                push_text(changes, t);
            } else {
                assert(string_views(changes@) + Seq::<Seq<char>>::empty() == string_views(changes@));
            }
            na
        },
    }
}

fn same_mirror(a: Option<Mirror>, b: Option<Mirror>) -> (r: bool)
    ensures
        r == (a == b),
{
    match (a, b) {
        (None, None) => true,
        (Some(Mirror::X), Some(Mirror::X)) => true,
        (Some(Mirror::Y), Some(Mirror::Y)) => true,
        _ => false,
    }
}

fn update_mirror(before: Option<Mirror>, chosen: Option<Option<Mirror>>, changes: &mut Vec<String>) -> (r: Option<
    Mirror,
>)
    ensures
        r == (match chosen {
            Some(m) => m,
            None => before,
        }),
        string_views(final(changes)@) == string_views(old(changes)@) + (if r != before {
            seq!["mirror: "@ + mirror_text(before) + " -> "@ + mirror_text(r)]
        } else {
            Seq::<Seq<char>>::empty()
        }),
{
    match chosen {
        None => {
            assert(string_views(changes@) + Seq::<Seq<char>>::empty() == string_views(changes@));
            before
        },
        Some(m) => {
            if !same_mirror(m, before) {
                let mut t = String::from_str("mirror: ");
                push_mirror_text(&mut t, before);
                t.append(" -> ");
                push_mirror_text(&mut t, m);
                push_text(changes, t);
            } else {
                assert(string_views(changes@) + Seq::<Seq<char>>::empty() == string_views(changes@));
            }
            m
        },
    }
}

fn any_has_ref(cs: &Vec<ComponentState>, r: &str) -> (b: bool)
    ensures
        b == exists|k: int| 0 <= k < cs@.len() && has_ref(#[trigger] cs@[k], r@),
{
    let mut k: usize = 0;
    while k < cs.len()
        invariant
            k <= cs@.len(),
            forall|j: int| 0 <= j < k ==> !has_ref(#[trigger] cs@[j], r@),
        decreases cs@.len() - k,
    {
        if has_ref_exec(&cs[k], r) {
            return true;
        }
        k = k + 1;
    }
    false
}

/// Rename and revalue a component's properties and instances, recording the changes.
fn update_names(c: &mut ComponentState, u: &ComponentUpdate, changes: &mut Vec<String>)
    ensures
        props_view(final(c).properties@) == new_props(*old(c), *u),
        string_views(final(c).instance_refs@) == new_instance_refs(*old(c), *u),
        final(c).x == old(c).x,
        final(c).y == old(c).y,
        final(c).angle == old(c).angle,
        final(c).mirror == old(c).mirror,
        string_views(final(changes)@) == string_views(old(changes)@) + reference_change(*old(c), *u)
            + value_change(*old(c), *u),
{
    let ghost c0 = *c;
    let ghost ch0 = string_views(changes@);
    let ghost p0 = props_view(c.properties@);
    proof {
        lemma_first_named(p0, "Reference"@, 0);
    }
    let renaming = match &u.new_reference {
        Some(n) => !str_eq(n.as_str(), u.reference.as_str()),
        None => false,
    };
    assert(renaming == renames(*u));
    if renaming {
        let n = u.new_reference.as_ref().unwrap();
        let len = c.properties.len();
        match first_named_exec(&c.properties, "Reference") {
            Some(k) => {
                let ghost ks = first_named(p0, "Reference"@, 0).unwrap();
                assert(0 <= ks < len);
                assert(k as int == ks);
                assert(p0[ks].1 == c.properties@[k as int].1@);
                let mut t = String::from_str("reference: ");
                t.append(c.properties[k].1.as_str());
                t.append(" -> ");
                t.append(n.as_str());
                push_text(changes, t);
            },
            None => {
                assert(string_views(changes@) + Seq::<Seq<char>>::empty() == string_views(changes@));
            },
        }
        set_first_exec(&mut c.properties, "Reference", n);
        rename_instances(&mut c.instance_refs, &u.reference, n);
    } else {
        assert(string_views(changes@) + Seq::<Seq<char>>::empty() == string_views(changes@));
    }
    assert(string_views(changes@) == ch0 + reference_change(c0, *u));
    assert(props_view(c.properties@) == renamed_props(c0, *u));
    let ghost p1 = props_view(c.properties@);
    let ghost ch1 = string_views(changes@);
    proof {
        lemma_first_named(p1, "Value"@, 0);
    }
    match &u.value {
        Some(v) => {
            let len = c.properties.len();
            match first_named_exec(&c.properties, "Value") {
                Some(k) => {
                    let ghost ks = first_named(p1, "Value"@, 0).unwrap();
                    assert(0 <= ks < len);
                    assert(k as int == ks);
                    assert(p1[ks] == (c.properties@[k as int].0@, c.properties@[k as int].1@));
                    if !str_eq(c.properties[k].1.as_str(), v.as_str()) {
                        let mut t = String::from_str("value: ");
                        t.append(c.properties[k].1.as_str());
                        t.append(" -> ");
                        t.append(v.as_str());
                        push_text(changes, t);
                        set_first_exec(&mut c.properties, "Value", v);
                    } else {
                        assert(string_views(changes@) + Seq::<Seq<char>>::empty() == string_views(changes@));
                        assert(p1.update(ks, ("Value"@, v@)) =~= p1);
                    }
                },
                None => {
                    assert(string_views(changes@) + Seq::<Seq<char>>::empty() == string_views(changes@));
                },
            }
        },
        None => {
            assert(string_views(changes@) + Seq::<Seq<char>>::empty() == string_views(changes@));
        },
    }
}

/// Whether the update is refused: an unknown mirroring, or a new reference that
/// another component already has.
pub open spec fn bad_mirror(u: ComponentUpdate) -> bool {
    u.mirror matches Some(m) && mirror_choice(lowercase(m@)) is None
}

pub open spec fn taken_reference(cs: Seq<ComponentState>, u: ComponentUpdate) -> bool {
    renames(u) && exists|k: int| 0 <= k < cs.len() && has_ref(#[trigger] cs[k], u.new_reference.unwrap()@)
}

impl UpdateComponentTool {
    /// Update the first component with the given reference: move it to the requested
    /// position snapped to the 1.27 mm grid, turn it to the requested angle (brought into
    /// 0..360), mirror it (`x`, `y` or `none`, in any case), rename it (and its instance
    /// paths) unless the new reference is taken, and change its value; report the final
    /// state and what changed. Errors leave the components as they were.
    pub fn update(symbols: &mut Vec<ComponentState>, u: &ComponentUpdate) -> (r: Result<
        UpdateComponentOutput,
        ToolError,
    >)
        ensures
            match first_with_ref(old(symbols)@, u.reference@, 0) {
                None => {
                    &&& final(symbols)@ == old(symbols)@
                    &&& r matches Err(ToolError::ComponentNotFound(s))
                    &&& s@ == u.reference@
                },
                Some(i) => if bad_mirror(*u) {
                    &&& final(symbols)@ == old(symbols)@
                    &&& r matches Err(ToolError::InvalidInput(msg))
                    &&& msg@ == "Invalid mirror value '"@ + u.mirror.unwrap()@ + "'. Use 'x', 'y', or 'none'"@
                } else if taken_reference(old(symbols)@, *u) {
                    &&& final(symbols)@ == old(symbols)@
                    &&& r matches Err(ToolError::InvalidInput(msg))
                    &&& msg@ == "Reference '"@ + u.new_reference.unwrap()@ + "' already exists in schematic"@
                } else {
                    &&& r matches Ok(o)
                    &&& reported(old(symbols)@[i], *u, o)
                    &&& final(symbols)@.len() == old(symbols)@.len()
                    &&& updated(old(symbols)@[i], *u, final(symbols)@[i])
                    &&& forall|j: int| 0 <= j < old(symbols)@.len() && j != i ==> final(symbols)@[j] == old(symbols)@[j]
                },
            },
    {
        let n_symbols = symbols.len();
        let idx = match first_with_ref_exec(symbols, u.reference.as_str()) {
            Some(i) => i,
            None => return Err(ToolError::ComponentNotFound(u.reference.clone())),
        };
        let ghost i = first_with_ref(symbols@, u.reference@, 0).unwrap();
        assert(idx as int == i);
        let chosen: Option<Option<Mirror>> = match &u.mirror {
            Some(m) => match mirror_choice_exec(m) {
                Some(c) => Some(c),
                None => {
                    let mut msg = String::from_str("Invalid mirror value '");
                    msg.append(m.as_str());
                    msg.append("'. Use 'x', 'y', or 'none'");
                    return Err(ToolError::InvalidInput(msg));
                },
            },
            None => None,
        };
        match &u.new_reference {
            Some(n) => {
                if !str_eq(n.as_str(), u.reference.as_str()) && any_has_ref(symbols, n.as_str()) {
                    let mut msg = String::from_str("Reference '");
                    msg.append(n.as_str());
                    msg.append("' already exists in schematic");
                    return Err(ToolError::InvalidInput(msg));
                }
            },
            None => {},
        }
        let ghost old_symbols = symbols@;
        let mut c = symbols.remove(idx);
        let ghost c0 = c;
        let mut changes: Vec<String> = Vec::new();
        let (nx, sx) = update_coord(c.x, u.x, "x", &mut changes);
        let (ny, sy) = update_coord(c.y, u.y, "y", &mut changes);
        c.x = nx;
        c.y = ny;
        let na = update_angle(c.angle, u.angle, &mut changes);
        c.angle = na;
        let nm = update_mirror(c.mirror, chosen, &mut changes);
        c.mirror = nm;
        assert(string_views(changes@) == coord_change("x"@, c0.x as int, new_coord(c0.x as int, u.x))
            + coord_change("y"@, c0.y as int, new_coord(c0.y as int, u.y)) + angle_change(c0, *u)
            + mirror_change(c0, *u));
        let ghost c1 = c;
        update_names(&mut c, u, &mut changes);
        assert(renamed_props(c1, *u) == renamed_props(c0, *u));
        assert(new_props(c1, *u) == new_props(c0, *u));
        assert(new_instance_refs(c1, *u) == new_instance_refs(c0, *u));
        assert(reference_change(c1, *u) == reference_change(c0, *u));
        assert(value_change(c1, *u) == value_change(c0, *u));
        assert(string_views(changes@) == change_texts(c0, *u));
        let ghost ps = props_view(c.properties@);
        proof {
            lemma_first_named(ps, "Value"@, 0);
        }
        let len = c.properties.len();
        let value = match first_named_exec(&c.properties, "Value") {
            Some(k) => {
                let ghost ks = first_named(ps, "Value"@, 0).unwrap();
                assert(0 <= ks < len);
                assert(k as int == ks);
                c.properties[k].1.clone()
            },
            None => String::new(),
        };
        let reference = match &u.new_reference {
            Some(n) => if !str_eq(n.as_str(), u.reference.as_str()) {
                n.clone()
            } else {
                u.reference.clone()
            },
            None => u.reference.clone(),
        };
        let out = UpdateComponentOutput {
            reference,
            x: c.x,
            y: c.y,
            angle: c.angle,
            value,
            was_snapped: sx || sy,
            changes,
        };
        symbols.insert(idx, c);
        assert(symbols@ == old_symbols.remove(i).insert(i, c));
        assert forall|j: int| 0 <= j < old_symbols.len() && j != i implies symbols@[j] == old_symbols[j] by {
            if j < i {
                assert(symbols@[j] == old_symbols.remove(i)[j]);
            } else {
                assert(symbols@[j] == old_symbols.remove(i)[j - 1]);
            }
        }
        Ok(out)
    }
}

/// An update's mirror request sets the component's mirroring to the axis it names,
/// in any case: `x` to X, `y` to Y, `none` to no mirroring.
pub proof fn lemma_update_mirrors_as_named(c: ComponentState, u: ComponentUpdate, r: ComponentState)
    requires
        updated(c, u, r),
        u.mirror is Some,
    ensures
        lowercase(u.mirror.unwrap()@) == "y"@ ==> r.mirror == Some(Mirror::Y),
        lowercase(u.mirror.unwrap()@) == "x"@ ==> r.mirror == Some(Mirror::X),
        lowercase(u.mirror.unwrap()@) == "none"@ ==> r.mirror is None,
{
    reveal_strlit("x");
    reveal_strlit("y");
    reveal_strlit("none");
    assert("x"@[0] != "y"@[0]);
    assert("none"@.len() == 4 && "x"@.len() == 1 && "y"@.len() == 1);
}

/// Without a mirror request the mirroring stays as it was.
pub proof fn lemma_update_keeps_mirroring(c: ComponentState, u: ComponentUpdate, r: ComponentState)
    requires
        updated(c, u, r),
        u.mirror is None,
    ensures
        r.mirror == c.mirror,
{
}

} // verus!
