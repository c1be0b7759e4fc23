//! Deleting a placed component together with the wires and labels at its pins.
use vstd::prelude::*;
use crate::commands::{CommandError, DeleteComponentCommand};
use crate::label_edit::{PlacedLabel, LABEL_TOLERANCE};
use crate::outline_nets::GridPoint;
use crate::text::str_eq;

verus! {

/// A pin of a placed component: its number, its name, where a wire attaches to it, and
/// the direction it points on the sheet (degrees).
#[derive(Debug, Clone)]
pub struct PlacedPin {
    pub number: String,
    pub name: String,
    pub position: GridPoint,
    pub angle: i32,
}

/// A placed component as editing sees it: its properties, its library symbol, its
/// pins (every pin of its library symbol as embedded in the schematic, in the
/// symbol's order; none when the symbol is not embedded), and the pin numbers that
/// the placed instance itself lists.
#[derive(Debug, Clone)]
pub struct PlacedComponent {
    pub properties: Vec<(String, String)>,
    pub lib_id: String,
    pub pins: Vec<PlacedPin>,
    pub instance_pins: Vec<String>,
}

/// The parts of a schematic that editing components and connections works on.
#[derive(Debug, Clone)]
pub struct SchematicItems {
    /// Names of the library symbols embedded in the schematic
    pub lib_symbols: Vec<String>,
    pub components: Vec<PlacedComponent>,
    pub wires: Vec<Vec<GridPoint>>,
    pub labels: Vec<PlacedLabel>,
    pub global_labels: Vec<PlacedLabel>,
    pub junctions: Vec<GridPoint>,
}

/// Where the pins attach, in order.
pub open spec fn pin_points(ps: Seq<PlacedPin>) -> Seq<GridPoint> {
    ps.map_values(|p: PlacedPin| p.position)
}

/// Whether a component has the reference `r`: a `Reference` property of that value.
pub open spec fn has_reference(c: PlacedComponent, r: Seq<char>) -> bool {
    exists|k: int|
        0 <= k < c.properties@.len() && #[trigger] c.properties@[k].0@ == "Reference"@
            && c.properties@[k].1@ == r
}

/// The first component from `k` on with reference `r`.
pub open spec fn first_with_reference(cs: Seq<PlacedComponent>, r: Seq<char>, k: int) -> Option<int>
    decreases cs.len() - k,
{
    if k < 0 || k >= cs.len() {
        None
    } else if has_reference(cs[k], r) {
        Some(k)
    } else {
        first_with_reference(cs, r, k + 1)
    }
}

/// Two positions within a tenth of a millimetre on each axis.
pub open spec fn at_pin(a: GridPoint, p: GridPoint) -> bool {
    -LABEL_TOLERANCE < a.x - p.x < LABEL_TOLERANCE && -LABEL_TOLERANCE < a.y - p.y < LABEL_TOLERANCE
}

pub open spec fn at_any_pin(a: GridPoint, pins: Seq<GridPoint>) -> bool {
    exists|k: int| 0 <= k < pins.len() && at_pin(a, #[trigger] pins[k])
}

/// The labels that stay: those not at any of the pins, in order.
pub open spec fn labels_kept(ls: Seq<PlacedLabel>, pins: Seq<GridPoint>) -> Seq<PlacedLabel>
    decreases ls.len(),
{
    if ls.len() == 0 {
        Seq::empty()
    } else {
        labels_kept(ls.drop_last(), pins) + if at_any_pin(ls.last().position, pins) {
            Seq::<PlacedLabel>::empty()
        } else {
            seq![ls.last()]
        }
    }
}

/// Whether a wire stays: it has no point, or neither of its ends is at a pin.
pub open spec fn wire_stays(w: Seq<GridPoint>, pins: Seq<GridPoint>) -> bool {
    w.len() == 0 || (!at_any_pin(w[0], pins) && !at_any_pin(w.last(), pins))
}

/// The wires that stay, in order.
pub open spec fn wires_kept(ws: Seq<Vec<GridPoint>>, pins: Seq<GridPoint>) -> Seq<Vec<GridPoint>>
    decreases ws.len(),
{
    if ws.len() == 0 {
        Seq::empty()
    } else {
        wires_kept(ws.drop_last(), pins) + if wire_stays(ws.last()@, pins) {
            seq![ws.last()]
        } else {
            Seq::<Vec<GridPoint>>::empty()
        }
    }
}

/// The library symbols that stay: all of them while a component still uses `lib_id`,
/// else all but those named `lib_id`.
pub open spec fn lib_symbols_kept(names: Seq<String>, lib_id: Seq<char>, still_used: bool) -> Seq<String>
    decreases names.len(),
{
    if still_used || names.len() == 0 {
        names
    } else {
        lib_symbols_kept(names.drop_last(), lib_id, still_used) + if names.last()@ == lib_id {
            Seq::<String>::empty()
        } else {
            seq![names.last()]
        }
    }
}

/// The schematic after deleting the component at index `i`.
pub open spec fn after_deleting(s: SchematicItems, i: int, result: SchematicItems) -> bool {
    let c = s.components@[i];
    let pins = pin_points(c.pins@);
    let rest = s.components@.remove(i);
    let still_used = exists|k: int| 0 <= k < rest.len() && (#[trigger] rest[k]).lib_id@ == c.lib_id@;
    &&& result.components@ == rest
    &&& result.lib_symbols@ == lib_symbols_kept(s.lib_symbols@, c.lib_id@, still_used)
    &&& result.labels@ == labels_kept(s.labels@, pins)
    &&& result.global_labels@ == labels_kept(s.global_labels@, pins)
    &&& result.wires@ == wires_kept(s.wires@, pins)
    &&& result.junctions@ == s.junctions@
}

pub(crate) fn has_reference_exec(c: &PlacedComponent, r: &str) -> (b: bool)
    ensures
        b == has_reference(*c, r@),
{
    let mut k: usize = 0;
    while k < c.properties.len()
        invariant
            k <= c.properties@.len(),
            forall|j: int|
                0 <= j < k ==> !(#[trigger] c.properties@[j].0@ == "Reference"@ && c.properties@[j].1@
                    == r@),
        decreases c.properties@.len() - k,
    {
        if str_eq(c.properties[k].0.as_str(), "Reference") && str_eq(c.properties[k].1.as_str(), r) {
            return true;
        }
        k = k + 1;
    }
    false
}

fn pin_points_exec(ps: &Vec<PlacedPin>) -> (r: Vec<GridPoint>)
    ensures
        r@ == pin_points(ps@),
{
    let mut r: Vec<GridPoint> = Vec::new();
    let mut k: usize = 0;
    while k < ps.len()
        invariant
            k <= ps@.len(),
            r@ == pin_points(ps@.take(k as int)),
        decreases ps@.len() - k,
    {
        assert(ps@.take(k + 1) == ps@.take(k as int).push(ps@[k as int]));
        r.push(ps[k].position);
        k = k + 1;
    }
    assert(ps@.take(ps@.len() as int) == ps@);
    r
}

fn at_any_pin_exec(a: GridPoint, pins: &Vec<GridPoint>) -> (b: bool)
    ensures
        b == at_any_pin(a, pins@),
{
    let mut k: usize = 0;
    while k < pins.len()
        invariant
            k <= pins@.len(),
            forall|j: int| 0 <= j < k ==> !at_pin(a, #[trigger] pins@[j]),
        decreases pins@.len() - k,
    {
        let p = pins[k];
        let dx = a.x as i64 - p.x as i64;
        let dy = a.y as i64 - p.y as i64;
        if -LABEL_TOLERANCE < dx && dx < LABEL_TOLERANCE && -LABEL_TOLERANCE < dy && dy < LABEL_TOLERANCE {
            assert(at_pin(a, pins@[k as int]));
            return true;
        }
        k = k + 1;
    }
    false
}

fn keep_labels(ls: Vec<PlacedLabel>, pins: &Vec<GridPoint>) -> (r: Vec<PlacedLabel>)
    ensures
        r@ == labels_kept(ls@, pins@),
{
    let ghost all = ls@;
    let mut rest = ls;
    let mut out: Vec<PlacedLabel> = Vec::new();
    let ghost mut k: int = 0;
    assert(all.take(0) == Seq::<PlacedLabel>::empty());
    while rest.len() > 0
        invariant
            0 <= k <= all.len(),
            rest@ == all.skip(k),
            out@ == labels_kept(all.take(k), pins@),
        decreases rest@.len(),
    {
        let x = rest.remove(0);
        proof {
            assert(all.skip(k)[0] == all[k]);
            assert(rest@ =~= all.skip(k + 1));
            assert(all.take(k + 1).drop_last() == all.take(k));
            assert(all.take(k + 1).last() == all[k]);
            k = k + 1;
        }
        if !at_any_pin_exec(x.position, pins) {
            out.push(x);
        }
    }
    assert(all.take(all.len() as int) == all);
    out
}

fn keep_wires(ws: Vec<Vec<GridPoint>>, pins: &Vec<GridPoint>) -> (r: Vec<Vec<GridPoint>>)
    ensures
        r@ == wires_kept(ws@, pins@),
{
    let ghost all = ws@;
    let mut rest = ws;
    let mut out: Vec<Vec<GridPoint>> = Vec::new();
    let ghost mut k: int = 0;
    assert(all.take(0) == Seq::<Vec<GridPoint>>::empty());
    while rest.len() > 0
        invariant
            0 <= k <= all.len(),
            rest@ == all.skip(k),
            out@ == wires_kept(all.take(k), pins@),
        decreases rest@.len(),
    {
        let w = rest.remove(0);
        proof {
            assert(all.skip(k)[0] == all[k]);
            assert(rest@ =~= all.skip(k + 1));
            assert(all.take(k + 1).drop_last() == all.take(k));
            assert(all.take(k + 1).last() == all[k]);
            k = k + 1;
        }
        let n = w.len();
        let stays = n == 0 || (!at_any_pin_exec(w[0], pins) && !at_any_pin_exec(w[n - 1], pins));
        if stays {
            out.push(w);
        }
    }
    assert(all.take(all.len() as int) == all);
    out
}

fn keep_lib_symbols(names: Vec<String>, lib_id: &String) -> (r: Vec<String>)
    ensures
        r@ == lib_symbols_kept(names@, lib_id@, false),
{
    let ghost all = names@;
    let mut rest = names;
    let mut out: Vec<String> = Vec::new();
    let ghost mut k: int = 0;
    assert(all.take(0) == Seq::<String>::empty());
    while rest.len() > 0
        invariant
            0 <= k <= all.len(),
            rest@ == all.skip(k),
            out@ == lib_symbols_kept(all.take(k), lib_id@, false),
        decreases rest@.len(),
    {
        let x = rest.remove(0);
        proof {
            assert(all.skip(k)[0] == all[k]);
            assert(rest@ =~= all.skip(k + 1));
            assert(all.take(k + 1).drop_last() == all.take(k));
            assert(all.take(k + 1).last() == all[k]);
            k = k + 1;
        }
        if !str_eq(x.as_str(), lib_id.as_str()) {
            out.push(x);
        }
    }
    assert(all.take(all.len() as int) == all);
    out
}

/// The first pin from `k` on whose number or name is `key`.
pub open spec fn pin_index(ps: Seq<PlacedPin>, key: Seq<char>, k: int) -> Option<int>
    decreases ps.len() - k,
{
    if k < 0 || k >= ps.len() {
        None
    } else if ps[k].number@ == key || ps[k].name@ == key {
        Some(k)
    } else {
        pin_index(ps, key, k + 1)
    }
}

/// Where the pin numbered or named `key` attaches: the first such pin.
pub open spec fn pin_point(ps: Seq<PlacedPin>, key: Seq<char>) -> Option<GridPoint> {
    match pin_index(ps, key, 0) {
        Some(i) => Some(ps[i].position),
        None => None,
    }
}

impl PlacedComponent {
    /// The first pin numbered or named `pin`.
    pub fn find_pin(&self, pin: &str) -> (r: Option<&PlacedPin>)
        ensures
            match pin_index(self.pins@, pin@, 0) {
                Some(k) => r == Some(&self.pins@[k]),
                None => r is None,
            },
    {
        let mut k: usize = 0;
        while k < self.pins.len()
            invariant
                k <= self.pins@.len(),
                pin_index(self.pins@, pin@, 0) == pin_index(self.pins@, pin@, k as int),
            decreases self.pins@.len() - k,
        {
            if str_eq(self.pins[k].number.as_str(), pin) || str_eq(self.pins[k].name.as_str(), pin) {
                return Some(&self.pins[k]);
            }
            k = k + 1;
        }
        None
    }

    /// Where the pin numbered or named `pin` attaches: the first such pin.
    pub fn pin_position(&self, pin: &str) -> (r: Option<GridPoint>)
        ensures
            r == pin_point(self.pins@, pin@),
    {
        match self.find_pin(pin) {
            Some(p) => Some(p.position),
            None => None,
        }
    }
}

impl SchematicItems {
    /// Where pin `pin` of `symbol` attaches and the direction it points: its first pin of
    /// that number or name.
    pub fn get_pin_position(&self, symbol: &PlacedComponent, pin: &str) -> (r: Option<(GridPoint, i32)>)
        ensures
            match pin_index(symbol.pins@, pin@, 0) {
                Some(k) => r == Some((symbol.pins@[k].position, symbol.pins@[k].angle)),
                None => r is None,
            },
    {
        match symbol.find_pin(pin) {
            Some(p) => Some((p.position, p.angle)),
            None => None,
        }
    }

    /// Where each pin of `symbol` attaches and the direction it points, in order.
    pub fn get_all_pin_positions(&self, symbol: &PlacedComponent) -> (r: Vec<(GridPoint, i32)>)
        ensures
            r@ == symbol.pins@.map_values(|p: PlacedPin| (p.position, p.angle)),
    {
        let mut out: Vec<(GridPoint, i32)> = Vec::new();
        let mut k: usize = 0;
        while k < symbol.pins.len()
            invariant
                k <= symbol.pins@.len(),
                out@ == symbol.pins@.take(k as int).map_values(|p: PlacedPin| (p.position, p.angle)),
            decreases symbol.pins@.len() - k,
        {
            out.push((symbol.pins[k].position, symbol.pins[k].angle));
            assert(symbol.pins@.take(k + 1) == symbol.pins@.take(k as int).push(symbol.pins@[k as int]));
            k = k + 1;
        }
        assert(symbol.pins@.take(symbol.pins@.len() as int) == symbol.pins@);
        out
    }

    /// The first component with reference `reference`.
    pub fn find_symbol_by_reference(&self, reference: &str) -> (r: Option<&PlacedComponent>)
        ensures
            match first_with_reference(self.components@, reference@, 0) {
                Some(i) => r == Some(&self.components@[i]),
                None => r is None,
            },
    {
        let mut k: usize = 0;
        while k < self.components.len()
            invariant
                k <= self.components@.len(),
                first_with_reference(self.components@, reference@, 0) == first_with_reference(
                    self.components@,
                    reference@,
                    k as int,
                ),
            decreases self.components@.len() - k,
        {
            if has_reference_exec(&self.components[k], reference) {
                return Some(&self.components[k]);
            }
            k = k + 1;
        }
        None
    }
}

/// Where pin `pin` of the first component with reference `reference` attaches.
pub open spec fn pin_endpoint_point(items: SchematicItems, reference: Seq<char>, pin: Seq<char>) -> Option<
    GridPoint,
> {
    match first_with_reference(items.components@, reference, 0) {
        Some(i) => pin_point(items.components@[i].pins@, pin),
        None => None,
    }
}

/// The error for a pin endpoint that lies nowhere: `SymbolNotFound` when no component
/// has the reference, `PinNotFound` when it has no such pin.
pub open spec fn pin_endpoint_error(items: SchematicItems, reference: Seq<char>, pin: Seq<char>, e: CommandError) -> bool {
    match first_with_reference(items.components@, reference, 0) {
        None => e matches CommandError::SymbolNotFound(s) && s@ == reference,
        Some(_) => e matches CommandError::PinNotFound { reference: a, pin: b } && a@ == reference && b@
            == pin,
    }
}

/// Where pin `pin` of the component with reference `reference` attaches, or why it
/// lies nowhere.
pub fn resolve_endpoint(items: &SchematicItems, reference: &str, pin: &str) -> (r: Result<GridPoint, CommandError>)
    ensures
        match pin_endpoint_point(*items, reference@, pin@) {
            Some(p) => r == Ok::<GridPoint, CommandError>(p),
            None => r matches Err(e) && pin_endpoint_error(*items, reference@, pin@, e),
        },
{
    match items.find_symbol_by_reference(reference) {
        Some(c) => match c.pin_position(pin) {
            Some(p) => Ok(p),
            None => Err(
                CommandError::PinNotFound { reference: String::from_str(reference), pin: String::from_str(pin) },
            ),
        },
        None => Err(CommandError::SymbolNotFound(String::from_str(reference))),
    }
}

impl SchematicItems {
    /// Delete the first component with reference `reference`, with the labels (local and
    /// global) within a tenth of a millimetre of its pins, the wires with an end there,
    /// and its library symbol when no other component uses it. Returns whether a
    /// component was found; nothing changes when none was.
    pub fn delete_symbol(&mut self, reference: &str) -> (found: bool)
        ensures
            found == (first_with_reference(old(self).components@, reference@, 0) is Some),
            match first_with_reference(old(self).components@, reference@, 0) {
                Some(i) => after_deleting(*old(self), i, *final(self)),
                None => *final(self) == *old(self),
            },
    {
        let ghost cs = self.components@;
        let mut idx: usize = 0;
        let mut found = false;
        while idx < self.components.len()
            invariant_except_break
                !found,
            invariant
                idx <= cs.len(),
                cs == self.components@,
                first_with_reference(cs, reference@, 0) == first_with_reference(cs, reference@, idx as int),
            ensures
                idx <= cs.len(),
                first_with_reference(cs, reference@, 0) == first_with_reference(cs, reference@, idx as int),
                found ==> idx < cs.len() && has_reference(cs[idx as int], reference@),
                !found ==> idx == cs.len(),
            decreases cs.len() - idx,
        {
            if has_reference_exec(&self.components[idx], reference) {
                found = true;
                break;
            }
            idx = idx + 1;
        }
        if !found {
            return false;
        }
        let ghost old_self = *self;
        let removed = self.components.remove(idx);
        let mut still_used = false;
        let mut k: usize = 0;
        while k < self.components.len()
            invariant
                k <= self.components@.len(),
                still_used == exists|j: int| 0 <= j < k && (#[trigger] self.components@[j]).lib_id@ == removed.lib_id@,
            decreases self.components@.len() - k,
        {
            if str_eq(self.components[k].lib_id.as_str(), removed.lib_id.as_str()) {
                still_used = true;
            }
            k = k + 1;
        }
        if !still_used {
            let mut names = Vec::new();
        std::mem::swap(&mut names, &mut self.lib_symbols);
            self.lib_symbols = keep_lib_symbols(names, &removed.lib_id);
        }
        let positions = pin_points_exec(&removed.pins);
        let mut labels = Vec::new();
        std::mem::swap(&mut labels, &mut self.labels);
        self.labels = keep_labels(labels, &positions);
        let mut global_labels = Vec::new();
        std::mem::swap(&mut global_labels, &mut self.global_labels);
        self.global_labels = keep_labels(global_labels, &positions);
        let mut wires = Vec::new();
        std::mem::swap(&mut wires, &mut self.wires);
        self.wires = keep_wires(wires, &positions);
        true
    }
}

impl DeleteComponentCommand {
    /// Delete the component; `SymbolNotFound` with the reference when no component has
    /// it, in which case nothing changes.
    pub fn execute(self, items: &mut SchematicItems) -> (r: Result<(), CommandError>)
        ensures
            match first_with_reference(old(items).components@, self.reference@, 0) {
                Some(i) => r is Ok && after_deleting(*old(items), i, *final(items)),
                None => {
                    &&& *final(items) == *old(items)
                    &&& r matches Err(CommandError::SymbolNotFound(name))
                    &&& name@ == self.reference@
                },
            },
    {
        if !items.delete_symbol(self.reference.as_str()) {
            return Err(CommandError::SymbolNotFound(self.reference));
        }
        Ok(())
    }
}

/// After a component is deleted, the labels that stay are exactly those that were not
/// at one of its pins, and every wire that stays has no end there.
pub proof fn lemma_nothing_left_at_deleted_pins(ls: Seq<PlacedLabel>, ws: Seq<Vec<GridPoint>>, pins: Seq<GridPoint>)
    ensures
        forall|l: PlacedLabel|
            #[trigger] labels_kept(ls, pins).contains(l) <==> (ls.contains(l) && !at_any_pin(l.position, pins)),
        forall|k: int|
            0 <= k < wires_kept(ws, pins).len() ==> wire_stays(#[trigger] wires_kept(ws, pins)[k]@, pins),
    decreases ls.len() + ws.len(),
{
    if ls.len() > 0 {
        lemma_nothing_left_at_deleted_pins(ls.drop_last(), Seq::empty(), pins);
        let prev = labels_kept(ls.drop_last(), pins);
        let x = ls.last();
        assert forall|l: PlacedLabel| #[trigger] labels_kept(ls, pins).contains(l) <==> (ls.contains(l)
            && !at_any_pin(l.position, pins)) by {
            let cur = labels_kept(ls, pins);
            if cur.contains(l) {
                let t = choose|t: int| 0 <= t < cur.len() && cur[t] == l;
                if t < prev.len() {
                    assert(prev[t] == l);
                    assert(prev.contains(l));
                    let u = choose|u: int| 0 <= u < ls.drop_last().len() && ls.drop_last()[u] == l;
                    assert(ls[u] == l);
                } else {
                    assert(l == x);
                    assert(ls[ls.len() - 1] == l);
                }
            }
            if ls.contains(l) && !at_any_pin(l.position, pins) {
                let u = choose|u: int| 0 <= u < ls.len() && ls[u] == l;
                if u < ls.len() - 1 {
                    assert(ls.drop_last()[u] == l);
                    assert(ls.drop_last().contains(l));
                    assert(prev.contains(l));
                    let t = choose|t: int| 0 <= t < prev.len() && prev[t] == l;
                    assert(cur[t] == l);
                } else {
                    assert(cur[prev.len() as int] == l);
                }
            }
        }
    }
    if ws.len() > 0 {
        lemma_nothing_left_at_deleted_pins(Seq::empty(), ws.drop_last(), pins);
        let prev = wires_kept(ws.drop_last(), pins);
        assert forall|k: int| 0 <= k < wires_kept(ws, pins).len() implies wire_stays(
            #[trigger] wires_kept(ws, pins)[k]@,
            pins,
        ) by {
            if k < prev.len() {
                assert(wires_kept(ws, pins)[k] == prev[k]);
            }
        }
    }
}

} // verus!
