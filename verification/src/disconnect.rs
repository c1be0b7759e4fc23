//! Removing the connection between two endpoints: the wires that join them, the
//! junctions left without a purpose, and the net labels placed for them.
use vstd::prelude::*;
use crate::commands::{CommandError, DisconnectCommand, DisconnectOutput};
use crate::component_edit::{
    pin_endpoint_error, pin_endpoint_point, pin_point, resolve_endpoint, PlacedComponent,
    SchematicItems,
};
use crate::endpoint::{parse_endpoint_spec, ConnectionEndpoint, EndpointView};
use crate::label_edit::{
    delete_label, first_label_match, first_label_match_exec, label_to_delete, label_views,
    LabelDeletion, PlacedLabel,
};
use crate::outline_nets::GridPoint;
use crate::text::trim;
use crate::wire_edit::{
    lemma_snap_lands_on_grid, routed_points, snap_point, snap_spec, sq_dist, wire_near, wire_near_exec,
    WIRE_TOLERANCE_SQ, GRID_STEP,
};
use crate::schematic::RoutingMode;

verus! {

/// A junction counts a wire or a pin as meeting it closer than 0.1 mm: the square of
/// that distance in grid units.
pub const JUNCTION_TOLERANCE_SQ: i128 = 1_000_000;

/// Two points closer than 1.27 mm (one grid step).
pub open spec fn near(a: GridPoint, b: GridPoint) -> bool {
    sq_dist(a, b) < WIRE_TOLERANCE_SQ
}

/// Two points closer than 0.1 mm.
pub open spec fn close(a: GridPoint, b: GridPoint) -> bool {
    sq_dist(a, b) < JUNCTION_TOLERANCE_SQ
}

/// Whether a wire passes through `p`: one of its points or one of its segments lies
/// closer than 1.27 mm to it.
pub open spec fn passes_through(w: Seq<GridPoint>, p: GridPoint) -> bool {
    (exists|i: int| 0 <= i < w.len() && near(#[trigger] w[i], p)) || wire_near(w, p)
}

/// Whether a wire joins `a` and `b`: it has two points or more, and either runs from
/// one to the other (in either direction) or passes through both.
pub open spec fn links(w: Seq<GridPoint>, a: GridPoint, b: GridPoint) -> bool {
    &&& w.len() >= 2
    &&& {
        ||| near(w[0], a) && near(w.last(), b)
        ||| near(w[0], b) && near(w.last(), a)
        ||| passes_through(w, a) && passes_through(w, b)
    }
}

/// The wires that do not join `a` and `b`, in order.
pub open spec fn wires_not_linking(ws: Seq<Vec<GridPoint>>, a: GridPoint, b: GridPoint) -> Seq<
    Vec<GridPoint>,
>
    decreases ws.len(),
{
    if ws.len() == 0 {
        Seq::empty()
    } else {
        let r = wires_not_linking(ws.drop_last(), a, b);
        if links(ws.last()@, a, b) {
            r
        } else {
            r.push(ws.last())
        }
    }
}

/// Whether one of the wire's points lies closer than 0.1 mm to `j`.
pub open spec fn touches(w: Seq<GridPoint>, j: GridPoint) -> bool {
    exists|i: int| 0 <= i < w.len() && close(#[trigger] w[i], j)
}

/// How many of the wires touch `j`.
pub open spec fn wires_touching(ws: Seq<Vec<GridPoint>>, j: GridPoint) -> nat
    decreases ws.len(),
{
    if ws.len() == 0 {
        0
    } else {
        wires_touching(ws.drop_last(), j) + if touches(ws.last()@, j) {
            1nat
        } else {
            0nat
        }
    }
}

/// A junction keeps its purpose where three wires or more still meet it, or where it
/// lies on a pin.
pub open spec fn junction_stays(j: GridPoint, ws: Seq<Vec<GridPoint>>, pins: Seq<GridPoint>) -> bool {
    wires_touching(ws, j) >= 3 || exists|k: int| 0 <= k < pins.len() && close(#[trigger] pins[k], j)
}

/// The junctions that keep their purpose, in order.
pub open spec fn junctions_kept(js: Seq<GridPoint>, ws: Seq<Vec<GridPoint>>, pins: Seq<GridPoint>) -> Seq<
    GridPoint,
>
    decreases js.len(),
{
    if js.len() == 0 {
        Seq::empty()
    } else {
        let r = junctions_kept(js.drop_last(), ws, pins);
        if junction_stays(js.last(), ws, pins) {
            r.push(js.last())
        } else {
            r
        }
    }
}

/// Where the first `k` pins that a placed instance lists attach, each looked up by its
/// number; a number that no pin has gives no point.
pub open spec fn listed_pin_points(c: PlacedComponent, k: int) -> Seq<GridPoint>
    decreases k,
{
    if k <= 0 || k > c.instance_pins@.len() {
        Seq::empty()
    } else {
        listed_pin_points(c, k - 1) + match pin_point(c.pins@, c.instance_pins@[k - 1]@) {
            Some(p) => seq![p],
            None => Seq::empty(),
        }
    }
}

/// Where the pins that the first `k` components list attach.
pub open spec fn all_pin_points(cs: Seq<PlacedComponent>, k: int) -> Seq<GridPoint>
    decreases k,
{
    if k <= 0 || k > cs.len() {
        Seq::empty()
    } else {
        all_pin_points(cs, k - 1) + listed_pin_points(cs[k - 1], cs[k - 1].instance_pins@.len() as int)
    }
}

/// The position of the first label named `name`, local labels first.
pub open spec fn net_label_point(items: SchematicItems, name: Seq<char>) -> Option<GridPoint> {
    match first_label_match(label_views(items.labels@), name, None, 0) {
        Some(i) => Some(items.labels@[i].position),
        None => match first_label_match(label_views(items.global_labels@), name, None, 0) {
            Some(j) => Some(items.global_labels@[j].position),
            None => None,
        },
    }
}

/// Where an endpoint lies: a pin where it attaches on the first component with its
/// reference, a net where its first label lies.
pub open spec fn endpoint_point(ep: EndpointView, items: SchematicItems) -> Option<GridPoint> {
    match ep {
        EndpointView::Pin { reference, pin } => pin_endpoint_point(items, reference, pin),
        EndpointView::Net(name) => net_label_point(items, name),
    }
}

/// The error for an endpoint that lies nowhere: no component with the reference, no
/// such pin on it, or no label of the net.
pub open spec fn endpoint_error(ep: EndpointView, items: SchematicItems, e: CommandError) -> bool {
    match ep {
        EndpointView::Pin { reference, pin } => pin_endpoint_error(items, reference, pin, e),
        EndpointView::Net(name) => e matches CommandError::Other(m) && m@ == "Net label '"@ + name
            + "' not found"@,
    }
}

/// The labels after deleting, for a net endpoint, its label at `at` (the one that
/// `delete_label` picks), with how many were deleted; a pin endpoint deletes none.
pub open spec fn labels_after(
    ls: Seq<PlacedLabel>,
    gs: Seq<PlacedLabel>,
    ep: EndpointView,
    at: GridPoint,
) -> (Seq<PlacedLabel>, Seq<PlacedLabel>, nat) {
    match ep {
        EndpointView::Net(name) => match label_to_delete(label_views(ls), label_views(gs), name, Some(at)) {
            Some(LabelDeletion::Local(i)) => (ls.remove(i as int), gs, 1nat),
            Some(LabelDeletion::Global(j)) => (ls, gs.remove(j as int), 1nat),
            None => (ls, gs, 0nat),
        },
        EndpointView::Pin { .. } => (ls, gs, 0nat),
    }
}

/// The message for a text that denotes no endpoint.
pub open spec fn invalid_endpoint_message(t: Seq<char>) -> Seq<char> {
    "Invalid endpoint '"@ + t + "'. Use 'REF:PIN' for pins or '&NET' for net labels"@
}

/// Two schematics hold the same items.
pub open spec fn same_items(a: SchematicItems, b: SchematicItems) -> bool {
    &&& a.lib_symbols@ == b.lib_symbols@
    &&& a.components@ == b.components@
    &&& a.wires@ == b.wires@
    &&& a.labels@ == b.labels@
    &&& a.global_labels@ == b.global_labels@
    &&& a.junctions@ == b.junctions@
}

/// Disconnecting the endpoints `v1` at `p1` and `v2` at `p2` takes `s` to `t` with
/// result `r`: the wires that join the two points go; if any went, so do the junctions
/// where fewer than three wires still meet and no pin lies; a net endpoint loses its
/// label at the other endpoint's position. When nothing went, `NoConnection`'s message
/// is the error and nothing changed.
pub open spec fn disconnected(
    v1: EndpointView,
    v2: EndpointView,
    p1: GridPoint,
    p2: GridPoint,
    s: SchematicItems,
    t: SchematicItems,
    r: Result<DisconnectOutput, CommandError>,
) -> bool {
    let ws = wires_not_linking(s.wires@, p1, p2);
    let removed = s.wires@.len() - ws.len();
    let first = labels_after(s.labels@, s.global_labels@, v1, p2);
    let second = labels_after(first.0, first.1, v2, p1);
    let labels_removed = first.2 + second.2;
    if removed == 0 && labels_removed == 0 {
        &&& same_items(t, s)
        &&& r matches Err(CommandError::Other(m))
        &&& m@ == "No connection found between the specified endpoints"@
    } else {
        let js = if removed > 0 {
            junctions_kept(s.junctions@, ws, all_pin_points(s.components@, s.components@.len() as int))
        } else {
            s.junctions@
        };
        &&& t.lib_symbols@ == s.lib_symbols@
        &&& t.components@ == s.components@
        &&& t.wires@ == ws
        &&& t.junctions@ == js
        &&& t.labels@ == second.0
        &&& t.global_labels@ == second.1
        &&& r matches Ok(o)
        &&& o.wires_removed == removed
        &&& o.junctions_removed == s.junctions@.len() - js.len()
        &&& o.labels_removed == labels_removed
    }
}

/// What disconnecting the endpoint texts `e1` and `e2` does to `s`, giving `t` and
/// `r`: a text that denotes no endpoint, then an endpoint that lies nowhere, is the
/// error (first endpoint first) and changes nothing; otherwise as `disconnected`.
pub open spec fn disconnect_outcome(
    e1: Seq<char>,
    e2: Seq<char>,
    s: SchematicItems,
    t: SchematicItems,
    r: Result<DisconnectOutput, CommandError>,
) -> bool {
    match parse_endpoint_spec(e1) {
        None => {
            &&& same_items(t, s)
            &&& r matches Err(CommandError::Other(m))
            &&& m@ == invalid_endpoint_message(trim(e1))
        },
        Some(v1) => match parse_endpoint_spec(e2) {
            None => {
                &&& same_items(t, s)
                &&& r matches Err(CommandError::Other(m))
                &&& m@ == invalid_endpoint_message(trim(e2))
            },
            Some(v2) => match endpoint_point(v1, s) {
                None => {
                    &&& same_items(t, s)
                    &&& r matches Err(e)
                    &&& endpoint_error(v1, s, e)
                },
                Some(p1) => match endpoint_point(v2, s) {
                    None => {
                        &&& same_items(t, s)
                        &&& r matches Err(e)
                        &&& endpoint_error(v2, s, e)
                    },
                    Some(p2) => disconnected(v1, v2, p1, p2, s, t, r),
                },
            },
        },
    }
}

proof fn lemma_not_linking_len(ws: Seq<Vec<GridPoint>>, a: GridPoint, b: GridPoint)
    ensures
        wires_not_linking(ws, a, b).len() <= ws.len(),
        wires_not_linking(ws, a, b).len() == ws.len() ==> wires_not_linking(ws, a, b) == ws,
    decreases ws.len(),
{
    if ws.len() > 0 {
        lemma_not_linking_len(ws.drop_last(), a, b);
        assert(ws.drop_last().push(ws.last()) =~= ws);
    }
}

proof fn lemma_junctions_kept_len(js: Seq<GridPoint>, ws: Seq<Vec<GridPoint>>, pins: Seq<GridPoint>)
    ensures
        junctions_kept(js, ws, pins).len() <= js.len(),
    decreases js.len(),
{
    if js.len() > 0 {
        lemma_junctions_kept_len(js.drop_last(), ws, pins);
    }
}

fn sq_dist_exec(a: GridPoint, b: GridPoint) -> (r: i128)
    ensures
        r == sq_dist(a, b),
{
    let dx: i128 = a.x as i128 - b.x as i128;
    let dy: i128 = a.y as i128 - b.y as i128;
    let m: i128 = 0x1_0000_0000;
    assert(0 <= dx * dx <= m * m) by (nonlinear_arith)
        requires
            -m <= dx <= m,
    ;
    assert(0 <= dy * dy <= m * m) by (nonlinear_arith)
        requires
            -m <= dy <= m,
    ;
    dx * dx + dy * dy
}

fn passes_through_exec(w: &Vec<GridPoint>, p: GridPoint) -> (r: bool)
    ensures
        r == passes_through(w@, p),
{
    let mut i: usize = 0;
    while i < w.len()
        invariant
            i <= w@.len(),
            forall|j: int| 0 <= j < i ==> !near(#[trigger] w@[j], p),
        decreases w@.len() - i,
    {
        if sq_dist_exec(w[i], p) < WIRE_TOLERANCE_SQ {
            assert(near(w@[i as int], p));
            return true;
        }
        i = i + 1;
    }
    wire_near_exec(w, p)
}

fn links_exec(w: &Vec<GridPoint>, a: GridPoint, b: GridPoint) -> (r: bool)
    ensures
        r == links(w@, a, b),
{
    let n = w.len();
    if n < 2 {
        return false;
    }
    let first = w[0];
    let last = w[n - 1];
    let ends = (sq_dist_exec(first, a) < WIRE_TOLERANCE_SQ && sq_dist_exec(last, b) < WIRE_TOLERANCE_SQ)
        || (sq_dist_exec(first, b) < WIRE_TOLERANCE_SQ && sq_dist_exec(last, a) < WIRE_TOLERANCE_SQ);
    ends || (passes_through_exec(w, a) && passes_through_exec(w, b))
}

/// The wires that do not join `a` and `b`, in order.
fn keep_unlinked(ws: Vec<Vec<GridPoint>>, a: GridPoint, b: GridPoint) -> (r: Vec<Vec<GridPoint>>)
    ensures
        r@ == wires_not_linking(ws@, a, b),
{
    let ghost all = ws@;
    let mut rest = ws;
    let mut out: Vec<Vec<GridPoint>> = Vec::new();
    let ghost mut k: int = 0;
    assert(all.take(0) == Seq::<Vec<GridPoint>>::empty());
    while rest.len() > 0
        invariant
            0 <= k <= all.len(),
            rest@ == all.skip(k),
            out@ == wires_not_linking(all.take(k), a, b),
        decreases rest@.len(),
    {
        let w = rest.remove(0);
        proof {
            assert(all.skip(k)[0] == all[k]);
            assert(rest@ =~= all.skip(k + 1));
            assert(all.take(k + 1).drop_last() == all.take(k));
            assert(all.take(k + 1).last() == all[k]);
            k = k + 1;
        }
        if !links_exec(&w, a, b) {
            out.push(w);
        }
    }
    assert(all.take(all.len() as int) == all);
    out
}

fn touches_exec(w: &Vec<GridPoint>, j: GridPoint) -> (r: bool)
    ensures
        r == touches(w@, j),
{
    let mut i: usize = 0;
    while i < w.len()
        invariant
            i <= w@.len(),
            forall|t: int| 0 <= t < i ==> !close(#[trigger] w@[t], j),
        decreases w@.len() - i,
    {
        if sq_dist_exec(w[i], j) < JUNCTION_TOLERANCE_SQ {
            assert(close(w@[i as int], j));
            return true;
        }
        i = i + 1;
    }
    false
}

proof fn lemma_wires_touching_bound(ws: Seq<Vec<GridPoint>>, j: GridPoint)
    ensures
        wires_touching(ws, j) <= ws.len(),
    decreases ws.len(),
{
    if ws.len() > 0 {
        lemma_wires_touching_bound(ws.drop_last(), j);
    }
}

fn wires_touching_exec(ws: &Vec<Vec<GridPoint>>, j: GridPoint) -> (r: usize)
    ensures
        r == wires_touching(ws@, j),
{
    let mut count: usize = 0;
    let mut k: usize = 0;
    while k < ws.len()
        invariant
            k <= ws@.len(),
            count == wires_touching(ws@.take(k as int), j),
        decreases ws@.len() - k,
    {
        proof {
            assert(ws@.take(k + 1).drop_last() == ws@.take(k as int));
            assert(ws@.take(k + 1).last() == ws@[k as int]);
            lemma_wires_touching_bound(ws@.take(k as int), j);
        }
        if touches_exec(&ws[k], j) {
            count = count + 1;
        }
        k = k + 1;
    }
    assert(ws@.take(ws@.len() as int) == ws@);
    count
}

fn near_any_pin(j: GridPoint, pins: &Vec<GridPoint>) -> (r: bool)
    ensures
        r == exists|k: int| 0 <= k < pins@.len() && close(#[trigger] pins@[k], j),
{
    let mut k: usize = 0;
    while k < pins.len()
        invariant
            k <= pins@.len(),
            forall|t: int| 0 <= t < k ==> !close(#[trigger] pins@[t], j),
        decreases pins@.len() - k,
    {
        if sq_dist_exec(pins[k], j) < JUNCTION_TOLERANCE_SQ {
            assert(close(pins@[k as int], j));
            return true;
        }
        k = k + 1;
    }
    false
}

/// The junctions that keep their purpose, in order.
fn keep_junctions(js: Vec<GridPoint>, ws: &Vec<Vec<GridPoint>>, pins: &Vec<GridPoint>) -> (r: Vec<GridPoint>)
    ensures
        r@ == junctions_kept(js@, ws@, pins@),
{
    let ghost all = js@;
    let mut out: Vec<GridPoint> = Vec::new();
    let mut k: usize = 0;
    while k < js.len()
        invariant
            k <= js@.len(),
            all == js@,
            out@ == junctions_kept(all.take(k as int), ws@, pins@),
        decreases js@.len() - k,
    {
        proof {
            assert(all.take(k + 1).drop_last() == all.take(k as int));
            assert(all.take(k + 1).last() == all[k as int]);
        }
        let j = js[k];
        if wires_touching_exec(ws, j) >= 3 || near_any_pin(j, pins) {
            out.push(j);
        }
        k = k + 1;
    }
    assert(all.take(all.len() as int) == all);
    out
}

/// Where the pins that the components list attach, in order.
fn all_pin_points_exec(cs: &Vec<PlacedComponent>) -> (r: Vec<GridPoint>)
    ensures
        r@ == all_pin_points(cs@, cs@.len() as int),
{
    let mut out: Vec<GridPoint> = Vec::new();
    let mut ci: usize = 0;
    while ci < cs.len()
        invariant
            ci <= cs@.len(),
            out@ == all_pin_points(cs@, ci as int),
        decreases cs@.len() - ci,
    {
        let c = &cs[ci];
        let ghost base = out@;
        let mut k: usize = 0;
        while k < c.instance_pins.len()
            invariant
                k <= c.instance_pins@.len(),
                c == &cs@[ci as int],
                out@ == base + listed_pin_points(*c, k as int),
            decreases c.instance_pins@.len() - k,
        {
            match c.pin_position(c.instance_pins[k].as_str()) {
                Some(p) => {
                    out.push(p);
                    assert(out@ == base + listed_pin_points(*c, k + 1));
                },
                None => {
                    assert(listed_pin_points(*c, k + 1) == listed_pin_points(*c, k as int));
                },
            }
            k = k + 1;
        }
        ci = ci + 1;
    }
    out
}

impl SchematicItems {
    /// Where an endpoint lies, or why it lies nowhere.
    pub fn resolve_position(&self, ep: &ConnectionEndpoint) -> (r: Result<GridPoint, CommandError>)
        ensures
            match endpoint_point(ep@, *self) {
                Some(p) => r == Ok::<GridPoint, CommandError>(p),
                None => r matches Err(e) && endpoint_error(ep@, *self, e),
            },
    {
        match ep {
            ConnectionEndpoint::Pin { reference, pin } => resolve_endpoint(self, reference.as_str(), pin.as_str()),
            ConnectionEndpoint::Net(name) => {
                match first_label_match_exec(&self.labels, name.as_str(), None) {
                    Some(i) => Ok(self.labels[i].position),
                    None => match first_label_match_exec(&self.global_labels, name.as_str(), None) {
                        Some(j) => Ok(self.global_labels[j].position),
                        None => {
                            let mut m = String::from_str("Net label '");
                            m.append(name.as_str());
                            m.append("' not found");
                            Err(CommandError::Other(m))
                        },
                    },
                }
            },
        }
    }
}

/// After a disconnect, no wire that stays joins the two points, and every wire that
/// stays was there before.
pub proof fn lemma_no_wire_left_linking(ws: Seq<Vec<GridPoint>>, a: GridPoint, b: GridPoint)
    ensures
        forall|k: int|
            0 <= k < wires_not_linking(ws, a, b).len() ==> !links(
                #[trigger] wires_not_linking(ws, a, b)[k]@,
                a,
                b,
            ) && ws.contains(wires_not_linking(ws, a, b)[k]),
    decreases ws.len(),
{
    if ws.len() > 0 {
        lemma_no_wire_left_linking(ws.drop_last(), a, b);
        let prev = wires_not_linking(ws.drop_last(), a, b);
        assert forall|k: int| 0 <= k < wires_not_linking(ws, a, b).len() implies !links(
            #[trigger] wires_not_linking(ws, a, b)[k]@,
            a,
            b,
        ) && ws.contains(wires_not_linking(ws, a, b)[k]) by {
            let cur = wires_not_linking(ws, a, b);
            if k < prev.len() {
                assert(cur[k] == prev[k]);
                assert(!links(prev[k]@, a, b));
                assert(ws.drop_last().contains(prev[k]));
                let u = choose|u: int| 0 <= u < ws.drop_last().len() && ws.drop_last()[u] == prev[k];
                assert(ws.drop_last()[u] == ws[u]);
                assert(ws[u] == cur[k]);
            } else {
                assert(cur[k] == ws.last());
                assert(ws[ws.len() - 1] == cur[k]);
            }
        }
    }
}

proof fn lemma_snap_stays_in_range(v: int)
    requires
        i32::MIN <= v <= i32::MAX,
    ensures
        i32::MIN <= snap_spec(v) <= i32::MAX,
{
    let g = GRID_STEP as int;
    let h = g / 2;
    if v >= 0 {
        let q = (v + h) / g;
        assert(q * g <= 2147481100) by (nonlinear_arith)
            requires
                q == (v + h) / g,
                0 <= v <= 2147483647,
                h == 6350,
                g == 12700,
        ;
    } else {
        let q = ((-v) + h) / g;
        assert(q * g <= 2147481100) by (nonlinear_arith)
            requires
                q == ((-v) + h) / g,
                0 < -v <= 2147483648,
                h == 6350,
                g == 12700,
        ;
    }
}

/// A point snapped to the grid stays closer than one grid step to where it was.
proof fn lemma_snapped_point_is_near(p: GridPoint)
    ensures
        near(snap_point(p), p),
{
    lemma_snap_lands_on_grid(p.x as int);
    lemma_snap_lands_on_grid(p.y as int);
    lemma_snap_stays_in_range(p.x as int);
    lemma_snap_stays_in_range(p.y as int);
    let q = snap_point(p);
    let dx = q.x - p.x;
    let dy = q.y - p.y;
    assert(dx * dx + dy * dy <= 2 * 6350 * 6350) by (nonlinear_arith)
        requires
            -6350 <= dx <= 6350,
            -6350 <= dy <= 6350,
    ;
}

/// A wire that joins two points, whichever way it is routed, runs from the one to the
/// other: so disconnecting two pins removes the wire that connecting them added.
pub proof fn lemma_disconnect_removes_connected_wire(a: GridPoint, b: GridPoint, mode: RoutingMode)
    ensures
        links(routed_points(a, b, mode), a, b),
{
    lemma_snapped_point_is_near(a);
    lemma_snapped_point_is_near(b);
    let w = routed_points(a, b, mode);
    assert(w[0] == snap_point(a));
    assert(w.last() == snap_point(b));
}

impl DisconnectCommand {
    /// Remove the connection between the two endpoints, as `disconnect_outcome` states.
    pub fn execute(self, items: &mut SchematicItems) -> (r: Result<DisconnectOutput, CommandError>)
        ensures
            disconnect_outcome(self.endpoint1@, self.endpoint2@, *old(items), *final(items), r),
    {
        let ep1 = match ConnectionEndpoint::parse(self.endpoint1.as_str()) {
            Ok(e) => e,
            Err(e) => return Err(CommandError::Other(e.to_string())),
        };
        let ep2 = match ConnectionEndpoint::parse(self.endpoint2.as_str()) {
            Ok(e) => e,
            Err(e) => return Err(CommandError::Other(e.to_string())),
        };
        let pos1 = match items.resolve_position(&ep1) {
            Ok(p) => p,
            Err(e) => return Err(e),
        };
        let pos2 = match items.resolve_position(&ep2) {
            Ok(p) => p,
            Err(e) => return Err(e),
        };
        let ghost s = *items;
        let initial = items.wires.len();
        let mut wires = Vec::new();
        std::mem::swap(&mut wires, &mut items.wires);
        items.wires = keep_unlinked(wires, pos1, pos2);
        proof {
            lemma_not_linking_len(s.wires@, pos1, pos2);
        }
        let wires_removed = initial - items.wires.len();
        let mut junctions_removed: usize = 0;
        if wires_removed > 0 {
            let pins = all_pin_points_exec(&items.components);
            let before = items.junctions.len();
            let mut js = Vec::new();
            std::mem::swap(&mut js, &mut items.junctions);
            items.junctions = keep_junctions(js, &items.wires, &pins);
            proof {
                lemma_junctions_kept_len(s.junctions@, items.wires@, pins@);
            }
            junctions_removed = before - items.junctions.len();
        }
        let ghost mid = *items;
        let mut labels_removed: usize = 0;
        match &ep1 {
            ConnectionEndpoint::Net(name) => {
                if delete_label(&mut items.labels, &mut items.global_labels, name.as_str(), Some(pos2)) {
                    labels_removed = labels_removed + 1;
                }
            },
            ConnectionEndpoint::Pin { .. } => {},
        }
        match &ep2 {
            ConnectionEndpoint::Net(name) => {
                if delete_label(&mut items.labels, &mut items.global_labels, name.as_str(), Some(pos1)) {
                    labels_removed = labels_removed + 1;
                }
            },
            ConnectionEndpoint::Pin { .. } => {},
        }
        if wires_removed == 0 && labels_removed == 0 {
            return Err(CommandError::Other(String::from_str("No connection found between the specified endpoints")));
        }
        Ok(DisconnectOutput { wires_removed, junctions_removed, labels_removed })
    }
}

} // verus!
