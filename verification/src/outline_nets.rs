//! Nets of a schematic outline: connection points that lie together, or at the two ends
//! of a wire segment, form one net; a net is named by its label of widest scope.
use vstd::prelude::*;
use crate::outline::{NetInfo, NetLabelScope, SchematicStats};
use crate::sexpr::dec_digits;
use crate::union_find::UnionFind;
use crate::ordering::{seq_lt, sort_by, lemma_insert_at, str_lt, sorted_by, strict_order, lemma_sort_by, lemma_text_order_strict};

verus! {

/// Sub-units of a millimetre in which connection points are placed.
pub const UNITS_PER_MM: i64 = 10000;

/// Two points closer than half a millimetre coincide: the square of that distance in
/// units.
pub const TOLERANCE_SQ: i128 = 25_000_000;

/// A position on the schematic in units of 1/10000 mm.
#[derive(Clone, Copy, Debug, PartialEq, Eq, Structural)]
pub struct GridPoint {
    pub x: i32,
    pub y: i32,
}

/// What sits at a connection point.
#[derive(Debug)]
pub enum ConnectionKind {
    Pin { reference: String, pin_number: String, pin_name: String },
    WireEndpoint,
    Junction,
    Label { name: String, scope: NetLabelScope },
    SheetPin { sheet_name: String, pin_name: String },
}

/// A place where things connect.
#[derive(Debug)]
pub struct ConnectionPoint {
    pub position: GridPoint,
    pub kind: ConnectionKind,
}

/// Two points coincide when closer than half a millimetre.
pub open spec fn near(a: GridPoint, b: GridPoint) -> bool {
    (a.x - b.x) * (a.x - b.x) + (a.y - b.y) * (a.y - b.y) < TOLERANCE_SQ
}

pub open spec fn positions(pts: Seq<ConnectionPoint>) -> Seq<GridPoint> {
    pts.map_values(|p: ConnectionPoint| p.position)
}

/// The pairs of coinciding points `(i, j)`, `i < j`, from `(i, j)` on in the order
/// `i` then `j`.
pub open spec fn proximity_edges(ps: Seq<GridPoint>, i: int, j: int) -> Seq<(int, int)>
    decreases ps.len() - i, ps.len() - j,
{
    if i < 0 || i >= ps.len() {
        Seq::empty()
    } else if j >= ps.len() || j <= i {
        proximity_edges(ps, i + 1, i + 2)
    } else {
        let rest = proximity_edges(ps, i, j + 1);
        if near(ps[i], ps[j]) {
            seq![(i, j)] + rest
        } else {
            rest
        }
    }
}

/// The first point from `k` on that coincides with `q`.
pub open spec fn first_near_from(ps: Seq<GridPoint>, q: GridPoint, k: int) -> Option<int>
    decreases ps.len() - k,
{
    if k < 0 || k >= ps.len() {
        None
    } else if near(ps[k], q) {
        Some(k)
    } else {
        first_near_from(ps, q, k + 1)
    }
}

/// The first point that coincides with `q`.
pub open spec fn first_near(ps: Seq<GridPoint>, q: GridPoint) -> Option<int> {
    first_near_from(ps, q, 0)
}

/// The links made by the segments of a wire, from segment `k` on: the first points at
/// its two ends, when both exist.
pub open spec fn segment_edges(ps: Seq<GridPoint>, w: Seq<GridPoint>, k: int) -> Seq<(int, int)>
    decreases w.len() - k,
{
    if k < 0 || k + 1 >= w.len() {
        Seq::empty()
    } else {
        let rest = segment_edges(ps, w, k + 1);
        match (first_near(ps, w[k]), first_near(ps, w[k + 1])) {
            (Some(a), Some(b)) => seq![(a, b)] + rest,
            _ => rest,
        }
    }
}

/// The links made by all wires, from wire `k` on.
pub open spec fn wire_edges(ps: Seq<GridPoint>, wires: Seq<Seq<GridPoint>>, k: int) -> Seq<(int, int)>
    decreases wires.len() - k,
{
    if k < 0 || k >= wires.len() {
        Seq::empty()
    } else {
        segment_edges(ps, wires[k], 0) + wire_edges(ps, wires, k + 1)
    }
}

/// All links between points: coinciding points, then wire segments.
pub open spec fn all_edges(ps: Seq<GridPoint>, wires: Seq<Seq<GridPoint>>) -> Seq<(int, int)> {
    proximity_edges(ps, 0, 1) + wire_edges(ps, wires, 0)
}

/// Whether `i` and `j` are joined by the links: the equivalence they generate, built
/// link by link.
pub open spec fn linked(edges: Seq<(int, int)>, i: int, j: int) -> bool
    decreases edges.len(),
{
    if edges.len() == 0 {
        i == j
    } else {
        let x = edges.last().0;
        let y = edges.last().1;
        let e = edges.drop_last();
        linked(e, i, j) || (linked(e, i, x) && linked(e, j, y)) || (linked(e, i, y) && linked(
            e,
            j,
            x,
        ))
    }
}


fn near_exec(a: GridPoint, b: GridPoint) -> (r: bool)
    ensures
        r == near(a, b),
{
    let dx: i128 = a.x as i128 - b.x as i128;
    let dy: i128 = a.y as i128 - b.y as i128;
    assert(dx * dx <= 0x1_0000_0000_0000_0000) by (nonlinear_arith)
        requires
            -0x1_0000_0000 < dx < 0x1_0000_0000,
    ;
    assert(dy * dy <= 0x1_0000_0000_0000_0000) by (nonlinear_arith)
        requires
            -0x1_0000_0000 < dy < 0x1_0000_0000,
    ;
    assert(dx * dx >= 0) by (nonlinear_arith);
    assert(dy * dy >= 0) by (nonlinear_arith);
    dx * dx + dy * dy < TOLERANCE_SQ
}

pub(crate) fn first_near_exec(pts: &Vec<ConnectionPoint>, q: GridPoint) -> (r: Option<usize>)
    ensures
        match r {
            Some(x) => first_near(positions(pts@), q) == Some(x as int) && x < pts@.len(),
            None => first_near(positions(pts@), q) is None,
        },
{
    let ghost ps = positions(pts@);
    let mut k: usize = 0;
    while k < pts.len()
        invariant
            k <= pts@.len(),
            ps == positions(pts@),
            first_near(ps, q) == first_near_from(ps, q, k as int),
        decreases pts@.len() - k,
    {
        assert(ps[k as int] == pts@[k as int].position);
        if near_exec(pts[k].position, q) {
            return Some(k);
        }
        k = k + 1;
    }
    None
}

/// Joins the points linked by the edges of `all_edges`; the connectivity of the result is
/// exactly `linked` over those edges.
fn join_points(pts: &Vec<ConnectionPoint>, wires: &Vec<Vec<GridPoint>>) -> (uf: UnionFind)
    ensures
        uf.wf(),
        uf.len() == pts@.len(),
        forall|i: int, j: int|
            0 <= i < pts@.len() && 0 <= j < pts@.len() ==> (#[trigger] uf.connected(i, j) <==> linked(
                all_edges(positions(pts@), wires@.map_values(|w: Vec<GridPoint>| w@)),
                i,
                j,
            )),
{
    let n = pts.len();
    let ghost ps = positions(pts@);
    let ghost ws = wires@.map_values(|w: Vec<GridPoint>| w@);
    let mut uf = UnionFind::new(n);
    let ghost mut done: Seq<(int, int)> = Seq::empty();
    let mut i: usize = 0;
    assert(proximity_edges(ps, 0, 1) == done + proximity_edges(ps, 0, 1));
    while i < n
        invariant
            n == pts@.len(),
            ps == positions(pts@),
            i <= n,
            uf.wf(),
            uf.len() == n,
            proximity_edges(ps, 0, 1) == done + proximity_edges(ps, i as int, i + 1),
            forall|a: int, b: int|
                0 <= a < n && 0 <= b < n ==> (#[trigger] uf.connected(a, b) <==> linked(done, a, b)),
        decreases n - i,
    {
        let mut j: usize = i + 1;
        while j < n
            invariant
                n == pts@.len(),
                ps == positions(pts@),
                i < n,
                i < j <= n,
                uf.wf(),
                uf.len() == n,
                proximity_edges(ps, 0, 1) == done + proximity_edges(ps, i as int, j as int),
                forall|a: int, b: int|
                    0 <= a < n && 0 <= b < n ==> (#[trigger] uf.connected(a, b) <==> linked(
                        done,
                        a,
                        b,
                    )),
            decreases n - j,
        {
            assert(ps[i as int] == pts@[i as int].position);
            assert(ps[j as int] == pts@[j as int].position);
            if near_exec(pts[i].position, pts[j].position) {
                let ghost before = uf;
                uf.union(i, j);
                proof {
                    let nd = done.push((i as int, j as int));
                    assert(nd.drop_last() == done);
                    assert forall|a: int, b: int| 0 <= a < n && 0 <= b < n implies (
                    #[trigger] uf.connected(a, b) <==> linked(nd, a, b)) by {
                        assert(before.connected(a, b) <==> linked(done, a, b));
                        assert(before.connected(a, i as int) <==> linked(done, a, i as int));
                        assert(before.connected(b, j as int) <==> linked(done, b, j as int));
                        assert(before.connected(a, j as int) <==> linked(done, a, j as int));
                        assert(before.connected(b, i as int) <==> linked(done, b, i as int));
                    }
                    assert(done + proximity_edges(ps, i as int, j as int) == nd + proximity_edges(
                        ps,
                        i as int,
                        j + 1,
                    ));
                    done = nd;
                }
            }
            j = j + 1;
        }
        i = i + 1;
    }
    assert(proximity_edges(ps, n as int, n + 1) == Seq::<(int, int)>::empty());
    assert(done == proximity_edges(ps, 0, 1));
    let ghost prox = done;
    let ghost mut wdone: Seq<(int, int)> = Seq::empty();
    let mut w: usize = 0;
    assert(wire_edges(ps, ws, 0) == wdone + wire_edges(ps, ws, 0));
    assert(done == prox + wdone);
    while w < wires.len()
        invariant
            n == pts@.len(),
            ps == positions(pts@),
            ws == wires@.map_values(|w: Vec<GridPoint>| w@),
            w <= wires@.len(),
            uf.wf(),
            uf.len() == n,
            prox == proximity_edges(ps, 0, 1),
            done == prox + wdone,
            wire_edges(ps, ws, 0) == wdone + wire_edges(ps, ws, w as int),
            forall|a: int, b: int|
                0 <= a < n && 0 <= b < n ==> (#[trigger] uf.connected(a, b) <==> linked(done, a, b)),
        decreases wires@.len() - w,
    {
        assert(ws[w as int] == wires@[w as int]@);
        let Ghost(nd) = join_segments(&mut uf, pts, &wires[w], Ghost(done));
        proof {
            let seg = segment_edges(ps, wires@[w as int]@, 0);
            assert(wire_edges(ps, ws, w as int) == seg + wire_edges(ps, ws, w + 1));
            assert(nd == prox + (wdone + seg));
            assert(wire_edges(ps, ws, 0) == (wdone + seg) + wire_edges(ps, ws, w + 1));
            wdone = wdone + seg;
            done = nd;
        }
        w = w + 1;
    }
    assert(wire_edges(ps, ws, wires@.len() as int) == Seq::<(int, int)>::empty());
    assert(wdone == wire_edges(ps, ws, 0));
    uf
}

proof fn lemma_union_linked(before: UnionFind, after: UnionFind, done: Seq<(int, int)>, x: int, y: int, n: int)
    requires
        before.len() == n,
        after.len() == n,
        0 <= x < n,
        0 <= y < n,
        forall|a: int, b: int|
            0 <= a < n && 0 <= b < n ==> (#[trigger] before.connected(a, b) <==> linked(done, a, b)),
        forall|i: int, j: int|
            0 <= i < n && 0 <= j < n ==> (#[trigger] after.connected(i, j) <==> (before.connected(i, j)
                || (before.connected(i, x) && before.connected(j, y)) || (before.connected(i, y)
                && before.connected(j, x)))),
    ensures
        forall|a: int, b: int|
            0 <= a < n && 0 <= b < n ==> (#[trigger] after.connected(a, b) <==> linked(
                done.push((x, y)),
                a,
                b,
            )),
{
    let nd = done.push((x, y));
    assert(nd.drop_last() == done);
    assert forall|a: int, b: int| 0 <= a < n && 0 <= b < n implies (#[trigger] after.connected(a, b)
        <==> linked(nd, a, b)) by {
        assert(before.connected(a, b) <==> linked(done, a, b));
        assert(before.connected(a, x) <==> linked(done, a, x));
        assert(before.connected(b, y) <==> linked(done, b, y));
        assert(before.connected(a, y) <==> linked(done, a, y));
        assert(before.connected(b, x) <==> linked(done, b, x));
    }
}

/// Joins the ends of each segment of one wire.
#[verifier::rlimit(30)]
fn join_segments(
    uf: &mut UnionFind,
    pts: &Vec<ConnectionPoint>,
    wire: &Vec<GridPoint>,
    Ghost(done): Ghost<Seq<(int, int)>>,
) -> (r: Ghost<Seq<(int, int)>>)
    requires
        old(uf).wf(),
        old(uf).len() == pts@.len(),
        forall|a: int, b: int|
            0 <= a < pts@.len() && 0 <= b < pts@.len() ==> (#[trigger] old(uf).connected(a, b)
                <==> linked(done, a, b)),
    ensures
        final(uf).wf(),
        final(uf).len() == pts@.len(),
        r@ == done + segment_edges(positions(pts@), wire@, 0),
        forall|a: int, b: int|
            0 <= a < pts@.len() && 0 <= b < pts@.len() ==> (#[trigger] final(uf).connected(a, b)
                <==> linked(r@, a, b)),
{
    let n = pts.len();
    let ghost ps = positions(pts@);
    let ghost mut cur = done;
    let ghost mut sdone: Seq<(int, int)> = Seq::empty();
    let mut k: usize = 0;
    assert(segment_edges(ps, wire@, 0) == sdone + segment_edges(ps, wire@, 0));
    assert(cur == done + sdone);
    while k < wire.len() && k + 1 < wire.len()
        invariant
            k <= wire@.len(),
            n == pts@.len(),
            ps == positions(pts@),
            uf.wf(),
            uf.len() == n,
            cur == done + sdone,
            segment_edges(ps, wire@, 0) == sdone + segment_edges(ps, wire@, k as int),
            forall|a: int, b: int|
                0 <= a < n && 0 <= b < n ==> (#[trigger] uf.connected(a, b) <==> linked(cur, a, b)),
        decreases wire@.len() - k,
    {
        let a = first_near_exec(pts, wire[k]);
        let b = first_near_exec(pts, wire[k + 1]);
        let ghost rest = segment_edges(ps, wire@, k + 1);
        match (a, b) {
            (Some(x), Some(y)) => {
                let ghost before = *uf;
                uf.union(x, y);
                proof {
                    lemma_union_linked(before, *uf, cur, x as int, y as int, n as int);
                    assert(segment_edges(ps, wire@, k as int) == seq![(x as int, y as int)] + rest);
                    assert(segment_edges(ps, wire@, 0) == sdone.push((x as int, y as int)) + rest);
                    assert(cur.push((x as int, y as int)) == done + sdone.push((x as int, y as int)));
                    sdone = sdone.push((x as int, y as int));
                    cur = cur.push((x as int, y as int));
                }
            },
            _ => {
                assert(segment_edges(ps, wire@, k as int) == rest);
            },
        }
        k = k + 1;
    }
    assert(segment_edges(ps, wire@, k as int) == Seq::<(int, int)>::empty());
    assert(sdone == segment_edges(ps, wire@, 0));
    Ghost(cur)
}


/// `i` is the first point of its net.
pub open spec fn is_first_of_group(edges: Seq<(int, int)>, i: int) -> bool {
    forall|j: int| 0 <= j < i ==> !linked(edges, i, j)
}

/// The `(reference, pin number)` of the pins among the first `k` points that share the
/// net of `r`.
pub open spec fn group_pins(pts: Seq<ConnectionPoint>, edges: Seq<(int, int)>, r: int, k: int) -> Seq<
    (Seq<char>, Seq<char>),
>
    decreases k,
{
    if k <= 0 || k > pts.len() {
        Seq::empty()
    } else {
        let rest = group_pins(pts, edges, r, k - 1);
        if linked(edges, r, k - 1) {
            match pts[k - 1].kind {
                ConnectionKind::Pin { reference, pin_number, .. } => rest.push(
                    (reference@, pin_number@),
                ),
                _ => rest,
            }
        } else {
            rest
        }
    }
}

/// The `(sheet, pin)` of the sheet pins among the first `k` points that share the net of `r`.
pub open spec fn group_sheet_pins(
    pts: Seq<ConnectionPoint>,
    edges: Seq<(int, int)>,
    r: int,
    k: int,
) -> Seq<(Seq<char>, Seq<char>)>
    decreases k,
{
    if k <= 0 || k > pts.len() {
        Seq::empty()
    } else {
        let rest = group_sheet_pins(pts, edges, r, k - 1);
        if linked(edges, r, k - 1) {
            match pts[k - 1].kind {
                ConnectionKind::SheetPin { sheet_name, pin_name } => rest.push(
                    (sheet_name@, pin_name@),
                ),
                _ => rest,
            }
        } else {
            rest
        }
    }
}

/// A label of scope `scope` replaces the one kept so far when its scope is wider.
pub open spec fn widens(cur: Option<(Seq<char>, NetLabelScope)>, scope: NetLabelScope) -> bool {
    match cur {
        None => true,
        Some((_, s)) => (s == NetLabelScope::Local && (scope == NetLabelScope::Hierarchical
            || scope == NetLabelScope::Global)) || (s == NetLabelScope::Hierarchical && scope
            == NetLabelScope::Global),
    }
}

/// The label of widest scope among the first `k` points of the net of `r` (the first
/// of its scope).
pub open spec fn group_label(pts: Seq<ConnectionPoint>, edges: Seq<(int, int)>, r: int, k: int) -> Option<
    (Seq<char>, NetLabelScope),
>
    decreases k,
{
    if k <= 0 || k > pts.len() {
        None
    } else {
        let cur = group_label(pts, edges, r, k - 1);
        if linked(edges, r, k - 1) {
            match pts[k - 1].kind {
                ConnectionKind::Label { name, scope } => if widens(cur, scope) {
                    Some((name@, scope))
                } else {
                    cur
                },
                _ => cur,
            }
        } else {
            cur
        }
    }
}

/// The texts of an outline net.
pub struct NetInfoView {
    pub name: Seq<char>,
    pub is_global: bool,
    pub scope: NetLabelScope,
    pub connections: Seq<Seq<char>>,
}

pub open spec fn net_info_view(n: NetInfo) -> NetInfoView {
    NetInfoView {
        name: n.name@,
        is_global: n.is_global,
        scope: n.scope,
        connections: n.connections@.map_values(|s: String| s@),
    }
}

pub open spec fn pair_joined(p: (Seq<char>, Seq<char>)) -> Seq<char> {
    p.0 + seq![':'] + p.1
}

/// The nets whose first points are at `i` or later, the unnamed ones numbered from
/// `counter`: a net is listed when it holds a pin or a sheet pin; it takes the name and
/// scope of its widest label, or `NET_n` and local scope.
pub open spec fn nets_from(pts: Seq<ConnectionPoint>, edges: Seq<(int, int)>, i: int, counter: nat) -> Seq<
    NetInfoView,
>
    decreases pts.len() - i,
{
    if i < 0 || i >= pts.len() {
        Seq::empty()
    } else if !is_first_of_group(edges, i) {
        nets_from(pts, edges, i + 1, counter)
    } else {
        let n = pts.len() as int;
        let pins = group_pins(pts, edges, i, n);
        let sps = group_sheet_pins(pts, edges, i, n);
        if pins.len() == 0 && sps.len() == 0 {
            nets_from(pts, edges, i + 1, counter)
        } else {
            let label = group_label(pts, edges, i, n);
            let name = match label {
                Some((nm, _)) => nm,
                None => "NET_"@ + dec_digits(counter),
            };
            let scope = match label {
                Some((_, s)) => s,
                None => NetLabelScope::Local,
            };
            let next = if label is None {
                counter + 1
            } else {
                counter
            };
            let conns = pins.map_values(|p: (Seq<char>, Seq<char>)| pair_joined(p)) + sps.map_values(
                |p: (Seq<char>, Seq<char>)| pair_joined(p),
            );
            seq![
                NetInfoView {
                    name,
                    is_global: scope == NetLabelScope::Global,
                    scope,
                    connections: conns,
                },
            ] + nets_from(pts, edges, i + 1, next)
        }
    }
}

/// The nets of the outline of the connection points and wires.
pub open spec fn outline_nets_spec(pts: Seq<ConnectionPoint>, wires: Seq<Seq<GridPoint>>) -> Seq<
    NetInfoView,
> {
    nets_from(pts, all_edges(positions(pts), wires), 0, 1)
}


pub open spec fn net_info_views(v: Seq<NetInfo>) -> Seq<NetInfoView> {
    v.map_values(|n: NetInfo| net_info_view(n))
}

pub open spec fn joined_views(v: Seq<(String, String)>) -> Seq<Seq<char>> {
    v.map_values(|p: (String, String)| pair_joined((p.0@, p.1@)))
}

pub open spec fn pairs_view(v: Seq<(String, String)>) -> Seq<(Seq<char>, Seq<char>)> {
    v.map_values(|p: (String, String)| (p.0@, p.1@))
}

pub(crate) fn joined(a: &String, b: &String) -> (r: String)
    ensures
        r@ == pair_joined((a@, b@)),
{
    let mut r = a.clone();
    crate::text::push_char(&mut r, ':');
    r.append(b.as_str());
    r
}

/// What the net whose first point is `r` holds: its pins, sheet pins and label.
#[verifier::rlimit(40)]
pub(crate) fn gather_group(pts: &Vec<ConnectionPoint>, roots: &Vec<usize>, r: usize, Ghost(edges): Ghost<
    Seq<(int, int)>,
>) -> (res: (Vec<(String, String)>, Vec<(String, String)>, Option<(String, NetLabelScope)>))
    requires
        r < pts@.len(),
        roots@.len() == pts@.len(),
        forall|a: int, b: int|
            0 <= a < pts@.len() && 0 <= b < pts@.len() ==> ((roots@[a] == roots@[b]) <==> linked(
                edges,
                a,
                b,
            )),
    ensures
        pairs_view(res.0@) == group_pins(pts@, edges, r as int, pts@.len() as int),
        pairs_view(res.1@) == group_sheet_pins(pts@, edges, r as int, pts@.len() as int),
        match group_label(pts@, edges, r as int, pts@.len() as int) {
            Some((nm, sc)) => res.2 matches Some((x, y)) && x@ == nm && y == sc,
            None => res.2 is None,
        },
{
    let n = pts.len();
    let mut pins: Vec<(String, String)> = Vec::new();
    let mut sps: Vec<(String, String)> = Vec::new();
    let mut label: Option<(String, NetLabelScope)> = None;
    let mut k: usize = 0;
    while k < n
        invariant
            k <= n == pts@.len(),
            r < n,
            roots@.len() == n,
            forall|a: int, b: int|
                0 <= a < n && 0 <= b < n ==> ((roots@[a] == roots@[b]) <==> linked(edges, a, b)),
            pairs_view(pins@) == group_pins(pts@, edges, r as int, k as int),
            pairs_view(sps@) == group_sheet_pins(pts@, edges, r as int, k as int),
            match group_label(pts@, edges, r as int, k as int) {
                Some((nm, sc)) => label matches Some((x, y)) && x@ == nm && y == sc,
                None => label is None,
            },
        decreases n - k,
    {
        if roots[k] == roots[r] {
            assert(linked(edges, r as int, k as int));
            match &pts[k].kind {
                ConnectionKind::Pin { reference, pin_number, .. } => {
                    let pr = (reference.clone(), pin_number.clone());
                    proof {
                        assert(pairs_view(pins@.push(pr)) == pairs_view(pins@).push(
                            (reference@, pin_number@),
                        ));
                    }
                    pins.push(pr);
                },
                ConnectionKind::SheetPin { sheet_name, pin_name } => {
                    let pr = (sheet_name.clone(), pin_name.clone());
                    proof {
                        assert(pairs_view(sps@.push(pr)) == pairs_view(sps@).push(
                            (sheet_name@, pin_name@),
                        ));
                    }
                    sps.push(pr);
                },
                ConnectionKind::Label { name, scope } => {
                    let widen = match &label {
                        None => true,
                        Some((_, s)) => match s {
                            NetLabelScope::Local => match scope {
                                NetLabelScope::Hierarchical | NetLabelScope::Global => true,
                                NetLabelScope::Local => false,
                            },
                            NetLabelScope::Hierarchical => match scope {
                                NetLabelScope::Global => true,
                                _ => false,
                            },
                            NetLabelScope::Global => false,
                        },
                    };
                    if widen {
                        label = Some((name.clone(), *scope));
                    }
                },
                _ => {},
            }
        } else {
            assert(!linked(edges, r as int, k as int));
        }
        k = k + 1;
    }
    (pins, sps, label)
}

/// The root of each point's class, after joining all links: two points have the same
/// root exactly when they are linked.
pub(crate) fn point_roots(pts: &Vec<ConnectionPoint>, wires: &Vec<Vec<GridPoint>>) -> (roots: Vec<usize>)
    ensures
        roots@.len() == pts@.len(),
        forall|a: int, b: int|
            0 <= a < pts@.len() && 0 <= b < pts@.len() ==> ((roots@[a] == roots@[b]) <==> linked(
                all_edges(positions(pts@), wires@.map_values(|w: Vec<GridPoint>| w@)),
                a,
                b,
            )),
{
    let ghost edges = all_edges(positions(pts@), wires@.map_values(|w: Vec<GridPoint>| w@));
    let mut uf = join_points(pts, wires);
    let n = pts.len();
    let ghost uf0 = uf;
    let mut roots: Vec<usize> = Vec::new();
    let mut i: usize = 0;
    while i < n
        invariant
            i <= n == pts@.len(),
            uf.wf(),
            uf.len() == n,
            uf0.len() == n,
            forall|a: int| 0 <= a < n ==> #[trigger] uf.root(a) == uf0.root(a),
            roots@.len() == i,
            forall|a: int| 0 <= a < i ==> roots@[a] as int == #[trigger] uf0.root(a),
        decreases n - i,
    {
        let rt = uf.find(i);
        roots.push(rt);
        i = i + 1;
    }
    assert forall|a: int, b: int| 0 <= a < n && 0 <= b < n implies ((roots@[a] == roots@[b])
        <==> linked(edges, a, b)) by {
        assert(uf0.connected(a, b) <==> linked(edges, a, b));
    }
    roots
}

/// Build the nets of an outline from its connection points and wires: points that
/// coincide, or lie at the ends of a wire segment, share a net; each net with a pin or
/// a sheet pin is listed, in the order of its first point, named by its widest label or
/// numbered `NET_1`, `NET_2`, ...; its connections are its pins then its sheet pins as
/// `REF:PIN` texts.
pub fn build_outline_nets(pts: &Vec<ConnectionPoint>, wires: &Vec<Vec<GridPoint>>) -> (r: Vec<
    NetInfo,
>)
    ensures
        net_info_views(r@) == outline_nets_spec(pts@, wires@.map_values(|w: Vec<GridPoint>| w@)),
{
    let ghost edges = all_edges(positions(pts@), wires@.map_values(|w: Vec<GridPoint>| w@));
    let roots = point_roots(pts, wires);
    let n = pts.len();
    let mut out: Vec<NetInfo> = Vec::new();
    let mut counter: u128 = 1;
    let mut i: usize = 0;
    assert(net_info_views(out@) == Seq::<NetInfoView>::empty());
    while i < n
        invariant
            i <= n == pts@.len(),
            roots@.len() == n,
            counter <= i + 1,
            forall|a: int, b: int|
                0 <= a < n && 0 <= b < n ==> ((roots@[a] == roots@[b]) <==> linked(edges, a, b)),
            nets_from(pts@, edges, 0, 1) == net_info_views(out@) + nets_from(
                pts@,
                edges,
                i as int,
                counter as nat,
            ),
        decreases n - i,
    {
        let mut first = true;
        let mut j: usize = 0;
        while j < i
            invariant
                j <= i < n == pts@.len(),
                roots@.len() == n,
                forall|a: int, b: int|
                    0 <= a < n && 0 <= b < n ==> ((roots@[a] == roots@[b]) <==> linked(edges, a, b)),
                first == forall|q: int| 0 <= q < j ==> !linked(edges, i as int, q),
            decreases i - j,
        {
            assert((roots@[i as int] == roots@[j as int]) <==> linked(edges, i as int, j as int));
            if roots[j] == roots[i] {
                first = false;
            }
            j = j + 1;
        }
        if !first {
            i = i + 1;
            continue;
        }
        let (pins, sps, label) = gather_group(pts, &roots, i, Ghost(edges));
        if pins.len() == 0 && sps.len() == 0 {
            i = i + 1;
            continue;
        }
        let (name, scope) = match label {
            Some((nm, sc)) => (nm, sc),
            None => {
                let mut nm = String::from_str("NET_");
                crate::sexpr::push_digits(&mut nm, counter);
                counter = counter + 1;
                (nm, NetLabelScope::Local)
            },
        };
        let mut conns: Vec<String> = Vec::new();
        let mut k: usize = 0;
        while k < pins.len()
            invariant
                k <= pins@.len(),
                conns@.map_values(|s: String| s@) == joined_views(pins@).take(k as int),
            decreases pins@.len() - k,
        {
            let c = joined(&pins[k].0, &pins[k].1);
            proof {
                assert(conns@.push(c).map_values(|s: String| s@) == conns@.map_values(|s: String| s@).push(c@));
                assert(joined_views(pins@).take(k + 1) == joined_views(pins@).take(k as int).push(
                    joined_views(pins@)[k as int],
                ));
            }
            conns.push(c);
            k = k + 1;
        }
        let mut k: usize = 0;
        let ghost pv = joined_views(pins@);
        assert(pv.take(pins@.len() as int) == pv);
        while k < sps.len()
            invariant
                k <= sps@.len(),
                pv == joined_views(pins@),
                conns@.map_values(|s: String| s@) == pv + joined_views(sps@).take(k as int),
            decreases sps@.len() - k,
        {
            let c = joined(&sps[k].0, &sps[k].1);
            proof {
                assert(conns@.push(c).map_values(|s: String| s@) == conns@.map_values(|s: String| s@).push(c@));
                assert(joined_views(sps@).take(k + 1) == joined_views(sps@).take(k as int).push(
                    joined_views(sps@)[k as int],
                ));
            }
            conns.push(c);
            k = k + 1;
        }
        assert(joined_views(sps@).take(sps@.len() as int) == joined_views(sps@));
        let is_global = match scope {
            NetLabelScope::Global => true,
            _ => false,
        };
        let info = NetInfo { name, is_global, scope, connections: conns };
        proof {
            assert(joined_views(pins@) == pairs_view(pins@).map_values(
                |p: (Seq<char>, Seq<char>)| pair_joined(p),
            ));
            assert(joined_views(sps@) == pairs_view(sps@).map_values(
                |p: (Seq<char>, Seq<char>)| pair_joined(p),
            ));
            assert(net_info_views(out@.push(info)) == net_info_views(out@).push(net_info_view(info)));
        }
        out.push(info);
        i = i + 1;
    }
    out
}


/// A placed symbol as the outline reads it: its reference and value, and each pin's
/// number, name and position (when the position is known).
#[derive(Debug)]
pub struct SymbolPins {
    pub reference: String,
    pub value: String,
    pub pins: Vec<(String, String, Option<GridPoint>)>,
}

/// A sheet with the positions of its pins.
#[derive(Debug)]
pub struct SheetPins {
    pub sheet_name: String,
    pub pins: Vec<(String, GridPoint)>,
}

/// The things on a schematic that make connections.
#[derive(Debug)]
pub struct SchematicPoints {
    pub symbols: Vec<SymbolPins>,
    pub wires: Vec<Vec<GridPoint>>,
    pub junctions: Vec<GridPoint>,
    pub labels: Vec<(String, GridPoint)>,
    pub global_labels: Vec<(String, GridPoint)>,
    pub hierarchical_labels: Vec<(String, GridPoint)>,
    pub sheets: Vec<SheetPins>,
}

/// A connection point as texts.
pub enum PointView {
    Pin { reference: Seq<char>, pin_number: Seq<char>, pin_name: Seq<char> },
    WireEndpoint,
    Junction,
    Label { name: Seq<char>, scope: NetLabelScope },
    SheetPin { sheet_name: Seq<char>, pin_name: Seq<char> },
}

pub open spec fn point_view(p: ConnectionPoint) -> (GridPoint, PointView) {
    (
        p.position,
        match p.kind {
            ConnectionKind::Pin { reference, pin_number, pin_name } => PointView::Pin {
                reference: reference@,
                pin_number: pin_number@,
                pin_name: pin_name@,
            },
            ConnectionKind::WireEndpoint => PointView::WireEndpoint,
            ConnectionKind::Junction => PointView::Junction,
            ConnectionKind::Label { name, scope } => PointView::Label { name: name@, scope },
            ConnectionKind::SheetPin { sheet_name, pin_name } => PointView::SheetPin {
                sheet_name: sheet_name@,
                pin_name: pin_name@,
            },
        },
    )
}

pub open spec fn point_views(v: Seq<ConnectionPoint>) -> Seq<(GridPoint, PointView)> {
    v.map_values(|p: ConnectionPoint| point_view(p))
}

/// The points of a symbol's pins that have a position: for a power symbol (reference
/// starting with `#`) a global label named by its value, otherwise the pin.
pub open spec fn symbol_points(s: SymbolPins, k: int) -> Seq<(GridPoint, PointView)>
    decreases k,
{
    if k <= 0 || k > s.pins@.len() {
        Seq::empty()
    } else {
        let rest = symbol_points(s, k - 1);
        let p = s.pins@[k - 1];
        match p.2 {
            None => rest,
            Some(pos) => if s.reference@.len() > 0 && s.reference@[0] == '#' {
                rest.push((pos, PointView::Label { name: s.value@, scope: NetLabelScope::Global }))
            } else {
                rest.push(
                    (pos, PointView::Pin { reference: s.reference@, pin_number: p.0@, pin_name: p.1@ }),
                )
            },
        }
    }
}

/// The points of a wire: its first point, its last, then the ones between.
pub open spec fn wire_points(w: Seq<GridPoint>) -> Seq<(GridPoint, PointView)> {
    if w.len() == 0 {
        Seq::empty()
    } else {
        seq![(w[0], PointView::WireEndpoint)] + (if w.len() > 1 {
            seq![(w.last(), PointView::WireEndpoint)]
        } else {
            Seq::empty()
        }) + w.subrange(1, if w.len() > 1 { w.len() - 1 } else { 1 }).map_values(
            |q: GridPoint| (q, PointView::WireEndpoint),
        )
    }
}

pub open spec fn label_points(ls: Seq<(String, GridPoint)>, scope: NetLabelScope) -> Seq<
    (GridPoint, PointView),
> {
    ls.map_values(|l: (String, GridPoint)| (l.1, PointView::Label { name: l.0@, scope }))
}

pub open spec fn sheet_points(s: SheetPins) -> Seq<(GridPoint, PointView)> {
    s.pins@.map_values(
        |p: (String, GridPoint)| (p.1, PointView::SheetPin { sheet_name: s.sheet_name@, pin_name: p.0@ }),
    )
}

/// Sequences one after the other.
pub open spec fn concat_points(vs: Seq<Seq<(GridPoint, PointView)>>) -> Seq<(GridPoint, PointView)>
    decreases vs.len(),
{
    if vs.len() == 0 {
        Seq::empty()
    } else {
        concat_points(vs.drop_last()) + vs.last()
    }
}

/// All connection points of a schematic, in order: symbol pins, wire points, junctions,
/// local, global and hierarchical labels, sheet pins.
pub open spec fn schematic_points(s: SchematicPoints) -> Seq<(GridPoint, PointView)> {
    concat_points(s.symbols@.map_values(|y: SymbolPins| symbol_points(y, y.pins@.len() as int)))
        + concat_points(s.wires@.map_values(|w: Vec<GridPoint>| wire_points(w@))) + s.junctions@.map_values(
        |q: GridPoint| (q, PointView::Junction),
    ) + label_points(s.labels@, NetLabelScope::Local) + label_points(
        s.global_labels@,
        NetLabelScope::Global,
    ) + label_points(s.hierarchical_labels@, NetLabelScope::Hierarchical) + concat_points(
        s.sheets@.map_values(|y: SheetPins| sheet_points(y)),
    )
}

pub(crate) fn push_point(out: &mut Vec<ConnectionPoint>, p: ConnectionPoint)
    ensures
        point_views(final(out)@) == point_views(old(out)@).push(point_view(p)),
{
    proof {
        assert(point_views(old(out)@.push(p)) == point_views(old(out)@).push(point_view(p)));
    }
    out.push(p);
}


fn add_symbol_points(out: &mut Vec<ConnectionPoint>, sym: &SymbolPins)
    ensures
        point_views(final(out)@) == point_views(old(out)@) + symbol_points(*sym, sym.pins@.len() as int),
{
    let ghost start = point_views(old(out)@);
    let power = match sym.reference.as_str().chars().next() {
        Some(c) => c == '#',
        None => false,
    };
    assert(power == (sym.reference@.len() > 0 && sym.reference@[0] == '#'));
    let mut k: usize = 0;
    assert(start + symbol_points(*sym, 0) == start);
    while k < sym.pins.len()
        invariant
            k <= sym.pins@.len(),
            power == (sym.reference@.len() > 0 && sym.reference@[0] == '#'),
            point_views(out@) == start + symbol_points(*sym, k as int),
        decreases sym.pins@.len() - k,
    {
        let p = &sym.pins[k];
        match p.2 {
            None => {},
            Some(pos) => {
                if power {
                    push_point(
                        out,
                        ConnectionPoint {
                            position: pos,
                            kind: ConnectionKind::Label {
                                name: sym.value.clone(),
                                scope: NetLabelScope::Global,
                            },
                        },
                    );
                } else {
                    push_point(
                        out,
                        ConnectionPoint {
                            position: pos,
                            kind: ConnectionKind::Pin {
                                reference: sym.reference.clone(),
                                pin_number: p.0.clone(),
                                pin_name: p.1.clone(),
                            },
                        },
                    );
                }
            },
        }
        k = k + 1;
    }
}

fn add_wire_points(out: &mut Vec<ConnectionPoint>, w: &Vec<GridPoint>)
    ensures
        point_views(final(out)@) == point_views(old(out)@) + wire_points(w@),
{
    let ghost start = point_views(old(out)@);
    let n = w.len();
    if n == 0 {
        assert(start + wire_points(w@) == start);
        return;
    }
    push_point(out, ConnectionPoint { position: w[0], kind: ConnectionKind::WireEndpoint });
    if n > 1 {
        push_point(out, ConnectionPoint { position: w[n - 1], kind: ConnectionKind::WireEndpoint });
    }
    let ghost head = point_views(out@);
    let ghost mid = w@.subrange(1, if n > 1 { n - 1 } else { 1 }).map_values(
        |q: GridPoint| (q, PointView::WireEndpoint),
    );
    let mut k: usize = 1;
    let end: usize = if n > 1 {
        n - 1
    } else {
        1
    };
    assert(mid.take(0) == Seq::<(GridPoint, PointView)>::empty());
    while k < end
        invariant
            1 <= k <= end <= n == w@.len(),
            end == (if n > 1 { n - 1 } else { 1 }),
            mid == w@.subrange(1, end as int).map_values(|q: GridPoint| (q, PointView::WireEndpoint)),
            point_views(out@) == head + mid.take(k - 1),
        decreases end - k,
    {
        push_point(out, ConnectionPoint { position: w[k], kind: ConnectionKind::WireEndpoint });
        assert(mid.take(k as int) == mid.take(k - 1).push(mid[k - 1]));
        k = k + 1;
    }
    assert(mid.take(end - 1) == mid);
}

pub(crate) fn add_label_points(out: &mut Vec<ConnectionPoint>, ls: &Vec<(String, GridPoint)>, scope: NetLabelScope)
    ensures
        point_views(final(out)@) == point_views(old(out)@) + label_points(ls@, scope),
{
    let ghost start = point_views(old(out)@);
    let ghost lp = label_points(ls@, scope);
    let mut k: usize = 0;
    assert(lp.take(0) == Seq::<(GridPoint, PointView)>::empty());
    while k < ls.len()
        invariant
            k <= ls@.len(),
            lp == label_points(ls@, scope),
            point_views(out@) == start + lp.take(k as int),
        decreases ls@.len() - k,
    {
        push_point(
            out,
            ConnectionPoint {
                position: ls[k].1,
                kind: ConnectionKind::Label { name: ls[k].0.clone(), scope },
            },
        );
        assert(lp.take(k + 1) == lp.take(k as int).push(lp[k as int]));
        k = k + 1;
    }
    assert(lp.take(ls@.len() as int) == lp);
}

fn add_sheet_points(out: &mut Vec<ConnectionPoint>, sh: &SheetPins)
    ensures
        point_views(final(out)@) == point_views(old(out)@) + sheet_points(*sh),
{
    let ghost start = point_views(old(out)@);
    let ghost sp = sheet_points(*sh);
    let mut k: usize = 0;
    assert(sp.take(0) == Seq::<(GridPoint, PointView)>::empty());
    while k < sh.pins.len()
        invariant
            k <= sh.pins@.len(),
            sp == sheet_points(*sh),
            point_views(out@) == start + sp.take(k as int),
        decreases sh.pins@.len() - k,
    {
        push_point(
            out,
            ConnectionPoint {
                position: sh.pins[k].1,
                kind: ConnectionKind::SheetPin {
                    sheet_name: sh.sheet_name.clone(),
                    pin_name: sh.pins[k].0.clone(),
                },
            },
        );
        assert(sp.take(k + 1) == sp.take(k as int).push(sp[k as int]));
        k = k + 1;
    }
    assert(sp.take(sh.pins@.len() as int) == sp);
}

/// All connection points of a schematic, in order: symbol pins (power symbols as
/// global labels of their value), wire points, junctions, local, global and hierarchical
/// labels, and sheet pins.
pub fn collect_connection_points(s: &SchematicPoints) -> (r: Vec<ConnectionPoint>)
    ensures
        point_views(r@) == schematic_points(*s),
{
    let mut out: Vec<ConnectionPoint> = Vec::new();
    let ghost sym_parts = s.symbols@.map_values(|y: SymbolPins| symbol_points(y, y.pins@.len() as int));
    let mut k: usize = 0;
    assert(sym_parts.take(0) == Seq::<Seq<(GridPoint, PointView)>>::empty());
    assert(point_views(out@) == concat_points(sym_parts.take(0)));
    while k < s.symbols.len()
        invariant
            k <= s.symbols@.len(),
            sym_parts == s.symbols@.map_values(|y: SymbolPins| symbol_points(y, y.pins@.len() as int)),
            point_views(out@) == concat_points(sym_parts.take(k as int)),
        decreases s.symbols@.len() - k,
    {
        add_symbol_points(&mut out, &s.symbols[k]);
        assert(sym_parts.take(k + 1).drop_last() == sym_parts.take(k as int));
        k = k + 1;
    }
    assert(sym_parts.take(s.symbols@.len() as int) == sym_parts);
    let ghost a = point_views(out@);
    let ghost wire_parts = s.wires@.map_values(|w: Vec<GridPoint>| wire_points(w@));
    let mut k: usize = 0;
    assert(wire_parts.take(0) == Seq::<Seq<(GridPoint, PointView)>>::empty());
    assert(a + concat_points(wire_parts.take(0)) == a);
    while k < s.wires.len()
        invariant
            k <= s.wires@.len(),
            wire_parts == s.wires@.map_values(|w: Vec<GridPoint>| wire_points(w@)),
            point_views(out@) == a + concat_points(wire_parts.take(k as int)),
        decreases s.wires@.len() - k,
    {
        add_wire_points(&mut out, &s.wires[k]);
        assert(wire_parts.take(k + 1).drop_last() == wire_parts.take(k as int));
        k = k + 1;
    }
    assert(wire_parts.take(s.wires@.len() as int) == wire_parts);
    let ghost b = point_views(out@);
    let ghost jp = s.junctions@.map_values(|q: GridPoint| (q, PointView::Junction));
    let mut k: usize = 0;
    assert(jp.take(0) == Seq::<(GridPoint, PointView)>::empty());
    while k < s.junctions.len()
        invariant
            k <= s.junctions@.len(),
            jp == s.junctions@.map_values(|q: GridPoint| (q, PointView::Junction)),
            point_views(out@) == b + jp.take(k as int),
        decreases s.junctions@.len() - k,
    {
        push_point(&mut out, ConnectionPoint { position: s.junctions[k], kind: ConnectionKind::Junction });
        assert(jp.take(k + 1) == jp.take(k as int).push(jp[k as int]));
        k = k + 1;
    }
    assert(jp.take(s.junctions@.len() as int) == jp);
    add_label_points(&mut out, &s.labels, NetLabelScope::Local);
    add_label_points(&mut out, &s.global_labels, NetLabelScope::Global);
    add_label_points(&mut out, &s.hierarchical_labels, NetLabelScope::Hierarchical);
    let ghost c = point_views(out@);
    let ghost sheet_parts = s.sheets@.map_values(|y: SheetPins| sheet_points(y));
    let mut k: usize = 0;
    assert(sheet_parts.take(0) == Seq::<Seq<(GridPoint, PointView)>>::empty());
    assert(c + concat_points(sheet_parts.take(0)) == c);
    while k < s.sheets.len()
        invariant
            k <= s.sheets@.len(),
            sheet_parts == s.sheets@.map_values(|y: SheetPins| sheet_points(y)),
            point_views(out@) == c + concat_points(sheet_parts.take(k as int)),
        decreases s.sheets@.len() - k,
    {
        add_sheet_points(&mut out, &s.sheets[k]);
        assert(sheet_parts.take(k + 1).drop_last() == sheet_parts.take(k as int));
        k = k + 1;
    }
    assert(sheet_parts.take(s.sheets@.len() as int) == sheet_parts);
    out
}


/// Nets ordered by name.
pub open spec fn name_order() -> spec_fn(NetInfoView, NetInfoView) -> bool {
    |a: NetInfoView, b: NetInfoView| seq_lt(a.name, b.name)
}

/// Nets sorted by name, equal names keeping their order.
pub fn sort_nets_by_name(v: Vec<NetInfo>) -> (r: Vec<NetInfo>)
    ensures
        net_info_views(r@) == sort_by(net_info_views(v@), name_order()),
{
    let ghost sv = net_info_views(v@);
    let mut rest = v;
    let mut out: Vec<NetInfo> = Vec::new();
    let ghost mut k: int = 0;
    assert(sv.take(0) == Seq::<NetInfoView>::empty());
    while rest.len() > 0
        invariant
            0 <= k <= sv.len(),
            rest@.len() + k == sv.len(),
            net_info_views(rest@) == sv.skip(k),
            net_info_views(out@) == sort_by(sv.take(k), name_order()),
        decreases rest@.len(),
    {
        let ghost old_rest = rest@;
        let x = rest.remove(0);
        proof {
            assert(net_info_views(old_rest)[0] == net_info_view(old_rest[0]));
            assert(sv.skip(k)[0] == sv[k]);
            assert(net_info_views(rest@) =~= sv.skip(k + 1)) by {
                assert forall|j: int| 0 <= j < rest@.len() implies net_info_views(rest@)[j]
                    == sv.skip(k + 1)[j] by {
                    assert(rest@[j] == old_rest[j + 1]);
                    assert(net_info_views(old_rest)[j + 1] == sv.skip(k)[j + 1]);
                }
            }
            assert(sv.take(k + 1).drop_last() == sv.take(k));
        }
        let mut p: usize = 0;
        let mut found = false;
        while !found && p < out.len()
            invariant
                p <= out@.len(),
                found ==> p < out@.len() && (name_order())(
                    net_info_view(x),
                    net_info_views(out@)[p as int],
                ),
                forall|j: int|
                    0 <= j < p ==> !(name_order())(net_info_view(x), #[trigger] net_info_views(out@)[j]),
            decreases out@.len() - p, (if found {
                0int
            } else {
                1int
            }),
        {
            assert(net_info_views(out@)[p as int] == net_info_view(out@[p as int]));
            if str_lt(x.name.as_str(), out[p].name.as_str()) {
                found = true;
            } else {
                p = p + 1;
            }
        }
        proof {
            lemma_insert_at(net_info_views(out@), net_info_view(x), name_order(), p as int);
            assert(net_info_views(out@.insert(p as int, x)) == net_info_views(out@).insert(
                p as int,
                net_info_view(x),
            ));
            k = k + 1;
        }
        out.insert(p, x);
    }
    assert(sv.take(sv.len() as int) == sv);
    out
}

/// The nets of a schematic's outline, sorted by name: those of its connection points
/// and wires.
pub fn schematic_nets(s: &SchematicPoints) -> (r: Vec<NetInfo>)
    ensures
        exists|pts: Seq<ConnectionPoint>|
            point_views(pts) == schematic_points(*s) && net_info_views(r@) == sort_by(
                outline_nets_spec(pts, s.wires@.map_values(|w: Vec<GridPoint>| w@)),
                name_order(),
            ),
{
    let pts = collect_connection_points(s);
    let nets = build_outline_nets(&pts, &s.wires);
    let r = sort_nets_by_name(nets);
    assert(point_views(pts@) == schematic_points(*s));
    r
}


/// The outline's summary counts: components, wires, junctions, local and global labels
/// of the schematic, and the nets found.
pub fn schematic_stats(s: &SchematicPoints, nets: &Vec<NetInfo>) -> (r: SchematicStats)
    ensures
        r.component_count == s.symbols@.len(),
        r.wire_count == s.wires@.len(),
        r.junction_count == s.junctions@.len(),
        r.label_count == s.labels@.len(),
        r.global_label_count == s.global_labels@.len(),
        r.net_count == nets@.len(),
{
    SchematicStats {
        component_count: s.symbols.len(),
        wire_count: s.wires.len(),
        junction_count: s.junctions.len(),
        label_count: s.labels.len(),
        global_label_count: s.global_labels.len(),
        net_count: nets.len(),
    }
}

/// The links between points join them into classes: every point is joined to itself,
/// joining goes both ways, and it carries over from one point to the next.
pub proof fn lemma_linked_is_equivalence(edges: Seq<(int, int)>)
    ensures
        forall|a: int| #[trigger] linked(edges, a, a),
        forall|a: int, b: int| #[trigger] linked(edges, a, b) ==> linked(edges, b, a),
        forall|a: int, b: int, c: int|
            #[trigger] linked(edges, a, b) && #[trigger] linked(edges, b, c) ==> linked(edges, a, c),
    decreases edges.len(),
{
    if edges.len() > 0 {
        let e = edges.drop_last();
        lemma_linked_is_equivalence(e);
        let x = edges.last().0;
        let y = edges.last().1;
        assert forall|a: int| #[trigger] linked(edges, a, a) by {
            assert(linked(e, a, a));
        }
        assert forall|a: int, b: int| #[trigger] linked(edges, a, b) implies linked(edges, b, a) by {
            if linked(e, a, b) {
                assert(linked(e, b, a));
            }
            if linked(e, a, x) && linked(e, b, y) {
                assert(linked(e, b, y) && linked(e, a, x));
            }
            if linked(e, a, y) && linked(e, b, x) {
                assert(linked(e, b, x) && linked(e, a, y));
            }
        }
        assert forall|a: int, b: int, c: int|
            #[trigger] linked(edges, a, b) && #[trigger] linked(edges, b, c) implies linked(
                edges,
                a,
                c,
            ) by {
            assert(linked(e, a, b) || (linked(e, a, x) && linked(e, b, y)) || (linked(e, a, y)
                && linked(e, b, x)));
            assert(linked(e, b, c) || (linked(e, b, x) && linked(e, c, y)) || (linked(e, b, y)
                && linked(e, c, x)));
            assert(linked(e, x, x) && linked(e, y, y));
        }
    }
}

/// Each link joins its two points, and joins stay when more links come.
pub proof fn lemma_links_join(edges: Seq<(int, int)>, k: int)
    requires
        0 <= k < edges.len(),
    ensures
        linked(edges, edges[k].0, edges[k].1),
    decreases edges.len(),
{
    let e = edges.drop_last();
    lemma_linked_is_equivalence(e);
    if k < edges.len() - 1 {
        lemma_links_join(e, k);
        assert(e[k] == edges[k]);
    } else {
        let x = edges.last().0;
        let y = edges.last().1;
        assert(linked(e, x, x) && linked(e, y, y));
    }
}

proof fn lemma_linked_prefix(a: Seq<(int, int)>, b: Seq<(int, int)>, i: int, j: int)
    requires
        linked(a, i, j),
    ensures
        linked(a + b, i, j),
    decreases b.len(),
{
    if b.len() == 0 {
        assert(a + b == a);
    } else {
        lemma_linked_prefix(a, b.drop_last(), i, j);
        assert((a + b).drop_last() == a + b.drop_last());
    }
}

proof fn lemma_proximity_has(ps: Seq<GridPoint>, i: int, j: int, i0: int, j0: int)
    requires
        0 <= i0 < ps.len(),
        i0 < j0,
        0 <= i < j < ps.len(),
        near(ps[i], ps[j]),
        i0 < i || (i0 == i && j0 <= j),
    ensures
        proximity_edges(ps, i0, j0).contains((i, j)),
    decreases ps.len() - i0, ps.len() - j0,
{
    if j0 >= ps.len() {
        lemma_proximity_has(ps, i, j, i0 + 1, i0 + 2);
    } else {
        let rest = proximity_edges(ps, i0, j0 + 1);
        if i0 == i && j0 == j {
            assert(proximity_edges(ps, i0, j0)[0] == (i, j));
        } else {
            lemma_proximity_has(ps, i, j, i0, j0 + 1);
            let k = choose|k: int| 0 <= k < rest.len() && rest[k] == (i, j);
            if near(ps[i0], ps[j0]) {
                assert(proximity_edges(ps, i0, j0)[k + 1] == (i, j));
            }
        }
    }
}

/// Points that lie closer than half a millimetre are in the same net.
pub proof fn lemma_coinciding_points_share_a_net(ps: Seq<GridPoint>, wires: Seq<Seq<GridPoint>>, i: int, j: int)
    requires
        0 <= i < ps.len(),
        0 <= j < ps.len(),
        near(ps[i], ps[j]),
    ensures
        linked(all_edges(ps, wires), i, j),
{
    let prox = proximity_edges(ps, 0, 1);
    lemma_linked_is_equivalence(prox);
    if i != j {
        let (a, b) = if i < j {
            (i, j)
        } else {
            (j, i)
        };
        assert(near(ps[a], ps[b])) by {
            assert((ps[a].x - ps[b].x) * (ps[a].x - ps[b].x) == (ps[b].x - ps[a].x) * (ps[b].x
                - ps[a].x)) by (nonlinear_arith);
            assert((ps[a].y - ps[b].y) * (ps[a].y - ps[b].y) == (ps[b].y - ps[a].y) * (ps[b].y
                - ps[a].y)) by (nonlinear_arith);
        }
        lemma_proximity_has(ps, a, b, 0, 1);
        let k = choose|k: int| 0 <= k < prox.len() && prox[k] == (a, b);
        lemma_links_join(prox, k);
    }
    lemma_linked_prefix(prox, wire_edges(ps, wires, 0), i, j);
}


proof fn lemma_segment_has(ps: Seq<GridPoint>, w: Seq<GridPoint>, k: int, k0: int, a: int, b: int)
    requires
        0 <= k0 <= k,
        k + 1 < w.len(),
        first_near(ps, w[k]) == Some(a),
        first_near(ps, w[k + 1]) == Some(b),
    ensures
        segment_edges(ps, w, k0).contains((a, b)),
    decreases k - k0,
{
    let rest = segment_edges(ps, w, k0 + 1);
    if k0 == k {
        assert(segment_edges(ps, w, k0)[0] == (a, b));
    } else {
        lemma_segment_has(ps, w, k, k0 + 1, a, b);
        let t = choose|t: int| 0 <= t < rest.len() && rest[t] == (a, b);
        match (first_near(ps, w[k0]), first_near(ps, w[k0 + 1])) {
            (Some(_), Some(_)) => {
                assert(segment_edges(ps, w, k0)[t + 1] == (a, b));
            },
            _ => {},
        }
    }
}

proof fn lemma_wire_has(ps: Seq<GridPoint>, wires: Seq<Seq<GridPoint>>, wi: int, wi0: int, e: (int, int))
    requires
        0 <= wi0 <= wi < wires.len(),
        segment_edges(ps, wires[wi], 0).contains(e),
    ensures
        wire_edges(ps, wires, wi0).contains(e),
    decreases wi - wi0,
{
    let head = segment_edges(ps, wires[wi0], 0);
    if wi0 == wi {
        let t = choose|t: int| 0 <= t < head.len() && head[t] == e;
        assert(wire_edges(ps, wires, wi0)[t] == e);
    } else {
        lemma_wire_has(ps, wires, wi, wi0 + 1, e);
        let rest = wire_edges(ps, wires, wi0 + 1);
        let t = choose|t: int| 0 <= t < rest.len() && rest[t] == e;
        assert(wire_edges(ps, wires, wi0)[head.len() + t] == e);
    }
}

/// The points at the two ends of a wire segment are in the same net.
pub proof fn lemma_wire_ends_share_a_net(
    ps: Seq<GridPoint>,
    wires: Seq<Seq<GridPoint>>,
    wi: int,
    k: int,
    a: int,
    b: int,
)
    requires
        0 <= wi < wires.len(),
        0 <= k,
        k + 1 < wires[wi].len(),
        first_near(ps, wires[wi][k]) == Some(a),
        first_near(ps, wires[wi][k + 1]) == Some(b),
    ensures
        linked(all_edges(ps, wires), a, b),
{
    lemma_segment_has(ps, wires[wi], k, 0, a, b);
    lemma_wire_has(ps, wires, wi, 0, (a, b));
    let prox = proximity_edges(ps, 0, 1);
    let we = wire_edges(ps, wires, 0);
    let t = choose|t: int| 0 <= t < we.len() && we[t] == (a, b);
    assert(all_edges(ps, wires)[prox.len() + t] == (a, b));
    lemma_links_join(all_edges(ps, wires), prox.len() + t);
}


/// The outline lists its nets in name order, each net it found exactly once.
pub proof fn lemma_nets_listed_in_name_order(nets: Seq<NetInfoView>)
    ensures
        sorted_by(sort_by(nets, name_order()), name_order()),
        sort_by(nets, name_order()).to_multiset() == nets.to_multiset(),
{
    lemma_text_order_strict();
    assert(strict_order(name_order())) by {
        assert forall|a: NetInfoView| !#[trigger] (name_order())(a, a) by {
            assert(!seq_lt(a.name, a.name));
        }
        assert forall|a: NetInfoView, b: NetInfoView, c: NetInfoView|
            #[trigger] (name_order())(a, b) && #[trigger] (name_order())(b, c) implies (name_order())(
                a,
                c,
            ) by {
            assert(seq_lt(a.name, b.name) && seq_lt(b.name, c.name));
        }
    }
    lemma_sort_by(nets, name_order());
}

/// How wide a label reaches: local, then hierarchical, then global.
pub open spec fn scope_rank(s: NetLabelScope) -> int {
    match s {
        NetLabelScope::Local => 0,
        NetLabelScope::Hierarchical => 1,
        NetLabelScope::Global => 2,
    }
}

/// Point `j` is a label of the given name and scope.
pub open spec fn label_at(pts: Seq<ConnectionPoint>, j: int, name: Seq<char>, scope: NetLabelScope) -> bool {
    pts[j].kind matches ConnectionKind::Label { name: n, scope: s } && n@ == name && s == scope
}

/// A point kind that is a label of the given scope.
pub open spec fn is_label_of_scope(kind: ConnectionKind, scope: NetLabelScope) -> bool {
    kind matches ConnectionKind::Label { scope: s, .. } && s == scope
}

/// The scope of a net's label, if it has one.
pub open spec fn label_scope(g: Option<(Seq<char>, NetLabelScope)>) -> Option<NetLabelScope> {
    match g {
        Some((_, s)) => Some(s),
        None => None,
    }
}

/// Among the first `k` points, one on the net of `r` is a label of the given scope.
pub open spec fn net_has_label_scope(pts: Seq<ConnectionPoint>, edges: Seq<(int, int)>, r: int, k: int, scope: NetLabelScope) -> bool {
    exists|j: int|
        0 <= j < k && linked(edges, r, j) && is_label_of_scope(#[trigger] pts[j].kind, scope)
}

/// No label of the net of `r` before point `j` has the scope `s` or a wider one.
pub open spec fn first_of_scope(pts: Seq<ConnectionPoint>, edges: Seq<(int, int)>, r: int, j: int, s: NetLabelScope) -> bool {
    forall|i: int|
        0 <= i < j && linked(edges, r, i) && (#[trigger] pts[i].kind) is Label ==> scope_rank(pts[i].kind->Label_scope)
            < scope_rank(s)
}

/// `(nm, s)` is a label of the net of `r` among the first `k` points, and no label of
/// that net there reaches wider.
pub open spec fn widest_label(pts: Seq<ConnectionPoint>, edges: Seq<(int, int)>, r: int, k: int, nm: Seq<char>, s: NetLabelScope) -> bool {
    &&& exists|j: int| 0 <= j < k && linked(edges, r, j) && #[trigger] label_at(pts, j, nm, s) && first_of_scope(pts, edges, r, j, s)
    &&& forall|j: int|
        0 <= j < k && linked(edges, r, j) && (#[trigger] pts[j].kind) is Label ==> scope_rank(pts[j].kind->Label_scope)
            <= scope_rank(s)
}

proof fn lemma_group_label_widest(pts: Seq<ConnectionPoint>, edges: Seq<(int, int)>, r: int, k: int)
    requires
        0 <= k <= pts.len(),
    ensures
        group_label(pts, edges, r, k) is None ==> forall|j: int|
            0 <= j < k && linked(edges, r, j) ==> !((#[trigger] pts[j].kind) is Label),
        group_label(pts, edges, r, k) matches Some((nm, s)) ==> widest_label(pts, edges, r, k, nm, s),
    decreases k,
{
    if k > 0 {
        lemma_group_label_widest(pts, edges, r, k - 1);
        let cur = group_label(pts, edges, r, k - 1);
        let res = group_label(pts, edges, r, k);
        if let Some((cn, cs)) = cur {
            let w = choose|j: int| 0 <= j < k - 1 && linked(edges, r, j) && #[trigger] label_at(pts, j, cn, cs) && first_of_scope(pts, edges, r, j, cs);
            assert(label_at(pts, w, cn, cs));
        }
        if linked(edges, r, k - 1) && pts[k - 1].kind is Label {
            let name = pts[k - 1].kind->Label_name;
            let scope = pts[k - 1].kind->Label_scope;
            if widens(cur, scope) {
                assert(res == Some((name@, scope)));
                assert(label_at(pts, k - 1, name@, scope));
                assert forall|i: int|
                    0 <= i < k - 1 && linked(edges, r, i) && (#[trigger] pts[i].kind) is Label implies scope_rank(
                        pts[i].kind->Label_scope,
                    ) < scope_rank(scope) by {
                    if let Some((cn, cs)) = cur {
                        assert(scope_rank(cs) < scope_rank(scope));
                    }
                }
                assert(first_of_scope(pts, edges, r, k - 1, scope));
                assert forall|j: int|
                    0 <= j < k && linked(edges, r, j) && (#[trigger] pts[j].kind) is Label implies scope_rank(
                        pts[j].kind->Label_scope,
                    ) <= scope_rank(scope) by {
                    if j < k - 1 {
                        if let Some((cn, cs)) = cur {
                            assert(scope_rank(cs) < scope_rank(scope));
                        }
                    }
                }
                assert(widest_label(pts, edges, r, k, name@, scope));
            } else {
                assert(res == cur);
                let (cn, cs) = cur.unwrap();
                assert(scope_rank(scope) <= scope_rank(cs));
                assert forall|j: int|
                    0 <= j < k && linked(edges, r, j) && (#[trigger] pts[j].kind) is Label implies scope_rank(
                        pts[j].kind->Label_scope,
                    ) <= scope_rank(cs) by {}
                assert(widest_label(pts, edges, r, k, cn, cs));
            }
        } else {
            assert(res == cur);
            if let Some((cn, cs)) = cur {
                let w = choose|j: int| 0 <= j < k - 1 && linked(edges, r, j) && #[trigger] label_at(pts, j, cn, cs) && first_of_scope(pts, edges, r, j, cs);
                assert forall|j: int|
                    0 <= j < k && linked(edges, r, j) && (#[trigger] pts[j].kind) is Label implies scope_rank(
                        pts[j].kind->Label_scope,
                    ) <= scope_rank(cs) by {}
                assert(widest_label(pts, edges, r, k, cn, cs));
            }
        }
    }
}

/// A net takes its name and scope from the first of its labels of the widest scope it
/// has: a global label when it has one, else a hierarchical label when it has one; a
/// local label only when it has no other.
pub proof fn lemma_net_label_widest_scope(pts: Seq<ConnectionPoint>, edges: Seq<(int, int)>, r: int, k: int)
    requires
        0 <= k <= pts.len(),
    ensures
        group_label(pts, edges, r, k) matches Some((nm, s)) ==> exists|j: int|
            0 <= j < k && linked(edges, r, j) && #[trigger] label_at(pts, j, nm, s) && first_of_scope(pts, edges, r, j, s),
        net_has_label_scope(pts, edges, r, k, NetLabelScope::Global) ==> label_scope(group_label(pts, edges, r, k))
            == Some(NetLabelScope::Global),
        !net_has_label_scope(pts, edges, r, k, NetLabelScope::Global) && net_has_label_scope(
            pts,
            edges,
            r,
            k,
            NetLabelScope::Hierarchical,
        ) ==> label_scope(group_label(pts, edges, r, k)) == Some(NetLabelScope::Hierarchical),
        !net_has_label_scope(pts, edges, r, k, NetLabelScope::Global) && !net_has_label_scope(
            pts,
            edges,
            r,
            k,
            NetLabelScope::Hierarchical,
        ) && net_has_label_scope(pts, edges, r, k, NetLabelScope::Local) ==> label_scope(group_label(pts, edges, r, k))
            == Some(NetLabelScope::Local),
{
    lemma_group_label_widest(pts, edges, r, k);
    if net_has_label_scope(pts, edges, r, k, NetLabelScope::Global) {
        let j = choose|j: int|
            0 <= j < k && linked(edges, r, j) && is_label_of_scope(#[trigger] pts[j].kind, NetLabelScope::Global);
        assert(pts[j].kind is Label);
    }
    if net_has_label_scope(pts, edges, r, k, NetLabelScope::Hierarchical) {
        let j = choose|j: int|
            0 <= j < k && linked(edges, r, j) && is_label_of_scope(#[trigger] pts[j].kind, NetLabelScope::Hierarchical);
        assert(pts[j].kind is Label);
    }
    if net_has_label_scope(pts, edges, r, k, NetLabelScope::Local) {
        let j = choose|j: int|
            0 <= j < k && linked(edges, r, j) && is_label_of_scope(#[trigger] pts[j].kind, NetLabelScope::Local);
        assert(pts[j].kind is Label);
    }
    if let Some((nm, s)) = group_label(pts, edges, r, k) {
        assert(widest_label(pts, edges, r, k, nm, s));
        let w = choose|j: int| 0 <= j < k && linked(edges, r, j) && #[trigger] label_at(pts, j, nm, s) && first_of_scope(pts, edges, r, j, s);
        assert(label_at(pts, w, nm, s));
        if !net_has_label_scope(pts, edges, r, k, NetLabelScope::Global) {
            assert(s != NetLabelScope::Global);
        }
        if !net_has_label_scope(pts, edges, r, k, NetLabelScope::Hierarchical) {
            assert(s != NetLabelScope::Hierarchical);
        }
    }
}

} // verus!
