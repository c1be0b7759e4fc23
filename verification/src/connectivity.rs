//! Connectivity graph of a schematic: which connection points are joined, the net each
//! pin is on, and the pins that share it.
use vstd::prelude::*;
use crate::outline::NetLabelScope;
use crate::outline_nets::{
    ConnectionKind, ConnectionPoint, GridPoint, linked, all_edges, positions, first_near,
    is_first_of_group, group_pins, group_label, pairs_view, point_roots, gather_group,
    first_near_exec, lemma_linked_is_equivalence, SchematicPoints, SymbolPins, PointView,
    point_views, concat_points, label_points, push_point, add_label_points,
};
use crate::sexpr::dec_digits;

verus! {

/// The first point from `k` on, below `n`, that is joined to point `i` (`i` itself when
/// none is).
pub open spec fn first_joined_from(edges: Seq<(int, int)>, i: int, k: int, n: int) -> int
    decreases n - k,
{
    if k < 0 || k >= n {
        i
    } else if linked(edges, i, k) {
        k
    } else {
        first_joined_from(edges, i, k + 1, n)
    }
}

/// The first point of the net of point `i`.
pub open spec fn net_first(pts: Seq<ConnectionPoint>, edges: Seq<(int, int)>, i: int) -> int {
    first_joined_from(edges, i, 0, pts.len() as int)
}

/// Whether the net whose first point is `r` holds a pin but no label.
pub open spec fn is_unnamed_pin_net(pts: Seq<ConnectionPoint>, edges: Seq<(int, int)>, r: int) -> bool {
    &&& 0 <= r < pts.len()
    &&& is_first_of_group(edges, r)
    &&& group_pins(pts, edges, r, pts.len() as int).len() > 0
    &&& group_label(pts, edges, r, pts.len() as int) is None
}

/// How many nets with a pin and no label have their first points below `r`.
pub open spec fn unnamed_before(pts: Seq<ConnectionPoint>, edges: Seq<(int, int)>, r: int) -> nat
    decreases r,
{
    if r <= 0 {
        0
    } else {
        unnamed_before(pts, edges, r - 1) + if is_unnamed_pin_net(pts, edges, r - 1) {
            1nat
        } else {
            0nat
        }
    }
}

/// The name of the net of point `i`: its label of widest scope, or else `NET_n`, the
/// nets that hold a pin and no label numbered from 1 in the order of their first points.
pub open spec fn net_name(pts: Seq<ConnectionPoint>, edges: Seq<(int, int)>, i: int) -> Seq<char> {
    let r = net_first(pts, edges, i);
    match group_label(pts, edges, r, pts.len() as int) {
        Some((nm, _)) => nm,
        None => "NET_"@ + dec_digits(unnamed_before(pts, edges, r) + 1),
    }
}

/// The pins of the nets whose first points are at `i` or later, each as
/// `((reference, pin number), net name)`, net by net and in point order within a net.
pub open spec fn pin_nets_from(pts: Seq<ConnectionPoint>, edges: Seq<(int, int)>, i: int) -> Seq<
    ((Seq<char>, Seq<char>), Seq<char>),
>
    decreases pts.len() - i,
{
    if i < 0 || i >= pts.len() {
        Seq::empty()
    } else {
        let rest = pin_nets_from(pts, edges, i + 1);
        if is_first_of_group(edges, i) {
            let name = net_name(pts, edges, i);
            group_pins(pts, edges, i, pts.len() as int).map_values(
                |p: (Seq<char>, Seq<char>)| (p, name),
            ) + rest
        } else {
            rest
        }
    }
}

/// The pin-to-net table of the points joined by `edges`.
pub open spec fn pin_nets(pts: Seq<ConnectionPoint>, edges: Seq<(int, int)>) -> Seq<
    ((Seq<char>, Seq<char>), Seq<char>),
> {
    pin_nets_from(pts, edges, 0)
}

pub open spec fn pin_net_views(v: Seq<((String, String), String)>) -> Seq<
    ((Seq<char>, Seq<char>), Seq<char>),
> {
    v.map_values(|e: ((String, String), String)| ((e.0.0@, e.0.1@), e.1@))
}

/// The net of pin `(reference, pin)` in a table: its last entry, as a later entry for the
/// same pin replaces an earlier one.
pub open spec fn net_for_pin(
    table: Seq<((Seq<char>, Seq<char>), Seq<char>)>,
    reference: Seq<char>,
    pin: Seq<char>,
) -> Option<Seq<char>>
    decreases table.len(),
{
    if table.len() == 0 {
        None
    } else if table.last().0 == (reference, pin) {
        Some(table.last().1)
    } else {
        net_for_pin(table.drop_last(), reference, pin)
    }
}

/// Point `k` is the pin `(reference, pin)`.
pub open spec fn is_pin_at(pts: Seq<ConnectionPoint>, k: int, reference: Seq<char>, pin: Seq<char>) -> bool {
    match pts[k].kind {
        ConnectionKind::Pin { reference: r, pin_number: p, .. } => r@ == reference && p@ == pin,
        _ => false,
    }
}

/// The first point from `k` on that is the pin `(reference, pin)`.
pub open spec fn first_pin_from(pts: Seq<ConnectionPoint>, reference: Seq<char>, pin: Seq<char>, k: int) -> Option<
    int,
>
    decreases pts.len() - k,
{
    if k < 0 || k >= pts.len() {
        None
    } else if is_pin_at(pts, k, reference, pin) {
        Some(k)
    } else {
        first_pin_from(pts, reference, pin, k + 1)
    }
}

/// The pins among the first `k` points, other than point `x`, that are joined to `x`.
pub open spec fn other_pins(pts: Seq<ConnectionPoint>, edges: Seq<(int, int)>, x: int, k: int) -> Seq<
    (Seq<char>, Seq<char>),
>
    decreases k,
{
    if k <= 0 || k > pts.len() {
        Seq::empty()
    } else {
        let rest = other_pins(pts, edges, x, k - 1);
        if k - 1 != x && linked(edges, x, k - 1) {
            match pts[k - 1].kind {
                ConnectionKind::Pin { reference, pin_number, .. } => rest.push(
                    (reference@, pin_number@),
                ),
                _ => rest,
            }
        } else {
            rest
        }
    }
}

/// The pins joined to the first point that is the pin `(reference, pin)`, in point order;
/// none when no point is that pin.
pub open spec fn connected_pins(
    pts: Seq<ConnectionPoint>,
    edges: Seq<(int, int)>,
    reference: Seq<char>,
    pin: Seq<char>,
) -> Seq<(Seq<char>, Seq<char>)> {
    match first_pin_from(pts, reference, pin, 0) {
        Some(x) => other_pins(pts, edges, x, pts.len() as int),
        None => Seq::empty(),
    }
}

/// Whether the first points at the positions `p` and `q` are joined (false when no point
/// lies at one of them).
pub open spec fn positions_connected(
    pts: Seq<ConnectionPoint>,
    edges: Seq<(int, int)>,
    p: GridPoint,
    q: GridPoint,
) -> bool {
    match (first_near(positions(pts), p), first_near(positions(pts), q)) {
        (Some(a), Some(b)) => linked(edges, a, b),
        _ => false,
    }
}

/// The connection points of a schematic with the classes they are joined into, and the
/// net of each pin.
pub struct ConnectivityGraph {
    connection_points: Vec<ConnectionPoint>,
    roots: Vec<usize>,
    pin_to_net: Vec<((String, String), String)>,
    wires: Ghost<Seq<Seq<GridPoint>>>,
}

impl ConnectivityGraph {
    /// The connection points.
    pub closed spec fn points(&self) -> Seq<ConnectionPoint> {
        self.connection_points@
    }

    /// The wires, each as its list of points.
    pub closed spec fn wire_paths(&self) -> Seq<Seq<GridPoint>> {
        self.wires@
    }

    /// The links that join the points: coinciding points, then wire segments.
    pub open spec fn edges(&self) -> Seq<(int, int)> {
        all_edges(positions(self.points()), self.wire_paths())
    }

    #[verifier::type_invariant]
    spec fn consistent(self) -> bool {
        let n = self.connection_points@.len();
        &&& self.roots@.len() == n
        &&& forall|a: int, b: int|
            0 <= a < n && 0 <= b < n ==> ((self.roots@[a] == self.roots@[b]) <==> linked(
                all_edges(positions(self.connection_points@), self.wires@),
                a,
                b,
            ))
        &&& pin_net_views(self.pin_to_net@) == pin_nets(
            self.connection_points@,
            all_edges(positions(self.connection_points@), self.wires@),
        )
    }
}

/// The first point joined to a point that is the first of its net is that point itself.
proof fn lemma_first_of_net(edges: Seq<(int, int)>, i: int, k: int, n: int)
    requires
        0 <= k <= i < n,
        is_first_of_group(edges, i),
    ensures
        first_joined_from(edges, i, k, n) == i,
    decreases i - k,
{
    lemma_linked_is_equivalence(edges);
    if k < i {
        assert(!linked(edges, i, k));
        lemma_first_of_net(edges, i, k + 1, n);
    } else {
        assert(linked(edges, i, i));
    }
}

/// The pin-to-net table of points whose classes are given by their roots.
#[verifier::rlimit(40)]
fn build_pin_nets(pts: &Vec<ConnectionPoint>, roots: &Vec<usize>, Ghost(edges): Ghost<Seq<(int, int)>>) -> (out: Vec<
    ((String, String), String),
>)
    requires
        roots@.len() == pts@.len(),
        forall|a: int, b: int|
            0 <= a < pts@.len() && 0 <= b < pts@.len() ==> ((roots@[a] == roots@[b]) <==> linked(
                edges,
                a,
                b,
            )),
    ensures
        pin_net_views(out@) == pin_nets(pts@, edges),
{
    let n = pts.len();
    let mut out: Vec<((String, String), String)> = Vec::new();
    let mut counter: u128 = 1;
    let mut i: usize = 0;
    assert(pin_net_views(out@) == Seq::<((Seq<char>, Seq<char>), Seq<char>)>::empty());
    while i < n
        invariant
            i <= n == pts@.len(),
            roots@.len() == n,
            forall|a: int, b: int|
                0 <= a < n && 0 <= b < n ==> ((roots@[a] == roots@[b]) <==> linked(edges, a, b)),
            counter == unnamed_before(pts@, edges, i as int) + 1,
            counter <= i + 1,
            pin_nets(pts@, edges) == pin_net_views(out@) + pin_nets_from(pts@, edges, i as int),
        decreases n - i,
    {
        let mut first = true;
        let mut j: usize = 0;
        while j < i
            invariant
                j <= i < n == pts@.len(),
                roots@.len() == n,
                forall|a: int, b: int|
                    0 <= a < n && 0 <= b < n ==> ((roots@[a] == roots@[b]) <==> linked(edges, a, b)),
                first == forall|q: int| 0 <= q < j ==> !linked(edges, i as int, q),
            decreases i - j,
        {
            assert((roots@[i as int] == roots@[j as int]) <==> linked(edges, i as int, j as int));
            if roots[j] == roots[i] {
                first = false;
            }
            j = j + 1;
        }
        let ghost rest = pin_nets_from(pts@, edges, i + 1);
        assert(unnamed_before(pts@, edges, i + 1) == unnamed_before(pts@, edges, i as int) + if is_unnamed_pin_net(pts@, edges, i as int) {
            1nat
        } else {
            0nat
        });
        if !first {
            assert(!is_first_of_group(edges, i as int));
            assert(pin_nets_from(pts@, edges, i as int) == rest);
            i = i + 1;
            continue;
        }
        assert(is_first_of_group(edges, i as int));
        let (pins, _sheet_pins, label) = gather_group(pts, roots, i, Ghost(edges));
        let ghost gp = group_pins(pts@, edges, i as int, n as int);
        if pins.len() == 0 {
            assert(gp.len() == 0);
            assert(pin_nets_from(pts@, edges, i as int) == rest) by {
                assert(gp.map_values(|p: (Seq<char>, Seq<char>)| (p, net_name(pts@, edges, i as int)))
                    =~= Seq::<((Seq<char>, Seq<char>), Seq<char>)>::empty());
            }
            i = i + 1;
            continue;
        }
        proof {
            lemma_first_of_net(edges, i as int, 0, n as int);
        }
        let name = match label {
            Some((nm, _)) => nm,
            None => {
                let mut nm = String::from_str("NET_");
                crate::sexpr::push_digits(&mut nm, counter);
                counter = counter + 1;
                nm
            },
        };
        assert(name@ == net_name(pts@, edges, i as int));
        let ghost base = pin_net_views(out@);
        let ghost named = gp.map_values(|p: (Seq<char>, Seq<char>)| (p, name@));
        let mut k: usize = 0;
        assert(named.take(0) =~= Seq::<((Seq<char>, Seq<char>), Seq<char>)>::empty());
        while k < pins.len()
            invariant
                k <= pins@.len(),
                pairs_view(pins@) == gp,
                named == gp.map_values(|p: (Seq<char>, Seq<char>)| (p, name@)),
                pin_net_views(out@) == base + named.take(k as int),
            decreases pins@.len() - k,
        {
            let e = ((pins[k].0.clone(), pins[k].1.clone()), name.clone());
            proof {
                assert(pairs_view(pins@)[k as int] == (pins@[k as int].0@, pins@[k as int].1@));
                assert(pin_net_views(out@.push(e)) == pin_net_views(out@).push(((e.0.0@, e.0.1@), e.1@)));
                assert(named.take(k + 1) == named.take(k as int).push(named[k as int]));
            }
            out.push(e);
            k = k + 1;
        }
        assert(named.take(pins@.len() as int) == named);
        assert(pin_nets_from(pts@, edges, i as int) == named + rest);
        i = i + 1;
    }
    assert(pin_nets_from(pts@, edges, n as int) == Seq::<((Seq<char>, Seq<char>), Seq<char>)>::empty());
    assert(pin_net_views(out@) + Seq::<((Seq<char>, Seq<char>), Seq<char>)>::empty() == pin_net_views(out@));
    out
}

impl ConnectivityGraph {
    /// The graph of the given connection points joined by the given wires: points closer
    /// than half a millimetre, and the first points at the two ends of each wire segment,
    /// are in one net.
    pub fn from_points(connection_points: Vec<ConnectionPoint>, wires: &Vec<Vec<GridPoint>>) -> (g: Self)
        ensures
            g.points() == connection_points@,
            g.wire_paths() == wires@.map_values(|w: Vec<GridPoint>| w@),
    {
        let ghost edges = all_edges(positions(connection_points@), wires@.map_values(|w: Vec<GridPoint>| w@));
        let roots = point_roots(&connection_points, wires);
        let pin_to_net = build_pin_nets(&connection_points, &roots, Ghost(edges));
        ConnectivityGraph {
            connection_points,
            roots,
            pin_to_net,
            wires: Ghost(wires@.map_values(|w: Vec<GridPoint>| w@)),
        }
    }

    /// The net of pin `pin` of component `reference`, if the pin is on the graph.
    pub fn get_net_for_pin(&self, reference: &str, pin: &str) -> (r: Option<&String>)
        ensures
            match r {
                Some(s) => net_for_pin(pin_nets(self.points(), self.edges()), reference@, pin@) == Some(s@),
                None => net_for_pin(pin_nets(self.points(), self.edges()), reference@, pin@) is None,
            },
    {
        proof {
            use_type_invariant(self);
        }
        let ghost table = pin_net_views(self.pin_to_net@);
        let mut k: usize = self.pin_to_net.len();
        assert(table.take(k as int) == table);
        assert(table == pin_nets(self.points(), self.edges()));
        while k > 0
            invariant
                k <= self.pin_to_net@.len(),
                table == pin_nets(self.points(), self.edges()),
                table == pin_net_views(self.pin_to_net@),
                net_for_pin(table, reference@, pin@) == net_for_pin(table.take(k as int), reference@, pin@),
            decreases k,
        {
            let e = &self.pin_to_net[k - 1];
            assert(table.take(k as int).last() == ((e.0.0@, e.0.1@), e.1@));
            assert(table.take(k as int).drop_last() == table.take(k - 1));
            if crate::text::str_eq(e.0.0.as_str(), reference) && crate::text::str_eq(e.0.1.as_str(), pin) {
                assert(table.take(k as int).last().0 == (reference@, pin@));
                assert(net_for_pin(table.take(k as int), reference@, pin@) == Some(e.1@));
                return Some(&e.1);
            }
            k = k - 1;
        }
        None
    }

    /// The pins on the net of pin `pin` of component `reference`, other than itself; none
    /// when that pin is not on the graph.
    pub fn get_connected_pins(&self, reference: &str, pin: &str) -> (r: Vec<(String, String)>)
        ensures
            pairs_view(r@) == connected_pins(self.points(), self.edges(), reference@, pin@),
    {
        proof {
            use_type_invariant(self);
        }
        let n = self.connection_points.len();
        let ghost pts = self.connection_points@;
        let ghost edges = self.edges();
        let mut x: usize = 0;
        let mut found = false;
        while x < n
            invariant_except_break
                !found,
            invariant
                x <= n == pts.len(),
                pts == self.connection_points@,
                first_pin_from(pts, reference@, pin@, 0) == first_pin_from(pts, reference@, pin@, x as int),
            ensures
                x <= n,
                first_pin_from(pts, reference@, pin@, 0) == first_pin_from(pts, reference@, pin@, x as int),
                found ==> x < n && is_pin_at(pts, x as int, reference@, pin@),
                !found ==> x == n,
            decreases n - x,
        {
            let hit = match &self.connection_points[x].kind {
                ConnectionKind::Pin { reference: r, pin_number: p, .. } => crate::text::str_eq(r.as_str(), reference)
                    && crate::text::str_eq(p.as_str(), pin),
                _ => false,
            };
            assert(hit == is_pin_at(pts, x as int, reference@, pin@));
            if hit {
                found = true;
                break;
            }
            x = x + 1;
        }
        let mut out: Vec<(String, String)> = Vec::new();
        if !found {
            assert(first_pin_from(pts, reference@, pin@, 0) is None);
            assert(pairs_view(out@) =~= Seq::<(Seq<char>, Seq<char>)>::empty());
            return out;
        }
        assert(first_pin_from(pts, reference@, pin@, 0) == Some(x as int));
        let mut j: usize = 0;
        assert(pairs_view(out@) =~= other_pins(pts, edges, x as int, 0));
        while j < n
            invariant
                j <= n == pts.len(),
                x < n,
                pts == self.connection_points@,
                edges == self.edges(),
                self.roots@.len() == n,
                forall|a: int, b: int|
                    0 <= a < n && 0 <= b < n ==> ((self.roots@[a] == self.roots@[b]) <==> linked(edges, a, b)),
                pairs_view(out@) == other_pins(pts, edges, x as int, j as int),
            decreases n - j,
        {
            assert((self.roots@[x as int] == self.roots@[j as int]) <==> linked(edges, x as int, j as int));
            if j != x && self.roots[j] == self.roots[x] {
                match &self.connection_points[j].kind {
                    ConnectionKind::Pin { reference: r, pin_number: p, .. } => {
                        let pr = (r.clone(), p.clone());
                        proof {
                            assert(pairs_view(out@.push(pr)) == pairs_view(out@).push((r@, p@)));
                        }
                        out.push(pr);
                    },
                    _ => {},
                }
            }
            j = j + 1;
        }
        out
    }

    /// Whether the points at two positions are joined: false when no connection point
    /// lies at one of them.
    pub fn are_connected(&self, pos1: GridPoint, pos2: GridPoint) -> (r: bool)
        ensures
            r == positions_connected(self.points(), self.edges(), pos1, pos2),
    {
        proof {
            use_type_invariant(self);
        }
        let i1 = first_near_exec(&self.connection_points, pos1);
        let i2 = first_near_exec(&self.connection_points, pos2);
        match (i1, i2) {
            (Some(a), Some(b)) => {
                assert((self.roots@[a as int] == self.roots@[b as int]) <==> linked(self.edges(), a as int, b as int));
                self.roots[a] == self.roots[b]
            },
            _ => false,
        }
    }

    /// All connection points.
    pub fn connection_points(&self) -> (r: &Vec<ConnectionPoint>)
        ensures
            r@ == self.points(),
    {
        &self.connection_points
    }

    /// Each pin with the net it is on, as `((reference, pin number), net)`.
    pub fn pin_to_net(&self) -> (r: &Vec<((String, String), String)>)
        ensures
            pin_net_views(r@) == pin_nets(self.points(), self.edges()),
    {
        proof {
            use_type_invariant(self);
        }
        &self.pin_to_net
    }
}

/// The points of a symbol's pins that have a position, among its first `k` pins.
pub open spec fn symbol_pin_points(s: SymbolPins, k: int) -> Seq<(GridPoint, PointView)>
    decreases k,
{
    if k <= 0 || k > s.pins@.len() {
        Seq::empty()
    } else {
        let rest = symbol_pin_points(s, k - 1);
        let p = s.pins@[k - 1];
        match p.2 {
            None => rest,
            Some(pos) => rest.push(
                (pos, PointView::Pin { reference: s.reference@, pin_number: p.0@, pin_name: p.1@ }),
            ),
        }
    }
}

/// Every point of a wire, in order.
pub open spec fn path_points(w: Seq<GridPoint>) -> Seq<(GridPoint, PointView)> {
    w.map_values(|q: GridPoint| (q, PointView::WireEndpoint))
}

/// The connection points of a schematic's graph, in order: symbol pins, wire points,
/// junctions, local labels, global labels.
pub open spec fn graph_points(s: SchematicPoints) -> Seq<(GridPoint, PointView)> {
    concat_points(s.symbols@.map_values(|y: SymbolPins| symbol_pin_points(y, y.pins@.len() as int)))
        + concat_points(s.wires@.map_values(|w: Vec<GridPoint>| path_points(w@))) + s.junctions@.map_values(
        |q: GridPoint| (q, PointView::Junction),
    ) + label_points(s.labels@, NetLabelScope::Local) + label_points(
        s.global_labels@,
        NetLabelScope::Global,
    )
}

fn add_symbol_pin_points(out: &mut Vec<ConnectionPoint>, sym: &SymbolPins)
    ensures
        point_views(final(out)@) == point_views(old(out)@) + symbol_pin_points(*sym, sym.pins@.len() as int),
{
    let ghost start = point_views(old(out)@);
    let mut k: usize = 0;
    assert(start + symbol_pin_points(*sym, 0) == start);
    while k < sym.pins.len()
        invariant
            k <= sym.pins@.len(),
            point_views(out@) == start + symbol_pin_points(*sym, k as int),
        decreases sym.pins@.len() - k,
    {
        let p = &sym.pins[k];
        match p.2 {
            Some(pos) => {
                push_point(
                    out,
                    ConnectionPoint {
                        position: pos,
                        kind: ConnectionKind::Pin {
                            reference: sym.reference.clone(),
                            pin_number: p.0.clone(),
                            pin_name: p.1.clone(),
                        },
                    },
                );
            },
            None => {},
        }
        k = k + 1;
    }
}

fn add_path_points(out: &mut Vec<ConnectionPoint>, w: &Vec<GridPoint>)
    ensures
        point_views(final(out)@) == point_views(old(out)@) + path_points(w@),
{
    let ghost start = point_views(old(out)@);
    let ghost pp = path_points(w@);
    let mut k: usize = 0;
    assert(pp.take(0) == Seq::<(GridPoint, PointView)>::empty());
    while k < w.len()
        invariant
            k <= w@.len(),
            pp == path_points(w@),
            point_views(out@) == start + pp.take(k as int),
        decreases w@.len() - k,
    {
        push_point(out, ConnectionPoint { position: w[k], kind: ConnectionKind::WireEndpoint });
        assert(pp.take(k + 1) == pp.take(k as int).push(pp[k as int]));
        k = k + 1;
    }
    assert(pp.take(w@.len() as int) == pp);
}

/// The connection points of a schematic's graph: symbol pins, wire points, junctions,
/// local labels, global labels.
fn collect_graph_points(s: &SchematicPoints) -> (r: Vec<ConnectionPoint>)
    ensures
        point_views(r@) == graph_points(*s),
{
    let mut out: Vec<ConnectionPoint> = Vec::new();
    let ghost sym_parts = s.symbols@.map_values(|y: SymbolPins| symbol_pin_points(y, y.pins@.len() as int));
    let mut k: usize = 0;
    assert(sym_parts.take(0) == Seq::<Seq<(GridPoint, PointView)>>::empty());
    assert(point_views(out@) == concat_points(sym_parts.take(0)));
    while k < s.symbols.len()
        invariant
            k <= s.symbols@.len(),
            sym_parts == s.symbols@.map_values(|y: SymbolPins| symbol_pin_points(y, y.pins@.len() as int)),
            point_views(out@) == concat_points(sym_parts.take(k as int)),
        decreases s.symbols@.len() - k,
    {
        add_symbol_pin_points(&mut out, &s.symbols[k]);
        assert(sym_parts.take(k + 1).drop_last() == sym_parts.take(k as int));
        k = k + 1;
    }
    assert(sym_parts.take(s.symbols@.len() as int) == sym_parts);
    let ghost a = point_views(out@);
    let ghost wire_parts = s.wires@.map_values(|w: Vec<GridPoint>| path_points(w@));
    let mut k: usize = 0;
    assert(wire_parts.take(0) == Seq::<Seq<(GridPoint, PointView)>>::empty());
    assert(a + concat_points(wire_parts.take(0)) == a);
    while k < s.wires.len()
        invariant
            k <= s.wires@.len(),
            wire_parts == s.wires@.map_values(|w: Vec<GridPoint>| path_points(w@)),
            point_views(out@) == a + concat_points(wire_parts.take(k as int)),
        decreases s.wires@.len() - k,
    {
        add_path_points(&mut out, &s.wires[k]);
        assert(wire_parts.take(k + 1).drop_last() == wire_parts.take(k as int));
        k = k + 1;
    }
    assert(wire_parts.take(s.wires@.len() as int) == wire_parts);
    let ghost b = point_views(out@);
    let ghost jp = s.junctions@.map_values(|q: GridPoint| (q, PointView::Junction));
    let mut k: usize = 0;
    assert(jp.take(0) == Seq::<(GridPoint, PointView)>::empty());
    while k < s.junctions.len()
        invariant
            k <= s.junctions@.len(),
            jp == s.junctions@.map_values(|q: GridPoint| (q, PointView::Junction)),
            point_views(out@) == b + jp.take(k as int),
        decreases s.junctions@.len() - k,
    {
        push_point(&mut out, ConnectionPoint { position: s.junctions[k], kind: ConnectionKind::Junction });
        assert(jp.take(k + 1) == jp.take(k as int).push(jp[k as int]));
        k = k + 1;
    }
    assert(jp.take(s.junctions@.len() as int) == jp);
    add_label_points(&mut out, &s.labels, NetLabelScope::Local);
    add_label_points(&mut out, &s.global_labels, NetLabelScope::Global);
    out
}

impl ConnectivityGraph {
    /// The graph of a schematic: its symbol pins, wire points, junctions, and local and
    /// global labels, joined where they coincide and along each wire.
    pub fn from_schematic(schematic: &SchematicPoints) -> (g: Self)
        ensures
            point_views(g.points()) == graph_points(*schematic),
            g.wire_paths() == schematic.wires@.map_values(|w: Vec<GridPoint>| w@),
    {
        let pts = collect_graph_points(schematic);
        Self::from_points(pts, &schematic.wires)
    }
}

/// The first point from `k` on joined to `x` lies between `k` and `x`, is joined to `x`,
/// and no point before it from `k` on is.
proof fn lemma_first_joined(edges: Seq<(int, int)>, x: int, k: int, n: int)
    requires
        0 <= k <= x < n,
    ensures
        k <= first_joined_from(edges, x, k, n) <= x,
        linked(edges, x, first_joined_from(edges, x, k, n)),
        forall|q: int| k <= q < first_joined_from(edges, x, k, n) ==> !linked(edges, x, q),
    decreases x - k,
{
    lemma_linked_is_equivalence(edges);
    if !linked(edges, x, k) {
        assert(linked(edges, x, x));
        lemma_first_joined(edges, x, k + 1, n);
    }
}

proof fn lemma_first_joined_agree(edges: Seq<(int, int)>, a: int, b: int, k: int, n: int)
    requires
        0 <= k <= a < n,
        k <= b < n,
        linked(edges, a, b),
    ensures
        first_joined_from(edges, a, k, n) == first_joined_from(edges, b, k, n),
    decreases n - k,
{
    lemma_linked_is_equivalence(edges);
    if linked(edges, a, k) {
        assert(linked(edges, b, a));
        assert(linked(edges, b, k));
    } else {
        if linked(edges, b, k) {
            assert(linked(edges, a, k));
        }
        assert(linked(edges, a, a) && linked(edges, b, b));
        lemma_first_joined_agree(edges, a, b, k + 1, n);
    }
}

/// Points joined to each other are on one net, which has one name.
pub proof fn lemma_joined_points_share_a_net_name(pts: Seq<ConnectionPoint>, edges: Seq<(int, int)>, a: int, b: int)
    requires
        0 <= a < pts.len(),
        0 <= b < pts.len(),
        linked(edges, a, b),
    ensures
        net_first(pts, edges, a) == net_first(pts, edges, b),
        net_name(pts, edges, a) == net_name(pts, edges, b),
{
    lemma_first_joined_agree(edges, a, b, 0, pts.len() as int);
}

/// Whether two positions are connected behaves as an equivalence on the positions where
/// a connection point lies: such a position is connected to itself, connection goes both
/// ways, and it carries over from one position to the next.
pub proof fn lemma_connection_is_equivalence(
    pts: Seq<ConnectionPoint>,
    edges: Seq<(int, int)>,
    p: GridPoint,
    q: GridPoint,
    r: GridPoint,
)
    ensures
        positions_connected(pts, edges, p, p) == (first_near(positions(pts), p) is Some),
        positions_connected(pts, edges, p, q) == positions_connected(pts, edges, q, p),
        positions_connected(pts, edges, p, q) && positions_connected(pts, edges, q, r)
            ==> positions_connected(pts, edges, p, r),
{
    lemma_linked_is_equivalence(edges);
    let ps = positions(pts);
    match (first_near(ps, p), first_near(ps, q), first_near(ps, r)) {
        (Some(a), Some(b), Some(c)) => {
            assert(linked(edges, a, a));
            if linked(edges, a, b) {
                assert(linked(edges, b, a));
            }
            if linked(edges, b, a) {
                assert(linked(edges, a, b));
            }
            if linked(edges, a, b) && linked(edges, b, c) {
                assert(linked(edges, a, c));
            }
        },
        (Some(a), _, _) => {
            assert(linked(edges, a, a));
        },
        _ => {},
    }
}

/// A pin listed for a net of `r` among the first `k` points is a pin at a point joined
/// to `r`.
proof fn lemma_group_pin_source(pts: Seq<ConnectionPoint>, edges: Seq<(int, int)>, r: int, k: int, t: int)
    requires
        0 <= t < group_pins(pts, edges, r, k).len(),
    ensures
        exists|j: int|
            0 <= j < k && j < pts.len() && linked(edges, r, j) && #[trigger] is_pin_at(
                pts,
                j,
                group_pins(pts, edges, r, k)[t].0,
                group_pins(pts, edges, r, k)[t].1,
            ),
    decreases k,
{
    let rest = group_pins(pts, edges, r, k - 1);
    if t < rest.len() {
        lemma_group_pin_source(pts, edges, r, k - 1, t);
        assert(group_pins(pts, edges, r, k)[t] == rest[t]);
    } else {
        let j = k - 1;
        assert(is_pin_at(pts, j, group_pins(pts, edges, r, k)[t].0, group_pins(pts, edges, r, k)[t].1));
    }
}

/// A pin at a point joined to `r` is listed for the net of `r`.
proof fn lemma_group_pin_listed(pts: Seq<ConnectionPoint>, edges: Seq<(int, int)>, r: int, k: int, j: int, reference: Seq<char>, pin: Seq<char>)
    requires
        0 <= j < k <= pts.len(),
        linked(edges, r, j),
        is_pin_at(pts, j, reference, pin),
    ensures
        group_pins(pts, edges, r, k).contains((reference, pin)),
    decreases k,
{
    let rest = group_pins(pts, edges, r, k - 1);
    if j < k - 1 {
        lemma_group_pin_listed(pts, edges, r, k - 1, j, reference, pin);
        let t = choose|t: int| 0 <= t < rest.len() && rest[t] == (reference, pin);
        match pts[k - 1].kind {
            ConnectionKind::Pin { .. } => {
                if linked(edges, r, k - 1) {
                    assert(group_pins(pts, edges, r, k)[t] == (reference, pin));
                } else {
                    assert(group_pins(pts, edges, r, k)[t] == (reference, pin));
                }
            },
            _ => {
                assert(group_pins(pts, edges, r, k)[t] == (reference, pin));
            },
        }
    } else {
        assert(group_pins(pts, edges, r, k)[rest.len() as int] == (reference, pin));
    }
}

/// Every entry of the table from the nets at `i` on is the pin of some point, named by
/// that point's net.
proof fn lemma_pin_net_source(pts: Seq<ConnectionPoint>, edges: Seq<(int, int)>, i: int, t: int)
    requires
        0 <= t < pin_nets_from(pts, edges, i).len(),
    ensures
        exists|j: int|
            0 <= j < pts.len() && #[trigger] is_pin_at(
                pts,
                j,
                pin_nets_from(pts, edges, i)[t].0.0,
                pin_nets_from(pts, edges, i)[t].0.1,
            ) && pin_nets_from(pts, edges, i)[t].1 == net_name(pts, edges, j),
    decreases pts.len() - i,
{
    let n = pts.len() as int;
    let rest = pin_nets_from(pts, edges, i + 1);
    let e = pin_nets_from(pts, edges, i)[t];
    if is_first_of_group(edges, i) {
        let gp = group_pins(pts, edges, i, n);
        let name = net_name(pts, edges, i);
        let head = gp.map_values(|p: (Seq<char>, Seq<char>)| (p, name));
        if t < head.len() {
            assert(e == head[t]);
            lemma_group_pin_source(pts, edges, i, n, t);
            let j = choose|j: int|
                0 <= j < n && j < pts.len() && linked(edges, i, j) && #[trigger] is_pin_at(
                    pts,
                    j,
                    gp[t].0,
                    gp[t].1,
                );
            lemma_joined_points_share_a_net_name(pts, edges, i, j);
            assert(is_pin_at(pts, j, e.0.0, e.0.1));
        } else {
            assert(e == rest[t - head.len()]);
            lemma_pin_net_source(pts, edges, i + 1, t - head.len());
        }
    } else {
        assert(e == rest[t]);
        lemma_pin_net_source(pts, edges, i + 1, t);
    }
}

/// The pins of the net whose first point is `r` are in the table from the nets at `i`
/// on, for `i` up to `r`.
proof fn lemma_pin_net_listed(pts: Seq<ConnectionPoint>, edges: Seq<(int, int)>, i: int, r: int, p: (Seq<char>, Seq<char>))
    requires
        0 <= i <= r < pts.len(),
        is_first_of_group(edges, r),
        group_pins(pts, edges, r, pts.len() as int).contains(p),
    ensures
        pin_nets_from(pts, edges, i).contains((p, net_name(pts, edges, r))),
    decreases r - i,
{
    let n = pts.len() as int;
    let rest = pin_nets_from(pts, edges, i + 1);
    let e = (p, net_name(pts, edges, r));
    if i == r {
        let gp = group_pins(pts, edges, r, n);
        let head = gp.map_values(|q: (Seq<char>, Seq<char>)| (q, net_name(pts, edges, r)));
        let t = choose|t: int| 0 <= t < gp.len() && gp[t] == p;
        assert(pin_nets_from(pts, edges, i)[t] == e);
    } else {
        lemma_pin_net_listed(pts, edges, i + 1, r, p);
        let t = choose|t: int| 0 <= t < rest.len() && rest[t] == e;
        if is_first_of_group(edges, i) {
            let head = group_pins(pts, edges, i, n).map_values(
                |q: (Seq<char>, Seq<char>)| (q, net_name(pts, edges, i)),
            );
            assert(pin_nets_from(pts, edges, i)[head.len() + t] == e);
        } else {
            assert(pin_nets_from(pts, edges, i)[t] == e);
        }
    }
}

/// The last entry for a pin in a table whose entries for that pin all carry one name
/// gives that name.
proof fn lemma_net_for_pin_of_agreeing_table(
    table: Seq<((Seq<char>, Seq<char>), Seq<char>)>,
    reference: Seq<char>,
    pin: Seq<char>,
    name: Seq<char>,
)
    requires
        table.contains(((reference, pin), name)),
        forall|t: int| 0 <= t < table.len() && #[trigger] table[t].0 == (reference, pin) ==> table[t].1 == name,
    ensures
        net_for_pin(table, reference, pin) == Some(name),
    decreases table.len(),
{
    let t0 = choose|t: int| 0 <= t < table.len() && table[t] == ((reference, pin), name);
    if table.last().0 != (reference, pin) {
        let rest = table.drop_last();
        assert(t0 < table.len() - 1);
        assert(rest[t0] == ((reference, pin), name));
        assert forall|t: int| 0 <= t < rest.len() && #[trigger] rest[t].0 == (reference, pin) implies rest[t].1
            == name by {
            assert(table[t] == rest[t]);
        }
        lemma_net_for_pin_of_agreeing_table(rest, reference, pin, name);
    } else {
        assert(table[table.len() - 1].0 == (reference, pin));
    }
}

/// A pin that stands at exactly one connection point is on the net of that point: the
/// table gives it that net's name.
pub proof fn lemma_pin_net_is_its_net_name(
    pts: Seq<ConnectionPoint>,
    edges: Seq<(int, int)>,
    x: int,
    reference: Seq<char>,
    pin: Seq<char>,
)
    requires
        0 <= x < pts.len(),
        is_pin_at(pts, x, reference, pin),
        forall|k: int| 0 <= k < pts.len() && k != x ==> !#[trigger] is_pin_at(pts, k, reference, pin),
    ensures
        net_for_pin(pin_nets(pts, edges), reference, pin) == Some(net_name(pts, edges, x)),
{
    let n = pts.len() as int;
    let table = pin_nets(pts, edges);
    lemma_linked_is_equivalence(edges);
    lemma_first_joined(edges, x, 0, n);
    let r = net_first(pts, edges, x);
    assert(is_first_of_group(edges, r)) by {
        assert forall|j: int| 0 <= j < r implies !linked(edges, r, j) by {
            if linked(edges, r, j) {
                assert(linked(edges, x, j));
            }
        }
    }
    assert(linked(edges, r, x));
    lemma_group_pin_listed(pts, edges, r, n, x, reference, pin);
    lemma_pin_net_listed(pts, edges, 0, r, (reference, pin));
    lemma_joined_points_share_a_net_name(pts, edges, r, x);
    assert forall|t: int| 0 <= t < table.len() && #[trigger] table[t].0 == (reference, pin) implies table[t].1
        == net_name(pts, edges, x) by {
        lemma_pin_net_source(pts, edges, 0, t);
        let j = choose|j: int|
            0 <= j < pts.len() && #[trigger] is_pin_at(pts, j, table[t].0.0, table[t].0.1) && table[t].1
                == net_name(pts, edges, j);
        assert(is_pin_at(pts, j, reference, pin));
        assert(j == x);
    }
    lemma_net_for_pin_of_agreeing_table(table, reference, pin, net_name(pts, edges, x));
}

} // verus!
