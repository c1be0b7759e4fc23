//! The netlist of a schematic: for each pin, the net label it is on or the pins it is
//! wired to, each pin listed once, in reference order.
use vstd::prelude::*;
use crate::connectivity::{ConnectivityGraph, connected_pins, net_for_pin, pin_nets};
use crate::ordering::{
    seq_lt, sort_by, insert_by, sorted_by, strict_order, lemma_insert_at, lemma_insert_by_is_insert, str_lt,
    lemma_sort_by, lemma_text_order_strict,
};
use crate::outline_nets::{ConnectionPoint, pair_joined, pairs_view, joined};
use crate::semantic_components::{reference_key, reference_key_exec, string_views};
use crate::semantic_merge::join_with;
use crate::semantic_text::join_strings;
use crate::text::{chars_of, find_char, has_prefix, str_eq, string_from_chars};
use crate::tools::{GetNetlistOutput, GetNetlistTool, NetlistEntry};

verus! {

/// What a pin's entry says it is connected to: `&NAME` for a net named by a label, else
/// the other pins on its net as `REF:PIN, ...`, else `unconnected`.
pub open spec fn connections_text(net: Option<Seq<char>>, others: Seq<(Seq<char>, Seq<char>)>) -> Seq<char> {
    let listed = join_with(others.map_values(|p: (Seq<char>, Seq<char>)| pair_joined(p)), ", "@);
    let labelled = match net {
        Some(n) => !"NET_"@.is_prefix_of(n),
        None => false,
    };
    if labelled {
        "&"@ + net.unwrap()
    } else if others.len() > 0 {
        listed
    } else {
        "unconnected"@
    }
}

/// The pins of the components that pass the filter, component by component.
pub open spec fn netlist_pins(comps: Seq<(String, Vec<String>)>, filter: Option<Seq<char>>) -> Seq<
    (Seq<char>, Seq<char>),
>
    decreases comps.len(),
{
    if comps.len() == 0 {
        Seq::empty()
    } else {
        let c = comps.last();
        let passes = match filter {
            Some(f) => c.0@ == f,
            None => true,
        };
        netlist_pins(comps.drop_last(), filter) + if passes {
            c.1@.map_values(|p: String| (c.0@, p@))
        } else {
            Seq::empty()
        }
    }
}

/// The pin texts already covered, and the entries so far, after one more pin: a pin
/// already covered is skipped; otherwise it gets an entry, and it and the pins on its
/// net are covered.
pub open spec fn netlist_step(
    pts: Seq<ConnectionPoint>,
    edges: Seq<(int, int)>,
    st: (Seq<Seq<char>>, Seq<(Seq<char>, Seq<char>)>),
    rp: (Seq<char>, Seq<char>),
) -> (Seq<Seq<char>>, Seq<(Seq<char>, Seq<char>)>) {
    let pin_ref = pair_joined(rp);
    if st.0.contains(pin_ref) {
        st
    } else {
        let others = connected_pins(pts, edges, rp.0, rp.1);
        let net = net_for_pin(pin_nets(pts, edges), rp.0, rp.1);
        (
            st.0 + others.map_values(|p: (Seq<char>, Seq<char>)| pair_joined(p)) + seq![pin_ref],
            st.1.push((pin_ref, connections_text(net, others))),
        )
    }
}

/// The state after the given pins, in order.
pub open spec fn netlist_scan(pts: Seq<ConnectionPoint>, edges: Seq<(int, int)>, pins: Seq<(Seq<char>, Seq<char>)>) -> (
    Seq<Seq<char>>,
    Seq<(Seq<char>, Seq<char>)>,
)
    decreases pins.len(),
{
    if pins.len() == 0 {
        (Seq::empty(), Seq::empty())
    } else {
        netlist_step(pts, edges, netlist_scan(pts, edges, pins.drop_last()), pins.last())
    }
}

/// The position of the first `:` in `s` from `k` on.
pub open spec fn colon_from(s: Seq<char>, k: int) -> Option<int>
    decreases s.len() - k,
{
    if k < 0 || k >= s.len() {
        None
    } else if s[k] == ':' {
        Some(k)
    } else {
        colon_from(s, k + 1)
    }
}

/// The ordering key of a pin text `REF:PIN`: the reference's letters, its number (0 when
/// it has none), and the pin; a text without `:` is its own first part.
pub open spec fn netlist_key(s: Seq<char>) -> (Seq<char>, int, Seq<char>) {
    match colon_from(s, 0) {
        Some(i) => (reference_key(s.take(i)).0, reference_key(s.take(i)).1, s.skip(i + 1)),
        None => (s, 0, Seq::empty()),
    }
}

pub open spec fn netlist_key_lt(a: (Seq<char>, int, Seq<char>), b: (Seq<char>, int, Seq<char>)) -> bool {
    ||| seq_lt(a.0, b.0)
    ||| (a.0 == b.0 && a.1 < b.1)
    ||| (a.0 == b.0 && a.1 == b.1 && seq_lt(a.2, b.2))
}

/// Entries `(pin, connections)` ordered by the keys of their pins.
pub open spec fn entry_order() -> spec_fn((Seq<char>, Seq<char>), (Seq<char>, Seq<char>)) -> bool {
    |a: (Seq<char>, Seq<char>), b: (Seq<char>, Seq<char>)| netlist_key_lt(netlist_key(a.0), netlist_key(b.0))
}

/// The netlist of the graph's points and links for the given components and filter.
pub open spec fn netlist_spec(
    pts: Seq<ConnectionPoint>,
    edges: Seq<(int, int)>,
    comps: Seq<(String, Vec<String>)>,
    filter: Option<Seq<char>>,
) -> Seq<(Seq<char>, Seq<char>)> {
    sort_by(netlist_scan(pts, edges, netlist_pins(comps, filter)).1, entry_order())
}

pub open spec fn entry_view(e: NetlistEntry) -> (Seq<char>, Seq<char>) {
    (e.pin@, e.connections@)
}

pub open spec fn entry_views(v: Seq<NetlistEntry>) -> Seq<(Seq<char>, Seq<char>)> {
    v.map_values(|e: NetlistEntry| entry_view(e))
}

proof fn lemma_colon_at(s: Seq<char>, k: int, i: int)
    requires
        0 <= k <= i < s.len(),
        s[i] == ':',
        forall|j: int| k <= j < i ==> s[j] != ':',
    ensures
        colon_from(s, k) == Some(i),
    decreases i - k,
{
    if k < i {
        lemma_colon_at(s, k + 1, i);
    }
}

proof fn lemma_no_colon(s: Seq<char>, k: int)
    requires
        0 <= k,
        forall|j: int| k <= j < s.len() ==> s[j] != ':',
    ensures
        colon_from(s, k) is None,
    decreases s.len() - k,
{
    if k < s.len() {
        lemma_no_colon(s, k + 1);
    }
}

/// The ordering key of a pin text.
fn netlist_key_exec(s: &String) -> (k: (String, i32, String))
    ensures
        k.0@ == netlist_key(s@).0,
        k.1 as int == netlist_key(s@).1,
        k.2@ == netlist_key(s@).2,
{
    let v = chars_of(s.as_str());
    let n = v.len();
    match find_char(&v, 0, n, ':') {
        Some(i) => {
            proof {
                lemma_colon_at(s@, 0, i as int);
            }
            let head = string_from_chars(&v, 0, i);
            let (prefix, num) = reference_key_exec(head.as_str());
            let tail = string_from_chars(&v, i + 1, n);
            assert(head@ == s@.take(i as int));
            assert(tail@ == s@.skip(i + 1));
            (prefix, num, tail)
        },
        None => {
            proof {
                lemma_no_colon(s@, 0);
            }
            (s.clone(), 0, String::new())
        },
    }
}

fn key_lt_exec(a: &(String, i32, String), b: &(String, i32, String)) -> (r: bool)
    ensures
        r == netlist_key_lt((a.0@, a.1 as int, a.2@), (b.0@, b.1 as int, b.2@)),
{
    if str_lt(a.0.as_str(), b.0.as_str()) {
        return true;
    }
    if !str_eq(a.0.as_str(), b.0.as_str()) {
        return false;
    }
    if a.1 < b.1 {
        return true;
    }
    a.1 == b.1 && str_lt(a.2.as_str(), b.2.as_str())
}

/// Entries sorted by the keys of their pins, equal keys keeping their order.
pub fn sort_entries(v: Vec<NetlistEntry>) -> (r: Vec<NetlistEntry>)
    ensures
        entry_views(r@) == sort_by(entry_views(v@), entry_order()),
{
    let ghost sv = entry_views(v@);
    let mut rest = v;
    let mut out: Vec<NetlistEntry> = Vec::new();
    let ghost mut k: int = 0;
    assert(sv.take(0) == Seq::<(Seq<char>, Seq<char>)>::empty());
    while rest.len() > 0
        invariant
            0 <= k <= sv.len(),
            rest@.len() + k == sv.len(),
            entry_views(rest@) == sv.skip(k),
            entry_views(out@) == sort_by(sv.take(k), entry_order()),
        decreases rest@.len(),
    {
        let ghost old_rest = rest@;
        let x = rest.remove(0);
        proof {
            assert(entry_views(old_rest)[0] == entry_view(old_rest[0]));
            assert(sv.skip(k)[0] == sv[k]);
            assert(entry_views(rest@) =~= sv.skip(k + 1)) by {
                assert forall|j: int| 0 <= j < rest@.len() implies entry_views(rest@)[j] == sv.skip(
                    k + 1,
                )[j] by {
                    assert(rest@[j] == old_rest[j + 1]);
                    assert(entry_views(old_rest)[j + 1] == sv.skip(k)[j + 1]);
                }
            }
            assert(sv.take(k + 1).drop_last() == sv.take(k));
        }
        let kx = netlist_key_exec(&x.pin);
        let mut p: usize = 0;
        let mut found = false;
        while !found && p < out.len()
            invariant
                p <= out@.len(),
                kx.0@ == netlist_key(x.pin@).0,
                kx.1 as int == netlist_key(x.pin@).1,
                kx.2@ == netlist_key(x.pin@).2,
                found ==> p < out@.len() && (entry_order())(entry_view(x), entry_views(out@)[p as int]),
                forall|j: int| 0 <= j < p ==> !(entry_order())(entry_view(x), #[trigger] entry_views(out@)[j]),
            decreases out@.len() - p, (if found {
                0int
            } else {
                1int
            }),
        {
            assert(entry_views(out@)[p as int] == entry_view(out@[p as int]));
            let ky = netlist_key_exec(&out[p].pin);
            if key_lt_exec(&kx, &ky) {
                found = true;
            } else {
                p = p + 1;
            }
        }
        proof {
            lemma_insert_at(entry_views(out@), entry_view(x), entry_order(), p as int);
            assert(entry_views(out@.insert(p as int, x)) == entry_views(out@).insert(p as int, entry_view(x)));
            k = k + 1;
        }
        out.insert(p, x);
    }
    assert(sv.take(sv.len() as int) == sv);
    out
}

/// The connections text of a pin's entry.
fn connections_text_exec(net: Option<&String>, others: &Vec<(String, String)>) -> (r: String)
    ensures
        r@ == connections_text(
            match net {
                Some(n) => Some(n@),
                None => None,
            },
            pairs_view(others@),
        ),
{
    let ghost ov = pairs_view(others@);
    let labelled = match net {
        Some(n) => {
            let prefix = chars_of("NET_");
            !has_prefix(&chars_of(n.as_str()), &prefix)
        },
        None => false,
    };
    if labelled {
        let mut r = String::from_str("&");
        r.append(net.unwrap().as_str());
        return r;
    }
    if others.len() > 0 {
        let mut texts: Vec<String> = Vec::new();
        let mut k: usize = 0;
        while k < others.len()
            invariant
                k <= others@.len(),
                ov == pairs_view(others@),
                string_views(texts@) == ov.map_values(|p: (Seq<char>, Seq<char>)| pair_joined(p)).take(k as int),
            decreases others@.len() - k,
        {
            let t = joined(&others[k].0, &others[k].1);
            proof {
                assert(string_views(texts@.push(t)) == string_views(texts@).push(t@));
                assert(ov[k as int] == (others@[k as int].0@, others@[k as int].1@));
                assert(ov.map_values(|p: (Seq<char>, Seq<char>)| pair_joined(p)).take(k + 1)
                    == ov.map_values(|p: (Seq<char>, Seq<char>)| pair_joined(p)).take(k as int).push(t@));
            }
            texts.push(t);
            k = k + 1;
        }
        assert(ov.map_values(|p: (Seq<char>, Seq<char>)| pair_joined(p)).take(others@.len() as int)
            == ov.map_values(|p: (Seq<char>, Seq<char>)| pair_joined(p)));
        return join_strings(&texts, ", ");
    }
    String::from_str("unconnected")
}

/// Whether `v` holds the text `t`.
fn holds_text(v: &Vec<String>, t: &String) -> (r: bool)
    ensures
        r == string_views(v@).contains(t@),
{
    let mut k: usize = 0;
    while k < v.len()
        invariant
            k <= v@.len(),
            forall|j: int| 0 <= j < k ==> string_views(v@)[j] != t@,
        decreases v@.len() - k,
    {
        if str_eq(v[k].as_str(), t.as_str()) {
            assert(string_views(v@)[k as int] == t@);
            return true;
        }
        k = k + 1;
    }
    false
}

pub open spec fn filter_view(f: Option<String>) -> Option<Seq<char>> {
    match f {
        Some(t) => Some(t@),
        None => None,
    }
}

/// One more pin of the netlist: its entry, unless its text is already covered.
#[verifier::rlimit(40)]
fn netlist_add_pin(
    graph: &ConnectivityGraph,
    reference: &String,
    pin: &String,
    seen: &mut Vec<String>,
    entries: &mut Vec<NetlistEntry>,
)
    ensures
        (string_views(final(seen)@), entry_views(final(entries)@)) == netlist_step(
            graph.points(),
            graph.edges(),
            (string_views(old(seen)@), entry_views(old(entries)@)),
            (reference@, pin@),
        ),
{
    let pin_ref = joined(reference, pin);
    if holds_text(seen, &pin_ref) {
        return;
    }
    let net = graph.get_net_for_pin(reference.as_str(), pin.as_str());
    let others = graph.get_connected_pins(reference.as_str(), pin.as_str());
    let connections = connections_text_exec(net, &others);
    let ghost base = string_views(seen@);
    let ghost ov = pairs_view(others@).map_values(|p: (Seq<char>, Seq<char>)| pair_joined(p));
    let mut k: usize = 0;
    assert(ov.take(0) == Seq::<Seq<char>>::empty());
    while k < others.len()
        invariant
            k <= others@.len(),
            ov == pairs_view(others@).map_values(|p: (Seq<char>, Seq<char>)| pair_joined(p)),
            string_views(seen@) == base + ov.take(k as int),
        decreases others@.len() - k,
    {
        let t = joined(&others[k].0, &others[k].1);
        proof {
            assert(string_views(seen@.push(t)) == string_views(seen@).push(t@));
            assert(ov.take(k + 1) == ov.take(k as int).push(ov[k as int]));
        }
        seen.push(t);
        k = k + 1;
    }
    assert(ov.take(others@.len() as int) == ov);
    let ghost mid = string_views(seen@);
    seen.push(pin_ref.clone());
    assert(string_views(seen@) == mid.push(pin_ref@));
    let e = NetlistEntry { pin: pin_ref, connections };
    let ghost before = entry_views(entries@);
    entries.push(e);
    assert(entry_views(entries@) == before.push(entry_view(e)));
}

impl GetNetlistTool {
    /// The netlist of a schematic's graph, for its components given as `(reference, pin
    /// numbers)` and, with a filter, only for the component of that reference: one entry
    /// per pin not already covered by an earlier entry's net, sorted by reference letters,
    /// reference number and pin.
    pub fn execute_on(graph: &ConnectivityGraph, components: &Vec<(String, Vec<String>)>, filter: &Option<
        String,
    >) -> (out: GetNetlistOutput)
        ensures
            entry_views(out.entries@) == netlist_spec(
                graph.points(),
                graph.edges(),
                components@,
                filter_view(*filter),
            ),
            out.count == out.entries@.len(),
    {
        let ghost pts = graph.points();
        let ghost edges = graph.edges();
        let ghost fv = filter_view(*filter);
        let mut seen: Vec<String> = Vec::new();
        let mut entries: Vec<NetlistEntry> = Vec::new();
        let ghost mut done: Seq<(Seq<char>, Seq<char>)> = Seq::empty();
        assert(string_views(seen@) == Seq::<Seq<char>>::empty());
        assert(entry_views(entries@) == Seq::<(Seq<char>, Seq<char>)>::empty());
        let mut ci: usize = 0;
        assert(components@.take(0) == Seq::<(String, Vec<String>)>::empty());
        while ci < components.len()
            invariant
                ci <= components@.len(),
                pts == graph.points(),
                edges == graph.edges(),
                fv == filter_view(*filter),
                done == netlist_pins(components@.take(ci as int), fv),
                (string_views(seen@), entry_views(entries@)) == netlist_scan(pts, edges, done),
            decreases components@.len() - ci,
        {
            let c = &components[ci];
            let passes = match filter {
                Some(f) => str_eq(c.0.as_str(), f.as_str()),
                None => true,
            };
            proof {
                assert(components@.take(ci + 1).drop_last() == components@.take(ci as int));
                assert(components@.take(ci + 1).last() == *c);
            }
            let ghost cp = c.1@.map_values(|p: String| (c.0@, p@));
            if passes {
                let ghost start = done;
                let mut k: usize = 0;
                assert(start + cp.take(0) == start);
                while k < c.1.len()
                    invariant
                        k <= c.1@.len(),
                        pts == graph.points(),
                        edges == graph.edges(),
                        cp == c.1@.map_values(|p: String| (c.0@, p@)),
                        done == start + cp.take(k as int),
                        (string_views(seen@), entry_views(entries@)) == netlist_scan(pts, edges, done),
                    decreases c.1@.len() - k,
                {
                    netlist_add_pin(graph, &c.0, &c.1[k], &mut seen, &mut entries);
                    proof {
                        let nd = done.push((c.0@, c.1@[k as int]@));
                        assert(nd.drop_last() == done);
                        assert(cp.take(k + 1) == cp.take(k as int).push(cp[k as int]));
                        assert(nd == start + cp.take(k + 1));
                        done = nd;
                    }
                    k = k + 1;
                }
                assert(cp.take(c.1@.len() as int) == cp);
            } else {
                assert(done + Seq::<(Seq<char>, Seq<char>)>::empty() == done);
            }
            ci = ci + 1;
        }
        assert(components@.take(components@.len() as int) == components@);
        let sorted = sort_entries(entries);
        let count = sorted.len();
        GetNetlistOutput { entries: sorted, count }
    }
}

/// No two entries are for the same pin.
pub open spec fn distinct_pins(s: Seq<(Seq<char>, Seq<char>)>) -> bool {
    forall|i: int, j: int| 0 <= i < j < s.len() ==> s[i].0 != s[j].0
}

/// Every entry's pin is covered, and no pin has two entries.
proof fn lemma_scan_covers_its_entries(pts: Seq<ConnectionPoint>, edges: Seq<(int, int)>, pins: Seq<(Seq<char>, Seq<char>)>)
    ensures
        forall|t: int|
            0 <= t < netlist_scan(pts, edges, pins).1.len() ==> netlist_scan(pts, edges, pins).0.contains(
                #[trigger] netlist_scan(pts, edges, pins).1[t].0,
            ),
        distinct_pins(netlist_scan(pts, edges, pins).1),
    decreases pins.len(),
{
    if pins.len() > 0 {
        let st = netlist_scan(pts, edges, pins.drop_last());
        lemma_scan_covers_its_entries(pts, edges, pins.drop_last());
        let rp = pins.last();
        let pin_ref = pair_joined(rp);
        if !st.0.contains(pin_ref) {
            let nx = netlist_scan(pts, edges, pins);
            let others = connected_pins(pts, edges, rp.0, rp.1);
            let mid = st.0 + others.map_values(|p: (Seq<char>, Seq<char>)| pair_joined(p));
            assert(nx.0 == mid + seq![pin_ref]);
            assert forall|t: int| 0 <= t < nx.1.len() implies nx.0.contains(#[trigger] nx.1[t].0) by {
                if t < st.1.len() {
                    assert(nx.1[t] == st.1[t]);
                    let q = choose|q: int| 0 <= q < st.0.len() && st.0[q] == st.1[t].0;
                    assert(nx.0[q] == st.0[q]);
                } else {
                    assert(nx.0[mid.len() as int] == pin_ref);
                }
            }
            assert forall|i: int, j: int| 0 <= i < j < nx.1.len() implies nx.1[i].0 != nx.1[j].0 by {
                if j == st.1.len() {
                    assert(st.0.contains(st.1[i].0));
                    assert(nx.1[j].0 == pin_ref);
                } else {
                    assert(nx.1[i] == st.1[i] && nx.1[j] == st.1[j]);
                }
            }
        }
    }
}

/// Sorting keeps the entries, and with them their distinct pins.
proof fn lemma_sort_keeps_entries(s: Seq<(Seq<char>, Seq<char>)>)
    ensures
        forall|x: (Seq<char>, Seq<char>)| #[trigger] sort_by(s, entry_order()).contains(x) <==> s.contains(x),
        sort_by(s, entry_order()).len() == s.len(),
        distinct_pins(s) ==> distinct_pins(sort_by(s, entry_order())),
    decreases s.len(),
{
    if s.len() > 0 {
        let rest = s.drop_last();
        let x = s.last();
        let sr = sort_by(rest, entry_order());
        lemma_sort_keeps_entries(rest);
        lemma_insert_by_is_insert(sr, x, entry_order());
        let p = choose|p: int| 0 <= p <= sr.len() && insert_by(sr, x, entry_order()) == sr.insert(p, x);
        let out = sr.insert(p, x);
        assert(sort_by(s, entry_order()) == out);
        assert forall|y: (Seq<char>, Seq<char>)| #[trigger] out.contains(y) <==> s.contains(y) by {
            if out.contains(y) {
                let t = choose|t: int| 0 <= t < out.len() && out[t] == y;
                if t < p {
                    assert(sr[t] == y);
                    assert(sr.contains(y));
                    let u = choose|u: int| 0 <= u < rest.len() && rest[u] == y;
                    assert(s[u] == y);
                } else if t == p {
                    assert(s[s.len() - 1] == y);
                } else {
                    assert(sr[t - 1] == y);
                    assert(sr.contains(y));
                    let u = choose|u: int| 0 <= u < rest.len() && rest[u] == y;
                    assert(s[u] == y);
                }
            }
            if s.contains(y) {
                let u = choose|u: int| 0 <= u < s.len() && s[u] == y;
                if u == s.len() - 1 {
                    assert(out[p] == y);
                } else {
                    assert(rest[u] == y);
                    assert(rest.contains(y));
                    assert(sort_by(rest, entry_order()).contains(y));
                    assert(sr.contains(y));
                    let t = choose|t: int| 0 <= t < sr.len() && sr[t] == y;
                    if t < p {
                        assert(out[t] == y);
                    } else {
                        assert(out[t + 1] == y);
                    }
                }
            }
        }
        if distinct_pins(s) {
            assert(distinct_pins(rest)) by {
                assert forall|i: int, j: int| 0 <= i < j < rest.len() implies rest[i].0 != rest[j].0 by {
                    assert(rest[i] == s[i] && rest[j] == s[j]);
                }
            }
            assert forall|t: int| 0 <= t < sr.len() implies sr[t].0 != x.0 by {
                assert(sr.contains(sr[t]));
                let u = choose|u: int| 0 <= u < rest.len() && rest[u] == sr[t];
                assert(s[u] == rest[u]);
                assert(s[s.len() - 1] == x);
            }
            assert forall|i: int, j: int| 0 <= i < j < out.len() implies out[i].0 != out[j].0 by {
                if i == p {
                    assert(out[j] == sr[j - 1]);
                } else if j == p {
                    assert(out[i] == sr[i]);
                } else {
                    let a = if i < p { i } else { i - 1 };
                    let b = if j < p { j } else { j - 1 };
                    assert(out[i] == sr[a] && out[j] == sr[b]);
                }
            }
        }
    }
}

/// The order of entries by the keys of their pins is a strict order.
proof fn lemma_entry_order_strict()
    ensures
        strict_order(entry_order()),
{
    lemma_text_order_strict();
    assert forall|a: (Seq<char>, Seq<char>)| !#[trigger] (entry_order())(a, a) by {
        let k = netlist_key(a.0);
        assert(!seq_lt(k.0, k.0) && !seq_lt(k.2, k.2));
    }
    assert forall|a: (Seq<char>, Seq<char>), b: (Seq<char>, Seq<char>), c: (Seq<char>, Seq<char>)|
        #[trigger] (entry_order())(a, b) && #[trigger] (entry_order())(b, c) implies (entry_order())(a, c) by {
        let ka = netlist_key(a.0);
        let kb = netlist_key(b.0);
        let kc = netlist_key(c.0);
        assert(netlist_key_lt(ka, kb) && netlist_key_lt(kb, kc));
        if seq_lt(ka.0, kb.0) && seq_lt(kb.0, kc.0) {
            assert(seq_lt(ka.0, kc.0));
        }
        if seq_lt(ka.2, kb.2) && seq_lt(kb.2, kc.2) {
            assert(seq_lt(ka.2, kc.2));
        }
    }
}

/// The netlist lists each pin at most once, in the order of reference letters,
/// reference number and pin; it holds exactly the entries found for the requested pins.
pub proof fn lemma_netlist_lists_each_pin_once(
    pts: Seq<ConnectionPoint>,
    edges: Seq<(int, int)>,
    comps: Seq<(String, Vec<String>)>,
    filter: Option<Seq<char>>,
)
    ensures
        distinct_pins(netlist_spec(pts, edges, comps, filter)),
        sorted_by(netlist_spec(pts, edges, comps, filter), entry_order()),
        netlist_spec(pts, edges, comps, filter).to_multiset() == netlist_scan(
            pts,
            edges,
            netlist_pins(comps, filter),
        ).1.to_multiset(),
{
    let entries = netlist_scan(pts, edges, netlist_pins(comps, filter)).1;
    lemma_scan_covers_its_entries(pts, edges, netlist_pins(comps, filter));
    lemma_sort_keeps_entries(entries);
    lemma_entry_order_strict();
    lemma_sort_by(entries, entry_order());
}

} // verus!
