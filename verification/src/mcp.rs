//! Requests accepted by the MCP service.

use vstd::prelude::*;
use crate::ordering::sort_by;
use crate::semantic_components::{dedup_adjacent, dedup_strings, sort_strings, string_views, text_order};
use crate::semantic_merge::join_with;
use crate::semantic_text::join_strings;
use crate::text::{chars_of, has_prefix, str_eq};

verus! {

/// The kicaddy MCP service that handles tool calls
#[derive(Debug, Clone, Copy)]
pub struct KicaddyService;

impl KicaddyService {
    /// Create a new KicaddyService instance
    pub fn new() -> (r: Self)
        ensures
            r == KicaddyService,
    {
        KicaddyService
    }
}

#[derive(Debug, Clone)]
pub struct SearchSymbolRequest {
    /// Search query (e.g., 'current sensor i2c', 'resistor', 'op amp')
    pub query: String,
    /// Maximum number of results (default: 10)
    pub limit: Option<usize>,
    /// Filter to a specific library (optional)
    pub library: Option<String>,
}

#[derive(Debug, Clone)]
pub struct CompileYamlRequest {
    pub yaml_path: String,
    pub output_path: Option<String>,
    pub validate_only: Option<bool>,
}

#[derive(Debug, Clone)]
pub struct OutlineRequest {
    /// Path to .kicad_sch file
    pub path: String,
}

#[derive(Debug, Clone)]
pub struct NetlistRequest {
    pub yaml_path: String,
    /// Optional component reference to filter by (e.g., 'U1')
    pub filter: Option<String>,
}

#[derive(Debug, Clone)]
pub struct GetSymbolInfoRequest {
    pub library: String,
    pub symbol: String,
}

/// A connection of a schematic description: the net it names, if any, and the pins
/// (`REF:PIN`) it joins.
#[derive(Debug, Clone)]
pub struct NetConnection {
    pub net: Option<String>,
    pub pins: Vec<String>,
}

/// Whether a pin text `REF:PIN` is kept by the filter: with a filter `F`, the text
/// starts with `F` and has `:` at the character position given by the byte length of
/// `F`.
pub open spec fn pin_passes(filter: Option<Seq<char>>, p: Seq<char>) -> bool {
    match filter {
        None => true,
        Some(f) => {
            let n = vstd::utf8::encode_utf8(f).len();
            &&& f.is_prefix_of(p)
            &&& n < p.len()
            &&& p[n as int] == ':'
        },
    }
}

/// The pins kept by the filter, in order.
pub open spec fn kept_pins(pins: Seq<Seq<char>>, filter: Option<Seq<char>>) -> Seq<Seq<char>>
    decreases pins.len(),
{
    if pins.len() == 0 {
        Seq::empty()
    } else {
        kept_pins(pins.drop_last(), filter) + if pin_passes(filter, pins.last()) {
            seq![pins.last()]
        } else {
            Seq::<Seq<char>>::empty()
        }
    }
}

pub open spec fn net_view(c: NetConnection) -> Option<Seq<char>> {
    match c.net {
        Some(n) => Some(n@),
        None => None,
    }
}

/// The kept pins of all connections that name the net `name`, in order.
pub open spec fn net_pins(conns: Seq<NetConnection>, filter: Option<Seq<char>>, name: Seq<char>) -> Seq<
    Seq<char>,
>
    decreases conns.len(),
{
    if conns.len() == 0 {
        Seq::empty()
    } else {
        net_pins(conns.drop_last(), filter, name) + if net_view(conns.last()) == Some(name) {
            kept_pins(string_views(conns.last().pins@), filter)
        } else {
            Seq::<Seq<char>>::empty()
        }
    }
}

/// The net names of the connections, in order, repeats included.
pub open spec fn net_names(conns: Seq<NetConnection>) -> Seq<Seq<char>>
    decreases conns.len(),
{
    if conns.len() == 0 {
        Seq::empty()
    } else {
        net_names(conns.drop_last()) + match net_view(conns.last()) {
            Some(n) => seq![n],
            None => Seq::<Seq<char>>::empty(),
        }
    }
}

/// The lines of the named nets, for the names in the given order: `&NAME: P1, P2` for
/// each net that keeps a pin.
pub open spec fn named_lines(conns: Seq<NetConnection>, filter: Option<Seq<char>>, names: Seq<Seq<char>>) -> Seq<
    Seq<char>,
>
    decreases names.len(),
{
    if names.len() == 0 {
        Seq::empty()
    } else {
        let n = names.last();
        let pins = net_pins(conns, filter, n);
        named_lines(conns, filter, names.drop_last()) + if pins.len() > 0 {
            seq!["&"@ + n + ": "@ + join_with(pins, ", "@)]
        } else {
            Seq::<Seq<char>>::empty()
        }
    }
}

/// The lines of the connections without a net that keep two pins or more: `P1 - P2`.
pub open spec fn wire_lines(conns: Seq<NetConnection>, filter: Option<Seq<char>>) -> Seq<Seq<char>>
    decreases conns.len(),
{
    if conns.len() == 0 {
        Seq::empty()
    } else {
        let c = conns.last();
        let pins = kept_pins(string_views(c.pins@), filter);
        wire_lines(conns.drop_last(), filter) + if c.net is None && pins.len() >= 2 {
            seq![join_with(pins, " - "@)]
        } else {
            Seq::<Seq<char>>::empty()
        }
    }
}

/// The netlist text: the named nets in name order, then the unnamed connections in
/// their order, one per line; `No connections defined` when there is no line.
pub open spec fn netlist_text(conns: Seq<NetConnection>, filter: Option<Seq<char>>) -> Seq<char> {
    let names = dedup_adjacent(sort_by(net_names(conns), text_order()));
    let lines = named_lines(conns, filter, names) + wire_lines(conns, filter);
    if lines.len() == 0 {
        "No connections defined"@
    } else {
        join_with(lines, "\n"@)
    }
}

/// The byte length of the filter fits in a `usize`.
pub open spec fn filter_fits(filter: Option<&str>) -> bool {
    match filter {
        Some(f) => vstd::utf8::encode_utf8(f@).len() <= usize::MAX,
        None => true,
    }
}

fn pin_passes_exec(filter: Option<&str>, p: &String) -> (r: bool)
    requires
        filter_fits(filter),
    ensures
        r == pin_passes(
            match filter {
                Some(f) => Some(f@),
                None => None,
            },
            p@,
        ),
{
    match filter {
        None => true,
        Some(f) => {
            let pv = chars_of(p.as_str());
            let fv = chars_of(f);
            let n = f.len();
            has_prefix(&pv, &fv) && n < pv.len() && pv[n] == ':'
        },
    }
}

fn kept_pins_exec(pins: &Vec<String>, filter: Option<&str>) -> (r: Vec<String>)
    requires
        filter_fits(filter),
    ensures
        string_views(r@) == kept_pins(
            string_views(pins@),
            match filter {
                Some(f) => Some(f@),
                None => None,
            },
        ),
{
    let ghost fv = match filter {
        Some(f) => Some(f@),
        None => None,
    };
    let ghost pv = string_views(pins@);
    let mut out: Vec<String> = Vec::new();
    let mut k: usize = 0;
    assert(pv.take(0) == Seq::<Seq<char>>::empty());
    while k < pins.len()
        invariant
            k <= pins@.len(),
            pv == string_views(pins@),
            fv == match filter {
                Some(f) => Some(f@),
                None => None,
            },
            filter_fits(filter),
            string_views(out@) == kept_pins(pv.take(k as int), fv),
        decreases pins@.len() - k,
    {
        assert(pv.take(k + 1).drop_last() == pv.take(k as int));
        assert(pv.take(k + 1).last() == pins@[k as int]@);
        if pin_passes_exec(filter, &pins[k]) {
            let t = pins[k].clone();
            assert(string_views(out@.push(t)) == string_views(out@).push(t@));
            out.push(t);
        } else {
            assert(string_views(out@) + Seq::<Seq<char>>::empty() == string_views(out@));
        }
        k = k + 1;
    }
    assert(pv.take(pins@.len() as int) == pv);
    out
}

/// The text of the netlist of a schematic description's connections, optionally only
/// for the pins of one component: each named net as `&NAME: P1, P2` in name order, then
/// each unnamed connection of two pins or more as `P1 - P2`, or `No connections
/// defined`.
#[verifier::rlimit(40)]
pub fn execute_netlist(connections: &Vec<NetConnection>, filter: Option<&str>) -> (r: String)
    requires
        filter_fits(filter),
    ensures
        r@ == netlist_text(
            connections@,
            match filter {
                Some(f) => Some(f@),
                None => None,
            },
        ),
{
    let ghost fv = match filter {
        Some(f) => Some(f@),
        None => None,
    };
    let ghost cs = connections@;
    let n = connections.len();
    let mut kept: Vec<Vec<String>> = Vec::new();
    let mut names: Vec<String> = Vec::new();
    let mut i: usize = 0;
    assert(cs.take(0) == Seq::<NetConnection>::empty());
    while i < n
        invariant
            i <= n == cs.len(),
            cs == connections@,
            fv == match filter {
                Some(f) => Some(f@),
                None => None,
            },
            filter_fits(filter),
            kept@.len() == i,
            forall|j: int| 0 <= j < i ==> string_views(#[trigger] kept@[j]@) == kept_pins(
                string_views(cs[j].pins@),
                fv,
            ),
            string_views(names@) == net_names(cs.take(i as int)),
        decreases n - i,
    {
        let c = &connections[i];
        kept.push(kept_pins_exec(&c.pins, filter));
        assert(cs.take(i + 1).drop_last() == cs.take(i as int));
        assert(cs.take(i + 1).last() == cs[i as int]);
        match &c.net {
            Some(nm) => {
                let t = nm.clone();
                assert(string_views(names@.push(t)) == string_views(names@).push(t@));
                names.push(t);
            },
            None => {
                assert(string_views(names@) + Seq::<Seq<char>>::empty() == string_views(names@));
            },
        }
        i = i + 1;
    }
    assert(cs.take(n as int) == cs);
    let names = dedup_strings(sort_strings(names));
    let ghost nv = string_views(names@);
    let mut lines: Vec<String> = Vec::new();
    let mut k: usize = 0;
    assert(nv.take(0) == Seq::<Seq<char>>::empty());
    while k < names.len()
        invariant
            k <= names@.len(),
            nv == string_views(names@),
            n == cs.len(),
            cs == connections@,
            kept@.len() == n,
            forall|j: int| 0 <= j < n ==> string_views(#[trigger] kept@[j]@) == kept_pins(
                string_views(cs[j].pins@),
                fv,
            ),
            string_views(lines@) == named_lines(cs, fv, nv.take(k as int)),
        decreases names@.len() - k,
    {
        let name = &names[k];
        let mut pins: Vec<String> = Vec::new();
        let mut j: usize = 0;
        assert(cs.take(0) == Seq::<NetConnection>::empty());
        while j < n
            invariant
                j <= n == cs.len(),
                cs == connections@,
                kept@.len() == n,
                forall|q: int| 0 <= q < n ==> string_views(#[trigger] kept@[q]@) == kept_pins(
                    string_views(cs[q].pins@),
                    fv,
                ),
                string_views(pins@) == net_pins(cs.take(j as int), fv, name@),
            decreases n - j,
        {
            assert(cs.take(j + 1).drop_last() == cs.take(j as int));
            assert(cs.take(j + 1).last() == cs[j as int]);
            let hit = match &connections[j].net {
                Some(nm) => str_eq(nm.as_str(), name.as_str()),
                None => false,
            };
            if hit {
                let ghost before = string_views(pins@);
                let mut q: usize = 0;
                let ghost kv = string_views(kept@[j as int]@);
                assert(kv.take(0) == Seq::<Seq<char>>::empty());
                while q < kept[j].len()
                    invariant
                        j < n == kept@.len(),
                        q <= kept@[j as int]@.len(),
                        kv == string_views(kept@[j as int]@),
                        string_views(pins@) == before + kv.take(q as int),
                    decreases kept@[j as int]@.len() - q,
                {
                    let t = kept[j][q].clone();
                    proof {
                        assert(string_views(pins@.push(t)) == string_views(pins@).push(t@));
                        assert(kv.take(q + 1) == kv.take(q as int).push(kv[q as int]));
                    }
                    pins.push(t);
                    q = q + 1;
                }
                assert(kv.take(kv.len() as int) == kv);
            } else {
                assert(string_views(pins@) + Seq::<Seq<char>>::empty() == string_views(pins@));
            }
            j = j + 1;
        }
        assert(cs.take(n as int) == cs);
        assert(nv.take(k + 1).drop_last() == nv.take(k as int));
        assert(nv.take(k + 1).last() == name@);
        if pins.len() > 0 {
            let mut line = String::from_str("&");
            line.append(name.as_str());
            line.append(": ");
            let body = join_strings(&pins, ", ");
            line.append(body.as_str());
            assert(string_views(lines@.push(line)) == string_views(lines@).push(line@));
            lines.push(line);
        } else {
            assert(string_views(lines@) + Seq::<Seq<char>>::empty() == string_views(lines@));
        }
        k = k + 1;
    }
    assert(nv.take(names@.len() as int) == nv);
    let ghost named = string_views(lines@);
    let mut i: usize = 0;
    assert(cs.take(0) == Seq::<NetConnection>::empty());
    assert(named + wire_lines(cs.take(0), fv) == named);
    while i < n
        invariant
            i <= n == cs.len(),
            cs == connections@,
            kept@.len() == n,
            forall|j: int| 0 <= j < n ==> string_views(#[trigger] kept@[j]@) == kept_pins(
                string_views(cs[j].pins@),
                fv,
            ),
            string_views(lines@) == named + wire_lines(cs.take(i as int), fv),
        decreases n - i,
    {
        assert(cs.take(i + 1).drop_last() == cs.take(i as int));
        assert(cs.take(i + 1).last() == cs[i as int]);
        let unnamed = match &connections[i].net {
            Some(_) => false,
            None => true,
        };
        assert(string_views(kept@[i as int]@).len() == kept@[i as int]@.len());
        if unnamed && kept[i].len() >= 2 {
            let line = join_strings(&kept[i], " - ");
            assert(string_views(lines@.push(line)) == string_views(lines@).push(line@));
            lines.push(line);
        } else {
            assert(string_views(lines@) + Seq::<Seq<char>>::empty() == string_views(lines@));
        }
        i = i + 1;
    }
    assert(cs.take(n as int) == cs);
    if lines.len() == 0 {
        String::from_str("No connections defined")
    } else {
        join_strings(&lines, "\n")
    }
}

proof fn lemma_wire_lines_contains(conns: Seq<NetConnection>, filter: Option<Seq<char>>, i: int)
    requires
        0 <= i < conns.len(),
        conns[i].net is None,
        kept_pins(string_views(conns[i].pins@), filter).len() >= 2,
    ensures
        wire_lines(conns, filter).contains(join_with(kept_pins(string_views(conns[i].pins@), filter), " - "@)),
    decreases conns.len(),
{
    let line = join_with(kept_pins(string_views(conns[i].pins@), filter), " - "@);
    let prev = wire_lines(conns.drop_last(), filter);
    if i == conns.len() - 1 {
        assert(wire_lines(conns, filter) == prev + seq![line]);
        assert(wire_lines(conns, filter)[prev.len() as int] == line);
    } else {
        assert(conns.drop_last()[i] == conns[i]);
        lemma_wire_lines_contains(conns.drop_last(), filter, i);
        let k = choose|k: int| 0 <= k < prev.len() && prev[k] == line;
        assert(wire_lines(conns, filter)[k] == line);
    }
}

/// Every connection without a net that keeps two pins or more after filtering gives a
/// line of the netlist: its kept pins joined by ` - `.
pub proof fn lemma_unnamed_connection_gives_its_line(conns: Seq<NetConnection>, filter: Option<Seq<char>>, i: int)
    requires
        0 <= i < conns.len(),
        conns[i].net is None,
        kept_pins(string_views(conns[i].pins@), filter).len() >= 2,
    ensures
        ({
            let names = dedup_adjacent(sort_by(net_names(conns), text_order()));
            let lines = named_lines(conns, filter, names) + wire_lines(conns, filter);
            &&& lines.contains(join_with(kept_pins(string_views(conns[i].pins@), filter), " - "@))
            &&& netlist_text(conns, filter) == join_with(lines, "\n"@)
        }),
{
    let names = dedup_adjacent(sort_by(net_names(conns), text_order()));
    let a = named_lines(conns, filter, names);
    let w = wire_lines(conns, filter);
    lemma_wire_lines_contains(conns, filter, i);
    let line = join_with(kept_pins(string_views(conns[i].pins@), filter), " - "@);
    let k = choose|k: int| 0 <= k < w.len() && w[k] == line;
    assert((a + w)[a.len() + k] == line);
}

/// A single connection without a net that keeps two pins or more is the whole netlist:
/// its kept pins joined by ` - `.
pub proof fn lemma_single_unnamed_connection_netlist(c: NetConnection, filter: Option<Seq<char>>)
    requires
        c.net is None,
        kept_pins(string_views(c.pins@), filter).len() >= 2,
    ensures
        netlist_text(seq![c], filter) == join_with(kept_pins(string_views(c.pins@), filter), " - "@),
{
    let conns = seq![c];
    assert(conns.drop_last() =~= Seq::<NetConnection>::empty());
    assert(conns.last() == c);
    assert(net_view(c) is None);
    assert(net_names(conns.drop_last()) == Seq::<Seq<char>>::empty());
    assert(wire_lines(conns.drop_last(), filter) == Seq::<Seq<char>>::empty());
    assert(net_names(conns) =~= Seq::<Seq<char>>::empty());
    assert(sort_by(net_names(conns), text_order()) =~= Seq::<Seq<char>>::empty());
    let names = dedup_adjacent(sort_by(net_names(conns), text_order()));
    assert(names =~= Seq::<Seq<char>>::empty());
    let line = join_with(kept_pins(string_views(c.pins@), filter), " - "@);
    assert(wire_lines(conns, filter) =~= seq![line]);
    assert(named_lines(conns, filter, names) + wire_lines(conns, filter) =~= seq![line]);
}

proof fn lemma_net_names_contains(conns: Seq<NetConnection>, i: int)
    requires
        0 <= i < conns.len(),
        conns[i].net is Some,
    ensures
        net_names(conns).contains(conns[i].net.unwrap()@),
    decreases conns.len(),
{
    let prev = net_names(conns.drop_last());
    if i == conns.len() - 1 {
        assert(net_names(conns) == prev + seq![conns[i].net.unwrap()@]);
        assert(net_names(conns)[prev.len() as int] == conns[i].net.unwrap()@);
    } else {
        assert(conns.drop_last()[i] == conns[i]);
        lemma_net_names_contains(conns.drop_last(), i);
        let k = choose|k: int| 0 <= k < prev.len() && prev[k] == conns[i].net.unwrap()@;
        assert(net_names(conns)[k] == conns[i].net.unwrap()@);
    }
}

proof fn lemma_dedup_contains(s: Seq<Seq<char>>, x: Seq<char>)
    requires
        s.contains(x),
    ensures
        dedup_adjacent(s).contains(x),
    decreases s.len(),
{
    let r = dedup_adjacent(s.drop_last());
    if s.last() == x {
        if r.len() > 0 && r.last() == s.last() {
            assert(dedup_adjacent(s)[r.len() - 1] == x);
        } else {
            assert(dedup_adjacent(s)[r.len() as int] == x);
        }
    } else {
        let k = choose|k: int| 0 <= k < s.len() && s[k] == x;
        assert(s.drop_last()[k] == x);
        lemma_dedup_contains(s.drop_last(), x);
        let m = choose|m: int| 0 <= m < r.len() && r[m] == x;
        assert(dedup_adjacent(s)[m] == x);
    }
}

proof fn lemma_named_lines_contains(conns: Seq<NetConnection>, filter: Option<Seq<char>>, names: Seq<Seq<char>>, n: Seq<char>)
    requires
        names.contains(n),
        net_pins(conns, filter, n).len() > 0,
    ensures
        named_lines(conns, filter, names).contains("&"@ + n + ": "@ + join_with(net_pins(conns, filter, n), ", "@)),
    decreases names.len(),
{
    let line = "&"@ + n + ": "@ + join_with(net_pins(conns, filter, n), ", "@);
    let prev = named_lines(conns, filter, names.drop_last());
    if names.last() == n {
        assert(named_lines(conns, filter, names) == prev + seq![line]);
        assert(named_lines(conns, filter, names)[prev.len() as int] == line);
    } else {
        let k = choose|k: int| 0 <= k < names.len() && names[k] == n;
        assert(names.drop_last()[k] == n);
        lemma_named_lines_contains(conns, filter, names.drop_last(), n);
        let m = choose|m: int| 0 <= m < prev.len() && prev[m] == line;
        assert(named_lines(conns, filter, names)[m] == line);
    }
}

/// Every net named by a connection whose connections keep a pin after filtering gives a
/// line of the netlist: `&NAME: ` and all its kept pins, joined by `, `.
pub proof fn lemma_named_net_gives_its_line(conns: Seq<NetConnection>, filter: Option<Seq<char>>, i: int)
    requires
        0 <= i < conns.len(),
        conns[i].net is Some,
        net_pins(conns, filter, conns[i].net.unwrap()@).len() > 0,
    ensures
        ({
            let n = conns[i].net.unwrap()@;
            let names = dedup_adjacent(sort_by(net_names(conns), text_order()));
            let lines = named_lines(conns, filter, names) + wire_lines(conns, filter);
            &&& lines.contains("&"@ + n + ": "@ + join_with(net_pins(conns, filter, n), ", "@))
            &&& netlist_text(conns, filter) == join_with(lines, "\n"@)
        }),
{
    let n = conns[i].net.unwrap()@;
    lemma_net_names_contains(conns, i);
    crate::ordering::lemma_text_order_strict();
    crate::ordering::lemma_sort_by(net_names(conns), text_order());
    let sorted = sort_by(net_names(conns), text_order());
    assert(net_names(conns).to_multiset().count(n) > 0) by {
        broadcast use vstd::seq_lib::group_to_multiset_ensures;
    }
    assert(sorted.contains(n)) by {
        broadcast use vstd::seq_lib::group_to_multiset_ensures;
    }
    lemma_dedup_contains(sorted, n);
    let names = dedup_adjacent(sorted);
    lemma_named_lines_contains(conns, filter, names, n);
    let a = named_lines(conns, filter, names);
    let line = "&"@ + n + ": "@ + join_with(net_pins(conns, filter, n), ", "@);
    let k = choose|k: int| 0 <= k < a.len() && a[k] == line;
    assert((a + wire_lines(conns, filter))[k] == line);
}

/// Without a filter every pin is kept, in order.
pub proof fn lemma_no_filter_keeps_all_pins(pins: Seq<Seq<char>>)
    ensures
        kept_pins(pins, None) == pins,
    decreases pins.len(),
{
    if pins.len() > 0 {
        lemma_no_filter_keeps_all_pins(pins.drop_last());
        assert(pins.drop_last().push(pins.last()) =~= pins);
    }
}

} // verus!
