//! The components of a schematic outline: each placed symbol that is not a power symbol,
//! with its pins and the net each pin is on, ordered by reference.
use vstd::prelude::*;
use crate::ordering::{lemma_insert_at, sort_by, str_lt};
use crate::outline::NetInfo;
use crate::outline_nets::{pair_joined, GridPoint, SchematicPoints, SymbolPins};
use crate::semantic_components::{key_lt, reference_key, reference_key_exec};
use crate::sheet_points::starts_with_hash;
use crate::text::{push_char, str_eq};

verus! {

/// A pin of an outlined component: number, name, the net it is on, the pins listed as
/// connected to it, whether it is unconnected, and where it attaches.
#[derive(Debug, Clone)]
pub struct PinRecord {
    pub number: String,
    pub name: String,
    pub net: Option<String>,
    pub connected_to: Vec<String>,
    pub unconnected: bool,
    pub position: Option<GridPoint>,
}

/// An outlined component: reference, value and pins.
#[derive(Debug, Clone)]
pub struct ComponentRecord {
    pub reference: String,
    pub value: String,
    pub pins: Vec<PinRecord>,
}

pub type PinRecordView = (Seq<char>, Seq<char>, Option<Seq<char>>, Seq<Seq<char>>, bool, Option<GridPoint>);

pub type ComponentRecordView = (Seq<char>, Seq<char>, Seq<PinRecordView>);

pub open spec fn opt_text(o: Option<String>) -> Option<Seq<char>> {
    match o {
        Some(s) => Some(s@),
        None => None,
    }
}

pub open spec fn pin_record_view(p: PinRecord) -> PinRecordView {
    (p.number@, p.name@, opt_text(p.net), p.connected_to@.map_values(|s: String| s@), p.unconnected, p.position)
}

pub open spec fn record_view(c: ComponentRecord) -> ComponentRecordView {
    (c.reference@, c.value@, c.pins@.map_values(|p: PinRecord| pin_record_view(p)))
}

pub open spec fn record_views(v: Seq<ComponentRecord>) -> Seq<ComponentRecordView> {
    v.map_values(|c: ComponentRecord| record_view(c))
}

/// The name of the first net from `k` on whose connections hold `text`.
pub open spec fn net_holding(nets: Seq<NetInfo>, text: Seq<char>, k: int) -> Option<Seq<char>>
    decreases nets.len() - k,
{
    if k < 0 || k >= nets.len() {
        None
    } else if exists|j: int| 0 <= j < nets[k].connections@.len() && #[trigger] nets[k].connections@[j]@ == text {
        Some(nets[k].name@)
    } else {
        net_holding(nets, text, k + 1)
    }
}

/// A pin's record: its net is the first that lists `REF:PIN`. A pin on no net belongs
/// to no group of connected points, so nothing is listed as connected to it, and it is
/// unconnected.
pub open spec fn pin_record(nets: Seq<NetInfo>, reference: Seq<char>, pin: (String, String, Option<GridPoint>)) -> PinRecordView {
    let net = net_holding(nets, pair_joined((reference, pin.0@)), 0);
    (pin.0@, pin.1@, net, Seq::empty(), net is None, pin.2)
}

pub open spec fn symbol_record(nets: Seq<NetInfo>, s: SymbolPins) -> ComponentRecordView {
    (s.reference@, s.value@, s.pins@.map_values(|p: (String, String, Option<GridPoint>)| pin_record(nets, s.reference@, p)))
}

/// Power symbols, whose reference starts with `#`, are left out.
pub open spec fn is_power_reference(r: Seq<char>) -> bool {
    "#"@.is_prefix_of(r)
}

/// The records of the non-power symbols, in the schematic's order.
pub open spec fn symbol_records(nets: Seq<NetInfo>, ss: Seq<SymbolPins>) -> Seq<ComponentRecordView>
    decreases ss.len(),
{
    if ss.len() == 0 {
        Seq::empty()
    } else {
        symbol_records(nets, ss.drop_last()) + if is_power_reference(ss.last().reference@) {
            Seq::empty()
        } else {
            seq![symbol_record(nets, ss.last())]
        }
    }
}

/// Components ordered by their reference's letters, then its number.
pub open spec fn record_order() -> spec_fn(ComponentRecordView, ComponentRecordView) -> bool {
    |a: ComponentRecordView, b: ComponentRecordView| key_lt(reference_key(a.0), reference_key(b.0))
}

/// The components of the outline: the non-power symbols' records, sorted by reference,
/// equal keys keeping the schematic's order.
pub open spec fn outline_components_spec(nets: Seq<NetInfo>, s: SchematicPoints) -> Seq<ComponentRecordView> {
    sort_by(symbol_records(nets, s.symbols@), record_order())
}

fn net_holding_exec(nets: &Vec<NetInfo>, text: &String) -> (r: Option<String>)
    ensures
        opt_text(r) == net_holding(nets@, text@, 0),
{
    let mut k: usize = 0;
    while k < nets.len()
        invariant
            k <= nets@.len(),
            net_holding(nets@, text@, 0) == net_holding(nets@, text@, k as int),
        decreases nets@.len() - k,
    {
        let cs = &nets[k].connections;
        let mut j: usize = 0;
        while j < cs.len()
            invariant
                j <= cs@.len(),
                k < nets@.len(),
                net_holding(nets@, text@, 0) == net_holding(nets@, text@, k as int),
                cs == nets@[k as int].connections,
                forall|i: int| 0 <= i < j ==> cs@[i]@ != text@,
            decreases cs@.len() - j,
        {
            if str_eq(cs[j].as_str(), text.as_str()) {
                assert(nets@[k as int].connections@[j as int]@ == text@);
                return Some(nets[k].name.clone());
            }
            j = j + 1;
        }
        k = k + 1;
    }
    None
}

fn pin_text_exec(reference: &String, pin: &String) -> (r: String)
    ensures
        r@ == pair_joined((reference@, pin@)),
{
    let mut t = reference.clone();
    push_char(&mut t, ':');
    t.append(pin.as_str());
    t
}

fn symbol_record_exec(nets: &Vec<NetInfo>, s: &SymbolPins) -> (r: ComponentRecord)
    ensures
        record_view(r) == symbol_record(nets@, *s),
{
    let ghost target = symbol_record(nets@, *s).2;
    let mut pins: Vec<PinRecord> = Vec::new();
    let mut k: usize = 0;
    while k < s.pins.len()
        invariant
            k <= s.pins@.len(),
            target == symbol_record(nets@, *s).2,
            pins@.map_values(|p: PinRecord| pin_record_view(p)) == target.take(k as int),
        decreases s.pins@.len() - k,
    {
        let text = pin_text_exec(&s.reference, &s.pins[k].0);
        let net = net_holding_exec(nets, &text);
        let unconnected = net.is_none();
        let rec = PinRecord {
            number: s.pins[k].0.clone(),
            name: s.pins[k].1.clone(),
            net,
            connected_to: Vec::new(),
            unconnected,
            position: s.pins[k].2,
        };
        let ghost before = pins@;
        pins.push(rec);
        assert(rec.connected_to@.map_values(|x: String| x@) =~= Seq::<Seq<char>>::empty());
        assert(pins@.map_values(|p: PinRecord| pin_record_view(p)) =~= before.map_values(|p: PinRecord| pin_record_view(p)).push(
            pin_record_view(rec),
        ));
        assert(target.take(k + 1) =~= target.take(k as int).push(target[k as int]));
        k = k + 1;
    }
    assert(target.take(s.pins@.len() as int) =~= target);
    ComponentRecord { reference: s.reference.clone(), value: s.value.clone(), pins }
}

fn insert_record(out: &mut Vec<ComponentRecord>, keys: &mut Vec<(String, i32)>, x: ComponentRecord)
    requires
        old(keys)@.len() == old(out)@.len(),
        forall|j: int|
            0 <= j < old(out)@.len() ==> (#[trigger] old(keys)@[j]).0@ == reference_key(old(out)@[j].reference@).0
                && old(keys)@[j].1 as int == reference_key(old(out)@[j].reference@).1,
    ensures
        final(keys)@.len() == final(out)@.len(),
        forall|j: int|
            0 <= j < final(out)@.len() ==> (#[trigger] final(keys)@[j]).0@ == reference_key(final(out)@[j].reference@).0
                && final(keys)@[j].1 as int == reference_key(final(out)@[j].reference@).1,
        record_views(final(out)@) == crate::ordering::insert_by(record_views(old(out)@), record_view(x), record_order()),
{
    let kx = reference_key_exec(x.reference.as_str());
    let mut p: usize = 0;
    let mut found = false;
    while !found && p < out.len()
        invariant
            p <= out@.len(),
            keys@.len() == out@.len(),
            out@ == old(out)@,
            keys@ == old(keys)@,
            kx.0@ == reference_key(x.reference@).0,
            kx.1 as int == reference_key(x.reference@).1,
            forall|j: int|
                0 <= j < out@.len() ==> (#[trigger] keys@[j]).0@ == reference_key(out@[j].reference@).0 && keys@[j].1 as int
                    == reference_key(out@[j].reference@).1,
            found ==> p < out@.len() && (record_order())(record_view(x), record_views(out@)[p as int]),
            forall|j: int| 0 <= j < p ==> !(record_order())(record_view(x), #[trigger] record_views(out@)[j]),
        decreases out@.len() - p, (if found {
            0int
        } else {
            1int
        }),
    {
        assert(record_views(out@)[p as int] == record_view(out@[p as int]));
        let lt = str_lt(kx.0.as_str(), keys[p].0.as_str()) || (str_eq(kx.0.as_str(), keys[p].0.as_str()) && kx.1
            < keys[p].1);
        if lt {
            found = true;
        } else {
            p = p + 1;
        }
    }
    proof {
        lemma_insert_at(record_views(out@), record_view(x), record_order(), p as int);
        assert(record_views(out@.insert(p as int, x)) =~= record_views(out@).insert(p as int, record_view(x)));
    }
    let ghost kv = keys@;
    let ghost ov = out@;
    keys.insert(p, kx);
    out.insert(p, x);
    assert forall|j: int| 0 <= j < out@.len() implies (#[trigger] keys@[j]).0@ == reference_key(out@[j].reference@).0
        && keys@[j].1 as int == reference_key(out@[j].reference@).1 by {
        if j < p {
            assert(keys@[j] == kv[j] && out@[j] == ov[j]);
        } else if j > p {
            assert(keys@[j] == kv[j - 1] && out@[j] == ov[j - 1]);
        }
    }
}

/// The components of the outline, as `outline_components_spec` states.
pub fn outline_components(nets: &Vec<NetInfo>, s: &SchematicPoints) -> (r: Vec<ComponentRecord>)
    ensures
        record_views(r@) == outline_components_spec(nets@, *s),
{
    let ghost ss = s.symbols@;
    let mut out: Vec<ComponentRecord> = Vec::new();
    let mut keys: Vec<(String, i32)> = Vec::new();
    let mut k: usize = 0;
    while k < s.symbols.len()
        invariant
            k <= ss.len(),
            ss == s.symbols@,
            keys@.len() == out@.len(),
            forall|j: int|
                0 <= j < out@.len() ==> (#[trigger] keys@[j]).0@ == reference_key(out@[j].reference@).0 && keys@[j].1 as int
                    == reference_key(out@[j].reference@).1,
            record_views(out@) == sort_by(symbol_records(nets@, ss.take(k as int)), record_order()),
        decreases ss.len() - k,
    {
        assert(ss.take(k + 1).drop_last() =~= ss.take(k as int));
        assert(ss.take(k + 1).last() == ss[k as int]);
        let sym = &s.symbols[k];
        if !starts_with_hash(&sym.reference) {
            let rec = symbol_record_exec(nets, sym);
            let ghost prev = symbol_records(nets@, ss.take(k as int));
            insert_record(&mut out, &mut keys, rec);
            assert(symbol_records(nets@, ss.take(k + 1)) == prev.push(symbol_record(nets@, ss[k as int])));
            assert(prev.push(symbol_record(nets@, ss[k as int])).drop_last() =~= prev);
        } else {
            assert(symbol_records(nets@, ss.take(k + 1)) =~= symbol_records(nets@, ss.take(k as int)));
        }
        k = k + 1;
    }
    assert(ss.take(ss.len() as int) =~= ss);
    out
}

} // verus!
