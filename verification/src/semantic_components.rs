//! The component side of the semantic outline: pin names, the nets read from the
//! outline, and components ordered by reference.
use vstd::prelude::*;
use crate::ordering::{seq_lt, sort_by, lemma_insert_at, str_lt};
use crate::outline::{NetInfo, NetLabelScope};
use crate::semantic_merge::{ComponentData, ComponentView, comp_views, lookup_component, find_component, net_views};
use crate::semantic_outline::{NetData, NetDataView, NetScope, pair_text, only_colon_at, opt_text, ComponentType};
use crate::text::{chars_of, find_char, str_eq, string_from_chars};

verus! {

/// Text order as a relation for sorting.
pub open spec fn text_order() -> spec_fn(Seq<char>, Seq<char>) -> bool {
    |a: Seq<char>, b: Seq<char>| seq_lt(a, b)
}

pub open spec fn string_views(v: Seq<String>) -> Seq<Seq<char>> {
    v.map_values(|s: String| s@)
}

/// Strings sorted in text order, equal strings keeping their order.
pub fn sort_strings(v: Vec<String>) -> (r: Vec<String>)
    ensures
        string_views(r@) == sort_by(string_views(v@), text_order()),
{
    let ghost sv = string_views(v@);
    let mut rest = v;
    let mut out: Vec<String> = Vec::new();
    let ghost mut k: int = 0;
    assert(sv.take(0) == Seq::<Seq<char>>::empty());
    while rest.len() > 0
        invariant
            0 <= k <= sv.len(),
            rest@.len() + k == sv.len(),
            string_views(rest@) == sv.skip(k),
            string_views(out@) == sort_by(sv.take(k), text_order()),
        decreases rest@.len(),
    {
        let ghost old_rest = rest@;
        let x = rest.remove(0);
        proof {
            assert(string_views(old_rest)[0] == old_rest[0]@);
            assert(sv.skip(k)[0] == sv[k]);
            assert(string_views(rest@) =~= sv.skip(k + 1)) by {
                assert forall|j: int| 0 <= j < rest@.len() implies string_views(rest@)[j]
                    == sv.skip(k + 1)[j] by {
                    assert(rest@[j] == old_rest[j + 1]);
                    assert(string_views(old_rest)[j + 1] == sv.skip(k)[j + 1]);
                }
            }
            assert(sv.take(k + 1).drop_last() == sv.take(k));
        }
        let mut p: usize = 0;
        let mut found = false;
        while !found && p < out.len()
            invariant
                p <= out@.len(),
                found ==> p < out@.len() && (text_order())(x@, string_views(out@)[p as int]),
                forall|j: int|
                    0 <= j < p ==> !(text_order())(x@, #[trigger] string_views(out@)[j]),
            decreases out@.len() - p, (if found {
                0int
            } else {
                1int
            }),
        {
            assert(string_views(out@)[p as int] == out@[p as int]@);
            if str_lt(x.as_str(), out[p].as_str()) {
                found = true;
            } else {
                p = p + 1;
            }
        }
        proof {
            lemma_insert_at(string_views(out@), x@, text_order(), p as int);
            assert(string_views(out@.insert(p as int, x)) == string_views(out@).insert(
                p as int,
                x@,
            ));
            k = k + 1;
        }
        out.insert(p, x);
    }
    assert(sv.take(sv.len() as int) == sv);
    out
}

/// Consecutive equal texts kept once.
pub open spec fn dedup_adjacent(s: Seq<Seq<char>>) -> Seq<Seq<char>>
    decreases s.len(),
{
    if s.len() == 0 {
        Seq::empty()
    } else {
        let r = dedup_adjacent(s.drop_last());
        if r.len() > 0 && r.last() == s.last() {
            r
        } else {
            r.push(s.last())
        }
    }
}

pub fn dedup_strings(v: Vec<String>) -> (r: Vec<String>)
    ensures
        string_views(r@) == dedup_adjacent(string_views(v@)),
{
    let ghost sv = string_views(v@);
    let mut out: Vec<String> = Vec::new();
    let mut k: usize = 0;
    assert(sv.take(0) == Seq::<Seq<char>>::empty());
    while k < v.len()
        invariant
            k <= v@.len(),
            sv == string_views(v@),
            string_views(out@) == dedup_adjacent(sv.take(k as int)),
        decreases v@.len() - k,
    {
        assert(sv.take(k + 1).drop_last() == sv.take(k as int));
        assert(sv[k as int] == v@[k as int]@);
        let n = out.len();
        let same = n > 0 && str_eq(out[n - 1].as_str(), v[k].as_str());
        if n > 0 {
            assert(string_views(out@).last() == out@[n - 1]@);
        }
        if !same {
            let s = v[k].clone();
            proof {
                assert(string_views(out@.push(s)) == string_views(out@).push(s@));
            }
            out.push(s);
        }
        k = k + 1;
    }
    assert(sv.take(v@.len() as int) == sv);
    out
}

/// The name shown for a library pin: its name, unless that is empty or `~`, where the
/// number stands instead.
pub open spec fn pin_label(number: Seq<char>, name: Seq<char>) -> Seq<char> {
    if name != "~"@ && name.len() > 0 {
        name
    } else {
        number
    }
}

pub open spec fn pair_views(v: Seq<(String, String)>) -> Seq<(Seq<char>, Seq<char>)> {
    v.map_values(|p: (String, String)| pair_text(p))
}

/// The labels of library pins given as `(number, name)`, in order.
pub open spec fn pin_labels(pins: Seq<(Seq<char>, Seq<char>)>) -> Seq<Seq<char>> {
    pins.map_values(|p: (Seq<char>, Seq<char>)| pin_label(p.0, p.1))
}

/// Pin number to label, one pair per library pin, in order.
pub open spec fn number_labels(pins: Seq<(Seq<char>, Seq<char>)>) -> Seq<(Seq<char>, Seq<char>)> {
    pins.map_values(|p: (Seq<char>, Seq<char>)| (p.0, pin_label(p.0, p.1)))
}

/// A component's pin names and its number-to-name pairs, from the `(number, name)` pins of
/// its library symbol: the labels sorted without repeats. Without a library symbol, the
/// instance's pin numbers stand for both.
pub fn component_pins(lib_pins: Option<&Vec<(String, String)>>, instance_pins: &Vec<String>) -> (r: (
    Vec<String>,
    Vec<(String, String)>,
))
    ensures
        match lib_pins {
            Some(lp) => string_views(r.0@) == dedup_adjacent(
                sort_by(pin_labels(pair_views(lp@)), text_order()),
            ) && pair_views(r.1@) == number_labels(pair_views(lp@)),
            None => string_views(r.0@) == string_views(instance_pins@) && pair_views(r.1@)
                == string_views(instance_pins@).map_values(|n: Seq<char>| (n, n)),
        },
{
    match lib_pins {
        Some(lp) => {
            let ghost pv = pair_views(lp@);
            let mut labels: Vec<String> = Vec::new();
            let mut pairs: Vec<(String, String)> = Vec::new();
            let mut k: usize = 0;
            while k < lp.len()
                invariant
                    k <= lp@.len(),
                    pv == pair_views(lp@),
                    string_views(labels@) == pin_labels(pv).take(k as int),
                    pair_views(pairs@) == number_labels(pv).take(k as int),
                decreases lp@.len() - k,
            {
                assert(pv[k as int] == pair_text(lp@[k as int]));
                let number = &lp[k].0;
                let name = &lp[k].1;
                let label = if !str_eq(name.as_str(), "~") && !name.as_str().is_empty() {
                    name.clone()
                } else {
                    number.clone()
                };
                let pair = (number.clone(), label.clone());
                proof {
                    assert(string_views(labels@.push(label)) == string_views(labels@).push(label@));
                    assert(pair_views(pairs@.push(pair)) == pair_views(pairs@).push(pair_text(pair)));
                    assert(pin_labels(pv).take(k + 1) == pin_labels(pv).take(k as int).push(
                        pin_labels(pv)[k as int],
                    ));
                    assert(number_labels(pv).take(k + 1) == number_labels(pv).take(k as int).push(
                        number_labels(pv)[k as int],
                    ));
                }
                labels.push(label);
                pairs.push(pair);
                k = k + 1;
            }
            assert(pin_labels(pv).take(lp@.len() as int) == pin_labels(pv));
            assert(number_labels(pv).take(lp@.len() as int) == number_labels(pv));
            let sorted = sort_strings(labels);
            (dedup_strings(sorted), pairs)
        },
        None => {
            let ghost iv = string_views(instance_pins@);
            let mut names: Vec<String> = Vec::new();
            let mut pairs: Vec<(String, String)> = Vec::new();
            let mut k: usize = 0;
            while k < instance_pins.len()
                invariant
                    k <= instance_pins@.len(),
                    iv == string_views(instance_pins@),
                    string_views(names@) == iv.take(k as int),
                    pair_views(pairs@) == iv.map_values(|n: Seq<char>| (n, n)).take(k as int),
                decreases instance_pins@.len() - k,
            {
                assert(iv[k as int] == instance_pins@[k as int]@);
                let n = instance_pins[k].clone();
                let pair = (instance_pins[k].clone(), instance_pins[k].clone());
                proof {
                    assert(string_views(names@.push(n)) == string_views(names@).push(n@));
                    assert(pair_views(pairs@.push(pair)) == pair_views(pairs@).push(pair_text(pair)));
                    assert(iv.take(k + 1) == iv.take(k as int).push(iv[k as int]));
                    assert(iv.map_values(|n: Seq<char>| (n, n)).take(k + 1) == iv.map_values(
                        |n: Seq<char>| (n, n),
                    ).take(k as int).push((iv[k as int], iv[k as int])));
                }
                names.push(n);
                pairs.push(pair);
                k = k + 1;
            }
            assert(iv.take(instance_pins@.len() as int) == iv);
            assert(iv.map_values(|n: Seq<char>| (n, n)).take(instance_pins@.len() as int)
                == iv.map_values(|n: Seq<char>| (n, n)));
            (names, pairs)
        },
    }
}


/// The second text of the last pair whose first text is `key`.
pub open spec fn lookup_pair(pairs: Seq<(Seq<char>, Seq<char>)>, key: Seq<char>) -> Option<Seq<char>>
    decreases pairs.len(),
{
    if pairs.len() == 0 {
        None
    } else if pairs.last().0 == key {
        Some(pairs.last().1)
    } else {
        lookup_pair(pairs.drop_last(), key)
    }
}

/// The name a pin number has on a component, or the number when none is known.
pub open spec fn pin_display_name(
    comps: Seq<ComponentView>,
    reference: Seq<char>,
    pin_num: Seq<char>,
) -> Seq<char> {
    match lookup_component(comps, reference) {
        Some(c) => match lookup_pair(c.pin_num_to_name, pin_num) {
            Some(n) => n,
            None => pin_num,
        },
        None => pin_num,
    }
}

/// The `(reference, pin name)` of a `REF:PIN` connection with exactly one colon.
pub open spec fn connection_pin(comps: Seq<ComponentView>, conn: Seq<char>) -> Option<
    (Seq<char>, Seq<char>),
> {
    if exists|i: int| only_colon_at(conn, i) {
        let i = choose|i: int| only_colon_at(conn, i);
        let r = conn.subrange(0, i);
        Some((r, pin_display_name(comps, r, conn.subrange(i + 1, conn.len() as int))))
    } else {
        None
    }
}

/// The pins of a net's connections, those not of the `REF:PIN` shape left out.
pub open spec fn connection_pins(comps: Seq<ComponentView>, conns: Seq<Seq<char>>) -> Seq<
    (Seq<char>, Seq<char>),
>
    decreases conns.len(),
{
    if conns.len() == 0 {
        Seq::empty()
    } else {
        let rest = connection_pins(comps, conns.drop_last());
        match connection_pin(comps, conns.last()) {
            Some(p) => rest.push(p),
            None => rest,
        }
    }
}

pub open spec fn scope_of(s: NetLabelScope) -> NetScope {
    match s {
        NetLabelScope::Global => NetScope::Global,
        NetLabelScope::Hierarchical => NetScope::Hierarchical,
        NetLabelScope::Local => NetScope::Local,
    }
}

/// The net, as merging sees it, of an outline net.
pub open spec fn net_data_of(comps: Seq<ComponentView>, net: NetInfo) -> NetDataView {
    NetDataView {
        name: Some(net.name@),
        scope: scope_of(net.scope),
        pins: connection_pins(comps, string_views(net.connections@)),
    }
}

fn lookup_pair_exec<'a>(pairs: &'a Vec<(String, String)>, key: &str) -> (r: Option<&'a String>)
    ensures
        match lookup_pair(pair_views(pairs@), key@) {
            Some(n) => r matches Some(x) && x@ == n,
            None => r is None,
        },
{
    let ghost pv = pair_views(pairs@);
    let mut k = pairs.len();
    assert(pv.take(k as int) == pv);
    while k > 0
        invariant
            k <= pairs@.len(),
            pv == pair_views(pairs@),
            lookup_pair(pv, key@) == lookup_pair(pv.take(k as int), key@),
        decreases k,
    {
        assert(pv.take(k as int).last() == pair_text(pairs@[k - 1]));
        assert(pv.take(k as int).drop_last() == pv.take(k - 1));
        if str_eq(pairs[k - 1].0.as_str(), key) {
            return Some(&pairs[k - 1].1);
        }
        k = k - 1;
    }
    None
}

fn pin_display_name_exec(comps: &Vec<ComponentData>, reference: &str, pin_num: &str) -> (r: String)
    ensures
        r@ == pin_display_name(comp_views(comps@), reference@, pin_num@),
{
    match find_component(comps, reference) {
        Some(c) => match lookup_pair_exec(&c.pin_num_to_name, pin_num) {
            Some(n) => n.clone(),
            None => String::from_str(pin_num),
        },
        None => String::from_str(pin_num),
    }
}

fn connection_pin_exec(comps: &Vec<ComponentData>, conn: &str) -> (r: Option<(String, String)>)
    ensures
        match connection_pin(comp_views(comps@), conn@) {
            Some(p) => r matches Some(x) && pair_text(x) == p,
            None => r is None,
        },
{
    let v = chars_of(conn);
    match find_char(&v, 0, v.len(), ':') {
        Some(c) => {
            match find_char(&v, c + 1, v.len(), ':') {
                None => {
                    assert(only_colon_at(conn@, c as int));
                    assert forall|k: int| only_colon_at(conn@, k) implies k == c by {
                        if k != c {
                            assert(conn@[c as int] == ':');
                        }
                    }
                    let reference = string_from_chars(&v, 0, c);
                    let pin_num = string_from_chars(&v, c + 1, v.len());
                    let name = pin_display_name_exec(comps, reference.as_str(), pin_num.as_str());
                    Some((reference, name))
                },
                Some(d) => {
                    assert forall|k: int| !only_colon_at(conn@, k) by {
                        if 0 <= k < v@.len() && k != c {
                            assert(conn@[c as int] == ':');
                        }
                        if k == c {
                            assert(conn@[d as int] == ':');
                        }
                    }
                    None
                },
            }
        },
        None => {
            assert forall|k: int| !only_colon_at(conn@, k) by {}
            None
        },
    }
}

/// The nets of an outline as merging sees them: each connection `REF:PIN` with exactly
/// one colon becomes the reference and the pin's name.
pub fn net_data_from_outline(nets: &Vec<NetInfo>, comps: &Vec<ComponentData>) -> (r: Vec<NetData>)
    ensures
        net_views(r@) == nets@.map_values(|n: NetInfo| net_data_of(comp_views(comps@), n)),
{
    let ghost cs = comp_views(comps@);
    let ghost target = nets@.map_values(|n: NetInfo| net_data_of(cs, n));
    let mut out: Vec<NetData> = Vec::new();
    let mut k: usize = 0;
    assert(net_views(out@) == target.take(0));
    while k < nets.len()
        invariant
            k <= nets@.len(),
            cs == comp_views(comps@),
            target == nets@.map_values(|n: NetInfo| net_data_of(cs, n)),
            net_views(out@) == target.take(k as int),
        decreases nets@.len() - k,
    {
        let net = &nets[k];
        let ghost conns = string_views(net.connections@);
        let mut pins: Vec<(String, String)> = Vec::new();
        let mut i: usize = 0;
        assert(conns.take(0) == Seq::<Seq<char>>::empty());
        while i < net.connections.len()
            invariant
                i <= net.connections@.len(),
                cs == comp_views(comps@),
                conns == string_views(net.connections@),
                pair_views(pins@) == connection_pins(cs, conns.take(i as int)),
            decreases net.connections@.len() - i,
        {
            assert(conns.take(i + 1).drop_last() == conns.take(i as int));
            assert(conns[i as int] == net.connections@[i as int]@);
            match connection_pin_exec(comps, net.connections[i].as_str()) {
                Some(p) => {
                    proof {
                        assert(pair_views(pins@.push(p)) == pair_views(pins@).push(pair_text(p)));
                    }
                    pins.push(p);
                },
                None => {},
            }
            i = i + 1;
        }
        assert(conns.take(net.connections@.len() as int) == conns);
        let scope = match net.scope {
            NetLabelScope::Global => NetScope::Global,
            NetLabelScope::Hierarchical => NetScope::Hierarchical,
            NetLabelScope::Local => NetScope::Local,
        };
        let nd = NetData { name: Some(net.name.clone()), scope, pins };
        proof {
            assert(nd@.pins == pair_views(pins@));
            assert(nd@ == net_data_of(cs, *net));
            assert(net_views(out@.push(nd)) == net_views(out@).push(nd@));
            assert(target.take(k + 1) == target.take(k as int).push(target[k as int]));
        }
        out.push(nd);
        k = k + 1;
    }
    assert(target.take(nets@.len() as int) == target);
    out
}


/// Whether `char::is_alphabetic` holds of a non-ASCII character (Unicode's Alphabetic
/// property).
pub uninterp spec fn alphabetic(c: char) -> bool;

/// Whether `char::is_alphabetic` holds of a character: on ASCII exactly the letters,
/// beyond ASCII as named by `alphabetic`.
pub open spec fn is_alphabetic_char(c: char) -> bool {
    if (c as u32) < 128 {
        ('a' <= c && c <= 'z') || ('A' <= c && c <= 'Z')
    } else {
        alphabetic(c)
    }
}

/// Wrapper around `char::is_alphabetic`. On ASCII characters Unicode's Alphabetic
/// property holds exactly of the letters; beyond ASCII the result is named by
/// `alphabetic`.
#[verifier::external_body]
fn is_alphabetic(c: char) -> (r: bool)
    ensures
        (c as u32) < 128 ==> (r <==> (('a' <= c && c <= 'z') || ('A' <= c && c <= 'Z'))),
        (c as u32) >= 128 ==> r == alphabetic(c),
{
    c.is_alphabetic()
}

/// How many leading characters of `s` are alphabetic.
pub open spec fn alpha_prefix_len(s: Seq<char>) -> nat
    decreases s.len(),
{
    if s.len() > 0 && is_alphabetic_char(s[0]) {
        1 + alpha_prefix_len(s.drop_first())
    } else {
        0
    }
}

pub open spec fn all_digits(d: Seq<char>) -> bool {
    forall|k: int| 0 <= k < d.len() ==> crate::sexpr::is_digit(#[trigger] d[k])
}

/// What `str::parse::<i32>` gives: an optional `+` or `-` sign followed by at least one
/// digit and nothing else, whose value fits.
pub open spec fn parse_i32_spec(s: Seq<char>) -> Option<i32> {
    let signed = s.len() > 0 && (s[0] == '-' || s[0] == '+');
    let digits = if signed {
        s.drop_first()
    } else {
        s
    };
    let neg = signed && s[0] == '-';
    if digits.len() == 0 || !all_digits(digits) {
        None
    } else {
        let v = if neg {
            -crate::sexpr::digits_value(digits)
        } else {
            crate::sexpr::digits_value(digits)
        };
        if i32::MIN <= v <= i32::MAX {
            Some(v as i32)
        } else {
            None
        }
    }
}

/// What components are ordered by: the letters their reference starts with, then
/// the number that follows (0 when the rest is not a number).
pub open spec fn reference_key(r: Seq<char>) -> (Seq<char>, int) {
    let n = alpha_prefix_len(r);
    (
        r.take(n as int),
        match parse_i32_spec(r.skip(n as int)) {
            Some(v) => v as int,
            None => 0,
        },
    )
}

pub open spec fn key_lt(a: (Seq<char>, int), b: (Seq<char>, int)) -> bool {
    seq_lt(a.0, b.0) || (a.0 == b.0 && a.1 < b.1)
}

/// The value of `str::parse::<i32>` on `s`, written out.
pub fn parse_i32(s: &Vec<char>, lo: usize) -> (r: Option<i32>)
    requires
        lo <= s@.len(),
    ensures
        r == parse_i32_spec(s@.skip(lo as int)),
{
    let ghost t = s@.skip(lo as int);
    let n = s.len();
    let signed = lo < n && (s[lo] == '-' || s[lo] == '+');
    let neg = signed && s[lo] == '-';
    let start = if signed {
        lo + 1
    } else {
        lo
    };
    let ghost digits = if signed {
        t.drop_first()
    } else {
        t
    };
    assert(t.len() == n - lo);
    if lo < n {
        assert(t[0] == s@[lo as int]);
    }
    assert(signed == (t.len() > 0 && (t[0] == '-' || t[0] == '+')));
    assert(digits == s@.subrange(start as int, n as int));
    if start == n {
        return None;
    }
    // magnitude limit: 2^31 for negatives, 2^31 - 1 otherwise
    let limit: u64 = if neg {
        0x8000_0000
    } else {
        0x7fff_ffff
    };
    let mut v: u64 = 0;
    let mut over = false;
    let mut i = start;
    while i < n
        invariant
            start <= i <= n == s@.len(),
            digits == s@.subrange(start as int, n as int),
            t == s@.skip(lo as int),
            signed == (t.len() > 0 && (t[0] == '-' || t[0] == '+')),
            digits == (if signed {
                t.drop_first()
            } else {
                t
            }),
            neg == (signed && t[0] == '-'),
            limit == (if neg {
                0x8000_0000u64
            } else {
                0x7fff_ffffu64
            }),
            forall|k: int| start <= k < i ==> crate::sexpr::is_digit(#[trigger] s@[k]),
            !over ==> v == crate::sexpr::digits_value(s@.subrange(start as int, i as int)),
            !over ==> v <= limit,
            over ==> crate::sexpr::digits_value(s@.subrange(start as int, i as int)) > limit,
        decreases n - i,
    {
        let c = s[i];
        if !('0' <= c && c <= '9') {
            assert(digits[i - start] == c);
            assert(!crate::sexpr::is_digit(digits[i - start]));
            assert(digits.len() > 0);
            return None;
        }
        proof {
            let sub = s@.subrange(start as int, i + 1);
            assert(sub.drop_last() == s@.subrange(start as int, i as int));
            assert(sub.last() == c);
            let prev = s@.subrange(start as int, i as int);
            assert forall|k: int| 0 <= k < prev.len() implies crate::sexpr::is_digit(#[trigger] prev[k]) by {
                assert(prev[k] == s@[start + k]);
            }
            crate::sexpr::lemma_digits_value_bounds(prev);
        }
        if !over {
            let d = (c as u32 - '0' as u32) as u64;
            let nv = v * 10 + d;
            if nv > limit {
                over = true;
            } else {
                v = nv;
            }
        }
        i = i + 1;
    }
    assert forall|k: int| 0 <= k < digits.len() implies crate::sexpr::is_digit(#[trigger] digits[k]) by {
        assert(digits[k] == s@[start + k]);
    }
    if over {
        return None;
    }
    if neg {
        Some((0 - (v as i64)) as i32)
    } else {
        Some(v as i32)
    }
}

/// The ordering key of a reference.
pub fn reference_key_exec(r: &str) -> (k: (String, i32))
    ensures
        k.0@ == reference_key(r@).0,
        k.1 as int == reference_key(r@).1,
{
    let v = chars_of(r);
    let mut n: usize = 0;
    assert(v@.skip(0) == v@);
    while n < v.len() && is_alphabetic(v[n])
        invariant
            n <= v@.len(),
            v@ == r@,
            alpha_prefix_len(r@) == n + alpha_prefix_len(r@.skip(n as int)),
        decreases v@.len() - n,
    {
        assert(r@.skip(n as int).drop_first() == r@.skip(n + 1));
        n = n + 1;
    }
    let prefix = string_from_chars(&v, 0, n);
    assert(r@.take(n as int) == v@.subrange(0, n as int));
    let num = match parse_i32(&v, n) {
        Some(x) => x,
        None => 0,
    };
    (prefix, num)
}


/// A component in the semantic outline
#[derive(Debug)]
pub struct SemanticComponent {
    /// Reference designator (e.g., "U1")
    pub reference: String,
    /// Library ID (e.g., "Device:R")
    pub lib_id: String,
    /// Component value (e.g., "10k")
    pub value: String,
    /// Pin names/numbers
    pub pins: Vec<String>,
    /// Description/label if present
    pub description: Option<String>,
    /// Component type classification
    pub component_type: ComponentType,
}

/// The texts of a component in the outline.
pub struct SemanticComponentView {
    pub reference: Seq<char>,
    pub lib_id: Seq<char>,
    pub value: Seq<char>,
    pub pins: Seq<Seq<char>>,
    pub description: Option<Seq<char>>,
    pub component_type: ComponentType,
}

pub open spec fn semantic_view(c: SemanticComponent) -> SemanticComponentView {
    SemanticComponentView {
        reference: c.reference@,
        lib_id: c.lib_id@,
        value: c.value@,
        pins: string_views(c.pins@),
        description: opt_text(c.description),
        component_type: c.component_type,
    }
}

pub open spec fn semantic_views(cs: Seq<SemanticComponent>) -> Seq<SemanticComponentView> {
    cs.map_values(|c: SemanticComponent| semantic_view(c))
}

/// A component of the outline as the data it was read from.
pub open spec fn summary(c: ComponentData) -> SemanticComponentView {
    SemanticComponentView {
        reference: c.reference@,
        lib_id: c.lib_id@,
        value: c.value@,
        pins: string_views(c.pins@),
        description: opt_text(c.description),
        component_type: c.component_type,
    }
}

/// Components ordered by their reference keys.
pub open spec fn component_order() -> spec_fn(SemanticComponentView, SemanticComponentView) -> bool {
    |a: SemanticComponentView, b: SemanticComponentView|
        key_lt(reference_key(a.reference), reference_key(b.reference))
}

/// No later component has the same reference as component `k`.
pub open spec fn is_last_of_reference(all: Seq<ComponentData>, k: int) -> bool {
    forall|j: int| k < j < all.len() ==> all[j].reference@ != all[k].reference@
}

/// The first `n` components that stay in the outline: the last of each reference,
/// when not folded into a net.
pub open spec fn kept_components(all: Seq<ComponentData>, n: int, absorbed: Seq<Seq<char>>) -> Seq<
    SemanticComponentView,
>
    decreases n,
{
    if n <= 0 {
        Seq::empty()
    } else {
        let rest = kept_components(all, n - 1, absorbed);
        let c = all[n - 1];
        if is_last_of_reference(all, n - 1) && !absorbed.contains(c.reference@) {
            rest.push(summary(c))
        } else {
            rest
        }
    }
}

impl SemanticComponent {
    /// A copy of this component.
    pub fn duplicate(&self) -> (r: Self)
        ensures
            semantic_view(r) == semantic_view(*self),
    {
        let mut pins: Vec<String> = Vec::new();
        let mut k: usize = 0;
        while k < self.pins.len()
            invariant
                k <= self.pins@.len(),
                string_views(pins@) == string_views(self.pins@).take(k as int),
            decreases self.pins@.len() - k,
        {
            let p = self.pins[k].clone();
            proof {
                assert(string_views(pins@.push(p)) == string_views(pins@).push(p@));
                assert(string_views(self.pins@).take(k + 1) == string_views(self.pins@).take(
                    k as int,
                ).push(self.pins@[k as int]@));
            }
            pins.push(p);
            k = k + 1;
        }
        assert(string_views(self.pins@).take(self.pins@.len() as int) == string_views(self.pins@));
        SemanticComponent {
            reference: self.reference.clone(),
            lib_id: self.lib_id.clone(),
            value: self.value.clone(),
            pins,
            description: match &self.description {
                Some(d) => Some(d.clone()),
                None => None,
            },
            component_type: self.component_type,
        }
    }
}

fn key_lt_exec(a: &(String, i32), b: &(String, i32)) -> (r: bool)
    ensures
        r == key_lt((a.0@, a.1 as int), (b.0@, b.1 as int)),
{
    str_lt(a.0.as_str(), b.0.as_str()) || (str_eq(a.0.as_str(), b.0.as_str()) && a.1 < b.1)
}

/// Components sorted by their reference keys, equal keys keeping their order.
pub fn sort_components(v: Vec<SemanticComponent>) -> (r: Vec<SemanticComponent>)
    ensures
        semantic_views(r@) == sort_by(semantic_views(v@), component_order()),
{
    let ghost sv = semantic_views(v@);
    let mut rest = v;
    let mut out: Vec<SemanticComponent> = Vec::new();
    let ghost mut k: int = 0;
    assert(sv.take(0) == Seq::<SemanticComponentView>::empty());
    while rest.len() > 0
        invariant
            0 <= k <= sv.len(),
            rest@.len() + k == sv.len(),
            semantic_views(rest@) == sv.skip(k),
            semantic_views(out@) == sort_by(sv.take(k), component_order()),
        decreases rest@.len(),
    {
        let ghost old_rest = rest@;
        let x = rest.remove(0);
        proof {
            assert(semantic_views(old_rest)[0] == semantic_view(old_rest[0]));
            assert(sv.skip(k)[0] == sv[k]);
            assert(semantic_views(rest@) =~= sv.skip(k + 1)) by {
                assert forall|j: int| 0 <= j < rest@.len() implies semantic_views(rest@)[j]
                    == sv.skip(k + 1)[j] by {
                    assert(rest@[j] == old_rest[j + 1]);
                    assert(semantic_views(old_rest)[j + 1] == sv.skip(k)[j + 1]);
                }
            }
            assert(sv.take(k + 1).drop_last() == sv.take(k));
        }
        let kx = reference_key_exec(x.reference.as_str());
        let mut p: usize = 0;
        let mut found = false;
        while !found && p < out.len()
            invariant
                p <= out@.len(),
                kx.0@ == reference_key(x.reference@).0,
                kx.1 as int == reference_key(x.reference@).1,
                found ==> p < out@.len() && (component_order())(
                    semantic_view(x),
                    semantic_views(out@)[p as int],
                ),
                forall|j: int|
                    0 <= j < p ==> !(component_order())(
                        semantic_view(x),
                        #[trigger] semantic_views(out@)[j],
                    ),
            decreases out@.len() - p, (if found {
                0int
            } else {
                1int
            }),
        {
            let ko = reference_key_exec(out[p].reference.as_str());
            assert(semantic_views(out@)[p as int] == semantic_view(out@[p as int]));
            if key_lt_exec(&kx, &ko) {
                found = true;
            } else {
                p = p + 1;
            }
        }
        proof {
            lemma_insert_at(semantic_views(out@), semantic_view(x), component_order(), p as int);
            assert(semantic_views(out@.insert(p as int, x)) == semantic_views(out@).insert(
                p as int,
                semantic_view(x),
            ));
            k = k + 1;
        }
        out.insert(p, x);
    }
    assert(sv.take(sv.len() as int) == sv);
    out
}

fn contains_string(v: &Vec<String>, s: &str) -> (b: bool)
    ensures
        b == string_views(v@).contains(s@),
{
    let mut k: usize = 0;
    while k < v.len()
        invariant
            k <= v@.len(),
            forall|j: int| 0 <= j < k ==> v@[j]@ != s@,
        decreases v@.len() - k,
    {
        if str_eq(v[k].as_str(), s) {
            assert(string_views(v@)[k as int] == s@);
            return true;
        }
        k = k + 1;
    }
    assert forall|j: int| 0 <= j < string_views(v@).len() implies string_views(v@)[j] != s@ by {
        assert(string_views(v@)[j] == v@[j]@);
    }
    false
}

/// The components of the outline: the last of each reference, without those folded into
/// nets, sorted by reference key.
pub fn final_components(comps: &Vec<ComponentData>, absorbed: &Vec<String>) -> (r: Vec<
    SemanticComponent,
>)
    ensures
        semantic_views(r@) == sort_by(
            kept_components(comps@, comps@.len() as int, string_views(absorbed@)),
            component_order(),
        ),
{
    let ghost ab = string_views(absorbed@);
    let mut kept: Vec<SemanticComponent> = Vec::new();
    let mut k: usize = 0;
    while k < comps.len()
        invariant
            k <= comps@.len(),
            ab == string_views(absorbed@),
            semantic_views(kept@) == kept_components(comps@, k as int, ab),
        decreases comps@.len() - k,
    {
        let c = &comps[k];
        let mut later = false;
        let mut j = k + 1;
        while j < comps.len()
            invariant
                k < j <= comps@.len(),
                c == comps@[k as int],
                later == exists|q: int| k < q < j && comps@[q].reference@ == c.reference@,
            decreases comps@.len() - j,
        {
            if str_eq(comps[j].reference.as_str(), c.reference.as_str()) {
                later = true;
            }
            j = j + 1;
        }
        if !later && !contains_string(absorbed, c.reference.as_str()) {
            let sc = SemanticComponent {
                reference: c.reference.clone(),
                lib_id: c.lib_id.clone(),
                value: c.value.clone(),
                pins: {
                    let mut pins: Vec<String> = Vec::new();
                    let mut t: usize = 0;
                    while t < c.pins.len()
                        invariant
                            t <= c.pins@.len(),
                            string_views(pins@) == string_views(c.pins@).take(t as int),
                        decreases c.pins@.len() - t,
                    {
                        let p = c.pins[t].clone();
                        proof {
                            assert(string_views(pins@.push(p)) == string_views(pins@).push(p@));
                            assert(string_views(c.pins@).take(t + 1) == string_views(
                                c.pins@,
                            ).take(t as int).push(c.pins@[t as int]@));
                        }
                        pins.push(p);
                        t = t + 1;
                    }
                    assert(string_views(c.pins@).take(c.pins@.len() as int) == string_views(
                        c.pins@,
                    ));
                    pins
                },
                description: match &c.description {
                    Some(d) => Some(d.clone()),
                    None => None,
                },
                component_type: c.component_type,
            };
            proof {
                assert(semantic_view(sc) == summary(*c));
                assert(semantic_views(kept@.push(sc)) == semantic_views(kept@).push(
                    semantic_view(sc),
                ));
            }
            kept.push(sc);
        }
        k = k + 1;
    }
    sort_components(kept)
}

} // verus!
