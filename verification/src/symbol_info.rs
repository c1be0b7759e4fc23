//! A summary of a library symbol for tools: its fields, its unit count, and its pins
//! listed once each, numbered pins first in number order.
use vstd::prelude::*;
use crate::component_update::{first_named, props_view};
use crate::ordering::{seq_lt, sort_by, lemma_insert_at, str_lt};
use crate::pin::PinElectricalType;
use crate::semantic_components::{parse_i32, parse_i32_spec};
use crate::text::{chars_of, has_prefix, str_eq};

verus! {

/// A pin of a library symbol as the summary reads it.
#[derive(Debug, Clone)]
pub struct PinSummary {
    pub number: String,
    pub name: String,
    pub electrical_type: PinElectricalType,
    pub hidden: bool,
}

/// A library symbol as the summary reads it: its name, properties, units (name and
/// pins), and whether it goes in the bill of materials and on the board.
#[derive(Debug, Clone)]
pub struct SymbolSummary {
    pub name: String,
    pub properties: Vec<(String, String)>,
    pub units: Vec<(String, Vec<PinSummary>)>,
    pub in_bom: bool,
    pub on_board: bool,
}

/// A pin in the summary.
#[derive(Debug, Clone)]
pub struct PinInfoOutput {
    /// Pin number (what you use in connections, e.g., "1", "2", "VCC")
    pub number: String,
    /// Pin name (descriptive, e.g., "~", "VCC", "GND")
    pub name: String,
    /// Electrical type (input, output, passive, power_in, etc.)
    pub electrical_type: String,
    /// Whether the pin is hidden
    pub hidden: bool,
}

/// The summary of a library symbol.
#[derive(Debug, Clone)]
pub struct SymbolInfoOutput {
    pub lib_id: String,
    pub name: String,
    pub library: String,
    pub description: Option<String>,
    pub datasheet: Option<String>,
    pub footprint: Option<String>,
    pub keywords: Option<String>,
    pub reference_prefix: Option<String>,
    pub default_value: Option<String>,
    pub unit_count: usize,
    pub pins: Vec<PinInfoOutput>,
    pub in_bom: bool,
    pub on_board: bool,
}

/// A pin's texts: number, name, electrical type keyword, and whether it is hidden.
pub open spec fn pin_view(p: PinSummary) -> (Seq<char>, Seq<char>, Seq<char>, bool) {
    (p.number@, p.name@, p.electrical_type.keyword(), p.hidden)
}

pub open spec fn info_view(p: PinInfoOutput) -> (Seq<char>, Seq<char>, Seq<char>, bool) {
    (p.number@, p.name@, p.electrical_type@, p.hidden)
}

pub open spec fn info_views(v: Seq<PinInfoOutput>) -> Seq<(Seq<char>, Seq<char>, Seq<char>, bool)> {
    v.map_values(|p: PinInfoOutput| info_view(p))
}

/// The pins of the units from `k` on... all pins of the first `k` units, in order.
pub open spec fn unit_pins(units: Seq<(String, Vec<PinSummary>)>, k: int) -> Seq<(Seq<char>, Seq<char>, Seq<char>, bool)>
    decreases k,
{
    if k <= 0 || k > units.len() {
        Seq::empty()
    } else {
        unit_pins(units, k - 1) + units[k - 1].1@.map_values(|p: PinSummary| pin_view(p))
    }
}

/// Whether a pin number occurs among the pins.
pub open spec fn has_number(ps: Seq<(Seq<char>, Seq<char>, Seq<char>, bool)>, n: Seq<char>) -> bool {
    exists|j: int| 0 <= j < ps.len() && (#[trigger] ps[j]).0 == n
}

/// Each pin number's first pin, in order.
pub open spec fn first_by_number(ps: Seq<(Seq<char>, Seq<char>, Seq<char>, bool)>) -> Seq<
    (Seq<char>, Seq<char>, Seq<char>, bool),
>
    decreases ps.len(),
{
    if ps.len() == 0 {
        Seq::empty()
    } else {
        let r = first_by_number(ps.drop_last());
        if has_number(ps.drop_last(), ps.last().0) {
            r
        } else {
            r.push(ps.last())
        }
    }
}

/// Pins in listing order: numbered pins first, by number; then the others by their
/// number's text.
pub open spec fn pin_order() -> spec_fn(
    (Seq<char>, Seq<char>, Seq<char>, bool),
    (Seq<char>, Seq<char>, Seq<char>, bool),
) -> bool {
    |a: (Seq<char>, Seq<char>, Seq<char>, bool), b: (Seq<char>, Seq<char>, Seq<char>, bool)|
        match (parse_i32_spec(a.0), parse_i32_spec(b.0)) {
            (Some(x), Some(y)) => x < y,
            (Some(_), None) => true,
            (None, Some(_)) => false,
            (None, None) => seq_lt(a.0, b.0),
        }
}

/// The value of the first property named `name`.
pub open spec fn first_prop(ps: Seq<(Seq<char>, Seq<char>)>, name: Seq<char>) -> Option<Seq<char>> {
    match first_named(ps, name, 0) {
        Some(k) => Some(ps[k].1),
        None => None,
    }
}

pub open spec fn opt_view(o: Option<String>) -> Option<Seq<char>> {
    match o {
        Some(s) => Some(s@),
        None => None,
    }
}

/// A datasheet that is given: not empty, not `~`, not a `${...}` variable.
pub open spec fn real_datasheet(v: Option<Seq<char>>) -> Option<Seq<char>> {
    match v {
        Some(t) => if t.len() > 0 && t != "~"@ && !"${"@.is_prefix_of(t) {
            Some(t)
        } else {
            None
        },
        None => None,
    }
}

/// A footprint that is given: not empty and not `~`.
pub open spec fn real_footprint(v: Option<Seq<char>>) -> Option<Seq<char>> {
    match v {
        Some(t) => if t.len() > 0 && t != "~"@ {
            Some(t)
        } else {
            None
        },
        None => None,
    }
}

/// How many units have a name ending in `_1` (one style of each unit), at least one.
pub open spec fn units_ending_1(units: Seq<(String, Vec<PinSummary>)>, k: int) -> nat
    decreases k,
{
    if k <= 0 || k > units.len() {
        0
    } else {
        units_ending_1(units, k - 1) + if "_1"@.is_suffix_of(units[k - 1].0@) {
            1nat
        } else {
            0nat
        }
    }
}

fn first_prop_exec(ps: &Vec<(String, String)>, name: &str) -> (r: Option<String>)
    ensures
        opt_view(r) == first_prop(props_view(ps@), name@),
{
    let ghost pv = props_view(ps@);
    let mut k: usize = 0;
    while k < ps.len()
        invariant
            k <= ps@.len(),
            pv == props_view(ps@),
            first_named(pv, name@, 0) == first_named(pv, name@, k as int),
        decreases ps@.len() - k,
    {
        assert(pv[k as int] == (ps@[k as int].0@, ps@[k as int].1@));
        if str_eq(ps[k].0.as_str(), name) {
            return Some(ps[k].1.clone());
        }
        k = k + 1;
    }
    None
}

fn is_suffix_1(s: &String) -> (r: bool)
    ensures
        r == "_1"@.is_suffix_of(s@),
{
    let v = chars_of(s.as_str());
    let n = v.len();
    proof {
        reveal_strlit("_1");
    }
    if n < 2 {
        return false;
    }
    let a = v[n - 2];
    let b = v[n - 1];
    let r = a == '_' && b == '1';
    proof {
        let tail = s@.subrange(n - 2, n as int);
        assert("_1"@.len() == 2);
        assert(tail.len() == 2);
        assert(tail[0] == a && tail[1] == b);
        if r {
            assert(tail =~= "_1"@);
        } else {
            assert(!(tail =~= "_1"@)) by {
                if tail =~= "_1"@ {
                    assert(tail[0] == "_1"@[0]);
                    assert(tail[1] == "_1"@[1]);
                }
            }
        }
    }
    r
}

fn pin_lt_exec(a: &PinInfoOutput, b: &PinInfoOutput) -> (r: bool)
    ensures
        r == (pin_order())(info_view(*a), info_view(*b)),
{
    let va = chars_of(a.number.as_str());
    let vb = chars_of(b.number.as_str());
    assert(va@.skip(0) == va@ && vb@.skip(0) == vb@);
    let na = parse_i32(&va, 0);
    let nb = parse_i32(&vb, 0);
    match (na, nb) {
        (Some(x), Some(y)) => x < y,
        (Some(_), None) => true,
        (None, Some(_)) => false,
        (None, None) => str_lt(a.number.as_str(), b.number.as_str()),
    }
}

/// Pins in listing order, equal ones keeping their order.
fn sort_pins(v: Vec<PinInfoOutput>) -> (r: Vec<PinInfoOutput>)
    ensures
        info_views(r@) == sort_by(info_views(v@), pin_order()),
{
    let ghost sv = info_views(v@);
    let mut rest = v;
    let mut out: Vec<PinInfoOutput> = Vec::new();
    let ghost mut k: int = 0;
    assert(sv.take(0) == Seq::<(Seq<char>, Seq<char>, Seq<char>, bool)>::empty());
    while rest.len() > 0
        invariant
            0 <= k <= sv.len(),
            rest@.len() + k == sv.len(),
            info_views(rest@) == sv.skip(k),
            info_views(out@) == sort_by(sv.take(k), pin_order()),
        decreases rest@.len(),
    {
        let ghost old_rest = rest@;
        let x = rest.remove(0);
        proof {
            assert(info_views(old_rest)[0] == info_view(old_rest[0]));
            assert(sv.skip(k)[0] == sv[k]);
            assert(info_views(rest@) =~= sv.skip(k + 1)) by {
                assert forall|j: int| 0 <= j < rest@.len() implies info_views(rest@)[j] == sv.skip(k + 1)[j] by {
                    assert(rest@[j] == old_rest[j + 1]);
                    assert(info_views(old_rest)[j + 1] == sv.skip(k)[j + 1]);
                }
            }
            assert(sv.take(k + 1).drop_last() == sv.take(k));
        }
        let mut p: usize = 0;
        let mut found = false;
        while !found && p < out.len()
            invariant
                p <= out@.len(),
                found ==> p < out@.len() && (pin_order())(info_view(x), info_views(out@)[p as int]),
                forall|j: int| 0 <= j < p ==> !(pin_order())(info_view(x), #[trigger] info_views(out@)[j]),
            decreases out@.len() - p, (if found {
                0int
            } else {
                1int
            }),
        {
            assert(info_views(out@)[p as int] == info_view(out@[p as int]));
            if pin_lt_exec(&x, &out[p]) {
                found = true;
            } else {
                p = p + 1;
            }
        }
        proof {
            lemma_insert_at(info_views(out@), info_view(x), pin_order(), p as int);
            assert(info_views(out@.insert(p as int, x)) == info_views(out@).insert(p as int, info_view(x)));
            k = k + 1;
        }
        out.insert(p, x);
    }
    assert(sv.take(sv.len() as int) == sv);
    out
}

fn has_number_exec(v: &Vec<PinInfoOutput>, n: &String) -> (r: bool)
    ensures
        r == has_number(info_views(v@), n@),
{
    let ghost iv = info_views(v@);
    let mut k: usize = 0;
    while k < v.len()
        invariant
            k <= v@.len(),
            iv == info_views(v@),
            forall|j: int| 0 <= j < k ==> (#[trigger] iv[j]).0 != n@,
        decreases v@.len() - k,
    {
        assert(iv[k as int] == info_view(v@[k as int]));
        if str_eq(v[k].number.as_str(), n.as_str()) {
            return true;
        }
        k = k + 1;
    }
    false
}

/// A number is among pins exactly when it is among their first pins by number.
proof fn lemma_first_by_number_numbers(ps: Seq<(Seq<char>, Seq<char>, Seq<char>, bool)>, n: Seq<char>)
    ensures
        has_number(first_by_number(ps), n) == has_number(ps, n),
    decreases ps.len(),
{
    if ps.len() > 0 {
        let pre = ps.drop_last();
        lemma_first_by_number_numbers(pre, n);
        let r = first_by_number(pre);
        if has_number(ps, n) {
            let j = choose|j: int| 0 <= j < ps.len() && (#[trigger] ps[j]).0 == n;
            if j < ps.len() - 1 {
                assert(pre[j] == ps[j]);
                assert(has_number(pre, n));
                let t = choose|t: int| 0 <= t < r.len() && (#[trigger] r[t]).0 == n;
                if !has_number(pre, ps.last().0) {
                    assert(r.push(ps.last())[t] == r[t]);
                }
            } else {
                if has_number(pre, ps.last().0) {
                    assert(has_number(r, n));
                } else {
                    assert(r.push(ps.last())[r.len() as int] == ps.last());
                }
            }
        }
        if has_number(first_by_number(ps), n) {
            let fb = first_by_number(ps);
            let t = choose|t: int| 0 <= t < fb.len() && (#[trigger] fb[t]).0 == n;
            if has_number(pre, ps.last().0) {
                assert(has_number(r, n));
                let u = choose|u: int| 0 <= u < pre.len() && (#[trigger] pre[u]).0 == n;
                assert(ps[u] == pre[u]);
            } else if t < r.len() {
                assert(fb[t] == r[t]);
                assert(has_number(r, n));
                let u = choose|u: int| 0 <= u < pre.len() && (#[trigger] pre[u]).0 == n;
                assert(ps[u] == pre[u]);
            } else {
                assert(ps[ps.len() - 1].0 == n);
            }
        }
    }
}

/// The summary of symbol `symbol` of library `library`: its `library:symbol` id, name,
/// description, datasheet (unless empty, `~` or a `${...}` variable), footprint (unless
/// empty or `~`), keywords, reference prefix and default value (each the first property
/// of its name), its number of units (those named `..._1`, at least one), its pins
/// (each number's first pin, numbered pins first in number order, then the others by
/// text), and whether it goes in the bill of materials and on the board.
#[verifier::rlimit(40)]
pub fn symbol_info(library: &str, symbol: &str, sym: &SymbolSummary) -> (r: SymbolInfoOutput)
    ensures
        r.lib_id@ == library@ + ":"@ + symbol@,
        r.name@ == sym.name@,
        r.library@ == library@,
        opt_view(r.description) == first_prop(props_view(sym.properties@), "Description"@),
        opt_view(r.datasheet) == real_datasheet(first_prop(props_view(sym.properties@), "Datasheet"@)),
        opt_view(r.footprint) == real_footprint(first_prop(props_view(sym.properties@), "Footprint"@)),
        opt_view(r.keywords) == first_prop(props_view(sym.properties@), "ki_keywords"@),
        opt_view(r.reference_prefix) == first_prop(props_view(sym.properties@), "Reference"@),
        opt_view(r.default_value) == first_prop(props_view(sym.properties@), "Value"@),
        r.unit_count == if units_ending_1(sym.units@, sym.units@.len() as int) > 0 {
            units_ending_1(sym.units@, sym.units@.len() as int)
        } else {
            1
        },
        info_views(r.pins@) == sort_by(
            first_by_number(unit_pins(sym.units@, sym.units@.len() as int)),
            pin_order(),
        ),
        r.in_bom == sym.in_bom,
        r.on_board == sym.on_board,
{
    let units = &sym.units;
    let mut out: Vec<PinInfoOutput> = Vec::new();
    let mut count: usize = 0;
    let mut ui: usize = 0;
    while ui < units.len()
        invariant
            ui <= units@.len(),
            units == &sym.units,
            count == units_ending_1(units@, ui as int),
            count <= ui,
            info_views(out@) == first_by_number(unit_pins(units@, ui as int)),
        decreases units@.len() - ui,
    {
        let pins = &units[ui].1;
        let ghost base = unit_pins(units@, ui as int);
        let ghost pv = pins@.map_values(|p: PinSummary| pin_view(p));
        let mut j: usize = 0;
        assert(base + pv.take(0) == base);
        while j < pins.len()
            invariant
                j <= pins@.len(),
                pins == &units@[ui as int].1,
                pv == pins@.map_values(|p: PinSummary| pin_view(p)),
                info_views(out@) == first_by_number(base + pv.take(j as int)),
            decreases pins@.len() - j,
        {
            let p = &pins[j];
            let ghost all = base + pv.take(j as int);
            assert((base + pv.take(j + 1)).drop_last() == all);
            assert((base + pv.take(j + 1)).last() == pin_view(*p));
            proof {
                lemma_first_by_number_numbers(all, p.number@);
            }
            if !has_number_exec(&out, &p.number) {
                let info = PinInfoOutput {
                    number: p.number.clone(),
                    name: p.name.clone(),
                    electrical_type: String::from_str(p.electrical_type.as_str()),
                    hidden: p.hidden,
                };
                assert(info_view(info) == pin_view(*p));
                assert(info_views(out@.push(info)) == info_views(out@).push(info_view(info)));
                out.push(info);
            }
            j = j + 1;
        }
        assert(pv.take(pins@.len() as int) == pv);
        assert(unit_pins(units@, ui + 1) == base + pv);
        if is_suffix_1(&units[ui].0) {
            count = count + 1;
        }
        ui = ui + 1;
    }
    let pins = sort_pins(out);
    let unit_count = if count > 0 {
        count
    } else {
        1
    };
    let datasheet = match first_prop_exec(&sym.properties, "Datasheet") {
        Some(d) => {
            let v = chars_of(d.as_str());
            let tilde = str_eq(d.as_str(), "~");
            let var = has_prefix(&v, &chars_of("${"));
            if v.len() > 0 && !tilde && !var {
                Some(d)
            } else {
                None
            }
        },
        None => None,
    };
    let footprint = match first_prop_exec(&sym.properties, "Footprint") {
        Some(f) => {
            if !f.as_str().is_empty() && !str_eq(f.as_str(), "~") {
                Some(f)
            } else {
                None
            }
        },
        None => None,
    };
    let mut lib_id = String::from_str(library);
    lib_id.append(":");
    lib_id.append(symbol);
    SymbolInfoOutput {
        lib_id,
        name: sym.name.clone(),
        library: String::from_str(library),
        description: first_prop_exec(&sym.properties, "Description"),
        datasheet,
        footprint,
        keywords: first_prop_exec(&sym.properties, "ki_keywords"),
        reference_prefix: first_prop_exec(&sym.properties, "Reference"),
        default_value: first_prop_exec(&sym.properties, "Value"),
        unit_count,
        pins,
        in_bom: sym.in_bom,
        on_board: sym.on_board,
    }
}

} // verus!
