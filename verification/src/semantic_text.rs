//! The semantic outline as a whole, and its text.
use vstd::prelude::*;
use crate::ordering::{sort_by, seq_lt, lemma_insert_at, str_lt, sorted_by, strict_order, lemma_sort_by, lemma_text_order_strict};
use crate::outline::NetInfo;
use crate::semantic_components::{
    SemanticComponent, SemanticComponentView, component_order, dedup_adjacent, final_components,
    kept_components, net_data_from_outline, net_data_of, semantic_view, semantic_views,
    key_lt, reference_key, sort_components, sort_strings, dedup_strings, string_views, text_order,
};
use crate::semantic_merge::{
    ComponentData, ProcessedNet, comp_views, endpoint_texts, final_candidates, join_with,
    net_order, processed_nets, processed_views, semantic_connections, CandidateView,
    net_sort_key,
};
use crate::text::{chars_of, find_char, push_char, str_eq, string_from_chars};

verus! {

/// A sheet (sub-schematic) in the semantic outline
#[derive(Debug)]
pub struct SemanticSheet {
    /// Sheet name (e.g., "Power", "RP2040")
    pub name: String,
    /// Sheet file path (e.g., "power.kicad_sch")
    pub file: String,
    /// Pin names on this sheet
    pub pins: Vec<String>,
}

/// The complete semantic outline of a schematic
#[derive(Debug)]
pub struct SemanticOutline {
    /// Components (excluding absorbed passives)
    pub components: Vec<SemanticComponent>,
    /// Sheets (sub-schematics) referenced by this schematic
    pub sheets: Vec<SemanticSheet>,
    /// Connections with semantic annotations
    pub connections: Vec<ProcessedNet>,
    /// References of components that were absorbed into semantic patterns
    pub absorbed_components: Vec<String>,
}

/// Position of the first colon.
pub open spec fn colon_index(s: Seq<char>) -> Option<int>
    decreases s.len(),
{
    if s.len() == 0 {
        None
    } else if s[0] == ':' {
        Some(0)
    } else {
        match colon_index(s.drop_first()) {
            Some(i) => Some(i + 1),
            None => None,
        }
    }
}

proof fn lemma_colon_index(s: Seq<char>, i: Option<int>)
    requires
        match i {
            Some(k) => 0 <= k < s.len() && s[k] == ':' && forall|j: int| 0 <= j < k ==> s[j] != ':',
            None => forall|j: int| 0 <= j < s.len() ==> s[j] != ':',
        },
    ensures
        colon_index(s) == i,
    decreases s.len(),
{
    if s.len() > 0 && s[0] != ':' {
        let r = s.drop_first();
        let ri = match i {
            Some(k) => Some(k - 1),
            None => None,
        };
        assert forall|j: int| 0 <= j < r.len() && (ri is None || j < ri->0) implies r[j] != ':' by {
            assert(r[j] == s[j + 1]);
        }
        if let Some(k) = i {
            assert(r[k - 1] == s[k]);
        }
        lemma_colon_index(r, ri);
    }
}

/// The symbol name of a library id: the part after its first colon, up to the next one.
pub open spec fn symbol_name(lib: Seq<char>) -> Seq<char> {
    match colon_index(lib) {
        None => Seq::empty(),
        Some(i) => {
            let rest = lib.skip(i + 1);
            match colon_index(rest) {
                Some(j) => rest.take(j),
                None => rest,
            }
        },
    }
}

fn symbol_name_exec(lib: &str) -> (r: String)
    ensures
        r@ == symbol_name(lib@),
{
    let v = chars_of(lib);
    match find_char(&v, 0, v.len(), ':') {
        None => {
            proof {
                lemma_colon_index(lib@, None);
            }
            String::new()
        },
        Some(i) => {
            proof {
                lemma_colon_index(lib@, Some(i as int));
            }
            let ghost rest = lib@.skip(i + 1);
            match find_char(&v, i + 1, v.len(), ':') {
                Some(j) => {
                    proof {
                        assert forall|t: int| 0 <= t < j - i - 1 implies rest[t] != ':' by {
                            assert(rest[t] == lib@[t + i + 1]);
                        }
                        assert(rest[j - i - 1] == lib@[j as int]);
                        lemma_colon_index(rest, Some(j - i - 1));
                        assert(rest.take(j - i - 1) == v@.subrange(i + 1, j as int));
                    }
                    string_from_chars(&v, i + 1, j)
                },
                None => {
                    proof {
                        assert forall|t: int| 0 <= t < rest.len() implies rest[t] != ':' by {
                            assert(rest[t] == lib@[t + i + 1]);
                        }
                        lemma_colon_index(rest, None);
                        assert(rest == v@.subrange(i + 1, v@.len() as int));
                    }
                    string_from_chars(&v, i + 1, v.len())
                },
            }
        },
    }
}

/// How an instance is listed: `REF=VALUE`, or the reference alone when the value is
/// empty, repeats the reference, or is the symbol's name.
pub open spec fn instance_text(reference: Seq<char>, value: Seq<char>, sym: Seq<char>) -> Seq<char> {
    if value.len() == 0 || value == reference || value == sym {
        reference
    } else {
        reference + seq!['='] + value
    }
}

/// The components of a library id, in order.
pub open spec fn group_of(cs: Seq<SemanticComponentView>, lib: Seq<char>) -> Seq<
    SemanticComponentView,
>
    decreases cs.len(),
{
    if cs.len() == 0 {
        Seq::empty()
    } else {
        let rest = group_of(cs.drop_last(), lib);
        if cs.last().lib_id == lib {
            rest.push(cs.last())
        } else {
            rest
        }
    }
}

/// The lines listing the components of one library id: the id, the instances sorted by
/// reference, and the first component's pins and label when it has them.
pub open spec fn group_lines(cs: Seq<SemanticComponentView>, lib: Seq<char>) -> Seq<Seq<char>> {
    let g = group_of(cs, lib);
    if g.len() == 0 {
        Seq::empty()
    } else {
        let sym = symbol_name(lib);
        let inst = sort_by(g, component_order());
        let texts = inst.map_values(
            |c: SemanticComponentView| instance_text(c.reference, c.value, sym),
        );
        let first = g[0];
        seq!["  "@ + lib, "    Instances: "@ + join_with(texts, " "@)] + (if first.pins.len() > 0 {
            seq!["    Pins: "@ + join_with(first.pins, " "@)]
        } else {
            Seq::empty()
        }) + (match first.description {
            Some(d) => seq!["    Label: "@ + d],
            None => Seq::empty(),
        })
    }
}

/// Line groups one after the other.
pub open spec fn flatten_lines(gs: Seq<Seq<Seq<char>>>) -> Seq<Seq<char>>
    decreases gs.len(),
{
    if gs.len() == 0 {
        Seq::empty()
    } else {
        flatten_lines(gs.drop_last()) + gs.last()
    }
}

/// The library ids of the components, sorted, each once.
pub open spec fn sorted_lib_ids(cs: Seq<SemanticComponentView>) -> Seq<Seq<char>> {
    dedup_adjacent(sort_by(cs.map_values(|c: SemanticComponentView| c.lib_id), text_order()))
}

pub open spec fn component_section(cs: Seq<SemanticComponentView>) -> Seq<Seq<char>> {
    seq!["Components:"@] + flatten_lines(
        sorted_lib_ids(cs).map_values(|lib: Seq<char>| group_lines(cs, lib)),
    )
}

pub open spec fn sheet_lines(s: SemanticSheet) -> Seq<Seq<char>> {
    seq!["  "@ + s.name@, "    File: "@ + s.file@] + (if s.pins@.len() > 0 {
        seq!["    Pins: "@ + join_with(string_views(s.pins@), " "@)]
    } else {
        Seq::empty()
    })
}

pub open spec fn sheet_section(sheets: Seq<SemanticSheet>) -> Seq<Seq<char>> {
    if sheets.len() == 0 {
        Seq::empty()
    } else {
        seq![Seq::empty(), "Sheets:"@] + flatten_lines(
            sheets.map_values(|s: SemanticSheet| sheet_lines(s)),
        )
    }
}

pub open spec fn connection_section(nets: Seq<ProcessedNet>) -> Seq<Seq<char>> {
    seq![Seq::empty(), "Connections:"@, Seq::empty()] + nets.map_values(
        |p: ProcessedNet| join_with(endpoint_texts(p), ", "@),
    )
}

/// The text of an outline: its lines joined by line breaks.
pub open spec fn outline_text(o: SemanticOutline) -> Seq<char> {
    join_with(
        component_section(semantic_views(o.components@)) + sheet_section(o.sheets@)
            + connection_section(o.connections@),
        "\n"@,
    )
}


/// Strings joined with `sep` between them.
pub fn join_strings(v: &Vec<String>, sep: &str) -> (r: String)
    ensures
        r@ == join_with(string_views(v@), sep@),
{
    let ghost ts = string_views(v@);
    let mut r = String::new();
    let mut k: usize = 0;
    assert(ts.take(0) == Seq::<Seq<char>>::empty());
    while k < v.len()
        invariant
            k <= v@.len(),
            ts == string_views(v@),
            r@ == join_with(ts.take(k as int), sep@),
        decreases v@.len() - k,
    {
        assert(ts.take(k + 1).drop_last() == ts.take(k as int));
        assert(ts[k as int] == v@[k as int]@);
        if k > 0 {
            r.append(sep);
        } else {
            assert(ts.take(1) == seq![ts[0]]);
            assert(Seq::<char>::empty() + ts[0] == ts[0]);
        }
        r.append(v[k].as_str());
        k = k + 1;
    }
    assert(ts.take(v@.len() as int) == ts);
    r
}

fn push_line(lines: &mut Vec<String>, s: String)
    ensures
        string_views(final(lines)@) == string_views(old(lines)@).push(s@),
{
    proof {
        assert(string_views(old(lines)@.push(s)) == string_views(old(lines)@).push(s@));
    }
    lines.push(s);
}

fn push_lines(lines: &mut Vec<String>, more: Vec<String>)
    ensures
        string_views(final(lines)@) == string_views(old(lines)@) + string_views(more@),
{
    let ghost start = string_views(old(lines)@);
    let ghost mv = string_views(more@);
    let mut k: usize = 0;
    assert(mv.take(0) == Seq::<Seq<char>>::empty());
    while k < more.len()
        invariant
            k <= more@.len(),
            mv == string_views(more@),
            string_views(lines@) == start + mv.take(k as int),
        decreases more@.len() - k,
    {
        let s = more[k].clone();
        push_line(lines, s);
        assert(mv.take(k + 1) == mv.take(k as int).push(mv[k as int]));
        k = k + 1;
    }
    assert(mv.take(more@.len() as int) == mv);
}

fn prefixed(prefix: &str, s: &str) -> (r: String)
    ensures
        r@ == prefix@ + s@,
{
    let mut r = String::from_str(prefix);
    r.append(s);
    r
}

fn instance_text_exec(reference: &str, value: &str, sym: &str) -> (r: String)
    ensures
        r@ == instance_text(reference@, value@, sym@),
{
    if value.is_empty() || str_eq(value, reference) || str_eq(value, sym) {
        String::from_str(reference)
    } else {
        let mut r = String::from_str(reference);
        push_char(&mut r, '=');
        r.append(value);
        r
    }
}

pub(crate) fn copy_strings(v: &Vec<String>) -> (r: Vec<String>)
    ensures
        string_views(r@) == string_views(v@),
{
    let mut out: Vec<String> = Vec::new();
    let mut k: usize = 0;
    while k < v.len()
        invariant
            k <= v@.len(),
            string_views(out@) == string_views(v@).take(k as int),
        decreases v@.len() - k,
    {
        let s = v[k].clone();
        proof {
            assert(string_views(out@.push(s)) == string_views(out@).push(s@));
            assert(string_views(v@).take(k + 1) == string_views(v@).take(k as int).push(
                v@[k as int]@,
            ));
        }
        out.push(s);
        k = k + 1;
    }
    assert(string_views(v@).take(v@.len() as int) == string_views(v@));
    out
}

/// The lines of one library id's group.
fn group_lines_exec(comps: &Vec<SemanticComponent>, lib: &str) -> (r: Vec<String>)
    ensures
        string_views(r@) == group_lines(semantic_views(comps@), lib@),
{
    let ghost cs = semantic_views(comps@);
    let mut g: Vec<SemanticComponent> = Vec::new();
    let mut k: usize = 0;
    assert(cs.take(0) == Seq::<SemanticComponentView>::empty());
    while k < comps.len()
        invariant
            k <= comps@.len(),
            cs == semantic_views(comps@),
            semantic_views(g@) == group_of(cs.take(k as int), lib@),
        decreases comps@.len() - k,
    {
        assert(cs.take(k + 1).drop_last() == cs.take(k as int));
        assert(cs[k as int] == semantic_view(comps@[k as int]));
        if str_eq(comps[k].lib_id.as_str(), lib) {
            let c = comps[k].duplicate();
            proof {
                assert(semantic_views(g@.push(c)) == semantic_views(g@).push(semantic_view(c)));
            }
            g.push(c);
        }
        k = k + 1;
    }
    assert(cs.take(comps@.len() as int) == cs);
    let ghost gv = semantic_views(g@);
    let mut lines: Vec<String> = Vec::new();
    if g.len() == 0 {
        return lines;
    }
    assert(gv[0] == semantic_view(g@[0]));
    let first_pins = copy_strings(&g[0].pins);
    let first_desc: Option<String> = match &g[0].description {
        Some(d) => Some(d.clone()),
        None => None,
    };
    let sym = symbol_name_exec(lib);
    let inst = sort_components(g);
    let ghost iv = semantic_views(inst@);
    let mut texts: Vec<String> = Vec::new();
    let mut t: usize = 0;
    while t < inst.len()
        invariant
            t <= inst@.len(),
            iv == semantic_views(inst@),
            sym@ == symbol_name(lib@),
            string_views(texts@) == iv.map_values(
                |c: SemanticComponentView| instance_text(c.reference, c.value, symbol_name(lib@)),
            ).take(t as int),
        decreases inst@.len() - t,
    {
        assert(iv[t as int] == semantic_view(inst@[t as int]));
        let x = instance_text_exec(inst[t].reference.as_str(), inst[t].value.as_str(), sym.as_str());
        proof {
            assert(string_views(texts@.push(x)) == string_views(texts@).push(x@));
            let m = iv.map_values(
                |c: SemanticComponentView| instance_text(c.reference, c.value, symbol_name(lib@)),
            );
            assert(m.take(t + 1) == m.take(t as int).push(m[t as int]));
        }
        texts.push(x);
        t = t + 1;
    }
    proof {
        let m = iv.map_values(
            |c: SemanticComponentView| instance_text(c.reference, c.value, symbol_name(lib@)),
        );
        assert(m.take(inst@.len() as int) == m);
    }
    push_line(&mut lines, prefixed("  ", lib));
    let joined = join_strings(&texts, " ");
    push_line(&mut lines, prefixed("    Instances: ", joined.as_str()));
    if first_pins.len() > 0 {
        let pj = join_strings(&first_pins, " ");
        push_line(&mut lines, prefixed("    Pins: ", pj.as_str()));
    }
    match first_desc {
        Some(d) => {
            push_line(&mut lines, prefixed("    Label: ", d.as_str()));
        },
        None => {},
    }
    lines
}

impl SemanticOutline {
    /// Render the outline as text
    pub fn to_text(&self) -> (r: String)
        ensures
            r@ == outline_text(*self),
    {
        let ghost cs = semantic_views(self.components@);
        let mut lines: Vec<String> = Vec::new();
        push_line(&mut lines, String::from_str("Components:"));
        // the library ids, sorted, each once
        let mut ids: Vec<String> = Vec::new();
        let mut k: usize = 0;
        while k < self.components.len()
            invariant
                k <= self.components@.len(),
                cs == semantic_views(self.components@),
                string_views(ids@) == cs.map_values(|c: SemanticComponentView| c.lib_id).take(
                    k as int,
                ),
            decreases self.components@.len() - k,
        {
            let id = self.components[k].lib_id.clone();
            proof {
                assert(cs[k as int] == semantic_view(self.components@[k as int]));
                assert(string_views(ids@.push(id)) == string_views(ids@).push(id@));
                let m = cs.map_values(|c: SemanticComponentView| c.lib_id);
                assert(m.take(k + 1) == m.take(k as int).push(m[k as int]));
            }
            ids.push(id);
            k = k + 1;
        }
        assert(cs.map_values(|c: SemanticComponentView| c.lib_id).take(
            self.components@.len() as int,
        ) == cs.map_values(|c: SemanticComponentView| c.lib_id));
        let ids = dedup_strings(sort_strings(ids));
        let ghost idv = string_views(ids@);
        assert(idv == sorted_lib_ids(cs));
        let ghost head = seq!["Components:"@];
        let mut j: usize = 0;
        assert(idv.take(0).map_values(|lib: Seq<char>| group_lines(cs, lib)) == Seq::<
            Seq<Seq<char>>,
        >::empty());
        assert(head + flatten_lines(Seq::<Seq<Seq<char>>>::empty()) == head);
        while j < ids.len()
            invariant
                j <= ids@.len(),
                cs == semantic_views(self.components@),
                idv == string_views(ids@),
                string_views(lines@) == head + flatten_lines(
                    idv.take(j as int).map_values(|lib: Seq<char>| group_lines(cs, lib)),
                ),
            decreases ids@.len() - j,
        {
            assert(idv[j as int] == ids@[j as int]@);
            let gl = group_lines_exec(&self.components, ids[j].as_str());
            push_lines(&mut lines, gl);
            proof {
                let f = idv.take(j + 1).map_values(|lib: Seq<char>| group_lines(cs, lib));
                assert(f.drop_last() == idv.take(j as int).map_values(
                    |lib: Seq<char>| group_lines(cs, lib),
                ));
                assert(f.last() == group_lines(cs, idv[j as int]));
            }
            j = j + 1;
        }
        assert(idv.take(ids@.len() as int) == idv);
        assert(string_views(lines@) == component_section(cs));
        let ghost before_sheets = string_views(lines@);
        if self.sheets.len() > 0 {
            push_line(&mut lines, String::new());
            push_line(&mut lines, String::from_str("Sheets:"));
            let ghost mid = string_views(lines@);
            let ghost shs = self.sheets@;
            let mut t: usize = 0;
            assert(shs.take(0).map_values(|s: SemanticSheet| sheet_lines(s)) == Seq::<
                Seq<Seq<char>>,
            >::empty());
            assert(mid + flatten_lines(Seq::<Seq<Seq<char>>>::empty()) == mid);
            while t < self.sheets.len()
                invariant
                    t <= self.sheets@.len(),
                    shs == self.sheets@,
                    string_views(lines@) == mid + flatten_lines(
                        shs.take(t as int).map_values(|s: SemanticSheet| sheet_lines(s)),
                    ),
                decreases self.sheets@.len() - t,
            {
                let sh = &self.sheets[t];
                let mut sl: Vec<String> = Vec::new();
                push_line(&mut sl, prefixed("  ", sh.name.as_str()));
                push_line(&mut sl, prefixed("    File: ", sh.file.as_str()));
                if sh.pins.len() > 0 {
                    let pj = join_strings(&sh.pins, " ");
                    push_line(&mut sl, prefixed("    Pins: ", pj.as_str()));
                }
                assert(string_views(sl@) == sheet_lines(*sh));
                push_lines(&mut lines, sl);
                proof {
                    let f = shs.take(t + 1).map_values(|s: SemanticSheet| sheet_lines(s));
                    assert(f.drop_last() == shs.take(t as int).map_values(
                        |s: SemanticSheet| sheet_lines(s),
                    ));
                    assert(f.last() == sheet_lines(shs[t as int]));
                }
                t = t + 1;
            }
            assert(shs.take(self.sheets@.len() as int) == shs);
        }
        assert(string_views(lines@) == component_section(cs) + sheet_section(self.sheets@));
        let ghost before_nets = string_views(lines@);
        push_line(&mut lines, String::new());
        push_line(&mut lines, String::from_str("Connections:"));
        push_line(&mut lines, String::new());
        let ghost nets = self.connections@;
        let ghost texts = nets.map_values(|p: ProcessedNet| join_with(endpoint_texts(p), ", "@));
        let mut n: usize = 0;
        assert(string_views(lines@) == before_nets + seq![
            Seq::<char>::empty(),
            "Connections:"@,
            Seq::<char>::empty(),
        ] + texts.take(0));
        while n < self.connections.len()
            invariant
                n <= self.connections@.len(),
                nets == self.connections@,
                texts == nets.map_values(|p: ProcessedNet| join_with(endpoint_texts(p), ", "@)),
                string_views(lines@) == before_nets + seq![
                    Seq::<char>::empty(),
                    "Connections:"@,
                    Seq::<char>::empty(),
                ] + texts.take(n as int),
            decreases self.connections@.len() - n,
        {
            let line = self.connections[n].to_string();
            push_line(&mut lines, line);
            assert(texts.take(n + 1) == texts.take(n as int).push(texts[n as int]));
            n = n + 1;
        }
        assert(texts.take(self.connections@.len() as int) == texts);
        assert(string_views(lines@) =~= component_section(cs) + sheet_section(self.sheets@)
            + connection_section(self.connections@));
        join_strings(&lines, "\n")
    }
}


pub open spec fn sheet_view(s: SemanticSheet) -> (Seq<char>, Seq<char>, Seq<Seq<char>>) {
    (s.name@, s.file@, string_views(s.pins@))
}

pub open spec fn sheet_views(v: Seq<SemanticSheet>) -> Seq<(Seq<char>, Seq<char>, Seq<Seq<char>>)> {
    v.map_values(|s: SemanticSheet| sheet_view(s))
}

/// Sheets ordered by name.
pub open spec fn sheet_order() -> spec_fn(
    (Seq<char>, Seq<char>, Seq<Seq<char>>),
    (Seq<char>, Seq<char>, Seq<Seq<char>>),
) -> bool {
    |a: (Seq<char>, Seq<char>, Seq<Seq<char>>), b: (Seq<char>, Seq<char>, Seq<Seq<char>>)|
        seq_lt(a.0, b.0)
}

/// Sheets sorted by name, equal names keeping their order.
pub fn sort_sheets(v: Vec<SemanticSheet>) -> (r: Vec<SemanticSheet>)
    ensures
        sheet_views(r@) == sort_by(sheet_views(v@), sheet_order()),
{
    let ghost sv = sheet_views(v@);
    let mut rest = v;
    let mut out: Vec<SemanticSheet> = Vec::new();
    let ghost mut k: int = 0;
    assert(sv.take(0) == Seq::<(Seq<char>, Seq<char>, Seq<Seq<char>>)>::empty());
    while rest.len() > 0
        invariant
            0 <= k <= sv.len(),
            rest@.len() + k == sv.len(),
            sheet_views(rest@) == sv.skip(k),
            sheet_views(out@) == sort_by(sv.take(k), sheet_order()),
        decreases rest@.len(),
    {
        let ghost old_rest = rest@;
        let x = rest.remove(0);
        proof {
            assert(sheet_views(old_rest)[0] == sheet_view(old_rest[0]));
            assert(sv.skip(k)[0] == sv[k]);
            assert(sheet_views(rest@) =~= sv.skip(k + 1)) by {
                assert forall|j: int| 0 <= j < rest@.len() implies sheet_views(rest@)[j]
                    == sv.skip(k + 1)[j] by {
                    assert(rest@[j] == old_rest[j + 1]);
                    assert(sheet_views(old_rest)[j + 1] == sv.skip(k)[j + 1]);
                }
            }
            assert(sv.take(k + 1).drop_last() == sv.take(k));
        }
        let mut p: usize = 0;
        let mut found = false;
        while !found && p < out.len()
            invariant
                p <= out@.len(),
                found ==> p < out@.len() && (sheet_order())(
                    sheet_view(x),
                    sheet_views(out@)[p as int],
                ),
                forall|j: int|
                    0 <= j < p ==> !(sheet_order())(sheet_view(x), #[trigger] sheet_views(out@)[j]),
            decreases out@.len() - p, (if found {
                0int
            } else {
                1int
            }),
        {
            assert(sheet_views(out@)[p as int] == sheet_view(out@[p as int]));
            if str_lt(x.name.as_str(), out[p].name.as_str()) {
                found = true;
            } else {
                p = p + 1;
            }
        }
        proof {
            lemma_insert_at(sheet_views(out@), sheet_view(x), sheet_order(), p as int);
            assert(sheet_views(out@.insert(p as int, x)) == sheet_views(out@).insert(
                p as int,
                sheet_view(x),
            ));
            k = k + 1;
        }
        out.insert(p, x);
    }
    assert(sv.take(sv.len() as int) == sv);
    out
}

/// The nets of an outline as merging sees them.
pub open spec fn outline_nets_view(comps: Seq<ComponentData>, nets: Seq<NetInfo>) -> Seq<
    crate::semantic_outline::NetDataView,
> {
    nets.map_values(|n: NetInfo| net_data_of(comp_views(comps), n))
}

/// Build the semantic outline from the components of a schematic (power symbols left
/// out), the nets of its outline and its sheets: connections with the two-pin passives
/// folded in, sorted by key; the components that were not folded, sorted by reference;
/// the sheets sorted by name.
pub fn build_semantic_outline(
    comps: &Vec<ComponentData>,
    outline_nets: &Vec<NetInfo>,
    sheets: Vec<SemanticSheet>,
) -> (o: SemanticOutline)
    ensures
        ({
            let nets = outline_nets_view(comps@, outline_nets@);
            let cands = final_candidates(comp_views(comps@), nets);
            &&& processed_views(o.connections@) == sort_by(processed_nets(cands, nets), net_order())
            &&& string_views(o.absorbed_components@) == cands.map_values(
                |c: CandidateView| c.reference,
            )
            &&& semantic_views(o.components@) == sort_by(
                kept_components(
                    comps@,
                    comps@.len() as int,
                    cands.map_values(|c: CandidateView| c.reference),
                ),
                component_order(),
            )
            &&& sheet_views(o.sheets@) == sort_by(sheet_views(sheets@), sheet_order())
        }),
{
    let nets = net_data_from_outline(outline_nets, comps);
    let (connections, absorbed) = semantic_connections(comps, &nets);
    assert(string_views(absorbed@) == absorbed@.map_values(|s: String| s@));
    let components = final_components(comps, &absorbed);
    let sheets = sort_sheets(sheets);
    SemanticOutline { components, sheets, connections, absorbed_components: absorbed }
}


/// The semantic outline lists its connections in key order, its components in
/// reference order and its sheets in name order, each exactly as often as found.
pub proof fn lemma_outline_lists_are_ordered(
    nets: Seq<Seq<crate::semantic_merge::ConnectionView>>,
    comps: Seq<SemanticComponentView>,
    sheets: Seq<(Seq<char>, Seq<char>, Seq<Seq<char>>)>,
)
    ensures
        sorted_by(sort_by(nets, net_order()), net_order()),
        sort_by(nets, net_order()).to_multiset() == nets.to_multiset(),
        sorted_by(sort_by(comps, component_order()), component_order()),
        sort_by(comps, component_order()).to_multiset() == comps.to_multiset(),
        sorted_by(sort_by(sheets, sheet_order()), sheet_order()),
        sort_by(sheets, sheet_order()).to_multiset() == sheets.to_multiset(),
{
    lemma_text_order_strict();
    assert(strict_order(net_order())) by {
        assert forall|a: Seq<crate::semantic_merge::ConnectionView>| !#[trigger] (net_order())(a, a) by {
            assert(!seq_lt(net_sort_key(a), net_sort_key(a)));
        }
        assert forall|
            a: Seq<crate::semantic_merge::ConnectionView>,
            b: Seq<crate::semantic_merge::ConnectionView>,
            c: Seq<crate::semantic_merge::ConnectionView>,
        | #[trigger] (net_order())(a, b) && #[trigger] (net_order())(b, c) implies (net_order())(
            a,
            c,
        ) by {
            assert(seq_lt(net_sort_key(a), net_sort_key(b)) && seq_lt(
                net_sort_key(b),
                net_sort_key(c),
            ));
        }
    }
    assert(strict_order(component_order())) by {
        assert forall|a: SemanticComponentView| !#[trigger] (component_order())(a, a) by {
            assert(!seq_lt(reference_key(a.reference).0, reference_key(a.reference).0));
        }
        assert forall|a: SemanticComponentView, b: SemanticComponentView, c: SemanticComponentView|
            #[trigger] (component_order())(a, b) && #[trigger] (component_order())(b, c) implies (
            component_order())(a, c) by {
            let ka = reference_key(a.reference);
            let kb = reference_key(b.reference);
            let kc = reference_key(c.reference);
            assert(key_lt(ka, kb) && key_lt(kb, kc));
            if seq_lt(ka.0, kb.0) && seq_lt(kb.0, kc.0) {
                assert(seq_lt(ka.0, kc.0));
            }
        }
    }
    assert(strict_order(sheet_order())) by {
        assert forall|a: (Seq<char>, Seq<char>, Seq<Seq<char>>)| !#[trigger] (sheet_order())(a, a) by {
            assert(!seq_lt(a.0, a.0));
        }
        assert forall|
            a: (Seq<char>, Seq<char>, Seq<Seq<char>>),
            b: (Seq<char>, Seq<char>, Seq<Seq<char>>),
            c: (Seq<char>, Seq<char>, Seq<Seq<char>>),
        | #[trigger] (sheet_order())(a, b) && #[trigger] (sheet_order())(b, c) implies (sheet_order())(
            a,
            c,
        ) by {
            assert(seq_lt(a.0, b.0) && seq_lt(b.0, c.0));
        }
    }
    lemma_sort_by(nets, net_order());
    lemma_sort_by(comps, component_order());
    lemma_sort_by(sheets, sheet_order());
}

proof fn lemma_kept_not_absorbed(all: Seq<ComponentData>, n: int, absorbed: Seq<Seq<char>>)
    ensures
        forall|k: int|
            0 <= k < kept_components(all, n, absorbed).len() ==> !absorbed.contains(
                #[trigger] kept_components(all, n, absorbed)[k].reference,
            ),
    decreases n,
{
    if n > 0 {
        lemma_kept_not_absorbed(all, n - 1, absorbed);
        let rest = kept_components(all, n - 1, absorbed);
        assert forall|k: int|
            0 <= k < kept_components(all, n, absorbed).len() implies !absorbed.contains(
            #[trigger] kept_components(all, n, absorbed)[k].reference,
        ) by {
            if k < rest.len() {
                assert(kept_components(all, n, absorbed)[k] == rest[k]);
            }
        }
    }
}

/// A component folded into a net is not listed among the outline's components.
pub proof fn lemma_folded_components_not_listed(all: Seq<ComponentData>, absorbed: Seq<Seq<char>>)
    ensures
        ({
            let listed = sort_by(
                kept_components(all, all.len() as int, absorbed),
                component_order(),
            );
            forall|k: int| 0 <= k < listed.len() ==> !absorbed.contains(#[trigger] listed[k].reference)
        }),
{
    broadcast use vstd::seq_lib::group_to_multiset_ensures;

    let kept = kept_components(all, all.len() as int, absorbed);
    let listed = sort_by(kept, component_order());
    lemma_kept_not_absorbed(all, all.len() as int, absorbed);
    lemma_outline_lists_are_ordered(Seq::empty(), kept, Seq::empty());
    assert forall|k: int| 0 <= k < listed.len() implies !absorbed.contains(
        #[trigger] listed[k].reference,
    ) by {
        assert(listed.contains(listed[k]));
        assert(listed.to_multiset().count(listed[k]) > 0);
        assert(kept.to_multiset().count(listed[k]) > 0);
        assert(kept.contains(listed[k]));
        let t = choose|t: int| 0 <= t < kept.len() && kept[t] == listed[k];
        assert(!absorbed.contains(kept[t].reference));
    }
}

} // verus!
