//! Saving an update of one placed component: its placed symbol item in the schematic's
//! tree takes the component's new position, rotation, mirroring and property values,
//! and its instance paths the new reference; everything else stays as it was written.
use vstd::prelude::*;
use crate::component_update::{props_view, ComponentState};
use crate::schematic::Mirror;
use crate::schematic_save::{head_is, mm_of, prop_entry, with_props_value};
use crate::schematic_write::{field_v, num_v, sym_v, whole};
use crate::semantic_components::pair_views;
use crate::sexpr::{sexpr_view, views, Decimal, SExpr, SExprView};
use crate::sheet_points::{grid_value, grid_value_exec, mirror_exec, mirror_of, whole_degrees, whole_degrees_exec};
use crate::sheet_reader::{SchematicData, SymbolData};
use crate::text::str_eq;

verus! {

/// A placed symbol as an update sees it: its properties, its place on the grid, its
/// rotation in whole degrees (0 where it is not whole) and its mirroring. Instance paths
/// are renamed in the tree directly, so none are listed.
pub open spec fn state_from(st: ComponentState, s: SymbolData) -> bool {
    &&& props_view(st.properties@) == pair_views(s.properties@)
    &&& st.x == grid_value(s.x)
    &&& st.y == grid_value(s.y)
    &&& st.angle == match whole_degrees(s.angle) {
        Some(a) => a,
        None => 0,
    }
    &&& st.mirror == mirror_of(s.mirror)
    &&& st.instance_refs@.len() == 0
}

fn copy_props(v: &Vec<(String, String)>) -> (r: Vec<(String, String)>)
    ensures
        props_view(r@) == pair_views(v@),
{
    let mut out: Vec<(String, String)> = Vec::new();
    let mut k: usize = 0;
    while k < v.len()
        invariant
            k <= v@.len(),
            props_view(out@) == pair_views(v@).take(k as int),
        decreases v@.len() - k,
    {
        let p = (v[k].0.clone(), v[k].1.clone());
        let ghost before = out@;
        out.push(p);
        assert(props_view(out@) =~= props_view(before).push(pair_views(v@)[k as int]));
        assert(pair_views(v@).take(k + 1) =~= pair_views(v@).take(k as int).push(pair_views(v@)[k as int]));
        k = k + 1;
    }
    assert(pair_views(v@).take(v@.len() as int) =~= pair_views(v@));
    out
}

/// The placed symbols of a schematic as an update sees them, in order.
pub fn states_from_schematic(d: &SchematicData) -> (r: Vec<ComponentState>)
    ensures
        r@.len() == d.symbols@.len(),
        forall|k: int| 0 <= k < d.symbols@.len() ==> state_from(#[trigger] r@[k], d.symbols@[k]),
{
    let mut out: Vec<ComponentState> = Vec::new();
    let mut k: usize = 0;
    while k < d.symbols.len()
        invariant
            k <= d.symbols@.len(),
            out@.len() == k,
            forall|i: int| 0 <= i < k ==> state_from(#[trigger] out@[i], d.symbols@[i]),
        decreases d.symbols@.len() - k,
    {
        let s = &d.symbols[k];
        let angle = match whole_degrees_exec(s.angle) {
            Some(a) => a,
            None => 0,
        };
        let refs: Vec<String> = Vec::new();
        out.push(
            ComponentState {
                properties: copy_props(&s.properties),
                x: grid_value_exec(s.x),
                y: grid_value_exec(s.y),
                angle,
                mirror: mirror_exec(&s.mirror),
                instance_refs: refs,
            },
        );
        k = k + 1;
    }
    out
}

/// `(at x y angle)` for the state's place and rotation.
pub open spec fn at_of_state(st: ComponentState) -> SExprView {
    SExprView::List(seq![sym_v("at"@), num_v(mm_of(st.x)), num_v(mm_of(st.y)), num_v(whole(st.angle as int))])
}

pub open spec fn mirror_of_state(st: ComponentState) -> Seq<SExprView> {
    match st.mirror {
        Some(m) => seq![field_v("mirror"@, sym_v(m.keyword()))],
        None => Seq::empty(),
    }
}

/// `(reference "old")` renamed to `new`.
pub open spec fn renamed_ref(r: SExprView, from_ref: Seq<char>, to_ref: Seq<char>) -> SExprView {
    if head_is(r, "reference"@) && r->List_0.len() >= 2 && r->List_0[1] == SExprView::Str(from_ref) {
        SExprView::List(r->List_0.update(1, SExprView::Str(to_ref)))
    } else {
        r
    }
}

pub open spec fn renamed_path(p: SExprView, from_ref: Seq<char>, to_ref: Seq<char>) -> SExprView {
    if head_is(p, "path"@) {
        SExprView::List(p->List_0.map_values(|r: SExprView| renamed_ref(r, from_ref, to_ref)))
    } else {
        p
    }
}

pub open spec fn renamed_project(p: SExprView, from_ref: Seq<char>, to_ref: Seq<char>) -> SExprView {
    if head_is(p, "project"@) {
        SExprView::List(p->List_0.map_values(|q: SExprView| renamed_path(q, from_ref, to_ref)))
    } else {
        p
    }
}

/// The instance paths' references `from_ref` renamed `new`.
pub open spec fn renamed_instances(v: SExprView, from_ref: Seq<char>, to_ref: Seq<char>) -> SExprView {
    SExprView::List(v->List_0.map_values(|p: SExprView| renamed_project(p, from_ref, to_ref)))
}

/// What becomes of one item of a placed symbol: its `at` takes the to_ref place and
/// rotation, followed by the mirroring if there is one; an from_ref mirroring goes; property
/// values come from the state; instance paths are renamed.
pub open spec fn state_child(x: SExprView, st: ComponentState, from_ref: Seq<char>, to_ref: Seq<char>) -> Seq<SExprView> {
    if head_is(x, "at"@) {
        seq![at_of_state(st)] + mirror_of_state(st)
    } else if head_is(x, "mirror"@) {
        Seq::empty()
    } else if prop_entry(x) is Some {
        seq![with_props_value(x, st.properties@)]
    } else if head_is(x, "instances"@) {
        seq![renamed_instances(x, from_ref, to_ref)]
    } else {
        seq![x]
    }
}

pub open spec fn state_children(xs: Seq<SExprView>, st: ComponentState, from_ref: Seq<char>, to_ref: Seq<char>) -> Seq<SExprView>
    decreases xs.len(),
{
    if xs.len() == 0 {
        Seq::empty()
    } else {
        state_children(xs.drop_last(), st, from_ref, to_ref) + state_child(xs.last(), st, from_ref, to_ref)
    }
}

/// The index of the `k`-th placed symbol item among the items from `i` on.
pub open spec fn nth_symbol_from(xs: Seq<SExprView>, k: int, i: int) -> Option<int>
    decreases xs.len() - i,
{
    if i < 0 || i >= xs.len() {
        None
    } else if head_is(xs[i], "symbol"@) {
        if k == 0 {
            Some(i)
        } else {
            nth_symbol_from(xs, k - 1, i + 1)
        }
    } else {
        nth_symbol_from(xs, k, i + 1)
    }
}

/// The tree with the `k`-th placed symbol item updated to the state.
pub open spec fn updated_tree(e: SExprView, k: int, st: ComponentState, from_ref: Seq<char>, to_ref: Seq<char>) -> Option<SExprView> {
    match e {
        SExprView::List(xs) => match nth_symbol_from(xs, k, 0) {
            Some(i) => Some(SExprView::List(xs.update(i, SExprView::List(state_children(xs[i]->List_0, st, from_ref, to_ref))))),
            None => None,
        },
        _ => None,
    }
}

proof fn lemma_list_view(items: Vec<SExpr>)
    ensures
        sexpr_view(SExpr::List(items)) == SExprView::List(views(items@)),
{
    assert(sexpr_view(SExpr::List(items))->List_0 =~= views(items@));
}

fn copy_tree(e: &SExpr) -> (r: SExpr)
    ensures
        r@ == e@,
    decreases e, 1int,
{
    match e {
        SExpr::Symbol(s) => SExpr::Symbol(s.clone()),
        SExpr::String(s) => SExpr::String(s.clone()),
        SExpr::Number(n) => SExpr::Number(*n),
        SExpr::List(items) => {
            proof {
                assert(decreases_to!(*e => *items));
                lemma_list_view(*items);
            }
            let v = copy_list(items);
            proof {
                lemma_list_view(v);
            }
            SExpr::List(v)
        },
    }
}

fn copy_list(items: &Vec<SExpr>) -> (r: Vec<SExpr>)
    ensures
        views(r@) == views(items@),
    decreases items, 0int,
{
    let mut out: Vec<SExpr> = Vec::new();
    let mut k: usize = 0;
    while k < items.len()
        invariant
            k <= items@.len(),
            views(out@) == views(items@).take(k as int),
        decreases items@.len() - k,
    {
        proof {
            assert(decreases_to!(*items => items@));
            assert(decreases_to!(items@ => items@[k as int]));
        }
        let x = copy_tree(&items[k]);
        let ghost before = out@;
        out.push(x);
        assert(views(out@) =~= views(before).push(x@));
        assert(views(items@).take(k + 1) =~= views(items@).take(k as int).push(items@[k as int]@));
        k = k + 1;
    }
    assert(views(items@).take(items@.len() as int) =~= views(items@));
    out
}

fn head_is_exec(x: &SExpr, name: &str) -> (r: bool)
    ensures
        r == head_is(x@, name@),
{
    match x {
        SExpr::List(ys) => {
            proof {
                lemma_list_view(*ys);
            }
            if ys.len() == 0 {
                return false;
            }
            match &ys[0] {
                SExpr::Symbol(s) => str_eq(s.as_str(), name),
                _ => false,
            }
        },
        _ => false,
    }
}

fn renamed_ref_exec(r: &SExpr, from_ref: &str, to_ref: &str) -> (out: SExpr)
    ensures
        out@ == renamed_ref(r@, from_ref@, to_ref@),
{
    if head_is_exec(r, "reference") {
        match r {
            SExpr::List(ys) => {
                proof {
                    lemma_list_view(*ys);
                }
                if ys.len() >= 2 {
                    let hit = match &ys[1] {
                        SExpr::String(t) => str_eq(t.as_str(), from_ref),
                        _ => false,
                    };
                    assert(views(ys@)[1] == ys@[1]@);
                    if hit {
                        let mut v = copy_list(ys);
                        let ghost before = views(v@);
                        v.set(1, SExpr::String(String::from_str(to_ref)));
                        assert(views(v@) =~= before.update(1, SExprView::Str(to_ref@)));
                        proof {
                            lemma_list_view(v);
                        }
                        return SExpr::List(v);
                    }
                }
            },
            _ => {},
        }
    }
    copy_tree(r)
}

fn renamed_path_exec(p: &SExpr, from_ref: &str, to_ref: &str) -> (out: SExpr)
    ensures
        out@ == renamed_path(p@, from_ref@, to_ref@),
{
    if !head_is_exec(p, "path") {
        return copy_tree(p);
    }
    match p {
        SExpr::List(ys) => {
            proof {
                lemma_list_view(*ys);
            }
            let ghost target = views(ys@).map_values(|r: SExprView| renamed_ref(r, from_ref@, to_ref@));
            let mut v: Vec<SExpr> = Vec::new();
            let mut k: usize = 0;
            while k < ys.len()
                invariant
                    k <= ys@.len(),
                    target == views(ys@).map_values(|r: SExprView| renamed_ref(r, from_ref@, to_ref@)),
                    views(v@) == target.take(k as int),
                decreases ys@.len() - k,
            {
                let x = renamed_ref_exec(&ys[k], from_ref, to_ref);
                let ghost before = v@;
                v.push(x);
                assert(views(v@) =~= views(before).push(x@));
                assert(target.take(k + 1) =~= target.take(k as int).push(target[k as int]));
                k = k + 1;
            }
            assert(target.take(ys@.len() as int) =~= target);
            proof {
                lemma_list_view(v);
            }
            SExpr::List(v)
        },
        _ => copy_tree(p),
    }
}

fn renamed_project_exec(p: &SExpr, from_ref: &str, to_ref: &str) -> (out: SExpr)
    ensures
        out@ == renamed_project(p@, from_ref@, to_ref@),
{
    if !head_is_exec(p, "project") {
        return copy_tree(p);
    }
    match p {
        SExpr::List(ys) => {
            proof {
                lemma_list_view(*ys);
            }
            let ghost target = views(ys@).map_values(|q: SExprView| renamed_path(q, from_ref@, to_ref@));
            let mut v: Vec<SExpr> = Vec::new();
            let mut k: usize = 0;
            while k < ys.len()
                invariant
                    k <= ys@.len(),
                    target == views(ys@).map_values(|q: SExprView| renamed_path(q, from_ref@, to_ref@)),
                    views(v@) == target.take(k as int),
                decreases ys@.len() - k,
            {
                let x = renamed_path_exec(&ys[k], from_ref, to_ref);
                let ghost before = v@;
                v.push(x);
                assert(views(v@) =~= views(before).push(x@));
                assert(target.take(k + 1) =~= target.take(k as int).push(target[k as int]));
                k = k + 1;
            }
            assert(target.take(ys@.len() as int) =~= target);
            proof {
                lemma_list_view(v);
            }
            SExpr::List(v)
        },
        _ => copy_tree(p),
    }
}

fn renamed_instances_exec(ys: &Vec<SExpr>, from_ref: &str, to_ref: &str) -> (out: SExpr)
    ensures
        out@ == SExprView::List(views(ys@).map_values(|p: SExprView| renamed_project(p, from_ref@, to_ref@))),
{
    let ghost target = views(ys@).map_values(|p: SExprView| renamed_project(p, from_ref@, to_ref@));
    let mut v: Vec<SExpr> = Vec::new();
    let mut k: usize = 0;
    while k < ys.len()
        invariant
            k <= ys@.len(),
            target == views(ys@).map_values(|p: SExprView| renamed_project(p, from_ref@, to_ref@)),
            views(v@) == target.take(k as int),
        decreases ys@.len() - k,
    {
        let x = renamed_project_exec(&ys[k], from_ref, to_ref);
        let ghost before = v@;
        v.push(x);
        assert(views(v@) =~= views(before).push(x@));
        assert(target.take(k + 1) =~= target.take(k as int).push(target[k as int]));
        k = k + 1;
    }
    assert(target.take(ys@.len() as int) =~= target);
    proof {
        lemma_list_view(v);
    }
    SExpr::List(v)
}

fn at_exec_of_state(st: &ComponentState) -> (r: SExpr)
    ensures
        r@ == at_of_state(*st),
{
    let mut v: Vec<SExpr> = Vec::new();
    v.push(SExpr::symbol("at"));
    v.push(SExpr::number(Decimal { mantissa: st.x as i64, scale: 4 }));
    v.push(SExpr::number(Decimal { mantissa: st.y as i64, scale: 4 }));
    v.push(SExpr::number(Decimal { mantissa: st.angle as i64, scale: 0 }));
    proof {
        lemma_list_view(v);
    }
    assert(views(v@) =~= at_of_state(*st)->List_0);
    SExpr::List(v)
}

fn push_state_child(out: &mut Vec<SExpr>, x: &SExpr, st: &ComponentState, from_ref: &str, to_ref: &str)
    ensures
        views(final(out)@) == views(old(out)@) + state_child(x@, *st, from_ref@, to_ref@),
{
    let ghost start = views(out@);
    if head_is_exec(x, "at") {
        let a = at_exec_of_state(st);
        out.push(a);
        match st.mirror {
            Some(m) => {
                let mut f: Vec<SExpr> = Vec::new();
                f.push(SExpr::symbol("mirror"));
                f.push(SExpr::symbol(m.as_str()));
                proof {
                    lemma_list_view(f);
                }
                assert(views(f@) =~= field_v("mirror"@, sym_v(m.keyword()))->List_0);
                let fm = SExpr::List(f);
                out.push(fm);
            },
            None => {},
        }
        assert(views(out@) =~= start + state_child(x@, *st, from_ref@, to_ref@));
    } else if head_is_exec(x, "mirror") {
        assert(views(out@) =~= start + state_child(x@, *st, from_ref@, to_ref@));
    } else if crate::schematic_save::prop_entry_exec(x).is_some() {
        let y = crate::schematic_save::with_props_value_exec(x, &st.properties);
        out.push(y);
        assert(views(out@) =~= start + state_child(x@, *st, from_ref@, to_ref@));
    } else if head_is_exec(x, "instances") {
        match x {
            SExpr::List(ys) => {
                proof {
                    lemma_list_view(*ys);
                }
                let y = renamed_instances_exec(ys, from_ref, to_ref);
                out.push(y);
            },
            _ => {},
        }
        assert(views(out@) =~= start + state_child(x@, *st, from_ref@, to_ref@));
    } else {
        let y = copy_tree(x);
        out.push(y);
        assert(views(out@) =~= start + state_child(x@, *st, from_ref@, to_ref@));
    }
}

fn state_children_exec(ys: &Vec<SExpr>, st: &ComponentState, from_ref: &str, to_ref: &str) -> (r: Vec<SExpr>)
    ensures
        views(r@) == state_children(views(ys@), *st, from_ref@, to_ref@),
{
    let ghost v = views(ys@);
    let mut out: Vec<SExpr> = Vec::new();
    let mut k: usize = 0;
    while k < ys.len()
        invariant
            k <= ys@.len(),
            v == views(ys@),
            views(out@) == state_children(v.take(k as int), *st, from_ref@, to_ref@),
        decreases ys@.len() - k,
    {
        assert(v.take(k + 1).drop_last() =~= v.take(k as int));
        assert(v.take(k + 1).last() == ys@[k as int]@);
        push_state_child(&mut out, &ys[k], st, from_ref, to_ref);
        k = k + 1;
    }
    assert(v.take(ys@.len() as int) =~= v);
    out
}

/// Save an update of one placed component, as `updated_tree` states: the `k`-th placed
/// symbol item of the tree takes the state, and its instance paths under `old` are
/// renamed `new`. None when the tree has no such item.
pub fn schematic_with_state(e: &SExpr, k: usize, st: &ComponentState, from_ref: &str, to_ref: &str) -> (r: Option<SExpr>)
    ensures
        match updated_tree(e@, k as int, *st, from_ref@, to_ref@) {
            Some(t) => r matches Some(x) && x@ == t,
            None => r is None,
        },
{
    match e {
        SExpr::List(ys) => {
            proof {
                lemma_list_view(*ys);
            }
            let ghost v = views(ys@);
            let mut left: usize = k;
            let mut i: usize = 0;
            while i < ys.len()
                invariant
                    i <= ys@.len(),
                    v == views(ys@),
                    e@ == SExprView::List(v),
                    left <= k,
                    nth_symbol_from(v, k as int, 0) == nth_symbol_from(v, left as int, i as int),
                decreases ys@.len() - i,
            {
                assert(v[i as int] == ys@[i as int]@);
                if head_is_exec(&ys[i], "symbol") {
                    if left == 0 {
                        let inner = match &ys[i] {
                            SExpr::List(zs) => {
                                proof {
                                    lemma_list_view(*zs);
                                }
                                state_children_exec(zs, st, from_ref, to_ref)
                            },
                            _ => Vec::new(),
                        };
                        proof {
                            lemma_list_view(inner);
                        }
                        let item = SExpr::List(inner);
                        let mut out = copy_list(ys);
                        let ghost before = views(out@);
                        out.set(i, item);
                        assert(views(out@) =~= before.update(i as int, item@));
                        proof {
                            lemma_list_view(out);
                        }
                        return Some(SExpr::List(out));
                    }
                    left = left - 1;
                }
                i = i + 1;
            }
            None
        },
        _ => None,
    }
}

} // verus!
