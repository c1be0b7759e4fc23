//! What reading gives back of what writing wrote: the junctions, wires and labels of a
//! written schematic, read again, are the model's.
use vstd::prelude::*;
use crate::schematic_write::{
    autoplaced, block_v, flag_v, forms, opt_effects, pts_v, schematic_head, schematic_items, schematic_sexpr,
    sheet_forms, sheet_sexpr, uuid_v, Junction, Point, Schematic, Wire,
};
use crate::component_edit::SchematicItems;
use crate::outline_nets::GridPoint;
use crate::schematic_save::{
    added_items, head_is, instance_forms, item_reference, list_items, new_item_count, point_of, saved_tree, scan, wire_item,
    with_value, NewSymbol,
};
use crate::sheet_points::grid_point;
use crate::sexpr::{starts_with_symbol, views, Decimal, SExpr, SExprView, ToSExpr};
use crate::sheet_reader::{
    arg_number, args_of, at_of, child, child_from, children, number_or_zero, schematic_matches, wire_spec, zero,
    SchematicData,
};

verus! {

/// The arguments of a list headed by the symbol `name`.
pub open spec fn args_v(v: SExprView, name: Seq<char>) -> Option<Seq<SExprView>> {
    if starts_with_symbol(v, name) {
        Some(v->List_0.subrange(1, v->List_0.len() as int))
    } else {
        None
    }
}

/// The arguments of every item headed by `name`, in order.
pub open spec fn children_v(xs: Seq<SExprView>, name: Seq<char>) -> Seq<Seq<SExprView>>
    decreases xs.len(),
{
    if xs.len() == 0 {
        Seq::empty()
    } else {
        children_v(xs.drop_last(), name) + match args_v(xs.last(), name) {
            Some(a) => seq![a],
            None => Seq::empty(),
        }
    }
}

/// The arguments of the first item from `k` on headed by `name`.
pub open spec fn child_from_v(xs: Seq<SExprView>, name: Seq<char>, k: int) -> Option<Seq<SExprView>>
    decreases xs.len() - k,
{
    if k < 0 || k >= xs.len() {
        None
    } else {
        match args_v(xs[k], name) {
            Some(a) => Some(a),
            None => child_from_v(xs, name, k + 1),
        }
    }
}

pub open spec fn num_or_zero_v(xs: Seq<SExprView>, k: int) -> Decimal {
    if 0 <= k < xs.len() {
        match xs[k] {
            SExprView::Number(n) => n,
            _ => zero(),
        }
    } else {
        zero()
    }
}

proof fn lemma_list_views(items: Vec<SExpr>)
    ensures
        SExpr::List(items)@ == SExprView::List(views(items@)),
{
    assert(SExpr::List(items)@->List_0 =~= views(items@));
}

pub(crate) proof fn lemma_args(e: SExpr, name: Seq<char>)
    ensures
        args_of(e, name) is Some <==> args_v(e@, name) is Some,
        args_of(e, name) matches Some(a) ==> views(a) == args_v(e@, name)->Some_0,
{
    if let SExpr::List(items) = e {
        lemma_list_views(items);
        if starts_with_symbol(e@, name) {
            assert(views(items@.subrange(1, items@.len() as int)) =~= views(items@).subrange(1, items@.len() as int));
        }
    }
}

proof fn lemma_children(items: Seq<SExpr>, name: Seq<char>)
    ensures
        children(items, name).map_values(|a: Seq<SExpr>| views(a)) == children_v(views(items), name),
    decreases items.len(),
{
    if items.len() > 0 {
        lemma_children(items.drop_last(), name);
        lemma_args(items.last(), name);
        assert(views(items).drop_last() =~= views(items.drop_last()));
        let f = |a: Seq<SExpr>| views(a);
        let rest = children(items.drop_last(), name);
        match args_of(items.last(), name) {
            Some(a) => {
                assert((rest + seq![a]).map_values(f) =~= rest.map_values(f) + seq![views(a)]);
            },
            None => {
                assert((rest + Seq::<Seq<SExpr>>::empty()).map_values(f) =~= rest.map_values(f));
            },
        }
    }
}

proof fn lemma_child_from(items: Seq<SExpr>, name: Seq<char>, k: int)
    ensures
        child_from(items, name, k) is Some <==> child_from_v(views(items), name, k) is Some,
        child_from(items, name, k) matches Some(a) ==> views(a) == child_from_v(views(items), name, k)->Some_0,
    decreases items.len() - k,
{
    if 0 <= k < items.len() {
        lemma_args(items[k], name);
        lemma_child_from(items, name, k + 1);
    }
}

/// Reading a position reads the views only.
proof fn lemma_at_of(items: Seq<SExpr>)
    ensures
        at_of(items).0 == match child_from_v(views(items), "at"@, 0) {
            Some(a) => num_or_zero_v(a, 0),
            None => zero(),
        },
        at_of(items).1 == match child_from_v(views(items), "at"@, 0) {
            Some(a) => num_or_zero_v(a, 1),
            None => zero(),
        },
{
    lemma_child_from(items, "at"@, 0);
}

proof fn lemma_children_add(a: Seq<SExprView>, b: Seq<SExprView>, name: Seq<char>)
    ensures
        children_v(a + b, name) == children_v(a, name) + children_v(b, name),
    decreases b.len(),
{
    if b.len() == 0 {
        assert(a + b =~= a);
        assert(children_v(a, name) + children_v(b, name) =~= children_v(a, name));
    } else {
        lemma_children_add(a, b.drop_last(), name);
        assert((a + b).drop_last() =~= a + b.drop_last());
        assert((a + b).last() == b.last());
    }
}

/// No item headed by `name`: no arguments read.
proof fn lemma_children_none(s: Seq<SExprView>, name: Seq<char>)
    requires
        forall|i: int| 0 <= i < s.len() ==> !starts_with_symbol(#[trigger] s[i], name),
    ensures
        children_v(s, name) == Seq::<Seq<SExprView>>::empty(),
    decreases s.len(),
{
    if s.len() > 0 {
        lemma_children_none(s.drop_last(), name);
    }
}

/// Every item headed by `name`: each one's arguments, in order.
proof fn lemma_children_all(s: Seq<SExprView>, name: Seq<char>)
    requires
        forall|i: int| 0 <= i < s.len() ==> starts_with_symbol(#[trigger] s[i], name),
    ensures
        children_v(s, name) == s.map_values(|v: SExprView| args_v(v, name)->Some_0),
    decreases s.len(),
{
    if s.len() > 0 {
        lemma_children_all(s.drop_last(), name);
        assert(s.map_values(|v: SExprView| args_v(v, name)->Some_0) =~= s.drop_last().map_values(
            |v: SExprView| args_v(v, name)->Some_0,
        ).push(args_v(s.last(), name)->Some_0));
    }
}

/// Forms all headed by `head`, another name than `name`: no arguments read.
proof fn lemma_forms_none<T: ToSExpr>(v: Seq<T>, head: Seq<char>, name: Seq<char>)
    requires
        head != name,
        forall|i: int| 0 <= i < v.len() ==> starts_with_symbol(#[trigger] v[i].sexpr_form(), head),
    ensures
        children_v(forms(v), name) == Seq::<Seq<SExprView>>::empty(),
{
    assert forall|i: int| 0 <= i < forms(v).len() implies !starts_with_symbol(#[trigger] forms(v)[i], name) by {
        assert(forms(v)[i] == v[i].sexpr_form());
        assert(starts_with_symbol(v[i].sexpr_form(), head));
    }
    lemma_children_none(forms(v), name);
}

/// Forms all headed by `name`: each one's arguments, in order.
proof fn lemma_forms_all<T: ToSExpr>(v: Seq<T>, name: Seq<char>)
    requires
        forall|i: int| 0 <= i < v.len() ==> starts_with_symbol(#[trigger] v[i].sexpr_form(), name),
    ensures
        children_v(forms(v), name) == forms(v).map_values(|x: SExprView| args_v(x, name)->Some_0),
{
    assert forall|i: int| 0 <= i < forms(v).len() implies starts_with_symbol(#[trigger] forms(v)[i], name) by {
        assert(forms(v)[i] == v[i].sexpr_form());
    }
    lemma_children_all(forms(v), name);
}

proof fn lemma_names_differ()
    ensures
        "junction"@ != "wire"@,
        "junction"@ != "no_connect"@ && "wire"@ != "no_connect"@,
        "junction"@ != "bus"@ && "wire"@ != "bus"@,
        "junction"@ != "bus_entry"@ && "wire"@ != "bus_entry"@,
        "junction"@ != "global_label"@ && "wire"@ != "global_label"@,
        "junction"@ != "hierarchical_label"@ && "wire"@ != "hierarchical_label"@,
        "junction"@ != "label"@ && "wire"@ != "label"@,
        "junction"@ != "text"@ && "wire"@ != "text"@,
        "junction"@ != "symbol"@ && "wire"@ != "symbol"@,
        "junction"@ != "sheet"@ && "wire"@ != "sheet"@,
        "junction"@ != "sheet_instances"@ && "wire"@ != "sheet_instances"@,
        "junction"@ != "embedded_fonts"@ && "wire"@ != "embedded_fonts"@,
        "junction"@ != "version"@ && "wire"@ != "version"@,
        "junction"@ != "generator"@ && "wire"@ != "generator"@,
        "junction"@ != "generator_version"@ && "wire"@ != "generator_version"@,
        "junction"@ != "uuid"@ && "wire"@ != "uuid"@,
        "junction"@ != "paper"@ && "wire"@ != "paper"@,
        "junction"@ != "title_block"@ && "wire"@ != "title_block"@,
        "junction"@ != "lib_symbols"@ && "wire"@ != "lib_symbols"@,
        "label"@ != "junction"@ && "label"@ != "wire"@ && "label"@ != "no_connect"@ && "label"@ != "bus"@,
        "label"@ != "bus_entry"@ && "label"@ != "global_label"@ && "label"@ != "hierarchical_label"@,
        "label"@ != "text"@ && "label"@ != "symbol"@ && "label"@ != "sheet"@ && "label"@ != "sheet_instances"@,
        "label"@ != "embedded_fonts"@ && "label"@ != "version"@ && "label"@ != "generator"@,
        "label"@ != "generator_version"@ && "label"@ != "uuid"@ && "label"@ != "paper"@,
        "label"@ != "title_block"@ && "label"@ != "lib_symbols"@,
{
    reveal_strlit("junction");
    reveal_strlit("wire");
    reveal_strlit("no_connect");
    reveal_strlit("bus");
    reveal_strlit("bus_entry");
    reveal_strlit("global_label");
    reveal_strlit("hierarchical_label");
    reveal_strlit("label");
    reveal_strlit("text");
    reveal_strlit("symbol");
    reveal_strlit("sheet");
    reveal_strlit("sheet_instances");
    reveal_strlit("embedded_fonts");
    reveal_strlit("version");
    reveal_strlit("generator");
    reveal_strlit("generator_version");
    reveal_strlit("uuid");
    reveal_strlit("paper");
    reveal_strlit("title_block");
    reveal_strlit("lib_symbols");
    assert("junction"@.len() == 8);
    assert("wire"@.len() == 4);
    assert("no_connect"@.len() == 10);
    assert("bus"@.len() == 3);
    assert("bus_entry"@.len() == 9);
    assert("global_label"@.len() == 12);
    assert("hierarchical_label"@.len() == 18);
    assert("label"@.len() == 5);
    assert("text"@.len() == 4);
    assert("symbol"@.len() == 6);
    assert("sheet"@.len() == 5);
    assert("sheet_instances"@.len() == 15);
    assert("embedded_fonts"@.len() == 14);
    assert("version"@.len() == 7);
    assert("generator"@.len() == 9);
    assert("generator_version"@.len() == 17);
    assert("uuid"@.len() == 4);
    assert("paper"@.len() == 5);
    assert("title_block"@.len() == 11);
    assert("lib_symbols"@.len() == 11);
    assert("wire"@[0] != "text"@[0]);
    assert("label"@[0] != "paper"@[0]);
    assert("label"@[0] != "sheet"@[0]);
}

/// Of the drawn items, only junctions and wires are read as junctions or wires.
proof fn lemma_heads_no_connects(v: Seq<crate::schematic_write::NoConnect>)
    ensures
        forall|i: int| 0 <= i < v.len() ==> starts_with_symbol(#[trigger] v[i].sexpr_form(), "no_connect"@),
{
}

proof fn lemma_heads_buses(v: Seq<crate::schematic_write::Bus>)
    ensures
        forall|i: int| 0 <= i < v.len() ==> starts_with_symbol(#[trigger] v[i].sexpr_form(), "bus"@),
{
}

proof fn lemma_heads_bus_entries(v: Seq<crate::schematic_write::BusEntry>)
    ensures
        forall|i: int| 0 <= i < v.len() ==> starts_with_symbol(#[trigger] v[i].sexpr_form(), "bus_entry"@),
{
}

proof fn lemma_heads_global_labels(v: Seq<crate::schematic_write::GlobalLabel>)
    ensures
        forall|i: int| 0 <= i < v.len() ==> starts_with_symbol(#[trigger] v[i].sexpr_form(), "global_label"@),
{
}

proof fn lemma_heads_hierarchical_labels(v: Seq<crate::schematic_write::HierarchicalLabel>)
    ensures
        forall|i: int| 0 <= i < v.len() ==> starts_with_symbol(#[trigger] v[i].sexpr_form(), "hierarchical_label"@),
{
}

proof fn lemma_heads_labels(v: Seq<crate::schematic_write::Label>)
    ensures
        forall|i: int| 0 <= i < v.len() ==> starts_with_symbol(#[trigger] v[i].sexpr_form(), "label"@),
{
}

proof fn lemma_heads_text_items(v: Seq<crate::schematic_write::TextItem>)
    ensures
        forall|i: int| 0 <= i < v.len() ==> starts_with_symbol(#[trigger] v[i].sexpr_form(), "text"@),
{
}

proof fn lemma_heads_symbols(v: Seq<crate::schematic_write::SymbolInstance>)
    ensures
        forall|i: int| 0 <= i < v.len() ==> starts_with_symbol(#[trigger] v[i].sexpr_form(), "symbol"@),
{
}

proof fn lemma_heads_junctions(v: Seq<crate::schematic_write::Junction>)
    ensures
        forall|i: int| 0 <= i < v.len() ==> starts_with_symbol(#[trigger] v[i].sexpr_form(), "junction"@),
{
}

proof fn lemma_heads_wires(v: Seq<crate::schematic_write::Wire>)
    ensures
        forall|i: int| 0 <= i < v.len() ==> starts_with_symbol(#[trigger] v[i].sexpr_form(), "wire"@),
{
}

proof fn lemma_items_children(m: Schematic, name: Seq<char>)
    requires
        name == "junction"@ || name == "wire"@,
    ensures
        children_v(schematic_items(m), name) == children_v(forms(m.junctions@), name) + children_v(forms(m.wires@), name),
{
    lemma_names_differ();
    let a = forms(m.junctions@);
    let b = forms(m.no_connects@);
    let c = forms(m.wires@);
    let d = forms(m.buses@);
    let e = forms(m.bus_entries@);
    let f = forms(m.global_labels@);
    let g = forms(m.hierarchical_labels@);
    let h = forms(m.labels@);
    let i = forms(m.text_items@);
    let k = forms(m.symbols@);
    lemma_heads_no_connects(m.no_connects@);
    lemma_forms_none(m.no_connects@, "no_connect"@, name);
    lemma_heads_buses(m.buses@);
    lemma_forms_none(m.buses@, "bus"@, name);
    lemma_heads_bus_entries(m.bus_entries@);
    lemma_forms_none(m.bus_entries@, "bus_entry"@, name);
    lemma_heads_global_labels(m.global_labels@);
    lemma_forms_none(m.global_labels@, "global_label"@, name);
    lemma_heads_hierarchical_labels(m.hierarchical_labels@);
    lemma_forms_none(m.hierarchical_labels@, "hierarchical_label"@, name);
    lemma_heads_labels(m.labels@);
    lemma_forms_none(m.labels@, "label"@, name);
    lemma_heads_text_items(m.text_items@);
    lemma_forms_none(m.text_items@, "text"@, name);
    lemma_heads_symbols(m.symbols@);
    lemma_forms_none(m.symbols@, "symbol"@, name);
    lemma_children_add(a, b, name);
    lemma_children_add(a + b, c, name);
    lemma_children_add(a + b + c, d, name);
    lemma_children_add(a + b + c + d, e, name);
    lemma_children_add(a + b + c + d + e, f, name);
    lemma_children_add(a + b + c + d + e + f, g, name);
    lemma_children_add(a + b + c + d + e + f + g, h, name);
    lemma_children_add(a + b + c + d + e + f + g + h, i, name);
    lemma_children_add(a + b + c + d + e + f + g + h + i, k, name);
    assert(children_v(a, name) + Seq::<Seq<SExprView>>::empty() =~= children_v(a, name));
    assert(children_v(a, name) + Seq::<Seq<SExprView>>::empty() + children_v(c, name) + Seq::<Seq<SExprView>>::empty()
        + Seq::<Seq<SExprView>>::empty() + Seq::<Seq<SExprView>>::empty() + Seq::<Seq<SExprView>>::empty()
        + Seq::<Seq<SExprView>>::empty() + Seq::<Seq<SExprView>>::empty() + Seq::<Seq<SExprView>>::empty() =~= children_v(
        a,
        name,
    ) + children_v(c, name));
}

proof fn lemma_none_of(s: Seq<SExprView>, name: Seq<char>)
    requires
        forall|i: int| 0 <= i < s.len() ==> !starts_with_symbol(#[trigger] s[i], name),
    ensures
        children_v(s, name) == Seq::<Seq<SExprView>>::empty(),
{
    lemma_children_none(s, name);
}

/// What a written schematic's arguments give for junctions and wires: what its drawn
/// items give.
proof fn lemma_top_children(m: Schematic, name: Seq<char>)
    requires
        name == "junction"@ || name == "wire"@ || name == "label"@,
    ensures
        ({
            let l = schematic_sexpr(m)->List_0;
            children_v(l.subrange(1, l.len() as int), name) == children_v(schematic_items(m), name)
        }),
{
    lemma_names_differ();
    let l = schematic_sexpr(m)->List_0;
    let h = schematic_head(m);
    let hs = h.subrange(1, h.len() as int);
    let it = schematic_items(m);
    let sh = sheet_forms(m.sheets@);
    let bl = block_v("sheet_instances"@, m.sheet_instances@);
    let ef = seq![flag_v("embedded_fonts"@, m.embedded_fonts)];
    assert(l.subrange(1, l.len() as int) =~= hs + it + sh + bl + ef);
    assert forall|i: int| 0 <= i < hs.len() implies !starts_with_symbol(#[trigger] hs[i], name) by {
        assert(hs[i] == h[i + 1]);
    }
    lemma_none_of(hs, name);
    assert forall|i: int| 0 <= i < sh.len() implies !starts_with_symbol(#[trigger] sh[i], name) by {
        assert(sh[i] == sheet_sexpr(m.sheets@[i]));
    }
    lemma_none_of(sh, name);
    lemma_none_of(bl, name);
    lemma_none_of(ef, name);
    lemma_children_add(hs, it, name);
    lemma_children_add(hs + it, sh, name);
    lemma_children_add(hs + it + sh, bl, name);
    lemma_children_add(hs + it + sh + bl, ef, name);
    let e = Seq::<Seq<SExprView>>::empty();
    assert(e + children_v(it, name) + e + e + e =~= children_v(it, name));
}

/// The arguments a written schematic is read from, and what they give for `name`.
#[verifier::rlimit(100)]
proof fn lemma_written_children(m: Schematic, e: SExpr, name: Seq<char>)
    requires
        e@ == schematic_sexpr(m),
        name == "junction"@ || name == "wire"@,
    ensures
        args_of(e, "kicad_sch"@) is Some,
        children(args_of(e, "kicad_sch"@)->Some_0, name).map_values(|a: Seq<SExpr>| views(a)) == children_v(
            forms(m.junctions@),
            name,
        ) + children_v(forms(m.wires@), name),
{
    lemma_args(e, "kicad_sch"@);
    let items = args_of(e, "kicad_sch"@)->Some_0;
    lemma_children(items, name);
    lemma_top_children(m, name);
    lemma_items_children(m, name);
}

/// Reading a written schematic gives back its junctions' positions, in order.
pub proof fn lemma_junctions_read_back(m: Schematic, e: SExpr, d: SchematicData)
    requires
        e@ == schematic_sexpr(m),
        schematic_matches(d, args_of(e, "kicad_sch"@)->Some_0),
    ensures
        d.junctions@ == m.junctions@.map_values(|j: Junction| (j.position.x, j.position.y)),
{
    lemma_names_differ();
    lemma_written_children(m, e, "junction"@);
    lemma_forms_none(m.wires@, "wire"@, "junction"@);
    lemma_forms_all(m.junctions@, "junction"@);
    let items = args_of(e, "kicad_sch"@)->Some_0;
    let js = children(items, "junction"@);
    let vs = js.map_values(|a: Seq<SExpr>| views(a));
    assert(vs =~= forms(m.junctions@).map_values(|x: SExprView| args_v(x, "junction"@)->Some_0));
    assert forall|k: int| 0 <= k < m.junctions@.len() implies #[trigger] d.junctions@[k] == (
        m.junctions@[k].position.x,
        m.junctions@[k].position.y,
    ) by {
        assert(vs[k] == views(js[k]));
        lemma_at_of(js[k]);
        let jv = m.junctions@[k];
        assert(forms(m.junctions@)[k] == jv.sexpr_form());
        let a = views(js[k]);
        assert(a[0] == SExprView::List(seq![SExprView::Symbol("at"@), SExprView::Number(jv.position.x), SExprView::Number(jv.position.y)]));
        assert(child_from_v(a, "at"@, 0) == Some(seq![SExprView::Number(jv.position.x), SExprView::Number(jv.position.y)]));
    }
    assert(d.junctions@ =~= m.junctions@.map_values(|j: Junction| (j.position.x, j.position.y)));
}

/// The points of a written wire, read back from its arguments.
proof fn lemma_pts_read(w: Seq<SExpr>, points: Seq<Point>)
    requires
        views(w).len() > 0,
        views(w)[0] == pts_v(points),
    ensures
        wire_spec(w) == points.map_values(|p: Point| (p.x, p.y)),
{
    reveal_strlit("pts");
    reveal_strlit("xy");
    lemma_child_from(w, "pts"@, 0);
    let pts = child(w, "pts"@)->Some_0;
    assert(views(pts) =~= forms(points));
    lemma_children(pts, "xy"@);
    lemma_forms_all(points, "xy"@);
    let xys = children(pts, "xy"@);
    let f = |xy: Seq<SExpr>| (number_or_zero(arg_number(xy, 0)), number_or_zero(arg_number(xy, 1)));
    assert(xys.map_values(|a: Seq<SExpr>| views(a)) == forms(points).map_values(|x: SExprView| args_v(x, "xy"@)->Some_0));
    assert forall|k: int| 0 <= k < points.len() implies #[trigger] f(xys[k]) == (points[k].x, points[k].y) by {
        assert(xys.map_values(|a: Seq<SExpr>| views(a))[k] == views(xys[k]));
        assert(forms(points)[k] == points[k].sexpr_form());
        let a = views(xys[k]);
        assert(a == seq![SExprView::Number(points[k].x), SExprView::Number(points[k].y)]);
        assert(xys[k][0]@ == a[0]);
        assert(xys[k][1]@ == a[1]);
    }
    assert(wire_spec(w) =~= points.map_values(|p: Point| (p.x, p.y)));
}

proof fn lemma_wire_points(w: Seq<SExpr>, wire: Wire)
    requires
        views(w) == args_v(wire.sexpr_form(), "wire"@)->Some_0,
    ensures
        wire_spec(w) == wire.points@.map_values(|p: Point| (p.x, p.y)),
{
    lemma_pts_read(w, wire.points@);
}

/// Reading a written schematic gives back its wires' points, wire by wire, in order.
pub proof fn lemma_wires_read_back(m: Schematic, e: SExpr, d: SchematicData)
    requires
        e@ == schematic_sexpr(m),
        schematic_matches(d, args_of(e, "kicad_sch"@)->Some_0),
    ensures
        d.wires@.len() == m.wires@.len(),
        forall|k: int|
            0 <= k < m.wires@.len() ==> (#[trigger] d.wires@[k])@ == m.wires@[k].points@.map_values(
                |p: Point| (p.x, p.y),
            ),
{
    lemma_names_differ();
    lemma_written_children(m, e, "wire"@);
    lemma_forms_none(m.junctions@, "junction"@, "wire"@);
    lemma_forms_all(m.wires@, "wire"@);
    let items = args_of(e, "kicad_sch"@)->Some_0;
    let ws = children(items, "wire"@);
    let vs = ws.map_values(|a: Seq<SExpr>| views(a));
    assert(vs =~= forms(m.wires@).map_values(|x: SExprView| args_v(x, "wire"@)->Some_0));
    assert forall|k: int| 0 <= k < m.wires@.len() implies (#[trigger] d.wires@[k])@ == m.wires@[k].points@.map_values(
        |p: Point| (p.x, p.y),
    ) by {
        assert(vs[k] == views(ws[k]));
        assert(forms(m.wires@)[k] == m.wires@[k].sexpr_form());
        lemma_wire_points(ws[k], m.wires@[k]);
    }
}

/// Of the drawn items, only labels are read as labels.
proof fn lemma_items_labels(m: Schematic)
    ensures
        children_v(schematic_items(m), "label"@) == children_v(forms(m.labels@), "label"@),
{
    lemma_names_differ();
    let name = "label"@;
    let a = forms(m.junctions@);
    let b = forms(m.no_connects@);
    let c = forms(m.wires@);
    let d = forms(m.buses@);
    let e = forms(m.bus_entries@);
    let f = forms(m.global_labels@);
    let g = forms(m.hierarchical_labels@);
    let h = forms(m.labels@);
    let i = forms(m.text_items@);
    let k = forms(m.symbols@);
    lemma_heads_junctions(m.junctions@);
    lemma_forms_none(m.junctions@, "junction"@, name);
    lemma_heads_no_connects(m.no_connects@);
    lemma_forms_none(m.no_connects@, "no_connect"@, name);
    lemma_heads_wires(m.wires@);
    lemma_forms_none(m.wires@, "wire"@, name);
    lemma_heads_buses(m.buses@);
    lemma_forms_none(m.buses@, "bus"@, name);
    lemma_heads_bus_entries(m.bus_entries@);
    lemma_forms_none(m.bus_entries@, "bus_entry"@, name);
    lemma_heads_global_labels(m.global_labels@);
    lemma_forms_none(m.global_labels@, "global_label"@, name);
    lemma_heads_hierarchical_labels(m.hierarchical_labels@);
    lemma_forms_none(m.hierarchical_labels@, "hierarchical_label"@, name);
    lemma_heads_text_items(m.text_items@);
    lemma_forms_none(m.text_items@, "text"@, name);
    lemma_heads_symbols(m.symbols@);
    lemma_forms_none(m.symbols@, "symbol"@, name);
    lemma_children_add(a, b, name);
    lemma_children_add(a + b, c, name);
    lemma_children_add(a + b + c, d, name);
    lemma_children_add(a + b + c + d, e, name);
    lemma_children_add(a + b + c + d + e, f, name);
    lemma_children_add(a + b + c + d + e + f, g, name);
    lemma_children_add(a + b + c + d + e + f + g, h, name);
    lemma_children_add(a + b + c + d + e + f + g + h, i, name);
    lemma_children_add(a + b + c + d + e + f + g + h + i, k, name);
    let z = Seq::<Seq<SExprView>>::empty();
    assert(z + z + z + z + z + z + z + children_v(h, name) + z + z =~= children_v(h, name));
}

/// Reading a written schematic gives back its labels' texts, positions and directions,
/// in order, none with a shape.
pub proof fn lemma_labels_read_back(m: Schematic, e: SExpr, d: SchematicData)
    requires
        e@ == schematic_sexpr(m),
        schematic_matches(d, args_of(e, "kicad_sch"@)->Some_0),
    ensures
        d.labels@.len() == m.labels@.len(),
        forall|k: int|
            0 <= k < m.labels@.len() ==> {
                let l = #[trigger] d.labels@[k];
                &&& l.text@ == m.labels@[k].text@
                &&& l.x == m.labels@[k].position.x
                &&& l.y == m.labels@[k].position.y
                &&& l.angle == m.labels@[k].position.angle
                &&& l.shape is None
            },
{
    lemma_names_differ();
    lemma_args(e, "kicad_sch"@);
    let items = args_of(e, "kicad_sch"@)->Some_0;
    lemma_children(items, "label"@);
    lemma_top_children(m, "label"@);
    lemma_items_labels(m);
    lemma_forms_all(m.labels@, "label"@);
    let ls = children(items, "label"@);
    let vs = ls.map_values(|a: Seq<SExpr>| views(a));
    assert(vs =~= forms(m.labels@).map_values(|x: SExprView| args_v(x, "label"@)->Some_0));
    reveal_strlit("shape");
    reveal_strlit("at");
    reveal_strlit("fields_autoplaced");
    reveal_strlit("effects");
    reveal_strlit("uuid");
    assert("shape"@.len() == 5 && "at"@.len() == 2 && "fields_autoplaced"@.len() == 17);
    assert("effects"@.len() == 7 && "uuid"@.len() == 4);
    assert forall|k: int| 0 <= k < m.labels@.len() implies {
        let l = #[trigger] d.labels@[k];
        &&& l.text@ == m.labels@[k].text@
        &&& l.x == m.labels@[k].position.x
        &&& l.y == m.labels@[k].position.y
        &&& l.angle == m.labels@[k].position.angle
        &&& l.shape is None
    } by {
        let lab = m.labels@[k];
        assert(vs[k] == views(ls[k]));
        assert(forms(m.labels@)[k] == lab.sexpr_form());
        let a = views(ls[k]);
        assert(a =~= seq![SExprView::Str(lab.text@), lab.position.sexpr_form()] + autoplaced(
            lab.fields_autoplaced,
        ) + opt_effects(lab.effects) + seq![uuid_v(lab.uuid@)]);
        assert(ls[k][0]@ == a[0]);
        lemma_child_from(ls[k], "at"@, 0);
        assert(args_v(a[0], "at"@) is None);
        assert(a[1] == lab.position.sexpr_form());
        assert(a[1]->List_0.subrange(1, 4) =~= seq![
            SExprView::Number(lab.position.x),
            SExprView::Number(lab.position.y),
            SExprView::Number(lab.position.angle),
        ]);
        assert(child_from_v(a, "at"@, 1) == args_v(a[1], "at"@));
        assert(child_from_v(a, "at"@, 0) == Some(seq![
            SExprView::Number(lab.position.x),
            SExprView::Number(lab.position.y),
            SExprView::Number(lab.position.angle),
        ]));
        assert(ls[k][1]@ == a[1]);
        lemma_child_from(ls[k], "shape"@, 0);
        assert forall|i: int| 0 <= i < a.len() implies args_v(#[trigger] a[i], "shape"@) is None by {}
        lemma_no_child(a, "shape"@, 0);
    }
}

proof fn lemma_no_child(xs: Seq<SExprView>, name: Seq<char>, k: int)
    requires
        0 <= k,
        forall|i: int| 0 <= i < xs.len() ==> args_v(#[trigger] xs[i], name) is None,
    ensures
        child_from_v(xs, name, k) is None,
    decreases xs.len() - k,
{
    if k < xs.len() {
        lemma_no_child(xs, name, k + 1);
    }
}

/// A wire's points read from views: the numbers of each `xy` of its first `pts`.
pub open spec fn wire_spec_v(v: Seq<SExprView>) -> Seq<(Decimal, Decimal)> {
    match child_from_v(v, "pts"@, 0) {
        Some(p) => children_v(p, "xy"@).map_values(|xy: Seq<SExprView>| (num_or_zero_v(xy, 0), num_or_zero_v(xy, 1))),
        None => Seq::empty(),
    }
}

/// Reading a wire's points reads the views only.
proof fn lemma_wire_spec_views(w: Seq<SExpr>)
    ensures
        wire_spec(w) == wire_spec_v(views(w)),
{
    lemma_child_from(w, "pts"@, 0);
    if let Some(pts) = child(w, "pts"@) {
        lemma_children(pts, "xy"@);
        let xys = children(pts, "xy"@);
        assert forall|k: int| 0 <= k < xys.len() implies (number_or_zero(arg_number(#[trigger] xys[k], 0)), number_or_zero(
            arg_number(xys[k], 1),
        )) == (num_or_zero_v(views(xys[k]), 0), num_or_zero_v(views(xys[k]), 1)) by {
            assert(xys.map_values(|a: Seq<SExpr>| views(a))[k] == views(xys[k]));
            if xys[k].len() > 0 {
                assert(views(xys[k])[0] == xys[k][0]@);
            }
            if xys[k].len() > 1 {
                assert(views(xys[k])[1] == xys[k][1]@);
            }
        }
        assert(wire_spec(w) =~= wire_spec_v(views(w)));
    }
}

pub open spec fn grid_of(w: Seq<(Decimal, Decimal)>) -> Seq<GridPoint> {
    w.map_values(|q: (Decimal, Decimal)| grid_point(q.0, q.1))
}

proof fn lemma_save_heads()
    ensures
        "wire"@ != "junction"@ && "wire"@ != "label"@ && "wire"@ != "global_label"@ && "wire"@ != "lib_symbols"@,
        "wire"@ != "symbol"@,
{
    lemma_names_differ();
}

/// The wires that the scan keeps are the edited wires it has accounted for, in order.
proof fn lemma_scan_wires(xs: Seq<SExpr>, it: SchematicItems, news: Seq<NewSymbol>)
    ensures
        0 <= scan(xs, it, news).1.0 <= it.wires@.len(),
        children_v(scan(xs, it, news).0, "wire"@).len() == scan(xs, it, news).1.0,
        forall|k: int|
            0 <= k < scan(xs, it, news).1.0 ==> grid_of(wire_spec_v(#[trigger] children_v(scan(xs, it, news).0, "wire"@)[k]))
                == it.wires@[k]@,
    decreases xs.len(),
{
    if xs.len() > 0 {
        lemma_scan_wires(xs.drop_last(), it, news);
        lemma_save_heads();
        let (k, st) = scan(xs.drop_last(), it, news);
        let x = xs.last();
        let (k2, st2) = scan(xs, it, news);
        lemma_args(x, "wire"@);
        if k2 != k {
            let v = k2.last();
            assert(k2 == k.push(v));
            assert(k.push(v).drop_last() =~= k);
            if args_of(x, "wire"@) is Some {
                let a = args_of(x, "wire"@)->Some_0;
                lemma_wire_spec_views(a);
                assert(children_v(k2, "wire"@) == children_v(k, "wire"@) + seq![views(a)]);
            } else {
                assert(!starts_with_symbol(x@, "wire"@));
                if args_of(x, "junction"@) is Some || args_of(x, "label"@) is Some || args_of(x, "global_label"@) is Some {
                    assert(v == x@);
                } else if head_is(x@, "lib_symbols"@) {
                    assert(v->List_0[0] == x@->List_0[0]);
                } else if head_is(x@, "symbol"@) && v != x@ {
                    let c = it.components@[crate::component_edit::first_with_reference(
                        it.components@,
                        item_reference(x@)->Some_0,
                        0,
                    )->Some_0];
                    assert(v->List_0[0] == with_value(x@->List_0[0], c));
                }
                assert(args_v(v, "wire"@) is None);
                assert(children_v(k2, "wire"@) =~= children_v(k, "wire"@));
            }
        }
    }
}

proof fn lemma_scan_first(xs: Seq<SExpr>, it: SchematicItems, news: Seq<NewSymbol>)
    requires
        xs.len() > 0,
        xs[0]@ is Symbol,
    ensures
        scan(xs, it, news).0.len() > 0,
        scan(xs, it, news).0[0] == xs[0]@,
    decreases xs.len(),
{
    lemma_args(xs[0], "wire"@);
    lemma_args(xs[0], "junction"@);
    lemma_args(xs[0], "label"@);
    lemma_args(xs[0], "global_label"@);
    if xs.len() == 1 {
        assert(xs.drop_last() =~= Seq::<SExpr>::empty());
        assert(xs.last() == xs[0]);
    } else {
        assert(xs.drop_last()[0] == xs[0]);
        lemma_scan_first(xs.drop_last(), it, news);
    }
}

proof fn lemma_grid_of_mm(g: GridPoint)
    ensures
        grid_point(point_of(g).x, point_of(g).y) == g,
{
    assert(crate::sexpr::pow10(0) == 1);
}

/// An added wire, read from its arguments, gives its points back.
proof fn lemma_added_wire(pts: Seq<GridPoint>, u: Seq<char>)
    ensures
        grid_of(wire_spec_v(args_v(wire_item(pts, u), "wire"@)->Some_0)) == pts,
{
    reveal_strlit("pts");
    reveal_strlit("xy");
    let points = pts.map_values(|g: GridPoint| point_of(g));
    let a = args_v(wire_item(pts, u), "wire"@)->Some_0;
    assert(a[0] == pts_v(points));
    assert(args_v(a[0], "pts"@) == Some(forms(points)));
    assert(forms(points) =~= pts_v(points)->List_0.subrange(1, pts_v(points)->List_0.len() as int));
    assert(child_from_v(a, "pts"@, 0) == Some(forms(points)));
    lemma_forms_all(points, "xy"@);
    let w = wire_spec_v(a);
    assert forall|k: int| 0 <= k < pts.len() implies #[trigger] grid_of(w)[k] == pts[k] by {
        assert(forms(points)[k] == points[k].sexpr_form());
        lemma_grid_of_mm(pts[k]);
    }
    assert(grid_of(w) =~= pts);
}

/// Saving edited items and reading the file again gives back the edited wires, wire by
/// wire, in order, on the grid: the old wires that editing kept, as they were written,
/// and after them the added ones.
#[verifier::rlimit(100)]
pub proof fn lemma_saved_wires_read_back(
    e: SExpr,
    it: SchematicItems,
    u: Seq<Seq<char>>,
    news: Seq<NewSymbol>,
    t: SExpr,
    d: SchematicData,
)
    requires
        starts_with_symbol(e@, "kicad_sch"@),
        u.len() == new_item_count(it),
        t@ == saved_tree(list_items(e), it, u, news),
        schematic_matches(d, args_of(t, "kicad_sch"@)->Some_0),
    ensures
        d.wires@.len() == it.wires@.len(),
        forall|k: int| 0 <= k < it.wires@.len() ==> grid_of((#[trigger] d.wires@[k])@) == it.wires@[k]@,
{
    lemma_save_heads();
    lemma_names_differ();
    let xs = list_items(e);
    if let SExpr::List(v) = e {
        lemma_list_views(v);
    }
    assert(views(xs)[0] == xs[0]@);
    lemma_scan_first(xs, it, news);
    lemma_scan_wires(xs, it, news);
    let (kk, st) = scan(xs, it, news);
    let ins = instance_forms(news);
    let add = added_items(it, u, st);
    let l = t@->List_0;
    assert(l == kk + ins + add);
    lemma_args(t, "kicad_sch"@);
    let items = args_of(t, "kicad_sch"@)->Some_0;
    let rest = kk.subrange(1, kk.len() as int);
    assert(views(items) =~= rest + ins + add);
    assert(kk =~= seq![kk[0]] + rest);
    lemma_children_add(seq![kk[0]], rest, "wire"@);
    assert(seq![kk[0]].drop_last() =~= Seq::<SExprView>::empty());
    assert(kk[0] == SExprView::Symbol("kicad_sch"@));
    assert(args_v(kk[0], "wire"@) is None);
    assert(seq![kk[0]].last() == kk[0]);
    assert(children_v(Seq::<SExprView>::empty(), "wire"@) =~= Seq::<Seq<SExprView>>::empty());
    assert(children_v(seq![kk[0]], "wire"@) =~= Seq::<Seq<SExprView>>::empty());
    assert(children_v(kk, "wire"@) =~= children_v(rest, "wire"@));
    assert forall|i: int| 0 <= i < ins.len() implies !starts_with_symbol(#[trigger] ins[i], "wire"@) by {
        assert(ins[i] == news[i].instance.sexpr_form());
    }
    lemma_children_none(ins, "wire"@);
    let nw = it.wires@.len() as int;
    let wpart = add.subrange(0, nw - st.0);
    let opart = add.subrange(nw - st.0, add.len() as int);
    assert(add =~= wpart + opart);
    assert forall|i: int| 0 <= i < opart.len() implies !starts_with_symbol(#[trigger] opart[i], "wire"@) by {
        assert(opart[i] == add[nw - st.0 + i]);
    }
    lemma_children_none(opart, "wire"@);
    assert forall|i: int| 0 <= i < wpart.len() implies starts_with_symbol(#[trigger] wpart[i], "wire"@) by {
        assert(wpart[i] == wire_item(it.wires@[st.0 + i]@, u[st.0 + i]));
    }
    lemma_children_all(wpart, "wire"@);
    lemma_children_add(wpart, opart, "wire"@);
    lemma_children_add(rest, ins, "wire"@);
    lemma_children_add(rest + ins, add, "wire"@);
    lemma_children(items, "wire"@);
    let ws = children(items, "wire"@);
    let cv = children_v(views(items), "wire"@);
    let z = Seq::<Seq<SExprView>>::empty();
    assert(cv == children_v(kk, "wire"@) + z + (children_v(wpart, "wire"@) + z));
    assert(cv =~= children_v(kk, "wire"@) + children_v(wpart, "wire"@));
    assert forall|k: int| 0 <= k < it.wires@.len() implies grid_of((#[trigger] d.wires@[k])@) == it.wires@[k]@ by {
        assert(ws.map_values(|a: Seq<SExpr>| views(a))[k] == views(ws[k]));
        lemma_wire_spec_views(ws[k]);
        if k < st.0 {
            assert(cv[k] == children_v(kk, "wire"@)[k]);
        } else {
            assert(cv[k] == children_v(wpart, "wire"@)[k - st.0]);
            assert(wpart[k - st.0] == wire_item(it.wires@[k]@, u[k]));
            lemma_added_wire(it.wires@[k]@, u[k]);
        }
    }
}

} // verus!
