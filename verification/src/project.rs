//! The identity of sheets as cached in a `.kicad_pro` project file, and the update of
//! that cache in the project document.
//!
//! A project document is JSON; `Json` holds it as plain values, objects as their entries
//! in order. The cache is the top-level `sheets` list (root first, each sheet as
//! `[uuid, name]`) and the single entry of `schematic.top_level_sheets`. Every other
//! field is kept as it is.

use vstd::prelude::*;

use crate::text::str_eq;

verus! {

/// One sheet's cached identity in `.kicad_pro`: its uuid and display name.
#[derive(Debug, Clone)]
pub struct ProjectSheet {
    pub uuid: String,
    pub name: String,
}

/// A JSON value. A number is held by its text.
#[derive(Debug)]
pub enum Json {
    Null,
    Bool(bool),
    Number(String),
    Str(String),
    Array(Vec<Json>),
    Object(Vec<(String, Json)>),
}

/// The mathematical value of a JSON value.
pub enum JsonView {
    Null,
    Bool(bool),
    Number(Seq<char>),
    Str(Seq<char>),
    Array(Seq<JsonView>),
    Object(Seq<(Seq<char>, JsonView)>),
}

pub open spec fn json_view(j: Json) -> JsonView
    decreases j,
{
    match j {
        Json::Null => JsonView::Null,
        Json::Bool(b) => JsonView::Bool(b),
        Json::Number(s) => JsonView::Number(s@),
        Json::Str(s) => JsonView::Str(s@),
        Json::Array(items) => JsonView::Array(
            Seq::new(
                items@.len(),
                |i: int|
                    if 0 <= i < items@.len() {
                        proof {
                            assert(decreases_to!(j => items));
                            assert(decreases_to!(items => items@));
                            assert(decreases_to!(items@ => items@[i]));
                        }
                        json_view(items@[i])
                    } else {
                        JsonView::Null
                    },
            ),
        ),
        Json::Object(entries) => JsonView::Object(
            Seq::new(
                entries@.len(),
                |i: int|
                    if 0 <= i < entries@.len() {
                        proof {
                            assert(decreases_to!(j => entries));
                            assert(decreases_to!(entries => entries@));
                            assert(decreases_to!(entries@ => entries@[i]));
                            assert(decreases_to!(entries@[i] => entries@[i].1));
                        }
                        (entries@[i].0@, json_view(entries@[i].1))
                    } else {
                        (Seq::empty(), JsonView::Null)
                    },
            ),
        ),
    }
}

impl View for Json {
    type V = JsonView;

    open spec fn view(&self) -> JsonView {
        json_view(*self)
    }
}

/// The index of the first entry at or after `i` with the key, if any.
pub open spec fn key_index_from(entries: Seq<(Seq<char>, JsonView)>, key: Seq<char>, i: int) -> Option<int>
    decreases entries.len() - i,
{
    if i < 0 || i >= entries.len() {
        None
    } else if entries[i].0 == key {
        Some(i)
    } else {
        key_index_from(entries, key, i + 1)
    }
}

/// The index of the first entry with the key, if any.
pub open spec fn key_index(entries: Seq<(Seq<char>, JsonView)>, key: Seq<char>) -> Option<int> {
    key_index_from(entries, key, 0)
}

/// The entries with `key` set to `v`: the first entry with that key takes the value in
/// place, or a new entry is added at the end.
pub open spec fn set_entry(entries: Seq<(Seq<char>, JsonView)>, key: Seq<char>, v: JsonView) -> Seq<(Seq<char>, JsonView)> {
    match key_index(entries, key) {
        Some(i) => entries.update(i, (key, v)),
        None => entries.push((key, v)),
    }
}

/// The value under `key`, or `Null` where there is none.
pub open spec fn entry_or_null(entries: Seq<(Seq<char>, JsonView)>, key: Seq<char>) -> JsonView {
    match key_index(entries, key) {
        Some(i) => entries[i].1,
        None => JsonView::Null,
    }
}

/// A value that can be indexed by key for writing: an object, or `Null`, which becomes
/// an empty object.
pub open spec fn keyed(v: JsonView) -> bool {
    v is Null || v is Object
}

/// The entries of a value that can be indexed by key.
pub open spec fn entries_of(v: JsonView) -> Seq<(Seq<char>, JsonView)> {
    match v {
        JsonView::Object(es) => es,
        _ => Seq::empty(),
    }
}

/// `[uuid, name]`.
pub open spec fn sheet_pair(s: ProjectSheet) -> JsonView {
    JsonView::Array(seq![JsonView::Str(s.uuid@), JsonView::Str(s.name@)])
}

/// The `sheets` list: the root, then the children in order.
pub open spec fn sheets_list(root: ProjectSheet, children: Seq<ProjectSheet>) -> JsonView {
    JsonView::Array(seq![sheet_pair(root)] + children.map_values(|s: ProjectSheet| sheet_pair(s)))
}

/// The `top_level_sheets` list: the root alone, with its file name.
pub open spec fn top_level_list(root_filename: Seq<char>, root: ProjectSheet) -> JsonView {
    JsonView::Array(
        seq![
            JsonView::Object(
                seq![
                    ("filename"@, JsonView::Str(root_filename)),
                    ("name"@, JsonView::Str(root.name@)),
                    ("uuid"@, JsonView::Str(root.uuid@)),
                ],
            ),
        ],
    )
}

/// The document can take the update: it is an object (or `Null`), and so is its
/// `schematic` entry where there is one.
pub open spec fn project_doc_editable(doc: JsonView) -> bool {
    keyed(doc) && keyed(entry_or_null(entries_of(doc), "schematic"@))
}

/// The document with `sheets` set to the root and children, and
/// `schematic.top_level_sheets` set to the root alone.
pub open spec fn project_doc_updated(
    doc: JsonView,
    root_filename: Seq<char>,
    root: ProjectSheet,
    children: Seq<ProjectSheet>,
) -> JsonView {
    let with_sheets = set_entry(entries_of(doc), "sheets"@, sheets_list(root, children));
    let schematic = entries_of(entry_or_null(with_sheets, "schematic"@));
    JsonView::Object(
        set_entry(
            with_sheets,
            "schematic"@,
            JsonView::Object(set_entry(schematic, "top_level_sheets"@, top_level_list(root_filename, root))),
        ),
    )
}

/// The entries of an object, by their views.
pub open spec fn entries_view(es: Seq<(String, Json)>) -> Seq<(Seq<char>, JsonView)> {
    Seq::new(es.len(), |i: int| (es[i].0@, json_view(es[i].1)))
}

proof fn lemma_object_view(es: Vec<(String, Json)>)
    ensures
        json_view(Json::Object(es)) == JsonView::Object(entries_view(es@)),
{
    if let JsonView::Object(v) = json_view(Json::Object(es)) {
        assert(v =~= entries_view(es@));
    }
}

proof fn lemma_array_view(items: Vec<Json>)
    ensures
        json_view(Json::Array(items)) == JsonView::Array(items@.map_values(|j: Json| j@)),
{
    if let JsonView::Array(v) = json_view(Json::Array(items)) {
        assert(v =~= items@.map_values(|j: Json| j@));
    }
}

proof fn lemma_key_found(entries: Seq<(Seq<char>, JsonView)>, key: Seq<char>, i: int)
    requires
        0 <= i,
    ensures
        key_index_from(entries, key, i) matches Some(k) ==> i <= k < entries.len() && entries[k].0 == key,
    decreases entries.len() - i,
{
    if i < entries.len() && entries[i].0 != key {
        lemma_key_found(entries, key, i + 1);
    }
}

/// Setting one key leaves where another is found, and what it holds, unchanged.
proof fn lemma_set_other(es: Seq<(Seq<char>, JsonView)>, k1: Seq<char>, v: JsonView, k2: Seq<char>)
    requires
        k1 != k2,
    ensures
        entry_or_null(set_entry(es, k1, v), k2) == entry_or_null(es, k2),
{
    lemma_key_found(es, k1, 0);
    lemma_key_found(es, k2, 0);
    lemma_set_other_index(es, k1, v, k2, 0);
}

proof fn lemma_set_other_index(es: Seq<(Seq<char>, JsonView)>, k1: Seq<char>, v: JsonView, k2: Seq<char>, i: int)
    requires
        k1 != k2,
        0 <= i,
    ensures
        key_index_from(set_entry(es, k1, v), k2, i) == key_index_from(es, k2, i),
    decreases es.len() + 1 - i,
{
    lemma_key_found(es, k1, 0);
    let n = set_entry(es, k1, v);
    if i < n.len() {
        lemma_set_other_index(es, k1, v, k2, i + 1);
    }
}

/// The index of the first entry with the key.
fn find_key(es: &Vec<(String, Json)>, key: &str) -> (r: Option<usize>)
    ensures
        match r {
            Some(k) => key_index(entries_view(es@), key@) == Some(k as int) && k < es@.len(),
            None => key_index(entries_view(es@), key@) is None,
        },
{
    let ghost ev = entries_view(es@);
    let mut k: usize = 0;
    while k < es.len()
        invariant
            k <= es@.len(),
            ev == entries_view(es@),
            key_index(ev, key@) == key_index_from(ev, key@, k as int),
        decreases es@.len() - k,
    {
        if str_eq(es[k].0.as_str(), key) {
            return Some(k);
        }
        k = k + 1;
    }
    None
}

/// Set `key` to `v`: in place where the key is there, else as a new entry at the end.
fn set_key(es: &mut Vec<(String, Json)>, key: &str, v: Json)
    ensures
        entries_view(final(es)@) == set_entry(entries_view(old(es)@), key@, v@),
{
    match find_key(es, key) {
        Some(i) => {
            let _old = es.remove(i);
            es.insert(i, (String::from_str(key), v));
            assert(entries_view(es@) =~= set_entry(entries_view(old(es)@), key@, v@));
        },
        None => {
            es.push((String::from_str(key), v));
            assert(entries_view(es@) =~= set_entry(entries_view(old(es)@), key@, v@));
        },
    }
}

/// Take the entries of a value that can be indexed by key.
fn into_entries(v: Json) -> (r: Vec<(String, Json)>)
    requires
        keyed(v@),
    ensures
        entries_view(r@) == entries_of(v@),
{
    match v {
        Json::Object(es) => {
            proof {
                lemma_object_view(es);
            }
            es
        },
        _ => {
            let r: Vec<(String, Json)> = Vec::new();
            assert(entries_view(r@) =~= Seq::empty());
            r
        },
    }
}

fn object_of(es: Vec<(String, Json)>) -> (r: Json)
    ensures
        r@ == JsonView::Object(entries_view(es@)),
{
    proof {
        lemma_object_view(es);
    }
    Json::Object(es)
}

fn str_json(s: &str) -> (r: Json)
    ensures
        r@ == JsonView::Str(s@),
{
    Json::Str(String::from_str(s))
}

fn array_of(items: Vec<Json>) -> (r: Json)
    ensures
        r@ == JsonView::Array(items@.map_values(|j: Json| j@)),
{
    proof {
        lemma_array_view(items);
    }
    Json::Array(items)
}

fn pair_json(s: &ProjectSheet) -> (r: Json)
    ensures
        r@ == sheet_pair(*s),
{
    let mut items: Vec<Json> = Vec::new();
    items.push(str_json(s.uuid.as_str()));
    items.push(str_json(s.name.as_str()));
    let r = array_of(items);
    assert(items@.map_values(|j: Json| j@) =~= seq![JsonView::Str(s.uuid@), JsonView::Str(s.name@)]);
    r
}

fn sheets_json(root: &ProjectSheet, children: &Vec<ProjectSheet>) -> (r: Json)
    ensures
        r@ == sheets_list(*root, children@),
{
    let mut items: Vec<Json> = Vec::new();
    items.push(pair_json(root));
    let mut k: usize = 0;
    while k < children.len()
        invariant
            k <= children@.len(),
            items@.map_values(|j: Json| j@) == seq![sheet_pair(*root)] + children@.take(k as int).map_values(
                |s: ProjectSheet| sheet_pair(s),
            ),
        decreases children@.len() - k,
    {
        let ghost prev = items@;
        let x = pair_json(&children[k]);
        items.push(x);
        assert(items@.map_values(|j: Json| j@) =~= prev.map_values(|j: Json| j@).push(x@));
        assert(children@.take(k + 1).map_values(|s: ProjectSheet| sheet_pair(s)) =~= children@.take(
            k as int,
        ).map_values(|s: ProjectSheet| sheet_pair(s)).push(sheet_pair(children@[k as int])));
        assert(items@.map_values(|j: Json| j@) =~= seq![sheet_pair(*root)] + children@.take(k + 1).map_values(
            |s: ProjectSheet| sheet_pair(s),
        ));
        k = k + 1;
    }
    assert(children@.take(children@.len() as int) == children@);
    array_of(items)
}

fn top_level_json(root_filename: &str, root: &ProjectSheet) -> (r: Json)
    ensures
        r@ == top_level_list(root_filename@, *root),
{
    let mut es: Vec<(String, Json)> = Vec::new();
    es.push((String::from_str("filename"), str_json(root_filename)));
    es.push((String::from_str("name"), str_json(root.name.as_str())));
    es.push((String::from_str("uuid"), str_json(root.uuid.as_str())));
    let entry = object_of(es);
    assert(entries_view(es@) =~= seq![
        ("filename"@, JsonView::Str(root_filename@)),
        ("name"@, JsonView::Str(root.name@)),
        ("uuid"@, JsonView::Str(root.uuid@)),
    ]);
    let mut items: Vec<Json> = Vec::new();
    items.push(entry);
    let r = array_of(items);
    assert(items@.map_values(|j: Json| j@) =~= seq![entry@]);
    r
}

/// A `schematic` object with `top_level_sheets` set to the root alone.
fn with_top_level(v: Json, root_filename: &str, root: &ProjectSheet) -> (r: Json)
    requires
        keyed(v@),
    ensures
        r@ == JsonView::Object(set_entry(entries_of(v@), "top_level_sheets"@, top_level_list(root_filename@, *root))),
{
    let mut inner = into_entries(v);
    set_key(&mut inner, "top_level_sheets", top_level_json(root_filename, root));
    object_of(inner)
}

/// Whether the document can take the update of its sheet cache.
pub fn is_project_doc_editable(doc: &Json) -> (r: bool)
    ensures
        r == project_doc_editable(doc@),
{
    match doc {
        Json::Null => true,
        Json::Object(es) => {
            proof {
                lemma_object_view(*es);
            }
            match find_key(es, "schematic") {
                Some(i) => match &es[i].1 {
                    Json::Null => true,
                    Json::Object(_) => true,
                    _ => false,
                },
                None => true,
            }
        },
        _ => false,
    }
}

/// Set the document's `sheets` list to the root followed by the children, each as
/// `[uuid, name]`, and its `schematic.top_level_sheets` to the root alone, with its file
/// name; every other field stays as it is.
pub fn project_with_sheets(doc: Json, root_filename: &str, root: &ProjectSheet, children: &Vec<ProjectSheet>) -> (r: Json)
    requires
        project_doc_editable(doc@),
    ensures
        r@ == project_doc_updated(doc@, root_filename@, *root, children@),
{
    let ghost d = doc@;
    let mut es = into_entries(doc);
    set_key(&mut es, "sheets", sheets_json(root, children));
    let ghost with_sheets = entries_view(es@);
    assert(with_sheets == set_entry(entries_of(d), "sheets"@, sheets_list(*root, children@)));
    proof {
        reveal_strlit("sheets");
        reveal_strlit("schematic");
        assert("sheets"@.len() != "schematic"@.len());
        lemma_set_other(entries_of(d), "sheets"@, sheets_list(*root, children@), "schematic"@);
        lemma_key_found(with_sheets, "schematic"@, 0);
    }
    match find_key(&es, "schematic") {
        Some(i) => {
            let (_k, v) = es.remove(i);
            es.insert(i, (String::from_str("schematic"), with_top_level(v, root_filename, root)));
            assert(entries_view(es@) =~= project_doc_updated(d, root_filename@, *root, children@)->Object_0);
        },
        None => {
            es.push((String::from_str("schematic"), with_top_level(Json::Null, root_filename, root)));
            assert(entries_view(es@) =~= project_doc_updated(d, root_filename@, *root, children@)->Object_0);
        },
    }
    object_of(es)
}

proof fn lemma_set_same_index(es: Seq<(Seq<char>, JsonView)>, k: Seq<char>, v: JsonView, i: int)
    requires
        0 <= i,
        key_index_from(es, k, i) is None || key_index_from(es, k, i) == key_index(es, k),
    ensures
        key_index_from(set_entry(es, k, v), k, i) == match key_index(es, k) {
            Some(j) => if i <= j { Some(j) } else { None },
            None => if i <= es.len() { Some(es.len() as int) } else { None },
        },
    decreases es.len() + 1 - i,
{
    lemma_key_found(es, k, 0);
    lemma_key_found(es, k, i);
    let n = set_entry(es, k, v);
    if i < n.len() && n[i].0 != k {
        lemma_set_same_index(es, k, v, i + 1);
    }
}

/// Reading a key just set gives the value it was set to.
proof fn lemma_set_same(es: Seq<(Seq<char>, JsonView)>, k: Seq<char>, v: JsonView)
    ensures
        entry_or_null(set_entry(es, k, v), k) == v,
{
    lemma_key_found(es, k, 0);
    lemma_set_same_index(es, k, v, 0);
}

/// After the update the document's `sheets` list is the root followed by the children,
/// `schematic.top_level_sheets` is the root alone, and every other top-level field holds
/// what it held before.
pub proof fn lemma_project_update(
    doc: JsonView,
    root_filename: Seq<char>,
    root: ProjectSheet,
    children: Seq<ProjectSheet>,
    key: Seq<char>,
)
    requires
        project_doc_editable(doc),
    ensures
        ({
            let r = entries_of(project_doc_updated(doc, root_filename, root, children));
            &&& entry_or_null(r, "sheets"@) == sheets_list(root, children)
            &&& entry_or_null(entries_of(entry_or_null(r, "schematic"@)), "top_level_sheets"@) == top_level_list(
                root_filename,
                root,
            )
            &&& (key != "sheets"@ && key != "schematic"@ ==> entry_or_null(r, key) == entry_or_null(entries_of(doc), key))
        }),
{
    reveal_strlit("sheets");
    reveal_strlit("schematic");
    assert("sheets"@.len() != "schematic"@.len());
    let s1 = set_entry(entries_of(doc), "sheets"@, sheets_list(root, children));
    let sch = entries_of(entry_or_null(s1, "schematic"@));
    let inner = JsonView::Object(set_entry(sch, "top_level_sheets"@, top_level_list(root_filename, root)));
    lemma_set_same(entries_of(doc), "sheets"@, sheets_list(root, children));
    lemma_set_other(s1, "schematic"@, inner, "sheets"@);
    lemma_set_same(s1, "schematic"@, inner);
    lemma_set_same(sch, "top_level_sheets"@, top_level_list(root_filename, root));
    if key != "sheets"@ && key != "schematic"@ {
        lemma_set_other(entries_of(doc), "sheets"@, sheets_list(root, children), key);
        lemma_set_other(s1, "schematic"@, inner, key);
    }
}

} // verus!
