//! The RFC index as the MCP tools read it.
use vstd::prelude::*;

use crate::json::{array, items_view, fields_view, object, push_field, push_item, same_text, Json, JsonV};

verus! {

/// One RFC as the index lists it.
#[derive(Debug)]
pub struct IndexEntry {
    pub number: String,
    pub title: String,
    pub status: String,
    pub dependencies: Vec<String>,
    pub superseded_by: Option<String>,
    pub links: Vec<String>,
}

pub struct IndexEntryV {
    pub number: Seq<char>,
    pub title: Seq<char>,
    pub status: Seq<char>,
    pub dependencies: Seq<Seq<char>>,
    pub superseded_by: Option<Seq<char>>,
    pub links: Seq<Seq<char>>,
}

/// Texts, each by its characters.
pub open spec fn texts_view(v: Seq<String>) -> Seq<Seq<char>> {
    Seq::new(v.len(), |i: int| v[i]@)
}

pub open spec fn opt_text_view(v: Option<String>) -> Option<Seq<char>> {
    match v {
        Some(s) => Some(s@),
        None => None,
    }
}

impl View for IndexEntry {
    type V = IndexEntryV;

    open spec fn view(&self) -> IndexEntryV {
        IndexEntryV {
            number: self.number@,
            title: self.title@,
            status: self.status@,
            dependencies: texts_view(self.dependencies@),
            superseded_by: opt_text_view(self.superseded_by),
            links: texts_view(self.links@),
        }
    }
}

/// The index: every RFC of the project, in index order.
#[derive(Debug)]
pub struct Index {
    pub rfcs: Vec<IndexEntry>,
}

pub struct IndexV {
    pub rfcs: Seq<IndexEntryV>,
}

pub open spec fn entries_view(v: Seq<IndexEntry>) -> Seq<IndexEntryV> {
    Seq::new(v.len(), |i: int| v[i]@)
}

impl View for Index {
    type V = IndexV;

    open spec fn view(&self) -> IndexV {
        IndexV { rfcs: entries_view(self.rfcs@) }
    }
}

impl Index {
    /// An index that lists no RFC.
    pub fn empty() -> (r: Index)
        ensures
            r@.rfcs.len() == 0,
    {
        Index { rfcs: Vec::new() }
    }
}

/// An array of JSON strings.
pub open spec fn text_array(v: Seq<Seq<char>>) -> JsonV {
    JsonV::Array(Seq::new(v.len(), |i: int| JsonV::Str(v[i])))
}

/// What `list_rfcs` reports of an RFC.
pub open spec fn entry_json(e: IndexEntryV) -> JsonV {
    JsonV::Object(
        seq![
            ("number"@, JsonV::Str(e.number)),
            ("title"@, JsonV::Str(e.title)),
            ("status"@, JsonV::Str(e.status)),
            ("dependencies"@, text_array(e.dependencies)),
            (
                "superseded_by"@,
                match e.superseded_by {
                    Some(s) => JsonV::Str(s),
                    None => JsonV::Null,
                },
            ),
            ("links"@, text_array(e.links)),
        ],
    )
}

/// What a dependency listing reports of an RFC.
pub open spec fn dependency_json(e: IndexEntryV) -> JsonV {
    JsonV::Object(
        seq![
            ("number"@, JsonV::Str(e.number)),
            ("title"@, JsonV::Str(e.title)),
            ("status"@, JsonV::Str(e.status)),
        ],
    )
}

/// The position of the first RFC from `i` on whose number is `number`.
pub open spec fn find_from(entries: Seq<IndexEntryV>, number: Seq<char>, i: int) -> Option<int>
    decreases entries.len() - i,
{
    if i < 0 || i >= entries.len() {
        None
    } else if entries[i].number == number {
        Some(i)
    } else {
        find_from(entries, number, i + 1)
    }
}

/// The position of the first RFC whose number is `number`.
pub open spec fn find_entry(entries: Seq<IndexEntryV>, number: Seq<char>) -> Option<int> {
    find_from(entries, number, 0)
}

pub proof fn lemma_find_from(entries: Seq<IndexEntryV>, number: Seq<char>, i: int)
    requires
        0 <= i,
    ensures
        find_from(entries, number, i) matches Some(k) ==> i <= k < entries.len()
            && entries[k].number == number && forall|j: int|
            i <= j < k ==> entries[j].number != number,
        find_from(entries, number, i) is None ==> forall|j: int|
            i <= j < entries.len() ==> entries[j].number != number,
    decreases entries.len() - i,
{
    if i < entries.len() && entries[i].number != number {
        lemma_find_from(entries, number, i + 1);
    }
}

/// A JSON array of the given texts.
pub fn texts_to_json(v: &Vec<String>) -> (r: Json)
    ensures
        r@ == text_array(texts_view(v@)),
{
    let mut items: Vec<Json> = Vec::new();
    let mut i: usize = 0;
    while i < v.len()
        invariant
            0 <= i <= v.len(),
            items_view(items@) == Seq::new(i as nat, |k: int| JsonV::Str(v@[k]@)),
        decreases v.len() - i,
    {
        push_item(&mut items, Json::Str(v[i].clone()));
        assert(items_view(items@) =~= Seq::new((i + 1) as nat, |k: int| JsonV::Str(v@[k]@)));
        i = i + 1;
    }
    assert(text_array(texts_view(v@)) == JsonV::Array(
        Seq::new(i as nat, |k: int| JsonV::Str(v@[k]@)),
    )) by {
        assert(Seq::new(texts_view(v@).len(), |k: int| JsonV::Str(texts_view(v@)[k]))
            =~= Seq::new(i as nat, |k: int| JsonV::Str(v@[k]@)));
    }
    array(items)
}

pub fn index_entry_to_json(entry: &IndexEntry) -> (r: Json)
    ensures
        r@ == entry_json(entry@),
{
    let mut f: Vec<(String, Json)> = Vec::new();
    push_field(&mut f, "number", Json::Str(entry.number.clone()));
    push_field(&mut f, "title", Json::Str(entry.title.clone()));
    push_field(&mut f, "status", Json::Str(entry.status.clone()));
    push_field(&mut f, "dependencies", texts_to_json(&entry.dependencies));
    let sup = match &entry.superseded_by {
        Some(s) => Json::Str(s.clone()),
        None => Json::Null,
    };
    push_field(&mut f, "superseded_by", sup);
    push_field(&mut f, "links", texts_to_json(&entry.links));
    let r = object(f);
    assert(fields_view(f@) =~= entry_json(entry@)->Object_0);
    r
}

pub fn index_entry_to_dependency_json(entry: &IndexEntry) -> (r: Json)
    ensures
        r@ == dependency_json(entry@),
{
    let mut f: Vec<(String, Json)> = Vec::new();
    push_field(&mut f, "number", Json::Str(entry.number.clone()));
    push_field(&mut f, "title", Json::Str(entry.title.clone()));
    push_field(&mut f, "status", Json::Str(entry.status.clone()));
    let r = object(f);
    assert(fields_view(f@) =~= dependency_json(entry@)->Object_0);
    r
}

/// The position of the first RFC numbered `number`.
pub fn find_entry_index(entries: &Vec<IndexEntry>, number: &str) -> (r: Option<usize>)
    ensures
        match r {
            Some(k) => find_entry(entries_view(entries@), number@) == Some(k as int),
            None => find_entry(entries_view(entries@), number@) is None,
        },
{
    let ghost ev = entries_view(entries@);
    let mut i: usize = 0;
    while i < entries.len()
        invariant
            0 <= i <= entries.len(),
            ev == entries_view(entries@),
            find_entry(ev, number@) == find_from(ev, number@, i as int),
        decreases entries.len() - i,
    {
        if same_text(entries[i].number.as_str(), number) {
            return Some(i);
        }
        i = i + 1;
    }
    None
}

} // verus!
