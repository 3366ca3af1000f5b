use vstd::prelude::*;

verus! {

broadcast use vstd::std_specs::vec::group_vec_axioms;

/// A JSON document as the server reads and writes it. Numbers keep their
/// textual form, since the server never computes with them.
#[derive(Debug)]
pub enum Json {
    Null,
    Bool(bool),
    Number(String),
    Str(String),
    Array(Vec<Json>),
    Object(Vec<(String, Json)>),
}

/// The mathematical model of a JSON document.
pub enum JsonV {
    Null,
    Bool(bool),
    Number(Seq<char>),
    Str(Seq<char>),
    Array(Seq<JsonV>),
    Object(Seq<(Seq<char>, JsonV)>),
}

/// The model of a document: each string by its characters, each array and
/// object by the models of its parts, in order.
pub open spec fn json_view(value: Json) -> JsonV
    decreases value,
{
    match value {
        Json::Null => JsonV::Null,
        Json::Bool(b) => JsonV::Bool(b),
        Json::Number(n) => JsonV::Number(n@),
        Json::Str(s) => JsonV::Str(s@),
        Json::Array(items) => JsonV::Array(
            Seq::new(
                items@.len(),
                |i: int|
                    if 0 <= i < items@.len() {
                        json_view(items@[i])
                    } else {
                        JsonV::Null
                    },
            ),
        ),
        Json::Object(fields) => JsonV::Object(
            Seq::new(
                fields@.len(),
                |i: int|
                    if 0 <= i < fields@.len() {
                        (fields@[i].0@, json_view(fields@[i].1))
                    } else {
                        (Seq::empty(), JsonV::Null)
                    },
            ),
        ),
    }
}

impl View for Json {
    type V = JsonV;

    open spec fn view(&self) -> JsonV {
        json_view(*self)
    }
}

/// The fields of an object, each taken by its view.
pub open spec fn fields_view(fields: Seq<(String, Json)>) -> Seq<(Seq<char>, JsonV)> {
    Seq::new(fields.len(), |i: int| (fields[i].0@, fields[i].1@))
}

/// The items of an array, each taken by its view.
pub open spec fn items_view(items: Seq<Json>) -> Seq<JsonV> {
    Seq::new(items.len(), |i: int| items[i]@)
}

/// The value of the first field named `key`, as `serde_json`'s map lookup
/// finds the only one.
pub open spec fn lookup(fields: Seq<(Seq<char>, JsonV)>, key: Seq<char>) -> Option<JsonV>
    decreases fields.len(),
{
    if fields.len() == 0 {
        None
    } else {
        match lookup(fields.drop_last(), key) {
            Some(v) => Some(v),
            None => if fields.last().0 == key {
                Some(fields.last().1)
            } else {
                None
            },
        }
    }
}

/// `value.get(key)`: the field of an object; nothing for any other value.
pub open spec fn get_field(value: JsonV, key: Seq<char>) -> Option<JsonV> {
    match value {
        JsonV::Object(fields) => lookup(fields, key),
        _ => None,
    }
}

/// `value.as_str()`.
pub open spec fn str_of(value: JsonV) -> Option<Seq<char>> {
    match value {
        JsonV::Str(s) => Some(s),
        _ => None,
    }
}

pub proof fn lemma_object_view(fields: Vec<(String, Json)>)
    ensures
        Json::Object(fields)@ == JsonV::Object(fields_view(fields@)),
{
    let s = Json::Object(fields)@->Object_0;
    assert forall|i: int| 0 <= i < s.len() implies s[i] == fields_view(fields@)[i] by {}
    assert(s =~= fields_view(fields@));
}

pub proof fn lemma_array_view(items: Vec<Json>)
    ensures
        Json::Array(items)@ == JsonV::Array(items_view(items@)),
{
    let v = Json::Array(items)@;
    match v {
        JsonV::Array(s) => {
            assert(s =~= items_view(items@));
        },
        _ => {},
    }
}

/// Once a prefix of the fields holds the key, the whole object answers
/// with that field.
pub proof fn lemma_lookup_prefix(fields: Seq<(Seq<char>, JsonV)>, key: Seq<char>, n: int)
    requires
        0 <= n <= fields.len(),
        lookup(fields.take(n), key) is Some,
    ensures
        lookup(fields, key) == lookup(fields.take(n), key),
    decreases fields.len(),
{
    if n == fields.len() {
        assert(fields.take(n) =~= fields);
    } else {
        assert(fields.drop_last().take(n) =~= fields.take(n));
        lemma_lookup_prefix(fields.drop_last(), key, n);
    }
}

/// An object that names no field twice.
pub open spec fn distinct_keys(fields: Seq<(Seq<char>, JsonV)>) -> bool {
    forall|i: int, j: int| 0 <= i < j < fields.len() ==> fields[i].0 != fields[j].0
}

/// Where no field is named `key`, the lookup finds nothing.
pub proof fn lemma_lookup_absent(fields: Seq<(Seq<char>, JsonV)>, key: Seq<char>)
    requires
        forall|j: int| 0 <= j < fields.len() ==> fields[j].0 != key,
    ensures
        lookup(fields, key) is None,
    decreases fields.len(),
{
    if fields.len() > 0 {
        lemma_lookup_absent(fields.drop_last(), key);
    }
}

/// The lookup finds the first field named `key`.
pub proof fn lemma_lookup_first(fields: Seq<(Seq<char>, JsonV)>, key: Seq<char>, i: int)
    requires
        0 <= i < fields.len(),
        fields[i].0 == key,
        forall|j: int| 0 <= j < i ==> fields[j].0 != key,
    ensures
        lookup(fields, key) == Some(fields[i].1),
    decreases fields.len(),
{
    let p = fields.drop_last();
    if i < fields.len() - 1 {
        lemma_lookup_first(p, key, i);
    } else {
        lemma_lookup_absent(p, key);
    }
}

/// In an object that names no field twice, each field is found by its name.
pub proof fn lemma_lookup_distinct(fields: Seq<(Seq<char>, JsonV)>, i: int)
    requires
        distinct_keys(fields),
        0 <= i < fields.len(),
    ensures
        lookup(fields, fields[i].0) == Some(fields[i].1),
{
    lemma_lookup_first(fields, fields[i].0, i);
}

/// Whether two texts are equal.
pub fn same_text(a: &str, b: &str) -> (r: bool)
    ensures
        r == (a@ == b@),
{
    let x = a.to_owned();
    let y = b.to_owned();
    x == y
}

impl Json {
    /// The field `key` of an object (`None` for any other value).
    pub fn get(&self, key: &str) -> (r: Option<&Json>)
        ensures
            match r {
                Some(v) => get_field(self@, key@) == Some(v@),
                None => get_field(self@, key@) is None,
            },
    {
        match self {
            Json::Object(fields) => {
                proof {
                    lemma_object_view(*fields);
                }
                lookup_field(fields, key)
            },
            _ => None,
        }
    }

    /// `as_str`
    pub fn as_text(&self) -> (r: Option<&String>)
        ensures
            match r {
                Some(s) => str_of(self@) == Some(s@),
                None => str_of(self@) is None,
            },
    {
        match self {
            Json::Str(s) => Some(s),
            _ => None,
        }
    }

    /// A copy of the document.
    pub fn deep_copy(&self) -> (r: Json)
        ensures
            r@ == self@,
        decreases self,
    {
        match self {
            Json::Null => Json::Null,
            Json::Bool(b) => Json::Bool(*b),
            Json::Number(n) => Json::Number(n.clone()),
            Json::Str(s) => Json::Str(s.clone()),
            Json::Array(items) => {
                let mut out: Vec<Json> = Vec::new();
                let mut i: usize = 0;
                assert(decreases_to!(*self => *items));
                while i < items.len()
                    invariant
                        decreases_to!(*self => *items),
                        0 <= i <= items.len(),
                        out@.len() == i,
                        forall|j: int| 0 <= j < i ==> (#[trigger] out@[j])@ == items@[j]@,
                    decreases items.len() - i,
                {
                    proof {
                        assert(decreases_to!(*items => items[i as int]));
                    }
                    let c = items[i].deep_copy();
                    out.push(c);
                    i = i + 1;
                }
                proof {
                    lemma_array_view(out);
                    lemma_array_view(*items);
                    assert(items_view(out@) =~= items_view(items@));
                }
                Json::Array(out)
            },
            Json::Object(fields) => {
                let mut out: Vec<(String, Json)> = Vec::new();
                let mut i: usize = 0;
                assert(decreases_to!(*self => *fields));
                while i < fields.len()
                    invariant
                        decreases_to!(*self => *fields),
                        0 <= i <= fields.len(),
                        out@.len() == i,
                        forall|j: int|
                            0 <= j < i ==> (#[trigger] out@[j]).0@ == fields@[j].0@ && out@[j].1@
                                == fields@[j].1@,
                    decreases fields.len() - i,
                {
                    proof {
                        assert(decreases_to!(*fields => fields[i as int]));
                    }
                    let k = fields[i].0.clone();
                    let v = fields[i].1.deep_copy();
                    out.push((k, v));
                    i = i + 1;
                }
                proof {
                    lemma_object_view(out);
                    lemma_object_view(*fields);
                    assert(fields_view(out@) =~= fields_view(fields@));
                }
                Json::Object(out)
            },
        }
    }
}

/// The value of the first field named `key`.
pub fn lookup_field<'a>(fields: &'a Vec<(String, Json)>, key: &str) -> (r: Option<&'a Json>)
    ensures
        match r {
            Some(v) => lookup(fields_view(fields@), key@) == Some(v@),
            None => lookup(fields_view(fields@), key@) is None,
        },
{
    let ghost fv = fields_view(fields@);
    let mut i: usize = 0;
    while i < fields.len()
        invariant
            0 <= i <= fields.len(),
            fv == fields_view(fields@),
            lookup(fv.take(i as int), key@) is None,
        decreases fields.len() - i,
    {
        let ghost prefix = fv.take(i as int + 1);
        assert(prefix.drop_last() =~= fv.take(i as int));
        if same_text(fields[i].0.as_str(), key) {
            proof {
                lemma_lookup_prefix(fv, key@, i as int + 1);
            }
            return Some(&fields[i].1);
        }
        i = i + 1;
    }
    assert(fv.take(i as int) =~= fv);
    None
}

/// A JSON string.
pub fn text(s: &str) -> (r: Json)
    ensures
        r@ == JsonV::Str(s@),
{
    Json::Str(s.to_owned())
}

/// An object made of the given fields, in order.
pub fn object(fields: Vec<(String, Json)>) -> (r: Json)
    ensures
        r@ == JsonV::Object(fields_view(fields@)),
{
    proof {
        lemma_object_view(fields);
    }
    Json::Object(fields)
}

/// An array made of the given items, in order.
pub fn array(items: Vec<Json>) -> (r: Json)
    ensures
        r@ == JsonV::Array(items_view(items@)),
{
    proof {
        lemma_array_view(items);
    }
    Json::Array(items)
}

/// Appends the field `key: value`.
pub fn push_field(fields: &mut Vec<(String, Json)>, key: &str, value: Json)
    ensures
        fields_view(final(fields)@) == fields_view(old(fields)@).push((key@, value@)),
{
    fields.push((key.to_owned(), value));
    assert(fields_view(fields@) =~= fields_view(old(fields)@).push((key@, value@)));
}

/// Appends an item.
pub fn push_item(items: &mut Vec<Json>, value: Json)
    ensures
        items_view(final(items)@) == items_view(old(items)@).push(value@),
{
    items.push(value);
    assert(items_view(items@) =~= items_view(old(items)@).push(value@));
}

} // verus!
