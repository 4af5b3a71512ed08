//! A JSON document as the crawler reads it.

use vstd::prelude::*;

verus! {

/// The mathematical value of a JSON document.
pub enum JsonV {
    Null,
    Bool(bool),
    Num(Seq<char>),
    Str(Seq<char>),
    Arr(Seq<JsonV>),
    Obj(Seq<(Seq<char>, JsonV)>),
}

/// A decoded JSON document. Numbers keep their decimal text; objects keep
/// their members in document order.
#[derive(Debug)]
pub enum Json {
    Null,
    Bool(bool),
    Number(String),
    String(String),
    Array(Vec<Json>),
    Object(Vec<(String, Json)>),
}

/// Members from their names and values, position by position.
pub open spec fn pair_up(keys: Seq<Seq<char>>, vals: Seq<JsonV>) -> Seq<(Seq<char>, JsonV)> {
    Seq::new(keys.len(), |i: int| (keys[i], vals[i]))
}

impl View for Json {
    type V = JsonV;

    open spec fn view(&self) -> JsonV
        decreases self,
    {
        match self {
            Json::Null => JsonV::Null,
            Json::Bool(b) => JsonV::Bool(*b),
            Json::Number(n) => JsonV::Num(n@),
            Json::String(s) => JsonV::Str(s@),
            Json::Array(items) => JsonV::Arr(
                Seq::new(
                    items.len() as nat,
                    |i: int|
                        if 0 <= i < items.len() {
                            items[i].view()
                        } else {
                            JsonV::Null
                        },
                ),
            ),
            Json::Object(entries) => JsonV::Obj(
                pair_up(
                    Seq::new(entries.len() as nat, |i: int| entries[i].0@),
                    Seq::new(
                        entries.len() as nat,
                        |i: int|
                            if 0 <= i < entries.len() {
                                entries[i].1.view()
                            } else {
                                JsonV::Null
                            },
                    ),
                ),
            ),
        }
    }
}

/// The members of an object, as mathematical values.
pub open spec fn members_view(entries: Seq<(String, Json)>) -> Seq<(Seq<char>, JsonV)> {
    entries.map_values(|e: (String, Json)| (e.0@, e.1@))
}

/// The items of an array, as mathematical values.
pub open spec fn items_view(items: Seq<Json>) -> Seq<JsonV> {
    items.map_values(|j: Json| j@)
}

/// The position of the first member named `key`, or -1 where there is none.
pub open spec fn key_index<V>(members: Seq<(Seq<char>, V)>, key: Seq<char>) -> int
    decreases members.len(),
{
    if members.len() == 0 {
        -1
    } else if members[0].0 == key {
        0
    } else {
        let r = key_index(members.drop_first(), key);
        if r < 0 {
            -1
        } else {
            r + 1
        }
    }
}

/// The value of the first member named `key`, if any.
pub open spec fn obj_get(members: Seq<(Seq<char>, JsonV)>, key: Seq<char>) -> Option<JsonV> {
    let i = key_index(members, key);
    if i >= 0 {
        Some(members[i].1)
    } else {
        None
    }
}

/// The text of the first member named `key`, where that member is a string.
pub open spec fn obj_get_str(members: Seq<(Seq<char>, JsonV)>, key: Seq<char>) -> Option<Seq<char>> {
    match obj_get(members, key) {
        Some(JsonV::Str(s)) => Some(s),
        _ => None,
    }
}

pub proof fn lemma_object_view(j: &Json, entries: &Vec<(String, Json)>)
    requires
        *j == Json::Object(*entries),
    ensures
        j@ == JsonV::Obj(members_view(entries@)),
{
    assert(j@->Obj_0.len() == entries@.len());
    assert forall|i: int| 0 <= i < entries@.len() implies #[trigger] j@->Obj_0[i] == members_view(
        entries@,
    )[i] by {
        let e = entries@[i];
        assert(j@->Obj_0[i] == (e.0@, e.1@));
    }
    assert(j@->Obj_0 =~= members_view(entries@));
}

pub proof fn lemma_array_view(j: &Json, items: &Vec<Json>)
    requires
        *j == Json::Array(*items),
    ensures
        j@ == JsonV::Arr(items_view(items@)),
{
    assert(j@->Arr_0 =~= items_view(items@));
}

/// `key_index` is the first position whose name is `key`.
pub proof fn lemma_key_index<V>(members: Seq<(Seq<char>, V)>, key: Seq<char>, i: int)
    requires
        0 <= i <= members.len(),
        forall|k: int| 0 <= k < i ==> members[k].0 != key,
        i == members.len() || members[i].0 == key,
    ensures
        key_index(members, key) == if i == members.len() {
            -1
        } else {
            i
        },
    decreases i,
{
    if i > 0 {
        lemma_key_index(members.drop_first(), key, i - 1);
    } else if members.len() > 0 {
    }
}

/// Every position before `key_index` holds another name, and the position
/// itself, where there is one, holds `key`.
pub proof fn lemma_key_index_bounds<V>(members: Seq<(Seq<char>, V)>, key: Seq<char>)
    ensures
        -1 <= key_index(members, key) < members.len(),
        key_index(members, key) >= 0 ==> members[key_index(members, key)].0 == key,
        forall|k: int|
            0 <= k < members.len() && (key_index(members, key) < 0 || k < key_index(members, key))
                ==> members[k].0 != key,
    decreases members.len(),
{
    if members.len() > 0 {
        lemma_key_index_bounds(members.drop_first(), key);
        assert forall|k: int|
            0 <= k < members.len() && (key_index(members, key) < 0 || k < key_index(
                members,
                key,
            )) implies members[k].0 != key by {
            if k > 0 {
                assert(members[k] == members.drop_first()[k - 1]);
            }
        }
    }
}

impl Json {
    /// A copy of the document with the same value.
    pub fn deep_clone(&self) -> (r: Json)
        ensures
            r@ == self@,
        decreases self,
    {
        match self {
            Json::Null => Json::Null,
            Json::Bool(b) => Json::Bool(*b),
            Json::Number(n) => Json::Number(n.clone()),
            Json::String(s) => Json::String(s.clone()),
            Json::Array(items) => {
                let mut out: Vec<Json> = Vec::new();
                let mut i: usize = 0;
                while i < items.len()
                    invariant
                        i <= items.len(),
                        out.len() == i,
                        *self == Json::Array(*items),
                        forall|k: int| 0 <= k < i ==> out[k]@ == items[k]@,
                    decreases items.len() - i,
                {
                    proof {
                        assert(decreases_to!(*self => (*self)->Array_0));
                        assert(decreases_to!(*items => items[i as int]));
                    }
                    let c = items[i].deep_clone();
                    out.push(c);
                    i = i + 1;
                }
                let r = Json::Array(out);
                assert(r@->Arr_0 =~= self@->Arr_0);
                r
            },
            Json::Object(entries) => {
                let mut out: Vec<(String, Json)> = Vec::new();
                let mut i: usize = 0;
                while i < entries.len()
                    invariant
                        i <= entries.len(),
                        out.len() == i,
                        *self == Json::Object(*entries),
                        forall|k: int|
                            0 <= k < i ==> out[k].0@ == entries[k].0@ && out[k].1@ == entries[k].1@,
                    decreases entries.len() - i,
                {
                    proof {
                        assert(decreases_to!(*self => (*self)->Object_0));
                        assert(decreases_to!(*entries => entries[i as int]));
                        assert(decreases_to!(entries[i as int] => entries[i as int].1));
                    }
                    let c = entries[i].1.deep_clone();
                    out.push((entries[i].0.clone(), c));
                    i = i + 1;
                }
                let r = Json::Object(out);
                assert(r@->Obj_0 =~= self@->Obj_0);
                r
            },
        }
    }

    /// The text of a string value.
    pub fn as_str(&self) -> (r: Option<&str>)
        ensures
            match self@ {
                JsonV::Str(s) => r matches Some(t) && t@ == s,
                _ => r is None,
            },
    {
        match self {
            Json::String(s) => Some(s.as_str()),
            _ => None,
        }
    }
}

/// The value of the first member named `key`.
pub fn object_get<'a>(entries: &'a Vec<(String, Json)>, key: &str) -> (r: Option<&'a Json>)
    ensures
        match obj_get(members_view(entries@), key@) {
            Some(v) => r matches Some(j) && j@ == v,
            None => r is None,
        },
{
    let ghost members = members_view(entries@);
    let mut i: usize = 0;
    while i < entries.len()
        invariant
            i <= entries.len(),
            members == members_view(entries@),
            forall|k: int| 0 <= k < i ==> members[k].0 != key@,
        decreases entries.len() - i,
    {
        if crate::text::str_eq(entries[i].0.as_str(), key) {
            proof {
                lemma_key_index(members, key@, i as int);
            }
            return Some(&entries[i].1);
        }
        i = i + 1;
    }
    proof {
        lemma_key_index(members, key@, i as int);
    }
    None
}

} // verus!
