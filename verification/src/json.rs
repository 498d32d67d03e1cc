//! A JSON document model that holds as plain values everything the control
//! logic reads from wire messages, with its mathematical view.

use vstd::prelude::*;
use crate::text::text_eq;

verus! {

/// A JSON number as the wire decoder classified it: a non-negative integer,
/// a negative integer, or any other number kept as its decimal text.
#[derive(Debug, PartialEq)]
pub enum JsonNumber {
    PosInt(u64),
    NegInt(i64),
    Float(String),
}

/// The view of a [`JsonNumber`].
pub enum JsonNum {
    PosInt(u64),
    NegInt(i64),
    Float(Seq<char>),
}

impl JsonNumber {
    pub open spec fn view(&self) -> JsonNum {
        match self {
            JsonNumber::PosInt(n) => JsonNum::PosInt(*n),
            JsonNumber::NegInt(n) => JsonNum::NegInt(*n),
            JsonNumber::Float(t) => JsonNum::Float(t@),
        }
    }

    pub fn copy_number(&self) -> (r: JsonNumber)
        ensures
            r@ == self@,
    {
        match self {
            JsonNumber::PosInt(n) => JsonNumber::PosInt(*n),
            JsonNumber::NegInt(n) => JsonNumber::NegInt(*n),
            JsonNumber::Float(t) => JsonNumber::Float(t.clone()),
        }
    }
}

/// A JSON value. Object members keep the order in which they were given.
#[derive(Debug, PartialEq)]
pub enum JsonValue {
    Null,
    Bool(bool),
    Number(JsonNumber),
    String(String),
    Array(Vec<JsonValue>),
    Object(Vec<(String, JsonValue)>),
}

/// The mathematical view of a [`JsonValue`].
pub enum Json {
    Null,
    Bool(bool),
    Number(JsonNum),
    Str(Seq<char>),
    Array(Seq<Json>),
    Object(Seq<(Seq<char>, Json)>),
}

impl JsonValue {
    pub open spec fn view(&self) -> Json
        decreases self,
    {
        match self {
            JsonValue::Null => Json::Null,
            JsonValue::Bool(b) => Json::Bool(*b),
            JsonValue::Number(n) => Json::Number(n@),
            JsonValue::String(s) => Json::Str(s@),
            JsonValue::Array(items) => Json::Array(view_items(items@)),
            JsonValue::Object(members) => Json::Object(view_members(members@)),
        }
    }
}

pub open spec fn view_items(items: Seq<JsonValue>) -> Seq<Json>
    decreases items,
{
    if items.len() == 0 {
        Seq::empty()
    } else {
        seq![items[0]@] + view_items(items.drop_first())
    }
}

pub open spec fn view_members(members: Seq<(String, JsonValue)>) -> Seq<(Seq<char>, Json)>
    decreases members,
{
    if members.len() == 0 {
        Seq::empty()
    } else {
        seq![(members[0].0@, members[0].1@)] + view_members(members.drop_first())
    }
}

pub proof fn lemma_view_items(items: Seq<JsonValue>)
    ensures
        view_items(items).len() == items.len(),
        forall|i: int| 0 <= i < items.len() ==> #[trigger] view_items(items)[i] == items[i]@,
    decreases items.len(),
{
    if items.len() > 0 {
        lemma_view_items(items.drop_first());
        assert forall|i: int| 0 <= i < items.len() implies #[trigger] view_items(items)[i]
            == items[i]@ by {
            if i > 0 {
                assert(view_items(items)[i] == view_items(items.drop_first())[i - 1]);
            }
        }
    }
}

pub proof fn lemma_view_members(members: Seq<(String, JsonValue)>)
    ensures
        view_members(members).len() == members.len(),
        forall|i: int|
            0 <= i < members.len() ==> #[trigger] view_members(members)[i] == (
            members[i].0@,
            members[i].1@,
        ),
    decreases members.len(),
{
    if members.len() > 0 {
        lemma_view_members(members.drop_first());
        assert forall|i: int| 0 <= i < members.len() implies #[trigger] view_members(members)[i]
            == (members[i].0@, members[i].1@) by {
            if i > 0 {
                assert(view_members(members)[i] == view_members(members.drop_first())[i - 1]);
            }
        }
    }
}

/// The value of the first member named `key`, looking from position `from` on.
pub open spec fn member_lookup(m: Seq<(Seq<char>, Json)>, key: Seq<char>, from: int) -> Option<
    Json,
>
    decreases m.len() - from,
{
    if from < 0 || from >= m.len() {
        None
    } else if m[from].0 == key {
        Some(m[from].1)
    } else {
        member_lookup(m, key, from + 1)
    }
}

impl Json {
    /// The member `key` of an object (the first one of that name); `None` otherwise.
    pub open spec fn get(self, key: Seq<char>) -> Option<Json> {
        match self {
            Json::Object(m) => member_lookup(m, key, 0),
            _ => None,
        }
    }

    pub open spec fn as_str(self) -> Option<Seq<char>> {
        match self {
            Json::Str(s) => Some(s),
            _ => None,
        }
    }

    /// Only a non-negative integer reads as a `u64`.
    pub open spec fn as_u64(self) -> Option<u64> {
        match self {
            Json::Number(JsonNum::PosInt(n)) => Some(n),
            _ => None,
        }
    }

    pub open spec fn as_bool(self) -> Option<bool> {
        match self {
            Json::Bool(b) => Some(b),
            _ => None,
        }
    }

    pub open spec fn as_array(self) -> Option<Seq<Json>> {
        match self {
            Json::Array(items) => Some(items),
            _ => None,
        }
    }
}

/// `o.and_then(|j| j.get(key))`
pub open spec fn get_in(o: Option<Json>, key: Seq<char>) -> Option<Json> {
    match o {
        Some(j) => j.get(key),
        None => None,
    }
}

/// `o.and_then(as_str)`
pub open spec fn str_in(o: Option<Json>) -> Option<Seq<char>> {
    match o {
        Some(j) => j.as_str(),
        None => None,
    }
}

/// `o.and_then(as_u64)`
pub open spec fn u64_in(o: Option<Json>) -> Option<u64> {
    match o {
        Some(j) => j.as_u64(),
        None => None,
    }
}

/// `o.and_then(as_bool)`
pub open spec fn bool_in(o: Option<Json>) -> Option<bool> {
    match o {
        Some(j) => j.as_bool(),
        None => None,
    }
}

/// The view of an optional borrowed value.
pub open spec fn ref_view(r: Option<&JsonValue>) -> Option<Json> {
    match r {
        Some(v) => Some(v@),
        None => None,
    }
}

/// The view of an optional owned value.
pub open spec fn opt_view(r: Option<JsonValue>) -> Option<Json> {
    match r {
        Some(v) => Some(v@),
        None => None,
    }
}

/// The view of an optional borrowed text.
pub open spec fn str_view(r: Option<&str>) -> Option<Seq<char>> {
    match r {
        Some(s) => Some(s@),
        None => None,
    }
}

/// The view of an optional owned text.
pub open spec fn string_view(r: Option<String>) -> Option<Seq<char>> {
    match r {
        Some(s) => Some(s@),
        None => None,
    }
}

pub fn copy_items(items: &Vec<JsonValue>) -> (r: Vec<JsonValue>)
    ensures
        view_items(r@) == view_items(items@),
    decreases items, 1nat,
{
    let mut out: Vec<JsonValue> = Vec::new();
    let n = items.len();
    let mut i: usize = 0;
    while i < n
        invariant
            n == items@.len(),
            i <= n,
            out@.len() == i,
            forall|j: int| 0 <= j < i ==> (#[trigger] out@[j])@ == items@[j]@,
        decreases n - i,
    {
        proof {
            assert(decreases_to!(items => items@[i as int]));
        }
        let v = items[i].deep_copy();
        out.push(v);
        i += 1;
    }
    proof {
        lemma_view_items(out@);
        lemma_view_items(items@);
        assert(view_items(out@) =~= view_items(items@));
    }
    out
}

pub fn copy_members(members: &Vec<(String, JsonValue)>) -> (r: Vec<(String, JsonValue)>)
    ensures
        view_members(r@) == view_members(members@),
    decreases members, 1nat,
{
    let mut out: Vec<(String, JsonValue)> = Vec::new();
    let n = members.len();
    let mut i: usize = 0;
    while i < n
        invariant
            n == members@.len(),
            i <= n,
            out@.len() == i,
            forall|j: int|
                0 <= j < i ==> (#[trigger] out@[j]).0@ == members@[j].0@ && out@[j].1@
                    == members@[j].1@,
        decreases n - i,
    {
        let key = members[i].0.clone();
        proof {
            assert(decreases_to!(members => members@[i as int]));
        }
        let value = members[i].1.deep_copy();
        out.push((key, value));
        i += 1;
    }
    proof {
        lemma_view_members(out@);
        lemma_view_members(members@);
        assert(view_members(out@) =~= view_members(members@));
    }
    out
}

impl JsonValue {
    /// A copy with the same view.
    pub fn deep_copy(&self) -> (r: JsonValue)
        ensures
            r@ == self@,
        decreases self, 0nat,
    {
        match self {
            JsonValue::Null => JsonValue::Null,
            JsonValue::Bool(b) => JsonValue::Bool(*b),
            JsonValue::Number(n) => JsonValue::Number(n.copy_number()),
            JsonValue::String(s) => JsonValue::String(s.clone()),
            JsonValue::Array(items) => JsonValue::Array(copy_items(items)),
            JsonValue::Object(members) => JsonValue::Object(copy_members(members)),
        }
    }

    /// The member `key` of an object; `None` for a missing member or a non-object.
    pub fn get(&self, key: &str) -> (r: Option<&JsonValue>)
        ensures
            ref_view(r) == self@.get(key@),
    {
        match self {
            JsonValue::Object(members) => {
                let ghost vm = view_members(members@);
                proof {
                    lemma_view_members(members@);
                    assert(self@ == Json::Object(vm));
                }
                let n = members.len();
                let mut i: usize = 0;
                while i < n
                    invariant
                        n == members@.len(),
                        i <= n,
                        vm == view_members(members@),
                        vm.len() == members@.len(),
                        forall|j: int|
                            0 <= j < members@.len() ==> #[trigger] vm[j] == (
                                members@[j].0@,
                                members@[j].1@,
                            ),
                        member_lookup(vm, key@, 0) == member_lookup(vm, key@, i as int),
                        self@ == Json::Object(vm),
                    decreases n - i,
                {
                    if text_eq(members[i].0.as_str(), key) {
                        assert(vm[i as int].0 == key@);
                        assert(member_lookup(vm, key@, i as int) == Some(vm[i as int].1));
                        return Some(&members[i].1);
                    }
                    i += 1;
                }
                None
            },
            _ => None,
        }
    }

    pub fn as_str(&self) -> (r: Option<&str>)
        ensures
            str_view(r) == self@.as_str(),
    {
        match self {
            JsonValue::String(s) => Some(s.as_str()),
            _ => None,
        }
    }

    pub fn as_u64(&self) -> (r: Option<u64>)
        ensures
            r == self@.as_u64(),
    {
        match self {
            JsonValue::Number(JsonNumber::PosInt(n)) => Some(*n),
            _ => None,
        }
    }

    pub fn as_bool(&self) -> (r: Option<bool>)
        ensures
            r == self@.as_bool(),
    {
        match self {
            JsonValue::Bool(b) => Some(*b),
            _ => None,
        }
    }

    pub fn as_array(&self) -> (r: Option<&Vec<JsonValue>>)
        ensures
            match r {
                Some(items) => self@.as_array() == Some(view_items(items@)),
                None => self@.as_array() is None,
            },
    {
        match self {
            JsonValue::Array(items) => Some(items),
            _ => None,
        }
    }

    /// A JSON string holding `s`.
    pub fn text(s: &str) -> (r: JsonValue)
        ensures
            r@ == Json::Str(s@),
    {
        JsonValue::String(s.to_owned())
    }
}

impl Clone for JsonValue {
    fn clone(&self) -> (r: Self)
        ensures
            r@ == self@,
    {
        self.deep_copy()
    }
}

/// `o.and_then(|v| v.get(key))` on borrowed values.
pub fn get_opt<'a>(o: Option<&'a JsonValue>, key: &str) -> (r: Option<&'a JsonValue>)
    ensures
        ref_view(r) == get_in(ref_view(o), key@),
{
    match o {
        Some(v) => v.get(key),
        None => None,
    }
}

/// `o.and_then(as_str)` on borrowed values.
pub fn str_opt<'a>(o: Option<&'a JsonValue>) -> (r: Option<&'a str>)
    ensures
        str_view(r) == str_in(ref_view(o)),
{
    match o {
        Some(v) => v.as_str(),
        None => None,
    }
}

} // verus!
