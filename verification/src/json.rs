//! JSON documents as the library reads and rewrites them.
//!
//! `JsonValue` holds a document as plain values; its view `Json` is the
//! mathematical value that contracts speak of. Objects keep their entries in
//! ascending key order with each key once, which is how `serde_json` (built
//! without `preserve_order`) holds them; text goes to and from values through
//! `serde_json`.
use vstd::prelude::*;

use crate::strmap::{kv_insert, kv_lookup, lemma_kv_insert, sorted_keys};
use crate::text::{chars_lt, chars_of, seq_lt};

verus! {

#[verifier::external_type_specification]
#[verifier::external_body]
pub struct ExNumber(serde_json::Number);

#[verifier::external_type_specification]
#[verifier::external_body]
pub struct ExValue(serde_json::Value);

/// A JSON value.
#[derive(Debug)]
pub enum JsonValue {
    Null,
    Bool(bool),
    Number(serde_json::Number),
    Str(String),
    Array(Vec<JsonValue>),
    /// Entries in ascending key order, each key once.
    Object(Vec<(String, JsonValue)>),
}

/// The mathematical JSON value.
pub enum Json {
    Null,
    Bool(bool),
    Number(serde_json::Number),
    Str(Seq<char>),
    Array(Seq<Json>),
    Object(Seq<(Seq<char>, Json)>),
}

pub open spec fn json_view(v: JsonValue) -> Json
    decreases v,
{
    match v {
        JsonValue::Null => Json::Null,
        JsonValue::Bool(b) => Json::Bool(b),
        JsonValue::Number(n) => Json::Number(n),
        JsonValue::Str(s) => Json::Str(s@),
        JsonValue::Array(items) => Json::Array(
            Seq::new(
                items@.len(),
                |i: int|
                    if 0 <= i < items@.len() {
                        json_view(items@[i])
                    } else {
                        Json::Null
                    },
            ),
        ),
        JsonValue::Object(entries) => Json::Object(
            Seq::new(
                entries@.len(),
                |i: int|
                    if 0 <= i < entries@.len() {
                        (entries@[i].0@, json_view(entries@[i].1))
                    } else {
                        (Seq::empty(), Json::Null)
                    },
            ),
        ),
    }
}

impl View for JsonValue {
    type V = Json;

    open spec fn view(&self) -> Json {
        json_view(*self)
    }
}

/// `Value::get` with a string key: the member of an object, `None` otherwise.
pub open spec fn json_get(v: Json, key: Seq<char>) -> Option<Json> {
    match v {
        Json::Object(entries) => kv_lookup(entries, key),
        _ => None,
    }
}

/// The string held by `v`, if it is one.
pub open spec fn json_str(v: Option<Json>) -> Option<Seq<char>> {
    match v {
        Some(Json::Str(s)) => Some(s),
        _ => None,
    }
}

/// `value[key] = x`: on an object, the entry is inserted or replaced; `null`
/// becomes an object holding only that entry.
pub open spec fn json_set(v: Json, key: Seq<char>, x: Json) -> Json {
    match v {
        Json::Object(entries) => Json::Object(kv_insert(entries, key, x)),
        _ => Json::Object(seq![(key, x)]),
    }
}

/// Values that `value[key] = ..` accepts: objects and `null`.
pub open spec fn is_indexable(v: Json) -> bool {
    v is Object || v is Null
}

/// Whether two numbers compare equal (`serde_json::Number`'s `==`).
pub uninterp spec fn numbers_equal(a: serde_json::Number, b: serde_json::Number) -> bool;

/// `==` on JSON values: structural, numbers by their own equality, object
/// entries pairwise in order.
pub open spec fn json_equal(a: Json, b: Json) -> bool
    decreases a,
{
    match (a, b) {
        (Json::Null, Json::Null) => true,
        (Json::Bool(x), Json::Bool(y)) => x == y,
        (Json::Number(x), Json::Number(y)) => numbers_equal(x, y),
        (Json::Str(x), Json::Str(y)) => x == y,
        (Json::Array(xs), Json::Array(ys)) => xs.len() == ys.len() && forall|i: int|
            0 <= i < xs.len() ==> json_equal(xs[i], #[trigger] ys[i]),
        (Json::Object(xs), Json::Object(ys)) => xs.len() == ys.len() && forall|i: int|
            0 <= i < xs.len() ==> xs[i].0 == #[trigger] ys[i].0 && json_equal(xs[i].1, ys[i].1),
        _ => false,
    }
}

/// Keys strictly ascending.
pub open spec fn keys_ascending(entries: Seq<(Seq<char>, Json)>) -> bool {
    sorted_keys(entries)
}

/// Every object in `v` keeps its keys strictly ascending.
pub open spec fn json_sorted(v: Json) -> bool
    decreases v,
{
    match v {
        Json::Array(xs) => forall|i: int| 0 <= i < xs.len() ==> json_sorted(#[trigger] xs[i]),
        Json::Object(xs) => keys_ascending(xs) && forall|i: int|
            0 <= i < xs.len() ==> json_sorted(#[trigger] xs[i].1),
        _ => true,
    }
}

/// Setting a member of an object (or of `null`): reading it back gives what
/// was set, every other member reads as before, and an object whose keys are
/// sorted at every depth stays so when the value set is too.
pub proof fn lemma_json_set(v: Json, key: Seq<char>, x: Json)
    requires
        is_indexable(v),
    ensures
        json_get(json_set(v, key, x), key) == Some(x),
        forall|k2: Seq<char>| k2 != key ==> json_get(json_set(v, key, x), k2) == json_get(v, k2),
        json_sorted(v) && json_sorted(x) ==> json_sorted(json_set(v, key, x)),
{
    match v {
        Json::Object(entries) => {
            lemma_kv_insert(entries, key, x);
            let r = kv_insert(entries, key, x);
            if json_sorted(v) && json_sorted(x) {
                assert forall|i: int| 0 <= i < r.len() implies json_sorted(#[trigger] r[i].1) by {
                    if r[i] != (key, x) {
                        let j = choose|j: int| 0 <= j < entries.len() && entries[j] == r[i];
                        assert(json_sorted(entries[j].1));
                    }
                }
            }
        },
        _ => {
            let r = seq![(key, x)];
            assert(kv_lookup(r, key) == Some(x));
            assert forall|k2: Seq<char>| k2 != key implies json_get(json_set(v, key, x), k2) == json_get(v, k2) by {
                assert(r.drop_first() =~= Seq::<(Seq<char>, Json)>::empty());
                assert(kv_lookup(r.drop_first(), k2) is None);
                assert(kv_lookup(r, k2) is None);
            }
            if json_sorted(x) {
                assert(json_sorted(Json::Object(r)));
            }
        },
    }
}

/// What `serde_json::from_str::<Value>` gives for a text: the value, or the
/// text of the error.
pub uninterp spec fn json_parse(text: Seq<char>) -> Result<Json, Seq<char>>;

/// What `serde_json::to_string` gives for a value.
pub uninterp spec fn json_compact(v: Json) -> Result<Seq<char>, Seq<char>>;

/// What `serde_json::to_string_pretty` gives for a value.
pub uninterp spec fn json_pretty(v: Json) -> Result<Seq<char>, Seq<char>>;

/// Turns a `serde_json` value into a `JsonValue`, one for one: the map of an
/// object is walked in its own (ascending) order.
#[verifier::external_body]
fn json_from_serde(v: serde_json::Value) -> JsonValue {
    match v {
        serde_json::Value::Null => JsonValue::Null,
        serde_json::Value::Bool(b) => JsonValue::Bool(b),
        serde_json::Value::Number(n) => JsonValue::Number(n),
        serde_json::Value::String(s) => JsonValue::Str(s),
        serde_json::Value::Array(a) => JsonValue::Array(a.into_iter().map(json_from_serde).collect()),
        serde_json::Value::Object(m) => JsonValue::Object(
            m.into_iter().map(|(k, x)| (k, json_from_serde(x))).collect(),
        ),
    }
}

/// Turns a `JsonValue` into a `serde_json` value, one for one.
#[verifier::external_body]
fn json_to_serde(v: &JsonValue) -> serde_json::Value {
    match v {
        JsonValue::Null => serde_json::Value::Null,
        JsonValue::Bool(b) => serde_json::Value::Bool(*b),
        JsonValue::Number(n) => serde_json::Value::Number(n.clone()),
        JsonValue::Str(s) => serde_json::Value::String(s.clone()),
        JsonValue::Array(a) => serde_json::Value::Array(a.iter().map(json_to_serde).collect()),
        JsonValue::Object(m) => serde_json::Value::Object(
            m.iter().map(|(k, x)| (k.clone(), json_to_serde(x))).collect(),
        ),
    }
}

/// `serde_json::from_str::<serde_json::Value>`. Its result is named, not
/// stated; what is stated is that the objects it builds are `BTreeMap`s, so
/// their keys come out once each and in ascending order.
#[verifier::external_body]
pub fn parse_json(text: &str) -> (r: Result<JsonValue, String>)
    ensures
        r is Ok <==> json_parse(text@) is Ok,
        r matches Ok(v) ==> json_parse(text@)->Ok_0 == v@ && json_sorted(v@),
        r matches Err(e) ==> json_parse(text@)->Err_0 == e@,
{
    serde_json::from_str::<serde_json::Value>(text).map(json_from_serde).map_err(|e| e.to_string())
}

/// `serde_json::to_string` of the value; its text is named, not stated.
#[verifier::external_body]
pub fn to_json_text(v: &JsonValue) -> (r: Result<String, String>)
    ensures
        r is Ok <==> json_compact(v@) is Ok,
        r matches Ok(s) ==> json_compact(v@)->Ok_0 == s@,
        r matches Err(e) ==> json_compact(v@)->Err_0 == e@,
{
    serde_json::to_string(&json_to_serde(v)).map_err(|e| e.to_string())
}

/// `serde_json::to_string_pretty` of the value; its text is named, not stated.
#[verifier::external_body]
pub fn to_json_text_pretty(v: &JsonValue) -> (r: Result<String, String>)
    ensures
        r is Ok <==> json_pretty(v@) is Ok,
        r matches Ok(s) ==> json_pretty(v@)->Ok_0 == s@,
        r matches Err(e) ==> json_pretty(v@)->Err_0 == e@,
{
    serde_json::to_string_pretty(&json_to_serde(v)).map_err(|e| e.to_string())
}

/// `==` on `serde_json::Number`: named; the same number is equal to itself
/// (numbers are never NaN).
#[verifier::external_body]
fn number_eq(a: &serde_json::Number, b: &serde_json::Number) -> (r: bool)
    ensures
        r == numbers_equal(*a, *b),
        *a == *b ==> r,
{
    a == b
}

/// `Clone` on `serde_json::Number` (derived: the copy is the same number).
#[verifier::external_body]
fn number_clone(a: &serde_json::Number) -> (r: serde_json::Number)
    ensures
        r == *a,
{
    a.clone()
}

/// The JSON number of an unsigned integer (`serde_json::Number::from(u64)`).
pub uninterp spec fn json_number(n: u64) -> serde_json::Number;

/// `serde_json::Number::from` on a `u64`; the number is named, not stated.
#[verifier::external_body]
pub fn number_from_u64(n: u64) -> (r: serde_json::Number)
    ensures
        r == json_number(n),
{
    serde_json::Number::from(n)
}

proof fn lemma_view_array(items: Vec<JsonValue>)
    ensures
        json_view(JsonValue::Array(items)) is Array,
        json_view(JsonValue::Array(items))->Array_0.len() == items@.len(),
        forall|i: int|
            0 <= i < items@.len() ==> json_view(JsonValue::Array(items))->Array_0[i]
                == #[trigger] json_view(items@[i]),
{
}

proof fn lemma_view_object(entries: Vec<(String, JsonValue)>)
    ensures
        json_view(JsonValue::Object(entries)) is Object,
        json_view(JsonValue::Object(entries))->Object_0.len() == entries@.len(),
        forall|i: int|
            0 <= i < entries@.len() ==> json_view(JsonValue::Object(entries))->Object_0[i] == (
            #[trigger] entries@[i].0@,
            json_view(entries@[i].1),
        ),
{
}

/// The views of a list of object entries.
pub open spec fn entries_view(entries: Seq<(String, JsonValue)>) -> Seq<(Seq<char>, Json)> {
    Seq::new(entries.len(), |i: int| (entries[i].0@, json_view(entries[i].1)))
}

/// The views of a list of values.
pub open spec fn items_view(items: Seq<JsonValue>) -> Seq<Json> {
    Seq::new(items.len(), |i: int| json_view(items[i]))
}

pub proof fn lemma_object_view(entries: Vec<(String, JsonValue)>)
    ensures
        json_view(JsonValue::Object(entries)) == Json::Object(entries_view(entries@)),
{
    lemma_view_object(entries);
    assert(json_view(JsonValue::Object(entries))->Object_0 =~= entries_view(entries@));
}

pub proof fn lemma_array_view(items: Vec<JsonValue>)
    ensures
        json_view(JsonValue::Array(items)) == Json::Array(items_view(items@)),
{
    lemma_view_array(items);
    assert(json_view(JsonValue::Array(items))->Array_0 =~= items_view(items@));
}

/// Finds the entry with the given key.
pub fn entries_find(entries: &Vec<(String, JsonValue)>, key: &String) -> (r: Option<usize>)
    ensures
        match r {
            Some(i) => i < entries@.len() && entries@[i as int].0@ == key@ && kv_lookup(
                entries_view(entries@),
                key@,
            ) == Some(json_view(entries@[i as int].1)),
            None => kv_lookup(entries_view(entries@), key@) is None,
        },
{
    let ghost all = entries_view(entries@);
    let mut i: usize = 0;
    proof {
        assert(all.skip(0) =~= all);
    }
    while i < entries.len()
        invariant
            i <= entries@.len(),
            all == entries_view(entries@),
            kv_lookup(all, key@) == kv_lookup(all.skip(i as int), key@),
        decreases entries@.len() - i,
    {
        if entries[i].0 == *key {
            proof {
                assert(all.skip(i as int)[0] == all[i as int]);
            }
            return Some(i);
        }
        proof {
            assert(all.skip(i as int)[0] == all[i as int]);
            assert(all.skip(i as int).drop_first() =~= all.skip(i + 1));
        }
        i = i + 1;
    }
    None
}

impl JsonValue {
    /// `Value::get`: the member with that key of an object.
    pub fn get(&self, key: &str) -> (r: Option<&JsonValue>)
        ensures
            match r {
                Some(x) => json_get(self@, key@) == Some(x@),
                None => json_get(self@, key@) is None,
            },
    {
        match self {
            JsonValue::Object(entries) => {
                proof {
                    lemma_object_view(*entries);
                }
                let k = String::from_str(key);
                match entries_find(entries, &k) {
                    Some(i) => Some(&entries[i].1),
                    None => None,
                }
            },
            _ => None,
        }
    }

    /// `Value::as_str`.
    pub fn as_str(&self) -> (r: Option<&String>)
        ensures
            match r {
                Some(s) => self@ == Json::Str(s@),
                None => !(self@ is Str),
            },
    {
        match self {
            JsonValue::Str(s) => Some(s),
            _ => None,
        }
    }

    /// `value.get(key).and_then(Value::as_str)`.
    pub fn get_str(&self, key: &str) -> (r: Option<&String>)
        ensures
            match r {
                Some(s) => json_str(json_get(self@, key@)) == Some(s@),
                None => json_str(json_get(self@, key@)) is None,
            },
    {
        match self.get(key) {
            Some(v) => v.as_str(),
            None => None,
        }
    }

    pub fn is_null(&self) -> (r: bool)
        ensures
            r == (self@ is Null),
    {
        match self {
            JsonValue::Null => true,
            _ => false,
        }
    }

    pub fn is_array(&self) -> (r: bool)
        ensures
            r == (self@ is Array),
    {
        match self {
            JsonValue::Array(_) => true,
            _ => false,
        }
    }

    pub fn is_object(&self) -> (r: bool)
        ensures
            r == (self@ is Object),
    {
        match self {
            JsonValue::Object(_) => true,
            _ => false,
        }
    }

    /// A copy of the value.
    #[verifier::loop_isolation(false)]
    pub fn deep_clone(&self) -> (r: JsonValue)
        ensures
            r@ == self@,
        decreases self,
    {
        match self {
            JsonValue::Null => JsonValue::Null,
            JsonValue::Bool(b) => JsonValue::Bool(*b),
            JsonValue::Number(n) => JsonValue::Number(number_clone(n)),
            JsonValue::Str(s) => JsonValue::Str(s.clone()),
            JsonValue::Array(items) => {
                let mut out: Vec<JsonValue> = Vec::new();
                let mut i: usize = 0;
                while i < items.len()
                    invariant
                        i <= items@.len(),
                        out@.len() == i,
                        forall|k: int| 0 <= k < i ==> (#[trigger] out@[k])@ == items@[k]@,
                    decreases items@.len() - i,
                {
                    proof {
                        vstd::std_specs::vec::axiom_vec_index_decreases(*items, i as int);
                    }
                    let c = items[i].deep_clone();
                    out.push(c);
                    i = i + 1;
                }
                proof {
                    lemma_array_view(*items);
                    lemma_array_view(out);
                    assert(items_view(out@) =~= items_view(items@));
                }
                JsonValue::Array(out)
            },
            JsonValue::Object(entries) => {
                let mut out: Vec<(String, JsonValue)> = Vec::new();
                let mut i: usize = 0;
                while i < entries.len()
                    invariant
                        i <= entries@.len(),
                        out@.len() == i,
                        forall|k: int|
                            0 <= k < i ==> (#[trigger] out@[k]).0@ == entries@[k].0@ && out@[k].1@
                                == entries@[k].1@,
                    decreases entries@.len() - i,
                {
                    proof {
                        vstd::std_specs::vec::axiom_vec_index_decreases(*entries, i as int);
                    }
                    let key = entries[i].0.clone();
                    let c = entries[i].1.deep_clone();
                    out.push((key, c));
                    i = i + 1;
                }
                proof {
                    lemma_object_view(*entries);
                    lemma_object_view(out);
                    assert(entries_view(out@) =~= entries_view(entries@));
                }
                JsonValue::Object(out)
            },
        }
    }

    /// `==` on JSON values.
    #[verifier::loop_isolation(false)]
    pub fn equals(&self, other: &JsonValue) -> (r: bool)
        ensures
            r == json_equal(self@, other@),
        decreases self,
    {
        match (self, other) {
            (JsonValue::Null, JsonValue::Null) => true,
            (JsonValue::Bool(x), JsonValue::Bool(y)) => *x == *y,
            (JsonValue::Number(x), JsonValue::Number(y)) => number_eq(x, y),
            (JsonValue::Str(x), JsonValue::Str(y)) => *x == *y,
            (JsonValue::Array(xs), JsonValue::Array(ys)) => {
                proof {
                    lemma_view_array(*xs);
                    lemma_view_array(*ys);
                }
                if xs.len() != ys.len() {
                    return false;
                }
                let mut i: usize = 0;
                while i < xs.len()
                    invariant
                        i <= xs@.len(),
                        xs@.len() == ys@.len(),
                        forall|k: int| 0 <= k < i ==> json_equal(xs@[k]@, #[trigger] ys@[k]@),
                    decreases xs@.len() - i,
                {
                    proof {
                        vstd::std_specs::vec::axiom_vec_index_decreases(*xs, i as int);
                    }
                    if !xs[i].equals(&ys[i]) {
                        proof {
                            let xv = self@->Array_0;
                            let yv = other@->Array_0;
                            assert(xv[i as int] == xs@[i as int]@);
                            assert(yv[i as int] == ys@[i as int]@);
                            assert(!json_equal(xv[i as int], yv[i as int]));
                        }
                        return false;
                    }
                    i = i + 1;
                }
                proof {
                    let xv = self@->Array_0;
                    let yv = other@->Array_0;
                    assert forall|k: int| 0 <= k < xv.len() implies json_equal(
                        xv[k],
                        #[trigger] yv[k],
                    ) by {
                        assert(xv[k] == xs@[k]@);
                        assert(yv[k] == ys@[k]@);
                    }
                }
                true
            },
            (JsonValue::Object(xs), JsonValue::Object(ys)) => {
                proof {
                    lemma_view_object(*xs);
                    lemma_view_object(*ys);
                }
                if xs.len() != ys.len() {
                    return false;
                }
                let mut i: usize = 0;
                while i < xs.len()
                    invariant
                        i <= xs@.len(),
                        xs@.len() == ys@.len(),
                        forall|k: int|
                            0 <= k < i ==> xs@[k].0@ == (#[trigger] ys@[k]).0@ && json_equal(
                                xs@[k].1@,
                                ys@[k].1@,
                            ),
                    decreases xs@.len() - i,
                {
                    proof {
                        vstd::std_specs::vec::axiom_vec_index_decreases(*xs, i as int);
                    }
                    if xs[i].0 != ys[i].0 {
                        proof {
                            let xv = self@->Object_0;
                            let yv = other@->Object_0;
                            assert(xv[i as int] == (xs@[i as int].0@, xs@[i as int].1@));
                            assert(yv[i as int] == (ys@[i as int].0@, ys@[i as int].1@));
                            assert(xv[i as int].0 != yv[i as int].0);
                        }
                        return false;
                    }
                    if !xs[i].1.equals(&ys[i].1) {
                        proof {
                            let xv = self@->Object_0;
                            let yv = other@->Object_0;
                            assert(xv[i as int] == (xs@[i as int].0@, xs@[i as int].1@));
                            assert(yv[i as int] == (ys@[i as int].0@, ys@[i as int].1@));
                            assert(!json_equal(xv[i as int].1, yv[i as int].1));
                            assert(yv[i as int].0 == ys@[i as int].0@);
                        }
                        return false;
                    }
                    i = i + 1;
                }
                proof {
                    let xv = self@->Object_0;
                    let yv = other@->Object_0;
                    assert forall|k: int| 0 <= k < xv.len() implies xv[k].0 == #[trigger] yv[k].0
                        && json_equal(xv[k].1, yv[k].1) by {
                        assert(xv[k] == (xs@[k].0@, xs@[k].1@));
                        assert(yv[k] == (ys@[k].0@, ys@[k].1@));
                    }
                }
                true
            },
            _ => false,
        }
    }
}

/// Binds `key` to `x` in a list of entries, as `entries_insert` says.
pub fn entries_put(entries: &mut Vec<(String, JsonValue)>, key: String, x: JsonValue)
    ensures
        entries_view(final(entries)@) == kv_insert(entries_view(old(entries)@), key@, x@),
{
    let ghost all = entries_view(entries@);
    let kc = chars_of(key.as_str());
    let mut i: usize = 0;
    proof {
        assert(all.skip(0) =~= all);
        assert(all.take(0) + all =~= all);
    }
    while i < entries.len()
        invariant
            i <= entries@.len(),
            entries@ == old(entries)@,
            all == entries_view(entries@),
            kc@ == key@,
            kv_insert(all, key@, x@) == all.take(i as int) + kv_insert(
                all.skip(i as int),
                key@,
                x@,
            ),
        ensures
            i <= entries@.len(),
            entries@ == old(entries)@,
            all == entries_view(entries@),
            kv_insert(all, key@, x@) == all.take(i as int) + kv_insert(
                all.skip(i as int),
                key@,
                x@,
            ),
            i < entries@.len() ==> (entries@[i as int].0@ == key@ || seq_lt(
                key@,
                entries@[i as int].0@,
            )),
        decreases entries@.len() - i,
    {
        let ek = chars_of(entries[i].0.as_str());
        if entries[i].0 == key || chars_lt(&kc, &ek) {
            break;
        }
        proof {
            let rest = all.skip(i as int);
            assert(rest[0] == all[i as int]);
            assert(rest.drop_first() =~= all.skip(i + 1));
            assert(all.take(i + 1) =~= all.take(i as int) + seq![rest[0]]);
        }
        i = i + 1;
    }
    let ghost rest = all.skip(i as int);
    if i < entries.len() && entries[i].0 == key {
        let ghost xv = x@;
        entries.set(i, (key, x));
        proof {
            assert(rest[0] == all[i as int]);
            assert(kv_insert(rest, key@, xv) == rest.update(0, (key@, xv)));
            assert(entries_view(entries@) =~= all.take(i as int) + rest.update(0, (key@, xv)));
        }
    } else {
        let ghost kv = key@;
        let ghost xv = x@;
        entries.insert(i, (key, x));
        proof {
            if i < all.len() {
                assert(rest[0] == all[i as int]);
                assert(kv_insert(rest, kv, xv) == seq![(kv, xv)] + rest);
            } else {
                assert(rest.len() == 0);
            }
            assert(entries_view(entries@) =~= all.take(i as int) + kv_insert(rest, kv, xv));
        }
    }
}

/// `value[key] = x`.
pub fn json_set_member(v: &mut JsonValue, key: String, x: JsonValue)
    requires
        is_indexable(old(v)@),
    ensures
        final(v)@ == json_set(old(v)@, key@, x@),
{
    match v {
        JsonValue::Object(entries) => {
            proof {
                lemma_object_view(*entries);
            }
            entries_put(entries, key, x);
            proof {
                lemma_object_view(*entries);
            }
        },
        _ => {
            let mut entries: Vec<(String, JsonValue)> = Vec::new();
            entries.push((key, x));
            proof {
                lemma_object_view(entries);
                assert(entries_view(entries@) =~= seq![(key@, x@)]);
            }
            *v = JsonValue::Object(entries);
        },
    }
}

/// `json!(strings)`: an array of strings.
pub open spec fn json_strings(strings: Seq<Seq<char>>) -> Json {
    Json::Array(Seq::new(strings.len(), |i: int| Json::Str(strings[i])))
}

pub fn to_string_array(strings: &Vec<String>) -> (r: JsonValue)
    ensures
        r@ == json_strings(crate::text::texts(strings@)),
{
    let mut out: Vec<JsonValue> = Vec::new();
    let mut i: usize = 0;
    while i < strings.len()
        invariant
            i <= strings@.len(),
            out@.len() == i,
            forall|k: int| 0 <= k < i ==> (#[trigger] out@[k])@ == Json::Str(strings@[k]@),
        decreases strings@.len() - i,
    {
        out.push(JsonValue::Str(strings[i].clone()));
        i = i + 1;
    }
    proof {
        lemma_array_view(out);
        assert(items_view(out@) =~= Seq::new(
            strings@.len(),
            |i: int| Json::Str(crate::text::texts(strings@)[i]),
        ));
    }
    JsonValue::Array(out)
}

} // verus!
