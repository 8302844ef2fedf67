//! JSON values as the library holds them, and their exchange with `serde_json`.

use crate::text::str_eq;
use crate::written::{colons, entries, written_once};
use serde_json::{Number, Value};
use vstd::prelude::*;

verus! {

/// A JSON number: a non-negative integer, a negative one, or a double given by its bits and by
/// the text it prints as.
#[derive(Debug)]
pub enum JsonNumber {
    Uint(u64),
    Int(i64),
    Float { bits: u64, text: String },
}

/// A JSON value. The entries of an object stand in the order in which they are walked.
#[derive(Debug)]
pub enum Json {
    Null,
    Bool(bool),
    Num(JsonNumber),
    Str(String),
    Arr(Vec<Json>),
    Obj(Vec<(String, Json)>),
}

/// What a JSON number holds.
pub enum NumberView {
    Uint(u64),
    Int(i64),
    Float { bits: u64, text: Seq<char> },
}

/// What a JSON value holds.
pub enum JsonView {
    Null,
    Bool(bool),
    Num(NumberView),
    Str(Seq<char>),
    Arr(Seq<JsonView>),
    Obj(Seq<(Seq<char>, JsonView)>),
}

impl View for JsonNumber {
    type V = NumberView;

    open spec fn view(&self) -> NumberView {
        match *self {
            JsonNumber::Uint(n) => NumberView::Uint(n),
            JsonNumber::Int(n) => NumberView::Int(n),
            JsonNumber::Float { bits, text } => NumberView::Float { bits, text: text@ },
        }
    }
}

/// What a JSON value holds.
pub open spec fn json_view(j: Json) -> JsonView
    decreases j,
{
    match j {
        Json::Null => JsonView::Null,
        Json::Bool(b) => JsonView::Bool(b),
        Json::Num(n) => JsonView::Num(n@),
        Json::Str(s) => JsonView::Str(s@),
        Json::Arr(v) => JsonView::Arr(
            Seq::new(
                v@.len(),
                |i: int|
                    if 0 <= i < v@.len() {
                        json_view(v@[i])
                    } else {
                        JsonView::Null
                    },
            ),
        ),
        Json::Obj(v) => JsonView::Obj(
            Seq::new(
                v@.len(),
                |i: int|
                    if 0 <= i < v@.len() {
                        (v@[i].0@, json_view(v@[i].1))
                    } else {
                        (Seq::empty(), JsonView::Null)
                    },
            ),
        ),
    }
}

impl View for Json {
    type V = JsonView;

    open spec fn view(&self) -> JsonView {
        json_view(*self)
    }
}

/// The views of a list of JSON values.
pub open spec fn json_views(v: Seq<Json>) -> Seq<JsonView> {
    v.map_values(|j: Json| j@)
}

/// The views of a list of named JSON values.
pub open spec fn entry_views(v: Seq<(String, Json)>) -> Seq<(Seq<char>, JsonView)> {
    v.map_values(|e: (String, Json)| (e.0@, e.1@))
}

/// The view of an array is made of the views of its elements.
pub broadcast proof fn json_view_arr(v: Vec<Json>)
    ensures
        #[trigger] Json::Arr(v)@ == JsonView::Arr(json_views(v@)),
{
    reveal_with_fuel(json_view, 2);
    match Json::Arr(v)@ {
        JsonView::Arr(s) => {
            assert(s =~= json_views(v@));
        },
        _ => {},
    }
}

/// The view of an object is made of the views of its entries.
pub broadcast proof fn json_view_obj(v: Vec<(String, Json)>)
    ensures
        #[trigger] Json::Obj(v)@ == JsonView::Obj(entry_views(v@)),
{
    reveal_with_fuel(json_view, 2);
    match Json::Obj(v)@ {
        JsonView::Obj(s) => {
            assert(s =~= entry_views(v@));
        },
        _ => {},
    }
}

/// The view of an optional JSON value.
pub open spec fn opt_json(j: Option<Json>) -> Option<JsonView> {
    match j {
        Some(j) => Some(j@),
        None => None,
    }
}

// ---------------------------------------------------------------------------------------------
// Reading
// ---------------------------------------------------------------------------------------------

/// The position of the first entry with the key `key` at or after `i`.
pub open spec fn key_from(e: Seq<(Seq<char>, JsonView)>, key: Seq<char>, i: int) -> int
    decreases e.len() - i,
{
    if i < 0 || i >= e.len() {
        e.len() as int
    } else if e[i].0 == key {
        i
    } else {
        key_from(e, key, i + 1)
    }
}

/// The member `key` of an object; nothing of any other value.
pub open spec fn member(j: JsonView, key: Seq<char>) -> Option<JsonView> {
    match j {
        JsonView::Obj(e) => if key_from(e, key, 0) < e.len() {
            Some(e[key_from(e, key, 0)].1)
        } else {
            None
        },
        _ => None,
    }
}

/// The text of a string value.
pub open spec fn as_text(j: JsonView) -> Option<Seq<char>> {
    match j {
        JsonView::Str(s) => Some(s),
        _ => None,
    }
}

/// The value of a non-negative integer.
pub open spec fn as_uint(j: JsonView) -> Option<u64> {
    match j {
        JsonView::Num(NumberView::Uint(n)) => Some(n),
        _ => None,
    }
}

/// The value of a boolean.
pub open spec fn as_bool(j: JsonView) -> Option<bool> {
    match j {
        JsonView::Bool(b) => Some(b),
        _ => None,
    }
}

/// The text of the string member `key`.
pub open spec fn text_member(j: JsonView, key: Seq<char>) -> Option<Seq<char>> {
    match member(j, key) {
        Some(v) => as_text(v),
        None => None,
    }
}

/// The non-negative integer member `key`.
pub open spec fn uint_member(j: JsonView, key: Seq<char>) -> Option<u64> {
    match member(j, key) {
        Some(v) => as_uint(v),
        None => None,
    }
}

/// The boolean member `key`.
pub open spec fn bool_member(j: JsonView, key: Seq<char>) -> Option<bool> {
    match member(j, key) {
        Some(v) => as_bool(v),
        None => None,
    }
}

/// The value can be read as a record with `n` fields: an object, or an array that lists the fields in their
/// order.
pub open spec fn has_fields(j: JsonView, n: nat) -> bool {
    match j {
        JsonView::Obj(_) => true,
        JsonView::Arr(v) => v.len() == n,
        _ => false,
    }
}

/// The field with the name `key` and the place `idx` of a record.
pub open spec fn field(j: JsonView, key: Seq<char>, idx: int) -> Option<JsonView> {
    match j {
        JsonView::Arr(v) => if 0 <= idx < v.len() {
            Some(v[idx])
        } else {
            None
        },
        _ => member(j, key),
    }
}

/// The text of a string field.
pub open spec fn text_field(j: JsonView, key: Seq<char>, idx: int) -> Option<Seq<char>> {
    match field(j, key, idx) {
        Some(v) => as_text(v),
        None => None,
    }
}

/// The value of a field that is a non-negative integer.
pub open spec fn uint_field(j: JsonView, key: Seq<char>, idx: int) -> Option<u64> {
    match field(j, key, idx) {
        Some(v) => as_uint(v),
        None => None,
    }
}

/// The view of a value that may be missing.
pub open spec fn opt_view(j: Option<&Json>) -> Option<JsonView> {
    match j {
        Some(j) => Some(j@),
        None => None,
    }
}

impl Json {
    /// Whether the value can be read as a record with `n` fields.
    pub fn is_record(&self, n: usize) -> (r: bool)
        ensures
            r == has_fields(self@, n as nat),
    {
        broadcast use json_view_arr;

        match self {
            Json::Obj(_) => true,
            Json::Arr(v) => v.len() == n,
            _ => false,
        }
    }

    /// The field with the name `key` and the place `idx` of a record.
    pub fn get_field(&self, key: &str, idx: usize) -> (r: Option<&Json>)
        ensures
            opt_view(r) == field(self@, key@, idx as int),
    {
        broadcast use json_view_arr;

        match self {
            Json::Arr(v) => if idx < v.len() {
                Some(&v[idx])
            } else {
                None
            },
            _ => self.get(key),
        }
    }

    /// The text of a string field.
    pub fn text_field(&self, key: &str, idx: usize) -> (r: Option<String>)
        ensures
            crate::text::opt_text(r) == text_field(self@, key@, idx as int),
    {
        match self.get_field(key, idx) {
            Some(j) => match j.as_str() {
                Some(s) => Some(s.clone()),
                None => None,
            },
            None => None,
        }
    }

    /// The value of a field that is a non-negative integer.
    pub fn uint_field(&self, key: &str, idx: usize) -> (r: Option<u64>)
        ensures
            r == uint_field(self@, key@, idx as int),
    {
        match self.get_field(key, idx) {
            Some(j) => j.as_u64(),
            None => None,
        }
    }

    /// The member `key` of an object.
    pub fn get(&self, key: &str) -> (r: Option<&Json>)
        ensures
            match r {
                Some(j) => member(self@, key@) == Some(j@),
                None => member(self@, key@) is None,
            },
    {
        match self {
            Json::Obj(v) => {
                let ghost e = entry_views(v@);
                proof {
                    json_view_obj(*v);
                }
                let mut i: usize = 0;
                while i < v.len()
                    invariant
                        i <= v@.len(),
                        e == entry_views(v@),
                        self@ == JsonView::Obj(e),
                        key_from(e, key@, 0) == key_from(e, key@, i as int),
                    decreases v@.len() - i,
                {
                    assert(e[i as int] == (v@[i as int].0@, v@[i as int].1@));
                    if str_eq(v[i].0.as_str(), key) {
                        return Some(&v[i].1);
                    }
                    i += 1;
                }
                None
            },
            _ => None,
        }
    }

    /// The text of a string value.
    pub fn as_str(&self) -> (r: Option<&String>)
        ensures
            match r {
                Some(s) => as_text(self@) == Some(s@),
                None => as_text(self@) is None,
            },
    {
        match self {
            Json::Str(s) => Some(s),
            _ => None,
        }
    }

    /// The value of a non-negative integer.
    pub fn as_u64(&self) -> (r: Option<u64>)
        ensures
            r == as_uint(self@),
    {
        match self {
            Json::Num(JsonNumber::Uint(n)) => Some(*n),
            _ => None,
        }
    }

    /// The value of a boolean.
    pub fn as_boolean(&self) -> (r: Option<bool>)
        ensures
            r == as_bool(self@),
    {
        match self {
            Json::Bool(b) => Some(*b),
            _ => None,
        }
    }

    /// The text of the string member `key`.
    pub fn get_str(&self, key: &str) -> (r: Option<String>)
        ensures
            crate::text::opt_text(r) == text_member(self@, key@),
    {
        match self.get(key) {
            Some(j) => match j.as_str() {
                Some(s) => Some(s.clone()),
                None => None,
            },
            None => None,
        }
    }

    /// The non-negative integer member `key`.
    pub fn get_u64(&self, key: &str) -> (r: Option<u64>)
        ensures
            r == uint_member(self@, key@),
    {
        match self.get(key) {
            Some(j) => j.as_u64(),
            None => None,
        }
    }

    /// The boolean member `key`.
    pub fn get_bool(&self, key: &str) -> (r: Option<bool>)
        ensures
            r == bool_member(self@, key@),
    {
        match self.get(key) {
            Some(j) => j.as_boolean(),
            None => None,
        }
    }

    /// A copy of the value.
    pub fn dup(&self) -> (r: Json)
        ensures
            r@ == self@,
        decreases self,
    {
        match self {
            Json::Null => Json::Null,
            Json::Bool(b) => Json::Bool(*b),
            Json::Num(n) => Json::Num(
                match n {
                    JsonNumber::Uint(n) => JsonNumber::Uint(*n),
                    JsonNumber::Int(n) => JsonNumber::Int(*n),
                    JsonNumber::Float { bits, text } => JsonNumber::Float {
                        bits: *bits,
                        text: text.clone(),
                    },
                },
            ),
            Json::Str(s) => Json::Str(s.clone()),
            Json::Arr(v) => {
                let mut out: Vec<Json> = Vec::new();
                let mut i: usize = 0;
                while i < v.len()
                    invariant
                        i <= v@.len(),
                        *self == Json::Arr(*v),
                        json_views(out@) == json_views(v@).take(i as int),
                    decreases v@.len() - i,
                {
                    assert(decreases_to!(*self => self->Arr_0));
                    assert(decreases_to!(*v => v@[i as int]));
                    let x = v[i].dup();
                    let ghost before = json_views(out@);
                    out.push(x);
                    assert(json_views(out@) =~= before.push(x@));
                    assert(json_views(v@).take(i + 1) =~= json_views(v@).take(i as int).push(
                        v@[i as int]@,
                    ));
                    i += 1;
                }
                assert(json_views(v@).take(i as int) =~= json_views(v@));
                proof {
                    json_view_arr(*v);
                    json_view_arr(out);
                }
                Json::Arr(out)
            },
            Json::Obj(v) => {
                let mut out: Vec<(String, Json)> = Vec::new();
                let mut i: usize = 0;
                while i < v.len()
                    invariant
                        i <= v@.len(),
                        *self == Json::Obj(*v),
                        entry_views(out@) == entry_views(v@).take(i as int),
                    decreases v@.len() - i,
                {
                    assert(decreases_to!(*self => self->Obj_0));
                    assert(decreases_to!(*v => v@[i as int]));
                    assert(decreases_to!(v@[i as int] => v@[i as int].1));
                    let k = v[i].0.clone();
                    let x = v[i].1.dup();
                    let ghost before = entry_views(out@);
                    let ghost added = (k@, x@);
                    out.push((k, x));
                    assert(entry_views(out@) =~= before.push(added));
                    assert(entry_views(v@).take(i + 1) =~= entry_views(v@).take(i as int).push(
                        (v@[i as int].0@, v@[i as int].1@),
                    ));
                    i += 1;
                }
                assert(entry_views(v@).take(i as int) =~= entry_views(v@));
                proof {
                    json_view_obj(*v);
                    json_view_obj(out);
                }
                Json::Obj(out)
            },
        }
    }
}

// ---------------------------------------------------------------------------------------------
// Building
// ---------------------------------------------------------------------------------------------

/// A string value.
pub fn jstr(s: &str) -> (r: Json)
    ensures
        r@ == JsonView::Str(s@),
{
    Json::Str(s.to_owned())
}

/// A non-negative integer.
pub fn juint(n: u64) -> (r: Json)
    ensures
        r@ == JsonView::Num(NumberView::Uint(n)),
{
    Json::Num(JsonNumber::Uint(n))
}

/// An object with one entry more at its end.
pub fn with_entry(mut v: Vec<(String, Json)>, key: &str, value: Json) -> (r: Vec<(String, Json)>)
    ensures
        entry_views(r@) == entry_views(v@).push((key@, value@)),
{
    let ghost before = entry_views(v@);
    let ghost added = (key@, value@);
    v.push((key.to_owned(), value));
    assert(entry_views(v@) =~= before.push(added));
    v
}

/// The object with the given entries.
pub fn jobj(v: Vec<(String, Json)>) -> (r: Json)
    ensures
        r@ == JsonView::Obj(entry_views(v@)),
{
    proof {
        json_view_obj(v);
    }
    Json::Obj(v)
}

/// The object with one entry.
pub fn jobj1(k1: &str, v1: Json) -> (r: Json)
    ensures
        r@ == JsonView::Obj(seq![(k1@, v1@)]),
{
    let ghost g1 = (k1@, v1@);
    let v = with_entry(Vec::new(), k1, v1);
    assert(entry_views(v@) =~= seq![g1]);
    jobj(v)
}

/// The object with two entries.
pub fn jobj2(k1: &str, v1: Json, k2: &str, v2: Json) -> (r: Json)
    ensures
        r@ == JsonView::Obj(seq![(k1@, v1@), (k2@, v2@)]),
{
    let ghost g1 = (k1@, v1@);
    let ghost g2 = (k2@, v2@);
    let v = with_entry(with_entry(Vec::new(), k1, v1), k2, v2);
    assert(entry_views(v@) =~= seq![g1, g2]);
    jobj(v)
}

/// The object with three entries.
pub fn jobj3(k1: &str, v1: Json, k2: &str, v2: Json, k3: &str, v3: Json) -> (r: Json)
    ensures
        r@ == JsonView::Obj(seq![(k1@, v1@), (k2@, v2@), (k3@, v3@)]),
{
    let ghost g1 = (k1@, v1@);
    let ghost g2 = (k2@, v2@);
    let ghost g3 = (k3@, v3@);
    let v = with_entry(with_entry(with_entry(Vec::new(), k1, v1), k2, v2), k3, v3);
    assert(entry_views(v@) =~= seq![g1, g2, g3]);
    jobj(v)
}

/// The object with four entries.
pub fn jobj4(
    k1: &str,
    v1: Json,
    k2: &str,
    v2: Json,
    k3: &str,
    v3: Json,
    k4: &str,
    v4: Json,
) -> (r: Json)
    ensures
        r@ == JsonView::Obj(seq![(k1@, v1@), (k2@, v2@), (k3@, v3@), (k4@, v4@)]),
{
    let ghost g = seq![(k1@, v1@), (k2@, v2@), (k3@, v3@), (k4@, v4@)];
    let v = with_entry(
        with_entry(with_entry(with_entry(Vec::new(), k1, v1), k2, v2), k3, v3),
        k4,
        v4,
    );
    assert(entry_views(v@) =~= g);
    jobj(v)
}

/// The object with five entries.
pub fn jobj5(
    k1: &str,
    v1: Json,
    k2: &str,
    v2: Json,
    k3: &str,
    v3: Json,
    k4: &str,
    v4: Json,
    k5: &str,
    v5: Json,
) -> (r: Json)
    ensures
        r@ == JsonView::Obj(seq![(k1@, v1@), (k2@, v2@), (k3@, v3@), (k4@, v4@), (k5@, v5@)]),
{
    let ghost g = seq![(k1@, v1@), (k2@, v2@), (k3@, v3@), (k4@, v4@), (k5@, v5@)];
    let v = with_entry(
        with_entry(
            with_entry(with_entry(with_entry(Vec::new(), k1, v1), k2, v2), k3, v3),
            k4,
            v4,
        ),
        k5,
        v5,
    );
    assert(entry_views(v@) =~= g);
    jobj(v)
}

// ---------------------------------------------------------------------------------------------
// Exchange with serde_json
// ---------------------------------------------------------------------------------------------

/// `serde_json::Value`, opaque here: a parsed JSON document on its way in or out.
#[verifier::external_type_specification]
#[verifier::external_body]
pub struct ExValue(serde_json::Value);

/// What a `serde_json::Value` holds, object entries in the order of its map.
pub uninterp spec fn value_tree(v: serde_json::Value) -> JsonView;

/// What `serde_json::from_str` reads from a text; nothing where the text is not one JSON document.
pub uninterp spec fn json_parse(text: Seq<char>) -> Option<JsonView>;

/// What the `serde_json::Value` built from a tree holds: its map decides the order of the entries
/// and keeps one entry for each key.
pub uninterp spec fn value_built(j: JsonView) -> JsonView;

/// What `serde_json` prints for the double with these bits; nothing for one that is not finite.
pub uninterp spec fn double_text(bits: u64) -> Option<Seq<char>>;

/// What `serde_json::Value` prints as.
pub uninterp spec fn json_print(j: JsonView) -> Seq<char>;

/// Every entry has a key of its own.
pub open spec fn keys_distinct(e: Seq<(Seq<char>, JsonView)>) -> bool {
    forall|i: int, k: int| 0 <= i < k < e.len() ==> (#[trigger] e[i]).0 != (#[trigger] e[k]).0
}

/// A value nested at most `depth` deep that a `serde_json::Value` can hold: the keys of an object are
/// distinct, a whole number that is not negative is kept as an unsigned one, and a double has the text that
/// it prints as.
pub open spec fn plain(j: JsonView, depth: nat) -> bool
    decreases depth,
{
    match j {
        JsonView::Null => true,
        JsonView::Bool(_) => true,
        JsonView::Str(_) => true,
        JsonView::Num(NumberView::Uint(_)) => true,
        JsonView::Num(NumberView::Int(n)) => n < 0,
        JsonView::Num(NumberView::Float { bits, text }) => double_text(bits) == Some(text),
        JsonView::Arr(v) => depth > 0 && forall|i: int|
            0 <= i < v.len() ==> plain(#[trigger] v[i], (depth - 1) as nat),
        JsonView::Obj(e) => depth > 0 && keys_distinct(e) && forall|i: int|
            0 <= i < e.len() ==> plain((#[trigger] e[i]).1, (depth - 1) as nat),
    }
}

/// How deep a value may be nested and still be read back from its text.
pub const DEPTH_READ_BACK: u32 = 127;

/// A value that may be nested deeper is still plain.
pub proof fn lemma_plain_deeper(j: JsonView, a: nat, b: nat)
    requires
        plain(j, a),
        a <= b,
    ensures
        plain(j, b),
    decreases a,
{
    reveal_with_fuel(plain, 2);
    match j {
        JsonView::Arr(v) => {
            assert forall|i: int| 0 <= i < v.len() implies plain(#[trigger] v[i], (b - 1) as nat) by {
                lemma_plain_deeper(v[i], (a - 1) as nat, (b - 1) as nat);
            }
        },
        JsonView::Obj(e) => {
            assert forall|i: int| 0 <= i < e.len() implies plain((#[trigger] e[i]).1, (b - 1) as nat) by {
                lemma_plain_deeper(e[i].1, (a - 1) as nat, (b - 1) as nat);
            }
        },
        _ => {},
    }
}

/// The value is nested at most `depth` deep.
pub open spec fn nests_within(j: JsonView, depth: nat) -> bool
    decreases depth,
{
    match j {
        JsonView::Arr(v) => depth > 0 && forall|i: int|
            0 <= i < v.len() ==> nests_within(#[trigger] v[i], (depth - 1) as nat),
        JsonView::Obj(e) => depth > 0 && forall|i: int|
            0 <= i < e.len() ==> nests_within((#[trigger] e[i]).1, (depth - 1) as nat),
        _ => true,
    }
}

/// Of a plain value only the depth counts.
pub proof fn lemma_plain_within(j: JsonView, a: nat, b: nat)
    requires
        plain(j, a),
        nests_within(j, b),
    ensures
        plain(j, b),
    decreases a,
{
    match j {
        JsonView::Arr(v) => {
            assert forall|i: int| 0 <= i < v.len() implies plain(#[trigger] v[i], (b - 1) as nat) by {
                assert(nests_within(v[i], (b - 1) as nat));
                lemma_plain_within(v[i], (a - 1) as nat, (b - 1) as nat);
            }
        },
        JsonView::Obj(e) => {
            assert forall|i: int| 0 <= i < e.len() implies plain((#[trigger] e[i]).1, (b - 1) as nat) by {
                assert(nests_within(e[i].1, (b - 1) as nat));
                lemma_plain_within(e[i].1, (a - 1) as nat, (b - 1) as nat);
            }
        },
        _ => {},
    }
}

/// Under distinct keys, the value at a place is the one under its key.
pub proof fn lemma_member_at(e: Seq<(Seq<char>, JsonView)>, i: int)
    requires
        keys_distinct(e),
        0 <= i < e.len(),
    ensures
        member(JsonView::Obj(e), e[i].0) == Some(e[i].1),
{
    lemma_key_at(e, 0, i);
}

proof fn lemma_key_at(e: Seq<(Seq<char>, JsonView)>, from: int, i: int)
    requires
        keys_distinct(e),
        0 <= from <= i < e.len(),
    ensures
        key_from(e, e[i].0, from) == i,
    decreases i - from,
{
    if from < i {
        assert(e[from].0 != e[i].0);
        lemma_key_at(e, from + 1, i);
    }
}

/// The text of a JSON value.
pub open spec fn json_text(j: JsonView) -> Seq<char> {
    json_print(value_built(j))
}

/// `serde_json::from_str` into a `Value`: the result depends on the text alone. It fails on a text that is
/// nested deeper than the limit, and what it gives is plain, as every `Value` is but for its depth.
#[verifier::external_body]
fn value_from_text(text: &str) -> (r: Option<Value>)
    ensures
        match r {
            Some(v) => json_parse(text@) == Some(value_tree(v)) && plain(
                value_tree(v),
                DEPTH_READ_BACK as nat,
            ),
            None => json_parse(text@) is None,
        },
{
    serde_json::from_str(text).ok()
}

/// The content of a `serde_json::Value`, variant by variant. A number is asked for as `u64`, as
/// `i64` and as a double, in this order, which tells its three representations apart; a double comes with the
/// text that it prints as.
#[verifier::external_body]
fn json_of_value(v: Value) -> (r: Json)
    ensures
        r@ == value_tree(v),
        r matches Json::Num(JsonNumber::Float { bits, text }) ==> double_text(bits) == Some(text@),
{
    match v {
        Value::Null => Json::Null,
        Value::Bool(b) => Json::Bool(b),
        Value::Number(n) => Json::Num(match (n.as_u64(), n.as_i64()) {
            (Some(u), _) => JsonNumber::Uint(u),
            (_, Some(i)) => JsonNumber::Int(i),
            _ => JsonNumber::Float { bits: n.as_f64().unwrap_or_default().to_bits(), text: n.to_string() },
        }),
        Value::String(s) => Json::Str(s),
        Value::Array(a) => Json::Arr(a.into_iter().map(json_of_value).collect()),
        Value::Object(m) => Json::Obj(m.into_iter().map(|(k, x)| (k, json_of_value(x))).collect()),
    }
}

/// The `serde_json::Value` with the given content, variant by variant; its map takes the entries
/// of an object in their order. A double is built from its printed text by `str::parse`, which gives back the
/// double of the shortest text that stands for it. The content of a plain value is kept as it is.
#[verifier::external_body]
fn value_of_json(j: &Json) -> (r: Value)
    ensures
        value_tree(r) == value_built(j@),
        plain(j@, DEPTH_READ_BACK as nat) ==> value_tree(r) == j@,
{
    match j {
        Json::Null => Value::Null,
        Json::Bool(b) => Value::Bool(*b),
        Json::Num(JsonNumber::Uint(n)) => Value::from(*n),
        Json::Num(JsonNumber::Int(n)) => Value::from(*n),
        Json::Num(JsonNumber::Float { text, .. }) => text.parse().ok().and_then(Number::from_f64).into(),
        Json::Str(s) => Value::String(s.clone()),
        Json::Arr(v) => v.iter().map(value_of_json).collect(),
        Json::Obj(v) => v.iter().map(|(k, x)| (k.clone(), value_of_json(x))).collect(),
    }
}

/// The text stays on one line.
pub open spec fn one_line(s: Seq<char>) -> bool {
    forall|i: int| 0 <= i < s.len() ==> (#[trigger] s[i]) != '\n' && s[i] != '\r'
}

/// `Value::to_string`: compact JSON text, which depends on the content alone. Strings are printed with
/// their control characters escaped and nothing is printed between the parts, so the text stays on one line;
/// that of an object begins with a brace. Each entry of an object is printed with one colon, and a string with
/// the quotation marks and the backslashes in it escaped, so the colons between the strings number the entries.
/// `serde_json::from_str` reads a plain value back from its text, its
/// doubles too, since the feature `float_roundtrip` is on.
#[verifier::external_body]
fn value_text(v: &Value) -> (r: String)
    ensures
        r@ == json_print(value_tree(*v)),
        one_line(r@),
        value_tree(*v) is Obj ==> r@.len() > 0 && r@[0] == '{',
        colons(r@) == entries(value_tree(*v)),
        plain(value_tree(*v), DEPTH_READ_BACK as nat) ==> json_parse(r@) == Some(value_tree(*v)),
{
    v.to_string()
}

/// The JSON document that the text is. What is read is plain.
pub fn parse_json(text: &str) -> (r: Option<Json>)
    ensures
        opt_json(r) == json_parse(text@),
        r matches Some(j) ==> plain(j@, DEPTH_READ_BACK as nat),
{
    match value_from_text(text) {
        Some(v) => Some(json_of_value(v)),
        None => None,
    }
}

impl Json {
    /// The compact text of the value. A plain value is read back from it, and the text gives no key twice.
    pub fn to_text(&self) -> (r: String)
        ensures
            r@ == json_text(self@),
            one_line(r@),
            plain(self@, DEPTH_READ_BACK as nat) ==> written_once(r@),
            self@ is Obj && plain(self@, DEPTH_READ_BACK as nat) ==> r@.len() > 0 && r@[0] == '{',
            plain(self@, DEPTH_READ_BACK as nat) ==> json_parse(r@) == Some(self@),
    {
        let v = value_of_json(self);
        value_text(&v)
    }
}

/// The member of an object under a name is the value of the first entry that has the name; without such an entry,
/// or in what is no object, there is none.
pub proof fn law_member_is_first(e: Seq<(Seq<char>, JsonView)>, key: Seq<char>, v: JsonView, j: JsonView)
    ensures
        member(JsonView::Obj(seq![(key, v)] + e), key) == Some(v),
        (forall|i: int| 0 <= i < e.len() ==> (#[trigger] e[i]).0 != key) ==> member(JsonView::Obj(e), key)
            is None && member(JsonView::Obj(e.push((key, v))), key) == Some(v),
        member(JsonView::Obj(e), key) is Some ==> member(JsonView::Obj(e.push((key, v))), key) == member(
            JsonView::Obj(e),
            key,
        ),
        !(j is Obj) ==> member(j, key) is None,
{
    let a = seq![(key, v)] + e;
    assert(a[0].0 == key);
    lemma_first_key(e, key, 0);
    let b = e.push((key, v));
    lemma_first_key(b, key, 0);
    assert(b[e.len() as int].0 == key);
    let k = key_from(b, key, 0);
    if k < e.len() {
        assert(e[k] == b[k]);
        if key_from(e, key, 0) < k {
            assert(b[key_from(e, key, 0)] == e[key_from(e, key, 0)]);
        }
    } else if key_from(e, key, 0) < e.len() {
        assert(b[key_from(e, key, 0)] == e[key_from(e, key, 0)]);
    }
}

proof fn lemma_first_key(e: Seq<(Seq<char>, JsonView)>, key: Seq<char>, i: int)
    requires
        0 <= i <= e.len(),
    ensures
        i <= key_from(e, key, i) <= e.len(),
        forall|k: int| i <= k < key_from(e, key, i) ==> (#[trigger] e[k]).0 != key,
        key_from(e, key, i) < e.len() ==> e[key_from(e, key, i)].0 == key,
    decreases e.len() - i,
{
    if i < e.len() && e[i].0 != key {
        lemma_first_key(e, key, i + 1);
    }
}

/// A text, a count and a truth value are read where there is one of that kind, and nowhere else: nothing is turned
/// from one kind into another.
pub proof fn law_kinds_kept(s: Seq<char>, n: u64, b: bool, m: i64, j: JsonView)
    ensures
        as_text(JsonView::Str(s)) == Some(s),
        as_uint(JsonView::Num(NumberView::Uint(n))) == Some(n),
        as_bool(JsonView::Bool(b)) == Some(b),
        as_text(j) matches Some(t) ==> j == JsonView::Str(t),
        as_uint(j) matches Some(k) ==> j == JsonView::Num(NumberView::Uint(k)),
        as_bool(j) matches Some(c) ==> j == JsonView::Bool(c),
{
}

/// A member of a kind is the member, where it is of that kind.
pub proof fn law_members_of_kinds(j: JsonView, key: Seq<char>, v: JsonView)
    ensures
        member(j, key) == Some(v) ==> text_member(j, key) == as_text(v) && uint_member(j, key) == as_uint(v)
            && bool_member(j, key) == as_bool(v),
        member(j, key) is None ==> text_member(j, key) is None && uint_member(j, key) is None && bool_member(
            j,
            key,
        ) is None,
{
}

/// A record is written as an object, whose fields are found by name, or as an array of all of them, in which they
/// are found by place.
pub proof fn law_fields_found(
    e: Seq<(Seq<char>, JsonView)>,
    a: Seq<JsonView>,
    v: JsonView,
    b: Seq<JsonView>,
    key: Seq<char>,
)
    ensures
        has_fields(JsonView::Obj(e), b.len()),
        has_fields(JsonView::Arr(a), b.len()) <==> a.len() == b.len(),
        has_fields(v, b.len()) ==> v is Obj || v is Arr,
        field(JsonView::Obj(e), key, a.len() as int) == member(JsonView::Obj(e), key),
        field(JsonView::Arr(a + seq![v] + b), key, a.len() as int) == Some(v),
        field(JsonView::Arr(a), key, a.len() as int) is None,
        field(v, key, 0) matches Some(w) ==> (text_field(v, key, 0) == as_text(w) && uint_field(v, key, 0)
            == as_uint(w)),
        field(v, key, 0) is None ==> text_field(v, key, 0) is None && uint_field(v, key, 0) is None,
{
}

} // verus!
