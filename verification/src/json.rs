//! JSON values as the schedule's JSONP payload holds them, and the steps
//! that lead from the payload to the schedule's rows.

use vstd::prelude::*;
use crate::text::{chars_of, string_of};

verus! {

broadcast use vstd::string::group_string_axioms;

/// A JSON value. Numbers keep their text.
#[derive(Debug, PartialEq)]
pub enum JsonValue {
    Null,
    Bool(bool),
    Number(String),
    String(String),
    Array(Vec<JsonValue>),
    Object(Vec<(String, JsonValue)>),
}

/// The model of a JSON value.
pub enum JsonView {
    Null,
    Bool(bool),
    Number(Seq<char>),
    Str(Seq<char>),
    Array(Seq<JsonView>),
    Object(Seq<(Seq<char>, JsonView)>),
}

/// The model of a JSON value: its texts as character sequences.
pub open spec fn json_view(v: JsonValue) -> JsonView
    decreases v,
{
    match v {
        JsonValue::Null => JsonView::Null,
        JsonValue::Bool(b) => JsonView::Bool(b),
        JsonValue::Number(n) => JsonView::Number(n@),
        JsonValue::String(s) => JsonView::Str(s@),
        JsonValue::Array(items) => JsonView::Array(
            Seq::new(
                items@.len(),
                |i: int|
                    if 0 <= i < items@.len() {
                        json_view(items@[i])
                    } else {
                        JsonView::Null
                    },
            ),
        ),
        JsonValue::Object(entries) => JsonView::Object(
            Seq::new(
                entries@.len(),
                |i: int|
                    if 0 <= i < entries@.len() {
                        (entries@[i].0@, json_view(entries@[i].1))
                    } else {
                        (Seq::empty(), JsonView::Null)
                    },
            ),
        ),
    }
}

impl View for JsonValue {
    type V = JsonView;

    open spec fn view(&self) -> JsonView {
        json_view(*self)
    }
}

/// `json[i].as_str()`: the text of element `i` when `json` is an array whose
/// element `i` is a string.
pub open spec fn json_str_at(json: JsonValue, i: int) -> Option<Seq<char>> {
    match json {
        JsonValue::Array(items) => if 0 <= i < items@.len() {
            match items@[i] {
                JsonValue::String(s) => Some(s@),
                _ => None,
            }
        } else {
            None
        },
        _ => None,
    }
}

/// `json[i].as_str().unwrap_or_default()`
pub open spec fn json_text_at(json: JsonValue, i: int) -> Seq<char> {
    match json_str_at(json, i) {
        Some(s) => s,
        None => seq![],
    }
}

/// The text of element `i` when it is a string.
pub fn str_at(json: &JsonValue, i: usize) -> (r: Option<&String>)
    ensures
        match r {
            Some(s) => json_str_at(*json, i as int) == Some(s@),
            None => json_str_at(*json, i as int) is None,
        },
{
    match json {
        JsonValue::Array(items) => {
            if i < items.len() {
                match &items[i] {
                    JsonValue::String(s) => Some(s),
                    _ => None,
                }
            } else {
                None
            }
        },
        _ => None,
    }
}

/// The text of element `i` when it is a string, else the empty text.
pub fn text_at(json: &JsonValue, i: usize) -> (s: String)
    ensures
        s@ == json_text_at(*json, i as int),
{
    match str_at(json, i) {
        Some(s) => s.clone(),
        None => String::new(),
    }
}

/// The index of the first `c` at or after `k` in `t`.
pub open spec fn first_char_index_from(t: Seq<char>, c: char, k: int) -> Option<int>
    decreases t.len() - k,
{
    if k < 0 || k >= t.len() {
        None
    } else if t[k] == c {
        Some(k)
    } else {
        first_char_index_from(t, c, k + 1)
    }
}

/// The index of the first `c` in `t`.
pub open spec fn first_char_index(t: Seq<char>, c: char) -> Option<int> {
    first_char_index_from(t, c, 0)
}

/// The index of the last `c` before index `e` in `t`.
pub open spec fn last_char_index_before(t: Seq<char>, c: char, e: int) -> Option<int>
    decreases e,
{
    if e <= 0 || e > t.len() {
        None
    } else if t[e - 1] == c {
        Some(e - 1)
    } else {
        last_char_index_before(t, c, e - 1)
    }
}

/// The index of the last `c` in `t`.
pub open spec fn last_char_index(t: Seq<char>, c: char) -> Option<int> {
    last_char_index_before(t, c, t.len() as int)
}

/// The payload of a JSONP answer can be cut out: it holds a `{`, a `}`, and
/// the last `}` does not stand before the character preceding the first `{`.
pub open spec fn has_jsonp_payload(t: Seq<char>) -> bool {
    &&& first_char_index(t, '{') is Some
    &&& last_char_index(t, '}') is Some
    &&& first_char_index(t, '{')->0 <= last_char_index(t, '}')->0 + 1
}

/// From the first `{` through the last `}`.
pub open spec fn jsonp_payload(t: Seq<char>) -> Seq<char> {
    t.subrange(first_char_index(t, '{')->0, last_char_index(t, '}')->0 + 1)
}

/// The payload is what is left of the answer once a prefix holding no `{`
/// and a suffix holding no `}` are taken off; when it is not empty it starts
/// with `{` and ends with `}`.
pub proof fn lemma_jsonp_payload_shape(t: Seq<char>)
    requires
        has_jsonp_payload(t),
    ensures
        exists|i: int, j: int|
            {
                &&& 0 <= i <= j <= t.len()
                &&& jsonp_payload(t) == t.subrange(i, j)
                &&& forall|k: int| 0 <= k < i ==> t[k] != '{'
                &&& forall|k: int| j <= k < t.len() ==> t[k] != '}'
                &&& i < j ==> t[i] == '{' && t[j - 1] == '}'
            },
{
    lemma_first_char_index_from(t, '{', 0);
    lemma_last_char_index_before(t, '}', t.len() as int);
    let i = first_char_index(t, '{')->0;
    let j = last_char_index(t, '}')->0 + 1;
    assert({
        &&& 0 <= i <= j <= t.len()
        &&& jsonp_payload(t) == t.subrange(i, j)
        &&& forall|k: int| 0 <= k < i ==> t[k] != '{'
        &&& forall|k: int| j <= k < t.len() ==> t[k] != '}'
        &&& i < j ==> t[i] == '{' && t[j - 1] == '}'
    });
}

proof fn lemma_first_char_index_from(t: Seq<char>, c: char, k: int)
    requires
        0 <= k,
    ensures
        match first_char_index_from(t, c, k) {
            Some(i) => k <= i < t.len() && t[i] == c && forall|m: int| k <= m < i ==> t[m] != c,
            None => forall|m: int| k <= m < t.len() ==> t[m] != c,
        },
    decreases t.len() - k,
{
    if k < t.len() && t[k] != c {
        lemma_first_char_index_from(t, c, k + 1);
    }
}

proof fn lemma_last_char_index_before(t: Seq<char>, c: char, e: int)
    requires
        e <= t.len(),
    ensures
        match last_char_index_before(t, c, e) {
            Some(i) => 0 <= i < e && t[i] == c && forall|m: int| i < m < e ==> t[m] != c,
            None => forall|m: int| 0 <= m < e ==> t[m] != c,
        },
    decreases e,
{
    if e > 0 && t[e - 1] != c {
        lemma_last_char_index_before(t, c, e - 1);
    }
}

/// Cuts the JSON object out of a JSONP answer such as `jQuery1234({...})`.
pub fn jquery_payload(input: &str) -> (payload: String)
    requires
        has_jsonp_payload(input@),
    ensures
        payload@ == jsonp_payload(input@),
{
    let t = chars_of(input);
    let mut start: usize = 0;
    while t[start] != '{'
        invariant
            t@ == input@,
            has_jsonp_payload(t@),
            start < t@.len(),
            first_char_index(t@, '{') == first_char_index_from(t@, '{', start as int),
        decreases t.len() - start,
    {
        start = start + 1;
    }
    let mut end: usize = t.len() - 1;
    while t[end] != '}'
        invariant
            t@ == input@,
            has_jsonp_payload(t@),
            end < t@.len(),
            last_char_index(t@, '}') == last_char_index_before(t@, '}', end + 1),
        decreases end,
    {
        assert(last_char_index_before(t@, '}', end + 1) == last_char_index_before(t@, '}', end as int));
        assert(last_char_index_before(t@, '}', 0) is None);
        end = end - 1;
    }
    string_of(&t, start, end + 1)
}

/// The index of the last member named `key` among `entries`.
pub open spec fn member_index(entries: Seq<(String, JsonValue)>, key: Seq<char>) -> Option<int>
    decreases entries.len(),
{
    if entries.len() == 0 {
        None
    } else if entries.last().0@ == key {
        Some(entries.len() - 1)
    } else {
        member_index(entries.drop_last(), key)
    }
}

/// `v[key]`: the value of the last member named `key` when `v` is an object
/// (a later duplicate member replaces an earlier one), else `Null`.
pub open spec fn json_member(v: JsonValue, key: Seq<char>) -> JsonValue {
    match v {
        JsonValue::Object(entries) => match member_index(entries@, key) {
            Some(i) => entries@[i].1,
            None => JsonValue::Null,
        },
        _ => JsonValue::Null,
    }
}

/// `member_index` finds an index of the list.
proof fn lemma_member_index_bounds(entries: Seq<(String, JsonValue)>, key: Seq<char>)
    ensures
        member_index(entries, key) matches Some(i) ==> 0 <= i < entries.len(),
    decreases entries.len(),
{
    if entries.len() > 0 {
        lemma_member_index_bounds(entries.drop_last(), key);
    }
}

/// The schedule rows of the payload's root object: its `aaData` member.
pub fn schedule_data(root: JsonValue) -> (data: JsonValue)
    ensures
        data == json_member(root, "aaData"@),
{
    match root {
        JsonValue::Object(entries) => {
            let ghost orig = entries@;
            let key = "aaData".to_string();
            let mut found: Option<usize> = None;
            let mut i: usize = 0;
            while i < entries.len()
                invariant
                    i <= entries@.len(),
                    entries@ == orig,
                    key@ == "aaData"@,
                    (match found {
                        Some(k) => Some(k as int),
                        None => None,
                    }) == member_index(entries@.take(i as int), key@),
                decreases entries.len() - i,
            {
                assert(entries@.take(i + 1).drop_last() =~= entries@.take(i as int));
                if entries[i].0 == key {
                    found = Some(i);
                }
                i = i + 1;
            }
            assert(entries@.take(entries@.len() as int) =~= entries@);
            proof {
                lemma_member_index_bounds(entries@, key@);
            }
            match found {
                Some(k) => {
                    let mut entries = entries;
                    let (_, v) = entries.remove(k);
                    v
                },
                None => JsonValue::Null,
            }
        },
        _ => JsonValue::Null,
    }
}

/// The models of an object's members.
pub open spec fn entry_views(e: Seq<(String, JsonValue)>) -> Seq<(Seq<char>, JsonView)> {
    Seq::new(
        e.len(),
        |i: int|
            if 0 <= i < e.len() {
                (e[i].0@, json_view(e[i].1))
            } else {
                (Seq::empty(), JsonView::Null)
            },
    )
}

/// The index of the last member named `key` among modelled members.
pub open spec fn view_member_index(entries: Seq<(Seq<char>, JsonView)>, key: Seq<char>) -> Option<int>
    decreases entries.len(),
{
    if entries.len() == 0 {
        None
    } else if entries.last().0 == key {
        Some(entries.len() - 1)
    } else {
        view_member_index(entries.drop_last(), key)
    }
}

/// `v[key]` on a modelled value: the last member named `key` of an object,
/// else `Null`.
pub open spec fn view_member(v: JsonView, key: Seq<char>) -> JsonView {
    match v {
        JsonView::Object(entries) => match view_member_index(entries, key) {
            Some(i) => entries[i].1,
            None => JsonView::Null,
        },
        _ => JsonView::Null,
    }
}

proof fn lemma_member_index_view(e: Seq<(String, JsonValue)>, key: Seq<char>)
    ensures
        member_index(e, key) == view_member_index(entry_views(e), key),
    decreases e.len(),
{
    if e.len() > 0 {
        assert(entry_views(e).drop_last() =~= entry_views(e.drop_last()));
        lemma_member_index_view(e.drop_last(), key);
    }
}

/// The model of `v[key]` is `key`'s member of the model of `v`.
pub proof fn lemma_json_member_view(v: JsonValue, key: Seq<char>)
    ensures
        json_member(v, key)@ == view_member(v@, key),
{
    match v {
        JsonValue::Object(entries) => {
            match json_view(v) {
                JsonView::Object(x) => {
                    assert(x =~= entry_views(entries@));
                },
                _ => {},
            }
            assert(json_view(v) == JsonView::Object(entry_views(entries@)));
            lemma_member_index_view(entries@, key);
            lemma_member_index_bounds(entries@, key);
        },
        _ => {},
    }
}

/// What `serde_json::from_str::<serde_json::Value>` parses from a text, in
/// the library's form (numbers kept as their `to_string` text), or `None`
/// when serde_json rejects the text.
pub uninterp spec fn serde_json_text_value(text: Seq<char>) -> Option<JsonView>;

#[verifier::external_type_specification]
#[verifier::external_body]
pub struct ExSerdeJsonError(serde_json::Error);

#[verifier::external_type_specification]
#[verifier::external_body]
pub struct ExSerdeJsonValue(serde_json::Value);

/// Calls `serde_json::from_str::<serde_json::Value>(text)` and converts the
/// value with `from_serde`. Claimed: the result is `Ok` exactly when
/// `serde_json_text_value` is `Some`, and its model is that value.
#[verifier::external_body]
fn parse_json(text: &str) -> (r: Result<JsonValue, serde_json::Error>)
    ensures
        (r is Ok) == (serde_json_text_value(text@) is Some),
        r matches Ok(v) ==> serde_json_text_value(text@) == Some(v@),
{
    serde_json::from_str::<serde_json::Value>(text).map(from_serde)
}

/// Converts a `serde_json::Value` to the library's form, one variant per
/// arm (numbers by `to_string`); it is the conversion step of `parse_json`,
/// whose contract covers its result, and states nothing of its own.
#[verifier::external_body]
fn from_serde(v: serde_json::Value) -> JsonValue {
    match v {
        serde_json::Value::Null => JsonValue::Null,
        serde_json::Value::Bool(b) => JsonValue::Bool(b),
        serde_json::Value::Number(n) => JsonValue::Number(n.to_string()),
        serde_json::Value::String(s) => JsonValue::String(s),
        serde_json::Value::Array(a) => JsonValue::Array(a.into_iter().map(from_serde).collect()),
        serde_json::Value::Object(m) => JsonValue::Object(m.into_iter().map(|(k, x)| (k, from_serde(x))).collect()),
    }
}

/// Takes the JSONP answer of the schedule service and returns its schedule
/// data: the `aaData` member of the JSON object it wraps.
pub fn parse_jquery(input: &str) -> (r: Result<JsonValue, serde_json::Error>)
    requires
        has_jsonp_payload(input@),
    ensures
        (r is Ok) == (serde_json_text_value(jsonp_payload(input@)) is Some),
        r matches Ok(d) ==> d@ == view_member(
            serde_json_text_value(jsonp_payload(input@))->0,
            "aaData"@,
        ),
{
    let payload = jquery_payload(input);
    let root = parse_json(payload.as_str())?;
    proof {
        lemma_json_member_view(root, "aaData"@);
    }
    Ok(schedule_data(root))
}

} // verus!
