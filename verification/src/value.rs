//! The parse tree and its mathematical model.

use vstd::prelude::*;

verus! {

/// A parsed JSON-like document: a closed tagged tree of values.
///
/// Numbers are 64-bit signed integers only.  An object keeps its
/// entries in insertion order with pairwise distinct keys; inserting
/// an existing key replaces the earlier value in place.
#[derive(Debug, PartialEq)]
pub enum JsonValue {
    Null,
    Bool(bool),
    Number(i64),
    String(String),
    Array(Vec<JsonValue>),
    Object(Vec<(String, JsonValue)>),
}

/// The mathematical shape of a `JsonValue`: text as character
/// sequences, numbers as unbounded integers.  Contracts speak of
/// this type rather than of the executable one.
pub enum SpecJson {
    Null,
    Bool(bool),
    Number(int),
    String(Seq<char>),
    Array(Seq<SpecJson>),
    Object(Seq<(Seq<char>, SpecJson)>),
}

/// Why parsing failed, with the character offset (not byte offset)
/// at which the failure was detected.
#[derive(Debug, PartialEq, Eq, Structural)]
pub enum ParserError {
    /// The named delimiter was required at this offset and was absent.
    ExpectedChar(char, usize),
    /// An array element must be followed by `,` or `]`.
    ExpectedCommaOrClose(usize),
    /// `}` appeared where a key was required, i.e. right after `{` or
    /// after a separating comma.
    InvalidClosingBrace(usize),
    /// No JSON value begins with the character at this offset.
    UnrecognizedValue(usize),
    /// The input does not continue with `true`, `false` or `null`.
    LiteralMismatch(usize),
    /// A minus sign was not followed by a digit.
    ExpectedDigit(usize),
    /// The number's magnitude does not fit a 64-bit signed integer.
    NumberOutOfRange(usize),
    /// Non-whitespace input remains after the top-level value.
    TrailingInput(usize),
}

/// What one run of the parser produces: a value together with the
/// cursor position just past it, or an error.
pub enum ParseOutcome {
    Val(SpecJson, int),
    Fail(ParserError),
}

/// The model of a `JsonValue`.
pub open spec fn view_of(v: JsonValue) -> SpecJson
    decreases v, 0int,
{
    match v {
        JsonValue::Null => SpecJson::Null,
        JsonValue::Bool(b) => SpecJson::Bool(b),
        JsonValue::Number(n) => SpecJson::Number(n as int),
        JsonValue::String(s) => SpecJson::String(s@),
        JsonValue::Array(a) => SpecJson::Array(views_of_elems(a, 0)),
        JsonValue::Object(entries) => SpecJson::Object(views_of_entries(entries, 0)),
    }
}

/// The models of the elements of an array, from index `i` on.
pub open spec fn views_of_elems(a: Vec<JsonValue>, i: int) -> Seq<SpecJson>
    decreases a, a@.len() - i,
{
    if 0 <= i < a@.len() {
        seq![view_of(a@[i])] + views_of_elems(a, i + 1)
    } else {
        Seq::empty()
    }
}

/// The models of the entries of an object, from index `i` on.
pub open spec fn views_of_entries(entries: Vec<(String, JsonValue)>, i: int) -> Seq<
    (Seq<char>, SpecJson),
>
    decreases entries, entries@.len() - i,
{
    if 0 <= i < entries@.len() {
        seq![(entries@[i].0@, view_of(entries@[i].1))] + views_of_entries(entries, i + 1)
    } else {
        Seq::empty()
    }
}

impl View for JsonValue {
    type V = SpecJson;

    open spec fn view(&self) -> SpecJson {
        view_of(*self)
    }
}

/// The index of `key` among `entries`, or -1 when absent.
pub open spec fn key_index(entries: Seq<(Seq<char>, SpecJson)>, key: Seq<char>) -> int
    decreases entries.len(),
{
    if entries.len() == 0 {
        -1
    } else if entries[0].0 == key {
        0
    } else {
        let t = key_index(entries.drop_first(), key);
        if t < 0 {
            -1
        } else {
            t + 1
        }
    }
}

/// Key-based insertion: the value of an existing key is replaced in
/// place, a new key is appended.  Last write wins.
pub open spec fn obj_insert(
    entries: Seq<(Seq<char>, SpecJson)>,
    key: Seq<char>,
    v: SpecJson,
) -> Seq<(Seq<char>, SpecJson)> {
    let k = key_index(entries, key);
    if k >= 0 {
        entries.update(k, (key, v))
    } else {
        entries.push((key, v))
    }
}

/// Where `key_index` points and what it means: a non-negative result
/// is the first entry holding `key`, a negative one says no entry
/// holds it.
pub proof fn lemma_key_index(entries: Seq<(Seq<char>, SpecJson)>, key: Seq<char>)
    ensures
        key_index(entries, key) >= 0 ==> {
            &&& key_index(entries, key) < entries.len()
            &&& entries[key_index(entries, key)].0 == key
            &&& forall|m: int| 0 <= m < key_index(entries, key) ==> entries[m].0 != key
        },
        key_index(entries, key) < 0 ==> forall|m: int|
            0 <= m < entries.len() ==> entries[m].0 != key,
    decreases entries.len(),
{
    if entries.len() > 0 && entries[0].0 != key {
        lemma_key_index(entries.drop_first(), key);
        let t = key_index(entries.drop_first(), key);
        assert forall|m: int| 0 <= m < entries.len() && (t < 0 || m < t + 1) implies entries[m].0
            != key || (t >= 0 && m == t + 1) by {
            if m > 0 {
                assert(entries.drop_first()[m - 1] == entries[m]);
            }
        }
        if t >= 0 {
            assert(entries.drop_first()[t] == entries[t + 1]);
        }
    }
}

/// The keys of an entry list are pairwise distinct.
pub open spec fn unique_keys(es: Seq<(Seq<char>, SpecJson)>) -> bool {
    forall|i: int, j: int| #![trigger es[i], es[j]] 0 <= i < j < es.len() ==> es[i].0 != es[j].0
}

/// A well-formed tree: every object in it has pairwise distinct
/// keys.
pub open spec fn wf_json(v: SpecJson) -> bool
    decreases v, 0int,
{
    match v {
        SpecJson::Array(es) => wf_elems(es, 0),
        SpecJson::Object(es) => unique_keys(es) && wf_entries(es, 0),
        _ => true,
    }
}

/// The elements of an array are well-formed, from index `i` on.
pub open spec fn wf_elems(es: Seq<SpecJson>, i: int) -> bool
    decreases es, es.len() - i,
{
    if 0 <= i < es.len() {
        wf_json(es[i]) && wf_elems(es, i + 1)
    } else {
        true
    }
}

/// The entry values of an object are well-formed, from index `i` on.
pub open spec fn wf_entries(es: Seq<(Seq<char>, SpecJson)>, i: int) -> bool
    decreases es, es.len() - i,
{
    if 0 <= i < es.len() {
        wf_json(es[i].1) && wf_entries(es, i + 1)
    } else {
        true
    }
}

/// `wf_elems` element by element.
pub proof fn lemma_wf_elems(es: Seq<SpecJson>, i: int)
    requires
        0 <= i <= es.len(),
    ensures
        wf_elems(es, i) <==> (forall|k: int| i <= k < es.len() ==> wf_json(#[trigger] es[k])),
    decreases es.len() - i,
{
    if i < es.len() {
        lemma_wf_elems(es, i + 1);
    }
}

/// `wf_entries` entry by entry.
pub proof fn lemma_wf_entries(es: Seq<(Seq<char>, SpecJson)>, i: int)
    requires
        0 <= i <= es.len(),
    ensures
        wf_entries(es, i) <==> (forall|k: int|
            i <= k < es.len() ==> wf_json((#[trigger] es[k]).1)),
    decreases es.len() - i,
{
    if i < es.len() {
        lemma_wf_entries(es, i + 1);
    }
}

/// Key-based insertion keeps keys pairwise distinct and entry
/// values well-formed: replacing in place introduces no new key,
/// and a key is appended only where it is absent.
pub proof fn lemma_obj_insert_wf(es: Seq<(Seq<char>, SpecJson)>, key: Seq<char>, v: SpecJson)
    requires
        unique_keys(es),
        wf_entries(es, 0),
        wf_json(v),
    ensures
        unique_keys(obj_insert(es, key, v)),
        wf_entries(obj_insert(es, key, v), 0),
        obj_insert(es, key, v).len() >= 1,
{
    lemma_key_index(es, key);
    lemma_wf_entries(es, 0);
    let out = obj_insert(es, key, v);
    let k = key_index(es, key);
    if k >= 0 {
        assert forall|i: int, j: int|
            #![trigger out[i], out[j]]
            0 <= i < j < out.len() implies out[i].0 != out[j].0 by {
            assert(es[i].0 != es[j].0);
        }
    } else {
        assert forall|i: int, j: int|
            #![trigger out[i], out[j]]
            0 <= i < j < out.len() implies out[i].0 != out[j].0 by {
            if j < es.len() {
                assert(es[i].0 != es[j].0);
            } else {
                assert(es[i].0 != key);
            }
        }
    }
    lemma_wf_entries(out, 0);
}

/// The model of a sequence of array elements.
pub open spec fn elems_view(a: Seq<JsonValue>) -> Seq<SpecJson> {
    Seq::new(a.len(), |i: int| view_of(a[i]))
}

/// The model of an object's entry list.
pub open spec fn entries_view(entries: Seq<(String, JsonValue)>) -> Seq<(Seq<char>, SpecJson)> {
    Seq::new(entries.len(), |i: int| (entries[i].0@, view_of(entries[i].1)))
}

/// The model of an array value is the pointwise model of its elements.
pub proof fn lemma_views_of_elems(a: Vec<JsonValue>, i: int)
    requires
        0 <= i <= a@.len(),
    ensures
        views_of_elems(a, i) =~= elems_view(a@).skip(i),
    decreases a@.len() - i,
{
    if i < a@.len() {
        lemma_views_of_elems(a, i + 1);
    }
}

/// The model of an object value is the pointwise model of its entries.
pub proof fn lemma_views_of_entries(entries: Vec<(String, JsonValue)>, i: int)
    requires
        0 <= i <= entries@.len(),
    ensures
        views_of_entries(entries, i) =~= entries_view(entries@).skip(i),
    decreases entries@.len() - i,
{
    if i < entries@.len() {
        lemma_views_of_entries(entries, i + 1);
    }
}

/// A deep copy with the same model.
fn clone_value(v: &JsonValue) -> (res: JsonValue)
    ensures
        view_of(res) == view_of(*v),
    decreases v, 1int,
{
    match v {
        JsonValue::Null => JsonValue::Null,
        JsonValue::Bool(val) => JsonValue::Bool(*val),
        JsonValue::Number(val) => JsonValue::Number(*val),
        JsonValue::String(val) => JsonValue::String(val.clone()),
        JsonValue::Array(array) => {
            let out = clone_elems(array);
            let res = JsonValue::Array(out);
            proof {
                lemma_views_of_elems(res->Array_0, 0);
                lemma_views_of_elems(*array, 0);
                assert(views_of_elems(res->Array_0, 0) =~= views_of_elems(*array, 0));
            }
            res
        },
        JsonValue::Object(entries) => {
            let out = clone_entries(entries);
            let res = JsonValue::Object(out);
            proof {
                lemma_views_of_entries(res->Object_0, 0);
                lemma_views_of_entries(*entries, 0);
                assert(views_of_entries(res->Object_0, 0) =~= views_of_entries(*entries, 0));
            }
            res
        },
    }
}

/// Deep copies of an array's elements.
fn clone_elems(array: &Vec<JsonValue>) -> (out: Vec<JsonValue>)
    ensures
        out@.len() == array@.len(),
        forall|k: int| 0 <= k < array@.len() ==> view_of(#[trigger] out@[k]) == view_of(array@[k]),
    decreases array, 0int,
{
    let mut out: Vec<JsonValue> = Vec::new();
    let mut i: usize = 0;
    loop
        invariant
            0 <= i as int <= array@.len(),
            out@.len() == i as int,
            forall|k: int| 0 <= k < i as int ==> view_of(#[trigger] out@[k]) == view_of(array@[k]),
        ensures
            out@.len() == array@.len(),
            forall|k: int|
                0 <= k < array@.len() ==> view_of(#[trigger] out@[k]) == view_of(array@[k]),
        decreases array@.len() - i as int,
    {
        if i >= array.len() {
            break;
        }
        out.push(clone_value(&array[i]));
        i = i + 1;
    }
    out
}

/// Deep copies of an object's entries.
fn clone_entries(entries: &Vec<(String, JsonValue)>) -> (out: Vec<(String, JsonValue)>)
    ensures
        out@.len() == entries@.len(),
        forall|k: int|
            0 <= k < entries@.len() ==> (#[trigger] out@[k]).0@ == entries@[k].0@ && view_of(
                out@[k].1,
            ) == view_of(entries@[k].1),
    decreases entries, 0int,
{
    let mut out: Vec<(String, JsonValue)> = Vec::new();
    let mut i: usize = 0;
    loop
        invariant
            0 <= i as int <= entries@.len(),
            out@.len() == i as int,
            forall|k: int|
                0 <= k < i as int ==> (#[trigger] out@[k]).0@ == entries@[k].0@ && view_of(
                    out@[k].1,
                ) == view_of(entries@[k].1),
        ensures
            out@.len() == entries@.len(),
            forall|k: int|
                0 <= k < entries@.len() ==> (#[trigger] out@[k]).0@ == entries@[k].0@ && view_of(
                    out@[k].1,
                ) == view_of(entries@[k].1),
        decreases entries@.len() - i as int,
    {
        if i >= entries.len() {
            break;
        }
        let key = entries[i].0.clone();
        let val = clone_value(&entries[i].1);
        out.push((key, val));
        i = i + 1;
    }
    out
}

impl Clone for JsonValue {
    /// A deep copy whose model is that of the value cloned.
    fn clone(&self) -> (res: Self)
        ensures
            view_of(res) == view_of(*self),
    {
        clone_value(self)
    }
}

} // verus!
