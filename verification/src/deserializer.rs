//! The tree-to-text writer.
//!
//! Rendering is deliberately lossy: every leaf is quoted, and the
//! numeric, boolean and null leaves are all rendered as an empty
//! quoted string, so the writer's output cannot be read back into
//! the tree that produced it.  The exact text is stated by
//! [`write_value`], and [`Deserializer::deserialize`] is proved to
//! return it.

use vstd::prelude::*;
use vstd::string::StrSliceExecFns;
use vstd::string::StringExecFns;
use crate::value::JsonValue;
use crate::value::SpecJson;
use crate::value::entries_view;
use crate::value::elems_view;
use crate::value::lemma_views_of_elems;
use crate::value::lemma_views_of_entries;
use crate::value::view_of;
use crate::value::views_of_elems;
use crate::value::views_of_entries;

verus! {

/// A rendering pass over one parsed value.
#[derive(Debug)]
pub struct Deserializer {
    pub input: JsonValue,
}

/// What remains of a text after its last two characters are taken
/// back; a shorter text is emptied.
pub open spec fn drop_last2(s: Seq<char>) -> Seq<char> {
    if s.len() >= 2 {
        s.take(s.len() - 2)
    } else {
        Seq::empty()
    }
}

/// One rendered object entry: ` "key": "body", `.
pub open spec fn write_entry(key: Seq<char>, body: Seq<char>) -> Seq<char> {
    seq![' ', '"'] + key + seq!['"', ':', ' ', '"'] + body + seq!['"', ',', ' ']
}

/// The text a value renders to.  Only strings keep their content;
/// every other leaf renders empty.
pub open spec fn write_value(v: SpecJson) -> Seq<char>
    decreases v, 0int,
{
    match v {
        SpecJson::Null => Seq::empty(),
        SpecJson::Bool(b) => Seq::empty(),
        SpecJson::Number(n) => Seq::empty(),
        SpecJson::String(s) => s,
        SpecJson::Array(es) => drop_last2(seq!['['] + write_elems(es, 0)) + seq![']', '\n'],
        SpecJson::Object(es) => drop_last2(seq!['{'] + write_entries(es, 0)) + seq![' ', '}'],
    }
}

/// The rendered entries of an object, from index `i` on.
pub open spec fn write_entries(es: Seq<(Seq<char>, SpecJson)>, i: int) -> Seq<char>
    decreases es, es.len() - i,
{
    if 0 <= i < es.len() {
        write_entry(es[i].0, write_value(es[i].1)) + write_entries(es, i + 1)
    } else {
        Seq::empty()
    }
}

/// The rendered elements of an array, from index `i` on: each
/// element is followed by `, `.
pub open spec fn write_elems(es: Seq<SpecJson>, i: int) -> Seq<char>
    decreases es, es.len() - i,
{
    if 0 <= i < es.len() {
        write_value(es[i]) + seq![',', ' '] + write_elems(es, i + 1)
    } else {
        Seq::empty()
    }
}

/// A non-empty rendered entry list ends with `, `.
proof fn lemma_write_entries_ends(es: Seq<(Seq<char>, SpecJson)>, i: int)
    requires
        0 <= i < es.len(),
    ensures
        write_entries(es, i).len() >= 2,
        write_entries(es, i)[write_entries(es, i).len() - 1] == ' ',
        write_entries(es, i)[write_entries(es, i).len() - 2] == ',',
    decreases es.len() - i,
{
    let w = write_entry(es[i].0, write_value(es[i].1));
    let x = seq![' ', '"'] + es[i].0 + seq!['"', ':', ' ', '"'] + write_value(es[i].1);
    let t = seq!['"', ',', ' '];
    assert(w =~= x + t);
    assert(t.len() == 3 && t[2] == ' ' && t[1] == ',');
    assert((x + t)[x.len() as int + 2] == t[2] && (x + t)[x.len() as int + 1] == t[1]);
    assert(w.len() >= 2 && w[w.len() - 1] == ' ' && w[w.len() - 2] == ',');
    if i + 1 < es.len() {
        lemma_write_entries_ends(es, i + 1);
    } else {
        reveal_with_fuel(write_entries, 2);
        assert(write_entries(es, i) =~= w);
    }
}

/// A non-empty rendered element list ends with `, `.
proof fn lemma_write_elems_ends(es: Seq<SpecJson>, i: int)
    requires
        0 <= i < es.len(),
    ensures
        write_elems(es, i).len() >= 2,
        write_elems(es, i)[write_elems(es, i).len() - 1] == ' ',
        write_elems(es, i)[write_elems(es, i).len() - 2] == ',',
    decreases es.len() - i,
{
    let w = write_value(es[i]) + seq![',', ' '];
    assert(w[w.len() - 1] == ' ' && w[w.len() - 2] == ',');
    if i + 1 < es.len() {
        lemma_write_elems_ends(es, i + 1);
    } else {
        reveal_with_fuel(write_elems, 2);
        assert(write_elems(es, i) =~= w);
    }
}

/// The writer tells the non-string leaves apart from nothing: any
/// two numbers, a boolean and null all render to the same (empty)
/// content, so rendering cannot be inverted and a round trip through
/// the writer does not preserve leaf types.
pub proof fn lemma_writer_lossy(a: int, b: int)
    ensures
        write_value(SpecJson::Number(a)) == write_value(SpecJson::Number(b)),
        write_value(SpecJson::Number(a)) == write_value(SpecJson::Bool(true)),
        write_value(SpecJson::Number(a)) == write_value(SpecJson::Bool(false)),
        write_value(SpecJson::Number(a)) == write_value(SpecJson::Null),
{
}

/// Relies on `String::push`: appends exactly the given character.
#[verifier::external_body]
fn push_char(s: &mut String, c: char)
    ensures
        final(s)@ == old(s)@.push(c),
{
    s.push(c);
}

/// Relies on `String::pop`: removes and returns the last character
/// of a non-empty string, and leaves an empty one as it is.
#[verifier::external_body]
fn pop_char(s: &mut String) -> (r: Option<char>)
    ensures
        old(s)@.len() == 0 ==> final(s)@ == old(s)@ && r is None,
        old(s)@.len() > 0 ==> final(s)@ == old(s)@.drop_last() && r == Some(old(s)@.last()),
{
    s.pop()
}

impl Deserializer {
    /// Renders the held value to text, exactly as [`write_value`]
    /// states.
    pub fn deserialize(&self) -> (r: String)
        ensures
            r@ == write_value(self.input@),
    {
        let value: String = self.deserialize_helper(&self.input);
        value
    }

    /// Renders one value.
    fn deserialize_helper(&self, value: &JsonValue) -> (r: String)
        ensures
            r@ == write_value(view_of(*value)),
        decreases value, 1int,
    {
        match value {
            JsonValue::Array(array) => {
                let r = self.deserialize_array(array);
                proof {
                    lemma_views_of_elems(*array, 0);
                    assert(views_of_elems(*array, 0) =~= elems_view(array@));
                }
                r
            },
            JsonValue::Object(map) => {
                let r = self.deserialize_object(map);
                proof {
                    lemma_views_of_entries(*map, 0);
                    assert(views_of_entries(*map, 0) =~= entries_view(map@));
                }
                r
            },
            JsonValue::String(text) => text.clone(),
            _ => String::new(),
        }
    }

    /// Renders an object: `{`, each entry quoted, a space before the
    /// closing brace, no trailing comma.
    fn deserialize_object(&self, map: &Vec<(String, JsonValue)>) -> (r: String)
        ensures
            r@ == write_value(SpecJson::Object(entries_view(map@))),
        decreases map, 0int,
    {
        let ghost ev = entries_view(map@);
        let mut builder = String::new();
        push_char(&mut builder, '{');
        let mut i: usize = 0;
        loop
            invariant
                ev == entries_view(map@),
                0 <= i as int <= map@.len(),
                seq!['{'] + write_entries(ev, 0) == builder@ + write_entries(ev, i as int),
            ensures
                ev == entries_view(map@),
                builder@ == seq!['{'] + write_entries(ev, 0),
                i as int == map@.len(),
            decreases map@.len() - i as int,
        {
            if i >= map.len() {
                proof {
                    assert(builder@ + write_entries(ev, i as int) =~= builder@);
                }
                break;
            }
            let ghost b0 = builder@;
            push_char(&mut builder, ' ');
            push_char(&mut builder, '"');
            builder.append(map[i].0.as_str());
            push_char(&mut builder, '"');
            push_char(&mut builder, ':');
            push_char(&mut builder, ' ');
            push_char(&mut builder, '"');
            let body = self.deserialize_helper(&map[i].1);
            builder.append(body.as_str());
            push_char(&mut builder, '"');
            push_char(&mut builder, ',');
            push_char(&mut builder, ' ');
            proof {
                assert(builder@ =~= b0 + write_entry(ev[i as int].0, write_value(ev[i as int].1)));
                assert(b0 + write_entries(ev, i as int) =~= builder@ + write_entries(
                    ev,
                    i as int + 1,
                ));
            }
            i = i + 1;
        }
        let ghost full = builder@;
        pop_char(&mut builder);
        pop_char(&mut builder);
        proof {
            if map@.len() > 0 {
                lemma_write_entries_ends(ev, 0);
                assert(builder@ =~= drop_last2(full));
            } else {
                assert(builder@ =~= drop_last2(full));
            }
        }
        push_char(&mut builder, ' ');
        push_char(&mut builder, '}');
        proof {
            assert(builder@ =~= drop_last2(seq!['{'] + write_entries(ev, 0)) + seq![' ', '}']);
        }
        builder
    }

    /// Renders an array: `[`, each element's rendering separated by
    /// `, `, then `]` and a newline.
    fn deserialize_array(&self, array: &Vec<JsonValue>) -> (r: String)
        ensures
            r@ == write_value(SpecJson::Array(elems_view(array@))),
        decreases array, 0int,
    {
        let ghost ev = elems_view(array@);
        let mut builder = String::new();
        push_char(&mut builder, '[');
        let mut i: usize = 0;
        loop
            invariant
                ev == elems_view(array@),
                0 <= i as int <= array@.len(),
                seq!['['] + write_elems(ev, 0) == builder@ + write_elems(ev, i as int),
            ensures
                ev == elems_view(array@),
                builder@ == seq!['['] + write_elems(ev, 0),
                i as int == array@.len(),
            decreases array@.len() - i as int,
        {
            if i >= array.len() {
                proof {
                    assert(builder@ + write_elems(ev, i as int) =~= builder@);
                }
                break;
            }
            let ghost b0 = builder@;
            let body = self.deserialize_helper(&array[i]);
            builder.append(body.as_str());
            push_char(&mut builder, ',');
            push_char(&mut builder, ' ');
            proof {
                assert(builder@ =~= b0 + (write_value(ev[i as int]) + seq![',', ' ']));
                assert(b0 + write_elems(ev, i as int) =~= builder@ + write_elems(ev, i as int + 1));
            }
            i = i + 1;
        }
        let ghost full = builder@;
        pop_char(&mut builder);
        pop_char(&mut builder);
        proof {
            if array@.len() > 0 {
                lemma_write_elems_ends(ev, 0);
                assert(builder@ =~= drop_last2(full));
            } else {
                assert(builder@ =~= drop_last2(full));
            }
        }
        push_char(&mut builder, ']');
        push_char(&mut builder, '\n');
        proof {
            assert(builder@ =~= drop_last2(seq!['['] + write_elems(ev, 0)) + seq![']', '\n']);
        }
        builder
    }
}

} // verus!
