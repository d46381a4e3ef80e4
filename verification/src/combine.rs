//! Combining many documents into one rendering.
//!
//! Each text is parsed on its own; the parsed trees are gathered
//! into one array and handed to the writer.  Any text that fails to
//! parse aborts the whole run with its error.

use vstd::prelude::*;
use crate::deserializer::Deserializer;
use crate::deserializer::write_value;
use crate::grammar::spec_parse;
use crate::parser::JsonParser;
use crate::value::JsonValue;
use crate::value::ParseOutcome;
use crate::value::ParserError;
use crate::value::SpecJson;
use crate::value::elems_view;
use crate::value::lemma_views_of_elems;
use crate::value::view_of;
use crate::value::views_of_elems;

verus! {

/// The tree a whole text parses to; meaningful only where the parse
/// succeeds.
pub open spec fn parsed_doc(s: Seq<char>) -> SpecJson {
    match spec_parse(s, 0) {
        ParseOutcome::Val(v, p) => v,
        ParseOutcome::Fail(e) => SpecJson::Null,
    }
}

/// Parses every text and renders the array of all the parsed trees.
/// Succeeds exactly when every text parses; the first text that
/// does not aborts the run with that text's error.
pub fn combine_json(texts: &Vec<String>) -> (r: Result<String, ParserError>)
    ensures
        match r {
            Ok(out) => {
                &&& forall|k: int|
                    0 <= k < texts@.len() ==> (#[trigger] spec_parse(texts@[k]@, 0)) is Val
                &&& out@ == write_value(
                    SpecJson::Array(Seq::new(texts@.len(), |k: int| parsed_doc(texts@[k]@))),
                )
            },
            Err(e) => exists|k: int|
                {
                    &&& 0 <= k < texts@.len()
                    &&& (#[trigger] spec_parse(texts@[k]@, 0)) == ParseOutcome::Fail(e)
                    &&& forall|m: int|
                        0 <= m < k ==> (#[trigger] spec_parse(texts@[m]@, 0)) is Val
                },
        },
{
    let mut parsed: Vec<JsonValue> = Vec::new();
    let mut i: usize = 0;
    loop
        invariant
            0 <= i as int <= texts@.len(),
            parsed@.len() == i as int,
            forall|k: int| 0 <= k < i as int ==> (#[trigger] spec_parse(texts@[k]@, 0)) is Val,
            forall|k: int|
                0 <= k < i as int ==> view_of(#[trigger] parsed@[k]) == parsed_doc(texts@[k]@),
        ensures
            parsed@.len() == texts@.len(),
            forall|k: int|
                0 <= k < texts@.len() ==> (#[trigger] spec_parse(texts@[k]@, 0)) is Val,
            forall|k: int|
                0 <= k < texts@.len() ==> view_of(#[trigger] parsed@[k]) == parsed_doc(
                    texts@[k]@,
                ),
        decreases texts@.len() - i as int,
    {
        if i >= texts.len() {
            break;
        }
        let mut parser = JsonParser { input: texts[i].clone(), cursor: 0 };
        match parser.parse() {
            Ok(value) => {
                parsed.push(value);
            },
            Err(e) => {
                return Err(e);
            },
        }
        i = i + 1;
    }
    let deserializer: Deserializer = Deserializer { input: JsonValue::Array(parsed) };
    let json_as_string = deserializer.deserialize();
    proof {
        let pv = deserializer.input->Array_0;
        lemma_views_of_elems(pv, 0);
        assert(views_of_elems(pv, 0) =~= elems_view(pv@));
        assert(elems_view(pv@) =~= Seq::new(texts@.len(), |k: int| parsed_doc(texts@[k]@)));
    }
    Ok(json_as_string)
}

} // verus!
