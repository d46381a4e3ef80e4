//! The grammar of the JSON-like language, stated as specification
//! functions over a sequence of characters.
//!
//! Positions are character indices.  Reading past the end of the
//! input yields the reserved sentinel character `'|'`, which is not a
//! legal character of the language; an input character equal to the
//! sentinel behaves as end-of-input.  `spec_parse` is the meaning of
//! one whole run of the parser, and the executable parser is proved
//! to return exactly what it says.

use vstd::prelude::*;
use crate::value::ParseOutcome;
use crate::value::ParserError;
use crate::value::SpecJson;
use crate::value::lemma_obj_insert_wf;
use crate::value::lemma_wf_elems;
use crate::value::obj_insert;
use crate::value::unique_keys;
use crate::value::wf_elems;
use crate::value::wf_entries;
use crate::value::wf_json;

verus! {

/// Whitespace: tab, newline, carriage return, space.
pub open spec fn is_ws(c: char) -> bool {
    c == '\t' || c == '\n' || c == '\r' || c == ' '
}

/// Structural terminators: the characters that may legally follow a
/// string value or an object key.
pub open spec fn is_terminator(c: char) -> bool {
    c == '}' || c == ']' || c == ':' || c == ','
}

/// Decimal digits.
pub open spec fn is_digit(c: char) -> bool {
    '0' <= c && c <= '9'
}

/// Characters that begin a number.
pub open spec fn is_numeric_start(c: char) -> bool {
    c == '-' || is_digit(c)
}

/// The character at position `i`, or the sentinel `'|'` past the end.
pub open spec fn char_at(s: Seq<char>, i: int) -> char {
    if 0 <= i < s.len() {
        s[i]
    } else {
        '|'
    }
}

/// How many consecutive whitespace characters stand at position `i`.
pub open spec fn ws_count(s: Seq<char>, i: int) -> nat
    decreases s.len() - i,
{
    if 0 <= i < s.len() && is_ws(s[i]) {
        1 + ws_count(s, i + 1)
    } else {
        0
    }
}

/// The first position at or after `i` that holds no whitespace.
pub open spec fn skip_ws(s: Seq<char>, i: int) -> int {
    i + ws_count(s, i)
}

/// The follow character of position `i`: the next non-whitespace
/// character strictly after `i`, or the sentinel if none remains.
pub open spec fn follow_char(s: Seq<char>, i: int) -> char {
    char_at(s, skip_ws(s, i + 1))
}

/// How many characters the string scanner takes as literal content
/// from position `i` on.  It stops at end of input, at an input
/// sentinel, and at a `"` whose follow character is a structural
/// terminator; any other `"` counts as content.
pub open spec fn scan_len(s: Seq<char>, i: int) -> nat
    decreases s.len() - i,
{
    if !(0 <= i < s.len()) {
        0
    } else if s[i] == '|' {
        0
    } else if s[i] == '"' && is_terminator(follow_char(s, i)) {
        0
    } else {
        1 + scan_len(s, i + 1)
    }
}

/// The position at which the string scanner stops.
pub open spec fn scan_end(s: Seq<char>, i: int) -> int {
    i + scan_len(s, i)
}

/// The content of a string literal whose first content character
/// stands at `i`.
pub open spec fn scan_content(s: Seq<char>, i: int) -> Seq<char> {
    s.subrange(i, scan_end(s, i))
}

/// The cursor position after the literal: the closing quote is
/// consumed, a missing one is tolerated.
pub open spec fn scan_next(s: Seq<char>, i: int) -> int {
    if char_at(s, scan_end(s, i)) == '"' {
        scan_end(s, i) + 1
    } else {
        scan_end(s, i)
    }
}

/// How many consecutive digits stand at position `i`.
pub open spec fn digit_count(s: Seq<char>, i: int) -> nat
    decreases s.len() - i,
{
    if 0 <= i < s.len() && is_digit(s[i]) {
        1 + digit_count(s, i + 1)
    } else {
        0
    }
}

/// The first position at or after `i` that holds no digit.
pub open spec fn digits_end(s: Seq<char>, i: int) -> int {
    i + digit_count(s, i)
}

/// The value of the digit run `s[i..j]`, most significant digit first.
pub open spec fn digits_val(s: Seq<char>, i: int, j: int) -> int
    decreases j - i,
{
    if i < j {
        digits_val(s, i, j - 1) * 10 + (s[j - 1] as int - '0' as int)
    } else {
        0
    }
}

/// `true` begins at position `i`.
pub open spec fn matches_true(s: Seq<char>, i: int) -> bool {
    &&& 0 <= i
    &&& i + 4 <= s.len()
    &&& s[i] == 't'
    &&& s[i + 1] == 'r'
    &&& s[i + 2] == 'u'
    &&& s[i + 3] == 'e'
}

/// `false` begins at position `i`.
pub open spec fn matches_false(s: Seq<char>, i: int) -> bool {
    &&& 0 <= i
    &&& i + 5 <= s.len()
    &&& s[i] == 'f'
    &&& s[i + 1] == 'a'
    &&& s[i + 2] == 'l'
    &&& s[i + 3] == 's'
    &&& s[i + 4] == 'e'
}

/// `null` begins at position `i`.
pub open spec fn matches_null(s: Seq<char>, i: int) -> bool {
    &&& 0 <= i
    &&& i + 4 <= s.len()
    &&& s[i] == 'n'
    &&& s[i + 1] == 'u'
    &&& s[i + 2] == 'l'
    &&& s[i + 3] == 'l'
}

/// A number at position `i`: an optional minus sign, then one or
/// more digits, stopping at the first non-digit.  The magnitude must
/// fit a 64-bit signed integer.
pub open spec fn spec_parse_number(s: Seq<char>, i: int) -> ParseOutcome {
    let neg = char_at(s, i) == '-';
    let d0 = if neg {
        i + 1
    } else {
        i
    };
    let e = digits_end(s, d0);
    if e == d0 {
        ParseOutcome::Fail(ParserError::ExpectedDigit(d0 as usize))
    } else if digits_val(s, d0, e) > i64::MAX as int {
        ParseOutcome::Fail(ParserError::NumberOutOfRange(i as usize))
    } else if neg {
        ParseOutcome::Val(SpecJson::Number(-digits_val(s, d0, e)), e)
    } else {
        ParseOutcome::Val(SpecJson::Number(digits_val(s, d0, e)), e)
    }
}

/// A boolean literal at position `i`.
pub open spec fn spec_parse_bool(s: Seq<char>, i: int) -> ParseOutcome {
    if matches_true(s, i) {
        ParseOutcome::Val(SpecJson::Bool(true), i + 4)
    } else if matches_false(s, i) {
        ParseOutcome::Val(SpecJson::Bool(false), i + 5)
    } else {
        ParseOutcome::Fail(ParserError::LiteralMismatch(i as usize))
    }
}

/// The `null` literal at position `i`.
pub open spec fn spec_parse_null(s: Seq<char>, i: int) -> ParseOutcome {
    if matches_null(s, i) {
        ParseOutcome::Val(SpecJson::Null, i + 4)
    } else {
        ParseOutcome::Fail(ParserError::LiteralMismatch(i as usize))
    }
}

/// A string literal at position `i`: an opening quote, then scanned
/// content.
pub open spec fn spec_parse_string(s: Seq<char>, i: int) -> ParseOutcome {
    if char_at(s, i) != '"' {
        ParseOutcome::Fail(ParserError::ExpectedChar('"', i as usize))
    } else {
        ParseOutcome::Val(SpecJson::String(scan_content(s, i + 1)), scan_next(s, i + 1))
    }
}

/// What is still ahead of position `i`.
pub open spec fn remaining(s: Seq<char>, i: int) -> int {
    if i <= s.len() {
        s.len() - i
    } else {
        0
    }
}

/// One value parsed from position `i` on: leading whitespace is
/// skipped, then the value's kind is chosen by its first character.
pub open spec fn spec_parse_value(s: Seq<char>, i: int) -> ParseOutcome
    decreases remaining(s, i), 1int,
{
    let j = skip_ws(s, i);
    let c = char_at(s, j);
    if c == '{' {
        spec_parse_object(s, j)
    } else if c == '[' {
        spec_parse_array(s, j)
    } else if is_numeric_start(c) {
        spec_parse_number(s, j)
    } else if c == '"' {
        spec_parse_string(s, j)
    } else if c == 't' || c == 'f' {
        spec_parse_bool(s, j)
    } else if c == 'n' {
        spec_parse_null(s, j)
    } else {
        ParseOutcome::Fail(ParserError::UnrecognizedValue(j as usize))
    }
}

/// An object at position `i`: `{`, then at least one member.
pub open spec fn spec_parse_object(s: Seq<char>, i: int) -> ParseOutcome
    decreases remaining(s, i), 0int,
{
    if char_at(s, i) != '{' {
        ParseOutcome::Fail(ParserError::ExpectedChar('{', i as usize))
    } else {
        spec_parse_members(s, i + 1, Seq::empty())
    }
}

/// The members of an object from position `i` on, with the entries
/// parsed so far.  A `}` before a key is an error, so `{}` is not a
/// value of this language; a later entry for an existing key
/// replaces the earlier value.
pub open spec fn spec_parse_members(
    s: Seq<char>,
    i: int,
    acc: Seq<(Seq<char>, SpecJson)>,
) -> ParseOutcome
    decreases remaining(s, i), 2int,
{
    let j = skip_ws(s, i);
    if char_at(s, j) == '}' {
        ParseOutcome::Fail(ParserError::InvalidClosingBrace(j as usize))
    } else if char_at(s, j) != '"' {
        ParseOutcome::Fail(ParserError::ExpectedChar('"', j as usize))
    } else {
        let key = scan_content(s, j + 1);
        let kpos = scan_next(s, j + 1);
        let j2 = skip_ws(s, kpos);
        if char_at(s, j2) != ':' {
            ParseOutcome::Fail(ParserError::ExpectedChar(':', j2 as usize))
        } else {
            match spec_parse_value(s, j2 + 1) {
                ParseOutcome::Fail(e) => ParseOutcome::Fail(e),
                ParseOutcome::Val(v, p0) => {
                    // A parsed value always ends past where it began;
                    // the lower bound makes that plain to the
                    // termination check and never binds.
                    let p = if p0 >= j2 + 2 {
                        p0
                    } else {
                        j2 + 2
                    };
                    let acc2 = obj_insert(acc, key, v);
                    let j3 = skip_ws(s, p);
                    if char_at(s, j3) == '}' {
                        ParseOutcome::Val(SpecJson::Object(acc2), j3 + 1)
                    } else if char_at(s, j3) != ',' {
                        ParseOutcome::Fail(ParserError::ExpectedChar(',', j3 as usize))
                    } else {
                        spec_parse_members(s, j3 + 1, acc2)
                    }
                },
            }
        }
    }
}

/// An array at position `i`: `[`, then elements.
pub open spec fn spec_parse_array(s: Seq<char>, i: int) -> ParseOutcome
    decreases remaining(s, i), 0int,
{
    if char_at(s, i) != '[' {
        ParseOutcome::Fail(ParserError::ExpectedChar('[', i as usize))
    } else {
        spec_parse_elems(s, i + 1, Seq::empty())
    }
}

/// The elements of an array from position `i` on, with the elements
/// parsed so far.  A `]` may close the array before any element and
/// after a separating comma, so `[]` and trailing commas are
/// accepted.
pub open spec fn spec_parse_elems(s: Seq<char>, i: int, acc: Seq<SpecJson>) -> ParseOutcome
    decreases remaining(s, i), 2int,
{
    if char_at(s, i) == ']' {
        ParseOutcome::Val(SpecJson::Array(acc), i + 1)
    } else if !(0 <= i < s.len()) {
        // What parsing one value at an exhausted position reports.
        ParseOutcome::Fail(ParserError::UnrecognizedValue(skip_ws(s, i) as usize))
    } else {
        match spec_parse_value(s, i) {
            ParseOutcome::Fail(e) => ParseOutcome::Fail(e),
            ParseOutcome::Val(v, p0) => {
                let p = if p0 >= i + 1 {
                    p0
                } else {
                    i + 1
                };
                let j = skip_ws(s, p);
                let acc2 = acc.push(v);
                if char_at(s, j) == ',' {
                    spec_parse_elems(s, j + 1, acc2)
                } else if char_at(s, j) == ']' {
                    ParseOutcome::Val(SpecJson::Array(acc2), j + 1)
                } else {
                    ParseOutcome::Fail(ParserError::ExpectedCommaOrClose(j as usize))
                }
            },
        }
    }
}

/// One whole run of the parser: one value, after which only
/// whitespace may remain.
pub open spec fn spec_parse(s: Seq<char>, i: int) -> ParseOutcome {
    match spec_parse_value(s, i) {
        ParseOutcome::Fail(e) => ParseOutcome::Fail(e),
        ParseOutcome::Val(v, p) => {
            let q = skip_ws(s, p);
            if q < s.len() {
                ParseOutcome::Fail(ParserError::TrailingInput(q as usize))
            } else {
                ParseOutcome::Val(v, q)
            }
        },
    }
}

/// `skip_ws` stays within the input, passes only whitespace, and
/// stops at none.
pub proof fn lemma_skip_ws(s: Seq<char>, i: int)
    requires
        0 <= i <= s.len(),
    ensures
        i <= skip_ws(s, i) <= s.len(),
        !is_ws(char_at(s, skip_ws(s, i))),
        forall|k: int| i <= k < skip_ws(s, i) ==> is_ws(s[k]),
    decreases s.len() - i,
{
    if i < s.len() && is_ws(s[i]) {
        lemma_skip_ws(s, i + 1);
    }
}

/// Skipping whitespace twice is skipping it once.
pub proof fn lemma_skip_ws_idem(s: Seq<char>, i: int)
    requires
        0 <= i,
    ensures
        skip_ws(s, skip_ws(s, i)) == skip_ws(s, i),
    decreases s.len() - i,
{
    if 0 <= i < s.len() && is_ws(s[i]) {
        lemma_skip_ws_idem(s, i + 1);
    }
}

/// The string scanner stays within the input, and stops only at the
/// end, at a sentinel, or at a closing quote.
pub proof fn lemma_scan(s: Seq<char>, i: int)
    requires
        0 <= i <= s.len(),
    ensures
        i <= scan_end(s, i) <= s.len(),
        scan_end(s, i) <= scan_next(s, i) <= s.len(),
        scan_end(s, i) < s.len() ==> s[scan_end(s, i)] == '|' || s[scan_end(s, i)] == '"',
        char_at(s, scan_end(s, i)) == '"' ==> scan_next(s, i) == scan_end(s, i) + 1,
        char_at(s, scan_end(s, i)) != '"' ==> scan_next(s, i) == scan_end(s, i),
    decreases s.len() - i,
{
    if i < s.len() && !(s[i] == '|') && !(s[i] == '"' && is_terminator(follow_char(s, i))) {
        lemma_scan(s, i + 1);
    }
}

/// The digit run stays within the input and ends before a non-digit.
pub proof fn lemma_digits(s: Seq<char>, i: int)
    requires
        0 <= i <= s.len(),
    ensures
        i <= digits_end(s, i) <= s.len(),
        !is_digit(char_at(s, digits_end(s, i))),
        forall|k: int| i <= k < digits_end(s, i) ==> is_digit(s[k]),
    decreases s.len() - i,
{
    if i < s.len() && is_digit(s[i]) {
        lemma_digits(s, i + 1);
    }
}

/// The value of a digit run is non-negative and grows with its
/// length.
pub proof fn lemma_digits_val_mono(s: Seq<char>, i: int, j: int, j2: int)
    requires
        0 <= i <= j <= j2 <= s.len(),
        forall|k: int| i <= k < j2 ==> is_digit(s[k]),
    ensures
        0 <= digits_val(s, i, j) <= digits_val(s, i, j2),
    decreases j2 - i,
{
    if i < j2 {
        if j == j2 {
            lemma_digits_val_mono(s, i, j2 - 1, j2 - 1);
            assert(is_digit(s[j2 - 1]));
            assert(digits_val(s, i, j2) == digits_val(s, i, j2 - 1) * 10 + (s[j2 - 1] as int
                - '0' as int));
        } else {
            lemma_digits_val_mono(s, i, j, j2 - 1);
            lemma_digits_val_mono(s, i, j2 - 1, j2 - 1);
            assert(is_digit(s[j2 - 1]));
        }
    }
}

/// A successfully parsed value ends past where it began and within
/// the input.
pub proof fn lemma_value_progress(s: Seq<char>, i: int)
    requires
        0 <= i,
    ensures
        spec_parse_value(s, i) matches ParseOutcome::Val(v, p) ==> i < p <= s.len(),
    decreases remaining(s, i), 1int,
{
    let j = skip_ws(s, i);
    let c = char_at(s, j);
    if c == '{' {
        lemma_object_progress(s, j);
    } else if c == '[' {
        lemma_array_progress(s, j);
    } else if is_numeric_start(c) {
        let neg = c == '-';
        let d0 = if neg {
            j + 1
        } else {
            j
        };
        lemma_digits(s, d0);
    } else if c == '"' {
        lemma_scan(s, j + 1);
    }
}

/// A successfully parsed object ends past its `{` and within the
/// input.
pub proof fn lemma_object_progress(s: Seq<char>, i: int)
    requires
        0 <= i,
    ensures
        spec_parse_object(s, i) matches ParseOutcome::Val(v, p) ==> i < p <= s.len(),
    decreases remaining(s, i), 0int,
{
    if char_at(s, i) == '{' {
        lemma_members_progress(s, i + 1, Seq::empty());
    }
}

/// A successfully parsed member list ends past where it began and
/// within the input.
pub proof fn lemma_members_progress(s: Seq<char>, i: int, acc: Seq<(Seq<char>, SpecJson)>)
    requires
        0 <= i,
    ensures
        spec_parse_members(s, i, acc) matches ParseOutcome::Val(v, p) ==> i < p <= s.len(),
    decreases remaining(s, i), 2int,
{
    let j = skip_ws(s, i);
    if char_at(s, j) != '}' && char_at(s, j) == '"' {
        lemma_scan(s, j + 1);
        let key = scan_content(s, j + 1);
        let kpos = scan_next(s, j + 1);
        let j2 = skip_ws(s, kpos);
        if char_at(s, j2) == ':' {
            lemma_value_progress(s, j2 + 1);
            match spec_parse_value(s, j2 + 1) {
                ParseOutcome::Fail(e) => {},
                ParseOutcome::Val(v, p0) => {
                    let p = if p0 >= j2 + 2 {
                        p0
                    } else {
                        j2 + 2
                    };
                    let acc2 = obj_insert(acc, key, v);
                    let j3 = skip_ws(s, p);
                    if char_at(s, j3) != '}' && char_at(s, j3) == ',' {
                        lemma_members_progress(s, j3 + 1, acc2);
                    }
                },
            }
        }
    }
}

/// A successfully parsed array ends past its `[` and within the
/// input.
pub proof fn lemma_array_progress(s: Seq<char>, i: int)
    requires
        0 <= i,
    ensures
        spec_parse_array(s, i) matches ParseOutcome::Val(v, p) ==> i < p <= s.len(),
    decreases remaining(s, i), 0int,
{
    if char_at(s, i) == '[' {
        lemma_elems_progress(s, i + 1, Seq::empty());
    }
}

/// A successfully parsed element list ends past where it began and
/// within the input.
pub proof fn lemma_elems_progress(s: Seq<char>, i: int, acc: Seq<SpecJson>)
    requires
        0 <= i,
    ensures
        spec_parse_elems(s, i, acc) matches ParseOutcome::Val(v, p) ==> i < p <= s.len(),
    decreases remaining(s, i), 2int,
{
    if char_at(s, i) == ']' {
    } else if 0 <= i < s.len() {
        lemma_value_progress(s, i);
        match spec_parse_value(s, i) {
            ParseOutcome::Fail(e) => {},
            ParseOutcome::Val(v, p0) => {
                let p = if p0 >= i + 1 {
                    p0
                } else {
                    i + 1
                };
                let j = skip_ws(s, p);
                if char_at(s, j) == ',' {
                    lemma_elems_progress(s, j + 1, acc.push(v));
                }
            },
        }
    }
}

/// Everything the parser accepts is well-formed: every object in a
/// parsed tree has pairwise distinct keys, because insertion is
/// key-based and last write wins.
pub proof fn lemma_parse_wf(s: Seq<char>, i: int)
    requires
        0 <= i,
    ensures
        spec_parse(s, i) matches ParseOutcome::Val(v, p) ==> wf_json(v),
{
    lemma_value_wf(s, i);
}

/// A successfully parsed value is well-formed.
pub proof fn lemma_value_wf(s: Seq<char>, i: int)
    requires
        0 <= i,
    ensures
        spec_parse_value(s, i) matches ParseOutcome::Val(v, p) ==> wf_json(v),
    decreases remaining(s, i), 1int,
{
    let j = skip_ws(s, i);
    let c = char_at(s, j);
    if c == '{' {
        lemma_object_wf(s, j);
    } else if c == '[' {
        lemma_array_wf(s, j);
    }
}

/// A successfully parsed object is well-formed.
proof fn lemma_object_wf(s: Seq<char>, i: int)
    requires
        0 <= i,
    ensures
        spec_parse_object(s, i) matches ParseOutcome::Val(v, p) ==> wf_json(v),
    decreases remaining(s, i), 0int,
{
    if char_at(s, i) == '{' {
        lemma_members_wf(s, i + 1, Seq::empty());
    }
}

/// A successfully parsed member list yields a well-formed object,
/// provided the entries gathered so far are well-formed with
/// pairwise distinct keys.
proof fn lemma_members_wf(s: Seq<char>, i: int, acc: Seq<(Seq<char>, SpecJson)>)
    requires
        0 <= i,
        unique_keys(acc),
        wf_entries(acc, 0),
    ensures
        spec_parse_members(s, i, acc) matches ParseOutcome::Val(v, p) ==> wf_json(v),
    decreases remaining(s, i), 2int,
{
    let j = skip_ws(s, i);
    if char_at(s, j) != '}' && char_at(s, j) == '"' {
        let key = scan_content(s, j + 1);
        let kpos = scan_next(s, j + 1);
        let j2 = skip_ws(s, kpos);
        if char_at(s, j2) == ':' {
            lemma_value_wf(s, j2 + 1);
            match spec_parse_value(s, j2 + 1) {
                ParseOutcome::Fail(e) => {},
                ParseOutcome::Val(v, p0) => {
                    let p = if p0 >= j2 + 2 {
                        p0
                    } else {
                        j2 + 2
                    };
                    lemma_obj_insert_wf(acc, key, v);
                    let acc2 = obj_insert(acc, key, v);
                    let j3 = skip_ws(s, p);
                    if char_at(s, j3) != '}' && char_at(s, j3) == ',' {
                        lemma_members_wf(s, j3 + 1, acc2);
                    }
                },
            }
        }
    }
}

/// A successfully parsed array is well-formed.
proof fn lemma_array_wf(s: Seq<char>, i: int)
    requires
        0 <= i,
    ensures
        spec_parse_array(s, i) matches ParseOutcome::Val(v, p) ==> wf_json(v),
    decreases remaining(s, i), 0int,
{
    if char_at(s, i) == '[' {
        lemma_elems_wf(s, i + 1, Seq::empty());
    }
}

/// A successfully parsed element list yields a well-formed array,
/// provided the elements gathered so far are well-formed.
proof fn lemma_elems_wf(s: Seq<char>, i: int, acc: Seq<SpecJson>)
    requires
        0 <= i,
        wf_elems(acc, 0),
    ensures
        spec_parse_elems(s, i, acc) matches ParseOutcome::Val(v, p) ==> wf_json(v),
    decreases remaining(s, i), 2int,
{
    lemma_wf_elems(acc, 0);
    if char_at(s, i) == ']' {
    } else if 0 <= i < s.len() {
        lemma_value_wf(s, i);
        match spec_parse_value(s, i) {
            ParseOutcome::Fail(e) => {},
            ParseOutcome::Val(v, p0) => {
                let p = if p0 >= i + 1 {
                    p0
                } else {
                    i + 1
                };
                let j = skip_ws(s, p);
                let acc2 = acc.push(v);
                lemma_wf_elems(acc2, 0);
                if char_at(s, j) == ',' {
                    lemma_elems_wf(s, j + 1, acc2);
                }
            },
        }
    }
}

/// Skipping whitespace before parsing a value changes nothing: the
/// value parser skips it itself.
pub proof fn lemma_value_skip(s: Seq<char>, i: int)
    requires
        0 <= i,
    ensures
        spec_parse_value(s, skip_ws(s, i)) == spec_parse_value(s, i),
{
    lemma_skip_ws_idem(s, i);
}

/// Skipping whitespace before parsing members changes nothing.
pub proof fn lemma_members_skip(s: Seq<char>, i: int, acc: Seq<(Seq<char>, SpecJson)>)
    requires
        0 <= i,
    ensures
        spec_parse_members(s, skip_ws(s, i), acc) == spec_parse_members(s, i, acc),
{
    lemma_skip_ws_idem(s, i);
}

} // verus!
