//! The recursive-descent parser.
//!
//! A `JsonParser` owns the input text and a cursor, measured in
//! characters.  Each routine is proved to return exactly what the
//! corresponding specification function of [`crate::grammar`] says,
//! so the one public entry, [`JsonParser::parse`], agrees with
//! [`crate::grammar::spec_parse`] on every input.

use vstd::prelude::*;
use vstd::string::StrSliceExecFns;
use vstd::string::StringExecFns;
use crate::grammar::char_at;
use crate::grammar::follow_char;
use crate::grammar::is_digit;
use crate::grammar::is_numeric_start;
use crate::grammar::is_terminator;
use crate::grammar::is_ws;
use crate::grammar::digits_end;
use crate::grammar::digits_val;
use crate::grammar::lemma_digits;
use crate::grammar::lemma_digits_val_mono;
use crate::grammar::remaining;
use crate::grammar::scan_content;
use crate::grammar::scan_end;
use crate::grammar::scan_next;
use crate::grammar::skip_ws;
use crate::grammar::lemma_members_skip;
use crate::grammar::lemma_parse_wf;
use crate::grammar::lemma_scan;
use crate::grammar::lemma_skip_ws;
use crate::grammar::lemma_skip_ws_idem;
use crate::grammar::lemma_value_progress;
use crate::grammar::lemma_value_skip;
use crate::grammar::spec_parse;
use crate::grammar::spec_parse_array;
use crate::grammar::spec_parse_bool;
use crate::grammar::spec_parse_elems;
use crate::grammar::spec_parse_members;
use crate::grammar::spec_parse_null;
use crate::grammar::spec_parse_number;
use crate::grammar::spec_parse_object;
use crate::grammar::spec_parse_string;
use crate::grammar::spec_parse_value;
use crate::value::ParseOutcome;
use crate::value::SpecJson;
use crate::value::elems_view;
use crate::value::entries_view;
use crate::value::key_index;
use crate::value::lemma_key_index;
use crate::value::lemma_views_of_elems;
use crate::value::lemma_views_of_entries;
use crate::value::obj_insert;
use crate::value::view_of;
use crate::value::views_of_elems;
use crate::value::views_of_entries;
use crate::value::wf_json;

pub use crate::value::JsonValue;
pub use crate::value::ParserError;

verus! {

/// The parser state: the whole input and the position, in
/// characters, of the next character to read.
#[derive(Debug)]
pub struct JsonParser {
    pub input: String,
    pub cursor: usize,
}

/// Which value parser the lookahead character selects.
#[derive(Debug, PartialEq, Eq, Structural)]
enum ParseType {
    Null,
    Boolean,
    Number,
    String,
    Array,
    Object,
    Unknown,
}

/// Whitespace: tab, newline, carriage return, space.
fn is_whitespace(c: char) -> (r: bool)
    ensures
        r == is_ws(c),
{
    match c {
        '\t' => true,
        '\n' => true,
        '\r' => true,
        ' ' => true,
        _ => false,
    }
}

/// The four characters that may legally follow a string value or an
/// object key.
fn is_string_terminating_symbol(c: char) -> (r: bool)
    ensures
        r == is_terminator(c),
{
    match c {
        '}' => true,
        ']' => true,
        ':' => true,
        ',' => true,
        _ => false,
    }
}

/// Characters that begin a number.
fn is_numeric_char(c: char) -> (r: bool)
    ensures
        r == is_numeric_start(c),
{
    match c {
        '-' => true,
        '0' => true,
        '1' => true,
        '2' => true,
        '3' => true,
        '4' => true,
        '5' => true,
        '6' => true,
        '7' => true,
        '8' => true,
        '9' => true,
        _ => false,
    }
}

/// Selects a value parser from the current lookahead character.
fn determine_parse_type(c: char) -> (r: ParseType)
    ensures
        (r == ParseType::Object) <==> c == '{',
        (r == ParseType::Array) <==> c == '[',
        (r == ParseType::Number) <==> is_numeric_start(c),
        (r == ParseType::String) <==> c == '"',
        (r == ParseType::Boolean) <==> (c == 't' || c == 'f'),
        (r == ParseType::Null) <==> c == 'n',
{
    if c == '{' {
        ParseType::Object
    } else if c == '[' {
        ParseType::Array
    } else if is_numeric_char(c) {
        ParseType::Number
    } else if c == '"' {
        ParseType::String
    } else if c == 't' || c == 'f' {
        ParseType::Boolean
    } else if c == 'n' {
        ParseType::Null
    } else {
        ParseType::Unknown
    }
}

/// Key-based insertion into an object's entry list: the value of an
/// existing key is replaced in place, a new key is appended.
fn object_insert(values: &mut Vec<(String, JsonValue)>, key: String, value: JsonValue)
    ensures
        entries_view(final(values)@) == obj_insert(
            entries_view(old(values)@),
            key@,
            view_of(value),
        ),
{
    let ghost es = entries_view(old(values)@);
    let mut idx: usize = 0;
    loop
        invariant
            values@ == old(values)@,
            es == entries_view(old(values)@),
            0 <= idx as int <= values@.len(),
            forall|m: int| 0 <= m < idx as int ==> es[m].0 != key@,
        ensures
            values@ == old(values)@,
            es == entries_view(old(values)@),
            idx as int == values@.len(),
            forall|m: int| 0 <= m < values@.len() ==> es[m].0 != key@,
        decreases values@.len() - idx as int,
    {
        if idx >= values.len() {
            break;
        }
        if values[idx].0 == key {
            proof {
                assert(es[idx as int].0 == key@);
                lemma_key_index(es, key@);
                assert(key_index(es, key@) == idx as int);
            }
            let ghost before = values@;
            let pair = values.remove(idx);
            values.insert(idx, (pair.0, value));
            proof {
                assert(values@ =~= before.update(idx as int, (pair.0, value)));
                assert(pair.0@ == key@);
                assert(entries_view(values@) =~= es.update(idx as int, (key@, view_of(value))));
            }
            return;
        }
        idx = idx + 1;
    }
    values.push((key, value));
    proof {
        lemma_key_index(es, key@);
        assert(key_index(es, key@) < 0);
        assert(entries_view(values@) =~= es.push((key@, view_of(value))));
    }
}

impl JsonParser {
    /// The cursor stands at or past the end of the input.
    fn eof(&self) -> (r: bool)
        ensures
            r == (self.cursor as int >= self.input@.len()),
            self.input@.len() <= usize::MAX as int,
    {
        self.cursor >= self.input.as_str().unicode_len()
    }

    /// The character under the cursor, or the sentinel at the end.
    fn peek(&self) -> (c: char)
        ensures
            c == char_at(self.input@, self.cursor as int),
            self.input@.len() <= usize::MAX as int,
    {
        if self.eof() {
            return '|';
        }
        self.input.as_str().get_char(self.cursor)
    }

    /// The next non-whitespace character strictly after the cursor,
    /// or the sentinel if none remains.  Looks ahead on a scratch
    /// index; the cursor does not move.
    fn peek_after_white_space(&self) -> (c: char)
        ensures
            c == follow_char(self.input@, self.cursor as int),
    {
        if self.eof() {
            return '|';
        }
        let ghost s = self.input@;
        let mut temp: usize = self.cursor + 1;
        loop
            invariant
                self.cursor as int + 1 <= temp as int <= s.len(),
                s == self.input@,
                skip_ws(s, self.cursor as int + 1) == skip_ws(s, temp as int),
            ensures
                self.cursor as int + 1 <= temp as int <= s.len(),
                skip_ws(s, self.cursor as int + 1) == skip_ws(s, temp as int),
                temp as int >= s.len() || !is_ws(s[temp as int]),
            decreases s.len() - temp as int,
        {
            if temp >= self.input.as_str().unicode_len() {
                break;
            }
            if !is_whitespace(self.input.as_str().get_char(temp)) {
                break;
            }
            temp = temp + 1;
        }
        if temp >= self.input.as_str().unicode_len() {
            return '|';
        }
        self.input.as_str().get_char(temp)
    }

    /// Advances the cursor past consecutive whitespace.
    fn skip_whitespace(&mut self)
        ensures
            final(self).input == old(self).input,
            final(self).cursor as int == skip_ws(old(self).input@, old(self).cursor as int),
    {
        let ghost s = old(self).input@;
        let ghost c0 = old(self).cursor as int;
        loop
            invariant
                self.input@ == s,
                self.input == old(self).input,
                c0 <= self.cursor as int,
                skip_ws(s, c0) == skip_ws(s, self.cursor as int),
            ensures
                self.input == old(self).input,
                skip_ws(s, c0) == self.cursor as int,
            decreases remaining(s, self.cursor as int),
        {
            if self.eof() {
                break;
            }
            if !is_whitespace(self.input.as_str().get_char(self.cursor)) {
                break;
            }
            self.cursor = self.cursor + 1;
        }
    }

    /// Reads a string literal: an opening quote, then content up to
    /// the quote that closes it.  There are no escape sequences; an
    /// embedded quote counts as content unless its follow character
    /// is a structural terminator.  A missing closing quote is
    /// tolerated: the content then runs to the end of the input.
    fn consume_and_unescape_string(&mut self) -> (r: Result<String, ParserError>)
        ensures
            final(self).input == old(self).input,
            match r {
                Ok(content) => {
                    &&& char_at(old(self).input@, old(self).cursor as int) == '"'
                    &&& content@ == scan_content(old(self).input@, old(self).cursor as int + 1)
                    &&& final(self).cursor as int == scan_next(
                        old(self).input@,
                        old(self).cursor as int + 1,
                    )
                },
                Err(e) => {
                    &&& char_at(old(self).input@, old(self).cursor as int) != '"'
                    &&& e == ParserError::ExpectedChar('"', old(self).cursor)
                    &&& final(self).cursor == old(self).cursor
                },
            },
    {
        if !self.consume_specific('"') {
            return Err(ParserError::ExpectedChar('"', self.cursor));
        }
        let ghost s = self.input@;
        let st = self.cursor;
        loop
            invariant
                self.input == old(self).input,
                s == self.input@,
                char_at(s, old(self).cursor as int) == '"',
                st as int == old(self).cursor as int + 1,
                st as int <= self.cursor as int <= s.len(),
                scan_end(s, st as int) == scan_end(s, self.cursor as int),
            decreases s.len() - self.cursor as int,
        {
            let c = self.peek();
            if c == '"' {
                if !is_string_terminating_symbol(self.peek_after_white_space()) {
                    // An embedded quote: literal content.
                    self.cursor = self.cursor + 1;
                } else {
                    // The closing quote.
                    let end = self.cursor;
                    let sub = self.input.as_str().substring_char(st, end);
                    let content = String::from_str(sub);
                    self.cursor = end + 1;
                    return Ok(content);
                }
            } else if c == '|' {
                // End of the input (or an input sentinel, which
                // behaves as one): tolerate the missing quote.
                let end = self.cursor;
                let sub = self.input.as_str().substring_char(st, end);
                return Ok(String::from_str(sub));
            } else {
                self.cursor = self.cursor + 1;
            }
        }
    }

    /// A boolean literal under the cursor.
    fn parse_bool(&mut self) -> (r: Result<JsonValue, ParserError>)
        ensures
            final(self).input == old(self).input,
            match r {
                Ok(v) => spec_parse_bool(old(self).input@, old(self).cursor as int)
                    == ParseOutcome::Val(v@, final(self).cursor as int),
                Err(e) => spec_parse_bool(old(self).input@, old(self).cursor as int)
                    == ParseOutcome::Fail(e) && final(self).cursor == old(self).cursor,
            },
    {
        let n = self.input.as_str().unicode_len();
        let c = self.cursor;
        if c <= n && n - c >= 4 && self.input.as_str().get_char(c) == 't'
            && self.input.as_str().get_char(c + 1) == 'r' && self.input.as_str().get_char(c + 2)
            == 'u' && self.input.as_str().get_char(c + 3) == 'e' {
            self.cursor = c + 4;
            Ok(JsonValue::Bool(true))
        } else if c <= n && n - c >= 5 && self.input.as_str().get_char(c) == 'f'
            && self.input.as_str().get_char(c + 1) == 'a' && self.input.as_str().get_char(c + 2)
            == 'l' && self.input.as_str().get_char(c + 3) == 's' && self.input.as_str().get_char(
            c + 4,
        ) == 'e' {
            self.cursor = c + 5;
            Ok(JsonValue::Bool(false))
        } else {
            Err(ParserError::LiteralMismatch(c))
        }
    }

    /// The `null` literal under the cursor.
    fn parse_null(&mut self) -> (r: Result<JsonValue, ParserError>)
        ensures
            final(self).input == old(self).input,
            match r {
                Ok(v) => spec_parse_null(old(self).input@, old(self).cursor as int)
                    == ParseOutcome::Val(v@, final(self).cursor as int),
                Err(e) => spec_parse_null(old(self).input@, old(self).cursor as int)
                    == ParseOutcome::Fail(e) && final(self).cursor == old(self).cursor,
            },
    {
        let n = self.input.as_str().unicode_len();
        let c = self.cursor;
        if c <= n && n - c >= 4 && self.input.as_str().get_char(c) == 'n'
            && self.input.as_str().get_char(c + 1) == 'u' && self.input.as_str().get_char(c + 2)
            == 'l' && self.input.as_str().get_char(c + 3) == 'l' {
            self.cursor = c + 4;
            Ok(JsonValue::Null)
        } else {
            Err(ParserError::LiteralMismatch(c))
        }
    }

    /// A number under the cursor: an optional minus sign, then
    /// consecutive digits, most significant first, stopping at the
    /// first non-digit.  The cursor does not move on failure.
    fn parse_number(&mut self) -> (r: Result<JsonValue, ParserError>)
        ensures
            final(self).input == old(self).input,
            match r {
                Ok(v) => spec_parse_number(old(self).input@, old(self).cursor as int)
                    == ParseOutcome::Val(v@, final(self).cursor as int),
                Err(e) => spec_parse_number(old(self).input@, old(self).cursor as int)
                    == ParseOutcome::Fail(e) && final(self).cursor == old(self).cursor,
            },
    {
        let ghost s = self.input@;
        let ghost c0 = self.cursor as int;
        let n = self.input.as_str().unicode_len();
        let start = self.cursor;
        let mut pos = start;
        let mut neg = false;
        if pos < n && self.input.as_str().get_char(pos) == '-' {
            neg = true;
            pos = pos + 1;
        }
        let d0 = pos;
        if pos >= n {
            return Err(ParserError::ExpectedDigit(pos));
        }
        let mut value: i64 = 0;
        loop
            invariant
                self.input == old(self).input,
                s == self.input@,
                self.cursor == old(self).cursor,
                start == old(self).cursor,
                neg == (char_at(s, old(self).cursor as int) == '-'),
                d0 as int == (if neg { old(self).cursor as int + 1 } else { old(self).cursor as int }),
                n as int == s.len(),
                d0 as int <= pos as int <= s.len(),
                digits_end(s, d0 as int) == digits_end(s, pos as int),
                0 <= value,
                value == digits_val(s, d0 as int, pos as int),
                forall|k: int| d0 as int <= k < pos as int ==> is_digit(s[k]),
            ensures
                s == self.input@,
                d0 as int <= pos as int <= s.len(),
                pos as int == digits_end(s, d0 as int),
                0 <= value,
                value == digits_val(s, d0 as int, pos as int),
                forall|k: int| d0 as int <= k < pos as int ==> is_digit(s[k]),
            decreases s.len() - pos as int,
        {
            if pos >= n {
                break;
            }
            let ch = self.input.as_str().get_char(pos);
            if !(ch >= '0' && ch <= '9') {
                break;
            }
            let d: i64 = (ch as u32 - '0' as u32) as i64;
            if value > (i64::MAX - d) / 10 {
                proof {
                    lemma_digits(s, d0 as int);
                    lemma_digits_val_mono(s, d0 as int, pos as int + 1, digits_end(s, d0 as int));
                }
                return Err(ParserError::NumberOutOfRange(start));
            }
            value = value * 10 + d;
            pos = pos + 1;
        }
        if pos == d0 {
            return Err(ParserError::ExpectedDigit(pos));
        }
        self.cursor = pos;
        if neg {
            Ok(JsonValue::Number(-value))
        } else {
            Ok(JsonValue::Number(value))
        }
    }

    /// A string value under the cursor.
    fn parse_string(&mut self) -> (r: Result<JsonValue, ParserError>)
        ensures
            final(self).input == old(self).input,
            match r {
                Ok(v) => spec_parse_string(old(self).input@, old(self).cursor as int)
                    == ParseOutcome::Val(v@, final(self).cursor as int),
                Err(e) => spec_parse_string(old(self).input@, old(self).cursor as int)
                    == ParseOutcome::Fail(e) && final(self).cursor == old(self).cursor,
            },
    {
        match self.consume_and_unescape_string() {
            Ok(content) => Ok(JsonValue::String(content)),
            Err(e) => Err(e),
        }
    }

    /// One value, of whatever kind the lookahead selects.
    fn parse_helper(&mut self) -> (r: Result<JsonValue, ParserError>)
        ensures
            final(self).input == old(self).input,
            match r {
                Ok(v) => spec_parse_value(old(self).input@, old(self).cursor as int)
                    == ParseOutcome::Val(v@, final(self).cursor as int),
                Err(e) => spec_parse_value(old(self).input@, old(self).cursor as int)
                    == ParseOutcome::Fail(e),
            },
        decreases remaining(self.input@, self.cursor as int), 1int,
    {
        self.skip_whitespace();
        let type_to_parse: ParseType = determine_parse_type(self.peek());
        match type_to_parse {
            ParseType::Object => self.parse_object(),
            ParseType::Number => self.parse_number(),
            ParseType::String => self.parse_string(),
            ParseType::Boolean => self.parse_bool(),
            ParseType::Null => self.parse_null(),
            ParseType::Array => self.parse_array(),
            ParseType::Unknown => Err(ParserError::UnrecognizedValue(self.cursor)),
        }
    }

    /// An object: `{`, then members separated by commas, then `}`.
    /// A `}` where a key should begin is rejected, so `{}` is not
    /// accepted; a repeated key keeps the later value.
    fn parse_object(&mut self) -> (r: Result<JsonValue, ParserError>)
        ensures
            final(self).input == old(self).input,
            match r {
                Ok(v) => spec_parse_object(old(self).input@, old(self).cursor as int)
                    == ParseOutcome::Val(v@, final(self).cursor as int),
                Err(e) => spec_parse_object(old(self).input@, old(self).cursor as int)
                    == ParseOutcome::Fail(e),
            },
        decreases remaining(self.input@, self.cursor as int), 0int,
    {
        let ghost s = self.input@;
        let ghost c0 = self.cursor as int;
        if !self.consume_specific('{') {
            return Err(ParserError::ExpectedChar('{', self.cursor));
        }
        let mut values: Vec<(String, JsonValue)> = Vec::new();
        proof {
            assert(entries_view(values@) =~= Seq::<(Seq<char>, SpecJson)>::empty());
        }
        loop
            invariant_except_break
                spec_parse_members(s, c0 + 1, Seq::empty()) == spec_parse_members(
                    s,
                    self.cursor as int,
                    entries_view(values@),
                ),
            invariant
                self.input == old(self).input,
                s == self.input@,
                c0 == old(self).cursor as int,
                char_at(s, c0) == '{',
                c0 + 1 <= self.cursor as int <= s.len(),
            ensures
                self.input == old(self).input,
                s == self.input@,
                char_at(s, self.cursor as int) == '}',
                (self.cursor as int) < s.len(),
                spec_parse_members(s, c0 + 1, Seq::empty()) == ParseOutcome::Val(
                    SpecJson::Object(entries_view(values@)),
                    self.cursor as int + 1,
                ),
            decreases remaining(s, self.cursor as int),
        {
            let ghost lt = self.cursor as int;
            let ghost acc = entries_view(values@);
            self.skip_whitespace();
            let ghost j = self.cursor as int;
            if self.peek() == '}' {
                return Err(ParserError::InvalidClosingBrace(self.cursor));
            }
            self.skip_whitespace();
            proof {
                lemma_skip_ws_idem(s, lt);
            }
            let key = match self.consume_and_unescape_string() {
                Ok(k) => k,
                Err(e) => return Err(e),
            };
            proof {
                lemma_scan(s, j + 1);
            }
            self.skip_whitespace();
            let ghost j2 = self.cursor as int;
            if !self.consume_specific(':') {
                return Err(ParserError::ExpectedChar(':', self.cursor));
            }
            self.skip_whitespace();
            proof {
                lemma_skip_ws(s, j2 + 1);
                lemma_value_skip(s, j2 + 1);
            }
            let value = match self.parse_helper() {
                Ok(v) => v,
                Err(e) => return Err(e),
            };
            proof {
                lemma_value_progress(s, j2 + 1);
            }
            object_insert(&mut values, key, value);
            self.skip_whitespace();
            let ghost j3 = self.cursor as int;
            if self.peek() == '}' {
                break;
            }
            if !self.consume_specific(',') {
                return Err(ParserError::ExpectedChar(',', self.cursor));
            }
            self.skip_whitespace();
            if self.peek() == '}' {
                proof {
                    lemma_members_skip(s, j3 + 1, entries_view(values@));
                }
                return Err(ParserError::InvalidClosingBrace(self.cursor));
            }
            proof {
                lemma_members_skip(s, j3 + 1, entries_view(values@));
                lemma_skip_ws(s, j3 + 1);
            }
        }
        if !self.consume_specific('}') {
            return Err(ParserError::ExpectedChar('}', self.cursor));
        }
        proof {
            lemma_views_of_entries(values, 0);
            assert(views_of_entries(values, 0) =~= entries_view(values@));
        }
        Ok(JsonValue::Object(values))
    }

    /// An array: `[`, then elements separated by commas, then `]`.
    /// `]` may close the array before any element and after a
    /// separating comma.
    fn parse_array(&mut self) -> (r: Result<JsonValue, ParserError>)
        ensures
            final(self).input == old(self).input,
            match r {
                Ok(v) => spec_parse_array(old(self).input@, old(self).cursor as int)
                    == ParseOutcome::Val(v@, final(self).cursor as int),
                Err(e) => spec_parse_array(old(self).input@, old(self).cursor as int)
                    == ParseOutcome::Fail(e),
            },
        decreases remaining(self.input@, self.cursor as int), 0int,
    {
        let ghost s = self.input@;
        let ghost c0 = self.cursor as int;
        if !self.consume_specific('[') {
            return Err(ParserError::ExpectedChar('[', self.cursor));
        }
        let mut array: Vec<JsonValue> = Vec::new();
        proof {
            assert(elems_view(array@) =~= Seq::<SpecJson>::empty());
        }
        loop
            invariant_except_break
                spec_parse_elems(s, c0 + 1, Seq::empty()) == spec_parse_elems(
                    s,
                    self.cursor as int,
                    elems_view(array@),
                ),
            invariant
                self.input == old(self).input,
                s == self.input@,
                c0 == old(self).cursor as int,
                char_at(s, c0) == '[',
                c0 + 1 <= self.cursor as int <= s.len() + 1,
            ensures
                self.input == old(self).input,
                s == self.input@,
                char_at(s, self.cursor as int) == ']',
                (self.cursor as int) < s.len(),
                spec_parse_elems(s, c0 + 1, Seq::empty()) == ParseOutcome::Val(
                    SpecJson::Array(elems_view(array@)),
                    self.cursor as int + 1,
                ),
            decreases remaining(s, self.cursor as int),
        {
            if self.peek() == ']' {
                break;
            }
            let ghost lt = self.cursor as int;
            let ghost acc = elems_view(array@);
            self.skip_whitespace();
            proof {
                lemma_skip_ws_idem(s, lt);
                lemma_value_skip(s, lt);
            }
            let element = match self.parse_helper() {
                Ok(v) => v,
                Err(e) => return Err(e),
            };
            proof {
                lemma_value_progress(s, lt);
            }
            array.push(element);
            proof {
                assert(elems_view(array@) =~= acc.push(view_of(element)));
            }
            self.skip_whitespace();
            if !self.consume_specific(',') {
                if self.peek() != ']' {
                    return Err(ParserError::ExpectedCommaOrClose(self.cursor));
                }
            }
        }
        if !self.consume_specific(']') {
            return Err(ParserError::ExpectedChar(']', self.cursor));
        }
        proof {
            lemma_views_of_elems(array, 0);
            assert(views_of_elems(array, 0) =~= elems_view(array@));
        }
        Ok(JsonValue::Array(array))
    }

    /// One whole run: one value, after which only whitespace may
    /// remain; anything else is a trailing-input error.  A failure
    /// inside the value propagates unchanged.  Whatever comes back
    /// well-formed: every object in it has pairwise distinct keys.
    pub fn parse(&mut self) -> (r: Result<JsonValue, ParserError>)
        ensures
            final(self).input == old(self).input,
            match r {
                Ok(v) => spec_parse(old(self).input@, old(self).cursor as int)
                    == ParseOutcome::Val(v@, final(self).cursor as int) && wf_json(v@),
                Err(e) => spec_parse(old(self).input@, old(self).cursor as int)
                    == ParseOutcome::Fail(e),
            },
    {
        proof {
            lemma_parse_wf(self.input@, self.cursor as int);
        }
        let value = match self.parse_helper() {
            Ok(v) => v,
            Err(e) => return Err(e),
        };
        self.skip_whitespace();
        if !self.eof() {
            return Err(ParserError::TrailingInput(self.cursor));
        }
        Ok(value)
    }

    /// Consumes the expected character if it is next; otherwise the
    /// cursor does not move.  The sentinel cannot be consumed.
    fn consume_specific(&mut self, expected: char) -> (r: bool)
        requires
            expected != '|',
        ensures
            final(self).input == old(self).input,
            r == (char_at(old(self).input@, old(self).cursor as int) == expected),
            r ==> final(self).cursor == old(self).cursor + 1,
            !r ==> final(self).cursor == old(self).cursor,
    {
        if self.peek() != expected {
            return false;
        }
        self.cursor = self.cursor + 1;
        true
    }
}

} // verus!
