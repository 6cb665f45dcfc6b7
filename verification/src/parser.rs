//! The parser: a cursor that moves forward over the characters of a
//! document and builds the value tree, or stops at the first fault.
use crate::error::{JsonError, JsonErrorKind, Result};
use crate::fault::{fault_kind, fault_text, positioned_text, ParseFault};
use crate::grammar::{
    array_at, array_items, blank_at, bool_at, colon_at, column_of, document, end_member_at,
    escape_at, hex4_at, hex_ok, host_end, host_unexpected, is_blank, is_terminator, key_at,
    line_feeds, line_of, line_start, null_at, number_at, number_scan, object_from, scan_start,
    separator_at, skip_blanks, start_object, string_at, string_body, unicode_at, value_from,
    word_at, word_false, word_null, word_run, word_true, ArraySeparatorKind, EndMemberKind,
    Failure, Host, MemberParserStatus, NumberScan, Outcome, StartObjectKind,
};
use crate::number::{integer_value, is_decimal_literal_text};
use crate::text::{append_nat, append_str, chars_of, hex_value, is_digit, is_hex, string_of};
use crate::value::{
    lemma_values_view_push, values_view, JsonKey, JsonObject, JsonValue, NumberType,
    ValueModel,
};
use vstd::prelude::*;

verus! {

/// The error `err` reports the failure `f` of a parse of `s`: it has the
/// kind of the fault, and its detail is the text of the fault with the line
/// and the column of the cursor.
pub open spec fn reports(err: JsonError, s: Seq<char>, f: Failure) -> bool {
    &&& err.err_kind == fault_kind(f.fault)
    &&& err.detail() == Some(
        positioned_text(fault_text(f.fault), line_of(s, f.at), column_of(s, f.at)),
    )
}

/// A cursor: the number of characters before it, the number of line feeds
/// among them, and the cursor at which its line begins.
#[derive(Debug, Clone, PartialEq)]
pub struct CharPosition {
    idx: usize,
    line: usize,
    first_idx_in_line: usize,
}

impl CharPosition {
    /// Neither the line feeds nor the start of the line lie after the
    /// cursor.
    pub closed spec fn wf(&self) -> bool {
        self.line <= self.idx && self.first_idx_in_line <= self.idx
    }

    /// The number of characters before the cursor.
    pub closed spec fn index(&self) -> int {
        self.idx as int
    }

    /// The line, counted from 1.
    pub closed spec fn line_number(&self) -> nat {
        (self.line + 1) as nat
    }

    /// The column, counted from 1.
    pub closed spec fn column_number(&self) -> nat {
        (self.idx - self.first_idx_in_line + 1) as nat
    }

    /// This cursor stands in `s`, and its line and its column are those
    /// that `s` gives it.
    pub open spec fn tracks(&self, s: Seq<char>) -> bool {
        &&& self.wf()
        &&& 0 <= self.index() <= s.len()
        &&& self.line_number() == line_of(s, self.index())
        &&& self.column_number() == column_of(s, self.index())
    }

    /// The cursor at the start of a text.
    pub fn new() -> (position: CharPosition)
        ensures
            position.wf(),
            position.index() == 0,
            position.line_number() == 1,
            position.column_number() == 1,
    {
        CharPosition { idx: 0, line: 0, first_idx_in_line: 0 }
    }

    /// Moves the cursor over one character: a line feed begins a new line,
    /// any other character adds a column.
    pub fn increment(&mut self, unicode_char: &char)
        requires
            old(self).wf(),
            old(self).index() < usize::MAX,
        ensures
            final(self).wf(),
            final(self).index() == old(self).index() + 1,
            final(self).line_number() == if *unicode_char == '\n' {
                old(self).line_number() + 1
            } else {
                old(self).line_number()
            },
            final(self).column_number() == if *unicode_char == '\n' {
                1
            } else {
                old(self).column_number() + 1
            },
    {
        self.idx += 1;
        if *unicode_char == '\n' {
            self.line += 1;
            self.first_idx_in_line = self.idx;
        }
    }

    /// The number of characters before the cursor.
    pub fn get_idx(&self) -> (idx: usize)
        ensures
            idx == self.index(),
    {
        self.idx
    }

    /// The line and the column, both counted from 1.
    pub fn get_position(&self) -> (position: (u128, u128))
        requires
            self.wf(),
        ensures
            position.0 == self.line_number(),
            position.1 == self.column_number(),
    {
        (self.line as u128 + 1, (self.idx - self.first_idx_in_line) as u128 + 1)
    }
}

/// The line and the column of the cursor after a character: a line feed
/// begins a new line, any other character adds a column.
pub proof fn lemma_position_after(s: Seq<char>, i: int)
    requires
        0 <= i < s.len(),
    ensures
        line_of(s, i + 1) == if s[i] == '\n' {
            line_of(s, i) + 1
        } else {
            line_of(s, i)
        },
        column_of(s, i + 1) == if s[i] == '\n' {
            1
        } else {
            column_of(s, i) + 1
        },
{
    lemma_line_start(s, i);
}

/// The line of a cursor begins at or before the cursor.
pub proof fn lemma_line_start(s: Seq<char>, i: int)
    ensures
        0 <= line_start(s, i) <= if i < 0 {
            0
        } else {
            i
        },
    decreases i,
{
    if 0 < i <= s.len() && s[i - 1] != '\n' {
        lemma_line_start(s, i - 1);
    }
}

/// The error of a fault of the given kind and detail at a cursor.
pub fn parse_error(kind: JsonErrorKind, detail_str: &str, char_position: &CharPosition) -> (err:
    JsonError)
    requires
        char_position.wf(),
    ensures
        err.err_kind == kind,
        err.detail() == Some(
            positioned_text(detail_str@, char_position.line_number(), char_position.column_number()),
        ),
{
    let (line, column) = char_position.get_position();
    let mut text: Vec<char> = chars_of(detail_str);
    append_str(&mut text, " | line:");
    append_nat(&mut text, line);
    append_str(&mut text, " column:");
    append_nat(&mut text, column);
    JsonError::new(kind, Some(string_of(&text)))
}

/// The parser of one document: its characters and the cursor.
#[derive(Debug, Clone)]
pub struct JsonParser {
    content_chars: Vec<char>,
    char_position: CharPosition,
}

impl JsonParser {
    /// The characters of the document.
    spec fn text(&self) -> Seq<char> {
        self.content_chars@
    }

    /// The number of characters before the cursor.
    spec fn cursor(&self) -> int {
        self.char_position.index()
    }

    /// The cursor stands in the document and tracks its lines and columns.
    spec fn wf(&self) -> bool {
        self.char_position.tracks(self.content_chars@)
    }

    /// The parser is as `before` but for its cursor.
    spec fn continues(&self, before: JsonParser) -> bool {
        self.wf() && self.content_chars == before.content_chars
    }

    /// The call that left the parser as `self` and returned `r` did what
    /// the grammar gives as `expected`.
    spec fn lands<T>(&self, before: JsonParser, r: Result<T>, expected: Outcome<T>) -> bool {
        &&& self.continues(before)
        &&& match expected {
            Ok((v, e)) => r == Ok::<T, JsonError>(v) && self.cursor() == e,
            Err(f) => r is Err && reports(r->Err_0, before.text(), f),
        }
    }

    /// As `lands`, for a result that is compared by its view.
    spec fn lands_view<T: View>(&self, before: JsonParser, r: Result<T>, expected: Outcome<
        T::V,
    >) -> bool {
        &&& self.continues(before)
        &&& match expected {
            Ok((v, e)) => r is Ok && r->Ok_0@ == v && self.cursor() == e,
            Err(f) => r is Err && reports(r->Err_0, before.text(), f),
        }
    }

    /// A parser at the start of a document.
    fn new(content_str: &str) -> (parser: JsonParser)
        ensures
            parser.wf(),
            parser.text() == content_str@,
            parser.cursor() == 0,
    {
        JsonParser { content_chars: chars_of(content_str), char_position: CharPosition::new() }
    }

    /// The error of a fault at the cursor.
    fn failure(&self, fault: ParseFault) -> (err: JsonError)
        requires
            self.wf(),
        ensures
            reports(err, self.text(), Failure { fault, at: self.cursor() }),
    {
        parse_error(fault.kind(), fault.text(), &self.char_position)
    }

    /// True where no character is left.
    fn at_end(&self) -> (b: bool)
        requires
            self.wf(),
        ensures
            b == (self.cursor() >= self.text().len()),
    {
        self.char_position.get_idx() >= self.content_chars.len()
    }

    /// The character at the cursor.
    fn current(&self) -> (c: char)
        requires
            self.wf(),
            self.cursor() < self.text().len(),
        ensures
            c == self.text()[self.cursor()],
    {
        self.content_chars[self.char_position.get_idx()]
    }

    /// Moves the cursor over the character at which it stands.
    fn advance(&mut self)
        requires
            old(self).wf(),
            old(self).cursor() < old(self).text().len(),
        ensures
            final(self).continues(*old(self)),
            final(self).cursor() == old(self).cursor() + 1,
    {
        let c = self.content_chars[self.char_position.get_idx()];
        proof {
            assert(self.content_chars.len() == self.content_chars@.len());
            lemma_position_after(self.content_chars@, self.char_position.index());
        }
        self.char_position.increment(&c);
    }

    /// Moves the cursor over the blanks at which it stands.
    fn skip_blanks(&mut self)
        requires
            old(self).wf(),
        ensures
            final(self).continues(*old(self)),
            final(self).cursor() == skip_blanks(old(self).text(), old(self).cursor()),
            final(self).cursor() >= old(self).cursor(),
    {
        while !self.at_end() && is_blank_char(self.current())
            invariant
                self.continues(*old(self)),
                self.cursor() >= old(self).cursor(),
                skip_blanks(self.text(), self.cursor()) == skip_blanks(
                    old(self).text(),
                    old(self).cursor(),
                ),
            decreases self.text().len() - self.cursor(),
        {
            self.advance();
        }
    }

    /// The opening of an object: blanks, `{`, blanks, and then, not consumed,
    /// `}` or the quote of the first key.
    fn start_object_parser(&mut self) -> (r: Result<StartObjectKind>)
        requires
            old(self).wf(),
        ensures
            final(self).lands(*old(self), r, start_object(old(self).text(), old(self).cursor())),
            r is Ok ==> final(self).cursor() > old(self).cursor(),
    {
        self.skip_blanks();
        if !self.at_end() {
            if self.current() != '{' {
                return Err(self.failure(ParseFault::StartObjectUnexpected));
            }
            self.advance();
        }
        self.skip_blanks();
        if self.at_end() {
            return Err(self.failure(ParseFault::StartObjectNotClosed));
        }
        let c = self.current();
        if c == '}' {
            Ok(StartObjectKind::EmptyObject)
        } else if c == '"' {
            Ok(StartObjectKind::HasSomeMember)
        } else {
            Err(self.failure(ParseFault::StartObjectUnexpected))
        }
    }

    /// Blanks and the string of a key.
    fn key_parser(&mut self) -> (r: Result<JsonKey>)
        requires
            old(self).wf(),
        ensures
            final(self).lands_view(*old(self), r, key_at(old(self).text(), old(self).cursor())),
            r is Ok ==> final(self).cursor() > old(self).cursor(),
    {
        self.skip_blanks();
        if self.at_end() {
            return Err(self.failure(ParseFault::KeyNotClosed));
        }
        if self.current() == '"' {
            match self.string_parser() {
                Ok(name) => Ok(JsonKey(name)),
                Err(err) => Err(err),
            }
        } else {
            Err(self.failure(ParseFault::KeyUnexpected))
        }
    }

    /// Blanks and a colon.
    fn coron_parser(&mut self) -> (r: Result<()>)
        requires
            old(self).wf(),
        ensures
            final(self).lands(*old(self), r, colon_at(old(self).text(), old(self).cursor())),
            r is Ok ==> final(self).cursor() > old(self).cursor(),
    {
        self.skip_blanks();
        if self.at_end() {
            return Err(self.failure(ParseFault::ColonNotClosed));
        }
        if self.current() == ':' {
            self.advance();
            Ok(())
        } else {
            Err(self.failure(ParseFault::ColonUnexpected))
        }
    }

    /// Blanks and what ends a member: a comma, or the closing brace.
    fn end_member_parser(&mut self) -> (r: Result<EndMemberKind>)
        requires
            old(self).wf(),
        ensures
            final(self).lands(*old(self), r, end_member_at(old(self).text(), old(self).cursor())),
            r is Ok ==> final(self).cursor() > old(self).cursor(),
    {
        self.skip_blanks();
        if self.at_end() {
            return Err(self.failure(ParseFault::EndMemberNotClosed));
        }
        let c = self.current();
        if c == '}' {
            self.advance();
            Ok(EndMemberKind::EndObject)
        } else if c == ',' {
            self.advance();
            Ok(EndMemberKind::EndMember)
        } else {
            Err(self.failure(ParseFault::EndMemberUnexpected))
        }
    }

    /// Blanks and what ends an element: a comma, or the closing bracket.
    fn array_separator_parser(&mut self) -> (r: Result<ArraySeparatorKind>)
        requires
            old(self).wf(),
        ensures
            final(self).lands(*old(self), r, separator_at(old(self).text(), old(self).cursor())),
            r is Ok ==> final(self).cursor() > old(self).cursor(),
    {
        self.skip_blanks();
        if self.at_end() {
            return Err(self.failure(ParseFault::SeparatorNotClosed));
        }
        let c = self.current();
        if c == ',' {
            self.advance();
            Ok(ArraySeparatorKind::EndElement)
        } else if c == ']' {
            self.advance();
            Ok(ArraySeparatorKind::EndArray)
        } else {
            Err(self.failure(ParseFault::SeparatorUnexpected))
        }
    }

    /// Blanks that something must follow.
    fn blank_parser(&mut self) -> (r: Result<()>)
        requires
            old(self).wf(),
        ensures
            final(self).lands(*old(self), r, blank_at(old(self).text(), old(self).cursor())),
    {
        self.skip_blanks();
        if self.at_end() {
            Err(self.failure(ParseFault::BlankNotClosed))
        } else {
            Ok(())
        }
    }

    /// A string: the opening quote, the characters with their escapes
    /// decoded, the closing quote.
    fn string_parser(&mut self) -> (r: Result<String>)
        requires
            old(self).wf(),
        ensures
            final(self).lands_view(*old(self), r, string_at(old(self).text(), old(self).cursor())),
            r is Ok ==> final(self).cursor() > old(self).cursor(),
    {
        if self.at_end() {
            return Err(self.failure(ParseFault::StringNotClosed));
        }
        if self.current() != '"' {
            return Err(self.failure(ParseFault::StringUnexpected));
        }
        self.advance();
        let mut string = String::new();
        loop
            invariant
                self.continues(*old(self)),
                self.cursor() > old(self).cursor(),
                string_body(self.text(), self.cursor(), string@) == string_at(
                    old(self).text(),
                    old(self).cursor(),
                ),
            decreases self.text().len() - self.cursor(),
        {
            if self.at_end() {
                return Err(self.failure(ParseFault::StringNotClosed));
            }
            let c = self.current();
            if c == '"' {
                self.advance();
                return Ok(string);
            } else if c == '\\' {
                match self.escape_string_parser() {
                    Ok(decoded) => {
                        string.push(decoded);
                    },
                    Err(err) => {
                        return Err(err);
                    },
                }
            } else {
                self.advance();
                string.push(c);
            }
        }
    }

    /// An escape sequence: the backslash and what names the escape.
    fn escape_string_parser(&mut self) -> (r: Result<char>)
        requires
            old(self).wf(),
        ensures
            final(self).lands(*old(self), r, escape_at(old(self).text(), old(self).cursor())),
            r is Ok ==> final(self).cursor() > old(self).cursor(),
    {
        if self.at_end() {
            return Err(self.failure(ParseFault::EscapeNotClosed));
        }
        if self.current() != '\\' {
            return Err(self.failure(ParseFault::EscapeUnexpected));
        }
        self.advance();
        if self.at_end() {
            return Err(self.failure(ParseFault::EscapeNotClosed));
        }
        let c = self.current();
        if c == '"' || c == '\\' || c == '/' {
            self.advance();
            Ok(c)
        } else if c == 'b' {
            self.advance();
            Ok('\u{0008}')
        } else if c == 'f' {
            self.advance();
            Ok('\u{000C}')
        } else if c == 'n' {
            self.advance();
            Ok('\n')
        } else if c == 'r' {
            self.advance();
            Ok('\r')
        } else if c == 't' {
            self.advance();
            Ok('\t')
        } else if c == 'u' {
            self.advance();
            self.escape_string_utf16()
        } else {
            Err(self.failure(ParseFault::EscapeUnknown))
        }
    }

    /// Four hexadecimal digits.
    fn hex_unit(&mut self) -> (r: Result<u32>)
        requires
            old(self).wf(),
        ensures
            final(self).continues(*old(self)),
            match hex4_at(old(self).text(), old(self).cursor()) {
                Ok((unit, e)) => r == Ok::<u32, JsonError>(unit as u32) && 0 <= unit <= 0xFFFF
                    && final(self).cursor() == e,
                Err(f) => r is Err && reports(r->Err_0, old(self).text(), f),
            },
    {
        let mut unit: u32 = 0;
        let mut n: usize = 0;
        while n < 4
            invariant
                self.continues(*old(self)),
                n <= 4,
                self.cursor() == old(self).cursor() + n,
                n >= 1 ==> hex_ok(self.text(), old(self).cursor()),
                n >= 2 ==> hex_ok(self.text(), old(self).cursor() + 1),
                n >= 3 ==> hex_ok(self.text(), old(self).cursor() + 2),
                n >= 4 ==> hex_ok(self.text(), old(self).cursor() + 3),
                n == 0 ==> unit == 0,
                n == 1 ==> unit == hex_value(self.text()[old(self).cursor()]),
                n == 2 ==> unit == hex_value(self.text()[old(self).cursor()]) * 16 + hex_value(
                    self.text()[old(self).cursor() + 1],
                ),
                n == 3 ==> unit == hex_value(self.text()[old(self).cursor()]) * 256 + hex_value(
                    self.text()[old(self).cursor() + 1],
                ) * 16 + hex_value(self.text()[old(self).cursor() + 2]),
                n == 4 ==> unit == hex_value(self.text()[old(self).cursor()]) * 4096 + hex_value(
                    self.text()[old(self).cursor() + 1],
                ) * 256 + hex_value(self.text()[old(self).cursor() + 2]) * 16 + hex_value(
                    self.text()[old(self).cursor() + 3],
                ),
            decreases 4 - n,
        {
            if self.at_end() {
                return Err(self.failure(ParseFault::EscapeNotClosed));
            }
            let c = self.current();
            match hex_digit(c) {
                Some(d) => {
                    self.advance();
                    unit = unit * 16 + d;
                    n += 1;
                },
                None => {
                    return Err(self.failure(ParseFault::EscapeNotHex));
                },
            }
        }
        Ok(unit)
    }

    /// What follows `\u`: a code unit of four hexadecimal digits, and after a
    /// high surrogate `\u` and the code unit of the low surrogate.
    fn escape_string_utf16(&mut self) -> (r: Result<char>)
        requires
            old(self).wf(),
        ensures
            final(self).lands(*old(self), r, unicode_at(old(self).text(), old(self).cursor())),
            r is Ok ==> final(self).cursor() > old(self).cursor(),
    {
        let high = match self.hex_unit() {
            Ok(unit) => unit,
            Err(err) => {
                return Err(err);
            },
        };
        if 0xD800 <= high && high <= 0xDBFF {
            let at = self.char_position.get_idx();
            if at >= self.content_chars.len() || at + 1 >= self.content_chars.len() {
                return Err(self.failure(ParseFault::EscapeNotClosed));
            }
            if self.content_chars[at] != '\\' || self.content_chars[at + 1] != 'u' {
                return Err(self.failure(ParseFault::EscapePairUnexpected));
            }
            self.advance();
            self.advance();
            let low = match self.hex_unit() {
                Ok(unit) => unit,
                Err(err) => {
                    return Err(err);
                },
            };
            if 0xDC00 <= low && low <= 0xDFFF {
                let code: u32 = 0x10000 + (high - 0xD800) * 0x400 + (low - 0xDC00);
                match char::from_u32(code) {
                    Some(c) => Ok(c),
                    None => Err(self.failure(ParseFault::EscapeNotChar)),
                }
            } else {
                Err(self.failure(ParseFault::EscapeNotChar))
            }
        } else {
            match char::from_u32(high) {
                Some(c) => Ok(c),
                None => Err(self.failure(ParseFault::EscapeNotChar)),
            }
        }
    }
}


impl JsonParser {
    /// A number: the scan of its characters up to the terminator, then the
    /// conversion of what was scanned, to an `Int` or, with a fraction or an
    /// exponent, to a `Float`.
    fn number_parser(&mut self) -> (r: Result<NumberType>)
        requires
            old(self).wf(),
        ensures
            final(self).lands_view(*old(self), r, number_at(old(self).text(), old(self).cursor())),
            r is Ok ==> final(self).cursor() > old(self).cursor(),
    {
        let mut number_string: Vec<char> = Vec::new();
        let mut arrow_sign_char: bool = true;
        let mut is_exp_notation: bool = false;
        let mut digit_existed: bool = false;
        let mut decimal_point_existed: bool = false;
        let ghost start = self.cursor();
        assert(self.text().subrange(start, start) =~= Seq::<char>::empty());
        loop
            invariant
                self.continues(*old(self)),
                start == old(self).cursor(),
                start <= self.cursor(),
                number_string@ == self.text().subrange(start, self.cursor()),
                number_scan(
                    self.text(),
                    self.cursor(),
                    NumberScan {
                        sign_allowed: arrow_sign_char,
                        exponent: is_exp_notation,
                        digit: digit_existed,
                        point: decimal_point_existed,
                    },
                ) == number_scan(old(self).text(), old(self).cursor(), scan_start()),
            decreases self.text().len() - self.cursor(),
        {
            if self.at_end() {
                return Err(self.failure(ParseFault::NumberNotClosed));
            }
            let c = self.current();
            let ghost before = self.cursor();
            if c == '-' {
                if !arrow_sign_char {
                    return Err(self.failure(ParseFault::NumberMinus));
                }
                arrow_sign_char = false;
            } else if c == '+' {
                if !(arrow_sign_char && is_exp_notation) {
                    return Err(self.failure(ParseFault::NumberPlus));
                }
                arrow_sign_char = false;
            } else if c == '.' {
                if !(digit_existed && !decimal_point_existed && !is_exp_notation) {
                    return Err(self.failure(ParseFault::NumberPoint));
                }
                decimal_point_existed = true;
            } else if is_digit_char(c) {
                digit_existed = true;
                arrow_sign_char = false;
            } else if c == 'e' || c == 'E' {
                if !digit_existed {
                    return Err(self.failure(ParseFault::NumberExponent));
                }
                is_exp_notation = true;
                arrow_sign_char = true;
            } else if is_terminator_char(c) {
                if decimal_point_existed || is_exp_notation {
                    if is_decimal_literal_text(&number_string) {
                        return Ok(NumberType::Float(string_of(&number_string)));
                    } else {
                        return Err(self.failure(ParseFault::NumberNotFloat));
                    }
                } else {
                    match integer_value(&number_string) {
                        Some(int_number) => {
                            return Ok(NumberType::Int(int_number));
                        },
                        None => {
                            return Err(self.failure(ParseFault::NumberNotInt));
                        },
                    }
                }
            } else {
                return Err(self.failure(ParseFault::NumberUnexpected));
            }
            self.advance();
            number_string.push(c);
            assert(self.text().subrange(start, before + 1) =~= self.text().subrange(
                start,
                before,
            ).push(c));
        }
    }

    /// The word at the cursor, up to the next terminator.
    fn word_parser(&mut self, limit: usize, too_long: ParseFault, not_closed: ParseFault) -> (r:
        Result<Vec<char>>)
        requires
            old(self).wf(),
        ensures
            final(self).lands_view(
                *old(self),
                r,
                word_at(old(self).text(), old(self).cursor(), limit as nat, too_long, not_closed),
            ),
    {
        let mut word: Vec<char> = Vec::new();
        let ghost start = self.cursor();
        assert(self.text().subrange(start, start) =~= Seq::<char>::empty());
        loop
            invariant
                self.continues(*old(self)),
                start == old(self).cursor(),
                start <= self.cursor(),
                word@ == self.text().subrange(start, self.cursor()),
                word@.len() <= limit,
                word_run(self.text(), start) == word@.len() + word_run(self.text(), self.cursor()),
            decreases self.text().len() - self.cursor(),
        {
            if self.at_end() {
                return Err(self.failure(not_closed));
            }
            let c = self.current();
            if is_terminator_char(c) {
                return Ok(word);
            }
            let ghost before = self.cursor();
            self.advance();
            if word.len() >= limit {
                return Err(self.failure(too_long));
            }
            word.push(c);
            assert(self.text().subrange(start, before + 1) =~= self.text().subrange(
                start,
                before,
            ).push(c));
        }
    }

    /// A truth value: the word `true` or `false`.
    fn bool_parser(&mut self) -> (r: Result<bool>)
        requires
            old(self).wf(),
        ensures
            final(self).lands(*old(self), r, bool_at(old(self).text(), old(self).cursor())),
            r is Ok ==> final(self).cursor() > old(self).cursor(),
    {
        if self.at_end() {
            return Err(self.failure(ParseFault::BoolNotClosed));
        }
        let first = self.current();
        if first != 't' && first != 'f' {
            return Err(self.failure(ParseFault::BoolUnexpected));
        }
        let bool_string = match self.word_parser(
            5,
            ParseFault::BoolTooLong,
            ParseFault::BoolNotClosed,
        ) {
            Ok(word) => word,
            Err(err) => {
                return Err(err);
            },
        };
        let is_true = bool_string.len() == 4 && bool_string[0] == 't' && bool_string[1] == 'r'
            && bool_string[2] == 'u' && bool_string[3] == 'e';
        let is_false = bool_string.len() == 5 && bool_string[0] == 'f' && bool_string[1] == 'a'
            && bool_string[2] == 'l' && bool_string[3] == 's' && bool_string[4] == 'e';
        proof {
            if is_true {
                assert(bool_string@ =~= word_true());
            }
            if is_false {
                assert(bool_string@ =~= word_false());
            }
            if bool_string@ == word_true() {
                assert(bool_string@.len() == 4);
                assert(word_true()[0] == 't' && word_true()[1] == 'r' && word_true()[2] == 'u'
                    && word_true()[3] == 'e');
            }
            if bool_string@ == word_false() {
                assert(bool_string@.len() == 5);
                assert(word_false()[0] == 'f' && word_false()[1] == 'a' && word_false()[2] == 'l'
                    && word_false()[3] == 's' && word_false()[4] == 'e');
            }
        }
        if is_true {
            Ok(true)
        } else if is_false {
            Ok(false)
        } else {
            Err(self.failure(ParseFault::BoolMismatch))
        }
    }

    /// The word `null`.
    fn null_parser(&mut self) -> (r: Result<()>)
        requires
            old(self).wf(),
        ensures
            final(self).lands(*old(self), r, null_at(old(self).text(), old(self).cursor())),
            r is Ok ==> final(self).cursor() > old(self).cursor(),
    {
        let null_string = match self.word_parser(
            4,
            ParseFault::NullTooLong,
            ParseFault::NullNotClosed,
        ) {
            Ok(word) => word,
            Err(err) => {
                return Err(err);
            },
        };
        let is_null = null_string.len() == 4 && null_string[0] == 'n' && null_string[1] == 'u'
            && null_string[2] == 'l' && null_string[3] == 'l';
        proof {
            if is_null {
                assert(null_string@ =~= word_null());
            }
            if null_string@ == word_null() {
                assert(null_string@.len() == 4);
                assert(word_null()[0] == 'n' && word_null()[1] == 'u' && word_null()[2] == 'l'
                    && word_null()[3] == 'l');
            }
        }
        if is_null {
            Ok(())
        } else {
            Err(self.failure(ParseFault::NullMismatch))
        }
    }
}

impl JsonParser {
    /// Parses a document: the object at its start.
    pub fn parse(content_str: &str) -> (r: Result<JsonObject>)
        ensures
            match document(content_str@) {
                Ok(members) => r is Ok && r->Ok_0@ == members,
                Err(f) => r is Err && reports(r->Err_0, content_str@, f),
            },
    {
        let mut json_parser = JsonParser::new(content_str);
        let res_json_object = json_parser.object_parser();
        json_parser.content_chars.clear();
        res_json_object
    }

    /// An object: from its opening, part by part, to its closing brace. A
    /// key that occurs again replaces the value that it had.
    fn object_parser(&mut self) -> (r: Result<JsonObject>)
        requires
            old(self).wf(),
        ensures
            final(self).lands_view(
                *old(self),
                r,
                object_from(
                    old(self).text(),
                    old(self).cursor(),
                    MemberParserStatus::StartObject,
                    Seq::empty(),
                    Seq::empty(),
                ),
            ),
            r is Ok ==> final(self).cursor() > old(self).cursor(),
        decreases old(self).text().len() - old(self).cursor(), 0int,
    {
        let mut json_object = JsonObject::new();
        let mut status: MemberParserStatus = MemberParserStatus::new();
        let mut key: JsonKey = JsonKey(String::new());
        loop
            invariant
                self.continues(*old(self)),
                self.cursor() >= old(self).cursor(),
                status != MemberParserStatus::StartObject ==> self.cursor() > old(self).cursor(),
                object_from(self.text(), self.cursor(), status, key@, json_object@) == object_from(
                    old(self).text(),
                    old(self).cursor(),
                    MemberParserStatus::StartObject,
                    Seq::empty(),
                    Seq::empty(),
                ),
            decreases self.text().len() - self.cursor(),
        {
            match status {
                MemberParserStatus::StartObject => match self.start_object_parser() {
                    Ok(StartObjectKind::EmptyObject) => {
                        status = MemberParserStatus::EndMember;
                    },
                    Ok(StartObjectKind::HasSomeMember) => {
                        status = MemberParserStatus::Key;
                    },
                    Err(err) => {
                        return Err(err);
                    },
                },
                MemberParserStatus::Key => match self.key_parser() {
                    Ok(name) => {
                        key = name;
                        status = MemberParserStatus::Coron;
                    },
                    Err(err) => {
                        return Err(err);
                    },
                },
                MemberParserStatus::Coron => match self.coron_parser() {
                    Ok(_) => {
                        status = MemberParserStatus::Value;
                    },
                    Err(err) => {
                        return Err(err);
                    },
                },
                MemberParserStatus::Value => match self.value_parser(Host::Member) {
                    Ok(value) => {
                        let name = key;
                        key = JsonKey(String::new());
                        json_object.members.insert(name, value);
                        status = MemberParserStatus::EndMember;
                    },
                    Err(err) => {
                        return Err(err);
                    },
                },
                MemberParserStatus::EndMember => match self.end_member_parser() {
                    Ok(EndMemberKind::EndMember) => {
                        status = MemberParserStatus::Key;
                        continue ;
                    },
                    Ok(EndMemberKind::EndObject) => {
                        return Ok(json_object);
                    },
                    Err(err) => {
                        return Err(err);
                    },
                },
            }
            if self.at_end() {
                return Err(self.failure(ParseFault::ObjectNotClosed));
            }
        }
    }

    /// A value, after blanks, as the value of a member or as an element of
    /// an array.
    fn value_parser(&mut self, host: Host) -> (r: Result<JsonValue>)
        requires
            old(self).wf(),
        ensures
            final(self).lands_view(
                *old(self),
                r,
                value_from(old(self).text(), old(self).cursor(), host),
            ),
            r is Ok ==> final(self).cursor() > old(self).cursor(),
        decreases old(self).text().len() - old(self).cursor(), 1int,
    {
        if self.at_end() {
            return Err(self.failure(host_end_fault(host)));
        }
        if is_blank_char(self.current()) {
            match self.blank_parser() {
                Ok(_) => {},
                Err(err) => {
                    return Err(err);
                },
            }
        }
        let c = self.current();
        if c == '"' {
            match self.string_parser() {
                Ok(string) => Ok(JsonValue::ValueString(string)),
                Err(err) => Err(err),
            }
        } else if c == '-' || is_digit_char(c) {
            match self.number_parser() {
                Ok(number) => Ok(JsonValue::ValueNumber(number)),
                Err(err) => Err(err),
            }
        } else if c == 't' || c == 'f' {
            match self.bool_parser() {
                Ok(b) => Ok(JsonValue::ValueBool(b)),
                Err(err) => Err(err),
            }
        } else if c == 'n' {
            match self.null_parser() {
                Ok(_) => Ok(JsonValue::ValueNull),
                Err(err) => Err(err),
            }
        } else if c == '[' {
            match self.array_parser() {
                Ok(items) => Ok(JsonValue::ValueArray(items)),
                Err(err) => Err(err),
            }
        } else if c == '{' {
            match self.object_parser() {
                Ok(object) => Ok(JsonValue::ValueObject(object)),
                Err(err) => Err(err),
            }
        } else {
            Err(self.failure(host_unexpected_fault(host)))
        }
    }

    /// An array: `[`, and either `]` or the elements, each followed by a
    /// comma or, the last, by `]`.
    fn array_parser(&mut self) -> (r: Result<Vec<JsonValue>>)
        requires
            old(self).wf(),
        ensures
            final(self).continues(*old(self)),
            match array_at(old(self).text(), old(self).cursor()) {
                Ok((items, e)) => r is Ok && values_view(r->Ok_0@) == items && final(self).cursor()
                    == e,
                Err(f) => r is Err && reports(r->Err_0, old(self).text(), f),
            },
            r is Ok ==> final(self).cursor() > old(self).cursor(),
        decreases old(self).text().len() - old(self).cursor(), 0int,
    {
        if self.at_end() {
            return Err(self.failure(ParseFault::ArrayNotOpened));
        }
        if self.current() != '[' {
            return Err(self.failure(ParseFault::ArrayUnexpected));
        }
        self.advance();
        let mut object_array: Vec<JsonValue> = Vec::new();
        self.skip_blanks();
        if !self.at_end() && self.current() == ']' {
            self.advance();
            assert(values_view(object_array@) =~= Seq::<ValueModel>::empty());
            return Ok(object_array);
        }
        assert(values_view(object_array@) =~= Seq::<ValueModel>::empty());
        loop
            invariant
                self.continues(*old(self)),
                self.cursor() > old(self).cursor(),
                array_items(self.text(), self.cursor(), values_view(object_array@)) == array_at(
                    old(self).text(),
                    old(self).cursor(),
                ),
            decreases self.text().len() - self.cursor(),
        {
            let item = match self.value_parser(Host::Element) {
                Ok(value) => value,
                Err(err) => {
                    return Err(err);
                },
            };
            proof {
                lemma_values_view_push(object_array@, item);
            }
            object_array.push(item);
            match self.array_separator_parser() {
                Ok(ArraySeparatorKind::EndElement) => {},
                Ok(ArraySeparatorKind::EndArray) => {
                    return Ok(object_array);
                },
                Err(err) => {
                    return Err(err);
                },
            }
        }
    }
}

impl JsonObject {
    /// Parses a document: the object at its start. What follows the object
    /// is not read.
    pub fn parse(content_str: &str) -> (r: Result<JsonObject>)
        ensures
            match document(content_str@) {
                Ok(members) => r is Ok && r->Ok_0@ == members,
                Err(f) => r is Err && reports(r->Err_0, content_str@, f),
            },
    {
        JsonParser::parse(content_str)
    }
}

/// The fault of an input that ends where a value is due.
pub fn host_end_fault(host: Host) -> (fault: ParseFault)
    ensures
        fault == host_end(host),
{
    match host {
        Host::Member => ParseFault::ObjectNotClosed,
        Host::Element => ParseFault::ArrayNotClosed,
    }
}

/// The fault of a character with which no value begins.
pub fn host_unexpected_fault(host: Host) -> (fault: ParseFault)
    ensures
        fault == host_unexpected(host),
{
    match host {
        Host::Member => ParseFault::ValueUnexpected,
        Host::Element => ParseFault::ElementUnexpected,
    }
}

/// True for a blank.
pub fn is_blank_char(c: char) -> (b: bool)
    ensures
        b == is_blank(c),
{
    c == ' ' || c == '\t' || c == '\n' || c == '\r'
}

/// True for a character that ends a number or a word.
pub fn is_terminator_char(c: char) -> (b: bool)
    ensures
        b == is_terminator(c),
{
    is_blank_char(c) || c == ',' || c == '}' || c == ']'
}

/// True for a decimal digit.
pub fn is_digit_char(c: char) -> (b: bool)
    ensures
        b == is_digit(c),
{
    '0' <= c && c <= '9'
}

/// The number that a hexadecimal digit stands for.
pub fn hex_digit(c: char) -> (d: Option<u32>)
    ensures
        match d {
            Some(v) => is_hex(c) && v == hex_value(c),
            None => !is_hex(c),
        },
{
    if '0' <= c && c <= '9' {
        Some(c as u32 - '0' as u32)
    } else if 'a' <= c && c <= 'f' {
        Some(c as u32 - 'a' as u32 + 10)
    } else if 'A' <= c && c <= 'F' {
        Some(c as u32 - 'A' as u32 + 10)
    } else {
        None
    }
}

} // verus!
