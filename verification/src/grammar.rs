//! The grammar of a document, as functions from a text and a cursor to the
//! value that stands there and the cursor after it, or to the fault and the
//! cursor at which the text breaks the grammar.
use crate::fault::ParseFault;
use crate::text::{digit_value, hex_value, is_digit, is_hex};
use crate::value::{insert_member, MemberModel, ValueModel};
use vstd::prelude::*;

verus! {

/// A broken rule and the cursor at which the parse stopped.
pub struct Failure {
    pub fault: ParseFault,
    pub at: int,
}

/// What stands at a cursor and the cursor after it, or the failure.
pub type Outcome<T> = Result<(T, int), Failure>;

/// The failure of a rule at a cursor.
pub open spec fn fail<T>(fault: ParseFault, at: int) -> Outcome<T> {
    Err(Failure { fault, at })
}

/// What follows the opening brace of an object.
#[derive(Debug, Clone, Copy, PartialEq, Eq, Structural)]
pub enum StartObjectKind {
    EmptyObject,
    HasSomeMember,
}

/// What follows a member of an object.
#[derive(Debug, Clone, Copy, PartialEq, Eq, Structural)]
pub enum EndMemberKind {
    EndMember,
    EndObject,
}

/// What follows an element of an array.
#[derive(Debug, Clone, Copy, PartialEq, Eq, Structural)]
pub enum ArraySeparatorKind {
    EndElement,
    EndArray,
}

/// The part of an object that is due next.
#[derive(Debug, Clone, Copy, PartialEq, Eq, Structural)]
pub enum MemberParserStatus {
    StartObject,
    Key,
    Coron,
    Value,
    EndMember,
}

impl MemberParserStatus {
    /// The part with which an object begins.
    pub fn new() -> (status: MemberParserStatus)
        ensures
            status == MemberParserStatus::StartObject,
    {
        MemberParserStatus::StartObject
    }
}

/// Where a value stands: as the value of a member, or as an element of an
/// array.
#[derive(Debug, Clone, Copy, PartialEq, Eq, Structural)]
pub enum Host {
    Member,
    Element,
}

/// Space, tab, line feed and carriage return.
pub open spec fn is_blank(c: char) -> bool {
    c == ' ' || c == '\t' || c == '\n' || c == '\r'
}

/// The characters that end a number, a truth value or `null`: a blank, a
/// comma, or a closing brace or bracket.
pub open spec fn is_terminator(c: char) -> bool {
    is_blank(c) || c == ',' || c == '}' || c == ']'
}

/// The number of blanks in a row that begin at the cursor.
pub open spec fn blanks(s: Seq<char>, i: int) -> nat
    decreases s.len() - i,
{
    if 0 <= i < s.len() && is_blank(s[i]) {
        1 + blanks(s, i + 1)
    } else {
        0
    }
}

/// The cursor after the blanks that begin at the cursor.
pub open spec fn skip_blanks(s: Seq<char>, i: int) -> int {
    i + blanks(s, i)
}

/// The blanks that begin at a cursor are blanks, end inside the text, and
/// no blank follows them.
pub proof fn lemma_blanks(s: Seq<char>, i: int)
    requires
        0 <= i <= s.len(),
    ensures
        i <= skip_blanks(s, i) <= s.len(),
        forall|k: int| i <= k < skip_blanks(s, i) ==> is_blank(#[trigger] s[k]),
        skip_blanks(s, i) < s.len() ==> !is_blank(s[skip_blanks(s, i)]),
    decreases s.len() - i,
{
    if i < s.len() && is_blank(s[i]) {
        lemma_blanks(s, i + 1);
    }
}

/// The line of a cursor, counted from 0: the number of line feeds before it.
pub open spec fn line_feeds(s: Seq<char>, i: int) -> nat
    decreases i,
{
    if i <= 0 || i > s.len() {
        0
    } else if s[i - 1] == '\n' {
        line_feeds(s, i - 1) + 1
    } else {
        line_feeds(s, i - 1)
    }
}

/// The cursor at which the line of a cursor begins: the one after the last
/// line feed before it, or 0.
pub open spec fn line_start(s: Seq<char>, i: int) -> int
    decreases i,
{
    if i <= 0 || i > s.len() {
        0
    } else if s[i - 1] == '\n' {
        i
    } else {
        line_start(s, i - 1)
    }
}

/// The line of a cursor, counted from 1.
pub open spec fn line_of(s: Seq<char>, i: int) -> nat {
    line_feeds(s, i) + 1
}

/// The column of a cursor, counted from 1 in characters.
pub open spec fn column_of(s: Seq<char>, i: int) -> nat {
    (i - line_start(s, i) + 1) as nat
}

/// The opening of an object: blanks, `{`, blanks, and then, not consumed,
/// `}` or the `"` of the first key.
pub open spec fn start_object(s: Seq<char>, i: int) -> Outcome<StartObjectKind> {
    let j = skip_blanks(s, i);
    if j < s.len() && s[j] != '{' {
        fail(ParseFault::StartObjectUnexpected, j)
    } else {
        let k = skip_blanks(
            s,
            if j < s.len() {
                j + 1
            } else {
                j
            },
        );
        if k >= s.len() {
            fail(ParseFault::StartObjectNotClosed, k)
        } else if s[k] == '}' {
            Ok((StartObjectKind::EmptyObject, k))
        } else if s[k] == '"' {
            Ok((StartObjectKind::HasSomeMember, k))
        } else {
            fail(ParseFault::StartObjectUnexpected, k)
        }
    }
}

/// Blanks and a colon.
pub open spec fn colon_at(s: Seq<char>, i: int) -> Outcome<()> {
    let j = skip_blanks(s, i);
    if j >= s.len() {
        fail(ParseFault::ColonNotClosed, j)
    } else if s[j] == ':' {
        Ok(((), j + 1))
    } else {
        fail(ParseFault::ColonUnexpected, j)
    }
}

/// Blanks and what ends a member: a comma, or the closing brace.
pub open spec fn end_member_at(s: Seq<char>, i: int) -> Outcome<EndMemberKind> {
    let j = skip_blanks(s, i);
    if j >= s.len() {
        fail(ParseFault::EndMemberNotClosed, j)
    } else if s[j] == '}' {
        Ok((EndMemberKind::EndObject, j + 1))
    } else if s[j] == ',' {
        Ok((EndMemberKind::EndMember, j + 1))
    } else {
        fail(ParseFault::EndMemberUnexpected, j)
    }
}

/// Blanks and what ends an element: a comma, or the closing bracket.
pub open spec fn separator_at(s: Seq<char>, i: int) -> Outcome<ArraySeparatorKind> {
    let j = skip_blanks(s, i);
    if j >= s.len() {
        fail(ParseFault::SeparatorNotClosed, j)
    } else if s[j] == ',' {
        Ok((ArraySeparatorKind::EndElement, j + 1))
    } else if s[j] == ']' {
        Ok((ArraySeparatorKind::EndArray, j + 1))
    } else {
        fail(ParseFault::SeparatorUnexpected, j)
    }
}

/// Blanks that something must follow.
pub open spec fn blank_at(s: Seq<char>, i: int) -> Outcome<()> {
    let j = skip_blanks(s, i);
    if j >= s.len() {
        fail(ParseFault::BlankNotClosed, j)
    } else {
        Ok(((), j))
    }
}

/// The failure at a cursor where a hexadecimal digit is due.
pub open spec fn hex_failure(s: Seq<char>, p: int) -> Failure {
    if p >= s.len() {
        Failure { fault: ParseFault::EscapeNotClosed, at: p }
    } else {
        Failure { fault: ParseFault::EscapeNotHex, at: p }
    }
}

/// A hexadecimal digit stands at the cursor.
pub open spec fn hex_ok(s: Seq<char>, p: int) -> bool {
    0 <= p < s.len() && is_hex(s[p])
}

/// Four hexadecimal digits: the code unit they denote.
pub open spec fn hex4_at(s: Seq<char>, i: int) -> Outcome<int> {
    if !hex_ok(s, i) {
        Err(hex_failure(s, i))
    } else if !hex_ok(s, i + 1) {
        Err(hex_failure(s, i + 1))
    } else if !hex_ok(s, i + 2) {
        Err(hex_failure(s, i + 2))
    } else if !hex_ok(s, i + 3) {
        Err(hex_failure(s, i + 3))
    } else {
        Ok(
            (
                hex_value(s[i]) * 4096 + hex_value(s[i + 1]) * 256 + hex_value(s[i + 2]) * 16
                    + hex_value(s[i + 3]),
                i + 4,
            ),
        )
    }
}

/// The code units that open a surrogate pair.
pub open spec fn is_high_surrogate(unit: int) -> bool {
    0xD800 <= unit <= 0xDBFF
}

/// The code units that close a surrogate pair.
pub open spec fn is_low_surrogate(unit: int) -> bool {
    0xDC00 <= unit <= 0xDFFF
}

/// The code point that a surrogate pair stands for.
pub open spec fn pair_code(high: int, low: int) -> int {
    0x10000 + (high - 0xD800) * 0x400 + (low - 0xDC00)
}

/// What follows `\u`: four hexadecimal digits, and after a high surrogate
/// `\u` and the four digits of a low surrogate.
pub open spec fn unicode_at(s: Seq<char>, i: int) -> Outcome<char> {
    match hex4_at(s, i) {
        Err(f) => Err(f),
        Ok((high, j)) => if is_high_surrogate(high) {
            if j + 1 >= s.len() {
                fail(ParseFault::EscapeNotClosed, j)
            } else if s[j] != '\\' || s[j + 1] != 'u' {
                fail(ParseFault::EscapePairUnexpected, j)
            } else {
                match hex4_at(s, j + 2) {
                    Err(f) => Err(f),
                    Ok((low, k)) => if is_low_surrogate(low) {
                        Ok((pair_code(high, low) as char, k))
                    } else {
                        fail(ParseFault::EscapeNotChar, k)
                    },
                }
            }
        } else if is_low_surrogate(high) {
            fail(ParseFault::EscapeNotChar, j)
        } else {
            Ok((high as char, j))
        },
    }
}

/// An escape sequence: `\` and the character that names the escape.
pub open spec fn escape_at(s: Seq<char>, i: int) -> Outcome<char> {
    if i < 0 || i >= s.len() {
        fail(ParseFault::EscapeNotClosed, i)
    } else if s[i] != '\\' {
        fail(ParseFault::EscapeUnexpected, i)
    } else if i + 1 >= s.len() {
        fail(ParseFault::EscapeNotClosed, i + 1)
    } else {
        let c = s[i + 1];
        if c == '"' || c == '\\' || c == '/' {
            Ok((c, i + 2))
        } else if c == 'b' {
            Ok(('\u{0008}', i + 2))
        } else if c == 'f' {
            Ok(('\u{000C}', i + 2))
        } else if c == 'n' {
            Ok(('\n', i + 2))
        } else if c == 'r' {
            Ok(('\r', i + 2))
        } else if c == 't' {
            Ok(('\t', i + 2))
        } else if c == 'u' {
            unicode_at(s, i + 2)
        } else {
            fail(ParseFault::EscapeUnknown, i + 1)
        }
    }
}

/// The rest of a string after its opening quote: `acc` holds the characters
/// decoded so far.
pub open spec fn string_body(s: Seq<char>, i: int, acc: Seq<char>) -> Outcome<Seq<char>>
    decreases s.len() - i,
{
    if i < 0 || i >= s.len() {
        fail(ParseFault::StringNotClosed, i)
    } else if s[i] == '"' {
        Ok((acc, i + 1))
    } else if s[i] == '\\' {
        match escape_at(s, i) {
            Err(f) => Err(f),
            Ok((c, k)) => string_body(s, k, acc.push(c)),
        }
    } else {
        string_body(s, i + 1, acc.push(s[i]))
    }
}

/// A string: the opening quote, the characters, the closing quote.
pub open spec fn string_at(s: Seq<char>, i: int) -> Outcome<Seq<char>> {
    if i < 0 || i >= s.len() {
        fail(ParseFault::StringNotClosed, i)
    } else if s[i] != '"' {
        fail(ParseFault::StringUnexpected, i)
    } else {
        string_body(s, i + 1, Seq::empty())
    }
}

/// Blanks and the string of a key.
pub open spec fn key_at(s: Seq<char>, i: int) -> Outcome<Seq<char>> {
    let j = skip_blanks(s, i);
    if j >= s.len() {
        fail(ParseFault::KeyNotClosed, j)
    } else if s[j] == '"' {
        string_at(s, j)
    } else {
        fail(ParseFault::KeyUnexpected, j)
    }
}

/// What the scan of a number has seen.
pub struct NumberScan {
    /// A sign may stand at the cursor: at the start and after the exponent
    /// marker.
    pub sign_allowed: bool,
    pub exponent: bool,
    pub digit: bool,
    pub point: bool,
}

/// What the scan has seen before the first character: nothing; a sign may
/// follow.
pub open spec fn scan_start() -> NumberScan {
    NumberScan { sign_allowed: true, exponent: false, digit: false, point: false }
}

/// The scan of a number, character by character, up to the terminator,
/// which is not consumed.
pub open spec fn number_scan(s: Seq<char>, i: int, seen: NumberScan) -> Outcome<NumberScan>
    decreases s.len() - i,
{
    if i < 0 || i >= s.len() {
        fail(ParseFault::NumberNotClosed, i)
    } else {
        let c = s[i];
        if c == '-' {
            if seen.sign_allowed {
                number_scan(s, i + 1, NumberScan { sign_allowed: false, ..seen })
            } else {
                fail(ParseFault::NumberMinus, i)
            }
        } else if c == '+' {
            if seen.sign_allowed && seen.exponent {
                number_scan(s, i + 1, NumberScan { sign_allowed: false, ..seen })
            } else {
                fail(ParseFault::NumberPlus, i)
            }
        } else if c == '.' {
            if seen.digit && !seen.point && !seen.exponent {
                number_scan(s, i + 1, NumberScan { point: true, ..seen })
            } else {
                fail(ParseFault::NumberPoint, i)
            }
        } else if is_digit(c) {
            number_scan(s, i + 1, NumberScan { digit: true, sign_allowed: false, ..seen })
        } else if c == 'e' || c == 'E' {
            if seen.digit {
                number_scan(s, i + 1, NumberScan { exponent: true, sign_allowed: true, ..seen })
            } else {
                fail(ParseFault::NumberExponent, i)
            }
        } else if is_terminator(c) {
            Ok((seen, i))
        } else {
            fail(ParseFault::NumberUnexpected, i)
        }
    }
}

/// The number of digits in a row that begin at the cursor.
pub open spec fn digit_run(t: Seq<char>, i: int) -> nat
    decreases t.len() - i,
{
    if 0 <= i < t.len() && is_digit(t[i]) {
        1 + digit_run(t, i + 1)
    } else {
        0
    }
}

/// Where the parts of a decimal literal would end: the integer part, the
/// fraction, the sign of the exponent and the exponent.
pub struct LiteralShape {
    pub sign_end: int,
    pub integer_end: int,
    pub has_fraction: bool,
    pub fraction_end: int,
    pub has_exponent: bool,
    pub exponent_start: int,
    pub exponent_end: int,
}

/// Where the parts of `t` end if `t` is read as a decimal literal.
pub open spec fn literal_shape(t: Seq<char>) -> LiteralShape {
    let sign_end = if t.len() > 0 && t[0] == '-' {
        1int
    } else {
        0int
    };
    let integer_end = sign_end + digit_run(t, sign_end);
    let has_fraction = integer_end < t.len() && t[integer_end] == '.';
    let fraction_end = if has_fraction {
        integer_end + 1 + digit_run(t, integer_end + 1)
    } else {
        integer_end
    };
    let has_exponent = fraction_end < t.len() && (t[fraction_end] == 'e' || t[fraction_end] == 'E');
    let exponent_start = if has_exponent && fraction_end + 1 < t.len() && (t[fraction_end + 1] == '+'
        || t[fraction_end + 1] == '-') {
        fraction_end + 2
    } else {
        fraction_end + 1
    };
    let exponent_end = if has_exponent {
        exponent_start + digit_run(t, exponent_start)
    } else {
        fraction_end
    };
    LiteralShape {
        sign_end,
        integer_end,
        has_fraction,
        fraction_end,
        has_exponent,
        exponent_start,
        exponent_end,
    }
}

/// A decimal literal: an optional `-`, one or more digits, optionally `.`
/// and one or more digits, optionally `e` or `E`, an optional sign and one
/// or more digits; and nothing after that.
pub open spec fn is_decimal_literal(t: Seq<char>) -> bool {
    let shape = literal_shape(t);
    &&& shape.integer_end > shape.sign_end
    &&& shape.has_fraction ==> shape.fraction_end > shape.integer_end + 1
    &&& shape.has_exponent ==> shape.exponent_end > shape.exponent_start
    &&& shape.exponent_end == t.len()
}

/// A decimal literal that has a fraction or an exponent.
pub open spec fn is_float_literal(t: Seq<char>) -> bool {
    is_decimal_literal(t) && (literal_shape(t).has_fraction || literal_shape(t).has_exponent)
}

/// Every character is a digit.
pub open spec fn all_digits(t: Seq<char>) -> bool {
    forall|i: int| 0 <= i < t.len() ==> is_digit(#[trigger] t[i])
}

/// The number that a row of digits denotes.
pub open spec fn digits_value(t: Seq<char>) -> nat
    decreases t.len(),
{
    if t.len() == 0 {
        0
    } else {
        (digits_value(t.drop_last()) * 10 + digit_value(t.last())) as nat
    }
}

/// The integer that a text denotes: an optional `-` and one or more digits.
pub open spec fn integer_of(t: Seq<char>) -> Option<int> {
    if t.len() > 0 && t[0] == '-' {
        if t.len() > 1 && all_digits(t.skip(1)) {
            Some(-(digits_value(t.skip(1)) as int))
        } else {
            None
        }
    } else if t.len() > 0 && all_digits(t) {
        Some(digits_value(t) as int)
    } else {
        None
    }
}

/// A number: the scan up to the terminator, and then the conversion of what
/// was scanned. A fraction or an exponent makes a `Float`, which keeps the
/// literal; otherwise the number is an `Int`.
pub open spec fn number_at(s: Seq<char>, i: int) -> Outcome<ValueModel> {
    match number_scan(s, i, scan_start()) {
        Err(f) => Err(f),
        Ok((seen, j)) => {
            let literal = s.subrange(i, j);
            if seen.point || seen.exponent {
                if is_decimal_literal(literal) {
                    Ok((ValueModel::Float(literal), j))
                } else {
                    fail(ParseFault::NumberNotFloat, j)
                }
            } else {
                match integer_of(literal) {
                    Some(n) => if i64::MIN <= n <= i64::MAX {
                        Ok((ValueModel::Int(n as i64), j))
                    } else {
                        fail(ParseFault::NumberNotInt, j)
                    },
                    None => fail(ParseFault::NumberNotInt, j),
                }
            }
        },
    }
}

/// The number of characters in a row, none of them a terminator, that begin
/// at the cursor.
pub open spec fn word_run(s: Seq<char>, i: int) -> nat
    decreases s.len() - i,
{
    if 0 <= i < s.len() && !is_terminator(s[i]) {
        1 + word_run(s, i + 1)
    } else {
        0
    }
}

/// The word `true`.
pub open spec fn word_true() -> Seq<char> {
    seq!['t', 'r', 'u', 'e']
}

/// The word `false`.
pub open spec fn word_false() -> Seq<char> {
    seq!['f', 'a', 'l', 's', 'e']
}

/// The word `null`.
pub open spec fn word_null() -> Seq<char> {
    seq!['n', 'u', 'l', 'l']
}

/// The word that begins at the cursor and ends before the next terminator.
/// A word of more than `limit` characters fails after the character that
/// exceeds the limit; a word that the input ends fails there.
pub open spec fn word_at(
    s: Seq<char>,
    i: int,
    limit: nat,
    too_long: ParseFault,
    not_closed: ParseFault,
) -> Outcome<Seq<char>> {
    let n = word_run(s, i);
    if n > limit {
        fail(too_long, i + limit + 1)
    } else if i + n >= s.len() {
        fail(not_closed, i + n)
    } else {
        Ok((s.subrange(i, i + n), i + n))
    }
}

/// A truth value: a word of at most five characters that begins with `t`
/// or `f` and is `true` or `false`.
pub open spec fn bool_at(s: Seq<char>, i: int) -> Outcome<bool> {
    if i < 0 || i >= s.len() {
        fail(ParseFault::BoolNotClosed, i)
    } else if s[i] != 't' && s[i] != 'f' {
        fail(ParseFault::BoolUnexpected, i)
    } else {
        match word_at(s, i, 5, ParseFault::BoolTooLong, ParseFault::BoolNotClosed) {
            Err(f) => Err(f),
            Ok((word, end)) => if word == word_true() {
                Ok((true, end))
            } else if word == word_false() {
                Ok((false, end))
            } else {
                fail(ParseFault::BoolMismatch, end)
            },
        }
    }
}

/// A word of at most four characters that is `null`.
pub open spec fn null_at(s: Seq<char>, i: int) -> Outcome<()> {
    match word_at(s, i, 4, ParseFault::NullTooLong, ParseFault::NullNotClosed) {
        Err(f) => Err(f),
        Ok((word, end)) => if word == word_null() {
            Ok(((), end))
        } else {
            fail(ParseFault::NullMismatch, end)
        },
    }
}

/// The fault of an input that ends where a value is due.
pub open spec fn host_end(host: Host) -> ParseFault {
    match host {
        Host::Member => ParseFault::ObjectNotClosed,
        Host::Element => ParseFault::ArrayNotClosed,
    }
}

/// The fault of a character with which no value begins.
pub open spec fn host_unexpected(host: Host) -> ParseFault {
    match host {
        Host::Member => ParseFault::ValueUnexpected,
        Host::Element => ParseFault::ElementUnexpected,
    }
}

/// The cursor after a value that begins at `i` and was found to end at
/// `end`. A value takes at least one character (`lemma_value_ends_later`),
/// so that `past(i, end)` is `end`; to say so here is what makes the
/// recursion of the grammar well founded.
pub open spec fn past(i: int, end: int) -> int {
    if end > i {
        end
    } else {
        i + 1
    }
}

/// Orders the parts of an object for the recursion of the grammar: the
/// opening comes before the parts that follow it at the same cursor.
pub open spec fn status_rank(status: MemberParserStatus) -> int {
    match status {
        MemberParserStatus::StartObject => 0,
        _ => 3,
    }
}

/// A string as a value.
pub open spec fn text_outcome(found: Outcome<Seq<char>>) -> Outcome<ValueModel> {
    match found {
        Ok((t, e)) => Ok((ValueModel::Text(t), e)),
        Err(f) => Err(f),
    }
}

/// A truth value as a value.
pub open spec fn bool_outcome(found: Outcome<bool>) -> Outcome<ValueModel> {
    match found {
        Ok((b, e)) => Ok((ValueModel::Bool(b), e)),
        Err(f) => Err(f),
    }
}

/// `null` as a value.
pub open spec fn null_outcome(found: Outcome<()>) -> Outcome<ValueModel> {
    match found {
        Ok((_, e)) => Ok((ValueModel::Null, e)),
        Err(f) => Err(f),
    }
}

/// An array as a value.
pub open spec fn array_outcome(found: Outcome<Seq<ValueModel>>) -> Outcome<ValueModel> {
    match found {
        Ok((items, e)) => Ok((ValueModel::Array(items), e)),
        Err(f) => Err(f),
    }
}

/// An object as a value.
pub open spec fn object_outcome(found: Outcome<Seq<MemberModel>>) -> Outcome<ValueModel> {
    match found {
        Ok((members, e)) => Ok((ValueModel::Object(members), e)),
        Err(f) => Err(f),
    }
}

/// The string of a key ends after the cursor at which it was looked for,
/// and inside the text.
pub proof fn lemma_string_body_ends_later(s: Seq<char>, i: int, acc: Seq<char>)
    ensures
        string_body(s, i, acc) matches Ok((_, e)) ==> 0 <= i < e <= s.len(),
    decreases s.len() - i,
{
    if 0 <= i < s.len() {
        if s[i] == '"' {
        } else if s[i] == '\\' {
            match escape_at(s, i) {
                Err(_) => {},
                Ok((c, k)) => {
                    lemma_string_body_ends_later(s, k, acc.push(c));
                },
            }
        } else {
            lemma_string_body_ends_later(s, i + 1, acc.push(s[i]));
        }
    }
}

/// A value that begins with the character at the cursor: the character
/// decides which.
pub open spec fn value_at(s: Seq<char>, i: int, host: Host) -> Outcome<ValueModel>
    decreases s.len() - i, 1int,
{
    if i < 0 || i >= s.len() {
        fail(host_end(host), i)
    } else {
        let c = s[i];
        if c == '"' {
            text_outcome(string_at(s, i))
        } else if c == '-' || is_digit(c) {
            number_at(s, i)
        } else if c == 't' || c == 'f' {
            bool_outcome(bool_at(s, i))
        } else if c == 'n' {
            null_outcome(null_at(s, i))
        } else if c == '[' {
            array_outcome(array_at(s, i))
        } else if c == '{' {
            object_outcome(
                object_from(s, i, MemberParserStatus::StartObject, Seq::empty(), Seq::empty()),
            )
        } else {
            fail(host_unexpected(host), i)
        }
    }
}

/// A value, after blanks.
pub open spec fn value_from(s: Seq<char>, i: int, host: Host) -> Outcome<ValueModel>
    decreases s.len() - i, 2int,
{
    if i < 0 || i >= s.len() {
        fail(host_end(host), i)
    } else if is_blank(s[i]) {
        let j = skip_blanks(s, i);
        if j >= s.len() {
            fail(ParseFault::BlankNotClosed, j)
        } else {
            value_at(s, j, host)
        }
    } else {
        value_at(s, i, host)
    }
}

/// An array: `[`, blanks, and either `]` or the elements.
pub open spec fn array_at(s: Seq<char>, i: int) -> Outcome<Seq<ValueModel>>
    decreases s.len() - i, 0int,
{
    if i < 0 || i >= s.len() {
        fail(ParseFault::ArrayNotOpened, i)
    } else if s[i] != '[' {
        fail(ParseFault::ArrayUnexpected, i)
    } else {
        let j = skip_blanks(s, i + 1);
        if j < s.len() && s[j] == ']' {
            Ok((Seq::empty(), j + 1))
        } else {
            proof {
                lemma_blanks(s, i + 1);
            }
            array_items(s, j, Seq::empty())
        }
    }
}

/// The elements of an array from the cursor on, each followed by a comma
/// or, the last, by `]`: `acc` holds the elements before the cursor.
pub open spec fn array_items(s: Seq<char>, i: int, acc: Seq<ValueModel>) -> Outcome<Seq<ValueModel>>
    decreases s.len() - i, 3int,
{
    match value_from(s, i, Host::Element) {
        Err(f) => Err(f),
        Ok((item, end)) => match separator_at(s, past(i, end)) {
            Err(f) => Err(f),
            Ok((ArraySeparatorKind::EndArray, k)) => Ok((acc.push(item), k)),
            Ok((ArraySeparatorKind::EndElement, k)) => array_items(s, k, acc.push(item)),
        },
    }
}

/// An object, from the part that is due next: `key` holds the key of the
/// member that is being read, `acc` the members before it. A key that
/// occurs again replaces the value that it had.
pub open spec fn object_from(
    s: Seq<char>,
    i: int,
    status: MemberParserStatus,
    key: Seq<char>,
    acc: Seq<MemberModel>,
) -> Outcome<Seq<MemberModel>>
    decreases s.len() - i, status_rank(status),
{
    match status {
        MemberParserStatus::StartObject => match start_object(s, i) {
            Err(f) => Err(f),
            Ok((StartObjectKind::EmptyObject, k)) => object_from(
                s,
                k,
                MemberParserStatus::EndMember,
                key,
                acc,
            ),
            Ok((StartObjectKind::HasSomeMember, k)) => object_from(
                s,
                k,
                MemberParserStatus::Key,
                key,
                acc,
            ),
        },
        MemberParserStatus::Key => match key_at(s, i) {
            Err(f) => Err(f),
            Ok((name, k)) => {
                if k >= s.len() {
                    fail(ParseFault::ObjectNotClosed, k)
                } else {
                    proof {
                        lemma_string_body_ends_later(s, skip_blanks(s, i) + 1, Seq::empty());
                    }
                    object_from(s, k, MemberParserStatus::Coron, name, acc)
                }
            },
        },
        MemberParserStatus::Coron => match colon_at(s, i) {
            Err(f) => Err(f),
            Ok((_, k)) => if k >= s.len() {
                fail(ParseFault::ObjectNotClosed, k)
            } else {
                object_from(s, k, MemberParserStatus::Value, key, acc)
            },
        },
        MemberParserStatus::Value => match value_from(s, i, Host::Member) {
            Err(f) => Err(f),
            Ok((value, end)) => if past(i, end) >= s.len() {
                fail(ParseFault::ObjectNotClosed, past(i, end))
            } else {
                object_from(
                    s,
                    past(i, end),
                    MemberParserStatus::EndMember,
                    Seq::empty(),
                    insert_member(acc, key, value),
                )
            },
        },
        MemberParserStatus::EndMember => match end_member_at(s, i) {
            Err(f) => Err(f),
            Ok((EndMemberKind::EndObject, k)) => Ok((acc, k)),
            Ok((EndMemberKind::EndMember, k)) => object_from(
                s,
                k,
                MemberParserStatus::Key,
                key,
                acc,
            ),
        },
    }
}

/// A document: the object at its start. What follows the object is not
/// read.
pub open spec fn document(s: Seq<char>) -> Result<Seq<MemberModel>, Failure> {
    match object_from(s, 0, MemberParserStatus::StartObject, Seq::empty(), Seq::empty()) {
        Ok((members, _)) => Ok(members),
        Err(f) => Err(f),
    }
}

} // verus!
