//! The ways in which a document can fail to parse.
use crate::error::{is_parse_kind, JsonErrorKind};
use crate::text::nat_text;
use vstd::prelude::*;

verus! {

/// A rule of the grammar that a document can break. Each fault belongs to
/// one error kind and has one detail text.
#[derive(Debug, Clone, Copy, PartialEq, Eq, Structural)]
pub enum ParseFault {
    /// The input ended where the next part of a member was due.
    ObjectNotClosed,
    /// Something other than `{` opens the object, or something other than
    /// `}` or `"` follows the `{`.
    StartObjectUnexpected,
    /// The input ended before or right after the `{`.
    StartObjectNotClosed,
    /// Something other than `"` stands where a key is due.
    KeyUnexpected,
    /// The input ended where a key is due.
    KeyNotClosed,
    /// Something other than `:` follows a key.
    ColonUnexpected,
    /// The input ended in the blanks after a key.
    ColonNotClosed,
    /// No value can begin with the character that stands after the `:`.
    ValueUnexpected,
    /// Something other than `,` or `}` follows a member.
    EndMemberUnexpected,
    /// The input ended in the blanks after a member.
    EndMemberNotClosed,
    /// The input ended in the blanks before a value.
    BlankNotClosed,
    /// Something other than `"` opens a string.
    StringUnexpected,
    /// The input ended inside a string.
    StringNotClosed,
    /// The input ended inside an escape sequence.
    EscapeNotClosed,
    /// Something other than `\` opens an escape sequence.
    EscapeUnexpected,
    /// The character after `\` names no escape.
    EscapeUnknown,
    /// Something other than `\u` follows a high surrogate.
    EscapePairUnexpected,
    /// A character after `\u` is no hexadecimal digit.
    EscapeNotHex,
    /// The code units after `\u` stand for no character.
    EscapeNotChar,
    /// A `-` stands where no sign is allowed.
    NumberMinus,
    /// A `+` stands where no sign is allowed.
    NumberPlus,
    /// A `.` stands where no decimal point is allowed.
    NumberPoint,
    /// An `e` or `E` stands before any digit.
    NumberExponent,
    /// The characters of a number with a fraction or an exponent do not
    /// make a decimal literal.
    NumberNotFloat,
    /// The characters of a number without fraction and exponent do not
    /// make an integer of 64 bits.
    NumberNotInt,
    /// A character that belongs to no number stands inside one.
    NumberUnexpected,
    /// The input ended inside a number.
    NumberNotClosed,
    /// Something other than `t` or `f` opens a truth value.
    BoolUnexpected,
    /// The word is neither `true` nor `false`.
    BoolMismatch,
    /// The word has more than five characters.
    BoolTooLong,
    /// The input ended inside a truth value.
    BoolNotClosed,
    /// The word is not `null`.
    NullMismatch,
    /// The word has more than four characters.
    NullTooLong,
    /// The input ended inside the word.
    NullNotClosed,
    /// Something other than `[` opens an array.
    ArrayUnexpected,
    /// The input ended where an array is due.
    ArrayNotOpened,
    /// No element can begin with the character that stands in its place.
    ElementUnexpected,
    /// The input ended where an element is due.
    ArrayNotClosed,
    /// Something other than `,` or `]` follows an element.
    SeparatorUnexpected,
    /// The input ended in the blanks after an element.
    SeparatorNotClosed,
}

/// The error kind of a fault.
pub open spec fn fault_kind(fault: ParseFault) -> JsonErrorKind {
    match fault {
        ParseFault::ObjectNotClosed
        | ParseFault::StartObjectUnexpected
        | ParseFault::StartObjectNotClosed
        | ParseFault::ColonUnexpected
        | ParseFault::ColonNotClosed
        | ParseFault::EndMemberUnexpected
        | ParseFault::EndMemberNotClosed
        | ParseFault::BlankNotClosed
        | ParseFault::SeparatorUnexpected
        | ParseFault::SeparatorNotClosed => JsonErrorKind::ParseErrorInObject,
        ParseFault::KeyUnexpected | ParseFault::KeyNotClosed => JsonErrorKind::ParseErrorInKey,
        ParseFault::ValueUnexpected => JsonErrorKind::ParseErrorInValue,
        ParseFault::StringUnexpected
        | ParseFault::StringNotClosed
        | ParseFault::EscapeNotClosed
        | ParseFault::EscapeUnexpected
        | ParseFault::EscapeUnknown
        | ParseFault::EscapePairUnexpected
        | ParseFault::EscapeNotHex
        | ParseFault::EscapeNotChar => JsonErrorKind::ParseErrorInString,
        ParseFault::NumberMinus
        | ParseFault::NumberPlus
        | ParseFault::NumberPoint
        | ParseFault::NumberExponent
        | ParseFault::NumberNotFloat
        | ParseFault::NumberNotInt
        | ParseFault::NumberUnexpected
        | ParseFault::NumberNotClosed => JsonErrorKind::ParseErrorInNumber,
        ParseFault::BoolUnexpected
        | ParseFault::BoolMismatch
        | ParseFault::BoolTooLong
        | ParseFault::BoolNotClosed => JsonErrorKind::ParseErrorInBool,
        ParseFault::NullMismatch
        | ParseFault::NullTooLong
        | ParseFault::NullNotClosed => JsonErrorKind::ParseErrorInNull,
        ParseFault::ArrayUnexpected
        | ParseFault::ArrayNotOpened
        | ParseFault::ElementUnexpected
        | ParseFault::ArrayNotClosed => JsonErrorKind::ParseErrorInArray,
    }
}

/// Every fault belongs to a kind of the parse phase.
pub proof fn lemma_fault_kind_is_parse_kind(fault: ParseFault)
    ensures
        is_parse_kind(fault_kind(fault)),
{
}

/// The detail text of a fault.
pub open spec fn fault_text(fault: ParseFault) -> Seq<char> {
    match fault {
        ParseFault::ObjectNotClosed => "Object is not closed."@,
        ParseFault::StartObjectUnexpected => "StartObject: Expected '{' but found an another character."@,
        ParseFault::StartObjectNotClosed => "StartObject: Object is not closed."@,
        ParseFault::KeyUnexpected => "Key: Expected '\"' but found an another character."@,
        ParseFault::KeyNotClosed => "Key: Object is not closed."@,
        ParseFault::ColonUnexpected => "Key: Expected ':' but found an another character."@,
        ParseFault::ColonNotClosed => "Comma: Object is not closed."@,
        ParseFault::ValueUnexpected => "Value: Expected any charcter that start value but found an another character."@,
        ParseFault::EndMemberUnexpected => "EndMember: Expected '}' or ',' but found an another character."@,
        ParseFault::EndMemberNotClosed => "EndMember: Object is not closed."@,
        ParseFault::BlankNotClosed => "Blank: Object is not closed."@,
        ParseFault::StringUnexpected => "String: Expected '\"' but found an another character."@,
        ParseFault::StringNotClosed => "String: Object is not closed."@,
        ParseFault::EscapeNotClosed => "EscapeString: Object is not closed."@,
        ParseFault::EscapeUnexpected => "EscapeString: Expected '\\' but found an another character."@,
        ParseFault::EscapeUnknown => "EscapeString: Expected any escaped character but found an another character."@,
        ParseFault::EscapePairUnexpected => "EscapeString: Expected \"\\u\" but found an another character."@,
        ParseFault::EscapeNotHex => "EscapeString: Expected any Hexadecimal character but found an another character."@,
        ParseFault::EscapeNotChar => "EscapeString: Escaped string could not be parsed to \"char\"."@,
        ParseFault::NumberMinus => "Number: '-'s position is not allowed."@,
        ParseFault::NumberPlus => "Number: '+'s position is not allowed."@,
        ParseFault::NumberPoint => "Number: '.'s position is not allowed."@,
        ParseFault::NumberExponent => "Number: 'e' or 'E's position is not allowed."@,
        ParseFault::NumberNotFloat => "Number: Number string could not be parsed to \"f64\"."@,
        ParseFault::NumberNotInt => "Number: Number string could not be parsed to \"i64\"."@,
        ParseFault::NumberUnexpected => "Number: Expected any number character but found an another character."@,
        ParseFault::NumberNotClosed => "Number:  Object is not closed."@,
        ParseFault::BoolUnexpected => "Bool: Expected any bool character but found an another character."@,
        ParseFault::BoolMismatch => "Bool: Expected \"true\" or \"false\" but found an another string."@,
        ParseFault::BoolTooLong => "Bool: Expected \"true\" or \"false\" but found an too long string."@,
        ParseFault::BoolNotClosed => "Bool:  Object is not closed."@,
        ParseFault::NullMismatch => "Null: Expected \"null\" but found an another string."@,
        ParseFault::NullTooLong => "Null: Expected \"null\" but found an too long string."@,
        ParseFault::NullNotClosed => "Null:  Object is not closed."@,
        ParseFault::ArrayUnexpected => "Array: Expected '[' but found an another character."@,
        ParseFault::ArrayNotOpened => "Array: Object is not closed."@,
        ParseFault::ElementUnexpected => "Array: Expected any start member character but found an another character."@,
        ParseFault::ArrayNotClosed => "Null:  Object is not closed."@,
        ParseFault::SeparatorUnexpected => "Array: Expected ',' but found an another character."@,
        ParseFault::SeparatorNotClosed => "Array: Object is not closed."@,
    }
}

/// The detail text of a failed parse: the text of the fault, then the line
/// and the column of the cursor, both counted from 1.
pub open spec fn positioned_text(detail: Seq<char>, line: nat, column: nat) -> Seq<char> {
    detail + " | line:"@ + nat_text(line) + " column:"@ + nat_text(column)
}

impl ParseFault {
    /// The error kind of this fault.
    pub fn kind(&self) -> (kind: JsonErrorKind)
        ensures
            kind == fault_kind(*self),
    {
        match self {
            ParseFault::ObjectNotClosed
            | ParseFault::StartObjectUnexpected
            | ParseFault::StartObjectNotClosed
            | ParseFault::ColonUnexpected
            | ParseFault::ColonNotClosed
            | ParseFault::EndMemberUnexpected
            | ParseFault::EndMemberNotClosed
            | ParseFault::BlankNotClosed
            | ParseFault::SeparatorUnexpected
            | ParseFault::SeparatorNotClosed => JsonErrorKind::ParseErrorInObject,
            ParseFault::KeyUnexpected | ParseFault::KeyNotClosed => JsonErrorKind::ParseErrorInKey,
            ParseFault::ValueUnexpected => JsonErrorKind::ParseErrorInValue,
            ParseFault::StringUnexpected
            | ParseFault::StringNotClosed
            | ParseFault::EscapeNotClosed
            | ParseFault::EscapeUnexpected
            | ParseFault::EscapeUnknown
            | ParseFault::EscapePairUnexpected
            | ParseFault::EscapeNotHex
            | ParseFault::EscapeNotChar => JsonErrorKind::ParseErrorInString,
            ParseFault::NumberMinus
            | ParseFault::NumberPlus
            | ParseFault::NumberPoint
            | ParseFault::NumberExponent
            | ParseFault::NumberNotFloat
            | ParseFault::NumberNotInt
            | ParseFault::NumberUnexpected
            | ParseFault::NumberNotClosed => JsonErrorKind::ParseErrorInNumber,
            ParseFault::BoolUnexpected
            | ParseFault::BoolMismatch
            | ParseFault::BoolTooLong
            | ParseFault::BoolNotClosed => JsonErrorKind::ParseErrorInBool,
            ParseFault::NullMismatch
            | ParseFault::NullTooLong
            | ParseFault::NullNotClosed => JsonErrorKind::ParseErrorInNull,
            ParseFault::ArrayUnexpected
            | ParseFault::ArrayNotOpened
            | ParseFault::ElementUnexpected
            | ParseFault::ArrayNotClosed => JsonErrorKind::ParseErrorInArray,
        }
    }

    /// The detail text of this fault.
    pub fn text(&self) -> (text: &'static str)
        ensures
            text@ == fault_text(*self),
    {
        match self {
            ParseFault::ObjectNotClosed => "Object is not closed.",
            ParseFault::StartObjectUnexpected => "StartObject: Expected '{' but found an another character.",
            ParseFault::StartObjectNotClosed => "StartObject: Object is not closed.",
            ParseFault::KeyUnexpected => "Key: Expected '\"' but found an another character.",
            ParseFault::KeyNotClosed => "Key: Object is not closed.",
            ParseFault::ColonUnexpected => "Key: Expected ':' but found an another character.",
            ParseFault::ColonNotClosed => "Comma: Object is not closed.",
            ParseFault::ValueUnexpected => "Value: Expected any charcter that start value but found an another character.",
            ParseFault::EndMemberUnexpected => "EndMember: Expected '}' or ',' but found an another character.",
            ParseFault::EndMemberNotClosed => "EndMember: Object is not closed.",
            ParseFault::BlankNotClosed => "Blank: Object is not closed.",
            ParseFault::StringUnexpected => "String: Expected '\"' but found an another character.",
            ParseFault::StringNotClosed => "String: Object is not closed.",
            ParseFault::EscapeNotClosed => "EscapeString: Object is not closed.",
            ParseFault::EscapeUnexpected => "EscapeString: Expected '\\' but found an another character.",
            ParseFault::EscapeUnknown => "EscapeString: Expected any escaped character but found an another character.",
            ParseFault::EscapePairUnexpected => "EscapeString: Expected \"\\u\" but found an another character.",
            ParseFault::EscapeNotHex => "EscapeString: Expected any Hexadecimal character but found an another character.",
            ParseFault::EscapeNotChar => "EscapeString: Escaped string could not be parsed to \"char\".",
            ParseFault::NumberMinus => "Number: '-'s position is not allowed.",
            ParseFault::NumberPlus => "Number: '+'s position is not allowed.",
            ParseFault::NumberPoint => "Number: '.'s position is not allowed.",
            ParseFault::NumberExponent => "Number: 'e' or 'E's position is not allowed.",
            ParseFault::NumberNotFloat => "Number: Number string could not be parsed to \"f64\".",
            ParseFault::NumberNotInt => "Number: Number string could not be parsed to \"i64\".",
            ParseFault::NumberUnexpected => "Number: Expected any number character but found an another character.",
            ParseFault::NumberNotClosed => "Number:  Object is not closed.",
            ParseFault::BoolUnexpected => "Bool: Expected any bool character but found an another character.",
            ParseFault::BoolMismatch => "Bool: Expected \"true\" or \"false\" but found an another string.",
            ParseFault::BoolTooLong => "Bool: Expected \"true\" or \"false\" but found an too long string.",
            ParseFault::BoolNotClosed => "Bool:  Object is not closed.",
            ParseFault::NullMismatch => "Null: Expected \"null\" but found an another string.",
            ParseFault::NullTooLong => "Null: Expected \"null\" but found an too long string.",
            ParseFault::NullNotClosed => "Null:  Object is not closed.",
            ParseFault::ArrayUnexpected => "Array: Expected '[' but found an another character.",
            ParseFault::ArrayNotOpened => "Array: Object is not closed.",
            ParseFault::ElementUnexpected => "Array: Expected any start member character but found an another character.",
            ParseFault::ArrayNotClosed => "Null:  Object is not closed.",
            ParseFault::SeparatorUnexpected => "Array: Expected ',' but found an another character.",
            ParseFault::SeparatorNotClosed => "Array: Object is not closed.",
        }
    }
}

} // verus!
