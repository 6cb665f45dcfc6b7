//! The text of a value tree: what the serializer writes, as functions from
//! the model of a value and the style to a sequence of characters.
use crate::grammar::is_decimal_literal;
use crate::text::{hex_char, int_text};
use crate::value::{MemberModel, ValueModel};
use vstd::prelude::*;

verus! {

/// The line ends that the serializer can write.
#[derive(Debug, Clone, Copy, PartialEq, Eq, Structural)]
pub enum JsonSerializerNewLineKind {
    Lf,
    CrLf,
}

/// The indentation of one level: a tab, or a number of spaces.
#[derive(Debug, Clone, Copy, PartialEq, Eq, Structural)]
pub enum JsonSerializerIndentKind {
    Tab,
    Space(usize),
}

/// The characters of a line end.
pub open spec fn newline_text(kind: JsonSerializerNewLineKind) -> Seq<char> {
    match kind {
        JsonSerializerNewLineKind::Lf => seq!['\n'],
        JsonSerializerNewLineKind::CrLf => seq!['\r', '\n'],
    }
}

/// The characters that indent by one level.
pub open spec fn indent_unit(kind: JsonSerializerIndentKind) -> Seq<char> {
    match kind {
        JsonSerializerIndentKind::Tab => seq!['\t'],
        JsonSerializerIndentKind::Space(n) => Seq::new(n as nat, |i: int| ' '),
    }
}

/// The indentation of a level: as many units as the level counts.
pub open spec fn indent_text(unit: Seq<char>, level: nat) -> Seq<char>
    decreases level,
{
    if level == 0 {
        Seq::empty()
    } else {
        indent_text(unit, (level - 1) as nat) + unit
    }
}

/// What is written for one character of a string: an escape for the quote,
/// the backslash and the control characters, else the character itself.
pub open spec fn escaped_char(c: char) -> Seq<char> {
    if c == '"' {
        seq!['\\', '"']
    } else if c == '\\' {
        seq!['\\', '\\']
    } else if c == '\r' {
        seq!['\\', 'r']
    } else if c == '\n' {
        seq!['\\', 'n']
    } else if c == '\t' {
        seq!['\\', 't']
    } else if c == '\u{0008}' {
        seq!['\\', 'b']
    } else if c == '\u{000C}' {
        seq!['\\', 'f']
    } else if (c as int) < 0x20 {
        seq!['\\', 'u', '0', '0', hex_char(c as int / 16), hex_char(c as int % 16)]
    } else {
        seq![c]
    }
}

/// What is written for the characters of a string.
pub open spec fn escaped_text(t: Seq<char>) -> Seq<char>
    decreases t.len(),
{
    if t.len() == 0 {
        Seq::empty()
    } else {
        escaped_text(t.drop_last()) + escaped_char(t.last())
    }
}

/// A string between quotes.
pub open spec fn quoted_text(t: Seq<char>) -> Seq<char> {
    seq!['"'] + escaped_text(t) + seq!['"']
}

/// The word of a truth value.
pub open spec fn bool_text(b: bool) -> Seq<char> {
    if b {
        seq!['t', 'r', 'u', 'e']
    } else {
        seq!['f', 'a', 'l', 's', 'e']
    }
}

/// The word `null`.
pub open spec fn null_text() -> Seq<char> {
    seq!['n', 'u', 'l', 'l']
}

/// The text of a value at a level of indentation. `nl` is the line end,
/// `unit` the indentation of one level.
pub open spec fn value_text(v: ValueModel, nl: Seq<char>, unit: Seq<char>, level: nat) -> Seq<char>
    decreases v, 0nat,
{
    match v {
        ValueModel::Text(t) => quoted_text(t),
        ValueModel::Int(n) => int_text(n as int),
        ValueModel::Float(literal) => literal,
        ValueModel::Bool(b) => bool_text(b),
        ValueModel::Null => null_text(),
        ValueModel::Array(items) => seq!['['] + items_text(items, items.len(), nl, unit, level)
            + seq![']'],
        ValueModel::Object(members) => object_text(members, nl, unit, level),
    }
}

/// The text of the element `k` of an array: a space and the value, an
/// object on a line of its own and one level deeper; then a comma, but
/// after the last element, which, where it is an object, is followed by a
/// line end and the indentation of the array.
pub open spec fn item_text(items: Seq<ValueModel>, k: int, nl: Seq<char>, unit: Seq<char>, level: nat) -> Seq<
    char,
>
    decreases items, 0nat,
{
    if 0 <= k < items.len() {
        let last = k == items.len() - 1;
        seq![' '] + (match items[k] {
            ValueModel::Object(members) => nl + indent_text(unit, level + 1) + object_text(
                members,
                nl,
                unit,
                level + 1,
            ) + (if last {
                nl + indent_text(unit, level)
            } else {
                Seq::empty()
            }),
            _ => value_text(items[k], nl, unit, level),
        }) + (if last {
            Seq::empty()
        } else {
            seq![',']
        })
    } else {
        Seq::empty()
    }
}

/// The text of the first `n` elements of an array.
pub open spec fn items_text(items: Seq<ValueModel>, n: nat, nl: Seq<char>, unit: Seq<char>, level: nat) -> Seq<
    char,
>
    decreases items, n,
{
    if n == 0 {
        Seq::empty()
    } else {
        items_text(items, (n - 1) as nat, nl, unit, level) + item_text(items, n - 1, nl, unit, level)
    }
}

/// The text of the member `k` of an object whose brace stands at `level`:
/// the indentation, the key, ` : `, the value, and a comma and a line end
/// but after the last member.
pub open spec fn member_text(
    members: Seq<MemberModel>,
    k: int,
    nl: Seq<char>,
    unit: Seq<char>,
    level: nat,
) -> Seq<char>
    decreases members, 0nat,
{
    if 0 <= k < members.len() {
        indent_text(unit, level + 1) + quoted_text(members[k].key) + seq![' ', ':', ' ']
            + value_text(members[k].value, nl, unit, level + 1) + (if k == members.len() - 1 {
            Seq::empty()
        } else {
            seq![','] + nl
        })
    } else {
        Seq::empty()
    }
}

/// The text of the first `n` members of an object.
pub open spec fn members_text(
    members: Seq<MemberModel>,
    n: nat,
    nl: Seq<char>,
    unit: Seq<char>,
    level: nat,
) -> Seq<char>
    decreases members, n,
{
    if n == 0 {
        Seq::empty()
    } else {
        members_text(members, (n - 1) as nat, nl, unit, level) + member_text(
            members,
            n - 1,
            nl,
            unit,
            level,
        )
    }
}

/// The text of an object whose brace stands at `level`: `{}` without
/// members, else the members, each on a line of its own and one level
/// deeper, between `{` and `}`.
pub open spec fn object_text(members: Seq<MemberModel>, nl: Seq<char>, unit: Seq<char>, level: nat) -> Seq<
    char,
>
    decreases members, members.len() + 1,
{
    if members.len() == 0 {
        seq!['{', '}']
    } else {
        seq!['{'] + nl + members_text(members, members.len(), nl, unit, level) + nl + indent_text(
            unit,
            level,
        ) + seq!['}']
    }
}

/// The text of a document: the object and a line end.
pub open spec fn document_text(members: Seq<MemberModel>, nl: Seq<char>, unit: Seq<char>) -> Seq<char> {
    object_text(members, nl, unit, 0) + nl
}

/// The first `Float` of a value, in the order of the text, whose literal is
/// no decimal literal.
pub open spec fn bad_float(v: ValueModel) -> Option<Seq<char>>
    decreases v, 0nat,
{
    match v {
        ValueModel::Float(literal) => if is_decimal_literal(literal) {
            None
        } else {
            Some(literal)
        },
        ValueModel::Array(items) => bad_float_in_items(items, items.len()),
        ValueModel::Object(members) => bad_float_in_members(members, members.len()),
        _ => None,
    }
}

/// The first such `Float` among the first `n` elements of an array.
pub open spec fn bad_float_in_items(items: Seq<ValueModel>, n: nat) -> Option<Seq<char>>
    decreases items, n,
{
    if n == 0 || n > items.len() {
        None
    } else {
        match bad_float_in_items(items, (n - 1) as nat) {
            Some(literal) => Some(literal),
            None => bad_float(items[n - 1]),
        }
    }
}

/// The first such `Float` among the first `n` members of an object.
pub open spec fn bad_float_in_members(members: Seq<MemberModel>, n: nat) -> Option<Seq<char>>
    decreases members, n,
{
    if n == 0 || n > members.len() {
        None
    } else {
        match bad_float_in_members(members, (n - 1) as nat) {
            Some(literal) => Some(literal),
            None => bad_float(members[n - 1].value),
        }
    }
}

/// Where the first `k` elements hold no such `Float` and the element `k`
/// holds one, that one is the first of the array.
pub proof fn lemma_bad_float_in_items_found(items: Seq<ValueModel>, k: nat, n: nat)
    requires
        k < n <= items.len(),
        bad_float_in_items(items, k) is None,
        bad_float(items[k as int]) is Some,
    ensures
        bad_float_in_items(items, n) == bad_float(items[k as int]),
    decreases n,
{
    if n > k + 1 {
        lemma_bad_float_in_items_found(items, k, (n - 1) as nat);
    }
}

/// Where the first `k` members hold no such `Float` and the member `k`
/// holds one, that one is the first of the object.
pub proof fn lemma_bad_float_in_members_found(members: Seq<MemberModel>, k: nat, n: nat)
    requires
        k < n <= members.len(),
        bad_float_in_members(members, k) is None,
        bad_float(members[k as int].value) is Some,
    ensures
        bad_float_in_members(members, n) == bad_float(members[k as int].value),
    decreases n,
{
    if n > k + 1 {
        lemma_bad_float_in_members_found(members, k, (n - 1) as nat);
    }
}

/// The detail of a failed serialization: what went wrong, and the text
/// that could not be written.
pub open spec fn serialize_detail(detail: Seq<char>, status: Seq<char>) -> Seq<char> {
    detail + " | "@ + status
}

/// The detail of the failure to write a `Float` with the given literal.
pub open spec fn float_detail(literal: Seq<char>) -> Seq<char> {
    serialize_detail("Number:  Number is NaN or Infinite."@, literal)
}

} // verus!
