//! No object that the parser builds has a key twice.
use crate::grammar::{
    array_at, array_items, colon_at, document, end_member_at, is_blank, key_at, lemma_blanks,
    object_from, separator_at, skip_blanks, start_object, status_rank, value_at,
    value_from, ArraySeparatorKind, EndMemberKind, Host, MemberParserStatus, StartObjectKind,
};
use crate::progress::{lemma_string_ends_later, lemma_value_ends_later};
use crate::text::is_digit;
use crate::value::{
    distinct_keys, insert_member, key_index, lemma_insert_keeps_distinct, lemma_key_index_from,
    MemberModel, ValueModel,
};
use vstd::prelude::*;

verus! {

/// No object of the value, at any depth, has a key twice.
pub open spec fn well_keyed(v: ValueModel) -> bool
    decreases v,
{
    match v {
        ValueModel::Array(items) => forall|k: int|
            0 <= k < items.len() ==> well_keyed(#[trigger] items[k]),
        ValueModel::Object(members) => distinct_keys(members) && forall|k: int|
            0 <= k < members.len() ==> well_keyed((#[trigger] members[k]).value),
        _ => true,
    }
}

/// An array of well keyed values with one more at its end.
proof fn lemma_push_keyed(items: Seq<ValueModel>, item: ValueModel)
    requires
        well_keyed(ValueModel::Array(items)),
        well_keyed(item),
    ensures
        well_keyed(ValueModel::Array(items.push(item))),
{
    let more = items.push(item);
    let v = ValueModel::Array(items);
    assert(well_keyed(v));
    assert(v->Array_0 == items);
    assert(forall|j: int| 0 <= j < items.len() ==> well_keyed(#[trigger] items[j]));
    assert forall|k: int| 0 <= k < more.len() implies well_keyed(#[trigger] more[k]) by {
        if k < items.len() {
            assert(more[k] == items[k]);
        }
    }
}

/// Insertion into a well keyed object.
proof fn lemma_insert_keyed(members: Seq<MemberModel>, key: Seq<char>, value: ValueModel)
    requires
        well_keyed(ValueModel::Object(members)),
        well_keyed(value),
    ensures
        well_keyed(ValueModel::Object(insert_member(members, key, value))),
{
    let after = insert_member(members, key, value);
    lemma_insert_keeps_distinct(members, key, value);
    lemma_key_index_from(members, key, 0);
    let i = key_index(members, key);
    assert forall|k: int| 0 <= k < after.len() implies well_keyed((#[trigger] after[k]).value) by {
        if k != i {
            assert(after[k] == members[k]);
        }
    }
}

/// The value that begins at a cursor is well keyed.
pub proof fn lemma_value_at_keyed(s: Seq<char>, i: int, host: Host)
    ensures
        value_at(s, i, host) matches Ok((v, _)) ==> well_keyed(v),
    decreases s.len() - i, 1int,
{
    if 0 <= i < s.len() {
        let c = s[i];
        if c == '"' {
        } else if c == '-' || is_digit(c) {
        } else if c == 't' || c == 'f' {
        } else if c == 'n' {
        } else if c == '[' {
            lemma_array_keyed(s, i);
        } else if c == '{' {
            lemma_object_keyed(
                s,
                i,
                MemberParserStatus::StartObject,
                Seq::empty(),
                Seq::empty(),
            );
        }
    }
}

/// The value after blanks is well keyed.
pub proof fn lemma_value_keyed(s: Seq<char>, i: int, host: Host)
    ensures
        value_from(s, i, host) matches Ok((v, _)) ==> well_keyed(v),
    decreases s.len() - i, 2int,
{
    if 0 <= i < s.len() {
        lemma_blanks(s, i);
        if is_blank(s[i]) {
            if skip_blanks(s, i) < s.len() {
                lemma_value_at_keyed(s, skip_blanks(s, i), host);
            }
        } else {
            lemma_value_at_keyed(s, i, host);
        }
    }
}

/// The elements of an array are well keyed.
pub proof fn lemma_array_keyed(s: Seq<char>, i: int)
    ensures
        array_at(s, i) matches Ok((items, _)) ==> well_keyed(ValueModel::Array(items)),
    decreases s.len() - i, 0int,
{
    if 0 <= i < s.len() && s[i] == '[' {
        lemma_blanks(s, i + 1);
        let j = skip_blanks(s, i + 1);
        if !(j < s.len() && s[j] == ']') {
            lemma_items_keyed(s, j, Seq::empty());
        }
    }
}

/// The elements of an array from a cursor on are well keyed, where those
/// before it are.
pub proof fn lemma_items_keyed(s: Seq<char>, i: int, acc: Seq<ValueModel>)
    requires
        0 <= i,
        well_keyed(ValueModel::Array(acc)),
    ensures
        array_items(s, i, acc) matches Ok((items, _)) ==> well_keyed(ValueModel::Array(items)),
    decreases s.len() - i, 3int,
{
    lemma_value_ends_later(s, i, Host::Element);
    lemma_value_keyed(s, i, Host::Element);
    match value_from(s, i, Host::Element) {
        Err(_) => {},
        Ok((item, end)) => {
            lemma_blanks(s, end);
            lemma_push_keyed(acc, item);
            match separator_at(s, end) {
                Ok((ArraySeparatorKind::EndElement, k)) => {
                    lemma_items_keyed(s, k, acc.push(item));
                },
                _ => {},
            }
        },
    }
}

/// The object that is read from any of its parts on is well keyed, where
/// the members before the cursor are.
pub proof fn lemma_object_keyed(
    s: Seq<char>,
    i: int,
    status: MemberParserStatus,
    key: Seq<char>,
    acc: Seq<MemberModel>,
)
    requires
        0 <= i,
        well_keyed(ValueModel::Object(acc)),
    ensures
        object_from(s, i, status, key, acc) matches Ok((members, _)) ==> well_keyed(
            ValueModel::Object(members),
        ),
    decreases s.len() - i, status_rank(status),
{
    match status {
        MemberParserStatus::StartObject => {
            if i <= s.len() {
                lemma_blanks(s, i);
            }
            match start_object(s, i) {
                Err(_) => {},
                Ok((StartObjectKind::EmptyObject, k)) => {
                    lemma_object_keyed(s, k, MemberParserStatus::EndMember, key, acc);
                },
                Ok((StartObjectKind::HasSomeMember, k)) => {
                    lemma_object_keyed(s, k, MemberParserStatus::Key, key, acc);
                },
            }
        },
        MemberParserStatus::Key => {
            match key_at(s, i) {
                Err(_) => {},
                Ok((name, k)) => {
                    if k < s.len() {
                        lemma_string_ends_later(s, skip_blanks(s, i));
                        lemma_object_keyed(s, k, MemberParserStatus::Coron, name, acc);
                    }
                },
            }
        },
        MemberParserStatus::Coron => {
            match colon_at(s, i) {
                Err(_) => {},
                Ok((_, k)) => {
                    if k < s.len() {
                        lemma_object_keyed(s, k, MemberParserStatus::Value, key, acc);
                    }
                },
            }
        },
        MemberParserStatus::Value => {
            lemma_value_ends_later(s, i, Host::Member);
            lemma_value_keyed(s, i, Host::Member);
            match value_from(s, i, Host::Member) {
                Err(_) => {},
                Ok((value, end)) => {
                    if end < s.len() {
                        lemma_insert_keyed(acc, key, value);
                        lemma_object_keyed(
                            s,
                            end,
                            MemberParserStatus::EndMember,
                            Seq::empty(),
                            insert_member(acc, key, value),
                        );
                    }
                },
            }
        },
        MemberParserStatus::EndMember => {
            match end_member_at(s, i) {
                Ok((EndMemberKind::EndMember, k)) => {
                    lemma_object_keyed(s, k, MemberParserStatus::Key, key, acc);
                },
                _ => {},
            }
        },
    }
}

/// No object of a parsed document, at any depth, has a key twice.
pub proof fn theorem_parsed_keys_distinct(s: Seq<char>)
    ensures
        document(s) matches Ok(members) ==> well_keyed(ValueModel::Object(members)),
{
    lemma_object_keyed(s, 0, MemberParserStatus::StartObject, Seq::empty(), Seq::empty());
}

} // verus!
