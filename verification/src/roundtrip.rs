//! The parser reads back what the serializer writes.
use crate::grammar::{
    array_at, array_items, bool_at, colon_at, document, end_member_at, is_blank,
    is_float_literal, is_terminator, key_at, null_at, number_at, object_from, separator_at,
    start_object, string_at, value_at, value_from, ArraySeparatorKind, EndMemberKind, Failure,
    Host, MemberParserStatus, StartObjectKind,
};
use crate::layout::{
    document_text, indent_text, indent_unit, item_text, items_text, member_text, members_text,
    newline_text, object_text, quoted_text, value_text, JsonSerializerIndentKind,
    JsonSerializerNewLineKind,
};
use crate::roundtrip_tokens::{
    all_blank, blank_range, has_at, lemma_blank_join, lemma_blank_none, lemma_blank_one,
    lemma_blank_rest, lemma_bool_round, lemma_float_round, lemma_has_at_blank, lemma_has_at_char,
    lemma_has_at_split, lemma_indent_blank, lemma_int_round, lemma_null_round, lemma_skip_range,
    lemma_string_round,
};
use crate::text::{is_digit, lemma_concat_empty};
use crate::value::{
    distinct_keys, insert_member, key_index, lemma_key_index_from, MemberModel,
    ValueModel,
};
use vstd::prelude::*;

verus! {

/// A line end and an indentation that the serializer can be asked for: a
/// line end of one or more blanks, an indentation of blanks.
pub open spec fn is_style(nl: Seq<char>, unit: Seq<char>) -> bool {
    nl.len() > 0 && all_blank(nl) && all_blank(unit)
}

/// The values that are read back as they were written: every `Float` holds
/// a decimal literal with a fraction or an exponent, and no object has a
/// key twice.
pub open spec fn comes_back(v: ValueModel) -> bool
    decreases v,
{
    match v {
        ValueModel::Float(literal) => is_float_literal(literal),
        ValueModel::Array(items) => forall|k: int|
            0 <= k < items.len() ==> comes_back(#[trigger] items[k]),
        ValueModel::Object(members) => distinct_keys(members) && forall|k: int|
            0 <= k < members.len() ==> comes_back((#[trigger] members[k]).value),
        _ => true,
    }
}

/// Every element comes back.
#[verifier::opaque]
pub open spec fn items_come_back(items: Seq<ValueModel>) -> bool {
    comes_back(ValueModel::Array(items))
}

/// No key occurs twice, and the value of every member comes back.
#[verifier::opaque]
pub open spec fn members_come_back(members: Seq<MemberModel>) -> bool {
    comes_back(ValueModel::Object(members))
}

/// The elements of an array that comes back come back.
proof fn lemma_array_comes_back(items: Seq<ValueModel>)
    requires
        comes_back(ValueModel::Array(items)),
    ensures
        items_come_back(items),
{
    reveal(items_come_back);
}

/// The members of an object that comes back come back.
proof fn lemma_object_comes_back(members: Seq<MemberModel>)
    requires
        comes_back(ValueModel::Object(members)),
    ensures
        members_come_back(members),
{
    reveal(members_come_back);
}

/// Each element of an array that comes back comes back.
proof fn lemma_item_comes_back(items: Seq<ValueModel>, k: int)
    requires
        items_come_back(items),
        0 <= k < items.len(),
    ensures
        comes_back(items[k]),
{
    reveal(items_come_back);
    let v = ValueModel::Array(items);
    assert(comes_back(v));
    assert(v->Array_0 == items);
    assert(forall|j: int| 0 <= j < items.len() ==> comes_back(#[trigger] items[j]));
}

/// The value of each member of an object that comes back comes back.
proof fn lemma_member_comes_back(members: Seq<MemberModel>, k: int)
    requires
        members_come_back(members),
        0 <= k < members.len(),
    ensures
        comes_back(members[k].value),
{
    reveal(members_come_back);
}

/// The styles of the serializer are styles.
pub proof fn lemma_kinds_are_styles(
    newline_kind: JsonSerializerNewLineKind,
    indent_kind: JsonSerializerIndentKind,
)
    ensures
        is_style(newline_text(newline_kind), indent_unit(indent_kind)),
{
}

/// The blanks that stand before the value of the element `k` of an array.
pub open spec fn item_lead(items: Seq<ValueModel>, k: int, nl: Seq<char>, unit: Seq<char>, level: nat) -> Seq<
    char,
> {
    if items[k] is Object {
        seq![' '] + nl + indent_text(unit, level + 1)
    } else {
        seq![' ']
    }
}

/// The level at which the element `k` of an array is written.
pub open spec fn item_level(items: Seq<ValueModel>, k: int, level: nat) -> nat {
    if items[k] is Object {
        level + 1
    } else {
        level
    }
}

/// What stands after the value of the element `k` of an array.
pub open spec fn item_tail(items: Seq<ValueModel>, k: int, nl: Seq<char>, unit: Seq<char>, level: nat) -> Seq<
    char,
> {
    (if items[k] is Object && k == items.len() - 1 {
        nl + indent_text(unit, level)
    } else {
        Seq::empty()
    }) + (if k == items.len() - 1 {
        Seq::empty()
    } else {
        seq![',']
    })
}

/// The texts of an element, with the brackets moved.
proof fn lemma_regroup(a: Seq<char>, b: Seq<char>, c: Seq<char>, d: Seq<char>, e: Seq<char>, f: Seq<char>)
    ensures
        a + (b + c + d + e) + f == (a + b + c) + d + (e + f),
{
    assert(a + (b + c + d + e) + f =~= (a + b + c) + d + (e + f));
}

/// The texts of an object, with the brackets moved.
proof fn lemma_regroup_object(a: Seq<char>, nl: Seq<char>, m: Seq<char>, ind: Seq<char>, c: Seq<char>)
    ensures
        a + nl + m + nl + ind + c == (a + nl) + (m + (nl + ind + c)),
        (a + nl + m + nl + ind + c).len() == a.len() + nl.len() + m.len() + nl.len() + ind.len()
            + c.len(),
{
    assert(a + nl + m + nl + ind + c =~= (a + nl) + (m + (nl + ind + c)));
}

/// The text of an element is the blanks before its value, the value, and
/// what stands after it.
proof fn lemma_item_parts(items: Seq<ValueModel>, k: int, nl: Seq<char>, unit: Seq<char>, level: nat)
    requires
        0 <= k < items.len(),
    ensures
        item_text(items, k, nl, unit, level) == item_lead(items, k, nl, unit, level) + value_text(
            items[k],
            nl,
            unit,
            item_level(items, k, level),
        ) + item_tail(items, k, nl, unit, level),
{
    let last = k == items.len() - 1;
    let comma = if last {
        Seq::<char>::empty()
    } else {
        seq![',']
    };
    match items[k] {
        ValueModel::Object(members) => {
            let closing = if last {
                nl + indent_text(unit, level)
            } else {
                Seq::<char>::empty()
            };
            lemma_regroup(
                seq![' '],
                nl,
                indent_text(unit, level + 1),
                object_text(members, nl, unit, level + 1),
                closing,
                comma,
            );
        },
        _ => {
            lemma_concat_empty(comma);
        },
    }
}

/// The text of a member is made of its parts.
proof fn lemma_member_parts(members: Seq<MemberModel>, k: int, nl: Seq<char>, unit: Seq<char>, level: nat)
    requires
        0 <= k < members.len(),
    ensures
        member_text(members, k, nl, unit, level) == indent_text(unit, level + 1) + quoted_text(
            members[k].key,
        ) + seq![' ', ':', ' '] + value_text(members[k].value, nl, unit, level + 1) + (if k
            == members.len() - 1 {
            Seq::<char>::empty()
        } else {
            seq![','] + nl
        }),
{
}

/// The text of an object with members is made of its parts.
proof fn lemma_object_parts(members: Seq<MemberModel>, nl: Seq<char>, unit: Seq<char>, level: nat)
    requires
        members.len() > 0,
    ensures
        object_text(members, nl, unit, level) == (seq!['{'] + nl) + (members_text(
            members,
            members.len(),
            nl,
            unit,
            level,
        ) + (nl + indent_text(unit, level) + seq!['}'])),
        object_text(members, nl, unit, level).len() == 1 + nl.len() + members_text(
            members,
            members.len(),
            nl,
            unit,
            level,
        ).len() + nl.len() + indent_text(unit, level).len() + 1,
{
    lemma_regroup_object(
        seq!['{'],
        nl,
        members_text(members, members.len(), nl, unit, level),
        indent_text(unit, level),
        seq!['}'],
    );
}

/// The text of each element of an array stands where the texts of the
/// elements before it end.
proof fn lemma_item_stands(
    s: Seq<char>,
    base: int,
    items: Seq<ValueModel>,
    n: nat,
    k: int,
    nl: Seq<char>,
    unit: Seq<char>,
    level: nat,
)
    requires
        0 <= k < n,
        has_at(s, base, items_text(items, n, nl, unit, level)),
    ensures
        has_at(
            s,
            base + items_text(items, k as nat, nl, unit, level).len(),
            item_text(items, k, nl, unit, level),
        ),
        items_text(items, (k + 1) as nat, nl, unit, level).len() == items_text(
            items,
            k as nat,
            nl,
            unit,
            level,
        ).len() + item_text(items, k, nl, unit, level).len(),
        items_text(items, (k + 1) as nat, nl, unit, level).len() <= items_text(
            items,
            n,
            nl,
            unit,
            level,
        ).len(),
    decreases n,
{
    lemma_has_at_split(
        s,
        base,
        items_text(items, (n - 1) as nat, nl, unit, level),
        item_text(items, n - 1, nl, unit, level),
    );
    if k < n - 1 {
        lemma_item_stands(s, base, items, (n - 1) as nat, k, nl, unit, level);
    }
}

/// The text of each member of an object stands where the texts of the
/// members before it end.
proof fn lemma_member_stands(
    s: Seq<char>,
    base: int,
    members: Seq<MemberModel>,
    n: nat,
    k: int,
    nl: Seq<char>,
    unit: Seq<char>,
    level: nat,
)
    requires
        0 <= k < n,
        has_at(s, base, members_text(members, n, nl, unit, level)),
    ensures
        has_at(
            s,
            base + members_text(members, k as nat, nl, unit, level).len(),
            member_text(members, k, nl, unit, level),
        ),
        members_text(members, (k + 1) as nat, nl, unit, level).len() == members_text(
            members,
            k as nat,
            nl,
            unit,
            level,
        ).len() + member_text(members, k, nl, unit, level).len(),
        members_text(members, (k + 1) as nat, nl, unit, level).len() <= members_text(
            members,
            n,
            nl,
            unit,
            level,
        ).len(),
    decreases n,
{
    lemma_has_at_split(
        s,
        base,
        members_text(members, (n - 1) as nat, nl, unit, level),
        member_text(members, n - 1, nl, unit, level),
    );
    if k < n - 1 {
        lemma_member_stands(s, base, members, (n - 1) as nat, k, nl, unit, level);
    }
}

/// The indentation of a member is a range of blanks.
proof fn lemma_member_indent(
    s: Seq<char>,
    base: int,
    members: Seq<MemberModel>,
    k: int,
    nl: Seq<char>,
    unit: Seq<char>,
    level: nat,
)
    requires
        0 <= k < members.len(),
        all_blank(unit),
        has_at(s, base, members_text(members, members.len(), nl, unit, level)),
    ensures
        blank_range(
            s,
            base + members_text(members, k as nat, nl, unit, level).len(),
            base + members_text(members, k as nat, nl, unit, level).len() + indent_text(
                unit,
                level + 1,
            ).len(),
        ),
{
    let start = base + members_text(members, k as nat, nl, unit, level).len();
    let tail = if k == members.len() - 1 {
        Seq::<char>::empty()
    } else {
        seq![','] + nl
    };
    lemma_member_stands(s, base, members, members.len(), k, nl, unit, level);
    lemma_member_parts(members, k, nl, unit, level);
    lemma_has_at_five(
        s,
        start,
        indent_text(unit, level + 1),
        quoted_text(members[k].key),
        seq![' ', ':', ' '],
        value_text(members[k].value, nl, unit, level + 1),
        tail,
    );
    lemma_indent_blank(unit, level + 1);
    lemma_has_at_blank(s, start, indent_text(unit, level + 1));
}

/// To insert the next member of an object with distinct keys after the
/// members before it is to add it at the end.
proof fn lemma_insert_next(members: Seq<MemberModel>, k: int)
    requires
        members_come_back(members),
        0 <= k < members.len(),
    ensures
        insert_member(members.take(k), members[k].key, members[k].value) == members.take(k + 1),
{
    reveal(members_come_back);
    let before = members.take(k);
    lemma_key_index_from(before, members[k].key, 0);
    let r = key_index(before, members[k].key);
    if r < k {
        assert(before[r].key == members[r].key);
        assert(members[r].key != members[k].key);
    }
    assert(before.push(MemberModel { key: members[k].key, value: members[k].value })
        =~= members.take(k + 1));
}

/// Five texts that stand one after the other.
proof fn lemma_has_at_five(
    s: Seq<char>,
    i: int,
    a: Seq<char>,
    b: Seq<char>,
    c: Seq<char>,
    d: Seq<char>,
    e: Seq<char>,
)
    requires
        has_at(s, i, a + b + c + d + e),
    ensures
        has_at(s, i, a),
        has_at(s, i + a.len(), b),
        has_at(s, i + a.len() + b.len(), c),
        has_at(s, i + a.len() + b.len() + c.len(), d),
        has_at(s, i + a.len() + b.len() + c.len() + d.len(), e),
{
    lemma_has_at_split(s, i, a + b + c + d, e);
    lemma_has_at_split(s, i, a + b + c, d);
    lemma_has_at_split(s, i, a + b, c);
    lemma_has_at_split(s, i, a, b);
}

/// The end of an object that has members: blanks and the closing brace.
proof fn lemma_closing(s: Seq<char>, at: int, nl: Seq<char>, ind: Seq<char>)
    requires
        has_at(s, at, nl + ind + seq!['}']),
        nl.len() > 0,
        all_blank(nl),
        all_blank(ind),
    ensures
        blank_range(s, at, at + nl.len() + ind.len()),
        at + nl.len() + ind.len() < s.len(),
        s[at + nl.len() + ind.len()] == '}',
        is_blank(s[at]),
{
    lemma_has_at_split(s, at, nl + ind, seq!['}']);
    lemma_has_at_split(s, at, nl, ind);
    lemma_has_at_char(s, at + nl.len() + ind.len(), seq!['}'], 0);
    lemma_has_at_char(s, at, nl, 0);
    lemma_has_at_blank(s, at, nl);
    lemma_has_at_blank(s, at + nl.len(), ind);
    lemma_blank_join(s, at, at + nl.len(), at + nl.len() + ind.len());
    assert(is_blank(nl[0]));
}

/// A comma and a line end after a member.
proof fn lemma_comma_line(s: Seq<char>, at: int, nl: Seq<char>)
    requires
        has_at(s, at, seq![','] + nl),
        all_blank(nl),
    ensures
        s[at] == ',',
        blank_range(s, at + 1, at + 1 + nl.len()),
{
    lemma_has_at_split(s, at, seq![','], nl);
    lemma_has_at_char(s, at, seq![','], 0);
    lemma_has_at_blank(s, at + 1, nl);
}

/// The colon between blanks.
proof fn lemma_colon(s: Seq<char>, at: int)
    requires
        has_at(s, at, seq![' ', ':', ' ']),
    ensures
        s[at] == ' ',
        s[at + 1] == ':',
        s[at + 2] == ' ',
        at + 3 <= s.len(),
        colon_at(s, at) == Ok::<((), int), Failure>(((), at + 2)),
{
    let colon = seq![' ', ':', ' '];
    lemma_has_at_char(s, at, colon, 0);
    lemma_has_at_char(s, at, colon, 1);
    lemma_has_at_char(s, at, colon, 2);
    lemma_blank_one(s, at);
    lemma_skip_range(s, at, at + 1);
}

/// The opening of an object: the brace, blanks, and what begins the first
/// key or closes the object.
proof fn lemma_opening(s: Seq<char>, i: int, k: int)
    requires
        0 <= i < k < s.len(),
        s[i] == '{',
        blank_range(s, i + 1, k),
        s[k] == '"' || s[k] == '}',
    ensures
        start_object(s, i) == Ok::<(StartObjectKind, int), Failure>(
            (
                if s[k] == '}' {
                    StartObjectKind::EmptyObject
                } else {
                    StartObjectKind::HasSomeMember
                },
                k,
            ),
        ),
{
    lemma_blank_none(s, i);
    lemma_skip_range(s, i, i);
    lemma_skip_range(s, i + 1, k);
}

/// The end of a member: blanks and a comma or the closing brace.
proof fn lemma_member_end(s: Seq<char>, i: int, k: int)
    requires
        0 <= i <= k < s.len(),
        blank_range(s, i, k),
        s[k] == ',' || s[k] == '}',
    ensures
        end_member_at(s, i) == Ok::<(EndMemberKind, int), Failure>(
            (
                if s[k] == '}' {
                    EndMemberKind::EndObject
                } else {
                    EndMemberKind::EndMember
                },
                k + 1,
            ),
        ),
{
    lemma_skip_range(s, i, k);
}

/// The end of an element: blanks and a comma or the closing bracket.
proof fn lemma_item_end(s: Seq<char>, i: int, k: int)
    requires
        0 <= i <= k < s.len(),
        blank_range(s, i, k),
        s[k] == ',' || s[k] == ']',
    ensures
        separator_at(s, i) == Ok::<(ArraySeparatorKind, int), Failure>(
            (
                if s[k] == ']' {
                    ArraySeparatorKind::EndArray
                } else {
                    ArraySeparatorKind::EndElement
                },
                k + 1,
            ),
        ),
{
    lemma_skip_range(s, i, k);
}

/// The object grammar moves from the opening to the first key.
proof fn lemma_step_start(s: Seq<char>, i: int, k: int, key: Seq<char>, acc: Seq<MemberModel>)
    requires
        start_object(s, i) == Ok::<(StartObjectKind, int), Failure>(
            (StartObjectKind::HasSomeMember, k),
        ),
    ensures
        object_from(s, i, MemberParserStatus::StartObject, key, acc) == object_from(
            s,
            k,
            MemberParserStatus::Key,
            key,
            acc,
        ),
{
}

/// The object grammar moves from the opening of an object without members
/// to its end.
proof fn lemma_step_start_empty(s: Seq<char>, i: int, k: int, key: Seq<char>, acc: Seq<MemberModel>)
    requires
        start_object(s, i) == Ok::<(StartObjectKind, int), Failure>(
            (StartObjectKind::EmptyObject, k),
        ),
    ensures
        object_from(s, i, MemberParserStatus::StartObject, key, acc) == object_from(
            s,
            k,
            MemberParserStatus::EndMember,
            key,
            acc,
        ),
{
}

/// The object grammar moves from a key to the colon.
proof fn lemma_step_key(
    s: Seq<char>,
    i: int,
    k: int,
    key: Seq<char>,
    name: Seq<char>,
    acc: Seq<MemberModel>,
)
    requires
        key_at(s, i) == Ok::<(Seq<char>, int), Failure>((name, k)),
        k < s.len(),
    ensures
        object_from(s, i, MemberParserStatus::Key, key, acc) == object_from(
            s,
            k,
            MemberParserStatus::Coron,
            name,
            acc,
        ),
{
}

/// The object grammar moves from the colon to the value.
proof fn lemma_step_colon(s: Seq<char>, i: int, k: int, key: Seq<char>, acc: Seq<MemberModel>)
    requires
        colon_at(s, i) == Ok::<((), int), Failure>(((), k)),
        k < s.len(),
    ensures
        object_from(s, i, MemberParserStatus::Coron, key, acc) == object_from(
            s,
            k,
            MemberParserStatus::Value,
            key,
            acc,
        ),
{
}

/// The object grammar moves from the value to the end of the member.
proof fn lemma_step_value(
    s: Seq<char>,
    i: int,
    k: int,
    key: Seq<char>,
    value: ValueModel,
    acc: Seq<MemberModel>,
)
    requires
        value_from(s, i, Host::Member) == Ok::<(ValueModel, int), Failure>((value, k)),
        i < k < s.len(),
    ensures
        object_from(s, i, MemberParserStatus::Value, key, acc) == object_from(
            s,
            k,
            MemberParserStatus::EndMember,
            Seq::empty(),
            insert_member(acc, key, value),
        ),
{
}

/// The object grammar moves from a comma to the next key.
proof fn lemma_step_next(s: Seq<char>, i: int, k: int, key: Seq<char>, acc: Seq<MemberModel>)
    requires
        end_member_at(s, i) == Ok::<(EndMemberKind, int), Failure>((EndMemberKind::EndMember, k)),
    ensures
        object_from(s, i, MemberParserStatus::EndMember, key, acc) == object_from(
            s,
            k,
            MemberParserStatus::Key,
            key,
            acc,
        ),
{
}

/// The object grammar ends at the closing brace.
proof fn lemma_step_close(s: Seq<char>, i: int, k: int, key: Seq<char>, acc: Seq<MemberModel>)
    requires
        end_member_at(s, i) == Ok::<(EndMemberKind, int), Failure>((EndMemberKind::EndObject, k)),
    ensures
        object_from(s, i, MemberParserStatus::EndMember, key, acc) == Ok::<
            (Seq<MemberModel>, int),
            Failure,
        >((acc, k)),
{
}

/// The array grammar moves from an element and a comma to the next
/// element.
proof fn lemma_step_item(
    s: Seq<char>,
    p: int,
    ve: int,
    k: int,
    item: ValueModel,
    acc: Seq<ValueModel>,
)
    requires
        value_from(s, p, Host::Element) == Ok::<(ValueModel, int), Failure>((item, ve)),
        p < ve,
        separator_at(s, ve) == Ok::<(ArraySeparatorKind, int), Failure>(
            (ArraySeparatorKind::EndElement, k),
        ),
    ensures
        array_items(s, p, acc) == array_items(s, k, acc.push(item)),
{
}

/// The array grammar ends at the closing bracket.
proof fn lemma_step_last_item(
    s: Seq<char>,
    p: int,
    ve: int,
    k: int,
    item: ValueModel,
    acc: Seq<ValueModel>,
)
    requires
        value_from(s, p, Host::Element) == Ok::<(ValueModel, int), Failure>((item, ve)),
        p < ve,
        separator_at(s, ve) == Ok::<(ArraySeparatorKind, int), Failure>(
            (ArraySeparatorKind::EndArray, k),
        ),
    ensures
        array_items(s, p, acc) == Ok::<(Seq<ValueModel>, int), Failure>((acc.push(item), k)),
{
}

/// The array grammar moves from the opening bracket to the first element.
proof fn lemma_step_array(s: Seq<char>, i: int, vp: int)
    requires
        0 <= i < vp < s.len(),
        s[i] == '[',
        blank_range(s, i + 1, vp),
        !is_blank(s[vp]),
        s[vp] != ']',
    ensures
        array_at(s, i) == array_items(s, vp, Seq::empty()),
{
    lemma_skip_range(s, i + 1, vp);
}

/// A value after blanks is the value that stands after them.
proof fn lemma_value_after_blanks(s: Seq<char>, p: int, vp: int, host: Host)
    requires
        0 <= p <= vp < s.len(),
        blank_range(s, p, vp),
        !is_blank(s[vp]),
    ensures
        value_from(s, p, host) == value_at(s, vp, host),
{
    lemma_skip_range(s, p, vp);
}

/// No value begins with a blank or with a closing bracket.
proof fn lemma_value_head(s: Seq<char>, i: int, host: Host)
    requires
        value_at(s, i, host) is Ok,
    ensures
        0 <= i < s.len(),
        !is_blank(s[i]),
        s[i] != ']',
{
}

/// The parser reads an object without members that the serializer wrote.
proof fn lemma_empty_object_round(s: Seq<char>, i: int, key: Seq<char>)
    requires
        has_at(s, i, seq!['{', '}']),
    ensures
        object_from(s, i, MemberParserStatus::StartObject, key, Seq::empty()) == Ok::<
            (Seq<MemberModel>, int),
            Failure,
        >((Seq::empty(), i + 2)),
        s[i] == '{',
{
    lemma_has_at_char(s, i, seq!['{', '}'], 0);
    lemma_has_at_char(s, i, seq!['{', '}'], 1);
    lemma_blank_none(s, i + 1);
    lemma_opening(s, i, i + 1);
    lemma_step_start_empty(s, i, i + 1, key, Seq::empty());
    lemma_member_end(s, i + 1, i + 1);
    lemma_step_close(s, i + 1, i + 2, key, Seq::empty());
}

/// The parser reads an array without elements that the serializer wrote.
proof fn lemma_empty_array_round(s: Seq<char>, i: int)
    requires
        has_at(s, i, seq!['['] + Seq::<char>::empty() + seq![']']),
    ensures
        array_at(s, i) == Ok::<(Seq<ValueModel>, int), Failure>((Seq::empty(), i + 2)),
        s[i] == '[',
{
    let text = seq!['['] + Seq::<char>::empty() + seq![']'];
    lemma_has_at_char(s, i, text, 0);
    lemma_has_at_char(s, i, text, 1);
    lemma_blank_none(s, i + 1);
    lemma_skip_range(s, i + 1, i + 1);
}

/// A value that begins with a quote is a string.
proof fn lemma_value_is_text(s: Seq<char>, i: int, t: Seq<char>, e: int, host: Host)
    requires
        0 <= i < s.len(),
        s[i] == '"',
        string_at(s, i) == Ok::<(Seq<char>, int), Failure>((t, e)),
    ensures
        value_at(s, i, host) == Ok::<(ValueModel, int), Failure>((ValueModel::Text(t), e)),
{
}

/// A value that begins with a minus sign or a digit is a number.
proof fn lemma_value_is_number(s: Seq<char>, i: int, v: ValueModel, e: int, host: Host)
    requires
        0 <= i < s.len(),
        s[i] == '-' || is_digit(s[i]),
        number_at(s, i) == Ok::<(ValueModel, int), Failure>((v, e)),
    ensures
        value_at(s, i, host) == Ok::<(ValueModel, int), Failure>((v, e)),
{
}

/// A value that begins with `t` or `f` is a truth value.
proof fn lemma_value_is_bool(s: Seq<char>, i: int, b: bool, e: int, host: Host)
    requires
        0 <= i < s.len(),
        s[i] == 't' || s[i] == 'f',
        bool_at(s, i) == Ok::<(bool, int), Failure>((b, e)),
    ensures
        value_at(s, i, host) == Ok::<(ValueModel, int), Failure>((ValueModel::Bool(b), e)),
{
}

/// A value that begins with `n` is `null`.
proof fn lemma_value_is_null(s: Seq<char>, i: int, e: int, host: Host)
    requires
        0 <= i < s.len(),
        s[i] == 'n',
        null_at(s, i) == Ok::<((), int), Failure>(((), e)),
    ensures
        value_at(s, i, host) == Ok::<(ValueModel, int), Failure>((ValueModel::Null, e)),
{
}

/// A value that begins with a bracket is an array.
proof fn lemma_value_is_array(s: Seq<char>, i: int, items: Seq<ValueModel>, e: int, host: Host)
    requires
        0 <= i < s.len(),
        s[i] == '[',
        array_at(s, i) == Ok::<(Seq<ValueModel>, int), Failure>((items, e)),
    ensures
        value_at(s, i, host) == Ok::<(ValueModel, int), Failure>((ValueModel::Array(items), e)),
{
}

/// A value that begins with a brace is an object.
proof fn lemma_value_is_object(s: Seq<char>, i: int, members: Seq<MemberModel>, e: int, host: Host)
    requires
        0 <= i < s.len(),
        s[i] == '{',
        object_from(s, i, MemberParserStatus::StartObject, Seq::empty(), Seq::empty()) == Ok::<
            (Seq<MemberModel>, int),
            Failure,
        >((members, e)),
    ensures
        value_at(s, i, host) == Ok::<(ValueModel, int), Failure>((ValueModel::Object(members), e)),
{
}

/// The parser reads a value that the serializer wrote, and that a
/// terminator follows, as that value.
#[verifier::rlimit(40)]
pub proof fn lemma_value_round(
    s: Seq<char>,
    i: int,
    v: ValueModel,
    nl: Seq<char>,
    unit: Seq<char>,
    level: nat,
    host: Host,
)
    requires
        comes_back(v),
        is_style(nl, unit),
        has_at(s, i, value_text(v, nl, unit, level)),
        i + value_text(v, nl, unit, level).len() < s.len(),
        is_terminator(s[i + value_text(v, nl, unit, level).len()]),
    ensures
        value_at(s, i, host) == Ok::<(ValueModel, int), Failure>(
            (v, i + value_text(v, nl, unit, level).len()),
        ),
        value_text(v, nl, unit, level).len() >= 1,
    decreases v, 0nat, 0nat,
{
    let e = i + value_text(v, nl, unit, level).len();
    match v {
        ValueModel::Text(t) => {
            lemma_string_round(s, i, t);
            lemma_value_is_text(s, i, t, e, host);
        },
        ValueModel::Int(n) => {
            lemma_int_round(s, i, n);
            lemma_value_is_number(s, i, v, e, host);
        },
        ValueModel::Float(literal) => {
            lemma_float_round(s, i, literal);
            lemma_value_is_number(s, i, v, e, host);
        },
        ValueModel::Bool(b) => {
            lemma_bool_round(s, i, b);
            lemma_value_is_bool(s, i, b, e, host);
        },
        ValueModel::Null => {
            lemma_null_round(s, i);
            lemma_value_is_null(s, i, e, host);
        },
        ValueModel::Array(items) => {
            lemma_array_comes_back(items);
            lemma_array_round(s, i, items, nl, unit, level);
            lemma_value_is_array(s, i, items, e, host);
        },
        ValueModel::Object(members) => {
            lemma_object_comes_back(members);
            lemma_object_round(s, i, members, Seq::empty(), nl, unit, level);
            lemma_value_is_object(s, i, members, e, host);
        },
    }
}

/// What holds of the element `k` of an array that the serializer wrote:
/// blanks stand before its value, the parser reads its value, and a comma
/// follows or, after the last element, blanks and the closing bracket.
#[verifier::rlimit(60)]
proof fn lemma_item_facts(
    s: Seq<char>,
    base: int,
    items: Seq<ValueModel>,
    k: int,
    nl: Seq<char>,
    unit: Seq<char>,
    level: nat,
)
    requires
        0 <= k < items.len(),
        comes_back(items[k]),
        is_style(nl, unit),
        has_at(s, base, items_text(items, items.len(), nl, unit, level)),
        has_at(s, base + items_text(items, items.len(), nl, unit, level).len(), seq![']']),
    ensures
        ({
            let start = base + items_text(items, k as nat, nl, unit, level).len();
            let vp = start + item_lead(items, k, nl, unit, level).len();
            let ve = vp + value_text(items[k], nl, unit, item_level(items, k, level)).len();
            let next = base + items_text(items, (k + 1) as nat, nl, unit, level).len();
            &&& 0 <= base <= start < vp < ve <= next < s.len()
            &&& blank_range(s, start, vp)
            &&& value_at(s, vp, Host::Element) == Ok::<(ValueModel, int), Failure>((items[k], ve))
            &&& k < items.len() - 1 ==> s[ve] == ',' && next == ve + 1
            &&& k == items.len() - 1 ==> blank_range(s, ve, next) && s[next] == ']' && next == base
                + items_text(items, items.len(), nl, unit, level).len()
        }),
    decreases items, 0nat, 1nat,
{
    let n = items.len();
    let start = base + items_text(items, k as nat, nl, unit, level).len();
    let lead = item_lead(items, k, nl, unit, level);
    let core = value_text(items[k], nl, unit, item_level(items, k, level));
    let tail = item_tail(items, k, nl, unit, level);
    let vp = start + lead.len();
    let ve = vp + core.len();
    lemma_item_stands(s, base, items, n, k, nl, unit, level);
    lemma_item_parts(items, k, nl, unit, level);
    lemma_has_at_split(s, start, lead + core, tail);
    lemma_has_at_split(s, start, lead, core);
    lemma_has_at_char(s, base + items_text(items, n, nl, unit, level).len(), seq![']'], 0);
    lemma_indent_blank(unit, level);
    lemma_indent_blank(unit, level + 1);
    assert(all_blank(lead));
    lemma_has_at_blank(s, start, lead);
    if tail.len() > 0 {
        lemma_has_at_char(s, ve, tail, 0);
        assert(is_terminator(tail[0]));
    }
    assert(is_terminator(s[ve]));
    lemma_value_round(s, vp, items[k], nl, unit, item_level(items, k, level), Host::Element);
    if k == n - 1 {
        assert(all_blank(tail));
        lemma_has_at_blank(s, ve, tail);
    } else {
        assert(tail =~= seq![',']);
    }
}

/// The parser reads the elements of an array from the element `k` on, the
/// elements before it read.
#[verifier::rlimit(60)]
proof fn lemma_items_round(
    s: Seq<char>,
    base: int,
    items: Seq<ValueModel>,
    k: int,
    p: int,
    nl: Seq<char>,
    unit: Seq<char>,
    level: nat,
)
    requires
        0 <= k < items.len(),
        items_come_back(items),
        is_style(nl, unit),
        has_at(s, base, items_text(items, items.len(), nl, unit, level)),
        has_at(s, base + items_text(items, items.len(), nl, unit, level).len(), seq![']']),
        base + items_text(items, k as nat, nl, unit, level).len() <= p <= base + items_text(
            items,
            k as nat,
            nl,
            unit,
            level,
        ).len() + item_lead(items, k, nl, unit, level).len(),
    ensures
        array_items(s, p, items.take(k)) == Ok::<(Seq<ValueModel>, int), Failure>(
            (items, base + items_text(items, items.len(), nl, unit, level).len() + 1),
        ),
    decreases items, items.len() - k, 2nat,
{
    let n = items.len();
    let start = base + items_text(items, k as nat, nl, unit, level).len();
    let vp = start + item_lead(items, k, nl, unit, level).len();
    let ve = vp + value_text(items[k], nl, unit, item_level(items, k, level)).len();
    let next = base + items_text(items, (k + 1) as nat, nl, unit, level).len();
    lemma_item_comes_back(items, k);
    lemma_item_facts(s, base, items, k, nl, unit, level);
    lemma_value_head(s, vp, Host::Element);
    lemma_blank_rest(s, start, p, vp);
    lemma_value_after_blanks(s, p, vp, Host::Element);
    assert(items.take(k).push(items[k]) =~= items.take(k + 1));
    if k < n - 1 {
        lemma_blank_none(s, ve);
        lemma_item_end(s, ve, ve);
        lemma_step_item(s, p, ve, ve + 1, items[k], items.take(k));
        lemma_items_round(s, base, items, k + 1, ve + 1, nl, unit, level);
    } else {
        lemma_item_end(s, ve, next);
        lemma_step_last_item(s, p, ve, next + 1, items[k], items.take(k));
        assert(items.take(n as int) =~= items);
    }
}

/// The parser reads an array that the serializer wrote as that array.
#[verifier::rlimit(60)]
pub proof fn lemma_array_round(
    s: Seq<char>,
    i: int,
    items: Seq<ValueModel>,
    nl: Seq<char>,
    unit: Seq<char>,
    level: nat,
)
    requires
        items_come_back(items),
        is_style(nl, unit),
        has_at(s, i, seq!['['] + items_text(items, items.len(), nl, unit, level) + seq![']']),
    ensures
        array_at(s, i) == Ok::<(Seq<ValueModel>, int), Failure>(
            (
                items,
                i + (seq!['['] + items_text(items, items.len(), nl, unit, level) + seq![']']).len(),
            ),
        ),
        s[i] == '[',
    decreases items, items.len() + 1, 0nat,
{
    let body = items_text(items, items.len(), nl, unit, level);
    if items.len() == 0 {
        assert(body =~= Seq::<char>::empty());
        lemma_empty_array_round(s, i);
        assert(items =~= Seq::<ValueModel>::empty());
    } else {
        lemma_has_at_split(s, i, seq!['['] + body, seq![']']);
        lemma_has_at_split(s, i, seq!['['], body);
        lemma_has_at_char(s, i, seq!['['], 0);
        lemma_item_comes_back(items, 0);
        lemma_item_facts(s, i + 1, items, 0, nl, unit, level);
        let vp = i + 1 + item_lead(items, 0, nl, unit, level).len();
        lemma_value_head(s, vp, Host::Element);
        lemma_step_array(s, i, vp);
        lemma_items_round(s, i + 1, items, 0, vp, nl, unit, level);
        assert(items.take(0) =~= Seq::<ValueModel>::empty());
    }
}

/// What holds of the member `k` of an object that the serializer wrote:
/// blanks stand before its key, the parser reads the key, the colon and the
/// value, and a comma and blanks follow or, after the last member, blanks
/// and the closing brace.
#[verifier::rlimit(60)]
proof fn lemma_member_facts(
    s: Seq<char>,
    base: int,
    members: Seq<MemberModel>,
    k: int,
    nl: Seq<char>,
    unit: Seq<char>,
    level: nat,
)
    requires
        0 <= k < members.len(),
        comes_back(members[k].value),
        is_style(nl, unit),
        has_at(s, base, members_text(members, members.len(), nl, unit, level)),
        has_at(
            s,
            base + members_text(members, members.len(), nl, unit, level).len(),
            nl + indent_text(unit, level) + seq!['}'],
        ),
    ensures
        ({
            let start = base + members_text(members, k as nat, nl, unit, level).len();
            let kp = start + indent_text(unit, level + 1).len();
            let ke = kp + quoted_text(members[k].key).len();
            let vp = ke + 3;
            let ve = vp + value_text(members[k].value, nl, unit, level + 1).len();
            let next = base + members_text(members, (k + 1) as nat, nl, unit, level).len();
            let close = base + members_text(members, members.len(), nl, unit, level).len() + nl.len()
                + indent_text(unit, level).len();
            &&& 0 <= base <= start <= kp < ke < vp < ve <= next < close < s.len()
            &&& blank_range(s, start, kp)
            &&& s[kp] == '"'
            &&& string_at(s, kp) == Ok::<(Seq<char>, int), Failure>((members[k].key, ke))
            &&& has_at(s, ke, seq![' ', ':', ' '])
            &&& value_at(s, vp, Host::Member) == Ok::<(ValueModel, int), Failure>(
                (members[k].value, ve),
            )
            &&& k < members.len() - 1 ==> s[ve] == ',' && ve < next && blank_range(s, ve + 1, next)
            &&& k == members.len() - 1 ==> blank_range(s, ve, close)
            &&& s[close] == '}'
        }),
    decreases members, 0nat, 1nat,
{
    let n = members.len();
    let whole = members_text(members, n, nl, unit, level);
    let start = base + members_text(members, k as nat, nl, unit, level).len();
    let indent = indent_text(unit, level + 1);
    let key = quoted_text(members[k].key);
    let colon = seq![' ', ':', ' '];
    let value = value_text(members[k].value, nl, unit, level + 1);
    let tail = if k == n - 1 {
        Seq::<char>::empty()
    } else {
        seq![','] + nl
    };
    let kp = start + indent.len();
    let ke = kp + key.len();
    let vp = ke + 3;
    let ve = vp + value.len();
    lemma_member_stands(s, base, members, n, k, nl, unit, level);
    lemma_member_parts(members, k, nl, unit, level);
    lemma_has_at_five(s, start, indent, key, colon, value, tail);
    lemma_indent_blank(unit, level);
    lemma_indent_blank(unit, level + 1);
    lemma_has_at_blank(s, start, indent);
    lemma_string_round(s, kp, members[k].key);
    lemma_closing(s, base + whole.len(), nl, indent_text(unit, level));
    if k < n - 1 {
        lemma_comma_line(s, ve, nl);
    }
    assert(is_terminator(s[ve]));
    lemma_value_round(s, vp, members[k].value, nl, unit, level + 1, Host::Member);
}

/// The parser reads the member `k` of an object that the serializer
/// wrote: from the key that is due to the end of the member.
#[verifier::rlimit(40)]
proof fn lemma_member_read(
    s: Seq<char>,
    base: int,
    members: Seq<MemberModel>,
    k: int,
    p: int,
    key: Seq<char>,
    acc: Seq<MemberModel>,
    nl: Seq<char>,
    unit: Seq<char>,
    level: nat,
)
    requires
        0 <= k < members.len(),
        comes_back(members[k].value),
        is_style(nl, unit),
        has_at(s, base, members_text(members, members.len(), nl, unit, level)),
        has_at(
            s,
            base + members_text(members, members.len(), nl, unit, level).len(),
            nl + indent_text(unit, level) + seq!['}'],
        ),
        0 <= p <= base + members_text(members, k as nat, nl, unit, level).len() + indent_text(
            unit,
            level + 1,
        ).len(),
        blank_range(
            s,
            p,
            base + members_text(members, k as nat, nl, unit, level).len() + indent_text(
                unit,
                level + 1,
            ).len(),
        ),
    ensures
        ({
            let ve = base + members_text(members, k as nat, nl, unit, level).len() + indent_text(
                unit,
                level + 1,
            ).len() + quoted_text(members[k].key).len() + 3 + value_text(
                members[k].value,
                nl,
                unit,
                level + 1,
            ).len();
            let next = base + members_text(members, (k + 1) as nat, nl, unit, level).len();
            let close = base + members_text(members, members.len(), nl, unit, level).len() + nl.len()
                + indent_text(unit, level).len();
            &&& object_from(s, p, MemberParserStatus::Key, key, acc) == object_from(
                s,
                ve,
                MemberParserStatus::EndMember,
                Seq::empty(),
                insert_member(acc, members[k].key, members[k].value),
            )
            &&& 0 <= ve <= next < close < s.len()
            &&& k < members.len() - 1 ==> s[ve] == ',' && ve < next && blank_range(s, ve + 1, next)
            &&& k == members.len() - 1 ==> blank_range(s, ve, close)
            &&& s[close] == '}'
        }),
    decreases members, 0nat, 2nat,
{
    let start = base + members_text(members, k as nat, nl, unit, level).len();
    let kp = start + indent_text(unit, level + 1).len();
    let ke = kp + quoted_text(members[k].key).len();
    let vp = ke + 3;
    let ve = vp + value_text(members[k].value, nl, unit, level + 1).len();
    let name = members[k].key;
    let value = members[k].value;
    lemma_member_facts(s, base, members, k, nl, unit, level);
    // the key
    lemma_skip_range(s, p, kp);
    assert(key_at(s, p) == string_at(s, kp));
    lemma_step_key(s, p, ke, key, name, acc);
    // the colon
    lemma_colon(s, ke);
    lemma_step_colon(s, ke, ke + 2, name, acc);
    // the value
    lemma_value_head(s, vp, Host::Member);
    lemma_blank_one(s, ke + 2);
    lemma_value_after_blanks(s, ke + 2, vp, Host::Member);
    lemma_step_value(s, ke + 2, ve, name, value, acc);
}

/// The parser reads the members of an object from the member `k` on, the
/// members before it read.
#[verifier::rlimit(40)]
proof fn lemma_members_round(
    s: Seq<char>,
    base: int,
    members: Seq<MemberModel>,
    k: int,
    p: int,
    key: Seq<char>,
    nl: Seq<char>,
    unit: Seq<char>,
    level: nat,
)
    requires
        0 <= k < members.len(),
        members_come_back(members),
        is_style(nl, unit),
        has_at(s, base, members_text(members, members.len(), nl, unit, level)),
        has_at(
            s,
            base + members_text(members, members.len(), nl, unit, level).len(),
            nl + indent_text(unit, level) + seq!['}'],
        ),
        0 <= p <= base + members_text(members, k as nat, nl, unit, level).len() + indent_text(
            unit,
            level + 1,
        ).len(),
        blank_range(
            s,
            p,
            base + members_text(members, k as nat, nl, unit, level).len() + indent_text(
                unit,
                level + 1,
            ).len(),
        ),
    ensures
        object_from(s, p, MemberParserStatus::Key, key, members.take(k)) == Ok::<
            (Seq<MemberModel>, int),
            Failure,
        >(
            (
                members,
                base + members_text(members, members.len(), nl, unit, level).len() + nl.len()
                    + indent_text(unit, level).len() + 1,
            ),
        ),
    decreases members, members.len() - k, 3nat,
{
    let n = members.len();
    let ve = base + members_text(members, k as nat, nl, unit, level).len() + indent_text(
        unit,
        level + 1,
    ).len() + quoted_text(members[k].key).len() + 3 + value_text(
        members[k].value,
        nl,
        unit,
        level + 1,
    ).len();
    let next = base + members_text(members, (k + 1) as nat, nl, unit, level).len();
    let close = base + members_text(members, n, nl, unit, level).len() + nl.len() + indent_text(
        unit,
        level,
    ).len();
    lemma_member_comes_back(members, k);
    lemma_member_read(s, base, members, k, p, key, members.take(k), nl, unit, level);
    lemma_insert_next(members, k);
    if k < n - 1 {
        lemma_blank_none(s, ve);
        lemma_member_end(s, ve, ve);
        lemma_step_next(s, ve, ve + 1, Seq::empty(), members.take(k + 1));
        lemma_member_indent(s, base, members, k + 1, nl, unit, level);
        lemma_blank_join(s, ve + 1, next, next + indent_text(unit, level + 1).len());
        lemma_members_round(s, base, members, k + 1, ve + 1, Seq::empty(), nl, unit, level);
    } else {
        lemma_member_end(s, ve, close);
        lemma_step_close(s, ve, close + 1, Seq::empty(), members.take(k + 1));
        assert(members.take(n as int) =~= members);
    }
}

/// The parser reads an object that the serializer wrote as that object.
#[verifier::rlimit(60)]
pub proof fn lemma_object_round(
    s: Seq<char>,
    i: int,
    members: Seq<MemberModel>,
    key: Seq<char>,
    nl: Seq<char>,
    unit: Seq<char>,
    level: nat,
)
    requires
        members_come_back(members),
        is_style(nl, unit),
        has_at(s, i, object_text(members, nl, unit, level)),
    ensures
        object_from(s, i, MemberParserStatus::StartObject, key, Seq::empty()) == Ok::<
            (Seq<MemberModel>, int),
            Failure,
        >((members, i + object_text(members, nl, unit, level).len())),
        object_text(members, nl, unit, level).len() >= 2,
        s[i] == '{',
    decreases members, members.len() + 1, 0nat,
{
    let n = members.len();
    if n == 0 {
        lemma_empty_object_round(s, i, key);
        assert(members =~= Seq::<MemberModel>::empty());
    } else {
        let body = members_text(members, n, nl, unit, level);
        let closing = nl + indent_text(unit, level) + seq!['}'];
        let base = i + 1 + nl.len();
        lemma_object_parts(members, nl, unit, level);
        lemma_has_at_split(s, i, seq!['{'] + nl, body + closing);
        lemma_has_at_split(s, base, body, closing);
        lemma_has_at_split(s, i, seq!['{'], nl);
        lemma_has_at_char(s, i, seq!['{'], 0);
        lemma_has_at_blank(s, i + 1, nl);
        lemma_member_comes_back(members, 0);
        lemma_member_facts(s, base, members, 0, nl, unit, level);
        let kp = base + indent_text(unit, level + 1).len();
        lemma_blank_join(s, i + 1, base, kp);
        lemma_opening(s, i, kp);
        lemma_step_start(s, i, kp, key, Seq::empty());
        assert(members.take(0) =~= Seq::<MemberModel>::empty());
        lemma_blank_none(s, kp);
        lemma_members_round(s, base, members, 0, kp, key, nl, unit, level);
    }
}

/// A text that begins with `{}` parses to an object without members.
pub proof fn lemma_empty_document(s: Seq<char>)
    requires
        has_at(s, 0, seq!['{', '}']),
    ensures
        document(s) == Ok::<Seq<MemberModel>, Failure>(Seq::empty()),
{
    lemma_empty_object_round(s, 0, Seq::empty());
}

/// Round trip: a document that the serializer wrote for an object, in any
/// style, parses to that object, with its members in their order. This
/// holds of the objects in which no key occurs twice and every `Float`
/// holds a decimal literal with a fraction or an exponent.
pub proof fn theorem_round_trip(
    members: Seq<MemberModel>,
    newline_kind: JsonSerializerNewLineKind,
    indent_kind: JsonSerializerIndentKind,
)
    requires
        comes_back(ValueModel::Object(members)),
    ensures
        document(document_text(members, newline_text(newline_kind), indent_unit(indent_kind)))
            == Ok::<Seq<MemberModel>, Failure>(members),
{
    let nl = newline_text(newline_kind);
    let unit = indent_unit(indent_kind);
    let s = document_text(members, nl, unit);
    lemma_kinds_are_styles(newline_kind, indent_kind);
    lemma_object_comes_back(members);
    assert(s.subrange(0, object_text(members, nl, unit, 0).len() as int) =~= object_text(
        members,
        nl,
        unit,
        0,
    ));
    lemma_object_round(s, 0, members, Seq::empty(), nl, unit, 0);
}

} // verus!
