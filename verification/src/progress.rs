//! Every value of the grammar takes at least one character and ends inside
//! the text.
use crate::grammar::{
    array_at, array_items, colon_at, end_member_at, integer_of, key_at,
    lemma_blanks, lemma_string_body_ends_later, number_at, number_scan, object_from,
    past, scan_start, separator_at, skip_blanks, start_object, status_rank, string_at, value_at,
    value_from, ArraySeparatorKind, EndMemberKind, Host, MemberParserStatus, NumberScan,
    StartObjectKind,
};
use crate::value::{MemberModel, ValueModel};
use vstd::prelude::*;

verus! {

/// The scan of a number ends at or after the cursor, before the end of the
/// text.
pub proof fn lemma_scan_ends(s: Seq<char>, i: int, seen: NumberScan)
    ensures
        number_scan(s, i, seen) matches Ok((_, e)) ==> 0 <= i <= e < s.len(),
    decreases s.len() - i,
{
    if 0 <= i < s.len() {
        let c = s[i];
        if c == '-' {
            lemma_scan_ends(s, i + 1, NumberScan { sign_allowed: false, ..seen });
        } else if c == '+' {
            lemma_scan_ends(s, i + 1, NumberScan { sign_allowed: false, ..seen });
        } else if c == '.' {
            lemma_scan_ends(s, i + 1, NumberScan { point: true, ..seen });
        } else if crate::text::is_digit(c) {
            lemma_scan_ends(s, i + 1, NumberScan { digit: true, sign_allowed: false, ..seen });
        } else if c == 'e' || c == 'E' {
            lemma_scan_ends(s, i + 1, NumberScan { exponent: true, sign_allowed: true, ..seen });
        }
    }
}

/// A number takes at least one character.
pub proof fn lemma_number_ends_later(s: Seq<char>, i: int)
    ensures
        number_at(s, i) matches Ok((_, e)) ==> 0 <= i < e < s.len(),
{
    lemma_scan_ends(s, i, scan_start());
    match number_scan(s, i, scan_start()) {
        Ok((seen, e)) => {
            if e == i {
                assert(s.subrange(i, e) =~= Seq::<char>::empty());
                assert(integer_of(Seq::<char>::empty()) is None);
            }
        },
        Err(_) => {},
    }
}

/// A string takes at least two characters.
pub proof fn lemma_string_ends_later(s: Seq<char>, i: int)
    ensures
        string_at(s, i) matches Ok((_, e)) ==> 0 <= i < e <= s.len(),
{
    lemma_string_body_ends_later(s, i + 1, Seq::empty());
}

/// A value that begins at the cursor takes at least one character.
pub proof fn lemma_value_at_ends_later(s: Seq<char>, i: int, host: Host)
    ensures
        value_at(s, i, host) matches Ok((_, e)) ==> 0 <= i < e <= s.len(),
    decreases s.len() - i, 1int,
{
    if 0 <= i < s.len() {
        let c = s[i];
        if c == '"' {
            lemma_string_ends_later(s, i);
        } else if c == '-' || crate::text::is_digit(c) {
            lemma_number_ends_later(s, i);
        } else if c == 't' || c == 'f' {
        } else if c == 'n' {
        } else if c == '[' {
            lemma_array_ends_later(s, i);
        } else if c == '{' {
            lemma_object_ends_later(
                s,
                i,
                MemberParserStatus::StartObject,
                Seq::empty(),
                Seq::empty(),
            );
        }
    }
}

/// A value takes at least one character: `past` changes nothing where the
/// grammar uses it.
pub proof fn lemma_value_ends_later(s: Seq<char>, i: int, host: Host)
    ensures
        value_from(s, i, host) matches Ok((_, e)) ==> 0 <= i < e <= s.len() && past(i, e) == e,
    decreases s.len() - i, 2int,
{
    if 0 <= i < s.len() {
        lemma_blanks(s, i);
        if crate::grammar::is_blank(s[i]) {
            if skip_blanks(s, i) < s.len() {
                lemma_value_at_ends_later(s, skip_blanks(s, i), host);
            }
        } else {
            lemma_value_at_ends_later(s, i, host);
        }
    }
}

/// An array takes at least two characters.
pub proof fn lemma_array_ends_later(s: Seq<char>, i: int)
    ensures
        array_at(s, i) matches Ok((_, e)) ==> 0 <= i < e <= s.len(),
    decreases s.len() - i, 0int,
{
    if 0 <= i < s.len() && s[i] == '[' {
        lemma_blanks(s, i + 1);
        let j = skip_blanks(s, i + 1);
        if !(j < s.len() && s[j] == ']') {
            lemma_items_end_later(s, j, Seq::empty());
        }
    }
}

/// The elements of an array and its closing bracket take at least two
/// characters.
pub proof fn lemma_items_end_later(s: Seq<char>, i: int, acc: Seq<ValueModel>)
    requires
        0 <= i,
    ensures
        array_items(s, i, acc) matches Ok((_, e)) ==> i < e <= s.len(),
    decreases s.len() - i, 3int,
{
    lemma_value_ends_later(s, i, Host::Element);
    match value_from(s, i, Host::Element) {
        Err(_) => {},
        Ok((item, end)) => {
            lemma_blanks(s, end);
            match separator_at(s, end) {
                Ok((ArraySeparatorKind::EndElement, k)) => {
                    lemma_items_end_later(s, k, acc.push(item));
                },
                _ => {},
            }
        },
    }
}

/// What is left of an object from any of its parts on takes at least one
/// character.
pub proof fn lemma_object_ends_later(
    s: Seq<char>,
    i: int,
    status: MemberParserStatus,
    key: Seq<char>,
    acc: Seq<MemberModel>,
)
    requires
        0 <= i,
    ensures
        object_from(s, i, status, key, acc) matches Ok((_, e)) ==> i < e <= s.len(),
    decreases s.len() - i, status_rank(status),
{
    match status {
        MemberParserStatus::StartObject => {
            if i <= s.len() {
                lemma_blanks(s, i);
            }
            match start_object(s, i) {
                Err(_) => {},
                Ok((StartObjectKind::EmptyObject, k)) => {
                    lemma_object_ends_later(s, k, MemberParserStatus::EndMember, key, acc);
                },
                Ok((StartObjectKind::HasSomeMember, k)) => {
                    lemma_object_ends_later(s, k, MemberParserStatus::Key, key, acc);
                },
            }
        },
        MemberParserStatus::Key => {
            match key_at(s, i) {
                Err(_) => {},
                Ok((name, k)) => {
                    if k < s.len() {
                        lemma_string_ends_later(s, skip_blanks(s, i));
                        lemma_object_ends_later(s, k, MemberParserStatus::Coron, name, acc);
                    }
                },
            }
        },
        MemberParserStatus::Coron => {
            match colon_at(s, i) {
                Err(_) => {},
                Ok((_, k)) => {
                    if k < s.len() {
                        lemma_object_ends_later(s, k, MemberParserStatus::Value, key, acc);
                    }
                },
            }
        },
        MemberParserStatus::Value => {
            lemma_value_ends_later(s, i, Host::Member);
            match value_from(s, i, Host::Member) {
                Err(_) => {},
                Ok((value, end)) => {
                    if end < s.len() {
                        lemma_object_ends_later(
                            s,
                            end,
                            MemberParserStatus::EndMember,
                            Seq::empty(),
                            crate::value::insert_member(acc, key, value),
                        );
                    }
                },
            }
        },
        MemberParserStatus::EndMember => {
            match end_member_at(s, i) {
                Ok((EndMemberKind::EndMember, k)) => {
                    lemma_object_ends_later(s, k, MemberParserStatus::Key, key, acc);
                },
                _ => {},
            }
        },
    }
}

} // verus!
