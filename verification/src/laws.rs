//! What holds of the parser and the serializer together.
use crate::grammar::{document, Failure};
use crate::layout::{
    document_text, indent_unit, newline_text, JsonSerializerIndentKind, JsonSerializerNewLineKind,
};
use crate::roundtrip::{comes_back, theorem_round_trip};
use crate::roundtrip_tokens::has_at;
use crate::value::{member_value, MemberModel, ValueModel};
use vstd::prelude::*;

verus! {

/// Two objects hold the same pairs of key and value, in whatever order.
pub open spec fn same_pairs(a: Seq<MemberModel>, b: Seq<MemberModel>) -> bool {
    forall|key: Seq<char>| member_value(a, key) == member_value(b, key)
}

/// The document that is written for an object holds the pairs of key and
/// value of the object and no others: parsed, it gives for every key the
/// value that the object has for it.
pub proof fn theorem_pairs_survive(
    members: Seq<MemberModel>,
    newline_kind: JsonSerializerNewLineKind,
    indent_kind: JsonSerializerIndentKind,
)
    requires
        comes_back(ValueModel::Object(members)),
    ensures
        document(document_text(members, newline_text(newline_kind), indent_unit(indent_kind)))
            matches Ok(parsed) && same_pairs(parsed, members),
{
    theorem_round_trip(members, newline_kind, indent_kind);
}

/// Member-order independence: the documents of two objects that hold the
/// same pairs of key and value, in whatever order and style they are
/// written, parse to objects that hold the same pairs.
pub proof fn theorem_order_independence(
    a: Seq<MemberModel>,
    a_newline: JsonSerializerNewLineKind,
    a_indent: JsonSerializerIndentKind,
    b: Seq<MemberModel>,
    b_newline: JsonSerializerNewLineKind,
    b_indent: JsonSerializerIndentKind,
)
    requires
        comes_back(ValueModel::Object(a)),
        comes_back(ValueModel::Object(b)),
        same_pairs(a, b),
    ensures
        document(document_text(a, newline_text(a_newline), indent_unit(a_indent))) matches Ok(
            from_a,
        ) && document(document_text(b, newline_text(b_newline), indent_unit(b_indent)))
            matches Ok(from_b) && same_pairs(from_a, from_b),
{
    theorem_round_trip(a, a_newline, a_indent);
    theorem_round_trip(b, b_newline, b_indent);
}

/// An object without members is written as `{}` and a line end, in every
/// style.
pub proof fn theorem_empty_object_text(
    newline_kind: JsonSerializerNewLineKind,
    indent_kind: JsonSerializerIndentKind,
)
    ensures
        document_text(Seq::empty(), newline_text(newline_kind), indent_unit(indent_kind)) == seq![
            '{',
            '}',
        ] + newline_text(newline_kind),
{
}

/// The text `{}` parses to an object without members.
pub proof fn theorem_empty_object_parses()
    ensures
        document(seq!['{', '}']) == Ok::<Seq<MemberModel>, Failure>(Seq::empty()),
{
    let s = seq!['{', '}'];
    assert(s.subrange(0, 2) =~= s);
    assert(has_at(s, 0, s));
    crate::roundtrip::lemma_empty_document(s);
}

} // verus!
