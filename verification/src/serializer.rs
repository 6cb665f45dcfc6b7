//! The serializer: writes a value tree as indented text.
use crate::error::{JsonError, JsonErrorKind, Result};
use crate::grammar::StartObjectKind;
use crate::layout::{
    bad_float, bad_float_in_items, bad_float_in_members, bool_text, document_text, escaped_char,
    escaped_text, float_detail, indent_text, indent_unit, item_text, items_text, member_text,
    lemma_bad_float_in_items_found, lemma_bad_float_in_members_found, members_text, newline_text,
    null_text, object_text, quoted_text, serialize_detail, value_text, JsonSerializerIndentKind,
    JsonSerializerNewLineKind,
};
use crate::number::is_decimal_literal_text;
use crate::text::{
    append_chars, append_int, append_str, chars_of, hex_to_char, lemma_concat_assoc,
    lemma_concat_empty, string_of,
};
use crate::value::{values_view, JsonKey, JsonObject, JsonValue, NumberType};
use vstd::prelude::*;
use vstd::string::StringExecFns;

verus! {

/// The error of a failed serialization: its detail is what went wrong and
/// the text that could not be written.
pub fn serialize_error(kind: JsonErrorKind, detail_str: &str, status_str: &str) -> (err: JsonError)
    ensures
        err.err_kind == kind,
        err.detail() == Some(serialize_detail(detail_str@, status_str@)),
{
    let mut text = String::from_str(detail_str);
    text.append(" | ");
    text.append(status_str);
    JsonError::new(kind, Some(text))
}

/// The error `err` reports that a `Float` with the given literal cannot be
/// written.
pub open spec fn reports_float(err: JsonError, literal: Seq<char>) -> bool {
    &&& err.err_kind == JsonErrorKind::SerializeErrorInNumber
    &&& err.detail() == Some(float_detail(literal))
}

/// What is written for a string with one more character at its end.
pub proof fn lemma_escaped_text_push(t: Seq<char>, c: char)
    ensures
        escaped_text(t.push(c)) == escaped_text(t) + escaped_char(c),
{
    assert(t.push(c).drop_last() =~= t);
}

/// Appends what is written for one character of a string.
pub fn append_escaped(content: &mut Vec<char>, c: char)
    ensures
        final(content)@ == old(content)@ + escaped_char(c),
{
    if c == '"' {
        content.push('\\');
        content.push('"');
    } else if c == '\\' {
        content.push('\\');
        content.push('\\');
    } else if c == '\r' {
        content.push('\\');
        content.push('r');
    } else if c == '\n' {
        content.push('\\');
        content.push('n');
    } else if c == '\t' {
        content.push('\\');
        content.push('t');
    } else if c == '\u{0008}' {
        content.push('\\');
        content.push('b');
    } else if c == '\u{000C}' {
        content.push('\\');
        content.push('f');
    } else if (c as u32) < 0x20 {
        let code = c as u32;
        content.push('\\');
        content.push('u');
        content.push('0');
        content.push('0');
        content.push(hex_to_char((code / 16) as u8));
        content.push(hex_to_char((code % 16) as u8));
    } else {
        content.push(c);
    }
    assert(content@ =~= old(content)@ + escaped_char(c));
}

/// The serializer: the style, and the level of indentation at which it
/// stands.
#[derive(Debug, Clone)]
pub struct JsonSerializer {
    newline_str: &'static str,
    indent_string: String,
    indent_level: usize,
}

impl JsonSerializer {
    /// The line end.
    spec fn nl(&self) -> Seq<char> {
        self.newline_str@
    }

    /// The indentation of one level.
    spec fn unit(&self) -> Seq<char> {
        self.indent_string@
    }

    /// The level of indentation at which the serializer stands.
    spec fn level(&self) -> nat {
        self.indent_level as nat
    }

    /// The serializer is as `before`.
    spec fn same(&self, before: JsonSerializer) -> bool {
        &&& self.nl() == before.nl()
        &&& self.unit() == before.unit()
        &&& self.indent_level == before.indent_level
    }

    /// Writes an object as a document, in the given style: the text of the
    /// object and a line end. Fails, and writes nothing, where a `Float` of
    /// the object holds no decimal literal.
    pub fn serialize(
        json_object: &JsonObject,
        newline_kind: JsonSerializerNewLineKind,
        indent_kind: JsonSerializerIndentKind,
    ) -> (r: Result<String>)
        ensures
            match bad_float_in_members(json_object@, json_object@.len()) {
                None => r is Ok && r->Ok_0@ == document_text(
                    json_object@,
                    newline_text(newline_kind),
                    indent_unit(indent_kind),
                ),
                Some(literal) => r is Err && reports_float(r->Err_0, literal),
            },
    {
        let mut json_serializer: JsonSerializer = JsonSerializer::new(newline_kind, indent_kind);
        let mut content: Vec<char> = Vec::new();
        match json_serializer.object_serializer(json_object, &mut content) {
            Ok(_) => {},
            Err(err) => {
                return Err(err);
            },
        }
        append_str(&mut content, json_serializer.newline_str);
        Ok(string_of(&content))
    }

    /// A serializer of a style, at level 0.
    fn new(newline_kind: JsonSerializerNewLineKind, indent_kind: JsonSerializerIndentKind) -> (serializer:
        JsonSerializer)
        ensures
            serializer.nl() == newline_text(newline_kind),
            serializer.unit() == indent_unit(indent_kind),
            serializer.level() == 0,
    {
        let newline_str: &'static str = match newline_kind {
            JsonSerializerNewLineKind::CrLf => {
                proof {
                    reveal_strlit("\r\n");
                }
                assert("\r\n"@ =~= newline_text(newline_kind));
                "\r\n"
            },
            JsonSerializerNewLineKind::Lf => {
                proof {
                    reveal_strlit("\n");
                }
                assert("\n"@ =~= newline_text(newline_kind));
                "\n"
            },
        };
        let indent_string = match indent_kind {
            JsonSerializerIndentKind::Tab => {
                let mut tmp_string = String::new();
                tmp_string.push('\t');
                assert(tmp_string@ =~= indent_unit(indent_kind));
                tmp_string
            },
            JsonSerializerIndentKind::Space(length) => {
                let mut tmp_string = String::new();
                let mut n: usize = 0;
                while n < length
                    invariant
                        n <= length,
                        tmp_string@ == Seq::new(n as nat, |i: int| ' '),
                    decreases length - n,
                {
                    tmp_string.push(' ');
                    n += 1;
                    assert(tmp_string@ =~= Seq::new(n as nat, |i: int| ' '));
                }
                tmp_string
            },
        };
        JsonSerializer { newline_str, indent_string, indent_level: 0 }
    }

    /// The indentation of the level at which the serializer stands.
    fn make_indent_string(&self) -> (indent: String)
        ensures
            indent@ == indent_text(self.unit(), self.level()),
    {
        let mut indent_string = String::new();
        let mut n: usize = 0;
        while n < self.indent_level
            invariant
                n <= self.indent_level,
                indent_string@ == indent_text(self.unit(), n as nat),
            decreases self.indent_level - n,
        {
            indent_string.append(self.indent_string.as_str());
            n += 1;
        }
        indent_string
    }

    /// Writes an object whose brace stands at the level of the serializer.
    fn object_serializer(&mut self, json_object: &JsonObject, content: &mut Vec<char>) -> (r: Result<
        (),
    >)
        requires
            old(self).level() <= old(content)@.len(),
        ensures
            match bad_float_in_members(json_object@, json_object@.len()) {
                None => r is Ok && final(self).same(*old(self)) && final(content)@ == old(content)@
                    + object_text(json_object@, old(self).nl(), old(self).unit(), old(self).level()),
                Some(literal) => r is Err && reports_float(r->Err_0, literal),
            },
        decreases json_object@, 1nat,
    {
        match self.start_object_serializer(json_object, content) {
            Ok(StartObjectKind::EmptyObject) => {
                return Ok(());
            },
            Ok(StartObjectKind::HasSomeMember) => {},
            Err(err) => {
                return Err(err);
            },
        }
        let ghost start = content@;
        let count = json_object.members.len();
        let mut member_count: usize = 0;
        while member_count < count
            invariant
                member_count <= count,
                count == json_object@.len(),
                self.nl() == old(self).nl(),
                self.unit() == old(self).unit(),
                self.level() == old(self).level() + 1,
                self.level() <= content@.len(),
                bad_float_in_members(json_object@, member_count as nat) is None,
                content@ == start + members_text(
                    json_object@,
                    member_count as nat,
                    old(self).nl(),
                    old(self).unit(),
                    old(self).level(),
                ),
            decreases count - member_count,
        {
            proof {
                if bad_float(json_object@[member_count as int].value) is Some {
                    lemma_bad_float_in_members_found(
                        json_object@,
                        member_count as nat,
                        count as nat,
                    );
                }
            }
            let ghost before = content@;
            match self.member_serializer(json_object, member_count, content) {
                Ok(_) => {},
                Err(err) => {
                    return Err(err);
                },
            }
            assert(content@ == start + members_text(
                json_object@,
                (member_count + 1) as nat,
                old(self).nl(),
                old(self).unit(),
                old(self).level(),
            )) by {
                let piece = member_text(
                    json_object@,
                    member_count as int,
                    old(self).nl(),
                    old(self).unit(),
                    old(self).level(),
                );
                let sofar = members_text(
                    json_object@,
                    member_count as nat,
                    old(self).nl(),
                    old(self).unit(),
                    old(self).level(),
                );
                assert(content@ == before + piece);
                assert((start + sofar) + piece =~= start + (sofar + piece));
            }
            member_count += 1;
        }
        match self.end_object_serializer(content) {
            Ok(_) => {},
            Err(err) => {
                return Err(err);
            },
        }
        assert(content@ =~= old(content)@ + object_text(
            json_object@,
            old(self).nl(),
            old(self).unit(),
            old(self).level(),
        ));
        Ok(())
    }

    /// Writes the member `idx` of an object; the serializer stands at the
    /// level of the members.
    fn member_serializer(&mut self, json_object: &JsonObject, idx: usize, content: &mut Vec<char>) -> (r:
        Result<()>)
        requires
            idx < json_object@.len(),
            1 <= old(self).level() <= old(content)@.len(),
        ensures
            match bad_float(json_object@[idx as int].value) {
                None => r is Ok && final(self).same(*old(self)) && final(content)@ == old(content)@
                    + member_text(
                    json_object@,
                    idx as int,
                    old(self).nl(),
                    old(self).unit(),
                    (old(self).level() - 1) as nat,
                ),
                Some(literal) => r is Err && reports_float(r->Err_0, literal),
            },
        decreases json_object@, 0nat,
    {
        let member = json_object.members.entry(idx);
        let count = json_object.members.len();
        proof {
            assert(member.value@ == json_object@[idx as int].value);
            assert(decreases_to!(json_object@ => json_object@[idx as int].value));
        }
        let ghost c0 = content@;
        match self.key_serializer(&member.key, content) {
            Ok(_) => {},
            Err(err) => {
                return Err(err);
            },
        }
        let ghost c1 = content@;
        match self.coron_serializer(content) {
            Ok(_) => {},
            Err(err) => {
                return Err(err);
            },
        }
        let ghost c2 = content@;
        match self.value_serializer(&member.value, content) {
            Ok(_) => {},
            Err(err) => {
                return Err(err);
            },
        }
        let ghost c3 = content@;
        if idx < count - 1 {
            match self.end_member_serializer(content) {
                Ok(_) => {},
                Err(err) => {
                    return Err(err);
                },
            }
        }
        proof {
            let tail = if idx == count - 1 {
                Seq::<char>::empty()
            } else {
                seq![','] + self.nl()
            };
            let indent = indent_text(self.unit(), self.level());
            let key = quoted_text(member.key@);
            let colon = seq![' ', ':', ' '];
            let value = value_text(member.value@, self.nl(), self.unit(), self.level());
            if idx == count - 1 {
                lemma_concat_empty(c3);
            } else {
                lemma_concat_assoc(c3, seq![','], self.nl());
            }
            assert(content@ == c3 + tail);
            assert(c1 == c0 + indent + key);
            assert(c2 == c1 + colon);
            assert(c3 == c2 + value);
            lemma_concat_assoc(c0, indent, key);
            lemma_concat_assoc(c0, indent + key, colon);
            lemma_concat_assoc(c0, indent + key + colon, value);
            lemma_concat_assoc(c0, indent + key + colon + value, tail);
        }
        Ok(())
    }

    /// Writes the element `idx` of an array.
    fn item_serializer(&mut self, json_array: &Vec<JsonValue>, idx: usize, content: &mut Vec<char>) -> (r:
        Result<()>)
        requires
            idx < json_array@.len(),
            old(self).level() <= old(content)@.len(),
        ensures
            match bad_float(values_view(json_array@)[idx as int]) {
                None => r is Ok && final(self).same(*old(self)) && final(content)@ == old(content)@
                    + item_text(
                    values_view(json_array@),
                    idx as int,
                    old(self).nl(),
                    old(self).unit(),
                    old(self).level(),
                ),
                Some(literal) => r is Err && reports_float(r->Err_0, literal),
            },
        decreases values_view(json_array@), 0nat,
    {
        let ghost items = values_view(json_array@);
        let count = json_array.len();
        let json_value = &json_array[idx];
        proof {
            assert(json_value@ == items[idx as int]);
            assert(decreases_to!(items => items[idx as int]));
        }
        let ghost c0 = content@;
        content.push(' ');
        let ghost c1 = content@;
        assert(c1 =~= c0 + seq![' ']);
        let ghost body: Seq<char>;
        match json_value {
            JsonValue::ValueObject(json_object) => {
                assert(decreases_to!(items[idx as int] => json_object@));
                append_str(content, self.newline_str);
                assert(content.len() == content@.len());
                self.indent_level += 1;
                let indent = self.make_indent_string();
                append_str(content, indent.as_str());
                let ghost c2 = content@;
                match self.object_serializer(json_object, content) {
                    Ok(_) => {},
                    Err(err) => {
                        return Err(err);
                    },
                }
                let ghost c3 = content@;
                self.indent_level -= 1;
                if idx == count - 1 {
                    append_str(content, self.newline_str);
                    let indent = self.make_indent_string();
                    append_str(content, indent.as_str());
                }
                proof {
                    let deeper = indent_text(self.unit(), self.level() + 1);
                    let object = object_text(json_object@, self.nl(), self.unit(), self.level() + 1);
                    let closing = if idx == count - 1 {
                        self.nl() + indent_text(self.unit(), self.level())
                    } else {
                        Seq::<char>::empty()
                    };
                    if idx == count - 1 {
                        lemma_concat_assoc(c3, self.nl(), indent_text(self.unit(), self.level()));
                    } else {
                        lemma_concat_empty(c3);
                    }
                    assert(content@ == c3 + closing);
                    assert(c2 == c1 + self.nl() + deeper);
                    assert(c3 == c2 + object);
                    body = self.nl() + deeper + object + closing;
                    lemma_concat_assoc(c1, self.nl(), deeper);
                    lemma_concat_assoc(c1, self.nl() + deeper, object);
                    lemma_concat_assoc(c1, self.nl() + deeper + object, closing);
                    assert(content@ == c1 + body);
                }
            },
            _ => {
                match self.value_serializer(json_value, content) {
                    Ok(_) => {},
                    Err(err) => {
                        return Err(err);
                    },
                }
                proof {
                    body = value_text(json_value@, self.nl(), self.unit(), self.level());
                }
            },
        }
        let ghost c4 = content@;
        if idx < count - 1 {
            content.push(',');
        }
        proof {
            let tail = if idx == count - 1 {
                Seq::<char>::empty()
            } else {
                seq![',']
            };
            let space = seq![' '];
            assert(c1 == c0 + space);
            assert(c4 == c1 + body);
            if idx == count - 1 {
                lemma_concat_empty(c4);
            }
            assert(content@ == c4 + tail);
            lemma_concat_assoc(c0, space, body);
            lemma_concat_assoc(c0, space + body, tail);
            assert(content@ == c0 + (space + body + tail));
        }
        Ok(())
    }

    /// Writes `{}` for an object without members; else `{` and a line end,
    /// and moves one level deeper.
    fn start_object_serializer(&mut self, json_object: &JsonObject, content: &mut Vec<char>) -> (r:
        Result<StartObjectKind>)
        requires
            old(self).level() <= old(content)@.len(),
        ensures
            final(self).nl() == old(self).nl(),
            final(self).unit() == old(self).unit(),
            json_object@.len() == 0 ==> r == Ok::<StartObjectKind, JsonError>(
                StartObjectKind::EmptyObject,
            ) && final(self).level() == old(self).level() && final(content)@ == old(content)@
                + seq!['{', '}'],
            json_object@.len() != 0 ==> r == Ok::<StartObjectKind, JsonError>(
                StartObjectKind::HasSomeMember,
            ) && final(self).level() == old(self).level() + 1 && final(content)@ == old(content)@
                + seq!['{'] + old(self).nl(),
            final(self).level() <= final(content)@.len(),
    {
        if json_object.members.len() == 0 {
            content.push('{');
            content.push('}');
            assert(content@ =~= old(content)@ + seq!['{', '}']);
            Ok(StartObjectKind::EmptyObject)
        } else {
            content.push('{');
            append_str(content, self.newline_str);
            assert(content.len() == content@.len());
            self.indent_level += 1;
            assert(content@ =~= old(content)@ + seq!['{'] + old(self).nl());
            Ok(StartObjectKind::HasSomeMember)
        }
    }

    /// Writes the indentation and the key of a member.
    fn key_serializer(&self, json_key: &JsonKey, content: &mut Vec<char>) -> (r: Result<()>)
        ensures
            r is Ok,
            final(content)@ == old(content)@ + indent_text(self.unit(), self.level()) + quoted_text(
                json_key@,
            ),
    {
        let indent = self.make_indent_string();
        append_str(content, indent.as_str());
        self.string_serializer(json_key.0.as_str(), content)
    }

    /// Writes the colon between blanks.
    fn coron_serializer(&self, content: &mut Vec<char>) -> (r: Result<()>)
        ensures
            r is Ok,
            final(content)@ == old(content)@ + seq![' ', ':', ' '],
    {
        content.push(' ');
        content.push(':');
        content.push(' ');
        assert(content@ =~= old(content)@ + seq![' ', ':', ' ']);
        Ok(())
    }

    /// Writes a value.
    fn value_serializer(&mut self, json_value: &JsonValue, content: &mut Vec<char>) -> (r: Result<()>)
        requires
            old(self).level() <= old(content)@.len(),
        ensures
            match bad_float(json_value@) {
                None => r is Ok && final(self).same(*old(self)) && final(content)@ == old(content)@
                    + value_text(json_value@, old(self).nl(), old(self).unit(), old(self).level()),
                Some(literal) => r is Err && reports_float(r->Err_0, literal),
            },
        decreases json_value@, 2nat,
    {
        match json_value {
            JsonValue::ValueString(json_string) => self.string_serializer(
                json_string.as_str(),
                content,
            ),
            JsonValue::ValueNumber(json_number) => self.number_serializer(json_number, content),
            JsonValue::ValueBool(json_bool) => self.bool_serializer(json_bool, content),
            JsonValue::ValueNull => self.null_serializer(content),
            JsonValue::ValueArray(json_array) => self.array_serializer(json_array, content),
            JsonValue::ValueObject(json_object) => self.object_serializer(json_object, content),
        }
    }

    /// Writes the comma and the line end between two members.
    fn end_member_serializer(&self, content: &mut Vec<char>) -> (r: Result<()>)
        ensures
            r is Ok,
            final(content)@ == old(content)@ + seq![','] + self.nl(),
    {
        content.push(',');
        append_str(content, self.newline_str);
        assert(content@ =~= old(content)@ + seq![','] + self.nl());
        Ok(())
    }

    /// Moves one level up and writes a line end, the indentation and `}`.
    fn end_object_serializer(&mut self, content: &mut Vec<char>) -> (r: Result<()>)
        requires
            old(self).level() > 0,
        ensures
            r is Ok,
            final(self).nl() == old(self).nl(),
            final(self).unit() == old(self).unit(),
            final(self).level() == old(self).level() - 1,
            final(content)@ == old(content)@ + old(self).nl() + indent_text(
                old(self).unit(),
                (old(self).level() - 1) as nat,
            ) + seq!['}'],
    {
        self.indent_level -= 1;
        append_str(content, self.newline_str);
        let indent = self.make_indent_string();
        append_str(content, indent.as_str());
        content.push('}');
        Ok(())
    }

    /// Writes a string between quotes, with the escapes it needs.
    fn string_serializer(&self, json_string_str: &str, content: &mut Vec<char>) -> (r: Result<()>)
        ensures
            r is Ok,
            final(content)@ == old(content)@ + quoted_text(json_string_str@),
    {
        content.push('"');
        let ghost start = content@;
        let ghost done: Seq<char> = Seq::empty();
        for unicode_char in it: json_string_str.chars()
            invariant
                done == it.seq().take(it.index() as int),
                content@ == start + escaped_text(done),
        {
            proof {
                lemma_escaped_text_push(done, unicode_char);
                assert(it.seq().take(it.index() + 1) =~= done.push(unicode_char));
                done = done.push(unicode_char);
            }
            append_escaped(content, unicode_char);
        }
        assert(done =~= json_string_str@);
        content.push('"');
        assert(content@ =~= old(content)@ + quoted_text(json_string_str@));
        Ok(())
    }

    /// Writes a number: an `Int` in decimal notation, a `Float` as its
    /// literal. Fails where the literal is no decimal literal.
    fn number_serializer(&self, json_number: &NumberType, content: &mut Vec<char>) -> (r: Result<()>)
        ensures
            match bad_float(json_number@) {
                None => r is Ok && final(content)@ == old(content)@ + value_text(
                    json_number@,
                    self.nl(),
                    self.unit(),
                    self.level(),
                ),
                Some(literal) => r is Err && reports_float(r->Err_0, literal),
            },
    {
        match json_number {
            NumberType::Int(int_number) => {
                append_int(content, *int_number);
            },
            NumberType::Float(float_number) => {
                let literal = chars_of(float_number.as_str());
                if !is_decimal_literal_text(&literal) {
                    return Err(
                        serialize_error(
                            JsonErrorKind::SerializeErrorInNumber,
                            "Number:  Number is NaN or Infinite.",
                            float_number.as_str(),
                        ),
                    );
                }
                append_chars(content, &literal);
            },
        }
        Ok(())
    }

    /// Writes `true` or `false`.
    fn bool_serializer(&self, json_bool: &bool, content: &mut Vec<char>) -> (r: Result<()>)
        ensures
            r is Ok,
            final(content)@ == old(content)@ + bool_text(*json_bool),
    {
        if *json_bool {
            content.push('t');
            content.push('r');
            content.push('u');
            content.push('e');
        } else {
            content.push('f');
            content.push('a');
            content.push('l');
            content.push('s');
            content.push('e');
        }
        assert(content@ =~= old(content)@ + bool_text(*json_bool));
        Ok(())
    }

    /// Writes `null`.
    fn null_serializer(&self, content: &mut Vec<char>) -> (r: Result<()>)
        ensures
            r is Ok,
            final(content)@ == old(content)@ + null_text(),
    {
        content.push('n');
        content.push('u');
        content.push('l');
        content.push('l');
        assert(content@ =~= old(content)@ + null_text());
        Ok(())
    }

    /// Writes an array: its elements between `[` and `]`.
    fn array_serializer(&mut self, json_array: &Vec<JsonValue>, content: &mut Vec<char>) -> (r: Result<
        (),
    >)
        requires
            old(self).level() <= old(content)@.len(),
        ensures
            match bad_float_in_items(values_view(json_array@), json_array@.len()) {
                None => r is Ok && final(self).same(*old(self)) && final(content)@ == old(content)@
                    + seq!['['] + items_text(
                    values_view(json_array@),
                    json_array@.len(),
                    old(self).nl(),
                    old(self).unit(),
                    old(self).level(),
                ) + seq![']'],
                Some(literal) => r is Err && reports_float(r->Err_0, literal),
            },
        decreases values_view(json_array@), 1nat,
    {
        content.push('[');
        let ghost start = content@;
        let ghost items = values_view(json_array@);
        let count = json_array.len();
        let mut idx: usize = 0;
        while idx < count
            invariant
                idx <= count,
                count == json_array@.len(),
                items == values_view(json_array@),
                self.same(*old(self)),
                self.level() <= content@.len(),
                bad_float_in_items(items, idx as nat) is None,
                content@ == start + items_text(
                    items,
                    idx as nat,
                    old(self).nl(),
                    old(self).unit(),
                    old(self).level(),
                ),
            decreases count - idx,
        {
            proof {
                if bad_float(items[idx as int]) is Some {
                    lemma_bad_float_in_items_found(items, idx as nat, count as nat);
                }
            }
            let ghost before = content@;
            match self.item_serializer(json_array, idx, content) {
                Ok(_) => {},
                Err(err) => {
                    return Err(err);
                },
            }
            assert(content@ == start + items_text(
                items,
                (idx + 1) as nat,
                old(self).nl(),
                old(self).unit(),
                old(self).level(),
            )) by {
                let piece = item_text(
                    items,
                    idx as int,
                    old(self).nl(),
                    old(self).unit(),
                    old(self).level(),
                );
                let sofar = items_text(
                    items,
                    idx as nat,
                    old(self).nl(),
                    old(self).unit(),
                    old(self).level(),
                );
                assert(content@ == before + piece);
                assert((start + sofar) + piece =~= start + (sofar + piece));
            }
            idx += 1;
        }
        content.push(']');
        Ok(())
    }
}

impl JsonObject {
    /// Writes the object as a document, in the given style: the text of the
    /// object and a line end. Fails, and writes nothing, where a `Float` of
    /// the object holds no decimal literal.
    pub fn serialize(
        &self,
        newline_kind: JsonSerializerNewLineKind,
        indent_kind: JsonSerializerIndentKind,
    ) -> (r: Result<String>)
        ensures
            match bad_float_in_members(self@, self@.len()) {
                None => r is Ok && r->Ok_0@ == document_text(
                    self@,
                    newline_text(newline_kind),
                    indent_unit(indent_kind),
                ),
                Some(literal) => r is Err && reports_float(r->Err_0, literal),
            },
    {
        JsonSerializer::serialize(self, newline_kind, indent_kind)
    }
}

} // verus!
