//! The parser reads back what the serializer writes: the parts of the proof
//! that concern blanks, strings, numbers and words.
use crate::grammar::{
    all_digits, bool_at, digit_run, digits_value, escape_at, hex4_at, integer_of, is_blank,
    is_float_literal, is_terminator, literal_shape, null_at, number_at, number_scan, scan_start,
    skip_blanks, string_at, string_body, unicode_at, word_run, Failure, NumberScan,
};
use crate::layout::{bool_text, escaped_char, escaped_text, indent_text, null_text, quoted_text};
use crate::text::{
    digit_char, digit_value, hex_char, hex_value, int_text, is_digit, is_hex, lemma_concat_assoc,
    nat_text,
};
use crate::value::ValueModel;
use vstd::prelude::*;

verus! {

/// The text `r` stands in `s` at the cursor `i`.
pub open spec fn has_at(s: Seq<char>, i: int, r: Seq<char>) -> bool {
    &&& 0 <= i
    &&& i + r.len() <= s.len()
    &&& s.subrange(i, i + r.len()) == r
}

/// Every character is a blank.
pub open spec fn all_blank(b: Seq<char>) -> bool {
    forall|k: int| 0 <= k < b.len() ==> is_blank(#[trigger] b[k])
}

/// Every character of `s` from `i` up to `j` is a blank.
#[verifier::opaque]
pub open spec fn blank_range(s: Seq<char>, i: int, j: int) -> bool {
    forall|k: int| i <= k < j ==> is_blank(#[trigger] s[k])
}

/// A range without characters is a range of blanks.
pub proof fn lemma_blank_none(s: Seq<char>, i: int)
    ensures
        blank_range(s, i, i),
{
    reveal(blank_range);
}

/// One blank is a range of blanks.
pub proof fn lemma_blank_one(s: Seq<char>, i: int)
    requires
        is_blank(s[i]),
    ensures
        blank_range(s, i, i + 1),
{
    reveal(blank_range);
}

/// Two ranges of blanks, one after the other, are a range of blanks.
pub proof fn lemma_blank_join(s: Seq<char>, i: int, j: int, k: int)
    requires
        blank_range(s, i, j),
        blank_range(s, j, k),
    ensures
        blank_range(s, i, k),
{
    reveal(blank_range);
}

/// The end of a range of blanks is a range of blanks.
pub proof fn lemma_blank_rest(s: Seq<char>, i: int, p: int, j: int)
    requires
        blank_range(s, i, j),
        i <= p,
    ensures
        blank_range(s, p, j),
{
    reveal(blank_range);
}

/// A text that stands at a cursor is made of two texts that stand one after
/// the other.
pub proof fn lemma_has_at_split(s: Seq<char>, i: int, a: Seq<char>, b: Seq<char>)
    requires
        has_at(s, i, a + b),
    ensures
        has_at(s, i, a),
        has_at(s, i + a.len(), b),
{
    let whole = s.subrange(i, i + (a + b).len());
    assert(s.subrange(i, i + a.len()) =~= whole.subrange(0, a.len() as int));
    assert(whole.subrange(0, a.len() as int) =~= a);
    assert(s.subrange(i + a.len(), i + a.len() + b.len()) =~= whole.subrange(
        a.len() as int,
        (a + b).len() as int,
    ));
    assert(whole.subrange(a.len() as int, (a + b).len() as int) =~= b);
}

/// The characters of a text that stands at a cursor are those of `s`.
pub proof fn lemma_has_at_char(s: Seq<char>, i: int, r: Seq<char>, k: int)
    requires
        has_at(s, i, r),
        0 <= k < r.len(),
    ensures
        s[i + k] == r[k],
{
    assert(s.subrange(i, i + r.len())[k] == s[i + k]);
}

/// Blanks that stand at a cursor make a range of blanks.
pub proof fn lemma_has_at_blank(s: Seq<char>, i: int, b: Seq<char>)
    requires
        has_at(s, i, b),
        all_blank(b),
    ensures
        blank_range(s, i, i + b.len()),
{
    reveal(blank_range);
    assert forall|k: int| i <= k < i + b.len() implies is_blank(#[trigger] s[k]) by {
        lemma_has_at_char(s, i, b, k - i);
    }
}

/// The cursor after a range of blanks that no blank follows.
pub proof fn lemma_skip_range(s: Seq<char>, i: int, j: int)
    requires
        0 <= i <= j <= s.len(),
        blank_range(s, i, j),
        j < s.len() ==> !is_blank(s[j]),
    ensures
        skip_blanks(s, i) == j,
    decreases j - i,
{
    reveal(blank_range);
    if i < j {
        assert(is_blank(s[i]));
        lemma_skip_range(s, i + 1, j);
    }
}

/// An indentation of blanks is made of blanks.
pub proof fn lemma_indent_blank(unit: Seq<char>, level: nat)
    requires
        all_blank(unit),
    ensures
        all_blank(indent_text(unit, level)),
    decreases level,
{
    if level > 0 {
        lemma_indent_blank(unit, (level - 1) as nat);
    }
}

/// What is written for a string that begins with `c`.
pub proof fn lemma_escaped_text_front(c: char, t: Seq<char>)
    ensures
        escaped_text(seq![c] + t) == escaped_char(c) + escaped_text(t),
    decreases t.len(),
{
    if t.len() == 0 {
        assert(seq![c] + t =~= seq![c]);
        assert(seq![c].drop_last() =~= Seq::<char>::empty());
        assert(seq![c].last() == c);
        assert(escaped_text(Seq::<char>::empty()) =~= Seq::<char>::empty());
        assert(escaped_text(seq![c]) =~= escaped_char(c));
        assert(escaped_char(c) + escaped_text(t) =~= escaped_char(c));
    } else {
        lemma_escaped_text_front(c, t.drop_last());
        assert((seq![c] + t).drop_last() =~= seq![c] + t.drop_last());
        assert((seq![c] + t).last() == t.last());
        lemma_concat_assoc(escaped_char(c), escaped_text(t.drop_last()), escaped_char(t.last()));
    }
}

/// A hexadecimal digit is read back as the number it was written for.
pub proof fn lemma_hex_char(d: int)
    requires
        0 <= d < 16,
    ensures
        is_hex(hex_char(d)),
        hex_value(hex_char(d)) == d,
{
}

/// The parser reads what is written for one character of a string as that
/// character.
pub proof fn lemma_escaped_char_read(s: Seq<char>, j: int, c: char, acc: Seq<char>)
    requires
        has_at(s, j, escaped_char(c)),
    ensures
        string_body(s, j, acc) == string_body(s, j + escaped_char(c).len(), acc.push(c)),
{
    let e = escaped_char(c);
    lemma_has_at_char(s, j, e, 0);
    if e.len() >= 2 {
        lemma_has_at_char(s, j, e, 1);
    }
    if c == '"' || c == '\\' || c == '\r' || c == '\n' || c == '\t' || c == '\u{0008}' || c
        == '\u{000C}' {
        assert(escape_at(s, j) == Ok::<(char, int), Failure>((c, j + 2)));
    } else if (c as int) < 0x20 {
        lemma_has_at_char(s, j, e, 2);
        lemma_has_at_char(s, j, e, 3);
        lemma_has_at_char(s, j, e, 4);
        lemma_has_at_char(s, j, e, 5);
        lemma_hex_char(c as int / 16);
        lemma_hex_char(c as int % 16);
        lemma_hex_char(0);
        assert(hex_char(0) == '0');
        assert(hex4_at(s, j + 2) == Ok::<(int, int), Failure>((c as int, j + 6)));
        assert(unicode_at(s, j + 2) == Ok::<(char, int), Failure>((c, j + 6)));
        assert(escape_at(s, j) == Ok::<(char, int), Failure>((c, j + 6)));
    } else {
        assert(e =~= seq![c]);
    }
}

/// The parser reads the characters that are written for a string, and the
/// closing quote, as the string.
pub proof fn lemma_string_body_round(s: Seq<char>, j: int, t: Seq<char>, acc: Seq<char>)
    requires
        has_at(s, j, escaped_text(t) + seq!['"']),
    ensures
        string_body(s, j, acc) == Ok::<(Seq<char>, int), Failure>(
            (acc + t, j + escaped_text(t).len() + 1),
        ),
    decreases t.len(),
{
    if t.len() == 0 {
        lemma_has_at_char(s, j, escaped_text(t) + seq!['"'], 0);
        assert(acc + t =~= acc);
    } else {
        let c = t[0];
        let rest = t.skip(1);
        assert(t =~= seq![c] + rest);
        lemma_escaped_text_front(c, rest);
        lemma_concat_assoc(escaped_char(c), escaped_text(rest), seq!['"']);
        lemma_has_at_split(s, j, escaped_char(c), escaped_text(rest) + seq!['"']);
        lemma_escaped_char_read(s, j, c, acc);
        lemma_string_body_round(s, j + escaped_char(c).len(), rest, acc.push(c));
        assert(acc.push(c) + rest =~= acc + t);
    }
}

/// The parser reads a string that the serializer wrote as that string.
pub proof fn lemma_string_round(s: Seq<char>, i: int, t: Seq<char>)
    requires
        has_at(s, i, quoted_text(t)),
    ensures
        string_at(s, i) == Ok::<(Seq<char>, int), Failure>(
            (t, i + quoted_text(t).len()),
        ),
        quoted_text(t).len() >= 2,
        s[i] == '"',
{
    lemma_concat_assoc(seq!['"'], escaped_text(t), seq!['"']);
    lemma_has_at_split(s, i, seq!['"'], escaped_text(t) + seq!['"']);
    lemma_has_at_char(s, i, seq!['"'], 0);
    lemma_string_body_round(s, i + 1, t, Seq::empty());
    assert(Seq::<char>::empty() + t =~= t);
}

/// The decimal notation of a number is made of digits and denotes the
/// number.
pub proof fn lemma_nat_text(n: nat)
    ensures
        nat_text(n).len() >= 1,
        all_digits(nat_text(n)),
        digits_value(nat_text(n)) == n,
    decreases n,
{
    if n < 10 {
        assert(nat_text(n) =~= seq![digit_char(n as int)]);
        assert(nat_text(n).drop_last() =~= Seq::<char>::empty());
        assert(digits_value(Seq::<char>::empty()) == 0);
    } else {
        lemma_nat_text(n / 10);
        let head = nat_text(n / 10);
        let c = digit_char((n % 10) as int);
        assert(head.push(c).drop_last() =~= head);
        assert(head.push(c).last() == c);
        assert(is_digit(c));
        assert(digit_value(c) == n % 10);
        assert forall|k: int| 0 <= k < head.push(c).len() implies is_digit(
            #[trigger] head.push(c)[k],
        ) by {
            if k < head.len() {
                assert(head.push(c)[k] == head[k]);
            }
        }
    }
}

/// The scan of a number moves over digits.
pub proof fn lemma_scan_digits(s: Seq<char>, i: int, j: int, seen: NumberScan)
    requires
        0 <= i < j <= s.len(),
        forall|k: int| i <= k < j ==> is_digit(#[trigger] s[k]),
    ensures
        number_scan(s, i, seen) == number_scan(
            s,
            j,
            NumberScan { digit: true, sign_allowed: false, ..seen },
        ),
    decreases j - i,
{
    let next = NumberScan { digit: true, sign_allowed: false, ..seen };
    assert(is_digit(s[i]));
    assert(number_scan(s, i, seen) == number_scan(s, i + 1, next));
    if i + 1 < j {
        lemma_scan_digits(s, i + 1, j, next);
    }
}

/// The parser reads an integer that the serializer wrote as that integer.
pub proof fn lemma_int_round(s: Seq<char>, i: int, n: i64)
    requires
        has_at(s, i, int_text(n as int)),
        i + int_text(n as int).len() < s.len(),
        is_terminator(s[i + int_text(n as int).len()]),
    ensures
        number_at(s, i) == Ok::<(ValueModel, int), Failure>(
            (ValueModel::Int(n), i + int_text(n as int).len()),
        ),
        int_text(n as int).len() >= 1,
        s[i] == '-' || is_digit(s[i]),
{
    let t = int_text(n as int);
    let e = i + t.len();
    let m: nat = if n < 0 {
        (-n) as nat
    } else {
        n as nat
    };
    lemma_nat_text(m);
    let a: int = if n < 0 {
        1
    } else {
        0
    };
    assert(t.len() == a + nat_text(m).len());
    assert forall|k: int| i + a <= k < e implies is_digit(#[trigger] s[k]) by {
        lemma_has_at_char(s, i, t, k - i);
        assert(t[k - i] == nat_text(m)[k - i - a]);
    }
    let after_sign = NumberScan { sign_allowed: false, ..scan_start() };
    let seen = NumberScan { digit: true, sign_allowed: false, ..scan_start() };
    lemma_has_at_char(s, i, t, 0);
    if n < 0 {
        assert(s[i] == '-');
        assert(number_scan(s, i, scan_start()) == number_scan(s, i + 1, after_sign));
        lemma_scan_digits(s, i + 1, e, after_sign);
        assert(t.skip(1) =~= nat_text(m));
    } else {
        lemma_scan_digits(s, i, e, scan_start());
        assert(t[0] == nat_text(m)[0]);
        assert(is_digit(t[0]));
    }
    assert(number_scan(s, e, seen) == Ok::<(NumberScan, int), Failure>((seen, e)));
    assert(s.subrange(i, e) == t);
    assert(integer_of(t) == Some(n as int));
}

/// The digits that begin at a cursor are digits, end inside the text, and
/// no digit follows them.
pub proof fn lemma_digit_run(t: Seq<char>, i: int)
    requires
        0 <= i <= t.len(),
    ensures
        i + digit_run(t, i) <= t.len(),
        forall|k: int| i <= k < i + digit_run(t, i) ==> is_digit(#[trigger] t[k]),
        i + digit_run(t, i) < t.len() ==> !is_digit(t[i + digit_run(t, i)]),
    decreases t.len() - i,
{
    if i < t.len() && is_digit(t[i]) {
        lemma_digit_run(t, i + 1);
    }
}

/// The scan of a number moves over the digits of a literal that stands in
/// the text.
pub proof fn lemma_scan_run(s: Seq<char>, i: int, t: Seq<char>, a: int, seen: NumberScan)
    requires
        has_at(s, i, t),
        0 <= a <= t.len(),
        digit_run(t, a) > 0,
    ensures
        number_scan(s, i + a, seen) == number_scan(
            s,
            i + a + digit_run(t, a),
            NumberScan { digit: true, sign_allowed: false, ..seen },
        ),
        a + digit_run(t, a) <= t.len(),
{
    lemma_digit_run(t, a);
    let b = a + digit_run(t, a);
    assert forall|k: int| i + a <= k < i + b implies is_digit(#[trigger] s[k]) by {
        lemma_has_at_char(s, i, t, k - i);
    }
    lemma_scan_digits(s, i + a, i + b, seen);
}

/// The parser reads a literal with a fraction or an exponent as the `Float`
/// with that literal.
pub proof fn lemma_float_round(s: Seq<char>, i: int, t: Seq<char>)
    requires
        is_float_literal(t),
        has_at(s, i, t),
        i + t.len() < s.len(),
        is_terminator(s[i + t.len()]),
    ensures
        number_at(s, i) == Ok::<(ValueModel, int), Failure>(
            (ValueModel::Float(t), i + t.len()),
        ),
        t.len() >= 1,
        s[i] == '-' || is_digit(s[i]),
{
    let shape = literal_shape(t);
    let e = i + t.len();
    let a = shape.sign_end;
    let b = shape.integer_end;
    let c = shape.fraction_end;
    let d0 = shape.exponent_start;
    let d = shape.exponent_end;
    lemma_digit_run(t, a);
    lemma_has_at_char(s, i, t, 0);
    // the sign
    let s0 = scan_start();
    let s1 = if a == 1 {
        NumberScan { sign_allowed: false, ..s0 }
    } else {
        s0
    };
    assert(number_scan(s, i, s0) == number_scan(s, i + a, s1));
    // the integer part
    lemma_scan_run(s, i, t, a, s1);
    let s2 = NumberScan { digit: true, sign_allowed: false, ..s1 };
    assert(number_scan(s, i + a, s1) == number_scan(s, i + b, s2));
    assert(is_digit(t[a]));
    lemma_has_at_char(s, i, t, a);
    // the fraction
    let s3 = if shape.has_fraction {
        NumberScan { point: true, ..s2 }
    } else {
        s2
    };
    if shape.has_fraction {
        lemma_has_at_char(s, i, t, b);
        assert(s[i + b] == '.');
        assert(number_scan(s, i + b, s2) == number_scan(s, i + b + 1, s3));
        lemma_scan_run(s, i, t, b + 1, s3);
    }
    assert(number_scan(s, i + b, s2) == number_scan(s, i + c, s3));
    // the exponent
    let s4 = if shape.has_exponent {
        NumberScan { exponent: true, sign_allowed: false, ..s3 }
    } else {
        s3
    };
    if shape.has_exponent {
        lemma_has_at_char(s, i, t, c);
        let marked = NumberScan { exponent: true, sign_allowed: true, ..s3 };
        assert(number_scan(s, i + c, s3) == number_scan(s, i + c + 1, marked));
        let signed = NumberScan { sign_allowed: false, ..marked };
        if d0 == c + 2 {
            lemma_has_at_char(s, i, t, c + 1);
            assert(number_scan(s, i + c + 1, marked) == number_scan(s, i + c + 2, signed));
            lemma_scan_run(s, i, t, d0, signed);
        } else {
            lemma_scan_run(s, i, t, d0, marked);
        }
    }
    assert(number_scan(s, i + c, s3) == number_scan(s, i + d, s4));
    assert(d == t.len());
    assert(number_scan(s, e, s4) == Ok::<(NumberScan, int), Failure>((s4, e)));
    assert(s4.point || s4.exponent);
    assert(s.subrange(i, e) == t);
}

/// The parser reads `true` and `false` as the truth values.
pub proof fn lemma_bool_round(s: Seq<char>, i: int, b: bool)
    requires
        has_at(s, i, bool_text(b)),
        i + bool_text(b).len() < s.len(),
        is_terminator(s[i + bool_text(b).len()]),
    ensures
        bool_at(s, i) == Ok::<(bool, int), Failure>((b, i + bool_text(b).len())),
        s[i] == 't' || s[i] == 'f',
{
    let t = bool_text(b);
    lemma_has_at_char(s, i, t, 0);
    lemma_has_at_char(s, i, t, 1);
    lemma_has_at_char(s, i, t, 2);
    lemma_has_at_char(s, i, t, 3);
    if !b {
        lemma_has_at_char(s, i, t, 4);
    }
    reveal_with_fuel(word_run, 6);
    assert(word_run(s, i) == t.len());
    assert(s.subrange(i, i + t.len()) == t);
}

/// The parser reads `null`.
pub proof fn lemma_null_round(s: Seq<char>, i: int)
    requires
        has_at(s, i, null_text()),
        i + 4 < s.len(),
        is_terminator(s[i + 4]),
    ensures
        null_at(s, i) == Ok::<((), int), Failure>(((), i + 4)),
        s[i] == 'n',
{
    let t = null_text();
    lemma_has_at_char(s, i, t, 0);
    lemma_has_at_char(s, i, t, 1);
    lemma_has_at_char(s, i, t, 2);
    lemma_has_at_char(s, i, t, 3);
    reveal_with_fuel(word_run, 5);
    assert(word_run(s, i) == 4);
    assert(s.subrange(i, i + 4) == t);
}

} // verus!
