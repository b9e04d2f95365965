//! The JSON writer: the canonical text of a document — no whitespace,
//! object fields in construction order, strings escaped minimally —
//! and the verified functions that produce exactly that text.

use vstd::prelude::*;
use crate::json::{JsonValue, JVal};
use crate::strutil::chars_to_string;

verus! {

/// The character of one decimal digit.
pub open spec fn digit_char(d: nat) -> char {
    if d == 0 { '0' }
    else if d == 1 { '1' }
    else if d == 2 { '2' }
    else if d == 3 { '3' }
    else if d == 4 { '4' }
    else if d == 5 { '5' }
    else if d == 6 { '6' }
    else if d == 7 { '7' }
    else if d == 8 { '8' }
    else { '9' }
}

/// The character of one lowercase hexadecimal digit.
pub open spec fn hex_char(d: nat) -> char {
    if d < 10 { digit_char(d) }
    else if d == 10 { 'a' }
    else if d == 11 { 'b' }
    else if d == 12 { 'c' }
    else if d == 13 { 'd' }
    else if d == 14 { 'e' }
    else { 'f' }
}

/// The decimal digits of `n`, most significant first.
pub open spec fn dec_digits(n: nat) -> Seq<char>
    decreases n,
{
    if n < 10 {
        seq![digit_char(n)]
    } else {
        dec_digits(n / 10).push(digit_char(n % 10))
    }
}

/// The canonical text of the integer `i`.
pub open spec fn ser_int(i: int) -> Seq<char> {
    if i < 0 {
        seq!['-'] + dec_digits((-i) as nat)
    } else {
        dec_digits(i as nat)
    }
}

/// The escape of one string character: quote, backslash and the named
/// control characters get two-character escapes, other control
/// characters a `\u00..` escape, and everything else stands as itself.
pub open spec fn esc_char(c: char) -> Seq<char> {
    if c == '"' { seq!['\\', '"'] }
    else if c == '\\' { seq!['\\', '\\'] }
    else if c == '\n' { seq!['\\', 'n'] }
    else if c == '\r' { seq!['\\', 'r'] }
    else if c == '\t' { seq!['\\', 't'] }
    else if (c as u32) < 0x20 {
        seq!['\\', 'u', '0', '0', hex_char(((c as u32) / 16) as nat), hex_char(((c as u32) % 16) as nat)]
    } else {
        seq![c]
    }
}

/// The escaped text of a string body.
pub open spec fn esc_str(s: Seq<char>) -> Seq<char>
    decreases s.len(),
{
    if s.len() == 0 {
        Seq::empty()
    } else {
        esc_str(s.drop_last()) + esc_char(s.last())
    }
}

/// The canonical text of a string: its escaped body in quotes.
pub open spec fn ser_string(s: Seq<char>) -> Seq<char> {
    seq!['"'] + esc_str(s) + seq!['"']
}

/// The canonical text of a document.
pub open spec fn ser_json(v: JVal) -> Seq<char>
    decreases v, 0int,
{
    match v {
        JVal::Null => seq!['n', 'u', 'l', 'l'],
        JVal::Bool(b) => if b {
            seq!['t', 'r', 'u', 'e']
        } else {
            seq!['f', 'a', 'l', 's', 'e']
        },
        JVal::Int(i) => ser_int(i),
        JVal::NumText(t) => t,
        JVal::Str(s) => ser_string(s),
        JVal::Arr(items) => seq!['['] + ser_items(items) + seq![']'],
        JVal::Obj(fields) => seq!['{'] + ser_fields(fields) + seq!['}'],
    }
}

/// The comma-separated texts of an array's items.
pub open spec fn ser_items(items: Seq<JVal>) -> Seq<char>
    decreases items, 1int,
{
    if items.len() == 0 {
        Seq::empty()
    } else if items.len() == 1 {
        ser_json(items.last())
    } else {
        ser_items(items.drop_last()) + seq![','] + ser_json(items.last())
    }
}

/// The comma-separated texts of an object's fields, each a quoted name,
/// a colon, and the value.
pub open spec fn ser_fields(fields: Seq<(Seq<char>, JVal)>) -> Seq<char>
    decreases fields, 1int,
{
    if fields.len() == 0 {
        Seq::empty()
    } else if fields.len() == 1 {
        ser_string(fields.last().0) + seq![':'] + ser_json(fields.last().1)
    } else {
        ser_fields(fields.drop_last()) + seq![','] + ser_string(fields.last().0) + seq![':']
            + ser_json(fields.last().1)
    }
}

/// The items of an array after the first: each preceded by a comma.
pub open spec fn ser_items_more(items: Seq<JVal>) -> Seq<char>
    decreases items, 1int,
{
    if items.len() == 0 {
        Seq::empty()
    } else {
        ser_items_more(items.drop_last()) + seq![','] + ser_json(items.last())
    }
}

/// The fields of an object after the first: each preceded by a comma.
pub open spec fn ser_fields_more(fields: Seq<(Seq<char>, JVal)>) -> Seq<char>
    decreases fields, 1int,
{
    if fields.len() == 0 {
        Seq::empty()
    } else {
        ser_fields_more(fields.drop_last()) + seq![','] + ser_string(fields.last().0)
            + seq![':'] + ser_json(fields.last().1)
    }
}

/// An array's text is its first item followed by the comma-led rest.
pub proof fn lemma_ser_items_front(items: Seq<JVal>)
    requires
        items.len() > 0,
    ensures
        ser_items(items) == ser_json(items[0]) + ser_items_more(items.skip(1)),
    decreases items.len(),
{
    if items.len() == 1 {
        assert(items.skip(1) =~= Seq::<JVal>::empty());
        assert(items[0] == items.last());
        assert(ser_items(items) =~= ser_json(items[0]) + ser_items_more(items.skip(1)));
    } else {
        lemma_ser_items_front(items.drop_last());
        assert(items.drop_last()[0] == items[0]);
        assert(items.skip(1).drop_last() =~= items.drop_last().skip(1));
        assert(items.skip(1).last() == items.last());
        assert(ser_items(items) =~= ser_json(items[0]) + ser_items_more(items.skip(1)));
    }
}

/// The comma-led rest begins with a comma and its first item.
pub proof fn lemma_ser_items_more_front(items: Seq<JVal>)
    requires
        items.len() > 0,
    ensures
        ser_items_more(items) == seq![','] + ser_json(items[0]) + ser_items_more(items.skip(1)),
    decreases items.len(),
{
    if items.len() == 1 {
        assert(items.skip(1) =~= Seq::<JVal>::empty());
        assert(items.drop_last() =~= Seq::<JVal>::empty());
        assert(items[0] == items.last());
        assert(ser_items_more(items) == ser_items_more(items.drop_last()) + seq![',']
            + ser_json(items.last()));
        assert(ser_items_more(Seq::<JVal>::empty()) == Seq::<char>::empty());
        assert(ser_items_more(items) =~= seq![','] + ser_json(items[0]) + ser_items_more(
            items.skip(1),
        ));
    } else {
        lemma_ser_items_more_front(items.drop_last());
        assert(items.drop_last()[0] == items[0]);
        assert(items.skip(1).drop_last() =~= items.drop_last().skip(1));
        assert(items.skip(1).last() == items.last());
        assert(ser_items_more(items.skip(1)) == ser_items_more(items.drop_last().skip(1))
            + seq![','] + ser_json(items.last()));
        assert(ser_items_more(items) =~= seq![','] + ser_json(items[0]) + ser_items_more(
            items.skip(1),
        ));
    }
}

/// An object's text is its first field followed by the comma-led rest.
pub proof fn lemma_ser_fields_front(fields: Seq<(Seq<char>, JVal)>)
    requires
        fields.len() > 0,
    ensures
        ser_fields(fields) == ser_string(fields[0].0) + seq![':'] + ser_json(fields[0].1)
            + ser_fields_more(fields.skip(1)),
    decreases fields.len(),
{
    if fields.len() == 1 {
        assert(fields.skip(1) =~= Seq::<(Seq<char>, JVal)>::empty());
        assert(fields[0] == fields.last());
        assert(ser_fields(fields) =~= ser_string(fields[0].0) + seq![':'] + ser_json(fields[0].1)
            + ser_fields_more(fields.skip(1)));
    } else {
        lemma_ser_fields_front(fields.drop_last());
        assert(fields.drop_last()[0] == fields[0]);
        assert(fields.skip(1).drop_last() =~= fields.drop_last().skip(1));
        assert(fields.skip(1).last() == fields.last());
        assert(ser_fields(fields) =~= ser_string(fields[0].0) + seq![':'] + ser_json(fields[0].1)
            + ser_fields_more(fields.skip(1)));
    }
}

/// The comma-led rest begins with a comma and its first field.
pub proof fn lemma_ser_fields_more_front(fields: Seq<(Seq<char>, JVal)>)
    requires
        fields.len() > 0,
    ensures
        ser_fields_more(fields) == seq![','] + ser_string(fields[0].0) + seq![':']
            + ser_json(fields[0].1) + ser_fields_more(fields.skip(1)),
    decreases fields.len(),
{
    if fields.len() == 1 {
        assert(fields.skip(1) =~= Seq::<(Seq<char>, JVal)>::empty());
        assert(fields.drop_last() =~= Seq::<(Seq<char>, JVal)>::empty());
        assert(fields[0] == fields.last());
        assert(ser_fields_more(fields) == ser_fields_more(fields.drop_last()) + seq![',']
            + ser_string(fields.last().0) + seq![':'] + ser_json(fields.last().1));
        assert(ser_fields_more(Seq::<(Seq<char>, JVal)>::empty()) == Seq::<char>::empty());
        assert(ser_fields_more(fields) =~= seq![','] + ser_string(fields[0].0) + seq![':']
            + ser_json(fields[0].1) + ser_fields_more(fields.skip(1)));
    } else {
        lemma_ser_fields_more_front(fields.drop_last());
        assert(fields.drop_last()[0] == fields[0]);
        assert(fields.skip(1).drop_last() =~= fields.drop_last().skip(1));
        assert(fields.skip(1).last() == fields.last());
        assert(ser_fields_more(fields.skip(1)) == ser_fields_more(fields.drop_last().skip(1))
            + seq![','] + ser_string(fields.last().0) + seq![':'] + ser_json(fields.last().1));
        assert(ser_fields_more(fields) == ser_fields_more(fields.drop_last()) + seq![',']
            + ser_string(fields.last().0) + seq![':'] + ser_json(fields.last().1));
        assert(ser_fields_more(fields) =~= seq![','] + ser_string(fields[0].0) + seq![':']
            + ser_json(fields[0].1) + ser_fields_more(fields.skip(1)));
    }
}

/// A string's text is the escape of its first character followed by
/// the rest.
pub proof fn lemma_esc_str_front(s: Seq<char>)
    requires
        s.len() > 0,
    ensures
        esc_str(s) == esc_char(s[0]) + esc_str(s.skip(1)),
    decreases s.len(),
{
    if s.len() == 1 {
        assert(s.skip(1) =~= Seq::<char>::empty());
        assert(s.drop_last() =~= Seq::<char>::empty());
        assert(s[0] == s.last());
        assert(esc_str(s) == esc_str(s.drop_last()) + esc_char(s.last()));
        assert(esc_str(Seq::<char>::empty()) == Seq::<char>::empty());
        assert(esc_str(s) =~= esc_char(s[0]) + esc_str(s.skip(1)));
    } else {
        lemma_esc_str_front(s.drop_last());
        assert(s.drop_last()[0] == s[0]);
        assert(s.skip(1).drop_last() =~= s.drop_last().skip(1));
        assert(s.skip(1).last() == s.last());
        assert(esc_str(s.skip(1)) == esc_str(s.drop_last().skip(1)) + esc_char(s.last()));
        assert(esc_str(s) == esc_str(s.drop_last()) + esc_char(s.last()));
        assert(esc_str(s) =~= esc_char(s[0]) + esc_str(s.skip(1)));
    }
}

/// Every character of a rendered number is a digit, the first included,
/// and the rendering is never empty.
pub proof fn lemma_dec_digits_digits(n: nat)
    ensures
        dec_digits(n).len() >= 1,
        forall|k: int| 0 <= k < dec_digits(n).len()
            ==> crate::parse::is_digit(#[trigger] dec_digits(n)[k]),
    decreases n,
{
    if n < 10 {
        lemma_digit_char_val(n);
    } else {
        lemma_dec_digits_digits(n / 10);
        lemma_digit_char_val(n % 10);
        let d = dec_digits(n);
        assert forall|k: int| 0 <= k < d.len() implies crate::parse::is_digit(
            #[trigger] d[k],
        ) by {
            if k < d.len() - 1 {
                assert(d[k] == dec_digits(n / 10)[k]);
            } else {
                assert(d[k] == digit_char(n % 10));
            }
        }
    }
}

/// A digit character reads back as the digit it renders.
pub proof fn lemma_digit_char_val(d: nat)
    requires
        d < 10,
    ensures
        crate::parse::is_digit(digit_char(d)),
        crate::parse::digit_val(digit_char(d)) == d,
{
}

/// A hexadecimal digit character reads back as the digit it renders.
pub proof fn lemma_hex_char_val(d: nat)
    requires
        d < 16,
    ensures
        crate::parse::hex_val(hex_char(d)) == Some(d),
{
}

/// A nonzero number renders without a leading zero.
pub proof fn lemma_dec_digits_no_leading_zero(n: nat)
    requires
        n > 0,
    ensures
        dec_digits(n)[0] != '0',
    decreases n,
{
    if n < 10 {
    } else {
        lemma_dec_digits_no_leading_zero(n / 10);
        assert(dec_digits(n)[0] == dec_digits(n / 10)[0]);
    }
}

/// The text of a well-formed document is never empty, and its first
/// character is the token the reader dispatches on: an opener, a quote,
/// a letter of a keyword, a minus sign or a digit — never whitespace, a
/// closer, a comma or a colon.
pub proof fn lemma_ser_first(v: JVal)
    requires
        crate::json::wf_jval(v),
    ensures
        ser_json(v).len() > 0,
        ({
            let c = ser_json(v)[0];
            ||| c == 'n'
            ||| c == 't'
            ||| c == 'f'
            ||| c == '"'
            ||| c == '['
            ||| c == '{'
            ||| c == '-'
            ||| crate::parse::is_digit(c)
        }),
{
    match v {
        JVal::Int(i) => {
            if i < 0 {
                assert(ser_json(v)[0] == '-');
            } else {
                lemma_dec_digits_digits(i as nat);
                assert(ser_json(v)[0] == dec_digits(i as nat)[0]);
            }
        }
        JVal::NumText(t) => {
            assert(crate::parse::p_number(t, 0) == Some(
                (JVal::NumText(t), t.len() as int),
            ));
            assert(t.len() > 0 && (t[0] == '-' || crate::parse::is_digit(t[0])));
        }
        _ => {}
    }
}

/// The character of one decimal digit.
fn digit_char_exec(d: u64) -> (r: char)
    requires
        d < 10,
    ensures
        r == digit_char(d as nat),
{
    match d {
        0 => '0',
        1 => '1',
        2 => '2',
        3 => '3',
        4 => '4',
        5 => '5',
        6 => '6',
        7 => '7',
        8 => '8',
        _ => '9',
    }
}

/// The character of one lowercase hexadecimal digit.
fn hex_char_exec(d: u32) -> (r: char)
    requires
        d < 16,
    ensures
        r == hex_char(d as nat),
{
    match d {
        0 => '0',
        1 => '1',
        2 => '2',
        3 => '3',
        4 => '4',
        5 => '5',
        6 => '6',
        7 => '7',
        8 => '8',
        9 => '9',
        10 => 'a',
        11 => 'b',
        12 => 'c',
        13 => 'd',
        14 => 'e',
        _ => 'f',
    }
}

/// Append the decimal digits of `n`.
fn push_dec(n: u64, out: &mut Vec<char>)
    ensures
        final(out)@ == old(out)@ + dec_digits(n as nat),
    decreases n,
{
    if n < 10 {
        out.push(digit_char_exec(n));
    } else {
        push_dec(n / 10, out);
        out.push(digit_char_exec(n % 10));
    }
}

/// Append the canonical text of the integer `i`.
fn push_int(i: i64, out: &mut Vec<char>)
    ensures
        final(out)@ == old(out)@ + ser_int(i as int),
{
    if i >= 0 {
        push_dec(i as u64, out);
    } else {
        out.push('-');
        let mag: u64 = if i == i64::MIN {
            9223372036854775808u64
        } else {
            (-i) as u64
        };
        proof {
            assert(mag as nat == (-(i as int)) as nat);
        }
        push_dec(mag, out);
    }
}

/// Append the characters of `s` as they stand.
#[verifier::loop_isolation(false)]
pub fn push_raw(s: &str, out: &mut Vec<char>)
    ensures
        final(out)@ == old(out)@ + s@,
{
    let cs = crate::strutil::str_to_chars(s);
    for i in 0..cs.len()
        invariant
            out@ == old(out)@ + s@.take(i as int),
    {
        out.push(cs[i]);
        proof {
            assert(out@ =~= old(out)@ + s@.take(i + 1));
        }
    }
    proof {
        assert(s@.take(s@.len() as int) =~= s@);
    }
}

/// The decimal text of an unsigned 64-bit number.
pub fn dec_string(n: u64) -> (r: String)
    ensures
        r@ == dec_digits(n as nat),
{
    let mut out: Vec<char> = Vec::new();
    push_dec(n, &mut out);
    chars_to_string(&out)
}

/// Append the escape of one string character.
fn push_esc_char(c: char, out: &mut Vec<char>)
    ensures
        final(out)@ == old(out)@ + esc_char(c),
{
    if c == '"' {
        out.push('\\');
        out.push('"');
    } else if c == '\\' {
        out.push('\\');
        out.push('\\');
    } else if c == '\n' {
        out.push('\\');
        out.push('n');
    } else if c == '\r' {
        out.push('\\');
        out.push('r');
    } else if c == '\t' {
        out.push('\\');
        out.push('t');
    } else if (c as u32) < 0x20 {
        out.push('\\');
        out.push('u');
        out.push('0');
        out.push('0');
        out.push(hex_char_exec((c as u32) / 16));
        out.push(hex_char_exec((c as u32) % 16));
    } else {
        out.push(c);
    }
}

/// Append the canonical text of a string: its escaped body in quotes.
#[verifier::loop_isolation(false)]
pub fn push_string(s: &str, out: &mut Vec<char>)
    ensures
        final(out)@ == old(out)@ + ser_string(s@),
{
    let cs = crate::strutil::str_to_chars(s);
    out.push('"');
    for i in 0..cs.len()
        invariant
            out@ == old(out)@ + seq!['"'] + esc_str(s@.take(i as int)),
    {
        push_esc_char(cs[i], out);
        proof {
            assert(s@.take(i + 1).drop_last() =~= s@.take(i as int));
        }
    }
    proof {
        assert(s@.take(s@.len() as int) =~= s@);
    }
    out.push('"');
}

/// Append the canonical text of a document.
#[verifier::loop_isolation(false)]
#[verifier::rlimit(60)]
pub fn write_json(v: &JsonValue, out: &mut Vec<char>)
    ensures
        final(out)@ == old(out)@ + ser_json(v@),
    decreases *v,
{
    broadcast use crate::json::lemma_models_of_index, crate::json::lemma_field_models_of_index;
    match v {
        JsonValue::Null => {
            out.push('n');
            out.push('u');
            out.push('l');
            out.push('l');
            proof {
                assert(out@ =~= old(out)@ + ser_json(v@));
            }
        }
        JsonValue::Bool(b) => {
            if *b {
                out.push('t');
                out.push('r');
                out.push('u');
                out.push('e');
            } else {
                out.push('f');
                out.push('a');
                out.push('l');
                out.push('s');
                out.push('e');
            }
            proof {
                assert(out@ =~= old(out)@ + ser_json(v@));
            }
        }
        JsonValue::Int(i) => {
            push_int(*i, out);
        }
        JsonValue::NumText(t) => {
            push_raw(t.as_str(), out);
        }
        JsonValue::Str(s) => {
            push_string(s.as_str(), out);
        }
        JsonValue::Arr(items) => {
            out.push('[');
            let ghost m = JsonValue::models_of(items@);
            for k in 0..items.len()
                invariant
                    out@ == old(out)@ + seq!['['] + ser_items(m.take(k as int)),
            {
                if k > 0 {
                    out.push(',');
                }
                proof {
                    assert(decreases_to!(*v => *items));
                    assert(decreases_to!(*v => items@[k as int]));
                }
                write_json(&items[k], out);
                proof {
                    assert(m.take(k + 1).drop_last() =~= m.take(k as int));
                    assert(m.take(k + 1).last() == items@[k as int]@);
                    assert(out@ =~= old(out)@ + seq!['['] + ser_items(m.take(k + 1)));
                }
            }
            out.push(']');
            proof {
                assert(m.take(m.len() as int) =~= m);
                assert(out@ =~= old(out)@ + ser_json(v@));
            }
        }
        JsonValue::Obj(fields) => {
            out.push('{');
            let ghost m = JsonValue::field_models_of(fields@);
            for k in 0..fields.len()
                invariant
                    out@ == old(out)@ + seq!['{'] + ser_fields(m.take(k as int)),
            {
                if k > 0 {
                    out.push(',');
                }
                push_string(fields[k].0.as_str(), out);
                out.push(':');
                proof {
                    assert(decreases_to!(*v => *fields));
                    assert(decreases_to!(*v => fields@[k as int]));
                }
                write_json(&fields[k].1, out);
                proof {
                    assert(m.take(k + 1).drop_last() =~= m.take(k as int));
                    assert(m.take(k + 1).last() == (fields@[k as int].0@, fields@[k as int].1@));
                    assert(out@ =~= old(out)@ + seq!['{'] + ser_fields(m.take(k + 1)));
                }
            }
            out.push('}');
            proof {
                assert(m.take(m.len() as int) =~= m);
                assert(out@ =~= old(out)@ + ser_json(v@));
            }
        }
    }
}

/// The canonical text of a document.
pub fn json_to_string(v: &JsonValue) -> (r: String)
    ensures
        r@ == ser_json(v@),
{
    let mut out: Vec<char> = Vec::new();
    write_json(v, &mut out);
    chars_to_string(&out)
}

} // verus!
