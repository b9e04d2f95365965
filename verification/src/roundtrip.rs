//! The codec laws: the canonical text the writer produces reads back
//! as exactly the document it was written from. In particular a
//! response envelope, serialized, deserialized and re-serialized, is
//! byte-for-byte stable.

use vstd::prelude::*;
use crate::json::{wf_jval, wf_jvals, wf_jfields, JVal};
use crate::parse::{
    digit_val, exp_end, frac_exp_end, hex_val, is_digit, lemma_p_digits_range,
    num_extender, p_arr_items, p_digits, p_number, p_obj_fields, p_str_body, p_value,
    scalar_char, skip_ws, spec_parse_text, unesc_char, wf_numtext,
};
use crate::ser::{
    dec_digits, esc_char, esc_str, ser_fields, ser_fields_more, ser_int, ser_items,
    ser_items_more, ser_json, ser_string,
};
use crate::strutil::is_ws;

verus! {

broadcast use vstd::utf8::char_u32_cast;

/// A subrange equal to a concatenation splits into two subranges.
proof fn lemma_subrange_cat(s: Seq<char>, i: int, a: Seq<char>, b: Seq<char>)
    requires
        0 <= i,
        i + a.len() + b.len() <= s.len(),
        s.subrange(i, i + a.len() + b.len()) == a + b,
    ensures
        s.subrange(i, i + a.len()) == a,
        s.subrange(i + a.len(), i + a.len() + b.len()) == b,
{
    assert forall|t: int| 0 <= t < a.len() implies s.subrange(i, i + a.len())[t] == a[t] by {
        assert(s.subrange(i, i + a.len() + b.len())[t] == (a + b)[t]);
    }
    assert(s.subrange(i, i + a.len()) =~= a);
    assert forall|t: int| 0 <= t < b.len() implies s.subrange(
        i + a.len(),
        i + a.len() + b.len(),
    )[t] == b[t] by {
        let t2 = a.len() + t;
        assert(s.subrange(i, i + a.len() + b.len())[t2] == (a + b)[t2]);
        assert(s.subrange(i, i + a.len() + b.len())[t2] == s[i + t2]);
        assert(s.subrange(i + a.len(), i + a.len() + b.len())[t] == s[i + a.len() + t]);
        assert((a + b)[t2] == b[t]);
    }
    assert(s.subrange(i + a.len(), i + a.len() + b.len()) =~= b);
}

/// One character of a subrange equality.
proof fn lemma_char_at(s: Seq<char>, i: int, a: Seq<char>, j: int)
    requires
        0 <= i,
        i + a.len() <= s.len(),
        s.subrange(i, i + a.len()) == a,
        i <= j < i + a.len(),
    ensures
        s[j] == a[j - i],
{
    assert(s.subrange(i, i + a.len())[j - i] == s[j]);
}

/// Ten to the `n`.
pub open spec fn pow10(n: nat) -> nat
    decreases n,
{
    if n == 0 {
        1
    } else {
        10 * pow10((n - 1) as nat)
    }
}

/// The number a digit string denotes.
pub open spec fn digits_val(ds: Seq<char>) -> nat
    decreases ds.len(),
{
    if ds.len() == 0 {
        0
    } else {
        digits_val(ds.drop_last()) * 10 + digit_val(ds.last())
    }
}

/// A digit string's value, read from its first digit.
proof fn lemma_digits_val_front(ds: Seq<char>)
    requires
        ds.len() > 0,
    ensures
        digits_val(ds) == digit_val(ds[0]) * pow10((ds.len() - 1) as nat) + digits_val(ds.skip(1)),
    decreases ds.len(),
{
    if ds.len() == 1 {
        assert(ds.skip(1) =~= Seq::<char>::empty());
        assert(ds.drop_last() =~= Seq::<char>::empty());
        assert(digits_val(ds) == digits_val(ds.drop_last()) * 10 + digit_val(ds.last()));
        assert(digits_val(Seq::<char>::empty()) == 0);
        assert(digit_val(ds[0]) * pow10(0) == digit_val(ds[0])) by (nonlinear_arith);
    } else {
        lemma_digits_val_front(ds.drop_last());
        let n1: nat = (ds.len() - 1) as nat;
        let a = digit_val(ds[0]);
        let p = pow10((n1 - 1) as nat);
        assert(ds.drop_last()[0] == ds[0]);
        assert(ds.skip(1).drop_last() =~= ds.drop_last().skip(1));
        assert(ds.skip(1).last() == ds.last());
        assert(digits_val(ds.skip(1)) == digits_val(ds.drop_last().skip(1)) * 10 + digit_val(
            ds.last(),
        ));
        assert(digits_val(ds) == digits_val(ds.drop_last()) * 10 + digit_val(ds.last()));
        assert(digits_val(ds.drop_last()) == a * p + digits_val(ds.drop_last().skip(1)));
        assert(pow10(n1) == 10 * p);
        assert((a * p + digits_val(ds.drop_last().skip(1))) * 10 == a * (10 * p) + digits_val(
            ds.drop_last().skip(1),
        ) * 10) by (nonlinear_arith);
    }
}

/// A run of digits, followed by a non-digit or the end, accumulates to
/// exactly its denoted value.
proof fn lemma_p_digits_run(s: Seq<char>, i: int, k: int, acc: nat)
    requires
        0 <= i <= k <= s.len(),
        forall|j: int| i <= j < k ==> is_digit(s[j]),
        k == s.len() || !is_digit(s[k]),
    ensures
        p_digits(s, i, acc) == (acc * pow10((k - i) as nat) + digits_val(s.subrange(i, k)), k),
    decreases k - i,
{
    if i == k {
        assert(s.subrange(i, k) =~= Seq::<char>::empty());
        assert(acc * pow10(0) == acc) by (nonlinear_arith);
    } else {
        let d = digit_val(s[i]);
        lemma_p_digits_run(s, i + 1, k, acc * 10 + d);
        let ds = s.subrange(i, k);
        lemma_digits_val_front(ds);
        assert(ds[0] == s[i]);
        assert(ds.skip(1) =~= s.subrange(i + 1, k));
        let m: nat = (k - i - 1) as nat;
        let p = pow10(m);
        assert(pow10((k - i) as nat) == 10 * p);
        assert((acc * 10 + d) * p == acc * (10 * p) + d * p) by (nonlinear_arith);
        assert(digits_val(ds) == d * p + digits_val(s.subrange(i + 1, k)));
    }
}

/// A rendered number denotes the number it renders.
proof fn lemma_dec_digits_val(n: nat)
    ensures
        digits_val(dec_digits(n)) == n,
    decreases n,
{
    if n < 10 {
        crate::ser::lemma_digit_char_val(n);
        let ds = dec_digits(n);
        assert(ds.drop_last() =~= Seq::<char>::empty());
        assert(digits_val(ds) == digits_val(ds.drop_last()) * 10 + digit_val(ds.last()));
        assert(digits_val(Seq::<char>::empty()) == 0);
    } else {
        lemma_dec_digits_val(n / 10);
        crate::ser::lemma_digit_char_val(n % 10);
        let ds = dec_digits(n);
        assert(ds.drop_last() =~= dec_digits(n / 10));
        assert(ds.last() == crate::ser::digit_char(n % 10));
        assert(digits_val(ds) == (n / 10) * 10 + n % 10);
    }
}

/// A position that ends the text or holds no extender ends the
/// fraction-and-exponent tail there at once.
proof fn lemma_frac_exp_stop(s: Seq<char>, k: int)
    requires
        0 <= k <= s.len(),
        k == s.len() || !num_extender(s[k]),
    ensures
        frac_exp_end(s, k) == Some(k),
        exp_end(s, k) == Some(k),
{
}

/// The canonical text of a number parses back to exactly that number.
proof fn lemma_p_number_ser(v: int, s: Seq<char>, i: int)
    requires
        -0x8000000000000000 <= v <= 0x7fffffffffffffff,
        0 <= i,
        i + ser_int(v).len() <= s.len(),
        s.subrange(i, i + ser_int(v).len()) == ser_int(v),
        i + ser_int(v).len() == s.len() || !num_extender(s[i + ser_int(v).len()]),
    ensures
        p_number(s, i) == Some((JVal::Int(v), i + ser_int(v).len())),
{
    let text = ser_int(v);
    let l = text.len() as int;
    lemma_frac_exp_stop(s, i + l);
    if v < 0 {
        let mag = (-v) as nat;
        crate::ser::lemma_dec_digits_digits(mag);
        crate::ser::lemma_dec_digits_no_leading_zero(mag);
        lemma_char_at(s, i, text, i);
        assert(s[i] == '-');
        assert forall|j: int| i + 1 <= j < i + l implies is_digit(s[j]) by {
            lemma_char_at(s, i, text, j);
            assert(text[j - i] == dec_digits(mag)[j - i - 1]);
        }
        assert(is_digit(s[i + 1]));
        lemma_char_at(s, i, text, i + 1);
        assert(s[i + 1] == dec_digits(mag)[0]);
        assert(s[i + 1] != '0');
        lemma_p_digits_run(s, i + 1, i + l, 0);
        assert forall|t: int| 0 <= t < l - 1 implies s.subrange(i + 1, i + l)[t]
            == dec_digits(mag)[t] by {
            lemma_char_at(s, i, text, i + 1 + t);
        }
        assert(s.subrange(i + 1, i + l) =~= dec_digits(mag));
        lemma_dec_digits_val(mag);
        assert(0 * pow10((l - 1) as nat) == 0) by (nonlinear_arith);
        assert(p_digits(s, i + 1, 0) == (mag, i + l));
        assert(mag <= 9223372036854775808);
    } else if v == 0 {
        lemma_char_at(s, i, text, i);
        assert(text == dec_digits(0));
        assert(s[i] == '0');
        assert(is_digit(s[i]) && s[i] != '-');
        assert(l == 1);
    } else {
        let mag = v as nat;
        crate::ser::lemma_dec_digits_digits(mag);
        crate::ser::lemma_dec_digits_no_leading_zero(mag);
        assert forall|j: int| i <= j < i + l implies is_digit(s[j]) by {
            lemma_char_at(s, i, text, j);
        }
        assert(is_digit(s[i]));
        assert(('-' as u32) == 45 && ('0' as u32) == 48);
        assert(s[i] != '-');
        lemma_char_at(s, i, text, i);
        assert(s[i] == dec_digits(mag)[0]);
        assert(s[i] != '0');
        lemma_p_digits_run(s, i, i + l, 0);
        assert(s.subrange(i, i + l) =~= dec_digits(mag));
        lemma_dec_digits_val(mag);
        assert(0 * pow10(l as nat) == 0) by (nonlinear_arith);
        assert(p_digits(s, i, 0) == (mag, i + l));
        assert(mag <= 9223372036854775807);
    }
}

/// An exponent part that closes a lexeme at its end closes the embedded
/// copy of the lexeme at the same offset.
proof fn lemma_exp_end_local(t: Seq<char>, s: Seq<char>, i: int, m: int)
    requires
        0 <= m <= t.len(),
        0 <= i,
        i + t.len() <= s.len(),
        forall|x: int| 0 <= x < t.len() ==> s[i + x] == t[x],
        i + t.len() == s.len() || !num_extender(s[i + t.len()]),
        exp_end(t, m) == Some(t.len() as int),
    ensures
        exp_end(s, i + m) == Some(i + t.len()),
{
    let l = t.len() as int;
    lemma_frac_exp_stop(s, i + l);
    if m == l {
    } else {
        assert(t[m] == 'e' || t[m] == 'E');
        assert(s[i + m] == t[m]);
        let j = if m + 1 < l && (t[m + 1] == '+' || t[m + 1] == '-') {
            m + 2
        } else {
            m + 1
        };
        assert(j < l && is_digit(t[j]));
        assert(s[i + j] == t[j]);
        // The sign test reads the same character on both sides.
        assert(m + 1 < l);
        assert(s[i + m + 1] == t[m + 1]);
        lemma_p_digits_range(t, j, 0);
        let e_t = p_digits(t, j, 0).1;
        assert(e_t == l);
        assert forall|x: int| i + j <= x < i + l implies is_digit(s[x]) by {
            assert(s[x] == t[x - i]);
        }
        lemma_p_digits_run(s, i + j, i + l, 0);
    }
}

/// A fraction-and-exponent tail that closes a lexeme at its end closes
/// the embedded copy of the lexeme at the same offset.
proof fn lemma_frac_exp_local(t: Seq<char>, s: Seq<char>, i: int, k: int)
    requires
        0 <= k <= t.len(),
        0 <= i,
        i + t.len() <= s.len(),
        forall|x: int| 0 <= x < t.len() ==> s[i + x] == t[x],
        i + t.len() == s.len() || !num_extender(s[i + t.len()]),
        frac_exp_end(t, k) == Some(t.len() as int),
    ensures
        frac_exp_end(s, i + k) == Some(i + t.len()),
{
    let l = t.len() as int;
    if k < l && t[k] == '.' {
        assert(s[i + k] == '.');
        assert(k + 1 < l && is_digit(t[k + 1]));
        assert(s[i + k + 1] == t[k + 1]);
        lemma_p_digits_range(t, k + 1, 0);
        let fe = p_digits(t, k + 1, 0).1;
        assert(fe <= l);
        assert forall|x: int| i + k + 1 <= x < i + fe implies is_digit(s[x]) by {
            assert(s[x] == t[x - i]);
        }
        if fe < l {
            assert(!is_digit(t[fe]));
            assert(s[i + fe] == t[fe]);
            lemma_p_digits_run(s, i + k + 1, i + fe, 0);
        } else {
            lemma_p_digits_run(s, i + k + 1, i + fe, 0);
        }
        assert(p_digits(s, i + k + 1, 0).1 == i + fe);
        assert(exp_end(t, fe) == Some(l));
        lemma_exp_end_local(t, s, i, fe);
    } else if k == l {
        lemma_frac_exp_stop(s, i + l);
        assert(exp_end(t, k) == Some(l));
    } else {
        assert(s[i + k] == t[k] && t[k] != '.');
        assert(exp_end(t, k) == Some(l));
        lemma_exp_end_local(t, s, i, k);
    }
}

/// A number lexeme that reads back as itself, wherever it stands with
/// nothing extending it, parses back to exactly that lexeme.
proof fn lemma_p_numtext_ser(t: Seq<char>, s: Seq<char>, i: int)
    requires
        wf_numtext(t),
        0 <= i,
        i + t.len() <= s.len(),
        s.subrange(i, i + t.len()) == t,
        i + t.len() == s.len() || !num_extender(s[i + t.len()]),
    ensures
        p_number(s, i) == Some((JVal::NumText(t), i + t.len())),
{
    let l = t.len() as int;
    assert forall|x: int| 0 <= x < l implies s[i + x] == t[x] by {
        lemma_char_at(s, i, t, i + x);
    }
    assert(p_number(t, 0) == Some((JVal::NumText(t), l)));
    assert(l > 0);
    let neg = t[0] == '-';
    let j0: int = if neg { 1 } else { 0 };
    assert(j0 < l && is_digit(t[j0]));
    assert(s[i] == t[0]);
    assert(s[i + j0] == t[j0]);
    let int_end_t: int = if t[j0] == '0' { j0 + 1 } else { p_digits(t, j0, 0).1 };
    let v_t: nat = if t[j0] == '0' { 0nat } else { p_digits(t, j0, 0).0 };
    lemma_p_digits_range(t, j0, 0);
    if t[j0] != '0' {
        assert forall|x: int| i + j0 <= x < i + int_end_t implies is_digit(s[x]) by {
            assert(s[x] == t[x - i]);
        }
        assert(int_end_t <= l);
        if int_end_t < l {
            assert(!is_digit(t[int_end_t]));
            assert(s[i + int_end_t] == t[int_end_t]);
        }
        lemma_p_digits_run(s, i + j0, i + int_end_t, 0);
        lemma_p_digits_run(t, j0, int_end_t, 0);
        assert(t.subrange(j0, int_end_t) =~= s.subrange(i + j0, i + int_end_t));
        assert(0 * pow10((int_end_t - j0) as nat) == 0) by (nonlinear_arith);
        assert(p_digits(s, i + j0, 0) == (v_t, i + int_end_t));
    }
    assert(frac_exp_end(t, int_end_t) == Some(l));
    assert(int_end_t <= l);
    lemma_frac_exp_local(t, s, i, int_end_t);
    assert(frac_exp_end(s, i + int_end_t) == Some(i + l));
    // The classification reads the same sign, value and purity on both
    // sides, and on the lexeme alone it chose to keep the text.
    assert(t.subrange(0, l) =~= t);
    assert(s.subrange(i, i + l) == t);
}

/// The escaped text of a string, closed by a quote, parses back to
/// exactly that string.
proof fn lemma_p_str_body_ser(u: Seq<char>, s: Seq<char>, i: int)
    requires
        0 <= i,
        i + esc_str(u).len() + 1 <= s.len(),
        s.subrange(i, i + esc_str(u).len() + 1) == esc_str(u) + seq!['"'],
    ensures
        p_str_body(s, i) == Some((u, i + esc_str(u).len() + 1)),
    decreases u.len(),
{
    let full = esc_str(u) + seq!['"'];
    if u.len() == 0 {
        lemma_char_at(s, i, full, i);
        assert(s[i] == '"');
    } else {
        let c = u[0];
        crate::ser::lemma_esc_str_front(u);
        let ec = esc_char(c);
        let restesc = esc_str(u.skip(1));
        assert(full =~= ec + (restesc + seq!['"']));
        lemma_subrange_cat(s, i, ec, restesc + seq!['"']);
        assert forall|t: int| 0 <= t < ec.len() implies s[i + t] == ec[t] by {
            lemma_char_at(s, i, ec, i + t);
        }
        let i2 = i + ec.len() as int;
        lemma_p_str_body_ser(u.skip(1), s, i2);
        assert(seq![c] + u.skip(1) =~= u);
        if c == '"' {
            assert(s[i] == '\\' && s[i + 1] == '"');
            assert(unesc_char(s[i + 1]) == Some('"'));
        } else if c == '\\' {
            assert(s[i] == '\\' && s[i + 1] == '\\');
        } else if c == '\n' {
            assert(s[i] == '\\' && s[i + 1] == 'n');
        } else if c == '\r' {
            assert(s[i] == '\\' && s[i + 1] == 'r');
        } else if c == '\t' {
            assert(s[i] == '\\' && s[i + 1] == 't');
        } else if (c as u32) < 0x20 {
            let cu = c as u32;
            assert(s[i] == '\\' && s[i + 1] == 'u' && s[i + 2] == '0' && s[i + 3] == '0');
            assert(s[i + 4] == crate::ser::hex_char((cu / 16) as nat));
            assert(s[i + 5] == crate::ser::hex_char((cu % 16) as nat));
            crate::ser::lemma_hex_char_val((cu / 16) as nat);
            crate::ser::lemma_hex_char_val((cu % 16) as nat);
            assert(hex_val(s[i + 2]) == Some(0nat));
            assert(hex_val(s[i + 3]) == Some(0nat));
            let n = 0 * 4096 + 0 * 256 + ((cu / 16) as nat) * 16 + ((cu % 16) as nat);
            assert(n == cu);
            assert(n < 0xd800);
            vstd::utf8::char_u32_cast(c, cu);
            assert((n as u32) == cu);
            assert(scalar_char(n) == c);
        } else {
            assert(s[i] == c);
            assert(s[i] != '"' && s[i] != '\\');
        }
    }
}

/// A well-formed value sequence stays well formed without its head.
proof fn lemma_wf_jvals_skip(items: Seq<JVal>)
    requires
        wf_jvals(items),
        items.len() > 0,
    ensures
        wf_jvals(items.skip(1)),
    decreases items.len(),
{
    if items.len() == 1 {
        assert(items.skip(1) =~= Seq::<JVal>::empty());
    } else {
        lemma_wf_jvals_skip(items.drop_last());
        assert(items.skip(1).drop_last() =~= items.drop_last().skip(1));
        assert(items.skip(1).last() == items.last());
        assert(wf_jvals(items.skip(1)) == (wf_jvals(items.skip(1).drop_last()) && wf_jval(
            items.skip(1).last(),
        )));
    }
}

/// A well-formed field sequence stays well formed without its head.
proof fn lemma_wf_jfields_skip(fields: Seq<(Seq<char>, JVal)>)
    requires
        wf_jfields(fields),
        fields.len() > 0,
    ensures
        wf_jfields(fields.skip(1)),
    decreases fields.len(),
{
    if fields.len() == 1 {
        assert(fields.skip(1) =~= Seq::<(Seq<char>, JVal)>::empty());
    } else {
        lemma_wf_jfields_skip(fields.drop_last());
        assert(fields.skip(1).drop_last() =~= fields.drop_last().skip(1));
        assert(fields.skip(1).last() == fields.last());
        assert(wf_jfields(fields.skip(1)) == (wf_jfields(fields.skip(1).drop_last()) && wf_jval(
            fields.skip(1).last().1,
        )));
    }
}

/// A comma, closer or colon never extends a number lexeme.
proof fn lemma_sep_not_extender()
    ensures
        !num_extender(','),
        !num_extender(']'),
        !num_extender('}'),
        !num_extender(':'),
{
}

/// The canonical text of a well-formed document, wherever it stands,
/// parses back to exactly that document.
#[verifier::rlimit(100)]
proof fn lemma_p_value_ser(v: JVal, s: Seq<char>, i: int)
    requires
        wf_jval(v),
        0 <= i,
        i + ser_json(v).len() <= s.len(),
        s.subrange(i, i + ser_json(v).len()) == ser_json(v),
        v is Int || v is NumText ==> i + ser_json(v).len() == s.len() || !num_extender(
            s[i + ser_json(v).len()],
        ),
    ensures
        p_value(s, i) == Some((v, i + ser_json(v).len())),
    decreases v, 0int,
{
    let text = ser_json(v);
    let l = text.len() as int;
    crate::ser::lemma_ser_first(v);
    lemma_char_at(s, i, text, i);
    assert(!is_ws(s[i]));
    assert(skip_ws(s, i) == i);
    match v {
        JVal::Null => {
            assert forall|t: int| 0 <= t < 4 implies s.skip(i).subrange(0, 4)[t] == text[t] by {
                lemma_char_at(s, i, text, i + t);
            }
            assert(s.skip(i).subrange(0, 4) =~= seq!['n', 'u', 'l', 'l']);
            assert(crate::strutil::starts_with(s.skip(i), seq!['n', 'u', 'l', 'l']));
        }
        JVal::Bool(b) => {
            if b {
                assert forall|t: int| 0 <= t < 4 implies s.skip(i).subrange(0, 4)[t]
                    == text[t] by {
                    lemma_char_at(s, i, text, i + t);
                }
                assert(s.skip(i).subrange(0, 4) =~= seq!['t', 'r', 'u', 'e']);
                assert(crate::strutil::starts_with(s.skip(i), seq!['t', 'r', 'u', 'e']));
            } else {
                assert forall|t: int| 0 <= t < 5 implies s.skip(i).subrange(0, 5)[t]
                    == text[t] by {
                    lemma_char_at(s, i, text, i + t);
                }
                assert(s.skip(i).subrange(0, 5) =~= seq!['f', 'a', 'l', 's', 'e']);
                assert(crate::strutil::starts_with(s.skip(i), seq!['f', 'a', 'l', 's', 'e']));
            }
        }
        JVal::Int(n) => {
            if n < 0 {
                assert(text == seq!['-'] + dec_digits((-n) as nat));
                assert(text[0] == '-');
            } else {
                crate::ser::lemma_dec_digits_digits(n as nat);
                assert(text[0] == dec_digits(n as nat)[0]);
                assert(is_digit(text[0]));
            }
            assert(s[i] == '-' || is_digit(s[i]));
            assert(('n' as u32) == 110 && ('t' as u32) == 116 && ('f' as u32) == 102
                && ('"' as u32) == 34 && ('[' as u32) == 91 && ('{' as u32) == 123
                && ('-' as u32) == 45);
            assert(s[i] != 'n' && s[i] != 't' && s[i] != 'f' && s[i] != '"' && s[i] != '['
                && s[i] != '{');
            lemma_p_number_ser(n, s, i);
        }
        JVal::NumText(t) => {
            assert(text == t);
            assert(p_number(t, 0) == Some((JVal::NumText(t), t.len() as int)));
            assert(t.len() > 0 && (t[0] == '-' || is_digit(t[0])));
            assert(s[i] == '-' || is_digit(s[i]));
            assert(('n' as u32) == 110 && ('t' as u32) == 116 && ('f' as u32) == 102
                && ('"' as u32) == 34 && ('[' as u32) == 91 && ('{' as u32) == 123
                && ('-' as u32) == 45);
            assert(s[i] != 'n' && s[i] != 't' && s[i] != 'f' && s[i] != '"' && s[i] != '['
                && s[i] != '{');
            lemma_p_numtext_ser(t, s, i);
        }
        JVal::Str(u) => {
            assert(s[i] == '"');
            let tail = esc_str(u) + seq!['"'];
            assert(text =~= seq!['"'] + tail);
            lemma_subrange_cat(s, i, seq!['"'], tail);
            lemma_p_str_body_ser(u, s, i + 1);
        }
        JVal::Arr(items) => {
            assert(s[i] == '[');
            let tail = ser_items(items) + seq![']'];
            assert(text =~= seq!['['] + tail);
            lemma_subrange_cat(s, i, seq!['['], tail);
            assert(decreases_to!(v => items));
            lemma_p_arr_first(items, s, i + 1);
        }
        JVal::Obj(fields) => {
            assert(s[i] == '{');
            let tail = ser_fields(fields) + seq!['}'];
            assert(text =~= seq!['{'] + tail);
            lemma_subrange_cat(s, i, seq!['{'], tail);
            assert(decreases_to!(v => fields));
            lemma_p_obj_first(fields, s, i + 1);
        }
    }
}

/// The items of an array, rendered then closed, parse back whole when
/// the opening bracket has just been consumed.
proof fn lemma_p_arr_first(items: Seq<JVal>, s: Seq<char>, i: int)
    requires
        wf_jvals(items),
        0 <= i,
        i + ser_items(items).len() + 1 <= s.len(),
        s.subrange(i, i + ser_items(items).len() + 1) == ser_items(items) + seq![']'],
    ensures
        p_arr_items(s, i, true) == Some((items, i + ser_items(items).len() + 1)),
    decreases items, 1int,
{
    let text = ser_items(items) + seq![']'];
    if items.len() == 0 {
        lemma_char_at(s, i, text, i);
        assert(s[i] == ']');
        assert(!is_ws(s[i]));
        assert(skip_ws(s, i) == i);
    } else {
        crate::ser::lemma_ser_items_front(items);
        let v0 = items[0];
        crate::json::lemma_wf_jvals_index(items);
        crate::ser::lemma_ser_first(v0);
        let l0 = ser_json(v0).len() as int;
        let rest = ser_items_more(items.skip(1)) + seq![']'];
        assert(text =~= ser_json(v0) + rest);
        lemma_subrange_cat(s, i, ser_json(v0), rest);
        lemma_char_at(s, i, ser_json(v0), i);
        assert(!is_ws(s[i]));
        assert(skip_ws(s, i) == i);
        assert(s[i] != ']');
        lemma_char_at(s, i + l0, rest, i + l0);
        if items.skip(1).len() == 0 {
            assert(rest[0] == ']');
        } else {
            crate::ser::lemma_ser_items_more_front(items.skip(1));
            assert(rest[0] == ',');
        }
        lemma_sep_not_extender();
        assert(v0 is Int || v0 is NumText ==> !num_extender(s[i + l0]));
        assert(decreases_to!(items => items[0]));
        lemma_p_value_ser(v0, s, i);
        lemma_wf_jvals_skip(items);
        assert(decreases_to!(items => items.skip(1)));
        lemma_p_arr_rest(items.skip(1), s, i + l0);
        assert(seq![v0] + items.skip(1) =~= items);
    }
}

/// The remaining items of an array, each comma-led, then the closer,
/// parse back whole.
proof fn lemma_p_arr_rest(items: Seq<JVal>, s: Seq<char>, i: int)
    requires
        wf_jvals(items),
        0 <= i,
        i + ser_items_more(items).len() + 1 <= s.len(),
        s.subrange(i, i + ser_items_more(items).len() + 1) == ser_items_more(items) + seq![']'],
    ensures
        p_arr_items(s, i, false) == Some((items, i + ser_items_more(items).len() + 1)),
    decreases items, 2int,
{
    let text = ser_items_more(items) + seq![']'];
    if items.len() == 0 {
        lemma_char_at(s, i, text, i);
        assert(s[i] == ']');
        assert(!is_ws(s[i]));
        assert(skip_ws(s, i) == i);
    } else {
        crate::ser::lemma_ser_items_more_front(items);
        let v0 = items[0];
        crate::json::lemma_wf_jvals_index(items);
        crate::ser::lemma_ser_first(v0);
        let l0 = ser_json(v0).len() as int;
        let rest = ser_items_more(items.skip(1)) + seq![']'];
        assert(text =~= seq![','] + (ser_json(v0) + rest));
        lemma_subrange_cat(s, i, seq![','], ser_json(v0) + rest);
        lemma_subrange_cat(s, i + 1, ser_json(v0), rest);
        lemma_char_at(s, i, seq![','], i);
        assert(s[i] == ',');
        assert(!is_ws(s[i]));
        assert(skip_ws(s, i) == i);
        assert(s[i] != ']');
        lemma_char_at(s, i + 1 + l0, rest, i + 1 + l0);
        if items.skip(1).len() == 0 {
            assert(rest[0] == ']');
        } else {
            crate::ser::lemma_ser_items_more_front(items.skip(1));
            assert(rest[0] == ',');
        }
        lemma_sep_not_extender();
        assert(v0 is Int || v0 is NumText ==> !num_extender(s[i + 1 + l0]));
        assert(decreases_to!(items => items[0]));
        lemma_p_value_ser(v0, s, i + 1);
        lemma_wf_jvals_skip(items);
        assert(decreases_to!(items => items.skip(1)));
        lemma_p_arr_rest(items.skip(1), s, i + 1 + l0);
        assert(seq![v0] + items.skip(1) =~= items);
    }
}

/// The fields of an object, rendered then closed, parse back whole
/// when the opening brace has just been consumed.
proof fn lemma_p_obj_first(fields: Seq<(Seq<char>, JVal)>, s: Seq<char>, i: int)
    requires
        wf_jfields(fields),
        0 <= i,
        i + ser_fields(fields).len() + 1 <= s.len(),
        s.subrange(i, i + ser_fields(fields).len() + 1) == ser_fields(fields) + seq!['}'],
    ensures
        p_obj_fields(s, i, true) == Some((fields, i + ser_fields(fields).len() + 1)),
    decreases fields, 1int,
{
    let text = ser_fields(fields) + seq!['}'];
    if fields.len() == 0 {
        lemma_char_at(s, i, text, i);
        assert(s[i] == '}');
        assert(!is_ws(s[i]));
        assert(skip_ws(s, i) == i);
    } else {
        crate::ser::lemma_ser_fields_front(fields);
        let key = fields[0].0;
        let v0 = fields[0].1;
        crate::json::lemma_wf_jfields_index(fields);
        crate::ser::lemma_ser_first(v0);
        let ks = ser_string(key);
        let l0 = ser_json(v0).len() as int;
        let rest = ser_fields_more(fields.skip(1)) + seq!['}'];
        assert(text =~= ks + (seq![':'] + (ser_json(v0) + rest)));
        lemma_subrange_cat(s, i, ks, seq![':'] + (ser_json(v0) + rest));
        let ic = i + ks.len() as int;
        lemma_subrange_cat(s, ic, seq![':'], ser_json(v0) + rest);
        lemma_subrange_cat(s, ic + 1, ser_json(v0), rest);
        lemma_char_at(s, i, ks, i);
        assert(ks[0] == '"');
        assert(s[i] == '"');
        assert(!is_ws(s[i]));
        assert(skip_ws(s, i) == i);
        assert(s[i] != '}');
        // The quoted name.
        let tail = esc_str(key) + seq!['"'];
        assert(ks =~= seq!['"'] + tail);
        lemma_subrange_cat(s, i, seq!['"'], tail);
        lemma_p_str_body_ser(key, s, i + 1);
        let kend = i + 1 + esc_str(key).len() as int + 1;
        assert(kend == ic);
        // The colon.
        lemma_char_at(s, ic, seq![':'], ic);
        assert(s[ic] == ':');
        assert(!is_ws(s[ic]));
        assert(skip_ws(s, ic) == ic);
        // The value.
        lemma_char_at(s, ic + 1 + l0, rest, ic + 1 + l0);
        if fields.skip(1).len() == 0 {
            assert(rest[0] == '}');
        } else {
            crate::ser::lemma_ser_fields_more_front(fields.skip(1));
            assert(rest[0] == ',');
        }
        lemma_sep_not_extender();
        assert(v0 is Int || v0 is NumText ==> !num_extender(s[ic + 1 + l0]));
        assert(decreases_to!(fields => fields[0]));
        lemma_p_value_ser(v0, s, ic + 1);
        lemma_wf_jfields_skip(fields);
        assert(decreases_to!(fields => fields.skip(1)));
        lemma_p_obj_rest(fields.skip(1), s, ic + 1 + l0);
        assert(seq![(key, v0)] + fields.skip(1) =~= fields);
    }
}

/// The remaining fields of an object, each comma-led, then the closer,
/// parse back whole.
proof fn lemma_p_obj_rest(fields: Seq<(Seq<char>, JVal)>, s: Seq<char>, i: int)
    requires
        wf_jfields(fields),
        0 <= i,
        i + ser_fields_more(fields).len() + 1 <= s.len(),
        s.subrange(i, i + ser_fields_more(fields).len() + 1) == ser_fields_more(fields)
            + seq!['}'],
    ensures
        p_obj_fields(s, i, false) == Some((fields, i + ser_fields_more(fields).len() + 1)),
    decreases fields, 2int,
{
    let text = ser_fields_more(fields) + seq!['}'];
    if fields.len() == 0 {
        lemma_char_at(s, i, text, i);
        assert(s[i] == '}');
        assert(!is_ws(s[i]));
        assert(skip_ws(s, i) == i);
    } else {
        crate::ser::lemma_ser_fields_more_front(fields);
        let key = fields[0].0;
        let v0 = fields[0].1;
        crate::json::lemma_wf_jfields_index(fields);
        crate::ser::lemma_ser_first(v0);
        let ks = ser_string(key);
        let l0 = ser_json(v0).len() as int;
        let rest = ser_fields_more(fields.skip(1)) + seq!['}'];
        assert(text =~= seq![','] + (ks + (seq![':'] + (ser_json(v0) + rest))));
        lemma_subrange_cat(s, i, seq![','], ks + (seq![':'] + (ser_json(v0) + rest)));
        lemma_subrange_cat(s, i + 1, ks, seq![':'] + (ser_json(v0) + rest));
        let ic = i + 1 + ks.len() as int;
        lemma_subrange_cat(s, ic, seq![':'], ser_json(v0) + rest);
        lemma_subrange_cat(s, ic + 1, ser_json(v0), rest);
        lemma_char_at(s, i, seq![','], i);
        assert(s[i] == ',');
        assert(!is_ws(s[i]));
        assert(skip_ws(s, i) == i);
        assert(s[i] != '}');
        lemma_char_at(s, i + 1, ks, i + 1);
        assert(ks[0] == '"');
        assert(s[i + 1] == '"');
        assert(!is_ws(s[i + 1]));
        assert(skip_ws(s, i + 1) == i + 1);
        // The quoted name.
        let tail = esc_str(key) + seq!['"'];
        assert(ks =~= seq!['"'] + tail);
        lemma_subrange_cat(s, i + 1, seq!['"'], tail);
        lemma_p_str_body_ser(key, s, i + 2);
        let kend = i + 2 + esc_str(key).len() as int + 1;
        assert(kend == ic);
        // The colon.
        lemma_char_at(s, ic, seq![':'], ic);
        assert(s[ic] == ':');
        assert(!is_ws(s[ic]));
        assert(skip_ws(s, ic) == ic);
        // The value.
        lemma_char_at(s, ic + 1 + l0, rest, ic + 1 + l0);
        if fields.skip(1).len() == 0 {
            assert(rest[0] == '}');
        } else {
            crate::ser::lemma_ser_fields_more_front(fields.skip(1));
            assert(rest[0] == ',');
        }
        lemma_sep_not_extender();
        assert(v0 is Int || v0 is NumText ==> !num_extender(s[ic + 1 + l0]));
        assert(decreases_to!(fields => fields[0]));
        lemma_p_value_ser(v0, s, ic + 1);
        lemma_wf_jfields_skip(fields);
        assert(decreases_to!(fields => fields.skip(1)));
        lemma_p_obj_rest(fields.skip(1), s, ic + 1 + l0);
        assert(seq![(key, v0)] + fields.skip(1) =~= fields);
    }
}

/// Three well-formed fields make a well-formed object.
proof fn lemma_wf_three(a: (Seq<char>, JVal), b: (Seq<char>, JVal), c: (Seq<char>, JVal))
    requires
        wf_jval(a.1),
        wf_jval(b.1),
        wf_jval(c.1),
    ensures
        wf_jfields(seq![a, b, c]),
{
    let s3 = seq![a, b, c];
    assert(s3.drop_last() =~= seq![a, b]);
    assert(seq![a, b].drop_last() =~= seq![a]);
    assert(seq![a].drop_last() =~= Seq::<(Seq<char>, JVal)>::empty());
    assert(wf_jfields(Seq::<(Seq<char>, JVal)>::empty()));
    assert(wf_jfields(seq![a]));
    assert(wf_jfields(seq![a, b]));
}

/// Two well-formed fields make a well-formed object.
proof fn lemma_wf_two(a: (Seq<char>, JVal), b: (Seq<char>, JVal))
    requires
        wf_jval(a.1),
        wf_jval(b.1),
    ensures
        wf_jfields(seq![a, b]),
{
    assert(seq![a, b].drop_last() =~= seq![a]);
    assert(seq![a].drop_last() =~= Seq::<(Seq<char>, JVal)>::empty());
    assert(wf_jfields(Seq::<(Seq<char>, JVal)>::empty()));
    assert(wf_jfields(seq![a]));
}

/// The decimal text of a number past the signed wire range is a number
/// lexeme that reads back as itself.
proof fn lemma_wf_numtext_dec(n: u64)
    requires
        n > 0x7fffffffffffffff,
    ensures
        wf_numtext(dec_digits(n as nat)),
{
    let t = dec_digits(n as nat);
    let l = t.len() as int;
    crate::ser::lemma_dec_digits_digits(n as nat);
    crate::ser::lemma_dec_digits_no_leading_zero(n as nat);
    lemma_dec_digits_val(n as nat);
    lemma_p_digits_run(t, 0, l, 0);
    assert(t.subrange(0, l) =~= t);
    assert(0 * pow10(l as nat) == 0) by (nonlinear_arith);
    assert(p_digits(t, 0, 0) == ((n as nat), l));
    lemma_frac_exp_stop(t, l);
    assert(('-' as u32) == 45 && ('0' as u32) == 48);
    assert(is_digit(t[0]) && t[0] != '-' && t[0] != '0');
}

/// The document an id is written as is well formed.
proof fn lemma_id_json_wf(id: crate::dispatch::IdModel)
    ensures
        wf_jval(crate::dispatch::id_json_model(id)),
{
    match id {
        crate::dispatch::IdModel::Num(n) => {
            if n > 0x7fffffffffffffff {
                lemma_wf_numtext_dec(n);
            }
        }
        _ => {}
    }
}

/// Law: the wire text of a response envelope reads back as exactly the
/// document it was written from, so serializing a response envelope,
/// deserializing it and serializing it again is byte-for-byte stable —
/// for success and failure envelopes alike, under every id the
/// dispatcher echoes.
pub proof fn lemma_response_round_trip(e: crate::dispatch::RespModel)
    requires
        crate::dispatch::resp_wf(e),
        e matches crate::dispatch::RespModel::Success { result, .. } ==> wf_jval(result),
    ensures
        spec_parse_text(crate::dispatch::ser_response(e))
            == Some(crate::dispatch::resp_json_model(e)),
        ser_json(spec_parse_text(crate::dispatch::ser_response(e))->0)
            == crate::dispatch::ser_response(e),
{
    let doc = crate::dispatch::resp_json_model(e);
    match e {
        crate::dispatch::RespModel::Success { id, result } => {
            lemma_id_json_wf(id);
            lemma_wf_three(
                ("jsonrpc"@, JVal::Str("2.0"@)),
                ("result"@, result),
                ("id"@, crate::dispatch::id_json_model(id)),
            );
        }
        crate::dispatch::RespModel::Failure { id, code, message } => {
            lemma_id_json_wf(id);
            lemma_wf_two(("code"@, JVal::Int(code)), ("message"@, JVal::Str(message)));
            lemma_wf_three(
                ("jsonrpc"@, JVal::Str("2.0"@)),
                ("error"@, JVal::Obj(
                    seq![("code"@, JVal::Int(code)), ("message"@, JVal::Str(message))],
                )),
                ("id"@, crate::dispatch::id_json_model(id)),
            );
        }
    }
    lemma_parse_canonical(doc);
}

/// Law: the canonical text of a well-formed document parses back as
/// exactly that document.
pub proof fn lemma_parse_canonical(v: JVal)
    requires
        wf_jval(v),
    ensures
        spec_parse_text(ser_json(v)) == Some(v),
{
    let s = ser_json(v);
    assert(s.subrange(0, s.len() as int) =~= s);
    lemma_p_value_ser(v, s, 0);
    assert(skip_ws(s, s.len() as int) == s.len() as int);
}

} // verus!
