//! The JSON reader: a recursive-descent parser over characters. It
//! accepts whitespace between tokens and every escape of the JSON
//! grammar, surrogate pairs included. A number that is a 64-bit signed
//! integer is decoded as one; any other number — fractional, with an
//! exponent, or out of that range — is kept as its exact lexeme, to be
//! written back verbatim. Malformed text is rejected as a whole.

use vstd::prelude::*;
use crate::json::{JsonValue, JVal};
use crate::strutil::{is_ws, starts_with};

verus! {

/// Whether `c` is a decimal digit.
pub open spec fn is_digit(c: char) -> bool {
    48 <= (c as u32) && (c as u32) <= 57
}

/// The value of a decimal digit.
pub open spec fn digit_val(c: char) -> nat {
    ((c as u32) - 48) as nat
}

/// The value of a hexadecimal digit, if `c` is one.
pub open spec fn hex_val(c: char) -> Option<nat> {
    if is_digit(c) {
        Some(digit_val(c))
    } else if 97 <= (c as u32) && (c as u32) <= 102 {
        Some(((c as u32) - 87) as nat)
    } else if 65 <= (c as u32) && (c as u32) <= 70 {
        Some(((c as u32) - 55) as nat)
    } else {
        None
    }
}

/// The character a short escape stands for, if the escape is known.
pub open spec fn unesc_char(c: char) -> Option<char> {
    if c == '"' { Some('"') }
    else if c == '\\' { Some('\\') }
    else if c == '/' { Some('/') }
    else if c == 'n' { Some('\n') }
    else if c == 'r' { Some('\r') }
    else if c == 't' { Some('\t') }
    else if c == 'b' { Some('\u{8}') }
    else if c == 'f' { Some('\u{c}') }
    else { None }
}

/// The character of a Unicode scalar value.
pub open spec fn scalar_char(n: nat) -> char {
    (n as u32) as char
}

/// The first non-whitespace position at or after `i`.
pub open spec fn skip_ws(s: Seq<char>, i: int) -> int
    decreases s.len() - i,
{
    if 0 <= i < s.len() && is_ws(s[i]) {
        skip_ws(s, i + 1)
    } else {
        i
    }
}

/// Where whitespace skipping lands: between `i` and the end, on a
/// non-whitespace character unless the text ran out, with nothing but
/// whitespace before it.
pub proof fn lemma_skip_ws(s: Seq<char>, i: int)
    requires
        0 <= i <= s.len(),
    ensures
        i <= skip_ws(s, i) <= s.len(),
        skip_ws(s, i) < s.len() ==> !is_ws(s[skip_ws(s, i)]),
        forall|j: int| i <= j < skip_ws(s, i) ==> is_ws(s[j]),
    decreases s.len() - i,
{
    if i < s.len() && is_ws(s[i]) {
        lemma_skip_ws(s, i + 1);
    }
}

/// Accumulate the run of digits starting at `i` onto `acc`, returning
/// the value and the position after the run.
pub open spec fn p_digits(s: Seq<char>, i: int, acc: nat) -> (nat, int)
    decreases s.len() - i,
{
    if 0 <= i < s.len() && is_digit(s[i]) {
        p_digits(s, i + 1, acc * 10 + digit_val(s[i]))
    } else {
        (acc, i)
    }
}

/// Where a digit run ends: at or after `i`, after nothing but digits,
/// on a non-digit unless the text ran out.
pub proof fn lemma_p_digits_range(s: Seq<char>, i: int, acc: nat)
    requires
        0 <= i <= s.len(),
    ensures
        i <= p_digits(s, i, acc).1 <= s.len(),
        p_digits(s, i, acc).1 < s.len() ==> !is_digit(s[p_digits(s, i, acc).1]),
        forall|j: int| i <= j < p_digits(s, i, acc).1 ==> is_digit(s[j]),
    decreases s.len() - i,
{
    if i < s.len() && is_digit(s[i]) {
        lemma_p_digits_range(s, i + 1, acc * 10 + digit_val(s[i]));
    }
}

/// Whether `c` can extend a number lexeme: a digit, the fraction dot,
/// or an exponent marker.
pub open spec fn num_extender(c: char) -> bool {
    is_digit(c) || c == '.' || c == 'e' || c == 'E'
}

/// The end of an exponent part standing at `m`: `m` itself when none
/// starts there, the position after the marker, optional sign and digit
/// run when a well-formed one does, and nothing when one starts but has
/// no digits.
pub open spec fn exp_end(s: Seq<char>, m: int) -> Option<int> {
    if 0 <= m < s.len() && (s[m] == 'e' || s[m] == 'E') {
        let j = if m + 1 < s.len() && (s[m + 1] == '+' || s[m + 1] == '-') {
            m + 2
        } else {
            m + 1
        };
        if j < s.len() && is_digit(s[j]) {
            Some(p_digits(s, j, 0).1)
        } else {
            None
        }
    } else {
        Some(m)
    }
}

/// The end of the fraction-and-exponent tail of a number whose integer
/// part ends at `k`: each part taken when well formed, refused when one
/// starts and is malformed.
pub open spec fn frac_exp_end(s: Seq<char>, k: int) -> Option<int> {
    if 0 <= k < s.len() && s[k] == '.' {
        if k + 1 < s.len() && is_digit(s[k + 1]) {
            exp_end(s, p_digits(s, k + 1, 0).1)
        } else {
            None
        }
    } else {
        exp_end(s, k)
    }
}

/// Parse a number at `i`: an optional minus sign, an integer part that
/// is a lone zero or starts with a nonzero digit, then an optional
/// fraction and exponent. A pure integer that fits 64 signed bits is
/// decoded; any other well-formed number keeps its exact lexeme.
pub open spec fn p_number(s: Seq<char>, i: int) -> Option<(JVal, int)> {
    let neg = 0 <= i < s.len() && s[i] == '-';
    let j = if neg { i + 1 } else { i };
    if !(0 <= j < s.len() && is_digit(s[j])) {
        None
    } else {
        let v = if s[j] == '0' { 0nat } else { p_digits(s, j, 0).0 };
        let int_end = if s[j] == '0' { j + 1 } else { p_digits(s, j, 0).1 };
        match frac_exp_end(s, int_end) {
            None => None,
            Some(end) => if end == int_end {
                if neg {
                    if v <= 9223372036854775808 {
                        Some((JVal::Int(-(v as int)), end))
                    } else {
                        Some((JVal::NumText(s.subrange(i, end)), end))
                    }
                } else {
                    if v <= 9223372036854775807 {
                        Some((JVal::Int(v as int), end))
                    } else {
                        Some((JVal::NumText(s.subrange(i, end)), end))
                    }
                }
            } else {
                Some((JVal::NumText(s.subrange(i, end)), end))
            },
        }
    }
}

/// Whether a number lexeme reads back as exactly itself: the whole text
/// is one number, and it is not a 64-bit signed integer in disguise.
pub open spec fn wf_numtext(t: Seq<char>) -> bool {
    p_number(t, 0) == Some((JVal::NumText(t), t.len() as int))
}

/// Where an exponent part ends: at or after `m`, within the text.
pub proof fn lemma_exp_end_range(s: Seq<char>, m: int)
    requires
        0 <= m <= s.len(),
    ensures
        match exp_end(s, m) {
            Some(e) => m <= e <= s.len(),
            None => true,
        },
{
    if m < s.len() && (s[m] == 'e' || s[m] == 'E') {
        let j = if m + 1 < s.len() && (s[m + 1] == '+' || s[m + 1] == '-') {
            m + 2
        } else {
            m + 1
        };
        if j < s.len() && is_digit(s[j]) {
            lemma_p_digits_range(s, j, 0);
        }
    }
}

/// Where the fraction-and-exponent tail ends: at or after `k`, within
/// the text.
pub proof fn lemma_frac_exp_end_range(s: Seq<char>, k: int)
    requires
        0 <= k <= s.len(),
    ensures
        match frac_exp_end(s, k) {
            Some(e) => k <= e <= s.len(),
            None => true,
        },
{
    if k < s.len() && s[k] == '.' {
        if k + 1 < s.len() && is_digit(s[k + 1]) {
            lemma_p_digits_range(s, k + 1, 0);
            lemma_exp_end_range(s, p_digits(s, k + 1, 0).1);
        }
    } else {
        lemma_exp_end_range(s, k);
    }
}

/// Where a number ends: past `i`, within the text.
pub proof fn lemma_p_number_range(s: Seq<char>, i: int)
    requires
        0 <= i <= s.len(),
    ensures
        match p_number(s, i) {
            Some((v, end)) => i < end <= s.len(),
            None => true,
        },
{
    let neg = i < s.len() && s[i] == '-';
    let j = if neg { i + 1 } else { i };
    if j < s.len() && is_digit(s[j]) {
        lemma_p_digits_range(s, j, 0);
        lemma_p_digits_range(s, j + 1, digit_val(s[j]));
        assert(p_digits(s, j, 0) == p_digits(s, j + 1, digit_val(s[j])));
        let int_end = if s[j] == '0' { j + 1 } else { p_digits(s, j, 0).1 };
        lemma_frac_exp_end_range(s, int_end);
    }
}

/// Parse a string body at `i` (the opening quote already consumed):
/// the unescaped characters, and the position after the closing quote.
/// A `\u` escape yields the scalar it names; a high surrogate must be
/// followed by a low-surrogate escape, and the pair yields one
/// character; a lone surrogate is refused.
pub open spec fn p_str_body(s: Seq<char>, i: int) -> Option<(Seq<char>, int)>
    decreases s.len() - i,
{
    if !(0 <= i < s.len()) {
        None
    } else if s[i] == '"' {
        Some((Seq::empty(), i + 1))
    } else if s[i] == '\\' {
        if i + 1 < s.len() {
            if s[i + 1] == 'u' {
                if i + 6 <= s.len() {
                    match (hex_val(s[i + 2]), hex_val(s[i + 3]), hex_val(s[i + 4]), hex_val(
                        s[i + 5],
                    )) {
                        (Some(d1), Some(d2), Some(d3), Some(d4)) => {
                            let n = d1 * 4096 + d2 * 256 + d3 * 16 + d4;
                            if n < 0xd800 || n > 0xdfff {
                                match p_str_body(s, i + 6) {
                                    Some((rest, end)) => Some((seq![scalar_char(n)] + rest, end)),
                                    None => None,
                                }
                            } else if n < 0xdc00 {
                                if i + 12 <= s.len() && s[i + 6] == '\\' && s[i + 7] == 'u' {
                                    match (hex_val(s[i + 8]), hex_val(s[i + 9]), hex_val(
                                        s[i + 10],
                                    ), hex_val(s[i + 11])) {
                                        (Some(e1), Some(e2), Some(e3), Some(e4)) => {
                                            let m = e1 * 4096 + e2 * 256 + e3 * 16 + e4;
                                            if 0xdc00 <= m <= 0xdfff {
                                                match p_str_body(s, i + 12) {
                                                    Some((rest, end)) => Some(
                                                        (seq![
                                                            scalar_char(
                                                                (0x10000 + (n - 0xd800) * 0x400 + (
                                                                m - 0xdc00)) as nat,
                                                            ),
                                                        ] + rest, end),
                                                    ),
                                                    None => None,
                                                }
                                            } else {
                                                None
                                            }
                                        }
                                        _ => None,
                                    }
                                } else {
                                    None
                                }
                            } else {
                                None
                            }
                        }
                        _ => None,
                    }
                } else {
                    None
                }
            } else {
                match unesc_char(s[i + 1]) {
                    Some(u) => match p_str_body(s, i + 2) {
                        Some((rest, end)) => Some((seq![u] + rest, end)),
                        None => None,
                    },
                    None => None,
                }
            }
        } else {
            None
        }
    } else {
        match p_str_body(s, i + 1) {
            Some((rest, end)) => Some((seq![s[i]] + rest, end)),
            None => None,
        }
    }
}

/// Where a string body ends: past `i`, within the text.
pub proof fn lemma_p_str_body_range(s: Seq<char>, i: int)
    requires
        0 <= i,
    ensures
        match p_str_body(s, i) {
            Some((body, end)) => i < end <= s.len(),
            None => true,
        },
    decreases s.len() - i,
{
    if 0 <= i < s.len() {
        if s[i] == '"' {
        } else if s[i] == '\\' {
            if i + 1 < s.len() {
                if s[i + 1] == 'u' {
                    if i + 6 <= s.len() {
                        lemma_p_str_body_range(s, i + 6);
                        if i + 12 <= s.len() {
                            lemma_p_str_body_range(s, i + 12);
                        }
                    }
                } else {
                    lemma_p_str_body_range(s, i + 2);
                }
            }
        } else {
            lemma_p_str_body_range(s, i + 1);
        }
    }
}

/// Parse one value at `i`, whitespace before it allowed.
pub open spec fn p_value(s: Seq<char>, i: int) -> Option<(JVal, int)>
    decreases s.len() - i, 0int,
    via p_value_dec
{
    if !(0 <= i <= s.len()) {
        None
    } else {
        let j = skip_ws(s, i);
        if j >= s.len() {
            None
        } else if s[j] == 'n' {
            if starts_with(s.skip(j), seq!['n', 'u', 'l', 'l']) {
                Some((JVal::Null, j + 4))
            } else {
                None
            }
        } else if s[j] == 't' {
            if starts_with(s.skip(j), seq!['t', 'r', 'u', 'e']) {
                Some((JVal::Bool(true), j + 4))
            } else {
                None
            }
        } else if s[j] == 'f' {
            if starts_with(s.skip(j), seq!['f', 'a', 'l', 's', 'e']) {
                Some((JVal::Bool(false), j + 5))
            } else {
                None
            }
        } else if s[j] == '"' {
            match p_str_body(s, j + 1) {
                Some((body, end)) => Some((JVal::Str(body), end)),
                None => None,
            }
        } else if s[j] == '[' {
            match p_arr_items(s, j + 1, true) {
                Some((items, end)) => Some((JVal::Arr(items), end)),
                None => None,
            }
        } else if s[j] == '{' {
            match p_obj_fields(s, j + 1, true) {
                Some((fields, end)) => Some((JVal::Obj(fields), end)),
                None => None,
            }
        } else {
            p_number(s, j)
        }
    }
}

/// Parse the items of an array at `i` (the opening bracket already
/// consumed): either the closing bracket, or — a comma first unless
/// this is the first item — one value, then the rest.
pub open spec fn p_arr_items(s: Seq<char>, i: int, first: bool) -> Option<(Seq<JVal>, int)>
    decreases s.len() - i, 1int,
    via p_arr_items_dec
{
    if !(0 <= i <= s.len()) {
        None
    } else {
        let j = skip_ws(s, i);
        if j >= s.len() {
            None
        } else if s[j] == ']' {
            Some((Seq::empty(), j + 1))
        } else {
            let k = if first {
                j
            } else if s[j] == ',' {
                j + 1
            } else {
                -1
            };
            if k < 0 {
                None
            } else {
                match p_value(s, k) {
                    Some((v, end)) => if k < end && end <= s.len() {
                        match p_arr_items(s, end, false) {
                            Some((rest, e2)) => Some((seq![v] + rest, e2)),
                            None => None,
                        }
                    } else {
                        None
                    },
                    None => None,
                }
            }
        }
    }
}

/// Parse the fields of an object at `i` (the opening brace already
/// consumed): either the closing brace, or — a comma first unless this
/// is the first field — a quoted name, a colon, a value, then the rest.
pub open spec fn p_obj_fields(s: Seq<char>, i: int, first: bool) -> Option<
    (Seq<(Seq<char>, JVal)>, int),
>
    decreases s.len() - i, 1int,
    via p_obj_fields_dec
{
    if !(0 <= i <= s.len()) {
        None
    } else {
        let j = skip_ws(s, i);
        if j >= s.len() {
            None
        } else if s[j] == '}' {
            Some((Seq::empty(), j + 1))
        } else {
            let k = if first {
                j
            } else if s[j] == ',' {
                skip_ws(s, j + 1)
            } else {
                -1
            };
            if k < 0 || k >= s.len() {
                None
            } else if s[k] != '"' {
                None
            } else {
                match p_str_body(s, k + 1) {
                    Some((key, kend)) => if k + 1 < kend && kend <= s.len() {
                        let c = skip_ws(s, kend);
                        if c < s.len() && s[c] == ':' {
                            match p_value(s, c + 1) {
                                Some((v, end)) => if c < end && end <= s.len() {
                                    match p_obj_fields(s, end, false) {
                                        Some((rest, e2)) => Some((seq![(key, v)] + rest, e2)),
                                        None => None,
                                    }
                                } else {
                                    None
                                },
                                None => None,
                            }
                        } else {
                            None
                        }
                    } else {
                        None
                    },
                    None => None,
                }
            }
        }
    }
}

#[via_fn]
proof fn p_value_dec(s: Seq<char>, i: int) {
    if 0 <= i <= s.len() {
        lemma_skip_ws(s, i);
    }
}

#[via_fn]
proof fn p_arr_items_dec(s: Seq<char>, i: int, first: bool) {
    if 0 <= i <= s.len() {
        lemma_skip_ws(s, i);
    }
}

#[via_fn]
proof fn p_obj_fields_dec(s: Seq<char>, i: int, first: bool) {
    if 0 <= i <= s.len() {
        lemma_skip_ws(s, i);
        let j = skip_ws(s, i);
        if j < s.len() && s[j] != '}' {
            if !first && s[j] == ',' {
                lemma_skip_ws(s, j + 1);
            }
            let k = if first { j } else if s[j] == ',' { skip_ws(s, j + 1) } else { -1 };
            if 0 <= k < s.len() && s[k] == '"' {
                match p_str_body(s, k + 1) {
                    Some((key, kend)) => {
                        if k + 1 < kend && kend <= s.len() {
                            lemma_skip_ws(s, kend);
                        }
                    }
                    None => {}
                }
            }
        }
    }
}

/// The first non-whitespace position at or after `i`.
#[verifier::loop_isolation(false)]
pub fn skip_ws_exec(s: &Vec<char>, i: usize) -> (r: usize)
    requires
        i <= s@.len(),
    ensures
        r as int == skip_ws(s@, i as int),
        i <= r <= s@.len(),
        r < s@.len() ==> !is_ws(s@[r as int]),
{
    proof {
        lemma_skip_ws(s@, i as int);
    }
    let mut k: usize = i;
    while k < s.len() && (s[k] == ' ' || s[k] == '\t' || s[k] == '\r' || s[k] == '\n')
        invariant
            i <= k <= s@.len(),
            skip_ws(s@, i as int) == skip_ws(s@, k as int),
        decreases s@.len() - k,
    {
        k = k + 1;
    }
    k
}

/// Whether `c` is a decimal digit.
fn is_digit_exec(c: char) -> (r: bool)
    ensures
        r == is_digit(c),
{
    let u = c as u32;
    48 <= u && u <= 57
}

/// The value of a hexadecimal digit, if `c` is one.
fn hex_val_exec(c: char) -> (r: Option<u32>)
    ensures
        match r {
            Some(v) => hex_val(c) == Some(v as nat) && v < 16,
            None => hex_val(c) is None,
        },
{
    let u = c as u32;
    if 48 <= u && u <= 57 {
        Some(u - 48)
    } else if 97 <= u && u <= 102 {
        Some(u - 87)
    } else if 65 <= u && u <= 70 {
        Some(u - 55)
    } else {
        None
    }
}

/// Accumulate the run of digits starting at `i`: its value where that
/// fits 64 bits, and the position after the run.
#[verifier::loop_isolation(false)]
fn p_digits_exec(s: &Vec<char>, i: usize) -> (r: (Option<u64>, usize))
    requires
        i <= s@.len(),
    ensures
        r.1 as int == p_digits(s@, i as int, 0).1,
        i <= r.1 <= s@.len(),
        match r.0 {
            Some(v) => v as nat == p_digits(s@, i as int, 0).0,
            None => p_digits(s@, i as int, 0).0 > u64::MAX,
        },
{
    proof {
        lemma_p_digits_range(s@, i as int, 0);
    }
    let mut k: usize = i;
    let mut acc: Option<u64> = Some(0);
    let ghost mut gacc: nat = 0nat;
    while k < s.len() && is_digit_exec(s[k])
        invariant
            i <= k <= s@.len(),
            p_digits(s@, i as int, 0) == p_digits(s@, k as int, gacc),
            match acc {
                Some(v) => v as nat == gacc,
                None => gacc > u64::MAX,
            },
        decreases s@.len() - k,
    {
        let d: u64 = ((s[k] as u32) - 48) as u64;
        proof {
            assert(is_digit(s@[k as int]));
            assert(d as nat == digit_val(s@[k as int]));
        }
        let ghost gacc2: nat = gacc * 10 + d as nat;
        acc = match acc {
            Some(v) => {
                if v <= (u64::MAX - d) / 10 {
                    proof {
                        assert(v * 10 + d <= u64::MAX) by (nonlinear_arith)
                            requires
                                v <= (u64::MAX - d) / 10,
                                d <= 9,
                        ;
                    }
                    Some(v * 10 + d)
                } else {
                    proof {
                        assert(v * 10 + d > u64::MAX) by (nonlinear_arith)
                            requires
                                v > (u64::MAX - d) / 10,
                                d <= 9,
                        ;
                    }
                    None
                }
            }
            None => {
                proof {
                    assert(gacc * 10 + d >= gacc) by (nonlinear_arith);
                }
                None
            }
        };
        proof {
            gacc = gacc2;
        }
        k = k + 1;
    }
    (acc, k)
}

/// The number lexeme `s[a..b]` kept as text.
fn numtext_of(s: &Vec<char>, a: usize, b: usize) -> (r: JsonValue)
    requires
        a <= b <= s@.len(),
    ensures
        r@ == JVal::NumText(s@.subrange(a as int, b as int)),
{
    let cs = crate::strutil::subvec(s, a, b);
    JsonValue::NumText(crate::strutil::chars_to_string(&cs))
}

/// The end of an exponent part standing at `m`, if well formed.
fn exp_end_exec(s: &Vec<char>, m: usize) -> (r: Option<usize>)
    requires
        m <= s@.len(),
    ensures
        match r {
            Some(e) => exp_end(s@, m as int) == Some(e as int) && m <= e <= s@.len(),
            None => exp_end(s@, m as int) is None,
        },
{
    if m < s.len() && (s[m] == 'e' || s[m] == 'E') {
        let j: usize = if m + 1 < s.len() && (s[m + 1] == '+' || s[m + 1] == '-') {
            m + 2
        } else {
            m + 1
        };
        if j < s.len() && is_digit_exec(s[j]) {
            proof {
                lemma_p_digits_range(s@, j as int, 0);
            }
            let (_, e) = p_digits_exec(s, j);
            Some(e)
        } else {
            None
        }
    } else {
        Some(m)
    }
}

/// The end of the fraction-and-exponent tail at `k`, if well formed.
fn frac_exp_end_exec(s: &Vec<char>, k: usize) -> (r: Option<usize>)
    requires
        k <= s@.len(),
    ensures
        match r {
            Some(e) => frac_exp_end(s@, k as int) == Some(e as int) && k <= e <= s@.len(),
            None => frac_exp_end(s@, k as int) is None,
        },
{
    if k < s.len() && s[k] == '.' {
        if k + 1 < s.len() && is_digit_exec(s[k + 1]) {
            proof {
                lemma_p_digits_range(s@, k as int + 1, 0);
            }
            let (_, fe) = p_digits_exec(s, k + 1);
            exp_end_exec(s, fe)
        } else {
            None
        }
    } else {
        exp_end_exec(s, k)
    }
}

/// Parse a number at `i`.
fn p_number_exec(s: &Vec<char>, i: usize) -> (r: Option<(JsonValue, usize)>)
    requires
        i <= s@.len(),
    ensures
        match r {
            Some((v, end)) => p_number(s@, i as int) == Some((v@, end as int)) && i < end
                <= s@.len(),
            None => p_number(s@, i as int) is None,
        },
{
    proof {
        lemma_p_number_range(s@, i as int);
    }
    let neg = i < s.len() && s[i] == '-';
    let j: usize = if neg { i + 1 } else { i };
    if !(j < s.len() && is_digit_exec(s[j])) {
        return None;
    }
    let (vo, int_end) = if s[j] == '0' {
        (Some(0u64), j + 1)
    } else {
        p_digits_exec(s, j)
    };
    match frac_exp_end_exec(s, int_end) {
        None => None,
        Some(end) => {
            if end == int_end {
                if neg {
                    match vo {
                        Some(v) => {
                            if v <= 9223372036854775808u64 {
                                let x: i64 = if v == 9223372036854775808u64 {
                                    i64::MIN
                                } else {
                                    -(v as i64)
                                };
                                Some((JsonValue::Int(x), end))
                            } else {
                                Some((numtext_of(s, i, end), end))
                            }
                        }
                        None => Some((numtext_of(s, i, end), end)),
                    }
                } else {
                    match vo {
                        Some(v) => {
                            if v <= 9223372036854775807u64 {
                                Some((JsonValue::Int(v as i64), end))
                            } else {
                                Some((numtext_of(s, i, end), end))
                            }
                        }
                        None => Some((numtext_of(s, i, end), end)),
                    }
                }
            } else {
                Some((numtext_of(s, i, end), end))
            }
        }
    }
}

/// Relies on char::from_u32: the character of a Unicode scalar value,
/// and nothing for a surrogate or a number past the last scalar.
#[verifier::external_body]
fn char_of_scalar(n: u32) -> (r: Option<char>)
    ensures
        match r {
            Some(c) => (c as u32) == n,
            None => !vstd::utf8::is_scalar(n),
        },
{
    char::from_u32(n)
}

/// Parse a string body at `i` (the opening quote already consumed).
fn p_str_body_exec(s: &Vec<char>, i: usize) -> (r: Option<(Vec<char>, usize)>)
    requires
        i <= s@.len(),
    ensures
        match r {
            Some((body, end)) => p_str_body(s@, i as int) == Some((body@, end as int)) && i < end
                <= s@.len(),
            None => p_str_body(s@, i as int) is None,
        },
    decreases s@.len() - i,
{
    proof {
        lemma_p_str_body_range(s@, i as int);
    }
    if i >= s.len() {
        return None;
    }
    if s[i] == '"' {
        let out: Vec<char> = Vec::new();
        return Some((out, i + 1));
    }
    if s[i] == '\\' {
        if i + 1 < s.len() {
            if s[i + 1] == 'u' {
                if s.len() >= 6 && i <= s.len() - 6 {
                    let d1 = hex_val_exec(s[i + 2]);
                    let d2 = hex_val_exec(s[i + 3]);
                    let d3 = hex_val_exec(s[i + 4]);
                    let d4 = hex_val_exec(s[i + 5]);
                    match (d1, d2, d3, d4) {
                        (Some(a), Some(b), Some(c), Some(d)) => {
                            let n: u32 = a * 4096 + b * 256 + c * 16 + d;
                            if n < 0xd800 || n > 0xdfff {
                                let ch = match char_of_scalar(n) {
                                    Some(ch) => ch,
                                    None => {
                                        proof {
                                            assert(vstd::utf8::is_scalar(n));
                                        }
                                        return None;
                                    }
                                };
                                proof {
                                    vstd::utf8::char_u32_cast(ch, n);
                                    assert(ch == scalar_char(n as nat));
                                }
                                match p_str_body_exec(s, i + 6) {
                                    Some((mut rest, end)) => {
                                        rest.insert(0, ch);
                                        proof {
                                            assert(rest@ =~= seq![ch] + rest@.skip(1));
                                        }
                                        Some((rest, end))
                                    }
                                    None => None,
                                }
                            } else if n < 0xdc00 {
                                if s.len() >= 12 && i <= s.len() - 12 && s[i + 6] == '\\'
                                    && s[i + 7] == 'u' {
                                    let e1 = hex_val_exec(s[i + 8]);
                                    let e2 = hex_val_exec(s[i + 9]);
                                    let e3 = hex_val_exec(s[i + 10]);
                                    let e4 = hex_val_exec(s[i + 11]);
                                    match (e1, e2, e3, e4) {
                                        (Some(f1), Some(f2), Some(f3), Some(f4)) => {
                                            let m: u32 = f1 * 4096 + f2 * 256 + f3 * 16 + f4;
                                            if 0xdc00 <= m && m <= 0xdfff {
                                                let pt: u32 = 0x10000 + (n - 0xd800) * 0x400 + (m
                                                    - 0xdc00);
                                                let ch = match char_of_scalar(pt) {
                                                    Some(ch) => ch,
                                                    None => {
                                                        proof {
                                                            assert(vstd::utf8::is_scalar(pt));
                                                        }
                                                        return None;
                                                    }
                                                };
                                                proof {
                                                    vstd::utf8::char_u32_cast(ch, pt);
                                                    assert(ch == scalar_char(pt as nat));
                                                }
                                                match p_str_body_exec(s, i + 12) {
                                                    Some((mut rest, end)) => {
                                                        rest.insert(0, ch);
                                                        proof {
                                                            assert(rest@ =~= seq![ch]
                                                                + rest@.skip(1));
                                                        }
                                                        Some((rest, end))
                                                    }
                                                    None => None,
                                                }
                                            } else {
                                                None
                                            }
                                        }
                                        _ => None,
                                    }
                                } else {
                                    None
                                }
                            } else {
                                None
                            }
                        }
                        _ => None,
                    }
                } else {
                    None
                }
            } else {
                let u = match s[i + 1] {
                    '"' => Some('"'),
                    '\\' => Some('\\'),
                    '/' => Some('/'),
                    'n' => Some('\n'),
                    'r' => Some('\r'),
                    't' => Some('\t'),
                    'b' => Some('\u{8}'),
                    'f' => Some('\u{c}'),
                    _ => None,
                };
                match u {
                    Some(c) => match p_str_body_exec(s, i + 2) {
                        Some((mut rest, end)) => {
                            rest.insert(0, c);
                            proof {
                                assert(rest@ =~= seq![c] + rest@.skip(1));
                            }
                            Some((rest, end))
                        }
                        None => None,
                    },
                    None => None,
                }
            }
        } else {
            None
        }
    } else {
        match p_str_body_exec(s, i + 1) {
            Some((mut rest, end)) => {
                let c = s[i];
                rest.insert(0, c);
                proof {
                    assert(rest@ =~= seq![c] + rest@.skip(1));
                }
                Some((rest, end))
            }
            None => None,
        }
    }
}

/// Parse one value at `i`, whitespace before it allowed.
pub fn p_value_exec(s: &Vec<char>, i: usize) -> (r: Option<(JsonValue, usize)>)
    requires
        i <= s@.len(),
    ensures
        match r {
            Some((v, end)) => p_value(s@, i as int) == Some((v@, end as int)) && i < end
                <= s@.len(),
            None => p_value(s@, i as int) is None,
        },
    decreases s@.len() - i, 0int,
{
    let j = skip_ws_exec(s, i);
    if j >= s.len() {
        return None;
    }
    if s[j] == 'n' {
        let mut p: Vec<char> = Vec::new();
        p.push('n');
        p.push('u');
        p.push('l');
        p.push('l');
        proof {
            assert(p@ =~= seq!['n', 'u', 'l', 'l']);
        }
        if crate::strutil::match_at(s, &p, j) {
            Some((JsonValue::Null, j + 4))
        } else {
            None
        }
    } else if s[j] == 't' {
        let mut p: Vec<char> = Vec::new();
        p.push('t');
        p.push('r');
        p.push('u');
        p.push('e');
        proof {
            assert(p@ =~= seq!['t', 'r', 'u', 'e']);
        }
        if crate::strutil::match_at(s, &p, j) {
            Some((JsonValue::Bool(true), j + 4))
        } else {
            None
        }
    } else if s[j] == 'f' {
        let mut p: Vec<char> = Vec::new();
        p.push('f');
        p.push('a');
        p.push('l');
        p.push('s');
        p.push('e');
        proof {
            assert(p@ =~= seq!['f', 'a', 'l', 's', 'e']);
        }
        if crate::strutil::match_at(s, &p, j) {
            Some((JsonValue::Bool(false), j + 5))
        } else {
            None
        }
    } else if s[j] == '"' {
        match p_str_body_exec(s, j + 1) {
            Some((body, end)) => Some((JsonValue::Str(crate::strutil::chars_to_string(&body)), end)),
            None => None,
        }
    } else if s[j] == '[' {
        match p_arr_items_exec(s, j + 1, true) {
            Some((items, end)) => Some((JsonValue::Arr(items), end)),
            None => None,
        }
    } else if s[j] == '{' {
        match p_obj_fields_exec(s, j + 1, true) {
            Some((fields, end)) => Some((JsonValue::Obj(fields), end)),
            None => None,
        }
    } else {
        p_number_exec(s, j)
    }
}

/// Parse the items of an array at `i` (the opening bracket already
/// consumed).
fn p_arr_items_exec(s: &Vec<char>, i: usize, first: bool) -> (r: Option<(Vec<JsonValue>, usize)>)
    requires
        i <= s@.len(),
    ensures
        match r {
            Some((items, end)) => p_arr_items(s@, i as int, first)
                == Some((JsonValue::models_of(items@), end as int)) && i <= end <= s@.len(),
            None => p_arr_items(s@, i as int, first) is None,
        },
    decreases s@.len() - i, 1int,
{
    broadcast use crate::json::lemma_models_of_index;
    let j = skip_ws_exec(s, i);
    if j >= s.len() {
        return None;
    }
    if s[j] == ']' {
        let out: Vec<JsonValue> = Vec::new();
        proof {
            assert(JsonValue::models_of(out@) =~= Seq::<JVal>::empty());
        }
        return Some((out, j + 1));
    }
    let k: usize = if first {
        j
    } else if s[j] == ',' {
        j + 1
    } else {
        return None;
    };
    match p_value_exec(s, k) {
        Some((v, end)) => {
            if k < end && end <= s.len() {
                match p_arr_items_exec(s, end, false) {
                    Some((mut rest, e2)) => {
                        rest.insert(0, v);
                        proof {
                            assert(JsonValue::models_of(rest@)
                                =~= seq![rest@[0]@] + JsonValue::models_of(rest@.skip(1)));
                        }
                        Some((rest, e2))
                    }
                    None => None,
                }
            } else {
                None
            }
        }
        None => None,
    }
}

/// Parse the fields of an object at `i` (the opening brace already
/// consumed).
fn p_obj_fields_exec(s: &Vec<char>, i: usize, first: bool) -> (r: Option<
    (Vec<(String, JsonValue)>, usize),
>)
    requires
        i <= s@.len(),
    ensures
        match r {
            Some((fields, end)) => p_obj_fields(s@, i as int, first)
                == Some((JsonValue::field_models_of(fields@), end as int)) && i <= end <= s@.len(),
            None => p_obj_fields(s@, i as int, first) is None,
        },
    decreases s@.len() - i, 1int,
{
    broadcast use crate::json::lemma_field_models_of_index;
    let j = skip_ws_exec(s, i);
    if j >= s.len() {
        return None;
    }
    if s[j] == '}' {
        let out: Vec<(String, JsonValue)> = Vec::new();
        proof {
            assert(JsonValue::field_models_of(out@) =~= Seq::<(Seq<char>, JVal)>::empty());
        }
        return Some((out, j + 1));
    }
    let k: usize = if first {
        j
    } else if s[j] == ',' {
        skip_ws_exec(s, j + 1)
    } else {
        return None;
    };
    if k >= s.len() {
        return None;
    }
    if s[k] != '"' {
        return None;
    }
    match p_str_body_exec(s, k + 1) {
        Some((key, kend)) => {
            if k + 1 < kend && kend <= s.len() {
                let c = skip_ws_exec(s, kend);
                if c < s.len() && s[c] == ':' {
                    match p_value_exec(s, c + 1) {
                        Some((v, end)) => {
                            if c < end && end <= s.len() {
                                match p_obj_fields_exec(s, end, false) {
                                    Some((mut rest, e2)) => {
                                        let ks = crate::strutil::chars_to_string(&key);
                                        rest.insert(0, (ks, v));
                                        proof {
                                            assert(JsonValue::field_models_of(rest@)
                                                =~= seq![(rest@[0].0@, rest@[0].1@)]
                                                + JsonValue::field_models_of(rest@.skip(1)));
                                        }
                                        Some((rest, e2))
                                    }
                                    None => None,
                                }
                            } else {
                                None
                            }
                        }
                        None => None,
                    }
                } else {
                    None
                }
            } else {
                None
            }
        }
        None => None,
    }
}

/// The value of a number lexeme that is a plain unsigned 64-bit
/// integer: a nonempty digit run and nothing else, within range.
pub open spec fn numtext_u64(t: Seq<char>) -> Option<u64> {
    if t.len() > 0 && is_digit(t[0]) {
        let (v, end) = p_digits(t, 0, 0);
        if end == t.len() && v <= 0xffffffffffffffff {
            Some(v as u64)
        } else {
            None
        }
    } else {
        None
    }
}

/// Read a number lexeme back as a plain unsigned 64-bit integer, where
/// it is one.
pub fn numtext_u64_exec(t: &str) -> (r: Option<u64>)
    ensures
        r == numtext_u64(t@),
{
    let cs = crate::strutil::str_to_chars(t);
    if cs.len() == 0 {
        return None;
    }
    if !is_digit_exec(cs[0]) {
        return None;
    }
    let (vo, end) = p_digits_exec(&cs, 0);
    if end == cs.len() {
        vo
    } else {
        None
    }
}

/// Parse a whole text as one document: one value, with nothing but
/// whitespace after it.
pub fn parse_text(s: &str) -> (r: Option<JsonValue>)
    ensures
        match r {
            Some(v) => spec_parse_text(s@) == Some(v@),
            None => spec_parse_text(s@) is None,
        },
{
    let cs = crate::strutil::str_to_chars(s);
    match p_value_exec(&cs, 0) {
        Some((v, end)) => {
            let j = skip_ws_exec(&cs, end);
            if j == cs.len() {
                Some(v)
            } else {
                None
            }
        }
        None => None,
    }
}

/// Parse a whole text as one document: one value, with nothing but
/// whitespace after it.
pub open spec fn spec_parse_text(s: Seq<char>) -> Option<JVal> {
    match p_value(s, 0) {
        Some((v, end)) => if 0 <= end <= s.len() && skip_ws(s, end) == s.len() {
            Some(v)
        } else {
            None
        },
        None => None,
    }
}

} // verus!
