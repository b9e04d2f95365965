//! Small string helpers shared by the whole crate.

use vstd::prelude::*;

verus! {

/// Whether two string slices hold the same characters.
pub fn str_eq(a: &str, b: &str) -> (r: bool)
    ensures
        r == (a@ == b@),
{
    let sa = String::from_str(a);
    let sb = String::from_str(b);
    sa == sb
}

/// Whether `c` is one of the four whitespace characters of the JSON
/// grammar.
pub open spec fn is_ws(c: char) -> bool {
    c == ' ' || c == '\t' || c == '\r' || c == '\n'
}

/// Whether `c` is Unicode whitespace: the characters of the Unicode
/// White_Space property, any of which may pad a documentation line.
pub open spec fn is_uws(c: char) -> bool {
    let u = c as u32;
    ||| u == 0x09
    ||| u == 0x0a
    ||| u == 0x0b
    ||| u == 0x0c
    ||| u == 0x0d
    ||| u == 0x20
    ||| u == 0x85
    ||| u == 0xa0
    ||| u == 0x1680
    ||| (0x2000 <= u && u <= 0x200a)
    ||| u == 0x2028
    ||| u == 0x2029
    ||| u == 0x202f
    ||| u == 0x205f
    ||| u == 0x3000
}

/// Whether `c` is Unicode whitespace.
pub fn is_uws_exec(c: char) -> (r: bool)
    ensures
        r == is_uws(c),
{
    let u = c as u32;
    u == 0x09 || u == 0x0a || u == 0x0b || u == 0x0c || u == 0x0d || u == 0x20 || u == 0x85
        || u == 0xa0 || u == 0x1680 || (0x2000 <= u && u <= 0x200a) || u == 0x2028
        || u == 0x2029 || u == 0x202f || u == 0x205f || u == 0x3000
}

/// Whether `s` begins with `p`.
pub open spec fn starts_with(s: Seq<char>, p: Seq<char>) -> bool {
    p.len() <= s.len() && s.subrange(0, p.len() as int) == p
}

/// The position of the first occurrence of `p` inside `s`, if any.
pub open spec fn find_sub(s: Seq<char>, p: Seq<char>) -> Option<int>
    decreases s.len(),
{
    if starts_with(s, p) {
        Some(0)
    } else if s.len() == 0 {
        None
    } else {
        match find_sub(s.skip(1), p) {
            Some(i) => Some(i + 1),
            None => None,
        }
    }
}

/// Whether `p` occurs inside `s`.
pub open spec fn contains_sub(s: Seq<char>, p: Seq<char>) -> bool {
    find_sub(s, p) is Some
}

/// What `find_sub` returns: the first position where `p` starts, or
/// nothing when `p` starts nowhere in `s`.
pub proof fn lemma_find_sub(s: Seq<char>, p: Seq<char>)
    ensures
        match find_sub(s, p) {
            Some(i) => 0 <= i <= s.len() && starts_with(s.skip(i), p)
                && forall|j: int| 0 <= j < i ==> !starts_with(s.skip(j), p),
            None => forall|j: int| 0 <= j <= s.len() ==> !starts_with(s.skip(j), p),
        },
    decreases s.len(),
{
    if starts_with(s, p) {
        assert(s.skip(0) =~= s);
    } else if s.len() == 0 {
        assert forall|j: int| 0 <= j <= s.len() implies !starts_with(s.skip(j), p) by {
            assert(s.skip(j) =~= s);
        }
    } else {
        lemma_find_sub(s.skip(1), p);
        assert forall|j: int| 1 <= j <= s.len() implies #[trigger] s.skip(j) == s.skip(1).skip(j - 1) by {
            assert(s.skip(j) =~= s.skip(1).skip(j - 1));
        }
        assert(s.skip(0) =~= s);
    }
}

/// The position of the first occurrence of `c` in `s`, if any.
pub open spec fn find_char(s: Seq<char>, c: char) -> Option<int>
    decreases s.len(),
{
    if s.len() == 0 {
        None
    } else if s[0] == c {
        Some(0)
    } else {
        match find_char(s.skip(1), c) {
            Some(i) => Some(i + 1),
            None => None,
        }
    }
}

/// What `find_char` returns: the first position holding `c`, or nothing
/// when `c` does not occur in `s`.
pub proof fn lemma_find_char(s: Seq<char>, c: char)
    ensures
        match find_char(s, c) {
            Some(i) => 0 <= i < s.len() && s[i] == c
                && forall|j: int| 0 <= j < i ==> s[j] != c,
            None => forall|j: int| 0 <= j < s.len() ==> s[j] != c,
        },
    decreases s.len(),
{
    if s.len() == 0 {
    } else if s[0] == c {
    } else {
        lemma_find_char(s.skip(1), c);
        match find_char(s.skip(1), c) {
            Some(i) => {
                assert(s[i + 1] == s.skip(1)[i]);
                assert forall|j: int| 0 <= j < i + 1 implies s[j] != c by {
                    if j >= 1 {
                        assert(s[j] == s.skip(1)[j - 1]);
                    }
                }
            }
            None => {
                assert forall|j: int| 0 <= j < s.len() implies s[j] != c by {
                    if j >= 1 {
                        assert(s[j] == s.skip(1)[j - 1]);
                    }
                }
            }
        }
    }
}

/// A found position with nothing earlier pins `find_char` down.
pub proof fn lemma_find_char_is(s: Seq<char>, c: char, i: int)
    requires
        0 <= i < s.len(),
        s[i] == c,
        forall|j: int| 0 <= j < i ==> s[j] != c,
    ensures
        find_char(s, c) == Some(i),
{
    lemma_find_char(s, c);
    match find_char(s, c) {
        Some(fi) => {
            assert(!(fi < i));
            assert(!(i < fi));
        }
        None => {
            assert(false);
        }
    }
}

/// A character that occurs nowhere makes `find_char` return nothing.
pub proof fn lemma_find_char_none(s: Seq<char>, c: char)
    requires
        forall|j: int| 0 <= j < s.len() ==> s[j] != c,
    ensures
        find_char(s, c) is None,
{
    lemma_find_char(s, c);
    if find_char(s, c) is Some {
        assert(false);
    }
}

/// `s` without its leading Unicode whitespace.
pub open spec fn trim_start_ws(s: Seq<char>) -> Seq<char>
    decreases s.len(),
{
    if s.len() > 0 && is_uws(s[0]) {
        trim_start_ws(s.skip(1))
    } else {
        s
    }
}

/// `s` without its trailing Unicode whitespace.
pub open spec fn trim_end_ws(s: Seq<char>) -> Seq<char>
    decreases s.len(),
{
    if s.len() > 0 && is_uws(s.last()) {
        trim_end_ws(s.drop_last())
    } else {
        s
    }
}

/// `s` without leading or trailing Unicode whitespace.
pub open spec fn trim_ws(s: Seq<char>) -> Seq<char> {
    trim_end_ws(trim_start_ws(s))
}

/// `s` without every leading character drawn from `cs`.
pub open spec fn trim_start_any(s: Seq<char>, cs: Seq<char>) -> Seq<char>
    decreases s.len(),
{
    if s.len() > 0 && cs.contains(s[0]) {
        trim_start_any(s.skip(1), cs)
    } else {
        s
    }
}

/// `s` without every leading repetition of the string `p`.
pub open spec fn trim_start_prefix(s: Seq<char>, p: Seq<char>) -> Seq<char>
    decreases s.len(),
{
    if p.len() > 0 && starts_with(s, p) {
        trim_start_prefix(s.skip(p.len() as int), p)
    } else {
        s
    }
}

/// Dropping leading whitespace drops exactly the longest whitespace prefix.
pub proof fn lemma_trim_start_ws_skip(s: Seq<char>, k: int)
    requires
        0 <= k <= s.len(),
        forall|j: int| 0 <= j < k ==> is_uws(s[j]),
        k == s.len() || !is_uws(s[k]),
    ensures
        trim_start_ws(s) == s.skip(k),
    decreases k,
{
    if k == 0 {
        assert(s.skip(0) =~= s);
    } else {
        lemma_trim_start_ws_skip(s.skip(1), k - 1);
        assert(s.skip(1).skip(k - 1) =~= s.skip(k));
    }
}

/// Dropping trailing whitespace drops exactly the longest whitespace suffix.
pub proof fn lemma_trim_end_ws_take(s: Seq<char>, k: int)
    requires
        0 <= k <= s.len(),
        forall|j: int| k <= j < s.len() ==> is_uws(s[j]),
        k == 0 || !is_uws(s[k - 1]),
    ensures
        trim_end_ws(s) == s.take(k),
    decreases s.len() - k,
{
    if k == s.len() {
        assert(s.take(k) =~= s);
        if s.len() > 0 && is_uws(s.last()) {
            lemma_trim_end_ws_take(s.drop_last(), k - 1);
            assert(s.drop_last().take(k - 1) =~= s.take(k - 1));
            assert(s.take(k - 1) =~= s.take(k).drop_last());
            assert(trim_end_ws(s) == s.take(k).drop_last());
            assert(false);
        }
    } else {
        lemma_trim_end_ws_take(s.drop_last(), k);
        assert(s.drop_last().take(k) =~= s.take(k));
    }
}

/// Dropping leading characters of `cs` drops exactly the longest such prefix.
pub proof fn lemma_trim_start_any_skip(s: Seq<char>, cs: Seq<char>, k: int)
    requires
        0 <= k <= s.len(),
        forall|j: int| 0 <= j < k ==> cs.contains(s[j]),
        k == s.len() || !cs.contains(s[k]),
    ensures
        trim_start_any(s, cs) == s.skip(k),
    decreases k,
{
    if k == 0 {
        assert(s.skip(0) =~= s);
    } else {
        lemma_trim_start_any_skip(s.skip(1), cs, k - 1);
        assert(s.skip(1).skip(k - 1) =~= s.skip(k));
    }
}

/// A copy of `s[a..b]`.
pub fn subvec(s: &Vec<char>, a: usize, b: usize) -> (r: Vec<char>)
    requires
        a <= b <= s@.len(),
    ensures
        r@ == s@.subrange(a as int, b as int),
{
    let mut r: Vec<char> = Vec::new();
    let mut i: usize = a;
    while i < b
        invariant
            a <= i <= b <= s@.len(),
            r@ =~= s@.subrange(a as int, i as int),
        decreases b - i,
    {
        r.push(s[i]);
        proof {
            assert(r@ =~= s@.subrange(a as int, i + 1));
        }
        i = i + 1;
    }
    r
}

/// Whether `p` starts at position `i` of `s`.
#[verifier::loop_isolation(false)]
pub fn match_at(s: &Vec<char>, p: &Vec<char>, i: usize) -> (r: bool)
    requires
        i <= s@.len(),
    ensures
        r == starts_with(s@.skip(i as int), p@),
{
    if p.len() > s.len() - i {
        return false;
    }
    let mut j: usize = 0;
    while j < p.len()
        invariant
            0 <= j <= p@.len(),
            i + p@.len() <= s@.len(),
            forall|k: int| 0 <= k < j ==> s@[i + k] == p@[k],
        decreases p@.len() - j,
    {
        if s[i + j] != p[j] {
            proof {
                assert(s@.skip(i as int).subrange(0, p@.len() as int)[j as int] != p@[j as int]);
            }
            return false;
        }
        j = j + 1;
    }
    proof {
        assert(s@.skip(i as int).subrange(0, p@.len() as int) =~= p@);
    }
    true
}

/// The first position where `p` occurs in `s`, if any.
#[verifier::loop_isolation(false)]
pub fn find_sub_vec(s: &Vec<char>, p: &Vec<char>) -> (r: Option<usize>)
    ensures
        match r {
            Some(i) => find_sub(s@, p@) == Some(i as int),
            None => find_sub(s@, p@) is None,
        },
{
    proof {
        lemma_find_sub(s@, p@);
    }
    if p.len() == 0 {
        proof {
            assert(s@.subrange(0, 0) =~= p@);
        }
        return Some(0);
    }
    let mut i: usize = 0;
    while i < s.len()
        invariant
            0 <= i <= s@.len(),
            forall|j: int| 0 <= j < i ==> !starts_with(s@.skip(j), p@),
        decreases s@.len() - i,
    {
        if match_at(s, p, i) {
            proof {
                match find_sub(s@, p@) {
                    Some(fi) => {
                        assert(!(fi < i));
                        assert(!(i < fi));
                    }
                    None => {
                        assert(false);
                    }
                }
            }
            return Some(i);
        }
        i = i + 1;
    }
    proof {
        assert(!starts_with(s@.skip(s@.len() as int), p@));
        if find_sub(s@, p@) is Some {
            assert(false);
        }
    }
    None
}

/// Whether `c` occurs in `cs`.
pub fn contains_char(cs: &Vec<char>, c: char) -> (r: bool)
    ensures
        r == cs@.contains(c),
{
    let mut m: usize = 0;
    while m < cs.len()
        invariant
            0 <= m <= cs@.len(),
            forall|j: int| 0 <= j < m ==> cs@[j] != c,
        decreases cs@.len() - m,
    {
        if cs[m] == c {
            return true;
        }
        m = m + 1;
    }
    false
}

/// The first position at or after `from` holding `c`, if any.
pub fn find_char_from(s: &Vec<char>, from: usize, c: char) -> (r: Option<usize>)
    requires
        from <= s@.len(),
    ensures
        match r {
            Some(i) => from <= i < s@.len() && s@[i as int] == c
                && forall|j: int| from <= j < i ==> s@[j] != c,
            None => forall|j: int| from <= j < s@.len() ==> s@[j] != c,
        },
{
    let mut i: usize = from;
    while i < s.len()
        invariant
            from <= i <= s@.len(),
            forall|j: int| from <= j < i ==> s@[j] != c,
        decreases s@.len() - i,
    {
        if s[i] == c {
            return Some(i);
        }
        i = i + 1;
    }
    None
}

/// `s` without its leading Unicode whitespace.
pub fn trim_start_ws_vec(s: &Vec<char>) -> (r: Vec<char>)
    ensures
        r@ == trim_start_ws(s@),
{
    let mut k: usize = 0;
    while k < s.len() && is_uws_exec(s[k])
        invariant
            0 <= k <= s@.len(),
            forall|j: int| 0 <= j < k ==> is_uws(s@[j]),
        decreases s@.len() - k,
    {
        k = k + 1;
    }
    proof {
        lemma_trim_start_ws_skip(s@, k as int);
        assert(s@.skip(k as int) =~= s@.subrange(k as int, s@.len() as int));
    }
    subvec(s, k, s.len())
}

/// `s` without its trailing Unicode whitespace.
pub fn trim_end_ws_vec(s: &Vec<char>) -> (r: Vec<char>)
    ensures
        r@ == trim_end_ws(s@),
{
    let mut k: usize = s.len();
    while k > 0 && is_uws_exec(s[k - 1])
        invariant
            0 <= k <= s@.len(),
            forall|j: int| k <= j < s@.len() ==> is_uws(s@[j]),
        decreases k,
    {
        k = k - 1;
    }
    proof {
        lemma_trim_end_ws_take(s@, k as int);
        assert(s@.take(k as int) =~= s@.subrange(0, k as int));
    }
    subvec(s, 0, k)
}

/// `s` without leading or trailing Unicode whitespace.
pub fn trim_ws_vec(s: &Vec<char>) -> (r: Vec<char>)
    ensures
        r@ == trim_ws(s@),
{
    let t = trim_start_ws_vec(s);
    trim_end_ws_vec(&t)
}

/// `s` without every leading character drawn from `cs`.
#[verifier::loop_isolation(false)]
pub fn trim_start_any_vec(s: &Vec<char>, cs: &Vec<char>) -> (r: Vec<char>)
    ensures
        r@ == trim_start_any(s@, cs@),
{
    let mut k: usize = 0;
    let mut done = false;
    while !done
        invariant
            0 <= k <= s@.len(),
            forall|j: int| 0 <= j < k ==> cs@.contains(s@[j]),
            done ==> k == s@.len() || !cs@.contains(s@[k as int]),
        decreases s@.len() - k + (if done { 0int } else { 1int }),
    {
        if k >= s.len() {
            done = true;
        } else if contains_char(cs, s[k]) {
            k = k + 1;
        } else {
            done = true;
        }
    }
    proof {
        lemma_trim_start_any_skip(s@, cs@, k as int);
        assert(s@.skip(k as int) =~= s@.subrange(k as int, s@.len() as int));
    }
    subvec(s, k, s.len())
}

/// `s` without every leading repetition of the string `p`.
#[verifier::loop_isolation(false)]
pub fn trim_start_prefix_vec(s: &Vec<char>, p: &Vec<char>) -> (r: Vec<char>)
    ensures
        r@ == trim_start_prefix(s@, p@),
{
    if p.len() == 0 {
        proof {
            assert(s@.subrange(0, s@.len() as int) =~= s@);
        }
        return subvec(s, 0, s.len());
    }
    let mut k: usize = 0;
    let mut done = false;
    proof {
        assert(s@.skip(0) =~= s@);
    }
    while !done
        invariant
            0 <= k <= s@.len(),
            trim_start_prefix(s@, p@) == trim_start_prefix(s@.skip(k as int), p@),
            done ==> !starts_with(s@.skip(k as int), p@),
        decreases s@.len() - k + (if done { 0int } else { 1int }),
    {
        if match_at(s, p, k) {
            let n = s.len();
            proof {
                assert(k + p@.len() <= n);
                assert(s@.skip(k as int).skip(p@.len() as int)
                    =~= s@.skip(k as int + p@.len() as int));
            }
            k = k + p.len();
        } else {
            done = true;
        }
    }
    proof {
        assert(s@.skip(k as int) =~= s@.subrange(k as int, s@.len() as int));
    }
    subvec(s, k, s.len())
}

/// Relies on str::chars: iterating a string yields exactly the characters
/// of its view, in order.
#[verifier::external_body]
pub fn str_to_chars(s: &str) -> (r: Vec<char>)
    ensures
        r@ == s@,
{
    s.chars().collect()
}

/// Relies on String's FromIterator<char>: collecting characters builds the
/// string holding exactly those characters, in order.
#[verifier::external_body]
pub fn chars_to_string(cs: &Vec<char>) -> (r: String)
    ensures
        r@ == cs@,
{
    cs.iter().collect()
}

} // verus!
