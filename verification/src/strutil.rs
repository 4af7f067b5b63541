//! String utilities used throughout the engine: equality, searching,
//! trimming, case folding, and decimal conversion.

use vstd::prelude::*;

use crate::chars::{
    all_digits, dec_digits, dec_val, digit_char, digit_val, is_digit, is_ws, lower_seq,
    spec_lower_char, spec_upper_char, upper_seq, lower_char, upper_char,
    lemma_dec_val_nonneg, lemma_dec_val_prefix,
};

verus! {

/// Relies on `String`'s `FromIterator<char>` implementation: collecting
/// characters yields the string consisting of exactly those characters
/// in order.
#[verifier::external_body]
pub fn string_from_chars(v: &Vec<char>) -> (r: String)
    ensures
        r@ == v@,
{
    v.iter().collect()
}

/// Character-wise string equality.
pub fn eq_str(a: &str, b: &str) -> (r: bool)
    ensures
        r == (a@ == b@),
{
    let na = a.unicode_len();
    let nb = b.unicode_len();
    if na != nb {
        return false;
    }
    let mut i: usize = 0;
    while i < na
        invariant
            0 <= i <= na,
            na == a@.len(),
            na == b@.len(),
            forall|k: int| 0 <= k < i ==> a@[k] == b@[k],
        decreases na - i,
    {
        if a.get_char(i) != b.get_char(i) {
            return false;
        }
        i += 1;
    }
    proof {
        assert(a@ =~= b@);
    }
    true
}

/// Index of the first occurrence of `c` in `s` at or after `i`, or the
/// length of `s` if there is none.
pub open spec fn spec_find(s: Seq<char>, c: char, i: int) -> int
    decreases s.len() - i when 0 <= i <= s.len()
{
    if i < 0 || i >= s.len() {
        s.len() as int
    } else if s[i] == c {
        i
    } else {
        spec_find(s, c, i + 1)
    }
}

/// `spec_find` is determined by the "no earlier occurrence" characterization.
pub proof fn lemma_spec_find(s: Seq<char>, c: char, i: int, j: int)
    requires
        0 <= i <= j <= s.len(),
        forall|k: int| i <= k < j ==> s[k] != c,
        j == s.len() || s[j] == c,
    ensures
        spec_find(s, c, i) == j,
    decreases j - i,
{
    if i < j {
        lemma_spec_find(s, c, i + 1, j);
    }
}

/// Basic bounds on `spec_find`.
pub proof fn lemma_spec_find_bounds(s: Seq<char>, c: char, i: int)
    requires
        0 <= i <= s.len(),
    ensures
        i <= spec_find(s, c, i) <= s.len(),
        spec_find(s, c, i) < s.len() ==> s[spec_find(s, c, i)] == c,
        forall|k: int| i <= k < spec_find(s, c, i) ==> s[k] != c,
    decreases s.len() - i,
{
    if i < s.len() && s[i] != c {
        lemma_spec_find_bounds(s, c, i + 1);
    }
}

/// Executable search for a character.
pub fn find_char(s: &str, c: char, from: usize) -> (r: usize)
    requires
        from <= s@.len(),
    ensures
        r == spec_find(s@, c, from as int),
        from <= r <= s@.len(),
        r < s@.len() ==> s@[r as int] == c,
{
    let n = s.unicode_len();
    let mut j = from;
    while j < n
        invariant
            from <= j <= n,
            n == s@.len(),
            forall|k: int| from <= k < j ==> s@[k] != c,
        decreases n - j,
    {
        if s.get_char(j) == c {
            proof {
                lemma_spec_find(s@, c, from as int, j as int);
            }
            return j;
        }
        j += 1;
    }
    proof {
        lemma_spec_find(s@, c, from as int, n as int);
    }
    n
}

/// The sequence without its leading whitespace.
pub open spec fn spec_trim_front(s: Seq<char>) -> Seq<char>
    decreases s.len(),
{
    if s.len() > 0 && is_ws(s[0]) {
        spec_trim_front(s.drop_first())
    } else {
        s
    }
}

/// The sequence without its trailing whitespace.
pub open spec fn spec_trim_back(s: Seq<char>) -> Seq<char>
    decreases s.len(),
{
    if s.len() > 0 && is_ws(s.last()) {
        spec_trim_back(s.drop_last())
    } else {
        s
    }
}

/// The sequence without leading and trailing whitespace.
pub open spec fn spec_trim(s: Seq<char>) -> Seq<char> {
    spec_trim_back(spec_trim_front(s))
}

pub proof fn lemma_trim_front_skip(s: Seq<char>, a: int)
    requires
        0 <= a <= s.len(),
        forall|k: int| 0 <= k < a ==> is_ws(s[k]),
        a == s.len() || !is_ws(s[a]),
    ensures
        spec_trim_front(s) == s.skip(a),
    decreases a,
{
    if a == 0 {
        assert(s.skip(0) =~= s);
    } else {
        assert(is_ws(s[0]));
        let t = s.drop_first();
        assert(forall|k: int| 0 <= k < a - 1 ==> is_ws(#[trigger] t[k]));
        lemma_trim_front_skip(t, a - 1);
        assert(t.skip(a - 1) =~= s.skip(a));
    }
}

pub proof fn lemma_trim_back_take(s: Seq<char>, b: int)
    requires
        0 <= b <= s.len(),
        forall|k: int| b <= k < s.len() ==> is_ws(s[k]),
        b == 0 || !is_ws(s[b - 1]),
    ensures
        spec_trim_back(s) == s.take(b),
    decreases s.len() - b,
{
    if b == s.len() {
        assert(s.take(b) =~= s);
        if s.len() > 0 {
            assert(!is_ws(s.last()));
        }
    } else {
        assert(is_ws(s.last()));
        let t = s.drop_last();
        lemma_trim_back_take(t, b);
        assert(t.take(b) =~= s.take(b));
    }
}

/// A trimmed sequence: empty, or non-whitespace at both ends.
pub open spec fn is_trimmed(s: Seq<char>) -> bool {
    s.len() > 0 ==> (!is_ws(s[0]) && !is_ws(s.last()))
}

/// First index at or after `from` holding a non-whitespace character.
fn skip_ws(s: &str, from: usize) -> (r: usize)
    requires
        from <= s@.len(),
    ensures
        from <= r <= s@.len(),
        forall|k: int| from <= k < r ==> is_ws(s@[k]),
        r == s@.len() || !is_ws(s@[r as int]),
{
    let n = s.unicode_len();
    let mut j = from;
    while j < n
        invariant
            from <= j <= n,
            n == s@.len(),
            forall|k: int| from <= k < j ==> is_ws(s@[k]),
        decreases n - j,
    {
        let c = s.get_char(j);
        if !(c == ' ' || c == '\t') {
            return j;
        }
        j += 1;
    }
    n
}

/// Scans back from the end: the boundary after the last non-whitespace
/// character at index `a` or later (the character at `a` is non-whitespace).
fn rskip_ws(s: &str, a: usize) -> (r: usize)
    requires
        a < s@.len(),
        !is_ws(s@[a as int]),
    ensures
        a < r <= s@.len(),
        forall|k: int| r <= k < s@.len() ==> is_ws(s@[k]),
        !is_ws(s@[r - 1]),
{
    let n = s.unicode_len();
    let mut b = n;
    while b > a + 1
        invariant
            a + 1 <= b <= n,
            n == s@.len(),
            forall|k: int| b <= k < n ==> is_ws(s@[k]),
        decreases b,
    {
        let c = s.get_char(b - 1);
        if !(c == ' ' || c == '\t') {
            return b;
        }
        b -= 1;
    }
    b
}

/// Executable trim of surrounding whitespace.
pub fn trim<'a>(s: &'a str) -> (r: &'a str)
    ensures
        r@ == spec_trim(s@),
{
    let n = s.unicode_len();
    let a = skip_ws(s, 0);
    if a == n {
        proof {
            lemma_trim_front_skip(s@, n as int);
            assert(s@.skip(n as int) =~= Seq::<char>::empty());
            assert(spec_trim_back(Seq::<char>::empty()) =~= Seq::<char>::empty());
        }
        return s.substring_char(n, n);
    }
    let b = rskip_ws(s, a);
    proof {
        lemma_trim_front_skip(s@, a as int);
        let t = s@.skip(a as int);
        assert(forall|k: int|
            b - a <= k < t.len() ==> is_ws(#[trigger] t[k]) == is_ws(s@[k + a]));
        assert(forall|k: int| b - a <= k < t.len() ==> is_ws(#[trigger] t[k]));
        assert(!is_ws(t[b - a - 1]));
        lemma_trim_back_take(t, b - a);
        assert(t.take(b - a) =~= s@.subrange(a as int, b as int));
    }
    s.substring_char(a, b)
}

/// The result of `spec_trim` carries no whitespace at its ends.
pub proof fn lemma_trim_is_trimmed(s: Seq<char>)
    ensures
        is_trimmed(spec_trim(s)),
    decreases s.len(),
{
    lemma_trim_front_no_leading_ws(s);
    lemma_trim_back_no_trailing_ws(spec_trim_front(s));
    let f = spec_trim_front(s);
    let t = spec_trim_back(f);
    if t.len() > 0 {
        lemma_trim_back_prefix(f);
        assert(t[0] == f[0]);
    }
}

pub proof fn lemma_trim_front_no_leading_ws(s: Seq<char>)
    ensures
        spec_trim_front(s).len() > 0 ==> !is_ws(spec_trim_front(s)[0]),
    decreases s.len(),
{
    if s.len() > 0 && is_ws(s[0]) {
        lemma_trim_front_no_leading_ws(s.drop_first());
    }
}

pub proof fn lemma_trim_back_no_trailing_ws(s: Seq<char>)
    ensures
        spec_trim_back(s).len() > 0 ==> !is_ws(spec_trim_back(s).last()),
    decreases s.len(),
{
    if s.len() > 0 && is_ws(s.last()) {
        lemma_trim_back_no_trailing_ws(s.drop_last());
    }
}

/// `spec_trim_back` yields a prefix of its input.
pub proof fn lemma_trim_back_prefix(s: Seq<char>)
    ensures
        spec_trim_back(s).len() <= s.len(),
        forall|k: int|
            0 <= k < spec_trim_back(s).len() ==> spec_trim_back(s)[k] == s[k],
    decreases s.len(),
{
    if s.len() > 0 && is_ws(s.last()) {
        lemma_trim_back_prefix(s.drop_last());
        assert forall|k: int|
            0 <= k < spec_trim_back(s).len() implies spec_trim_back(s)[k] == s[k] by {
            assert(spec_trim_back(s) == spec_trim_back(s.drop_last()));
            assert(spec_trim_back(s.drop_last())[k] == s.drop_last()[k]);
            assert(s.drop_last()[k] == s[k]);
        }
    }
}

/// Lower-cases a string into a fresh `String`.
pub fn to_lower_string(s: &str) -> (r: String)
    ensures
        r@ == lower_seq(s@),
{
    let n = s.unicode_len();
    let mut v: Vec<char> = Vec::new();
    let mut i: usize = 0;
    while i < n
        invariant
            0 <= i <= n,
            n == s@.len(),
            v@.len() == i,
            forall|k: int| 0 <= k < i ==> v@[k] == spec_lower_char(s@[k]),
        decreases n - i,
    {
        v.push(lower_char(s.get_char(i)));
        i += 1;
    }
    proof {
        assert(v@ =~= lower_seq(s@));
    }
    string_from_chars(&v)
}

/// Upper-cases a string into a fresh `String`.
pub fn to_upper_string(s: &str) -> (r: String)
    ensures
        r@ == upper_seq(s@),
{
    let n = s.unicode_len();
    let mut v: Vec<char> = Vec::new();
    let mut i: usize = 0;
    while i < n
        invariant
            0 <= i <= n,
            n == s@.len(),
            v@.len() == i,
            forall|k: int| 0 <= k < i ==> v@[k] == spec_upper_char(s@[k]),
        decreases n - i,
    {
        v.push(upper_char(s.get_char(i)));
        i += 1;
    }
    proof {
        assert(v@ =~= upper_seq(s@));
    }
    string_from_chars(&v)
}

/// Parses a non-negative decimal integer.  Returns `None` when the string
/// is empty, contains a non-digit, or denotes a value above `u64::MAX`.
pub fn parse_u64(s: &str) -> (r: Option<u64>)
    ensures
        match r {
            Some(n) => all_digits(s@) && dec_val(s@) == n,
            None => !all_digits(s@) || dec_val(s@) > u64::MAX,
        },
{
    let n = s.unicode_len();
    if n == 0 {
        return None;
    }
    let mut acc: u64 = 0;
    let mut i: usize = 0;
    while i < n
        invariant
            0 <= i <= n,
            n == s@.len(),
            n > 0,
            acc == dec_val(s@.take(i as int)),
            forall|k: int| 0 <= k < i ==> is_digit(#[trigger] s@[k]),
        decreases n - i,
    {
        let c = s.get_char(i);
        if !('0' <= c && c <= '9') {
            return None;
        }
        let d: u64 = (c as u8 - 48) as u64;
        proof {
            assert(d == digit_val(s@[i as int]));
            assert(s@.take(i as int + 1).drop_last() =~= s@.take(i as int));
            assert(s@.take(i as int + 1).last() == s@[i as int]);
        }
        if acc > (u64::MAX - d) / 10 {
            proof {
                lemma_dec_val_nonneg(s@.take(i as int));
                assert(dec_val(s@.take(i as int + 1)) == acc * 10 + d);
                assert(acc * 10 + d > u64::MAX) by (nonlinear_arith)
                    requires
                        acc > (u64::MAX - d) / 10,
                        0 <= d <= 9,
                        acc >= 0,
                ;
                if all_digits(s@) {
                    lemma_dec_val_prefix(s@, i as int + 1);
                }
            }
            return None;
        }
        proof {
            assert(acc * 10 + d <= u64::MAX) by (nonlinear_arith)
                requires
                    acc <= (u64::MAX - d) / 10,
                    0 <= d <= 9,
                    acc >= 0,
            ;
        }
        acc = acc * 10 + d;
        i += 1;
    }
    proof {
        assert(s@.take(n as int) =~= s@);
    }
    Some(acc)
}

/// Produces the decimal digit characters of `n`.
pub fn dec_chars(n: u64) -> (v: Vec<char>)
    ensures
        v@ == dec_digits(n as int),
    decreases n,
{
    if n < 10 {
        let c = ((48 + n) as u8) as char;
        let mut v: Vec<char> = Vec::new();
        v.push(c);
        proof {
            assert(v@ =~= dec_digits(n as int));
        }
        v
    } else {
        let mut v = dec_chars(n / 10);
        let c = ((48 + n % 10) as u8) as char;
        v.push(c);
        proof {
            assert(v@ =~= dec_digits(n as int));
        }
        v
    }
}

/// Formats `n` in decimal.
pub fn format_u64(n: u64) -> (r: String)
    ensures
        r@ == dec_digits(n as int),
{
    let v = dec_chars(n);
    string_from_chars(&v)
}

} // verus!
