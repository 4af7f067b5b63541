//! Parsing of date-carrying headers (`Date`, `Expires`, `Last-Modified`)
//! into seconds since the Unix epoch.  Two shapes are accepted: the
//! HTTP-date of RFC 1123 (`Tue, 15 Nov 1994 12:45:26 GMT`) and RFC 3339
//! (`1994-11-15T12:45:26Z`, with optional fractional seconds, which are
//! ignored, and either `Z` or a `+hh:mm` / `-hh:mm` offset).
//! Anything else, and any instant before the epoch, is rejected.

use vstd::prelude::*;

use crate::chars::{digit_val, is_digit};

verus! {

/// Two decimal digits starting at `i`.
pub open spec fn d2(s: Seq<char>, i: int) -> int {
    digit_val(s[i]) * 10 + digit_val(s[i + 1])
}

/// Four decimal digits starting at `i`.
pub open spec fn d4(s: Seq<char>, i: int) -> int {
    digit_val(s[i]) * 1000 + digit_val(s[i + 1]) * 100 + digit_val(s[i + 2]) * 10 + digit_val(
        s[i + 3],
    )
}

/// Month number (1-12) from a three-letter English abbreviation; 0 if none.
pub open spec fn month_num(a: char, b: char, c: char) -> int {
    if a == 'J' && b == 'a' && c == 'n' {
        1
    } else if a == 'F' && b == 'e' && c == 'b' {
        2
    } else if a == 'M' && b == 'a' && c == 'r' {
        3
    } else if a == 'A' && b == 'p' && c == 'r' {
        4
    } else if a == 'M' && b == 'a' && c == 'y' {
        5
    } else if a == 'J' && b == 'u' && c == 'n' {
        6
    } else if a == 'J' && b == 'u' && c == 'l' {
        7
    } else if a == 'A' && b == 'u' && c == 'g' {
        8
    } else if a == 'S' && b == 'e' && c == 'p' {
        9
    } else if a == 'O' && b == 'c' && c == 't' {
        10
    } else if a == 'N' && b == 'o' && c == 'v' {
        11
    } else if a == 'D' && b == 'e' && c == 'c' {
        12
    } else {
        0
    }
}

/// Days since 1970-01-01 of the civil date `y-m-d` (proleptic Gregorian),
/// for years from 1 onward.
pub open spec fn days_from_civil(y: int, m: int, d: int) -> int {
    let yy = if m <= 2 { y - 1 } else { y };
    let era = yy / 400;
    let yoe = yy - era * 400;
    let mp = if m > 2 { m - 3 } else { m + 9 };
    let doy = (153 * mp + 2) / 5 + d - 1;
    let doe = yoe * 365 + yoe / 4 - yoe / 100 + doy;
    era * 146097 + doe - 719468
}

/// Seconds since the epoch of a civil date and time of day.
pub open spec fn civil_secs(y: int, mo: int, d: int, h: int, mi: int, s: int) -> int {
    days_from_civil(y, mo, d) * 86400 + h * 3600 + mi * 60 + s
}

/// Field ranges accepted for any date.
pub open spec fn fields_ok(y: int, mo: int, d: int, h: int, mi: int, s: int) -> bool {
    1 <= y && 1 <= mo <= 12 && 1 <= d <= 31 && h <= 23 && mi <= 59 && s <= 59
}

/// Shape of an RFC 1123 date: `Tue, 15 Nov 1994 12:45:26 GMT`.
/// The day-of-week letters are not inspected.
pub open spec fn rfc1123_shape(s: Seq<char>) -> bool {
    &&& s.len() == 29
    &&& s[3] == ',' && s[4] == ' '
    &&& is_digit(s[5]) && is_digit(s[6]) && s[7] == ' '
    &&& s[11] == ' '
    &&& is_digit(s[12]) && is_digit(s[13]) && is_digit(s[14]) && is_digit(s[15]) && s[16] == ' '
    &&& is_digit(s[17]) && is_digit(s[18]) && s[19] == ':'
    &&& is_digit(s[20]) && is_digit(s[21]) && s[22] == ':'
    &&& is_digit(s[23]) && is_digit(s[24])
    &&& s[25] == ' ' && s[26] == 'G' && s[27] == 'M' && s[28] == 'T'
}

/// Value of an RFC 1123 date, when shape, fields and epoch allow it.
pub open spec fn rfc1123_value(s: Seq<char>) -> Option<int> {
    let y = d4(s, 12);
    let mo = month_num(s[8], s[9], s[10]);
    let d = d2(s, 5);
    let h = d2(s, 17);
    let mi = d2(s, 20);
    let sec = d2(s, 23);
    if fields_ok(y, mo, d, h, mi, sec) && civil_secs(y, mo, d, h, mi, sec) >= 0 {
        Some(civil_secs(y, mo, d, h, mi, sec))
    } else {
        None
    }
}

/// First index at or after `i` that does not hold a digit.
pub open spec fn skip_digits(s: Seq<char>, i: int) -> int
    decreases s.len() - i when 0 <= i <= s.len()
{
    if i < 0 || i >= s.len() {
        s.len() as int
    } else if is_digit(s[i]) {
        skip_digits(s, i + 1)
    } else {
        i
    }
}

proof fn lemma_skip_digits(s: Seq<char>, i: int, j: int)
    requires
        0 <= i <= j <= s.len(),
        forall|k: int| i <= k < j ==> is_digit(s[k]),
        j == s.len() || !is_digit(s[j]),
    ensures
        skip_digits(s, i) == j,
    decreases j - i,
{
    if i < j {
        lemma_skip_digits(s, i + 1, j);
    }
}

/// Shape of the fixed front of an RFC 3339 date: `1994-11-15T12:45:26`.
pub open spec fn rfc3339_front_shape(s: Seq<char>) -> bool {
    &&& s.len() >= 20
    &&& is_digit(s[0]) && is_digit(s[1]) && is_digit(s[2]) && is_digit(s[3]) && s[4] == '-'
    &&& is_digit(s[5]) && is_digit(s[6]) && s[7] == '-'
    &&& is_digit(s[8]) && is_digit(s[9])
    &&& (s[10] == 'T' || s[10] == 't' || s[10] == ' ')
    &&& is_digit(s[11]) && is_digit(s[12]) && s[13] == ':'
    &&& is_digit(s[14]) && is_digit(s[15]) && s[16] == ':'
    &&& is_digit(s[17]) && is_digit(s[18])
}

/// Index of the offset designator: past the fractional seconds, if any.
pub open spec fn rfc3339_tail_start(s: Seq<char>) -> int {
    if s[19] == '.' {
        skip_digits(s, 20)
    } else {
        19
    }
}

/// Shape of the whole RFC 3339 date.
pub open spec fn rfc3339_shape(s: Seq<char>) -> bool {
    &&& rfc3339_front_shape(s)
    &&& {
        let k = rfc3339_tail_start(s);
        &&& (s[19] != '.' || k > 20)
        &&& k < s.len()
        &&& {
            ||| ((s[k] == 'Z' || s[k] == 'z') && k + 1 == s.len())
            ||| ((s[k] == '+' || s[k] == '-') && k + 6 == s.len() && is_digit(s[k + 1])
                && is_digit(s[k + 2]) && s[k + 3] == ':' && is_digit(s[k + 4]) && is_digit(
                s[k + 5],
            ))
        }
    }
}

/// The UTC offset, in seconds, carried by an RFC 3339 date.
pub open spec fn rfc3339_offset(s: Seq<char>) -> int {
    let k = rfc3339_tail_start(s);
    if s[k] == 'Z' || s[k] == 'z' {
        0
    } else {
        let v = d2(s, k + 1) * 3600 + d2(s, k + 4) * 60;
        if s[k] == '+' {
            v
        } else {
            -v
        }
    }
}

/// Value of an RFC 3339 date, when shape, fields and epoch allow it.
pub open spec fn rfc3339_value(s: Seq<char>) -> Option<int> {
    let y = d4(s, 0);
    let mo = d2(s, 5);
    let d = d2(s, 8);
    let h = d2(s, 11);
    let mi = d2(s, 14);
    let sec = d2(s, 17);
    let k = rfc3339_tail_start(s);
    let off_ok = s[k] == 'Z' || s[k] == 'z' || d2(s, k + 1) <= 23 && d2(s, k + 4) <= 59;
    let t = civil_secs(y, mo, d, h, mi, sec) - rfc3339_offset(s);
    if fields_ok(y, mo, d, h, mi, sec) && off_ok && t >= 0 {
        Some(t)
    } else {
        None
    }
}

/// The instant denoted by a date header value, in seconds since the epoch.
pub open spec fn spec_parse_date(s: Seq<char>) -> Option<int> {
    if rfc1123_shape(s) {
        rfc1123_value(s)
    } else if rfc3339_shape(s) {
        rfc3339_value(s)
    } else {
        None
    }
}

/// One digit as a number.
fn dig(s: &str, i: usize) -> (r: u64)
    requires
        i < s@.len(),
        is_digit(s@[i as int]),
    ensures
        r == digit_val(s@[i as int]),
        r <= 9,
{
    (s.get_char(i) as u8 - 48) as u64
}

/// Is the character at `i` a digit?
fn at_digit(s: &str, i: usize) -> (r: bool)
    requires
        i < s@.len(),
    ensures
        r == is_digit(s@[i as int]),
{
    let c = s.get_char(i);
    '0' <= c && c <= '9'
}

/// Two digits as a number.
fn d2_exec(s: &str, i: usize) -> (r: u64)
    requires
        i + 2 <= s@.len(),
        is_digit(s@[i as int]),
        is_digit(s@[i as int + 1]),
    ensures
        r == d2(s@, i as int),
        r <= 99,
{
    let n = s.unicode_len();
    dig(s, i) * 10 + dig(s, i + 1)
}

/// Four digits as a number.
fn d4_exec(s: &str, i: usize) -> (r: u64)
    requires
        i + 4 <= s@.len(),
        is_digit(s@[i as int]),
        is_digit(s@[i as int + 1]),
        is_digit(s@[i as int + 2]),
        is_digit(s@[i as int + 3]),
    ensures
        r == d4(s@, i as int),
        r <= 9999,
{
    let n = s.unicode_len();
    dig(s, i) * 1000 + dig(s, i + 1) * 100 + dig(s, i + 2) * 10 + dig(s, i + 3)
}

/// Seconds since the epoch of civil fields known to be in range, or `None`
/// when the instant lies before the epoch.  `off` is the UTC offset.
fn civil_to_epoch(y: u64, mo: u64, d: u64, h: u64, mi: u64, sec: u64, off: i64) -> (r: Option<
    u64,
>)
    requires
        fields_ok(y as int, mo as int, d as int, h as int, mi as int, sec as int),
        y <= 9999,
        -86400 <= off <= 86400,
    ensures
        match r {
            Some(t) => civil_secs(y as int, mo as int, d as int, h as int, mi as int, sec as int)
                - off == t,
            None => civil_secs(y as int, mo as int, d as int, h as int, mi as int, sec as int)
                - off < 0,
        },
{
    let yy: i64 = if mo <= 2 { y as i64 - 1 } else { y as i64 };
    let era: i64 = yy / 400;
    let yoe: i64 = yy - era * 400;
    let mp: i64 = if mo > 2 { mo as i64 - 3 } else { mo as i64 + 9 };
    let doy: i64 = (153 * mp + 2) / 5 + d as i64 - 1;
    let doe: i64 = yoe * 365 + yoe / 4 - yoe / 100 + doy;
    let days: i64 = era * 146097 + doe - 719468;
    let t: i64 = days * 86400 + h as i64 * 3600 + mi as i64 * 60 + sec as i64 - off;
    proof {
        assert(0 <= yy <= 9999);
        assert(0 <= era <= 24);
        assert(0 <= yoe <= 399);
        assert(0 <= mp <= 11);
        assert(0 <= doy <= 367);
        assert(0 <= doe <= 146500);
    }
    if t >= 0 {
        Some(t as u64)
    } else {
        None
    }
}

/// Parses a date header value into seconds since the epoch.
pub fn parse_date(s: &str) -> (r: Option<u64>)
    ensures
        match r {
            Some(t) => spec_parse_date(s@) == Some(t as int),
            None => spec_parse_date(s@) is None,
        },
{
    let n = s.unicode_len();
    // RFC 1123 first: its length and comma make the shapes disjoint.
    if n == 29 && s.get_char(3) == ',' {
        if !(s.get_char(4) == ' ' && at_digit(s, 5) && at_digit(s, 6) && s.get_char(7) == ' '
            && s.get_char(11) == ' ' && at_digit(s, 12) && at_digit(s, 13) && at_digit(s, 14)
            && at_digit(s, 15) && s.get_char(16) == ' ' && at_digit(s, 17) && at_digit(s, 18)
            && s.get_char(19) == ':' && at_digit(s, 20) && at_digit(s, 21) && s.get_char(22)
            == ':' && at_digit(s, 23) && at_digit(s, 24) && s.get_char(25) == ' ' && s.get_char(
            26,
        ) == 'G' && s.get_char(27) == 'M' && s.get_char(28) == 'T') {
            return None;
        }
        let a = s.get_char(8);
        let b = s.get_char(9);
        let c = s.get_char(10);
        let mo: u64 = if a == 'J' && b == 'a' && c == 'n' {
            1
        } else if a == 'F' && b == 'e' && c == 'b' {
            2
        } else if a == 'M' && b == 'a' && c == 'r' {
            3
        } else if a == 'A' && b == 'p' && c == 'r' {
            4
        } else if a == 'M' && b == 'a' && c == 'y' {
            5
        } else if a == 'J' && b == 'u' && c == 'n' {
            6
        } else if a == 'J' && b == 'u' && c == 'l' {
            7
        } else if a == 'A' && b == 'u' && c == 'g' {
            8
        } else if a == 'S' && b == 'e' && c == 'p' {
            9
        } else if a == 'O' && b == 'c' && c == 't' {
            10
        } else if a == 'N' && b == 'o' && c == 'v' {
            11
        } else if a == 'D' && b == 'e' && c == 'c' {
            12
        } else {
            0
        };
        let y = d4_exec(s, 12);
        let d = d2_exec(s, 5);
        let h = d2_exec(s, 17);
        let mi = d2_exec(s, 20);
        let sec = d2_exec(s, 23);
        if !(1 <= y && 1 <= mo && mo <= 12 && 1 <= d && d <= 31 && h <= 23 && mi <= 59 && sec
            <= 59) {
            return None;
        }
        return civil_to_epoch(y, mo, d, h, mi, sec, 0);
    }
    // RFC 3339.
    if n < 20 {
        return None;
    }
    if !(at_digit(s, 0) && at_digit(s, 1) && at_digit(s, 2) && at_digit(s, 3) && s.get_char(4)
        == '-' && at_digit(s, 5) && at_digit(s, 6) && s.get_char(7) == '-' && at_digit(s, 8)
        && at_digit(s, 9) && (s.get_char(10) == 'T' || s.get_char(10) == 't' || s.get_char(10)
        == ' ') && at_digit(s, 11) && at_digit(s, 12) && s.get_char(13) == ':' && at_digit(s, 14)
        && at_digit(s, 15) && s.get_char(16) == ':' && at_digit(s, 17) && at_digit(s, 18)) {
        return None;
    }
    proof {
        assert(rfc3339_front_shape(s@));
        assert(!rfc1123_shape(s@));
    }
    let k: usize = if s.get_char(19) == '.' {
        skip_digits_exec(s, 20)
    } else {
        19
    };
    proof {
        if s@[19] == '.' {
            lemma_skip_digits(s@, 20, k as int);
        }
        assert(k == rfc3339_tail_start(s@));
    }
    if s.get_char(19) == '.' && k == 20 {
        // a bare dot with no fractional digits
        proof {
            assert(!rfc3339_shape(s@));
        }
        return None;
    }
    if k >= n {
        proof {
            assert(!rfc3339_shape(s@));
        }
        return None;
    }
    let oc = s.get_char(k);
    let off: i64 = if (oc == 'Z' || oc == 'z') && n - k == 1 {
        0
    } else if (oc == '+' || oc == '-') && n - k == 6 {
        if !(at_digit(s, k + 1) && at_digit(s, k + 2) && s.get_char(k + 3) == ':' && at_digit(
            s,
            k + 4,
        ) && at_digit(s, k + 5)) {
            proof {
                assert(!rfc3339_shape(s@));
            }
            return None;
        }
        let oh = d2_exec(s, k + 1);
        let om = d2_exec(s, k + 4);
        if !(oh <= 23 && om <= 59) {
            proof {
                assert(rfc3339_shape(s@));
                assert(rfc3339_value(s@) is None);
            }
            return None;
        }
        let v: i64 = (oh * 3600 + om * 60) as i64;
        if oc == '+' {
            v
        } else {
            -v
        }
    } else {
        proof {
            assert(!rfc3339_shape(s@));
        }
        return None;
    };
    proof {
        assert(rfc3339_shape(s@));
        assert(off == rfc3339_offset(s@));
    }
    let y = d4_exec(s, 0);
    let mo = d2_exec(s, 5);
    let d = d2_exec(s, 8);
    let h = d2_exec(s, 11);
    let mi = d2_exec(s, 14);
    let sec = d2_exec(s, 17);
    if !(1 <= y && 1 <= mo && mo <= 12 && 1 <= d && d <= 31 && h <= 23 && mi <= 59 && sec <= 59) {
        return None;
    }
    civil_to_epoch(y, mo, d, h, mi, sec, off)
}

/// First index at or after `from` without a digit.
fn skip_digits_exec(s: &str, from: usize) -> (r: usize)
    requires
        from <= s@.len(),
    ensures
        from <= r <= s@.len(),
        forall|t: int| from <= t < r ==> is_digit(s@[t]),
        r == s@.len() || !is_digit(s@[r as int]),
{
    let n = s.unicode_len();
    let mut j = from;
    while j < n
        invariant
            from <= j <= n,
            n == s@.len(),
            forall|t: int| from <= t < j ==> is_digit(s@[t]),
        decreases n - j,
    {
        if !at_digit(s, j) {
            return j;
        }
        j += 1;
    }
    n
}

} // verus!
