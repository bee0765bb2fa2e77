//! Time-string parsing, human-readable formatting, default output naming,
//! and the overwrite-confirmation answer test.
//!
//! Times are carried as whole milliseconds. A time string is bare seconds,
//! `MM:SS` or `H:MM:SS`; each numeric part may carry a decimal fraction,
//! which is read to millisecond precision (further digits are dropped).

use vstd::prelude::*;

use crate::error::VxError;
use crate::text::{
    dec_digit, dec_str, digit_str, find_first, find_last, first_index_of, last_index_of,
    lower_char, lower_str, pad2_str, trim, trim_str, u64_to_pad2, u64_to_string,
};

verus! {

pub open spec fn is_digit_char(c: char) -> bool {
    '0' <= c && c <= '9'
}

pub open spec fn digit_val(c: char) -> int {
    (c as int) - 48
}

pub open spec fn all_digits(s: Seq<char>) -> bool {
    forall|i: int| 0 <= i < s.len() ==> is_digit_char(#[trigger] s[i])
}

/// Value of a digit string read in base ten.
pub open spec fn digits_val(s: Seq<char>) -> int
    decreases s.len(),
{
    if s.len() == 0 {
        0
    } else {
        digits_val(s.drop_last()) * 10 + digit_val(s.last())
    }
}

/// The `i`-th fraction digit, taking absent digits as zero.
pub open spec fn frac_digit(s: Seq<char>, i: int) -> int {
    if i < s.len() {
        digit_val(s[i])
    } else {
        0
    }
}

/// Milliseconds contributed by a fraction-digit string: the first three
/// digits, zero-padded on the right; further digits are dropped.
pub open spec fn frac_milli(s: Seq<char>) -> int {
    frac_digit(s, 0) * 100 + frac_digit(s, 1) * 10 + frac_digit(s, 2)
}

/// One numeric part of a time string: digits with at most one decimal
/// point and at least one digit.
pub open spec fn valid_part(s: Seq<char>) -> bool {
    let d = first_index_of(s, '.');
    if d < 0 {
        s.len() > 0 && all_digits(s)
    } else {
        s.len() > 1 && all_digits(s.take(d)) && all_digits(s.skip(d + 1))
    }
}

/// Value of one numeric part, in thousandths of its own unit.
pub open spec fn part_milli(s: Seq<char>) -> int {
    let d = first_index_of(s, '.');
    if d < 0 {
        digits_val(s) * 1000
    } else {
        digits_val(s.take(d)) * 1000 + frac_milli(s.skip(d + 1))
    }
}

/// Value of a whole time string in milliseconds: bare seconds, `MM:SS`, or
/// `H:MM:SS`; anything else is `None`.
pub open spec fn time_ms(s: Seq<char>) -> Option<int> {
    let c1 = first_index_of(s, ':');
    if c1 < 0 {
        if valid_part(s) {
            Some(part_milli(s))
        } else {
            None
        }
    } else {
        let p1 = s.take(c1);
        let rest = s.skip(c1 + 1);
        let c2 = first_index_of(rest, ':');
        if c2 < 0 {
            if valid_part(p1) && valid_part(rest) {
                Some(part_milli(p1) * 60 + part_milli(rest))
            } else {
                None
            }
        } else {
            let p2 = rest.take(c2);
            let rest2 = rest.skip(c2 + 1);
            if first_index_of(rest2, ':') < 0 && valid_part(p1) && valid_part(p2) && valid_part(
                rest2,
            ) {
                Some(part_milli(p1) * 3600 + part_milli(p2) * 60 + part_milli(rest2))
            } else {
                None
            }
        }
    }
}

proof fn lemma_digits_val_nonneg(s: Seq<char>)
    requires
        all_digits(s),
    ensures
        digits_val(s) >= 0,
    decreases s.len(),
{
    if s.len() > 0 {
        let t = s.drop_last();
        assert(forall|j: int| 0 <= j < t.len() ==> t[j] == s[j]);
        lemma_digits_val_nonneg(t);
    }
}

/// A digit string is worth at least any of its prefixes.
proof fn lemma_digits_val_prefix_le(s: Seq<char>, k: int)
    requires
        all_digits(s),
        0 <= k <= s.len(),
    ensures
        digits_val(s.take(k)) <= digits_val(s),
    decreases s.len(),
{
    if k < s.len() {
        let t = s.drop_last();
        assert(forall|j: int| 0 <= j < t.len() ==> t[j] == s[j]);
        assert(s.take(k) =~= t.take(k));
        lemma_digits_val_prefix_le(t, k);
        lemma_digits_val_nonneg(t);
        assert(digits_val(t) * 10 >= digits_val(t)) by (nonlinear_arith)
            requires
                digits_val(t) >= 0,
        ;
    } else {
        assert(s.take(k) =~= s);
    }
}

proof fn lemma_part_milli_nonneg(s: Seq<char>)
    requires
        valid_part(s),
    ensures
        part_milli(s) >= 0,
{
    let d = first_index_of(s, '.');
    if d < 0 {
        lemma_digits_val_nonneg(s);
    } else {
        lemma_digits_val_nonneg(s.take(d));
        assert(digits_val(s.take(d)) * 1000 >= 0) by (nonlinear_arith)
            requires
                digits_val(s.take(d)) >= 0,
        ;
    }
}

/// Reads a digit string; `None` on a non-digit or a value over `u64::MAX`.
fn parse_digits(s: &str) -> (r: Option<u64>)
    ensures
        match r {
            Some(v) => all_digits(s@) && v as int == digits_val(s@),
            None => !all_digits(s@) || digits_val(s@) > u64::MAX,
        },
{
    let n = s.unicode_len();
    let mut acc: u64 = 0;
    let mut i: usize = 0;
    while i < n
        invariant
            n == s@.len(),
            i <= n,
            all_digits(s@.take(i as int)),
            acc as int == digits_val(s@.take(i as int)),
        decreases n - i,
    {
        let c = s.get_char(i);
        if !('0' <= c && c <= '9') {
            return None;
        }
        let d: u64 = ((c as u32) - 48) as u64;
        if acc > (u64::MAX - d) / 10 {
            proof {
                assert(s@.take(i as int + 1).drop_last() =~= s@.take(i as int));
                assert(acc * 10 + d > u64::MAX);
                if all_digits(s@) {
                    lemma_digits_val_prefix_le(s@, i as int + 1);
                }
            }
            return None;
        }
        acc = acc * 10 + d;
        proof {
            assert(s@.take(i as int + 1).drop_last() =~= s@.take(i as int));
        }
        i = i + 1;
    }
    proof {
        assert(s@.take(n as int) =~= s@);
    }
    Some(acc)
}

/// Reads a fraction-digit string to thousandths; `None` on a non-digit.
fn parse_frac(s: &str) -> (r: Option<u64>)
    ensures
        match r {
            Some(v) => all_digits(s@) && v as int == frac_milli(s@) && v <= 999,
            None => !all_digits(s@),
        },
{
    let n = s.unicode_len();
    let mut i: usize = 0;
    while i < n
        invariant
            n == s@.len(),
            i <= n,
            forall|j: int| 0 <= j < i ==> is_digit_char(#[trigger] s@[j]),
        decreases n - i,
    {
        let c = s.get_char(i);
        if !('0' <= c && c <= '9') {
            return None;
        }
        i = i + 1;
    }
    let d0: u64 = if n > 0 {
        ((s.get_char(0) as u32) - 48) as u64
    } else {
        0
    };
    let d1: u64 = if n > 1 {
        ((s.get_char(1) as u32) - 48) as u64
    } else {
        0
    };
    let d2: u64 = if n > 2 {
        ((s.get_char(2) as u32) - 48) as u64
    } else {
        0
    };
    Some(d0 * 100 + d1 * 10 + d2)
}

/// Reads one numeric part to thousandths; `None` when the shape is wrong
/// or the value does not fit.
fn parse_part(s: &str) -> (r: Option<u64>)
    ensures
        match r {
            Some(v) => valid_part(s@) && v as int == part_milli(s@),
            None => !valid_part(s@) || part_milli(s@) > u64::MAX,
        },
{
    let n = s.unicode_len();
    let dot = find_first(s, '.');
    match dot {
        None => {
            if n == 0 {
                return None;
            }
            match parse_digits(s) {
                None => {
                    proof {
                        if all_digits(s@) {
                            lemma_digits_val_nonneg(s@);
                            assert(digits_val(s@) * 1000 >= digits_val(s@)) by (nonlinear_arith)
                                requires
                                    digits_val(s@) >= 0,
                            ;
                        }
                    }
                    None
                },
                Some(w) => {
                    if w > u64::MAX / 1000 {
                        proof {
                            assert(w as int * 1000 > u64::MAX);
                        }
                        None
                    } else {
                        Some(w * 1000)
                    }
                },
            }
        },
        Some(d) => {
            if n == 1 {
                // the string is just "."
                return None;
            }
            proof {
                crate::text::lemma_first_index_of(s@, '.');
            }
            let whole = s.substring_char(0, d);
            let frac = s.substring_char(d + 1, n);
            proof {
                assert(whole@ =~= s@.take(d as int));
                assert(frac@ =~= s@.skip(d as int + 1));
            }
            let fm = match parse_frac(frac) {
                None => {
                    return None;
                },
                Some(fm) => fm,
            };
            match parse_digits(whole) {
                None => {
                    proof {
                        if all_digits(whole@) {
                            lemma_digits_val_nonneg(whole@);
                            assert(digits_val(whole@) * 1000 >= digits_val(whole@))
                                by (nonlinear_arith)
                                requires
                                    digits_val(whole@) >= 0,
                            ;
                        }
                    }
                    None
                },
                Some(w) => {
                    if w > (u64::MAX - fm) / 1000 {
                        proof {
                            assert(w as int * 1000 + fm as int > u64::MAX);
                        }
                        None
                    } else {
                        Some(w * 1000 + fm)
                    }
                },
            }
        },
    }
}

/// Reads a whole time string to milliseconds; `None` when the shape is
/// wrong or the value does not fit.
pub(crate) fn parse_time_core(s: &str) -> (r: Option<u64>)
    ensures
        match r {
            Some(v) => time_ms(s@) == Some(v as int),
            None => time_ms(s@) is None || time_ms(s@).unwrap() > u64::MAX,
        },
{
    let n = s.unicode_len();
    match find_first(s, ':') {
        None => parse_part(s),
        Some(c1) => {
            proof {
                crate::text::lemma_first_index_of(s@, ':');
            }
            let p1 = s.substring_char(0, c1);
            let rest = s.substring_char(c1 + 1, n);
            proof {
                assert(p1@ =~= s@.take(c1 as int));
                assert(rest@ =~= s@.skip(c1 as int + 1));
            }
            let rn = rest.unicode_len();
            match find_first(rest, ':') {
                None => {
                    let a = match parse_part(p1) {
                        None => {
                            proof {
                                lemma_time_parts_big_two(s@, c1 as int);
                            }
                            return None;
                        },
                        Some(a) => a,
                    };
                    let b = match parse_part(rest) {
                        None => {
                            proof {
                                lemma_time_parts_big_two(s@, c1 as int);
                            }
                            return None;
                        },
                        Some(b) => b,
                    };
                    let total: u128 = (a as u128) * 60 + (b as u128);
                    if total > u64::MAX as u128 {
                        return None;
                    }
                    Some(total as u64)
                },
                Some(c2) => {
                    proof {
                        crate::text::lemma_first_index_of(rest@, ':');
                    }
                    let p2 = rest.substring_char(0, c2);
                    let rest2 = rest.substring_char(c2 + 1, rn);
                    proof {
                        assert(p2@ =~= rest@.take(c2 as int));
                        assert(rest2@ =~= rest@.skip(c2 as int + 1));
                    }
                    match find_first(rest2, ':') {
                        Some(_) => None,
                        None => {
                            let a = match parse_part(p1) {
                                None => {
                                    proof {
                                        lemma_time_parts_big_three(s@, c1 as int, c2 as int);
                                    }
                                    return None;
                                },
                                Some(a) => a,
                            };
                            let b = match parse_part(p2) {
                                None => {
                                    proof {
                                        lemma_time_parts_big_three(s@, c1 as int, c2 as int);
                                    }
                                    return None;
                                },
                                Some(b) => b,
                            };
                            let c = match parse_part(rest2) {
                                None => {
                                    proof {
                                        lemma_time_parts_big_three(s@, c1 as int, c2 as int);
                                    }
                                    return None;
                                },
                                Some(c) => c,
                            };
                            let total: u128 = (a as u128) * 3600 + (b as u128) * 60 + (c as u128);
                            if total > u64::MAX as u128 {
                                return None;
                            }
                            Some(total as u64)
                        },
                    }
                },
            }
        },
    }
}

/// If a two-part time string is valid but one part is worth more than
/// `u64::MAX` thousandths, the whole value is out of range too.
proof fn lemma_time_parts_big_two(s: Seq<char>, c1: int)
    requires
        first_index_of(s, ':') == c1,
        0 <= c1,
        first_index_of(s.skip(c1 + 1), ':') < 0,
    ensures
        time_ms(s) is Some ==> ({
            let p1 = s.take(c1);
            let rest = s.skip(c1 + 1);
            time_ms(s).unwrap() >= part_milli(p1) && time_ms(s).unwrap() >= part_milli(rest)
        }),
{
    let p1 = s.take(c1);
    let rest = s.skip(c1 + 1);
    if time_ms(s) is Some {
        lemma_part_milli_nonneg(p1);
        lemma_part_milli_nonneg(rest);
        assert(part_milli(p1) * 60 >= part_milli(p1)) by (nonlinear_arith)
            requires
                part_milli(p1) >= 0,
        ;
    }
}

/// If a three-part time string is valid but one part is worth more than
/// `u64::MAX` thousandths, the whole value is out of range too.
proof fn lemma_time_parts_big_three(s: Seq<char>, c1: int, c2: int)
    requires
        first_index_of(s, ':') == c1,
        0 <= c1,
        first_index_of(s.skip(c1 + 1), ':') == c2,
        0 <= c2,
    ensures
        time_ms(s) is Some ==> ({
            let rest = s.skip(c1 + 1);
            let p1 = s.take(c1);
            let p2 = rest.take(c2);
            let rest2 = rest.skip(c2 + 1);
            time_ms(s).unwrap() >= part_milli(p1) && time_ms(s).unwrap() >= part_milli(p2)
                && time_ms(s).unwrap() >= part_milli(rest2)
        }),
{
    let rest = s.skip(c1 + 1);
    let p1 = s.take(c1);
    let p2 = rest.take(c2);
    let rest2 = rest.skip(c2 + 1);
    if time_ms(s) is Some {
        lemma_part_milli_nonneg(p1);
        lemma_part_milli_nonneg(p2);
        lemma_part_milli_nonneg(rest2);
        assert(part_milli(p1) * 3600 >= part_milli(p1)) by (nonlinear_arith)
            requires
                part_milli(p1) >= 0,
        ;
        assert(part_milli(p2) * 60 >= part_milli(p2)) by (nonlinear_arith)
            requires
                part_milli(p2) >= 0,
        ;
    }
}

/// The decimal rendering of a non-negative number is all digits and
/// reads back to the same value.
pub proof fn lemma_dec_str_digits(n: int)
    requires
        n >= 0,
    ensures
        all_digits(dec_str(n)),
        digits_val(dec_str(n)) == n,
        dec_str(n).len() >= 1,
    decreases n,
{
    if n < 10 {
        let s = seq![dec_digit(n)];
        assert(s.drop_last() =~= Seq::<char>::empty());
        assert(digits_val(Seq::<char>::empty()) == 0);
        assert(s.last() == dec_digit(n));
        assert(digit_val(dec_digit(n)) == n);
        assert(is_digit_char(dec_digit(n)));
    } else {
        lemma_dec_str_digits(n / 10);
        let p = dec_str(n / 10);
        let s = p + seq![dec_digit(n % 10)];
        assert(s.drop_last() =~= p);
        assert(s.last() == dec_digit(n % 10));
        assert(digit_val(dec_digit(n % 10)) == n % 10);
        assert(is_digit_char(dec_digit(n % 10)));
        assert(forall|i: int| 0 <= i < p.len() ==> s[i] == p[i]);
        assert(all_digits(s));
        assert(digits_val(s) == digits_val(p) * 10 + n % 10);
        assert(digits_val(p) * 10 + n % 10 == n);
    }
}

/// A digit string is one valid time part, worth its value in whole
/// thousandths.
proof fn lemma_dec_str_part(n: int)
    requires
        0 <= n,
    ensures
        valid_part(dec_str(n)),
        part_milli(dec_str(n)) == n * 1000,
        forall|j: int| 0 <= j < dec_str(n).len() ==> dec_str(n)[j] != ':',
{
    let s = dec_str(n);
    lemma_dec_str_digits(n);
    assert(forall|j: int| 0 <= j < s.len() ==> s[j] != '.');
    assert(forall|j: int| 0 <= j < s.len() ==> s[j] != ':');
    crate::text::lemma_first_index_of_none(s, '.');
}

/// Round trip for bare seconds: rendering a whole number of seconds and
/// parsing it back yields exactly that many thousand milliseconds.
pub proof fn lemma_time_round_trip_seconds(n: int)
    requires
        0 <= n,
    ensures
        time_ms(dec_str(n)) == Some(n * 1000),
{
    let s = dec_str(n);
    lemma_dec_str_part(n);
    crate::text::lemma_first_index_of_none(s, ':');
}

/// Round trip for clock strings: `M:S` built from whole minutes and
/// seconds parses to the expected total milliseconds.
pub proof fn lemma_time_round_trip_two(m: int, s: int)
    requires
        0 <= m,
        0 <= s,
    ensures
        time_ms(dec_str(m) + ":"@ + dec_str(s)) == Some(m * 60000 + s * 1000),
{
    reveal_strlit(":");
    let dm = dec_str(m);
    let ds = dec_str(s);
    let w = dm + ":"@ + ds;
    lemma_dec_str_part(m);
    lemma_dec_str_part(s);
    let c1 = dm.len() as int;
    assert(w[c1] == ':');
    assert(forall|j: int| 0 <= j < c1 ==> w[j] == dm[j]);
    assert(forall|j: int| 0 <= j < c1 ==> w[j] != ':');
    crate::text::lemma_first_index_of_at(w, ':', c1);
    assert(w.take(c1) =~= dm);
    assert(w.skip(c1 + 1) =~= ds);
    crate::text::lemma_first_index_of_none(ds, ':');
    assert(time_ms(w) == Some(m * 1000 * 60 + s * 1000));
    assert(m * 1000 * 60 == m * 60000) by (nonlinear_arith);
}

/// Round trip for full clock strings: `H:M:S` built from whole hours,
/// minutes and seconds parses to the expected total milliseconds.
pub proof fn lemma_time_round_trip_three(h: int, m: int, s: int)
    requires
        0 <= h,
        0 <= m,
        0 <= s,
    ensures
        time_ms(dec_str(h) + ":"@ + dec_str(m) + ":"@ + dec_str(s)) == Some(
            h * 3600000 + m * 60000 + s * 1000,
        ),
{
    reveal_strlit(":");
    let dh = dec_str(h);
    let dm = dec_str(m);
    let ds = dec_str(s);
    let w = dh + ":"@ + dm + ":"@ + ds;
    lemma_dec_str_part(h);
    lemma_dec_str_part(m);
    lemma_dec_str_part(s);
    let c1 = dh.len() as int;
    assert(w[c1] == ':');
    assert(forall|j: int| 0 <= j < c1 ==> w[j] == dh[j]);
    assert(forall|j: int| 0 <= j < c1 ==> w[j] != ':');
    crate::text::lemma_first_index_of_at(w, ':', c1);
    let rest = w.skip(c1 + 1);
    assert(rest =~= dm + ":"@ + ds);
    let c2 = dm.len() as int;
    assert(rest[c2] == ':');
    assert(forall|j: int| 0 <= j < c2 ==> rest[j] == dm[j]);
    assert(forall|j: int| 0 <= j < c2 ==> rest[j] != ':');
    crate::text::lemma_first_index_of_at(rest, ':', c2);
    assert(w.take(c1) =~= dh);
    assert(rest.take(c2) =~= dm);
    assert(rest.skip(c2 + 1) =~= ds);
    crate::text::lemma_first_index_of_none(ds, ':');
    assert(time_ms(w) == Some(h * 1000 * 3600 + m * 1000 * 60 + s * 1000));
    assert(h * 1000 * 3600 == h * 3600000) by (nonlinear_arith);
    assert(m * 1000 * 60 == m * 60000) by (nonlinear_arith);
}

/// Parses a user-supplied time string to milliseconds.
///
/// Accepts bare seconds, `MM:SS` and `H:MM:SS`, fractions allowed in each
/// part; any other shape, and a value too large to hold, is rejected with
/// `InvalidTime` carrying the offending string.
pub fn parse_time(s: &str) -> (r: Result<u64, VxError>)
    ensures
        match r {
            Ok(v) => time_ms(s@) == Some(v as int),
            Err(e) => {
                &&& (time_ms(s@) is None || time_ms(s@).unwrap() > u64::MAX)
                &&& e matches VxError::InvalidTime(t) && t@ == s@
            },
        },
{
    match parse_time_core(s) {
        Some(v) => Ok(v),
        None => Err(VxError::InvalidTime(String::from_str(s))),
    }
}

pub const KB: u64 = 1024;

pub const MB: u64 = 1024 * 1024;

pub const GB: u64 = 1024 * 1024 * 1024;

pub const KBPS: u64 = 1000;

pub const MBPS: u64 = 1000 * 1000;

/// The value shown before a unit, in tenths, rounded half-up.
pub open spec fn tenths_of(n: int, unit: int) -> int {
    (n * 10 + unit / 2) / unit
}

/// A tenths value rendered with one decimal place.
pub open spec fn one_dec_str(t: int) -> Seq<char> {
    dec_str(t / 10) + "."@ + seq![dec_digit(t % 10)]
}

/// Human-readable byte count: B, KB, MB, GB at 1024-based thresholds with
/// one decimal place; below 1 KB, whole bytes.
pub open spec fn size_str(b: int) -> Seq<char> {
    if b >= GB as int {
        one_dec_str(tenths_of(b, GB as int)) + " GB"@
    } else if b >= MB as int {
        one_dec_str(tenths_of(b, MB as int)) + " MB"@
    } else if b >= KB as int {
        one_dec_str(tenths_of(b, KB as int)) + " KB"@
    } else {
        dec_str(b) + " B"@
    }
}

/// Human-readable bit rate: bps, kbps, Mbps at 1000-based thresholds with
/// one decimal place; below 1 kbps, whole bits per second.
pub open spec fn bitrate_str(b: int) -> Seq<char> {
    if b >= MBPS as int {
        one_dec_str(tenths_of(b, MBPS as int)) + " Mbps"@
    } else if b >= KBPS as int {
        one_dec_str(tenths_of(b, KBPS as int)) + " kbps"@
    } else {
        dec_str(b) + " bps"@
    }
}

/// Renders `n / unit` with one decimal place, rounded half-up.
fn format_scaled(n: u64, unit: u64) -> (r: String)
    requires
        1000 <= unit <= 1073741824,
    ensures
        r@ == one_dec_str(tenths_of(n as int, unit as int)),
{
    let x: u128 = (n as u128) * 10 + ((unit / 2) as u128);
    let t128: u128 = x / (unit as u128);
    proof {
        let xi = (n as int) * 10 + (unit as int) / 2;
        let ui = unit as int;
        vstd::arithmetic::div_mod::lemma_div_is_ordered_by_denominator(xi, 1000, ui);
        vstd::arithmetic::div_mod::lemma_div_is_ordered(
            xi,
            10 * (u64::MAX as int) + 536870912,
            1000,
        );
        assert(t128 as int == tenths_of(n as int, unit as int));
        assert(t128 <= u64::MAX as u128);
    }
    let t: u64 = t128 as u64;
    u64_to_string(t / 10).concat(".").concat(digit_str(t % 10))
}

/// Formats a byte count for humans.
pub fn format_size(bytes: u64) -> (r: String)
    ensures
        r@ == size_str(bytes as int),
{
    if bytes >= GB {
        format_scaled(bytes, GB).concat(" GB")
    } else if bytes >= MB {
        format_scaled(bytes, MB).concat(" MB")
    } else if bytes >= KB {
        format_scaled(bytes, KB).concat(" KB")
    } else {
        u64_to_string(bytes).concat(" B")
    }
}

/// Formats a bit rate for humans.
pub fn format_bitrate(bps: u64) -> (r: String)
    ensures
        r@ == bitrate_str(bps as int),
{
    if bps >= MBPS {
        format_scaled(bps, MBPS).concat(" Mbps")
    } else if bps >= KBPS {
        format_scaled(bps, KBPS).concat(" kbps")
    } else {
        u64_to_string(bps).concat(" bps")
    }
}

/// Unit bucket a byte count falls in: 0 bytes, 1 KB, 2 MB, 3 GB.
pub open spec fn size_unit(b: int) -> int {
    if b >= GB as int {
        3
    } else if b >= MB as int {
        2
    } else if b >= KB as int {
        1
    } else {
        0
    }
}

/// Divisor belonging to a unit bucket.
pub open spec fn size_unit_div(u: int) -> int {
    if u == 3 {
        GB as int
    } else if u == 2 {
        MB as int
    } else if u == 1 {
        KB as int
    } else {
        1
    }
}

/// Byte-count formatting is monotonic: a larger count never falls in a
/// smaller unit, and within one unit the displayed tenths never decrease.
pub proof fn lemma_format_size_monotonic(b1: int, b2: int)
    requires
        0 <= b1 <= b2,
    ensures
        size_unit(b1) <= size_unit(b2),
        size_unit(b1) == size_unit(b2) ==> tenths_of(b1, size_unit_div(size_unit(b1)))
            <= tenths_of(b2, size_unit_div(size_unit(b2))),
{
    let d = size_unit_div(size_unit(b1));
    vstd::arithmetic::div_mod::lemma_div_is_ordered(b1 * 10 + d / 2, b2 * 10 + d / 2, d);
}

/// At a unit transition the formatted value is exactly one of the new
/// unit: a count equal to the divisor renders as `1.0` of it.
pub proof fn lemma_format_size_boundary()
    ensures
        tenths_of(KB as int, KB as int) == 10,
        tenths_of(MB as int, MB as int) == 10,
        tenths_of(GB as int, GB as int) == 10,
        tenths_of(KBPS as int, KBPS as int) == 10,
        tenths_of(MBPS as int, MBPS as int) == 10,
{
}

/// Milliseconds rendered as `H:MM:SS.cc` when hours are present, else
/// `M:SS.cc`, with hundredths truncated.
pub open spec fn duration_str(ms: int) -> Seq<char> {
    let ts = ms / 1000;
    let h = ts / 3600;
    let m = (ts % 3600) / 60;
    let s = ts % 60;
    let cc = (ms % 1000) / 10;
    if h > 0 {
        dec_str(h) + ":"@ + pad2_str(m) + ":"@ + pad2_str(s) + "."@ + pad2_str(cc)
    } else {
        dec_str(m) + ":"@ + pad2_str(s) + "."@ + pad2_str(cc)
    }
}

/// Formats a duration in milliseconds for humans.
pub fn format_duration(ms: u64) -> (r: String)
    ensures
        r@ == duration_str(ms as int),
{
    let ts = ms / 1000;
    let h = ts / 3600;
    let m = (ts % 3600) / 60;
    let s = ts % 60;
    let cc = (ms % 1000) / 10;
    if h > 0 {
        u64_to_string(h).concat(":").concat(u64_to_pad2(m).as_str()).concat(":").concat(
            u64_to_pad2(s).as_str(),
        ).concat(".").concat(u64_to_pad2(cc).as_str())
    } else {
        u64_to_string(m).concat(":").concat(u64_to_pad2(s).as_str()).concat(".").concat(
            u64_to_pad2(cc).as_str(),
        )
    }
}

/// Index where the final path component begins: one past the last '/'.
pub open spec fn file_name_start(s: Seq<char>) -> int {
    last_index_of(s, '/') + 1
}

/// The final path component.
pub open spec fn spec_file_name(s: Seq<char>) -> Seq<char> {
    s.skip(file_name_start(s))
}

/// Where the stem ends within the whole path: at the file name's last dot,
/// unless the dot is absent or leads the name.
pub open spec fn stem_end(s: Seq<char>) -> int {
    let d = last_index_of(spec_file_name(s), '.');
    if d <= 0 {
        s.len() as int
    } else {
        file_name_start(s) + d
    }
}

/// The extension after the file name's last dot, when one is there.
pub open spec fn spec_extension(s: Seq<char>) -> Option<Seq<char>> {
    let name = spec_file_name(s);
    let d = last_index_of(name, '.');
    if d <= 0 {
        None
    } else {
        Some(name.skip(d + 1))
    }
}

/// The default output path: same directory and stem as the input, the
/// optional suffix appended to the stem, and the extension replaced.
pub open spec fn default_output_str(
    input: Seq<char>,
    suffix: Option<Seq<char>>,
    new_ext: Seq<char>,
) -> Seq<char> {
    input.take(stem_end(input)) + (match suffix {
        Some(x) => x,
        None => Seq::<char>::empty(),
    }) + "."@ + new_ext
}

/// The final path component of `input`.
pub fn path_file_name(input: &str) -> (r: String)
    ensures
        r@ == spec_file_name(input@),
{
    proof {
        crate::text::lemma_last_index_of(input@, '/');
    }
    let n = input.unicode_len();
    let start: usize = match find_last(input, '/') {
        Some(i) => i + 1,
        None => 0,
    };
    let name = input.substring_char(start, n);
    proof {
        assert(name@ =~= spec_file_name(input@));
    }
    String::from_str(name)
}

/// The extension of `input`'s file name, when it has one.
pub fn path_extension(input: &str) -> (r: Option<String>)
    ensures
        match r {
            Some(e) => spec_extension(input@) == Some(e@),
            None => spec_extension(input@) is None,
        },
{
    proof {
        crate::text::lemma_last_index_of(input@, '/');
    }
    let n = input.unicode_len();
    let start: usize = match find_last(input, '/') {
        Some(i) => i + 1,
        None => 0,
    };
    let name = input.substring_char(start, n);
    proof {
        assert(name@ =~= spec_file_name(input@));
        crate::text::lemma_last_index_of(name@, '.');
    }
    let nn = name.unicode_len();
    match find_last(name, '.') {
        Some(d) => {
            if d > 0 {
                let e = name.substring_char(d + 1, nn);
                proof {
                    assert(e@ =~= spec_file_name(input@).skip(d + 1));
                }
                Some(String::from_str(e))
            } else {
                None
            }
        },
        None => None,
    }
}

/// Builds the default output path for `input` with an optional stem suffix
/// and a replacement extension.
pub fn default_output_path(input: &str, suffix: Option<&str>, new_ext: &str) -> (r: String)
    ensures
        r@ == default_output_str(
            input@,
            match suffix {
                Some(x) => Some(x@),
                None => None,
            },
            new_ext@,
        ),
{
    proof {
        crate::text::lemma_last_index_of(input@, '/');
    }
    let n = input.unicode_len();
    let start: usize = match find_last(input, '/') {
        Some(i) => i + 1,
        None => 0,
    };
    let name = input.substring_char(start, n);
    proof {
        assert(name@ =~= spec_file_name(input@));
        crate::text::lemma_last_index_of(name@, '.');
    }
    let se: usize = match find_last(name, '.') {
        Some(d) => {
            if d > 0 {
                start + d
            } else {
                n
            }
        },
        None => n,
    };
    proof {
        assert(se as int == stem_end(input@));
    }
    let head = input.substring_char(0, se);
    proof {
        assert(head@ =~= input@.take(stem_end(input@)));
    }
    let mut r = String::from_str(head);
    match suffix {
        Some(sf) => {
            r = r.concat(sf);
        },
        None => {
            proof {
                assert(head@ + Seq::<char>::empty() =~= head@);
            }
        },
    }
    r = r.concat(".").concat(new_ext);
    r
}

/// An affirmative overwrite answer: "y" or "yes" in any ASCII case, after
/// trimming ASCII whitespace.
pub open spec fn affirmative(s: Seq<char>) -> bool {
    lower_str(trim_str(s)) == "y"@ || lower_str(trim_str(s)) == "yes"@
}

/// Tests whether `a` lowercased (ASCII) is the character `b`.
fn char_lower_eq(a: char, b: char) -> (r: bool)
    ensures
        r == (lower_char(a) == b),
{
    if 'A' <= a && a <= 'Z' {
        (a as u32) + 32 == (b as u32)
    } else {
        a == b
    }
}

/// Tests whether `t` lowercased (ASCII) equals `pat`.
fn str_lower_eq(t: &str, pat: &str) -> (r: bool)
    ensures
        r == (lower_str(t@) == pat@),
{
    let n = t.unicode_len();
    let m = pat.unicode_len();
    if n != m {
        proof {
            assert(lower_str(t@).len() == t@.len());
        }
        return false;
    }
    let mut i: usize = 0;
    while i < n
        invariant
            n == t@.len(),
            n == pat@.len(),
            i <= n,
            forall|j: int| 0 <= j < i ==> lower_str(t@)[j] == pat@[j],
        decreases n - i,
    {
        if !char_lower_eq(t.get_char(i), pat.get_char(i)) {
            proof {
                assert(lower_str(t@)[i as int] != pat@[i as int]);
            }
            return false;
        }
        i = i + 1;
    }
    proof {
        assert(lower_str(t@) =~= pat@);
    }
    true
}

/// Decides whether a prompt answer affirms the overwrite.
pub fn is_affirmative(s: &str) -> (r: bool)
    ensures
        r == affirmative(s@),
{
    let t = trim(s);
    let r1 = str_lower_eq(t, "y");
    let r2 = str_lower_eq(t, "yes");
    r1 || r2
}

} // verus!
