//! Small verified text toolkit: decimal rendering, ASCII case mapping,
//! trimming, and string equality, used by the formatting and planning
//! modules.

use vstd::prelude::*;

verus! {

/// Character for one decimal digit value.
pub open spec fn dec_digit(d: int) -> char {
    if d == 0 {
        '0'
    } else if d == 1 {
        '1'
    } else if d == 2 {
        '2'
    } else if d == 3 {
        '3'
    } else if d == 4 {
        '4'
    } else if d == 5 {
        '5'
    } else if d == 6 {
        '6'
    } else if d == 7 {
        '7'
    } else if d == 8 {
        '8'
    } else {
        '9'
    }
}

/// Decimal rendering of a non-negative integer, most significant digit first.
pub open spec fn dec_str(n: int) -> Seq<char>
    decreases n,
{
    if n < 10 {
        seq![dec_digit(n)]
    } else {
        dec_str(n / 10) + seq![dec_digit(n % 10)]
    }
}

/// Decimal rendering padded on the left with '0' to at least two digits.
pub open spec fn pad2_str(n: int) -> Seq<char> {
    if n < 10 {
        seq!['0'] + dec_str(n)
    } else {
        dec_str(n)
    }
}

/// The one-character string for a digit value.
pub fn digit_str(d: u64) -> (r: &'static str)
    requires
        d < 10,
    ensures
        r@ == seq![dec_digit(d as int)],
{
    proof {
        reveal_strlit("0");
        reveal_strlit("1");
        reveal_strlit("2");
        reveal_strlit("3");
        reveal_strlit("4");
        reveal_strlit("5");
        reveal_strlit("6");
        reveal_strlit("7");
        reveal_strlit("8");
        reveal_strlit("9");
    }
    if d == 0 {
        "0"
    } else if d == 1 {
        "1"
    } else if d == 2 {
        "2"
    } else if d == 3 {
        "3"
    } else if d == 4 {
        "4"
    } else if d == 5 {
        "5"
    } else if d == 6 {
        "6"
    } else if d == 7 {
        "7"
    } else if d == 8 {
        "8"
    } else {
        "9"
    }
}

/// Renders `n` in decimal.
pub fn u64_to_string(n: u64) -> (r: String)
    ensures
        r@ == dec_str(n as int),
    decreases n,
{
    if n < 10 {
        String::from_str(digit_str(n))
    } else {
        let prefix = u64_to_string(n / 10);
        prefix.concat(digit_str(n % 10))
    }
}

/// Renders `n` in decimal, left-padded with '0' to at least two digits.
pub fn u64_to_pad2(n: u64) -> (r: String)
    ensures
        r@ == pad2_str(n as int),
{
    proof {
        reveal_strlit("0");
    }
    if n < 10 {
        String::from_str("0").concat(digit_str(n))
    } else {
        u64_to_string(n)
    }
}

/// String equality by view.
pub fn str_eq(a: &str, b: &str) -> (r: bool)
    ensures
        r == (a@ == b@),
{
    let a_s = String::from_str(a);
    let b_s = String::from_str(b);
    a_s == b_s
}

/// ASCII uppercase of one character; everything else is unchanged.
pub open spec fn upper_char(c: char) -> char {
    if 'a' <= c && c <= 'z' {
        (((c as u8) - 32) as u8) as char
    } else {
        c
    }
}

/// ASCII lowercase of one character; everything else is unchanged.
pub open spec fn lower_char(c: char) -> char {
    if 'A' <= c && c <= 'Z' {
        (((c as u8) + 32) as u8) as char
    } else {
        c
    }
}

/// ASCII uppercase applied to every character.
pub open spec fn upper_str(s: Seq<char>) -> Seq<char> {
    s.map_values(|c: char| upper_char(c))
}

/// ASCII lowercase applied to every character.
pub open spec fn lower_str(s: Seq<char>) -> Seq<char> {
    s.map_values(|c: char| lower_char(c))
}

/// Relies on std's String::from_utf8: a byte vector that is entirely ASCII
/// is valid UTF-8 and decodes to the string whose characters are exactly
/// those bytes.
#[verifier::external_body]
fn string_from_ascii(bytes: Vec<u8>) -> (r: String)
    requires
        forall|i: int| 0 <= i < bytes@.len() ==> bytes@[i] < 128,
    ensures
        r@ == bytes@.map_values(|b: u8| b as char),
{
    String::from_utf8(bytes).unwrap_or_default()
}

/// ASCII uppercase of a whole string; a string with any character outside
/// ASCII is returned unchanged.
pub fn ascii_upper(s: &str) -> (r: String)
    ensures
        r@ == if vstd::string::is_ascii(s) {
            upper_str(s@)
        } else {
            s@
        },
{
    broadcast use vstd::string::is_ascii_spec_bytes;

    if !s.is_ascii() {
        return String::from_str(s);
    }
    let bytes = s.as_bytes_vec();
    let mut out: Vec<u8> = Vec::new();
    let n = bytes.len();
    let mut i: usize = 0;
    while i < n
        invariant
            vstd::string::is_ascii(s),
            bytes@ == Seq::new(s@.len(), |k: int| s@[k] as u8),
            n == bytes@.len(),
            i <= n,
            out@.len() == i,
            forall|k: int| 0 <= k < i ==> out@[k] < 128,
            forall|k: int| 0 <= k < i ==> out@[k] as char == upper_char(s@[k]),
        decreases n - i,
    {
        let b = bytes[i];
        proof {
            assert(s@[i as int] as u8 == b);
            assert((s@[i as int] as int) < 128);
        }
        if 97 <= b && b <= 122 {
            out.push(b - 32);
        } else {
            out.push(b);
        }
        i = i + 1;
    }
    let r = string_from_ascii(out);
    proof {
        assert(r@ =~= upper_str(s@));
    }
    r
}

/// ASCII lowercase of a whole string; a string with any character outside
/// ASCII is returned unchanged.
pub fn ascii_lower(s: &str) -> (r: String)
    ensures
        r@ == if vstd::string::is_ascii(s) {
            lower_str(s@)
        } else {
            s@
        },
{
    broadcast use vstd::string::is_ascii_spec_bytes;

    if !s.is_ascii() {
        return String::from_str(s);
    }
    let bytes = s.as_bytes_vec();
    let mut out: Vec<u8> = Vec::new();
    let n = bytes.len();
    let mut i: usize = 0;
    while i < n
        invariant
            vstd::string::is_ascii(s),
            bytes@ == Seq::new(s@.len(), |k: int| s@[k] as u8),
            n == bytes@.len(),
            i <= n,
            out@.len() == i,
            forall|k: int| 0 <= k < i ==> out@[k] < 128,
            forall|k: int| 0 <= k < i ==> out@[k] as char == lower_char(s@[k]),
        decreases n - i,
    {
        let b = bytes[i];
        proof {
            assert(s@[i as int] as u8 == b);
            assert((s@[i as int] as int) < 128);
        }
        if 65 <= b && b <= 90 {
            out.push(b + 32);
        } else {
            out.push(b);
        }
        i = i + 1;
    }
    let r = string_from_ascii(out);
    proof {
        assert(r@ =~= lower_str(s@));
    }
    r
}

/// The parts joined with `sep` between consecutive parts.
pub open spec fn join_str(parts: Seq<Seq<char>>, sep: Seq<char>) -> Seq<char>
    decreases parts.len(),
{
    if parts.len() == 0 {
        Seq::empty()
    } else if parts.len() == 1 {
        parts[0]
    } else {
        join_str(parts.drop_last(), sep) + sep + parts.last()
    }
}

/// Joins the strings with `sep` between consecutive entries.
pub fn join_strings(parts: &Vec<String>, sep: &str) -> (r: String)
    ensures
        r@ == join_str(parts@.map_values(|p: String| p@), sep@),
{
    let ghost mapped = parts@.map_values(|p: String| p@);
    let mut r = String::new();
    let n = parts.len();
    let mut i: usize = 0;
    while i < n
        invariant
            n == parts@.len(),
            mapped == parts@.map_values(|p: String| p@),
            mapped.len() == n,
            i <= n,
            r@ == join_str(mapped.take(i as int), sep@),
        decreases n - i,
    {
        if i > 0 {
            r = r.concat(sep);
        }
        r = r.concat(parts[i].as_str());
        proof {
            assert(mapped.take(i as int + 1).drop_last() =~= mapped.take(i as int));
            assert(mapped.take(i as int + 1).last() == mapped[i as int]);
            if i == 0 {
                assert(Seq::<char>::empty() + mapped[0] =~= mapped[0]);
                assert(mapped.take(1)[0] == mapped[0]);
            }
        }
        i = i + 1;
    }
    proof {
        assert(mapped.take(n as int) =~= mapped);
    }
    r
}

/// Index of the first occurrence of `c` in `s`, or -1 when absent.
pub open spec fn first_index_of(s: Seq<char>, c: char) -> int
    decreases s.len(),
{
    if s.len() == 0 {
        -1
    } else if s[0] == c {
        0
    } else {
        let r = first_index_of(s.drop_first(), c);
        if r < 0 {
            -1
        } else {
            r + 1
        }
    }
}

/// Index of the last occurrence of `c` in `s`, or -1 when absent.
pub open spec fn last_index_of(s: Seq<char>, c: char) -> int
    decreases s.len(),
{
    if s.len() == 0 {
        -1
    } else if s.last() == c {
        s.len() - 1
    } else {
        last_index_of(s.drop_last(), c)
    }
}

pub proof fn lemma_first_index_of(s: Seq<char>, c: char)
    ensures
        ({
            let r = first_index_of(s, c);
            &&& r == -1 ==> forall|j: int| 0 <= j < s.len() ==> s[j] != c
            &&& r != -1 ==> 0 <= r < s.len() && s[r] == c && (forall|j: int|
                0 <= j < r ==> s[j] != c)
        }),
    decreases s.len(),
{
    if s.len() > 0 && s[0] != c {
        let t = s.drop_first();
        lemma_first_index_of(t, c);
        assert(forall|j: int| 0 <= j < t.len() ==> t[j] == s[j + 1]);
        let r = first_index_of(s, c);
        if r != -1 {
            assert(forall|j: int| 1 <= j < r ==> s[j] == t[j - 1] && t[j - 1] != c);
        } else {
            assert(forall|j: int| 1 <= j < s.len() ==> s[j] == t[j - 1] && t[j - 1] != c);
        }
    }
}

pub proof fn lemma_last_index_of(s: Seq<char>, c: char)
    ensures
        ({
            let r = last_index_of(s, c);
            &&& r == -1 ==> forall|j: int| 0 <= j < s.len() ==> s[j] != c
            &&& r != -1 ==> 0 <= r < s.len() && s[r] == c && (forall|j: int|
                r < j < s.len() ==> s[j] != c)
        }),
    decreases s.len(),
{
    if s.len() > 0 && s.last() != c {
        let t = s.drop_last();
        lemma_last_index_of(t, c);
        assert(forall|j: int| 0 <= j < t.len() ==> t[j] == s[j]);
        let r = last_index_of(s, c);
        if r != -1 {
            assert(forall|j: int| r < j < s.len() - 1 ==> s[j] == t[j] && t[j] != c);
        } else {
            assert(forall|j: int| 0 <= j < s.len() - 1 ==> s[j] == t[j] && t[j] != c);
        }
    }
}

pub proof fn lemma_first_index_of_at(s: Seq<char>, c: char, i: int)
    requires
        0 <= i < s.len(),
        s[i] == c,
        forall|j: int| 0 <= j < i ==> s[j] != c,
    ensures
        first_index_of(s, c) == i,
    decreases i,
{
    if i > 0 {
        let t = s.drop_first();
        assert(forall|j: int| 0 <= j < t.len() ==> t[j] == s[j + 1]);
        assert(s[0] != c);
        lemma_first_index_of_at(t, c, i - 1);
    }
}

pub proof fn lemma_first_index_of_none(s: Seq<char>, c: char)
    requires
        forall|j: int| 0 <= j < s.len() ==> s[j] != c,
    ensures
        first_index_of(s, c) == -1,
    decreases s.len(),
{
    if s.len() > 0 {
        let t = s.drop_first();
        assert(forall|j: int| 0 <= j < t.len() ==> t[j] == s[j + 1]);
        lemma_first_index_of_none(t, c);
    }
}

pub proof fn lemma_last_index_of_at(s: Seq<char>, c: char, i: int)
    requires
        0 <= i < s.len(),
        s[i] == c,
        forall|j: int| i < j < s.len() ==> s[j] != c,
    ensures
        last_index_of(s, c) == i,
    decreases s.len(),
{
    if i < s.len() - 1 {
        let t = s.drop_last();
        assert(forall|j: int| 0 <= j < t.len() ==> t[j] == s[j]);
        assert(s.last() != c);
        lemma_last_index_of_at(t, c, i);
    }
}

pub proof fn lemma_last_index_of_none(s: Seq<char>, c: char)
    requires
        forall|j: int| 0 <= j < s.len() ==> s[j] != c,
    ensures
        last_index_of(s, c) == -1,
    decreases s.len(),
{
    if s.len() > 0 {
        let t = s.drop_last();
        assert(forall|j: int| 0 <= j < t.len() ==> t[j] == s[j]);
        lemma_last_index_of_none(t, c);
    }
}

/// First index of `c` in `s`, scanning by character.
pub fn find_first(s: &str, c: char) -> (r: Option<usize>)
    ensures
        ({
            let fi = first_index_of(s@, c);
            match r {
                Some(i) => i as int == fi,
                None => fi == -1,
            }
        }),
{
    let n = s.unicode_len();
    let mut i: usize = 0;
    while i < n
        invariant
            n == s@.len(),
            i <= n,
            forall|j: int| 0 <= j < i ==> s@[j] != c,
        decreases n - i,
    {
        if s.get_char(i) == c {
            proof {
                lemma_first_index_of_at(s@, c, i as int);
            }
            return Some(i);
        }
        i = i + 1;
    }
    proof {
        lemma_first_index_of_none(s@, c);
    }
    None
}

/// Last index of `c` in `s`, scanning by character.
pub fn find_last(s: &str, c: char) -> (r: Option<usize>)
    ensures
        ({
            let li = last_index_of(s@, c);
            match r {
                Some(i) => i as int == li,
                None => li == -1,
            }
        }),
{
    let n = s.unicode_len();
    let mut i: usize = n;
    while i > 0
        invariant
            n == s@.len(),
            i <= n,
            forall|j: int| i <= j < s@.len() ==> s@[j] != c,
        decreases i,
    {
        i = i - 1;
        if s.get_char(i) == c {
            proof {
                lemma_last_index_of_at(s@, c, i as int);
            }
            return Some(i);
        }
    }
    proof {
        lemma_last_index_of_none(s@, c);
    }
    None
}

/// ASCII whitespace, as trimming understands it.
pub open spec fn is_space_char(c: char) -> bool {
    c == ' ' || c == '\t' || c == '\n' || c == '\r'
}

pub open spec fn trim_front(s: Seq<char>) -> Seq<char>
    decreases s.len(),
{
    if s.len() > 0 && is_space_char(s[0]) {
        trim_front(s.drop_first())
    } else {
        s
    }
}

pub open spec fn trim_back(s: Seq<char>) -> Seq<char>
    decreases s.len(),
{
    if s.len() > 0 && is_space_char(s.last()) {
        trim_back(s.drop_last())
    } else {
        s
    }
}

/// `s` with ASCII whitespace removed from both ends.
pub open spec fn trim_str(s: Seq<char>) -> Seq<char> {
    trim_back(trim_front(s))
}

proof fn lemma_trim_front_skip(s: Seq<char>, i: int)
    requires
        0 <= i <= s.len(),
        forall|j: int| 0 <= j < i ==> is_space_char(s[j]),
        i == s.len() || !is_space_char(s[i]),
    ensures
        trim_front(s) =~= s.skip(i),
    decreases i,
{
    if i > 0 {
        lemma_trim_front_skip(s.drop_first(), i - 1);
        assert(s.drop_first().skip(i - 1) =~= s.skip(i));
    }
}

proof fn lemma_trim_back_take(s: Seq<char>, i: int)
    requires
        0 <= i <= s.len(),
        forall|j: int| i <= j < s.len() ==> is_space_char(s[j]),
        i == 0 || !is_space_char(s[i - 1]),
    ensures
        trim_back(s) =~= s.take(i),
    decreases s.len() - i,
{
    if i < s.len() {
        lemma_trim_back_take(s.drop_last(), i);
        assert(s.drop_last().take(i) =~= s.take(i));
    }
}

fn is_space(c: char) -> (r: bool)
    ensures
        r == is_space_char(c),
{
    c == ' ' || c == '\t' || c == '\n' || c == '\r'
}

/// `s` with ASCII whitespace removed from both ends.
pub fn trim(s: &str) -> (r: &str)
    ensures
        r@ == trim_str(s@),
{
    let n = s.unicode_len();
    let mut lo: usize = 0;
    while lo < n && is_space(s.get_char(lo))
        invariant
            n == s@.len(),
            lo <= n,
            forall|j: int| 0 <= j < lo ==> is_space_char(s@[j]),
        decreases n - lo,
    {
        lo = lo + 1;
    }
    proof {
        lemma_trim_front_skip(s@, lo as int);
    }
    let mut hi: usize = n;
    while hi > lo && is_space(s.get_char(hi - 1))
        invariant
            n == s@.len(),
            lo <= hi <= n,
            forall|j: int| hi <= j < s@.len() ==> is_space_char(s@[j]),
            forall|j: int| 0 <= j < lo ==> is_space_char(s@[j]),
        decreases hi,
    {
        hi = hi - 1;
    }
    let r = s.substring_char(lo, hi);
    proof {
        let f = s@.skip(lo as int);
        if hi == lo {
            lemma_trim_back_take(f, 0);
        } else {
            lemma_trim_back_take(f, hi - lo);
        }
        assert(r@ =~= f.take(hi - lo as int));
    }
    r
}

} // verus!
