//! Character-level helpers on `str` and `String`, with contracts over
//! `Seq<char>`: decimal formatting, integer parsing as `str::parse` does it,
//! trimming, prefixes, suffixes and searches.

use vstd::prelude::*;
use vstd::string::*;

verus! {

broadcast use vstd::string::group_string_axioms;

// ---------------------------------------------------------------------------
// Trusted std calls that vstd leaves unspecified
// ---------------------------------------------------------------------------

/// `<str as PartialEq>::eq`: two string slices are equal exactly when their
/// character sequences are.
#[verifier::external_body]
pub(crate) fn str_eq(a: &str, b: &str) -> (res: bool)
    ensures
        res == (a@ == b@),
{
    a == b
}

/// `String::push`: appends one character to the string.
#[verifier::external_body]
pub(crate) fn push_char(s: &mut String, c: char)
    ensures
        final(s)@ == old(s)@.push(c),
{
    s.push(c)
}

/// The text that `String::from_utf8_lossy` reads from `bytes`: the bytes
/// decoded as UTF-8, each invalid sequence replaced by U+FFFD.
pub uninterp spec fn utf8_lossy(bytes: Seq<u8>) -> Seq<char>;

/// `String::from_utf8_lossy`, made an owned `String`.
#[verifier::external_body]
pub(crate) fn from_utf8_lossy(bytes: &[u8]) -> (res: String)
    ensures
        res@ == utf8_lossy(bytes@),
{
    String::from_utf8_lossy(bytes).into_owned()
}

// ---------------------------------------------------------------------------
// Characters
// ---------------------------------------------------------------------------

pub open spec fn is_digit(c: char) -> bool {
    '0' <= c && c <= '9'
}

pub open spec fn digit_value(c: char) -> nat {
    (c as int - '0' as int) as nat
}

pub open spec fn digit_char(d: nat) -> char {
    if d == 0 { '0' }
    else if d == 1 { '1' }
    else if d == 2 { '2' }
    else if d == 3 { '3' }
    else if d == 4 { '4' }
    else if d == 5 { '5' }
    else if d == 6 { '6' }
    else if d == 7 { '7' }
    else if d == 8 { '8' }
    else { '9' }
}

pub open spec fn is_ascii_alphanumeric(c: char) -> bool {
    ||| is_digit(c)
    ||| ('a' <= c && c <= 'z')
    ||| ('A' <= c && c <= 'Z')
}

/// `char::is_whitespace`: the Unicode `White_Space` property.
pub open spec fn is_whitespace(c: char) -> bool {
    ||| ('\u{9}' <= c && c <= '\u{d}')
    ||| c == ' '
    ||| c == '\u{85}'
    ||| c == '\u{a0}'
    ||| c == '\u{1680}'
    ||| ('\u{2000}' <= c && c <= '\u{200a}')
    ||| c == '\u{2028}'
    ||| c == '\u{2029}'
    ||| c == '\u{202f}'
    ||| c == '\u{205f}'
    ||| c == '\u{3000}'
}

/// `char::to_ascii_lowercase`.
pub open spec fn ascii_lower(c: char) -> char {
    if 'A' <= c && c <= 'Z' {
        ((c as u32) + 32) as char
    } else {
        c
    }
}

pub fn digit_of(d: u64) -> (c: char)
    requires
        d < 10,
    ensures
        c == digit_char(d as nat),
        is_digit(c),
        digit_value(c) == d,
{
    if d == 0 { '0' }
    else if d == 1 { '1' }
    else if d == 2 { '2' }
    else if d == 3 { '3' }
    else if d == 4 { '4' }
    else if d == 5 { '5' }
    else if d == 6 { '6' }
    else if d == 7 { '7' }
    else if d == 8 { '8' }
    else { '9' }
}

pub fn char_is_digit(c: char) -> (res: bool)
    ensures
        res == is_digit(c),
{
    '0' <= c && c <= '9'
}

pub fn char_is_ascii_alphanumeric(c: char) -> (res: bool)
    ensures
        res == is_ascii_alphanumeric(c),
{
    ('0' <= c && c <= '9') || ('a' <= c && c <= 'z') || ('A' <= c && c <= 'Z')
}

pub fn char_is_whitespace(c: char) -> (res: bool)
    ensures
        res == is_whitespace(c),
{
    ('\u{9}' <= c && c <= '\u{d}') || c == ' ' || c == '\u{85}' || c == '\u{a0}'
        || c == '\u{1680}' || ('\u{2000}' <= c && c <= '\u{200a}') || c == '\u{2028}'
        || c == '\u{2029}' || c == '\u{202f}' || c == '\u{205f}' || c == '\u{3000}'
}

pub fn char_to_ascii_lowercase(c: char) -> (res: char)
    ensures
        res == ascii_lower(c),
{
    if 'A' <= c && c <= 'Z' {
        let code: u32 = c as u32 + 32;
        let lower: u8 = code as u8;
        lower as char
    } else {
        c
    }
}

// ---------------------------------------------------------------------------
// Conversions between `str`, `String` and `Vec<char>`
// ---------------------------------------------------------------------------

/// The characters of `s`, in order.
pub fn chars_of(s: &str) -> (res: Vec<char>)
    ensures
        res@ == s@,
{
    let mut out: Vec<char> = Vec::new();
    for c in it: s.chars()
        invariant
            it.seq() == s@,
            out@ == it.seq().take(it.index()),
    {
        out.push(c);
    }
    out
}

/// Appends every character of `cs` to `s`.
pub fn push_chars(s: &mut String, cs: &[char])
    ensures
        final(s)@ == old(s)@ + cs@,
{
    let mut i: usize = 0;
    while i < cs.len()
        invariant
            i <= cs.len(),
            s@ == old(s)@ + cs@.take(i as int),
        decreases cs.len() - i,
    {
        push_char(s, cs[i]);
        i = i + 1;
        assert(cs@.take(i as int) == cs@.take(i - 1).push(cs@[i - 1]));
    }
    assert(cs@.take(cs.len() as int) == cs@);
}

/// A `String` holding exactly the characters of `cs`.
pub fn string_from_chars(cs: &[char]) -> (res: String)
    ensures
        res@ == cs@,
{
    let mut s = String::new();
    push_chars(&mut s, cs);
    s
}

/// Appends `t` to `s`.
pub fn push_str(s: &mut String, t: &str)
    ensures
        final(s)@ == old(s)@ + t@,
{
    s.append(t);
}

/// A fresh `String` with the characters of `t`.
pub fn to_owned_string(t: &str) -> (res: String)
    ensures
        res@ == t@,
{
    String::from_str(t)
}

// ---------------------------------------------------------------------------
// Decimal formatting
// ---------------------------------------------------------------------------

/// The decimal digits of `n`, most significant first, without leading zeros.
pub open spec fn decimal(n: nat) -> Seq<char>
    decreases n,
{
    if n < 10 {
        seq![digit_char(n)]
    } else {
        decimal(n / 10).push(digit_char(n % 10))
    }
}

/// `i64::to_string`: a minus sign for negative numbers, then the digits.
pub open spec fn signed_decimal(n: int) -> Seq<char> {
    if n < 0 {
        seq!['-'] + decimal((-n) as nat)
    } else {
        decimal(n as nat)
    }
}

/// `format!("{:02}", n)`: at least two characters, a zero in front of a
/// single non-negative digit.
pub open spec fn pad2(n: int) -> Seq<char> {
    if 0 <= n < 10 {
        seq!['0'] + signed_decimal(n)
    } else {
        signed_decimal(n)
    }
}

/// Quotient of Rust's `/` on signed integers (rounding toward zero).
pub open spec fn trunc_div(a: int, b: int) -> int {
    if a >= 0 { a / b } else { -((-a) / b) }
}

/// Remainder of Rust's `%` on signed integers (sign of the dividend).
pub open spec fn trunc_rem(a: int, b: int) -> int {
    a - b * trunc_div(a, b)
}

/// `format!("{:02}:{:02}", secs / 60, secs % 60)`.
pub open spec fn minutes_seconds(secs: int) -> Seq<char> {
    pad2(trunc_div(secs, 60)) + seq![':'] + pad2(trunc_rem(secs, 60))
}

/// Appends the decimal digits of `n`.
pub fn push_decimal(s: &mut String, n: u64)
    ensures
        final(s)@ == old(s)@ + decimal(n as nat),
    decreases n,
{
    if n >= 10 {
        push_decimal(s, n / 10);
    }
    let d = digit_of(n % 10);
    push_char(s, d);
    proof {
        if n >= 10 {
            assert(decimal(n as nat) == decimal((n / 10) as nat).push(digit_char((n % 10) as nat)));
        } else {
            assert(n as nat % 10 == n as nat);
        }
    }
}

/// Appends `n` as `i64::to_string` writes it.
pub fn push_signed_decimal(s: &mut String, n: i64)
    ensures
        final(s)@ == old(s)@ + signed_decimal(n as int),
{
    if n < 0 {
        push_char(s, '-');
        let magnitude: u64 = if n == i64::MIN {
            9223372036854775808u64
        } else {
            (-n) as u64
        };
        push_decimal(s, magnitude);
        assert(s@ == old(s)@ + (seq!['-'] + decimal((-n) as nat)));
    } else {
        push_decimal(s, n as u64);
    }
}

/// `i64::to_string`.
pub fn i64_to_string(n: i64) -> (res: String)
    ensures
        res@ == signed_decimal(n as int),
{
    let mut s = String::new();
    push_signed_decimal(&mut s, n);
    assert(s@ == Seq::<char>::empty() + signed_decimal(n as int));
    s
}

/// Appends `n` as `format!("{:02}", n)` writes it.
pub fn push_pad2(s: &mut String, n: i64)
    ensures
        final(s)@ == old(s)@ + pad2(n as int),
{
    if 0 <= n && n < 10 {
        push_char(s, '0');
        push_signed_decimal(s, n);
        assert(s@ == old(s)@ + (seq!['0'] + signed_decimal(n as int)));
    } else {
        push_signed_decimal(s, n);
    }
}

/// `format!("{:02}:{:02}", secs / 60, secs % 60)`.
pub fn format_minutes_seconds(secs: i64) -> (res: String)
    ensures
        res@ == minutes_seconds(secs as int),
{
    let minutes = secs / 60;
    let seconds = secs % 60;
    assert(minutes == trunc_div(secs as int, 60));
    assert(seconds == trunc_rem(secs as int, 60));
    let mut s = String::new();
    push_pad2(&mut s, minutes);
    push_char(&mut s, ':');
    push_pad2(&mut s, seconds);
    assert(s@ == Seq::<char>::empty() + pad2(minutes as int) + seq![':'] + pad2(seconds as int));
    s
}

// ---------------------------------------------------------------------------
// Integer parsing (`str::parse` on integer types)
// ---------------------------------------------------------------------------

pub open spec fn all_digits(s: Seq<char>) -> bool {
    forall|i: int| 0 <= i < s.len() ==> is_digit(#[trigger] s[i])
}

pub open spec fn digits_value(s: Seq<char>) -> nat
    decreases s.len(),
{
    if s.len() == 0 {
        0
    } else {
        digits_value(s.drop_last()) * 10 + digit_value(s.last())
    }
}

/// What `str::parse` reads for an unsigned type: an optional `+`, then one
/// or more ASCII digits and nothing else; no bound yet.
pub open spec fn unsigned_value(s: Seq<char>) -> Option<nat> {
    let d = if s.len() > 0 && s[0] == '+' { s.drop_first() } else { s };
    if d.len() > 0 && all_digits(d) {
        Some(digits_value(d))
    } else {
        None
    }
}

/// What `str::parse` reads for a signed type: as for unsigned types, or a
/// `-` followed by one or more digits.
pub open spec fn signed_value(s: Seq<char>) -> Option<int> {
    if s.len() > 0 && s[0] == '-' {
        let d = s.drop_first();
        if d.len() > 0 && all_digits(d) {
            Some(-(digits_value(d) as int))
        } else {
            None
        }
    } else {
        match unsigned_value(s) {
            Some(v) => Some(v as int),
            None => None,
        }
    }
}

/// `str::parse::<u64>`.
pub open spec fn parse_u64_spec(s: Seq<char>) -> Option<u64> {
    match unsigned_value(s) {
        Some(v) => if v <= u64::MAX { Some(v as u64) } else { None },
        None => None,
    }
}

/// `str::parse::<usize>`.
pub open spec fn parse_usize_spec(s: Seq<char>) -> Option<usize> {
    match unsigned_value(s) {
        Some(v) => if v <= usize::MAX { Some(v as usize) } else { None },
        None => None,
    }
}

/// `str::parse::<i64>`.
pub open spec fn parse_i64_spec(s: Seq<char>) -> Option<i64> {
    match signed_value(s) {
        Some(v) => if i64::MIN <= v <= i64::MAX { Some(v as i64) } else { None },
        None => None,
    }
}

pub proof fn lemma_digits_value_prefix(s: Seq<char>, k: int)
    requires
        0 <= k <= s.len(),
        all_digits(s),
    ensures
        digits_value(s.take(k)) <= digits_value(s),
    decreases s.len(),
{
    if k < s.len() {
        assert(s.drop_last().take(k) == s.take(k));
        assert(all_digits(s.drop_last())) by {
            assert forall|i: int| 0 <= i < s.drop_last().len() implies is_digit(#[trigger] s.drop_last()[i]) by {
                assert(s.drop_last()[i] == s[i]);
            }
        }
        lemma_digits_value_prefix(s.drop_last(), k);
    } else {
        assert(s.take(k) == s);
    }
}

/// Reads `cs[start..]` as digits only: `Some` with the value when there is at
/// least one digit, nothing else, and the value fits in `u64`.
fn digits_to_u64(cs: &[char], start: usize) -> (res: Option<u64>)
    requires
        start <= cs.len(),
    ensures
        ({
            let d = cs@.skip(start as int);
            res == (if d.len() > 0 && all_digits(d) && digits_value(d) <= u64::MAX {
                Some(digits_value(d) as u64)
            } else {
                None::<u64>
            })
        }),
{
    let ghost d = cs@.skip(start as int);
    if start == cs.len() {
        return None;
    }
    let mut acc: u64 = 0;
    let mut overflow = false;
    let mut i: usize = start;
    while i < cs.len()
        invariant
            start <= i <= cs.len(),
            d == cs@.skip(start as int),
            all_digits(d.take(i - start)),
            !overflow ==> acc == digits_value(d.take(i - start)),
            overflow ==> digits_value(d.take(i - start)) > u64::MAX,
        decreases cs.len() - i,
    {
        let c = cs[i];
        if !char_is_digit(c) {
            assert(d[i - start] == c);
            assert(!all_digits(d));
            return None;
        }
        let ghost prev = d.take(i - start);
        let ghost next = d.take(i - start + 1);
        assert(next.drop_last() == prev);
        assert(next.last() == c);
        assert(all_digits(next)) by {
            assert forall|j: int| 0 <= j < next.len() implies is_digit(#[trigger] next[j]) by {
                if j < prev.len() {
                    assert(next[j] == prev[j]);
                }
            }
        }
        let dv: u64 = (c as u32 - '0' as u32) as u64;
        assert(dv == digit_value(c));
        if !overflow {
            if acc > (u64::MAX - dv) / 10 {
                overflow = true;
                assert(acc * 10 + dv > u64::MAX) by (nonlinear_arith)
                    requires acc > (u64::MAX - dv) / 10, dv < 10;
            } else {
                assert(acc * 10 + dv <= u64::MAX) by (nonlinear_arith)
                    requires acc <= (u64::MAX - dv) / 10, dv < 10;
                acc = acc * 10 + dv;
            }
        } else {
            assert(digits_value(next) >= digits_value(prev)) by (nonlinear_arith)
                requires digits_value(next) == digits_value(prev) * 10 + digit_value(c);
        }
        i = i + 1;
    }
    assert(d.take(i - start) == d);
    if overflow {
        None
    } else {
        Some(acc)
    }
}

/// `str::parse::<u64>` on the characters `cs`.
pub fn parse_u64(cs: &[char]) -> (res: Option<u64>)
    ensures
        res == parse_u64_spec(cs@),
{
    if cs.len() > 0 && cs[0] == '+' {
        assert(cs@.skip(1) == cs@.drop_first());
        digits_to_u64(cs, 1)
    } else {
        assert(cs@.skip(0) == cs@);
        digits_to_u64(cs, 0)
    }
}

/// `str::parse::<usize>` on the characters `cs`.
pub fn parse_usize(cs: &[char]) -> (res: Option<usize>)
    ensures
        res == parse_usize_spec(cs@),
{
    match parse_u64(cs) {
        Some(v) => {
            if v <= usize::MAX as u64 {
                Some(v as usize)
            } else {
                None
            }
        },
        None => {
            proof {
                if let Some(v) = unsigned_value(cs@) {
                    assert(v > u64::MAX);
                }
            }
            None
        },
    }
}

/// `str::parse::<i64>` on the characters `cs`.
pub fn parse_i64(cs: &[char]) -> (res: Option<i64>)
    ensures
        res == parse_i64_spec(cs@),
{
    if cs.len() > 0 && cs[0] == '-' {
        assert(cs@.skip(1) == cs@.drop_first());
        match digits_to_u64(cs, 1) {
            Some(m) => {
                if m <= 9223372036854775808u64 {
                    if m == 9223372036854775808u64 {
                        Some(i64::MIN)
                    } else {
                        let v: i64 = m as i64;
                        Some(-v)
                    }
                } else {
                    None
                }
            },
            None => None,
        }
    } else {
        match parse_u64(cs) {
            Some(v) => {
                if v <= i64::MAX as u64 {
                    Some(v as i64)
                } else {
                    None
                }
            },
            None => None,
        }
    }
}

// ---------------------------------------------------------------------------
// Prefixes, suffixes, searches, trimming
// ---------------------------------------------------------------------------

pub open spec fn seq_starts_with(s: Seq<char>, p: Seq<char>) -> bool {
    p.len() <= s.len() && s.take(p.len() as int) == p
}

pub open spec fn seq_ends_with(s: Seq<char>, p: Seq<char>) -> bool {
    p.len() <= s.len() && s.skip(s.len() - p.len()) == p
}

/// `needle` occurs in `s` starting at index `i`.
pub open spec fn occurs_at(s: Seq<char>, needle: Seq<char>, i: int) -> bool {
    0 <= i && i + needle.len() <= s.len() && s.subrange(i, i + needle.len()) == needle
}

/// `str::contains` with a string pattern.
pub open spec fn seq_contains(s: Seq<char>, needle: Seq<char>) -> bool {
    exists|i: int| occurs_at(s, needle, i)
}

/// `slice::starts_with`.
pub fn starts_with(s: &[char], p: &[char]) -> (res: bool)
    ensures
        res == seq_starts_with(s@, p@),
{
    if p.len() > s.len() {
        return false;
    }
    let mut i: usize = 0;
    while i < p.len()
        invariant
            p.len() <= s.len(),
            i <= p.len(),
            forall|j: int| 0 <= j < i ==> s@[j] == p@[j],
        decreases p.len() - i,
    {
        if s[i] != p[i] {
            assert(s@.take(p.len() as int)[i as int] != p@[i as int]);
            return false;
        }
        i = i + 1;
    }
    assert(s@.take(p.len() as int) == p@);
    true
}

/// `slice::ends_with`.
pub fn ends_with(s: &[char], p: &[char]) -> (res: bool)
    ensures
        res == seq_ends_with(s@, p@),
{
    if p.len() > s.len() {
        return false;
    }
    let off = s.len() - p.len();
    let mut i: usize = 0;
    while i < p.len()
        invariant
            p.len() <= s.len(),
            off == s.len() - p.len(),
            i <= p.len(),
            forall|j: int| 0 <= j < i ==> s@[off + j] == p@[j],
        decreases p.len() - i,
    {
        if s[off + i] != p[i] {
            assert(s@.skip(off as int)[i as int] != p@[i as int]);
            return false;
        }
        i = i + 1;
    }
    assert(s@.skip(off as int) == p@);
    true
}

/// Does `needle` occur in `s` at index `i`?
pub fn matches_at(s: &[char], needle: &[char], i: usize) -> (res: bool)
    ensures
        res == occurs_at(s@, needle@, i as int),
{
    if i > s.len() || needle.len() > s.len() - i {
        return false;
    }
    let mut j: usize = 0;
    while j < needle.len()
        invariant
            i + needle.len() <= s.len(),
            j <= needle.len(),
            forall|k: int| 0 <= k < j ==> s@[i + k] == needle@[k],
        decreases needle.len() - j,
    {
        if s[i + j] != needle[j] {
            assert(s@.subrange(i as int, i + needle.len())[j as int] != needle@[j as int]);
            return false;
        }
        j = j + 1;
    }
    assert(s@.subrange(i as int, i + needle.len()) == needle@);
    true
}

/// `str::contains` with a string pattern.
pub fn contains(s: &[char], needle: &[char]) -> (res: bool)
    ensures
        res == seq_contains(s@, needle@),
{
    if needle.len() > s.len() {
        assert(!seq_contains(s@, needle@));
        return false;
    }
    let mut i: usize = 0;
    while i <= s.len() && needle.len() <= s.len() - i
        invariant
            needle.len() <= s.len(),
            i <= s.len() - needle.len() + 1,
            forall|k: int| 0 <= k < i ==> !occurs_at(s@, needle@, k),
        decreases s.len() - i,
    {
        if matches_at(s, needle, i) {
            return true;
        }
        assert(needle.len() > 0) by {
            if needle.len() == 0 {
                assert(s@.subrange(i as int, i as int) == needle@);
            }
        }
        i = i + 1;
    }
    assert forall|k: int| !occurs_at(s@, needle@, k) by {
        if 0 <= k && k + needle.len() <= s.len() {
            assert(k < i);
        }
    }
    false
}

/// Index of the first occurrence of `c` in `s` (`str::find` with a char).
pub open spec fn first_index_of(s: Seq<char>, c: char) -> Option<int> {
    if exists|i: int| 0 <= i < s.len() && s[i] == c {
        Some(choose|i: int| 0 <= i < s.len() && s[i] == c && forall|j: int| 0 <= j < i ==> s[j] != c)
    } else {
        None
    }
}

/// Position of the first `c` in `s` at or after `from`.
pub fn find_char_from(s: &[char], c: char, from: usize) -> (res: Option<usize>)
    requires
        from <= s.len(),
    ensures
        match res {
            Some(i) => from <= i < s.len() && s@[i as int] == c
                && forall|j: int| from <= j < i ==> s@[j] != c,
            None => forall|j: int| from <= j < s.len() ==> s@[j] != c,
        },
{
    let mut i: usize = from;
    while i < s.len()
        invariant
            from <= i <= s.len(),
            forall|j: int| from <= j < i ==> s@[j] != c,
        decreases s.len() - i,
    {
        if s[i] == c {
            return Some(i);
        }
        i = i + 1;
    }
    None
}

/// `str::trim_start`.
pub open spec fn trim_start(s: Seq<char>) -> Seq<char>
    decreases s.len(),
{
    if s.len() > 0 && is_whitespace(s[0]) {
        trim_start(s.drop_first())
    } else {
        s
    }
}

/// `str::trim_end`.
pub open spec fn trim_end(s: Seq<char>) -> Seq<char>
    decreases s.len(),
{
    if s.len() > 0 && is_whitespace(s.last()) {
        trim_end(s.drop_last())
    } else {
        s
    }
}

/// `str::trim`.
pub open spec fn trim(s: Seq<char>) -> Seq<char> {
    trim_end(trim_start(s))
}

proof fn lemma_trim_start_skip(s: Seq<char>, k: int)
    requires
        0 <= k <= s.len(),
        forall|j: int| 0 <= j < k ==> is_whitespace(#[trigger] s[j]),
    ensures
        trim_start(s) == trim_start(s.skip(k)),
    decreases k,
{
    if k > 0 {
        assert(s.drop_first().skip(k - 1) == s.skip(k));
        assert forall|j: int| 0 <= j < k - 1 implies is_whitespace(#[trigger] s.drop_first()[j]) by {
            assert(s.drop_first()[j] == s[j + 1]);
        }
        lemma_trim_start_skip(s.drop_first(), k - 1);
    } else {
        assert(s.skip(0) == s);
    }
}

proof fn lemma_trim_end_take(s: Seq<char>, k: int)
    requires
        0 <= k <= s.len(),
        forall|j: int| k <= j < s.len() ==> is_whitespace(#[trigger] s[j]),
    ensures
        trim_end(s) == trim_end(s.take(k)),
    decreases s.len() - k,
{
    if k < s.len() {
        assert(s.drop_last().take(k) == s.take(k));
        assert forall|j: int| k <= j < s.drop_last().len() implies is_whitespace(#[trigger] s.drop_last()[j]) by {
            assert(s.drop_last()[j] == s[j]);
        }
        lemma_trim_end_take(s.drop_last(), k);
    } else {
        assert(s.take(k) == s);
    }
}

/// The characters of `s` with leading and trailing whitespace removed.
pub fn trimmed(s: &[char]) -> (res: Vec<char>)
    ensures
        res@ == trim(s@),
{
    let mut start: usize = 0;
    while start < s.len() && char_is_whitespace(s[start])
        invariant
            start <= s.len(),
            forall|j: int| 0 <= j < start ==> is_whitespace(#[trigger] s@[j]),
        decreases s.len() - start,
    {
        start = start + 1;
    }
    proof { lemma_trim_start_skip(s@, start as int); }
    let ghost rest = s@.skip(start as int);
    assert(trim_start(rest) == rest);
    let mut end: usize = s.len();
    while end > start && char_is_whitespace(s[end - 1])
        invariant
            start <= end <= s.len(),
            rest == s@.skip(start as int),
            forall|j: int| end <= j < s.len() ==> is_whitespace(#[trigger] s@[j]),
        decreases end,
    {
        end = end - 1;
    }
    proof {
        assert forall|j: int| end - start <= j < rest.len() implies is_whitespace(#[trigger] rest[j]) by {
            assert(rest[j] == s@[start + j]);
        }
        lemma_trim_end_take(rest, end - start);
        assert(rest.take(end - start) == s@.subrange(start as int, end as int));
    }
    let mut out: Vec<char> = Vec::new();
    let mut i: usize = start;
    while i < end
        invariant
            start <= i <= end,
            end <= s.len(),
            out@ == s@.subrange(start as int, i as int),
        decreases end - i,
    {
        out.push(s[i]);
        i = i + 1;
        assert(out@ == s@.subrange(start as int, i as int));
    }
    out
}

/// The characters of `s` with leading whitespace removed.
pub fn trimmed_start(s: &[char]) -> (res: Vec<char>)
    ensures
        res@ == trim_start(s@),
{
    let mut start: usize = 0;
    while start < s.len() && char_is_whitespace(s[start])
        invariant
            start <= s.len(),
            forall|j: int| 0 <= j < start ==> is_whitespace(#[trigger] s@[j]),
        decreases s.len() - start,
    {
        start = start + 1;
    }
    proof {
        lemma_trim_start_skip(s@, start as int);
        assert(s@.skip(start as int) =~= s@.subrange(start as int, s.len() as int));
    }
    sub_chars(s, start, s.len())
}

/// The characters `s[from..to]`.
pub fn sub_chars(s: &[char], from: usize, to: usize) -> (res: Vec<char>)
    requires
        from <= to <= s.len(),
    ensures
        res@ == s@.subrange(from as int, to as int),
{
    let mut out: Vec<char> = Vec::new();
    let mut i: usize = from;
    while i < to
        invariant
            from <= i <= to,
            to <= s.len(),
            out@ == s@.subrange(from as int, i as int),
        decreases to - i,
    {
        out.push(s[i]);
        i = i + 1;
        assert(out@ == s@.subrange(from as int, i as int));
    }
    out
}

/// `str::to_ascii_lowercase`.
pub fn ascii_lowercase(s: &[char]) -> (res: Vec<char>)
    ensures
        res@ == s@.map_values(|c: char| ascii_lower(c)),
{
    let mut out: Vec<char> = Vec::new();
    let mut i: usize = 0;
    while i < s.len()
        invariant
            i <= s.len(),
            out@ == s@.take(i as int).map_values(|c: char| ascii_lower(c)),
        decreases s.len() - i,
    {
        out.push(char_to_ascii_lowercase(s[i]));
        i = i + 1;
        assert(out@ == s@.take(i as int).map_values(|c: char| ascii_lower(c)));
    }
    assert(s@.take(s.len() as int) == s@);
    out
}

// ---------------------------------------------------------------------------
// Splitting
// ---------------------------------------------------------------------------

/// Index of the first `c` in `s`.
pub open spec fn find(s: Seq<char>, c: char) -> Option<int>
    decreases s.len(),
{
    if s.len() == 0 {
        None
    } else if s[0] == c {
        Some(0)
    } else {
        match find(s.drop_first(), c) {
            Some(i) => Some(i + 1),
            None => None,
        }
    }
}

pub proof fn lemma_find(s: Seq<char>, c: char, i: int)
    requires
        0 <= i <= s.len(),
        forall|j: int| 0 <= j < i ==> s[j] != c,
    ensures
        i < s.len() && s[i] == c ==> find(s, c) == Some(i),
        i == s.len() ==> find(s, c) is None,
    decreases i,
{
    if i > 0 {
        lemma_find(s.drop_first(), c, i - 1);
    } else if s.len() > 0 && i == s.len() {
    }
}

/// `find` gives the first occurrence, or none when there is none.
pub proof fn lemma_find_is_first(s: Seq<char>, c: char)
    ensures
        match find(s, c) {
            Some(i) => 0 <= i < s.len() && s[i] == c && forall|j: int| 0 <= j < i ==> s[j] != c,
            None => forall|j: int| 0 <= j < s.len() ==> s[j] != c,
        },
    decreases s.len(),
{
    if s.len() > 0 && s[0] != c {
        lemma_find_is_first(s.drop_first(), c);
        match find(s.drop_first(), c) {
            Some(i) => {
                assert forall|j: int| 0 <= j < i + 1 implies s[j] != c by {
                    if j > 0 {
                        assert(s[j] == s.drop_first()[j - 1]);
                    }
                }
            },
            None => {
                assert forall|j: int| 0 <= j < s.len() implies s[j] != c by {
                    if j > 0 {
                        assert(s[j] == s.drop_first()[j - 1]);
                    }
                }
            },
        }
    }
}

/// A text without `c` is one piece when split at `c`.
pub proof fn lemma_split_on_without(s: Seq<char>, c: char)
    requires
        forall|j: int| 0 <= j < s.len() ==> s[j] != c,
    ensures
        split_on(s, c) == seq![s],
    decreases s.len(),
{
    if s.len() > 0 {
        lemma_split_on_without(s.drop_last(), c);
        assert(s.drop_last().push(s.last()) =~= s);
        assert(seq![s.drop_last()].update(0, s.drop_last().push(s.last())) =~= seq![s]);
    } else {
        assert(s =~= seq![]);
    }
}

/// The decimal digits of `n` are digits, and read back as `n`.
pub proof fn lemma_decimal_reads_back(n: nat)
    ensures
        decimal(n).len() > 0,
        all_digits(decimal(n)),
        digits_value(decimal(n)) == n,
    decreases n,
{
    if n >= 10 {
        lemma_decimal_reads_back(n / 10);
        let d = decimal(n / 10);
        let s = d.push(digit_char(n % 10));
        assert(s.drop_last() =~= d);
        assert(digit_value(digit_char(n % 10)) == n % 10);
        assert((n / 10) * 10 + n % 10 == n) by (nonlinear_arith);
        assert(digits_value(s) == digits_value(d) * 10 + digit_value(s.last()));
        assert(decimal(n) == s);
        assert forall|i: int| 0 <= i < s.len() implies is_digit(#[trigger] s[i]) by {
            if i < d.len() {
                assert(s[i] == d[i]);
            }
        }
    } else {
        assert(digit_value(digit_char(n)) == n);
        let s = seq![digit_char(n)];
        assert(s.drop_last() =~= Seq::<char>::empty());
        assert(digits_value(Seq::<char>::empty()) == 0);
        assert(digits_value(s) == digits_value(s.drop_last()) * 10 + digit_value(s.last()));
        assert(decimal(n) == s);
    }
}

/// `str::parse::<usize>` reads the decimal digits of `n` as `n`.
pub proof fn lemma_parse_usize_decimal(n: usize)
    ensures
        parse_usize_spec(decimal(n as nat)) == Some(n),
{
    lemma_decimal_reads_back(n as nat);
    let s = decimal(n as nat);
    assert(is_digit(s[0]));
}

/// `str::split_once` with a char: the parts before and after the first `c`.
pub open spec fn split_once(s: Seq<char>, c: char) -> Option<(Seq<char>, Seq<char>)> {
    match find(s, c) {
        Some(i) => Some((s.take(i), s.skip(i + 1))),
        None => None,
    }
}

/// The part of `s` before the first `c`, or all of `s`
/// (`s.split(c).next()`).
pub open spec fn before(s: Seq<char>, c: char) -> Seq<char> {
    match find(s, c) {
        Some(i) => s.take(i),
        None => s,
    }
}

/// `str::strip_prefix`.
pub open spec fn strip_prefix(s: Seq<char>, p: Seq<char>) -> Option<Seq<char>> {
    if seq_starts_with(s, p) {
        Some(s.skip(p.len() as int))
    } else {
        None
    }
}

/// `s.strip_prefix(p).unwrap_or(s)`.
pub open spec fn without_prefix(s: Seq<char>, p: Seq<char>) -> Seq<char> {
    match strip_prefix(s, p) {
        Some(r) => r,
        None => s,
    }
}

/// Position of the first `c` in `s`.
pub fn find_char(s: &[char], c: char) -> (res: Option<usize>)
    ensures
        match res {
            Some(i) => find(s@, c) == Some(i as int) && i < s.len() && s@[i as int] == c,
            None => find(s@, c) is None,
        },
{
    let r = find_char_from(s, c, 0);
    proof {
        match r {
            Some(i) => lemma_find(s@, c, i as int),
            None => lemma_find(s@, c, s@.len() as int),
        }
    }
    r
}

/// `str::split_once` with a char.
pub fn split_once_char(s: &[char], c: char) -> (res: Option<(Vec<char>, Vec<char>)>)
    ensures
        match res {
            Some((a, b)) => split_once(s@, c) == Some((a@, b@)),
            None => split_once(s@, c) is None,
        },
{
    match find_char(s, c) {
        Some(i) => {
            let a = sub_chars(s, 0, i);
            let b = sub_chars(s, i + 1, s.len());
            assert(a@ == s@.take(i as int));
            assert(b@ == s@.skip(i + 1));
            Some((a, b))
        },
        None => None,
    }
}

/// The part of `s` before the first `c`, or all of `s`.
pub fn before_char(s: &[char], c: char) -> (res: Vec<char>)
    ensures
        res@ == before(s@, c),
{
    match find_char(s, c) {
        Some(i) => {
            let a = sub_chars(s, 0, i);
            assert(a@ == s@.take(i as int));
            a
        },
        None => sub_chars(s, 0, s.len()),
    }
}

/// `str::strip_prefix`.
pub fn strip_prefix_chars(s: &[char], p: &[char]) -> (res: Option<Vec<char>>)
    ensures
        match res {
            Some(r) => strip_prefix(s@, p@) == Some(r@),
            None => strip_prefix(s@, p@) is None,
        },
{
    if starts_with(s, p) {
        let r = sub_chars(s, p.len(), s.len());
        assert(r@ == s@.skip(p.len() as int));
        Some(r)
    } else {
        None
    }
}

/// `s.strip_prefix(p).unwrap_or(s)`.
pub fn without_prefix_chars(s: &[char], p: &[char]) -> (res: Vec<char>)
    ensures
        res@ == without_prefix(s@, p@),
{
    match strip_prefix_chars(s, p) {
        Some(r) => r,
        None => sub_chars(s, 0, s.len()),
    }
}

// ---------------------------------------------------------------------------
// URLs
// ---------------------------------------------------------------------------

/// A protocol-relative URL (`//host/..`) made absolute with `https:`; any
/// other text unchanged.
pub open spec fn normalized_url_spec(url: Seq<char>) -> Seq<char> {
    if seq_starts_with(url, "//"@) {
        "https:"@ + url
    } else {
        url
    }
}

/// `https:` in front of a protocol-relative URL.
pub fn normalized_url(url: &str) -> (res: String)
    ensures
        res@ == normalized_url_spec(url@),
{
    let chars = chars_of(url);
    let slashes = chars_of("//");
    if starts_with(&chars, &slashes) {
        let mut s = to_owned_string("https:");
        push_str(&mut s, url);
        s
    } else {
        to_owned_string(url)
    }
}

/// The texts of a sequence of strings.
pub open spec fn string_views(v: Seq<String>) -> Seq<Seq<char>> {
    v.map_values(|s: String| s@)
}

/// `parts` joined by `sep`.
pub open spec fn joined(parts: Seq<Seq<char>>, sep: Seq<char>) -> Seq<char>
    decreases parts.len(),
{
    if parts.len() == 0 {
        seq![]
    } else if parts.len() == 1 {
        parts[0]
    } else {
        joined(parts.drop_last(), sep) + sep + parts.last()
    }
}

/// The pieces of `s` between the occurrences of `c`, empty ones included
/// (`str::split` with a char).
pub open spec fn split_on(s: Seq<char>, c: char) -> Seq<Seq<char>>
    decreases s.len(),
{
    if s.len() == 0 {
        seq![seq![]]
    } else {
        let p = split_on(s.drop_last(), c);
        if s.last() == c {
            p.push(seq![])
        } else {
            p.update(p.len() - 1, p.last().push(s.last()))
        }
    }
}

pub proof fn lemma_split_on_nonempty(s: Seq<char>, c: char)
    ensures
        split_on(s, c).len() >= 1,
    decreases s.len(),
{
    if s.len() > 0 {
        lemma_split_on_nonempty(s.drop_last(), c);
    }
}

pub open spec fn vecs_view(v: Seq<Vec<char>>) -> Seq<Seq<char>> {
    v.map_values(|x: Vec<char>| x@)
}

/// `str::split` with a char.
pub fn split_on_char(s: &[char], c: char) -> (res: Vec<Vec<char>>)
    ensures
        vecs_view(res@) == split_on(s@, c),
{
    let mut out: Vec<Vec<char>> = Vec::new();
    let mut cur: Vec<char> = Vec::new();
    let mut i: usize = 0;
    assert(s@.take(0) =~= Seq::<char>::empty());
    assert(vecs_view(out@) =~= split_on(s@.take(0), c).drop_last());
    while i < s.len()
        invariant
            i <= s.len(),
            split_on(s@.take(i as int), c).len() >= 1,
            cur@ == split_on(s@.take(i as int), c).last(),
            vecs_view(out@) == split_on(s@.take(i as int), c).drop_last(),
        decreases s.len() - i,
    {
        let ghost p = split_on(s@.take(i as int), c);
        assert(s@.take(i + 1).drop_last() =~= s@.take(i as int));
        if s[i] == c {
            let ghost before = out@;
            let finished = cur;
            out.push(finished);
            cur = Vec::new();
            assert(vecs_view(out@) =~= vecs_view(before).push(finished@));
            assert(p.push(seq![]).drop_last() =~= p);
            assert(p.drop_last().push(p.last()) =~= p);
        } else {
            cur.push(s[i]);
            assert(p.update(p.len() - 1, p.last().push(s@[i as int])).drop_last() =~= p.drop_last());
        }
        i = i + 1;
    }
    assert(s@.take(s.len() as int) =~= s@);
    let ghost p = split_on(s@, c);
    let ghost before = out@;
    let last = cur;
    out.push(last);
    assert(vecs_view(out@) =~= vecs_view(before).push(last@));
    assert(p.drop_last().push(p.last()) =~= p);
    out
}

} // verus!
