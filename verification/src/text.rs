//! Small string helpers shared by the formatting code.

use vstd::prelude::*;
use vstd::string::StrSliceExecFns;

verus! {

/// Appends one character to a `String` (std's `String::push`).
#[verifier::external_body]
pub(crate) fn push_char(s: &mut String, c: char)
    ensures
        final(s)@ == old(s)@.push(c),
{
    s.push(c);
}

/// Appends the characters of a `&str` to a `String` (std's `String::push_str`).
#[verifier::external_body]
pub(crate) fn push_str(s: &mut String, t: &str)
    ensures
        final(s)@ == old(s)@ + t@,
{
    s.push_str(t);
}

/// String equality (std's `PartialEq` for `str`).
#[verifier::external_body]
pub(crate) fn str_eq(a: &str, b: &str) -> (r: bool)
    ensures
        r == (a@ == b@),
{
    a == b
}

/// An owned copy of a `&str`.
pub(crate) fn to_owned(s: &str) -> (r: String)
    ensures
        r@ == s@,
{
    s.to_owned()
}

/// The character of a decimal digit.
pub open spec fn digit_char(d: nat) -> char {
    if d == 0 { '0' } else if d == 1 { '1' } else if d == 2 { '2' } else if d == 3 { '3' }
    else if d == 4 { '4' } else if d == 5 { '5' } else if d == 6 { '6' } else if d == 7 { '7' }
    else if d == 8 { '8' } else { '9' }
}

/// Decimal representation of a natural number, most significant digit first.
pub open spec fn dec_digits(n: nat) -> Seq<char>
    decreases n,
{
    if n < 10 {
        seq![digit_char(n)]
    } else {
        dec_digits(n / 10).push(digit_char(n % 10))
    }
}

pub fn digit_to_char(d: u64) -> (c: char)
    requires
        d < 10,
    ensures
        c == digit_char(d as nat),
{
    if d == 0 { '0' } else if d == 1 { '1' } else if d == 2 { '2' } else if d == 3 { '3' }
    else if d == 4 { '4' } else if d == 5 { '5' } else if d == 6 { '6' } else if d == 7 { '7' }
    else if d == 8 { '8' } else { '9' }
}

/// Appends the decimal digits of `n` to `out`.
pub fn push_decimal(out: &mut String, n: u64)
    ensures
        final(out)@ == old(out)@ + dec_digits(n as nat),
    decreases n,
{
    if n < 10 {
        push_char(out, digit_to_char(n));
        assert(dec_digits(n as nat) =~= seq![digit_char(n as nat)]);
    } else {
        push_decimal(out, n / 10);
        push_char(out, digit_to_char(n % 10));
        assert(old(out)@ + dec_digits(n as nat) =~= old(out)@ + dec_digits((n / 10) as nat) + seq![digit_char((n % 10) as nat)]);
    }
}

/// Appends the decimal digits of a 128-bit `n` to `out`.
pub fn push_decimal_wide(out: &mut String, n: u128)
    ensures
        final(out)@ == old(out)@ + dec_digits(n as nat),
    decreases n,
{
    if n < 10 {
        push_char(out, digit_to_char(n as u64));
        assert(dec_digits(n as nat) =~= seq![digit_char(n as nat)]);
    } else {
        push_decimal_wide(out, n / 10);
        push_char(out, digit_to_char((n % 10) as u64));
        assert(old(out)@ + dec_digits(n as nat) =~= old(out)@ + dec_digits((n / 10) as nat) + seq![digit_char((n % 10) as nat)]);
    }
}

/// The decimal digits of `n` as a vector of characters.
pub fn decimal_chars(n: u64) -> (r: Vec<char>)
    ensures
        r@ == dec_digits(n as nat),
    decreases n,
{
    if n < 10 {
        let mut v: Vec<char> = Vec::new();
        v.push(digit_to_char(n));
        assert(v@ =~= dec_digits(n as nat));
        v
    } else {
        let mut v = decimal_chars(n / 10);
        v.push(digit_to_char(n % 10));
        v
    }
}


/// Decimal representation of an integer, with a leading `-` when negative.
pub open spec fn int_text(v: int) -> Seq<char> {
    if v < 0 { seq!['-'] + dec_digits((-v) as nat) } else { dec_digits(v as nat) }
}

/// Appends the decimal representation of `v` to `out`.
pub fn push_int(out: &mut String, v: i64)
    ensures
        final(out)@ == old(out)@ + int_text(v as int),
{
    if v < 0 {
        push_char(out, '-');
        let magnitude: u64 = ((-(v + 1)) as u64) + 1;
        push_decimal(out, magnitude);
        assert(out@ =~= old(out)@ + int_text(v as int));
    } else {
        push_decimal(out, v as u64);
    }
}

/// The decimal text of `v` as a new string.
pub fn int_string(v: i64) -> (r: String)
    ensures
        r@ == int_text(v as int),
{
    let mut out = String::new();
    push_int(&mut out, v);
    assert(out@ =~= int_text(v as int));
    out
}

/// The characters of a string, in order.
pub(crate) fn chars_of(s: &str) -> (r: Vec<char>)
    ensures
        r@ == s@,
{
    broadcast use vstd::string::group_string_axioms;
    let mut out: Vec<char> = Vec::new();
    for c in it: s.chars()
        invariant
            out@ == it.seq().take(it.index() as int),
    {
        out.push(c);
    }
    out
}

pub open spec fn is_ascii_digit(c: char) -> bool {
    '0' <= c <= '9'
}

pub open spec fn all_ascii_digits(d: Seq<char>) -> bool {
    forall|i: int| 0 <= i < d.len() ==> #[trigger] is_ascii_digit(d[i])
}

/// The number a run of ASCII digits denotes.
pub open spec fn digits_num(d: Seq<char>) -> nat
    decreases d.len(),
{
    if d.len() == 0 { 0 } else { digits_num(d.drop_last()) * 10 + (d.last() as nat - '0' as nat) as nat }
}

/// The text after an optional leading sign.
pub open spec fn unsigned_part(s: Seq<char>) -> Seq<char> {
    if s.len() > 0 && (s[0] == '-' || s[0] == '+') { s.skip(1) } else { s }
}

pub open spec fn negative_text(s: Seq<char>) -> bool {
    s.len() > 0 && s[0] == '-'
}

/// The value of an optionally signed decimal text.
pub open spec fn signed_value(s: Seq<char>) -> int {
    if negative_text(s) { -(digits_num(unsigned_part(s)) as int) } else { digits_num(unsigned_part(s)) as int }
}

/// What `str::parse::<i64>` gives: an optional `+` or `-`, then one or
/// more ASCII digits whose value fits.
pub open spec fn parse_i64(s: Seq<char>) -> Option<i64> {
    let d = unsigned_part(s);
    if d.len() > 0 && all_ascii_digits(d) && i64::MIN <= signed_value(s) <= i64::MAX {
        Some(signed_value(s) as i64)
    } else {
        None
    }
}

pub proof fn lemma_digits_num_mono(d: Seq<char>, k: int)
    requires
        0 <= k <= d.len(),
        all_ascii_digits(d),
    ensures
        digits_num(d.take(k)) <= digits_num(d),
    decreases d.len() - k,
{
    if k < d.len() {
        lemma_digits_num_mono(d, k + 1);
        assert(d.take(k + 1).drop_last() =~= d.take(k));
        assert(is_ascii_digit(d[k]));
        assert(d.take(k + 1).last() == d[k]);
        assert(digits_num(d.take(k + 1)) >= digits_num(d.take(k))) by (nonlinear_arith)
            requires digits_num(d.take(k + 1)) == digits_num(d.take(k)) * 10 + (d[k] as nat - '0' as nat) as nat;
    } else {
        assert(d.take(k) =~= d);
    }
}

/// Parses a decimal integer as `str::parse::<i64>` does.
pub fn parse_i64_text(s: &str) -> (r: Option<i64>)
    ensures
        r == parse_i64(s@),
{
    let cs = chars_of(s);
    let neg = cs.len() > 0 && cs[0] == '-';
    let start: usize = if cs.len() > 0 && (cs[0] == '-' || cs[0] == '+') { 1 } else { 0 };
    let ghost d = unsigned_part(s@);
    assert(d =~= cs@.skip(start as int));
    if start >= cs.len() {
        return None;
    }
    let limit: u64 = 9223372036854775808;
    let mut v: u64 = 0;
    let mut i: usize = start;
    while i < cs.len()
        invariant
            cs@ == s@,
            start <= i <= cs.len(),
            d =~= cs@.skip(start as int),
            d == unsigned_part(s@),
            forall|t: int| 0 <= t < i - start ==> #[trigger] is_ascii_digit(d[t]),
            v as nat == digits_num(d.take(i - start)),
            v <= limit,
            limit == 9223372036854775808u64,
        decreases cs.len() - i,
    {
        let c = cs[i];
        if c < '0' || c > '9' {
            assert(!is_ascii_digit(d[i - start]));
            assert(!all_ascii_digits(d));
            return None;
        }
        assert(d.take(i - start + 1).drop_last() =~= d.take(i - start));
        let digit: u64 = (c as u32 - '0' as u32) as u64;
        if v > (limit - digit) / 10 {
            assert(digits_num(d.take(i - start + 1)) > limit) by (nonlinear_arith)
                requires v > (limit - digit) / 10, digit <= 9,
                    digits_num(d.take(i - start + 1)) == v * 10 + digit;
            proof {
                if all_ascii_digits(d) {
                    lemma_digits_num_mono(d, (i - start + 1) as int);
                }
            }
            return None;
        }
        v = v * 10 + digit;
        i += 1;
    }
    assert(d.take(cs.len() - start) =~= d);
    if neg {
        if v == limit {
            Some(i64::MIN)
        } else {
            Some(-(v as i64))
        }
    } else {
        if v >= limit {
            None
        } else {
            Some(v as i64)
        }
    }
}

/// The UTF-8 encoding of a string's characters.
pub open spec fn utf8_bytes(s: Seq<char>) -> Seq<u8> {
    vstd::utf8::encode_utf8(s)
}

/// The UTF-8 bytes of a string.
pub(crate) fn utf8_of(s: &str) -> (r: Vec<u8>)
    ensures
        r@ == utf8_bytes(s@),
{
    s.as_bytes_vec()
}

/// The length of a string in bytes (std's `str::len`, the length of its
/// UTF-8 encoding).
pub fn byte_len(s: &str) -> (r: usize)
    ensures
        r == utf8_bytes(s@).len(),
{
    utf8_of(s).len()
}

/// Whether a character occurs in a string.
pub fn has_char(s: &str, c: char) -> (r: bool)
    ensures
        r == s@.contains(c),
{
    let cs = chars_of(s);
    let mut i: usize = 0;
    while i < cs.len()
        invariant
            cs@ == s@,
            i <= cs.len(),
            forall|k: int| 0 <= k < i ==> cs@[k] != c,
        decreases cs.len() - i,
    {
        if cs[i] == c {
            assert(s@[i as int] == c);
            return true;
        }
        i += 1;
    }
    false
}

/// A string made of `cs[from..to]`.
pub fn string_of(cs: &Vec<char>, from: usize, to: usize) -> (r: String)
    requires
        from <= to <= cs.len(),
    ensures
        r@ == cs@.subrange(from as int, to as int),
{
    let mut out = String::new();
    let mut i = from;
    while i < to
        invariant
            from <= i <= to <= cs.len(),
            out@ == cs@.subrange(from as int, i as int),
        decreases to - i,
    {
        push_char(&mut out, cs[i]);
        assert(cs@.subrange(from as int, i + 1) =~= cs@.subrange(from as int, i as int).push(cs@[i as int]));
        i += 1;
    }
    out
}


/// Unicode white space, the characters `char::is_whitespace` accepts (the
/// White_Space property).
pub open spec fn is_white(c: char) -> bool {
    ('\t' <= c && c <= '\r') || c == ' ' || c == '\u{85}' || c == '\u{a0}' || c == '\u{1680}'
        || ('\u{2000}' <= c && c <= '\u{200a}') || c == '\u{2028}' || c == '\u{2029}'
        || c == '\u{202f}' || c == '\u{205f}' || c == '\u{3000}'
}

pub fn white(c: char) -> (r: bool)
    ensures
        r == is_white(c),
{
    ('\t' <= c && c <= '\r') || c == ' ' || c == '\u{85}' || c == '\u{a0}' || c == '\u{1680}'
        || ('\u{2000}' <= c && c <= '\u{200a}') || c == '\u{2028}' || c == '\u{2029}'
        || c == '\u{202f}' || c == '\u{205f}' || c == '\u{3000}'
}

/// How many white-space characters a text starts with.
pub open spec fn leading_white(s: Seq<char>) -> nat
    decreases s.len(),
{
    if s.len() > 0 && is_white(s[0]) { 1 + leading_white(s.skip(1)) } else { 0 }
}

/// How many white-space characters a text ends with.
pub open spec fn trailing_white(s: Seq<char>) -> nat
    decreases s.len(),
{
    if s.len() > 0 && is_white(s.last()) { 1 + trailing_white(s.drop_last()) } else { 0 }
}

proof fn lemma_white_bounds(s: Seq<char>)
    ensures
        leading_white(s) <= s.len(),
        trailing_white(s) <= s.len(),
    decreases s.len(),
{
    if s.len() > 0 {
        lemma_white_bounds(s.skip(1));
        lemma_white_bounds(s.drop_last());
    }
}

/// What `str::trim` leaves of a string: its leading and then its trailing
/// white space removed.
pub open spec fn trimmed(s: Seq<char>) -> Seq<char> {
    let t = s.skip(leading_white(s) as int);
    t.take(t.len() - trailing_white(t))
}

/// A string with leading and trailing white space removed.
pub(crate) fn trim(s: &str) -> (r: String)
    ensures
        r@ == trimmed(s@),
{
    let cs = chars_of(s);
    let n = cs.len();
    let mut i: usize = 0;
    proof { lemma_white_bounds(s@); }
    assert(s@.skip(0) =~= s@);
    while i < n && white(cs[i])
        invariant
            cs@ == s@,
            n == cs.len(),
            i <= n,
            leading_white(s@) == i + leading_white(s@.skip(i as int)),
        decreases n - i,
    {
        assert(s@.skip(i as int)[0] == cs@[i as int]);
        assert(s@.skip(i as int).skip(1) =~= s@.skip(i + 1));
        i += 1;
    }
    assert(i < n ==> s@.skip(i as int)[0] == cs@[i as int]);
    assert(leading_white(s@) == i);
    let ghost t = s@.skip(i as int);
    let mut j: usize = n;
    assert(t.take(n - i) =~= t);
    while j > i && white(cs[j - 1])
        invariant
            cs@ == s@,
            n == cs.len(),
            i <= j <= n,
            t == s@.skip(i as int),
            trailing_white(t) == (n - j) + trailing_white(t.take(j - i)),
        decreases j,
    {
        let ghost u = t.take(j - i);
        assert(u.last() == cs@[j - 1]);
        assert(u.drop_last() =~= t.take(j - 1 - i));
        j -= 1;
    }
    assert(j > i ==> t.take(j - i).last() == cs@[j - 1]);
    assert(trailing_white(t) == n - j);
    let r = crate::text::string_of(&cs, i, j);
    assert(cs@.subrange(i as int, j as int) =~= t.take(t.len() - trailing_white(t)));
    r
}

} // verus!
