//! Cache entry encoding, expiry and counter rules, and rate-limit decisions.
//!
//! An entry is stored as `[len: u32 LE][value bytes][flag: u8]` followed by
//! an 8-byte little-endian expiry timestamp (seconds) when the flag is 1.

use vstd::prelude::*;
use core::time::Duration;
use crate::encryption::{le_bytes, le_value, pow256};

verus! {

/// Counts over all stored entries.
#[derive(Debug, Default, Clone, Copy)]
pub struct CacheStats {
    pub total_entries: u64,
    pub total_bytes: u64,
}

/// Outcome of a rate-limit check.
#[derive(Debug)]
pub struct RateLimitResult {
    pub allowed: bool,
    pub remaining: u64,
    pub limit: u64,
    pub retry_after: Option<Duration>,
}

/// A cached value with its optional expiry (UNIX seconds).
#[derive(Debug, PartialEq, Eq)]
pub struct RawEntry {
    pub value: Vec<u8>,
    pub expires_at: Option<u64>,
}

/// Why stored bytes are not an entry.
#[derive(Debug, PartialEq, Eq)]
pub enum CacheError {
    /// Fewer than 4 bytes.
    TooShort,
    /// The value length exceeds the remaining bytes.
    Corrupted { val_len: u64, remaining: u64 },
    /// The expiry flag is set but the 8 expiry bytes are missing.
    Truncated,
}

/// The encoding of an entry.
pub open spec fn encode(value: Seq<u8>, expires_at: Option<u64>) -> Seq<u8> {
    le_bytes(value.len(), 4) + value + match expires_at {
        Some(t) => seq![1u8] + le_bytes(t as nat, 8),
        None => seq![0u8],
    }
}

/// What decoding `data` gives.
pub open spec fn decode(data: Seq<u8>) -> Result<(Seq<u8>, Option<u64>), CacheError> {
    if data.len() < 4 {
        Err(CacheError::TooShort)
    } else {
        let n = le_value(data.subrange(0, 4));
        if data.len() < 4 + n + 1 {
            Err(CacheError::Corrupted { val_len: n as u64, remaining: (data.len() - 4) as u64 })
        } else {
            let value = data.subrange(4, 4 + n as int);
            if data[4 + n as int] == 1 {
                if data.len() - (4 + n + 1) < 8 {
                    Err(CacheError::Truncated)
                } else {
                    Ok((value, Some(le_value(data.subrange(5 + n as int, 13 + n as int)) as u64)))
                }
            } else {
                Ok((value, None))
            }
        }
    }
}

fn push_all(out: &mut Vec<u8>, b: &Vec<u8>)
    ensures
        final(out)@ == old(out)@ + b@,
{
    let mut i: usize = 0;
    while i < b.len()
        invariant
            i <= b.len(),
            out@ == old(out)@ + b@.take(i as int),
        decreases b.len() - i,
    {
        out.push(b[i]);
        assert(b@.take(i + 1) =~= b@.take(i as int).push(b@[i as int]));
        i += 1;
    }
    assert(b@.take(b.len() as int) =~= b@);
}

fn le_u32_bytes(v: u32) -> (r: Vec<u8>)
    ensures
        r@ == le_bytes(v as nat, 4),
{
    let mut r: Vec<u8> = Vec::new();
    let mut x = v;
    let mut i: usize = 0;
    while i < 4
        invariant
            i <= 4,
            r@ + le_bytes(x as nat, (4 - i) as nat) == le_bytes(v as nat, 4),
        decreases 4 - i,
    {
        let ghost before = r@;
        r.push((x % 256) as u8);
        assert(le_bytes(x as nat, (4 - i) as nat) == seq![(x % 256) as u8] + le_bytes((x / 256) as nat, (4 - i - 1) as nat));
        assert(r@ + le_bytes((x / 256) as nat, (4 - i - 1) as nat) =~= before + le_bytes(x as nat, (4 - i) as nat));
        x = x / 256;
        i += 1;
    }
    assert(r@ =~= r@ + le_bytes(x as nat, 0));
    r
}

fn le_u64_bytes(v: u64) -> (r: Vec<u8>)
    ensures
        r@ == le_bytes(v as nat, 8),
{
    let mut r: Vec<u8> = Vec::new();
    let mut x = v;
    let mut i: usize = 0;
    while i < 8
        invariant
            i <= 8,
            r@ + le_bytes(x as nat, (8 - i) as nat) == le_bytes(v as nat, 8),
        decreases 8 - i,
    {
        let ghost before = r@;
        r.push((x % 256) as u8);
        assert(le_bytes(x as nat, (8 - i) as nat) == seq![(x % 256) as u8] + le_bytes((x / 256) as nat, (8 - i - 1) as nat));
        assert(r@ + le_bytes((x / 256) as nat, (8 - i - 1) as nat) =~= before + le_bytes(x as nat, (8 - i) as nat));
        x = x / 256;
        i += 1;
    }
    assert(r@ =~= r@ + le_bytes(x as nat, 0));
    r
}

/// Encodes an entry.
pub fn serialize(entry: &RawEntry) -> (r: Vec<u8>)
    requires
        entry.value.len() <= u32::MAX,
    ensures
        r@ == encode(entry.value@, entry.expires_at),
{
    let mut buf = le_u32_bytes(entry.value.len() as u32);
    push_all(&mut buf, &entry.value);
    match entry.expires_at {
        Some(t) => {
            buf.push(1u8);
            let tb = le_u64_bytes(t);
            let ghost mid = buf@;
            push_all(&mut buf, &tb);
            assert(buf@ =~= encode(entry.value@, entry.expires_at));
        },
        None => {
            buf.push(0u8);
            assert(buf@ =~= encode(entry.value@, entry.expires_at));
        },
    }
    buf
}

/// Value of little-endian bytes `data[from..from+n]`.
fn read_le(data: &[u8], from: usize, n: usize) -> (r: u64)
    requires
        n <= 8,
        from + n <= data.len(),
    ensures
        r as nat == le_value(data@.subrange(from as int, from + n)),
{
    let ghost s = data@.subrange(from as int, from + n);
    proof { crate::encryption::lemma_le_bound(s); }
    let mut v: u64 = 0;
    let mut i: usize = n;
    while i > 0
        invariant
            i <= n <= 8,
            from + n <= data.len(),
            s == data@.subrange(from as int, from + n),
            v as nat == le_value(s.skip(i as int)),
            le_value(s.skip(i as int)) < pow256((n - i) as nat),
        decreases i,
    {
        i -= 1;
        proof {
            crate::encryption::lemma_le_bound(s.skip(i as int));
            assert(s.skip(i as int).skip(1) =~= s.skip(i + 1));
            reveal_with_fuel(pow256, 9);
            assert(pow256((n - i - 1) as nat) <= pow256(7));
        }
        assert(v as nat * 256 + s[i as int] < pow256((n - i) as nat)) by (nonlinear_arith)
            requires v < pow256((n - i - 1) as nat), s[i as int] < 256, pow256((n - i) as nat) == 256 * pow256((n - i - 1) as nat);
        assert(v < 0x100_0000_0000_0000) by {
            crate::encryption::lemma_pow256_mono((n - i - 1) as nat, 7);
            reveal_with_fuel(pow256, 9);
        }
        v = data[from + i] as u64 + 256 * v;
    }
    assert(s.skip(0) =~= s);
    v
}

/// Decodes stored bytes into an entry.
pub fn deserialize(data: &[u8]) -> (r: Result<RawEntry, CacheError>)
    ensures
        r matches Ok(e) ==> decode(data@) == Ok::<(Seq<u8>, Option<u64>), CacheError>((e.value@, e.expires_at)),
        r matches Err(e) ==> decode(data@) == Err::<(Seq<u8>, Option<u64>), CacheError>(e),
{
    if data.len() < 4 {
        return Err(CacheError::TooShort);
    }
    let val_len = read_le(data, 0, 4);
    proof {
        crate::encryption::lemma_le_bound(data@.subrange(0, 4));
        reveal_with_fuel(pow256, 5);
    }
    let pos: usize = 4;
    if (data.len() as u64) < 4 + val_len + 1 {
        return Err(CacheError::Corrupted { val_len, remaining: (data.len() - pos) as u64 });
    }
    let n = val_len as usize;
    let value = vstd::slice::slice_to_vec(vstd::slice::slice_subrange(data, 4, 4 + n));
    let flag = data[4 + n];
    if flag == 1 {
        if data.len() - (4 + n + 1) < 8 {
            return Err(CacheError::Truncated);
        }
        let t = read_le(data, 5 + n, 8);
        Ok(RawEntry { value, expires_at: Some(t) })
    } else {
        Ok(RawEntry { value, expires_at: None })
    }
}


proof fn lemma_le_value_of_bytes(v: nat, n: nat)
    requires
        v < pow256(n),
    ensures
        le_value(le_bytes(v, n)) == v,
        le_bytes(v, n).len() == n,
    decreases n,
{
    if n > 0 {
        assert(v / 256 < pow256((n - 1) as nat)) by (nonlinear_arith)
            requires v < pow256(n), pow256(n) == 256 * pow256((n - 1) as nat);
        lemma_le_value_of_bytes(v / 256, (n - 1) as nat);
        let b = le_bytes(v, n);
        assert(b.skip(1) =~= le_bytes(v / 256, (n - 1) as nat));
        assert(b[0] == (v % 256) as u8);
        assert(v == v % 256 + 256 * (v / 256)) by (nonlinear_arith);
    }
}

/// Decoding an encoded entry gives the entry back.
pub proof fn law_codec_roundtrip(value: Seq<u8>, expires_at: Option<u64>)
    requires
        value.len() <= u32::MAX,
    ensures
        decode(encode(value, expires_at)) == Ok::<(Seq<u8>, Option<u64>), CacheError>((value, expires_at)),
{
    reveal_with_fuel(pow256, 9);
    lemma_le_value_of_bytes(value.len(), 4);
    let e = encode(value, expires_at);
    let n = value.len();
    assert(e.subrange(0, 4) =~= le_bytes(n, 4));
    assert(e.subrange(4, 4 + n as int) =~= value);
    match expires_at {
        Some(t) => {
            lemma_le_value_of_bytes(t as nat, 8);
            assert(e.subrange(5 + n as int, 13 + n as int) =~= le_bytes(t as nat, 8));
            assert(e[4 + n as int] == 1u8);
        },
        None => {
            assert(e[4 + n as int] == 0u8);
        },
    }
}

/// The entry has not expired at time `now` (it expires strictly after its timestamp).
pub open spec fn live(expires_at: Option<u64>, now: u64) -> bool {
    match expires_at {
        Some(t) => now <= t,
        None => true,
    }
}

/// What a stored key holds at time `now`.
#[derive(Debug, PartialEq, Eq)]
pub enum Lookup {
    /// No entry under the key.
    Missing,
    /// The entry has expired; the caller removes it and reports no value.
    Expired,
    /// The live value.
    Found(Vec<u8>),
}

/// Interprets the bytes stored under a key at time `now`.
pub fn lookup(raw: Option<&[u8]>, now: u64) -> (r: Result<Lookup, CacheError>)
    ensures
        raw is None ==> r == Ok::<Lookup, CacheError>(Lookup::Missing),
        raw matches Some(d) ==> match decode(d@) {
            Err(e) => r == Err::<Lookup, CacheError>(e),
            Ok((v, exp)) => if live(exp, now) {
                r matches Ok(Lookup::Found(x)) && x@ == v
            } else {
                r == Ok::<Lookup, CacheError>(Lookup::Expired)
            },
        },
{
    match raw {
        None => Ok(Lookup::Missing),
        Some(data) => {
            match deserialize(data) {
                Err(e) => Err(e),
                Ok(entry) => {
                    match entry.expires_at {
                        Some(t) => if now > t { return Ok(Lookup::Expired); },
                        None => {},
                    }
                    Ok(Lookup::Found(entry.value))
                },
            }
        },
    }
}

/// ASCII decimal digits of a natural number.
pub open spec fn dec_bytes(n: nat) -> Seq<u8>
    decreases n,
{
    if n < 10 { seq![(48 + n) as u8] } else { dec_bytes(n / 10).push((48 + n % 10) as u8) }
}

pub open spec fn is_digit(b: u8) -> bool {
    48 <= b <= 57
}

pub open spec fn all_digits(d: Seq<u8>) -> bool {
    forall|i: int| 0 <= i < d.len() ==> #[trigger] is_digit(d[i])
}

/// The bytes after an optional leading `+`.
pub open spec fn sign_stripped(b: Seq<u8>) -> Seq<u8> {
    if b.len() > 0 && b[0] == 43 { b.skip(1) } else { b }
}

/// Value of a run of ASCII digits.
pub open spec fn digits_value(b: Seq<u8>) -> nat
    decreases b.len(),
{
    if b.len() == 0 { 0 } else { digits_value(b.drop_last()) * 10 + (b.last() - 48) as nat }
}

/// What `str::parse::<u64>` gives for UTF-8 bytes: an optional `+` then
/// one or more ASCII digits, within range.
pub open spec fn parse_u64(b: Seq<u8>) -> Option<u64> {
    let d = sign_stripped(b);
    if d.len() > 0 && all_digits(d) && digits_value(d) <= u64::MAX {
        Some(digits_value(d) as u64)
    } else {
        None
    }
}

/// The counter a stored entry holds at time `now`: 0 when there is none, it
/// does not decode, it has expired, or its value is not a number.
pub open spec fn live_count(prev: Option<Seq<u8>>, now: u64) -> u64 {
    match prev {
        None => 0,
        Some(d) => match decode(d) {
            Err(_) => 0,
            Ok((v, exp)) => if !live(exp, now) { 0 } else {
                match parse_u64(v) { Some(c) => c, None => 0 }
            },
        },
    }
}

/// The counter a stored entry holds, ignoring expiry (0 when there is none
/// or it does not decode to a number).
pub open spec fn stored_count(prev: Option<Seq<u8>>) -> u64 {
    match prev {
        None => 0,
        Some(d) => match decode(d) {
            Err(_) => 0,
            Ok((v, _)) => match parse_u64(v) { Some(c) => c, None => 0 },
        },
    }
}

pub open spec fn opt_bytes(raw: Option<&[u8]>) -> Option<Seq<u8>> {
    match raw {
        Some(d) => Some(d@),
        None => None,
    }
}

/// Parses decimal bytes as `str::parse::<u64>` does.
pub fn parse_u64_bytes(b: &[u8]) -> (r: Option<u64>)
    ensures
        r == parse_u64(b@),
{
    let start: usize = if b.len() > 0 && b[0] == 43 { 1 } else { 0 };
    let ghost d = sign_stripped(b@);
    assert(d =~= b@.skip(start as int));
    if start >= b.len() {
        return None;
    }
    let mut v: u64 = 0;
    let mut i: usize = start;
    while i < b.len()
        invariant
            start <= i <= b.len(),
            d =~= b@.skip(start as int),
            d == sign_stripped(b@),
            forall|t: int| 0 <= t < i - start ==> #[trigger] is_digit(d[t]),
            v as nat == digits_value(d.take(i - start)),
        decreases b.len() - i,
    {
        let c = b[i];
        if c < 48 || c > 57 {
            assert(!is_digit(d[i - start]));
            assert(!all_digits(d));
            return None;
        }
        assert(d.take(i - start + 1).drop_last() =~= d.take(i - start));
        let digit = (c - 48) as u64;
        if v > (u64::MAX - digit) / 10 {
            assert(digits_value(d.take(i - start + 1)) > u64::MAX) by (nonlinear_arith)
                requires v > (u64::MAX - digit) / 10, digit <= 9,
                    digits_value(d.take(i - start + 1)) == v * 10 + digit;
            proof {
                if all_digits(d) {
                    lemma_digits_mono(d, (i - start + 1) as int);
                }
            }
            return None;
        }
        v = v * 10 + digit;
        i += 1;
    }
    assert(d.take(b.len() - start) =~= d);
    Some(v)
}

/// A prefix of a run of digits is worth no more than the whole run.
proof fn lemma_digits_mono(d: Seq<u8>, k: int)
    requires
        0 <= k <= d.len(),
        forall|t: int| 0 <= t < d.len() ==> #[trigger] is_digit(d[t]),
    ensures
        digits_value(d.take(k)) <= digits_value(d),
    decreases d.len() - k,
{
    if k < d.len() {
        lemma_digits_mono(d, k + 1);
        assert(d.take(k + 1).drop_last() =~= d.take(k));
        assert(is_digit(d[k]));
        assert(d.take(k + 1).last() == d[k]);
        assert(digits_value(d.take(k + 1)) >= digits_value(d.take(k))) by (nonlinear_arith)
            requires digits_value(d.take(k + 1)) == digits_value(d.take(k)) * 10 + (d[k] - 48) as nat, d[k] >= 48;
    } else {
        assert(d.take(k) =~= d);
    }
}


fn push_dec_bytes(out: &mut Vec<u8>, n: u64)
    ensures
        final(out)@ == old(out)@ + dec_bytes(n as nat),
    decreases n,
{
    if n < 10 {
        out.push((48 + n) as u8);
        assert(out@ =~= old(out)@ + dec_bytes(n as nat));
    } else {
        push_dec_bytes(out, n / 10);
        out.push((48 + n % 10) as u8);
        assert(out@ =~= old(out)@ + dec_bytes(n as nat));
    }
}

/// The entry that an increment stores: the live counter plus one, as
/// decimal text, with the given expiry.
pub fn next_counter_entry(prev: Option<&[u8]>, now: u64, expires_at: Option<u64>) -> (r: Vec<u8>)
    requires
        live_count(opt_bytes(prev), now) < u64::MAX,
    ensures
        r@ == encode(dec_bytes(live_count(opt_bytes(prev), now) as nat + 1), expires_at),
{
    let count: u64 = match prev {
        None => 0,
        Some(d) => match deserialize(d) {
            Err(_) => 0,
            Ok(e) => {
                let expired = match e.expires_at {
                    Some(t) => now > t,
                    None => false,
                };
                if expired {
                    0
                } else {
                    match parse_u64_bytes(e.value.as_slice()) {
                        Some(c) => c,
                        None => 0,
                    }
                }
            },
        },
    };
    let mut digits: Vec<u8> = Vec::new();
    push_dec_bytes(&mut digits, count + 1);
    assert(digits@ =~= dec_bytes(count as nat + 1));
    proof { lemma_dec_bytes_len(count as nat + 1); }
    serialize(&RawEntry { value: digits, expires_at })
}

proof fn lemma_dec_bytes_len(n: nat)
    requires
        n <= u64::MAX + 1,
    ensures
        dec_bytes(n).len() <= 20,
{
    reveal_with_fuel(pow10, 21);
    lemma_dec_bytes_small(n, 20);
}

proof fn lemma_dec_bytes_small(n: nat, k: nat)
    requires
        n < pow10(k),
        k > 0,
    ensures
        dec_bytes(n).len() <= k,
    decreases n,
{
    if n >= 10 {
        assert(n / 10 < pow10((k - 1) as nat)) by (nonlinear_arith)
            requires n < pow10(k), pow10(k) == 10 * pow10((k - 1) as nat);
        if k == 1 {
            assert(pow10(0) == 1);
            assert(false) by (nonlinear_arith) requires n >= 10, n < pow10(1), pow10(1) == 10 * pow10(0), pow10(0) == 1;
        }
        lemma_dec_bytes_small(n / 10, (k - 1) as nat);
    }
}

pub open spec fn pow10(k: nat) -> nat
    decreases k,
{
    if k == 0 { 1 } else { 10 * pow10((k - 1) as nat) }
}

/// The count that an increment reports: the counter stored before it,
/// whether or not it had expired (0 when there is none or it is not a number).
pub fn reported_count(prev: Option<&[u8]>) -> (r: u64)
    ensures
        r == stored_count(opt_bytes(prev)),
{
    match prev {
        None => 0,
        Some(d) => match deserialize(d) {
            Err(_) => 0,
            Ok(e) => match parse_u64_bytes(e.value.as_slice()) {
                Some(c) => c,
                None => 0,
            },
        },
    }
}

/// The requests a window still allows after request number `current` of
/// `max_requests`: none once the count is over the limit.
pub open spec fn remaining_after(current: u64, max_requests: u64) -> u64 {
    if current <= max_requests { (max_requests - current) as u64 } else { 0 }
}

/// The rate-limit decision for a request counted as number `current` in
/// its window of `max_requests`.
pub fn rate_limit_result(current: u64, max_requests: u64, window: Duration) -> (r: RateLimitResult)
    ensures
        r.allowed == (current <= max_requests),
        r.remaining == remaining_after(current, max_requests),
        r.limit == max_requests,
        r.retry_after == (if current > max_requests { Some(window) } else { None }),
{
    RateLimitResult {
        allowed: current <= max_requests,
        remaining: if current <= max_requests { max_requests - current } else { 0 },
        limit: max_requests,
        retry_after: if current > max_requests { Some(window) } else { None },
    }
}

/// A rate limiter's accounting: a request that is allowed leaves a
/// remainder that, with the count, makes up the limit; a refused one
/// leaves none; the remainder never exceeds the limit.
pub proof fn law_rate_limit_accounting(current: u64, max_requests: u64)
    ensures
        current <= max_requests ==> remaining_after(current, max_requests) + current == max_requests,
        current > max_requests ==> remaining_after(current, max_requests) == 0,
        remaining_after(current, max_requests) <= max_requests,
{
}

/// The cache key of a session.
pub fn session_key(session_id: &str) -> (r: String)
    ensures
        r@ == "session:"@ + session_id@,
{
    let mut k = crate::text::to_owned("session:");
    crate::text::push_str(&mut k, session_id);
    k
}

/// The cache key of a rate-limit counter.
pub fn rate_limit_key(key: &str) -> (r: String)
    ensures
        r@ == "rl:"@ + key@,
{
    let mut k = crate::text::to_owned("rl:");
    crate::text::push_str(&mut k, key);
    k
}

impl CacheStats {
    /// Counts one more stored entry of `bytes` bytes.
    pub fn record(&mut self, bytes: u64)
        requires
            old(self).total_entries < u64::MAX,
            old(self).total_bytes + bytes <= u64::MAX,
        ensures
            final(self).total_entries == old(self).total_entries + 1,
            final(self).total_bytes == old(self).total_bytes + bytes,
    {
        self.total_entries = self.total_entries + 1;
        self.total_bytes = self.total_bytes + bytes;
    }
}

} // verus!
