//! Reading the kernel's process-information texts for the system health
//! report: memory totals, CPU times and the thread count. The texts are
//! read from disk by the caller; these functions only take them apart.

use vstd::prelude::*;
use crate::text::{chars_of, is_white, white, all_ascii_digits, is_ascii_digit, digits_num, lemma_digits_num_mono};

verus! {

/// How many characters a text starts with before white space or its end.
pub open spec fn word_len(s: Seq<char>) -> nat
    decreases s.len(),
{
    if s.len() == 0 || is_white(s[0]) { 0 } else { 1 + word_len(s.skip(1)) }
}

pub proof fn lemma_word_len(s: Seq<char>)
    ensures
        word_len(s) <= s.len(),
        s.len() > 0 && !is_white(s[0]) ==> word_len(s) >= 1,
    decreases s.len(),
{
    if s.len() > 0 && !is_white(s[0]) {
        lemma_word_len(s.skip(1));
    }
}

/// The words of a text, as `str::split_whitespace` gives them: the
/// maximal runs of characters that are not white space, in order.
pub open spec fn words(s: Seq<char>) -> Seq<Seq<char>>
    decreases s.len(),
{
    if s.len() == 0 {
        Seq::empty()
    } else if is_white(s[0]) {
        words(s.skip(1))
    } else {
        proof { lemma_word_len(s); }
        seq![s.take(word_len(s) as int)] + words(s.skip(word_len(s) as int))
    }
}

pub open spec fn char_seqs(v: Seq<Vec<char>>) -> Seq<Seq<char>> {
    v.map_values(|w: Vec<char>| w@)
}

/// A copy of `cs[from..to]`.
fn slice_of(cs: &Vec<char>, from: usize, to: usize) -> (r: Vec<char>)
    requires
        from <= to <= cs.len(),
    ensures
        r@ == cs@.subrange(from as int, to as int),
{
    let mut out: Vec<char> = Vec::new();
    let mut i = from;
    while i < to
        invariant
            from <= i <= to <= cs.len(),
            out@ == cs@.subrange(from as int, i as int),
        decreases to - i,
    {
        out.push(cs[i]);
        assert(cs@.subrange(from as int, i + 1) =~= cs@.subrange(from as int, i as int).push(cs@[i as int]));
        i += 1;
    }
    out
}

/// The words of `cs[from..]`.
pub fn words_from(cs: &Vec<char>, from: usize) -> (r: Vec<Vec<char>>)
    requires
        from <= cs.len(),
    ensures
        char_seqs(r@) == words(cs@.skip(from as int)),
{
    let mut out: Vec<Vec<char>> = Vec::new();
    let mut i = from;
    while i < cs.len()
        invariant
            from <= i <= cs.len(),
            char_seqs(out@) + words(cs@.skip(i as int)) == words(cs@.skip(from as int)),
        decreases cs.len() - i,
    {
        let ghost rest = cs@.skip(i as int);
        assert(rest[0] == cs@[i as int]);
        if white(cs[i]) {
            assert(rest.skip(1) =~= cs@.skip(i + 1));
            i += 1;
        } else {
            let mut j = i + 1;
            assert(rest.skip(1) =~= cs@.skip(j as int));
            while j < cs.len() && !white(cs[j])
                invariant
                    i < j <= cs.len(),
                    rest == cs@.skip(i as int),
                    word_len(rest) == (j - i) + word_len(cs@.skip(j as int)),
                decreases cs.len() - j,
            {
                let ghost r2 = cs@.skip(j as int);
                assert(r2[0] == cs@[j as int]);
                assert(r2.skip(1) =~= cs@.skip(j + 1));
                j += 1;
            }
            let ghost tail = cs@.skip(j as int);
            assert(tail.len() == 0 || tail[0] == cs@[j as int]);
            assert(word_len(rest) == j - i);
            let w = slice_of(cs, i, j);
            assert(rest.take(j - i) =~= cs@.subrange(i as int, j as int));
            assert(rest.skip(j - i) =~= cs@.skip(j as int));
            let ghost before = char_seqs(out@);
            out.push(w);
            assert(char_seqs(out@) =~= before.push(w@));
            assert(before.push(w@) + words(cs@.skip(j as int)) =~= before + (seq![w@] + words(cs@.skip(j as int))));
            i = j;
        }
    }
    assert(cs@.skip(i as int) =~= Seq::<char>::empty());
    assert(char_seqs(out@) + Seq::<Seq<char>>::empty() =~= char_seqs(out@));
    out
}

/// How many characters a text starts with before a line feed or its end.
pub open spec fn line_len(s: Seq<char>) -> nat
    decreases s.len(),
{
    if s.len() == 0 || s[0] == '\n' { 0 } else { 1 + line_len(s.skip(1)) }
}

pub proof fn lemma_line_len(s: Seq<char>)
    ensures
        line_len(s) <= s.len(),
    decreases s.len(),
{
    if s.len() > 0 && s[0] != '\n' {
        lemma_line_len(s.skip(1));
    }
}

/// A line without the carriage return that ended it, if it had one.
pub open spec fn without_cr(l: Seq<char>) -> Seq<char> {
    if l.len() > 0 && l.last() == '\r' { l.drop_last() } else { l }
}

/// The lines of a text, as `str::lines` gives them: the text is cut at
/// each line feed, a carriage return just before a line feed is dropped,
/// and a final line feed starts no further line.
pub open spec fn lines(s: Seq<char>) -> Seq<Seq<char>>
    decreases s.len(),
{
    if s.len() == 0 {
        Seq::empty()
    } else {
        proof { lemma_line_len(s); }
        if line_len(s) < s.len() {
            seq![without_cr(s.take(line_len(s) as int))] + lines(s.skip(line_len(s) as int + 1))
        } else {
            seq![s]
        }
    }
}

/// The lines of a text.
pub fn lines_of(cs: &Vec<char>) -> (r: Vec<Vec<char>>)
    ensures
        char_seqs(r@) == lines(cs@),
{
    let mut out: Vec<Vec<char>> = Vec::new();
    let mut i: usize = 0;
    assert(cs@.skip(0) =~= cs@);
    while i < cs.len()
        invariant
            i <= cs.len(),
            char_seqs(out@) + lines(cs@.skip(i as int)) == lines(cs@),
        decreases cs.len() - i,
    {
        let ghost rest = cs@.skip(i as int);
        let mut j = i;
        while j < cs.len() && cs[j] != '\n'
            invariant
                i <= j <= cs.len(),
                rest == cs@.skip(i as int),
                line_len(rest) == (j - i) + line_len(cs@.skip(j as int)),
            decreases cs.len() - j,
        {
            let ghost r2 = cs@.skip(j as int);
            assert(r2[0] == cs@[j as int]);
            assert(r2.skip(1) =~= cs@.skip(j + 1));
            j += 1;
        }
        let ghost tail = cs@.skip(j as int);
        assert(tail.len() == 0 || tail[0] == cs@[j as int]);
        assert(line_len(rest) == j - i);
        let ghost before = char_seqs(out@);
        if j < cs.len() {
            let end = if j > i && cs[j - 1] == '\r' { j - 1 } else { j };
            let line = slice_of(cs, i, end);
            assert(rest.take(j - i) =~= cs@.subrange(i as int, j as int));
            assert(without_cr(rest.take(j - i)) =~= cs@.subrange(i as int, end as int));
            assert(rest.skip(j - i + 1) =~= cs@.skip(j + 1));
            out.push(line);
            assert(char_seqs(out@) =~= before.push(line@));
            assert(before.push(line@) + lines(cs@.skip(j + 1)) =~= before + (seq![line@] + lines(cs@.skip(j + 1))));
            i = j + 1;
        } else {
            let line = slice_of(cs, i, cs.len());
            assert(rest =~= cs@.subrange(i as int, cs.len() as int));
            out.push(line);
            assert(char_seqs(out@) =~= before.push(line@));
            assert(cs@.skip(cs.len() as int) =~= Seq::<char>::empty());
            assert(before.push(line@) + Seq::<Seq<char>>::empty() =~= before + seq![line@]);
            i = cs.len();
        }
    }
    assert(cs@.skip(i as int) =~= Seq::<char>::empty());
    assert(char_seqs(out@) + Seq::<Seq<char>>::empty() =~= char_seqs(out@));
    out
}

/// The digits of a number text, after an optional `+`.
pub open spec fn unsigned_digits(s: Seq<char>) -> Seq<char> {
    if s.len() > 0 && s[0] == '+' { s.skip(1) } else { s }
}

/// What `str::parse::<u64>` gives: an optional `+`, then one or more ASCII
/// digits whose value fits.
pub open spec fn parse_u64(s: Seq<char>) -> Option<u64> {
    let d = unsigned_digits(s);
    if d.len() > 0 && all_ascii_digits(d) && digits_num(d) <= u64::MAX { Some(digits_num(d) as u64) } else { None }
}

/// Parses a number as `str::parse::<u64>` does.
pub fn parse_u64_chars(s: &Vec<char>) -> (r: Option<u64>)
    ensures
        r == parse_u64(s@),
{
    let start: usize = if s.len() > 0 && s[0] == '+' { 1 } else { 0 };
    let ghost d = unsigned_digits(s@);
    assert(d =~= s@.skip(start as int));
    if start >= s.len() {
        return None;
    }
    let mut v: u64 = 0;
    let mut i: usize = start;
    while i < s.len()
        invariant
            start <= i <= s.len(),
            d =~= s@.skip(start as int),
            d == unsigned_digits(s@),
            forall|t: int| 0 <= t < i - start ==> #[trigger] is_ascii_digit(d[t]),
            v as nat == digits_num(d.take(i - start)),
        decreases s.len() - i,
    {
        let c = s[i];
        if c < '0' || c > '9' {
            assert(!is_ascii_digit(d[i - start]));
            assert(!all_ascii_digits(d));
            return None;
        }
        assert(d.take(i - start + 1).drop_last() =~= d.take(i - start));
        let digit: u64 = (c as u32 - '0' as u32) as u64;
        if v > (u64::MAX - digit) / 10 {
            assert(digits_num(d.take(i - start + 1)) > u64::MAX) by (nonlinear_arith)
                requires v > (u64::MAX - digit) / 10, digit <= 9,
                    digits_num(d.take(i - start + 1)) == v * 10 + digit;
            proof {
                if all_ascii_digits(d) {
                    lemma_digits_num_mono(d, (i - start + 1) as int);
                }
            }
            return None;
        }
        assert(v * 10 + digit <= u64::MAX) by (nonlinear_arith)
            requires v <= (u64::MAX - digit) / 10, digit <= 9;
        v = v * 10 + digit;
        i += 1;
    }
    assert(d.take(s.len() - start) =~= d);
    Some(v)
}

/// Whether a text starts with `p`.
pub open spec fn has_prefix(l: Seq<char>, p: Seq<char>) -> bool {
    l.len() >= p.len() && l.take(p.len() as int) == p
}

fn starts_with_text(l: &Vec<char>, p: &str) -> (r: bool)
    ensures
        r == has_prefix(l@, p@),
{
    let pc = chars_of(p);
    if l.len() < pc.len() {
        return false;
    }
    let mut i: usize = 0;
    while i < pc.len()
        invariant
            pc@ == p@,
            pc.len() <= l.len(),
            i <= pc.len(),
            forall|k: int| 0 <= k < i ==> l@[k] == pc@[k],
        decreases pc.len() - i,
    {
        if l[i] != pc[i] {
            assert(l@.take(pc.len() as int)[i as int] != p@[i as int]);
            return false;
        }
        i += 1;
    }
    assert(l@.take(pc.len() as int) =~= p@);
    true
}

/// What reading a kernel text came to: two counts; nothing readable,
/// where the server has no reading; or a count too large for 64 bits,
/// where the server's unsigned arithmetic overflows.
#[derive(Debug, Clone, Copy, PartialEq, Eq, Structural)]
pub enum ProcReading {
    Values(u64, u64),
    Unreadable,
    Overflow,
}

/// The number that the first word of a text gives, if it is one.
pub open spec fn first_word_value(rest: Seq<char>) -> Option<u64> {
    let w = words(rest);
    if w.len() == 0 { None } else { parse_u64(w[0]) }
}

/// A kibibyte count in bytes, or `Overflow` where that does not fit.
pub open spec fn in_bytes(v: Option<u64>, other: u64, total_first: bool) -> ProcReading {
    match v {
        Some(k) => if k * 1024 <= u64::MAX {
            if total_first { ProcReading::Values((k * 1024) as u64, other) } else { ProcReading::Values(other, (k * 1024) as u64) }
        } else {
            ProcReading::Overflow
        },
        None => ProcReading::Unreadable,
    }
}

/// The memory totals after the given lines of `/proc/meminfo`, line by
/// line: a `MemTotal:` line sets the total and a `MemAvailable:` line the
/// available memory, each to its first word times 1024; a first word that
/// is no number makes the reading unreadable, and the first line that
/// does so, or that overflows, decides the reading.
pub open spec fn meminfo_scan(ls: Seq<Seq<char>>) -> ProcReading
    decreases ls.len(),
{
    if ls.len() == 0 {
        ProcReading::Values(0, 0)
    } else {
        let l = ls.last();
        match meminfo_scan(ls.drop_last()) {
            ProcReading::Values(total, avail) =>
                if has_prefix(l, "MemTotal:"@) {
                    in_bytes(first_word_value(l.skip("MemTotal:"@.len() as int)), avail, true)
                } else if has_prefix(l, "MemAvailable:"@) {
                    in_bytes(first_word_value(l.skip("MemAvailable:"@.len() as int)), total, false)
                } else {
                    ProcReading::Values(total, avail)
                },
            other => other,
        }
    }
}

proof fn lemma_meminfo_stuck(ls: Seq<Seq<char>>, k: int, m: int)
    requires
        0 <= k <= m <= ls.len(),
        !(meminfo_scan(ls.take(k)) is Values),
    ensures
        meminfo_scan(ls.take(m)) == meminfo_scan(ls.take(k)),
    decreases m - k,
{
    if m > k {
        lemma_meminfo_stuck(ls, k, m - 1);
        assert(ls.take(m).drop_last() =~= ls.take(m - 1));
    }
}

/// The memory total and the available memory, in bytes, that a
/// `/proc/meminfo` text gives.
pub fn meminfo_totals(content: &str) -> (r: ProcReading)
    ensures
        r == meminfo_scan(lines(content@)),
{
    let cs = chars_of(content);
    let ls = lines_of(&cs);
    let ghost all = char_seqs(ls@);
    let total_key = "MemTotal:";
    let avail_key = "MemAvailable:";
    let total_skip = chars_of(total_key).len();
    let avail_skip = chars_of(avail_key).len();
    let mut total: u64 = 0;
    let mut avail: u64 = 0;
    let mut i: usize = 0;
    assert(all.take(0) =~= Seq::<Seq<char>>::empty());
    while i < ls.len()
        invariant
            all == char_seqs(ls@),
            all == lines(cs@),
            cs@ == content@,
            total_skip == total_key@.len(),
            avail_skip == avail_key@.len(),
            total_key@ == "MemTotal:"@,
            avail_key@ == "MemAvailable:"@,
            i <= ls.len(),
            meminfo_scan(all.take(i as int)) == ProcReading::Values(total, avail),
        decreases ls.len() - i,
    {
        let line = &ls[i];
        assert(all[i as int] == line@);
        assert(all.take(i + 1).drop_last() =~= all.take(i as int));
        assert(all.take(i + 1).last() == line@);
        let step = if starts_with_text(line, total_key) {
            let v = if total_skip <= line.len() {
                let w = words_from(line, total_skip);
                if w.len() == 0 { None } else { parse_u64_chars(&w[0]) }
            } else {
                None
            };
            assert(v == first_word_value(line@.skip(total_skip as int)));
            match v {
                Some(k) => if k <= u64::MAX / 1024 { ProcReading::Values(k * 1024, avail) } else { ProcReading::Overflow },
                None => ProcReading::Unreadable,
            }
        } else if starts_with_text(line, avail_key) {
            let v = if avail_skip <= line.len() {
                let w = words_from(line, avail_skip);
                if w.len() == 0 { None } else { parse_u64_chars(&w[0]) }
            } else {
                None
            };
            assert(v == first_word_value(line@.skip(avail_skip as int)));
            match v {
                Some(k) => if k <= u64::MAX / 1024 { ProcReading::Values(total, k * 1024) } else { ProcReading::Overflow },
                None => ProcReading::Unreadable,
            }
        } else {
            ProcReading::Values(total, avail)
        };
        assert(step == meminfo_scan(all.take(i + 1)));
        match step {
            ProcReading::Values(t, a) => {
                total = t;
                avail = a;
            },
            _ => {
                proof { lemma_meminfo_stuck(all, i + 1, all.len() as int); }
                assert(all.take(all.len() as int) =~= all);
                return step;
            },
        }
        i += 1;
    }
    assert(all.take(all.len() as int) =~= all);
    ProcReading::Values(total, avail)
}

/// The numbers among some words, in order; words that are no number are
/// left out.
pub open spec fn numbers_in(ws: Seq<Seq<char>>) -> Seq<u64>
    decreases ws.len(),
{
    if ws.len() == 0 {
        Seq::empty()
    } else {
        let rest = numbers_in(ws.drop_last());
        match parse_u64(ws.last()) {
            Some(v) => rest.push(v),
            None => rest,
        }
    }
}

pub open spec fn total_of(v: Seq<u64>) -> int
    decreases v.len(),
{
    if v.len() == 0 { 0 } else { total_of(v.drop_last()) + v.last() }
}

proof fn lemma_total_concat(a: Seq<u64>, b: Seq<u64>)
    ensures
        total_of(a + b) == total_of(a) + total_of(b),
    decreases b.len(),
{
    if b.len() == 0 {
        assert(a + b =~= a);
    } else {
        lemma_total_concat(a, b.drop_last());
        assert((a + b).drop_last() =~= a + b.drop_last());
    }
}

proof fn lemma_total_nonneg(v: Seq<u64>)
    ensures
        total_of(v) >= 0,
    decreases v.len(),
{
    if v.len() > 0 {
        lemma_total_nonneg(v.drop_last());
    }
}

/// The numbers after the first word of a line.
pub open spec fn cpu_fields(line: Seq<char>) -> Seq<u64> {
    let w = words(line);
    if w.len() == 0 { Seq::empty() } else { numbers_in(w.skip(1)) }
}

/// What the first line of `/proc/stat` gives: the total of its times and
/// the idle time, the total from the fourth time on. With fewer than four
/// times, or no line at all, nothing is readable.
pub open spec fn cpu_scan(content: Seq<char>) -> ProcReading {
    let ls = lines(content);
    if ls.len() == 0 {
        ProcReading::Unreadable
    } else {
        let parts = cpu_fields(ls[0]);
        if parts.len() < 4 {
            ProcReading::Unreadable
        } else if total_of(parts) > u64::MAX {
            ProcReading::Overflow
        } else {
            ProcReading::Values(total_of(parts) as u64, total_of(parts.skip(3)) as u64)
        }
    }
}

/// The total and the idle CPU time that a `/proc/stat` text gives.
pub fn cpu_times(content: &str) -> (r: ProcReading)
    ensures
        r == cpu_scan(content@),
{
    let cs = chars_of(content);
    let ls = lines_of(&cs);
    let ghost all = char_seqs(ls@);
    if ls.len() == 0 {
        return ProcReading::Unreadable;
    }
    assert(all[0] == ls[0]@);
    let w = words_from(&ls[0], 0);
    assert(ls[0]@.skip(0) =~= ls[0]@);
    let ghost ws = char_seqs(w@);
    let mut parts: Vec<u64> = Vec::new();
    if w.len() > 0 {
        let mut i: usize = 1;
        assert(ws.skip(1).take(0) =~= Seq::<Seq<char>>::empty());
        while i < w.len()
            invariant
                1 <= i <= w.len(),
                ws == char_seqs(w@),
                parts@ == numbers_in(ws.skip(1).take(i - 1)),
            decreases w.len() - i,
        {
            assert(ws.skip(1).take(i as int).drop_last() =~= ws.skip(1).take(i - 1));
            assert(ws.skip(1).take(i as int).last() == w[i as int]@);
            match parse_u64_chars(&w[i]) {
                Some(v) => parts.push(v),
                None => {},
            }
            i += 1;
        }
        assert(ws.skip(1).take(w.len() - 1) =~= ws.skip(1));
    }
    let ghost p = parts@;
    assert(p == cpu_fields(all[0]));
    assert(all == lines(content@));
    if parts.len() < 4 {
        return ProcReading::Unreadable;
    }
    let mut total: u64 = 0;
    let mut k: usize = 0;
    while k < parts.len()
        invariant
            p == parts@,
            p == cpu_fields(lines(content@)[0]),
            lines(content@).len() > 0,
            p.len() >= 4,
            k <= parts.len(),
            total == total_of(p.take(k as int)),
        decreases parts.len() - k,
    {
        assert(p.take(k + 1).drop_last() =~= p.take(k as int));
        assert(p.take(k + 1).last() == p[k as int]);
        proof {
            lemma_total_concat(p.take(k + 1), p.skip(k + 1));
            assert(p.take(k + 1) + p.skip(k + 1) =~= p);
            lemma_total_nonneg(p.skip(k + 1));
        }
        if parts[k] > u64::MAX - total {
            return ProcReading::Overflow;
        }
        total = total + parts[k];
        k += 1;
    }
    assert(p.take(p.len() as int) =~= p);
    let mut idle: u64 = 0;
    let mut j: usize = 3;
    proof {
        lemma_total_concat(p.take(3), p.skip(3));
        assert(p.take(3) + p.skip(3) =~= p);
        lemma_total_nonneg(p.take(3));
        assert(p.skip(3).take(0) =~= Seq::<u64>::empty());
    }
    while j < parts.len()
        invariant
            p == parts@,
            3 <= j <= parts.len(),
            idle == total_of(p.skip(3).take(j - 3)),
            total_of(p.skip(3)) <= u64::MAX,
        decreases parts.len() - j,
    {
        let ghost q = p.skip(3);
        assert(q.take(j - 2).drop_last() =~= q.take(j - 3));
        assert(q.take(j - 2).last() == p[j as int]);
        proof {
            lemma_total_concat(q.take(j - 2), q.skip(j - 2));
            assert(q.take(j - 2) + q.skip(j - 2) =~= q);
            lemma_total_nonneg(q.skip(j - 2));
        }
        idle = idle + parts[j];
        j += 1;
    }
    assert(p.skip(3).take(p.len() - 3) =~= p.skip(3));
    ProcReading::Values(total, idle)
}

/// The position of the first line that starts with `p`, from `from` on.
pub open spec fn first_with_prefix(ls: Seq<Seq<char>>, p: Seq<char>, from: int) -> Option<int>
    decreases ls.len() - from,
{
    if from < 0 || from >= ls.len() {
        None
    } else if has_prefix(ls[from], p) {
        Some(from)
    } else {
        first_with_prefix(ls, p, from + 1)
    }
}

/// The thread count of a `/proc/self/status` text: the last word of the
/// first `Threads:` line, as a number; 0 where there is no such line or
/// that word is no number.
pub open spec fn thread_count_of(status: Seq<char>) -> u64 {
    let ls = lines(status);
    match first_with_prefix(ls, "Threads:"@, 0) {
        Some(i) => {
            let w = words(ls[i]);
            if w.len() == 0 {
                0
            } else {
                match parse_u64(w.last()) {
                    Some(v) => v,
                    None => 0,
                }
            }
        },
        None => 0,
    }
}

/// The number of threads that a `/proc/self/status` text reports.
pub fn thread_count(status: &str) -> (r: u64)
    ensures
        r == thread_count_of(status@),
{
    let cs = chars_of(status);
    let ls = lines_of(&cs);
    let ghost all = char_seqs(ls@);
    let key = "Threads:";
    let mut i: usize = 0;
    while i < ls.len()
        invariant
            all == char_seqs(ls@),
            all == lines(status@),
            cs@ == status@,
            key@ == "Threads:"@,
            i <= ls.len(),
            first_with_prefix(all, key@, 0) == first_with_prefix(all, key@, i as int),
        decreases ls.len() - i,
    {
        assert(all[i as int] == ls[i as int]@);
        if starts_with_text(&ls[i], key) {
            let w = words_from(&ls[i], 0);
            assert(ls[i as int]@.skip(0) =~= ls[i as int]@);
            if w.len() == 0 {
                return 0;
            }
            let last = w.len() - 1;
            assert(char_seqs(w@).last() == w[last as int]@);
            return match parse_u64_chars(&w[last]) {
                Some(v) => v,
                None => 0,
            };
        }
        i += 1;
    }
    0
}

} // verus!
