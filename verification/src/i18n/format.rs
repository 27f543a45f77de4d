//! Per-locale number, currency and date formatting.
//!
//! Pure arithmetic on the locale's separators and month tables; no CLDR data.

use vstd::prelude::*;
use crate::text::{dec_digits, push_char, push_str, decimal_chars, push_decimal, int_text, push_int};
use crate::i18n::locales::{meta_for, is_supported, group_sep_of, currency_of, rtl_of};

verus! {

/// Digits with a separator before every group of three counted from the right.
pub open spec fn grouped(ds: Seq<char>, sep: char) -> Seq<char>
    decreases ds.len(),
{
    if ds.len() <= 3 {
        ds
    } else {
        grouped(ds.take(ds.len() - 3), sep).push(sep) + ds.skip(ds.len() - 3)
    }
}

/// The magnitude of an integer.
pub open spec fn magnitude(v: int) -> nat {
    if v < 0 { (-v) as nat } else { v as nat }
}

/// The group separator used for a locale code (`,` when the locale is unknown).
pub open spec fn group_sep_for(code: Seq<char>) -> char {
    if is_supported(code) { group_sep_of(code) } else { ',' }
}

/// An integer written with the locale's thousands grouping.
pub open spec fn number_text(code: Seq<char>, value: int) -> Seq<char> {
    let body = grouped(dec_digits(magnitude(value)), group_sep_for(code));
    if value < 0 { seq!['-'] + body } else { body }
}

/// A coin amount written as a currency string: the symbol precedes the number
/// for right-to-left locales and follows it otherwise; unknown locales use `$`.
pub open spec fn currency_text(code: Seq<char>, value: int) -> Seq<char> {
    let sym = if is_supported(code) { currency_of(code) } else { "$"@ };
    let rtl = is_supported(code) && rtl_of(code);
    if rtl {
        sym + seq![' '] + number_text(code, value)
    } else {
        number_text(code, value) + seq![' '] + sym
    }
}

/// A text with every `c` taken out.
pub open spec fn without(s: Seq<char>, c: char) -> Seq<char>
    decreases s.len(),
{
    if s.len() == 0 {
        s
    } else {
        let r = without(s.drop_last(), c);
        if s.last() == c { r } else { r.push(s.last()) }
    }
}

proof fn lemma_without_concat(a: Seq<char>, b: Seq<char>, c: char)
    ensures
        without(a + b, c) == without(a, c) + without(b, c),
    decreases b.len(),
{
    if b.len() == 0 {
        assert(a + b =~= a);
        assert(without(a, c) + without(b, c) =~= without(a, c));
    } else {
        lemma_without_concat(a, b.drop_last(), c);
        assert((a + b).drop_last() =~= a + b.drop_last());
        assert((a + b).last() == b.last());
        if b.last() != c {
            assert(without(a, c) + without(b.drop_last(), c).push(b.last())
                =~= (without(a, c) + without(b.drop_last(), c)).push(b.last()));
        }
    }
}

pub open spec fn is_digit(ch: char) -> bool {
    '0' <= ch && ch <= '9'
}

proof fn lemma_dec_digits_are_digits(n: nat)
    ensures
        dec_digits(n).len() >= 1,
        forall|i: int| 0 <= i < dec_digits(n).len() ==> #[trigger] is_digit(dec_digits(n)[i]),
    decreases n,
{
    if n >= 10 {
        lemma_dec_digits_are_digits(n / 10);
    }
}

/// The text written for a grouped run of digits: no separator leads it,
/// and each separator is followed by exactly three digits and then a
/// separator or the end.
pub open spec fn grouped_from_right(s: Seq<char>, sep: char) -> bool {
    &&& s.len() >= 1 && s[0] != sep
    &&& forall|i: int| 0 <= i < s.len() && #[trigger] s[i] == sep ==>
            i + 4 <= s.len() && s[i + 1] != sep && s[i + 2] != sep && s[i + 3] != sep
            && (i + 4 == s.len() || s[i + 4] == sep)
}

proof fn lemma_grouped(ds: Seq<char>, sep: char)
    requires
        ds.len() >= 1,
        forall|i: int| 0 <= i < ds.len() ==> #[trigger] ds[i] != sep,
    ensures
        without(grouped(ds, sep), sep) == ds,
        grouped(ds, sep).len() == ds.len() + (ds.len() - 1) / 3,
        grouped_from_right(grouped(ds, sep), sep),
    decreases ds.len(),
{
    if ds.len() <= 3 {
        lemma_without_concat(Seq::empty(), ds, sep);
        assert(Seq::<char>::empty() + ds =~= ds);
        lemma_without_plain(ds, sep);
    } else {
        let head = ds.take(ds.len() - 3);
        let tail = ds.skip(ds.len() - 3);
        assert forall|i: int| 0 <= i < head.len() implies #[trigger] head[i] != sep by {
            assert(head[i] == ds[i]);
        }
        assert forall|i: int| 0 <= i < tail.len() implies #[trigger] tail[i] != sep by {
            assert(tail[i] == ds[ds.len() - 3 + i]);
        }
        lemma_grouped(head, sep);
        let g = grouped(head, sep);
        let whole = grouped(ds, sep);
        assert(whole == g.push(sep) + tail);
        lemma_without_concat(g.push(sep), tail, sep);
        assert(g.push(sep).drop_last() =~= g);
        lemma_without_plain(tail, sep);
        assert(head + tail =~= ds);
        assert forall|i: int| 0 <= i < whole.len() && #[trigger] whole[i] == sep implies
            i + 4 <= whole.len() && whole[i + 1] != sep && whole[i + 2] != sep && whole[i + 3] != sep
            && (i + 4 == whole.len() || whole[i + 4] == sep) by {
            if i < g.len() {
                assert(whole[i] == g[i]);
                if i + 4 < g.len() {
                    assert(whole[i + 4] == g[i + 4]);
                } else {
                    assert(i + 4 == g.len());
                    assert(whole[i + 4] == sep);
                }
                assert(whole[i + 1] == g[i + 1] && whole[i + 2] == g[i + 2] && whole[i + 3] == g[i + 3]);
            } else if i == g.len() {
                assert(whole[i + 1] == tail[0] && whole[i + 2] == tail[1] && whole[i + 3] == tail[2]);
            } else {
                assert(whole[i] == tail[i - g.len() - 1]);
            }
        }
        assert(whole[0] == g[0]);
    }
}

proof fn lemma_without_plain(s: Seq<char>, c: char)
    requires
        forall|i: int| 0 <= i < s.len() ==> #[trigger] s[i] != c,
    ensures
        without(s, c) == s,
    decreases s.len(),
{
    if s.len() > 0 {
        assert forall|i: int| 0 <= i < s.drop_last().len() implies #[trigger] s.drop_last()[i] != c by {
            assert(s.drop_last()[i] == s[i]);
        }
        lemma_without_plain(s.drop_last(), c);
        assert(s.drop_last().push(s.last()) =~= s);
    }
}

/// A formatted number is its sign and the decimal digits of its magnitude,
/// with the locale's separator before each group of three digits counted
/// from the right: taking the separators out gives the sign and digits
/// back, and there are (digits - 1) / 3 separators.
pub proof fn law_number_is_grouped_digits(code: Seq<char>, value: int)
    ensures
        ({
            let sep = group_sep_for(code);
            let ds = dec_digits(magnitude(value));
            let t = number_text(code, value);
            let body = if value < 0 { t.skip(1) } else { t };
            &&& without(t, sep) == (if value < 0 { seq!['-'] } else { Seq::<char>::empty() }) + ds
            &&& t.len() == (if value < 0 { 1int } else { 0int }) + ds.len() + (ds.len() - 1) / 3
            &&& (value < 0 ==> t[0] == '-')
            &&& grouped_from_right(body, sep)
        }),
        group_sep_for("en"@) == ',',
        group_sep_for("es"@) == '.',
        group_sep_for("pt"@) == '.',
        group_sep_for("fr"@) == ' ',
        group_sep_for("ar"@) == '٬',
{
    reveal_strlit("en");
    reveal_strlit("es");
    reveal_strlit("pt");
    reveal_strlit("fr");
    reveal_strlit("ar");
    crate::i18n::locales::lemma_codes_distinct();
    let sep = group_sep_for(code);
    let ds = dec_digits(magnitude(value));
    lemma_dec_digits_are_digits(magnitude(value));
    assert(!is_digit(sep) && sep != '-');
    assert forall|i: int| 0 <= i < ds.len() implies #[trigger] ds[i] != sep by {
        assert(is_digit(ds[i]));
    }
    lemma_grouped(ds, sep);
    let g = grouped(ds, sep);
    if value < 0 {
        lemma_without_concat(seq!['-'], g, sep);
        assert(without(seq!['-'], sep) =~= seq!['-']) by {
            let m = seq!['-'];
            assert(m.drop_last() =~= Seq::<char>::empty());
            assert(m.last() == '-');
            assert(without(m.drop_last(), sep) =~= Seq::<char>::empty());
            assert(Seq::<char>::empty().push('-') =~= m);
        }
        assert((seq!['-'] + g).skip(1) =~= g);
    }
}

/// A currency amount is the formatted number with the locale's symbol
/// after it and a space between ("1,250 $", "1.250 €", "1.250 R$"), except
/// in Arabic, written right to left, where the symbol comes first
/// ("ر.س 1٬250"); an unknown locale writes dollars.
pub proof fn law_currency_places_symbol(value: int)
    ensures
        currency_text("en"@, value) == number_text("en"@, value) + " $"@,
        currency_text("es"@, value) == number_text("es"@, value) + " €"@,
        currency_text("fr"@, value) == number_text("fr"@, value) + " €"@,
        currency_text("pt"@, value) == number_text("pt"@, value) + " R$"@,
        currency_text("ar"@, value) == "ر.س "@ + number_text("ar"@, value),
        currency_text("xx"@, value) == number_text("xx"@, value) + " $"@,
{
    reveal_strlit("en");
    reveal_strlit("es");
    reveal_strlit("pt");
    reveal_strlit("fr");
    reveal_strlit("ar");
    reveal_strlit("xx");
    reveal_strlit("$");
    reveal_strlit("€");
    reveal_strlit("R$");
    reveal_strlit("ر.س");
    reveal_strlit(" $");
    reveal_strlit(" €");
    reveal_strlit(" R$");
    reveal_strlit("ر.س ");
    crate::i18n::locales::lemma_codes_distinct();
    assert("xx"@ != "en"@ && "xx"@ != "es"@ && "xx"@ != "pt"@ && "xx"@ != "ar"@ && "xx"@ != "fr"@) by {
        assert("xx"@[0] != "en"@[0] && "xx"@[0] != "pt"@[0] && "xx"@[0] != "ar"@[0] && "xx"@[0] != "fr"@[0]);
    }
    assert(currency_text("en"@, value) =~= number_text("en"@, value) + " $"@);
    assert(currency_text("es"@, value) =~= number_text("es"@, value) + " €"@);
    assert(currency_text("fr"@, value) =~= number_text("fr"@, value) + " €"@);
    assert(currency_text("pt"@, value) =~= number_text("pt"@, value) + " R$"@);
    assert(currency_text("ar"@, value) =~= "ر.س "@ + number_text("ar"@, value));
    assert(currency_text("xx"@, value) =~= number_text("xx"@, value) + " $"@);
}

fn push_chars(out: &mut String, ds: &Vec<char>, from: usize, to: usize)
    requires
        from <= to <= ds.len(),
    ensures
        final(out)@ == old(out)@ + ds@.subrange(from as int, to as int),
{
    let mut i = from;
    while i < to
        invariant
            from <= i <= to <= ds.len(),
            out@ == old(out)@ + ds@.subrange(from as int, i as int),
        decreases to - i,
    {
        push_char(out, ds[i]);
        assert(ds@.subrange(from as int, i + 1) =~= ds@.subrange(from as int, i as int).push(ds@[i as int]));
        i += 1;
    }
}

fn push_grouped(out: &mut String, ds: &Vec<char>, end: usize, sep: char)
    requires
        end <= ds.len(),
    ensures
        final(out)@ == old(out)@ + grouped(ds@.take(end as int), sep),
    decreases end,
{
    let ghost d = ds@.take(end as int);
    if end <= 3 {
        push_chars(out, ds, 0, end);
        assert(ds@.subrange(0, end as int) =~= d);
    } else {
        push_grouped(out, ds, end - 3, sep);
        push_char(out, sep);
        push_chars(out, ds, end - 3, end);
        assert(d.take(d.len() - 3) =~= ds@.take(end - 3));
        assert(d.skip(d.len() - 3) =~= ds@.subrange(end - 3, end as int));
        assert(out@ =~= old(out)@ + grouped(d, sep));
    }
}

fn push_number(out: &mut String, value: i64, sep: char)
    ensures
        final(out)@ == old(out)@ + (if value < 0 { seq!['-'] } else { seq![] })
            + grouped(dec_digits(magnitude(value as int)), sep),
{
    let mag: u64 = if value < 0 {
        if value == i64::MIN { 9_223_372_036_854_775_808u64 } else { (-value) as u64 }
    } else {
        value as u64
    };
    if value < 0 {
        push_char(out, '-');
    }
    let ds = decimal_chars(mag);
    push_grouped(out, &ds, ds.len(), sep);
    assert(ds@.take(ds.len() as int) =~= ds@);
    if value < 0 {
        assert(out@ =~= old(out)@ + seq!['-'] + grouped(dec_digits(magnitude(value as int)), sep));
    } else {
        assert(out@ =~= old(out)@ + Seq::<char>::empty() + grouped(dec_digits(magnitude(value as int)), sep));
    }
}

/// Formats an integer with the locale's thousands grouping.
pub fn number(locale: &str, value: i64) -> (r: String)
    ensures
        r@ == number_text(locale@, value as int),
{
    let sep = match meta_for(locale) {
        Some(m) => m.group_sep,
        None => ',',
    };
    let mut out = String::new();
    push_number(&mut out, value, sep);
    if value < 0 {
        assert(out@ =~= number_text(locale@, value as int));
    } else {
        assert(out@ =~= number_text(locale@, value as int));
    }
    out
}

/// Formats an amount of coins (integer minor units) as a currency string.
pub fn currency(locale: &str, value: i64) -> (r: String)
    ensures
        r@ == currency_text(locale@, value as int),
{
    let m = meta_for(locale);
    let grouped = number(locale, value);
    let (sym, rtl): (&str, bool) = match &m {
        Some(m) => (m.currency, m.rtl),
        None => ("$", false),
    };
    let mut out = String::new();
    if rtl {
        push_str(&mut out, sym);
        push_char(&mut out, ' ');
        push_str(&mut out, grouped.as_str());
    } else {
        push_str(&mut out, grouped.as_str());
        push_char(&mut out, ' ');
        push_str(&mut out, sym);
    }
    assert(out@ =~= currency_text(locale@, value as int));
    out
}


/// UNIX seconds to whole days since 1970-01-01 (rounding toward minus infinity).
fn days_from_secs(secs: i64) -> (d: i64)
    ensures
        d == secs as int / 86400,
{
    if secs >= 0 {
        secs / 86400
    } else {
        let y: i64 = -(secs + 1);
        let q = y / 86400;
        assert(secs as int / 86400 == -(y as int / 86400) - 1) by (nonlinear_arith)
            requires y == -(secs + 1), y >= 0, secs < 0;
        -q - 1
    }
}

/// The civil (year, month, day) that Howard Hinnant's days-to-civil mapping
/// assigns to a count of days since 1970-01-01 (proleptic Gregorian, UTC).
pub open spec fn civil_of_days(days: int) -> (int, int, int) {
    let z = days + 719468;
    let era = z / 146097;
    let doe = z - era * 146097;
    let yoe = (doe - doe / 1460 + doe / 36524 - doe / 146096) / 365;
    let y = yoe + era * 400;
    let doy = doe - (365 * yoe + yoe / 4 - yoe / 100);
    let mp = (5 * doy + 2) / 153;
    let d = doy - (153 * mp + 2) / 5 + 1;
    let m = if mp < 10 { mp + 3 } else { mp - 9 };
    (if m <= 2 { y + 1 } else { y }, m, d)
}

/// Converts a UNIX timestamp (seconds) to a civil (year, month, day) date in UTC.
pub fn civil_from_unix(unix_secs: i64) -> (r: (i64, u32, u32))
    ensures
        (r.0 as int, r.1 as int, r.2 as int) == civil_of_days(unix_secs as int / 86400),
        valid_date(r.0 as int, r.1 as int, r.2 as int),
        days_from_civil(r.0 as int, r.1 as int, r.2 as int) == unix_secs as int / 86400,
        1 <= r.1 <= 12,
        1 <= r.2 <= 31,
{
    proof { law_civil_dates_are_exact(unix_secs as int / 86400); }
    let days = days_from_secs(unix_secs);
    let z: i64 = days + 719_468;
    let era: i64 = if z >= 0 { z / 146_097 } else { -((-(z + 1)) / 146_097) - 1 };
    assert(era as int == z as int / 146097) by (nonlinear_arith)
        requires
            z >= 0 ==> era == z / 146097,
            z < 0 ==> era == -((-(z + 1)) / 146097) - 1;
    let doe: i64 = z - era * 146_097;
    assert(0 <= doe < 146097) by (nonlinear_arith)
        requires era == z / 146097, doe == z - era * 146097;
    let yoe: i64 = (doe - doe / 1460 + doe / 36_524 - doe / 146_096) / 365;
    assert(0 <= yoe <= 399) by (nonlinear_arith)
        requires 0 <= doe < 146097, yoe == (doe - doe / 1460 + doe / 36524 - doe / 146096) / 365;
    let y: i64 = yoe + era * 400;
    let doy: i64 = doe - (365 * yoe + yoe / 4 - yoe / 100);
    assert(0 <= doy <= 365) by (nonlinear_arith)
        requires 0 <= doe < 146097, 0 <= yoe <= 399,
            yoe == (doe - doe / 1460 + doe / 36524 - doe / 146096) / 365,
            doy == doe - (365 * yoe + yoe / 4 - yoe / 100);
    let mp: i64 = (5 * doy + 2) / 153;
    let d: i64 = doy - (153 * mp + 2) / 5 + 1;
    assert(0 <= mp <= 11 && 1 <= d <= 31) by (nonlinear_arith)
        requires 0 <= doy <= 365, mp == (5 * doy + 2) / 153, d == doy - (153 * mp + 2) / 5 + 1;
    let m: i64 = if mp < 10 { mp + 3 } else { mp - 9 };
    let y = if m <= 2 { y + 1 } else { y };
    (y, m as u32, d as u32)
}

/// Month names of a locale (English for unknown locales).
pub open spec fn month_name(code: Seq<char>, m: int) -> Seq<char> {
    let i = m - 1;
    if code == "es"@ {
        seq!["enero"@, "febrero"@, "marzo"@, "abril"@, "mayo"@, "junio"@, "julio"@, "agosto"@,
            "septiembre"@, "octubre"@, "noviembre"@, "diciembre"@][i]
    } else if code == "pt"@ {
        seq!["janeiro"@, "fevereiro"@, "março"@, "abril"@, "maio"@, "junho"@, "julho"@, "agosto"@,
            "setembro"@, "outubro"@, "novembro"@, "dezembro"@][i]
    } else if code == "ar"@ {
        seq!["يناير"@, "فبراير"@, "مارس"@, "أبريل"@, "مايو"@, "يونيو"@, "يوليو"@, "أغسطس"@,
            "سبتمبر"@, "أكتوبر"@, "نوفمبر"@, "ديسمبر"@][i]
    } else if code == "fr"@ {
        seq!["janvier"@, "février"@, "mars"@, "avril"@, "mai"@, "juin"@, "juillet"@, "août"@,
            "septembre"@, "octobre"@, "novembre"@, "décembre"@][i]
    } else {
        seq!["January"@, "February"@, "March"@, "April"@, "May"@, "June"@, "July"@, "August"@,
            "September"@, "October"@, "November"@, "December"@][i]
    }
}

/// A date in the locale's language: "5 de enero de 1970" (es, pt),
/// "5 janvier 1970" (fr, ar) or "January 5, 1970" (others).
pub open spec fn date_text(code: Seq<char>, secs: int) -> Seq<char> {
    let (y, m, d) = civil_of_days(secs / 86400);
    let month = month_name(code, m);
    if code == "es"@ || code == "pt"@ {
        dec_digits(d as nat) + " de "@ + month + " de "@ + int_text(y)
    } else if code == "fr"@ || code == "ar"@ {
        dec_digits(d as nat) + " "@ + month + " "@ + int_text(y)
    } else {
        month + " "@ + dec_digits(d as nat) + ", "@ + int_text(y)
    }
}

/// A Portuguese date reads as the Spanish one of the same instant with the
/// Portuguese month name in place of the Spanish: "{day} de {month} de
/// {year}". French and Arabic dates share their own shape the same way.
pub proof fn law_pt_date_reads_like_es(secs: int)
    ensures
        ({
            let (y, m, d) = civil_of_days(secs / 86400);
            let es = date_text("es"@, secs);
            let fr = date_text("fr"@, secs);
            let n: int = dec_digits(d as nat).len() as int;
            &&& es.take(n + 4) == dec_digits(d as nat) + " de "@
            &&& date_text("pt"@, secs) == es.take(n + 4) + month_name("pt"@, m) + es.skip(n + 4 + month_name("es"@, m).len())
            &&& fr.take(n + 1) == dec_digits(d as nat) + " "@
            &&& date_text("ar"@, secs) == fr.take(n + 1) + month_name("ar"@, m) + fr.skip(n + 1 + month_name("fr"@, m).len())
        }),
{
    reveal_strlit(" de ");
    reveal_strlit(" ");
    reveal_strlit("es");
    reveal_strlit("pt");
    reveal_strlit("fr");
    reveal_strlit("ar");
    let (y, m, d) = civil_of_days(secs / 86400);
    let dd = dec_digits(d as nat);
    let n: int = dd.len() as int;
    let es = date_text("es"@, secs);
    let me = month_name("es"@, m);
    let mp = month_name("pt"@, m);
    let tail = " de "@ + int_text(y);
    assert(es =~= dd + " de "@ + me + tail);
    assert(es.take(n + 4) =~= dd + " de "@);
    assert(es.skip(n + 4 + me.len()) =~= tail);
    assert(date_text("pt"@, secs) =~= es.take(n + 4) + mp + es.skip(n + 4 + me.len()));
    assert("fr"@[0] != "es"@[0] && "fr"@[0] != "pt"@[0] && "ar"@[0] != "es"@[0] && "ar"@[0] != "pt"@[0]);
    assert("fr"@ != "es"@ && "fr"@ != "pt"@ && "ar"@ != "es"@ && "ar"@ != "pt"@);
    let fr = date_text("fr"@, secs);
    let mf = month_name("fr"@, m);
    let tail2 = " "@ + int_text(y);
    assert(fr =~= dd + " "@ + mf + tail2);
    assert(fr.take(n + 1) =~= dd + " "@);
    assert(fr.skip(n + 1 + mf.len()) =~= tail2);
    assert(date_text("ar"@, secs) =~= fr.take(n + 1) + month_name("ar"@, m) + fr.skip(n + 1 + mf.len()));
}

fn months_for(locale: &str, m: u32) -> (r: &'static str)
    requires
        1 <= m <= 12,
    ensures
        r@ == month_name(locale@, m as int),
{
    let i = (m - 1) as usize;
    let es = ["enero", "febrero", "marzo", "abril", "mayo", "junio", "julio", "agosto",
        "septiembre", "octubre", "noviembre", "diciembre"];
    let pt = ["janeiro", "fevereiro", "março", "abril", "maio", "junho", "julho", "agosto",
        "setembro", "outubro", "novembro", "dezembro"];
    let ar = ["يناير", "فبراير", "مارس", "أبريل", "مايو", "يونيو", "يوليو", "أغسطس",
        "سبتمبر", "أكتوبر", "نوفمبر", "ديسمبر"];
    let fr = ["janvier", "février", "mars", "avril", "mai", "juin", "juillet", "août",
        "septembre", "octobre", "novembre", "décembre"];
    let en = ["January", "February", "March", "April", "May", "June", "July", "August",
        "September", "October", "November", "December"];
    if crate::text::str_eq(locale, "es") {
        es[i]
    } else if crate::text::str_eq(locale, "pt") {
        pt[i]
    } else if crate::text::str_eq(locale, "ar") {
        ar[i]
    } else if crate::text::str_eq(locale, "fr") {
        fr[i]
    } else {
        en[i]
    }
}


/// Formats a UNIX timestamp as a date in the locale's language.
pub fn date(locale: &str, unix_secs: i64) -> (r: String)
    ensures
        r@ == date_text(locale@, unix_secs as int),
{
    let (year, month, day) = civil_from_unix(unix_secs);
    assert(year > i64::MIN) by (nonlinear_arith)
        requires (year as int, month as int, day as int) == civil_of_days(unix_secs as int / 86400);
    let name = months_for(locale, month);
    let mut out = String::new();
    if crate::text::str_eq(locale, "es") || crate::text::str_eq(locale, "pt") {
        push_decimal(&mut out, day as u64);
        push_str(&mut out, " de ");
        push_str(&mut out, name);
        push_str(&mut out, " de ");
        push_int(&mut out, year);
    } else if crate::text::str_eq(locale, "fr") || crate::text::str_eq(locale, "ar") {
        push_decimal(&mut out, day as u64);
        push_str(&mut out, " ");
        push_str(&mut out, name);
        push_str(&mut out, " ");
        push_int(&mut out, year);
    } else {
        push_str(&mut out, name);
        push_str(&mut out, " ");
        push_decimal(&mut out, day as u64);
        push_str(&mut out, ", ");
        push_int(&mut out, year);
    }
    assert(out@ =~= date_text(locale@, unix_secs as int));
    out
}

} // verus!

verus! {

/// Leap years of the proleptic Gregorian calendar.
pub open spec fn is_leap(y: int) -> bool {
    (y % 4 == 0 && y % 100 != 0) || y % 400 == 0
}

/// The number of days in month `m` of year `y`.
pub open spec fn month_days(y: int, m: int) -> int {
    if m == 2 {
        if is_leap(y) { 29 } else { 28 }
    } else if m == 4 || m == 6 || m == 9 || m == 11 {
        30
    } else {
        31
    }
}

/// A real calendar date.
pub open spec fn valid_date(y: int, m: int, d: int) -> bool {
    1 <= m <= 12 && 1 <= d <= month_days(y, m)
}

/// Leap days among years 1 to `t`.
pub open spec fn leap_count(t: int) -> int {
    t / 4 - t / 100 + t / 400
}

/// Days of the months before month `m` in year `y`.
pub open spec fn days_before_month(y: int, m: int) -> int {
    let base: int = if m == 1 { 0 } else if m == 2 { 31 } else if m == 3 { 59 } else if m == 4 { 90 }
        else if m == 5 { 120 } else if m == 6 { 151 } else if m == 7 { 181 } else if m == 8 { 212 }
        else if m == 9 { 243 } else if m == 10 { 273 } else if m == 11 { 304 } else { 334 };
    base + if m > 2 && is_leap(y) { 1int } else { 0int }
}

/// Days from 1970-01-01 to the date `y-m-d`: the days of the years before
/// it (counted from year 1), of its months before it, and its own days.
pub open spec fn days_from_civil(y: int, m: int, d: int) -> int {
    365 * (y - 1) + leap_count(y - 1) + days_before_month(y, m) + d - 1 - 719162
}

/// Days from 0000-03-01 to the first of March of the March-based year `t`.
pub open spec fn march_days(t: int) -> int {
    365 * t + leap_count(t)
}

proof fn lemma_yoe(n: int)
    requires
        0 <= n <= 146096,
    ensures
        ({
            let y = (n - n / 1460 + n / 36524 - n / 146096) / 365;
            0 <= y <= 399 && march_days(y) <= n && n < march_days(y + 1)
        }),
{
    if n == 146096 {
        assert((n - n / 1460 + n / 36524 - n / 146096) / 365 == 399);
    } else {
        let c = n / 36524;
        let r = n - 36524 * c;
        assert(0 <= c <= 3 && 0 <= r < 36524);
        let b = r / 1461;
        let s = r - 1461 * b;
        assert(0 <= b <= 24 && 0 <= s <= 1460);
        assert(b == 24 ==> s <= 1459);
        let e = (24 * c + b + s) / 1460;
        assert(0 <= e <= 1);
        assert(n == 1460 * (25 * c + b) + (24 * c + b + s));
        assert(n / 1460 == 25 * c + b + e);
        assert(n / 146096 == 0);
        let a = n - n / 1460 + n / 36524 - n / 146096;
        assert(a == 365 * (100 * c + 4 * b) + (s - e));
        assert(s - e >= 0);
        let v = (s - e) / 365;
        assert(v <= 3);
        let y = a / 365;
        assert(y == 100 * c + 4 * b + v);
        assert(y / 4 == 25 * c + b);
        assert(y / 100 == c);
        assert(y / 400 == 0);
        assert(march_days(y) == 36524 * c + 1461 * b + 365 * v);
        assert(march_days(y) <= n);
        assert(n < march_days(y + 1));
    }
}

/// One more year adds one leap day exactly when the year is a leap year.
proof fn lemma_leap_step(y: int)
    ensures
        leap_count(y) - leap_count(y - 1) == if is_leap(y) { 1int } else { 0int },
{
    assert(y / 4 - (y - 1) / 4 == if y % 4 == 0 { 1int } else { 0int });
    assert(y / 100 - (y - 1) / 100 == if y % 100 == 0 { 1int } else { 0int });
    assert(y / 400 - (y - 1) / 400 == if y % 400 == 0 { 1int } else { 0int });
    assert(y % 400 == 0 ==> y % 100 == 0);
    assert(y % 100 == 0 ==> y % 4 == 0);
}

/// Shifting by whole 400-year eras shifts the March-based day count by
/// 146097 days per era and keeps leap years.
proof fn lemma_era_shift(t: int, era: int)
    ensures
        march_days(t + 400 * era) == march_days(t) + 146097 * era,
        is_leap(t + 400 * era) == is_leap(t),
{
    assert((t + 400 * era) / 4 == t / 4 + 100 * era);
    assert((t + 400 * era) / 100 == t / 100 + 4 * era);
    assert((t + 400 * era) / 400 == t / 400 + era);
    assert((t + 400 * era) % 4 == t % 4);
    assert((t + 400 * era) % 100 == t % 100);
    assert((t + 400 * era) % 400 == t % 400);
}

/// Days of the March-based months before month index `mp` (0 is March).
pub open spec fn march_month_start(mp: int) -> int {
    (153 * mp + 2) / 5
}

proof fn lemma_month_of_day(doy: int)
    requires
        0 <= doy <= 365,
    ensures
        ({
            let mp = (5 * doy + 2) / 153;
            &&& 0 <= mp <= 11
            &&& march_month_start(mp) <= doy
            &&& mp < 11 ==> doy < march_month_start(mp + 1)
            &&& mp < 11 ==> march_month_start(mp + 1) - march_month_start(mp)
                    == if mp == 1 || mp == 3 || mp == 6 || mp == 8 { 30int } else { 31int }
            &&& mp == 10 ==> march_month_start(mp) == 306
            &&& mp == 11 ==> march_month_start(mp) == 337
        }),
{
    let mp = (5 * doy + 2) / 153;
    assert(0 <= mp <= 11);
    assert(153 * mp <= 5 * doy + 2 < 153 * mp + 153);
    if mp == 0 {} else if mp == 1 {} else if mp == 2 {} else if mp == 3 {} else if mp == 4 {} else if mp == 5 {}
    else if mp == 6 {} else if mp == 7 {} else if mp == 8 {} else if mp == 9 {} else if mp == 10 {} else {}
}

/// Every day count maps to a real calendar date, and counting the days
/// from 1970-01-01 to that date gives the day count back.
pub proof fn law_civil_dates_are_exact(days: int)
    ensures
        ({
            let (y, m, d) = civil_of_days(days);
            valid_date(y, m, d) && days_from_civil(y, m, d) == days
        }),
{
    let z = days + 719468;
    let era = z / 146097;
    let doe = z - era * 146097;
    assert(0 <= doe < 146097);
    lemma_yoe(doe);
    let yoe = (doe - doe / 1460 + doe / 36524 - doe / 146096) / 365;
    let y0 = yoe + era * 400;
    let doy = doe - (365 * yoe + yoe / 4 - yoe / 100);
    assert(yoe / 400 == 0);
    assert(doy == doe - march_days(yoe));
    lemma_leap_step(yoe + 1);
    assert(march_days(yoe + 1) - march_days(yoe) == 365 + if is_leap(yoe + 1) { 1int } else { 0int });
    assert(0 <= doy <= 364 + if is_leap(yoe + 1) { 1int } else { 0int });
    lemma_era_shift(yoe, era);
    lemma_era_shift(yoe + 1, era);
    assert(y0 + 1 == (yoe + 1) + 400 * era);
    assert(is_leap(y0 + 1) == is_leap(yoe + 1));
    assert(z == march_days(y0) + doy);
    lemma_month_of_day(doy);
    let mp = (5 * doy + 2) / 153;
    let d = doy - (153 * mp + 2) / 5 + 1;
    let m = if mp < 10 { mp + 3 } else { mp - 9 };
    let y = if m <= 2 { y0 + 1 } else { y0 };
    assert(civil_of_days(days) == (y, m, d));
    lemma_leap_step(y0);
    lemma_leap_step(y0 + 1);
    if mp < 10 {
        assert(days_before_month(y, m) == 59 + march_month_start(mp) + if is_leap(y0) { 1int } else { 0int });
        assert(days_from_civil(y, m, d) == days);
        assert(valid_date(y, m, d));
    } else {
        assert(days_before_month(y, m) == march_month_start(mp) - 306);
        assert(days_from_civil(y, m, d) == days);
        assert(valid_date(y, m, d));
    }
}

/// The calendar day after `y-m-d`.
pub open spec fn next_day(date: (int, int, int)) -> (int, int, int) {
    let (y, m, d) = date;
    if d < month_days(y, m) { (y, m, d + 1) } else if m < 12 { (y, m + 1, 1) } else { (y + 1, 1, 1) }
}

/// Days from 1970-01-01 to the first of January of year `y`.
pub open spec fn year_start(y: int) -> int {
    days_from_civil(y, 1, 1)
}

proof fn lemma_year_step(y: int)
    ensures
        year_start(y + 1) == year_start(y) + 365 + if is_leap(y) { 1int } else { 0int },
{
    lemma_leap_step(y);
}

proof fn lemma_year_start_mono(a: int, b: int)
    requires
        a <= b,
    ensures
        year_start(a) <= year_start(b),
    decreases b - a,
{
    if a < b {
        lemma_year_start_mono(a, b - 1);
        lemma_year_step(b - 1);
    }
}

/// A valid date lies in its year: from the year's first day to before the
/// next year's.
proof fn lemma_date_in_year(y: int, m: int, d: int)
    requires
        valid_date(y, m, d),
    ensures
        year_start(y) <= days_from_civil(y, m, d) < year_start(y + 1),
{
    lemma_year_step(y);
}

/// Different valid dates are different day counts.
proof fn lemma_days_from_civil_injective(a: (int, int, int), b: (int, int, int))
    requires
        valid_date(a.0, a.1, a.2),
        valid_date(b.0, b.1, b.2),
        days_from_civil(a.0, a.1, a.2) == days_from_civil(b.0, b.1, b.2),
    ensures
        a == b,
{
    lemma_date_in_year(a.0, a.1, a.2);
    lemma_date_in_year(b.0, b.1, b.2);
    if a.0 < b.0 {
        lemma_year_start_mono(a.0 + 1, b.0);
    } else if b.0 < a.0 {
        lemma_year_start_mono(b.0 + 1, a.0);
    }
    assert(a.0 == b.0);
    assert(days_before_month(a.0, a.1) + a.2 == days_before_month(b.0, b.1) + b.2);
}

/// The day after a valid date is a valid date, one day later.
proof fn lemma_next_day(y: int, m: int, d: int)
    requires
        valid_date(y, m, d),
    ensures
        valid_date(next_day((y, m, d)).0, next_day((y, m, d)).1, next_day((y, m, d)).2),
        days_from_civil(next_day((y, m, d)).0, next_day((y, m, d)).1, next_day((y, m, d)).2)
            == days_from_civil(y, m, d) + 1,
{
    lemma_year_step(y);
}

/// Day 0 is 1970-01-01; with the next-day law this fixes the date of
/// every day count.
pub proof fn law_epoch_day()
    ensures
        civil_of_days(0) == (1970int, 1int, 1int),
{
}

/// Each next day count is the next calendar day.
#[verifier::spinoff_prover]
pub proof fn law_next_day(days: int)
    ensures
        civil_of_days(days + 1) == next_day(civil_of_days(days)),
{
    law_civil_dates_are_exact(days);
    law_civil_dates_are_exact(days + 1);
    let c = civil_of_days(days);
    lemma_next_day(c.0, c.1, c.2);
    lemma_days_from_civil_injective(civil_of_days(days + 1), next_day(c));
}

} // verus!
