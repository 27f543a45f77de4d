//! Locale metadata for the five supported locales.

use vstd::prelude::*;
use crate::text::{str_eq, to_owned, trim, trimmed, chars_of, string_of};

verus! {

/// Human-readable metadata for a supported locale.
#[derive(Debug)]
pub struct LocaleMeta {
    pub code: String,
    pub name: String,
    pub native: String,
    pub dir: &'static str,
    pub rtl: bool,
    /// Locale-specific decimal separator.
    pub decimal_sep: char,
    /// Locale-specific thousands separator.
    pub group_sep: char,
    /// Locale-specific currency symbol.
    pub currency: &'static str,
}

impl LocaleMeta {
    /// A field-by-field copy.
    pub fn duplicate(&self) -> (r: LocaleMeta)
        ensures
            r == *self,
    {
        LocaleMeta {
            code: self.code.clone(),
            name: self.name.clone(),
            native: self.native.clone(),
            dir: self.dir,
            rtl: self.rtl,
            decimal_sep: self.decimal_sep,
            group_sep: self.group_sep,
            currency: self.currency,
        }
    }
}

/// The supported locale codes, in table order.
pub open spec fn supported_codes() -> Seq<Seq<char>> {
    seq!["es"@, "en"@, "pt"@, "ar"@, "fr"@]
}

pub open spec fn is_supported(code: Seq<char>) -> bool {
    supported_codes().contains(code)
}

pub open spec fn name_of(code: Seq<char>) -> Seq<char> {
    if code == "es"@ { "Spanish"@ } else if code == "en"@ { "English"@ } else if code == "pt"@ { "Portuguese"@ }
    else if code == "ar"@ { "Arabic"@ } else { "French"@ }
}

pub open spec fn native_of(code: Seq<char>) -> Seq<char> {
    if code == "es"@ { "Español"@ } else if code == "en"@ { "English"@ } else if code == "pt"@ { "Português"@ }
    else if code == "ar"@ { "العربية"@ } else { "Français"@ }
}

pub open spec fn rtl_of(code: Seq<char>) -> bool {
    code == "ar"@
}

pub open spec fn dir_of(code: Seq<char>) -> Seq<char> {
    if code == "ar"@ { "rtl"@ } else { "ltr"@ }
}

pub open spec fn decimal_sep_of(code: Seq<char>) -> char {
    if code == "en"@ { '.' } else if code == "ar"@ { '٫' } else { ',' }
}

pub open spec fn group_sep_of(code: Seq<char>) -> char {
    if code == "es"@ || code == "pt"@ { '.' } else if code == "en"@ { ',' } else if code == "ar"@ { '٬' } else { ' ' }
}

pub open spec fn currency_of(code: Seq<char>) -> Seq<char> {
    if code == "en"@ { "$"@ } else if code == "pt"@ { "R$"@ } else if code == "ar"@ { "ر.س"@ } else { "€"@ }
}

/// `m` is the table entry of the supported locale `code`.
pub open spec fn describes(m: LocaleMeta, code: Seq<char>) -> bool {
    &&& m.code@ == code
    &&& m.name@ == name_of(code)
    &&& m.native@ == native_of(code)
    &&& m.dir@ == dir_of(code)
    &&& m.rtl == rtl_of(code)
    &&& m.decimal_sep == decimal_sep_of(code)
    &&& m.group_sep == group_sep_of(code)
    &&& m.currency@ == currency_of(code)
}

/// The five supported codes are pairwise distinct.
pub proof fn lemma_codes_distinct()
    ensures
        "es"@ != "en"@, "es"@ != "pt"@, "es"@ != "ar"@, "es"@ != "fr"@,
        "en"@ != "pt"@, "en"@ != "ar"@, "en"@ != "fr"@,
        "pt"@ != "ar"@, "pt"@ != "fr"@, "ar"@ != "fr"@,
{
    reveal_strlit("es"); reveal_strlit("en"); reveal_strlit("pt"); reveal_strlit("ar"); reveal_strlit("fr");
    assert("es"@[0] != "en"@[1]);
    assert("es"@[0] == 'e' && "en"@[0] == 'e' && "pt"@[0] == 'p' && "ar"@[0] == 'a' && "fr"@[0] == 'f');
    assert("es"@[1] == 's' && "en"@[1] == 'n');
}

fn meta(code: &str, name: &str, native: &str, dir: &'static str, rtl: bool, decimal_sep: char,
    group_sep: char, currency: &'static str) -> (m: LocaleMeta)
    ensures
        m.code@ == code@, m.name@ == name@, m.native@ == native@, m.dir@ == dir@, m.rtl == rtl,
        m.decimal_sep == decimal_sep, m.group_sep == group_sep, m.currency@ == currency@,
{
    LocaleMeta {
        code: to_owned(code),
        name: to_owned(name),
        native: to_owned(native),
        dir,
        rtl,
        decimal_sep,
        group_sep,
        currency,
    }
}

/// The metadata of every supported locale, in the order es, en, pt, ar, fr.
pub fn supported_meta() -> (r: Vec<LocaleMeta>)
    ensures
        r.len() == 5,
        forall|i: int| 0 <= i < 5 ==> describes(#[trigger] r@[i], supported_codes()[i]),
{
    proof {
        reveal_strlit("es"); reveal_strlit("en"); reveal_strlit("pt"); reveal_strlit("ar"); reveal_strlit("fr");
    }
    let mut v: Vec<LocaleMeta> = Vec::new();
    v.push(meta("es", "Spanish", "Español", "ltr", false, ',', '.', "€"));
    v.push(meta("en", "English", "English", "ltr", false, '.', ',', "$"));
    v.push(meta("pt", "Portuguese", "Português", "ltr", false, ',', '.', "R$"));
    v.push(meta("ar", "Arabic", "العربية", "rtl", true, '٫', '٬', "ر.س"));
    v.push(meta("fr", "French", "Français", "ltr", false, ',', ' ', "€"));
    proof { lemma_codes_distinct(); }
    assert(describes(v@[0], supported_codes()[0]));
    assert(describes(v@[1], supported_codes()[1]));
    assert(describes(v@[2], supported_codes()[2]));
    assert(describes(v@[3], supported_codes()[3]));
    assert(describes(v@[4], supported_codes()[4]));
    assert forall|i: int| 0 <= i < 5 implies describes(#[trigger] v@[i], supported_codes()[i]) by {
        if i == 0 {} else if i == 1 {} else if i == 2 {} else if i == 3 {} else {}
    }
    v
}

/// Returns the full metadata for a normalized locale code.
pub fn meta_for(locale: &str) -> (r: Option<LocaleMeta>)
    ensures
        r is Some <==> is_supported(locale@),
        r matches Some(m) ==> describes(m, locale@),
{
    let all = supported_meta();
    let mut i: usize = 0;
    while i < all.len()
        invariant
            all.len() == 5,
            forall|j: int| 0 <= j < 5 ==> describes(#[trigger] all@[j], supported_codes()[j]),
            i <= 5,
            forall|j: int| 0 <= j < i ==> supported_codes()[j] != locale@,
        decreases 5 - i,
    {
        if str_eq(all[i].code.as_str(), locale) {
            return Some(all[i].duplicate());
        }
        i += 1;
    }
    assert(!is_supported(locale@)) by {
        if is_supported(locale@) {
            let j = choose|j: int| 0 <= j < supported_codes().len() && supported_codes()[j] == locale@;
            assert(supported_codes()[j] != locale@);
        }
    }
    None
}

/// Whether a normalized locale code is written right to left.
pub fn is_rtl(locale: &str) -> (r: bool)
    ensures
        r == (is_supported(locale@) && rtl_of(locale@)),
{
    match meta_for(locale) {
        Some(m) => m.rtl,
        None => false,
    }
}


/// The parts of `s` between occurrences of `c` (as `str::split` yields them).
pub open spec fn split_on(s: Seq<char>, c: char) -> Seq<Seq<char>>
    decreases s.len(),
{
    if s.len() == 0 {
        seq![Seq::empty()]
    } else {
        let prev = split_on(s.drop_last(), c);
        if s.last() == c {
            prev.push(Seq::empty())
        } else {
            prev.update(prev.len() - 1, prev.last().push(s.last()))
        }
    }
}

/// The language tag of one Accept-Language entry: trimmed, cut before its
/// first `;`, trimmed again.
pub open spec fn entry_tag(part: Seq<char>) -> Seq<char> {
    trimmed(split_on(trimmed(part), ';')[0])
}

/// The candidate tags of an Accept-Language header, in header order.
pub open spec fn header_tags(header: Seq<char>) -> Seq<Seq<char>> {
    split_on(header, ',').map_values(|p: Seq<char>| entry_tag(p))
}

proof fn lemma_split_on_nonempty(s: Seq<char>, c: char)
    ensures
        split_on(s, c).len() >= 1,
    decreases s.len(),
{
    if s.len() > 0 {
        lemma_split_on_nonempty(s.drop_last(), c);
    }
}

/// Splits `s` at every occurrence of `c`.
pub fn split_chars(s: &str, c: char) -> (r: Vec<String>)
    ensures
        r@.map_values(|x: String| x@) == split_on(s@, c),
{
    let cs = chars_of(s);
    let mut parts: Vec<String> = Vec::new();
    let mut start: usize = 0;
    let mut i: usize = 0;
    assert(cs@.take(0) =~= Seq::<char>::empty());
    assert(parts@.map_values(|x: String| x@).push(cs@.subrange(0, 0)) =~= seq![Seq::<char>::empty()]);
    while i < cs.len()
        invariant
            cs@ == s@,
            start <= i <= cs.len(),
            parts@.map_values(|x: String| x@).push(cs@.subrange(start as int, i as int))
                == split_on(cs@.take(i as int), c),
        decreases cs.len() - i,
    {
        let ghost prev = split_on(cs@.take(i as int), c);
        assert(cs@.take(i + 1).drop_last() =~= cs@.take(i as int));
        assert(cs@.take(i + 1).last() == cs@[i as int]);
        proof { lemma_split_on_nonempty(cs@.take(i as int), c); }
        let ghost old_map = parts@.map_values(|x: String| x@);
        if cs[i] == c {
            let part = string_of(&cs, start, i);
            parts.push(part);
            assert(parts@.map_values(|x: String| x@) =~= old_map.push(cs@.subrange(start as int, i as int)));
            start = i + 1;
            assert(cs@.subrange(start as int, i + 1) =~= Seq::<char>::empty());
            assert(parts@.map_values(|x: String| x@).push(cs@.subrange(start as int, i + 1))
                =~= prev.push(Seq::empty()));
        } else {
            assert(cs@.subrange(start as int, i + 1) =~= cs@.subrange(start as int, i as int).push(cs@[i as int]));
            assert(parts@.map_values(|x: String| x@).push(cs@.subrange(start as int, i + 1))
                =~= prev.update(prev.len() - 1, prev.last().push(cs@[i as int])));
        }
        i += 1;
    }
    let last = string_of(&cs, start, cs.len());
    parts.push(last);
    assert(cs@.take(cs.len() as int) =~= s@);
    assert(parts@.map_values(|x: String| x@) =~= split_on(s@, c));
    parts
}

/// The candidate language tags of a raw `Accept-Language` header value.
pub fn accept_language_tags(header: &str) -> (r: Vec<String>)
    ensures
        r@.map_values(|x: String| x@) == header_tags(header@),
{
    let parts = split_chars(header, ',');
    let mut tags: Vec<String> = Vec::new();
    let mut i: usize = 0;
    while i < parts.len()
        invariant
            parts@.map_values(|x: String| x@) == split_on(header@, ','),
            i <= parts.len(),
            tags@.map_values(|x: String| x@) == split_on(header@, ',').take(i as int).map_values(|p: Seq<char>| entry_tag(p)),
        decreases parts.len() - i,
    {
        let ghost old_tags = tags@.map_values(|x: String| x@);
        let t = trim(parts[i].as_str());
        let pieces = split_chars(t.as_str(), ';');
        proof { lemma_split_on_nonempty(t@, ';'); }
        let tag = trim(pieces[0].as_str());
        assert(parts@[i as int]@ == split_on(header@, ',')[i as int]);
        assert(pieces@.map_values(|x: String| x@)[0] == pieces@[0]@);
        assert(tag@ == entry_tag(split_on(header@, ',')[i as int]));
        tags.push(tag);
        assert(tags@.map_values(|x: String| x@) =~= old_tags.push(tag@));
        assert(tags@.map_values(|x: String| x@) =~= split_on(header@, ',').take(i + 1).map_values(|p: Seq<char>| entry_tag(p)));
        i += 1;
    }
    assert(split_on(header@, ',').take(parts.len() as int) =~= split_on(header@, ','));
    tags
}

/// The first locale that fluent-langneg's `negotiate_languages` returns with
/// the `Filtering` strategy for the requested tags (those that parse as
/// language identifiers), the available codes, and the default (or, when the
/// default does not parse, the fallback default), rendered as a string.
pub uninterp spec fn langneg_first(requested: Seq<Seq<char>>, available: Seq<Seq<char>>,
    default: Seq<char>, fallback: Seq<char>) -> Option<Seq<char>>;

/// fluent-langneg 0.13 `negotiate_languages` (strategy `Filtering`) over
/// unic-langid `LanguageIdentifier` parses; the contract claims only that the
/// result is the one `langneg_first` names.
#[verifier::external_body]
fn negotiate_first(requested: &Vec<String>, available: &Vec<&str>, default: &str, fallback: &str)
    -> (r: Option<String>)
    ensures
        r matches Some(s) ==> langneg_first(requested@.map_values(|x: String| x@),
            available@.map_values(|x: &str| x@), default@, fallback@) == Some(s@),
        r is None ==> langneg_first(requested@.map_values(|x: String| x@),
            available@.map_values(|x: &str| x@), default@, fallback@) is None,
{
    let accepted: Vec<unic_langid::LanguageIdentifier> = requested.iter().filter_map(|t| t.parse().ok()).collect();
    let avail: Vec<unic_langid::LanguageIdentifier> = available.iter().filter_map(|c| c.parse().ok()).collect();
    let def: unic_langid::LanguageIdentifier = default.parse().or_else(|_| fallback.parse()).ok()?;
    let out = fluent_langneg::negotiate_languages(&accepted, &avail, Some(&def),
        fluent_langneg::NegotiationStrategy::Filtering);
    out.first().map(|l| l.to_string())
}

/// The locale that a negotiation result settles on: the result when it is
/// a supported code, the given default otherwise.
pub open spec fn settle_spec(negotiated: Option<Seq<char>>, default: Seq<char>) -> Seq<char> {
    match negotiated {
        Some(c) => if is_supported(c) { c } else { default },
        None => default,
    }
}

/// The negotiated locale: the negotiation result when it is a supported
/// code, the given default otherwise.
pub open spec fn negotiate_spec(header: Seq<char>, default: Seq<char>) -> Seq<char> {
    settle_spec(langneg_first(header_tags(header), supported_codes(), default, "en"@), default)
}

/// Settles a negotiation result: keeps it when it is a supported code, and
/// falls back to `default` otherwise or when nothing negotiated.
pub fn settle_negotiated(negotiated: Option<String>, default: &str) -> (r: String)
    ensures
        r@ == settle_spec(match negotiated { Some(c) => Some(c@), None => None }, default@),
{
    match negotiated {
        Some(c) => {
            if is_supported_code(c.as_str()) { c } else { to_owned(default) }
        },
        None => to_owned(default),
    }
}

/// Returns the best supported locale for a raw `Accept-Language` header
/// value, falling back to `default` when nothing negotiates.
pub fn negotiate(accept_language: &str, default: &str) -> (r: String)
    ensures
        r@ == negotiate_spec(accept_language@, default@),
{
    let tags = accept_language_tags(accept_language);
    let available = crate::i18n::catalog::supported_exec();
    let negotiated = negotiate_first(&tags, &available, default, "en");
    settle_negotiated(negotiated, default)
}

/// Whether `code` is one of the five supported locale codes.
pub fn is_supported_code(code: &str) -> (r: bool)
    ensures
        r == is_supported(code@),
{
    meta_for(code).is_some()
}

/// Negotiation always ends on a supported locale or on the default.
pub proof fn law_negotiate_supported_or_default(header: Seq<char>, default: Seq<char>)
    ensures
        is_supported(negotiate_spec(header, default)) || negotiate_spec(header, default) == default,
{
}

} // verus!
