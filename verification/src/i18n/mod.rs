//! Internationalization engine: locale negotiation, a Fluent message catalog
//! for five locales (es, en, pt, ar, fr) with a fallback chain, per-locale
//! number/currency/date formatting, RTL metadata, and runtime translation
//! overrides layered on top of the catalog.

pub mod catalog;
pub mod format;
pub mod locales;

use vstd::prelude::*;
use fluent::{FluentArgs, FluentBundle, FluentResource};
use unic_langid::LanguageIdentifier;
use crate::text::{str_eq, push_str, chars_of, string_of, parse_i64, parse_i64_text};
use crate::i18n::catalog::{source_of, source_for, fallback_chain, fallback_chain_exec, all_keys_spec, all_keys};

verus! {

/// A typed Fluent argument value. Numeric values enable plural rule selection.
#[derive(Debug, Clone)]
pub enum Arg {
    Number(i64),
    Text(String),
}

/// The value an [`Arg`] carries.
pub enum ArgValue {
    Number(i64),
    Text(Seq<char>),
}

impl View for Arg {
    type V = ArgValue;

    open spec fn view(&self) -> ArgValue {
        match self {
            Arg::Number(n) => ArgValue::Number(*n),
            Arg::Text(s) => ArgValue::Text(s@),
        }
    }
}

/// Named arguments by their views.
pub open spec fn args_view(args: Seq<(&str, Arg)>) -> Seq<(Seq<char>, ArgValue)> {
    args.map_values(|p: (&str, Arg)| (p.0@, p.1@))
}

/// What Fluent renders for message `key` of a bundle for `locale` built from
/// the FTL `source` with the FTL `extra` added on top (overriding), given the
/// named arguments; `None` when the locale does not parse, the source does not
/// parse, or the message (or its value) is missing.
pub uninterp spec fn fluent_render(locale: Seq<char>, source: Seq<char>, extra: Seq<char>,
    key: Seq<char>, args: Seq<(Seq<char>, ArgValue)>) -> Option<Seq<char>>;

/// Builds a Fluent bundle (fluent 0.16: `FluentBundle::new`, `add_resource`,
/// `add_resource_overriding`) and formats one message with `format_pattern`.
/// The contract claims only that the result is the one `fluent_render` names.
#[verifier::external_body]
fn render_message(locale: &str, source: &str, extra: &str, key: &str, args: &[(&str, Arg)])
    -> (r: Option<String>)
    ensures
        r matches Some(s) ==> fluent_render(locale@, source@, extra@, key@, args_view(args@)) == Some(s@),
        r is None ==> fluent_render(locale@, source@, extra@, key@, args_view(args@)) is None,
{
    let id: LanguageIdentifier = locale.parse().ok()?;
    let mut bundle = FluentBundle::new(vec![id]);
    bundle.add_resource(FluentResource::try_new(source.to_string()).ok()?).ok()?;
    if let Ok(over) = FluentResource::try_new(extra.to_string()) {
        bundle.add_resource_overriding(over);
    }
    let value = bundle.get_message(key)?.value()?;
    let mut fargs = FluentArgs::new();
    for (name, arg) in args.iter() {
        match arg {
            Arg::Number(n) => fargs.set(*name, *n),
            Arg::Text(t) => fargs.set(*name, t.clone()),
        }
    }
    Some(bundle.format_pattern(value, Some(&fargs), &mut vec![]).into_owned())
}

/// `s[i..i+2] == "::"`.
pub open spec fn sep_at(s: Seq<char>, i: int) -> bool {
    0 <= i && i + 1 < s.len() && s[i] == ':' && s[i + 1] == ':'
}

/// Position of the first `"::"` in `s` at or after `from`.
pub open spec fn find_sep(s: Seq<char>, from: int) -> Option<int>
    decreases s.len() - from,
{
    if from < 0 || from + 1 >= s.len() {
        None
    } else if sep_at(s, from) {
        Some(from)
    } else {
        find_sep(s, from + 1)
    }
}

/// `"{locale}::{key}"` split at its first `"::"`.
pub open spec fn split_key(s: Seq<char>) -> Option<(Seq<char>, Seq<char>)> {
    match find_sep(s, 0) {
        Some(i) => Some((s.take(i), s.skip(i + 2))),
        None => None,
    }
}

/// The FTL text of the overrides registered for `locale`, one
/// `"{key} = {value}\n"` line per override, in insertion order.
pub open spec fn overrides_ftl(ov: Seq<(Seq<char>, Seq<char>)>, locale: Seq<char>) -> Seq<char>
    decreases ov.len(),
{
    if ov.len() == 0 {
        Seq::empty()
    } else {
        let prev = overrides_ftl(ov.drop_last(), locale);
        let k = ov.last().0;
        let v = ov.last().1;
        match split_key(k) {
            Some(parts) => if parts.0 == locale {
                prev + parts.1 + " = "@ + v + "\n"@
            } else {
                prev
            },
            None => prev,
        }
    }
}

/// Translation of `key` in exactly one locale; a result equal to the key
/// itself counts as a miss.
pub open spec fn translate_in_spec(ov: Seq<(Seq<char>, Seq<char>)>, locale: Seq<char>, key: Seq<char>,
    args: Seq<(Seq<char>, ArgValue)>) -> Option<Seq<char>> {
    match source_of(locale) {
        None => None,
        Some(src) => match fluent_render(locale, src, overrides_ftl(ov, locale), key, args) {
            None => None,
            Some(out) => if out == key { None } else { Some(out) },
        },
    }
}

/// The first locale of `chain[i..]` other than `locale` that translates `key`.
pub open spec fn fallback_from(ov: Seq<(Seq<char>, Seq<char>)>, chain: Seq<Seq<char>>, i: int,
    locale: Seq<char>, key: Seq<char>, args: Seq<(Seq<char>, ArgValue)>) -> Option<Seq<char>>
    decreases chain.len() - i,
{
    if i < 0 || i >= chain.len() {
        None
    } else if chain[i] != locale && translate_in_spec(ov, chain[i], key, args) is Some {
        translate_in_spec(ov, chain[i], key, args)
    } else {
        fallback_from(ov, chain, i + 1, locale, key, args)
    }
}

/// The translation: the requested locale first, then the fallback chain,
/// and the key itself when no locale has it.
pub open spec fn translate_spec(ov: Seq<(Seq<char>, Seq<char>)>, locale: Seq<char>, key: Seq<char>,
    args: Seq<(Seq<char>, ArgValue)>) -> Seq<char> {
    match translate_in_spec(ov, locale, key, args) {
        Some(out) => out,
        None => match fallback_from(ov, fallback_chain(), 0, locale, key, args) {
            Some(out) => out,
            None => key,
        },
    }
}

/// Position of the first pair with key `k` in `pairs[from..]`.
pub open spec fn find_key(pairs: Seq<(Seq<char>, Seq<char>)>, k: Seq<char>, from: int) -> Option<int>
    decreases pairs.len() - from,
{
    if from < 0 || from >= pairs.len() {
        None
    } else if pairs[from].0 == k {
        Some(from)
    } else {
        find_key(pairs, k, from + 1)
    }
}

/// Map-style insertion into a list of pairs: replaces the value of the first
/// pair with key `k`, or appends `(k, v)` when there is none.
pub open spec fn upsert(pairs: Seq<(Seq<char>, Seq<char>)>, k: Seq<char>, v: Seq<char>)
    -> Seq<(Seq<char>, Seq<char>)> {
    match find_key(pairs, k, 0) {
        Some(i) => pairs.update(i, (k, v)),
        None => pairs.push((k, v)),
    }
}

/// Pairs of owned strings by their views.
pub open spec fn pairs_view(v: Seq<(String, String)>) -> Seq<(Seq<char>, Seq<char>)> {
    v.map_values(|p: (String, String)| (p.0@, p.1@))
}

/// Registry of runtime overrides for the message catalog.
#[derive(Debug, Clone)]
pub struct I18nEngine {
    /// Overrides keyed as `"{locale}::{key}"` -> value, filled by the admin
    /// panel and layered on top of the bundled catalog.
    pub overrides: Vec<(String, String)>,
}

impl I18nEngine {
    pub open spec fn ov(&self) -> Seq<(Seq<char>, Seq<char>)> {
        pairs_view(self.overrides@)
    }

    /// An engine with no overrides.
    pub fn new() -> (r: Self)
        ensures
            r.ov() == Seq::<(Seq<char>, Seq<char>)>::empty(),
    {
        let r = I18nEngine { overrides: Vec::new() };
        assert(r.ov() =~= Seq::<(Seq<char>, Seq<char>)>::empty());
        r
    }

    /// Returns the base FTL source for a supported locale (or `None`).
    pub fn base_source(&self, locale: &str) -> (r: Option<&'static str>)
        ensures
            r matches Some(s) ==> source_of(locale@) == Some(s@),
            r is None ==> source_of(locale@) is None,
    {
        source_for(locale)
    }

    /// Sets (or replaces) the override stored under `"{locale}::{key}"`.
    pub fn set_override(&mut self, full_key: String, value: String)
        ensures
            final(self).ov() == upsert(old(self).ov(), full_key@, value@),
    {
        let ghost old_ov = self.ov();
        let mut i: usize = 0;
        while i < self.overrides.len()
            invariant
                i <= self.overrides.len(),
                self.ov() == old_ov,
                old_ov == old(self).ov(),
                find_key(old_ov, full_key@, 0) == find_key(old_ov, full_key@, i as int),
            decreases self.overrides.len() - i,
        {
            if str_eq(self.overrides[i].0.as_str(), full_key.as_str()) {
                assert(old_ov[i as int].0 == full_key@);
                assert(find_key(old_ov, full_key@, i as int) == Some(i as int));
                self.overrides.set(i, (full_key, value));
                assert(self.ov() =~= old_ov.update(i as int, (full_key@, value@)));
                assert(upsert(old_ov, full_key@, value@) == old_ov.update(i as int, (full_key@, value@)));
                return;
            }
            i += 1;
        }
        self.overrides.push((full_key, value));
        assert(self.ov() =~= old_ov.push((full_key@, value@)));
    }

    fn overrides_text(&self, locale: &str) -> (r: String)
        ensures
            r@ == overrides_ftl(self.ov(), locale@),
    {
        let mut out = String::new();
        let mut i: usize = 0;
        while i < self.overrides.len()
            invariant
                i <= self.overrides.len(),
                out@ == overrides_ftl(self.ov().take(i as int), locale@),
            decreases self.overrides.len() - i,
        {
            let ghost before = self.ov().take(i as int);
            let parts = split_locale_key(self.overrides[i].0.as_str());
            assert(self.ov().take(i + 1).drop_last() =~= before);
            match parts {
                Some((l, key)) => {
                    if str_eq(l.as_str(), locale) {
                        push_str(&mut out, key.as_str());
                        push_str(&mut out, " = ");
                        push_str(&mut out, self.overrides[i].1.as_str());
                        push_str(&mut out, "\n");
                    }
                },
                None => {},
            }
            i += 1;
        }
        assert(self.ov().take(self.overrides.len() as int) =~= self.ov());
        out
    }

    fn translate_in(&self, locale: &str, key: &str, args: &[(&str, Arg)]) -> (r: Option<String>)
        ensures
            r matches Some(s) ==> translate_in_spec(self.ov(), locale@, key@, args_view(args@)) == Some(s@),
            r is None ==> translate_in_spec(self.ov(), locale@, key@, args_view(args@)) is None,
    {
        match source_for(locale) {
            None => None,
            Some(source) => {
                let extra = self.overrides_text(locale);
                match render_message(locale, source, extra.as_str(), key, args) {
                    None => None,
                    Some(out) => if str_eq(out.as_str(), key) { None } else { Some(out) },
                }
            },
        }
    }

    /// Translates a message key for a locale using the catalog, falling back
    /// to the other supported locales when the key is missing, and to the key
    /// itself when no locale has it.
    pub fn translate(&self, locale: &str, key: &str, args: &[(&str, Arg)]) -> (r: String)
        ensures
            r@ == translate_spec(self.ov(), locale@, key@, args_view(args@)),
    {
        if let Some(out) = self.translate_in(locale, key, args) {
            return out;
        }
        let chain = fallback_chain_exec();
        let ghost ch = fallback_chain();
        let mut i: usize = 0;
        while i < chain.len()
            invariant
                chain@.map_values(|s: &str| s@) == ch,
                ch == fallback_chain(),
                i <= chain.len(),
                translate_in_spec(self.ov(), locale@, key@, args_view(args@)) is None,
                fallback_from(self.ov(), ch, 0, locale@, key@, args_view(args@))
                    == fallback_from(self.ov(), ch, i as int, locale@, key@, args_view(args@)),
            decreases chain.len() - i,
        {
            let fb = chain[i];
            assert(fb@ == ch[i as int]);
            if !str_eq(fb, locale) {
                if let Some(out) = self.translate_in(fb, key, args) {
                    return out;
                }
            }
            i += 1;
        }
        crate::text::to_owned(key)
    }

    /// The complete resolved catalog (key, value) of a locale: every catalog
    /// key with its translation, then each override of that locale set on top.
    pub fn full_catalog(&self, locale: &str) -> (r: Vec<(String, String)>)
        ensures
            pairs_view(r@) == catalog_spec(self.ov(), locale@),
    {
        let keys = all_keys();
        let mut out: Vec<(String, String)> = Vec::new();
        let mut i: usize = 0;
        while i < keys.len()
            invariant
                keys@.map_values(|s: &str| s@) == all_keys_spec(),
                i <= keys.len(),
                pairs_view(out@) == base_catalog(self.ov(), locale@, all_keys_spec().take(i as int)),
            decreases keys.len() - i,
        {
            let k = keys[i];
            assert(k@ == all_keys_spec()[i as int]);
            let no_args: Vec<(&str, Arg)> = Vec::new();
            let v = self.translate(locale, k, no_args.as_slice());
            assert(args_view(no_args@) =~= Seq::empty());
            upsert_vec(&mut out, crate::text::to_owned(k), v);
            assert(all_keys_spec().take(i + 1).drop_last() =~= all_keys_spec().take(i as int));
            i += 1;
        }
        assert(all_keys_spec().take(keys.len() as int) =~= all_keys_spec());
        let mut j: usize = 0;
        while j < self.overrides.len()
            invariant
                j <= self.overrides.len(),
                pairs_view(out@) == apply_overrides(base_catalog(self.ov(), locale@, all_keys_spec()),
                    self.ov().take(j as int), locale@),
            decreases self.overrides.len() - j,
        {
            assert(self.ov().take(j + 1).drop_last() =~= self.ov().take(j as int));
            match split_locale_key(self.overrides[j].0.as_str()) {
                Some((l, key)) => {
                    if str_eq(l.as_str(), locale) {
                        upsert_vec(&mut out, key, self.overrides[j].1.clone());
                    }
                },
                None => {},
            }
            j += 1;
        }
        assert(self.ov().take(self.overrides.len() as int) =~= self.ov());
        out
    }
}

/// Every key of `keys` with its translation, inserted in order.
pub open spec fn base_catalog(ov: Seq<(Seq<char>, Seq<char>)>, locale: Seq<char>, keys: Seq<Seq<char>>)
    -> Seq<(Seq<char>, Seq<char>)>
    decreases keys.len(),
{
    if keys.len() == 0 {
        Seq::empty()
    } else {
        let k = keys.last();
        upsert(base_catalog(ov, locale, keys.drop_last()), k, translate_spec(ov, locale, k, Seq::empty()))
    }
}

/// `pairs` with every override of `locale` in `ov` upserted, in order.
pub open spec fn apply_overrides(pairs: Seq<(Seq<char>, Seq<char>)>, ov: Seq<(Seq<char>, Seq<char>)>,
    locale: Seq<char>) -> Seq<(Seq<char>, Seq<char>)>
    decreases ov.len(),
{
    if ov.len() == 0 {
        pairs
    } else {
        let prev = apply_overrides(pairs, ov.drop_last(), locale);
        match split_key(ov.last().0) {
            Some(parts) => if parts.0 == locale { upsert(prev, parts.1, ov.last().1) } else { prev },
            None => prev,
        }
    }
}

/// The resolved catalog of a locale.
pub open spec fn catalog_spec(ov: Seq<(Seq<char>, Seq<char>)>, locale: Seq<char>) -> Seq<(Seq<char>, Seq<char>)> {
    apply_overrides(base_catalog(ov, locale, all_keys_spec()), ov, locale)
}

pub fn upsert_vec(pairs: &mut Vec<(String, String)>, k: String, v: String)
    ensures
        pairs_view(final(pairs)@) == upsert(pairs_view(old(pairs)@), k@, v@),
{
    let ghost old_p = pairs_view(pairs@);
    let mut i: usize = 0;
    while i < pairs.len()
        invariant
            i <= pairs.len(),
            pairs_view(pairs@) == old_p,
            old_p == pairs_view(old(pairs)@),
            find_key(old_p, k@, 0) == find_key(old_p, k@, i as int),
        decreases pairs.len() - i,
    {
        if str_eq(pairs[i].0.as_str(), k.as_str()) {
            assert(old_p[i as int].0 == k@);
            assert(find_key(old_p, k@, i as int) == Some(i as int));
            pairs.set(i, (k, v));
            assert(pairs_view(pairs@) =~= old_p.update(i as int, (k@, v@)));
            assert(upsert(old_p, k@, v@) == old_p.update(i as int, (k@, v@)));
            return;
        }
        i += 1;
    }
    pairs.push((k, v));
    assert(pairs_view(pairs@) =~= old_p.push((k@, v@)));
}

/// Splits `"{locale}::{key}"` at its first `"::"`.
pub fn split_locale_key(s: &str) -> (r: Option<(String, String)>)
    ensures
        r matches Some(p) ==> split_key(s@) == Some((p.0@, p.1@)),
        r is None ==> split_key(s@) is None,
{
    let cs = chars_of(s);
    let n = cs.len();
    if n < 2 {
        return None;
    }
    let mut i: usize = 0;
    while i < n - 1
        invariant
            cs@ == s@,
            n == cs.len(),
            n >= 2,
            find_sep(s@, 0) == find_sep(s@, i as int),
        decreases n - i,
    {
        if cs[i] == ':' && cs[i + 1] == ':' {
            let a = string_of(&cs, 0, i);
            let b = string_of(&cs, i + 2, n);
            assert(s@.take(i as int) =~= cs@.subrange(0, i as int));
            assert(s@.skip(i + 2) =~= cs@.subrange(i + 2, n as int));
            return Some((a, b));
        }
        i += 1;
    }
    None
}

/// Replacing the value of an override that belongs to another locale
/// leaves a locale's override text unchanged.
proof fn lemma_update_other_locale(ov: Seq<(Seq<char>, Seq<char>)>, i: int, k: Seq<char>, v: Seq<char>, locale: Seq<char>)
    requires
        0 <= i < ov.len(),
        ov[i].0 == k,
        !(split_key(k) matches Some(p) && p.0 == locale),
    ensures
        overrides_ftl(ov.update(i, (k, v)), locale) == overrides_ftl(ov, locale),
    decreases ov.len(),
{
    let u = ov.update(i, (k, v));
    if i == ov.len() - 1 {
        assert(u.drop_last() =~= ov.drop_last());
    } else {
        assert(u.drop_last() =~= ov.drop_last().update(i, (k, v)));
        lemma_update_other_locale(ov.drop_last(), i, k, v, locale);
    }
}

/// An override set for one locale changes nothing of what any other
/// locale renders by itself: its override text, and so its own
/// translation of every key, stay as they were.
pub proof fn law_override_is_local(ov: Seq<(Seq<char>, Seq<char>)>, full_key: Seq<char>, value: Seq<char>,
    locale: Seq<char>, key: Seq<char>, args: Seq<(Seq<char>, ArgValue)>)
    requires
        split_key(full_key) matches Some(p) && p.0 != locale,
    ensures
        overrides_ftl(upsert(ov, full_key, value), locale) == overrides_ftl(ov, locale),
        translate_in_spec(upsert(ov, full_key, value), locale, key, args) == translate_in_spec(ov, locale, key, args),
{
    lemma_find_key_found(ov, full_key, 0);
    match find_key(ov, full_key, 0) {
        Some(i) => {
            lemma_update_other_locale(ov, i, full_key, value, locale);
        },
        None => {
            let pushed = ov.push((full_key, value));
            assert(pushed.drop_last() =~= ov);
        },
    }
}

proof fn lemma_find_key_found(pairs: Seq<(Seq<char>, Seq<char>)>, k: Seq<char>, from: int)
    requires
        0 <= from,
    ensures
        find_key(pairs, k, from) matches Some(i) ==> from <= i < pairs.len() && pairs[i].0 == k,
    decreases pairs.len() - from,
{
    if from < pairs.len() && pairs[from].0 != k {
        lemma_find_key_found(pairs, k, from + 1);
    }
}

/// The pairs left after removing every pair with key `k`.
pub open spec fn remove_key(pairs: Seq<(Seq<char>, Seq<char>)>, k: Seq<char>) -> Seq<(Seq<char>, Seq<char>)>
    decreases pairs.len(),
{
    if pairs.len() == 0 {
        pairs
    } else {
        let rest = remove_key(pairs.drop_last(), k);
        if pairs.last().0 == k { rest } else { rest.push(pairs.last()) }
    }
}

/// The key under which an override of `key` for `locale` is stored.
pub open spec fn override_key(locale: Seq<char>, key: Seq<char>) -> Seq<char> {
    locale + "::"@ + key
}

#[derive(Debug, Clone, Copy, PartialEq, Eq, Structural)]
pub enum I18nAdminError {
    /// "unsupported locale"
    UnsupportedLocale,
    /// "key required"
    KeyRequired,
}

impl I18nEngine {
    /// Removes every override stored under `full_key`; says whether there
    /// was one.
    pub fn remove_override(&mut self, full_key: &str) -> (r: bool)
        ensures
            final(self).ov() == remove_key(old(self).ov(), full_key@),
            r == (find_key(old(self).ov(), full_key@, 0) is Some),
    {
        let ghost old_ov = self.ov();
        let mut kept: Vec<(String, String)> = Vec::new();
        let mut removed = false;
        let mut i: usize = 0;
        while i < self.overrides.len()
            invariant
                i <= self.overrides.len(),
                self.ov() == old_ov,
                old_ov == old(self).ov(),
                pairs_view(kept@) == remove_key(old_ov.take(i as int), full_key@),
                removed ==> find_key(old_ov, full_key@, 0) is Some,
                !removed ==> find_key(old_ov, full_key@, 0) == find_key(old_ov, full_key@, i as int),
            decreases self.overrides.len() - i,
        {
            assert(old_ov.take(i + 1).drop_last() =~= old_ov.take(i as int));
            if str_eq(self.overrides[i].0.as_str(), full_key) {
                if !removed {
                    assert(find_key(old_ov, full_key@, i as int) == Some(i as int));
                }
                removed = true;
            } else {
                let p = (self.overrides[i].0.clone(), self.overrides[i].1.clone());
                kept.push(p);
                assert(pairs_view(kept@) =~= remove_key(old_ov.take(i as int), full_key@).push(old_ov[i as int]));
            }
            i += 1;
        }
        assert(old_ov.take(self.overrides.len() as int) =~= old_ov);
        assert(find_key(old_ov, full_key@, self.overrides.len() as int) is None);
        self.overrides = kept;
        removed
    }
}

impl I18nEngine {
    /// Sets the override of `key` for `locale`: the locale must be
    /// supported and the key not empty; refused requests change nothing.
    pub fn admin_upsert(&mut self, locale: &str, key: &str, value: &str) -> (r: Result<(), I18nAdminError>)
        ensures
            source_of(locale@) is None ==> r == Err::<(), I18nAdminError>(I18nAdminError::UnsupportedLocale)
                && final(self).ov() == old(self).ov(),
            source_of(locale@) is Some && key@.len() == 0 ==> r == Err::<(), I18nAdminError>(I18nAdminError::KeyRequired)
                && final(self).ov() == old(self).ov(),
            source_of(locale@) is Some && key@.len() > 0 ==> r is Ok
                && final(self).ov() == upsert(old(self).ov(), override_key(locale@, key@), value@),
    {
        if self.base_source(locale).is_none() {
            return Err(I18nAdminError::UnsupportedLocale);
        }
        let cs = chars_of(key);
        if cs.len() == 0 {
            return Err(I18nAdminError::KeyRequired);
        }
        let mut full = crate::text::to_owned(locale);
        push_str(&mut full, "::");
        push_str(&mut full, key);
        proof { reveal_strlit("::"); }
        assert(full@ =~= override_key(locale@, key@));
        self.set_override(full, crate::text::to_owned(value));
        Ok(())
    }

    /// Deletes the override of `key` for `locale`; says whether there was one.
    pub fn admin_delete(&mut self, locale: &str, key: &str) -> (r: bool)
        ensures
            final(self).ov() == remove_key(old(self).ov(), override_key(locale@, key@)),
            r == (find_key(old(self).ov(), override_key(locale@, key@), 0) is Some),
    {
        let mut full = crate::text::to_owned(locale);
        push_str(&mut full, "::");
        push_str(&mut full, key);
        proof { reveal_strlit("::"); }
        assert(full@ =~= override_key(locale@, key@));
        self.remove_override(full.as_str())
    }
}

proof fn lemma_remove_update(pairs: Seq<(Seq<char>, Seq<char>)>, i: int, k: Seq<char>, v: Seq<char>)
    requires
        0 <= i < pairs.len(),
        pairs[i].0 == k,
    ensures
        remove_key(pairs.update(i, (k, v)), k) == remove_key(pairs, k),
    decreases pairs.len(),
{
    let u = pairs.update(i, (k, v));
    if i == pairs.len() - 1 {
        assert(u.drop_last() =~= pairs.drop_last());
    } else {
        assert(u.drop_last() =~= pairs.drop_last().update(i, (k, v)));
        lemma_remove_update(pairs.drop_last(), i, k, v);
    }
}

/// Deleting an override undoes setting it: after a set and a delete of
/// the same key, the overrides are those that deleting alone leaves.
pub proof fn law_delete_undoes_upsert(ov: Seq<(Seq<char>, Seq<char>)>, k: Seq<char>, v: Seq<char>)
    ensures
        remove_key(upsert(ov, k, v), k) == remove_key(ov, k),
{
    lemma_find_key_found(ov, k, 0);
    match find_key(ov, k, 0) {
        Some(i) => lemma_remove_update(ov, i, k, v),
        None => {
            let pushed = ov.push((k, v));
            assert(pushed.drop_last() =~= ov);
        },
    }
}

/// A request parameter as a message argument: a number when it reads as
/// one, text otherwise.
pub fn numeric_or_text(s: &str) -> (r: Arg)
    ensures
        match parse_i64(s@) {
            Some(n) => r == Arg::Number(n),
            None => r matches Arg::Text(t) && t@ == s@,
        },
{
    match parse_i64_text(s) {
        Some(n) => Arg::Number(n),
        None => Arg::Text(crate::text::to_owned(s)),
    }
}

/// The value stored under key `k` in a list of pairs: the value of the
/// first pair with that key.
pub open spec fn lookup(pairs: Seq<(Seq<char>, Seq<char>)>, k: Seq<char>) -> Option<Seq<char>> {
    match find_key(pairs, k, 0) {
        Some(i) => Some(pairs[i].1),
        None => None,
    }
}

/// The value of the last override that `ov` holds for key `k` of `locale`.
pub open spec fn override_for(ov: Seq<(Seq<char>, Seq<char>)>, locale: Seq<char>, k: Seq<char>) -> Option<Seq<char>>
    decreases ov.len(),
{
    if ov.len() == 0 {
        None
    } else {
        match split_key(ov.last().0) {
            Some(parts) => if parts.0 == locale && parts.1 == k {
                Some(ov.last().1)
            } else {
                override_for(ov.drop_last(), locale, k)
            },
            None => override_for(ov.drop_last(), locale, k),
        }
    }
}

proof fn lemma_find_key_same_keys(p: Seq<(Seq<char>, Seq<char>)>, q: Seq<(Seq<char>, Seq<char>)>, k: Seq<char>, from: int)
    requires
        p.len() == q.len(),
        forall|j: int| 0 <= j < p.len() ==> #[trigger] p[j].0 == q[j].0,
    ensures
        find_key(p, k, from) == find_key(q, k, from),
    decreases p.len() - from,
{
    if 0 <= from < p.len() {
        assert(p[from].0 == q[from].0);
        lemma_find_key_same_keys(p, q, k, from + 1);
    }
}

proof fn lemma_find_key_push(p: Seq<(Seq<char>, Seq<char>)>, e: (Seq<char>, Seq<char>), k: Seq<char>, from: int)
    requires
        0 <= from <= p.len(),
    ensures
        find_key(p.push(e), k, from) == match find_key(p, k, from) {
            Some(i) => Some(i),
            None => if e.0 == k { Some(p.len() as int) } else { None },
        },
    decreases p.len() - from,
{
    if from < p.len() {
        assert(p.push(e)[from] == p[from]);
        lemma_find_key_push(p, e, k, from + 1);
    } else {
        assert(p.push(e)[from] == e);
        assert(find_key(p.push(e), k, from + 1) is None);
        assert(find_key(p, k, from) is None);
    }
}

/// Looking up a key after an upsert gives the upserted value for that key
/// and what was there before for any other.
proof fn lemma_lookup_upsert(p: Seq<(Seq<char>, Seq<char>)>, k2: Seq<char>, v: Seq<char>, k: Seq<char>)
    ensures
        lookup(upsert(p, k2, v), k) == if k == k2 { Some(v) } else { lookup(p, k) },
{
    lemma_find_key_found(p, k2, 0);
    lemma_find_key_found(p, k, 0);
    match find_key(p, k2, 0) {
        Some(i) => {
            let u = p.update(i, (k2, v));
            lemma_find_key_same_keys(u, p, k, 0);
        },
        None => {
            lemma_find_key_push(p, (k2, v), k, 0);
            if k != k2 {
                match find_key(p, k, 0) {
                    Some(j) => assert(p.push((k2, v))[j] == p[j]),
                    None => {},
                }
            }
        },
    }
}

proof fn lemma_lookup_base(ov: Seq<(Seq<char>, Seq<char>)>, locale: Seq<char>, keys: Seq<Seq<char>>, k: Seq<char>)
    ensures
        lookup(base_catalog(ov, locale, keys), k)
            == if keys.contains(k) { Some(translate_spec(ov, locale, k, Seq::empty())) } else { None },
    decreases keys.len(),
{
    if keys.len() > 0 {
        let last = keys.last();
        lemma_lookup_base(ov, locale, keys.drop_last(), k);
        lemma_lookup_upsert(base_catalog(ov, locale, keys.drop_last()), last,
            translate_spec(ov, locale, last, Seq::empty()), k);
        if k == last {
            assert(keys[keys.len() - 1] == k);
        } else {
            if keys.contains(k) {
                let j = choose|j: int| 0 <= j < keys.len() && keys[j] == k;
                assert(keys.drop_last()[j] == k);
            }
            if keys.drop_last().contains(k) {
                let j = choose|j: int| 0 <= j < keys.drop_last().len() && keys.drop_last()[j] == k;
                assert(keys[j] == k);
            }
        }
    }
}

proof fn lemma_lookup_overrides(pairs: Seq<(Seq<char>, Seq<char>)>, ov: Seq<(Seq<char>, Seq<char>)>,
    locale: Seq<char>, k: Seq<char>)
    ensures
        lookup(apply_overrides(pairs, ov, locale), k) == match override_for(ov, locale, k) {
            Some(v) => Some(v),
            None => lookup(pairs, k),
        },
    decreases ov.len(),
{
    if ov.len() > 0 {
        lemma_lookup_overrides(pairs, ov.drop_last(), locale, k);
        match split_key(ov.last().0) {
            Some(parts) => if parts.0 == locale {
                lemma_lookup_upsert(apply_overrides(pairs, ov.drop_last(), locale), parts.1, ov.last().1, k);
            },
            None => {},
        }
    }
}

/// The resolved catalog of a locale holds, for each key, the last override
/// set for that key in that locale; failing one, the key's translation when
/// it is a catalog key; and no other key.
pub proof fn law_full_catalog(ov: Seq<(Seq<char>, Seq<char>)>, locale: Seq<char>, k: Seq<char>)
    ensures
        lookup(catalog_spec(ov, locale), k) == match override_for(ov, locale, k) {
            Some(v) => Some(v),
            None => if all_keys_spec().contains(k) {
                Some(translate_spec(ov, locale, k, Seq::empty()))
            } else {
                None
            },
        },
{
    lemma_lookup_overrides(base_catalog(ov, locale, all_keys_spec()), ov, locale, k);
    lemma_lookup_base(ov, locale, all_keys_spec(), k);
}

} // verus!
