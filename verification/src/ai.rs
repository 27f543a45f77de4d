//! Text moderation by term lists, the moderation decision, and the AI
//! engine's usage counters.

use vstd::prelude::*;
use crate::text::{chars_of, to_owned};

verus! {

#[derive(Debug, Clone, Copy, PartialEq, Eq, Structural)]
pub enum ModerationDecision {
    Allow,
    Flag,
    Block,
}

#[derive(Debug, Clone)]
pub struct ModerateRequest {
    pub content: String,
}

#[derive(Debug, Clone, Copy, PartialEq, Eq, Structural)]
pub enum AiModelKind {
    TextModeration,
    Anomaly,
    Matching,
    Fuzzy,
    Genetic,
    Annealing,
    Neural,
}

impl Default for AiModelKind {
    fn default() -> (r: Self)
        ensures
            r == AiModelKind::TextModeration,
    {
        AiModelKind::TextModeration
    }
}

/// Every model kind the engine offers, in a fixed order.
pub fn model_kinds() -> (r: Vec<AiModelKind>)
    ensures
        r@ == seq![AiModelKind::TextModeration, AiModelKind::Anomaly, AiModelKind::Matching,
            AiModelKind::Fuzzy, AiModelKind::Genetic, AiModelKind::Annealing, AiModelKind::Neural],
{
    let v = vec![AiModelKind::TextModeration, AiModelKind::Anomaly, AiModelKind::Matching,
        AiModelKind::Fuzzy, AiModelKind::Genetic, AiModelKind::Annealing, AiModelKind::Neural];
    assert(v@ =~= seq![AiModelKind::TextModeration, AiModelKind::Anomaly, AiModelKind::Matching,
        AiModelKind::Fuzzy, AiModelKind::Genetic, AiModelKind::Annealing, AiModelKind::Neural]);
    v
}

/// How many times each of the engine's models was used. Each counter
/// wraps around past its maximum, as an atomic counter does.
#[derive(Debug, Clone, Copy, PartialEq, Eq, Structural)]
pub struct AICounters {
    pub moderation_checks: u64,
    pub anomalies_flagged: u64,
    pub matches_scored: u64,
    pub neural_inferences: u64,
    pub genetic_generations: u64,
    pub annealing_runs: u64,
}

pub open spec fn bump(n: u64) -> u64 {
    if n == u64::MAX { 0 } else { (n + 1) as u64 }
}

fn bumped(n: u64) -> (r: u64)
    ensures
        r == bump(n),
{
    if n == u64::MAX { 0 } else { n + 1 }
}

impl Default for AICounters {
    fn default() -> (r: Self)
        ensures
            r == (AICounters { moderation_checks: 0, anomalies_flagged: 0, matches_scored: 0,
                neural_inferences: 0, genetic_generations: 0, annealing_runs: 0 }),
    {
        AICounters { moderation_checks: 0, anomalies_flagged: 0, matches_scored: 0,
            neural_inferences: 0, genetic_generations: 0, annealing_runs: 0 }
    }
}

impl AICounters {
    pub fn count_moderation(&mut self)
        ensures
            *final(self) == (AICounters { moderation_checks: bump(old(self).moderation_checks), ..*old(self) }),
    {
        self.moderation_checks = bumped(self.moderation_checks);
    }

    /// An anomaly score is counted as flagged when it reached the threshold.
    pub fn count_anomaly(&mut self, flagged: bool)
        ensures
            *final(self) == (if flagged { AICounters { anomalies_flagged: bump(old(self).anomalies_flagged), ..*old(self) } } else { *old(self) }),
    {
        if flagged {
            self.anomalies_flagged = bumped(self.anomalies_flagged);
        }
    }

    pub fn count_match(&mut self)
        ensures
            *final(self) == (AICounters { matches_scored: bump(old(self).matches_scored), ..*old(self) }),
    {
        self.matches_scored = bumped(self.matches_scored);
    }

    pub fn count_inference(&mut self)
        ensures
            *final(self) == (AICounters { neural_inferences: bump(old(self).neural_inferences), ..*old(self) }),
    {
        self.neural_inferences = bumped(self.neural_inferences);
    }

    pub fn count_generation(&mut self)
        ensures
            *final(self) == (AICounters { genetic_generations: bump(old(self).genetic_generations), ..*old(self) }),
    {
        self.genetic_generations = bumped(self.genetic_generations);
    }
}

/// The terms that block content outright.
pub open spec fn blocked_terms() -> Seq<Seq<char>> {
    seq!["scam"@, "scammer"@, "fraud"@, "phishing"@, "money laundering"@, "carding"@, "crack"@,
        "keygen"@, "warez"@, "cp "@, "child porn"@, "underage"@, "minors"@, "buy followers"@,
        "nudes for cash"@, "chargeback scam"@, "blackmail"@]
}

/// The terms that flag content for review.
pub open spec fn flag_terms() -> Seq<Seq<char>> {
    seq!["sexually explicit"@, "nude"@, "leak"@, "pirate"@, "drugs"@, "weapons"@, "violence"@,
        "harassment"@, "doxx"@, "spam"@, "adult site"@, "casino"@]
}

fn blocked_term_list() -> (r: Vec<&'static str>)
    ensures
        r@.map_values(|t: &'static str| t@) == blocked_terms(),
{
    let v = vec!["scam", "scammer", "fraud", "phishing", "money laundering", "carding", "crack",
        "keygen", "warez", "cp ", "child porn", "underage", "minors", "buy followers",
        "nudes for cash", "chargeback scam", "blackmail"];
    assert(v@.map_values(|t: &'static str| t@) =~= blocked_terms());
    v
}

fn flag_term_list() -> (r: Vec<&'static str>)
    ensures
        r@.map_values(|t: &'static str| t@) == flag_terms(),
{
    let v = vec!["sexually explicit", "nude", "leak", "pirate", "drugs", "weapons", "violence",
        "harassment", "doxx", "spam", "adult site", "casino"];
    assert(v@.map_values(|t: &'static str| t@) =~= flag_terms());
    v
}

/// `needle` occurs in `hay` starting at `i`.
pub open spec fn occurs_at(hay: Seq<char>, needle: Seq<char>, i: int) -> bool {
    0 <= i && i + needle.len() <= hay.len() && hay.subrange(i, i + needle.len()) == needle
}

/// `needle` occurs somewhere in `hay` (the empty text occurs everywhere).
pub open spec fn contains_text(hay: Seq<char>, needle: Seq<char>) -> bool {
    exists|i: int| occurs_at(hay, needle, i)
}

/// The terms of a list that occur in a text, in the list's order.
pub open spec fn terms_in(hay: Seq<char>, terms: Seq<Seq<char>>) -> Seq<Seq<char>>
    decreases terms.len(),
{
    if terms.len() == 0 {
        Seq::empty()
    } else {
        let rest = terms_in(hay, terms.drop_last());
        if contains_text(hay, terms.last()) { rest.push(terms.last()) } else { rest }
    }
}

proof fn lemma_terms_in_contains(hay: Seq<char>, terms: Seq<Seq<char>>, t: Seq<char>)
    ensures
        terms_in(hay, terms).contains(t) <==> (terms.contains(t) && contains_text(hay, t)),
    decreases terms.len(),
{
    if terms.len() > 0 {
        let rest = terms.drop_last();
        lemma_terms_in_contains(hay, rest, t);
        let r = terms_in(hay, rest);
        if terms.contains(t) && t != terms.last() {
            let j = choose|j: int| 0 <= j < terms.len() && terms[j] == t;
            assert(rest[j] == t);
        }
        if rest.contains(t) {
            let j = choose|j: int| 0 <= j < rest.len() && rest[j] == t;
            assert(terms[j] == t);
        }
        if t == terms.last() {
            assert(terms[terms.len() - 1] == t);
        }
        if contains_text(hay, terms.last()) {
            let p = r.push(terms.last());
            if r.contains(t) {
                let j = choose|j: int| 0 <= j < r.len() && r[j] == t;
                assert(p[j] == t);
            }
            if p.contains(t) && t != terms.last() {
                let j = choose|j: int| 0 <= j < p.len() && p[j] == t;
                assert(j < r.len() && r[j] == t);
            }
            assert(p[r.len() as int] == terms.last());
        }
    }
}

/// A text is blocked for exactly the hardcore terms it contains: each of
/// scam, scammer, fraud, phishing, money laundering, carding, crack, keygen,
/// warez, "cp ", child porn, underage, minors, buy followers, nudes for
/// cash, chargeback scam and blackmail that occurs in the (lowercased) text
/// is a blocked match, and no other term is.
pub proof fn law_blocked_terms_block(hay: Seq<char>, t: Seq<char>)
    ensures
        terms_in(hay, blocked_terms()).contains(t) <==> (contains_text(hay, t) && seq!["scam"@, "scammer"@,
            "fraud"@, "phishing"@, "money laundering"@, "carding"@, "crack"@, "keygen"@, "warez"@, "cp "@,
            "child porn"@, "underage"@, "minors"@, "buy followers"@, "nudes for cash"@, "chargeback scam"@,
            "blackmail"@].contains(t)),
        terms_in(hay, flag_terms()).contains(t) <==> (contains_text(hay, t) && seq!["sexually explicit"@, "nude"@,
            "leak"@, "pirate"@, "drugs"@, "weapons"@, "violence"@, "harassment"@, "doxx"@, "spam"@,
            "adult site"@, "casino"@].contains(t)),
{
    lemma_terms_in_contains(hay, blocked_terms(), t);
    lemma_terms_in_contains(hay, flag_terms(), t);
}

fn occurs_here(hay: &Vec<char>, needle: &Vec<char>, i: usize) -> (r: bool)
    requires
        i + needle.len() <= hay.len(),
    ensures
        r == occurs_at(hay@, needle@, i as int),
{
    let mut j: usize = 0;
    while j < needle.len()
        invariant
            i + needle.len() <= hay.len(),
            j <= needle.len(),
            forall|k: int| 0 <= k < j ==> hay@[i + k] == needle@[k],
        decreases needle.len() - j,
    {
        if hay[i + j] != needle[j] {
            assert(hay@.subrange(i as int, i + needle.len())[j as int] != needle@[j as int]);
            return false;
        }
        j += 1;
    }
    assert(hay@.subrange(i as int, i + needle.len()) =~= needle@);
    true
}

/// Whether `needle` occurs in `hay`.
pub fn find_text(hay: &Vec<char>, needle: &Vec<char>) -> (r: bool)
    ensures
        r == contains_text(hay@, needle@),
{
    if needle.len() > hay.len() {
        assert forall|i: int| !occurs_at(hay@, needle@, i) by {}
        return false;
    }
    let last = hay.len() - needle.len();
    let mut i: usize = 0;
    loop
        invariant
            last + needle.len() == hay.len(),
            i <= last,
            forall|k: int| 0 <= k < i ==> !occurs_at(hay@, needle@, k),
        decreases last - i,
    {
        if occurs_here(hay, needle, i) {
            return true;
        }
        if i == last {
            assert forall|k: int| !occurs_at(hay@, needle@, k) by {
                if 0 <= k && k + needle.len() <= hay.len() {
                    assert(k <= i);
                }
            }
            return false;
        }
        i += 1;
    }
}

/// What std's `str::to_lowercase` gives: the Unicode lowercase mapping of
/// each character.
pub uninterp spec fn lowercased(s: Seq<char>) -> Seq<char>;

/// A character below 128.
pub open spec fn is_ascii_char(c: char) -> bool {
    (c as u32) < 128
}

/// ASCII lowercasing of one character: `A` to `Z` become `a` to `z`, every
/// other character stays.
pub open spec fn ascii_lower(c: char) -> char {
    if 'A' <= c && c <= 'Z' { ((c as u32) + 32) as char } else { c }
}

/// std's `str::to_lowercase`. Its result is named; of a text made of ASCII
/// characters alone the contract states it, as std documents: each
/// uppercase letter becomes its lowercase letter and the rest stays.
#[verifier::external_body]
pub(crate) fn to_lowercase(s: &str) -> (r: String)
    ensures
        r@ == lowercased(s@),
        (forall|i: int| 0 <= i < s@.len() ==> #[trigger] is_ascii_char(s@[i]))
            ==> r@ == s@.map_values(|c: char| ascii_lower(c)),
{
    s.to_lowercase()
}

fn has_term(hay: &Vec<char>, terms: &Vec<&'static str>) -> (r: Vec<String>)
    ensures
        r@.map_values(|t: String| t@) == terms_in(hay@, terms@.map_values(|t: &'static str| t@)),
{
    let ghost tv = terms@.map_values(|t: &'static str| t@);
    let mut out: Vec<String> = Vec::new();
    let mut i: usize = 0;
    while i < terms.len()
        invariant
            i <= terms.len(),
            tv == terms@.map_values(|t: &'static str| t@),
            out@.map_values(|t: String| t@) == terms_in(hay@, tv.take(i as int)),
        decreases terms.len() - i,
    {
        let needle = chars_of(terms[i]);
        assert(tv.take(i + 1).drop_last() =~= tv.take(i as int));
        assert(tv.take(i + 1).last() == terms[i as int]@);
        if find_text(hay, &needle) {
            out.push(to_owned(terms[i]));
            assert(out@.map_values(|t: String| t@) =~= terms_in(hay@, tv.take(i as int)).push(terms[i as int]@));
        }
        i += 1;
    }
    assert(tv.take(terms.len() as int) =~= tv);
    out
}

/// The blocked and the flagged terms found in a text, after lowercasing it.
pub struct TermMatches {
    pub blocked: Vec<String>,
    pub flagged: Vec<String>,
}

/// A text of ASCII characters alone.
pub open spec fn all_ascii(s: Seq<char>) -> bool {
    forall|i: int| 0 <= i < s.len() ==> #[trigger] is_ascii_char(s[i])
}

/// Finds the blocked and the flagged terms that occur in the lowercased
/// content, each in its list's order. For ASCII content, the lowercased
/// text is the content with each uppercase letter lowered.
pub fn match_terms(content: &str) -> (r: TermMatches)
    ensures
        r.blocked@.map_values(|t: String| t@) == terms_in(lowercased(content@), blocked_terms()),
        r.flagged@.map_values(|t: String| t@) == terms_in(lowercased(content@), flag_terms()),
        all_ascii(content@) ==> lowercased(content@) == content@.map_values(|c: char| ascii_lower(c)),
{
    let lower = to_lowercase(content);
    let hay = chars_of(lower.as_str());
    let blocked = has_term(&hay, &blocked_term_list());
    let flagged = has_term(&hay, &flag_term_list());
    TermMatches { blocked, flagged }
}

/// Content with a blocked term is blocked; otherwise content whose
/// severity reached the flag threshold is flagged; anything else is allowed.
pub fn decide(any_blocked: bool, severity_reached_threshold: bool) -> (r: ModerationDecision)
    ensures
        r == (if any_blocked { ModerationDecision::Block }
            else if severity_reached_threshold { ModerationDecision::Flag }
            else { ModerationDecision::Allow }),
{
    if any_blocked {
        ModerationDecision::Block
    } else if severity_reached_threshold {
        ModerationDecision::Flag
    } else {
        ModerationDecision::Allow
    }
}

/// The categories of a moderation: `blocked` when a blocked term matched,
/// then `flagged` when a flag term did.
pub fn categories(m: &TermMatches) -> (r: Vec<String>)
    ensures
        r@.map_values(|t: String| t@) ==
            (if m.blocked.len() > 0 { seq!["blocked"@] } else { Seq::empty() })
            + (if m.flagged.len() > 0 { seq!["flagged"@] } else { Seq::empty() }),
{
    let mut out: Vec<String> = Vec::new();
    if m.blocked.len() > 0 {
        out.push(to_owned("blocked"));
    }
    if m.flagged.len() > 0 {
        out.push(to_owned("flagged"));
    }
    assert(out@.map_values(|t: String| t@) =~=
        (if m.blocked.len() > 0 { seq!["blocked"@] } else { Seq::empty() })
        + (if m.flagged.len() > 0 { seq!["flagged"@] } else { Seq::empty() }));
    out
}

} // verus!
