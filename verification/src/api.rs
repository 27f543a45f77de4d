//! Request rules of the HTTP API that do not touch storage: who may call
//! what, how calls are set up, when a moment is blocked by moderation, and
//! how analytics are exported.

use vstd::prelude::*;
use crate::text::{push_str, push_char, push_int, push_decimal_wide, int_text, dec_digits, str_eq, to_owned,
    chars_of, byte_len, utf8_bytes, parse_i64, parse_i64_text};
use crate::ai::ModerationDecision;
use crate::auth::AuthUser;

verus! {

/// Only administrators pass.
pub fn require_admin(auth: &AuthUser) -> (r: bool)
    ensures
        r == (auth.role@ == "admin"@),
{
    str_eq(auth.role.as_str(), "admin")
}

// ───────────────────────── calls ─────────────────────────

#[derive(Debug, Clone, Copy, PartialEq, Eq, Structural)]
pub enum CallType {
    Flash,
    Live,
    P2P,
    Duo,
    Group,
}

pub open spec fn call_type_name(t: CallType) -> Seq<char> {
    match t {
        CallType::Flash => "flash"@,
        CallType::Live => "live"@,
        CallType::P2P => "p2p"@,
        CallType::Duo => "duo"@,
        CallType::Group => "group"@,
    }
}

pub open spec fn call_type_of(s: Seq<char>) -> Option<CallType> {
    if s == "flash"@ { Some(CallType::Flash) }
    else if s == "live"@ { Some(CallType::Live) }
    else if s == "p2p"@ { Some(CallType::P2P) }
    else if s == "duo"@ { Some(CallType::Duo) }
    else if s == "group"@ { Some(CallType::Group) }
    else { None }
}

impl CallType {
    pub fn parse(s: &str) -> (r: Option<CallType>)
        ensures
            r == call_type_of(s@),
    {
        if str_eq(s, "flash") { Some(CallType::Flash) }
        else if str_eq(s, "live") { Some(CallType::Live) }
        else if str_eq(s, "p2p") { Some(CallType::P2P) }
        else if str_eq(s, "duo") { Some(CallType::Duo) }
        else if str_eq(s, "group") { Some(CallType::Group) }
        else { None }
    }

    pub fn as_str(&self) -> (r: &'static str)
        ensures
            r@ == call_type_name(*self),
    {
        match self {
            CallType::Flash => "flash",
            CallType::Live => "live",
            CallType::P2P => "p2p",
            CallType::Duo => "duo",
            CallType::Group => "group",
        }
    }
}

/// Each call type is read back from its name, and the five names are
/// flash, live, p2p, duo and group.
pub proof fn law_call_type_names(t: CallType)
    ensures
        call_type_of(call_type_name(t)) == Some(t),
        call_type_of("flash"@) == Some(CallType::Flash),
        call_type_of("live"@) == Some(CallType::Live),
        call_type_of("p2p"@) == Some(CallType::P2P),
        call_type_of("duo"@) == Some(CallType::Duo),
        call_type_of("group"@) == Some(CallType::Group),
{
    reveal_strlit("flash");
    reveal_strlit("live");
    reveal_strlit("p2p");
    reveal_strlit("duo");
    reveal_strlit("group");
    assert("flash"@ != "live"@ && "flash"@ != "p2p"@ && "flash"@ != "duo"@ && "flash"@ != "group"@) by {
        assert("flash"@[0] != "live"@[0] && "flash"@[0] != "p2p"@[0] && "flash"@[0] != "duo"@[0] && "flash"@[0] != "group"@[0]);
    }
    assert("live"@ != "p2p"@ && "live"@ != "duo"@ && "live"@ != "group"@) by {
        assert("live"@[0] != "p2p"@[0] && "live"@[0] != "duo"@[0] && "live"@[0] != "group"@[0]);
    }
    assert("p2p"@ != "duo"@ && "p2p"@ != "group"@ && "duo"@ != "group"@) by {
        assert("p2p"@[0] != "duo"@[0] && "p2p"@[0] != "group"@[0] && "duo"@[0] != "group"@[0]);
    }
}

#[derive(Debug, Clone, Copy, PartialEq, Eq, Structural)]
pub enum CallError {
    /// "call_type required"
    CallTypeRequired,
    /// "Invalid call_type"
    InvalidCallType,
    /// "WebRTC streaming is disabled"
    Disabled,
    /// "No available peer for flash call"
    NoPeer,
    /// "target_user_id required"
    TargetRequired,
    /// "Cannot call yourself"
    SelfCall,
}

/// Who takes part in a new call.
#[derive(Debug, Clone)]
pub struct CallParties {
    pub call_type: CallType,
    /// The callee, or 0 when there is none.
    pub callee_id: i64,
    pub participants: Vec<i64>,
}

/// The parties of a call of a given type: a flash call pairs the caller
/// with a random peer; a live call has the caller alone; a direct call
/// needs a target other than the caller; a duo or group call takes the
/// target when there is one.
pub open spec fn call_parties(caller: i64, t: CallType, target: Option<i64>, peer: Option<i64>) -> Result<(i64, Seq<i64>), CallError> {
    match t {
        CallType::Flash => match peer {
            Some(p) => Ok((p, seq![caller, p])),
            None => Err(CallError::NoPeer),
        },
        CallType::Live => Ok((0i64, seq![caller])),
        CallType::P2P => match target {
            None => Err(CallError::TargetRequired),
            Some(x) => if x == caller { Err(CallError::SelfCall) } else { Ok((x, seq![caller, x])) },
        },
        _ => match target {
            Some(x) => Ok((x, seq![caller, x])),
            None => Ok((0i64, seq![caller])),
        },
    }
}

/// Every planned call starts with the caller, and a callee other than 0
/// takes part in it; a direct call between two different users has exactly
/// the caller and the target as its participants.
pub proof fn law_callee_takes_part(caller: i64, t: CallType, target: Option<i64>, peer: Option<i64>)
    ensures
        call_parties(caller, t, target, peer) matches Ok((callee, ps))
            ==> ps.len() >= 1 && ps[0] == caller && (callee != 0 ==> ps.contains(callee)),
        t == CallType::P2P && (target matches Some(x) && x != caller)
            ==> call_parties(caller, t, target, peer) == Ok::<(i64, Seq<i64>), CallError>((target.unwrap(), seq![caller, target.unwrap()])),
        t == CallType::P2P && target == Some(caller) ==> call_parties(caller, t, target, peer) == Err::<(i64, Seq<i64>), CallError>(CallError::SelfCall),
        t == CallType::P2P && target is None ==> call_parties(caller, t, target, peer) == Err::<(i64, Seq<i64>), CallError>(CallError::TargetRequired),
        t == CallType::Live ==> call_parties(caller, t, target, peer) == Ok::<(i64, Seq<i64>), CallError>((0, seq![caller])),
        t == CallType::Flash && peer is None ==> call_parties(caller, t, target, peer) == Err::<(i64, Seq<i64>), CallError>(CallError::NoPeer),
        t == CallType::Flash && peer is Some ==> call_parties(caller, t, target, peer) == Ok::<(i64, Seq<i64>), CallError>((peer.unwrap(), seq![caller, peer.unwrap()])),
        (t == CallType::Duo || t == CallType::Group) ==> call_parties(caller, t, target, peer) is Ok,
{
    match call_parties(caller, t, target, peer) {
        Ok((callee, ps)) => {
            if callee != 0 && ps.len() == 2 {
                assert(ps[1] == callee ==> ps.contains(callee));
            }
        },
        Err(_) => {},
    }
}

/// The call rule: a known call type is required, calls must be enabled,
/// then the parties are set by the type. `peer` is the random peer found
/// for a flash call.
pub fn plan_call(caller_id: i64, call_type: Option<&str>, enabled: bool, target: Option<i64>, peer: Option<i64>)
    -> (r: Result<CallParties, CallError>)
    ensures
        call_type is None ==> r == Err::<CallParties, CallError>(CallError::CallTypeRequired),
        call_type is Some && call_type_of(call_type.unwrap()@) is None ==> r == Err::<CallParties, CallError>(CallError::InvalidCallType),
        call_type is Some && call_type_of(call_type.unwrap()@) is Some && !enabled ==> r == Err::<CallParties, CallError>(CallError::Disabled),
        call_type is Some && call_type_of(call_type.unwrap()@) is Some && enabled ==>
            match call_parties(caller_id, call_type_of(call_type.unwrap()@).unwrap(), target, peer) {
                Err(e) => r == Err::<CallParties, CallError>(e),
                Ok((callee, ps)) => (r matches Ok(p) && p.call_type == call_type_of(call_type.unwrap()@).unwrap()
                    && p.callee_id == callee && p.participants@ == ps),
            },
{
    let s = match call_type {
        None => return Err(CallError::CallTypeRequired),
        Some(s) => s,
    };
    let t = match CallType::parse(s) {
        None => return Err(CallError::InvalidCallType),
        Some(t) => t,
    };
    if !enabled {
        return Err(CallError::Disabled);
    }
    let mut ids: Vec<i64> = Vec::new();
    ids.push(caller_id);
    let callee = match t {
        CallType::Flash => match peer {
            Some(p) => { ids.push(p); p },
            None => return Err(CallError::NoPeer),
        },
        CallType::Live => 0,
        CallType::P2P => match target {
            None => return Err(CallError::TargetRequired),
            Some(x) => {
                if x == caller_id {
                    return Err(CallError::SelfCall);
                }
                ids.push(x);
                x
            },
        },
        _ => match target {
            Some(x) => { ids.push(x); x },
            None => 0,
        },
    };
    proof {
        match call_parties(caller_id, t, target, peer) {
            Ok((c, ps)) => { assert(ids@ =~= ps); },
            Err(_) => {},
        }
    }
    Ok(CallParties { call_type: t, callee_id: callee, participants: ids })
}

/// A call's id: `call-{caller}-{nanoseconds since the epoch}`.
pub open spec fn call_id_text(caller_id: i64, nanos: u128) -> Seq<char> {
    "call-"@ + int_text(caller_id as int) + "-"@ + dec_digits(nanos as nat)
}

pub fn new_call_id(caller_id: i64, nanos: u128) -> (r: String)
    ensures
        r@ == call_id_text(caller_id, nanos),
{
    let mut s = to_owned("call-");
    push_int(&mut s, caller_id);
    push_str(&mut s, "-");
    push_decimal_wide(&mut s, nanos);
    s
}

// ───────────────────────── moments ─────────────────────────

/// Texts joined with a separator between each two.
pub open spec fn joined(parts: Seq<Seq<char>>, sep: Seq<char>) -> Seq<char>
    decreases parts.len(),
{
    if parts.len() == 0 {
        Seq::empty()
    } else if parts.len() == 1 {
        parts[0]
    } else {
        joined(parts.drop_last(), sep) + sep + parts.last()
    }
}

pub open spec fn strings_view(v: Seq<String>) -> Seq<Seq<char>> {
    v.map_values(|s: String| s@)
}

/// The strings joined with a separator (std's `join` on a slice of strings).
pub fn join_strings(parts: &Vec<String>, sep: &str) -> (r: String)
    ensures
        r@ == joined(strings_view(parts@), sep@),
{
    let ghost pv = strings_view(parts@);
    let mut out = String::new();
    let mut i: usize = 0;
    while i < parts.len()
        invariant
            i <= parts.len(),
            pv == strings_view(parts@),
            out@ == joined(pv.take(i as int), sep@),
        decreases parts.len() - i,
    {
        assert(pv.take(i + 1).drop_last() =~= pv.take(i as int));
        if i > 0 {
            push_str(&mut out, sep);
        }
        push_str(&mut out, parts[i].as_str());
        proof {
            if i == 0 {
                assert(pv.take(1) =~= seq![pv[0]]);
                assert(out@ =~= joined(pv.take(1), sep@));
            }
        }
        i += 1;
    }
    assert(pv.take(parts.len() as int) =~= pv);
    out
}

/// What happens to a new moment after moderation.
#[derive(Debug, Clone)]
pub enum MomentGate {
    /// Refused: "Content blocked by moderation: {terms}", with the note
    /// "Auto block: {terms}" for the content flag.
    Blocked { message: String, flag_note: String },
    /// Posted, and flagged for review.
    Flagged,
    /// Posted.
    Clean,
}

/// When automatic moderation of moments is on, a blocking decision refuses
/// the moment naming the matched terms, and a flagging decision posts it
/// for review; otherwise the moment is posted.
pub fn moment_gate(moderation_on: bool, decision: ModerationDecision, matched: &Vec<String>) -> (r: MomentGate)
    ensures
        !moderation_on || decision == ModerationDecision::Allow ==> r is Clean,
        moderation_on && decision == ModerationDecision::Flag ==> r is Flagged,
        moderation_on && decision == ModerationDecision::Block ==>
            (r matches MomentGate::Blocked { message, flag_note }
                && message@ == "Content blocked by moderation: "@ + joined(strings_view(matched@), ", "@)
                && flag_note@ == "Auto block: "@ + joined(strings_view(matched@), ", "@)),
{
    if !moderation_on {
        return MomentGate::Clean;
    }
    match decision {
        ModerationDecision::Block => {
            let terms = join_strings(matched, ", ");
            let mut message = to_owned("Content blocked by moderation: ");
            push_str(&mut message, terms.as_str());
            let mut flag_note = to_owned("Auto block: ");
            push_str(&mut flag_note, terms.as_str());
            MomentGate::Blocked { message, flag_note }
        },
        ModerationDecision::Flag => MomentGate::Flagged,
        ModerationDecision::Allow => MomentGate::Clean,
    }
}

// ───────────────────────── analytics export ─────────────────────────

#[derive(Debug, Clone, Copy, PartialEq, Eq, Structural)]
pub enum ExportDataset {
    Users,
    Revenue,
    Hosts,
    Geo,
    Snapshots,
}

#[derive(Debug, Clone, Copy, PartialEq, Eq, Structural)]
pub enum ExportFormat {
    Csv,
    Json,
}

#[derive(Debug, Clone, PartialEq, Eq)]
pub enum ExportError {
    /// "Admin access required"
    NotAdmin,
    /// "Unknown dataset: {name}"
    UnknownDataset(String),
    /// "Unknown format: {name}"
    UnknownFormat(String),
}

pub open spec fn dataset_of(s: Seq<char>) -> Option<ExportDataset> {
    if s == "users"@ { Some(ExportDataset::Users) }
    else if s == "revenue"@ { Some(ExportDataset::Revenue) }
    else if s == "hosts"@ { Some(ExportDataset::Hosts) }
    else if s == "geo"@ { Some(ExportDataset::Geo) }
    else if s == "snapshots"@ { Some(ExportDataset::Snapshots) }
    else { None }
}

/// The number of days a report covers: the `days` parameter when it is a
/// number, else the default.
pub open spec fn days_param(days: Option<Seq<char>>, default: i64) -> i64 {
    match days {
        Some(d) => match parse_i64(d) { Some(n) => n, None => default },
        None => default,
    }
}

pub fn default_range(days: Option<&str>, default: i64) -> (r: i64)
    ensures
        r == days_param(match days { Some(d) => Some(d@), None => None }, default),
{
    match days {
        Some(d) => match parse_i64_text(d) { Some(n) => n, None => default },
        None => default,
    }
}

/// A list's page size: the `limit` parameter when it is a number, capped
/// at 500, else the default.
pub fn limit_from(limit: Option<&str>, default: i64) -> (r: i64)
    ensures
        r == (match limit {
            Some(l) => match parse_i64(l@) { Some(n) => if n < 500 { n } else { 500 }, None => default },
            None => default,
        }),
{
    match limit {
        Some(l) => match parse_i64_text(l) {
            Some(n) => if n < 500 { n } else { 500 },
            None => default,
        },
        None => default,
    }
}

/// What an export covers: only administrators may export; the dataset is
/// `users` unless named, and must be a known one; reports cover 30 days
/// unless told otherwise.
pub fn export_plan(auth: &AuthUser, dataset: Option<&str>, days: Option<&str>) -> (r: Result<(ExportDataset, i64), ExportError>)
    ensures
        auth.role@ != "admin"@ ==> r == Err::<(ExportDataset, i64), ExportError>(ExportError::NotAdmin),
        auth.role@ == "admin"@ ==> ({
            let name = match dataset { Some(d) => d@, None => "users"@ };
            match dataset_of(name) {
                Some(ds) => r == Ok::<(ExportDataset, i64), ExportError>((ds, days_param(match days { Some(d) => Some(d@), None => None }, 30))),
                None => (r matches Err(ExportError::UnknownDataset(n)) && n@ == name),
            }
        }),
{
    if !require_admin(auth) {
        return Err(ExportError::NotAdmin);
    }
    let name = match dataset { Some(d) => d, None => "users" };
    let ds = if str_eq(name, "users") { ExportDataset::Users }
        else if str_eq(name, "revenue") { ExportDataset::Revenue }
        else if str_eq(name, "hosts") { ExportDataset::Hosts }
        else if str_eq(name, "geo") { ExportDataset::Geo }
        else if str_eq(name, "snapshots") { ExportDataset::Snapshots }
        else { return Err(ExportError::UnknownDataset(to_owned(name))); };
    Ok((ds, default_range(days, 30)))
}

/// The export format: JSON unless named; only `csv` and `json` are known.
pub fn export_format(format: Option<&str>) -> (r: Result<ExportFormat, ExportError>)
    ensures
        ({
            let name = match format { Some(f) => f@, None => "json"@ };
            &&& name == "csv"@ ==> r == Ok::<ExportFormat, ExportError>(ExportFormat::Csv)
            &&& name == "json"@ ==> r == Ok::<ExportFormat, ExportError>(ExportFormat::Json)
            &&& name != "csv"@ && name != "json"@ ==> (r matches Err(ExportError::UnknownFormat(n)) && n@ == name)
        }),
{
    let name = match format { Some(f) => f, None => "json" };
    proof {
        reveal_strlit("csv");
        reveal_strlit("json");
        assert("csv"@ != "json"@) by { assert("csv"@.len() != "json"@.len()); }
    }
    if str_eq(name, "csv") {
        Ok(ExportFormat::Csv)
    } else if str_eq(name, "json") {
        Ok(ExportFormat::Json)
    } else {
        Err(ExportError::UnknownFormat(to_owned(name)))
    }
}

/// A cell of a CSV export: a JSON string, quoted, or the JSON text of any
/// other value, written as it is.
#[derive(Debug, Clone)]
pub enum CsvCell {
    Text(String),
    Literal(String),
}

/// A string with each `"` doubled.
pub open spec fn csv_escape(s: Seq<char>) -> Seq<char>
    decreases s.len(),
{
    if s.len() == 0 {
        Seq::empty()
    } else {
        csv_escape(s.drop_last()) + if s.last() == '"' { seq!['"', '"'] } else { seq![s.last()] }
    }
}

pub open spec fn cell_text(c: CsvCell) -> Seq<char> {
    match c {
        CsvCell::Text(s) => seq!['"'] + csv_escape(s@) + seq!['"'],
        CsvCell::Literal(t) => t@,
    }
}

pub open spec fn row_texts(row: Seq<CsvCell>) -> Seq<Seq<char>> {
    row.map_values(|c: CsvCell| cell_text(c))
}

pub open spec fn rows_text(rows: Seq<Vec<CsvCell>>) -> Seq<char>
    decreases rows.len(),
{
    if rows.len() == 0 {
        Seq::empty()
    } else {
        rows_text(rows.drop_last()) + joined(row_texts(rows.last()@), ","@) + seq!['\n']
    }
}

/// A CSV document: the header line, then one line per row, each line's
/// cells separated by commas and ended by a newline.
pub open spec fn csv_text(headers: Seq<Seq<char>>, rows: Seq<Vec<CsvCell>>) -> Seq<char> {
    joined(headers, ","@) + seq!['\n'] + rows_text(rows)
}

fn push_cell(out: &mut String, c: &CsvCell)
    ensures
        final(out)@ == old(out)@ + cell_text(*c),
{
    match c {
        CsvCell::Literal(t) => push_str(out, t.as_str()),
        CsvCell::Text(s) => {
            push_char(out, '"');
            let cs = chars_of(s.as_str());
            let ghost start = out@;
            let mut i: usize = 0;
            while i < cs.len()
                invariant
                    cs@ == s@,
                    i <= cs.len(),
                    out@ == start + csv_escape(cs@.take(i as int)),
                decreases cs.len() - i,
            {
                assert(cs@.take(i + 1).drop_last() =~= cs@.take(i as int));
                if cs[i] == '"' {
                    push_char(out, '"');
                    push_char(out, '"');
                } else {
                    push_char(out, cs[i]);
                }
                assert(out@ =~= start + csv_escape(cs@.take(i + 1)));
                i += 1;
            }
            assert(cs@.take(cs.len() as int) =~= cs@);
            push_char(out, '"');
            assert(out@ =~= old(out)@ + cell_text(*c));
        },
    }
}

fn push_row(out: &mut String, row: &Vec<CsvCell>)
    ensures
        final(out)@ == old(out)@ + joined(row_texts(row@), ","@) + seq!['\n'],
{
    let ghost rv = row_texts(row@);
    let ghost start = out@;
    let mut i: usize = 0;
    while i < row.len()
        invariant
            i <= row.len(),
            rv == row_texts(row@),
            out@ == start + joined(rv.take(i as int), ","@),
        decreases row.len() - i,
    {
        assert(rv.take(i + 1).drop_last() =~= rv.take(i as int));
        if i > 0 {
            push_str(out, ",");
        }
        push_cell(out, &row[i]);
        proof {
            reveal_strlit(",");
            if i == 0 {
                assert(rv.take(1) =~= seq![rv[0]]);
            }
            assert(out@ =~= start + joined(rv.take(i + 1), ","@));
        }
        i += 1;
    }
    assert(rv.take(row.len() as int) =~= rv);
    push_char(out, '\n');
}

/// Writes rows as CSV under the given headers.
pub fn to_csv(headers: &Vec<String>, rows: &Vec<Vec<CsvCell>>) -> (r: String)
    ensures
        r@ == csv_text(strings_view(headers@), rows@),
{
    let mut out = join_strings(headers, ",");
    push_char(&mut out, '\n');
    let ghost start = out@;
    let mut i: usize = 0;
    while i < rows.len()
        invariant
            i <= rows.len(),
            out@ == start + rows_text(rows@.take(i as int)),
        decreases rows.len() - i,
    {
        assert(rows@.take(i + 1).drop_last() =~= rows@.take(i as int));
        push_row(&mut out, &rows[i]);
        assert(out@ =~= start + rows_text(rows@.take(i + 1)));
        i += 1;
    }
    assert(rows@.take(rows.len() as int) =~= rows@);
    out
}

/// The download header of a CSV export: `attachment; filename="{dataset}.csv"`.
pub fn csv_disposition(dataset: &str) -> (r: String)
    ensures
        r@ == "attachment; filename=\""@ + dataset@ + ".csv\""@,
{
    let mut s = to_owned("attachment; filename=\"");
    push_str(&mut s, dataset);
    push_str(&mut s, ".csv\"");
    s
}

/// A region a user may set: not empty, and at most 64 bytes long.
pub fn valid_region(region: &str) -> (r: bool)
    ensures
        r == (utf8_bytes(region@).len() > 0 && utf8_bytes(region@).len() <= 64),
{
    let n = byte_len(region);
    n > 0 && n <= 64
}

// ───────────────────────── reports and content flags ─────────────────────────

#[derive(Debug, Clone, Copy, PartialEq, Eq, Structural)]
pub enum ReportError {
    /// "target_type required"
    TargetTypeRequired,
    /// "target_id required"
    TargetIdRequired,
    /// "invalid target_type"
    InvalidTargetType,
}

/// What a user may report: users, moments, messages, hosts and agencies.
pub open spec fn reportable(t: Seq<char>) -> bool {
    t == "user"@ || t == "moment"@ || t == "message"@ || t == "host"@ || t == "agency"@
}

/// What content may be flagged: moments, messages, users and hosts.
pub open spec fn flaggable(t: Seq<char>) -> bool {
    t == "moment"@ || t == "message"@ || t == "user"@ || t == "host"@
}

/// A checked report or flag: its target, and its category (or flag type)
/// and description, `other` and empty unless given.
#[derive(Debug, Clone)]
pub struct TargetedRequest {
    pub target_type: String,
    pub target_id: i64,
    pub category: String,
    pub description: String,
}

pub open spec fn targeted_ok(r: TargetedRequest, target_type: Seq<char>, target_id: i64, category: Option<&str>,
    description: Option<&str>) -> bool {
    &&& r.target_type@ == target_type
    &&& r.target_id == target_id
    &&& r.category@ == (match category { Some(c) => c@, None => "other"@ })
    &&& r.description@ == (match description { Some(d) => d@, None => Seq::<char>::empty() })
}

fn targeted(target_type: &str, target_id: i64, category: Option<&str>, description: Option<&str>) -> (r: TargetedRequest)
    ensures
        targeted_ok(r, target_type@, target_id, category, description),
{
    TargetedRequest {
        target_type: to_owned(target_type),
        target_id,
        category: match category { Some(c) => to_owned(c), None => to_owned("other") },
        description: match description { Some(d) => to_owned(d), None => String::new() },
    }
}

/// A report needs a target type and id, and the type must be reportable.
pub fn report_request(target_type: Option<&str>, target_id: Option<i64>, category: Option<&str>, description: Option<&str>)
    -> (r: Result<TargetedRequest, ReportError>)
    ensures
        target_type is None ==> r == Err::<TargetedRequest, ReportError>(ReportError::TargetTypeRequired),
        target_type is Some && target_id is None ==> r == Err::<TargetedRequest, ReportError>(ReportError::TargetIdRequired),
        target_type is Some && target_id is Some && !reportable(target_type.unwrap()@) ==>
            r == Err::<TargetedRequest, ReportError>(ReportError::InvalidTargetType),
        target_type is Some && target_id is Some && reportable(target_type.unwrap()@) ==>
            (r matches Ok(q) && targeted_ok(q, target_type.unwrap()@, target_id.unwrap(), category, description)),
{
    let t = match target_type { None => return Err(ReportError::TargetTypeRequired), Some(t) => t };
    let id = match target_id { None => return Err(ReportError::TargetIdRequired), Some(id) => id };
    if !(str_eq(t, "user") || str_eq(t, "moment") || str_eq(t, "message") || str_eq(t, "host") || str_eq(t, "agency")) {
        return Err(ReportError::InvalidTargetType);
    }
    Ok(targeted(t, id, category, description))
}

/// A content flag needs a target type and id, and the type must be flaggable.
pub fn flag_request(target_type: Option<&str>, target_id: Option<i64>, flag_type: Option<&str>, description: Option<&str>)
    -> (r: Result<TargetedRequest, ReportError>)
    ensures
        target_type is None ==> r == Err::<TargetedRequest, ReportError>(ReportError::TargetTypeRequired),
        target_type is Some && target_id is None ==> r == Err::<TargetedRequest, ReportError>(ReportError::TargetIdRequired),
        target_type is Some && target_id is Some && !flaggable(target_type.unwrap()@) ==>
            r == Err::<TargetedRequest, ReportError>(ReportError::InvalidTargetType),
        target_type is Some && target_id is Some && flaggable(target_type.unwrap()@) ==>
            (r matches Ok(q) && targeted_ok(q, target_type.unwrap()@, target_id.unwrap(), flag_type, description)),
{
    let t = match target_type { None => return Err(ReportError::TargetTypeRequired), Some(t) => t };
    let id = match target_id { None => return Err(ReportError::TargetIdRequired), Some(id) => id };
    if !(str_eq(t, "moment") || str_eq(t, "message") || str_eq(t, "user") || str_eq(t, "host")) {
        return Err(ReportError::InvalidTargetType);
    }
    Ok(targeted(t, id, flag_type, description))
}

/// After a report on a user, the user is shadow-banned once the number of
/// distinct reporters reaches the threshold; `distinct_reporters` is that
/// number, looked up only for reports on users. Gives whether to ban and
/// the message for the reporter.
pub fn report_outcome(report_id: i64, target_type: &str, distinct_reporters: Option<i64>, threshold: i64) -> (r: (bool, String))
    ensures
        r.0 == (target_type@ == "user"@ && (distinct_reporters matches Some(n) && n >= threshold)),
        r.1@ == "Report #"@ + int_text(report_id as int)
            + (if r.0 { " submitted; target auto-shadow-banned"@ } else { " submitted"@ }),
{
    let ban = str_eq(target_type, "user") && match distinct_reporters { Some(n) => n >= threshold, None => false };
    let mut m = to_owned("Report #");
    push_int(&mut m, report_id);
    if ban {
        push_str(&mut m, " submitted; target auto-shadow-banned");
    } else {
        push_str(&mut m, " submitted");
    }
    (ban, m)
}

/// The roles an administrator may give.
pub open spec fn assignable_role(role: Seq<char>) -> bool {
    role == "user"@ || role == "admin"@ || role == "moderator"@ || role == "host"@
}

pub fn valid_role(role: &str) -> (r: bool)
    ensures
        r == assignable_role(role@),
{
    str_eq(role, "user") || str_eq(role, "admin") || str_eq(role, "moderator") || str_eq(role, "host")
}

#[derive(Debug, Clone, Copy, PartialEq, Eq, Structural)]
pub enum AppealError {
    /// "target_type required"
    TargetTypeRequired,
    /// "target_id required"
    TargetIdRequired,
    /// "reason required"
    ReasonRequired,
    /// "invalid target_type"
    InvalidTargetType,
}

/// What may be appealed: bans, shadow bans and content flags.
pub open spec fn appealable(t: Seq<char>) -> bool {
    t == "ban"@ || t == "shadow_ban"@ || t == "content_flag"@
}

/// An appeal needs a target type, a target id and a reason, and the
/// target must be appealable.
pub fn appeal_request(target_type: Option<&str>, target_id: Option<i64>, reason: Option<&str>) -> (r: Result<(), AppealError>)
    ensures
        target_type is None ==> r == Err::<(), AppealError>(AppealError::TargetTypeRequired),
        target_type is Some && target_id is None ==> r == Err::<(), AppealError>(AppealError::TargetIdRequired),
        target_type is Some && target_id is Some && reason is None ==> r == Err::<(), AppealError>(AppealError::ReasonRequired),
        target_type is Some && target_id is Some && reason is Some ==>
            r == (if appealable(target_type.unwrap()@) { Ok::<(), AppealError>(()) } else { Err(AppealError::InvalidTargetType) }),
{
    let t = match target_type { None => return Err(AppealError::TargetTypeRequired), Some(t) => t };
    if target_id.is_none() {
        return Err(AppealError::TargetIdRequired);
    }
    if reason.is_none() {
        return Err(AppealError::ReasonRequired);
    }
    if str_eq(t, "ban") || str_eq(t, "shadow_ban") || str_eq(t, "content_flag") {
        Ok(())
    } else {
        Err(AppealError::InvalidTargetType)
    }
}

// ───────────────────────── agencies and admin adjustments ─────────────────────────

#[derive(Debug, Clone, Copy, PartialEq, Eq, Structural)]
pub enum AgencyError {
    /// "name required"
    NameRequired,
    /// "user_id required"
    UserIdRequired,
}

pub open spec fn or_text(o: Option<&str>, d: Seq<char>) -> Seq<char> {
    match o { Some(t) => t@, None => d }
}

/// A new agency needs a name; its description is empty unless given.
pub fn agency_request(name: Option<&str>, description: Option<&str>) -> (r: Result<(String, String), AgencyError>)
    ensures
        name is None ==> r matches Err(AgencyError::NameRequired),
        name matches Some(n) ==> (r matches Ok(p) && p.0@ == n@ && p.1@ == or_text(description, Seq::empty())),
{
    let n = match name { None => return Err(AgencyError::NameRequired), Some(n) => n };
    let d = match description { Some(d) => to_owned(d), None => String::new() };
    Ok((to_owned(n), d))
}

/// A new agency member needs a user id; the role is `host` unless given.
pub fn member_request(user_id: Option<i64>, role: Option<&str>) -> (r: Result<(i64, String), AgencyError>)
    ensures
        user_id is None ==> r matches Err(AgencyError::UserIdRequired),
        user_id matches Some(u) ==> (r matches Ok(p) && p.0 == u && p.1@ == or_text(role, "host"@)),
{
    let u = match user_id { None => return Err(AgencyError::UserIdRequired), Some(u) => u };
    let r = match role { Some(t) => to_owned(t), None => to_owned("host") };
    proof { reveal_strlit("host"); }
    Ok((u, r))
}

#[derive(Debug, Clone, Copy, PartialEq, Eq, Structural)]
pub enum AdjustError {
    /// "Admin access required"
    NotAdmin,
    /// "Missing integer 'amount'"
    AmountRequired,
}

/// An administrator's balance adjustment request: only administrators, an
/// integer amount is required, and the description is `admin adjustment`
/// unless given. A non-negative amount is then deposited and a negative one
/// withdrawn (see `adjust_balance`).
pub fn adjustment_request(auth: &AuthUser, amount: Option<i64>, description: Option<&str>)
    -> (r: Result<(i64, String), AdjustError>)
    ensures
        auth.role@ != "admin"@ ==> r matches Err(AdjustError::NotAdmin),
        auth.role@ == "admin"@ && amount is None ==> r matches Err(AdjustError::AmountRequired),
        auth.role@ == "admin"@ && amount is Some ==> (r matches Ok(p) && p.0 == amount.unwrap()
            && p.1@ == or_text(description, "admin adjustment"@)),
{
    if !require_admin(auth) {
        return Err(AdjustError::NotAdmin);
    }
    let a = match amount { None => return Err(AdjustError::AmountRequired), Some(a) => a };
    let d = match description { Some(t) => to_owned(t), None => to_owned("admin adjustment") };
    Ok((a, d))
}

// ───────────────────────── chats and spending limits ─────────────────────────

#[derive(Debug, Clone, Copy, PartialEq, Eq, Structural)]
pub enum ChatError {
    /// "Cannot create session with yourself"
    SelfSession,
}

/// A direct chat is between two different users.
pub fn chat_session_request(user_id: i64, other_id: i64) -> (r: Result<(), ChatError>)
    ensures
        r == (if user_id == other_id { Err(ChatError::SelfSession) } else { Ok::<(), ChatError>(()) }),
{
    if user_id == other_id { Err(ChatError::SelfSession) } else { Ok(()) }
}

#[derive(Debug, Clone, Copy, PartialEq, Eq, Structural)]
pub enum LimitError {
    /// "Limits must be positive"
    NotPositive,
}

/// New spending limits: 100000 a day and 1000000 a month unless given, and
/// both must be positive.
pub fn spending_limit_request(daily: Option<i64>, monthly: Option<i64>) -> (r: Result<(i64, i64), LimitError>)
    ensures
        ({
            let d = match daily { Some(x) => x, None => 100000 };
            let m = match monthly { Some(x) => x, None => 1000000 };
            r == (if d <= 0 || m <= 0 { Err(LimitError::NotPositive) } else { Ok::<(i64, i64), LimitError>((d, m)) })
        }),
{
    let d = match daily { Some(x) => x, None => 100000 };
    let m = match monthly { Some(x) => x, None => 1000000 };
    if d <= 0 || m <= 0 { Err(LimitError::NotPositive) } else { Ok((d, m)) }
}

} // verus!
