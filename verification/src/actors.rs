//! The actors' message handling, each as a step from a state and a message
//! to the next state and what the runtime has to do next.

use vstd::prelude::*;
use crate::text::{push_str, push_int, int_text, str_eq, to_owned};
use crate::config::WebRtcConfig;
use crate::i18n::{upsert_vec, upsert, pairs_view};

verus! {

/// What the runtime does with an actor after it handled a message.
#[derive(Debug, Clone, Copy, PartialEq, Eq, Structural)]
pub enum Flow {
    Continue,
    Stop,
}

// ───────────────────────── notifications ─────────────────────────

pub struct NotificationActor;

#[derive(Debug, Clone, Copy, PartialEq, Eq, Structural)]
pub struct NotificationActorState {
    pub queued: u64,
    pub sent: u64,
    pub failed: u64,
}

pub enum NotificationMsg {
    SendEmail { notification_id: i64, to: String, subject: String, body: String, username: String },
    SendPush { notification_id: i64, tokens: Vec<String>, title: String, body: String },
    InApp { notification_id: i64, user_id: i64, title: String, body: String },
    MarkSent { notification_id: i64 },
    MarkFailed { notification_id: i64, reason: String },
    GetStats,
}

/// Whether a notification message queues something (email, push or in-app).
pub open spec fn queues(msg: NotificationMsg) -> bool {
    msg is SendEmail || msg is SendPush || msg is InApp
}

/// The counters after one message: queuing messages count as queued,
/// `MarkSent` as sent, `MarkFailed` as failed; `GetStats` changes nothing.
pub open spec fn notification_step(s: NotificationActorState, msg: NotificationMsg) -> NotificationActorState {
    if queues(msg) {
        NotificationActorState { queued: (s.queued + 1) as u64, ..s }
    } else if msg is MarkSent {
        NotificationActorState { sent: (s.sent + 1) as u64, ..s }
    } else if msg is MarkFailed {
        NotificationActorState { failed: (s.failed + 1) as u64, ..s }
    } else {
        s
    }
}

/// The counter that a message raises has room for one more.
pub open spec fn notification_room(s: NotificationActorState, msg: NotificationMsg) -> bool {
    &&& queues(msg) ==> s.queued < u64::MAX
    &&& msg is MarkSent ==> s.sent < u64::MAX
    &&& msg is MarkFailed ==> s.failed < u64::MAX
}

impl NotificationActor {
    /// The state an actor starts with: every counter at zero.
    pub fn pre_start(&self) -> (s: NotificationActorState)
        ensures
            s == (NotificationActorState { queued: 0, sent: 0, failed: 0 }),
    {
        NotificationActorState { queued: 0, sent: 0, failed: 0 }
    }

    pub fn handle(&self, msg: &NotificationMsg, state: &mut NotificationActorState)
        requires
            notification_room(*old(state), *msg),
        ensures
            *final(state) == notification_step(*old(state), *msg),
    {
        match msg {
            NotificationMsg::SendEmail { .. } => state.queued = state.queued + 1,
            NotificationMsg::SendPush { .. } => state.queued = state.queued + 1,
            NotificationMsg::InApp { .. } => state.queued = state.queued + 1,
            NotificationMsg::MarkSent { .. } => state.sent = state.sent + 1,
            NotificationMsg::MarkFailed { .. } => state.failed = state.failed + 1,
            NotificationMsg::GetStats => {},
        }
    }
}

/// Each message raises at most one counter, by one, and no counter ever
/// goes down: the total grows by one exactly for the messages other than
/// `GetStats`.
pub proof fn law_notification_counters_monotone(s: NotificationActorState, msg: NotificationMsg)
    requires
        notification_room(s, msg),
    ensures
        notification_step(s, msg).queued >= s.queued,
        notification_step(s, msg).sent >= s.sent,
        notification_step(s, msg).failed >= s.failed,
        notification_step(s, msg).queued + notification_step(s, msg).sent + notification_step(s, msg).failed
            == s.queued + s.sent + s.failed + (if msg is GetStats { 0int } else { 1int }),
{
}

// ───────────────────────── sessions ─────────────────────────

pub struct SessionSupervisor;

#[derive(Debug, Clone, Copy, PartialEq, Eq, Structural)]
pub struct SessionSupervisorState {
    pub active_sessions: u32,
    pub max_sessions: u32,
}

pub enum SessionSupervisorMsg {
    SessionStarted { user_id: String },
    SessionEnded { user_id: String },
    GetActiveCount,
}

/// The session count after one message: a start adds one, an end takes
/// one away but never goes below zero.
pub open spec fn session_step(s: SessionSupervisorState, msg: SessionSupervisorMsg) -> SessionSupervisorState {
    match msg {
        SessionSupervisorMsg::SessionStarted { .. } =>
            SessionSupervisorState { active_sessions: (s.active_sessions + 1) as u32, ..s },
        SessionSupervisorMsg::SessionEnded { .. } =>
            SessionSupervisorState {
                active_sessions: if s.active_sessions == 0 { 0u32 } else { (s.active_sessions - 1) as u32 },
                ..s
            },
        SessionSupervisorMsg::GetActiveCount => s,
    }
}

impl SessionSupervisor {
    /// A supervisor starts with no active session and the given limit.
    pub fn pre_start(&self, max_sessions: u32) -> (s: SessionSupervisorState)
        ensures
            s == (SessionSupervisorState { active_sessions: 0, max_sessions }),
    {
        SessionSupervisorState { active_sessions: 0, max_sessions }
    }

    pub fn handle(&self, msg: &SessionSupervisorMsg, state: &mut SessionSupervisorState)
        requires
            msg is SessionStarted ==> old(state).active_sessions < u32::MAX,
        ensures
            *final(state) == session_step(*old(state), *msg),
    {
        match msg {
            SessionSupervisorMsg::SessionStarted { .. } => {
                state.active_sessions = state.active_sessions + 1;
            },
            SessionSupervisorMsg::SessionEnded { .. } => {
                state.active_sessions = state.active_sessions.saturating_sub(1);
            },
            SessionSupervisorMsg::GetActiveCount => {},
        }
    }
}

/// A session that starts and then ends leaves the supervisor as it was,
/// whoever the two users are.
pub proof fn law_session_start_then_end(s: SessionSupervisorState, a: String, b: String)
    requires
        s.active_sessions < u32::MAX,
    ensures
        session_step(
            session_step(s, SessionSupervisorMsg::SessionStarted { user_id: a }),
            SessionSupervisorMsg::SessionEnded { user_id: b },
        ) == s,
{
}

// ───────────────────────── simple service actors ─────────────────────────

pub struct ServerActor;

pub struct ServerActorState {
    host: String,
    port: u16,
}

pub enum ServerActorMsg {
    Start,
    Stop,
}

impl ServerActorState {
    pub closed spec fn host_view(&self) -> Seq<char> {
        self.host@
    }

    pub closed spec fn port_view(&self) -> u16 {
        self.port
    }
}

impl ServerActor {
    /// The server's state holds the address it serves on.
    pub fn pre_start(&self, host: String, port: u16) -> (s: ServerActorState)
        ensures
            s.host_view() == host@,
            s.port_view() == port,
    {
        ServerActorState { host, port }
    }

    /// `Start` keeps the server running; `Stop` stops it.
    pub fn handle(&self, msg: &ServerActorMsg, state: &ServerActorState) -> (r: Flow)
        ensures
            r == (if msg is Stop { Flow::Stop } else { Flow::Continue }),
    {
        match msg {
            ServerActorMsg::Start => Flow::Continue,
            ServerActorMsg::Stop => Flow::Stop,
        }
    }
}

pub struct SupervisorTree;

pub struct SupervisorTreeState {
    pub config_path: String,
}

pub enum SupervisorTreeMsg {
    GetConfig,
    Shutdown,
}

impl SupervisorTree {
    pub fn pre_start(&self, config_path: String) -> (s: SupervisorTreeState)
        ensures
            s.config_path@ == config_path@,
    {
        SupervisorTreeState { config_path }
    }

    /// `Shutdown` stops the tree; a request for the configuration does not.
    pub fn handle(&self, msg: &SupervisorTreeMsg, state: &SupervisorTreeState) -> (r: Flow)
        ensures
            r == (if msg is Shutdown { Flow::Stop } else { Flow::Continue }),
    {
        match msg {
            SupervisorTreeMsg::GetConfig => Flow::Continue,
            SupervisorTreeMsg::Shutdown => Flow::Stop,
        }
    }
}

pub struct DatabaseActor;

pub struct DatabaseActorState {
    pub url: String,
    pub max_connections: u32,
}

pub enum DatabaseActorMsg {
    Query(String),
    Connect,
    Disconnect,
}

impl DatabaseActor {
    pub fn pre_start(&self, url: String, max_connections: u32) -> (s: DatabaseActorState)
        ensures
            s.url@ == url@,
            s.max_connections == max_connections,
    {
        DatabaseActorState { url, max_connections }
    }

    /// `Disconnect` stops the actor; queries and connects leave it running.
    pub fn handle(&self, msg: &DatabaseActorMsg, state: &DatabaseActorState) -> (r: Flow)
        ensures
            r == (if msg is Disconnect { Flow::Stop } else { Flow::Continue }),
    {
        match msg {
            DatabaseActorMsg::Query(_) => Flow::Continue,
            DatabaseActorMsg::Connect => Flow::Continue,
            DatabaseActorMsg::Disconnect => Flow::Stop,
        }
    }
}

pub struct CryptoActor;

pub struct CryptoActorState {
    algorithm: String,
}

pub enum CryptoActorMsg {
    Encrypt { plaintext: Vec<u8>, aad: Vec<u8> },
    Decrypt { ciphertext: Vec<u8>, aad: Vec<u8> },
    RotateKeys,
}

impl CryptoActorState {
    pub closed spec fn algorithm_view(&self) -> Seq<char> {
        self.algorithm@
    }
}

impl CryptoActor {
    pub fn pre_start(&self, algorithm: String) -> (s: CryptoActorState)
        ensures
            s.algorithm_view() == algorithm@,
    {
        CryptoActorState { algorithm }
    }

    /// The number of bytes that a request carries (none for a key rotation);
    /// the actor never stops on its own.
    pub fn handle(&self, msg: &CryptoActorMsg, state: &CryptoActorState) -> (r: (usize, Flow))
        ensures
            r.1 == Flow::Continue,
            r.0 == (match *msg {
                CryptoActorMsg::Encrypt { plaintext, .. } => plaintext.len(),
                CryptoActorMsg::Decrypt { ciphertext, .. } => ciphertext.len(),
                CryptoActorMsg::RotateKeys => 0,
            }),
    {
        match msg {
            CryptoActorMsg::Encrypt { plaintext, .. } => (plaintext.len(), Flow::Continue),
            CryptoActorMsg::Decrypt { ciphertext, .. } => (ciphertext.len(), Flow::Continue),
            CryptoActorMsg::RotateKeys => (0, Flow::Continue),
        }
    }
}

pub struct ConfigActor;

pub struct ConfigActorState {
    pub config_path: String,
}

pub enum ConfigActorMsg {
    Reload,
    ConfigChanged(String),
}

/// The work a configuration message asks of the runtime: reload the
/// configuration script at a path, or re-hash a changed file and check it.
pub enum ConfigAction {
    Reload { path: String },
    CheckIntegrity { path: String },
}

impl ConfigActor {
    pub fn pre_start(&self, config_path: String) -> (s: ConfigActorState)
        ensures
            s.config_path@ == config_path@,
    {
        ConfigActorState { config_path }
    }

    /// `Reload` reloads the watched path; `ConfigChanged` checks the
    /// changed file.
    pub fn handle(&self, msg: &ConfigActorMsg, state: &ConfigActorState) -> (r: ConfigAction)
        ensures
            match *msg {
                ConfigActorMsg::Reload => r matches ConfigAction::Reload { path } && path@ == state.config_path@,
                ConfigActorMsg::ConfigChanged(p) => r matches ConfigAction::CheckIntegrity { path } && path@ == p@,
            },
    {
        match msg {
            ConfigActorMsg::Reload => ConfigAction::Reload { path: to_owned(state.config_path.as_str()) },
            ConfigActorMsg::ConfigChanged(p) => ConfigAction::CheckIntegrity { path: to_owned(p.as_str()) },
        }
    }
}

pub struct AIActor;

pub struct AIActorState {
    model_loaded: bool,
}

pub enum AIActorMsg {
    LoadModel,
    Moderate { content_id: String, content: Option<String> },
    DeepfakeCheck { user_id: String },
}

/// The work an AI message asks of the runtime.
pub enum AIAction {
    Nothing,
    /// Moderate this text (missing content is moderated as empty text).
    ModerateText { content_id: String, text: String },
    QueueDeepfakeCheck { user_id: String },
}

impl AIActorState {
    pub closed spec fn loaded(&self) -> bool {
        self.model_loaded
    }
}

impl AIActor {
    /// An AI actor starts with its models loaded.
    pub fn pre_start(&self) -> (s: AIActorState)
        ensures
            s.loaded(),
    {
        AIActorState { model_loaded: true }
    }

    pub fn handle(&self, msg: &AIActorMsg, state: &mut AIActorState) -> (r: AIAction)
        ensures
            msg is LoadModel ==> final(state).loaded() && r is Nothing,
            !(msg is LoadModel) ==> final(state).loaded() == old(state).loaded(),
            match *msg {
                AIActorMsg::Moderate { content_id, content } =>
                    r matches AIAction::ModerateText { content_id: c, text }
                        && c@ == content_id@
                        && text@ == (match content { Some(t) => t@, None => Seq::<char>::empty() }),
                AIActorMsg::DeepfakeCheck { user_id } =>
                    r matches AIAction::QueueDeepfakeCheck { user_id: u } && u@ == user_id@,
                AIActorMsg::LoadModel => true,
            },
    {
        match msg {
            AIActorMsg::LoadModel => {
                state.model_loaded = true;
                AIAction::Nothing
            },
            AIActorMsg::Moderate { content_id, content } => {
                let text = match content {
                    Some(t) => to_owned(t.as_str()),
                    None => String::new(),
                };
                AIAction::ModerateText { content_id: to_owned(content_id.as_str()), text }
            },
            AIActorMsg::DeepfakeCheck { user_id } => {
                AIAction::QueueDeepfakeCheck { user_id: to_owned(user_id.as_str()) }
            },
        }
    }
}

// ───────────────────────── background jobs ─────────────────────────

pub struct JobsActor;

/// The background jobs, in the order in which a full run schedules them.
#[derive(Debug, Clone, Copy, PartialEq, Eq, Structural)]
pub enum JobKind {
    Payouts,
    Staking,
    Moderation,
    Cleanup,
    Notifications,
    AnalyticsSnapshot,
}

/// The switches of the jobs configuration: a master switch and one per job.
#[derive(Debug, Clone, Copy, PartialEq, Eq, Structural)]
pub struct JobSwitches {
    pub enabled: bool,
    pub payouts: bool,
    pub staking: bool,
    pub moderation: bool,
    pub cleanup: bool,
    pub notifications: bool,
    pub analytics: bool,
}

pub open spec fn when_on(on: bool, k: JobKind) -> Seq<JobKind> {
    if on { seq![k] } else { Seq::empty() }
}

/// The jobs that a full run schedules: none when the master switch is off,
/// else every job whose switch is on, in the fixed order.
pub open spec fn jobs_due(sw: JobSwitches) -> Seq<JobKind> {
    if !sw.enabled {
        Seq::empty()
    } else {
        when_on(sw.payouts, JobKind::Payouts) + when_on(sw.staking, JobKind::Staking)
            + when_on(sw.moderation, JobKind::Moderation) + when_on(sw.cleanup, JobKind::Cleanup)
            + when_on(sw.notifications, JobKind::Notifications)
            + when_on(sw.analytics, JobKind::AnalyticsSnapshot)
    }
}

/// What the ledger keeps of a job's latest run.
#[derive(Debug, Clone)]
pub struct JobRun {
    /// The run's result, as JSON text.
    pub result: String,
    pub run_at: String,
    pub runs: i64,
    /// The result of the run before, as JSON text.
    pub last_result: Option<String>,
}

pub struct JobRunView {
    pub result: Seq<char>,
    pub run_at: Seq<char>,
    pub runs: int,
    pub last_result: Option<Seq<char>>,
}

impl JobRun {
    pub open spec fn view_run(&self) -> JobRunView {
        JobRunView {
            result: self.result@,
            run_at: self.run_at@,
            runs: self.runs as int,
            last_result: match self.last_result { Some(t) => Some(t@), None => None },
        }
    }
}

pub open spec fn ledger_view(v: Seq<(String, JobRun)>) -> Seq<(Seq<char>, JobRunView)> {
    v.map_values(|p: (String, JobRun)| (p.0@, p.1.view_run()))
}

pub open spec fn find_job(l: Seq<(Seq<char>, JobRunView)>, name: Seq<char>, from: int) -> Option<int>
    decreases l.len() - from,
{
    if from < 0 || from >= l.len() {
        None
    } else if l[from].0 == name {
        Some(from)
    } else {
        find_job(l, name, from + 1)
    }
}

/// The ledger after a run of `name`: the first entry of that name is
/// replaced by the new result, its count raised by one and its previous
/// result kept as the last one; a job never run before gets an entry with
/// a count of one.
pub open spec fn record_spec(l: Seq<(Seq<char>, JobRunView)>, name: Seq<char>, result: Seq<char>, run_at: Seq<char>)
    -> Seq<(Seq<char>, JobRunView)> {
    match find_job(l, name, 0) {
        Some(i) => l.update(i, (name, JobRunView {
            result,
            run_at,
            runs: l[i].1.runs + 1,
            last_result: Some(l[i].1.result),
        })),
        None => l.push((name, JobRunView { result, run_at, runs: 1, last_result: None })),
    }
}

/// How many times the ledger says that `name` ran.
pub open spec fn runs_of(l: Seq<(Seq<char>, JobRunView)>, name: Seq<char>) -> int {
    match find_job(l, name, 0) {
        Some(i) => l[i].1.runs,
        None => 0,
    }
}

/// The ledger's count for `name` has room for one more run.
pub open spec fn can_record(l: Seq<(Seq<char>, JobRunView)>, name: Seq<char>) -> bool {
    runs_of(l, name) < i64::MAX
}

pub proof fn lemma_find_job_bounds(l: Seq<(Seq<char>, JobRunView)>, name: Seq<char>, from: int)
    requires
        0 <= from,
    ensures
        find_job(l, name, from) matches Some(i) ==> from <= i < l.len() && l[i].0 == name,
    decreases l.len() - from,
{
    if from < l.len() && l[from].0 != name {
        lemma_find_job_bounds(l, name, from + 1);
    }
}

/// The run records of the jobs actor and the time each job last ran.
pub struct JobsActorState {
    pub switches: JobSwitches,
    pub interval_secs: u64,
    pub runs: Vec<(String, JobRun)>,
    pub last_run_at: Vec<(String, String)>,
}

impl JobsActorState {
    pub open spec fn ledger(&self) -> Seq<(Seq<char>, JobRunView)> {
        ledger_view(self.runs@)
    }

    pub open spec fn last_runs(&self) -> Seq<(Seq<char>, Seq<char>)> {
        pairs_view(self.last_run_at@)
    }

    /// A fresh state: nothing has run yet.
    pub fn new(switches: JobSwitches, interval_secs: u64) -> (r: Self)
        ensures
            r.switches == switches,
            r.interval_secs == interval_secs,
            r.ledger() == Seq::<(Seq<char>, JobRunView)>::empty(),
            r.last_runs() == Seq::<(Seq<char>, Seq<char>)>::empty(),
    {
        let r = JobsActorState { switches, interval_secs, runs: Vec::new(), last_run_at: Vec::new() };
        assert(r.ledger() =~= Seq::<(Seq<char>, JobRunView)>::empty());
        assert(r.last_runs() =~= Seq::<(Seq<char>, Seq<char>)>::empty());
        r
    }

    /// Records a run of `name` that gave `result` (JSON text) at `run_at`,
    /// and notes `stamp` as the time it last ran.
    pub fn record(&mut self, name: &str, result: String, run_at: String, stamp: String)
        requires
            can_record(old(self).ledger(), name@),
        ensures
            final(self).ledger() == record_spec(old(self).ledger(), name@, result@, run_at@),
            final(self).last_runs() == upsert(old(self).last_runs(), name@, stamp@),
            final(self).switches == old(self).switches,
            final(self).interval_secs == old(self).interval_secs,
    {
        upsert_vec(&mut self.last_run_at, to_owned(name), stamp);
        let ghost l0 = ledger_view(self.runs@);
        let mut i: usize = 0;
        while i < self.runs.len()
            invariant
                i <= self.runs.len(),
                l0 == ledger_view(self.runs@),
                l0 == old(self).ledger(),
                can_record(l0, name@),
                find_job(l0, name@, 0) == find_job(l0, name@, i as int),
                self.last_runs() == upsert(old(self).last_runs(), name@, stamp@),
                self.switches == old(self).switches,
                self.interval_secs == old(self).interval_secs,
            decreases self.runs.len() - i,
        {
            if str_eq(self.runs[i].0.as_str(), name) {
                assert(l0[i as int].0 == name@);
                assert(find_job(l0, name@, i as int) == Some(i as int));
                let prev_runs = self.runs[i].1.runs;
                let prev_result = to_owned(self.runs[i].1.result.as_str());
                let entry = JobRun { result, run_at, runs: prev_runs + 1, last_result: Some(prev_result) };
                self.runs.set(i, (to_owned(name), entry));
                assert(ledger_view(self.runs@) =~= record_spec(l0, name@, result@, run_at@));
                return;
            }
            i += 1;
        }
        assert(find_job(l0, name@, self.runs.len() as int) is None);
        let entry = JobRun { result, run_at, runs: 1, last_result: None };
        self.runs.push((to_owned(name), entry));
        assert(ledger_view(self.runs@) =~= record_spec(l0, name@, result@, run_at@));
    }
}

/// Recording a run raises that job's count by exactly one and leaves the
/// new result as the job's result.
pub proof fn law_record_counts_runs(l: Seq<(Seq<char>, JobRunView)>, name: Seq<char>, result: Seq<char>, run_at: Seq<char>)
    ensures
        runs_of(record_spec(l, name, result, run_at), name) == runs_of(l, name) + 1,
        find_job(record_spec(l, name, result, run_at), name, 0) matches Some(i)
            && record_spec(l, name, result, run_at)[i].1.result == result,
{
    lemma_find_job_bounds(l, name, 0);
    let r = record_spec(l, name, result, run_at);
    match find_job(l, name, 0) {
        Some(i) => {
            lemma_find_job_prefix(l, r, name, 0, i);
        },
        None => {
            lemma_find_job_none_prefix(l, r, name, 0);
        },
    }
}

/// Two ledgers that agree on their first `i` names, where the first has no
/// `name` before `i` and the second has it at `i`, find it at `i`.
proof fn lemma_find_job_prefix(l: Seq<(Seq<char>, JobRunView)>, r: Seq<(Seq<char>, JobRunView)>, name: Seq<char>, from: int, i: int)
    requires
        0 <= from <= i < r.len(),
        r[i].0 == name,
        i < l.len(),
        find_job(l, name, from) == Some(i),
        forall|j: int| 0 <= j < i ==> r[j].0 == l[j].0,
    ensures
        find_job(r, name, from) == Some(i),
    decreases i - from,
{
    if from < i {
        lemma_find_job_prefix(l, r, name, from + 1, i);
    }
}

proof fn lemma_find_job_none_prefix(l: Seq<(Seq<char>, JobRunView)>, r: Seq<(Seq<char>, JobRunView)>, name: Seq<char>, from: int)
    requires
        0 <= from <= l.len(),
        r.len() == l.len() + 1,
        r[l.len() as int].0 == name,
        find_job(l, name, from) is None,
        forall|j: int| 0 <= j < l.len() ==> r[j].0 == l[j].0,
    ensures
        find_job(r, name, from) == Some(l.len() as int),
    decreases l.len() - from,
{
    if from < l.len() {
        lemma_find_job_none_prefix(l, r, name, from + 1);
    }
}

impl JobsActor {
    /// A full run: the jobs that the switches ask for, in order.
    pub fn run_all(&self, state: &JobsActorState) -> (r: Vec<JobKind>)
        ensures
            r@ == jobs_due(state.switches),
    {
        let sw = state.switches;
        let mut out: Vec<JobKind> = Vec::new();
        if sw.enabled {
            if sw.payouts { out.push(JobKind::Payouts); }
            if sw.staking { out.push(JobKind::Staking); }
            if sw.moderation { out.push(JobKind::Moderation); }
            if sw.cleanup { out.push(JobKind::Cleanup); }
            if sw.notifications { out.push(JobKind::Notifications); }
            if sw.analytics { out.push(JobKind::AnalyticsSnapshot); }
        }
        assert(out@ =~= jobs_due(sw));
        out
    }

    /// The ledger name under which a job's runs are recorded.
    pub fn job_name(&self, kind: JobKind) -> (r: &'static str)
        ensures
            r@ == job_name_spec(kind),
    {
        proof {
            reveal_strlit("payouts");
            reveal_strlit("staking");
            reveal_strlit("moderation");
            reveal_strlit("cleanup");
            reveal_strlit("notifications");
            reveal_strlit("analytics");
        }
        match kind {
            JobKind::Payouts => "payouts",
            JobKind::Staking => "staking",
            JobKind::Moderation => "moderation",
            JobKind::Cleanup => "cleanup",
            JobKind::Notifications => "notifications",
            JobKind::AnalyticsSnapshot => "analytics",
        }
    }
}

pub open spec fn job_name_spec(kind: JobKind) -> Seq<char> {
    match kind {
        JobKind::Payouts => "payouts"@,
        JobKind::Staking => "staking"@,
        JobKind::Moderation => "moderation"@,
        JobKind::Cleanup => "cleanup"@,
        JobKind::Notifications => "notifications"@,
        JobKind::AnalyticsSnapshot => "analytics"@,
    }
}

pub open spec fn job_kind_of(name: Seq<char>) -> Option<JobKind> {
    if name == "payouts"@ { Some(JobKind::Payouts) }
    else if name == "staking"@ { Some(JobKind::Staking) }
    else if name == "moderation"@ { Some(JobKind::Moderation) }
    else if name == "cleanup"@ { Some(JobKind::Cleanup) }
    else if name == "notifications"@ { Some(JobKind::Notifications) }
    else if name == "analytics"@ { Some(JobKind::AnalyticsSnapshot) }
    else { None }
}

impl JobsActor {
    /// The job a name triggers by hand; an unknown name triggers none.
    pub fn job_kind(&self, name: &str) -> (r: Option<JobKind>)
        ensures
            r == job_kind_of(name@),
    {
        if str_eq(name, "payouts") { Some(JobKind::Payouts) }
        else if str_eq(name, "staking") { Some(JobKind::Staking) }
        else if str_eq(name, "moderation") { Some(JobKind::Moderation) }
        else if str_eq(name, "cleanup") { Some(JobKind::Cleanup) }
        else if str_eq(name, "notifications") { Some(JobKind::Notifications) }
        else if str_eq(name, "analytics") { Some(JobKind::AnalyticsSnapshot) }
        else { None }
    }
}

/// Every job is found again by the name its runs are recorded under.
pub proof fn law_job_names_round_trip(kind: JobKind)
    ensures
        job_kind_of(job_name_spec(kind)) == Some(kind),
{
    reveal_strlit("payouts");
    reveal_strlit("staking");
    reveal_strlit("moderation");
    reveal_strlit("cleanup");
    reveal_strlit("notifications");
    reveal_strlit("analytics");
    let p = "payouts"@;
    let s = "staking"@;
    let m = "moderation"@;
    let c = "cleanup"@;
    let n = "notifications"@;
    let a = "analytics"@;
    assert(p != s && p != c && s != c) by {
        assert(p[0] != s[0] && p[0] != c[0] && s[0] != c[0]);
    }
    assert(m.len() != p.len() && n.len() != p.len() && a.len() != p.len());
    assert(m.len() != n.len() && m.len() != a.len() && n.len() != a.len());
}

// ───────────────────────── calls ─────────────────────────

pub struct WebRTCActor;

/// Counters of the call actor, and the call configuration it runs with.
pub struct WebRTCActorState {
    pub config: WebRtcConfig,
    pub calls_started: u64,
    pub calls_ended: u64,
    pub quality_samples: u64,
    pub recordings_started: u64,
    pub billed_total: i64,
}

/// What the runtime records when a call starts.
#[derive(Debug, Clone)]
pub struct CallPlan {
    /// The call's participants: the caller, then the callee when there is one.
    pub participants: Vec<i64>,
    /// Who is billed as host: the callee, or the caller for a solo call.
    pub host_id: i64,
    pub cost_per_minute: i64,
}

/// The actor's statistics, as reported on request.
#[derive(Debug, Clone)]
pub struct WebRtcStats {
    pub calls_started: u64,
    pub calls_ended: u64,
    pub active_calls: u64,
    pub quality_samples: u64,
    pub recordings_started: u64,
    pub billed_total: i64,
    pub signal_mode: String,
}

pub open spec fn participants_of(caller_id: i64, callee_id: i64) -> Seq<i64> {
    if callee_id > 0 { seq![caller_id, callee_id] } else { seq![caller_id] }
}

/// Where a call's recording is stored: under `enc://recordings/` when
/// recordings are encrypted, else under `recordings/`, then the call and
/// the start time.
pub open spec fn recording_key_spec(encrypted: bool, call_id: Seq<char>, timestamp: int) -> Seq<char> {
    (if encrypted { "enc://recordings/"@ } else { "recordings/"@ }) + call_id + "/"@ + int_text(timestamp)
}

/// The ids of the segments still being recorded, in order.
pub open spec fn recording_segments(s: Seq<(i64, Seq<char>)>) -> Seq<i64>
    decreases s.len(),
{
    if s.len() == 0 {
        Seq::empty()
    } else {
        let rest = recording_segments(s.drop_last());
        if s.last().1 == "recording"@ { rest.push(s.last().0) } else { rest }
    }
}

impl WebRTCActor {
    pub fn pre_start(&self, config: WebRtcConfig) -> (s: WebRTCActorState)
        ensures
            s.config == config,
            s.calls_started == 0, s.calls_ended == 0, s.quality_samples == 0,
            s.recordings_started == 0, s.billed_total == 0,
    {
        WebRTCActorState { config, calls_started: 0, calls_ended: 0, quality_samples: 0, recordings_started: 0, billed_total: 0 }
    }
}

impl WebRTCActorState {
    /// A call starts: counted, with the participants and the billed host.
    pub fn call_started(&mut self, caller_id: i64, callee_id: i64) -> (r: CallPlan)
        requires
            old(self).calls_started < u64::MAX,
        ensures
            final(self).calls_started == old(self).calls_started + 1,
            final(self).calls_ended == old(self).calls_ended,
            final(self).quality_samples == old(self).quality_samples,
            final(self).recordings_started == old(self).recordings_started,
            final(self).billed_total == old(self).billed_total,
            final(self).config == old(self).config,
            r.participants@ == participants_of(caller_id, callee_id),
            r.host_id == (if callee_id > 0 { callee_id } else { caller_id }),
            r.cost_per_minute == old(self).config.cost_per_minute,
    {
        self.calls_started = self.calls_started + 1;
        let mut participants: Vec<i64> = Vec::new();
        participants.push(caller_id);
        if callee_id > 0 {
            participants.push(callee_id);
        }
        assert(participants@ =~= participants_of(caller_id, callee_id));
        let host_id = if callee_id > 0 { callee_id } else { caller_id };
        CallPlan { participants, host_id, cost_per_minute: self.config.cost_per_minute }
    }

    /// A call ends, with the amount its billing came to when it was settled.
    pub fn call_ended(&mut self, billed: Option<i64>)
        requires
            old(self).calls_ended < u64::MAX,
            billed matches Some(b) ==> i64::MIN <= old(self).billed_total + b <= i64::MAX,
        ensures
            final(self).calls_ended == old(self).calls_ended + 1,
            final(self).billed_total == old(self).billed_total + (match billed { Some(b) => b as int, None => 0 }),
            final(self).calls_started == old(self).calls_started,
            final(self).quality_samples == old(self).quality_samples,
            final(self).recordings_started == old(self).recordings_started,
            final(self).config == old(self).config,
    {
        if let Some(b) = billed {
            self.billed_total = self.billed_total + b;
        }
        self.calls_ended = self.calls_ended + 1;
    }

    /// A quality sample was stored.
    pub fn quality_sampled(&mut self)
        requires
            old(self).quality_samples < u64::MAX,
        ensures
            final(self).quality_samples == old(self).quality_samples + 1,
            final(self).calls_started == old(self).calls_started,
            final(self).calls_ended == old(self).calls_ended,
            final(self).recordings_started == old(self).recordings_started,
            final(self).billed_total == old(self).billed_total,
            final(self).config == old(self).config,
    {
        self.quality_samples = self.quality_samples + 1;
    }

    /// The storage key of a recording that starts at `timestamp`, and
    /// whether it is encrypted.
    pub fn recording_key(&self, call_id: &str, timestamp: i64) -> (r: (String, bool))
        ensures
            r.1 == self.config.recording_encryption,
            r.0@ == recording_key_spec(self.config.recording_encryption, call_id@, timestamp as int),
    {
        let encrypted = self.config.recording_encryption;
        let mut key = String::new();
        if encrypted {
            push_str(&mut key, "enc://recordings/");
        } else {
            push_str(&mut key, "recordings/");
        }
        push_str(&mut key, call_id);
        push_str(&mut key, "/");
        push_int(&mut key, timestamp);
        proof {
            reveal_strlit("enc://recordings/");
            reveal_strlit("recordings/");
            reveal_strlit("/");
        }
        assert(key@ =~= recording_key_spec(encrypted, call_id@, timestamp as int));
        (key, encrypted)
    }

    /// A recording was started.
    pub fn recording_started(&mut self)
        requires
            old(self).recordings_started < u64::MAX,
        ensures
            final(self).recordings_started == old(self).recordings_started + 1,
            final(self).calls_started == old(self).calls_started,
            final(self).calls_ended == old(self).calls_ended,
            final(self).quality_samples == old(self).quality_samples,
            final(self).billed_total == old(self).billed_total,
            final(self).config == old(self).config,
    {
        self.recordings_started = self.recordings_started + 1;
    }

    /// The statistics: the counters, the calls still active (started less
    /// ended, never below zero) and the signaling mode.
    pub fn stats(&self) -> (r: WebRtcStats)
        ensures
            r.calls_started == self.calls_started,
            r.calls_ended == self.calls_ended,
            r.active_calls == (if self.calls_started >= self.calls_ended { (self.calls_started - self.calls_ended) as u64 } else { 0u64 }),
            r.quality_samples == self.quality_samples,
            r.recordings_started == self.recordings_started,
            r.billed_total == self.billed_total,
            r.signal_mode@ == self.config.signal_mode@,
    {
        WebRtcStats {
            calls_started: self.calls_started,
            calls_ended: self.calls_ended,
            active_calls: self.calls_started.saturating_sub(self.calls_ended),
            quality_samples: self.quality_samples,
            recordings_started: self.recordings_started,
            billed_total: self.billed_total,
            signal_mode: to_owned(self.config.signal_mode.as_str()),
        }
    }
}

pub open spec fn segments_view(s: Seq<(i64, String)>) -> Seq<(i64, Seq<char>)> {
    s.map_values(|p: (i64, String)| (p.0, p.1@))
}

/// Of a call's recording segments (id and status), the ids of those whose
/// status is still `recording`: the segments that stopping finalizes.
pub fn segments_to_finalize(segments: &Vec<(i64, String)>) -> (r: Vec<i64>)
    ensures
        r@ == recording_segments(segments_view(segments@)),
{
    let mut out: Vec<i64> = Vec::new();
    let mut i: usize = 0;
    while i < segments.len()
        invariant
            i <= segments.len(),
            out@ == recording_segments(segments_view(segments@).take(i as int)),
        decreases segments.len() - i,
    {
        let ghost sv = segments_view(segments@);
        assert(sv.take(i + 1).drop_last() =~= sv.take(i as int));
        assert(sv.take(i + 1).last() == sv[i as int]);
        if str_eq(segments[i].1.as_str(), "recording") {
            out.push(segments[i].0);
        }
        i += 1;
    }
    assert(segments_view(segments@).take(segments.len() as int) =~= segments_view(segments@));
    out
}

} // verus!
