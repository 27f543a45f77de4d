use ysh::actors::{
    segments_to_finalize, AIAction, AIActor, AIActorMsg, ConfigAction, ConfigActor, ConfigActorMsg, CryptoActor,
    CryptoActorMsg, DatabaseActor, DatabaseActorMsg, Flow, JobKind, JobSwitches, JobsActor, JobsActorState,
    NotificationActor, NotificationActorState, NotificationMsg, ServerActor, ServerActorMsg, SessionSupervisor,
    SessionSupervisorMsg, SupervisorTree, SupervisorTreeMsg, WebRTCActor,
};
use ysh::config::default_webrtc;

#[test]
fn notification_counters_follow_messages() {
    let actor = NotificationActor;
    let mut s = actor.pre_start();
    actor.handle(&NotificationMsg::SendEmail { notification_id: 1, to: "a@b".into(), subject: "s".into(), body: "b".into(), username: "u".into() }, &mut s);
    actor.handle(&NotificationMsg::SendPush { notification_id: 2, tokens: vec!["t".into()], title: "t".into(), body: "b".into() }, &mut s);
    actor.handle(&NotificationMsg::InApp { notification_id: 3, user_id: 9, title: "t".into(), body: "b".into() }, &mut s);
    actor.handle(&NotificationMsg::MarkSent { notification_id: 1 }, &mut s);
    actor.handle(&NotificationMsg::MarkFailed { notification_id: 2, reason: "r".into() }, &mut s);
    actor.handle(&NotificationMsg::GetStats, &mut s);
    assert_eq!(s, NotificationActorState { queued: 3, sent: 1, failed: 1 });
}

#[test]
fn session_count_never_goes_negative() {
    let sup = SessionSupervisor;
    let mut s = sup.pre_start(10);
    sup.handle(&SessionSupervisorMsg::SessionEnded { user_id: "1".into() }, &mut s);
    assert_eq!(s.active_sessions, 0);
    sup.handle(&SessionSupervisorMsg::SessionStarted { user_id: "1".into() }, &mut s);
    sup.handle(&SessionSupervisorMsg::SessionStarted { user_id: "2".into() }, &mut s);
    sup.handle(&SessionSupervisorMsg::GetActiveCount, &mut s);
    assert_eq!(s.active_sessions, 2);
    sup.handle(&SessionSupervisorMsg::SessionEnded { user_id: "2".into() }, &mut s);
    assert_eq!(s.active_sessions, 1);
    assert_eq!(s.max_sessions, 10);
}

#[test]
fn service_actors_stop_on_their_stop_messages() {
    let server = ServerActor;
    let st = server.pre_start("0.0.0.0".into(), 8080);
    assert_eq!(server.handle(&ServerActorMsg::Start, &st), Flow::Continue);
    assert_eq!(server.handle(&ServerActorMsg::Stop, &st), Flow::Stop);
    let tree = SupervisorTree;
    let ts = tree.pre_start("config.lua".into());
    assert_eq!(ts.config_path, "config.lua");
    assert_eq!(tree.handle(&SupervisorTreeMsg::GetConfig, &ts), Flow::Continue);
    assert_eq!(tree.handle(&SupervisorTreeMsg::Shutdown, &ts), Flow::Stop);
    let db = DatabaseActor;
    let ds = db.pre_start("redb://x".into(), 4);
    assert_eq!(db.handle(&DatabaseActorMsg::Query("q".into()), &ds), Flow::Continue);
    assert_eq!(db.handle(&DatabaseActorMsg::Connect, &ds), Flow::Continue);
    assert_eq!(db.handle(&DatabaseActorMsg::Disconnect, &ds), Flow::Stop);
    let crypto = CryptoActor;
    let cs = crypto.pre_start("aes-256-gcm".into());
    assert_eq!(crypto.handle(&CryptoActorMsg::Encrypt { plaintext: vec![1, 2, 3], aad: vec![] }, &cs), (3, Flow::Continue));
    assert_eq!(crypto.handle(&CryptoActorMsg::RotateKeys, &cs), (0, Flow::Continue));
}

#[test]
fn config_and_ai_actors_hand_out_work() {
    let ca = ConfigActor;
    let st = ca.pre_start("/etc/ysh.lua".into());
    assert!(matches!(ca.handle(&ConfigActorMsg::Reload, &st), ConfigAction::Reload { path } if path == "/etc/ysh.lua"));
    assert!(matches!(ca.handle(&ConfigActorMsg::ConfigChanged("/tmp/x".into()), &st), ConfigAction::CheckIntegrity { path } if path == "/tmp/x"));
    let ai = AIActor;
    let mut s = ai.pre_start();
    assert!(matches!(ai.handle(&AIActorMsg::Moderate { content_id: "m1".into(), content: None }, &mut s),
        AIAction::ModerateText { content_id, text } if content_id == "m1" && text.is_empty()));
    assert!(matches!(ai.handle(&AIActorMsg::DeepfakeCheck { user_id: "7".into() }, &mut s),
        AIAction::QueueDeepfakeCheck { user_id } if user_id == "7"));
    assert!(matches!(ai.handle(&AIActorMsg::LoadModel, &mut s), AIAction::Nothing));
}

#[test]
fn full_job_run_follows_switches() {
    let all_on = JobSwitches { enabled: true, payouts: true, staking: true, moderation: true, cleanup: true, notifications: true, analytics: true };
    let st = JobsActorState::new(all_on, 60);
    let jobs = JobsActor;
    assert_eq!(jobs.run_all(&st), vec![JobKind::Payouts, JobKind::Staking, JobKind::Moderation, JobKind::Cleanup, JobKind::Notifications, JobKind::AnalyticsSnapshot]);
    let some = JobSwitches { staking: false, cleanup: false, ..all_on };
    assert_eq!(jobs.run_all(&JobsActorState::new(some, 60)), vec![JobKind::Payouts, JobKind::Moderation, JobKind::Notifications, JobKind::AnalyticsSnapshot]);
    let off = JobSwitches { enabled: false, ..all_on };
    assert!(jobs.run_all(&JobsActorState::new(off, 60)).is_empty());
    assert_eq!(jobs.job_name(JobKind::AnalyticsSnapshot), "analytics");
}

#[test]
fn job_ledger_counts_runs() {
    let sw = JobSwitches { enabled: true, payouts: true, staking: true, moderation: true, cleanup: true, notifications: true, analytics: true };
    let mut st = JobsActorState::new(sw, 60);
    st.record("payouts", "{\"n\":1}".into(), "2024-01-01T00:00:00Z".into(), "t1".into());
    st.record("staking", "{}".into(), "2024-01-01T00:00:01Z".into(), "t2".into());
    st.record("payouts", "{\"n\":2}".into(), "2024-01-01T00:01:00Z".into(), "t3".into());
    assert_eq!(st.runs.len(), 2);
    let (name, run) = &st.runs[0];
    assert_eq!(name, "payouts");
    assert_eq!(run.runs, 2);
    assert_eq!(run.result, "{\"n\":2}");
    assert_eq!(run.last_result.as_deref(), Some("{\"n\":1}"));
    assert_eq!(st.runs[1].1.runs, 1);
    assert_eq!(st.runs[1].1.last_result, None);
    assert_eq!(st.last_run_at, vec![("payouts".to_string(), "t3".to_string()), ("staking".to_string(), "t2".to_string())]);
}

#[test]
fn call_counters_and_plans() {
    let actor = WebRTCActor;
    let mut st = actor.pre_start(default_webrtc());
    let plan = st.call_started(1, 2);
    assert_eq!(plan.participants, vec![1, 2]);
    assert_eq!(plan.host_id, 2);
    assert_eq!(plan.cost_per_minute, 30);
    let solo = st.call_started(5, 0);
    assert_eq!(solo.participants, vec![5]);
    assert_eq!(solo.host_id, 5);
    st.call_ended(Some(90));
    st.quality_sampled();
    st.recording_started();
    let stats = st.stats();
    assert_eq!((stats.calls_started, stats.calls_ended, stats.active_calls), (2, 1, 1));
    assert_eq!((stats.quality_samples, stats.recordings_started, stats.billed_total), (1, 1, 90));
    assert_eq!(stats.signal_mode, "sfu_passthrough");
    st.call_ended(None);
    st.call_ended(None);
    assert_eq!(st.stats().active_calls, 0);
}

#[test]
fn recording_keys_and_segments() {
    let actor = WebRTCActor;
    let mut cfg = default_webrtc();
    let st = actor.pre_start(cfg.clone());
    assert_eq!(st.recording_key("c1", 1700000000), ("enc://recordings/c1/1700000000".to_string(), true));
    cfg.recording_encryption = false;
    let st = actor.pre_start(cfg);
    assert_eq!(st.recording_key("c1", -5), ("recordings/c1/-5".to_string(), false));
    let segs = vec![(1, "recording".to_string()), (2, "done".to_string()), (3, "recording".to_string())];
    assert_eq!(segments_to_finalize(&segs), vec![1, 3]);
}

#[test]
fn jobs_are_triggered_by_name() {
    let jobs = JobsActor;
    assert_eq!(jobs.job_kind("cleanup"), Some(JobKind::Cleanup));
    assert_eq!(jobs.job_kind("analytics"), Some(JobKind::AnalyticsSnapshot));
    assert_eq!(jobs.job_kind("vacuum"), None);
    for k in [JobKind::Payouts, JobKind::Staking, JobKind::Moderation, JobKind::Cleanup, JobKind::Notifications, JobKind::AnalyticsSnapshot] {
        assert_eq!(jobs.job_kind(jobs.job_name(k)), Some(k));
    }
}
