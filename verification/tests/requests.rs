use ysh::ai::{categories, decide, match_terms, model_kinds, AICounters, AiModelKind, ModerationDecision};
use ysh::api::{
    csv_disposition, default_range, export_format, export_plan, limit_from, moment_gate, new_call_id, plan_call,
    require_admin, to_csv, valid_region, CallError, CallType, CsvCell, ExportDataset, ExportError, ExportFormat,
    MomentGate,
};
use ysh::auth::AuthUser;
use ysh::economy::{adjust_balance, claimable_rewards, request_payout, stake, unstake_amount, RequestError, UnstakeError};
use ysh::model::{SpendingLimit, Wallet};
use ysh::economy::{deposit_request, send_gift, transfer_request, withdraw_request};
use ysh::model::seeded_gift_catalog;
use ysh::api::{flag_request, report_outcome, report_request, ReportError};
use ysh::api::{appeal_request, valid_role, AppealError};
use ysh::api::{
    adjustment_request, agency_request, chat_session_request, member_request, spending_limit_request, AdjustError,
    AgencyError, ChatError, LimitError,
};

fn admin() -> AuthUser {
    AuthUser { user_id: "1".into(), role: "admin".into() }
}

#[test]
fn calls_are_planned_by_type() {
    assert_eq!(plan_call(1, None, true, None, None).unwrap_err(), CallError::CallTypeRequired);
    assert_eq!(plan_call(1, Some("video"), true, None, None).unwrap_err(), CallError::InvalidCallType);
    assert_eq!(plan_call(1, Some("live"), false, None, None).unwrap_err(), CallError::Disabled);
    let live = plan_call(1, Some("live"), true, Some(9), None).unwrap();
    assert_eq!((live.call_type, live.callee_id, live.participants.clone()), (CallType::Live, 0, vec![1]));
    assert_eq!(plan_call(1, Some("flash"), true, None, None).unwrap_err(), CallError::NoPeer);
    let flash = plan_call(1, Some("flash"), true, None, Some(5)).unwrap();
    assert_eq!((flash.callee_id, flash.participants.clone()), (5, vec![1, 5]));
    assert_eq!(plan_call(1, Some("p2p"), true, None, None).unwrap_err(), CallError::TargetRequired);
    assert_eq!(plan_call(1, Some("p2p"), true, Some(1), None).unwrap_err(), CallError::SelfCall);
    let group = plan_call(1, Some("group"), true, None, None).unwrap();
    assert_eq!((group.callee_id, group.participants.clone()), (0, vec![1]));
    let duo = plan_call(1, Some("duo"), true, Some(3), None).unwrap();
    assert_eq!(duo.participants, vec![1, 3]);
    assert_eq!(CallType::P2P.as_str(), "p2p");
    assert_eq!(new_call_id(7, 1_700_000_000_123_456_789), "call-7-1700000000123456789");
    assert_eq!(new_call_id(-1, 0), "call--1-0");
}

#[test]
fn moments_pass_moderation() {
    let terms = vec!["scam".to_string(), "fraud".to_string()];
    match moment_gate(true, ModerationDecision::Block, &terms) {
        MomentGate::Blocked { message, flag_note } => {
            assert_eq!(message, "Content blocked by moderation: scam, fraud");
            assert_eq!(flag_note, "Auto block: scam, fraud");
        }
        _ => panic!("expected a block"),
    }
    assert!(matches!(moment_gate(true, ModerationDecision::Flag, &terms), MomentGate::Flagged));
    assert!(matches!(moment_gate(false, ModerationDecision::Block, &terms), MomentGate::Clean));
    assert!(matches!(moment_gate(true, ModerationDecision::Allow, &vec![]), MomentGate::Clean));
}

#[test]
fn analytics_exports() {
    let user = AuthUser { user_id: "2".into(), role: "user".into() };
    assert!(require_admin(&admin()));
    assert_eq!(export_plan(&user, None, None), Err(ExportError::NotAdmin));
    assert_eq!(export_plan(&admin(), None, None), Ok((ExportDataset::Users, 30)));
    assert_eq!(export_plan(&admin(), Some("geo"), Some("7")), Ok((ExportDataset::Geo, 7)));
    assert_eq!(export_plan(&admin(), Some("revenue"), Some("x")), Ok((ExportDataset::Revenue, 30)));
    assert_eq!(export_plan(&admin(), Some("pets"), None), Err(ExportError::UnknownDataset("pets".into())));
    assert_eq!(export_format(None), Ok(ExportFormat::Json));
    assert_eq!(export_format(Some("csv")), Ok(ExportFormat::Csv));
    assert_eq!(export_format(Some("xml")), Err(ExportError::UnknownFormat("xml".into())));
    assert_eq!(default_range(Some("14"), 30), 14);
    assert_eq!(limit_from(Some("9999"), 50), 500);
    assert_eq!(limit_from(Some("-3"), 50), -3);
    assert_eq!(limit_from(None, 50), 50);
    assert_eq!(csv_disposition("users"), "attachment; filename=\"users.csv\"");
    assert!(valid_region("EU-West"));
    assert!(!valid_region(""));
    assert!(!valid_region(&"x".repeat(65)));
}

#[test]
fn csv_documents() {
    let headers = vec!["day".to_string(), "count".to_string()];
    let rows = vec![
        vec![CsvCell::Text("2024-01-01".into()), CsvCell::Literal("3".into())],
        vec![CsvCell::Text("say \"hi\"".into()), CsvCell::Literal("null".into())],
    ];
    assert_eq!(to_csv(&headers, &rows), "day,count\n\"2024-01-01\",3\n\"say \"\"hi\"\"\",null\n");
    assert_eq!(to_csv(&vec![], &vec![]), "\n");
}

#[test]
fn moderation_terms() {
    let m = match_terms("Buy cheap CARDING tools here");
    assert_eq!(m.blocked, vec!["carding".to_string()]);
    assert!(m.flagged.is_empty());
    assert_eq!(decide(!m.blocked.is_empty(), false), ModerationDecision::Block);
    assert_eq!(categories(&m), vec!["blocked".to_string()]);
    let m = match_terms("hello nice to meet you");
    assert!(m.blocked.is_empty() && m.flagged.is_empty());
    assert_eq!(decide(false, false), ModerationDecision::Allow);
    let m = match_terms("discussing drug policy");
    assert!(m.blocked.is_empty());
    assert_ne!(decide(!m.blocked.is_empty(), true), ModerationDecision::Block);
    let m = match_terms("scammer at the casino");
    assert_eq!(m.blocked, vec!["scam".to_string(), "scammer".to_string()]);
    assert_eq!(m.flagged, vec!["casino".to_string()]);
    assert_eq!(categories(&m), vec!["blocked".to_string(), "flagged".to_string()]);
}

#[test]
fn model_kinds_and_counters() {
    assert_eq!(AiModelKind::default(), AiModelKind::TextModeration);
    assert_eq!(model_kinds().len(), 7);
    let mut c = AICounters::default();
    c.count_moderation();
    c.count_anomaly(false);
    c.count_anomaly(true);
    c.count_match();
    assert_eq!((c.moderation_checks, c.anomalies_flagged, c.matches_scored), (1, 1, 1));
    let mut full = AICounters { moderation_checks: u64::MAX, ..c };
    full.count_moderation();
    assert_eq!(full.moderation_checks, 0);
}

#[test]
fn staking_requests() {
    let mut w = Wallet::open(1, "t");
    w.deposit(1000, "t");
    let s = stake(&mut w, None, None, None, "2024-05-02", "2024-05", "n");
    assert_eq!(s.outcome.err(), Some(RequestError::AmountRequired));
    let s = stake(&mut w, None, Some(0), None, "2024-05-02", "2024-05", "n");
    assert_eq!(s.outcome.err(), Some(RequestError::AmountNotPositive));
    let s = stake(&mut w, None, Some(10), Some(400), "2024-05-02", "2024-05", "n");
    assert_eq!(s.outcome.err(), Some(RequestError::UnlockDaysOutOfRange));
    let s = stake(&mut w, None, Some(2000), None, "2024-05-02", "2024-05", "n");
    assert_eq!(s.outcome.err(), Some(RequestError::InsufficientFunds { balance: 1000, amount: 2000 }));
    assert_eq!(s.limits_to_store.unwrap().daily_spent, 2000);
    let s = stake(&mut w, None, Some(400), None, "2024-05-02", "2024-05", "n");
    let g = s.outcome.unwrap();
    assert_eq!((g.amount, g.unlock_days, g.receipt_description.as_str()), (400, 30, "Staked 400 YSH"));
    assert_eq!(w.balance, 600);
    w.freeze();
    let s = stake(&mut w, None, Some(1), Some(1), "2024-05-02", "2024-05", "n");
    assert_eq!(s.outcome.err(), Some(RequestError::WalletFrozen));
    w.unfreeze();
    let limits = SpendingLimit { user_id: 1, daily_limit: 100, monthly_limit: 1000, daily_spent: 90, monthly_spent: 0, last_reset_date: "2024-05-02".into() };
    let s = stake(&mut w, Some(limits), Some(20), None, "2024-05-02", "2024-05", "n");
    assert_eq!(s.outcome.err(), Some(RequestError::SpendingLimit("Daily limit exceeded: 90 + 20 > 100".into())));
    assert_eq!(w.balance, 600);
}

#[test]
fn unstaking_and_rewards() {
    assert_eq!(unstake_amount(false, 100, 5, "2024-01-01T00:00:00Z", "2024-06-01T00:00:00Z"), Err(UnstakeError::NotFound));
    assert_eq!(unstake_amount(true, 100, 5, "2024-07-01T00:00:00Z", "2024-06-01T00:00:00Z"), Err(UnstakeError::StillLocked));
    assert_eq!(unstake_amount(true, 100, 5, "2024-06-01T00:00:00Z", "2024-06-01T00:00:00Z"), Ok(105));
    assert_eq!(claimable_rewards(0), Err(UnstakeError::NoRewards));
    assert_eq!(claimable_rewards(3), Ok(3));
}

#[test]
fn payout_requests() {
    let mut w = Wallet::open(1, "t");
    w.deposit(100, "t");
    let p = request_payout(&mut w, None, Some(50), None, None, None, "d", "m", "n");
    assert_eq!(p.outcome.err(), Some(RequestError::AddressRequired));
    let p = request_payout(&mut w, None, Some(50), Some("short"), None, None, "d", "m", "n");
    assert_eq!(p.outcome.err(), Some(RequestError::InvalidAddress));
    let p = request_payout(&mut w, None, Some(5), Some("T123456789"), None, None, "d", "m", "n");
    assert_eq!(p.outcome.err(), Some(RequestError::BelowMinimumPayout));
    let p = request_payout(&mut w, None, Some(500), Some("T123456789"), None, None, "d", "m", "n");
    assert_eq!(p.outcome.err(), Some(RequestError::InsufficientFunds { balance: 100, amount: 500 }));
    let p = request_payout(&mut w, None, Some(60), Some("T123456789"), None, Some("ERC20"), "d", "m", "n");
    let g = p.outcome.unwrap();
    assert_eq!((g.currency.as_str(), g.network.as_str()), ("USDT", "ERC20"));
    assert_eq!(g.receipt_description, "Payout to T123456789");
    assert_eq!(w.balance, 40);
}

#[test]
fn deposits_withdrawals_transfers_and_gifts() {
    let mut a = Wallet::open(1, "t");
    let mut b = Wallet::open(2, "t");
    assert_eq!(deposit_request(&mut a, None, "t"), Err(RequestError::AmountRequired));
    assert_eq!(deposit_request(&mut a, Some(-1), "t"), Err(RequestError::AmountNotPositive));
    assert_eq!(deposit_request(&mut a, Some(300), "t"), Ok(300));
    let w = withdraw_request(&mut a, None, Some(50), "d", "m", "t");
    assert_eq!(w.outcome, Ok(250));
    let w = withdraw_request(&mut a, None, Some(500), "d", "m", "t");
    assert_eq!(w.outcome, Err(RequestError::InsufficientFunds { balance: 250, amount: 500 }));
    let t = transfer_request(&mut a, &mut b, None, None, Some(10), "d", "m", "t");
    assert_eq!(t.outcome, Err(RequestError::RecipientRequired));
    let t = transfer_request(&mut a, &mut b, None, Some(2), Some(100), "d", "m", "t");
    assert_eq!(t.outcome, Ok(()));
    assert_eq!((a.balance, b.balance), (150, 100));
    let cat = seeded_gift_catalog();
    assert_eq!(send_gift(&mut a, &mut b, &cat, None, "t"), Err(RequestError::GiftRequired));
    assert_eq!(send_gift(&mut a, &mut b, &cat, Some(99), "t"), Err(RequestError::GiftNotFound));
    assert_eq!(send_gift(&mut a, &mut b, &cat, Some(3), "t"), Err(RequestError::InsufficientFunds { balance: 150, amount: 200 }));
    assert_eq!(send_gift(&mut a, &mut b, &cat, Some(2), "t"), Ok(50));
    assert_eq!((a.balance, b.balance), (100, 150));
    a.freeze();
    assert_eq!(deposit_request(&mut a, Some(1), "t"), Err(RequestError::WalletFrozen));
}

#[test]
fn reports_and_flags() {
    assert_eq!(report_request(None, Some(1), None, None).unwrap_err(), ReportError::TargetTypeRequired);
    assert_eq!(report_request(Some("user"), None, None, None).unwrap_err(), ReportError::TargetIdRequired);
    assert_eq!(report_request(Some("planet"), Some(1), None, None).unwrap_err(), ReportError::InvalidTargetType);
    let r = report_request(Some("agency"), Some(4), None, None).unwrap();
    assert_eq!((r.target_type.as_str(), r.target_id, r.category.as_str(), r.description.as_str()), ("agency", 4, "other", ""));
    assert_eq!(flag_request(Some("agency"), Some(4), None, None).unwrap_err(), ReportError::InvalidTargetType);
    let f = flag_request(Some("moment"), Some(8), Some("spam"), Some("x")).unwrap();
    assert_eq!((f.category.as_str(), f.description.as_str()), ("spam", "x"));
    assert_eq!(report_outcome(12, "user", Some(5), 5), (true, "Report #12 submitted; target auto-shadow-banned".to_string()));
    assert_eq!(report_outcome(12, "user", Some(4), 5), (false, "Report #12 submitted".to_string()));
    assert_eq!(report_outcome(13, "moment", None, 5), (false, "Report #13 submitted".to_string()));
}

#[test]
fn roles_and_appeals() {
    assert!(valid_role("moderator"));
    assert!(!valid_role("root"));
    assert_eq!(appeal_request(None, Some(1), Some("r")), Err(AppealError::TargetTypeRequired));
    assert_eq!(appeal_request(Some("ban"), None, Some("r")), Err(AppealError::TargetIdRequired));
    assert_eq!(appeal_request(Some("ban"), Some(1), None), Err(AppealError::ReasonRequired));
    assert_eq!(appeal_request(Some("mute"), Some(1), Some("r")), Err(AppealError::InvalidTargetType));
    assert_eq!(appeal_request(Some("shadow_ban"), Some(1), Some("r")), Ok(()));
}

#[test]
fn admin_adjustments() {
    let mut w = Wallet::open(3, "t");
    assert_eq!(adjust_balance(&mut w, 50, "t"), Ok(50));
    assert_eq!(adjust_balance(&mut w, -20, "t"), Ok(30));
    assert_eq!(adjust_balance(&mut w, -31, "t"), Err(ysh::model::WalletError::InsufficientFunds { balance: 30, amount: 31 }));
    assert_eq!(w.balance, 30);
}

#[test]
fn allows_clean_content() {
    let m = match_terms("hello nice to meet you");
    assert!(m.blocked.is_empty() && m.flagged.is_empty());
    assert!(categories(&m).is_empty());
    assert_eq!(decide(false, false), ModerationDecision::Allow);
}

#[test]
fn blocks_hardcore_content() {
    let m = match_terms("buy cheap carding tools here");
    assert_eq!(m.blocked, vec!["carding".to_string()]);
    // A blocked term blocks, whatever the severity.
    assert_eq!(decide(!m.blocked.is_empty(), false), ModerationDecision::Block);
    assert_eq!(decide(!m.blocked.is_empty(), true), ModerationDecision::Block);
}

#[test]
fn flags_sensitive_content() {
    let m = match_terms("discussing drug policy");
    assert!(m.blocked.is_empty());
    // Without a blocked term nothing is blocked, whatever the severity.
    assert_ne!(decide(!m.blocked.is_empty(), true), ModerationDecision::Block);
    assert_ne!(decide(!m.blocked.is_empty(), false), ModerationDecision::Block);
}

#[test]
fn agency_and_member_requests() {
    assert_eq!(agency_request(None, Some("d")), Err(AgencyError::NameRequired));
    assert_eq!(agency_request(Some("Stars"), None), Ok(("Stars".to_string(), String::new())));
    assert_eq!(agency_request(Some("Stars"), Some("top")), Ok(("Stars".to_string(), "top".to_string())));
    assert_eq!(member_request(None, Some("owner")), Err(AgencyError::UserIdRequired));
    assert_eq!(member_request(Some(9), None), Ok((9, "host".to_string())));
    assert_eq!(member_request(Some(9), Some("manager")), Ok((9, "manager".to_string())));
}

#[test]
fn admin_adjustment_requests() {
    let user = AuthUser { user_id: "2".into(), role: "user".into() };
    assert_eq!(adjustment_request(&user, Some(5), None), Err(AdjustError::NotAdmin));
    let admin = admin();
    assert_eq!(adjustment_request(&admin, None, None), Err(AdjustError::AmountRequired));
    assert_eq!(adjustment_request(&admin, Some(-50), None), Ok((-50, "admin adjustment".to_string())));
    assert_eq!(adjustment_request(&admin, Some(7), Some("bonus")), Ok((7, "bonus".to_string())));
}

#[test]
fn chat_and_limit_requests() {
    assert_eq!(chat_session_request(4, 4), Err(ChatError::SelfSession));
    assert_eq!(chat_session_request(4, 5), Ok(()));
    assert_eq!(spending_limit_request(None, None), Ok((100000, 1000000)));
    assert_eq!(spending_limit_request(Some(0), None), Err(LimitError::NotPositive));
    assert_eq!(spending_limit_request(Some(10), Some(-1)), Err(LimitError::NotPositive));
    assert_eq!(spending_limit_request(Some(10), Some(20)), Ok((10, 20)));
}
