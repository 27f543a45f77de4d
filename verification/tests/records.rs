use ysh::health::{health_check, readiness_check, ReadinessStatus};
use ysh::model::{
    NotificationPreferences,
    feed_page, moment_feed, FeedEntry, FeedItem,
    config_digest, digest_matches, billed_duration, billed_minutes, call_total_cost, check_block, check_spending_limit, gift_price,
    payout_allowed, receipt_digest, seeded_gift_catalog, transfer, BlockError, IntegrityReport, IntegrityStatus,
    Payout, PayoutError, Receipt, SpendingLimit, Wallet, WalletError,
    search_users, User,
};

#[test]
fn wallet_deposits_and_withdrawals() {
    let mut w = Wallet::open(1, "t0");
    assert_eq!(w.deposit(100, "t1"), 100);
    assert_eq!(w.updated_at, "t1");
    assert_eq!(w.withdraw(30, "t2"), Ok(70));
    assert_eq!(w.withdraw(71, "t3"), Err(WalletError::InsufficientFunds { balance: 70, amount: 71 }));
    assert_eq!(w.balance, 70);
    assert_eq!(w.updated_at, "t2");
    // A deposit then a withdrawal of the same amount gives the balance back.
    w.deposit(25, "t4");
    assert_eq!(w.withdraw(25, "t5"), Ok(70));
    w.freeze();
    assert!(w.frozen);
    w.unfreeze();
    assert!(!w.frozen);
}

#[test]
fn transfers_conserve_money() {
    let mut a = Wallet::open(1, "t");
    let mut b = Wallet::open(2, "t");
    a.deposit(50, "t");
    assert_eq!(transfer(&mut a, &mut b, 20, "t"), Ok(()));
    assert_eq!((a.balance, b.balance), (30, 20));
    assert_eq!(transfer(&mut a, &mut b, 31, "t"), Err(WalletError::InsufficientFunds { balance: 30, amount: 31 }));
    assert_eq!(a.balance + b.balance, 50);
}

#[test]
fn receipts_verify_until_altered() {
    let r = Receipt::issue(1, 7, "stake", 3, 500, "YSH", "Staked 500 YSH", "{}", "2024-01-01T00:00:00Z");
    assert!(r.verify());
    assert_eq!(r.receipt_hash.len(), 64);
    assert_eq!(r.receipt_hash, config_digest(b"7|stake|3|500|YSH|Staked 500 YSH"));
    assert_eq!(receipt_digest(7, "stake", 3, 500, "YSH", "Staked 500 YSH"), r.receipt_hash);
    let mut forged = r.clone();
    forged.amount = 5000;
    assert!(!forged.verify());
}


#[test]
fn spending_limits_reset_by_day_and_month() {
    // No stored limits: defaults apply.
    let c = check_spending_limit(None, 1, 500, "2024-05-02", "2024-05");
    assert!(c.allowed);
    assert_eq!(c.message, "OK");
    let sl = c.updated.unwrap();
    assert_eq!((sl.daily_limit, sl.monthly_limit, sl.daily_spent, sl.monthly_spent), (100000, 1000000, 500, 500));
    assert_eq!(sl.last_reset_date, "2024-05-02");
    // Same day: spending accumulates; over the daily limit it is refused.
    let c = check_spending_limit(Some(sl.clone()), 1, 99600, "2024-05-02", "2024-05");
    assert!(!c.allowed);
    assert_eq!(c.message, "Daily limit exceeded: 500 + 99600 > 100000");
    assert!(c.updated.is_none());
    // A new day in the same month clears the daily total only.
    let c = check_spending_limit(Some(sl.clone()), 1, 99600, "2024-05-03", "2024-05");
    assert!(c.allowed);
    let next = c.updated.unwrap();
    assert_eq!((next.daily_spent, next.monthly_spent), (99600, 100100));
    // Monthly limit.
    let tight = SpendingLimit { user_id: 1, daily_limit: 1000, monthly_limit: 1000, daily_spent: 0, monthly_spent: 900, last_reset_date: "2024-05-01".into() };
    let c = check_spending_limit(Some(tight.clone()), 1, 200, "2024-05-02", "2024-05");
    assert_eq!(c.message, "Monthly limit exceeded: 900 + 200 > 1000");
    // A new month clears both.
    let c = check_spending_limit(Some(tight), 1, 200, "2024-06-01", "2024-06");
    assert!(c.allowed);
}

#[test]
fn call_billing_rounds_up_to_minutes() {
    assert_eq!(billed_duration(-5), 0);
    assert_eq!(billed_duration(61), 61);
    assert_eq!(billed_minutes(0), 1);
    assert_eq!(billed_minutes(60), 1);
    assert_eq!(billed_minutes(61), 2);
    assert_eq!(call_total_cost(125, 30), 90);
}

#[test]
fn payouts_and_their_processing() {
    assert_eq!(payout_allowed(5, 10), Err(PayoutError::InsufficientBalance { balance: 5, amount: 10 }));
    assert_eq!(payout_allowed(100, 9), Err(PayoutError::BelowMinimum));
    assert_eq!(payout_allowed(100, 10), Ok(()));
    let mut p = Payout { id: 1, user_id: 2, amount: 50, currency: "USDT".into(), wallet_address: "T123456789".into(), network: "TRC20".into(), status: "pending".into(), tx_hash: None, requested_at: "t".into(), processed_at: None, admin_id: None, notes: String::new() };
    let mut q = p.clone();
    assert_eq!(p.process(9, "0xabc", true, "now"), 0);
    assert_eq!((p.status.as_str(), p.notes.as_str()), ("completed", "Approved"));
    assert_eq!(p.admin_id, Some(9));
    assert_eq!(q.process(9, "0xdef", false, "now"), 50);
    assert_eq!((q.status.as_str(), q.notes.as_str(), q.tx_hash.as_deref()), ("rejected", "Rejected", Some("0xdef")));
}

#[test]
fn gift_catalog_and_prices() {
    let cat = seeded_gift_catalog();
    assert_eq!(cat.len(), 6);
    assert_eq!(cat[0].name, "Rose");
    assert_eq!(cat[5].price, 5000);
    assert!(cat.windows(2).all(|w| w[0].price <= w[1].price));
    assert_eq!(gift_price(&cat, 3), Some(200));
    assert_eq!(gift_price(&cat, 42), None);
}

#[test]
fn blocks_and_integrity_reports() {
    assert_eq!(check_block(1, 1, true), Err(BlockError::CannotBlockSelf));
    assert_eq!(check_block(1, 2, false), Err(BlockError::TargetNotFound));
    assert_eq!(check_block(1, 2, true), Ok(()));
    let ok = IntegrityReport::from_check(true);
    assert_eq!(ok.status, IntegrityStatus::Intact);
    assert_eq!(ok.message, "Database integrity check passed");
    assert_eq!(IntegrityReport::from_check(false).status, IntegrityStatus::Repaired);
}

#[test]
fn health_reports() {
    let h = health_check();
    assert_eq!((h.status.as_str(), h.version.as_str(), h.uptime_secs), ("ok", "0.1.0", 0));
    assert_eq!(readiness_check(), ReadinessStatus { database: true, cache: true, actors: true });
}

#[test]
fn configuration_digests() {
    let d = config_digest(b"port = 8080");
    assert_eq!(d.len(), 64);
    assert!(digest_matches(b"port = 8080", &d));
    assert!(!digest_matches(b"port = 8081", &d));
    assert_eq!(config_digest(b""), "af1349b9f5f9a1a6a0404dea36dcc9499bcb25c9adc112b7cc9a93cae41f3262");
}

#[test]
fn feed_pages_are_filtered_and_newest_first() {
    let e = |id: i64, user_id: i64| FeedEntry { id, user_id };
    let entries = vec![e(3, 1), e(7, 2), e(5, 3), e(9, 4), e(1, 1), e(8, 5)];
    let blocked = vec![4];
    let shadow = vec![5];
    let actioned = vec![1];
    let all = feed_page(&entries, &blocked, &shadow, &actioned, 0, -1);
    assert_eq!(all.iter().map(|f| f.id).collect::<Vec<_>>(), vec![7, 5, 3]);
    assert_eq!(feed_page(&entries, &vec![], &vec![], &vec![], 1, 2).iter().map(|f| f.id).collect::<Vec<_>>(), vec![8, 7]);
    assert!(feed_page(&entries, &vec![], &vec![], &vec![], -1, 5).is_empty());
    assert!(feed_page(&entries, &vec![], &vec![], &vec![], 10, 5).is_empty());
    // Equal ids keep their order.
    let ties = vec![e(2, 1), e(2, 2), e(4, 3)];
    assert_eq!(feed_page(&ties, &vec![], &vec![], &vec![], 0, 10), vec![e(4, 3), e(2, 1), e(2, 2)]);
}

#[test]
fn notification_preferences() {
    let mut p = NotificationPreferences::default();
    assert!(p.email_enabled && !p.email_marketing && p.quiet_hours_start.is_none());
    assert!(p.set_preference("email_marketing", true));
    assert!(p.email_marketing);
    assert!(!p.set_preference("sms_enabled", true));
    assert!(p.set_preference("push_calls", false));
    assert!(!p.push_calls && p.push_gifts);
    p.set_quiet_hours(None, Some("07:00"));
    assert_eq!(p.quiet_hours_start.as_deref(), Some("22:00"));
    assert_eq!(p.quiet_hours_end.as_deref(), Some("07:00"));
}

#[test]
fn user_search_skips_shadow_banned_and_respects_limit() {
    let users = vec![
        (1i64, "Alice".to_string()),
        (2i64, "malice".to_string()),
        (3i64, "bob".to_string()),
        (4i64, "ALICIA".to_string()),
    ];
    let shadow = vec![2i64];
    assert_eq!(search_users(&users, &shadow, "ali", 20), vec![0usize, 3]);
    assert_eq!(search_users(&users, &vec![], "ALI", 20), vec![0usize, 1, 3]);
    assert_eq!(search_users(&users, &vec![], "ali", 2), vec![0usize, 1]);
    // A limit below one still returns the first match.
    assert_eq!(search_users(&users, &vec![], "ali", 0), vec![0usize]);
    assert_eq!(search_users(&users, &vec![], "zed", 5), Vec::<usize>::new());
}

#[test]
fn new_accounts_start_clean() {
    let u = User::new_account(9, "neo", "neo@example.com", "hash", "2024-01-01T00:00:00Z");
    assert_eq!(u.id, 9);
    assert_eq!(u.username, "neo");
    assert_eq!(u.role, "user");
    assert_eq!(u.failed_login_attempts, 0);
    assert!(u.locked_until.is_none());
    assert!(!u.totp_enabled);
    assert_eq!(u.kyc_level, 0);
}

#[test]
fn feed_items_carry_likes_and_comments() {
    let entries = vec![
        FeedEntry { id: 3, user_id: 1 },
        FeedEntry { id: 7, user_id: 2 },
        FeedEntry { id: 23, user_id: 4 },
    ];
    // (user, moment) likes; moment 23 is not counted for moment 3.
    let likes = vec![(10, 3), (11, 3), (10, 7), (12, 23)];
    // The moment of each stored comment.
    let comments = vec![3, 23, 3, 23, 23, 23, 23];
    let items = moment_feed(&entries, &vec![], &vec![], &vec![4], &likes, &comments, 10, 0, -1);
    assert_eq!(items, vec![
        FeedItem { id: 23, user_id: 4, liked: false, likes: 1, comments: 5 },
        FeedItem { id: 7, user_id: 2, liked: true, likes: 1, comments: 0 },
        FeedItem { id: 3, user_id: 1, liked: true, likes: 2, comments: 2 },
    ]);
    let page = moment_feed(&entries, &vec![2], &vec![], &vec![], &likes, &comments, 11, 0, 1);
    assert_eq!(page, vec![FeedItem { id: 23, user_id: 4, liked: false, likes: 1, comments: 5 }]);
}
