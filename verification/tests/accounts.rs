use ysh::auth::{
    accept_claims, account_locked, bearer_token, caller_id, cipher_for, key_from_secret, kyc_status, kyc_transition,
    login_decision, login_step, recovery_summary, recovery_to_use, two_factor_login, validate_registration, AuthUser,
    apply_login, mark_recovery_code_used, redeem_recovery_code, reset_failed_attempts,
    CipherKind, KycError, LoginDecision, RegisterError, RegisterRequest, Timestamp, TwoFactorError,
};
use ysh::model::{RecoveryCode, User};
use ysh::text::parse_i64_text;
use ysh::auth::{decode_sealed_message, MessageError};

fn req(u: &str, e: &str, p: &str) -> RegisterRequest {
    RegisterRequest { username: u.into(), email: e.into(), password: p.into() }
}

fn user(attempts: i32, locked_until: Option<&str>, totp: bool) -> User {
    User {
        id: 1,
        username: "alice".into(),
        email: "a@x".into(),
        password_hash: "h".into(),
        role: "user".into(),
        created_at: "2024-01-01T00:00:00Z".into(),
        failed_login_attempts: attempts,
        locked_until: locked_until.map(|s| s.to_string()),
        totp_secret: None,
        totp_enabled: totp,
        kyc_level: 0,
        do_not_sell: false,
    }
}

#[test]
fn registration_rules() {
    assert_eq!(validate_registration(&req("al", "a@x", "password1")), Err(RegisterError::UsernameLength));
    assert_eq!(validate_registration(&req(&"a".repeat(33), "a@x", "password1")), Err(RegisterError::UsernameLength));
    assert_eq!(validate_registration(&req("alice", "a@x", "short")), Err(RegisterError::PasswordTooShort));
    assert_eq!(validate_registration(&req("alice", "nobody", "password1")), Err(RegisterError::InvalidEmail));
    assert_eq!(validate_registration(&req("alice", "a@x", "password1")), Ok(()));
    // Lengths are counted in bytes: two 2-byte characters make a 4-byte name.
    assert_eq!(validate_registration(&req("éé", "a@x", "password1")), Ok(()));
}

#[test]
fn lockout_after_five_failures() {
    let now = Timestamp { secs: 1_000_000, nanos: 5 };
    assert_eq!(login_decision(0, None, false, false, now), LoginDecision::Rejected { new_attempts: 1, lock_until: None });
    let d = login_decision(4, None, false, false, now);
    assert_eq!(d, LoginDecision::Rejected { new_attempts: 5, lock_until: Some(Timestamp { secs: 1_000_900, nanos: 5 }) });
    let lock = Some(Timestamp { secs: 1_000_900, nanos: 5 });
    // Until the lock runs out, even the right password is refused.
    assert_eq!(login_decision(5, lock, false, true, Timestamp { secs: 1_000_899, nanos: 0 }), LoginDecision::Locked);
    assert_eq!(login_decision(5, lock, false, true, Timestamp { secs: 1_000_900, nanos: 5 }), LoginDecision::Granted);
    assert_eq!(login_decision(0, None, true, true, now), LoginDecision::RequiresTwoFactor);
}

#[test]
fn stored_lock_times_are_parsed() {
    let u = user(5, Some("2024-01-01T00:15:00+00:00"), false);
    let t0 = Timestamp { secs: 1_704_067_200, nanos: 0 }; // 2024-01-01T00:00:00Z
    assert!(account_locked(&u, t0));
    assert!(!account_locked(&u, Timestamp { secs: 1_704_068_100, nanos: 0 }));
    assert!(!account_locked(&user(5, Some("not a date"), false), t0));
    let step = login_step(&u, true, t0);
    assert_eq!(step.decision, LoginDecision::Locked);
    assert!(step.lock_until_text.is_none());
    let step = login_step(&user(4, None, false), false, t0);
    assert_eq!(step.decision, LoginDecision::Rejected { new_attempts: 5, lock_until: Some(Timestamp { secs: 1_704_068_100, nanos: 0 }) });
    assert_eq!(step.lock_until_text.as_deref(), Some("2024-01-01T00:15:00+00:00"));
}

#[test]
fn bearer_tokens() {
    assert_eq!(bearer_token(None), None);
    assert_eq!(bearer_token(Some("Basic abc")), None);
    assert_eq!(bearer_token(Some("Bearer")), None);
    assert_eq!(bearer_token(Some("Bearer abc.def")), Some("abc.def".to_string()));
    assert_eq!(bearer_token(Some("Bearer ")), Some(String::new()));
    assert!(accept_claims("1", "user", "2fa_pending").is_none());
    let u = accept_claims("1", "admin", "access").unwrap();
    assert_eq!((u.user_id.as_str(), u.role.as_str()), ("1", "admin"));
    assert_eq!(caller_id(&AuthUser { user_id: "42".into(), role: "user".into() }), Some(42));
    assert_eq!(caller_id(&AuthUser { user_id: "x".into(), role: "user".into() }), None);
}

#[test]
fn integer_parsing_matches_std() {
    for s in ["0", "-0", "+7", "-9223372036854775808", "9223372036854775807", "9223372036854775808", "", "-", "+", "1a", " 1", "007"] {
        assert_eq!(parse_i64_text(s), s.parse::<i64>().ok(), "for {s:?}");
    }
}

#[test]
fn two_factor_login_steps() {
    assert_eq!(two_factor_login("access", "1", Some("AAAA")), Err(TwoFactorError::InvalidTokenType));
    assert_eq!(two_factor_login("2fa_pending", "abc", Some("AAAA")), Err(TwoFactorError::InvalidToken));
    assert_eq!(two_factor_login("2fa_pending", "1", None), Err(TwoFactorError::NotConfigured));
    assert_eq!(two_factor_login("2fa_pending", "1", Some("!!")), Err(TwoFactorError::SecretUnreadable));
    assert_eq!(two_factor_login("2fa_pending", "12", Some("aGVsbG8=")), Ok((12, b"hello".to_vec())));
}

#[test]
fn recovery_codes() {
    let codes = vec![
        RecoveryCode { id: 1, code_hash: "a".into(), used: true },
        RecoveryCode { id: 2, code_hash: "b".into(), used: false },
        RecoveryCode { id: 3, code_hash: "c".into(), used: false },
    ];
    assert_eq!(recovery_summary(&codes), (3, 1, 2));
    assert_eq!(recovery_to_use(&codes, &vec![true, false, true]), Some(2));
    assert_eq!(recovery_to_use(&codes, &vec![true, false, false]), None);
}

#[test]
fn kyc_levels() {
    assert_eq!(kyc_status(0), "unverified");
    assert_eq!(kyc_status(3), "fully_verified");
    assert_eq!(kyc_status(9), "unknown");
    assert_eq!(kyc_transition(0, 1), Ok(1));
    assert_eq!(kyc_transition(0, 2), Err(KycError::InvalidTransition { current: 0, requested: 2 }));
    assert_eq!(kyc_transition(3, 4), Err(KycError::AboveMaximum));
    // The requested level is read as an i32.
    assert_eq!(kyc_transition(0, (1i64 << 32) + 1), Ok(1));
}

#[test]
fn message_cipher_keys() {
    assert_eq!(cipher_for("aes-256-gcm"), Some(CipherKind::Aes256Gcm));
    assert_eq!(cipher_for("chacha20-poly1305"), Some(CipherKind::ChaCha20Poly1305));
    assert_eq!(cipher_for("rot13"), None);
    let k = key_from_secret(b"abc");
    assert_eq!(k.len(), 32);
    assert_eq!(&k[..3], b"abc");
    assert!(k[3..].iter().all(|&b| b == 0));
    let long = [7u8; 40];
    assert_eq!(key_from_secret(&long), vec![7u8; 32]);
}

#[test]
fn sealed_messages_are_decoded() {
    assert_eq!(decode_sealed_message(None, Some("AAAA")), Err(MessageError::MissingCiphertext));
    assert_eq!(decode_sealed_message(Some("AAAA"), None), Err(MessageError::MissingNonce));
    assert_eq!(decode_sealed_message(Some("@@"), Some("AAAA")), Err(MessageError::BadCiphertext));
    assert_eq!(decode_sealed_message(Some("AAAA"), Some("@@")), Err(MessageError::BadNonce));
    assert_eq!(decode_sealed_message(Some("AAAA"), Some("AAAA")), Err(MessageError::InvalidNonceLength));
    // 16 base64 characters decode to 12 bytes.
    assert_eq!(decode_sealed_message(Some("aGk="), Some("AAAAAAAAAAAAAAAA")), Ok((b"hi".to_vec(), vec![0u8; 12])));
}

#[test]
fn login_steps_update_the_stored_user() {
    let t0 = Timestamp { secs: 1_704_067_200, nanos: 0 };
    // A fifth failure stores the count and the lock text, which reads back as locking.
    let mut u = user(4, None, false);
    let step = login_step(&u, false, t0);
    apply_login(&mut u, &step);
    assert_eq!(u.failed_login_attempts, 5);
    assert_eq!(u.locked_until.as_deref(), Some("2024-01-01T00:15:00+00:00"));
    assert!(account_locked(&u, Timestamp { secs: 1_704_067_800, nanos: 0 }));
    let step = login_step(&u, true, Timestamp { secs: 1_704_067_800, nanos: 0 });
    assert_eq!(step.decision, LoginDecision::Locked);
    apply_login(&mut u, &step);
    assert_eq!(u.failed_login_attempts, 5);
    // After the lock, a right password clears the count and the lock.
    let step = login_step(&u, true, Timestamp { secs: 1_704_068_100, nanos: 0 });
    assert_eq!(step.decision, LoginDecision::Granted);
    apply_login(&mut u, &step);
    assert_eq!(u.failed_login_attempts, 0);
    assert!(u.locked_until.is_none());
    // An earlier failure only counts.
    let mut v = user(1, None, true);
    let step = login_step(&v, false, t0);
    apply_login(&mut v, &step);
    assert_eq!((v.failed_login_attempts, v.locked_until.clone()), (2, None));
    let step = login_step(&v, true, t0);
    assert_eq!(step.decision, LoginDecision::RequiresTwoFactor);
    apply_login(&mut v, &step);
    assert_eq!(v.failed_login_attempts, 0);
}

#[test]
fn recovery_codes_work_once() {
    let mut codes = vec![
        RecoveryCode { id: 1, code_hash: "a".into(), used: false },
        RecoveryCode { id: 2, code_hash: "b".into(), used: false },
    ];
    let offer = vec![false, true];
    assert_eq!(redeem_recovery_code(&mut codes, &offer), Some(1));
    assert!(codes[1].used);
    assert!(!codes[0].used);
    assert_eq!(redeem_recovery_code(&mut codes, &offer), None);
    mark_recovery_code_used(&mut codes, 1);
    assert!(codes[0].used);
    assert_eq!(codes[0].code_hash, "a");
    let mut u = user(5, Some("2024-01-01T00:15:00+00:00"), false);
    reset_failed_attempts(&mut u);
    assert_eq!((u.failed_login_attempts, u.locked_until.clone()), (0, None));
    assert_eq!(u.username, "alice");
}
