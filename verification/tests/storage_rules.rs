use std::time::Duration;
use ysh::cache::{
    deserialize, lookup, next_counter_entry, parse_u64_bytes, rate_limit_key, rate_limit_result, reported_count,
    serialize, session_key, CacheError, CacheStats, Lookup, RawEntry,
};
use ysh::config::{resolve_env_vars, EnvSettings, EnvValues};
use ysh::config::{
    default_analytics, default_db_enc_algorithm, default_ddos_ip_block, default_ddos_rate_limit, default_ddos_ws,
    default_fraud, default_webrtc, parse_u16, ConfigError, ConfigLoader, EnvValue, EnvValueU16, SecretsConfig,
};

#[test]
fn entry_encoding_layout() {
    let e = RawEntry { value: b"abc".to_vec(), expires_at: Some(5) };
    assert_eq!(serialize(&e), vec![3, 0, 0, 0, b'a', b'b', b'c', 1, 5, 0, 0, 0, 0, 0, 0, 0]);
    let e = RawEntry { value: vec![], expires_at: None };
    assert_eq!(serialize(&e), vec![0, 0, 0, 0, 0]);
}

#[test]
fn entry_roundtrip() {
    let e = RawEntry { value: b"hello".to_vec(), expires_at: Some(1_700_000_000) };
    let bytes = serialize(&e);
    assert_eq!(deserialize(&bytes), Ok(RawEntry { value: b"hello".to_vec(), expires_at: Some(1_700_000_000) }));
}

#[test]
fn entry_decoding_errors() {
    assert_eq!(deserialize(&[1, 2]), Err(CacheError::TooShort));
    assert_eq!(deserialize(&[10, 0, 0, 0]), Err(CacheError::Corrupted { val_len: 10, remaining: 0 }));
    assert_eq!(deserialize(&[0, 0, 0, 0, 1, 9]), Err(CacheError::Truncated));
}

#[test]
fn lookup_respects_expiry() {
    let bytes = serialize(&RawEntry { value: b"v".to_vec(), expires_at: Some(5) });
    assert_eq!(lookup(None, 0), Ok(Lookup::Missing));
    assert_eq!(lookup(Some(&bytes), 5), Ok(Lookup::Found(b"v".to_vec())));
    assert_eq!(lookup(Some(&bytes), 6), Ok(Lookup::Expired));
}

#[test]
fn counters_increment_from_previous_value() {
    let first = next_counter_entry(None, 0, None);
    assert_eq!(first, vec![1, 0, 0, 0, b'1', 0]);
    let second = next_counter_entry(Some(&first), 0, Some(100));
    assert_eq!(deserialize(&second).unwrap().value, b"2".to_vec());
    assert_eq!(reported_count(None), 0);
    assert_eq!(reported_count(Some(&first)), 1);
    let expired = serialize(&RawEntry { value: b"7".to_vec(), expires_at: Some(1) });
    assert_eq!(deserialize(&next_counter_entry(Some(&expired), 10, None)).unwrap().value, b"1".to_vec());
    assert_eq!(reported_count(Some(&expired)), 7);
}

#[test]
fn counter_text_parsing() {
    assert_eq!(parse_u64_bytes(b"+12"), Some(12));
    assert_eq!(parse_u64_bytes(b""), None);
    assert_eq!(parse_u64_bytes(b"-1"), None);
    assert_eq!(parse_u64_bytes(b"18446744073709551615"), Some(u64::MAX));
    assert_eq!(parse_u64_bytes(b"18446744073709551616"), None);
}

#[test]
fn rate_limit_decisions() {
    let r = rate_limit_result(3, 5, Duration::from_secs(60));
    assert!(r.allowed);
    assert_eq!(r.remaining, 2);
    assert_eq!(r.limit, 5);
    assert_eq!(r.retry_after, None);
    let r = rate_limit_result(6, 5, Duration::from_secs(60));
    assert!(!r.allowed);
    assert_eq!(r.remaining, 0);
    assert_eq!(r.retry_after, Some(Duration::from_secs(60)));
    // Accounting: remaining plus the count make up the limit.
    let r = rate_limit_result(5, 5, Duration::from_secs(1));
    assert!(r.allowed);
    assert_eq!(r.remaining + 5, r.limit);
}

#[test]
fn cache_keys_and_stats() {
    assert_eq!(session_key("abc"), "session:abc");
    assert_eq!(rate_limit_key("1.2.3.4"), "rl:1.2.3.4");
    let mut s = CacheStats::default();
    s.record(10);
    s.record(5);
    assert_eq!(s.total_entries, 2);
    assert_eq!(s.total_bytes, 15);
}

#[test]
fn configuration_defaults() {
    let d = default_ddos_rate_limit();
    assert_eq!((d.auth_max_per_minute, d.api_max_per_minute, d.ws_max_per_minute, d.admin_max_per_minute), (5, 60, 30, 120));
    let b = default_ddos_ip_block();
    assert_eq!((b.auto_block_threshold, b.auto_block_window_secs, b.auto_block_duration_secs, b.max_blocklist_size), (100, 60, 300, 10000));
    let w = default_ddos_ws();
    assert_eq!((w.max_connections_per_user, w.max_message_size_bytes, w.heartbeat_timeout_secs, w.message_rate_per_second), (3, 65536, 60, 10));
    let f = default_fraud();
    assert_eq!((f.velocity_window_secs, f.max_tx_per_window, f.max_amount_per_window, f.large_tx_threshold), (300, 20, 500000, 10000));
    assert!(f.auto_freeze_on_fraud);
    assert_eq!(default_db_enc_algorithm(), "AES-256-GCM");
    let rtc = default_webrtc();
    assert_eq!(rtc.signal_mode, "sfu_passthrough");
    assert_eq!((rtc.p2p_capacity, rtc.duo_capacity, rtc.group_capacity), (2, 3, 8));
    assert_eq!(rtc.cost_per_minute, 30);
    assert_eq!(rtc.simulcast_tiers, vec!["q", "h", "f"]);
    let a = default_analytics();
    assert!(a.enabled);
    let _ = ConfigLoader::new();
}

#[test]
fn environment_references_resolve() {
    let lit = EnvValue::Literal("x".to_string());
    assert_eq!(lit.resolve(Some("ignored".to_string())), Ok("x".to_string()));
    let r = EnvValue::Reference { env: "SECRET".to_string(), default: None };
    assert_eq!(r.clone().resolve(Some("v".to_string())), Ok("v".to_string()));
    assert_eq!(r.clone().resolve(Some(String::new())), Err(ConfigError::MissingEnv("SECRET".to_string())));
    assert_eq!(r.clone().resolve(None), Err(ConfigError::MissingEnv("SECRET".to_string())));
    assert_eq!(r.resolve_or_empty(None), "");
    let d = EnvValue::Reference { env: "X".to_string(), default: Some("dflt".to_string()) };
    assert_eq!(d.resolve(None), Ok("dflt".to_string()));
}

#[test]
fn ports_resolve() {
    assert_eq!(parse_u16("8080"), Some(8080));
    assert_eq!(parse_u16("+80"), Some(80));
    assert_eq!(parse_u16("65536"), None);
    assert_eq!(parse_u16(""), None);
    let p = EnvValueU16::Reference { env: "PORT".to_string(), default: Some(3000) };
    assert_eq!(p.clone().resolve(Some("9000".to_string())), Ok(9000));
    assert_eq!(p.clone().resolve(None), Ok(3000));
    assert!(matches!(p.resolve(Some("abc".to_string())), Err(ConfigError::InvalidU16(_))));
    assert_eq!(EnvValueU16::Literal(7).resolve(None), Ok(7));
}

#[test]
fn secrets_are_erased() {
    let mut s = SecretsConfig { jwt_secret: "a".into(), db_password: "b".into(), encryption_key: "c".into() };
    s.zeroize();
    assert!(s.jwt_secret.is_empty() && s.db_password.is_empty() && s.encryption_key.is_empty());
}

fn reference(env: &str, default: Option<&str>) -> EnvValue {
    EnvValue::Reference { env: env.to_string(), default: default.map(|d| d.to_string()) }
}

fn settings() -> EnvSettings {
    EnvSettings {
        jwt_secret: reference("YSH_JWT_SECRET", None),
        db_password: EnvValue::Literal("pw".into()),
        encryption_key: reference("YSH_KEY", Some("k0")),
        cert_path: EnvValue::Literal("cert.pem".into()),
        key_path: EnvValue::Literal("key.pem".into()),
        port: EnvValueU16::Reference { env: "PORT".into(), default: Some(8080) },
        database_url: reference("DATABASE_URL", None),
    }
}

fn values(jwt: Option<&str>, port: Option<&str>) -> EnvValues {
    EnvValues {
        jwt_secret: jwt.map(|s| s.to_string()),
        db_password: None,
        encryption_key: Some(String::new()),
        cert_path: None,
        key_path: None,
        port: port.map(|s| s.to_string()),
        database_url: None,
    }
}

#[test]
fn settings_resolve_from_the_environment() {
    let r = resolve_env_vars(settings(), values(Some("s3cret"), None)).unwrap();
    assert_eq!(r.jwt_secret, "s3cret");
    assert_eq!(r.db_password, "pw");
    assert_eq!(r.encryption_key, "k0");
    assert_eq!(r.port, 8080);
    assert_eq!(r.database_url, "");
    let r = resolve_env_vars(settings(), values(Some("s"), Some("9000"))).unwrap();
    assert_eq!(r.port, 9000);
    assert!(matches!(resolve_env_vars(settings(), values(None, None)), Err(ConfigError::MissingEnv(n)) if n == "YSH_JWT_SECRET"));
    assert!(matches!(resolve_env_vars(settings(), values(Some(""), None)), Err(ConfigError::MissingEnv(_))));
    assert!(matches!(resolve_env_vars(settings(), values(Some("s"), Some("x"))), Err(ConfigError::InvalidU16(n)) if n == "PORT"));
}
