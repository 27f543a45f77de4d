//! Configuration sections, their defaults, and resolution of values that
//! refer to environment variables.

use vstd::prelude::*;
use crate::text::to_owned;

verus! {

#[derive(Debug, Clone)]
pub struct SecretsConfig {
    pub jwt_secret: String,
    pub db_password: String,
    pub encryption_key: String,
}

#[derive(Debug, Clone)]
pub struct EncryptionConfig {
    pub algorithm: String,
    pub nonce_strategy: String,
    pub key_rotation_days: u32,
}

#[derive(Debug, Clone)]
pub struct PasswordConfig {
    pub algorithm: String,
    pub memory_cost: u32,
    pub time_cost: u32,
    pub parallelism: u32,
}

#[derive(Debug, Clone)]
pub struct TlsConfig {
    pub min_version: String,
    pub cert_path: String,
    pub key_path: String,
}

#[derive(Debug, Clone, Copy)]
pub struct JwtConfig {
    pub expiry_hours: u32,
    pub refresh_expiry_days: u32,
}

#[derive(Debug, Clone)]
pub struct SupervisorStrategy {
    pub strategy: String,
    pub max_restarts: u32,
    pub max_seconds: u32,
}

#[derive(Debug, Clone)]
pub struct SupervisionConfig {
    pub root: SupervisorStrategy,
    pub infrastructure: SupervisorStrategy,
    pub services: SupervisorStrategy,
    pub security: SupervisorStrategy,
}

#[derive(Debug, Clone)]
pub struct ServerConfig {
    pub host: String,
    pub port: u16,
    pub workers: usize,
    pub shutdown_timeout_secs: u32,
}

#[derive(Debug, Clone)]
pub struct DatabaseConfig {
    pub url: String,
    pub max_connections: u32,
    pub connect_timeout_secs: u32,
    pub query_timeout_secs: u32,
}

#[derive(Debug, Clone, Copy)]
pub struct BackpressureConfig {
    pub server_channel_size: usize,
    pub database_channel_size: usize,
    pub webrtc_channel_size: usize,
}

#[derive(Debug, Clone, Copy)]
pub struct RateLimitConfig {
    pub requests_per_second: u32,
    pub burst_size: u32,
}

#[derive(Debug, Clone, Copy, PartialEq, Eq)]
pub struct DdosRateLimit {
    pub auth_max_per_minute: u64,
    pub api_max_per_minute: u64,
    pub ws_max_per_minute: u64,
    pub admin_max_per_minute: u64,
}

#[derive(Debug, Clone, Copy, PartialEq, Eq)]
pub struct DdosIpBlock {
    pub auto_block_threshold: u64,
    pub auto_block_window_secs: u64,
    pub auto_block_duration_secs: u64,
    pub max_blocklist_size: usize,
}

#[derive(Debug, Clone, Copy, PartialEq, Eq)]
pub struct DdosWs {
    pub max_connections_per_user: u32,
    pub max_message_size_bytes: usize,
    pub heartbeat_timeout_secs: u64,
    pub message_rate_per_second: u32,
}

#[derive(Debug, Clone)]
pub struct DdosConfig {
    pub enabled: bool,
    pub max_body_bytes: usize,
    pub request_timeout_secs: u64,
    pub trusted_proxies: Vec<String>,
    pub rate_limit: DdosRateLimit,
    pub ip_block: DdosIpBlock,
    pub ws: DdosWs,
}

#[derive(Debug, Clone)]
pub struct CorsConfig {
    pub allowed_origins: Vec<String>,
    pub allowed_methods: Vec<String>,
    pub max_age_secs: u64,
}

#[derive(Debug, Clone, Copy, PartialEq, Eq)]
pub struct FraudConfig {
    pub velocity_window_secs: i64,
    pub max_tx_per_window: i64,
    pub max_amount_per_window: i64,
    pub large_tx_threshold: i64,
    pub auto_freeze_on_fraud: bool,
}

#[derive(Debug, Clone)]
pub struct BackupConfig {
    pub enabled: bool,
    pub interval_secs: u64,
    pub backup_dir: String,
    pub max_backups: usize,
    pub compact_before_backup: bool,
}

#[derive(Debug, Clone, Copy, PartialEq, Eq)]
pub struct IntegrityConfig {
    pub check_on_startup: bool,
    pub auto_repair: bool,
}

#[derive(Debug, Clone)]
pub struct DbEncryptionConfig {
    pub enabled: bool,
    pub key_env: String,
    pub key_file: String,
    pub algorithm: String,
}

#[derive(Debug, Clone)]
pub struct WebRtcConfig {
    pub enabled: bool,
    /// Signaling relay mode. `sfu_passthrough` relays SDP/ICE between peers.
    pub signal_mode: String,
    /// Max participants by call type.
    pub p2p_capacity: u32,
    pub duo_capacity: u32,
    pub group_capacity: u32,
    /// Max concurrent viewers on a live stream.
    pub max_live_viewers: u32,
    /// Default cost per minute for flash/p2p calls (wallet debit).
    pub cost_per_minute: i64,
    /// Charge at per-second granularity.
    pub billing_per_second: bool,
    pub recording_enabled: bool,
    /// Encrypt recording metadata (storage key) before persisting.
    pub recording_encryption: bool,
    /// Simulcast tiers advertised to clients.
    pub simulcast_tiers: Vec<String>,
    /// Flag a call's quality samples for aggregation after this many chunks.
    pub quality_chunk_interval: u32,
    pub flash_random: bool,
    pub call_timeout_secs: u64,
}

#[derive(Debug, Clone, Copy, PartialEq, Eq)]
pub struct AnalyticsConfig {
    /// Real-time dashboards + snapshots.
    pub enabled: bool,
    /// Default date range for dashboard queries (days).
    pub default_range_days: i64,
    /// Keep daily snapshots for this many days.
    pub snapshot_retention_days: i64,
}

/// std's `String` erased by zeroize 1.x (`Zeroize for String`): the bytes
/// are overwritten with zeros and the string is left empty.
#[verifier::external_body]
fn zeroize_string(s: &mut String)
    ensures
        final(s)@ == Seq::<char>::empty(),
{
    zeroize::Zeroize::zeroize(s);
}

impl SecretsConfig {
    /// Erases every secret.
    pub fn zeroize(&mut self)
        ensures
            final(self).jwt_secret@ == Seq::<char>::empty(),
            final(self).db_password@ == Seq::<char>::empty(),
            final(self).encryption_key@ == Seq::<char>::empty(),
    {
        zeroize_string(&mut self.jwt_secret);
        zeroize_string(&mut self.db_password);
        zeroize_string(&mut self.encryption_key);
    }
}

/// Per-IP request budgets by route class.
pub fn default_ddos_rate_limit() -> (r: DdosRateLimit)
    ensures
        r == (DdosRateLimit { auth_max_per_minute: 5, api_max_per_minute: 60, ws_max_per_minute: 30, admin_max_per_minute: 120 }),
{
    DdosRateLimit { auth_max_per_minute: 5, api_max_per_minute: 60, ws_max_per_minute: 30, admin_max_per_minute: 120 }
}

/// Auto-block: 100 errors in 60 s block an IP for 300 s; at most 10000 blocked IPs.
pub fn default_ddos_ip_block() -> (r: DdosIpBlock)
    ensures
        r == (DdosIpBlock { auto_block_threshold: 100, auto_block_window_secs: 60, auto_block_duration_secs: 300, max_blocklist_size: 10000 }),
{
    DdosIpBlock { auto_block_threshold: 100, auto_block_window_secs: 60, auto_block_duration_secs: 300, max_blocklist_size: 10000 }
}

/// WebSocket guard: 3 connections per user, 64 KiB messages, 60 s heartbeat, 10 messages/s.
pub fn default_ddos_ws() -> (r: DdosWs)
    ensures
        r == (DdosWs { max_connections_per_user: 3, max_message_size_bytes: 65536, heartbeat_timeout_secs: 60, message_rate_per_second: 10 }),
{
    DdosWs { max_connections_per_user: 3, max_message_size_bytes: 65536, heartbeat_timeout_secs: 60, message_rate_per_second: 10 }
}

/// Fraud velocity limits.
pub fn default_fraud() -> (r: FraudConfig)
    ensures
        r == (FraudConfig { velocity_window_secs: 300, max_tx_per_window: 20, max_amount_per_window: 500000, large_tx_threshold: 10000, auto_freeze_on_fraud: true }),
{
    FraudConfig { velocity_window_secs: 300, max_tx_per_window: 20, max_amount_per_window: 500000, large_tx_threshold: 10000, auto_freeze_on_fraud: true }
}

/// The default at-rest database cipher.
pub fn default_db_enc_algorithm() -> (r: String)
    ensures
        r@ == "AES-256-GCM"@,
{
    to_owned("AES-256-GCM")
}

impl Default for BackupConfig {
    fn default() -> (r: Self)
        ensures
            !r.enabled, r.interval_secs == 3600, r.backup_dir@ == "./backups"@, r.max_backups == 7,
            r.compact_before_backup,
    {
        BackupConfig {
            enabled: false,
            interval_secs: 3600,
            backup_dir: to_owned("./backups"),
            max_backups: 7,
            compact_before_backup: true,
        }
    }
}

impl Default for IntegrityConfig {
    fn default() -> (r: Self)
        ensures
            r == (IntegrityConfig { check_on_startup: true, auto_repair: true }),
    {
        IntegrityConfig { check_on_startup: true, auto_repair: true }
    }
}

impl Default for DbEncryptionConfig {
    fn default() -> (r: Self)
        ensures
            !r.enabled, r.key_env@ == "YSH_DB_KEY"@, r.key_file@ == "./db_keyfile"@, r.algorithm@ == "AES-256-GCM"@,
    {
        DbEncryptionConfig {
            enabled: false,
            key_env: to_owned("YSH_DB_KEY"),
            key_file: to_owned("./db_keyfile"),
            algorithm: default_db_enc_algorithm(),
        }
    }
}

/// WebRTC defaults: relay signaling, 2/3/8 participants, 1000 live viewers,
/// 30 coins per minute billed per second, encrypted recordings, three
/// simulcast tiers.
pub fn default_webrtc() -> (r: WebRtcConfig)
    ensures
        r.enabled,
        r.signal_mode@ == "sfu_passthrough"@,
        r.p2p_capacity == 2, r.duo_capacity == 3, r.group_capacity == 8,
        r.max_live_viewers == 1000,
        r.cost_per_minute == 30,
        r.billing_per_second, r.recording_enabled, r.recording_encryption,
        r.simulcast_tiers@.map_values(|s: String| s@) == seq!["q"@, "h"@, "f"@],
        r.quality_chunk_interval == 5,
        r.flash_random,
        r.call_timeout_secs == 30,
{
    let mut tiers: Vec<String> = Vec::new();
    tiers.push(to_owned("q"));
    tiers.push(to_owned("h"));
    tiers.push(to_owned("f"));
    assert(tiers@.map_values(|s: String| s@) =~= seq!["q"@, "h"@, "f"@]);
    WebRtcConfig {
        enabled: true,
        signal_mode: to_owned("sfu_passthrough"),
        p2p_capacity: 2,
        duo_capacity: 3,
        group_capacity: 8,
        max_live_viewers: 1000,
        cost_per_minute: 30,
        billing_per_second: true,
        recording_enabled: true,
        recording_encryption: true,
        simulcast_tiers: tiers,
        quality_chunk_interval: 5,
        flash_random: true,
        call_timeout_secs: 30,
    }
}

/// Analytics defaults: enabled, 30-day dashboards, 90 days of snapshots.
pub fn default_analytics() -> (r: AnalyticsConfig)
    ensures
        r == (AnalyticsConfig { enabled: true, default_range_days: 30, snapshot_retention_days: 90 }),
{
    AnalyticsConfig { enabled: true, default_range_days: 30, snapshot_retention_days: 90 }
}

/// Reads configuration files (the reading itself is done by the caller).
#[derive(Debug, Clone, Copy)]
pub struct ConfigLoader;

impl ConfigLoader {
    pub fn new() -> (r: Self)
        ensures
            r == ConfigLoader,
    {
        ConfigLoader
    }
}

/// A configuration string: a literal, or a reference to an environment
/// variable with an optional default.
#[derive(Debug, Clone)]
pub enum EnvValue {
    Literal(String),
    Reference { env: String, default: Option<String> },
}

/// A configuration port: a literal, or a reference to an environment
/// variable with an optional default.
#[derive(Debug, Clone)]
pub enum EnvValueU16 {
    Literal(u16),
    Reference { env: String, default: Option<u16> },
}

/// Why a configuration value cannot be resolved.
#[derive(Debug, Clone, PartialEq, Eq)]
pub enum ConfigError {
    /// The variable is unset (or empty) and there is no default.
    MissingEnv(String),
    /// The variable does not hold a u16.
    InvalidU16(String),
}

pub open spec fn opt_str(o: Option<String>) -> Option<Seq<char>> {
    match o {
        Some(s) => Some(s@),
        None => None,
    }
}

/// The value of a string setting given the variable's value (if set).
pub open spec fn resolve_spec(v: EnvValue, env_val: Option<Seq<char>>) -> Result<Seq<char>, Seq<char>> {
    match v {
        EnvValue::Literal(s) => Ok(s@),
        EnvValue::Reference { env, default } => match env_val {
            Some(x) if x.len() > 0 => Ok(x),
            _ => match default {
                Some(d) => Ok(d@),
                None => Err(env@),
            },
        },
    }
}

impl EnvValue {
    /// Resolves the setting; `env_val` is the variable's value when it is set.
    pub fn resolve(self, env_val: Option<String>) -> (r: Result<String, ConfigError>)
        ensures
            match resolve_spec(self, opt_str(env_val)) {
                Ok(x) => r matches Ok(s) && s@ == x,
                Err(name) => r matches Err(ConfigError::MissingEnv(n)) && n@ == name,
            },
    {
        match self {
            EnvValue::Literal(s) => Ok(s),
            EnvValue::Reference { env, default } => {
                match env_val {
                    Some(x) => {
                        if x.as_str().unicode_len() > 0 {
                            return Ok(x);
                        }
                    },
                    None => {},
                }
                match default {
                    Some(d) => Ok(d),
                    None => Err(ConfigError::MissingEnv(env)),
                }
            },
        }
    }

    /// Resolves an optional setting: unset references without a default are empty.
    pub fn resolve_or_empty(self, env_val: Option<String>) -> (r: String)
        ensures
            match resolve_spec(self, opt_str(env_val)) {
                Ok(x) => r@ == x,
                Err(_) => r@ == Seq::<char>::empty(),
            },
    {
        match self.resolve(env_val) {
            Ok(s) => s,
            Err(_) => String::new(),
        }
    }
}

pub open spec fn is_digit_char(c: char) -> bool {
    '0' <= c <= '9'
}

pub open spec fn all_digit_chars(d: Seq<char>) -> bool {
    forall|i: int| 0 <= i < d.len() ==> #[trigger] is_digit_char(d[i])
}

/// Value of a run of decimal digit characters.
pub open spec fn digit_chars_value(d: Seq<char>) -> nat
    decreases d.len(),
{
    if d.len() == 0 { 0 } else { digit_chars_value(d.drop_last()) * 10 + (d.last() as nat - '0' as nat) as nat }
}

/// What `str::parse::<u16>` gives: an optional `+` then one or more decimal
/// digits, within range.
pub open spec fn parse_u16_text(s: Seq<char>) -> Option<u16> {
    let d = if s.len() > 0 && s[0] == '+' { s.skip(1) } else { s };
    if d.len() > 0 && all_digit_chars(d) && digit_chars_value(d) <= u16::MAX {
        Some(digit_chars_value(d) as u16)
    } else {
        None
    }
}

proof fn lemma_digit_chars_mono(d: Seq<char>, k: int)
    requires
        0 <= k <= d.len(),
        all_digit_chars(d),
    ensures
        digit_chars_value(d.take(k)) <= digit_chars_value(d),
    decreases d.len() - k,
{
    if k < d.len() {
        lemma_digit_chars_mono(d, k + 1);
        assert(d.take(k + 1).drop_last() =~= d.take(k));
        assert(is_digit_char(d[k]));
        assert(d.take(k + 1).last() == d[k]);
    } else {
        assert(d.take(k) =~= d);
    }
}

/// Parses a port number as `str::parse::<u16>` does.
pub fn parse_u16(s: &str) -> (r: Option<u16>)
    ensures
        r == parse_u16_text(s@),
{
    let cs = crate::text::chars_of(s);
    let start: usize = if cs.len() > 0 && cs[0] == '+' { 1 } else { 0 };
    let ghost d = if s@.len() > 0 && s@[0] == '+' { s@.skip(1) } else { s@ };
    assert(d =~= cs@.skip(start as int));
    if start >= cs.len() {
        return None;
    }
    let mut v: u32 = 0;
    let mut i: usize = start;
    while i < cs.len()
        invariant
            start <= i <= cs.len(),
            cs@ == s@,
            d =~= cs@.skip(start as int),
            d == (if s@.len() > 0 && s@[0] == '+' { s@.skip(1) } else { s@ }),
            forall|t: int| 0 <= t < i - start ==> #[trigger] is_digit_char(d[t]),
            v as nat == digit_chars_value(d.take(i - start)),
            v <= u16::MAX,
        decreases cs.len() - i,
    {
        let c = cs[i];
        if c < '0' || c > '9' {
            assert(!is_digit_char(d[i - start]));
            assert(!all_digit_chars(d));
            return None;
        }
        assert(d.take(i - start + 1).drop_last() =~= d.take(i - start));
        let digit = (c as u32) - ('0' as u32);
        v = v * 10 + digit;
        if v > 65535 {
            proof {
                if all_digit_chars(d) {
                    lemma_digit_chars_mono(d, (i - start + 1) as int);
                }
            }
            return None;
        }
        i += 1;
    }
    assert(d.take(cs.len() - start) =~= d);
    Some(v as u16)
}

impl EnvValueU16 {
    /// Resolves the port; `env_val` is the variable's value when it is set.
    pub fn resolve(self, env_val: Option<String>) -> (r: Result<u16, ConfigError>)
        ensures
            match self {
                EnvValueU16::Literal(v) => r == Ok::<u16, ConfigError>(v),
                EnvValueU16::Reference { env, default } => match opt_str(env_val) {
                    Some(x) if x.len() > 0 => match parse_u16_text(x) {
                        Some(p) => r == Ok::<u16, ConfigError>(p),
                        None => r matches Err(ConfigError::InvalidU16(n)) && n@ == env@,
                    },
                    _ => match default {
                        Some(d) => r == Ok::<u16, ConfigError>(d),
                        None => r matches Err(ConfigError::MissingEnv(n)) && n@ == env@,
                    },
                },
            },
    {
        match self {
            EnvValueU16::Literal(v) => Ok(v),
            EnvValueU16::Reference { env, default } => {
                match env_val {
                    Some(x) => {
                        if x.as_str().unicode_len() > 0 {
                            return match parse_u16(x.as_str()) {
                                Some(p) => Ok(p),
                                None => Err(ConfigError::InvalidU16(env)),
                            };
                        }
                    },
                    None => {},
                }
                match default {
                    Some(d) => Ok(d),
                    None => Err(ConfigError::MissingEnv(env)),
                }
            },
        }
    }
}

/// What resolving a port setting gives: the port, or the variable's name
/// with whether its value was no u16 (`true`) or it was missing (`false`).
pub open spec fn resolve_port_spec(v: EnvValueU16, env_val: Option<Seq<char>>) -> Result<u16, (bool, Seq<char>)> {
    match v {
        EnvValueU16::Literal(p) => Ok(p),
        EnvValueU16::Reference { env, default } => match env_val {
            Some(x) if x.len() > 0 => match parse_u16_text(x) {
                Some(p) => Ok(p),
                None => Err((true, env@)),
            },
            _ => match default {
                Some(d) => Ok(d),
                None => Err((false, env@)),
            },
        },
    }
}

/// Whether a configuration error is the one described by `(invalid_u16, name)`.
pub open spec fn error_is(e: ConfigError, expected: (bool, Seq<char>)) -> bool {
    match e {
        ConfigError::MissingEnv(n) => !expected.0 && n@ == expected.1,
        ConfigError::InvalidU16(n) => expected.0 && n@ == expected.1,
    }
}

/// The settings of a configuration file that may name environment
/// variables: the secrets, the TLS files, the server port and the database
/// address.
pub struct EnvSettings {
    pub jwt_secret: EnvValue,
    pub db_password: EnvValue,
    pub encryption_key: EnvValue,
    pub cert_path: EnvValue,
    pub key_path: EnvValue,
    pub port: EnvValueU16,
    pub database_url: EnvValue,
}

/// The environment's value of the variable each setting names, where it
/// names one that is set.
pub struct EnvValues {
    pub jwt_secret: Option<String>,
    pub db_password: Option<String>,
    pub encryption_key: Option<String>,
    pub cert_path: Option<String>,
    pub key_path: Option<String>,
    pub port: Option<String>,
    pub database_url: Option<String>,
}

/// The resolved settings.
pub struct ResolvedSettings {
    pub jwt_secret: String,
    pub db_password: String,
    pub encryption_key: String,
    pub cert_path: String,
    pub key_path: String,
    pub port: u16,
    pub database_url: String,
}

/// The resolved settings, or the first setting that fails, in the order
/// secrets (JWT secret, database password, encryption key), TLS certificate
/// and key, server port; the database address never fails (an unresolved
/// one is empty).
pub open spec fn resolve_settings_spec(s: EnvSettings, e: EnvValues)
    -> Result<(Seq<char>, Seq<char>, Seq<char>, Seq<char>, Seq<char>, u16, Seq<char>), (bool, Seq<char>)> {
    match resolve_spec(s.jwt_secret, opt_str(e.jwt_secret)) {
        Err(n) => Err((false, n)),
        Ok(jwt) => match resolve_spec(s.db_password, opt_str(e.db_password)) {
            Err(n) => Err((false, n)),
            Ok(dbp) => match resolve_spec(s.encryption_key, opt_str(e.encryption_key)) {
                Err(n) => Err((false, n)),
                Ok(key) => match resolve_spec(s.cert_path, opt_str(e.cert_path)) {
                    Err(n) => Err((false, n)),
                    Ok(cert) => match resolve_spec(s.key_path, opt_str(e.key_path)) {
                        Err(n) => Err((false, n)),
                        Ok(kp) => match resolve_port_spec(s.port, opt_str(e.port)) {
                            Err(x) => Err(x),
                            Ok(port) => Ok((jwt, dbp, key, cert, kp, port,
                                match resolve_spec(s.database_url, opt_str(e.database_url)) {
                                    Ok(u) => u,
                                    Err(_) => Seq::empty(),
                                })),
                        },
                    },
                },
            },
        },
    }
}

/// Resolves every setting that may name an environment variable, given the
/// variables' values; the first failure is the error.
pub fn resolve_env_vars(s: EnvSettings, e: EnvValues) -> (r: Result<ResolvedSettings, ConfigError>)
    ensures
        match resolve_settings_spec(s, e) {
            Ok(t) => r matches Ok(v) && v.jwt_secret@ == t.0 && v.db_password@ == t.1 && v.encryption_key@ == t.2
                && v.cert_path@ == t.3 && v.key_path@ == t.4 && v.port == t.5 && v.database_url@ == t.6,
            Err(x) => r matches Err(err) && error_is(err, x),
        },
{
    let EnvSettings { jwt_secret, db_password, encryption_key, cert_path, key_path, port, database_url } = s;
    let EnvValues { jwt_secret: e1, db_password: e2, encryption_key: e3, cert_path: e4, key_path: e5, port: e6,
        database_url: e7 } = e;
    let jwt = match jwt_secret.resolve(e1) { Ok(v) => v, Err(err) => return Err(err) };
    let dbp = match db_password.resolve(e2) { Ok(v) => v, Err(err) => return Err(err) };
    let key = match encryption_key.resolve(e3) { Ok(v) => v, Err(err) => return Err(err) };
    let cert = match cert_path.resolve(e4) { Ok(v) => v, Err(err) => return Err(err) };
    let kp = match key_path.resolve(e5) { Ok(v) => v, Err(err) => return Err(err) };
    let p = match port.resolve(e6) { Ok(v) => v, Err(err) => return Err(err) };
    let url = database_url.resolve_or_empty(e7);
    Ok(ResolvedSettings {
        jwt_secret: jwt,
        db_password: dbp,
        encryption_key: key,
        cert_path: cert,
        key_path: kp,
        port: p,
        database_url: url,
    })
}

} // verus!
