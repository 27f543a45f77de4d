//! Account rules: registration checks, the login lockout, bearer tokens,
//! two-factor login, recovery codes, KYC levels and message-cipher keys.

use vstd::prelude::*;
use crate::text::{byte_len, has_char, str_eq, to_owned, chars_of, string_of, parse_i64, parse_i64_text,
    utf8_bytes, utf8_of};
use crate::model::{User, RecoveryCode};
use base64::Engine;

verus! {

#[derive(Debug, Clone)]
pub struct RegisterRequest {
    pub username: String,
    pub email: String,
    pub password: String,
}

#[derive(Debug, Clone)]
pub struct LoginRequest {
    pub username: String,
    pub password: String,
}

#[derive(Debug, Clone)]
pub struct UserResponse {
    pub id: i64,
    pub username: String,
    pub email: String,
    pub role: String,
}

#[derive(Debug, Clone)]
pub struct CryptoRequest {
    pub data: String,
}

/// The caller of a request, as its bearer token names it.
#[derive(Debug, Clone)]
pub struct AuthUser {
    pub user_id: String,
    pub role: String,
}

#[derive(Debug, Clone)]
pub struct SetupResponse {
    pub secret: String,
    pub uri: String,
    pub recovery_codes: Vec<String>,
}

#[derive(Debug, Clone)]
pub struct VerifyRequest {
    pub code: String,
}

#[derive(Debug, Clone)]
pub struct DisableRequest {
    pub code: String,
}

#[derive(Debug, Clone)]
pub struct CreateSessionRequest {
    pub user_id: i64,
}

// ───────────────────────── registration ─────────────────────────

#[derive(Debug, Clone, Copy, PartialEq, Eq, Structural)]
pub enum RegisterError {
    /// "Username must be 3-32 chars"
    UsernameLength,
    /// "Password must be at least 8 chars"
    PasswordTooShort,
    /// "Invalid email"
    InvalidEmail,
}

/// A registration is acceptable when the username is 3 to 32 bytes long,
/// the password at least 8 bytes, and the email holds an `@`; the first
/// rule broken, in that order, is the error.
pub fn validate_registration(req: &RegisterRequest) -> (r: Result<(), RegisterError>)
    ensures
        ({
            let ul = utf8_bytes(req.username@).len();
            let pl = utf8_bytes(req.password@).len();
            &&& (ul < 3 || ul > 32) ==> r == Err::<(), RegisterError>(RegisterError::UsernameLength)
            &&& 3 <= ul <= 32 && pl < 8 ==> r == Err::<(), RegisterError>(RegisterError::PasswordTooShort)
            &&& 3 <= ul <= 32 && pl >= 8 && !req.email@.contains('@') ==> r == Err::<(), RegisterError>(RegisterError::InvalidEmail)
            &&& 3 <= ul <= 32 && pl >= 8 && req.email@.contains('@') ==> r is Ok
        }),
{
    let ul = byte_len(req.username.as_str());
    if ul < 3 || ul > 32 {
        return Err(RegisterError::UsernameLength);
    }
    if byte_len(req.password.as_str()) < 8 {
        return Err(RegisterError::PasswordTooShort);
    }
    if !has_char(req.email.as_str(), '@') {
        return Err(RegisterError::InvalidEmail);
    }
    Ok(())
}

// ───────────────────────── login and lockout ─────────────────────────

/// An instant: seconds since the Unix epoch and the nanoseconds past them.
#[derive(Debug, Clone, Copy, PartialEq, Eq, Structural)]
pub struct Timestamp {
    pub secs: i64,
    pub nanos: u32,
}

pub open spec fn before(a: Timestamp, b: Timestamp) -> bool {
    a.secs < b.secs || (a.secs == b.secs && a.nanos < b.nanos)
}

/// Failed logins that lock an account.
pub const MAX_FAILED_LOGINS: i32 = 5;
/// How long a lockout lasts, in seconds (15 minutes).
pub const LOCKOUT_SECS: i64 = 900;

#[derive(Debug, Clone, Copy, PartialEq, Eq, Structural)]
pub enum LoginDecision {
    /// The account is locked: "Account locked. Try again later."
    Locked,
    /// The password was wrong: the new failure count, and the end of the
    /// lockout when this failure locks the account.
    Rejected { new_attempts: i32, lock_until: Option<Timestamp> },
    /// The password was right and a second factor is required.
    RequiresTwoFactor,
    /// The password was right: tokens are issued.
    Granted,
}

pub open spec fn locked_at(lock: Option<Timestamp>, now: Timestamp) -> bool {
    lock matches Some(t) && before(now, t)
}

/// The login rule. A locked account is refused whatever the password; a
/// wrong password counts one more failure, and the fifth or later failure
/// locks the account for 15 minutes from now; a right password asks for
/// the second factor when it is enabled, and is granted otherwise.
pub open spec fn login_spec(attempts: i32, lock: Option<Timestamp>, totp_enabled: bool, password_valid: bool,
    now: Timestamp) -> LoginDecision {
    if locked_at(lock, now) {
        LoginDecision::Locked
    } else if !password_valid {
        let n = attempts + 1;
        LoginDecision::Rejected {
            new_attempts: n as i32,
            lock_until: if n >= MAX_FAILED_LOGINS {
                Some(Timestamp { secs: (now.secs + LOCKOUT_SECS) as i64, nanos: now.nanos })
            } else {
                None
            },
        }
    } else if totp_enabled {
        LoginDecision::RequiresTwoFactor
    } else {
        LoginDecision::Granted
    }
}

pub open spec fn login_fits(attempts: i32, lock: Option<Timestamp>, password_valid: bool, now: Timestamp) -> bool {
    &&& now.secs <= i64::MAX - LOCKOUT_SECS
    &&& !locked_at(lock, now) && !password_valid ==> attempts < i32::MAX
}

pub fn login_decision(attempts: i32, lock: Option<Timestamp>, totp_enabled: bool, password_valid: bool, now: Timestamp)
    -> (r: LoginDecision)
    requires
        login_fits(attempts, lock, password_valid, now),
    ensures
        r == login_spec(attempts, lock, totp_enabled, password_valid, now),
{
    let locked = match lock {
        Some(t) => now.secs < t.secs || (now.secs == t.secs && now.nanos < t.nanos),
        None => false,
    };
    if locked {
        return LoginDecision::Locked;
    }
    if !password_valid {
        let n = attempts + 1;
        let lock_until = if n >= MAX_FAILED_LOGINS {
            Some(Timestamp { secs: now.secs + LOCKOUT_SECS, nanos: now.nanos })
        } else {
            None
        };
        return LoginDecision::Rejected { new_attempts: n, lock_until };
    }
    if totp_enabled {
        LoginDecision::RequiresTwoFactor
    } else {
        LoginDecision::Granted
    }
}

/// Once a failed login locks an account, every login until the lock runs
/// out is refused, even with the right password.
pub proof fn law_lockout_holds(attempts: i32, lock: Option<Timestamp>, totp_enabled: bool, now: Timestamp,
    later: Timestamp, password_valid: bool, attempts_after: i32)
    requires
        login_fits(attempts, lock, false, now),
        attempts + 1 >= MAX_FAILED_LOGINS,
        !locked_at(lock, now),
        later.secs < now.secs + LOCKOUT_SECS,
    ensures
        login_spec(attempts, lock, totp_enabled, false, now) matches LoginDecision::Rejected { lock_until: Some(until), .. }
            && login_spec(attempts_after, Some(until), totp_enabled, password_valid, later) == LoginDecision::Locked,
{
}

/// A wrong password on an unlocked account counts one more failure, and
/// locks the account only from the fifth failure on, for 15 minutes from
/// now; the first four failures never lock.
pub proof fn law_lock_only_from_fifth_failure(attempts: i32, lock: Option<Timestamp>, totp_enabled: bool,
    now: Timestamp)
    requires
        login_fits(attempts, lock, false, now),
        !locked_at(lock, now),
    ensures
        login_spec(attempts, lock, totp_enabled, false, now) matches LoginDecision::Rejected { new_attempts, lock_until }
            && new_attempts == attempts + 1
            && (attempts + 1 < 5 ==> lock_until is None)
            && (attempts + 1 >= 5 ==> lock_until == Some(Timestamp { secs: (now.secs + 900) as i64, nanos: now.nanos })),
{
}

/// A right password on an unlocked account is never refused.
pub proof fn law_valid_password_unlocked(attempts: i32, lock: Option<Timestamp>, totp_enabled: bool, now: Timestamp)
    requires
        !locked_at(lock, now),
    ensures
        login_spec(attempts, lock, totp_enabled, true, now) == (if totp_enabled { LoginDecision::RequiresTwoFactor } else { LoginDecision::Granted }),
{
}

/// What chrono's `DateTime::parse_from_rfc3339` gives for a text: the
/// instant's Unix seconds and nanoseconds, or nothing for a text that is
/// not an RFC 3339 date-time.
pub uninterp spec fn rfc3339_instant(text: Seq<char>) -> Option<(int, int)>;

/// chrono `DateTime::parse_from_rfc3339`, read as Unix seconds
/// (`timestamp`) and nanoseconds (`timestamp_subsec_nanos`). Which texts
/// parse, and to what, is named, not stated.
#[verifier::external_body]
fn parse_rfc3339(text: &str) -> (r: Option<Timestamp>)
    ensures
        r matches Some(t) ==> rfc3339_instant(text@) == Some((t.secs as int, t.nanos as int)),
        r is None ==> rfc3339_instant(text@) is None,
{
    match chrono::DateTime::parse_from_rfc3339(text) {
        Ok(t) => Some(Timestamp { secs: t.timestamp(), nanos: t.timestamp_subsec_nanos() }),
        Err(_) => None,
    }
}

/// What chrono's `DateTime::<Utc>::to_rfc3339` writes for an instant, or
/// nothing when chrono cannot represent it.
pub uninterp spec fn rfc3339_text(secs: int, nanos: int) -> Option<Seq<char>>;

/// An instant in the years 0000 to 9999 with its nanoseconds below one
/// second: one that RFC 3339 text writes with four year digits and no leap
/// second.
pub open spec fn four_digit_year(t: Timestamp) -> bool {
    -62_167_219_200 <= t.secs <= 253_402_300_799 && t.nanos < 1_000_000_000
}

/// chrono `DateTime::from_timestamp(secs, nanos)` then `to_rfc3339`. Besides
/// the name of its text, the contract claims what chrono's source shows for
/// instants of four-digit years: `from_timestamp` accepts them, and
/// `parse_from_rfc3339` reads the written text back as the same instant
/// (the text is `YYYY-MM-DDTHH:MM:SS[.fraction]+00:00`).
#[verifier::external_body]
fn format_rfc3339(t: Timestamp) -> (r: Option<String>)
    ensures
        r matches Some(s) ==> rfc3339_text(t.secs as int, t.nanos as int) == Some(s@),
        r is None ==> rfc3339_text(t.secs as int, t.nanos as int) is None,
        r matches Some(s) ==> (four_digit_year(t) ==> rfc3339_instant(s@) == Some((t.secs as int, t.nanos as int))),
        r is None ==> !four_digit_year(t),
{
    chrono::DateTime::from_timestamp(t.secs, t.nanos).map(|d| d.to_rfc3339())
}

/// The stored end of an account's lockout, as an instant.
pub open spec fn stored_lock(locked_until: Option<String>) -> Option<Timestamp> {
    match locked_until {
        Some(s) => match rfc3339_instant(s@) {
            Some((secs, nanos)) => Some(Timestamp { secs: secs as i64, nanos: nanos as u32 }),
            None => None,
        },
        None => None,
    }
}

/// Whether an account is locked at `now`: its stored lock time parses and
/// lies ahead. A lock time that does not parse locks nothing.
pub fn account_locked(user: &User, now: Timestamp) -> (r: bool)
    ensures
        r == locked_at(stored_lock(user.locked_until), now),
{
    match &user.locked_until {
        Some(s) => match parse_rfc3339(s.as_str()) {
            Some(t) => now.secs < t.secs || (now.secs == t.secs && now.nanos < t.nanos),
            None => false,
        },
        None => false,
    }
}

/// The login decision for a stored user, with the lockout's end written
/// as RFC 3339 text to store (none when it cannot be written).
pub struct LoginStep {
    pub decision: LoginDecision,
    pub lock_until_text: Option<String>,
}

pub fn login_step(user: &User, password_valid: bool, now: Timestamp) -> (r: LoginStep)
    requires
        login_fits(user.failed_login_attempts, stored_lock(user.locked_until), password_valid, now),
    ensures
        r.decision == login_spec(user.failed_login_attempts, stored_lock(user.locked_until), user.totp_enabled,
            password_valid, now),
        match r.decision {
            LoginDecision::Rejected { lock_until: Some(t), .. } => match r.lock_until_text {
                Some(s) => rfc3339_text(t.secs as int, t.nanos as int) == Some(s@)
                    && (four_digit_year(t) ==> rfc3339_instant(s@) == Some((t.secs as int, t.nanos as int))),
                None => rfc3339_text(t.secs as int, t.nanos as int) is None && !four_digit_year(t),
            },
            _ => r.lock_until_text is None,
        },
{
    let lock = match &user.locked_until {
        Some(s) => parse_rfc3339(s.as_str()),
        None => None,
    };
    let decision = login_decision(user.failed_login_attempts, lock, user.totp_enabled, password_valid, now);
    let lock_until_text = match decision {
        LoginDecision::Rejected { lock_until: Some(t), .. } => format_rfc3339(t),
        _ => None,
    };
    LoginStep { decision, lock_until_text }
}

/// The stored user after a login step, as the server writes it back: a
/// wrong password stores the new failure count and, when it locks the
/// account, the lock's end as text; a right password (whether or not a
/// second factor follows) clears the failure count and the lock; a locked
/// account is left as it was. Every other field stays.
pub fn apply_login(user: &mut User, step: &LoginStep)
    ensures
        match step.decision {
            LoginDecision::Locked => final(user).failed_login_attempts == old(user).failed_login_attempts
                && final(user).locked_until == old(user).locked_until,
            LoginDecision::Rejected { new_attempts, .. } => final(user).failed_login_attempts == new_attempts
                && match step.lock_until_text {
                    Some(s) => final(user).locked_until matches Some(t) && t@ == s@,
                    None => final(user).locked_until == old(user).locked_until,
                },
            _ => final(user).failed_login_attempts == 0 && final(user).locked_until is None,
        },
        final(user).id == old(user).id,
        final(user).username == old(user).username,
        final(user).email == old(user).email,
        final(user).password_hash == old(user).password_hash,
        final(user).role == old(user).role,
        final(user).created_at == old(user).created_at,
        final(user).totp_secret == old(user).totp_secret,
        final(user).totp_enabled == old(user).totp_enabled,
        final(user).kyc_level == old(user).kyc_level,
        final(user).do_not_sell == old(user).do_not_sell,
{
    match step.decision {
        LoginDecision::Locked => {},
        LoginDecision::Rejected { new_attempts, .. } => {
            match &step.lock_until_text {
                Some(s) => user.locked_until = Some(to_owned(s.as_str())),
                None => {},
            }
            user.failed_login_attempts = new_attempts;
        },
        _ => reset_failed_attempts(user),
    }
}

/// Clears a user's failed-login count and lockout, as a successful login
/// or recovery does; every other field stays.
pub fn reset_failed_attempts(user: &mut User)
    ensures
        final(user).failed_login_attempts == 0,
        final(user).locked_until is None,
        final(user).id == old(user).id,
        final(user).username == old(user).username,
        final(user).email == old(user).email,
        final(user).password_hash == old(user).password_hash,
        final(user).role == old(user).role,
        final(user).created_at == old(user).created_at,
        final(user).totp_secret == old(user).totp_secret,
        final(user).totp_enabled == old(user).totp_enabled,
        final(user).kyc_level == old(user).kyc_level,
        final(user).do_not_sell == old(user).do_not_sell,
{
    user.failed_login_attempts = 0;
    user.locked_until = None;
}

/// A lockout kept as text holds until it runs out: when the failure that
/// locks an account is stored as the text of its end (text that reads back
/// as that instant, as `login_step` gives for four-digit years), every
/// login before the end is refused, whatever the password and the count.
pub proof fn law_stored_lockout_holds(attempts: i32, lock: Option<Timestamp>, totp_enabled: bool, now: Timestamp,
    stored: String, later: Timestamp, password_valid: bool, attempts_after: i32)
    requires
        login_fits(attempts, lock, false, now),
        attempts + 1 >= MAX_FAILED_LOGINS,
        !locked_at(lock, now),
        rfc3339_instant(stored@) == Some(((now.secs + LOCKOUT_SECS) as int, now.nanos as int)),
        later.secs < now.secs + LOCKOUT_SECS,
    ensures
        login_spec(attempts, lock, totp_enabled, false, now) matches LoginDecision::Rejected { lock_until: Some(until), .. }
            && stored_lock(Some(stored)) == Some(until),
        login_spec(attempts_after, stored_lock(Some(stored)), totp_enabled, password_valid, later) == LoginDecision::Locked,
{
}

/// After a right password the stored record is unlocked with no failures,
/// so the next login with the right password is not refused.
pub proof fn law_right_password_resets(attempts: i32, lock: Option<Timestamp>, totp_enabled: bool, now: Timestamp,
    later: Timestamp)
    requires
        !locked_at(lock, now),
    ensures
        !(login_spec(attempts, lock, totp_enabled, true, now) is Locked),
        !(login_spec(attempts, lock, totp_enabled, true, now) is Rejected),
        login_spec(0, None, totp_enabled, true, later) == login_spec(attempts, lock, totp_enabled, true, now),
{
}

// ───────────────────────── bearer tokens ─────────────────────────

/// The token of an `Authorization` header: what follows `Bearer `.
pub open spec fn bearer_spec(header: Option<Seq<char>>) -> Option<Seq<char>> {
    match header {
        Some(h) => if "Bearer "@.is_prefix_of(h) { Some(h.skip(7)) } else { None },
        None => None,
    }
}

pub open spec fn opt_view(o: Option<&str>) -> Option<Seq<char>> {
    match o { Some(s) => Some(s@), None => None }
}

/// Extracts the bearer token; a missing header or another scheme gives none.
pub fn bearer_token(header: Option<&str>) -> (r: Option<String>)
    ensures
        match r { Some(t) => bearer_spec(opt_view(header)) == Some(t@), None => bearer_spec(opt_view(header)) is None },
{
    proof { reveal_strlit("Bearer "); }
    match header {
        None => None,
        Some(h) => {
            let cs = chars_of(h);
            let prefix = chars_of("Bearer ");
            if cs.len() < 7 {
                assert(!"Bearer "@.is_prefix_of(h@));
                return None;
            }
            let mut i: usize = 0;
            while i < 7
                invariant
                    cs@ == h@, prefix@ == "Bearer "@, prefix.len() == 7, cs.len() >= 7,
                    opt_view(header) == Some(h@),
                    i <= 7,
                    forall|k: int| 0 <= k < i ==> cs@[k] == prefix@[k],
                decreases 7 - i,
            {
                if cs[i] != prefix[i] {
                    assert(!"Bearer "@.is_prefix_of(h@)) by {
                        assert(h@.subrange(0, 7)[i as int] == h@[i as int]);
                    }
                    return None;
                }
                i += 1;
            }
            assert("Bearer "@.is_prefix_of(h@)) by {
                assert(h@.subrange(0, 7) =~= "Bearer "@);
            }
            let t = string_of(&cs, 7, cs.len());
            assert(t@ =~= h@.skip(7));
            Some(t)
        },
    }
}

/// The kind of token issued between the password and the second factor.
pub open spec fn pending_kind() -> Seq<char> {
    "2fa_pending"@
}

/// The caller named by a validated token's claims; a token still waiting
/// for its second factor names nobody.
pub fn accept_claims(sub: &str, role: &str, kind: &str) -> (r: Option<AuthUser>)
    ensures
        kind@ == pending_kind() ==> r is None,
        kind@ != pending_kind() ==> (r matches Some(u) && u.user_id@ == sub@ && u.role@ == role@),
{
    proof { reveal_strlit("2fa_pending"); }
    if str_eq(kind, "2fa_pending") {
        return None;
    }
    Some(AuthUser { user_id: to_owned(sub), role: to_owned(role) })
}

/// The numeric id of an authenticated caller; `None` when the token's
/// subject is not a number.
pub fn caller_id(auth: &AuthUser) -> (r: Option<i64>)
    ensures
        r == parse_i64(auth.user_id@),
{
    parse_i64_text(auth.user_id.as_str())
}

// ───────────────────────── two-factor login ─────────────────────────

#[derive(Debug, Clone, Copy, PartialEq, Eq, Structural)]
pub enum TwoFactorError {
    /// "Invalid token type"
    InvalidTokenType,
    /// "Invalid token"
    InvalidToken,
    /// "2FA not configured"
    NotConfigured,
    /// The stored secret is not valid base64.
    SecretUnreadable,
}

/// base64's decoding error, carried opaque.
#[verifier::external_type_specification]
#[verifier::external_body]
pub struct ExDecodeError(base64::DecodeError);

/// What base64's standard engine decodes a text to, or nothing when the
/// text is not valid padded standard base64.
pub uninterp spec fn base64_decoded(text: Seq<u8>) -> Option<Seq<u8>>;

/// base64 `STANDARD.decode`. Which texts decode, and to what, is named,
/// not stated.
#[verifier::external_body]
fn base64_decode(text: &[u8]) -> (r: Result<Vec<u8>, base64::DecodeError>)
    ensures
        r matches Ok(b) ==> base64_decoded(text@) == Some(b@),
        r is Err ==> base64_decoded(text@) is None,
{
    base64::engine::general_purpose::STANDARD.decode(text)
}

/// The second step of a login with two factors: the temporary token must
/// be of the pending kind and name a numeric user, who must have a stored
/// secret; gives the user and the decoded secret to check the code against.
pub fn two_factor_login(kind: &str, sub: &str, stored_secret: Option<&str>) -> (r: Result<(i64, Vec<u8>), TwoFactorError>)
    ensures
        kind@ != pending_kind() ==> r == Err::<(i64, Vec<u8>), TwoFactorError>(TwoFactorError::InvalidTokenType),
        kind@ == pending_kind() && parse_i64(sub@) is None ==> r == Err::<(i64, Vec<u8>), TwoFactorError>(TwoFactorError::InvalidToken),
        kind@ == pending_kind() && parse_i64(sub@) is Some && stored_secret is None ==>
            r == Err::<(i64, Vec<u8>), TwoFactorError>(TwoFactorError::NotConfigured),
        (kind@ == pending_kind() && parse_i64(sub@) is Some && stored_secret is Some) ==>
            match base64_decoded(utf8_bytes(stored_secret.unwrap()@)) {
                Some(b) => (r matches Ok((id, secret)) && Some(id) == parse_i64(sub@) && secret@ == b),
                None => r == Err::<(i64, Vec<u8>), TwoFactorError>(TwoFactorError::SecretUnreadable),
            },
{
    proof { reveal_strlit("2fa_pending"); }
    if !str_eq(kind, "2fa_pending") {
        return Err(TwoFactorError::InvalidTokenType);
    }
    let id = match parse_i64_text(sub) {
        Some(id) => id,
        None => return Err(TwoFactorError::InvalidToken),
    };
    let s = match stored_secret {
        Some(s) => s,
        None => return Err(TwoFactorError::NotConfigured),
    };
    let bytes = utf8_of(s);
    match base64_decode(bytes.as_slice()) {
        Ok(secret) => Ok((id, secret)),
        Err(_) => Err(TwoFactorError::SecretUnreadable),
    }
}

// ───────────────────────── recovery codes ─────────────────────────

pub open spec fn used_count(codes: Seq<RecoveryCode>) -> nat
    decreases codes.len(),
{
    if codes.len() == 0 { 0 } else { used_count(codes.drop_last()) + if codes.last().used { 1nat } else { 0nat } }
}

proof fn lemma_used_count_le(codes: Seq<RecoveryCode>)
    ensures
        used_count(codes) <= codes.len(),
    decreases codes.len(),
{
    if codes.len() > 0 {
        lemma_used_count_le(codes.drop_last());
    }
}

/// How many recovery codes there are, how many were used, how many remain.
pub fn recovery_summary(codes: &Vec<RecoveryCode>) -> (r: (usize, usize, usize))
    ensures
        r.0 == codes.len(),
        r.1 == used_count(codes@),
        r.2 == codes.len() - used_count(codes@),
{
    let mut used: usize = 0;
    let mut i: usize = 0;
    while i < codes.len()
        invariant
            i <= codes.len(),
            used == used_count(codes@.take(i as int)),
            used <= i,
        decreases codes.len() - i,
    {
        assert(codes@.take(i + 1).drop_last() =~= codes@.take(i as int));
        if codes[i].used {
            used += 1;
        }
        i += 1;
    }
    assert(codes@.take(codes.len() as int) =~= codes@);
    (codes.len(), used, codes.len() - used)
}

/// The first code from `from` on, in order, that is unused and that the
/// offered code matches (`matches[i]` says whether it matches code `i`).
pub open spec fn pick_code(codes: Seq<RecoveryCode>, matches: Seq<bool>, from: int) -> Option<int>
    decreases codes.len() - from,
{
    if from < 0 || from >= codes.len() {
        None
    } else if !codes[from].used && matches[from] {
        Some(from)
    } else {
        pick_code(codes, matches, from + 1)
    }
}

proof fn lemma_pick_code(codes: Seq<RecoveryCode>, matches: Seq<bool>, from: int)
    requires
        0 <= from,
    ensures
        pick_code(codes, matches, from) matches Some(i) ==> from <= i < codes.len() && !codes[i].used && matches[i]
            && forall|j: int| from <= j < i ==> codes[j].used || !matches[j],
        pick_code(codes, matches, from) is None ==> forall|j: int| from <= j < codes.len() ==> codes[j].used || !matches[j],
    decreases codes.len() - from,
{
    if from < codes.len() && (codes[from].used || !matches[from]) {
        lemma_pick_code(codes, matches, from + 1);
    }
}

pub open spec fn opt_int(o: Option<usize>) -> Option<int> {
    match o { Some(i) => Some(i as int), None => None }
}

/// The first code, in order, that is unused and that the offered code
/// matches; `matches[i]` says whether the offered code matches code `i`.
pub fn recovery_to_use(codes: &Vec<RecoveryCode>, matches: &Vec<bool>) -> (r: Option<usize>)
    requires
        matches.len() == codes.len(),
    ensures
        opt_int(r) == pick_code(codes@, matches@, 0),
        r matches Some(i) ==> i < codes.len() && !codes@[i as int].used && matches@[i as int]
            && forall|j: int| 0 <= j < i ==> codes@[j].used || !matches@[j],
        r is None ==> forall|j: int| 0 <= j < codes.len() ==> codes@[j].used || !matches@[j],
{
    let mut i: usize = 0;
    while i < codes.len()
        invariant
            matches.len() == codes.len(),
            i <= codes.len(),
            forall|j: int| 0 <= j < i ==> codes@[j].used || !matches@[j],
            pick_code(codes@, matches@, 0) == pick_code(codes@, matches@, i as int),
        decreases codes.len() - i,
    {
        if !codes[i].used && matches[i] {
            return Some(i);
        }
        i += 1;
    }
    None
}

/// The codes after the code with id `id` was used: each code with that id
/// marked used, the others as they were.
pub open spec fn mark_used_spec(codes: Seq<RecoveryCode>, id: i64) -> Seq<RecoveryCode> {
    Seq::new(codes.len(), |j: int| if codes[j].id == id { RecoveryCode { used: true, ..codes[j] } } else { codes[j] })
}

/// Marks the recovery code with id `code_id` as used.
pub fn mark_recovery_code_used(codes: &mut Vec<RecoveryCode>, code_id: i64)
    ensures
        final(codes)@ == mark_used_spec(old(codes)@, code_id),
{
    let ghost orig = codes@;
    let mut i: usize = 0;
    while i < codes.len()
        invariant
            codes.len() == orig.len(),
            i <= codes.len(),
            forall|j: int| 0 <= j < i ==> codes@[j] == mark_used_spec(orig, code_id)[j],
            forall|j: int| i <= j < codes.len() ==> codes@[j] == orig[j],
        decreases codes.len() - i,
    {
        if codes[i].id == code_id {
            let mut c = codes.remove(i);
            c.used = true;
            codes.insert(i, c);
        }
        i += 1;
    }
    assert(codes@ =~= mark_used_spec(orig, code_id));
}

/// Redeems an offered recovery code: the first unused code it matches is
/// marked used and its position returned; when none matches, the codes
/// stay as they were.
pub fn redeem_recovery_code(codes: &mut Vec<RecoveryCode>, matches: &Vec<bool>) -> (r: Option<usize>)
    requires
        matches.len() == old(codes).len(),
    ensures
        opt_int(r) == pick_code(old(codes)@, matches@, 0),
        match r {
            Some(i) => final(codes)@ == mark_used_spec(old(codes)@, old(codes)@[i as int].id),
            None => final(codes)@ == old(codes)@,
        },
{
    let r = recovery_to_use(codes, matches);
    match r {
        Some(i) => {
            let id = codes[i].id;
            mark_recovery_code_used(codes, id);
        },
        None => {},
    }
    r
}

/// A recovery code works once: after it is redeemed it is used, a second
/// offer never picks it again, and when no other unused code matches the
/// offer, the second offer is refused; codes with other ids are untouched.
pub proof fn law_recovery_code_single_use(codes: Seq<RecoveryCode>, matches: Seq<bool>, i: int)
    requires
        matches.len() == codes.len(),
        pick_code(codes, matches, 0) == Some(i),
    ensures
        mark_used_spec(codes, codes[i].id)[i].used,
        pick_code(mark_used_spec(codes, codes[i].id), matches, 0) != Some(i),
        (forall|j: int| 0 <= j < codes.len() && j != i && matches[j] ==> codes[j].used || codes[j].id == codes[i].id)
            ==> pick_code(mark_used_spec(codes, codes[i].id), matches, 0) is None,
        forall|j: int| 0 <= j < codes.len() && codes[j].id != codes[i].id
            ==> mark_used_spec(codes, codes[i].id)[j] == codes[j],
{
    let after = mark_used_spec(codes, codes[i].id);
    lemma_pick_code(codes, matches, 0);
    lemma_pick_code(after, matches, 0);
    assert(after[i].used);
}

// ───────────────────────── KYC ─────────────────────────

/// The name of a KYC level.
pub open spec fn kyc_status_spec(level: i32) -> Seq<char> {
    if level == 0 { "unverified"@ }
    else if level == 1 { "email_verified"@ }
    else if level == 2 { "id_submitted"@ }
    else if level == 3 { "fully_verified"@ }
    else { "unknown"@ }
}

pub fn kyc_status(level: i32) -> (r: &'static str)
    ensures
        r@ == kyc_status_spec(level),
{
    if level == 0 { "unverified" }
    else if level == 1 { "email_verified" }
    else if level == 2 { "id_submitted" }
    else if level == 3 { "fully_verified" }
    else { "unknown" }
}

#[derive(Debug, Clone, Copy, PartialEq, Eq, Structural)]
pub enum KycError {
    /// "Invalid KYC transition: current=…, requested=…"
    InvalidTransition { current: i32, requested: i32 },
    /// "Maximum KYC level is 3"
    AboveMaximum,
}

/// A KYC request may only raise the level by one, and never above 3. The
/// requested level is read as an `i32`, truncating as `as` does.
pub fn kyc_transition(current: i32, requested: i64) -> (r: Result<i32, KycError>)
    requires
        current < i32::MAX,
    ensures
        (requested as i32) != current + 1 ==>
            r == Err::<i32, KycError>(KycError::InvalidTransition { current, requested: requested as i32 }),
        (requested as i32) == current + 1 && (requested as i32) > 3 ==> r == Err::<i32, KycError>(KycError::AboveMaximum),
        (requested as i32) == current + 1 && (requested as i32) <= 3 ==> r == Ok::<i32, KycError>(requested as i32),
{
    let target = requested as i32;
    if target != current + 1 {
        return Err(KycError::InvalidTransition { current, requested: target });
    }
    if target > 3 {
        return Err(KycError::AboveMaximum);
    }
    Ok(target)
}

// ───────────────────────── message cipher ─────────────────────────

#[derive(Debug, Clone, Copy, PartialEq, Eq, Structural)]
pub enum CipherKind {
    Aes256Gcm,
    ChaCha20Poly1305,
}

/// The cipher an algorithm name selects; an unknown name selects none.
pub fn cipher_for(algorithm: &str) -> (r: Option<CipherKind>)
    ensures
        r == (if algorithm@ == "aes-256-gcm"@ { Some(CipherKind::Aes256Gcm) }
            else if algorithm@ == "chacha20-poly1305"@ { Some(CipherKind::ChaCha20Poly1305) }
            else { None }),
{
    if str_eq(algorithm, "aes-256-gcm") {
        Some(CipherKind::Aes256Gcm)
    } else if str_eq(algorithm, "chacha20-poly1305") {
        Some(CipherKind::ChaCha20Poly1305)
    } else {
        None
    }
}

/// A 32-byte key from a secret's bytes: its first 32 bytes, padded with
/// zeros when it is shorter.
pub open spec fn key_bytes_spec(secret: Seq<u8>) -> Seq<u8> {
    Seq::new(32, |i: int| if i < secret.len() { secret[i] } else { 0u8 })
}

pub fn key_from_secret(secret: &[u8]) -> (r: Vec<u8>)
    ensures
        r@ == key_bytes_spec(secret@),
{
    let mut key: Vec<u8> = Vec::new();
    let mut i: usize = 0;
    while i < 32
        invariant
            i <= 32,
            key.len() == i,
            forall|k: int| 0 <= k < i ==> key@[k] == (if k < secret.len() { secret@[k] } else { 0u8 }),
        decreases 32 - i,
    {
        if i < secret.len() {
            key.push(secret[i]);
        } else {
            key.push(0);
        }
        i += 1;
    }
    assert(key@ =~= key_bytes_spec(secret@));
    key
}

// ───────────────────────── sealed messages ─────────────────────────

#[derive(Debug, Clone, Copy, PartialEq, Eq, Structural)]
pub enum MessageError {
    /// "Missing ciphertext"
    MissingCiphertext,
    /// "Missing nonce"
    MissingNonce,
    /// The ciphertext is not valid base64.
    BadCiphertext,
    /// The nonce is not valid base64.
    BadNonce,
    /// "Invalid nonce length"
    InvalidNonceLength,
}

/// Reads a sealed message: its base64 ciphertext and nonce are both
/// required and must decode, and the nonce must be 12 bytes.
pub fn decode_sealed_message(ciphertext: Option<&str>, nonce: Option<&str>) -> (r: Result<(Vec<u8>, Vec<u8>), MessageError>)
    ensures
        ciphertext is None ==> r == Err::<(Vec<u8>, Vec<u8>), MessageError>(MessageError::MissingCiphertext),
        ciphertext is Some && nonce is None ==> r == Err::<(Vec<u8>, Vec<u8>), MessageError>(MessageError::MissingNonce),
        ciphertext is Some && nonce is Some ==> match base64_decoded(utf8_bytes(ciphertext.unwrap()@)) {
            None => r == Err::<(Vec<u8>, Vec<u8>), MessageError>(MessageError::BadCiphertext),
            Some(c) => match base64_decoded(utf8_bytes(nonce.unwrap()@)) {
                None => r == Err::<(Vec<u8>, Vec<u8>), MessageError>(MessageError::BadNonce),
                Some(n) => if n.len() != 12 {
                    r == Err::<(Vec<u8>, Vec<u8>), MessageError>(MessageError::InvalidNonceLength)
                } else {
                    (r matches Ok((cv, nv)) && cv@ == c && nv@ == n)
                },
            },
        },
{
    let c = match ciphertext { None => return Err(MessageError::MissingCiphertext), Some(c) => c };
    let n = match nonce { None => return Err(MessageError::MissingNonce), Some(n) => n };
    let cb = utf8_of(c);
    let ct = match base64_decode(cb.as_slice()) {
        Err(_) => return Err(MessageError::BadCiphertext),
        Ok(v) => v,
    };
    let nb = utf8_of(n);
    let nv = match base64_decode(nb.as_slice()) {
        Err(_) => return Err(MessageError::BadNonce),
        Ok(v) => v,
    };
    if nv.len() != 12 {
        return Err(MessageError::InvalidNonceLength);
    }
    Ok((ct, nv))
}

} // verus!
