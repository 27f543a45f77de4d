//! The platform's records, and the rules that change them: wallet
//! balances, spending limits, receipts and their digests, call billing,
//! payouts and the gift catalog.

use vstd::prelude::*;
use crate::text::{push_str, push_int, int_text, str_eq, to_owned, utf8_bytes, utf8_of};
use crate::encryption::hex_text;
use crate::ai::{contains_text, find_text, lowercased, to_lowercase};

verus! {

#[derive(Debug, Clone)]
pub struct User {
    pub id: i64,
    pub username: String,
    pub email: String,
    pub password_hash: String,
    pub role: String,
    pub created_at: String,
    pub failed_login_attempts: i32,
    pub locked_until: Option<String>,
    pub totp_secret: Option<String>,
    pub totp_enabled: bool,
    pub kyc_level: i32,
    pub do_not_sell: bool,
}

#[derive(Debug, Clone)]
pub struct RecoveryCode {
    pub id: i64,
    pub code_hash: String,
    pub used: bool,
}

#[derive(Debug, Clone)]
pub struct ConsentRecord {
    pub id: i64,
    pub consent_type: String,
    pub granted: bool,
    pub created_at: String,
}

#[derive(Debug, Clone)]
pub struct Wallet {
    pub user_id: i64,
    pub balance: i64,
    pub frozen: bool,
    pub created_at: String,
    pub updated_at: String,
}

#[derive(Debug, Clone)]
pub struct Transaction {
    pub id: i64,
    pub user_id: i64,
    pub tx_type: String,
    pub amount: i64,
    pub description: String,
    pub target_user_id: Option<i64>,
    pub created_at: String,
}

#[derive(Debug, Clone)]
pub struct GiftCatalog {
    pub id: i64,
    pub name: String,
    pub description: String,
    pub price: i64,
    pub rarity: String,
}

#[derive(Debug, Clone)]
pub struct GiftRecord {
    pub id: i64,
    pub from_user_id: i64,
    pub to_user_id: i64,
    pub gift_id: i64,
    pub price: i64,
    pub created_at: String,
}

#[derive(Debug, Clone)]
pub struct Moment {
    pub id: i64,
    pub user_id: i64,
    pub content: String,
    pub media_url: String,
    pub media_type: String,
    pub likes_count: i64,
    pub comments_count: i64,
    pub created_at: String,
}

#[derive(Debug, Clone)]
pub struct Notification {
    pub id: i64,
    pub user_id: i64,
    pub ntype: String,
    pub title: String,
    pub body: String,
    pub data: String,
    pub read: bool,
    pub channel: String,
    pub status: String,
    pub retries: i32,
    pub created_at: String,
    pub sent_at: Option<String>,
}

#[derive(Debug, Clone)]
pub struct ChatSession {
    pub id: i64,
    pub session_type: String,
    pub created_at: String,
    pub updated_at: String,
}

#[derive(Debug, Clone)]
pub struct Message {
    pub id: i64,
    pub session_id: i64,
    pub sender_id: i64,
    pub content: String,
    pub msg_type: String,
    pub encrypted: bool,
    pub read: bool,
    pub created_at: String,
}

#[derive(Debug, Clone)]
pub struct Referral {
    pub id: i64,
    pub referrer_id: i64,
    pub referred_id: i64,
    pub code: String,
    pub status: String,
    pub referred_at: String,
    pub first_purchase_at: Option<String>,
    pub total_earned: i64,
}

#[derive(Debug, Clone)]
pub struct CallBilling {
    pub id: i64,
    pub caller_id: i64,
    pub host_id: i64,
    pub call_type: String,
    pub started_at: String,
    pub ended_at: Option<String>,
    pub duration_secs: i64,
    pub cost_per_min: i64,
    pub total_cost: i64,
    pub host_earnings: i64,
    pub platform_fee: i64,
    pub status: String,
}

#[derive(Debug, Clone)]
pub struct Payout {
    pub id: i64,
    pub user_id: i64,
    pub amount: i64,
    pub currency: String,
    pub wallet_address: String,
    pub network: String,
    pub status: String,
    pub tx_hash: Option<String>,
    pub requested_at: String,
    pub processed_at: Option<String>,
    pub admin_id: Option<i64>,
    pub notes: String,
}

#[derive(Debug, Clone)]
pub struct FraudAlert {
    pub id: i64,
    pub user_id: Option<i64>,
    pub alert_type: String,
    pub severity: String,
    pub description: String,
    pub evidence: String,
    pub status: String,
    pub ip_address: Option<String>,
    pub created_at: String,
    pub resolved_at: Option<String>,
    pub resolved_by: Option<i64>,
}

#[derive(Debug, Clone)]
pub struct Receipt {
    pub id: i64,
    pub user_id: i64,
    pub receipt_type: String,
    pub reference_id: i64,
    pub amount: i64,
    pub currency: String,
    pub description: String,
    pub metadata: String,
    pub receipt_hash: String,
    pub created_at: String,
}

#[derive(Debug, Clone)]
pub struct SpendingLimit {
    pub user_id: i64,
    pub daily_limit: i64,
    pub monthly_limit: i64,
    pub daily_spent: i64,
    pub monthly_spent: i64,
    pub last_reset_date: String,
}

#[derive(Debug, Clone)]
pub struct NftGift {
    pub id: i64,
    pub user_id: i64,
    pub gift_id: i64,
    pub gift_record_id: i64,
    pub token_id: String,
    pub unlocked: bool,
    pub minted_at: String,
}

#[derive(Debug, Clone)]
pub struct BlockRecord {
    pub blocked_user_id: i64,
    pub created_at: String,
}

#[derive(Debug, Clone)]
pub struct Report {
    pub id: i64,
    pub reporter_id: i64,
    /// user | moment | message | host | agency
    pub target_type: String,
    pub target_id: i64,
    /// spam | nsfw | scam | harassment | violence | fraud | other
    pub category: String,
    pub description: String,
    /// pending | reviewed | actioned | dismissed
    pub status: String,
    pub created_at: String,
    pub reviewed_at: Option<String>,
    pub reviewed_by: Option<i64>,
}

#[derive(Debug, Clone)]
pub struct VerificationBadge {
    pub id: i64,
    pub user_id: i64,
    /// email_verified | identity_verified | agency | host | staff
    pub badge_type: String,
    pub granted_at: String,
    pub active: bool,
}

#[derive(Debug, Clone)]
pub struct Appeal {
    pub id: i64,
    pub user_id: i64,
    /// ban | shadow_ban | content_flag
    pub target_type: String,
    pub target_id: i64,
    pub reason: String,
    /// open | approved | rejected
    pub status: String,
    pub created_at: String,
    pub reviewed_at: Option<String>,
    pub reviewed_by: Option<i64>,
    pub admin_notes: String,
}

#[derive(Debug, Clone)]
pub struct ShadowBan {
    pub user_id: i64,
    pub banned_at: String,
    pub reason: String,
    pub banned_until: Option<String>,
}

#[derive(Debug, Clone, Copy, PartialEq, Eq, Structural)]
pub enum IntegrityStatus {
    Intact,
    Repaired,
    Corrupted,
}

#[derive(Debug, Clone)]
pub struct IntegrityReport {
    pub status: IntegrityStatus,
    pub message: String,
}

impl IntegrityReport {
    /// The report of a storage integrity check: `Intact` when the check passed
    /// as it was, `Repaired` when the store had to be repaired.
    pub fn from_check(passed: bool) -> (r: IntegrityReport)
        ensures
            r.status == (if passed { IntegrityStatus::Intact } else { IntegrityStatus::Repaired }),
            r.message@ == (if passed { "Database integrity check passed"@ } else { "Database was repaired during integrity check"@ }),
    {
        if passed {
            IntegrityReport { status: IntegrityStatus::Intact, message: to_owned("Database integrity check passed") }
        } else {
            IntegrityReport { status: IntegrityStatus::Repaired, message: to_owned("Database was repaired during integrity check") }
        }
    }
}

// ───────────────────────── wallets ─────────────────────────

/// The balance after a deposit of `amount`.
pub open spec fn deposited(balance: int, amount: int) -> int {
    balance + amount
}

/// The balance after a withdrawal of `amount`, or none when the balance
/// does not cover it.
pub open spec fn withdrawn(balance: int, amount: int) -> Option<int> {
    if balance < amount { None } else { Some(balance - amount) }
}

/// The two balances after a transfer of `amount`: taken from the first
/// and given to the second when the first covers it, else unchanged.
pub open spec fn transferred(from: int, to: int, amount: int) -> (int, int) {
    match withdrawn(from, amount) {
        Some(f) => (f, deposited(to, amount)),
        None => (from, to),
    }
}

/// Why a wallet refused a debit: the balance is below the amount.
#[derive(Debug, Clone, Copy, PartialEq, Eq, Structural)]
pub enum WalletError {
    InsufficientFunds { balance: i64, amount: i64 },
}

impl Wallet {
    /// A new, empty, unfrozen wallet.
    pub fn open(user_id: i64, now: &str) -> (w: Wallet)
        ensures
            w.user_id == user_id,
            w.balance == 0,
            !w.frozen,
            w.created_at@ == now@,
            w.updated_at@ == now@,
    {
        Wallet { user_id, balance: 0, frozen: false, created_at: to_owned(now), updated_at: to_owned(now) }
    }

    /// Adds `amount`; gives the new balance.
    pub fn deposit(&mut self, amount: i64, now: &str) -> (r: i64)
        requires
            i64::MIN <= old(self).balance + amount <= i64::MAX,
        ensures
            final(self).balance == deposited(old(self).balance as int, amount as int),
            r == final(self).balance,
            final(self).updated_at@ == now@,
            final(self).user_id == old(self).user_id,
            final(self).frozen == old(self).frozen,
            final(self).created_at@ == old(self).created_at@,
    {
        self.balance = self.balance + amount;
        self.updated_at = to_owned(now);
        self.balance
    }

    /// Takes `amount` away when the balance covers it; gives the new balance.
    /// A balance below the amount is refused and the wallet is unchanged.
    pub fn withdraw(&mut self, amount: i64, now: &str) -> (r: Result<i64, WalletError>)
        requires
            old(self).balance >= amount ==> old(self).balance - amount <= i64::MAX,
        ensures
            match withdrawn(old(self).balance as int, amount as int) {
                None => r == Err::<i64, WalletError>(WalletError::InsufficientFunds { balance: old(self).balance, amount })
                    && final(self).balance == old(self).balance
                    && final(self).updated_at@ == old(self).updated_at@,
                Some(b) => final(self).balance == b
                    && r == Ok::<i64, WalletError>(final(self).balance)
                    && final(self).updated_at@ == now@,
            },
            final(self).user_id == old(self).user_id,
            final(self).frozen == old(self).frozen,
            final(self).created_at@ == old(self).created_at@,
    {
        if self.balance < amount {
            return Err(WalletError::InsufficientFunds { balance: self.balance, amount });
        }
        self.balance = self.balance - amount;
        self.updated_at = to_owned(now);
        Ok(self.balance)
    }

    pub fn freeze(&mut self)
        ensures
            final(self).frozen,
            final(self).balance == old(self).balance,
            final(self).user_id == old(self).user_id,
            final(self).updated_at@ == old(self).updated_at@,
    {
        self.frozen = true;
    }

    pub fn unfreeze(&mut self)
        ensures
            !final(self).frozen,
            final(self).balance == old(self).balance,
            final(self).user_id == old(self).user_id,
            final(self).updated_at@ == old(self).updated_at@,
    {
        self.frozen = false;
    }
}

/// Moves `amount` from one wallet to another when the first covers it.
pub fn transfer(from: &mut Wallet, to: &mut Wallet, amount: i64, now: &str) -> (r: Result<(), WalletError>)
    requires
        old(from).balance >= amount ==> old(from).balance - amount <= i64::MAX,
        old(from).balance >= amount ==> i64::MIN <= old(to).balance + amount <= i64::MAX,
    ensures
        (final(from).balance as int, final(to).balance as int)
            == transferred(old(from).balance as int, old(to).balance as int, amount as int),
        withdrawn(old(from).balance as int, amount as int) is None
            ==> r == Err::<(), WalletError>(WalletError::InsufficientFunds { balance: old(from).balance, amount }),
        withdrawn(old(from).balance as int, amount as int) is Some ==> r is Ok,
{
    match from.withdraw(amount, now) {
        Err(e) => Err(e),
        Ok(_) => {
            to.deposit(amount, now);
            Ok(())
        },
    }
}

/// A withdrawal goes through exactly when the balance covers the amount,
/// and then leaves the balance less the amount; a deposit adds the amount.
pub proof fn law_withdraw_covers(balance: int, amount: int)
    ensures
        withdrawn(balance, amount) is Some <==> balance >= amount,
        withdrawn(balance, amount) matches Some(b) ==> b == balance - amount,
        balance >= 0 && amount >= 0 && withdrawn(balance, amount) is Some ==> withdrawn(balance, amount).unwrap() >= 0,
        deposited(balance, amount) - balance == amount,
{
}

/// A transfer moves money and creates none: the two balances sum to what
/// they summed to before, whether the transfer went through or not.
pub proof fn law_transfer_conserves(from: int, to: int, amount: int)
    ensures
        transferred(from, to, amount).0 + transferred(from, to, amount).1 == from + to,
{
}

/// On a wallet that is not in debt, a deposit followed by a withdrawal of
/// the same amount always goes through and gives the starting balance back.
pub proof fn law_deposit_then_withdraw(balance: int, amount: int)
    requires
        balance >= 0,
    ensures
        withdrawn(deposited(balance, amount), amount) == Some(balance),
{
}

// ───────────────────────── receipts ─────────────────────────

/// The BLAKE3 digest of some bytes (32 bytes).
pub uninterp spec fn blake3_digest(data: Seq<u8>) -> Seq<u8>;

/// blake3 `hash(data).to_hex()`: the lowercase hex text of the 32-byte
/// BLAKE3 digest of `data`. The digest itself is named, not stated.
#[verifier::external_body]
pub(crate) fn blake3_hex(data: &[u8]) -> (r: String)
    ensures
        r@ == hex_text(blake3_digest(data@)),
        r@.len() == 64,
{
    blake3::hash(data).to_hex().to_string()
}

/// The text a receipt's digest covers:
/// `user|type|reference|amount|currency|description`.
pub open spec fn receipt_content(user_id: i64, receipt_type: Seq<char>, reference_id: i64, amount: i64,
    currency: Seq<char>, description: Seq<char>) -> Seq<char> {
    int_text(user_id as int) + "|"@ + receipt_type + "|"@ + int_text(reference_id as int) + "|"@
        + int_text(amount as int) + "|"@ + currency + "|"@ + description
}

/// The digest a receipt carries: hex BLAKE3 of its content's UTF-8 bytes.
pub open spec fn receipt_hash_of(user_id: i64, receipt_type: Seq<char>, reference_id: i64, amount: i64,
    currency: Seq<char>, description: Seq<char>) -> Seq<char> {
    hex_text(blake3_digest(utf8_bytes(receipt_content(user_id, receipt_type, reference_id, amount, currency, description))))
}

pub fn receipt_digest(user_id: i64, receipt_type: &str, reference_id: i64, amount: i64, currency: &str, description: &str) -> (r: String)
    ensures
        r@ == receipt_hash_of(user_id, receipt_type@, reference_id, amount, currency@, description@),
{
    let mut content = String::new();
    push_int(&mut content, user_id);
    push_str(&mut content, "|");
    push_str(&mut content, receipt_type);
    push_str(&mut content, "|");
    push_int(&mut content, reference_id);
    push_str(&mut content, "|");
    push_int(&mut content, amount);
    push_str(&mut content, "|");
    push_str(&mut content, currency);
    push_str(&mut content, "|");
    push_str(&mut content, description);
    proof { reveal_strlit("|"); }
    assert(content@ =~= receipt_content(user_id, receipt_type@, reference_id, amount, currency@, description@));
    let bytes = utf8_of(content.as_str());
    blake3_hex(bytes.as_slice())
}

impl Receipt {
    pub open spec fn sealed(&self) -> bool {
        self.receipt_hash@ == receipt_hash_of(self.user_id, self.receipt_type@, self.reference_id, self.amount,
            self.currency@, self.description@)
    }

    /// A receipt sealed with the digest of its content.
    pub fn issue(id: i64, user_id: i64, receipt_type: &str, reference_id: i64, amount: i64, currency: &str,
        description: &str, metadata: &str, created_at: &str) -> (r: Receipt)
        ensures
            r.id == id, r.user_id == user_id, r.receipt_type@ == receipt_type@,
            r.reference_id == reference_id, r.amount == amount, r.currency@ == currency@,
            r.description@ == description@, r.metadata@ == metadata@, r.created_at@ == created_at@,
            r.sealed(),
    {
        let hash = receipt_digest(user_id, receipt_type, reference_id, amount, currency, description);
        Receipt {
            id,
            user_id,
            receipt_type: to_owned(receipt_type),
            reference_id,
            amount,
            currency: to_owned(currency),
            description: to_owned(description),
            metadata: to_owned(metadata),
            receipt_hash: hash,
            created_at: to_owned(created_at),
        }
    }

    /// Whether the stored digest matches the receipt's content.
    pub fn verify(&self) -> (r: bool)
        ensures
            r == self.sealed(),
    {
        let computed = receipt_digest(self.user_id, self.receipt_type.as_str(), self.reference_id, self.amount,
            self.currency.as_str(), self.description.as_str());
        str_eq(computed.as_str(), self.receipt_hash.as_str())
    }
}

/// What a receipt's seal covers is its user, type, reference, amount,
/// currency and description: two receipts that agree on those and carry
/// the same digest are sealed alike, whatever their ids, metadata and
/// dates; and a sealed receipt stays sealed when only those other fields
/// change.
pub proof fn law_seal_covers_content(a: Receipt, b: Receipt)
    requires
        a.user_id == b.user_id,
        a.receipt_type@ == b.receipt_type@,
        a.reference_id == b.reference_id,
        a.amount == b.amount,
        a.currency@ == b.currency@,
        a.description@ == b.description@,
        a.receipt_hash@ == b.receipt_hash@,
    ensures
        a.sealed() == b.sealed(),
{
}

// ───────────────────────── file digests ─────────────────────────

/// The digest recorded for a configuration file: hex BLAKE3 of its bytes.
pub fn config_digest(content: &[u8]) -> (r: String)
    ensures
        r@ == hex_text(blake3_digest(content@)),
{
    blake3_hex(content)
}

/// Whether a file's bytes have the recorded digest.
pub fn digest_matches(content: &[u8], recorded: &str) -> (r: bool)
    ensures
        r == (recorded@ == hex_text(blake3_digest(content@))),
{
    let d = blake3_hex(content);
    str_eq(d.as_str(), recorded)
}


// ───────────────────────── spending limits ─────────────────────────

pub const DEFAULT_DAILY_LIMIT: i64 = 100000;
pub const DEFAULT_MONTHLY_LIMIT: i64 = 1000000;

/// The outcome of a spending check.
#[derive(Debug, Clone)]
pub struct SpendingCheck {
    pub allowed: bool,
    /// `OK`, or which limit the amount would exceed.
    pub message: String,
    /// The limits to store after an allowed spend.
    pub updated: Option<SpendingLimit>,
}

/// The limits in force for a check on `today`: the stored ones (defaults
/// when none are stored), with the day's spending cleared on a new day and
/// the month's cleared on a new month.
pub open spec fn effective_daily_spent(stored: Option<SpendingLimit>, today: Seq<char>) -> int {
    match stored {
        Some(sl) => if sl.last_reset_date@ != today { 0 } else { sl.daily_spent as int },
        None => 0,
    }
}

pub open spec fn effective_monthly_spent(stored: Option<SpendingLimit>, this_month: Seq<char>) -> int {
    match stored {
        Some(sl) => if !this_month.is_prefix_of(sl.last_reset_date@) { 0 } else { sl.monthly_spent as int },
        None => 0,
    }
}

pub open spec fn daily_limit_of(stored: Option<SpendingLimit>) -> int {
    match stored { Some(sl) => sl.daily_limit as int, None => DEFAULT_DAILY_LIMIT as int }
}

pub open spec fn monthly_limit_of(stored: Option<SpendingLimit>) -> int {
    match stored { Some(sl) => sl.monthly_limit as int, None => DEFAULT_MONTHLY_LIMIT as int }
}

pub open spec fn exceeded_text(which: Seq<char>, spent: int, amount: int, limit: int) -> Seq<char> {
    which + " limit exceeded: "@ + int_text(spent) + " + "@ + int_text(amount) + " > "@ + int_text(limit)
}

/// The sums a spending check computes fit in an `i64`.
pub open spec fn spending_fits(stored: Option<SpendingLimit>, amount: i64, today: Seq<char>, this_month: Seq<char>) -> bool {
    &&& i64::MIN <= effective_daily_spent(stored, today) + amount <= i64::MAX
    &&& i64::MIN <= effective_monthly_spent(stored, this_month) + amount <= i64::MAX
}

fn starts_with(s: &str, prefix: &str) -> (r: bool)
    ensures
        r == prefix@.is_prefix_of(s@),
{
    let cs = crate::text::chars_of(s);
    let ps = crate::text::chars_of(prefix);
    if ps.len() > cs.len() {
        return false;
    }
    let mut i: usize = 0;
    while i < ps.len()
        invariant
            ps@ == prefix@, cs@ == s@,
            ps.len() <= cs.len(),
            i <= ps.len(),
            forall|j: int| 0 <= j < i ==> ps@[j] == cs@[j],
        decreases ps.len() - i,
    {
        if ps[i] != cs[i] {
            return false;
        }
        i += 1;
    }
    true
}

fn exceeded_message(which: &str, spent: i64, amount: i64, limit: i64) -> (r: String)
    ensures
        r@ == exceeded_text(which@, spent as int, amount as int, limit as int),
{
    let mut m = to_owned(which);
    push_str(&mut m, " limit exceeded: ");
    push_int(&mut m, spent);
    push_str(&mut m, " + ");
    push_int(&mut m, amount);
    push_str(&mut m, " > ");
    push_int(&mut m, limit);
    m
}

/// Checks a spend of `amount` against the limits, on `today`
/// (`YYYY-MM-DD`) in `this_month` (`YYYY-MM`). Over the daily limit, or
/// else over the monthly one, the spend is refused with a message saying
/// which; otherwise it is allowed, and the limits to store count it, with
/// `today` as the reset date.
pub fn check_spending_limit(stored: Option<SpendingLimit>, user_id: i64, amount: i64, today: &str, this_month: &str)
    -> (r: SpendingCheck)
    requires
        spending_fits(stored, amount, today@, this_month@),
    ensures
        ({
            let daily = effective_daily_spent(stored, today@);
            let monthly = effective_monthly_spent(stored, this_month@);
            let dl = daily_limit_of(stored);
            let ml = monthly_limit_of(stored);
            &&& r.allowed == (daily + amount <= dl && monthly + amount <= ml)
            &&& daily + amount > dl ==> r.message@ == exceeded_text("Daily"@, daily, amount as int, dl) && r.updated is None
            &&& daily + amount <= dl && monthly + amount > ml ==>
                    r.message@ == exceeded_text("Monthly"@, monthly, amount as int, ml) && r.updated is None
            &&& r.allowed ==> r.message@ == "OK"@ && (r.updated matches Some(sl)
                    && sl.user_id == user_id
                    && sl.daily_limit == dl && sl.monthly_limit == ml
                    && sl.daily_spent == daily + amount && sl.monthly_spent == monthly + amount
                    && sl.last_reset_date@ == today@)
        }),
{
    let (daily_limit, monthly_limit, daily_spent, monthly_spent) = match &stored {
        Some(sl) => {
            let d = if !str_eq(sl.last_reset_date.as_str(), today) { 0i64 } else { sl.daily_spent };
            let m = if !starts_with(sl.last_reset_date.as_str(), this_month) { 0i64 } else { sl.monthly_spent };
            (sl.daily_limit, sl.monthly_limit, d, m)
        },
        None => (DEFAULT_DAILY_LIMIT, DEFAULT_MONTHLY_LIMIT, 0i64, 0i64),
    };
    if daily_spent + amount > daily_limit {
        return SpendingCheck { allowed: false, message: exceeded_message("Daily", daily_spent, amount, daily_limit), updated: None };
    }
    if monthly_spent + amount > monthly_limit {
        return SpendingCheck { allowed: false, message: exceeded_message("Monthly", monthly_spent, amount, monthly_limit), updated: None };
    }
    let sl = SpendingLimit {
        user_id,
        daily_limit,
        monthly_limit,
        daily_spent: daily_spent + amount,
        monthly_spent: monthly_spent + amount,
        last_reset_date: to_owned(today),
    };
    SpendingCheck { allowed: true, message: to_owned("OK"), updated: Some(sl) }
}

/// Without stored limits a user may spend up to 100000 a day and 1000000 a
/// month, with nothing spent yet; stored totals count only on the day (and
/// in the month) they were stored for.
pub proof fn law_default_spending_limits(sl: SpendingLimit, today: Seq<char>, this_month: Seq<char>)
    ensures
        daily_limit_of(None) == 100000,
        monthly_limit_of(None) == 1000000,
        effective_daily_spent(None, today) == 0,
        effective_monthly_spent(None, this_month) == 0,
        sl.last_reset_date@ != today ==> effective_daily_spent(Some(sl), today) == 0,
        sl.last_reset_date@ == today ==> effective_daily_spent(Some(sl), today) == sl.daily_spent,
        !this_month.is_prefix_of(sl.last_reset_date@) ==> effective_monthly_spent(Some(sl), this_month) == 0,
        this_month.is_prefix_of(sl.last_reset_date@) ==> effective_monthly_spent(Some(sl), this_month) == sl.monthly_spent,
        daily_limit_of(Some(sl)) == sl.daily_limit,
        monthly_limit_of(Some(sl)) == sl.monthly_limit,
{
}

/// Limits stored after an allowed spend are what the next check on the
/// same day starts from: the day's and the month's totals including the
/// spend.
pub proof fn law_spending_accumulates(stored: Option<SpendingLimit>, amount: i64, today: Seq<char>,
    this_month: Seq<char>, next: SpendingLimit)
    requires
        this_month.is_prefix_of(today),
        next.daily_spent == effective_daily_spent(stored, today) + amount,
        next.monthly_spent == effective_monthly_spent(stored, this_month) + amount,
        next.daily_limit == daily_limit_of(stored),
        next.monthly_limit == monthly_limit_of(stored),
        next.last_reset_date@ == today,
    ensures
        effective_daily_spent(Some(next), today) == effective_daily_spent(stored, today) + amount,
        effective_monthly_spent(Some(next), this_month) == effective_monthly_spent(stored, this_month) + amount,
        daily_limit_of(Some(next)) == daily_limit_of(stored),
        monthly_limit_of(Some(next)) == monthly_limit_of(stored),
{
}

// ───────────────────────── call billing ─────────────────────────

/// The minutes a call is billed for: its seconds rounded up to whole
/// minutes, at least one.
pub open spec fn billed_minutes_spec(duration_secs: int) -> int {
    let m = (duration_secs + 59) / 60;
    if m < 1 { 1 } else { m }
}

/// The billed duration of a call from the seconds between its start and
/// its end: never negative.
pub fn billed_duration(elapsed_secs: i64) -> (r: i64)
    ensures
        r == (if elapsed_secs < 0 { 0 } else { elapsed_secs }),
{
    if elapsed_secs < 0 { 0 } else { elapsed_secs }
}

pub fn billed_minutes(duration_secs: i64) -> (r: i64)
    requires
        0 <= duration_secs <= i64::MAX - 59,
    ensures
        r == billed_minutes_spec(duration_secs as int),
        r >= 1,
{
    let m = (duration_secs + 59) / 60;
    if m < 1 { 1 } else { m }
}

/// What a settled call costs: its billed minutes times the rate.
pub fn call_total_cost(duration_secs: i64, cost_per_min: i64) -> (r: i64)
    requires
        0 <= duration_secs <= i64::MAX - 59,
        i64::MIN <= billed_minutes_spec(duration_secs as int) * cost_per_min <= i64::MAX,
    ensures
        r == billed_minutes_spec(duration_secs as int) * cost_per_min,
{
    let m = billed_minutes(duration_secs);
    m * cost_per_min
}

// ───────────────────────── payouts ─────────────────────────

/// The smallest payout that can be requested.
pub const MIN_PAYOUT: i64 = 10;

#[derive(Debug, Clone, Copy, PartialEq, Eq, Structural)]
pub enum PayoutError {
    InsufficientBalance { balance: i64, amount: i64 },
    BelowMinimum,
}

/// The checks on a payout request against the balance: the balance must
/// cover the amount (checked first), and the amount must be at least
/// the minimum.
pub fn payout_allowed(balance: i64, amount: i64) -> (r: Result<(), PayoutError>)
    ensures
        balance < amount ==> r == Err::<(), PayoutError>(PayoutError::InsufficientBalance { balance, amount }),
        balance >= amount && amount < MIN_PAYOUT ==> r == Err::<(), PayoutError>(PayoutError::BelowMinimum),
        balance >= amount && amount >= MIN_PAYOUT ==> r is Ok,
{
    if balance < amount {
        return Err(PayoutError::InsufficientBalance { balance, amount });
    }
    if amount < MIN_PAYOUT {
        return Err(PayoutError::BelowMinimum);
    }
    Ok(())
}

impl Payout {
    /// An admin's decision on a payout: `completed` and `Approved`, or
    /// `rejected` and `Rejected`. Gives the amount to refund to the user's
    /// wallet (all of it on a rejection, none on an approval).
    pub fn process(&mut self, admin_id: i64, tx_hash: &str, approved: bool, now: &str) -> (refund: i64)
        ensures
            final(self).status@ == (if approved { "completed"@ } else { "rejected"@ }),
            final(self).notes@ == (if approved { "Approved"@ } else { "Rejected"@ }),
            final(self).tx_hash matches Some(h) && h@ == tx_hash@,
            final(self).processed_at matches Some(p) && p@ == now@,
            final(self).admin_id == Some(admin_id),
            final(self).amount == old(self).amount,
            final(self).user_id == old(self).user_id,
            refund == (if approved { 0 } else { old(self).amount }),
    {
        self.status = if approved { to_owned("completed") } else { to_owned("rejected") };
        self.tx_hash = Some(to_owned(tx_hash));
        self.processed_at = Some(to_owned(now));
        self.admin_id = Some(admin_id);
        self.notes = if approved { to_owned("Approved") } else { to_owned("Rejected") };
        if approved { 0 } else { self.amount }
    }
}

// ───────────────────────── gifts ─────────────────────────

pub open spec fn catalog_spec() -> Seq<(i64, Seq<char>, Seq<char>, i64, Seq<char>)> {
    seq![
        (1i64, "Rose"@, "A single red rose"@, 10i64, "common"@),
        (2i64, "Heart"@, "A golden heart"@, 50i64, "common"@),
        (3i64, "Diamond Ring"@, "A sparkling diamond ring"@, 200i64, "rare"@),
        (4i64, "Sports Car"@, "A virtual sports car"@, 500i64, "epic"@),
        (5i64, "Yacht"@, "A luxury yacht"@, 1000i64, "legendary"@),
        (6i64, "Private Island"@, "Your own virtual island"@, 5000i64, "legendary"@),
    ]
}

pub open spec fn gift_view(g: GiftCatalog) -> (i64, Seq<char>, Seq<char>, i64, Seq<char>) {
    (g.id, g.name@, g.description@, g.price, g.rarity@)
}

fn gift(id: i64, name: &str, description: &str, price: i64, rarity: &str) -> (g: GiftCatalog)
    ensures
        gift_view(g) == (id, name@, description@, price, rarity@),
{
    GiftCatalog { id, name: to_owned(name), description: to_owned(description), price, rarity: to_owned(rarity) }
}

/// The gift catalog the store is seeded with, cheapest first.
pub fn seeded_gift_catalog() -> (r: Vec<GiftCatalog>)
    ensures
        r@.map_values(|g: GiftCatalog| gift_view(g)) == catalog_spec(),
        forall|i: int, j: int| 0 <= i <= j < r.len() ==> r@[i].price <= r@[j].price,
{
    let mut v: Vec<GiftCatalog> = Vec::new();
    v.push(gift(1, "Rose", "A single red rose", 10, "common"));
    v.push(gift(2, "Heart", "A golden heart", 50, "common"));
    v.push(gift(3, "Diamond Ring", "A sparkling diamond ring", 200, "rare"));
    v.push(gift(4, "Sports Car", "A virtual sports car", 500, "epic"));
    v.push(gift(5, "Yacht", "A luxury yacht", 1000, "legendary"));
    v.push(gift(6, "Private Island", "Your own virtual island", 5000, "legendary"));
    assert(v@.map_values(|g: GiftCatalog| gift_view(g)) =~= catalog_spec());
    v
}

/// The price of the first catalog entry with the given id.
/// A gift's price is that of the first catalog entry with its id; a gift
/// that no entry has is not found. The seeded catalog prices its six gifts
/// at 10, 50, 200, 500, 1000 and 5000.
pub proof fn law_gift_price(catalog: Seq<GiftCatalog>, gift_id: i64)
    ensures
        price_in(catalog, gift_id) is Some <==> exists|i: int| 0 <= i < catalog.len() && #[trigger] catalog[i].id == gift_id,
        price_in(catalog, gift_id) matches Some(p) ==> exists|i: int| 0 <= i < catalog.len() && #[trigger] catalog[i].id == gift_id
            && catalog[i].price == p && forall|j: int| 0 <= j < i ==> catalog[j].id != gift_id,
        catalog_spec().map_values(|g: (i64, Seq<char>, Seq<char>, i64, Seq<char>)| (g.0, g.3))
            == seq![(1i64, 10i64), (2i64, 50i64), (3i64, 200i64), (4i64, 500i64), (5i64, 1000i64), (6i64, 5000i64)],
    decreases catalog.len(),
{
    assert(catalog_spec().map_values(|g: (i64, Seq<char>, Seq<char>, i64, Seq<char>)| (g.0, g.3))
        =~= seq![(1i64, 10i64), (2i64, 50i64), (3i64, 200i64), (4i64, 500i64), (5i64, 1000i64), (6i64, 5000i64)]);
    if catalog.len() > 0 {
        let rest = catalog.drop_first();
        law_gift_price(rest, gift_id);
        if catalog[0].id != gift_id {
            if exists|i: int| 0 <= i < catalog.len() && #[trigger] catalog[i].id == gift_id {
                let i = choose|i: int| 0 <= i < catalog.len() && #[trigger] catalog[i].id == gift_id;
                assert(rest[i - 1].id == gift_id);
            }
            if exists|i: int| 0 <= i < rest.len() && #[trigger] rest[i].id == gift_id {
                let i = choose|i: int| 0 <= i < rest.len() && #[trigger] rest[i].id == gift_id;
                assert(catalog[i + 1].id == gift_id);
            }
            if let Some(p) = price_in(catalog, gift_id) {
                let i = choose|i: int| 0 <= i < rest.len() && #[trigger] rest[i].id == gift_id
                    && rest[i].price == p && forall|j: int| 0 <= j < i ==> rest[j].id != gift_id;
                assert(catalog[i + 1].id == gift_id && catalog[i + 1].price == p);
                assert forall|j: int| 0 <= j < i + 1 implies catalog[j].id != gift_id by {
                    if j > 0 {
                        assert(catalog[j] == rest[j - 1]);
                    }
                }
            }
        } else {
            assert(catalog[0].id == gift_id);
        }
    }
}

pub open spec fn price_in(catalog: Seq<GiftCatalog>, gift_id: i64) -> Option<i64>
    decreases catalog.len(),
{
    if catalog.len() == 0 {
        None
    } else if catalog[0].id == gift_id {
        Some(catalog[0].price)
    } else {
        price_in(catalog.drop_first(), gift_id)
    }
}

/// Looks a gift up by id; `None` when the catalog has no such gift.
pub fn gift_price(catalog: &Vec<GiftCatalog>, gift_id: i64) -> (r: Option<i64>)
    ensures
        r == price_in(catalog@, gift_id),
{
    let mut i: usize = 0;
    assert(catalog@.skip(0) =~= catalog@);
    while i < catalog.len()
        invariant
            i <= catalog.len(),
            price_in(catalog@, gift_id) == price_in(catalog@.skip(i as int), gift_id),
        decreases catalog.len() - i,
    {
        assert(catalog@.skip(i as int).drop_first() =~= catalog@.skip(i + 1));
        if catalog[i].id == gift_id {
            return Some(catalog[i].price);
        }
        i += 1;
    }
    None
}

// ───────────────────────── moment feed ─────────────────────────

/// A moment's place in the feed: its id and its author.
#[derive(Debug, Clone, Copy, PartialEq, Eq, Structural)]
pub struct FeedEntry {
    pub id: i64,
    pub user_id: i64,
}

/// A viewer sees a moment unless its author is blocked by the viewer or
/// shadow-banned, or the moment itself was actioned by moderation.
pub open spec fn shown(e: FeedEntry, blocked: Seq<i64>, shadow: Seq<i64>, actioned: Seq<i64>) -> bool {
    !blocked.contains(e.user_id) && !shadow.contains(e.user_id) && !actioned.contains(e.id)
}

pub open spec fn shown_only(s: Seq<FeedEntry>, blocked: Seq<i64>, shadow: Seq<i64>, actioned: Seq<i64>) -> Seq<FeedEntry>
    decreases s.len(),
{
    if s.len() == 0 {
        s
    } else {
        let rest = shown_only(s.drop_last(), blocked, shadow, actioned);
        if shown(s.last(), blocked, shadow, actioned) { rest.push(s.last()) } else { rest }
    }
}

/// The first position of a newest-first list whose id is below `id`.
pub open spec fn first_below(s: Seq<FeedEntry>, id: i64, from: int) -> int
    decreases s.len() - from,
{
    if from < 0 || from >= s.len() {
        s.len() as int
    } else if s[from].id < id {
        from
    } else {
        first_below(s, id, from + 1)
    }
}

/// Newest first: by id, highest first, entries with equal ids kept in
/// their order.
pub open spec fn newest_first(s: Seq<FeedEntry>) -> Seq<FeedEntry>
    decreases s.len(),
{
    if s.len() == 0 {
        s
    } else {
        let rest = newest_first(s.drop_last());
        rest.insert(first_below(rest, s.last().id, 0), s.last())
    }
}

/// A page of a list: from `offset`, at most `limit` entries; a negative
/// offset gives nothing and a negative limit no bound.
pub open spec fn page_of(s: Seq<FeedEntry>, offset: i64, limit: i64) -> Seq<FeedEntry> {
    if offset < 0 {
        Seq::empty()
    } else {
        let start: int = if offset > s.len() { s.len() as int } else { offset as int };
        let end: int = if limit < 0 || start + limit > s.len() { s.len() as int } else { start + limit };
        s.subrange(start, end)
    }
}

proof fn lemma_first_below_bounds(s: Seq<FeedEntry>, id: i64, from: int)
    requires
        0 <= from <= s.len(),
    ensures
        from <= first_below(s, id, from) <= s.len(),
    decreases s.len() - from,
{
    if from < s.len() && s[from].id >= id {
        lemma_first_below_bounds(s, id, from + 1);
    }
}

fn contains_id(v: &Vec<i64>, x: i64) -> (r: bool)
    ensures
        r == v@.contains(x),
{
    let mut i: usize = 0;
    while i < v.len()
        invariant
            i <= v.len(),
            forall|k: int| 0 <= k < i ==> v@[k] != x,
        decreases v.len() - i,
    {
        if v[i] == x {
            assert(v@[i as int] == x);
            return true;
        }
        i += 1;
    }
    false
}

/// A page of a viewer's feed: the moments the viewer is shown, newest
/// first, from `offset`, at most `limit` of them.
pub fn feed_page(entries: &Vec<FeedEntry>, blocked: &Vec<i64>, shadow: &Vec<i64>, actioned: &Vec<i64>,
    offset: i64, limit: i64) -> (r: Vec<FeedEntry>)
    ensures
        r@ == page_of(newest_first(shown_only(entries@, blocked@, shadow@, actioned@)), offset, limit),
{
    let mut visible: Vec<FeedEntry> = Vec::new();
    let mut i: usize = 0;
    while i < entries.len()
        invariant
            i <= entries.len(),
            visible@ == shown_only(entries@.take(i as int), blocked@, shadow@, actioned@),
        decreases entries.len() - i,
    {
        assert(entries@.take(i + 1).drop_last() =~= entries@.take(i as int));
        let e = entries[i];
        if !contains_id(blocked, e.user_id) && !contains_id(shadow, e.user_id) && !contains_id(actioned, e.id) {
            visible.push(e);
        }
        i += 1;
    }
    assert(entries@.take(entries.len() as int) =~= entries@);
    let mut sorted: Vec<FeedEntry> = Vec::new();
    let mut j: usize = 0;
    while j < visible.len()
        invariant
            j <= visible.len(),
            sorted@ == newest_first(visible@.take(j as int)),
        decreases visible.len() - j,
    {
        assert(visible@.take(j + 1).drop_last() =~= visible@.take(j as int));
        let x = visible[j];
        let mut k: usize = 0;
        proof { lemma_first_below_bounds(sorted@, x.id, 0); }
        while k < sorted.len() && sorted[k].id >= x.id
            invariant
                k <= sorted.len(),
                first_below(sorted@, x.id, 0) == first_below(sorted@, x.id, k as int),
            decreases sorted.len() - k,
        {
            k += 1;
        }
        assert(first_below(sorted@, x.id, k as int) == k);
        sorted.insert(k, x);
        j += 1;
    }
    assert(visible@.take(visible.len() as int) =~= visible@);
    let mut out: Vec<FeedEntry> = Vec::new();
    if offset < 0 {
        assert(out@ =~= page_of(sorted@, offset, limit));
        return out;
    }
    let n = sorted.len();
    let start: usize = if (offset as u64) > (n as u64) { n } else { offset as usize };
    let mut p: usize = start;
    while p < n && (limit < 0 || ((p - start) as u64) < (limit as u64))
        invariant
            start <= p <= n,
            n == sorted.len(),
            start as int == (if offset > n { n as int } else { offset as int }),
            offset >= 0,
            out@ == sorted@.subrange(start as int, p as int),
            limit >= 0 ==> p - start <= limit,
        decreases n - p,
    {
        out.push(sorted[p]);
        assert(out@ =~= sorted@.subrange(start as int, p + 1));
        p += 1;
    }
    assert(out@ =~= page_of(sorted@, offset, limit));
    out
}

/// A feed item as a viewer sees it: the moment, whether the viewer liked
/// it, how many likes it has and how many comments.
#[derive(Debug, Clone, Copy, PartialEq, Eq, Structural)]
pub struct FeedItem {
    pub id: i64,
    pub user_id: i64,
    pub liked: bool,
    pub likes: u64,
    pub comments: u64,
}

/// How many of the likes (user, moment) are of moment `m`.
pub open spec fn like_count(likes: Seq<(i64, i64)>, m: i64) -> nat
    decreases likes.len(),
{
    if likes.len() == 0 {
        0
    } else {
        like_count(likes.drop_last(), m) + if likes.last().1 == m { 1nat } else { 0nat }
    }
}

/// How many of the stored comments, each given by the moment it is on,
/// are on moment `m`.
pub open spec fn comment_count(comments: Seq<i64>, m: i64) -> nat
    decreases comments.len(),
{
    if comments.len() == 0 {
        0
    } else {
        comment_count(comments.drop_last(), m) + if comments.last() == m { 1nat } else { 0nat }
    }
}

/// A feed entry as `viewer` sees it, given the likes (user, moment) and the
/// moments of the stored comments.
pub open spec fn feed_item(e: FeedEntry, likes: Seq<(i64, i64)>, comments: Seq<i64>, viewer: i64) -> FeedItem {
    FeedItem {
        id: e.id,
        user_id: e.user_id,
        liked: likes.contains((viewer, e.id)),
        likes: like_count(likes, e.id) as u64,
        comments: comment_count(comments, e.id) as u64,
    }
}

fn count_comments(comments: &Vec<i64>, m: i64) -> (r: u64)
    ensures
        r as nat == comment_count(comments@, m),
{
    let mut count: u64 = 0;
    let mut i: usize = 0;
    while i < comments.len()
        invariant
            i <= comments.len(),
            count as nat == comment_count(comments@.take(i as int), m),
            count <= i,
        decreases comments.len() - i,
    {
        assert(comments@.take(i + 1).drop_last() =~= comments@.take(i as int));
        assert(comments@.take(i + 1).last() == comments@[i as int]);
        if comments[i] == m {
            count = count + 1;
        }
        i += 1;
    }
    assert(comments@.take(comments.len() as int) =~= comments@);
    count
}

fn item_for(e: FeedEntry, likes: &Vec<(i64, i64)>, comments: &Vec<i64>, viewer: i64) -> (r: FeedItem)
    ensures
        r == feed_item(e, likes@, comments@, viewer),
{
    let mut liked = false;
    let mut count: u64 = 0;
    let mut i: usize = 0;
    while i < likes.len()
        invariant
            i <= likes.len(),
            liked == likes@.take(i as int).contains((viewer, e.id)),
            count as nat == like_count(likes@.take(i as int), e.id),
            count <= i,
        decreases likes.len() - i,
    {
        let ghost before = likes@.take(i as int);
        assert(likes@.take(i + 1).drop_last() =~= before);
        assert(likes@.take(i + 1).last() == likes@[i as int]);
        let (u, m) = likes[i];
        if u == viewer && m == e.id {
            assert(likes@.take(i + 1)[i as int] == (viewer, e.id));
            liked = true;
        } else if liked {
            proof {
                let j = choose|j: int| 0 <= j < before.len() && before[j] == (viewer, e.id);
                assert(likes@.take(i + 1)[j] == (viewer, e.id));
            }
        } else {
            assert forall|j: int| 0 <= j < i + 1 implies #[trigger] likes@.take(i + 1)[j] != (viewer, e.id) by {
                if j < i {
                    assert(likes@.take(i + 1)[j] == before[j]);
                }
            }
        }
        if m == e.id {
            count = count + 1;
        }
        i += 1;
    }
    assert(likes@.take(likes.len() as int) =~= likes@);
    let comment_total = count_comments(comments, e.id);
    FeedItem { id: e.id, user_id: e.user_id, liked, likes: count, comments: comment_total }
}

/// The feed as a viewer sees it: each moment of a page with the viewer's
/// like, the moment's like count and its comment count.
pub fn feed_items(page: &Vec<FeedEntry>, likes: &Vec<(i64, i64)>, comments: &Vec<i64>, viewer: i64) -> (r: Vec<FeedItem>)
    ensures
        r@.len() == page@.len(),
        forall|k: int| 0 <= k < page@.len() ==> r@[k] == feed_item(page@[k], likes@, comments@, viewer),
{
    let mut out: Vec<FeedItem> = Vec::new();
    let mut i: usize = 0;
    while i < page.len()
        invariant
            i <= page.len(),
            out@.len() == i,
            forall|k: int| 0 <= k < i ==> out@[k] == feed_item(page@[k], likes@, comments@, viewer),
        decreases page.len() - i,
    {
        let item = item_for(page[i], likes, comments, viewer);
        out.push(item);
        i += 1;
    }
    out
}

/// A page of a viewer's moment feed with each moment's likes: the moments
/// the viewer is shown, newest first, from `offset`, at most `limit`, each
/// with whether the viewer liked it, its like count and the number of stored
/// comments on it (`comments` gives, for each stored comment, its moment).
pub fn moment_feed(entries: &Vec<FeedEntry>, blocked: &Vec<i64>, shadow: &Vec<i64>, actioned: &Vec<i64>,
    likes: &Vec<(i64, i64)>, comments: &Vec<i64>, viewer: i64, offset: i64, limit: i64) -> (r: Vec<FeedItem>)
    ensures
        ({
            let page = page_of(newest_first(shown_only(entries@, blocked@, shadow@, actioned@)), offset, limit);
            r@.len() == page.len()
                && forall|k: int| 0 <= k < page.len() ==> r@[k] == feed_item(page[k], likes@, comments@, viewer)
        }),
{
    let page = feed_page(entries, blocked, shadow, actioned, offset, limit);
    feed_items(&page, likes, comments, viewer)
}

// ───────────────────────── notification preferences ─────────────────────────

/// Which notifications a user wants, by channel and topic, and their quiet
/// hours.
#[derive(Debug, Clone)]
pub struct NotificationPreferences {
    pub email_enabled: bool,
    pub push_enabled: bool,
    pub in_app_enabled: bool,
    pub email_gifts: bool,
    pub email_calls: bool,
    pub email_moments: bool,
    pub email_marketing: bool,
    pub push_gifts: bool,
    pub push_calls: bool,
    pub push_moments: bool,
    pub quiet_hours_start: Option<String>,
    pub quiet_hours_end: Option<String>,
}

/// The switch a preference name stands for, if it is one a user may set.
pub open spec fn preference(p: NotificationPreferences, name: Seq<char>) -> Option<bool> {
    if name == "email_enabled"@ { Some(p.email_enabled) }
    else if name == "push_enabled"@ { Some(p.push_enabled) }
    else if name == "in_app_enabled"@ { Some(p.in_app_enabled) }
    else if name == "email_gifts"@ { Some(p.email_gifts) }
    else if name == "email_calls"@ { Some(p.email_calls) }
    else if name == "email_moments"@ { Some(p.email_moments) }
    else if name == "email_marketing"@ { Some(p.email_marketing) }
    else if name == "push_gifts"@ { Some(p.push_gifts) }
    else if name == "push_calls"@ { Some(p.push_calls) }
    else if name == "push_moments"@ { Some(p.push_moments) }
    else { None }
}

impl Default for NotificationPreferences {
    /// Everything on but marketing email; no quiet hours.
    fn default() -> (r: Self)
        ensures
            r.email_enabled && r.push_enabled && r.in_app_enabled,
            r.email_gifts && r.email_calls && r.email_moments && !r.email_marketing,
            r.push_gifts && r.push_calls && r.push_moments,
            r.quiet_hours_start is None && r.quiet_hours_end is None,
    {
        NotificationPreferences {
            email_enabled: true, push_enabled: true, in_app_enabled: true,
            email_gifts: true, email_calls: true, email_moments: true, email_marketing: false,
            push_gifts: true, push_calls: true, push_moments: true,
            quiet_hours_start: None, quiet_hours_end: None,
        }
    }
}

impl NotificationPreferences {
    /// Sets one switch by name; a name that is not a switch changes
    /// nothing. Says whether the name was a switch.
    pub fn set_preference(&mut self, name: &str, value: bool) -> (r: bool)
        ensures
            r == (preference(*old(self), name@) is Some),
            r ==> preference(*final(self), name@) == Some(value),
            forall|other: Seq<char>| other != name@ ==> #[trigger] preference(*final(self), other) == preference(*old(self), other),
            final(self).quiet_hours_start == old(self).quiet_hours_start,
            final(self).quiet_hours_end == old(self).quiet_hours_end,
    {
        if str_eq(name, "email_enabled") { self.email_enabled = value; true }
        else if str_eq(name, "push_enabled") { self.push_enabled = value; true }
        else if str_eq(name, "in_app_enabled") { self.in_app_enabled = value; true }
        else if str_eq(name, "email_gifts") { self.email_gifts = value; true }
        else if str_eq(name, "email_calls") { self.email_calls = value; true }
        else if str_eq(name, "email_moments") { self.email_moments = value; true }
        else if str_eq(name, "email_marketing") { self.email_marketing = value; true }
        else if str_eq(name, "push_gifts") { self.push_gifts = value; true }
        else if str_eq(name, "push_calls") { self.push_calls = value; true }
        else if str_eq(name, "push_moments") { self.push_moments = value; true }
        else { false }
    }

    /// Sets the quiet hours (22:00 to 08:00 unless given).
    pub fn set_quiet_hours(&mut self, start: Option<&str>, end: Option<&str>)
        ensures
            final(self).quiet_hours_start matches Some(st) && st@ == (match start { Some(x) => x@, None => "22:00"@ }),
            final(self).quiet_hours_end matches Some(en) && en@ == (match end { Some(x) => x@, None => "08:00"@ }),
            forall|name: Seq<char>| #[trigger] preference(*final(self), name) == preference(*old(self), name),
    {
        self.quiet_hours_start = Some(match start { Some(x) => to_owned(x), None => to_owned("22:00") });
        self.quiet_hours_end = Some(match end { Some(x) => to_owned(x), None => to_owned("08:00") });
    }
}

// ───────────────────────── accounts and user search ─────────────────────────

impl User {
    /// A new account: role `user`, no failed logins, no lock, no second
    /// factor, KYC level 0, sale of data not refused.
    pub fn new_account(id: i64, username: &str, email: &str, password_hash: &str, now: &str) -> (u: User)
        ensures
            u.id == id, u.username@ == username@, u.email@ == email@, u.password_hash@ == password_hash@,
            u.role@ == "user"@, u.created_at@ == now@,
            u.failed_login_attempts == 0, u.locked_until is None, u.totp_secret is None, !u.totp_enabled,
            u.kyc_level == 0, !u.do_not_sell,
    {
        User {
            id,
            username: to_owned(username),
            email: to_owned(email),
            password_hash: to_owned(password_hash),
            role: to_owned("user"),
            created_at: to_owned(now),
            failed_login_attempts: 0,
            locked_until: None,
            totp_secret: None,
            totp_enabled: false,
            kyc_level: 0,
            do_not_sell: false,
        }
    }
}

/// A user a search can find: not shadow-banned, and with the query in the
/// lowercased name.
pub open spec fn found_by(u: (i64, String), shadow: Seq<i64>, query: Seq<char>) -> bool {
    !shadow.contains(u.0) && contains_text(lowercased(u.1@), lowercased(query))
}

/// The positions of the users a search finds, in order.
pub open spec fn search_hits(users: Seq<(i64, String)>, shadow: Seq<i64>, query: Seq<char>) -> Seq<int>
    decreases users.len(),
{
    if users.len() == 0 {
        Seq::empty()
    } else {
        let rest = search_hits(users.drop_last(), shadow, query);
        if found_by(users.last(), shadow, query) { rest.push(users.len() - 1) } else { rest }
    }
}

proof fn lemma_search_hits_len(users: Seq<(i64, String)>, shadow: Seq<i64>, query: Seq<char>)
    ensures
        search_hits(users, shadow, query).len() <= users.len(),
        forall|k: int| 0 <= k < search_hits(users, shadow, query).len()
            ==> 0 <= #[trigger] search_hits(users, shadow, query)[k] < users.len(),
    decreases users.len(),
{
    if users.len() > 0 {
        lemma_search_hits_len(users.drop_last(), shadow, query);
    }
}

/// A user search: the users found, in order, at most `limit` of them but
/// always the first one found.
pub fn search_users(users: &Vec<(i64, String)>, shadow: &Vec<i64>, query: &str, limit: i64) -> (r: Vec<usize>)
    ensures
        ({
            let hits = search_hits(users@, shadow@, query@);
            let cap: int = if limit < 1 { 1 } else { limit as int };
            r@.len() == if hits.len() < cap { hits.len() as int } else { cap }
                && forall|k: int| 0 <= k < r@.len() ==> r@[k] as int == hits[k]
        }),
{
    let pattern = to_lowercase(query);
    let needle = crate::text::chars_of(pattern.as_str());
    let mut out: Vec<usize> = Vec::new();
    let mut i: usize = 0;
    let ghost cap: int = if limit < 1 { 1 } else { limit as int };
    while i < users.len()
        invariant
            i <= users.len(),
            needle@ == lowercased(query@),
            cap == (if limit < 1 { 1 } else { limit as int }),
            out@.len() == search_hits(users@.take(i as int), shadow@, query@).len(),
            out@.len() < cap,
            forall|k: int| 0 <= k < out@.len() ==> out@[k] as int == search_hits(users@.take(i as int), shadow@, query@)[k],
        decreases users.len() - i,
    {
        let ghost before = search_hits(users@.take(i as int), shadow@, query@);
        assert(users@.take(i + 1).drop_last() =~= users@.take(i as int));
        assert(users@.take(i + 1).last() == users@[i as int]);
        let lowered = to_lowercase(users[i].1.as_str());
        let hay = crate::text::chars_of(lowered.as_str());
        let hit = !contains_id(shadow, users[i].0) && find_text(&hay, &needle);
        if hit {
            out.push(i);
            assert(search_hits(users@.take(i + 1), shadow@, query@) == before.push(i as int));
            if (out.len() as i64) >= limit {
                proof {
                    lemma_search_hits_len(users@, shadow@, query@);
                    lemma_search_hits_prefix(users@, shadow@, query@, i + 1);
                    assert(out@.len() == cap);
                    let whole = search_hits(users@, shadow@, query@);
                    let part = search_hits(users@.take(i + 1), shadow@, query@);
                    assert(whole.len() >= cap);
                    assert forall|k: int| 0 <= k < out@.len() implies out@[k] as int == whole[k] by {
                        assert(out@[k] as int == part[k]);
                        assert(part[k] == whole[k]);
                    }
                }
                return out;
            }
        }
        i += 1;
    }
    assert(users@.take(users.len() as int) =~= users@);
    out
}

/// The hits of a prefix are the first hits of the whole list.
proof fn lemma_search_hits_prefix(users: Seq<(i64, String)>, shadow: Seq<i64>, query: Seq<char>, n: int)
    requires
        0 <= n <= users.len(),
    ensures
        search_hits(users.take(n), shadow, query).len() <= search_hits(users, shadow, query).len(),
        forall|k: int| 0 <= k < search_hits(users.take(n), shadow, query).len()
            ==> #[trigger] search_hits(users.take(n), shadow, query)[k] == search_hits(users, shadow, query)[k],
    decreases users.len() - n,
{
    if n < users.len() {
        lemma_search_hits_prefix(users, shadow, query, n + 1);
        let t1 = users.take(n + 1);
        assert(t1.drop_last() =~= users.take(n));
        let a = search_hits(users.take(n), shadow, query);
        let b = search_hits(t1, shadow, query);
        assert(b == a || b == a.push(n));
        assert forall|k: int| 0 <= k < a.len() implies #[trigger] a[k] == search_hits(users, shadow, query)[k] by {
            assert(b[k] == a[k]);
            assert(b[k] == search_hits(users, shadow, query)[k]);
        }
    } else {
        assert(users.take(n) =~= users);
    }
}

// ───────────────────────── blocks ─────────────────────────

#[derive(Debug, Clone, Copy, PartialEq, Eq, Structural)]
pub enum BlockError {
    CannotBlockSelf,
    TargetNotFound,
}

/// Whether a block may be recorded: nobody blocks themself, and the target
/// must exist.
pub fn check_block(blocker_id: i64, blocked_id: i64, target_exists: bool) -> (r: Result<(), BlockError>)
    ensures
        blocker_id == blocked_id ==> r == Err::<(), BlockError>(BlockError::CannotBlockSelf),
        blocker_id != blocked_id && !target_exists ==> r == Err::<(), BlockError>(BlockError::TargetNotFound),
        blocker_id != blocked_id && target_exists ==> r is Ok,
{
    if blocker_id == blocked_id {
        return Err(BlockError::CannotBlockSelf);
    }
    if !target_exists {
        return Err(BlockError::TargetNotFound);
    }
    Ok(())
}

} // verus!
