//! The wallet-facing requests: staking and payouts, each checked step by
//! step against the request, the wallet, the spending limits and the
//! balance, in the order the service applies them.

use vstd::prelude::*;
use crate::text::{push_str, push_int, int_text, to_owned, byte_len, utf8_bytes};
use crate::model::{Wallet, SpendingLimit, WalletError, PayoutError, payout_allowed, check_spending_limit, transfer,
    GiftCatalog, gift_price, price_in,
    spending_fits, effective_daily_spent, effective_monthly_spent, daily_limit_of, monthly_limit_of, exceeded_text,
    MIN_PAYOUT};

verus! {

/// Why a staking or payout request was refused.
#[derive(Debug, Clone, PartialEq, Eq)]
pub enum RequestError {
    /// "amount required"
    AmountRequired,
    /// "amount must be positive"
    AmountNotPositive,
    /// "unlock_days must be 1-365"
    UnlockDaysOutOfRange,
    /// "wallet_address required"
    AddressRequired,
    /// "Invalid wallet address"
    InvalidAddress,
    /// "Wallet is frozen"
    WalletFrozen,
    /// The spending limit refused the amount; the text says which limit.
    SpendingLimit(String),
    /// The balance does not cover the amount.
    InsufficientFunds { balance: i64, amount: i64 },
    /// "Minimum payout is 10 YSH"
    BelowMinimumPayout,
    /// "to_user_id required"
    RecipientRequired,
    /// "Cannot transfer to self"
    SelfTransfer,
    /// "gift_id required"
    GiftRequired,
    /// "Cannot gift to self"
    SelfGift,
    /// "Gift not found"
    GiftNotFound,
}

/// A request's outcome, and the spending limits to store: once the
/// spending check has allowed an amount, its new totals are stored even
/// when a later step refuses the request.
pub struct Step<T> {
    pub outcome: Result<T, RequestError>,
    pub limits_to_store: Option<SpendingLimit>,
}

/// The number of days a stake stays locked: 30 unless given.
pub open spec fn unlock_days_of(field: Option<i64>) -> i64 {
    match field { Some(d) => d, None => 30 }
}

/// A staking request before it reaches the wallet: an amount is required
/// and must be positive; the lock must last 1 to 365 days; the wallet must
/// not be frozen.
pub open spec fn stake_precheck(amount: Option<i64>, unlock_days: Option<i64>, frozen: bool) -> Result<(i64, i64), RequestError> {
    match amount {
        None => Err(RequestError::AmountRequired),
        Some(a) => if a <= 0 {
            Err(RequestError::AmountNotPositive)
        } else if !(1 <= unlock_days_of(unlock_days) <= 365) {
            Err(RequestError::UnlockDaysOutOfRange)
        } else if frozen {
            Err(RequestError::WalletFrozen)
        } else {
            Ok((a, unlock_days_of(unlock_days)))
        },
    }
}

pub fn stake_checks(amount: Option<i64>, unlock_days: Option<i64>, frozen: bool) -> (r: Result<(i64, i64), RequestError>)
    ensures
        r == stake_precheck(amount, unlock_days, frozen),
{
    let a = match amount {
        None => return Err(RequestError::AmountRequired),
        Some(a) => a,
    };
    if a <= 0 {
        return Err(RequestError::AmountNotPositive);
    }
    let days = match unlock_days { Some(d) => d, None => 30 };
    if !(1 <= days && days <= 365) {
        return Err(RequestError::UnlockDaysOutOfRange);
    }
    if frozen {
        return Err(RequestError::WalletFrozen);
    }
    Ok((a, days))
}

/// A stake request needs an amount, which must be positive; a positive
/// stake on an unfrozen wallet passes the request checks for every lock of
/// 1 to 365 days (30 days when none is given); any other lock length is
/// refused as out of range, and a frozen wallet stakes nothing.
pub proof fn law_stake_lock_range(a: i64, days: Option<i64>, frozen: bool)
    ensures
        stake_precheck(None, days, frozen) == Err::<(i64, i64), RequestError>(RequestError::AmountRequired),
        a <= 0 ==> stake_precheck(Some(a), days, frozen) == Err::<(i64, i64), RequestError>(RequestError::AmountNotPositive),
        a > 0 && (days matches Some(d) && 1 <= d && d <= 365) ==> stake_precheck(Some(a), days, false) == Ok::<(i64, i64), RequestError>((a, days.unwrap())),
        a > 0 && days is None ==> stake_precheck(Some(a), days, false) == Ok::<(i64, i64), RequestError>((a, 30)),
        a > 0 && (days matches Some(d) && (d < 1 || d > 365)) ==> stake_precheck(Some(a), days, frozen) == Err::<(i64, i64), RequestError>(RequestError::UnlockDaysOutOfRange),
        a > 0 && (days is None || (days matches Some(d) && 1 <= d && d <= 365)) ==> stake_precheck(Some(a), days, true) == Err::<(i64, i64), RequestError>(RequestError::WalletFrozen),
{
}

/// The description a staking receipt carries: `Staked {amount} YSH`.
pub open spec fn stake_receipt_text(amount: i64) -> Seq<char> {
    "Staked "@ + int_text(amount as int) + " YSH"@
}

pub fn stake_receipt_description(amount: i64) -> (r: String)
    ensures
        r@ == stake_receipt_text(amount),
{
    let mut s = to_owned("Staked ");
    push_int(&mut s, amount);
    push_str(&mut s, " YSH");
    s
}

/// What a granted stake records.
pub struct StakeGrant {
    pub amount: i64,
    pub unlock_days: i64,
    pub receipt_description: String,
}

/// The spending-limit refusal text for an amount, or none when allowed.
pub open spec fn limit_refusal(stored: Option<SpendingLimit>, amount: i64, today: Seq<char>, this_month: Seq<char>) -> Option<Seq<char>> {
    let daily = effective_daily_spent(stored, today);
    let monthly = effective_monthly_spent(stored, this_month);
    if daily + amount > daily_limit_of(stored) {
        Some(exceeded_text("Daily"@, daily, amount as int, daily_limit_of(stored)))
    } else if monthly + amount > monthly_limit_of(stored) {
        Some(exceeded_text("Monthly"@, monthly, amount as int, monthly_limit_of(stored)))
    } else {
        None
    }
}

/// Stakes part of a wallet's balance. After the request checks, the
/// spending limit must allow the amount, and then the balance must cover
/// it; a granted stake takes the amount out of the wallet.
pub fn stake(wallet: &mut Wallet, stored: Option<SpendingLimit>, amount: Option<i64>, unlock_days: Option<i64>,
    today: &str, this_month: &str, now: &str) -> (r: Step<StakeGrant>)
    requires
        amount matches Some(a) ==> spending_fits(stored, a, today@, this_month@),
    ensures
        ({
            let pre = stake_precheck(amount, unlock_days, old(wallet).frozen);
            match pre {
                Err(e) => r.outcome == Err::<StakeGrant, RequestError>(e) && r.limits_to_store is None
                    && final(wallet).balance == old(wallet).balance,
                Ok((a, days)) => match limit_refusal(stored, a, today@, this_month@) {
                    Some(msg) => (r.outcome matches Err(RequestError::SpendingLimit(m)) && m@ == msg)
                        && r.limits_to_store is None && final(wallet).balance == old(wallet).balance,
                    None => r.limits_to_store matches Some(sl)
                        && sl.daily_spent == effective_daily_spent(stored, today@) + a
                        && sl.monthly_spent == effective_monthly_spent(stored, this_month@) + a
                        && sl.last_reset_date@ == today@
                        && if old(wallet).balance < a {
                            r.outcome == Err::<StakeGrant, RequestError>(RequestError::InsufficientFunds { balance: old(wallet).balance, amount: a })
                                && final(wallet).balance == old(wallet).balance
                        } else {
                            (r.outcome matches Ok(g) && g.amount == a && g.unlock_days == days
                                && g.receipt_description@ == stake_receipt_text(a))
                                && final(wallet).balance == old(wallet).balance - a
                                && final(wallet).updated_at@ == now@
                        },
                },
            }
        }),
        final(wallet).user_id == old(wallet).user_id,
        final(wallet).frozen == old(wallet).frozen,
{
    let (a, days) = match stake_checks(amount, unlock_days, wallet.frozen) {
        Err(e) => return Step { outcome: Err(e), limits_to_store: None },
        Ok(p) => p,
    };
    let check = check_spending_limit(stored, wallet.user_id, a, today, this_month);
    if !check.allowed {
        return Step { outcome: Err(RequestError::SpendingLimit(check.message)), limits_to_store: None };
    }
    match wallet.withdraw(a, now) {
        Err(WalletError::InsufficientFunds { balance, amount }) => Step {
            outcome: Err(RequestError::InsufficientFunds { balance, amount }),
            limits_to_store: check.updated,
        },
        Ok(_) => Step {
            outcome: Ok(StakeGrant { amount: a, unlock_days: days, receipt_description: stake_receipt_description(a) }),
            limits_to_store: check.updated,
        },
    }
}

// ───────────────────────── unstaking ─────────────────────────

#[derive(Debug, Clone, Copy, PartialEq, Eq, Structural)]
pub enum UnstakeError {
    /// "Stake not found"
    NotFound,
    /// "Staking lock not yet expired"
    StillLocked,
    /// "No rewards to claim"
    NoRewards,
}

/// Whether a stake may be withdrawn at `now`: it must be active, and its
/// unlock time must not lie after `now` (both `YYYY-MM-DDTHH:MM:SSZ`,
/// compared as text). Gives what returns to the wallet: the stake and its
/// rewards.
pub fn unstake_amount(active: bool, amount: i64, rewards_earned: i64, unlocks_at: &str, now: &str) -> (r: Result<i64, UnstakeError>)
    requires
        i64::MIN <= amount + rewards_earned <= i64::MAX,
    ensures
        !active ==> r == Err::<i64, UnstakeError>(UnstakeError::NotFound),
        active && text_after(unlocks_at@, now@) ==> r == Err::<i64, UnstakeError>(UnstakeError::StillLocked),
        active && !text_after(unlocks_at@, now@) ==> r == Ok::<i64, UnstakeError>((amount + rewards_earned) as i64),
{
    if !active {
        return Err(UnstakeError::NotFound);
    }
    if str_gt(unlocks_at, now) {
        return Err(UnstakeError::StillLocked);
    }
    Ok(amount + rewards_earned)
}

/// Rewards can be claimed only when there are some.
pub fn claimable_rewards(rewards: i64) -> (r: Result<i64, UnstakeError>)
    ensures
        rewards <= 0 ==> r == Err::<i64, UnstakeError>(UnstakeError::NoRewards),
        rewards > 0 ==> r == Ok::<i64, UnstakeError>(rewards),
{
    if rewards <= 0 { Err(UnstakeError::NoRewards) } else { Ok(rewards) }
}

/// `a` sorts after `b` as text (character by character, a longer text
/// after its own prefix), as std's `str` ordering does.
pub open spec fn text_after(a: Seq<char>, b: Seq<char>) -> bool
    decreases a.len(),
{
    if a.len() == 0 {
        false
    } else if b.len() == 0 {
        true
    } else if a[0] != b[0] {
        (a[0] as u32) > (b[0] as u32)
    } else {
        text_after(a.drop_first(), b.drop_first())
    }
}

fn str_gt(a: &str, b: &str) -> (r: bool)
    ensures
        r == text_after(a@, b@),
{
    let ca = crate::text::chars_of(a);
    let cb = crate::text::chars_of(b);
    let mut i: usize = 0;
    assert(a@.skip(0) =~= a@);
    assert(b@.skip(0) =~= b@);
    while i < ca.len() && i < cb.len()
        invariant
            ca@ == a@, cb@ == b@,
            i <= ca.len(), i <= cb.len(),
            text_after(a@, b@) == text_after(a@.skip(i as int), b@.skip(i as int)),
        decreases ca.len() - i,
    {
        assert(a@.skip(i as int).drop_first() =~= a@.skip(i + 1));
        assert(b@.skip(i as int).drop_first() =~= b@.skip(i + 1));
        if ca[i] != cb[i] {
            return (ca[i] as u32) > (cb[i] as u32);
        }
        i += 1;
    }
    i < ca.len()
}

// ───────────────────────── payouts ─────────────────────────

/// A payout request before it reaches the wallet: an amount is required
/// and must be positive; an address is required and must be at least 10
/// bytes long; the wallet must not be frozen.
pub open spec fn payout_precheck(amount: Option<i64>, address: Option<Seq<char>>, frozen: bool) -> Result<i64, RequestError> {
    match amount {
        None => Err(RequestError::AmountRequired),
        Some(a) => if a <= 0 {
            Err(RequestError::AmountNotPositive)
        } else {
            match address {
                None => Err(RequestError::AddressRequired),
                Some(w) => if utf8_bytes(w).len() < 10 {
                    Err(RequestError::InvalidAddress)
                } else if frozen {
                    Err(RequestError::WalletFrozen)
                } else {
                    Ok(a)
                },
            }
        },
    }
}

/// A payout request needs a positive amount and a wallet address of at
/// least 10 bytes; with both, only a frozen wallet is refused here.
pub proof fn law_payout_request_checks(a: i64, address: Seq<char>, frozen: bool)
    ensures
        payout_precheck(None, Some(address), frozen) == Err::<i64, RequestError>(RequestError::AmountRequired),
        a <= 0 ==> payout_precheck(Some(a), Some(address), frozen) == Err::<i64, RequestError>(RequestError::AmountNotPositive),
        a > 0 ==> payout_precheck(Some(a), None, frozen) == Err::<i64, RequestError>(RequestError::AddressRequired),
        a > 0 && utf8_bytes(address).len() < 10 ==> payout_precheck(Some(a), Some(address), frozen) == Err::<i64, RequestError>(RequestError::InvalidAddress),
        a > 0 && utf8_bytes(address).len() >= 10 ==> payout_precheck(Some(a), Some(address), frozen)
            == (if frozen { Err::<i64, RequestError>(RequestError::WalletFrozen) } else { Ok::<i64, RequestError>(a) }),
        MIN_PAYOUT == 10,
{
}

pub open spec fn opt_str(o: Option<&str>) -> Option<Seq<char>> {
    match o { Some(s) => Some(s@), None => None }
}

/// The currency and network of a payout: `USDT` on `TRC20` unless given.
pub open spec fn or_default(o: Option<Seq<char>>, d: Seq<char>) -> Seq<char> {
    match o { Some(s) => s, None => d }
}

pub fn payout_checks(amount: Option<i64>, address: Option<&str>, frozen: bool) -> (r: Result<i64, RequestError>)
    ensures
        r == payout_precheck(amount, opt_str(address), frozen),
{
    let a = match amount {
        None => return Err(RequestError::AmountRequired),
        Some(a) => a,
    };
    if a <= 0 {
        return Err(RequestError::AmountNotPositive);
    }
    let w = match address {
        None => return Err(RequestError::AddressRequired),
        Some(w) => w,
    };
    if byte_len(w) < 10 {
        return Err(RequestError::InvalidAddress);
    }
    if frozen {
        return Err(RequestError::WalletFrozen);
    }
    Ok(a)
}

/// What a granted payout records.
pub struct PayoutGrant {
    pub amount: i64,
    pub currency: String,
    pub network: String,
    pub wallet_address: String,
    /// The receipt's description: `Payout to {address}`.
    pub receipt_description: String,
}

/// A payout request. After the request checks, the spending limit must
/// allow the amount; then the balance must cover it and it must be at
/// least the minimum payout; a granted payout takes the amount out of the
/// wallet.
pub fn request_payout(wallet: &mut Wallet, stored: Option<SpendingLimit>, amount: Option<i64>, address: Option<&str>,
    currency: Option<&str>, network: Option<&str>, today: &str, this_month: &str, now: &str) -> (r: Step<PayoutGrant>)
    requires
        amount matches Some(a) ==> spending_fits(stored, a, today@, this_month@),
    ensures
        ({
            let pre = payout_precheck(amount, opt_str(address), old(wallet).frozen);
            match pre {
                Err(e) => r.outcome == Err::<PayoutGrant, RequestError>(e) && r.limits_to_store is None
                    && final(wallet).balance == old(wallet).balance,
                Ok(a) => match limit_refusal(stored, a, today@, this_month@) {
                    Some(msg) => (r.outcome matches Err(RequestError::SpendingLimit(m)) && m@ == msg)
                        && r.limits_to_store is None && final(wallet).balance == old(wallet).balance,
                    None => r.limits_to_store matches Some(sl)
                        && sl.daily_spent == effective_daily_spent(stored, today@) + a
                        && sl.monthly_spent == effective_monthly_spent(stored, this_month@) + a
                        && if old(wallet).balance < a {
                            r.outcome == Err::<PayoutGrant, RequestError>(RequestError::InsufficientFunds { balance: old(wallet).balance, amount: a })
                                && final(wallet).balance == old(wallet).balance
                        } else if a < MIN_PAYOUT {
                            r.outcome == Err::<PayoutGrant, RequestError>(RequestError::BelowMinimumPayout)
                                && final(wallet).balance == old(wallet).balance
                        } else {
                            (r.outcome matches Ok(g) && g.amount == a
                                && g.currency@ == or_default(opt_str(currency), "USDT"@)
                                && g.network@ == or_default(opt_str(network), "TRC20"@)
                                && g.wallet_address@ == opt_str(address).unwrap()
                                && g.receipt_description@ == "Payout to "@ + opt_str(address).unwrap())
                                && final(wallet).balance == old(wallet).balance - a
                        },
                },
            }
        }),
        final(wallet).user_id == old(wallet).user_id,
        final(wallet).frozen == old(wallet).frozen,
{
    let a = match payout_checks(amount, address, wallet.frozen) {
        Err(e) => return Step { outcome: Err(e), limits_to_store: None },
        Ok(a) => a,
    };
    let w = match address { Some(w) => w, None => "" };
    let check = check_spending_limit(stored, wallet.user_id, a, today, this_month);
    if !check.allowed {
        return Step { outcome: Err(RequestError::SpendingLimit(check.message)), limits_to_store: None };
    }
    match payout_allowed(wallet.balance, a) {
        Err(PayoutError::InsufficientBalance { balance, amount }) => {
            return Step { outcome: Err(RequestError::InsufficientFunds { balance, amount }), limits_to_store: check.updated };
        },
        Err(PayoutError::BelowMinimum) => {
            return Step { outcome: Err(RequestError::BelowMinimumPayout), limits_to_store: check.updated };
        },
        Ok(()) => {},
    }
    let _ = wallet.withdraw(a, now);
    let cur = match currency { Some(c) => to_owned(c), None => to_owned("USDT") };
    let net = match network { Some(n) => to_owned(n), None => to_owned("TRC20") };
    let mut desc = to_owned("Payout to ");
    push_str(&mut desc, w);
    Step {
        outcome: Ok(PayoutGrant { amount: a, currency: cur, network: net, wallet_address: to_owned(w), receipt_description: desc }),
        limits_to_store: check.updated,
    }
}

// ───────────────────────── deposits, withdrawals, transfers, gifts ─────────────────────────

/// An amount is required and must be positive.
pub open spec fn amount_check(amount: Option<i64>) -> Result<i64, RequestError> {
    match amount {
        None => Err(RequestError::AmountRequired),
        Some(a) => if a <= 0 { Err(RequestError::AmountNotPositive) } else { Ok(a) },
    }
}

fn checked_amount(amount: Option<i64>) -> (r: Result<i64, RequestError>)
    ensures
        r == amount_check(amount),
{
    match amount {
        None => Err(RequestError::AmountRequired),
        Some(a) => if a <= 0 { Err(RequestError::AmountNotPositive) } else { Ok(a) },
    }
}

/// A deposit: a positive amount into a wallet that is not frozen; gives
/// the new balance.
pub fn deposit_request(wallet: &mut Wallet, amount: Option<i64>, now: &str) -> (r: Result<i64, RequestError>)
    requires
        amount matches Some(a) ==> old(wallet).balance + a <= i64::MAX,
    ensures
        match amount_check(amount) {
            Err(e) => r == Err::<i64, RequestError>(e) && final(wallet).balance == old(wallet).balance,
            Ok(a) => if old(wallet).frozen {
                r == Err::<i64, RequestError>(RequestError::WalletFrozen) && final(wallet).balance == old(wallet).balance
            } else {
                final(wallet).balance == old(wallet).balance + a && r == Ok::<i64, RequestError>(final(wallet).balance)
            },
        },
        final(wallet).user_id == old(wallet).user_id,
        final(wallet).frozen == old(wallet).frozen,
{
    let a = match checked_amount(amount) {
        Err(e) => return Err(e),
        Ok(a) => a,
    };
    if wallet.frozen {
        return Err(RequestError::WalletFrozen);
    }
    Ok(wallet.deposit(a, now))
}

/// A withdrawal: a positive amount from a wallet that is not frozen,
/// within the spending limit, and covered by the balance; gives the new
/// balance.
pub fn withdraw_request(wallet: &mut Wallet, stored: Option<SpendingLimit>, amount: Option<i64>,
    today: &str, this_month: &str, now: &str) -> (r: Step<i64>)
    requires
        amount matches Some(a) ==> spending_fits(stored, a, today@, this_month@),
    ensures
        match amount_check(amount) {
            Err(e) => r.outcome == Err::<i64, RequestError>(e) && r.limits_to_store is None
                && final(wallet).balance == old(wallet).balance,
            Ok(a) => if old(wallet).frozen {
                r.outcome == Err::<i64, RequestError>(RequestError::WalletFrozen) && r.limits_to_store is None
                    && final(wallet).balance == old(wallet).balance
            } else {
                match limit_refusal(stored, a, today@, this_month@) {
                    Some(msg) => (r.outcome matches Err(RequestError::SpendingLimit(m)) && m@ == msg)
                        && r.limits_to_store is None && final(wallet).balance == old(wallet).balance,
                    None => r.limits_to_store is Some && if old(wallet).balance < a {
                        r.outcome == Err::<i64, RequestError>(RequestError::InsufficientFunds { balance: old(wallet).balance, amount: a })
                            && final(wallet).balance == old(wallet).balance
                    } else {
                        final(wallet).balance == old(wallet).balance - a && r.outcome == Ok::<i64, RequestError>(final(wallet).balance)
                    },
                }
            },
        },
        final(wallet).user_id == old(wallet).user_id,
        final(wallet).frozen == old(wallet).frozen,
{
    let a = match checked_amount(amount) {
        Err(e) => return Step { outcome: Err(e), limits_to_store: None },
        Ok(a) => a,
    };
    if wallet.frozen {
        return Step { outcome: Err(RequestError::WalletFrozen), limits_to_store: None };
    }
    let check = check_spending_limit(stored, wallet.user_id, a, today, this_month);
    if !check.allowed {
        return Step { outcome: Err(RequestError::SpendingLimit(check.message)), limits_to_store: None };
    }
    match wallet.withdraw(a, now) {
        Err(WalletError::InsufficientFunds { balance, amount }) => Step {
            outcome: Err(RequestError::InsufficientFunds { balance, amount }),
            limits_to_store: check.updated,
        },
        Ok(b) => Step { outcome: Ok(b), limits_to_store: check.updated },
    }
}

/// A transfer request: a recipient and a positive amount are required,
/// the recipient must be someone else, the sender's wallet must not be
/// frozen, the spending limit must allow the amount, and the sender's
/// balance must cover it.
pub fn transfer_request(from: &mut Wallet, to: &mut Wallet, stored: Option<SpendingLimit>, to_user_id: Option<i64>,
    amount: Option<i64>, today: &str, this_month: &str, now: &str) -> (r: Step<()>)
    requires
        amount matches Some(a) ==> spending_fits(stored, a, today@, this_month@),
        amount matches Some(a) ==> old(to).balance + a <= i64::MAX,
        to_user_id matches Some(t) ==> t == old(to).user_id,
    ensures
        to_user_id is None ==> r.outcome == Err::<(), RequestError>(RequestError::RecipientRequired) && r.limits_to_store is None,
        to_user_id is Some ==> match amount_check(amount) {
            Err(e) => r.outcome == Err::<(), RequestError>(e) && r.limits_to_store is None,
            Ok(a) => if to_user_id == Some(old(from).user_id) {
                r.outcome == Err::<(), RequestError>(RequestError::SelfTransfer) && r.limits_to_store is None
            } else if old(from).frozen {
                r.outcome == Err::<(), RequestError>(RequestError::WalletFrozen) && r.limits_to_store is None
            } else {
                match limit_refusal(stored, a, today@, this_month@) {
                    Some(msg) => (r.outcome matches Err(RequestError::SpendingLimit(m)) && m@ == msg) && r.limits_to_store is None,
                    None => r.limits_to_store is Some && if old(from).balance < a {
                        r.outcome == Err::<(), RequestError>(RequestError::InsufficientFunds { balance: old(from).balance, amount: a })
                    } else {
                        r.outcome is Ok && final(from).balance == old(from).balance - a && final(to).balance == old(to).balance + a
                    },
                }
            },
        },
        r.outcome is Err ==> final(from).balance == old(from).balance && final(to).balance == old(to).balance,
{
    if to_user_id.is_none() {
        return Step { outcome: Err(RequestError::RecipientRequired), limits_to_store: None };
    }
    let a = match checked_amount(amount) {
        Err(e) => return Step { outcome: Err(e), limits_to_store: None },
        Ok(a) => a,
    };
    if to_user_id == Some(from.user_id) {
        return Step { outcome: Err(RequestError::SelfTransfer), limits_to_store: None };
    }
    if from.frozen {
        return Step { outcome: Err(RequestError::WalletFrozen), limits_to_store: None };
    }
    let check = check_spending_limit(stored, from.user_id, a, today, this_month);
    if !check.allowed {
        return Step { outcome: Err(RequestError::SpendingLimit(check.message)), limits_to_store: None };
    }
    match transfer(from, to, a, now) {
        Err(WalletError::InsufficientFunds { balance, amount }) => Step {
            outcome: Err(RequestError::InsufficientFunds { balance, amount }),
            limits_to_store: check.updated,
        },
        Ok(()) => Step { outcome: Ok(()), limits_to_store: check.updated },
    }
}

/// Sending a gift: a gift is required and must be in the catalog, the
/// recipient must be someone else, and the sender's balance must cover the
/// gift's price, which moves to the recipient. Gives the price.
pub fn send_gift(from: &mut Wallet, to: &mut Wallet, catalog: &Vec<GiftCatalog>, gift_id: Option<i64>, now: &str)
    -> (r: Result<i64, RequestError>)
    requires
        forall|i: int| 0 <= i < catalog.len() ==> i64::MIN <= old(to).balance + #[trigger] catalog@[i].price <= i64::MAX,
        forall|i: int| 0 <= i < catalog.len() ==> i64::MIN <= old(from).balance - #[trigger] catalog@[i].price <= i64::MAX,
    ensures
        gift_id is None ==> r == Err::<i64, RequestError>(RequestError::GiftRequired),
        gift_id is Some && old(to).user_id == old(from).user_id ==> r == Err::<i64, RequestError>(RequestError::SelfGift),
        gift_id is Some && old(to).user_id != old(from).user_id ==> match price_in(catalog@, gift_id.unwrap()) {
            None => r == Err::<i64, RequestError>(RequestError::GiftNotFound),
            Some(p) => if old(from).balance < p {
                r == Err::<i64, RequestError>(RequestError::InsufficientFunds { balance: old(from).balance, amount: p })
            } else {
                r == Ok::<i64, RequestError>(p) && final(from).balance == old(from).balance - p
                    && final(to).balance == old(to).balance + p
            },
        },
        r is Err ==> final(from).balance == old(from).balance && final(to).balance == old(to).balance,
{
    let g = match gift_id {
        None => return Err(RequestError::GiftRequired),
        Some(g) => g,
    };
    if to.user_id == from.user_id {
        return Err(RequestError::SelfGift);
    }
    let price = match gift_price(catalog, g) {
        None => return Err(RequestError::GiftNotFound),
        Some(p) => p,
    };
    proof { lemma_price_in_catalog(catalog@, g); }
    match transfer(from, to, price, now) {
        Err(WalletError::InsufficientFunds { balance, amount }) => Err(RequestError::InsufficientFunds { balance, amount }),
        Ok(()) => Ok(price),
    }
}

/// A price found in the catalog is the price of one of its entries.
proof fn lemma_price_in_catalog(catalog: Seq<GiftCatalog>, gift_id: i64)
    ensures
        price_in(catalog, gift_id) matches Some(p) ==> exists|i: int| 0 <= i < catalog.len() && #[trigger] catalog[i].price == p,
    decreases catalog.len(),
{
    if catalog.len() > 0 && catalog[0].id != gift_id {
        lemma_price_in_catalog(catalog.drop_first(), gift_id);
        if let Some(p) = price_in(catalog, gift_id) {
            let i = choose|i: int| 0 <= i < catalog.drop_first().len() && #[trigger] catalog.drop_first()[i].price == p;
            assert(catalog[i + 1].price == p);
        }
    } else if catalog.len() > 0 {
        assert(catalog[0].price == catalog[0].price);
    }
}

/// An administrator's balance adjustment: a non-negative amount is
/// deposited, a negative one withdrawn (refused when the balance does not
/// cover it). Gives the new balance.
pub fn adjust_balance(wallet: &mut Wallet, amount: i64, now: &str) -> (r: Result<i64, WalletError>)
    requires
        amount > i64::MIN,
        amount >= 0 ==> old(wallet).balance + amount <= i64::MAX,
        amount < 0 ==> old(wallet).balance + amount >= i64::MIN,
    ensures
        amount >= 0 ==> r == Ok::<i64, WalletError>(final(wallet).balance) && final(wallet).balance == old(wallet).balance + amount,
        amount < 0 && old(wallet).balance < -amount ==>
            r == Err::<i64, WalletError>(WalletError::InsufficientFunds { balance: old(wallet).balance, amount: (-amount) as i64 })
            && final(wallet).balance == old(wallet).balance,
        amount < 0 && old(wallet).balance >= -amount ==>
            r == Ok::<i64, WalletError>(final(wallet).balance) && final(wallet).balance == old(wallet).balance + amount,
{
    if amount >= 0 {
        Ok(wallet.deposit(amount, now))
    } else {
        wallet.withdraw(-amount, now)
    }
}

} // verus!
