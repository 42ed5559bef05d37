//! Proportional profit distribution: the admin hands in a profit pool and
//! one share weight per member; each member is paid
//! `profit * share / total_shares`, rounded down, and every
//! distribution is kept in an append-only log.

use vstd::prelude::*;
use crate::account::{AccountId, Party, TokenTransfer, is_admin};
use crate::arith::{checked_floor_div, floor_div, lemma_floor_div_scale};

verus! {

/// Storage keys of the dividend contract's instance storage.
pub enum DataKey {
    /// Admin address authorized to call `distribute`.
    Admin,
    /// Address of the token used for payouts.
    AssetAddress,
    /// Address of the sibling treasury contract (informational; not enforced).
    TreasuryContract,
    /// Append-only log of every [`Distribution`] executed by this contract.
    Distributions,
    /// Monotonically increasing counter used to assign distribution IDs.
    DistributionCounter,
}

/// Single record of one profit-distribution event.
pub struct Distribution {
    /// Auto-incremented ID assigned at execution time.
    pub id: u32,
    /// Total profit (in token base units) that was available to distribute.
    pub total_profit: i128,
    /// Sum of all `shares` in the call that produced this distribution.
    pub total_shares: i128,
    /// Recipients in the same order as the call's `recipients` argument.
    pub recipients: Vec<AccountId>,
    /// Payout computed for each recipient (rounded down).
    pub amounts: Vec<i128>,
    /// Ledger timestamp at which the distribution was executed.
    pub executed_at: u64,
    /// Human-readable period label (e.g. `"Q3-2026"`) supplied by the admin.
    pub period: String,
}

/// Why a call to the dividend contract is refused.
#[derive(Clone, Copy, Debug, PartialEq, Eq, Structural)]
pub enum DividendError {
    /// A storage key that the call reads (admin, asset) was never written.
    NotInitialized,
    /// The caller is not the stored admin.
    Unauthorized,
    /// `recipients` and `shares` differ in length.
    LengthMismatch,
    /// The profit is zero or negative.
    NonPositiveProfit,
    /// The share weights add up to zero.
    ZeroTotalShares,
    /// An intermediate sum, product or quotient leaves the integer range.
    Overflow,
}

/// The dividend contract's storage: each field is one storage key,
/// `None` where the key was never written.
pub struct DividendContract {
    pub admin: Option<AccountId>,
    pub asset: Option<AccountId>,
    pub treasury: Option<AccountId>,
    pub counter: Option<u32>,
    pub distributions: Option<Vec<Distribution>>,
}

/// Sum of the weights, over the integers.
pub open spec fn sum_of(s: Seq<i128>) -> int
    decreases s.len(),
{
    if s.len() == 0 {
        0
    } else {
        sum_of(s.drop_last()) + s.last()
    }
}

/// Whether every running sum of the weights, taken left to right, stays
/// within `i128`.
pub open spec fn prefix_sums_fit(s: Seq<i128>) -> bool {
    forall|k: int| 0 <= k <= s.len() ==> i128::MIN <= #[trigger] sum_of(s.take(k)) <= i128::MAX
}

/// What a member with weight `share` receives out of `profit` when the
/// weights add up to `total`.
pub open spec fn payout(profit: int, share: int, total: int) -> int {
    floor_div(profit * share, total)
}

/// Whether computing that payout in `i128` stays within range.
pub open spec fn payout_fits(profit: int, share: int, total: int) -> bool {
    &&& i128::MIN <= profit * share <= i128::MAX
    &&& i128::MIN <= payout(profit, share, total) <= i128::MAX
}

/// The payout of every member, in order.
pub open spec fn payouts(profit: int, shares: Seq<i128>, total: int) -> Seq<i128> {
    Seq::new(shares.len(), |j: int| payout(profit, shares[j] as int, total) as i128)
}

/// The transfers that pay out `amounts` to `recipients`: one per positive
/// amount, from the contract, in order.
pub open spec fn payout_transfers(
    asset: AccountId,
    recipients: Seq<AccountId>,
    amounts: Seq<i128>,
) -> Seq<TokenTransfer>
    decreases amounts.len(),
{
    if amounts.len() == 0 {
        seq![]
    } else {
        let i = amounts.len() - 1;
        let earlier = payout_transfers(asset, recipients, amounts.drop_last());
        if amounts[i] > 0 {
            earlier.push(
                TokenTransfer {
                    asset,
                    from: Party::CurrentContract,
                    to: Party::Account(recipients[i]),
                    amount: amounts[i],
                },
            )
        } else {
            earlier
        }
    }
}

/// Which refusal `distribute` gives, checked in the order the contract
/// checks them, or `None` when it goes through.
pub open spec fn distribute_refusal(
    c: DividendContract,
    caller: AccountId,
    recipients_len: int,
    shares: Seq<i128>,
    profit: i128,
) -> Option<DividendError> {
    if c.admin is None {
        Some(DividendError::NotInitialized)
    } else if !is_admin(c.admin, caller) {
        Some(DividendError::Unauthorized)
    } else if recipients_len != shares.len() {
        Some(DividendError::LengthMismatch)
    } else if profit <= 0 {
        Some(DividendError::NonPositiveProfit)
    } else if !prefix_sums_fit(shares) {
        Some(DividendError::Overflow)
    } else if sum_of(shares) == 0 {
        Some(DividendError::ZeroTotalShares)
    } else if c.asset is None {
        Some(DividendError::NotInitialized)
    } else if exists|j: int|
        0 <= j < shares.len() && !#[trigger] payout_fits(profit as int, shares[j] as int, sum_of(shares))
    {
        Some(DividendError::Overflow)
    } else if c.counter.unwrap_or(0) == u32::MAX {
        Some(DividendError::Overflow)
    } else {
        None
    }
}

/// The distribution log, empty where it was never written.
pub open spec fn log_of(c: DividendContract) -> Seq<Distribution> {
    match c.distributions {
        Some(v) => v@,
        None => seq![],
    }
}



/// The contract's standing invariant: the log holds the IDs 1, 2, ... in
/// order, the counter equals its length, and each record holds one
/// amount per recipient.
pub open spec fn dividend_wf(c: DividendContract) -> bool {
    let log = log_of(c);
    &&& (c.distributions is Some <==> c.counter is Some)
    &&& c.counter.unwrap_or(0) == log.len()
    &&& forall|i: int| 0 <= i < log.len() ==> #[trigger] log[i].id == i + 1
    &&& forall|i: int| 0 <= i < log.len() ==> (#[trigger] log[i]).amounts@.len() == log[i].recipients@.len()
}


/// The storage effect of `initialize(admin, asset, treasury)`.
pub open spec fn initialize_step(
    before: DividendContract,
    after: DividendContract,
    admin: AccountId,
    asset: AccountId,
    treasury: AccountId,
) -> bool {
    &&& after.admin == Some(admin)
    &&& after.asset == Some(asset)
    &&& after.treasury == Some(treasury)
    &&& after.counter == Some(0u32)
    &&& after.distributions matches Some(v) && v@.len() == 0
}

/// The storage effect of `distribute(admin, recipients, shares,
/// total_profit, period)` at time `now`.
pub open spec fn distribute_step(
    before: DividendContract,
    after: DividendContract,
    admin: AccountId,
    recipients: Vec<AccountId>,
    shares: Seq<i128>,
    total_profit: i128,
    period: String,
    now: u64,
) -> bool {
    if distribute_refusal(before, admin, recipients@.len() as int, shares, total_profit) is Some {
        after == before
    } else {
        let id = (before.counter.unwrap_or(0) + 1) as u32;
        let log = log_of(after);
        let rec = log.last();
        &&& after.counter == Some(id)
        &&& after.distributions is Some
        &&& log.len() == log_of(before).len() + 1
        &&& log.drop_last() == log_of(before)
        &&& rec.id == id
        &&& rec.total_profit == total_profit
        &&& rec.total_shares == sum_of(shares)
        &&& rec.recipients == recipients
        &&& rec.amounts@ == payouts(total_profit as int, shares, sum_of(shares))
        &&& rec.executed_at == now
        &&& rec.period == period
        &&& after.admin == before.admin
        &&& after.asset == before.asset
        &&& after.treasury == before.treasury
    }
}

/// `after` is what storage holds after one call of the contract on
/// `before` (the read-only call leaves it as it was).
pub open spec fn dividend_step(before: DividendContract, after: DividendContract) -> bool {
    ||| after == before
    ||| exists|admin: AccountId, asset: AccountId, treasury: AccountId|
        #[trigger] initialize_step(before, after, admin, asset, treasury)
    ||| exists|
        admin: AccountId,
        recipients: Vec<AccountId>,
        shares: Seq<i128>,
        total_profit: i128,
        period: String,
        now: u64,
    | #[trigger] distribute_step(before, after, admin, recipients, shares, total_profit, period, now)
}

/// Storage of a contract that was never called.
pub open spec fn dividend_fresh(c: DividendContract) -> bool {
    &&& c.admin is None
    &&& c.asset is None
    &&& c.treasury is None
    &&& c.counter is None
    &&& c.distributions is None
}

proof fn lemma_dividend_step_keeps_wf(before: DividendContract, after: DividendContract)
    requires
        dividend_wf(before),
        dividend_step(before, after),
    ensures
        dividend_wf(after),
{
    if after == before {
    } else if exists|admin: AccountId, asset: AccountId, treasury: AccountId|
        #[trigger] initialize_step(before, after, admin, asset, treasury) {
    } else {
        let (admin, recipients, shares, total_profit, period, now) = choose|
            admin: AccountId,
            recipients: Vec<AccountId>,
            shares: Seq<i128>,
            total_profit: i128,
            period: String,
            now: u64,
        | #[trigger] distribute_step(before, after, admin, recipients, shares, total_profit, period, now);
        if distribute_refusal(before, admin, recipients@.len() as int, shares, total_profit) is None {
            let log = log_of(after);
            let old_log = log_of(before);
            assert forall|i: int| 0 <= i < log.len() implies (#[trigger] log[i]).id == i + 1
                && log[i].amounts@.len() == log[i].recipients@.len() by {
                if i < old_log.len() {
                    assert(log[i] == log.drop_last()[i]);
                } else {
                    assert(log[i] == log.last());
                }
            }
        }
    }
}

/// Whatever sequence of calls a contract goes through from its first
/// call on, its log holds the distributions with IDs 1, 2, ... oldest
/// first, the counter equals the log's length (so successive
/// distributions get the IDs 1, 2, 3, ...), and each record holds one
/// amount per recipient.
pub proof fn lemma_dividend_always_wf(trace: Seq<DividendContract>)
    requires
        trace.len() > 0,
        dividend_fresh(trace[0]),
        forall|j: int| 0 <= j < trace.len() - 1 ==> dividend_step(#[trigger] trace[j], trace[j + 1]),
    ensures
        forall|j: int| 0 <= j < trace.len() ==> dividend_wf(#[trigger] trace[j]),
    decreases trace.len(),
{
    if trace.len() > 1 {
        let init = trace.drop_last();
        assert forall|j: int| 0 <= j < init.len() - 1 implies dividend_step(#[trigger] init[j], init[j + 1]) by {
            assert(dividend_step(trace[j], trace[j + 1]));
        }
        lemma_dividend_always_wf(init);
        let n = trace.len() - 1;
        assert(dividend_wf(init[n - 1]));
        assert(dividend_step(trace[n - 1], trace[n]));
        lemma_dividend_step_keeps_wf(trace[n - 1], trace[n]);
        assert forall|j: int| 0 <= j < trace.len() implies dividend_wf(#[trigger] trace[j]) by {
            if j < n {
                assert(init[j] == trace[j]);
            }
        }
    }
}

proof fn lemma_sum_nonneg(s: Seq<i128>)
    requires
        forall|j: int| 0 <= j < s.len() ==> s[j] >= 0,
    ensures
        sum_of(s) >= 0,
    decreases s.len(),
{
    if s.len() > 0 {
        lemma_sum_nonneg(s.drop_last());
    }
}

proof fn lemma_share_le_total(s: Seq<i128>, j: int)
    requires
        forall|i: int| 0 <= i < s.len() ==> s[i] >= 0,
        0 <= j < s.len(),
    ensures
        s[j] <= sum_of(s),
    decreases s.len(),
{
    lemma_sum_nonneg(s.drop_last());
    if j < s.len() - 1 {
        lemma_share_le_total(s.drop_last(), j);
    }
}

proof fn lemma_floor_payout(profit: int, share: int, total: int)
    requires
        profit > 0,
        0 <= share <= total,
        total > 0,
    ensures
        0 <= payout(profit, share, total) <= profit,
        payout(profit, share, total) * total <= profit * share,
{
    let a = profit * share;
    assert(0 <= a <= profit * total) by (nonlinear_arith)
        requires
            profit > 0,
            0 <= share <= total,
            a == profit * share,
    ;
    assert(0 <= a / total <= profit && (a / total) * total <= a) by (nonlinear_arith)
        requires
            0 <= a <= profit * total,
            total > 0,
    ;
}

proof fn lemma_payout_prefix(profit: int, s: Seq<i128>, k: int)
    requires
        0 < profit <= i128::MAX,
        forall|j: int| 0 <= j < s.len() ==> s[j] >= 0,
        sum_of(s) > 0,
        0 <= k <= s.len(),
    ensures
        sum_of(payouts(profit, s, sum_of(s)).take(k)) * sum_of(s) <= profit * sum_of(s.take(k)),
    decreases k,
{
    let total = sum_of(s);
    let amounts = payouts(profit, s, total);
    if k == 0 {
        assert(amounts.take(0) =~= seq![]);
        assert(s.take(0) =~= seq![]);
    } else {
        lemma_payout_prefix(profit, s, k - 1);
        lemma_share_le_total(s, k - 1);
        lemma_floor_payout(profit, s[k - 1] as int, total);
        assert(amounts.take(k).drop_last() =~= amounts.take(k - 1));
        assert(s.take(k).drop_last() =~= s.take(k - 1));
        let q = payout(profit, s[k - 1] as int, total);
        let prev = sum_of(amounts.take(k - 1));
        let sprev = sum_of(s.take(k - 1));
        let sk = s[k - 1] as int;
        assert(amounts[k - 1] == q);
        assert((prev + q) * total <= profit * (sprev + sk)) by (nonlinear_arith)
            requires
                prev * total <= profit * sprev,
                q * total <= profit * sk,
        ;
    }
}

/// Proportional payouts never overspend: when every weight is
/// non-negative and the weights add up to a positive total, each member's
/// payout lies between zero and the profit, and all payouts together add
/// up to at most the profit.
pub proof fn lemma_payouts_within_profit(profit: i128, shares: Seq<i128>)
    requires
        profit > 0,
        forall|j: int| 0 <= j < shares.len() ==> shares[j] >= 0,
        sum_of(shares) > 0,
    ensures
        forall|j: int|
            0 <= j < shares.len() ==> 0 <= #[trigger] payouts(profit as int, shares, sum_of(shares))[j]
                <= profit,
        sum_of(payouts(profit as int, shares, sum_of(shares))) <= profit,
{
    let total = sum_of(shares);
    let amounts = payouts(profit as int, shares, total);
    assert forall|j: int| 0 <= j < shares.len() implies 0 <= #[trigger] amounts[j] <= profit by {
        lemma_share_le_total(shares, j);
        lemma_floor_payout(profit as int, shares[j] as int, total);
    }
    lemma_payout_prefix(profit as int, shares, shares.len() as int);
    assert(amounts.take(shares.len() as int) =~= amounts);
    assert(shares.take(shares.len() as int) =~= shares);
    let paid = sum_of(amounts);
    assert(paid <= profit) by (nonlinear_arith)
        requires
            paid * total <= profit * total,
            total > 0,
    ;
}


proof fn lemma_sum_scale(shares: Seq<i128>, scaled: Seq<i128>, k: int)
    requires
        scaled.len() == shares.len(),
        forall|i: int| 0 <= i < shares.len() ==> scaled[i] == k * shares[i],
    ensures
        sum_of(scaled) == k * sum_of(shares),
    decreases shares.len(),
{
    if shares.len() > 0 {
        lemma_sum_scale(shares.drop_last(), scaled.drop_last(), k);
        let a = sum_of(shares.drop_last());
        let b = shares.last() as int;
        assert(k * a + k * b == k * (a + b)) by (nonlinear_arith);
    }
}

/// Only the proportions of the shares matter: multiplying every share by
/// the same positive factor `k` multiplies their total by `k` and leaves
/// every payout, and so every transfer, unchanged.
pub proof fn lemma_share_scaling(
    profit: int,
    shares: Seq<i128>,
    scaled: Seq<i128>,
    k: int,
    asset: AccountId,
    recipients: Seq<AccountId>,
)
    requires
        k > 0,
        scaled.len() == shares.len(),
        forall|i: int| 0 <= i < shares.len() ==> scaled[i] == k * shares[i],
        sum_of(shares) != 0,
    ensures
        sum_of(scaled) == k * sum_of(shares),
        payouts(profit, scaled, sum_of(scaled)) == payouts(profit, shares, sum_of(shares)),
        payout_transfers(asset, recipients, payouts(profit, scaled, sum_of(scaled)))
            == payout_transfers(asset, recipients, payouts(profit, shares, sum_of(shares))),
{
    lemma_sum_scale(shares, scaled, k);
    let t = sum_of(shares);
    assert forall|i: int| 0 <= i < shares.len() implies payout(profit, scaled[i] as int, k * t)
        == payout(profit, shares[i] as int, t) by {
        let s = shares[i] as int;
        assert(profit * (k * s) == k * (profit * s)) by (nonlinear_arith);
        lemma_floor_div_scale(profit * s, t, k);
    }
    assert(payouts(profit, scaled, sum_of(scaled)) =~= payouts(profit, shares, t));
}


/// The positions of the positive amounts, in increasing order.
pub open spec fn positive_positions(amounts: Seq<i128>) -> Seq<int>
    decreases amounts.len(),
{
    if amounts.len() == 0 {
        seq![]
    } else {
        let earlier = positive_positions(amounts.drop_last());
        if amounts.last() > 0 {
            earlier.push(amounts.len() - 1)
        } else {
            earlier
        }
    }
}

proof fn lemma_transfer_positions(asset: AccountId, recipients: Seq<AccountId>, amounts: Seq<i128>)
    ensures
        ({
            let t = payout_transfers(asset, recipients, amounts);
            let pos = positive_positions(amounts);
            &&& pos.len() == t.len()
            &&& forall|k: int|
                0 <= k < pos.len() ==> {
                    &&& 0 <= #[trigger] pos[k] < amounts.len()
                    &&& amounts[pos[k]] > 0
                    &&& t[k] == TokenTransfer {
                        asset,
                        from: Party::CurrentContract,
                        to: Party::Account(recipients[pos[k]]),
                        amount: amounts[pos[k]],
                    }
                }
            &&& forall|k: int, l: int| 0 <= k < l < pos.len() ==> #[trigger] pos[k] < #[trigger] pos[l]
            &&& forall|i: int|
                0 <= i < amounts.len() && #[trigger] amounts[i] > 0 ==> exists|k: int|
                    0 <= k < pos.len() && #[trigger] pos[k] == i
        }),
    decreases amounts.len(),
{
    if amounts.len() > 0 {
        let init = amounts.drop_last();
        lemma_transfer_positions(asset, recipients, init);
        let n = amounts.len() - 1;
        let pe = positive_positions(init);
        let te = payout_transfers(asset, recipients, init);
        let pos = positive_positions(amounts);
        let t = payout_transfers(asset, recipients, amounts);
        assert forall|k: int| 0 <= k < pe.len() implies #[trigger] pos[k] == pe[k] && t[k] == te[k] by {}
        assert forall|i: int| 0 <= i < amounts.len() && #[trigger] amounts[i] > 0 implies exists|k: int|
            0 <= k < pos.len() && #[trigger] pos[k] == i by {
            if i < n {
                assert(init[i] == amounts[i]);
                let k = choose|k: int| 0 <= k < pe.len() && #[trigger] pe[k] == i;
                assert(pos[k] == i);
            } else {
                assert(pos[pos.len() - 1] == i);
            }
        }
        assert forall|k: int|
            0 <= k < pos.len() implies {
                &&& 0 <= #[trigger] pos[k] < amounts.len()
                &&& amounts[pos[k]] > 0
                &&& t[k] == TokenTransfer {
                    asset,
                    from: Party::CurrentContract,
                    to: Party::Account(recipients[pos[k]]),
                    amount: amounts[pos[k]],
                }
            } by {
            if k < pe.len() {
                assert(init[pe[k]] == amounts[pe[k]]);
            }
        }
    }
}

/// Each positive payout reaches its own recipient, and nobody else is
/// paid: the transfers of a distribution pay, in order, exactly the
/// recipients whose payout is positive, each its own payout, from the
/// contract in the distribution's asset. Formally the `k`-th transfer
/// pays `recipients[pos[k]]` the amount `amounts[pos[k]]`, where `pos`
/// lists, in increasing order, every position with a positive amount.
pub proof fn lemma_payouts_reach_their_recipients(
    asset: AccountId,
    recipients: Seq<AccountId>,
    amounts: Seq<i128>,
)
    ensures
        exists|pos: Seq<int>|
            #![trigger pos.len()]
            {
                let t = payout_transfers(asset, recipients, amounts);
                &&& pos.len() == t.len()
                &&& forall|k: int|
                    0 <= k < pos.len() ==> {
                        &&& 0 <= #[trigger] pos[k] < amounts.len()
                        &&& amounts[pos[k]] > 0
                        &&& t[k].asset == asset
                        &&& t[k].from == Party::CurrentContract
                        &&& t[k].to == Party::Account(recipients[pos[k]])
                        &&& t[k].amount == amounts[pos[k]]
                    }
                &&& forall|k: int, l: int| 0 <= k < l < pos.len() ==> #[trigger] pos[k] < #[trigger] pos[l]
                &&& forall|i: int|
                    0 <= i < amounts.len() && #[trigger] amounts[i] > 0 ==> exists|k: int|
                        0 <= k < pos.len() && #[trigger] pos[k] == i
            },
{
    lemma_transfer_positions(asset, recipients, amounts);
    let pos = positive_positions(amounts);
    let t = payout_transfers(asset, recipients, amounts);
    assert forall|k: int| 0 <= k < pos.len() implies {
        &&& 0 <= #[trigger] pos[k] < amounts.len()
        &&& amounts[pos[k]] > 0
        &&& t[k].asset == asset
        &&& t[k].from == Party::CurrentContract
        &&& t[k].to == Party::Account(recipients[pos[k]])
        &&& t[k].amount == amounts[pos[k]]
    } by {}
}

proof fn lemma_floor_bounds(x: int, d: int)
    requires
        d != 0,
        i128::MIN < x <= i128::MAX,
    ensures
        d > 0 ==> floor_div(x, d) * d <= x < floor_div(x, d) * d + d,
        d < 0 ==> floor_div(x, d) * d >= x > floor_div(x, d) * d + d,
        i128::MIN <= floor_div(x, d) <= i128::MAX,
{
    if d > 0 {
        let q = x / d;
        let r = x % d;
        vstd::arithmetic::div_mod::lemma_fundamental_div_mod(x, d);
        vstd::arithmetic::div_mod::lemma_mod_bound(x, d);
        assert(q * d <= x < q * d + d && i128::MIN <= q <= i128::MAX) by (nonlinear_arith)
            requires
                x == d * q + r,
                0 <= r < d,
                i128::MIN < x <= i128::MAX,
        ;
    } else {
        let e = d * -1;
        let y = x * -1;
        let q = y / e;
        let r = y % e;
        vstd::arithmetic::div_mod::lemma_fundamental_div_mod(y, e);
        vstd::arithmetic::div_mod::lemma_mod_bound(y, e);
        assert(q * d >= x > q * d + d && i128::MIN <= q <= i128::MAX) by (nonlinear_arith)
            requires
                y == e * q + r,
                0 <= r < e,
                e == d * -1,
                y == x * -1,
                i128::MIN < x <= i128::MAX,
        ;
    }
}

/// Payouts are rounded down: with a non-zero total `t` and products
/// `profit * shares[j]` within `i128`, the recorded amount `a` of member
/// `j` is the largest integer with `a * t <= profit * shares[j]` when `t`
/// is positive (`a * t >= profit * shares[j]` when `t` is negative), so
/// `a` is `profit * shares[j] / t` rounded toward negative infinity.
pub proof fn lemma_recorded_amounts_round_down(profit: i128, shares: Seq<i128>, total: int)
    requires
        total != 0,
        forall|j: int| 0 <= j < shares.len() ==> i128::MIN < profit * #[trigger] shares[j] <= i128::MAX,
    ensures
        payouts(profit as int, shares, total).len() == shares.len(),
        forall|j: int|
            0 <= j < shares.len() ==> {
                let a = #[trigger] payouts(profit as int, shares, total)[j] as int;
                let x = profit * shares[j];
                &&& total > 0 ==> a * total <= x < a * total + total
                &&& total < 0 ==> a * total >= x > a * total + total
            },
{
    assert forall|j: int| 0 <= j < shares.len() implies {
        let a = #[trigger] payouts(profit as int, shares, total)[j] as int;
        let x = profit * shares[j];
        &&& total > 0 ==> a * total <= x < a * total + total
        &&& total < 0 ==> a * total >= x > a * total + total
    } by {
        lemma_floor_bounds(profit * shares[j], total);
    }
}


/// Shares are summed one by one: the total of no shares is zero, and
/// appending a share adds it to the total.
pub proof fn lemma_share_total(shares: Seq<i128>, x: i128)
    ensures
        sum_of(Seq::<i128>::empty()) == 0,
        sum_of(shares.push(x)) == sum_of(shares) + x,
{
    assert(shares.push(x).drop_last() =~= shares);
}

/// Only the admin distributes: a caller other than the stored admin is
/// always refused with `Unauthorized`, and a distribution goes through
/// whenever the stored admin calls with one share per recipient, a
/// positive profit, a non-zero total whose running sums all fit in
/// `i128`, products `profit * share` strictly inside `i128`, a stored
/// asset and a counter below `u32::MAX`.
pub proof fn lemma_distribute_accepted(
    c: DividendContract,
    caller: AccountId,
    recipients_len: int,
    shares: Seq<i128>,
    profit: i128,
)
    ensures
        (c.admin matches Some(a) && a@ != caller@) ==> distribute_refusal(
            c,
            caller,
            recipients_len,
            shares,
            profit,
        ) == Some(DividendError::Unauthorized),
        ({
            &&& c.admin matches Some(a) && a@ == caller@
            &&& recipients_len == shares.len()
            &&& profit > 0
            &&& forall|k: int| 0 <= k <= shares.len() ==> i128::MIN <= #[trigger] sum_of(shares.take(k)) <= i128::MAX
            &&& sum_of(shares) != 0
            &&& c.asset is Some
            &&& forall|j: int| 0 <= j < shares.len() ==> i128::MIN < profit * #[trigger] shares[j] <= i128::MAX
            &&& c.counter.unwrap_or(0) < u32::MAX
        }) ==> distribute_refusal(c, caller, recipients_len, shares, profit) is None,
{
    if forall|j: int| 0 <= j < shares.len() ==> i128::MIN < profit * #[trigger] shares[j] <= i128::MAX {
        if sum_of(shares) != 0 {
            assert forall|j: int| 0 <= j < shares.len() implies #[trigger] payout_fits(
                profit as int,
                shares[j] as int,
                sum_of(shares),
            ) by {
                lemma_floor_bounds(profit * shares[j], sum_of(shares));
            }
        }
    }
}

fn checked_payout(profit: i128, share: i128, total: i128) -> (r: Option<i128>)
    requires
        total != 0,
    ensures
        r matches Some(p) ==> payout_fits(profit as int, share as int, total as int) && p == payout(
            profit as int,
            share as int,
            total as int,
        ),
        r is None ==> !payout_fits(profit as int, share as int, total as int),
{
    match profit.checked_mul(share) {
        None => None,
        Some(product) => checked_floor_div(product, total),
    }
}

fn sum_shares(shares: &Vec<i128>) -> (r: Option<i128>)
    ensures
        r matches Some(t) ==> prefix_sums_fit(shares@) && t == sum_of(shares@),
        r is None ==> !prefix_sums_fit(shares@),
{
    let mut total: i128 = 0;
    let mut i: usize = 0;
    assert(shares@.take(0) =~= seq![]);
    while i < shares.len()
        invariant
            i <= shares.len(),
            total == sum_of(shares@.take(i as int)),
            forall|k: int| 0 <= k <= i ==> i128::MIN <= #[trigger] sum_of(shares@.take(k)) <= i128::MAX,
        decreases shares.len() - i,
    {
        assert(shares@.take(i + 1).drop_last() =~= shares@.take(i as int));
        match total.checked_add(shares[i]) {
            None => {
                assert(!(i128::MIN <= sum_of(shares@.take(i + 1)) <= i128::MAX));
                return None;
            },
            Some(t) => {
                total = t;
            },
        }
        i = i + 1;
    }
    assert(shares@.take(shares.len() as int) =~= shares@);
    Some(total)
}

impl DividendContract {
    /// A contract whose storage is empty.
    pub fn new() -> (r: DividendContract)
        ensures
            r.admin is None,
            r.asset is None,
            r.treasury is None,
            r.counter is None,
            r.distributions is None,
            dividend_wf(r),
    {
        DividendContract { admin: None, asset: None, treasury: None, counter: None, distributions: None }
    }

    /// Stores the admin, asset and treasury addresses and starts an empty
    /// log with counter 0. Called again, it overwrites all of them.
    pub fn initialize(&mut self, admin: AccountId, asset: AccountId, treasury: AccountId)
        ensures
            final(self).admin == Some(admin),
            final(self).asset == Some(asset),
            final(self).treasury == Some(treasury),
            final(self).counter == Some(0u32),
            final(self).distributions matches Some(v) && v@.len() == 0,
            dividend_wf(*final(self)),
            initialize_step(*old(self), *final(self), admin, asset, treasury),
    {
        self.admin = Some(admin);
        self.asset = Some(asset);
        self.treasury = Some(treasury);
        self.counter = Some(0);
        self.distributions = Some(Vec::new());
    }

    fn require_admin(&self, caller: &AccountId) -> (r: Result<(), DividendError>)
        ensures
            r == (if self.admin is None {
                Err(DividendError::NotInitialized)
            } else if !is_admin(self.admin, *caller) {
                Err(DividendError::Unauthorized)
            } else {
                Ok(())
            }),
    {
        match &self.admin {
            None => Err(DividendError::NotInitialized),
            Some(a) => if a.same_as(caller) {
                Ok(())
            } else {
                Err(DividendError::Unauthorized)
            },
        }
    }

    /// Distributes `total_profit` over `recipients` in proportion to
    /// `shares`: recipient `i` is owed `total_profit * shares[i] /
    /// sum(shares)`, rounded down. Appends the distribution to the
    /// log and returns its ID together with the transfers to carry out
    /// (one per positive payout, from the contract).
    pub fn distribute(
        &mut self,
        admin: &AccountId,
        recipients: Vec<AccountId>,
        shares: Vec<i128>,
        total_profit: i128,
        period: String,
        now: u64,
    ) -> (r: Result<(u32, Vec<TokenTransfer>), DividendError>)
        ensures
            ({
                let refusal = distribute_refusal(
                    *old(self),
                    *admin,
                    recipients@.len() as int,
                    shares@,
                    total_profit,
                );
                match r {
                    Err(e) => refusal == Some(e) && *final(self) == *old(self),
                    Ok((id, transfers)) => {
                        let total = sum_of(shares@);
                        let amounts = payouts(total_profit as int, shares@, total);
                        let log = log_of(*final(self));
                        let rec = log.last();
                        &&& refusal is None
                        &&& id == old(self).counter.unwrap_or(0) + 1
                        &&& final(self).counter == Some(id)
                        &&& final(self).distributions is Some
                        &&& log.len() == log_of(*old(self)).len() + 1
                        &&& log.drop_last() == log_of(*old(self))
                        &&& rec.id == id
                        &&& rec.total_profit == total_profit
                        &&& rec.total_shares == total
                        &&& rec.recipients == recipients
                        &&& rec.amounts@ == amounts
                        &&& rec.executed_at == now
                        &&& rec.period == period
                        &&& transfers@ == payout_transfers(
                            old(self).asset.unwrap(),
                            recipients@,
                            amounts,
                        )
                        &&& final(self).admin == old(self).admin
                        &&& final(self).asset == old(self).asset
                        &&& final(self).treasury == old(self).treasury
                    },
                }
            }),
            dividend_wf(*old(self)) ==> dividend_wf(*final(self)),
            distribute_step(*old(self), *final(self), *admin, recipients, shares@, total_profit, period, now),
    {
        match self.require_admin(admin) {
            Err(e) => return Err(e),
            Ok(()) => {},
        }
        if recipients.len() != shares.len() {
            return Err(DividendError::LengthMismatch);
        }
        if total_profit <= 0 {
            return Err(DividendError::NonPositiveProfit);
        }
        let total_shares = match sum_shares(&shares) {
            None => return Err(DividendError::Overflow),
            Some(t) => t,
        };
        if total_shares == 0 {
            return Err(DividendError::ZeroTotalShares);
        }
        let asset = match &self.asset {
            None => return Err(DividendError::NotInitialized),
            Some(a) => a.clone(),
        };
        let ghost amounts_spec = payouts(total_profit as int, shares@, total_shares as int);
        let mut amounts: Vec<i128> = Vec::new();
        let mut transfers: Vec<TokenTransfer> = Vec::new();
        let mut i: usize = 0;
        while i < recipients.len()
            invariant
                i <= recipients.len(),
                *self == *old(self),
                is_admin(self.admin, *admin),
                self.asset == Some(asset),
                total_profit > 0,
                prefix_sums_fit(shares@),
                recipients.len() == shares.len(),
                total_shares != 0,
                total_shares == sum_of(shares@),
                amounts_spec == payouts(total_profit as int, shares@, total_shares as int),
                amounts@ == amounts_spec.take(i as int),
                forall|j: int|
                    0 <= j < i ==> #[trigger] payout_fits(
                        total_profit as int,
                        shares@[j] as int,
                        total_shares as int,
                    ),
                transfers@ == payout_transfers(asset, recipients@, amounts@),
            decreases recipients.len() - i,
        {
            let p = match checked_payout(total_profit, shares[i], total_shares) {
                None => {
                    assert(!payout_fits(
                        total_profit as int,
                        shares@[i as int] as int,
                        total_shares as int,
                    ));
                    return Err(DividendError::Overflow);
                },
                Some(p) => p,
            };
            let ghost before = amounts@;
            if p > 0 {
                transfers.push(
                    TokenTransfer {
                        asset: asset.clone(),
                        from: Party::CurrentContract,
                        to: Party::Account(recipients[i].clone()),
                        amount: p,
                    },
                );
            }
            amounts.push(p);
            assert(amounts@.drop_last() =~= before);
            assert(amounts@ =~= amounts_spec.take(i + 1));
            i = i + 1;
        }
        assert(amounts@ =~= amounts_spec);
        let counter: u32 = match self.counter {
            Some(c) => c,
            None => 0,
        };
        if counter == u32::MAX {
            return Err(DividendError::Overflow);
        }
        let id = counter + 1;
        let dist = Distribution {
            id,
            total_profit,
            total_shares,
            recipients,
            amounts,
            executed_at: now,
            period,
        };
        let mut log = match self.distributions.take() {
            Some(v) => v,
            None => Vec::new(),
        };
        let ghost old_log = log@;
        log.push(dist);
        assert(log@.drop_last() =~= old_log);
        self.distributions = Some(log);
        self.counter = Some(id);
        Ok((id, transfers))
    }

    /// The full log of distributions, oldest first; empty if none.
    pub fn get_distributions(&self) -> (r: &[Distribution])
        ensures
            r@ == log_of(*self),
    {
        match &self.distributions {
            Some(v) => v.as_slice(),
            None => &[],
        }
    }
}

} // verus!
