//! Loan book: members request loans, the admin approves and disburses
//! them, borrowers repay; each loan moves Pending -> Approved -> Repaid.

use vstd::prelude::*;
use crate::account::{AccountId, Party, TokenTransfer, is_admin};
use crate::arith::div_toward_zero;

verus! {

/// Seconds in one day, for turning a repayment period into a due date.
pub const SECONDS_PER_DAY: u64 = 86_400;

/// Flat interest rate given to every new loan, in basis points (5%).
pub const DEFAULT_INTEREST_BPS: u32 = 500;

/// Basis points in a whole.
pub const BPS_DENOMINATOR: i128 = 10_000;

/// Storage keys of the loan contract's instance storage.
pub enum DataKey {
    /// The admin address (set at initialization).
    Admin,
    /// Address of the treasury contract that funds disbursements.
    TreasuryContract,
    /// The token asset used for loan disbursements and repayments.
    AssetAddress,
    /// Vector of all [`Loan`] records.
    Loans,
    /// Monotonically increasing loan counter.
    LoanCounter,
}

/// Lifecycle status of a loan.
#[derive(Clone, Copy, Debug, PartialEq, Eq, Structural)]
pub enum LoanStatus {
    /// Loan request awaiting approval (not yet disbursed).
    Pending,
    /// Loan has been approved and funds disbursed.
    Approved,
    /// Loan has been fully repaid.
    Repaid,
    /// Loan was rejected.
    Rejected,
    /// Loan is past due and not fully repaid.
    Defaulted,
}

/// A single loan record.
pub struct Loan {
    /// Unique loan identifier.
    pub id: u32,
    /// The member who requested the loan.
    pub borrower: AccountId,
    /// Principal amount of the loan, in the asset's minor units.
    pub amount: i128,
    /// Interest rate in basis points (e.g. 500 = 5%).
    pub interest_bps: u32,
    /// Ledger timestamp by which the loan must be repaid.
    pub repayment_due: u64,
    /// Total amount repaid so far.
    pub amount_repaid: i128,
    /// Current lifecycle status of the loan.
    pub status: LoanStatus,
    /// Human-readable purpose of the loan.
    pub purpose: String,
    /// Ledger timestamp when the loan was requested.
    pub requested_at: u64,
    /// Ledger timestamp when the loan was approved (0 if not yet approved).
    pub approved_at: u64,
}

impl Clone for Loan {
    fn clone(&self) -> (r: Loan)
        ensures
            r == *self,
    {
        Loan {
            id: self.id,
            borrower: self.borrower.clone(),
            amount: self.amount,
            interest_bps: self.interest_bps,
            repayment_due: self.repayment_due,
            amount_repaid: self.amount_repaid,
            status: self.status,
            purpose: self.purpose.clone(),
            requested_at: self.requested_at,
            approved_at: self.approved_at,
        }
    }
}

/// Why a call to the loan contract is refused.
#[derive(Clone, Copy, Debug, PartialEq, Eq, Structural)]
pub enum LoanError {
    /// `initialize` was called on a contract that already has an admin.
    AlreadyInitialized,
    /// A storage key that the call reads (admin, loans, asset) was never written.
    NotInitialized,
    /// The caller is not the stored admin.
    Unauthorized,
    /// The requested amount is zero or negative.
    NonPositiveAmount,
    /// No loan has the given ID.
    LoanNotFound,
    /// The loan is not awaiting approval.
    NotPending,
    /// The caller is not the loan's borrower.
    NotBorrower,
    /// The loan is not in its repayment phase.
    NotActive,
    /// A counter, timestamp or amount leaves its integer range.
    Overflow,
}

/// The loan contract's storage: each field is one storage key, `None`
/// where the key was never written.
pub struct LoanContract {
    pub admin: Option<AccountId>,
    pub treasury: Option<AccountId>,
    pub asset: Option<AccountId>,
    pub loans: Option<Vec<Loan>>,
    pub counter: Option<u32>,
}

/// The stored loans, empty where the key was never written.
pub open spec fn loans_of(c: LoanContract) -> Seq<Loan> {
    match c.loans {
        Some(v) => v@,
        None => seq![],
    }
}

/// Whether some loan carries `id`.
pub open spec fn has_loan(loans: Seq<Loan>, id: u32) -> bool {
    exists|i: int| 0 <= i < loans.len() && #[trigger] loans[i].id == id
}

/// Whether `i` is the first position of a loan carrying `id`.
pub open spec fn is_first_loan(loans: Seq<Loan>, id: u32, i: int) -> bool {
    &&& 0 <= i < loans.len()
    &&& loans[i].id == id
    &&& forall|j: int| 0 <= j < i ==> #[trigger] loans[j].id != id
}

/// The position of the first loan carrying `id` (meaningful when
/// `has_loan(loans, id)`).
pub open spec fn loan_index(loans: Seq<Loan>, id: u32) -> int {
    choose|i: int| is_first_loan(loans, id, i)
}

/// What a loan owes in total: principal plus flat interest, the interest
/// rounded toward zero.
pub open spec fn total_due(loan: Loan) -> int {
    loan.amount + div_toward_zero(loan.amount * loan.interest_bps, BPS_DENOMINATOR as int)
}

/// Whether computing [`total_due`] in `i128` stays within range.
pub open spec fn total_due_fits(loan: Loan) -> bool {
    &&& i128::MIN <= loan.amount * loan.interest_bps <= i128::MAX
    &&& i128::MIN <= total_due(loan) <= i128::MAX
}

/// The due date of a loan requested at `now` for `days` days.
pub open spec fn due_date(now: u64, days: u32) -> int {
    now + days * SECONDS_PER_DAY
}

/// Which refusal `request_loan` gives, or `None` when it goes through.
pub open spec fn request_refusal(c: LoanContract, amount: i128, now: u64, days: u32) -> Option<
    LoanError,
> {
    if amount <= 0 {
        Some(LoanError::NonPositiveAmount)
    } else if c.counter.unwrap_or(0) == u32::MAX {
        Some(LoanError::Overflow)
    } else if due_date(now, days) > u64::MAX {
        Some(LoanError::Overflow)
    } else {
        None
    }
}

/// Which refusal `approve_loan` gives, or `None` when it goes through.
pub open spec fn approve_refusal(c: LoanContract, caller: AccountId, loan_id: u32) -> Option<
    LoanError,
> {
    if c.admin is None {
        Some(LoanError::NotInitialized)
    } else if !is_admin(c.admin, caller) {
        Some(LoanError::Unauthorized)
    } else if c.loans is None {
        Some(LoanError::NotInitialized)
    } else if !has_loan(loans_of(c), loan_id) {
        Some(LoanError::LoanNotFound)
    } else if loans_of(c)[loan_index(loans_of(c), loan_id)].status != LoanStatus::Pending {
        Some(LoanError::NotPending)
    } else if c.asset is None {
        Some(LoanError::NotInitialized)
    } else {
        None
    }
}

/// Which refusal `repay` gives, or `None` when it goes through.
pub open spec fn repay_refusal(c: LoanContract, borrower: AccountId, loan_id: u32, amount: i128) -> Option<
    LoanError,
> {
    if c.loans is None {
        Some(LoanError::NotInitialized)
    } else if !has_loan(loans_of(c), loan_id) {
        Some(LoanError::LoanNotFound)
    } else {
        let loan = loans_of(c)[loan_index(loans_of(c), loan_id)];
        if loan.borrower@ != borrower@ {
            Some(LoanError::NotBorrower)
        } else if loan.status != LoanStatus::Approved {
            Some(LoanError::NotActive)
        } else if c.asset is None {
            Some(LoanError::NotInitialized)
        } else if !(i128::MIN <= loan.amount_repaid + amount <= i128::MAX) {
            Some(LoanError::Overflow)
        } else if !total_due_fits(loan) {
            Some(LoanError::Overflow)
        } else {
            None
        }
    }
}

/// The status a loan has after `amount` more is repaid on it.
pub open spec fn status_after_repayment(loan: Loan, amount: i128) -> LoanStatus {
    if loan.amount_repaid + amount >= total_due(loan) {
        LoanStatus::Repaid
    } else {
        loan.status
    }
}

/// The contract's standing invariant: loans carry the IDs 1, 2, ... in
/// order and the counter equals their number; every principal is
/// positive; only the statuses Pending, Approved and Repaid occur; a
/// pending loan has nothing repaid; a repaid loan has its total due paid.
pub open spec fn loan_book_wf(c: LoanContract) -> bool {
    let loans = loans_of(c);
    &&& (c.loans is Some <==> c.counter is Some)
    &&& c.counter.unwrap_or(0) == loans.len()
    &&& forall|i: int| 0 <= i < loans.len() ==> #[trigger] loans[i].id == i + 1
    &&& forall|i: int| 0 <= i < loans.len() ==> loan_wf(#[trigger] loans[i])
}

/// The per-loan part of [`loan_book_wf`].
pub open spec fn loan_wf(loan: Loan) -> bool {
    &&& loan.amount > 0
    &&& loan.interest_bps == DEFAULT_INTEREST_BPS
    &&& (loan.status == LoanStatus::Pending || loan.status == LoanStatus::Approved || loan.status
        == LoanStatus::Repaid)
    &&& loan.status == LoanStatus::Pending ==> loan.amount_repaid == 0
    &&& loan.status == LoanStatus::Repaid ==> loan.amount_repaid >= total_due(loan)
}

/// How far along its lifecycle a status is.
pub open spec fn status_rank(s: LoanStatus) -> int {
    match s {
        LoanStatus::Pending => 0,
        LoanStatus::Approved => 1,
        LoanStatus::Repaid => 2,
        LoanStatus::Rejected => 2,
        LoanStatus::Defaulted => 2,
    }
}

/// `after` keeps every loan of `before` at its place, with the same ID,
/// borrower, principal and rate, and with a status no earlier in the
/// lifecycle.
pub open spec fn loans_advance(before: Seq<Loan>, after: Seq<Loan>) -> bool {
    &&& before.len() <= after.len()
    &&& forall|i: int|
        0 <= i < before.len() ==> {
            &&& (#[trigger] after[i]).id == before[i].id
            &&& after[i].borrower == before[i].borrower
            &&& after[i].amount == before[i].amount
            &&& after[i].interest_bps == before[i].interest_bps
            &&& status_rank(after[i].status) >= status_rank(before[i].status)
        }
}

proof fn lemma_first_loan_unique(loans: Seq<Loan>, id: u32, i: int)
    requires
        is_first_loan(loans, id, i),
    ensures
        has_loan(loans, id),
        loan_index(loans, id) == i,
{
    assert(loans[i].id == id);
    let k = loan_index(loans, id);
    assert(is_first_loan(loans, id, k));
    if k < i {
        assert(loans[k].id != id);
    }
    if i < k {
        assert(loans[i].id != id);
    }
}

/// In a well-formed book, the loan with ID `id` is the one at position
/// `id - 1`, and there is one exactly when `1 <= id <= number of loans`.
pub proof fn lemma_loan_at_its_id(c: LoanContract, id: u32)
    requires
        loan_book_wf(c),
    ensures
        has_loan(loans_of(c), id) <==> 1 <= id <= loans_of(c).len(),
        has_loan(loans_of(c), id) ==> loan_index(loans_of(c), id) == id - 1,
{
    let loans = loans_of(c);
    if 1 <= id <= loans.len() {
        assert(loans[id - 1].id == id);
        assert forall|j: int| 0 <= j < id - 1 implies #[trigger] loans[j].id != id by {
            assert(loans[j].id == j + 1);
        }
        lemma_first_loan_unique(loans, id, id - 1);
    } else {
        assert forall|j: int| 0 <= j < loans.len() implies #[trigger] loans[j].id != id by {
            assert(loans[j].id == j + 1);
        }
    }
}


/// A requested loan can be looked up right away: in a well-formed book,
/// after the new loan with the next ID is appended, looking up that ID
/// finds exactly the new loan.
pub proof fn lemma_requested_loan_is_found(before: LoanContract, after: LoanContract, loan: Loan)
    requires
        loan_book_wf(before),
        loan.id == loans_of(before).len() + 1,
        loans_of(after) == loans_of(before).push(loan),
    ensures
        has_loan(loans_of(after), loan.id),
        loans_of(after)[loan_index(loans_of(after), loan.id)] == loan,
{
    let old_loans = loans_of(before);
    let new_loans = loans_of(after);
    let i = old_loans.len() as int;
    assert forall|j: int| 0 <= j < i implies #[trigger] new_loans[j].id != loan.id by {
        assert(new_loans[j] == old_loans[j]);
        assert(old_loans[j].id == j + 1);
    }
    lemma_first_loan_unique(new_loans, loan.id, i);
}

/// A loan is disbursed at most once: once the loan with a given ID has
/// left Pending, every further approval of it is refused.
pub proof fn lemma_no_second_approval(c: LoanContract, admin: AccountId, loan_id: u32)
    requires
        has_loan(loans_of(c), loan_id),
        loans_of(c)[loan_index(loans_of(c), loan_id)].status != LoanStatus::Pending,
    ensures
        approve_refusal(c, admin, loan_id) is Some,
{
}

/// Repayments go only to approved loans: a loan that is not Approved
/// (pending, already repaid, ...) refuses every repayment.
pub proof fn lemma_repay_needs_approval(c: LoanContract, borrower: AccountId, loan_id: u32, amount: i128)
    requires
        has_loan(loans_of(c), loan_id),
        loans_of(c)[loan_index(loans_of(c), loan_id)].status != LoanStatus::Approved,
    ensures
        repay_refusal(c, borrower, loan_id, amount) is Some,
{
}



/// Whenever some loan carries `id`, a first one does, and `loan_index`
/// is its position.
pub proof fn lemma_loan_index_is_first(loans: Seq<Loan>, id: u32)
    requires
        has_loan(loans, id),
    ensures
        is_first_loan(loans, id, loan_index(loans, id)),
    decreases loans.len(),
{
    let init = loans.drop_last();
    if has_loan(init, id) {
        lemma_loan_index_is_first(init, id);
        let j = loan_index(init, id);
        assert(init[j] == loans[j]);
        assert forall|i: int| 0 <= i < j implies #[trigger] loans[i].id != id by {
            assert(init[i] == loans[i]);
        }
        lemma_first_loan_unique(loans, id, j);
    } else {
        let n = loans.len() - 1;
        let w = choose|i: int| 0 <= i < loans.len() && #[trigger] loans[i].id == id;
        if w < n {
            assert(init[w] == loans[w]);
        }
        assert forall|i: int| 0 <= i < n implies #[trigger] loans[i].id != id by {
            assert(init[i] == loans[i]);
        }
        lemma_first_loan_unique(loans, id, n);
    }
}

/// The loan book after the loan at `idx` is approved at time `now`.
pub open spec fn approved_book(loans: Seq<Loan>, idx: int, now: u64) -> Seq<Loan> {
    loans.update(idx, Loan { status: LoanStatus::Approved, approved_at: now, ..loans[idx] })
}

/// The loan book after `amount` is repaid on the loan at `idx`.
pub open spec fn repaid_book(loans: Seq<Loan>, idx: int, amount: i128) -> Seq<Loan> {
    let loan = loans[idx];
    loans.update(
        idx,
        Loan {
            amount_repaid: (loan.amount_repaid + amount) as i128,
            status: status_after_repayment(loan, amount),
            ..loan
        },
    )
}

/// Every loan of `after` has the status it has in `before`, except loans
/// that went from `from` to `to`.
pub open spec fn status_moves(before: Seq<Loan>, after: Seq<Loan>, from: LoanStatus, to: LoanStatus) -> bool {
    &&& after.len() == before.len()
    &&& forall|i: int|
        0 <= i < before.len() ==> (#[trigger] after[i]).status == before[i].status || (before[i].status
            == from && after[i].status == to)
}

/// The loan lifecycle: an approval moves one loan from Pending to
/// Approved and changes no other status; a repayment moves at most one
/// loan from Approved to Repaid and changes no other status; Repaid is
/// final, since every later approval or repayment of that loan is
/// refused.
pub proof fn lemma_status_transitions(c: LoanContract, loan_id: u32, now: u64, amount: i128, caller: AccountId)
    requires
        has_loan(loans_of(c), loan_id),
    ensures
        ({
            let loans = loans_of(c);
            let idx = loan_index(loans, loan_id);
            &&& loans[idx].status == LoanStatus::Pending ==> status_moves(
                loans,
                approved_book(loans, idx, now),
                LoanStatus::Pending,
                LoanStatus::Approved,
            )
            &&& loans[idx].status == LoanStatus::Approved ==> status_moves(
                loans,
                repaid_book(loans, idx, amount),
                LoanStatus::Approved,
                LoanStatus::Repaid,
            )
            &&& loans[idx].status == LoanStatus::Repaid ==> approve_refusal(c, caller, loan_id) is Some
                && repay_refusal(c, caller, loan_id, amount) is Some
        }),
{
    let loans = loans_of(c);
    let idx = loan_index(loans, loan_id);
    lemma_loan_index_is_first(loans, loan_id);
}


/// The storage effect of `initialize(admin, treasury, asset)`.
pub open spec fn initialize_step(
    before: LoanContract,
    after: LoanContract,
    admin: AccountId,
    treasury: AccountId,
    asset: AccountId,
) -> bool {
    if before.admin is Some {
        after == before
    } else {
        &&& after.admin == Some(admin)
        &&& after.treasury == Some(treasury)
        &&& after.asset == Some(asset)
        &&& after.counter == Some(0u32)
        &&& after.loans matches Some(v) && v@.len() == 0
    }
}

/// The storage effect of `request_loan(borrower, amount, purpose, days)`
/// at time `now`.
pub open spec fn request_step(
    before: LoanContract,
    after: LoanContract,
    borrower: AccountId,
    amount: i128,
    purpose: String,
    days: u32,
    now: u64,
) -> bool {
    if request_refusal(before, amount, now, days) is Some {
        after == before
    } else {
        let id = (before.counter.unwrap_or(0) + 1) as u32;
        &&& after.counter == Some(id)
        &&& after.loans is Some
        &&& loans_of(after) == loans_of(before).push(
            Loan {
                id,
                borrower,
                amount,
                interest_bps: DEFAULT_INTEREST_BPS,
                repayment_due: due_date(now, days) as u64,
                amount_repaid: 0,
                status: LoanStatus::Pending,
                purpose,
                requested_at: now,
                approved_at: 0,
            },
        )
        &&& after.admin == before.admin
        &&& after.treasury == before.treasury
        &&& after.asset == before.asset
    }
}

/// The storage effect of `approve_loan(admin, loan_id)` at time `now`.
pub open spec fn approve_step(before: LoanContract, after: LoanContract, admin: AccountId, loan_id: u32, now: u64) -> bool {
    if approve_refusal(before, admin, loan_id) is Some {
        after == before
    } else {
        &&& after.loans is Some
        &&& loans_of(after) == approved_book(loans_of(before), loan_index(loans_of(before), loan_id), now)
        &&& after.admin == before.admin
        &&& after.treasury == before.treasury
        &&& after.asset == before.asset
        &&& after.counter == before.counter
    }
}

/// The storage effect of `repay(borrower, loan_id, amount)`.
pub open spec fn repay_step(before: LoanContract, after: LoanContract, borrower: AccountId, loan_id: u32, amount: i128) -> bool {
    if repay_refusal(before, borrower, loan_id, amount) is Some {
        after == before
    } else {
        &&& after.loans is Some
        &&& loans_of(after) == repaid_book(loans_of(before), loan_index(loans_of(before), loan_id), amount)
        &&& after.admin == before.admin
        &&& after.treasury == before.treasury
        &&& after.asset == before.asset
        &&& after.counter == before.counter
    }
}

/// `after` is what storage holds after one call of the contract on
/// `before` (the read-only calls leave it as it was).
pub open spec fn loan_step(before: LoanContract, after: LoanContract) -> bool {
    ||| after == before
    ||| exists|admin: AccountId, treasury: AccountId, asset: AccountId|
        #[trigger] initialize_step(before, after, admin, treasury, asset)
    ||| exists|borrower: AccountId, amount: i128, purpose: String, days: u32, now: u64|
        #[trigger] request_step(before, after, borrower, amount, purpose, days, now)
    ||| exists|admin: AccountId, loan_id: u32, now: u64| #[trigger] approve_step(before, after, admin, loan_id, now)
    ||| exists|borrower: AccountId, loan_id: u32, amount: i128|
        #[trigger] repay_step(before, after, borrower, loan_id, amount)
}

/// Storage of a contract that was never called.
pub open spec fn loan_book_fresh(c: LoanContract) -> bool {
    &&& c.admin is None
    &&& c.treasury is None
    &&& c.asset is None
    &&& c.loans is None
    &&& c.counter is None
}

proof fn lemma_loan_step_keeps_wf(before: LoanContract, after: LoanContract)
    requires
        loan_book_wf(before),
        loan_step(before, after),
    ensures
        loan_book_wf(after),
{
    if after == before {
    } else if exists|admin: AccountId, treasury: AccountId, asset: AccountId|
        #[trigger] initialize_step(before, after, admin, treasury, asset) {
    } else if exists|borrower: AccountId, amount: i128, purpose: String, days: u32, now: u64|
        #[trigger] request_step(before, after, borrower, amount, purpose, days, now) {
    } else if exists|admin: AccountId, loan_id: u32, now: u64| #[trigger] approve_step(before, after, admin, loan_id, now) {
        let (admin, loan_id, now) = choose|admin: AccountId, loan_id: u32, now: u64|
            #[trigger] approve_step(before, after, admin, loan_id, now);
        if approve_refusal(before, admin, loan_id) is None {
            lemma_loan_index_is_first(loans_of(before), loan_id);
        }
    } else {
        let (borrower, loan_id, amount) = choose|borrower: AccountId, loan_id: u32, amount: i128|
            #[trigger] repay_step(before, after, borrower, loan_id, amount);
        if repay_refusal(before, borrower, loan_id, amount) is None {
            lemma_loan_index_is_first(loans_of(before), loan_id);
        }
    }
}


/// One call changes loan statuses only along the lifecycle: a loan kept
/// at its place either keeps its status, or goes from Pending to Approved
/// (by an approval) or from Approved to Repaid (by a repayment); loans
/// added by the call start Pending.
pub proof fn lemma_loan_step_status(before: LoanContract, after: LoanContract)
    requires
        loan_step(before, after),
    ensures
        forall|i: int|
            0 <= i < loans_of(before).len() && i < loans_of(after).len() ==> {
                ||| (#[trigger] loans_of(after)[i]).status == loans_of(before)[i].status
                ||| loans_of(before)[i].status == LoanStatus::Pending && loans_of(after)[i].status
                    == LoanStatus::Approved
                ||| loans_of(before)[i].status == LoanStatus::Approved && loans_of(after)[i].status
                    == LoanStatus::Repaid
            },
        forall|i: int|
            loans_of(before).len() <= i < loans_of(after).len() ==> (#[trigger] loans_of(after)[i]).status
                == LoanStatus::Pending,
{
    if after == before {
    } else if exists|admin: AccountId, treasury: AccountId, asset: AccountId|
        #[trigger] initialize_step(before, after, admin, treasury, asset) {
    } else if exists|borrower: AccountId, amount: i128, purpose: String, days: u32, now: u64|
        #[trigger] request_step(before, after, borrower, amount, purpose, days, now) {
    } else if exists|admin: AccountId, loan_id: u32, now: u64| #[trigger] approve_step(before, after, admin, loan_id, now) {
        let (admin, loan_id, now) = choose|admin: AccountId, loan_id: u32, now: u64|
            #[trigger] approve_step(before, after, admin, loan_id, now);
        if approve_refusal(before, admin, loan_id) is None {
            lemma_loan_index_is_first(loans_of(before), loan_id);
        }
    } else {
        let (borrower, loan_id, amount) = choose|borrower: AccountId, loan_id: u32, amount: i128|
            #[trigger] repay_step(before, after, borrower, loan_id, amount);
        if repay_refusal(before, borrower, loan_id, amount) is None {
            lemma_loan_index_is_first(loans_of(before), loan_id);
        }
    }
}


/// A requested loan starts as the contract promises: when `request_loan`
/// goes through, the book gains exactly one loan, at the end, with the
/// next ID, the requested principal, 5% interest, due `now +
/// repayment_days * 86_400`, nothing repaid, status Pending, and
/// requested at `now`. It goes through exactly when the amount is
/// positive, the counter is below `u32::MAX` and that due date fits in
/// `u64`.
pub proof fn lemma_request_loan_law(
    before: LoanContract,
    after: LoanContract,
    borrower: AccountId,
    amount: i128,
    purpose: String,
    days: u32,
    now: u64,
)
    requires
        request_step(before, after, borrower, amount, purpose, days, now),
    ensures
        request_refusal(before, amount, now, days) is None <==> (amount > 0 && before.counter.unwrap_or(0)
            < u32::MAX && now + days * 86_400 <= u64::MAX),
        request_refusal(before, amount, now, days) is None ==> {
            let ls = loans_of(before);
            let nls = loans_of(after);
            let l = nls[nls.len() - 1];
            &&& nls.len() == ls.len() + 1
            &&& forall|i: int| 0 <= i < ls.len() ==> #[trigger] nls[i] == ls[i]
            &&& l.id == before.counter.unwrap_or(0) + 1
            &&& l.borrower == borrower
            &&& l.amount == amount
            &&& l.interest_bps == 500
            &&& l.repayment_due == now + days * 86_400
            &&& l.amount_repaid == 0
            &&& l.status == LoanStatus::Pending
            &&& l.requested_at == now
            &&& l.approved_at == 0
        },
{
    if request_refusal(before, amount, now, days) is None {
        let nls = loans_of(after);
        assert(nls[nls.len() - 1] == nls.last());
    }
}

/// Only the admin approves, and only pending loans: `approve_loan` goes
/// through exactly when an admin is stored and is the caller, the loan
/// exists and is Pending, and the asset is stored; then that loan becomes
/// Approved at `now`, with everything else about it and every other loan
/// unchanged.
pub proof fn lemma_approve_loan_law(before: LoanContract, after: LoanContract, caller: AccountId, loan_id: u32, now: u64)
    requires
        approve_step(before, after, caller, loan_id, now),
    ensures
        approve_refusal(before, caller, loan_id) is None <==> ({
            &&& before.admin matches Some(a) && a@ == caller@
            &&& before.loans is Some
            &&& has_loan(loans_of(before), loan_id)
            &&& loans_of(before)[loan_index(loans_of(before), loan_id)].status == LoanStatus::Pending
            &&& before.asset is Some
        }),
        approve_refusal(before, caller, loan_id) is None ==> {
            let ls = loans_of(before);
            let nls = loans_of(after);
            let idx = loan_index(ls, loan_id);
            &&& nls.len() == ls.len()
            &&& forall|i: int| 0 <= i < ls.len() && i != idx ==> #[trigger] nls[i] == ls[i]
            &&& nls[idx].id == loan_id
            &&& nls[idx].status == LoanStatus::Approved
            &&& nls[idx].approved_at == now
            &&& nls[idx].borrower == ls[idx].borrower
            &&& nls[idx].amount == ls[idx].amount
            &&& nls[idx].amount_repaid == ls[idx].amount_repaid
        },
{
    if has_loan(loans_of(before), loan_id) {
        lemma_loan_index_is_first(loans_of(before), loan_id);
    }
}

/// A repayment settles the loan once principal plus interest is paid:
/// when `repay` goes through on a loan with a positive principal, the
/// payment is added to `amount_repaid`, and the loan becomes Repaid
/// exactly when the new `amount_repaid` reaches `amount + amount *
/// interest_bps / 10_000` (the interest rounded down); otherwise it stays
/// Approved. No other loan changes. It goes through exactly when the loan
/// exists, the caller is its borrower, it is Approved, the asset is
/// stored, and the sums stay within `i128`.
pub proof fn lemma_repay_law(before: LoanContract, after: LoanContract, borrower: AccountId, loan_id: u32, amount: i128)
    requires
        repay_step(before, after, borrower, loan_id, amount),
        before.loans is Some,
        has_loan(loans_of(before), loan_id),
        loans_of(before)[loan_index(loans_of(before), loan_id)].amount > 0,
    ensures
        ({
            let ls = loans_of(before);
            let idx = loan_index(ls, loan_id);
            let l = ls[idx];
            let due = l.amount + (l.amount * l.interest_bps) / 10_000;
            &&& repay_refusal(before, borrower, loan_id, amount) is None <==> {
                &&& l.borrower@ == borrower@
                &&& l.status == LoanStatus::Approved
                &&& before.asset is Some
                &&& i128::MIN <= l.amount_repaid + amount <= i128::MAX
                &&& l.amount * l.interest_bps <= i128::MAX
                &&& due <= i128::MAX
            }
            &&& repay_refusal(before, borrower, loan_id, amount) is None ==> {
                let nls = loans_of(after);
                &&& nls.len() == ls.len()
                &&& forall|i: int| 0 <= i < ls.len() && i != idx ==> #[trigger] nls[i] == ls[i]
                &&& nls[idx].id == loan_id
                &&& nls[idx].amount_repaid == l.amount_repaid + amount
                &&& (nls[idx].status == LoanStatus::Repaid <==> l.amount_repaid + amount >= due)
                &&& (nls[idx].status == LoanStatus::Repaid || nls[idx].status == LoanStatus::Approved)
                &&& nls[idx].amount == l.amount
                &&& nls[idx].borrower == l.borrower
            }
        }),
{
    let ls = loans_of(before);
    lemma_loan_index_is_first(ls, loan_id);
    let l = ls[loan_index(ls, loan_id)];
    assert(l.amount * l.interest_bps >= 0) by (nonlinear_arith)
        requires
            l.amount > 0,
            l.interest_bps >= 0,
    ;
}

/// Whatever sequence of calls a contract goes through from its first
/// call on, its loans carry the IDs 1, 2, ... in order, the counter
/// equals their number (so successive requests get the IDs 1, 2, 3, ...,
/// each ID used once), and every loan keeps the lifecycle invariants of
/// [`loan_wf`].
pub proof fn lemma_loan_book_always_wf(trace: Seq<LoanContract>)
    requires
        trace.len() > 0,
        loan_book_fresh(trace[0]),
        forall|j: int| 0 <= j < trace.len() - 1 ==> loan_step(#[trigger] trace[j], trace[j + 1]),
    ensures
        forall|j: int| 0 <= j < trace.len() ==> loan_book_wf(#[trigger] trace[j]),
    decreases trace.len(),
{
    if trace.len() > 1 {
        let init = trace.drop_last();
        assert forall|j: int| 0 <= j < init.len() - 1 implies loan_step(#[trigger] init[j], init[j + 1]) by {
            assert(loan_step(trace[j], trace[j + 1]));
        }
        lemma_loan_book_always_wf(init);
        let n = trace.len() - 1;
        assert(loan_book_wf(init[n - 1]));
        assert(loan_step(trace[n - 1], trace[n]));
        lemma_loan_step_keeps_wf(trace[n - 1], trace[n]);
        assert forall|j: int| 0 <= j < trace.len() implies loan_book_wf(#[trigger] trace[j]) by {
            if j < n {
                assert(init[j] == trace[j]);
            }
        }
    }
}

fn find_loan_idx(loans: &Vec<Loan>, id: u32) -> (r: Option<usize>)
    ensures
        match r {
            Some(i) => is_first_loan(loans@, id, i as int) && has_loan(loans@, id) && loan_index(
                loans@,
                id,
            ) == i,
            None => !has_loan(loans@, id),
        },
{
    let mut i: usize = 0;
    while i < loans.len()
        invariant
            i <= loans.len(),
            forall|j: int| 0 <= j < i ==> #[trigger] loans@[j].id != id,
        decreases loans.len() - i,
    {
        if loans[i].id == id {
            proof {
                lemma_first_loan_unique(loans@, id, i as int);
            }
            return Some(i);
        }
        i = i + 1;
    }
    None
}

fn checked_total_due(amount: i128, interest_bps: u32) -> (r: Option<i128>)
    ensures
        ({
            let probe = Loan {
                id: 0,
                borrower: arbitrary(),
                amount,
                interest_bps,
                repayment_due: 0,
                amount_repaid: 0,
                status: LoanStatus::Pending,
                purpose: arbitrary(),
                requested_at: 0,
                approved_at: 0,
            };
            &&& r matches Some(t) ==> total_due_fits(probe) && t == total_due(probe)
            &&& r is None ==> !total_due_fits(probe)
        }),
{
    let rate: i128 = interest_bps as i128;
    match amount.checked_mul(rate) {
        None => None,
        Some(product) => match product.checked_div(BPS_DENOMINATOR) {
            None => None,
            Some(interest) => amount.checked_add(interest),
        },
    }
}

impl LoanContract {
    /// A contract whose storage is empty.
    pub fn new() -> (r: LoanContract)
        ensures
            r.admin is None,
            r.treasury is None,
            r.asset is None,
            r.loans is None,
            r.counter is None,
            loan_book_wf(r),
    {
        LoanContract { admin: None, treasury: None, asset: None, loans: None, counter: None }
    }

    /// Sets the admin, treasury and asset and starts an empty loan book.
    /// Refused once an admin is stored.
    pub fn initialize(&mut self, admin: AccountId, treasury: AccountId, asset: AccountId) -> (r:
        Result<(), LoanError>)
        ensures
            old(self).admin is Some <==> r == Err::<(), LoanError>(LoanError::AlreadyInitialized),
            old(self).admin is None ==> r is Ok,
            r is Err ==> *final(self) == *old(self),
            r is Ok ==> {
                &&& final(self).admin == Some(admin)
                &&& final(self).treasury == Some(treasury)
                &&& final(self).asset == Some(asset)
                &&& final(self).counter == Some(0u32)
                &&& final(self).loans matches Some(v) && v@.len() == 0
            },
            r is Ok ==> loan_book_wf(*final(self)),
            loan_book_wf(*old(self)) ==> loan_book_wf(*final(self)),
            initialize_step(*old(self), *final(self), admin, treasury, asset),
    {
        if self.admin.is_some() {
            return Err(LoanError::AlreadyInitialized);
        }
        self.admin = Some(admin);
        self.treasury = Some(treasury);
        self.asset = Some(asset);
        self.counter = Some(0);
        self.loans = Some(Vec::new());
        Ok(())
    }

    /// A member asks for `amount`, to be repaid within `repayment_days`
    /// days of `now`. The loan gets the next ID, the default rate and
    /// status Pending; its ID is returned.
    pub fn request_loan(
        &mut self,
        borrower: AccountId,
        amount: i128,
        purpose: String,
        repayment_days: u32,
        now: u64,
    ) -> (r: Result<u32, LoanError>)
        ensures
            ({
                let refusal = request_refusal(*old(self), amount, now, repayment_days);
                match r {
                    Err(e) => refusal == Some(e) && *final(self) == *old(self),
                    Ok(id) => {
                        &&& refusal is None
                        &&& id == old(self).counter.unwrap_or(0) + 1
                        &&& final(self).counter == Some(id)
                        &&& final(self).loans is Some
                        &&& loans_of(*final(self)) == loans_of(*old(self)).push(
                            Loan {
                                id,
                                borrower,
                                amount,
                                interest_bps: DEFAULT_INTEREST_BPS,
                                repayment_due: due_date(now, repayment_days) as u64,
                                amount_repaid: 0,
                                status: LoanStatus::Pending,
                                purpose,
                                requested_at: now,
                                approved_at: 0,
                            },
                        )
                        &&& final(self).admin == old(self).admin
                        &&& final(self).treasury == old(self).treasury
                        &&& final(self).asset == old(self).asset
                    },
                }
            }),
            loan_book_wf(*old(self)) ==> loan_book_wf(*final(self)),
            loans_advance(loans_of(*old(self)), loans_of(*final(self))),
            request_step(*old(self), *final(self), borrower, amount, purpose, repayment_days, now),
    {
        if amount <= 0 {
            return Err(LoanError::NonPositiveAmount);
        }
        let counter: u32 = match self.counter {
            Some(c) => c,
            None => 0,
        };
        if counter == u32::MAX {
            return Err(LoanError::Overflow);
        }
        let id = counter + 1;
        let term: u64 = repayment_days as u64 * SECONDS_PER_DAY;
        let due = match now.checked_add(term) {
            None => return Err(LoanError::Overflow),
            Some(d) => d,
        };
        let loan = Loan {
            id,
            borrower,
            amount,
            interest_bps: DEFAULT_INTEREST_BPS,
            repayment_due: due,
            amount_repaid: 0,
            status: LoanStatus::Pending,
            purpose,
            requested_at: now,
            approved_at: 0,
        };
        let mut loans = match self.loans.take() {
            Some(v) => v,
            None => Vec::new(),
        };
        loans.push(loan);
        self.loans = Some(loans);
        self.counter = Some(id);
        Ok(id)
    }

    fn require_admin(&self, caller: &AccountId) -> (r: Result<(), LoanError>)
        ensures
            r == (if self.admin is None {
                Err(LoanError::NotInitialized)
            } else if !is_admin(self.admin, *caller) {
                Err(LoanError::Unauthorized)
            } else {
                Ok(())
            }),
    {
        match &self.admin {
            None => Err(LoanError::NotInitialized),
            Some(a) => if a.same_as(caller) {
                Ok(())
            } else {
                Err(LoanError::Unauthorized)
            },
        }
    }

    /// The admin approves a pending loan at time `now`: it becomes
    /// Approved with `approved_at = now`, and the principal is to be
    /// transferred from the contract to the borrower.
    pub fn approve_loan(&mut self, admin: &AccountId, loan_id: u32, now: u64) -> (r: Result<
        TokenTransfer,
        LoanError,
    >)
        ensures
            ({
                let refusal = approve_refusal(*old(self), *admin, loan_id);
                let before = loans_of(*old(self));
                let idx = loan_index(before, loan_id);
                match r {
                    Err(e) => refusal == Some(e) && *final(self) == *old(self),
                    Ok(transfer) => {
                        &&& refusal is None
                        &&& final(self).loans is Some
                        &&& loans_of(*final(self)) == approved_book(before, idx, now)
                        &&& transfer == TokenTransfer {
                            asset: old(self).asset.unwrap(),
                            from: Party::CurrentContract,
                            to: Party::Account(before[idx].borrower),
                            amount: before[idx].amount,
                        }
                        &&& final(self).admin == old(self).admin
                        &&& final(self).treasury == old(self).treasury
                        &&& final(self).asset == old(self).asset
                        &&& final(self).counter == old(self).counter
                    },
                }
            }),
            loan_book_wf(*old(self)) ==> loan_book_wf(*final(self)),
            loans_advance(loans_of(*old(self)), loans_of(*final(self))),
            approve_step(*old(self), *final(self), *admin, loan_id, now),
    {
        match self.require_admin(admin) {
            Err(e) => return Err(e),
            Ok(()) => {},
        }
        let (idx, asset) = match &self.loans {
            None => return Err(LoanError::NotInitialized),
            Some(loans) => {
                let idx = match find_loan_idx(loans, loan_id) {
                    None => return Err(LoanError::LoanNotFound),
                    Some(i) => i,
                };
                if loans[idx].status != LoanStatus::Pending {
                    return Err(LoanError::NotPending);
                }
                let asset = match &self.asset {
                    None => return Err(LoanError::NotInitialized),
                    Some(a) => a.clone(),
                };
                (idx, asset)
            },
        };
        let mut loans = self.loans.take().unwrap();
        let mut loan = loans[idx].clone();
        loan.status = LoanStatus::Approved;
        loan.approved_at = now;
        let transfer = TokenTransfer {
            asset,
            from: Party::CurrentContract,
            to: Party::Account(loan.borrower.clone()),
            amount: loan.amount,
        };
        loans.set(idx, loan);
        self.loans = Some(loans);
        Ok(transfer)
    }

    /// The borrower pays `amount` towards an approved loan: the amount is
    /// to be transferred from the borrower to the contract, it is added to
    /// `amount_repaid`, and once that reaches the total due the loan
    /// becomes Repaid. Returns the transfer and the loan's new status.
    pub fn repay(&mut self, borrower: &AccountId, loan_id: u32, amount: i128) -> (r: Result<
        (TokenTransfer, LoanStatus),
        LoanError,
    >)
        ensures
            ({
                let refusal = repay_refusal(*old(self), *borrower, loan_id, amount);
                let before = loans_of(*old(self));
                let idx = loan_index(before, loan_id);
                let loan = before[idx];
                match r {
                    Err(e) => refusal == Some(e) && *final(self) == *old(self),
                    Ok((transfer, status)) => {
                        &&& refusal is None
                        &&& status == status_after_repayment(loan, amount)
                        &&& final(self).loans is Some
                        &&& loans_of(*final(self)) == repaid_book(before, idx, amount)
                        &&& transfer == TokenTransfer {
                            asset: old(self).asset.unwrap(),
                            from: Party::Account(*borrower),
                            to: Party::CurrentContract,
                            amount,
                        }
                        &&& final(self).admin == old(self).admin
                        &&& final(self).treasury == old(self).treasury
                        &&& final(self).asset == old(self).asset
                        &&& final(self).counter == old(self).counter
                    },
                }
            }),
            loan_book_wf(*old(self)) ==> loan_book_wf(*final(self)),
            loans_advance(loans_of(*old(self)), loans_of(*final(self))),
            repay_step(*old(self), *final(self), *borrower, loan_id, amount),
    {
        let (idx, asset, repaid, due) = match &self.loans {
            None => return Err(LoanError::NotInitialized),
            Some(loans) => {
                let idx = match find_loan_idx(loans, loan_id) {
                    None => return Err(LoanError::LoanNotFound),
                    Some(i) => i,
                };
                let loan = &loans[idx];
                if !loan.borrower.same_as(borrower) {
                    return Err(LoanError::NotBorrower);
                }
                if loan.status != LoanStatus::Approved {
                    return Err(LoanError::NotActive);
                }
                let asset = match &self.asset {
                    None => return Err(LoanError::NotInitialized),
                    Some(a) => a.clone(),
                };
                let repaid = match loan.amount_repaid.checked_add(amount) {
                    None => return Err(LoanError::Overflow),
                    Some(v) => v,
                };
                let due = match checked_total_due(loan.amount, loan.interest_bps) {
                    None => return Err(LoanError::Overflow),
                    Some(v) => v,
                };
                (idx, asset, repaid, due)
            },
        };
        let mut loans = self.loans.take().unwrap();
        let mut loan = loans[idx].clone();
        loan.amount_repaid = repaid;
        if repaid >= due {
            loan.status = LoanStatus::Repaid;
        }
        let status = loan.status;
        loans.set(idx, loan);
        self.loans = Some(loans);
        let transfer = TokenTransfer { asset, from: Party::Account(borrower.clone()), to: Party::CurrentContract, amount };
        Ok((transfer, status))
    }

    /// All loans, oldest first; empty if none were ever stored.
    pub fn get_loans(&self) -> (r: &[Loan])
        ensures
            r@ == loans_of(*self),
    {
        match &self.loans {
            Some(v) => v.as_slice(),
            None => &[],
        }
    }

    /// The loan with ID `loan_id`.
    pub fn get_loan(&self, loan_id: u32) -> (r: Result<Loan, LoanError>)
        ensures
            self.loans is None ==> r == Err::<Loan, LoanError>(LoanError::NotInitialized),
            self.loans is Some && !has_loan(loans_of(*self), loan_id) ==> r == Err::<
                Loan,
                LoanError,
            >(LoanError::LoanNotFound),
            self.loans is Some && has_loan(loans_of(*self), loan_id) ==> r == Ok::<Loan, LoanError>(
                loans_of(*self)[loan_index(loans_of(*self), loan_id)],
            ),
    {
        match &self.loans {
            None => Err(LoanError::NotInitialized),
            Some(loans) => match find_loan_idx(loans, loan_id) {
                None => Err(LoanError::LoanNotFound),
                Some(i) => Ok(loans[i].clone()),
            },
        }
    }
}

} // verus!
