//! Treasury ledger: members' contributions are recorded one by one under
//! increasing IDs, and the running totals are kept in the contract state.

use vstd::prelude::*;
use std::collections::HashMap;
use crate::account::AccountId;

verus! {

broadcast use vstd::std_specs::hash::group_hash_axioms;

/// Why a treasury call is refused.
#[derive(Clone, Copy, Debug, PartialEq, Eq, Structural)]
pub enum TreasuryError {
    AlreadyInitialized,
    NotInitialized,
    Unauthorized,
    InsufficientFunds,
    InvalidAmount,
    NotFound,
}

/// One recorded contribution.
pub struct Contribution {
    pub contributor: AccountId,
    pub amount: i128,
    pub timestamp: u64,
}

impl Clone for Contribution {
    fn clone(&self) -> (r: Contribution)
        ensures
            r == *self,
    {
        Contribution { contributor: self.contributor.clone(), amount: self.amount, timestamp: self.timestamp }
    }
}

/// The contract-wide state.
pub struct State {
    pub admin: AccountId,
    pub total_contributions: i128,
    pub contribution_count: u64,
}

impl Clone for State {
    fn clone(&self) -> (r: State)
        ensures
            r == *self,
    {
        State {
            admin: self.admin.clone(),
            total_contributions: self.total_contributions,
            contribution_count: self.contribution_count,
        }
    }
}

/// Storage keys of the treasury contract.
pub enum DataKey {
    /// The contract-wide [`State`] (instance storage).
    State,
    /// The contribution with a given ID (persistent storage).
    Contributions(u64),
    /// Number of contributions.
    ContributionCount,
}

/// The treasury contract's storage: the state, `None` until initialized,
/// and the persistent contributions that were written, by ID.
pub struct TreasuryContract {
    pub state: Option<State>,
    pub contributions: HashMap<u64, Contribution>,
}

/// The sum of the amounts recorded under IDs `1..=n`.
pub open spec fn recorded_total(m: Map<u64, Contribution>, n: nat) -> int
    decreases n,
{
    if n == 0 {
        0
    } else {
        recorded_total(m, (n - 1) as nat) + m[n as u64].amount
    }
}

/// The contract's standing invariant: before initialization nothing is
/// recorded; afterwards the contributions are recorded under exactly the
/// IDs `1..=contribution_count`, each with a positive amount, and
/// `total_contributions` is the sum of their amounts.
pub open spec fn treasury_wf(c: TreasuryContract) -> bool {
    match c.state {
        None => c.contributions@.dom().is_empty(),
        Some(s) => {
            &&& forall|k: u64| #[trigger] c.contributions@.contains_key(k) <==> 1 <= k <= s.contribution_count
            &&& forall|k: u64| #[trigger] c.contributions@.contains_key(k) ==> c.contributions@[k].amount > 0
            &&& s.total_contributions == recorded_total(c.contributions@, s.contribution_count as nat)
        },
    }
}

proof fn lemma_recorded_total_frame(m: Map<u64, Contribution>, k: u64, v: Contribution, n: nat)
    requires
        n < k,
    ensures
        recorded_total(m.insert(k, v), n) == recorded_total(m, n),
    decreases n,
{
    if n > 0 {
        lemma_recorded_total_frame(m, k, v, (n - 1) as nat);
    }
}

proof fn lemma_recorded_total_nonneg(m: Map<u64, Contribution>, n: nat)
    requires
        forall|k: u64| 1 <= k <= n ==> #[trigger] m[k].amount > 0,
        n <= u64::MAX,
    ensures
        recorded_total(m, n) >= 0,
    decreases n,
{
    if n > 0 {
        lemma_recorded_total_nonneg(m, (n - 1) as nat);
        assert(m[n as u64].amount > 0);
    }
}

/// The recorded total never goes negative: in a well-formed treasury the
/// total of all contributions is at least zero, and at least as large as
/// any single recorded contribution.
pub proof fn lemma_total_covers_each_contribution(c: TreasuryContract, id: u64)
    requires
        treasury_wf(c),
        c.state is Some,
        c.contributions@.contains_key(id),
    ensures
        c.state.unwrap().total_contributions >= c.contributions@[id].amount > 0,
{
    let s = c.state.unwrap();
    let m = c.contributions@;
    assert forall|k: u64| 1 <= k <= s.contribution_count implies #[trigger] m[k].amount > 0 by {
        assert(m.contains_key(k));
    }
    lemma_total_ge_member(m, s.contribution_count as nat, id);
}

proof fn lemma_total_ge_member(m: Map<u64, Contribution>, n: nat, id: u64)
    requires
        forall|k: u64| 1 <= k <= n ==> #[trigger] m[k].amount > 0,
        n <= u64::MAX,
        1 <= id <= n,
    ensures
        recorded_total(m, n) >= m[id].amount,
    decreases n,
{
    lemma_recorded_total_nonneg(m, (n - 1) as nat);
    if id < n {
        lemma_total_ge_member(m, (n - 1) as nat, id);
        assert(m[n as u64].amount > 0);
    }
}


/// The storage effect of `initialize(admin)`.
pub open spec fn initialize_step(before: TreasuryContract, after: TreasuryContract, admin: AccountId) -> bool {
    if before.state is Some {
        after == before
    } else {
        &&& after.state == Some(State { admin, total_contributions: 0, contribution_count: 0 })
        &&& after.contributions == before.contributions
    }
}

/// The storage effect of `contribute(contributor, amount)` at time `now`,
/// for a call whose totals stay within their integer ranges.
pub open spec fn contribute_step(
    before: TreasuryContract,
    after: TreasuryContract,
    contributor: AccountId,
    amount: i128,
    now: u64,
) -> bool {
    if before.state is None || amount <= 0 {
        after == before
    } else {
        let s = before.state.unwrap();
        let id = (s.contribution_count + 1) as u64;
        &&& s.total_contributions + amount <= i128::MAX
        &&& s.contribution_count < u64::MAX
        &&& after.state == Some(
            State {
                admin: s.admin,
                total_contributions: (s.total_contributions + amount) as i128,
                contribution_count: id,
            },
        )
        &&& after.contributions@ == before.contributions@.insert(
            id,
            Contribution { contributor, amount, timestamp: now },
        )
    }
}

/// `after` is what storage holds after one call of the contract on
/// `before` (the read-only calls leave it as it was).
pub open spec fn treasury_step(before: TreasuryContract, after: TreasuryContract) -> bool {
    ||| after == before
    ||| exists|admin: AccountId| #[trigger] initialize_step(before, after, admin)
    ||| exists|contributor: AccountId, amount: i128, now: u64|
        #[trigger] contribute_step(before, after, contributor, amount, now)
}

/// Storage of a contract that was never called.
pub open spec fn treasury_fresh(c: TreasuryContract) -> bool {
    &&& c.state is None
    &&& c.contributions@ == Map::<u64, Contribution>::empty()
}

proof fn lemma_treasury_step_keeps_wf(before: TreasuryContract, after: TreasuryContract)
    requires
        treasury_wf(before),
        treasury_step(before, after),
    ensures
        treasury_wf(after),
{
    if after == before {
    } else if exists|admin: AccountId| #[trigger] initialize_step(before, after, admin) {
    } else {
        let (contributor, amount, now) = choose|contributor: AccountId, amount: i128, now: u64|
            #[trigger] contribute_step(before, after, contributor, amount, now);
        if !(before.state is None || amount <= 0) {
            let s = before.state.unwrap();
            let id = (s.contribution_count + 1) as u64;
            lemma_recorded_total_frame(
                before.contributions@,
                id,
                Contribution { contributor, amount, timestamp: now },
                s.contribution_count as nat,
            );
        }
    }
}

/// Whatever sequence of calls a treasury goes through from its first
/// call on, the contributions are recorded under exactly the IDs
/// `1..=contribution_count`, each with a positive amount, and
/// `total_contributions` is the sum of their amounts.
pub proof fn lemma_treasury_always_wf(trace: Seq<TreasuryContract>)
    requires
        trace.len() > 0,
        treasury_fresh(trace[0]),
        forall|j: int| 0 <= j < trace.len() - 1 ==> treasury_step(#[trigger] trace[j], trace[j + 1]),
    ensures
        forall|j: int| 0 <= j < trace.len() ==> treasury_wf(#[trigger] trace[j]),
    decreases trace.len(),
{
    if trace.len() > 1 {
        let init = trace.drop_last();
        assert forall|j: int| 0 <= j < init.len() - 1 implies treasury_step(#[trigger] init[j], init[j + 1]) by {
            assert(treasury_step(trace[j], trace[j + 1]));
        }
        lemma_treasury_always_wf(init);
        let n = trace.len() - 1;
        assert(treasury_wf(init[n - 1]));
        assert(treasury_step(trace[n - 1], trace[n]));
        lemma_treasury_step_keeps_wf(trace[n - 1], trace[n]);
        assert forall|j: int| 0 <= j < trace.len() implies treasury_wf(#[trigger] trace[j]) by {
            if j < n {
                assert(init[j] == trace[j]);
            }
        }
    } else {
        assert(trace[0].contributions@.dom() =~= Set::<u64>::empty());
    }
}

impl TreasuryContract {
    /// A contract whose storage is empty.
    pub fn new() -> (r: TreasuryContract)
        ensures
            r.state is None,
            r.contributions@ == Map::<u64, Contribution>::empty(),
            treasury_wf(r),
    {
        TreasuryContract { state: None, contributions: HashMap::new() }
    }

    /// Sets up the state with `admin` and zero totals; refused when the
    /// state already exists.
    pub fn initialize(&mut self, admin: AccountId) -> (r: Result<(), TreasuryError>)
        ensures
            old(self).state is Some <==> r == Err::<(), TreasuryError>(
                TreasuryError::AlreadyInitialized,
            ),
            old(self).state is None ==> r is Ok,
            r is Err ==> *final(self) == *old(self),
            r is Ok ==> final(self).state == Some(
                State { admin, total_contributions: 0, contribution_count: 0 },
            ) && final(self).contributions == old(self).contributions,
            treasury_wf(*old(self)) ==> treasury_wf(*final(self)),
            initialize_step(*old(self), *final(self), admin),
    {
        if self.state.is_some() {
            return Err(TreasuryError::AlreadyInitialized);
        }
        self.state = Some(State { admin, total_contributions: 0, contribution_count: 0 });
        Ok(())
    }

    /// Records a contribution of `amount` by `contributor` at time `now`
    /// under the next ID, and adds it to the totals.
    pub fn contribute(&mut self, contributor: AccountId, amount: i128, now: u64) -> (r: Result<
        (),
        TreasuryError,
    >)
        requires
            old(self).state is Some && amount > 0 ==> {
                &&& old(self).state.unwrap().total_contributions + amount <= i128::MAX
                &&& old(self).state.unwrap().contribution_count < u64::MAX
            },
        ensures
            old(self).state is None ==> r == Err::<(), TreasuryError>(TreasuryError::NotInitialized),
            old(self).state is Some && amount <= 0 ==> r == Err::<(), TreasuryError>(
                TreasuryError::InvalidAmount,
            ),
            r is Err ==> *final(self) == *old(self),
            old(self).state is Some && amount > 0 ==> {
                let s = old(self).state.unwrap();
                let id = (s.contribution_count + 1) as u64;
                &&& r is Ok
                &&& final(self).state == Some(
                    State {
                        admin: s.admin,
                        total_contributions: (s.total_contributions + amount) as i128,
                        contribution_count: id,
                    },
                )
                &&& final(self).contributions@ == old(self).contributions@.insert(
                    id,
                    Contribution { contributor, amount, timestamp: now },
                )
            },
            treasury_wf(*old(self)) ==> treasury_wf(*final(self)),
            contribute_step(*old(self), *final(self), contributor, amount, now),
    {
        let ghost old_self = *self;
        let mut state = match self.state.take() {
            None => return Err(TreasuryError::NotInitialized),
            Some(s) => s,
        };
        if amount <= 0 {
            self.state = Some(state);
            return Err(TreasuryError::InvalidAmount);
        }
        state.total_contributions = state.total_contributions + amount;
        state.contribution_count = state.contribution_count + 1;
        let id = state.contribution_count;
        self.state = Some(state);
        self.contributions.insert(id, Contribution { contributor, amount, timestamp: now });
        proof {
            if treasury_wf(old_self) {
                let m = old_self.contributions@;
                let n = (id - 1) as nat;
                lemma_recorded_total_frame(m, id, Contribution { contributor, amount, timestamp: now }, n);
            }
        }
        Ok(())
    }

    /// The contract state.
    pub fn get_state(&self) -> (r: Result<State, TreasuryError>)
        ensures
            r == (match self.state {
                Some(s) => Ok(s),
                None => Err(TreasuryError::NotInitialized),
            }),
    {
        match &self.state {
            Some(s) => Ok(s.clone()),
            None => Err(TreasuryError::NotInitialized),
        }
    }

    /// The contribution recorded under `id`.
    pub fn get_contribution(&self, id: u64) -> (r: Result<Contribution, TreasuryError>)
        ensures
            r == (if self.contributions@.contains_key(id) {
                Ok(self.contributions@[id])
            } else {
                Err(TreasuryError::NotFound)
            }),
    {
        match self.contributions.get(&id) {
            Some(c) => Ok(c.clone()),
            None => Err(TreasuryError::NotFound),
        }
    }
}

} // verus!
