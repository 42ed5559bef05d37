//! Governance proposals: members create proposals, cast one vote each
//! before the deadline, and after the deadline a proposal passes when it
//! reached its quorum with more votes for than against.

use vstd::prelude::*;
use std::collections::HashMap;
use crate::account::AccountId;
use crate::loan::SECONDS_PER_DAY;

verus! {

broadcast use vstd::std_specs::hash::group_hash_axioms;

/// Storage keys of the voting contract.
pub enum DataKey {
    /// The admin address (set at initialization).
    Admin,
    /// Address of the treasury contract this voting module is tied to.
    TreasuryContract,
    /// Vector of all proposals.
    Proposals,
    /// Monotonically increasing proposal counter.
    ProposalCounter,
    /// Votes cast on a given proposal ID (persistent storage).
    Votes(u32),
}

/// Lifecycle status of a governance proposal.
#[derive(Clone, Copy, Debug, PartialEq, Eq, Structural)]
pub enum ProposalStatus {
    /// Proposal is open for voting.
    Active,
    /// Proposal reached quorum and more votes in favor than against.
    Passed,
    /// Proposal failed to reach quorum or majority.
    Failed,
    /// Proposal has been executed.
    Executed,
}

/// The kind of action a proposal represents.
#[derive(Clone, Copy, Debug, PartialEq, Eq, Structural)]
pub enum ProposalType {
    /// Approve a member loan.
    LoanApproval,
    /// Authorize a treasury withdrawal.
    TreasurySpend,
    /// Add a new member to the coop.
    AddMember,
    /// Remove a member from the coop.
    RemoveMember,
    /// Change a group rule (interest rate, contrib amount, etc.).
    UpdateRule,
    /// General governance proposal.
    General,
}

/// A single governance proposal.
pub struct Proposal {
    /// Unique proposal identifier.
    pub id: u32,
    /// The member who created the proposal.
    pub proposer: AccountId,
    /// The category of this proposal.
    pub proposal_type: ProposalType,
    /// Short title of the proposal.
    pub title: String,
    /// Human-readable description of the proposal.
    pub description: String,
    /// Number of votes cast in favor.
    pub votes_for: u32,
    /// Number of votes cast against.
    pub votes_against: u32,
    /// Minimum number of votes required for the proposal to be valid.
    pub quorum: u32,
    /// Ledger timestamp deadline for voting.
    pub deadline: u64,
    /// Current status of the proposal.
    pub status: ProposalStatus,
    /// Ledger timestamp when the proposal was created.
    pub created_at: u64,
    /// JSON-encoded action payload for the proposal.
    pub payload: String,
}

impl Clone for Proposal {
    fn clone(&self) -> (r: Proposal)
        ensures
            r == *self,
    {
        Proposal {
            id: self.id,
            proposer: self.proposer.clone(),
            proposal_type: self.proposal_type,
            title: self.title.clone(),
            description: self.description.clone(),
            votes_for: self.votes_for,
            votes_against: self.votes_against,
            quorum: self.quorum,
            deadline: self.deadline,
            status: self.status,
            created_at: self.created_at,
            payload: self.payload.clone(),
        }
    }
}

/// One member's vote on a proposal (`approve == true` is a vote for).
pub struct Vote {
    pub voter: AccountId,
    pub approve: bool,
}

impl Clone for Vote {
    fn clone(&self) -> (r: Vote)
        ensures
            r == *self,
    {
        Vote { voter: self.voter.clone(), approve: self.approve }
    }
}

/// Why a call to the voting contract is refused.
#[derive(Clone, Copy, Debug, PartialEq, Eq, Structural)]
pub enum VotingError {
    /// The proposals were never stored.
    NotInitialized,
    /// No proposal has the given ID.
    ProposalNotFound,
    /// The proposal no longer takes votes.
    NotActive,
    /// The voting deadline has passed.
    VotingEnded,
    /// The voter already voted on this proposal.
    AlreadyVoted,
    /// The proposal was already finalized.
    AlreadyFinalized,
    /// The voting deadline has not passed yet.
    VotingStillActive,
    /// A counter, tally or timestamp leaves its integer range.
    Overflow,
}

/// The voting contract's storage: each field is one storage key, `None`
/// where the key was never written; `votes` holds the persistent
/// `Votes(id)` entries that were written, by proposal ID.
pub struct VotingContract {
    pub admin: Option<AccountId>,
    pub treasury: Option<AccountId>,
    pub proposals: Option<Vec<Proposal>>,
    pub counter: Option<u32>,
    pub votes: HashMap<u32, Vec<Vote>>,
}

/// The stored proposals, empty where the key was never written.
pub open spec fn proposals_of(c: VotingContract) -> Seq<Proposal> {
    match c.proposals {
        Some(v) => v@,
        None => seq![],
    }
}

/// The votes stored for proposal `id`, empty where none were stored.
pub open spec fn ballot_of(c: VotingContract, id: u32) -> Seq<Vote> {
    if c.votes@.contains_key(id) {
        c.votes@[id]@
    } else {
        seq![]
    }
}

/// Whether some proposal carries `id`.
pub open spec fn has_proposal(ps: Seq<Proposal>, id: u32) -> bool {
    exists|i: int| 0 <= i < ps.len() && #[trigger] ps[i].id == id
}

/// Whether `i` is the first position of a proposal carrying `id`.
pub open spec fn is_first_proposal(ps: Seq<Proposal>, id: u32, i: int) -> bool {
    &&& 0 <= i < ps.len()
    &&& ps[i].id == id
    &&& forall|j: int| 0 <= j < i ==> #[trigger] ps[j].id != id
}

/// The position of the first proposal carrying `id` (meaningful when
/// `has_proposal(ps, id)`).
pub open spec fn proposal_index(ps: Seq<Proposal>, id: u32) -> int {
    choose|i: int| is_first_proposal(ps, id, i)
}

/// Whether `voter` has a vote in `ballot`.
pub open spec fn has_voted(ballot: Seq<Vote>, voter: Seq<char>) -> bool {
    exists|i: int| 0 <= i < ballot.len() && (#[trigger] ballot[i]).voter@ == voter
}

/// The number of votes in `ballot` that are for (`approve`) or against.
pub open spec fn count_votes(ballot: Seq<Vote>, approve: bool) -> nat
    decreases ballot.len(),
{
    if ballot.len() == 0 {
        0
    } else {
        count_votes(ballot.drop_last(), approve) + if ballot.last().approve == approve {
            1nat
        } else {
            0nat
        }
    }
}

/// The verdict on a closed proposal: it passes when the votes cast reach
/// the quorum and more are for than against.
pub open spec fn verdict(p: Proposal) -> ProposalStatus {
    if p.votes_for + p.votes_against >= p.quorum && p.votes_for > p.votes_against {
        ProposalStatus::Passed
    } else {
        ProposalStatus::Failed
    }
}

/// The deadline of a proposal opened at `now` for `days` days.
pub open spec fn voting_deadline(now: u64, days: u32) -> int {
    now + days * SECONDS_PER_DAY
}

/// Which refusal `create_proposal` gives, or `None` when it goes through.
pub open spec fn create_refusal(c: VotingContract, now: u64, days: u32) -> Option<VotingError> {
    if c.counter.unwrap_or(0) == u32::MAX {
        Some(VotingError::Overflow)
    } else if voting_deadline(now, days) > u64::MAX {
        Some(VotingError::Overflow)
    } else {
        None
    }
}

/// Which refusal `vote` gives, or `None` when it goes through.
pub open spec fn vote_refusal(
    c: VotingContract,
    voter: AccountId,
    proposal_id: u32,
    approve: bool,
    now: u64,
) -> Option<VotingError> {
    let ps = proposals_of(c);
    if c.proposals is None {
        Some(VotingError::NotInitialized)
    } else if !has_proposal(ps, proposal_id) {
        Some(VotingError::ProposalNotFound)
    } else {
        let p = ps[proposal_index(ps, proposal_id)];
        if p.status != ProposalStatus::Active {
            Some(VotingError::NotActive)
        } else if now > p.deadline {
            Some(VotingError::VotingEnded)
        } else if has_voted(ballot_of(c, proposal_id), voter@) {
            Some(VotingError::AlreadyVoted)
        } else if (approve && p.votes_for == u32::MAX) || (!approve && p.votes_against
            == u32::MAX) {
            Some(VotingError::Overflow)
        } else {
            None
        }
    }
}

/// Which refusal `finalize` gives, or `None` when it goes through.
pub open spec fn finalize_refusal(c: VotingContract, proposal_id: u32, now: u64) -> Option<
    VotingError,
> {
    let ps = proposals_of(c);
    if c.proposals is None {
        Some(VotingError::NotInitialized)
    } else if !has_proposal(ps, proposal_id) {
        Some(VotingError::ProposalNotFound)
    } else {
        let p = ps[proposal_index(ps, proposal_id)];
        if p.status != ProposalStatus::Active {
            Some(VotingError::AlreadyFinalized)
        } else if now <= p.deadline {
            Some(VotingError::VotingStillActive)
        } else if p.votes_for + p.votes_against > u32::MAX {
            Some(VotingError::Overflow)
        } else {
            None
        }
    }
}

/// The contract's standing invariant: proposals carry the IDs 1, 2, ...
/// in order and the counter equals their number; every proposal has a
/// stored ballot in which each member votes at most once, and its tallies
/// count that ballot's votes for and against; only Active, Passed and
/// Failed occur, and a closed proposal carries the verdict on its tallies.
pub open spec fn voting_wf(c: VotingContract) -> bool {
    let ps = proposals_of(c);
    &&& (c.proposals is Some <==> c.counter is Some)
    &&& c.counter.unwrap_or(0) == ps.len()
    &&& forall|i: int| 0 <= i < ps.len() ==> #[trigger] ps[i].id == i + 1
    &&& forall|i: int| 0 <= i < ps.len() ==> proposal_wf(c, #[trigger] ps[i])
}

/// Each member votes at most once in `ballot`.
pub open spec fn one_vote_each(ballot: Seq<Vote>) -> bool {
    forall|i: int, j: int|
        0 <= i < ballot.len() && 0 <= j < ballot.len() && i != j ==> (#[trigger] ballot[i]).voter@
            != (#[trigger] ballot[j]).voter@
}

/// The per-proposal part of [`voting_wf`].
pub open spec fn proposal_wf(c: VotingContract, p: Proposal) -> bool {
    let ballot = ballot_of(c, p.id);
    &&& c.votes@.contains_key(p.id)
    &&& one_vote_each(ballot)
    &&& p.votes_for == count_votes(ballot, true)
    &&& p.votes_against == count_votes(ballot, false)
    &&& (p.status == ProposalStatus::Active || p.status == ProposalStatus::Passed || p.status
        == ProposalStatus::Failed)
    &&& p.status != ProposalStatus::Active ==> p.status == verdict(p)
}

proof fn lemma_first_proposal_unique(ps: Seq<Proposal>, id: u32, i: int)
    requires
        is_first_proposal(ps, id, i),
    ensures
        has_proposal(ps, id),
        proposal_index(ps, id) == i,
{
    assert(ps[i].id == id);
    let k = proposal_index(ps, id);
    assert(is_first_proposal(ps, id, k));
    if k < i {
        assert(ps[k].id != id);
    }
    if i < k {
        assert(ps[i].id != id);
    }
}

/// In a well-formed contract, the proposal with ID `id` is the one at
/// position `id - 1`, and there is one exactly when `1 <= id <= number of
/// proposals`.
pub proof fn lemma_proposal_at_its_id(c: VotingContract, id: u32)
    requires
        voting_wf(c),
    ensures
        has_proposal(proposals_of(c), id) <==> 1 <= id <= proposals_of(c).len(),
        has_proposal(proposals_of(c), id) ==> proposal_index(proposals_of(c), id) == id - 1,
{
    let ps = proposals_of(c);
    if 1 <= id <= ps.len() {
        assert(ps[id - 1].id == id);
        assert forall|j: int| 0 <= j < id - 1 implies #[trigger] ps[j].id != id by {
            assert(ps[j].id == j + 1);
        }
        lemma_first_proposal_unique(ps, id, id - 1);
    } else {
        assert forall|j: int| 0 <= j < ps.len() implies #[trigger] ps[j].id != id by {
            assert(ps[j].id == j + 1);
        }
    }
}


/// Each member votes once: after `voter`'s vote is added to the ballot of
/// proposal `proposal_id`, every further vote by the same member on that
/// proposal is refused, whichever way it goes and whenever it is cast.
pub proof fn lemma_no_second_vote(
    before: VotingContract,
    after: VotingContract,
    voter: AccountId,
    proposal_id: u32,
    approve: bool,
    again: bool,
    now: u64,
)
    requires
        ballot_of(after, proposal_id) == ballot_of(before, proposal_id).push(Vote { voter, approve }),
    ensures
        vote_refusal(after, voter, proposal_id, again, now) is Some,
{
    let b = ballot_of(after, proposal_id);
    assert(b[b.len() - 1].voter@ == voter@);
    assert(has_voted(b, voter@));
}


/// Votes are read back as cast: starting from the empty ballot that
/// `create_proposal` stores for a proposal, after `votes.len()` votes on it
/// (each appended to its ballot by `vote`) the stored ballot, which is
/// what `get_votes` returns, is exactly those votes in order.
pub proof fn lemma_votes_read_back(states: Seq<VotingContract>, proposal_id: u32, votes: Seq<Vote>)
    requires
        states.len() == votes.len() + 1,
        ballot_of(states[0], proposal_id) == Seq::<Vote>::empty(),
        forall|j: int|
            0 <= j < votes.len() ==> ballot_of(#[trigger] states[j + 1], proposal_id) == ballot_of(
                states[j],
                proposal_id,
            ).push(votes[j]),
    ensures
        ballot_of(states.last(), proposal_id) == votes,
    decreases votes.len(),
{
    if votes.len() == 0 {
        assert(votes =~= Seq::<Vote>::empty());
    } else {
        let n = votes.len() - 1;
        let fewer = states.drop_last();
        assert forall|j: int| 0 <= j < votes.drop_last().len() implies ballot_of(
            #[trigger] fewer[j + 1],
            proposal_id,
        ) == ballot_of(fewer[j], proposal_id).push(votes.drop_last()[j]) by {
            assert(states[j + 1] == fewer[j + 1]);
        }
        lemma_votes_read_back(fewer, proposal_id, votes.drop_last());
        assert(states[n + 1] == states.last());
        assert(ballot_of(states[n + 1], proposal_id) == ballot_of(states[n], proposal_id).push(votes[n]));
        assert(votes.drop_last().push(votes[n]) =~= votes);
    }
}



/// Whenever some proposal carries `id`, a first one does, and
/// `proposal_index` is its position.
pub proof fn lemma_proposal_index_is_first(ps: Seq<Proposal>, id: u32)
    requires
        has_proposal(ps, id),
    ensures
        is_first_proposal(ps, id, proposal_index(ps, id)),
    decreases ps.len(),
{
    let init = ps.drop_last();
    if has_proposal(init, id) {
        lemma_proposal_index_is_first(init, id);
        let j = proposal_index(init, id);
        assert(init[j] == ps[j]);
        assert forall|i: int| 0 <= i < j implies #[trigger] ps[i].id != id by {
            assert(init[i] == ps[i]);
        }
        lemma_first_proposal_unique(ps, id, j);
    } else {
        let n = ps.len() - 1;
        let w = choose|i: int| 0 <= i < ps.len() && #[trigger] ps[i].id == id;
        if w < n {
            assert(init[w] == ps[w]);
        }
        assert forall|i: int| 0 <= i < n implies #[trigger] ps[i].id != id by {
            assert(init[i] == ps[i]);
        }
        lemma_first_proposal_unique(ps, id, n);
    }
}

/// The storage effect of `initialize(admin, treasury)`.
pub open spec fn initialize_step(before: VotingContract, after: VotingContract, admin: AccountId, treasury: AccountId) -> bool {
    &&& after.admin == Some(admin)
    &&& after.treasury == Some(treasury)
    &&& after.counter == Some(0u32)
    &&& after.proposals matches Some(v) && v@.len() == 0
    &&& after.votes == before.votes
}

/// The storage effect of `create_proposal(...)` at time `now`.
pub open spec fn create_step(
    before: VotingContract,
    after: VotingContract,
    proposer: AccountId,
    proposal_type: ProposalType,
    title: String,
    description: String,
    days: u32,
    quorum: u32,
    payload: String,
    now: u64,
) -> bool {
    if create_refusal(before, now, days) is Some {
        after == before
    } else {
        let id = (before.counter.unwrap_or(0) + 1) as u32;
        &&& after.counter == Some(id)
        &&& after.proposals is Some
        &&& proposals_of(after) == proposals_of(before).push(
            Proposal {
                id,
                proposer,
                proposal_type,
                title,
                description,
                votes_for: 0,
                votes_against: 0,
                quorum,
                deadline: voting_deadline(now, days) as u64,
                status: ProposalStatus::Active,
                created_at: now,
                payload,
            },
        )
        &&& after.votes@ == before.votes@.insert(id, after.votes@[id])
        &&& ballot_of(after, id) == Seq::<Vote>::empty()
        &&& after.admin == before.admin
        &&& after.treasury == before.treasury
    }
}

/// The proposal `p` with one more vote for (`approve`) or against.
pub open spec fn with_vote(p: Proposal, approve: bool) -> Proposal {
    if approve {
        Proposal { votes_for: (p.votes_for + 1) as u32, ..p }
    } else {
        Proposal { votes_against: (p.votes_against + 1) as u32, ..p }
    }
}

/// The storage effect of `vote(voter, proposal_id, approve)` at time `now`.
pub open spec fn vote_step(
    before: VotingContract,
    after: VotingContract,
    voter: AccountId,
    proposal_id: u32,
    approve: bool,
    now: u64,
) -> bool {
    if vote_refusal(before, voter, proposal_id, approve, now) is Some {
        after == before
    } else {
        let ps = proposals_of(before);
        let idx = proposal_index(ps, proposal_id);
        &&& after.proposals is Some
        &&& proposals_of(after) == ps.update(idx, with_vote(ps[idx], approve))
        &&& after.votes@ == before.votes@.insert(proposal_id, after.votes@[proposal_id])
        &&& ballot_of(after, proposal_id) == ballot_of(before, proposal_id).push(Vote { voter, approve })
        &&& after.admin == before.admin
        &&& after.treasury == before.treasury
        &&& after.counter == before.counter
    }
}

/// The storage effect of `finalize(proposal_id)` at time `now`.
pub open spec fn finalize_step(before: VotingContract, after: VotingContract, proposal_id: u32, now: u64) -> bool {
    if finalize_refusal(before, proposal_id, now) is Some {
        after == before
    } else {
        let ps = proposals_of(before);
        let idx = proposal_index(ps, proposal_id);
        &&& after.proposals is Some
        &&& proposals_of(after) == ps.update(idx, Proposal { status: verdict(ps[idx]), ..ps[idx] })
        &&& after.votes == before.votes
        &&& after.admin == before.admin
        &&& after.treasury == before.treasury
        &&& after.counter == before.counter
    }
}

/// `after` is what storage holds after one call of the contract on
/// `before` (the read-only calls leave it as it was).
pub open spec fn voting_step(before: VotingContract, after: VotingContract) -> bool {
    ||| after == before
    ||| exists|admin: AccountId, treasury: AccountId| #[trigger] initialize_step(before, after, admin, treasury)
    ||| exists|
        proposer: AccountId,
        proposal_type: ProposalType,
        title: String,
        description: String,
        days: u32,
        quorum: u32,
        payload: String,
        now: u64,
    |
        #[trigger] create_step(
            before,
            after,
            proposer,
            proposal_type,
            title,
            description,
            days,
            quorum,
            payload,
            now,
        )
    ||| exists|voter: AccountId, proposal_id: u32, approve: bool, now: u64|
        #[trigger] vote_step(before, after, voter, proposal_id, approve, now)
    ||| exists|proposal_id: u32, now: u64| #[trigger] finalize_step(before, after, proposal_id, now)
}

/// Storage of a contract that was never called.
pub open spec fn voting_fresh(c: VotingContract) -> bool {
    &&& c.admin is None
    &&& c.treasury is None
    &&& c.proposals is None
    &&& c.counter is None
    &&& c.votes@ == Map::<u32, Vec<Vote>>::empty()
}

proof fn lemma_create_keeps_wf(before: VotingContract, after: VotingContract, p: Proposal)
    requires
        voting_wf(before),
        after.counter == Some(p.id),
        p.id == before.counter.unwrap_or(0) + 1,
        p.votes_for == 0,
        p.votes_against == 0,
        p.status == ProposalStatus::Active,
        after.proposals is Some,
        proposals_of(after) == proposals_of(before).push(p),
        after.votes@ == before.votes@.insert(p.id, after.votes@[p.id]),
        ballot_of(after, p.id) == Seq::<Vote>::empty(),
    ensures
        voting_wf(after),
{
    let ops = proposals_of(before);
    let nps = proposals_of(after);
    assert forall|i: int| 0 <= i < nps.len() implies proposal_wf(after, #[trigger] nps[i]) by {
        if i < ops.len() {
            assert(ops[i].id == i + 1);
            assert(proposal_wf(before, ops[i]));
            assert(ballot_of(after, nps[i].id) == ballot_of(before, ops[i].id));
        } else {
            assert(ballot_of(after, p.id) =~= Seq::<Vote>::empty());
        }
    }
}

proof fn lemma_vote_keeps_wf(
    before: VotingContract,
    after: VotingContract,
    voter: AccountId,
    proposal_id: u32,
    approve: bool,
    now: u64,
)
    requires
        voting_wf(before),
        vote_refusal(before, voter, proposal_id, approve, now) is None,
        vote_step(before, after, voter, proposal_id, approve, now),
    ensures
        voting_wf(after),
{
    lemma_proposal_at_its_id(before, proposal_id);
    let ops = proposals_of(before);
    let nps = proposals_of(after);
    let idx = proposal_index(ops, proposal_id);
    let old_ballot = ballot_of(before, proposal_id);
    let nb = ballot_of(after, proposal_id);
    assert(nb.drop_last() =~= old_ballot);
    assert forall|i: int| 0 <= i < nps.len() implies proposal_wf(after, #[trigger] nps[i]) by {
        assert(ops[i].id == i + 1);
        assert(proposal_wf(before, ops[i]));
        if i == idx {
            assert forall|a: int, b: int|
                0 <= a < nb.len() && 0 <= b < nb.len() && a != b implies (#[trigger] nb[a]).voter@
                != (#[trigger] nb[b]).voter@ by {
                if a == nb.len() - 1 {
                    assert(old_ballot[b] == nb[b]);
                } else if b == nb.len() - 1 {
                    assert(old_ballot[a] == nb[a]);
                } else {
                    assert(old_ballot[a] == nb[a]);
                    assert(old_ballot[b] == nb[b]);
                }
            }
        } else {
            assert(ballot_of(after, nps[i].id) == ballot_of(before, ops[i].id));
        }
    }
}

proof fn lemma_finalize_keeps_wf(before: VotingContract, after: VotingContract, proposal_id: u32, now: u64)
    requires
        voting_wf(before),
        finalize_step(before, after, proposal_id, now),
    ensures
        voting_wf(after),
{
    if finalize_refusal(before, proposal_id, now) is None {
        lemma_proposal_index_is_first(proposals_of(before), proposal_id);
        let ops = proposals_of(before);
        let nps = proposals_of(after);
        assert forall|i: int| 0 <= i < nps.len() implies proposal_wf(after, #[trigger] nps[i]) by {
            assert(proposal_wf(before, ops[i]));
        }
    }
}

proof fn lemma_voting_step_keeps_wf(before: VotingContract, after: VotingContract)
    requires
        voting_wf(before),
        voting_step(before, after),
    ensures
        voting_wf(after),
{
    if after == before {
    } else if exists|admin: AccountId, treasury: AccountId| #[trigger] initialize_step(before, after, admin, treasury) {
    } else if exists|
        proposer: AccountId,
        proposal_type: ProposalType,
        title: String,
        description: String,
        days: u32,
        quorum: u32,
        payload: String,
        now: u64,
    |
        #[trigger] create_step(
            before,
            after,
            proposer,
            proposal_type,
            title,
            description,
            days,
            quorum,
            payload,
            now,
        ) {
        let (proposer, proposal_type, title, description, days, quorum, payload, now) = choose|
            proposer: AccountId,
            proposal_type: ProposalType,
            title: String,
            description: String,
            days: u32,
            quorum: u32,
            payload: String,
            now: u64,
        |
            #[trigger] create_step(
                before,
                after,
                proposer,
                proposal_type,
                title,
                description,
                days,
                quorum,
                payload,
                now,
            );
        if create_refusal(before, now, days) is None {
            let id = (before.counter.unwrap_or(0) + 1) as u32;
            let p = Proposal {
                id,
                proposer,
                proposal_type,
                title,
                description,
                votes_for: 0,
                votes_against: 0,
                quorum,
                deadline: voting_deadline(now, days) as u64,
                status: ProposalStatus::Active,
                created_at: now,
                payload,
            };
            lemma_create_keeps_wf(before, after, p);
        }
    } else if exists|voter: AccountId, proposal_id: u32, approve: bool, now: u64|
        #[trigger] vote_step(before, after, voter, proposal_id, approve, now) {
        let (voter, proposal_id, approve, now) = choose|voter: AccountId, proposal_id: u32, approve: bool, now: u64|
            #[trigger] vote_step(before, after, voter, proposal_id, approve, now);
        if vote_refusal(before, voter, proposal_id, approve, now) is None {
            lemma_vote_keeps_wf(before, after, voter, proposal_id, approve, now);
        }
    } else {
        let (proposal_id, now) = choose|proposal_id: u32, now: u64| #[trigger] finalize_step(before, after, proposal_id, now);
        lemma_finalize_keeps_wf(before, after, proposal_id, now);
    }
}

/// Whatever sequence of calls a contract goes through from its first
/// call on: proposals carry the IDs 1, 2, ... in order and the counter
/// equals their number (so successive proposals get the IDs 1, 2, 3, ...,
/// each used once); each proposal's tallies count exactly the votes for
/// and against on its stored ballot, on which every member appears at
/// most once; and every closed proposal carries the verdict on its
/// tallies.
pub proof fn lemma_voting_always_wf(trace: Seq<VotingContract>)
    requires
        trace.len() > 0,
        voting_fresh(trace[0]),
        forall|j: int| 0 <= j < trace.len() - 1 ==> voting_step(#[trigger] trace[j], trace[j + 1]),
    ensures
        forall|j: int| 0 <= j < trace.len() ==> voting_wf(#[trigger] trace[j]),
    decreases trace.len(),
{
    if trace.len() > 1 {
        let init = trace.drop_last();
        assert forall|j: int| 0 <= j < init.len() - 1 implies voting_step(#[trigger] init[j], init[j + 1]) by {
            assert(voting_step(trace[j], trace[j + 1]));
        }
        lemma_voting_always_wf(init);
        let n = trace.len() - 1;
        assert(voting_wf(init[n - 1]));
        assert(voting_step(trace[n - 1], trace[n]));
        lemma_voting_step_keeps_wf(trace[n - 1], trace[n]);
        assert forall|j: int| 0 <= j < trace.len() implies voting_wf(#[trigger] trace[j]) by {
            if j < n {
                assert(init[j] == trace[j]);
            }
        }
    } else {
        assert(proposals_of(trace[0]) =~= Seq::<Proposal>::empty());
    }
}


/// One call changes proposal statuses only by closing: a proposal kept at
/// its place either keeps its status or goes from Active to Passed or
/// Failed (by `finalize`); proposals added by the call start Active.
pub proof fn lemma_voting_step_status(before: VotingContract, after: VotingContract)
    requires
        voting_step(before, after),
    ensures
        forall|i: int|
            0 <= i < proposals_of(before).len() && i < proposals_of(after).len() ==> {
                ||| (#[trigger] proposals_of(after)[i]).status == proposals_of(before)[i].status
                ||| proposals_of(before)[i].status == ProposalStatus::Active && (proposals_of(after)[i].status
                    == ProposalStatus::Passed || proposals_of(after)[i].status == ProposalStatus::Failed)
            },
        forall|i: int|
            proposals_of(before).len() <= i < proposals_of(after).len() ==> (
            #[trigger] proposals_of(after)[i]).status == ProposalStatus::Active,
{
    if after == before {
    } else if exists|admin: AccountId, treasury: AccountId| #[trigger] initialize_step(before, after, admin, treasury) {
    } else if exists|
        proposer: AccountId,
        proposal_type: ProposalType,
        title: String,
        description: String,
        days: u32,
        quorum: u32,
        payload: String,
        now: u64,
    |
        #[trigger] create_step(
            before,
            after,
            proposer,
            proposal_type,
            title,
            description,
            days,
            quorum,
            payload,
            now,
        ) {
    } else if exists|voter: AccountId, proposal_id: u32, approve: bool, now: u64|
        #[trigger] vote_step(before, after, voter, proposal_id, approve, now) {
        let (voter, proposal_id, approve, now) = choose|voter: AccountId, proposal_id: u32, approve: bool, now: u64|
            #[trigger] vote_step(before, after, voter, proposal_id, approve, now);
        if vote_refusal(before, voter, proposal_id, approve, now) is None {
            lemma_proposal_index_is_first(proposals_of(before), proposal_id);
        }
    } else {
        let (proposal_id, now) = choose|proposal_id: u32, now: u64| #[trigger] finalize_step(before, after, proposal_id, now);
        if finalize_refusal(before, proposal_id, now) is None {
            lemma_proposal_index_is_first(proposals_of(before), proposal_id);
        }
    }
}


/// A created proposal opens for `days` whole days: when `create_proposal`
/// goes through, the list gains exactly one proposal, at the end, with
/// the next ID, deadline `now + days * 86_400`, no votes, status Active,
/// the given quorum and creation time `now`, and an empty stored ballot.
/// It goes through exactly when the counter is below `u32::MAX` and that
/// deadline fits in `u64`.
pub proof fn lemma_create_proposal_law(
    before: VotingContract,
    after: VotingContract,
    proposer: AccountId,
    proposal_type: ProposalType,
    title: String,
    description: String,
    days: u32,
    quorum: u32,
    payload: String,
    now: u64,
)
    requires
        create_step(before, after, proposer, proposal_type, title, description, days, quorum, payload, now),
    ensures
        create_refusal(before, now, days) is None <==> (before.counter.unwrap_or(0) < u32::MAX && now
            + days * 86_400 <= u64::MAX),
        create_refusal(before, now, days) is None ==> {
            let ps = proposals_of(before);
            let nps = proposals_of(after);
            let p = nps[nps.len() - 1];
            &&& nps.len() == ps.len() + 1
            &&& forall|i: int| 0 <= i < ps.len() ==> #[trigger] nps[i] == ps[i]
            &&& p.id == before.counter.unwrap_or(0) + 1
            &&& p.deadline == now + days * 86_400
            &&& p.votes_for == 0
            &&& p.votes_against == 0
            &&& p.status == ProposalStatus::Active
            &&& p.quorum == quorum
            &&& p.created_at == now
            &&& p.proposer == proposer
            &&& ballot_of(after, p.id).len() == 0
        },
{
    if create_refusal(before, now, days) is None {
        let nps = proposals_of(after);
        assert(nps[nps.len() - 1] == nps.last());
    }
}

/// A vote is accepted whenever it is allowed: on a stored proposal that
/// is Active, at a time no later than its deadline, by a member with no
/// vote on its ballot, and with room left in the tally it adds to, the
/// vote is never refused, whoever the voter is.
pub proof fn lemma_vote_accepted(c: VotingContract, voter: AccountId, proposal_id: u32, approve: bool, now: u64)
    requires
        c.proposals is Some,
        has_proposal(proposals_of(c), proposal_id),
        ({
            let p = proposals_of(c)[proposal_index(proposals_of(c), proposal_id)];
            &&& p.status == ProposalStatus::Active
            &&& now <= p.deadline
            &&& approve ==> p.votes_for < u32::MAX
            &&& !approve ==> p.votes_against < u32::MAX
        }),
        forall|j: int|
            0 <= j < ballot_of(c, proposal_id).len() ==> (#[trigger] ballot_of(c, proposal_id)[j]).voter@
                != voter@,
    ensures
        vote_refusal(c, voter, proposal_id, approve, now) is None,
{
}

/// A vote is counted once, for the side it was cast for: when `vote` goes
/// through, the proposal's tally for that side grows by one and the other
/// stays, nothing else about the proposal changes, no other proposal
/// changes, and the ballot gains exactly this vote at its end.
pub proof fn lemma_vote_counted(
    before: VotingContract,
    after: VotingContract,
    voter: AccountId,
    proposal_id: u32,
    approve: bool,
    now: u64,
)
    requires
        vote_step(before, after, voter, proposal_id, approve, now),
        vote_refusal(before, voter, proposal_id, approve, now) is None,
    ensures
        ({
            let ps = proposals_of(before);
            let nps = proposals_of(after);
            let idx = proposal_index(ps, proposal_id);
            let p = ps[idx];
            let q = nps[idx];
            let b = ballot_of(before, proposal_id);
            let nb = ballot_of(after, proposal_id);
            &&& nps.len() == ps.len()
            &&& forall|i: int| 0 <= i < ps.len() && i != idx ==> #[trigger] nps[i] == ps[i]
            &&& q.id == proposal_id
            &&& q.votes_for == p.votes_for + if approve { 1int } else { 0int }
            &&& q.votes_against == p.votes_against + if approve { 0int } else { 1int }
            &&& q.status == p.status
            &&& q.quorum == p.quorum
            &&& q.deadline == p.deadline
            &&& nb.len() == b.len() + 1
            &&& forall|j: int| 0 <= j < b.len() ==> #[trigger] nb[j] == b[j]
            &&& nb[b.len() as int].voter == voter
            &&& nb[b.len() as int].approve == approve
        }),
{
    lemma_proposal_index_is_first(proposals_of(before), proposal_id);
}

/// Closing decides by quorum and majority: when `finalize` goes through,
/// the proposal becomes Passed exactly when its votes for and against
/// together reach the quorum and strictly more are for than against, and
/// Failed otherwise (so a proposal with at least as many votes against as
/// for never passes); its tallies stay, and no other proposal changes.
pub proof fn lemma_finalize_decides(before: VotingContract, after: VotingContract, proposal_id: u32, now: u64)
    requires
        finalize_step(before, after, proposal_id, now),
        finalize_refusal(before, proposal_id, now) is None,
    ensures
        ({
            let ps = proposals_of(before);
            let nps = proposals_of(after);
            let idx = proposal_index(ps, proposal_id);
            let p = ps[idx];
            let q = nps[idx];
            &&& nps.len() == ps.len()
            &&& forall|i: int| 0 <= i < ps.len() && i != idx ==> #[trigger] nps[i] == ps[i]
            &&& p.status == ProposalStatus::Active
            &&& now > p.deadline
            &&& (q.status == ProposalStatus::Passed <==> (p.votes_for + p.votes_against >= p.quorum
                && p.votes_for > p.votes_against))
            &&& (q.status == ProposalStatus::Passed || q.status == ProposalStatus::Failed)
            &&& p.votes_against >= p.votes_for ==> q.status == ProposalStatus::Failed
            &&& q.votes_for == p.votes_for
            &&& q.votes_against == p.votes_against
        }),
{
    lemma_proposal_index_is_first(proposals_of(before), proposal_id);
}


/// A proposal past its deadline can always be closed: on a stored,
/// Active proposal, at any time after its deadline, `finalize` goes
/// through as long as its two tallies add up within `u32`.
pub proof fn lemma_finalize_accepted(c: VotingContract, proposal_id: u32, now: u64)
    requires
        c.proposals is Some,
        has_proposal(proposals_of(c), proposal_id),
        ({
            let p = proposals_of(c)[proposal_index(proposals_of(c), proposal_id)];
            &&& p.status == ProposalStatus::Active
            &&& now > p.deadline
            &&& p.votes_for + p.votes_against <= u32::MAX
        }),
    ensures
        finalize_refusal(c, proposal_id, now) is None,
{
}

/// Voting and closing never overlap: an active proposal takes votes up to
/// and including its deadline and can be finalized only after it.
pub proof fn lemma_vote_and_finalize_windows(
    c: VotingContract,
    voter: AccountId,
    proposal_id: u32,
    approve: bool,
    now: u64,
)
    requires
        c.proposals is Some,
        has_proposal(proposals_of(c), proposal_id),
        proposals_of(c)[proposal_index(proposals_of(c), proposal_id)].status == ProposalStatus::Active,
    ensures
        now <= proposals_of(c)[proposal_index(proposals_of(c), proposal_id)].deadline ==> finalize_refusal(
            c,
            proposal_id,
            now,
        ) == Some(VotingError::VotingStillActive),
        now > proposals_of(c)[proposal_index(proposals_of(c), proposal_id)].deadline ==> vote_refusal(
            c,
            voter,
            proposal_id,
            approve,
            now,
        ) == Some(VotingError::VotingEnded),
{
}

proof fn lemma_tally_split(ballot: Seq<Vote>)
    ensures
        count_votes(ballot, true) + count_votes(ballot, false) == ballot.len(),
    decreases ballot.len(),
{
    if ballot.len() > 0 {
        lemma_tally_split(ballot.drop_last());
    }
}

/// Every vote is counted once: in a well-formed contract, a proposal's
/// votes for and against add up to the number of votes on its ballot.
pub proof fn lemma_tallies_count_every_vote(c: VotingContract, i: int)
    requires
        voting_wf(c),
        0 <= i < proposals_of(c).len(),
    ensures
        proposals_of(c)[i].votes_for + proposals_of(c)[i].votes_against == ballot_of(
            c,
            proposals_of(c)[i].id,
        ).len(),
{
    let p = proposals_of(c)[i];
    assert(proposal_wf(c, p));
    lemma_tally_split(ballot_of(c, p.id));
}

/// A proposal is decided once: after it leaves Active, it can neither be
/// voted on nor finalized again.
pub proof fn lemma_closed_proposal_is_final(
    c: VotingContract,
    voter: AccountId,
    proposal_id: u32,
    approve: bool,
    now: u64,
)
    requires
        has_proposal(proposals_of(c), proposal_id),
        proposals_of(c)[proposal_index(proposals_of(c), proposal_id)].status != ProposalStatus::Active,
    ensures
        vote_refusal(c, voter, proposal_id, approve, now) == Some(VotingError::NotActive),
        finalize_refusal(c, proposal_id, now) == Some(VotingError::AlreadyFinalized),
{
}

/// A created proposal can be looked up right away: in a well-formed
/// contract, after the new proposal with the next ID is appended, looking
/// up that ID finds exactly the new proposal.
pub proof fn lemma_created_proposal_is_found(
    before: VotingContract,
    after: VotingContract,
    proposal: Proposal,
)
    requires
        voting_wf(before),
        proposal.id == proposals_of(before).len() + 1,
        proposals_of(after) == proposals_of(before).push(proposal),
    ensures
        has_proposal(proposals_of(after), proposal.id),
        proposals_of(after)[proposal_index(proposals_of(after), proposal.id)] == proposal,
{
    let old_ps = proposals_of(before);
    let new_ps = proposals_of(after);
    let i = old_ps.len() as int;
    assert forall|j: int| 0 <= j < i implies #[trigger] new_ps[j].id != proposal.id by {
        assert(new_ps[j] == old_ps[j]);
        assert(old_ps[j].id == j + 1);
    }
    lemma_first_proposal_unique(new_ps, proposal.id, i);
}

fn find_proposal_idx(ps: &Vec<Proposal>, id: u32) -> (r: Option<usize>)
    ensures
        match r {
            Some(i) => is_first_proposal(ps@, id, i as int) && has_proposal(ps@, id)
                && proposal_index(ps@, id) == i,
            None => !has_proposal(ps@, id),
        },
{
    let mut i: usize = 0;
    while i < ps.len()
        invariant
            i <= ps.len(),
            forall|j: int| 0 <= j < i ==> #[trigger] ps@[j].id != id,
        decreases ps.len() - i,
    {
        if ps[i].id == id {
            proof {
                lemma_first_proposal_unique(ps@, id, i as int);
            }
            return Some(i);
        }
        i = i + 1;
    }
    None
}

fn ballot_has_voter(ballot: &Vec<Vote>, voter: &AccountId) -> (r: bool)
    ensures
        r == has_voted(ballot@, voter@),
{
    let mut i: usize = 0;
    while i < ballot.len()
        invariant
            i <= ballot.len(),
            forall|j: int| 0 <= j < i ==> (#[trigger] ballot@[j]).voter@ != voter@,
        decreases ballot.len() - i,
    {
        if ballot[i].voter.same_as(voter) {
            return true;
        }
        i = i + 1;
    }
    false
}

impl VotingContract {
    /// A contract whose storage is empty.
    pub fn new() -> (r: VotingContract)
        ensures
            r.admin is None,
            r.treasury is None,
            r.proposals is None,
            r.counter is None,
            r.votes@ == Map::<u32, Vec<Vote>>::empty(),
            voting_wf(r),
    {
        VotingContract {
            admin: None,
            treasury: None,
            proposals: None,
            counter: None,
            votes: HashMap::new(),
        }
    }

    /// Stores the admin and treasury and starts an empty proposal list
    /// with counter 0. Called again, it overwrites them; stored votes are
    /// left in place.
    pub fn initialize(&mut self, admin: AccountId, treasury: AccountId)
        ensures
            final(self).admin == Some(admin),
            final(self).treasury == Some(treasury),
            final(self).counter == Some(0u32),
            final(self).proposals matches Some(v) && v@.len() == 0,
            final(self).votes == old(self).votes,
            voting_wf(*final(self)),
            initialize_step(*old(self), *final(self), admin, treasury),
    {
        self.admin = Some(admin);
        self.treasury = Some(treasury);
        self.counter = Some(0);
        self.proposals = Some(Vec::new());
    }

    /// Opens a proposal at time `now`, voting for `voting_days` days, with
    /// the next ID, no votes and an empty stored ballot; returns its ID.
    pub fn create_proposal(
        &mut self,
        proposer: AccountId,
        proposal_type: ProposalType,
        title: String,
        description: String,
        voting_days: u32,
        quorum: u32,
        payload: String,
        now: u64,
    ) -> (r: Result<u32, VotingError>)
        ensures
            ({
                let refusal = create_refusal(*old(self), now, voting_days);
                match r {
                    Err(e) => refusal == Some(e) && *final(self) == *old(self),
                    Ok(id) => {
                        &&& refusal is None
                        &&& id == old(self).counter.unwrap_or(0) + 1
                        &&& final(self).counter == Some(id)
                        &&& final(self).proposals is Some
                        &&& proposals_of(*final(self)) == proposals_of(*old(self)).push(
                            Proposal {
                                id,
                                proposer,
                                proposal_type,
                                title,
                                description,
                                votes_for: 0,
                                votes_against: 0,
                                quorum,
                                deadline: voting_deadline(now, voting_days) as u64,
                                status: ProposalStatus::Active,
                                created_at: now,
                                payload,
                            },
                        )
                        &&& final(self).votes@ == old(self).votes@.insert(id, final(self).votes@[id])
                        &&& ballot_of(*final(self), id) == Seq::<Vote>::empty()
                        &&& final(self).admin == old(self).admin
                        &&& final(self).treasury == old(self).treasury
                    },
                }
            }),
            voting_wf(*old(self)) ==> voting_wf(*final(self)),
            create_step(
                *old(self),
                *final(self),
                proposer,
                proposal_type,
                title,
                description,
                voting_days,
                quorum,
                payload,
                now,
            ),
    {
        let counter: u32 = match self.counter {
            Some(c) => c,
            None => 0,
        };
        if counter == u32::MAX {
            return Err(VotingError::Overflow);
        }
        let id = counter + 1;
        let period: u64 = voting_days as u64 * SECONDS_PER_DAY;
        let deadline = match now.checked_add(period) {
            None => return Err(VotingError::Overflow),
            Some(d) => d,
        };
        let proposal = Proposal {
            id,
            proposer,
            proposal_type,
            title,
            description,
            votes_for: 0,
            votes_against: 0,
            quorum,
            deadline,
            status: ProposalStatus::Active,
            created_at: now,
            payload,
        };
        let ghost old_self = *self;
        let ghost new_proposal = proposal;
        let mut ps = match self.proposals.take() {
            Some(v) => v,
            None => Vec::new(),
        };
        ps.push(proposal);
        self.proposals = Some(ps);
        self.counter = Some(id);
        self.votes.insert(id, Vec::new());
        proof {
            assert(ballot_of(*self, id) =~= Seq::<Vote>::empty());
            if voting_wf(old_self) {
                lemma_create_keeps_wf(old_self, *self, new_proposal);
            }
        }
        Ok(id)
    }

    /// `voter` votes for (`approve`) or against proposal `proposal_id` at
    /// time `now`: the vote is added to the proposal's ballot and counted
    /// in its tally.
    pub fn vote(&mut self, voter: AccountId, proposal_id: u32, approve: bool, now: u64) -> (r:
        Result<(), VotingError>)
        ensures
            ({
                let refusal = vote_refusal(*old(self), voter, proposal_id, approve, now);
                let before = proposals_of(*old(self));
                let idx = proposal_index(before, proposal_id);
                let p = before[idx];
                match r {
                    Err(e) => refusal == Some(e) && *final(self) == *old(self),
                    Ok(()) => {
                        &&& refusal is None
                        &&& final(self).proposals is Some
                        &&& proposals_of(*final(self)) == before.update(
                            idx,
                            if approve {
                                Proposal { votes_for: (p.votes_for + 1) as u32, ..p }
                            } else {
                                Proposal { votes_against: (p.votes_against + 1) as u32, ..p }
                            },
                        )
                        &&& final(self).votes@ == old(self).votes@.insert(
                            proposal_id,
                            final(self).votes@[proposal_id],
                        )
                        &&& ballot_of(*final(self), proposal_id) == ballot_of(
                            *old(self),
                            proposal_id,
                        ).push(Vote { voter, approve })
                        &&& final(self).admin == old(self).admin
                        &&& final(self).treasury == old(self).treasury
                        &&& final(self).counter == old(self).counter
                    },
                }
            }),
            voting_wf(*old(self)) ==> voting_wf(*final(self)),
            vote_step(*old(self), *final(self), voter, proposal_id, approve, now),
    {
        let ghost voter_id = voter;
        let idx = match &self.proposals {
            None => return Err(VotingError::NotInitialized),
            Some(ps) => {
                let idx = match find_proposal_idx(ps, proposal_id) {
                    None => return Err(VotingError::ProposalNotFound),
                    Some(i) => i,
                };
                let p = &ps[idx];
                if p.status != ProposalStatus::Active {
                    return Err(VotingError::NotActive);
                }
                if now > p.deadline {
                    return Err(VotingError::VotingEnded);
                }
                let voted = match self.votes.get(&proposal_id) {
                    Some(ballot) => ballot_has_voter(ballot, &voter),
                    None => false,
                };
                if voted {
                    return Err(VotingError::AlreadyVoted);
                }
                if approve && p.votes_for == u32::MAX {
                    return Err(VotingError::Overflow);
                }
                if !approve && p.votes_against == u32::MAX {
                    return Err(VotingError::Overflow);
                }
                idx
            },
        };
        let ghost old_self = *self;
        let mut ballot = match self.votes.remove(&proposal_id) {
            Some(b) => b,
            None => Vec::new(),
        };
        let ghost old_ballot = ballot@;
        assert(old_ballot == ballot_of(old_self, proposal_id));
        ballot.push(Vote { voter, approve });
        self.votes.insert(proposal_id, ballot);
        let mut ps = self.proposals.take().unwrap();
        let mut p = ps[idx].clone();
        if approve {
            p.votes_for = p.votes_for + 1;
        } else {
            p.votes_against = p.votes_against + 1;
        }
        ps.set(idx, p);
        self.proposals = Some(ps);
        proof {
            assert(ballot_of(*self, proposal_id).drop_last() =~= old_ballot);
            assert(proposals_of(*self) =~= proposals_of(old_self).update(
                idx as int,
                with_vote(proposals_of(old_self)[idx as int], approve),
            ));
            assert(vote_refusal(old_self, voter_id, proposal_id, approve, now) is None);
            assert(proposal_index(proposals_of(old_self), proposal_id) == idx);
            assert(self.votes@ == old_self.votes@.insert(proposal_id, self.votes@[proposal_id]));
            assert(ballot_of(*self, proposal_id) == ballot_of(old_self, proposal_id).push(Vote { voter: voter_id, approve }));
            assert(vote_step(old_self, *self, voter_id, proposal_id, approve, now));
            if voting_wf(old_self) {
                lemma_vote_keeps_wf(old_self, *self, voter_id, proposal_id, approve, now);
            }
        }
        Ok(())
    }

    /// Closes proposal `proposal_id` at time `now`, after its deadline: it
    /// becomes Passed when its votes reach the quorum with more for than
    /// against, Failed otherwise. Returns the new status.
    pub fn finalize(&mut self, proposal_id: u32, now: u64) -> (r: Result<ProposalStatus, VotingError>)
        ensures
            ({
                let refusal = finalize_refusal(*old(self), proposal_id, now);
                let before = proposals_of(*old(self));
                let idx = proposal_index(before, proposal_id);
                let p = before[idx];
                match r {
                    Err(e) => refusal == Some(e) && *final(self) == *old(self),
                    Ok(status) => {
                        &&& refusal is None
                        &&& status == verdict(p)
                        &&& final(self).proposals is Some
                        &&& proposals_of(*final(self)) == before.update(
                            idx,
                            Proposal { status, ..p },
                        )
                        &&& final(self).votes == old(self).votes
                        &&& final(self).admin == old(self).admin
                        &&& final(self).treasury == old(self).treasury
                        &&& final(self).counter == old(self).counter
                    },
                }
            }),
            voting_wf(*old(self)) ==> voting_wf(*final(self)),
            finalize_step(*old(self), *final(self), proposal_id, now),
            r matches Ok(status) ==> status == proposals_of(*final(self))[proposal_index(
                proposals_of(*old(self)),
                proposal_id,
            )].status,
    {
        let (idx, status) = match &self.proposals {
            None => return Err(VotingError::NotInitialized),
            Some(ps) => {
                let idx = match find_proposal_idx(ps, proposal_id) {
                    None => return Err(VotingError::ProposalNotFound),
                    Some(i) => i,
                };
                let p = &ps[idx];
                if p.status != ProposalStatus::Active {
                    return Err(VotingError::AlreadyFinalized);
                }
                if now <= p.deadline {
                    return Err(VotingError::VotingStillActive);
                }
                let total_votes = match p.votes_for.checked_add(p.votes_against) {
                    None => return Err(VotingError::Overflow),
                    Some(t) => t,
                };
                let status = if total_votes >= p.quorum && p.votes_for > p.votes_against {
                    ProposalStatus::Passed
                } else {
                    ProposalStatus::Failed
                };
                (idx, status)
            },
        };
        let ghost old_self = *self;
        let mut ps = self.proposals.take().unwrap();
        let mut p = ps[idx].clone();
        p.status = status;
        ps.set(idx, p);
        self.proposals = Some(ps);
        proof {
            if voting_wf(old_self) {
                lemma_finalize_keeps_wf(old_self, *self, proposal_id, now);
            }
        }
        Ok(status)
    }

    /// All proposals, oldest first; empty if none were ever stored.
    pub fn get_proposals(&self) -> (r: &[Proposal])
        ensures
            r@ == proposals_of(*self),
    {
        match &self.proposals {
            Some(v) => v.as_slice(),
            None => &[],
        }
    }

    /// The votes stored for proposal `proposal_id`; empty if none were.
    pub fn get_votes(&self, proposal_id: u32) -> (r: &[Vote])
        ensures
            r@ == ballot_of(*self, proposal_id),
    {
        match self.votes.get(&proposal_id) {
            Some(v) => v.as_slice(),
            None => &[],
        }
    }
}


} // verus!
