use coopfin::account::AccountId;
use coopfin::voting::{ProposalStatus, ProposalType, VotingContract, VotingError};

fn acct(s: &str) -> AccountId {
    AccountId::new(s.to_string())
}

fn with_proposal(quorum: u32) -> VotingContract {
    let mut c = VotingContract::new();
    c.initialize(acct("GADMIN"), acct("CTREASURY"));
    let id = c
        .create_proposal(
            acct("GALICE"),
            ProposalType::General,
            "Buy a tractor".to_string(),
            "Shared equipment".to_string(),
            7,
            quorum,
            "{}".to_string(),
            1_000,
        )
        .unwrap();
    assert_eq!(id, 1);
    c
}

#[test]
fn voting_create_proposal_records_it() {
    let c = with_proposal(3);
    let ps = c.get_proposals();
    assert_eq!(ps.len(), 1);
    let p = &ps[0];
    assert_eq!(p.id, 1);
    assert_eq!(p.proposer.as_str(), "GALICE");
    assert_eq!(p.proposal_type, ProposalType::General);
    assert_eq!(p.title, "Buy a tractor");
    assert_eq!(p.votes_for, 0);
    assert_eq!(p.votes_against, 0);
    assert_eq!(p.quorum, 3);
    assert_eq!(p.deadline, 1_000 + 7 * 86_400);
    assert_eq!(p.status, ProposalStatus::Active);
    assert_eq!(p.created_at, 1_000);
    assert_eq!(c.get_votes(1).len(), 0);
}

#[test]
fn voting_counts_votes_and_refuses_second_vote() {
    let mut c = with_proposal(3);
    assert_eq!(c.vote(acct("GA"), 1, true, 2_000), Ok(()));
    assert_eq!(c.vote(acct("GB"), 1, false, 2_000), Ok(()));
    assert_eq!(c.vote(acct("GA"), 1, false, 2_001), Err(VotingError::AlreadyVoted));
    let p = &c.get_proposals()[0];
    assert_eq!(p.votes_for, 1);
    assert_eq!(p.votes_against, 1);
    let votes = c.get_votes(1);
    assert_eq!(votes.len(), 2);
    assert_eq!(votes[0].voter.as_str(), "GA");
    assert!(votes[0].approve);
    assert!(!votes[1].approve);
}

#[test]
fn voting_deadline_is_enforced() {
    let mut c = with_proposal(1);
    let deadline = 1_000 + 7 * 86_400;
    assert_eq!(c.vote(acct("GA"), 1, true, deadline), Ok(()));
    assert_eq!(c.vote(acct("GB"), 1, true, deadline + 1), Err(VotingError::VotingEnded));
    assert_eq!(c.finalize(1, deadline), Err(VotingError::VotingStillActive));
}

#[test]
fn voting_passes_with_quorum_and_majority() {
    let mut c = with_proposal(3);
    c.vote(acct("GA"), 1, true, 2_000).unwrap();
    c.vote(acct("GB"), 1, true, 2_000).unwrap();
    c.vote(acct("GC"), 1, false, 2_000).unwrap();
    let after = 1_000 + 7 * 86_400 + 1;
    assert_eq!(c.finalize(1, after), Ok(ProposalStatus::Passed));
    assert_eq!(c.get_proposals()[0].status, ProposalStatus::Passed);
    assert_eq!(c.finalize(1, after), Err(VotingError::AlreadyFinalized));
    assert_eq!(c.vote(acct("GD"), 1, true, 2_000), Err(VotingError::NotActive));
}

#[test]
fn voting_fails_without_quorum() {
    let mut c = with_proposal(3);
    c.vote(acct("GA"), 1, true, 2_000).unwrap();
    c.vote(acct("GB"), 1, true, 2_000).unwrap();
    assert_eq!(c.finalize(1, 10_000_000), Ok(ProposalStatus::Failed));
}

#[test]
fn voting_fails_on_tie() {
    let mut c = with_proposal(2);
    c.vote(acct("GA"), 1, true, 2_000).unwrap();
    c.vote(acct("GB"), 1, false, 2_000).unwrap();
    assert_eq!(c.finalize(1, 10_000_000), Ok(ProposalStatus::Failed));
}

#[test]
fn voting_refusals_on_missing_proposal() {
    let mut c = VotingContract::new();
    assert_eq!(c.vote(acct("GA"), 1, true, 0), Err(VotingError::NotInitialized));
    assert_eq!(c.finalize(1, 0), Err(VotingError::NotInitialized));
    c.initialize(acct("GADMIN"), acct("CTREASURY"));
    assert_eq!(c.vote(acct("GA"), 1, true, 0), Err(VotingError::ProposalNotFound));
    assert_eq!(c.finalize(1, 0), Err(VotingError::ProposalNotFound));
    assert_eq!(c.get_votes(5).len(), 0);
}

#[test]
fn voting_create_overflow_refused() {
    let mut c = VotingContract::new();
    c.initialize(acct("GADMIN"), acct("CTREASURY"));
    let r = c.create_proposal(
        acct("GA"),
        ProposalType::AddMember,
        "t".to_string(),
        "d".to_string(),
        2,
        1,
        "p".to_string(),
        u64::MAX - 86_400,
    );
    assert_eq!(r, Err(VotingError::Overflow));
    assert_eq!(c.get_proposals().len(), 0);
}

#[test]
fn voting_votes_read_back_in_order() {
    let mut c = with_proposal(1);
    let voters = ["GA", "GB", "GC", "GD"];
    let choices = [true, false, false, true];
    for (v, a) in voters.iter().zip(choices.iter()) {
        c.vote(acct(v), 1, *a, 5_000).unwrap();
    }
    let votes = c.get_votes(1);
    assert_eq!(votes.len(), 4);
    for i in 0..4 {
        assert_eq!(votes[i].voter.as_str(), voters[i]);
        assert_eq!(votes[i].approve, choices[i]);
    }
    let p = &c.get_proposals()[0];
    assert_eq!(p.votes_for + p.votes_against, 4);
}
