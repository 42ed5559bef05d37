use coopfin::account::AccountId;
use coopfin::governance::{CoopRules, GovernanceContract, GovernanceError};

fn acct(s: &str) -> AccountId {
    AccountId::new(s.to_string())
}

fn initialized() -> GovernanceContract {
    let mut c = GovernanceContract::new();
    c.initialize(acct("GADMIN"), acct("CVOTING"), acct("CLOAN"), acct("CTREASURY"));
    c
}

#[test]
fn governance_initialize_installs_defaults() {
    let c = initialized();
    let rules = c.get_rules().unwrap();
    assert_eq!(rules.min_contribution, 100_000_000);
    assert_eq!(rules.contribution_period_days, 30);
    assert_eq!(rules.max_loan_multiplier, 3);
    assert_eq!(rules.loan_interest_bps, 500);
    assert_eq!(rules.voting_quorum, 3);
    assert_eq!(rules.voting_period_days, 7);
    assert_eq!(rules.late_penalty_bps, 200);
    assert_eq!(c.voting.as_ref().unwrap().as_str(), "CVOTING");
    assert_eq!(c.loan.as_ref().unwrap().as_str(), "CLOAN");
    assert_eq!(c.treasury.as_ref().unwrap().as_str(), "CTREASURY");
}

#[test]
fn governance_rules_read_back_after_update() {
    let mut c = initialized();
    let rules = CoopRules {
        min_contribution: 5,
        contribution_period_days: 14,
        max_loan_multiplier: 2,
        loan_interest_bps: 750,
        voting_quorum: 5,
        voting_period_days: 3,
        late_penalty_bps: 100,
    };
    assert_eq!(c.update_rules(&acct("GADMIN"), rules), Ok(()));
    assert_eq!(c.get_rules(), Ok(rules));
}

#[test]
fn governance_non_admin_cannot_update() {
    let mut c = initialized();
    let mut rules = CoopRules::cooperative_defaults();
    rules.voting_quorum = 1;
    assert_eq!(c.update_rules(&acct("GMALLORY"), rules), Err(GovernanceError::Unauthorized));
    assert_eq!(c.get_rules(), Ok(CoopRules::cooperative_defaults()));
}

#[test]
fn governance_uninitialized_refuses() {
    let mut c = GovernanceContract::new();
    assert_eq!(c.get_rules(), Err(GovernanceError::NotInitialized));
    assert_eq!(
        c.update_rules(&acct("GADMIN"), CoopRules::cooperative_defaults()),
        Err(GovernanceError::NotInitialized)
    );
}
