use coopfin::account::AccountId;
use coopfin::treasury::{TreasuryContract, TreasuryError};

fn acct(s: &str) -> AccountId {
    AccountId::new(s.to_string())
}

#[test]
fn treasury_initialize_once() {
    let mut c = TreasuryContract::new();
    assert_eq!(c.get_state().err(), Some(TreasuryError::NotInitialized));
    assert_eq!(c.initialize(acct("GADMIN")), Ok(()));
    assert_eq!(c.initialize(acct("GOTHER")), Err(TreasuryError::AlreadyInitialized));
    let s = c.get_state().unwrap();
    assert_eq!(s.admin.as_str(), "GADMIN");
    assert_eq!(s.total_contributions, 0);
    assert_eq!(s.contribution_count, 0);
}

#[test]
fn treasury_contributions_are_recorded_in_order() {
    let mut c = TreasuryContract::new();
    c.initialize(acct("GADMIN")).unwrap();
    assert_eq!(c.contribute(acct("GALICE"), 40, 1_000), Ok(()));
    assert_eq!(c.contribute(acct("GBOB"), 60, 2_000), Ok(()));
    let s = c.get_state().unwrap();
    assert_eq!(s.total_contributions, 100);
    assert_eq!(s.contribution_count, 2);
    let first = c.get_contribution(1).unwrap();
    assert_eq!(first.contributor.as_str(), "GALICE");
    assert_eq!(first.amount, 40);
    assert_eq!(first.timestamp, 1_000);
    let second = c.get_contribution(2).unwrap();
    assert_eq!(second.contributor.as_str(), "GBOB");
    assert_eq!(second.amount, 60);
    assert_eq!(c.get_contribution(3).err(), Some(TreasuryError::NotFound));
    assert_eq!(c.get_contribution(0).err(), Some(TreasuryError::NotFound));
}

#[test]
fn treasury_refuses_non_positive_and_uninitialized() {
    let mut c = TreasuryContract::new();
    assert_eq!(c.contribute(acct("GALICE"), 5, 0), Err(TreasuryError::NotInitialized));
    c.initialize(acct("GADMIN")).unwrap();
    assert_eq!(c.contribute(acct("GALICE"), 0, 0), Err(TreasuryError::InvalidAmount));
    assert_eq!(c.contribute(acct("GALICE"), -3, 0), Err(TreasuryError::InvalidAmount));
    assert_eq!(c.get_state().unwrap().contribution_count, 0);
}
