use coopfin::account::{AccountId, Party};
use coopfin::loan::{LoanContract, LoanError, LoanStatus};

fn acct(s: &str) -> AccountId {
    AccountId::new(s.to_string())
}

fn book() -> LoanContract {
    let mut c = LoanContract::new();
    c.initialize(acct("GADMIN"), acct("CTREASURY"), acct("CASSET")).unwrap();
    c
}

#[test]
fn loan_initialize_only_once() {
    let mut c = book();
    assert_eq!(c.initialize(acct("GX"), acct("GY"), acct("GZ")), Err(LoanError::AlreadyInitialized));
    assert_eq!(c.admin.as_ref().unwrap().as_str(), "GADMIN");
}

#[test]
fn loan_request_records_pending_loan() {
    let mut c = book();
    let id = c.request_loan(acct("GALICE"), 1_000, "seeds".to_string(), 30, 5_000).unwrap();
    assert_eq!(id, 1);
    let loan = c.get_loan(1).unwrap();
    assert_eq!(loan.id, 1);
    assert_eq!(loan.borrower.as_str(), "GALICE");
    assert_eq!(loan.amount, 1_000);
    assert_eq!(loan.interest_bps, 500);
    assert_eq!(loan.repayment_due, 5_000 + 30 * 86_400);
    assert_eq!(loan.amount_repaid, 0);
    assert_eq!(loan.status, LoanStatus::Pending);
    assert_eq!(loan.purpose, "seeds");
    assert_eq!(loan.requested_at, 5_000);
    assert_eq!(loan.approved_at, 0);
    assert_eq!(c.request_loan(acct("GBOB"), 5, "tools".to_string(), 1, 0), Ok(2));
    assert_eq!(c.get_loans().len(), 2);
}

#[test]
fn loan_request_refuses_non_positive_amount() {
    let mut c = book();
    assert_eq!(c.request_loan(acct("GALICE"), 0, "x".to_string(), 1, 0), Err(LoanError::NonPositiveAmount));
    assert_eq!(c.request_loan(acct("GALICE"), -1, "x".to_string(), 1, 0), Err(LoanError::NonPositiveAmount));
    assert_eq!(c.get_loans().len(), 0);
}

#[test]
fn loan_request_overflowing_due_date_refused() {
    let mut c = book();
    assert_eq!(
        c.request_loan(acct("GALICE"), 10, "x".to_string(), 1, u64::MAX - 86_399),
        Err(LoanError::Overflow)
    );
    let mut d = book();
    d.counter = Some(u32::MAX);
    assert_eq!(d.request_loan(acct("GALICE"), 10, "x".to_string(), 1, 0), Err(LoanError::Overflow));
}

#[test]
fn loan_request_works_before_initialize() {
    let mut c = LoanContract::new();
    assert_eq!(c.request_loan(acct("GALICE"), 10, "x".to_string(), 1, 0), Ok(1));
    assert_eq!(c.counter, Some(1));
}

#[test]
fn loan_approve_disburses_principal() {
    let mut c = book();
    c.request_loan(acct("GALICE"), 1_000, "seeds".to_string(), 30, 0).unwrap();
    let t = c.approve_loan(&acct("GADMIN"), 1, 777).unwrap();
    assert_eq!(t.asset.as_str(), "CASSET");
    assert!(matches!(t.from, Party::CurrentContract));
    assert!(matches!(&t.to, Party::Account(a) if a.as_str() == "GALICE"));
    assert_eq!(t.amount, 1_000);
    let loan = c.get_loan(1).unwrap();
    assert_eq!(loan.status, LoanStatus::Approved);
    assert_eq!(loan.approved_at, 777);
    assert_eq!(c.approve_loan(&acct("GADMIN"), 1, 800).err(), Some(LoanError::NotPending));
}

#[test]
fn loan_approve_refusals() {
    let mut c = book();
    c.request_loan(acct("GALICE"), 1_000, "seeds".to_string(), 30, 0).unwrap();
    assert_eq!(c.approve_loan(&acct("GALICE"), 1, 0).err(), Some(LoanError::Unauthorized));
    assert_eq!(c.approve_loan(&acct("GADMIN"), 9, 0).err(), Some(LoanError::LoanNotFound));
    let mut fresh = LoanContract::new();
    assert_eq!(fresh.approve_loan(&acct("GADMIN"), 1, 0).err(), Some(LoanError::NotInitialized));
    assert_eq!(c.get_loan(1).unwrap().status, LoanStatus::Pending);
}

#[test]
fn loan_repay_until_total_due() {
    let mut c = book();
    c.request_loan(acct("GALICE"), 1_000, "seeds".to_string(), 30, 0).unwrap();
    c.approve_loan(&acct("GADMIN"), 1, 0).unwrap();
    let (t, status) = c.repay(&acct("GALICE"), 1, 600).unwrap();
    assert_eq!(status, LoanStatus::Approved);
    assert!(matches!(&t.from, Party::Account(a) if a.as_str() == "GALICE"));
    assert!(matches!(t.to, Party::CurrentContract));
    assert_eq!(t.amount, 600);
    assert_eq!(t.asset.as_str(), "CASSET");
    // total due: 1000 + 1000 * 500 / 10000 = 1050
    let (_, status) = c.repay(&acct("GALICE"), 1, 449).unwrap();
    assert_eq!(status, LoanStatus::Approved);
    let (_, status) = c.repay(&acct("GALICE"), 1, 1).unwrap();
    assert_eq!(status, LoanStatus::Repaid);
    let loan = c.get_loan(1).unwrap();
    assert_eq!(loan.amount_repaid, 1_050);
    assert_eq!(loan.status, LoanStatus::Repaid);
    assert_eq!(c.repay(&acct("GALICE"), 1, 1).err(), Some(LoanError::NotActive));
}

#[test]
fn loan_repay_refusals() {
    let mut c = book();
    c.request_loan(acct("GALICE"), 1_000, "seeds".to_string(), 30, 0).unwrap();
    assert_eq!(c.repay(&acct("GALICE"), 1, 10).err(), Some(LoanError::NotActive));
    c.approve_loan(&acct("GADMIN"), 1, 0).unwrap();
    assert_eq!(c.repay(&acct("GBOB"), 1, 10).err(), Some(LoanError::NotBorrower));
    assert_eq!(c.repay(&acct("GALICE"), 2, 10).err(), Some(LoanError::LoanNotFound));
    let mut fresh = LoanContract::new();
    assert_eq!(fresh.repay(&acct("GALICE"), 1, 10).err(), Some(LoanError::NotInitialized));
    assert_eq!(c.get_loan(1).unwrap().amount_repaid, 0);
}

#[test]
fn loan_lookup_errors() {
    let c = LoanContract::new();
    assert_eq!(c.get_loan(1).err(), Some(LoanError::NotInitialized));
    assert_eq!(c.get_loans().len(), 0);
    let b = book();
    assert_eq!(b.get_loan(1).err(), Some(LoanError::LoanNotFound));
}

#[test]
fn loan_worked_repayment_example() {
    let mut c = book();
    assert_eq!(c.request_loan(acct("GB"), 1_000, "seed".to_string(), 30, 0), Ok(1));
    c.approve_loan(&acct("GADMIN"), 1, 0).unwrap();
    let (_, status) = c.repay(&acct("GB"), 1, 1_049).unwrap();
    assert_eq!(status, LoanStatus::Approved);
    assert_eq!(c.get_loan(1).unwrap().amount_repaid, 1_049);
    let (_, status) = c.repay(&acct("GB"), 1, 1).unwrap();
    assert_eq!(status, LoanStatus::Repaid);
    assert_eq!(c.get_loan(1).unwrap().amount_repaid, 1_050);
    assert_eq!(c.approve_loan(&acct("GADMIN"), 1, 0).err(), Some(LoanError::NotPending));
    assert_eq!(c.repay(&acct("GB"), 1, 5).err(), Some(LoanError::NotActive));
}

#[test]
fn loan_approval_changes_only_its_loan() {
    let mut c = book();
    c.request_loan(acct("GA"), 10, "a".to_string(), 1, 0).unwrap();
    c.request_loan(acct("GB"), 20, "b".to_string(), 1, 0).unwrap();
    c.approve_loan(&acct("GADMIN"), 2, 9).unwrap();
    assert_eq!(c.get_loan(1).unwrap().status, LoanStatus::Pending);
    assert_eq!(c.get_loan(2).unwrap().status, LoanStatus::Approved);
    assert_eq!(c.repay(&acct("GA"), 1, 10).err(), Some(LoanError::NotActive));
}
