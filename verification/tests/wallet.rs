use coopfin::account::AccountId;
use coopfin::wallet::{add_member, contribute, withdraw, GroupWallet, WalletError};

fn acct(s: &str) -> AccountId {
    AccountId::new(s.to_string())
}

#[test]
fn wallet_members_get_increasing_ids() {
    let mut w = GroupWallet::new(acct("GADMIN"));
    assert_eq!(add_member(&mut w, &acct("GADMIN"), acct("GALICE")), Ok(1));
    assert_eq!(add_member(&mut w, &acct("GADMIN"), acct("GBOB")), Ok(2));
    assert_eq!(w.members.len(), 2);
}

#[test]
fn wallet_refuses_duplicate_member() {
    let mut w = GroupWallet::new(acct("GADMIN"));
    add_member(&mut w, &acct("GADMIN"), acct("GALICE")).unwrap();
    assert_eq!(add_member(&mut w, &acct("GADMIN"), acct("GALICE")), Err(WalletError::AlreadyMember));
    assert_eq!(w.members.len(), 1);
}

#[test]
fn wallet_only_admin_adds_members() {
    let mut w = GroupWallet::new(acct("GADMIN"));
    assert_eq!(add_member(&mut w, &acct("GALICE"), acct("GBOB")), Err(WalletError::Unauthorized));
}

#[test]
fn wallet_contribute_then_withdraw_restores_balance() {
    let mut w = GroupWallet::new(acct("GADMIN"));
    add_member(&mut w, &acct("GADMIN"), acct("GALICE")).unwrap();
    assert_eq!(contribute(&mut w, &acct("GALICE"), 70), Ok(70));
    assert_eq!(contribute(&mut w, &acct("GALICE"), 30), Ok(100));
    assert_eq!(withdraw(&mut w, &acct("GADMIN"), 30), Ok(70));
    assert_eq!(w.balance, 70);
}

#[test]
fn wallet_non_member_cannot_contribute() {
    let mut w = GroupWallet::new(acct("GADMIN"));
    assert_eq!(contribute(&mut w, &acct("GBOB"), 10), Err(WalletError::NotMember));
    assert_eq!(w.balance, 0);
}

#[test]
fn wallet_withdraw_checks_balance_and_admin() {
    let mut w = GroupWallet::new(acct("GADMIN"));
    add_member(&mut w, &acct("GADMIN"), acct("GALICE")).unwrap();
    contribute(&mut w, &acct("GALICE"), 10).unwrap();
    assert_eq!(withdraw(&mut w, &acct("GADMIN"), 11), Err(WalletError::InsufficientFunds));
    assert_eq!(withdraw(&mut w, &acct("GALICE"), 1), Err(WalletError::Unauthorized));
    assert_eq!(withdraw(&mut w, &acct("GADMIN"), 10), Ok(0));
}

#[test]
fn wallet_balance_overflow_refused() {
    let mut w = GroupWallet::new(acct("GADMIN"));
    add_member(&mut w, &acct("GADMIN"), acct("GALICE")).unwrap();
    contribute(&mut w, &acct("GALICE"), u32::MAX).unwrap();
    assert_eq!(contribute(&mut w, &acct("GALICE"), 1), Err(WalletError::Overflow));
    assert_eq!(w.balance, u32::MAX);
}
