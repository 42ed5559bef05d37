//! Group wallet: the admin registers members and withdraws funds, members
//! pay in; the wallet tracks its members and its balance.

use vstd::prelude::*;
use crate::account::AccountId;

verus! {

/// Why a wallet operation is refused.
#[derive(Clone, Copy, Debug, PartialEq, Eq, Structural)]
pub enum WalletError {
    /// The caller is not the wallet's admin.
    Unauthorized,
    /// The address is already a member.
    AlreadyMember,
    /// The caller is not a member.
    NotMember,
    /// The balance is lower than the amount asked for.
    InsufficientFunds,
    /// The balance or the member count would leave `u32`.
    Overflow,
}

/// A group wallet: its admin, its members in order of registration (a
/// member's ID is its position, counting from 1), and its balance.
pub struct GroupWallet {
    pub admin: AccountId,
    pub members: Vec<AccountId>,
    pub balance: u32,
}

/// Whether `who` is a registered member.
pub open spec fn is_member(members: Seq<AccountId>, who: Seq<char>) -> bool {
    exists|i: int| 0 <= i < members.len() && (#[trigger] members[i])@ == who
}

/// The wallet's standing invariant: no address is registered twice.
pub open spec fn wallet_wf(w: GroupWallet) -> bool {
    forall|i: int, j: int|
        0 <= i < w.members@.len() && 0 <= j < w.members@.len() && i != j ==> (
        #[trigger] w.members@[i])@ != (#[trigger] w.members@[j])@
}


/// Registration makes members: nobody is a member of a wallet without
/// members, and registering an address makes exactly that address a
/// member in addition to the existing ones.
pub proof fn lemma_membership(members: Seq<AccountId>, added: AccountId, who: Seq<char>)
    ensures
        !is_member(Seq::<AccountId>::empty(), who),
        is_member(members.push(added), who) <==> (is_member(members, who) || added@ == who),
{
    let m = members.push(added);
    if is_member(members, who) {
        let i = choose|i: int| 0 <= i < members.len() && (#[trigger] members[i])@ == who;
        assert(m[i] == members[i]);
    }
    if added@ == who {
        assert(m[members.len() as int] == added);
    }
    if is_member(m, who) {
        let i = choose|i: int| 0 <= i < m.len() && (#[trigger] m[i])@ == who;
        if i < members.len() {
            assert(m[i] == members[i]);
        }
    }
}

fn find_member(members: &Vec<AccountId>, who: &AccountId) -> (r: bool)
    ensures
        r == is_member(members@, who@),
{
    let mut i: usize = 0;
    while i < members.len()
        invariant
            i <= members.len(),
            forall|j: int| 0 <= j < i ==> (#[trigger] members@[j])@ != who@,
        decreases members.len() - i,
    {
        if members[i].same_as(who) {
            return true;
        }
        i = i + 1;
    }
    false
}

impl GroupWallet {
    /// An empty wallet administered by `admin`.
    pub fn new(admin: AccountId) -> (r: GroupWallet)
        ensures
            r.admin == admin,
            r.members@.len() == 0,
            r.balance == 0,
            wallet_wf(r),
    {
        GroupWallet { admin, members: Vec::new(), balance: 0 }
    }
}

/// The admin registers `member_address`; returns the new member's ID.
pub fn add_member(wallet: &mut GroupWallet, caller: &AccountId, member_address: AccountId) -> (r:
    Result<u32, WalletError>)
    ensures
        old(wallet).admin@ != caller@ ==> r == Err::<u32, WalletError>(WalletError::Unauthorized),
        old(wallet).admin@ == caller@ && is_member(old(wallet).members@, member_address@) ==> r
            == Err::<u32, WalletError>(WalletError::AlreadyMember),
        old(wallet).admin@ == caller@ && !is_member(old(wallet).members@, member_address@) && old(
            wallet,
        ).members@.len() >= u32::MAX ==> r == Err::<u32, WalletError>(WalletError::Overflow),
        r is Err ==> *final(wallet) == *old(wallet),
        old(wallet).admin@ == caller@ && !is_member(old(wallet).members@, member_address@) && old(
            wallet,
        ).members@.len() < u32::MAX ==> {
            &&& r == Ok::<u32, WalletError>((old(wallet).members@.len() + 1) as u32)
            &&& final(wallet).members@ == old(wallet).members@.push(member_address)
            &&& final(wallet).admin == old(wallet).admin
            &&& final(wallet).balance == old(wallet).balance
        },
        wallet_wf(*old(wallet)) ==> wallet_wf(*final(wallet)),
{
    if !wallet.admin.same_as(caller) {
        return Err(WalletError::Unauthorized);
    }
    if find_member(&wallet.members, &member_address) {
        return Err(WalletError::AlreadyMember);
    }
    if wallet.members.len() >= 0xffff_ffffusize {
        return Err(WalletError::Overflow);
    }
    let ghost before = wallet.members@;
    wallet.members.push(member_address);
    proof {
        let after = wallet.members@;
        if forall|i: int, j: int|
            0 <= i < before.len() && 0 <= j < before.len() && i != j ==> (#[trigger] before[i])@
                != (#[trigger] before[j])@ {
            assert forall|i: int, j: int|
                0 <= i < after.len() && 0 <= j < after.len() && i != j implies (
                #[trigger] after[i])@ != (#[trigger] after[j])@ by {
                if i == before.len() {
                    assert(before[j] == after[j]);
                } else if j == before.len() {
                    assert(before[i] == after[i]);
                } else {
                    assert(before[i] == after[i]);
                    assert(before[j] == after[j]);
                }
            }
        }
    }
    Ok(wallet.members.len() as u32)
}

/// A member pays `amount` into the wallet; returns the new balance.
pub fn contribute(wallet: &mut GroupWallet, caller: &AccountId, amount: u32) -> (r: Result<
    u32,
    WalletError,
>)
    ensures
        !is_member(old(wallet).members@, caller@) ==> r == Err::<u32, WalletError>(
            WalletError::NotMember,
        ),
        is_member(old(wallet).members@, caller@) && old(wallet).balance + amount > u32::MAX ==> r
            == Err::<u32, WalletError>(WalletError::Overflow),
        r is Err ==> *final(wallet) == *old(wallet),
        is_member(old(wallet).members@, caller@) && old(wallet).balance + amount <= u32::MAX ==> {
            &&& r == Ok::<u32, WalletError>((old(wallet).balance + amount) as u32)
            &&& final(wallet).balance == old(wallet).balance + amount
            &&& final(wallet).members == old(wallet).members
            &&& final(wallet).admin == old(wallet).admin
        },
{
    if !find_member(&wallet.members, caller) {
        return Err(WalletError::NotMember);
    }
    match wallet.balance.checked_add(amount) {
        None => Err(WalletError::Overflow),
        Some(b) => {
            wallet.balance = b;
            Ok(b)
        },
    }
}

/// The admin takes `amount` out of the wallet; returns the new balance.
pub fn withdraw(wallet: &mut GroupWallet, caller: &AccountId, amount: u32) -> (r: Result<
    u32,
    WalletError,
>)
    ensures
        old(wallet).admin@ != caller@ ==> r == Err::<u32, WalletError>(WalletError::Unauthorized),
        old(wallet).admin@ == caller@ && amount > old(wallet).balance ==> r == Err::<
            u32,
            WalletError,
        >(WalletError::InsufficientFunds),
        r is Err ==> *final(wallet) == *old(wallet),
        old(wallet).admin@ == caller@ && amount <= old(wallet).balance ==> {
            &&& r == Ok::<u32, WalletError>((old(wallet).balance - amount) as u32)
            &&& final(wallet).balance == old(wallet).balance - amount
            &&& final(wallet).members == old(wallet).members
            &&& final(wallet).admin == old(wallet).admin
        },
{
    if !wallet.admin.same_as(caller) {
        return Err(WalletError::Unauthorized);
    }
    if amount > wallet.balance {
        return Err(WalletError::InsufficientFunds);
    }
    wallet.balance = wallet.balance - amount;
    Ok(wallet.balance)
}

} // verus!
