//! Account identities and the token movements an operation asks for.

use vstd::prelude::*;

verus! {

/// An on-chain address, held as its strkey text (`G...` for accounts,
/// `C...` for contracts). Two identities are the same address exactly
/// when their texts are equal.
pub struct AccountId {
    pub strkey: String,
}

impl View for AccountId {
    type V = Seq<char>;

    open spec fn view(&self) -> Seq<char> {
        self.strkey@
    }
}

impl AccountId {
    pub fn new(strkey: String) -> (r: AccountId)
        ensures
            r.strkey == strkey,
            r@ == strkey@,
    {
        AccountId { strkey }
    }

    /// Whether both identities denote the same address.
    pub fn same_as(&self, other: &AccountId) -> (r: bool)
        ensures
            r == (self@ == other@),
    {
        self.strkey == other.strkey
    }

    /// The strkey text of the address.
    pub fn as_str(&self) -> (r: &str)
        ensures
            r@ == self@,
    {
        self.strkey.as_str()
    }
}

impl Clone for AccountId {
    fn clone(&self) -> (r: AccountId)
        ensures
            r == *self,
    {
        AccountId { strkey: self.strkey.clone() }
    }
}

/// Whether `caller` is the stored admin.
pub open spec fn is_admin(admin: Option<AccountId>, caller: AccountId) -> bool {
    admin matches Some(a) && a@ == caller@
}

/// One side of a token transfer: the contract that runs the operation,
/// or an outside account.
pub enum Party {
    CurrentContract,
    Account(AccountId),
}

/// A token transfer that an operation asks the host to carry out, in the
/// token contract `asset`, of `amount` minor units from `from` to `to`.
pub struct TokenTransfer {
    pub asset: AccountId,
    pub from: Party,
    pub to: Party,
    pub amount: i128,
}

} // verus!
