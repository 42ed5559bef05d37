//! Cooperative rules engine: the configurable rules that the treasury,
//! loan and voting contracts defer to, changeable by the admin only.

use vstd::prelude::*;
use crate::account::{AccountId, is_admin};

verus! {

/// Storage keys of the governance contract's instance storage.
pub enum DataKey {
    /// The admin address (set at initialization).
    Admin,
    /// Address of the voting contract.
    VotingContract,
    /// Address of the loan contract.
    LoanContract,
    /// Address of the treasury contract.
    TreasuryContract,
    /// The cooperative's configurable rules.
    Rules,
}

/// Cooperative rules governing contributions, loans, and voting.
#[derive(Clone, Copy, Debug, PartialEq, Eq, Structural)]
pub struct CoopRules {
    /// Minimum contribution amount per period, in the asset's minor units.
    pub min_contribution: i128,
    /// Length of a contribution period in days.
    pub contribution_period_days: u32,
    /// Maximum loan multiplier (e.g. 3 = loan up to 3x total contributions).
    pub max_loan_multiplier: u32,
    /// Flat interest rate on loans, in basis points (e.g. 500 = 5%).
    pub loan_interest_bps: u32,
    /// Minimum number of votes required for a proposal to pass.
    pub voting_quorum: u32,
    /// Length of a voting period in days.
    pub voting_period_days: u32,
    /// Late payment penalty, in basis points (e.g. 200 = 2%).
    pub late_penalty_bps: u32,
}

/// The rules that `initialize` installs: 10 USDC (7 decimals) per 30-day
/// period, loans up to 3x contributions at 5%, quorum of 3 over a 7-day
/// vote, 2% late penalty.
pub open spec fn spec_default_rules() -> CoopRules {
    CoopRules {
        min_contribution: 100_000_000,
        contribution_period_days: 30,
        max_loan_multiplier: 3,
        loan_interest_bps: 500,
        voting_quorum: 3,
        voting_period_days: 7,
        late_penalty_bps: 200,
    }
}

impl CoopRules {
    /// The defaults for a rotating savings group (see [`spec_default_rules`]).
    pub fn cooperative_defaults() -> (r: CoopRules)
        ensures
            r == spec_default_rules(),
    {
        CoopRules {
            min_contribution: 100_000_000i128,
            contribution_period_days: 30,
            max_loan_multiplier: 3,
            loan_interest_bps: 500,
            voting_quorum: 3,
            voting_period_days: 7,
            late_penalty_bps: 200,
        }
    }
}

/// Why a governance call is refused.
#[derive(Clone, Copy, Debug, PartialEq, Eq, Structural)]
pub enum GovernanceError {
    /// The contract has no admin or no rules yet.
    NotInitialized,
    /// The caller is not the stored admin.
    Unauthorized,
}

/// The governance contract's storage: each field is one storage key,
/// `None` where the key was never written.
pub struct GovernanceContract {
    pub admin: Option<AccountId>,
    pub voting: Option<AccountId>,
    pub loan: Option<AccountId>,
    pub treasury: Option<AccountId>,
    pub rules: Option<CoopRules>,
}

/// What `get_rules` answers.
pub open spec fn current_rules(c: GovernanceContract) -> Result<CoopRules, GovernanceError> {
    match c.rules {
        Some(rules) => Ok(rules),
        None => Err(GovernanceError::NotInitialized),
    }
}

/// Which refusal `update_rules` gives, or `None` when it goes through.
pub open spec fn update_refusal(c: GovernanceContract, caller: AccountId) -> Option<GovernanceError> {
    if c.admin is None {
        Some(GovernanceError::NotInitialized)
    } else if !is_admin(c.admin, caller) {
        Some(GovernanceError::Unauthorized)
    } else {
        None
    }
}

/// The contract after `update_rules(caller, rules)`: the rules replaced
/// when the call goes through, unchanged otherwise.
pub open spec fn after_update_rules(c: GovernanceContract, caller: AccountId, rules: CoopRules) -> GovernanceContract {
    if update_refusal(c, caller) is None {
        GovernanceContract { rules: Some(rules), ..c }
    } else {
        c
    }
}

/// Rules are read back as written: after `update_rules` by the stored
/// admin, `get_rules` answers exactly the new rules; after any other
/// caller's attempt it answers what it answered before.
pub proof fn lemma_rules_read_back(c: GovernanceContract, caller: AccountId, rules: CoopRules)
    ensures
        (c.admin matches Some(a) && a@ == caller@) ==> current_rules(
            after_update_rules(c, caller, rules),
        ) == Ok::<CoopRules, GovernanceError>(rules),
        !(c.admin matches Some(a) && a@ == caller@) ==> current_rules(
            after_update_rules(c, caller, rules),
        ) == current_rules(c),
        (c.admin matches Some(a) && a@ != caller@) ==> update_refusal(c, caller) == Some(
            GovernanceError::Unauthorized,
        ),
        c.rules == Some(rules) ==> current_rules(c) == Ok::<CoopRules, GovernanceError>(rules),
{
}

impl GovernanceContract {
    /// A contract whose storage is empty.
    pub fn new() -> (r: GovernanceContract)
        ensures
            r.admin is None,
            r.voting is None,
            r.loan is None,
            r.treasury is None,
            r.rules is None,
    {
        GovernanceContract { admin: None, voting: None, loan: None, treasury: None, rules: None }
    }

    /// Stores the admin and the sibling contracts' addresses and installs
    /// the default rules. Called again, it overwrites all of them.
    pub fn initialize(
        &mut self,
        admin: AccountId,
        voting: AccountId,
        loan: AccountId,
        treasury: AccountId,
    )
        ensures
            final(self).admin == Some(admin),
            final(self).voting == Some(voting),
            final(self).loan == Some(loan),
            final(self).treasury == Some(treasury),
            final(self).rules == Some(spec_default_rules()),
    {
        self.admin = Some(admin);
        self.voting = Some(voting);
        self.loan = Some(loan);
        self.treasury = Some(treasury);
        self.rules = Some(CoopRules::cooperative_defaults());
    }

    fn require_admin(&self, caller: &AccountId) -> (r: Result<(), GovernanceError>)
        ensures
            r == (if self.admin is None {
                Err(GovernanceError::NotInitialized)
            } else if !is_admin(self.admin, *caller) {
                Err(GovernanceError::Unauthorized)
            } else {
                Ok(())
            }),
    {
        match &self.admin {
            None => Err(GovernanceError::NotInitialized),
            Some(a) => if a.same_as(caller) {
                Ok(())
            } else {
                Err(GovernanceError::Unauthorized)
            },
        }
    }

    /// Replaces the rules; only the stored admin may do so.
    pub fn update_rules(&mut self, admin: &AccountId, rules: CoopRules) -> (r: Result<
        (),
        GovernanceError,
    >)
        ensures
            match update_refusal(*old(self), *admin) {
                Some(e) => r == Err::<(), GovernanceError>(e),
                None => r is Ok,
            },
            *final(self) == after_update_rules(*old(self), *admin, rules),
    {
        match self.require_admin(admin) {
            Err(e) => Err(e),
            Ok(()) => {
                self.rules = Some(rules);
                Ok(())
            },
        }
    }

    /// The current rules.
    pub fn get_rules(&self) -> (r: Result<CoopRules, GovernanceError>)
        ensures
            r == current_rules(*self),
    {
        match self.rules {
            Some(rules) => Ok(rules),
            None => Err(GovernanceError::NotInitialized),
        }
    }
}

} // verus!
