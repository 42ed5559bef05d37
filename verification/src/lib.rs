//! Cooperative finance rules: treasury, loans, voting, governance and
//! dividends, each kept as a plain state value whose operations are
//! verified state transitions.

pub mod account;
pub mod arith;
pub mod governance;
pub mod dividend;
pub mod loan;
pub mod voting;
pub mod treasury;
pub mod wallet;
pub mod ttl;
