//! Storage time-to-live settings. Instance and persistent entries expire
//! unless refreshed; every state-changing entry point refreshes the
//! instance storage, and every persistent write refreshes its entry, to
//! these values.

use vstd::prelude::*;

verus! {

/// Minimum remaining TTL (in ledgers) before storage is considered "cold".
pub const THRESHOLD_LEDGERS: u32 = 100;

/// TTL value (in ledgers) to extend storage to on each bump: one week of
/// ledgers at one ledger every five seconds.
pub const EXTEND_TO_LEDGERS: u32 = 120_960;

/// Seconds between two ledgers on the public network.
pub const LEDGER_SECONDS: u64 = 5;

/// A refresh always lifts an entry above the cold threshold, and the TTL
/// it grants lasts at least a week.
pub proof fn lemma_extension_covers_a_week()
    ensures
        1 <= THRESHOLD_LEDGERS < EXTEND_TO_LEDGERS,
        EXTEND_TO_LEDGERS * LEDGER_SECONDS >= 7 * 86_400,
{
}

} // verus!
