use coopfin::ttl::{EXTEND_TO_LEDGERS, LEDGER_SECONDS, THRESHOLD_LEDGERS};

#[test]
fn threshold_within_range() {
    assert!(THRESHOLD_LEDGERS < EXTEND_TO_LEDGERS);
    assert!(THRESHOLD_LEDGERS >= 1);
    assert!(EXTEND_TO_LEDGERS <= u32::MAX);
}

#[test]
fn extend_to_covers_minimum_one_week() {
    // 5 sec per ledger * EXTEND_TO_LEDGERS >= 7 days * 86400 sec
    assert!(EXTEND_TO_LEDGERS as u64 * 5 >= 7 * 86_400);
}

#[test]
fn extension_lasts_one_week_at_five_seconds() {
    assert_eq!(LEDGER_SECONDS, 5);
    assert_eq!(EXTEND_TO_LEDGERS as u64 * LEDGER_SECONDS, 604_800);
}
