use coopfin::account::{AccountId, Party};
use coopfin::dividend::{DividendContract, DividendError};

fn acct(s: &str) -> AccountId {
    AccountId::new(s.to_string())
}

fn contract() -> DividendContract {
    let mut c = DividendContract::new();
    c.initialize(acct("GADMIN"), acct("CASSET"), acct("CTREASURY"));
    c
}

#[test]
fn dividend_pays_proportionally_rounding_down() {
    let mut c = contract();
    let (id, transfers) = c
        .distribute(
            &acct("GADMIN"),
            vec![acct("GA"), acct("GB"), acct("GC")],
            vec![1, 2, 0],
            100,
            "Q3-2026".to_string(),
            42,
        )
        .unwrap();
    assert_eq!(id, 1);
    // 100*1/3 = 33, 100*2/3 = 66, 0 for a zero share (no transfer)
    assert_eq!(transfers.len(), 2);
    assert!(matches!(transfers[0].from, Party::CurrentContract));
    assert!(matches!(&transfers[0].to, Party::Account(a) if a.as_str() == "GA"));
    assert_eq!(transfers[0].amount, 33);
    assert!(matches!(&transfers[1].to, Party::Account(a) if a.as_str() == "GB"));
    assert_eq!(transfers[1].amount, 66);
    assert_eq!(transfers[0].asset.as_str(), "CASSET");
    let log = c.get_distributions();
    assert_eq!(log.len(), 1);
    let d = &log[0];
    assert_eq!(d.id, 1);
    assert_eq!(d.total_profit, 100);
    assert_eq!(d.total_shares, 3);
    assert_eq!(d.amounts, vec![33, 66, 0]);
    assert_eq!(d.recipients.len(), 3);
    assert_eq!(d.executed_at, 42);
    assert_eq!(d.period, "Q3-2026");
    let total: i128 = d.amounts.iter().sum();
    assert!(total <= 100);
}

#[test]
fn dividend_ids_increase_and_log_appends() {
    let mut c = contract();
    let a = c.distribute(&acct("GADMIN"), vec![acct("GA")], vec![1], 10, "p1".to_string(), 1).unwrap().0;
    let b = c.distribute(&acct("GADMIN"), vec![acct("GA")], vec![1], 20, "p2".to_string(), 2).unwrap().0;
    assert_eq!((a, b), (1, 2));
    assert_eq!(c.get_distributions()[0].period, "p1");
    assert_eq!(c.get_distributions()[1].amounts, vec![20]);
}

#[test]
fn dividend_rounds_negative_shares_down() {
    let mut c = contract();
    let (_, transfers) = c
        .distribute(&acct("GADMIN"), vec![acct("GA"), acct("GB")], vec![-1, 4], 10, "p".to_string(), 0)
        .unwrap();
    // total 3: 10*-1/3 = -3.33.. rounds down to -4 (no transfer); 10*4/3 = 13.33.. rounds down to 13
    assert_eq!(c.get_distributions()[0].amounts, vec![-4, 13]);
    assert_eq!(transfers.len(), 1);
    assert_eq!(transfers[0].amount, 13);
}

#[test]
fn dividend_negative_total_rounds_down() {
    let mut c = contract();
    c.distribute(&acct("GADMIN"), vec![acct("GA"), acct("GB")], vec![1, -3], 10, "p".to_string(), 0)
        .unwrap();
    // total -2: 10*1/-2 = -5 exactly; 10*-3/-2 = 15 exactly
    assert_eq!(c.get_distributions()[0].amounts, vec![-5, 15]);
    let mut d = contract();
    d.distribute(&acct("GADMIN"), vec![acct("GA"), acct("GB")], vec![1, -4], 10, "p".to_string(), 0)
        .unwrap();
    // total -3: 10*1/-3 = -3.33.. rounds down to -4; 10*-4/-3 = 13.33.. rounds down to 13
    assert_eq!(d.get_distributions()[0].amounts, vec![-4, 13]);
}

#[test]
fn dividend_scaling_shares_keeps_payouts() {
    let mut c = contract();
    c.distribute(&acct("GADMIN"), vec![acct("GA"), acct("GB"), acct("GC")], vec![1, 2, 4], 100, "a".to_string(), 0)
        .unwrap();
    c.distribute(&acct("GADMIN"), vec![acct("GA"), acct("GB"), acct("GC")], vec![3, 6, 12], 100, "b".to_string(), 0)
        .unwrap();
    let log = c.get_distributions();
    assert_eq!(log[0].amounts, vec![14, 28, 57]);
    assert_eq!(log[0].amounts, log[1].amounts);
    assert_eq!(log[1].total_shares, 3 * log[0].total_shares);
}

#[test]
fn dividend_refusals() {
    let mut c = contract();
    let admin = acct("GADMIN");
    assert_eq!(
        c.distribute(&acct("GX"), vec![acct("GA")], vec![1], 10, "p".to_string(), 0).err(),
        Some(DividendError::Unauthorized)
    );
    assert_eq!(
        c.distribute(&admin, vec![acct("GA")], vec![1, 2], 10, "p".to_string(), 0).err(),
        Some(DividendError::LengthMismatch)
    );
    assert_eq!(
        c.distribute(&admin, vec![acct("GA")], vec![1], 0, "p".to_string(), 0).err(),
        Some(DividendError::NonPositiveProfit)
    );
    assert_eq!(
        c.distribute(&admin, vec![acct("GA"), acct("GB")], vec![1, -1], 10, "p".to_string(), 0).err(),
        Some(DividendError::ZeroTotalShares)
    );
    assert_eq!(
        c.distribute(&admin, vec![acct("GA"), acct("GB")], vec![i128::MAX, 1], 10, "p".to_string(), 0).err(),
        Some(DividendError::Overflow)
    );
    assert_eq!(
        c.distribute(&admin, vec![acct("GA")], vec![i128::MAX], 10, "p".to_string(), 0).err(),
        Some(DividendError::Overflow)
    );
    let mut fresh = DividendContract::new();
    assert_eq!(
        fresh.distribute(&admin, vec![acct("GA")], vec![1], 10, "p".to_string(), 0).err(),
        Some(DividendError::NotInitialized)
    );
    assert_eq!(c.get_distributions().len(), 0);
}
