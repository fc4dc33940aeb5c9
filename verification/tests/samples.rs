use lib::accounting::{accounting_master_pipeline, PipelineOutcome};
use lib::samples::{entry, get_imperfect_journal, get_perfect_journal};

#[test]
fn imperfect_journal_is_invalid() {
    let j = get_imperfect_journal();
    assert_eq!(j.0.len(), 25);
    assert_eq!(j.0[24].date, "25-04-2027");
    assert_eq!(j.0[24].debits[0].amount, 5000);
    assert_eq!(j.0[24].credits[0].amount, 4500);
    assert!(!j.0[24].check_match());
    assert!(j.0[..24].iter().all(|e| e.check_match()));
    assert!(!j.validate_journal());
    assert!(matches!(accounting_master_pipeline(&j), PipelineOutcome::InvalidJournal));
}

#[test]
fn perfect_journal_entries() {
    let j = get_perfect_journal();
    assert_eq!(j.0.len(), 70);
    assert_eq!(j.0[0].debits[0].name, "Cash");
    assert_eq!(j.0[0].credits[0].name, "Capital");
    assert_eq!(j.0[0].debits[0].amount, 100000);
    // i = 1: day 2 of April, a cash sale
    assert_eq!(j.0[2].date, "02-04-2027");
    assert_eq!(j.0[2].debits[0].name, "Cash");
    assert_eq!(j.0[2].credits[0].name, "Sales");
    assert_eq!(j.0[2].debits[0].amount, 2500);
    assert_eq!(j.0[2].narration, "Routine cash sale");
    // i = 28: day 1 of May, a cash purchase
    assert_eq!(j.0[29].date, "01-05-2027");
    assert_eq!(j.0[29].debits[0].name, "Purchases");
    // i = 68: day 13 of June, a cash purchase
    assert_eq!(j.0[69].date, "13-06-2027");
    assert_eq!(j.0[69].debits[0].name, "Purchases");
    assert_eq!(j.0[69].credits[0].name, "Cash");
    assert_eq!(j.0[69].credits[0].amount, 1500);
    // i = 3: a salary payment from the bank
    assert_eq!(j.0[4].debits[0].name, "Salaries");
    assert_eq!(j.0[4].credits[0].name, "Bank");
    assert_eq!(j.0[4].credits[0].amount, 3000);
    assert!(j.validate_journal());
}

#[test]
fn perfect_journal_trial_balance_balances() {
    let j = get_perfect_journal();
    match accounting_master_pipeline(&j) {
        PipelineOutcome::Books(ledgers, tb) => {
            assert_eq!(ledgers.len(), 7);
            assert!(tb.is_balanced);
            assert_eq!(tb.debits_total, tb.credits_total);
        },
        _ => panic!("expected books"),
    }
}

#[test]
fn entry_builds_one_line_each_side() {
    let e = entry("05-05-2025", "Cash", 10, "Sales", 12, "x");
    assert_eq!(e.debits.len(), 1);
    assert_eq!(e.credits.len(), 1);
    assert_eq!(e.debits[0].amount, 10);
    assert_eq!(e.credits[0].amount, 12);
    assert_eq!(e.narration, "x");
}
