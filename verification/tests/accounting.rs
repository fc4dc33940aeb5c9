use lib::accounting::{
    accounting_master_pipeline, checked_total_items, checked_total_postings,
    generate_trial_balance, try_generate_trial_balance, EntryItem, Journal, JournalEntry, Ledger,
    LedgerBalance, LedgerItem, PipelineOutcome,
};

fn item(name: &str, amount: i32) -> EntryItem {
    EntryItem { name: name.to_string(), amount }
}

fn je(date: &str, debits: Vec<EntryItem>, credits: Vec<EntryItem>) -> JournalEntry {
    JournalEntry { date: date.to_string(), debits, credits, narration: "n".to_string() }
}

fn simple(date: &str, d: &str, c: &str, amount: i32) -> JournalEntry {
    je(date, vec![item(d, amount)], vec![item(c, amount)])
}

fn ledger(name: &str, balance: LedgerBalance) -> Ledger {
    Ledger { name: name.to_string(), debits: vec![], credits: vec![], balance }
}

#[test]
fn check_match_balanced_entry() {
    let e = je("01-01-2020", vec![item("A", 30), item("B", 20)], vec![item("C", 50)]);
    assert!(e.check_match());
}

#[test]
fn check_match_unbalanced_entry() {
    let e = je("01-01-2020", vec![item("A", 30)], vec![item("C", 29)]);
    assert!(!e.check_match());
}

#[test]
fn check_match_empty_sides_balance() {
    let e = je("01-01-2020", vec![], vec![]);
    assert!(e.check_match());
}

#[test]
fn checked_total_sums_and_overflow() {
    assert_eq!(checked_total_items(&vec![item("A", 1), item("B", -5), item("C", 10)]), Some(6));
    assert_eq!(checked_total_items(&vec![]), Some(0));
    assert_eq!(checked_total_items(&vec![item("A", i32::MAX), item("B", 1)]), None);
    // a running total that leaves i32 overflows even if the final sum would fit
    assert_eq!(checked_total_items(&vec![item("A", i32::MAX), item("B", 1), item("C", -2)]), None);
    assert_eq!(checked_total_items(&vec![item("A", i32::MIN), item("B", -1)]), None);
    let posts = vec![
        LedgerItem { date: "d".to_string(), account: "X".to_string(), amount: 7 },
        LedgerItem { date: "d".to_string(), account: "Y".to_string(), amount: 8 },
    ];
    assert_eq!(checked_total_postings(&posts), Some(15));
}

#[test]
fn validate_journal_all_balanced() {
    let j = Journal(vec![simple("1", "Cash", "Capital", 100), simple("2", "Bank", "Cash", 40)]);
    assert!(j.validate_journal());
    assert_eq!(j.try_validate_journal(), Some(true));
}

#[test]
fn validate_journal_one_unbalanced() {
    let j = Journal(vec![
        simple("1", "Cash", "Capital", 100),
        je("2", vec![item("Bank", 40)], vec![item("Cash", 41)]),
    ]);
    assert!(!j.validate_journal());
}

#[test]
fn validate_journal_empty_is_valid() {
    assert!(Journal(vec![]).validate_journal());
}

#[test]
fn try_validate_stops_at_first_unbalanced_entry() {
    // the overflowing entry comes after an unbalanced one and is never summed
    let j = Journal(vec![
        je("1", vec![item("A", 1)], vec![item("B", 2)]),
        je("2", vec![item("A", i32::MAX), item("A", 1)], vec![item("B", 2)]),
    ]);
    assert_eq!(j.try_validate_journal(), Some(false));
    let k = Journal(vec![
        simple("1", "A", "B", 5),
        je("2", vec![item("A", i32::MAX), item("A", 1)], vec![item("B", 2)]),
    ]);
    assert_eq!(k.try_validate_journal(), None);
}

#[test]
fn tokenize_entries_first_occurrence_order_without_repeats() {
    let j = Journal(vec![
        simple("1", "Cash", "Capital", 100),
        simple("2", "Bank", "Cash", 40),
        je("3", vec![item("Rent", 5), item("Bank", 1)], vec![item("Cash", 6)]),
    ]);
    let names = j.tokenize_entries();
    assert_eq!(names, vec!["Cash", "Capital", "Bank", "Rent"]);
}

#[test]
fn tokenize_entries_empty_journal() {
    assert!(Journal(vec![]).tokenize_entries().is_empty());
}

#[test]
fn generate_ledger_debit_balance() {
    let j = Journal(vec![
        simple("01-04-2027", "Cash", "Capital", 100),
        simple("02-04-2027", "Bank", "Cash", 40),
        simple("03-04-2027", "Cash", "Sales", 15),
    ]);
    let l = j.generate_ledger("Cash");
    assert_eq!(l.name, "Cash");
    assert_eq!(l.debits.len(), 2);
    assert_eq!(l.debits[0].date, "01-04-2027");
    assert_eq!(l.debits[0].account, "Capital");
    assert_eq!(l.debits[0].amount, 100);
    assert_eq!(l.debits[1].account, "Sales");
    assert_eq!(l.debits[1].amount, 15);
    assert_eq!(l.credits.len(), 1);
    assert_eq!(l.credits[0].date, "02-04-2027");
    assert_eq!(l.credits[0].account, "Bank");
    assert_eq!(l.credits[0].amount, 40);
    assert_eq!(l.balance, LedgerBalance::DEBIT(75));
}

#[test]
fn generate_ledger_credit_and_nil_balance() {
    let j = Journal(vec![simple("1", "Cash", "Capital", 100), simple("2", "Capital", "Cash", 100)]);
    assert_eq!(j.generate_ledger("Capital").balance, LedgerBalance::NIL);
    let k = Journal(vec![simple("1", "Cash", "Capital", 100)]);
    assert_eq!(k.generate_ledger("Capital").balance, LedgerBalance::CREDIT(100));
    let absent = k.generate_ledger("Nobody");
    assert_eq!(absent.name, "Nobody");
    assert!(absent.debits.is_empty() && absent.credits.is_empty());
    assert_eq!(absent.balance, LedgerBalance::NIL);
}

#[test]
fn generate_ledger_posts_against_first_line_only() {
    let j = Journal(vec![je(
        "1",
        vec![item("A", 100), item("B", 50)],
        vec![item("C", 120), item("D", 30)],
    )]);
    let a = j.generate_ledger("A");
    assert_eq!(a.debits.len(), 1);
    assert_eq!(a.debits[0].account, "C");
    assert_eq!(a.debits[0].amount, 120);
    assert_eq!(a.balance, LedgerBalance::DEBIT(120));
    let d = j.generate_ledger("D");
    assert_eq!(d.credits[0].account, "A");
    assert_eq!(d.balance, LedgerBalance::CREDIT(100));
}

#[test]
fn generate_ledger_account_listed_twice_posts_once() {
    let j = Journal(vec![je("1", vec![item("A", 10), item("A", 10)], vec![item("B", 20)])]);
    let a = j.generate_ledger("A");
    assert_eq!(a.debits.len(), 1);
    assert_eq!(a.balance, LedgerBalance::DEBIT(20));
}

#[test]
fn try_generate_ledger_overflow() {
    let j = Journal(vec![simple("1", "A", "B", i32::MAX), simple("2", "A", "C", 1)]);
    assert!(j.try_generate_ledger("A").is_none());
    assert!(j.try_generate_ledger("B").is_some());
    // a net of i32::MIN has no magnitude in i32
    let k = Journal(vec![simple("1", "A", "B", i32::MIN)]);
    assert!(k.try_generate_ledger("A").is_none());
    assert!(k.try_generate_ledger("B").is_none());
}

#[test]
fn generate_trial_balance_columns() {
    let ls = vec![
        ledger("Cash", LedgerBalance::DEBIT(75)),
        ledger("Capital", LedgerBalance::CREDIT(100)),
        ledger("Bank", LedgerBalance::DEBIT(40)),
        ledger("Sales", LedgerBalance::CREDIT(15)),
        ledger("Nil", LedgerBalance::NIL),
    ];
    let tb = generate_trial_balance(&ls);
    assert_eq!(tb.heading, "TRIAL_BALANCE");
    assert_eq!(tb.date, "31-03-2027");
    assert_eq!(tb.debits.len(), 2);
    assert_eq!(tb.debits[0].name, "Cash");
    assert_eq!(tb.debits[1].name, "Bank");
    assert_eq!(tb.debits_total, 115);
    assert_eq!(tb.credits.len(), 2);
    assert_eq!(tb.credits[0].name, "Capital");
    assert_eq!(tb.credits_total, 115);
    assert!(tb.is_balanced);
}

#[test]
fn generate_trial_balance_unbalanced_and_overflow() {
    let ls = vec![ledger("A", LedgerBalance::DEBIT(5)), ledger("B", LedgerBalance::CREDIT(4))];
    let tb = generate_trial_balance(&ls);
    assert!(!tb.is_balanced);
    let big = vec![ledger("A", LedgerBalance::DEBIT(i32::MAX)), ledger("B", LedgerBalance::DEBIT(1))];
    assert!(try_generate_trial_balance(&big).is_none());
    let empty = generate_trial_balance(&vec![]);
    assert_eq!(empty.debits_total, 0);
    assert!(empty.is_balanced);
}

#[test]
fn pipeline_invalid_journal() {
    let j = Journal(vec![je("1", vec![item("A", 2)], vec![item("B", 3)])]);
    assert!(matches!(accounting_master_pipeline(&j), PipelineOutcome::InvalidJournal));
}

#[test]
fn pipeline_books_for_valid_journal() {
    let j = Journal(vec![
        simple("1", "Cash", "Capital", 100),
        simple("2", "Bank", "Cash", 40),
        simple("3", "Rent", "Bank", 10),
    ]);
    match accounting_master_pipeline(&j) {
        PipelineOutcome::Books(ledgers, tb) => {
            let names: Vec<&str> = ledgers.iter().map(|l| l.name.as_str()).collect();
            assert_eq!(names, vec!["Cash", "Capital", "Bank", "Rent"]);
            assert_eq!(ledgers[0].balance, LedgerBalance::DEBIT(60));
            assert_eq!(ledgers[1].balance, LedgerBalance::CREDIT(100));
            assert_eq!(ledgers[2].balance, LedgerBalance::DEBIT(30));
            assert_eq!(ledgers[3].balance, LedgerBalance::DEBIT(10));
            assert_eq!(tb.debits_total, 100);
            assert_eq!(tb.credits_total, 100);
            assert!(tb.is_balanced);
        },
        _ => panic!("expected books"),
    }
}

#[test]
fn pipeline_overflow() {
    let j = Journal(vec![simple("1", "A", "B", i32::MAX), simple("2", "A", "C", 1)]);
    assert!(matches!(accounting_master_pipeline(&j), PipelineOutcome::Overflow));
}

#[test]
fn pipeline_multi_line_entry_can_leave_trial_balance_unbalanced() {
    // only the first line of the other side is posted, so a valid journal
    // with a split entry need not balance
    let j = Journal(vec![je("1", vec![item("A", 100), item("B", 50)], vec![item("C", 150)])]);
    match accounting_master_pipeline(&j) {
        PipelineOutcome::Books(_, tb) => {
            assert_eq!(tb.debits_total, 300);
            assert_eq!(tb.credits_total, 100);
            assert!(!tb.is_balanced);
        },
        _ => panic!("expected books"),
    }
}

#[test]
fn amount_error_report_values() {
    let e = je("12-07-2007", vec![item("A", 30)], vec![item("B", 25)]);
    let r = e.amount_error_report().unwrap();
    assert_eq!(r.human_date, "12th July 2007");
    assert_eq!(r.debits_total, 30);
    assert_eq!(r.credits_total, 25);
    assert_eq!(r.difference, 5);
    let zero_month = je("12-00-2007", vec![item("A", 30)], vec![item("B", 25)]);
    assert!(zero_month.amount_error_report().is_none());
    let wide = je("1-1-1", vec![item("A", i32::MIN)], vec![item("B", 1)]);
    assert!(wide.amount_error_report().is_none());
}

#[test]
fn same_account_on_both_sides_still_balances() {
    let j = Journal(vec![simple("1", "Cash", "Cash", 70), simple("2", "Bank", "Cash", 5)]);
    match accounting_master_pipeline(&j) {
        PipelineOutcome::Books(ledgers, tb) => {
            assert_eq!(ledgers[0].balance, LedgerBalance::CREDIT(5));
            assert!(tb.is_balanced);
        },
        _ => panic!("expected books"),
    }
}

#[test]
fn trial_balance_ignores_ledger_order() {
    let j = Journal(vec![
        simple("1", "Cash", "Capital", 100),
        simple("2", "Bank", "Cash", 40),
        simple("3", "Rent", "Bank", 10),
    ]);
    let mut names = j.tokenize_entries();
    names.reverse();
    let ledgers: Vec<Ledger> = names.iter().map(|n| j.generate_ledger(n)).collect();
    let tb = generate_trial_balance(&ledgers);
    assert_eq!(tb.debits[0].name, "Rent");
    assert!(tb.is_balanced);
}
