//! Two sample journals: one with a mistake in its last entry, one without.
use vstd::prelude::*;
use vstd::string::StringExecFns;
use crate::accounting::{EntryItem, EntryModel, ItemModel, Journal, JournalEntry, items_view};
use crate::text::{digit_char, digit_to_char, push_char};

verus! {

/// An entry with one debited and one credited line.
pub open spec fn entry_model(
    date: Seq<char>,
    debit: Seq<char>,
    debit_amount: int,
    credit: Seq<char>,
    credit_amount: int,
    narration: Seq<char>,
) -> EntryModel {
    EntryModel {
        date: date,
        debits: seq![ItemModel { name: debit, amount: debit_amount }],
        credits: seq![ItemModel { name: credit, amount: credit_amount }],
        narration: narration,
    }
}

/// Builds an entry with one debited and one credited line.
pub fn entry(
    date: &str,
    debit: &str,
    debit_amount: i32,
    credit: &str,
    credit_amount: i32,
    narration: &str,
) -> (e: JournalEntry)
    ensures
        e@ == entry_model(
            date@,
            debit@,
            debit_amount as int,
            credit@,
            credit_amount as int,
            narration@,
        ),
{
    let mut debits: Vec<EntryItem> = Vec::new();
    debits.push(EntryItem { name: String::from_str(debit), amount: debit_amount });
    let mut credits: Vec<EntryItem> = Vec::new();
    credits.push(EntryItem { name: String::from_str(credit), amount: credit_amount });
    let e = JournalEntry {
        date: String::from_str(date),
        debits,
        credits,
        narration: String::from_str(narration),
    };
    assert(items_view(e.debits@) =~= seq![ItemModel { name: debit@, amount: debit_amount as int }]);
    assert(items_view(e.credits@) =~= seq![
        ItemModel { name: credit@, amount: credit_amount as int },
    ]);
    e
}

/// The journal of a month's trading whose last entry debits 5000 but
/// credits 4500.
pub open spec fn imperfect_journal_model() -> Seq<EntryModel> {
    seq![
        entry_model("01-04-2027"@, "Cash"@, 50000, "Capital"@, 50000, "Started business with cash"@),
        entry_model("02-04-2027"@, "Bank"@, 20000, "Cash"@, 20000, "Cash deposited into bank"@),
        entry_model("03-04-2027"@, "Purchases"@, 10000, "Cash"@, 10000, "Goods purchased for cash"@),
        entry_model("04-04-2027"@, "Furniture"@, 5000, "Cash"@, 5000, "Bought furniture"@),
        entry_model("05-04-2027"@, "Rent Expense"@, 2000, "Cash"@, 2000, "Paid rent"@),
        entry_model("06-04-2027"@, "Salaries"@, 8000, "Cash"@, 8000, "Paid salaries"@),
        entry_model("07-04-2027"@, "Cash"@, 15000, "Sales"@, 15000, "Cash sales"@),
        entry_model("08-04-2027"@, "Debtor A"@, 6000, "Sales"@, 6000, "Credit sales to Debtor A"@),
        entry_model("09-04-2027"@, "Cash"@, 4000, "Debtor A"@, 4000, "Received from Debtor A"@),
        entry_model(
            "10-04-2027"@,
            "Electricity Expense"@,
            1500,
            "Cash"@,
            1500,
            "Electricity bill paid"@,
        ),
        entry_model("11-04-2027"@, "Stationery"@, 500, "Cash"@, 500, "Bought stationery"@),
        entry_model(
            "12-04-2027"@,
            "Advertising"@,
            3000,
            "Bank"@,
            3000,
            "Paid for advertising via bank"@,
        ),
        entry_model("13-04-2027"@, "Cash"@, 2000, "Commission"@, 2000, "Commission received"@),
        entry_model("14-04-2027"@, "Creditor B"@, 4000, "Cash"@, 4000, "Paid to Creditor B"@),
        entry_model(
            "15-04-2027"@,
            "Purchases"@,
            7000,
            "Creditor C"@,
            7000,
            "Credit purchases from Creditor C"@,
        ),
        entry_model("16-04-2027"@, "Insurance"@, 1200, "Bank"@, 1200, "Insurance premium paid"@),
        entry_model("17-04-2027"@, "Cash"@, 3500, "Sales"@, 3500, "Cash sales"@),
        entry_model(
            "18-04-2027"@,
            "Computer Equipment"@,
            15000,
            "Bank"@,
            15000,
            "Bought computer equipment"@,
        ),
        entry_model(
            "19-04-2027"@,
            "Traveling Expense"@,
            800,
            "Cash"@,
            800,
            "Traveling expenses paid"@,
        ),
        entry_model(
            "20-04-2027"@,
            "Drawings"@,
            2000,
            "Cash"@,
            2000,
            "Cash withdrawn for personal use"@,
        ),
        entry_model("21-04-2027"@, "Bank Charges"@, 150, "Bank"@, 150, "Bank charges levied"@),
        entry_model(
            "22-04-2027"@,
            "Cash"@,
            1000,
            "Debtor A"@,
            1000,
            "Further amount received from Debtor A"@,
        ),
        entry_model("23-04-2027"@, "Repairs"@, 600, "Cash"@, 600, "Repairs paid"@),
        entry_model("24-04-2027"@, "Postage"@, 250, "Cash"@, 250, "Postage charges paid"@),
        entry_model(
            "25-04-2027"@,
            "Consulting Fee"@,
            5000,
            "Cash"@,
            4500,
            "Consulting fees paid with deliberate imbalance error"@,
        ),
    ]
}

/// The sample journal with a mismatched last entry.
pub fn get_imperfect_journal() -> (j: Journal)
    ensures
        j@ == imperfect_journal_model(),
{
    let mut v: Vec<JournalEntry> = Vec::new();
    v.push(entry("01-04-2027", "Cash", 50000, "Capital", 50000, "Started business with cash"));
    v.push(entry("02-04-2027", "Bank", 20000, "Cash", 20000, "Cash deposited into bank"));
    v.push(entry("03-04-2027", "Purchases", 10000, "Cash", 10000, "Goods purchased for cash"));
    v.push(entry("04-04-2027", "Furniture", 5000, "Cash", 5000, "Bought furniture"));
    v.push(entry("05-04-2027", "Rent Expense", 2000, "Cash", 2000, "Paid rent"));
    v.push(entry("06-04-2027", "Salaries", 8000, "Cash", 8000, "Paid salaries"));
    v.push(entry("07-04-2027", "Cash", 15000, "Sales", 15000, "Cash sales"));
    v.push(entry("08-04-2027", "Debtor A", 6000, "Sales", 6000, "Credit sales to Debtor A"));
    v.push(entry("09-04-2027", "Cash", 4000, "Debtor A", 4000, "Received from Debtor A"));
    v.push(
        entry("10-04-2027", "Electricity Expense", 1500, "Cash", 1500, "Electricity bill paid"),
    );
    v.push(entry("11-04-2027", "Stationery", 500, "Cash", 500, "Bought stationery"));
    v.push(
        entry("12-04-2027", "Advertising", 3000, "Bank", 3000, "Paid for advertising via bank"),
    );
    v.push(entry("13-04-2027", "Cash", 2000, "Commission", 2000, "Commission received"));
    v.push(entry("14-04-2027", "Creditor B", 4000, "Cash", 4000, "Paid to Creditor B"));
    v.push(
        entry(
            "15-04-2027",
            "Purchases",
            7000,
            "Creditor C",
            7000,
            "Credit purchases from Creditor C",
        ),
    );
    v.push(entry("16-04-2027", "Insurance", 1200, "Bank", 1200, "Insurance premium paid"));
    v.push(entry("17-04-2027", "Cash", 3500, "Sales", 3500, "Cash sales"));
    v.push(
        entry("18-04-2027", "Computer Equipment", 15000, "Bank", 15000, "Bought computer equipment"),
    );
    v.push(entry("19-04-2027", "Traveling Expense", 800, "Cash", 800, "Traveling expenses paid"));
    v.push(entry("20-04-2027", "Drawings", 2000, "Cash", 2000, "Cash withdrawn for personal use"));
    v.push(entry("21-04-2027", "Bank Charges", 150, "Bank", 150, "Bank charges levied"));
    v.push(
        entry("22-04-2027", "Cash", 1000, "Debtor A", 1000, "Further amount received from Debtor A"),
    );
    v.push(entry("23-04-2027", "Repairs", 600, "Cash", 600, "Repairs paid"));
    v.push(entry("24-04-2027", "Postage", 250, "Cash", 250, "Postage charges paid"));
    v.push(
        entry(
            "25-04-2027",
            "Consulting Fee",
            5000,
            "Cash",
            4500,
            "Consulting fees paid with deliberate imbalance error",
        ),
    );
    let j = Journal(v);
    assert(j@ =~= imperfect_journal_model());
    j
}


/// A number below 100 written with two digits (`{:02}`).
pub open spec fn two_digits(n: int) -> Seq<char> {
    seq![digit_char(n / 10), digit_char(n % 10)]
}

/// The `i`-th recurring entry of the error-free sample (`1 <= i <= 68`):
/// dated day `i % 28 + 1` of month `(i / 28) % 3 + 4` of 2027, cycling
/// through a cash purchase, a cash sale, a rent payment and a salary payment.
pub open spec fn perfect_entry(i: int) -> EntryModel {
    let date = two_digits(i % 28 + 1) + "-"@ + two_digits((i / 28) % 3 + 4) + "-2027"@;
    if i % 4 == 0 {
        entry_model(date, "Purchases"@, 1500, "Cash"@, 1500, "Routine cash purchase"@)
    } else if i % 4 == 1 {
        entry_model(date, "Cash"@, 2500, "Sales"@, 2500, "Routine cash sale"@)
    } else if i % 4 == 2 {
        entry_model(date, "Rent Expense"@, 1000, "Bank"@, 1000, "Periodic utility/rent payment"@)
    } else {
        entry_model(date, "Salaries"@, 3000, "Bank"@, 3000, "Periodic staff salary payout"@)
    }
}

/// The error-free sample: capital brought in, cash banked, then 68
/// recurring entries.
pub open spec fn perfect_journal_model() -> Seq<EntryModel> {
    seq![
        entry_model("01-04-2027"@, "Cash"@, 100000, "Capital"@, 100000, "Initial capital introduced"@),
        entry_model("02-04-2027"@, "Bank"@, 50000, "Cash"@, 50000, "Cash deposited into bank"@),
    ] + Seq::new(68, |k: int| perfect_entry(k + 1))
}

/// `DD-MM-2027` for a day and a month below 100.
fn date_2027(day: u64, month: u64) -> (s: String)
    requires
        day < 100,
        month < 100,
    ensures
        s@ == two_digits(day as int) + "-"@ + two_digits(month as int) + "-2027"@,
{
    let mut s = String::new();
    push_char(&mut s, digit_to_char(day / 10));
    push_char(&mut s, digit_to_char(day % 10));
    s.append("-");
    push_char(&mut s, digit_to_char(month / 10));
    push_char(&mut s, digit_to_char(month % 10));
    s.append("-2027");
    assert(s@ =~= two_digits(day as int) + "-"@ + two_digits(month as int) + "-2027"@);
    s
}

/// The sample journal in which every entry balances.
pub fn get_perfect_journal() -> (j: Journal)
    ensures
        j@ == perfect_journal_model(),
{
    let mut entries: Vec<JournalEntry> = Vec::new();
    entries.push(entry("01-04-2027", "Cash", 100000, "Capital", 100000, "Initial capital introduced"));
    entries.push(entry("02-04-2027", "Bank", 50000, "Cash", 50000, "Cash deposited into bank"));
    let ghost head = seq![
        entry_model("01-04-2027"@, "Cash"@, 100000, "Capital"@, 100000, "Initial capital introduced"@),
        entry_model("02-04-2027"@, "Bank"@, 50000, "Cash"@, 50000, "Cash deposited into bank"@),
    ];
    assert(entries@.map_values(|e: JournalEntry| e@) =~= head + Seq::new(
        0,
        |k: int| perfect_entry(k + 1),
    ));
    let mut i: u64 = 1;
    while i <= 68
        invariant
            1 <= i <= 69,
            entries@.map_values(|e: JournalEntry| e@) == head + Seq::new(
                (i - 1) as nat,
                |k: int| perfect_entry(k + 1),
            ),
        decreases 69 - i,
    {
        let day: u64 = (i % 28) + 1;
        let month: u64 = ((i / 28) % 3) + 4;
        let date = date_2027(day, month);
        let e = if i % 4 == 0 {
            entry(date.as_str(), "Purchases", 1500, "Cash", 1500, "Routine cash purchase")
        } else if i % 4 == 1 {
            entry(date.as_str(), "Cash", 2500, "Sales", 2500, "Routine cash sale")
        } else if i % 4 == 2 {
            entry(date.as_str(), "Rent Expense", 1000, "Bank", 1000, "Periodic utility/rent payment")
        } else {
            entry(date.as_str(), "Salaries", 3000, "Bank", 3000, "Periodic staff salary payout")
        };
        assert(e@ == perfect_entry(i as int));
        let ghost before = entries@;
        let ghost ev = e@;
        entries.push(e);
        assert(entries@.map_values(|e: JournalEntry| e@) =~= before.map_values(
            |e: JournalEntry| e@,
        ).push(ev));
        assert(head + Seq::new(i as nat, |k: int| perfect_entry(k + 1)) =~= (head + Seq::new(
            (i - 1) as nat,
            |k: int| perfect_entry(k + 1),
        )).push(perfect_entry(i as int)));
        assert(entries@.map_values(|e: JournalEntry| e@) =~= head + Seq::new(
            i as nat,
            |k: int| perfect_entry(k + 1),
        ));
        i = i + 1;
    }
    let j = Journal(entries);
    assert(j@ =~= perfect_journal_model());
    j
}

} // verus!
