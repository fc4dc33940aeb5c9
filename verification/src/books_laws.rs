//! What holds of the book-keeping pass as a whole.
use vstd::prelude::*;
use crate::accounting::{
    all_names, credit_line, credit_postings, debit_line, debit_postings, dedup, has_account,
    item_amounts, journal_accounts, journal_ledgers, journal_valid, lemma_dedup, lemma_total_concat,
    ledger_credits, ledger_debits, ledger_fits, ledger_net, no_repeats,
    posting_amounts, spec_ledger, spec_trial_balance, tb_credits, tb_debits, total, entry_names,
    EntryModel, ItemModel, LedgerBalance, LedgerItemModel, LedgerModel,
};

verus! {

/// Whether an entry has one debited and one credited line.
pub open spec fn single_line_entry(e: EntryModel) -> bool {
    &&& e.debits.len() == 1
    &&& e.credits.len() == 1
}

/// Whether every entry of the journal has one line on each side.
pub open spec fn single_line_journal(es: Seq<EntryModel>) -> bool {
    forall|k: int| 0 <= k < es.len() ==> single_line_entry(#[trigger] es[k])
}

/// What one entry adds to the net (debit minus credit) of `account`.
pub open spec fn entry_net(e: EntryModel, account: Seq<char>) -> int {
    total(posting_amounts(debit_postings(e, account))) - total(
        posting_amounts(credit_postings(e, account)),
    )
}

/// The nets of the given accounts, added up.
pub open spec fn sum_nets(es: Seq<EntryModel>, accounts: Seq<Seq<char>>) -> int
    decreases accounts.len(),
{
    if accounts.len() == 0 {
        0
    } else {
        sum_nets(es, accounts.drop_last()) + ledger_net(es, accounts.last())
    }
}

/// What one entry adds to the nets of the given accounts, added up.
pub open spec fn sum_entry_nets(e: EntryModel, accounts: Seq<Seq<char>>) -> int
    decreases accounts.len(),
{
    if accounts.len() == 0 {
        0
    } else {
        sum_entry_nets(e, accounts.drop_last()) + entry_net(e, accounts.last())
    }
}

/// The signed value of a balance: debit positive, credit negative.
pub open spec fn balance_value(b: LedgerBalance) -> int {
    match b {
        LedgerBalance::DEBIT(a) => a as int,
        LedgerBalance::CREDIT(a) => -(a as int),
        LedgerBalance::NIL => 0,
    }
}

/// The signed balances of the ledgers, added up.
pub open spec fn sum_balances(ls: Seq<LedgerModel>) -> int
    decreases ls.len(),
{
    if ls.len() == 0 {
        0
    } else {
        sum_balances(ls.drop_last()) + balance_value(ls.last().balance)
    }
}

proof fn lemma_posting_amounts_concat(s: Seq<LedgerItemModel>, t: Seq<LedgerItemModel>)
    ensures
        total(posting_amounts(s + t)) == total(posting_amounts(s)) + total(posting_amounts(t)),
{
    assert(posting_amounts(s + t) =~= posting_amounts(s) + posting_amounts(t));
    lemma_total_concat(posting_amounts(s), posting_amounts(t));
}

proof fn lemma_item_amounts_concat(s: Seq<ItemModel>, t: Seq<ItemModel>)
    ensures
        total(item_amounts(s + t)) == total(item_amounts(s)) + total(item_amounts(t)),
{
    assert(item_amounts(s + t) =~= item_amounts(s) + item_amounts(t));
    lemma_total_concat(item_amounts(s), item_amounts(t));
}

proof fn lemma_ledger_net_step(es: Seq<EntryModel>, account: Seq<char>)
    requires
        es.len() > 0,
    ensures
        ledger_net(es, account) == ledger_net(es.drop_last(), account) + entry_net(
            es.last(),
            account,
        ),
{
    lemma_posting_amounts_concat(
        ledger_debits(es.drop_last(), account),
        debit_postings(es.last(), account),
    );
    lemma_posting_amounts_concat(
        ledger_credits(es.drop_last(), account),
        credit_postings(es.last(), account),
    );
}

proof fn lemma_sum_nets_step(es: Seq<EntryModel>, accounts: Seq<Seq<char>>)
    requires
        es.len() > 0,
    ensures
        sum_nets(es, accounts) == sum_nets(es.drop_last(), accounts) + sum_entry_nets(
            es.last(),
            accounts,
        ),
    decreases accounts.len(),
{
    if accounts.len() > 0 {
        lemma_sum_nets_step(es, accounts.drop_last());
        lemma_ledger_net_step(es, accounts.last());
    }
}

proof fn lemma_sum_nets_empty(es: Seq<EntryModel>, accounts: Seq<Seq<char>>)
    requires
        es.len() == 0,
    ensures
        sum_nets(es, accounts) == 0,
    decreases accounts.len(),
{
    if accounts.len() > 0 {
        lemma_sum_nets_empty(es, accounts.drop_last());
        assert(posting_amounts(ledger_debits(es, accounts.last())) =~= Seq::<int>::empty());
        assert(posting_amounts(ledger_credits(es, accounts.last())) =~= Seq::<int>::empty());
    }
}

proof fn lemma_total_single(x: int)
    ensures
        total(seq![x]) == x,
{
    assert(seq![x].drop_last() =~= Seq::<int>::empty());
    assert(total(Seq::<int>::empty()) == 0);
    assert(seq![x].last() == x);
}

/// The net a single-line entry adds to one account: its amount to the debited
/// account, minus its amount from the credited one.
proof fn lemma_entry_net_single_line(e: EntryModel, account: Seq<char>)
    requires
        single_line_entry(e),
    ensures
        entry_net(e, account) == (if account == e.debits[0].name {
            e.credits[0].amount
        } else {
            0
        }) - (if account == e.credits[0].name {
            e.debits[0].amount
        } else {
            0
        }),
{
    if account == e.debits[0].name {
        assert(has_account(e.debits, account));
        assert(posting_amounts(debit_postings(e, account)) =~= seq![e.credits[0].amount]);
        lemma_total_single(e.credits[0].amount);
    } else {
        assert(!has_account(e.debits, account));
        assert(posting_amounts(debit_postings(e, account)) =~= Seq::<int>::empty());
    }
    if account == e.credits[0].name {
        assert(has_account(e.credits, account));
        assert(posting_amounts(credit_postings(e, account)) =~= seq![e.debits[0].amount]);
        lemma_total_single(e.debits[0].amount);
    } else {
        assert(!has_account(e.credits, account));
        assert(posting_amounts(credit_postings(e, account)) =~= Seq::<int>::empty());
    }
}

proof fn lemma_sum_entry_nets_single_line(e: EntryModel, accounts: Seq<Seq<char>>)
    requires
        single_line_entry(e),
        no_repeats(accounts),
    ensures
        sum_entry_nets(e, accounts) == (if accounts.contains(e.debits[0].name) {
            e.credits[0].amount
        } else {
            0
        }) - (if accounts.contains(e.credits[0].name) {
            e.debits[0].amount
        } else {
            0
        }),
    decreases accounts.len(),
{
    if accounts.len() > 0 {
        let p = accounts.drop_last();
        let z = accounts.last();
        assert(no_repeats(p));
        lemma_sum_entry_nets_single_line(e, p);
        lemma_entry_net_single_line(e, z);
        assert(!p.contains(z)) by {
            if p.contains(z) {
                let k: int = choose|k: int| 0 <= k < p.len() && p[k] == z;
                assert(accounts[k] == accounts[accounts.len() - 1]);
            }
        }
        assert forall|x: Seq<char>| accounts.contains(x) <==> (p.contains(x) || x == z) by {
            if accounts.contains(x) {
                let k: int = choose|k: int| 0 <= k < accounts.len() && accounts[k] == x;
                if k < accounts.len() - 1 {
                    assert(p[k] == x);
                }
            }
            if p.contains(x) {
                let k: int = choose|k: int| 0 <= k < p.len() && p[k] == x;
                assert(accounts[k] == x);
            }
            if x == z {
                assert(accounts[accounts.len() - 1] == x);
            }
        }
    }
}

/// The debit line and the credit line of a balanced single-line entry carry
/// the same amount.
proof fn lemma_single_line_balanced_amounts(e: EntryModel)
    requires
        single_line_entry(e),
        e.balanced(),
    ensures
        e.debits[0].amount == e.credits[0].amount,
{
    assert(item_amounts(e.debits) =~= seq![e.debits[0].amount]);
    assert(item_amounts(e.credits) =~= seq![e.credits[0].amount]);
    lemma_total_single(e.debits[0].amount);
    lemma_total_single(e.credits[0].amount);
}

/// Whether `accounts` holds the debited and the credited account of every
/// entry.
#[verifier::opaque]
spec fn accounts_cover(es: Seq<EntryModel>, accounts: Seq<Seq<char>>) -> bool {
    forall|k: int|
        0 <= k < es.len() ==> accounts.contains(#[trigger] es[k].debits[0].name)
            && accounts.contains(es[k].credits[0].name)
}

proof fn lemma_sum_nets_zero(es: Seq<EntryModel>, accounts: Seq<Seq<char>>)
    requires
        single_line_journal(es),
        journal_valid(es),
        no_repeats(accounts),
        accounts_cover(es, accounts),
    ensures
        sum_nets(es, accounts) == 0,
    decreases es.len(),
{
    if es.len() == 0 {
        lemma_sum_nets_empty(es, accounts);
    } else {
        let p = es.drop_last();
        let e = es.last();
        assert forall|k: int| 0 <= k < p.len() implies single_line_entry(#[trigger] p[k]) by {
            assert(p[k] == es[k]);
        }
        assert forall|k: int| 0 <= k < p.len() implies #[trigger] p[k].balanced() by {
            assert(p[k] == es[k]);
        }
        reveal(accounts_cover);
        assert forall|k: int|
            0 <= k < p.len() implies accounts.contains(#[trigger] p[k].debits[0].name)
            && accounts.contains(p[k].credits[0].name) by {
            assert(p[k] == es[k]);
        }
        assert(accounts_cover(p, accounts));
        lemma_sum_nets_zero(p, accounts);
        lemma_sum_nets_step(es, accounts);
        assert(es[es.len() - 1] == e);
        assert(single_line_entry(e));
        assert(e.balanced());
        assert(accounts.contains(es[es.len() - 1].debits[0].name));
        lemma_single_line_balanced_amounts(e);
        lemma_sum_entry_nets_single_line(e, accounts);
    }
}

proof fn lemma_tb_difference(ls: Seq<LedgerModel>)
    ensures
        total(item_amounts(tb_debits(ls))) - total(item_amounts(tb_credits(ls))) == sum_balances(
            ls,
        ),
    decreases ls.len(),
{
    if ls.len() > 0 {
        let p = ls.drop_last();
        let l = ls.last();
        lemma_tb_difference(p);
        lemma_item_amounts_concat(tb_debits(p), debit_line(l));
        lemma_item_amounts_concat(tb_credits(p), credit_line(l));
        match l.balance {
            LedgerBalance::DEBIT(a) => {
                assert(item_amounts(debit_line(l)) =~= seq![a as int]);
                lemma_total_single(a as int);
                assert(item_amounts(credit_line(l)) =~= Seq::<int>::empty());
            },
            LedgerBalance::CREDIT(a) => {
                assert(item_amounts(credit_line(l)) =~= seq![a as int]);
                lemma_total_single(a as int);
                assert(item_amounts(debit_line(l)) =~= Seq::<int>::empty());
            },
            LedgerBalance::NIL => {
                assert(item_amounts(debit_line(l)) =~= Seq::<int>::empty());
                assert(item_amounts(credit_line(l)) =~= Seq::<int>::empty());
            },
        }
    }
}

proof fn lemma_sum_balances_nets(es: Seq<EntryModel>, accounts: Seq<Seq<char>>)
    requires
        forall|i: int| 0 <= i < accounts.len() ==> ledger_fits(es, #[trigger] accounts[i]),
    ensures
        sum_balances(accounts.map_values(|a: Seq<char>| spec_ledger(es, a))) == sum_nets(
            es,
            accounts,
        ),
    decreases accounts.len(),
{
    if accounts.len() > 0 {
        let p = accounts.drop_last();
        assert forall|i: int| 0 <= i < p.len() implies ledger_fits(es, #[trigger] p[i]) by {
            assert(p[i] == accounts[i]);
        }
        lemma_sum_balances_nets(es, p);
        let ls = accounts.map_values(|a: Seq<char>| spec_ledger(es, a));
        assert(ls.drop_last() =~= p.map_values(|a: Seq<char>| spec_ledger(es, a)));
        let z = accounts.last();
        assert(ledger_fits(es, accounts[accounts.len() - 1]));
        assert(ls.last() == spec_ledger(es, z));
    }
}

proof fn lemma_all_names_contains(es: Seq<EntryModel>, k: int)
    requires
        0 <= k < es.len(),
        single_line_entry(es[k]),
    ensures
        all_names(es).contains(es[k].debits[0].name),
        all_names(es).contains(es[k].credits[0].name),
    decreases es.len(),
{
    let p = es.drop_last();
    if k < es.len() - 1 {
        assert(p[k] == es[k]);
        lemma_all_names_contains(p, k);
        let a = all_names(p);
        let i: int = choose|i: int| 0 <= i < a.len() && a[i] == es[k].debits[0].name;
        let j: int = choose|j: int| 0 <= j < a.len() && a[j] == es[k].credits[0].name;
        assert(all_names(es)[i] == a[i]);
        assert(all_names(es)[j] == a[j]);
    } else {
        let e = es.last();
        let a = all_names(p);
        let n = entry_names(e);
        assert(n[0] == e.debits[0].name);
        assert(n[1] == e.credits[0].name);
        assert(all_names(es)[a.len() as int] == n[0]);
        assert(all_names(es)[a.len() as int + 1] == n[1]);
    }
}

/// A valid journal of single-line entries yields a balanced trial balance,
/// whatever the order of the ledgers: when every entry debits one account
/// and credits one account (the same one or another) by the same amount,
/// the trial balance drawn from the ledgers of a list of accounts that
/// holds every account of the journal once has a debit column and a credit
/// column with the same total. (Each ledger's balance must be a value of
/// `i32`, as `generate_ledger` requires.)
pub proof fn lemma_single_line_journal_balances(es: Seq<EntryModel>, accounts: Seq<Seq<char>>)
    requires
        single_line_journal(es),
        journal_valid(es),
        no_repeats(accounts),
        forall|x: Seq<char>| all_names(es).contains(x) ==> accounts.contains(x),
        forall|i: int| 0 <= i < accounts.len() ==> ledger_fits(es, #[trigger] accounts[i]),
    ensures
        spec_trial_balance(accounts.map_values(|a: Seq<char>| spec_ledger(es, a))).is_balanced,
{
    assert forall|k: int|
        0 <= k < es.len() implies accounts.contains(#[trigger] es[k].debits[0].name)
        && accounts.contains(es[k].credits[0].name) by {
        assert(single_line_entry(es[k]));
        lemma_all_names_contains(es, k);
    }
    reveal(accounts_cover);
    lemma_sum_nets_zero(es, accounts);
    lemma_sum_balances_nets(es, accounts);
    lemma_tb_difference(accounts.map_values(|a: Seq<char>| spec_ledger(es, a)));
}

/// In particular the book-keeping pass over a valid journal of single-line
/// entries ends in a balanced trial balance.
pub proof fn lemma_single_line_journal_books_balance(es: Seq<EntryModel>)
    requires
        single_line_journal(es),
        journal_valid(es),
        forall|i: int|
            0 <= i < journal_accounts(es).len() ==> ledger_fits(es, #[trigger] journal_accounts(es)[i]),
    ensures
        spec_trial_balance(journal_ledgers(es)).is_balanced,
{
    lemma_dedup(all_names(es));
    lemma_single_line_journal_balances(es, journal_accounts(es));
}

/// An account that no entry names has an empty ledger with a nil balance;
/// so the ledgers of the accounts that `tokenize_entries` collects are all
/// the ledgers with postings.
pub proof fn lemma_unnamed_account_has_empty_ledger(es: Seq<EntryModel>, account: Seq<char>)
    requires
        !all_names(es).contains(account),
    ensures
        spec_ledger(es, account).debits.len() == 0,
        spec_ledger(es, account).credits.len() == 0,
        spec_ledger(es, account).balance == LedgerBalance::NIL,
    decreases es.len(),
{
    if es.len() > 0 {
        let p = es.drop_last();
        let e = es.last();
        let a = all_names(p);
        let n = entry_names(e);
        assert(!a.contains(account)) by {
            if a.contains(account) {
                let i: int = choose|i: int| 0 <= i < a.len() && a[i] == account;
                assert(all_names(es)[i] == account);
            }
        }
        lemma_unnamed_account_has_empty_ledger(p, account);
        assert(!has_account(e.debits, account)) by {
            if has_account(e.debits, account) {
                let k: int = choose|k: int| 0 <= k < e.debits.len() && (#[trigger] e.debits[k]).name == account;
                assert(all_names(es)[a.len() + k] == account);
            }
        }
        assert(!has_account(e.credits, account)) by {
            if has_account(e.credits, account) {
                let k: int = choose|k: int| 0 <= k < e.credits.len() && (#[trigger] e.credits[k]).name == account;
                assert(all_names(es)[a.len() + e.debits.len() + k] == account);
            }
        }
    }
    assert(posting_amounts(ledger_debits(es, account)) =~= Seq::<int>::empty());
    assert(posting_amounts(ledger_credits(es, account)) =~= Seq::<int>::empty());
}

/// A trial balance is reported balanced exactly when its two column totals
/// agree, and each total is the sum of the amounts in its column.
pub proof fn lemma_trial_balance_flag(ls: Seq<LedgerModel>)
    ensures
        spec_trial_balance(ls).is_balanced <==> spec_trial_balance(ls).debits_total
            == spec_trial_balance(ls).credits_total,
        spec_trial_balance(ls).debits_total == total(item_amounts(spec_trial_balance(ls).debits)),
        spec_trial_balance(ls).credits_total == total(item_amounts(spec_trial_balance(ls).credits)),
{
}

/// Every entry that names `account` on any of its debit lines, at whatever
/// position, and credits something, posts to the debit side of the ledger
/// of `account`: the date, the first credited account and its amount.
pub proof fn lemma_ledger_debits_every_naming_entry(
    es: Seq<EntryModel>,
    account: Seq<char>,
    i: int,
    k: int,
)
    requires
        0 <= i < es.len(),
        0 <= k < es[i].debits.len(),
        es[i].debits[k].name == account,
        es[i].credits.len() > 0,
    ensures
        spec_ledger(es, account).debits.contains(
            LedgerItemModel {
                date: es[i].date,
                account: es[i].credits[0].name,
                amount: es[i].credits[0].amount,
            },
        ),
    decreases es.len(),
{
    let x = LedgerItemModel {
        date: es[i].date,
        account: es[i].credits[0].name,
        amount: es[i].credits[0].amount,
    };
    let p = es.drop_last();
    let prev = ledger_debits(p, account);
    let tail = debit_postings(es.last(), account);
    if i == es.len() - 1 {
        assert(es.last().debits[k].name == account);
        assert(has_account(es.last().debits, account));
        assert(tail =~= seq![x]);
        assert(ledger_debits(es, account)[prev.len() as int] == x);
    } else {
        assert(p[i] == es[i]);
        lemma_ledger_debits_every_naming_entry(p, account, i, k);
        let j: int = choose|j: int| 0 <= j < prev.len() && prev[j] == x;
        assert(ledger_debits(es, account)[j] == x);
    }
}

/// Every entry that names `account` on any of its credit lines, at whatever
/// position, and debits something, posts to the credit side of the ledger
/// of `account`: the date, the first debited account and its amount.
pub proof fn lemma_ledger_credits_every_naming_entry(
    es: Seq<EntryModel>,
    account: Seq<char>,
    i: int,
    k: int,
)
    requires
        0 <= i < es.len(),
        0 <= k < es[i].credits.len(),
        es[i].credits[k].name == account,
        es[i].debits.len() > 0,
    ensures
        spec_ledger(es, account).credits.contains(
            LedgerItemModel {
                date: es[i].date,
                account: es[i].debits[0].name,
                amount: es[i].debits[0].amount,
            },
        ),
    decreases es.len(),
{
    let x = LedgerItemModel {
        date: es[i].date,
        account: es[i].debits[0].name,
        amount: es[i].debits[0].amount,
    };
    let p = es.drop_last();
    let prev = ledger_credits(p, account);
    let tail = credit_postings(es.last(), account);
    if i == es.len() - 1 {
        assert(es.last().credits[k].name == account);
        assert(has_account(es.last().credits, account));
        assert(tail =~= seq![x]);
        assert(ledger_credits(es, account)[prev.len() as int] == x);
    } else {
        assert(p[i] == es[i]);
        lemma_ledger_credits_every_naming_entry(p, account, i, k);
        let j: int = choose|j: int| 0 <= j < prev.len() && prev[j] == x;
        assert(ledger_credits(es, account)[j] == x);
    }
}

/// An entry balances exactly when the amounts of its debit lines and the
/// amounts of its credit lines have the same sum, however many lines each
/// side has; a journal is valid exactly when each of its entries does.
pub proof fn lemma_balanced_means_equal_sums(es: Seq<EntryModel>)
    ensures
        forall|k: int|
            0 <= k < es.len() ==> ((#[trigger] es[k]).balanced() <==> total(
                item_amounts(es[k].debits),
            ) == total(item_amounts(es[k].credits))),
        journal_valid(es) <==> forall|k: int|
            0 <= k < es.len() ==> total(item_amounts(#[trigger] es[k].debits)) == total(
                item_amounts(es[k].credits),
            ),
{
    if journal_valid(es) {
        assert forall|k: int| 0 <= k < es.len() implies total(
            item_amounts(#[trigger] es[k].debits),
        ) == total(item_amounts(es[k].credits)) by {
            assert(es[k].balanced());
        }
    }
    if forall|k: int|
        0 <= k < es.len() ==> total(item_amounts(#[trigger] es[k].debits)) == total(
            item_amounts(es[k].credits),
        ) {
        assert forall|j: int| 0 <= j < es.len() implies #[trigger] es[j].balanced() by {
            assert(total(item_amounts(es[j].debits)) == total(item_amounts(es[j].credits)));
        }
    }
}

} // verus!
