use vstd::prelude::*;
use vstd::string::StringExecFns;
use crate::dates::{month_is_zero, spec_convert_date, try_convert_entry_date};

verus! {

// ---------------------------------------------------------------------
// Amount sums
// ---------------------------------------------------------------------

/// Whether `x` is a value of `i32`.
pub open spec fn fits_i32(x: int) -> bool {
    i32::MIN <= x <= i32::MAX
}

/// The sum of a sequence of amounts.
pub open spec fn total(s: Seq<int>) -> int
    decreases s.len(),
{
    if s.len() == 0 {
        0
    } else {
        total(s.drop_last()) + s.last()
    }
}

/// Whether summing `s` from left to right in `i32` never overflows, that is,
/// whether every running total is a value of `i32`.
pub open spec fn prefix_sums_fit(s: Seq<int>) -> bool {
    forall|k: int| 0 <= k <= s.len() ==> fits_i32(#[trigger] total(s.take(k)))
}

/// A sequence whose running totals fit has a total that fits.
pub proof fn lemma_fit_total(s: Seq<int>)
    requires
        prefix_sums_fit(s),
    ensures
        fits_i32(total(s)),
{
    assert(s.take(s.len() as int) =~= s);
    assert(fits_i32(total(s.take(s.len() as int))));
}

/// The sum of the concatenation is the sum of the parts.
pub proof fn lemma_total_concat(s: Seq<int>, t: Seq<int>)
    ensures
        total(s + t) == total(s) + total(t),
    decreases t.len(),
{
    if t.len() > 0 {
        lemma_total_concat(s, t.drop_last());
        assert((s + t).drop_last() =~= s + t.drop_last());
    }
}

// ---------------------------------------------------------------------
// Journal
// ---------------------------------------------------------------------

/// An account and an amount, as one line of a journal entry.
pub struct ItemModel {
    pub name: Seq<char>,
    pub amount: int,
}

/// One account line of a journal entry (or of a trial balance).
#[derive(Debug, Clone)]
pub struct EntryItem {
    pub name: String,
    pub amount: i32,
}

impl View for EntryItem {
    type V = ItemModel;

    open spec fn view(&self) -> ItemModel {
        ItemModel { name: self.name@, amount: self.amount as int }
    }
}

/// The lines of a sequence of entry items.
pub open spec fn items_view(v: Seq<EntryItem>) -> Seq<ItemModel> {
    v.map_values(|i: EntryItem| i@)
}

/// The amounts of a sequence of lines.
pub open spec fn item_amounts(s: Seq<ItemModel>) -> Seq<int> {
    s.map_values(|i: ItemModel| i.amount)
}

/// The account names of a sequence of lines.
pub open spec fn item_names(s: Seq<ItemModel>) -> Seq<Seq<char>> {
    s.map_values(|i: ItemModel| i.name)
}

/// A journal entry: a dated transaction with debited and credited accounts.
pub struct EntryModel {
    pub date: Seq<char>,
    pub debits: Seq<ItemModel>,
    pub credits: Seq<ItemModel>,
    pub narration: Seq<char>,
}

impl EntryModel {
    /// The sum of the debited amounts.
    pub open spec fn debit_total(self) -> int {
        total(item_amounts(self.debits))
    }

    /// The sum of the credited amounts.
    pub open spec fn credit_total(self) -> int {
        total(item_amounts(self.credits))
    }

    /// Whether both sides of the entry can be summed in `i32`.
    pub open spec fn fits(self) -> bool {
        prefix_sums_fit(item_amounts(self.debits)) && prefix_sums_fit(item_amounts(self.credits))
    }

    /// Whether debits and credits add up to the same amount.
    pub open spec fn balanced(self) -> bool {
        self.debit_total() == self.credit_total()
    }
}

/// One journal entry.
#[derive(Debug, Clone)]
pub struct JournalEntry {
    pub date: String,
    pub debits: Vec<EntryItem>,
    pub credits: Vec<EntryItem>,
    pub narration: String,
}

impl View for JournalEntry {
    type V = EntryModel;

    open spec fn view(&self) -> EntryModel {
        EntryModel {
            date: self.date@,
            debits: items_view(self.debits@),
            credits: items_view(self.credits@),
            narration: self.narration@,
        }
    }
}

/// A journal: its entries in the order they were recorded.
#[derive(Debug, Clone)]
pub struct Journal(pub Vec<JournalEntry>);

impl View for Journal {
    type V = Seq<EntryModel>;

    open spec fn view(&self) -> Seq<EntryModel> {
        self.0@.map_values(|e: JournalEntry| e@)
    }
}

/// Whether every entry before position `k` balances.
pub open spec fn balanced_before(es: Seq<EntryModel>, k: int) -> bool {
    forall|j: int| 0 <= j < k ==> #[trigger] es[j].balanced()
}

/// Whether a journal is valid: every entry balances.
pub open spec fn journal_valid(es: Seq<EntryModel>) -> bool {
    balanced_before(es, es.len() as int)
}

/// Whether checking the journal entry by entry, stopping at the first entry
/// that does not balance, never overflows.
pub open spec fn journal_checkable(es: Seq<EntryModel>) -> bool {
    forall|k: int| 0 <= k < es.len() && balanced_before(es, k) ==> (#[trigger] es[k]).fits()
}

/// Sums the amounts of `items` from left to right; `None` exactly when a
/// running total leaves `i32`.
pub fn checked_total_items(items: &Vec<EntryItem>) -> (r: Option<i32>)
    ensures
        r == (if prefix_sums_fit(item_amounts(items_view(items@))) {
            Some(total(item_amounts(items_view(items@))) as i32)
        } else {
            None::<i32>
        }),
{
    let ghost s = item_amounts(items_view(items@));
    let mut acc: i32 = 0;
    let mut i: usize = 0;
    assert(s.take(0) =~= Seq::<int>::empty());
    while i < items.len()
        invariant
            i <= items.len(),
            s == item_amounts(items_view(items@)),
            s.len() == items.len(),
            acc as int == total(s.take(i as int)),
            forall|k: int| 0 <= k <= i ==> fits_i32(#[trigger] total(s.take(k))),
        decreases items.len() - i,
    {
        assert(s.take(i + 1).drop_last() =~= s.take(i as int));
        assert(s[i as int] == items@[i as int].amount);
        match acc.checked_add(items[i].amount) {
            None => {
                assert(!fits_i32(total(s.take(i + 1))));
                return None;
            },
            Some(v) => {
                acc = v;
            },
        }
        i = i + 1;
        assert forall|k: int| 0 <= k <= i implies fits_i32(#[trigger] total(s.take(k))) by {
            if k == i {
            }
        }
    }
    assert(s.take(i as int) =~= s);
    Some(acc)
}

impl JournalEntry {
    /// Whether the debited amounts add up to the credited amounts.
    pub fn check_match(&self) -> (r: bool)
        requires
            self@.fits(),
        ensures
            r == self@.balanced(),
            r == (total(item_amounts(self@.debits)) == total(item_amounts(self@.credits))),
    {
        proof {
            lemma_fit_total(item_amounts(self@.debits));
            lemma_fit_total(item_amounts(self@.credits));
        }
        let debits_total: i32 = checked_total_items(&self.debits).unwrap();
        let credits_total: i32 = checked_total_items(&self.credits).unwrap();
        debits_total == credits_total
    }
}

impl Journal {
    /// Whether every entry of the journal balances.
    pub fn validate_journal(&self) -> (r: bool)
        requires
            journal_checkable(self@),
        ensures
            r == journal_valid(self@),
            r == (forall|k: int|
                0 <= k < self@.len() ==> total(item_amounts(#[trigger] self@[k].debits)) == total(
                    item_amounts(self@[k].credits),
                )),
    {
        proof {
            crate::books_laws::lemma_balanced_means_equal_sums(self@);
        }
        let r = self.try_validate_journal();
        r.unwrap()
    }

    /// Checks the entries in order, as `validate_journal` does, and answers
    /// `None` exactly when a sum on the way leaves `i32`.
    pub fn try_validate_journal(&self) -> (r: Option<bool>)
        ensures
            r == (if journal_checkable(self@) {
                Some(journal_valid(self@))
            } else {
                None::<bool>
            }),
    {
        let ghost es = self@;
        let mut i: usize = 0;
        while i < self.0.len()
            invariant
                i <= self.0.len(),
                es == self@,
                es.len() == self.0.len(),
                balanced_before(es, i as int),
                forall|k: int| 0 <= k < i ==> (#[trigger] es[k]).fits(),
            decreases self.0.len() - i,
        {
            let entry = &self.0[i];
            assert(es[i as int] == entry@);
            let d = checked_total_items(&entry.debits);
            let c = checked_total_items(&entry.credits);
            match (d, c) {
                (Some(dt), Some(ct)) => {
                    proof {
                        lemma_fit_total(item_amounts(es[i as int].debits));
                        lemma_fit_total(item_amounts(es[i as int].credits));
                    }
                    if dt != ct {
                        assert(!es[i as int].balanced());
                        proof {
                            assert forall|k: int|
                                0 <= k < es.len() && balanced_before(es, k) implies (
                                #[trigger] es[k]).fits() by {
                                if k > i {
                                    assert(!balanced_before(es, k));
                                }
                            }
                        }
                        return Some(false);
                    }
                },
                _ => {
                    assert(!journal_checkable(es));
                    return None;
                },
            }
            i = i + 1;
        }
        Some(true)
    }
}


// ---------------------------------------------------------------------
// Account names
// ---------------------------------------------------------------------

/// The character sequences of a sequence of strings.
pub open spec fn strings_view(v: Seq<String>) -> Seq<Seq<char>> {
    v.map_values(|s: String| s@)
}

/// The account names of an entry: its debited accounts, then its credited ones.
pub open spec fn entry_names(e: EntryModel) -> Seq<Seq<char>> {
    item_names(e.debits) + item_names(e.credits)
}

/// Every account name of the journal, entry by entry, repeats included.
pub open spec fn all_names(es: Seq<EntryModel>) -> Seq<Seq<char>>
    decreases es.len(),
{
    if es.len() == 0 {
        Seq::empty()
    } else {
        all_names(es.drop_last()) + entry_names(es.last())
    }
}

/// The elements of `s` without repeats, each kept where it first occurs.
pub open spec fn dedup(s: Seq<Seq<char>>) -> Seq<Seq<char>>
    decreases s.len(),
{
    if s.len() == 0 {
        Seq::empty()
    } else {
        let d = dedup(s.drop_last());
        if d.contains(s.last()) {
            d
        } else {
            d.push(s.last())
        }
    }
}

/// Whether no element occurs twice in `s`.
pub open spec fn no_repeats<A>(s: Seq<A>) -> bool {
    forall|i: int, j: int| 0 <= i < j < s.len() ==> s[i] != s[j]
}

/// `dedup` keeps exactly the elements of its argument, each once.
pub proof fn lemma_dedup(s: Seq<Seq<char>>)
    ensures
        no_repeats(dedup(s)),
        forall|x: Seq<char>| dedup(s).contains(x) <==> s.contains(x),
    decreases s.len(),
{
    if s.len() > 0 {
        let p = s.drop_last();
        lemma_dedup(p);
        assert forall|x: Seq<char>| dedup(s).contains(x) <==> s.contains(x) by {
            if s.contains(x) && x != s.last() {
                let k: int = choose|k: int| 0 <= k < s.len() && s[k] == x;
                assert(p[k] == x);
            }
            if p.contains(x) {
                let k: int = choose|k: int| 0 <= k < p.len() && p[k] == x;
                assert(s[k] == x);
            }
            if dedup(s).contains(x) && !dedup(p).contains(x) {
                let k: int = choose|k: int| 0 <= k < dedup(s).len() && dedup(s)[k] == x;
                assert(x == s.last());
                assert(s[s.len() - 1] == x);
            }
            if x == s.last() {
                assert(s[s.len() - 1] == x);
                if dedup(p).contains(x) {
                    let k: int = choose|k: int| 0 <= k < dedup(p).len() && dedup(p)[k] == x;
                    assert(dedup(s)[k] == x);
                } else {
                    assert(dedup(s)[dedup(s).len() - 1] == x);
                }
            }
            if dedup(p).contains(x) {
                let k: int = choose|k: int| 0 <= k < dedup(p).len() && dedup(p)[k] == x;
                assert(dedup(s)[k] == x);
            }
        }
    }
}

/// Adds `name` to `names` unless a name with the same characters is there.
fn add_name(names: &mut Vec<String>, name: &String)
    ensures
        strings_view(final(names)@) == (if strings_view(old(names)@).contains(name@) {
            strings_view(old(names)@)
        } else {
            strings_view(old(names)@).push(name@)
        }),
{
    let ghost v = strings_view(names@);
    let mut i: usize = 0;
    while i < names.len()
        invariant
            i <= names.len(),
            v == strings_view(names@),
            names@ == old(names)@,
            forall|k: int| 0 <= k < i ==> v[k] != name@,
        decreases names.len() - i,
    {
        if names[i] == *name {
            assert(v[i as int] == name@);
            return;
        }
        i = i + 1;
    }
    names.push(name.clone());
    assert(strings_view(names@) =~= v.push(name@));
}

impl Journal {
    /// Collects every account name of the journal, each once, in the order
    /// the names first occur (debits before credits within an entry).
    pub fn tokenize_entries(&self) -> (accounts: Vec<String>)
        ensures
            strings_view(accounts@) == dedup(all_names(self@)),
            no_repeats(strings_view(accounts@)),
            forall|x: Seq<char>|
                strings_view(accounts@).contains(x) <==> all_names(self@).contains(x),
    {
        let ghost es = self@;
        let mut all_accounts: Vec<String> = Vec::new();
        let ghost mut seen: Seq<Seq<char>> = Seq::empty();
        assert(strings_view(all_accounts@) =~= dedup(seen));
        assert(es.take(0) =~= Seq::<EntryModel>::empty());
        for i in 0..self.0.len()
            invariant
                es == self@,
                es.len() == self.0.len(),
                seen == all_names(es.take(i as int)),
                strings_view(all_accounts@) == dedup(seen),
        {
            let entry = &self.0[i];
            assert(es[i as int] == entry@);
            let ghost base = seen;
            for k in 0..entry.debits.len()
                invariant
                    entry == &self.0[i as int],
                    seen == base + item_names(entry@.debits).take(k as int),
                    strings_view(all_accounts@) == dedup(seen),
            {
                let ghost prev = seen;
                add_name(&mut all_accounts, &entry.debits[k].name);
                proof {
                    seen = seen.push(entry.debits@[k as int].name@);
                    assert(seen.drop_last() =~= prev);
                    assert(seen =~= base + item_names(entry@.debits).take(k + 1));
                }
            }
            assert(item_names(entry@.debits).take(entry.debits.len() as int) =~= item_names(
                entry@.debits,
            ));
            let ghost base2 = seen;
            for k in 0..entry.credits.len()
                invariant
                    entry == &self.0[i as int],
                    seen == base2 + item_names(entry@.credits).take(k as int),
                    strings_view(all_accounts@) == dedup(seen),
            {
                let ghost prev = seen;
                add_name(&mut all_accounts, &entry.credits[k].name);
                proof {
                    seen = seen.push(entry.credits@[k as int].name@);
                    assert(seen.drop_last() =~= prev);
                    assert(seen =~= base2 + item_names(entry@.credits).take(k + 1));
                }
            }
            assert(item_names(entry@.credits).take(entry.credits.len() as int) =~= item_names(
                entry@.credits,
            ));
            assert(es.take(i + 1).drop_last() =~= es.take(i as int));
            assert(seen =~= all_names(es.take(i + 1)));
        }
        assert(es.take(self.0.len() as int) =~= es);
        proof {
            lemma_dedup(all_names(es));
        }
        all_accounts
    }
}


// ---------------------------------------------------------------------
// Ledgers
// ---------------------------------------------------------------------

/// A ledger posting: the date, the account on the other side, the amount.
pub struct LedgerItemModel {
    pub date: Seq<char>,
    pub account: Seq<char>,
    pub amount: int,
}

/// One posting in a ledger account.
#[derive(Debug, Clone)]
pub struct LedgerItem {
    pub date: String,
    pub account: String,
    pub amount: i32,
}

impl View for LedgerItem {
    type V = LedgerItemModel;

    open spec fn view(&self) -> LedgerItemModel {
        LedgerItemModel { date: self.date@, account: self.account@, amount: self.amount as int }
    }
}

/// The closing balance of a ledger account: which side exceeds the other,
/// and by how much.
#[allow(non_camel_case_types)]
#[derive(Debug, Clone, Copy, PartialEq, Eq, Structural)]
pub enum LedgerBalance {
    DEBIT(i32),
    CREDIT(i32),
    NIL,
}

/// A ledger account: its name, its debit and credit postings, its balance.
pub struct LedgerModel {
    pub name: Seq<char>,
    pub debits: Seq<LedgerItemModel>,
    pub credits: Seq<LedgerItemModel>,
    pub balance: LedgerBalance,
}

/// The ledger of one account.
#[derive(Debug, Clone)]
pub struct Ledger {
    pub name: String,
    pub debits: Vec<LedgerItem>,
    pub credits: Vec<LedgerItem>,
    pub balance: LedgerBalance,
}

/// The postings of a sequence of ledger items.
pub open spec fn ledger_items_view(v: Seq<LedgerItem>) -> Seq<LedgerItemModel> {
    v.map_values(|i: LedgerItem| i@)
}

impl View for Ledger {
    type V = LedgerModel;

    open spec fn view(&self) -> LedgerModel {
        LedgerModel {
            name: self.name@,
            debits: ledger_items_view(self.debits@),
            credits: ledger_items_view(self.credits@),
            balance: self.balance,
        }
    }
}

/// The amounts of a sequence of postings.
pub open spec fn posting_amounts(s: Seq<LedgerItemModel>) -> Seq<int> {
    s.map_values(|i: LedgerItemModel| i.amount)
}

/// Whether one of the lines names `account`.
pub open spec fn has_account(items: Seq<ItemModel>, account: Seq<char>) -> bool {
    exists|k: int| 0 <= k < items.len() && (#[trigger] items[k]).name == account
}

/// The posting an entry dated `date` makes against the first of `other`
/// (none when `other` is empty).
pub open spec fn first_posting(date: Seq<char>, other: Seq<ItemModel>) -> Seq<LedgerItemModel> {
    if other.len() > 0 {
        seq![LedgerItemModel { date: date, account: other[0].name, amount: other[0].amount }]
    } else {
        Seq::empty()
    }
}

/// What an entry posts to the debit side of `account`: when the account is
/// debited, the first credited line.
pub open spec fn debit_postings(e: EntryModel, account: Seq<char>) -> Seq<LedgerItemModel> {
    if has_account(e.debits, account) {
        first_posting(e.date, e.credits)
    } else {
        Seq::empty()
    }
}

/// What an entry posts to the credit side of `account`: when the account is
/// credited, the first debited line.
pub open spec fn credit_postings(e: EntryModel, account: Seq<char>) -> Seq<LedgerItemModel> {
    if has_account(e.credits, account) {
        first_posting(e.date, e.debits)
    } else {
        Seq::empty()
    }
}

/// The debit postings of `account` over the journal, in journal order.
pub open spec fn ledger_debits(es: Seq<EntryModel>, account: Seq<char>) -> Seq<LedgerItemModel>
    decreases es.len(),
{
    if es.len() == 0 {
        Seq::empty()
    } else {
        ledger_debits(es.drop_last(), account) + debit_postings(es.last(), account)
    }
}

/// The credit postings of `account` over the journal, in journal order.
pub open spec fn ledger_credits(es: Seq<EntryModel>, account: Seq<char>) -> Seq<LedgerItemModel>
    decreases es.len(),
{
    if es.len() == 0 {
        Seq::empty()
    } else {
        ledger_credits(es.drop_last(), account) + credit_postings(es.last(), account)
    }
}

/// Debit postings minus credit postings of `account`.
pub open spec fn ledger_net(es: Seq<EntryModel>, account: Seq<char>) -> int {
    total(posting_amounts(ledger_debits(es, account))) - total(
        posting_amounts(ledger_credits(es, account)),
    )
}

/// Whether the ledger of `account` can be balanced in `i32`: both sides sum
/// without overflow, and the difference and its magnitude are values of `i32`.
pub open spec fn ledger_fits(es: Seq<EntryModel>, account: Seq<char>) -> bool {
    &&& prefix_sums_fit(posting_amounts(ledger_debits(es, account)))
    &&& prefix_sums_fit(posting_amounts(ledger_credits(es, account)))
    &&& i32::MIN < ledger_net(es, account) <= i32::MAX
}

/// The balance for a net amount: debit when positive, credit (by the
/// magnitude) when negative, nil when zero.
pub open spec fn balance_of(net: int) -> LedgerBalance {
    if net > 0 {
        LedgerBalance::DEBIT(net as i32)
    } else if net < 0 {
        LedgerBalance::CREDIT((-net) as i32)
    } else {
        LedgerBalance::NIL
    }
}

/// The ledger of `account` drawn from the journal.
pub open spec fn spec_ledger(es: Seq<EntryModel>, account: Seq<char>) -> LedgerModel {
    LedgerModel {
        name: account,
        debits: ledger_debits(es, account),
        credits: ledger_credits(es, account),
        balance: balance_of(ledger_net(es, account)),
    }
}

/// Sums the amounts of `items` from left to right; `None` exactly when a
/// running total leaves `i32`.
pub fn checked_total_postings(items: &Vec<LedgerItem>) -> (r: Option<i32>)
    ensures
        r == (if prefix_sums_fit(posting_amounts(ledger_items_view(items@))) {
            Some(total(posting_amounts(ledger_items_view(items@))) as i32)
        } else {
            None::<i32>
        }),
{
    let ghost s = posting_amounts(ledger_items_view(items@));
    let mut acc: i32 = 0;
    let mut i: usize = 0;
    assert(s.take(0) =~= Seq::<int>::empty());
    while i < items.len()
        invariant
            i <= items.len(),
            s == posting_amounts(ledger_items_view(items@)),
            s.len() == items.len(),
            acc as int == total(s.take(i as int)),
            forall|k: int| 0 <= k <= i ==> fits_i32(#[trigger] total(s.take(k))),
        decreases items.len() - i,
    {
        assert(s.take(i + 1).drop_last() =~= s.take(i as int));
        assert(s[i as int] == items@[i as int].amount);
        match acc.checked_add(items[i].amount) {
            None => {
                assert(!fits_i32(total(s.take(i + 1))));
                return None;
            },
            Some(v) => {
                acc = v;
            },
        }
        i = i + 1;
        assert forall|k: int| 0 <= k <= i implies fits_i32(#[trigger] total(s.take(k))) by {
            if k == i {
            }
        }
    }
    assert(s.take(i as int) =~= s);
    Some(acc)
}

/// Whether one of `items` is named `account`.
fn names_account(items: &Vec<EntryItem>, account: &String) -> (r: bool)
    ensures
        r == has_account(items_view(items@), account@),
{
    let ghost v = items_view(items@);
    for k in 0..items.len()
        invariant
            v == items_view(items@),
            forall|j: int| 0 <= j < k ==> v[j].name != account@,
    {
        if items[k].name == *account {
            assert(v[k as int].name == account@);
            return true;
        }
    }
    false
}

/// The posting against the first of `other`, if any.
fn first_posting_of(date: &String, other: &Vec<EntryItem>, out: &mut Vec<LedgerItem>)
    ensures
        ledger_items_view(final(out)@) == ledger_items_view(old(out)@) + first_posting(
            date@,
            items_view(other@),
        ),
{
    if other.len() > 0 {
        let first = &other[0];
        out.push(LedgerItem { date: date.clone(), account: first.name.clone(), amount: first.amount });
        assert(ledger_items_view(out@) =~= ledger_items_view(old(out)@) + first_posting(
            date@,
            items_view(other@),
        ));
    } else {
        assert(ledger_items_view(out@) =~= ledger_items_view(old(out)@) + first_posting(
            date@,
            items_view(other@),
        ));
    }
}

impl Journal {
    /// The ledger of `account`: for every entry that debits it, a debit
    /// posting against the entry's first credited line; for every entry that
    /// credits it, a credit posting against the entry's first debited line;
    /// and the balance of the two sides.
    pub fn generate_ledger(&self, account: &str) -> (l: Ledger)
        requires
            ledger_fits(self@, account@),
        ensures
            l@ == spec_ledger(self@, account@),
    {
        let r = self.try_generate_ledger(account);
        r.unwrap()
    }

    /// As `generate_ledger`, but `None` exactly when balancing the ledger
    /// would overflow `i32`.
    pub fn try_generate_ledger(&self, account: &str) -> (r: Option<Ledger>)
        ensures
            ledger_fits(self@, account@) <==> r is Some,
            r matches Some(l) ==> l@ == spec_ledger(self@, account@),
    {
        let ghost es = self@;
        let name = String::from_str(account);
        let mut all_debits: Vec<LedgerItem> = Vec::new();
        let mut all_credits: Vec<LedgerItem> = Vec::new();
        assert(es.take(0) =~= Seq::<EntryModel>::empty());
        for i in 0..self.0.len()
            invariant
                es == self@,
                es.len() == self.0.len(),
                name@ == account@,
                ledger_items_view(all_debits@) == ledger_debits(es.take(i as int), account@),
                ledger_items_view(all_credits@) == ledger_credits(es.take(i as int), account@),
        {
            let entry = &self.0[i];
            assert(es[i as int] == entry@);
            assert(es.take(i + 1).drop_last() =~= es.take(i as int));
            if names_account(&entry.debits, &name) {
                first_posting_of(&entry.date, &entry.credits, &mut all_debits);
            } else {
                assert(ledger_items_view(all_debits@) =~= ledger_items_view(all_debits@)
                    + debit_postings(entry@, account@));
            }
            if names_account(&entry.credits, &name) {
                first_posting_of(&entry.date, &entry.debits, &mut all_credits);
            } else {
                assert(ledger_items_view(all_credits@) =~= ledger_items_view(all_credits@)
                    + credit_postings(entry@, account@));
            }
        }
        assert(es.take(self.0.len() as int) =~= es);
        let debits_total: i32 = match checked_total_postings(&all_debits) {
            Some(t) => t,
            None => {
                return None;
            },
        };
        let credits_total: i32 = match checked_total_postings(&all_credits) {
            Some(t) => t,
            None => {
                return None;
            },
        };
        proof {
            lemma_fit_total(posting_amounts(ledger_debits(es, account@)));
            lemma_fit_total(posting_amounts(ledger_credits(es, account@)));
        }
        let net_amount: i32 = match debits_total.checked_sub(credits_total) {
            Some(n) => n,
            None => {
                return None;
            },
        };
        if net_amount == i32::MIN {
            return None;
        }
        let account_balance = if net_amount > 0 {
            LedgerBalance::DEBIT(net_amount)
        } else if net_amount < 0 {
            LedgerBalance::CREDIT(-net_amount)
        } else {
            LedgerBalance::NIL
        };
        Some(Ledger { name, debits: all_debits, credits: all_credits, balance: account_balance })
    }
}


// ---------------------------------------------------------------------
// Trial balance
// ---------------------------------------------------------------------

/// A trial balance: the debit balances and the credit balances of the
/// ledgers, their totals, and whether the totals agree.
pub struct TrialBalanceModel {
    pub heading: Seq<char>,
    pub date: Seq<char>,
    pub debits: Seq<ItemModel>,
    pub debits_total: int,
    pub credits: Seq<ItemModel>,
    pub credits_total: int,
    pub is_balanced: bool,
}

/// A trial balance.
#[derive(Debug, Clone)]
pub struct TrialBalance {
    pub heading: String,
    pub date: String,
    pub debits: Vec<EntryItem>,
    pub debits_total: i32,
    pub credits: Vec<EntryItem>,
    pub credits_total: i32,
    pub is_balanced: bool,
}

impl View for TrialBalance {
    type V = TrialBalanceModel;

    open spec fn view(&self) -> TrialBalanceModel {
        TrialBalanceModel {
            heading: self.heading@,
            date: self.date@,
            debits: items_view(self.debits@),
            debits_total: self.debits_total as int,
            credits: items_view(self.credits@),
            credits_total: self.credits_total as int,
            is_balanced: self.is_balanced,
        }
    }
}

/// The ledgers of a sequence of ledgers.
pub open spec fn ledgers_view(v: Seq<Ledger>) -> Seq<LedgerModel> {
    v.map_values(|l: Ledger| l@)
}

/// The debit line a ledger contributes to the trial balance.
pub open spec fn debit_line(l: LedgerModel) -> Seq<ItemModel> {
    match l.balance {
        LedgerBalance::DEBIT(a) => seq![ItemModel { name: l.name, amount: a as int }],
        _ => Seq::empty(),
    }
}

/// The credit line a ledger contributes to the trial balance.
pub open spec fn credit_line(l: LedgerModel) -> Seq<ItemModel> {
    match l.balance {
        LedgerBalance::CREDIT(a) => seq![ItemModel { name: l.name, amount: a as int }],
        _ => Seq::empty(),
    }
}

/// The debit balances of the ledgers, in ledger order.
pub open spec fn tb_debits(ls: Seq<LedgerModel>) -> Seq<ItemModel>
    decreases ls.len(),
{
    if ls.len() == 0 {
        Seq::empty()
    } else {
        tb_debits(ls.drop_last()) + debit_line(ls.last())
    }
}

/// The credit balances of the ledgers, in ledger order.
pub open spec fn tb_credits(ls: Seq<LedgerModel>) -> Seq<ItemModel>
    decreases ls.len(),
{
    if ls.len() == 0 {
        Seq::empty()
    } else {
        tb_credits(ls.drop_last()) + credit_line(ls.last())
    }
}

/// Whether both columns of the trial balance sum in `i32`.
pub open spec fn tb_fits(ls: Seq<LedgerModel>) -> bool {
    prefix_sums_fit(item_amounts(tb_debits(ls))) && prefix_sums_fit(item_amounts(tb_credits(ls)))
}

/// The trial balance drawn from the ledgers.
pub open spec fn spec_trial_balance(ls: Seq<LedgerModel>) -> TrialBalanceModel {
    let d = total(item_amounts(tb_debits(ls)));
    let c = total(item_amounts(tb_credits(ls)));
    TrialBalanceModel {
        heading: "TRIAL_BALANCE"@,
        date: "31-03-2027"@,
        debits: tb_debits(ls),
        debits_total: d,
        credits: tb_credits(ls),
        credits_total: c,
        is_balanced: d == c,
    }
}

/// Adds the line for `name` with amount `amount` to `out`.
fn push_line(out: &mut Vec<EntryItem>, name: &String, amount: i32)
    ensures
        items_view(final(out)@) == items_view(old(out)@).push(
            ItemModel { name: name@, amount: amount as int },
        ),
{
    out.push(EntryItem { name: name.clone(), amount });
    assert(items_view(out@) =~= items_view(old(out)@).push(
        ItemModel { name: name@, amount: amount as int },
    ));
}

/// The trial balance of the ledgers: each ledger with a debit balance gives a
/// debit line, each with a credit balance a credit line; the columns are
/// totalled and compared.
pub fn generate_trial_balance(all_ledgers: &Vec<Ledger>) -> (tb: TrialBalance)
    requires
        tb_fits(ledgers_view(all_ledgers@)),
    ensures
        tb@ == spec_trial_balance(ledgers_view(all_ledgers@)),
        tb.is_balanced <==> tb.debits_total == tb.credits_total,
{
    let r = try_generate_trial_balance(all_ledgers);
    r.unwrap()
}

/// As `generate_trial_balance`, but `None` exactly when a column total
/// would overflow `i32`.
pub fn try_generate_trial_balance(all_ledgers: &Vec<Ledger>) -> (r: Option<TrialBalance>)
    ensures
        tb_fits(ledgers_view(all_ledgers@)) <==> r is Some,
        r matches Some(tb) ==> tb@ == spec_trial_balance(ledgers_view(all_ledgers@)),
        r matches Some(tb) ==> (tb.is_balanced <==> tb.debits_total == tb.credits_total),
{
    let ghost ls = ledgers_view(all_ledgers@);
    let mut all_debits: Vec<EntryItem> = Vec::new();
    let mut all_credits: Vec<EntryItem> = Vec::new();
    assert(ls.take(0) =~= Seq::<LedgerModel>::empty());
    for i in 0..all_ledgers.len()
        invariant
            ls == ledgers_view(all_ledgers@),
            ls.len() == all_ledgers.len(),
            items_view(all_debits@) == tb_debits(ls.take(i as int)),
            items_view(all_credits@) == tb_credits(ls.take(i as int)),
    {
        let ledger = &all_ledgers[i];
        assert(ls[i as int] == ledger@);
        assert(ls.take(i + 1).drop_last() =~= ls.take(i as int));
        match ledger.balance {
            LedgerBalance::DEBIT(amount) => {
                push_line(&mut all_debits, &ledger.name, amount);
                assert(items_view(all_credits@) =~= items_view(all_credits@) + credit_line(
                    ledger@,
                ));
            },
            LedgerBalance::CREDIT(amount) => {
                push_line(&mut all_credits, &ledger.name, amount);
                assert(items_view(all_debits@) =~= items_view(all_debits@) + debit_line(
                    ledger@,
                ));
            },
            LedgerBalance::NIL => {
                assert(items_view(all_credits@) =~= items_view(all_credits@) + credit_line(
                    ledger@,
                ));
                assert(items_view(all_debits@) =~= items_view(all_debits@) + debit_line(
                    ledger@,
                ));
            },
        }
    }
    assert(ls.take(all_ledgers.len() as int) =~= ls);
    let debit_sum: i32 = match checked_total_items(&all_debits) {
        Some(t) => t,
        None => {
            return None;
        },
    };
    let credit_sum: i32 = match checked_total_items(&all_credits) {
        Some(t) => t,
        None => {
            return None;
        },
    };
    proof {
        lemma_fit_total(item_amounts(tb_debits(ls)));
        lemma_fit_total(item_amounts(tb_credits(ls)));
    }
    Some(
        TrialBalance {
            heading: String::from_str("TRIAL_BALANCE"),
            date: String::from_str("31-03-2027"),
            debits: all_debits,
            debits_total: debit_sum,
            credits: all_credits,
            credits_total: credit_sum,
            is_balanced: debit_sum == credit_sum,
        },
    )
}

// ---------------------------------------------------------------------
// The whole book-keeping pass
// ---------------------------------------------------------------------

/// The accounts of the journal, each once, in order of first occurrence.
pub open spec fn journal_accounts(es: Seq<EntryModel>) -> Seq<Seq<char>> {
    dedup(all_names(es))
}

/// The ledger of every account of the journal, in account order.
pub open spec fn journal_ledgers(es: Seq<EntryModel>) -> Seq<LedgerModel> {
    journal_accounts(es).map_values(|a: Seq<char>| spec_ledger(es, a))
}

/// Whether the whole pass stays within `i32`: validation never overflows,
/// and, for a valid journal, neither does any ledger nor the trial balance.
pub open spec fn pipeline_fits(es: Seq<EntryModel>) -> bool {
    &&& journal_checkable(es)
    &&& journal_valid(es) ==> {
        &&& forall|i: int|
            0 <= i < journal_accounts(es).len() ==> ledger_fits(es, #[trigger] journal_accounts(es)[i])
        &&& tb_fits(journal_ledgers(es))
    }
}

/// What a book-keeping pass over a journal comes to.
pub enum PipelineOutcome {
    /// Some entry does not balance; no ledgers are drawn.
    InvalidJournal,
    /// The journal is valid: the ledger of every account and the trial balance.
    Books(Vec<Ledger>, TrialBalance),
    /// A sum on the way does not fit in `i32`.
    Overflow,
}

/// Validates the journal and, when it is valid, draws the ledger of each of
/// its accounts (in order of first occurrence) and the trial balance of
/// those ledgers.
pub fn accounting_master_pipeline(journal: &Journal) -> (r: PipelineOutcome)
    ensures
        match r {
            PipelineOutcome::Overflow => !pipeline_fits(journal@),
            PipelineOutcome::InvalidJournal => pipeline_fits(journal@) && !journal_valid(journal@),
            PipelineOutcome::Books(ledgers, tb) => {
                &&& pipeline_fits(journal@)
                &&& journal_valid(journal@)
                &&& ledgers_view(ledgers@) == journal_ledgers(journal@)
                &&& tb@ == spec_trial_balance(journal_ledgers(journal@))
            },
        },
{
    let ghost es = journal@;
    match journal.try_validate_journal() {
        None => PipelineOutcome::Overflow,
        Some(false) => PipelineOutcome::InvalidJournal,
        Some(true) => {
            let all_accounts = journal.tokenize_entries();
            let ghost accts = journal_accounts(es);
            let mut all_ledgers: Vec<Ledger> = Vec::new();
            for i in 0..all_accounts.len()
                invariant
                    es == journal@,
                    journal_valid(es),
                    journal_checkable(es),
                    accts == journal_accounts(es),
                    strings_view(all_accounts@) == accts,
                    ledgers_view(all_ledgers@) == accts.take(i as int).map_values(
                        |a: Seq<char>| spec_ledger(es, a),
                    ),
                    forall|k: int| 0 <= k < i ==> ledger_fits(es, #[trigger] accts[k]),
            {
                assert(accts[i as int] == all_accounts@[i as int]@);
                match journal.try_generate_ledger(all_accounts[i].as_str()) {
                    None => {
                        return PipelineOutcome::Overflow;
                    },
                    Some(ledger) => {
                        let ghost before = all_ledgers@;
                        let ghost lv = ledger@;
                        assert(lv == spec_ledger(es, accts[i as int]));
                        all_ledgers.push(ledger);
                        assert(ledgers_view(all_ledgers@) =~= ledgers_view(before).push(lv));
                        assert(accts.take(i + 1).map_values(|a: Seq<char>| spec_ledger(es, a))
                            =~= accts.take(i as int).map_values(
                            |a: Seq<char>| spec_ledger(es, a),
                        ).push(spec_ledger(es, accts[i as int])));
                        assert(ledgers_view(all_ledgers@) =~= accts.take(i + 1).map_values(
                            |a: Seq<char>| spec_ledger(es, a),
                        ));
                    },
                }
            }
            assert(accts.take(all_accounts.len() as int) =~= accts);
            match try_generate_trial_balance(&all_ledgers) {
                None => PipelineOutcome::Overflow,
                Some(tb) => PipelineOutcome::Books(all_ledgers, tb),
            }
        },
    }
}

// ---------------------------------------------------------------------
// Reporting a mismatched entry
// ---------------------------------------------------------------------

/// What is reported of an entry whose sides do not add up: its date in
/// words, both totals, and debits minus credits.
pub struct AmountMismatch {
    pub human_date: String,
    pub debits_total: i32,
    pub credits_total: i32,
    pub difference: i32,
}

impl JournalEntry {
    /// The date in words, the debit total, the credit total and their
    /// difference, for reporting an amount mismatch; `None` exactly when
    /// the date's month reads as 0 or a total or the difference leaves
    /// `i32`.
    pub fn amount_error_report(&self) -> (r: Option<AmountMismatch>)
        ensures
            r is None <==> (month_is_zero(self@.date) || !self@.fits() || !fits_i32(
                self@.debit_total() - self@.credit_total(),
            )),
            r matches Some(m) ==> {
                &&& m.human_date@ == spec_convert_date(self@.date)
                &&& m.debits_total == self@.debit_total()
                &&& m.credits_total == self@.credit_total()
                &&& m.difference == self@.debit_total() - self@.credit_total()
            },
    {
        let human_date = match try_convert_entry_date(self.date.as_str()) {
            Some(d) => d,
            None => {
                return None;
            },
        };
        let debits_total: i32 = match checked_total_items(&self.debits) {
            Some(t) => t,
            None => {
                return None;
            },
        };
        let credits_total: i32 = match checked_total_items(&self.credits) {
            Some(t) => t,
            None => {
                return None;
            },
        };
        proof {
            lemma_fit_total(item_amounts(self@.debits));
            lemma_fit_total(item_amounts(self@.credits));
        }
        match debits_total.checked_sub(credits_total) {
            Some(difference) => Some(AmountMismatch { human_date, debits_total, credits_total, difference }),
            None => None,
        }
    }
}

} // verus!
