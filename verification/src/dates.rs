//! Journal dates (`DD-MM-YYYY`) in words.
use vstd::prelude::*;
use vstd::string::StringExecFns;
use crate::text::{
    chars_of, char_vecs_view, decimal, digit_char, digits_value, parse_unsigned,
    parse_unsigned_chars, push_chars, push_decimal, split_on, split_chars,
};

verus! {

/// The names of the months, January first.
pub open spec fn month_names() -> Seq<Seq<char>> {
    seq![
        "January"@,
        "February"@,
        "March"@,
        "April"@,
        "May"@,
        "June"@,
        "July"@,
        "August"@,
        "September"@,
        "October"@,
        "November"@,
        "December"@,
    ]
}

/// The day of the month as an ordinal: `1st`, `2nd`, `3rd`, then the number
/// followed by `th` (so also `0th`, `21th`, ...).
pub open spec fn day_ordinal(day: nat) -> Seq<char> {
    if day == 1 {
        "1st"@
    } else if day == 2 {
        "2nd"@
    } else if day == 3 {
        "3rd"@
    } else {
        decimal(day) + "th"@
    }
}

/// The name of month `m` (counted from 1), or `Unknown`.
pub open spec fn month_name(m: nat) -> Seq<char> {
    if 1 <= m <= 12 {
        month_names()[m - 1]
    } else {
        "Unknown"@
    }
}

/// The day read from the first part of a date; unreadable days count as 0.
pub open spec fn date_day(part: Seq<char>) -> nat {
    match parse_unsigned(part, u32::MAX as nat) {
        Some(v) => v,
        None => 0,
    }
}

/// The month read from the second part of a date; unreadable months count
/// as 1.
pub open spec fn date_month(part: Seq<char>) -> nat {
    match parse_unsigned(part, usize::MAX as nat) {
        Some(v) => v,
        None => 1,
    }
}

/// A date in words: `DD-MM-YYYY` becomes `<day ordinal> <month name> <year>`;
/// a text that does not split into three parts at `-` is kept as it is.
pub open spec fn spec_convert_date(date: Seq<char>) -> Seq<char> {
    let parts = split_on(date, '-');
    if parts.len() != 3 {
        date
    } else {
        day_ordinal(date_day(parts[0])) + " "@ + month_name(date_month(parts[1])) + " "@
            + parts[2]
    }
}

/// Whether the date has three parts and its month reads as 0 (for which no
/// month precedes month 1).
pub open spec fn month_is_zero(date: Seq<char>) -> bool {
    let parts = split_on(date, '-');
    parts.len() == 3 && date_month(parts[1]) == 0
}

/// The name of month `m`, or `Unknown`.
fn month_str(m: u64) -> (s: &'static str)
    requires
        m >= 1,
    ensures
        s@ == month_name(m as nat),
{
    match m {
        1 => "January",
        2 => "February",
        3 => "March",
        4 => "April",
        5 => "May",
        6 => "June",
        7 => "July",
        8 => "August",
        9 => "September",
        10 => "October",
        11 => "November",
        12 => "December",
        _ => "Unknown",
    }
}

/// Writes a journal date in words, e.g. `12-07-2007` as `12th July 2007`.
pub fn convert_entry_date(date: &str) -> (r: String)
    requires
        !month_is_zero(date@),
    ensures
        r@ == spec_convert_date(date@),
{
    let r = try_convert_entry_date(date);
    r.unwrap()
}

/// As `convert_entry_date`; `None` exactly when the month reads as 0.
pub fn try_convert_entry_date(date: &str) -> (r: Option<String>)
    ensures
        month_is_zero(date@) <==> r is None,
        r matches Some(s) ==> s@ == spec_convert_date(date@),
{
    let chars = chars_of(date);
    let parts = split_chars(&chars, '-');
    let ghost ps = char_vecs_view(parts@);
    if parts.len() != 3 {
        return Some(String::from_str(date));
    }
    assert(ps[0] == parts@[0]@ && ps[1] == parts@[1]@ && ps[2] == parts@[2]@);
    let day_num: u64 = match parse_unsigned_chars(&parts[0], u32::MAX as u64) {
        Some(v) => v,
        None => 0,
    };
    let month_num: u64 = match parse_unsigned_chars(&parts[1], usize::MAX as u64) {
        Some(v) => v,
        None => 1,
    };
    if month_num == 0 {
        return None;
    }
    let mut out = String::new();
    if day_num == 1 {
        out.append("1st");
    } else if day_num == 2 {
        out.append("2nd");
    } else if day_num == 3 {
        out.append("3rd");
    } else {
        push_decimal(&mut out, day_num);
        out.append("th");
    }
    out.append(" ");
    out.append(month_str(month_num));
    out.append(" ");
    push_chars(&mut out, &parts[2]);
    Some(out)
}

/// Months are named in English: 1 is January, ..., 12 is December; any
/// other number reads `Unknown`.
pub proof fn lemma_month_names_in_english(m: nat)
    ensures
        month_name(1) == "January"@,
        month_name(2) == "February"@,
        month_name(3) == "March"@,
        month_name(4) == "April"@,
        month_name(5) == "May"@,
        month_name(6) == "June"@,
        month_name(7) == "July"@,
        month_name(8) == "August"@,
        month_name(9) == "September"@,
        month_name(10) == "October"@,
        month_name(11) == "November"@,
        month_name(12) == "December"@,
        (m == 0 || m > 12) ==> month_name(m) == "Unknown"@,
{
}

proof fn lemma_split_without_sep(a: Seq<char>, sep: char)
    requires
        !a.contains(sep),
    ensures
        split_on(a, sep) == seq![a],
    decreases a.len(),
{
    if a.len() > 0 {
        let p = a.drop_last();
        assert(!p.contains(sep)) by {
            if p.contains(sep) {
                let i: int = choose|i: int| 0 <= i < p.len() && p[i] == sep;
                assert(a[i] == sep);
            }
        }
        lemma_split_without_sep(p, sep);
        assert(a[a.len() - 1] != sep);
        assert(p.push(a.last()) =~= a);
    } else {
        assert(a =~= Seq::<char>::empty());
    }
}

proof fn lemma_split_nonempty_here(s: Seq<char>, sep: char)
    ensures
        split_on(s, sep).len() >= 1,
    decreases s.len(),
{
    if s.len() > 0 {
        lemma_split_nonempty_here(s.drop_last(), sep);
    }
}

proof fn lemma_split_at_sep(a: Seq<char>, b: Seq<char>, sep: char)
    ensures
        split_on(a + seq![sep] + b, sep) == split_on(a, sep) + split_on(b, sep),
    decreases b.len(),
{
    let s = a + seq![sep] + b;
    if b.len() == 0 {
        assert(s.drop_last() =~= a);
        assert(split_on(b, sep) =~= seq![Seq::<char>::empty()]);
        assert(split_on(s, sep) =~= split_on(a, sep) + split_on(b, sep));
    } else {
        let bp = b.drop_last();
        lemma_split_at_sep(a, bp, sep);
        lemma_split_nonempty_here(bp, sep);
        lemma_split_nonempty_here(a, sep);
        assert(s.drop_last() =~= a + seq![sep] + bp);
        assert(s.last() == b.last());
        assert(split_on(s, sep) =~= split_on(a, sep) + split_on(b, sep));
    }
}

/// A date `D-M-Y` whose parts hold no `-` reads as the ordinal of the day
/// read from `D`, the name of the month read from `M`, and `Y` as it stands.
pub proof fn lemma_convert_three_parts(d: Seq<char>, m: Seq<char>, y: Seq<char>)
    requires
        !d.contains('-'),
        !m.contains('-'),
        !y.contains('-'),
    ensures
        spec_convert_date(d + seq!['-'] + m + seq!['-'] + y) == day_ordinal(date_day(d)) + " "@
            + month_name(date_month(m)) + " "@ + y,
{
    lemma_split_without_sep(d, '-');
    lemma_split_without_sep(m, '-');
    lemma_split_without_sep(y, '-');
    lemma_split_at_sep(m, y, '-');
    assert(d + seq!['-'] + m + seq!['-'] + y =~= d + seq!['-'] + (m + seq!['-'] + y));
    lemma_split_at_sep(d, m + seq!['-'] + y, '-');
    let parts = split_on(d + seq!['-'] + m + seq!['-'] + y, '-');
    assert(parts =~= seq![d, m, y]);
}

/// A month written with two digits `MM` reads as the number `MM`.
pub proof fn lemma_two_digit_month(n: nat)
    requires
        n < 100,
    ensures
        date_month(seq![digit_char((n / 10) as int), digit_char((n % 10) as int)]) == n,
{
    let s = seq![digit_char((n / 10) as int), digit_char((n % 10) as int)];
    let hi = (n / 10) as int;
    let lo = (n % 10) as int;
    assert(((hi + 48) as char) as int == hi + 48);
    assert(((lo + 48) as char) as int == lo + 48);
    assert(s.drop_last() =~= seq![digit_char((n / 10) as int)]);
    let t = s.drop_last();
    assert(t.drop_last() =~= Seq::<char>::empty());
    assert(digits_value(Seq::<char>::empty()) == 0);
    assert(t.last() == digit_char(hi));
    assert(digits_value(t) == n / 10);
    assert(s.last() == digit_char(lo));
    assert(digits_value(s) == n);
}

} // verus!
