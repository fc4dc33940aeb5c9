use vstd::prelude::*;

verus! {

/// Appends `c` to `s`.
///
/// Trusted: calls `String::push`, whose documentation says it appends the
/// given character to the end of the string; the contract claims exactly
/// that of the character sequence.
#[verifier::external_body]
pub(crate) fn push_char(s: &mut String, c: char)
    ensures
        final(s)@ == old(s)@.push(c),
{
    s.push(c);
}

/// The characters of `s`, in order.
pub fn chars_of(s: &str) -> (v: Vec<char>)
    ensures
        v@ == s@,
{
    let mut v: Vec<char> = Vec::new();
    for c in it: s.chars()
        invariant
            v@ == it.seq().take(it.index() as int),
    {
        v.push(c);
    }
    v
}

} // verus!

verus! {

/// The decimal digit character for `d` (`0 <= d < 10`).
pub open spec fn digit_char(d: int) -> char {
    (d + 48) as char
}

/// Whether `c` is an ASCII decimal digit.
pub open spec fn is_digit(c: char) -> bool {
    '0' <= c && c <= '9'
}

/// The value of an ASCII decimal digit.
pub open spec fn digit_value(c: char) -> int {
    (c as int) - 48
}

/// The decimal numeral of `n`, without leading zeros.
pub open spec fn decimal(n: nat) -> Seq<char>
    decreases n,
{
    if n < 10 {
        seq![digit_char(n as int)]
    } else {
        decimal(n / 10).push(digit_char((n % 10) as int))
    }
}

/// The value of a string of decimal digits (most significant first).
pub open spec fn digits_value(s: Seq<char>) -> nat
    decreases s.len(),
{
    if s.len() == 0 {
        0
    } else {
        (digits_value(s.drop_last()) * 10 + digit_value(s.last())) as nat
    }
}

/// Whether every character of `s` is a decimal digit.
pub open spec fn all_digits(s: Seq<char>) -> bool {
    forall|i: int| 0 <= i < s.len() ==> is_digit(#[trigger] s[i])
}

/// The digit part of an unsigned numeral: an optional leading `+` is dropped.
pub open spec fn unsigned_digits(s: Seq<char>) -> Seq<char> {
    if s.len() > 0 && s[0] == '+' {
        s.drop_first()
    } else {
        s
    }
}

/// How the standard library reads an unsigned integer no larger than
/// `bound` from `s`: an optional `+`, then at least one decimal digit and
/// nothing else; a value over `bound` is refused.
pub open spec fn parse_unsigned(s: Seq<char>, bound: nat) -> Option<nat> {
    let d = unsigned_digits(s);
    if d.len() > 0 && all_digits(d) && digits_value(d) <= bound {
        Some(digits_value(d))
    } else {
        None
    }
}

/// The pieces of `s` between occurrences of `sep`, as `str::split` yields
/// them: `k` separators give `k + 1` pieces, empty ones included.
pub open spec fn split_on(s: Seq<char>, sep: char) -> Seq<Seq<char>>
    decreases s.len(),
{
    if s.len() == 0 {
        seq![Seq::<char>::empty()]
    } else {
        let prev = split_on(s.drop_last(), sep);
        if s.last() == sep {
            prev.push(Seq::<char>::empty())
        } else {
            prev.update(prev.len() - 1, prev.last().push(s.last()))
        }
    }
}

proof fn lemma_split_nonempty(s: Seq<char>, sep: char)
    ensures
        split_on(s, sep).len() >= 1,
    decreases s.len(),
{
    if s.len() > 0 {
        lemma_split_nonempty(s.drop_last(), sep);
    }
}

proof fn lemma_digits_value_monotone(s: Seq<char>, m: int, n: int)
    requires
        0 <= m <= n <= s.len(),
        all_digits(s),
    ensures
        digits_value(s.take(m)) <= digits_value(s.take(n)),
    decreases n - m,
{
    if m < n {
        lemma_digits_value_monotone(s, m, n - 1);
        assert(s.take(n).drop_last() =~= s.take(n - 1));
        assert(is_digit(s[n - 1]));
    }
}

/// The decimal digit for `d`.
pub fn digit_to_char(d: u64) -> (c: char)
    requires
        d < 10,
    ensures
        c == digit_char(d as int),
{
    match d {
        0 => '0',
        1 => '1',
        2 => '2',
        3 => '3',
        4 => '4',
        5 => '5',
        6 => '6',
        7 => '7',
        8 => '8',
        _ => '9',
    }
}

/// Appends the decimal numeral of `n` to `s`.
pub fn push_decimal(s: &mut String, n: u64)
    ensures
        final(s)@ == old(s)@ + decimal(n as nat),
    decreases n,
{
    if n < 10 {
        push_char(s, digit_to_char(n));
        assert(old(s)@ + decimal(n as nat) =~= old(s)@.push(digit_char(n as int)));
    } else {
        push_decimal(s, n / 10);
        push_char(s, digit_to_char(n % 10));
        assert(old(s)@ + decimal(n as nat) =~= (old(s)@ + decimal((n / 10) as nat)).push(
            digit_char((n % 10) as int),
        ));
    }
}

/// Appends the characters of `cs` to `s`.
pub fn push_chars(s: &mut String, cs: &Vec<char>)
    ensures
        final(s)@ == old(s)@ + cs@,
{
    let ghost start = s@;
    for i in 0..cs.len()
        invariant
            s@ == start + cs@.take(i as int),
    {
        push_char(s, cs[i]);
        assert(start + cs@.take(i + 1) =~= (start + cs@.take(i as int)).push(cs@[i as int]));
    }
    assert(cs@.take(cs.len() as int) =~= cs@);
}

/// Reads an unsigned integer no larger than `bound` from `s`, as the
/// standard library's integer parsing does.
pub fn parse_unsigned_chars(s: &Vec<char>, bound: u64) -> (r: Option<u64>)
    ensures
        match parse_unsigned(s@, bound as nat) {
            Some(v) => r == Some(v as u64),
            None => r is None,
        },
{
    let start: usize = if s.len() > 0 && s[0] == '+' { 1 } else { 0 };
    let ghost d = unsigned_digits(s@);
    assert(d =~= s@.skip(start as int));
    if start >= s.len() {
        return None;
    }
    let mut k: usize = start;
    while k < s.len()
        invariant
            start <= k <= s.len(),
            d == s@.skip(start as int),
            d == unsigned_digits(s@),
            forall|i: int| start <= i < k ==> is_digit(#[trigger] s@[i]),
        decreases s.len() - k,
    {
        if !('0' <= s[k] && s[k] <= '9') {
            assert(!is_digit(d[k - start]));
            assert(!all_digits(d));
            assert(parse_unsigned(s@, bound as nat) is None);
            return None;
        }
        k = k + 1;
    }
    assert(all_digits(d)) by {
        assert forall|i: int| 0 <= i < d.len() implies is_digit(#[trigger] d[i]) by {
            assert(d[i] == s@[i + start]);
        }
    }
    let mut acc: u64 = 0;
    let mut j: usize = start;
    while j < s.len()
        invariant
            start <= j <= s.len(),
            d == s@.skip(start as int),
            d == unsigned_digits(s@),
            all_digits(d),
            acc as nat == digits_value(d.take(j - start)),
            acc <= bound,
        decreases s.len() - j,
    {
        let c = s[j];
        assert(d[j - start] == c);
        assert(d.take(j - start + 1).drop_last() =~= d.take(j - start));
        assert(d.take(j - start + 1).last() == c);
        assert(is_digit(d[j - start]));
        let dv: u64 = (c as u64) - 48;
        assert(digits_value(d.take(j - start + 1)) == acc * 10 + dv);
        match acc.checked_mul(10) {
            None => {
                proof {
                    lemma_digits_value_monotone(d, j - start + 1, d.len() as int);
                    assert(d.take(d.len() as int) =~= d);
                }
                return None;
            },
            Some(m) => match m.checked_add(dv) {
                None => {
                    proof {
                        lemma_digits_value_monotone(d, j - start + 1, d.len() as int);
                        assert(d.take(d.len() as int) =~= d);
                    }
                    return None;
                },
                Some(v) => {
                    if v > bound {
                        proof {
                            lemma_digits_value_monotone(d, j - start + 1, d.len() as int);
                            assert(d.take(d.len() as int) =~= d);
                        }
                        return None;
                    }
                    acc = v;
                },
            },
        }
        j = j + 1;
    }
    assert(d.take(d.len() as int) =~= d);
    Some(acc)
}

/// The character sequences held by a vector of character vectors.
pub open spec fn char_vecs_view(v: Seq<Vec<char>>) -> Seq<Seq<char>> {
    v.map_values(|p: Vec<char>| p@)
}

/// Splits `s` at every occurrence of `sep`, as `str::split` does.
pub fn split_chars(s: &Vec<char>, sep: char) -> (parts: Vec<Vec<char>>)
    ensures
        char_vecs_view(parts@) == split_on(s@, sep),
{
    let mut done: Vec<Vec<char>> = Vec::new();
    let mut current: Vec<char> = Vec::new();
    for i in 0..s.len()
        invariant
            char_vecs_view(done@).push(current@) == split_on(s@.take(i as int), sep),
    {
        let ghost before = s@.take(i as int);
        assert(s@.take(i + 1).drop_last() =~= before);
        proof { lemma_split_nonempty(before, sep); }
        assert(s@.take(i + 1).last() == s@[i as int]);
        if s[i] == sep {
            let finished = current;
            done.push(finished);
            current = Vec::new();
            assert(char_vecs_view(done@).push(current@) =~= split_on(s@.take(i + 1), sep));
        } else {
            current.push(s[i]);
            assert(char_vecs_view(done@).push(current@) =~= split_on(s@.take(i + 1), sep));
        }
    }
    assert(s@.take(s.len() as int) =~= s@);
    let ghost before = char_vecs_view(done@).push(current@);
    done.push(current);
    assert(char_vecs_view(done@) =~= before);
    done
}

} // verus!
