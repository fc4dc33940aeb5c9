//! Reading a left-to-right arithmetic expression (`+ - * /`, no precedence)
//! into its operand texts and its operators.
use vstd::prelude::*;
use vstd::string::StringExecFns;
use crate::accounting::strings_view;
use crate::lexer::{is_whitespace, white_space};
use crate::text::{chars_of, push_char};

verus! {

/// Whether `c` is one of the four operators.
pub open spec fn is_operator(c: char) -> bool {
    c == '+' || c == '-' || c == '*' || c == '/'
}

/// The texts between operators: `k` operators give `k + 1` texts, empty
/// ones included.
pub open spec fn split_operands(t: Seq<char>) -> Seq<Seq<char>>
    decreases t.len(),
{
    if t.len() == 0 {
        seq![Seq::<char>::empty()]
    } else {
        let prev = split_operands(t.drop_last());
        if is_operator(t.last()) {
            prev.push(Seq::<char>::empty())
        } else {
            prev.update(prev.len() - 1, prev.last().push(t.last()))
        }
    }
}

/// The operators of `t`, in order.
pub open spec fn operators_of(t: Seq<char>) -> Seq<char>
    decreases t.len(),
{
    if t.len() == 0 {
        Seq::empty()
    } else if is_operator(t.last()) {
        operators_of(t.drop_last()).push(t.last())
    } else {
        operators_of(t.drop_last())
    }
}

/// The position of the first character of `s` from `i` on that is not
/// whitespace (or the length).
pub open spec fn trim_start(s: Seq<char>, i: int) -> int
    decreases s.len() - i,
{
    if i < s.len() && white_space(s[i]) {
        trim_start(s, i + 1)
    } else {
        i
    }
}

/// The position just after the last character of `s` before `j` that is
/// not whitespace, looking no further back than `lo`.
pub open spec fn trim_end(s: Seq<char>, j: int, lo: int) -> int
    decreases j - lo,
{
    if j > lo && white_space(s[j - 1]) {
        trim_end(s, j - 1, lo)
    } else {
        j
    }
}

/// `s` without leading and trailing whitespace, as `str::trim` gives it.
pub open spec fn trimmed(s: Seq<char>) -> Seq<char> {
    let a: int = trim_start(s, 0);
    s.subrange(a, trim_end(s, s.len() as int, a))
}

/// The operand texts and operators of a non-empty, sign-free expression
/// text: the texts between operators and the operators in order; an empty
/// text has neither.
pub open spec fn scan_operands(t: Seq<char>) -> (Seq<Seq<char>>, Seq<char>) {
    if t.len() == 0 {
        (Seq::empty(), Seq::empty())
    } else {
        (split_operands(t), operators_of(t))
    }
}

/// What an expression reads as: `None` when it is empty or all whitespace;
/// otherwise the operand texts and the operators, where a leading `+` or
/// `-` applies to an implicit operand `0`.
pub open spec fn spec_expression(input: Seq<char>) -> Option<(Seq<Seq<char>>, Seq<char>)> {
    let s = trimmed(input);
    if s.len() == 0 {
        None
    } else if s[0] == '+' || s[0] == '-' {
        let (n, o) = scan_operands(s.drop_first());
        Some((seq!["0"@] + n, seq![s[0]] + o))
    } else {
        Some(scan_operands(s))
    }
}

/// An expression read into its operand texts and its operators; the
/// operators apply from left to right, the `k`-th between operands `k` and
/// `k + 1`.
pub struct Expression {
    pub numbers: Vec<String>,
    pub operators: Vec<char>,
}

/// The operand texts and operators of `s[from..to]`.
fn scan_range(s: &Vec<char>, from: usize, to: usize) -> (r: (Vec<String>, Vec<char>))
    requires
        from <= to <= s.len(),
    ensures
        (strings_view(r.0@), r.1@) == scan_operands(s@.subrange(from as int, to as int)),
{
    let ghost t = s@.subrange(from as int, to as int);
    let mut numbers: Vec<String> = Vec::new();
    let mut ops: Vec<char> = Vec::new();
    if from == to {
        assert(strings_view(numbers@) =~= Seq::<Seq<char>>::empty());
        return (numbers, ops);
    }
    let mut current = String::new();
    let mut k: usize = from;
    assert(t.take(0) =~= Seq::<char>::empty());
    while k < to
        invariant
            from <= k <= to <= s.len(),
            t == s@.subrange(from as int, to as int),
            strings_view(numbers@).push(current@) == split_operands(t.take(k - from)),
            ops@ == operators_of(t.take(k - from)),
        decreases to - k,
    {
        let c = s[k];
        assert(t[k - from] == c);
        assert(t.take(k - from + 1).drop_last() =~= t.take(k - from));
        assert(t.take(k - from + 1).last() == c);
        if c == '+' || c == '-' || c == '*' || c == '/' {
            let ghost before = strings_view(numbers@).push(current@);
            let done = current;
            numbers.push(done);
            ops.push(c);
            current = String::new();
            assert(strings_view(numbers@).push(current@) =~= before.push(Seq::<char>::empty()));
        } else {
            push_char(&mut current, c);
            assert(strings_view(numbers@).push(current@) =~= split_operands(t.take(k - from + 1)));
        }
        k = k + 1;
    }
    assert(t.take(to - from) =~= t);
    let ghost last = strings_view(numbers@).push(current@);
    numbers.push(current);
    assert(strings_view(numbers@) =~= last);
    (numbers, ops)
}

/// Reads an expression into its operand texts and operators, after
/// trimming surrounding whitespace; an empty expression is refused with
/// `Empty input!`.
pub fn scan_expression(input: &str) -> (r: Result<Expression, String>)
    ensures
        match spec_expression(input@) {
            None => r matches Err(e) && e@ == "Empty input!"@,
            Some((n, o)) => r matches Ok(x) && strings_view(x.numbers@) == n && x.operators@ == o,
        },
{
    let s = chars_of(input);
    let ghost sv = s@;
    let mut a: usize = 0;
    while a < s.len() && is_whitespace(s[a])
        invariant
            a <= s.len(),
            s@ == sv,
            trim_start(sv, 0) == trim_start(sv, a as int),
        decreases s.len() - a,
    {
        a = a + 1;
    }
    let mut b: usize = s.len();
    while b > a && is_whitespace(s[b - 1])
        invariant
            a <= b <= s.len(),
            s@ == sv,
            trim_start(sv, 0) == a,
            trim_end(sv, sv.len() as int, a as int) == trim_end(sv, b as int, a as int),
        decreases b - a,
    {
        b = b - 1;
    }
    assert(trimmed(sv) =~= sv.subrange(a as int, b as int));
    if a == b {
        return Err(String::from_str("Empty input!"));
    }
    let first = s[a];
    if first == '+' || first == '-' {
        assert(trimmed(sv).drop_first() =~= sv.subrange(a + 1, b as int));
        let (numbers, ops) = scan_range(&s, a + 1, b);
        let mut all_numbers: Vec<String> = Vec::new();
        all_numbers.push(String::from_str("0"));
        let mut all_ops: Vec<char> = Vec::new();
        all_ops.push(first);
        let ghost nv = strings_view(numbers@);
        let ghost ov = ops@;
        let mut i: usize = 0;
        while i < numbers.len()
            invariant
                i <= numbers.len(),
                nv == strings_view(numbers@),
                strings_view(all_numbers@) == seq!["0"@] + nv.take(i as int),
            decreases numbers.len() - i,
        {
            let ghost before = strings_view(all_numbers@);
            let n = numbers[i].clone();
            assert(n@ == nv[i as int]);
            all_numbers.push(n);
            assert(strings_view(all_numbers@) =~= before.push(nv[i as int]));
            assert(nv.take(i + 1) =~= nv.take(i as int).push(nv[i as int]));
            assert(strings_view(all_numbers@) =~= seq!["0"@] + nv.take(i + 1));
            i = i + 1;
        }
        let mut j: usize = 0;
        while j < ops.len()
            invariant
                j <= ops.len(),
                ov == ops@,
                all_ops@ == seq![first] + ov.take(j as int),
            decreases ops.len() - j,
        {
            all_ops.push(ops[j]);
            assert(all_ops@ =~= seq![first] + ov.take(j + 1));
            j = j + 1;
        }
        assert(nv.take(numbers.len() as int) =~= nv);
        assert(ov.take(ops.len() as int) =~= ov);
        Ok(Expression { numbers: all_numbers, operators: all_ops })
    } else {
        let (numbers, ops) = scan_range(&s, a, b);
        Ok(Expression { numbers, operators: ops })
    }
}

/// Splitting at operators gives one more text than there are operators.
pub proof fn lemma_operands_outnumber_operators(t: Seq<char>)
    ensures
        split_operands(t).len() == operators_of(t).len() + 1,
    decreases t.len(),
{
    if t.len() > 0 {
        lemma_operands_outnumber_operators(t.drop_last());
    }
}

/// Every operator of a read expression stands between two operands, except
/// when the whole expression is a lone sign: then there is one operand (the
/// implicit `0`) and one operator.
pub proof fn lemma_expression_shape(input: Seq<char>)
    ensures
        spec_expression(input) matches Some((n, o)) ==> {
            ||| n.len() == o.len() + 1
            ||| trimmed(input).len() == 1 && n.len() == 1 && o.len() == 1
        },
{
    let s = trimmed(input);
    if s.len() > 0 {
        if s[0] == '+' || s[0] == '-' {
            lemma_operands_outnumber_operators(s.drop_first());
        } else {
            lemma_operands_outnumber_operators(s);
        }
    }
}

} // verus!
