use lib::calculator::scan_expression;

fn scan(s: &str) -> (Vec<String>, Vec<char>) {
    let e = scan_expression(s).unwrap();
    (e.numbers, e.operators)
}

fn eval(s: &str) -> f32 {
    let (n, o) = scan(s);
    let nums: Vec<f32> = n.iter().map(|t| t.parse::<f32>().unwrap()).collect();
    let mut out = nums[0];
    for (k, op) in o.iter().enumerate() {
        match op {
            '+' => out += nums[k + 1],
            '-' => out -= nums[k + 1],
            '*' => out *= nums[k + 1],
            _ => out /= nums[k + 1],
        }
    }
    out
}

#[test]
fn scans_operands_and_operators() {
    assert_eq!(scan("4+5*6"), (vec!["4".to_string(), "5".to_string(), "6".to_string()], vec!['+', '*']));
    assert_eq!(scan("  12.5/2  "), (vec!["12.5".to_string(), "2".to_string()], vec!['/']));
    // only the ends are trimmed; inner spaces stay in the operand texts
    assert_eq!(scan("1 + 2"), (vec!["1 ".to_string(), " 2".to_string()], vec!['+']));
    assert_eq!(scan("42"), (vec!["42".to_string()], vec![]));
}

#[test]
fn leading_sign_applies_to_zero() {
    assert_eq!(scan("-3*2"), (vec!["0".to_string(), "3".to_string(), "2".to_string()], vec!['-', '*']));
    assert_eq!(scan("+"), (vec!["0".to_string()], vec!['+']));
}

#[test]
fn empty_operands_are_kept() {
    assert_eq!(scan("4+"), (vec!["4".to_string(), "".to_string()], vec!['+']));
    assert_eq!(scan("4++5"), (vec!["4".to_string(), "".to_string(), "5".to_string()], vec!['+', '+']));
}

#[test]
fn empty_input_is_refused() {
    assert_eq!(scan_expression("").err(), Some("Empty input!".to_string()));
    assert_eq!(scan_expression(" \t\n").err(), Some("Empty input!".to_string()));
}

#[test]
fn evaluates_left_to_right() {
    assert_eq!(eval("4+5*6"), 54.0);
    assert_eq!(eval("3+4*6-6+81"), 117.0);
    assert_eq!(eval("6/6/6/6/6"), 6.0 / 6.0 / 6.0 / 6.0 / 6.0);
    assert_eq!(eval("-3*2"), -6.0);
}
