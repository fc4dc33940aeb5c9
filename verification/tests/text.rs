use lib::carrom::Name;
use lib::text::{chars_of, parse_unsigned_chars, push_chars, push_decimal, split_chars};

fn cs(s: &str) -> Vec<char> {
    s.chars().collect()
}

#[test]
fn parse_unsigned_cases() {
    assert_eq!(parse_unsigned_chars(&cs("0042"), u32::MAX as u64), Some(42));
    assert_eq!(parse_unsigned_chars(&cs("+7"), u32::MAX as u64), Some(7));
    assert_eq!(parse_unsigned_chars(&cs("+"), u32::MAX as u64), None);
    assert_eq!(parse_unsigned_chars(&cs(""), u32::MAX as u64), None);
    assert_eq!(parse_unsigned_chars(&cs("-1"), u32::MAX as u64), None);
    assert_eq!(parse_unsigned_chars(&cs("12a"), u32::MAX as u64), None);
    assert_eq!(parse_unsigned_chars(&cs("4294967295"), u32::MAX as u64), Some(4294967295));
    assert_eq!(parse_unsigned_chars(&cs("4294967296"), u32::MAX as u64), None);
    assert_eq!(parse_unsigned_chars(&cs("99999999999999999999999"), u64::MAX), None);
    for t in ["+", "-0", "+0", "00", " 1", "1 ", "\u{0663}", "+-1", "++1", "0x10", "1_000"] {
        assert_eq!(parse_unsigned_chars(&cs(t), u32::MAX as u64), t.parse::<u32>().ok().map(|v| v as u64));
    }
    for n in [0u32, 7, 10, 255, 65535, 1_000_000] {
        assert_eq!(parse_unsigned_chars(&cs(&n.to_string()), u32::MAX as u64), n.to_string().parse::<u64>().ok());
    }
}

#[test]
fn split_like_str_split() {
    for s in ["", "-", "a-b", "a--b-", "--", "12-07-2007"] {
        let ours: Vec<String> =
            split_chars(&cs(s), '-').into_iter().map(|v| v.into_iter().collect()).collect();
        let std: Vec<String> = s.split('-').map(|x| x.to_string()).collect();
        assert_eq!(ours, std);
    }
}

#[test]
fn decimal_and_chars() {
    let mut s = String::from("n=");
    push_decimal(&mut s, 0);
    push_decimal(&mut s, 1234567890);
    assert_eq!(s, "n=01234567890");
    let mut t = String::new();
    push_chars(&mut t, &cs("héllo"));
    assert_eq!(t, "héllo");
    assert_eq!(chars_of("añb"), vec!['a', 'ñ', 'b']);
}

#[test]
fn piece_names() {
    assert_eq!(Name::STRIKER, Name::STRIKER);
    assert_ne!(Name::QUEEN, Name::WHITE);
    let b = Name::BLACK;
    let c = b;
    assert_eq!(b, c);
}

#[test]
fn ascii_classes_match_std() {
    for u in 0u8..=0x7f {
        let c = u as char;
        assert_eq!(c.is_alphabetic(), c.is_ascii_alphabetic());
        assert_eq!(c.is_alphanumeric(), c.is_ascii_alphanumeric());
    }
}
