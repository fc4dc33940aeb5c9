use lib::dates::{convert_entry_date, try_convert_entry_date};

#[test]
fn converts_main_example() {
    assert_eq!(convert_entry_date("12-07-2007"), "12th July 2007");
}

#[test]
fn ordinal_days() {
    assert_eq!(convert_entry_date("01-04-2027"), "1st April 2027");
    assert_eq!(convert_entry_date("02-12-2027"), "2nd December 2027");
    assert_eq!(convert_entry_date("3-1-1999"), "3rd January 1999");
    assert_eq!(convert_entry_date("21-02-2000"), "21th February 2000");
    assert_eq!(convert_entry_date("00-02-2000"), "0th February 2000");
}

#[test]
fn unreadable_parts_fall_back() {
    assert_eq!(convert_entry_date("xx-yy-2020"), "0th January 2020");
    assert_eq!(convert_entry_date("+5-+3-1999"), "5th March 1999");
    assert_eq!(convert_entry_date("5-13-1999"), "5th Unknown 1999");
    assert_eq!(convert_entry_date("4294967296-1-1"), "0th January 1");
    assert_eq!(convert_entry_date("4294967295-1-1"), "4294967295th January 1");
    assert_eq!(convert_entry_date("5--1999"), "5th January 1999");
    assert_eq!(convert_entry_date("5-99999999999999999999999-1999"), "5th January 1999");
}

#[test]
fn not_three_parts_kept_as_is() {
    assert_eq!(convert_entry_date("2027"), "2027");
    assert_eq!(convert_entry_date("1-2-3-4"), "1-2-3-4");
    assert_eq!(convert_entry_date(""), "");
}

#[test]
fn month_zero_is_refused() {
    assert_eq!(try_convert_entry_date("12-00-2007"), None);
    assert_eq!(try_convert_entry_date("12-0-2007"), None);
    assert_eq!(try_convert_entry_date("12-01-2007"), Some("12th January 2007".to_string()));
}
