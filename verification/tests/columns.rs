use attendance::columns::{get_3_alpha, parse_col, parse_row};
use attendance::text::{chars_of, contains, decimal_string, parse_u32, string_of, trim};

#[test]
fn column_letters_with_digits_between() {
    assert_eq!(parse_col("bc3"), Some(55));
}

#[test]
fn column_without_letters_is_none() {
    assert_eq!(parse_col("3"), None);
    assert_eq!(parse_col(""), None);
    assert_eq!(parse_col(" 12-/"), None);
}

#[test]
fn column_single_letters() {
    assert_eq!(parse_col("A"), Some(1));
    assert_eq!(parse_col("z"), Some(26));
    assert_eq!(parse_col("AA"), Some(27));
    assert_eq!(parse_col("az"), Some(52));
    assert_eq!(parse_col("ZZZ"), Some(18278));
}

#[test]
fn column_takes_first_three_letters_only() {
    assert_eq!(parse_col("abcd"), parse_col("ABC"));
    assert_eq!(parse_col("a-b c9d"), Some(1 * 676 + 2 * 26 + 3));
}

#[test]
fn three_alpha_filters_and_uppercases() {
    assert_eq!(get_3_alpha("bc3"), "BC");
    assert_eq!(get_3_alpha("x1y2z3w"), "XYZ");
    assert_eq!(get_3_alpha("123"), "");
    assert_eq!(get_3_alpha(""), "");
    assert_eq!(get_3_alpha("工a号B"), "AB");
}

#[test]
fn row_numbers() {
    assert_eq!(parse_row("5"), Some(5));
    assert_eq!(parse_row("+7"), Some(7));
    assert_eq!(parse_row("0012"), Some(12));
    assert_eq!(parse_row("4294967295"), Some(4294967295));
}

#[test]
fn row_rejects_zero_negative_and_text() {
    assert_eq!(parse_row("0"), None);
    assert_eq!(parse_row("-3"), None);
    assert_eq!(parse_row("abc"), None);
    assert_eq!(parse_row(""), None);
    assert_eq!(parse_row("+"), None);
    assert_eq!(parse_row(" 5"), None);
    assert_eq!(parse_row("5 "), None);
    assert_eq!(parse_row("4294967296"), None);
    assert_eq!(parse_row("99999999999999999999999"), None);
}

#[test]
fn row_parsing_agrees_with_std() {
    for text in ["1", "+1", "00", "010", "4294967295", "4294967296", "", "+", "++1", "1+", "１"] {
        let expected = text.parse::<u32>().ok();
        assert_eq!(parse_u32(&chars_of(text)), expected, "{}", text);
    }
}

#[test]
fn decimal_strings() {
    assert_eq!(decimal_string(0), "0");
    assert_eq!(decimal_string(7), "7");
    assert_eq!(decimal_string(120), "120");
    assert_eq!(decimal_string(4294967295), "4294967295");
}

#[test]
fn chars_round_trip() {
    let text = "24-01-08 周一";
    assert_eq!(string_of(&chars_of(text)), text);
    assert_eq!(chars_of(text).len(), 11);
}

#[test]
fn substring_search() {
    let hay = chars_of("上午缺卡，已补卡");
    assert!(contains(&hay, &chars_of("缺卡")));
    assert!(contains(&hay, &chars_of("补卡")));
    assert!(contains(&hay, &chars_of("")));
    assert!(!contains(&hay, &chars_of("迟到")));
    assert!(!contains(&chars_of(""), &chars_of("缺")));
    assert!(contains(&chars_of(""), &chars_of("")));
}

#[test]
fn trim_agrees_with_std() {
    for text in ["", " ", "  a b  ", "\n\nx\n", "\u{3000}工号\u{a0}", "\t\r\n", "a", "缺早卡\n\n虚拟", "\u{200b}"] {
        assert_eq!(string_of(&trim(&chars_of(text))), text.trim(), "{:?}", text);
    }
}
