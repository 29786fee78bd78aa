use chess_engine::text::{chars_of, digit, parse_number, same_text, split_on};

#[test]
fn test_split_on() {
    assert_eq!(split_on("a b", ' '), vec!["a", "b"]);
    assert_eq!(split_on("", ' '), vec![""]);
    assert_eq!(split_on(" ", ' '), vec!["", ""]);
    assert_eq!(split_on("a  b ", ' '), vec!["a", "", "b", ""]);
    assert_eq!(split_on("8/8/pp", '/'), vec!["8", "8", "pp"]);
    assert_eq!(split_on("abc", '/'), vec!["abc"]);
    assert_eq!(split_on("é/ü", '/'), vec!["é", "ü"]);
}

#[test]
fn test_split_on_agrees_with_std() {
    for text in ["", "a", " a", "a ", "a b c", "  ", "rnbqkbnr/pppppppp/8 w KQkq - 0 1"] {
        let expected: Vec<&str> = text.split(' ').collect();
        assert_eq!(split_on(text, ' '), expected);
        assert_eq!(split_on(text, ' ').join(" "), text);
    }
}

#[test]
fn test_parse_number() {
    assert_eq!(parse_number("0", 100), Some(0));
    assert_eq!(parse_number("12", 100), Some(12));
    assert_eq!(parse_number("100", 100), Some(100));
    assert_eq!(parse_number("101", 100), None);
    assert_eq!(parse_number("+5", 100), Some(5));
    assert_eq!(parse_number("007", 100), Some(7));
    assert_eq!(parse_number("", 100), None);
    assert_eq!(parse_number("+", 100), None);
    assert_eq!(parse_number("++1", 100), None);
    assert_eq!(parse_number("1+", 100), None);
    assert_eq!(parse_number("-1", 100), None);
    assert_eq!(parse_number("12a", 100), None);
    assert_eq!(parse_number(" 1", 100), None);
    assert_eq!(parse_number("18446744073709551615", u64::MAX), Some(u64::MAX));
    assert_eq!(parse_number("18446744073709551616", u64::MAX), None);
    assert_eq!(parse_number("99999999999999999999999", u64::MAX), None);
    assert_eq!(parse_number("00000000000000000000000001", 1), Some(1));
}

#[test]
fn test_parse_number_agrees_with_std() {
    for text in ["0", "1", "+1", "-1", "", "+", "4294967295", "4294967296", "1x", "x1", "٣"] {
        let limit = u64::from(u32::MAX);
        assert_eq!(parse_number(text, limit), text.parse::<u32>().ok().map(u64::from));
    }
}

#[test]
fn test_digit() {
    assert_eq!(digit('0'), Some(0));
    assert_eq!(digit('7'), Some(7));
    assert_eq!(digit('9'), Some(9));
    assert_eq!(digit('a'), None);
    assert_eq!(digit('/'), None);
    assert_eq!(digit(':'), None);
}

#[test]
fn test_same_text() {
    assert!(same_text("", ""));
    assert!(same_text("Value", "Value"));
    assert!(!same_text("Value", "Valu"));
    assert!(!same_text("Valu", "Value"));
    assert!(!same_text("Value", "value"));
    assert_eq!(chars_of("a-é"), vec!['a', '-', 'é']);
}
