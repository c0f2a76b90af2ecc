use recipe_server::text::{
    char_is_whitespace, chars_of, ends_with, parse_i64, rfind, split, starts_with, to_decimal,
    trim,
};

fn lines(items: &[&str]) -> Vec<String> {
    items.iter().map(|s| s.to_string()).collect()
}

#[test]
fn split_keeps_empty_pieces() {
    assert_eq!(split("", '|'), lines(&[""]));
    assert_eq!(split("a", '|'), lines(&["a"]));
    assert_eq!(split("a|b", '|'), lines(&["a", "b"]));
    assert_eq!(split("a|", '|'), lines(&["a", ""]));
    assert_eq!(split("|", '|'), lines(&["", ""]));
    assert_eq!(split("||x", '|'), lines(&["", "", "x"]));
}

#[test]
fn split_counts_characters_not_bytes() {
    assert_eq!(split("crème|brûlée", '|'), lines(&["crème", "brûlée"]));
}

#[test]
fn prefix_and_suffix() {
    assert!(starts_with("sqlite://x.db", "sqlite://"));
    assert!(!starts_with("sqlite:/x.db", "sqlite://"));
    assert!(!starts_with("sq", "sqlite://"));
    assert!(starts_with("abc", ""));
    assert!(ends_with("sqlite://x.db", ".db"));
    assert!(!ends_with("sqlite://x.dbx", ".db"));
    assert!(!ends_with("db", ".db"));
}

#[test]
fn rfind_gives_last_position() {
    assert_eq!(rfind("a/b/c", '/'), Some(3));
    assert_eq!(rfind("abc", '/'), None);
    assert_eq!(rfind("é/x", '/'), Some(1));
    assert_eq!(rfind("", '/'), None);
}

#[test]
fn trim_removes_white_space_at_both_ends() {
    assert_eq!(trim("  apples \t\n"), "apples");
    assert_eq!(trim("\u{a0}a b\u{2003}"), "a b");
    assert_eq!(trim("   "), "");
    assert_eq!(trim(""), "");
    assert_eq!(trim("x"), "x");
}

#[test]
fn parse_i64_follows_decimal_notation() {
    assert_eq!(parse_i64("0"), Some(0));
    assert_eq!(parse_i64("42"), Some(42));
    assert_eq!(parse_i64("+42"), Some(42));
    assert_eq!(parse_i64("-42"), Some(-42));
    assert_eq!(parse_i64("-0"), Some(0));
    assert_eq!(parse_i64("0007"), Some(7));
    assert_eq!(parse_i64("9223372036854775807"), Some(i64::MAX));
    assert_eq!(parse_i64("-9223372036854775808"), Some(i64::MIN));
    assert_eq!(parse_i64("00000000000000000000000009223372036854775807"), Some(i64::MAX));
}

#[test]
fn parse_i64_refuses_what_is_no_number() {
    assert_eq!(parse_i64(""), None);
    assert_eq!(parse_i64("+"), None);
    assert_eq!(parse_i64("-"), None);
    assert_eq!(parse_i64("abc"), None);
    assert_eq!(parse_i64("12a"), None);
    assert_eq!(parse_i64(" 12"), None);
    assert_eq!(parse_i64("1 2"), None);
    assert_eq!(parse_i64("--1"), None);
    assert_eq!(parse_i64("٣"), None);
    assert_eq!(parse_i64("9223372036854775808"), None);
    assert_eq!(parse_i64("-9223372036854775809"), None);
    assert_eq!(parse_i64("99999999999999999999999"), None);
}

#[test]
fn parse_i64_agrees_with_std() {
    for text in ["7", "-7", "+7", "", "x", "007", "9223372036854775808", "1e3", "0x10"] {
        assert_eq!(parse_i64(text), text.parse::<i64>().ok());
    }
}

#[test]
fn to_decimal_writes_numbers() {
    assert_eq!(to_decimal(0), "0");
    assert_eq!(to_decimal(7), "7");
    assert_eq!(to_decimal(10), "10");
    assert_eq!(to_decimal(-305), "-305");
    assert_eq!(to_decimal(i64::MAX), "9223372036854775807");
    assert_eq!(to_decimal(i64::MIN), "-9223372036854775808");
}

#[test]
fn white_space_is_what_std_calls_white_space() {
    for code in 0..=0x10FFFFu32 {
        if let Some(c) = char::from_u32(code) {
            assert_eq!(char_is_whitespace(c), c.is_whitespace(), "U+{:04X}", code);
        }
    }
}

#[test]
fn white_space_has_its_members() {
    for c in [' ', '\t', '\n', '\r', '\u{b}', '\u{c}', '\u{85}', '\u{a0}', '\u{3000}'] {
        assert!(char_is_whitespace(c));
    }
    for c in ['a', '0', '_', '\u{200b}', '\u{180e}', '\u{feff}', '\u{0}'] {
        assert!(!char_is_whitespace(c));
    }
}

#[test]
fn chars_of_gives_the_characters() {
    assert_eq!(chars_of("aé|"), vec!['a', 'é', '|']);
    assert_eq!(chars_of(""), Vec::<char>::new());
}

#[test]
fn text_functions_agree_with_std() {
    let texts = [
        "",
        " ",
        "a",
        "a|b",
        "|a||b|",
        "  x y  ",
        "\u{a0}tab\t",
        "sqlite://db/recipe-server.db",
        "crème brûlée|ÉCLAIR",
        "a,b, c ,,d",
    ];
    for text in texts {
        assert_eq!(trim(text), text.trim());
        for delimiter in ['|', ',', ' ', 'é'] {
            let expected: Vec<String> = text.split(delimiter).map(|s| s.to_string()).collect();
            assert_eq!(split(text, delimiter), expected);
            let last = text.char_indices().filter(|(_, c)| *c == delimiter).count();
            assert_eq!(rfind(text, delimiter).is_some(), last > 0);
            assert_eq!(
                rfind(text, delimiter),
                text.chars().collect::<Vec<char>>().iter().rposition(|c| *c == delimiter)
            );
        }
        for other in texts {
            assert_eq!(starts_with(text, other), text.starts_with(other));
            assert_eq!(ends_with(text, other), text.ends_with(other));
        }
    }
}

#[test]
fn decimal_functions_agree_with_std() {
    let numbers = [0i64, 1, -1, 9, 10, 99, 100, 12345, -67890, i64::MAX, i64::MIN, i64::MAX - 1];
    for number in numbers {
        assert_eq!(to_decimal(number), number.to_string());
        assert_eq!(parse_i64(&number.to_string()), Some(number));
        assert_eq!(parse_i64(&to_decimal(number)), Some(number));
    }
    let texts = [
        "", "+", "-", "+-1", "-+1", "1-", "12 ", "0x1f", "١٢", "1_000", "+0", "-00", "18446744073709551616",
        "-9223372036854775808", "-9223372036854775809", "9223372036854775807", "9223372036854775808",
        "000000000000000000000000000001", "92233720368547758070", "-92233720368547758080",
    ];
    for text in texts {
        assert_eq!(parse_i64(text), text.parse::<i64>().ok(), "{:?}", text);
    }
}
