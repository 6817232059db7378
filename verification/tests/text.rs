use regex::Regex;
use wildfly_container_versions::decimal::{decimal_string, parse_u16};
use wildfly_container_versions::enumeration::is_blank_text;
use wildfly_container_versions::text::{chars_of, contains_text, find, same_text, split_text};
use wildfly_container_versions::token::{is_dev_word, parse_version_identifier};

#[test]
fn split_is_that_of_str() {
    for (text, pattern) in [
        ("10..20", ".."),
        ("10....20", ".."),
        ("...", ".."),
        ("..", ".."),
        ("", ".."),
        ("", ","),
        (",", ","),
        ("a,b,,c,", ","),
        ("10xx20", "x"),
        ("2x10", "x"),
        ("äöü,ß", ","),
        ("aaa", "aa"),
    ] {
        let expected: Vec<&str> = text.split(pattern).collect();
        assert_eq!(split_text(text, pattern), expected);
    }
    assert_eq!(split_text("10....20", ".."), vec!["10", "", "20"]);
    assert_eq!(split_text("...", ".."), vec!["", "."]);
    assert_eq!(split_text("abc", ""), vec!["abc"]);
}

#[test]
fn find_gives_the_first_occurrence() {
    let hay = chars_of("10..20..30");
    let dots = chars_of("..");
    assert_eq!(find(&hay, 0, &dots), Some(2));
    assert_eq!(find(&hay, 3, &dots), Some(6));
    assert_eq!(find(&hay, 7, &dots), None);
    assert_eq!(find(&hay, 10, &dots), None);
    assert_eq!(find(&chars_of("."), 0, &dots), None);
    assert!(contains_text("10..20", ".."));
    assert!(!contains_text("10.20", ".."));
    assert!(same_text("dev", "dev"));
    assert!(!same_text("dev", "de"));
    assert!(!same_text("dev", "dew"));
}

#[test]
fn decimal_numbers() {
    assert_eq!(decimal_string(0), "0");
    assert_eq!(decimal_string(9), "9");
    assert_eq!(decimal_string(10), "10");
    assert_eq!(decimal_string(261), "261");
    assert_eq!(decimal_string(u64::MAX), u64::MAX.to_string());
    assert_eq!(parse_u16(&chars_of("0")), Some(0));
    assert_eq!(parse_u16(&chars_of("007")), Some(7));
    assert_eq!(parse_u16(&chars_of("65535")), Some(65535));
    assert_eq!(parse_u16(&chars_of("65536")), None);
    assert_eq!(parse_u16(&chars_of("99999999999999999999999999")), None);
    assert_eq!(parse_u16(&chars_of("")), None);
    assert_eq!(parse_u16(&chars_of("1a")), None);
    assert_eq!(parse_u16(&chars_of("+1")), None);
}

#[test]
fn blank_texts() {
    assert!(is_blank_text(""));
    assert!(is_blank_text("  "));
    assert!(is_blank_text(" \t\r\n\u{b}\u{c}"));
    assert!(!is_blank_text(" 1"));
    assert!(!is_blank_text("\u{a0}"));
}

#[test]
fn version_syntax_is_that_of_the_pattern() {
    let pattern = Regex::new(r"^[0-9]{2}(\.[0-9])?$").expect("pattern");
    let mut texts: Vec<String> = vec![
        "", " ", "dev", "1", "12", "123", "1234", "12.", "12.3", "12.34", ".12", "1.2", "1.23",
        "12,3", "12.a", "a2.3", "1a.3", "12.3 ", " 12.3", "12.3\n", "12..3", "٢٦", "2٦.1", "12x3",
    ]
    .into_iter()
    .map(|text| text.to_string())
    .collect();
    for major in 0..100 {
        texts.push(format!("{:02}", major));
        for minor in 0..10 {
            texts.push(format!("{:02}.{}", major, minor));
            texts.push(format!("{:02}{}", major, minor));
        }
    }
    for text in texts {
        assert_eq!(
            parse_version_identifier(&text).is_some(),
            pattern.is_match(&text),
            "{:?}",
            text
        );
    }
    assert_eq!(parse_version_identifier("26.1"), Some(261));
    assert_eq!(parse_version_identifier("09"), Some(90));
    assert_eq!(parse_version_identifier("99.9"), Some(999));
    assert!(is_dev_word("dev"));
    assert!(!is_dev_word("Dev"));
    assert!(!is_dev_word("development"));
}
