use kontrol::text::{
    chars_of, concatenate, contains_char, decimal_string, join, pad_right, replace_char, split,
    starts_with, str_eq, strip_prefix, trim, trim_end,
};

#[test]
fn chars_of_keeps_order() {
    assert_eq!(chars_of("aé€"), vec!['a', 'é', '€']);
}

#[test]
fn trim_removes_unicode_white_space() {
    assert_eq!(trim("  \t host.example \n"), "host.example");
    assert_eq!(trim("\u{3000}a b\u{a0}"), "a b");
    assert_eq!(trim("   "), "");
    assert_eq!(trim(""), "");
}

#[test]
fn trim_agrees_with_std() {
    for s in ["x", " x", "x ", "\u{2028}x\u{85}", " a  b ", "\u{200b}x"] {
        assert_eq!(trim(s), s.trim());
    }
}

#[test]
fn split_agrees_with_std() {
    for s in ["1.1.1.1,2.2.2.2", "", ",", "a,,b", "one", ",x,"] {
        let expected: Vec<String> = s.split(',').map(|p| p.to_string()).collect();
        assert_eq!(split(s, ','), expected);
    }
}

#[test]
fn join_then_split_round_trip() {
    let parts = split("a,b,,c", ',');
    assert_eq!(join(&parts, ","), "a,b,,c");
    assert_eq!(join(&vec![], ", "), "");
    assert_eq!(join(&vec!["x".to_string()], ", "), "x");
    assert_eq!(join(&vec!["x".to_string(), "y".to_string()], ", "), "x, y");
}

#[test]
fn pad_right_matches_format() {
    assert_eq!(pad_right("ID", 5), format!("{0: <5}", "ID"));
    assert_eq!(pad_right("toolong", 3), "toolong");
    assert_eq!(pad_right("é", 3), format!("{0: <3}", "é"));
}

#[test]
fn decimal_matches_to_string() {
    for n in [0u32, 7, 10, 99, 100, 12345, u32::MAX] {
        assert_eq!(decimal_string(n), n.to_string());
    }
}

#[test]
fn prefixes() {
    assert!(starts_with("name=x", "name="));
    assert!(!starts_with("nam", "name="));
    assert!(!starts_with("owner=x", "name="));
    assert_eq!(strip_prefix("tenant=Main", "tenant="), Some("Main".to_string()));
    assert_eq!(strip_prefix("tenant", "tenant="), None);
    assert_eq!(strip_prefix("name=", "name="), Some(String::new()));
}

#[test]
fn small_helpers() {
    assert!(contains_char("a?b", '?'));
    assert!(!contains_char("ab", '?'));
    assert!(str_eq("abc", "abc"));
    assert!(!str_eq("abc", "abd"));
    assert_eq!(concatenate("ab", "cd"), "abcd");
    assert_eq!(replace_char("~/a~", '~', "/home"), "/home/a/home");
}

#[test]
fn trim_end_agrees_with_std() {
    for s in ["x  ", " x", "\u{3000}x\n\r", "", "   "] {
        assert_eq!(trim_end(s), s.trim_end());
    }
}
