use brewmble::text::{
    contains, decimal_string, ends_with, lines, parse_u64, starts_with, trim_end_matches, words,
};

#[test]
fn lines_like_str_lines() {
    for s in ["", "a", "a\n", "a\r\nb", "a\n\nb\n", "\n", "x\r", "a\r\n\r\n"] {
        let expected: Vec<String> = s.lines().map(|l| l.to_string()).collect();
        assert_eq!(lines(s), expected, "input {:?}", s);
    }
}

#[test]
fn words_like_split_whitespace() {
    for s in ["", "  ", "a b", " a\tb\u{a0}c  ", "Inst pkg (1.0)", "x\u{3000}y"] {
        let expected: Vec<String> = s.split_whitespace().map(|w| w.to_string()).collect();
        assert_eq!(words(s), expected, "input {:?}", s);
    }
}

#[test]
fn numbers_like_std() {
    for s in ["0", "15", "+7", "-1", "", "+", "18446744073709551615", "18446744073709551616", "1m"] {
        assert_eq!(parse_u64(s), s.parse::<u64>().ok(), "input {:?}", s);
    }
    for n in [0u64, 9, 10, 8080, u64::MAX] {
        assert_eq!(decimal_string(n), n.to_string());
    }
}

#[test]
fn affixes() {
    assert!(starts_with("Inst x", "Inst "));
    assert!(!starts_with("In", "Inst "));
    assert!(ends_with("a.local.", "local."));
    assert!(contains("E: Permission denied", "Permission denied"));
    assert!(contains("abc", ""));
    assert!(!contains("ab", "abc"));
    assert_eq!(trim_end_matches("a//", '/'), "a");
}
