use dust_mail::text::{decimal_text, has_prefix, join_text, same_text, split_text};

fn strings(parts: &[&str]) -> Vec<String> {
    parts.iter().map(|part| part.to_string()).collect()
}

#[test]
fn split_cuts_at_every_delimiter() {
    assert_eq!(split_text("a.b.c", "."), strings(&["a", "b", "c"]));
    assert_eq!(split_text("abc", "."), strings(&["abc"]));
    assert_eq!(split_text("", "."), strings(&[""]));
    assert_eq!(split_text(".a.", "."), strings(&["", "a", ""]));
    assert_eq!(split_text("a..b", "."), strings(&["a", "", "b"]));
}

#[test]
fn split_takes_delimiters_from_the_left_without_overlap() {
    assert_eq!(split_text("a--b", "--"), strings(&["a", "b"]));
    assert_eq!(split_text("a---b", "--"), strings(&["a", "-b"]));
    assert_eq!(split_text("aaaa", "aa"), strings(&["", "", ""]));
    assert_eq!(split_text("ab", "abc"), strings(&["ab"]));
}

#[test]
fn split_on_nothing_cuts_around_every_character() {
    assert_eq!(split_text("ab", ""), strings(&["", "a", "b", ""]));
    assert_eq!(split_text("", ""), strings(&["", ""]));
}

#[test]
fn split_agrees_with_the_standard_library() {
    for (text, delimiter) in [
        ("INBOX/Sent/2020", "/"),
        ("a.b", "."),
        ("..", "."),
        ("abcabc", "bc"),
        ("héllo wörld", " "),
        ("xyz", ""),
    ] {
        let expected: Vec<String> = text.split(delimiter).map(|p| p.to_string()).collect();
        assert_eq!(split_text(text, delimiter), expected);
    }
}

#[test]
fn join_puts_the_delimiter_between_the_parts() {
    let parts = strings(&["a", "b", "c"]);
    assert_eq!(join_text(&parts, 3, "."), "a.b.c");
    assert_eq!(join_text(&parts, 2, "."), "a.b");
    assert_eq!(join_text(&parts, 1, "."), "a");
    assert_eq!(join_text(&parts, 0, "."), "");
    assert_eq!(join_text(&parts, 3, ""), "abc");
    assert_eq!(join_text(&parts, 9, "."), "a.b.c");
}

#[test]
fn join_undoes_split() {
    for (text, delimiter) in [("INBOX.Sent.2020", "."), ("..a..", "."), ("plain", "--")] {
        let parts = split_text(text, delimiter);
        assert_eq!(join_text(&parts, parts.len(), delimiter), text);
    }
}

#[test]
fn decimal_text_writes_numbers_without_padding() {
    assert_eq!(decimal_text(0), "0");
    assert_eq!(decimal_text(7), "7");
    assert_eq!(decimal_text(10), "10");
    assert_eq!(decimal_text(1234567890), "1234567890");
    assert_eq!(decimal_text(u64::MAX), "18446744073709551615");
}

#[test]
fn prefixes_and_equality() {
    assert!(has_prefix("text/plain; charset=utf-8", "text/plain"));
    assert!(has_prefix("abc", ""));
    assert!(!has_prefix("text", "text/plain"));
    assert!(!has_prefix("Text/plain", "text/plain"));
    assert!(same_text("abc", "abc"));
    assert!(!same_text("abc", "abd"));
    assert!(!same_text("abc", "ab"));
}
