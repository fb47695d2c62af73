use api_gateway::text::{decimal_text, lower, replace, split, to_chars, trim};

#[test]
fn occurrences_are_replaced_from_the_left() {
    assert_eq!(replace("aaa", "aa", "b"), "ba");
    assert_eq!(replace("abab", "ab", "abab"), "abababab");
    assert_eq!(replace("", "a", "b"), "");
    assert_eq!(replace("a", "ab", "c"), "a");
    assert_eq!(replace("한글한", "한", ""), "글");
}

#[test]
fn text_is_split_at_every_separator() {
    let pieces = |text: &str| -> Vec<String> {
        split(&to_chars(text), ',').iter().map(|piece| piece.iter().collect()).collect()
    };
    assert_eq!(pieces("a,b"), vec!["a", "b"]);
    assert_eq!(pieces(""), vec![""]);
    assert_eq!(pieces(",a,"), vec!["", "a", ""]);
}

#[test]
fn blanks_are_trimmed() {
    let trimmed = |text: &str| -> String { trim(&to_chars(text)).iter().collect() };
    assert_eq!(trimmed(" \ta b\t "), "a b");
    assert_eq!(trimmed("  "), "");
    assert_eq!(trimmed("a"), "a");
}

#[test]
fn capitals_become_small_letters() {
    assert_eq!(lower(&to_chars("AZaz09-_@[")), "azaz09-_@[");
}

#[test]
fn numbers_are_decimal() {
    assert_eq!(decimal_text(0), "0");
    assert_eq!(decimal_text(9), "9");
    assert_eq!(decimal_text(10), "10");
    assert_eq!(decimal_text(65535), "65535");
    assert_eq!(decimal_text(1002), "1002");
}
