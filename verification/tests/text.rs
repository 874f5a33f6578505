use krill_file_drop::names::sanitize_name;
use krill_file_drop::text::{chars_of, decimal_text, same_text, text_of};

#[test]
fn trimming_agrees_with_the_white_space_property() {
    for c in '\u{0}'..=char::MAX {
        if c == '/' || c == '\\' {
            continue;
        }
        let padded = format!("{c}a{c}");
        let trimmed = sanitize_name(&padded);
        if c.is_whitespace() {
            assert_eq!(trimmed, "a", "{:x}", c as u32);
        } else {
            assert_eq!(trimmed, padded, "{:x}", c as u32);
        }
    }
}

#[test]
fn numbers_are_written_in_decimal() {
    assert_eq!(decimal_text(0), "0");
    assert_eq!(decimal_text(9), "9");
    assert_eq!(decimal_text(10), "10");
    assert_eq!(decimal_text(1700000000000), "1700000000000");
    assert_eq!(decimal_text(u128::MAX), format!("{}", u128::MAX));
}

#[test]
fn text_goes_to_characters_and_back() {
    let chars = chars_of("a\u{e9}\u{1F980}");
    assert_eq!(chars, vec!['a', '\u{e9}', '\u{1F980}']);
    assert_eq!(text_of(&chars), "a\u{e9}\u{1F980}");
    assert_eq!(text_of(&[]), "");
}

#[test]
fn texts_are_compared_by_what_they_say() {
    assert!(same_text("krill", "krill"));
    assert!(!same_text("krill", "Krill"));
    assert!(!same_text("krill", "krill "));
    assert!(same_text("", ""));
}
