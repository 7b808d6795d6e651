use meme_machine::text::{
    after_prefix, begins_with, chars_of, contains, equals_ignoring_case, is_blank, letter_or_digit,
    lines_of, lower, lower_or_empty, part_of, same_chars, same_text, space, text_of, trim,
};

fn lowered(text: &str) -> String {
    text_of(&lower(text))
}

#[test]
fn lower_case_follows_unicode() {
    assert_eq!(lowered("AC Power"), "ac power");
    assert_eq!(lowered("ÄÖÜ STRASSE"), "äöü strasse");
    assert_eq!(lowered("İ"), "İ".to_lowercase());
    assert_eq!(lowered("ΟΔΟΣ"), "ΟΔΟΣ".to_lowercase());
    assert_eq!(text_of(&lower_or_empty(&None)), "");
    assert_eq!(text_of(&lower_or_empty(&Some("ΑΒ".to_string()))), "αβ");
}

#[test]
fn spaces_and_letters_follow_the_standard_library() {
    for code in 0..0x3100u32 {
        if let Some(c) = char::from_u32(code) {
            assert_eq!(space(c), c.is_whitespace(), "{:x}", code);
            assert_eq!(letter_or_digit(c), c.is_alphanumeric(), "{:x}", code);
        }
    }
}

#[test]
fn trimming_takes_spaces_off_both_ends() {
    for text in ["", "  ", " a b ", "\t1\n", "\u{2003}x\u{a0}", "x"] {
        assert_eq!(text_of(&trim(&chars_of(text))), text.trim());
        assert_eq!(is_blank(text), text.trim().is_empty());
    }
}

#[test]
fn searching() {
    let text = chars_of("hardware port: ethernet");
    assert!(contains(&text, "ether"));
    assert!(contains(&text, ""));
    assert!(!contains(&text, "ethernets"));
    assert!(begins_with(&text, "hard"));
    assert!(!begins_with(&text, "port"));
    assert_eq!(after_prefix(&text, "hardware port: "), Some(chars_of("ethernet")));
    assert_eq!(after_prefix(&text, "device: "), None);
}

#[test]
fn lines_end_at_line_feeds() {
    for text in ["", "a", "a\nb", "a\r\nb\n", "\n\n", "a\rb\n"] {
        let found: Vec<String> = lines_of(&chars_of(text)).iter().map(text_of).collect();
        let expected: Vec<&str> = text.lines().collect();
        assert_eq!(found, expected, "{:?}", text);
    }
}

#[test]
fn equality_ignores_ascii_case_only() {
    assert!(equals_ignoring_case("chodu cid", "Chodu CID"));
    assert!(!equals_ignoring_case("ä", "Ä"));
    assert!(!equals_ignoring_case("a", "ab"));
    assert!(same_text("a", "a"));
    assert!(!same_text("a", "A"));
    assert!(same_chars(&chars_of("xy"), &chars_of("xy")));
    assert_eq!(part_of(&chars_of("abcd"), 1, 3), chars_of("bc"));
}
