//! Characters, numbers and words.

use translator_core::text::{
    appended, chars_of, copy_texts, decimal, is_blank, join_words, same_text, signed_decimal,
    text_of, trim,
};

#[test]
fn white_space_is_what_std_says() {
    // Every character by itself: `trim` drops exactly the white ones.
    for code in 0..=0x10FFFFu32 {
        if let Some(c) = char::from_u32(code) {
            let listed = (0x09..=0x0D).contains(&code)
                || [0x20, 0x85, 0xA0, 0x1680, 0x2028, 0x2029, 0x202F, 0x205F, 0x3000]
                    .contains(&code)
                || (0x2000..=0x200A).contains(&code);
            assert_eq!(c.is_whitespace(), listed, "{code:x}");
        }
    }
}

#[test]
fn trimming_drops_white_space_at_both_ends() {
    assert_eq!(trim(" \t a b \u{2003}\n"), "a b");
    assert_eq!(trim("a"), "a");
    assert_eq!(trim("   "), "");
    assert_eq!(trim(""), "");
}

#[test]
fn words_are_joined_by_single_spaces() {
    for s in ["", " ", "a", " a", "a ", "a  b", "\ta\u{85}b\n c ", "字  幕"] {
        assert_eq!(join_words(s), s.split_whitespace().collect::<Vec<_>>().join(" "));
    }
}

#[test]
fn decimal_numbers() {
    for n in [0u64, 7, 10, 99, 100, 4_194_304, u64::MAX] {
        assert_eq!(decimal(n), n.to_string());
    }
    for n in [0i32, 1, -1, -10, i32::MAX, i32::MIN] {
        assert_eq!(signed_decimal(n), n.to_string());
    }
}

#[test]
fn texts_and_characters() {
    assert_eq!(chars_of("a字"), vec!['a', '字']);
    assert_eq!(text_of(&['x', '\u{1F600}']), "x\u{1F600}");
    assert!(same_text("a", "a"));
    assert!(!same_text("a", "b"));
    assert!(is_blank(""));
    assert!(!is_blank(" "));
    assert_eq!(appended("ab", "c"), "abc");
    assert_eq!(copy_texts(&vec!["a".to_string()]), vec!["a"]);
}
