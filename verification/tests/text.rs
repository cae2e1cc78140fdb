use gmailrs::text::chars_of;
use gmailrs::text::fold_char;
use gmailrs::text::is_equal;
use gmailrs::text::is_same_letter;
use gmailrs::text::is_same_text;
use gmailrs::text::is_space_char;

#[test]
fn white_space_is_what_std_calls_white_space() {
    let mut count = 0;
    for n in 0..=0x10ffff_u32 {
        if let Some(c) = char::from_u32(n) {
            assert_eq!(is_space_char(c), c.is_whitespace(), "U+{:04X}", n);
            if is_space_char(c) {
                count += 1;
            }
        }
    }
    assert_eq!(count, 25);
}

#[test]
fn folding_lowers_ascii_capitals_only() {
    for n in 0..=0x10ffff_u32 {
        if let Some(c) = char::from_u32(n) {
            assert_eq!(fold_char(c), c.to_ascii_lowercase() as u32, "U+{:04X}", n);
        }
    }
}

#[test]
fn letters_match_in_either_case() {
    assert!(is_same_letter('h', 'h'));
    assert!(is_same_letter('H', 'h'));
    assert!(is_same_letter(':', ':'));
    assert!(is_same_letter('/', '/'));
    assert!(!is_same_letter('h', 'H'));
    assert!(!is_same_letter('\u{1a}', ':'));
    assert!(!is_same_letter('\u{0f}', '/'));
    assert!(!is_same_letter('\u{0e}', '.'));
    // the long s and the Kelvin sign fold to s and k
    assert!(is_same_letter('\u{17f}', 's'));
    assert!(is_same_letter('\u{212a}', 'k'));
    assert!(!is_same_letter('\u{17f}', 'S'));
    assert!(!is_same_letter('\u{17f}', 't'));
    assert!(!is_same_letter('\u{212a}', 's'));
    assert!(!is_same_letter('\u{212b}', 'a'));
    assert!(!is_same_letter('i', 'h'));
}

#[test]
fn texts_compare_without_regard_to_ascii_case() {
    assert!(is_same_text("Subject", "subject"));
    assert!(is_same_text("SUBJECT", "Subject"));
    assert!(is_same_text("", ""));
    assert!(is_same_text("x-\u{e9}", "X-\u{e9}"));
    assert!(!is_same_text("x-\u{e9}", "X-\u{c9}"));
    assert!(!is_same_text("Subject", "Subject "));
    assert!(!is_same_text("Subject", "Subjekt"));
    assert!(!is_same_text("k", "\u{212a}"));
}

#[test]
fn texts_compare_exactly() {
    assert!(is_equal("text/plain", "text/plain"));
    assert!(is_equal("", ""));
    assert!(!is_equal("text/plain", "Text/plain"));
    assert!(!is_equal("text/plain", "text/plai"));
    assert!(!is_equal("a", "b"));
}

#[test]
fn characters_come_in_order() {
    assert_eq!(chars_of(""), Vec::<char>::new());
    assert_eq!(chars_of("a\u{20ac}b"), vec!['a', '\u{20ac}', 'b']);
}
