use prose_lint::engine::{loc_string, sentence_string};
use prose_lint::text::{i32_dec_string, word_ends_in_ly};

#[test]
fn decimal_rendering_matches_display() {
    for n in [0, 1, 9, 10, 42, 999, 1000, 1234567, -1, -42, i32::MAX, i32::MIN] {
        assert_eq!(i32_dec_string(n), n.to_string());
    }
}

#[test]
fn location_prefers_the_chapter_title() {
    assert_eq!(
        loc_string(&"Intro".to_string(), 2, 3, 4, 5),
        "Intro, Section 3, Paragraph 4"
    );
}

#[test]
fn location_uses_chapter_number_only_with_several_chapters() {
    assert_eq!(
        loc_string(&String::new(), 2, 3, 4, 5),
        "Chapter 2, Section 3, Paragraph 4"
    );
    assert_eq!(
        loc_string(&String::new(), 2, 3, 4, 1),
        "Section 3, Paragraph 4"
    );
}

#[test]
fn sentence_string_joins_tokens_verbatim() {
    let words = vec!["could".to_string(), "  ".to_string(), "see".to_string()];
    assert_eq!(sentence_string(&words), "could  see");
    assert_eq!(sentence_string(&Vec::new()), "");
}

#[test]
fn ly_suffix_detection() {
    assert!(word_ends_in_ly("suddenly"));
    assert!(word_ends_in_ly("family"));
    assert!(word_ends_in_ly("ly"));
    assert!(!word_ends_in_ly("l"));
    assert!(!word_ends_in_ly(""));
    assert!(!word_ends_in_ly("yl"));
    assert!(!word_ends_in_ly("LY"));
}
