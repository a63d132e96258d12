use xscreen::text::{
    chars_of, contains, cut, is_white_space, lines, lower_ascii, same_text, split, starts_with,
    text_contains, text_of, trim, trim_text, words,
};

fn strings(parts: Vec<&[char]>) -> Vec<String> {
    parts.into_iter().map(|part| text_of(part)).collect()
}

#[test]
fn white_space_is_what_unicode_says() {
    for n in 0..=0x10_ffff_u32 {
        if let Some(c) = char::from_u32(n) {
            assert_eq!(is_white_space(c), c.is_whitespace(), "{n:x}");
        }
    }
}

#[test]
fn texts_are_taken_apart_as_std_does() {
    for text in [
        "", " ", "a", " a b ", "a:b:c", "::", "a\nb", "a\r\nb\r\n", "\n", "\n\n", "a\r", "a\r\n",
        "\r\n\r", "x=1:y", "\u{3000}ä ö\u{a0}\tü", "é\n\u{85}b",
    ] {
        let chars = chars_of(text);
        assert_eq!(text_of(&chars), text);
        assert_eq!(text_of(trim(&chars)), text.trim());
        assert_eq!(trim_text(text), text.trim());
        assert_eq!(strings(split(&chars, ':')), text.split(':').collect::<Vec<_>>());
        assert_eq!(strings(lines(&chars)), text.lines().collect::<Vec<_>>(), "{text:?}");
        assert_eq!(strings(words(&chars)), text.split_whitespace().collect::<Vec<_>>());
        assert_eq!(
            cut(&chars, ':').map(|(a, b)| (text_of(a), text_of(b))),
            text.split_once(':').map(|(a, b)| (a.to_owned(), b.to_owned()))
        );
        assert_eq!(text_of(&lower_ascii(&chars)), text.to_ascii_lowercase());
    }
    assert_eq!(text_of(&lower_ascii(&chars_of("ÄBC-xyZ@[`{"))), "ÄBC-xyZ@[`{".to_ascii_lowercase());
}

#[test]
fn texts_are_compared_and_searched() {
    assert!(same_text("äb", "äb"));
    assert!(!same_text("äb", "ab"));
    assert!(!same_text("a", "ab"));
    for (text, part) in [("abc", ""), ("", ""), ("", "a"), ("abab", "bab"), ("aab", "ab"), ("ab", "abc")] {
        assert_eq!(text_contains(text, part), text.contains(part));
        assert_eq!(contains(&chars_of(text), &chars_of(part)), text.contains(part));
        assert_eq!(starts_with(&chars_of(text), part), text.starts_with(part));
    }
}
