use macro_expander::text::{byte_length, chars_of, same_text, width_of};

#[test]
fn width_is_the_number_of_bytes() {
    assert_eq!(width_of('a'), 1);
    assert_eq!(width_of('\u{7f}'), 1);
    assert_eq!(width_of('\u{80}'), 2);
    assert_eq!(width_of('\u{7ff}'), 2);
    assert_eq!(width_of('\u{800}'), 3);
    assert_eq!(width_of('\u{ffff}'), 3);
    assert_eq!(width_of('\u{10000}'), 4);
    assert_eq!(width_of('\u{10ffff}'), 4);
    for character in ['\n', '@', '\u{e9}', '\u{20ac}', '\u{1f600}'] {
        assert_eq!(width_of(character), character.len_utf8());
    }
}

#[test]
fn chars_are_those_of_the_text() {
    assert_eq!(chars_of(""), Vec::<char>::new());
    assert_eq!(chars_of("a\u{20ac}\n"), vec!['a', '\u{20ac}', '\n']);
}

#[test]
fn byte_length_counts_bytes() {
    assert_eq!(byte_length(""), 0);
    assert_eq!(byte_length("a\u{20ac}\n"), 5);
}

#[test]
fn same_text_compares_characters() {
    assert!(same_text("", ""));
    assert!(same_text("set", "set"));
    assert!(!same_text("set", "sat"));
    assert!(!same_text("set", "sets"));
    assert!(!same_text("sets", "set"));
    assert!(!same_text("", "a"));
}
