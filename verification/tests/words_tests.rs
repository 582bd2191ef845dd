use autocorrect_buffer::dictionary::{Dictionary, DictionaryError};
use autocorrect_buffer::editor::CONTROL;
use autocorrect_buffer::text::{space, split_words};

#[test]
fn separators_are_the_blank_characters() {
    for c in [' ', '\t', '\n', '\x0B', '\x0C', '\r'] {
        assert!(space(c));
    }
    for c in ['a', '.', ',', '0', '_', '\u{a0}', '\0'] {
        assert!(!space(c));
    }
}

#[test]
fn text_is_split_at_separators() {
    assert_eq!(split_words("hello world"), vec!["hello", "world"]);
    assert_eq!(split_words("  hello \n\tworld\r\n"), vec!["hello", "world"]);
    assert_eq!(split_words("one"), vec!["one"]);
    assert_eq!(split_words("a b  c\n\nd"), vec!["a", "b", "c", "d"]);
    assert_eq!(split_words("it's semi;colon, comma"), vec!["it's", "semi;colon,", "comma"]);
}

#[test]
fn text_without_words_splits_to_nothing() {
    assert_eq!(split_words(""), Vec::<String>::new());
    assert_eq!(split_words(" \n\t \r\n"), Vec::<String>::new());
}

#[test]
fn word_list_is_parsed_in_order() {
    let d = match Dictionary::parse("Hello\nworld\n\nRust  verus\n") {
        Ok(d) => d,
        Err(_) => panic!("the word list holds words"),
    };
    assert_eq!(d.len(), 4);
    assert_eq!(d.word(0), "hello");
    assert_eq!(d.word(1), "world");
    assert_eq!(d.word(2), "rust");
    assert_eq!(d.word(3), "verus");
    assert_eq!(d.correct("wordl"), "world");
}

#[test]
fn word_list_without_words_is_refused() {
    assert!(matches!(Dictionary::parse(""), Err(DictionaryError::Empty)));
    assert!(matches!(Dictionary::parse("\n \n\t"), Err(DictionaryError::Empty)));
}

#[test]
fn control_is_the_terminal_control_modifier() {
    assert_eq!(CONTROL, crossterm::event::KeyModifiers::CONTROL.bits());
}
