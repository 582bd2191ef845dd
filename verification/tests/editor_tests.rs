use autocorrect_buffer::dictionary::Dictionary;
use autocorrect_buffer::editor::{command, Command, Editor, Key, KeyPress, CONTROL};

fn editor(words: &[&str]) -> Editor {
    let list: Vec<String> = words.iter().map(|w| w.to_string()).collect();
    match Dictionary::from_words(&list) {
        Ok(d) => Editor::new(d),
        Err(_) => panic!("the word list is empty"),
    }
}

fn plain(c: char) -> KeyPress {
    KeyPress { key: Key::Char(c), modifiers: 0 }
}

fn type_text(e: &mut Editor, text: &str) {
    for c in text.chars() {
        e.handle_input(&plain(c));
    }
}

#[test]
fn keys_map_to_commands() {
    assert_eq!(command(&KeyPress { key: Key::Char('q'), modifiers: CONTROL }), Command::Quit);
    assert_eq!(command(&KeyPress { key: Key::Char('h'), modifiers: CONTROL }), Command::DeleteWord);
    assert_eq!(command(&KeyPress { key: Key::Backspace, modifiers: 0 }), Command::DeleteChar);
    assert_eq!(command(&KeyPress { key: Key::Backspace, modifiers: CONTROL }), Command::DeleteChar);
    assert_eq!(command(&plain('q')), Command::Insert('q'));
    assert_eq!(command(&plain('h')), Command::Insert('h'));
    assert_eq!(command(&KeyPress { key: Key::Char('a'), modifiers: CONTROL }), Command::Insert('a'));
    assert_eq!(command(&KeyPress { key: Key::Char('Q'), modifiers: 1 }), Command::Insert('Q'));
    assert_eq!(command(&KeyPress { key: Key::Other, modifiers: 0 }), Command::Ignore);
    assert_eq!(command(&KeyPress { key: Key::Other, modifiers: CONTROL }), Command::Ignore);
}

#[test]
fn control_with_another_modifier_is_not_control_alone() {
    let both = CONTROL | 1;
    assert_eq!(command(&KeyPress { key: Key::Char('q'), modifiers: both }), Command::Insert('q'));
    assert_eq!(command(&KeyPress { key: Key::Char('h'), modifiers: both }), Command::Insert('h'));
}

#[test]
fn session_types_and_corrects() {
    let mut e = editor(&["hello", "world"]);
    assert!(!e.should_quit());
    assert_eq!(e.render(), "");
    type_text(&mut e, "helllo wrld. ");
    assert_eq!(e.render(), "Hello world. ");
    assert_eq!(e.lenght(), 13);
    assert!(!e.should_quit());
}

#[test]
fn backspace_and_delete_word_reach_the_buffer() {
    let mut e = editor(&["hello", "world"]);
    type_text(&mut e, "hello world wor");
    e.handle_input(&KeyPress { key: Key::Backspace, modifiers: 0 });
    assert_eq!(e.render(), "Hello world wo");
    e.handle_input(&KeyPress { key: Key::Char('h'), modifiers: CONTROL });
    assert_eq!(e.render(), "Hello world ");
    e.handle_input(&KeyPress { key: Key::Char('h'), modifiers: CONTROL });
    assert_eq!(e.render(), "Hello ");
    e.handle_input(&KeyPress { key: Key::Other, modifiers: 0 });
    assert_eq!(e.render(), "Hello ");
}

#[test]
fn control_q_ends_the_session_and_leaves_the_text() {
    let mut e = editor(&["hello"]);
    type_text(&mut e, "hello q");
    e.handle_input(&KeyPress { key: Key::Char('q'), modifiers: CONTROL });
    assert!(e.should_quit());
    assert_eq!(e.render(), "Hello q");
}
