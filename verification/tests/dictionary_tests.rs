use autocorrect_buffer::dictionary::{Dictionary, DictionaryError};

fn dictionary(words: &[&str]) -> Dictionary {
    let list: Vec<String> = words.iter().map(|w| w.to_string()).collect();
    match Dictionary::from_words(&list) {
        Ok(d) => d,
        Err(_) => panic!("the word list is empty"),
    }
}

#[test]
fn empty_word_list_is_refused() {
    let r = Dictionary::from_words(&Vec::new());
    assert!(matches!(r, Err(DictionaryError::Empty)));
}

#[test]
fn words_are_kept_in_order_and_lower_case() {
    let d = dictionary(&["Hello", "WORLD", "rust"]);
    assert_eq!(d.len(), 3);
    assert_eq!(d.word(0), "hello");
    assert_eq!(d.word(1), "world");
    assert_eq!(d.word(2), "rust");
}

#[test]
fn near_miss_is_corrected() {
    let d = dictionary(&["hello", "world"]);
    assert_eq!(d.correct("helllo"), "hello");
    assert_eq!(d.correct("wrld"), "world");
    assert_eq!(d.correct("hello"), "hello");
}

#[test]
fn word_is_lower_cased_before_lookup() {
    let d = dictionary(&["hello", "world"]);
    assert_eq!(d.correct("HELLO"), "hello");
    assert_eq!(d.correct("WoRlD"), "world");
}

#[test]
fn unknown_word_comes_back_in_lower_case() {
    let d = dictionary(&["hello", "world"]);
    assert_eq!(d.correct("Zzzzz"), "zzzzz");
    assert_eq!(d.correct("xy"), "xy");
}

#[test]
fn empty_word_stays_empty() {
    let d = dictionary(&["hello", "world"]);
    assert_eq!(d.correct(""), "");
}

#[test]
fn first_of_equal_candidates_wins() {
    let d = dictionary(&["cat", "bat", "hat"]);
    assert_eq!(d.correct("rat"), "cat");
    let d = dictionary(&["hat", "bat", "cat"]);
    assert_eq!(d.correct("rat"), "hat");
}

#[test]
fn greater_similarity_wins_over_position() {
    let d = dictionary(&["help", "hello"]);
    assert_eq!(d.correct("helllo"), "hello");
    let d = dictionary(&["hello", "help"]);
    assert_eq!(d.correct("helllo"), "hello");
}

#[test]
fn entries_outside_the_length_window_are_skipped() {
    // "abcdefghijklmn" is at distance 4 from the word, which would score 0.6,
    // but it is four characters longer.
    let d = dictionary(&["abcdefghijklmn", "abcdefghxx"]);
    assert_eq!(d.correct("abcdefghij"), "abcdefghxx");
    let d = dictionary(&["abcdefghijklmn"]);
    assert_eq!(d.correct("abcdefghij"), "abcdefghij");
    let d = dictionary(&["abcdefghijklm"]);
    assert_eq!(d.correct("abcdefghij"), "abcdefghijklm");
}

#[test]
fn similarity_of_zero_is_not_enough() {
    // distance 2 over a shorter length of 2 scores exactly zero
    let d = dictionary(&["ab"]);
    assert_eq!(d.correct("xy"), "xy");
    assert_eq!(d.correct("xb"), "ab");
}

#[test]
fn empty_entries_are_never_chosen() {
    let d = dictionary(&["", "hello"]);
    assert_eq!(d.correct("a"), "a");
    assert_eq!(d.correct("hallo"), "hello");
}

#[test]
fn lone_i_becomes_capital() {
    for words in [&["hello", "world"][..], &["i"][..], &["a", "i", "in"][..], &["x"][..]] {
        let d = dictionary(words);
        assert_eq!(d.correct("i"), "I");
        assert_eq!(d.correct("I"), "I");
    }
}

#[test]
fn correction_to_i_is_capitalized_only_when_alone() {
    let d = dictionary(&["in", "it"]);
    assert_eq!(d.correct("in"), "in");
    assert_eq!(d.correct("ii"), "in");
}

#[test]
fn correct_is_idempotent() {
    let d = dictionary(&["hello", "world", "help", "i", "cat", "bat"]);
    for word in ["helllo", "hello", "wrld", "zzzzzz", "i", "I", "rat", "", "Cat", "hel"] {
        let once = d.correct(word);
        let twice = d.correct(&once);
        assert_eq!(twice, once);
    }
}

#[test]
fn nearest_gives_the_position() {
    let d = dictionary(&["hello", "world"]);
    let word: Vec<char> = "wurld".chars().collect();
    assert_eq!(d.nearest(&word), Some(1));
    let word: Vec<char> = "qqqqq".chars().collect();
    assert_eq!(d.nearest(&word), None);
    assert_eq!(d.nearest(&Vec::new()), None);
}
