use autocorrect_buffer::distance::{char_distance, distance, same_chars, similarity};
use autocorrect_buffer::text::{chars_of, string_of, to_lower_char, to_upper_char};

#[test]
fn kitten_sitting_is_three() {
    assert_eq!(distance("kitten", "sitting"), 3);
}

#[test]
fn distance_to_itself_is_zero() {
    for word in ["", "a", "hello", "kitten", "naïve"] {
        assert_eq!(distance(word, word), 0);
    }
}

#[test]
fn distance_is_symmetric() {
    let words = ["", "a", "ab", "abc", "kitten", "sitting", "flaw", "lawn", "hello"];
    for a in words {
        for b in words {
            assert_eq!(distance(a, b), distance(b, a));
        }
    }
}

#[test]
fn distance_from_empty_is_length() {
    assert_eq!(distance("", ""), 0);
    assert_eq!(distance("", "hello"), 5);
    assert_eq!(distance("world!", ""), 6);
}

#[test]
fn distance_known_values() {
    assert_eq!(distance("flaw", "lawn"), 2);
    assert_eq!(distance("helllo", "hello"), 1);
    assert_eq!(distance("abc", "xyz"), 3);
    assert_eq!(distance("abc", "abcd"), 1);
    assert_eq!(distance("intention", "execution"), 5);
    assert_eq!(distance("ab", "ba"), 2);
}

#[test]
fn distance_counts_characters_not_bytes() {
    assert_eq!(distance("é", "e"), 1);
    assert_eq!(distance("", "éé"), 2);
    assert_eq!(distance("日本語", "日本"), 1);
}

#[test]
fn distance_on_vectors() {
    let a: Vec<char> = "sunday".chars().collect();
    let b: Vec<char> = "saturday".chars().collect();
    assert_eq!(char_distance(&a, &b), 3);
    assert!(same_chars(&a, &a));
    assert!(!same_chars(&a, &b));
}

#[test]
fn similarity_exact_values() {
    let s = similarity("helllo", "hello");
    assert_eq!((s.distance, s.shorter), (1, 5));
    let s = similarity("kitten", "sitting");
    assert_eq!((s.distance, s.shorter), (3, 6));
    let s = similarity("a", "abcd");
    assert_eq!((s.distance, s.shorter), (3, 1));
    assert!(!s.positive());
}

#[test]
fn similarity_is_one_only_at_distance_zero() {
    let words = ["a", "ab", "hello", "help", "world"];
    for a in words {
        for b in words {
            assert_eq!(similarity(a, b).one(), distance(a, b) == 0);
            assert_eq!(similarity(a, b).one(), a == b);
        }
    }
}

#[test]
fn similarity_order() {
    let near = similarity("hello", "helllo");
    let far = similarity("world", "helllo");
    assert!(near.exceeds(&far));
    assert!(!far.exceeds(&near));
    assert!(!near.exceeds(&near));
    assert!(near.positive());
    let one = similarity("abc", "abc");
    assert!(one.exceeds(&near));
}

#[test]
fn strings_and_characters_round_trip() {
    let v = chars_of("héllo, wörld");
    assert_eq!(v.len(), 12);
    assert_eq!(v[1], 'é');
    assert_eq!(string_of(&v), "héllo, wörld");
    assert_eq!(string_of(&Vec::new()), "");
}

#[test]
fn letter_case_of_characters() {
    assert_eq!(to_lower_char('A'), 'a');
    assert_eq!(to_lower_char('Z'), 'z');
    assert_eq!(to_lower_char('m'), 'm');
    assert_eq!(to_lower_char('['), '[');
    assert_eq!(to_lower_char('@'), '@');
    assert_eq!(to_lower_char('É'), 'É');
    assert_eq!(to_upper_char('a'), 'A');
    assert_eq!(to_upper_char('z'), 'Z');
    assert_eq!(to_upper_char('Q'), 'Q');
    assert_eq!(to_upper_char('{'), '{');
    assert_eq!(to_upper_char('`'), '`');
    assert_eq!(to_upper_char('1'), '1');
}
