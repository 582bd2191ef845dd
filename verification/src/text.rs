//! Text as a sequence of characters: conversion from and to strings, and the
//! letter-case mappings that correction and capitalization use.

use vstd::prelude::*;

verus! {

/// `String::push` of std appends one character to the string.
pub assume_specification[ String::push ](s: &mut String, c: char)
    ensures
        final(s)@ == old(s)@.push(c),
;

/// The lower-case form of a character: the letters `A` to `Z` map to `a` to
/// `z`, every other character to itself.
pub open spec fn lower_char(c: char) -> char {
    if 'A' <= c && c <= 'Z' {
        ((c as u8) + 32) as u8 as char
    } else {
        c
    }
}

/// The upper-case form of a character: the letters `a` to `z` map to `A` to
/// `Z`, every other character to itself.
pub open spec fn upper_char(c: char) -> char {
    if 'a' <= c && c <= 'z' {
        ((c as u8) - 32) as u8 as char
    } else {
        c
    }
}

/// A text with every character in lower case.
pub open spec fn lower(s: Seq<char>) -> Seq<char> {
    Seq::new(s.len(), |i: int| lower_char(s[i]))
}

/// A text whose first character, if it has one, is in upper case.
pub open spec fn title_case(s: Seq<char>) -> Seq<char> {
    if s.len() == 0 {
        s
    } else {
        s.update(0, upper_char(s[0]))
    }
}

/// Whether a text is its own lower-case form.
pub open spec fn is_lower(s: Seq<char>) -> bool {
    lower(s) == s
}

/// Lower-casing a second time changes nothing.
pub proof fn lemma_lower_idempotent(s: Seq<char>)
    ensures
        is_lower(lower(s)),
{
    assert forall|i: int| 0 <= i < s.len() implies lower_char(lower_char(s[i])) == lower_char(
        s[i],
    ) by {
        lemma_lower_char_idempotent(s[i]);
    }
    assert(lower(lower(s)) =~= lower(s));
}

/// A lower-cased character is its own lower-case form.
pub proof fn lemma_lower_char_idempotent(c: char)
    ensures
        lower_char(lower_char(c)) == lower_char(c),
{
}

/// The lower-case form of a character.
pub fn to_lower_char(c: char) -> (r: char)
    ensures
        r == lower_char(c),
{
    if 'A' <= c && c <= 'Z' {
        ((c as u8) + 32) as char
    } else {
        c
    }
}

/// The upper-case form of a character.
pub fn to_upper_char(c: char) -> (r: char)
    ensures
        r == upper_char(c),
{
    if 'a' <= c && c <= 'z' {
        ((c as u8) - 32) as char
    } else {
        c
    }
}

/// The characters of a string, in order.
pub fn chars_of(s: &str) -> (v: Vec<char>)
    ensures
        v@ == s@,
{
    let mut v: Vec<char> = Vec::new();
    for c in it: s.chars()
        invariant
            v@ == it.seq().take(it.index()),
    {
        v.push(c);
    }
    v
}

/// The string that holds the given characters, in order.
pub fn string_of(v: &Vec<char>) -> (s: String)
    ensures
        s@ == v@,
{
    let mut s = String::new();
    let mut i: usize = 0;
    while i < v.len()
        invariant
            i <= v.len(),
            s@ == v@.take(i as int),
        decreases v.len() - i,
    {
        s.push(v[i]);
        assert(v@.take(i + 1) =~= v@.take(i as int).push(v@[i as int]));
        i += 1;
    }
    assert(v@.take(v.len() as int) =~= v@);
    s
}

/// A character that separates the words of a word list: the space, the
/// tabs, the line feed, the form feed and the carriage return.
pub open spec fn is_space(c: char) -> bool {
    c == ' ' || c == '\t' || c == '\n' || c == '\x0B' || c == '\x0C' || c == '\r'
}

/// Whether a text ends in a character of a word.
pub open spec fn ends_in_word(s: Seq<char>) -> bool {
    s.len() > 0 && !is_space(s.last())
}

/// The words of a text: its maximal runs of characters that are not
/// separators, in order. A character that follows a word joins it, one that
/// follows a separator starts a new word, and a separator adds nothing.
pub open spec fn words_of(s: Seq<char>) -> Seq<Seq<char>>
    decreases s.len(),
{
    if s.len() == 0 {
        Seq::empty()
    } else {
        let before = words_of(s.drop_last());
        if is_space(s.last()) {
            before
        } else if ends_in_word(s.drop_last()) {
            before.drop_last().push(before.last().push(s.last()))
        } else {
            before.push(seq![s.last()])
        }
    }
}

/// Where the run of word characters that ends a text starts.
pub open spec fn last_word_start(s: Seq<char>) -> int
    decreases s.len(),
{
    if ends_in_word(s) {
        last_word_start(s.drop_last())
    } else {
        s.len() as int
    }
}

/// No word is empty and none holds a separator. A text that ends in a word
/// has that word, from the last separator on, as the last of its words, and
/// before it the words of the text up to there.
pub proof fn lemma_words_of(s: Seq<char>)
    ensures
        forall|k: int| 0 <= k < words_of(s).len() ==> (#[trigger] words_of(s)[k]).len() > 0,
        forall|k: int, i: int|
            0 <= k < words_of(s).len() && 0 <= i < words_of(s)[k].len() ==> !is_space(
                #[trigger] words_of(s)[k][i],
            ),
        0 <= last_word_start(s) <= s.len(),
        last_word_start(s) == 0 || is_space(s[last_word_start(s) - 1]),
        forall|i: int| last_word_start(s) <= i < s.len() ==> !is_space(s[i]),
        ends_in_word(s) ==> words_of(s) == words_of(s.take(last_word_start(s))).push(
            s.skip(last_word_start(s)),
        ),
        !ends_in_word(s) && s.len() > 0 ==> words_of(s) == words_of(s.drop_last()),
    decreases s.len(),
{
    if s.len() > 0 {
        let t = s.drop_last();
        lemma_words_of(t);
        assert forall|i: int| last_word_start(s) <= i < s.len() implies !is_space(s[i]) by {
            if i < t.len() {
                assert(t[i] == s[i]);
            }
        }
        if ends_in_word(s) {
            let k = last_word_start(s);
            assert(s.take(k) =~= t.take(k));
            assert(s.skip(k) =~= t.skip(k).push(s.last()));
            if ends_in_word(t) {
                assert(words_of(t).drop_last() =~= words_of(t.take(k)));
            } else {
                assert(t.take(k) =~= t);
                assert(s.skip(k) =~= seq![s.last()]);
            }
        }
    }
}

/// The texts that a list of strings holds.
pub open spec fn texts_of(list: Seq<String>) -> Seq<Seq<char>> {
    Seq::new(list.len(), |i: int| list[i]@)
}

/// The words of a text, each as a string.
pub fn split_words(text: &str) -> (list: Vec<String>)
    ensures
        texts_of(list@) == words_of(text@),
{
    let chars = chars_of(text);
    let mut list: Vec<String> = Vec::new();
    let mut word = String::new();
    let mut in_word: bool = false;
    let mut i: usize = 0;
    while i < chars.len()
        invariant
            i <= chars.len(),
            in_word == ends_in_word(chars@.take(i as int)),
            in_word ==> words_of(chars@.take(i as int)) == texts_of(list@).push(word@),
            !in_word ==> words_of(chars@.take(i as int)) == texts_of(list@),
            !in_word ==> word@.len() == 0,
        decreases chars.len() - i,
    {
        let c = chars[i];
        let ghost before = chars@.take(i as int);
        let ghost now = chars@.take(i + 1);
        assert(now.drop_last() =~= before);
        assert(now.last() == c);
        if space(c) {
            if in_word {
                let ghost old_list = list@;
                list.push(word);
                assert(texts_of(list@) =~= texts_of(old_list).push(word@));
                word = String::new();
                in_word = false;
            }
        } else {
            if in_word {
                let ghost old_word = word@;
                word.push(c);
                assert(texts_of(list@).push(old_word).drop_last() =~= texts_of(list@));
            } else {
                word.push(c);
                assert(word@ =~= seq![c]);
                in_word = true;
            }
        }
        i += 1;
    }
    assert(chars@.take(chars.len() as int) =~= chars@);
    if in_word {
        let ghost old_list = list@;
        list.push(word);
        assert(texts_of(list@) =~= texts_of(old_list).push(word@));
    }
    list
}

/// Whether a character separates words.
pub fn space(c: char) -> (r: bool)
    ensures
        r == is_space(c),
{
    c == ' ' || c == '\t' || c == '\n' || c == '\x0B' || c == '\x0C' || c == '\r'
}

} // verus!
