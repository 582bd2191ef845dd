//! The line buffer: committed text, the word being typed, and the
//! capitalization that is owed to the next word.

use vstd::prelude::*;
use crate::dictionary::{corrected, Dictionary};
use crate::text::{string_of, title_case, to_upper_char};

verus! {

/// A character that ends a word within a sentence.
pub open spec fn is_word_delimiter(c: char) -> bool {
    c == ' ' || c == ',' || c == ':' || c == ';'
}

/// A character that ends a word and the sentence with it.
pub open spec fn is_sentence_delimiter(c: char) -> bool {
    c == '.' || c == '?' || c == '!'
}

/// A character that ends a word.
pub open spec fn is_delimiter(c: char) -> bool {
    is_word_delimiter(c) || is_sentence_delimiter(c)
}

/// The position of the last space of a text, or -1 where it holds none.
pub open spec fn last_space(s: Seq<char>) -> int
    decreases s.len(),
{
    if s.len() == 0 {
        -1
    } else if s.last() == ' ' {
        s.len() - 1
    } else {
        last_space(s.drop_last())
    }
}

/// The position of the last space but one of a text, or -1 where it holds
/// fewer than two spaces.
pub open spec fn second_last_space(s: Seq<char>) -> int {
    if last_space(s) < 0 {
        -1
    } else {
        last_space(s.take(last_space(s)))
    }
}

/// The last space lies within the text where there is one, a space stands
/// there, and none follows it.
pub proof fn lemma_last_space(s: Seq<char>)
    ensures
        -1 <= last_space(s) < s.len(),
        last_space(s) >= 0 ==> s[last_space(s)] == ' ',
        forall|i: int| last_space(s) < i < s.len() ==> s[i] != ' ',
    decreases s.len(),
{
    if s.len() > 0 && s.last() != ' ' {
        let t = s.drop_last();
        lemma_last_space(t);
        assert forall|i: int| last_space(s) < i < s.len() implies s[i] != ' ' by {
            if i < t.len() {
                assert(t[i] == s[i]);
            }
        }
    }
}

/// What a buffer holds.
pub struct BufferState {
    /// The text that is final: corrected words, each with its delimiter.
    pub committed: Seq<char>,
    /// The word that is being typed.
    pub pending: Seq<char>,
    /// Whether the next word of more than one letter is to be capitalized.
    pub capitalize_next: bool,
}

impl BufferState {
    /// The state at the start of a session.
    pub open spec fn empty() -> BufferState {
        BufferState { committed: Seq::empty(), pending: Seq::empty(), capitalize_next: true }
    }

    /// The word being typed holds no delimiter.
    pub open spec fn wf(self) -> bool {
        forall|i: int| 0 <= i < self.pending.len() ==> !is_delimiter(self.pending[i])
    }

    /// The text on display.
    pub open spec fn render(self) -> Seq<char> {
        self.committed + self.pending
    }

    /// Whether a word delimiter typed now capitalizes the word it ends.
    pub open spec fn capitalizes(self) -> bool {
        self.capitalize_next && self.pending.len() > 1
    }

    /// The state after the character `c` was typed, with `entries` as the
    /// dictionary.
    pub open spec fn insert(self, c: char, entries: Seq<Seq<char>>) -> BufferState {
        let word = corrected(entries, self.pending);
        if is_word_delimiter(c) {
            BufferState {
                committed: self.committed + (if self.capitalizes() {
                    title_case(word)
                } else {
                    word
                }).push(c),
                pending: Seq::empty(),
                capitalize_next: self.capitalize_next && !self.capitalizes(),
            }
        } else if is_sentence_delimiter(c) {
            BufferState {
                committed: self.committed + word.push(c),
                pending: Seq::empty(),
                capitalize_next: true,
            }
        } else {
            BufferState { pending: self.pending.push(c), ..self }
        }
    }

    /// The state after the last character was deleted: that of the pending
    /// word, or else that of the committed text.
    pub open spec fn delete_char(self) -> BufferState {
        if self.pending.len() > 0 {
            BufferState { pending: self.pending.drop_last(), ..self }
        } else if self.committed.len() > 0 {
            BufferState { committed: self.committed.drop_last(), ..self }
        } else {
            self
        }
    }

    /// The state after the last word was deleted: the pending word, or else
    /// everything behind the last space but one of the committed text, which
    /// is left empty where it holds fewer than two spaces.
    pub open spec fn delete_word(self) -> BufferState {
        if self.pending.len() > 0 {
            BufferState { pending: Seq::empty(), ..self }
        } else {
            BufferState {
                committed: self.committed.take(second_last_space(self.committed) + 1),
                ..self
            }
        }
    }
}

/// Whether a character ends a word within a sentence.
pub fn word_delimiter(c: char) -> (r: bool)
    ensures
        r == is_word_delimiter(c),
{
    c == ' ' || c == ',' || c == ':' || c == ';'
}

/// Whether a character ends a sentence.
pub fn sentence_delimiter(c: char) -> (r: bool)
    ensures
        r == is_sentence_delimiter(c),
{
    c == '.' || c == '?' || c == '!'
}

/// Appends the characters of `tail` to `text`.
fn append_chars(text: &mut Vec<char>, tail: &Vec<char>)
    ensures
        final(text)@ == old(text)@ + tail@,
{
    let mut i: usize = 0;
    while i < tail.len()
        invariant
            i <= tail.len(),
            text@ == old(text)@ + tail@.take(i as int),
        decreases tail.len() - i,
    {
        text.push(tail[i]);
        assert(old(text)@ + tail@.take(i + 1) =~= (old(text)@ + tail@.take(i as int)).push(
            tail@[i as int],
        ));
        i += 1;
    }
    assert(tail@.take(tail.len() as int) =~= tail@);
}

/// One more than the position of the last space among the first `end`
/// characters of `text`: zero where they hold none.
fn behind_last_space(text: &Vec<char>, end: usize) -> (k: usize)
    requires
        end <= text@.len(),
    ensures
        k == last_space(text@.take(end as int)) + 1,
        k <= end,
{
    let mut k: usize = end;
    assert(text@.take(end as int).take(k as int) =~= text@.take(end as int));
    while k > 0 && text[k - 1] != ' '
        invariant
            k <= end,
            end <= text@.len(),
            last_space(text@.take(k as int)) == last_space(text@.take(end as int)),
        decreases k,
    {
        assert(text@.take(k as int).drop_last() =~= text@.take(k - 1));
        k -= 1;
    }
    k
}

/// The autocorrecting line buffer.
pub struct Buffer {
    committed: Vec<char>,
    pending: Vec<char>,
    capitalize_next: bool,
}

impl View for Buffer {
    type V = BufferState;

    closed spec fn view(&self) -> BufferState {
        BufferState {
            committed: self.committed@,
            pending: self.pending@,
            capitalize_next: self.capitalize_next,
        }
    }
}

impl Buffer {
    /// An empty buffer, which owes a capital to its first word.
    pub fn default() -> (b: Buffer)
        ensures
            b@ == BufferState::empty(),
            b@.wf(),
    {
        Buffer { committed: Vec::new(), pending: Vec::new(), capitalize_next: true }
    }

    /// Types one character. A delimiter commits the pending word in its
    /// corrected form, followed by the delimiter; any other character joins
    /// the pending word.
    pub fn add_char(&mut self, c: char, dictionary: &Dictionary)
        ensures
            final(self)@ == old(self)@.insert(c, dictionary@),
            old(self)@.wf() ==> final(self)@.wf(),
    {
        let word_end = word_delimiter(c);
        if word_end || sentence_delimiter(c) {
            let mut word = dictionary.correct_chars(&self.pending);
            if word_end && self.capitalize_next && self.pending.len() > 1 {
                if word.len() > 0 {
                    let first = to_upper_char(word[0]);
                    word.set(0, first);
                }
                self.capitalize_next = false;
            }
            if !word_end {
                self.capitalize_next = true;
            }
            word.push(c);
            append_chars(&mut self.committed, &word);
            self.pending.clear();
        } else {
            self.pending.push(c);
            assert(old(self)@.wf() ==> final(self)@.wf()) by {
                if old(self)@.wf() {
                    assert forall|i: int| 0 <= i < self.pending@.len() implies !is_delimiter(
                        self.pending@[i],
                    ) by {
                        if i < old(self).pending@.len() {
                            assert(self.pending@[i] == old(self)@.pending[i]);
                        }
                    }
                }
            }
        }
    }

    /// Deletes the last character: of the pending word if there is one, else
    /// of the committed text. An empty buffer stays empty.
    pub fn del_char(&mut self)
        ensures
            final(self)@ == old(self)@.delete_char(),
            old(self)@.wf() ==> final(self)@.wf(),
    {
        if self.pending.len() > 0 {
            self.pending.pop();
        } else {
            self.committed.pop();
        }
    }

    /// Deletes the last word: the pending word if there is one; else the
    /// committed text is cut back, two spaces being counted from its end, to
    /// just behind the second of them, or to nothing where it holds fewer.
    pub fn del_word(&mut self)
        ensures
            final(self)@ == old(self)@.delete_word(),
            old(self)@.wf() ==> final(self)@.wf(),
    {
        if self.pending.len() > 0 {
            self.pending.clear();
            return;
        }
        let first = behind_last_space(&self.committed, self.committed.len());
        assert(self.committed@.take(self.committed@.len() as int) =~= self.committed@);
        if first == 0 {
            self.committed.truncate(0);
        } else {
            let second = behind_last_space(&self.committed, first - 1);
            self.committed.truncate(second);
        }
    }

    /// The text on display: the committed text, then the pending word.
    pub fn render(&self) -> (s: String)
        ensures
            s@ == self@.render(),
            s@ == self@.committed + self@.pending,
    {
        let mut all = self.committed.clone();
        append_chars(&mut all, &self.pending);
        string_of(&all)
    }

    /// The length of the text on display, in bytes of its UTF-8 form.
    pub fn lenght(&self) -> (n: usize)
        ensures
            n == vstd::utf8::encode_utf8(self@.render()).len() as usize,
    {
        let s = self.render();
        s.as_str().len()
    }

    /// The committed text.
    pub fn committed(&self) -> (s: String)
        ensures
            s@ == self@.committed,
    {
        string_of(&self.committed)
    }

    /// The word being typed.
    pub fn pending(&self) -> (s: String)
        ensures
            s@ == self@.pending,
    {
        string_of(&self.pending)
    }

    /// Whether the next word of more than one letter will be capitalized.
    pub fn capitalize_next(&self) -> (r: bool)
        ensures
            r == self@.capitalize_next,
    {
        self.capitalize_next
    }
}

} // verus!
