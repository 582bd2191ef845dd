//! The word list and the nearest-word lookup that corrects a completed word.

use vstd::prelude::*;
use crate::distance::{
    char_similarity, lemma_distance_bounds, lemma_distance_self, lemma_distance_zero_iff_equal,
    lemma_gt_positive, lemma_gt_transitive, lemma_one_is_greatest,
    lemma_similarity_one_iff_distance_zero, similarity_of, Similarity,
};
use crate::text::{
    chars_of, is_lower, lemma_lower_idempotent, lower, split_words, string_of, texts_of,
    to_lower_char, words_of,
};

verus! {

/// How far the length of an entry may lie from the length of the word for
/// the entry to be compared at all.
pub const LENGTH_WINDOW: usize = 3;

/// Whether `entry` is compared with `word`: neither is empty, and their
/// lengths differ by at most `LENGTH_WINDOW`.
pub open spec fn is_candidate(entry: Seq<char>, word: Seq<char>) -> bool {
    &&& entry.len() > 0
    &&& word.len() > 0
    &&& entry.len() - word.len() <= LENGTH_WINDOW
    &&& word.len() - entry.len() <= LENGTH_WINDOW
}

/// Whether entry `i` is the one that a lookup of `word` settles on: a
/// candidate of positive similarity that no candidate exceeds and that
/// exceeds every candidate before it.
pub open spec fn is_winner(entries: Seq<Seq<char>>, word: Seq<char>, i: int) -> bool {
    &&& 0 <= i < entries.len()
    &&& is_candidate(entries[i], word)
    &&& similarity_of(entries[i], word).is_positive()
    &&& forall|j: int|
        0 <= j < entries.len() && is_candidate(#[trigger] entries[j], word) ==> !similarity_of(
            entries[j],
            word,
        ).gt(similarity_of(entries[i], word))
    &&& forall|j: int|
        0 <= j < i && is_candidate(#[trigger] entries[j], word) ==> similarity_of(
            entries[i],
            word,
        ).gt(similarity_of(entries[j], word))
}

/// The entry closest to `word`, or `word` itself where no candidate has a
/// positive similarity.
pub open spec fn closest(entries: Seq<Seq<char>>, word: Seq<char>) -> Seq<char> {
    if exists|i: int| is_winner(entries, word, i) {
        entries[choose|i: int| is_winner(entries, word, i)]
    } else {
        word
    }
}

/// The pronoun rule: the lone letter `i` is written `I`.
pub open spec fn pronoun_rule(word: Seq<char>) -> Seq<char> {
    if word == seq!['i'] {
        seq!['I']
    } else {
        word
    }
}

/// What a word is corrected to: the closest entry to its lower-case form,
/// with the pronoun rule applied.
pub open spec fn corrected(entries: Seq<Seq<char>>, word: Seq<char>) -> Seq<char> {
    pronoun_rule(closest(entries, lower(word)))
}

/// At most one entry is the winner.
pub proof fn lemma_winner_unique(entries: Seq<Seq<char>>, word: Seq<char>, i: int, j: int)
    requires
        is_winner(entries, word, i),
        is_winner(entries, word, j),
    ensures
        i == j,
{
}

/// The lone letter `i`, in either case, is corrected to `I` whatever the
/// entries are.
pub proof fn lemma_pronoun_always_capital(entries: Seq<Seq<char>>)
    ensures
        corrected(entries, seq!['i']) == seq!['I'],
        corrected(entries, seq!['I']) == seq!['I'],
{
    let word = seq!['i'];
    assert(lower(seq!['i']) =~= word);
    assert(lower(seq!['I']) =~= word);
    if exists|w: int| is_winner(entries, word, w) {
        let w = choose|w: int| is_winner(entries, word, w);
        lemma_distance_zero_iff_equal(entries[w], word);
    }
    assert(closest(entries, word) == word);
}

/// Among the entries up to position `w`, one is the first to equal the entry
/// at `w`.
proof fn lemma_first_occurrence(entries: Seq<Seq<char>>, w: int) -> (k: int)
    requires
        0 <= w < entries.len(),
    ensures
        0 <= k <= w,
        entries[k] == entries[w],
        forall|j: int| 0 <= j < k ==> entries[j] != entries[w],
    decreases w,
{
    if exists|j: int| 0 <= j < w && entries[j] == entries[w] {
        let j = choose|j: int| 0 <= j < w && entries[j] == entries[w];
        lemma_first_occurrence(entries, j)
    } else {
        w
    }
}

/// A non-empty entry is found again as itself: its first occurrence wins the
/// lookup of it.
pub proof fn lemma_entry_is_closest_to_itself(entries: Seq<Seq<char>>, w: int)
    requires
        0 <= w < entries.len(),
        entries[w].len() > 0,
    ensures
        closest(entries, entries[w]) == entries[w],
{
    let word = entries[w];
    let k = lemma_first_occurrence(entries, w);
    let top = similarity_of(word, word);
    lemma_distance_self(word);
    assert forall|j: int|
        0 <= j < entries.len() && is_candidate(#[trigger] entries[j], word) implies !similarity_of(
        entries[j],
        word,
    ).gt(top) by {
        lemma_one_is_greatest(top, similarity_of(entries[j], word));
    }
    assert forall|j: int| 0 <= j < k && is_candidate(#[trigger] entries[j], word) implies top.gt(
        similarity_of(entries[j], word),
    ) by {
        lemma_similarity_one_iff_distance_zero(entries[j], word);
        lemma_one_is_greatest(top, similarity_of(entries[j], word));
    }
    assert(is_winner(entries, word, k));
    let c = choose|i: int| is_winner(entries, word, i);
    lemma_winner_unique(entries, word, k, c);
}

/// Correcting a corrected word changes nothing.
pub proof fn lemma_correct_idempotent(entries: Seq<Seq<char>>, word: Seq<char>)
    requires
        valid_entries(entries),
    ensures
        corrected(entries, corrected(entries, word)) == corrected(entries, word),
{
    let low = lower(word);
    let near = closest(entries, low);
    if near == seq!['i'] {
        lemma_pronoun_always_capital(entries);
    } else if exists|w: int| is_winner(entries, low, w) {
        let w = choose|w: int| is_winner(entries, low, w);
        assert(is_lower(entries[w]));
        lemma_entry_is_closest_to_itself(entries, w);
    } else {
        lemma_lower_idempotent(word);
    }
}

/// Why a word list was refused.
#[derive(Clone, Copy, Debug, PartialEq, Eq, Structural)]
pub enum DictionaryError {
    /// The list holds no word.
    Empty,
}

/// A list of known words in lower case, in the order in which they were
/// given.
pub struct Dictionary {
    words: Vec<Vec<char>>,
}

impl View for Dictionary {
    type V = Seq<Seq<char>>;

    closed spec fn view(&self) -> Seq<Seq<char>> {
        Seq::new(self.words@.len(), |i: int| self.words@[i]@)
    }
}

/// Whether a sequence of words can stand as a dictionary: it is not empty,
/// and every word is in lower case.
pub open spec fn valid_entries(entries: Seq<Seq<char>>) -> bool {
    &&& entries.len() > 0
    &&& forall|i: int| 0 <= i < entries.len() ==> is_lower(#[trigger] entries[i])
}

/// The lower-case forms of a sequence of texts.
pub open spec fn lower_all(texts: Seq<Seq<char>>) -> Seq<Seq<char>> {
    Seq::new(texts.len(), |i: int| lower(texts[i]))
}

/// The lower-case form of a vector of characters.
pub fn lower_chars(v: &Vec<char>) -> (r: Vec<char>)
    ensures
        r@ == lower(v@),
{
    let mut r: Vec<char> = Vec::new();
    let mut i: usize = 0;
    while i < v.len()
        invariant
            i <= v.len(),
            r@ == lower(v@).take(i as int),
        decreases v.len() - i,
    {
        r.push(to_lower_char(v[i]));
        assert(lower(v@).take(i + 1) =~= lower(v@).take(i as int).push(lower(v@)[i as int]));
        i += 1;
    }
    assert(lower(v@).take(v.len() as int) =~= lower(v@));
    r
}

impl Dictionary {
    /// The invariant of a dictionary.
    pub open spec fn wf(&self) -> bool {
        valid_entries(self@)
    }

    /// A dictionary of the given words, each in its lower-case form, in the
    /// given order. A list without words is refused.
    pub fn from_words(words: &Vec<String>) -> (r: Result<Dictionary, DictionaryError>)
        ensures
            words@.len() == 0 <==> r == Err::<Dictionary, DictionaryError>(DictionaryError::Empty),
            words@.len() > 0 <==> r is Ok,
            r matches Ok(d) ==> d.wf() && d@ == lower_all(texts_of(words@)),
    {
        if words.len() == 0 {
            return Err(DictionaryError::Empty);
        }
        let mut list: Vec<Vec<char>> = Vec::new();
        let mut i: usize = 0;
        while i < words.len()
            invariant
                i <= words.len(),
                list@.len() == i,
                forall|k: int| 0 <= k < i ==> (#[trigger] list@[k])@ == lower(words@[k]@),
            decreases words.len() - i,
        {
            let raw = chars_of(words[i].as_str());
            list.push(lower_chars(&raw));
            i += 1;
        }
        let d = Dictionary { words: list };
        proof {
            assert(d@ =~= lower_all(texts_of(words@)));
            assert forall|k: int| 0 <= k < d@.len() implies is_lower(#[trigger] d@[k]) by {
                lemma_lower_idempotent(words@[k]@);
            }
        }
        Ok(d)
    }

    /// A dictionary of the words of a text, which separators part from each
    /// other. A text without words is refused.
    pub fn parse(text: &str) -> (r: Result<Dictionary, DictionaryError>)
        ensures
            words_of(text@).len() == 0 <==> r == Err::<Dictionary, DictionaryError>(
                DictionaryError::Empty,
            ),
            words_of(text@).len() > 0 <==> r is Ok,
            r matches Ok(d) ==> d.wf() && d@ == lower_all(words_of(text@)),
    {
        let words = split_words(text);
        assert(texts_of(words@).len() == words@.len());
        Dictionary::from_words(&words)
    }

    /// How many words the dictionary holds.
    pub fn len(&self) -> (n: usize)
        ensures
            n == self@.len(),
    {
        self.words.len()
    }

    /// The word at position `i`.
    pub fn word(&self, i: usize) -> (w: String)
        requires
            i < self@.len(),
        ensures
            w@ == self@[i as int],
    {
        string_of(&self.words[i])
    }

    /// The index of the entry closest to `word`, if any candidate has a
    /// positive similarity to it.
    pub fn nearest(&self, word: &Vec<char>) -> (r: Option<usize>)
        ensures
            match r {
                Some(i) => is_winner(self@, word@, i as int),
                None => forall|i: int| !is_winner(self@, word@, i),
            },
    {
        if word.len() == 0 {
            return None;
        }
        let mut best: Option<usize> = None;
        let mut best_score = Similarity::zero();
        let mut k: usize = 0;
        while k < self.words.len()
            invariant
                k <= self.words@.len(),
                word@.len() > 0,
                best_score@.wf(),
                forall|j: int|
                    0 <= j < k && is_candidate(#[trigger] self@[j], word@) ==> !similarity_of(
                        self@[j],
                        word@,
                    ).gt(best_score@),
                match best {
                    Some(i) => {
                        &&& i < k
                        &&& is_candidate(self@[i as int], word@)
                        &&& best_score@ == similarity_of(self@[i as int], word@)
                        &&& best_score@.is_positive()
                        &&& forall|j: int|
                            0 <= j < i && is_candidate(#[trigger] self@[j], word@)
                                ==> best_score@.gt(similarity_of(self@[j], word@))
                    },
                    None => best_score@.is_zero(),
                },
            decreases self.words@.len() - k,
        {
            let entry = &self.words[k];
            assert(entry@ == self@[k as int]);
            let n: usize = entry.len();
            let m: usize = word.len();
            let near: bool = n > 0 && if n <= m {
                m - n <= LENGTH_WINDOW
            } else {
                n - m <= LENGTH_WINDOW
            };
            assert(near == is_candidate(self@[k as int], word@));
            if near {
                let score = char_similarity(entry, word);
                if score.exceeds(&best_score) {
                    proof {
                        lemma_gt_positive(score@, best_score@);
                        assert forall|j: int|
                            0 <= j < k && is_candidate(
                                #[trigger] self@[j],
                                word@,
                            ) implies score@.gt(similarity_of(self@[j], word@)) by {
                            lemma_distance_bounds(self@[j], word@);
                            lemma_gt_transitive(similarity_of(self@[j], word@), best_score@, score@);
                        }
                        assert forall|j: int|
                            0 <= j < k + 1 && is_candidate(
                                #[trigger] self@[j],
                                word@,
                            ) implies !similarity_of(self@[j], word@).gt(score@) by {
                            if j < k {
                                assert(score@.gt(similarity_of(self@[j], word@)));
                            }
                        }
                    }
                    best = Some(k);
                    best_score = score;
                }
            }
            k += 1;
        }
        proof {
            if best is None {
                assert forall|i: int| !is_winner(self@, word@, i) by {
                    if is_winner(self@, word@, i) {
                        lemma_distance_bounds(self@[i], word@);
                        lemma_gt_positive(similarity_of(self@[i], word@), best_score@);
                        assert(!similarity_of(self@[i], word@).gt(best_score@));
                    }
                }
            }
        }
        best
    }

    /// The correction of a word given as characters.
    pub fn correct_chars(&self, word: &Vec<char>) -> (r: Vec<char>)
        ensures
            r@ == corrected(self@, word@),
    {
        let low = lower_chars(word);
        let found = match self.nearest(&low) {
            Some(i) => {
                proof {
                    let w = choose|w: int| is_winner(self@, low@, w);
                    lemma_winner_unique(self@, low@, i as int, w);
                }
                self.words[i].clone()
            },
            None => low,
        };
        if found.len() == 1 && found[0] == 'i' {
            assert(found@ =~= seq!['i']);
            let mut r: Vec<char> = Vec::new();
            r.push('I');
            assert(r@ =~= seq!['I']);
            r
        } else {
            assert(found@ != seq!['i']) by {
                if found@ == seq!['i'] {
                    assert(seq!['i'].len() == 1);
                    assert(seq!['i'][0] == 'i');
                }
            }
            found
        }
    }

    /// The correction of a word: the entry nearest to its lower-case form, or
    /// that form itself where no entry is near; the lone letter `i` becomes
    /// `I`.
    pub fn correct(&self, word: &str) -> (r: String)
        ensures
            r@ == corrected(self@, word@),
    {
        let w = chars_of(word);
        let r = self.correct_chars(&w);
        string_of(&r)
    }
}

} // verus!
