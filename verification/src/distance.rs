//! Edit distance between two character sequences, and the similarity score
//! that ranks dictionary candidates.

use vstd::prelude::*;
use crate::text::chars_of;

verus! {

/// The least of three naturals.
pub open spec fn min3(x: nat, y: nat, z: nat) -> nat {
    if x <= y && x <= z {
        x
    } else if y <= z {
        y
    } else {
        z
    }
}

/// What one substitution costs: nothing where the characters agree.
pub open spec fn substitution_cost(x: char, y: char) -> nat {
    if x == y {
        0
    } else {
        1
    }
}

/// The unit-cost edit distance: turning `a` into `b` by dropping the last
/// character of `a`, by appending the last character of `b`, or by matching
/// the two last characters, whichever is cheapest.
pub open spec fn edit_distance(a: Seq<char>, b: Seq<char>) -> nat
    decreases a.len() + b.len(),
{
    if a.len() == 0 {
        b.len()
    } else if b.len() == 0 {
        a.len()
    } else {
        min3(
            edit_distance(a.drop_last(), b) + 1,
            edit_distance(a, b.drop_last()) + 1,
            edit_distance(a.drop_last(), b.drop_last()) + substitution_cost(a.last(), b.last()),
        )
    }
}

/// A sequence is at distance zero from itself.
pub proof fn lemma_distance_self(a: Seq<char>)
    ensures
        edit_distance(a, a) == 0,
    decreases a.len(),
{
    if a.len() > 0 {
        lemma_distance_self(a.drop_last());
    }
}

/// The distance does not depend on the direction of the transformation.
pub proof fn lemma_distance_symmetric(a: Seq<char>, b: Seq<char>)
    ensures
        edit_distance(a, b) == edit_distance(b, a),
    decreases a.len() + b.len(),
{
    if a.len() > 0 && b.len() > 0 {
        lemma_distance_symmetric(a.drop_last(), b);
        lemma_distance_symmetric(a, b.drop_last());
        lemma_distance_symmetric(a.drop_last(), b.drop_last());
    }
}

/// From the empty sequence every character of the target must be inserted.
pub proof fn lemma_distance_from_empty(s: Seq<char>)
    ensures
        edit_distance(Seq::<char>::empty(), s) == s.len(),
        edit_distance(s, Seq::<char>::empty()) == s.len(),
{
}

/// The distance lies between the difference of the lengths and the longer
/// length.
pub proof fn lemma_distance_bounds(a: Seq<char>, b: Seq<char>)
    ensures
        edit_distance(a, b) <= if a.len() >= b.len() { a.len() } else { b.len() },
        a.len() - b.len() <= edit_distance(a, b),
        b.len() - a.len() <= edit_distance(a, b),
    decreases a.len() + b.len(),
{
    if a.len() > 0 && b.len() > 0 {
        lemma_distance_bounds(a.drop_last(), b);
        lemma_distance_bounds(a, b.drop_last());
        lemma_distance_bounds(a.drop_last(), b.drop_last());
    }
}

/// Only equal sequences are at distance zero.
pub proof fn lemma_distance_zero_iff_equal(a: Seq<char>, b: Seq<char>)
    ensures
        edit_distance(a, b) == 0 <==> a == b,
    decreases a.len() + b.len(),
{
    if a.len() > 0 && b.len() > 0 {
        lemma_distance_zero_iff_equal(a.drop_last(), b.drop_last());
        if edit_distance(a, b) == 0 {
            assert(a =~= a.drop_last().push(a.last()));
            assert(b =~= b.drop_last().push(b.last()));
        }
        if a == b {
            lemma_distance_self(a);
        }
    } else if a.len() == 0 && b.len() == 0 {
        assert(a =~= b);
    }
}

/// Whether two vectors hold the same characters.
pub fn same_chars(a: &Vec<char>, b: &Vec<char>) -> (same: bool)
    ensures
        same == (a@ == b@),
{
    if a.len() != b.len() {
        return false;
    }
    let mut i: usize = 0;
    while i < a.len()
        invariant
            a.len() == b.len(),
            i <= a.len(),
            forall|k: int| 0 <= k < i ==> a@[k] == b@[k],
        decreases a.len() - i,
    {
        if a[i] != b[i] {
            return false;
        }
        i += 1;
    }
    assert(a@ =~= b@);
    true
}

/// The edit distance between two vectors of characters, by a sweep that
/// keeps one row of the table at a time.
pub fn char_distance(a: &Vec<char>, b: &Vec<char>) -> (d: usize)
    ensures
        d == edit_distance(a@, b@),
{
    if same_chars(a, b) {
        proof {
            lemma_distance_self(a@);
        }
        return 0;
    }
    let n: usize = a.len();
    let m: usize = b.len();
    if m == 0 {
        return n;
    }
    // `row[j]` is the distance from the first `i` characters of `a` to the
    // first `j + 1` characters of `b`; the column of the empty prefix of `b`
    // is `i` itself and is not stored.
    let mut row: Vec<usize> = Vec::new();
    let mut j: usize = 0;
    while j < m
        invariant
            m == b.len(),
            j <= m,
            row.len() == j,
            forall|k: int| 0 <= k < j ==> row@[k] == edit_distance(a@.take(0), #[trigger] b@.take(k + 1)),
        decreases m - j,
    {
        row.push(j + 1);
        j += 1;
    }
    let mut i: usize = 0;
    while i < n
        invariant
            n == a.len(),
            m == b.len(),
            m > 0,
            i <= n,
            row.len() == m,
            forall|k: int| 0 <= k < m ==> row@[k] == edit_distance(a@.take(i as int), #[trigger] b@.take(k + 1)),
        decreases n - i,
    {
        let mut next: Vec<usize> = Vec::new();
        let mut diagonal: usize = i;
        let mut left: usize = i + 1;
        let mut j: usize = 0;
        while j < m
            invariant
                n == a.len(),
                m == b.len(),
                i < n,
                j <= m,
                row.len() == m,
                next.len() == j,
                forall|k: int| 0 <= k < m ==> row@[k] == edit_distance(a@.take(i as int), #[trigger] b@.take(k + 1)),
                forall|k: int| 0 <= k < j ==> next@[k] == edit_distance(a@.take(i + 1), #[trigger] b@.take(k + 1)),
                diagonal == edit_distance(a@.take(i as int), b@.take(j as int)),
                left == edit_distance(a@.take(i + 1), b@.take(j as int)),
            decreases m - j,
        {
            let above: usize = row[j];
            proof {
                let ai = a@.take(i + 1);
                let bj = b@.take(j + 1);
                assert(ai.drop_last() =~= a@.take(i as int));
                assert(bj.drop_last() =~= b@.take(j as int));
                assert(ai.last() == a@[i as int]);
                assert(bj.last() == b@[j as int]);
                lemma_distance_bounds(a@.take(i as int), b@.take(j as int));
            }
            let mut best: usize = if a[i] == b[j] {
                diagonal
            } else {
                diagonal + 1
            };
            if above < best {
                best = above + 1;
            }
            if left < best {
                best = left + 1;
            }
            next.push(best);
            diagonal = above;
            left = best;
            j += 1;
        }
        row = next;
        i += 1;
    }
    proof {
        assert(a@.take(n as int) =~= a@);
        assert(b@.take((m - 1) + 1) =~= b@);
    }
    row[m - 1]
}

/// The edit distance between two strings, counted in characters.
pub fn distance(a: &str, b: &str) -> (d: usize)
    ensures
        d == edit_distance(a@, b@),
{
    let x = chars_of(a);
    let y = chars_of(b);
    char_distance(&x, &y)
}

/// The length of the shorter of two sequences.
pub open spec fn shorter_len(a: Seq<char>, b: Seq<char>) -> nat {
    if a.len() <= b.len() {
        a.len()
    } else {
        b.len()
    }
}

/// A similarity score as a fraction: the number one less the quotient of
/// `distance` by `shorter`.
pub struct Score {
    /// The edit distance between the two texts.
    pub distance: nat,
    /// The length of the shorter text; never zero in a valid score.
    pub shorter: nat,
}

impl Score {
    /// A score has a value only over a non-zero length.
    pub open spec fn wf(self) -> bool {
        self.shorter > 0
    }

    /// The score is `numerator() / denominator()`.
    pub open spec fn numerator(self) -> int {
        self.shorter - self.distance
    }

    /// The length that the distance is measured against.
    pub open spec fn denominator(self) -> int {
        self.shorter as int
    }

    /// Whether this score is strictly greater than `other`, by cross
    /// multiplication of the two fractions.
    pub open spec fn gt(self, other: Score) -> bool {
        self.numerator() * other.denominator() > other.numerator() * self.denominator()
    }

    /// Whether the score is exactly one.
    pub open spec fn is_one(self) -> bool {
        self.numerator() == self.denominator()
    }

    /// Whether the score is strictly greater than zero.
    pub open spec fn is_positive(self) -> bool {
        self.numerator() > 0
    }

    /// Whether the score is exactly zero.
    pub open spec fn is_zero(self) -> bool {
        self.numerator() == 0
    }
}

/// The similarity of two non-empty texts.
pub open spec fn similarity_of(a: Seq<char>, b: Seq<char>) -> Score {
    Score { distance: edit_distance(a, b), shorter: shorter_len(a, b) }
}

/// A similarity score held as its two integers, so that scores compare
/// exactly.
#[derive(Clone, Copy, Debug)]
pub struct Similarity {
    /// The edit distance between the two texts.
    pub distance: usize,
    /// The length of the shorter text; never zero in a valid score.
    pub shorter: usize,
}

impl View for Similarity {
    type V = Score;

    open spec fn view(&self) -> Score {
        Score { distance: self.distance as nat, shorter: self.shorter as nat }
    }
}

impl Similarity {
    /// The score zero, below which no candidate is accepted.
    pub fn zero() -> (s: Similarity)
        ensures
            s@.wf(),
            s@.is_zero(),
    {
        Similarity { distance: 1, shorter: 1 }
    }

    /// Whether this score is strictly greater than `other`.
    pub fn exceeds(&self, other: &Similarity) -> (r: bool)
        requires
            self@.wf(),
            other@.wf(),
        ensures
            r == self@.gt(other@),
    {
        let d1: u128 = self.distance as u128;
        let m1: u128 = self.shorter as u128;
        let d2: u128 = other.distance as u128;
        let m2: u128 = other.shorter as u128;
        assert(d1 * m2 <= 0xffff_ffff_ffff_ffff * 0xffff_ffff_ffff_ffff) by (nonlinear_arith)
            requires
                d1 <= 0xffff_ffff_ffff_ffff,
                m2 <= 0xffff_ffff_ffff_ffff,
        ;
        assert(d2 * m1 <= 0xffff_ffff_ffff_ffff * 0xffff_ffff_ffff_ffff) by (nonlinear_arith)
            requires
                d2 <= 0xffff_ffff_ffff_ffff,
                m1 <= 0xffff_ffff_ffff_ffff,
        ;
        assert((m1 - d1) * m2 > (m2 - d2) * m1 <==> d1 * m2 < d2 * m1) by (nonlinear_arith);
        d1 * m2 < d2 * m1
    }

    /// Whether the score is strictly greater than zero.
    pub fn positive(&self) -> (r: bool)
        ensures
            r == self@.is_positive(),
    {
        self.distance < self.shorter
    }

    /// Whether the score is exactly one.
    pub fn one(&self) -> (r: bool)
        ensures
            r == self@.is_one(),
    {
        self.distance == 0
    }
}

/// The order of scores is transitive: a score that is not above a second
/// one stays below whatever exceeds the second.
pub proof fn lemma_gt_transitive(x: Score, y: Score, z: Score)
    requires
        x.wf(),
        y.wf(),
        z.wf(),
        !x.gt(y),
        z.gt(y),
    ensures
        z.gt(x),
{
    let (dx, mx) = (x.distance as int, x.shorter as int);
    let (dy, my) = (y.distance as int, y.shorter as int);
    let (dz, mz) = (z.distance as int, z.shorter as int);
    assert((mx - dx) * my <= (my - dy) * mx <==> dy * mx <= dx * my) by (nonlinear_arith);
    assert((mz - dz) * my > (my - dy) * mz <==> dz * my < dy * mz) by (nonlinear_arith);
    assert((mz - dz) * mx > (mx - dx) * mz <==> dz * mx < dx * mz) by (nonlinear_arith);
    assert(dz * mx < dx * mz) by (nonlinear_arith)
        requires
            dy * mx <= dx * my,
            dz * my < dy * mz,
            mx > 0,
            my > 0,
            mz > 0,
            dx >= 0,
            dy >= 0,
            dz >= 0,
    ;
}

/// A score exceeds zero exactly when it is positive, and whatever exceeds a
/// score that is not negative is positive.
pub proof fn lemma_gt_positive(x: Score, y: Score)
    requires
        x.wf(),
        y.wf(),
        y.numerator() >= 0,
    ensures
        x.gt(y) ==> x.is_positive(),
        y.is_zero() ==> (x.gt(y) <==> x.is_positive()),
{
    let (nx, mx) = (x.numerator(), x.denominator());
    let (ny, my) = (y.numerator(), y.denominator());
    assert(nx * my > ny * mx ==> nx > 0) by (nonlinear_arith)
        requires
            ny >= 0,
            mx > 0,
            my > 0,
    ;
    assert(ny == 0 && nx > 0 ==> nx * my > ny * mx) by (nonlinear_arith)
        requires
            my > 0,
    ;
}

/// No score is above one, and only a score of one is not below one.
pub proof fn lemma_one_is_greatest(x: Score, y: Score)
    requires
        x.wf(),
        y.wf(),
        x.is_one(),
    ensures
        !y.gt(x),
        !x.gt(y) ==> y.is_one(),
        y.is_one() ==> !x.gt(y),
{
    let (dy, my) = (y.distance as int, y.shorter as int);
    let mx = x.shorter as int;
    assert((my - dy) * mx <= my * mx) by (nonlinear_arith)
        requires
            dy >= 0,
            mx > 0,
    ;
    assert(mx * my == my * mx) by (nonlinear_arith);
    if dy > 0 {
        assert((my - dy) * mx < my * mx) by (nonlinear_arith)
            requires
                dy > 0,
                mx > 0,
        ;
    }
}

/// Two texts have similarity one exactly when their distance is zero, that
/// is, when they are equal.
pub proof fn lemma_similarity_one_iff_distance_zero(a: Seq<char>, b: Seq<char>)
    requires
        a.len() > 0,
        b.len() > 0,
    ensures
        similarity_of(a, b).is_one() <==> edit_distance(a, b) == 0,
        similarity_of(a, b).is_one() <==> a == b,
{
    lemma_distance_zero_iff_equal(a, b);
}

/// The similarity of two non-empty vectors of characters.
pub fn char_similarity(a: &Vec<char>, b: &Vec<char>) -> (s: Similarity)
    requires
        a@.len() > 0,
        b@.len() > 0,
    ensures
        s@ == similarity_of(a@, b@),
        s@.wf(),
{
    proof {
        lemma_distance_bounds(a@, b@);
    }
    let d = char_distance(a, b);
    let m = if a.len() <= b.len() {
        a.len()
    } else {
        b.len()
    };
    Similarity { distance: d, shorter: m }
}

/// The similarity of two non-empty strings.
pub fn similarity(a: &str, b: &str) -> (s: Similarity)
    requires
        a@.len() > 0,
        b@.len() > 0,
    ensures
        s@ == similarity_of(a@, b@),
        s@.wf(),
{
    let x = chars_of(a);
    let y = chars_of(b);
    char_similarity(&x, &y)
}

} // verus!
