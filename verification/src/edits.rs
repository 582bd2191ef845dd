//! Edit scripts: the single-character edits that the edit distance counts,
//! and the proof that the distance is the length of a shortest script.

use vstd::prelude::*;
use crate::distance::{edit_distance, substitution_cost};

verus! {

/// One single-character edit of a text. Positions count from the start.
pub enum Edit {
    /// Put `c` in front of position `at`; `at` may be the length of the text.
    Insert { at: int, c: char },
    /// Take out the character at position `at`.
    Delete { at: int },
    /// Put `c` in place of the character at position `at`.
    Substitute { at: int, c: char },
}

impl Edit {
    /// Whether the edit's position lies within the text.
    pub open spec fn applies_to(self, s: Seq<char>) -> bool {
        match self {
            Edit::Insert { at, c } => 0 <= at <= s.len(),
            Edit::Delete { at } => 0 <= at < s.len(),
            Edit::Substitute { at, c } => 0 <= at < s.len(),
        }
    }

    /// The text after the edit.
    pub open spec fn apply(self, s: Seq<char>) -> Seq<char> {
        match self {
            Edit::Insert { at, c } => s.insert(at, c),
            Edit::Delete { at } => s.remove(at),
            Edit::Substitute { at, c } => s.update(at, c),
        }
    }
}

/// Whether the edits, made one after the other, turn `a` into `b`.
pub open spec fn transforms(edits: Seq<Edit>, a: Seq<char>, b: Seq<char>) -> bool
    decreases edits.len(),
{
    if edits.len() == 0 {
        a == b
    } else {
        edits[0].applies_to(a) && transforms(edits.drop_first(), edits[0].apply(a), b)
    }
}

/// Dropping a last character, on either side or on both, costs at most one.
proof fn lemma_step_bounds(a: Seq<char>, b: Seq<char>)
    ensures
        a.len() > 0 ==> edit_distance(a, b) <= edit_distance(a.drop_last(), b) + 1,
        b.len() > 0 ==> edit_distance(a, b) <= edit_distance(a, b.drop_last()) + 1,
        a.len() > 0 && b.len() > 0 ==> edit_distance(a, b) <= edit_distance(
            a.drop_last(),
            b.drop_last(),
        ) + substitution_cost(a.last(), b.last()),
{
}

/// One edit of the source changes its distance to any target by at most
/// one.
proof fn lemma_one_edit(a: Seq<char>, e: Edit, b: Seq<char>)
    requires
        e.applies_to(a),
    ensures
        edit_distance(a, b) <= edit_distance(e.apply(a), b) + 1,
    decreases a.len() + b.len(),
{
    let a2 = e.apply(a);
    if b.len() == 0 {
        return ;
    }
    let y = b.drop_last();
    lemma_step_bounds(a, b);
    lemma_step_bounds(a, y);
    match e {
        Edit::Insert { at, c } => {
            if at == a.len() {
                assert(a2.drop_last() =~= a);
                lemma_one_edit(a, e, y);
            } else {
                let x = a.drop_last();
                assert(a2.drop_last() =~= e.apply(x));
                assert(a2.last() == a.last());
                lemma_one_edit(x, e, b);
                lemma_one_edit(a, e, y);
                lemma_one_edit(x, e, y);
            }
        },
        Edit::Delete { at } => {
            if at == a.len() - 1 {
                assert(a2 =~= a.drop_last());
            } else {
                let x = a.drop_last();
                assert(a2.drop_last() =~= e.apply(x));
                assert(a2.last() == a.last());
                lemma_one_edit(x, e, b);
                lemma_one_edit(a, e, y);
                lemma_one_edit(x, e, y);
            }
        },
        Edit::Substitute { at, c } => {
            let x = a.drop_last();
            if at == a.len() - 1 {
                assert(a2.drop_last() =~= x);
                lemma_one_edit(a, e, y);
            } else {
                assert(a2.drop_last() =~= e.apply(x));
                assert(a2.last() == a.last());
                lemma_one_edit(x, e, b);
                lemma_one_edit(a, e, y);
                lemma_one_edit(x, e, y);
            }
        },
    }
}

/// No script that turns `a` into `b` is shorter than their distance.
pub proof fn lemma_no_shorter_script(edits: Seq<Edit>, a: Seq<char>, b: Seq<char>)
    requires
        transforms(edits, a, b),
    ensures
        edit_distance(a, b) <= edits.len(),
    decreases edits.len(),
{
    if edits.len() == 0 {
        crate::distance::lemma_distance_self(a);
    } else {
        lemma_no_shorter_script(edits.drop_first(), edits[0].apply(a), b);
        lemma_one_edit(a, edits[0], b);
    }
}

/// A script that turns one text into another does the same with one more
/// character at the end of both.
proof fn lemma_script_with_suffix(edits: Seq<Edit>, a: Seq<char>, b: Seq<char>, c: char)
    requires
        transforms(edits, a, b),
    ensures
        transforms(edits, a.push(c), b.push(c)),
    decreases edits.len(),
{
    if edits.len() > 0 {
        let e = edits[0];
        assert(e.apply(a.push(c)) =~= e.apply(a).push(c));
        lemma_script_with_suffix(edits.drop_first(), e.apply(a), b, c);
    }
}

/// A first edit, followed by a script from its result, is a script from the
/// start.
proof fn lemma_script_after_edit(e: Edit, rest: Seq<Edit>, a: Seq<char>, b: Seq<char>) -> (all:
    Seq<Edit>)
    requires
        e.applies_to(a),
        transforms(rest, e.apply(a), b),
    ensures
        transforms(all, a, b),
        all.len() == rest.len() + 1,
{
    let all = seq![e] + rest;
    assert(all[0] == e);
    assert(all.drop_first() =~= rest);
    all
}

/// A script of as many edits as the distance turns `a` into `b`.
pub proof fn lemma_shortest_script(a: Seq<char>, b: Seq<char>) -> (edits: Seq<Edit>)
    ensures
        transforms(edits, a, b),
        edits.len() == edit_distance(a, b),
    decreases a.len() + b.len(),
{
    if a.len() == 0 && b.len() == 0 {
        assert(a =~= b);
        Seq::empty()
    } else if a.len() == 0 {
        let y = b.drop_last();
        let e = Edit::Insert { at: 0, c: b.last() };
        let rest = lemma_shortest_script(a, y);
        lemma_script_with_suffix(rest, a, y, b.last());
        assert(e.apply(a) =~= a.push(b.last()));
        assert(y.push(b.last()) =~= b);
        lemma_script_after_edit(e, rest, a, b)
    } else if b.len() == 0 {
        let x = a.drop_last();
        let e = Edit::Delete { at: a.len() - 1 };
        let rest = lemma_shortest_script(x, b);
        assert(e.apply(a) =~= x);
        lemma_script_after_edit(e, rest, a, b)
    } else {
        let x = a.drop_last();
        let y = b.drop_last();
        let d = edit_distance(a, b);
        assert(x.push(a.last()) =~= a);
        assert(y.push(b.last()) =~= b);
        if d == edit_distance(x, b) + 1 {
            let e = Edit::Delete { at: a.len() - 1 };
            let rest = lemma_shortest_script(x, b);
            assert(e.apply(a) =~= x);
            lemma_script_after_edit(e, rest, a, b)
        } else if d == edit_distance(a, y) + 1 {
            let e = Edit::Insert { at: a.len() as int, c: b.last() };
            let rest = lemma_shortest_script(a, y);
            lemma_script_with_suffix(rest, a, y, b.last());
            assert(e.apply(a) =~= a.push(b.last()));
            lemma_script_after_edit(e, rest, a, b)
        } else if a.last() == b.last() {
            let rest = lemma_shortest_script(x, y);
            lemma_script_with_suffix(rest, x, y, b.last());
            rest
        } else {
            let e = Edit::Substitute { at: a.len() - 1, c: b.last() };
            let rest = lemma_shortest_script(x, y);
            lemma_script_with_suffix(rest, x, y, b.last());
            assert(e.apply(a) =~= x.push(b.last()));
            lemma_script_after_edit(e, rest, a, b)
        }
    }
}

/// The edit distance is the least number of single-character insertions,
/// deletions and substitutions that turn `a` into `b`: some script has that
/// many edits, and none has fewer.
pub proof fn lemma_distance_is_least_number_of_edits(a: Seq<char>, b: Seq<char>)
    ensures
        exists|edits: Seq<Edit>| #[trigger]
            transforms(edits, a, b) && edits.len() == edit_distance(a, b),
        forall|edits: Seq<Edit>| #[trigger]
            transforms(edits, a, b) ==> edit_distance(a, b) <= edits.len(),
{
    let shortest = lemma_shortest_script(a, b);
    assert(transforms(shortest, a, b) && shortest.len() == edit_distance(a, b));
    assert forall|edits: Seq<Edit>| #[trigger] transforms(edits, a, b) implies edit_distance(a, b)
        <= edits.len() by {
        lemma_no_shorter_script(edits, a, b);
    }
}

/// Two scripts in a row are a script from the first start to the last end.
pub proof fn lemma_scripts_compose(
    first: Seq<Edit>,
    second: Seq<Edit>,
    a: Seq<char>,
    b: Seq<char>,
    c: Seq<char>,
)
    requires
        transforms(first, a, b),
        transforms(second, b, c),
    ensures
        transforms(first + second, a, c),
    decreases first.len(),
{
    if first.len() == 0 {
        assert(first + second =~= second);
    } else {
        lemma_scripts_compose(first.drop_first(), second, first[0].apply(a), b, c);
        assert((first + second).drop_first() =~= first.drop_first() + second);
        assert((first + second)[0] == first[0]);
    }
}

/// The triangle inequality: a detour over a third text is never shorter.
pub proof fn lemma_distance_triangle(a: Seq<char>, b: Seq<char>, c: Seq<char>)
    ensures
        edit_distance(a, c) <= edit_distance(a, b) + edit_distance(b, c),
{
    let first = lemma_shortest_script(a, b);
    let second = lemma_shortest_script(b, c);
    lemma_scripts_compose(first, second, a, b, c);
    lemma_no_shorter_script(first + second, a, c);
}

} // verus!
