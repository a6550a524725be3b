//! Orders on texts, and sorting by an order.

use vstd::prelude::*;
use vstd::relations::{sorted_by, total_ordering};
use vstd::seq_lib::lemma_sorted_unique;
use vstd::utf8::char_u32_cast;
use crate::text::{byte_len, chars_of};

verus! {

/// The lexicographic order of texts by code points, which is their order by
/// UTF-8 bytes as well.
pub open spec fn lex_le(a: Seq<char>, b: Seq<char>) -> bool
    decreases a.len(),
{
    if a.len() == 0 {
        true
    } else if b.len() == 0 {
        false
    } else if a[0] == b[0] {
        lex_le(a.skip(1), b.skip(1))
    } else {
        (a[0] as int) < (b[0] as int)
    }
}

pub proof fn lemma_lex_reflexive(a: Seq<char>)
    ensures
        lex_le(a, a),
    decreases a.len(),
{
    if a.len() > 0 {
        lemma_lex_reflexive(a.skip(1));
    }
}

pub proof fn lemma_lex_antisymmetric(a: Seq<char>, b: Seq<char>)
    requires
        lex_le(a, b),
        lex_le(b, a),
    ensures
        a == b,
    decreases a.len(),
{
    if a.len() > 0 {
        lemma_lex_antisymmetric(a.skip(1), b.skip(1));
        assert(a =~= seq![a[0]] + a.skip(1));
        assert(b =~= seq![b[0]] + b.skip(1));
    } else {
        assert(a =~= b);
    }
}

pub proof fn lemma_lex_transitive(a: Seq<char>, b: Seq<char>, c: Seq<char>)
    requires
        lex_le(a, b),
        lex_le(b, c),
    ensures
        lex_le(a, c),
    decreases a.len(),
{
    if a.len() > 0 && a[0] == b[0] && b[0] == c[0] {
        lemma_lex_transitive(a.skip(1), b.skip(1), c.skip(1));
    }
}

pub proof fn lemma_lex_total(a: Seq<char>, b: Seq<char>)
    ensures
        lex_le(a, b) || lex_le(b, a),
    decreases a.len(),
{
    if a.len() > 0 && b.len() > 0 && a[0] == b[0] {
        lemma_lex_total(a.skip(1), b.skip(1));
    }
}

/// Whether `a` comes before `b` or equals it, by code points.
pub fn lex_le_text(a: &str, b: &str) -> (res: bool)
    ensures
        res == lex_le(a@, b@),
{
    let left: Vec<char> = chars_of(a);
    let right: Vec<char> = chars_of(b);
    let mut i: usize = 0;
    assert(a@.skip(0) =~= a@);
    assert(b@.skip(0) =~= b@);
    while i < left.len() && i < right.len() && left[i] == right[i]
        invariant
            left@ == a@,
            right@ == b@,
            i <= left.len(),
            i <= right.len(),
            lex_le(a@, b@) == lex_le(a@.skip(i as int), b@.skip(i as int)),
        decreases left.len() - i,
    {
        assert(a@.skip(i as int).skip(1) =~= a@.skip(i + 1));
        assert(b@.skip(i as int).skip(1) =~= b@.skip(i + 1));
        i = i + 1;
    }
    if i == left.len() {
        true
    } else if i == right.len() {
        false
    } else {
        let x: char = left[i];
        let y: char = right[i];
        proof {
            char_u32_cast(x, x as u32);
            char_u32_cast(y, y as u32);
        }
        (x as u32) < (y as u32)
    }
}

/// A type whose values stand in a total order.
pub trait Ranked: View + Sized {
    /// Whether `a` comes before `b` or equals it.
    spec fn ranks(a: Self::V, b: Self::V) -> bool;

    proof fn ranks_totally()
        ensures
            total_ordering(|a: Self::V, b: Self::V| Self::ranks(a, b)),
    ;

    fn ranks_before(&self, other: &Self) -> (res: bool)
        ensures
            res == Self::ranks(self@, other@),
    ;
}

/// The order of `T` as a relation.
pub open spec fn ranking<T: Ranked>() -> spec_fn(T::V, T::V) -> bool {
    |a: T::V, b: T::V| T::ranks(a, b)
}

/// The values behind a sequence.
pub open spec fn seen<T: View>(items: Seq<T>) -> Seq<T::V> {
    items.map_values(|item: T| item@)
}

proof fn lemma_insert_to_multiset<A>(s: Seq<A>, i: int, a: A)
    requires
        0 <= i <= s.len(),
    ensures
        s.insert(i, a).to_multiset() == s.to_multiset().insert(a),
{
    broadcast use vstd::seq_lib::group_to_multiset_ensures;
    broadcast use vstd::multiset::group_multiset_axioms;

    let t = s.insert(i, a);
    assert(t.remove(i) =~= s);
    assert(t[i] == a);
    assert(t.to_multiset().remove(a) =~= s.to_multiset());
    assert(t.to_multiset().contains(a)) by {
        assert(t.contains(t[i]));
    }
    assert(t.to_multiset() =~= s.to_multiset().insert(a));
}

/// The items in ascending order.
pub fn sort_ranked<T: Ranked>(items: Vec<T>) -> (sorted: Vec<T>)
    ensures
        seen(sorted@) == seen(items@).sort_by(ranking::<T>()),
{
    let ghost leq = ranking::<T>();
    let mut sorted: Vec<T> = Vec::new();
    proof {
        T::ranks_totally();
        assert(seen(sorted@) =~= Seq::empty());
        assert(seen(items@).take(0) =~= Seq::empty());
    }
    for item in it: items
        invariant
            it.seq() == items@,
            leq == ranking::<T>(),
            total_ordering(leq),
            sorted_by(seen(sorted@), leq),
            seen(sorted@).to_multiset() == seen(items@).take(it.index() as int).to_multiset(),
    {
        let ghost n = it.index();
        let ghost before = seen(sorted@);
        let mut at: usize = sorted.len();
        while at > 0 && !sorted[at - 1].ranks_before(&item)
            invariant
                leq == ranking::<T>(),
                total_ordering(leq),
                sorted_by(seen(sorted@), leq),
                at <= sorted.len(),
                forall|j: int| at <= j < sorted.len() ==> leq(item@, #[trigger] seen(sorted@)[j]),
            decreases at,
        {
            at = at - 1;
            assert(leq(seen(sorted@)[at as int], item@) || leq(item@, seen(sorted@)[at as int]));
        }
        sorted.insert(at, item);
        proof {
            assert(seen(sorted@) =~= before.insert(at as int, item@));
            lemma_insert_to_multiset(before, at as int, item@);
            assert(seen(items@).take(n + 1) =~= seen(items@).take(n as int).push(item@));
            broadcast use vstd::seq_lib::group_to_multiset_ensures;

            if at > 0 {
                assert(leq(before[at - 1], item@));
            }
            assert forall|i: int, j: int| 0 <= i < j < seen(sorted@).len() implies leq(
                seen(sorted@)[i],
                seen(sorted@)[j],
            ) by {
                if j == at {
                    if i < at - 1 {
                        assert(leq(before[i], before[at - 1]));
                    }
                } else if i == at {
                    assert(seen(sorted@)[j] == before[j - 1]);
                } else {
                    let a = if i < at { i } else { i - 1 };
                    let b = if j < at { j } else { j - 1 };
                    assert(leq(before[a], before[b]));
                }
            }
        }
    }
    proof {
        assert(seen(items@).take(items@.len() as int) =~= seen(items@));
        seen(items@).lemma_sort_by_ensures(leq);
        lemma_sorted_unique(seen(sorted@), seen(items@).sort_by(leq), leq);
    }
    sorted
}

/// The order of the paths by which a module is reached: the shorter path, in
/// bytes, comes first, and paths of one length stand in lexicographic order.
pub open spec fn path_le(a: Seq<char>, b: Seq<char>) -> bool {
    byte_len(a) < byte_len(b) || (byte_len(a) == byte_len(b) && lex_le(a, b))
}

impl Ranked for String {
    open spec fn ranks(a: Seq<char>, b: Seq<char>) -> bool {
        path_le(a, b)
    }

    proof fn ranks_totally() {
        let leq = |a: Seq<char>, b: Seq<char>| Self::ranks(a, b);
        assert forall|a: Seq<char>| #[trigger] leq(a, a) by {
            lemma_lex_reflexive(a);
        }
        assert forall|a: Seq<char>, b: Seq<char>| #[trigger] leq(a, b) && #[trigger] leq(b, a) implies a
            == b by {
            lemma_lex_antisymmetric(a, b);
        }
        assert forall|a: Seq<char>, b: Seq<char>, c: Seq<char>| #[trigger]
            leq(a, b) && #[trigger] leq(b, c) implies leq(a, c) by {
            if byte_len(a) == byte_len(b) && byte_len(b) == byte_len(c) {
                lemma_lex_transitive(a, b, c);
            }
        }
        assert forall|a: Seq<char>, b: Seq<char>| #[trigger] leq(a, b) || #[trigger] leq(b, a) by {
            lemma_lex_total(a, b);
        }
    }

    fn ranks_before(&self, other: &Self) -> (res: bool) {
        let a: usize = self.as_str().as_bytes().len();
        let b: usize = other.as_str().as_bytes().len();
        a < b || (a == b && lex_le_text(self.as_str(), other.as_str()))
    }
}

} // verus!
