//! The order in which the cached lists are kept, and sorting by it.
//!
//! Each list of the cache is kept in the order of its element type's `Ord`:
//! after every insertion the whole list is sorted again.  The order is stated
//! here over the elements' views, and `sort_views` is the sorted arrangement
//! of a sequence, built by inserting its elements one after another.

use vstd::prelude::*;
use crate::text::{chars_before, lemma_chars_before_irreflexive, lemma_chars_before_total, lemma_chars_before_transitive};

verus! {

/// A type whose values are compared by a strict total order on their views.
pub trait Ordered: View + Sized {
    /// `a` comes strictly before `b`.
    spec fn before(a: Self::V, b: Self::V) -> bool;

    proof fn lemma_before_irreflexive(a: Self::V)
        ensures
            !Self::before(a, a),
    ;

    proof fn lemma_before_transitive(a: Self::V, b: Self::V, c: Self::V)
        requires
            Self::before(a, b),
            Self::before(b, c),
        ensures
            Self::before(a, c),
    ;

    proof fn lemma_before_total(a: Self::V, b: Self::V)
        requires
            a != b,
        ensures
            Self::before(a, b) || Self::before(b, a),
    ;

    /// Whether `self` comes strictly before `other`.
    fn is_before(&self, other: &Self) -> (r: bool)
        ensures
            r == Self::before(self@, other@),
    ;
}

/// The views of the elements of `s`.
pub open spec fn views<T: View>(s: Seq<T>) -> Seq<T::V> {
    s.map_values(|x: T| x@)
}

/// No element of `s` comes before an element that precedes it.
pub open spec fn sorted_by<T: Ordered>(s: Seq<T::V>) -> bool {
    forall|i: int, j: int| 0 <= i < j < s.len() ==> !T::before(#[trigger] s[j], #[trigger] s[i])
}

/// The index of the first element of `s` that `x` comes before (the length
/// of `s` if there is none): where `x` goes in a sorted `s`.
pub open spec fn insert_position<T: Ordered>(s: Seq<T::V>, x: T::V) -> nat
    decreases s.len(),
{
    if s.len() == 0 {
        0
    } else if T::before(x, s[0]) {
        0
    } else {
        1 + insert_position::<T>(s.drop_first(), x)
    }
}

/// `s` with `x` inserted at its position.
pub open spec fn insert_in_order<T: Ordered>(s: Seq<T::V>, x: T::V) -> Seq<T::V> {
    s.insert(insert_position::<T>(s, x) as int, x)
}

/// The sorted arrangement of `s`.
pub open spec fn sort_views<T: Ordered>(s: Seq<T::V>) -> Seq<T::V>
    decreases s.len(),
{
    if s.len() == 0 {
        s
    } else {
        insert_in_order::<T>(sort_views::<T>(s.drop_last()), s.last())
    }
}

/// What `insert_position` is: every element before it does not come after
/// `x`, and `x` comes before the element at it.
pub proof fn lemma_insert_position<T: Ordered>(s: Seq<T::V>, x: T::V)
    ensures
        insert_position::<T>(s, x) <= s.len(),
        forall|j: int| 0 <= j < insert_position::<T>(s, x) ==> !T::before(x, #[trigger] s[j]),
        insert_position::<T>(s, x) < s.len() ==> T::before(x, s[insert_position::<T>(s, x) as int]),
    decreases s.len(),
{
    if s.len() > 0 && !T::before(x, s[0]) {
        lemma_insert_position::<T>(s.drop_first(), x);
        assert forall|j: int| 0 <= j < insert_position::<T>(s, x) implies !T::before(
            x,
            #[trigger] s[j],
        ) by {
            if j > 0 {
                assert(s[j] == s.drop_first()[j - 1]);
            }
        }
    }
}

/// An index with the two properties of `lemma_insert_position` is the
/// insert position.
pub proof fn lemma_insert_position_unique<T: Ordered>(s: Seq<T::V>, x: T::V, i: int)
    requires
        0 <= i <= s.len(),
        forall|j: int| 0 <= j < i ==> !T::before(x, #[trigger] s[j]),
        i < s.len() ==> T::before(x, s[i]),
    ensures
        insert_position::<T>(s, x) == i,
    decreases s.len(),
{
    if s.len() > 0 && i > 0 {
        assert(!T::before(x, s[0]));
        assert forall|j: int| 0 <= j < i - 1 implies !T::before(x, #[trigger] s.drop_first()[j]) by {
            assert(s.drop_first()[j] == s[j + 1]);
        }
        lemma_insert_position_unique::<T>(s.drop_first(), x, i - 1);
    }
}

/// Inserting at its position keeps a sorted sequence sorted.
pub proof fn lemma_insert_keeps_sorted<T: Ordered>(s: Seq<T::V>, x: T::V)
    requires
        sorted_by::<T>(s),
    ensures
        sorted_by::<T>(insert_in_order::<T>(s, x)),
{
    let p = insert_position::<T>(s, x) as int;
    let r = insert_in_order::<T>(s, x);
    lemma_insert_position::<T>(s, x);
    assert forall|i: int, j: int| 0 <= i < j < r.len() implies !T::before(#[trigger] r[j], #[trigger] r[i]) by {
        if j < p {
            assert(r[i] == s[i] && r[j] == s[j]);
        } else if j == p {
            assert(r[i] == s[i]);
        } else if i == p {
            // x before s[p] <= s[j - 1]
            assert(r[j] == s[j - 1]);
            if T::before(r[j], x) {
                assert(T::before(x, s[p]));
                if j - 1 == p {
                    T::lemma_before_transitive(s[p], x, s[p]);
                    T::lemma_before_irreflexive(s[p]);
                } else {
                    T::lemma_before_transitive(s[j - 1], x, s[p]);
                }
            }
        } else if i < p {
            assert(r[i] == s[i] && r[j] == s[j - 1]);
        } else {
            assert(r[i] == s[i - 1] && r[j] == s[j - 1]);
        }
    }
}

/// `sort_views` gives a sorted sequence.
pub proof fn lemma_sort_views_sorted<T: Ordered>(s: Seq<T::V>)
    ensures
        sorted_by::<T>(sort_views::<T>(s)),
    decreases s.len(),
{
    if s.len() > 0 {
        lemma_sort_views_sorted::<T>(s.drop_last());
        lemma_insert_keeps_sorted::<T>(sort_views::<T>(s.drop_last()), s.last());
    }
}

/// `sort_views` rearranges: it keeps every element as often as it occurs.
pub proof fn lemma_sort_views_permutes<T: Ordered>(s: Seq<T::V>)
    ensures
        sort_views::<T>(s).to_multiset() == s.to_multiset(),
        sort_views::<T>(s).len() == s.len(),
    decreases s.len(),
{
    broadcast use vstd::seq_lib::group_to_multiset_ensures;
    if s.len() > 0 {
        let t = sort_views::<T>(s.drop_last());
        lemma_sort_views_permutes::<T>(s.drop_last());
        lemma_insert_position::<T>(t, s.last());
        assert(sort_views::<T>(s).to_multiset() == t.to_multiset().insert(s.last()));
        assert(s =~= s.drop_last().push(s.last()));
    }
}

/// Whatever holds of every element of `s` holds of every element of its
/// sorted arrangement.
pub proof fn lemma_sort_views_keeps<T: Ordered>(s: Seq<T::V>, p: spec_fn(T::V) -> bool)
    requires
        forall|i: int| 0 <= i < s.len() ==> p(#[trigger] s[i]),
    ensures
        forall|i: int| 0 <= i < s.len() ==> p(#[trigger] sort_views::<T>(s)[i]),
{
    broadcast use vstd::seq_lib::group_to_multiset_ensures;
    lemma_sort_views_permutes::<T>(s);
    let t = sort_views::<T>(s);
    assert forall|i: int| 0 <= i < s.len() implies p(#[trigger] t[i]) by {
        assert(t.contains(t[i]));
        assert(s.to_multiset().count(t[i]) > 0);
        assert(s.contains(t[i]));
        let k = choose|k: int| 0 <= k < s.len() && s[k] == t[i];
        assert(p(s[k]));
    }
}

/// A sorted sequence is its own sorted arrangement.
pub proof fn lemma_sort_views_of_sorted<T: Ordered>(s: Seq<T::V>)
    requires
        sorted_by::<T>(s),
    ensures
        sort_views::<T>(s) == s,
    decreases s.len(),
{
    if s.len() > 0 {
        let d = s.drop_last();
        assert(sorted_by::<T>(d)) by {
            assert forall|i: int, j: int| 0 <= i < j < d.len() implies !T::before(#[trigger] d[j], #[trigger] d[i]) by {
                assert(d[i] == s[i] && d[j] == s[j]);
            }
        }
        lemma_sort_views_of_sorted::<T>(d);
        assert forall|j: int| 0 <= j < d.len() implies !T::before(s.last(), #[trigger] d[j]) by {
            assert(d[j] == s[j]);
        }
        lemma_insert_position_unique::<T>(d, s.last(), d.len() as int);
        assert(d.insert(d.len() as int, s.last()) =~= s);
    }
}

/// Lexicographic order on equally long lists of texts.
pub open spec fn texts_before(a: Seq<Seq<char>>, b: Seq<Seq<char>>) -> bool
    decreases a.len(),
{
    if a.len() == 0 || b.len() == 0 {
        false
    } else if a[0] != b[0] {
        chars_before(a[0], b[0])
    } else {
        texts_before(a.drop_first(), b.drop_first())
    }
}

/// The order of a record made of a `u64` followed by texts, as `derive(Ord)`
/// orders a struct: field by field, in declaration order.
pub open spec fn key_before(ha: u64, ta: Seq<Seq<char>>, hb: u64, tb: Seq<Seq<char>>) -> bool {
    ha < hb || (ha == hb && texts_before(ta, tb))
}

pub proof fn lemma_texts_before_irreflexive(a: Seq<Seq<char>>)
    ensures
        !texts_before(a, a),
    decreases a.len(),
{
    if a.len() > 0 {
        lemma_texts_before_irreflexive(a.drop_first());
    }
}

pub proof fn lemma_texts_before_transitive(a: Seq<Seq<char>>, b: Seq<Seq<char>>, c: Seq<Seq<char>>)
    requires
        texts_before(a, b),
        texts_before(b, c),
    ensures
        texts_before(a, c),
    decreases a.len(),
{
    if a[0] != b[0] {
        if b[0] != c[0] {
            lemma_chars_before_transitive(a[0], b[0], c[0]);
        }
        if a[0] == c[0] {
            lemma_chars_before_irreflexive(a[0]);
        }
    } else if b[0] == c[0] {
        lemma_texts_before_transitive(a.drop_first(), b.drop_first(), c.drop_first());
    }
}

pub proof fn lemma_texts_before_total(a: Seq<Seq<char>>, b: Seq<Seq<char>>)
    requires
        a.len() == b.len(),
        a != b,
    ensures
        texts_before(a, b) || texts_before(b, a),
    decreases a.len(),
{
    if a.len() == 0 {
        assert(a =~= b);
    } else if a[0] != b[0] {
        lemma_chars_before_total(a[0], b[0]);
    } else {
        if a.drop_first() == b.drop_first() {
            assert(a =~= seq![a[0]] + a.drop_first());
            assert(b =~= seq![b[0]] + b.drop_first());
        }
        lemma_texts_before_total(a.drop_first(), b.drop_first());
    }
}

pub proof fn lemma_key_before_irreflexive(h: u64, t: Seq<Seq<char>>)
    ensures
        !key_before(h, t, h, t),
{
    lemma_texts_before_irreflexive(t);
}

pub proof fn lemma_key_before_transitive(
    ha: u64,
    ta: Seq<Seq<char>>,
    hb: u64,
    tb: Seq<Seq<char>>,
    hc: u64,
    tc: Seq<Seq<char>>,
)
    requires
        key_before(ha, ta, hb, tb),
        key_before(hb, tb, hc, tc),
    ensures
        key_before(ha, ta, hc, tc),
{
    if ha == hb && hb == hc {
        lemma_texts_before_transitive(ta, tb, tc);
    }
}

pub proof fn lemma_key_before_total(ha: u64, ta: Seq<Seq<char>>, hb: u64, tb: Seq<Seq<char>>)
    requires
        ta.len() == tb.len(),
        ha != hb || ta != tb,
    ensures
        key_before(ha, ta, hb, tb) || key_before(hb, tb, ha, ta),
{
    if ha == hb {
        lemma_texts_before_total(ta, tb);
    }
}

/// `texts_before` on two texts, spelled out.
pub proof fn lemma_texts_before_two(a0: Seq<char>, a1: Seq<char>, b0: Seq<char>, b1: Seq<char>)
    ensures
        texts_before(seq![a0, a1], seq![b0, b1]) == if a0 != b0 {
            chars_before(a0, b0)
        } else {
            chars_before(a1, b1)
        },
{
    reveal_with_fuel(texts_before, 3);
    assert(seq![a0, a1].drop_first() =~= seq![a1]);
    assert(seq![b0, b1].drop_first() =~= seq![b1]);
    assert(seq![a1].drop_first() =~= Seq::<Seq<char>>::empty());
    assert(seq![b1].drop_first() =~= Seq::<Seq<char>>::empty());
    lemma_chars_before_irreflexive(a1);
}

/// `texts_before` on three texts, spelled out.
pub proof fn lemma_texts_before_three(
    a0: Seq<char>,
    a1: Seq<char>,
    a2: Seq<char>,
    b0: Seq<char>,
    b1: Seq<char>,
    b2: Seq<char>,
)
    ensures
        texts_before(seq![a0, a1, a2], seq![b0, b1, b2]) == if a0 != b0 {
            chars_before(a0, b0)
        } else if a1 != b1 {
            chars_before(a1, b1)
        } else {
            chars_before(a2, b2)
        },
{
    assert(seq![a0, a1, a2].drop_first() =~= seq![a1, a2]);
    assert(seq![b0, b1, b2].drop_first() =~= seq![b1, b2]);
    lemma_texts_before_two(a1, a2, b1, b2);
}

/// Two sorted sequences that hold the same elements, each as often, are
/// equal.
pub proof fn lemma_sorted_equal<T: Ordered>(a: Seq<T::V>, b: Seq<T::V>)
    requires
        sorted_by::<T>(a),
        sorted_by::<T>(b),
        a.to_multiset() == b.to_multiset(),
    ensures
        a == b,
    decreases a.len(),
{
    broadcast use vstd::seq_lib::group_to_multiset_ensures;
    if a.len() == 0 {
        vstd::seq_lib::to_multiset_len(a);
        vstd::seq_lib::to_multiset_len(b);
        assert(b.len() == 0);
        assert(a =~= b);
    } else {
        vstd::seq_lib::to_multiset_len(a);
        vstd::seq_lib::to_multiset_len(b);
        assert(b.len() == a.len());
        assert(a.contains(a[0]));
        assert(a.to_multiset().count(a[0]) > 0);
        assert(b.contains(a[0]));
        let j = choose|j: int| 0 <= j < b.len() && b[j] == a[0];
        if j > 0 {
            assert(!T::before(b[j], b[0]));
        } else {
            T::lemma_before_irreflexive(a[0]);
        }
        assert(b.contains(b[0]));
        assert(b.to_multiset().count(b[0]) > 0);
        assert(a.contains(b[0]));
        let k = choose|k: int| 0 <= k < a.len() && a[k] == b[0];
        if k > 0 {
            assert(!T::before(a[k], a[0]));
        } else {
            T::lemma_before_irreflexive(b[0]);
        }
        if a[0] != b[0] {
            T::lemma_before_total(a[0], b[0]);
        }
        assert(a.remove(0) =~= a.drop_first());
        assert(b.remove(0) =~= b.drop_first());
        let da = a.drop_first();
        let db = b.drop_first();
        assert(sorted_by::<T>(da)) by {
            assert forall|i: int, j: int| 0 <= i < j < da.len() implies !T::before(#[trigger] da[j], #[trigger] da[i]) by {
                assert(da[i] == a[i + 1] && da[j] == a[j + 1]);
            }
        }
        assert(sorted_by::<T>(db)) by {
            assert forall|i: int, j: int| 0 <= i < j < db.len() implies !T::before(#[trigger] db[j], #[trigger] db[i]) by {
                assert(db[i] == b[i + 1] && db[j] == b[j + 1]);
            }
        }
        lemma_sorted_equal::<T>(da, db);
        assert forall|i: int| 0 <= i < a.len() implies a[i] == b[i] by {
            if i > 0 {
                assert(a[i] == da[i - 1] && b[i] == db[i - 1]);
            }
        }
        assert(a =~= b);
    }
}

/// The sorted arrangement is the only sorted sequence that holds the
/// elements of `s`, each as often: what sorting by `Ord` gives.
pub proof fn lemma_sort_views_unique<T: Ordered>(s: Seq<T::V>, t: Seq<T::V>)
    requires
        sorted_by::<T>(t),
        t.to_multiset() == s.to_multiset(),
    ensures
        t == sort_views::<T>(s),
{
    lemma_sort_views_sorted::<T>(s);
    lemma_sort_views_permutes::<T>(s);
    lemma_sorted_equal::<T>(t, sort_views::<T>(s));
}

/// Inserts `x` into `v` at its position.
pub fn insert_in_place<T: Ordered>(v: &mut Vec<T>, x: T)
    ensures
        final(v)@.len() == old(v)@.len() + 1,
        views(final(v)@) == insert_in_order::<T>(views(old(v)@), x@),
{
    let ghost s = views(v@);
    let mut i: usize = 0;
    while i < v.len() && !x.is_before(&v[i])
        invariant
            views(v@) == s,
            i <= v.len(),
            forall|j: int| 0 <= j < i ==> !T::before(x@, #[trigger] s[j]),
        decreases v.len() - i,
    {
        i = i + 1;
    }
    proof {
        lemma_insert_position_unique::<T>(s, x@, i as int);
    }
    v.insert(i, x);
    assert(views(v@) =~= s.insert(i as int, x@));
}

/// Sorts `v` into the order of its elements.
pub fn sort_in_place<T: Ordered>(v: &mut Vec<T>)
    ensures
        final(v)@.len() == old(v)@.len(),
        views(final(v)@) == sort_views::<T>(views(old(v)@)),
{
    let ghost orig = views(v@);
    let mut out: Vec<T> = Vec::new();
    assert(views(out@) =~= sort_views::<T>(orig.take(0)));
    assert(views(v@).skip(0) =~= views(v@));
    while v.len() > 0
        invariant
            orig.len() == out.len() + v.len(),
            views(out@) == sort_views::<T>(orig.take(out.len() as int)),
            views(v@) == orig.skip(out.len() as int),
        decreases v.len(),
    {
        let ghost k = out.len() as int;
        let ghost rest = v@;
        let x = v.remove(0);
        assert(views(rest)[0] == orig.skip(k)[0]);
        assert(orig[k] == x@);
        assert(orig.take(k + 1).drop_last() =~= orig.take(k));
        assert(orig.take(k + 1).last() == orig[k]);
        let ghost sorted_prefix = views(out@);
        insert_in_place(&mut out, x);
        assert(views(out@) == insert_in_order::<T>(sorted_prefix, orig[k]));
        assert(views(v@) =~= views(rest).drop_first());
        assert(views(v@) =~= orig.skip(k + 1));
    }
    assert(orig.take(orig.len() as int) =~= orig);
    *v = out;
}

} // verus!
