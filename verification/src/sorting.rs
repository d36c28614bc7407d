//! Insertion order: the facts every sort of the library rests on.
//!
//! Each list the library sorts is specified as an insertion sort by some
//! comparison: an element goes after the last one that sorts before or with
//! it. Here that shape is stated once, for any comparison, and proved to give
//! an ordered list with the same elements whenever the comparison is a total
//! preorder.

use vstd::prelude::*;

use crate::discovery::{lemma_seq_le_total, lemma_seq_le_trans, seq_le};

verus! {

broadcast use vstd::seq_lib::group_to_multiset_ensures;

/// `s` with `x` placed after the last element that sorts before or with it.
pub open spec fn insert_by<A>(s: Seq<A>, x: A, le: spec_fn(A, A) -> bool) -> Seq<A>
    decreases s.len(),
{
    if s.len() == 0 {
        seq![x]
    } else if le(s.last(), x) {
        s.push(x)
    } else {
        insert_by(s.drop_last(), x, le).push(s.last())
    }
}

/// `s` sorted by `le`, inserting one element after another.
pub open spec fn insertion_sort<A>(s: Seq<A>, le: spec_fn(A, A) -> bool) -> Seq<A>
    decreases s.len(),
{
    if s.len() == 0 {
        s
    } else {
        insert_by(insertion_sort(s.drop_last(), le), s.last(), le)
    }
}

/// `le` relates any two values one way or the other, and is transitive.
pub open spec fn total_preorder<A>(le: spec_fn(A, A) -> bool) -> bool {
    &&& forall|a: A, b: A| #[trigger] le(a, b) || le(b, a)
    &&& forall|a: A, b: A, c: A| #[trigger] le(a, b) && #[trigger] le(b, c) ==> le(a, c)
}

/// Each element sorts before or with every later one.
pub open spec fn ordered_by<A>(s: Seq<A>, le: spec_fn(A, A) -> bool) -> bool {
    forall|i: int, j: int| 0 <= i < j < s.len() ==> le(#[trigger] s[i], #[trigger] s[j])
}

proof fn lemma_insert_by_multiset<A>(s: Seq<A>, x: A, le: spec_fn(A, A) -> bool)
    ensures
        insert_by(s, x, le).to_multiset() =~= s.to_multiset().insert(x),
    decreases s.len(),
{
    if s.len() == 0 {
        assert(seq![x] =~= s.push(x));
    } else if le(s.last(), x) {
    } else {
        let t = s.drop_last();
        lemma_insert_by_multiset(t, x, le);
        assert(s =~= t.push(s.last()));
    }
}

proof fn lemma_insert_by_ordered<A>(s: Seq<A>, x: A, le: spec_fn(A, A) -> bool)
    requires
        total_preorder(le),
        ordered_by(s, le),
    ensures
        ordered_by(insert_by(s, x, le), le),
    decreases s.len(),
{
    if s.len() == 0 {
    } else if le(s.last(), x) {
        let r = s.push(x);
        assert forall|i: int, j: int| 0 <= i < j < r.len() implies le(#[trigger] r[i], #[trigger] r[j]) by {
            if j == s.len() && i < s.len() - 1 {
                assert(le(s[i], s[s.len() - 1]));
            }
        }
    } else {
        let t = s.drop_last();
        let last = s.last();
        assert(ordered_by(t, le)) by {
            assert forall|i: int, j: int| 0 <= i < j < t.len() implies le(#[trigger] t[i], #[trigger] t[j]) by {
                assert(s[i] == t[i] && s[j] == t[j]);
            }
        }
        lemma_insert_by_ordered(t, x, le);
        lemma_insert_by_multiset(t, x, le);
        let it = insert_by(t, x, le);
        let r = it.push(last);
        assert(le(x, last) || le(last, x));
        assert forall|i: int, j: int| 0 <= i < j < r.len() implies le(#[trigger] r[i], #[trigger] r[j]) by {
            if j == it.len() {
                let e = it[i];
                assert(it.to_multiset().count(e) > 0);
                if e != x {
                    assert(t.to_multiset().count(e) > 0);
                    let k = choose|k: int| 0 <= k < t.len() && t[k] == e;
                    assert(s[k] == e);
                    assert(le(s[k], s[s.len() - 1]));
                }
            }
        }
    }
}

/// Sorting by a total preorder gives a list ordered by it that holds the same
/// elements, each as often as before.
pub proof fn lemma_insertion_sort<A>(s: Seq<A>, le: spec_fn(A, A) -> bool)
    requires
        total_preorder(le),
    ensures
        ordered_by(insertion_sort(s, le), le),
        insertion_sort(s, le).to_multiset() =~= s.to_multiset(),
    decreases s.len(),
{
    if s.len() > 0 {
        let t = s.drop_last();
        lemma_insertion_sort(t, le);
        lemma_insert_by_ordered(insertion_sort(t, le), s.last(), le);
        lemma_insert_by_multiset(insertion_sort(t, le), s.last(), le);
        assert(s =~= t.push(s.last()));
    }
}

/// Compares values by a key of strings, in code point order.
pub open spec fn by_key<A>(key: spec_fn(A) -> Seq<char>) -> spec_fn(A, A) -> bool {
    |a: A, b: A| seq_le(key(a), key(b))
}

/// Ordering by a key of strings in code point order is a total preorder.
pub proof fn lemma_key_order_total<A>(key: spec_fn(A) -> Seq<char>)
    ensures
        total_preorder(by_key(key)),
{
    let le = by_key(key);
    assert forall|a: A, b: A| #[trigger] le(a, b) || le(b, a) by {
        lemma_seq_le_total(key(a));
    }
    assert forall|a: A, b: A, c: A| #[trigger] le(a, b) && #[trigger] le(b, c) implies le(a, c) by {
        lemma_seq_le_trans(key(a), key(b), key(c));
    }
}

/// Reordering a list whose elements have pairwise different keys keeps the keys
/// pairwise different.
pub proof fn lemma_permutation_keeps_distinct_keys<A, K>(s: Seq<A>, t: Seq<A>, key: spec_fn(A) -> K)
    requires
        s.to_multiset() == t.to_multiset(),
        forall|i: int, j: int| 0 <= i < j < s.len() ==> key(#[trigger] s[i]) != key(#[trigger] s[j]),
    ensures
        forall|i: int, j: int| 0 <= i < j < t.len() ==> key(#[trigger] t[i]) != key(#[trigger] t[j]),
{
    assert(s.no_duplicates()) by {
        assert forall|i: int, j: int| 0 <= i < s.len() && 0 <= j < s.len() && i != j implies s[i] != s[j] by {
            if i < j {
                assert(key(s[i]) != key(s[j]));
            } else {
                assert(key(s[j]) != key(s[i]));
            }
        }
    }
    s.lemma_multiset_has_no_duplicates();
    t.lemma_multiset_has_no_duplicates_conv();
    assert forall|i: int, j: int| 0 <= i < j < t.len() implies key(#[trigger] t[i]) != key(#[trigger] t[j]) by {
        let x = t[i];
        let y = t[j];
        assert(t.contains(x) && t.contains(y));
        assert(s.to_multiset().count(x) > 0 && s.to_multiset().count(y) > 0);
        let p = choose|p: int| 0 <= p < s.len() && s[p] == x;
        let q = choose|q: int| 0 <= q < s.len() && s[q] == y;
        assert(x != y);
        if p < q {
            assert(key(s[p]) != key(s[q]));
        } else {
            assert(key(s[q]) != key(s[p]));
        }
    }
}

} // verus!
