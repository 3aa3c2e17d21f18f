//! A merge sort of numbered positions: the order in which the segments of a split
//! image follow one another.

use vstd::prelude::*;
use vstd::relations::{sorted_by, total_ordering};
use vstd::seq_lib::{lemma_multiset_commutative, lemma_sorted_unique};

verus! {

broadcast use vstd::seq::group_seq_axioms;

/// A segment number with the position that it was found at.
pub type Key = (u64, usize);

/// Keys by number, and by position among equal numbers.
pub open spec fn key_order() -> spec_fn(Key, Key) -> bool {
    |a: Key, b: Key| a.0 < b.0 || (a.0 == b.0 && a.1 <= b.1)
}

/// The keys in order.
pub open spec fn in_order(keys: Seq<Key>) -> Seq<Key> {
    keys.sort_by(key_order())
}

proof fn key_order_is_total()
    ensures
        total_ordering(key_order()),
{
}

/// Sorting keeps every key, as often as it occurs, and puts none before a smaller
/// one.
pub proof fn in_order_sorts(keys: Seq<Key>)
    ensures
        in_order(keys).len() == keys.len(),
        in_order(keys).to_multiset() == keys.to_multiset(),
        sorted_by(in_order(keys), key_order()),
        forall|i: int| 0 <= i < keys.len() ==> keys.contains(#[trigger] in_order(keys)[i]),
        forall|i: int| 0 <= i < keys.len() ==> in_order(keys).contains(#[trigger] keys[i]),
        keys.no_duplicates() ==> in_order(keys).no_duplicates(),
{
    key_order_is_total();
    keys.lemma_sort_by_ensures(key_order());
    keys.to_multiset_ensures();
    in_order(keys).to_multiset_ensures();
    assert forall|i: int| 0 <= i < keys.len() implies keys.contains(
        #[trigger] in_order(keys)[i],
    ) by {
        assert(in_order(keys).contains(in_order(keys)[i]));
    }
    assert forall|i: int| 0 <= i < keys.len() implies in_order(keys).contains(
        #[trigger] keys[i],
    ) by {
        assert(keys.contains(keys[i]));
        assert(in_order(keys).to_multiset().count(keys[i]) > 0);
    }
    if keys.no_duplicates() {
        keys.lemma_multiset_has_no_duplicates();
        in_order(keys).lemma_multiset_has_no_duplicates_conv();
    }
}

fn not_after(a: Key, b: Key) -> (r: bool)
    ensures
        r == (key_order())(a, b),
{
    a.0 < b.0 || (a.0 == b.0 && a.1 <= b.1)
}

/// Merge two sorted runs.
fn merge(a: &Vec<Key>, b: &Vec<Key>) -> (r: Vec<Key>)
    requires
        sorted_by(a@, key_order()),
        sorted_by(b@, key_order()),
    ensures
        sorted_by(r@, key_order()),
        r@.to_multiset() == a@.to_multiset().add(b@.to_multiset()),
{
    broadcast use vstd::multiset::group_multiset_axioms;
    broadcast use vstd::seq_lib::group_to_multiset_ensures;

    let mut out: Vec<Key> = Vec::new();
    let mut i: usize = 0;
    let mut j: usize = 0;
    assert(a@.take(0) =~= Seq::<Key>::empty());
    assert(b@.take(0) =~= Seq::<Key>::empty());
    assert(out@.to_multiset() =~= a@.take(0).to_multiset().add(b@.take(0).to_multiset()));
    while i < a.len() || j < b.len()
        invariant
            i <= a.len(),
            j <= b.len(),
            sorted_by(a@, key_order()),
            sorted_by(b@, key_order()),
            sorted_by(out@, key_order()),
            forall|k: int, m: int|
                0 <= k < out@.len() && i <= m < a@.len() ==> #[trigger] (key_order())(
                    out@[k],
                    a@[m],
                ),
            forall|k: int, m: int|
                0 <= k < out@.len() && j <= m < b@.len() ==> #[trigger] (key_order())(
                    out@[k],
                    b@[m],
                ),
            out@.to_multiset() == a@.take(i as int).to_multiset().add(
                b@.take(j as int).to_multiset(),
            ),
        decreases a.len() - i + b.len() - j,
    {
        let ghost before = out@;
        let ghost left = a@.take(i as int);
        let ghost right = b@.take(j as int);
        if j >= b.len() || (i < a.len() && not_after(a[i], b[j])) {
            out.push(a[i]);
            proof {
                before.to_multiset_ensures();
                left.to_multiset_ensures();
                assert(a@.take(i + 1) =~= left.push(a@[i as int]));
                assert(before.push(a@[i as int]).to_multiset() =~= before.to_multiset().insert(
                    a@[i as int],
                ));
                assert(left.push(a@[i as int]).to_multiset() =~= left.to_multiset().insert(
                    a@[i as int],
                ));
                assert(left.to_multiset().insert(a@[i as int]).add(right.to_multiset())
                    =~= left.to_multiset().add(right.to_multiset()).insert(a@[i as int]));
                assert forall|k: int, m: int|
                    0 <= k < out@.len() && i + 1 <= m < a@.len() implies #[trigger] (key_order())(
                    out@[k],
                    a@[m],
                ) by {
                    assert((key_order())(a@[i as int], a@[m]));
                }
                assert forall|k: int, m: int|
                    0 <= k < out@.len() && j <= m < b@.len() implies #[trigger] (key_order())(
                    out@[k],
                    b@[m],
                ) by {
                    if j < m {
                        assert((key_order())(b@[j as int], b@[m]));
                    }
                }
            }
            i = i + 1;
        } else {
            out.push(b[j]);
            proof {
                before.to_multiset_ensures();
                right.to_multiset_ensures();
                assert(b@.take(j + 1) =~= right.push(b@[j as int]));
                assert(before.push(b@[j as int]).to_multiset() =~= before.to_multiset().insert(
                    b@[j as int],
                ));
                assert(right.push(b@[j as int]).to_multiset() =~= right.to_multiset().insert(
                    b@[j as int],
                ));
                assert(left.to_multiset().add(right.to_multiset().insert(b@[j as int]))
                    =~= left.to_multiset().add(right.to_multiset()).insert(b@[j as int]));
                assert forall|k: int, m: int|
                    0 <= k < out@.len() && j + 1 <= m < b@.len() implies #[trigger] (key_order())(
                    out@[k],
                    b@[m],
                ) by {
                    assert((key_order())(b@[j as int], b@[m]));
                }
                assert forall|k: int, m: int|
                    0 <= k < out@.len() && i <= m < a@.len() implies #[trigger] (key_order())(
                    out@[k],
                    a@[m],
                ) by {
                    if i < m {
                        assert((key_order())(a@[i as int], a@[m]));
                    }
                }
            }
            j = j + 1;
        }
    }
    assert(a@.take(a@.len() as int) =~= a@);
    assert(b@.take(b@.len() as int) =~= b@);
    out
}

/// Sort the keys of `v` from `lo` up to `hi`.
fn sort_range(v: &Vec<Key>, lo: usize, hi: usize) -> (r: Vec<Key>)
    requires
        lo <= hi <= v@.len(),
    ensures
        sorted_by(r@, key_order()),
        r@.to_multiset() == v@.subrange(lo as int, hi as int).to_multiset(),
    decreases hi - lo,
{
    let ghost whole = v@.subrange(lo as int, hi as int);
    if hi - lo <= 1 {
        let mut out: Vec<Key> = Vec::new();
        if lo < hi {
            out.push(v[lo]);
        }
        assert(out@ =~= whole);
        return out;
    }
    let mid: usize = lo + (hi - lo) / 2;
    let left: Vec<Key> = sort_range(v, lo, mid);
    let right: Vec<Key> = sort_range(v, mid, hi);
    proof {
        let first = v@.subrange(lo as int, mid as int);
        let second = v@.subrange(mid as int, hi as int);
        assert(whole =~= first + second);
        lemma_multiset_commutative(first, second);
    }
    merge(&left, &right)
}

/// Sort `keys`.
pub fn merge_sort(keys: &Vec<Key>) -> (r: Vec<Key>)
    ensures
        r@ == in_order(keys@),
{
    let out: Vec<Key> = sort_range(keys, 0, keys.len());
    proof {
        assert(keys@.subrange(0, keys@.len() as int) =~= keys@);
        key_order_is_total();
        keys@.lemma_sort_by_ensures(key_order());
        lemma_sorted_unique(out@, in_order(keys@), key_order());
    }
    out
}

} // verus!
