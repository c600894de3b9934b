//! Stable ordering of sequences by a natural-number key, stated as buckets:
//! all elements with one key, in the order they came in, then the next key.

use vstd::prelude::*;

verus! {

/// The predicate "has key `k`".
pub open spec fn has_key<A>(key: spec_fn(A) -> nat, k: nat) -> spec_fn(A) -> bool {
    |x: A| key(x) == k
}

/// The elements of `s` whose key is `k`, in their order in `s`.
pub open spec fn bucket<A>(s: Seq<A>, key: spec_fn(A) -> nat, k: nat) -> Seq<A> {
    s.filter(has_key(key, k))
}

/// The elements of `s` whose key is below `hi`, by increasing key; elements
/// with equal keys keep their order in `s`.
pub open spec fn sort_asc_below<A>(s: Seq<A>, key: spec_fn(A) -> nat, hi: nat) -> Seq<A>
    decreases hi,
{
    if hi == 0 {
        Seq::empty()
    } else {
        sort_asc_below(s, key, (hi - 1) as nat) + bucket(s, key, (hi - 1) as nat)
    }
}

/// The elements of `s` whose key is in `[lo, hi)`, by decreasing key;
/// elements with equal keys keep their order in `s`.
pub open spec fn sort_desc_between<A>(s: Seq<A>, key: spec_fn(A) -> nat, lo: nat, hi: nat) -> Seq<A>
    decreases hi - lo,
{
    if lo >= hi {
        Seq::empty()
    } else {
        sort_desc_between(s, key, lo + 1, hi) + bucket(s, key, lo)
    }
}

/// One more than the largest key in `s` (0 when `s` is empty).
pub open spec fn key_bound<A>(s: Seq<A>, key: spec_fn(A) -> nat) -> nat
    decreases s.len(),
{
    if s.len() == 0 {
        0
    } else {
        let b = key_bound(s.drop_last(), key);
        if key(s.last()) + 1 > b {
            key(s.last()) + 1
        } else {
            b
        }
    }
}

/// Every key of `s` is below its key bound.
pub proof fn lemma_key_bound<A>(s: Seq<A>, key: spec_fn(A) -> nat)
    ensures
        forall|i: int| 0 <= i < s.len() ==> key(#[trigger] s[i]) < key_bound(s, key),
        s.len() > 0 ==> exists|i: int| 0 <= i < s.len() && key(#[trigger] s[i]) + 1 == key_bound(s, key),
    decreases s.len(),
{
    if s.len() > 0 {
        lemma_key_bound(s.drop_last(), key);
        assert forall|i: int| 0 <= i < s.len() implies key(#[trigger] s[i]) < key_bound(s, key) by {
            if i < s.len() - 1 {
                assert(s[i] == s.drop_last()[i]);
            }
        }
        if key(s.last()) + 1 <= key_bound(s.drop_last(), key) {
            let i = choose|i: int| 0 <= i < s.drop_last().len() && key(#[trigger] s.drop_last()[i]) + 1 == key_bound(s.drop_last(), key);
            assert(s[i] == s.drop_last()[i]);
        } else {
            assert(key(s[s.len() - 1]) + 1 == key_bound(s, key));
        }
    }
}

/// Taking one more element of `s` adds it to its bucket (and to no other).
pub proof fn lemma_bucket_step<A>(s: Seq<A>, key: spec_fn(A) -> nat, k: nat, i: int)
    requires
        0 <= i < s.len(),
    ensures
        bucket(s.take(i + 1), key, k) == if key(s[i]) == k {
            bucket(s.take(i), key, k).push(s[i])
        } else {
            bucket(s.take(i), key, k)
        },
{
    reveal_with_fuel(Seq::filter, 1);
    assert(s.take(i + 1).drop_last() =~= s.take(i));
}

/// A bucket that no element falls in is empty.
pub proof fn lemma_bucket_empty<A>(s: Seq<A>, key: spec_fn(A) -> nat, k: nat)
    requires
        forall|i: int| 0 <= i < s.len() ==> key(#[trigger] s[i]) != k,
    ensures
        bucket(s, key, k) == Seq::<A>::empty(),
    decreases s.len(),
{
    reveal_with_fuel(Seq::filter, 1);
    if s.len() > 0 {
        assert forall|i: int| 0 <= i < s.drop_last().len() implies key(#[trigger] s.drop_last()[i]) != k by {
            assert(s.drop_last()[i] == s[i]);
        }
        lemma_bucket_empty(s.drop_last(), key, k);
        assert(key(s[s.len() - 1]) != k);
    }
    assert(bucket(s, key, k) =~= Seq::<A>::empty());
}

/// Every element of a bucket has the bucket's key.
pub proof fn lemma_bucket_keys<A>(s: Seq<A>, key: spec_fn(A) -> nat, k: nat)
    ensures
        forall|i: int| 0 <= i < bucket(s, key, k).len() ==> key(#[trigger] bucket(s, key, k)[i]) == k,
{
    assert forall|i: int| 0 <= i < bucket(s, key, k).len() implies key(#[trigger] bucket(s, key, k)[i]) == k by {
        s.lemma_filter_pred(has_key(key, k), i);
    }
}

/// Keys that no element has add nothing to the ascending order.
pub proof fn lemma_sort_asc_skip<A>(s: Seq<A>, key: spec_fn(A) -> nat, a: nat, b: nat)
    requires
        a <= b,
        forall|i: int| 0 <= i < s.len() ==> !(a <= key(#[trigger] s[i]) < b),
    ensures
        sort_asc_below(s, key, b) == sort_asc_below(s, key, a),
    decreases b - a,
{
    if a < b {
        lemma_sort_asc_skip(s, key, a, (b - 1) as nat);
        lemma_bucket_empty(s, key, (b - 1) as nat);
        assert(sort_asc_below(s, key, b) =~= sort_asc_below(s, key, (b - 1) as nat));
    }
}

/// Every element of the ascending order has a key below the bound, and the
/// keys never decrease.
pub proof fn lemma_sort_asc_sorted<A>(s: Seq<A>, key: spec_fn(A) -> nat, hi: nat)
    ensures
        forall|i: int|
            0 <= i < sort_asc_below(s, key, hi).len() ==> key(#[trigger] sort_asc_below(s, key, hi)[i]) < hi,
        forall|i: int, j: int|
            0 <= i <= j < sort_asc_below(s, key, hi).len() ==> key(sort_asc_below(s, key, hi)[i])
                <= key(sort_asc_below(s, key, hi)[j]),
    decreases hi,
{
    if hi > 0 {
        let h1 = (hi - 1) as nat;
        lemma_sort_asc_sorted(s, key, h1);
        let pre = sort_asc_below(s, key, h1);
        let b = bucket(s, key, h1);
        let all = sort_asc_below(s, key, hi);
        assert(all == pre + b);
        lemma_bucket_keys(s, key, h1);
        assert forall|i: int| 0 <= i < all.len() implies key(#[trigger] all[i]) < hi by {
            if i >= pre.len() {
                assert(all[i] == b[i - pre.len()]);
            }
        }
        assert forall|i: int, j: int| 0 <= i <= j < all.len() implies key(all[i]) <= key(all[j]) by {
            if j >= pre.len() {
                assert(all[j] == b[j - pre.len()]);
                if i >= pre.len() {
                    assert(all[i] == b[i - pre.len()]);
                }
            }
        }
    }
}

/// Keys that no element has add nothing to the descending order.
pub proof fn lemma_sort_desc_skip<A>(s: Seq<A>, key: spec_fn(A) -> nat, a: nat, b: nat, hi: nat)
    requires
        a <= b <= hi,
        forall|i: int| 0 <= i < s.len() ==> !(a <= key(#[trigger] s[i]) < b),
    ensures
        sort_desc_between(s, key, a, hi) == sort_desc_between(s, key, b, hi),
    decreases b - a,
{
    if a < b {
        lemma_sort_desc_skip(s, key, a + 1, b, hi);
        lemma_bucket_empty(s, key, a);
        assert(sort_desc_between(s, key, a, hi) =~= sort_desc_between(s, key, a + 1, hi));
    }
}

/// Every element of a bucket is an element of the sequence.
pub proof fn lemma_bucket_members<A>(s: Seq<A>, key: spec_fn(A) -> nat, k: nat)
    ensures
        forall|i: int| 0 <= i < bucket(s, key, k).len() ==> s.contains(#[trigger] bucket(s, key, k)[i]),
{
    assert forall|i: int| 0 <= i < bucket(s, key, k).len() implies s.contains(#[trigger] bucket(s, key, k)[i]) by {
        let b = bucket(s, key, k);
        assert(b.contains(b[i]));
        s.lemma_filter_contains_rev(has_key(key, k), b[i]);
    }
}

/// Every element of the descending order is an element of the sequence.
pub proof fn lemma_sort_desc_members<A>(s: Seq<A>, key: spec_fn(A) -> nat, lo: nat, hi: nat)
    ensures
        forall|i: int|
            0 <= i < sort_desc_between(s, key, lo, hi).len() ==> s.contains(#[trigger] sort_desc_between(s, key, lo, hi)[i]),
    decreases hi - lo,
{
    if lo < hi {
        lemma_sort_desc_members(s, key, lo + 1, hi);
        lemma_bucket_members(s, key, lo);
        let pre = sort_desc_between(s, key, lo + 1, hi);
        let b = bucket(s, key, lo);
        assert forall|i: int| 0 <= i < sort_desc_between(s, key, lo, hi).len() implies s.contains(#[trigger] sort_desc_between(s, key, lo, hi)[i]) by {
            if i >= pre.len() {
                assert(sort_desc_between(s, key, lo, hi)[i] == b[i - pre.len()]);
            } else {
                assert(sort_desc_between(s, key, lo, hi)[i] == pre[i]);
            }
        }
    }
}

/// Every element of the ascending order is an element of the sequence.
pub proof fn lemma_sort_asc_members<A>(s: Seq<A>, key: spec_fn(A) -> nat, hi: nat)
    ensures
        forall|i: int|
            0 <= i < sort_asc_below(s, key, hi).len() ==> s.contains(#[trigger] sort_asc_below(s, key, hi)[i]),
    decreases hi,
{
    if hi > 0 {
        let h1 = (hi - 1) as nat;
        lemma_sort_asc_members(s, key, h1);
        lemma_bucket_members(s, key, h1);
        let pre = sort_asc_below(s, key, h1);
        let b = bucket(s, key, h1);
        assert forall|i: int| 0 <= i < sort_asc_below(s, key, hi).len() implies s.contains(#[trigger] sort_asc_below(s, key, hi)[i]) by {
            if i >= pre.len() {
                assert(sort_asc_below(s, key, hi)[i] == b[i - pre.len()]);
            } else {
                assert(sort_asc_below(s, key, hi)[i] == pre[i]);
            }
        }
    }
}

/// With keys that differ pairwise, a bucket holds at most one element.
pub proof fn lemma_bucket_at_most_one<A>(s: Seq<A>, key: spec_fn(A) -> nat, k: nat)
    requires
        forall|a: int, b: int| 0 <= a < b < s.len() ==> key(#[trigger] s[a]) != key(#[trigger] s[b]),
    ensures
        bucket(s, key, k).len() <= 1,
    decreases s.len(),
{
    reveal_with_fuel(Seq::filter, 1);
    if s.len() > 0 {
        let d = s.drop_last();
        assert forall|a: int, b: int| 0 <= a < b < d.len() implies key(#[trigger] d[a]) != key(#[trigger] d[b]) by {
            assert(d[a] == s[a] && d[b] == s[b]);
        }
        lemma_bucket_at_most_one(d, key, k);
        if key(s.last()) == k {
            assert forall|i: int| 0 <= i < d.len() implies key(#[trigger] d[i]) != k by {
                assert(d[i] == s[i]);
                assert(s.last() == s[s.len() - 1]);
            }
            lemma_bucket_empty(d, key, k);
        }
    }
}

/// Every element whose key is below `hi` appears in the sorted sequence.
pub proof fn lemma_sort_asc_complete<A>(s: Seq<A>, key: spec_fn(A) -> nat, hi: nat)
    ensures
        forall|i: int| 0 <= i < s.len() && key(s[i]) < hi ==> sort_asc_below(s, key, hi).contains(#[trigger] s[i]),
    decreases hi,
{
    if hi > 0 {
        let h1 = (hi - 1) as nat;
        lemma_sort_asc_complete(s, key, h1);
        assert forall|i: int| 0 <= i < s.len() && key(s[i]) < hi implies sort_asc_below(s, key, hi).contains(#[trigger] s[i]) by {
            let lo = sort_asc_below(s, key, h1);
            let b = bucket(s, key, h1);
            assert(sort_asc_below(s, key, hi) == lo + b);
            if key(s[i]) < h1 {
                let w = choose|w: int| 0 <= w < lo.len() && lo[w] == s[i];
                assert((lo + b)[w] == s[i]);
            } else {
                s.lemma_filter_contains(has_key(key, h1), i);
                let w = choose|w: int| 0 <= w < b.len() && b[w] == s[i];
                assert((lo + b)[lo.len() + w] == s[i]);
            }
        }
    }
}

/// With keys that differ pairwise, the sorted sequence has strictly increasing keys.
pub proof fn lemma_sort_asc_strict<A>(s: Seq<A>, key: spec_fn(A) -> nat, hi: nat)
    requires
        forall|a: int, b: int| 0 <= a < b < s.len() ==> key(#[trigger] s[a]) != key(#[trigger] s[b]),
    ensures
        forall|i: int, j: int|
            0 <= i < j < sort_asc_below(s, key, hi).len() ==> key(#[trigger] sort_asc_below(s, key, hi)[i])
                < key(#[trigger] sort_asc_below(s, key, hi)[j]),
    decreases hi,
{
    if hi > 0 {
        let h1 = (hi - 1) as nat;
        lemma_sort_asc_strict(s, key, h1);
        lemma_sort_asc_sorted(s, key, h1);
        lemma_bucket_at_most_one(s, key, h1);
        lemma_bucket_keys(s, key, h1);
        let lo = sort_asc_below(s, key, h1);
        let b = bucket(s, key, h1);
        let t = sort_asc_below(s, key, hi);
        assert(t == lo + b);
        assert forall|i: int, j: int| 0 <= i < j < t.len() implies key(#[trigger] t[i]) < key(#[trigger] t[j]) by {
            if j < lo.len() {
                assert(t[i] == lo[i] && t[j] == lo[j]);
            } else {
                assert(i < lo.len());
                assert(t[i] == lo[i]);
                assert(t[j] == b[j - lo.len()]);
            }
        }
    }
}

/// The sorted sequence by decreasing key has its keys in `[lo, hi)`, in
/// non-increasing order, and holds every element whose key is in `[lo, hi)`.
pub proof fn lemma_sort_desc_shape<A>(s: Seq<A>, key: spec_fn(A) -> nat, lo: nat, hi: nat)
    ensures
        forall|i: int|
            0 <= i < sort_desc_between(s, key, lo, hi).len() ==> lo <= key(#[trigger] sort_desc_between(s, key, lo, hi)[i])
                < hi,
        forall|i: int, j: int|
            0 <= i <= j < sort_desc_between(s, key, lo, hi).len() ==> key(
                #[trigger] sort_desc_between(s, key, lo, hi)[i],
            ) >= key(#[trigger] sort_desc_between(s, key, lo, hi)[j]),
        forall|i: int|
            0 <= i < s.len() && lo <= key(s[i]) < hi ==> sort_desc_between(s, key, lo, hi).contains(#[trigger] s[i]),
    decreases hi - lo,
{
    if lo < hi {
        let l1 = (lo + 1) as nat;
        lemma_sort_desc_shape(s, key, l1, hi);
        lemma_bucket_keys(s, key, lo);
        let up = sort_desc_between(s, key, l1, hi);
        let b = bucket(s, key, lo);
        let t = sort_desc_between(s, key, lo, hi);
        assert(t == up + b);
        assert forall|i: int| 0 <= i < t.len() implies lo <= key(#[trigger] t[i]) < hi by {
            if i < up.len() {
                assert(t[i] == up[i]);
            } else {
                assert(t[i] == b[i - up.len()]);
            }
        }
        assert forall|i: int, j: int| 0 <= i <= j < t.len() implies key(#[trigger] t[i]) >= key(#[trigger] t[j]) by {
            if j < up.len() {
                assert(t[i] == up[i] && t[j] == up[j]);
            } else if i < up.len() {
                assert(t[i] == up[i]);
                assert(t[j] == b[j - up.len()]);
            } else {
                assert(t[i] == b[i - up.len()]);
                assert(t[j] == b[j - up.len()]);
            }
        }
        assert forall|i: int| 0 <= i < s.len() && lo <= key(s[i]) < hi implies t.contains(#[trigger] s[i]) by {
            if key(s[i]) > lo {
                let w = choose|w: int| 0 <= w < up.len() && up[w] == s[i];
                assert(t[w] == s[i]);
            } else {
                s.lemma_filter_contains(has_key(key, lo), i);
                let w = choose|w: int| 0 <= w < b.len() && b[w] == s[i];
                assert(t[up.len() + w] == s[i]);
            }
        }
    }
}

/// With keys that differ pairwise, the sequence sorted by decreasing key has
/// strictly decreasing keys.
pub proof fn lemma_sort_desc_strict<A>(s: Seq<A>, key: spec_fn(A) -> nat, lo: nat, hi: nat)
    requires
        forall|a: int, b: int| 0 <= a < b < s.len() ==> key(#[trigger] s[a]) != key(#[trigger] s[b]),
    ensures
        forall|i: int, j: int|
            0 <= i < j < sort_desc_between(s, key, lo, hi).len() ==> key(#[trigger] sort_desc_between(s, key, lo, hi)[i])
                > key(#[trigger] sort_desc_between(s, key, lo, hi)[j]),
    decreases hi - lo,
{
    if lo < hi {
        let l1 = (lo + 1) as nat;
        lemma_sort_desc_strict(s, key, l1, hi);
        lemma_sort_desc_shape(s, key, l1, hi);
        lemma_bucket_at_most_one(s, key, lo);
        lemma_bucket_keys(s, key, lo);
        let up = sort_desc_between(s, key, l1, hi);
        let b = bucket(s, key, lo);
        let t = sort_desc_between(s, key, lo, hi);
        assert(t == up + b);
        assert forall|i: int, j: int| 0 <= i < j < t.len() implies key(#[trigger] t[i]) > key(#[trigger] t[j]) by {
            if j < up.len() {
                assert(t[i] == up[i] && t[j] == up[j]);
            } else {
                assert(i < up.len());
                assert(t[i] == up[i]);
                assert(t[j] == b[j - up.len()]);
            }
        }
    }
}

} // verus!
