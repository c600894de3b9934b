//! Ranking counted entries: by count, largest first, then by name.

use vstd::prelude::*;

verus! {

/// `a` comes before `b` in the order of strings: character by character,
/// by code point, a proper prefix first.
pub open spec fn str_lt(a: Seq<char>, b: Seq<char>) -> bool
    decreases a.len(),
{
    if a.len() == 0 {
        b.len() > 0
    } else if b.len() == 0 {
        false
    } else if a[0] != b[0] {
        a[0] < b[0]
    } else {
        str_lt(a.drop_first(), b.drop_first())
    }
}

pub proof fn lemma_str_lt_irreflexive(a: Seq<char>)
    ensures
        !str_lt(a, a),
    decreases a.len(),
{
    if a.len() > 0 {
        lemma_str_lt_irreflexive(a.drop_first());
    }
}

pub proof fn lemma_str_lt_asymmetric(a: Seq<char>, b: Seq<char>)
    ensures
        str_lt(a, b) ==> !str_lt(b, a),
    decreases a.len(),
{
    if a.len() > 0 && b.len() > 0 && a[0] == b[0] {
        lemma_str_lt_asymmetric(a.drop_first(), b.drop_first());
    }
}

pub proof fn lemma_str_lt_transitive(a: Seq<char>, b: Seq<char>, c: Seq<char>)
    ensures
        str_lt(a, b) && str_lt(b, c) ==> str_lt(a, c),
    decreases a.len(),
{
    if a.len() > 0 && b.len() > 0 && c.len() > 0 && a[0] == b[0] && b[0] == c[0] {
        lemma_str_lt_transitive(a.drop_first(), b.drop_first(), c.drop_first());
    }
}

/// Whether `a` comes before `b` in the order of strings.
pub fn str_lt_exec(a: &[char], b: &[char]) -> (r: bool)
    ensures
        r == str_lt(a@, b@),
{
    let mut i: usize = 0;
    assert(a@.skip(0) =~= a@ && b@.skip(0) =~= b@);
    while i < a.len() && i < b.len()
        invariant
            i <= a@.len(),
            i <= b@.len(),
            str_lt(a@, b@) == str_lt(a@.skip(i as int), b@.skip(i as int)),
        decreases a.len() - i,
    {
        proof {
            assert(a@.skip(i as int)[0] == a@[i as int]);
            assert(b@.skip(i as int)[0] == b@[i as int]);
            assert(a@.skip(i as int).drop_first() =~= a@.skip(i + 1));
            assert(b@.skip(i as int).drop_first() =~= b@.skip(i + 1));
        }
        if a[i] != b[i] {
            return a[i] < b[i];
        }
        i = i + 1;
    }
    i == a.len() && i < b.len()
}

/// A counted entry to rank: its count, the names it is ordered by after
/// the count, and where it came from.
pub struct Ranked {
    pub count: usize,
    pub first: Vec<char>,
    pub second: Vec<char>,
    pub index: usize,
}

/// The mathematical content of a [`Ranked`] entry.
pub struct RankedV {
    pub count: nat,
    pub first: Seq<char>,
    pub second: Seq<char>,
    pub index: nat,
}

impl View for Ranked {
    type V = RankedV;

    open spec fn view(&self) -> RankedV {
        RankedV { count: self.count as nat, first: self.first@, second: self.second@, index: self.index as nat }
    }
}

/// `a` ranks before `b`: a larger count, or an equal count and names that
/// come first.
pub open spec fn ranks_before(a: RankedV, b: RankedV) -> bool {
    ||| a.count > b.count
    ||| a.count == b.count && str_lt(a.first, b.first)
    ||| a.count == b.count && a.first == b.first && str_lt(a.second, b.second)
}

proof fn lemma_ranks_before_order(a: RankedV, b: RankedV, c: RankedV)
    ensures
        ranks_before(a, b) ==> !ranks_before(b, a),
        ranks_before(a, b) && ranks_before(b, c) ==> ranks_before(a, c),
{
    lemma_str_lt_asymmetric(a.first, b.first);
    lemma_str_lt_asymmetric(a.second, b.second);
    lemma_str_lt_irreflexive(a.first);
    lemma_str_lt_irreflexive(b.first);
    lemma_str_lt_transitive(a.first, b.first, c.first);
    lemma_str_lt_transitive(a.second, b.second, c.second);
}

fn ranks_before_exec(a: &Ranked, b: &Ranked) -> (r: bool)
    ensures
        r == ranks_before(a@, b@),
{
    if a.count != b.count {
        return a.count > b.count;
    }
    if str_lt_exec(a.first.as_slice(), b.first.as_slice()) {
        return true;
    }
    if !crate::text::chars_eq(a.first.as_slice(), b.first.as_slice()) {
        return false;
    }
    str_lt_exec(a.second.as_slice(), b.second.as_slice())
}

pub open spec fn ranked_view(s: Seq<Ranked>) -> Seq<RankedV> {
    s.map_values(|r: Ranked| r@)
}

/// `s` is in ranking order: no entry ranks before one that precedes it.
pub open spec fn in_rank_order(s: Seq<RankedV>) -> bool {
    forall|i: int, j: int| 0 <= i < j < s.len() ==> !ranks_before(#[trigger] s[j], #[trigger] s[i])
}

/// `r` holds each entry of `v` once: every entry of `r` is the entry of `v`
/// its index names, and every index of `v` occurs in `r`.
pub open spec fn rearranges(r: Seq<RankedV>, v: Seq<RankedV>) -> bool {
    &&& r.len() == v.len()
    &&& forall|i: int| 0 <= i < r.len() ==> (#[trigger] r[i]).index < v.len() && r[i] == v[r[i].index as int]
    &&& forall|i: int, j: int| 0 <= i < j < r.len() ==> (#[trigger] r[i]).index != (#[trigger] r[j]).index
    &&& forall|k: int| 0 <= k < v.len() ==> #[trigger] index_present(r, k)
}

/// Some entry of `r` came from index `k`.
pub open spec fn index_present(r: Seq<RankedV>, k: int) -> bool {
    exists|i: int| 0 <= i < r.len() && (#[trigger] r[i]).index == k
}

fn copy_ranked(x: &Ranked) -> (r: Ranked)
    ensures
        r@ == x@,
{
    Ranked {
        count: x.count,
        first: crate::text::copy_chars(x.first.as_slice()),
        second: crate::text::copy_chars(x.second.as_slice()),
        index: x.index,
    }
}

/// The entries in ranking order; entries that rank alike keep their order.
/// Each entry's index must be its position.
pub fn rank(v: &Vec<Ranked>) -> (r: Vec<Ranked>)
    requires
        forall|i: int| 0 <= i < v@.len() ==> (#[trigger] v@[i]).index == i,
    ensures
        in_rank_order(ranked_view(r@)),
        rearranges(ranked_view(r@), ranked_view(v@)),
{
    let ghost vv = ranked_view(v@);
    let mut out: Vec<Ranked> = Vec::new();
    let mut i: usize = 0;
    while i < v.len()
        invariant
            i <= v@.len(),
            vv == ranked_view(v@),
            forall|q: int| 0 <= q < v@.len() ==> (#[trigger] v@[q]).index == q,
            out@.len() == i,
            in_rank_order(ranked_view(out@)),
            forall|q: int| 0 <= q < out@.len() ==> (#[trigger] out@[q]).index < i && out@[q]@ == vv[out@[q].index as int],
            forall|q: int, w: int| 0 <= q < w < out@.len() ==> (#[trigger] out@[q]).index != (#[trigger] out@[w]).index,
            forall|k: int| 0 <= k < i ==> #[trigger] index_present(ranked_view(out@), k),
        decreases v.len() - i,
    {
        let x = copy_ranked(&v[i]);
        let ghost ov = ranked_view(out@);
        // The first place whose entry `x` ranks before.
        let mut p: usize = 0;
        while p < out.len() && !ranks_before_exec(&x, &out[p])
            invariant
                p <= out@.len(),
                ov == ranked_view(out@),
                forall|q: int| 0 <= q < p ==> !ranks_before(x@, #[trigger] ov[q]),
            decreases out.len() - p,
        {
            p = p + 1;
        }
        let ghost old_out = out@;
        out.insert(p, x);
        proof {
            let nv = ranked_view(out@);
            assert forall|q: int| 0 <= q < nv.len() implies #[trigger] nv[q] == if q < p {
                ov[q]
            } else if q == p {
                x@
            } else {
                ov[q - 1]
            } by {
                if q < p {
                    assert(out@[q] == old_out[q]);
                } else if q > p {
                    assert(out@[q] == old_out[q - 1]);
                }
            }
            assert forall|q: int, w: int| 0 <= q < w < nv.len() implies !ranks_before(#[trigger] nv[w], #[trigger] nv[q]) by {
                if w < p {
                } else if w == p {
                    assert(!ranks_before(x@, ov[q]));
                } else if q == p {
                    lemma_ranks_before_order(x@, ov[p as int], ov[w - 1]);
                    lemma_ranks_before_order(ov[w - 1], x@, ov[p as int]);
                    if w - 1 > p {
                        assert(!ranks_before(ov[w - 1], ov[p as int]));
                    }
                    assert(p < ov.len());
                    assert(ranks_before(x@, ov[p as int]));
                } else if q < p {
                    assert(!ranks_before(ov[w - 1], ov[q]));
                } else {
                    assert(!ranks_before(ov[w - 1], ov[q - 1]));
                }
            }
            assert forall|k: int| 0 <= k < i + 1 implies #[trigger] index_present(nv, k) by {
                if k == i {
                    assert(nv[p as int].index == k);
                } else {
                    assert(index_present(ov, k));
                    let q = choose|q: int| 0 <= q < ov.len() && (#[trigger] ov[q]).index == k;
                    if q < p {
                        assert(nv[q].index == k);
                    } else {
                        assert(nv[q + 1].index == k);
                    }
                }
            }
            assert forall|q: int, w: int| 0 <= q < w < out@.len() implies (#[trigger] out@[q]).index != (#[trigger] out@[w]).index by {
                if q == p {
                    assert(out@[w].index == old_out[w - 1].index);
                } else if w == p {
                    assert(out@[q].index == old_out[q].index);
                } else {
                    let q0 = if q < p { q } else { q - 1 };
                    let w0 = if w < p { w } else { w - 1 };
                    assert(out@[q] == old_out[q0]);
                    assert(out@[w] == old_out[w0]);
                }
            }
            assert forall|q: int| 0 <= q < out@.len() implies (#[trigger] out@[q]).index < i + 1 && out@[q]@ == vv[out@[q].index as int] by {
                if q < p {
                    assert(out@[q] == old_out[q]);
                } else if q > p {
                    assert(out@[q] == old_out[q - 1]);
                }
            }
        }
        i = i + 1;
    }
    out
}

} // verus!
