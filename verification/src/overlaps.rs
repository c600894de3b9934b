//! Removing overlapping lints: of lints that share characters, the report
//! keeps one.

use vstd::prelude::*;

use crate::lint::{Lint, LintV};
use crate::lint_group::named_lints_view;
use crate::lint::spec_spans_overlap;
use crate::sort::{bucket, lemma_bucket_step, lemma_sort_asc_members, lemma_sort_asc_skip, sort_asc_below};

verus! {

/// Where a lint stands (its rule and its place among that rule's lints), and its span.
pub struct PlacedV {
    pub rule: int,
    pub index: int,
    pub start: int,
    pub end: int,
}

#[derive(Clone, Copy)]
struct Placed {
    rule: usize,
    index: usize,
    start: usize,
    end: usize,
}

impl View for Placed {
    type V = PlacedV;

    closed spec fn view(&self) -> PlacedV {
        PlacedV { rule: self.rule as int, index: self.index as int, start: self.start as int, end: self.end as int }
    }
}

spec fn placed_view(s: Seq<Placed>) -> Seq<PlacedV> {
    s.map_values(|p: Placed| p@)
}

/// The lints of rule `i`, placed.
pub open spec fn placed_in_rule(ls: Seq<LintV>, i: int) -> Seq<PlacedV> {
    Seq::new(ls.len(), |j: int| PlacedV { rule: i, index: j, start: ls[j].start, end: ls[j].end })
}

/// The lints of rules `i..`, placed, rule after rule.
pub open spec fn placed_from(named: Seq<(Seq<char>, Seq<LintV>)>, i: int) -> Seq<PlacedV>
    decreases named.len() - i,
{
    if i < 0 || i >= named.len() {
        Seq::empty()
    } else {
        placed_in_rule(named[i].1, i) + placed_from(named, i + 1)
    }
}

/// The largest start or end among `ps` (0 when there is none).
pub open spec fn span_top(ps: Seq<PlacedV>) -> int
    decreases ps.len(),
{
    if ps.len() == 0 {
        0
    } else {
        let t = span_top(ps.drop_last());
        let p = ps.last();
        let u = if p.start > p.end { p.start } else { p.end };
        if u > t { u } else { t }
    }
}

/// Ordering by start.
pub open spec fn by_start() -> spec_fn(PlacedV) -> nat {
    |p: PlacedV| p.start as nat
}

/// Ordering by decreasing end, below the top `m`.
pub open spec fn by_end_desc(m: int) -> spec_fn(PlacedV) -> nat {
    |p: PlacedV| (m - p.end) as nat
}

/// The lints by start; of lints with the same start, the longer first;
/// otherwise in the order of their rules and their places.
pub open spec fn overlap_order(ps: Seq<PlacedV>) -> Seq<PlacedV> {
    let m = span_top(ps);
    sort_asc_below(sort_asc_below(ps, by_end_desc(m), (m + 1) as nat), by_start(), (m + 1) as nat)
}

/// Going through `s` in order: a lint that starts before `cur` (the end of
/// the last lint kept) is dropped, any other is kept.
pub open spec fn greedy(s: Seq<PlacedV>, cur: int) -> Seq<PlacedV>
    decreases s.len(),
{
    if s.len() == 0 {
        Seq::empty()
    } else if s[0].start < cur {
        greedy(s.drop_first(), cur)
    } else {
        seq![s[0]] + greedy(s.drop_first(), s[0].end)
    }
}

/// The lints that survive overlap removal.
pub open spec fn kept_lints(named: Seq<(Seq<char>, Seq<LintV>)>) -> Seq<PlacedV> {
    greedy(overlap_order(placed_from(named, 0)), 0)
}

/// The lint at place `j` of rule `i` is among `kept`.
pub open spec fn is_kept(kept: Seq<PlacedV>, i: int, j: int) -> bool {
    exists|q: int| 0 <= q < kept.len() && (#[trigger] kept[q]).rule == i && kept[q].index == j
}

/// The lints of rule `i` that are among `kept`, in their order.
pub open spec fn keep_lints(ls: Seq<LintV>, i: int, kept: Seq<PlacedV>) -> Seq<LintV>
    decreases ls.len(),
{
    if ls.len() == 0 {
        Seq::empty()
    } else if is_kept(kept, i, ls.len() - 1) {
        keep_lints(ls.drop_last(), i, kept).push(ls.last())
    } else {
        keep_lints(ls.drop_last(), i, kept)
    }
}

/// The lints of each rule with overlaps removed: all lints are taken by
/// start (of equal starts the longer first, then by rule and place), and a
/// lint is dropped when it starts before the end of the last lint kept.
pub open spec fn spec_remove_overlaps(named: Seq<(Seq<char>, Seq<LintV>)>) -> Seq<(Seq<char>, Seq<LintV>)> {
    Seq::new(named.len(), |i: int| (named[i].0, keep_lints(named[i].1, i, kept_lints(named))))
}

/// The key an item is sorted by: its start, or how far its end lies below `m`.
spec fn placed_key(start_first: bool, m: int) -> spec_fn(PlacedV) -> nat {
    if start_first {
        by_start()
    } else {
        by_end_desc(m)
    }
}

/// `items` by increasing key (start, or distance of the end below `m`),
/// items of equal key keeping their order.
fn sort_placed(items: &Vec<Placed>, start_first: bool, m: usize) -> (r: Vec<Placed>)
    requires
        forall|i: int| 0 <= i < items@.len() ==> (#[trigger] items@[i]).start <= m && items@[i].end <= m,
    ensures
        placed_view(r@) == sort_asc_below(placed_view(items@), placed_key(start_first, m as int), (m + 1) as nat),
        forall|i: int| 0 <= i < r@.len() ==> (#[trigger] r@[i]).start <= m && r@[i].end <= m,
{
    let ghost v = placed_view(items@);
    let ghost key = placed_key(start_first, m as int);
    let bound: u128 = m as u128 + 1;
    let mut out: Vec<Placed> = Vec::new();
    let mut lo: u128 = 0;
    assert forall|i: int| 0 <= i < v.len() implies key(#[trigger] v[i]) < bound by {
        assert(v[i] == items@[i]@);
    }
    while lo < bound
        invariant
            lo <= bound,
            bound == m + 1,
            v == placed_view(items@),
            key == placed_key(start_first, m as int),
            forall|i: int| 0 <= i < items@.len() ==> (#[trigger] items@[i]).start <= m && items@[i].end <= m,
            forall|i: int| 0 <= i < v.len() ==> key(#[trigger] v[i]) < bound,
            placed_view(out@) == sort_asc_below(v, key, lo as nat),
            forall|i: int| 0 <= i < out@.len() ==> (#[trigger] out@[i]).start <= m && out@[i].end <= m,
        decreases bound - lo,
    {
        // The smallest key not yet placed.
        let mut best: u128 = bound;
        let mut i: usize = 0;
        while i < items.len()
            invariant
                i <= items@.len(),
                lo < bound,
                best <= bound,
                bound == m + 1,
                v == placed_view(items@),
                key == placed_key(start_first, m as int),
                forall|j: int| 0 <= j < items@.len() ==> (#[trigger] items@[j]).start <= m && items@[j].end <= m,
                best < bound ==> lo <= best && exists|j: int| 0 <= j < i && key(#[trigger] v[j]) == best,
                forall|j: int| 0 <= j < i && key(#[trigger] v[j]) >= lo ==> key(v[j]) >= best,
            decreases items.len() - i,
        {
            let k: u128 = if start_first {
                items[i].start as u128
            } else {
                (m - items[i].end) as u128
            };
            assert(v[i as int] == items@[i as int]@);
            assert(k == key(v[i as int]));
            if k >= lo && k < best {
                best = k;
            }
            i = i + 1;
        }
        proof {
            lemma_sort_asc_skip(v, key, lo as nat, best as nat);
        }
        if best < bound {
            let mut j: usize = 0;
            let ghost base = placed_view(out@);
            while j < items.len()
                invariant
                    j <= items@.len(),
                    v == placed_view(items@),
                    key == placed_key(start_first, m as int),
                    best < bound,
                    bound == m + 1,
                    forall|i: int| 0 <= i < items@.len() ==> (#[trigger] items@[i]).start <= m && items@[i].end <= m,
                    forall|i: int| 0 <= i < out@.len() ==> (#[trigger] out@[i]).start <= m && out@[i].end <= m,
                    placed_view(out@) == base + bucket(v.take(j as int), key, best as nat),
                decreases items.len() - j,
            {
                proof {
                    lemma_bucket_step(v, key, best as nat, j as int);
                }
                let k: u128 = if start_first {
                    items[j].start as u128
                } else {
                    (m - items[j].end) as u128
                };
                assert(v[j as int] == items@[j as int]@);
                if k == best {
                    let c = items[j];
                    let ghost before = out@;
                    out.push(c);
                    assert(placed_view(out@) =~= placed_view(before).push(c@));
                }
                j = j + 1;
            }
            assert(v.take(items@.len() as int) =~= v);
            assert(sort_asc_below(v, key, (best + 1) as nat) == sort_asc_below(v, key, best as nat) + bucket(
                v,
                key,
                best as nat,
            ));
            lo = best + 1;
        } else {
            lo = bound;
        }
    }
    out
}

/// The lints of `named`, placed, rule after rule.
fn flatten(named: &Vec<(String, Vec<Lint>)>) -> (r: Vec<Placed>)
    ensures
        placed_view(r@) == placed_from(named_lints_view(named@), 0),
{
    let ghost nv = named_lints_view(named@);
    let mut out: Vec<Placed> = Vec::new();
    let mut i: usize = 0;
    assert(placed_view(out@) + placed_from(nv, 0) =~= placed_from(nv, 0));
    while i < named.len()
        invariant
            i <= named@.len(),
            nv == named_lints_view(named@),
            placed_view(out@) + placed_from(nv, i as int) == placed_from(nv, 0),
        decreases named.len() - i,
    {
        let lints = &named[i].1;
        let ghost ls = nv[i as int].1;
        let ghost here = placed_in_rule(ls, i as int);
        let ghost base = placed_view(out@);
        assert(ls == crate::lint::lints_view(lints@));
        let mut j: usize = 0;
        while j < lints.len()
            invariant
                j <= lints@.len(),
                ls == crate::lint::lints_view(lints@),
                here == placed_in_rule(ls, i as int),
                placed_view(out@) == base + here.take(j as int),
            decreases lints.len() - j,
        {
            let p = Placed { rule: i, index: j, start: lints[j].span.start, end: lints[j].span.end };
            let ghost before = placed_view(out@);
            out.push(p);
            assert(placed_view(out@) =~= before.push(p@));
            assert(here.take(j + 1) =~= here.take(j as int).push(here[j as int]));
            assert(ls[j as int] == lints@[j as int]@);
            j = j + 1;
        }
        assert(here.take(lints@.len() as int) =~= here);
        assert(placed_from(nv, i as int) == here + placed_from(nv, i + 1));
        assert(placed_view(out@) + placed_from(nv, i + 1) =~= base + placed_from(nv, i as int));
        i = i + 1;
    }
    assert(placed_view(out@) + Seq::<PlacedV>::empty() =~= placed_view(out@));
    out
}

/// Whether the lint at place `j` of rule `i` is among `kept`.
fn is_kept_exec(kept: &Vec<Placed>, i: usize, j: usize) -> (r: bool)
    ensures
        r == is_kept(placed_view(kept@), i as int, j as int),
{
    let ghost kv = placed_view(kept@);
    let mut q: usize = 0;
    while q < kept.len()
        invariant
            q <= kept@.len(),
            kv == placed_view(kept@),
            forall|x: int| 0 <= x < q ==> !((#[trigger] kv[x]).rule == i && kv[x].index == j),
        decreases kept.len() - q,
    {
        assert(kv[q as int] == kept@[q as int]@);
        if kept[q].rule == i && kept[q].index == j {
            return true;
        }
        q = q + 1;
    }
    false
}

/// Remove overlapping lints: all lints are taken by start (of equal starts,
/// the longer first, then by rule and place), and a lint is dropped when it
/// starts before the end of the last lint kept. Each rule keeps its place
/// and the order of its remaining lints.
pub fn remove_overlaps(named: &Vec<(String, Vec<Lint>)>) -> (r: Vec<(String, Vec<Lint>)>)
    ensures
        named_lints_view(r@) == spec_remove_overlaps(named_lints_view(named@)),
{
    let ghost nv = named_lints_view(named@);
    let flat = flatten(named);
    let ghost ps = placed_view(flat@);
    // The largest start or end.
    let mut m: usize = 0;
    let mut k: usize = 0;
    assert(ps.take(0) =~= Seq::<PlacedV>::empty());
    while k < flat.len()
        invariant
            k <= flat@.len(),
            ps == placed_view(flat@),
            m == span_top(ps.take(k as int)),
            forall|x: int| 0 <= x < k ==> (#[trigger] flat@[x]).start <= m && flat@[x].end <= m,
        decreases flat.len() - k,
    {
        assert(ps.take(k + 1).drop_last() =~= ps.take(k as int));
        assert(ps.take(k + 1).last() == flat@[k as int]@);
        let p = flat[k];
        let u = if p.start > p.end { p.start } else { p.end };
        if u > m {
            m = u;
        }
        k = k + 1;
    }
    assert(ps.take(flat@.len() as int) =~= ps);
    let by_end = sort_placed(&flat, false, m);
    let ordered = sort_placed(&by_end, true, m);
    let ghost order = placed_view(ordered@);
    assert(order == overlap_order(ps));
    // Keep each lint that starts at or after the end of the last one kept.
    let mut kept: Vec<Placed> = Vec::new();
    let mut cur: usize = 0;
    let mut q: usize = 0;
    assert(order.skip(0) =~= order);
    assert(placed_view(kept@) + greedy(order, 0) =~= greedy(order, 0));
    while q < ordered.len()
        invariant
            q <= ordered@.len(),
            order == placed_view(ordered@),
            placed_view(kept@) + greedy(order.skip(q as int), cur as int) == greedy(order, 0),
        decreases ordered.len() - q,
    {
        let p = ordered[q];
        let ghost rest = order.skip(q as int);
        assert(rest[0] == p@);
        assert(rest.drop_first() =~= order.skip(q + 1));
        if p.start >= cur {
            let ghost before = placed_view(kept@);
            kept.push(p);
            assert(placed_view(kept@) =~= before.push(p@));
            assert(before + (seq![p@] + greedy(order.skip(q + 1), p.end as int)) =~= placed_view(kept@) + greedy(
                order.skip(q + 1),
                p.end as int,
            ));
            cur = p.end;
        }
        q = q + 1;
    }
    assert(order.skip(ordered@.len() as int) =~= Seq::<PlacedV>::empty());
    assert(placed_view(kept@) + Seq::<PlacedV>::empty() =~= placed_view(kept@));
    let ghost kv = placed_view(kept@);
    assert(kv == kept_lints(nv));
    // Each rule with its lints that were kept.
    let mut out: Vec<(String, Vec<Lint>)> = Vec::new();
    let mut i: usize = 0;
    while i < named.len()
        invariant
            i <= named@.len(),
            nv == named_lints_view(named@),
            kv == placed_view(kept@),
            kv == kept_lints(nv),
            named_lints_view(out@) == spec_remove_overlaps(nv).take(i as int),
        decreases named.len() - i,
    {
        let lints = &named[i].1;
        let ghost ls = nv[i as int].1;
        assert(ls == crate::lint::lints_view(lints@));
        let mut mine: Vec<Lint> = Vec::new();
        let mut j: usize = 0;
        assert(ls.take(0) =~= Seq::<LintV>::empty());
        while j < lints.len()
            invariant
                j <= lints@.len(),
                ls == crate::lint::lints_view(lints@),
                kv == placed_view(kept@),
                crate::lint::lints_view(mine@) == keep_lints(ls.take(j as int), i as int, kv),
            decreases lints.len() - j,
        {
            assert(ls.take(j + 1).drop_last() =~= ls.take(j as int));
            assert(ls.take(j + 1).last() == lints@[j as int]@);
            if is_kept_exec(&kept, i, j) {
                let c = lints[j].clone();
                let ghost before = crate::lint::lints_view(mine@);
                mine.push(c);
                assert(crate::lint::lints_view(mine@) =~= before.push(c@));
            }
            j = j + 1;
        }
        assert(ls.take(lints@.len() as int) =~= ls);
        let name = named[i].0.clone();
        let ghost before = named_lints_view(out@);
        out.push((name, mine));
        proof {
            assert(named_lints_view(out@) =~= before.push((name@, crate::lint::lints_view(mine@))));
            assert(spec_remove_overlaps(nv).take(i + 1) =~= spec_remove_overlaps(nv).take(i as int).push(
                spec_remove_overlaps(nv)[i as int],
            ));
        }
        i = i + 1;
    }
    assert(spec_remove_overlaps(nv).take(named@.len() as int) =~= spec_remove_overlaps(nv));
    out
}

/// The lints a rule keeps are some of its lints, no more of them than it had.
proof fn lemma_keep_subset(ls: Seq<LintV>, i: int, kept: Seq<PlacedV>)
    ensures
        keep_lints(ls, i, kept).len() <= ls.len(),
        forall|a: int| 0 <= a < keep_lints(ls, i, kept).len() ==> ls.contains(#[trigger] keep_lints(ls, i, kept)[a]),
    decreases ls.len(),
{
    if ls.len() > 0 {
        let d = ls.drop_last();
        lemma_keep_subset(d, i, kept);
        let r = keep_lints(ls, i, kept);
        assert forall|a: int| 0 <= a < r.len() implies ls.contains(#[trigger] r[a]) by {
            if a < keep_lints(d, i, kept).len() {
                assert(r[a] == keep_lints(d, i, kept)[a]);
                assert(d.contains(r[a]));
                let w = choose|w: int| 0 <= w < d.len() && d[w] == r[a];
                assert(ls[w] == d[w]);
            } else {
                assert(r[a] == ls.last());
                assert(ls[ls.len() - 1] == ls.last());
            }
        }
    }
}

/// Removing overlaps keeps each rule, under its name and in its place, with
/// some of its lints; it never adds a lint.
pub proof fn lemma_remove_overlaps_keeps_rules(named: Seq<(Seq<char>, Seq<LintV>)>)
    ensures
        spec_remove_overlaps(named).len() == named.len(),
        forall|i: int| 0 <= i < named.len() ==> (#[trigger] spec_remove_overlaps(named)[i]).0 == named[i].0,
        forall|i: int| 0 <= i < named.len() ==> spec_remove_overlaps(named)[i].1.len() <= (#[trigger] named[i]).1.len(),
        forall|i: int, a: int|
            0 <= i < named.len() && 0 <= a < spec_remove_overlaps(named)[i].1.len() ==> named[i].1.contains(
                #[trigger] spec_remove_overlaps(named)[i].1[a],
            ),
{
    let k = kept_lints(named);
    assert forall|i: int| 0 <= i < named.len() implies spec_remove_overlaps(named)[i].1.len() <= (#[trigger] named[i]).1.len() by {
        lemma_keep_subset(named[i].1, i, k);
    }
    assert forall|i: int, a: int|
        0 <= i < named.len() && 0 <= a < spec_remove_overlaps(named)[i].1.len() implies named[i].1.contains(
            #[trigger] spec_remove_overlaps(named)[i].1[a],
        ) by {
        lemma_keep_subset(named[i].1, i, k);
    }
}

/// A placed lint stands for the lint of `named` at its rule and place, with its span.
pub open spec fn places_lint(named: Seq<(Seq<char>, Seq<LintV>)>, p: PlacedV) -> bool {
    &&& 0 <= p.rule < named.len()
    &&& 0 <= p.index < named[p.rule].1.len()
    &&& named[p.rule].1[p.index].start == p.start
    &&& named[p.rule].1[p.index].end == p.end
}

proof fn lemma_placed_from_places(named: Seq<(Seq<char>, Seq<LintV>)>, i: int)
    requires
        0 <= i,
    ensures
        forall|a: int| 0 <= a < placed_from(named, i).len() ==> places_lint(named, #[trigger] placed_from(named, i)[a]),
    decreases named.len() - i,
{
    if i < named.len() {
        lemma_placed_from_places(named, i + 1);
        let here = placed_in_rule(named[i].1, i);
        let rest = placed_from(named, i + 1);
        assert forall|a: int| 0 <= a < placed_from(named, i).len() implies places_lint(
            named,
            #[trigger] placed_from(named, i)[a],
        ) by {
            if a >= here.len() {
                assert(placed_from(named, i)[a] == rest[a - here.len()]);
            }
        }
    }
}

/// The kept lints, in the order taken, each start at or after the end of
/// every one taken before it, when no lint ends before it starts.
proof fn lemma_greedy_chain(s: Seq<PlacedV>, cur: int)
    requires
        forall|a: int| 0 <= a < s.len() ==> (#[trigger] s[a]).start <= s[a].end,
    ensures
        forall|a: int| 0 <= a < greedy(s, cur).len() ==> s.contains(#[trigger] greedy(s, cur)[a]),
        forall|a: int| 0 <= a < greedy(s, cur).len() ==> (#[trigger] greedy(s, cur)[a]).start >= cur,
        forall|a: int, b: int|
            0 <= a < b < greedy(s, cur).len() ==> (#[trigger] greedy(s, cur)[b]).start >= (#[trigger] greedy(
                s,
                cur,
            )[a]).end,
    decreases s.len(),
{
    if s.len() > 0 {
        let d = s.drop_first();
        assert forall|a: int| 0 <= a < d.len() implies (#[trigger] d[a]).start <= d[a].end by {
            assert(d[a] == s[a + 1]);
        }
        if s[0].start < cur {
            lemma_greedy_chain(d, cur);
            let g = greedy(s, cur);
            assert(g == greedy(d, cur));
            assert forall|a: int| 0 <= a < g.len() implies s.contains(#[trigger] g[a]) by {
                assert(d.contains(g[a]));
                let w = choose|w: int| 0 <= w < d.len() && d[w] == g[a];
                assert(s[w + 1] == g[a]);
            }
        } else {
            lemma_greedy_chain(d, s[0].end);
            let r = greedy(d, s[0].end);
            let g = greedy(s, cur);
            assert(g == seq![s[0]] + r);
            assert forall|a: int| 0 <= a < g.len() implies s.contains(#[trigger] g[a]) by {
                if a == 0 {
                    assert(s[0] == g[0]);
                } else {
                    assert(g[a] == r[a - 1]);
                    assert(d.contains(r[a - 1]));
                    let w = choose|w: int| 0 <= w < d.len() && d[w] == r[a - 1];
                    assert(s[w + 1] == g[a]);
                }
            }
            assert forall|a: int| 0 <= a < g.len() implies (#[trigger] g[a]).start >= cur by {
                if a > 0 {
                    assert(g[a] == r[a - 1]);
                }
            }
            assert forall|a: int, b: int| 0 <= a < b < g.len() implies (#[trigger] g[b]).start >= (#[trigger] g[a]).end by {
                assert(g[b] == r[b - 1]);
                if a > 0 {
                    assert(g[a] == r[a - 1]);
                }
            }
        }
    }
}

/// The place in `ls` of the lint at position `a` of those rule `i` keeps.
spec fn kept_place(ls: Seq<LintV>, i: int, kept: Seq<PlacedV>, a: int) -> int
    decreases ls.len(),
{
    if ls.len() == 0 {
        0
    } else if is_kept(kept, i, ls.len() - 1) && a == keep_lints(ls.drop_last(), i, kept).len() {
        ls.len() - 1
    } else {
        kept_place(ls.drop_last(), i, kept, a)
    }
}

proof fn lemma_kept_place(ls: Seq<LintV>, i: int, kept: Seq<PlacedV>)
    ensures
        forall|a: int|
            0 <= a < keep_lints(ls, i, kept).len() ==> {
                let j = #[trigger] kept_place(ls, i, kept, a);
                &&& 0 <= j < ls.len()
                &&& keep_lints(ls, i, kept)[a] == ls[j]
                &&& is_kept(kept, i, j)
            },
        forall|a: int, b: int|
            0 <= a < b < keep_lints(ls, i, kept).len() ==> #[trigger] kept_place(ls, i, kept, a) < #[trigger] kept_place(
                ls,
                i,
                kept,
                b,
            ),
    decreases ls.len(),
{
    if ls.len() > 0 {
        let d = ls.drop_last();
        lemma_kept_place(d, i, kept);
        let kd = keep_lints(d, i, kept);
        lemma_keep_subset(d, i, kept);
        assert forall|a: int| 0 <= a < kd.len() implies #[trigger] kept_place(ls, i, kept, a) == kept_place(d, i, kept, a) by {}
        assert forall|a: int| 0 <= a < kd.len() implies ls[kept_place(d, i, kept, a)] == d[kept_place(d, i, kept, a)] by {}
    }
}

/// No two lints left after overlap removal share a character, when every
/// lint starts at or before its end.
pub proof fn lemma_removed_overlaps_disjoint(named: Seq<(Seq<char>, Seq<LintV>)>)
    requires
        forall|i: int, j: int|
            0 <= i < named.len() && 0 <= j < named[i].1.len() ==> #[trigger] named[i].1[j].start <= named[i].1[j].end,
    ensures
        forall|i1: int, a: int, i2: int, b: int|
            0 <= i1 < named.len() && 0 <= i2 < named.len() && 0 <= a < spec_remove_overlaps(named)[i1].1.len() && 0
                <= b < spec_remove_overlaps(named)[i2].1.len() && (i1 != i2 || a != b) ==> !spec_spans_overlap(
                (#[trigger] spec_remove_overlaps(named)[i1].1[a]).start,
                spec_remove_overlaps(named)[i1].1[a].end,
                (#[trigger] spec_remove_overlaps(named)[i2].1[b]).start,
                spec_remove_overlaps(named)[i2].1[b].end,
            ),
{
    let ps = placed_from(named, 0);
    let m = span_top(ps);
    let s1 = sort_asc_below(ps, by_end_desc(m), (m + 1) as nat);
    let order = overlap_order(ps);
    let kept = kept_lints(named);
    lemma_placed_from_places(named, 0);
    lemma_sort_asc_members(ps, by_end_desc(m), (m + 1) as nat);
    lemma_sort_asc_members(s1, by_start(), (m + 1) as nat);
    assert forall|a: int| 0 <= a < order.len() implies places_lint(named, #[trigger] order[a]) by {
        assert(s1.contains(order[a]));
        let w = choose|w: int| 0 <= w < s1.len() && s1[w] == order[a];
        assert(ps.contains(s1[w]));
        let v = choose|v: int| 0 <= v < ps.len() && ps[v] == s1[w];
    }
    assert forall|a: int| 0 <= a < order.len() implies (#[trigger] order[a]).start <= order[a].end by {
        assert(places_lint(named, order[a]));
    }
    lemma_greedy_chain(order, 0);
    assert forall|q: int| 0 <= q < kept.len() implies places_lint(named, #[trigger] kept[q]) by {
        assert(order.contains(kept[q]));
        let w = choose|w: int| 0 <= w < order.len() && order[w] == kept[q];
        assert(places_lint(named, order[w]));
    }
    let r = spec_remove_overlaps(named);
    assert forall|i1: int, a: int, i2: int, b: int|
        0 <= i1 < named.len() && 0 <= i2 < named.len() && 0 <= a < r[i1].1.len() && 0 <= b < r[i2].1.len() && (i1
            != i2 || a != b) implies !spec_spans_overlap(
        (#[trigger] r[i1].1[a]).start,
        r[i1].1[a].end,
        (#[trigger] r[i2].1[b]).start,
        r[i2].1[b].end,
    ) by {
        lemma_kept_place(named[i1].1, i1, kept);
        lemma_kept_place(named[i2].1, i2, kept);
        let ja = kept_place(named[i1].1, i1, kept, a);
        let jb = kept_place(named[i2].1, i2, kept, b);
        assert(is_kept(kept, i1, ja));
        assert(is_kept(kept, i2, jb));
        let qa = choose|q: int| 0 <= q < kept.len() && (#[trigger] kept[q]).rule == i1 && kept[q].index == ja;
        let qb = choose|q: int| 0 <= q < kept.len() && (#[trigger] kept[q]).rule == i2 && kept[q].index == jb;
        if i1 == i2 {
            if a < b {
                assert(ja < jb);
            } else {
                assert(jb < ja);
            }
        }
        assert(qa != qb);
        assert(places_lint(named, kept[qa]));
        assert(places_lint(named, kept[qb]));
        assert(r[i1].1[a] == named[i1].1[ja]);
        assert(r[i2].1[b] == named[i2].1[jb]);
        if qa < qb {
            assert(kept[qb].start >= kept[qa].end);
        } else {
            assert(kept[qa].start >= kept[qb].end);
        }
    }
}

} // verus!
