//! Laws of the pattern linter: what it reports, and what it passes over.

use vstd::prelude::*;

use crate::lint::{lint_start_key, spec_spans_overlap, LintV};
use crate::lint_kind::LintKind;
use crate::pattern_linter::{
    any_used, mark_used, no_claims, pair_active, pair_guard, pair_lint, pair_lints, scan_pairs, scan_pattern,
    spec_linter_of, spec_pattern_lints, bad_len_key, PatternLinterV, PatternPairV, RuleSetV,
};
use crate::sort::{
    key_bound, lemma_key_bound, lemma_sort_asc_complete, lemma_sort_asc_members, lemma_sort_asc_strict,
    lemma_sort_desc_members, lemma_sort_desc_shape, sort_asc_below, sort_desc_between,
};
use crate::script::spec_is_han;
use crate::suggestion::{spec_apply, SuggestionV};
use crate::text::occurs_at;

verus! {

/// Character `c` lies in the span of some occurrence of length `m` starting in `st`.
pub open spec fn in_some_start(st: Seq<int>, m: int, c: int) -> bool {
    exists|i: int| 0 <= i < st.len() && (#[trigger] st[i]) <= c < st[i] + m
}

/// What one scan of a pattern takes, and what it passes over.
proof fn lemma_scan_pattern(s: Seq<char>, pat: Seq<char>, used: Seq<bool>, pos: int)
    requires
        pat.len() > 0,
        0 <= pos,
        used.len() == s.len(),
    ensures
        scan_pattern(s, pat, used, pos).0.len() == used.len(),
        forall|i: int|
            0 <= i < scan_pattern(s, pat, used, pos).1.len() ==> {
                let st = #[trigger] scan_pattern(s, pat, used, pos).1[i];
                &&& pos <= st
                &&& occurs_at(s, pat, st)
                &&& !any_used(used, st, st + pat.len())
            },
        forall|i: int, j: int|
            0 <= i < j < scan_pattern(s, pat, used, pos).1.len() ==> #[trigger] scan_pattern(s, pat, used, pos).1[i]
                + pat.len() <= #[trigger] scan_pattern(s, pat, used, pos).1[j],
        forall|c: int|
            0 <= c < used.len() ==> (#[trigger] scan_pattern(s, pat, used, pos).0[c] <==> (used[c] || in_some_start(
                scan_pattern(s, pat, used, pos).1,
                pat.len() as int,
                c,
            ))),
        forall|k: int|
            pos <= k && #[trigger] occurs_at(s, pat, k) ==> any_used(scan_pattern(s, pat, used, pos).0, k, k + pat.len()),
    decreases s.len() - pos,
{
    let m = pat.len() as int;
    if pos + m > s.len() {
    } else if occurs_at(s, pat, pos) {
        if any_used(used, pos, pos + m) {
            lemma_scan_pattern(s, pat, used, pos + 1);
            let r = scan_pattern(s, pat, used, pos + 1);
            assert(scan_pattern(s, pat, used, pos) == r);
            assert forall|k: int| pos <= k && #[trigger] occurs_at(s, pat, k) implies any_used(r.0, k, k + m) by {
                if k == pos {
                    let c = choose|c: int| pos <= c < pos + m && #[trigger] used[c];
                    assert(r.0[c]);
                }
            }
        } else {
            let u1 = mark_used(used, pos, pos + m);
            lemma_scan_pattern(s, pat, u1, pos + m);
            let r = scan_pattern(s, pat, u1, pos + m);
            let st = seq![pos] + r.1;
            assert(scan_pattern(s, pat, used, pos) == (r.0, st));
            assert forall|i: int| 0 <= i < st.len() implies {
                let x = #[trigger] st[i];
                &&& pos <= x
                &&& occurs_at(s, pat, x)
                &&& !any_used(used, x, x + m)
            } by {
                if i > 0 {
                    assert(st[i] == r.1[i - 1]);
                    let x = st[i];
                    if any_used(used, x, x + m) {
                        let c = choose|c: int| x <= c < x + m && #[trigger] used[c];
                        assert(u1[c]);
                    }
                }
            }
            assert forall|i: int, j: int| 0 <= i < j < st.len() implies #[trigger] st[i] + m <= #[trigger] st[j] by {
                assert(st[j] == r.1[j - 1]);
                if i > 0 {
                    assert(st[i] == r.1[i - 1]);
                }
            }
            assert forall|c: int| 0 <= c < used.len() implies (#[trigger] r.0[c] <==> (used[c] || in_some_start(st, m, c))) by {
                if in_some_start(r.1, m, c) {
                    let i = choose|i: int| 0 <= i < r.1.len() && (#[trigger] r.1[i]) <= c < r.1[i] + m;
                    assert(st[i + 1] == r.1[i]);
                }
                if in_some_start(st, m, c) {
                    let i = choose|i: int| 0 <= i < st.len() && (#[trigger] st[i]) <= c < st[i] + m;
                    if i > 0 {
                        assert(st[i] == r.1[i - 1]);
                        assert(in_some_start(r.1, m, c));
                    } else {
                        assert(u1[c]);
                    }
                }
                if pos <= c < pos + m {
                    assert(st[0] == pos);
                    assert(in_some_start(st, m, c));
                }
            }
            assert forall|k: int| pos <= k && #[trigger] occurs_at(s, pat, k) implies any_used(r.0, k, k + m) by {
                if k < pos + m {
                    assert(u1[k]);
                    assert(r.0[k]);
                }
            }
        }
    } else {
        lemma_scan_pattern(s, pat, used, pos + 1);
        let r = scan_pattern(s, pat, used, pos + 1);
        assert(scan_pattern(s, pat, used, pos) == r);
        assert forall|k: int| pos <= k && #[trigger] occurs_at(s, pat, k) implies any_used(r.0, k, k + m) by {
            assert(k != pos);
        }
    }
}

/// `l` is the lint for an occurrence in `s` of an active pair `p`.
pub open spec fn lint_of_occurrence(s: Seq<char>, p: PatternPairV, kind: LintKind, priority: u8, l: LintV) -> bool {
    &&& pair_active(p)
    &&& occurs_at(s, p.bad, l.start)
    &&& l == pair_lint(p, kind, priority, l.start)
}

/// `l` is the lint for an occurrence of one of the active pairs `pairs[lo..]`.
pub open spec fn reported_by(s: Seq<char>, pairs: Seq<PatternPairV>, kind: LintKind, priority: u8, lo: int, l: LintV) -> bool {
    exists|j: int| lo <= j < pairs.len() && lint_of_occurrence(s, #[trigger] pairs[j], kind, priority, l)
}

/// Some lint of `ls` shares a character with `[from, to)`.
pub open spec fn some_lint_overlaps(ls: Seq<LintV>, from: int, to: int) -> bool {
    exists|a: int| 0 <= a < ls.len() && spec_spans_overlap((#[trigger] ls[a]).start, ls[a].end, from, to)
}

/// Some occurrence of the phrase of a guard among `pairs[lo..]` shares a
/// character with `[k, k + m)`.
pub open spec fn guarded(s: Seq<char>, pairs: Seq<PatternPairV>, lo: int, k: int, m: int) -> bool {
    exists|g: int, q: int|
        lo <= g < pairs.len() && pair_guard(#[trigger] pairs[g]) && #[trigger] occurs_at(s, pairs[g].bad, q)
            && spec_spans_overlap(q, q + pairs[g].bad.len(), k, k + m)
}

/// What the scans of pairs `i..` report, given the claims in `used`.
proof fn lemma_scan_pairs(
    s: Seq<char>,
    pairs: Seq<PatternPairV>,
    kind: LintKind,
    priority: u8,
    i: int,
    used: Seq<bool>,
)
    requires
        0 <= i,
        used.len() == s.len(),
    ensures
        forall|a: int|
            0 <= a < scan_pairs(s, pairs, kind, priority, i, used).len() ==> reported_by(
                s,
                pairs,
                kind,
                priority,
                i,
                #[trigger] scan_pairs(s, pairs, kind, priority, i, used)[a],
            ),
        forall|a: int|
            0 <= a < scan_pairs(s, pairs, kind, priority, i, used).len() ==> !any_used(
                used,
                (#[trigger] scan_pairs(s, pairs, kind, priority, i, used)[a]).start,
                scan_pairs(s, pairs, kind, priority, i, used)[a].end,
            ),
        forall|a: int, b: int|
            0 <= a < b < scan_pairs(s, pairs, kind, priority, i, used).len() ==> !spec_spans_overlap(
                (#[trigger] scan_pairs(s, pairs, kind, priority, i, used)[a]).start,
                scan_pairs(s, pairs, kind, priority, i, used)[a].end,
                (#[trigger] scan_pairs(s, pairs, kind, priority, i, used)[b]).start,
                scan_pairs(s, pairs, kind, priority, i, used)[b].end,
            ),
        forall|j: int, k: int|
            i <= j < pairs.len() && pair_active(#[trigger] pairs[j]) && #[trigger] occurs_at(s, pairs[j].bad, k)
                ==> any_used(used, k, k + pairs[j].bad.len()) || some_lint_overlaps(
                scan_pairs(s, pairs, kind, priority, i, used),
                k,
                k + pairs[j].bad.len(),
            ) || guarded(s, pairs, i, k, pairs[j].bad.len() as int),
    decreases pairs.len() - i,
{
    if i >= pairs.len() {
    } else if pair_guard(pairs[i]) {
        let g = pairs[i];
        let mg = g.bad.len() as int;
        lemma_scan_pattern(s, g.bad, used, 0);
        let sc = scan_pattern(s, g.bad, used, 0);
        lemma_scan_pairs(s, pairs, kind, priority, i + 1, sc.0);
        let r = scan_pairs(s, pairs, kind, priority, i + 1, sc.0);
        assert(scan_pairs(s, pairs, kind, priority, i, used) == r);
        assert forall|a: int| 0 <= a < r.len() implies reported_by(s, pairs, kind, priority, i, #[trigger] r[a]) by {
            let j = choose|j: int| i + 1 <= j < pairs.len() && lint_of_occurrence(s, #[trigger] pairs[j], kind, priority, r[a]);
            assert(i <= j < pairs.len() && lint_of_occurrence(s, pairs[j], kind, priority, r[a]));
        }
        assert forall|a: int| 0 <= a < r.len() implies !any_used(used, (#[trigger] r[a]).start, r[a].end) by {
            if any_used(used, r[a].start, r[a].end) {
                let c = choose|c: int| r[a].start <= c < r[a].end && #[trigger] used[c];
                assert(sc.0[c]);
                assert(any_used(sc.0, r[a].start, r[a].end));
            }
        }
        assert forall|j: int, k: int|
            i <= j < pairs.len() && pair_active(#[trigger] pairs[j]) && #[trigger] occurs_at(s, pairs[j].bad, k)
                implies any_used(used, k, k + pairs[j].bad.len()) || some_lint_overlaps(r, k, k + pairs[j].bad.len())
            || guarded(s, pairs, i, k, pairs[j].bad.len() as int) by {
            let mj = pairs[j].bad.len() as int;
            assert(j != i);
            if guarded(s, pairs, i + 1, k, mj) {
                let (h, q) = choose|h: int, q: int|
                    i + 1 <= h < pairs.len() && pair_guard(#[trigger] pairs[h]) && #[trigger] occurs_at(s, pairs[h].bad, q)
                        && spec_spans_overlap(q, q + pairs[h].bad.len(), k, k + mj);
                assert(i <= h < pairs.len() && pair_guard(pairs[h]) && occurs_at(s, pairs[h].bad, q));
            }
            if any_used(sc.0, k, k + mj) {
                let c = choose|c: int| k <= c < k + mj && #[trigger] sc.0[c];
                if !used[c] {
                    assert(in_some_start(sc.1, mg, c));
                    let a = choose|a: int| 0 <= a < sc.1.len() && (#[trigger] sc.1[a]) <= c < sc.1[a] + mg;
                    let q = sc.1[a];
                    assert(occurs_at(s, g.bad, q));
                    assert(spec_spans_overlap(q, q + g.bad.len(), k, k + mj));
                    assert(i <= i < pairs.len() && pair_guard(pairs[i]) && occurs_at(s, pairs[i].bad, q));
                    assert(guarded(s, pairs, i, k, mj));
                } else {
                    assert(any_used(used, k, k + mj));
                }
            }
        }
    } else if !pair_active(pairs[i]) {
        lemma_scan_pairs(s, pairs, kind, priority, i + 1, used);
        let r = scan_pairs(s, pairs, kind, priority, i + 1, used);
        assert(scan_pairs(s, pairs, kind, priority, i, used) == r);
        assert forall|a: int| 0 <= a < r.len() implies reported_by(s, pairs, kind, priority, i, #[trigger] r[a]) by {
            let j = choose|j: int| i + 1 <= j < pairs.len() && lint_of_occurrence(s, #[trigger] pairs[j], kind, priority, r[a]);
            assert(i <= j < pairs.len() && lint_of_occurrence(s, pairs[j], kind, priority, r[a]));
        }
        assert forall|k: int, m: int| #[trigger] guarded(s, pairs, i + 1, k, m) implies guarded(s, pairs, i, k, m) by {
            let (h, q) = choose|h: int, q: int|
                i + 1 <= h < pairs.len() && pair_guard(#[trigger] pairs[h]) && #[trigger] occurs_at(s, pairs[h].bad, q)
                    && spec_spans_overlap(q, q + pairs[h].bad.len(), k, k + m);
            assert(i <= h < pairs.len() && pair_guard(pairs[h]) && occurs_at(s, pairs[h].bad, q));
        }
    } else {
        let p = pairs[i];
        let m = p.bad.len() as int;
        lemma_scan_pattern(s, p.bad, used, 0);
        let sc = scan_pattern(s, p.bad, used, 0);
        lemma_scan_pairs(s, pairs, kind, priority, i + 1, sc.0);
        let l = pair_lints(p, kind, priority, sc.1);
        let rest = scan_pairs(s, pairs, kind, priority, i + 1, sc.0);
        let r = l + rest;
        assert(scan_pairs(s, pairs, kind, priority, i, used) == r);
        let n = l.len() as int;
        assert forall|a: int| 0 <= a < n implies (#[trigger] r[a]) == pair_lint(p, kind, priority, sc.1[a]) by {}
        assert forall|a: int| n <= a < r.len() implies (#[trigger] r[a]) == rest[a - n] by {}
        assert forall|a: int| 0 <= a < r.len() implies reported_by(s, pairs, kind, priority, i, #[trigger] r[a]) by {
            if a < n {
                assert(lint_of_occurrence(s, pairs[i], kind, priority, r[a]));
            } else {
                assert(reported_by(s, pairs, kind, priority, i + 1, rest[a - n]));
                let j = choose|j: int| i + 1 <= j < pairs.len() && lint_of_occurrence(s, #[trigger] pairs[j], kind, priority, rest[a - n]);
                assert(i <= j < pairs.len() && lint_of_occurrence(s, pairs[j], kind, priority, r[a]));
            }
        }
        assert forall|a: int| 0 <= a < r.len() implies !any_used(used, (#[trigger] r[a]).start, r[a].end) by {
            if a >= n {
                if any_used(used, r[a].start, r[a].end) {
                    let c = choose|c: int| r[a].start <= c < r[a].end && #[trigger] used[c];
                    assert(sc.0[c]);
                    assert(any_used(sc.0, rest[a - n].start, rest[a - n].end));
                }
            }
        }
        assert forall|a: int, b: int| 0 <= a < b < r.len() implies !spec_spans_overlap(
            (#[trigger] r[a]).start,
            r[a].end,
            (#[trigger] r[b]).start,
            r[b].end,
        ) by {
            if b < n {
                assert(sc.1[a] + m <= sc.1[b]);
            } else if a < n {
                if spec_spans_overlap(r[a].start, r[a].end, r[b].start, r[b].end) {
                    assert(reported_by(s, pairs, kind, priority, i + 1, rest[b - n]));
                    let j = choose|j: int| i + 1 <= j < pairs.len() && lint_of_occurrence(s, #[trigger] pairs[j], kind, priority, rest[b - n]);
                    let c = if r[a].start < r[b].start { r[b].start } else { r[a].start };
                    assert(in_some_start(sc.1, m, c)) by {
                        assert(sc.1[a] <= c < sc.1[a] + m);
                    }
                    assert(sc.0[c]);
                    assert(any_used(sc.0, rest[b - n].start, rest[b - n].end));
                }
            } else {
                assert(!spec_spans_overlap(rest[a - n].start, rest[a - n].end, rest[b - n].start, rest[b - n].end));
            }
        }
        assert forall|k: int, m: int| #[trigger] guarded(s, pairs, i + 1, k, m) implies guarded(s, pairs, i, k, m) by {
            let (h, q) = choose|h: int, q: int|
                i + 1 <= h < pairs.len() && pair_guard(#[trigger] pairs[h]) && #[trigger] occurs_at(s, pairs[h].bad, q)
                    && spec_spans_overlap(q, q + pairs[h].bad.len(), k, k + m);
            assert(i <= h < pairs.len() && pair_guard(pairs[h]) && occurs_at(s, pairs[h].bad, q));
        }
        assert forall|j: int, k: int|
            i <= j < pairs.len() && pair_active(#[trigger] pairs[j]) && #[trigger] occurs_at(s, pairs[j].bad, k)
                implies any_used(used, k, k + pairs[j].bad.len()) || some_lint_overlaps(r, k, k + pairs[j].bad.len())
            || guarded(s, pairs, i, k, pairs[j].bad.len() as int) by {
            let mj = pairs[j].bad.len() as int;
            let claimed = any_used(sc.0, k, k + mj);
            if j == i {
                assert(claimed);
            } else {
                if !claimed && some_lint_overlaps(rest, k, k + mj) {
                    let a = choose|a: int| 0 <= a < rest.len() && spec_spans_overlap((#[trigger] rest[a]).start, rest[a].end, k, k + mj);
                    assert(r[a + n] == rest[a]);
                    assert(some_lint_overlaps(r, k, k + mj));
                }
            }
            if claimed {
                let c = choose|c: int| k <= c < k + mj && #[trigger] sc.0[c];
                if !used[c] {
                    assert(in_some_start(sc.1, m, c));
                    let a = choose|a: int| 0 <= a < sc.1.len() && (#[trigger] sc.1[a]) <= c < sc.1[a] + m;
                    assert(r[a] == pair_lint(p, kind, priority, sc.1[a]));
                    assert(spec_spans_overlap(r[a].start, r[a].end, k, k + mj));
                    assert(some_lint_overlaps(r, k, k + mj));
                } else {
                    assert(any_used(used, k, k + mj));
                }
            }
        }
    }
}

/// The lints of the scans, before they are put in order.
proof fn lemma_scanned_lints(l: PatternLinterV, s: Seq<char>)
    ensures
        ({
            let r = scan_pairs(s, l.pairs, l.lint_kind, l.priority, 0, no_claims(s.len()));
            &&& forall|a: int| 0 <= a < r.len() ==> reported_by(s, l.pairs, l.lint_kind, l.priority, 0, #[trigger] r[a])
            &&& forall|a: int| 0 <= a < r.len() ==> 0 <= (#[trigger] r[a]).start < r[a].end <= s.len()
            &&& forall|a: int, b: int| 0 <= a < b < r.len() ==> !spec_spans_overlap(
                (#[trigger] r[a]).start,
                r[a].end,
                (#[trigger] r[b]).start,
                r[b].end,
            )
            &&& forall|j: int, k: int|
                0 <= j < l.pairs.len() && pair_active(#[trigger] l.pairs[j]) && #[trigger] occurs_at(s, l.pairs[j].bad, k)
                    ==> some_lint_overlaps(r, k, k + l.pairs[j].bad.len()) || guarded(
                    s,
                    l.pairs,
                    0,
                    k,
                    l.pairs[j].bad.len() as int,
                )
        }),
{
    let u = no_claims(s.len());
    lemma_scan_pairs(s, l.pairs, l.lint_kind, l.priority, 0, u);
    let r = scan_pairs(s, l.pairs, l.lint_kind, l.priority, 0, u);
    assert forall|a: int| 0 <= a < r.len() implies 0 <= (#[trigger] r[a]).start < r[a].end <= s.len() by {
        assert(reported_by(s, l.pairs, l.lint_kind, l.priority, 0, r[a]));
        let j = choose|j: int| 0 <= j < l.pairs.len() && lint_of_occurrence(s, #[trigger] l.pairs[j], l.lint_kind, l.priority, r[a]);
    }
    assert forall|j: int, k: int|
        0 <= j < l.pairs.len() && pair_active(#[trigger] l.pairs[j]) && #[trigger] occurs_at(s, l.pairs[j].bad, k)
            implies some_lint_overlaps(r, k, k + l.pairs[j].bad.len()) || guarded(
            s,
            l.pairs,
            0,
            k,
            l.pairs[j].bad.len() as int,
        ) by {
        if any_used(u, k, k + l.pairs[j].bad.len()) {
            let c = choose|c: int| k <= c < k + l.pairs[j].bad.len() && #[trigger] u[c];
        }
    }
}

/// The lints of a pattern linter come in order of position, each ending
/// before the next begins: no two of them share a character.
pub proof fn lemma_pattern_lints_ordered(l: PatternLinterV, s: Seq<char>)
    ensures
        forall|a: int, b: int|
            0 <= a < b < spec_pattern_lints(l, s).len() ==> (#[trigger] spec_pattern_lints(l, s)[a]).end
                <= (#[trigger] spec_pattern_lints(l, s)[b]).start,
{
    if s.len() > 0 && l.pairs.len() > 0 {
        lemma_scanned_lints(l, s);
        let r = scan_pairs(s, l.pairs, l.lint_kind, l.priority, 0, no_claims(s.len()));
        let key = lint_start_key();
        assert forall|a: int, b: int| 0 <= a < b < r.len() implies key(#[trigger] r[a]) != key(#[trigger] r[b]) by {
            assert(!spec_spans_overlap(r[a].start, r[a].end, r[b].start, r[b].end));
        }
        lemma_sort_asc_strict(r, key, s.len());
        lemma_sort_asc_members(r, key, s.len());
        let t = sort_asc_below(r, key, s.len());
        assert(t == spec_pattern_lints(l, s));
        assert forall|a: int, b: int| 0 <= a < b < t.len() implies (#[trigger] t[a]).end <= (#[trigger] t[b]).start by {
            assert(key(t[a]) < key(t[b]));
            assert(r.contains(t[a]) && r.contains(t[b]));
            let x = choose|x: int| 0 <= x < r.len() && r[x] == t[a];
            let y = choose|y: int| 0 <= y < r.len() && r[y] == t[b];
            assert(x != y);
            if x < y {
                assert(!spec_spans_overlap(r[x].start, r[x].end, r[y].start, r[y].end));
            } else {
                assert(!spec_spans_overlap(r[y].start, r[y].end, r[x].start, r[x].end));
            }
        }
    }
}

/// Each lint of a pattern linter marks an occurrence of the bad pattern of
/// one of its active pairs (non-empty, different from its fix), and carries
/// that pair's message and its fix as the only suggestion.
pub proof fn lemma_pattern_lints_are_occurrences(l: PatternLinterV, s: Seq<char>)
    ensures
        forall|a: int|
            0 <= a < spec_pattern_lints(l, s).len() ==> reported_by(
                s,
                l.pairs,
                l.lint_kind,
                l.priority,
                0,
                #[trigger] spec_pattern_lints(l, s)[a],
            ),
{
    if s.len() > 0 && l.pairs.len() > 0 {
        lemma_scanned_lints(l, s);
        let r = scan_pairs(s, l.pairs, l.lint_kind, l.priority, 0, no_claims(s.len()));
        lemma_sort_asc_members(r, lint_start_key(), s.len());
        let t = sort_asc_below(r, lint_start_key(), s.len());
        assert forall|a: int| 0 <= a < t.len() implies reported_by(s, l.pairs, l.lint_kind, l.priority, 0, #[trigger] t[a]) by {
            assert(r.contains(t[a]));
            let x = choose|x: int| 0 <= x < r.len() && r[x] == t[a];
            assert(reported_by(s, l.pairs, l.lint_kind, l.priority, 0, r[x]));
        }
    }
}

/// Nothing is passed over: every occurrence of an active pair's bad pattern
/// shares a character with some lint, or with an occurrence of a guarded
/// phrase (a pair whose fix is its own pattern).
pub proof fn lemma_pattern_lints_maximal(l: PatternLinterV, s: Seq<char>)
    ensures
        forall|j: int, k: int|
            0 <= j < l.pairs.len() && pair_active(#[trigger] l.pairs[j]) && #[trigger] occurs_at(s, l.pairs[j].bad, k)
                ==> some_lint_overlaps(spec_pattern_lints(l, s), k, k + l.pairs[j].bad.len()) || guarded(
                s,
                l.pairs,
                0,
                k,
                l.pairs[j].bad.len() as int,
            ),
{
    if s.len() > 0 && l.pairs.len() > 0 {
        lemma_scanned_lints(l, s);
        let r = scan_pairs(s, l.pairs, l.lint_kind, l.priority, 0, no_claims(s.len()));
        lemma_sort_asc_complete(r, lint_start_key(), s.len());
        let t = sort_asc_below(r, lint_start_key(), s.len());
        assert(t == spec_pattern_lints(l, s));
        assert forall|j: int, k: int|
            0 <= j < l.pairs.len() && pair_active(#[trigger] l.pairs[j]) && #[trigger] occurs_at(s, l.pairs[j].bad, k)
                implies some_lint_overlaps(t, k, k + l.pairs[j].bad.len()) || guarded(
                s,
                l.pairs,
                0,
                k,
                l.pairs[j].bad.len() as int,
            ) by {
            let m = l.pairs[j].bad.len() as int;
            if some_lint_overlaps(r, k, k + m) {
                let a = choose|a: int| 0 <= a < r.len() && spec_spans_overlap((#[trigger] r[a]).start, r[a].end, k, k + m);
                assert(lint_start_key()(r[a]) < s.len());
                assert(t.contains(r[a]));
                let w = choose|w: int| 0 <= w < t.len() && t[w] == r[a];
                assert(spec_spans_overlap(t[w].start, t[w].end, k, k + m));
            }
        }
    }
}

/// A pattern linter built from a rule set tries the longest bad patterns
/// first: it holds exactly the set's pairs, by non-increasing length of the
/// bad pattern.
pub proof fn lemma_linter_pairs_longest_first(set: RuleSetV)
    ensures
        forall|i: int, j: int|
            0 <= i <= j < spec_linter_of(set).pairs.len() ==> (#[trigger] spec_linter_of(set).pairs[i]).bad.len()
                >= (#[trigger] spec_linter_of(set).pairs[j]).bad.len(),
        forall|i: int|
            0 <= i < spec_linter_of(set).pairs.len() ==> set.pairs.contains(#[trigger] spec_linter_of(set).pairs[i]),
        forall|i: int| 0 <= i < set.pairs.len() ==> spec_linter_of(set).pairs.contains(#[trigger] set.pairs[i]),
{
    let key = bad_len_key();
    let hi = key_bound(set.pairs, key);
    lemma_key_bound(set.pairs, key);
    lemma_sort_desc_shape(set.pairs, key, 0, hi);
    lemma_sort_desc_members(set.pairs, key, 0, hi);
    let p = spec_linter_of(set).pairs;
    assert(p == sort_desc_between(set.pairs, key, 0, hi));
    assert forall|i: int, j: int| 0 <= i <= j < p.len() implies (#[trigger] p[i]).bad.len() >= (#[trigger] p[j]).bad.len() by {
        assert(key(p[i]) >= key(p[j]));
    }
    assert forall|i: int| 0 <= i < set.pairs.len() implies p.contains(#[trigger] set.pairs[i]) by {
        assert(key(set.pairs[i]) < hi);
    }
}

/// Some character of `s` is a Han character.
pub open spec fn has_han(s: Seq<char>) -> bool {
    exists|i: int| 0 <= i < s.len() && spec_is_han(#[trigger] s[i])
}

/// A pattern linter whose active pairs all have a Han character in their bad
/// pattern reports nothing on a text without Han characters (such as pure
/// English text).
pub proof fn lemma_no_han_no_pattern_lints(l: PatternLinterV, s: Seq<char>)
    requires
        forall|j: int| 0 <= j < l.pairs.len() && pair_active(#[trigger] l.pairs[j]) ==> has_han(l.pairs[j].bad),
        !has_han(s),
    ensures
        spec_pattern_lints(l, s).len() == 0,
{
    lemma_pattern_lints_are_occurrences(l, s);
    let t = spec_pattern_lints(l, s);
    if t.len() > 0 {
        assert(reported_by(s, l.pairs, l.lint_kind, l.priority, 0, t[0]));
        let j = choose|j: int| 0 <= j < l.pairs.len() && lint_of_occurrence(s, #[trigger] l.pairs[j], l.lint_kind, l.priority, t[0]);
        let bad = l.pairs[j].bad;
        let k = choose|k: int| 0 <= k < bad.len() && spec_is_han(#[trigger] bad[k]);
        let st = t[0].start;
        assert(s.subrange(st, st + bad.len()) == bad);
        assert(s[st + k] == bad[k]);
    }
}

/// The fix of each pattern lint puts its pair's good text where the pair's
/// bad text stood.
pub proof fn lemma_pattern_fix_replaces(l: PatternLinterV, s: Seq<char>)
    ensures
        forall|a: int|
            0 <= a < spec_pattern_lints(l, s).len() ==> exists|j: int|
                0 <= j < l.pairs.len() && {
                    let lint = #[trigger] spec_pattern_lints(l, s)[a];
                    let p = #[trigger] l.pairs[j];
                    &&& s.subrange(lint.start, lint.end) == p.bad
                    &&& lint.suggestions.len() == 1
                    &&& spec_apply(lint.suggestions[0], lint.start, lint.end, s) == s.take(lint.start) + p.good + s.skip(
                        lint.end,
                    )
                },
{
    lemma_pattern_lints_are_occurrences(l, s);
    let t = spec_pattern_lints(l, s);
    assert forall|a: int| 0 <= a < t.len() implies exists|j: int|
        0 <= j < l.pairs.len() && {
            let lint = #[trigger] t[a];
            let p = #[trigger] l.pairs[j];
            &&& s.subrange(lint.start, lint.end) == p.bad
            &&& lint.suggestions.len() == 1
            &&& spec_apply(lint.suggestions[0], lint.start, lint.end, s) == s.take(lint.start) + p.good + s.skip(lint.end)
        } by {
        assert(reported_by(s, l.pairs, l.lint_kind, l.priority, 0, t[a]));
        let j = choose|j: int| 0 <= j < l.pairs.len() && lint_of_occurrence(s, #[trigger] l.pairs[j], l.lint_kind, l.priority, t[a]);
        assert(t[a].suggestions[0] == SuggestionV::ReplaceWith(l.pairs[j].good));
    }
}

} // verus!
