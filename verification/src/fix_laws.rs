//! Laws of automatic fixing: which lints are applied, and what applying
//! them back to front amounts to.

use vstd::prelude::*;

use crate::cli::{apply_in_order, safe_lints, safe_lints_backwards, starts_with_zh};
use crate::lint::{lint_start_key, spec_spans_overlap, LintV};
use crate::lint_group::ZhLinterV;
use crate::session::{lemma_reported_within, spec_fix_rounds, spec_reported};
use crate::sort::{
    key_bound, lemma_key_bound, lemma_sort_desc_members, lemma_sort_desc_shape, lemma_sort_desc_strict,
    sort_desc_between,
};
use crate::suggestion::{spec_apply, SuggestionV};

verus! {

/// The text that suggestion `sg` puts in place of `s[start..end]`.
pub open spec fn fix_text(sg: SuggestionV, start: int, end: int, s: Seq<char>) -> Seq<char> {
    match sg {
        SuggestionV::ReplaceWith(c) => c,
        SuggestionV::InsertAfter(c) => s.subrange(start, end) + c,
        SuggestionV::Remove => Seq::empty(),
    }
}

/// Lints ordered from the end of the text backwards, none sharing a
/// character with another, each within `[0, n]` and carrying a suggestion.
pub open spec fn backwards_disjoint(lints: Seq<LintV>, n: int) -> bool {
    &&& forall|a: int| 0 <= a < lints.len() ==> 0 <= (#[trigger] lints[a]).start <= lints[a].end <= n
    &&& forall|a: int| 0 <= a < lints.len() ==> (#[trigger] lints[a]).suggestions.len() > 0
    &&& forall|a: int, b: int| 0 <= a < b < lints.len() ==> (#[trigger] lints[b]).end <= (#[trigger] lints[a]).start
}

/// `s` with the span of each lint (ordered from the end backwards) replaced
/// at once by the text its first suggestion proposes.
pub open spec fn splice_backwards(s: Seq<char>, lints: Seq<LintV>) -> Seq<char>
    decreases lints.len(),
{
    if lints.len() == 0 {
        s
    } else {
        let l = lints[0];
        splice_backwards(s.take(l.start), lints.drop_first()) + fix_text(l.suggestions[0], l.start, l.end, s) + s.skip(
            l.end,
        )
    }
}

/// A suggestion applied within a prefix leaves what follows untouched.
proof fn lemma_apply_in_prefix(sg: SuggestionV, start: int, end: int, t: Seq<char>, u: Seq<char>)
    requires
        0 <= start <= end <= t.len(),
    ensures
        spec_apply(sg, start, end, t + u) == spec_apply(sg, start, end, t) + u,
        spec_apply(sg, start, end, t) == t.take(start) + fix_text(sg, start, end, t) + t.skip(end),
        spec_apply(sg, start, end, t).len() >= start,
{
    let tu = t + u;
    assert(tu.take(start) =~= t.take(start));
    assert(tu.take(end) =~= t.take(end));
    assert(tu.skip(end) =~= t.skip(end) + u);
    assert(tu.subrange(start, end) =~= t.subrange(start, end));
    assert(t.take(end) =~= t.take(start) + t.subrange(start, end));
    match sg {
        SuggestionV::ReplaceWith(c) => {
            assert(spec_apply(sg, start, end, tu) =~= spec_apply(sg, start, end, t) + u);
        },
        SuggestionV::InsertAfter(c) => {
            assert(spec_apply(sg, start, end, tu) =~= spec_apply(sg, start, end, t) + u);
            assert(spec_apply(sg, start, end, t) =~= t.take(start) + fix_text(sg, start, end, t) + t.skip(end));
        },
        SuggestionV::Remove => {
            assert(spec_apply(sg, start, end, tu) =~= spec_apply(sg, start, end, t) + u);
            assert(spec_apply(sg, start, end, t) =~= t.take(start) + fix_text(sg, start, end, t) + t.skip(end));
        },
    }
}

/// Lints that all end within a prefix `t` change only that prefix.
proof fn lemma_apply_order_in_prefix(t: Seq<char>, u: Seq<char>, lints: Seq<LintV>)
    requires
        backwards_disjoint(lints, t.len() as int),
    ensures
        apply_in_order(t + u, lints).0 == apply_in_order(t, lints).0 + u,
        apply_in_order(t + u, lints).1 == apply_in_order(t, lints).1,
        apply_in_order(t, lints).1 == lints.len(),
    decreases lints.len(),
{
    if lints.len() > 0 {
        let l = lints[0];
        let rest = lints.drop_first();
        lemma_apply_in_prefix(l.suggestions[0], l.start, l.end, t, u);
        let t1 = spec_apply(l.suggestions[0], l.start, l.end, t);
        assert forall|a: int| 0 <= a < rest.len() implies 0 <= (#[trigger] rest[a]).start <= rest[a].end <= t1.len() by {
            assert(rest[a] == lints[a + 1]);
        }
        assert forall|a: int| 0 <= a < rest.len() implies (#[trigger] rest[a]).suggestions.len() > 0 by {
            assert(rest[a] == lints[a + 1]);
        }
        assert forall|a: int, b: int| 0 <= a < b < rest.len() implies (#[trigger] rest[b]).end <= (#[trigger] rest[a]).start by {
            assert(rest[a] == lints[a + 1] && rest[b] == lints[b + 1]);
        }
        lemma_apply_order_in_prefix(t1, u, rest);
        assert((t + u).len() == t.len() + u.len());
    }
}

/// Applying fixes from the end of the text backwards keeps the spans of the
/// lints still to come valid: when no two lints share a character, the
/// result is the text with every span replaced at once, and every fix is
/// applied.
pub proof fn lemma_fix_backwards_splices(s: Seq<char>, lints: Seq<LintV>)
    requires
        backwards_disjoint(lints, s.len() as int),
    ensures
        apply_in_order(s, lints).0 == splice_backwards(s, lints),
        apply_in_order(s, lints).1 == lints.len(),
    decreases lints.len(),
{
    if lints.len() > 0 {
        let l = lints[0];
        let rest = lints.drop_first();
        let t = s.take(l.start);
        let u = fix_text(l.suggestions[0], l.start, l.end, s) + s.skip(l.end);
        lemma_apply_in_prefix(l.suggestions[0], l.start, l.end, s, Seq::empty());
        assert(s + Seq::<char>::empty() =~= s);
        assert(spec_apply(l.suggestions[0], l.start, l.end, s) =~= t + u);
        assert forall|a: int| 0 <= a < rest.len() implies 0 <= (#[trigger] rest[a]).start <= rest[a].end <= t.len() by {
            assert(rest[a] == lints[a + 1]);
        }
        assert forall|a: int| 0 <= a < rest.len() implies (#[trigger] rest[a]).suggestions.len() > 0 by {
            assert(rest[a] == lints[a + 1]);
        }
        assert forall|a: int, b: int| 0 <= a < b < rest.len() implies (#[trigger] rest[b]).end <= (#[trigger] rest[a]).start by {
            assert(rest[a] == lints[a + 1] && rest[b] == lints[b + 1]);
        }
        lemma_apply_order_in_prefix(t, u, rest);
        lemma_fix_backwards_splices(t, rest);
        assert(splice_backwards(s, lints) =~= splice_backwards(t, rest) + u);
    }
}

/// With no rule named `Zh...`, there is no safe lint.
proof fn lemma_no_safe_lints(named: Seq<(Seq<char>, Seq<LintV>)>)
    requires
        forall|i: int| 0 <= i < named.len() ==> !starts_with_zh(#[trigger] named[i].0),
    ensures
        safe_lints(named) == Seq::<LintV>::empty(),
    decreases named.len(),
{
    if named.len() > 0 {
        let d = named.drop_last();
        assert forall|i: int| 0 <= i < d.len() implies !starts_with_zh(#[trigger] d[i].0) by {
            assert(d[i] == named[i]);
        }
        lemma_no_safe_lints(d);
        assert(!starts_with_zh(named[named.len() - 1].0));
    }
}

/// Only the rules whose names begin with `Zh` are fixed automatically: when
/// no rule has such a name, fixing changes nothing.
pub proof fn lemma_only_safe_rules_fixed(named: Seq<(Seq<char>, Seq<LintV>)>, s: Seq<char>)
    requires
        forall|i: int| 0 <= i < named.len() ==> !starts_with_zh(#[trigger] named[i].0),
    ensures
        apply_in_order(s, safe_lints_backwards(named)) == (s, 0nat),
{
    lemma_no_safe_lints(named);
    let key = lint_start_key();
    assert(key_bound(safe_lints(named), key) == 0);
    assert(sort_desc_between(safe_lints(named), key, 0, 0) =~= Seq::<LintV>::empty());
}

/// The safe lints lie within `[0, n]`, none empty, each with a suggestion,
/// and no two share a character.
pub open spec fn safe_lints_fixable(named: Seq<(Seq<char>, Seq<LintV>)>, n: int) -> bool {
    &&& forall|a: int|
        0 <= a < safe_lints(named).len() ==> 0 <= (#[trigger] safe_lints(named)[a]).start < safe_lints(named)[a].end
            <= n
    &&& forall|a: int| 0 <= a < safe_lints(named).len() ==> (#[trigger] safe_lints(named)[a]).suggestions.len() > 0
    &&& forall|a: int, b: int|
        0 <= a < b < safe_lints(named).len() ==> !spec_spans_overlap(
            (#[trigger] safe_lints(named)[a]).start,
            safe_lints(named)[a].end,
            (#[trigger] safe_lints(named)[b]).start,
            safe_lints(named)[b].end,
        )
}

/// Fixing applies every safe lint, and only those: when the safe lints are
/// non-empty, within the text, each with a suggestion, and no two of them
/// share a character, the fixed text is the given text with the span of
/// each safe lint replaced at once by its first suggestion.
pub proof fn lemma_safe_fix_is_splice(named: Seq<(Seq<char>, Seq<LintV>)>, s: Seq<char>)
    requires
        safe_lints_fixable(named, s.len() as int),
    ensures
        backwards_disjoint(safe_lints_backwards(named), s.len() as int),
        forall|a: int|
            0 <= a < safe_lints(named).len() ==> safe_lints_backwards(named).contains(#[trigger] safe_lints(named)[a]),
        forall|a: int|
            0 <= a < safe_lints_backwards(named).len() ==> safe_lints(named).contains(
                #[trigger] safe_lints_backwards(named)[a],
            ),
        apply_in_order(s, safe_lints_backwards(named)).0 == splice_backwards(s, safe_lints_backwards(named)),
        apply_in_order(s, safe_lints_backwards(named)).1 == safe_lints_backwards(named).len(),
{
    let sl = safe_lints(named);
    let key = lint_start_key();
    let hi = key_bound(sl, key);
    let t = safe_lints_backwards(named);
    assert(t == sort_desc_between(sl, key, 0, hi));
    assert forall|a: int, b: int| 0 <= a < b < sl.len() implies key(#[trigger] sl[a]) != key(#[trigger] sl[b]) by {
        assert(!spec_spans_overlap(sl[a].start, sl[a].end, sl[b].start, sl[b].end));
    }
    lemma_key_bound(sl, key);
    lemma_sort_desc_strict(sl, key, 0, hi);
    lemma_sort_desc_shape(sl, key, 0, hi);
    lemma_sort_desc_members(sl, key, 0, hi);
    assert forall|a: int| 0 <= a < sl.len() implies t.contains(#[trigger] sl[a]) by {
        assert(key(sl[a]) < hi);
    }
    assert forall|a: int| 0 <= a < t.len() implies 0 <= (#[trigger] t[a]).start <= t[a].end <= s.len()
        && t[a].suggestions.len() > 0 by {
        assert(sl.contains(t[a]));
    }
    assert forall|a: int, b: int| 0 <= a < b < t.len() implies (#[trigger] t[b]).end <= (#[trigger] t[a]).start by {
        assert(key(t[a]) > key(t[b]));
        assert(sl.contains(t[a]) && sl.contains(t[b]));
        let x = choose|x: int| 0 <= x < sl.len() && sl[x] == t[a];
        let y = choose|y: int| 0 <= y < sl.len() && sl[y] == t[b];
        assert(x != y);
        if x < y {
            assert(!spec_spans_overlap(sl[x].start, sl[x].end, sl[y].start, sl[y].end));
        } else {
            assert(!spec_spans_overlap(sl[y].start, sl[y].end, sl[x].start, sl[x].end));
        }
    }
    lemma_fix_backwards_splices(s, t);
}

/// A round that applies nothing met only lints with no suggestion or beyond the text.
proof fn lemma_nothing_applied(c: Seq<char>, lints: Seq<LintV>)
    requires
        apply_in_order(c, lints).1 == 0,
    ensures
        forall|a: int|
            0 <= a < lints.len() ==> (#[trigger] lints[a]).suggestions.len() == 0 || lints[a].end > c.len()
                || lints[a].start > c.len(),
    decreases lints.len(),
{
    if lints.len() > 0 {
        let l = lints[0];
        assert(l.suggestions.len() == 0 || l.end > c.len() || l.start > c.len());
        lemma_nothing_applied(c, lints.drop_first());
        assert forall|a: int| 0 < a < lints.len() implies (#[trigger] lints[a]).suggestions.len() == 0
            || lints[a].end > c.len() || lints[a].start > c.len() by {
            assert(lints[a] == lints.drop_first()[a - 1]);
        }
    }
}

/// Each safe lint is a lint of some rule whose name begins with `Zh`.
spec fn lint_of_safe_rule(named: Seq<(Seq<char>, Seq<LintV>)>, l: LintV) -> bool {
    exists|i: int, j: int|
        0 <= i < named.len() && 0 <= j < named[i].1.len() && starts_with_zh(named[i].0) && l == #[trigger] named[i].1[j]
}

proof fn lemma_safe_lints_of_rules(named: Seq<(Seq<char>, Seq<LintV>)>)
    ensures
        forall|a: int| 0 <= a < safe_lints(named).len() ==> lint_of_safe_rule(named, #[trigger] safe_lints(named)[a]),
    decreases named.len(),
{
    if named.len() > 0 {
        let d = named.drop_last();
        lemma_safe_lints_of_rules(d);
        let rest = safe_lints(d);
        let last = named.len() - 1;
        assert forall|a: int| 0 <= a < safe_lints(named).len() implies lint_of_safe_rule(
            named,
            #[trigger] safe_lints(named)[a],
        ) by {
            let l = safe_lints(named)[a];
            if a < rest.len() {
                if starts_with_zh(named[last].0) {
                    assert(l == rest[a]);
                } else {
                    assert(l == rest[a]);
                }
                assert(lint_of_safe_rule(d, rest[a]));
                let (i, j) = choose|i: int, j: int|
                    0 <= i < d.len() && 0 <= j < d[i].1.len() && starts_with_zh(d[i].0) && rest[a] == #[trigger] d[i].1[j];
                assert(d[i] == named[i]);
                assert(0 <= i < named.len() && 0 <= j < named[i].1.len() && starts_with_zh(named[i].0) && l == named[i].1[j]);
            } else {
                assert(starts_with_zh(named[last].0));
                assert(l == named[last].1[a - rest.len()]);
                assert(0 <= last < named.len() && 0 <= a - rest.len() < named[last].1.len());
            }
        }
    }
}

/// In `text`, no rule whose name begins with `Zh` reports anything.
pub open spec fn no_safe_lint_left(
    rules: Seq<(Seq<char>, ZhLinterV)>,
    settings: Seq<(Seq<char>, bool)>,
    text: Seq<char>,
    keep_overlapping: bool,
) -> bool {
    safe_lints(spec_reported(rules, settings, text, keep_overlapping)).len() == 0
}

/// Fixing in rounds goes on until nothing is left to fix: unless every round
/// allowed was used (each applying at least one fix), linting the fixed text
/// again reports no lint of a rule that is fixed automatically.
pub proof fn lemma_fix_rounds_fixed_point(
    rules: Seq<(Seq<char>, ZhLinterV)>,
    settings: Seq<(Seq<char>, bool)>,
    text: Seq<char>,
    rounds: nat,
    keep_overlapping: bool,
)
    ensures
        spec_fix_rounds(rules, settings, text, rounds, keep_overlapping).1 < rounds ==> no_safe_lint_left(
            rules,
            settings,
            spec_fix_rounds(rules, settings, text, rounds, keep_overlapping).0,
            keep_overlapping,
        ),
    decreases rounds,
{
    if rounds > 0 {
        let named = spec_reported(rules, settings, text, keep_overlapping);
        let r = apply_in_order(text, safe_lints_backwards(named));
        if r.1 == 0 {
            let sl = safe_lints(named);
            let key = lint_start_key();
            let hi = key_bound(sl, key);
            let t = safe_lints_backwards(named);
            assert(t == sort_desc_between(sl, key, 0, hi));
            lemma_nothing_applied(text, t);
            lemma_key_bound(sl, key);
            lemma_sort_desc_shape(sl, key, 0, hi);
            lemma_safe_lints_of_rules(named);
            lemma_reported_within(rules, settings, text, keep_overlapping);
            assert forall|a: int| 0 <= a < sl.len() implies (#[trigger] sl[a]).suggestions.len() == 0 by {
                assert(lint_of_safe_rule(named, sl[a]));
                let (i, j) = choose|i: int, j: int|
                    0 <= i < named.len() && 0 <= j < named[i].1.len() && starts_with_zh(named[i].0) && sl[a]
                        == #[trigger] named[i].1[j];
                assert(0 <= named[i].1[j].start < named[i].1[j].end <= text.len());
                assert(key(sl[a]) < hi);
                assert(t.contains(sl[a]));
                let w = choose|w: int| 0 <= w < t.len() && t[w] == sl[a];
                assert(t[w].suggestions.len() == 0 || t[w].end > text.len() || t[w].start > text.len());
            }
            if sl.len() > 0 {
                assert(sl[0].suggestions.len() == 0);
                assert(lint_of_safe_rule(named, sl[0]));
                let (i, j) = choose|i: int, j: int|
                    0 <= i < named.len() && 0 <= j < named[i].1.len() && starts_with_zh(named[i].0) && sl[0]
                        == #[trigger] named[i].1[j];
                assert(named[i].1[j].suggestions.len() == 1);
            }
        } else {
            lemma_fix_rounds_fixed_point(rules, settings, r.0, (rounds - 1) as nat, keep_overlapping);
        }
    }
}

} // verus!
