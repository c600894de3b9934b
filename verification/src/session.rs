//! Linting one input: the lints of a group, the safe fixes applied in
//! rounds, and how a run ends.

use vstd::prelude::*;

use crate::cli::{apply_first_suggestions, apply_in_order, safe_lints_backwards, spans_ordered, starts_with_zh};
use crate::lint::{Document, Lint};
use crate::lint_group::{lemma_named_lints_within, named_lints_view, spec_named_lints, LintGroup, ZhLinterV};
use crate::lint::LintV;
use crate::lint_kind::LintKind;
use crate::overlaps::{lemma_remove_overlaps_keeps_rules, remove_overlaps, spec_remove_overlaps};
use crate::stats::{lint_total, pair_counts, PairCounts};

verus! {

/// The number of lints over all rules, if it fits in a `usize`.
pub fn lint_count(named_lints: &Vec<(String, Vec<Lint>)>) -> (r: Option<usize>)
    ensures
        r matches Some(n) ==> n == lint_total(named_lints_view(named_lints@)),
        r is None ==> lint_total(named_lints_view(named_lints@)) > usize::MAX,
{
    let ghost nv = named_lints_view(named_lints@);
    let mut total: usize = 0;
    let mut i: usize = 0;
    while i < named_lints.len()
        invariant
            i <= nv.len(),
            nv == named_lints_view(named_lints@),
            total == lint_total(nv.take(i as int)),
        decreases named_lints.len() - i,
    {
        proof {
            assert(nv.take(i + 1).drop_last() =~= nv.take(i as int));
        }
        let n = named_lints[i].1.len();
        match total.checked_add(n) {
            Some(t) => {
                total = t;
            },
            None => {
                proof {
                    lemma_lint_total_prefix(nv, i + 1);
                }
                return None;
            },
        }
        i = i + 1;
    }
    assert(nv.take(nv.len() as int) =~= nv);
    Some(total)
}

proof fn lemma_lint_total_prefix(n: Seq<(Seq<char>, Seq<crate::lint::LintV>)>, i: int)
    requires
        0 <= i <= n.len(),
    ensures
        lint_total(n.take(i)) <= lint_total(n),
    decreases n.len() - i,
{
    if i < n.len() {
        lemma_lint_total_prefix(n, i + 1);
        assert(n.take(i + 1).drop_last() =~= n.take(i));
    } else {
        assert(n.take(i) =~= n);
    }
}

/// The rules that are not fixed automatically, with their lints.
pub open spec fn unsafe_rules(named: Seq<(Seq<char>, Seq<crate::lint::LintV>)>) -> Seq<(Seq<char>, Seq<crate::lint::LintV>)> {
    named.filter(|e: (Seq<char>, Seq<crate::lint::LintV>)| !starts_with_zh(e.0))
}

/// Keep only the rules that are not fixed automatically, so that what is
/// left to report after fixing stands out.
pub fn keep_unsafe_rules(named_lints: Vec<(String, Vec<Lint>)>) -> (r: Vec<(String, Vec<Lint>)>)
    ensures
        named_lints_view(r@) == unsafe_rules(named_lints_view(named_lints@)),
{
    let ghost nv = named_lints_view(named_lints@);
    let mut out: Vec<(String, Vec<Lint>)> = Vec::new();
    let mut rest = named_lints;
    let ghost all = rest@;
    // Take the entries from the back, then restore their order.
    let mut kept_rev: Vec<(String, Vec<Lint>)> = Vec::new();
    let mut n: usize = rest.len();
    proof {
        assert(all.take(n as int) =~= all);
        assert(nv.take(n as int) =~= nv);
        assert(named_lints_view(kept_rev@).reverse() =~= Seq::<(Seq<char>, Seq<crate::lint::LintV>)>::empty());
        assert(unsafe_rules(nv.take(n as int)) + named_lints_view(kept_rev@).reverse() =~= unsafe_rules(nv));
    }
    while n > 0
        invariant
            n == rest@.len(),
            n <= all.len(),
            rest@ == all.take(n as int),
            nv == named_lints_view(all),
            unsafe_rules(nv.take(n as int)) + named_lints_view(kept_rev@).reverse() == unsafe_rules(nv),
        decreases n,
    {
        let e = rest.pop().unwrap();
        proof {
            reveal_with_fuel(Seq::filter, 1);
            assert(nv.take(n as int).drop_last() =~= nv.take(n - 1));
            assert(nv[n - 1] == (e.0@, crate::lint::lints_view(e.1@)));
            assert(all.take(n - 1) =~= all.take(n as int).drop_last());
        }
        let zh = crate::cli::is_safe_auto_fix_rule(e.0.as_str());
        if zh {
            proof {
                assert(unsafe_rules(nv.take(n as int)) =~= unsafe_rules(nv.take(n - 1)));
            }
        } else {
            let ghost before = kept_rev@;
            kept_rev.push(e);
            proof {
                assert(named_lints_view(kept_rev@) =~= named_lints_view(before).push(nv[n - 1]));
                assert(named_lints_view(kept_rev@).reverse() =~= seq![nv[n - 1]] + named_lints_view(before).reverse());
                assert(unsafe_rules(nv.take(n as int)) =~= unsafe_rules(nv.take(n - 1)).push(nv[n - 1]));
                assert(unsafe_rules(nv.take(n - 1)) + named_lints_view(kept_rev@).reverse()
                    =~= unsafe_rules(nv.take(n as int)) + named_lints_view(before).reverse());
            }
        }
        n = n - 1;
    }
    assert(nv.take(0) =~= Seq::<(Seq<char>, Seq<crate::lint::LintV>)>::empty());
    assert(unsafe_rules(nv.take(0)) =~= Seq::<(Seq<char>, Seq<crate::lint::LintV>)>::empty());
    assert(unsafe_rules(nv.take(0)) + named_lints_view(kept_rev@).reverse() =~= named_lints_view(kept_rev@).reverse());
    let ghost kr = named_lints_view(kept_rev@);
    while kept_rev.len() > 0
        invariant
            named_lints_view(out@) + named_lints_view(kept_rev@).reverse() == kr.reverse(),
        decreases kept_rev.len(),
    {
        let ghost before_out = out@;
        let ghost before_rev = kept_rev@;
        let e = kept_rev.pop().unwrap();
        out.push(e);
        proof {
            assert(named_lints_view(before_rev).reverse() =~= seq![named_lints_view(before_rev).last()]
                + named_lints_view(kept_rev@).reverse());
            assert(named_lints_view(out@) =~= named_lints_view(before_out).push(named_lints_view(before_rev).last()));
            assert(named_lints_view(out@) + named_lints_view(kept_rev@).reverse() =~= named_lints_view(before_out)
                + named_lints_view(before_rev).reverse());
        }
    }
    assert(named_lints_view(out@) =~= kr.reverse());
    assert(named_lints_view(out@) + named_lints_view(kept_rev@).reverse() =~= named_lints_view(out@));
    out
}

/// The lints a group reports for `text`, rule by rule: all of them, or,
/// unless overlapping lints are kept, those left after overlap removal.
pub open spec fn spec_reported(
    rules: Seq<(Seq<char>, ZhLinterV)>,
    settings: Seq<(Seq<char>, bool)>,
    text: Seq<char>,
    keep_overlapping: bool,
) -> Seq<(Seq<char>, Seq<LintV>)> {
    if keep_overlapping {
        spec_named_lints(rules, settings, text)
    } else {
        spec_remove_overlaps(spec_named_lints(rules, settings, text))
    }
}

/// Every reported lint covers a non-empty part of the text and offers one fix.
pub proof fn lemma_reported_within(
    rules: Seq<(Seq<char>, ZhLinterV)>,
    settings: Seq<(Seq<char>, bool)>,
    text: Seq<char>,
    keep_overlapping: bool,
)
    ensures
        forall|i: int, j: int|
            0 <= i < spec_reported(rules, settings, text, keep_overlapping).len() && 0 <= j < spec_reported(
                rules,
                settings,
                text,
                keep_overlapping,
            )[i].1.len() ==> {
                let l = #[trigger] spec_reported(rules, settings, text, keep_overlapping)[i].1[j];
                0 <= l.start < l.end <= text.len() && l.suggestions.len() == 1
            },
{
    let named = spec_named_lints(rules, settings, text);
    lemma_named_lints_within(rules, settings, text);
    if !keep_overlapping {
        lemma_remove_overlaps_keeps_rules(named);
        let rep = spec_remove_overlaps(named);
        assert forall|i: int, j: int| 0 <= i < rep.len() && 0 <= j < rep[i].1.len() implies {
            let l = #[trigger] rep[i].1[j];
            0 <= l.start < l.end <= text.len() && l.suggestions.len() == 1
        } by {
            assert(named[i].1.contains(rep[i].1[j]));
            let w = choose|w: int| 0 <= w < named[i].1.len() && named[i].1[w] == rep[i].1[j];
            assert(named[i].1[w].start < named[i].1[w].end);
        }
    }
}

/// Two rule lists of one length, each rule of the first with at most as many
/// lints as the same rule of the second, have at most as many lints in all.
proof fn lemma_total_le(a: Seq<(Seq<char>, Seq<LintV>)>, b: Seq<(Seq<char>, Seq<LintV>)>)
    requires
        a.len() == b.len(),
        forall|i: int| 0 <= i < a.len() ==> (#[trigger] a[i]).1.len() <= b[i].1.len(),
    ensures
        lint_total(a) <= lint_total(b),
    decreases a.len(),
{
    if a.len() > 0 {
        let (da, db) = (a.drop_last(), b.drop_last());
        assert forall|i: int| 0 <= i < da.len() implies (#[trigger] da[i]).1.len() <= db[i].1.len() by {
            assert(da[i] == a[i] && db[i] == b[i]);
        }
        lemma_total_le(da, db);
        assert(a.last().1.len() <= b.last().1.len()) by {
            assert(a[a.len() - 1] == a.last());
        }
    }
}

/// Fixing `text` with the rules of a group for up to `rounds` rounds: each
/// round lints the current text (removing overlapping lints unless they are
/// kept) and applies the first suggestion of each safe lint (rules in the
/// order of their names); fixing stops once a round changes nothing. The
/// result is the text and the number of fixes applied.
pub open spec fn spec_fix_rounds(
    rules: Seq<(Seq<char>, ZhLinterV)>,
    settings: Seq<(Seq<char>, bool)>,
    text: Seq<char>,
    rounds: nat,
    keep_overlapping: bool,
) -> (Seq<char>, nat)
    decreases rounds,
{
    if rounds == 0 {
        (text, 0)
    } else {
        let r = apply_in_order(text, safe_lints_backwards(spec_reported(rules, settings, text, keep_overlapping)));
        if r.1 == 0 {
            (text, 0)
        } else {
            let rest = spec_fix_rounds(rules, settings, r.0, (rounds - 1) as nat, keep_overlapping);
            (rest.0, r.1 + rest.1)
        }
    }
}

/// Apply the safe fixes of `group` to `source` in up to `rounds` rounds
/// (fixes can make new ones possible), removing overlapping lints first in
/// each round unless they are kept; returns the fixed text and the number of
/// fixes applied (at most `usize::MAX`).
pub fn fix_rounds(group: &LintGroup, source: &str, rounds: usize, keep_overlapping: bool) -> (r: (String, usize))
    ensures
        r.0@ == spec_fix_rounds(group.rules(), group.settings(), source@, rounds as nat, keep_overlapping).0,
        r.1 as nat == if spec_fix_rounds(group.rules(), group.settings(), source@, rounds as nat, keep_overlapping).1
            <= usize::MAX {
            spec_fix_rounds(group.rules(), group.settings(), source@, rounds as nat, keep_overlapping).1
        } else {
            usize::MAX as nat
        },
{
    let ghost goal = spec_fix_rounds(group.rules(), group.settings(), source@, rounds as nat, keep_overlapping);
    let mut text = String::from_str(source);
    let mut total: usize = 0;
    let ghost mut acc: nat = 0;
    let mut left: usize = rounds;
    loop
        invariant_except_break
            goal == spec_fix_rounds(group.rules(), group.settings(), source@, rounds as nat, keep_overlapping),
            goal.0 == spec_fix_rounds(group.rules(), group.settings(), text@, left as nat, keep_overlapping).0,
            goal.1 == acc + spec_fix_rounds(group.rules(), group.settings(), text@, left as nat, keep_overlapping).1,
            total as nat == if acc <= usize::MAX { acc } else { usize::MAX as nat },
        ensures
            goal.0 == text@,
            goal.1 == acc,
            total as nat == if acc <= usize::MAX { acc } else { usize::MAX as nat },
        decreases left,
    {
        if left == 0 {
            break;
        }
        let doc = Document::new_plain(text.as_str());
        let mut named = group.organized_lints(&doc);
        if !keep_overlapping {
            named = remove_overlaps(&named);
        }
        proof {
            lemma_reported_within(group.rules(), group.settings(), text@, keep_overlapping);
            let nv = named_lints_view(named@);
            assert(nv == spec_reported(group.rules(), group.settings(), text@, keep_overlapping));
            assert forall|i: int, j: int| 0 <= i < nv.len() && starts_with_zh(nv[i].0) && 0 <= j < nv[i].1.len()
                implies #[trigger] nv[i].1[j].start <= nv[i].1[j].end by {
                assert(nv[i].1[j] == spec_reported(group.rules(), group.settings(), text@, keep_overlapping)[i].1[j]);
            }
            assert(spans_ordered(nv));
        }
        let (fixed, applied) = apply_first_suggestions(&named, text.as_str());
        if applied == 0 {
            break;
        }
        proof {
            acc = acc + applied as nat;
        }
        total = total.saturating_add(applied);
        text = fixed;
        left = left - 1;
    }
    (text, total)
}

/// How a run ends.
#[derive(Debug, Clone, Copy, PartialEq, Eq, Structural)]
pub enum RunOutcome {
    /// Nothing was found.
    Clean,
    /// After fixing, only spelling hints of rules that are not fixed
    /// automatically remain; the run succeeds.
    OnlySuggestions,
    /// Problems remain that need a person; the run fails.
    NeedsAttention,
}

/// A lint of kind `k` under rule `rule` is a mere suggestion once fixing is done.
pub open spec fn is_suggestion(k: LintKind, rule: Seq<char>) -> bool {
    k == LintKind::Spelling && !starts_with_zh(rule)
}

/// How a run ends, given whether it fixed and the (kind, rule) counts of what remains.
pub open spec fn spec_run_outcome(fix: bool, remaining: Map<(LintKind, Seq<char>), nat>) -> RunOutcome {
    if remaining.dom().is_empty() {
        RunOutcome::Clean
    } else if fix && forall|p: (LintKind, Seq<char>)| #[trigger] remaining.contains_key(p) ==> is_suggestion(p.0, p.1) {
        RunOutcome::OnlySuggestions
    } else {
        RunOutcome::NeedsAttention
    }
}

/// How a run ends: clean when nothing remains; fine when fixing left only
/// spelling hints of rules that are not fixed automatically; otherwise
/// problems remain.
pub fn run_outcome(fix: bool, remaining: &PairCounts) -> (r: RunOutcome)
    ensures
        r == spec_run_outcome(fix, pair_counts(*remaining)),
{
    let entries = remaining.entries();
    if entries.len() == 0 {
        proof {
            if !pair_counts(*remaining).dom().is_empty() {
                let p = pair_counts(*remaining).dom().choose();
                assert(pair_counts(*remaining).contains_key(p));
            }
        }
        return RunOutcome::Clean;
    }
    proof {
        assert(pair_counts(*remaining).contains_key((entries@[0].0, entries@[0].1@)));
        assert(!pair_counts(*remaining).dom().is_empty());
    }
    if !fix {
        return RunOutcome::NeedsAttention;
    }
    let mut i: usize = 0;
    while i < entries.len()
        invariant
            i <= entries@.len(),
            forall|q: int| 0 <= q < i ==> is_suggestion((#[trigger] entries@[q]).0, entries@[q].1@),
            forall|q: int| 0 <= q < entries@.len() ==> pair_counts(*remaining).contains_key(((#[trigger] entries@[q]).0, entries@[q].1@)),
        decreases entries.len() - i,
    {
        let suggestion = entries[i].0 == LintKind::Spelling && !crate::cli::is_safe_auto_fix_rule(entries[i].1.as_str());
        if !suggestion {
            proof {
                assert(pair_counts(*remaining).contains_key((entries@[i as int].0, entries@[i as int].1@)));
                assert(!is_suggestion(entries@[i as int].0, entries@[i as int].1@));
            }
            return RunOutcome::NeedsAttention;
        }
        i = i + 1;
    }
    proof {
        assert forall|p: (LintKind, Seq<char>)| #[trigger] pair_counts(*remaining).contains_key(p) implies is_suggestion(p.0, p.1) by {
            let q = choose|q: int| 0 <= q < entries@.len() && (#[trigger] entries@[q]).0 == p.0 && entries@[q].1@ == p.1;
        }
    }
    RunOutcome::OnlySuggestions
}

proof fn lemma_unsafe_total_le(n: Seq<(Seq<char>, Seq<crate::lint::LintV>)>)
    ensures
        lint_total(unsafe_rules(n)) <= lint_total(n),
    decreases n.len(),
{
    reveal_with_fuel(Seq::filter, 1);
    if n.len() > 0 {
        lemma_unsafe_total_le(n.drop_last());
        if !starts_with_zh(n.last().0) {
            assert(unsafe_rules(n) == unsafe_rules(n.drop_last()).push(n.last()));
            assert(unsafe_rules(n).drop_last() =~= unsafe_rules(n.drop_last()));
        }
    }
}

/// What linting one input gives.
pub struct InputLints {
    /// The lints to report, rule by rule.
    pub named_lints: Vec<(String, Vec<Lint>)>,
    /// The number of lints found.
    pub count_before: usize,
    /// The number of lints reported.
    pub count_after: usize,
    /// When fixing: the fixed text and the number of fixes applied.
    pub fixed: Option<(String, usize)>,
}

/// `n` capped at `usize::MAX`.
pub open spec fn capped(n: nat) -> nat {
    if n <= usize::MAX {
        n
    } else {
        usize::MAX as nat
    }
}

/// Lint `source` with the rules of `group`. Overlapping lints are removed
/// unless they are kept. When fixing, the safe fixes are applied in up to
/// `rounds` rounds; once any fix was applied, only the rules that are not
/// fixed automatically are left to report. Gives nothing when the number of
/// lints found does not fit in a `usize`.
pub fn lint_input(group: &LintGroup, source: &str, fix: bool, rounds: usize, keep_overlapping: bool) -> (r: Option<
    InputLints,
>)
    ensures
        r is None <==> lint_total(spec_named_lints(group.rules(), group.settings(), source@)) > usize::MAX,
        r matches Some(x) ==> {
            let named = spec_named_lints(group.rules(), group.settings(), source@);
            let reported = spec_reported(group.rules(), group.settings(), source@, keep_overlapping);
            let fx = spec_fix_rounds(group.rules(), group.settings(), source@, rounds as nat, keep_overlapping);
            &&& x.count_before == lint_total(named)
            &&& fix ==> (x.fixed matches Some(f) && f.0@ == fx.0 && f.1 as nat == capped(fx.1))
            &&& !fix ==> x.fixed is None
            &&& if fix && fx.1 > 0 {
                &&& named_lints_view(x.named_lints@) == unsafe_rules(reported)
                &&& x.count_after == lint_total(unsafe_rules(reported))
            } else {
                &&& named_lints_view(x.named_lints@) == reported
                &&& x.count_after == lint_total(reported)
            }
        },
{
    let doc = Document::new_plain(source);
    let named = group.organized_lints(&doc);
    let count_before = match lint_count(&named) {
        Some(n) => n,
        None => {
            return None;
        },
    };
    let ghost nv = named_lints_view(named@);
    let reported = if keep_overlapping {
        named
    } else {
        remove_overlaps(&named)
    };
    let ghost rv = named_lints_view(reported@);
    proof {
        if !keep_overlapping {
            lemma_remove_overlaps_keeps_rules(nv);
            assert forall|i: int| 0 <= i < rv.len() implies (#[trigger] rv[i]).1.len() <= nv[i].1.len() by {}
            lemma_total_le(rv, nv);
        }
    }
    let count_after = match lint_count(&reported) {
        Some(n) => n,
        None => {
            return None;
        },
    };
    if !fix {
        return Some(InputLints { named_lints: reported, count_before, count_after, fixed: None });
    }
    let (fixed, applied) = fix_rounds(group, source, rounds, keep_overlapping);
    if applied == 0 {
        return Some(InputLints { named_lints: reported, count_before, count_after, fixed: Some((fixed, applied)) });
    }
    let kept = keep_unsafe_rules(reported);
    proof {
        lemma_unsafe_total_le(rv);
    }
    let count_after = match lint_count(&kept) {
        Some(n) => n,
        None => {
            return None;
        },
    };
    Some(InputLints { named_lints: kept, count_before, count_after, fixed: Some((fixed, applied)) })
}

} // verus!
