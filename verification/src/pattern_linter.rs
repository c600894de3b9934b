//! Generic string-pattern linter that scans the raw document source.
//!
//! Chinese text is matched against the character source rather than word
//! tokens: each rule is a list of `bad → good` phrase pairs.

use vstd::prelude::*;

use crate::lint::{lint_start_key, lints_view, sort_lints_by_start, Document, Lint, LintV, Span};
use crate::lint_kind::LintKind;
use crate::sort::{
    bucket, key_bound, lemma_bucket_step, sort_asc_below, sort_desc_between,
};
use crate::suggestion::{Suggestion, SuggestionV};
use crate::text::{copy_chars, find_from, occurs_at};

verus! {

/// One replaceable pattern: bad substring → good substring. A pair whose
/// good text is its bad text guards a correct phrase: no shorter pattern is
/// reported inside it.
#[derive(Debug)]
pub struct PatternPair {
    pub bad: String,
    pub good: String,
    pub message: String,
}

/// The mathematical content of a [`PatternPair`].
pub struct PatternPairV {
    pub bad: Seq<char>,
    pub good: Seq<char>,
    pub message: Seq<char>,
}

impl View for PatternPair {
    type V = PatternPairV;

    open spec fn view(&self) -> PatternPairV {
        PatternPairV { bad: self.bad@, good: self.good@, message: self.message@ }
    }
}

impl Clone for PatternPair {
    fn clone(&self) -> (r: PatternPair)
        ensures
            r@ == self@,
    {
        PatternPair { bad: self.bad.clone(), good: self.good.clone(), message: self.message.clone() }
    }
}

pub open spec fn pairs_view(s: Seq<PatternPair>) -> Seq<PatternPairV> {
    s.map_values(|p: PatternPair| p@)
}

/// A named set of pattern pairs that becomes one rule.
#[derive(Debug)]
pub struct PatternRuleSet {
    pub name: String,
    pub description: String,
    pub lint_kind: LintKind,
    pub priority: u8,
    pub pairs: Vec<PatternPair>,
}

/// The mathematical content of a [`PatternRuleSet`].
pub struct RuleSetV {
    pub name: Seq<char>,
    pub description: Seq<char>,
    pub lint_kind: LintKind,
    pub priority: u8,
    pub pairs: Seq<PatternPairV>,
}

impl View for PatternRuleSet {
    type V = RuleSetV;

    open spec fn view(&self) -> RuleSetV {
        RuleSetV {
            name: self.name@,
            description: self.description@,
            lint_kind: self.lint_kind,
            priority: self.priority,
            pairs: pairs_view(self.pairs@),
        }
    }
}

/// The pattern linter a rule set becomes.
pub open spec fn spec_linter_of(set: RuleSetV) -> PatternLinterV {
    PatternLinterV {
        description: set.description,
        lint_kind: set.lint_kind,
        priority: set.priority,
        pairs: spec_sort_pairs(set.pairs),
    }
}

/// A pattern pair held as characters, ready for matching.
struct CharPattern {
    bad: Vec<char>,
    good: Vec<char>,
    message: String,
}

impl View for CharPattern {
    type V = PatternPairV;

    closed spec fn view(&self) -> PatternPairV {
        PatternPairV { bad: self.bad@, good: self.good@, message: self.message@ }
    }
}

impl CharPattern {
    fn from_pair(p: &PatternPair) -> (r: CharPattern)
        ensures
            r@ == p@,
    {
        CharPattern {
            bad: crate::text::str_to_chars(p.bad.as_str()),
            good: crate::text::str_to_chars(p.good.as_str()),
            message: p.message.clone(),
        }
    }

    fn copy(&self) -> (r: CharPattern)
        ensures
            r@ == self@,
    {
        CharPattern {
            bad: copy_chars(self.bad.as_slice()),
            good: copy_chars(self.good.as_slice()),
            message: self.message.clone(),
        }
    }
}

spec fn char_patterns_view(s: Seq<CharPattern>) -> Seq<PatternPairV> {
    s.map_values(|p: CharPattern| p@)
}

/// The mathematical content of a [`ChinesePatternLinter`].
pub struct PatternLinterV {
    pub description: Seq<char>,
    pub lint_kind: LintKind,
    pub priority: u8,
    pub pairs: Seq<PatternPairV>,
}

/// Linter that finds all non-overlapping occurrences of bad patterns in document source.
///
/// Longer patterns are matched first to reduce partial-match issues.
pub struct ChinesePatternLinter {
    description: String,
    lint_kind: LintKind,
    priority: u8,
    /// Sorted by pattern length (char count) descending.
    pairs: Vec<CharPattern>,
}

impl View for ChinesePatternLinter {
    type V = PatternLinterV;

    closed spec fn view(&self) -> PatternLinterV {
        PatternLinterV {
            description: self.description@,
            lint_kind: self.lint_kind,
            priority: self.priority,
            pairs: char_patterns_view(self.pairs@),
        }
    }
}

/// The key pattern pairs are ordered by: the length of the bad pattern.
pub open spec fn bad_len_key() -> spec_fn(PatternPairV) -> nat {
    |p: PatternPairV| p.bad.len()
}

/// `pairs` by decreasing bad-pattern length; pairs of equal length keep their order.
pub open spec fn spec_sort_pairs(pairs: Seq<PatternPairV>) -> Seq<PatternPairV> {
    sort_desc_between(pairs, bad_len_key(), 0, key_bound(pairs, bad_len_key()))
}

/// Some character of `[from, to)` is already claimed by an earlier match.
pub open spec fn any_used(used: Seq<bool>, from: int, to: int) -> bool {
    exists|k: int| from <= k < to && #[trigger] used[k]
}

/// `used` with `[from, to)` claimed.
pub open spec fn mark_used(used: Seq<bool>, from: int, to: int) -> Seq<bool> {
    Seq::new(used.len(), |k: int| used[k] || (from <= k && k < to))
}

/// Scanning `s` left to right from `pos` for occurrences of `pat`: an
/// occurrence whose characters are all unclaimed is taken (and claimed), and
/// the scan resumes after its end; one that touches a claimed character is
/// passed over, and the scan resumes at the next character. The result is the
/// final claim map and the starts of the occurrences taken.
pub open spec fn scan_pattern(s: Seq<char>, pat: Seq<char>, used: Seq<bool>, pos: int) -> (Seq<bool>, Seq<int>)
    decreases s.len() - pos,
{
    if pat.len() == 0 || pos < 0 || pos + pat.len() > s.len() {
        (used, Seq::empty())
    } else if occurs_at(s, pat, pos) {
        if any_used(used, pos, pos + pat.len()) {
            scan_pattern(s, pat, used, pos + 1)
        } else {
            let r = scan_pattern(s, pat, mark_used(used, pos, pos + pat.len()), pos + pat.len());
            (r.0, seq![pos] + r.1)
        }
    } else {
        scan_pattern(s, pat, used, pos + 1)
    }
}

/// The lint reported for an occurrence of `p` at `start`.
pub open spec fn pair_lint(p: PatternPairV, kind: LintKind, priority: u8, start: int) -> LintV {
    LintV {
        start: start,
        end: start + p.bad.len(),
        kind: kind,
        suggestions: seq![SuggestionV::ReplaceWith(p.good)],
        message: p.message,
        priority: priority,
    }
}

pub open spec fn pair_lints(p: PatternPairV, kind: LintKind, priority: u8, starts: Seq<int>) -> Seq<LintV> {
    starts.map_values(|st: int| pair_lint(p, kind, priority, st))
}

/// The lints a scan reports: none for a guard, one per occurrence taken otherwise.
spec fn emitted(guard: bool, p: PatternPairV, kind: LintKind, priority: u8, starts: Seq<int>) -> Seq<LintV> {
    if guard {
        Seq::empty()
    } else {
        pair_lints(p, kind, priority, starts)
    }
}

/// A pair is reported when its bad pattern is non-empty and differs from its fix.
pub open spec fn pair_active(p: PatternPairV) -> bool {
    p.bad.len() > 0 && p.bad != p.good
}

/// A pair whose non-empty pattern is its own fix guards a correct phrase:
/// its occurrences are claimed, so that no shorter pattern is reported
/// inside them, and nothing is reported for them.
pub open spec fn pair_guard(p: PatternPairV) -> bool {
    p.bad.len() > 0 && p.bad == p.good
}

/// The lints of pairs `i..` in order, each pair scanning the whole source
/// with the claims left by the pairs before it.
pub open spec fn scan_pairs(
    s: Seq<char>,
    pairs: Seq<PatternPairV>,
    kind: LintKind,
    priority: u8,
    i: int,
    used: Seq<bool>,
) -> Seq<LintV>
    decreases pairs.len() - i,
{
    if i < 0 || i >= pairs.len() {
        Seq::empty()
    } else if pair_guard(pairs[i]) {
        scan_pairs(s, pairs, kind, priority, i + 1, scan_pattern(s, pairs[i].bad, used, 0).0)
    } else if !pair_active(pairs[i]) {
        scan_pairs(s, pairs, kind, priority, i + 1, used)
    } else {
        let r = scan_pattern(s, pairs[i].bad, used, 0);
        pair_lints(pairs[i], kind, priority, r.1) + scan_pairs(s, pairs, kind, priority, i + 1, r.0)
    }
}

/// No character claimed.
pub open spec fn no_claims(n: nat) -> Seq<bool> {
    Seq::new(n, |k: int| false)
}

/// The lints a pattern linter reports for `s`, ordered by start.
pub open spec fn spec_pattern_lints(l: PatternLinterV, s: Seq<char>) -> Seq<LintV> {
    if s.len() == 0 || l.pairs.len() == 0 {
        Seq::empty()
    } else {
        sort_asc_below(
            scan_pairs(s, l.pairs, l.lint_kind, l.priority, 0, no_claims(s.len())),
            lint_start_key(),
            s.len(),
        )
    }
}

/// Skipping positions where `pat` does not occur leaves the scan unchanged.
proof fn lemma_scan_skip(s: Seq<char>, pat: Seq<char>, used: Seq<bool>, pos: int, q: int)
    requires
        0 <= pos <= q,
        pat.len() > 0,
        forall|k: int| pos <= k < q ==> !occurs_at(s, pat, k),
    ensures
        scan_pattern(s, pat, used, pos) == scan_pattern(s, pat, used, q),
    decreases q - pos,
{
    if pos < q {
        if pos + pat.len() <= s.len() {
            assert(!occurs_at(s, pat, pos));
            lemma_scan_skip(s, pat, used, pos + 1, q);
        }
    }
}

/// A scan from a position after which `pat` never occurs takes nothing.
proof fn lemma_scan_none(s: Seq<char>, pat: Seq<char>, used: Seq<bool>, pos: int)
    requires
        0 <= pos,
        pat.len() > 0,
        forall|k: int| pos <= k ==> !occurs_at(s, pat, k),
    ensures
        scan_pattern(s, pat, used, pos) == (used, Seq::<int>::empty()),
    decreases s.len() - pos,
{
    if pos + pat.len() <= s.len() {
        assert(!occurs_at(s, pat, pos));
        lemma_scan_none(s, pat, used, pos + 1);
    }
}

impl ChinesePatternLinter {
    /// Build a linter from a rule set, ordering its pairs by decreasing
    /// bad-pattern length (pairs of equal length keep their order).
    pub fn from_rule_set(set: PatternRuleSet) -> (r: ChinesePatternLinter)
        ensures
            r@ == spec_linter_of(set@),
    {
        let pairs = sort_patterns(&set.pairs);
        ChinesePatternLinter {
            description: set.description,
            lint_kind: set.lint_kind,
            priority: set.priority,
            pairs,
        }
    }

    pub fn description(&self) -> (r: &str)
        ensures
            r@ == self@.description,
    {
        self.description.as_str()
    }

    /// Every non-overlapping occurrence of the bad patterns, longest patterns
    /// first, ordered by start.
    pub fn lint(&self, document: &Document) -> (r: Vec<Lint>)
        ensures
            lints_view(r@) == spec_pattern_lints(self@, document@),
    {
        let source = document.get_source();
        if source.len() == 0 || self.pairs.len() == 0 {
            return Vec::new();
        }
        let ghost s = source@;
        let ghost pv = char_patterns_view(self.pairs@);
        let mut used: Vec<bool> = Vec::new();
        let mut k: usize = 0;
        while k < source.len()
            invariant
                k <= s.len(),
                s == source@,
                used@ == no_claims(k as nat),
            decreases source.len() - k,
        {
            used.push(false);
            assert(used@ =~= no_claims((k + 1) as nat));
            k = k + 1;
        }
        let ghost total = scan_pairs(s, pv, self.lint_kind, self.priority, 0, used@);
        let mut lints: Vec<Lint> = Vec::new();
        let mut i: usize = 0;
        while i < self.pairs.len()
            invariant
                s == source@,
                pv == char_patterns_view(self.pairs@),
                i <= pv.len(),
                used@.len() == s.len(),
                lints_view(lints@) + scan_pairs(s, pv, self.lint_kind, self.priority, i as int, used@) == total,
                forall|j: int| 0 <= j < lints@.len() ==> (#[trigger] lints@[j]).span.start < s.len(),
            decreases self.pairs.len() - i,
        {
            let pair = &self.pairs[i];
            assert(pv[i as int] == pair@);
            if pair.bad.len() == 0 {
                i = i + 1;
                continue;
            }
            // A pair whose fix is its own pattern only claims its occurrences.
            let guard = crate::text::chars_eq(pair.bad.as_slice(), pair.good.as_slice());
            let bad_len = pair.bad.len();
            let ghost pat = pair.bad@;
            let ghost u0 = used@;
            let ghost r0 = scan_pattern(s, pat, u0, 0);
            let ghost base = lints_view(lints@);
            let ghost mut taken: Seq<int> = Seq::empty();
            assert(pair_lints(pair@, self.lint_kind, self.priority, taken) =~= Seq::<LintV>::empty());
            assert(base + emitted(guard, pair@, self.lint_kind, self.priority, taken) =~= base);
            let mut search_from: usize = 0;
            loop
                invariant_except_break
                    s == source@,
                    s.len() == source.len(),
                    pat == pair.bad@,
                    bad_len == pat.len(),
                    bad_len > 0,
                    used@.len() == s.len(),
                    search_from <= s.len(),
                    scan_pattern(s, pat, used@, search_from as int).0 == r0.0,
                    taken + scan_pattern(s, pat, used@, search_from as int).1 == r0.1,
                    guard == (pair.bad@ == pair.good@),
                    lints_view(lints@) == base + emitted(guard, pair@, self.lint_kind, self.priority, taken),
                    forall|j: int| 0 <= j < lints@.len() ==> (#[trigger] lints@[j]).span.start < s.len(),
                ensures
                    used@ == r0.0,
                    lints_view(lints@) == base + emitted(guard, pair@, self.lint_kind, self.priority, r0.1),
                    used@.len() == s.len(),
                    forall|j: int| 0 <= j < lints@.len() ==> (#[trigger] lints@[j]).span.start < s.len(),
                decreases s.len() - search_from,
            {
                match find_from(source, pair.bad.as_slice(), search_from) {
                    None => {
                        proof {
                            lemma_scan_none(s, pat, used@, search_from as int);
                            assert(taken + Seq::<int>::empty() == taken);
                        }
                        break;
                    },
                    Some(start) => {
                        proof {
                            lemma_scan_skip(s, pat, used@, search_from as int, start as int);
                        }
                        let end = start + bad_len;
                        // Is any character of this occurrence already claimed?
                        let mut claimed = false;
                        let mut c = start;
                        while c < end
                            invariant
                                start <= c <= end,
                                end <= used@.len(),
                                claimed == exists|q: int| start <= q < c && #[trigger] used@[q],
                            decreases end - c,
                        {
                            if used[c] {
                                claimed = true;
                            }
                            c = c + 1;
                        }
                        if claimed {
                            search_from = start + 1;
                        } else {
                            let ghost before = used@;
                            let mut c = start;
                            while c < end
                                invariant
                                    start <= c <= end,
                                    end <= used@.len(),
                                    before.len() == used@.len(),
                                    used@ == Seq::new(before.len(), |q: int| before[q] || (start <= q && q < c)),
                                decreases end - c,
                            {
                                used.set(c, true);
                                assert(used@ =~= Seq::new(before.len(), |q: int| before[q] || (start <= q && q < c + 1)));
                                c = c + 1;
                            }
                            assert(used@ =~= mark_used(before, start as int, end as int));
                            proof {
                                assert(taken.push(start as int) + scan_pattern(s, pat, used@, end as int).1
                                    =~= taken + (seq![start as int] + scan_pattern(s, pat, used@, end as int).1));
                            }
                            if guard {
                                proof {
                                    taken = taken.push(start as int);
                                }
                            } else {
                                let lint = Lint {
                                    span: Span::new(start, end),
                                    lint_kind: self.lint_kind,
                                    suggestions: vec![Suggestion::ReplaceWith(copy_chars(pair.good.as_slice()))],
                                    message: pair.message.clone(),
                                    priority: self.priority,
                                };
                                proof {
                                    let sv = lint@.suggestions;
                                    assert(sv =~= seq![SuggestionV::ReplaceWith(pair@.good)]);
                                    assert(lint@ == pair_lint(pair@, self.lint_kind, self.priority, start as int));
                                    assert(pair_lints(pair@, self.lint_kind, self.priority, taken.push(start as int))
                                        =~= pair_lints(pair@, self.lint_kind, self.priority, taken).push(lint@));
                                    assert(lints_view(lints@.push(lint)) =~= lints_view(lints@).push(lint@));
                                    taken = taken.push(start as int);
                                }
                                lints.push(lint);
                            }
                            search_from = end;
                        }
                    },
                }
            }
            i = i + 1;
            proof {
                if guard {
                    assert(pair_guard(pv[i - 1]));
                    assert(lints_view(lints@) =~= base);
                } else {
                    assert(!pair_guard(pv[i - 1]));
                    assert(pair_active(pv[i - 1]));
                }
                assert(lints_view(lints@) + scan_pairs(s, pv, self.lint_kind, self.priority, i as int, used@)
                    =~= base + scan_pairs(s, pv, self.lint_kind, self.priority, i - 1, u0));
            }
        }
        assert(lints_view(lints@) =~= total);
        sort_lints_by_start(lints, source.len())
    }
}

/// Pattern pairs as characters, by decreasing bad-pattern length; pairs of
/// equal length keep their order.
fn sort_patterns(pairs: &Vec<PatternPair>) -> (r: Vec<CharPattern>)
    ensures
        char_patterns_view(r@) == spec_sort_pairs(pairs_view(pairs@)),
{
    let ghost v = pairs_view(pairs@);
    let ghost key = bad_len_key();
    let mut conv: Vec<CharPattern> = Vec::new();
    let mut top: usize = 0;
    let mut i: usize = 0;
    while i < pairs.len()
        invariant
            i <= pairs@.len(),
            v == pairs_view(pairs@),
            key == bad_len_key(),
            char_patterns_view(conv@) == v.take(i as int),
            key_bound(v.take(i as int), key) == if i == 0 { 0 } else { top + 1 },
        decreases pairs.len() - i,
    {
        let p = CharPattern::from_pair(&pairs[i]);
        proof {
            assert(v.take(i + 1).drop_last() =~= v.take(i as int));
            assert(char_patterns_view(conv@.push(p)) =~= v.take(i + 1));
        }
        if i == 0 || p.bad.len() > top {
            top = p.bad.len();
        }
        conv.push(p);
        i = i + 1;
    }
    assert(v.take(pairs@.len() as int) =~= v);
    let mut out: Vec<CharPattern> = Vec::new();
    if conv.len() == 0 {
        return out;
    }
    let ghost cv = char_patterns_view(conv@);
    let ghost hi: nat = (top + 1) as nat;
    let mut l: usize = top;
    loop
        invariant_except_break
            l <= top,
            cv == char_patterns_view(conv@),
            cv == v,
            hi == top + 1,
            key == bad_len_key(),
            char_patterns_view(out@) == sort_desc_between(v, key, (l + 1) as nat, hi),
        ensures
            char_patterns_view(out@) == sort_desc_between(v, key, 0, hi),
        decreases l,
    {
        let mut k: usize = 0;
        let ghost base = char_patterns_view(out@);
        while k < conv.len()
            invariant
                k <= conv@.len(),
                cv == char_patterns_view(conv@),
                key == bad_len_key(),
                char_patterns_view(out@) == base + bucket(cv.take(k as int), key, l as nat),
            decreases conv.len() - k,
        {
            proof {
                lemma_bucket_step(cv, key, l as nat, k as int);
            }
            if conv[k].bad.len() == l {
                let c = conv[k].copy();
                proof {
                    assert(cv[k as int] == conv@[k as int]@);
                    assert(char_patterns_view(out@.push(c)) =~= char_patterns_view(out@).push(c@));
                }
                out.push(c);
            }
            k = k + 1;
        }
        assert(cv.take(conv@.len() as int) =~= cv);
        if l == 0 {
            break;
        }
        l = l - 1;
    }
    out
}

} // verus!
