//! Chinese punctuation style rules (ellipsis, ASCII punctuation between Han characters).

use vstd::prelude::*;

use crate::lint::{lint_start_key, lints_view, sort_lints_by_start, Document, Lint, LintV, Span};
use crate::lint_kind::LintKind;
use crate::script::{is_han, spec_is_han};
use crate::sort::{lemma_sort_asc_complete, lemma_sort_asc_members, sort_asc_below};
use crate::suggestion::{Suggestion, SuggestionV};
use crate::text::{find_from, occurs_at};

verus! {

/// Flags common Chinese punctuation issues.
pub struct ChinesePunctuation {
    description: String,
}

impl View for ChinesePunctuation {
    type V = Seq<char>;

    /// The rule's description.
    closed spec fn view(&self) -> Seq<char> {
        self.description@
    }
}

pub open spec fn punctuation_description() -> Seq<char> {
    "中文标点与中英标点混用建议。"@
}

pub open spec fn ideographic_triple_period() -> Seq<char> {
    seq!['。', '。', '。']
}

pub open spec fn ascii_triple_period() -> Seq<char> {
    seq!['.', '.', '.']
}

pub open spec fn chinese_ellipsis() -> Seq<char> {
    seq!['…', '…']
}

pub open spec fn msg_triple_period() -> Seq<char> {
    "中文省略号宜用「……」，而不是连续三个「。」。"@
}

pub open spec fn msg_ascii_ellipsis() -> Seq<char> {
    "中文语境中省略号宜用「……」。"@
}

pub open spec fn msg_ascii_comma() -> Seq<char> {
    "中文句子中宜使用中文逗号「，」。"@
}

pub open spec fn msg_ascii_period() -> Seq<char> {
    "中文句子中宜使用中文句号「。」。"@
}

/// A punctuation lint over `[start, end)`.
pub open spec fn punct_lint(start: int, end: int, replacement: Seq<char>, message: Seq<char>, priority: u8) -> LintV {
    LintV {
        start: start,
        end: end,
        kind: LintKind::Punctuation,
        suggestions: seq![SuggestionV::ReplaceWith(replacement)],
        message: message,
        priority: priority,
    }
}

/// The starts of the non-overlapping occurrences of `pat` in `s` at or
/// after `pos`, found left to right.
pub open spec fn occurrences(s: Seq<char>, pat: Seq<char>, pos: int) -> Seq<int>
    decreases s.len() - pos,
{
    if pat.len() == 0 || pos < 0 || pos + pat.len() > s.len() {
        Seq::empty()
    } else if occurs_at(s, pat, pos) {
        seq![pos] + occurrences(s, pat, pos + pat.len())
    } else {
        occurrences(s, pat, pos + 1)
    }
}

/// Some Han character lies within 8 characters before, or 11 characters
/// from, position `start`.
pub open spec fn near_han(s: Seq<char>, start: int) -> bool {
    let lo = if start >= 8 { start - 8 } else { 0 };
    let hi = if start + 11 <= s.len() { start + 11 } else { s.len() as int };
    exists|k: int| lo <= k < hi && spec_is_han(#[trigger] s[k])
}

pub open spec fn contains_han(s: Seq<char>) -> bool {
    exists|k: int| 0 <= k < s.len() && spec_is_han(#[trigger] s[k])
}

/// The `。。。` lints at the given starts.
pub open spec fn triple_lints_at(starts: Seq<int>) -> Seq<LintV> {
    starts.map_values(|st: int| punct_lint(st, st + 3, chinese_ellipsis(), msg_triple_period(), 60))
}

/// The `...` lints at the given starts.
pub open spec fn dots_lints_at(starts: Seq<int>) -> Seq<LintV> {
    starts.map_values(|st: int| punct_lint(st, st + 3, chinese_ellipsis(), msg_ascii_ellipsis(), 70))
}

/// The starts among `starts` that are near Han text.
pub open spec fn near_han_starts(s: Seq<char>, starts: Seq<int>) -> Seq<int> {
    starts.filter(|st: int| near_han(s, st))
}

/// `。。。` → `……`.
pub open spec fn triple_period_lints(s: Seq<char>) -> Seq<LintV> {
    triple_lints_at(occurrences(s, ideographic_triple_period(), 0))
}

/// `...` near Han text, in a document that contains Han → `……`.
pub open spec fn ascii_ellipsis_lints(s: Seq<char>) -> Seq<LintV> {
    if contains_han(s) {
        dots_lints_at(near_han_starts(s, occurrences(s, ascii_triple_period(), 0)))
    } else {
        Seq::empty()
    }
}

/// An ASCII `mark` at `i + 1` between two Han characters, from `i` onwards.
pub open spec fn between_han_lints(s: Seq<char>, mark: char, replacement: char, message: Seq<char>, i: int) -> Seq<LintV>
    decreases s.len() - i,
{
    if i < 0 || i + 2 >= s.len() {
        Seq::empty()
    } else {
        let rest = between_han_lints(s, mark, replacement, message, i + 1);
        if s[i + 1] == mark && spec_is_han(s[i]) && spec_is_han(s[i + 2]) {
            seq![punct_lint(i + 1, i + 2, seq![replacement], message, 65)] + rest
        } else {
            rest
        }
    }
}

/// The lints the punctuation rule reports for `s`, ordered by start.
pub open spec fn spec_punctuation_lints(s: Seq<char>) -> Seq<LintV> {
    if s.len() == 0 {
        Seq::empty()
    } else {
        sort_asc_below(
            triple_period_lints(s) + ascii_ellipsis_lints(s) + between_han_lints(s, ',', '，', msg_ascii_comma(), 0)
                + between_han_lints(s, '.', '。', msg_ascii_period(), 0),
            lint_start_key(),
            s.len(),
        )
    }
}

/// The lint over `[start, end)` replacing it with `replacement`.
fn make_punct_lint(start: usize, end: usize, replacement: Vec<char>, message: &str, priority: u8) -> (l: Lint)
    ensures
        l@ == punct_lint(start as int, end as int, replacement@, message@, priority),
{
    let l = Lint {
        span: Span::new(start, end),
        lint_kind: LintKind::Punctuation,
        suggestions: vec![Suggestion::ReplaceWith(replacement)],
        message: String::from_str(message),
        priority,
    };
    assert(l@.suggestions =~= seq![SuggestionV::ReplaceWith(replacement@)]);
    l
}

fn ellipsis_chars() -> (r: Vec<char>)
    ensures
        r@ == chinese_ellipsis(),
{
    let mut v: Vec<char> = Vec::new();
    v.push('…');
    v.push('…');
    assert(v@ =~= chinese_ellipsis());
    v
}

proof fn lemma_occurrences_skip(s: Seq<char>, pat: Seq<char>, pos: int, q: int)
    requires
        0 <= pos <= q,
        pat.len() > 0,
        forall|k: int| pos <= k < q ==> !occurs_at(s, pat, k),
    ensures
        occurrences(s, pat, pos) == occurrences(s, pat, q),
    decreases q - pos,
{
    if pos < q && pos + pat.len() <= s.len() {
        lemma_occurrences_skip(s, pat, pos + 1, q);
    }
}

proof fn lemma_occurrences_none(s: Seq<char>, pat: Seq<char>, pos: int)
    requires
        0 <= pos,
        pat.len() > 0,
        forall|k: int| pos <= k ==> !occurs_at(s, pat, k),
    ensures
        occurrences(s, pat, pos) == Seq::<int>::empty(),
    decreases s.len() - pos,
{
    if pos + pat.len() <= s.len() {
        assert(!occurs_at(s, pat, pos));
        lemma_occurrences_none(s, pat, pos + 1);
    }
}

proof fn lemma_filter_push_near(s: Seq<char>, seen: Seq<int>, x: int)
    ensures
        near_han_starts(s, seen.push(x)) == if near_han(s, x) {
            near_han_starts(s, seen).push(x)
        } else {
            near_han_starts(s, seen)
        },
{
    reveal_with_fuel(Seq::filter, 1);
    assert(seen.push(x).drop_last() =~= seen);
}

proof fn lemma_lints_view_push(s: Seq<Lint>, x: Lint)
    ensures
        lints_view(s.push(x)) == lints_view(s).push(x@),
{
    assert(lints_view(s.push(x)) =~= lints_view(s).push(x@));
}

impl ChinesePunctuation {
    pub fn new() -> (r: ChinesePunctuation)
        ensures
            r@ == punctuation_description(),
    {
        ChinesePunctuation { description: String::from_str("中文标点与中英标点混用建议。") }
    }

    pub fn description(&self) -> (r: &str)
        ensures
            r@ == self@,
    {
        self.description.as_str()
    }

    /// All punctuation issues of the document, ordered by start.
    pub fn lint(&self, document: &Document) -> (r: Vec<Lint>)
        ensures
            lints_view(r@) == spec_punctuation_lints(document@),
    {
        let source = document.get_source();
        let n = source.len();
        if n == 0 {
            return Vec::new();
        }
        let ghost s = source@;
        let mut lints: Vec<Lint> = Vec::new();

        // Does the document contain Han at all?
        let mut has_han = false;
        let mut k: usize = 0;
        while k < n
            invariant
                n == s.len(),
                s == source@,
                k <= n,
                has_han == exists|q: int| 0 <= q < k && spec_is_han(#[trigger] s[q]),
            decreases n - k,
        {
            if is_han(source[k]) {
                has_han = true;
            }
            k = k + 1;
        }

        // 。。。 → ……
        let mut pat: Vec<char> = Vec::new();
        pat.push('。');
        pat.push('。');
        pat.push('。');
        assert(pat@ =~= ideographic_triple_period());
        let ghost all_triples = occurrences(s, pat@, 0);
        let ghost mut taken: Seq<int> = Seq::empty();
        let mut search: usize = 0;
        loop
            invariant_except_break
                n == s.len(),
                s == source@,
                pat@ == ideographic_triple_period(),
                search <= n,
                taken + occurrences(s, pat@, search as int) == all_triples,
                all_triples == occurrences(s, ideographic_triple_period(), 0),
                lints_view(lints@) == triple_lints_at(taken),
                forall|j: int| 0 <= j < lints@.len() ==> (#[trigger] lints@[j]).span.start < n,
            ensures
                lints_view(lints@) == triple_period_lints(s),
                forall|j: int| 0 <= j < lints@.len() ==> (#[trigger] lints@[j]).span.start < n,
            decreases n - search,
        {
            match find_from(source, pat.as_slice(), search) {
                None => {
                    proof {
                        lemma_occurrences_none(s, pat@, search as int);
                        assert(taken + Seq::<int>::empty() =~= taken);
                    }
                    break;
                },
                Some(start) => {
                    proof {
                        lemma_occurrences_skip(s, pat@, search as int, start as int);
                    }
                    let l = make_punct_lint(start, start + 3, ellipsis_chars(), "中文省略号宜用「……」，而不是连续三个「。」。", 60);
                    proof {
                        lemma_lints_view_push(lints@, l);
                        assert(taken.push(start as int) + occurrences(s, pat@, start + 3) =~= taken + (seq![start as int] + occurrences(s, pat@, start + 3)));
                        assert(triple_lints_at(taken.push(start as int)) =~= triple_lints_at(taken).push(l@));
                        taken = taken.push(start as int);
                    }
                    lints.push(l);
                    search = start + 3;
                },
            }
        }
        let ghost after_triples = lints_view(lints@);

        // ... in a document that contains Han, when near Han
        if has_han {
            let mut dots: Vec<char> = Vec::new();
            dots.push('.');
            dots.push('.');
            dots.push('.');
            assert(dots@ =~= ascii_triple_period());
            let ghost all_dots = occurrences(s, dots@, 0);
            let ghost mut seen: Seq<int> = Seq::empty();
            let mut search: usize = 0;
            loop
                invariant_except_break
                    n == s.len(),
                    s == source@,
                    dots@ == ascii_triple_period(),
                    search <= n,
                    seen + occurrences(s, dots@, search as int) == all_dots,
                    all_dots == occurrences(s, ascii_triple_period(), 0),
                    lints_view(lints@) == after_triples + dots_lints_at(near_han_starts(s, seen)),
                    forall|j: int| 0 <= j < lints@.len() ==> (#[trigger] lints@[j]).span.start < n,
                ensures
                    lints_view(lints@) == after_triples + dots_lints_at(near_han_starts(s, all_dots)),
                    forall|j: int| 0 <= j < lints@.len() ==> (#[trigger] lints@[j]).span.start < n,
                decreases n - search,
            {
                match find_from(source, dots.as_slice(), search) {
                    None => {
                        proof {
                            lemma_occurrences_none(s, dots@, search as int);
                            assert(seen + Seq::<int>::empty() =~= seen);
                        }
                        break;
                    },
                    Some(start) => {
                        proof {
                            lemma_occurrences_skip(s, dots@, search as int, start as int);
                            assert(seen.push(start as int) + occurrences(s, dots@, start + 3) =~= seen + (seq![start as int] + occurrences(s, dots@, start + 3)));
                            lemma_filter_push_near(s, seen, start as int);
                        }
                        let lo = if start >= 8 { start - 8 } else { 0 };
                        let hi = if n - start >= 11 { start + 11 } else { n };
                        let mut near = false;
                        let mut q = lo;
                        while q < hi
                            invariant
                                lo <= q <= hi <= n,
                                n == s.len(),
                                s == source@,
                                near == exists|p: int| lo <= p < q && spec_is_han(#[trigger] s[p]),
                            decreases hi - q,
                        {
                            if is_han(source[q]) {
                                near = true;
                            }
                            q = q + 1;
                        }
                        assert(near == near_han(s, start as int));
                        if near {
                            let l = make_punct_lint(start, start + 3, ellipsis_chars(), "中文语境中省略号宜用「……」。", 70);
                            proof {
                                lemma_lints_view_push(lints@, l);
                                assert(near_han_starts(s, seen.push(start as int)) =~= near_han_starts(s, seen).push(start as int));
                                assert(dots_lints_at(near_han_starts(s, seen).push(start as int)) =~= dots_lints_at(near_han_starts(s, seen)).push(l@));
                            }
                            lints.push(l);
                        } else {
                            assert(near_han_starts(s, seen.push(start as int)) =~= near_han_starts(s, seen));
                        }
                        proof {
                            seen = seen.push(start as int);
                        }
                        search = start + 3;
                    },
                }
            }
        }
        assert(lints_view(lints@) =~= after_triples + ascii_ellipsis_lints(s));
        let ghost after_dots = lints_view(lints@);

        // ASCII comma between Han characters: 你好,世界
        let mut i: usize = 0;
        while n >= 2 && i < n - 2
            invariant
                n == s.len(),
                s == source@,
                after_dots + between_han_lints(s, ',', '，', msg_ascii_comma(), 0) == lints_view(lints@)
                    + between_han_lints(s, ',', '，', msg_ascii_comma(), i as int),
                forall|j: int| 0 <= j < lints@.len() ==> (#[trigger] lints@[j]).span.start < n,
            decreases n - i,
        {
            if source[i + 1] == ',' && is_han(source[i]) && is_han(source[i + 2]) {
                let mut r: Vec<char> = Vec::new();
                r.push('，');
                assert(r@ =~= seq!['，']);
                let l = make_punct_lint(i + 1, i + 2, r, "中文句子中宜使用中文逗号「，」。", 65);
                proof {
                    lemma_lints_view_push(lints@, l);
                }
                lints.push(l);
            }
            i = i + 1;
        }
        assert(between_han_lints(s, ',', '，', msg_ascii_comma(), i as int) =~= Seq::<LintV>::empty());
        let ghost after_commas = lints_view(lints@);

        // ASCII period between Han: 你好.世界
        let mut i: usize = 0;
        while n >= 2 && i < n - 2
            invariant
                n == s.len(),
                s == source@,
                after_commas + between_han_lints(s, '.', '。', msg_ascii_period(), 0) == lints_view(lints@)
                    + between_han_lints(s, '.', '。', msg_ascii_period(), i as int),
                forall|j: int| 0 <= j < lints@.len() ==> (#[trigger] lints@[j]).span.start < n,
            decreases n - i,
        {
            if source[i + 1] == '.' && is_han(source[i]) && is_han(source[i + 2])
                // avoid matching ...
                && source[i + 2] != '.' && source[i] != '.' {
                let mut r: Vec<char> = Vec::new();
                r.push('。');
                assert(r@ =~= seq!['。']);
                let l = make_punct_lint(i + 1, i + 2, r, "中文句子中宜使用中文句号「。」。", 65);
                proof {
                    lemma_lints_view_push(lints@, l);
                }
                lints.push(l);
            }
            i = i + 1;
        }
        assert(between_han_lints(s, '.', '。', msg_ascii_period(), i as int) =~= Seq::<LintV>::empty());
        sort_lints_by_start(lints, n)
    }
}

/// The found occurrences are occurrences.
proof fn lemma_occurrences_occur(s: Seq<char>, pat: Seq<char>, pos: int)
    ensures
        forall|i: int|
            0 <= i < occurrences(s, pat, pos).len() ==> occurs_at(s, pat, #[trigger] occurrences(s, pat, pos)[i]),
    decreases s.len() - pos,
{
    if pat.len() == 0 || pos < 0 || pos + pat.len() > s.len() {
    } else if occurs_at(s, pat, pos) {
        lemma_occurrences_occur(s, pat, pos + pat.len());
        let r = occurrences(s, pat, pos + pat.len());
        assert(occurrences(s, pat, pos) == seq![pos] + r);
        assert forall|i: int| 0 <= i < occurrences(s, pat, pos).len() implies occurs_at(
            s,
            pat,
            #[trigger] occurrences(s, pat, pos)[i],
        ) by {
            if i > 0 {
                assert(occurrences(s, pat, pos)[i] == r[i - 1]);
            }
        }
    } else {
        lemma_occurrences_occur(s, pat, pos + 1);
        assert(occurrences(s, pat, pos) == occurrences(s, pat, pos + 1));
    }
}

/// Without Han characters no ASCII mark lies between two of them.
proof fn lemma_between_han_none(s: Seq<char>, mark: char, replacement: char, message: Seq<char>, i: int)
    requires
        !contains_han(s),
    ensures
        between_han_lints(s, mark, replacement, message, i).len() == 0,
    decreases s.len() - i,
{
    if !(i < 0 || i + 2 >= s.len()) {
        lemma_between_han_none(s, mark, replacement, message, i + 1);
        assert(!spec_is_han(s[i]));
    }
}

/// In a text without Han characters the only punctuation lints are those
/// of runs of three ideographic full stops `。。。`.
pub proof fn lemma_no_han_only_triple_periods(s: Seq<char>)
    requires
        !contains_han(s),
    ensures
        forall|a: int|
            0 <= a < spec_punctuation_lints(s).len() ==> {
                let l = #[trigger] spec_punctuation_lints(s)[a];
                &&& occurs_at(s, ideographic_triple_period(), l.start)
                &&& l == punct_lint(l.start, l.start + 3, chinese_ellipsis(), msg_triple_period(), 60)
            },
{
    if s.len() > 0 {
        lemma_between_han_none(s, ',', '，', msg_ascii_comma(), 0);
        lemma_between_han_none(s, '.', '。', msg_ascii_period(), 0);
        lemma_occurrences_occur(s, ideographic_triple_period(), 0);
        let tri = triple_period_lints(s);
        let all = tri + ascii_ellipsis_lints(s) + between_han_lints(s, ',', '，', msg_ascii_comma(), 0)
            + between_han_lints(s, '.', '。', msg_ascii_period(), 0);
        assert(all =~= tri);
        lemma_sort_asc_members(all, lint_start_key(), s.len());
        let t = spec_punctuation_lints(s);
        assert forall|a: int| 0 <= a < t.len() implies {
            let l = #[trigger] t[a];
            &&& occurs_at(s, ideographic_triple_period(), l.start)
            &&& l == punct_lint(l.start, l.start + 3, chinese_ellipsis(), msg_triple_period(), 60)
        } by {
            assert(all.contains(t[a]));
            let x = choose|x: int| 0 <= x < all.len() && all[x] == t[a];
            let occ = occurrences(s, ideographic_triple_period(), 0);
            assert(tri[x] == punct_lint(occ[x], occ[x] + 3, chinese_ellipsis(), msg_triple_period(), 60));
        }
    }
}

/// Each lint found between Han characters covers one character of the text.
proof fn lemma_between_han_within(s: Seq<char>, mark: char, replacement: char, message: Seq<char>, i: int)
    ensures
        forall|a: int|
            0 <= a < between_han_lints(s, mark, replacement, message, i).len() ==> {
                let l = #[trigger] between_han_lints(s, mark, replacement, message, i)[a];
                0 <= l.start < l.end <= s.len() && l.suggestions.len() == 1
            },
    decreases s.len() - i,
{
    if !(i < 0 || i + 2 >= s.len()) {
        lemma_between_han_within(s, mark, replacement, message, i + 1);
        let rest = between_han_lints(s, mark, replacement, message, i + 1);
        let all = between_han_lints(s, mark, replacement, message, i);
        if s[i + 1] == mark && spec_is_han(s[i]) && spec_is_han(s[i + 2]) {
            assert forall|a: int| 0 <= a < all.len() implies {
                let l = #[trigger] all[a];
                0 <= l.start < l.end <= s.len() && l.suggestions.len() == 1
            } by {
                if a > 0 {
                    assert(all[a] == rest[a - 1]);
                }
            }
        }
    }
}

/// Every punctuation lint covers a non-empty part of the text and offers one fix.
pub proof fn lemma_punctuation_lints_within(s: Seq<char>)
    ensures
        forall|a: int|
            0 <= a < spec_punctuation_lints(s).len() ==> {
                let l = #[trigger] spec_punctuation_lints(s)[a];
                0 <= l.start < l.end <= s.len() && l.suggestions.len() == 1
            },
{
    if s.len() > 0 {
        lemma_between_han_within(s, ',', '，', msg_ascii_comma(), 0);
        lemma_between_han_within(s, '.', '。', msg_ascii_period(), 0);
        lemma_occurrences_occur(s, ideographic_triple_period(), 0);
        lemma_occurrences_occur(s, ascii_triple_period(), 0);
        let tri = triple_period_lints(s);
        let dots = ascii_ellipsis_lints(s);
        let commas = between_han_lints(s, ',', '，', msg_ascii_comma(), 0);
        let periods = between_han_lints(s, '.', '。', msg_ascii_period(), 0);
        let all = tri + dots + commas + periods;
        assert forall|x: int| 0 <= x < all.len() implies 0 <= (#[trigger] all[x]).start < all[x].end <= s.len()
            && all[x].suggestions.len() == 1 by {
            if x < tri.len() {
                let occ = occurrences(s, ideographic_triple_period(), 0);
                assert(occurs_at(s, ideographic_triple_period(), occ[x]));
            } else if x < tri.len() + dots.len() {
                let occ = occurrences(s, ascii_triple_period(), 0);
                let near = near_han_starts(s, occ);
                let y = x - tri.len();
                assert(contains_han(s));
                assert(dots[y] == punct_lint(near[y], near[y] + 3, chinese_ellipsis(), msg_ascii_ellipsis(), 70));
                assert(near.contains(near[y]));
                occ.lemma_filter_contains_rev(|st: int| near_han(s, st), near[y]);
                let w = choose|w: int| 0 <= w < occ.len() && occ[w] == near[y];
                assert(occurs_at(s, ascii_triple_period(), occ[w]));
            } else if x < tri.len() + dots.len() + commas.len() {
                assert(all[x] == commas[x - tri.len() - dots.len()]);
            } else {
                assert(all[x] == periods[x - tri.len() - dots.len() - commas.len()]);
            }
        }
        lemma_sort_asc_members(all, lint_start_key(), s.len());
        let t = spec_punctuation_lints(s);
        assert forall|a: int| 0 <= a < t.len() implies {
            let l = #[trigger] t[a];
            0 <= l.start < l.end <= s.len() && l.suggestions.len() == 1
        } by {
            assert(all.contains(t[a]));
        }
    }
}

/// `l` is a lint for an ASCII `,` or `.` between two Han characters: it
/// covers the mark alone and offers its Chinese counterpart, `，` for `,` and
/// `。` for `.`.
pub open spec fn mark_between_han_lint(s: Seq<char>, l: LintV) -> bool {
    let k = l.start;
    &&& 0 < k && k + 1 < s.len() && l.end == k + 1
    &&& spec_is_han(s[k - 1]) && spec_is_han(s[k + 1])
    &&& l.kind == LintKind::Punctuation
    &&& ((s[k] == ',' && l.suggestions == seq![SuggestionV::ReplaceWith(seq!['，'])] && l.message
        == "中文句子中宜使用中文逗号「，」。"@) || (s[k] == '.' && l.suggestions == seq![
        SuggestionV::ReplaceWith(seq!['。']),
    ] && l.message == "中文句子中宜使用中文句号「。」。"@))
}

/// `l` is a lint for an ellipsis written as three full stops, `。。。` or
/// `...`: it covers the three and offers `……`.
pub open spec fn triple_stop_lint(s: Seq<char>, l: LintV) -> bool {
    let k = l.start;
    &&& 0 <= k && k + 3 <= s.len() && l.end == k + 3
    &&& l.kind == LintKind::Punctuation
    &&& l.suggestions == seq![SuggestionV::ReplaceWith(seq!['…', '…'])]
    &&& ((s[k] == '。' && s[k + 1] == '。' && s[k + 2] == '。') || (s[k] == '.' && s[k + 1] == '.' && s[k + 2] == '.'))
}

/// An ASCII `,` or `.` stands at `k` between two Han characters.
pub open spec fn mark_between_han(s: Seq<char>, k: int) -> bool {
    0 < k && k + 1 < s.len() && (s[k] == ',' || s[k] == '.') && spec_is_han(s[k - 1]) && spec_is_han(s[k + 1])
}

proof fn lemma_between_han_laws(s: Seq<char>, mark: char, replacement: char, message: Seq<char>, i: int)
    requires
        0 <= i,
    ensures
        forall|a: int|
            0 <= a < between_han_lints(s, mark, replacement, message, i).len() ==> {
                let l = #[trigger] between_han_lints(s, mark, replacement, message, i)[a];
                &&& l == punct_lint(l.start, l.start + 1, seq![replacement], message, 65)
                &&& i < l.start && l.start + 1 < s.len()
                &&& s[l.start] == mark && spec_is_han(s[l.start - 1]) && spec_is_han(s[l.start + 1])
            },
        forall|k: int|
            i < k && k + 1 < s.len() && #[trigger] s[k] == mark && spec_is_han(s[k - 1]) && spec_is_han(s[k + 1])
                ==> exists|a: int|
                0 <= a < between_han_lints(s, mark, replacement, message, i).len() && (#[trigger] between_han_lints(
                    s,
                    mark,
                    replacement,
                    message,
                    i,
                )[a]).start == k,
    decreases s.len() - i,
{
    if !(i + 2 >= s.len()) {
        lemma_between_han_laws(s, mark, replacement, message, i + 1);
        let rest = between_han_lints(s, mark, replacement, message, i + 1);
        let all = between_han_lints(s, mark, replacement, message, i);
        if s[i + 1] == mark && spec_is_han(s[i]) && spec_is_han(s[i + 2]) {
            assert(all == seq![punct_lint(i + 1, i + 2, seq![replacement], message, 65)] + rest);
            assert forall|a: int| 0 < a < all.len() implies #[trigger] all[a] == rest[a - 1] by {}
            assert forall|k: int|
                i < k && k + 1 < s.len() && #[trigger] s[k] == mark && spec_is_han(s[k - 1]) && spec_is_han(s[k + 1])
                    implies exists|a: int| 0 <= a < all.len() && (#[trigger] all[a]).start == k by {
                if k == i + 1 {
                    assert(all[0].start == k);
                } else {
                    let a = choose|a: int| 0 <= a < rest.len() && (#[trigger] rest[a]).start == k;
                    assert(all[a + 1].start == k);
                }
            }
        } else {
            assert(all == rest);
        }
    }
}

/// Every punctuation lint is either an ellipsis written as three full stops
/// (`。。。` or `...`), replaced by `……`, or an ASCII `,` or `.` between two
/// Han characters, replaced by `，` or `。` respectively; and every ASCII `,`
/// or `.` between two Han characters is reported.
pub proof fn lemma_punctuation_lints_exact(s: Seq<char>)
    ensures
        forall|a: int|
            0 <= a < spec_punctuation_lints(s).len() ==> triple_stop_lint(s, #[trigger] spec_punctuation_lints(s)[a])
                || mark_between_han_lint(s, spec_punctuation_lints(s)[a]),
        forall|k: int|
            #[trigger] mark_between_han(s, k) ==> exists|a: int|
                0 <= a < spec_punctuation_lints(s).len() && (#[trigger] spec_punctuation_lints(s)[a]).start == k
                    && spec_punctuation_lints(s)[a].end == k + 1,
{
    if s.len() > 0 {
        reveal_strlit("中文句子中宜使用中文逗号「，」。");
        reveal_strlit("中文句子中宜使用中文句号「。」。");
        lemma_between_han_laws(s, ',', '，', msg_ascii_comma(), 0);
        lemma_between_han_laws(s, '.', '。', msg_ascii_period(), 0);
        lemma_occurrences_occur(s, ideographic_triple_period(), 0);
        lemma_occurrences_occur(s, ascii_triple_period(), 0);
        let tri = triple_period_lints(s);
        let dots = ascii_ellipsis_lints(s);
        let commas = between_han_lints(s, ',', '，', msg_ascii_comma(), 0);
        let periods = between_han_lints(s, '.', '。', msg_ascii_period(), 0);
        let all = tri + dots + commas + periods;
        assert forall|x: int| 0 <= x < all.len() implies triple_stop_lint(s, #[trigger] all[x]) || mark_between_han_lint(
            s,
            all[x],
        ) by {
            if x < tri.len() {
                let occ = occurrences(s, ideographic_triple_period(), 0);
                assert(occurs_at(s, ideographic_triple_period(), occ[x]));
                assert(s.subrange(occ[x], occ[x] + 3)[0] == s[occ[x]]);
                assert(s.subrange(occ[x], occ[x] + 3)[1] == s[occ[x] + 1]);
                assert(s.subrange(occ[x], occ[x] + 3)[2] == s[occ[x] + 2]);
                assert(triple_stop_lint(s, all[x]));
            } else if x < tri.len() + dots.len() {
                let occ = occurrences(s, ascii_triple_period(), 0);
                let near = near_han_starts(s, occ);
                let y = x - tri.len();
                assert(contains_han(s));
                assert(dots[y] == punct_lint(near[y], near[y] + 3, chinese_ellipsis(), msg_ascii_ellipsis(), 70));
                assert(near.contains(near[y]));
                occ.lemma_filter_contains_rev(|st: int| near_han(s, st), near[y]);
                let w = choose|w: int| 0 <= w < occ.len() && occ[w] == near[y];
                assert(occurs_at(s, ascii_triple_period(), occ[w]));
                let k = occ[w];
                assert(s.subrange(k, k + 3)[0] == s[k]);
                assert(s.subrange(k, k + 3)[1] == s[k + 1]);
                assert(s.subrange(k, k + 3)[2] == s[k + 2]);
                assert(triple_stop_lint(s, all[x]));
            } else if x < tri.len() + dots.len() + commas.len() {
                assert(all[x] == commas[x - tri.len() - dots.len()]);
                assert(mark_between_han_lint(s, all[x]));
            } else {
                assert(all[x] == periods[x - tri.len() - dots.len() - commas.len()]);
                assert(mark_between_han_lint(s, all[x]));
            }
        }
        lemma_sort_asc_members(all, lint_start_key(), s.len());
        lemma_sort_asc_complete(all, lint_start_key(), s.len());
        let t = spec_punctuation_lints(s);
        assert forall|a: int| 0 <= a < t.len() implies triple_stop_lint(s, #[trigger] t[a]) || mark_between_han_lint(
            s,
            t[a],
        ) by {
            assert(all.contains(t[a]));
        }
        assert forall|k: int| #[trigger] mark_between_han(s, k) implies exists|a: int|
            0 <= a < t.len() && (#[trigger] t[a]).start == k && t[a].end == k + 1 by {
            let x = if s[k] == ',' {
                let c = choose|c: int| 0 <= c < commas.len() && (#[trigger] commas[c]).start == k;
                assert(all[tri.len() + dots.len() + c] == commas[c]);
                tri.len() + dots.len() + c
            } else {
                let c = choose|c: int| 0 <= c < periods.len() && (#[trigger] periods[c]).start == k;
                assert(all[tri.len() + dots.len() + commas.len() + c] == periods[c]);
                tri.len() + dots.len() + commas.len() + c
            };
            assert(lint_start_key()(all[x]) < s.len());
            assert(t.contains(all[x]));
            let w = choose|w: int| 0 <= w < t.len() && t[w] == all[x];
            assert(t[w].start == k && t[w].end == k + 1);
        }
    }
}

/// Every occurrence of `pat` (of length 3) from `pos` on lies within one
/// that the scan takes.
proof fn lemma_occurrences_cover(s: Seq<char>, pat: Seq<char>, pos: int)
    requires
        pat.len() == 3,
        0 <= pos,
    ensures
        forall|k: int|
            pos <= k && #[trigger] occurs_at(s, pat, k) ==> exists|a: int|
                0 <= a < occurrences(s, pat, pos).len() && (#[trigger] occurrences(s, pat, pos)[a]) <= k < occurrences(
                    s,
                    pat,
                    pos,
                )[a] + 3,
    decreases s.len() - pos,
{
    if pos + pat.len() <= s.len() {
        if occurs_at(s, pat, pos) {
            lemma_occurrences_cover(s, pat, pos + 3);
            let r = occurrences(s, pat, pos + 3);
            let o = occurrences(s, pat, pos);
            assert(o == seq![pos] + r);
            assert forall|k: int| pos <= k && #[trigger] occurs_at(s, pat, k) implies exists|a: int|
                0 <= a < o.len() && (#[trigger] o[a]) <= k < o[a] + 3 by {
                if k < pos + 3 {
                    assert(o[0] == pos);
                } else {
                    let a = choose|a: int| 0 <= a < r.len() && (#[trigger] r[a]) <= k < r[a] + 3;
                    assert(o[a + 1] == r[a]);
                }
            }
        } else {
            lemma_occurrences_cover(s, pat, pos + 1);
            assert(occurrences(s, pat, pos) == occurrences(s, pat, pos + 1));
        }
    }
}

/// Every run of three ideographic full stops `。。。` lies within a lint
/// that replaces three full stops by `……`.
pub proof fn lemma_triple_periods_reported(s: Seq<char>)
    ensures
        forall|k: int|
            0 <= k && k + 3 <= s.len() && s[k] == '。' && s[k + 1] == '。' && #[trigger] s[k + 2] == '。' ==> exists|a: int|
                0 <= a < spec_punctuation_lints(s).len() && triple_stop_lint(s, #[trigger] spec_punctuation_lints(s)[a])
                    && spec_punctuation_lints(s)[a].start <= k < spec_punctuation_lints(s)[a].start + 3,
{
    if s.len() > 0 {
        lemma_punctuation_lints_exact(s);
        let pat = ideographic_triple_period();
        lemma_occurrences_cover(s, pat, 0);
        let occ = occurrences(s, pat, 0);
        let tri = triple_period_lints(s);
        let all = tri + ascii_ellipsis_lints(s) + between_han_lints(s, ',', '，', msg_ascii_comma(), 0)
            + between_han_lints(s, '.', '。', msg_ascii_period(), 0);
        lemma_sort_asc_complete(all, lint_start_key(), s.len());
        lemma_occurrences_occur(s, pat, 0);
        let t = spec_punctuation_lints(s);
        assert forall|k: int|
            0 <= k && k + 3 <= s.len() && s[k] == '。' && s[k + 1] == '。' && #[trigger] s[k + 2] == '。' implies exists|a: int|
                0 <= a < t.len() && triple_stop_lint(s, #[trigger] t[a]) && t[a].start <= k < t[a].start + 3 by {
            assert(s.subrange(k, k + 3) =~= pat);
            assert(occurs_at(s, pat, k));
            let a = choose|a: int| 0 <= a < occ.len() && (#[trigger] occ[a]) <= k < occ[a] + 3;
            assert(occurs_at(s, pat, occ[a]));
            assert(all[a] == tri[a]);
            assert(lint_start_key()(all[a]) < s.len());
            assert(t.contains(all[a]));
            let w = choose|w: int| 0 <= w < t.len() && t[w] == all[a];
            assert(triple_stop_lint(s, t[w]) || mark_between_han_lint(s, t[w]));
            assert(t[w].end == t[w].start + 3);
        }
    }
}

} // verus!
