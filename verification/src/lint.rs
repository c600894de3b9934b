//! Spans, documents and the lints that rules report.

use vstd::prelude::*;

use crate::lint_kind::LintKind;
use crate::sort::{
    bucket, key_bound, lemma_bucket_step, lemma_key_bound, lemma_sort_asc_skip, lemma_sort_desc_skip,
    sort_asc_below, sort_desc_between,
};
use crate::suggestion::{Suggestion, SuggestionV};

verus! {

/// A half-open range `[start, end)` of character offsets into a document.
#[derive(Debug, Clone, Copy, PartialEq, Eq, Hash, Structural)]
pub struct Span {
    pub start: usize,
    pub end: usize,
}

impl Span {
    pub fn new(start: usize, end: usize) -> (s: Span)
        ensures
            s.start == start,
            s.end == end,
    {
        Span { start, end }
    }

    /// The number of characters the span covers.
    pub fn len(&self) -> (n: usize)
        requires
            self.start <= self.end,
        ensures
            n == self.end - self.start,
    {
        self.end - self.start
    }

    pub fn is_empty(&self) -> (b: bool)
        ensures
            b == (self.start >= self.end),
    {
        self.start >= self.end
    }

    /// Whether two spans share at least one character.
    pub fn overlaps_with(&self, other: Span) -> (b: bool)
        ensures
            b == spec_spans_overlap(self.start as int, self.end as int, other.start as int, other.end as int),
    {
        self.start < other.end && other.start < self.end
    }
}

pub open spec fn spec_spans_overlap(s1: int, e1: int, s2: int, e2: int) -> bool {
    s1 < e2 && s2 < e1
}

/// The mathematical content of a [`Lint`].
pub struct LintV {
    pub start: int,
    pub end: int,
    pub kind: LintKind,
    pub suggestions: Seq<SuggestionV>,
    pub message: Seq<char>,
    pub priority: u8,
}

/// A problem found in a document, with the edits that would resolve it.
#[derive(Debug, PartialEq, Eq)]
pub struct Lint {
    pub span: Span,
    pub lint_kind: LintKind,
    pub suggestions: Vec<Suggestion>,
    pub message: String,
    pub priority: u8,
}

pub open spec fn suggestions_view(s: Seq<Suggestion>) -> Seq<SuggestionV> {
    s.map_values(|x: Suggestion| x@)
}

impl View for Lint {
    type V = LintV;

    open spec fn view(&self) -> LintV {
        LintV {
            start: self.span.start as int,
            end: self.span.end as int,
            kind: self.lint_kind,
            suggestions: suggestions_view(self.suggestions@),
            message: self.message@,
            priority: self.priority,
        }
    }
}

/// The views of a sequence of lints.
pub open spec fn lints_view(s: Seq<Lint>) -> Seq<LintV> {
    s.map_values(|l: Lint| l@)
}

impl Clone for Lint {
    fn clone(&self) -> (r: Lint)
        ensures
            r@ == self@,
    {
        let mut suggestions: Vec<Suggestion> = Vec::new();
        let mut i: usize = 0;
        while i < self.suggestions.len()
            invariant
                i <= self.suggestions@.len(),
                suggestions_view(suggestions@) == suggestions_view(self.suggestions@.take(i as int)),
            decreases self.suggestions.len() - i,
        {
            suggestions.push(self.suggestions[i].clone());
            proof {
                assert(self.suggestions@.take(i + 1) == self.suggestions@.take(i as int).push(self.suggestions@[i as int]));
                assert(suggestions_view(self.suggestions@.take(i + 1)) =~= suggestions_view(self.suggestions@.take(i as int)).push(self.suggestions@[i as int]@));
            }
            i = i + 1;
        }
        assert(self.suggestions@.take(self.suggestions@.len() as int) == self.suggestions@);
        Lint {
            span: self.span,
            lint_kind: self.lint_kind,
            suggestions,
            message: self.message.clone(),
            priority: self.priority,
        }
    }
}

impl Lint {
    /// The text the lint covers.
    pub fn get_str(&self, source: &[char]) -> (r: String)
        requires
            self.span.start <= self.span.end <= source@.len(),
        ensures
            r@ == source@.subrange(self.span.start as int, self.span.end as int),
    {
        crate::text::chars_to_string(source, self.span.start, self.span.end)
    }
}

/// The key lints are ordered by: their start.
pub open spec fn lint_start_key() -> spec_fn(LintV) -> nat {
    |l: LintV| l.start as nat
}

proof fn lemma_lints_view_push(s: Seq<Lint>, x: Lint)
    ensures
        lints_view(s.push(x)) == lints_view(s).push(x@),
{
    assert(lints_view(s.push(x)) =~= lints_view(s).push(x@));
}

/// `lints` ordered by start; lints with equal starts keep their order.
pub fn sort_lints_by_start(lints: Vec<Lint>, bound: usize) -> (r: Vec<Lint>)
    requires
        forall|i: int| 0 <= i < lints@.len() ==> (#[trigger] lints@[i]).span.start < bound,
    ensures
        lints_view(r@) == sort_asc_below(lints_view(lints@), lint_start_key(), bound as nat),
{
    let ghost v = lints_view(lints@);
    let ghost key = lint_start_key();
    let mut out: Vec<Lint> = Vec::new();
    let mut lo: usize = 0;
    while lo < bound
        invariant
            lo <= bound,
            v == lints_view(lints@),
            key == lint_start_key(),
            forall|i: int| 0 <= i < lints@.len() ==> (#[trigger] lints@[i]).span.start < bound,
            lints_view(out@) == sort_asc_below(v, key, lo as nat),
        decreases bound - lo,
    {
        // The smallest start not yet placed.
        let mut best: usize = bound;
        let mut i: usize = 0;
        while i < lints.len()
            invariant
                i <= lints@.len(),
                lo < bound,
                best <= bound,
                forall|j: int| 0 <= j < lints@.len() ==> (#[trigger] lints@[j]).span.start < bound,
                best < bound ==> lo <= best && exists|j: int| 0 <= j < i && (#[trigger] lints@[j]).span.start == best,
                forall|j: int| 0 <= j < i && (#[trigger] lints@[j]).span.start >= lo ==> lints@[j].span.start >= best,
            decreases lints.len() - i,
        {
            let st = lints[i].span.start;
            if st >= lo && st < best {
                best = st;
            }
            i = i + 1;
        }
        proof {
            assert forall|j: int| 0 <= j < v.len() implies !(lo <= key(#[trigger] v[j]) < best) by {
                assert(v[j] == lints@[j]@);
            }
            lemma_sort_asc_skip(v, key, lo as nat, best as nat);
        }
        if best < bound {
            let mut k: usize = 0;
            let ghost base = lints_view(out@);
            while k < lints.len()
                invariant
                    k <= lints@.len(),
                    v == lints_view(lints@),
                    key == lint_start_key(),
                    lints_view(out@) == base + bucket(v.take(k as int), key, best as nat),
                decreases lints.len() - k,
            {
                proof {
                    lemma_bucket_step(v, key, best as nat, k as int);
                }
                if lints[k].span.start == best {
                    let c = lints[k].clone();
                    proof {
                        lemma_lints_view_push(out@, c);
                    }
                    out.push(c);
                }
                k = k + 1;
            }
            assert(v.take(lints@.len() as int) == v);
            lo = best + 1;
        } else {
            lo = bound;
        }
    }
    out
}

/// `lints` ordered by decreasing start; lints with equal starts keep their order.
pub fn sort_lints_by_start_desc(lints: Vec<Lint>) -> (r: Vec<Lint>)
    ensures
        lints_view(r@) == sort_desc_between(
            lints_view(lints@),
            lint_start_key(),
            0,
            key_bound(lints_view(lints@), lint_start_key()),
        ),
{
    let ghost v = lints_view(lints@);
    let ghost key = lint_start_key();
    let ghost hi = key_bound(v, key);
    // One more than the largest start.
    let mut bound: u128 = 0;
    let mut i: usize = 0;
    while i < lints.len()
        invariant
            i <= lints@.len(),
            v == lints_view(lints@),
            key == lint_start_key(),
            bound as nat == key_bound(v.take(i as int), key),
            bound <= usize::MAX as u128 + 1,
        decreases lints.len() - i,
    {
        proof {
            assert(v.take(i + 1).drop_last() =~= v.take(i as int));
        }
        let st = lints[i].span.start as u128;
        if st + 1 > bound {
            bound = st + 1;
        }
        i = i + 1;
    }
    assert(v.take(lints@.len() as int) =~= v);
    proof {
        lemma_key_bound(v, key);
    }
    let mut out: Vec<Lint> = Vec::new();
    let mut lim: u128 = bound;
    assert(out@.len() == 0);
    assert(lints_view(out@) =~= sort_desc_between(v, key, hi, hi));
    while lim > 0
        invariant
            v == lints_view(lints@),
            key == lint_start_key(),
            hi == key_bound(v, key),
            bound as nat == hi,
            lim <= bound,
            forall|j: int| 0 <= j < v.len() ==> key(#[trigger] v[j]) < hi,
            lints_view(out@) == sort_desc_between(v, key, lim as nat, hi),
        decreases lim,
    {
        // The largest start below `lim`.
        let mut best: u128 = 0;
        let mut found = false;
        let mut j: usize = 0;
        while j < lints.len()
            invariant
                j <= lints@.len(),
                v == lints_view(lints@),
                key == lint_start_key(),
                found ==> best < lim && exists|q: int| 0 <= q < j && key(#[trigger] v[q]) == best,
                forall|q: int| 0 <= q < j && key(#[trigger] v[q]) < lim ==> found && key(v[q]) <= best,
            decreases lints.len() - j,
        {
            proof {
                assert(v[j as int] == lints@[j as int]@);
            }
            let st = lints[j].span.start as u128;
            if st < lim && (!found || st > best) {
                best = st;
                found = true;
            }
            j = j + 1;
        }
        if !found {
            proof {
                lemma_sort_desc_skip(v, key, 0, lim as nat, hi);
            }
            lim = 0;
        } else {
            proof {
                lemma_sort_desc_skip(v, key, (best + 1) as nat, lim as nat, hi);
            }
            let mut k: usize = 0;
            let ghost base = lints_view(out@);
            while k < lints.len()
                invariant
                    k <= lints@.len(),
                    v == lints_view(lints@),
                    key == lint_start_key(),
                    lints_view(out@) == base + bucket(v.take(k as int), key, best as nat),
                decreases lints.len() - k,
            {
                proof {
                    lemma_bucket_step(v, key, best as nat, k as int);
                    assert(v[k as int] == lints@[k as int]@);
                }
                if lints[k].span.start as u128 == best {
                    let c = lints[k].clone();
                    proof {
                        lemma_lints_view_push(out@, c);
                    }
                    out.push(c);
                }
                k = k + 1;
            }
            assert(v.take(lints@.len() as int) == v);
            lim = best;
        }
    }
    out
}

/// A plain-text document, held as its characters.
pub struct Document {
    source: Vec<char>,
}

impl View for Document {
    type V = Seq<char>;

    closed spec fn view(&self) -> Seq<char> {
        self.source@
    }
}

impl Document {
    /// A document holding the characters of `text`.
    pub fn new_plain(text: &str) -> (d: Document)
        ensures
            d@ == text@,
    {
        Document { source: crate::text::str_to_chars(text) }
    }

    /// A document holding exactly `chars`.
    pub fn from_chars(chars: Vec<char>) -> (d: Document)
        ensures
            d@ == chars@,
    {
        Document { source: chars }
    }

    /// The characters of the document.
    pub fn get_source(&self) -> (s: &[char])
        ensures
            s@ == self@,
    {
        self.source.as_slice()
    }
}

} // verus!
