//! Style rule: insert a space between CJK ideographs and Latin letters.
//!
//! Example: `使用React框架` → `使用 React 框架`

use vstd::prelude::*;

use crate::lint::{lints_view, Document, Lint, LintV, Span};
use crate::lint_kind::LintKind;
use crate::script::{classify_char, is_han, spec_classify_char, spec_is_ascii_alphabetic, spec_is_han, ScriptKind};
use crate::suggestion::{Suggestion, SuggestionV};

verus! {

/// Suggests spaces between Chinese characters and Latin words in mixed text.
pub struct CjkEnglishSpacing {
    description: String,
}

impl View for CjkEnglishSpacing {
    type V = Seq<char>;

    /// The rule's description.
    closed spec fn view(&self) -> Seq<char> {
        self.description@
    }
}

pub open spec fn spacing_description() -> Seq<char> {
    "CJK–English mixed text: prefer a space between Han characters and Latin letters (style)."@
}

pub open spec fn msg_han_then_latin() -> Seq<char> {
    "Prefer a space between a Chinese character and an English word."@
}

pub open spec fn msg_latin_then_han() -> Seq<char> {
    "Prefer a space between an English word and a Chinese character."@
}

pub open spec fn is_latin(c: char) -> bool {
    spec_classify_char(c) == ScriptKind::Latin
}

/// A Han character directly followed by a Latin letter at `i`.
pub open spec fn han_then_latin(s: Seq<char>, i: int) -> bool {
    0 <= i && i + 1 < s.len() && spec_is_han(s[i]) && is_latin(s[i + 1])
}

/// A Latin letter directly followed by a Han character at `i`.
pub open spec fn latin_then_han(s: Seq<char>, i: int) -> bool {
    0 <= i && i + 1 < s.len() && is_latin(s[i]) && spec_is_han(s[i + 1])
}

/// The lint at the boundary `i, i + 1`, suggesting a space between the two characters.
pub open spec fn spacing_lint(s: Seq<char>, i: int, message: Seq<char>) -> LintV {
    LintV {
        start: i,
        end: i + 2,
        kind: LintKind::Style,
        suggestions: seq![SuggestionV::ReplaceWith(seq![s[i], ' ', s[i + 1]])],
        message: message,
        priority: 80,
    }
}

/// Scanning boundaries from `i`: a Han→Latin boundary is reported and the
/// scan resumes at the last letter of the Latin run after it, so that the
/// run's far boundary is still seen; a Latin→Han boundary is reported and the
/// scan moves on by one.
pub open spec fn spacing_from(s: Seq<char>, i: int) -> Seq<LintV>
    decreases s.len() - i, 0int,
{
    if i < 0 || i + 1 >= s.len() {
        Seq::empty()
    } else if han_then_latin(s, i) {
        seq![spacing_lint(s, i, msg_han_then_latin())] + spacing_skip(s, i + 1)
    } else if latin_then_han(s, i) {
        seq![spacing_lint(s, i, msg_latin_then_han())] + spacing_from(s, i + 1)
    } else {
        spacing_from(s, i + 1)
    }
}

/// Moving from the Latin letter at `j` to the last letter of its run, then
/// scanning on from there.
pub open spec fn spacing_skip(s: Seq<char>, j: int) -> Seq<LintV>
    decreases s.len() - j, 1int,
{
    if j < 0 || j >= s.len() {
        Seq::empty()
    } else if j + 1 < s.len() && is_latin(s[j + 1]) {
        spacing_skip(s, j + 1)
    } else {
        spacing_from(s, j)
    }
}

/// The lints the spacing rule reports for `s`, in position order.
pub open spec fn spec_spacing_lints(s: Seq<char>) -> Seq<LintV> {
    if s.len() < 2 {
        Seq::empty()
    } else {
        spacing_from(s, 0)
    }
}

/// Some Han character and Latin letter stand side by side, in either order.
pub open spec fn has_han_latin_boundary(s: Seq<char>) -> bool {
    exists|i: int| han_then_latin(s, i) || latin_then_han(s, i)
}

proof fn lemma_spacing_empty(s: Seq<char>, i: int)
    requires
        0 <= i,
        forall|q: int| i <= q ==> !han_then_latin(s, q) && !latin_then_han(s, q),
    ensures
        spacing_from(s, i) == Seq::<LintV>::empty(),
    decreases s.len() - i,
{
    if i + 1 < s.len() {
        lemma_spacing_empty(s, i + 1);
    }
}

proof fn lemma_spacing_nonempty(s: Seq<char>, i: int, q: int)
    requires
        0 <= i <= q,
        han_then_latin(s, q) || latin_then_han(s, q),
    ensures
        spacing_from(s, i).len() > 0,
    decreases q - i,
{
    if !han_then_latin(s, i) && !latin_then_han(s, i) {
        lemma_spacing_nonempty(s, i + 1, q);
    }
}

/// The spacing rule reports something exactly when a Han character and a
/// Latin letter stand side by side somewhere in the text.
pub proof fn lemma_spacing_flags_iff_boundary(s: Seq<char>)
    ensures
        spec_spacing_lints(s).len() > 0 <==> has_han_latin_boundary(s),
{
    if has_han_latin_boundary(s) {
        let q = choose|q: int| han_then_latin(s, q) || latin_then_han(s, q);
        lemma_spacing_nonempty(s, 0, q);
    } else if s.len() >= 2 {
        lemma_spacing_empty(s, 0);
    }
}

impl CjkEnglishSpacing {
    pub fn new() -> (r: CjkEnglishSpacing)
        ensures
            r@ == spacing_description(),
    {
        CjkEnglishSpacing {
            description: String::from_str(
                "CJK–English mixed text: prefer a space between Han characters and Latin letters (style).",
            ),
        }
    }

    pub fn description(&self) -> (r: &str)
        ensures
            r@ == self@,
    {
        self.description.as_str()
    }

    /// The Han/Latin boundaries of the document lacking a space, in order.
    pub fn lint(&self, document: &Document) -> (r: Vec<Lint>)
        ensures
            lints_view(r@) == spec_spacing_lints(document@),
    {
        let source = document.get_source();
        let n = source.len();
        if n < 2 {
            return Vec::new();
        }
        let ghost s = source@;
        let mut lints: Vec<Lint> = Vec::new();
        let mut i: usize = 0;
        while i < n - 1
            invariant
                n == s.len(),
                n >= 2,
                s == source@,
                i <= n,
                lints_view(lints@) + spacing_from(s, i as int) == spacing_from(s, 0),
            decreases n - i,
        {
            let a = source[i];
            let b = source[i + 1];
            let ka = classify_char(a);
            let kb = classify_char(b);

            // CJK + Latin (no space): insert space after CJK char
            let cjk_then_latin = is_han(a) && kb == ScriptKind::Latin;
            // Latin + CJK (no space): insert space before CJK char
            let latin_then_cjk = ka == ScriptKind::Latin && is_han(b);

            if cjk_then_latin || latin_then_cjk {
                let mut with_space: Vec<char> = Vec::new();
                with_space.push(a);
                with_space.push(' ');
                with_space.push(b);
                assert(with_space@ =~= seq![a, ' ', b]);
                let message = if cjk_then_latin {
                    String::from_str("Prefer a space between a Chinese character and an English word.")
                } else {
                    String::from_str("Prefer a space between an English word and a Chinese character.")
                };
                let lint = Lint {
                    span: Span::new(i, i + 2),
                    lint_kind: LintKind::Style,
                    suggestions: vec![Suggestion::ReplaceWith(with_space)],
                    message,
                    priority: 80,
                };
                proof {
                    assert(lint@.suggestions =~= seq![SuggestionV::ReplaceWith(seq![s[i as int], ' ', s[i + 1]])]);
                    assert(lints_view(lints@.push(lint)) =~= lints_view(lints@).push(lint@));
                }
                let ghost prev = lints_view(lints@);
                lints.push(lint);
                if cjk_then_latin {
                    // Move to the last letter of the Latin run, so that the
                    // run is reported once at each end and not once per letter.
                    proof {
                        assert(prev.push(lint@) + spacing_skip(s, i + 1) =~= prev + (seq![lint@] + spacing_skip(s, i + 1)));
                    }
                    let ghost i0 = i;
                    i = i + 1;
                    while i + 1 < n && classify_char(source[i + 1]) == ScriptKind::Latin
                        invariant
                            n == s.len(),
                            s == source@,
                            i0 < i < n,
                            lints_view(lints@) + spacing_skip(s, i as int) == spacing_from(s, 0),
                        decreases n - i,
                    {
                        i = i + 1;
                    }
                    assert(spacing_skip(s, i as int) == spacing_from(s, i as int));
                    continue;
                } else {
                    proof {
                        assert(prev.push(lint@) + spacing_from(s, i + 1) =~= prev + (seq![lint@] + spacing_from(s, i + 1)));
                    }
                    i = i + 1;
                    continue;
                }
            }
            i = i + 1;
        }
        assert(lints_view(lints@) =~= spacing_from(s, 0));
        lints
    }
}

proof fn lemma_spacing_within_from(s: Seq<char>, i: int)
    ensures
        forall|a: int|
            0 <= a < spacing_from(s, i).len() ==> {
                let l = #[trigger] spacing_from(s, i)[a];
                0 <= l.start < l.end <= s.len() && l.suggestions.len() == 1
            },
        forall|a: int|
            0 <= a < spacing_skip(s, i).len() ==> {
                let l = #[trigger] spacing_skip(s, i)[a];
                0 <= l.start < l.end <= s.len() && l.suggestions.len() == 1
            },
    decreases s.len() - i,
{
    if i >= 0 && i < s.len() {
        lemma_spacing_within_from(s, i + 1);
        let f = spacing_from(s, i);
        if i + 1 < s.len() {
            if han_then_latin(s, i) {
                let rest = spacing_skip(s, i + 1);
                assert forall|a: int| 0 <= a < f.len() implies {
                    let l = #[trigger] f[a];
                    0 <= l.start < l.end <= s.len() && l.suggestions.len() == 1
                } by {
                    if a > 0 {
                        assert(f[a] == rest[a - 1]);
                    }
                }
            } else if latin_then_han(s, i) {
                let rest = spacing_from(s, i + 1);
                assert forall|a: int| 0 <= a < f.len() implies {
                    let l = #[trigger] f[a];
                    0 <= l.start < l.end <= s.len() && l.suggestions.len() == 1
                } by {
                    if a > 0 {
                        assert(f[a] == rest[a - 1]);
                    }
                }
            }
        }
    }
}

/// Every spacing lint covers two characters of the text and offers one fix.
pub proof fn lemma_spacing_lints_within(s: Seq<char>)
    ensures
        forall|a: int|
            0 <= a < spec_spacing_lints(s).len() ==> {
                let l = #[trigger] spec_spacing_lints(s)[a];
                0 <= l.start < l.end <= s.len() && l.suggestions.len() == 1
            },
{
    lemma_spacing_within_from(s, 0);
}

/// `l` is the lint for a missing space between `s[i]` and `s[i + 1]`, a Han
/// character and an ASCII letter in either order: it covers the two
/// characters, is a style hint of priority 80, and suggests the two
/// characters with a space between them.
pub open spec fn boundary_lint(s: Seq<char>, l: LintV) -> bool {
    let i = l.start;
    &&& 0 <= i && i + 1 < s.len() && l.end == i + 2
    &&& l.kind == LintKind::Style && l.priority == 80
    &&& l.suggestions == seq![SuggestionV::ReplaceWith(seq![s[i], ' ', s[i + 1]])]
    &&& ((spec_is_han(s[i]) && spec_is_ascii_alphabetic(s[i + 1]) && l.message
        == "Prefer a space between a Chinese character and an English word."@) || (spec_is_ascii_alphabetic(s[i])
        && spec_is_han(s[i + 1]) && l.message == "Prefer a space between an English word and a Chinese character."@))
}

/// A Han character and an ASCII letter stand side by side at `i`, in either order.
pub open spec fn missing_space_at(s: Seq<char>, i: int) -> bool {
    0 <= i && i + 1 < s.len() && ((spec_is_han(s[i]) && spec_is_ascii_alphabetic(s[i + 1])) || (
    spec_is_ascii_alphabetic(s[i]) && spec_is_han(s[i + 1])))
}

/// An ASCII letter is Latin and nothing else is.
proof fn lemma_latin_is_ascii_letter(c: char)
    ensures
        is_latin(c) <==> spec_is_ascii_alphabetic(c),
{
}

proof fn lemma_spacing_from_laws(s: Seq<char>, i: int)
    requires
        0 <= i,
    ensures
        forall|a: int| 0 <= a < spacing_from(s, i).len() ==> boundary_lint(s, #[trigger] spacing_from(s, i)[a]),
        forall|a: int| 0 <= a < spacing_from(s, i).len() ==> (#[trigger] spacing_from(s, i)[a]).start >= i,
        forall|a: int, b: int|
            0 <= a < b < spacing_from(s, i).len() ==> (#[trigger] spacing_from(s, i)[a]).start < (#[trigger] spacing_from(
                s,
                i,
            )[b]).start,
        forall|q: int|
            i <= q && #[trigger] missing_space_at(s, q) ==> exists|a: int|
                0 <= a < spacing_from(s, i).len() && (#[trigger] spacing_from(s, i)[a]).start == q,
        i < s.len() && is_latin(s[i]) ==> {
            &&& forall|a: int| 0 <= a < spacing_skip(s, i).len() ==> boundary_lint(s, #[trigger] spacing_skip(s, i)[a])
            &&& forall|a: int| 0 <= a < spacing_skip(s, i).len() ==> (#[trigger] spacing_skip(s, i)[a]).start >= i
            &&& forall|a: int, b: int|
                0 <= a < b < spacing_skip(s, i).len() ==> (#[trigger] spacing_skip(s, i)[a]).start < (
                #[trigger] spacing_skip(s, i)[b]).start
            &&& forall|q: int|
                i <= q && #[trigger] missing_space_at(s, q) ==> exists|a: int|
                    0 <= a < spacing_skip(s, i).len() && (#[trigger] spacing_skip(s, i)[a]).start == q
        },
    decreases s.len() - i,
{
    if i < s.len() {
        lemma_spacing_from_laws(s, i + 1);
        lemma_latin_is_ascii_letter(s[i]);
        if i + 1 < s.len() {
            lemma_latin_is_ascii_letter(s[i + 1]);
        }
        let f = spacing_from(s, i);
        if i + 1 < s.len() {
            if han_then_latin(s, i) {
                let rest = spacing_skip(s, i + 1);
                assert(f == seq![spacing_lint(s, i, msg_han_then_latin())] + rest);
                assert forall|a: int| 0 < a < f.len() implies #[trigger] f[a] == rest[a - 1] by {}
                assert(boundary_lint(s, f[0]));
                assert forall|q: int| i <= q && #[trigger] missing_space_at(s, q) implies exists|a: int|
                    0 <= a < f.len() && (#[trigger] f[a]).start == q by {
                    if q == i {
                        assert(f[0].start == q);
                    } else {
                        let a = choose|a: int| 0 <= a < rest.len() && (#[trigger] rest[a]).start == q;
                        assert(f[a + 1].start == q);
                    }
                }
            } else if latin_then_han(s, i) {
                let rest = spacing_from(s, i + 1);
                assert(f == seq![spacing_lint(s, i, msg_latin_then_han())] + rest);
                assert forall|a: int| 0 < a < f.len() implies #[trigger] f[a] == rest[a - 1] by {}
                assert(boundary_lint(s, f[0]));
                assert forall|q: int| i <= q && #[trigger] missing_space_at(s, q) implies exists|a: int|
                    0 <= a < f.len() && (#[trigger] f[a]).start == q by {
                    if q == i {
                        assert(f[0].start == q);
                    } else {
                        let a = choose|a: int| 0 <= a < rest.len() && (#[trigger] rest[a]).start == q;
                        assert(f[a + 1].start == q);
                    }
                }
            } else {
                assert(f == spacing_from(s, i + 1));
                assert(!missing_space_at(s, i));
            }
        }
        if is_latin(s[i]) {
            let k = spacing_skip(s, i);
            if i + 1 < s.len() && is_latin(s[i + 1]) {
                assert(k == spacing_skip(s, i + 1));
                assert(!missing_space_at(s, i));
            } else {
                assert(k == f);
            }
        }
    }
}

/// The spacing rule reports exactly the places where a Han character and an
/// ASCII letter stand side by side, in either order, once each and in order
/// of position: each lint covers the two characters and suggests them with a
/// space between.
pub proof fn lemma_spacing_lints_exact(s: Seq<char>)
    ensures
        forall|a: int| 0 <= a < spec_spacing_lints(s).len() ==> boundary_lint(s, #[trigger] spec_spacing_lints(s)[a]),
        forall|a: int, b: int|
            0 <= a < b < spec_spacing_lints(s).len() ==> (#[trigger] spec_spacing_lints(s)[a]).start < (
            #[trigger] spec_spacing_lints(s)[b]).start,
        forall|q: int|
            #[trigger] missing_space_at(s, q) ==> exists|a: int|
                0 <= a < spec_spacing_lints(s).len() && (#[trigger] spec_spacing_lints(s)[a]).start == q,
{
    if s.len() >= 2 {
        lemma_spacing_from_laws(s, 0);
    }
}

} // verus!
