//! Suggested edits, how they apply to text, and case matching.

use vstd::prelude::*;

use crate::lint::Span;
use crate::text::{copy_chars, push_chars};

verus! {

/// A suggested edit that could resolve a [`Lint`](crate::lint::Lint).
#[derive(Debug, PartialEq, Eq, Hash)]
pub enum Suggestion {
    /// Replace the offending text with a specific character sequence.
    ReplaceWith(Vec<char>),
    /// Insert the provided characters _after_ the offending text.
    InsertAfter(Vec<char>),
    /// Remove the offending text.
    Remove,
}

/// The mathematical content of a [`Suggestion`].
pub enum SuggestionV {
    ReplaceWith(Seq<char>),
    InsertAfter(Seq<char>),
    Remove,
}

impl View for Suggestion {
    type V = SuggestionV;

    open spec fn view(&self) -> SuggestionV {
        match self {
            Suggestion::ReplaceWith(c) => SuggestionV::ReplaceWith(c@),
            Suggestion::InsertAfter(c) => SuggestionV::InsertAfter(c@),
            Suggestion::Remove => SuggestionV::Remove,
        }
    }
}

impl Clone for Suggestion {
    fn clone(&self) -> (r: Suggestion)
        ensures
            r@ == self@,
    {
        match self {
            Suggestion::ReplaceWith(c) => Suggestion::ReplaceWith(copy_chars(c.as_slice())),
            Suggestion::InsertAfter(c) => Suggestion::InsertAfter(copy_chars(c.as_slice())),
            Suggestion::Remove => Suggestion::Remove,
        }
    }
}

/// The text that results from applying `s` to the span `[start, end)` of `source`.
pub open spec fn spec_apply(s: SuggestionV, start: int, end: int, source: Seq<char>) -> Seq<char> {
    match s {
        SuggestionV::ReplaceWith(c) => source.take(start) + c + source.skip(end),
        SuggestionV::InsertAfter(c) => source.take(end) + c + source.skip(end),
        SuggestionV::Remove => source.take(start) + source.skip(end),
    }
}

pub open spec fn spec_is_upper(c: char) -> bool {
    'A' <= c && c <= 'Z'
}

pub open spec fn spec_is_lower(c: char) -> bool {
    'a' <= c && c <= 'z'
}

pub open spec fn spec_is_letter(c: char) -> bool {
    spec_is_upper(c) || spec_is_lower(c)
}

/// `c` in upper case when `upper`, else in lower case (letters only change).
pub open spec fn spec_with_case(c: char, upper: bool) -> char {
    if upper && spec_is_lower(c) {
        ((c as int) - 32) as char
    } else if !upper && spec_is_upper(c) {
        ((c as int) + 32) as char
    } else {
        c
    }
}

/// `c` in lower case.
pub open spec fn spec_to_lower(c: char) -> char {
    spec_with_case(c, false)
}

/// For each letter of `t`, in order, whether it is upper case.
pub open spec fn letter_cases(t: Seq<char>) -> Seq<bool>
    decreases t.len(),
{
    if t.len() == 0 {
        Seq::empty()
    } else {
        let rest = letter_cases(t.drop_last());
        if spec_is_letter(t.last()) {
            rest.push(spec_is_upper(t.last()))
        } else {
            rest
        }
    }
}

/// `target` with its letters cased like the letters of `template`: the
/// `j`-th letter of the target takes the case of the `j`-th letter of the
/// template, or of the template's last letter once the template has run
/// out; other characters are kept.
pub open spec fn spec_copy_casing(template: Seq<char>, target: Seq<char>) -> Seq<char> {
    let cases = letter_cases(template);
    Seq::new(
        target.len(),
        |i: int|
            {
                let c = target[i];
                let j = letter_cases(target.take(i)).len();
                if !spec_is_letter(c) || cases.len() == 0 {
                    c
                } else if j < cases.len() {
                    spec_with_case(c, cases[j as int])
                } else {
                    spec_with_case(c, cases.last())
                }
            },
    )
}

/// The letter cases of `s` grow by one entry exactly when the next character is a letter.
proof fn lemma_letter_cases_step(s: Seq<char>, i: int)
    requires
        0 <= i < s.len(),
    ensures
        letter_cases(s.take(i + 1)) == if spec_is_letter(s[i]) {
            letter_cases(s.take(i)).push(spec_is_upper(s[i]))
        } else {
            letter_cases(s.take(i))
        },
{
    assert(s.take(i + 1).drop_last() == s.take(i));
}

fn with_case(c: char, upper: bool) -> (r: char)
    ensures
        r == spec_with_case(c, upper),
{
    if upper && 'a' <= c && c <= 'z' {
        let b: u8 = (c as u32 - 32) as u8;
        assert(b == c as int - 32);
        b as char
    } else if !upper && 'A' <= c && c <= 'Z' {
        let b: u8 = (c as u32 + 32) as u8;
        b as char
    } else {
        c
    }
}

/// Copy the casing of `template` onto `target` (see [`spec_copy_casing`]).
pub fn copy_casing(template: &[char], target: &[char]) -> (r: Vec<char>)
    ensures
        r@ == spec_copy_casing(template@, target@),
{
    let mut cases: Vec<bool> = Vec::new();
    let mut i: usize = 0;
    while i < template.len()
        invariant
            i <= template@.len(),
            cases@ == letter_cases(template@.take(i as int)),
        decreases template.len() - i,
    {
        proof {
            lemma_letter_cases_step(template@, i as int);
        }
        let c = template[i];
        if ('A' <= c && c <= 'Z') || ('a' <= c && c <= 'z') {
            cases.push('A' <= c && c <= 'Z');
        }
        i = i + 1;
    }
    assert(template@.take(template@.len() as int) == template@);
    let ghost spec_out = spec_copy_casing(template@, target@);
    let mut out: Vec<char> = Vec::new();
    let mut j: usize = 0;
    let mut k: usize = 0;
    while k < target.len()
        invariant
            k <= target@.len(),
            cases@ == letter_cases(template@),
            j == letter_cases(target@.take(k as int)).len(),
            j <= k,
            spec_out == spec_copy_casing(template@, target@),
            out@ == spec_out.take(k as int),
        decreases target.len() - k,
    {
        proof {
            lemma_letter_cases_step(target@, k as int);
        }
        let c = target[k];
        let is_letter = ('A' <= c && c <= 'Z') || ('a' <= c && c <= 'z');
        let d = if !is_letter || cases.len() == 0 {
            c
        } else if j < cases.len() {
            with_case(c, cases[j])
        } else {
            with_case(c, cases[cases.len() - 1])
        };
        assert(d == spec_out[k as int]);
        out.push(d);
        assert(out@ =~= spec_out.take(k + 1));
        if is_letter {
            j = j + 1;
        }
        k = k + 1;
    }
    assert(out@ =~= spec_out);
    out
}

impl Suggestion {
    /// Variant of [`Self::replace_with_match_case`] that accepts a string.
    pub fn replace_with_match_case_str(value: &str, template: &[char]) -> (s: Suggestion)
        ensures
            s@ == SuggestionV::ReplaceWith(spec_copy_casing(template@, value@)),
    {
        Self::replace_with_match_case(crate::text::str_to_chars(value), template)
    }

    /// Construct an instance of [`Self::ReplaceWith`], but make the content match the case of the
    /// provided template.
    ///
    /// For example, if we want to replace "You're" with "You are", we can provide "you are" and
    /// "You're".
    pub fn replace_with_match_case(value: Vec<char>, template: &[char]) -> (s: Suggestion)
        ensures
            s@ == SuggestionV::ReplaceWith(spec_copy_casing(template@, value@)),
    {
        Suggestion::ReplaceWith(copy_casing(template, value.as_slice()))
    }

    /// Apply a suggestion to a given text.
    pub fn apply(&self, span: Span, source: &mut Vec<char>)
        requires
            span.start <= span.end <= old(source)@.len(),
        ensures
            final(source)@ == spec_apply(self@, span.start as int, span.end as int, old(source)@),
    {
        match self {
            Suggestion::ReplaceWith(chars) => {
                // Avoid allocation if possible
                if chars.len() == span.len() {
                    let mut index: usize = 0;
                    while index < chars.len()
                        invariant
                            span.start <= span.end <= old(source)@.len(),
                            chars@.len() == span.end - span.start,
                            index <= chars@.len(),
                            source@.len() == old(source)@.len(),
                            forall|p: int|
                                0 <= p < source@.len() ==> #[trigger] source@[p] == if span.start <= p
                                    < span.start + index {
                                    chars@[p - span.start]
                                } else {
                                    old(source)@[p]
                                },
                        decreases chars.len() - index,
                    {
                        source.set(index + span.start, chars[index]);
                        index = index + 1;
                    }
                    assert(source@ =~= old(source)@.take(span.start as int) + chars@ + old(
                        source,
                    )@.skip(span.end as int));
                } else {
                    let popped = source.split_off(span.start);
                    push_vec_chars(source, chars.as_slice());
                    let mut i: usize = span.len();
                    while i < popped.len()
                        invariant
                            span.start <= span.end <= old(source)@.len(),
                            popped@ == old(source)@.skip(span.start as int),
                            span.end - span.start <= i <= popped@.len(),
                            source@ == old(source)@.take(span.start as int) + chars@ + popped@.subrange(
                                (span.end - span.start) as int,
                                i as int,
                            ),
                        decreases popped.len() - i,
                    {
                        source.push(popped[i]);
                        i = i + 1;
                    }
                    assert(popped@.subrange((span.end - span.start) as int, popped@.len() as int)
                        =~= old(source)@.skip(span.end as int));
                }
            },
            Suggestion::Remove => {
                let n = span.len();
                let mut i = span.end;
                while i < source.len()
                    invariant
                        span.start <= span.end <= old(source)@.len(),
                        n == span.end - span.start,
                        source@.len() == old(source)@.len(),
                        span.end <= i <= source@.len(),
                        forall|p: int|
                            0 <= p < source@.len() ==> #[trigger] source@[p] == if span.start <= p
                                < i - n {
                                old(source)@[p + n]
                            } else {
                                old(source)@[p]
                            },
                    decreases source.len() - i,
                {
                    let c = source[i];
                    source.set(i - n, c);
                    i = i + 1;
                }
                let new_len = source.len() - n;
                source.truncate(new_len);
                assert(source@ =~= old(source)@.take(span.start as int) + old(source)@.skip(
                    span.end as int,
                ));
            },
            Suggestion::InsertAfter(chars) => {
                let popped = source.split_off(span.end);
                push_vec_chars(source, chars.as_slice());
                push_vec_chars(source, popped.as_slice());
                assert(popped@ == old(source)@.skip(span.end as int));
            },
        }
    }

    /// The human-facing (Chinese) description of this suggestion.
    pub fn to_display_string(&self) -> (r: String)
        ensures
            r@ == spec_display(self@),
    {
        match self {
            Suggestion::ReplaceWith(with) => {
                let mut s = String::from_str("替换为：「");
                push_chars(&mut s, with.as_slice());
                s.append("」");
                s
            },
            Suggestion::InsertAfter(with) => {
                let mut s = String::from_str("在其后插入：「");
                push_chars(&mut s, with.as_slice());
                s.append("」");
                s
            },
            Suggestion::Remove => String::from_str("删除此处"),
        }
    }
}

/// The human-facing (Chinese) description of a suggestion.
pub open spec fn spec_display(s: SuggestionV) -> Seq<char> {
    match s {
        SuggestionV::ReplaceWith(c) => "替换为：「"@ + c + "」"@,
        SuggestionV::InsertAfter(c) => "在其后插入：「"@ + c + "」"@,
        SuggestionV::Remove => "删除此处"@,
    }
}

/// Append `chars` to the end of `v`.
fn push_vec_chars(v: &mut Vec<char>, chars: &[char])
    ensures
        final(v)@ == old(v)@ + chars@,
{
    let mut i: usize = 0;
    while i < chars.len()
        invariant
            i <= chars@.len(),
            v@ == old(v)@ + chars@.take(i as int),
        decreases chars.len() - i,
    {
        v.push(chars[i]);
        assert(chars@.take(i + 1) == chars@.take(i as int).push(chars@[i as int]));
        i = i + 1;
    }
    assert(chars@.take(chars@.len() as int) == chars@);
}

/// Turning candidate words into case-matched replacement suggestions.
pub trait SuggestionCollectionExt: Sized {
    /// The candidate words, as character sequences.
    spec fn candidates(&self) -> Seq<Seq<char>>;

    /// One `ReplaceWith` suggestion per candidate, cased like `case_template`.
    fn to_replace_suggestions(self, case_template: &[char]) -> (r: Vec<Suggestion>)
        ensures
            r@.len() == self.candidates().len(),
            forall|i: int|
                0 <= i < r@.len() ==> #[trigger] r@[i]@ == SuggestionV::ReplaceWith(
                    spec_copy_casing(case_template@, self.candidates()[i]),
                ),
    ;
}

impl SuggestionCollectionExt for Vec<String> {
    open spec fn candidates(&self) -> Seq<Seq<char>> {
        self@.map_values(|s: String| s@)
    }

    fn to_replace_suggestions(self, case_template: &[char]) -> (r: Vec<Suggestion>) {
        let mut out: Vec<Suggestion> = Vec::new();
        let mut i: usize = 0;
        while i < self.len()
            invariant
                i <= self@.len(),
                out@.len() == i,
                forall|k: int|
                    0 <= k < i ==> #[trigger] out@[k]@ == SuggestionV::ReplaceWith(
                        spec_copy_casing(case_template@, self@[k]@),
                    ),
            decreases self.len() - i,
        {
            out.push(Suggestion::replace_with_match_case_str(self[i].as_str(), case_template));
            i = i + 1;
        }
        out
    }
}

/// Copying casing changes only the case of letters: the result has the
/// target's length, and each character equals the target's in lower case.
pub proof fn lemma_copy_casing_only_changes_case(template: Seq<char>, target: Seq<char>)
    ensures
        spec_copy_casing(template, target).len() == target.len(),
        forall|i: int|
            0 <= i < target.len() ==> spec_to_lower(#[trigger] spec_copy_casing(template, target)[i])
                == spec_to_lower(target[i]),
{
}

/// Copying the casing of a template twice gives the same text as copying it once.
pub proof fn lemma_copy_casing_idempotent(template: Seq<char>, target: Seq<char>)
    ensures
        spec_copy_casing(template, spec_copy_casing(template, target)) == spec_copy_casing(
            template,
            target,
        ),
{
    let once = spec_copy_casing(template, target);
    assert forall|i: int| 0 <= i <= target.len() implies letter_cases(#[trigger] once.take(i)).len()
        == letter_cases(target.take(i)).len() by {
        lemma_letter_count_preserved(template, target, i);
    }
    assert(spec_copy_casing(template, once) =~= once);
}

proof fn lemma_letter_count_preserved(template: Seq<char>, target: Seq<char>, i: int)
    requires
        0 <= i <= target.len(),
    ensures
        letter_cases(spec_copy_casing(template, target).take(i)).len() == letter_cases(
            target.take(i),
        ).len(),
    decreases i,
{
    let once = spec_copy_casing(template, target);
    if i > 0 {
        lemma_letter_count_preserved(template, target, i - 1);
        lemma_letter_cases_step(once, i - 1);
        lemma_letter_cases_step(target, i - 1);
    } else {
        assert(once.take(0) =~= Seq::<char>::empty());
        assert(target.take(0) =~= Seq::<char>::empty());
    }
}

} // verus!
