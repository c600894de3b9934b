//! The summaries printed after linting: counts ranked by size, and the
//! text of each counted item.

use vstd::prelude::*;

use crate::cli::{localize_lint_message, spec_localize};
use crate::lint::{Lint, LintV};
use crate::lint_group::named_lints_view;
use crate::lint_kind::{spec_label, LintKind};
use crate::ranking::{rank, ranked_view, ranks_before, Ranked, RankedV};
use crate::report::{char_index_to_line_col, rgb_for_lint_kind, spec_line_col, spec_rgb_for};
use crate::stats::{kind_counts, name_counts, pair_counts, spans_within, KindCounts, NameCounts, PairCounts};
use crate::suggestion::{spec_display, SuggestionV};
use crate::text::str_to_chars;

verus! {

// ---------------------------------------------------------------------------
// Numbers and colours as text.
// ---------------------------------------------------------------------------

/// The character of the decimal digit `d`.
pub open spec fn digit_char(d: nat) -> char {
    (48 + d) as char
}

/// The decimal digits of `n`.
pub open spec fn spec_decimal(n: nat) -> Seq<char>
    decreases n,
{
    if n < 10 {
        seq![digit_char(n)]
    } else {
        spec_decimal(n / 10) + seq![digit_char(n % 10)]
    }
}

/// Append the decimal digits of `n` to `out`.
pub fn push_decimal(out: &mut String, n: usize)
    ensures
        final(out)@ == old(out)@ + spec_decimal(n as nat),
    decreases n,
{
    if n >= 10 {
        push_decimal(out, n / 10);
    }
    let d: u8 = (n % 10) as u8;
    let b: u8 = 48 + d;
    let c: char = b as char;
    assert(c == digit_char((n % 10) as nat));
    out.push(c);
    assert(out@ =~= old(out)@ + spec_decimal(n as nat));
}

/// The decimal digits of `n`.
pub fn decimal(n: usize) -> (r: String)
    ensures
        r@ == spec_decimal(n as nat),
{
    let mut s = String::new();
    push_decimal(&mut s, n);
    assert(s@ =~= spec_decimal(n as nat));
    s
}

/// The terminal escape that sets the text colour to `rgb`.
pub open spec fn spec_ansi_rgb(rgb: (u8, u8, u8)) -> Seq<char> {
    "\x1b[38;2;"@ + spec_decimal(rgb.0 as nat) + ";"@ + spec_decimal(rgb.1 as nat) + ";"@ + spec_decimal(rgb.2 as nat)
        + "m"@
}

/// The terminal escape that sets the text colour to `rgb`.
pub fn ansi_rgb(rgb: (u8, u8, u8)) -> (r: String)
    ensures
        r@ == spec_ansi_rgb(rgb),
{
    let mut s = String::from_str("\x1b[38;2;");
    push_decimal(&mut s, rgb.0 as usize);
    s.append(";");
    push_decimal(&mut s, rgb.1 as usize);
    s.append(";");
    push_decimal(&mut s, rgb.2 as usize);
    s.append("m");
    s
}

// ---------------------------------------------------------------------------
// Ranking the counts.
// ---------------------------------------------------------------------------

/// How a kind count ranks: by count, then by the kind's label.
pub open spec fn kind_key(e: (LintKind, usize)) -> RankedV {
    RankedV { count: e.1 as nat, first: spec_label(e.0), second: Seq::empty(), index: 0 }
}

/// How a name count ranks: by count, then by the name.
pub open spec fn name_key(e: (String, usize)) -> RankedV {
    RankedV { count: e.1 as nat, first: e.0@, second: Seq::empty(), index: 0 }
}

/// How a (kind, rule) count ranks: by count, then by the kind's label, then by the rule.
pub open spec fn pair_key(e: (LintKind, String, usize)) -> RankedV {
    RankedV { count: e.2 as nat, first: spec_label(e.0), second: e.1@, index: 0 }
}

/// The kind counts, largest first; equal counts by label.
pub fn ranked_kinds(counts: &KindCounts) -> (r: Vec<(LintKind, usize)>)
    ensures
        forall|i: int|
            0 <= i < r@.len() ==> kind_counts(*counts).contains_key((#[trigger] r@[i]).0) && kind_counts(*counts)[r@[i].0]
                == r@[i].1,
        forall|k: LintKind| #[trigger] kind_counts(*counts).contains_key(k) ==> exists|i: int| 0 <= i < r@.len() && (#[trigger] r@[i]).0 == k,
        forall|i: int, j: int| 0 <= i < j < r@.len() ==> (#[trigger] r@[i]).0 != (#[trigger] r@[j]).0,
        forall|i: int, j: int| 0 <= i < j < r@.len() ==> !ranks_before(kind_key(#[trigger] r@[j]), kind_key(#[trigger] r@[i])),
{
    let entries = counts.entries();
    let mut keys: Vec<Ranked> = Vec::new();
    let mut i: usize = 0;
    while i < entries.len()
        invariant
            i <= entries@.len(),
            keys@.len() == i,
            forall|q: int| 0 <= q < i ==> (#[trigger] keys@[q])@ == (RankedV { index: q as nat, ..kind_key(entries@[q]) }),
        decreases entries.len() - i,
    {
        let label = entries[i].0.to_label();
        keys.push(Ranked { count: entries[i].1, first: str_to_chars(label.as_str()), second: Vec::new(), index: i });
        i = i + 1;
    }
    let ranked = rank(&keys);
    let ghost rv = ranked_view(ranked@);
    let ghost kv = ranked_view(keys@);
    let mut out: Vec<(LintKind, usize)> = Vec::new();
    let mut j: usize = 0;
    while j < ranked.len()
        invariant
            j <= ranked@.len(),
            rv == ranked_view(ranked@),
            kv == ranked_view(keys@),
            rv.len() == entries@.len(),
            kv.len() == entries@.len(),
            forall|q: int| 0 <= q < kv.len() ==> (#[trigger] kv[q]) == (RankedV { index: q as nat, ..kind_key(entries@[q]) }),
            forall|q: int| 0 <= q < rv.len() ==> (#[trigger] rv[q]).index < kv.len() && rv[q] == kv[rv[q].index as int],
            out@.len() == j,
            forall|q: int| 0 <= q < j ==> (#[trigger] out@[q]) == entries@[rv[q].index as int],
        decreases ranked.len() - j,
    {
        let idx = ranked[j].index;
        assert(rv[j as int].index == idx);
        out.push(entries[idx]);
        j = j + 1;
    }
    proof {
        assert forall|i: int| 0 <= i < out@.len() implies kind_counts(*counts).contains_key((#[trigger] out@[i]).0)
            && kind_counts(*counts)[out@[i].0] == out@[i].1 by {
            assert(out@[i] == entries@[rv[i].index as int]);
        }
        assert forall|k: LintKind| #[trigger] kind_counts(*counts).contains_key(k) implies exists|i: int|
            0 <= i < out@.len() && (#[trigger] out@[i]).0 == k by {
            let e = choose|e: int| 0 <= e < entries@.len() && (#[trigger] entries@[e]).0 == k;
            assert(crate::ranking::index_present(rv, e));
            let i = choose|i: int| 0 <= i < rv.len() && (#[trigger] rv[i]).index == e;
            assert(out@[i] == entries@[e]);
        }
        assert forall|i: int, j: int| 0 <= i < j < out@.len() implies (#[trigger] out@[i]).0 != (#[trigger] out@[j]).0 by {
            assert(rv[i].index != rv[j].index);
        }
        assert forall|i: int, j: int| 0 <= i < j < out@.len() implies !ranks_before(
            kind_key(#[trigger] out@[j]),
            kind_key(#[trigger] out@[i]),
        ) by {
            assert(!ranks_before(rv[j], rv[i]));
            assert(rv[j] == kv[rv[j].index as int]);
            assert(rv[i] == kv[rv[i].index as int]);
        }
    }
    out
}

/// The name counts, largest first; equal counts by name.
pub fn ranked_names(counts: &NameCounts) -> (r: Vec<(String, usize)>)
    ensures
        forall|i: int|
            0 <= i < r@.len() ==> name_counts(*counts).contains_key((#[trigger] r@[i]).0@) && name_counts(*counts)[r@[i].0@]
                == r@[i].1,
        forall|n: Seq<char>| #[trigger] name_counts(*counts).contains_key(n) ==> exists|i: int| 0 <= i < r@.len() && (#[trigger] r@[i]).0@ == n,
        forall|i: int, j: int| 0 <= i < j < r@.len() ==> (#[trigger] r@[i]).0@ != (#[trigger] r@[j]).0@,
        forall|i: int, j: int| 0 <= i < j < r@.len() ==> !ranks_before(name_key(#[trigger] r@[j]), name_key(#[trigger] r@[i])),
{
    let entries = counts.entries();
    let mut keys: Vec<Ranked> = Vec::new();
    let mut i: usize = 0;
    while i < entries.len()
        invariant
            i <= entries@.len(),
            keys@.len() == i,
            forall|q: int| 0 <= q < i ==> (#[trigger] keys@[q])@ == (RankedV { index: q as nat, ..name_key(entries@[q]) }),
        decreases entries.len() - i,
    {
        keys.push(Ranked { count: entries[i].1, first: str_to_chars(entries[i].0.as_str()), second: Vec::new(), index: i });
        i = i + 1;
    }
    let ranked = rank(&keys);
    let ghost rv = ranked_view(ranked@);
    let ghost kv = ranked_view(keys@);
    let mut out: Vec<(String, usize)> = Vec::new();
    let mut j: usize = 0;
    while j < ranked.len()
        invariant
            j <= ranked@.len(),
            rv == ranked_view(ranked@),
            kv == ranked_view(keys@),
            rv.len() == entries@.len(),
            kv.len() == entries@.len(),
            forall|q: int| 0 <= q < kv.len() ==> (#[trigger] kv[q]) == (RankedV { index: q as nat, ..name_key(entries@[q]) }),
            forall|q: int| 0 <= q < rv.len() ==> (#[trigger] rv[q]).index < kv.len() && rv[q] == kv[rv[q].index as int],
            out@.len() == j,
            forall|q: int| 0 <= q < j ==> (#[trigger] out@[q]).0@ == entries@[rv[q].index as int].0@ && out@[q].1 == entries@[rv[q].index as int].1,
        decreases ranked.len() - j,
    {
        let idx = ranked[j].index;
        assert(rv[j as int].index == idx);
        out.push((entries[idx].0.clone(), entries[idx].1));
        j = j + 1;
    }
    proof {
        assert forall|i: int| 0 <= i < out@.len() implies name_counts(*counts).contains_key((#[trigger] out@[i]).0@)
            && name_counts(*counts)[out@[i].0@] == out@[i].1 by {
            assert(out@[i].0@ == entries@[rv[i].index as int].0@);
        }
        assert forall|n: Seq<char>| #[trigger] name_counts(*counts).contains_key(n) implies exists|i: int|
            0 <= i < out@.len() && (#[trigger] out@[i]).0@ == n by {
            let e = choose|e: int| 0 <= e < entries@.len() && (#[trigger] entries@[e]).0@ == n;
            assert(crate::ranking::index_present(rv, e));
            let i = choose|i: int| 0 <= i < rv.len() && (#[trigger] rv[i]).index == e;
            assert(out@[i].0@ == entries@[e].0@);
        }
        assert forall|i: int, j: int| 0 <= i < j < out@.len() implies (#[trigger] out@[i]).0@ != (#[trigger] out@[j]).0@ by {
            assert(rv[i].index != rv[j].index);
        }
        assert forall|i: int, j: int| 0 <= i < j < out@.len() implies !ranks_before(
            name_key(#[trigger] out@[j]),
            name_key(#[trigger] out@[i]),
        ) by {
            assert(!ranks_before(rv[j], rv[i]));
            assert(rv[j] == kv[rv[j].index as int]);
            assert(rv[i] == kv[rv[i].index as int]);
        }
    }
    out
}

/// The (kind, rule) counts, largest first; equal counts by the kind's label, then by rule.
pub fn ranked_pairs(counts: &PairCounts) -> (r: Vec<(LintKind, String, usize)>)
    ensures
        forall|i: int|
            0 <= i < r@.len() ==> pair_counts(*counts).contains_key(((#[trigger] r@[i]).0, r@[i].1@))
                && pair_counts(*counts)[(r@[i].0, r@[i].1@)] == r@[i].2,
        forall|p: (LintKind, Seq<char>)| #[trigger] pair_counts(*counts).contains_key(p) ==> exists|i: int|
            0 <= i < r@.len() && (#[trigger] r@[i]).0 == p.0 && r@[i].1@ == p.1,
        forall|i: int, j: int| 0 <= i < j < r@.len() ==> (#[trigger] r@[i]).0 != (#[trigger] r@[j]).0 || r@[i].1@ != r@[j].1@,
        forall|i: int, j: int| 0 <= i < j < r@.len() ==> !ranks_before(pair_key(#[trigger] r@[j]), pair_key(#[trigger] r@[i])),
{
    let entries = counts.entries();
    let mut keys: Vec<Ranked> = Vec::new();
    let mut i: usize = 0;
    while i < entries.len()
        invariant
            i <= entries@.len(),
            keys@.len() == i,
            forall|q: int| 0 <= q < i ==> (#[trigger] keys@[q])@ == (RankedV { index: q as nat, ..pair_key(entries@[q]) }),
        decreases entries.len() - i,
    {
        let label = entries[i].0.to_label();
        keys.push(
            Ranked {
                count: entries[i].2,
                first: str_to_chars(label.as_str()),
                second: str_to_chars(entries[i].1.as_str()),
                index: i,
            },
        );
        i = i + 1;
    }
    let ranked = rank(&keys);
    let ghost rv = ranked_view(ranked@);
    let ghost kv = ranked_view(keys@);
    let mut out: Vec<(LintKind, String, usize)> = Vec::new();
    let mut j: usize = 0;
    while j < ranked.len()
        invariant
            j <= ranked@.len(),
            rv == ranked_view(ranked@),
            kv == ranked_view(keys@),
            rv.len() == entries@.len(),
            kv.len() == entries@.len(),
            forall|q: int| 0 <= q < kv.len() ==> (#[trigger] kv[q]) == (RankedV { index: q as nat, ..pair_key(entries@[q]) }),
            forall|q: int| 0 <= q < rv.len() ==> (#[trigger] rv[q]).index < kv.len() && rv[q] == kv[rv[q].index as int],
            out@.len() == j,
            forall|q: int|
                0 <= q < j ==> (#[trigger] out@[q]).0 == entries@[rv[q].index as int].0 && out@[q].1@ == entries@[rv[q].index as int].1@
                    && out@[q].2 == entries@[rv[q].index as int].2,
        decreases ranked.len() - j,
    {
        let idx = ranked[j].index;
        assert(rv[j as int].index == idx);
        out.push((entries[idx].0, entries[idx].1.clone(), entries[idx].2));
        j = j + 1;
    }
    proof {
        assert forall|i: int| 0 <= i < out@.len() implies pair_counts(*counts).contains_key(((#[trigger] out@[i]).0, out@[i].1@))
            && pair_counts(*counts)[(out@[i].0, out@[i].1@)] == out@[i].2 by {
            assert(out@[i].1@ == entries@[rv[i].index as int].1@);
        }
        assert forall|p: (LintKind, Seq<char>)| #[trigger] pair_counts(*counts).contains_key(p) implies exists|i: int|
            0 <= i < out@.len() && (#[trigger] out@[i]).0 == p.0 && out@[i].1@ == p.1 by {
            let e = choose|e: int| 0 <= e < entries@.len() && (#[trigger] entries@[e]).0 == p.0 && entries@[e].1@ == p.1;
            assert(crate::ranking::index_present(rv, e));
            let i = choose|i: int| 0 <= i < rv.len() && (#[trigger] rv[i]).index == e;
            assert(out@[i].1@ == entries@[e].1@);
        }
        assert forall|i: int, j: int| 0 <= i < j < out@.len() implies (#[trigger] out@[i]).0 != (#[trigger] out@[j]).0
            || out@[i].1@ != out@[j].1@ by {
            assert(rv[i].index != rv[j].index);
        }
        assert forall|i: int, j: int| 0 <= i < j < out@.len() implies !ranks_before(
            pair_key(#[trigger] out@[j]),
            pair_key(#[trigger] out@[i]),
        ) by {
            assert(!ranks_before(rv[j], rv[i]));
            assert(rv[j] == kv[rv[j].index as int]);
            assert(rv[i] == kv[rv[i].index as int]);
        }
    }
    out
}

// ---------------------------------------------------------------------------
// The text of each counted item.
// ---------------------------------------------------------------------------

/// An item of a printed list: its optional colour prefix and its text.
pub open spec fn spec_item(item: (Option<String>, String)) -> (Option<Seq<char>>, Seq<char>) {
    (
        match item.0 {
            Some(s) => Some(s@),
            None => None,
        },
        item.1@,
    )
}

/// `[label: count]`.
pub open spec fn kind_item_text(k: LintKind, c: nat) -> Seq<char> {
    "["@ + spec_label(k) + ": "@ + spec_decimal(c) + "]"@
}

/// `<rule: count>`, as a file's report lists rules.
pub open spec fn rule_item_text(rule: Seq<char>, c: nat) -> Seq<char> {
    "<"@ + rule + ": "@ + spec_decimal(c) + ">"@
}

/// `(rule: count)`, as the summary of all files lists rules.
pub open spec fn all_rule_item_text(rule: Seq<char>, c: nat) -> Seq<char> {
    "("@ + rule + ": "@ + spec_decimal(c) + ")"@
}

/// `«« count label·rule »»`.
pub open spec fn pair_item_text(k: LintKind, rule: Seq<char>, c: nat) -> Seq<char> {
    "«« "@ + spec_decimal(c) + " "@ + spec_label(k) + "·"@ + rule + " »»"@
}

/// The colour prefix of a kind.
pub open spec fn kind_color(k: LintKind) -> Seq<char> {
    spec_ansi_rgb(spec_rgb_for(Some(k)))
}

/// The listed kind counts, each in the colour of its kind.
pub fn kind_items(ranked: &Vec<(LintKind, usize)>) -> (r: Vec<(Option<String>, String)>)
    ensures
        r@.len() == ranked@.len(),
        forall|i: int|
            0 <= i < r@.len() ==> spec_item(#[trigger] r@[i]) == (
                Some(kind_color(ranked@[i].0)),
                kind_item_text(ranked@[i].0, ranked@[i].1 as nat),
            ),
{
    let mut out: Vec<(Option<String>, String)> = Vec::new();
    let mut i: usize = 0;
    while i < ranked.len()
        invariant
            i <= ranked@.len(),
            out@.len() == i,
            forall|q: int|
                0 <= q < i ==> spec_item(#[trigger] out@[q]) == (
                    Some(kind_color(ranked@[q].0)),
                    kind_item_text(ranked@[q].0, ranked@[q].1 as nat),
                ),
        decreases ranked.len() - i,
    {
        let (k, c) = ranked[i];
        let prefix = ansi_rgb(rgb_for_lint_kind(Some(k)));
        let mut text = String::from_str("[");
        let label = k.to_label();
        text.append(label.as_str());
        text.append(": ");
        push_decimal(&mut text, c);
        text.append("]");
        assert(text@ =~= kind_item_text(k, c as nat));
        out.push((Some(prefix), text));
        i = i + 1;
    }
    out
}

/// The listed rule counts: `<rule: count>` in a file's report, `(rule: count)`
/// in the summary of all files.
pub fn rule_items(ranked: &Vec<(String, usize)>, all_files: bool) -> (r: Vec<(Option<String>, String)>)
    ensures
        r@.len() == ranked@.len(),
        forall|i: int|
            0 <= i < r@.len() ==> spec_item(#[trigger] r@[i]) == (
                None::<Seq<char>>,
                if all_files {
                    all_rule_item_text(ranked@[i].0@, ranked@[i].1 as nat)
                } else {
                    rule_item_text(ranked@[i].0@, ranked@[i].1 as nat)
                },
            ),
{
    let mut out: Vec<(Option<String>, String)> = Vec::new();
    let mut i: usize = 0;
    while i < ranked.len()
        invariant
            i <= ranked@.len(),
            out@.len() == i,
            forall|q: int|
                0 <= q < i ==> spec_item(#[trigger] out@[q]) == (
                    None::<Seq<char>>,
                    if all_files {
                        all_rule_item_text(ranked@[q].0@, ranked@[q].1 as nat)
                    } else {
                        rule_item_text(ranked@[q].0@, ranked@[q].1 as nat)
                    },
                ),
        decreases ranked.len() - i,
    {
        let mut text = String::from_str(if all_files { "(" } else { "<" });
        text.append(ranked[i].0.as_str());
        text.append(": ");
        push_decimal(&mut text, ranked[i].1);
        text.append(if all_files { ")" } else { ">" });
        proof {
            if all_files {
                assert(text@ =~= all_rule_item_text(ranked@[i as int].0@, ranked@[i as int].1 as nat));
            } else {
                assert(text@ =~= rule_item_text(ranked@[i as int].0@, ranked@[i as int].1 as nat));
            }
        }
        out.push((None, text));
        i = i + 1;
    }
    out
}

/// The listed (kind, rule) counts, each in the colour of its kind.
pub fn pair_items(ranked: &Vec<(LintKind, String, usize)>) -> (r: Vec<(Option<String>, String)>)
    ensures
        r@.len() == ranked@.len(),
        forall|i: int|
            0 <= i < r@.len() ==> spec_item(#[trigger] r@[i]) == (
                Some(kind_color(ranked@[i].0)),
                pair_item_text(ranked@[i].0, ranked@[i].1@, ranked@[i].2 as nat),
            ),
{
    let mut out: Vec<(Option<String>, String)> = Vec::new();
    let mut i: usize = 0;
    while i < ranked.len()
        invariant
            i <= ranked@.len(),
            out@.len() == i,
            forall|q: int|
                0 <= q < i ==> spec_item(#[trigger] out@[q]) == (
                    Some(kind_color(ranked@[q].0)),
                    pair_item_text(ranked@[q].0, ranked@[q].1@, ranked@[q].2 as nat),
                ),
        decreases ranked.len() - i,
    {
        let k = ranked[i].0;
        let prefix = ansi_rgb(rgb_for_lint_kind(Some(k)));
        let mut text = String::from_str("«« ");
        push_decimal(&mut text, ranked[i].2);
        text.append(" ");
        let label = k.to_label();
        text.append(label.as_str());
        text.append("·");
        text.append(ranked[i].1.as_str());
        text.append(" »»");
        assert(text@ =~= pair_item_text(k, ranked@[i as int].1@, ranked@[i as int].2 as nat));
        out.push((Some(prefix), text));
        i = i + 1;
    }
    out
}

// ---------------------------------------------------------------------------
// A file's report.
// ---------------------------------------------------------------------------

/// What a file's report says of the number of lints, after its path: that
/// nothing was found (unless quiet), the counts before and after overlaps
/// were removed when they differ, or the count.
pub open spec fn spec_count_line(path: Seq<char>, before: nat, after: nat, quiet: bool) -> Option<Seq<char>> {
    if before == 0 {
        if quiet {
            None
        } else {
            Some(path + ": 未发现问题"@)
        }
    } else if before != after {
        Some(path + ": 去重前 "@ + spec_decimal(before) + " 处，去重后 "@ + spec_decimal(after) + " 处"@)
    } else {
        Some(path + ": 共 "@ + spec_decimal(before) + " 处问题"@)
    }
}

/// The line of a file's report that gives the number of lints.
pub fn count_line(path: &str, before: usize, after: usize, quiet: bool) -> (r: Option<String>)
    ensures
        match r {
            Some(l) => spec_count_line(path@, before as nat, after as nat, quiet) == Some(l@),
            None => spec_count_line(path@, before as nat, after as nat, quiet) is None,
        },
{
    if before == 0 {
        if quiet {
            return None;
        }
        let mut l = String::from_str(path);
        l.append(": 未发现问题");
        return Some(l);
    }
    let mut l = String::from_str(path);
    if before != after {
        l.append(": 去重前 ");
        push_decimal(&mut l, before);
        l.append(" 处，去重后 ");
        push_decimal(&mut l, after);
        l.append(" 处");
    } else {
        l.append(": 共 ");
        push_decimal(&mut l, before);
        l.append(" 处问题");
    }
    Some(l)
}

/// The longest line, in characters, that the full report shows in a batch.
pub open spec fn max_line_len() -> nat {
    150
}

/// In a batch, a document whose longest line passes the limit gets the brief
/// report in place of the full one.
pub open spec fn spec_use_brief(full_report: bool, batch_mode: bool, longest: nat) -> bool {
    full_report && batch_mode && longest > max_line_len()
}

/// Whether the full report of a document in a batch gives way to the brief one.
pub fn use_brief(full_report: bool, batch_mode: bool, longest: usize) -> (r: bool)
    ensures
        r == spec_use_brief(full_report, batch_mode, longest as nat),
{
    full_report && batch_mode && longest > 150
}

/// The notice that a document's lines are too long for the full report.
pub open spec fn spec_long_line_notice(path: Seq<char>, longest: nat) -> Seq<char> {
    path + ": 最长行 "@ + spec_decimal(longest) + " 超过限制 "@ + spec_decimal(max_line_len()) + "，改用简要输出"@
}

pub fn long_line_notice(path: &str, longest: usize) -> (r: String)
    ensures
        r@ == spec_long_line_notice(path@, longest as nat),
{
    let mut l = String::from_str(path);
    l.append(": 最长行 ");
    push_decimal(&mut l, longest);
    l.append(" 超过限制 ");
    push_decimal(&mut l, 150);
    l.append("，改用简要输出");
    l
}

/// The compact line of one lint: `path:line:column: kind::rule: message`.
pub open spec fn spec_compact_line(path: Seq<char>, source: Seq<char>, rule: Seq<char>, l: LintV) -> Seq<char> {
    let lc = spec_line_col(source, l.start);
    path + ":"@ + spec_decimal(lc.0 as nat) + ":"@ + spec_decimal(lc.1 as nat) + ": "@ + spec_label(l.kind) + "::"@ + rule
        + ": "@ + spec_localize(rule, l.message)
}

/// The compact lines of all lints, rule by rule.
pub open spec fn spec_compact_report(path: Seq<char>, source: Seq<char>, named: Seq<(Seq<char>, Seq<LintV>)>) -> Seq<
    Seq<char>,
>
    decreases named.len(),
{
    if named.len() == 0 {
        Seq::empty()
    } else {
        let last = named.last();
        spec_compact_report(path, source, named.drop_last()) + last.1.map_values(
            |l: LintV| spec_compact_line(path, source, last.0, l),
        )
    }
}

/// The compact report of a document: one line per lint, rule by rule.
pub fn compact_report(path: &str, named_lints: &Vec<(String, Vec<Lint>)>, source: &[char]) -> (r: Vec<String>)
    requires
        source@.len() < usize::MAX,
    ensures
        r@.map_values(|x: String| x@) == spec_compact_report(path@, source@, named_lints_view(named_lints@)),
{
    let ghost nv = named_lints_view(named_lints@);
    let mut out: Vec<String> = Vec::new();
    let mut i: usize = 0;
    while i < named_lints.len()
        invariant
            i <= nv.len(),
            nv == named_lints_view(named_lints@),
            source@.len() < usize::MAX,
            out@.map_values(|x: String| x@) == spec_compact_report(path@, source@, nv.take(i as int)),
        decreases named_lints.len() - i,
    {
        let rule = &named_lints[i].0;
        let lints = &named_lints[i].1;
        let ghost base = out@.map_values(|x: String| x@);
        let ghost lv = nv[i as int].1;
        proof {
            assert(lv == crate::lint::lints_view(lints@));
            assert(nv[i as int].0 == rule@);
        }
        let mut j: usize = 0;
        while j < lints.len()
            invariant
                j <= lints@.len(),
                lv == crate::lint::lints_view(lints@),
                source@.len() < usize::MAX,
                out@.map_values(|x: String| x@) == base + lv.take(j as int).map_values(
                    |l: LintV| spec_compact_line(path@, source@, rule@, l),
                ),
            decreases lints.len() - j,
        {
            let lint = &lints[j];
            let (line, col) = char_index_to_line_col(source, lint.span.start);
            let mut text = String::from_str(path);
            text.append(":");
            push_decimal(&mut text, line);
            text.append(":");
            push_decimal(&mut text, col);
            text.append(": ");
            let label = lint.lint_kind.to_label();
            text.append(label.as_str());
            text.append("::");
            text.append(rule.as_str());
            text.append(": ");
            let message = localize_lint_message(rule.as_str(), lint.message.as_str());
            text.append(message.as_str());
            proof {
                assert(lv[j as int] == lint@);
                assert(text@ =~= spec_compact_line(path@, source@, rule@, lv[j as int]));
                let ghost before = out@;
                assert(lv.take(j + 1).map_values(|l: LintV| spec_compact_line(path@, source@, rule@, l))
                    =~= lv.take(j as int).map_values(|l: LintV| spec_compact_line(path@, source@, rule@, l)).push(text@));
            }
            let ghost prev = out@;
            out.push(text);
            proof {
                assert(out@.map_values(|x: String| x@) =~= prev.map_values(|x: String| x@).push(out@.last()@));
            }
            j = j + 1;
        }
        proof {
            assert(lv.take(lints@.len() as int) =~= lv);
            assert(nv.take(i + 1).drop_last() =~= nv.take(i as int));
            assert(nv.take(i + 1).last() == nv[i as int]);
        }
        i = i + 1;
    }
    assert(nv.take(nv.len() as int) =~= nv);
    out
}

/// One lint as reported in JSON.
pub struct JsonLintRecord {
    pub rule: String,
    /// The kind's label.
    pub kind: String,
    /// The span, in characters.
    pub char_start: usize,
    pub char_end: usize,
    pub line: usize,
    pub column: usize,
    pub message: String,
    pub priority: u8,
    pub suggestions: Vec<String>,
    pub matched_text: String,
}

/// The mathematical content of a [`JsonLintRecord`].
pub struct JsonLintV {
    pub rule: Seq<char>,
    pub kind: Seq<char>,
    pub char_start: nat,
    pub char_end: nat,
    pub line: nat,
    pub column: nat,
    pub message: Seq<char>,
    pub priority: u8,
    pub suggestions: Seq<Seq<char>>,
    pub matched_text: Seq<char>,
}

impl View for JsonLintRecord {
    type V = JsonLintV;

    open spec fn view(&self) -> JsonLintV {
        JsonLintV {
            rule: self.rule@,
            kind: self.kind@,
            char_start: self.char_start as nat,
            char_end: self.char_end as nat,
            line: self.line as nat,
            column: self.column as nat,
            message: self.message@,
            priority: self.priority,
            suggestions: self.suggestions@.map_values(|x: String| x@),
            matched_text: self.matched_text@,
        }
    }
}

/// The JSON record of lint `l` of rule `rule` in `source`.
pub open spec fn spec_json_lint(source: Seq<char>, rule: Seq<char>, l: LintV) -> JsonLintV {
    let lc = spec_line_col(source, l.start);
    JsonLintV {
        rule: rule,
        kind: spec_label(l.kind),
        char_start: l.start as nat,
        char_end: l.end as nat,
        line: lc.0 as nat,
        column: lc.1 as nat,
        message: spec_localize(rule, l.message),
        priority: l.priority,
        suggestions: l.suggestions.map_values(|sg: SuggestionV| spec_display(sg)),
        matched_text: source.subrange(l.start, l.end),
    }
}

/// The JSON records of all lints, rule by rule.
pub open spec fn spec_json_lints(source: Seq<char>, named: Seq<(Seq<char>, Seq<LintV>)>) -> Seq<JsonLintV>
    decreases named.len(),
{
    if named.len() == 0 {
        Seq::empty()
    } else {
        let last = named.last();
        spec_json_lints(source, named.drop_last()) + last.1.map_values(|l: LintV| spec_json_lint(source, last.0, l))
    }
}

/// The JSON records of a document's lints, rule by rule.
pub fn json_lints(named_lints: &Vec<(String, Vec<Lint>)>, source: &[char]) -> (r: Vec<JsonLintRecord>)
    requires
        source@.len() < usize::MAX,
        spans_within(named_lints_view(named_lints@), source@.len() as int),
    ensures
        r@.map_values(|x: JsonLintRecord| x@) == spec_json_lints(source@, named_lints_view(named_lints@)),
{
    let ghost nv = named_lints_view(named_lints@);
    let mut out: Vec<JsonLintRecord> = Vec::new();
    let mut i: usize = 0;
    while i < named_lints.len()
        invariant
            i <= nv.len(),
            nv == named_lints_view(named_lints@),
            source@.len() < usize::MAX,
            spans_within(nv, source@.len() as int),
            out@.map_values(|x: JsonLintRecord| x@) == spec_json_lints(source@, nv.take(i as int)),
        decreases named_lints.len() - i,
    {
        let rule = &named_lints[i].0;
        let lints = &named_lints[i].1;
        let ghost base = out@.map_values(|x: JsonLintRecord| x@);
        let ghost lv = nv[i as int].1;
        proof {
            assert(lv == crate::lint::lints_view(lints@));
            assert(nv[i as int].0 == rule@);
        }
        let mut j: usize = 0;
        while j < lints.len()
            invariant
                i < nv.len(),
                j <= lints@.len(),
                lv == nv[i as int].1,
                lv == crate::lint::lints_view(lints@),
                source@.len() < usize::MAX,
                spans_within(nv, source@.len() as int),
                out@.map_values(|x: JsonLintRecord| x@) == base + lv.take(j as int).map_values(
                    |l: LintV| spec_json_lint(source@, rule@, l),
                ),
            decreases lints.len() - j,
        {
            let lint = &lints[j];
            proof {
                assert(lv[j as int] == lint@);
                assert(nv[i as int].1[j as int] == lv[j as int]);
                assert(lv.len() == lints@.len());
                assert(0 <= i < nv.len() && 0 <= j < nv[i as int].1.len());
                assert(spans_within(nv, source@.len() as int));
                assert(0 <= nv[i as int].1[j as int].start <= nv[i as int].1[j as int].end <= source@.len());
            }
            let (line, column) = char_index_to_line_col(source, lint.span.start);
            let mut suggestions: Vec<String> = Vec::new();
            let mut k: usize = 0;
            while k < lint.suggestions.len()
                invariant
                    k <= lint.suggestions@.len(),
                    suggestions@.map_values(|x: String| x@) == lint@.suggestions.take(k as int).map_values(
                        |sg: SuggestionV| spec_display(sg),
                    ),
                decreases lint.suggestions.len() - k,
            {
                let d = lint.suggestions[k].to_display_string();
                let ghost prev = suggestions@;
                suggestions.push(d);
                proof {
                    assert(lint@.suggestions[k as int] == lint.suggestions@[k as int]@);
                    assert(suggestions@.map_values(|x: String| x@) =~= prev.map_values(|x: String| x@).push(d@));
                    assert(lint@.suggestions.take(k + 1).map_values(|sg: SuggestionV| spec_display(sg))
                        =~= lint@.suggestions.take(k as int).map_values(|sg: SuggestionV| spec_display(sg)).push(d@));
                }
                k = k + 1;
            }
            proof {
                assert(lint@.suggestions.take(lint.suggestions@.len() as int) =~= lint@.suggestions);
            }
            let record = JsonLintRecord {
                rule: rule.clone(),
                kind: lint.lint_kind.to_label(),
                char_start: lint.span.start,
                char_end: lint.span.end,
                line,
                column,
                message: localize_lint_message(rule.as_str(), lint.message.as_str()),
                priority: lint.priority,
                suggestions,
                matched_text: lint.get_str(source),
            };
            proof {
                assert(record@ == spec_json_lint(source@, rule@, lv[j as int]));
                assert(lv.take(j + 1).map_values(|l: LintV| spec_json_lint(source@, rule@, l))
                    =~= lv.take(j as int).map_values(|l: LintV| spec_json_lint(source@, rule@, l)).push(record@));
            }
            let ghost prev = out@;
            out.push(record);
            proof {
                assert(out@.map_values(|x: JsonLintRecord| x@) =~= prev.map_values(|x: JsonLintRecord| x@).push(out@.last()@));
            }
            j = j + 1;
        }
        proof {
            assert(lv.take(lints@.len() as int) =~= lv);
            assert(nv.take(i + 1).drop_last() =~= nv.take(i as int));
            assert(nv.take(i + 1).last() == nv[i as int]);
        }
        i = i + 1;
    }
    assert(nv.take(nv.len() as int) =~= nv);
    out
}

/// What fixing a document reports, unless quiet: how many fixes were
/// written back to the file (or printed, for text and standard input), or
/// that there was nothing safe to fix.
pub open spec fn spec_fix_notice(path: Seq<char>, applied: nat, to_file: bool, quiet: bool) -> Option<Seq<char>> {
    if quiet {
        None
    } else if applied == 0 {
        Some(path + ": 没有可自动应用的安全修复（拼写类建议不会自动改，以免误伤）"@)
    } else if to_file {
        Some(path + ": 已自动修复 "@ + spec_decimal(applied) + " 处（中文/标点/空格等安全规则），并写回文件"@)
    } else {
        Some("已自动修复 "@ + spec_decimal(applied) + " 处（中文/标点/空格等安全规则；输出到标准输出）"@)
    }
}

/// The notice about fixing a document.
pub fn fix_notice(path: &str, applied: usize, to_file: bool, quiet: bool) -> (r: Option<String>)
    ensures
        match r {
            Some(l) => spec_fix_notice(path@, applied as nat, to_file, quiet) == Some(l@),
            None => spec_fix_notice(path@, applied as nat, to_file, quiet) is None,
        },
{
    if quiet {
        return None;
    }
    if applied == 0 {
        let mut l = String::from_str(path);
        l.append(": 没有可自动应用的安全修复（拼写类建议不会自动改，以免误伤）");
        return Some(l);
    }
    if to_file {
        let mut l = String::from_str(path);
        l.append(": 已自动修复 ");
        push_decimal(&mut l, applied);
        l.append(" 处（中文/标点/空格等安全规则），并写回文件");
        Some(l)
    } else {
        let mut l = String::from_str("已自动修复 ");
        push_decimal(&mut l, applied);
        l.append(" 处（中文/标点/空格等安全规则；输出到标准输出）");
        Some(l)
    }
}

} // verus!
