//! The families that reported problems belong to, with their keys and labels.

use vstd::prelude::*;

verus! {

/// The family a reported problem belongs to (spelling, grammar, style, …).
#[derive(Debug, Clone, Copy, Hash, PartialEq, Eq, Structural)]
pub enum LintKind {
    Agreement,
    BoundaryError,
    Capitalization,
    Eggcorn,
    Enhancement,
    Formatting,
    Grammar,
    Malapropism,
    Miscellaneous,
    Nonstandard,
    Punctuation,
    Readability,
    Redundancy,
    Regionalism,
    Repetition,
    Spelling,
    Style,
    Typo,
    Usage,
    WordChoice,
    WordOrder,
}

impl Default for LintKind {
    fn default() -> (k: LintKind)
        ensures
            k == LintKind::Miscellaneous,
    {
        LintKind::Miscellaneous
    }
}

/// The number of kinds, each of which has an accepted key.
pub open spec fn keyed_kinds() -> int {
    21
}

/// The position of each kind in the declaration order.
pub open spec fn kind_index(k: LintKind) -> int {
    match k {
        LintKind::Agreement => 0,
        LintKind::BoundaryError => 1,
        LintKind::Capitalization => 2,
        LintKind::Eggcorn => 3,
        LintKind::Enhancement => 4,
        LintKind::Formatting => 5,
        LintKind::Grammar => 6,
        LintKind::Malapropism => 7,
        LintKind::Miscellaneous => 8,
        LintKind::Nonstandard => 9,
        LintKind::Punctuation => 10,
        LintKind::Readability => 11,
        LintKind::Redundancy => 12,
        LintKind::Regionalism => 13,
        LintKind::Repetition => 14,
        LintKind::Spelling => 15,
        LintKind::Style => 16,
        LintKind::Typo => 17,
        LintKind::Usage => 18,
        LintKind::WordChoice => 19,
        LintKind::WordOrder => 20,
    }
}

/// The kind at position `i` of the declaration order (`WordOrder` from the last position on).
pub open spec fn kind_at(i: int) -> LintKind {
    if i == 0 {
        LintKind::Agreement
    } else if i == 1 {
        LintKind::BoundaryError
    } else if i == 2 {
        LintKind::Capitalization
    } else if i == 3 {
        LintKind::Eggcorn
    } else if i == 4 {
        LintKind::Enhancement
    } else if i == 5 {
        LintKind::Formatting
    } else if i == 6 {
        LintKind::Grammar
    } else if i == 7 {
        LintKind::Malapropism
    } else if i == 8 {
        LintKind::Miscellaneous
    } else if i == 9 {
        LintKind::Nonstandard
    } else if i == 10 {
        LintKind::Punctuation
    } else if i == 11 {
        LintKind::Readability
    } else if i == 12 {
        LintKind::Redundancy
    } else if i == 13 {
        LintKind::Regionalism
    } else if i == 14 {
        LintKind::Repetition
    } else if i == 15 {
        LintKind::Spelling
    } else if i == 16 {
        LintKind::Style
    } else if i == 17 {
        LintKind::Typo
    } else if i == 18 {
        LintKind::Usage
    } else if i == 19 {
        LintKind::WordChoice
    } else {
        LintKind::WordOrder
    }
}

/// The machine key and the human-facing (Chinese) label of a kind.
pub open spec fn spec_names(k: LintKind) -> (Seq<char>, Seq<char>) {
    match k {
        LintKind::Agreement => ("Agreement"@, "主谓一致"@),
        LintKind::BoundaryError => ("BoundaryError"@, "分词边界"@),
        LintKind::Capitalization => ("Capitalization"@, "大小写"@),
        LintKind::Eggcorn => ("Eggcorn"@, "近音误用"@),
        LintKind::Enhancement => ("Enhancement"@, "表达优化"@),
        LintKind::Formatting => ("Formatting"@, "格式"@),
        LintKind::Grammar => ("Grammar"@, "语法"@),
        LintKind::Malapropism => ("Malapropism"@, "用词错误"@),
        LintKind::Miscellaneous => ("Miscellaneous"@, "其他"@),
        LintKind::Nonstandard => ("Nonstandard"@, "非标准用法"@),
        LintKind::Punctuation => ("Punctuation"@, "标点"@),
        LintKind::Readability => ("Readability"@, "可读性"@),
        LintKind::Redundancy => ("Redundancy"@, "语义冗余"@),
        LintKind::Regionalism => ("Regionalism"@, "地区变体"@),
        LintKind::Repetition => ("Repetition"@, "重复"@),
        LintKind::Spelling => ("Spelling"@, "拼写"@),
        LintKind::Style => ("Style"@, "风格"@),
        LintKind::Typo => ("Typo"@, "笔误"@),
        LintKind::Usage => ("Usage"@, "用法"@),
        LintKind::WordChoice => ("WordChoice"@, "用词选择"@),
        LintKind::WordOrder => ("WordOrder"@, "词序"@),
    }
}

/// The machine key of a kind: its variant name.
pub open spec fn spec_string_key(k: LintKind) -> Seq<char> {
    spec_names(k).0
}

/// The human-facing (Chinese) label of a kind.
pub open spec fn spec_label(k: LintKind) -> Seq<char> {
    spec_names(k).1
}

/// The first keyed kind, from position `i` on, whose key is `s`.
pub open spec fn kind_with_key_from(s: Seq<char>, i: int) -> Option<LintKind>
    decreases keyed_kinds() - i,
{
    if i < 0 || i >= keyed_kinds() {
        None
    } else if spec_string_key(kind_at(i)) == s {
        Some(kind_at(i))
    } else {
        kind_with_key_from(s, i + 1)
    }
}

/// The keyed kind whose key is `s`, if any.
pub open spec fn spec_from_string_key(s: Seq<char>) -> Option<LintKind> {
    kind_with_key_from(s, 0)
}

/// The exec names of a kind.
fn names_of(k: LintKind) -> (r: (&'static str, &'static str))
    ensures
        r.0@ == spec_names(k).0,
        r.1@ == spec_names(k).1,
{
    match k {
        LintKind::Agreement => ("Agreement", "主谓一致"),
        LintKind::BoundaryError => ("BoundaryError", "分词边界"),
        LintKind::Capitalization => ("Capitalization", "大小写"),
        LintKind::Eggcorn => ("Eggcorn", "近音误用"),
        LintKind::Enhancement => ("Enhancement", "表达优化"),
        LintKind::Formatting => ("Formatting", "格式"),
        LintKind::Grammar => ("Grammar", "语法"),
        LintKind::Malapropism => ("Malapropism", "用词错误"),
        LintKind::Miscellaneous => ("Miscellaneous", "其他"),
        LintKind::Nonstandard => ("Nonstandard", "非标准用法"),
        LintKind::Punctuation => ("Punctuation", "标点"),
        LintKind::Readability => ("Readability", "可读性"),
        LintKind::Redundancy => ("Redundancy", "语义冗余"),
        LintKind::Regionalism => ("Regionalism", "地区变体"),
        LintKind::Repetition => ("Repetition", "重复"),
        LintKind::Spelling => ("Spelling", "拼写"),
        LintKind::Style => ("Style", "风格"),
        LintKind::Typo => ("Typo", "笔误"),
        LintKind::Usage => ("Usage", "用法"),
        LintKind::WordChoice => ("WordChoice", "用词选择"),
        LintKind::WordOrder => ("WordOrder", "词序"),
    }
}

fn kind_at_exec(i: usize) -> (k: LintKind)
    ensures
        k == kind_at(i as int),
{
    match i {
        0 => LintKind::Agreement,
        1 => LintKind::BoundaryError,
        2 => LintKind::Capitalization,
        3 => LintKind::Eggcorn,
        4 => LintKind::Enhancement,
        5 => LintKind::Formatting,
        6 => LintKind::Grammar,
        7 => LintKind::Malapropism,
        8 => LintKind::Miscellaneous,
        9 => LintKind::Nonstandard,
        10 => LintKind::Punctuation,
        11 => LintKind::Readability,
        12 => LintKind::Redundancy,
        13 => LintKind::Regionalism,
        14 => LintKind::Repetition,
        15 => LintKind::Spelling,
        16 => LintKind::Style,
        17 => LintKind::Typo,
        18 => LintKind::Usage,
        19 => LintKind::WordChoice,
        _ => LintKind::WordOrder,
    }
}

impl LintKind {
    /// The kind whose key is `s`, if any: the inverse of `to_string_key`.
    pub fn from_string_key(s: &str) -> (r: Option<LintKind>)
        ensures
            r == spec_from_string_key(s@),
    {
        let chars = crate::text::str_to_chars(s);
        let mut i: usize = 0;
        while i < 21
            invariant
                i <= 21,
                chars@ == s@,
                spec_from_string_key(s@) == kind_with_key_from(s@, i as int),
            decreases 21 - i,
        {
            let k = kind_at_exec(i);
            let key = crate::text::str_to_chars(names_of(k).0);
            if crate::text::chars_eq(chars.as_slice(), key.as_slice()) {
                return Some(k);
            }
            i = i + 1;
        }
        None
    }

    /// The stable machine-readable key of this kind (its variant name).
    pub fn to_string_key(&self) -> (r: String)
        ensures
            r@ == spec_string_key(*self),
    {
        String::from_str(names_of(*self).0)
    }

    /// The human-facing (Chinese) label of this kind.
    pub fn to_label(&self) -> (r: String)
        ensures
            r@ == spec_label(*self),
    {
        String::from_str(names_of(*self).1)
    }
}

/// The keys of the keyed kinds are pairwise different.
proof fn lemma_keys_distinct(i: int, j: int)
    requires
        0 <= i < j < keyed_kinds(),
    ensures
        spec_string_key(kind_at(i)) != spec_string_key(kind_at(j)),
{
    reveal_strlit("Agreement");
    reveal_strlit("BoundaryError");
    reveal_strlit("Capitalization");
    reveal_strlit("Eggcorn");
    reveal_strlit("Enhancement");
    reveal_strlit("Formatting");
    reveal_strlit("Grammar");
    reveal_strlit("Malapropism");
    reveal_strlit("Miscellaneous");
    reveal_strlit("Nonstandard");
    reveal_strlit("Punctuation");
    reveal_strlit("Readability");
    reveal_strlit("Redundancy");
    reveal_strlit("Regionalism");
    reveal_strlit("Repetition");
    reveal_strlit("Spelling");
    reveal_strlit("Style");
    reveal_strlit("Typo");
    reveal_strlit("Usage");
    reveal_strlit("WordChoice");
    reveal_strlit("WordOrder");
    if i == 0 && j == 1 {
        assert("Agreement"@.len() != "BoundaryError"@.len());
    } else if i == 0 && j == 2 {
        assert("Agreement"@.len() != "Capitalization"@.len());
    } else if i == 0 && j == 3 {
        assert("Agreement"@.len() != "Eggcorn"@.len());
    } else if i == 0 && j == 4 {
        assert("Agreement"@.len() != "Enhancement"@.len());
    } else if i == 0 && j == 5 {
        assert("Agreement"@.len() != "Formatting"@.len());
    } else if i == 0 && j == 6 {
        assert("Agreement"@.len() != "Grammar"@.len());
    } else if i == 0 && j == 7 {
        assert("Agreement"@.len() != "Malapropism"@.len());
    } else if i == 0 && j == 8 {
        assert("Agreement"@.len() != "Miscellaneous"@.len());
    } else if i == 0 && j == 9 {
        assert("Agreement"@.len() != "Nonstandard"@.len());
    } else if i == 0 && j == 10 {
        assert("Agreement"@.len() != "Punctuation"@.len());
    } else if i == 0 && j == 11 {
        assert("Agreement"@.len() != "Readability"@.len());
    } else if i == 0 && j == 12 {
        assert("Agreement"@.len() != "Redundancy"@.len());
    } else if i == 0 && j == 13 {
        assert("Agreement"@.len() != "Regionalism"@.len());
    } else if i == 0 && j == 14 {
        assert("Agreement"@.len() != "Repetition"@.len());
    } else if i == 0 && j == 15 {
        assert("Agreement"@.len() != "Spelling"@.len());
    } else if i == 0 && j == 16 {
        assert("Agreement"@.len() != "Style"@.len());
    } else if i == 0 && j == 17 {
        assert("Agreement"@.len() != "Typo"@.len());
    } else if i == 0 && j == 18 {
        assert("Agreement"@.len() != "Usage"@.len());
    } else if i == 0 && j == 19 {
        assert("Agreement"@.len() != "WordChoice"@.len());
    } else if i == 1 && j == 2 {
        assert("BoundaryError"@.len() != "Capitalization"@.len());
    } else if i == 1 && j == 3 {
        assert("BoundaryError"@.len() != "Eggcorn"@.len());
    } else if i == 1 && j == 4 {
        assert("BoundaryError"@.len() != "Enhancement"@.len());
    } else if i == 1 && j == 5 {
        assert("BoundaryError"@.len() != "Formatting"@.len());
    } else if i == 1 && j == 6 {
        assert("BoundaryError"@.len() != "Grammar"@.len());
    } else if i == 1 && j == 7 {
        assert("BoundaryError"@.len() != "Malapropism"@.len());
    } else if i == 1 && j == 8 {
        assert("BoundaryError"@[0] != "Miscellaneous"@[0]);
    } else if i == 1 && j == 9 {
        assert("BoundaryError"@.len() != "Nonstandard"@.len());
    } else if i == 1 && j == 10 {
        assert("BoundaryError"@.len() != "Punctuation"@.len());
    } else if i == 1 && j == 11 {
        assert("BoundaryError"@.len() != "Readability"@.len());
    } else if i == 1 && j == 12 {
        assert("BoundaryError"@.len() != "Redundancy"@.len());
    } else if i == 1 && j == 13 {
        assert("BoundaryError"@.len() != "Regionalism"@.len());
    } else if i == 1 && j == 14 {
        assert("BoundaryError"@.len() != "Repetition"@.len());
    } else if i == 1 && j == 15 {
        assert("BoundaryError"@.len() != "Spelling"@.len());
    } else if i == 1 && j == 16 {
        assert("BoundaryError"@.len() != "Style"@.len());
    } else if i == 1 && j == 17 {
        assert("BoundaryError"@.len() != "Typo"@.len());
    } else if i == 1 && j == 18 {
        assert("BoundaryError"@.len() != "Usage"@.len());
    } else if i == 1 && j == 19 {
        assert("BoundaryError"@.len() != "WordChoice"@.len());
    } else if i == 2 && j == 3 {
        assert("Capitalization"@.len() != "Eggcorn"@.len());
    } else if i == 2 && j == 4 {
        assert("Capitalization"@.len() != "Enhancement"@.len());
    } else if i == 2 && j == 5 {
        assert("Capitalization"@.len() != "Formatting"@.len());
    } else if i == 2 && j == 6 {
        assert("Capitalization"@.len() != "Grammar"@.len());
    } else if i == 2 && j == 7 {
        assert("Capitalization"@.len() != "Malapropism"@.len());
    } else if i == 2 && j == 8 {
        assert("Capitalization"@.len() != "Miscellaneous"@.len());
    } else if i == 2 && j == 9 {
        assert("Capitalization"@.len() != "Nonstandard"@.len());
    } else if i == 2 && j == 10 {
        assert("Capitalization"@.len() != "Punctuation"@.len());
    } else if i == 2 && j == 11 {
        assert("Capitalization"@.len() != "Readability"@.len());
    } else if i == 2 && j == 12 {
        assert("Capitalization"@.len() != "Redundancy"@.len());
    } else if i == 2 && j == 13 {
        assert("Capitalization"@.len() != "Regionalism"@.len());
    } else if i == 2 && j == 14 {
        assert("Capitalization"@.len() != "Repetition"@.len());
    } else if i == 2 && j == 15 {
        assert("Capitalization"@.len() != "Spelling"@.len());
    } else if i == 2 && j == 16 {
        assert("Capitalization"@.len() != "Style"@.len());
    } else if i == 2 && j == 17 {
        assert("Capitalization"@.len() != "Typo"@.len());
    } else if i == 2 && j == 18 {
        assert("Capitalization"@.len() != "Usage"@.len());
    } else if i == 2 && j == 19 {
        assert("Capitalization"@.len() != "WordChoice"@.len());
    } else if i == 3 && j == 4 {
        assert("Eggcorn"@.len() != "Enhancement"@.len());
    } else if i == 3 && j == 5 {
        assert("Eggcorn"@.len() != "Formatting"@.len());
    } else if i == 3 && j == 6 {
        assert("Eggcorn"@[0] != "Grammar"@[0]);
    } else if i == 3 && j == 7 {
        assert("Eggcorn"@.len() != "Malapropism"@.len());
    } else if i == 3 && j == 8 {
        assert("Eggcorn"@.len() != "Miscellaneous"@.len());
    } else if i == 3 && j == 9 {
        assert("Eggcorn"@.len() != "Nonstandard"@.len());
    } else if i == 3 && j == 10 {
        assert("Eggcorn"@.len() != "Punctuation"@.len());
    } else if i == 3 && j == 11 {
        assert("Eggcorn"@.len() != "Readability"@.len());
    } else if i == 3 && j == 12 {
        assert("Eggcorn"@.len() != "Redundancy"@.len());
    } else if i == 3 && j == 13 {
        assert("Eggcorn"@.len() != "Regionalism"@.len());
    } else if i == 3 && j == 14 {
        assert("Eggcorn"@.len() != "Repetition"@.len());
    } else if i == 3 && j == 15 {
        assert("Eggcorn"@.len() != "Spelling"@.len());
    } else if i == 3 && j == 16 {
        assert("Eggcorn"@.len() != "Style"@.len());
    } else if i == 3 && j == 17 {
        assert("Eggcorn"@.len() != "Typo"@.len());
    } else if i == 3 && j == 18 {
        assert("Eggcorn"@.len() != "Usage"@.len());
    } else if i == 3 && j == 19 {
        assert("Eggcorn"@.len() != "WordChoice"@.len());
    } else if i == 4 && j == 5 {
        assert("Enhancement"@.len() != "Formatting"@.len());
    } else if i == 4 && j == 6 {
        assert("Enhancement"@.len() != "Grammar"@.len());
    } else if i == 4 && j == 7 {
        assert("Enhancement"@[0] != "Malapropism"@[0]);
    } else if i == 4 && j == 8 {
        assert("Enhancement"@.len() != "Miscellaneous"@.len());
    } else if i == 4 && j == 9 {
        assert("Enhancement"@[0] != "Nonstandard"@[0]);
    } else if i == 4 && j == 10 {
        assert("Enhancement"@[0] != "Punctuation"@[0]);
    } else if i == 4 && j == 11 {
        assert("Enhancement"@[0] != "Readability"@[0]);
    } else if i == 4 && j == 12 {
        assert("Enhancement"@.len() != "Redundancy"@.len());
    } else if i == 4 && j == 13 {
        assert("Enhancement"@[0] != "Regionalism"@[0]);
    } else if i == 4 && j == 14 {
        assert("Enhancement"@.len() != "Repetition"@.len());
    } else if i == 4 && j == 15 {
        assert("Enhancement"@.len() != "Spelling"@.len());
    } else if i == 4 && j == 16 {
        assert("Enhancement"@.len() != "Style"@.len());
    } else if i == 4 && j == 17 {
        assert("Enhancement"@.len() != "Typo"@.len());
    } else if i == 4 && j == 18 {
        assert("Enhancement"@.len() != "Usage"@.len());
    } else if i == 4 && j == 19 {
        assert("Enhancement"@.len() != "WordChoice"@.len());
    } else if i == 5 && j == 6 {
        assert("Formatting"@.len() != "Grammar"@.len());
    } else if i == 5 && j == 7 {
        assert("Formatting"@.len() != "Malapropism"@.len());
    } else if i == 5 && j == 8 {
        assert("Formatting"@.len() != "Miscellaneous"@.len());
    } else if i == 5 && j == 9 {
        assert("Formatting"@.len() != "Nonstandard"@.len());
    } else if i == 5 && j == 10 {
        assert("Formatting"@.len() != "Punctuation"@.len());
    } else if i == 5 && j == 11 {
        assert("Formatting"@.len() != "Readability"@.len());
    } else if i == 5 && j == 12 {
        assert("Formatting"@[0] != "Redundancy"@[0]);
    } else if i == 5 && j == 13 {
        assert("Formatting"@.len() != "Regionalism"@.len());
    } else if i == 5 && j == 14 {
        assert("Formatting"@[0] != "Repetition"@[0]);
    } else if i == 5 && j == 15 {
        assert("Formatting"@.len() != "Spelling"@.len());
    } else if i == 5 && j == 16 {
        assert("Formatting"@.len() != "Style"@.len());
    } else if i == 5 && j == 17 {
        assert("Formatting"@.len() != "Typo"@.len());
    } else if i == 5 && j == 18 {
        assert("Formatting"@.len() != "Usage"@.len());
    } else if i == 5 && j == 19 {
        assert("Formatting"@[0] != "WordChoice"@[0]);
    } else if i == 6 && j == 7 {
        assert("Grammar"@.len() != "Malapropism"@.len());
    } else if i == 6 && j == 8 {
        assert("Grammar"@.len() != "Miscellaneous"@.len());
    } else if i == 6 && j == 9 {
        assert("Grammar"@.len() != "Nonstandard"@.len());
    } else if i == 6 && j == 10 {
        assert("Grammar"@.len() != "Punctuation"@.len());
    } else if i == 6 && j == 11 {
        assert("Grammar"@.len() != "Readability"@.len());
    } else if i == 6 && j == 12 {
        assert("Grammar"@.len() != "Redundancy"@.len());
    } else if i == 6 && j == 13 {
        assert("Grammar"@.len() != "Regionalism"@.len());
    } else if i == 6 && j == 14 {
        assert("Grammar"@.len() != "Repetition"@.len());
    } else if i == 6 && j == 15 {
        assert("Grammar"@.len() != "Spelling"@.len());
    } else if i == 6 && j == 16 {
        assert("Grammar"@.len() != "Style"@.len());
    } else if i == 6 && j == 17 {
        assert("Grammar"@.len() != "Typo"@.len());
    } else if i == 6 && j == 18 {
        assert("Grammar"@.len() != "Usage"@.len());
    } else if i == 6 && j == 19 {
        assert("Grammar"@.len() != "WordChoice"@.len());
    } else if i == 7 && j == 8 {
        assert("Malapropism"@.len() != "Miscellaneous"@.len());
    } else if i == 7 && j == 9 {
        assert("Malapropism"@[0] != "Nonstandard"@[0]);
    } else if i == 7 && j == 10 {
        assert("Malapropism"@[0] != "Punctuation"@[0]);
    } else if i == 7 && j == 11 {
        assert("Malapropism"@[0] != "Readability"@[0]);
    } else if i == 7 && j == 12 {
        assert("Malapropism"@.len() != "Redundancy"@.len());
    } else if i == 7 && j == 13 {
        assert("Malapropism"@[0] != "Regionalism"@[0]);
    } else if i == 7 && j == 14 {
        assert("Malapropism"@.len() != "Repetition"@.len());
    } else if i == 7 && j == 15 {
        assert("Malapropism"@.len() != "Spelling"@.len());
    } else if i == 7 && j == 16 {
        assert("Malapropism"@.len() != "Style"@.len());
    } else if i == 7 && j == 17 {
        assert("Malapropism"@.len() != "Typo"@.len());
    } else if i == 7 && j == 18 {
        assert("Malapropism"@.len() != "Usage"@.len());
    } else if i == 7 && j == 19 {
        assert("Malapropism"@.len() != "WordChoice"@.len());
    } else if i == 8 && j == 9 {
        assert("Miscellaneous"@.len() != "Nonstandard"@.len());
    } else if i == 8 && j == 10 {
        assert("Miscellaneous"@.len() != "Punctuation"@.len());
    } else if i == 8 && j == 11 {
        assert("Miscellaneous"@.len() != "Readability"@.len());
    } else if i == 8 && j == 12 {
        assert("Miscellaneous"@.len() != "Redundancy"@.len());
    } else if i == 8 && j == 13 {
        assert("Miscellaneous"@.len() != "Regionalism"@.len());
    } else if i == 8 && j == 14 {
        assert("Miscellaneous"@.len() != "Repetition"@.len());
    } else if i == 8 && j == 15 {
        assert("Miscellaneous"@.len() != "Spelling"@.len());
    } else if i == 8 && j == 16 {
        assert("Miscellaneous"@.len() != "Style"@.len());
    } else if i == 8 && j == 17 {
        assert("Miscellaneous"@.len() != "Typo"@.len());
    } else if i == 8 && j == 18 {
        assert("Miscellaneous"@.len() != "Usage"@.len());
    } else if i == 8 && j == 19 {
        assert("Miscellaneous"@.len() != "WordChoice"@.len());
    } else if i == 9 && j == 10 {
        assert("Nonstandard"@[0] != "Punctuation"@[0]);
    } else if i == 9 && j == 11 {
        assert("Nonstandard"@[0] != "Readability"@[0]);
    } else if i == 9 && j == 12 {
        assert("Nonstandard"@.len() != "Redundancy"@.len());
    } else if i == 9 && j == 13 {
        assert("Nonstandard"@[0] != "Regionalism"@[0]);
    } else if i == 9 && j == 14 {
        assert("Nonstandard"@.len() != "Repetition"@.len());
    } else if i == 9 && j == 15 {
        assert("Nonstandard"@.len() != "Spelling"@.len());
    } else if i == 9 && j == 16 {
        assert("Nonstandard"@.len() != "Style"@.len());
    } else if i == 9 && j == 17 {
        assert("Nonstandard"@.len() != "Typo"@.len());
    } else if i == 9 && j == 18 {
        assert("Nonstandard"@.len() != "Usage"@.len());
    } else if i == 9 && j == 19 {
        assert("Nonstandard"@.len() != "WordChoice"@.len());
    } else if i == 10 && j == 11 {
        assert("Punctuation"@[0] != "Readability"@[0]);
    } else if i == 10 && j == 12 {
        assert("Punctuation"@.len() != "Redundancy"@.len());
    } else if i == 10 && j == 13 {
        assert("Punctuation"@[0] != "Regionalism"@[0]);
    } else if i == 10 && j == 14 {
        assert("Punctuation"@.len() != "Repetition"@.len());
    } else if i == 10 && j == 15 {
        assert("Punctuation"@.len() != "Spelling"@.len());
    } else if i == 10 && j == 16 {
        assert("Punctuation"@.len() != "Style"@.len());
    } else if i == 10 && j == 17 {
        assert("Punctuation"@.len() != "Typo"@.len());
    } else if i == 10 && j == 18 {
        assert("Punctuation"@.len() != "Usage"@.len());
    } else if i == 10 && j == 19 {
        assert("Punctuation"@.len() != "WordChoice"@.len());
    } else if i == 11 && j == 12 {
        assert("Readability"@.len() != "Redundancy"@.len());
    } else if i == 11 && j == 13 {
        assert("Readability"@[2] != "Regionalism"@[2]);
    } else if i == 11 && j == 14 {
        assert("Readability"@.len() != "Repetition"@.len());
    } else if i == 11 && j == 15 {
        assert("Readability"@.len() != "Spelling"@.len());
    } else if i == 11 && j == 16 {
        assert("Readability"@.len() != "Style"@.len());
    } else if i == 11 && j == 17 {
        assert("Readability"@.len() != "Typo"@.len());
    } else if i == 11 && j == 18 {
        assert("Readability"@.len() != "Usage"@.len());
    } else if i == 11 && j == 19 {
        assert("Readability"@.len() != "WordChoice"@.len());
    } else if i == 12 && j == 13 {
        assert("Redundancy"@.len() != "Regionalism"@.len());
    } else if i == 12 && j == 14 {
        assert("Redundancy"@[2] != "Repetition"@[2]);
    } else if i == 12 && j == 15 {
        assert("Redundancy"@.len() != "Spelling"@.len());
    } else if i == 12 && j == 16 {
        assert("Redundancy"@.len() != "Style"@.len());
    } else if i == 12 && j == 17 {
        assert("Redundancy"@.len() != "Typo"@.len());
    } else if i == 12 && j == 18 {
        assert("Redundancy"@.len() != "Usage"@.len());
    } else if i == 12 && j == 19 {
        assert("Redundancy"@[0] != "WordChoice"@[0]);
    } else if i == 13 && j == 14 {
        assert("Regionalism"@.len() != "Repetition"@.len());
    } else if i == 13 && j == 15 {
        assert("Regionalism"@.len() != "Spelling"@.len());
    } else if i == 13 && j == 16 {
        assert("Regionalism"@.len() != "Style"@.len());
    } else if i == 13 && j == 17 {
        assert("Regionalism"@.len() != "Typo"@.len());
    } else if i == 13 && j == 18 {
        assert("Regionalism"@.len() != "Usage"@.len());
    } else if i == 13 && j == 19 {
        assert("Regionalism"@.len() != "WordChoice"@.len());
    } else if i == 14 && j == 15 {
        assert("Repetition"@.len() != "Spelling"@.len());
    } else if i == 14 && j == 16 {
        assert("Repetition"@.len() != "Style"@.len());
    } else if i == 14 && j == 17 {
        assert("Repetition"@.len() != "Typo"@.len());
    } else if i == 14 && j == 18 {
        assert("Repetition"@.len() != "Usage"@.len());
    } else if i == 14 && j == 19 {
        assert("Repetition"@[0] != "WordChoice"@[0]);
    } else if i == 15 && j == 16 {
        assert("Spelling"@.len() != "Style"@.len());
    } else if i == 15 && j == 17 {
        assert("Spelling"@.len() != "Typo"@.len());
    } else if i == 15 && j == 18 {
        assert("Spelling"@.len() != "Usage"@.len());
    } else if i == 15 && j == 19 {
        assert("Spelling"@.len() != "WordChoice"@.len());
    } else if i == 16 && j == 17 {
        assert("Style"@.len() != "Typo"@.len());
    } else if i == 16 && j == 18 {
        assert("Style"@[0] != "Usage"@[0]);
    } else if i == 16 && j == 19 {
        assert("Style"@.len() != "WordChoice"@.len());
    } else if i == 17 && j == 18 {
        assert("Typo"@.len() != "Usage"@.len());
    } else if i == 17 && j == 19 {
        assert("Typo"@.len() != "WordChoice"@.len());
    } else if i == 18 && j == 19 {
        assert("Usage"@.len() != "WordChoice"@.len());
    } else if i == 0 && j == 20 {
        assert("Agreement"@[0] != "WordOrder"@[0]);
    } else if i == 1 && j == 20 {
        assert("BoundaryError"@.len() != "WordOrder"@.len());
    } else if i == 2 && j == 20 {
        assert("Capitalization"@.len() != "WordOrder"@.len());
    } else if i == 3 && j == 20 {
        assert("Eggcorn"@.len() != "WordOrder"@.len());
    } else if i == 4 && j == 20 {
        assert("Enhancement"@.len() != "WordOrder"@.len());
    } else if i == 5 && j == 20 {
        assert("Formatting"@.len() != "WordOrder"@.len());
    } else if i == 6 && j == 20 {
        assert("Grammar"@.len() != "WordOrder"@.len());
    } else if i == 7 && j == 20 {
        assert("Malapropism"@.len() != "WordOrder"@.len());
    } else if i == 8 && j == 20 {
        assert("Miscellaneous"@.len() != "WordOrder"@.len());
    } else if i == 9 && j == 20 {
        assert("Nonstandard"@.len() != "WordOrder"@.len());
    } else if i == 10 && j == 20 {
        assert("Punctuation"@.len() != "WordOrder"@.len());
    } else if i == 11 && j == 20 {
        assert("Readability"@.len() != "WordOrder"@.len());
    } else if i == 12 && j == 20 {
        assert("Redundancy"@.len() != "WordOrder"@.len());
    } else if i == 13 && j == 20 {
        assert("Regionalism"@.len() != "WordOrder"@.len());
    } else if i == 14 && j == 20 {
        assert("Repetition"@.len() != "WordOrder"@.len());
    } else if i == 15 && j == 20 {
        assert("Spelling"@.len() != "WordOrder"@.len());
    } else if i == 16 && j == 20 {
        assert("Style"@.len() != "WordOrder"@.len());
    } else if i == 17 && j == 20 {
        assert("Typo"@.len() != "WordOrder"@.len());
    } else if i == 18 && j == 20 {
        assert("Usage"@.len() != "WordOrder"@.len());
    } else if i == 19 && j == 20 {
        assert("WordChoice"@.len() != "WordOrder"@.len());
    }
}

/// Every kind sits at its own position among the keyed kinds.
proof fn lemma_kind_index(k: LintKind)
    ensures
        0 <= kind_index(k) < keyed_kinds(),
        kind_at(kind_index(k)) == k,
{
}

proof fn lemma_search_reaches(k: LintKind, i: int)
    requires
        0 <= i <= kind_index(k),
    ensures
        kind_with_key_from(spec_string_key(k), i) == Some(k),
    decreases kind_index(k) - i,
{
    lemma_kind_index(k);
    if i < kind_index(k) {
        lemma_keys_distinct(i, kind_index(k));
        lemma_search_reaches(k, i + 1);
    }
}

/// `from_string_key` undoes `to_string_key`: the key of every kind reads
/// back as that kind.
pub proof fn lemma_string_key_roundtrip(k: LintKind)
    ensures
        spec_from_string_key(spec_string_key(k)) == Some(k),
{
    lemma_search_reaches(k, 0);
}

proof fn lemma_search_sound(s: Seq<char>, i: int)
    ensures
        kind_with_key_from(s, i) matches Some(k) ==> spec_string_key(k) == s,
    decreases keyed_kinds() - i,
{
    if 0 <= i < keyed_kinds() {
        lemma_search_sound(s, i + 1);
    }
}

/// A key that `from_string_key` accepts is exactly the key of the kind it
/// returns.
pub proof fn lemma_string_key_accepted(s: Seq<char>)
    ensures
        spec_from_string_key(s) matches Some(k) ==> spec_string_key(k) == s,
{
    lemma_search_sound(s, 0);
}

} // verus!
