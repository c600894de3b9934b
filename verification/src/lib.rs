//! Chinese language support for grammar checking.
//!
//! - Pure Chinese spelling confusions (homophones, nasal finals, 的/地/得, etc.)
//! - Common Chinese usage errors
//! - Chinese–English mixed text (spacing style, punctuation)
//!
//! Out of scope: near-native full Chinese grammar.

pub mod cjk_english_spacing;
pub mod cli;
pub mod dictionary;
pub mod fix_laws;
pub mod json;
pub mod lint;
pub mod lint_group;
pub mod lint_kind;
pub mod overlaps;
pub mod pattern_laws;
pub mod pattern_linter;
pub mod punctuation;
pub mod ranking;
pub mod report;
pub mod rules;
pub mod script;
pub mod session;
pub mod sort;
pub mod spelling;
pub mod stats;
pub mod suggestion;
pub mod summary;
pub mod text;

pub use pattern_linter::{ChinesePatternLinter, PatternPair, PatternRuleSet};
pub use rules::{chinese_lint_group, load_builtin_rule_sets};
pub use script::{classify_char, has_cjk, has_latin, ScriptKind};

use lint_group::{upsert_all, LintGroup};
use rules::{chinese_group_rules, chinese_group_settings};
use vstd::prelude::*;

verus! {

/// Build a [`LintGroup`] containing all built-in Chinese rules (enabled by default).
pub fn lint_group() -> (g: LintGroup)
    ensures
        g.rules() == chinese_group_rules(),
        g.settings() == chinese_group_settings(),
{
    chinese_lint_group()
}

/// Merge all Chinese rules into an existing [`LintGroup`].
pub fn extend_lint_group(group: &mut LintGroup)
    ensures
        final(group).rules() == upsert_all(old(group).rules(), chinese_group_rules()),
        final(group).settings() == upsert_all(old(group).settings(), chinese_group_settings()),
{
    group.merge_from(chinese_lint_group());
}

} // verus!
