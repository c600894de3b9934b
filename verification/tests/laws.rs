use harper_zh::lint::{Document, Lint};
use harper_zh::lint_kind::LintKind;
use harper_zh::pattern_linter::{ChinesePatternLinter, PatternPair, PatternRuleSet};
use harper_zh::punctuation::ChinesePunctuation;
use harper_zh::suggestion::{copy_casing, Suggestion};
use harper_zh::load_builtin_rule_sets;

fn pair(bad: &str, good: &str, message: &str) -> PatternPair {
    PatternPair { bad: bad.into(), good: good.into(), message: message.into() }
}

fn run(text: &str, pairs: Vec<PatternPair>) -> Vec<Lint> {
    let set = PatternRuleSet {
        name: "Law".into(),
        description: "law".into(),
        lint_kind: LintKind::WordChoice,
        priority: 10,
        pairs,
    };
    ChinesePatternLinter::from_rule_set(set).lint(&Document::new_plain(text))
}

fn spans(lints: &[Lint]) -> Vec<(usize, usize)> {
    lints.iter().map(|l| (l.span.start, l.span.end)).collect()
}

#[test]
fn pattern_lints_are_ordered_and_disjoint() {
    let lints = run("甲乙甲", vec![pair("乙", "丙", "b"), pair("甲", "丁", "a")]);
    assert_eq!(spans(&lints), vec![(0, 1), (1, 2), (2, 3)]);
    let lints = run("非常非", vec![pair("非常", "很", "x"), pair("常非", "y", "y")]);
    assert_eq!(spans(&lints), vec![(0, 2)]);
    assert_eq!(lints[0].message, "x");
}

#[test]
fn pattern_lint_carries_its_pair() {
    let lints = run("我在写做业", vec![pair("做业", "作业", "应为作业")]);
    assert_eq!(lints.len(), 1);
    assert_eq!(lints[0].suggestions, vec![Suggestion::ReplaceWith("作业".chars().collect())]);
    assert_eq!(lints[0].message, "应为作业");
    assert_eq!(lints[0].lint_kind, LintKind::WordChoice);
    assert_eq!(lints[0].priority, 10);
    let mut chars: Vec<char> = "我在写做业".chars().collect();
    lints[0].suggestions[0].apply(lints[0].span, &mut chars);
    assert_eq!(chars.into_iter().collect::<String>(), "我在写作业");
}

#[test]
fn pattern_scan_passes_over_self_overlap_only() {
    // The occurrence at 1 runs into the one taken at 0; the one at 2 is taken.
    let lints = run("啊啊啊啊", vec![pair("啊啊", "啊", "r")]);
    assert_eq!(spans(&lints), vec![(0, 2), (2, 4)]);
    let lints = run("啊啊啊", vec![pair("啊啊", "啊", "r")]);
    assert_eq!(spans(&lints), vec![(0, 2)]);
}

#[test]
fn inactive_pairs_never_match() {
    assert!(run("同同", vec![pair("同", "同", "same"), pair("", "x", "empty")]).is_empty());
}

#[test]
fn longest_pattern_wins_whatever_its_place() {
    let lints = run("非常非常非常好", vec![pair("非常非常非常", "非常", "long"), pair("非常", "很", "short")]);
    assert_eq!(spans(&lints), vec![(0, 6)]);
    assert_eq!(lints[0].message, "long");
}

#[test]
fn builtin_patterns_hold_han_characters() {
    for set in load_builtin_rule_sets() {
        for p in &set.pairs {
            assert!(p.bad.chars().any(harper_zh::script::is_han), "{} has no Han character", p.bad);
        }
        let linter = ChinesePatternLinter::from_rule_set(set);
        assert!(linter.lint(&Document::new_plain("No Han at all, only ASCII... and 1,2.3")).is_empty());
    }
}

#[test]
fn han_free_text_gets_only_triple_period_lints() {
    let lints = ChinesePunctuation::new().lint(&Document::new_plain("ok。。。 a,b. c..."));
    assert_eq!(spans(&lints), vec![(2, 5)]);
    assert_eq!(lints[0].priority, 60);
}

#[test]
fn pattern_scan_resumes_after_a_claimed_hit() {
    // 甲乙的 takes [0,3); the 的的 at [2,4) runs into it, and the scan goes on
    // to take the 的的 at [3,5).
    let lints = run("甲乙的的的", vec![pair("甲乙的", "丙", "long"), pair("的的", "的", "short")]);
    assert_eq!(spans(&lints), vec![(0, 3), (3, 5)]);
}

#[test]
fn builtin_fixes_make_no_new_match_of_their_rule() {
    for set in load_builtin_rule_sets() {
        let name = set.name.clone();
        let goods: Vec<String> = set.pairs.iter().filter(|p| p.bad != p.good).map(|p| p.good.clone()).collect();
        let linter = ChinesePatternLinter::from_rule_set(set);
        for g in goods {
            let lints = linter.lint(&Document::new_plain(&g));
            assert!(lints.is_empty(), "{}: {} is flagged", name, g);
        }
    }
}

#[test]
fn guard_phrase_claims_without_reporting() {
    let pairs = || vec![pair("须要", "需要", "short"), pair("必须要", "必须要", "guard")];
    assert!(run("我必须要走", pairs()).is_empty());
    assert_eq!(spans(&run("我须要帮助", pairs())), vec![(1, 3)]);
    assert_eq!(spans(&run("必须要，须要", pairs())), vec![(4, 6)]);
}

#[test]
fn string_keys_round_trip() {
    let kinds = [
        LintKind::Agreement,
        LintKind::BoundaryError,
        LintKind::Capitalization,
        LintKind::Eggcorn,
        LintKind::Enhancement,
        LintKind::Formatting,
        LintKind::Grammar,
        LintKind::Malapropism,
        LintKind::Miscellaneous,
        LintKind::Nonstandard,
        LintKind::Punctuation,
        LintKind::Readability,
        LintKind::Redundancy,
        LintKind::Regionalism,
        LintKind::Repetition,
        LintKind::Spelling,
        LintKind::Style,
        LintKind::Typo,
        LintKind::Usage,
        LintKind::WordChoice,
        LintKind::WordOrder,
    ];
    for k in kinds {
        assert_eq!(LintKind::from_string_key(&k.to_string_key()), Some(k));
    }
    assert_eq!(LintKind::WordOrder.to_string_key(), "WordOrder");
    assert_eq!(LintKind::from_string_key("WordOrder"), Some(LintKind::WordOrder));
    assert_eq!(LintKind::from_string_key("spelling"), None);
}

#[test]
fn copy_casing_is_idempotent() {
    let template: Vec<char> = "HeLLo".chars().collect();
    let target: Vec<char> = "world!".chars().collect();
    let once = copy_casing(&template, &target);
    assert_eq!(once.iter().collect::<String>(), "WoRLd!");
    assert_eq!(copy_casing(&template, &once), once);
}
