use harper_zh::cjk_english_spacing::CjkEnglishSpacing;
use harper_zh::lint::{Document, Lint};
use harper_zh::lint_kind::LintKind;
use harper_zh::pattern_linter::{ChinesePatternLinter, PatternPair, PatternRuleSet};
use harper_zh::punctuation::ChinesePunctuation;

fn lint_spacing(text: &str) -> Vec<Lint> {
    let doc = Document::new_plain(text);
    let l = CjkEnglishSpacing::new();
    l.lint(&doc)
}

#[test]
fn flags_cjk_latin() {
    let lints = lint_spacing("使用React框架");
    assert!(!lints.is_empty());
    assert!(lints.iter().any(|l| l.message.to_lowercase().contains("space")));
}

#[test]
fn spacing_flags_both_ends_of_latin_run() {
    let lints = lint_spacing("使用React框架");
    let spans: Vec<(usize, usize)> = lints.iter().map(|l| (l.span.start, l.span.end)).collect();
    assert_eq!(spans, vec![(1, 3), (6, 8)]);
    assert_eq!(lints[0].suggestions, vec![harper_zh::suggestion::Suggestion::ReplaceWith(vec!['用', ' ', 'R'])]);
    assert_eq!(lints[1].suggestions, vec![harper_zh::suggestion::Suggestion::ReplaceWith(vec!['t', ' ', '框'])]);
}

#[test]
fn ok_with_spaces() {
    let lints = lint_spacing("使用 React 框架");
    assert!(lints.is_empty());
}

fn lint_text(text: &str, pairs: Vec<PatternPair>) -> Vec<Lint> {
    let doc = Document::new_plain(text);
    let set = PatternRuleSet {
        name: "Test".into(),
        description: "test".into(),
        lint_kind: LintKind::Spelling,
        priority: 50,
        pairs,
    };
    let linter = ChinesePatternLinter::from_rule_set(set);
    linter.lint(&doc)
}

#[test]
fn finds_simple_pair() {
    let text = "惊天早上吃饭了吗";
    let lints = lint_text(
        text,
        vec![PatternPair {
            bad: "惊天早上".into(),
            good: "今天早上".into(),
            message: "应为今天早上".into(),
        }],
    );
    assert_eq!(lints.len(), 1);
    let chars: Vec<char> = text.chars().collect();
    assert_eq!(lints[0].get_str(&chars), "惊天早上");
}

#[test]
fn prefers_longer_match() {
    let lints = lint_text(
        "非常非常非常好",
        vec![
            PatternPair {
                bad: "非常".into(),
                good: "很".into(),
                message: "short".into(),
            },
            PatternPair {
                bad: "非常非常非常".into(),
                good: "非常".into(),
                message: "long".into(),
            },
        ],
    );
    assert_eq!(lints.len(), 1);
    assert_eq!(lints[0].message, "long");
}

fn lint_punct(text: &str) -> Vec<Lint> {
    let doc = Document::new_plain(text);
    let l = ChinesePunctuation::new();
    l.lint(&doc)
}

#[test]
fn flags_triple_period() {
    let lints = lint_punct("他走了。。。");
    assert!(lints.iter().any(|l| l.message.contains("省略号")));
}

#[test]
fn flags_ascii_comma() {
    let lints = lint_punct("你好,世界");
    assert!(lints.iter().any(|l| l.message.contains("逗号")));
}
