use harper_zh::cli::{apply_first_suggestions, is_safe_auto_fix_rule};
use harper_zh::lint::{Document, Lint, Span};
use harper_zh::lint_kind::LintKind;
use harper_zh::overlaps::remove_overlaps;
use harper_zh::lint_group::LintGroup;
use harper_zh::session::{fix_rounds, lint_input};
use harper_zh::{chinese_lint_group, lint_group};

fn named_lints(text: &str) -> Vec<(String, Vec<Lint>)> {
    let doc = Document::new_plain(text);
    chinese_lint_group().organized_lints(&doc)
}

fn all_messages(text: &str) -> Vec<(String, String)> {
    let mut out = Vec::new();
    for (rule, lints) in named_lints(text) {
        for lint in lints {
            out.push((rule.clone(), lint.message.clone()));
        }
    }
    out
}

fn fix_once(text: &str) -> (String, usize) {
    apply_first_suggestions(&named_lints(text), text)
}

#[test]
fn correct_sentence_not_flagged() {
    let hits = all_messages("今天早上吃饭了吗？他开心地跑回家，跑得很快。");
    assert!(hits.is_empty(), "{:?}", hits);
}

#[test]
fn pure_english_not_flagged_by_any_rule() {
    let hits = all_messages("This is pure English text.");
    assert!(hits.is_empty(), "{:?}", hits);
}

#[test]
fn homework_fixed() {
    assert_eq!(fix_once("我在写做业"), ("我在写作业".to_string(), 1));
}

#[test]
fn login_fixed() {
    assert_eq!(fix_once("请先登陆系统"), ("请先登录系统".to_string(), 1));
}

#[test]
fn de_after_verb_fixed() {
    assert_eq!(fix_once("他跑的很快"), ("他跑得很快".to_string(), 1));
}

#[test]
fn ascii_comma_fixed() {
    assert_eq!(fix_once("你好,世界"), ("你好，世界".to_string(), 1));
}

#[test]
fn spacing_example_fixed() {
    // Both ends of the Latin run are flagged, so one pass fixes the sentence.
    assert_eq!(fix_once("使用React框架"), ("使用 React 框架".to_string(), 2));
    let group = lint_group();
    assert_eq!(fix_rounds(&group, "使用React框架", 8, true), ("使用 React 框架".to_string(), 2));
}

#[test]
fn readme_corrections_not_flagged() {
    for text in [
        "今天早上吃饭了吗？",
        "他开心地跑回家，跑得很快。",
        "我们明天再见，作业做完了吗？",
        "我已经好像必须要登录系统。",
    ] {
        let hits = all_messages(text);
        assert!(hits.is_empty(), "{}: {:?}", text, hits);
    }
}

#[test]
fn readme_sentence_fixed_to_its_correction() {
    let group = lint_group();
    let (fixed, _) = fix_rounds(&group, "我以经好象必需要登陆系统。", usize::MAX, true);
    assert_eq!(fixed, "我已经好像必须要登录系统。");
}

#[test]
fn fixing_until_nothing_changes_leaves_no_safe_lint() {
    let group = lint_group();
    let text: String = std::iter::repeat('的').take(512).collect();
    let (fixed, applied) = fix_rounds(&group, &text, usize::MAX, true);
    assert_eq!(fixed, "的");
    assert_eq!(applied, 511);
    let again = group.organized_lints(&Document::new_plain(&fixed));
    assert!(again.iter().all(|(rule, lints)| !is_safe_auto_fix_rule(rule) || lints.is_empty()));
}

#[test]
fn triple_period_fixed() {
    assert_eq!(fix_once("他走了。。。"), ("他走了……".to_string(), 1));
}

#[test]
fn several_fixes_applied_back_to_front() {
    assert_eq!(fix_once("我在写做业,请先登陆系统"), ("我在写作业，请先登录系统".to_string(), 3));
}

#[test]
fn fixing_in_rounds_reaches_a_fixed_point() {
    let group = lint_group();
    // One round turns 的的的 into 的的; the next round into 的.
    assert_eq!(fix_once("的的的"), ("的的".to_string(), 1));
    assert_eq!(fix_rounds(&group, "的的的", 8, true), ("的".to_string(), 2));
    assert_eq!(fix_rounds(&group, "的的的", 1, true), ("的的".to_string(), 1));
    assert_eq!(fix_rounds(&group, "的的的", 0, true), ("的的的".to_string(), 0));
    assert_eq!(fix_rounds(&group, "没有问题", 8, true), ("没有问题".to_string(), 0));
}

#[test]
fn spell_check_is_never_auto_fixed() {
    assert!(!is_safe_auto_fix_rule("SpellCheck"));
    assert!(is_safe_auto_fix_rule("ZhHomophoneSpell"));
    assert!(is_safe_auto_fix_rule("ZhAnythingNew"));
    let named = vec![(
        "SpellCheck".to_string(),
        vec![Lint {
            span: harper_zh::lint::Span::new(0, 3),
            lint_kind: harper_zh::lint_kind::LintKind::Spelling,
            suggestions: vec![harper_zh::suggestion::Suggestion::ReplaceWith("get".chars().collect())],
            message: "Did you mean `get`?".to_string(),
            priority: 63,
        }],
    )];
    assert_eq!(apply_first_suggestions(&named, "gpt is a model"), ("gpt is a model".to_string(), 0));
}

#[test]
fn lint_input_without_fix_reports_everything() {
    let group = lint_group();
    let r = lint_input(&group, "我在写做业", false, 8, true).unwrap();
    assert_eq!(r.count_before, 1);
    assert_eq!(r.count_after, 1);
    assert!(r.fixed.is_none());
    assert_eq!(r.named_lints.iter().map(|(_, l)| l.len()).sum::<usize>(), 1);
}

#[test]
fn lint_input_with_fix_drops_fixed_rules() {
    let group = lint_group();
    let r = lint_input(&group, "我在写做业", true, 8, true).unwrap();
    assert_eq!(r.count_before, 1);
    assert_eq!(r.count_after, 0);
    assert_eq!(r.fixed, Some(("我在写作业".to_string(), 1)));
    assert!(r.named_lints.is_empty());
}

#[test]
fn lint_input_with_nothing_to_fix_keeps_report() {
    let group = lint_group();
    let r = lint_input(&group, "没有问题", true, 8, true).unwrap();
    assert_eq!(r.count_before, 0);
    assert_eq!(r.fixed, Some(("没有问题".to_string(), 0)));
    assert_eq!(r.named_lints.len(), 6);
}

#[test]
fn empty_group_reports_nothing() {
    let group = LintGroup::empty();
    let doc = Document::new_plain("我在写做业");
    assert!(group.organized_lints(&doc).is_empty());
}

#[test]
fn extended_empty_group_has_the_chinese_rules() {
    let mut group = LintGroup::empty();
    harper_zh::extend_lint_group(&mut group);
    let doc = Document::new_plain("惊天早上吃饭了吗");
    let extended: Vec<(String, usize)> = group.organized_lints(&doc).into_iter().map(|(n, l)| (n, l.len())).collect();
    let direct: Vec<(String, usize)> = lint_group().organized_lints(&doc).into_iter().map(|(n, l)| (n, l.len())).collect();
    assert_eq!(extended, direct);
    let names: Vec<&str> = extended.iter().map(|(n, _)| n.as_str()).collect();
    assert_eq!(
        names,
        vec!["ZhCjkEnglishSpacing", "ZhDeDiDe", "ZhHomophoneSpell", "ZhPunctuation", "ZhRedundancy", "ZhWordConfusion"]
    );
}

#[test]
fn idiom_misspelling_fixed() {
    assert_eq!(fix_once("我们要再接再励"), ("我们要再接再厉".to_string(), 1));
}

#[test]
fn single_words_left_alone_in_other_senses() {
    assert_eq!(fix_once("登陆月球"), ("登陆月球".to_string(), 0));
}

#[test]
fn overlapping_lints_are_removed_unless_kept() {
    let group = lint_group();
    let kept = lint_input(&group, "他好象来了", false, 8, true).unwrap();
    assert_eq!((kept.count_before, kept.count_after), (2, 2));
    let removed = lint_input(&group, "他好象来了", false, 8, false).unwrap();
    assert_eq!((removed.count_before, removed.count_after), (2, 1));
    let left: Vec<(String, usize)> =
        removed.named_lints.iter().filter(|(_, l)| !l.is_empty()).map(|(r, l)| (r.clone(), l.len())).collect();
    assert_eq!(left, vec![("ZhHomophoneSpell".to_string(), 1)]);
    assert_eq!(fix_rounds(&group, "他好象来了", 8, false), ("他好像来了".to_string(), 1));
    assert_eq!(fix_rounds(&group, "他好象来了", 8, true), ("他好像来了".to_string(), 2));
}

#[test]
fn overlap_removal_keeps_the_earliest_longest_lint() {
    let lint = |a: usize, b: usize| Lint {
        span: Span::new(a, b),
        lint_kind: LintKind::Style,
        suggestions: vec![],
        message: String::new(),
        priority: 0,
    };
    let named = vec![
        ("A".to_string(), vec![lint(0, 3)]),
        ("B".to_string(), vec![lint(2, 5), lint(5, 6)]),
        ("C".to_string(), vec![lint(0, 5)]),
    ];
    let r = remove_overlaps(&named);
    let spans: Vec<(String, Vec<(usize, usize)>)> = r
        .iter()
        .map(|(n, l)| (n.clone(), l.iter().map(|x| (x.span.start, x.span.end)).collect()))
        .collect();
    assert_eq!(
        spans,
        vec![
            ("A".to_string(), vec![]),
            ("B".to_string(), vec![(5, 6)]),
            ("C".to_string(), vec![(0, 5)]),
        ]
    );
}

#[test]
fn standalone_xuyao_flagged_but_not_in_bixuyao() {
    assert!(all_messages("我须要帮助").iter().any(|(r, _)| r == "ZhWordConfusion"));
    assert!(all_messages("我必须要走").is_empty());
}
