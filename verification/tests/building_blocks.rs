use harper_zh::cjk_english_spacing::CjkEnglishSpacing;
use harper_zh::lint::{sort_lints_by_start, sort_lints_by_start_desc, Document, Lint, Span};
use harper_zh::lint_group::{LintGroup, LintGroupConfig, ZhLinter};
use harper_zh::lint_kind::LintKind;
use harper_zh::punctuation::ChinesePunctuation;
use harper_zh::ranking::{rank, str_lt_exec, Ranked};
use harper_zh::report::lint_kind_to_rgb;
use harper_zh::script::{
    has_cjk, has_latin, is_ascii_alphabetic, is_cjk_char, is_cjk_punctuation, is_han, is_whitespace,
};
use harper_zh::suggestion::{Suggestion, SuggestionCollectionExt};
use harper_zh::summary::push_decimal;
use harper_zh::text::{chars_eq, chars_to_string, copy_chars, find_from, matches_at, push_chars, str_to_chars};

fn at(start: usize, message: &str) -> Lint {
    Lint {
        span: Span::new(start, start + 1),
        lint_kind: LintKind::Style,
        suggestions: vec![],
        message: message.into(),
        priority: 1,
    }
}

#[test]
fn spans_overlap_only_when_sharing_a_character() {
    assert!(Span::new(0, 3).overlaps_with(Span::new(2, 5)));
    assert!(!Span::new(0, 3).overlaps_with(Span::new(3, 5)));
    assert!(!Span::new(0, 2).overlaps_with(Span::new(5, 6)));
    assert_eq!(Span::new(2, 7).len(), 5);
    assert!(Span::new(4, 4).is_empty());
}

#[test]
fn documents_hold_their_characters() {
    let d = Document::from_chars(vec!['你', '好']);
    assert_eq!(d.get_source(), &['你', '好']);
    assert_eq!(Document::new_plain("ab").get_source(), &['a', 'b']);
}

#[test]
fn lints_sorted_stably_by_start() {
    let sorted = sort_lints_by_start(vec![at(3, "a"), at(1, "b"), at(3, "c"), at(0, "d")], 4);
    let order: Vec<&str> = sorted.iter().map(|l| l.message.as_str()).collect();
    assert_eq!(order, vec!["d", "b", "a", "c"]);
    let sorted = sort_lints_by_start_desc(vec![at(3, "a"), at(1, "b"), at(3, "c"), at(0, "d")]);
    let order: Vec<&str> = sorted.iter().map(|l| l.message.as_str()).collect();
    assert_eq!(order, vec!["a", "c", "b", "d"]);
}

#[test]
fn groups_add_set_and_merge() {
    let mut group = LintGroup::empty();
    assert!(group.add("P", ZhLinter::Punctuation(ChinesePunctuation::new())));
    assert!(!group.add("P", ZhLinter::Spacing(CjkEnglishSpacing::new())));
    // A rule has a setting only once it is turned on or off.
    assert!(!group.has_rule("P"));
    assert!(!group.is_rule_enabled("P"));
    group.set_rule_enabled("P", true);
    assert!(group.has_rule("P"));
    assert!(group.is_rule_enabled("P"));
    let mut other = LintGroup::empty();
    other.add("S", ZhLinter::Spacing(CjkEnglishSpacing::new()));
    other.set_rule_enabled("S", true);
    group.merge_from(other);
    assert_eq!(group.iter_keys(), vec!["P".to_string(), "S".to_string()]);
    let descriptions = group.all_descriptions();
    assert_eq!(descriptions[0], ("P".to_string(), "中文标点与中英标点混用建议。".to_string()));
    group.set_all_rules_to(false);
    assert!(!group.is_rule_enabled("S"));
    let doc = Document::new_plain("你好,世界");
    assert_eq!(group.organized_lints(&doc).len(), 0);
    group.set_rule_enabled("P", true);
    let named = group.organized_lints(&doc);
    assert_eq!(named.len(), 1);
    assert_eq!(named[0].1.len(), 1);
}

#[test]
fn configs_set_read_and_merge() {
    let mut c = LintGroupConfig::new();
    assert!(!c.has_rule("A"));
    c.set_rule_enabled("A", true);
    c.set_rule_enabled("B", false);
    assert!(c.is_rule_enabled("A"));
    assert!(!c.is_rule_enabled("B"));
    assert!(c.has_rule("B"));
    let mut d = LintGroupConfig::new();
    d.set_rule_enabled("A", false);
    c.merge_from(d);
    assert!(!c.is_rule_enabled("A"));
}

#[test]
fn ranking_orders_by_count_then_names() {
    let r = |count: usize, first: &str, index: usize| Ranked {
        count,
        first: first.chars().collect(),
        second: vec![],
        index,
    };
    let ranked = rank(&vec![r(1, "b", 0), r(3, "z", 1), r(1, "a", 2), r(1, "b", 3)]);
    let idx: Vec<usize> = ranked.iter().map(|x| x.index).collect();
    assert_eq!(idx, vec![1, 2, 0, 3]);
    assert!(str_lt_exec(&['a'], &['b']));
    assert!(str_lt_exec(&['a'], &['a', 'a']));
    assert!(!str_lt_exec(&['b'], &['a', 'z']));
    assert!(!str_lt_exec(&['a'], &['a']));
}

#[test]
fn colour_table_holds_every_keyed_kind() {
    let table = lint_kind_to_rgb();
    assert_eq!(table.len(), 20);
    assert_eq!(table[0], (LintKind::Agreement, (0x22, 0x8B, 0x22)));
    assert_eq!(table[19], (LintKind::WordChoice, (0x22, 0x8B, 0x22)));
}

#[test]
fn character_classes() {
    assert!(is_whitespace('\u{3000}'));
    assert!(!is_whitespace('a'));
    assert!(is_ascii_alphabetic('Z'));
    assert!(!is_ascii_alphabetic('中'));
    assert!(is_cjk_char('中'));
    assert!(!is_cjk_char('，'));
    assert!(!is_cjk_char('a'));
    assert!(is_cjk_punctuation('。'));
    assert!(!is_cjk_punctuation('.'));
    assert!(is_han('\u{20000}'));
    assert!(!is_han('ア'));
    assert!(has_cjk("abc中"));
    assert!(!has_cjk("abc"));
    assert!(has_latin("中a"));
    assert!(!has_latin("中文1"));
}

#[test]
fn suggestions_built_and_shown() {
    let template: Vec<char> = "HELLO".chars().collect();
    assert_eq!(
        Suggestion::replace_with_match_case_str("world", &template),
        Suggestion::ReplaceWith("WORLD".chars().collect())
    );
    assert_eq!(Suggestion::ReplaceWith(vec!['作', '业']).to_display_string(), "替换为：「作业」");
    assert_eq!(Suggestion::InsertAfter(vec![',']).to_display_string(), "在其后插入：「,」");
    assert_eq!(Suggestion::Remove.to_display_string(), "删除此处");
    let words = vec!["a".to_string(), "b".to_string()];
    assert_eq!(
        words.to_replace_suggestions(&['X']),
        vec![Suggestion::ReplaceWith(vec!['A']), Suggestion::ReplaceWith(vec!['B'])]
    );
}

#[test]
fn text_helpers() {
    let chars = str_to_chars("你好世界");
    assert_eq!(chars.len(), 4);
    assert_eq!(chars_to_string(&chars, 1, 3), "好世");
    let mut s = String::from("x");
    push_chars(&mut s, &['y', 'z']);
    assert_eq!(s, "xyz");
    assert_eq!(copy_chars(&chars), chars);
    assert!(chars_eq(&['a'], &['a']));
    assert!(!chars_eq(&['a'], &['a', 'b']));
    assert!(matches_at(&chars, &['世', '界'], 2));
    assert!(!matches_at(&chars, &['世', '界'], 3));
    assert_eq!(find_from(&chars, &['世'], 0), Some(2));
    assert_eq!(find_from(&chars, &['世'], 3), None);
    let mut n = String::from("n=");
    push_decimal(&mut n, 405);
    assert_eq!(n, "n=405");
}
