use harper_zh::cli::{
    configure_lint_group, line_to_parts, localize_lint_message, merge_default_ignores, parse_dialect, report_style,
    split_known_rules, Dialect, OutputFormat, ReportStyle,
};
use harper_zh::lint::{Lint, Span};
use harper_zh::lint_group::LintGroup;
use harper_zh::lint_kind::LintKind;
use harper_zh::report::{
    char_index_to_line_col, file_dict_name, find_longest_doc_line, format_items, format_path, plain_path,
    rgb_for_lint_kind, PathPart, TokenClass, TokenInfo,
};
use harper_zh::session::{keep_unsafe_rules, lint_count, run_outcome, RunOutcome};
use harper_zh::spelling::{group_spellings, ranked_spelling_groups, spelling_items};
use harper_zh::stats::{
    add_kind_counts, add_name_counts, add_pair_counts, collect_lint_kind_rule_pairs, collect_spellos,
    count_lint_kinds_and_rules, kind_sums_fit, name_sums_fit, pair_sums_fit, KindCounts, NameCounts, PairCounts,
};
use harper_zh::suggestion::Suggestion;
use harper_zh::summary::{
    fix_notice, ansi_rgb, compact_report, count_line, decimal, json_lints, kind_items, long_line_notice, pair_items, ranked_kinds,
    ranked_names, ranked_pairs, rule_items, use_brief,
};

fn lint(start: usize, end: usize, kind: LintKind, message: &str) -> Lint {
    Lint {
        span: Span::new(start, end),
        lint_kind: kind,
        suggestions: vec![Suggestion::ReplaceWith(vec!['x'])],
        message: message.to_string(),
        priority: 50,
    }
}

fn sample() -> Vec<(String, Vec<Lint>)> {
    vec![
        (
            "SpellCheck".to_string(),
            vec![
                lint(0, 3, LintKind::Spelling, "Did you mean to spell `Teh` this way?"),
                lint(4, 7, LintKind::Spelling, "Did you mean to spell `teh` this way?"),
                lint(8, 11, LintKind::Spelling, "Did you mean to spell `Teh` this way?"),
            ],
        ),
        ("ZhPunctuation".to_string(), vec![lint(11, 12, LintKind::Punctuation, "中文句子中宜使用中文逗号「，」。")]),
        ("ZhDeDiDe".to_string(), vec![]),
    ]
}

const SAMPLE_TEXT: &str = "Teh teh Teh,\n你好";

#[test]
fn decimal_and_colour_text() {
    assert_eq!(decimal(0), "0");
    assert_eq!(decimal(7), "7");
    assert_eq!(decimal(1234), "1234");
    assert_eq!(decimal(usize::MAX), usize::MAX.to_string());
    assert_eq!(ansi_rgb((0xEE, 0x42, 0x66)), "\x1b[38;2;238;66;102m");
}

#[test]
fn line_and_column() {
    let src: Vec<char> = "ab\ncd\n".chars().collect();
    assert_eq!(char_index_to_line_col(&src, 0), (1, 1));
    assert_eq!(char_index_to_line_col(&src, 4), (2, 2));
    assert_eq!(char_index_to_line_col(&src, 99), (3, 1));
}

#[test]
fn counting_by_kind_rule_and_pair() {
    let named = sample();
    assert_eq!(lint_count(&named), Some(4));
    let (kinds, rules) = count_lint_kinds_and_rules(&named);
    assert_eq!(ranked_kinds(&kinds), vec![(LintKind::Spelling, 3), (LintKind::Punctuation, 1)]);
    assert_eq!(ranked_names(&rules), vec![("SpellCheck".to_string(), 3), ("ZhPunctuation".to_string(), 1)]);
    let pairs = collect_lint_kind_rule_pairs(&named);
    assert_eq!(
        ranked_pairs(&pairs),
        vec![(LintKind::Spelling, "SpellCheck".to_string(), 3), (LintKind::Punctuation, "ZhPunctuation".to_string(), 1)]
    );
    let src: Vec<char> = SAMPLE_TEXT.chars().collect();
    let spellos = collect_spellos(&named, &src);
    assert_eq!(ranked_names(&spellos), vec![("Teh".to_string(), 2), ("teh".to_string(), 1)]);
}

#[test]
fn merging_counts_adds_key_by_key() {
    let named = sample();
    let (kinds, rules) = count_lint_kinds_and_rules(&named);
    let mut total = KindCounts::empty();
    assert!(kind_sums_fit(&total, &kinds));
    add_kind_counts(&mut total, &kinds);
    add_kind_counts(&mut total, &kinds);
    assert_eq!(ranked_kinds(&total), vec![(LintKind::Spelling, 6), (LintKind::Punctuation, 2)]);
    let mut names = NameCounts::empty();
    assert!(name_sums_fit(&names, &rules));
    add_name_counts(&mut names, &rules);
    assert_eq!(ranked_names(&names)[0], ("SpellCheck".to_string(), 3));
    let pairs = collect_lint_kind_rule_pairs(&named);
    let mut all_pairs = PairCounts::empty();
    assert!(pair_sums_fit(&all_pairs, &pairs));
    add_pair_counts(&mut all_pairs, &pairs);
    add_pair_counts(&mut all_pairs, &pairs);
    assert_eq!(ranked_pairs(&all_pairs)[1], (LintKind::Punctuation, "ZhPunctuation".to_string(), 2));
}

fn lints_of(kind: LintKind, n: usize) -> Vec<Lint> {
    (0..n).map(|i| lint(i, i + 1, kind, "m")).collect()
}

#[test]
fn ranked_items_text() {
    let named = vec![
        ("b".to_string(), lints_of(LintKind::Spelling, 1)),
        ("a".to_string(), lints_of(LintKind::Punctuation, 2)),
        ("c".to_string(), lints_of(LintKind::Punctuation, 1)),
    ];
    let (kinds, rules) = count_lint_kinds_and_rules(&named);
    let ranked = ranked_kinds(&kinds);
    assert_eq!(ranked, vec![(LintKind::Punctuation, 3), (LintKind::Spelling, 1)]);
    let items = kind_items(&ranked);
    assert_eq!(items[0], (Some("\x1b[38;2;212;133;15m".to_string()), "[标点: 3]".to_string()));
    assert_eq!(items[1].1, "[拼写: 1]");

    let ranked = ranked_names(&rules);
    assert_eq!(ranked, vec![("a".to_string(), 2), ("b".to_string(), 1), ("c".to_string(), 1)]);
    assert_eq!(rule_items(&ranked, false)[0], (None, "<a: 2>".to_string()));
    assert_eq!(rule_items(&ranked, true)[1], (None, "(b: 1)".to_string()));

    let named = vec![
        ("ZhCjkEnglishSpacing".to_string(), lints_of(LintKind::Style, 2)),
        ("Another".to_string(), lints_of(LintKind::Style, 2)),
    ];
    let pairs = collect_lint_kind_rule_pairs(&named);
    let ranked = ranked_pairs(&pairs);
    assert_eq!(ranked[0].1, "Another");
    assert_eq!(pair_items(&ranked)[1].1, "«« 2 风格·ZhCjkEnglishSpacing »»");
}

#[test]
fn spellings_grouped_by_lower_case() {
    let text = "Teh teh Teh recieve recieve recieve recieve";
    let src: Vec<char> = text.chars().collect();
    let spell = |s: usize, e: usize| lint(s, e, LintKind::Spelling, "Unknown word.");
    let named = vec![(
        "SpellCheck".to_string(),
        vec![spell(0, 3), spell(4, 7), spell(8, 11), spell(12, 19), spell(20, 27), spell(28, 35), spell(36, 43)],
    )];
    let spellos = collect_spellos(&named, &src);
    let groups = ranked_spelling_groups(&group_spellings(&spellos)).unwrap();
    assert_eq!(groups.len(), 2);
    assert_eq!(groups[0].0, "recieve");
    assert_eq!(groups[0].1, 4);
    assert_eq!(groups[1].0, "teh");
    assert_eq!(groups[1].1, 3);
    assert_eq!(groups[1].2, vec![("Teh".to_string(), 2), ("teh".to_string(), 1)]);
    let items = spelling_items(&groups);
    assert_eq!(items[0], (Some("\x1b[38;2;180;90;150m".to_string()), "(\u{201c}recieve\u{201d}: 4)".to_string()));
    assert_eq!(items[2], (Some("\x1b[38;2;90;180;90m".to_string()), "(\u{201c}teh\u{201d}: 1)".to_string()));
}

#[test]
fn compact_and_json_reports() {
    let named = sample();
    let src: Vec<char> = SAMPLE_TEXT.chars().collect();
    let lines = compact_report("dir/a.md", &named, &src);
    assert_eq!(lines.len(), 4);
    assert_eq!(lines[0], "dir/a.md:1:1: 拼写::SpellCheck: 疑似拼写错误：`Teh` 是否拼写正确？");
    assert_eq!(lines[3], "dir/a.md:1:12: 标点::ZhPunctuation: 中文句子中宜使用中文逗号「，」。");
    let records = json_lints(&named, &src);
    assert_eq!(records.len(), 4);
    assert_eq!(records[1].matched_text, "teh");
    assert_eq!(records[1].char_start, 4);
    assert_eq!(records[1].kind, "拼写");
    assert_eq!(records[1].suggestions, vec!["替换为：「x」".to_string()]);
    assert_eq!(records[3].line, 1);
    assert_eq!(records[3].column, 12);
}

#[test]
fn count_lines_and_long_lines() {
    assert_eq!(count_line("a", 0, 0, false), Some("a: 未发现问题".to_string()));
    assert_eq!(count_line("a", 0, 0, true), None);
    assert_eq!(count_line("a", 5, 3, true), Some("a: 去重前 5 处，去重后 3 处".to_string()));
    assert_eq!(count_line("a", 2, 2, false), Some("a: 共 2 处问题".to_string()));
    assert!(use_brief(true, true, 151));
    assert!(!use_brief(true, true, 150));
    assert!(!use_brief(true, false, 500));
    assert!(!use_brief(false, true, 500));
    assert_eq!(long_line_notice("x", 200), "x: 最长行 200 超过限制 150，改用简要输出");
}

#[test]
fn longest_line_from_tokens() {
    let t = |class, len| TokenInfo { class, len };
    let toks = vec![
        t(TokenClass::Other, 3),
        t(TokenClass::Unlintable, 50),
        t(TokenClass::LineBreak, 1),
        t(TokenClass::Other, 5),
    ];
    assert_eq!(find_longest_doc_line(&toks), 5);
    let ends_with_break = vec![t(TokenClass::Other, 4), t(TokenClass::LineBreak, 1)];
    assert_eq!(find_longest_doc_line(&ends_with_break), 4);
    assert_eq!(find_longest_doc_line(&[]), 0);
}

#[test]
fn items_wrap_at_width() {
    let items: Vec<(Option<String>, String)> = (0..3).map(|i| (Some("C".to_string()), "x".repeat(50 + i))).collect();
    let plain = format_items(&items, false);
    assert_eq!(plain, format!("{} {}\n{}\n", "x".repeat(50), "x".repeat(51), "x".repeat(52)));
    let coloured = format_items(&vec![(Some("C".to_string()), "ab".to_string()), (None, "cd".to_string())], true);
    assert_eq!(coloured, "Cab\x1b[0m cd\n");
}

#[test]
fn paths_and_dictionary_names() {
    assert_eq!(plain_path("", "a.md"), "a.md");
    assert_eq!(plain_path("docs", "a.md"), "docs/a.md");
    assert_eq!(format_path("docs", "a.md", true), "\x1b[33mdocs/\x1b[0ma.md");
    assert_eq!(format_path("docs", "a.md", false), "docs/a.md");
    let parts = vec![PathPart::RootDir, PathPart::Other("home".into()), PathPart::Other("a.md".into())];
    assert_eq!(file_dict_name(&parts), "home%a.md%");
    assert_eq!(rgb_for_lint_kind(Some(LintKind::Spelling)), (0xEE, 0x42, 0x66));
    assert_eq!(rgb_for_lint_kind(Some(LintKind::WordOrder)), (0, 0, 0));
    assert_eq!(rgb_for_lint_kind(None), (0, 0, 0));
}

#[test]
fn messages_localised() {
    assert_eq!(localize_lint_message("SpellCheck", "Did you mean “gpt”? Try `get`."), "您是否想写「get」？");
    assert_eq!(localize_lint_message("SpellCheck", "Unknown word."), "疑似拼写错误。");
    assert_eq!(localize_lint_message("Dashes", "Use an EM DASH here."), "建议将这三个连字符替换为破折号（—）。");
    assert_eq!(localize_lint_message("AnA", "Wrong article."), "不定冠词 a / an 使用不当。");
    assert_eq!(localize_lint_message("Other", "Replace this with that"), "建议替换：Replace this with that");
    assert_eq!(localize_lint_message("Other", "已经是中文"), "已经是中文");
    assert_eq!(localize_lint_message("Other", "keep me"), "keep me");
}

#[test]
fn dialects_parsed() {
    assert_eq!(parse_dialect("US"), Ok(Dialect::American));
    assert_eq!(parse_dialect("en_GB"), Ok(Dialect::British));
    assert_eq!(parse_dialect("Bharat"), Ok(Dialect::Indian));
    assert_eq!(parse_dialect("\u{212A}\u{212A}"), Err("Unknown dialect: \u{212A}\u{212A}".to_string()));
    assert_eq!(parse_dialect("xx"), Err("Unknown dialect: xx".to_string()));
}

#[test]
fn dictionary_lines_split() {
    assert_eq!(line_to_parts("word/ABC"), ("word".to_string(), "ABC".to_string()));
    assert_eq!(line_to_parts("a/b/c"), ("a".to_string(), "b/c".to_string()));
    assert_eq!(line_to_parts("plain"), ("plain".to_string(), String::new()));
}

#[test]
fn options_and_rule_selection() {
    assert_eq!(report_style(OutputFormat::Default, true), ReportStyle::BriefCountsOnly);
    assert_eq!(report_style(OutputFormat::Default, false), ReportStyle::FullAriadne);
    assert_eq!(report_style(OutputFormat::Json, true), ReportStyle::Json);
    assert_eq!(merge_default_ignores(None, false, false), Some(vec!["Dashes".to_string()]));
    assert_eq!(merge_default_ignores(Some(vec!["Dashes".into()]), false, false), Some(vec!["Dashes".to_string()]));
    assert_eq!(merge_default_ignores(None, true, false), None);
    assert_eq!(merge_default_ignores(None, false, true), None);

    let mut group = harper_zh::lint_group();
    let (known, unknown) = split_known_rules(vec!["ZhDeDiDe".into(), "Nope".into()], &group);
    assert_eq!(known, vec!["ZhDeDiDe".to_string()]);
    assert_eq!(unknown, vec!["Nope".to_string()]);
    assert!(configure_lint_group(&mut group, &Some(vec!["ZhDeDiDe".into()]), &None));
    assert!(group.is_rule_enabled("ZhDeDiDe"));
    assert!(!group.is_rule_enabled("ZhPunctuation"));
    assert!(!configure_lint_group(&mut group, &None, &Some(vec!["ZhDeDiDe".into()])));
    let empty = LintGroup::empty();
    assert!(!empty.has_rule("ZhDeDiDe"));
}

#[test]
fn run_outcomes() {
    let empty = PairCounts::empty();
    assert_eq!(run_outcome(false, &empty), RunOutcome::Clean);
    let spelling = collect_lint_kind_rule_pairs(&vec![("SpellCheck".to_string(), lints_of(LintKind::Spelling, 2))]);
    assert_eq!(run_outcome(true, &spelling), RunOutcome::OnlySuggestions);
    assert_eq!(run_outcome(false, &spelling), RunOutcome::NeedsAttention);
    let mixed = collect_lint_kind_rule_pairs(&vec![
        ("SpellCheck".to_string(), lints_of(LintKind::Spelling, 2)),
        ("Other".to_string(), lints_of(LintKind::Grammar, 1)),
    ]);
    assert_eq!(run_outcome(true, &mixed), RunOutcome::NeedsAttention);
    let chinese = collect_lint_kind_rule_pairs(&vec![("ZhHomophoneSpell".to_string(), lints_of(LintKind::Spelling, 1))]);
    assert_eq!(run_outcome(true, &chinese), RunOutcome::NeedsAttention);
}

#[test]
fn unsafe_rules_kept_in_order() {
    let kept = keep_unsafe_rules(sample());
    let names: Vec<&str> = kept.iter().map(|(n, _)| n.as_str()).collect();
    assert_eq!(names, vec!["SpellCheck"]);
    assert_eq!(kept[0].1.len(), 3);
}

#[test]
fn fix_notices() {
    assert_eq!(fix_notice("a.md", 2, true, false), Some("a.md: 已自动修复 2 处（中文/标点/空格等安全规则），并写回文件".to_string()));
    assert_eq!(fix_notice("<text>", 3, false, false), Some("已自动修复 3 处（中文/标点/空格等安全规则；输出到标准输出）".to_string()));
    assert_eq!(fix_notice("a.md", 0, true, false), Some("a.md: 没有可自动应用的安全修复（拼写类建议不会自动改，以免误伤）".to_string()));
    assert_eq!(fix_notice("a.md", 2, true, true), None);
}
