//! Reporting helpers for the command-line front end: message localisation,
//! applying safe fixes, positions, and rule selection.

use vstd::prelude::*;

use crate::lint::{lint_start_key, lints_view, sort_lints_by_start_desc, Lint, LintV};
use crate::lint_group::{all_set_to, lookup, named_lints_view, upsert_all, LintGroup, ZhLinterV};
use crate::sort::{key_bound, lemma_sort_desc_members, sort_desc_between};
use crate::suggestion::{spec_apply, spec_to_lower};
use crate::text::{find_from, occurs_at, push_chars, str_to_chars};

verus! {

/// `pat` occurs somewhere in `s`.
pub open spec fn contains(s: Seq<char>, pat: Seq<char>) -> bool {
    exists|i: int| occurs_at(s, pat, i)
}

/// `s` with its ASCII letters in lower case.
pub open spec fn ascii_lower(s: Seq<char>) -> Seq<char> {
    s.map_values(|c: char| spec_to_lower(c))
}

/// Some character of `s` lies in the CJK Unified Ideographs block.
pub open spec fn has_basic_cjk(s: Seq<char>) -> bool {
    exists|i: int| 0 <= i < s.len() && '\u{4e00}' <= #[trigger] s[i] && s[i] <= '\u{9fff}'
}

/// The first index at or after `from` where `s` holds `c`.
pub open spec fn index_of(s: Seq<char>, c: char, from: int) -> Option<int>
    decreases s.len() - from,
{
    if from < 0 || from >= s.len() {
        None
    } else if s[from] == c {
        Some(from)
    } else {
        index_of(s, c, from + 1)
    }
}

/// The text between the first two backticks of `s`, if it has two.
pub open spec fn first_tick(s: Seq<char>) -> Option<Seq<char>> {
    match index_of(s, '`', 0) {
        Some(i) => match index_of(s, '`', i + 1) {
            Some(j) => Some(s.subrange(i + 1, j)),
            None => None,
        },
        None => None,
    }
}

/// "Did you mean to spell …" in Chinese.
pub open spec fn spell_check_question(tick: Option<Seq<char>>) -> Seq<char> {
    match tick {
        Some(w) => "疑似拼写错误：`"@ + w + "` 是否拼写正确？"@,
        None => "疑似拼写错误。"@,
    }
}

/// "Did you mean …" in Chinese.
pub open spec fn did_you_mean(tick: Option<Seq<char>>) -> Seq<char> {
    match tick {
        Some(w) => "您是否想写「"@ + w + "」？"@,
        None => "疑似拼写错误，请检查拼写。"@,
    }
}

pub open spec fn fixed_rule_message_spec(rule: Seq<char>) -> Option<Seq<char>> {
    if rule == "PronounVerbAgreement"@ {
        Some("代词与动词在人称/数上应保持一致。"@)
    } else if rule == "AnA"@ {
        Some("不定冠词 a / an 使用不当。"@)
    } else if rule == "ItsContraction"@ {
        Some("此处宜用 it's（it is / it has），而不是所有格 its。"@)
    } else if rule == "ItsPossessive"@ {
        Some("此处宜用所有格 its，而不是 it's。"@)
    } else if rule == "TheirToThere"@ {
        Some("此处宜用 there，而不是 their。"@)
    } else if rule == "TheirToTheyre"@ {
        Some("此处宜用 they're，而不是 their。"@)
    } else if rule == "SentenceCapitalization"@ {
        Some("句首宜大写。"@)
    } else if rule == "RepeatedWords"@ {
        Some("词语重复。"@)
    } else if rule == "LongSentences"@ {
        Some("句子过长，可考虑拆分。"@)
    } else if rule == "UnclosedQuotes"@ {
        Some("引号未闭合。"@)
    } else if rule == "EllipsisLength"@ {
        Some("省略号长度不规范。"@)
    } else if rule == "MissingSpace"@ {
        Some("缺少空格。"@)
    } else if rule == "NumberSuffixCapitalization"@ {
        Some("序数词后缀大小写不规范。"@)
    } else if rule == "CorrectNumberSuffix"@ {
        Some("序数词后缀不正确。"@)
    } else if rule == "OxfordComma"@ {
        Some("牛津逗号相关建议。"@)
    } else if rule == "CommaFixes"@ {
        Some("逗号用法建议。"@)
    } else if rule == "CurrencyPlacement"@ {
        Some("货币符号位置建议。"@)
    } else if rule == "AvoidCurses"@ {
        Some("建议避免粗俗用语。"@)
    } else if rule == "BoringWords"@ {
        Some("用词较为平淡，可考虑更具体的表达。"@)
    } else if rule == "SpelledNumbers"@ {
        Some("数字书写形式建议。"@)
    } else {
        None
    }
}


/// Phrase-level Chinese renderings for messages of other rules.
pub open spec fn localize_by_phrase(message: Seq<char>) -> Seq<char> {
    let lower = ascii_lower(message);
    if contains(lower, "did you mean to spell"@) {
        spell_check_question(first_tick(message))
    } else if contains(lower, "did you mean"@) {
        did_you_mean(first_tick(message))
    } else if contains(lower, "three hyphens"@) || contains(lower, "em dash"@) {
        "建议将这三个连字符替换为破折号（—）。"@
    } else if contains(lower, "agree"@) && contains(lower, "pronoun"@) {
        "代词与动词在人称/数上应保持一致。"@
    } else if contains(lower, "indefinite article"@) {
        "不定冠词 a / an 使用不当。"@
    } else if contains(lower, "spelling"@) {
        "疑似拼写问题。"@
    } else if contains(lower, "replace"@) && contains(lower, "with"@) {
        "建议替换："@ + message
    } else {
        message
    }
}

/// A Chinese rendering of the message `message` of rule `rule`; messages
/// that already hold Chinese, and those no rendering applies to, are kept.
pub open spec fn spec_localize(rule: Seq<char>, message: Seq<char>) -> Seq<char> {
    if has_basic_cjk(message) {
        message
    } else if rule == "SpellCheck"@ {
        if contains(message, "Did you mean to spell"@) {
            spell_check_question(first_tick(message))
        } else if contains(message, "Did you mean"@) {
            did_you_mean(first_tick(message))
        } else {
            "疑似拼写错误。"@
        }
    } else if rule == "Dashes"@ {
        if contains(ascii_lower(message), "em dash"@) || contains(message, "three hyphens"@) {
            "建议将这三个连字符替换为破折号（—）。"@
        } else if contains(ascii_lower(message), "en dash"@) {
            "建议使用短破折号（–）。"@
        } else {
            "破折号用法建议。"@
        }
    } else if fixed_rule_message_spec(rule) is Some {
        fixed_rule_message_spec(rule)->0
    } else {
        localize_by_phrase(message)
    }
}

/// Whether `s` spells the literal `lit`.
fn eq_lit(s: &[char], lit: &str) -> (r: bool)
    ensures
        r == (s@ == lit@),
{
    let l = str_to_chars(lit);
    crate::text::chars_eq(s, l.as_slice())
}

/// Whether the literal `lit` occurs in `s`.
fn contains_lit(s: &[char], lit: &str) -> (r: bool)
    ensures
        r == contains(s@, lit@),
{
    let pat = str_to_chars(lit);
    if pat.len() == 0 {
        assert(occurs_at(s@, pat@, 0)) by {
            assert(s@.subrange(0, 0) =~= pat@);
        }
        return true;
    }
    match find_from(s, pat.as_slice(), 0) {
        Some(_) => true,
        None => false,
    }
}

/// `s` with its ASCII letters in lower case.
fn to_ascii_lower(s: &[char]) -> (r: Vec<char>)
    ensures
        r@ == ascii_lower(s@),
{
    let mut out: Vec<char> = Vec::new();
    let mut i: usize = 0;
    while i < s.len()
        invariant
            i <= s@.len(),
            out@ == ascii_lower(s@).take(i as int),
        decreases s.len() - i,
    {
        let c = s[i];
        let d = if 'A' <= c && c <= 'Z' {
            let b: u8 = (c as u32 + 32) as u8;
            b as char
        } else {
            c
        };
        out.push(d);
        assert(out@ =~= ascii_lower(s@).take(i + 1));
        i = i + 1;
    }
    assert(out@ =~= ascii_lower(s@));
    out
}

pub(crate) fn index_of_exec(s: &[char], c: char, from: usize) -> (r: Option<usize>)
    ensures
        r matches Some(i) ==> index_of(s@, c, from as int) == Some(i as int),
        r is None ==> index_of(s@, c, from as int) is None,
    decreases s@.len() - from,
{
    if from >= s.len() {
        None
    } else if s[from] == c {
        Some(from)
    } else {
        index_of_exec(s, c, from + 1)
    }
}

fn first_tick_exec(s: &[char]) -> (r: Option<Vec<char>>)
    ensures
        r matches Some(w) ==> first_tick(s@) == Some(w@),
        r is None ==> first_tick(s@) is None,
{
    let n = s.len();
    match index_of_exec(s, '`', 0) {
        Some(i) => {
            proof {
                lemma_index_of_bounds(s@, '`', 0);
            }
            assert(i < n);
            match index_of_exec(s, '`', i + 1) {
                Some(j) => {
                    proof {
                        lemma_index_of_bounds(s@, '`', i + 1);
                    }
                    let mut w: Vec<char> = Vec::new();
                    let mut k = i + 1;
                    while k < j
                        invariant
                            i + 1 <= k <= j <= s@.len(),
                            w@ == s@.subrange(i + 1, k as int),
                        decreases j - k,
                    {
                        w.push(s[k]);
                        k = k + 1;
                    }
                    Some(w)
                },
                None => None,
            }
        },
        None => None,
    }
}

pub(crate) proof fn lemma_index_of_bounds(s: Seq<char>, c: char, from: int)
    ensures
        index_of(s, c, from) matches Some(i) ==> from <= i < s.len() && s[i] == c,
    decreases s.len() - from,
{
    if 0 <= from < s.len() && s[from] != c {
        lemma_index_of_bounds(s, c, from + 1);
    }
}

/// Append the literal `lit` to `out`.
fn push_lit(out: &mut String, lit: &str)
    ensures
        final(out)@ == old(out)@ + lit@,
{
    out.append(lit);
}

/// The literal `pre`, then `w`, then the literal `post`.
fn wrap(pre: &str, w: &[char], post: &str) -> (r: String)
    ensures
        r@ == pre@ + w@ + post@,
{
    let mut s = String::from_str(pre);
    push_chars(&mut s, w);
    push_lit(&mut s, post);
    s
}

fn spell_check_question_exec(tick: Option<Vec<char>>) -> (r: String)
    ensures
        r@ == spell_check_question(match tick { Some(w) => Some(w@), None => None }),
{
    match tick {
        Some(w) => wrap("疑似拼写错误：`", w.as_slice(), "` 是否拼写正确？"),
        None => String::from_str("疑似拼写错误。"),
    }
}

fn did_you_mean_exec(tick: Option<Vec<char>>) -> (r: String)
    ensures
        r@ == did_you_mean(match tick { Some(w) => Some(w@), None => None }),
{
    match tick {
        Some(w) => wrap("您是否想写「", w.as_slice(), "」？"),
        None => String::from_str("疑似拼写错误，请检查拼写。"),
    }
}

fn fixed_rule_message(rule: &[char]) -> (r: Option<String>)
    ensures
        match r {
            Some(s) => fixed_rule_message_spec(rule@) == Some(s@),
            None => fixed_rule_message_spec(rule@) is None,
        },
{
    if eq_lit(rule, "PronounVerbAgreement") {
        return Some(String::from_str("代词与动词在人称/数上应保持一致。"));
    }
    if eq_lit(rule, "AnA") {
        return Some(String::from_str("不定冠词 a / an 使用不当。"));
    }
    if eq_lit(rule, "ItsContraction") {
        return Some(String::from_str("此处宜用 it's（it is / it has），而不是所有格 its。"));
    }
    if eq_lit(rule, "ItsPossessive") {
        return Some(String::from_str("此处宜用所有格 its，而不是 it's。"));
    }
    if eq_lit(rule, "TheirToThere") {
        return Some(String::from_str("此处宜用 there，而不是 their。"));
    }
    if eq_lit(rule, "TheirToTheyre") {
        return Some(String::from_str("此处宜用 they're，而不是 their。"));
    }
    if eq_lit(rule, "SentenceCapitalization") {
        return Some(String::from_str("句首宜大写。"));
    }
    if eq_lit(rule, "RepeatedWords") {
        return Some(String::from_str("词语重复。"));
    }
    if eq_lit(rule, "LongSentences") {
        return Some(String::from_str("句子过长，可考虑拆分。"));
    }
    if eq_lit(rule, "UnclosedQuotes") {
        return Some(String::from_str("引号未闭合。"));
    }
    if eq_lit(rule, "EllipsisLength") {
        return Some(String::from_str("省略号长度不规范。"));
    }
    if eq_lit(rule, "MissingSpace") {
        return Some(String::from_str("缺少空格。"));
    }
    if eq_lit(rule, "NumberSuffixCapitalization") {
        return Some(String::from_str("序数词后缀大小写不规范。"));
    }
    if eq_lit(rule, "CorrectNumberSuffix") {
        return Some(String::from_str("序数词后缀不正确。"));
    }
    if eq_lit(rule, "OxfordComma") {
        return Some(String::from_str("牛津逗号相关建议。"));
    }
    if eq_lit(rule, "CommaFixes") {
        return Some(String::from_str("逗号用法建议。"));
    }
    if eq_lit(rule, "CurrencyPlacement") {
        return Some(String::from_str("货币符号位置建议。"));
    }
    if eq_lit(rule, "AvoidCurses") {
        return Some(String::from_str("建议避免粗俗用语。"));
    }
    if eq_lit(rule, "BoringWords") {
        return Some(String::from_str("用词较为平淡，可考虑更具体的表达。"));
    }
    if eq_lit(rule, "SpelledNumbers") {
        return Some(String::from_str("数字书写形式建议。"));
    }
    None
}


/// Best-effort Chinese localization for rule messages (display only).
pub fn localize_lint_message(rule_name: &str, message: &str) -> (r: String)
    ensures
        r@ == spec_localize(rule_name@, message@),
{
    let rule = str_to_chars(rule_name);
    let msg = str_to_chars(message);

    // Already Chinese
    let mut i: usize = 0;
    while i < msg.len()
        invariant
            i <= msg@.len(),
            msg@ == message@,
            forall|j: int| 0 <= j < i ==> !('\u{4e00}' <= #[trigger] msg@[j] && msg@[j] <= '\u{9fff}'),
        decreases msg.len() - i,
    {
        if '\u{4e00}' <= msg[i] && msg[i] <= '\u{9fff}' {
            assert(message@[i as int] == msg@[i as int]);
            assert(has_basic_cjk(message@));
            return String::from_str(message);
        }
        i = i + 1;
    }

    let tick = first_tick_exec(msg.as_slice());
    let lower = to_ascii_lower(msg.as_slice());

    // Prefer rule-name based messages for stable UX
    if eq_lit(rule.as_slice(), "SpellCheck") {
        if contains_lit(msg.as_slice(), "Did you mean to spell") {
            return spell_check_question_exec(tick);
        }
        if contains_lit(msg.as_slice(), "Did you mean") {
            return did_you_mean_exec(tick);
        }
        return String::from_str("疑似拼写错误。");
    }
    if eq_lit(rule.as_slice(), "Dashes") {
        if contains_lit(lower.as_slice(), "em dash") || contains_lit(msg.as_slice(), "three hyphens") {
            return String::from_str("建议将这三个连字符替换为破折号（—）。");
        }
        if contains_lit(lower.as_slice(), "en dash") {
            return String::from_str("建议使用短破折号（–）。");
        }
        return String::from_str("破折号用法建议。");
    }
    if let Some(m) = fixed_rule_message(rule.as_slice()) {
        return m;
    }

    // Phrase-level fallbacks
    if contains_lit(lower.as_slice(), "did you mean to spell") {
        return spell_check_question_exec(tick);
    }
    if contains_lit(lower.as_slice(), "did you mean") {
        return did_you_mean_exec(tick);
    }
    if contains_lit(lower.as_slice(), "three hyphens") || contains_lit(lower.as_slice(), "em dash") {
        return String::from_str("建议将这三个连字符替换为破折号（—）。");
    }
    if contains_lit(lower.as_slice(), "agree") && contains_lit(lower.as_slice(), "pronoun") {
        return String::from_str("代词与动词在人称/数上应保持一致。");
    }
    if contains_lit(lower.as_slice(), "indefinite article") {
        return String::from_str("不定冠词 a / an 使用不当。");
    }
    if contains_lit(lower.as_slice(), "spelling") {
        return String::from_str("疑似拼写问题。");
    }
    if contains_lit(lower.as_slice(), "replace") && contains_lit(lower.as_slice(), "with") {
        let mut s = String::from_str("建议替换：");
        push_lit(&mut s, message);
        return s;
    }

    // Last resort: keep the message as it is, so nothing is hidden
    String::from_str(message)
}

/// A rule name beginning with `Zh`.
pub open spec fn starts_with_zh(rule: Seq<char>) -> bool {
    rule.len() >= 2 && rule[0] == 'Z' && rule[1] == 'h'
}

/// Rules that are safe to auto-fix (deterministic Chinese/punctuation/style fixes):
/// the Chinese rules, whose names begin with `Zh`.
pub fn is_safe_auto_fix_rule(rule_name: &str) -> (b: bool)
    ensures
        b == starts_with_zh(rule_name@),
{
    let rule = str_to_chars(rule_name);
    let named = eq_lit(rule.as_slice(), "ZhHomophoneSpell") || eq_lit(rule.as_slice(), "ZhDeDiDe")
        || eq_lit(rule.as_slice(), "ZhWordConfusion") || eq_lit(rule.as_slice(), "ZhRedundancy")
        || eq_lit(rule.as_slice(), "ZhPunctuation") || eq_lit(rule.as_slice(), "ZhCjkEnglishSpacing");
    proof {
        reveal_strlit("ZhHomophoneSpell");
        reveal_strlit("ZhDeDiDe");
        reveal_strlit("ZhWordConfusion");
        reveal_strlit("ZhRedundancy");
        reveal_strlit("ZhPunctuation");
        reveal_strlit("ZhCjkEnglishSpacing");
    }
    named || (rule.len() >= 2 && rule[0] == 'Z' && rule[1] == 'h')
}

/// The lints of the rules that are safe to auto-fix, rule by rule.
pub open spec fn safe_lints(named: Seq<(Seq<char>, Seq<LintV>)>) -> Seq<LintV>
    decreases named.len(),
{
    if named.len() == 0 {
        Seq::empty()
    } else {
        let rest = safe_lints(named.drop_last());
        if starts_with_zh(named.last().0) {
            rest + named.last().1
        } else {
            rest
        }
    }
}

/// Applying the first suggestion of each lint in turn to `chars`, passing
/// over lints without suggestions or whose span runs past the text; the
/// result is the text and the number of suggestions applied.
pub open spec fn apply_in_order(chars: Seq<char>, lints: Seq<LintV>) -> (Seq<char>, nat)
    decreases lints.len(),
{
    if lints.len() == 0 {
        (chars, 0)
    } else {
        let l = lints[0];
        if l.suggestions.len() == 0 || l.end > chars.len() || l.start > chars.len() {
            apply_in_order(chars, lints.drop_first())
        } else {
            let r = apply_in_order(spec_apply(l.suggestions[0], l.start, l.end, chars), lints.drop_first());
            (r.0, r.1 + 1)
        }
    }
}

/// The safe lints, from the end of the document backwards (lints with
/// equal starts keep their order).
pub open spec fn safe_lints_backwards(named: Seq<(Seq<char>, Seq<LintV>)>) -> Seq<LintV> {
    sort_desc_between(safe_lints(named), lint_start_key(), 0, key_bound(safe_lints(named), lint_start_key()))
}

/// Every lint of every rule that is fixed automatically has its start at or
/// before its end.
pub open spec fn spans_ordered(named: Seq<(Seq<char>, Seq<LintV>)>) -> bool {
    forall|i: int, j: int|
        0 <= i < named.len() && starts_with_zh(named[i].0) && 0 <= j < named[i].1.len()
            ==> #[trigger] named[i].1[j].start <= named[i].1[j].end
}

/// Apply the first suggestion of each **safe** lint, from the end of the document
/// forward so earlier spans stay valid. Returns (fixed_text, applied_count).
pub fn apply_first_suggestions(named_lints: &Vec<(String, Vec<Lint>)>, source: &str) -> (r: (String, usize))
    requires
        spans_ordered(named_lints_view(named_lints@)),
    ensures
        r.0@ == apply_in_order(source@, safe_lints_backwards(named_lints_view(named_lints@))).0,
        r.1 == apply_in_order(source@, safe_lints_backwards(named_lints_view(named_lints@))).1,
{
    let ghost nv = named_lints_view(named_lints@);
    let mut chars = str_to_chars(source);

    // The lints of the rules we trust to auto-fix.
    let mut items: Vec<Lint> = Vec::new();
    let mut i: usize = 0;
    while i < named_lints.len()
        invariant
            i <= named_lints@.len(),
            nv == named_lints_view(named_lints@),
            spans_ordered(nv),
            lints_view(items@) == safe_lints(nv.take(i as int)),
            forall|q: int| 0 <= q < items@.len() ==> (#[trigger] items@[q]).span.start <= items@[q].span.end,
        decreases named_lints.len() - i,
    {
        proof {
            assert(nv.take(i + 1).drop_last() =~= nv.take(i as int));
            assert(nv.take(i + 1).last() == nv[i as int]);
            assert(nv[i as int] == (named_lints@[i as int].0@, lints_view(named_lints@[i as int].1@)));
        }
        if is_safe_auto_fix_rule(named_lints[i].0.as_str()) {
            let lints = &named_lints[i].1;
            let ghost base = lints_view(items@);
            let mut k: usize = 0;
            while k < lints.len()
                invariant
                    k <= lints@.len(),
                    lints_view(items@) == base + lints_view(lints@).take(k as int),
                    nv == named_lints_view(named_lints@),
                    spans_ordered(nv),
                    i < nv.len(),
                    starts_with_zh(nv[i as int].0),
                    lints@ == named_lints@[i as int].1@,
                    forall|q: int| 0 <= q < items@.len() ==> (#[trigger] items@[q]).span.start <= items@[q].span.end,
                decreases lints.len() - k,
            {
                let c = lints[k].clone();
                proof {
                    assert(nv[i as int].1[k as int] == lints@[k as int]@);
                    assert(nv[i as int].1[k as int].start <= nv[i as int].1[k as int].end);
                    assert(lints_view(items@.push(c)) =~= lints_view(items@).push(c@));
                    assert(lints_view(lints@).take(k + 1) =~= lints_view(lints@).take(k as int).push(c@));
                }
                items.push(c);
                k = k + 1;
            }
            assert(lints_view(lints@).take(lints@.len() as int) =~= lints_view(lints@));
        }
        i = i + 1;
    }
    assert(nv.take(named_lints@.len() as int) =~= nv);

    let ghost unsorted = lints_view(items@);
    let ghost pre_items = items@;
    let items = sort_lints_by_start_desc(items);
    let ghost ordered = lints_view(items@);
    proof {
        lemma_sort_desc_members(unsorted, lint_start_key(), 0, key_bound(unsorted, lint_start_key()));
        assert forall|q: int| 0 <= q < ordered.len() implies (#[trigger] ordered[q]).start <= ordered[q].end by {
            assert(unsorted.contains(ordered[q]));
            let w = choose|w: int| 0 <= w < unsorted.len() && unsorted[w] == ordered[q];
            assert(unsorted[w] == pre_items[w]@);
        }
    }
    let mut applied: usize = 0;
    let mut k: usize = 0;
    assert(ordered.skip(0) =~= ordered);
    while k < items.len()
        invariant
            k <= items@.len(),
            applied <= k,
            ordered == lints_view(items@),
            forall|q: int| 0 <= q < ordered.len() ==> (#[trigger] ordered[q]).start <= ordered[q].end,
            apply_in_order(source@, ordered).0 == apply_in_order(chars@, ordered.skip(k as int)).0,
            apply_in_order(source@, ordered).1 == apply_in_order(chars@, ordered.skip(k as int)).1 + applied,
        decreases items.len() - k,
    {
        let lint = &items[k];
        proof {
            assert(ordered.skip(k as int)[0] == lint@);
            assert(ordered.skip(k as int).drop_first() =~= ordered.skip(k + 1));
        }
        if lint.suggestions.len() == 0 {
            k = k + 1;
            continue;
        }
        if lint.span.end > chars.len() || lint.span.start > chars.len() {
            k = k + 1;
            continue;
        }
        lint.suggestions[0].apply(lint.span, &mut chars);
        applied = applied + 1;
        k = k + 1;
    }
    assert(ordered.skip(k as int) =~= Seq::<LintV>::empty());
    (crate::text::chars_to_string(chars.as_slice(), 0, chars.len()), applied)
}

/// An English spelling dialect.
#[derive(Debug, Clone, Copy, PartialEq, Eq, Hash, Structural)]
pub enum Dialect {
    American,
    British,
    Australian,
    Indian,
    Canadian,
}

/// `c` in lower case as far as dialect names go: ASCII letters, and the
/// Kelvin sign, whose lower case is `k`; other characters are kept.
pub open spec fn dialect_fold(c: char) -> char {
    if c == '\u{212A}' {
        'k'
    } else {
        spec_to_lower(c)
    }
}

/// The dialect a dialect name (already folded to lower case) stands for.
pub open spec fn dialect_of_name_spec(name: Seq<char>) -> Option<Dialect> {
    if name == "us"@ || name == "usa"@ || name == "america"@ || name == "american"@ || name == "en-us"@ || name == "en_us"@ {
        Some(Dialect::American)
    } else if name == "uk"@ || name == "gb"@ || name == "british"@ || name == "britain"@ || name == "en-gb"@ || name == "en_gb"@ {
        Some(Dialect::British)
    } else if name == "au"@ || name == "aus"@ || name == "australia"@ || name == "australian"@ || name == "en-au"@ || name == "en_au"@ {
        Some(Dialect::Australian)
    } else if name == "in"@ || name == "india"@ || name == "indian"@ || name == "bharat"@ || name == "en-in"@ || name == "en_in"@ {
        Some(Dialect::Indian)
    } else if name == "ca"@ || name == "canada"@ || name == "canadian"@ || name == "en-ca"@ || name == "en_ca"@ {
        Some(Dialect::Canadian)
    } else {
        None
    }
}


/// Parse a dialect name; common synonyms, abbreviations and codes are
/// accepted in any letter case.
pub open spec fn spec_parse_dialect(name: Seq<char>) -> Result<Dialect, Seq<char>> {
    match dialect_of_name_spec(name.map_values(|c: char| dialect_fold(c))) {
        Some(d) => Ok(d),
        None => Err("Unknown dialect: "@ + name),
    }
}

fn dialect_of_name(name: &[char]) -> (r: Option<Dialect>)
    ensures
        r == dialect_of_name_spec(name@),
{
    if eq_lit(name, "us") || eq_lit(name, "usa") || eq_lit(name, "america") || eq_lit(name, "american") || eq_lit(name, "en-us") || eq_lit(name, "en_us") {
        return Some(Dialect::American);
    }
    if eq_lit(name, "uk") || eq_lit(name, "gb") || eq_lit(name, "british") || eq_lit(name, "britain") || eq_lit(name, "en-gb") || eq_lit(name, "en_gb") {
        return Some(Dialect::British);
    }
    if eq_lit(name, "au") || eq_lit(name, "aus") || eq_lit(name, "australia") || eq_lit(name, "australian") || eq_lit(name, "en-au") || eq_lit(name, "en_au") {
        return Some(Dialect::Australian);
    }
    if eq_lit(name, "in") || eq_lit(name, "india") || eq_lit(name, "indian") || eq_lit(name, "bharat") || eq_lit(name, "en-in") || eq_lit(name, "en_in") {
        return Some(Dialect::Indian);
    }
    if eq_lit(name, "ca") || eq_lit(name, "canada") || eq_lit(name, "canadian") || eq_lit(name, "en-ca") || eq_lit(name, "en_ca") {
        return Some(Dialect::Canadian);
    }
    None
}


/// Parse a dialect string into a Dialect enum value.
/// Supports common synonyms, abbreviations, and codes.
pub fn parse_dialect(dialect: &str) -> (r: Result<Dialect, String>)
    ensures
        match (r, spec_parse_dialect(dialect@)) {
            (Ok(d), Ok(e)) => d == e,
            (Err(m), Err(e)) => m@ == e,
            _ => false,
        },
{
    let chars = str_to_chars(dialect);
    let mut folded: Vec<char> = Vec::new();
    let mut i: usize = 0;
    while i < chars.len()
        invariant
            i <= chars@.len(),
            folded@ == chars@.map_values(|c: char| dialect_fold(c)).take(i as int),
        decreases chars.len() - i,
    {
        let c = chars[i];
        let d = if c == '\u{212A}' {
            'k'
        } else if 'A' <= c && c <= 'Z' {
            let b: u8 = (c as u32 + 32) as u8;
            b as char
        } else {
            c
        };
        folded.push(d);
        assert(folded@ =~= chars@.map_values(|c: char| dialect_fold(c)).take(i + 1));
        i = i + 1;
    }
    assert(folded@ =~= chars@.map_values(|c: char| dialect_fold(c)));
    match dialect_of_name(folded.as_slice()) {
        Some(d) => Ok(d),
        None => {
            let mut m = String::from_str("Unknown dialect: ");
            m.append(dialect);
            Err(m)
        },
    }
}

/// A dictionary line split at its first `/` into word and annotation.
pub open spec fn spec_line_to_parts(line: Seq<char>) -> (Seq<char>, Seq<char>) {
    match index_of(line, '/', 0) {
        Some(i) => (line.take(i), line.skip(i + 1)),
        None => (line, Seq::empty()),
    }
}

/// Split a dictionary line into its word and annotation segments.
pub fn line_to_parts(line: &str) -> (r: (String, String))
    ensures
        r.0@ == spec_line_to_parts(line@).0,
        r.1@ == spec_line_to_parts(line@).1,
{
    let chars = str_to_chars(line);
    match index_of_exec(chars.as_slice(), '/', 0) {
        Some(i) => {
            proof {
                lemma_index_of_bounds(chars@, '/', 0);
            }
            assert(i < chars.len());
            (
                crate::text::chars_to_string(chars.as_slice(), 0, i),
                crate::text::chars_to_string(chars.as_slice(), i + 1, chars.len()),
            )
        },
        None => (String::from_str(line), String::new()),
    }
}

/// Output format for lint results.
#[derive(Debug, Clone, Copy, PartialEq, Eq, Structural)]
pub enum OutputFormat {
    /// Rich output with source context.
    Default,
    /// Structured JSON output.
    Json,
    /// One line per lint, no source context.
    Compact,
}

impl Default for OutputFormat {
    fn default() -> (f: OutputFormat)
        ensures
            f == OutputFormat::Default,
    {
        OutputFormat::Default
    }
}

/// How a run reports its results.
#[derive(Debug, Clone, Copy, PartialEq, Eq, Structural)]
pub enum ReportStyle {
    FullAriadne,
    BriefCountsOnly,
    Json,
    Compact,
}

/// The report style chosen by `--format` and `--count`.
pub fn report_style(format: OutputFormat, count: bool) -> (r: ReportStyle)
    ensures
        r == match format {
            OutputFormat::Json => ReportStyle::Json,
            OutputFormat::Compact => ReportStyle::Compact,
            OutputFormat::Default => if count {
                ReportStyle::BriefCountsOnly
            } else {
                ReportStyle::FullAriadne
            },
        },
{
    match (format, count) {
        (OutputFormat::Json, _) => ReportStyle::Json,
        (OutputFormat::Compact, _) => ReportStyle::Compact,
        (OutputFormat::Default, true) => ReportStyle::BriefCountsOnly,
        (OutputFormat::Default, false) => ReportStyle::FullAriadne,
    }
}

/// Options of the `lint` command.
pub struct LintOptions {
    pub count: bool,
    pub ignore: Option<Vec<String>>,
    pub only: Option<Vec<String>>,
    pub keep_overlapping_lints: bool,
    pub dialect: Dialect,
    pub color: bool,
    pub format: OutputFormat,
    pub quiet: bool,
    /// Write fixes back to files (or stdout for text/stdin).
    pub fix: bool,
    /// Disable built-in default ignores (Dashes, etc.).
    pub no_default_ignore: bool,
}

pub open spec fn strings_view(s: Seq<String>) -> Seq<Seq<char>> {
    s.map_values(|x: String| x@)
}

/// The ignore list with the default ignores added (each once), unless
/// defaults are disabled or an `only` list is given.
pub open spec fn spec_merge_default_ignores(
    ignore: Option<Seq<Seq<char>>>,
    only_given: bool,
    no_default_ignore: bool,
) -> Option<Seq<Seq<char>>> {
    if !no_default_ignore && !only_given {
        let merged = match ignore {
            Some(v) => v,
            None => Seq::empty(),
        };
        if merged.contains("Dashes"@) {
            Some(merged)
        } else {
            Some(merged.push("Dashes"@))
        }
    } else {
        ignore
    }
}

pub open spec fn opt_strings_view(o: Option<Vec<String>>) -> Option<Seq<Seq<char>>> {
    match o {
        Some(v) => Some(strings_view(v@)),
        None => None,
    }
}

/// Merge the default ignore list (e.g. Dashes) unless disabled or `--only` is used.
pub fn merge_default_ignores(ignore: Option<Vec<String>>, only_given: bool, no_default_ignore: bool) -> (r: Option<
    Vec<String>,
>)
    ensures
        opt_strings_view(r) == spec_merge_default_ignores(opt_strings_view(ignore), only_given, no_default_ignore),
{
    if !no_default_ignore && !only_given {
        let mut merged = match ignore {
            Some(v) => v,
            None => Vec::new(),
        };
        assert(strings_view(merged@) =~= match opt_strings_view(ignore) { Some(v) => v, None => Seq::<Seq<char>>::empty() });
        let rule = String::from_str("Dashes");
        let mut found = false;
        let mut i: usize = 0;
        while i < merged.len()
            invariant
                i <= merged@.len(),
                rule@ == "Dashes"@,
                found == exists|q: int| 0 <= q < i && (#[trigger] merged@[q])@ == rule@,
            decreases merged.len() - i,
        {
            if merged[i] == rule {
                found = true;
            }
            i = i + 1;
        }
        proof {
            let sv = strings_view(merged@);
            if found {
                let q = choose|q: int| 0 <= q < merged@.len() && (#[trigger] merged@[q])@ == rule@;
                assert(sv[q] == "Dashes"@);
            } else {
                assert forall|q: int| 0 <= q < sv.len() implies sv[q] != "Dashes"@ by {
                    assert(sv[q] == merged@[q]@);
                }
            }
        }
        if !found {
            let ghost before = merged@;
            merged.push(rule);
            assert(strings_view(merged@) =~= strings_view(before).push("Dashes"@));
        }
        Some(merged)
    } else {
        ignore
    }
}

/// Split `rules` into those the group has a setting for and the unknown ones, keeping order.
pub fn split_known_rules(rules: Vec<String>, group: &LintGroup) -> (r: (Vec<String>, Vec<String>))
    ensures
        strings_view(r.0@) == strings_view(rules@).filter(|n: Seq<char>| lookup(group.settings(), n) is Some),
        strings_view(r.1@) == strings_view(rules@).filter(|n: Seq<char>| lookup(group.settings(), n) is None),
{
    let ghost rv = strings_view(rules@);
    let ghost known = |n: Seq<char>| lookup(group.settings(), n) is Some;
    let ghost unknown = |n: Seq<char>| lookup(group.settings(), n) is None;
    let mut kept: Vec<String> = Vec::new();
    let mut dropped: Vec<String> = Vec::new();
    let mut i: usize = 0;
    while i < rules.len()
        invariant
            i <= rules@.len(),
            rv == strings_view(rules@),
            known == (|n: Seq<char>| lookup(group.settings(), n) is Some),
            unknown == (|n: Seq<char>| lookup(group.settings(), n) is None),
            strings_view(kept@) == rv.take(i as int).filter(known),
            strings_view(dropped@) == rv.take(i as int).filter(unknown),
        decreases rules.len() - i,
    {
        proof {
            reveal_with_fuel(Seq::filter, 1);
            assert(rv.take(i + 1).drop_last() =~= rv.take(i as int));
            assert(rv[i as int] == rules@[i as int]@);
        }
        let name = rules[i].clone();
        if group.has_rule(name.as_str()) {
            assert(strings_view(kept@.push(name)) =~= strings_view(kept@).push(name@));
            kept.push(name);
        } else {
            assert(strings_view(dropped@.push(name)) =~= strings_view(dropped@).push(name@));
            dropped.push(name);
        }
        i = i + 1;
    }
    assert(rv.take(rules@.len() as int) =~= rv);
    (kept, dropped)
}

/// `rules` each set to `enabled`, as setting entries.
pub open spec fn entries_set_to(rules: Seq<Seq<char>>, enabled: bool) -> Seq<(Seq<char>, bool)> {
    rules.map_values(|n: Seq<char>| (n, enabled))
}

/// The settings after `--only` (everything off, then the listed rules on) and
/// `--ignore` (the listed rules off).
pub open spec fn spec_configured(
    rules: Seq<(Seq<char>, ZhLinterV)>,
    settings: Seq<(Seq<char>, bool)>,
    only: Option<Seq<Seq<char>>>,
    ignore: Option<Seq<Seq<char>>>,
) -> Seq<(Seq<char>, bool)> {
    let after_only = match only {
        Some(o) => upsert_all(upsert_all(settings, all_set_to(rules, false)), entries_set_to(o, true)),
        None => settings,
    };
    match ignore {
        Some(ig) => upsert_all(after_only, entries_set_to(ig, false)),
        None => after_only,
    }
}

/// Some rule of `rules` is turned on in `settings`.
pub open spec fn any_rule_enabled(rules: Seq<(Seq<char>, ZhLinterV)>, settings: Seq<(Seq<char>, bool)>) -> bool {
    exists|i: int| 0 <= i < rules.len() && lookup(settings, (#[trigger] rules[i]).0) == Some(true)
}

fn set_each(group: &mut LintGroup, rules: &Vec<String>, enabled: bool)
    ensures
        final(group).rules() == old(group).rules(),
        final(group).settings() == upsert_all(old(group).settings(), entries_set_to(strings_view(rules@), enabled)),
{
    let ghost target = entries_set_to(strings_view(rules@), enabled);
    assert(target.skip(0) =~= target);
    let mut i: usize = 0;
    while i < rules.len()
        invariant
            i <= rules@.len(),
            target == entries_set_to(strings_view(rules@), enabled),
            group.rules() == old(group).rules(),
            upsert_all(old(group).settings(), target) == upsert_all(group.settings(), target.skip(i as int)),
        decreases rules.len() - i,
    {
        proof {
            assert(target.skip(i as int)[0] == (rules@[i as int]@, enabled));
            assert(target.skip(i as int).drop_first() =~= target.skip(i + 1));
        }
        group.set_rule_enabled(rules[i].as_str(), enabled);
        i = i + 1;
    }
    assert(target.skip(i as int) =~= Seq::<(Seq<char>, bool)>::empty());
}

/// Turn the listed rules on or off; returns whether any rule of the group
/// is still turned on.
pub fn configure_lint_group(group: &mut LintGroup, only: &Option<Vec<String>>, ignore: &Option<Vec<String>>) -> (any_enabled: bool)
    ensures
        final(group).rules() == old(group).rules(),
        final(group).settings() == spec_configured(
            old(group).rules(),
            old(group).settings(),
            opt_strings_view(*only),
            opt_strings_view(*ignore),
        ),
        any_enabled == any_rule_enabled(final(group).rules(), final(group).settings()),
{
    if let Some(rules) = only {
        group.set_all_rules_to(false);
        set_each(group, rules, true);
    }
    if let Some(rules) = ignore {
        set_each(group, rules, false);
    }
    let keys = group.iter_keys();
    let ghost configured = spec_configured(
        old(group).rules(),
        old(group).settings(),
        opt_strings_view(*only),
        opt_strings_view(*ignore),
    );
    assert(group.rules() == old(group).rules());
    assert(group.settings() == configured);
    let mut i: usize = 0;
    while i < keys.len()
        invariant
            i <= keys@.len(),
            group.rules() == old(group).rules(),
            group.settings() == configured,
            configured == spec_configured(
                old(group).rules(),
                old(group).settings(),
                opt_strings_view(*only),
                opt_strings_view(*ignore),
            ),
            keys@.len() == group.rules().len(),
            forall|q: int| 0 <= q < keys@.len() ==> (#[trigger] keys@[q])@ == group.rules()[q].0,
            forall|q: int| 0 <= q < i ==> lookup(group.settings(), (#[trigger] group.rules()[q]).0) != Some(true),
        decreases keys.len() - i,
    {
        if group.is_rule_enabled(keys[i].as_str()) {
            assert(lookup(group.settings(), group.rules()[i as int].0) == Some(true));
            return true;
        }
        i = i + 1;
    }
    false
}

/// `name` is `word` (written in lower-case ASCII) in any letter case.
pub open spec fn spells_any_case(name: Seq<char>, word: Seq<char>) -> bool {
    &&& name.len() == word.len()
    &&& forall|i: int|
        0 <= i < name.len() ==> #[trigger] name[i] == word[i] || ('a' <= word[i] && word[i] <= 'z' && (name[i] as int)
            + 32 == word[i] as int) || (word[i] == 'k' && name[i] == '\u{212A}')
}

/// A name spelled with lower-case ASCII letters, `-` and `_` in any letter
/// case folds to its lower-case spelling.
proof fn lemma_fold_spelling(name: Seq<char>, word: Seq<char>)
    requires
        spells_any_case(name, word),
        forall|i: int| 0 <= i < word.len() ==> ('a' <= #[trigger] word[i] && word[i] <= 'z') || word[i] == '-' || word[i] == '_',
    ensures
        name.map_values(|c: char| dialect_fold(c)) == word,
{
    assert forall|i: int| 0 <= i < name.len() implies #[trigger] dialect_fold(name[i]) == word[i] by {
        if name[i] != word[i] && name[i] != '\u{212A}' {
            assert('A' <= name[i] && name[i] <= 'Z');
        }
    }
    assert(name.map_values(|c: char| dialect_fold(c)) =~= word);
}

/// A name whose folded spelling is `word` spells `word` in some letter case.
proof fn lemma_spelling_of_fold(name: Seq<char>, word: Seq<char>)
    requires
        name.map_values(|c: char| dialect_fold(c)) == word,
    ensures
        spells_any_case(name, word),
{
    assert forall|i: int| 0 <= i < name.len() implies #[trigger] name[i] == word[i] || ('a' <= word[i] && word[i] <= 'z'
        && (name[i] as int) + 32 == word[i] as int) || (word[i] == 'k' && name[i] == '\u{212A}') by {
        assert(word[i] == dialect_fold(name[i]));
    }
}

/// The dialect names are read in any letter case: each synonym, abbreviation
/// and code of a dialect gives that dialect.
pub proof fn lemma_dialect_names(name: Seq<char>)
    ensures
        spells_any_case(name, "us"@)
            || spells_any_case(name, "usa"@)
            || spells_any_case(name, "america"@)
            || spells_any_case(name, "american"@)
            || spells_any_case(name, "en-us"@)
            || spells_any_case(name, "en_us"@)
            ==> spec_parse_dialect(name) == Ok::<Dialect, Seq<char>>(Dialect::American),
        spells_any_case(name, "uk"@)
            || spells_any_case(name, "gb"@)
            || spells_any_case(name, "british"@)
            || spells_any_case(name, "britain"@)
            || spells_any_case(name, "en-gb"@)
            || spells_any_case(name, "en_gb"@)
            ==> spec_parse_dialect(name) == Ok::<Dialect, Seq<char>>(Dialect::British),
        spells_any_case(name, "au"@)
            || spells_any_case(name, "aus"@)
            || spells_any_case(name, "australia"@)
            || spells_any_case(name, "australian"@)
            || spells_any_case(name, "en-au"@)
            || spells_any_case(name, "en_au"@)
            ==> spec_parse_dialect(name) == Ok::<Dialect, Seq<char>>(Dialect::Australian),
        spells_any_case(name, "in"@)
            || spells_any_case(name, "india"@)
            || spells_any_case(name, "indian"@)
            || spells_any_case(name, "bharat"@)
            || spells_any_case(name, "en-in"@)
            || spells_any_case(name, "en_in"@)
            ==> spec_parse_dialect(name) == Ok::<Dialect, Seq<char>>(Dialect::Indian),
        spells_any_case(name, "ca"@)
            || spells_any_case(name, "canada"@)
            || spells_any_case(name, "canadian"@)
            || spells_any_case(name, "en-ca"@)
            || spells_any_case(name, "en_ca"@)
            ==> spec_parse_dialect(name) == Ok::<Dialect, Seq<char>>(Dialect::Canadian),
        !(spells_any_case(name, "us"@)
            || spells_any_case(name, "usa"@)
            || spells_any_case(name, "america"@)
            || spells_any_case(name, "american"@)
            || spells_any_case(name, "en-us"@)
            || spells_any_case(name, "en_us"@)
            || spells_any_case(name, "uk"@)
            || spells_any_case(name, "gb"@)
            || spells_any_case(name, "british"@)
            || spells_any_case(name, "britain"@)
            || spells_any_case(name, "en-gb"@)
            || spells_any_case(name, "en_gb"@)
            || spells_any_case(name, "au"@)
            || spells_any_case(name, "aus"@)
            || spells_any_case(name, "australia"@)
            || spells_any_case(name, "australian"@)
            || spells_any_case(name, "en-au"@)
            || spells_any_case(name, "en_au"@)
            || spells_any_case(name, "in"@)
            || spells_any_case(name, "india"@)
            || spells_any_case(name, "indian"@)
            || spells_any_case(name, "bharat"@)
            || spells_any_case(name, "en-in"@)
            || spells_any_case(name, "en_in"@)
            || spells_any_case(name, "ca"@)
            || spells_any_case(name, "canada"@)
            || spells_any_case(name, "canadian"@)
            || spells_any_case(name, "en-ca"@)
            || spells_any_case(name, "en_ca"@))
            ==> spec_parse_dialect(name) == Err::<Dialect, Seq<char>>("Unknown dialect: "@ + name),
{
    reveal_strlit("us");
    reveal_strlit("usa");
    reveal_strlit("america");
    reveal_strlit("american");
    reveal_strlit("en-us");
    reveal_strlit("en_us");
    reveal_strlit("uk");
    reveal_strlit("gb");
    reveal_strlit("british");
    reveal_strlit("britain");
    reveal_strlit("en-gb");
    reveal_strlit("en_gb");
    reveal_strlit("au");
    reveal_strlit("aus");
    reveal_strlit("australia");
    reveal_strlit("australian");
    reveal_strlit("en-au");
    reveal_strlit("en_au");
    reveal_strlit("in");
    reveal_strlit("india");
    reveal_strlit("indian");
    reveal_strlit("bharat");
    reveal_strlit("en-in");
    reveal_strlit("en_in");
    reveal_strlit("ca");
    reveal_strlit("canada");
    reveal_strlit("canadian");
    reveal_strlit("en-ca");
    reveal_strlit("en_ca");
    if spells_any_case(name, "us"@) {
        lemma_fold_spelling(name, "us"@);
    }
    if spells_any_case(name, "usa"@) {
        lemma_fold_spelling(name, "usa"@);
    }
    if spells_any_case(name, "america"@) {
        lemma_fold_spelling(name, "america"@);
    }
    if spells_any_case(name, "american"@) {
        lemma_fold_spelling(name, "american"@);
    }
    if spells_any_case(name, "en-us"@) {
        lemma_fold_spelling(name, "en-us"@);
    }
    if spells_any_case(name, "en_us"@) {
        lemma_fold_spelling(name, "en_us"@);
    }
    if spells_any_case(name, "uk"@) {
        lemma_fold_spelling(name, "uk"@);
        assert("uk"@[1] != "us"@[1]);
    }
    if spells_any_case(name, "gb"@) {
        lemma_fold_spelling(name, "gb"@);
        assert("gb"@[0] != "us"@[0]);
    }
    if spells_any_case(name, "british"@) {
        lemma_fold_spelling(name, "british"@);
        assert("british"@[0] != "america"@[0]);
    }
    if spells_any_case(name, "britain"@) {
        lemma_fold_spelling(name, "britain"@);
        assert("britain"@[0] != "america"@[0]);
    }
    if spells_any_case(name, "en-gb"@) {
        lemma_fold_spelling(name, "en-gb"@);
        assert("en-gb"@[3] != "en-us"@[3]);
        assert("en-gb"@[2] != "en_us"@[2]);
    }
    if spells_any_case(name, "en_gb"@) {
        lemma_fold_spelling(name, "en_gb"@);
        assert("en_gb"@[2] != "en-us"@[2]);
        assert("en_gb"@[3] != "en_us"@[3]);
    }
    if spells_any_case(name, "au"@) {
        lemma_fold_spelling(name, "au"@);
        assert("au"@[0] != "us"@[0]);
        assert("au"@[0] != "uk"@[0]);
        assert("au"@[0] != "gb"@[0]);
    }
    if spells_any_case(name, "aus"@) {
        lemma_fold_spelling(name, "aus"@);
        assert("aus"@[0] != "usa"@[0]);
    }
    if spells_any_case(name, "australia"@) {
        lemma_fold_spelling(name, "australia"@);
    }
    if spells_any_case(name, "australian"@) {
        lemma_fold_spelling(name, "australian"@);
    }
    if spells_any_case(name, "en-au"@) {
        lemma_fold_spelling(name, "en-au"@);
        assert("en-au"@[3] != "en-us"@[3]);
        assert("en-au"@[2] != "en_us"@[2]);
        assert("en-au"@[3] != "en-gb"@[3]);
        assert("en-au"@[2] != "en_gb"@[2]);
    }
    if spells_any_case(name, "en_au"@) {
        lemma_fold_spelling(name, "en_au"@);
        assert("en_au"@[2] != "en-us"@[2]);
        assert("en_au"@[3] != "en_us"@[3]);
        assert("en_au"@[2] != "en-gb"@[2]);
        assert("en_au"@[3] != "en_gb"@[3]);
    }
    if spells_any_case(name, "in"@) {
        lemma_fold_spelling(name, "in"@);
        assert("in"@[0] != "us"@[0]);
        assert("in"@[0] != "uk"@[0]);
        assert("in"@[0] != "gb"@[0]);
        assert("in"@[0] != "au"@[0]);
    }
    if spells_any_case(name, "india"@) {
        lemma_fold_spelling(name, "india"@);
        assert("india"@[0] != "en-us"@[0]);
        assert("india"@[0] != "en_us"@[0]);
        assert("india"@[0] != "en-gb"@[0]);
        assert("india"@[0] != "en_gb"@[0]);
        assert("india"@[0] != "en-au"@[0]);
        assert("india"@[0] != "en_au"@[0]);
    }
    if spells_any_case(name, "indian"@) {
        lemma_fold_spelling(name, "indian"@);
    }
    if spells_any_case(name, "bharat"@) {
        lemma_fold_spelling(name, "bharat"@);
    }
    if spells_any_case(name, "en-in"@) {
        lemma_fold_spelling(name, "en-in"@);
        assert("en-in"@[3] != "en-us"@[3]);
        assert("en-in"@[2] != "en_us"@[2]);
        assert("en-in"@[3] != "en-gb"@[3]);
        assert("en-in"@[2] != "en_gb"@[2]);
        assert("en-in"@[3] != "en-au"@[3]);
        assert("en-in"@[2] != "en_au"@[2]);
    }
    if spells_any_case(name, "en_in"@) {
        lemma_fold_spelling(name, "en_in"@);
        assert("en_in"@[2] != "en-us"@[2]);
        assert("en_in"@[3] != "en_us"@[3]);
        assert("en_in"@[2] != "en-gb"@[2]);
        assert("en_in"@[3] != "en_gb"@[3]);
        assert("en_in"@[2] != "en-au"@[2]);
        assert("en_in"@[3] != "en_au"@[3]);
    }
    if spells_any_case(name, "ca"@) {
        lemma_fold_spelling(name, "ca"@);
        assert("ca"@[0] != "us"@[0]);
        assert("ca"@[0] != "uk"@[0]);
        assert("ca"@[0] != "gb"@[0]);
        assert("ca"@[0] != "au"@[0]);
        assert("ca"@[0] != "in"@[0]);
    }
    if spells_any_case(name, "canada"@) {
        lemma_fold_spelling(name, "canada"@);
        assert("canada"@[0] != "indian"@[0]);
        assert("canada"@[0] != "bharat"@[0]);
    }
    if spells_any_case(name, "canadian"@) {
        lemma_fold_spelling(name, "canadian"@);
        assert("canadian"@[0] != "american"@[0]);
    }
    if spells_any_case(name, "en-ca"@) {
        lemma_fold_spelling(name, "en-ca"@);
        assert("en-ca"@[3] != "en-us"@[3]);
        assert("en-ca"@[2] != "en_us"@[2]);
        assert("en-ca"@[3] != "en-gb"@[3]);
        assert("en-ca"@[2] != "en_gb"@[2]);
        assert("en-ca"@[3] != "en-au"@[3]);
        assert("en-ca"@[2] != "en_au"@[2]);
        assert("en-ca"@[0] != "india"@[0]);
        assert("en-ca"@[3] != "en-in"@[3]);
        assert("en-ca"@[2] != "en_in"@[2]);
    }
    if spells_any_case(name, "en_ca"@) {
        lemma_fold_spelling(name, "en_ca"@);
        assert("en_ca"@[2] != "en-us"@[2]);
        assert("en_ca"@[3] != "en_us"@[3]);
        assert("en_ca"@[2] != "en-gb"@[2]);
        assert("en_ca"@[3] != "en_gb"@[3]);
        assert("en_ca"@[2] != "en-au"@[2]);
        assert("en_ca"@[3] != "en_au"@[3]);
        assert("en_ca"@[0] != "india"@[0]);
        assert("en_ca"@[2] != "en-in"@[2]);
        assert("en_ca"@[3] != "en_in"@[3]);
    }
    let folded = name.map_values(|c: char| dialect_fold(c));
    if folded == "us"@ {
        lemma_spelling_of_fold(name, "us"@);
    }
    if folded == "usa"@ {
        lemma_spelling_of_fold(name, "usa"@);
    }
    if folded == "america"@ {
        lemma_spelling_of_fold(name, "america"@);
    }
    if folded == "american"@ {
        lemma_spelling_of_fold(name, "american"@);
    }
    if folded == "en-us"@ {
        lemma_spelling_of_fold(name, "en-us"@);
    }
    if folded == "en_us"@ {
        lemma_spelling_of_fold(name, "en_us"@);
    }
    if folded == "uk"@ {
        lemma_spelling_of_fold(name, "uk"@);
    }
    if folded == "gb"@ {
        lemma_spelling_of_fold(name, "gb"@);
    }
    if folded == "british"@ {
        lemma_spelling_of_fold(name, "british"@);
    }
    if folded == "britain"@ {
        lemma_spelling_of_fold(name, "britain"@);
    }
    if folded == "en-gb"@ {
        lemma_spelling_of_fold(name, "en-gb"@);
    }
    if folded == "en_gb"@ {
        lemma_spelling_of_fold(name, "en_gb"@);
    }
    if folded == "au"@ {
        lemma_spelling_of_fold(name, "au"@);
    }
    if folded == "aus"@ {
        lemma_spelling_of_fold(name, "aus"@);
    }
    if folded == "australia"@ {
        lemma_spelling_of_fold(name, "australia"@);
    }
    if folded == "australian"@ {
        lemma_spelling_of_fold(name, "australian"@);
    }
    if folded == "en-au"@ {
        lemma_spelling_of_fold(name, "en-au"@);
    }
    if folded == "en_au"@ {
        lemma_spelling_of_fold(name, "en_au"@);
    }
    if folded == "in"@ {
        lemma_spelling_of_fold(name, "in"@);
    }
    if folded == "india"@ {
        lemma_spelling_of_fold(name, "india"@);
    }
    if folded == "indian"@ {
        lemma_spelling_of_fold(name, "indian"@);
    }
    if folded == "bharat"@ {
        lemma_spelling_of_fold(name, "bharat"@);
    }
    if folded == "en-in"@ {
        lemma_spelling_of_fold(name, "en-in"@);
    }
    if folded == "en_in"@ {
        lemma_spelling_of_fold(name, "en_in"@);
    }
    if folded == "ca"@ {
        lemma_spelling_of_fold(name, "ca"@);
    }
    if folded == "canada"@ {
        lemma_spelling_of_fold(name, "canada"@);
    }
    if folded == "canadian"@ {
        lemma_spelling_of_fold(name, "canadian"@);
    }
    if folded == "en-ca"@ {
        lemma_spelling_of_fold(name, "en-ca"@);
    }
    if folded == "en_ca"@ {
        lemma_spelling_of_fold(name, "en_ca"@);
    }
}

} // verus!
