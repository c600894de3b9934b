//! Character script helpers for Chinese / mixed-language detection.

use vstd::prelude::*;

verus! {

/// Coarse script category for a single character.
#[derive(Debug, Clone, Copy, PartialEq, Eq, Structural)]
pub enum ScriptKind {
    Cjk,
    Latin,
    Digit,
    Space,
    Punctuation,
    Other,
}

/// The Unicode `White_Space` property (the set `char::is_whitespace` tests).
pub open spec fn spec_is_whitespace(c: char) -> bool {
    ||| ('\u{9}' <= c && c <= '\u{D}')
    ||| c == ' '
    ||| c == '\u{85}'
    ||| c == '\u{A0}'
    ||| c == '\u{1680}'
    ||| ('\u{2000}' <= c && c <= '\u{200A}')
    ||| c == '\u{2028}'
    ||| c == '\u{2029}'
    ||| c == '\u{202F}'
    ||| c == '\u{205F}'
    ||| c == '\u{3000}'
}

pub open spec fn spec_is_ascii_digit(c: char) -> bool {
    '0' <= c && c <= '9'
}

pub open spec fn spec_is_ascii_alphabetic(c: char) -> bool {
    ('A' <= c && c <= 'Z') || ('a' <= c && c <= 'z')
}

/// ASCII punctuation: `!"#$%&'()*+,-./:;<=>?@[\]^_`{|}~`.
pub open spec fn spec_is_ascii_punctuation(c: char) -> bool {
    ||| ('!' <= c && c <= '/')
    ||| (':' <= c && c <= '@')
    ||| ('[' <= c && c <= '`')
    ||| ('{' <= c && c <= '~')
}

/// Han ideographs: CJK Unified Ideographs, Extension A, Compatibility
/// Ideographs and Extension B.
pub open spec fn spec_is_han(c: char) -> bool {
    ||| ('\u{4E00}' <= c && c <= '\u{9FFF}')
    ||| ('\u{3400}' <= c && c <= '\u{4DBF}')
    ||| ('\u{F900}' <= c && c <= '\u{FAFF}')
    ||| ('\u{20000}' <= c && c <= '\u{2A6DF}')
}

pub open spec fn spec_is_cjk_punctuation(c: char) -> bool {
    ||| c == '，' ||| c == '。' ||| c == '、' ||| c == '；' ||| c == '：'
    ||| c == '？' ||| c == '！' ||| c == '「' ||| c == '」' ||| c == '『'
    ||| c == '』' ||| c == '（' ||| c == '）' ||| c == '【' ||| c == '】'
    ||| c == '《' ||| c == '》' ||| c == '〈' ||| c == '〉' ||| c == '…'
    ||| c == '—' ||| c == '～' ||| c == '·' ||| c == '“' ||| c == '”'
    ||| c == '‘' ||| c == '’'
}

pub open spec fn spec_classify_char(c: char) -> ScriptKind {
    if spec_is_whitespace(c) {
        ScriptKind::Space
    } else if spec_is_ascii_digit(c) {
        ScriptKind::Digit
    } else if spec_is_han(c) {
        ScriptKind::Cjk
    } else if spec_is_ascii_alphabetic(c) {
        ScriptKind::Latin
    } else if spec_is_ascii_punctuation(c) || spec_is_cjk_punctuation(c) {
        ScriptKind::Punctuation
    } else {
        ScriptKind::Other
    }
}

pub fn is_whitespace(c: char) -> (r: bool)
    ensures
        r == spec_is_whitespace(c),
{
    ('\u{9}' <= c && c <= '\u{D}') || c == ' ' || c == '\u{85}' || c == '\u{A0}' || c == '\u{1680}'
        || ('\u{2000}' <= c && c <= '\u{200A}') || c == '\u{2028}' || c == '\u{2029}' || c
        == '\u{202F}' || c == '\u{205F}' || c == '\u{3000}'
}

pub fn is_ascii_alphabetic(c: char) -> (r: bool)
    ensures
        r == spec_is_ascii_alphabetic(c),
{
    ('A' <= c && c <= 'Z') || ('a' <= c && c <= 'z')
}

/// Classify a character for mixed Chinese–English handling.
pub fn classify_char(c: char) -> (k: ScriptKind)
    ensures
        k == spec_classify_char(c),
{
    if is_whitespace(c) {
        return ScriptKind::Space;
    }
    if '0' <= c && c <= '9' {
        return ScriptKind::Digit;
    }
    if is_cjk_char(c) {
        return ScriptKind::Cjk;
    }
    if is_ascii_alphabetic(c) {
        return ScriptKind::Latin;
    }
    if ('!' <= c && c <= '/') || (':' <= c && c <= '@') || ('[' <= c && c <= '`') || ('{' <= c
        && c <= '~') || is_cjk_punctuation(c) {
        return ScriptKind::Punctuation;
    }
    ScriptKind::Other
}

/// Han / CJK Unified Ideographs (basic + common extensions).
pub fn is_cjk_char(c: char) -> (r: bool)
    ensures
        r == spec_is_han(c),
{
    ('\u{4E00}' <= c && c <= '\u{9FFF}') || ('\u{3400}' <= c && c <= '\u{4DBF}') || ('\u{F900}'
        <= c && c <= '\u{FAFF}') || ('\u{20000}' <= c && c <= '\u{2A6DF}')
}

pub fn is_cjk_punctuation(c: char) -> (r: bool)
    ensures
        r == spec_is_cjk_punctuation(c),
{
    c == '，' || c == '。' || c == '、' || c == '；' || c == '：' || c == '？' || c == '！' || c
        == '「' || c == '」' || c == '『' || c == '』' || c == '（' || c == '）' || c == '【' || c
        == '】' || c == '《' || c == '》' || c == '〈' || c == '〉' || c == '…' || c == '—' || c
        == '～' || c == '·' || c == '“' || c == '”' || c == '‘' || c == '’'
}

/// True if the character is a CJK ideograph (not punctuation).
pub fn is_han(c: char) -> (r: bool)
    ensures
        r == spec_is_han(c),
{
    ('\u{4E00}' <= c && c <= '\u{9FFF}') || ('\u{3400}' <= c && c <= '\u{4DBF}') || ('\u{F900}'
        <= c && c <= '\u{FAFF}') || ('\u{20000}' <= c && c <= '\u{2A6DF}')
}

/// True when some character of `text` is a Han ideograph.
pub fn has_cjk(text: &str) -> (r: bool)
    ensures
        r == exists|i: int| 0 <= i < text@.len() && spec_is_han(#[trigger] text@[i]),
{
    let chars = crate::text::str_to_chars(text);
    let mut i: usize = 0;
    while i < chars.len()
        invariant
            chars@ == text@,
            i <= chars.len(),
            forall|j: int| 0 <= j < i ==> !spec_is_han(#[trigger] text@[j]),
        decreases chars.len() - i,
    {
        if is_cjk_char(chars[i]) {
            return true;
        }
        i = i + 1;
    }
    false
}

/// True when some character of `text` is an ASCII letter.
pub fn has_latin(text: &str) -> (r: bool)
    ensures
        r == exists|i: int| 0 <= i < text@.len() && spec_is_ascii_alphabetic(#[trigger] text@[i]),
{
    let chars = crate::text::str_to_chars(text);
    let mut i: usize = 0;
    while i < chars.len()
        invariant
            chars@ == text@,
            i <= chars.len(),
            forall|j: int| 0 <= j < i ==> !spec_is_ascii_alphabetic(#[trigger] text@[j]),
        decreases chars.len() - i,
    {
        if is_ascii_alphabetic(chars[i]) {
            return true;
        }
        i = i + 1;
    }
    false
}

/// How characters are classified: ASCII letters are Latin, ASCII digits are
/// digits, the space characters are spaces, the Han ideographs (CJK Unified
/// Ideographs, Extension A, Compatibility Ideographs, Extension B) are CJK,
/// and the ASCII punctuation and the CJK punctuation marks
/// `，。、；：？！「」『』（）【】《》〈〉…—～·“”‘’` are punctuation; nothing else is any of these.
pub proof fn lemma_classify_char_classes(c: char)
    ensures
        spec_classify_char(c) == ScriptKind::Latin <==> ('A' <= c && c <= 'Z') || ('a' <= c && c <= 'z'),
        spec_classify_char(c) == ScriptKind::Digit <==> '0' <= c && c <= '9',
        spec_classify_char(c) == ScriptKind::Cjk <==> ('\u{4E00}' <= c && c <= '\u{9FFF}')
            || ('\u{3400}' <= c && c
            <= '\u{4DBF}') || ('\u{F900}' <= c && c <= '\u{FAFF}') || ('\u{20000}' <= c && c <= '\u{2A6DF}'),
        spec_classify_char(c) == ScriptKind::Space <==> ('\u{9}' <= c && c <= '\u{D}') || c == ' '
            || c == '\u{85}' || c == '\u{A0}' || c == '\u{1680}' || ('\u{2000}' <= c && c <= '\u{200A}')
            || c == '\u{2028}' || c
            == '\u{2029}' || c == '\u{202F}' || c == '\u{205F}' || c == '\u{3000}',
        c == '’' || c == '‘' || c == '”' || c == '“' || c == '·' || c == '～' || c == '—' || c == '…'
            || c == '〉' || c == '〈' || c == '》' || c == '《' || c == '】' || c == '【' || c == '）' || c == '（'
            || c == '』' || c == '『' || c == '」' || c == '「' || c == '！' || c == '？' || c == '：' || c == '；'
            || c == '、' || c == '。' || c == '，' ==> spec_classify_char(c) == ScriptKind::Punctuation,
        c == '!' || c == '"' || c == '#' || c == '$' || c == '%' || c == '&' || c == '\'' || c == '('
            || c == ')' || c == '*' || c == '+' || c == ',' || c == '-' || c == '.' || c == '/' || c == ':'
            || c == ';' || c == '<' || c == '=' || c == '>' || c == '?' || c == '@' || c == '[' || c == '\\'
            || c == ']' || c == '^' || c == '_' || c == '`' || c == '{' || c == '|' || c == '}'
            || c == '~' ==> spec_classify_char(c) == ScriptKind::Punctuation,
        spec_classify_char(c) == ScriptKind::Punctuation ==> c == '!' || c == '"' || c == '#' || c == '$'
            || c == '%' || c == '&' || c == '\'' || c == '(' || c == ')' || c == '*' || c == '+' || c == ','
            || c == '-' || c == '.' || c == '/' || c == ':' || c == ';' || c == '<' || c == '=' || c == '>'
            || c == '?' || c == '@' || c == '[' || c == '\\' || c == ']' || c == '^' || c == '_' || c == '`'
            || c == '{' || c == '|' || c == '}' || c == '~' || c == '’' || c == '‘' || c == '”' || c == '“'
            || c == '·' || c == '～' || c == '—' || c == '…' || c == '〉' || c == '〈' || c == '》' || c == '《'
            || c == '】' || c == '【' || c == '）' || c == '（' || c == '』' || c == '『' || c == '」' || c == '「'
            || c == '！' || c == '？' || c == '：' || c == '；' || c == '、' || c == '。' || c == '，',
{
}

} // verus!
