//! Text layout for reports: positions, paths, colours, wrapped item lists,
//! dialect names and dictionary lines.

use vstd::prelude::*;

use crate::lint_kind::LintKind;
use vstd::utf8::encode_utf8;

verus! {

/// The number of line breaks in `s`.
pub open spec fn count_newlines(s: Seq<char>) -> nat
    decreases s.len(),
{
    if s.len() == 0 {
        0
    } else {
        count_newlines(s.drop_last()) + if s.last() == '\n' { 1nat } else { 0nat }
    }
}

/// The number of characters after the last line break of `s` (all of them when it has none).
pub open spec fn trailing_line_len(s: Seq<char>) -> nat
    decreases s.len(),
{
    if s.len() == 0 || s.last() == '\n' {
        0
    } else {
        trailing_line_len(s.drop_last()) + 1
    }
}

/// The 1-based line and column of character `index` of `source` (an index
/// past the end counts as the end).
pub open spec fn spec_line_col(source: Seq<char>, index: int) -> (int, int) {
    let before = source.take(if index < source.len() { index } else { source.len() as int });
    ((count_newlines(before) + 1) as int, (trailing_line_len(before) + 1) as int)
}

/// Convert a character index into a 1-based (line, column) pair.
pub fn char_index_to_line_col(source: &[char], index: usize) -> (r: (usize, usize))
    requires
        source@.len() < usize::MAX,
    ensures
        r.0 == spec_line_col(source@, index as int).0,
        r.1 == spec_line_col(source@, index as int).1,
{
    let end = if index < source.len() { index } else { source.len() };
    let mut line: usize = 0;
    let mut col: usize = 0;
    let mut i: usize = 0;
    while i < end
        invariant
            end <= source@.len() < usize::MAX,
            i <= end,
            line == count_newlines(source@.take(i as int)),
            col == trailing_line_len(source@.take(i as int)),
            line <= i,
            col <= i,
        decreases end - i,
    {
        proof {
            assert(source@.take(i + 1).drop_last() =~= source@.take(i as int));
        }
        if source[i] == '\n' {
            line = line + 1;
            col = 0;
        } else {
            col = col + 1;
        }
        i = i + 1;
    }
    (line + 1, col + 1)
}

/// A component of a file path.
pub enum PathPart {
    /// The root directory (`/`).
    RootDir,
    /// Any other component, as text.
    Other(String),
}

pub open spec fn spec_file_dict_name(parts: Seq<PathPart>) -> Seq<char>
    decreases parts.len(),
{
    if parts.len() == 0 {
        Seq::empty()
    } else {
        spec_file_dict_name(parts.drop_last()) + match parts.last() {
            PathPart::RootDir => Seq::empty(),
            PathPart::Other(s) => s@.push('%'),
        }
    }
}

/// The name of the per-file dictionary of a path: its components other
/// than the root, each followed by `%`.
pub fn file_dict_name(parts: &Vec<PathPart>) -> (r: String)
    ensures
        r@ == spec_file_dict_name(parts@),
{
    let mut out = String::new();
    let mut i: usize = 0;
    while i < parts.len()
        invariant
            i <= parts@.len(),
            out@ == spec_file_dict_name(parts@.take(i as int)),
        decreases parts.len() - i,
    {
        proof {
            assert(parts@.take(i + 1).drop_last() =~= parts@.take(i as int));
        }
        match &parts[i] {
            PathPart::RootDir => {
                assert(out@ + Seq::<char>::empty() =~= out@);
            },
            PathPart::Other(s) => {
                out.append(s.as_str());
                out.push('%');
                assert(out@ =~= spec_file_dict_name(parts@.take(i as int)) + s@.push('%'));
            },
        }
        i = i + 1;
    }
    assert(parts@.take(parts@.len() as int) =~= parts@);
    out
}

/// The path of an input inside its parent input, for machine-readable output.
pub open spec fn spec_plain_path(parent: Seq<char>, child: Seq<char>) -> Seq<char> {
    if parent.len() == 0 {
        child
    } else {
        parent + "/"@ + child
    }
}

/// Path without ANSI escapes, for machine-readable output.
pub fn plain_path(parent_input_id: &str, child: &str) -> (r: String)
    ensures
        r@ == spec_plain_path(parent_input_id@, child@),
{
    if parent_input_id.unicode_len() == 0 {
        String::from_str(child)
    } else {
        let mut s = String::from_str(parent_input_id);
        s.append("/");
        s.append(child);
        s
    }
}

/// The path of an input for people: the parent part in yellow when colour is on.
pub open spec fn spec_format_path(parent: Seq<char>, child: Seq<char>, color: bool) -> Seq<char> {
    if color && parent.len() > 0 {
        "\x1b[33m"@ + parent + "/\x1b[0m"@ + child
    } else {
        spec_plain_path(parent, child)
    }
}

pub fn format_path(parent_input_id: &str, child: &str, color: bool) -> (r: String)
    ensures
        r@ == spec_format_path(parent_input_id@, child@, color),
{
    if color {
        if parent_input_id.unicode_len() == 0 {
            String::from_str(child)
        } else {
            let mut s = String::from_str("\x1b[33m");
            s.append(parent_input_id);
            s.append("/\x1b[0m");
            s.append(child);
            s
        }
    } else {
        plain_path(parent_input_id, child)
    }
}

/// The colour of each lint kind in reports (`WordOrder` has none).
pub open spec fn kind_colors() -> Seq<(LintKind, (u8, u8, u8))> {
    seq![
        (LintKind::Agreement, (0x22u8, 0x8Bu8, 0x22u8)),
        (LintKind::BoundaryError, (0x8Bu8, 0x45u8, 0x13u8)),
        (LintKind::Capitalization, (0x54u8, 0x0Du8, 0x6Eu8)),
        (LintKind::Eggcorn, (0xFFu8, 0x8Cu8, 0x00u8)),
        (LintKind::Enhancement, (0x0Eu8, 0xADu8, 0x69u8)),
        (LintKind::Formatting, (0x7Du8, 0x3Cu8, 0x98u8)),
        (LintKind::Grammar, (0x9Bu8, 0x59u8, 0xB6u8)),
        (LintKind::Malapropism, (0xC7u8, 0x15u8, 0x85u8)),
        (LintKind::Miscellaneous, (0x3Bu8, 0xCEu8, 0xACu8)),
        (LintKind::Nonstandard, (0x00u8, 0x8Bu8, 0x8Bu8)),
        (LintKind::Punctuation, (0xD4u8, 0x85u8, 0x0Fu8)),
        (LintKind::Readability, (0x2Eu8, 0x8Bu8, 0x57u8)),
        (LintKind::Redundancy, (0x46u8, 0x82u8, 0xB4u8)),
        (LintKind::Regionalism, (0xC0u8, 0x61u8, 0xCBu8)),
        (LintKind::Repetition, (0x00u8, 0xA6u8, 0x7Cu8)),
        (LintKind::Spelling, (0xEEu8, 0x42u8, 0x66u8)),
        (LintKind::Style, (0xFFu8, 0xD2u8, 0x3Fu8)),
        (LintKind::Typo, (0xFFu8, 0x6Bu8, 0x35u8)),
        (LintKind::Usage, (0x1Eu8, 0x90u8, 0xFFu8)),
        (LintKind::WordChoice, (0x22u8, 0x8Bu8, 0x22u8)),
    ]
}

/// The colour of each lint kind in reports.
pub fn lint_kind_to_rgb() -> (r: Vec<(LintKind, (u8, u8, u8))>)
    ensures
        r@ == kind_colors(),
{
    let mut v: Vec<(LintKind, (u8, u8, u8))> = Vec::new();
    v.push((LintKind::Agreement, (0x22, 0x8B, 0x22)));
    v.push((LintKind::BoundaryError, (0x8B, 0x45, 0x13)));
    v.push((LintKind::Capitalization, (0x54, 0x0D, 0x6E)));
    v.push((LintKind::Eggcorn, (0xFF, 0x8C, 0x00)));
    v.push((LintKind::Enhancement, (0x0E, 0xAD, 0x69)));
    v.push((LintKind::Formatting, (0x7D, 0x3C, 0x98)));
    v.push((LintKind::Grammar, (0x9B, 0x59, 0xB6)));
    v.push((LintKind::Malapropism, (0xC7, 0x15, 0x85)));
    v.push((LintKind::Miscellaneous, (0x3B, 0xCE, 0xAC)));
    v.push((LintKind::Nonstandard, (0x00, 0x8B, 0x8B)));
    v.push((LintKind::Punctuation, (0xD4, 0x85, 0x0F)));
    v.push((LintKind::Readability, (0x2E, 0x8B, 0x57)));
    v.push((LintKind::Redundancy, (0x46, 0x82, 0xB4)));
    v.push((LintKind::Regionalism, (0xC0, 0x61, 0xCB)));
    v.push((LintKind::Repetition, (0x00, 0xA6, 0x7C)));
    v.push((LintKind::Spelling, (0xEE, 0x42, 0x66)));
    v.push((LintKind::Style, (0xFF, 0xD2, 0x3F)));
    v.push((LintKind::Typo, (0xFF, 0x6B, 0x35)));
    v.push((LintKind::Usage, (0x1E, 0x90, 0xFF)));
    v.push((LintKind::WordChoice, (0x22, 0x8B, 0x22)));
    assert(v@ =~= kind_colors());
    v
}

/// The colour of the first entry of `table`, from `i` on, for kind `k`.
pub open spec fn color_in(table: Seq<(LintKind, (u8, u8, u8))>, k: LintKind, i: int) -> Option<(u8, u8, u8)>
    decreases table.len() - i,
{
    if i < 0 || i >= table.len() {
        None
    } else if table[i].0 == k {
        Some(table[i].1)
    } else {
        color_in(table, k, i + 1)
    }
}

/// The report colour of an optional kind (black when it has none).
pub open spec fn spec_rgb_for(olk: Option<LintKind>) -> (u8, u8, u8) {
    match olk {
        Some(k) => match color_in(kind_colors(), k, 0) {
            Some(c) => c,
            None => (0, 0, 0),
        },
        None => (0, 0, 0),
    }
}

pub fn rgb_for_lint_kind(olk: Option<LintKind>) -> (r: (u8, u8, u8))
    ensures
        r == spec_rgb_for(olk),
{
    match olk {
        Some(lk) => {
            let table = lint_kind_to_rgb();
            let mut i: usize = 0;
            while i < table.len()
                invariant
                    table@ == kind_colors(),
                    olk == Some(lk),
                    i <= table@.len(),
                    color_in(kind_colors(), lk, 0) == color_in(kind_colors(), lk, i as int),
                decreases table.len() - i,
            {
                if table[i].0 == lk {
                    return table[i].1;
                }
                i = i + 1;
            }
            (0, 0, 0)
        },
        None => (0, 0, 0),
    }
}

/// The state of a wrapped item list: whether the next item starts a line,
/// how many bytes the current line holds, and the text so far.
pub struct LayoutState {
    pub first_on_line: bool,
    pub len_so_far: int,
    pub out: Seq<char>,
}

/// One item laid out after `st`: on the same line after a space, or on a
/// new line once the line would pass 120 bytes; its colour prefix and a
/// reset around it when colour is on and it has one.
pub open spec fn layout_step(st: LayoutState, ansi: Option<Seq<char>>, text: Seq<char>, color: bool) -> LayoutState {
    let text_len = encode_utf8(text).len() as int;
    let add = (if st.first_on_line { 0int } else { 1int }) + text_len;
    let wraps = st.len_so_far + add > 120;
    let before = if wraps { "\n"@ } else if !st.first_on_line { " "@ } else { Seq::empty() };
    let (set, reset) = if color && ansi is Some { (ansi->0, "\x1b[0m"@) } else { (Seq::empty(), Seq::empty()) };
    LayoutState {
        first_on_line: false,
        len_so_far: if wraps { add - 1 } else { st.len_so_far + add },
        out: st.out + before + set + text + reset,
    }
}

pub open spec fn item_view(item: (Option<String>, String)) -> (Option<Seq<char>>, Seq<char>) {
    (
        match item.0 {
            Some(s) => Some(s@),
            None => None,
        },
        item.1@,
    )
}

/// Laying out `items` in order from the start state.
pub open spec fn layout(items: Seq<(Option<Seq<char>>, Seq<char>)>, color: bool) -> LayoutState
    decreases items.len(),
{
    if items.len() == 0 {
        LayoutState { first_on_line: true, len_so_far: 0, out: Seq::empty() }
    } else {
        layout_step(layout(items.drop_last(), color), items.last().0, items.last().1, color)
    }
}

/// The text that prints `items` wrapped at 120 bytes, ending with a line break.
pub open spec fn spec_format_items(items: Seq<(Option<Seq<char>>, Seq<char>)>, color: bool) -> Seq<char> {
    layout(items, color).out.push('\n')
}

/// Lay out `items` on lines of at most 120 bytes (longer items get a line
/// of their own), separated by spaces, each in its colour when `color` is on.
pub fn format_items(items: &Vec<(Option<String>, String)>, color: bool) -> (r: String)
    requires
        forall|i: int| 0 <= i < items@.len() ==> encode_utf8((#[trigger] items@[i]).1@).len() <= usize::MAX / 4,
    ensures
        r@ == spec_format_items(items@.map_values(|it: (Option<String>, String)| item_view(it)), color),
{
    let ghost iv = items@.map_values(|it: (Option<String>, String)| item_view(it));
    let mut out = String::new();
    let mut first_on_line = true;
    let mut len_so_far: usize = 0;
    let mut i: usize = 0;
    while i < items.len()
        invariant
            i <= items@.len(),
            iv == items@.map_values(|it: (Option<String>, String)| item_view(it)),
            forall|q: int| 0 <= q < items@.len() ==> encode_utf8((#[trigger] items@[q]).1@).len() <= usize::MAX / 4,
            layout(iv.take(i as int), color) == (LayoutState { first_on_line, len_so_far: len_so_far as int, out: out@ }),
            len_so_far <= usize::MAX / 2,
        decreases items.len() - i,
    {
        proof {
            assert(iv.take(i + 1).drop_last() =~= iv.take(i as int));
            assert(iv.take(i + 1).last() == item_view(items@[i as int]));
        }
        let (ansi, text) = &items[i];
        let text_len = text.as_str().len();
        let mut len_to_add = (if first_on_line { 0 } else { 1 }) + text_len;
        if len_so_far + len_to_add > 120 {
            out.append("\n");
            len_to_add = len_to_add - 1;
            len_so_far = 0;
        } else if !first_on_line {
            out.append(" ");
        } else {
            assert(out@ + Seq::<char>::empty() =~= out@);
        }
        if color {
            match ansi {
                Some(prefix) => {
                    out.append(prefix.as_str());
                    out.append(text.as_str());
                    out.append("\x1b[0m");
                },
                None => {
                    out.append(text.as_str());
                },
            }
        } else {
            out.append(text.as_str());
        }
        len_so_far = len_so_far + len_to_add;
        first_on_line = false;
        i = i + 1;
        proof {
            let st = layout(iv.take(i - 1), color);
            let nx = layout(iv.take(i as int), color);
            assert(nx.out =~= out@);
        }
    }
    assert(iv.take(items@.len() as int) =~= iv);
    out.push('\n');
    out
}

/// What a token of a document is, as far as line lengths go.
#[derive(Debug, Clone, Copy, PartialEq, Eq, Structural)]
pub enum TokenClass {
    /// A line or paragraph break.
    LineBreak,
    /// Text the parser could not lint; it does not count towards a line.
    Unlintable,
    /// Any other token.
    Other,
}

/// A token: its class and the number of characters it spans.
#[derive(Debug, Clone, Copy, PartialEq, Eq, Structural)]
pub struct TokenInfo {
    pub class: TokenClass,
    pub len: usize,
}

/// Scanning the first `i` tokens: the longest finished line, the length of
/// the current line, and the index of the token that starts it.
pub open spec fn line_scan(toks: Seq<TokenInfo>, i: int) -> (nat, nat, nat)
    decreases i,
{
    if i <= 0 {
        (0, 0, 0)
    } else {
        let st = line_scan(toks, i - 1);
        let t = toks[i - 1];
        match t.class {
            TokenClass::LineBreak => (if st.1 > st.0 { st.1 } else { st.0 }, 0, i as nat),
            TokenClass::Unlintable => st,
            TokenClass::Other => (st.0, st.1 + t.len as nat, st.2),
        }
    }
}

/// The length, in characters, of the longest line of a document given by
/// its tokens; the last line counts when some token follows the last break.
pub open spec fn spec_longest_line(toks: Seq<TokenInfo>) -> nat {
    let st = line_scan(toks, toks.len() as int);
    if st.1 > st.0 && toks.len() > 0 && st.2 < toks.len() {
        st.1
    } else {
        st.0
    }
}

/// The number of characters of all tokens that are neither breaks nor unlintable.
pub open spec fn counted_len(toks: Seq<TokenInfo>) -> nat
    decreases toks.len(),
{
    if toks.len() == 0 {
        0
    } else {
        counted_len(toks.drop_last()) + if toks.last().class == TokenClass::Other {
            toks.last().len as nat
        } else {
            0nat
        }
    }
}

proof fn lemma_line_scan_bounded(toks: Seq<TokenInfo>, i: int)
    requires
        0 <= i <= toks.len(),
    ensures
        line_scan(toks, i).1 <= counted_len(toks.take(i)),
        line_scan(toks, i).0 <= counted_len(toks.take(i)),
        line_scan(toks, i).2 <= i,
    decreases i,
{
    if i > 0 {
        lemma_line_scan_bounded(toks, i - 1);
        assert(toks.take(i).drop_last() =~= toks.take(i - 1));
    }
}

proof fn lemma_counted_prefix(toks: Seq<TokenInfo>, i: int)
    requires
        0 <= i <= toks.len(),
    ensures
        counted_len(toks.take(i)) <= counted_len(toks),
    decreases toks.len() - i,
{
    if i < toks.len() {
        lemma_counted_prefix(toks, i + 1);
        assert(toks.take(i + 1).drop_last() =~= toks.take(i));
    } else {
        assert(toks.take(i) =~= toks);
    }
}

/// The length of the longest line of a document, from its tokens.
pub fn find_longest_doc_line(toks: &[TokenInfo]) -> (r: usize)
    requires
        counted_len(toks@) <= usize::MAX,
    ensures
        r == spec_longest_line(toks@),
{
    let mut longest: usize = 0;
    let mut curr: usize = 0;
    let mut start: usize = 0;
    let mut idx: usize = 0;
    while idx < toks.len()
        invariant
            idx <= toks@.len(),
            counted_len(toks@) <= usize::MAX,
            (longest as nat, curr as nat, start as nat) == line_scan(toks@, idx as int),
        decreases toks.len() - idx,
    {
        proof {
            lemma_line_scan_bounded(toks@, idx + 1);
            lemma_counted_prefix(toks@, idx + 1);
        }
        let t = toks[idx];
        match t.class {
            TokenClass::LineBreak => {
                if curr > longest {
                    longest = curr;
                }
                curr = 0;
                start = idx + 1;
            },
            TokenClass::Unlintable => {},
            TokenClass::Other => {
                curr = curr + t.len;
            },
        }
        idx = idx + 1;
    }
    if curr > longest && toks.len() > 0 && start < toks.len() {
        longest = curr;
    }
    longest
}

} // verus!
