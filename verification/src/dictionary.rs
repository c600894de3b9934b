//! Maintenance of a dictionary and its annotation file: renaming a flag,
//! and auditing which flags are duplicated, unknown or unused.

use vstd::prelude::*;

use crate::cli::{index_of, index_of_exec, lemma_index_of_bounds};
use crate::json::{
    entries_view, entry_in, entry_of, field_in, field_of, lemma_object_view, object_entries, parse_json, parsed_json,
    JsonV, JsonValue,
};
use crate::text::{chars_eq, push_chars, str_to_chars};

verus! {

/// `l` without one `\r` at its end.
pub open spec fn strip_cr(l: Seq<char>) -> Seq<char> {
    if l.len() > 0 && l.last() == '\r' {
        l.drop_last()
    } else {
        l
    }
}

/// The lines of `s[i..]`, the current one having begun with `cur`: each line
/// ends at a `\n`, which is dropped together with one `\r` before it; the
/// last line needs no `\n`, and nothing follows a final `\n`.
pub open spec fn split_lines(s: Seq<char>, i: int, cur: Seq<char>) -> Seq<Seq<char>>
    decreases s.len() - i,
{
    if i < 0 || i >= s.len() {
        if cur.len() == 0 {
            Seq::empty()
        } else {
            seq![cur]
        }
    } else if s[i] == '\n' {
        seq![strip_cr(cur)] + split_lines(s, i + 1, Seq::empty())
    } else {
        split_lines(s, i + 1, cur.push(s[i]))
    }
}

/// The lines of a text, as `str::lines` gives them.
pub open spec fn text_lines(s: Seq<char>) -> Seq<Seq<char>> {
    split_lines(s, 0, Seq::empty())
}

/// Lines joined with `\n` between them.
pub open spec fn join_lines(ls: Seq<Seq<char>>) -> Seq<char>
    decreases ls.len(),
{
    if ls.len() == 0 {
        Seq::empty()
    } else if ls.len() == 1 {
        ls[0]
    } else {
        join_lines(ls.drop_last()) + seq!['\n'] + ls.last()
    }
}

/// Every occurrence of `pat` in `s`, taken left to right without overlap,
/// replaced by `rep` (as `str::replace` does).
pub open spec fn replace_all(s: Seq<char>, pat: Seq<char>, rep: Seq<char>) -> Seq<char>
    decreases s.len(),
{
    if pat.len() == 0 || s.len() < pat.len() {
        s
    } else if s.take(pat.len() as int) == pat {
        rep + replace_all(s.skip(pat.len() as int), pat, rep)
    } else {
        seq![s[0]] + replace_all(s.skip(1), pat, rep)
    }
}

/// The position of the first `c` in `s`, or its length.
pub open spec fn cut_at(s: Seq<char>, c: char) -> int {
    match index_of(s, c, 0) {
        Some(i) => i,
        None => s.len() as int,
    }
}

/// A dictionary line with `old` replaced by `new` in its annotation: the
/// part from the first `/` up to the first `#` (a comment).
pub open spec fn rename_in_line(line: Seq<char>, old: Seq<char>, new: Seq<char>) -> Seq<char> {
    let entry = line.take(cut_at(line, '#'));
    let comment = line.skip(cut_at(line, '#'));
    let lexeme = entry.take(cut_at(entry, '/'));
    let annotation = entry.skip(cut_at(entry, '/'));
    lexeme + replace_all(annotation, old, new) + comment
}

/// A dictionary with `old` renamed to `new` in the annotation of every line,
/// its lines joined with `\n`.
pub open spec fn rename_in_dictionary(dict: Seq<char>, old: Seq<char>, new: Seq<char>) -> Seq<char> {
    join_lines(text_lines(dict).map_values(|l: Seq<char>| rename_in_line(l, old, new)))
}

/// A flag is one character, none of `/`, `#` and space.
pub open spec fn flag_ok(f: Seq<char>) -> bool {
    f.len() == 1 && f[0] != '/' && f[0] != '#' && f[0] != ' '
}

/// The annotation entry of flag `f`: among the affixes first, then the properties.
pub open spec fn flag_entry(affixes: Seq<(Seq<char>, JsonV)>, properties: Seq<(Seq<char>, JsonV)>, f: Seq<char>) -> Option<JsonV> {
    match entry_of(affixes, f) {
        Some(e) => Some(e),
        None => entry_of(properties, f),
    }
}

/// The description of an annotation entry: its `#` text.
pub open spec fn entry_description(e: JsonV) -> Seq<char> {
    match field_of(e, "#"@) {
        Some(JsonV::Str(s)) => s,
        _ => "(no description)"@,
    }
}

/// `"f":`, the way a key is written in the annotation file.
pub open spec fn quoted_key(f: Seq<char>) -> Seq<char> {
    seq!['"'] + f + seq!['"', ':']
}

/// Why a flag cannot be renamed.
#[derive(Debug, Clone, Copy, PartialEq, Eq, Structural)]
pub enum RenameFault {
    /// The old flag is not one character other than `/`, `#` and space.
    BadOldFlag,
    /// The new flag is not one character other than `/`, `#` and space.
    BadNewFlag,
    /// The annotation file is not JSON.
    NotJson,
    /// The annotation file has no `affixes` object.
    NoAffixes,
    /// The annotation file has no `properties` object.
    NoProperties,
    /// The old flag is not annotated.
    UnknownFlag,
    /// The new flag is annotated already.
    FlagTaken,
    /// The renamed annotation file is not JSON.
    RenamedNotJson,
}

/// A refused rename: why, and for a taken flag, that flag's description.
#[derive(Debug)]
pub struct RenameError {
    pub fault: RenameFault,
    pub description: String,
}

/// A rename carried out: the new dictionary and annotation texts, and the
/// description of the renamed flag.
#[derive(Debug)]
pub struct Renamed {
    pub dictionary: String,
    pub annotations: String,
    pub description: String,
}

/// What renaming flag `old` to `new` gives: the dictionary, the annotations
/// and the flag's description, or the fault with a description (that of the
/// flag already holding the new name; empty otherwise).
pub open spec fn spec_rename_flag(
    dict: Seq<char>,
    annotations: Seq<char>,
    old: Seq<char>,
    new: Seq<char>,
) -> Result<(Seq<char>, Seq<char>, Seq<char>), (RenameFault, Seq<char>)> {
    if !flag_ok(old) {
        Err((RenameFault::BadOldFlag, Seq::empty()))
    } else if !flag_ok(new) {
        Err((RenameFault::BadNewFlag, Seq::empty()))
    } else {
        match parsed_json(annotations) {
            None => Err((RenameFault::NotJson, Seq::empty())),
            Some(root) => match object_entries(field_of(root, "affixes"@)) {
                None => Err((RenameFault::NoAffixes, Seq::empty())),
                Some(affixes) => match object_entries(field_of(root, "properties"@)) {
                    None => Err((RenameFault::NoProperties, Seq::empty())),
                    Some(properties) => match flag_entry(affixes, properties, old) {
                        None => Err((RenameFault::UnknownFlag, Seq::empty())),
                        Some(old_entry) => match flag_entry(affixes, properties, new) {
                            Some(new_entry) => Err((RenameFault::FlagTaken, entry_description(new_entry))),
                            None => {
                                let renamed = replace_all(annotations, quoted_key(old), quoted_key(new));
                                if parsed_json(renamed) is None {
                                    Err((RenameFault::RenamedNotJson, Seq::empty()))
                                } else {
                                    Ok((rename_in_dictionary(dict, old, new), renamed, entry_description(old_entry)))
                                }
                            },
                        },
                    },
                },
            },
        }
    }
}

/// The lines of `text`, as `str::lines` gives them.
pub fn lines_of(text: &[char]) -> (r: Vec<Vec<char>>)
    ensures
        r@.map_values(|l: Vec<char>| l@) == text_lines(text@),
{
    let ghost s = text@;
    let mut out: Vec<Vec<char>> = Vec::new();
    let mut cur: Vec<char> = Vec::new();
    let mut i: usize = 0;
    while i < text.len()
        invariant
            s == text@,
            i <= s.len(),
            out@.map_values(|l: Vec<char>| l@) + split_lines(s, i as int, cur@) == text_lines(s),
        decreases text.len() - i,
    {
        let ghost before = out@.map_values(|l: Vec<char>| l@);
        if text[i] == '\n' {
            if cur.len() > 0 && cur[cur.len() - 1] == '\r' {
                cur.pop();
            }
            let line = cur;
            proof {
                assert(out@.push(line).map_values(|l: Vec<char>| l@) =~= before.push(line@));
                assert(before.push(line@) + split_lines(s, i + 1, Seq::empty()) =~= before + (seq![line@] + split_lines(
                    s,
                    i + 1,
                    Seq::empty(),
                )));
            }
            out.push(line);
            cur = Vec::new();
        } else {
            cur.push(text[i]);
        }
        i = i + 1;
    }
    if cur.len() > 0 {
        let ghost before = out@.map_values(|l: Vec<char>| l@);
        let line = cur;
        proof {
            assert(out@.push(line).map_values(|l: Vec<char>| l@) =~= before + seq![line@]);
        }
        out.push(line);
    } else {
        assert(out@.map_values(|l: Vec<char>| l@) + Seq::<Seq<char>>::empty() =~= out@.map_values(|l: Vec<char>| l@));
    }
    out
}

/// `s` with every occurrence of `pat` replaced by `rep`, left to right.
pub fn replace_all_exec(s: &[char], pat: &[char], rep: &[char]) -> (r: Vec<char>)
    ensures
        r@ == replace_all(s@, pat@, rep@),
{
    let mut out: Vec<char> = Vec::new();
    if pat.len() == 0 {
        let mut k: usize = 0;
        while k < s.len()
            invariant
                k <= s@.len(),
                out@ == s@.take(k as int),
            decreases s.len() - k,
        {
            out.push(s[k]);
            k = k + 1;
            assert(out@ =~= s@.take(k as int));
        }
        assert(s@.take(s@.len() as int) =~= s@);
        return out;
    }
    let mut i: usize = 0;
    assert(s@.skip(0) =~= s@);
    assert(out@ + replace_all(s@, pat@, rep@) =~= replace_all(s@, pat@, rep@));
    while i < s.len()
        invariant
            i <= s@.len(),
            pat@.len() > 0,
            out@ + replace_all(s@.skip(i as int), pat@, rep@) == replace_all(s@, pat@, rep@),
        decreases s.len() - i,
    {
        let ghost rest = s@.skip(i as int);
        if crate::text::matches_at(s, pat, i) {
            proof {
                assert(rest.take(pat@.len() as int) =~= s@.subrange(i as int, i + pat@.len()));
                assert(rest.skip(pat@.len() as int) =~= s@.skip(i + pat@.len()));
            }
            let ghost o = out@;
            let mut k: usize = 0;
            while k < rep.len()
                invariant
                    k <= rep@.len(),
                    out@ == o + rep@.take(k as int),
                decreases rep.len() - k,
            {
                out.push(rep[k]);
                k = k + 1;
                assert(out@ =~= o + rep@.take(k as int));
            }
            assert(rep@.take(rep@.len() as int) =~= rep@);
            assert(o + (rep@ + replace_all(rest.skip(pat@.len() as int), pat@, rep@)) =~= out@ + replace_all(
                rest.skip(pat@.len() as int),
                pat@,
                rep@,
            ));
            i = i + pat.len();
        } else {
            proof {
                if rest.len() >= pat@.len() {
                    assert(rest.take(pat@.len() as int) =~= s@.subrange(i as int, i + pat@.len()));
                }
                assert(rest.skip(1) =~= s@.skip(i + 1));
            }
            let ghost o = out@;
            out.push(s[i]);
            proof {
                if rest.len() < pat@.len() {
                    assert(replace_all(rest, pat@, rep@) == rest);
                    assert(rest =~= seq![s@[i as int]] + s@.skip(i + 1));
                    lemma_replace_short(s@.skip(i + 1), pat@, rep@);
                }
            }
            assert(o + (seq![s@[i as int]] + replace_all(s@.skip(i + 1), pat@, rep@)) =~= out@ + replace_all(
                s@.skip(i + 1),
                pat@,
                rep@,
            ));
            i = i + 1;
        }
    }
    assert(s@.skip(i as int) =~= Seq::<char>::empty());
    assert(out@ + Seq::<char>::empty() =~= out@);
    out
}

/// A text shorter than the pattern is left as it is.
proof fn lemma_replace_short(s: Seq<char>, pat: Seq<char>, rep: Seq<char>)
    requires
        s.len() < pat.len(),
    ensures
        replace_all(s, pat, rep) == s,
{
}

/// The characters `s[a..b]`.
fn sub_chars(s: &[char], a: usize, b: usize) -> (r: Vec<char>)
    requires
        a <= b <= s@.len(),
    ensures
        r@ == s@.subrange(a as int, b as int),
{
    let mut out: Vec<char> = Vec::new();
    let mut k = a;
    while k < b
        invariant
            a <= k <= b <= s@.len(),
            out@ == s@.subrange(a as int, k as int),
        decreases b - k,
    {
        out.push(s[k]);
        k = k + 1;
        assert(out@ =~= s@.subrange(a as int, k as int));
    }
    out
}

/// The position of the first `c` in `s`, or its length.
fn cut_at_exec(s: &[char], c: char) -> (r: usize)
    ensures
        r == cut_at(s@, c),
        r <= s@.len(),
{
    proof {
        lemma_index_of_bounds(s@, c, 0);
    }
    match index_of_exec(s, c, 0) {
        Some(i) => i,
        None => s.len(),
    }
}

/// One dictionary line with `old` renamed to `new` in its annotation.
fn rename_in_line_exec(line: &[char], old: &[char], new: &[char]) -> (r: Vec<char>)
    ensures
        r@ == rename_in_line(line@, old@, new@),
{
    let h = cut_at_exec(line, '#');
    let entry = sub_chars(line, 0, h);
    let comment = sub_chars(line, h, line.len());
    let sl = cut_at_exec(entry.as_slice(), '/');
    let lexeme = sub_chars(entry.as_slice(), 0, sl);
    let annotation = sub_chars(entry.as_slice(), sl, entry.len());
    let replaced = replace_all_exec(annotation.as_slice(), old, new);
    proof {
        assert(entry@ =~= line@.take(h as int));
        assert(comment@ =~= line@.skip(h as int));
        assert(lexeme@ =~= entry@.take(sl as int));
        assert(annotation@ =~= entry@.skip(sl as int));
    }
    let mut out = lexeme;
    let ghost l0 = out@;
    out.append(&mut replaced.clone());
    let ghost l1 = out@;
    out.append(&mut comment.clone());
    assert(out@ =~= l0 + replaced@ + comment@);
    out
}

/// Lines joined with `\n` between them.
fn join_lines_exec(lines: &Vec<Vec<char>>) -> (r: Vec<char>)
    ensures
        r@ == join_lines(lines@.map_values(|l: Vec<char>| l@)),
{
    let ghost lv = lines@.map_values(|l: Vec<char>| l@);
    let mut out: Vec<char> = Vec::new();
    let mut k: usize = 0;
    assert(lv.take(0) =~= Seq::<Seq<char>>::empty());
    while k < lines.len()
        invariant
            k <= lines@.len(),
            lv == lines@.map_values(|l: Vec<char>| l@),
            out@ == join_lines(lv.take(k as int)),
        decreases lines.len() - k,
    {
        let ghost o = out@;
        assert(lv.take(k + 1).drop_last() =~= lv.take(k as int));
        assert(lv.take(k + 1).last() == lines@[k as int]@);
        if k > 0 {
            out.push('\n');
        }
        let mut piece = lines[k].clone();
        out.append(&mut piece);
        if k == 0 {
            assert(out@ =~= lv.take(1)[0]);
        } else {
            assert(out@ =~= o + seq!['\n'] + lines@[k as int]@);
        }
        k = k + 1;
    }
    assert(lv.take(lines@.len() as int) =~= lv);
    out
}

/// `"f":` for a flag `f`.
fn quoted_key_exec(f: &[char]) -> (r: Vec<char>)
    ensures
        r@ == quoted_key(f@),
{
    let mut out: Vec<char> = Vec::new();
    out.push('"');
    let mut piece = sub_chars(f, 0, f.len());
    out.append(&mut piece);
    out.push('"');
    out.push(':');
    assert(f@.subrange(0, f@.len() as int) =~= f@);
    assert(out@ =~= quoted_key(f@));
    out
}

/// Whether `f` is one character, none of `/`, `#` and space.
fn flag_ok_exec(f: &[char]) -> (r: bool)
    ensures
        r == flag_ok(f@),
{
    f.len() == 1 && f[0] != '/' && f[0] != '#' && f[0] != ' '
}

/// The description of an annotation entry.
fn description_of(e: &JsonValue) -> (r: String)
    ensures
        r@ == entry_description(e@),
{
    let key = str_to_chars("#");
    match field_in(e, key.as_slice()) {
        Some(JsonValue::Str(s)) => s.clone(),
        _ => String::from_str("(no description)"),
    }
}

/// The entries of `v` when it is an object.
fn object_of<'a>(v: Option<&'a JsonValue>) -> (r: Option<&'a Vec<(String, JsonValue)>>)
    ensures
        match r {
            Some(es) => object_entries(match v { Some(x) => Some(x@), None => None }) == Some(entries_view(es@)),
            None => object_entries(match v { Some(x) => Some(x@), None => None }) is None,
        },
{
    match v {
        Some(JsonValue::Object(es)) => {
            proof {
                lemma_object_view(*es);
            }
            Some(es)
        },
        _ => None,
    }
}

/// The annotation entry of flag `f`: among the affixes first, then the properties.
fn flag_entry_exec<'a>(
    affixes: &'a Vec<(String, JsonValue)>,
    properties: &'a Vec<(String, JsonValue)>,
    f: &[char],
) -> (r: Option<&'a JsonValue>)
    ensures
        match r {
            Some(v) => flag_entry(entries_view(affixes@), entries_view(properties@), f@) == Some(v@),
            None => flag_entry(entries_view(affixes@), entries_view(properties@), f@) is None,
        },
{
    match entry_in(affixes, f) {
        Some(e) => Some(e),
        None => entry_in(properties, f),
    }
}

/// The error of a refused rename.
fn rename_error(fault: RenameFault) -> (r: RenameError)
    ensures
        r.fault == fault,
        r.description@ == Seq::<char>::empty(),
{
    RenameError { fault, description: String::new() }
}

/// Rename flag `old` to `new` in a dictionary and its annotation file: the
/// flags must be single characters other than `/`, `#` and space, the
/// annotations JSON with `affixes` and `properties` objects, `old` annotated
/// there and `new` not; every line's annotation gets `new` for `old`, and the
/// annotation file gets `"new":` for `"old":` (which must leave it JSON).
pub fn rename_flag(dictionary: &str, annotations: &str, old: &str, new: &str) -> (r: Result<Renamed, RenameError>)
    ensures
        match r {
            Ok(x) => spec_rename_flag(dictionary@, annotations@, old@, new@) == Ok::<
                (Seq<char>, Seq<char>, Seq<char>),
                (RenameFault, Seq<char>),
            >((x.dictionary@, x.annotations@, x.description@)),
            Err(e) => spec_rename_flag(dictionary@, annotations@, old@, new@) == Err::<
                (Seq<char>, Seq<char>, Seq<char>),
                (RenameFault, Seq<char>),
            >((e.fault, e.description@)),
        },
{
    let oc = str_to_chars(old);
    let nc = str_to_chars(new);
    if !flag_ok_exec(oc.as_slice()) {
        return Err(rename_error(RenameFault::BadOldFlag));
    }
    if !flag_ok_exec(nc.as_slice()) {
        return Err(rename_error(RenameFault::BadNewFlag));
    }
    let root = match parse_json(annotations) {
        Some(v) => v,
        None => {
            return Err(rename_error(RenameFault::NotJson));
        },
    };
    let affixes_key = str_to_chars("affixes");
    let affixes = match object_of(field_in(&root, affixes_key.as_slice())) {
        Some(es) => es,
        None => {
            return Err(rename_error(RenameFault::NoAffixes));
        },
    };
    let properties_key = str_to_chars("properties");
    let properties = match object_of(field_in(&root, properties_key.as_slice())) {
        Some(es) => es,
        None => {
            return Err(rename_error(RenameFault::NoProperties));
        },
    };
    let old_entry = match flag_entry_exec(affixes, properties, oc.as_slice()) {
        Some(e) => e,
        None => {
            return Err(rename_error(RenameFault::UnknownFlag));
        },
    };
    if let Some(taken) = flag_entry_exec(affixes, properties, nc.as_slice()) {
        return Err(RenameError { fault: RenameFault::FlagTaken, description: description_of(taken) });
    }
    let description = description_of(old_entry);
    let ann = str_to_chars(annotations);
    let from = quoted_key_exec(oc.as_slice());
    let to = quoted_key_exec(nc.as_slice());
    let renamed_chars = replace_all_exec(ann.as_slice(), from.as_slice(), to.as_slice());
    let renamed = crate::text::chars_to_string(renamed_chars.as_slice(), 0, renamed_chars.len());
    assert(renamed_chars@.subrange(0, renamed_chars@.len() as int) =~= renamed_chars@);
    if parse_json(renamed.as_str()).is_none() {
        return Err(rename_error(RenameFault::RenamedNotJson));
    }
    let dict = str_to_chars(dictionary);
    let lines = lines_of(dict.as_slice());
    let ghost lv = lines@.map_values(|l: Vec<char>| l@);
    let mut out_lines: Vec<Vec<char>> = Vec::new();
    let mut k: usize = 0;
    while k < lines.len()
        invariant
            k <= lines@.len(),
            oc@ == old@,
            nc@ == new@,
            lv == lines@.map_values(|l: Vec<char>| l@),
            out_lines@.map_values(|l: Vec<char>| l@) == lv.take(k as int).map_values(
                |l: Seq<char>| rename_in_line(l, old@, new@),
            ),
        decreases lines.len() - k,
    {
        let line = rename_in_line_exec(lines[k].as_slice(), oc.as_slice(), nc.as_slice());
        proof {
            assert(lines@[k as int]@ == lv[k as int]);
        }
        let ghost before = out_lines@;
        out_lines.push(line);
        proof {
            assert(out_lines@.map_values(|l: Vec<char>| l@) =~= before.map_values(|l: Vec<char>| l@).push(line@));
            assert(lv.take(k + 1).map_values(|l: Seq<char>| rename_in_line(l, old@, new@)) =~= lv.take(
                k as int,
            ).map_values(|l: Seq<char>| rename_in_line(l, old@, new@)).push(rename_in_line(lv[k as int], old@, new@)));
        }
        k = k + 1;
    }
    assert(lv.take(lines@.len() as int) =~= lv);
    let joined = join_lines_exec(&out_lines);
    let dictionary_out = crate::text::chars_to_string(joined.as_slice(), 0, joined.len());
    assert(joined@.subrange(0, joined@.len() as int) =~= joined@);
    Ok(Renamed { dictionary: dictionary_out, annotations: renamed, description })
}

/// The flags named by the keys of annotation entries: each key's first character.
pub open spec fn key_flags(es: Seq<(Seq<char>, JsonV)>) -> Seq<char>
    decreases es.len(),
{
    if es.len() == 0 {
        Seq::empty()
    } else if es.last().0.len() > 0 {
        key_flags(es.drop_last()).push(es.last().0[0])
    } else {
        key_flags(es.drop_last())
    }
}

/// A space or a tab.
pub open spec fn is_blank(c: char) -> bool {
    c == ' ' || c == '\t'
}

/// The position of the first blank in `s` at or after `i`, or its length.
pub open spec fn blank_from(s: Seq<char>, i: int) -> int
    decreases s.len() - i,
{
    if i < 0 || i >= s.len() {
        s.len() as int
    } else if is_blank(s[i]) {
        i
    } else {
        blank_from(s, i + 1)
    }
}

/// A line the audit passes over: empty, a comment, or a number (the word count).
pub open spec fn skipped_line(line: Seq<char>) -> bool {
    line.len() == 0 || line[0] == '#' || forall|i: int| 0 <= i < line.len() ==> is_ascii_digit(#[trigger] line[i])
}

/// An ASCII digit, `0` to `9`.
pub open spec fn is_ascii_digit(c: char) -> bool {
    48 <= (c as u32) <= 57
}

/// The word and annotation of an audited line: before any `#`, the text
/// before the first `/`, and after it, the text up to the first blank.
pub open spec fn line_entry(line: Seq<char>) -> Option<(Seq<char>, Seq<char>)> {
    if skipped_line(line) {
        None
    } else {
        let entry = line.take(cut_at(line, '#'));
        match index_of(entry, '/', 0) {
            None => None,
            Some(s) => {
                let rest = entry.skip(s + 1);
                Some((entry.take(s), rest.take(blank_from(rest, 0))))
            },
        }
    }
}

/// A problem the audit finds in a dictionary line.
pub struct FindingV {
    pub line: int,
    pub flag: char,
    pub duplicate: bool,
    pub lexeme: Seq<char>,
    pub annotation: Seq<char>,
}

/// A problem the audit finds in a dictionary line (numbered from 1): a flag
/// given twice in one annotation (`duplicate`), or a flag that no annotation
/// key names.
#[derive(Debug)]
pub struct AuditFinding {
    pub line: usize,
    pub flag: char,
    pub duplicate: bool,
    pub lexeme: String,
    pub annotation: String,
}

impl View for AuditFinding {
    type V = FindingV;

    open spec fn view(&self) -> FindingV {
        FindingV {
            line: self.line as int,
            flag: self.flag,
            duplicate: self.duplicate,
            lexeme: self.lexeme@,
            annotation: self.annotation@,
        }
    }
}

/// The findings for the flags `ann[p..]` of the entry `lex/ann` on line `n`:
/// for each flag, first whether it came before in the annotation, then
/// whether it is unknown.
pub open spec fn annotation_findings(n: int, lex: Seq<char>, ann: Seq<char>, known: Seq<char>, p: int) -> Seq<FindingV>
    decreases ann.len() - p,
{
    if p < 0 || p >= ann.len() {
        Seq::empty()
    } else {
        let f = ann[p];
        let dup = if ann.take(p).contains(f) {
            seq![FindingV { line: n, flag: f, duplicate: true, lexeme: lex, annotation: ann }]
        } else {
            Seq::empty()
        };
        let unknown = if !known.contains(f) {
            seq![FindingV { line: n, flag: f, duplicate: false, lexeme: lex, annotation: ann }]
        } else {
            Seq::empty()
        };
        dup + unknown + annotation_findings(n, lex, ann, known, p + 1)
    }
}

/// The findings of lines `k..`, in order.
pub open spec fn findings_from(lines: Seq<Seq<char>>, known: Seq<char>, k: int) -> Seq<FindingV>
    decreases lines.len() - k,
{
    if k < 0 || k >= lines.len() {
        Seq::empty()
    } else {
        let here = match line_entry(lines[k]) {
            Some((lex, ann)) => annotation_findings(k + 1, lex, ann, known, 0),
            None => Seq::empty(),
        };
        here + findings_from(lines, known, k + 1)
    }
}

/// The annotation of an audited line holds flag `f`.
pub open spec fn line_uses(line: Seq<char>, f: char) -> bool {
    match line_entry(line) {
        Some((_, ann)) => ann.contains(f),
        None => false,
    }
}

/// Some audited line's annotation holds flag `f`.
pub open spec fn flag_used(lines: Seq<Seq<char>>, f: char) -> bool {
    exists|k: int| 0 <= k < lines.len() && #[trigger] line_uses(lines[k], f)
}

/// The characters of `s`, each once, where it first occurs.
pub open spec fn distinct(s: Seq<char>) -> Seq<char>
    decreases s.len(),
{
    if s.len() == 0 {
        Seq::empty()
    } else if s.drop_last().contains(s.last()) {
        distinct(s.drop_last())
    } else {
        distinct(s.drop_last()).push(s.last())
    }
}

/// Why a dictionary cannot be audited.
#[derive(Debug, Clone, Copy, PartialEq, Eq, Structural)]
pub enum AuditFault {
    /// The annotation file is not JSON.
    NotJson,
    /// The annotation file is not a JSON object.
    NotObject,
    /// It has no `affixes` object.
    NoAffixes,
    /// It has no `properties` object.
    NoProperties,
}

/// What an audit finds: the problems of the lines, in order, and the flags
/// that the annotation keys name but no line uses (in the order of the keys).
#[derive(Debug)]
pub struct AuditReport {
    pub findings: Vec<AuditFinding>,
    pub unused: Vec<char>,
}

/// The audit of a dictionary against its annotation file.
pub open spec fn spec_audit(dict: Seq<char>, annotations: Seq<char>) -> Result<(Seq<FindingV>, Seq<char>), AuditFault> {
    match parsed_json(annotations) {
        None => Err(AuditFault::NotJson),
        Some(root) => match root {
            JsonV::Object(_) => match object_entries(field_of(root, "affixes"@)) {
                None => Err(AuditFault::NoAffixes),
                Some(affixes) => match object_entries(field_of(root, "properties"@)) {
                    None => Err(AuditFault::NoProperties),
                    Some(properties) => {
                        let known = key_flags(affixes) + key_flags(properties);
                        let lines = text_lines(dict);
                        Ok((
                            findings_from(lines, known, 0),
                            distinct(known).filter(|f: char| !flag_used(lines, f)),
                        ))
                    },
                },
            },
            _ => Err(AuditFault::NotObject),
        },
    }
}

pub open spec fn findings_view(s: Seq<AuditFinding>) -> Seq<FindingV> {
    s.map_values(|f: AuditFinding| f@)
}

/// The flags named by the keys of annotation entries.
fn key_flags_exec(es: &Vec<(String, JsonValue)>) -> (r: Vec<char>)
    ensures
        r@ == key_flags(entries_view(es@)),
{
    let ghost ev = entries_view(es@);
    let mut out: Vec<char> = Vec::new();
    let mut i: usize = 0;
    assert(ev.take(0) =~= Seq::<(Seq<char>, JsonV)>::empty());
    while i < es.len()
        invariant
            i <= es@.len(),
            ev == entries_view(es@),
            out@ == key_flags(ev.take(i as int)),
        decreases es.len() - i,
    {
        assert(ev.take(i + 1).drop_last() =~= ev.take(i as int));
        assert(ev.take(i + 1).last() == ev[i as int]);
        let k = str_to_chars(es[i].0.as_str());
        if k.len() > 0 {
            out.push(k[0]);
        }
        i = i + 1;
    }
    assert(ev.take(es@.len() as int) =~= ev);
    out
}

/// Whether `c` occurs in `s`.
fn contains_char(s: &[char], c: char) -> (r: bool)
    ensures
        r == s@.contains(c),
{
    let mut i: usize = 0;
    while i < s.len()
        invariant
            i <= s@.len(),
            forall|j: int| 0 <= j < i ==> s@[j] != c,
        decreases s.len() - i,
    {
        if s[i] == c {
            assert(s@[i as int] == c);
            return true;
        }
        i = i + 1;
    }
    false
}

/// The position of the first blank in `s`, or its length.
fn blank_exec(s: &[char]) -> (r: usize)
    ensures
        r == blank_from(s@, 0),
        r <= s@.len(),
{
    let mut i: usize = 0;
    while i < s.len()
        invariant
            i <= s@.len(),
            blank_from(s@, 0) == blank_from(s@, i as int),
        decreases s.len() - i,
    {
        if s[i] == ' ' || s[i] == '\t' {
            return i;
        }
        i = i + 1;
    }
    i
}

/// Whether the audit passes over `line`.
fn skipped_exec(line: &[char]) -> (r: bool)
    ensures
        r == skipped_line(line@),
{
    if line.len() == 0 || line[0] == '#' {
        return true;
    }
    let mut i: usize = 0;
    while i < line.len()
        invariant
            i <= line@.len(),
            line@.len() > 0 && line@[0] != '#',
            forall|j: int| 0 <= j < i ==> is_ascii_digit(#[trigger] line@[j]),
        decreases line.len() - i,
    {
        let c: u32 = line[i] as u32;
        if !(48 <= c && c <= 57) {
            assert(!is_ascii_digit(line@[i as int]));
            return false;
        }
        i = i + 1;
    }
    true
}

/// The word and annotation of an audited line.
fn line_entry_exec(line: &[char]) -> (r: Option<(Vec<char>, Vec<char>)>)
    ensures
        match r {
            Some((lex, ann)) => line_entry(line@) == Some((lex@, ann@)),
            None => line_entry(line@) is None,
        },
{
    if skipped_exec(line) {
        return None;
    }
    let h = cut_at_exec(line, '#');
    let entry = sub_chars(line, 0, h);
    assert(entry@ =~= line@.take(h as int));
    proof {
        lemma_index_of_bounds(entry@, '/', 0);
    }
    match index_of_exec(entry.as_slice(), '/', 0) {
        None => None,
        Some(s) => {
            let rest = sub_chars(entry.as_slice(), s + 1, entry.len());
            assert(rest@ =~= entry@.skip(s + 1));
            let b = blank_exec(rest.as_slice());
            let lex = sub_chars(entry.as_slice(), 0, s);
            let ann = sub_chars(rest.as_slice(), 0, b);
            assert(lex@ =~= entry@.take(s as int));
            assert(ann@ =~= rest@.take(b as int));
            Some((lex, ann))
        },
    }
}

/// The finding for flag `f` of entry `lex/ann` on line `n`.
fn finding(n: usize, f: char, duplicate: bool, lex: &[char], ann: &[char]) -> (r: AuditFinding)
    ensures
        r@ == (FindingV { line: n as int, flag: f, duplicate: duplicate, lexeme: lex@, annotation: ann@ }),
{
    let lexeme = crate::text::chars_to_string(lex, 0, lex.len());
    let annotation = crate::text::chars_to_string(ann, 0, ann.len());
    assert(lex@.subrange(0, lex@.len() as int) =~= lex@);
    assert(ann@.subrange(0, ann@.len() as int) =~= ann@);
    AuditFinding { line: n, flag: f, duplicate, lexeme, annotation }
}

/// Append the findings for the flags of entry `lex/ann` on line `n`.
fn push_annotation_findings(out: &mut Vec<AuditFinding>, n: usize, lex: &[char], ann: &[char], known: &[char])
    ensures
        findings_view(final(out)@) == findings_view(old(out)@) + annotation_findings(n as int, lex@, ann@, known@, 0),
{
    let ghost o = findings_view(out@);
    let mut p: usize = 0;
    assert(o + annotation_findings(n as int, lex@, ann@, known@, 0) =~= findings_view(out@) + annotation_findings(
        n as int,
        lex@,
        ann@,
        known@,
        0,
    ));
    while p < ann.len()
        invariant
            p <= ann@.len(),
            o + annotation_findings(n as int, lex@, ann@, known@, 0) == findings_view(out@) + annotation_findings(
                n as int,
                lex@,
                ann@,
                known@,
                p as int,
            ),
        decreases ann.len() - p,
    {
        let f = ann[p];
        let before = sub_chars(ann, 0, p);
        assert(before@ =~= ann@.take(p as int));
        let ghost v0 = findings_view(out@);
        let dup = contains_char(before.as_slice(), f);
        let unknown = !contains_char(known, f);
        if dup {
            let x = finding(n, f, true, lex, ann);
            out.push(x);
        }
        let ghost v1 = findings_view(out@);
        if unknown {
            let x = finding(n, f, false, lex, ann);
            out.push(x);
        }
        proof {
            let d = if ann@.take(p as int).contains(f) {
                seq![FindingV { line: n as int, flag: f, duplicate: true, lexeme: lex@, annotation: ann@ }]
            } else {
                Seq::empty()
            };
            let u = if !known@.contains(f) {
                seq![FindingV { line: n as int, flag: f, duplicate: false, lexeme: lex@, annotation: ann@ }]
            } else {
                Seq::empty()
            };
            assert(v1 =~= v0 + d);
            assert(findings_view(out@) =~= v1 + u);
            assert(v0 + annotation_findings(n as int, lex@, ann@, known@, p as int) =~= findings_view(out@)
                + annotation_findings(n as int, lex@, ann@, known@, p + 1));
        }
        p = p + 1;
    }
    assert(findings_view(out@) + Seq::<FindingV>::empty() =~= findings_view(out@));
}

/// Audit a dictionary against its annotation file (a JSON object with
/// `affixes` and `properties` objects, whose keys name the flags): report,
/// line by line, each flag given twice in an annotation and each flag no key
/// names, and list the named flags that no line uses.
pub fn audit_dictionary(dictionary: &str, annotations: &str) -> (r: Result<AuditReport, AuditFault>)
    ensures
        match r {
            Ok(rep) => spec_audit(dictionary@, annotations@) == Ok::<(Seq<FindingV>, Seq<char>), AuditFault>(
                (findings_view(rep.findings@), rep.unused@),
            ),
            Err(e) => spec_audit(dictionary@, annotations@) == Err::<(Seq<FindingV>, Seq<char>), AuditFault>(e),
        },
{
    let root = match parse_json(annotations) {
        Some(v) => v,
        None => {
            return Err(AuditFault::NotJson);
        },
    };
    match &root {
        JsonValue::Object(_) => {},
        _ => {
            return Err(AuditFault::NotObject);
        },
    }
    let affixes_key = str_to_chars("affixes");
    let affixes = match object_of(field_in(&root, affixes_key.as_slice())) {
        Some(es) => es,
        None => {
            return Err(AuditFault::NoAffixes);
        },
    };
    let properties_key = str_to_chars("properties");
    let properties = match object_of(field_in(&root, properties_key.as_slice())) {
        Some(es) => es,
        None => {
            return Err(AuditFault::NoProperties);
        },
    };
    let mut known = key_flags_exec(affixes);
    let mut more = key_flags_exec(properties);
    known.append(&mut more);
    let ghost kv = known@;
    let dict = str_to_chars(dictionary);
    let lines = lines_of(dict.as_slice());
    let ghost lv = lines@.map_values(|l: Vec<char>| l@);
    let ghost total = findings_from(lv, kv, 0);
    let mut findings: Vec<AuditFinding> = Vec::new();
    let mut anns: Vec<Option<Vec<char>>> = Vec::new();
    let mut k: usize = 0;
    while k < lines.len()
        invariant
            k <= lines@.len(),
            lv == lines@.map_values(|l: Vec<char>| l@),
            kv == known@,
            total == findings_from(lv, kv, 0),
            findings_view(findings@) + findings_from(lv, kv, k as int) == total,
            anns@.len() == k,
            forall|j: int|
                0 <= j < k ==> match #[trigger] anns@[j] {
                    Some(a) => line_entry(lv[j]) matches Some((_, b)) && a@ == b,
                    None => line_entry(lv[j]) is None,
                },
        decreases lines.len() - k,
    {
        let ghost v0 = findings_view(findings@);
        assert(lines@[k as int]@ == lv[k as int]);
        match line_entry_exec(lines[k].as_slice()) {
            Some((lex, ann)) => {
                push_annotation_findings(&mut findings, k + 1, lex.as_slice(), ann.as_slice(), known.as_slice());
                anns.push(Some(ann));
            },
            None => {
                anns.push(None);
            },
        }
        assert(v0 + findings_from(lv, kv, k as int) =~= findings_view(findings@) + findings_from(lv, kv, k + 1));
        k = k + 1;
    }
    assert(findings_view(findings@) + Seq::<FindingV>::empty() =~= findings_view(findings@));
    let ghost used = |f: char| !flag_used(lv, f);
    let mut unused: Vec<char> = Vec::new();
    let mut i: usize = 0;
    assert(kv.take(0) =~= Seq::<char>::empty());
    assert(distinct(kv.take(0)).filter(used) =~= Seq::<char>::empty()) by {
        reveal(Seq::filter);
    }
    while i < known.len()
        invariant
            i <= known@.len(),
            kv == known@,
            lv == lines@.map_values(|l: Vec<char>| l@),
            anns@.len() == lv.len(),
            forall|j: int|
                0 <= j < lv.len() ==> match #[trigger] anns@[j] {
                    Some(a) => line_entry(lv[j]) matches Some((_, b)) && a@ == b,
                    None => line_entry(lv[j]) is None,
                },
            used == (|f: char| !flag_used(lv, f)),
            unused@ == distinct(kv.take(i as int)).filter(used),
        decreases known.len() - i,
    {
        let f = known[i];
        let earlier = sub_chars(known.as_slice(), 0, i);
        assert(earlier@ =~= kv.take(i as int));
        assert(kv.take(i + 1).drop_last() =~= kv.take(i as int));
        assert(kv.take(i + 1).last() == f);
        let seen = contains_char(earlier.as_slice(), f);
        if !seen {
            // Is `f` used by some line?
            let mut found = false;
            let mut j: usize = 0;
            while j < anns.len()
                invariant
                    j <= anns@.len(),
                    anns@.len() == lv.len(),
                    forall|q: int|
                        0 <= q < lv.len() ==> match #[trigger] anns@[q] {
                            Some(a) => line_entry(lv[q]) matches Some((_, b)) && a@ == b,
                            None => line_entry(lv[q]) is None,
                        },
                    found == exists|q: int| 0 <= q < j && #[trigger] line_uses(lv[q], f),
                decreases anns.len() - j,
            {
                let ghost q0 = j as int;
                match &anns[j] {
                    Some(a) => {
                        if contains_char(a.as_slice(), f) {
                            assert(line_uses(lv[q0], f));
                            found = true;
                        } else {
                            assert(!line_uses(lv[q0], f));
                        }
                    },
                    None => {
                        assert(!line_uses(lv[q0], f));
                    },
                }
                j = j + 1;
            }
            proof {
                assert(found == flag_used(lv, f));
                reveal(Seq::filter);
                assert(distinct(kv.take(i + 1)) == distinct(kv.take(i as int)).push(f));
                assert(distinct(kv.take(i + 1)).drop_last() =~= distinct(kv.take(i as int)));
            }
            if !found {
                unused.push(f);
            }
        } else {
            proof {
                assert(distinct(kv.take(i + 1)) == distinct(kv.take(i as int)));
            }
        }
        i = i + 1;
    }
    assert(kv.take(known@.len() as int) =~= kv);
    Ok(AuditReport { findings, unused })
}

} // verus!
