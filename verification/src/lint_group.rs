//! Named groups of Chinese rules with per-rule on/off settings.

use vstd::prelude::*;

use crate::cjk_english_spacing::{lemma_spacing_lints_within, spec_spacing_lints, CjkEnglishSpacing};
use crate::lint::{lints_view, Document, Lint, LintV};
use crate::pattern_laws::{lemma_pattern_lints_are_occurrences, lint_of_occurrence, reported_by};
use crate::pattern_linter::{spec_pattern_lints, ChinesePatternLinter, PatternLinterV};
use crate::punctuation::{lemma_punctuation_lints_within, spec_punctuation_lints, ChinesePunctuation};
use crate::ranking::{str_lt, str_lt_exec};

verus! {

/// One of the Chinese rules.
pub enum ZhLinter {
    Pattern(ChinesePatternLinter),
    Punctuation(ChinesePunctuation),
    Spacing(CjkEnglishSpacing),
}

/// The mathematical content of a [`ZhLinter`].
pub enum ZhLinterV {
    Pattern(PatternLinterV),
    Punctuation(Seq<char>),
    Spacing(Seq<char>),
}

impl View for ZhLinter {
    type V = ZhLinterV;

    open spec fn view(&self) -> ZhLinterV {
        match self {
            ZhLinter::Pattern(p) => ZhLinterV::Pattern(p@),
            ZhLinter::Punctuation(p) => ZhLinterV::Punctuation(p@),
            ZhLinter::Spacing(p) => ZhLinterV::Spacing(p@),
        }
    }
}

/// The lints rule `l` reports for `s`.
pub open spec fn spec_linter_lints(l: ZhLinterV, s: Seq<char>) -> Seq<LintV> {
    match l {
        ZhLinterV::Pattern(p) => spec_pattern_lints(p, s),
        ZhLinterV::Punctuation(_) => spec_punctuation_lints(s),
        ZhLinterV::Spacing(_) => spec_spacing_lints(s),
    }
}

pub open spec fn spec_linter_description(l: ZhLinterV) -> Seq<char> {
    match l {
        ZhLinterV::Pattern(p) => p.description,
        ZhLinterV::Punctuation(d) => d,
        ZhLinterV::Spacing(d) => d,
    }
}

impl ZhLinter {
    pub fn lint(&self, document: &Document) -> (r: Vec<Lint>)
        ensures
            lints_view(r@) == spec_linter_lints(self@, document@),
    {
        match self {
            ZhLinter::Pattern(p) => p.lint(document),
            ZhLinter::Punctuation(p) => p.lint(document),
            ZhLinter::Spacing(p) => p.lint(document),
        }
    }

    pub fn description(&self) -> (r: &str)
        ensures
            r@ == spec_linter_description(self@),
    {
        match self {
            ZhLinter::Pattern(p) => p.description(),
            ZhLinter::Punctuation(p) => p.description(),
            ZhLinter::Spacing(p) => p.description(),
        }
    }
}

/// The value recorded for `name` in `entries` (the first entry with that name).
pub open spec fn lookup<V>(entries: Seq<(Seq<char>, V)>, name: Seq<char>) -> Option<V>
    decreases entries.len(),
{
    if entries.len() == 0 {
        None
    } else if entries[0].0 == name {
        Some(entries[0].1)
    } else {
        lookup(entries.drop_first(), name)
    }
}

/// `entries` with `name` set to `v`: the first entry with that name is
/// updated, or a new entry is appended.
pub open spec fn upsert<V>(entries: Seq<(Seq<char>, V)>, name: Seq<char>, v: V) -> Seq<(Seq<char>, V)>
    decreases entries.len(),
{
    if entries.len() == 0 {
        seq![(name, v)]
    } else if entries[0].0 == name {
        entries.update(0, (name, v))
    } else {
        seq![entries[0]] + upsert(entries.drop_first(), name, v)
    }
}

/// `base` with every entry of `other`, in order, set on top of it.
pub open spec fn upsert_all<V>(base: Seq<(Seq<char>, V)>, other: Seq<(Seq<char>, V)>) -> Seq<(Seq<char>, V)>
    decreases other.len(),
{
    if other.len() == 0 {
        base
    } else {
        upsert_all(upsert(base, other[0].0, other[0].1), other.drop_first())
    }
}

/// Per-rule on/off settings.
pub struct LintGroupConfig {
    entries: Vec<(String, bool)>,
}

pub open spec fn config_entries_view(s: Seq<(String, bool)>) -> Seq<(Seq<char>, bool)> {
    s.map_values(|e: (String, bool)| (e.0@, e.1))
}

impl View for LintGroupConfig {
    type V = Seq<(Seq<char>, bool)>;

    closed spec fn view(&self) -> Seq<(Seq<char>, bool)> {
        config_entries_view(self.entries@)
    }
}

/// The index of the first entry named `name`, if any.
fn find_entry<V>(entries: &Vec<(String, V)>, name: &String) -> (r: Option<usize>)
    ensures
        match r {
            Some(i) => i < entries@.len() && entries@[i as int].0@ == name@ && forall|j: int|
                0 <= j < i ==> (#[trigger] entries@[j]).0@ != name@,
            None => forall|j: int| 0 <= j < entries@.len() ==> (#[trigger] entries@[j]).0@ != name@,
        },
{
    let mut i: usize = 0;
    while i < entries.len()
        invariant
            i <= entries@.len(),
            forall|j: int| 0 <= j < i ==> (#[trigger] entries@[j]).0@ != name@,
        decreases entries.len() - i,
    {
        if entries[i].0 == *name {
            return Some(i);
        }
        i = i + 1;
    }
    None
}

/// Looking up `name` finds the first entry with that name.
proof fn lemma_lookup_found<V>(entries: Seq<(Seq<char>, V)>, name: Seq<char>, i: int)
    requires
        0 <= i < entries.len(),
        entries[i].0 == name,
        forall|j: int| 0 <= j < i ==> (#[trigger] entries[j]).0 != name,
    ensures
        lookup(entries, name) == Some(entries[i].1),
        upsert(entries, name, entries[i].1) == entries,
        forall|v: V| #[trigger] upsert(entries, name, v) == entries.update(i, (name, v)),
    decreases i,
{
    if i > 0 {
        assert(entries[0].0 != name);
        assert forall|j: int| 0 <= j < i - 1 implies (#[trigger] entries.drop_first()[j]).0 != name by {
            assert(entries.drop_first()[j] == entries[j + 1]);
        }
        lemma_lookup_found(entries.drop_first(), name, i - 1);
        assert forall|v: V| #[trigger] upsert(entries, name, v) == entries.update(i, (name, v)) by {
            assert(upsert(entries, name, v) == seq![entries[0]] + upsert(entries.drop_first(), name, v));
            assert(upsert(entries.drop_first(), name, v) == entries.drop_first().update(i - 1, (name, v)));
            assert(seq![entries[0]] + entries.drop_first().update(i - 1, (name, v)) =~= entries.update(i, (name, v)));
        }
        assert(seq![entries[0]] + entries.drop_first() =~= entries);
    } else {
        assert(entries.update(0, (name, entries[0].1)) =~= entries);
    }
}

/// Looking up a name no entry has finds nothing.
proof fn lemma_lookup_absent<V>(entries: Seq<(Seq<char>, V)>, name: Seq<char>)
    requires
        forall|j: int| 0 <= j < entries.len() ==> (#[trigger] entries[j]).0 != name,
    ensures
        lookup(entries, name) == None::<V>,
        forall|v: V| #[trigger] upsert(entries, name, v) == entries.push((name, v)),
    decreases entries.len(),
{
    if entries.len() > 0 {
        assert(entries[0].0 != name);
        assert forall|j: int| 0 <= j < entries.drop_first().len() implies (#[trigger] entries.drop_first()[j]).0 != name by {
            assert(entries.drop_first()[j] == entries[j + 1]);
        }
        lemma_lookup_absent(entries.drop_first(), name);
        assert forall|v: V| #[trigger] upsert(entries, name, v) == entries.push((name, v)) by {
            assert(upsert(entries, name, v) == seq![entries[0]] + upsert(entries.drop_first(), name, v));
            assert(upsert(entries.drop_first(), name, v) == entries.drop_first().push((name, v)));
            assert(seq![entries[0]] + entries.drop_first().push((name, v)) =~= entries.push((name, v)));
        }
    } else {
        assert forall|v: V| #[trigger] upsert(entries, name, v) == entries.push((name, v)) by {
            assert(seq![(name, v)] =~= entries.push((name, v)));
        }
    }
}

/// Looking up a name no entry has finds nothing, and setting it appends an entry.
pub proof fn lemma_lookup_absent_pub<V>(entries: Seq<(Seq<char>, V)>, name: Seq<char>)
    requires
        forall|j: int| 0 <= j < entries.len() ==> (#[trigger] entries[j]).0 != name,
    ensures
        lookup(entries, name) == None::<V>,
        forall|v: V| #[trigger] upsert(entries, name, v) == entries.push((name, v)),
{
    lemma_lookup_absent(entries, name);
}

/// A setting reads back what was last set for its name, and setting one
/// name leaves every other name as it was.
pub proof fn lemma_setting_reads_back<V>(entries: Seq<(Seq<char>, V)>, name: Seq<char>, v: V, other: Seq<char>)
    ensures
        lookup(upsert(entries, name, v), name) == Some(v),
        other != name ==> lookup(upsert(entries, name, v), other) == lookup(entries, other),
    decreases entries.len(),
{
    if entries.len() > 0 {
        if entries[0].0 == name {
            let u = entries.update(0, (name, v));
            assert(u.drop_first() =~= entries.drop_first());
        } else {
            lemma_setting_reads_back(entries.drop_first(), name, v, other);
            let u = seq![entries[0]] + upsert(entries.drop_first(), name, v);
            assert(u.drop_first() =~= upsert(entries.drop_first(), name, v));
        }
    } else {
        let u = seq![(name, v)];
        assert(u.drop_first() =~= Seq::<(Seq<char>, V)>::empty());
        assert(lookup(u.drop_first(), other) == None::<V>);
    }
}

/// No two entries share a name.
pub open spec fn names_distinct<V>(entries: Seq<(Seq<char>, V)>) -> bool {
    forall|i: int, j: int| 0 <= i < j < entries.len() ==> (#[trigger] entries[i]).0 != (#[trigger] entries[j]).0
}

/// The names after setting `name` are `name` and the names before.
proof fn lemma_upsert_names<V>(entries: Seq<(Seq<char>, V)>, name: Seq<char>, v: V)
    ensures
        forall|k: int|
            0 <= k < upsert(entries, name, v).len() ==> (#[trigger] upsert(entries, name, v)[k]).0 == name || exists|j: int|
                0 <= j < entries.len() && entries[j].0 == upsert(entries, name, v)[k].0,
        upsert(entries, name, v).len() >= entries.len(),
    decreases entries.len(),
{
    if entries.len() > 0 && entries[0].0 != name {
        let d = entries.drop_first();
        lemma_upsert_names(d, name, v);
        let u = upsert(entries, name, v);
        let ud = upsert(d, name, v);
        assert(u == seq![entries[0]] + ud);
        assert forall|k: int| 0 <= k < u.len() implies (#[trigger] u[k]).0 == name || exists|j: int|
            0 <= j < entries.len() && entries[j].0 == u[k].0 by {
            if k == 0 {
                assert(entries[0].0 == u[0].0);
            } else {
                assert(u[k] == ud[k - 1]);
                if ud[k - 1].0 != name {
                    let j = choose|j: int| 0 <= j < d.len() && d[j].0 == ud[k - 1].0;
                    assert(entries[j + 1] == d[j]);
                }
            }
        }
    } else if entries.len() > 0 {
        let u = upsert(entries, name, v);
        assert forall|k: int| 0 <= k < u.len() implies (#[trigger] u[k]).0 == name || exists|j: int|
            0 <= j < entries.len() && entries[j].0 == u[k].0 by {
            if k > 0 {
                assert(u[k] == entries[k]);
            }
        }
    }
}

/// Setting a name keeps the names of a list distinct.
proof fn lemma_upsert_keeps_names_distinct<V>(entries: Seq<(Seq<char>, V)>, name: Seq<char>, v: V)
    requires
        names_distinct(entries),
    ensures
        names_distinct(upsert(entries, name, v)),
    decreases entries.len(),
{
    if entries.len() > 0 {
        let u = upsert(entries, name, v);
        if entries[0].0 == name {
            assert forall|i: int, j: int| 0 <= i < j < u.len() implies (#[trigger] u[i]).0 != (#[trigger] u[j]).0 by {
                if i == 0 {
                    assert(u[0].0 == entries[0].0);
                }
                assert(u[j] == entries[j]);
                if i > 0 {
                    assert(u[i] == entries[i]);
                }
            }
        } else {
            let d = entries.drop_first();
            assert forall|i: int, j: int| 0 <= i < j < d.len() implies (#[trigger] d[i]).0 != (#[trigger] d[j]).0 by {
                assert(d[i] == entries[i + 1] && d[j] == entries[j + 1]);
            }
            lemma_upsert_keeps_names_distinct(d, name, v);
            lemma_upsert_names(d, name, v);
            let ud = upsert(d, name, v);
            assert(u == seq![entries[0]] + ud);
            assert forall|i: int, j: int| 0 <= i < j < u.len() implies (#[trigger] u[i]).0 != (#[trigger] u[j]).0 by {
                assert(u[j] == ud[j - 1]);
                if i == 0 {
                    if ud[j - 1].0 != name {
                        let q = choose|q: int| 0 <= q < d.len() && d[q].0 == ud[j - 1].0;
                        assert(d[q] == entries[q + 1]);
                    }
                } else {
                    assert(u[i] == ud[i - 1]);
                }
            }
        }
    }
}

/// Setting every entry of `other` keeps the names of a list distinct.
proof fn lemma_upsert_all_keeps_names_distinct<V>(base: Seq<(Seq<char>, V)>, other: Seq<(Seq<char>, V)>)
    requires
        names_distinct(base),
    ensures
        names_distinct(upsert_all(base, other)),
    decreases other.len(),
{
    if other.len() > 0 {
        lemma_upsert_keeps_names_distinct(base, other[0].0, other[0].1);
        lemma_upsert_all_keeps_names_distinct(upsert(base, other[0].0, other[0].1), other.drop_first());
    }
}

/// Adding under a name not yet present keeps the names distinct.
proof fn lemma_push_new_name_keeps_distinct<V>(entries: Seq<(Seq<char>, V)>, name: Seq<char>, v: V)
    requires
        names_distinct(entries),
        lookup(entries, name) is None,
    ensures
        names_distinct(entries.push((name, v))),
{
    lemma_lookup_none_absent(entries, name);
    let p = entries.push((name, v));
    assert forall|i: int, j: int| 0 <= i < j < p.len() implies (#[trigger] p[i]).0 != (#[trigger] p[j]).0 by {
        assert(p[i] == entries[i]);
        if j < entries.len() {
            assert(p[j] == entries[j]);
        }
    }
}

proof fn lemma_lookup_none_absent<V>(entries: Seq<(Seq<char>, V)>, name: Seq<char>)
    requires
        lookup(entries, name) is None,
    ensures
        forall|j: int| 0 <= j < entries.len() ==> (#[trigger] entries[j]).0 != name,
    decreases entries.len(),
{
    if entries.len() > 0 {
        lemma_lookup_none_absent(entries.drop_first(), name);
        assert forall|j: int| 0 <= j < entries.len() implies (#[trigger] entries[j]).0 != name by {
            if j > 0 {
                assert(entries[j] == entries.drop_first()[j - 1]);
            }
        }
    }
}

/// A group never holds two rules, or two settings, of the same name:
/// adding a rule under a new name, merging in another group, and turning a
/// rule on or off all keep the names distinct.
pub proof fn lemma_group_names_stay_distinct(
    rules: Seq<(Seq<char>, ZhLinterV)>,
    settings: Seq<(Seq<char>, bool)>,
    name: Seq<char>,
    linter: ZhLinterV,
    enabled: bool,
    other_rules: Seq<(Seq<char>, ZhLinterV)>,
    other_settings: Seq<(Seq<char>, bool)>,
)
    requires
        names_distinct(rules),
        names_distinct(settings),
    ensures
        lookup(rules, name) is None ==> names_distinct(rules.push((name, linter))),
        names_distinct(upsert_all(rules, other_rules)),
        names_distinct(upsert_all(settings, other_settings)),
        names_distinct(upsert(settings, name, enabled)),
{
    if lookup(rules, name) is None {
        lemma_push_new_name_keeps_distinct(rules, name, linter);
    }
    lemma_upsert_all_keeps_names_distinct(rules, other_rules);
    lemma_upsert_all_keeps_names_distinct(settings, other_settings);
    lemma_upsert_keeps_names_distinct(settings, name, enabled);
}

impl LintGroupConfig {
    pub fn new() -> (c: LintGroupConfig)
        ensures
            c@ == Seq::<(Seq<char>, bool)>::empty(),
    {
        let c = LintGroupConfig { entries: Vec::new() };
        assert(c@ =~= Seq::<(Seq<char>, bool)>::empty());
        c
    }

    /// Turn the rule `name` on or off.
    pub fn set_rule_enabled(&mut self, name: &str, enabled: bool)
        ensures
            final(self)@ == upsert(old(self)@, name@, enabled),
    {
        let key = String::from_str(name);
        let ghost e = self@;
        match find_entry(&self.entries, &key) {
            Some(i) => {
                proof {
                    assert(e[i as int] == (self.entries@[i as int].0@, self.entries@[i as int].1));
                    assert forall|j: int| 0 <= j < i implies (#[trigger] e[j]).0 != name@ by {
                        assert(e[j].0 == self.entries@[j].0@);
                    }
                    lemma_lookup_found(e, name@, i as int);
                }
                self.entries.set(i, (key, enabled));
                assert(self@ =~= e.update(i as int, (name@, enabled)));
            },
            None => {
                proof {
                    assert forall|j: int| 0 <= j < e.len() implies (#[trigger] e[j]).0 != name@ by {
                        assert(e[j].0 == self.entries@[j].0@);
                    }
                    lemma_lookup_absent(e, name@);
                }
                self.entries.push((key, enabled));
                assert(self@ =~= e.push((name@, enabled)));
            },
        }
    }

    /// Whether the rule `name` is turned on (rules never set are off).
    pub fn is_rule_enabled(&self, name: &str) -> (b: bool)
        ensures
            b == (lookup(self@, name@) == Some(true)),
    {
        let key = String::from_str(name);
        let ghost e = self@;
        match find_entry(&self.entries, &key) {
            Some(i) => {
                proof {
                    assert(e[i as int] == (self.entries@[i as int].0@, self.entries@[i as int].1));
                    assert forall|j: int| 0 <= j < i implies (#[trigger] e[j]).0 != name@ by {
                        assert(e[j].0 == self.entries@[j].0@);
                    }
                    lemma_lookup_found(e, name@, i as int);
                }
                self.entries[i].1
            },
            None => {
                proof {
                    assert forall|j: int| 0 <= j < e.len() implies (#[trigger] e[j]).0 != name@ by {
                        assert(e[j].0 == self.entries@[j].0@);
                    }
                    lemma_lookup_absent(e, name@);
                }
                false
            },
        }
    }

    /// Whether the configuration has a setting for `name`.
    pub fn has_rule(&self, name: &str) -> (b: bool)
        ensures
            b == (lookup(self@, name@) is Some),
    {
        let key = String::from_str(name);
        let ghost e = self@;
        match find_entry(&self.entries, &key) {
            Some(i) => {
                proof {
                    assert(e[i as int] == (self.entries@[i as int].0@, self.entries@[i as int].1));
                    assert forall|j: int| 0 <= j < i implies (#[trigger] e[j]).0 != name@ by {
                        assert(e[j].0 == self.entries@[j].0@);
                    }
                    lemma_lookup_found(e, name@, i as int);
                }
                true
            },
            None => {
                proof {
                    assert forall|j: int| 0 <= j < e.len() implies (#[trigger] e[j]).0 != name@ by {
                        assert(e[j].0 == self.entries@[j].0@);
                    }
                    lemma_lookup_absent(e, name@);
                }
                false
            },
        }
    }

    /// Set every entry of `other`, in order, on top of this configuration.
    pub fn merge_from(&mut self, other: LintGroupConfig)
        ensures
            final(self)@ == upsert_all(old(self)@, other@),
    {
        let mut i: usize = 0;
        let ghost ov = other@;
        assert(ov.skip(0) =~= ov);
        while i < other.entries.len()
            invariant
                i <= ov.len(),
                ov == other@,
                upsert_all(old(self)@, ov) == upsert_all(self@, ov.skip(i as int)),
            decreases other.entries.len() - i,
        {
            proof {
                assert(ov.skip(i as int)[0] == (other.entries@[i as int].0@, other.entries@[i as int].1));
                assert(ov.skip(i as int).drop_first() =~= ov.skip(i + 1));
            }
            self.set_rule_enabled(other.entries[i].0.as_str(), other.entries[i].1);
            i = i + 1;
        }
        assert(ov.skip(ov.len() as int) =~= Seq::<(Seq<char>, bool)>::empty());
    }
}

pub open spec fn rules_entries_view(s: Seq<(String, ZhLinter)>) -> Seq<(Seq<char>, ZhLinterV)> {
    s.map_values(|e: (String, ZhLinter)| (e.0@, e.1@))
}

/// A named collection of Chinese rules with on/off settings.
pub struct LintGroup {
    linters: Vec<(String, ZhLinter)>,
    config: LintGroupConfig,
}

/// The rules that are turned on, in order, each with the lints it reports for `s`.
pub open spec fn spec_organized(
    rules: Seq<(Seq<char>, ZhLinterV)>,
    config: Seq<(Seq<char>, bool)>,
    s: Seq<char>,
) -> Seq<(Seq<char>, Seq<LintV>)>
    decreases rules.len(),
{
    if rules.len() == 0 {
        Seq::empty()
    } else {
        let rest = spec_organized(rules.drop_last(), config, s);
        let last = rules.last();
        if lookup(config, last.0) == Some(true) {
            rest.push((last.0, spec_linter_lints(last.1, s)))
        } else {
            rest
        }
    }
}

/// Every rule of `rules` set to `enabled`.
pub open spec fn all_set_to(rules: Seq<(Seq<char>, ZhLinterV)>, enabled: bool) -> Seq<(Seq<char>, bool)> {
    rules.map_values(|e: (Seq<char>, ZhLinterV)| (e.0, enabled))
}

pub open spec fn named_lints_view(s: Seq<(String, Vec<Lint>)>) -> Seq<(Seq<char>, Seq<LintV>)> {
    s.map_values(|e: (String, Vec<Lint>)| (e.0@, lints_view(e.1@)))
}

impl LintGroup {
    /// The rules of the group, in the order they were added.
    pub closed spec fn rules(&self) -> Seq<(Seq<char>, ZhLinterV)> {
        rules_entries_view(self.linters@)
    }

    /// The on/off settings of the group.
    pub closed spec fn settings(&self) -> Seq<(Seq<char>, bool)> {
        self.config@
    }

    /// Turn the rule `name` on or off.
    pub fn set_rule_enabled(&mut self, name: &str, enabled: bool)
        ensures
            final(self).rules() == old(self).rules(),
            final(self).settings() == upsert(old(self).settings(), name@, enabled),
    {
        self.config.set_rule_enabled(name, enabled);
    }

    /// Whether the rule `name` is turned on (rules never set are off).
    pub fn is_rule_enabled(&self, name: &str) -> (b: bool)
        ensures
            b == (lookup(self.settings(), name@) == Some(true)),
    {
        self.config.is_rule_enabled(name)
    }

    /// Whether the group has a setting for `name`.
    pub fn has_rule(&self, name: &str) -> (b: bool)
        ensures
            b == (lookup(self.settings(), name@) is Some),
    {
        self.config.has_rule(name)
    }

    /// A group with no rules and no settings.
    pub fn empty() -> (g: LintGroup)
        ensures
            g.rules() == Seq::<(Seq<char>, ZhLinterV)>::empty(),
            g.settings() == Seq::<(Seq<char>, bool)>::empty(),
    {
        let g = LintGroup { linters: Vec::new(), config: LintGroupConfig::new() };
        assert(g.rules() =~= Seq::<(Seq<char>, ZhLinterV)>::empty());
        g
    }

    /// Add a rule under `name`; a name already in the group is left as it
    /// is and `false` returned.
    pub fn add(&mut self, name: &str, linter: ZhLinter) -> (added: bool)
        ensures
            added == (lookup(old(self).rules(), name@) is None),
            added ==> final(self).rules() == old(self).rules().push((name@, linter@)),
            !added ==> final(self).rules() == old(self).rules(),
            final(self).settings() == old(self).settings(),
    {
        let key = String::from_str(name);
        let ghost e = self.rules();
        match find_entry(&self.linters, &key) {
            Some(i) => {
                proof {
                    assert(e[i as int] == (self.linters@[i as int].0@, self.linters@[i as int].1@));
                    assert forall|j: int| 0 <= j < i implies (#[trigger] e[j]).0 != name@ by {
                        assert(e[j].0 == self.linters@[j].0@);
                    }
                    lemma_lookup_found(e, name@, i as int);
                }
                false
            },
            None => {
                proof {
                    assert forall|j: int| 0 <= j < e.len() implies (#[trigger] e[j]).0 != name@ by {
                        assert(e[j].0 == self.linters@[j].0@);
                    }
                    lemma_lookup_absent(e, name@);
                }
                self.linters.push((key, linter));
                assert(self.rules() =~= e.push((name@, linter@)));
                true
            },
        }
    }

    /// Set `name` to `linter`, replacing a rule of that name or adding one.
    fn put(&mut self, name: String, linter: ZhLinter)
        ensures
            final(self).rules() == upsert(old(self).rules(), name@, linter@),
            final(self).settings() == old(self).settings(),
    {
        let ghost e = self.rules();
        match find_entry(&self.linters, &name) {
            Some(i) => {
                proof {
                    assert(e[i as int] == (self.linters@[i as int].0@, self.linters@[i as int].1@));
                    assert forall|j: int| 0 <= j < i implies (#[trigger] e[j]).0 != name@ by {
                        assert(e[j].0 == self.linters@[j].0@);
                    }
                    lemma_lookup_found(e, name@, i as int);
                }
                let ghost n = name@;
                self.linters.set(i, (name, linter));
                assert(self.rules() =~= e.update(i as int, (n, linter@)));
            },
            None => {
                proof {
                    assert forall|j: int| 0 <= j < e.len() implies (#[trigger] e[j]).0 != name@ by {
                        assert(e[j].0 == self.linters@[j].0@);
                    }
                    lemma_lookup_absent(e, name@);
                }
                let ghost n = name@;
                self.linters.push((name, linter));
                assert(self.rules() =~= e.push((n, linter@)));
            },
        }
    }

    /// Take over every rule and setting of `other`; on a shared name,
    /// `other`'s rule and setting win.
    pub fn merge_from(&mut self, other: LintGroup)
        ensures
            final(self).rules() == upsert_all(old(self).rules(), other.rules()),
            final(self).settings() == upsert_all(old(self).settings(), other.settings()),
    {
        let LintGroup { linters: mut rest, config: other_config } = other;
        self.config.merge_from(other_config);
        let ghost ov = rules_entries_view(rest@);
        assert(ov.skip(0) =~= ov);
        assert(ov.len() == rest.len());
        let mut k: usize = 0;
        while rest.len() > 0
            invariant
                k <= ov.len(),
                ov.len() <= usize::MAX,
                rules_entries_view(rest@) == ov.skip(k as int),
                upsert_all(old(self).rules(), ov) == upsert_all(self.rules(), ov.skip(k as int)),
                self.settings() == upsert_all(old(self).settings(), other.settings()),
            decreases rest.len(),
        {
            let ghost before = rest@;
            let (name, linter) = rest.remove(0);
            proof {
                assert(ov.skip(k as int)[0] == (name@, linter@));
                assert(ov.skip(k as int).drop_first() =~= ov.skip(k + 1));
                assert(rules_entries_view(rest@) =~= ov.skip(k + 1));
            }
            self.put(name, linter);
            k = k + 1;
        }
        assert(ov.skip(k as int) =~= Seq::<(Seq<char>, ZhLinterV)>::empty());
    }

    /// Turn every rule of the group on or off.
    pub fn set_all_rules_to(&mut self, enabled: bool)
        ensures
            final(self).rules() == old(self).rules(),
            final(self).settings() == upsert_all(old(self).settings(), all_set_to(old(self).rules(), enabled)),
    {
        let ghost rv = self.rules();
        let ghost target = all_set_to(rv, enabled);
        assert(target.skip(0) =~= target);
        let mut i: usize = 0;
        while i < self.linters.len()
            invariant
                i <= self.linters@.len(),
                rv == self.rules(),
                target == all_set_to(rv, enabled),
                upsert_all(old(self).settings(), target) == upsert_all(self.settings(), target.skip(i as int)),
            decreases self.linters.len() - i,
        {
            proof {
                assert(target.skip(i as int)[0] == (self.linters@[i as int].0@, enabled));
                assert(target.skip(i as int).drop_first() =~= target.skip(i + 1));
            }
            self.config.set_rule_enabled(self.linters[i].0.as_str(), enabled);
            i = i + 1;
        }
        assert(target.skip(i as int) =~= Seq::<(Seq<char>, bool)>::empty());
    }

    /// The names of the rules, in order.
    pub fn iter_keys(&self) -> (r: Vec<String>)
        ensures
            r@.len() == self.rules().len(),
            forall|i: int| 0 <= i < r@.len() ==> (#[trigger] r@[i])@ == self.rules()[i].0,
    {
        let mut out: Vec<String> = Vec::new();
        let mut i: usize = 0;
        while i < self.linters.len()
            invariant
                i <= self.linters@.len(),
                out@.len() == i,
                forall|j: int| 0 <= j < i ==> (#[trigger] out@[j])@ == self.rules()[j].0,
            decreases self.linters.len() - i,
        {
            out.push(self.linters[i].0.clone());
            i = i + 1;
        }
        out
    }

    /// Each rule's name with its description, in order.
    pub fn all_descriptions(&self) -> (r: Vec<(String, String)>)
        ensures
            r@.len() == self.rules().len(),
            forall|i: int|
                0 <= i < r@.len() ==> (#[trigger] r@[i]).0@ == self.rules()[i].0 && r@[i].1@
                    == spec_linter_description(self.rules()[i].1),
    {
        let mut out: Vec<(String, String)> = Vec::new();
        let mut i: usize = 0;
        while i < self.linters.len()
            invariant
                i <= self.linters@.len(),
                out@.len() == i,
                forall|j: int|
                    0 <= j < i ==> (#[trigger] out@[j]).0@ == self.rules()[j].0 && out@[j].1@
                        == spec_linter_description(self.rules()[j].1),
            decreases self.linters.len() - i,
        {
            out.push((self.linters[i].0.clone(), String::from_str(self.linters[i].1.description())));
            i = i + 1;
        }
        out
    }

    /// Run every rule that is turned on, pairing its name with its lints;
    /// the rules come in the order of their names.
    pub fn organized_lints(&self, document: &Document) -> (r: Vec<(String, Vec<Lint>)>)
        ensures
            named_lints_view(r@) == spec_named_lints(self.rules(), self.settings(), document@),
    {
        let ghost rv = self.rules();
        let mut out: Vec<(String, Vec<Lint>)> = Vec::new();
        let mut i: usize = 0;
        while i < self.linters.len()
            invariant
                i <= self.linters@.len(),
                rv == self.rules(),
                named_lints_view(out@) == by_rule_name(spec_organized(rv.take(i as int), self.settings(), document@)),
            decreases self.linters.len() - i,
        {
            proof {
                assert(rv.take(i + 1).drop_last() =~= rv.take(i as int));
                assert(rv.take(i + 1).last() == (self.linters@[i as int].0@, self.linters@[i as int].1@));
            }
            if self.config.is_rule_enabled(self.linters[i].0.as_str()) {
                let lints = self.linters[i].1.lint(document);
                let entry = (self.linters[i].0.clone(), lints);
                proof {
                    let prev = spec_organized(rv.take(i as int), self.settings(), document@);
                    let ev = (entry.0@, lints_view(entry.1@));
                    assert(prev.push(ev).drop_last() =~= prev);
                    assert(by_rule_name(prev.push(ev)) == insert_by_name(by_rule_name(prev), ev));
                }
                insert_by_name_exec(&mut out, entry);
            }
            i = i + 1;
        }
        assert(rv.take(rv.len() as int) =~= rv);
        out
    }
}

/// The lints of the rules that are turned on, rule by rule in the order of
/// the rules' names.
pub open spec fn spec_named_lints(
    rules: Seq<(Seq<char>, ZhLinterV)>,
    config: Seq<(Seq<char>, bool)>,
    s: Seq<char>,
) -> Seq<(Seq<char>, Seq<LintV>)> {
    by_rule_name(spec_organized(rules, config, s))
}

/// Every lint that a group of Chinese rules reports covers a non-empty part of the text and offers one fix.
pub proof fn lemma_named_lints_within(rules: Seq<(Seq<char>, ZhLinterV)>, config: Seq<(Seq<char>, bool)>, s: Seq<char>)
    ensures
        forall|i: int, j: int|
            0 <= i < spec_named_lints(rules, config, s).len() && 0 <= j < spec_named_lints(rules, config, s)[i].1.len()
                ==> 0 <= #[trigger] spec_named_lints(rules, config, s)[i].1[j].start < spec_named_lints(rules, config, s)[i].1[j].end
                <= s.len() && spec_named_lints(rules, config, s)[i].1[j].suggestions.len() == 1,
{
    let n = spec_organized(rules, config, s);
    let r = spec_named_lints(rules, config, s);
    lemma_organized_within(rules, config, s);
    lemma_by_rule_name_sorted(n);
    assert forall|i: int, j: int| 0 <= i < r.len() && 0 <= j < r[i].1.len() implies 0 <= #[trigger] r[i].1[j].start
        < r[i].1[j].end <= s.len() && r[i].1[j].suggestions.len() == 1 by {
        assert(n.contains(r[i]));
        let w = choose|w: int| 0 <= w < n.len() && n[w] == r[i];
        assert(n[w].1[j] == r[i].1[j]);
    }
}

/// `x` placed before the first entry of `s` whose name comes after its own.
pub open spec fn insert_by_name(s: Seq<(Seq<char>, Seq<LintV>)>, x: (Seq<char>, Seq<LintV>)) -> Seq<
    (Seq<char>, Seq<LintV>),
>
    decreases s.len(),
{
    if s.len() == 0 {
        seq![x]
    } else if str_lt(x.0, s[0].0) {
        seq![x] + s
    } else {
        seq![s[0]] + insert_by_name(s.drop_first(), x)
    }
}

/// The entries in the order of their names; entries of equal names keep
/// their order.
pub open spec fn by_rule_name(n: Seq<(Seq<char>, Seq<LintV>)>) -> Seq<(Seq<char>, Seq<LintV>)>
    decreases n.len(),
{
    if n.len() == 0 {
        Seq::empty()
    } else {
        insert_by_name(by_rule_name(n.drop_last()), n.last())
    }
}

proof fn lemma_insert_by_name_at(s: Seq<(Seq<char>, Seq<LintV>)>, x: (Seq<char>, Seq<LintV>), p: int)
    requires
        0 <= p <= s.len(),
        forall|k: int| 0 <= k < p ==> !str_lt(x.0, (#[trigger] s[k]).0),
        p < s.len() ==> str_lt(x.0, s[p].0),
    ensures
        insert_by_name(s, x) == s.take(p) + seq![x] + s.skip(p),
    decreases s.len(),
{
    if s.len() == 0 {
        assert(s.take(p) + seq![x] + s.skip(p) =~= seq![x]);
    } else if p == 0 {
        assert(s.take(0) + seq![x] + s.skip(0) =~= seq![x] + s);
    } else {
        let d = s.drop_first();
        assert forall|k: int| 0 <= k < p - 1 implies !str_lt(x.0, (#[trigger] d[k]).0) by {
            assert(d[k] == s[k + 1]);
        }
        if p < s.len() {
            assert(d[p - 1] == s[p]);
        }
        lemma_insert_by_name_at(d, x, p - 1);
        assert(seq![s[0]] + (d.take(p - 1) + seq![x] + d.skip(p - 1)) =~= s.take(p) + seq![x] + s.skip(p));
    }
}

fn insert_by_name_exec(out: &mut Vec<(String, Vec<Lint>)>, x: (String, Vec<Lint>))
    ensures
        named_lints_view(final(out)@) == insert_by_name(named_lints_view(old(out)@), (x.0@, lints_view(x.1@))),
{
    let ghost s = named_lints_view(out@);
    let ghost xv = (x.0@, lints_view(x.1@));
    let name = crate::text::str_to_chars(x.0.as_str());
    let mut p: usize = 0;
    while p < out.len() && !str_lt_exec(name.as_slice(), crate::text::str_to_chars(out[p].0.as_str()).as_slice())
        invariant
            p <= out@.len(),
            s == named_lints_view(out@),
            name@ == xv.0,
            forall|k: int| 0 <= k < p ==> !str_lt(xv.0, (#[trigger] s[k]).0),
        decreases out.len() - p,
    {
        assert(s[p as int].0 == out@[p as int].0@);
        p = p + 1;
    }
    proof {
        if p < out@.len() {
            assert(s[p as int].0 == out@[p as int].0@);
        }
        lemma_insert_by_name_at(s, xv, p as int);
    }
    out.insert(p, x);
    assert(named_lints_view(out@) =~= s.take(p as int) + seq![xv] + s.skip(p as int));
}

/// The entries in name order are the same entries, in non-decreasing order of name.
pub proof fn lemma_by_rule_name_sorted(n: Seq<(Seq<char>, Seq<LintV>)>)
    ensures
        by_rule_name(n).len() == n.len(),
        forall|i: int, j: int| 0 <= i < j < by_rule_name(n).len() ==> !str_lt((#[trigger] by_rule_name(n)[j]).0, (#[trigger] by_rule_name(n)[i]).0),
        forall|i: int| 0 <= i < by_rule_name(n).len() ==> n.contains(#[trigger] by_rule_name(n)[i]),
        forall|i: int| 0 <= i < n.len() ==> by_rule_name(n).contains(#[trigger] n[i]),
    decreases n.len(),
{
    if n.len() > 0 {
        let d = n.drop_last();
        let x = n.last();
        lemma_by_rule_name_sorted(d);
        let s = by_rule_name(d);
        // The place of `x`.
        let p = first_after(s, x.0, 0);
        lemma_first_after(s, x.0, 0);
        lemma_insert_by_name_at(s, x, p);
        let r = by_rule_name(n);
        assert(r == s.take(p) + seq![x] + s.skip(p));
        assert forall|i: int| 0 <= i < r.len() implies #[trigger] r[i] == if i < p { s[i] } else if i == p { x } else { s[i - 1] } by {}
        assert forall|i: int, j: int| 0 <= i < j < r.len() implies !str_lt((#[trigger] r[j]).0, (#[trigger] r[i]).0) by {
            if j < p {
            } else if j == p {
                assert(!str_lt(x.0, s[i].0));
            } else if i == p {
                // s[j - 1] comes after (or with) s[p], which x comes before
                assert(p < s.len());
                assert(str_lt(x.0, s[p].0));
                if j - 1 > p {
                    assert(!str_lt(s[j - 1].0, s[p].0));
                }
                crate::ranking::lemma_str_lt_transitive(s[j - 1].0, x.0, s[p].0);
                crate::ranking::lemma_str_lt_asymmetric(x.0, s[p].0);
            } else if i < p {
                assert(!str_lt(s[j - 1].0, s[i].0));
            } else {
                assert(!str_lt(s[j - 1].0, s[i - 1].0));
            }
        }
        assert forall|i: int| 0 <= i < r.len() implies n.contains(#[trigger] r[i]) by {
            if i == p {
                assert(n[n.len() - 1] == x);
            } else {
                let k = if i < p { i } else { i - 1 };
                assert(d.contains(s[k]));
                let w = choose|w: int| 0 <= w < d.len() && d[w] == s[k];
                assert(n[w] == d[w]);
            }
        }
        assert forall|i: int| 0 <= i < n.len() implies r.contains(#[trigger] n[i]) by {
            if i == n.len() - 1 {
                assert(r[p] == x);
            } else {
                assert(n[i] == d[i]);
                assert(s.contains(d[i]));
                let w = choose|w: int| 0 <= w < s.len() && s[w] == d[i];
                if w < p {
                    assert(r[w] == s[w]);
                } else {
                    assert(r[w + 1] == s[w]);
                }
            }
        }
    }
}

/// The first index at or after `k` whose name comes after `name`.
pub open spec fn first_after(s: Seq<(Seq<char>, Seq<LintV>)>, name: Seq<char>, k: int) -> int
    decreases s.len() - k,
{
    if k < 0 || k >= s.len() {
        s.len() as int
    } else if str_lt(name, s[k].0) {
        k
    } else {
        first_after(s, name, k + 1)
    }
}

proof fn lemma_first_after(s: Seq<(Seq<char>, Seq<LintV>)>, name: Seq<char>, k: int)
    requires
        0 <= k <= s.len(),
        forall|q: int| 0 <= q < k ==> !str_lt(name, (#[trigger] s[q]).0),
    ensures
        k <= first_after(s, name, k) <= s.len(),
        forall|q: int| 0 <= q < first_after(s, name, k) ==> !str_lt(name, (#[trigger] s[q]).0),
        first_after(s, name, k) < s.len() ==> str_lt(name, s[first_after(s, name, k)].0),
    decreases s.len() - k,
{
    if k < s.len() && !str_lt(name, s[k].0) {
        lemma_first_after(s, name, k + 1);
    }
}

/// Every lint of a Chinese rule covers a non-empty part of the text and offers one fix.
pub proof fn lemma_linter_lints_within(l: ZhLinterV, s: Seq<char>)
    ensures
        forall|a: int|
            0 <= a < spec_linter_lints(l, s).len() ==> {
                let x = #[trigger] spec_linter_lints(l, s)[a];
                0 <= x.start < x.end <= s.len() && x.suggestions.len() == 1
            },
{
    match l {
        ZhLinterV::Pattern(p) => {
            lemma_pattern_lints_are_occurrences(p, s);
            let t = spec_pattern_lints(p, s);
            assert forall|a: int| 0 <= a < t.len() implies 0 <= (#[trigger] t[a]).start < t[a].end <= s.len()
                && t[a].suggestions.len() == 1 by {
                assert(reported_by(s, p.pairs, p.lint_kind, p.priority, 0, t[a]));
                let j = choose|j: int| 0 <= j < p.pairs.len() && lint_of_occurrence(s, #[trigger] p.pairs[j], p.lint_kind, p.priority, t[a]);
            }
        },
        ZhLinterV::Punctuation(_) => {
            lemma_punctuation_lints_within(s);
        },
        ZhLinterV::Spacing(_) => {
            lemma_spacing_lints_within(s);
        },
    }
}

/// Every lint that a group of Chinese rules reports covers a non-empty part of the text and offers one fix.
pub proof fn lemma_organized_within(rules: Seq<(Seq<char>, ZhLinterV)>, config: Seq<(Seq<char>, bool)>, s: Seq<char>)
    ensures
        forall|i: int, j: int|
            0 <= i < spec_organized(rules, config, s).len() && 0 <= j < spec_organized(rules, config, s)[i].1.len()
                ==> 0 <= #[trigger] spec_organized(rules, config, s)[i].1[j].start < spec_organized(rules, config, s)[i].1[j].end
                <= s.len() && spec_organized(rules, config, s)[i].1[j].suggestions.len() == 1,
    decreases rules.len(),
{
    if rules.len() > 0 {
        lemma_organized_within(rules.drop_last(), config, s);
        lemma_linter_lints_within(rules.last().1, s);
    }
}

} // verus!
