//! Lint statistics: how many lints of each kind, of each rule, of each
//! kind and rule together, and how often each misspelling occurs. The
//! counts are held in hashbrown maps.

use vstd::prelude::*;

use crate::lint::{lints_view, Lint, LintV};
use crate::lint_group::named_lints_view;
use crate::lint_kind::LintKind;

verus! {

// ---------------------------------------------------------------------------
// What is counted.
// ---------------------------------------------------------------------------

/// The number of lints of `lints` whose kind is `k`.
pub open spec fn kind_count(lints: Seq<LintV>, k: LintKind) -> nat
    decreases lints.len(),
{
    if lints.len() == 0 {
        0
    } else {
        kind_count(lints.drop_last(), k) + if lints.last().kind == k {
            1nat
        } else {
            0nat
        }
    }
}

/// The number of lints over all rules.
pub open spec fn lint_total(named: Seq<(Seq<char>, Seq<LintV>)>) -> nat
    decreases named.len(),
{
    if named.len() == 0 {
        0
    } else {
        lint_total(named.drop_last()) + named.last().1.len()
    }
}

/// The number of lints of kind `k` over all rules.
pub open spec fn kind_total(named: Seq<(Seq<char>, Seq<LintV>)>, k: LintKind) -> nat
    decreases named.len(),
{
    if named.len() == 0 {
        0
    } else {
        kind_total(named.drop_last(), k) + kind_count(named.last().1, k)
    }
}

/// The number of lints reported under the rule name `n`.
pub open spec fn rule_total(named: Seq<(Seq<char>, Seq<LintV>)>, n: Seq<char>) -> nat
    decreases named.len(),
{
    if named.len() == 0 {
        0
    } else {
        rule_total(named.drop_last(), n) + if named.last().0 == n {
            named.last().1.len()
        } else {
            0nat
        }
    }
}

/// The number of lints of kind `k` reported under the rule name `n`.
pub open spec fn pair_total(named: Seq<(Seq<char>, Seq<LintV>)>, k: LintKind, n: Seq<char>) -> nat
    decreases named.len(),
{
    if named.len() == 0 {
        0
    } else {
        pair_total(named.drop_last(), k, n) + if named.last().0 == n {
            kind_count(named.last().1, k)
        } else {
            0nat
        }
    }
}

/// Each kind that occurs, with its number of lints.
pub open spec fn kind_tally(named: Seq<(Seq<char>, Seq<LintV>)>) -> Map<LintKind, nat> {
    Map::new(|k: LintKind| kind_total(named, k) > 0, |k: LintKind| kind_total(named, k))
}

/// Each rule that reported lints, with their number.
pub open spec fn rule_tally(named: Seq<(Seq<char>, Seq<LintV>)>) -> Map<Seq<char>, nat> {
    Map::new(|n: Seq<char>| rule_total(named, n) > 0, |n: Seq<char>| rule_total(named, n))
}

/// Each (kind, rule) pair that occurs, with its number of lints.
pub open spec fn pair_tally(named: Seq<(Seq<char>, Seq<LintV>)>) -> Map<(LintKind, Seq<char>), nat> {
    Map::new(|p: (LintKind, Seq<char>)| pair_total(named, p.0, p.1) > 0, |p: (LintKind, Seq<char>)| pair_total(named, p.0, p.1))
}

/// The name of the English spelling rule.
pub open spec fn spell_check_rule() -> Seq<char> {
    "SpellCheck"@
}

/// The number of lints of `lints` covering the text `w` of `source`.
pub open spec fn text_count(lints: Seq<LintV>, source: Seq<char>, w: Seq<char>) -> nat
    decreases lints.len(),
{
    if lints.len() == 0 {
        0
    } else {
        text_count(lints.drop_last(), source, w) + if source.subrange(lints.last().start, lints.last().end) == w {
            1nat
        } else {
            0nat
        }
    }
}

/// The number of lints of the spelling rule covering the text `w`.
pub open spec fn spello_total(named: Seq<(Seq<char>, Seq<LintV>)>, source: Seq<char>, w: Seq<char>) -> nat
    decreases named.len(),
{
    if named.len() == 0 {
        0
    } else {
        spello_total(named.drop_last(), source, w) + if named.last().0 == spell_check_rule() {
            text_count(named.last().1, source, w)
        } else {
            0nat
        }
    }
}

/// Each misspelt text the spelling rule flagged, with how often.
pub open spec fn spello_tally(named: Seq<(Seq<char>, Seq<LintV>)>, source: Seq<char>) -> Map<Seq<char>, nat> {
    Map::new(|w: Seq<char>| spello_total(named, source, w) > 0, |w: Seq<char>| spello_total(named, source, w))
}

/// Every span of every lint lies within `[0, n]`.
pub open spec fn spans_within(named: Seq<(Seq<char>, Seq<LintV>)>, n: int) -> bool {
    forall|i: int, j: int|
        0 <= i < named.len() && 0 <= j < named[i].1.len() ==> 0 <= #[trigger] named[i].1[j].start <= named[i].1[j].end
            <= n
}

/// Counts added key by key; a key missing from a map counts zero.
pub open spec fn sum_counts<K>(a: Map<K, nat>, b: Map<K, nat>) -> Map<K, nat> {
    Map::new(
        |k: K| a.contains_key(k) || b.contains_key(k),
        |k: K| (if a.contains_key(k) { a[k] } else { 0nat }) + (if b.contains_key(k) { b[k] } else { 0nat }),
    )
}

/// The count of `k` in `m`, zero when `k` is missing.
pub open spec fn count_in<K>(m: Map<K, nat>, k: K) -> nat {
    if m.contains_key(k) {
        m[k]
    } else {
        0
    }
}

// ---------------------------------------------------------------------------
// The maps.
// ---------------------------------------------------------------------------

/// Lint counts by kind, held in a hashbrown map.
#[verifier::external_body]
pub struct KindCounts {
    map: hashbrown::HashMap<LintKind, usize>,
}

/// What a [`KindCounts`] holds: each kind with its count.
pub uninterp spec fn kind_counts(c: KindCounts) -> Map<LintKind, nat>;

impl KindCounts {
    /// `hashbrown::HashMap::new`: an empty map.
    #[verifier::external_body]
    pub(crate) fn new() -> (c: KindCounts)
        ensures
            kind_counts(c).dom().is_empty(),
    {
        KindCounts { map: hashbrown::HashMap::new() }
    }

    /// `hashbrown::HashMap::get`: the count of `k`, if `k` is held.
    #[verifier::external_body]
    pub(crate) fn get(&self, k: LintKind) -> (r: Option<usize>)
        ensures
            r matches Some(v) ==> kind_counts(*self).contains_key(k) && kind_counts(*self)[k] == v,
            r is None ==> !kind_counts(*self).contains_key(k),
    {
        self.map.get(&k).copied()
    }

    /// `hashbrown::HashMap::insert`: `k` now counts `v`.
    #[verifier::external_body]
    pub(crate) fn insert(&mut self, k: LintKind, v: usize)
        ensures
            kind_counts(*final(self)) == kind_counts(*old(self)).insert(k, v as nat),
    {
        self.map.insert(k, v);
    }

    /// `hashbrown::HashMap::iter`: every kind with its count, each once, in
    /// an order the map chooses.
    #[verifier::external_body]
    pub(crate) fn entries(&self) -> (r: Vec<(LintKind, usize)>)
        ensures
            forall|i: int|
                0 <= i < r@.len() ==> kind_counts(*self).contains_key((#[trigger] r@[i]).0) && kind_counts(*self)[r@[i].0]
                    == r@[i].1,
            forall|k: LintKind| #[trigger] kind_counts(*self).contains_key(k) ==> exists|i: int| 0 <= i < r@.len() && (#[trigger] r@[i]).0 == k,
            forall|i: int, j: int| 0 <= i < j < r@.len() ==> (#[trigger] r@[i]).0 != (#[trigger] r@[j]).0,
    {
        self.map.iter().map(|(k, v)| (*k, *v)).collect()
    }
}

/// Counts by name (of a rule, or of a misspelt text), held in a hashbrown map.
#[verifier::external_body]
pub struct NameCounts {
    map: hashbrown::HashMap<String, usize>,
}

/// What a [`NameCounts`] holds: each name with its count.
pub uninterp spec fn name_counts(c: NameCounts) -> Map<Seq<char>, nat>;

impl NameCounts {
    /// `hashbrown::HashMap::new`: an empty map.
    #[verifier::external_body]
    pub(crate) fn new() -> (c: NameCounts)
        ensures
            name_counts(c).dom().is_empty(),
    {
        NameCounts { map: hashbrown::HashMap::new() }
    }

    /// `hashbrown::HashMap::get`: the count of `name`, if it is held.
    #[verifier::external_body]
    pub(crate) fn get(&self, name: &str) -> (r: Option<usize>)
        ensures
            r matches Some(v) ==> name_counts(*self).contains_key(name@) && name_counts(*self)[name@] == v,
            r is None ==> !name_counts(*self).contains_key(name@),
    {
        self.map.get(name).copied()
    }

    /// `hashbrown::HashMap::insert`: `name` now counts `v`.
    #[verifier::external_body]
    pub(crate) fn insert(&mut self, name: String, v: usize)
        ensures
            name_counts(*final(self)) == name_counts(*old(self)).insert(name@, v as nat),
    {
        self.map.insert(name, v);
    }

    /// `hashbrown::HashMap::iter`: every name with its count, each once, in
    /// an order the map chooses.
    #[verifier::external_body]
    pub(crate) fn entries(&self) -> (r: Vec<(String, usize)>)
        ensures
            forall|i: int|
                0 <= i < r@.len() ==> name_counts(*self).contains_key((#[trigger] r@[i]).0@) && name_counts(*self)[r@[i].0@]
                    == r@[i].1,
            forall|n: Seq<char>| #[trigger] name_counts(*self).contains_key(n) ==> exists|i: int| 0 <= i < r@.len() && (#[trigger] r@[i]).0@ == n,
            forall|i: int, j: int| 0 <= i < j < r@.len() ==> (#[trigger] r@[i]).0@ != (#[trigger] r@[j]).0@,
    {
        self.map.iter().map(|(k, v)| (k.clone(), *v)).collect()
    }
}

/// Lint counts by kind and rule together, held in a hashbrown map.
#[verifier::external_body]
pub struct PairCounts {
    map: hashbrown::HashMap<(LintKind, String), usize>,
}

/// What a [`PairCounts`] holds: each (kind, rule) pair with its count.
pub uninterp spec fn pair_counts(c: PairCounts) -> Map<(LintKind, Seq<char>), nat>;

impl PairCounts {
    /// `hashbrown::HashMap::new`: an empty map.
    #[verifier::external_body]
    pub(crate) fn new() -> (c: PairCounts)
        ensures
            pair_counts(c).dom().is_empty(),
    {
        PairCounts { map: hashbrown::HashMap::new() }
    }

    /// `hashbrown::HashMap::get`: the count of `(kind, rule)`, if it is held.
    #[verifier::external_body]
    pub(crate) fn get(&self, kind: LintKind, rule: &str) -> (r: Option<usize>)
        ensures
            r matches Some(v) ==> pair_counts(*self).contains_key((kind, rule@)) && pair_counts(*self)[(kind, rule@)] == v,
            r is None ==> !pair_counts(*self).contains_key((kind, rule@)),
    {
        self.map.get(&(kind, rule.to_string())).copied()
    }

    /// `hashbrown::HashMap::insert`: `(kind, rule)` now counts `v`.
    #[verifier::external_body]
    pub(crate) fn insert(&mut self, kind: LintKind, rule: String, v: usize)
        ensures
            pair_counts(*final(self)) == pair_counts(*old(self)).insert((kind, rule@), v as nat),
    {
        self.map.insert((kind, rule), v);
    }

    /// `hashbrown::HashMap::iter`: every pair with its count, each once, in
    /// an order the map chooses.
    #[verifier::external_body]
    pub(crate) fn entries(&self) -> (r: Vec<(LintKind, String, usize)>)
        ensures
            forall|i: int|
                0 <= i < r@.len() ==> pair_counts(*self).contains_key(((#[trigger] r@[i]).0, r@[i].1@))
                    && pair_counts(*self)[(r@[i].0, r@[i].1@)] == r@[i].2,
            forall|p: (LintKind, Seq<char>)| #[trigger] pair_counts(*self).contains_key(p) ==> exists|i: int|
                0 <= i < r@.len() && (#[trigger] r@[i]).0 == p.0 && r@[i].1@ == p.1,
            forall|i: int, j: int|
                0 <= i < j < r@.len() ==> (#[trigger] r@[i]).0 != (#[trigger] r@[j]).0 || r@[i].1@ != r@[j].1@,
    {
        self.map.iter().map(|((k, n), v)| (*k, n.clone(), *v)).collect()
    }
}

// ---------------------------------------------------------------------------
// Facts about the counts.
// ---------------------------------------------------------------------------

proof fn lemma_kind_count_step(l: Seq<LintV>, k: LintKind, j: int)
    requires
        0 <= j < l.len(),
    ensures
        kind_count(l.take(j + 1), k) == kind_count(l.take(j), k) + if l[j].kind == k {
            1nat
        } else {
            0nat
        },
        kind_count(l.take(j), k) <= j,
    decreases j,
{
    assert(l.take(j + 1).drop_last() =~= l.take(j));
    if j > 0 {
        lemma_kind_count_step(l, k, j - 1);
    } else {
        assert(l.take(0).len() == 0);
    }
}

proof fn lemma_count_full<A>(l: Seq<A>)
    ensures
        l.take(l.len() as int) == l,
{
    assert(l.take(l.len() as int) =~= l);
}

proof fn lemma_totals_step(n: Seq<(Seq<char>, Seq<LintV>)>, i: int)
    requires
        0 <= i < n.len(),
    ensures
        lint_total(n.take(i + 1)) == lint_total(n.take(i)) + n[i].1.len(),
        forall|k: LintKind| #[trigger] kind_total(n.take(i + 1), k) == kind_total(n.take(i), k) + kind_count(n[i].1, k),
        forall|x: Seq<char>|
            #[trigger] rule_total(n.take(i + 1), x) == rule_total(n.take(i), x) + if n[i].0 == x {
                n[i].1.len()
            } else {
                0nat
            },
        forall|k: LintKind, x: Seq<char>|
            #[trigger] pair_total(n.take(i + 1), k, x) == pair_total(n.take(i), k, x) + if n[i].0 == x {
                kind_count(n[i].1, k)
            } else {
                0nat
            },
{
    assert(n.take(i + 1).drop_last() =~= n.take(i));
}

proof fn lemma_totals_bounded(n: Seq<(Seq<char>, Seq<LintV>)>, i: int)
    requires
        0 <= i <= n.len(),
    ensures
        lint_total(n.take(i)) <= lint_total(n),
        forall|k: LintKind| #[trigger] kind_total(n.take(i), k) <= lint_total(n.take(i)),
        forall|x: Seq<char>| #[trigger] rule_total(n.take(i), x) <= lint_total(n.take(i)),
    decreases n.len() - i,
{
    if i < n.len() {
        lemma_totals_bounded(n, i + 1);
        lemma_totals_step(n, i);
        assert forall|k: LintKind| #[trigger] kind_total(n.take(i), k) <= lint_total(n.take(i)) by {
            lemma_totals_bounded_prefix(n, i, k);
        }
    } else {
        lemma_count_full(n);
        assert forall|k: LintKind| #[trigger] kind_total(n.take(i), k) <= lint_total(n.take(i)) by {
            lemma_totals_bounded_prefix(n, i, k);
        }
    }
    assert forall|x: Seq<char>| #[trigger] rule_total(n.take(i), x) <= lint_total(n.take(i)) by {
        lemma_rule_total_bounded(n.take(i), x);
    }
}

proof fn lemma_totals_bounded_prefix(n: Seq<(Seq<char>, Seq<LintV>)>, i: int, k: LintKind)
    requires
        0 <= i <= n.len(),
    ensures
        kind_total(n.take(i), k) <= lint_total(n.take(i)),
    decreases i,
{
    if i > 0 {
        lemma_totals_bounded_prefix(n, i - 1, k);
        lemma_totals_step(n, i - 1);
        lemma_kind_count_le(n[i - 1].1, k);
    } else {
        assert(n.take(0).len() == 0);
    }
}

proof fn lemma_kind_count_le(l: Seq<LintV>, k: LintKind)
    ensures
        kind_count(l, k) <= l.len(),
    decreases l.len(),
{
    if l.len() > 0 {
        lemma_kind_count_le(l.drop_last(), k);
    }
}

proof fn lemma_rule_total_bounded(n: Seq<(Seq<char>, Seq<LintV>)>, x: Seq<char>)
    ensures
        rule_total(n, x) <= lint_total(n),
    decreases n.len(),
{
    if n.len() > 0 {
        lemma_rule_total_bounded(n.drop_last(), x);
    }
}

// ---------------------------------------------------------------------------
// Counting.
// ---------------------------------------------------------------------------

/// The kind counts after the first `j` lints of rule `i`.
pub open spec fn kinds_after(n: Seq<(Seq<char>, Seq<LintV>)>, i: int, j: int) -> Map<LintKind, nat> {
    Map::new(
        |k: LintKind| kind_total(n.take(i), k) + kind_count(n[i].1.take(j), k) > 0,
        |k: LintKind| kind_total(n.take(i), k) + kind_count(n[i].1.take(j), k),
    )
}

/// Count the lints by kind, and by rule (rules without lints are left out).
pub fn count_lint_kinds_and_rules(named_lints: &Vec<(String, Vec<Lint>)>) -> (r: (KindCounts, NameCounts))
    requires
        lint_total(named_lints_view(named_lints@)) <= usize::MAX,
    ensures
        kind_counts(r.0) == kind_tally(named_lints_view(named_lints@)),
        name_counts(r.1) == rule_tally(named_lints_view(named_lints@)),
{
    let ghost nv = named_lints_view(named_lints@);
    let mut kinds = KindCounts::new();
    let mut rules = NameCounts::new();
    proof {
        assert(nv.take(0).len() == 0);
        assert(kind_counts(kinds) =~= kind_tally(nv.take(0)));
        assert(name_counts(rules) =~= rule_tally(nv.take(0)));
    }
    let mut i: usize = 0;
    while i < named_lints.len()
        invariant
            i <= nv.len(),
            nv == named_lints_view(named_lints@),
            lint_total(nv) <= usize::MAX,
            kind_counts(kinds) == kind_tally(nv.take(i as int)),
            name_counts(rules) == rule_tally(nv.take(i as int)),
        decreases named_lints.len() - i,
    {
        let lints = &named_lints[i].1;
        let ghost l = nv[i as int].1;
        proof {
            lemma_totals_step(nv, i as int);
            lemma_totals_bounded(nv, i + 1);
            lemma_totals_bounded(nv, i as int);
            assert(l == lints_view(lints@));
            assert(l.take(0).len() == 0);
            assert(kind_counts(kinds) =~= kinds_after(nv, i as int, 0));
        }
        let mut j: usize = 0;
        while j < lints.len()
            invariant
                i < nv.len(),
                j <= lints@.len(),
                nv == named_lints_view(named_lints@),
                lints == &named_lints@[i as int].1,
                l == nv[i as int].1,
                l == lints_view(lints@),
                lint_total(nv.take(i + 1)) <= usize::MAX,
                lint_total(nv.take(i + 1)) == lint_total(nv.take(i as int)) + l.len(),
                forall|k: LintKind| #[trigger] kind_total(nv.take(i as int), k) <= lint_total(nv.take(i as int)),
                kind_counts(kinds) == kinds_after(nv, i as int, j as int),
            decreases lints.len() - j,
        {
            let k = lints[j].lint_kind;
            proof {
                lemma_kind_count_step(l, k, j as int);
                assert(l[j as int].kind == k);
            }
            let c = match kinds.get(k) {
                Some(v) => v,
                None => 0,
            };
            kinds.insert(k, c + 1);
            proof {
                assert forall|q: LintKind| true implies kind_count(l.take(j + 1), q) == kind_count(l.take(j as int), q) + if l[j as int].kind == q { 1nat } else { 0nat } by {
                    lemma_kind_count_step(l, q, j as int);
                }
                assert(kind_counts(kinds) =~= kinds_after(nv, i as int, j + 1));
            }
            j = j + 1;
        }
        proof {
            lemma_count_full(l);
            assert(kind_counts(kinds) =~= kind_tally(nv.take(i + 1)));
        }
        if lints.len() > 0 {
            let name = &named_lints[i].0;
            proof {
                assert(nv[i as int].0 == name@);
                lemma_totals_bounded(nv, i as int);
            }
            let c = match rules.get(name.as_str()) {
                Some(v) => v,
                None => 0,
            };
            rules.insert(name.clone(), c + lints.len());
        }
        proof {
            assert(name_counts(rules) =~= rule_tally(nv.take(i + 1)));
        }
        i = i + 1;
    }
    proof {
        lemma_count_full(nv);
    }
    (kinds, rules)
}

proof fn lemma_pair_total_bounded(n: Seq<(Seq<char>, Seq<LintV>)>, k: LintKind, x: Seq<char>)
    ensures
        pair_total(n, k, x) <= lint_total(n),
    decreases n.len(),
{
    if n.len() > 0 {
        lemma_pair_total_bounded(n.drop_last(), k, x);
        lemma_kind_count_le(n.last().1, k);
    }
}

/// The (kind, rule) counts after the first `j` lints of rule `i`.
pub open spec fn pairs_after(n: Seq<(Seq<char>, Seq<LintV>)>, i: int, j: int) -> Map<(LintKind, Seq<char>), nat> {
    Map::new(
        |p: (LintKind, Seq<char>)| pair_total(n.take(i), p.0, p.1) + (if n[i].0 == p.1 { kind_count(n[i].1.take(j), p.0) } else { 0nat }) > 0,
        |p: (LintKind, Seq<char>)| pair_total(n.take(i), p.0, p.1) + (if n[i].0 == p.1 { kind_count(n[i].1.take(j), p.0) } else { 0nat }),
    )
}

/// Count the lints by kind and rule together.
pub fn collect_lint_kind_rule_pairs(named_lints: &Vec<(String, Vec<Lint>)>) -> (r: PairCounts)
    requires
        lint_total(named_lints_view(named_lints@)) <= usize::MAX,
    ensures
        pair_counts(r) == pair_tally(named_lints_view(named_lints@)),
{
    let ghost nv = named_lints_view(named_lints@);
    let mut pairs = PairCounts::new();
    proof {
        assert(nv.take(0).len() == 0);
        assert(pair_counts(pairs) =~= pair_tally(nv.take(0)));
    }
    let mut i: usize = 0;
    while i < named_lints.len()
        invariant
            i <= nv.len(),
            nv == named_lints_view(named_lints@),
            lint_total(nv) <= usize::MAX,
            pair_counts(pairs) == pair_tally(nv.take(i as int)),
        decreases named_lints.len() - i,
    {
        let name = &named_lints[i].0;
        let lints = &named_lints[i].1;
        let ghost l = nv[i as int].1;
        proof {
            lemma_totals_step(nv, i as int);
            lemma_totals_bounded(nv, i + 1);
            assert(l == lints_view(lints@));
            assert(nv[i as int].0 == name@);
            assert(l.take(0).len() == 0);
            assert(pair_counts(pairs) =~= pairs_after(nv, i as int, 0));
        }
        let mut j: usize = 0;
        while j < lints.len()
            invariant
                i < nv.len(),
                j <= lints@.len(),
                nv == named_lints_view(named_lints@),
                name == &named_lints@[i as int].0,
                lints == &named_lints@[i as int].1,
                l == nv[i as int].1,
                l == lints_view(lints@),
                nv[i as int].0 == name@,
                lint_total(nv.take(i + 1)) <= usize::MAX,
                lint_total(nv.take(i + 1)) == lint_total(nv.take(i as int)) + l.len(),
                pair_counts(pairs) == pairs_after(nv, i as int, j as int),
            decreases lints.len() - j,
        {
            let k = lints[j].lint_kind;
            proof {
                lemma_kind_count_step(l, k, j as int);
                lemma_pair_total_bounded(nv.take(i as int), k, name@);
                assert(l[j as int].kind == k);
            }
            let c = match pairs.get(k, name.as_str()) {
                Some(v) => v,
                None => 0,
            };
            pairs.insert(k, name.clone(), c + 1);
            proof {
                assert forall|q: LintKind| true implies kind_count(l.take(j + 1), q) == kind_count(l.take(j as int), q) + if l[j as int].kind == q { 1nat } else { 0nat } by {
                    lemma_kind_count_step(l, q, j as int);
                }
                assert(pair_counts(pairs) =~= pairs_after(nv, i as int, j + 1));
            }
            j = j + 1;
        }
        proof {
            lemma_count_full(l);
            assert(pair_counts(pairs) =~= pair_tally(nv.take(i + 1)));
        }
        i = i + 1;
    }
    proof {
        lemma_count_full(nv);
    }
    pairs
}

proof fn lemma_text_count_step(l: Seq<LintV>, src: Seq<char>, w: Seq<char>, j: int)
    requires
        0 <= j < l.len(),
    ensures
        text_count(l.take(j + 1), src, w) == text_count(l.take(j), src, w) + if src.subrange(l[j].start, l[j].end) == w {
            1nat
        } else {
            0nat
        },
        text_count(l.take(j), src, w) <= j,
    decreases j,
{
    assert(l.take(j + 1).drop_last() =~= l.take(j));
    if j > 0 {
        lemma_text_count_step(l, src, w, j - 1);
    } else {
        assert(l.take(0).len() == 0);
    }
}

proof fn lemma_spello_total_bounded(n: Seq<(Seq<char>, Seq<LintV>)>, src: Seq<char>, w: Seq<char>)
    ensures
        spello_total(n, src, w) <= lint_total(n),
    decreases n.len(),
{
    if n.len() > 0 {
        lemma_spello_total_bounded(n.drop_last(), src, w);
        let l = n.last().1;
        if l.len() > 0 {
            lemma_text_count_step(l, src, w, l.len() - 1);
            lemma_count_full(l);
        }
    }
}

/// The misspelling counts after the first `j` lints of rule `i`.
pub open spec fn spellos_after(n: Seq<(Seq<char>, Seq<LintV>)>, src: Seq<char>, i: int, j: int) -> Map<Seq<char>, nat> {
    Map::new(
        |w: Seq<char>| spello_total(n.take(i), src, w) + (if n[i].0 == spell_check_rule() { text_count(n[i].1.take(j), src, w) } else { 0nat }) > 0,
        |w: Seq<char>| spello_total(n.take(i), src, w) + (if n[i].0 == spell_check_rule() { text_count(n[i].1.take(j), src, w) } else { 0nat }),
    )
}

/// Count how often each text flagged by the spelling rule occurs.
pub fn collect_spellos(named_lints: &Vec<(String, Vec<Lint>)>, source: &[char]) -> (r: NameCounts)
    requires
        lint_total(named_lints_view(named_lints@)) <= usize::MAX,
        spans_within(named_lints_view(named_lints@), source@.len() as int),
    ensures
        name_counts(r) == spello_tally(named_lints_view(named_lints@), source@),
{
    let ghost nv = named_lints_view(named_lints@);
    let ghost src = source@;
    let mut spellos = NameCounts::new();
    proof {
        assert(nv.take(0).len() == 0);
        assert(name_counts(spellos) =~= spello_tally(nv.take(0), src));
    }
    let mut i: usize = 0;
    while i < named_lints.len()
        invariant
            i <= nv.len(),
            nv == named_lints_view(named_lints@),
            src == source@,
            lint_total(nv) <= usize::MAX,
            spans_within(nv, src.len() as int),
            name_counts(spellos) == spello_tally(nv.take(i as int), src),
        decreases named_lints.len() - i,
    {
        let lints = &named_lints[i].1;
        let ghost l = nv[i as int].1;
        let name = crate::text::str_to_chars(named_lints[i].0.as_str());
        let is_spell_check = crate::text::chars_eq(name.as_slice(), crate::text::str_to_chars("SpellCheck").as_slice());
        proof {
            lemma_totals_step(nv, i as int);
            lemma_totals_bounded(nv, i + 1);
            assert(l == lints_view(lints@));
            assert(nv[i as int].0 == named_lints@[i as int].0@);
            assert(l.take(0).len() == 0);
            assert(name_counts(spellos) =~= spellos_after(nv, src, i as int, 0));
            assert(spell_check_rule() == "SpellCheck"@);
        }
        if is_spell_check {
            let mut j: usize = 0;
            while j < lints.len()
                invariant
                    i < nv.len(),
                    j <= lints@.len(),
                    nv == named_lints_view(named_lints@),
                    src == source@,
                    lints == &named_lints@[i as int].1,
                    l == nv[i as int].1,
                    l == lints_view(lints@),
                    nv[i as int].0 == spell_check_rule(),
                    spans_within(nv, src.len() as int),
                    lint_total(nv.take(i + 1)) <= usize::MAX,
                    lint_total(nv.take(i + 1)) == lint_total(nv.take(i as int)) + l.len(),
                    name_counts(spellos) == spellos_after(nv, src, i as int, j as int),
                decreases lints.len() - j,
            {
                proof {
                    assert(nv[i as int].1[j as int] == l[j as int]);
                    assert(0 <= l[j as int].start <= l[j as int].end <= src.len());
                }
                let w = lints[j].get_str(source);
                proof {
                    lemma_text_count_step(l, src, w@, j as int);
                    lemma_spello_total_bounded(nv.take(i as int), src, w@);
                    assert(l[j as int].start == lints@[j as int].span.start);
                }
                let c = match spellos.get(w.as_str()) {
                    Some(v) => v,
                    None => 0,
                };
                spellos.insert(w, c + 1);
                proof {
                    assert forall|q: Seq<char>| true implies text_count(l.take(j + 1), src, q) == text_count(l.take(j as int), src, q)
                        + if src.subrange(l[j as int].start, l[j as int].end) == q { 1nat } else { 0nat } by {
                        lemma_text_count_step(l, src, q, j as int);
                    }
                    assert(name_counts(spellos) =~= spellos_after(nv, src, i as int, j + 1));
                }
                j = j + 1;
            }
            proof {
                lemma_count_full(l);
            }
        }
        proof {
            assert(nv.take(i + 1).drop_last() =~= nv.take(i as int));
            assert(name_counts(spellos) =~= spello_tally(nv.take(i + 1), src));
        }
        i = i + 1;
    }
    proof {
        lemma_count_full(nv);
    }
    spellos
}

/// Add the counts of `part` to `total`, key by key.
pub fn add_kind_counts(total: &mut KindCounts, part: &KindCounts)
    requires
        forall|k: LintKind| #[trigger] kind_counts(*part).contains_key(k) ==> count_in(kind_counts(*old(total)), k) + kind_counts(*part)[k] <= usize::MAX,
    ensures
        kind_counts(*final(total)) == sum_counts(kind_counts(*old(total)), kind_counts(*part)),
{
    let ghost before = kind_counts(*total);
    let ghost p = kind_counts(*part);
    let entries = part.entries();
    let mut i: usize = 0;
    while i < entries.len()
        invariant
            i <= entries@.len(),
            before == kind_counts(*old(total)),
            p == kind_counts(*part),
            forall|k: LintKind| #[trigger] p.contains_key(k) ==> count_in(before, k) + p[k] <= usize::MAX,
            forall|a: int| 0 <= a < entries@.len() ==> p.contains_key((#[trigger] entries@[a]).0) && p[entries@[a].0] == entries@[a].1,
            forall|a: int, b: int| 0 <= a < b < entries@.len() ==> (#[trigger] entries@[a]).0 != (#[trigger] entries@[b]).0,
            forall|k: LintKind| #[trigger] kind_counts(*total).contains_key(k) <==> (before.contains_key(k) || exists|a: int| 0 <= a < i && (#[trigger] entries@[a]).0 == k),
            forall|k: LintKind| #[trigger] kind_counts(*total).contains_key(k) ==> kind_counts(*total)[k] == count_in(before, k) + if exists|a: int| 0 <= a < i && (#[trigger] entries@[a]).0 == k { p[k] } else { 0nat },
        decreases entries.len() - i,
    {
        let ghost key = entries@[i as int].0;
        proof {
            assert(p.contains_key(key));
            assert(forall|a: int| 0 <= a < i ==> (#[trigger] entries@[a]).0 != key);
        }
        let c = match total.get(entries[i].0) {
            Some(v) => v,
            None => 0,
        };
        proof {
            assert(c == count_in(kind_counts(*total), key));
            assert(count_in(kind_counts(*total), key) == count_in(before, key));
            assert(count_in(before, key) + p[key] <= usize::MAX);
        }
        total.insert(entries[i].0, c + entries[i].1);
        i = i + 1;
    }
    proof {
        assert forall|k: LintKind| p.contains_key(k) implies exists|a: int| 0 <= a < i && (#[trigger] entries@[a]).0 == k by {
            let a = choose|a: int| 0 <= a < entries@.len() && (#[trigger] entries@[a]).0 == k;
            assert(entries@[a].0 == k);
        }
        assert(kind_counts(*total) =~= sum_counts(before, p));
    }
}

/// Add the counts of `part` to `total`, key by key.
pub fn add_name_counts(total: &mut NameCounts, part: &NameCounts)
    requires
        forall|k: Seq<char>| #[trigger] name_counts(*part).contains_key(k) ==> count_in(name_counts(*old(total)), k) + name_counts(*part)[k] <= usize::MAX,
    ensures
        name_counts(*final(total)) == sum_counts(name_counts(*old(total)), name_counts(*part)),
{
    let ghost before = name_counts(*total);
    let ghost p = name_counts(*part);
    let entries = part.entries();
    let mut i: usize = 0;
    while i < entries.len()
        invariant
            i <= entries@.len(),
            before == name_counts(*old(total)),
            p == name_counts(*part),
            forall|k: Seq<char>| #[trigger] p.contains_key(k) ==> count_in(before, k) + p[k] <= usize::MAX,
            forall|a: int| 0 <= a < entries@.len() ==> p.contains_key((#[trigger] entries@[a]).0@) && p[entries@[a].0@] == entries@[a].1,
            forall|a: int, b: int| 0 <= a < b < entries@.len() ==> (#[trigger] entries@[a]).0@ != (#[trigger] entries@[b]).0@,
            forall|k: Seq<char>| #[trigger] name_counts(*total).contains_key(k) <==> (before.contains_key(k) || exists|a: int| 0 <= a < i && (#[trigger] entries@[a]).0@ == k),
            forall|k: Seq<char>| #[trigger] name_counts(*total).contains_key(k) ==> name_counts(*total)[k] == count_in(before, k) + if exists|a: int| 0 <= a < i && (#[trigger] entries@[a]).0@ == k { p[k] } else { 0nat },
        decreases entries.len() - i,
    {
        let ghost key = entries@[i as int].0@;
        proof {
            assert(p.contains_key(key));
            assert(forall|a: int| 0 <= a < i ==> (#[trigger] entries@[a]).0@ != key);
        }
        let c = match total.get(entries[i].0.as_str()) {
            Some(v) => v,
            None => 0,
        };
        proof {
            assert(c == count_in(name_counts(*total), key));
            assert(count_in(name_counts(*total), key) == count_in(before, key));
            assert(count_in(before, key) + p[key] <= usize::MAX);
        }
        total.insert(entries[i].0.clone(), c + entries[i].1);
        i = i + 1;
    }
    proof {
        assert forall|k: Seq<char>| p.contains_key(k) implies exists|a: int| 0 <= a < i && (#[trigger] entries@[a]).0@ == k by {
            let a = choose|a: int| 0 <= a < entries@.len() && (#[trigger] entries@[a]).0@ == k;
            assert(entries@[a].0@ == k);
        }
        assert(name_counts(*total) =~= sum_counts(before, p));
    }
}

/// Add the counts of `part` to `total`, key by key.
pub fn add_pair_counts(total: &mut PairCounts, part: &PairCounts)
    requires
        forall|k: (LintKind, Seq<char>)| #[trigger] pair_counts(*part).contains_key(k) ==> count_in(pair_counts(*old(total)), k) + pair_counts(*part)[k] <= usize::MAX,
    ensures
        pair_counts(*final(total)) == sum_counts(pair_counts(*old(total)), pair_counts(*part)),
{
    let ghost before = pair_counts(*total);
    let ghost p = pair_counts(*part);
    let entries = part.entries();
    let mut i: usize = 0;
    while i < entries.len()
        invariant
            i <= entries@.len(),
            before == pair_counts(*old(total)),
            p == pair_counts(*part),
            forall|k: (LintKind, Seq<char>)| #[trigger] p.contains_key(k) ==> count_in(before, k) + p[k] <= usize::MAX,
            forall|a: int| 0 <= a < entries@.len() ==> p.contains_key(((#[trigger] entries@[a]).0, entries@[a].1@)) && p[(entries@[a].0, entries@[a].1@)] == entries@[a].2,
            forall|a: int, b: int| 0 <= a < b < entries@.len() ==> ((#[trigger] entries@[a]).0, entries@[a].1@) != ((#[trigger] entries@[b]).0, entries@[b].1@),
            forall|k: (LintKind, Seq<char>)| #[trigger] pair_counts(*total).contains_key(k) <==> (before.contains_key(k) || exists|a: int| 0 <= a < i && ((#[trigger] entries@[a]).0, entries@[a].1@) == k),
            forall|k: (LintKind, Seq<char>)| #[trigger] pair_counts(*total).contains_key(k) ==> pair_counts(*total)[k] == count_in(before, k) + if exists|a: int| 0 <= a < i && ((#[trigger] entries@[a]).0, entries@[a].1@) == k { p[k] } else { 0nat },
        decreases entries.len() - i,
    {
        let ghost key = (entries@[i as int].0, entries@[i as int].1@);
        proof {
            assert(p.contains_key(key));
            assert(forall|a: int| 0 <= a < i ==> ((#[trigger] entries@[a]).0, entries@[a].1@) != key);
        }
        let c = match total.get(entries[i].0, entries[i].1.as_str()) {
            Some(v) => v,
            None => 0,
        };
        proof {
            assert(c == count_in(pair_counts(*total), key));
            assert(count_in(pair_counts(*total), key) == count_in(before, key));
            assert(count_in(before, key) + p[key] <= usize::MAX);
        }
        total.insert(entries[i].0, entries[i].1.clone(), c + entries[i].2);
        i = i + 1;
    }
    proof {
        assert forall|k: (LintKind, Seq<char>)| p.contains_key(k) implies exists|a: int| 0 <= a < i && ((#[trigger] entries@[a]).0, entries@[a].1@) == k by {
            let a = choose|a: int| 0 <= a < entries@.len() && (#[trigger] entries@[a]).0 == k.0 && entries@[a].1@ == k.1;
            assert((entries@[a].0, entries@[a].1@) == k);
        }
        assert(pair_counts(*total) =~= sum_counts(before, p));
    }
}

impl KindCounts {
    /// No kind counted yet.
    pub fn empty() -> (c: KindCounts)
        ensures
            kind_counts(c).dom().is_empty(),
    {
        KindCounts::new()
    }
}

impl NameCounts {
    /// No name counted yet.
    pub fn empty() -> (c: NameCounts)
        ensures
            name_counts(c).dom().is_empty(),
    {
        NameCounts::new()
    }
}

impl PairCounts {
    /// No (kind, rule) pair counted yet.
    pub fn empty() -> (c: PairCounts)
        ensures
            pair_counts(c).dom().is_empty(),
    {
        PairCounts::new()
    }
}

/// Whether adding `part` to `total` keeps every count within a `usize`.
pub fn kind_sums_fit(total: &KindCounts, part: &KindCounts) -> (r: bool)
    ensures
        r == forall|k: LintKind| #[trigger] kind_counts(*part).contains_key(k) ==> count_in(kind_counts(*total), k) + kind_counts(*part)[k] <= usize::MAX,
{
    let entries = part.entries();
    let mut i: usize = 0;
    while i < entries.len()
        invariant
            i <= entries@.len(),
            forall|a: int| 0 <= a < entries@.len() ==> kind_counts(*part).contains_key((#[trigger] entries@[a]).0) && kind_counts(*part)[entries@[a].0] == entries@[a].1,
            forall|k: LintKind| #[trigger] kind_counts(*part).contains_key(k) ==> exists|a: int| 0 <= a < entries@.len() && (#[trigger] entries@[a]).0 == k,
            forall|a: int| 0 <= a < i ==> count_in(kind_counts(*total), (#[trigger] entries@[a]).0) + entries@[a].1 <= usize::MAX,
        decreases entries.len() - i,
    {
        let c = match total.get(entries[i].0) {
            Some(v) => v,
            None => 0,
        };
        if c.checked_add(entries[i].1).is_none() {
            assert(kind_counts(*part).contains_key(entries@[i as int].0));
            assert(count_in(kind_counts(*total), entries@[i as int].0) + kind_counts(*part)[entries@[i as int].0] > usize::MAX);
            return false;
        }
        i = i + 1;
    }
    assert forall|k: LintKind| #[trigger] kind_counts(*part).contains_key(k) implies count_in(kind_counts(*total), k) + kind_counts(*part)[k] <= usize::MAX by {
        {
            let a = choose|a: int| 0 <= a < entries@.len() && (#[trigger] entries@[a]).0 == k;
        }
    }
    true
}

/// Whether adding `part` to `total` keeps every count within a `usize`.
pub fn name_sums_fit(total: &NameCounts, part: &NameCounts) -> (r: bool)
    ensures
        r == forall|k: Seq<char>| #[trigger] name_counts(*part).contains_key(k) ==> count_in(name_counts(*total), k) + name_counts(*part)[k] <= usize::MAX,
{
    let entries = part.entries();
    let mut i: usize = 0;
    while i < entries.len()
        invariant
            i <= entries@.len(),
            forall|a: int| 0 <= a < entries@.len() ==> name_counts(*part).contains_key((#[trigger] entries@[a]).0@) && name_counts(*part)[entries@[a].0@] == entries@[a].1,
            forall|k: Seq<char>| #[trigger] name_counts(*part).contains_key(k) ==> exists|a: int| 0 <= a < entries@.len() && (#[trigger] entries@[a]).0@ == k,
            forall|a: int| 0 <= a < i ==> count_in(name_counts(*total), (#[trigger] entries@[a]).0@) + entries@[a].1 <= usize::MAX,
        decreases entries.len() - i,
    {
        let c = match total.get(entries[i].0.as_str()) {
            Some(v) => v,
            None => 0,
        };
        if c.checked_add(entries[i].1).is_none() {
            assert(name_counts(*part).contains_key(entries@[i as int].0@));
            assert(count_in(name_counts(*total), entries@[i as int].0@) + name_counts(*part)[entries@[i as int].0@] > usize::MAX);
            return false;
        }
        i = i + 1;
    }
    assert forall|k: Seq<char>| #[trigger] name_counts(*part).contains_key(k) implies count_in(name_counts(*total), k) + name_counts(*part)[k] <= usize::MAX by {
        {
            let a = choose|a: int| 0 <= a < entries@.len() && (#[trigger] entries@[a]).0@ == k;
        }
    }
    true
}

/// Whether adding `part` to `total` keeps every count within a `usize`.
pub fn pair_sums_fit(total: &PairCounts, part: &PairCounts) -> (r: bool)
    ensures
        r == forall|k: (LintKind, Seq<char>)| #[trigger] pair_counts(*part).contains_key(k) ==> count_in(pair_counts(*total), k) + pair_counts(*part)[k] <= usize::MAX,
{
    let entries = part.entries();
    let mut i: usize = 0;
    while i < entries.len()
        invariant
            i <= entries@.len(),
            forall|a: int| 0 <= a < entries@.len() ==> pair_counts(*part).contains_key(((#[trigger] entries@[a]).0, entries@[a].1@)) && pair_counts(*part)[(entries@[a].0, entries@[a].1@)] == entries@[a].2,
            forall|k: (LintKind, Seq<char>)| #[trigger] pair_counts(*part).contains_key(k) ==> exists|a: int| 0 <= a < entries@.len() && (#[trigger] entries@[a]).0 == k.0 && entries@[a].1@ == k.1,
            forall|a: int| 0 <= a < i ==> count_in(pair_counts(*total), ((#[trigger] entries@[a]).0, entries@[a].1@)) + entries@[a].2 <= usize::MAX,
        decreases entries.len() - i,
    {
        let c = match total.get(entries[i].0, entries[i].1.as_str()) {
            Some(v) => v,
            None => 0,
        };
        if c.checked_add(entries[i].2).is_none() {
            let ghost key = (entries@[i as int].0, entries@[i as int].1@);
            assert(pair_counts(*part).contains_key(key));
            assert(count_in(pair_counts(*total), key) + pair_counts(*part)[key] > usize::MAX);
            return false;
        }
        i = i + 1;
    }
    assert forall|k: (LintKind, Seq<char>)| #[trigger] pair_counts(*part).contains_key(k) implies count_in(pair_counts(*total), k) + pair_counts(*part)[k] <= usize::MAX by {
        {
            let a = choose|a: int| 0 <= a < entries@.len() && (#[trigger] entries@[a]).0 == k.0 && entries@[a].1@ == k.1;
            assert((entries@[a].0, entries@[a].1@) == k);
        }
    }
    true
}

/// Add the counts of one input to the running totals of all inputs, when
/// every sum fits in a `usize`; otherwise leave the totals as they are.
/// Returns whether the counts were added.
pub fn add_input_counts(
    kinds: &mut KindCounts,
    rules: &mut NameCounts,
    pairs: &mut PairCounts,
    spellos: &mut NameCounts,
    part_kinds: &KindCounts,
    part_rules: &NameCounts,
    part_pairs: &PairCounts,
    part_spellos: &NameCounts,
) -> (added: bool)
    ensures
        added == ((forall|k: LintKind| #[trigger] kind_counts(*part_kinds).contains_key(k) ==> count_in(kind_counts(*old(kinds)), k) + kind_counts(*part_kinds)[k] <= usize::MAX)
            && (forall|k: Seq<char>| #[trigger] name_counts(*part_rules).contains_key(k) ==> count_in(name_counts(*old(rules)), k) + name_counts(*part_rules)[k] <= usize::MAX)
            && (forall|k: (LintKind, Seq<char>)| #[trigger] pair_counts(*part_pairs).contains_key(k) ==> count_in(pair_counts(*old(pairs)), k) + pair_counts(*part_pairs)[k] <= usize::MAX)
            && (forall|k: Seq<char>| #[trigger] name_counts(*part_spellos).contains_key(k) ==> count_in(name_counts(*old(spellos)), k) + name_counts(*part_spellos)[k] <= usize::MAX)),
        added ==> kind_counts(*final(kinds)) == sum_counts(kind_counts(*old(kinds)), kind_counts(*part_kinds)),
        added ==> name_counts(*final(rules)) == sum_counts(name_counts(*old(rules)), name_counts(*part_rules)),
        added ==> pair_counts(*final(pairs)) == sum_counts(pair_counts(*old(pairs)), pair_counts(*part_pairs)),
        added ==> name_counts(*final(spellos)) == sum_counts(name_counts(*old(spellos)), name_counts(*part_spellos)),
        !added ==> *final(kinds) == *old(kinds) && *final(rules) == *old(rules) && *final(pairs) == *old(pairs)
            && *final(spellos) == *old(spellos),
{
    let fits = kind_sums_fit(kinds, part_kinds) && name_sums_fit(rules, part_rules) && pair_sums_fit(pairs, part_pairs)
        && name_sums_fit(spellos, part_spellos);
    if !fits {
        return false;
    }
    add_kind_counts(kinds, part_kinds);
    add_name_counts(rules, part_rules);
    add_pair_counts(pairs, part_pairs);
    add_name_counts(spellos, part_spellos);
    true
}

} // verus!
