//! The summary of misspellings: spellings grouped by their lower-case form,
//! groups and spellings ranked by how often they occur.

use vstd::prelude::*;

use crate::ranking::{index_present, rank, ranked_view, ranks_before, Ranked, RankedV};
use crate::stats::{name_counts, NameCounts};
use crate::summary::{push_decimal, spec_ansi_rgb, spec_decimal, spec_item};
use crate::text::str_to_chars;

verus! {

/// What `str::to_lowercase` gives for `s`: its lower-case form under the
/// Unicode case mapping.
pub uninterp spec fn lowercase_of(s: Seq<char>) -> Seq<char>;

/// `str::to_lowercase`.
#[verifier::external_body]
fn to_lowercase(s: &str) -> (r: String)
    ensures
        r@ == lowercase_of(s@),
{
    s.to_lowercase()
}

/// Spellings with their counts, grouped by lower-case form, held in a hashbrown map.
#[verifier::external_body]
pub struct SpellingGroups {
    map: hashbrown::HashMap<String, Vec<(String, usize)>>,
}

/// What a [`SpellingGroups`] holds: each lower-case form with its spellings and their counts.
pub uninterp spec fn spelling_groups(g: SpellingGroups) -> Map<Seq<char>, Seq<(Seq<char>, nat)>>;

/// The view of a list of spellings with counts.
pub open spec fn variants_view(v: Seq<(String, usize)>) -> Seq<(Seq<char>, nat)> {
    v.map_values(|e: (String, usize)| (e.0@, e.1 as nat))
}

impl SpellingGroups {
    /// `hashbrown::HashMap::new`: an empty map.
    #[verifier::external_body]
    pub(crate) fn new() -> (g: SpellingGroups)
        ensures
            spelling_groups(g).dom().is_empty(),
    {
        SpellingGroups { map: hashbrown::HashMap::new() }
    }

    /// `hashbrown::HashMap::get`, cloned: the spellings of `lower`, if it is held.
    #[verifier::external_body]
    pub(crate) fn get(&self, lower: &str) -> (r: Option<Vec<(String, usize)>>)
        ensures
            r matches Some(v) ==> spelling_groups(*self).contains_key(lower@) && spelling_groups(*self)[lower@]
                == variants_view(v@),
            r is None ==> !spelling_groups(*self).contains_key(lower@),
    {
        self.map.get(lower).cloned()
    }

    /// `hashbrown::HashMap::insert`: `lower` now holds `v`.
    #[verifier::external_body]
    pub(crate) fn insert(&mut self, lower: String, v: Vec<(String, usize)>)
        ensures
            spelling_groups(*final(self)) == spelling_groups(*old(self)).insert(lower@, variants_view(v@)),
    {
        self.map.insert(lower, v);
    }

    /// `hashbrown::HashMap::iter`, cloned: every group, each once, in an
    /// order the map chooses.
    #[verifier::external_body]
    pub(crate) fn entries(&self) -> (r: Vec<(String, Vec<(String, usize)>)>)
        ensures
            forall|i: int|
                0 <= i < r@.len() ==> spelling_groups(*self).contains_key((#[trigger] r@[i]).0@) && spelling_groups(
                    *self,
                )[r@[i].0@] == variants_view(r@[i].1@),
            forall|n: Seq<char>| #[trigger] spelling_groups(*self).contains_key(n) ==> exists|i: int| 0 <= i < r@.len() && (#[trigger] r@[i]).0@ == n,
            forall|i: int, j: int| 0 <= i < j < r@.len() ==> (#[trigger] r@[i]).0@ != (#[trigger] r@[j]).0@,
    {
        self.map.iter().map(|(k, v)| (k.clone(), v.clone())).collect()
    }
}

/// The groups hold exactly the spellings of `spellos`, each once, under its
/// lower-case form.
pub open spec fn groups_spellings(g: Map<Seq<char>, Seq<(Seq<char>, nat)>>, spellos: Map<Seq<char>, nat>) -> bool {
    &&& forall|lower: Seq<char>| #[trigger] g.contains_key(lower) ==> g[lower].len() > 0
    &&& forall|lower: Seq<char>, i: int|
        #![trigger g[lower][i]]
        g.contains_key(lower) && 0 <= i < g[lower].len() ==> spellos.contains_key(g[lower][i].0) && spellos[g[lower][i].0]
            == g[lower][i].1 && lowercase_of(g[lower][i].0) == lower
    &&& forall|lower: Seq<char>, i: int, j: int|
        #![trigger g[lower][i], g[lower][j]]
        g.contains_key(lower) && 0 <= i < j < g[lower].len() ==> g[lower][i].0 != g[lower][j].0
    &&& forall|w: Seq<char>| #[trigger] spellos.contains_key(w) ==> g.contains_key(lowercase_of(w)) && exists|i: int|
        0 <= i < g[lowercase_of(w)].len() && (#[trigger] g[lowercase_of(w)][i]).0 == w
}

/// Group the spellings by their lower-case form.
pub fn group_spellings(spellos: &NameCounts) -> (r: SpellingGroups)
    ensures
        groups_spellings(spelling_groups(r), name_counts(*spellos)),
{
    let ghost m = name_counts(*spellos);
    let entries = spellos.entries();
    let mut groups = SpellingGroups::new();
    let mut i: usize = 0;
    while i < entries.len()
        invariant
            i <= entries@.len(),
            m == name_counts(*spellos),
            forall|a: int| 0 <= a < entries@.len() ==> m.contains_key((#[trigger] entries@[a]).0@) && m[entries@[a].0@] == entries@[a].1,
            forall|a: int, b: int| 0 <= a < b < entries@.len() ==> (#[trigger] entries@[a]).0@ != (#[trigger] entries@[b]).0@,
            forall|lower: Seq<char>| #[trigger] spelling_groups(groups).contains_key(lower) ==> spelling_groups(groups)[lower].len() > 0,
            forall|lower: Seq<char>, q: int|
                #![trigger spelling_groups(groups)[lower][q]]
                spelling_groups(groups).contains_key(lower) && 0 <= q < spelling_groups(groups)[lower].len() ==> {
                    let e = spelling_groups(groups)[lower][q];
                    &&& lowercase_of(e.0) == lower
                    &&& exists|a: int| 0 <= a < i && (#[trigger] entries@[a]).0@ == e.0 && entries@[a].1 == e.1
                },
            forall|lower: Seq<char>, q: int, w: int|
                #![trigger spelling_groups(groups)[lower][q], spelling_groups(groups)[lower][w]]
                spelling_groups(groups).contains_key(lower) && 0 <= q < w < spelling_groups(groups)[lower].len()
                    ==> spelling_groups(groups)[lower][q].0 != spelling_groups(groups)[lower][w].0,
            forall|a: int|
                0 <= a < i ==> spelling_groups(groups).contains_key(lowercase_of((#[trigger] entries@[a]).0@)) && exists|q: int|
                    0 <= q < spelling_groups(groups)[lowercase_of(entries@[a].0@)].len() && (#[trigger] spelling_groups(
                        groups,
                    )[lowercase_of(entries@[a].0@)][q]).0 == entries@[a].0@,
        decreases entries.len() - i,
    {
        let spelling = &entries[i].0;
        let count = entries[i].1;
        let lower = to_lowercase(spelling.as_str());
        let ghost before = spelling_groups(groups);
        let mut variants = match groups.get(lower.as_str()) {
            Some(v) => v,
            None => Vec::new(),
        };
        let ghost old_vs = variants_view(variants@);
        proof {
            if !before.contains_key(lower@) {
                assert(old_vs =~= Seq::<(Seq<char>, nat)>::empty());
            }
            assert forall|q: int| 0 <= q < old_vs.len() implies old_vs[q].0 != spelling@ by {
                assert(before[lower@][q] == old_vs[q]);
                let a = choose|a: int| 0 <= a < i && (#[trigger] entries@[a]).0@ == before[lower@][q].0 && entries@[a].1 == before[lower@][q].1;
                assert(entries@[a].0@ != entries@[i as int].0@);
            }
        }
        variants.push((spelling.clone(), count));
        proof {
            assert(variants_view(variants@) =~= old_vs.push((spelling@, count as nat)));
        }
        groups.insert(lower, variants);
        proof {
            let g = spelling_groups(groups);
            let nv = old_vs.push((spelling@, count as nat));
            assert(g == before.insert(lower@, nv));
            assert forall|lower2: Seq<char>, q: int|
                #![trigger g[lower2][q]]
                g.contains_key(lower2) && 0 <= q < g[lower2].len() implies {
                    let e = g[lower2][q];
                    &&& lowercase_of(e.0) == lower2
                    &&& exists|a: int| 0 <= a < i + 1 && (#[trigger] entries@[a]).0@ == e.0 && entries@[a].1 == e.1
                } by {
                if lower2 == lower@ {
                    if q < old_vs.len() {
                        assert(g[lower2][q] == before[lower2][q]);
                    } else {
                        assert(g[lower2][q] == (spelling@, count as nat));
                        assert(entries@[i as int].0@ == spelling@);
                    }
                } else {
                    assert(g[lower2][q] == before[lower2][q]);
                }
            }
            assert forall|lower2: Seq<char>, q: int, w: int|
                #![trigger g[lower2][q], g[lower2][w]]
                g.contains_key(lower2) && 0 <= q < w < g[lower2].len() implies g[lower2][q].0 != g[lower2][w].0 by {
                if lower2 == lower@ {
                    if w < old_vs.len() {
                        assert(g[lower2][q] == before[lower2][q]);
                        assert(g[lower2][w] == before[lower2][w]);
                    } else {
                        assert(g[lower2][q] == old_vs[q]);
                    }
                } else {
                    assert(g[lower2][q] == before[lower2][q]);
                    assert(g[lower2][w] == before[lower2][w]);
                }
            }
            assert forall|a: int| 0 <= a < i + 1 implies g.contains_key(lowercase_of((#[trigger] entries@[a]).0@)) && exists|q: int|
                0 <= q < g[lowercase_of(entries@[a].0@)].len() && (#[trigger] g[lowercase_of(entries@[a].0@)][q]).0
                    == entries@[a].0@ by {
                let la = lowercase_of(entries@[a].0@);
                if a == i {
                    assert(g[la][old_vs.len() as int] == (spelling@, count as nat));
                } else {
                    let q = choose|q: int| 0 <= q < before[la].len() && (#[trigger] before[la][q]).0 == entries@[a].0@;
                    if la == lower@ {
                        assert(g[la][q] == old_vs[q]);
                        assert(before[la][q] == old_vs[q]);
                    } else {
                        assert(g[la][q] == before[la][q]);
                    }
                }
            }
        }
        i = i + 1;
    }
    proof {
        let g = spelling_groups(groups);
        assert forall|lower: Seq<char>, q: int|
            #![trigger g[lower][q]]
            g.contains_key(lower) && 0 <= q < g[lower].len() implies m.contains_key(g[lower][q].0) && m[g[lower][q].0]
                == g[lower][q].1 && lowercase_of(g[lower][q].0) == lower by {
            let a = choose|a: int| 0 <= a < i && (#[trigger] entries@[a]).0@ == g[lower][q].0 && entries@[a].1 == g[lower][q].1;
        }
        assert forall|w: Seq<char>| #[trigger] m.contains_key(w) implies g.contains_key(lowercase_of(w)) && exists|q: int|
            0 <= q < g[lowercase_of(w)].len() && (#[trigger] g[lowercase_of(w)][q]).0 == w by {
            let a = choose|a: int| 0 <= a < entries@.len() && (#[trigger] entries@[a]).0@ == w;
            assert(g.contains_key(lowercase_of(entries@[a].0@)));
        }
    }
    groups
}

/// The sum of the counts of `v`.
pub open spec fn variants_total(v: Seq<(Seq<char>, nat)>) -> nat
    decreases v.len(),
{
    if v.len() == 0 {
        0
    } else {
        variants_total(v.drop_last()) + v.last().1
    }
}

/// How a spelling ranks within its group: by count, then by spelling.
pub open spec fn variant_key(e: (Seq<char>, nat)) -> RankedV {
    RankedV { count: e.1, first: e.0, second: Seq::empty(), index: 0 }
}

/// How a group ranks: by its total count, then by its lower-case form.
pub open spec fn group_key(lower: Seq<char>, total: nat) -> RankedV {
    RankedV { count: total, first: lower, second: Seq::empty(), index: 0 }
}

/// `v` holds the spellings of `vs`, each once, in ranking order.
pub open spec fn ranks_variants(v: Seq<(Seq<char>, nat)>, vs: Seq<(Seq<char>, nat)>) -> bool {
    &&& v.len() == vs.len()
    &&& forall|i: int| 0 <= i < v.len() ==> vs.contains(#[trigger] v[i])
    &&& forall|j: int| 0 <= j < vs.len() ==> v.contains(#[trigger] vs[j])
    &&& forall|i: int, j: int| 0 <= i < j < v.len() ==> !ranks_before(variant_key(#[trigger] v[j]), variant_key(#[trigger] v[i]))
}

/// The total of a list of counted spellings, if it fits in a `usize`.
fn total_of(v: &Vec<(String, usize)>) -> (r: Option<usize>)
    ensures
        r matches Some(t) ==> t == variants_total(variants_view(v@)),
        r is None ==> variants_total(variants_view(v@)) > usize::MAX,
{
    let ghost vv = variants_view(v@);
    let mut t: usize = 0;
    let mut i: usize = 0;
    while i < v.len()
        invariant
            i <= v@.len(),
            vv == variants_view(v@),
            t == variants_total(vv.take(i as int)),
        decreases v.len() - i,
    {
        proof {
            assert(vv.take(i + 1).drop_last() =~= vv.take(i as int));
        }
        match t.checked_add(v[i].1) {
            Some(n) => {
                t = n;
            },
            None => {
                proof {
                    lemma_total_prefix(vv, i + 1);
                }
                return None;
            },
        }
        i = i + 1;
    }
    assert(vv.take(v@.len() as int) =~= vv);
    Some(t)
}

proof fn lemma_total_prefix(v: Seq<(Seq<char>, nat)>, i: int)
    requires
        0 <= i <= v.len(),
    ensures
        variants_total(v.take(i)) <= variants_total(v),
    decreases v.len() - i,
{
    if i < v.len() {
        lemma_total_prefix(v, i + 1);
        assert(v.take(i + 1).drop_last() =~= v.take(i));
    } else {
        assert(v.take(i) =~= v);
    }
}

/// The spellings of a group, ranked.
fn rank_variants(v: &Vec<(String, usize)>) -> (r: Vec<(String, usize)>)
    ensures
        ranks_variants(variants_view(r@), variants_view(v@)),
{
    let ghost vv = variants_view(v@);
    let mut keys: Vec<Ranked> = Vec::new();
    let mut i: usize = 0;
    while i < v.len()
        invariant
            i <= v@.len(),
            vv == variants_view(v@),
            keys@.len() == i,
            forall|q: int| 0 <= q < i ==> (#[trigger] keys@[q])@ == (RankedV { index: q as nat, ..variant_key(vv[q]) }),
        decreases v.len() - i,
    {
        keys.push(Ranked { count: v[i].1, first: str_to_chars(v[i].0.as_str()), second: Vec::new(), index: i });
        i = i + 1;
    }
    let ranked = rank(&keys);
    let ghost rv = ranked_view(ranked@);
    let ghost kv = ranked_view(keys@);
    let mut out: Vec<(String, usize)> = Vec::new();
    let mut j: usize = 0;
    while j < ranked.len()
        invariant
            j <= ranked@.len(),
            vv == variants_view(v@),
            rv == ranked_view(ranked@),
            kv == ranked_view(keys@),
            rv.len() == vv.len(),
            kv.len() == vv.len(),
            forall|q: int| 0 <= q < kv.len() ==> (#[trigger] kv[q]) == (RankedV { index: q as nat, ..variant_key(vv[q]) }),
            forall|q: int| 0 <= q < rv.len() ==> (#[trigger] rv[q]).index < kv.len() && rv[q] == kv[rv[q].index as int],
            out@.len() == j,
            forall|q: int| 0 <= q < j ==> variants_view(out@)[q] == vv[rv[q].index as int],
        decreases ranked.len() - j,
    {
        let idx = ranked[j].index;
        assert(rv[j as int].index == idx);
        let ghost prev = out@;
        out.push((v[idx].0.clone(), v[idx].1));
        proof {
            assert(vv[idx as int] == (v@[idx as int].0@, v@[idx as int].1 as nat));
            assert(variants_view(out@)[j as int] == (out@[j as int].0@, out@[j as int].1 as nat));
            assert forall|q: int| 0 <= q < j + 1 implies variants_view(out@)[q] == vv[rv[q].index as int] by {
                if q < j {
                    assert(out@[q] == prev[q]);
                    assert(variants_view(prev)[q] == variants_view(out@)[q]);
                }
            }
        }
        j = j + 1;
    }
    proof {
        let ov = variants_view(out@);
        assert forall|i: int| 0 <= i < ov.len() implies vv.contains(#[trigger] ov[i]) by {
            assert(ov[i] == vv[rv[i].index as int]);
        }
        assert forall|e: int| 0 <= e < vv.len() implies ov.contains(#[trigger] vv[e]) by {
            assert(index_present(rv, e));
            let i = choose|i: int| 0 <= i < rv.len() && (#[trigger] rv[i]).index == e;
            assert(ov[i] == vv[e]);
        }
        assert forall|i: int, j: int| 0 <= i < j < ov.len() implies !ranks_before(variant_key(#[trigger] ov[j]), variant_key(#[trigger] ov[i])) by {
            assert(!ranks_before(rv[j], rv[i]));
            assert(rv[j] == kv[rv[j].index as int]);
            assert(rv[i] == kv[rv[i].index as int]);
        }
    }
    out
}

/// Some group of `v` has the lower-case form `lower`.
pub open spec fn group_listed(v: Seq<(String, usize, Vec<(String, usize)>)>, lower: Seq<char>) -> bool {
    exists|i: int| 0 <= i < v.len() && (#[trigger] v[i]).0@ == lower
}

/// The view of a ranked group: lower-case form, total, spellings.
pub open spec fn ranked_group_view(e: (String, usize, Vec<(String, usize)>)) -> (Seq<char>, nat, Seq<(Seq<char>, nat)>) {
    (e.0@, e.1 as nat, variants_view(e.2@))
}

/// The groups of spellings, largest total first (equal totals by lower-case
/// form), each with its spellings ranked; nothing when a total does not fit
/// in a `usize`.
pub fn ranked_spelling_groups(groups: &SpellingGroups) -> (r: Option<Vec<(String, usize, Vec<(String, usize)>)>>)
    ensures
        r is None ==> exists|lower: Seq<char>|
            #[trigger] spelling_groups(*groups).contains_key(lower) && variants_total(spelling_groups(*groups)[lower])
                > usize::MAX,
        r matches Some(v) ==> forall|i: int|
            0 <= i < v@.len() ==> {
                let e = ranked_group_view(#[trigger] v@[i]);
                &&& spelling_groups(*groups).contains_key(e.0)
                &&& e.1 == variants_total(spelling_groups(*groups)[e.0])
                &&& ranks_variants(e.2, spelling_groups(*groups)[e.0])
            },
        r matches Some(v) ==> forall|lower: Seq<char>|
            #[trigger] spelling_groups(*groups).contains_key(lower) ==> group_listed(v@, lower),
        r matches Some(v) ==> forall|i: int, j: int| 0 <= i < j < v@.len() ==> (#[trigger] v@[i]).0@ != (#[trigger] v@[j]).0@,
        r matches Some(v) ==> forall|i: int, j: int|
            0 <= i < j < v@.len() ==> !ranks_before(
                group_key((#[trigger] v@[j]).0@, v@[j].1 as nat),
                group_key((#[trigger] v@[i]).0@, v@[i].1 as nat),
            ),
{
    let ghost g = spelling_groups(*groups);
    let entries = groups.entries();
    let mut keys: Vec<Ranked> = Vec::new();
    let mut totals: Vec<usize> = Vec::new();
    let mut i: usize = 0;
    while i < entries.len()
        invariant
            i <= entries@.len(),
            g == spelling_groups(*groups),
            forall|a: int| 0 <= a < entries@.len() ==> g.contains_key((#[trigger] entries@[a]).0@) && g[entries@[a].0@] == variants_view(entries@[a].1@),
            forall|n: Seq<char>| #[trigger] g.contains_key(n) ==> exists|a: int| 0 <= a < entries@.len() && (#[trigger] entries@[a]).0@ == n,
            keys@.len() == i,
            totals@.len() == i,
            forall|q: int| 0 <= q < i ==> (#[trigger] totals@[q]) == variants_total(variants_view(entries@[q].1@)),
            forall|q: int| 0 <= q < i ==> (#[trigger] keys@[q])@ == (RankedV { index: q as nat, ..group_key(entries@[q].0@, totals@[q] as nat) }),
        decreases entries.len() - i,
    {
        let t = match total_of(&entries[i].1) {
            Some(t) => t,
            None => {
                proof {
                    assert(g.contains_key(entries@[i as int].0@));
                }
                return None;
            },
        };
        keys.push(Ranked { count: t, first: str_to_chars(entries[i].0.as_str()), second: Vec::new(), index: i });
        totals.push(t);
        i = i + 1;
    }
    let ranked = rank(&keys);
    let ghost rv = ranked_view(ranked@);
    let ghost kv = ranked_view(keys@);
    let mut out: Vec<(String, usize, Vec<(String, usize)>)> = Vec::new();
    let mut j: usize = 0;
    while j < ranked.len()
        invariant
            j <= ranked@.len(),
            g == spelling_groups(*groups),
            forall|a: int| 0 <= a < entries@.len() ==> g.contains_key((#[trigger] entries@[a]).0@) && g[entries@[a].0@] == variants_view(entries@[a].1@),
            forall|n: Seq<char>| #[trigger] g.contains_key(n) ==> exists|a: int| 0 <= a < entries@.len() && (#[trigger] entries@[a]).0@ == n,
            rv == ranked_view(ranked@),
            kv == ranked_view(keys@),
            rv.len() == entries@.len(),
            kv.len() == entries@.len(),
            totals@.len() == entries@.len(),
            forall|q: int| 0 <= q < totals@.len() ==> (#[trigger] totals@[q]) == variants_total(variants_view(entries@[q].1@)),
            forall|q: int| 0 <= q < kv.len() ==> (#[trigger] kv[q]) == (RankedV { index: q as nat, ..group_key(entries@[q].0@, totals@[q] as nat) }),
            forall|q: int| 0 <= q < rv.len() ==> (#[trigger] rv[q]).index < kv.len() && rv[q] == kv[rv[q].index as int],
            out@.len() == j,
            forall|q: int|
                0 <= q < j ==> {
                    let e = ranked_group_view(#[trigger] out@[q]);
                    let src = entries@[rv[q].index as int];
                    &&& e.0 == src.0@
                    &&& e.1 == totals@[rv[q].index as int]
                    &&& ranks_variants(e.2, variants_view(src.1@))
                },
        decreases ranked.len() - j,
    {
        let idx = ranked[j].index;
        assert(rv[j as int].index == idx);
        let variants = rank_variants(&entries[idx].1);
        let ghost prev = out@;
        out.push((entries[idx].0.clone(), totals[idx], variants));
        proof {
            assert forall|q: int| 0 <= q < j + 1 implies {
                let e = ranked_group_view(#[trigger] out@[q]);
                let src = entries@[rv[q].index as int];
                &&& e.0 == src.0@
                &&& e.1 == totals@[rv[q].index as int]
                &&& ranks_variants(e.2, variants_view(src.1@))
            } by {
                if q < j {
                    assert(out@[q] == prev[q]);
                }
            }
        }
        j = j + 1;
    }
    proof {
        assert forall|i: int| 0 <= i < out@.len() implies {
            let e = ranked_group_view(#[trigger] out@[i]);
            &&& g.contains_key(e.0)
            &&& e.1 == variants_total(g[e.0])
            &&& ranks_variants(e.2, g[e.0])
        } by {
            let src = entries@[rv[i].index as int];
            assert(g[src.0@] == variants_view(src.1@));
        }
        assert forall|lower: Seq<char>| #[trigger] g.contains_key(lower) implies group_listed(out@, lower) by {
            let e = choose|e: int| 0 <= e < entries@.len() && (#[trigger] entries@[e]).0@ == lower;
            assert(index_present(rv, e));
            let i = choose|i: int| 0 <= i < rv.len() && (#[trigger] rv[i]).index == e;
            assert(ranked_group_view(out@[i]).0 == lower);
            assert(out@[i].0@ =~= lower);
        }
        assert forall|i: int, j: int| 0 <= i < j < out@.len() implies (#[trigger] out@[i]).0@ != (#[trigger] out@[j]).0@ by {
            assert(rv[i].index != rv[j].index);
            assert(ranked_group_view(out@[i]).0 == entries@[rv[i].index as int].0@);
            assert(ranked_group_view(out@[j]).0 == entries@[rv[j].index as int].0@);
        }
        assert forall|i: int, j: int| 0 <= i < j < out@.len() implies !ranks_before(
            group_key((#[trigger] out@[j]).0@, out@[j].1 as nat),
            group_key((#[trigger] out@[i]).0@, out@[i].1 as nat),
        ) by {
            assert(!ranks_before(rv[j], rv[i]));
            assert(rv[j] == kv[rv[j].index as int]);
            assert(rv[i] == kv[rv[i].index as int]);
            assert(ranked_group_view(out@[i]).0 == entries@[rv[i].index as int].0@);
            assert(ranked_group_view(out@[j]).0 == entries@[rv[j].index as int].0@);
        }
    }
    Some(out)
}

/// The colour of the `i`-th group: magenta, green and cyan in turn.
pub open spec fn group_rgb(i: nat) -> (u8, u8, u8) {
    if i % 3 == 0 {
        (180, 90, 150)
    } else if i % 3 == 1 {
        (90, 180, 90)
    } else {
        (90, 150, 180)
    }
}

/// `(“spelling”: count)`.
pub open spec fn spelling_item_text(spelling: Seq<char>, c: nat) -> Seq<char> {
    "(\u{201c}"@ + spelling + "\u{201d}: "@ + spec_decimal(c) + ")"@
}

/// The items of the ranked groups: each spelling of the `i`-th group in the
/// colour of that group.
pub open spec fn spec_spelling_items(groups: Seq<(Seq<char>, nat, Seq<(Seq<char>, nat)>)>) -> Seq<(Option<Seq<char>>, Seq<char>)>
    decreases groups.len(),
{
    if groups.len() == 0 {
        Seq::empty()
    } else {
        let i = (groups.len() - 1) as nat;
        spec_spelling_items(groups.drop_last()) + groups.last().2.map_values(
            |v: (Seq<char>, nat)| (Some(spec_ansi_rgb(group_rgb(i))), spelling_item_text(v.0, v.1)),
        )
    }
}

/// The listed spellings, group by group, each group in its colour.
pub fn spelling_items(groups: &Vec<(String, usize, Vec<(String, usize)>)>) -> (r: Vec<(Option<String>, String)>)
    ensures
        r@.map_values(|it: (Option<String>, String)| spec_item(it)) == spec_spelling_items(
            groups@.map_values(|e: (String, usize, Vec<(String, usize)>)| ranked_group_view(e)),
        ),
{
    let ghost gv = groups@.map_values(|e: (String, usize, Vec<(String, usize)>)| ranked_group_view(e));
    let mut out: Vec<(Option<String>, String)> = Vec::new();
    let mut i: usize = 0;
    while i < groups.len()
        invariant
            i <= groups@.len(),
            gv == groups@.map_values(|e: (String, usize, Vec<(String, usize)>)| ranked_group_view(e)),
            out@.map_values(|it: (Option<String>, String)| spec_item(it)) == spec_spelling_items(gv.take(i as int)),
        decreases groups.len() - i,
    {
        let rgb: (u8, u8, u8) = if i % 3 == 0 {
            (180, 90, 150)
        } else if i % 3 == 1 {
            (90, 180, 90)
        } else {
            (90, 150, 180)
        };
        let variants = &groups[i].2;
        let ghost base = out@.map_values(|it: (Option<String>, String)| spec_item(it));
        let ghost vv = variants_view(variants@);
        proof {
            assert(gv[i as int].2 == vv);
        }
        let mut j: usize = 0;
        while j < variants.len()
            invariant
                j <= variants@.len(),
                vv == variants_view(variants@),
                rgb == group_rgb(i as nat),
                out@.map_values(|it: (Option<String>, String)| spec_item(it)) == base + vv.take(j as int).map_values(
                    |v: (Seq<char>, nat)| (Some(spec_ansi_rgb(group_rgb(i as nat))), spelling_item_text(v.0, v.1)),
                ),
            decreases variants.len() - j,
        {
            let prefix = crate::summary::ansi_rgb(rgb);
            let mut text = String::from_str("(\u{201c}");
            text.append(variants[j].0.as_str());
            text.append("\u{201d}: ");
            push_decimal(&mut text, variants[j].1);
            text.append(")");
            let ghost item = (Some(prefix@), text@);
            proof {
                assert(text@ =~= spelling_item_text(vv[j as int].0, vv[j as int].1));
                assert(vv.take(j + 1).map_values(
                    |v: (Seq<char>, nat)| (Some(spec_ansi_rgb(group_rgb(i as nat))), spelling_item_text(v.0, v.1)),
                ) =~= vv.take(j as int).map_values(
                    |v: (Seq<char>, nat)| (Some(spec_ansi_rgb(group_rgb(i as nat))), spelling_item_text(v.0, v.1)),
                ).push(item));
            }
            let ghost prev = out@;
            out.push((Some(prefix), text));
            proof {
                assert(out@.map_values(|it: (Option<String>, String)| spec_item(it)) =~= prev.map_values(
                    |it: (Option<String>, String)| spec_item(it),
                ).push(item));
            }
            j = j + 1;
        }
        proof {
            assert(vv.take(variants@.len() as int) =~= vv);
            assert(gv.take(i + 1).drop_last() =~= gv.take(i as int));
            assert(gv.take(i + 1).last() == gv[i as int]);
        }
        i = i + 1;
    }
    assert(gv.take(groups@.len() as int) =~= gv);
    out
}

} // verus!
