//! The counts behind the random recommendation metrics: exposures and what
//! came of them, overall and split into preferred and exploration (the
//! `unknown` preference tier) recommendations, in total and per algorithm
//! variant; and the distinct topics that sessions offered and showed. The
//! rates derived from these counts are left to the caller.
use crate::ordered::{find_sorted, insert_sorted, lex_lt, strictly_sorted};
use crate::text::{str_eq, strings_of};
use vstd::prelude::*;

verus! {

/// The preference tier of exploration recommendations.
pub const EXPLORATION_TIER: &'static str = "unknown";

/// What came of the recommendations of one group.
#[derive(Clone, Copy, Debug, PartialEq, Eq, Structural)]
pub struct MetricCounts {
    pub exposed: i64,
    pub opened: i64,
    pub effective_reads: i64,
    pub quick_exits: i64,
    pub manual_deletes: i64,
}

/// One row of the grouped query: a variant, a tier, and its counts.
pub struct MetricRow {
    pub algorithm_variant: String,
    pub preference_tier: String,
    pub counts: MetricCounts,
}

/// The counts of a set of rows, overall and split by tier.
#[derive(Clone, Copy, Debug, PartialEq, Eq, Structural)]
pub struct MetricSplit {
    pub overall: MetricCounts,
    pub preferred: MetricCounts,
    pub exploration: MetricCounts,
}

pub type CountsView = (int, int, int, int, int);

pub open spec fn counts_view(c: MetricCounts) -> CountsView {
    (c.exposed as int, c.opened as int, c.effective_reads as int, c.quick_exits as int, c.manual_deletes as int)
}

pub open spec fn plus(a: CountsView, b: CountsView) -> CountsView {
    (a.0 + b.0, a.1 + b.1, a.2 + b.2, a.3 + b.3, a.4 + b.4)
}

pub open spec fn zero_counts() -> CountsView {
    (0, 0, 0, 0, 0)
}

pub open spec fn row_view(r: MetricRow) -> (Seq<char>, Seq<char>, CountsView) {
    (r.algorithm_variant@, r.preference_tier@, counts_view(r.counts))
}

pub open spec fn row_views(rows: Seq<MetricRow>) -> Seq<(Seq<char>, Seq<char>, CountsView)> {
    rows.map_values(|r: MetricRow| row_view(r))
}

/// Which rows a total takes: of one variant or all, of one tier group or all.
pub open spec fn selected(r: (Seq<char>, Seq<char>, CountsView), variant: Option<Seq<char>>, group: Option<bool>) -> bool {
    (match variant {
        Some(v) => r.0 == v,
        None => true,
    }) && (match group {
        Some(exploration) => (r.1 == EXPLORATION_TIER@) == exploration,
        None => true,
    })
}

/// The summed counts of the selected rows.
pub open spec fn total(rows: Seq<(Seq<char>, Seq<char>, CountsView)>, variant: Option<Seq<char>>, group: Option<bool>) -> CountsView
    decreases rows.len(),
{
    if rows.len() == 0 {
        zero_counts()
    } else if selected(rows.last(), variant, group) {
        plus(total(rows.drop_last(), variant, group), rows.last().2)
    } else {
        total(rows.drop_last(), variant, group)
    }
}

/// The split (overall, preferred, exploration) of the rows of one variant,
/// or of all.
pub open spec fn split_of(rows: Seq<(Seq<char>, Seq<char>, CountsView)>, variant: Option<Seq<char>>) -> (CountsView, CountsView, CountsView) {
    (total(rows, variant, None), total(rows, variant, Some(false)), total(rows, variant, Some(true)))
}

pub open spec fn variant_names(s: Seq<(String, MetricSplit)>) -> Seq<Seq<char>> {
    s.map_values(|e: (String, MetricSplit)| e.0@)
}

pub open spec fn split_view(s: MetricSplit) -> (CountsView, CountsView, CountsView) {
    (counts_view(s.overall), counts_view(s.preferred), counts_view(s.exploration))
}

pub open spec fn nonnegative(c: CountsView) -> bool {
    c.0 >= 0 && c.1 >= 0 && c.2 >= 0 && c.3 >= 0 && c.4 >= 0
}

pub open spec fn fits(c: CountsView) -> bool {
    c.0 <= i64::MAX && c.1 <= i64::MAX && c.2 <= i64::MAX && c.3 <= i64::MAX && c.4 <= i64::MAX
}

pub open spec fn at_most(a: CountsView, b: CountsView) -> bool {
    a.0 <= b.0 && a.1 <= b.1 && a.2 <= b.2 && a.3 <= b.3 && a.4 <= b.4
}

/// Counts from the database are never negative.
pub open spec fn rows_nonnegative(rows: Seq<(Seq<char>, Seq<char>, CountsView)>) -> bool {
    forall|i: int| 0 <= i < rows.len() ==> nonnegative(#[trigger] rows[i].2)
}

/// Any selection of rows counts at most what all of them count.
pub proof fn lemma_total_bounded(rows: Seq<(Seq<char>, Seq<char>, CountsView)>, variant: Option<Seq<char>>, group: Option<bool>)
    requires
        rows_nonnegative(rows),
    ensures
        nonnegative(total(rows, variant, group)),
        at_most(total(rows, variant, group), total(rows, None, None)),
    decreases rows.len(),
{
    if rows.len() > 0 {
        let d = rows.drop_last();
        assert(rows_nonnegative(d)) by {
            assert forall|i: int| 0 <= i < d.len() implies nonnegative(#[trigger] d[i].2) by {
                assert(d[i] == rows[i]);
            }
        }
        assert(nonnegative(rows[rows.len() - 1].2));
        lemma_total_bounded(d, variant, group);
    }
}

proof fn lemma_total_take_bounded(rows: Seq<(Seq<char>, Seq<char>, CountsView)>, i: int, variant: Option<Seq<char>>, group: Option<bool>)
    requires
        rows_nonnegative(rows),
        0 <= i <= rows.len(),
    ensures
        at_most(total(rows.take(i), variant, group), total(rows, None, None)),
    decreases rows.len() - i,
{
    if i == rows.len() {
        assert(rows.take(i) =~= rows);
        lemma_total_bounded(rows, variant, group);
    } else {
        lemma_total_take_bounded(rows, i + 1, variant, group);
        let t = rows.take(i + 1);
        assert(t.drop_last() =~= rows.take(i));
        assert(rows_nonnegative(t)) by {
            assert forall|k: int| 0 <= k < t.len() implies nonnegative(#[trigger] t[k].2) by {
                assert(t[k] == rows[k]);
            }
        }
        assert(nonnegative(t.last().2)) by {
            assert(t.last() == rows[i]);
        }
        lemma_total_bounded(t.drop_last(), variant, group);
    }
}

fn add_counts(target: &mut MetricCounts, source: &MetricCounts)
    requires
        fits(plus(counts_view(*old(target)), counts_view(*source))),
        nonnegative(counts_view(*old(target))),
        nonnegative(counts_view(*source)),
    ensures
        counts_view(*final(target)) == plus(counts_view(*old(target)), counts_view(*source)),
{
    target.exposed = target.exposed + source.exposed;
    target.opened = target.opened + source.opened;
    target.effective_reads = target.effective_reads + source.effective_reads;
    target.quick_exits = target.quick_exits + source.quick_exits;
    target.manual_deletes = target.manual_deletes + source.manual_deletes;
}

fn no_counts() -> (r: MetricCounts)
    ensures
        counts_view(r) == zero_counts(),
{
    MetricCounts { exposed: 0, opened: 0, effective_reads: 0, quick_exits: 0, manual_deletes: 0 }
}

fn no_split() -> (r: MetricSplit)
    ensures
        split_view(r) == (zero_counts(), zero_counts(), zero_counts()),
{
    MetricSplit { overall: no_counts(), preferred: no_counts(), exploration: no_counts() }
}

/// Adds one row to a split, under its tier.
fn add_row(split: &mut MetricSplit, exploration: bool, counts: &MetricCounts)
    requires
        nonnegative(counts_view(*counts)),
        nonnegative(counts_view(old(split).overall)),
        nonnegative(counts_view(old(split).preferred)),
        nonnegative(counts_view(old(split).exploration)),
        fits(plus(counts_view(old(split).overall), counts_view(*counts))),
        at_most(counts_view(old(split).preferred), counts_view(old(split).overall)),
        at_most(counts_view(old(split).exploration), counts_view(old(split).overall)),
    ensures
        split_view(*final(split)) == (
            plus(split_view(*old(split)).0, counts_view(*counts)),
            if exploration {
                split_view(*old(split)).1
            } else {
                plus(split_view(*old(split)).1, counts_view(*counts))
            },
            if exploration {
                plus(split_view(*old(split)).2, counts_view(*counts))
            } else {
                split_view(*old(split)).2
            },
        ),
{
    add_counts(&mut split.overall, counts);
    if exploration {
        add_counts(&mut split.exploration, counts);
    } else {
        add_counts(&mut split.preferred, counts);
    }
}

proof fn lemma_total_step(rows: Seq<(Seq<char>, Seq<char>, CountsView)>, i: int, variant: Option<Seq<char>>, group: Option<bool>)
    requires
        0 <= i < rows.len(),
    ensures
        total(rows.take(i + 1), variant, group) == if selected(rows[i], variant, group) {
            plus(total(rows.take(i), variant, group), rows[i].2)
        } else {
            total(rows.take(i), variant, group)
        },
{
    assert(rows.take(i + 1).drop_last() =~= rows.take(i));
    assert(rows.take(i + 1).last() == rows[i]);
}

/// The counts of all rows, split by tier, and per algorithm variant in
/// variant order.
pub fn tally_metrics(rows: &Vec<MetricRow>) -> (r: (MetricSplit, Vec<(String, MetricSplit)>))
    requires
        rows_nonnegative(row_views(rows@)),
        fits(total(row_views(rows@), None, None)),
    ensures
        split_view(r.0) == split_of(row_views(rows@), None),
        strictly_sorted(variant_names(r.1@)),
        forall|v: Seq<char>| #[trigger]
            variant_names(r.1@).contains(v) <==> exists|i: int|
                0 <= i < rows@.len() && rows@[i].algorithm_variant@ == v,
        forall|k: int| 0 <= k < r.1@.len() ==> split_view(#[trigger] r.1@[k].1) == split_of(row_views(rows@), Some(r.1@[k].0@)),
{
    let ghost rv = row_views(rows@);
    let mut all = no_split();
    let mut names: Vec<String> = Vec::new();
    let mut splits: Vec<MetricSplit> = Vec::new();
    let mut i: usize = 0;
    while i < rows.len()
        invariant
            i <= rows@.len(),
            rv == row_views(rows@),
            rows_nonnegative(rv),
            fits(total(rv, None, None)),
            split_view(all) == split_of(rv.take(i as int), None),
            names@.len() == splits@.len(),
            strictly_sorted(strings_of(names@)),
            forall|v: Seq<char>| #[trigger]
                strings_of(names@).contains(v) <==> exists|j: int| 0 <= j < i && rows@[j].algorithm_variant@ == v,
            forall|k: int| 0 <= k < names@.len() ==> split_view(#[trigger] splits@[k]) == split_of(rv.take(i as int), Some(names@[k]@)),
        decreases rows@.len() - i,
    {
        let row = &rows[i];
        let exploration = str_eq(row.preference_tier.as_str(), EXPLORATION_TIER);
        proof {
            assert(rv[i as int] == row_view(rows@[i as int]));
            assert(nonnegative(rv[i as int].2));
            lemma_total_step(rv, i as int, None, None);
            lemma_total_step(rv, i as int, None, Some(false));
            lemma_total_step(rv, i as int, None, Some(true));
            lemma_total_take_bounded(rv, i + 1, None, None);
            lemma_total_bounded(rv.take(i as int), None, None);
            lemma_total_bounded(rv.take(i as int), None, Some(false));
            lemma_total_bounded(rv.take(i as int), None, Some(true));
            assert(rows_nonnegative(rv.take(i as int))) by {
                assert forall|k: int| 0 <= k < i implies nonnegative(#[trigger] rv.take(i as int)[k].2) by {
                    assert(rv.take(i as int)[k] == rv[k]);
                }
            }
            lemma_group_within_variant(rv.take(i as int), None);
        }
        add_row(&mut all, exploration, &row.counts);
        let ghost names_before = names@;
        let ghost splits_before = splits@;
        match find_sorted(&names, row.algorithm_variant.as_str()) {
            Ok(at) => {
                let mut split = splits[at];
                proof {
                    let v = names@[at as int]@;
                    assert(split_view(split) == split_of(rv.take(i as int), Some(v)));
                    lemma_total_step(rv, i as int, Some(v), None);
                    lemma_total_step(rv, i as int, Some(v), Some(false));
                    lemma_total_step(rv, i as int, Some(v), Some(true));
                    lemma_total_take_bounded(rv, i + 1, Some(v), None);
                    assert(rows_nonnegative(rv.take(i as int))) by {
                        assert forall|k: int| 0 <= k < i implies nonnegative(#[trigger] rv.take(i as int)[k].2) by {
                            assert(rv.take(i as int)[k] == rv[k]);
                        }
                    }
                    lemma_total_bounded(rv.take(i as int), Some(v), None);
                    lemma_total_bounded(rv.take(i as int), Some(v), Some(false));
                    lemma_total_bounded(rv.take(i as int), Some(v), Some(true));
                    lemma_group_within_variant(rv.take(i as int), Some(v));
                }
                add_row(&mut split, exploration, &row.counts);
                splits.set(at, split);
                proof {
                    assert forall|k: int| 0 <= k < names@.len() implies split_view(#[trigger] splits@[k]) == split_of(
                        rv.take(i + 1),
                        Some(names@[k]@),
                    ) by {
                        let w = names@[k]@;
                        lemma_total_step(rv, i as int, Some(w), None);
                        lemma_total_step(rv, i as int, Some(w), Some(false));
                        lemma_total_step(rv, i as int, Some(w), Some(true));
                        if k != at {
                            assert(strings_of(names@)[k] == w && strings_of(names@)[at as int] == names@[at as int]@);
                            crate::ordered::lemma_lex_irreflexive(w);
                            assert(w != names@[at as int]@);
                        }
                    }
                    assert forall|v: Seq<char>| #[trigger]
                        strings_of(names@).contains(v) <==> exists|j: int| 0 <= j < i + 1 && rows@[j].algorithm_variant@ == v by {
                        if v == rows@[i as int].algorithm_variant@ {
                            assert(strings_of(names@)[at as int] == v);
                        }
                    }
                }
            },
            Err(at) => {
                let mut split = no_split();
                proof {
                    let v = rows@[i as int].algorithm_variant@;
                    assert(!strings_of(names@).contains(v)) by {
                        if strings_of(names@).contains(v) {
                            let k = choose|k: int| 0 <= k < strings_of(names@).len() && strings_of(names@)[k] == v;
                            crate::ordered::lemma_lex_irreflexive(v);
                            if k < at {
                                assert(lex_lt(names@[k]@, v));
                            } else {
                                assert(lex_lt(v, names@[k]@));
                            }
                        }
                    }
                    assert forall|j: int| 0 <= j < rv.take(i as int).len() implies (#[trigger] rv.take(i as int)[j]).0 != v by {
                        assert(rv.take(i as int)[j] == rv[j]);
                        assert(rv[j] == row_view(rows@[j]));
                        if rows@[j].algorithm_variant@ == v {
                            assert(strings_of(names_before).contains(v));
                        }
                    }
                    lemma_total_none_of_variant(rv.take(i as int), v);
                    assert(nonnegative(rv[i as int].2));
                    lemma_total_take_bounded(rv, i + 1, None, None);
                    lemma_total_step(rv, i as int, None, None);
                }
                add_row(&mut split, exploration, &row.counts);
                let name = row.algorithm_variant.clone();
                names.insert(at, name);
                splits.insert(at, split);
                proof {
                    let v = rows@[i as int].algorithm_variant@;
                    let s0 = strings_of(names_before);
                    let s1 = strings_of(names@);
                    assert(s1 =~= s0.insert(at as int, v));
                    assert forall|p: int, q: int| 0 <= p < q < s1.len() implies lex_lt(#[trigger] s1[p], #[trigger] s1[q]) by {
                        if q < at {
                            assert(s1[p] == s0[p] && s1[q] == s0[q]);
                        } else if q == at {
                            assert(s1[p] == s0[p]);
                            assert(s0[p] == names_before[p]@);
                        } else if p == at {
                            assert(s1[q] == s0[q - 1]);
                            assert(s0[q - 1] == names_before[q - 1]@);
                        } else if p < at {
                            assert(s1[p] == s0[p] && s1[q] == s0[q - 1]);
                        } else {
                            assert(s1[p] == s0[p - 1] && s1[q] == s0[q - 1]);
                        }
                    }
                    assert forall|w: Seq<char>| #[trigger] s1.contains(w) <==> exists|j: int|
                        0 <= j < i + 1 && rows@[j].algorithm_variant@ == w by {
                        if s1.contains(w) {
                            let k = choose|k: int| 0 <= k < s1.len() && s1[k] == w;
                            if k < at {
                                assert(s0[k] == w);
                            } else if k > at {
                                assert(s0[k - 1] == w);
                            }
                            if w == v {
                                assert(rows@[i as int].algorithm_variant@ == w);
                            } else {
                                assert(s0.contains(w));
                                let j = choose|j: int| 0 <= j < i && rows@[j].algorithm_variant@ == w;
                                assert(0 <= j < i + 1 && rows@[j].algorithm_variant@ == w);
                            }
                        }
                        if exists|j: int| 0 <= j < i + 1 && rows@[j].algorithm_variant@ == w {
                            if w == v {
                                assert(s1[at as int] == w);
                            } else {
                                let j = choose|j: int| 0 <= j < i + 1 && rows@[j].algorithm_variant@ == w;
                                assert(j != i);
                                assert(s0.contains(w));
                                let k = choose|k: int| 0 <= k < s0.len() && s0[k] == w;
                                if k < at {
                                    assert(s1[k] == w);
                                } else {
                                    assert(s1[k + 1] == w);
                                }
                            }
                        }
                    }
                    assert forall|k: int| 0 <= k < names@.len() implies split_view(#[trigger] splits@[k]) == split_of(
                        rv.take(i + 1),
                        Some(names@[k]@),
                    ) by {
                        let w = names@[k]@;
                        lemma_total_step(rv, i as int, Some(w), None);
                        lemma_total_step(rv, i as int, Some(w), Some(false));
                        lemma_total_step(rv, i as int, Some(w), Some(true));
                        if k == at {
                            lemma_total_none_of_variant(rv.take(i as int), v);
                        } else {
                            let kb = if k < at { k } else { k - 1 };
                            assert(names@[k] == names_before[kb] && splits@[k] == splits_before[kb]);
                            assert(s0[kb] == w);
                            assert(w != v);
                        }
                    }
                }
            },
        }
        i = i + 1;
    }
    proof {
        assert(rv.take(rows@.len() as int) =~= rv);
        assert(strings_of(names@) =~= names@.map_values(|s: String| s@));
    }
    let mut by_variant: Vec<(String, MetricSplit)> = Vec::new();
    let mut k: usize = 0;
    while k < names.len()
        invariant
            k <= names@.len(),
            names@.len() == splits@.len(),
            by_variant@.len() == k,
            forall|m: int| 0 <= m < k ==> (#[trigger] by_variant@[m]).0@ == names@[m]@ && by_variant@[m].1 == splits@[m],
        decreases names@.len() - k,
    {
        by_variant.push((names[k].clone(), splits[k]));
        k = k + 1;
    }
    proof {
        assert(variant_names(by_variant@) =~= strings_of(names@));
    }
    (all, by_variant)
}

/// A variant's tier groups count at most what the variant counts.
proof fn lemma_group_within_variant(rows: Seq<(Seq<char>, Seq<char>, CountsView)>, v: Option<Seq<char>>)
    requires
        rows_nonnegative(rows),
    ensures
        at_most(total(rows, v, Some(false)), total(rows, v, None)),
        at_most(total(rows, v, Some(true)), total(rows, v, None)),
    decreases rows.len(),
{
    if rows.len() > 0 {
        let d = rows.drop_last();
        assert(rows_nonnegative(d)) by {
            assert forall|i: int| 0 <= i < d.len() implies nonnegative(#[trigger] d[i].2) by {
                assert(d[i] == rows[i]);
            }
        }
        assert(nonnegative(rows[rows.len() - 1].2));
        lemma_group_within_variant(d, v);
    }
}

/// Rows of other variants add nothing to a variant's totals.
proof fn lemma_total_none_of_variant(rows: Seq<(Seq<char>, Seq<char>, CountsView)>, v: Seq<char>)
    requires
        forall|j: int| 0 <= j < rows.len() ==> (#[trigger] rows[j]).0 != v,
    ensures
        total(rows, Some(v), None) == zero_counts(),
        total(rows, Some(v), Some(false)) == zero_counts(),
        total(rows, Some(v), Some(true)) == zero_counts(),
    decreases rows.len(),
{
    if rows.len() > 0 {
        let d = rows.drop_last();
        assert forall|j: int| 0 <= j < d.len() implies (#[trigger] d[j]).0 != v by {
            assert(d[j] == rows[j]);
        }
        lemma_total_none_of_variant(d, v);
        assert(rows.last().0 != v);
    }
}


// ---------------------------------------------------------------------------
// Distinct topics
// ---------------------------------------------------------------------------
/// A group of topics under an algorithm variant: the candidate or the
/// exploration topics of a session, or the topics of a shown item.
pub open spec fn group_views(groups: Seq<(String, Vec<String>)>) -> Seq<(Seq<char>, Seq<Seq<char>>)> {
    groups.map_values(|g: (String, Vec<String>)| (g.0@, strings_of(g.1@)))
}

pub open spec fn variant_matches(v: Seq<char>, variant: Option<Seq<char>>) -> bool {
    match variant {
        Some(w) => v == w,
        None => true,
    }
}

/// Topic `t` is in some group (of the variant, if one is given).
pub open spec fn group_has(groups: Seq<(Seq<char>, Seq<Seq<char>>)>, variant: Option<Seq<char>>, t: Seq<char>) -> bool {
    exists|g: int| 0 <= g < groups.len() && variant_matches(groups[g].0, variant) && (#[trigger] groups[g].1).contains(t)
}

pub open spec fn has_variant(groups: Seq<(Seq<char>, Seq<Seq<char>>)>, v: Seq<char>) -> bool {
    exists|g: int| 0 <= g < groups.len() && (#[trigger] groups[g]).0 == v
}

/// `s` lists exactly the topics for which `p` holds, in order, each once.
pub open spec fn lists_exactly(s: Seq<Seq<char>>, p: spec_fn(Seq<char>) -> bool) -> bool {
    &&& strictly_sorted(s)
    &&& forall|t: Seq<char>| #[trigger] s.contains(t) <==> p(t)
}

/// A sorted list without duplicates has as many elements as its set.
pub proof fn lemma_distinct_count(s: Seq<Seq<char>>)
    requires
        strictly_sorted(s),
    ensures
        s.len() == s.to_set().len(),
{
    assert(s.no_duplicates()) by {
        assert forall|i: int, j: int| 0 <= i < s.len() && 0 <= j < s.len() && i != j implies s[i] != s[j] by {
            crate::ordered::lemma_lex_irreflexive(s[i]);
            if i < j {
                assert(lex_lt(s[i], s[j]));
            } else {
                assert(lex_lt(s[j], s[i]));
            }
        }
    }
    s.unique_seq_to_set();
}

/// Adds every topic of `topics` to the sorted list `v`.
fn add_all(v: &mut Vec<String>, topics: &Vec<String>)
    requires
        strictly_sorted(strings_of(old(v)@)),
    ensures
        strictly_sorted(strings_of(final(v)@)),
        forall|t: Seq<char>| #[trigger]
            strings_of(final(v)@).contains(t) <==> strings_of(old(v)@).contains(t) || strings_of(topics@).contains(t),
{
    let ghost start = strings_of(v@);
    let mut j: usize = 0;
    while j < topics.len()
        invariant
            j <= topics@.len(),
            strictly_sorted(strings_of(v@)),
            forall|t: Seq<char>| #[trigger]
                strings_of(v@).contains(t) <==> start.contains(t) || strings_of(topics@).take(j as int).contains(t),
        decreases topics@.len() - j,
    {
        let ghost before = strings_of(v@);
        insert_sorted(v, topics[j].clone());
        proof {
            let tj = strings_of(topics@).take(j + 1);
            assert(tj =~= strings_of(topics@).take(j as int).push(topics@[j as int]@));
            assert forall|t: Seq<char>| #[trigger]
                strings_of(v@).contains(t) <==> start.contains(t) || tj.contains(t) by {
                if tj.contains(t) && t != topics@[j as int]@ {
                    let k = choose|k: int| 0 <= k < tj.len() && tj[k] == t;
                    assert(strings_of(topics@).take(j as int)[k] == t);
                }
                if strings_of(topics@).take(j as int).contains(t) {
                    let k = choose|k: int| 0 <= k < j && strings_of(topics@).take(j as int)[k] == t;
                    assert(tj[k] == t);
                }
                if t == topics@[j as int]@ {
                    assert(tj[j as int] == t);
                }
            }
        }
        j = j + 1;
    }
    proof {
        assert(strings_of(topics@).take(topics@.len() as int) =~= strings_of(topics@));
    }
}

proof fn lemma_group_has_step(groups: Seq<(Seq<char>, Seq<Seq<char>>)>, i: int, variant: Option<Seq<char>>, t: Seq<char>)
    requires
        0 <= i < groups.len(),
    ensures
        group_has(groups.take(i + 1), variant, t) <==> group_has(groups.take(i), variant, t) || (variant_matches(
            groups[i].0,
            variant,
        ) && groups[i].1.contains(t)),
{
    let a = groups.take(i + 1);
    let b = groups.take(i);
    if group_has(a, variant, t) {
        let g = choose|g: int| 0 <= g < a.len() && variant_matches(a[g].0, variant) && (#[trigger] a[g].1).contains(t);
        if g < i {
            assert(b[g] == a[g]);
        }
    }
    if group_has(b, variant, t) {
        let g = choose|g: int| 0 <= g < b.len() && variant_matches(b[g].0, variant) && (#[trigger] b[g].1).contains(t);
        assert(a[g] == b[g]);
    }
    if variant_matches(groups[i].0, variant) && groups[i].1.contains(t) {
        assert(a[i] == groups[i]);
    }
}

proof fn lemma_has_variant_step(groups: Seq<(Seq<char>, Seq<Seq<char>>)>, i: int, v: Seq<char>)
    requires
        0 <= i < groups.len(),
    ensures
        has_variant(groups.take(i + 1), v) <==> has_variant(groups.take(i), v) || groups[i].0 == v,
{
    let a = groups.take(i + 1);
    let b = groups.take(i);
    if has_variant(a, v) {
        let g = choose|g: int| 0 <= g < a.len() && (#[trigger] a[g]).0 == v;
        if g < i {
            assert(b[g] == a[g]);
        }
    }
    if has_variant(b, v) {
        let g = choose|g: int| 0 <= g < b.len() && (#[trigger] b[g]).0 == v;
        assert(a[g] == b[g]);
    }
    if groups[i].0 == v {
        assert(a[i] == groups[i]);
    }
}

/// The distinct topics of all groups, and per variant (in variant order) the
/// distinct topics of its groups.
pub fn collect_topics(groups: &Vec<(String, Vec<String>)>) -> (r: (Vec<String>, Vec<String>, Vec<Vec<String>>))
    ensures
        lists_exactly(strings_of(r.0@), |t: Seq<char>| group_has(group_views(groups@), None, t)),
        lists_exactly(strings_of(r.1@), |v: Seq<char>| has_variant(group_views(groups@), v)),
        r.1@.len() == r.2@.len(),
        forall|k: int| 0 <= k < r.2@.len() ==> lists_exactly(
            strings_of(#[trigger] r.2@[k]@),
            |t: Seq<char>| group_has(group_views(groups@), Some(r.1@[k]@), t),
        ),
{
    let ghost gv = group_views(groups@);
    let mut all: Vec<String> = Vec::new();
    let mut names: Vec<String> = Vec::new();
    let mut lists: Vec<Vec<String>> = Vec::new();
    let mut i: usize = 0;
    while i < groups.len()
        invariant
            i <= groups@.len(),
            gv == group_views(groups@),
            strictly_sorted(strings_of(all@)),
            forall|t: Seq<char>| #[trigger] strings_of(all@).contains(t) <==> group_has(gv.take(i as int), None, t),
            strictly_sorted(strings_of(names@)),
            forall|v: Seq<char>| #[trigger] strings_of(names@).contains(v) <==> has_variant(gv.take(i as int), v),
            names@.len() == lists@.len(),
            forall|k: int| 0 <= k < lists@.len() ==> strictly_sorted(strings_of(#[trigger] lists@[k]@)),
            forall|k: int, t: Seq<char>|
                0 <= k < lists@.len() ==> (#[trigger] strings_of(lists@[k]@).contains(t) <==> group_has(
                    gv.take(i as int),
                    Some(names@[k]@),
                    t,
                )),
        decreases groups@.len() - i,
    {
        proof {
            assert(gv[i as int] == (groups@[i as int].0@, strings_of(groups@[i as int].1@)));
        }
        add_all(&mut all, &groups[i].1);
        proof {
            assert forall|t: Seq<char>| #[trigger] strings_of(all@).contains(t) <==> group_has(gv.take(i + 1), None, t) by {
                lemma_group_has_step(gv, i as int, None, t);
            }
        }
        let ghost names_before = names@;
        let ghost lists_before = lists@;
        match find_sorted(&names, groups[i].0.as_str()) {
            Ok(at) => {
                let mut l = lists.remove(at);
                add_all(&mut l, &groups[i].1);
                lists.insert(at, l);
                proof {
                    assert(lists@ =~= lists_before.update(at as int, l));
                    assert forall|k: int, t: Seq<char>|
                        0 <= k < lists@.len() implies (#[trigger] strings_of(lists@[k]@).contains(t) <==> group_has(
                        gv.take(i + 1),
                        Some(names@[k]@),
                        t,
                    )) by {
                        lemma_group_has_step(gv, i as int, Some(names@[k]@), t);
                        if k != at {
                            assert(strings_of(names@)[k] == names@[k]@);
                            assert(strings_of(names@)[at as int] == names@[at as int]@);
                            crate::ordered::lemma_lex_irreflexive(names@[k]@);
                        }
                    }
                    assert forall|v: Seq<char>| #[trigger] strings_of(names@).contains(v) <==> has_variant(gv.take(i + 1), v) by {
                        lemma_has_variant_step(gv, i as int, v);
                        if v == gv[i as int].0 {
                            assert(strings_of(names@)[at as int] == v);
                        }
                    }
                }
            },
            Err(at) => {
                let mut l: Vec<String> = Vec::new();
                add_all(&mut l, &groups[i].1);
                names.insert(at, groups[i].0.clone());
                lists.insert(at, l);
                proof {
                    let v = gv[i as int].0;
                    let s0 = strings_of(names_before);
                    let s1 = strings_of(names@);
                    assert(s1 =~= s0.insert(at as int, v));
                    assert(!s0.contains(v)) by {
                        if s0.contains(v) {
                            let k = choose|k: int| 0 <= k < s0.len() && s0[k] == v;
                            crate::ordered::lemma_lex_irreflexive(v);
                            if k < at {
                                assert(lex_lt(names_before[k]@, v));
                            } else {
                                assert(lex_lt(v, names_before[k]@));
                            }
                        }
                    }
                    assert forall|p: int, q: int| 0 <= p < q < s1.len() implies lex_lt(#[trigger] s1[p], #[trigger] s1[q]) by {
                        if q < at {
                            assert(s1[p] == s0[p] && s1[q] == s0[q]);
                        } else if q == at {
                            assert(s1[p] == s0[p]);
                            assert(s0[p] == names_before[p]@);
                        } else if p == at {
                            assert(s1[q] == s0[q - 1]);
                            assert(s0[q - 1] == names_before[q - 1]@);
                        } else if p < at {
                            assert(s1[p] == s0[p] && s1[q] == s0[q - 1]);
                        } else {
                            assert(s1[p] == s0[p - 1] && s1[q] == s0[q - 1]);
                        }
                    }
                    assert forall|w: Seq<char>| #[trigger] s1.contains(w) <==> has_variant(gv.take(i + 1), w) by {
                        lemma_has_variant_step(gv, i as int, w);
                        if s1.contains(w) {
                            let k = choose|k: int| 0 <= k < s1.len() && s1[k] == w;
                            if k < at {
                                assert(s0[k] == w);
                            } else if k > at {
                                assert(s0[k - 1] == w);
                            }
                        }
                        if s0.contains(w) {
                            let k = choose|k: int| 0 <= k < s0.len() && s0[k] == w;
                            if k < at {
                                assert(s1[k] == w);
                            } else {
                                assert(s1[k + 1] == w);
                            }
                        }
                        if w == v {
                            assert(s1[at as int] == w);
                        }
                    }
                    assert forall|k: int| 0 <= k < lists@.len() implies strictly_sorted(strings_of(#[trigger] lists@[k]@)) by {
                        if k < at {
                            assert(lists@[k] == lists_before[k]);
                        } else if k > at {
                            assert(lists@[k] == lists_before[k - 1]);
                        }
                    }
                    assert forall|k: int, t: Seq<char>|
                        0 <= k < lists@.len() implies (#[trigger] strings_of(lists@[k]@).contains(t) <==> group_has(
                        gv.take(i + 1),
                        Some(names@[k]@),
                        t,
                    )) by {
                        lemma_group_has_step(gv, i as int, Some(names@[k]@), t);
                        if k == at {
                            assert(!group_has(gv.take(i as int), Some(v), t)) by {
                                if group_has(gv.take(i as int), Some(v), t) {
                                    let g = choose|g: int|
                                        0 <= g < gv.take(i as int).len() && variant_matches(gv.take(i as int)[g].0, Some(v)) && (
                                        #[trigger] gv.take(i as int)[g].1).contains(t);
                                    assert(has_variant(gv.take(i as int), v)) by {
                                        assert(gv.take(i as int)[g].0 == v);
                                    }
                                }
                            }
                        } else {
                            let kb = if k < at { k } else { k - 1 };
                            assert(names@[k] == names_before[kb] && lists@[k] == lists_before[kb]);
                            assert(s0[kb] == names_before[kb]@);
                            assert(names@[k]@ != v);
                        }
                    }
                }
            },
        }
        i = i + 1;
    }
    proof {
        assert(gv.take(groups@.len() as int) =~= gv);
    }
    (all, names, lists)
}


/// The topics of one recommendation session: those it drew candidates from
/// and those it explored.
pub struct SessionTopics {
    pub algorithm_variant: String,
    pub candidate: Vec<String>,
    pub exploration: Vec<String>,
}

/// The topics of one shown item.
pub struct ItemTopics {
    pub algorithm_variant: String,
    pub topics: Vec<String>,
}

/// Distinct topics, each list sorted and without duplicates.
pub struct TopicSets {
    pub candidate: Vec<String>,
    pub exposed: Vec<String>,
    pub exploration: Vec<String>,
}

pub open spec fn set_names(s: Seq<(String, TopicSets)>) -> Seq<Seq<char>> {
    s.map_values(|e: (String, TopicSets)| e.0@)
}

/// The candidate or the exploration topics of a session.
pub open spec fn session_topics(s: SessionTopics, exploration: bool) -> Seq<Seq<char>> {
    if exploration {
        strings_of(s.exploration@)
    } else {
        strings_of(s.candidate@)
    }
}

/// Some session (of the variant) offered topic `t`, as a candidate topic or
/// as an exploration topic.
pub open spec fn offered(sessions: Seq<SessionTopics>, variant: Option<Seq<char>>, exploration: bool, t: Seq<char>) -> bool {
    exists|i: int|
        0 <= i < sessions.len() && variant_matches(sessions[i].algorithm_variant@, variant) && (#[trigger] session_topics(
            sessions[i],
            exploration,
        )).contains(t)
}

/// Some shown item (of the variant) had topic `t`.
pub open spec fn shown(items: Seq<ItemTopics>, variant: Option<Seq<char>>, t: Seq<char>) -> bool {
    exists|i: int| 0 <= i < items.len() && variant_matches(items[i].algorithm_variant@, variant) && strings_of((#[trigger] items[i].topics)@).contains(t)
}

/// Some session or item has variant `v`.
pub open spec fn seen_variant(sessions: Seq<SessionTopics>, items: Seq<ItemTopics>, v: Seq<char>) -> bool {
    (exists|i: int| 0 <= i < sessions.len() && (#[trigger] sessions[i]).algorithm_variant@ == v) || (exists|i: int|
        0 <= i < items.len() && (#[trigger] items[i]).algorithm_variant@ == v)
}

pub open spec fn sets_exact(ts: TopicSets, sessions: Seq<SessionTopics>, items: Seq<ItemTopics>, variant: Option<Seq<char>>) -> bool {
    &&& lists_exactly(strings_of(ts.candidate@), |t: Seq<char>| offered(sessions, variant, false, t))
    &&& lists_exactly(strings_of(ts.exploration@), |t: Seq<char>| offered(sessions, variant, true, t))
    &&& lists_exactly(strings_of(ts.exposed@), |t: Seq<char>| shown(items, variant, t))
}

/// Which list of a session a group takes: 0 the candidate topics, 1 the
/// exploration topics, 2 none.
pub open spec fn session_group(s: SessionTopics, which: int) -> (Seq<char>, Seq<Seq<char>>) {
    (s.algorithm_variant@, if which == 0 {
        session_topics(s, false)
    } else if which == 1 {
        session_topics(s, true)
    } else {
        Seq::empty()
    })
}

pub open spec fn item_group(it: ItemTopics, with_topics: bool) -> (Seq<char>, Seq<Seq<char>>) {
    (it.algorithm_variant@, if with_topics {
        strings_of(it.topics@)
    } else {
        Seq::empty()
    })
}

pub open spec fn groups_of(sessions: Seq<SessionTopics>, items: Seq<ItemTopics>, which: int, with_topics: bool) -> Seq<(Seq<char>, Seq<Seq<char>>)> {
    Seq::new(
        sessions.len() + items.len(),
        |g: int|
            if g < sessions.len() {
                session_group(sessions[g], which)
            } else {
                item_group(items[g - sessions.len()], with_topics)
            },
    )
}

fn build_groups(sessions: &Vec<SessionTopics>, items: &Vec<ItemTopics>, which: u8, with_topics: bool) -> (r: Vec<(String, Vec<String>)>)
    requires
        which <= 2,
    ensures
        group_views(r@) == groups_of(sessions@, items@, which as int, with_topics),
{
    let mut r: Vec<(String, Vec<String>)> = Vec::new();
    let mut i: usize = 0;
    while i < sessions.len()
        invariant
            i <= sessions@.len(),
            which <= 2,
            group_views(r@) =~= groups_of(sessions@, items@, which as int, with_topics).take(i as int),
        decreases sessions@.len() - i,
    {
        let topics = if which == 0 {
            crate::plugin_security::copy_strings(&sessions[i].candidate)
        } else if which == 1 {
            crate::plugin_security::copy_strings(&sessions[i].exploration)
        } else {
            Vec::new()
        };
        proof {
            assert(strings_of(topics@) =~= session_group(sessions@[i as int], which as int).1);
        }
        let name = sessions[i].algorithm_variant.clone();
        let ghost before = r@;
        r.push((name, topics));
        proof {
            assert(group_views(r@) =~= group_views(before).push(session_group(sessions@[i as int], which as int)));
        }
        i = i + 1;
    }
    let mut j: usize = 0;
    while j < items.len()
        invariant
            j <= items@.len(),
            i == sessions@.len(),
            which <= 2,
            group_views(r@) =~= groups_of(sessions@, items@, which as int, with_topics).take(i + j),
        decreases items@.len() - j,
    {
        let topics = if with_topics {
            crate::plugin_security::copy_strings(&items[j].topics)
        } else {
            Vec::new()
        };
        proof {
            assert(strings_of(topics@) =~= item_group(items@[j as int], with_topics).1);
        }
        let name = items[j].algorithm_variant.clone();
        let ghost before = r@;
        r.push((name, topics));
        proof {
            assert(group_views(r@) =~= group_views(before).push(item_group(items@[j as int], with_topics)));
        }
        j = j + 1;
    }
    proof {
        assert(groups_of(sessions@, items@, which as int, with_topics).take(i + j) =~= groups_of(
            sessions@,
            items@,
            which as int,
            with_topics,
        ));
    }
    r
}

proof fn lemma_groups_have(sessions: Seq<SessionTopics>, items: Seq<ItemTopics>, which: int, with_topics: bool, variant: Option<Seq<char>>, t: Seq<char>)
    requires
        0 <= which <= 2,
    ensures
        group_has(groups_of(sessions, items, which, with_topics), variant, t) <==> (which == 0 && offered(
            sessions,
            variant,
            false,
            t,
        )) || (which == 1 && offered(sessions, variant, true, t)) || (with_topics && shown(items, variant, t)),
{
    let gs = groups_of(sessions, items, which, with_topics);
    if group_has(gs, variant, t) {
        let g = choose|g: int| 0 <= g < gs.len() && variant_matches(gs[g].0, variant) && (#[trigger] gs[g].1).contains(t);
        if g < sessions.len() {
            assert(gs[g] == session_group(sessions[g], which));
            assert(which == 0 ==> session_topics(sessions[g], false).contains(t));
            assert(which == 1 ==> session_topics(sessions[g], true).contains(t));
        } else {
            assert(gs[g] == item_group(items[g - sessions.len()], with_topics));
            assert(items[g - sessions.len()].topics == items[g - sessions.len()].topics);
        }
    }
    if which == 0 && offered(sessions, variant, false, t) {
        let i = choose|i: int|
            0 <= i < sessions.len() && variant_matches(sessions[i].algorithm_variant@, variant) && (#[trigger] session_topics(
                sessions[i],
                false,
            )).contains(t);
        assert(gs[i] == session_group(sessions[i], which));
        assert(gs[i].1.contains(t));
    }
    if which == 1 && offered(sessions, variant, true, t) {
        let i = choose|i: int|
            0 <= i < sessions.len() && variant_matches(sessions[i].algorithm_variant@, variant) && (#[trigger] session_topics(
                sessions[i],
                true,
            )).contains(t);
        assert(gs[i] == session_group(sessions[i], which));
        assert(gs[i].1.contains(t));
    }
    if with_topics && shown(items, variant, t) {
        let i = choose|i: int|
            0 <= i < items.len() && variant_matches(items[i].algorithm_variant@, variant) && strings_of(
                (#[trigger] items[i].topics)@,
            ).contains(t);
        let g = sessions.len() + i;
        assert(gs[g] == item_group(items[i], with_topics));
        assert(gs[g].1.contains(t));
    }
}

proof fn lemma_groups_variants(sessions: Seq<SessionTopics>, items: Seq<ItemTopics>, which: int, with_topics: bool, v: Seq<char>)
    ensures
        has_variant(groups_of(sessions, items, which, with_topics), v) <==> seen_variant(sessions, items, v),
{
    let gs = groups_of(sessions, items, which, with_topics);
    if has_variant(gs, v) {
        let g = choose|g: int| 0 <= g < gs.len() && (#[trigger] gs[g]).0 == v;
        if g < sessions.len() {
            assert(sessions[g].algorithm_variant@ == v);
        } else {
            assert(items[g - sessions.len()].algorithm_variant@ == v);
        }
    }
    if exists|i: int| 0 <= i < sessions.len() && (#[trigger] sessions[i]).algorithm_variant@ == v {
        let i = choose|i: int| 0 <= i < sessions.len() && (#[trigger] sessions[i]).algorithm_variant@ == v;
        assert(gs[i].0 == v);
    }
    if exists|i: int| 0 <= i < items.len() && (#[trigger] items[i]).algorithm_variant@ == v {
        let i = choose|i: int| 0 <= i < items.len() && (#[trigger] items[i]).algorithm_variant@ == v;
        assert(gs[sessions.len() + i].0 == v);
    }
}

/// The distinct candidate, shown and exploration topics of all sessions and
/// items, and per algorithm variant (every variant of a session or an item,
/// in variant order) those of its sessions and items.
pub fn topic_coverage(sessions: &Vec<SessionTopics>, items: &Vec<ItemTopics>) -> (r: (TopicSets, Vec<(String, TopicSets)>))
    ensures
        sets_exact(r.0, sessions@, items@, None),
        strictly_sorted(set_names(r.1@)),
        forall|v: Seq<char>| #[trigger]
            set_names(r.1@).contains(v) <==> seen_variant(sessions@, items@, v),
        forall|k: int| 0 <= k < r.1@.len() ==> sets_exact(#[trigger] r.1@[k].1, sessions@, items@, Some(r.1@[k].0@)),
{
    let candidate_groups = build_groups(sessions, items, 0, false);
    let exploration_groups = build_groups(sessions, items, 1, false);
    let exposed_groups = build_groups(sessions, items, 2, true);
    let (cand_all, cand_names, mut cand_lists) = collect_topics(&candidate_groups);
    let (expl_all, expl_names, mut expl_lists) = collect_topics(&exploration_groups);
    let (shown_all, shown_names, mut shown_lists) = collect_topics(&exposed_groups);
    proof {
        assert forall|t: Seq<char>| #[trigger] strings_of(cand_all@).contains(t) <==> offered(sessions@, None, false, t) by {
            lemma_groups_have(sessions@, items@, 0, false, None, t);
        }
        assert forall|t: Seq<char>| #[trigger] strings_of(expl_all@).contains(t) <==> offered(sessions@, None, true, t) by {
            lemma_groups_have(sessions@, items@, 1, false, None, t);
        }
        assert forall|t: Seq<char>| #[trigger] strings_of(shown_all@).contains(t) <==> shown(items@, None, t) by {
            lemma_groups_have(sessions@, items@, 2, true, None, t);
        }
        assert forall|v: Seq<char>| #[trigger] strings_of(cand_names@).contains(v) <==> seen_variant(sessions@, items@, v) by {
            lemma_groups_variants(sessions@, items@, 0, false, v);
        }
        assert forall|v: Seq<char>|
            #![trigger strings_of(expl_names@).contains(v)]
            #![trigger strings_of(cand_names@).contains(v)]
            strings_of(expl_names@).contains(v) <==> strings_of(cand_names@).contains(v) by {
            lemma_groups_variants(sessions@, items@, 1, false, v);
            lemma_groups_variants(sessions@, items@, 0, false, v);
        }
        assert forall|v: Seq<char>|
            #![trigger strings_of(shown_names@).contains(v)]
            #![trigger strings_of(cand_names@).contains(v)]
            strings_of(shown_names@).contains(v) <==> strings_of(cand_names@).contains(v) by {
            lemma_groups_variants(sessions@, items@, 2, true, v);
            lemma_groups_variants(sessions@, items@, 0, false, v);
        }
        crate::ordered::lemma_sorted_list_unique(strings_of(expl_names@), strings_of(cand_names@));
        crate::ordered::lemma_sorted_list_unique(strings_of(shown_names@), strings_of(cand_names@));
    }
    let overall = TopicSets { candidate: cand_all, exposed: shown_all, exploration: expl_all };
    let mut by_variant: Vec<(String, TopicSets)> = Vec::new();
    let mut k: usize = 0;
    while k < cand_names.len()
        invariant
            k <= cand_names@.len(),
            cand_names@.len() == cand_lists@.len(),
            strings_of(expl_names@) == strings_of(cand_names@),
            strings_of(shown_names@) == strings_of(cand_names@),
            expl_names@.len() == expl_lists@.len(),
            shown_names@.len() == shown_lists@.len(),
            candidate_groups@ == candidate_groups@,
            forall|q: int| 0 <= q < cand_lists@.len() ==> lists_exactly(
                strings_of(#[trigger] cand_lists@[q]@),
                |t: Seq<char>| group_has(group_views(candidate_groups@), Some(cand_names@[q]@), t),
            ),
            forall|q: int| 0 <= q < expl_lists@.len() ==> lists_exactly(
                strings_of(#[trigger] expl_lists@[q]@),
                |t: Seq<char>| group_has(group_views(exploration_groups@), Some(expl_names@[q]@), t),
            ),
            forall|q: int| 0 <= q < shown_lists@.len() ==> lists_exactly(
                strings_of(#[trigger] shown_lists@[q]@),
                |t: Seq<char>| group_has(group_views(exposed_groups@), Some(shown_names@[q]@), t),
            ),
            group_views(candidate_groups@) == groups_of(sessions@, items@, 0, false),
            group_views(exploration_groups@) == groups_of(sessions@, items@, 1, false),
            group_views(exposed_groups@) == groups_of(sessions@, items@, 2, true),
            by_variant@.len() == k,
            forall|m: int| 0 <= m < k ==> (#[trigger] by_variant@[m]).0@ == cand_names@[m]@ && sets_exact(
                by_variant@[m].1,
                sessions@,
                items@,
                Some(cand_names@[m]@),
            ),
        decreases cand_names@.len() - k,
    {
        let ghost v = cand_names@[k as int]@;
        proof {
            assert(expl_names@.len() == strings_of(expl_names@).len());
            assert(shown_names@.len() == strings_of(shown_names@).len());
            assert(cand_names@.len() == strings_of(cand_names@).len());
            assert(strings_of(expl_names@)[k as int] == strings_of(cand_names@)[k as int]);
            assert(strings_of(shown_names@)[k as int] == strings_of(cand_names@)[k as int]);
            assert(lists_exactly(
                strings_of(cand_lists@[k as int]@),
                |t: Seq<char>| group_has(group_views(candidate_groups@), Some(cand_names@[k as int]@), t),
            ));
            assert(lists_exactly(
                strings_of(expl_lists@[k as int]@),
                |t: Seq<char>| group_has(group_views(exploration_groups@), Some(expl_names@[k as int]@), t),
            ));
            assert(lists_exactly(
                strings_of(shown_lists@[k as int]@),
                |t: Seq<char>| group_has(group_views(exposed_groups@), Some(shown_names@[k as int]@), t),
            ));
        }
        let c = crate::plugin_security::copy_strings(&cand_lists[k]);
        let e = crate::plugin_security::copy_strings(&expl_lists[k]);
        let x = crate::plugin_security::copy_strings(&shown_lists[k]);
        let sets = TopicSets { candidate: c, exposed: x, exploration: e };
        proof {
            assert forall|t: Seq<char>| #[trigger] strings_of(sets.candidate@).contains(t) <==> offered(sessions@, Some(v), false, t) by {
                lemma_groups_have(sessions@, items@, 0, false, Some(v), t);
            }
            assert forall|t: Seq<char>| #[trigger] strings_of(sets.exploration@).contains(t) <==> offered(sessions@, Some(v), true, t) by {
                lemma_groups_have(sessions@, items@, 1, false, Some(v), t);
            }
            assert forall|t: Seq<char>| #[trigger] strings_of(sets.exposed@).contains(t) <==> shown(items@, Some(v), t) by {
                lemma_groups_have(sessions@, items@, 2, true, Some(v), t);
            }
        }
        by_variant.push((cand_names[k].clone(), sets));
        k = k + 1;
    }
    proof {
        assert(set_names(by_variant@) =~= strings_of(cand_names@));
    }
    (overall, by_variant)
}

} // verus!
