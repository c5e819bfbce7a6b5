//! One-hop, positive-only transfer along published synonym edges: an archive
//! that carries none of the user's seed tags is matched to the strongest edge
//! that leads from a seed to one of its tags.
//!
//! An edge's strength is the seed's strength as an integer rank: the caller
//! maps each strength to a `u64` that orders as the strengths do, so the
//! choice below is exactly the one the strengths make.
use crate::ordered::{lemma_lex_irreflexive, lemma_lex_transitive, lemma_lex_trichotomy, lex_lt, str_lt};
use crate::text::{contains_str, str_eq, strings_of};
use vstd::prelude::*;

verus! {

/// A published edge `tag_a_id`–`tag_b_id` seen from a seed: `target_id` is its
/// other end, `strength` the rank of the seed's strength.
pub struct TransferEdge {
    pub tag_a_id: String,
    pub tag_b_id: String,
    pub target_id: String,
    pub strength: u64,
}

/// Archive number `archive` is matched through edge number `edge`.
#[derive(Clone, Copy, Debug, PartialEq, Eq)]
pub struct ArchiveMatch {
    pub archive: usize,
    pub edge: usize,
}

/// An edge counts when one of its ends is a seed.
pub open spec fn edge_counts(e: TransferEdge, seeds: Seq<Seq<char>>) -> bool {
    seeds.contains(e.tag_a_id@) || seeds.contains(e.tag_b_id@)
}

pub open spec fn carries_seed(tags: Seq<Seq<char>>, seeds: Seq<Seq<char>>) -> bool {
    exists|k: int| 0 <= k < tags.len() && seeds.contains(#[trigger] tags[k])
}

/// The edge leads to one of the archive's tags.
pub open spec fn reaches(tags: Seq<Seq<char>>, seeds: Seq<Seq<char>>, e: TransferEdge) -> bool {
    edge_counts(e, seeds) && tags.contains(e.target_id@)
}

/// `x` is preferred to `y`: stronger, then the smaller first tag, then the
/// smaller second tag.
pub open spec fn outranks(x: TransferEdge, y: TransferEdge) -> bool {
    x.strength > y.strength || (x.strength == y.strength && (lex_lt(x.tag_a_id@, y.tag_a_id@) || (
    x.tag_a_id@ == y.tag_a_id@ && lex_lt(x.tag_b_id@, y.tag_b_id@))))
}

/// Edge `j` is the archive's match: it reaches the archive and none that does
/// is preferred to it.
pub open spec fn best_edge(tags: Seq<Seq<char>>, seeds: Seq<Seq<char>>, edges: Seq<TransferEdge>, j: int) -> bool {
    &&& 0 <= j < edges.len()
    &&& reaches(tags, seeds, edges[j])
    &&& forall|k: int| 0 <= k < edges.len() && reaches(tags, seeds, #[trigger] edges[k]) ==> !outranks(edges[k], edges[j])
}

/// Whether archive `tags` gets a match at all.
pub open spec fn matchable(tags: Seq<Seq<char>>, seeds: Seq<Seq<char>>, edges: Seq<TransferEdge>) -> bool {
    !carries_seed(tags, seeds) && exists|j: int| 0 <= j < edges.len() && reaches(tags, seeds, #[trigger] edges[j])
}

pub open spec fn archive_tags(archives: Seq<Vec<String>>, i: int) -> Seq<Seq<char>> {
    strings_of(archives[i]@)
}

/// Preference among edges is transitive.
pub proof fn lemma_outranks_transitive(x: TransferEdge, y: TransferEdge, z: TransferEdge)
    requires
        outranks(x, y),
        outranks(y, z),
    ensures
        outranks(x, z),
{
    if x.strength == y.strength && y.strength == z.strength {
        lemma_lex_trichotomy(x.tag_a_id@, y.tag_a_id@);
        lemma_lex_trichotomy(y.tag_a_id@, z.tag_a_id@);
        if lex_lt(x.tag_a_id@, y.tag_a_id@) && lex_lt(y.tag_a_id@, z.tag_a_id@) {
            lemma_lex_transitive(x.tag_a_id@, y.tag_a_id@, z.tag_a_id@);
        } else if x.tag_a_id@ == y.tag_a_id@ && y.tag_a_id@ == z.tag_a_id@ {
            lemma_lex_transitive(x.tag_b_id@, y.tag_b_id@, z.tag_b_id@);
        }
    }
}

/// No edge is preferred to itself.
pub proof fn lemma_outranks_irreflexive(x: TransferEdge)
    ensures
        !outranks(x, x),
{
    lemma_lex_irreflexive(x.tag_a_id@);
    lemma_lex_irreflexive(x.tag_b_id@);
}

fn outranks_exec(x: &TransferEdge, y: &TransferEdge) -> (r: bool)
    ensures
        r == outranks(*x, *y),
{
    if x.strength != y.strength {
        x.strength > y.strength
    } else if str_lt(x.tag_a_id.as_str(), y.tag_a_id.as_str()) {
        true
    } else if str_eq(x.tag_a_id.as_str(), y.tag_a_id.as_str()) {
        str_lt(x.tag_b_id.as_str(), y.tag_b_id.as_str())
    } else {
        false
    }
}

fn has_seed(tags: &Vec<String>, seed_ids: &Vec<String>) -> (r: bool)
    ensures
        r == carries_seed(strings_of(tags@), strings_of(seed_ids@)),
{
    let mut k: usize = 0;
    while k < tags.len()
        invariant
            k <= tags@.len(),
            forall|q: int| 0 <= q < k ==> !strings_of(seed_ids@).contains(#[trigger] strings_of(tags@)[q]),
        decreases tags@.len() - k,
    {
        if contains_str(seed_ids, tags[k].as_str()) {
            assert(strings_of(tags@)[k as int] == tags@[k as int]@);
            return true;
        }
        k = k + 1;
    }
    false
}

fn reaches_exec(tags: &Vec<String>, seed_ids: &Vec<String>, e: &TransferEdge) -> (r: bool)
    ensures
        r == reaches(strings_of(tags@), strings_of(seed_ids@), *e),
{
    (contains_str(seed_ids, e.tag_a_id.as_str()) || contains_str(seed_ids, e.tag_b_id.as_str()))
        && contains_str(tags, e.target_id.as_str())
}

/// The best edge for one archive, if any edge reaches it.
fn best_for(tags: &Vec<String>, seed_ids: &Vec<String>, edges: &Vec<TransferEdge>) -> (r: Option<usize>)
    ensures
        match r {
            Some(j) => best_edge(strings_of(tags@), strings_of(seed_ids@), edges@, j as int),
            None => forall|k: int| 0 <= k < edges@.len() ==> !reaches(strings_of(tags@), strings_of(seed_ids@), #[trigger] edges@[k]),
        },
{
    let ghost t = strings_of(tags@);
    let ghost s = strings_of(seed_ids@);
    let mut best: Option<usize> = None;
    let mut j: usize = 0;
    while j < edges.len()
        invariant
            j <= edges@.len(),
            t == strings_of(tags@),
            s == strings_of(seed_ids@),
            match best {
                Some(b) => b < j && reaches(t, s, edges@[b as int]) && forall|k: int|
                    0 <= k < j && reaches(t, s, #[trigger] edges@[k]) ==> !outranks(edges@[k], edges@[b as int]),
                None => forall|k: int| 0 <= k < j ==> !reaches(t, s, #[trigger] edges@[k]),
            },
        decreases edges@.len() - j,
    {
        if reaches_exec(tags, seed_ids, &edges[j]) {
            match best {
                None => {
                    proof {
                        lemma_outranks_irreflexive(edges@[j as int]);
                    }
                    best = Some(j);
                },
                Some(b) => {
                    if outranks_exec(&edges[j], &edges[b]) {
                        proof {
                            lemma_outranks_irreflexive(edges@[j as int]);
                            assert forall|k: int| 0 <= k < j + 1 && reaches(t, s, #[trigger] edges@[k]) implies !outranks(
                                edges@[k],
                                edges@[j as int],
                            ) by {
                                if k < j && outranks(edges@[k], edges@[j as int]) {
                                    lemma_outranks_transitive(edges@[k], edges@[j as int], edges@[b as int]);
                                }
                            }
                        }
                        best = Some(j);
                    }
                },
            }
        }
        j = j + 1;
    }
    best
}

/// Matches each archive (given by its tag ids) that carries no seed tag to its
/// best edge; archives are listed in order, each at most once.
pub fn match_archives(archives: &Vec<Vec<String>>, seed_ids: &Vec<String>, edges: &Vec<TransferEdge>) -> (r: Vec<ArchiveMatch>)
    ensures
        forall|m: int| 0 <= m < r@.len() ==> {
            let x = #[trigger] r@[m];
            &&& x.archive < archives@.len()
            &&& !carries_seed(archive_tags(archives@, x.archive as int), strings_of(seed_ids@))
            &&& best_edge(archive_tags(archives@, x.archive as int), strings_of(seed_ids@), edges@, x.edge as int)
        },
        forall|m: int, n: int| 0 <= m < n < r@.len() ==> #[trigger] r@[m].archive < #[trigger] r@[n].archive,
        forall|i: int| 0 <= i < archives@.len() ==> (exists|m: int| 0 <= m < r@.len() && #[trigger] r@[m].archive == i)
            == matchable(archive_tags(archives@, i), strings_of(seed_ids@), edges@),
{
    let ghost s = strings_of(seed_ids@);
    let mut r: Vec<ArchiveMatch> = Vec::new();
    let mut i: usize = 0;
    while i < archives.len()
        invariant
            i <= archives@.len(),
            s == strings_of(seed_ids@),
            forall|m: int| 0 <= m < r@.len() ==> {
                let x = #[trigger] r@[m];
                &&& x.archive < i
                &&& !carries_seed(archive_tags(archives@, x.archive as int), s)
                &&& best_edge(archive_tags(archives@, x.archive as int), s, edges@, x.edge as int)
            },
            forall|m: int, n: int| 0 <= m < n < r@.len() ==> #[trigger] r@[m].archive < #[trigger] r@[n].archive,
            forall|q: int| 0 <= q < i ==> (exists|m: int| 0 <= m < r@.len() && #[trigger] r@[m].archive == q)
                == matchable(archive_tags(archives@, q), s, edges@),
        decreases archives@.len() - i,
    {
        let ghost before = r@;
        let ghost t = archive_tags(archives@, i as int);
        if !has_seed(&archives[i], seed_ids) {
            match best_for(&archives[i], seed_ids, edges) {
                Some(j) => {
                    r.push(ArchiveMatch { archive: i, edge: j });
                    proof {
                        assert(r@[before.len() as int].archive == i);
                        assert forall|q: int| 0 <= q < i + 1 implies (exists|m: int|
                            0 <= m < r@.len() && #[trigger] r@[m].archive == q) == matchable(archive_tags(archives@, q), s, edges@) by {
                            if q < i {
                                if exists|m: int| 0 <= m < before.len() && #[trigger] before[m].archive == q {
                                    let m = choose|m: int| 0 <= m < before.len() && #[trigger] before[m].archive == q;
                                    assert(r@[m].archive == q);
                                }
                                if exists|m: int| 0 <= m < r@.len() && #[trigger] r@[m].archive == q {
                                    let m = choose|m: int| 0 <= m < r@.len() && #[trigger] r@[m].archive == q;
                                    assert(m < before.len());
                                    assert(before[m].archive == q);
                                }
                            } else {
                                assert(edges@[j as int] == edges@[j as int]);
                            }
                        }
                    }
                },
                None => {
                    proof {
                        assert forall|q: int| 0 <= q < i + 1 implies (exists|m: int|
                            0 <= m < r@.len() && #[trigger] r@[m].archive == q) == matchable(archive_tags(archives@, q), s, edges@) by {
                            if q == i {
                                assert(!(exists|m: int| 0 <= m < r@.len() && #[trigger] r@[m].archive == q));
                            }
                        }
                    }
                },
            }
        } else {
            proof {
                assert forall|q: int| 0 <= q < i + 1 implies (exists|m: int|
                    0 <= m < r@.len() && #[trigger] r@[m].archive == q) == matchable(archive_tags(archives@, q), s, edges@) by {
                    if q == i {
                        assert(!(exists|m: int| 0 <= m < r@.len() && #[trigger] r@[m].archive == q));
                    }
                }
            }
        }
        i = i + 1;
    }
    r
}

} // verus!
