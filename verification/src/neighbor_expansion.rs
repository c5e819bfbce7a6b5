//! Expanding seed tags to their co-occurrence neighbors for candidate
//! recall: each neighbor once, never a seed, ranked by its best edge (score,
//! then support, highest first; then by id) and cut at a limit.
//!
//! An edge's score is its Jaccard index as an integer rank that orders as the
//! indices do, so the ranking is exactly the one the indices give.
use crate::ordered::{find_sorted, lemma_lex_irreflexive, lemma_lex_transitive, lemma_lex_trichotomy, lex_lt, strictly_sorted};
use crate::text::{contains_str, strings_of};
use vstd::prelude::*;

verus! {

/// A stored co-occurrence edge between two tags, with its score rank and its
/// support (the archives carrying both tags).
pub struct ScoredEdge {
    pub tag_a_id: String,
    pub tag_b_id: String,
    pub score: u64,
    pub support: i64,
}

pub open spec fn scored_views(edges: Seq<ScoredEdge>) -> Seq<(Seq<char>, Seq<char>, u64, i64)> {
    edges.map_values(|e: ScoredEdge| (e.tag_a_id@, e.tag_b_id@, e.score, e.support))
}

/// The other end of an edge seen from the seeds: its second tag when the
/// first is a seed, else its first.
pub open spec fn neighbor_of(e: (Seq<char>, Seq<char>, u64, i64), seeds: Seq<Seq<char>>) -> Seq<char> {
    if seeds.contains(e.0) {
        e.1
    } else {
        e.0
    }
}

/// `(score, support)` pairs compared highest first.
pub open spec fn rank_gt(x: (u64, i64), y: (u64, i64)) -> bool {
    x.0 > y.0 || (x.0 == y.0 && x.1 > y.1)
}

/// The best (score, support) of each neighbor that is not a seed.
pub open spec fn best_ranks(edges: Seq<(Seq<char>, Seq<char>, u64, i64)>, seeds: Seq<Seq<char>>) -> Map<Seq<char>, (u64, i64)>
    decreases edges.len(),
{
    if edges.len() == 0 {
        Map::empty()
    } else {
        let m = best_ranks(edges.drop_last(), seeds);
        let e = edges.last();
        let n = neighbor_of(e, seeds);
        if seeds.contains(n) {
            m
        } else if !m.dom().contains(n) || rank_gt((e.2, e.3), m[n]) {
            m.insert(n, (e.2, e.3))
        } else {
            m
        }
    }
}

/// Neighbor `x` comes before `y`: a better rank, or the same and a smaller id.
pub open spec fn comes_before(m: Map<Seq<char>, (u64, i64)>, x: Seq<char>, y: Seq<char>) -> bool {
    rank_gt(m[x], m[y]) || (m[x] == m[y] && lex_lt(x, y))
}

pub proof fn lemma_comes_before_order(m: Map<Seq<char>, (u64, i64)>, x: Seq<char>, y: Seq<char>, z: Seq<char>)
    ensures
        !comes_before(m, x, x),
        x != y ==> comes_before(m, x, y) || comes_before(m, y, x),
        !(comes_before(m, x, y) && comes_before(m, y, x)),
        comes_before(m, x, y) && comes_before(m, y, z) ==> comes_before(m, x, z),
{
    lemma_lex_irreflexive(x);
    lemma_lex_trichotomy(x, y);
    if comes_before(m, x, y) && comes_before(m, y, z) {
        if m[x] == m[y] && m[y] == m[z] {
            lemma_lex_transitive(x, y, z);
        }
    }
}

/// The neighbors of the seeds, best first, at most `limit` of them: each
/// listed neighbor comes before the next and before every neighbor left out.
pub open spec fn expansion(edges: Seq<(Seq<char>, Seq<char>, u64, i64)>, seeds: Seq<Seq<char>>, limit: nat, r: Seq<Seq<char>>) -> bool {
    let m = best_ranks(edges, seeds);
    &&& r.len() == if limit < m.dom().len() {
        limit
    } else {
        m.dom().len()
    }
    &&& forall|i: int| 0 <= i < r.len() ==> m.dom().contains(#[trigger] r[i])
    &&& forall|i: int, j: int| 0 <= i < j < r.len() ==> comes_before(m, #[trigger] r[i], #[trigger] r[j])
    &&& forall|i: int, n: Seq<char>| 0 <= i < r.len() && m.dom().contains(n) && !r.contains(n) ==> #[trigger] comes_before(m, r[i], n)
}

/// The neighbors, each with its best rank, sorted by id.
fn neighbor_ranks(seed_ids: &Vec<String>, edges: &Vec<ScoredEdge>) -> (r: (Vec<String>, Vec<(u64, i64)>))
    ensures
        strictly_sorted(strings_of(r.0@)),
        r.0@.len() == r.1@.len(),
        forall|k: Seq<char>| #[trigger] strings_of(r.0@).contains(k) <==> best_ranks(scored_views(edges@), strings_of(seed_ids@)).dom().contains(k),
        forall|i: int| 0 <= i < r.0@.len() ==> best_ranks(scored_views(edges@), strings_of(seed_ids@))[#[trigger] r.0@[i]@] == r.1@[i],
{
    let ghost ev = scored_views(edges@);
    let ghost sv = strings_of(seed_ids@);
    let mut ids: Vec<String> = Vec::new();
    let mut ranks: Vec<(u64, i64)> = Vec::new();
    let mut i: usize = 0;
    while i < edges.len()
        invariant
            i <= edges@.len(),
            ev == scored_views(edges@),
            sv == strings_of(seed_ids@),
            strictly_sorted(strings_of(ids@)),
            ids@.len() == ranks@.len(),
            forall|k: Seq<char>| #[trigger] strings_of(ids@).contains(k) <==> best_ranks(ev.take(i as int), sv).dom().contains(k),
            forall|q: int| 0 <= q < ids@.len() ==> best_ranks(ev.take(i as int), sv)[#[trigger] ids@[q]@] == ranks@[q],
        decreases edges@.len() - i,
    {
        let ghost m0 = best_ranks(ev.take(i as int), sv);
        proof {
            assert(ev.take(i + 1).drop_last() =~= ev.take(i as int));
            assert(ev.take(i + 1).last() == ev[i as int]);
            assert(ev[i as int] == (edges@[i as int].tag_a_id@, edges@[i as int].tag_b_id@, edges@[i as int].score, edges@[i as int].support));
        }
        let e = &edges[i];
        let neighbor = if contains_str(seed_ids, e.tag_a_id.as_str()) {
            &e.tag_b_id
        } else {
            &e.tag_a_id
        };
        assert(neighbor@ == neighbor_of(ev[i as int], sv));
        if !contains_str(seed_ids, neighbor.as_str()) {
            let rank = (e.score, e.support);
            let ghost ids0 = ids@;
            let ghost ranks0 = ranks@;
            match find_sorted(&ids, neighbor.as_str()) {
                Ok(at) => {
                    proof {
                        assert(strings_of(ids@)[at as int] == neighbor@);
                        assert(strings_of(ids@).contains(neighbor@));
                        assert(m0.dom().contains(neighbor@));
                        assert(m0[neighbor@] == ranks@[at as int]);
                    }
                    let old_rank = ranks[at];
                    if e.score > old_rank.0 || (e.score == old_rank.0 && e.support > old_rank.1) {
                        ranks.set(at, rank);
                        proof {
                            let m1 = m0.insert(neighbor@, rank);
                            assert(best_ranks(ev.take(i + 1), sv) == m1);
                            assert forall|q: int| 0 <= q < ids@.len() implies best_ranks(ev.take(i + 1), sv)[#[trigger] ids@[q]@]
                                == ranks@[q] by {
                                if q != at {
                                    assert(strings_of(ids@)[q] == ids@[q]@);
                                    lemma_lex_irreflexive(ids@[q]@);
                                    assert(ids@[q]@ != neighbor@);
                                }
                            }
                            assert forall|k: Seq<char>| #[trigger] strings_of(ids@).contains(k) <==> best_ranks(ev.take(i + 1), sv).dom().contains(k) by {
                            }
                        }
                    } else {
                        proof {
                            assert(best_ranks(ev.take(i + 1), sv) == m0);
                        }
                    }
                },
                Err(at) => {
                    proof {
                        assert(!m0.dom().contains(neighbor@)) by {
                            if strings_of(ids@).contains(neighbor@) {
                                let q = choose|q: int| 0 <= q < strings_of(ids@).len() && strings_of(ids@)[q] == neighbor@;
                                lemma_lex_irreflexive(neighbor@);
                                if q < at {
                                    assert(lex_lt(ids@[q]@, neighbor@));
                                } else {
                                    assert(lex_lt(neighbor@, ids@[q]@));
                                }
                            }
                        }
                    }
                    ids.insert(at, neighbor.clone());
                    ranks.insert(at, rank);
                    proof {
                        lemma_lex_irreflexive(neighbor@);
                        let m1 = m0.insert(neighbor@, rank);
                        assert(best_ranks(ev.take(i + 1), sv) == m1);
                        let s0 = strings_of(ids0);
                        let s1 = strings_of(ids@);
                        assert(s1 =~= s0.insert(at as int, neighbor@));
                        assert forall|p: int, q: int| 0 <= p < q < s1.len() implies lex_lt(#[trigger] s1[p], #[trigger] s1[q]) by {
                            if q < at {
                                assert(s1[p] == s0[p] && s1[q] == s0[q]);
                            } else if q == at {
                                assert(s1[p] == s0[p]);
                                assert(s0[p] == ids0[p]@);
                            } else if p == at {
                                assert(s1[q] == s0[q - 1]);
                                assert(s0[q - 1] == ids0[q - 1]@);
                            } else if p < at {
                                assert(s1[p] == s0[p] && s1[q] == s0[q - 1]);
                            } else {
                                assert(s1[p] == s0[p - 1] && s1[q] == s0[q - 1]);
                            }
                        }
                        assert forall|k: Seq<char>| #[trigger] s1.contains(k) <==> m1.dom().contains(k) by {
                            if s1.contains(k) {
                                let q = choose|q: int| 0 <= q < s1.len() && s1[q] == k;
                                if q < at {
                                    assert(s0[q] == k);
                                } else if q > at {
                                    assert(s0[q - 1] == k);
                                }
                            }
                            if s0.contains(k) {
                                let q = choose|q: int| 0 <= q < s0.len() && s0[q] == k;
                                if q < at {
                                    assert(s1[q] == k);
                                } else {
                                    assert(s1[q + 1] == k);
                                }
                            }
                            if k == neighbor@ {
                                assert(s1[at as int] == k);
                            }
                        }
                        assert forall|q: int| 0 <= q < ids@.len() implies m1[#[trigger] ids@[q]@] == ranks@[q] by {
                            if q < at {
                                assert(ids@[q] == ids0[q] && ranks@[q] == ranks0[q]);
                                assert(lex_lt(ids0[q]@, neighbor@));
                                assert(ids0[q]@ != neighbor@);
                                assert(strings_of(ids0).contains(ids0[q]@)) by {
                                    assert(strings_of(ids0)[q] == ids0[q]@);
                                }
                            } else if q > at {
                                assert(ids@[q] == ids0[q - 1] && ranks@[q] == ranks0[q - 1]);
                                assert(lex_lt(neighbor@, ids0[q - 1]@));
                                assert(ids0[q - 1]@ != neighbor@);
                                assert(strings_of(ids0).contains(ids0[q - 1]@)) by {
                                    assert(strings_of(ids0)[q - 1] == ids0[q - 1]@);
                                }
                            }
                        }
                    }
                },
            }
        } else {
            proof {
                assert(best_ranks(ev.take(i + 1), sv) == m0);
            }
        }
        i = i + 1;
    }
    proof {
        assert(ev.take(edges@.len() as int) =~= ev);
    }
    (ids, ranks)
}

fn before_exec(ids: &Vec<String>, ranks: &Vec<(u64, i64)>, x: usize, y: usize) -> (r: bool)
    requires
        x < ids@.len(),
        y < ids@.len(),
        ids@.len() == ranks@.len(),
    ensures
        r == (rank_gt(ranks@[x as int], ranks@[y as int]) || (ranks@[x as int] == ranks@[y as int] && lex_lt(ids@[x as int]@, ids@[y as int]@))),
{
    let a = ranks[x];
    let b = ranks[y];
    if a.0 != b.0 {
        a.0 > b.0
    } else if a.1 != b.1 {
        a.1 > b.1
    } else {
        crate::ordered::str_lt(ids[x].as_str(), ids[y].as_str())
    }
}

/// The neighbors of the seeds for candidate recall, best first, at most
/// `total_limit` of them (none for a limit of 0).
pub fn expand_neighbors(seed_ids: &Vec<String>, edges: &Vec<ScoredEdge>, total_limit: usize) -> (r: Vec<String>)
    ensures
        expansion(scored_views(edges@), strings_of(seed_ids@), total_limit as nat, strings_of(r@)),
{
    let ghost m = best_ranks(scored_views(edges@), strings_of(seed_ids@));
    let (ids, ranks) = neighbor_ranks(seed_ids, edges);
    let ghost s = strings_of(ids@);
    proof {
        crate::recommendation_metrics::lemma_distinct_count(s);
        assert(s.to_set() =~= m.dom()) by {
            assert forall|k: Seq<char>| #[trigger] s.to_set().contains(k) <==> m.dom().contains(k) by {
                assert(s.to_set().contains(k) <==> s.contains(k));
            }
        }
    }
    let count = if total_limit < ids.len() {
        total_limit
    } else {
        ids.len()
    };
    let mut chosen: Vec<bool> = Vec::new();
    let mut k: usize = 0;
    while k < ids.len()
        invariant
            k <= ids@.len(),
            chosen@.len() == k,
            forall|q: int| 0 <= q < k ==> !chosen@[q],
        decreases ids@.len() - k,
    {
        chosen.push(false);
        k = k + 1;
    }
    let mut picked: Vec<usize> = Vec::new();
    let mut r: Vec<String> = Vec::new();
    while picked.len() < count
        invariant
            count <= ids@.len(),
            ids@.len() == ranks@.len(),
            chosen@.len() == ids@.len(),
            s == strings_of(ids@),
            strictly_sorted(s),
            forall|q: int| 0 <= q < ids@.len() ==> m[#[trigger] ids@[q]@] == ranks@[q],
            forall|q: int| 0 <= q < ids@.len() ==> m.dom().contains(#[trigger] s[q]),
            picked@.len() <= count,
            r@.len() == picked@.len(),
            forall|p: int| 0 <= p < picked@.len() ==> (#[trigger] picked@[p]) < ids@.len() && r@[p]@ == ids@[picked@[p] as int]@,
            forall|q: int| 0 <= q < ids@.len() ==> (#[trigger] chosen@[q] <==> exists|p: int| 0 <= p < picked@.len() && picked@[p] == q),
            forall|p: int, l: int| 0 <= p < l < picked@.len() ==> comes_before(m, ids@[#[trigger] picked@[p] as int]@, ids@[#[trigger] picked@[l] as int]@),
            forall|p: int, q: int| 0 <= p < picked@.len() && 0 <= q < ids@.len() && !chosen@[q] ==> comes_before(m, ids@[#[trigger] picked@[p] as int]@, #[trigger] s[q]),
        decreases count - picked@.len(),
    {
        // Some index is still free: fewer picked than ids.
        let mut best: usize = 0;
        let mut found = false;
        let mut j: usize = 0;
        proof {
            if forall|q: int| 0 <= q < ids@.len() ==> #[trigger] chosen@[q] {
                assert forall|q: int| 0 <= q < ids@.len() implies #[trigger] covers(picked@, q) by {
                    assert(chosen@[q]);
                }
                lemma_covering(picked@, ids@.len() as int);
            }
            assert(exists|q: int| 0 <= q < ids@.len() && !#[trigger] chosen@[q]);
        }
        while j < ids.len()
            invariant
                j <= ids@.len(),
                ids@.len() == ranks@.len(),
                chosen@.len() == ids@.len(),
                s == strings_of(ids@),
                forall|q: int| 0 <= q < ids@.len() ==> m[#[trigger] ids@[q]@] == ranks@[q],
                exists|q: int| 0 <= q < ids@.len() && !#[trigger] chosen@[q],
                found ==> best < j && !chosen@[best as int] && forall|q: int|
                    0 <= q < j && !chosen@[q] ==> q == best || comes_before(m, s[best as int], #[trigger] s[q]),
                !found ==> forall|q: int| 0 <= q < j ==> #[trigger] chosen@[q],
                strictly_sorted(s),
            decreases ids@.len() - j,
        {
            if !chosen[j] {
                if !found || before_exec(&ids, &ranks, j, best) {
                    proof {
                        if found {
                            assert(comes_before(m, s[j as int], s[best as int]));
                            assert forall|q: int| 0 <= q < j + 1 && !chosen@[q] implies q == j || comes_before(m, s[j as int], #[trigger] s[q]) by {
                                if q != j && q != best {
                                    lemma_comes_before_order(m, s[j as int], s[best as int], s[q]);
                                }
                            }
                        }
                    }
                    best = j;
                    found = true;
                } else {
                    proof {
                        assert(s[j as int] != s[best as int]) by {
                            lemma_lex_irreflexive(s[j as int]);
                            assert(lex_lt(s[best as int], s[j as int]));
                        }
                        lemma_comes_before_order(m, s[best as int], s[j as int], s[j as int]);
                    }
                }
            }
            j = j + 1;
        }
        proof {
            if !found {
                let q = choose|q: int| 0 <= q < ids@.len() && !#[trigger] chosen@[q];
                assert(chosen@[q]);
            }
        }
        let ghost picked0 = picked@;
        let ghost chosen0 = chosen@;
        chosen.set(best, true);
        picked.push(best);
        r.push(ids[best].clone());
        proof {
            assert forall|q: int| 0 <= q < ids@.len() implies (#[trigger] chosen@[q] <==> exists|p: int|
                0 <= p < picked@.len() && picked@[p] == q) by {
                if q == best {
                    assert(picked@[picked0.len() as int] == q);
                } else {
                    if chosen@[q] {
                        assert(chosen0[q]);
                        let p = choose|p: int| 0 <= p < picked0.len() && picked0[p] == q;
                        assert(picked@[p] == q);
                    }
                    if exists|p: int| 0 <= p < picked@.len() && picked@[p] == q {
                        let p = choose|p: int| 0 <= p < picked@.len() && picked@[p] == q;
                        assert(p < picked0.len());
                        assert(picked0[p] == q);
                    }
                }
            }
            assert forall|p: int, l: int| 0 <= p < l < picked@.len() implies comes_before(m, ids@[#[trigger] picked@[p] as int]@, ids@[#[trigger] picked@[l] as int]@) by {
                if l == picked0.len() {
                    assert(picked@[p] == picked0[p]);
                    assert(s[best as int] == ids@[best as int]@);
                }
            }
            assert forall|p: int, q: int| 0 <= p < picked@.len() && 0 <= q < ids@.len() && !chosen@[q] implies comes_before(m, ids@[#[trigger] picked@[p] as int]@, #[trigger] s[q]) by {
                assert(!chosen0[q]);
                if p == picked0.len() {
                    assert(q != best);
                } else {
                    assert(picked@[p] == picked0[p]);
                }
            }
        }
    }
    proof {
        let rs = strings_of(r@);
        assert(rs.len() == count);
        assert forall|i: int| 0 <= i < rs.len() implies m.dom().contains(#[trigger] rs[i]) by {
            assert(rs[i] == s[picked@[i] as int]);
        }
        assert forall|i: int, j: int| 0 <= i < j < rs.len() implies comes_before(m, #[trigger] rs[i], #[trigger] rs[j]) by {
            assert(rs[i] == ids@[picked@[i] as int]@ && rs[j] == ids@[picked@[j] as int]@);
        }
        assert forall|i: int, n: Seq<char>| 0 <= i < rs.len() && m.dom().contains(n) && !rs.contains(n) implies #[trigger] comes_before(m, rs[i], n) by {
            assert(s.contains(n));
            let q = choose|q: int| 0 <= q < s.len() && s[q] == n;
            if chosen@[q] {
                let p = choose|p: int| 0 <= p < picked@.len() && picked@[p] == q;
                assert(rs[p] == n);
            }
            assert(rs[i] == ids@[picked@[i] as int]@);
        }
    }
    r
}

spec fn covers(picked: Seq<usize>, q: int) -> bool {
    exists|p: int| 0 <= p < picked.len() && picked[p] == q
}

/// Indices that cover every place below `n` are at least `n` many.
proof fn lemma_covering(picked: Seq<usize>, n: int)
    requires
        n >= 0,
        forall|q: int| 0 <= q < n ==> #[trigger] covers(picked, q),
    ensures
        picked.len() >= n,
{
    let s = picked.map_values(|x: usize| x as int);
    s.lemma_cardinality_of_set();
    vstd::set_lib::lemma_int_range(0, n);
    assert(vstd::set_lib::set_int_range(0, n).subset_of(s.to_set())) by {
        assert forall|x: int| #[trigger] vstd::set_lib::set_int_range(0, n).contains(x) implies s.to_set().contains(x) by {
            assert(covers(picked, x));
            let p = choose|p: int| 0 <= p < picked.len() && picked[p] == x;
            assert(s[p] == x);
        }
    }
    vstd::set_lib::lemma_len_subset(vstd::set_lib::set_int_range(0, n), s.to_set());
}

/// The expansion never returns a seed, nor a neighbor twice.
pub proof fn law_expansion_is_unique_and_skips_seeds(
    edges: Seq<(Seq<char>, Seq<char>, u64, i64)>,
    seeds: Seq<Seq<char>>,
    limit: nat,
    r: Seq<Seq<char>>,
)
    requires
        expansion(edges, seeds, limit, r),
    ensures
        forall|i: int| 0 <= i < r.len() ==> !seeds.contains(#[trigger] r[i]),
        forall|i: int, j: int| 0 <= i < j < r.len() ==> #[trigger] r[i] != #[trigger] r[j],
{
    let m = best_ranks(edges, seeds);
    lemma_best_ranks_skip_seeds(edges, seeds);
    assert forall|i: int, j: int| 0 <= i < j < r.len() implies #[trigger] r[i] != #[trigger] r[j] by {
        lemma_comes_before_order(m, r[i], r[j], r[j]);
    }
}

proof fn lemma_best_ranks_skip_seeds(edges: Seq<(Seq<char>, Seq<char>, u64, i64)>, seeds: Seq<Seq<char>>)
    ensures
        forall|k: Seq<char>| #[trigger] best_ranks(edges, seeds).dom().contains(k) ==> !seeds.contains(k),
    decreases edges.len(),
{
    if edges.len() > 0 {
        let d = edges.drop_last();
        lemma_best_ranks_skip_seeds(d, seeds);
        let m = best_ranks(d, seeds);
        let n = neighbor_of(edges.last(), seeds);
        assert forall|k: Seq<char>| #[trigger] best_ranks(edges, seeds).dom().contains(k) implies !seeds.contains(k) by {
            if k != n {
                assert(m.dom().contains(k));
            }
        }
    }
}

} // verus!
