//! The bounded planner of semantic relation candidates: after tags change,
//! the changed tags are taken in small batches, each batch's co-occurrence
//! neighbors between ordinary tags become candidate pairs, each pair (by its
//! `a:b` key) once, the first one seen, and planning stops at a fixed number
//! of candidates. The planner never scans all tags.
use crate::ordered::{find_sorted, lemma_lex_irreflexive, lex_lt, strictly_sorted};
use crate::tag_cooccurrence::edge_views;
use crate::text::{contains_str, push_char, str_eq, strings_of};
use vstd::prelude::*;

verus! {

/// Changed tags per neighbor lookup.
pub const SEED_TAGS_PER_BATCH: usize = 8;

/// Neighbors loaded per changed tag.
pub const NEIGHBORS_PER_TAG: usize = 20;

/// Planning stops at this many candidate pairs.
pub const MAX_RELATION_CANDIDATES: usize = 100;

// ---------------------------------------------------------------------------
// Batches
// ---------------------------------------------------------------------------
/// Batch `b` of the changed tags: the tags from `b * size` on, at most `size`.
pub open spec fn batch_of(ids: Seq<Seq<char>>, size: nat, b: int) -> Seq<Seq<char>> {
    ids.subrange(b * size, if (b + 1) * size < ids.len() {
        (b + 1) * size
    } else {
        ids.len() as int
    })
}

/// The changed tags in batches of `SEED_TAGS_PER_BATCH` (`chunks`): every
/// batch full but the last, none empty.
pub fn seed_batches(ids: &Vec<String>) -> (r: Vec<Vec<String>>)
    ensures
        r@.len() == (ids@.len() + SEED_TAGS_PER_BATCH - 1) / (SEED_TAGS_PER_BATCH as int),
        forall|b: int| 0 <= b < r@.len() ==> strings_of(#[trigger] r@[b]@) == batch_of(strings_of(ids@), SEED_TAGS_PER_BATCH as nat, b),
{
    let ghost s = strings_of(ids@);
    let mut r: Vec<Vec<String>> = Vec::new();
    let mut start: usize = 0;
    while start < ids.len()
        invariant
            s == strings_of(ids@),
            start <= ids@.len(),
            start == if r@.len() * SEED_TAGS_PER_BATCH <= ids@.len() {
                r@.len() * SEED_TAGS_PER_BATCH
            } else {
                ids@.len() as int
            },
            r@.len() > 0 ==> (r@.len() - 1) * SEED_TAGS_PER_BATCH < start,
            forall|b: int| 0 <= b < r@.len() ==> strings_of(#[trigger] r@[b]@) == batch_of(s, SEED_TAGS_PER_BATCH as nat, b),
        decreases ids@.len() - start,
    {
        let end = if ids.len() - start > SEED_TAGS_PER_BATCH {
            start + SEED_TAGS_PER_BATCH
        } else {
            ids.len()
        };
        let mut batch: Vec<String> = Vec::new();
        let mut k: usize = start;
        while k < end
            invariant
                start <= k <= end <= ids@.len(),
                strings_of(batch@) == s.subrange(start as int, k as int),
                s == strings_of(ids@),
            decreases end - k,
        {
            let ghost before = batch@;
            batch.push(ids[k].clone());
            proof {
                assert(strings_of(batch@) =~= strings_of(before).push(s[k as int]));
                assert(s.subrange(start as int, k + 1) =~= s.subrange(start as int, k as int).push(s[k as int]));
            }
            k = k + 1;
        }
        proof {
            let b = r@.len() as int;
            assert(b * SEED_TAGS_PER_BATCH <= ids@.len());
            assert(b * SEED_TAGS_PER_BATCH == start);
            assert((b + 1) * SEED_TAGS_PER_BATCH == start + SEED_TAGS_PER_BATCH);
            assert(strings_of(batch@) == batch_of(s, SEED_TAGS_PER_BATCH as nat, b));
        }
        let ghost rb = r@;
        r.push(batch);
        proof {
            assert forall|b: int| 0 <= b < r@.len() implies strings_of(#[trigger] r@[b]@) == batch_of(
                s,
                SEED_TAGS_PER_BATCH as nat,
                b,
            ) by {
                if b < rb.len() {
                    assert(r@[b] == rb[b]);
                }
            }
        }
        start = end;
    }
    proof {
        let n = ids@.len() as int;
        let m = r@.len() as int;
        assert(start == n);
        assert(m * 8 >= n);
        assert(m == 0 || (m - 1) * 8 < n);
        assert((n + 8 - 1) / 8 == m) by (nonlinear_arith)
            requires
                m * 8 >= n,
                m == 0 || (m - 1) * 8 < n,
                n >= 0,
                m >= 0,
        ;
    }
    r
}

// ---------------------------------------------------------------------------
// Batches worth planning
// ---------------------------------------------------------------------------
/// Endpoint `p` of the edges: the first tag of edge `p / 2` for even `p`,
/// the second for odd.
pub open spec fn endpoint(edges: Seq<(Seq<char>, Seq<char>)>, p: int) -> Seq<char> {
    if p % 2 == 0 {
        edges[p / 2].0
    } else {
        edges[p / 2].1
    }
}

/// The edges name at least two different tags.
pub open spec fn two_tags(edges: Seq<(Seq<char>, Seq<char>)>) -> bool {
    exists|p: int, q: int| 0 <= p < 2 * edges.len() && 0 <= q < 2 * edges.len() && #[trigger] endpoint(edges, p) != #[trigger] endpoint(edges, q)
}

/// Whether a batch's neighbor edges name at least two tags; a batch that
/// does not is skipped.
pub fn names_two_tags(edges: &Vec<(String, String)>) -> (r: bool)
    ensures
        r == two_tags(edge_views(edges@)),
{
    let ghost ev = edge_views(edges@);
    if edges.len() == 0 {
        return false;
    }
    let first = &edges[0].0;
    proof {
        assert(endpoint(ev, 0) == first@);
    }
    let mut i: usize = 0;
    while i < edges.len()
        invariant
            i <= edges@.len(),
            edges@.len() > 0,
            ev == edge_views(edges@),
            first@ == endpoint(ev, 0),
            forall|p: int| 0 <= p < 2 * i ==> #[trigger] endpoint(ev, p) == first@,
        decreases edges@.len() - i,
    {
        assert(ev[i as int] == (edges@[i as int].0@, edges@[i as int].1@));
        assert(endpoint(ev, 2 * i) == ev[i as int].0);
        assert(endpoint(ev, 2 * i + 1) == ev[i as int].1);
        if !str_eq(edges[i].0.as_str(), first.as_str()) {
            assert(endpoint(ev, 2 * i) != endpoint(ev, 0));
            return true;
        }
        if !str_eq(edges[i].1.as_str(), first.as_str()) {
            assert(endpoint(ev, 2 * i + 1) != endpoint(ev, 0));
            return true;
        }
        proof {
            assert forall|p: int| 0 <= p < 2 * (i + 1) implies #[trigger] endpoint(ev, p) == first@ by {
                if p >= 2 * i {
                    if p == 2 * i {
                    } else {
                        assert(p == 2 * i + 1);
                    }
                }
            }
        }
        i = i + 1;
    }
    false
}

// ---------------------------------------------------------------------------
// The planner
// ---------------------------------------------------------------------------
/// The key of a candidate pair.
pub open spec fn pair_key(a: Seq<char>, b: Seq<char>) -> Seq<char> {
    a + seq![':'] + b
}

/// Planning through a batch's edges, between the kept (ordinary) tags: a
/// new key adds its pair, and after every kept edge the planner stops once it
/// has the maximum number of candidates. The state is the chosen pairs by
/// key, their number, and whether planning stopped.
pub open spec fn plan_edges(
    state: (Map<Seq<char>, (Seq<char>, Seq<char>)>, nat, bool),
    edges: Seq<(Seq<char>, Seq<char>)>,
    kept: Seq<Seq<char>>,
) -> (Map<Seq<char>, (Seq<char>, Seq<char>)>, nat, bool)
    decreases edges.len(),
{
    if edges.len() == 0 {
        state
    } else {
        let s = plan_edges(state, edges.drop_last(), kept);
        let e = edges.last();
        if s.2 || !(kept.contains(e.0) && kept.contains(e.1)) {
            s
        } else if s.0.dom().contains(pair_key(e.0, e.1)) {
            (s.0, s.1, s.1 >= MAX_RELATION_CANDIDATES)
        } else {
            (s.0.insert(pair_key(e.0, e.1), e), s.1 + 1, s.1 + 1 >= MAX_RELATION_CANDIDATES)
        }
    }
}

/// The candidate pairs chosen so far, by key.
pub struct RelationCandidatePlanner {
    keys: Vec<String>,
    pairs: Vec<(String, String)>,
    stopped: bool,
}

proof fn lemma_sorted_distinct(s: Seq<Seq<char>>, i: int, j: int)
    requires
        strictly_sorted(s),
        0 <= i < s.len(),
        0 <= j < s.len(),
        s[i] == s[j],
    ensures
        i == j,
{
    lemma_lex_irreflexive(s[i]);
    if i < j {
        assert(lex_lt(s[i], s[j]));
    } else if j < i {
        assert(lex_lt(s[j], s[i]));
    }
}

impl RelationCandidatePlanner {
    pub closed spec fn wf(&self) -> bool {
        &&& strictly_sorted(strings_of(self.keys@))
        &&& self.keys@.len() == self.pairs@.len()
        &&& forall|i: int| 0 <= i < self.keys@.len() ==> #[trigger] self.keys@[i]@ == pair_key(self.pairs@[i].0@, self.pairs@[i].1@)
        &&& self.keys@.len() <= MAX_RELATION_CANDIDATES
        &&& self.keys@.len() >= MAX_RELATION_CANDIDATES ==> self.stopped
    }

    /// The chosen pairs by key.
    pub closed spec fn chosen(&self) -> Map<Seq<char>, (Seq<char>, Seq<char>)> {
        Map::new(
            |k: Seq<char>| strings_of(self.keys@).contains(k),
            |k: Seq<char>| (self.pairs@[self.place_of(k)].0@, self.pairs@[self.place_of(k)].1@),
        )
    }

    closed spec fn place_of(&self, k: Seq<char>) -> int {
        choose|i: int| 0 <= i < self.keys@.len() && self.keys@[i]@ == k
    }

    pub closed spec fn count(&self) -> nat {
        self.keys@.len()
    }

    pub closed spec fn is_stopped(&self) -> bool {
        self.stopped
    }

    pub open spec fn state(&self) -> (Map<Seq<char>, (Seq<char>, Seq<char>)>, nat, bool) {
        (self.chosen(), self.count(), self.is_stopped())
    }

    proof fn lemma_chosen_at(&self, i: int)
        requires
            self.wf(),
            0 <= i < self.keys@.len(),
        ensures
            self.chosen().dom().contains(self.keys@[i]@),
            self.chosen()[self.keys@[i]@] == (self.pairs@[i].0@, self.pairs@[i].1@),
    {
        let k = self.keys@[i]@;
        assert(strings_of(self.keys@)[i] == k);
        assert(exists|j: int| 0 <= j < self.keys@.len() && self.keys@[j]@ == k);
        let j = self.place_of(k);
        assert(strings_of(self.keys@)[j] == k);
        lemma_sorted_distinct(strings_of(self.keys@), i, j);
    }

    pub fn new() -> (r: Self)
        ensures
            r.wf(),
            r.state() == (Map::<Seq<char>, (Seq<char>, Seq<char>)>::empty(), 0nat, false),
    {
        let r = RelationCandidatePlanner { keys: Vec::new(), pairs: Vec::new(), stopped: false };
        proof {
            assert(r.chosen() =~= Map::<Seq<char>, (Seq<char>, Seq<char>)>::empty());
        }
        r
    }

    /// Whether planning has stopped: no later batch adds anything.
    pub fn stopped(&self) -> (r: bool)
        ensures
            r == self.is_stopped(),
    {
        self.stopped
    }

    /// Plans through one batch's neighbor edges, between the tags of `kept_ids`.
    pub fn add_batch(&mut self, edges: &Vec<(String, String)>, kept_ids: &Vec<String>)
        requires
            old(self).wf(),
        ensures
            final(self).wf(),
            final(self).count() <= MAX_RELATION_CANDIDATES,
            final(self).state() == plan_edges(old(self).state(), edge_views(edges@), strings_of(kept_ids@)),
    {
        let ghost ev = edge_views(edges@);
        let ghost kv = strings_of(kept_ids@);
        let ghost start = self.state();
        let mut i: usize = 0;
        while i < edges.len()
            invariant
                i <= edges@.len(),
                ev == edge_views(edges@),
                kv == strings_of(kept_ids@),
                self.wf(),
                self.state() == plan_edges(start, ev.take(i as int), kv),
            decreases edges@.len() - i,
        {
            proof {
                assert(ev.take(i + 1).drop_last() =~= ev.take(i as int));
                assert(ev.take(i + 1).last() == ev[i as int]);
                assert(ev[i as int] == (edges@[i as int].0@, edges@[i as int].1@));
            }
            if !self.stopped && contains_str(kept_ids, edges[i].0.as_str()) && contains_str(kept_ids, edges[i].1.as_str()) {
                let mut key = edges[i].0.clone();
                push_char(&mut key, ':');
                key.append(edges[i].1.as_str());
                let ghost k = key@;
                assert(k == pair_key(ev[i as int].0, ev[i as int].1));
                match find_sorted(&self.keys, key.as_str()) {
                    Ok(at) => {
                        proof {
                            self.lemma_chosen_at(at as int);
                        }
                        self.stopped = self.keys.len() >= MAX_RELATION_CANDIDATES;
                    },
                    Err(at) => {
                        let ghost old_self = *self;
                        proof {
                            assert(!self.chosen().dom().contains(k)) by {
                                if strings_of(self.keys@).contains(k) {
                                    let q = choose|q: int| 0 <= q < strings_of(self.keys@).len() && strings_of(self.keys@)[q] == k;
                                    lemma_lex_irreflexive(k);
                                    if q < at {
                                        assert(lex_lt(self.keys@[q]@, k));
                                    } else {
                                        assert(lex_lt(k, self.keys@[q]@));
                                    }
                                }
                            }
                        }
                        let pair = (edges[i].0.clone(), edges[i].1.clone());
                        self.keys.insert(at, key);
                        self.pairs.insert(at, pair);
                        self.stopped = self.keys.len() >= MAX_RELATION_CANDIDATES;
                        proof {
                            let s0 = strings_of(old_self.keys@);
                            let s1 = strings_of(self.keys@);
                            assert(s1 =~= s0.insert(at as int, k));
                            assert forall|p: int, q: int| 0 <= p < q < s1.len() implies lex_lt(#[trigger] s1[p], #[trigger] s1[q]) by {
                                if q < at {
                                    assert(s1[p] == s0[p] && s1[q] == s0[q]);
                                } else if q == at {
                                    assert(s1[p] == s0[p]);
                                    assert(s0[p] == old_self.keys@[p]@);
                                } else if p == at {
                                    assert(s1[q] == s0[q - 1]);
                                    assert(s0[q - 1] == old_self.keys@[q - 1]@);
                                } else if p < at {
                                    assert(s1[p] == s0[p] && s1[q] == s0[q - 1]);
                                } else {
                                    assert(s1[p] == s0[p - 1] && s1[q] == s0[q - 1]);
                                }
                            }
                            assert forall|j: int| 0 <= j < self.keys@.len() implies #[trigger] self.keys@[j]@ == pair_key(
                                self.pairs@[j].0@,
                                self.pairs@[j].1@,
                            ) by {
                                if j < at {
                                    assert(self.keys@[j] == old_self.keys@[j] && self.pairs@[j] == old_self.pairs@[j]);
                                } else if j > at {
                                    assert(self.keys@[j] == old_self.keys@[j - 1] && self.pairs@[j] == old_self.pairs@[j - 1]);
                                }
                            }
                            assert(self.wf());
                            let e = ev[i as int];
                            assert(self.chosen() =~= old_self.chosen().insert(k, e)) by {
                                assert forall|x: Seq<char>| #[trigger] self.chosen().dom().contains(x) <==> old_self.chosen().dom().insert(k).contains(x) by {
                                    if s1.contains(x) && x != k {
                                        let q = choose|q: int| 0 <= q < s1.len() && s1[q] == x;
                                        if q < at {
                                            assert(s0[q] == x);
                                        } else if q > at {
                                            assert(s0[q - 1] == x);
                                        }
                                    }
                                    if s0.contains(x) {
                                        let q = choose|q: int| 0 <= q < s0.len() && s0[q] == x;
                                        if q < at {
                                            assert(s1[q] == x);
                                        } else {
                                            assert(s1[q + 1] == x);
                                        }
                                    }
                                    if x == k {
                                        assert(s1[at as int] == x);
                                    }
                                }
                                assert forall|x: Seq<char>| #[trigger] self.chosen().dom().contains(x) implies self.chosen()[x]
                                    == old_self.chosen().insert(k, e)[x] by {
                                    let q = choose|q: int| 0 <= q < s1.len() && s1[q] == x;
                                    self.lemma_chosen_at(q);
                                    if q == at {
                                    } else if q < at {
                                        old_self.lemma_chosen_at(q);
                                    } else {
                                        old_self.lemma_chosen_at(q - 1);
                                    }
                                }
                            }
                        }
                    },
                }
            }
            i = i + 1;
        }
        proof {
            assert(ev.take(edges@.len() as int) =~= ev);
        }
    }

    /// The chosen pairs in key order.
    pub fn pairs_in_key_order(&self) -> (r: Vec<(String, String)>)
        requires
            self.wf(),
        ensures
            r@.len() == self.count(),
            forall|i: int, j: int| 0 <= i < j < r@.len() ==> lex_lt(pair_key(#[trigger] r@[i].0@, r@[i].1@), pair_key(#[trigger] r@[j].0@, r@[j].1@)),
            forall|i: int| 0 <= i < r@.len() ==> self.chosen().dom().contains(pair_key(#[trigger] r@[i].0@, r@[i].1@)) && self.chosen()[pair_key(r@[i].0@, r@[i].1@)] == (r@[i].0@, r@[i].1@),
    {
        let mut r: Vec<(String, String)> = Vec::new();
        let mut i: usize = 0;
        while i < self.pairs.len()
            invariant
                self.wf(),
                i <= self.pairs@.len(),
                r@.len() == i,
                forall|j: int| 0 <= j < i ==> (#[trigger] r@[j]).0@ == self.pairs@[j].0@ && r@[j].1@ == self.pairs@[j].1@,
            decreases self.pairs@.len() - i,
        {
            r.push((self.pairs[i].0.clone(), self.pairs[i].1.clone()));
            i = i + 1;
        }
        proof {
            assert forall|p: int, q: int| 0 <= p < q < r@.len() implies lex_lt(pair_key(#[trigger] r@[p].0@, r@[p].1@), pair_key(#[trigger] r@[q].0@, r@[q].1@)) by {
                assert(strings_of(self.keys@)[p] == self.keys@[p]@);
                assert(strings_of(self.keys@)[q] == self.keys@[q]@);
            }
            assert forall|p: int| 0 <= p < r@.len() implies self.chosen().dom().contains(pair_key(#[trigger] r@[p].0@, r@[p].1@)) && self.chosen()[pair_key(r@[p].0@, r@[p].1@)] == (r@[p].0@, r@[p].1@) by {
                self.lemma_chosen_at(p);
            }
        }
        r
    }
}

/// Once planning has stopped, no batch changes what was chosen.
pub proof fn law_stopped_planning_adds_nothing(
    state: (Map<Seq<char>, (Seq<char>, Seq<char>)>, nat, bool),
    edges: Seq<(Seq<char>, Seq<char>)>,
    kept: Seq<Seq<char>>,
)
    requires
        state.2,
    ensures
        plan_edges(state, edges, kept) == state,
    decreases edges.len(),
{
    if edges.len() > 0 {
        law_stopped_planning_adds_nothing(state, edges.drop_last(), kept);
    }
}

/// Planning never goes past the maximum number of candidates.
pub proof fn law_planning_is_bounded(
    state: (Map<Seq<char>, (Seq<char>, Seq<char>)>, nat, bool),
    edges: Seq<(Seq<char>, Seq<char>)>,
    kept: Seq<Seq<char>>,
)
    requires
        state.1 <= MAX_RELATION_CANDIDATES,
        state.2 <== state.1 >= MAX_RELATION_CANDIDATES,
    ensures
        plan_edges(state, edges, kept).1 <= MAX_RELATION_CANDIDATES,
        plan_edges(state, edges, kept).1 >= MAX_RELATION_CANDIDATES ==> plan_edges(state, edges, kept).2,
    decreases edges.len(),
{
    if edges.len() > 0 {
        law_planning_is_bounded(state, edges.drop_last(), kept);
    }
}

} // verus!
