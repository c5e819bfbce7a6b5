//! Merging duplicate tag suggestions: of the suggestions with the same
//! (namespace, normalized name) key, the one with the highest confidence is
//! kept, the first of equal ones, and the kept suggestions come out in key
//! order, as a `BTreeMap` keyed by the pair would give them.
//!
//! A confidence is given as an integer rank that orders as the confidences
//! do, so the choice is exactly the one the confidences make.
use crate::ordered::{lemma_lex_irreflexive, lemma_lex_transitive, lemma_lex_trichotomy, lex_lt, str_lt};
use crate::text::str_eq;
use vstd::prelude::*;

verus! {

pub open spec fn key_views(keys: Seq<(String, String)>) -> Seq<(Seq<char>, Seq<char>)> {
    keys.map_values(|k: (String, String)| (k.0@, k.1@))
}

/// The order of keys: by namespace, then by name.
pub open spec fn pair_lt(a: (Seq<char>, Seq<char>), b: (Seq<char>, Seq<char>)) -> bool {
    lex_lt(a.0, b.0) || (a.0 == b.0 && lex_lt(a.1, b.1))
}

pub proof fn lemma_pair_order(a: (Seq<char>, Seq<char>), b: (Seq<char>, Seq<char>), c: (Seq<char>, Seq<char>))
    ensures
        a == b || pair_lt(a, b) || pair_lt(b, a),
        !(pair_lt(a, b) && pair_lt(b, a)),
        !pair_lt(a, a),
        pair_lt(a, b) && pair_lt(b, c) ==> pair_lt(a, c),
{
    lemma_lex_trichotomy(a.0, b.0);
    lemma_lex_trichotomy(a.1, b.1);
    lemma_lex_irreflexive(a.0);
    lemma_lex_irreflexive(a.1);
    if pair_lt(a, b) && pair_lt(b, c) {
        lemma_lex_trichotomy(b.0, c.0);
        if lex_lt(a.0, b.0) && lex_lt(b.0, c.0) {
            lemma_lex_transitive(a.0, b.0, c.0);
        } else if a.0 == b.0 && b.0 == c.0 {
            lemma_lex_transitive(a.1, b.1, c.1);
        }
    }
    if a.0 == b.0 && a.1 == b.1 {
        assert(a == b);
    }
}

/// Suggestion `k` is the one kept for its key among the first `n`: no
/// suggestion with that key ranks higher, and none before it ranks as high.
pub open spec fn kept_for_key(kv: Seq<(Seq<char>, Seq<char>)>, ranks: Seq<u64>, k: int, n: int) -> bool {
    &&& 0 <= k < n
    &&& forall|j: int|
        0 <= j < n && #[trigger] kv[j] == kv[k] ==> ranks[j] < ranks[k] || (ranks[j] == ranks[k] && k <= j)
}

/// Some kept suggestion has key `key`.
pub open spec fn listed(kv: Seq<(Seq<char>, Seq<char>)>, r: Seq<usize>, key: (Seq<char>, Seq<char>)) -> bool {
    exists|m: int| 0 <= m < r.len() && kv[#[trigger] r[m] as int] == key
}

/// The merge of the first `n` suggestions, given by their places.
pub open spec fn merged(kv: Seq<(Seq<char>, Seq<char>)>, ranks: Seq<u64>, n: int, r: Seq<usize>) -> bool {
    &&& forall|m: int| 0 <= m < r.len() ==> kept_for_key(kv, ranks, #[trigger] r[m] as int, n)
    &&& forall|m: int, p: int| 0 <= m < p < r.len() ==> pair_lt(kv[#[trigger] r[m] as int], kv[#[trigger] r[p] as int])
    &&& forall|j: int| 0 <= j < n ==> #[trigger] listed(kv, r, kv[j])
}

fn key_lt(a: &(String, String), b: &(String, String)) -> (r: bool)
    ensures
        r == pair_lt((a.0@, a.1@), (b.0@, b.1@)),
{
    str_lt(a.0.as_str(), b.0.as_str()) || (str_eq(a.0.as_str(), b.0.as_str()) && str_lt(a.1.as_str(), b.1.as_str()))
}

fn key_eq(a: &(String, String), b: &(String, String)) -> (r: bool)
    ensures
        r == ((a.0@, a.1@) == (b.0@, b.1@)),
{
    str_eq(a.0.as_str(), b.0.as_str()) && str_eq(a.1.as_str(), b.1.as_str())
}

/// The places of the suggestions to keep, in key order.
pub fn merge_by_key(keys: &Vec<(String, String)>, ranks: &Vec<u64>) -> (r: Vec<usize>)
    requires
        keys@.len() == ranks@.len(),
    ensures
        merged(key_views(keys@), ranks@, keys@.len() as int, r@),
{
    let ghost kv = key_views(keys@);
    let mut kept: Vec<usize> = Vec::new();
    let mut i: usize = 0;
    while i < keys.len()
        invariant
            i <= keys@.len(),
            keys@.len() == ranks@.len(),
            kv == key_views(keys@),
            merged(kv, ranks@, i as int, kept@),
        decreases keys@.len() - i,
    {
        let ghost before = kept@;
        assert(kv[i as int] == (keys@[i as int].0@, keys@[i as int].1@));
        let mut p: usize = 0;
        while p < kept.len() && key_lt(&keys[kept[p]], &keys[i])
            invariant
                p <= kept@.len(),
                kept@ == before,
                kv == key_views(keys@),
                i < keys@.len(),
                merged(kv, ranks@, i as int, kept@),
                forall|m: int| 0 <= m < p ==> pair_lt(kv[#[trigger] kept@[m] as int], kv[i as int]),
            decreases kept@.len() - p,
        {
            assert(kv[kept@[p as int] as int] == (keys@[kept@[p as int] as int].0@, keys@[kept@[p as int] as int].1@));
            p = p + 1;
        }
        if p < kept.len() && key_eq(&keys[kept[p]], &keys[i]) {
            let old_k = kept[p];
            proof {
                assert(kv[old_k as int] == (keys@[old_k as int].0@, keys@[old_k as int].1@));
            }
            if ranks[i] > ranks[old_k] {
                kept.set(p, i);
                proof {
                    assert forall|m: int| 0 <= m < kept@.len() implies kept_for_key(kv, ranks@, #[trigger] kept@[m] as int, i + 1) by {
                        if m == p {
                            assert forall|j: int| 0 <= j < i + 1 && #[trigger] kv[j] == kv[i as int] implies ranks@[j] < ranks@[i as int] || (
                            ranks@[j] == ranks@[i as int] && i <= j) by {
                                if j < i {
                                    assert(kv[j] == kv[before[p as int] as int]);
                                }
                            }
                        } else {
                            let k = kept@[m] as int;
                            assert(kept_for_key(kv, ranks@, before[m] as int, i as int));
                            assert(kv[k] != kv[i as int]) by {
                                lemma_pair_order(kv[before[m] as int], kv[before[p as int] as int], kv[i as int]);
                            }
                        }
                    }
                    assert forall|m: int, q: int| 0 <= m < q < kept@.len() implies pair_lt(
                        kv[#[trigger] kept@[m] as int],
                        kv[#[trigger] kept@[q] as int],
                    ) by {
                        assert(pair_lt(kv[before[m] as int], kv[before[q] as int]));
                    }
                    assert forall|j: int| 0 <= j < i + 1 implies listed(kv, kept@, #[trigger] kv[j]) by {
                        if j == i {
                            assert(kv[kept@[p as int] as int] == kv[j]);
                        } else {
                            assert(listed(kv, before, kv[j]));
                            let m = choose|m: int| 0 <= m < before.len() && kv[#[trigger] before[m] as int] == kv[j];
                            if m == p {
                                assert(kv[kept@[m] as int] == kv[j]);
                            } else {
                                assert(kept@[m] == before[m]);
                            }
                        }
                    }
                }
            } else {
                proof {
                    assert forall|m: int| 0 <= m < kept@.len() implies kept_for_key(kv, ranks@, #[trigger] kept@[m] as int, i + 1) by {
                        let k = kept@[m] as int;
                        assert(kept_for_key(kv, ranks@, k, i as int));
                        if m != p {
                            assert(kv[k] != kv[i as int]) by {
                                lemma_pair_order(kv[before[m] as int], kv[before[p as int] as int], kv[i as int]);
                            }
                        }
                    }
                    assert forall|j: int| 0 <= j < i + 1 implies listed(kv, kept@, #[trigger] kv[j]) by {
                        if j == i {
                            assert(kv[kept@[p as int] as int] == kv[j]);
                        }
                    }
                }
            }
        } else {
            proof {
                if p < kept@.len() {
                    assert(kv[kept@[p as int] as int] == (keys@[kept@[p as int] as int].0@, keys@[kept@[p as int] as int].1@));
                    lemma_pair_order(kv[kept@[p as int] as int], kv[i as int], kv[i as int]);
                    assert(pair_lt(kv[i as int], kv[kept@[p as int] as int]));
                }
            }
            kept.insert(p, i);
            proof {
                assert forall|m: int| 0 <= m < kept@.len() implies kept_for_key(kv, ranks@, #[trigger] kept@[m] as int, i + 1) by {
                    if m == p {
                        assert forall|j: int| 0 <= j < i + 1 && #[trigger] kv[j] == kv[i as int] implies ranks@[j] < ranks@[i as int] || (
                        ranks@[j] == ranks@[i as int] && i <= j) by {
                            if j < i {
                                assert(listed(kv, before, kv[j]));
                                let q = choose|q: int| 0 <= q < before.len() && kv[#[trigger] before[q] as int] == kv[j];
                                if q < p {
                                    lemma_pair_order(kv[before[q] as int], kv[i as int], kv[i as int]);
                                } else {
                                    if q > p {
                                        lemma_pair_order(kv[before[p as int] as int], kv[before[q] as int], kv[i as int]);
                                    }
                                    lemma_pair_order(kv[i as int], kv[before[p as int] as int], kv[before[q] as int]);
                                }
                            }
                        }
                    } else {
                        let q = if m < p { m } else { m - 1 };
                        assert(kept@[m] == before[q]);
                        assert(kept_for_key(kv, ranks@, before[q] as int, i as int));
                        if q < p {
                            lemma_pair_order(kv[before[q] as int], kv[i as int], kv[i as int]);
                        } else {
                            if q > p {
                                lemma_pair_order(kv[before[p as int] as int], kv[before[q] as int], kv[i as int]);
                            }
                            lemma_pair_order(kv[i as int], kv[before[p as int] as int], kv[before[q] as int]);
                        }
                    }
                }
                assert forall|m: int, q: int| 0 <= m < q < kept@.len() implies pair_lt(
                    kv[#[trigger] kept@[m] as int],
                    kv[#[trigger] kept@[q] as int],
                ) by {
                    if q == p {
                        assert(kept@[m] == before[m]);
                    } else if m == p {
                        assert(kept@[q] == before[q - 1]);
                        if q - 1 > p {
                            lemma_pair_order(kv[i as int], kv[before[p as int] as int], kv[before[q - 1] as int]);
                        }
                    } else if q < p {
                        assert(kept@[m] == before[m] && kept@[q] == before[q]);
                    } else if m < p {
                        assert(kept@[m] == before[m] && kept@[q] == before[q - 1]);
                    } else {
                        assert(kept@[m] == before[m - 1] && kept@[q] == before[q - 1]);
                    }
                }
                assert forall|j: int| 0 <= j < i + 1 implies listed(kv, kept@, #[trigger] kv[j]) by {
                    if j == i {
                        assert(kv[kept@[p as int] as int] == kv[j]);
                    } else {
                        assert(listed(kv, before, kv[j]));
                            let m = choose|m: int| 0 <= m < before.len() && kv[#[trigger] before[m] as int] == kv[j];
                        if m < p {
                            assert(kept@[m] == before[m]);
                        } else {
                            assert(kept@[m + 1] == before[m]);
                        }
                    }
                }
            }
        }
        i = i + 1;
    }
    kept
}

} // verus!
