use otamoryx::neighbor_expansion::{expand_neighbors, ScoredEdge};

fn s(v: &str) -> String {
    v.to_string()
}

fn edge(a: &str, b: &str, score: u64, support: i64) -> ScoredEdge {
    ScoredEdge {
        tag_a_id: s(a),
        tag_b_id: s(b),
        score,
        support,
    }
}

#[test]
fn neighbors_are_unique_ranked_and_never_seeds() {
    let seeds = vec![s("seed-a"), s("seed-b")];
    let edges = vec![
        edge("seed-a", "x", 5, 2),
        edge("y", "seed-b", 9, 1),
        edge("seed-b", "x", 7, 1),
        edge("seed-a", "seed-b", 10, 9),
        edge("seed-a", "z", 7, 1),
        edge("seed-b", "w", 7, 3),
    ];
    assert_eq!(expand_neighbors(&seeds, &edges, 10), vec![s("y"), s("w"), s("x"), s("z")]);
    assert_eq!(expand_neighbors(&seeds, &edges, 2), vec![s("y"), s("w")]);
    assert!(expand_neighbors(&seeds, &edges, 0).is_empty());
}

#[test]
fn a_neighbor_keeps_its_best_edge() {
    let seeds = vec![s("seed")];
    let edges = vec![edge("seed", "x", 1, 1), edge("seed", "y", 3, 0), edge("x", "seed", 3, 4)];
    assert_eq!(expand_neighbors(&seeds, &edges, 5), vec![s("x"), s("y")]);
}
