use otamoryx::semantic_transfer::{match_archives, ArchiveMatch, TransferEdge};

fn s(v: &str) -> String {
    v.to_string()
}

fn edge(a: &str, b: &str, target: &str, strength: u64) -> TransferEdge {
    TransferEdge {
        tag_a_id: s(a),
        tag_b_id: s(b),
        target_id: s(target),
        strength,
    }
}

#[test]
fn archives_with_a_seed_tag_are_not_transferred() {
    let archives = vec![vec![s("seed"), s("other")], vec![s("other")]];
    let seeds = vec![s("seed")];
    let edges = vec![edge("seed", "other", "other", 5)];
    let found = match_archives(&archives, &seeds, &edges);
    assert_eq!(found, vec![ArchiveMatch { archive: 1, edge: 0 }]);
}

#[test]
fn the_strongest_edge_wins_then_the_smaller_ids() {
    let archives = vec![vec![s("x"), s("y")]];
    let seeds = vec![s("s1"), s("s2"), s("s3")];
    let edges = vec![
        edge("s2", "x", "x", 3),
        edge("s1", "y", "y", 7),
        edge("s3", "x", "x", 7),
        edge("s1", "x", "x", 7),
    ];
    let found = match_archives(&archives, &seeds, &edges);
    assert_eq!(found, vec![ArchiveMatch { archive: 0, edge: 3 }]);
}

#[test]
fn edges_without_a_seed_end_or_reaching_no_tag_are_ignored() {
    let archives = vec![vec![s("x")], vec![s("z")]];
    let seeds = vec![s("seed")];
    let edges = vec![edge("a", "b", "x", 9), edge("seed", "y", "y", 1)];
    assert!(match_archives(&archives, &seeds, &edges).is_empty());
    assert!(match_archives(&archives, &Vec::new(), &edges).is_empty());
}

fn rank(value: f64) -> u64 {
    let bits = value.to_bits();
    if bits >> 63 == 1 {
        !bits
    } else {
        bits | (1 << 63)
    }
}

#[test]
fn one_hop_is_single_best_edge_and_never_reinforces_direct_match() {
    let seeds: Vec<(String, f64)> = vec![(s("a"), 0.7), (s("c"), 0.5)];
    let neighbors: Vec<(String, String, String, f64)> = vec![
        (s("a"), s("b"), s("b"), 0.7),
        (s("c"), s("b"), s("b"), 0.5),
        (s("b"), s("d"), s("d"), 0.7),
    ];
    let archives: Vec<(&str, Vec<String>)> = vec![
        ("one", vec![s("b")]),
        ("direct", vec![s("a"), s("b")]),
        ("two_hops", vec![s("d")]),
    ];
    let tag_lists: Vec<Vec<String>> = archives.iter().map(|(_, tags)| tags.clone()).collect();
    let seed_ids: Vec<String> = seeds.iter().map(|(id, _)| id.clone()).collect();
    let edges: Vec<TransferEdge> = neighbors
        .iter()
        .map(|(a, b, target, base)| edge(a, b, target, rank(*base)))
        .collect();
    let found = match_archives(&tag_lists, &seed_ids, &edges);
    let matched: Vec<(&str, f64)> = found
        .iter()
        .map(|m| (archives[m.archive].0, neighbors[m.edge].3))
        .collect();
    assert_eq!(matched, vec![("one", 0.7)]);
    assert!(!matched.iter().any(|(id, _)| *id == "direct"));
    assert!(!matched.iter().any(|(id, _)| *id == "two_hops"));
}
