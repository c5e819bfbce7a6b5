use otamoryx::namespace_policy::is_ordinary_namespace;
use otamoryx::relation_candidates::{names_two_tags, seed_batches, RelationCandidatePlanner};

fn s(v: &str) -> String {
    v.to_string()
}

fn pair(a: &str, b: &str) -> (String, String) {
    (s(a), s(b))
}

#[test]
fn semantic_candidate_planner_chunks_changed_tags() {
    let ids: Vec<String> = (0..20).map(|i| format!("tag-{i:02}")).collect();
    let batches = seed_batches(&ids);
    assert_eq!(batches.len(), 3);
    assert_eq!(batches[0].len(), 8);
    assert_eq!(batches[1].len(), 8);
    assert_eq!(batches[2], ids[16..].to_vec());
    assert!(seed_batches(&Vec::new()).is_empty());
    assert_eq!(seed_batches(&ids[..8].to_vec()).len(), 1);
}

#[test]
fn batches_naming_fewer_than_two_tags_are_skipped() {
    assert!(!names_two_tags(&Vec::new()));
    assert!(!names_two_tags(&vec![pair("a", "a")]));
    assert!(names_two_tags(&vec![pair("a", "a"), pair("a", "b")]));
}

#[test]
fn planned_pairs_are_ordinary_unique_and_in_key_order() {
    let mut planner = RelationCandidatePlanner::new();
    let kept = vec![s("a"), s("b"), s("c")];
    planner.add_batch(&vec![pair("b", "c"), pair("a", "x"), pair("a", "b"), pair("b", "c")], &kept);
    assert!(!planner.stopped());
    planner.add_batch(&vec![pair("a", "c")], &kept);
    assert_eq!(planner.pairs_in_key_order(), vec![pair("a", "b"), pair("a", "c"), pair("b", "c")]);
}

#[test]
fn planning_stops_at_one_hundred_candidates() {
    let mut planner = RelationCandidatePlanner::new();
    let kept: Vec<String> = (0..120).map(|i| format!("t{i:03}")).collect();
    let edges: Vec<(String, String)> = (0..119).map(|i| (kept[i].clone(), kept[i + 1].clone())).collect();
    planner.add_batch(&edges, &kept);
    assert!(planner.stopped());
    let pairs = planner.pairs_in_key_order();
    assert_eq!(pairs.len(), 100);
    assert_eq!(pairs[99], (s("t099"), s("t100")));
    planner.add_batch(&vec![(s("t000"), s("t002"))], &kept);
    assert_eq!(planner.pairs_in_key_order().len(), 100);
}

#[test]
fn ordinary_namespaces_exclude_theme_and_metadata() {
    let metadata = vec![s("artist"), s("language")];
    assert!(is_ordinary_namespace("general", &metadata));
    assert!(!is_ordinary_namespace(" Theme ", &metadata));
    assert!(!is_ordinary_namespace("ARTIST", &metadata));
}
