use otamoryx::recommendation_metrics::{
    collect_topics, tally_metrics, topic_coverage, ItemTopics, MetricCounts, MetricRow, SessionTopics,
};

fn s(v: &str) -> String {
    v.to_string()
}

fn strings(v: &[&str]) -> Vec<String> {
    v.iter().map(|x| x.to_string()).collect()
}

fn counts(exposed: i64, opened: i64, reads: i64, quick: i64, deletes: i64) -> MetricCounts {
    MetricCounts {
        exposed,
        opened,
        effective_reads: reads,
        quick_exits: quick,
        manual_deletes: deletes,
    }
}

fn row(variant: &str, tier: &str, c: MetricCounts) -> MetricRow {
    MetricRow {
        algorithm_variant: s(variant),
        preference_tier: s(tier),
        counts: c,
    }
}

#[test]
fn metrics_are_split_by_tier_and_variant() {
    let rows = vec![
        row("weighted-v1", "keep", counts(10, 4, 2, 1, 1)),
        row("baseline", "unknown", counts(5, 2, 1, 0, 0)),
        row("weighted-v1", "unknown", counts(3, 1, 0, 1, 0)),
        row("baseline", "downrank", counts(2, 2, 2, 0, 1)),
    ];
    let (all, per_variant) = tally_metrics(&rows);
    assert_eq!(all.overall, counts(20, 9, 5, 2, 2));
    assert_eq!(all.exploration, counts(8, 3, 1, 1, 0));
    assert_eq!(all.preferred, counts(12, 6, 4, 1, 2));
    let names: Vec<&str> = per_variant.iter().map(|(name, _)| name.as_str()).collect();
    assert_eq!(names, vec!["baseline", "weighted-v1"]);
    assert_eq!(per_variant[0].1.overall, counts(7, 4, 3, 0, 1));
    assert_eq!(per_variant[0].1.exploration, counts(5, 2, 1, 0, 0));
    assert_eq!(per_variant[1].1.preferred, counts(10, 4, 2, 1, 1));
    assert_eq!(per_variant[1].1.exploration, counts(3, 1, 0, 1, 0));
}

#[test]
fn no_rows_count_nothing() {
    let (all, per_variant) = tally_metrics(&Vec::new());
    assert_eq!(all.overall, counts(0, 0, 0, 0, 0));
    assert!(per_variant.is_empty());
}

#[test]
fn topic_coverage_counts_distinct_candidate_topics() {
    let sessions = vec![
        SessionTopics { algorithm_variant: s("v1"), candidate: strings(&["a", "b"]), exploration: strings(&["b"]) },
        SessionTopics { algorithm_variant: s("v1"), candidate: strings(&["c", "a"]), exploration: Vec::new() },
    ];
    let items = vec![
        ItemTopics { algorithm_variant: s("v1"), topics: strings(&["a", "c"]) },
        ItemTopics { algorithm_variant: s("v2"), topics: strings(&["a"]) },
    ];
    let (all, per_variant) = topic_coverage(&sessions, &items);
    assert_eq!(all.candidate, strings(&["a", "b", "c"]));
    assert_eq!(all.exposed, strings(&["a", "c"]));
    assert_eq!(all.exploration, strings(&["b"]));
    assert_eq!((all.candidate.len(), all.exposed.len(), all.exploration.len()), (3, 2, 1));
    let names: Vec<&str> = per_variant.iter().map(|(name, _)| name.as_str()).collect();
    assert_eq!(names, vec!["v1", "v2"]);
    assert_eq!(per_variant[1].1.candidate, Vec::<String>::new());
    assert_eq!(per_variant[1].1.exposed, strings(&["a"]));
}

#[test]
fn topics_are_collected_per_group_variant() {
    let groups = vec![
        (s("b"), strings(&["x", "y"])),
        (s("a"), strings(&["y"])),
        (s("b"), strings(&["z", "x"])),
    ];
    let (all, names, lists) = collect_topics(&groups);
    assert_eq!(all, strings(&["x", "y", "z"]));
    assert_eq!(names, strings(&["a", "b"]));
    assert_eq!(lists, vec![strings(&["y"]), strings(&["x", "y", "z"])]);
}
