use otamoryx::content::{ContentAnalysisResult, ContentConcept};
use otamoryx::recommendations::{
    candidate_limit, coverage_archive_ids, exploration_archive_ids, filter_graph_recall_archives,
    graph_recall_archive_ids, graph_recall_has_path_scope, has_path_permission, normalized_topics,
    permitted_archive_ids, preference_tier_name, recommendation_algorithm, requested_count,
    stable_experiment_bucket, tier_counts, topics_for_archives, ArchiveDeleteTarget,
    PreferenceTier, RecallFilters, RecommendationAlgorithm, EXPERIMENT_SALT,
};

#[test]
fn topic_snapshots_normalize_themes_and_high_confidence_concepts() {
    let result = ContentAnalysisResult {
        themes: vec!["  Space   Opera ".to_string(), "SPACE opera".to_string()],
        concepts: vec![
            ContentConcept {
                name: "Found   Family".to_string(),
                confidence: 8000,
                evidence_pages: vec![1],
            },
            ContentConcept {
                name: "Ignored".to_string(),
                confidence: 6900,
                evidence_pages: vec![1],
            },
        ],
    };
    assert_eq!(
        normalized_topics(&result),
        vec!["found family", "space opera"]
    );
}

#[test]
fn baseline_assignment_is_stable_and_uses_a_twenty_percent_bucket() {
    assert_eq!(
        stable_experiment_bucket("user-a", 739_000),
        stable_experiment_bucket("user-a", 739_000)
    );
    let baseline_count = (0..10_000)
        .filter(|index| stable_experiment_bucket(&format!("user-{index}"), 739_000) < 20)
        .count();
    assert!(
        (1_700..=2_300).contains(&baseline_count),
        "{baseline_count}"
    );
}

#[test]
fn random_candidates_are_filtered_by_path_before_sampling() {
    let targets = vec![
        ArchiveDeleteTarget {
            id: "allowed".to_string(),
            path: "/library/allowed.cbz".to_string(),
        },
        ArchiveDeleteTarget {
            id: "private".to_string(),
            path: "/private/private.cbz".to_string(),
        },
    ];

    assert_eq!(
        permitted_archive_ids("user", &vec!["/library/*".to_string()], targets),
        vec!["allowed"]
    );
}

#[test]
fn experiment_buckets_follow_salted_fnv1a() {
    // FNV-1a of "user-a" from the offset basis mixed with the salt, modulo 100.
    let mut hash: u64 = 0xcbf29ce484222325 ^ 739_000;
    for byte in "user-a".bytes() {
        hash ^= u64::from(byte);
        hash = hash.wrapping_mul(0x100000001b3);
    }
    assert_eq!(u64::from(stable_experiment_bucket("user-a", 739_000)), hash % 100);
    assert!(stable_experiment_bucket("", 0) < 100);
}

#[test]
fn algorithm_arms_follow_the_experiment_flag() {
    let mut uniform_users = 0;
    for index in 0..200 {
        let user = format!("user-{index}");
        assert_eq!(
            recommendation_algorithm(false, &user),
            RecommendationAlgorithm::WeightedV1
        );
        let arm = recommendation_algorithm(true, &user);
        let expected = if stable_experiment_bucket(&user, EXPERIMENT_SALT) < 20 {
            RecommendationAlgorithm::UniformV1
        } else {
            RecommendationAlgorithm::WeightedV1
        };
        assert_eq!(arm, expected);
        if arm == RecommendationAlgorithm::UniformV1 {
            uniform_users += 1;
        }
    }
    assert!(uniform_users > 0);
    assert_eq!(RecommendationAlgorithm::WeightedV1.name(), "weighted-v1");
    assert_eq!(RecommendationAlgorithm::UniformV1.name(), "uniform-v1");
}

#[test]
fn preference_tiers_have_their_names() {
    assert_eq!(preference_tier_name(PreferenceTier::Keep), "keep");
    assert_eq!(preference_tier_name(PreferenceTier::Unknown), "unknown");
    assert_eq!(preference_tier_name(PreferenceTier::Downrank), "downrank");
    assert_eq!(preference_tier_name(PreferenceTier::AutoDelete), "auto_delete");
}

fn target(id: &str, path: &str) -> ArchiveDeleteTarget {
    ArchiveDeleteTarget {
        id: id.to_string(),
        path: path.to_string(),
    }
}

#[test]
fn path_grants_admit_patterns_and_directories() {
    let grants = vec!["/library/*".to_string(), "/shared".to_string()];
    assert!(has_path_permission("user", &grants, "/library/a.cbz"));
    assert!(has_path_permission("user", &grants, "/shared"));
    assert!(has_path_permission("user", &grants, "/shared/b.cbz"));
    assert!(!has_path_permission("user", &grants, "/sharedfolder/b.cbz"));
    assert!(!has_path_permission("user", &grants, "/private/c.cbz"));
    // Administrators and users without grants see everything.
    assert!(has_path_permission("admin", &grants, "/private/c.cbz"));
    assert!(has_path_permission("user", &Vec::new(), "/private/c.cbz"));
}

#[test]
fn unrestricted_users_keep_every_target() {
    let targets = vec![target("a", "/x/a.cbz"), target("b", "/y/b.cbz")];
    let kept = filter_graph_recall_archives("admin", &vec!["/x/*".to_string()], targets);
    assert_eq!(kept.len(), 2);
    let targets = vec![target("a", "/x/a.cbz"), target("b", "/y/b.cbz")];
    assert_eq!(permitted_archive_ids("user", &Vec::new(), targets), vec!["a", "b"]);
}

#[test]
fn graph_recall_needs_a_path_scope() {
    assert!(graph_recall_has_path_scope("admin", &Vec::new()));
    assert!(graph_recall_has_path_scope("user", &vec!["/x".to_string()]));
    assert!(!graph_recall_has_path_scope("user", &Vec::new()));
}

#[test]
fn graph_recall_skips_current_excluded_and_out_of_scope_ids() {
    let recalled = vec!["a".to_string(), "b".to_string(), "c".to_string(), "d".to_string()];
    let filters = RecallFilters {
        archive_ids: Some(vec!["a".to_string(), "b".to_string(), "c".to_string()]),
        exclude_archive_ids: Some(vec!["c".to_string()]),
    };
    let current = vec!["a".to_string()];
    assert_eq!(graph_recall_archive_ids(recalled, &filters, &current), vec!["b"]);

    let unscoped = RecallFilters {
        archive_ids: Some(Vec::new()),
        exclude_archive_ids: None,
    };
    assert_eq!(
        graph_recall_archive_ids(vec!["x".to_string(), "y".to_string()], &unscoped, &Vec::new()),
        vec!["x", "y"]
    );
}

#[test]
fn archive_topics_are_a_sorted_union() {
    let snapshots = vec![
        ("a".to_string(), vec!["theme:war".to_string(), "theme:love".to_string()]),
        ("b".to_string(), vec!["theme:love".to_string(), "theme:art".to_string()]),
        ("c".to_string(), vec!["theme:zen".to_string()]),
    ];
    let ids = vec!["b".to_string(), "a".to_string(), "missing".to_string()];
    assert_eq!(
        topics_for_archives(&ids, &snapshots),
        vec!["theme:art", "theme:love", "theme:war"]
    );
    assert!(topics_for_archives(&Vec::new(), &snapshots).is_empty());
}

#[test]
fn request_sizes_are_bounded() {
    assert_eq!(requested_count(None), 20);
    assert_eq!(requested_count(Some(7)), 7);
    assert_eq!(requested_count(Some(500)), 100);
    assert_eq!(candidate_limit(1), 500);
    assert_eq!(candidate_limit(30), 600);
    assert_eq!(candidate_limit(100), 1000);
    assert_eq!(candidate_limit(usize::MAX), 1000);
}

#[test]
fn session_statistics_count_tiers_and_exploration() {
    let tiers = vec![
        PreferenceTier::Keep,
        PreferenceTier::Unknown,
        PreferenceTier::Unknown,
        PreferenceTier::AutoDelete,
    ];
    let counts = tier_counts(&tiers);
    assert_eq!((counts.keep, counts.unknown, counts.downrank, counts.auto_delete), (1, 2, 0, 1));

    let scored = vec![
        ("k".to_string(), PreferenceTier::Keep),
        ("u".to_string(), PreferenceTier::Unknown),
        ("d".to_string(), PreferenceTier::AutoDelete),
    ];
    let selected = vec!["u".to_string(), "k".to_string()];
    assert_eq!(exploration_archive_ids(&selected, &scored), vec!["u"]);
    assert_eq!(coverage_archive_ids(&scored), vec!["k", "u"]);
}
