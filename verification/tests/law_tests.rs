use otamoryx::archive_selection::{uniform_selection, ArchiveSelection, DrawFrom, SelectionPool};
use otamoryx::paths::lexical_normalize;
use otamoryx::plugin_executor::{CooldownTracker, PluginExecutionError};
use otamoryx::plugin_security::{PluginSecurityGateway, PluginSecurityPolicy};
use otamoryx::recommendations::stable_experiment_bucket;
use otamoryx::recommendations::PreferenceTier::{AutoDelete, Downrank, Keep, Unknown};
use otamoryx::semantic_edges::{TagRelationPair, TagRelationTag};
use otamoryx::text::trim;

fn tag(id: &str, namespace: &str, name: &str, support_count: u32) -> TagRelationTag {
    TagRelationTag {
        id: id.to_string(),
        namespace: namespace.to_string(),
        name: name.to_string(),
        support_count,
    }
}

fn messy_pair() -> TagRelationPair {
    TagRelationPair {
        pair_id: String::new(),
        tag_a: tag("  tag-b ", " general", "Romantic  ", 2),
        tag_b: tag("tag-a", "general ", " romance", 3),
        pair_input_hash: String::new(),
    }
}

#[test]
fn trimming_twice_changes_nothing() {
    for text in ["  a b  ", "", "   ", "x", "\t y \n"] {
        assert_eq!(trim(&trim(text)), trim(text));
    }
}

#[test]
fn lexical_normalization_is_idempotent() {
    for (path, expected) in [("/a/./b/../c", "/a/c"), ("/..", "/"), ("a/../../b/", "b"), ("./", ""), ("//x//y", "/x/y")] {
        let once = lexical_normalize(path);
        assert_eq!(once.display(), expected);
        let twice = lexical_normalize(&once.display());
        assert_eq!(twice.display(), expected);
        assert_eq!(twice.rooted, once.rooted);
    }
}

#[test]
fn recanonicalizing_a_canonical_pair_changes_nothing() {
    let first = messy_pair().canonicalize().unwrap();
    assert_eq!(first.tag_a.id, "tag-a");
    assert_eq!(first.tag_b.name, "Romantic");
    let again = first.clone().canonicalize().unwrap();
    assert_eq!(again.pair_id, first.pair_id);
    assert_eq!(again.pair_input_hash, first.pair_input_hash);
    assert_eq!(again.tag_a.id, first.tag_a.id);
    assert_eq!(again.tag_a.namespace, first.tag_a.namespace);
    assert_eq!(again.tag_b.name, first.tag_b.name);
    assert_eq!(again.tag_b.support_count, first.tag_b.support_count);
}

#[test]
fn recanonicalizing_a_swapped_canonical_pair_keeps_its_identity() {
    let first = messy_pair().canonicalize().unwrap();
    let swapped = TagRelationPair {
        tag_a: first.tag_b.clone(),
        tag_b: first.tag_a.clone(),
        ..first.clone()
    }
    .canonicalize()
    .unwrap();
    assert_eq!(swapped.tag_a.id, "tag-a");
    assert_eq!(swapped.pair_id, first.pair_id);
    assert_eq!(swapped.pair_input_hash, first.pair_input_hash);
}

#[test]
fn support_counts_do_not_change_the_pair_identity() {
    let first = messy_pair().canonicalize().unwrap();
    let mut changed = first.clone();
    changed.tag_a.support_count = 40;
    changed.tag_b.support_count = 0;
    let changed = changed.canonicalize().unwrap();
    assert_eq!(changed.pair_id, first.pair_id);
    assert_eq!(changed.pair_input_hash, first.pair_input_hash);
    assert_eq!(changed.tag_a.support_count, 40);
    assert_eq!(changed.tag_b.support_count, 0);
}

#[test]
fn a_one_record_audit_log_keeps_the_latest_decision() {
    let mut gateway = PluginSecurityGateway::new(0);
    let policy = PluginSecurityPolicy {
        allow_network: true,
        ..PluginSecurityPolicy::default()
    }
    .with_allowed_domains(vec!["a.test".to_string()]);
    gateway.upsert_policy("meta".to_string(), policy).unwrap();
    for host in ["a.test", "b.test", "c.test", "a.test"] {
        let _ = gateway.check_http_request("meta", "GET", &format!("https://{host}/"));
    }
    let records = gateway.recent_audit_records().unwrap();
    assert_eq!(records.len(), 1);
    assert_eq!(records[0].target, "a.test");
    assert!(records[0].allowed);
}

#[test]
fn a_cooldown_window_is_not_restarted_by_refusals() {
    const S: u64 = 1_000_000_000;
    let mut tracker = CooldownTracker::new();
    assert!(tracker.check_cooldown_at("p", 0, 50 * S).is_ok());
    assert!(tracker.check_cooldown_at("p", 30, 50 * S).is_ok());
    for now in [50 * S, 50 * S + 999_999_999, 51 * S, 79 * S + 999_999_999] {
        match tracker.check_cooldown_at("p", 30, now) {
            Err(PluginExecutionError::Cooldown { remaining_secs }) => {
                assert_eq!(remaining_secs, 30 - ((now - 50 * S) / S) as u32)
            }
            other => panic!("unexpected {other:?}"),
        }
    }
    assert!(tracker.check_cooldown_at("q", 30, 50 * S).is_ok());
    assert!(tracker.check_cooldown_at("p", 30, 80 * S).is_ok());
    assert!(tracker.check_cooldown_at("z", 0, 81 * S).is_ok());
    assert!(tracker.check_cooldown_at("z", 5, 81 * S).is_ok());
}

#[test]
fn cooldowns_count_whole_seconds_of_elapsed_time() {
    // Readings 0.3 s apart across a second boundary: no whole second has passed.
    let mut tracker = CooldownTracker::new();
    assert!(tracker.check_cooldown_at("p", 5, 10_900_000_000).is_ok());
    match tracker.check_cooldown_at("p", 5, 11_200_000_000) {
        Err(PluginExecutionError::Cooldown { remaining_secs }) => assert_eq!(remaining_secs, 5),
        other => panic!("unexpected {other:?}"),
    }
}

#[test]
fn cooldowns_read_the_clock() {
    let mut tracker = CooldownTracker::new();
    assert!(tracker.check_cooldown("p", 0).is_ok());
    assert!(tracker.check_cooldown("p", 30).is_ok());
    match tracker.check_cooldown("p", 30) {
        Err(PluginExecutionError::Cooldown { remaining_secs }) => assert_eq!(remaining_secs, 30),
        other => panic!("unexpected {other:?}"),
    }
    assert!(tracker.check_cooldown("q", 30).is_ok());
}

#[test]
fn a_weighted_page_follows_its_phases() {
    let tiers = vec![Keep, Unknown, AutoDelete, Downrank, Unknown, Keep];
    let mut plan = ArchiveSelection::new(&tiers, 4, 1);
    assert_eq!(plan.pool_items(SelectionPool::Keep), &vec![0, 5]);
    assert_eq!(plan.pool_items(SelectionPool::Unknown), &vec![1, 4]);
    assert_eq!(plan.pool_items(SelectionPool::Downrank), &vec![3]);
    // Three preferred draws, one exploration draw, then the fill.
    assert_eq!(plan.next_draw(), Some(DrawFrom::Preferred));
    assert!(plan.record(Some((SelectionPool::Keep, 0))));
    assert_eq!(plan.pool_items(SelectionPool::Keep), &vec![5]);
    assert!(!plan.record(Some((SelectionPool::Unknown, 0))));
    assert_eq!(plan.next_draw(), Some(DrawFrom::Preferred));
    assert!(plan.record(Some((SelectionPool::Downrank, 0))));
    assert_eq!(plan.next_draw(), Some(DrawFrom::Unknown));
    assert!(plan.record(Some((SelectionPool::Unknown, 1))));
    assert_eq!(plan.next_draw(), Some(DrawFrom::All));
    assert!(plan.record(Some((SelectionPool::Unknown, 0))));
    assert_eq!(plan.next_draw(), None);
    assert!(!plan.record(Some((SelectionPool::Keep, 0))));
    assert_eq!(plan.picked_items(), &vec![0, 3, 4, 1]);
    assert_eq!(plan.explored_count(), 2);
}

#[test]
fn an_empty_fill_draw_ends_the_page() {
    let tiers = vec![Keep, Keep, Keep];
    let mut plan = ArchiveSelection::new(&tiers, 3, 0);
    assert!(plan.record(Some((SelectionPool::Keep, 2))));
    assert!(!plan.record(None));
    assert!(!plan.record(None));
    assert_eq!(plan.next_draw(), Some(DrawFrom::All));
    assert!(!plan.record(None));
    assert_eq!(plan.next_draw(), None);
    assert_eq!(plan.picked_items(), &vec![2]);
    assert_eq!(plan.explored_count(), 0);
}

#[test]
fn a_uniform_page_skips_deleted_and_repeated_candidates() {
    let tiers = vec![AutoDelete, Unknown, Keep, Unknown, Downrank];
    let (picks, explored) = uniform_selection(&tiers, &vec![0, 3, 3, 9, 2, 1, 4], 3);
    assert_eq!(picks, vec![3, 2, 1]);
    assert_eq!(explored, 2);
    let (all, explored_all) = uniform_selection(&tiers, &vec![4, 3, 2, 1, 0], 10);
    assert_eq!(all, vec![4, 3, 2, 1]);
    assert_eq!(explored_all, 2);
}

#[test]
fn the_uniform_arm_holds_1950_of_ten_thousand_numbered_users() {
    let uniform = (0..10_000)
        .filter(|index| stable_experiment_bucket(&format!("user-{index}"), 739_000) < 20)
        .count();
    assert_eq!(uniform, 1950);
}

#[test]
fn canonical_pair_hashes_are_64_lowercase_hex_digits() {
    let first = messy_pair().canonicalize().unwrap();
    assert_eq!(first.pair_input_hash.chars().count(), 64);
    assert!(first
        .pair_input_hash
        .chars()
        .all(|c| c.is_ascii_digit() || ('a'..='f').contains(&c)));
}

#[test]
fn a_weighted_page_without_empty_draws_reaches_its_target() {
    let tiers = vec![Downrank, Unknown, Keep, AutoDelete, Unknown];
    let mut plan = ArchiveSelection::new(&tiers, 10, 2);
    let mut draws = 0;
    while let Some(from) = plan.next_draw() {
        let pool = match from {
            DrawFrom::Preferred | DrawFrom::All => {
                if !plan.pool_items(SelectionPool::Keep).is_empty() {
                    SelectionPool::Keep
                } else if from == DrawFrom::All && !plan.pool_items(SelectionPool::Unknown).is_empty() {
                    SelectionPool::Unknown
                } else {
                    SelectionPool::Downrank
                }
            }
            DrawFrom::Unknown => SelectionPool::Unknown,
            DrawFrom::Downrank => SelectionPool::Downrank,
        };
        let last = plan.pool_items(pool).len().saturating_sub(1);
        plan.record(Some((pool, last)));
        draws += 1;
        assert!(draws < 20);
    }
    assert_eq!(plan.picked_items().len(), 4);
    assert_eq!(plan.explored_count(), 2);
}
