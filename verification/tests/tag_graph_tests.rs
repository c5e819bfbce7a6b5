use otamoryx::tag_cooccurrence::{
    cooccurrence_edges, group_rows, neighbor_seeds, notify_tag_cooccurrence_rebuild_for_tags, select_neighbor_edges,
    ArchiveTagRow, PendingTagIds,
};

#[test]
fn changed_tags_are_coalesced_without_blank_ids() {
    let mut pending = PendingTagIds::new();
    assert!(pending.is_empty());
    notify_tag_cooccurrence_rebuild_for_tags(
        &mut pending,
        vec!["b".to_string(), "  ".to_string(), "a".to_string(), "b".to_string(), "".to_string()],
    );
    assert!(!pending.is_empty());
    notify_tag_cooccurrence_rebuild_for_tags(&mut pending, vec!["c".to_string(), "a".to_string()]);
    assert_eq!(pending.take(), vec!["a", "b", "c"]);
    assert!(pending.is_empty());
    assert!(pending.take().is_empty());
}

#[test]
fn a_failed_planner_run_puts_its_ids_back() {
    let mut pending = PendingTagIds::new();
    notify_tag_cooccurrence_rebuild_for_tags(&mut pending, vec!["t2".to_string()]);
    let taken = pending.take();
    notify_tag_cooccurrence_rebuild_for_tags(&mut pending, vec!["t1".to_string()]);
    pending.extend(&taken);
    assert_eq!(pending.take(), vec!["t1", "t2"]);
}

fn row(archive: &str, tag: &str, namespace: &str) -> ArchiveTagRow {
    ArchiveTagRow { archive_id: archive.to_string(), tag_id: tag.to_string(), namespace: namespace.to_string() }
}

#[test]
fn cooccurrence_counts_distinct_archives_and_skips_theme_and_metadata() {
    let rows = vec![
        row("archive-1", "tag-a", "general"),
        row("archive-1", "tag-b", "general"),
        row("archive-1", "tag-artist", "artist"),
        row("archive-2", "tag-a", "general"),
        row("archive-2", "tag-b", "general"),
        row("archive-2", "tag-c", "general"),
        row("archive-3", "tag-a", "general"),
        row("archive-3", "tag-c", "general"),
        row("archive-4", "tag-b", "general"),
        row("archive-4", "tag-c", "general"),
        row("archive-4", "tag-theme", " Theme "),
        row("archive-1", "tag-theme", "theme"),
        row("archive-2", "tag-a", "general"),
    ];
    let edges = cooccurrence_edges(&rows, &vec!["artist".to_string()]);
    let summary: Vec<(String, String, u64, u64, u64)> = edges
        .iter()
        .map(|e| {
            (
                e.tag_a_id.clone(),
                e.tag_b_id.clone(),
                e.coarchive_count,
                e.tag_a_archive_count,
                e.tag_b_archive_count,
            )
        })
        .collect();
    assert_eq!(
        summary,
        vec![
            ("tag-a".to_string(), "tag-b".to_string(), 2, 3, 3),
            ("tag-a".to_string(), "tag-c".to_string(), 2, 3, 3),
            ("tag-b".to_string(), "tag-c".to_string(), 2, 3, 3),
        ]
    );
}

#[test]
fn pairs_seen_in_one_archive_are_not_edges() {
    let rows = vec![row("x", "t1", "general"), row("x", "t2", "general"), row("y", "t1", "general")];
    assert!(cooccurrence_edges(&rows, &vec![]).is_empty());
    let (keys, lists) = group_rows(&rows, &vec![]);
    assert_eq!(keys, vec!["x", "y"]);
    assert_eq!(lists, vec![vec!["t1".to_string(), "t2".to_string()], vec!["t1".to_string()]]);
}

#[test]
fn neighbor_lookups_keep_a_limited_number_of_edges_per_seed() {
    let seeds = neighbor_seeds(&vec!["b".to_string(), " ".to_string(), "a".to_string(), "a".to_string()]);
    assert_eq!(seeds, vec!["a", "b"]);
    let edges: Vec<(String, String)> = vec![("a", "x"), ("a", "y"), ("b", "x"), ("a", "b"), ("c", "d")]
        .into_iter()
        .map(|(x, y)| (x.to_string(), y.to_string()))
        .collect();
    assert_eq!(select_neighbor_edges(&seeds, 1, &edges), vec![true, false, true, false, false]);
    assert_eq!(select_neighbor_edges(&seeds, 2, &edges), vec![true, true, true, true, false]);
    assert_eq!(select_neighbor_edges(&seeds, 0, &edges), vec![false; 5]);
}
