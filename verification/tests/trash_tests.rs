use otamoryx::trash::{
    cleanup_batch_limit, quote_identifier, trash_path_for, TrashCleanupReport,
    TrashFileCleanupResult, TrashPathError,
};

#[test]
fn identifiers_are_quoted_with_doubled_quotes() {
    assert_eq!(quote_identifier("archives"), "\"archives\"");
    assert_eq!(quote_identifier("we\"ird"), "\"we\"\"ird\"");
    assert_eq!(quote_identifier(""), "\"\"");
}

#[test]
fn trashed_files_stay_next_to_the_original() {
    assert_eq!(
        trash_path_for("/library/comics/book.cbz", "entry-1").unwrap(),
        "/library/comics/.otamoryx-trash/entry-1-book.cbz"
    );
    assert_eq!(trash_path_for("/", "entry-1"), Err(TrashPathError::NoParentDirectory));
    assert_eq!(trash_path_for("/library/..", "entry-1"), Err(TrashPathError::NoFileName));
    assert_eq!(
        TrashPathError::NoFileName.message(),
        "archive path has no file name"
    );
}

#[test]
fn cleanup_batches_are_bounded() {
    assert_eq!(cleanup_batch_limit(0), 1);
    assert_eq!(cleanup_batch_limit(50), 50);
    assert_eq!(cleanup_batch_limit(1_000), 100);
}

#[test]
fn the_cleanup_report_counts_each_claimed_entry() {
    let mut report = TrashCleanupReport::default();
    report.record(Ok(TrashFileCleanupResult::Deleted), true);
    report.record(Ok(TrashFileCleanupResult::Missing), true);
    report.record(Ok(TrashFileCleanupResult::Deleted), false);
    report.record(Err(()), false);
    assert_eq!(
        report,
        TrashCleanupReport {
            claimed: 4,
            deleted_files: 2,
            missing_files: 1,
            failed: 2,
        }
    );
}

use otamoryx::trash_restore::{
    all_members_active, entry_files_ready, entry_purgeable, entry_restorable, members_plan, operation_restorable,
    rollback_order, status_after_failed_restore, MembersPlan, RestoreTarget, TrashRestoreError,
    added_relation_ids, member_move_allowed, relation_revert_plan, same_ids, version_cleanup_decision_key,
    RelationKind,
};

#[test]
fn single_entries_restore_only_when_active_and_standalone() {
    assert_eq!(entry_restorable("active", None), Ok(()));
    assert_eq!(entry_restorable("active", Some("manual")), Ok(()));
    assert_eq!(entry_restorable("restored", None), Err(TrashRestoreError::EntryNotActive));
    assert_eq!(
        entry_restorable("active", Some("version_cleanup")),
        Err(TrashRestoreError::RestoreThroughOperation)
    );
    assert_eq!(
        TrashRestoreError::RestoreThroughOperation.message(),
        "version cleanup entries must be restored through their operation"
    );
    assert_eq!(entry_files_ready(true, false, true), Ok(()));
    assert_eq!(entry_files_ready(false, false, true), Err(TrashRestoreError::NoTrashPath));
    assert_eq!(entry_files_ready(true, true, true), Err(TrashRestoreError::OriginalExists));
    assert_eq!(entry_files_ready(true, false, false), Err(TrashRestoreError::TrashFileMissing));
}

#[test]
fn operations_restore_from_the_allowed_states() {
    assert_eq!(operation_restorable(RestoreTarget::Restored, "active", false), Ok(()));
    assert_eq!(operation_restorable(RestoreTarget::Restored, "failed", false), Ok(()));
    assert_eq!(
        operation_restorable(RestoreTarget::Restored, "pending", false),
        Err(TrashRestoreError::OperationNotRestorable)
    );
    assert_eq!(operation_restorable(RestoreTarget::Failed, "pending", false), Ok(()));
    assert_eq!(operation_restorable(RestoreTarget::Failed, "restoring", false), Ok(()));
    assert_eq!(
        operation_restorable(RestoreTarget::Failed, "active", true),
        Err(TrashRestoreError::OperationNotRestorable)
    );
    assert_eq!(members_plan(RestoreTarget::Failed, 0, 2), Ok(MembersPlan::MarkFailed));
    assert_eq!(
        members_plan(RestoreTarget::Restored, 0, 0),
        Err(TrashRestoreError::OperationHasNoMembers)
    );
    assert_eq!(
        members_plan(RestoreTarget::Restored, 1, 2),
        Err(TrashRestoreError::MembersChanged)
    );
    assert_eq!(members_plan(RestoreTarget::Failed, 1, 2), Ok(MembersPlan::Proceed));
    assert!(all_members_active(&vec!["active".to_string(), "active".to_string()]));
    assert!(!all_members_active(&vec!["active".to_string(), "restored".to_string()]));
    assert_eq!(status_after_failed_restore("active", true), "failed");
    assert_eq!(status_after_failed_restore("active", false), "active");
    let renames = vec![
        ("a".to_string(), "ta".to_string()),
        ("b".to_string(), "tb".to_string()),
    ];
    assert_eq!(
        rollback_order(&renames),
        vec![("b".to_string(), "tb".to_string()), ("a".to_string(), "ta".to_string())]
    );
}

#[test]
fn grouped_entries_are_purged_through_their_operation() {
    assert_eq!(entry_purgeable("active", false, false), Ok(()));
    assert_eq!(entry_purgeable("restored", false, false), Err(TrashRestoreError::EntryNotActive));
    assert_eq!(entry_purgeable("active", true, false), Err(TrashRestoreError::PurgeThroughOperation));
    assert_eq!(entry_purgeable("active", false, true), Err(TrashRestoreError::PurgeThroughOperation));
    assert_eq!(
        TrashRestoreError::PurgeThroughOperation.message(),
        "version cleanup entries must be permanently deleted through their operation"
    );
}

fn ids(v: &[&str]) -> Vec<String> {
    v.iter().map(|x| x.to_string()).collect()
}

#[test]
fn reverting_relations_deletes_only_what_the_cleanup_added() {
    let before = ids(&["a", "c"]);
    let after = ids(&["a", "b", "c", "d"]);
    assert_eq!(added_relation_ids(&before, &after), ids(&["b", "d"]));
    assert_eq!(relation_revert_plan(RelationKind::Tags, &after, &before, &after), Ok(ids(&["b", "d"])));
    assert!(same_ids(&after, &after.clone()));
    assert!(!same_ids(&after, &before));
}

#[test]
fn reverting_relations_refuses_a_changed_keeper() {
    let before = ids(&["a"]);
    let after = ids(&["a", "b"]);
    let current = ids(&["a", "b", "e"]);
    let refused = relation_revert_plan(RelationKind::Categories, &current, &before, &after);
    assert_eq!(refused, Err(TrashRestoreError::RelationsChanged(RelationKind::Categories)));
    assert_eq!(
        TrashRestoreError::RelationsChanged(RelationKind::Categories).message(),
        "version cleanup relation state changed since cleanup (categories)"
    );
    assert_eq!(
        TrashRestoreError::RelationsChanged(RelationKind::Tags).message(),
        "version cleanup relation state changed since cleanup (tags)"
    );
    assert_eq!(
        TrashRestoreError::RelationsChanged(RelationKind::ReadingProgress).message(),
        "version cleanup relation state changed since cleanup (reading progress)"
    );
}

#[test]
fn version_cleanup_members_move_only_while_pending() {
    assert_eq!(version_cleanup_decision_key("op1", "arch9"), "version-cleanup:op1:arch9");
    assert_eq!(member_move_allowed(Some("pending")), Ok(()));
    assert_eq!(member_move_allowed(Some("active")), Err(TrashRestoreError::OperationNotPending));
    assert_eq!(member_move_allowed(None), Err(TrashRestoreError::OperationNotPending));
    assert_eq!(
        TrashRestoreError::OperationNotPending.message(),
        "version cleanup operation is not pending"
    );
}
