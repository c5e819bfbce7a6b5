//! The checks that guard restoring from the trash: single entries, and version
//! cleanup operations, which are restored (or rolled back) as a whole.
use crate::text::{str_eq, strings_of};
use vstd::prelude::*;

verus! {

/// Why a restore was refused.
#[derive(Debug, Clone, Copy, PartialEq, Eq, Structural)]
pub enum TrashRestoreError {
    EntryNotFound,
    EntryNotActive,
    RestoreThroughOperation,
    NoTrashPath,
    OriginalExists,
    TrashFileMissing,
    OperationNotFound,
    OperationNotRestorable,
    OperationHasNoMembers,
    MembersChanged,
    OperationAlreadyRestoring,
    MembersAlreadyRestoring,
    PurgeThroughOperation,
    RelationsChanged(RelationKind),
    OperationNotPending,
}

/// The keeper's relations that a version cleanup migrates.
#[derive(Debug, Clone, Copy, PartialEq, Eq, Structural)]
pub enum RelationKind {
    Tags,
    Categories,
    ReadingProgress,
}

pub open spec fn restore_error_text(e: TrashRestoreError) -> Seq<char> {
    match e {
        TrashRestoreError::EntryNotFound => "trash entry not found"@,
        TrashRestoreError::EntryNotActive => "trash entry is not active"@,
        TrashRestoreError::RestoreThroughOperation => "version cleanup entries must be restored through their operation"@,
        TrashRestoreError::NoTrashPath => "trash entry has no file path"@,
        TrashRestoreError::OriginalExists => "original archive path already exists"@,
        TrashRestoreError::TrashFileMissing => "trash file is missing"@,
        TrashRestoreError::OperationNotFound => "trash operation not found"@,
        TrashRestoreError::OperationNotRestorable => "trash operation is not restorable"@,
        TrashRestoreError::OperationHasNoMembers => "version cleanup operation has no members"@,
        TrashRestoreError::MembersChanged => "version cleanup operation no longer has all active members"@,
        TrashRestoreError::OperationAlreadyRestoring => "trash operation is already being restored"@,
        TrashRestoreError::MembersAlreadyRestoring => "version cleanup operation is already being restored"@,
        TrashRestoreError::PurgeThroughOperation => "version cleanup entries must be permanently deleted through their operation"@,
        TrashRestoreError::RelationsChanged(RelationKind::Tags) => "version cleanup relation state changed since cleanup (tags)"@,
        TrashRestoreError::RelationsChanged(RelationKind::Categories) => "version cleanup relation state changed since cleanup (categories)"@,
        TrashRestoreError::RelationsChanged(RelationKind::ReadingProgress) => "version cleanup relation state changed since cleanup (reading progress)"@,
        TrashRestoreError::OperationNotPending => "version cleanup operation is not pending"@,
    }
}

impl TrashRestoreError {
    pub fn message(&self) -> (r: &'static str)
        ensures
            r@ == restore_error_text(*self),
    {
        match self {
            TrashRestoreError::EntryNotFound => "trash entry not found",
            TrashRestoreError::EntryNotActive => "trash entry is not active",
            TrashRestoreError::RestoreThroughOperation => "version cleanup entries must be restored through their operation",
            TrashRestoreError::NoTrashPath => "trash entry has no file path",
            TrashRestoreError::OriginalExists => "original archive path already exists",
            TrashRestoreError::TrashFileMissing => "trash file is missing",
            TrashRestoreError::OperationNotFound => "trash operation not found",
            TrashRestoreError::OperationNotRestorable => "trash operation is not restorable",
            TrashRestoreError::OperationHasNoMembers => "version cleanup operation has no members",
            TrashRestoreError::MembersChanged => "version cleanup operation no longer has all active members",
            TrashRestoreError::OperationAlreadyRestoring => "trash operation is already being restored",
            TrashRestoreError::MembersAlreadyRestoring => "version cleanup operation is already being restored",
            TrashRestoreError::PurgeThroughOperation => "version cleanup entries must be permanently deleted through their operation",
            TrashRestoreError::RelationsChanged(RelationKind::Tags) => "version cleanup relation state changed since cleanup (tags)",
            TrashRestoreError::RelationsChanged(RelationKind::Categories) => "version cleanup relation state changed since cleanup (categories)",
            TrashRestoreError::RelationsChanged(RelationKind::ReadingProgress) => "version cleanup relation state changed since cleanup (reading progress)",
            TrashRestoreError::OperationNotPending => "version cleanup operation is not pending",
        }
    }
}

// ---------------------------------------------------------------------------
// Single entries
// ---------------------------------------------------------------------------
/// A single entry can be restored when it is active and not part of a version
/// cleanup (those are restored with their operation).
pub open spec fn entry_verdict(status: Seq<char>, operation_type: Option<Seq<char>>) -> Result<(), TrashRestoreError> {
    if status != "active"@ {
        Err(TrashRestoreError::EntryNotActive)
    } else if operation_type == Some("version_cleanup"@) {
        Err(TrashRestoreError::RestoreThroughOperation)
    } else {
        Ok(())
    }
}

pub fn entry_restorable(status: &str, operation_type: Option<&str>) -> (r: Result<(), TrashRestoreError>)
    ensures
        r == entry_verdict(
            status@,
            match operation_type {
                Some(t) => Some(t@),
                None => None,
            },
        ),
{
    proof {
        reveal_strlit("active");
        reveal_strlit("version_cleanup");
    }
    if !str_eq(status, "active") {
        return Err(TrashRestoreError::EntryNotActive);
    }
    match operation_type {
        Some(t) => if str_eq(t, "version_cleanup") {
            Err(TrashRestoreError::RestoreThroughOperation)
        } else {
            Ok(())
        },
        None => Ok(()),
    }
}

/// A single entry can be deleted for good when it is active and belongs to
/// no operation (members of a version cleanup go with their operation).
pub fn entry_purgeable(status: &str, has_operation_type: bool, has_operation_id: bool) -> (r: Result<(), TrashRestoreError>)
    ensures
        r == if status@ != "active"@ {
            Err(TrashRestoreError::EntryNotActive)
        } else if has_operation_type || has_operation_id {
            Err(TrashRestoreError::PurgeThroughOperation)
        } else {
            Ok(())
        },
{
    proof {
        reveal_strlit("active");
    }
    if !str_eq(status, "active") {
        Err(TrashRestoreError::EntryNotActive)
    } else if has_operation_type || has_operation_id {
        Err(TrashRestoreError::PurgeThroughOperation)
    } else {
        Ok(())
    }
}

/// The file checks before a claimed entry's file is moved back: the entry
/// knows its trash file, nothing is at the original path, and the trash file
/// is there.
pub fn entry_files_ready(has_trash_path: bool, original_exists: bool, trash_exists: bool) -> (r: Result<
    (),
    TrashRestoreError,
>)
    ensures
        r == if !has_trash_path {
            Err(TrashRestoreError::NoTrashPath)
        } else if original_exists {
            Err(TrashRestoreError::OriginalExists)
        } else if !trash_exists {
            Err(TrashRestoreError::TrashFileMissing)
        } else {
            Ok(())
        },
{
    if !has_trash_path {
        Err(TrashRestoreError::NoTrashPath)
    } else if original_exists {
        Err(TrashRestoreError::OriginalExists)
    } else if !trash_exists {
        Err(TrashRestoreError::TrashFileMissing)
    } else {
        Ok(())
    }
}

// ---------------------------------------------------------------------------
// Version cleanup operations
// ---------------------------------------------------------------------------
/// What an operation restore ends in: a restore proper, or the rollback of a
/// cleanup that did not complete (which leaves the operation failed).
#[derive(Debug, Clone, Copy, PartialEq, Eq, Structural)]
pub enum RestoreTarget {
    Restored,
    Failed,
}

/// The operation statuses from which a target may be reached: a restore
/// starts from an active or failed operation, a rollback also from a pending or
/// restoring one.
pub open spec fn status_allows(target: RestoreTarget, status: Seq<char>) -> bool {
    match target {
        RestoreTarget::Failed => status == "pending"@ || status == "active"@ || status == "failed"@
            || status == "restoring"@,
        RestoreTarget::Restored => status == "active"@ || status == "failed"@,
    }
}

pub fn operation_restorable(target: RestoreTarget, status: &str, is_expired: bool) -> (r: Result<
    (),
    TrashRestoreError,
>)
    ensures
        r == if status_allows(target, status@) && !is_expired {
            Ok(())
        } else {
            Err(TrashRestoreError::OperationNotRestorable)
        },
{
    proof {
        reveal_strlit("pending");
        reveal_strlit("active");
        reveal_strlit("failed");
        reveal_strlit("restoring");
    }
    let allowed = match target {
        RestoreTarget::Failed => str_eq(status, "pending") || str_eq(status, "active") || str_eq(status, "failed")
            || str_eq(status, "restoring"),
        RestoreTarget::Restored => str_eq(status, "active") || str_eq(status, "failed"),
    };
    if allowed && !is_expired {
        Ok(())
    } else {
        Err(TrashRestoreError::OperationNotRestorable)
    }
}

/// What to do with the members found for an operation.
#[derive(Debug, Clone, Copy, PartialEq, Eq, Structural)]
pub enum MembersPlan {
    /// Nothing to move: a rollback just marks the operation failed.
    MarkFailed,
    /// Claim the operation and its members.
    Proceed,
}

/// The members loaded for the user (`loaded`) against those recorded for the
/// operation (`recorded`): an operation without members can only be rolled
/// back, and a restore needs every recorded member.
pub fn members_plan(target: RestoreTarget, loaded: usize, recorded: usize) -> (r: Result<MembersPlan, TrashRestoreError>)
    ensures
        r == if loaded == 0 {
            if target == RestoreTarget::Failed {
                Ok(MembersPlan::MarkFailed)
            } else {
                Err(TrashRestoreError::OperationHasNoMembers)
            }
        } else if target == RestoreTarget::Restored && loaded != recorded {
            Err(TrashRestoreError::MembersChanged)
        } else {
            Ok(MembersPlan::Proceed)
        },
{
    if loaded == 0 {
        if target == RestoreTarget::Failed {
            Ok(MembersPlan::MarkFailed)
        } else {
            Err(TrashRestoreError::OperationHasNoMembers)
        }
    } else if target == RestoreTarget::Restored && loaded != recorded {
        Err(TrashRestoreError::MembersChanged)
    } else {
        Ok(MembersPlan::Proceed)
    }
}

/// Whether every member is still active.
pub fn all_members_active(statuses: &Vec<String>) -> (r: bool)
    ensures
        r == forall|i: int| 0 <= i < statuses@.len() ==> (#[trigger] statuses@[i])@ == "active"@,
{
    proof {
        reveal_strlit("active");
    }
    let mut i: usize = 0;
    while i < statuses.len()
        invariant
            i <= statuses@.len(),
            forall|k: int| 0 <= k < i ==> (#[trigger] statuses@[k])@ == "active"@,
        decreases statuses@.len() - i,
    {
        if !str_eq(statuses[i].as_str(), "active") {
            return false;
        }
        i = i + 1;
    }
    true
}

/// The operation status after a restore whose database part failed: failed
/// when the files could not be moved back, else the status before the claim.
pub fn status_after_failed_restore(previous_status: &str, rollback_failed: bool) -> (r: String)
    ensures
        r@ == if rollback_failed {
            "failed"@
        } else {
            previous_status@
        },
{
    if rollback_failed {
        String::from_str("failed")
    } else {
        String::from_str(previous_status)
    }
}

/// The moves to undo after a partial restore, newest first.
pub fn rollback_order(renames: &Vec<(String, String)>) -> (r: Vec<(String, String)>)
    ensures
        r@.len() == renames@.len(),
        forall|i: int| 0 <= i < r@.len() ==> #[trigger] r@[i] == renames@[renames@.len() - 1 - i],
{
    let mut out: Vec<(String, String)> = Vec::new();
    let mut i: usize = renames.len();
    while i > 0
        invariant
            i <= renames@.len(),
            out@.len() == renames@.len() - i,
            forall|k: int| 0 <= k < out@.len() ==> #[trigger] out@[k] == renames@[renames@.len() - 1 - k],
        decreases i,
    {
        i = i - 1;
        let pair = (renames[i].0.clone(), renames[i].1.clone());
        out.push(pair);
    }
    out
}

/// Only a rollback can pick up an operation that is pending or being
/// restored; a restore proper starts from an active or failed one.
pub proof fn law_only_rollbacks_resume_interrupted_operations(target: RestoreTarget, status: Seq<char>)
    ensures
        target == RestoreTarget::Restored && (status == "pending"@ || status == "restoring"@) ==> !status_allows(
            target,
            status,
        ),
{
    reveal_strlit("pending");
    reveal_strlit("restoring");
    reveal_strlit("active");
    reveal_strlit("failed");
    assert("pending"@.len() == 7 && "restoring"@.len() == 9 && "active"@.len() == 6 && "failed"@.len() == 6);
}


// ---------------------------------------------------------------------------
// Keeper relations of a version cleanup
// ---------------------------------------------------------------------------
/// The ids of `after` that `before` lacks, in their order: what a cleanup
/// added to the keeper.
pub open spec fn added_ids(before: Seq<Seq<char>>, after: Seq<Seq<char>>) -> Seq<Seq<char>>
    decreases after.len(),
{
    if after.len() == 0 {
        Seq::empty()
    } else if before.contains(after.last()) {
        added_ids(before, after.drop_last())
    } else {
        added_ids(before, after.drop_last()).push(after.last())
    }
}

pub proof fn lemma_added_ids_members(before: Seq<Seq<char>>, after: Seq<Seq<char>>, x: Seq<char>)
    ensures
        added_ids(before, after).contains(x) <==> (after.contains(x) && !before.contains(x)),
    decreases after.len(),
{
    if after.len() > 0 {
        let rest = after.drop_last();
        lemma_added_ids_members(before, rest, x);
        assert(after =~= rest.push(after.last()));
        if after.contains(x) && x != after.last() {
            let k = choose|k: int| 0 <= k < after.len() && after[k] == x;
            assert(rest[k] == x);
        }
        if rest.contains(x) {
            let k = choose|k: int| 0 <= k < rest.len() && rest[k] == x;
            assert(after[k] == x);
        }
        if !before.contains(after.last()) {
            let r = added_ids(before, rest);
            if r.push(after.last()).contains(x) && x != after.last() {
                let k = choose|k: int| 0 <= k < r.push(after.last()).len() && r.push(after.last())[k] == x;
                assert(r[k] == x);
            }
            if r.contains(x) {
                let k = choose|k: int| 0 <= k < r.len() && r[k] == x;
                assert(r.push(after.last())[k] == x);
            }
            assert(r.push(after.last())[r.len() as int] == after.last());
        }
    }
}

/// Whether two id lists are equal.
pub fn same_ids(a: &Vec<String>, b: &Vec<String>) -> (r: bool)
    ensures
        r == (strings_of(a@) == strings_of(b@)),
{
    if a.len() != b.len() {
        proof {
            assert(strings_of(a@).len() != strings_of(b@).len());
        }
        return false;
    }
    let mut i: usize = 0;
    while i < a.len()
        invariant
            i <= a@.len(),
            a@.len() == b@.len(),
            forall|k: int| 0 <= k < i ==> #[trigger] a@[k]@ == b@[k]@,
        decreases a@.len() - i,
    {
        if !str_eq(a[i].as_str(), b[i].as_str()) {
            proof {
                assert(strings_of(a@)[i as int] != strings_of(b@)[i as int]);
            }
            return false;
        }
        i = i + 1;
    }
    proof {
        assert(strings_of(a@) =~= strings_of(b@));
    }
    true
}

/// The ids a cleanup added to the keeper (`after` without `before`).
pub fn added_relation_ids(before: &Vec<String>, after: &Vec<String>) -> (r: Vec<String>)
    ensures
        strings_of(r@) == added_ids(strings_of(before@), strings_of(after@)),
{
    let ghost b = strings_of(before@);
    let ghost f = strings_of(after@);
    let mut r: Vec<String> = Vec::new();
    let mut i: usize = 0;
    while i < after.len()
        invariant
            i <= after@.len(),
            b == strings_of(before@),
            f == strings_of(after@),
            strings_of(r@) == added_ids(b, f.take(i as int)),
        decreases after@.len() - i,
    {
        proof {
            assert(f.take(i + 1).drop_last() =~= f.take(i as int));
            assert(f.take(i + 1).last() == after@[i as int]@);
        }
        if !crate::text::contains_str(before, after[i].as_str()) {
            r.push(after[i].clone());
            proof {
                assert(strings_of(r@) =~= added_ids(b, f.take(i as int)).push(after@[i as int]@));
            }
        }
        i = i + 1;
    }
    proof {
        assert(f.take(after@.len() as int) =~= f);
    }
    r
}

/// Reverting one kind of keeper relations: refused when the keeper's ids are
/// no longer those the cleanup left; else the ids to delete, those it added.
pub fn relation_revert_plan(kind: RelationKind, current: &Vec<String>, before: &Vec<String>, after: &Vec<String>) -> (r: Result<
    Vec<String>,
    TrashRestoreError,
>)
    ensures
        strings_of(current@) != strings_of(after@) ==> r == Err::<Vec<String>, TrashRestoreError>(
            TrashRestoreError::RelationsChanged(kind),
        ),
        strings_of(current@) == strings_of(after@) ==> (r matches Ok(ids) && strings_of(ids@) == added_ids(
            strings_of(before@),
            strings_of(after@),
        )),
{
    if !same_ids(current, after) {
        return Err(TrashRestoreError::RelationsChanged(kind));
    }
    Ok(added_relation_ids(before, after))
}

/// Reverting a cleanup's relations gives the keeper back what it had: when
/// the cleanup left the keeper its own ids and those of the removed version,
/// deleting the ids it added leaves exactly the ids from before.
pub proof fn law_revert_restores_keeper_relations(before: Seq<Seq<char>>, source: Seq<Seq<char>>, after: Seq<Seq<char>>)
    requires
        forall|x: Seq<char>| #[trigger] after.contains(x) <==> (before.contains(x) || source.contains(x)),
    ensures
        forall|x: Seq<char>|
            (after.contains(x) && !#[trigger] added_ids(before, after).contains(x)) <==> before.contains(x),
{
    assert forall|x: Seq<char>| (after.contains(x) && !#[trigger] added_ids(before, after).contains(x)) <==> before.contains(x) by {
        lemma_added_ids_members(before, after, x);
        assert(after.contains(x) <==> (before.contains(x) || source.contains(x)));
    }
}


// ---------------------------------------------------------------------------
// Moving a version cleanup member
// ---------------------------------------------------------------------------
/// The decision key of a version cleanup member: one per operation and archive.
pub fn version_cleanup_decision_key(operation_id: &str, archive_id: &str) -> (r: String)
    ensures
        r@ == "version-cleanup:"@ + operation_id@ + ":"@ + archive_id@,
{
    let mut s = crate::text::owned("version-cleanup:");
    s.append(operation_id);
    s.append(":");
    s.append(archive_id);
    s
}

/// Members move into the trash only while their operation is pending (the
/// status is that of the user's version cleanup operation, if there is one).
pub fn member_move_allowed(operation_status: Option<&str>) -> (r: Result<(), TrashRestoreError>)
    ensures
        r == (match operation_status {
            Some(s) => if s@ == "pending"@ {
                Ok::<(), TrashRestoreError>(())
            } else {
                Err(TrashRestoreError::OperationNotPending)
            },
            None => Err(TrashRestoreError::OperationNotPending),
        }),
{
    match operation_status {
        Some(s) => if str_eq(s, "pending") {
            Ok(())
        } else {
            Err(TrashRestoreError::OperationNotPending)
        },
        None => Err(TrashRestoreError::OperationNotPending),
    }
}

} // verus!
