//! How the library monitor reacts to file-system notifications: new archives
//! are processed once their writing is complete, removed or moved-out archives
//! are dropped, and renames keep the archive record when both names are
//! tracked.
use crate::text::starts_with_seq;
use crate::trash::{file_name_of, opt_string_view, path_file_name};
use vstd::prelude::*;

verus! {

#[derive(Debug)]
pub struct FileEvent {
    pub path: String,
    pub kind: FileEventKind,
}

#[derive(Debug, Clone, Copy, PartialEq, Eq, Structural)]
pub enum FileEventKind {
    Created,
    Modified,
    Removed,
}

/// The notifications the monitor tells apart.
#[derive(Debug, Clone, Copy, PartialEq, Eq, Structural)]
pub enum WatchKind {
    Create,
    /// A file opened for writing was closed: its content is complete.
    CloseWrite,
    OtherAccess,
    Remove,
    /// Renamed, and this is the old name (moved out of the library).
    RenameFrom,
    /// Renamed, and this is the new name (moved into the library).
    RenameTo,
    /// Renamed, with the old and the new name in one notification.
    RenameBoth,
    OtherRename,
    OtherModify,
    Other,
}

/// A path of a notification with what the monitor needs to know of it.
#[derive(Debug)]
pub struct WatchedPath {
    pub path: String,
    /// The path is a regular file now.
    pub is_file: bool,
    /// The file has an archive extension the library supports.
    pub supported: bool,
    /// The file name starts with a dot.
    pub hidden: bool,
}

/// What the monitor does about a notification.
#[derive(Debug)]
pub enum MonitorAction {
    /// Import the archive at this path.
    ProcessNew(String),
    /// Drop the archive records at this path.
    RemoveArchive(String),
    /// Move the archive record from one path to the other; when no record had
    /// the old path and the new one is a file, import it instead.
    RenameArchive { from: String, to: String },
}

/// A file is hidden when its name starts with a dot.
pub open spec fn hidden_name(path: Seq<char>) -> bool {
    match path_file_name(path) {
        Some(name) => starts_with_seq(name, seq!['.']),
        None => false,
    }
}

/// Whether the file at `path` is hidden.
pub fn is_hidden_file(path: &str) -> (r: bool)
    ensures
        r == hidden_name(path@),
{
    match file_name_of(path) {
        Some(name) => {
            let v = crate::text::chars_of(name.as_str());
            let dot = crate::text::lit(".");
            proof {
                reveal_strlit(".");
            }
            assert(dot@ =~= seq!['.']);
            crate::text::chars_starts_with(&v, &dot)
        },
        None => false,
    }
}

/// The action for one path of a notification that is not a two-name rename.
pub open spec fn path_action(kind: WatchKind, p: WatchedPath) -> Option<MonitorAction> {
    match kind {
        WatchKind::CloseWrite => if p.is_file && p.supported {
            Some(MonitorAction::ProcessNew(p.path))
        } else {
            None
        },
        WatchKind::Remove => Some(MonitorAction::RemoveArchive(p.path)),
        WatchKind::RenameFrom => if p.supported {
            Some(MonitorAction::RemoveArchive(p.path))
        } else {
            None
        },
        WatchKind::RenameTo => if p.is_file && p.supported {
            Some(MonitorAction::ProcessNew(p.path))
        } else {
            None
        },
        _ => None,
    }
}

/// The actions for the paths of a notification, in order, hidden files left
/// out when they are ignored.
pub open spec fn path_actions(kind: WatchKind, ignore_hidden: bool, paths: Seq<WatchedPath>) -> Seq<MonitorAction>
    decreases paths.len(),
{
    if paths.len() == 0 {
        Seq::empty()
    } else {
        let rest = path_actions(kind, ignore_hidden, paths.drop_last());
        let p = paths.last();
        if ignore_hidden && p.hidden {
            rest
        } else {
            match path_action(kind, p) {
                Some(a) => rest.push(a),
                None => rest,
            }
        }
    }
}

/// The action for a rename with both names: a tracked file renamed to a
/// tracked name keeps its record, one renamed to an untracked name is dropped,
/// and an untracked file renamed to a tracked name is imported.
pub open spec fn rename_action(from: WatchedPath, to: WatchedPath, ignore_hidden: bool) -> Option<MonitorAction> {
    let from_tracked = from.supported && (!ignore_hidden || !from.hidden);
    let to_tracked = to.supported && (!ignore_hidden || !to.hidden);
    if from_tracked && to_tracked {
        Some(MonitorAction::RenameArchive { from: from.path, to: to.path })
    } else if from_tracked {
        Some(MonitorAction::RemoveArchive(from.path))
    } else if to_tracked && to.is_file {
        Some(MonitorAction::ProcessNew(to.path))
    } else {
        None
    }
}

/// What the monitor does about a notification when automatic scanning is
/// `enabled`.
pub open spec fn event_plan(kind: WatchKind, enabled: bool, ignore_hidden: bool, paths: Seq<WatchedPath>) -> Seq<
    MonitorAction,
> {
    if !enabled {
        Seq::empty()
    } else if kind == WatchKind::RenameBoth {
        if paths.len() >= 2 {
            match rename_action(paths[0], paths[1], ignore_hidden) {
                Some(a) => seq![a],
                None => Seq::empty(),
            }
        } else {
            Seq::empty()
        }
    } else {
        path_actions(kind, ignore_hidden, paths)
    }
}

fn copy_path(p: &WatchedPath) -> (r: String)
    ensures
        r == p.path,
{
    p.path.clone()
}

fn path_action_exec(kind: WatchKind, p: &WatchedPath) -> (r: Option<MonitorAction>)
    ensures
        r == path_action(kind, *p),
{
    match kind {
        WatchKind::CloseWrite => if p.is_file && p.supported {
            Some(MonitorAction::ProcessNew(copy_path(p)))
        } else {
            None
        },
        WatchKind::Remove => Some(MonitorAction::RemoveArchive(copy_path(p))),
        WatchKind::RenameFrom => if p.supported {
            Some(MonitorAction::RemoveArchive(copy_path(p)))
        } else {
            None
        },
        WatchKind::RenameTo => if p.is_file && p.supported {
            Some(MonitorAction::ProcessNew(copy_path(p)))
        } else {
            None
        },
        _ => None,
    }
}

fn rename_action_exec(from: &WatchedPath, to: &WatchedPath, ignore_hidden: bool) -> (r: Option<MonitorAction>)
    ensures
        r == rename_action(*from, *to, ignore_hidden),
{
    let from_tracked = from.supported && (!ignore_hidden || !from.hidden);
    let to_tracked = to.supported && (!ignore_hidden || !to.hidden);
    if from_tracked && to_tracked {
        Some(MonitorAction::RenameArchive { from: copy_path(from), to: copy_path(to) })
    } else if from_tracked {
        Some(MonitorAction::RemoveArchive(copy_path(from)))
    } else if to_tracked && to.is_file {
        Some(MonitorAction::ProcessNew(copy_path(to)))
    } else {
        None
    }
}

/// The actions for one notification.
pub fn plan_file_event(kind: WatchKind, enabled: bool, ignore_hidden: bool, paths: &Vec<WatchedPath>) -> (r: Vec<
    MonitorAction,
>)
    ensures
        r@ == event_plan(kind, enabled, ignore_hidden, paths@),
{
    let mut out: Vec<MonitorAction> = Vec::new();
    if !enabled {
        return out;
    }
    if kind == WatchKind::RenameBoth {
        if paths.len() >= 2 {
            match rename_action_exec(&paths[0], &paths[1], ignore_hidden) {
                Some(a) => {
                    out.push(a);
                    assert(out@ =~= seq![a]);
                },
                None => {},
            }
        }
        return out;
    }
    let mut i: usize = 0;
    while i < paths.len()
        invariant
            i <= paths@.len(),
            kind != WatchKind::RenameBoth,
            out@ == path_actions(kind, ignore_hidden, paths@.take(i as int)),
        decreases paths@.len() - i,
    {
        assert(paths@.take(i + 1).drop_last() =~= paths@.take(i as int));
        assert(paths@.take(i + 1).last() == paths@[i as int]);
        let p = &paths[i];
        if !(ignore_hidden && p.hidden) {
            match path_action_exec(kind, p) {
                Some(a) => out.push(a),
                None => {},
            }
        }
        i = i + 1;
    }
    assert(paths@.take(paths@.len() as int) =~= paths@);
    out
}

/// After a tracked rename: when no record had the old path, the new file is
/// imported if it is a file.
pub fn rename_falls_back_to_import(record_updated: bool, to_is_file: bool) -> (r: bool)
    ensures
        r == (!record_updated && to_is_file),
{
    !record_updated && to_is_file
}

/// Ignored paths never cause an action: with scanning disabled nothing happens,
/// and a hidden file is left alone when hidden files are ignored.
pub proof fn law_ignored_paths_cause_nothing(kind: WatchKind, ignore_hidden: bool, paths: Seq<WatchedPath>)
    requires
        kind != WatchKind::RenameBoth,
        ignore_hidden,
        forall|i: int| 0 <= i < paths.len() ==> (#[trigger] paths[i]).hidden,
    ensures
        event_plan(kind, false, ignore_hidden, paths).len() == 0,
        event_plan(kind, true, ignore_hidden, paths).len() == 0,
    decreases paths.len(),
{
    if paths.len() > 0 {
        let init = paths.drop_last();
        assert forall|i: int| 0 <= i < init.len() implies (#[trigger] init[i]).hidden by {
            assert(init[i] == paths[i]);
        }
        law_ignored_paths_cause_nothing(kind, ignore_hidden, init);
        assert(paths.last() == paths[paths.len() - 1]);
    }
}

} // verus!
