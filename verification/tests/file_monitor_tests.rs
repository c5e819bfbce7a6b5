use otamoryx::file_monitor::{
    is_hidden_file, plan_file_event, rename_falls_back_to_import, MonitorAction, WatchKind,
    WatchedPath,
};

fn path(p: &str, is_file: bool, supported: bool) -> WatchedPath {
    WatchedPath {
        path: p.to_string(),
        is_file,
        supported,
        hidden: is_hidden_file(p),
    }
}

fn describe(actions: &[MonitorAction]) -> Vec<String> {
    actions
        .iter()
        .map(|a| match a {
            MonitorAction::ProcessNew(p) => format!("new {p}"),
            MonitorAction::RemoveArchive(p) => format!("remove {p}"),
            MonitorAction::RenameArchive { from, to } => format!("rename {from} {to}"),
        })
        .collect()
}

#[test]
fn completed_writes_and_removals_are_handled() {
    let paths = vec![path("/lib/a.cbz", true, true), path("/lib/notes.txt", true, false)];
    assert_eq!(
        describe(&plan_file_event(WatchKind::CloseWrite, true, true, &paths)),
        vec!["new /lib/a.cbz"]
    );
    assert!(plan_file_event(WatchKind::Create, true, true, &paths).is_empty());
    assert_eq!(
        describe(&plan_file_event(WatchKind::Remove, true, true, &paths)),
        vec!["remove /lib/a.cbz", "remove /lib/notes.txt"]
    );
    assert!(plan_file_event(WatchKind::CloseWrite, false, true, &paths).is_empty());
}

#[test]
fn hidden_files_are_ignored_when_asked() {
    let paths = vec![path("/lib/.a.cbz", true, true)];
    assert!(is_hidden_file("/lib/.a.cbz"));
    assert!(!is_hidden_file("/lib/a.cbz"));
    assert!(plan_file_event(WatchKind::CloseWrite, true, true, &paths).is_empty());
    assert_eq!(plan_file_event(WatchKind::CloseWrite, true, false, &paths).len(), 1);
}

#[test]
fn moves_in_and_out_of_the_library() {
    let out = vec![path("/lib/a.cbz", false, true)];
    assert_eq!(
        describe(&plan_file_event(WatchKind::RenameFrom, true, true, &out)),
        vec!["remove /lib/a.cbz"]
    );
    let into = vec![path("/lib/b.cbz", true, true)];
    assert_eq!(
        describe(&plan_file_event(WatchKind::RenameTo, true, true, &into)),
        vec!["new /lib/b.cbz"]
    );
}

#[test]
fn renames_with_both_names_keep_tracked_records() {
    let both = vec![path("/lib/a.cbz", false, true), path("/lib/b.cbz", true, true)];
    assert_eq!(
        describe(&plan_file_event(WatchKind::RenameBoth, true, true, &both)),
        vec!["rename /lib/a.cbz /lib/b.cbz"]
    );
    let to_hidden = vec![path("/lib/a.cbz", false, true), path("/lib/.b.cbz", true, true)];
    assert_eq!(
        describe(&plan_file_event(WatchKind::RenameBoth, true, true, &to_hidden)),
        vec!["remove /lib/a.cbz"]
    );
    let from_text = vec![path("/lib/a.txt", false, false), path("/lib/a.cbz", true, true)];
    assert_eq!(
        describe(&plan_file_event(WatchKind::RenameBoth, true, true, &from_text)),
        vec!["new /lib/a.cbz"]
    );
    let one = vec![path("/lib/a.cbz", true, true)];
    assert!(plan_file_event(WatchKind::RenameBoth, true, true, &one).is_empty());
    assert!(rename_falls_back_to_import(false, true));
    assert!(!rename_falls_back_to_import(true, true));
}
