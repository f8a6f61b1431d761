use filesync::diff::{IndexEntry, SyncIndex};
use filesync::path::RelPath;
use filesync::pathmap::PathMap;
use filesync::reconcile::{Action, Side};
use filesync::scan::{EntryKind, FileEntry, Snapshot};
use filesync::session::{apply_actions_to_index, upsert_index_from_entry};

fn file(path: &str, size: u64, mtime_secs: i64, hash: Option<&str>) -> FileEntry {
    FileEntry {
        path: RelPath::new(path),
        kind: EntryKind::File,
        size,
        mtime_secs,
        hash: hash.map(|h| h.to_string()),
    }
}

fn snapshot(files: Vec<FileEntry>) -> Snapshot {
    let mut entries = PathMap::new();
    for f in files {
        entries.insert(f.path.clone(), f);
    }
    Snapshot { entries }
}

fn index_entry(path: &str, hash: &str) -> IndexEntry {
    IndexEntry { path: RelPath::new(path), kind: EntryKind::File, size: 1, mtime_secs: 1, hash: hash.to_string() }
}

#[test]
fn upsert_records_the_scanned_file() {
    let mut index = SyncIndex::default();
    upsert_index_from_entry(&mut index, &file("a.txt", 10, 100, Some("h")));
    upsert_index_from_entry(&mut index, &file("b.txt", 20, 200, None));
    let a = index.entries.get(&RelPath::new("a.txt")).unwrap();
    assert_eq!((a.size, a.mtime_secs, a.hash.as_str()), (10, 100, "h"));
    let b = index.entries.get(&RelPath::new("b.txt")).unwrap();
    assert_eq!(b.hash, "");
    upsert_index_from_entry(&mut index, &file("A.TXT", 11, 101, Some("h2")));
    assert_eq!(index.entries.len(), 2);
    assert_eq!(index.entries.get(&RelPath::new("a.txt")).unwrap().hash, "h2");
}

#[test]
fn executed_actions_update_the_index() {
    let mut index = SyncIndex::default();
    index.entries.insert(RelPath::new("gone.txt"), index_entry("gone.txt", "g"));
    index.entries.insert(RelPath::new("c.txt"), index_entry("c.txt", "c"));
    index.entries.insert(RelPath::new("r.txt"), index_entry("r.txt", "r"));
    index.entries.insert(RelPath::new("keep.txt"), index_entry("keep.txt", "k"));
    let local = snapshot(vec![file("new.txt", 5, 50, Some("n"))]);
    let remote = snapshot(vec![file("pulled.txt", 6, 60, Some("p"))]);
    let a1 = Action::CopyFile { from: Side::Local, path: RelPath::new("new.txt") };
    let a2 = Action::CopyFile { from: Side::Remote, path: RelPath::new("pulled.txt") };
    let a3 = Action::Delete { on: Side::Remote, path: RelPath::new("gone.txt") };
    let a4 = Action::RenameConflict { on: Side::Local, path: RelPath::new("c.txt"), new_name: "c2.txt".to_string() };
    let a5 = Action::RenameConflict { on: Side::Remote, path: RelPath::new("r.txt"), new_name: "r2.txt".to_string() };
    let a6 = Action::CreateDir { on: Side::Local, path: RelPath::new("dir") };
    let a7 = Action::CopyFile { from: Side::Local, path: RelPath::new("missing.txt") };
    let executed = vec![&a1, &a2, &a3, &a4, &a5, &a6, &a7];
    apply_actions_to_index(&mut index, &executed, &local, &remote);
    let keys: Vec<String> = index.entries.entries().iter().map(|(k, _)| k.display().to_string()).collect();
    assert_eq!(keys, vec!["c2.txt", "keep.txt", "new.txt", "pulled.txt"]);
    let moved = index.entries.get(&RelPath::new("c2.txt")).unwrap();
    assert_eq!(moved.hash, "c");
    assert_eq!(moved.path.display(), "c2.txt");
    assert_eq!(index.entries.get(&RelPath::new("pulled.txt")).unwrap().size, 6);
    assert_eq!(index.entries.get(&RelPath::new("keep.txt")).unwrap().hash, "k");
}

#[test]
fn failed_actions_keep_their_entries() {
    let mut index = SyncIndex::default();
    index.entries.insert(RelPath::new("ok.txt"), index_entry("ok.txt", "old"));
    index.entries.insert(RelPath::new("failed.txt"), index_entry("failed.txt", "f"));
    let local = snapshot(vec![file("ok.txt", 9, 90, Some("new")), file("failed.txt", 8, 80, Some("g"))]);
    let remote = snapshot(vec![]);
    let done = Action::CopyFile { from: Side::Local, path: RelPath::new("ok.txt") };
    apply_actions_to_index(&mut index, &[&done], &local, &remote);
    assert_eq!(index.entries.get(&RelPath::new("ok.txt")).unwrap().hash, "new");
    let kept = index.entries.get(&RelPath::new("failed.txt")).unwrap();
    assert_eq!((kept.size, kept.hash.as_str()), (1, "f"));
}

#[test]
fn directory_creations_leave_the_index_alone() {
    let mut index = SyncIndex::default();
    index.entries.insert(RelPath::new("a.txt"), index_entry("a.txt", "a"));
    let local = snapshot(vec![file("dir", 0, 0, None)]);
    let remote = snapshot(vec![]);
    let d1 = Action::CreateDir { on: Side::Local, path: RelPath::new("dir") };
    let d2 = Action::CreateDir { on: Side::Remote, path: RelPath::new("a.txt") };
    apply_actions_to_index(&mut index, &[&d1, &d2], &local, &remote);
    assert_eq!(index.entries.len(), 1);
    assert_eq!(index.entries.get(&RelPath::new("a.txt")).unwrap().hash, "a");
}
