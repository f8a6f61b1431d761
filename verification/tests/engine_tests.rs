use filesync::diff::{IndexEntry, SyncIndex};
use filesync::engine::{build_post_sync_index, plan_anchor};
use filesync::path::RelPath;
use filesync::pathmap::PathMap;
use filesync::reconcile::{Action, ConflictPolicy, SyncMode};
use filesync::scan::{EntryKind, FileEntry, Snapshot};

fn entry(path: &str, kind: EntryKind, size: u64) -> FileEntry {
    FileEntry { path: RelPath::new(path), kind, size, mtime_secs: 7, hash: None }
}

fn snapshot(files: Vec<FileEntry>) -> Snapshot {
    let mut entries = PathMap::new();
    for f in files {
        entries.insert(f.path.clone(), f);
    }
    Snapshot { entries }
}

#[test]
fn post_sync_index_merges_both_sides() {
    let local = snapshot(vec![entry("Both.txt", EntryKind::File, 1), entry("dir", EntryKind::Dir, 0)]);
    let remote = snapshot(vec![entry("both.txt", EntryKind::File, 2), entry("only_remote.txt", EntryKind::File, 3)]);
    let mut hashes = PathMap::new();
    hashes.insert(RelPath::new("both.txt"), "hb".to_string());
    let index = build_post_sync_index(&local, &remote, &hashes);
    let got: Vec<(String, u64, String)> = index
        .entries
        .entries()
        .iter()
        .map(|(k, e): &(RelPath, IndexEntry)| (k.display().to_string(), e.size, e.hash.clone()))
        .collect();
    assert_eq!(
        got,
        vec![
            ("Both.txt".to_string(), 1, "hb".to_string()),
            ("only_remote.txt".to_string(), 3, String::new()),
        ]
    );
}

#[test]
fn plan_anchor_diffs_reconciles_and_orders() {
    let local = snapshot(vec![entry("a/new.txt", EntryKind::File, 1)]);
    let remote = snapshot(vec![]);
    let mut index = SyncIndex::default();
    index.entries.insert(
        RelPath::new("old.txt"),
        IndexEntry { path: RelPath::new("old.txt"), kind: EntryKind::File, size: 1, mtime_secs: 1, hash: "h".to_string() },
    );
    let (diff, plan) = plan_anchor(
        &local,
        &remote,
        &index,
        &PathMap::new(),
        &PathMap::new(),
        SyncMode::Push,
        true,
        ConflictPolicy::NewerWins,
        "Peer",
        0,
    )
    .unwrap();
    assert_eq!(diff.local.len(), 2);
    assert_eq!(diff.remote.len(), 1);
    assert_eq!(plan.actions.len(), 3);
    assert!(matches!(&plan.actions[0], Action::CreateDir { path, .. } if path.display() == "a"));
    assert!(matches!(&plan.actions[1], Action::CopyFile { path, .. } if path.display() == "a/new.txt"));
    assert!(matches!(&plan.actions[2], Action::Delete { path, .. } if path.display() == "old.txt"));
}

#[test]
fn a_second_sync_with_the_returned_index_plans_nothing() {
    let mut local_file = entry("file.txt", EntryKind::File, 7);
    local_file.mtime_secs = 100;
    let mut copied = entry("file.txt", EntryKind::File, 7);
    copied.mtime_secs = 200;
    let local = snapshot(vec![local_file, entry("d", EntryKind::Dir, 0)]);
    let before = snapshot(vec![]);
    let (_, first) = plan_anchor(
        &local, &before, &SyncIndex::default(), &PathMap::new(), &PathMap::new(),
        SyncMode::Push, false, ConflictPolicy::NewerWins, "Peer", 0,
    )
    .unwrap();
    assert_eq!(first.actions.len(), 1);
    let after = snapshot(vec![copied, entry("d", EntryKind::Dir, 0)]);
    let mut local_hashes = PathMap::new();
    local_hashes.insert(RelPath::new("file.txt"), "h".to_string());
    let index = build_post_sync_index(&local, &after, &local_hashes);
    let mut remote_hashes = PathMap::new();
    remote_hashes.insert(RelPath::new("file.txt"), "h".to_string());
    for mode in [SyncMode::Push, SyncMode::Pull, SyncMode::Bidirectional] {
        for policy in [ConflictPolicy::NewerWins, ConflictPolicy::KeepBoth] {
            let (diff, plan) = plan_anchor(
                &local, &after, &index, &PathMap::new(), &remote_hashes,
                mode, true, policy, "Peer", 0,
            )
            .unwrap();
            assert!(diff.local.is_empty() && diff.remote.is_empty());
            assert!(plan.actions.is_empty() && plan.conflicts.is_empty());
        }
    }
}
