use filesync::diff::{Change, DiffResult, SyncIndex};
use filesync::path::RelPath;
use filesync::pathmap::PathMap;
use filesync::reconcile::{
    make_conflict_name, pick_newer, reconcile, reconcile_on, Action, ConflictKind, ConflictPolicy,
    ConflictResolution, ReconcileContext, Side, SyncMode,
};
use filesync::scan::{EntryKind, FileEntry};

fn entry(path: &str, size: u64, mtime_secs: i64) -> (RelPath, FileEntry) {
    let rel = RelPath::new(path);
    (
        rel.clone(),
        FileEntry {
            path: rel,
            kind: EntryKind::File,
            size,
            mtime_secs,
            hash: None,
        },
    )
}

fn entry_with_hash(path: &str, size: u64, mtime_secs: i64, hash: &str) -> (RelPath, FileEntry) {
    let rel = RelPath::new(path);
    (
        rel.clone(),
        FileEntry {
            path: rel,
            kind: EntryKind::File,
            size,
            mtime_secs,
            hash: Some(hash.to_owned()),
        },
    )
}

fn map_of(items: Vec<(RelPath, FileEntry)>) -> PathMap<FileEntry> {
    let mut m = PathMap::new();
    for (k, v) in items {
        m.insert(k, v);
    }
    m
}

fn ctx<'a>(
    local: &'a PathMap<FileEntry>,
    remote: &'a PathMap<FileEntry>,
    delete_propagation: bool,
) -> ReconcileContext<'a> {
    ReconcileContext {
        local_entries: local,
        remote_entries: remote,
        delete_propagation,
        peer_name: "PeerB".to_owned(),
        clock_offset_secs: 0,
    }
}

#[test]
fn push_propagates_source_changes() {
    let diff = DiffResult {
        local: vec![Change::Created(RelPath::new("new.txt"))],
        remote: vec![],
    };
    let local = map_of(vec![entry("new.txt", 100, 1000)]);
    let remote = PathMap::new();
    let context = ctx(&local, &remote, false);

    let plan = reconcile(
        &diff,
        &SyncIndex::default(),
        SyncMode::Push,
        ConflictPolicy::NewerWins,
        &context,
    )
    .unwrap();
    assert!(plan.conflicts.is_empty());
    assert!(plan.actions.iter().any(|a| matches!(a, Action::CopyFile { from: Side::Local, path } if path.display() == "new.txt")));
}

#[test]
fn push_additive_no_delete() {
    let diff = DiffResult {
        local: vec![Change::Deleted(RelPath::new("old.txt"))],
        remote: vec![],
    };
    let local = PathMap::new();
    let remote = map_of(vec![entry("old.txt", 50, 500)]);
    let context = ctx(&local, &remote, false);

    let plan = reconcile(
        &diff,
        &SyncIndex::default(),
        SyncMode::Push,
        ConflictPolicy::NewerWins,
        &context,
    )
    .unwrap();
    assert!(plan.actions.is_empty());
}

#[test]
fn push_mirror_propagates_delete() {
    let diff = DiffResult {
        local: vec![Change::Deleted(RelPath::new("old.txt"))],
        remote: vec![],
    };
    let local = PathMap::new();
    let remote = map_of(vec![entry("old.txt", 50, 500)]);
    let context = ctx(&local, &remote, true);

    let plan = reconcile(
        &diff,
        &SyncIndex::default(),
        SyncMode::Push,
        ConflictPolicy::NewerWins,
        &context,
    )
    .unwrap();
    assert!(plan.actions.iter().any(|a| matches!(a, Action::Delete { on: Side::Remote, path } if path.display() == "old.txt")));
}

#[test]
fn bidi_non_conflicting_propagates_both_ways() {
    let diff = DiffResult {
        local: vec![Change::Modified(RelPath::new("file_a.txt"))],
        remote: vec![Change::Modified(RelPath::new("file_b.txt"))],
    };
    let local = map_of(vec![entry("file_a.txt", 200, 2000)]);
    let remote = map_of(vec![entry("file_b.txt", 300, 3000)]);
    let index = SyncIndex::default();
    let context = ctx(&local, &remote, false);

    let plan = reconcile(
        &diff,
        &index,
        SyncMode::Bidirectional,
        ConflictPolicy::NewerWins,
        &context,
    )
    .unwrap();
    assert!(plan.conflicts.is_empty());
    // file_a should copy from local to remote
    assert!(plan.actions.iter().any(|a| matches!(a, Action::CopyFile { from: Side::Local, path } if path.display() == "file_a.txt")));
    // file_b should copy from remote to local
    assert!(plan.actions.iter().any(|a| matches!(a, Action::CopyFile { from: Side::Remote, path } if path.display() == "file_b.txt")));
}

#[test]
fn bidi_same_content_no_conflict() {
    let diff = DiffResult {
        local: vec![Change::Modified(RelPath::new("same.txt"))],
        remote: vec![Change::Modified(RelPath::new("same.txt"))],
    };
    let local = map_of(vec![entry_with_hash("same.txt", 100, 1000, "abc123")]);
    let remote = map_of(vec![entry_with_hash("same.txt", 100, 1000, "abc123")]);
    let index = SyncIndex::default();
    let context = ctx(&local, &remote, false);

    let plan = reconcile(
        &diff,
        &index,
        SyncMode::Bidirectional,
        ConflictPolicy::NewerWins,
        &context,
    )
    .unwrap();
    assert!(plan.conflicts.is_empty());
    // No copy actions needed — already converged
    assert!(
        !plan
            .actions
            .iter()
            .any(|a| matches!(a, Action::CopyFile { .. }))
    );
}

#[test]
fn bidi_conflict_newer_wins() {
    let diff = DiffResult {
        local: vec![Change::Modified(RelPath::new("conflict.txt"))],
        remote: vec![Change::Modified(RelPath::new("conflict.txt"))],
    };
    // Remote is newer
    let local = map_of(vec![entry_with_hash("conflict.txt", 100, 1000, "local_hash")]);
    let remote = map_of(vec![entry_with_hash("conflict.txt", 150, 2000, "remote_hash")]);
    let index = SyncIndex::default();
    let context = ctx(&local, &remote, false);

    let plan = reconcile(
        &diff,
        &index,
        SyncMode::Bidirectional,
        ConflictPolicy::NewerWins,
        &context,
    )
    .unwrap();
    assert_eq!(plan.conflicts.len(), 1);
    assert_eq!(plan.conflicts[0].winner, Side::Remote);
    assert!(plan.actions.iter().any(|a| matches!(a, Action::CopyFile { from: Side::Remote, path } if path.display() == "conflict.txt")));
}

#[test]
fn bidi_delete_vs_edit_keeps_edited() {
    let diff = DiffResult {
        local: vec![Change::Deleted(RelPath::new("edited.txt"))],
        remote: vec![Change::Modified(RelPath::new("edited.txt"))],
    };
    let local = PathMap::new();
    let remote = map_of(vec![entry("edited.txt", 200, 2000)]);
    let index = SyncIndex::default();
    let context = ctx(&local, &remote, true);

    let plan = reconcile(
        &diff,
        &index,
        SyncMode::Bidirectional,
        ConflictPolicy::NewerWins,
        &context,
    )
    .unwrap();
    assert_eq!(plan.conflicts.len(), 1);
    assert_eq!(plan.conflicts[0].kind, ConflictKind::DeleteVsEdit);
    assert_eq!(plan.conflicts[0].winner, Side::Remote);
    // The edited copy should be restored to the local side
    assert!(plan.actions.iter().any(|a| matches!(a, Action::CopyFile { from: Side::Remote, path } if path.display() == "edited.txt")));
}

#[test]
fn bidi_delete_propagates_when_enabled() {
    let diff = DiffResult {
        local: vec![Change::Deleted(RelPath::new("removed.txt"))],
        remote: vec![],
    };
    let local = PathMap::new();
    let remote = map_of(vec![entry("removed.txt", 50, 500)]);
    let index = SyncIndex::default();
    let context = ctx(&local, &remote, true);

    let plan = reconcile(
        &diff,
        &index,
        SyncMode::Bidirectional,
        ConflictPolicy::NewerWins,
        &context,
    )
    .unwrap();
    assert!(plan.conflicts.is_empty());
    assert!(plan.actions.iter().any(|a| matches!(a, Action::Delete { on: Side::Remote, path } if path.display() == "removed.txt")));
}

#[test]
fn bidi_delete_no_propagation_when_disabled() {
    let diff = DiffResult {
        local: vec![Change::Deleted(RelPath::new("removed.txt"))],
        remote: vec![],
    };
    let local = PathMap::new();
    let remote = map_of(vec![entry("removed.txt", 50, 500)]);
    let index = SyncIndex::default();
    let context = ctx(&local, &remote, false);

    let plan = reconcile(
        &diff,
        &index,
        SyncMode::Bidirectional,
        ConflictPolicy::NewerWins,
        &context,
    )
    .unwrap();
    assert!(plan.conflicts.is_empty());
    assert!(plan.actions.is_empty());
}

fn describe(a: &Action) -> String {
    match a {
        Action::CreateDir { on, path } => format!("dir {:?} {}", on, path.display()),
        Action::CopyFile { from, path } => format!("copy {:?} {}", from, path.display()),
        Action::Delete { on, path } => format!("delete {:?} {}", on, path.display()),
        Action::RenameConflict { on, path, new_name } => {
            format!("rename {:?} {} {}", on, path.display(), new_name)
        }
    }
}

#[test]
fn conflict_names_add_a_conflict_suffix() {
    assert_eq!(
        make_conflict_name(&RelPath::new("docs/report.pdf"), "2024-01-02"),
        "report.pdf.conflict-2024-01-02"
    );
    assert_eq!(
        make_conflict_name(&RelPath::new("Makefile"), "2024-01-02"),
        "Makefile.conflict-2024-01-02"
    );
    assert_eq!(
        make_conflict_name(&RelPath::new(".."), "D"),
        "file.conflict-D"
    );
}

#[test]
fn keep_both_renames_local_and_copies_both_ways() {
    let diff = DiffResult {
        local: vec![Change::Modified(RelPath::new("docs/a.txt"))],
        remote: vec![Change::Modified(RelPath::new("docs/a.txt"))],
    };
    let local = map_of(vec![entry_with_hash("docs/a.txt", 1, 10, "l")]);
    let remote = map_of(vec![entry_with_hash("docs/a.txt", 2, 20, "r")]);
    let context = ctx(&local, &remote, false);
    let plan = reconcile_on(
        &diff,
        &SyncIndex::default(),
        SyncMode::Bidirectional,
        ConflictPolicy::KeepBoth,
        &context,
        "2024-05-06",
    );
    let got: Vec<String> = plan.actions.iter().map(describe).collect();
    assert_eq!(
        got,
        vec![
            "rename Local docs/a.txt a.txt.conflict-2024-05-06",
            "dir Local docs",
            "copy Remote docs/a.txt",
            "dir Remote docs",
            "copy Local docs/a.txt",
        ]
    );
    assert_eq!(plan.conflicts.len(), 1);
    assert_eq!(plan.conflicts[0].kind, ConflictKind::BothModified);
    assert_eq!(plan.conflicts[0].resolution, ConflictResolution::KeepBoth);
    assert_eq!(plan.conflicts[0].winner, Side::Local);
}

#[test]
fn clock_offset_and_tolerance_decide_the_newer_side() {
    let diff = DiffResult {
        local: vec![Change::Modified(RelPath::new("f.txt"))],
        remote: vec![Change::Modified(RelPath::new("f.txt"))],
    };
    let local = map_of(vec![entry_with_hash("f.txt", 1, 1000, "l")]);
    // Remote clock runs 100 s ahead: its 1104 is the local 1004, within tolerance.
    let remote = map_of(vec![entry_with_hash("f.txt", 1, 1104, "r")]);
    let mut context = ctx(&local, &remote, false);
    context.clock_offset_secs = 100;
    let plan = reconcile_on(&diff, &SyncIndex::default(), SyncMode::Bidirectional, ConflictPolicy::NewerWins, &context, "d");
    assert_eq!(plan.conflicts[0].winner, Side::Local);
    // Without the offset the remote copy is newer.
    context.clock_offset_secs = 0;
    let plan = reconcile_on(&diff, &SyncIndex::default(), SyncMode::Bidirectional, ConflictPolicy::NewerWins, &context, "d");
    assert_eq!(plan.conflicts[0].winner, Side::Remote);
    assert_eq!(describe(&plan.actions[0]), "copy Remote f.txt");
}

#[test]
fn parent_dirs_come_first_and_once() {
    let diff = DiffResult {
        local: vec![
            Change::Created(RelPath::new("a/b/one.txt")),
            Change::Created(RelPath::new("a/b/two.txt")),
        ],
        remote: vec![],
    };
    let local = map_of(vec![entry("a/b/one.txt", 1, 1), entry("a/b/two.txt", 1, 1)]);
    let remote = PathMap::new();
    let context = ctx(&local, &remote, false);
    let plan = reconcile_on(&diff, &SyncIndex::default(), SyncMode::Push, ConflictPolicy::NewerWins, &context, "d");
    let got: Vec<String> = plan.actions.iter().map(describe).collect();
    assert_eq!(
        got,
        vec![
            "dir Remote a",
            "dir Remote a/b",
            "copy Local a/b/one.txt",
            "copy Local a/b/two.txt",
        ]
    );
}

#[test]
fn pull_mirrors_push() {
    let diff = DiffResult {
        local: vec![Change::Created(RelPath::new("ignored.txt"))],
        remote: vec![Change::Created(RelPath::new("x.txt")), Change::Deleted(RelPath::new("y.txt"))],
    };
    let local = map_of(vec![entry("ignored.txt", 1, 1)]);
    let remote = map_of(vec![entry("x.txt", 1, 1)]);
    let context = ctx(&local, &remote, true);
    let plan = reconcile_on(&diff, &SyncIndex::default(), SyncMode::Pull, ConflictPolicy::KeepBoth, &context, "d");
    let got: Vec<String> = plan.actions.iter().map(describe).collect();
    assert_eq!(got, vec!["copy Remote x.txt", "delete Local y.txt"]);
    assert!(plan.conflicts.is_empty());
}

#[test]
fn keep_both_names_the_copy_with_todays_date() {
    let diff = DiffResult {
        local: vec![Change::Modified(RelPath::new("a.txt"))],
        remote: vec![Change::Modified(RelPath::new("a.txt"))],
    };
    let local = map_of(vec![entry_with_hash("a.txt", 1, 10, "l")]);
    let remote = map_of(vec![entry_with_hash("a.txt", 2, 20, "r")]);
    let context = ctx(&local, &remote, false);
    let plan = reconcile(
        &diff,
        &SyncIndex::default(),
        SyncMode::Bidirectional,
        ConflictPolicy::KeepBoth,
        &context,
    )
    .unwrap();
    match &plan.actions[0] {
        Action::RenameConflict { on: Side::Local, path, new_name } => {
            assert_eq!(path.display(), "a.txt");
            let today = filesync::clock::today_utc().unwrap();
            assert_eq!(new_name, &format!("a.txt.conflict-{}", today));
        }
        other => panic!("expected a rename, got {}", describe(other)),
    }
}

#[test]
fn newer_wins_does_not_depend_on_the_date() {
    let diff = DiffResult {
        local: vec![Change::Modified(RelPath::new("a.txt"))],
        remote: vec![Change::Modified(RelPath::new("a.txt"))],
    };
    let local = map_of(vec![entry_with_hash("a.txt", 1, 10, "l")]);
    let remote = map_of(vec![entry_with_hash("a.txt", 2, 2000, "r")]);
    let context = ctx(&local, &remote, false);
    let a = reconcile_on(&diff, &SyncIndex::default(), SyncMode::Bidirectional, ConflictPolicy::NewerWins, &context, "2024-01-01");
    let b = reconcile_on(&diff, &SyncIndex::default(), SyncMode::Bidirectional, ConflictPolicy::NewerWins, &context, "");
    let c = reconcile(&diff, &SyncIndex::default(), SyncMode::Bidirectional, ConflictPolicy::NewerWins, &context).unwrap();
    let da: Vec<String> = a.actions.iter().map(describe).collect();
    let db: Vec<String> = b.actions.iter().map(describe).collect();
    let dc: Vec<String> = c.actions.iter().map(describe).collect();
    assert_eq!(da, db);
    assert_eq!(da, dc);
    assert_eq!(da, vec!["copy Remote a.txt".to_string()]);
}

#[test]
fn pick_newer_allows_five_seconds_of_skew() {
    for (l, r, offset, want) in [(1000, 1003, 0, Side::Local), (1000, 2000, 1500, Side::Local), (1000, 1006, 0, Side::Remote)] {
        let local = map_of(vec![entry("a.txt", 1, l)]);
        let remote = map_of(vec![entry("a.txt", 1, r)]);
        let mut context = ctx(&local, &remote, false);
        context.clock_offset_secs = offset;
        assert_eq!(pick_newer(&RelPath::new("a.txt"), &context), want);
    }
    let empty = PathMap::new();
    let remote = map_of(vec![entry("b.txt", 1, 5)]);
    assert_eq!(pick_newer(&RelPath::new("b.txt"), &ctx(&empty, &remote, false)), Side::Remote);
    assert_eq!(pick_newer(&RelPath::new("c.txt"), &ctx(&empty, &remote, false)), Side::Local);
}
