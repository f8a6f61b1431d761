use filesync::diff::{Change, DiffResult, SyncIndex};
use filesync::path::RelPath;
use filesync::pathmap::PathMap;
use filesync::reconcile::{reconcile_on, Action, ConflictPolicy, ReconcileContext, Side, SyncMode};
use filesync::scan::{EntryKind, FileEntry};

fn file(path: &str, size: u64, mtime_secs: i64, hash: &str) -> FileEntry {
    FileEntry { path: RelPath::new(path), kind: EntryKind::File, size, mtime_secs, hash: Some(hash.to_string()) }
}

fn map_of(files: Vec<FileEntry>) -> PathMap<FileEntry> {
    let mut m = PathMap::new();
    for f in files {
        m.insert(f.path.clone(), f);
    }
    m
}

fn mixed_diff() -> DiffResult {
    DiffResult {
        local: vec![
            Change::Deleted(RelPath::new("x/gone.txt")),
            Change::Modified(RelPath::new("both.txt")),
            Change::Created(RelPath::new("x/y/new.txt")),
            Change::Deleted(RelPath::new("dve.txt")),
        ],
        remote: vec![
            Change::Modified(RelPath::new("both.txt")),
            Change::Deleted(RelPath::new("r/gone.txt")),
            Change::Modified(RelPath::new("dve.txt")),
            Change::Created(RelPath::new("r/new.txt")),
        ],
    }
}

fn entries() -> (PathMap<FileEntry>, PathMap<FileEntry>) {
    (
        map_of(vec![file("both.txt", 1, 10, "l"), file("x/y/new.txt", 1, 10, "n")]),
        map_of(vec![file("both.txt", 2, 20, "r"), file("dve.txt", 3, 30, "d"), file("r/new.txt", 4, 40, "rn")]),
    )
}

#[test]
fn no_plan_deletes_without_propagation() {
    let diff = mixed_diff();
    let (local, remote) = entries();
    for mode in [SyncMode::Push, SyncMode::Pull, SyncMode::Bidirectional] {
        for policy in [ConflictPolicy::NewerWins, ConflictPolicy::KeepBoth] {
            let ctx = ReconcileContext {
                local_entries: &local,
                remote_entries: &remote,
                delete_propagation: false,
                peer_name: "P".to_string(),
                clock_offset_secs: 0,
            };
            let plan = reconcile_on(&diff, &SyncIndex::default(), mode, policy, &ctx, "d");
            assert!(plan.actions.iter().all(|a| !matches!(a, Action::Delete { .. })));
            // Every copy names a path its source side has an entry for.
            for a in &plan.actions {
                if let Action::CopyFile { from, path } = a {
                    let src = if *from == Side::Local { &local } else { &remote };
                    assert!(src.contains_key(path));
                }
            }
        }
    }
}

#[test]
fn one_way_modes_only_move_data_one_way() {
    let diff = mixed_diff();
    let (local, remote) = entries();
    let ctx = ReconcileContext {
        local_entries: &local,
        remote_entries: &remote,
        delete_propagation: true,
        peer_name: "P".to_string(),
        clock_offset_secs: 0,
    };
    let push = reconcile_on(&diff, &SyncIndex::default(), SyncMode::Push, ConflictPolicy::KeepBoth, &ctx, "d");
    assert!(push.conflicts.is_empty());
    for a in &push.actions {
        match a {
            Action::CopyFile { from, .. } => assert_eq!(*from, Side::Local),
            Action::CreateDir { on, .. } | Action::Delete { on, .. } => assert_eq!(*on, Side::Remote),
            Action::RenameConflict { .. } => panic!("push renamed"),
        }
    }
    let pull = reconcile_on(&diff, &SyncIndex::default(), SyncMode::Pull, ConflictPolicy::KeepBoth, &ctx, "d");
    assert!(pull.conflicts.is_empty());
    for a in &pull.actions {
        match a {
            Action::CopyFile { from, .. } => assert_eq!(*from, Side::Remote),
            Action::CreateDir { on, .. } | Action::Delete { on, .. } => assert_eq!(*on, Side::Local),
            Action::RenameConflict { .. } => panic!("pull renamed"),
        }
    }
}

#[test]
fn empty_and_disjoint_and_converged_diffs() {
    let (local, remote) = entries();
    let ctx = ReconcileContext {
        local_entries: &local,
        remote_entries: &remote,
        delete_propagation: true,
        peer_name: "P".to_string(),
        clock_offset_secs: 0,
    };
    let empty = DiffResult { local: vec![], remote: vec![] };
    for mode in [SyncMode::Push, SyncMode::Pull, SyncMode::Bidirectional] {
        let plan = reconcile_on(&empty, &SyncIndex::default(), mode, ConflictPolicy::NewerWins, &ctx, "d");
        assert!(plan.actions.is_empty() && plan.conflicts.is_empty());
    }
    let disjoint = DiffResult {
        local: vec![Change::Created(RelPath::new("x/y/new.txt")), Change::Deleted(RelPath::new("a"))],
        remote: vec![Change::Created(RelPath::new("r/new.txt")), Change::Deleted(RelPath::new("b"))],
    };
    let plan = reconcile_on(&disjoint, &SyncIndex::default(), SyncMode::Bidirectional, ConflictPolicy::KeepBoth, &ctx, "d");
    assert!(plan.conflicts.is_empty());

    let same = map_of(vec![file("s.txt", 5, 1, "h"), file("t/u.txt", 6, 2, "g")]);
    let same2 = map_of(vec![file("S.TXT", 5, 9, "h"), file("t/u.txt", 6, 8, "g")]);
    let ctx2 = ReconcileContext {
        local_entries: &same,
        remote_entries: &same2,
        delete_propagation: false,
        peer_name: "P".to_string(),
        clock_offset_secs: 0,
    };
    let converged = DiffResult {
        local: vec![Change::Modified(RelPath::new("s.txt")), Change::Created(RelPath::new("t/u.txt"))],
        remote: vec![Change::Modified(RelPath::new("t/u.txt")), Change::Modified(RelPath::new("S.txt"))],
    };
    let plan = reconcile_on(&converged, &SyncIndex::default(), SyncMode::Bidirectional, ConflictPolicy::NewerWins, &ctx2, "d");
    assert!(plan.actions.is_empty());
    assert!(plan.conflicts.is_empty());
}

fn describe(a: &Action) -> String {
    match a {
        Action::CreateDir { on, path } => format!("dir {:?} {}", on, path.display()),
        Action::CopyFile { from, path } => format!("copy {:?} {}", from, path.display()),
        Action::Delete { on, path } => format!("delete {:?} {}", on, path.display()),
        Action::RenameConflict { on, path, new_name } => format!("rename {:?} {} {}", on, path.display(), new_name),
    }
}

fn swap(a: &str) -> String {
    a.replace("Local", "@").replace("Remote", "Local").replace('@', "Remote")
}

#[test]
fn swapping_sides_mirrors_a_disjoint_plan() {
    let (local, remote) = entries();
    let ctx = ReconcileContext {
        local_entries: &local,
        remote_entries: &remote,
        delete_propagation: true,
        peer_name: "P".to_string(),
        clock_offset_secs: 0,
    };
    let l = vec![Change::Created(RelPath::new("x/y/new.txt")), Change::Deleted(RelPath::new("x/gone.txt"))];
    let r = vec![Change::Created(RelPath::new("x/y/other.txt")), Change::Modified(RelPath::new("r/new.txt"))];
    let ab = reconcile_on(
        &DiffResult { local: l.iter().map(|c| c.clone()).collect(), remote: r.iter().map(|c| c.clone()).collect() },
        &SyncIndex::default(),
        SyncMode::Bidirectional,
        ConflictPolicy::NewerWins,
        &ctx,
        "d",
    );
    let ba = reconcile_on(&DiffResult { local: r, remote: l }, &SyncIndex::default(), SyncMode::Bidirectional, ConflictPolicy::NewerWins, &ctx, "d");
    let ab: Vec<String> = ab.actions.iter().map(describe).map(|s| swap(&s)).collect();
    let ba: Vec<String> = ba.actions.iter().map(describe).collect();
    assert_eq!(ab, ba);
    assert!(!ba.is_empty());
}

#[test]
fn only_changed_files_are_copied() {
    let diff = mixed_diff();
    let (local, remote) = entries();
    let ctx = ReconcileContext {
        local_entries: &local,
        remote_entries: &remote,
        delete_propagation: true,
        peer_name: "P".to_string(),
        clock_offset_secs: 0,
    };
    for mode in [SyncMode::Push, SyncMode::Pull, SyncMode::Bidirectional] {
        let plan = reconcile_on(&diff, &SyncIndex::default(), mode, ConflictPolicy::KeepBoth, &ctx, "d");
        for a in &plan.actions {
            if let Action::CopyFile { from, path } = a {
                let changes = if *from == Side::Local { &diff.local } else { &diff.remote };
                assert!(changes.iter().any(|c| !matches!(c, Change::Deleted(_)) && c.path() == path));
            }
        }
    }
}

#[test]
fn disjoint_edits_are_copied_from_their_own_side() {
    let diff = DiffResult {
        local: vec![Change::Created(RelPath::new("l/new.txt")), Change::Modified(RelPath::new("l.txt"))],
        remote: vec![Change::Modified(RelPath::new("r.txt")), Change::Created(RelPath::new("r/new.txt"))],
    };
    let local = map_of(vec![file("l/new.txt", 1, 10, "a"), file("l.txt", 2, 20, "b")]);
    let remote = map_of(vec![file("r.txt", 3, 30, "c"), file("r/new.txt", 4, 40, "d")]);
    for policy in [ConflictPolicy::NewerWins, ConflictPolicy::KeepBoth] {
        let ctx = ReconcileContext {
            local_entries: &local,
            remote_entries: &remote,
            delete_propagation: false,
            peer_name: "P".to_string(),
            clock_offset_secs: 0,
        };
        let plan = reconcile_on(&diff, &SyncIndex::default(), SyncMode::Bidirectional, policy, &ctx, "d");
        assert!(plan.conflicts.is_empty());
        let copies: Vec<String> = plan.actions.iter().filter(|a| matches!(a, Action::CopyFile { .. })).map(describe).collect();
        for want in ["copy Local l/new.txt", "copy Local l.txt", "copy Remote r.txt", "copy Remote r/new.txt"] {
            assert!(copies.iter().any(|c| c == want), "missing {want} in {copies:?}");
        }
    }
}

#[test]
fn the_remote_copy_wins_only_beyond_the_skew_tolerance() {
    let diff = DiffResult {
        local: vec![Change::Modified(RelPath::new("a.txt"))],
        remote: vec![Change::Modified(RelPath::new("a.txt"))],
    };
    for (l, r, offset, want) in [(1000, 1003, 0, "Local"), (1000, 1006, 0, "Remote"), (1000, 1005, 0, "Local"), (1000, 2000, 1500, "Local"), (1000, 2000, 990, "Remote")] {
        let local = map_of(vec![file("a.txt", 1, l, "x")]);
        let remote = map_of(vec![file("a.txt", 2, r, "y")]);
        let ctx = ReconcileContext {
            local_entries: &local,
            remote_entries: &remote,
            delete_propagation: false,
            peer_name: "P".to_string(),
            clock_offset_secs: offset,
        };
        let plan = reconcile_on(&diff, &SyncIndex::default(), SyncMode::Bidirectional, ConflictPolicy::NewerWins, &ctx, "d");
        assert_eq!(plan.conflicts.len(), 1);
        assert_eq!(describe(plan.actions.last().unwrap()), format!("copy {want} a.txt"));
    }
}
