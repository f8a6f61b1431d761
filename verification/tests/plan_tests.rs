use filesync::path::RelPath;
use filesync::plan::{dedup_dirs, order_actions};
use filesync::reconcile::{Action, Side, SyncPlan};

#[test]
fn dirs_before_copies_before_deletes() {
    let mut plan = SyncPlan {
        actions: vec![
            Action::Delete {
                on: Side::Remote,
                path: RelPath::new("old.txt"),
            },
            Action::CopyFile {
                from: Side::Local,
                path: RelPath::new("new.txt"),
            },
            Action::CreateDir {
                on: Side::Remote,
                path: RelPath::new("subdir"),
            },
        ],
        conflicts: vec![],
    };

    order_actions(&mut plan);

    assert!(matches!(&plan.actions[0], Action::CreateDir { .. }));
    assert!(matches!(&plan.actions[1], Action::CopyFile { .. }));
    assert!(matches!(&plan.actions[2], Action::Delete { .. }));
}

#[test]
fn parent_dirs_created_before_children() {
    let mut plan = SyncPlan {
        actions: vec![
            Action::CreateDir {
                on: Side::Remote,
                path: RelPath::new("a/b/c"),
            },
            Action::CreateDir {
                on: Side::Remote,
                path: RelPath::new("a"),
            },
            Action::CreateDir {
                on: Side::Remote,
                path: RelPath::new("a/b"),
            },
        ],
        conflicts: vec![],
    };

    order_actions(&mut plan);

    let paths: Vec<_> = plan
        .actions
        .iter()
        .map(|a| match a {
            Action::CreateDir { path, .. } => path.display().to_string(),
            _ => String::new(),
        })
        .collect();
    assert_eq!(paths, vec!["a", "a/b", "a/b/c"]);
}

#[test]
fn children_deleted_before_parents() {
    let mut plan = SyncPlan {
        actions: vec![
            Action::Delete {
                on: Side::Remote,
                path: RelPath::new("dir"),
            },
            Action::Delete {
                on: Side::Remote,
                path: RelPath::new("dir/sub/file.txt"),
            },
            Action::Delete {
                on: Side::Remote,
                path: RelPath::new("dir/sub"),
            },
        ],
        conflicts: vec![],
    };

    order_actions(&mut plan);

    let paths: Vec<_> = plan
        .actions
        .iter()
        .map(|a| match a {
            Action::Delete { path, .. } => path.display().to_string(),
            _ => String::new(),
        })
        .collect();
    assert_eq!(paths, vec!["dir/sub/file.txt", "dir/sub", "dir"]);
}

#[test]
fn dedup_removes_duplicate_dirs() {
    let mut plan = SyncPlan {
        actions: vec![
            Action::CreateDir {
                on: Side::Remote,
                path: RelPath::new("sub"),
            },
            Action::CreateDir {
                on: Side::Remote,
                path: RelPath::new("sub"),
            },
            Action::CopyFile {
                from: Side::Local,
                path: RelPath::new("sub/file.txt"),
            },
        ],
        conflicts: vec![],
    };

    dedup_dirs(&mut plan);

    let dir_count = plan
        .actions
        .iter()
        .filter(|a| matches!(a, Action::CreateDir { .. }))
        .count();
    assert_eq!(dir_count, 1);
}

fn describe(a: &Action) -> String {
    match a {
        Action::CreateDir { on, path } => format!("dir {:?} {}", on, path.display()),
        Action::CopyFile { from, path } => format!("copy {:?} {}", from, path.display()),
        Action::Delete { on, path } => format!("delete {:?} {}", on, path.display()),
        Action::RenameConflict { on, path, new_name } => {
            format!("rename {:?} {} {}", on, path.display(), new_name)
        }
    }
}

#[test]
fn ordering_is_stable_within_a_phase() {
    let mut plan = SyncPlan {
        actions: vec![
            Action::CopyFile { from: Side::Local, path: RelPath::new("z/deep/file.txt") },
            Action::RenameConflict {
                on: Side::Local,
                path: RelPath::new("a.txt"),
                new_name: "a (conflict).txt".to_string(),
            },
            Action::Delete { on: Side::Local, path: RelPath::new("x") },
            Action::CopyFile { from: Side::Remote, path: RelPath::new("b.txt") },
            Action::CreateDir { on: Side::Local, path: RelPath::new("p/q") },
            Action::Delete { on: Side::Remote, path: RelPath::new("y") },
            Action::CreateDir { on: Side::Remote, path: RelPath::new("r") },
        ],
        conflicts: vec![],
    };
    order_actions(&mut plan);
    let got: Vec<String> = plan.actions.iter().map(describe).collect();
    assert_eq!(
        got,
        vec![
            "dir Remote r",
            "dir Local p/q",
            "copy Local z/deep/file.txt",
            "rename Local a.txt a (conflict).txt",
            "copy Remote b.txt",
            "delete Local x",
            "delete Remote y",
        ]
    );
    // Ordering an ordered plan changes nothing.
    order_actions(&mut plan);
    let again: Vec<String> = plan.actions.iter().map(describe).collect();
    assert_eq!(again, got);
}

#[test]
fn dedup_compares_side_and_normalized_path() {
    let mut plan = SyncPlan {
        actions: vec![
            Action::CreateDir { on: Side::Remote, path: RelPath::new("Photos") },
            Action::CreateDir { on: Side::Local, path: RelPath::new("photos") },
            Action::Delete { on: Side::Remote, path: RelPath::new("photos") },
            Action::CreateDir { on: Side::Remote, path: RelPath::new("PHOTOS") },
            Action::Delete { on: Side::Remote, path: RelPath::new("photos") },
        ],
        conflicts: vec![],
    };
    dedup_dirs(&mut plan);
    let got: Vec<String> = plan.actions.iter().map(describe).collect();
    assert_eq!(
        got,
        vec![
            "dir Remote Photos",
            "dir Local photos",
            "delete Remote photos",
            "delete Remote photos",
        ]
    );
}
