use filesync::apply::{apply_plan, fs_op_for, ApplyContext, ApplyRun, FsOp};
use filesync::path::RelPath;
use filesync::reconcile::{Action, Side, SyncPlan};

fn ctx() -> ApplyContext {
    ApplyContext { local_root: "/home/a/docs".to_string(), remote_root: "/srv/b/".to_string() }
}

#[test]
fn actions_map_to_filesystem_operations() {
    let c = ctx();
    assert_eq!(c.root_for(Side::Remote), "/srv/b/");
    match fs_op_for(&Action::CreateDir { on: Side::Remote, path: RelPath::new("sub") }, &c) {
        FsOp::CreateDirAll { path } => assert_eq!(path, "/srv/b/sub"),
        other => panic!("unexpected {:?}", other),
    }
    match fs_op_for(&Action::CopyFile { from: Side::Local, path: RelPath::new("sub/f.txt") }, &c) {
        FsOp::AtomicCopy { source, dest } => {
            assert_eq!(source, "/home/a/docs/sub/f.txt");
            assert_eq!(dest, "/srv/b/sub/f.txt");
        }
        other => panic!("unexpected {:?}", other),
    }
    match fs_op_for(&Action::Delete { on: Side::Local, path: RelPath::new("old.txt") }, &c) {
        FsOp::Remove { path } => assert_eq!(path, "/home/a/docs/old.txt"),
        other => panic!("unexpected {:?}", other),
    }
    let rename = Action::RenameConflict {
        on: Side::Local,
        path: RelPath::new("sub/f.txt"),
        new_name: "f.txt.conflict-2024-01-01".to_string(),
    };
    match fs_op_for(&rename, &c) {
        FsOp::RenameIfExists { from, to } => {
            assert_eq!(from, "/home/a/docs/sub/f.txt");
            assert_eq!(to, "/home/a/docs/sub/f.txt.conflict-2024-01-01");
        }
        other => panic!("unexpected {:?}", other),
    }
}

#[test]
fn every_outcome_is_recorded_in_order() {
    let plan = SyncPlan {
        actions: vec![
            Action::CopyFile { from: Side::Local, path: RelPath::new("good.txt") },
            Action::CopyFile { from: Side::Local, path: RelPath::new("nonexistent.txt") },
            Action::CreateDir { on: Side::Remote, path: RelPath::new("d") },
        ],
        conflicts: vec![],
    };
    let outcomes = vec![Ok(()), Err("No such file or directory".to_string()), Ok(())];
    let result = apply_plan(&plan, &outcomes);
    assert_eq!(result.applied.len(), 2);
    assert_eq!(result.errors.len(), 1);
    assert!(matches!(&result.errors[0].action, Action::CopyFile { path, .. } if path.display() == "nonexistent.txt"));
    assert_eq!(result.errors[0].error, "No such file or directory");
    assert!(matches!(&result.applied[0].action, Action::CopyFile { path, .. } if path.display() == "good.txt"));
    assert!(matches!(&result.applied[1].action, Action::CreateDir { .. }));
}

#[test]
fn a_run_attempts_every_action_in_order_after_a_failure() {
    let plan = SyncPlan {
        actions: vec![
            Action::CopyFile { from: Side::Local, path: RelPath::new("missing.txt") },
            Action::CopyFile { from: Side::Local, path: RelPath::new("ok.txt") },
        ],
        conflicts: vec![],
    };
    let mut run = ApplyRun::new();
    let mut order = Vec::new();
    while let Some(i) = run.next_action(&plan) {
        order.push(i);
        run.record(if i == 0 { Err("no such file".to_string()) } else { Ok(()) });
    }
    assert_eq!(order, vec![0, 1]);
    let r = run.finish(&plan).unwrap();
    assert_eq!(r.errors.len(), 1);
    assert_eq!(r.applied.len(), 1);
    assert_eq!(r.errors[0].error, "no such file");
}
