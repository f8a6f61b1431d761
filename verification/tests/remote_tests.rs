use filesync::path::RelPath;
use filesync::reconcile::{Action, Side, SyncMode};
use filesync::remote::{bidi_route, find_pull_action, paths_to_pull, pull_route, push_route, run_order, PeerRequest, Route};

fn plan() -> Vec<Action> {
    vec![
        Action::CreateDir { on: Side::Remote, path: RelPath::new("r") },
        Action::CreateDir { on: Side::Local, path: RelPath::new("l") },
        Action::CopyFile { from: Side::Local, path: RelPath::new("up.txt") },
        Action::CopyFile { from: Side::Remote, path: RelPath::new("Down.txt") },
        Action::Delete { on: Side::Local, path: RelPath::new("old") },
        Action::RenameConflict { on: Side::Local, path: RelPath::new("d/c.txt"), new_name: "c (x).txt".to_string() },
        Action::RenameConflict { on: Side::Remote, path: RelPath::new("e.txt"), new_name: "e (x).txt".to_string() },
        Action::CopyFile { from: Side::Remote, path: RelPath::new("b/two.txt") },
    ]
}

#[test]
fn push_sends_remote_side_work_to_the_peer() {
    let p = plan();
    assert!(matches!(push_route(&p[0]), Route::Peer(PeerRequest::Mkdir(ref x)) if x.display() == "r"));
    assert!(matches!(push_route(&p[2]), Route::Peer(PeerRequest::PutFile(ref x)) if x.display() == "up.txt"));
    assert!(matches!(push_route(&p[1]), Route::Done));
    assert!(matches!(push_route(&p[6]), Route::Done));
}

#[test]
fn bidi_splits_between_peer_local_and_pulls() {
    let p = plan();
    let root = "/home/me/sync";
    assert!(matches!(bidi_route(&p[1], root), Route::MkdirLocal(ref s) if s == "/home/me/sync/l"));
    assert!(matches!(bidi_route(&p[3], root), Route::Pull(ref x) if x.display() == "Down.txt"));
    assert!(matches!(bidi_route(&p[4], root), Route::DeleteLocal(ref s) if s == "/home/me/sync/old"));
    match bidi_route(&p[5], root) {
        Route::RenameLocal { from, to } => {
            assert_eq!(from, "/home/me/sync/d/c.txt");
            assert_eq!(to, "/home/me/sync/c (x).txt");
        }
        other => panic!("unexpected {:?}", other),
    }
    assert!(matches!(bidi_route(&p[6], root), Route::Peer(PeerRequest::Rename { ref path, ref new_name }) if path.display() == "e.txt" && new_name == "e (x).txt"));
    assert!(matches!(pull_route(&p[0], root), Route::Ignored));
    assert!(matches!(pull_route(&p[1], root), Route::MkdirLocal(_)));
}

#[test]
fn pulls_are_collected_and_found_by_normalized_path() {
    let p = plan();
    let pulls: Vec<String> = paths_to_pull(&p).iter().map(|x| x.display().to_string()).collect();
    assert_eq!(pulls, vec!["Down.txt", "b/two.txt"]);
    assert_eq!(find_pull_action(&p, &RelPath::new("down.TXT")), Some(3));
    assert_eq!(find_pull_action(&p, &RelPath::new("up.txt")), None);
}

#[test]
fn a_pull_run_makes_directories_then_deletions_first() {
    let routes = vec![
        Route::DeleteLocal("/r/old".to_string()),
        Route::Pull(RelPath::new("a.txt")),
        Route::MkdirLocal("/r/d".to_string()),
        Route::Ignored,
        Route::MkdirLocal("/r/e".to_string()),
        Route::DeleteLocal("/r/gone".to_string()),
    ];
    assert_eq!(run_order(SyncMode::Pull, &routes), vec![2, 4, 0, 5]);
    assert_eq!(run_order(SyncMode::Push, &routes), vec![0, 1, 2, 3, 4, 5]);
    assert_eq!(run_order(SyncMode::Bidirectional, &routes), vec![0, 1, 2, 3, 4, 5]);
}

#[test]
fn a_failed_step_does_not_stop_the_run() {
    let mut t = filesync::remote::RunTally::new();
    t.record_step((Some(0), Err("mkdir a: denied".to_string())), false);
    t.record_step((Some(1), Ok(12)), false);
    t.record_step((Some(2), Ok(0)), false);
    t.record_step((None, Ok(5)), true);
    t.record_step((None, Err("recv b: gone".to_string())), true);
    assert_eq!(t.executed, vec![1, 2]);
    assert_eq!(t.errors, vec!["mkdir a: denied".to_string(), "recv b: gone".to_string()]);
    assert_eq!(t.bytes_transferred, 17);
    assert_eq!(t.files_transferred, 2);
}
