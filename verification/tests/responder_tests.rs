use filesync::error::Error;
use filesync::path::RelPath;
use filesync::responder::{anchor_root, check_fetch, quick_send_steps, rename_targets, request_target, start_session, start_session_checked, QuickSendStep};
use filesync::wire::{ErrorCode, QuickSendEntry};

fn session() -> Option<filesync::responder::ResponderSession> {
    let anchors = vec![(1u128, "/srv/a".to_string()), (2u128, "/srv/b".to_string()), (1u128, "/srv/a2".to_string())];
    let (s, offset) = start_session(9, 8, &anchors, &vec![true, true, true], 1000, 990).unwrap();
    assert_eq!(offset, 10);
    Some(s)
}

#[test]
fn sessions_allow_only_existing_anchors() {
    let anchors = vec![(1u128, "/srv/a".to_string()), (2u128, "/missing".to_string())];
    match start_session(9, 8, &anchors, &vec![true, false], 0, 0) {
        Err((code, msg)) => {
            assert_eq!(code, ErrorCode::NotFound);
            assert_eq!(msg, "anchor path does not exist: /missing");
        }
        Ok(_) => panic!("missing anchor accepted"),
    }
    let s = session();
    assert_eq!(anchor_root(&s, 1).unwrap(), "/srv/a2");
    assert_eq!(anchor_root(&s, 2).unwrap(), "/srv/b");
    assert_eq!(
        anchor_root(&s, 3).unwrap_err(),
        (ErrorCode::AccessDenied, "anchor 00000000-0000-0000-0000-000000000003 not allowed".to_string())
    );
    assert_eq!(anchor_root(&None, 1).unwrap_err(), (ErrorCode::InvalidSession, "no active session".to_string()));
}

#[test]
fn requests_stay_under_their_anchor() {
    let s = session();
    assert_eq!(request_target(&s, 2, &RelPath::new("x/y.txt")).unwrap(), "/srv/b/x/y.txt");
    assert_eq!(
        request_target(&s, 2, &RelPath::new("../etc")).unwrap_err(),
        (ErrorCode::AccessDenied, "path traversal rejected: ../etc".to_string())
    );
    assert_eq!(
        rename_targets(&s, 2, &RelPath::new("d/f.txt"), "f (x).txt").unwrap(),
        ("/srv/b/d/f.txt".to_string(), "/srv/b/f (x).txt".to_string())
    );
    assert_eq!(
        rename_targets(&s, 2, &RelPath::new("d/f.txt"), "/etc/passwd").unwrap_err(),
        (ErrorCode::AccessDenied, "path traversal rejected: /etc/passwd".to_string())
    );
}

#[test]
fn fetches_stop_at_the_first_refused_path() {
    let paths = vec![RelPath::new("a.txt"), RelPath::new("missing.txt"), RelPath::new("../x")];
    assert_eq!(
        check_fetch(&paths, &vec![true, false, true]).unwrap_err(),
        (ErrorCode::NotFound, "file not found: missing.txt".to_string())
    );
    assert_eq!(
        check_fetch(&paths, &vec![true, true, true]).unwrap_err(),
        (ErrorCode::AccessDenied, "path traversal rejected: ../x".to_string())
    );
    assert!(check_fetch(&paths[..1].to_vec(), &vec![true]).is_ok());
}

#[test]
fn quick_send_skips_unsafe_entries() {
    let entries = vec![
        QuickSendEntry { rel_path: RelPath::new("docs"), size: 0, mtime_secs: 0, is_dir: true },
        QuickSendEntry { rel_path: RelPath::new("docs/a.md"), size: 3, mtime_secs: 77, is_dir: false },
        QuickSendEntry { rel_path: RelPath::new("../evil"), size: 1, mtime_secs: 0, is_dir: false },
    ];
    let steps = quick_send_steps("/dl", &entries).unwrap();
    assert!(matches!(&steps[0], QuickSendStep::MakeDir(p) if p == "/dl/docs"));
    assert!(matches!(&steps[1], QuickSendStep::Receive { dest, mtime_secs: 77 } if dest == "/dl/docs/a.md"));
    assert!(matches!(&steps[2], QuickSendStep::Skip));
    match quick_send_steps("/dl/../etc", &entries) {
        Err(Error::Session(m)) => assert_eq!(m, "path traversal in destination_dir"),
        other => panic!("unexpected {:?}", other.map(|v| v.len())),
    }
}

#[test]
fn clocks_too_far_apart_are_refused() {
    let anchors = vec![(1u128, "/srv/a".to_string())];
    let exists = vec![true];
    match start_session_checked(7, 9, &anchors, &exists, i64::MAX, -10) {
        Err((code, msg)) => {
            assert!(matches!(code, ErrorCode::Internal));
            assert_eq!(msg, "clock offset out of range");
        }
        Ok(_) => panic!("expected a refusal"),
    }
    match start_session_checked(7, 9, &anchors, &exists, 1_000, 990) {
        Ok((s, offset)) => {
            assert_eq!(offset, 10);
            assert_eq!(s.peer_id, 7);
        }
        Err(_) => panic!("expected a session"),
    }
}
