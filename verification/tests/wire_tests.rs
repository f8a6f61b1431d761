use filesync::error::{is_connection_closed, Error, IoFailure, IoKind};
use filesync::path::RelPath;
use filesync::reconcile::{ConflictPolicy, SyncMode};
use filesync::wire::{
    conflict_policy_to_str, parse_conflict_policy, parse_sync_mode, sync_mode_to_str,
    validate_rel_path, ErrorCode,
};

#[test]
fn settings_are_spelled_and_read_back() {
    for m in [SyncMode::Push, SyncMode::Pull, SyncMode::Bidirectional] {
        assert_eq!(parse_sync_mode(sync_mode_to_str(m)), m);
    }
    for p in [ConflictPolicy::NewerWins, ConflictPolicy::KeepBoth] {
        assert_eq!(parse_conflict_policy(conflict_policy_to_str(p)), p);
    }
    assert_eq!(sync_mode_to_str(SyncMode::Bidirectional), "bidirectional");
    assert_eq!(conflict_policy_to_str(ConflictPolicy::NewerWins), "newer_wins");
    assert_eq!(parse_sync_mode("PUSH"), SyncMode::Bidirectional);
    assert_eq!(parse_sync_mode(""), SyncMode::Bidirectional);
    assert_eq!(parse_conflict_policy("keep-both"), ConflictPolicy::NewerWins);
}

#[test]
fn traversal_is_access_denied() {
    assert!(validate_rel_path(&RelPath::new("docs/a.txt")).is_ok());
    match validate_rel_path(&RelPath::new("../secret")) {
        Err((code, msg)) => {
            assert_eq!(code, ErrorCode::AccessDenied);
            assert_eq!(msg, "path traversal rejected: ../secret");
        }
        Ok(()) => panic!("traversal accepted"),
    }
}

#[test]
fn closed_connections_are_recognized() {
    let io = |kind| Error::Io(IoFailure { kind, message: "x".to_string() });
    assert!(is_connection_closed(&io(IoKind::UnexpectedEof)));
    assert!(is_connection_closed(&io(IoKind::ConnectionReset)));
    assert!(is_connection_closed(&io(IoKind::BrokenPipe)));
    assert!(!is_connection_closed(&io(IoKind::Other)));
    assert!(is_connection_closed(&Error::Tls("peer sent close_notify alert".to_string())));
    assert!(is_connection_closed(&Error::Transport("UnexpectedEof while reading".to_string())));
    assert!(!is_connection_closed(&Error::Rpc("bad request".to_string())));
}

#[test]
fn errors_display_with_their_kind() {
    assert_eq!(Error::Transport("boom".to_string()).message(), "transport error: boom");
    assert_eq!(Error::Rpc("x".to_string()).message(), "RPC error: x");
    assert_eq!(
        Error::Io(IoFailure { kind: IoKind::Other, message: "denied".to_string() }).message(),
        "I/O error: denied"
    );
}
