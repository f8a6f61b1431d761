use filesync::profiles::{profile_summary, profile_to_wire, replicate_decision, wire_to_profile, AnchorRow, ProfileRow, ReplicateDecision};
use filesync::reconcile::{ConflictPolicy, SyncMode};

/// Wire format round-trip: profile_to_wire → wire_to_profile preserves data with correct path flip.
#[test]
fn wire_profile_roundtrip_path_mapping() {
    let instance_a: u128 = 0x1111_2222_3333_4444_5555_6666_7777_8888;
    let instance_b: u128 = 0x9999_aaaa_bbbb_cccc_dddd_eeee_ffff_0000;

    let profile_id: u128 = 0x0123_4567_89ab_cdef_0123_4567_89ab_cdef;
    let profile = ProfileRow {
        id: profile_id,
        name: "Test".to_owned(),
        mode: "bidirectional".to_owned(),
        delete_propagation: true,
        conflict_policy: "keep_both".to_owned(),
        peer_name: "Peer".to_owned(),
        created_at: String::new(),
        updated_at: "2026-06-14T10:00:00Z".to_owned(),
        version: 5,
        peer_id: uuid::Uuid::from_u128(instance_b).to_string(),
        origin_instance_id: uuid::Uuid::from_u128(instance_a).to_string(),
        pending_deletion: false,
    };
    let anchors = vec![AnchorRow {
        id: 0,
        profile_id,
        local_path: "/Users/alice/Docs".to_owned(),
        remote_path: "/Users/bob/Shared".to_owned(),
        max_depth: 2,
        include_hidden: true,
        ignore_patterns: vec!["*.tmp".to_owned()],
    }];

    // A serializes to wire (A is origin)
    let wire = profile_to_wire(&profile, &anchors, instance_a);
    assert_eq!(wire.origin_instance_id, instance_a);
    assert_eq!(wire.anchors[0].side_a_path, "/Users/alice/Docs");
    assert_eq!(wire.anchors[0].side_b_path, "/Users/bob/Shared");

    // B deserializes (B is NOT origin)
    let (row_b, anchors_b) = wire_to_profile(&wire, instance_b);
    assert_eq!(row_b.name, "Test");
    assert_eq!(row_b.version, 5);
    // B's local_path is side_b (its path), remote_path is side_a (A's path)
    assert_eq!(anchors_b[0].local_path, "/Users/bob/Shared");
    assert_eq!(anchors_b[0].remote_path, "/Users/alice/Docs");
    assert_eq!(anchors_b[0].max_depth, 2);
    assert!(anchors_b[0].include_hidden);
    assert_eq!(anchors_b[0].ignore_patterns, vec!["*.tmp"]);

    // B re-serializes back to wire (B is NOT origin, so it should reconstruct correctly)
    let wire2 = profile_to_wire(&row_b, &anchors_b, instance_b);
    assert_eq!(wire2.origin_instance_id, instance_a); // origin preserved
    assert_eq!(wire2.anchors[0].side_a_path, "/Users/alice/Docs");
    assert_eq!(wire2.anchors[0].side_b_path, "/Users/bob/Shared");
}

#[test]
fn unreadable_origin_makes_this_instance_the_origin() {
    let me: u128 = 42;
    let profile = ProfileRow {
        id: 7,
        name: "P".to_owned(),
        mode: "push".to_owned(),
        delete_propagation: false,
        conflict_policy: "newer_wins".to_owned(),
        peer_name: String::new(),
        created_at: String::new(),
        updated_at: "t".to_owned(),
        version: 1,
        peer_id: String::new(),
        origin_instance_id: String::new(),
        pending_deletion: false,
    };
    let wire = profile_to_wire(&profile, &vec![], me);
    assert_eq!(wire.origin_instance_id, me);
    assert_eq!(wire.mode, SyncMode::Push);
    assert_eq!(wire.conflict_policy, ConflictPolicy::NewerWins);
    let (row, anchors) = wire_to_profile(&wire, me);
    assert_eq!(row.origin_instance_id, "00000000-0000-0000-0000-00000000002a");
    assert_eq!(row.mode, "push");
    assert!(anchors.is_empty());
    let s = profile_summary(&row);
    assert_eq!((s.id, s.version, s.mode), (7, 1, SyncMode::Push));
}

#[test]
fn replication_keeps_the_newest_version() {
    assert_eq!(replicate_decision(3, None), ReplicateDecision::InsertNew);
    assert_eq!(replicate_decision(4, Some(3)), ReplicateDecision::ReplaceLocal);
    assert_eq!(replicate_decision(2, Some(3)), ReplicateDecision::ReportLocalNewer);
    assert_eq!(replicate_decision(3, Some(3)), ReplicateDecision::AlreadyCurrent);
}
