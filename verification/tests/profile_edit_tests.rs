use filesync::profile_edits::{anchor_rows, new_profile_row, profile_detail, profile_view, updated_profile_row};
use filesync::views::{AnchorInput, ProfileInput};

fn input(name: &str) -> ProfileInput {
    ProfileInput {
        name: name.to_string(),
        mode: "push".to_string(),
        peer_name: "Laptop".to_string(),
        peer_id: "peer-1".to_string(),
        delete_propagation: true,
        conflict_policy: "keep_both".to_string(),
        anchors: vec![AnchorInput {
            local_path: "/home/me/Docs".to_string(),
            remote_path: "/Users/me/Docs".to_string(),
            max_depth: 3,
            include_hidden: false,
            ignore_patterns: vec!["*.tmp".to_string()],
        }],
    }
}

#[test]
fn a_new_profile_starts_at_version_one() {
    let p = new_profile_row(5, &input("Work"), "2026-01-01T00:00:00Z");
    assert_eq!(p.id, 5);
    assert_eq!(p.name, "Work");
    assert_eq!(p.mode, "push");
    assert_eq!(p.version, 1);
    assert_eq!(p.created_at, "2026-01-01T00:00:00Z");
    assert_eq!(p.updated_at, "2026-01-01T00:00:00Z");
    assert_eq!(p.origin_instance_id, "");
    assert!(!p.pending_deletion);
    assert!(p.delete_propagation);
}

#[test]
fn an_edit_bumps_the_version_and_keeps_creation_and_origin() {
    let mut existing = new_profile_row(9, &input("Old"), "2026-01-01T00:00:00Z");
    existing.version = 4;
    existing.origin_instance_id = "origin".to_string();
    existing.pending_deletion = true;
    let p = updated_profile_row(&existing, &input("New"), "2026-02-02T00:00:00Z");
    assert_eq!(p.id, 9);
    assert_eq!(p.name, "New");
    assert_eq!(p.version, 5);
    assert_eq!(p.created_at, "2026-01-01T00:00:00Z");
    assert_eq!(p.updated_at, "2026-02-02T00:00:00Z");
    assert_eq!(p.origin_instance_id, "origin");
    assert!(!p.pending_deletion);
}

#[test]
fn entered_anchors_are_stored_for_the_profile() {
    let rows = anchor_rows(9, &input("X").anchors);
    assert_eq!(rows.len(), 1);
    assert_eq!(rows[0].id, 0);
    assert_eq!(rows[0].profile_id, 9);
    assert_eq!(rows[0].local_path, "/home/me/Docs");
    assert_eq!(rows[0].remote_path, "/Users/me/Docs");
    assert_eq!(rows[0].max_depth, 3);
    assert_eq!(rows[0].ignore_patterns, vec!["*.tmp".to_string()]);
}

#[test]
fn profiles_are_shown_with_their_uuid_text() {
    let id: u128 = 0x0123_4567_89ab_cdef_0123_4567_89ab_cdef;
    let p = new_profile_row(id, &input("Work"), "now");
    let v = profile_view(&p);
    assert_eq!(v.id, "01234567-89ab-cdef-0123-456789abcdef");
    assert_eq!(v.name, "Work");
    assert_eq!(v.version, 1);
    let anchors = anchor_rows(id, &input("Work").anchors);
    let d = profile_detail(&p, &anchors);
    assert_eq!(d.id, v.id);
    assert_eq!(d.peer_id, "peer-1");
    assert_eq!(d.anchors.len(), 1);
    assert_eq!(d.anchors[0].local_path, "/home/me/Docs");
}
