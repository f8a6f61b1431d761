//! The values the desktop interface shows and sends.
use vstd::prelude::*;

verus! {

/// Simplified profile view for list display.
#[derive(Debug, Clone)]
pub struct ProfileView {
    pub id: String,
    pub name: String,
    pub mode: String,
    pub peer_name: String,
    pub delete_propagation: bool,
    pub conflict_policy: String,
    pub updated_at: String,
    pub version: u64,
    pub pending_deletion: bool,
}

/// Full profile detail including anchors.
#[derive(Debug, Clone)]
pub struct ProfileDetail {
    pub id: String,
    pub name: String,
    pub mode: String,
    pub peer_name: String,
    pub peer_id: String,
    pub delete_propagation: bool,
    pub conflict_policy: String,
    pub created_at: String,
    pub updated_at: String,
    pub version: u64,
    pub origin_instance_id: String,
    pub pending_deletion: bool,
    pub anchors: Vec<AnchorView>,
}

/// An anchor of a profile as shown.
#[derive(Debug, Clone)]
pub struct AnchorView {
    pub id: i64,
    pub local_path: String,
    pub remote_path: String,
    pub max_depth: i32,
    pub include_hidden: bool,
    pub ignore_patterns: Vec<String>,
}

/// Peer view for list and detail.
#[derive(Debug, Clone)]
pub struct PeerView {
    pub id: String,
    pub name: String,
    pub fingerprint: String,
    pub paired_at: String,
    pub last_seen: Option<String>,
    pub is_online: bool,
}

/// Sync status for a profile; `status` is `idle`, `running` or `error`.
#[derive(Debug, Clone)]
pub struct SyncStatus {
    pub profile_id: String,
    pub last_sync_at: Option<String>,
    pub last_sync_direction: Option<String>,
    pub files_synced: Option<u64>,
    pub status: String,
    pub error_message: Option<String>,
}

/// Input for creating or updating a profile.
#[derive(Debug, Clone)]
pub struct ProfileInput {
    pub name: String,
    pub mode: String,
    pub peer_name: String,
    pub peer_id: String,
    pub delete_propagation: bool,
    pub conflict_policy: String,
    pub anchors: Vec<AnchorInput>,
}

/// An anchor of a profile as entered.
#[derive(Debug, Clone)]
pub struct AnchorInput {
    pub local_path: String,
    pub remote_path: String,
    pub max_depth: i32,
    pub include_hidden: bool,
    pub ignore_patterns: Vec<String>,
}

/// Drift summary for a profile.
#[derive(Debug, Clone)]
pub struct DriftSummary {
    pub profile_id: String,
    pub files_tracked: u64,
    pub pending_local_changes: u64,
    pub last_scan_at: String,
}

/// Pairing confirmation result.
#[derive(Debug, Clone)]
pub struct PairingConfirmation {
    pub peer_id: String,
    pub peer_name: String,
    pub peer_fingerprint: String,
}

/// Result of starting a sync session.
#[derive(Debug, Clone)]
pub struct StartSyncResult {
    pub run_id: String,
    pub profile_id: String,
    pub direction: String,
}

/// Network info for display.
#[derive(Debug, Clone)]
pub struct NetworkInfoView {
    pub listen_address: String,
    pub listen_port: u16,
    pub fingerprint: String,
    pub hostname: String,
}

/// A peer discovered on the local network.
#[derive(Debug, Clone)]
pub struct DiscoveredPeerView {
    pub id: String,
    pub name: String,
    pub addresses: Vec<String>,
    pub fingerprint_short: String,
}

} // verus!
