//! Values exchanged with a peer, and how profile settings are spelled on
//! the wire.
use vstd::prelude::*;

use crate::path::{safe_text, seq_eq, RelPath};
use crate::reconcile::{ConflictPolicy, SyncMode};
use crate::text::{chars_of, push_str, string_from_chars};

verus! {

/// One file or directory of a quick send.
#[derive(Debug)]
pub struct QuickSendEntry {
    pub rel_path: RelPath,
    pub size: u64,
    pub mtime_secs: i64,
    pub is_dir: bool,
}

/// An anchor of a replicated profile, with neutral path naming: side A is
/// the instance the profile comes from, side B is the peer.
#[derive(Debug, Clone)]
pub struct WireAnchor {
    pub side_a_path: String,
    pub side_b_path: String,
    pub max_depth: i32,
    pub include_hidden: bool,
    pub ignore_patterns: Vec<String>,
}

/// Why a request was refused.
#[derive(Debug, Clone, Copy, PartialEq, Eq, Structural)]
pub enum ErrorCode {
    InvalidSession,
    AccessDenied,
    NotFound,
    IoError,
    Internal,
}

/// Messages exchanged during the pairing handshake.
#[derive(Debug, Clone)]
pub enum PairingMessage {
    Request { id: String, cert_pem: String, name: String },
    Response { id: String, cert_pem: String, name: String },
    Confirm,
    Reject,
}

/// How a sync mode is spelled.
pub open spec fn mode_text(m: SyncMode) -> Seq<char> {
    match m {
        SyncMode::Push => "push"@,
        SyncMode::Pull => "pull"@,
        SyncMode::Bidirectional => "bidirectional"@,
    }
}

/// The sync mode a word names: `push`, `pull`, and bidirectional for
/// anything else.
pub open spec fn mode_of_text(s: Seq<char>) -> SyncMode {
    if s == "push"@ {
        SyncMode::Push
    } else if s == "pull"@ {
        SyncMode::Pull
    } else {
        SyncMode::Bidirectional
    }
}

/// How a conflict policy is spelled.
pub open spec fn policy_text(p: ConflictPolicy) -> Seq<char> {
    match p {
        ConflictPolicy::NewerWins => "newer_wins"@,
        ConflictPolicy::KeepBoth => "keep_both"@,
    }
}

/// The conflict policy a word names: `keep_both`, and newer-wins for
/// anything else.
pub open spec fn policy_of_text(s: Seq<char>) -> ConflictPolicy {
    if s == "keep_both"@ {
        ConflictPolicy::KeepBoth
    } else {
        ConflictPolicy::NewerWins
    }
}

pub(crate) fn is_word(s: &str, word: &str) -> (r: bool)
    ensures
        r == (s@ == word@),
{
    seq_eq(&chars_of(s), &chars_of(word))
}

/// The sync mode a word names.
pub fn parse_sync_mode(s: &str) -> (r: SyncMode)
    ensures
        r == mode_of_text(s@),
{
    if is_word(s, "push") {
        SyncMode::Push
    } else if is_word(s, "pull") {
        SyncMode::Pull
    } else {
        SyncMode::Bidirectional
    }
}

/// The conflict policy a word names.
pub fn parse_conflict_policy(s: &str) -> (r: ConflictPolicy)
    ensures
        r == policy_of_text(s@),
{
    if is_word(s, "keep_both") {
        ConflictPolicy::KeepBoth
    } else {
        ConflictPolicy::NewerWins
    }
}

/// How a sync mode is spelled.
pub fn sync_mode_to_str(mode: SyncMode) -> (r: &'static str)
    ensures
        r@ == mode_text(mode),
{
    match mode {
        SyncMode::Push => "push",
        SyncMode::Pull => "pull",
        SyncMode::Bidirectional => "bidirectional",
    }
}

/// How a conflict policy is spelled.
pub fn conflict_policy_to_str(policy: ConflictPolicy) -> (r: &'static str)
    ensures
        r@ == policy_text(policy),
{
    match policy {
        ConflictPolicy::NewerWins => "newer_wins",
        ConflictPolicy::KeepBoth => "keep_both",
    }
}

/// Spelling a mode or a policy and reading it back gives it back.
pub proof fn law_settings_roundtrip(m: SyncMode, p: ConflictPolicy)
    ensures
        mode_of_text(mode_text(m)) == m,
        policy_of_text(policy_text(p)) == p,
{
    reveal_strlit("push");
    reveal_strlit("pull");
    reveal_strlit("bidirectional");
    reveal_strlit("newer_wins");
    reveal_strlit("keep_both");
    assert("pull"@[2] != "push"@[2]);
    assert("bidirectional"@.len() != "push"@.len());
    assert("bidirectional"@.len() != "pull"@.len());
    assert("newer_wins"@.len() != "keep_both"@.len());
}

/// Refuse a path that could escape its anchor: an absolute path or one
/// with a `..` component is answered with access denied.
pub fn validate_rel_path(path: &RelPath) -> (r: Result<(), (ErrorCode, String)>)
    ensures
        safe_text(path@) ==> r is Ok,
        !safe_text(path@) ==> (r matches Err((code, msg)) && code == ErrorCode::AccessDenied && msg@
            == "path traversal rejected: "@ + path@),
{
    if !path.is_safe() {
        let mut v: Vec<char> = Vec::new();
        push_str(&mut v, "path traversal rejected: ");
        push_str(&mut v, path.display());
        return Err((ErrorCode::AccessDenied, string_from_chars(&v)));
    }
    Ok(())
}

} // verus!
