//! Profiles as stored and as replicated between peers.
//!
//! On the wire a profile names its anchors' paths neutrally: side A is the
//! instance the profile comes from, side B is the peer. Each instance stores
//! its own path as local and the other's as remote.
use vstd::prelude::*;

use crate::reconcile::{ConflictPolicy, SyncMode};
use crate::text::{chars_of, string_from_chars};
use crate::wire::{
    conflict_policy_to_str, mode_of_text, mode_text, parse_conflict_policy, parse_sync_mode, policy_of_text,
    policy_text, sync_mode_to_str, WireAnchor,
};

verus! {

/// What `uuid::Uuid::parse_str` makes of a text: the UUID's number, or the
/// text of the error it reports.
pub uninterp spec fn uuid_parse(s: Seq<char>) -> Result<u128, Seq<char>>;

/// The UUID a text names, as a number, if it names one.
pub open spec fn uuid_of_text(s: Seq<char>) -> Option<u128> {
    match uuid_parse(s) {
        Ok(u) => Some(u),
        Err(_) => None,
    }
}

/// The text of the UUID with number `u`, as `uuid::Uuid` displays it.
pub uninterp spec fn uuid_text(u: u128) -> Seq<char>;

/// Calls `uuid::Uuid::parse_str`, and takes the UUID's number or displays
/// the error; the contract names the outcome.
#[verifier::external_body]
pub(crate) fn parse_uuid_text(s: &str) -> (r: Result<u128, String>)
    ensures
        match (r, uuid_parse(s@)) {
            (Ok(a), Ok(b)) => a == b,
            (Err(m), Err(e)) => m@ == e,
            _ => false,
        },
{
    match uuid::Uuid::parse_str(s) {
        Ok(u) => Ok(u.as_u128()),
        Err(e) => Err(e.to_string()),
    }
}

/// The UUID a text names, if it names one.
fn parse_uuid(s: &str) -> (r: Option<u128>)
    ensures
        r == uuid_of_text(s@),
{
    match parse_uuid_text(s) {
        Ok(u) => Some(u),
        Err(_) => None,
    }
}

/// A character of a UUID's hyphenated text: a lower-case hex digit or `-`.
pub open spec fn is_uuid_char(c: char) -> bool {
    c == '-' || ('0' <= c && c <= '9') || ('a' <= c && c <= 'f')
}

/// Calls `uuid::Uuid::from_u128` and displays the UUID. The contract names
/// the text and states what the crate documents of it: `parse_str` reads
/// back every format the crate produces, and the display is the hyphenated
/// form, 36 lower-case hex digits and hyphens.
#[verifier::external_body]
pub(crate) fn uuid_string(u: u128) -> (r: String)
    ensures
        r@ == uuid_text(u),
        uuid_of_text(r@) == Some(u),
        r@.len() == 36,
        forall|i: int| 0 <= i < r@.len() ==> is_uuid_char(#[trigger] r@[i]),
{
    uuid::Uuid::from_u128(u).to_string()
}

/// A profile as stored.
#[derive(Debug, Clone)]
pub struct ProfileRow {
    pub id: u128,
    pub name: String,
    pub mode: String,
    pub delete_propagation: bool,
    pub conflict_policy: String,
    pub peer_name: String,
    pub created_at: String,
    pub updated_at: String,
    pub version: u64,
    pub peer_id: String,
    pub origin_instance_id: String,
    pub pending_deletion: bool,
}

/// An anchor of a profile as stored.
#[derive(Debug, Clone)]
pub struct AnchorRow {
    pub id: i64,
    pub profile_id: u128,
    pub local_path: String,
    pub remote_path: String,
    pub max_depth: i32,
    pub include_hidden: bool,
    pub ignore_patterns: Vec<String>,
}

/// A profile as replicated to a peer.
#[derive(Debug, Clone)]
pub struct WireProfile {
    pub id: u128,
    pub name: String,
    pub mode: SyncMode,
    pub delete_propagation: bool,
    pub conflict_policy: ConflictPolicy,
    pub version: u64,
    pub updated_at: String,
    pub origin_instance_id: u128,
    pub anchors: Vec<WireAnchor>,
}

/// A profile as listed to a peer.
#[derive(Debug, Clone)]
pub struct WireProfileSummary {
    pub id: u128,
    pub name: String,
    pub mode: SyncMode,
    pub version: u64,
    pub updated_at: String,
}

/// The texts of a list of strings.
pub open spec fn texts(v: Seq<String>) -> Seq<Seq<char>> {
    v.map_values(|s: String| s@)
}

/// The instance a stored profile comes from: its recorded origin when that
/// reads as a UUID, else this instance.
pub open spec fn origin_of(p: ProfileRow, me: u128) -> u128 {
    match uuid_of_text(p.origin_instance_id@) {
        Some(u) => u,
        None => me,
    }
}

/// `wa` is the stored anchor `a` in neutral naming: when this instance is
/// the origin its local path is side A, otherwise side B.
pub open spec fn wire_anchor_of(wa: WireAnchor, a: AnchorRow, i_am_origin: bool) -> bool {
    &&& (if i_am_origin {
        wa.side_a_path@ == a.local_path@ && wa.side_b_path@ == a.remote_path@
    } else {
        wa.side_a_path@ == a.remote_path@ && wa.side_b_path@ == a.local_path@
    })
    &&& wa.max_depth == a.max_depth
    &&& wa.include_hidden == a.include_hidden
    &&& texts(wa.ignore_patterns@) == texts(a.ignore_patterns@)
}

/// `w` is the stored profile `p` with anchors `anchors`, as instance `me`
/// sends it.
pub open spec fn is_wire_of(w: WireProfile, p: ProfileRow, anchors: Seq<AnchorRow>, me: u128) -> bool {
    &&& w.id == p.id
    &&& w.name@ == p.name@
    &&& w.mode == mode_of_text(p.mode@)
    &&& w.delete_propagation == p.delete_propagation
    &&& w.conflict_policy == policy_of_text(p.conflict_policy@)
    &&& w.version == p.version
    &&& w.updated_at@ == p.updated_at@
    &&& w.origin_instance_id == origin_of(p, me)
    &&& w.anchors@.len() == anchors.len()
    &&& forall|i: int|
        0 <= i < anchors.len() ==> wire_anchor_of(#[trigger] w.anchors@[i], anchors[i], origin_of(p, me) == me)
}

/// `p` with anchors `anchors` is the received profile `w` as instance `me`
/// stores it: this instance's own paths become local; the peer's name, the
/// peer's id and the creation time are left empty for the caller to fill.
pub open spec fn is_profile_of(p: ProfileRow, anchors: Seq<AnchorRow>, w: WireProfile, me: u128) -> bool {
    &&& p.id == w.id
    &&& p.name@ == w.name@
    &&& p.mode@ == mode_text(w.mode)
    &&& p.delete_propagation == w.delete_propagation
    &&& p.conflict_policy@ == policy_text(w.conflict_policy)
    &&& p.peer_name@ == Seq::<char>::empty()
    &&& p.created_at@ == Seq::<char>::empty()
    &&& p.updated_at@ == w.updated_at@
    &&& p.version == w.version
    &&& p.peer_id@ == Seq::<char>::empty()
    &&& p.origin_instance_id@ == uuid_text(w.origin_instance_id)
    &&& uuid_of_text(p.origin_instance_id@) == Some(w.origin_instance_id)
    &&& !p.pending_deletion
    &&& anchors.len() == w.anchors@.len()
    &&& forall|i: int|
        0 <= i < anchors.len() ==> {
            let a = #[trigger] anchors[i];
            &&& a.id == 0
            &&& a.profile_id == w.id
            &&& wire_anchor_of(w.anchors@[i], a, w.origin_instance_id == me)
        }
}

fn copy_string(s: &String) -> (r: String)
    ensures
        r@ == s@,
{
    string_from_chars(&chars_of(s.as_str()))
}

pub(crate) fn copy_strings(v: &Vec<String>) -> (r: Vec<String>)
    ensures
        texts(r@) == texts(v@),
{
    let mut r: Vec<String> = Vec::new();
    let mut i: usize = 0;
    while i < v.len()
        invariant
            i <= v@.len(),
            texts(r@) == texts(v@.take(i as int)),
        decreases v@.len() - i,
    {
        let s = copy_string(&v[i]);
        assert(texts(r@.push(s)) =~= texts(r@).push(s@));
        assert(texts(v@.take(i + 1)) =~= texts(v@.take(i as int)).push(v@[i as int]@));
        r.push(s);
        i = i + 1;
    }
    assert(v@.take(i as int) =~= v@);
    r
}

/// Convert a stored profile and its anchors into the wire form, for sending
/// to a peer. `local_instance_id` is this instance: when the profile has no
/// readable origin it becomes the origin.
pub fn profile_to_wire(profile: &ProfileRow, anchors: &Vec<AnchorRow>, local_instance_id: u128) -> (w: WireProfile)
    ensures
        is_wire_of(w, *profile, anchors@, local_instance_id),
{
    let origin = match parse_uuid(profile.origin_instance_id.as_str()) {
        Some(u) => u,
        None => local_instance_id,
    };
    let i_am_origin = origin == local_instance_id;
    let mut wire_anchors: Vec<WireAnchor> = Vec::new();
    let mut i: usize = 0;
    while i < anchors.len()
        invariant
            i <= anchors@.len(),
            origin == origin_of(*profile, local_instance_id),
            i_am_origin == (origin == local_instance_id),
            wire_anchors@.len() == i,
            forall|j: int| 0 <= j < i ==> wire_anchor_of(#[trigger] wire_anchors@[j], anchors@[j], i_am_origin),
        decreases anchors@.len() - i,
    {
        let a = &anchors[i];
        let (side_a_path, side_b_path) = if i_am_origin {
            (copy_string(&a.local_path), copy_string(&a.remote_path))
        } else {
            (copy_string(&a.remote_path), copy_string(&a.local_path))
        };
        let wa = WireAnchor {
            side_a_path,
            side_b_path,
            max_depth: a.max_depth,
            include_hidden: a.include_hidden,
            ignore_patterns: copy_strings(&a.ignore_patterns),
        };
        wire_anchors.push(wa);
        i = i + 1;
    }
    WireProfile {
        id: profile.id,
        name: copy_string(&profile.name),
        mode: parse_sync_mode(profile.mode.as_str()),
        delete_propagation: profile.delete_propagation,
        conflict_policy: parse_conflict_policy(profile.conflict_policy.as_str()),
        version: profile.version,
        updated_at: copy_string(&profile.updated_at),
        origin_instance_id: origin,
        anchors: wire_anchors,
    }
}

/// Convert a profile received from a peer into a stored profile and its
/// anchors. `local_instance_id` is this instance: it decides which side of
/// each anchor is local.
pub fn wire_to_profile(wire: &WireProfile, local_instance_id: u128) -> (r: (ProfileRow, Vec<AnchorRow>))
    ensures
        is_profile_of(r.0, r.1@, *wire, local_instance_id),
{
    let i_am_origin = wire.origin_instance_id == local_instance_id;
    let row = ProfileRow {
        id: wire.id,
        name: copy_string(&wire.name),
        mode: string_from_chars(&chars_of(sync_mode_to_str(wire.mode))),
        delete_propagation: wire.delete_propagation,
        conflict_policy: string_from_chars(&chars_of(conflict_policy_to_str(wire.conflict_policy))),
        peer_name: String::new(),
        created_at: String::new(),
        updated_at: copy_string(&wire.updated_at),
        version: wire.version,
        peer_id: String::new(),
        origin_instance_id: uuid_string(wire.origin_instance_id),
        pending_deletion: false,
    };
    let mut anchors: Vec<AnchorRow> = Vec::new();
    let mut i: usize = 0;
    while i < wire.anchors.len()
        invariant
            i <= wire.anchors@.len(),
            i_am_origin == (wire.origin_instance_id == local_instance_id),
            anchors@.len() == i,
            forall|j: int|
                0 <= j < i ==> {
                    let a = #[trigger] anchors@[j];
                    &&& a.id == 0
                    &&& a.profile_id == wire.id
                    &&& wire_anchor_of(wire.anchors@[j], a, i_am_origin)
                },
        decreases wire.anchors@.len() - i,
    {
        let wa = &wire.anchors[i];
        let (local_path, remote_path) = if i_am_origin {
            (copy_string(&wa.side_a_path), copy_string(&wa.side_b_path))
        } else {
            (copy_string(&wa.side_b_path), copy_string(&wa.side_a_path))
        };
        let a = AnchorRow {
            id: 0,
            profile_id: wire.id,
            local_path,
            remote_path,
            max_depth: wa.max_depth,
            include_hidden: wa.include_hidden,
            ignore_patterns: copy_strings(&wa.ignore_patterns),
        };
        anchors.push(a);
        i = i + 1;
    }
    (row, anchors)
}


/// Two wire anchors say the same.
pub open spec fn same_wire_anchor(x: WireAnchor, y: WireAnchor) -> bool {
    &&& x.side_a_path@ == y.side_a_path@
    &&& x.side_b_path@ == y.side_b_path@
    &&& x.max_depth == y.max_depth
    &&& x.include_hidden == y.include_hidden
    &&& texts(x.ignore_patterns@) == texts(y.ignore_patterns@)
}

/// Two wire profiles say the same.
pub open spec fn same_wire(x: WireProfile, y: WireProfile) -> bool {
    &&& x.id == y.id
    &&& x.name@ == y.name@
    &&& x.mode == y.mode
    &&& x.delete_propagation == y.delete_propagation
    &&& x.conflict_policy == y.conflict_policy
    &&& x.version == y.version
    &&& x.updated_at@ == y.updated_at@
    &&& x.origin_instance_id == y.origin_instance_id
    &&& x.anchors@.len() == y.anchors@.len()
    &&& forall|i: int| 0 <= i < x.anchors@.len() ==> same_wire_anchor(#[trigger] x.anchors@[i], y.anchors@[i])
}

/// A profile received from a peer, stored, and sent on again is the profile
/// that was received: the origin is kept and each side's path stays that
/// side's, whichever instance does the storing.
pub proof fn law_wire_roundtrip(
    w: WireProfile,
    p: ProfileRow,
    anchors: Seq<AnchorRow>,
    w2: WireProfile,
    me: u128,
)
    requires
        is_profile_of(p, anchors, w, me),
        is_wire_of(w2, p, anchors, me),
    ensures
        same_wire(w2, w),
{
    crate::wire::law_settings_roundtrip(w.mode, w.conflict_policy);
    assert(origin_of(p, me) == w.origin_instance_id);
    assert forall|i: int| 0 <= i < w2.anchors@.len() implies same_wire_anchor(#[trigger] w2.anchors@[i], w.anchors@[i]) by {
        assert(wire_anchor_of(w2.anchors@[i], anchors[i], origin_of(p, me) == me));
        assert(wire_anchor_of(w.anchors@[i], anchors[i], w.origin_instance_id == me));
    }
}

/// What to do with a profile a peer replicates to this instance.
#[derive(Debug, Clone, Copy, PartialEq, Eq, Structural)]
pub enum ReplicateDecision {
    /// The profile is new here: store it.
    InsertNew,
    /// The peer's version is newer: replace the local profile and anchors.
    ReplaceLocal,
    /// The local version is newer: answer with it.
    ReportLocalNewer,
    /// The versions are equal: nothing to do.
    AlreadyCurrent,
}

/// What to do with a replicated profile of version `incoming`, given the
/// version stored here, if any.
pub fn replicate_decision(incoming: u64, local: Option<u64>) -> (r: ReplicateDecision)
    ensures
        r == match local {
            None => ReplicateDecision::InsertNew,
            Some(v) => if incoming > v {
                ReplicateDecision::ReplaceLocal
            } else if incoming < v {
                ReplicateDecision::ReportLocalNewer
            } else {
                ReplicateDecision::AlreadyCurrent
            },
        },
{
    match local {
        None => ReplicateDecision::InsertNew,
        Some(v) => {
            if incoming > v {
                ReplicateDecision::ReplaceLocal
            } else if incoming < v {
                ReplicateDecision::ReportLocalNewer
            } else {
                ReplicateDecision::AlreadyCurrent
            }
        },
    }
}

/// The summary of a stored profile, as listed to a peer.
pub fn profile_summary(p: &ProfileRow) -> (s: WireProfileSummary)
    ensures
        s.id == p.id,
        s.name@ == p.name@,
        s.mode == mode_of_text(p.mode@),
        s.version == p.version,
        s.updated_at@ == p.updated_at@,
{
    WireProfileSummary {
        id: p.id,
        name: copy_string(&p.name),
        mode: parse_sync_mode(p.mode.as_str()),
        version: p.version,
        updated_at: copy_string(&p.updated_at),
    }
}

} // verus!
