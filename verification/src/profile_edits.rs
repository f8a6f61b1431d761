//! The profile edits made from the desktop interface, and how profiles are
//! shown there.
use vstd::prelude::*;

use crate::profiles::{copy_strings, texts, uuid_string, uuid_text, AnchorRow, ProfileRow};
use crate::views::{AnchorInput, AnchorView, ProfileDetail, ProfileInput, ProfileView};

verus! {

/// `p` carries the settings entered in `input`.
pub open spec fn takes_input(p: ProfileRow, input: ProfileInput) -> bool {
    &&& p.name@ == input.name@
    &&& p.mode@ == input.mode@
    &&& p.delete_propagation == input.delete_propagation
    &&& p.conflict_policy@ == input.conflict_policy@
    &&& p.peer_name@ == input.peer_name@
    &&& p.peer_id@ == input.peer_id@
}

/// A new profile with id `id`, made from `input` at time `now`: version 1,
/// created and updated now, with no origin recorded yet and not pending
/// deletion.
pub fn new_profile_row(id: u128, input: &ProfileInput, now: &str) -> (p: ProfileRow)
    ensures
        p.id == id,
        takes_input(p, *input),
        p.created_at@ == now@,
        p.updated_at@ == now@,
        p.version == 1,
        p.origin_instance_id@ == Seq::<char>::empty(),
        !p.pending_deletion,
{
    ProfileRow {
        id,
        name: input.name.clone(),
        mode: input.mode.clone(),
        delete_propagation: input.delete_propagation,
        conflict_policy: input.conflict_policy.clone(),
        peer_name: input.peer_name.clone(),
        created_at: now.to_owned(),
        updated_at: now.to_owned(),
        version: 1,
        peer_id: input.peer_id.clone(),
        origin_instance_id: String::new(),
        pending_deletion: false,
    }
}

/// `existing` after an edit with `input` at time `now`: the settings come
/// from the input, the version goes up by one, the creation time and the
/// origin stay, and a pending deletion is withdrawn.
pub fn updated_profile_row(existing: &ProfileRow, input: &ProfileInput, now: &str) -> (p: ProfileRow)
    requires
        existing.version < u64::MAX,
    ensures
        p.id == existing.id,
        takes_input(p, *input),
        p.created_at@ == existing.created_at@,
        p.updated_at@ == now@,
        p.version == existing.version + 1,
        p.origin_instance_id@ == existing.origin_instance_id@,
        !p.pending_deletion,
{
    ProfileRow {
        id: existing.id,
        name: input.name.clone(),
        mode: input.mode.clone(),
        delete_propagation: input.delete_propagation,
        conflict_policy: input.conflict_policy.clone(),
        peer_name: input.peer_name.clone(),
        created_at: existing.created_at.clone(),
        updated_at: now.to_owned(),
        version: existing.version + 1,
        peer_id: input.peer_id.clone(),
        origin_instance_id: existing.origin_instance_id.clone(),
        pending_deletion: false,
    }
}

/// `a` stores the anchor entered as `input` for the profile `profile_id`;
/// its id is left for the store to assign.
pub open spec fn stores_anchor_input(a: AnchorRow, input: AnchorInput, profile_id: u128) -> bool {
    &&& a.id == 0
    &&& a.profile_id == profile_id
    &&& a.local_path@ == input.local_path@
    &&& a.remote_path@ == input.remote_path@
    &&& a.max_depth == input.max_depth
    &&& a.include_hidden == input.include_hidden
    &&& texts(a.ignore_patterns@) == texts(input.ignore_patterns@)
}

/// The stored anchors for the anchors entered for profile `profile_id`, in
/// the order entered.
pub fn anchor_rows(profile_id: u128, inputs: &Vec<AnchorInput>) -> (rows: Vec<AnchorRow>)
    ensures
        rows@.len() == inputs@.len(),
        forall|i: int| 0 <= i < rows@.len() ==> stores_anchor_input(#[trigger] rows@[i], inputs@[i], profile_id),
{
    let mut rows: Vec<AnchorRow> = Vec::new();
    let mut i: usize = 0;
    while i < inputs.len()
        invariant
            i <= inputs@.len(),
            rows@.len() == i,
            forall|j: int| 0 <= j < i ==> stores_anchor_input(#[trigger] rows@[j], inputs@[j], profile_id),
        decreases inputs@.len() - i,
    {
        let a = &inputs[i];
        rows.push(
            AnchorRow {
                id: 0,
                profile_id,
                local_path: a.local_path.clone(),
                remote_path: a.remote_path.clone(),
                max_depth: a.max_depth,
                include_hidden: a.include_hidden,
                ignore_patterns: copy_strings(&a.ignore_patterns),
            },
        );
        i = i + 1;
    }
    rows
}

/// `v` shows the stored profile `p` in a list.
pub open spec fn shows_profile(v: ProfileView, p: ProfileRow) -> bool {
    &&& v.id@ == uuid_text(p.id)
    &&& v.name@ == p.name@
    &&& v.mode@ == p.mode@
    &&& v.peer_name@ == p.peer_name@
    &&& v.delete_propagation == p.delete_propagation
    &&& v.conflict_policy@ == p.conflict_policy@
    &&& v.updated_at@ == p.updated_at@
    &&& v.version == p.version
    &&& v.pending_deletion == p.pending_deletion
}

/// How a stored profile is shown in a list.
pub fn profile_view(p: &ProfileRow) -> (v: ProfileView)
    ensures
        shows_profile(v, *p),
{
    ProfileView {
        id: uuid_string(p.id),
        name: p.name.clone(),
        mode: p.mode.clone(),
        peer_name: p.peer_name.clone(),
        delete_propagation: p.delete_propagation,
        conflict_policy: p.conflict_policy.clone(),
        updated_at: p.updated_at.clone(),
        version: p.version,
        pending_deletion: p.pending_deletion,
    }
}

/// `v` shows the stored anchor `a`.
pub open spec fn shows_anchor(v: AnchorView, a: AnchorRow) -> bool {
    &&& v.id == a.id
    &&& v.local_path@ == a.local_path@
    &&& v.remote_path@ == a.remote_path@
    &&& v.max_depth == a.max_depth
    &&& v.include_hidden == a.include_hidden
    &&& texts(v.ignore_patterns@) == texts(a.ignore_patterns@)
}

/// `d` shows the stored profile `p` with its anchors, in their order.
pub open spec fn shows_detail(d: ProfileDetail, p: ProfileRow, anchors: Seq<AnchorRow>) -> bool {
    &&& d.id@ == uuid_text(p.id)
    &&& d.name@ == p.name@
    &&& d.mode@ == p.mode@
    &&& d.peer_name@ == p.peer_name@
    &&& d.peer_id@ == p.peer_id@
    &&& d.delete_propagation == p.delete_propagation
    &&& d.conflict_policy@ == p.conflict_policy@
    &&& d.created_at@ == p.created_at@
    &&& d.updated_at@ == p.updated_at@
    &&& d.version == p.version
    &&& d.origin_instance_id@ == p.origin_instance_id@
    &&& d.pending_deletion == p.pending_deletion
    &&& d.anchors@.len() == anchors.len()
    &&& forall|i: int| 0 <= i < anchors.len() ==> shows_anchor(#[trigger] d.anchors@[i], anchors[i])
}

/// How a stored profile and its anchors are shown in full.
pub fn profile_detail(p: &ProfileRow, anchors: &Vec<AnchorRow>) -> (d: ProfileDetail)
    ensures
        shows_detail(d, *p, anchors@),
{
    let mut views: Vec<AnchorView> = Vec::new();
    let mut i: usize = 0;
    while i < anchors.len()
        invariant
            i <= anchors@.len(),
            views@.len() == i,
            forall|j: int| 0 <= j < i ==> shows_anchor(#[trigger] views@[j], anchors@[j]),
        decreases anchors@.len() - i,
    {
        let a = &anchors[i];
        views.push(
            AnchorView {
                id: a.id,
                local_path: a.local_path.clone(),
                remote_path: a.remote_path.clone(),
                max_depth: a.max_depth,
                include_hidden: a.include_hidden,
                ignore_patterns: copy_strings(&a.ignore_patterns),
            },
        );
        i = i + 1;
    }
    ProfileDetail {
        id: uuid_string(p.id),
        name: p.name.clone(),
        mode: p.mode.clone(),
        peer_name: p.peer_name.clone(),
        peer_id: p.peer_id.clone(),
        delete_propagation: p.delete_propagation,
        conflict_policy: p.conflict_policy.clone(),
        created_at: p.created_at.clone(),
        updated_at: p.updated_at.clone(),
        version: p.version,
        origin_instance_id: p.origin_instance_id.clone(),
        pending_deletion: p.pending_deletion,
        anchors: views,
    }
}

} // verus!
