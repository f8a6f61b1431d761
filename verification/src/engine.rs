//! One sync run over an anchor: diff, reconcile, order, and the index that
//! records the synced state afterwards.
//!
//! Scanning, hashing and applying touch the disk; the caller does them and
//! hands the results to the functions here.
use vstd::prelude::*;

use crate::apply::ApplyResult;
use crate::clock::is_date_text;
use crate::diff::{compute_diff, deletions, edits, entry_change, side_diff, Change, DiffResult, HashUnavailable, IndexEntry, SyncIndex};
use crate::session::entries_at_own_paths;
use crate::guarantees::{lemma_has_key_keyed_in, lemma_key_union};
use crate::pathmap::{
    has_key, lemma_insert_greatest, lookup, sorted_entries, PathMap,
};
use crate::plan::{dedup_dirs, execution_order, order_actions, without_repeated_dirs};
use crate::reconcile::{
    actions_view, add_keys, conflicts_view, env_of, key_union, plan_spec, renames_a_copy, reconcile, ConflictPolicy,
    Env, plan_view, ReconcileContext, SyncMode, SyncPlan,
};
use crate::path::RelPath;
use crate::scan::{EntryKind, FileEntry, ScanConfig, Snapshot};
use crate::text::{chars_of, seq_lt, string_from_chars};

verus! {

/// A single folder pair in a profile.
pub struct Anchor {
    pub local_path: String,
    pub remote_path: String,
    pub config: ScanConfig,
}

/// Result for a single anchor within a run.
pub struct AnchorRunResult {
    pub anchor_index: usize,
    pub diff: DiffResult,
    pub plan: SyncPlan,
    pub apply: ApplyResult,
    pub new_index: SyncIndex,
}

/// What reconciliation knows in a run: both snapshots, the profile's
/// settings, the peer's clock offset, and the date.
pub open spec fn run_env(
    local_snap: &Snapshot,
    remote_snap: &Snapshot,
    delete_propagation: bool,
    peer_name: Seq<char>,
    clock_offset_secs: i64,
    date: Seq<char>,
) -> Env {
    Env {
        local: local_snap.entries@,
        remote: remote_snap.entries@,
        delete_propagation,
        peer_name,
        clock_offset: clock_offset_secs as int,
        date,
    }
}

/// Why an anchor could not be planned.
#[derive(Debug)]
pub enum PlanFailure {
    /// A content hash the diff needs was not supplied.
    Hash(HashUnavailable),
    /// Conflict copies needed a date and the system clock gave none.
    NoDate,
}

/// Diff both sides of an anchor against the index, reconcile, drop repeated
/// directory creations and put the actions in execution order.
///
/// `local_hashes` and `remote_hashes` hold the content hashes that the
/// diff needs (see `diff_side`); `clock_offset_secs` is the remote clock
/// minus the local one (0 when both sides are on this machine). In two-way
/// runs that keep both copies, conflict copies are named with today's date.
pub fn plan_anchor(
    local_snap: &Snapshot,
    remote_snap: &Snapshot,
    index: &SyncIndex,
    local_hashes: &PathMap<String>,
    remote_hashes: &PathMap<String>,
    mode: SyncMode,
    delete_propagation: bool,
    policy: ConflictPolicy,
    peer_name: &str,
    clock_offset_secs: i64,
) -> (r: Result<(DiffResult, SyncPlan), PlanFailure>)
    ensures
        match side_diff(local_snap.entries@, index.entries@, local_hashes@) {
            Err(p) => r matches Err(PlanFailure::Hash(e)) && e.path == p,
            Ok(l) => match side_diff(remote_snap.entries@, index.entries@, remote_hashes@) {
                Err(p) => r matches Err(PlanFailure::Hash(e)) && e.path == p,
                Ok(rm) => match r {
                    Ok((d, plan)) => d.local@ == l && d.remote@ == rm && exists|date: Seq<char>|
                        {
                            let p = plan_spec(
                                l,
                                rm,
                                mode,
                                policy,
                                #[trigger] run_env(local_snap, remote_snap, delete_propagation, peer_name@, clock_offset_secs, date),
                            );
                            &&& renames_a_copy(p.0) ==> is_date_text(date)
                            &&& actions_view(plan.actions@) == execution_order(without_repeated_dirs(p.0))
                            &&& conflicts_view(plan.conflicts@) == p.1
                        },
                    Err(e) => e is NoDate && renames_a_copy(
                        plan_spec(
                            l,
                            rm,
                            mode,
                            policy,
                            run_env(local_snap, remote_snap, delete_propagation, peer_name@, clock_offset_secs, Seq::empty()),
                        ).0,
                    ),
                },
            },
        },
{
    let diff = match compute_diff(local_snap, remote_snap, index, local_hashes, remote_hashes) {
        Ok(d) => d,
        Err(e) => return Err(PlanFailure::Hash(e)),
    };
    let ctx = ReconcileContext {
        local_entries: &local_snap.entries,
        remote_entries: &remote_snap.entries,
        delete_propagation,
        peer_name: string_from_chars(&chars_of(peer_name)),
        clock_offset_secs,
    };
    assert(env_of(ctx, Seq::empty()) == run_env(local_snap, remote_snap, delete_propagation, peer_name@, clock_offset_secs, Seq::empty()));
    let mut plan = match reconcile(&diff, index, mode, policy, &ctx) {
        Some(p) => p,
        None => return Err(PlanFailure::NoDate),
    };
    let ghost date = choose|date: Seq<char>|
        (renames_a_copy(plan_view(plan).0) ==> is_date_text(date)) && plan_view(plan) == plan_spec(
            diff.local@,
            diff.remote@,
            mode,
            policy,
            #[trigger] env_of(ctx, date),
        );
    assert(plan_view(plan) == plan_spec(diff.local@, diff.remote@, mode, policy, env_of(ctx, date)));
    assert(env_of(ctx, date) == run_env(local_snap, remote_snap, delete_propagation, peer_name@, clock_offset_secs, date));
    dedup_dirs(&mut plan);
    order_actions(&mut plan);
    Ok((diff, plan))
}


/// The scanned entry at key `k`: the local one, or else the remote one.
pub open spec fn scanned_entry(
    local: Seq<(RelPath, FileEntry)>,
    remote: Seq<(RelPath, FileEntry)>,
    k: Seq<char>,
) -> Option<FileEntry> {
    match lookup(local, k) {
        Some(e) => Some(e),
        None => lookup(remote, k),
    }
}

/// The keys whose scanned entry is a file.
pub open spec fn is_file_key(
    local: Seq<(RelPath, FileEntry)>,
    remote: Seq<(RelPath, FileEntry)>,
) -> spec_fn((RelPath, ())) -> bool {
    |e: (RelPath, ())| match scanned_entry(local, remote, e.0.key()) {
        Some(fe) => fe.kind == EntryKind::File,
        None => false,
    }
}

/// The paths the index records after a sync: every path scanned on either
/// side (the local form first) whose entry is a file, in path order.
pub open spec fn post_sync_keys(
    local: Seq<(RelPath, FileEntry)>,
    remote: Seq<(RelPath, FileEntry)>,
) -> Seq<(RelPath, ())> {
    key_union(key_union(Seq::<(RelPath, ())>::empty(), local), remote).filter(is_file_key(local, remote))
}

/// `ie` records the scanned file `fe` at path `k`, with the hash of the file
/// now on the local side (empty when there is none).
pub open spec fn post_sync_entry(ie: IndexEntry, k: RelPath, fe: FileEntry, hashes: Seq<(RelPath, String)>) -> bool {
    &&& ie.path == k
    &&& ie.kind == fe.kind
    &&& ie.size == fe.size
    &&& ie.mtime_secs == fe.mtime_secs
    &&& ie.hash@ == match lookup(hashes, fe.path.key()) {
        Some(h) => h@,
        None => Seq::<char>::empty(),
    }
}

/// `idx` is the index recorded after a sync of `local` and `remote`: one
/// entry per path scanned as a file, in path order, recording the scanned
/// entry with the hash of the local file.
pub open spec fn is_post_sync_index(
    idx: Seq<(RelPath, IndexEntry)>,
    local: Seq<(RelPath, FileEntry)>,
    remote: Seq<(RelPath, FileEntry)>,
    hashes: Seq<(RelPath, String)>,
) -> bool {
    let keys = post_sync_keys(local, remote);
    &&& sorted_entries(idx)
    &&& idx.len() == keys.len()
    &&& forall|i: int|
        0 <= i < keys.len() ==> (#[trigger] idx[i]).0 == keys[i].0 && post_sync_entry(
            idx[i].1,
            keys[i].0,
            scanned_entry(local, remote, keys[i].0.key()).unwrap(),
            hashes,
        )
}

/// Build the new sync index after an apply: the expected converged state of
/// both snapshots.
///
/// `local_hashes` holds, by scanned path, the hash of the file now at that
/// path on the local side; a path without one gets an empty hash.
pub fn build_post_sync_index(
    local_snap: &Snapshot,
    remote_snap: &Snapshot,
    local_hashes: &PathMap<String>,
) -> (r: SyncIndex)
    ensures
        is_post_sync_index(r.entries@, local_snap.entries@, remote_snap.entries@, local_hashes@),
{
    let ghost local = local_snap.entries@;
    let ghost remote = remote_snap.entries@;
    let ghost pred = is_file_key(local, remote);
    let mut keys: PathMap<()> = PathMap::new();
    add_keys(&mut keys, &local_snap.entries);
    add_keys(&mut keys, &remote_snap.entries);
    let ks = keys.entries();
    let mut entries: PathMap<IndexEntry> = PathMap::new();
    let mut i: usize = 0;
    while i < ks.len()
        invariant
            i <= ks@.len(),
            ks@ == key_union(key_union(Seq::<(RelPath, ())>::empty(), local), remote),
            sorted_entries(ks@),
            local == local_snap.entries@,
            remote == remote_snap.entries@,
            pred == is_file_key(local, remote),
            sorted_entries(entries@),
            entries@.len() == ks@.take(i as int).filter(pred).len(),
            forall|j: int|
                0 <= j < entries@.len() ==> (#[trigger] entries@[j]).0 == ks@.take(i as int).filter(pred)[j].0
                    && post_sync_entry(
                    entries@[j].1,
                    ks@.take(i as int).filter(pred)[j].0,
                    scanned_entry(local, remote, ks@.take(i as int).filter(pred)[j].0.key()).unwrap(),
                    local_hashes@,
                ),
        decreases ks@.len() - i,
    {
        let ghost before = ks@.take(i as int).filter(pred);
        let ghost old_entries = entries@;
        assert(ks@.take(i + 1) == ks@.take(i as int).push(ks@[i as int]));
        proof {
            ks@.take(i as int).lemma_filter_push(ks@[i as int], pred);
        }
        let path = &ks[i].0;
        let found = match local_snap.entries.get(path) {
            Some(fe) => Some(fe),
            None => remote_snap.entries.get(path),
        };
        match found {
            Some(fe) => {
                if fe.kind == EntryKind::File {
                    let hash = match local_hashes.get(&fe.path) {
                        Some(h) => h.clone(),
                        None => String::new(),
                    };
                    let ie = IndexEntry {
                        path: path.clone(),
                        kind: fe.kind,
                        size: fe.size,
                        mtime_secs: fe.mtime_secs,
                        hash,
                    };
                    proof {
                        assert forall|j: int| 0 <= j < old_entries.len() implies seq_lt(
                            #[trigger] old_entries[j].0.key(),
                            path.key(),
                        ) by {
                            assert(before.contains(before[j]));
                            ks@.take(i as int).lemma_filter_contains_rev(pred, before[j]);
                            let m = choose|m: int| 0 <= m < i && ks@.take(i as int)[m] == before[j];
                            assert(ks@[m] == before[j]);
                        }
                        lemma_insert_greatest(old_entries, *path, ie);
                    }
                    entries.insert(path.clone(), ie);
                    proof {
                        let after = ks@.take(i + 1).filter(pred);
                        assert(after == before.push(ks@[i as int]));
                        assert forall|j: int| 0 <= j < entries@.len() implies (#[trigger] entries@[j]).0
                            == after[j].0 && post_sync_entry(
                            entries@[j].1,
                            after[j].0,
                            scanned_entry(local, remote, after[j].0.key()).unwrap(),
                            local_hashes@,
                        ) by {
                            if j < old_entries.len() {
                                assert(entries@[j] == old_entries[j]);
                                assert(after[j] == before[j]);
                            }
                        }
                    }
                }
            },
            None => {},
        }
        i = i + 1;
    }
    assert(ks@.take(i as int) =~= ks@);
    SyncIndex { entries }
}


/// After a sync the index records exactly the paths scanned as files on
/// either side.
pub proof fn law_post_sync_index_covers_scanned_files(
    local: Seq<(RelPath, FileEntry)>,
    remote: Seq<(RelPath, FileEntry)>,
    k: Seq<char>,
)
    requires
        sorted_entries(local),
        sorted_entries(remote),
    ensures
        (exists|i: int| 0 <= i < post_sync_keys(local, remote).len() && (#[trigger] post_sync_keys(local, remote)[i]).0.key() == k)
            <==> (scanned_entry(local, remote, k) matches Some(fe) && fe.kind == EntryKind::File),
{
    let e: Seq<(RelPath, ())> = Seq::empty();
    lemma_key_union(e, local);
    lemma_key_union(key_union(e, local), remote);
    let ks = key_union(key_union(e, local), remote);
    let pred = is_file_key(local, remote);
    let out = post_sync_keys(local, remote);
    crate::pathmap::lemma_index_of_key_bounds(local, k);
    crate::pathmap::lemma_index_of_key_bounds(remote, k);
    lemma_has_key_keyed_in(local, k);
    lemma_has_key_keyed_in(remote, k);
    if scanned_entry(local, remote, k) matches Some(fe) && fe.kind == EntryKind::File {
        assert(has_key(local, k) || has_key(remote, k));
        assert(has_key(ks, k));
        crate::pathmap::lemma_index_of_key_bounds(ks, k);
        let i = crate::pathmap::index_of_key(ks, k);
        assert(pred(ks[i]));
        ks.lemma_filter_contains(pred, i);
        assert(out.contains(ks[i]));
        let j = choose|j: int| 0 <= j < out.len() && out[j] == ks[i];
        assert(out[j].0.key() == k);
    }
    if exists|i: int| 0 <= i < out.len() && (#[trigger] out[i]).0.key() == k {
        let i = choose|i: int| 0 <= i < out.len() && (#[trigger] out[i]).0.key() == k;
        ks.lemma_filter_pred(pred, i);
    }
}


/// A file is scanned at key `k`.
pub open spec fn file_at(m: Seq<(RelPath, FileEntry)>, k: Seq<char>) -> bool {
    lookup(m, k) matches Some(e) && e.kind == EntryKind::File
}

/// After a sync both sides hold the same files, with the same sizes; where
/// the two copies of a file carry different times, both sides' current
/// hashes of it are known and equal.
pub open spec fn sides_agree(
    local: Seq<(RelPath, FileEntry)>,
    remote: Seq<(RelPath, FileEntry)>,
    local_hashes: Seq<(RelPath, String)>,
    remote_hashes: Seq<(RelPath, String)>,
) -> bool {
    forall|k: Seq<char>|
        #![trigger file_at(local, k)]
        #![trigger file_at(remote, k)]
        (file_at(local, k) <==> file_at(remote, k)) && (file_at(local, k) ==> {
            let l = lookup(local, k).unwrap();
            let r = lookup(remote, k).unwrap();
            &&& l.size == r.size
            &&& l.mtime_secs != r.mtime_secs ==> lookup(local_hashes, k) is Some && lookup(remote_hashes, k)
                == lookup(local_hashes, k)
        })
}

proof fn lemma_edits_none(snap: Seq<(RelPath, FileEntry)>, index: Seq<(RelPath, IndexEntry)>, hashes: Seq<(RelPath, String)>)
    requires
        forall|i: int| 0 <= i < snap.len() ==> entry_change(#[trigger] snap[i], index, hashes) == Ok::<Option<Change>, RelPath>(None),
    ensures
        edits(snap, index, hashes) == Ok::<Seq<Change>, RelPath>(Seq::empty()),
    decreases snap.len(),
{
    if snap.len() > 0 {
        let prev = snap.drop_last();
        assert forall|i: int| 0 <= i < prev.len() implies entry_change(#[trigger] prev[i], index, hashes) == Ok::<
            Option<Change>,
            RelPath,
        >(None) by {
            assert(prev[i] == snap[i]);
        }
        lemma_edits_none(prev, index, hashes);
        assert(entry_change(snap[snap.len() - 1], index, hashes) == Ok::<Option<Change>, RelPath>(None));
    }
}

proof fn lemma_no_deletions(index: Seq<(RelPath, IndexEntry)>, snap: Seq<(RelPath, FileEntry)>)
    requires
        forall|m: int| 0 <= m < index.len() && (#[trigger] index[m]).1.kind == EntryKind::File ==> has_key(snap, index[m].0.key()),
    ensures
        deletions(index, snap) == Seq::<Change>::empty(),
    decreases index.len(),
{
    if index.len() > 0 {
        let prev = index.drop_last();
        assert forall|m: int| 0 <= m < prev.len() && (#[trigger] prev[m]).1.kind == EntryKind::File implies has_key(
            snap,
            prev[m].0.key(),
        ) by {
            assert(prev[m] == index[m]);
        }
        lemma_no_deletions(prev, snap);
        assert(index[index.len() - 1] == index.last());
    }
}

/// The entry the post-sync index holds for a key scanned as a file.
proof fn lemma_post_sync_lookup(
    idx: Seq<(RelPath, IndexEntry)>,
    local: Seq<(RelPath, FileEntry)>,
    remote: Seq<(RelPath, FileEntry)>,
    hashes: Seq<(RelPath, String)>,
    k: Seq<char>,
)
    requires
        sorted_entries(local),
        sorted_entries(remote),
        is_post_sync_index(idx, local, remote, hashes),
        scanned_entry(local, remote, k) matches Some(fe) && fe.kind == EntryKind::File,
    ensures
        lookup(idx, k) matches Some(ie) && ie.size == scanned_entry(local, remote, k).unwrap().size
            && ie.mtime_secs == scanned_entry(local, remote, k).unwrap().mtime_secs && ie.hash@ == match lookup(
            hashes,
            scanned_entry(local, remote, k).unwrap().path.key(),
        ) {
            Some(h) => h@,
            None => Seq::<char>::empty(),
        },
{
    let keys = post_sync_keys(local, remote);
    law_post_sync_index_covers_scanned_files(local, remote, k);
    let j = choose|j: int| 0 <= j < keys.len() && (#[trigger] keys[j]).0.key() == k;
    assert(idx[j].0 == keys[j].0);
    crate::pathmap::lemma_sorted_index(idx, j, k);
}

/// A sync leaves nothing to do: scanning the two sides again, unchanged,
/// and diffing them against the index the sync returned gives no change on
/// either side, so the plan of a second sync is empty, in every mode.
pub proof fn law_rerun_after_sync_plans_nothing(
    local: Seq<(RelPath, FileEntry)>,
    remote: Seq<(RelPath, FileEntry)>,
    idx: Seq<(RelPath, IndexEntry)>,
    local_hashes: Seq<(RelPath, String)>,
    remote_hashes: Seq<(RelPath, String)>,
    mode: SyncMode,
    policy: ConflictPolicy,
    env: Env,
)
    requires
        sorted_entries(local),
        sorted_entries(remote),
        entries_at_own_paths(local),
        entries_at_own_paths(remote),
        is_post_sync_index(idx, local, remote, local_hashes),
        sides_agree(local, remote, local_hashes, remote_hashes),
    ensures
        side_diff(local, idx, local_hashes) == Ok::<Seq<Change>, RelPath>(Seq::empty()),
        side_diff(remote, idx, remote_hashes) == Ok::<Seq<Change>, RelPath>(Seq::empty()),
        plan_spec(Seq::empty(), Seq::empty(), mode, policy, env).0.len() == 0,
        plan_spec(Seq::empty(), Seq::empty(), mode, policy, env).1.len() == 0,
{
    assert forall|i: int| 0 <= i < local.len() implies entry_change(#[trigger] local[i], idx, local_hashes)
        == Ok::<Option<Change>, RelPath>(None) by {
        if local[i].1.kind == EntryKind::File {
            let k = local[i].0.key();
            crate::pathmap::lemma_sorted_index(local, i, k);
            lemma_post_sync_lookup(idx, local, remote, local_hashes, k);
        }
    }
    assert forall|i: int| 0 <= i < remote.len() implies entry_change(#[trigger] remote[i], idx, remote_hashes)
        == Ok::<Option<Change>, RelPath>(None) by {
        if remote[i].1.kind == EntryKind::File {
            let k = remote[i].0.key();
            crate::pathmap::lemma_sorted_index(remote, i, k);
            assert(file_at(remote, k));
            assert(file_at(local, k));
            crate::pathmap::lemma_index_of_key_bounds(local, k);
            let li = crate::pathmap::index_of_key(local, k);
            assert(local[li].1.path.key() == local[li].0.key());
            assert(remote[i].1.path.key() == remote[i].0.key());
            lemma_post_sync_lookup(idx, local, remote, local_hashes, k);
        }
    }
    lemma_edits_none(local, idx, local_hashes);
    lemma_edits_none(remote, idx, remote_hashes);
    let keys = post_sync_keys(local, remote);
    assert forall|m: int| 0 <= m < idx.len() && (#[trigger] idx[m]).1.kind == EntryKind::File implies has_key(
        local,
        idx[m].0.key(),
    ) && has_key(remote, idx[m].0.key()) by {
        let k = idx[m].0.key();
        assert(keys[m].0 == idx[m].0);
        law_post_sync_index_covers_scanned_files(local, remote, k);
        assert(scanned_entry(local, remote, k) matches Some(fe) && fe.kind == EntryKind::File);
        if lookup(local, k) is None {
            assert(file_at(remote, k));
        }
        assert(file_at(local, k));
        assert(file_at(remote, k));
        crate::pathmap::lemma_index_of_key_bounds(local, k);
        crate::pathmap::lemma_index_of_key_bounds(remote, k);
    }
    lemma_no_deletions(idx, local);
    lemma_no_deletions(idx, remote);
    assert(Seq::<Change>::empty() + Seq::<Change>::empty() =~= Seq::<Change>::empty());
    crate::guarantees::law_empty_diff_empty_plan(mode, policy, env);
}

} // verus!
