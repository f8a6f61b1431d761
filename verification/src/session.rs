//! Keeping the sync index in step with the actions a session executed.
use vstd::prelude::*;

use crate::diff::{IndexEntry, SyncIndex};
use crate::path::{normalize_text, RelPath};
use crate::pathmap::{insert_entry, lookup, remove_entry};
use crate::reconcile::{Action, ActionView, Side};
use crate::scan::{EntryKind, FileEntry, Snapshot};

verus! {

/// `ie` records the file `e`: its path, size and modification time, kind
/// file, and its hash (empty when unknown).
pub open spec fn records(ie: IndexEntry, e: FileEntry) -> bool {
    &&& ie.path == e.path
    &&& ie.kind == EntryKind::File
    &&& ie.size == e.size
    &&& ie.mtime_secs == e.mtime_secs
    &&& ie.hash@ == match e.hash {
        Some(h) => h@,
        None => Seq::<char>::empty(),
    }
}

/// `after` is `before` with the file `e` recorded at its path.
pub open spec fn upserted(
    before: Seq<(RelPath, IndexEntry)>,
    after: Seq<(RelPath, IndexEntry)>,
    e: FileEntry,
) -> bool {
    &&& lookup(after, e.path.key()) is Some
    &&& records(lookup(after, e.path.key()).unwrap(), e)
    &&& after == insert_entry(before, e.path, lookup(after, e.path.key()).unwrap())
}

/// `ie` is `old` moved to the path `name`.
pub open spec fn renamed_to(ie: IndexEntry, old: IndexEntry, name: Seq<char>) -> bool {
    &&& ie.path@ == name
    &&& ie.kind == old.kind
    &&& ie.size == old.size
    &&& ie.mtime_secs == old.mtime_secs
    &&& ie.hash == old.hash
}

/// How one executed action changes the index: a copy records the source
/// side's scanned entry (if it has one); a deletion forgets the path; a
/// local conflict rename moves the recorded entry (if any) to the new name;
/// a remote conflict rename forgets the path; a directory changes nothing.
pub open spec fn index_step(
    before: Seq<(RelPath, IndexEntry)>,
    after: Seq<(RelPath, IndexEntry)>,
    a: ActionView,
    local: Seq<(RelPath, FileEntry)>,
    remote: Seq<(RelPath, FileEntry)>,
) -> bool {
    match a {
        ActionView::CopyFile { from, path } => {
            let src = if from == Side::Local {
                local
            } else {
                remote
            };
            match lookup(src, normalize_text(path)) {
                Some(e) => upserted(before, after, e),
                None => after == before,
            }
        },
        ActionView::Delete { path, .. } => after == remove_entry(before, normalize_text(path)),
        ActionView::RenameConflict { on: Side::Local, path, new_name } => match lookup(
            before,
            normalize_text(path),
        ) {
            Some(old) => {
                let rest = remove_entry(before, normalize_text(path));
                &&& lookup(after, normalize_text(new_name)) is Some
                &&& renamed_to(lookup(after, normalize_text(new_name)).unwrap(), old, new_name)
                &&& after == insert_entry(
                    rest,
                    lookup(after, normalize_text(new_name)).unwrap().path,
                    lookup(after, normalize_text(new_name)).unwrap(),
                )
            },
            None => after == before,
        },
        ActionView::RenameConflict { on: Side::Remote, path, .. } => after == remove_entry(
            before,
            normalize_text(path),
        ),
        ActionView::CreateDir { .. } => after == before,
    }
}

/// `states` walks the index through the actions `acts`, one step each.
pub open spec fn index_walk(
    states: Seq<Seq<(RelPath, IndexEntry)>>,
    acts: Seq<ActionView>,
    local: Seq<(RelPath, FileEntry)>,
    remote: Seq<(RelPath, FileEntry)>,
) -> bool {
    &&& states.len() == acts.len() + 1
    &&& forall|i: int| 0 <= i < acts.len() ==> index_step(#[trigger] states[i], states[i + 1], acts[i], local, remote)
}

/// Record the file `entry` in the index at its path.
pub fn upsert_index_from_entry(index: &mut SyncIndex, entry: &FileEntry)
    ensures
        upserted(old(index).entries@, final(index).entries@, *entry),
{
    let hash = match &entry.hash {
        Some(h) => h.clone(),
        None => String::new(),
    };
    let ie = IndexEntry {
        path: entry.path.clone(),
        kind: EntryKind::File,
        size: entry.size,
        mtime_secs: entry.mtime_secs,
        hash,
    };
    let ghost before = index.entries@;
    index.entries.insert(entry.path.clone(), ie);
    proof {
        crate::pathmap::lemma_insert_sorted(before, entry.path, ie);
    }
}


/// Update the index to reflect successfully executed actions, in order.
/// Failed actions are not passed here: their old index entries are kept so
/// that the next run detects and retries them.
pub fn apply_actions_to_index(
    index: &mut SyncIndex,
    executed: &[&Action],
    local_snap: &Snapshot,
    remote_snap: &Snapshot,
)
    ensures
        exists|states: Seq<Seq<(RelPath, IndexEntry)>>|
            {
                &&& index_walk(states, executed@.map_values(|a: &Action| (*a)@), local_snap.entries@, remote_snap.entries@)
                &&& states[0] == old(index).entries@
                &&& states.last() == final(index).entries@
            },
        entries_at_own_paths(local_snap.entries@) && entries_at_own_paths(remote_snap.entries@) ==> forall|
            k: Seq<char>,
        |
            (forall|i: int| 0 <= i < executed@.len() ==> !touches((*#[trigger] executed@[i])@, k))
                ==> #[trigger] lookup(final(index).entries@, k) == lookup(old(index).entries@, k),
        (forall|i: int| 0 <= i < executed@.len() ==> (*#[trigger] executed@[i])@ is CreateDir)
            ==> final(index).entries@ == old(index).entries@,
{
    let _ = index.entries.entries();
    let ghost acts = executed@.map_values(|a: &Action| (*a)@);
    let ghost local = local_snap.entries@;
    let ghost remote = remote_snap.entries@;
    let ghost mut states: Seq<Seq<(RelPath, IndexEntry)>> = seq![index.entries@];
    let mut i: usize = 0;
    while i < executed.len()
        invariant
            i <= executed@.len(),
            acts == executed@.map_values(|a: &Action| (*a)@),
            local == local_snap.entries@,
            remote == remote_snap.entries@,
            states.len() == i + 1,
            states[0] == old(index).entries@,
            states.last() == index.entries@,
            forall|j: int| 0 <= j < i ==> index_step(#[trigger] states[j], states[j + 1], acts[j], local, remote),
        decreases executed@.len() - i,
    {
        let ghost before = index.entries@;
        let action: &Action = executed[i];
        assert(acts[i as int] == action@);
        match action {
            Action::CopyFile { from, path } => {
                let snap = match from {
                    Side::Local => local_snap,
                    Side::Remote => remote_snap,
                };
                match snap.entries.get(path) {
                    Some(entry) => upsert_index_from_entry(index, entry),
                    None => {},
                }
            },
            Action::Delete { path, .. } => {
                index.entries.remove(path);
            },
            Action::RenameConflict { on: Side::Local, path, new_name } => {
                match index.entries.remove(path) {
                    Some(old) => {
                        let new_key = RelPath::new(new_name.as_str());
                        let moved = IndexEntry {
                            path: new_key.clone(),
                            kind: old.kind,
                            size: old.size,
                            mtime_secs: old.mtime_secs,
                            hash: old.hash,
                        };
                        let ghost rest = index.entries@;
                        index.entries.insert(new_key, moved);
                        proof {
                            crate::pathmap::lemma_insert_sorted(rest, moved.path, moved);
                        }
                    },
                    None => {},
                }
            },
            Action::RenameConflict { on: Side::Remote, path, .. } => {
                index.entries.remove(path);
            },
            Action::CreateDir { .. } => {},
        }
        proof {
            states = states.push(index.entries@);
            assert(index_step(before, index.entries@, acts[i as int], local, remote));
            assert forall|j: int| 0 <= j < i + 1 implies index_step(#[trigger] states[j], states[j + 1], acts[j], local, remote) by {
                if j < i {
                    assert(states[j] == states.drop_last()[j]);
                }
            }
        }
        i = i + 1;
    }
    assert(acts.len() == executed@.len());
    proof {
        if entries_at_own_paths(local) && entries_at_own_paths(remote) {
            assert forall|k: Seq<char>|
                (forall|i: int| 0 <= i < executed@.len() ==> !touches((*#[trigger] executed@[i])@, k)) implies #[trigger] lookup(
                index.entries@,
                k,
            ) == lookup(old(index).entries@, k) by {
                assert forall|i: int| 0 <= i < acts.len() implies !touches(#[trigger] acts[i], k) by {
                    assert(acts[i] == (*executed@[i])@);
                }
                law_untouched_paths_keep_their_entries(states, acts, local, remote, k);
            }
        }
        if forall|i: int| 0 <= i < executed@.len() ==> (*#[trigger] executed@[i])@ is CreateDir {
            assert forall|i: int| 0 <= i < acts.len() implies #[trigger] acts[i] is CreateDir by {
                assert(acts[i] == (*executed@[i])@);
            }
            law_directories_leave_the_index(states, acts, local, remote);
        }
    }
}


/// Every scanned entry sits under the key of its own path.
pub open spec fn entries_at_own_paths(m: Seq<(RelPath, FileEntry)>) -> bool {
    forall|i: int| 0 <= i < m.len() ==> (#[trigger] m[i]).1.path.key() == m[i].0.key()
}

/// Executing action `a` may change the index entry at key `k`: `k` is the
/// path of a copy, a deletion or a conflict rename, or the new name of a
/// local conflict rename. Creating a directory touches no entry.
pub open spec fn touches(a: ActionView, k: Seq<char>) -> bool {
    match a {
        ActionView::CreateDir { .. } => false,
        ActionView::RenameConflict { on: Side::Local, path, new_name } => normalize_text(path) == k
            || normalize_text(new_name) == k,
        _ => normalize_text(a.path()) == k,
    }
}

proof fn lemma_step_keeps(
    before: Seq<(RelPath, IndexEntry)>,
    after: Seq<(RelPath, IndexEntry)>,
    a: ActionView,
    local: Seq<(RelPath, FileEntry)>,
    remote: Seq<(RelPath, FileEntry)>,
    k: Seq<char>,
)
    requires
        crate::pathmap::sorted_entries(before),
        entries_at_own_paths(local),
        entries_at_own_paths(remote),
        index_step(before, after, a, local, remote),
    ensures
        crate::pathmap::sorted_entries(after),
        !touches(a, k) ==> lookup(after, k) == lookup(before, k),
{
    match a {
        ActionView::CopyFile { from, path } => {
            let src = if from == Side::Local { local } else { remote };
            crate::pathmap::lemma_index_of_key_bounds(src, normalize_text(path));
            if let Some(e) = lookup(src, normalize_text(path)) {
                let i = crate::pathmap::index_of_key(src, normalize_text(path));
                assert(src[i].1.path.key() == src[i].0.key());
                crate::pathmap::lemma_insert_sorted(before, e.path, lookup(after, e.path.key()).unwrap());
            }
        },
        ActionView::Delete { path, .. } => {
            crate::pathmap::lemma_remove_sorted(before, normalize_text(path));
        },
        ActionView::RenameConflict { on, path, new_name } => {
            crate::pathmap::lemma_remove_sorted(before, normalize_text(path));
            if on == Side::Local {
                if let Some(old) = lookup(before, normalize_text(path)) {
                    let rest = remove_entry(before, normalize_text(path));
                    let ie = lookup(after, normalize_text(new_name)).unwrap();
                    crate::pathmap::lemma_insert_sorted(rest, ie.path, ie);
                }
            }
        },
        ActionView::CreateDir { .. } => {},
    }
}

/// Executing actions leaves the index entry of every key that none of them
/// touches as it was (so a failed action, which is not executed, keeps its
/// entry for the next run); the index stays sorted by path.
pub proof fn law_untouched_paths_keep_their_entries(
    states: Seq<Seq<(RelPath, IndexEntry)>>,
    acts: Seq<ActionView>,
    local: Seq<(RelPath, FileEntry)>,
    remote: Seq<(RelPath, FileEntry)>,
    k: Seq<char>,
)
    requires
        index_walk(states, acts, local, remote),
        crate::pathmap::sorted_entries(states[0]),
        entries_at_own_paths(local),
        entries_at_own_paths(remote),
        forall|i: int| 0 <= i < acts.len() ==> !touches(#[trigger] acts[i], k),
    ensures
        crate::pathmap::sorted_entries(states.last()),
        lookup(states.last(), k) == lookup(states[0], k),
    decreases acts.len(),
{
    if acts.len() > 0 {
        let n = acts.len() - 1;
        let prev = states.drop_last();
        let pacts = acts.drop_last();
        assert forall|i: int| 0 <= i < pacts.len() implies index_step(#[trigger] prev[i], prev[i + 1], pacts[i], local, remote) by {
            assert(prev[i] == states[i] && prev[i + 1] == states[i + 1] && pacts[i] == acts[i]);
        }
        assert forall|i: int| 0 <= i < pacts.len() implies !touches(#[trigger] pacts[i], k) by {
            assert(pacts[i] == acts[i]);
        }
        law_untouched_paths_keep_their_entries(prev, pacts, local, remote, k);
        assert(prev.last() == states[n]);
        assert(index_step(states[n], states[n + 1], acts[n], local, remote));
        lemma_step_keeps(states[n], states[n + 1], acts[n], local, remote, k);
    }
}

/// Executing only directory creations leaves the index as it was.
pub proof fn law_directories_leave_the_index(
    states: Seq<Seq<(RelPath, IndexEntry)>>,
    acts: Seq<ActionView>,
    local: Seq<(RelPath, FileEntry)>,
    remote: Seq<(RelPath, FileEntry)>,
)
    requires
        index_walk(states, acts, local, remote),
        forall|i: int| 0 <= i < acts.len() ==> #[trigger] acts[i] is CreateDir,
    ensures
        states.last() == states[0],
    decreases acts.len(),
{
    if acts.len() > 0 {
        let n = acts.len() - 1;
        let prev = states.drop_last();
        let pacts = acts.drop_last();
        assert forall|i: int| 0 <= i < pacts.len() implies index_step(#[trigger] prev[i], prev[i + 1], pacts[i], local, remote) by {
            assert(prev[i] == states[i] && prev[i + 1] == states[i + 1] && pacts[i] == acts[i]);
        }
        assert forall|i: int| 0 <= i < pacts.len() implies #[trigger] pacts[i] is CreateDir by {
            assert(pacts[i] == acts[i]);
        }
        law_directories_leave_the_index(prev, pacts, local, remote);
        assert(prev.last() == states[n]);
        assert(index_step(states[n], states[n + 1], acts[n], local, remote));
    }
}

} // verus!
