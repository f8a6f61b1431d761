//! What changed on each side relative to the sync index.
use vstd::prelude::*;

use crate::path::RelPath;
use crate::pathmap::{has_key, lemma_sorted_drop_last, lemma_sorted_index, lookup, sorted_entries, PathMap};
use crate::text::{lemma_seq_lt_irreflexive, seq_lt};
use crate::scan::{EntryKind, FileEntry, Snapshot};

verus! {

/// The last-synced state of a file, as recorded in the sync index.
#[derive(Debug)]
pub struct IndexEntry {
    pub path: RelPath,
    pub kind: EntryKind,
    pub size: u64,
    pub mtime_secs: i64,
    pub hash: String,
}

impl Clone for IndexEntry {
    fn clone(&self) -> (r: Self)
        ensures
            r == *self,
    {
        IndexEntry {
            path: self.path.clone(),
            kind: self.kind,
            size: self.size,
            mtime_secs: self.mtime_secs,
            hash: self.hash.clone(),
        }
    }
}

/// A sync index: the last-known-synced state of all paths for a profile.
#[derive(Debug)]
pub struct SyncIndex {
    pub entries: PathMap<IndexEntry>,
}

impl Default for SyncIndex {
    fn default() -> (r: Self)
        ensures
            r.entries@.len() == 0,
    {
        SyncIndex { entries: PathMap::new() }
    }
}

/// What changed on one side relative to the sync index.
#[derive(Debug)]
pub enum Change {
    Created(RelPath),
    Modified(RelPath),
    Deleted(RelPath),
}

impl Change {
    /// The path a change is about.
    pub open spec fn spec_path(&self) -> RelPath {
        match self {
            Change::Created(p) => *p,
            Change::Modified(p) => *p,
            Change::Deleted(p) => *p,
        }
    }

    /// Whether the change left a file in place (created or modified).
    pub open spec fn is_edit(&self) -> bool {
        !(self is Deleted)
    }

    pub fn path(&self) -> (r: &RelPath)
        ensures
            *r == self.spec_path(),
    {
        match self {
            Change::Created(p) | Change::Modified(p) | Change::Deleted(p) => p,
        }
    }
}

impl Clone for Change {
    fn clone(&self) -> (r: Self)
        ensures
            r == *self,
    {
        match self {
            Change::Created(p) => Change::Created(p.clone()),
            Change::Modified(p) => Change::Modified(p.clone()),
            Change::Deleted(p) => Change::Deleted(p.clone()),
        }
    }
}

/// The diff result for both sides.
#[derive(Debug)]
pub struct DiffResult {
    pub local: Vec<Change>,
    pub remote: Vec<Change>,
}

/// The current content hash of a file was needed and is not known.
#[derive(Debug)]
pub struct HashUnavailable {
    pub path: RelPath,
}

/// The change an entry of a snapshot shows against the index: `Err` with the
/// entry's path when its current hash is needed and not in `hashes`.
pub open spec fn entry_change(
    e: (RelPath, FileEntry),
    index: Seq<(RelPath, IndexEntry)>,
    hashes: Seq<(RelPath, String)>,
) -> Result<Option<Change>, RelPath> {
    if e.1.kind != EntryKind::File {
        Ok(None)
    } else {
        match lookup(index, e.0.key()) {
            None => Ok(Some(Change::Created(e.0))),
            Some(ie) => if e.1.size != ie.size {
                Ok(Some(Change::Modified(e.0)))
            } else if e.1.mtime_secs != ie.mtime_secs {
                match lookup(hashes, e.1.path.key()) {
                    None => Err(e.1.path),
                    Some(h) => if h@ != ie.hash@ {
                        Ok(Some(Change::Modified(e.0)))
                    } else {
                        Ok(None)
                    },
                }
            } else {
                Ok(None)
            },
        }
    }
}

/// Created and modified files of `snap`, in key order, or the first path
/// whose hash is missing.
pub open spec fn edits(
    snap: Seq<(RelPath, FileEntry)>,
    index: Seq<(RelPath, IndexEntry)>,
    hashes: Seq<(RelPath, String)>,
) -> Result<Seq<Change>, RelPath>
    decreases snap.len(),
{
    if snap.len() == 0 {
        Ok(Seq::empty())
    } else {
        match edits(snap.drop_last(), index, hashes) {
            Err(p) => Err(p),
            Ok(cs) => match entry_change(snap.last(), index, hashes) {
                Err(p) => Err(p),
                Ok(None) => Ok(cs),
                Ok(Some(c)) => Ok(cs.push(c)),
            },
        }
    }
}

/// Files of the index that the snapshot no longer has, in key order.
pub open spec fn deletions(
    index: Seq<(RelPath, IndexEntry)>,
    snap: Seq<(RelPath, FileEntry)>,
) -> Seq<Change>
    decreases index.len(),
{
    if index.len() == 0 {
        Seq::empty()
    } else {
        let rest = deletions(index.drop_last(), snap);
        let e = index.last();
        if e.1.kind == EntryKind::File && !has_key(snap, e.0.key()) {
            rest.push(Change::Deleted(e.0))
        } else {
            rest
        }
    }
}

/// The diff of one side: created and modified files, then deleted files.
pub open spec fn side_diff(
    snap: Seq<(RelPath, FileEntry)>,
    index: Seq<(RelPath, IndexEntry)>,
    hashes: Seq<(RelPath, String)>,
) -> Result<Seq<Change>, RelPath> {
    match edits(snap, index, hashes) {
        Err(p) => Err(p),
        Ok(cs) => Ok(cs + deletions(index, snap)),
    }
}

/// Whether the modification time of a scanned file differs from the index.
pub fn has_mtime_changed(entry: &FileEntry, idx_entry: &IndexEntry) -> (r: bool)
    ensures
        r == (entry.mtime_secs != idx_entry.mtime_secs),
{
    entry.mtime_secs != idx_entry.mtime_secs
}

/// Whether the diff of a snapshot needs the current hash of `entry`: a file
/// in the index with the same size and a different modification time.
pub fn needs_hash(entry: &FileEntry, index: &SyncIndex) -> (r: bool)
    ensures
        r == (entry.kind == EntryKind::File && match lookup(index.entries@, entry.path.key()) {
            None => false,
            Some(ie) => entry.size == ie.size && entry.mtime_secs != ie.mtime_secs,
        }),
{
    if entry.kind != EntryKind::File {
        return false;
    }
    match index.entries.get(&entry.path) {
        None => false,
        Some(ie) => entry.size == ie.size && has_mtime_changed(entry, ie),
    }
}

/// The change one snapshot entry shows against the index.
fn diff_entry(
    key: &RelPath,
    entry: &FileEntry,
    index: &SyncIndex,
    hashes: &PathMap<String>,
) -> (r: Result<Option<Change>, HashUnavailable>)
    ensures
        match entry_change((*key, *entry), index.entries@, hashes@) {
            Ok(c) => r matches Ok(x) && x == c,
            Err(p) => r matches Err(e) && e.path == p,
        },
{
    if entry.kind != EntryKind::File {
        return Ok(None);
    }
    match index.entries.get(key) {
        None => Ok(Some(Change::Created(key.clone()))),
        Some(idx_entry) => {
            if entry.size != idx_entry.size {
                Ok(Some(Change::Modified(key.clone())))
            } else if has_mtime_changed(entry, idx_entry) {
                match hashes.get(&entry.path) {
                    None => Err(HashUnavailable { path: entry.path.clone() }),
                    Some(h) => {
                        if *h != idx_entry.hash {
                            Ok(Some(Change::Modified(key.clone())))
                        } else {
                            Ok(None)
                        }
                    },
                }
            } else {
                Ok(None)
            }
        },
    }
}

/// Compute the changes of one side against the sync index.
///
/// `current_hashes` holds the content hash of the files whose size matches
/// the index and whose modification time does not (see `needs_hash`); the
/// hash decides whether such a file was modified. Created and modified
/// files come first, in path order, then deleted files, in path order.
pub fn diff_side(
    snapshot: &Snapshot,
    index: &SyncIndex,
    current_hashes: &PathMap<String>,
) -> (r: Result<Vec<Change>, HashUnavailable>)
    ensures
        match side_diff(snapshot.entries@, index.entries@, current_hashes@) {
            Ok(cs) => r matches Ok(v) && v@ == cs,
            Err(p) => r matches Err(e) && e.path == p,
        },
{
    let snap = snapshot.entries.entries();
    let mut changes: Vec<Change> = Vec::new();
    let mut i: usize = 0;
    while i < snap.len()
        invariant
            i <= snap@.len(),
            snap@ == snapshot.entries@,
            edits(snap@.take(i as int), index.entries@, current_hashes@) == Ok::<
                Seq<Change>,
                RelPath,
            >(changes@),
        decreases snap@.len() - i,
    {
        assert(snap@.take(i + 1).drop_last() =~= snap@.take(i as int));
        assert(snap@.take(i + 1).last() == snap@[i as int]);
        let (key, entry) = &snap[i];
        match diff_entry(key, entry, index, current_hashes) {
            Err(e) => {
                proof {
                    lemma_edits_error_stays(snap@, index.entries@, current_hashes@, i as int + 1);
                }
                return Err(e);
            },
            Ok(None) => {},
            Ok(Some(c)) => {
                changes.push(c);
            },
        }
        i = i + 1;
    }
    assert(snap@.take(i as int) =~= snap@);
    let idx = index.entries.entries();
    let mut j: usize = 0;
    let ghost edited = changes@;
    while j < idx.len()
        invariant
            j <= idx@.len(),
            idx@ == index.entries@,
            changes@ == edited + deletions(idx@.take(j as int), snapshot.entries@),
        decreases idx@.len() - j,
    {
        assert(idx@.take(j + 1).drop_last() =~= idx@.take(j as int));
        assert(idx@.take(j + 1).last() == idx@[j as int]);
        let (key, ie) = &idx[j];
        if ie.kind == EntryKind::File && !snapshot.entries.contains_key(key) {
            changes.push(Change::Deleted(key.clone()));
        }
        j = j + 1;
    }
    assert(idx@.take(j as int) =~= idx@);
    Ok(changes)
}

/// Once the edits of a prefix fail, the edits of every longer prefix fail the same way.
proof fn lemma_edits_error_stays(
    snap: Seq<(RelPath, FileEntry)>,
    index: Seq<(RelPath, IndexEntry)>,
    hashes: Seq<(RelPath, String)>,
    n: int,
)
    requires
        0 <= n <= snap.len(),
        edits(snap.take(n), index, hashes) is Err,
    ensures
        edits(snap, index, hashes) == edits(snap.take(n), index, hashes),
    decreases snap.len() - n,
{
    if n < snap.len() {
        assert(snap.take(n + 1).drop_last() =~= snap.take(n));
        lemma_edits_error_stays(snap, index, hashes, n + 1);
    } else {
        assert(snap.take(n) =~= snap);
    }
}

/// Compute the diff for both sides against the shared index.
pub fn compute_diff(
    local_snapshot: &Snapshot,
    remote_snapshot: &Snapshot,
    index: &SyncIndex,
    local_hashes: &PathMap<String>,
    remote_hashes: &PathMap<String>,
) -> (r: Result<DiffResult, HashUnavailable>)
    ensures
        match side_diff(local_snapshot.entries@, index.entries@, local_hashes@) {
            Err(p) => r matches Err(e) && e.path == p,
            Ok(l) => match side_diff(remote_snapshot.entries@, index.entries@, remote_hashes@) {
                Err(p) => r matches Err(e) && e.path == p,
                Ok(rm) => r matches Ok(d) && d.local@ == l && d.remote@ == rm,
            },
        },
{
    let local = diff_side(local_snapshot, index, local_hashes)?;
    let remote = diff_side(remote_snapshot, index, remote_hashes)?;
    Ok(DiffResult { local, remote })
}


/// The changes of `cs` are in strictly increasing path order.
pub open spec fn changes_sorted(cs: Seq<Change>) -> bool {
    forall|i: int, j: int|
        0 <= i < j < cs.len() ==> seq_lt((#[trigger] cs[i]).spec_path().key(), (#[trigger] cs[j]).spec_path().key())
}

proof fn lemma_edits_sorted(
    snap: Seq<(RelPath, FileEntry)>,
    index: Seq<(RelPath, IndexEntry)>,
    hashes: Seq<(RelPath, String)>,
)
    requires
        sorted_entries(snap),
        edits(snap, index, hashes) is Ok,
    ensures
        changes_sorted(edits(snap, index, hashes)->Ok_0),
        forall|i: int|
            0 <= i < edits(snap, index, hashes)->Ok_0.len() ==> exists|m: int|
                0 <= m < snap.len() && (#[trigger] edits(snap, index, hashes)->Ok_0[i]).spec_path() == snap[m].0,
    decreases snap.len(),
{
    if snap.len() > 0 {
        let prev = snap.drop_last();
        lemma_sorted_drop_last(snap);
        lemma_edits_sorted(prev, index, hashes);
        let cs0 = edits(prev, index, hashes)->Ok_0;
        let cs = edits(snap, index, hashes)->Ok_0;
        let last = snap.last();
        assert forall|i: int| 0 <= i < cs0.len() implies exists|m: int|
            0 <= m < snap.len() && (#[trigger] cs0[i]).spec_path() == snap[m].0 by {
            let m = choose|m: int| 0 <= m < prev.len() && (#[trigger] cs0[i]).spec_path() == prev[m].0;
            assert(prev[m] == snap[m]);
        }
        match entry_change(last, index, hashes) {
            Ok(Some(c)) => {
                assert(cs == cs0.push(c));
                assert(c.spec_path() == last.0);
                assert forall|i: int, j: int| 0 <= i < j < cs.len() implies seq_lt(
                    (#[trigger] cs[i]).spec_path().key(),
                    (#[trigger] cs[j]).spec_path().key(),
                ) by {
                    if j == cs.len() - 1 {
                        let m = choose|m: int| 0 <= m < snap.len() && (#[trigger] cs0[i]).spec_path() == snap[m].0;
                        if m == snap.len() - 1 {
                            let mm = choose|mm: int| 0 <= mm < prev.len() && (#[trigger] cs0[i]).spec_path() == prev[mm].0;
                            assert(prev[mm] == snap[mm]);
                            assert(seq_lt(snap[mm].0.key(), snap[m].0.key()));
                        } else {
                            assert(seq_lt(snap[m].0.key(), snap[snap.len() - 1].0.key()));
                        }
                        assert(cs[i] == cs0[i]);
                    } else {
                        assert(cs[i] == cs0[i] && cs[j] == cs0[j]);
                    }
                }
                assert forall|i: int| 0 <= i < cs.len() implies exists|m: int|
                    0 <= m < snap.len() && (#[trigger] cs[i]).spec_path() == snap[m].0 by {
                    if i == cs.len() - 1 {
                        assert(cs[i].spec_path() == snap[snap.len() - 1].0);
                    } else {
                        assert(cs[i] == cs0[i]);
                    }
                }
            },
            _ => {},
        }
    }
}

proof fn lemma_deletions_sorted(index: Seq<(RelPath, IndexEntry)>, snap: Seq<(RelPath, FileEntry)>)
    requires
        sorted_entries(index),
    ensures
        changes_sorted(deletions(index, snap)),
        forall|i: int|
            0 <= i < deletions(index, snap).len() ==> !has_key(snap, (#[trigger] deletions(index, snap)[i]).spec_path().key())
                && exists|m: int| 0 <= m < index.len() && deletions(index, snap)[i].spec_path() == index[m].0,
    decreases index.len(),
{
    if index.len() > 0 {
        let prev = index.drop_last();
        lemma_sorted_drop_last(index);
        lemma_deletions_sorted(prev, snap);
        let d0 = deletions(prev, snap);
        let d = deletions(index, snap);
        assert forall|i: int| 0 <= i < d0.len() implies exists|m: int|
            0 <= m < index.len() && (#[trigger] d0[i]).spec_path() == index[m].0 by {
            let m = choose|m: int| 0 <= m < prev.len() && (#[trigger] d0[i]).spec_path() == prev[m].0;
            assert(prev[m] == index[m]);
        }
        if d.len() > d0.len() {
            assert(d == d0.push(Change::Deleted(index.last().0)));
            assert forall|i: int, j: int| 0 <= i < j < d.len() implies seq_lt(
                (#[trigger] d[i]).spec_path().key(),
                (#[trigger] d[j]).spec_path().key(),
            ) by {
                if j == d.len() - 1 {
                    let m = choose|m: int| 0 <= m < prev.len() && (#[trigger] d0[i]).spec_path() == prev[m].0;
                    assert(prev[m] == index[m]);
                    assert(seq_lt(index[m].0.key(), index[index.len() - 1].0.key()));
                    assert(d[i] == d0[i]);
                } else {
                    assert(d[i] == d0[i] && d[j] == d0[j]);
                }
            }
            assert forall|i: int| 0 <= i < d.len() implies !has_key(snap, (#[trigger] d[i]).spec_path().key())
                && exists|m: int| 0 <= m < index.len() && d[i].spec_path() == index[m].0 by {
                if i == d.len() - 1 {
                    assert(d[i].spec_path() == index[index.len() - 1].0);
                } else {
                    assert(d[i] == d0[i]);
                }
            }
        } else {
            assert(d == d0);
        }
    }
}

/// The diff of one side lists each path at most once, in path order among
/// the created and modified files and among the deleted ones.
pub proof fn law_diff_lists_each_path_once(
    snap: Seq<(RelPath, FileEntry)>,
    index: Seq<(RelPath, IndexEntry)>,
    hashes: Seq<(RelPath, String)>,
)
    requires
        sorted_entries(snap),
        sorted_entries(index),
    ensures
        side_diff(snap, index, hashes) matches Ok(cs) ==> forall|i: int, j: int|
            0 <= i < j < cs.len() ==> (#[trigger] cs[i]).spec_path().key() != (#[trigger] cs[j]).spec_path().key(),
{
    if edits(snap, index, hashes) is Ok {
        lemma_edits_sorted(snap, index, hashes);
        lemma_deletions_sorted(index, snap);
        let e = edits(snap, index, hashes)->Ok_0;
        let d = deletions(index, snap);
        let cs = e + d;
        assert forall|i: int, j: int| 0 <= i < j < cs.len() implies (#[trigger] cs[i]).spec_path().key()
            != (#[trigger] cs[j]).spec_path().key() by {
            if j < e.len() {
                assert(cs[i] == e[i] && cs[j] == e[j]);
                assert(seq_lt(e[i].spec_path().key(), e[j].spec_path().key()));
                lemma_seq_lt_irreflexive(e[i].spec_path().key());
            } else if i >= e.len() {
                assert(cs[i] == d[i - e.len()] && cs[j] == d[j - e.len()]);
                assert(seq_lt(d[i - e.len()].spec_path().key(), d[j - e.len()].spec_path().key()));
                lemma_seq_lt_irreflexive(d[i - e.len()].spec_path().key());
            } else {
                assert(cs[i] == e[i] && cs[j] == d[j - e.len()]);
                let m = choose|m: int| 0 <= m < snap.len() && (#[trigger] e[i]).spec_path() == snap[m].0;
                lemma_sorted_index(snap, m, snap[m].0.key());
                assert(!has_key(snap, d[j - e.len()].spec_path().key()));
            }
        }
    }
}


/// The scanned file `e` differs from its index entry `ie`: by size, or by
/// time and by its current hash.
pub open spec fn changed_since(e: FileEntry, ie: IndexEntry, hashes: Seq<(RelPath, String)>) -> bool {
    ||| e.size != ie.size
    ||| (e.mtime_secs != ie.mtime_secs && match lookup(hashes, e.path.key()) {
        Some(h) => h@ != ie.hash@,
        None => false,
    })
}

/// Why `c` belongs in the diff of one side: a file scanned and not in the
/// index is created; a file scanned whose size differs from the index, or
/// whose time differs and whose current hash differs, is modified; a file of
/// the index that was not scanned is deleted. Directories never count.
pub open spec fn reported(
    c: Change,
    snap: Seq<(RelPath, FileEntry)>,
    index: Seq<(RelPath, IndexEntry)>,
    hashes: Seq<(RelPath, String)>,
) -> bool {
    match c {
        Change::Created(p) => exists|i: int|
            0 <= i < snap.len() && (#[trigger] snap[i]).0 == p && snap[i].1.kind == EntryKind::File && lookup(
                index,
                p.key(),
            ) is None,
        Change::Modified(p) => exists|i: int|
            0 <= i < snap.len() && (#[trigger] snap[i]).0 == p && snap[i].1.kind == EntryKind::File && lookup(
                index,
                p.key(),
            ) is Some && changed_since(snap[i].1, lookup(index, p.key()).unwrap(), hashes),
        Change::Deleted(p) => exists|m: int|
            0 <= m < index.len() && (#[trigger] index[m]).0 == p && index[m].1.kind == EntryKind::File && !has_key(
                snap,
                p.key(),
            ),
    }
}

proof fn lemma_edits_members(
    snap: Seq<(RelPath, FileEntry)>,
    index: Seq<(RelPath, IndexEntry)>,
    hashes: Seq<(RelPath, String)>,
)
    requires
        edits(snap, index, hashes) is Ok,
    ensures
        forall|i: int| 0 <= i < snap.len() ==> #[trigger] entry_change(snap[i], index, hashes) is Ok,
        forall|c: Change|
            edits(snap, index, hashes)->Ok_0.contains(c) <==> exists|i: int|
                0 <= i < snap.len() && #[trigger] entry_change(snap[i], index, hashes) == Ok::<
                    Option<Change>,
                    RelPath,
                >(Some(c)),
    decreases snap.len(),
{
    if snap.len() > 0 {
        let prev = snap.drop_last();
        lemma_edits_members(prev, index, hashes);
        let cs0 = edits(prev, index, hashes)->Ok_0;
        let cs = edits(snap, index, hashes)->Ok_0;
        let n = snap.len() - 1;
        assert(snap[n] == snap.last());
        assert forall|i: int| 0 <= i < snap.len() implies #[trigger] entry_change(snap[i], index, hashes) is Ok by {
            if i < n {
                assert(prev[i] == snap[i]);
            }
        }
        assert forall|c: Change| cs.contains(c) <==> exists|i: int|
            0 <= i < snap.len() && #[trigger] entry_change(snap[i], index, hashes) == Ok::<Option<Change>, RelPath>(
                Some(c),
            ) by {
            if cs.contains(c) {
                let j = choose|j: int| 0 <= j < cs.len() && cs[j] == c;
                if j < cs0.len() {
                    assert(cs0[j] == cs[j]);
                    assert(cs0.contains(c));
                    let i = choose|i: int|
                        0 <= i < prev.len() && #[trigger] entry_change(prev[i], index, hashes) == Ok::<
                            Option<Change>,
                            RelPath,
                        >(Some(c));
                    assert(prev[i] == snap[i]);
                } else {
                    assert(entry_change(snap[n], index, hashes) == Ok::<Option<Change>, RelPath>(Some(c)));
                }
            }
            if exists|i: int|
                0 <= i < snap.len() && #[trigger] entry_change(snap[i], index, hashes) == Ok::<Option<Change>, RelPath>(
                    Some(c),
                ) {
                let i = choose|i: int|
                    0 <= i < snap.len() && #[trigger] entry_change(snap[i], index, hashes) == Ok::<
                        Option<Change>,
                        RelPath,
                    >(Some(c));
                if i < n {
                    assert(prev[i] == snap[i]);
                    assert(entry_change(prev[i], index, hashes) == Ok::<Option<Change>, RelPath>(Some(c)));
                    assert(cs0.contains(c));
                    let j = choose|j: int| 0 <= j < cs0.len() && cs0[j] == c;
                    assert(cs[j] == cs0[j]);
                } else {
                    assert(cs[cs.len() - 1] == c);
                }
            }
        }
    }
}

proof fn lemma_deletions_members(index: Seq<(RelPath, IndexEntry)>, snap: Seq<(RelPath, FileEntry)>)
    ensures
        forall|c: Change|
            deletions(index, snap).contains(c) <==> exists|m: int|
                0 <= m < index.len() && (#[trigger] index[m]).1.kind == EntryKind::File && !has_key(
                    snap,
                    index[m].0.key(),
                ) && c == Change::Deleted(index[m].0),
    decreases index.len(),
{
    if index.len() > 0 {
        let prev = index.drop_last();
        lemma_deletions_members(prev, snap);
        let d0 = deletions(prev, snap);
        let d = deletions(index, snap);
        let n = index.len() - 1;
        assert(index[n] == index.last());
        assert forall|c: Change| d.contains(c) <==> exists|m: int|
            0 <= m < index.len() && (#[trigger] index[m]).1.kind == EntryKind::File && !has_key(
                snap,
                index[m].0.key(),
            ) && c == Change::Deleted(index[m].0) by {
            if d.contains(c) {
                let j = choose|j: int| 0 <= j < d.len() && d[j] == c;
                if j < d0.len() {
                    assert(d0[j] == d[j]);
                    assert(d0.contains(c));
                    let m = choose|m: int|
                        0 <= m < prev.len() && (#[trigger] prev[m]).1.kind == EntryKind::File && !has_key(
                            snap,
                            prev[m].0.key(),
                        ) && c == Change::Deleted(prev[m].0);
                    assert(prev[m] == index[m]);
                }
            }
            if exists|m: int|
                0 <= m < index.len() && (#[trigger] index[m]).1.kind == EntryKind::File && !has_key(
                    snap,
                    index[m].0.key(),
                ) && c == Change::Deleted(index[m].0) {
                let m = choose|m: int|
                    0 <= m < index.len() && (#[trigger] index[m]).1.kind == EntryKind::File && !has_key(
                        snap,
                        index[m].0.key(),
                    ) && c == Change::Deleted(index[m].0);
                if m < n {
                    assert(prev[m] == index[m]);
                    assert(d0.contains(c));
                    let j = choose|j: int| 0 <= j < d0.len() && d0[j] == c;
                    assert(d[j] == d0[j]);
                } else {
                    assert(d[d.len() - 1] == c);
                }
            }
        }
    }
}

/// When no needed hash is missing, the diff of one side lists exactly the
/// changes `reported` names: the created and modified files first, in the
/// order of the snapshot, then the deleted ones, in the order of the index.
pub proof fn law_side_diff_lists_exactly_the_changes(
    snap: Seq<(RelPath, FileEntry)>,
    index: Seq<(RelPath, IndexEntry)>,
    hashes: Seq<(RelPath, String)>,
)
    requires
        side_diff(snap, index, hashes) is Ok,
    ensures
        side_diff(snap, index, hashes) == Ok::<Seq<Change>, RelPath>(
            edits(snap, index, hashes)->Ok_0 + deletions(index, snap),
        ),
        forall|c: Change| #[trigger] side_diff(snap, index, hashes)->Ok_0.contains(c) <==> reported(c, snap, index, hashes),
{
    lemma_edits_members(snap, index, hashes);
    lemma_deletions_members(index, snap);
    let e = edits(snap, index, hashes)->Ok_0;
    let d = deletions(index, snap);
    let cs = e + d;
    assert forall|c: Change| #[trigger] cs.contains(c) <==> reported(c, snap, index, hashes) by {
        let in_e = exists|i: int|
            0 <= i < snap.len() && #[trigger] entry_change(snap[i], index, hashes) == Ok::<Option<Change>, RelPath>(
                Some(c),
            );
        let in_d = exists|m: int|
            0 <= m < index.len() && (#[trigger] index[m]).1.kind == EntryKind::File && !has_key(snap, index[m].0.key())
                && c == Change::Deleted(index[m].0);
        if cs.contains(c) {
            let j = choose|j: int| 0 <= j < cs.len() && cs[j] == c;
            if j < e.len() {
                assert(e[j] == cs[j]);
                assert(e.contains(c));
            } else {
                assert(d[j - e.len()] == cs[j]);
                assert(d.contains(c));
            }
        }
        if e.contains(c) {
            let j = choose|j: int| 0 <= j < e.len() && e[j] == c;
            assert(cs[j] == e[j]);
        }
        if d.contains(c) {
            let j = choose|j: int| 0 <= j < d.len() && d[j] == c;
            assert(cs[j + e.len()] == d[j]);
        }
        if in_e {
            let i = choose|i: int|
                0 <= i < snap.len() && #[trigger] entry_change(snap[i], index, hashes) == Ok::<Option<Change>, RelPath>(
                    Some(c),
                );
            assert(snap[i].0 == c.spec_path());
        }
        match c {
            Change::Created(p) => {
                if reported(c, snap, index, hashes) {
                    let i = choose|i: int|
                        0 <= i < snap.len() && (#[trigger] snap[i]).0 == p && snap[i].1.kind == EntryKind::File
                            && lookup(index, p.key()) is None;
                    assert(entry_change(snap[i], index, hashes) == Ok::<Option<Change>, RelPath>(Some(c)));
                }
            },
            Change::Modified(p) => {
                if reported(c, snap, index, hashes) {
                    let i = choose|i: int|
                        0 <= i < snap.len() && (#[trigger] snap[i]).0 == p && snap[i].1.kind == EntryKind::File
                            && lookup(index, p.key()) is Some && changed_since(
                            snap[i].1,
                            lookup(index, p.key()).unwrap(),
                            hashes,
                        );
                    assert(entry_change(snap[i], index, hashes) == Ok::<Option<Change>, RelPath>(Some(c)));
                }
            },
            Change::Deleted(p) => {
                if reported(c, snap, index, hashes) {
                    let m = choose|m: int|
                        0 <= m < index.len() && (#[trigger] index[m]).0 == p && index[m].1.kind == EntryKind::File
                            && !has_key(snap, p.key());
                    assert(d.contains(c));
                }
                if in_e {
                    let i = choose|i: int|
                        0 <= i < snap.len() && #[trigger] entry_change(snap[i], index, hashes) == Ok::<
                            Option<Change>,
                            RelPath,
                        >(Some(c));
                    assert(false);
                }
            },
        }
    }
}

} // verus!
