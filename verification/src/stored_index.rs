//! The sync index as the store keeps it: one row per path, in no particular
//! order.
use vstd::prelude::*;

use crate::diff::{IndexEntry, SyncIndex};
use crate::path::{normalize_text, RelPath};
use crate::pathmap::{
    has_key, index_of_key, lemma_index_of_key_bounds, lemma_insert_sorted, lemma_sorted_drop_first,
    lemma_sorted_index, lookup, sorted_entries, stored_key, PathMap,
};
use crate::scan::EntryKind;
use crate::text::{lemma_seq_lt_asymmetric, lemma_seq_lt_irreflexive, seq_lt};
use crate::wire::is_word;

verus! {

/// One entry of a sync index as stored.
#[derive(Debug, Clone)]
pub struct IndexEntryRow {
    pub profile_id: u128,
    pub anchor_idx: usize,
    pub rel_path: String,
    pub kind: String,
    pub size: u64,
    pub mtime_secs: i64,
    pub hash: String,
}

/// How an entry kind is spelled in the store.
pub open spec fn kind_text(k: EntryKind) -> Seq<char> {
    match k {
        EntryKind::File => "file"@,
        EntryKind::Dir => "dir"@,
    }
}

/// The entry kind a stored word names: `dir`, and a file for anything else.
pub open spec fn kind_of_text(s: Seq<char>) -> EntryKind {
    if s == "dir"@ {
        EntryKind::Dir
    } else {
        EntryKind::File
    }
}

/// How an entry kind is spelled in the store.
pub fn kind_to_str(kind: EntryKind) -> (r: &'static str)
    ensures
        r@ == kind_text(kind),
{
    match kind {
        EntryKind::File => "file",
        EntryKind::Dir => "dir",
    }
}

/// The entry kind a stored word names.
pub fn parse_kind(s: &str) -> (r: EntryKind)
    ensures
        r == kind_of_text(s@),
{
    if is_word(s, "dir") {
        EntryKind::Dir
    } else {
        EntryKind::File
    }
}

/// Spelling an entry kind and reading it back gives it back.
pub proof fn law_kind_roundtrip(k: EntryKind)
    ensures
        kind_of_text(kind_text(k)) == k,
{
    reveal_strlit("file");
    reveal_strlit("dir");
    assert("file"@.len() != "dir"@.len());
}

/// What an index entry records: its path, kind, size, time and hash.
pub open spec fn entry_view(e: IndexEntry) -> (Seq<char>, EntryKind, u64, i64, Seq<char>) {
    (e.path@, e.kind, e.size, e.mtime_secs, e.hash@)
}

/// What a stored row records of an entry.
pub open spec fn row_entry(r: IndexEntryRow) -> (Seq<char>, EntryKind, u64, i64, Seq<char>) {
    (r.rel_path@, kind_of_text(r.kind@), r.size, r.mtime_secs, r.hash@)
}

/// Everything a stored row holds, by view.
pub open spec fn row_view(r: IndexEntryRow) -> (u128, usize, Seq<char>, Seq<char>, u64, i64, Seq<char>) {
    (r.profile_id, r.anchor_idx, r.rel_path@, r.kind@, r.size, r.mtime_secs, r.hash@)
}

/// The map key a stored row falls under.
pub open spec fn row_key(r: IndexEntryRow) -> Seq<char> {
    normalize_text(r.rel_path@)
}

/// `row` stores entry `e`, kept under `key`, for the profile `profile_id`:
/// under the key's own spelling, in the first anchor slot.
pub open spec fn stores(row: IndexEntryRow, key: RelPath, e: IndexEntry, profile_id: u128) -> bool {
    &&& row.profile_id == profile_id
    &&& row.anchor_idx == 0
    &&& row.rel_path@ == key@
    &&& row.kind@ == kind_text(e.kind)
    &&& row.size == e.size
    &&& row.mtime_secs == e.mtime_secs
    &&& row.hash@ == e.hash@
}

/// The index of the last row of `rows` under key `k`, or -1.
pub open spec fn last_row(rows: Seq<IndexEntryRow>, k: Seq<char>) -> int
    decreases rows.len(),
{
    if rows.len() == 0 {
        -1
    } else if row_key(rows.last()) == k {
        rows.len() - 1
    } else {
        last_row(rows.drop_last(), k)
    }
}

/// The index of the first row of `rows` under key `k`, or -1.
pub open spec fn first_row(rows: Seq<IndexEntryRow>, k: Seq<char>) -> int
    decreases rows.len(),
{
    if rows.len() == 0 {
        -1
    } else if first_row(rows.drop_last(), k) >= 0 {
        first_row(rows.drop_last(), k)
    } else if row_key(rows.last()) == k {
        rows.len() - 1
    } else {
        -1
    }
}

/// `m` is the index that `rows` load into: a path is in it exactly when some
/// row falls under its key; its key keeps the spelling of the first such row
/// and its entry is what the last such row records.
pub open spec fn loaded_from(m: Seq<(RelPath, IndexEntry)>, rows: Seq<IndexEntryRow>) -> bool {
    &&& sorted_entries(m)
    &&& forall|k: Seq<char>| #[trigger] has_key(m, k) <==> last_row(rows, k) >= 0
    &&& forall|k: Seq<char>|
        #[trigger] has_key(m, k) ==> (stored_key(m, k)@ == rows[first_row(rows, k)].rel_path@ && lookup(m, k) is Some
            && entry_view(lookup(m, k)->0) == row_entry(rows[last_row(rows, k)]))
}

proof fn lemma_last_row_bounds(rows: Seq<IndexEntryRow>, k: Seq<char>)
    ensures
        -1 <= last_row(rows, k) < rows.len(),
        last_row(rows, k) >= 0 ==> row_key(rows[last_row(rows, k)]) == k,
        last_row(rows, k) < 0 ==> forall|j: int| 0 <= j < rows.len() ==> row_key(#[trigger] rows[j]) != k,
        forall|j: int| last_row(rows, k) < j < rows.len() ==> row_key(#[trigger] rows[j]) != k,
    decreases rows.len(),
{
    if rows.len() > 0 && row_key(rows.last()) != k {
        lemma_last_row_bounds(rows.drop_last(), k);
        assert forall|j: int| 0 <= j < rows.len() - 1 implies rows[j] == rows.drop_last()[j] by {}
    }
}

proof fn lemma_first_row_bounds(rows: Seq<IndexEntryRow>, k: Seq<char>)
    ensures
        -1 <= first_row(rows, k) < rows.len(),
        first_row(rows, k) >= 0 ==> row_key(rows[first_row(rows, k)]) == k,
        (first_row(rows, k) >= 0) == (last_row(rows, k) >= 0),
    decreases rows.len(),
{
    if rows.len() > 0 {
        lemma_first_row_bounds(rows.drop_last(), k);
    }
}

/// Calls of `PathMap::insert` for the rows one by one.
fn insert_row(map: &mut PathMap<IndexEntry>, row: &IndexEntryRow)
    requires
        sorted_entries(old(map)@),
    ensures
        sorted_entries(final(map)@),
        has_key(final(map)@, row_key(*row)),
        stored_key(final(map)@, row_key(*row))@ == if has_key(old(map)@, row_key(*row)) {
            stored_key(old(map)@, row_key(*row))@
        } else {
            row.rel_path@
        },
        lookup(final(map)@, row_key(*row)) is Some,
        entry_view(lookup(final(map)@, row_key(*row))->0) == row_entry(*row),
        forall|k: Seq<char>| k != row_key(*row) ==> #[trigger] lookup(final(map)@, k) == lookup(old(map)@, k),
        forall|k: Seq<char>| #[trigger] has_key(final(map)@, k) <==> (has_key(old(map)@, k) || k == row_key(*row)),
        forall|k: Seq<char>|
            k != row_key(*row) && has_key(old(map)@, k) ==> #[trigger] stored_key(final(map)@, k) == stored_key(
                old(map)@,
                k,
            ),
{
    let key = RelPath::new(row.rel_path.as_str());
    let entry = IndexEntry {
        path: RelPath::new(row.rel_path.as_str()),
        kind: parse_kind(row.kind.as_str()),
        size: row.size,
        mtime_secs: row.mtime_secs,
        hash: row.hash.clone(),
    };
    proof {
        lemma_insert_sorted(map@, key, entry);
    }
    map.insert(key, entry);
}

/// Builds the sync index that stored rows describe. The rows may come in any
/// order; where two rows fall under one key, the later one's entry wins and
/// the key keeps the first one's spelling.
pub fn index_from_rows(rows: &Vec<IndexEntryRow>) -> (index: SyncIndex)
    ensures
        loaded_from(index.entries@, rows@),
{
    let mut entries: PathMap<IndexEntry> = PathMap::new();
    let mut i: usize = 0;
    while i < rows.len()
        invariant
            i <= rows@.len(),
            loaded_from(entries@, rows@.take(i as int)),
        decreases rows@.len() - i,
    {
        let ghost before = entries@;
        let ghost done = rows@.take(i as int);
        let ghost next = rows@.take(i + 1);
        insert_row(&mut entries, &rows[i]);
        proof {
            let row = rows@[i as int];
            assert(next.drop_last() =~= done);
            assert(next.last() == row);
            assert forall|k: Seq<char>| #[trigger] has_key(entries@, k) <==> last_row(next, k) >= 0 by {
                lemma_last_row_bounds(done, k);
            }
            assert forall|k: Seq<char>| #[trigger] has_key(entries@, k) implies stored_key(entries@, k)@
                == next[first_row(next, k)].rel_path@ && lookup(entries@, k) is Some && entry_view(
                lookup(entries@, k)->0,
            ) == row_entry(next[last_row(next, k)]) by {
                lemma_first_row_bounds(done, k);
                lemma_last_row_bounds(done, k);
                if k != row_key(row) {
                    assert(has_key(before, k));
                    assert(lookup(entries@, k) == lookup(before, k));
                    assert(stored_key(entries@, k) == stored_key(before, k));
                    assert(next[first_row(done, k)] == done[first_row(done, k)]);
                    assert(next[last_row(done, k)] == done[last_row(done, k)]);
                } else if has_key(before, k) {
                    assert(next[first_row(done, k)] == done[first_row(done, k)]);
                }
            }
        }
        i = i + 1;
    }
    assert(rows@.take(i as int) =~= rows@);
    SyncIndex { entries }
}

/// The rows that store `index` for profile `profile_id`, one per path in key
/// order, each under its key's spelling and in the first anchor slot.
pub fn rows_from_index(index: &SyncIndex, profile_id: u128) -> (rows: Vec<IndexEntryRow>)
    ensures
        rows@.len() == index.entries@.len(),
        forall|i: int|
            0 <= i < rows@.len() ==> stores(#[trigger] rows@[i], index.entries@[i].0, index.entries@[i].1, profile_id),
{
    let items = index.entries.entries();
    let mut rows: Vec<IndexEntryRow> = Vec::new();
    let mut i: usize = 0;
    while i < items.len()
        invariant
            i <= items@.len(),
            items@ == index.entries@,
            rows@.len() == i,
            forall|j: int| 0 <= j < i ==> stores(#[trigger] rows@[j], items@[j].0, items@[j].1, profile_id),
        decreases items@.len() - i,
    {
        let (key, entry) = &items[i];
        let row = IndexEntryRow {
            profile_id,
            anchor_idx: 0,
            rel_path: key.display().to_owned(),
            kind: kind_to_str(entry.kind).to_owned(),
            size: entry.size,
            mtime_secs: entry.mtime_secs,
            hash: entry.hash.clone(),
        };
        rows.push(row);
        i = i + 1;
    }
    rows
}

/// `rows` holds a row that reads as `v`.
pub open spec fn holds_row(rows: Seq<IndexEntryRow>, v: (u128, usize, Seq<char>, Seq<char>, u64, i64, Seq<char>)) -> bool {
    exists|i: int| 0 <= i < rows.len() && row_view(#[trigger] rows[i]) == v
}

proof fn lemma_has_key_drop_first<V>(s: Seq<(RelPath, V)>, k: Seq<char>)
    requires
        sorted_entries(s),
        s.len() > 0,
    ensures
        has_key(s.drop_first(), k) == (has_key(s, k) && k != s[0].0.key()),
{
    if k == s[0].0.key() {
        lemma_index_of_key_bounds(s.drop_first(), k);
        let j = index_of_key(s.drop_first(), k);
        if j >= 0 {
            assert(s.drop_first()[j] == s[j + 1]);
            assert(seq_lt(s[0].0.key(), s[j + 1].0.key()));
            lemma_seq_lt_irreflexive(k);
        }
    }
}

/// Two sorted sequences with the same keys have them in the same places.
proof fn lemma_sorted_same_keys<V, W>(s: Seq<(RelPath, V)>, t: Seq<(RelPath, W)>)
    requires
        sorted_entries(s),
        sorted_entries(t),
        forall|k: Seq<char>| #![trigger has_key(s, k)] #![trigger has_key(t, k)] has_key(s, k) <==> has_key(t, k),
    ensures
        s.len() == t.len(),
        forall|i: int| 0 <= i < s.len() ==> #[trigger] s[i].0.key() == t[i].0.key(),
    decreases s.len(),
{
    if s.len() == 0 || t.len() == 0 {
        if t.len() > 0 {
            lemma_sorted_index(t, 0, t[0].0.key());
            lemma_index_of_key_bounds(s, t[0].0.key());
            assert(has_key(t, t[0].0.key()));
        }
        if s.len() > 0 {
            lemma_sorted_index(s, 0, s[0].0.key());
            lemma_index_of_key_bounds(t, s[0].0.key());
            assert(has_key(s, s[0].0.key()));
        }
    } else {
        let a = s[0].0.key();
        let b = t[0].0.key();
        lemma_sorted_index(s, 0, a);
        lemma_sorted_index(t, 0, b);
        lemma_index_of_key_bounds(t, a);
        lemma_index_of_key_bounds(s, b);
        assert(has_key(s, a) && has_key(t, a));
        assert(has_key(t, b) && has_key(s, b));
        if a != b {
            let j = index_of_key(t, a);
            let i = index_of_key(s, b);
            assert(seq_lt(t[0].0.key(), t[j].0.key()));
            assert(seq_lt(s[0].0.key(), s[i].0.key()));
            lemma_seq_lt_asymmetric(a, b);
        }
        let s1 = s.drop_first();
        let t1 = t.drop_first();
        lemma_sorted_drop_first(s);
        lemma_sorted_drop_first(t);
        assert forall|k: Seq<char>| #![trigger has_key(s1, k)] #![trigger has_key(t1, k)] has_key(s1, k) <==> has_key(t1, k) by {
            lemma_has_key_drop_first(s, k);
            lemma_has_key_drop_first(t, k);
        }
        lemma_sorted_same_keys(s1, t1);
        assert forall|i: int| 0 <= i < s.len() implies #[trigger] s[i].0.key() == t[i].0.key() by {
            if i > 0 {
                assert(s[i] == s1[i - 1]);
                assert(t[i] == t1[i - 1]);
                assert(s1[i - 1].0.key() == t1[i - 1].0.key());
            }
        }
    }
}

/// Saving an index and loading the saved rows back, in whatever order the
/// store hands them out, gives the index back: the same paths, spelled the
/// same way, in the same order, with the same entries. This holds of an
/// index whose entries each record the path they are kept under.
pub proof fn law_saved_index_loads_back(
    index: Seq<(RelPath, IndexEntry)>,
    profile_id: u128,
    saved: Seq<IndexEntryRow>,
    read: Seq<IndexEntryRow>,
    loaded: Seq<(RelPath, IndexEntry)>,
)
    requires
        sorted_entries(index),
        forall|i: int| 0 <= i < index.len() ==> (#[trigger] index[i]).1.path@ == index[i].0@,
        saved.len() == index.len(),
        forall|i: int| 0 <= i < saved.len() ==> stores(#[trigger] saved[i], index[i].0, index[i].1, profile_id),
        forall|v| #[trigger] holds_row(read, v) <==> holds_row(saved, v),
        loaded_from(loaded, read),
    ensures
        loaded.len() == index.len(),
        forall|i: int|
            0 <= i < loaded.len() ==> (#[trigger] loaded[i]).0@ == index[i].0@ && entry_view(loaded[i].1)
                == entry_view(index[i].1),
{
    // A row that was read is a saved row, and that row sits where its key does.
    assert forall|x: int| 0 <= x < read.len() implies #[trigger] holds_row(saved, row_view(read[x])) by {
        assert(holds_row(read, row_view(read[x])));
    }
    assert forall|k: Seq<char>| #[trigger] has_key(loaded, k) <==> has_key(index, k) by {
        lemma_last_row_bounds(read, k);
        lemma_index_of_key_bounds(index, k);
        if has_key(index, k) {
            let j = index_of_key(index, k);
            assert(saved[j].rel_path@ == index[j].0@);
            assert(holds_row(saved, row_view(saved[j])));
            assert(holds_row(read, row_view(saved[j])));
            let x = choose|x: int| 0 <= x < read.len() && row_view(#[trigger] read[x]) == row_view(saved[j]);
            assert(row_key(read[x]) == k);
        }
        if last_row(read, k) >= 0 {
            let x = last_row(read, k);
            assert(holds_row(saved, row_view(read[x])));
            let j = choose|j: int| 0 <= j < saved.len() && row_view(#[trigger] saved[j]) == row_view(read[x]);
            assert(index[j].0.key() == k);
            lemma_sorted_index(index, j, k);
        }
    }
    lemma_sorted_same_keys(loaded, index);
    assert forall|i: int| 0 <= i < loaded.len() implies (#[trigger] loaded[i]).0@ == index[i].0@ && entry_view(
        loaded[i].1,
    ) == entry_view(index[i].1) by {
        let k = index[i].0.key();
        lemma_sorted_index(index, i, k);
        assert(loaded[i].0.key() == k);
        lemma_sorted_index(loaded, i, k);
        assert(has_key(loaded, k));
        lemma_first_row_bounds(read, k);
        lemma_last_row_bounds(read, k);
        let f = first_row(read, k);
        let l = last_row(read, k);
        assert(holds_row(saved, row_view(read[f])));
        assert(holds_row(saved, row_view(read[l])));
        let jf = choose|j: int| 0 <= j < saved.len() && row_view(#[trigger] saved[j]) == row_view(read[f]);
        let jl = choose|j: int| 0 <= j < saved.len() && row_view(#[trigger] saved[j]) == row_view(read[l]);
        assert(index[jf].0.key() == k);
        assert(index[jl].0.key() == k);
        lemma_sorted_index(index, jf, k);
        lemma_sorted_index(index, jl, k);
        assert(stores(saved[i], index[i].0, index[i].1, profile_id));
        law_kind_roundtrip(index[i].1.kind);
    }
}

} // verus!
