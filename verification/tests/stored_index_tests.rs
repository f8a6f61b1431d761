use filesync::diff::{IndexEntry, SyncIndex};
use filesync::path::RelPath;
use filesync::scan::EntryKind;
use filesync::stored_index::{index_from_rows, kind_to_str, parse_kind, rows_from_index, IndexEntryRow};

fn entry(path: &str, kind: EntryKind, size: u64, mtime_secs: i64, hash: &str) -> IndexEntry {
    IndexEntry { path: RelPath::new(path), kind, size, mtime_secs, hash: hash.to_string() }
}

fn row(path: &str, kind: &str, size: u64, hash: &str) -> IndexEntryRow {
    IndexEntryRow {
        profile_id: 7,
        anchor_idx: 0,
        rel_path: path.to_string(),
        kind: kind.to_string(),
        size,
        mtime_secs: 100,
        hash: hash.to_string(),
    }
}

#[test]
fn entry_kinds_are_spelled_file_and_dir() {
    assert_eq!(kind_to_str(EntryKind::File), "file");
    assert_eq!(kind_to_str(EntryKind::Dir), "dir");
    assert_eq!(parse_kind("dir"), EntryKind::Dir);
    assert_eq!(parse_kind("file"), EntryKind::File);
    assert_eq!(parse_kind("symlink"), EntryKind::File);
}

#[test]
fn saving_writes_one_row_per_path_in_key_order() {
    let mut index = SyncIndex::default();
    index.entries.insert(RelPath::new("b/two.txt"), entry("b/two.txt", EntryKind::File, 2, 20, "h2"));
    index.entries.insert(RelPath::new("a"), entry("a", EntryKind::Dir, 0, 10, ""));
    let rows = rows_from_index(&index, 42);
    assert_eq!(rows.len(), 2);
    assert_eq!(rows[0].rel_path, "a");
    assert_eq!(rows[0].kind, "dir");
    assert_eq!(rows[1].rel_path, "b/two.txt");
    assert_eq!(rows[1].kind, "file");
    assert_eq!((rows[1].size, rows[1].mtime_secs, rows[1].hash.as_str()), (2, 20, "h2"));
    assert!(rows.iter().all(|r| r.profile_id == 42 && r.anchor_idx == 0));
}

#[test]
fn loading_sorts_rows_by_path_whatever_their_order() {
    let rows = vec![row("z.txt", "file", 3, "hz"), row("m", "dir", 0, ""), row("a.txt", "file", 1, "ha")];
    let index = index_from_rows(&rows);
    let entries = index.entries.entries();
    let paths: Vec<&str> = entries.iter().map(|(k, _)| k.display()).collect();
    assert_eq!(paths, vec!["a.txt", "m", "z.txt"]);
    assert_eq!(entries[1].1.kind, EntryKind::Dir);
    assert_eq!(entries[2].1.hash, "hz");
}

#[test]
fn loading_two_rows_for_one_path_keeps_the_later_entry_under_the_first_spelling() {
    let rows = vec![row("Notes.txt", "file", 1, "old"), row("notes.TXT", "file", 2, "new")];
    let index = index_from_rows(&rows);
    assert_eq!(index.entries.len(), 1);
    let (key, e) = &index.entries.entries()[0];
    assert_eq!(key.display(), "Notes.txt");
    assert_eq!(e.hash, "new");
    assert_eq!(e.path.display(), "notes.TXT");
    assert_eq!(e.size, 2);
}

#[test]
fn a_saved_index_loads_back_unchanged() {
    let mut index = SyncIndex::default();
    index.entries.insert(RelPath::new("docs"), entry("docs", EntryKind::Dir, 0, 5, ""));
    index.entries.insert(RelPath::new("docs/Report.pdf"), entry("docs/Report.pdf", EntryKind::File, 900, -3, "abc"));
    index.entries.insert(RelPath::new("café.txt"), entry("café.txt", EntryKind::File, 4, 77, "def"));
    let mut rows = rows_from_index(&index, 1);
    rows.reverse();
    let loaded = index_from_rows(&rows);
    let a = index.entries.entries();
    let b = loaded.entries.entries();
    assert_eq!(a.len(), b.len());
    for ((ka, ea), (kb, eb)) in a.iter().zip(b.iter()) {
        assert_eq!(ka.display(), kb.display());
        assert_eq!(ea.path.display(), eb.path.display());
        assert_eq!(ea.kind, eb.kind);
        assert_eq!((ea.size, ea.mtime_secs, ea.hash.as_str()), (eb.size, eb.mtime_secs, eb.hash.as_str()));
    }
}
