use filesync::diff::{compute_diff, diff_side, needs_hash, Change, IndexEntry, SyncIndex};
use filesync::path::RelPath;
use filesync::pathmap::PathMap;
use filesync::scan::{EntryKind, FileEntry, Snapshot};

fn make_snapshot(files: &[(&str, u64, i64)]) -> Snapshot {
    let mut entries = PathMap::new();
    for &(path, size, mtime_secs) in files {
        let rel = RelPath::new(path);
        entries.insert(
            rel.clone(),
            FileEntry {
                path: rel,
                kind: EntryKind::File,
                size,
                mtime_secs,
                hash: None,
            },
        );
    }
    Snapshot { entries }
}

fn make_index(files: &[(&str, u64, i64, &str)]) -> SyncIndex {
    let mut entries = PathMap::new();
    for &(path, size, mtime_secs, hash) in files {
        let rel = RelPath::new(path);
        entries.insert(
            rel.clone(),
            IndexEntry {
                path: rel,
                kind: EntryKind::File,
                size,
                mtime_secs,
                hash: hash.to_owned(),
            },
        );
    }
    SyncIndex { entries }
}

fn no_hashes() -> PathMap<String> {
    PathMap::new()
}

#[test]
fn detects_new_file() {
    let snap = make_snapshot(&[("new.txt", 100, 1000)]);
    let index = SyncIndex::default();

    let changes = diff_side(&snap, &index, &no_hashes()).unwrap();
    assert_eq!(changes.len(), 1);
    assert!(matches!(&changes[0], Change::Created(p) if p.display() == "new.txt"));
}

#[test]
fn detects_deletion() {
    let snap = make_snapshot(&[]);
    let index = make_index(&[("gone.txt", 50, 500, "abc123")]);

    let changes = diff_side(&snap, &index, &no_hashes()).unwrap();
    assert_eq!(changes.len(), 1);
    assert!(matches!(&changes[0], Change::Deleted(p) if p.display() == "gone.txt"));
}

#[test]
fn detects_size_change() {
    let snap = make_snapshot(&[("file.txt", 200, 1000)]);
    let index = make_index(&[("file.txt", 100, 1000, "hash_old")]);

    let changes = diff_side(&snap, &index, &no_hashes()).unwrap();
    assert_eq!(changes.len(), 1);
    assert!(matches!(&changes[0], Change::Modified(p) if p.display() == "file.txt"));
}

#[test]
fn unchanged_file_no_diff() {
    let snap = make_snapshot(&[("same.txt", 100, 1000)]);
    let index = make_index(&[("same.txt", 100, 1000, "hash_same")]);

    let changes = diff_side(&snap, &index, &no_hashes()).unwrap();
    assert!(changes.is_empty());
}

#[test]
fn empty_index_treats_all_as_created() {
    let snap = make_snapshot(&[("a.txt", 10, 100), ("b.txt", 20, 200)]);
    let index = SyncIndex::default();

    let changes = diff_side(&snap, &index, &no_hashes()).unwrap();
    assert_eq!(changes.len(), 2);
    assert!(changes.iter().all(|c| matches!(c, Change::Created(_))));
}

#[test]
fn touched_file_is_decided_by_its_hash() {
    let snap = make_snapshot(&[("t.txt", 100, 2000)]);
    let index = make_index(&[("t.txt", 100, 1000, "h1")]);
    assert!(needs_hash(snap.entries.get(&RelPath::new("t.txt")).unwrap(), &index));

    // The hash is needed and missing.
    let err = diff_side(&snap, &index, &no_hashes()).unwrap_err();
    assert_eq!(err.path.display(), "t.txt");

    // Same hash: only the time changed.
    let mut same = PathMap::new();
    same.insert(RelPath::new("t.txt"), "h1".to_string());
    assert!(diff_side(&snap, &index, &same).unwrap().is_empty());

    // Different hash: modified.
    let mut other = PathMap::new();
    other.insert(RelPath::new("T.TXT"), "h2".to_string());
    let changes = diff_side(&snap, &index, &other).unwrap();
    assert_eq!(changes.len(), 1);
    assert!(matches!(&changes[0], Change::Modified(p) if p.display() == "t.txt"));
}

#[test]
fn edits_come_before_deletions_in_path_order() {
    let snap = make_snapshot(&[("c.txt", 1, 1), ("a.txt", 1, 1)]);
    let index = make_index(&[("b.txt", 1, 1, "x"), ("d.txt", 1, 1, "y")]);
    let changes = diff_side(&snap, &index, &no_hashes()).unwrap();
    let names: Vec<String> = changes
        .iter()
        .map(|c| match c {
            Change::Created(p) => format!("+{}", p.display()),
            Change::Modified(p) => format!("~{}", p.display()),
            Change::Deleted(p) => format!("-{}", p.display()),
        })
        .collect();
    assert_eq!(names, vec!["+a.txt", "+c.txt", "-b.txt", "-d.txt"]);
}

#[test]
fn compute_diff_covers_both_sides() {
    let local = make_snapshot(&[("l.txt", 1, 1)]);
    let remote = make_snapshot(&[("r.txt", 2, 2)]);
    let index = SyncIndex::default();
    let d = compute_diff(&local, &remote, &index, &no_hashes(), &no_hashes()).unwrap();
    assert_eq!(d.local.len(), 1);
    assert_eq!(d.remote.len(), 1);
    assert_eq!(d.local[0].path().display(), "l.txt");
    assert_eq!(d.remote[0].path().display(), "r.txt");
}
