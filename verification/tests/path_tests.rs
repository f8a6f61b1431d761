use filesync::path::{normalize, RelPath};

#[test]
fn case_insensitive_equality() {
    let a = RelPath::new("Photos/Trip.JPG");
    let b = RelPath::new("photos/trip.jpg");
    assert_eq!(a, b);
}

#[test]
fn nfd_normalization() {
    // 'é' can be encoded as U+00E9 (NFC) or U+0065 U+0301 (NFD)
    let nfc = RelPath::new("caf\u{00E9}.txt");
    let nfd = RelPath::new("caf\u{0065}\u{0301}.txt");
    assert_eq!(nfc, nfd);
}

#[test]
fn ordering_is_deterministic() {
    let a = RelPath::new("alpha.txt");
    let b = RelPath::new("Beta.txt");
    // 'a' < 'b' in normalized form
    assert!(a < b);
}

#[test]
fn preserves_display_form() {
    let p = RelPath::new("MyFolder/README.md");
    assert_eq!(p.display(), "MyFolder/README.md");
}

#[test]
fn parent_and_join() {
    let p = RelPath::new("a/b/c.txt");
    let parent = p.parent().unwrap();
    assert_eq!(parent.display(), "a/b");
    let joined = parent.join("d.txt");
    assert_eq!(joined.display(), "a/b/d.txt");
}

#[test]
fn root_level_has_no_parent() {
    let p = RelPath::new("file.txt");
    assert!(p.parent().is_none());
}

#[test]
fn is_safe_rejects_traversal() {
    assert!(!RelPath::new("../etc/passwd").is_safe());
    assert!(!RelPath::new("foo/../../etc/passwd").is_safe());
    assert!(!RelPath::new("..").is_safe());
    assert!(!RelPath::new("/absolute/path").is_safe());
}

#[test]
fn is_safe_accepts_normal_paths() {
    assert!(RelPath::new("file.txt").is_safe());
    assert!(RelPath::new("dir/subdir/file.txt").is_safe());
    assert!(RelPath::new(".hidden/file").is_safe());
    assert!(RelPath::new("a...b/c").is_safe());
}

#[test]
fn safe_resolve_rejects_escape() {
    // The root does not exist, so neither path has a canonical form.
    let root = "/tmp/anchor";
    assert!(RelPath::new("../escape").safe_resolve(root, None, None, false).is_none());
    assert!(RelPath::new("foo/../../escape").safe_resolve(root, None, None, false).is_none());
}

#[test]
fn normalized_form_is_nfd_lowercase() {
    assert_eq!(RelPath::new("Photos/Trip.JPG").normalized(), "photos/trip.jpg");
    assert_eq!(normalize("Caf\u{00C9}"), "cafe\u{0301}");
    let p = RelPath::new("caf\u{00E9}.txt");
    assert_eq!(p.normalized(), "cafe\u{0301}.txt");
    assert_eq!(p.display(), "caf\u{00E9}.txt");
}

#[test]
fn safe_resolve_joins_or_checks_containment() {
    let p = RelPath::new("sub/file.txt");
    // Under a root that does not exist, the lexical join.
    assert_eq!(p.safe_resolve("/tmp/anchor", None, None, false).unwrap(), "/tmp/anchor/sub/file.txt");
    assert_eq!(p.safe_resolve("/tmp/anchor/", None, None, false).unwrap(), "/tmp/anchor/sub/file.txt");
    // An existing path: its canonical form, when it lies under the root.
    assert_eq!(p.safe_resolve("/a", Some("/real/a"), Some("/real/a/sub/file.txt"), true).unwrap(), "/real/a/sub/file.txt");
    assert!(p.safe_resolve("/a", Some("/real/a"), Some("/real/ab/file.txt"), true).is_none());
    assert!(p.safe_resolve("/a", Some("/real/a"), Some("/elsewhere/file.txt"), true).is_none());
    // A path still to be made: kept when its deepest existing part resolves
    // under the root, refused when that part leads out (a link to elsewhere).
    assert_eq!(p.safe_resolve("/a", Some("/real/a"), Some("/real/a/sub"), false).unwrap(), "/a/sub/file.txt");
    assert!(p.safe_resolve("/a", Some("/real/a"), Some("/etc"), false).is_none());
    // Something that cannot be resolved is refused.
    assert!(p.safe_resolve("/a", Some("/real/a"), None, false).is_none());
}

#[test]
fn only_whole_dot_dot_segments_are_traversal() {
    assert!(RelPath::new("a../b").is_safe());
    assert!(RelPath::new("x..").is_safe());
    assert!(RelPath::new("..x/y").is_safe());
    assert!(!RelPath::new("a/../b").is_safe());
    assert!(!RelPath::new("a/..").is_safe());
    assert!(!RelPath::new("../a").is_safe());
}

#[test]
fn stem_and_extension() {
    let p = RelPath::new("docs/report.final.pdf");
    assert_eq!(p.stem(), Some("report.final"));
    assert_eq!(p.extension(), Some("pdf"));
    let hidden = RelPath::new("dir/.bashrc");
    assert_eq!(hidden.stem(), Some(".bashrc"));
    assert_eq!(hidden.extension(), None);
    let bare = RelPath::new("Makefile");
    assert_eq!(bare.stem(), Some("Makefile"));
    assert_eq!(bare.extension(), None);
}

#[test]
fn parent_of_nested_and_rooted_paths() {
    assert_eq!(RelPath::new("a/b/").parent().unwrap().display(), "a");
    assert_eq!(RelPath::new("/top").parent().unwrap().display(), "/");
    assert!(RelPath::new("").parent().is_none());
    assert_eq!(RelPath::new("").join("x").display(), "x");
}

#[test]
fn ordering_uses_normalized_form() {
    let a = RelPath::new("B.txt");
    let b = RelPath::new("a.txt");
    assert!(b < a);
    assert!(RelPath::new("X") <= RelPath::new("x"));
    assert!(!(RelPath::new("X") < RelPath::new("x")));
}

#[test]
fn platform_paths_carry_the_display_form() {
    let p = RelPath::from_path(std::path::Path::new("Docs/Caf\u{00E9}.txt"));
    assert_eq!(p.display(), "Docs/Caf\u{00E9}.txt");
    assert_eq!(p.to_path_buf(), std::path::PathBuf::from("Docs/Caf\u{00E9}.txt"));
}

#[test]
fn dot_components_are_read_as_std_paths_read_them() {
    assert_eq!(RelPath::new("a/b/.").parent().unwrap().display(), "a");
    assert_eq!(RelPath::new("a/./b").parent().unwrap().display(), "a");
    assert_eq!(RelPath::new("a/b/./").parent().unwrap().display(), "a");
    assert_eq!(RelPath::new("a/b/.").file_name(), Some("b"));
    assert_eq!(RelPath::new("a/b/.").stem(), Some("b"));
    assert_eq!(RelPath::new("d/f.txt/.").extension(), Some("txt"));
    assert_eq!(RelPath::new("./a").parent().unwrap().display(), ".");
    assert!(RelPath::new(".").parent().is_none());
    assert_eq!(RelPath::new(".").file_name(), None);
    assert!(RelPath::new("a/.").parent().is_none());
    assert_eq!(RelPath::new("a/.").file_name(), Some("a"));
}

#[test]
fn equal_paths_hash_alike() {
    let mut set = std::collections::HashSet::new();
    set.insert(RelPath::new("Photos/Trip.JPG"));
    set.insert(RelPath::new("photos/trip.jpg"));
    set.insert(RelPath::new("photos/other.jpg"));
    assert_eq!(set.len(), 2);
    assert!(set.contains(&RelPath::new("PHOTOS/TRIP.jpg")));
}
