use filesync::pathmap::PathMap;
use filesync::path::RelPath;
use filesync::scan::{hash_bytes, is_hidden, match_glob, matches_ignore, ScanConfig};

#[test]
fn hidden_means_a_component_starts_with_a_dot() {
    assert!(is_hidden(".hidden"));
    assert!(is_hidden("sub/.also_hidden"));
    assert!(is_hidden(".git/config"));
    assert!(!is_hidden("hello.txt"));
    assert!(!is_hidden("a.b/c.d"));
}

#[test]
fn globs_match_prefix_suffix_or_whole_name() {
    assert!(match_glob("temp.tmp", "*.tmp"));
    assert!(!match_glob("temp.tmpx", "*.tmp"));
    assert!(match_glob("~$doc.docx", "~$*"));
    assert!(match_glob(".DS_Store", ".DS_Store"));
    assert!(!match_glob("x.DS_Store", ".DS_Store"));
    let patterns = vec!["*.tmp".to_string(), ".DS_Store".to_string()];
    assert!(matches_ignore("sub/temp.tmp", &patterns));
    assert!(matches_ignore("a/b/.DS_Store", &patterns));
    assert!(!matches_ignore("tmp/hello.txt", &patterns));
}

#[test]
fn config_decides_which_entries_are_kept() {
    let default = ScanConfig::default();
    assert!(default.accepts("hello.txt"));
    assert!(!default.accepts("sub/.also_hidden"));
    assert_eq!(default.walker_depth(), usize::MAX);
    let cfg = ScanConfig { max_depth: 1, include_hidden: true, ignore_patterns: vec!["*.tmp".to_string()] };
    assert!(cfg.accepts(".hidden"));
    assert!(!cfg.accepts("temp.tmp"));
    assert_eq!(cfg.walker_depth(), 2);
}

#[test]
fn hash_is_blake3_hex() {
    let h = hash_bytes(b"hello world");
    assert_eq!(h.len(), 64);
    assert_eq!(h, "d74981efa70a0c880b8d8c1985d075dbcbf679b99a5f9914e5aaf96b831a9e24");
    assert_ne!(hash_bytes(b"hello world!"), h);
}

#[test]
fn path_map_keeps_keys_in_order_and_unique() {
    let mut m = PathMap::new();
    m.insert(RelPath::new("b.txt"), 1);
    m.insert(RelPath::new("A.txt"), 2);
    m.insert(RelPath::new("B.TXT"), 3);
    assert_eq!(m.len(), 2);
    let keys: Vec<&str> = m.entries().iter().map(|(k, _)| k.display()).collect();
    assert_eq!(keys, vec!["A.txt", "b.txt"]);
    assert_eq!(m.get(&RelPath::new("b.txt")), Some(&3));
    assert!(m.contains_key(&RelPath::new("a.TXT")));
    assert_eq!(m.remove(&RelPath::new("a.txt")), Some(2));
    assert_eq!(m.remove(&RelPath::new("a.txt")), None);
    assert!(!m.is_empty());
}
