//! What a directory scan produces, and the rules that decide which entries it keeps.
//!
//! Walking the filesystem is I/O and stands outside the library; the walker
//! asks `ScanConfig::accepts` about every entry and files what it keeps in a
//! `Snapshot`.
use vstd::prelude::*;

use crate::path::{last_index, last_index_of, seq_eq, sub_chars, RelPath};
use crate::pathmap::PathMap;
use crate::text::{hex_lower, chars_end_with, chars_of, chars_start_with, ends_with, starts_with};

verus! {

/// Configuration for scanning a single anchor.
#[derive(Debug)]
pub struct ScanConfig {
    /// Maximum recursion depth. -1 means unlimited.
    pub max_depth: i32,
    /// Whether to include hidden files (dotfiles on Unix).
    pub include_hidden: bool,
    /// Glob patterns to ignore (simple suffix/prefix matching).
    pub ignore_patterns: Vec<String>,
}

impl Default for ScanConfig {
    fn default() -> (r: Self)
        ensures
            r.max_depth == -1,
            !r.include_hidden,
            r.ignore_patterns@.len() == 0,
    {
        ScanConfig { max_depth: -1, include_hidden: false, ignore_patterns: Vec::new() }
    }
}

impl Clone for ScanConfig {
    fn clone(&self) -> (r: Self)
        ensures
            r.max_depth == self.max_depth,
            r.include_hidden == self.include_hidden,
            r.ignore_patterns@ == self.ignore_patterns@,
    {
        let mut pats: Vec<String> = Vec::new();
        let mut i: usize = 0;
        while i < self.ignore_patterns.len()
            invariant
                i <= self.ignore_patterns@.len(),
                pats@ == self.ignore_patterns@.take(i as int),
            decreases self.ignore_patterns@.len() - i,
        {
            pats.push(self.ignore_patterns[i].clone());
            assert(self.ignore_patterns@.take(i + 1) =~= self.ignore_patterns@.take(i as int).push(
                self.ignore_patterns@[i as int],
            ));
            i = i + 1;
        }
        assert(self.ignore_patterns@.take(i as int) =~= self.ignore_patterns@);
        ScanConfig { max_depth: self.max_depth, include_hidden: self.include_hidden, ignore_patterns: pats }
    }
}

/// Kind of filesystem entry.
#[derive(Debug, Clone, Copy, PartialEq, Eq, Structural)]
pub enum EntryKind {
    File,
    Dir,
}

/// A single filesystem entry captured during a scan.
#[derive(Debug)]
pub struct FileEntry {
    pub path: RelPath,
    pub kind: EntryKind,
    pub size: u64,
    /// Modification time in whole seconds since the Unix epoch (0 for earlier times).
    pub mtime_secs: i64,
    pub hash: Option<String>,
}

impl Clone for FileEntry {
    fn clone(&self) -> (r: Self)
        ensures
            r == *self,
    {
        let hash = match &self.hash {
            Some(h) => Some(h.clone()),
            None => None,
        };
        FileEntry {
            path: self.path.clone(),
            kind: self.kind,
            size: self.size,
            mtime_secs: self.mtime_secs,
            hash,
        }
    }
}

/// The result of scanning a directory tree: every kept entry, by path.
#[derive(Debug)]
pub struct Snapshot {
    pub entries: PathMap<FileEntry>,
}

/// Some component of the `/`-separated path `s` starts with `.`.
pub open spec fn hidden_text(s: Seq<char>) -> bool {
    exists|i: int| 0 <= i < s.len() && #[trigger] dot_starts_component(s, i)
}

/// Position `i` of `s` holds a `.` that begins a component.
pub open spec fn dot_starts_component(s: Seq<char>, i: int) -> bool {
    s[i] == '.' && (i == 0 || s[i - 1] == '/')
}

/// The last `/`-separated component of `s`.
pub open spec fn last_segment(s: Seq<char>) -> Seq<char> {
    s.skip(last_index_of(s, '/') + 1)
}

/// Simple glob matching: a leading `*` matches any prefix, a trailing `*`
/// any suffix; otherwise the pattern must equal the name.
pub open spec fn glob_matches(name: Seq<char>, pattern: Seq<char>) -> bool {
    if starts_with(pattern, seq!['*']) {
        ends_with(name, pattern.drop_first())
    } else if ends_with(pattern, seq!['*']) {
        starts_with(name, pattern.drop_last())
    } else {
        name == pattern
    }
}

/// The file name of `s` matches one of `patterns`.
pub open spec fn ignored_text(s: Seq<char>, patterns: Seq<String>) -> bool {
    exists|i: int| 0 <= i < patterns.len() && glob_matches(last_segment(s), #[trigger] patterns[i]@)
}

/// Whether a component of `rel_path` is hidden (starts with a dot).
pub fn is_hidden(rel_path: &str) -> (r: bool)
    ensures
        r == hidden_text(rel_path@),
{
    let s = chars_of(rel_path);
    let mut i: usize = 0;
    while i < s.len()
        invariant
            i <= s.len(),
            s@ == rel_path@,
            forall|j: int| 0 <= j < i ==> !#[trigger] dot_starts_component(s@, j),
        decreases s.len() - i,
    {
        if s[i] == '.' && (i == 0 || s[i - 1] == '/') {
            assert(dot_starts_component(s@, i as int));
            return true;
        }
        i = i + 1;
    }
    false
}

/// Simple glob matching: supports a `*` prefix (e.g. `*.tmp`), a `*` suffix
/// (e.g. `~$*`) and exact match.
pub fn match_glob(name: &str, pattern: &str) -> (r: bool)
    ensures
        r == glob_matches(name@, pattern@),
{
    let n = chars_of(name);
    let p = chars_of(pattern);
    let star = vec!['*'];
    assert(star@ =~= seq!['*']);
    if chars_start_with(&p, &star) {
        let rest = slice_from(&p, 1);
        assert(rest@ =~= p@.drop_first());
        chars_end_with(&n, &rest)
    } else if chars_end_with(&p, &star) {
        let front = slice_to(&p, p.len() - 1);
        assert(front@ =~= p@.drop_last());
        chars_start_with(&n, &front)
    } else {
        seq_eq(&n, &p)
    }
}

/// Whether the file name of `rel_path` matches one of `patterns`.
pub fn matches_ignore(rel_path: &str, patterns: &Vec<String>) -> (r: bool)
    ensures
        r == ignored_text(rel_path@, patterns@),
{
    let s = chars_of(rel_path);
    let start: usize = match last_index(&s, '/') {
        Some(k) => k + 1,
        None => 0,
    };
    let name_chars = sub_chars(&s, start, s.len());
    assert(name_chars@ =~= last_segment(s@));
    let name = crate::text::string_from_chars(&name_chars);
    let mut i: usize = 0;
    while i < patterns.len()
        invariant
            i <= patterns@.len(),
            name@ == last_segment(rel_path@),
            forall|j: int| 0 <= j < i ==> !glob_matches(last_segment(rel_path@), #[trigger] patterns@[j]@),
        decreases patterns@.len() - i,
    {
        if match_glob(name.as_str(), patterns[i].as_str()) {
            return true;
        }
        i = i + 1;
    }
    false
}

/// The characters of `v` from `a` on.
fn slice_from(v: &Vec<char>, a: usize) -> (r: Vec<char>)
    requires
        a <= v.len(),
    ensures
        r@ == v@.skip(a as int),
{
    let mut r: Vec<char> = Vec::new();
    let mut i = a;
    while i < v.len()
        invariant
            a <= i <= v.len(),
            r@ == v@.subrange(a as int, i as int),
        decreases v.len() - i,
    {
        r.push(v[i]);
        assert(v@.subrange(a as int, i + 1) =~= v@.subrange(a as int, i as int).push(v@[i as int]));
        i = i + 1;
    }
    assert(v@.subrange(a as int, v@.len() as int) =~= v@.skip(a as int));
    r
}

/// The first `b` characters of `v`.
fn slice_to(v: &Vec<char>, b: usize) -> (r: Vec<char>)
    requires
        b <= v.len(),
    ensures
        r@ == v@.take(b as int),
{
    let mut r: Vec<char> = Vec::new();
    let mut i: usize = 0;
    while i < b
        invariant
            i <= b <= v.len(),
            r@ == v@.take(i as int),
        decreases b - i,
    {
        r.push(v[i]);
        assert(v@.take(i + 1) =~= v@.take(i as int).push(v@[i as int]));
        i = i + 1;
    }
    r
}

impl ScanConfig {
    /// Whether a scan keeps the entry at `rel_path`: hidden entries only when
    /// configured, and never one whose file name matches an ignore pattern.
    pub fn accepts(&self, rel_path: &str) -> (r: bool)
        ensures
            r == ((self.include_hidden || !hidden_text(rel_path@)) && !ignored_text(
                rel_path@,
                self.ignore_patterns@,
            )),
    {
        if !self.include_hidden && is_hidden(rel_path) {
            return false;
        }
        !matches_ignore(rel_path, &self.ignore_patterns)
    }

    /// The depth limit for a walker that counts the root as depth 0:
    /// unlimited for a negative `max_depth`, one more than it otherwise.
    pub fn walker_depth(&self) -> (r: usize)
        ensures
            self.max_depth < 0 ==> r == usize::MAX,
            self.max_depth >= 0 ==> r == self.max_depth + 1,
    {
        if self.max_depth < 0 {
            usize::MAX
        } else {
            (self.max_depth as usize) + 1
        }
    }
}

/// The BLAKE3 digest of `data`, as the `blake3` crate computes it.
pub uninterp spec fn blake3_digest(data: Seq<u8>) -> Seq<u8>;

/// Calls `blake3::hash` and `Hash::to_hex`. The contract names the digest
/// and states what `to_hex` does with it: it writes each byte of the
/// 32-byte digest as two lowercase hex digits, high nibble first.
#[verifier::external_body]
fn blake3_hex(data: &[u8]) -> (r: String)
    ensures
        r@ == hex_lower(blake3_digest(data@)),
        r@.len() == 64,
{
    blake3::hash(data).to_hex().to_string()
}

/// The BLAKE3 hash of `data` as 64 lowercase hex characters.
pub fn hash_bytes(data: &[u8]) -> (r: String)
    ensures
        r@ == hex_lower(blake3_digest(data@)),
        r@.len() == 64,
{
    blake3_hex(data)
}

} // verus!
