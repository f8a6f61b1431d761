//! Relative paths normalized for macOS APFS/HFS+ semantics.
//!
//! A `RelPath` keeps the form seen on disk (its view) and compares, orders
//! and keys maps by its normalized form: Unicode NFD, then lower case.
use unicode_normalization::UnicodeNormalization;
use std::path::{Path, PathBuf};
use vstd::prelude::*;

use crate::fs_path::{path_buf_from, path_lossy, path_of_text, path_text};
use crate::text::{
    chars_contain, chars_end_with, chars_of, chars_start_with, contains, ends_with,
    string_from_chars, starts_with,
};

verus! {

/// The NFD decomposition of `s`, as `unicode-normalization` computes it.
pub uninterp spec fn nfd_text(s: Seq<char>) -> Seq<char>;

/// The lower-case mapping of `s`, as `str::to_lowercase` computes it.
pub uninterp spec fn lowercase_text(s: Seq<char>) -> Seq<char>;

/// The comparison form of a path: NFD, then lower case.
pub open spec fn normalize_text(s: Seq<char>) -> Seq<char> {
    lowercase_text(nfd_text(s))
}

/// Calls `UnicodeNormalization::nfd` on `s` and collects the characters.
/// The contract names the result: the NFD decomposition of `s`.
#[verifier::external_body]
fn nfd_string(s: &str) -> (r: String)
    ensures
        r@ == nfd_text(s@),
{
    s.nfd().collect::<String>()
}

/// Calls `str::to_lowercase`. The contract names the result: the
/// lower-case mapping of `s`.
#[verifier::external_body]
fn lowercase_string(s: &str) -> (r: String)
    ensures
        r@ == lowercase_text(s@),
{
    s.to_lowercase()
}

/// The comparison form of `s`: NFD decomposition, then case-folded.
pub fn normalize(s: &str) -> (r: String)
    ensures
        r@ == normalize_text(s@),
{
    let d = nfd_string(s);
    lowercase_string(d.as_str())
}

/// A trailing `.` component of `s`: a `.` right after a `/`.
pub open spec fn ends_with_dot_component(s: Seq<char>) -> bool {
    s.len() >= 2 && s.last() == '.' && s[s.len() - 2] == '/'
}

/// `s` without its trailing separators and `.` components, as a path's
/// components read it: a leading `.` stays.
pub open spec fn trim_path_end(s: Seq<char>) -> Seq<char>
    decreases s.len(),
{
    if s.len() > 0 && s.last() == '/' {
        trim_path_end(s.drop_last())
    } else if ends_with_dot_component(s) {
        trim_path_end(s.drop_last())
    } else {
        s
    }
}

/// The index of the last occurrence of `c` in `s`, or -1.
pub open spec fn last_index_of(s: Seq<char>, c: char) -> int
    decreases s.len(),
{
    if s.len() == 0 {
        -1
    } else if s.last() == c {
        s.len() - 1
    } else {
        last_index_of(s.drop_last(), c)
    }
}

/// A `..` segment of `d` starts at `i`: two dots between separators (or
/// the ends of the path).
pub open spec fn up_segment_at(d: Seq<char>, i: int) -> bool {
    &&& 0 <= i
    &&& i + 2 <= d.len()
    &&& d[i] == '.'
    &&& d[i + 1] == '.'
    &&& (i == 0 || d[i - 1] == '/')
    &&& (i + 2 == d.len() || d[i + 2] == '/')
}

/// A path is safe when it is relative (does not start with `/`) and none
/// of its `/`-separated segments is `..`.
pub open spec fn safe_text(d: Seq<char>) -> bool {
    &&& !starts_with(d, seq!['/'])
    &&& forall|i: int| !#[trigger] up_segment_at(d, i)
}

/// The parent of a `/`-separated path, as `std::path::Path::parent` reads
/// it: everything before its last component, without trailing separators or
/// `.` components; `/` for a component directly under the root; none for a
/// single relative component or an empty path.
pub open spec fn parent_text(d: Seq<char>) -> Option<Seq<char>> {
    let t = trim_path_end(d);
    let k = last_index_of(t, '/');
    if k < 0 {
        None
    } else {
        let q = trim_path_end(t.take(k));
        if q.len() == 0 {
            Some(seq!['/'])
        } else {
            Some(q)
        }
    }
}

/// The start of the last component of `d`, and its end.
pub open spec fn last_component_bounds(d: Seq<char>) -> (int, int) {
    let t = trim_path_end(d);
    (last_index_of(t, '/') + 1, t.len() as int)
}

/// The last component of `d`, unless it is empty, `.` or `..`.
pub open spec fn file_name_text(d: Seq<char>) -> Option<Seq<char>> {
    let (a, b) = last_component_bounds(d);
    let name = d.subrange(a, b);
    if name.len() == 0 || name == seq!['.'] || name == seq!['.', '.'] {
        None
    } else {
        Some(name)
    }
}

/// The file name without its extension: everything before the last `.`,
/// unless that `.` is the first character.
pub open spec fn stem_text(d: Seq<char>) -> Option<Seq<char>> {
    match file_name_text(d) {
        None => None,
        Some(name) => {
            let dot = last_index_of(name, '.');
            if dot <= 0 {
                Some(name)
            } else {
                Some(name.take(dot))
            }
        },
    }
}

/// The extension: everything after the last `.` of the file name, unless
/// that `.` is the first character.
pub open spec fn extension_text(d: Seq<char>) -> Option<Seq<char>> {
    match file_name_text(d) {
        None => None,
        Some(name) => {
            let dot = last_index_of(name, '.');
            if dot <= 0 {
                None
            } else {
                Some(name.skip(dot + 1))
            }
        },
    }
}

/// A child joined under a relative path with `/`.
pub open spec fn child_text(d: Seq<char>, child: Seq<char>) -> Seq<char> {
    if d.len() == 0 {
        child
    } else {
        d + seq!['/'] + child
    }
}

/// `rel` pushed onto the directory `base`, as `Path::join` does: an
/// absolute `rel` replaces `base`; otherwise one separator goes between.
pub open spec fn path_join_text(base: Seq<char>, rel: Seq<char>) -> Seq<char> {
    if starts_with(rel, seq!['/']) || base.len() == 0 {
        rel
    } else if base.last() == '/' {
        base + rel
    } else {
        base + seq!['/'] + rel
    }
}

/// `child` lies at or under `base`, comparing whole `/`-separated
/// components (the paths are canonical: no `.`, `..` or doubled separators).
pub open spec fn within_text(child: Seq<char>, base: Seq<char>) -> bool {
    ||| child == base
    ||| starts_with(child, base + seq!['/'])
    ||| (base.len() > 0 && base.last() == '/' && starts_with(child, base))
}

/// A relative path as seen on disk, compared by its normalized form.
#[derive(Debug)]
pub struct RelPath {
    display: String,
    normalized: String,
}

impl View for RelPath {
    type V = Seq<char>;

    closed spec fn view(&self) -> Seq<char> {
        self.display@
    }
}

impl RelPath {
    #[verifier::type_invariant]
    spec fn inv(self) -> bool {
        self.normalized@ == normalize_text(self.display@)
    }

    /// The form used for comparison and map keys.
    pub open spec fn key(&self) -> Seq<char> {
        normalize_text(self@)
    }

    pub fn new(path: &str) -> (r: Self)
        ensures
            r@ == path@,
    {
        let display = path.to_owned();
        let normalized = normalize(path);
        RelPath { display, normalized }
    }

    /// Returns true if this relative path is safe (no traversal components):
    /// it is not absolute and has no `..` segment.
    pub fn is_safe(&self) -> (r: bool)
        ensures
            r == safe_text(self@),
    {
        let d = chars_of(self.display.as_str());
        if d.len() > 0 && d[0] == '/' {
            assert(starts_with(d@, seq!['/'])) by {
                assert(d@.take(1) =~= seq!['/']);
            }
            return false;
        }
        assert(!starts_with(d@, seq!['/'])) by {
            if starts_with(d@, seq!['/']) {
                assert(d@.take(1)[0] == '/');
            }
        }
        let mut i: usize = 0;
        while i < d.len()
            invariant
                i <= d@.len(),
                d@ == self@,
                forall|j: int| 0 <= j < i ==> !#[trigger] up_segment_at(d@, j),
            decreases d@.len() - i,
        {
            if d.len() - i >= 2 && d[i] == '.' && d[i + 1] == '.' && (i == 0 || d[i - 1] == '/') && (d.len() - i
                == 2 || d[i + 2] == '/') {
                assert(up_segment_at(d@, i as int));
                return false;
            }
            i = i + 1;
        }
        assert forall|j: int| !#[trigger] up_segment_at(d@, j) by {
            if 0 <= j < d@.len() {
            }
        }
        true
    }

    /// Resolve this path under `root`, refusing anything that would escape it.
    ///
    /// The caller reads the filesystem: `canonical_root` is the canonical
    /// form of `root`, or `None` when `root` does not exist;
    /// `canonical_existing` is the canonical form of the deepest path among
    /// the joined path and its ancestors up to `root` that exists, or `None`
    /// when that path cannot be resolved (a dangling link, a denied lookup);
    /// `joined_exists` says whether that path is the joined path itself.
    ///
    /// An unsafe path is refused. Under a root that does not exist nothing
    /// below it exists, so the lexical join stays under it. Otherwise the
    /// path is kept only when its deepest existing part resolves under the
    /// canonical root: the canonical form is returned when the joined path
    /// exists, the lexical join when its last components are still to be
    /// made. Anything that cannot be resolved is refused.
    pub fn safe_resolve(
        &self,
        root: &str,
        canonical_root: Option<&str>,
        canonical_existing: Option<&str>,
        joined_exists: bool,
    ) -> (r: Option<String>)
        ensures
            !safe_text(self@) ==> r is None,
            safe_text(self@) ==> match (canonical_root, canonical_existing) {
                (None, _) => r matches Some(s) && s@ == path_join_text(root@, self@),
                (Some(cr), Some(ce)) => if within_text(ce@, cr@) {
                    r matches Some(s) && s@ == (if joined_exists {
                        ce@
                    } else {
                        path_join_text(root@, self@)
                    })
                } else {
                    r is None
                },
                (Some(_), None) => r is None,
            },
    {
        if !self.is_safe() {
            return None;
        }
        match (canonical_root, canonical_existing) {
            (None, _) => {
                let rv = chars_of(root);
                let dv = chars_of(self.display.as_str());
                Some(string_from_chars(&path_join(&rv, &dv)))
            },
            (Some(cr), Some(ce)) => {
                let crv = chars_of(cr);
                let cev = chars_of(ce);
                if !path_within(&cev, &crv) {
                    None
                } else if joined_exists {
                    Some(string_from_chars(&cev))
                } else {
                    let rv = chars_of(root);
                    let dv = chars_of(self.display.as_str());
                    Some(string_from_chars(&path_join(&rv, &dv)))
                }
            },
            (Some(_), None) => None,
        }
    }

    /// The relative path a filesystem path names, read as UTF-8 with
    /// anything else replaced.
    pub fn from_path(path: &Path) -> (r: Self)
        ensures
            r@ == path_text(path),
    {
        let s = path_lossy(path);
        RelPath::new(s.as_str())
    }

    /// The display form as a filesystem path.
    pub fn to_path_buf(&self) -> (r: PathBuf)
        ensures
            r == path_of_text(self@),
    {
        path_buf_from(self.display.as_str())
    }

    /// The path as it appeared on disk (preserves casing).
    pub fn display(&self) -> (r: &str)
        ensures
            r@ == self@,
    {
        self.display.as_str()
    }

    /// The normalized form used for comparison (NFD + lowercase).
    pub fn normalized(&self) -> (r: &str)
        ensures
            r@ == self.key(),
    {
        proof {
            use_type_invariant(self);
        }
        self.normalized.as_str()
    }

    /// The characters of the normalized form.
    pub fn key_chars(&self) -> (r: Vec<char>)
        ensures
            r@ == self.key(),
    {
        chars_of(self.normalized())
    }

    /// Whether two paths have the same normalized form.
    pub fn same_key(&self, other: &RelPath) -> (r: bool)
        ensures
            r == (self.key() == other.key()),
    {
        proof {
            use_type_invariant(self);
            use_type_invariant(other);
        }
        self.normalized == other.normalized
    }

    /// Join a child component onto this path with `/`.
    pub fn join(&self, child: &str) -> (r: Self)
        ensures
            r@ == child_text(self@, child@),
    {
        let d = chars_of(self.display.as_str());
        let c = chars_of(child);
        if d.len() == 0 {
            RelPath::new(child)
        } else {
            let mut v = copy_chars(&d);
            v.push('/');
            let mut i: usize = 0;
            while i < c.len()
                invariant
                    i <= c.len(),
                    v@ == d@ + seq!['/'] + c@.take(i as int),
                decreases c.len() - i,
            {
                v.push(c[i]);
                assert(c@.take(i + 1) =~= c@.take(i as int).push(c@[i as int]));
                i = i + 1;
            }
            assert(c@.take(i as int) =~= c@);
            let s = string_from_chars(&v);
            RelPath::new(s.as_str())
        }
    }

    /// The parent path, or None for a root-level entry.
    pub fn parent(&self) -> (r: Option<Self>)
        ensures
            match parent_text(self@) {
                None => r is None,
                Some(p) => r matches Some(q) && q@ == p,
            },
    {
        let d = chars_of(self.display.as_str());
        match parent_chars(&d) {
            None => None,
            Some(q) => {
                let s = string_from_chars(&q);
                Some(RelPath::new(s.as_str()))
            },
        }
    }

    /// The last component of the path, unless it is empty, `.` or `..`.
    pub fn file_name(&self) -> (r: Option<&str>)
        ensures
            match file_name_text(self@) {
                None => r is None,
                Some(s) => r matches Some(q) && q@ == s,
            },
    {
        let d = chars_of(self.display.as_str());
        match self.file_name_bounds(&d) {
            None => None,
            Some((a, b)) => Some(self.display.as_str().substring_char(a, b)),
        }
    }

    /// The file stem (name without extension).
    pub fn stem(&self) -> (r: Option<&str>)
        ensures
            match stem_text(self@) {
                None => r is None,
                Some(s) => r matches Some(q) && q@ == s,
            },
    {
        let d = chars_of(self.display.as_str());
        match self.file_name_bounds(&d) {
            None => None,
            Some((a, b)) => {
                let name = sub_chars(&d, a, b);
                match last_index(&name, '.') {
                    Some(dot) if dot > 0 => Some(self.display.as_str().substring_char(a, a + dot)),
                    _ => Some(self.display.as_str().substring_char(a, b)),
                }
            },
        }
    }

    /// The extension (after the last `.` of the file name).
    pub fn extension(&self) -> (r: Option<&str>)
        ensures
            match extension_text(self@) {
                None => r is None,
                Some(s) => r matches Some(q) && q@ == s,
            },
    {
        let d = chars_of(self.display.as_str());
        match self.file_name_bounds(&d) {
            None => None,
            Some((a, b)) => {
                let name = sub_chars(&d, a, b);
                match last_index(&name, '.') {
                    Some(dot) if dot > 0 => Some(self.display.as_str().substring_char(a + dot + 1, b)),
                    _ => None,
                }
            },
        }
    }

    /// Where the file name lies in `d`, if the path has one.
    fn file_name_bounds(&self, d: &Vec<char>) -> (r: Option<(usize, usize)>)
        requires
            d@ == self@,
        ensures
            match file_name_text(self@) {
                None => r is None,
                Some(name) => r matches Some((a, b)) && a <= b <= d@.len() && a == last_component_bounds(self@).0
                    && b == last_component_bounds(self@).1 && name == d@.subrange(a as int, b as int),
            },
    {
        let t = trim_path_end_chars(d);
        proof {
            lemma_trim_is_prefix(d@);
        }
        let b = t.len();
        let a = match last_index(&t, '/') {
            None => 0,
            Some(k) => {
                assert(k < b);
                k + 1
            },
        };
        assert(t@ == d@.take(b as int));
        let name = sub_chars(d, a, b);
        let dot = vec!['.'];
        let dotdot = vec!['.', '.'];
        assert(dot@ =~= seq!['.']);
        assert(dotdot@ =~= seq!['.', '.']);
        if name.len() == 0 || seq_eq(&name, &dot) || seq_eq(&name, &dotdot) {
            None
        } else {
            Some((a, b))
        }
    }
}

impl Clone for RelPath {
    fn clone(&self) -> (r: Self)
        ensures
            r == *self,
    {
        proof {
            use_type_invariant(self);
        }
        RelPath { display: self.display.clone(), normalized: self.normalized.clone() }
    }
}

impl PartialEq for RelPath {
    fn eq(&self, other: &Self) -> (r: bool) {
        proof {
            use_type_invariant(self);
            use_type_invariant(other);
        }
        self.normalized == other.normalized
    }
}

impl vstd::std_specs::cmp::PartialEqSpecImpl for RelPath {
    open spec fn obeys_eq_spec() -> bool {
        true
    }

    open spec fn eq_spec(&self, other: &Self) -> bool {
        self.key() == other.key()
    }
}

impl Eq for RelPath {

}

impl std::hash::Hash for RelPath {
    /// Hashes the comparison form (`str::hash` on it), so that paths equal
    /// under `==` hash alike.
    #[verifier::external_body]
    fn hash<H: std::hash::Hasher>(&self, state: &mut H) {
        self.normalized.hash(state)
    }
}

pub proof fn lemma_trim_is_prefix(s: Seq<char>)
    ensures
        trim_path_end(s).len() <= s.len(),
        trim_path_end(s) == s.take(trim_path_end(s).len() as int),
        trim_path_end(s).len() > 0 ==> trim_path_end(s).last() != '/',
        !ends_with_dot_component(trim_path_end(s)),
    decreases s.len(),
{
    if (s.len() > 0 && s.last() == '/') || ends_with_dot_component(s) {
        lemma_trim_is_prefix(s.drop_last());
        assert(s.drop_last().take(trim_path_end(s).len() as int) =~= s.take(
            trim_path_end(s).len() as int,
        ));
    } else {
        assert(s.take(s.len() as int) =~= s);
    }
}

pub proof fn lemma_last_index_bounds(s: Seq<char>, c: char)
    ensures
        -1 <= last_index_of(s, c) < s.len(),
        last_index_of(s, c) >= 0 ==> s[last_index_of(s, c)] == c,
        forall|j: int| last_index_of(s, c) < j < s.len() ==> s[j] != c,
    decreases s.len(),
{
    if s.len() > 0 && s.last() != c {
        lemma_last_index_bounds(s.drop_last(), c);
        assert forall|j: int| last_index_of(s, c) < j < s.len() implies s[j] != c by {
            if j < s.len() - 1 {
                assert(s[j] == s.drop_last()[j]);
            }
        }
    }
}

/// A parent is strictly shorter than its path.
pub proof fn lemma_parent_shorter(d: Seq<char>)
    ensures
        parent_text(d) matches Some(p) ==> p.len() < d.len(),
{
    let t = trim_path_end(d);
    lemma_trim_is_prefix(d);
    lemma_last_index_bounds(t, '/');
    let k = last_index_of(t, '/');
    if k >= 0 {
        lemma_trim_is_prefix(t.take(k));
        if trim_path_end(t.take(k)).len() == 0 {
            assert(t[k] == '/');
            assert(t.last() != '/');
            assert(k != t.len() - 1);
        }
    }
}

/// `d` without its trailing separators and `.` components.
fn trim_path_end_chars(d: &Vec<char>) -> (t: Vec<char>)
    ensures
        t@ == trim_path_end(d@),
{
    let mut n = d.len();
    assert(d@.take(n as int) =~= d@);
    while n > 0 && (d[n - 1] == '/' || (n >= 2 && d[n - 1] == '.' && d[n - 2] == '/'))
        invariant
            n <= d.len(),
            trim_path_end(d@) == trim_path_end(d@.take(n as int)),
        decreases n,
    {
        assert(d@.take(n as int).drop_last() =~= d@.take(n - 1));
        n = n - 1;
    }
    assert(trim_path_end(d@.take(n as int)) == d@.take(n as int));
    take_chars(d, n)
}

/// The first `n` characters of `d`.
pub(crate) fn take_chars(d: &Vec<char>, n: usize) -> (t: Vec<char>)
    requires
        n <= d.len(),
    ensures
        t@ == d@.take(n as int),
{
    sub_chars(d, 0, n)
}

/// The characters of `d` from `a` up to `b`.
pub(crate) fn sub_chars(d: &Vec<char>, a: usize, b: usize) -> (t: Vec<char>)
    requires
        a <= b <= d.len(),
    ensures
        t@ == d@.subrange(a as int, b as int),
{
    let mut t: Vec<char> = Vec::new();
    let mut i = a;
    while i < b
        invariant
            a <= i <= b <= d.len(),
            t@ == d@.subrange(a as int, i as int),
        decreases b - i,
    {
        t.push(d[i]);
        assert(d@.subrange(a as int, i + 1) =~= d@.subrange(a as int, i as int).push(d@[i as int]));
        i = i + 1;
    }
    t
}

/// The index of the last `c` in `d`.
pub(crate) fn last_index(d: &Vec<char>, c: char) -> (r: Option<usize>)
    ensures
        match r {
            None => last_index_of(d@, c) == -1,
            Some(k) => last_index_of(d@, c) == k && k < d@.len(),
        },
{
    let mut n = d.len();
    assert(d@.take(n as int) =~= d@);
    while n > 0
        invariant
            n <= d.len(),
            last_index_of(d@.take(n as int), c) == last_index_of(d@, c),
        decreases n,
    {
        assert(d@.take(n as int).drop_last() =~= d@.take(n - 1));
        if d[n - 1] == c {
            return Some(n - 1);
        }
        n = n - 1;
    }
    None
}

/// A copy of `d`.
pub(crate) fn copy_chars(d: &Vec<char>) -> (r: Vec<char>)
    ensures
        r@ == d@,
{
    let r = sub_chars(d, 0, d.len());
    assert(d@.subrange(0, d@.len() as int) =~= d@);
    r
}

/// Element-wise equality of two character sequences.
pub(crate) fn seq_eq(a: &Vec<char>, b: &Vec<char>) -> (r: bool)
    ensures
        r == (a@ == b@),
{
    if a.len() != b.len() {
        return false;
    }
    let mut i: usize = 0;
    while i < a.len()
        invariant
            a.len() == b.len(),
            i <= a.len(),
            forall|j: int| 0 <= j < i ==> a@[j] == b@[j],
        decreases a.len() - i,
    {
        if a[i] != b[i] {
            return false;
        }
        i = i + 1;
    }
    assert(a@ =~= b@);
    true
}

/// The parent of the `/`-separated path `d`, as `parent_text` describes it.
pub(crate) fn parent_chars(d: &Vec<char>) -> (r: Option<Vec<char>>)
    ensures
        match parent_text(d@) {
            None => r is None,
            Some(p) => r matches Some(q) && q@ == p,
        },
{
    let t = trim_path_end_chars(d);
    match last_index(&t, '/') {
        None => None,
        Some(k) => {
            let pre = take_chars(&t, k);
            let q = trim_path_end_chars(&pre);
            if q.len() == 0 {
                let root = vec!['/'];
                assert(root@ =~= seq!['/']);
                Some(root)
            } else {
                Some(q)
            }
        },
    }
}

/// `base` joined with `rel` as `Path::join` does.
pub(crate) fn path_join(base: &Vec<char>, rel: &Vec<char>) -> (r: Vec<char>)
    ensures
        r@ == path_join_text(base@, rel@),
{
    let slash = vec!['/'];
    assert(slash@ =~= seq!['/']);
    if chars_start_with(rel, &slash) || base.len() == 0 {
        let r = copy_chars(rel);
        return r;
    }
    let mut v = copy_chars(base);
    assert(base@.last() == base@[base@.len() - 1]);
    if base[base.len() - 1] != '/' {
        v.push('/');
    }
    let ghost pre = v@;
    let mut i: usize = 0;
    while i < rel.len()
        invariant
            i <= rel.len(),
            v@ == pre + rel@.take(i as int),
        decreases rel.len() - i,
    {
        v.push(rel[i]);
        assert(rel@.take(i + 1) =~= rel@.take(i as int).push(rel@[i as int]));
        i = i + 1;
    }
    assert(rel@.take(i as int) =~= rel@);
    v
}

/// Whether `child` lies at or under `base`, by whole components.
fn path_within(child: &Vec<char>, base: &Vec<char>) -> (r: bool)
    ensures
        r == within_text(child@, base@),
{
    if seq_eq(child, base) {
        return true;
    }
    let mut with_sep = copy_chars(base);
    with_sep.push('/');
    assert(with_sep@ =~= base@ + seq!['/']);
    if base.len() > 0 {
        assert(base@.last() == base@[base@.len() - 1]);
    }
    if chars_start_with(child, &with_sep) {
        return true;
    }
    base.len() > 0 && base[base.len() - 1] == '/' && chars_start_with(child, base)
}

} // verus!
