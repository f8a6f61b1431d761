//! How an instance answers a peer's session requests: which anchors the
//! session may touch, and which requests it refuses, with which error.
//!
//! Reading and writing files, and the answers on the wire, belong to the
//! caller; the functions here decide what is allowed and where it goes.
use vstd::prelude::*;

use crate::error::Error;
use crate::path::{path_join, path_join_text, safe_text, RelPath};
use crate::profiles::{uuid_string, uuid_text};
use crate::text::{chars_contain, chars_of, contains, push_str, string_from_chars};
use crate::wire::{validate_rel_path, ErrorCode, QuickSendEntry};

verus! {

/// A session a peer has started: the anchors it may use, by id, with the
/// root directory of each on this instance.
pub struct ResponderSession {
    pub peer_id: u128,
    pub profile_id: u128,
    pub allowed_anchors: Vec<(u128, String)>,
}

/// The root of anchor `id` among `allowed`: the last entry with that id
/// counts, as a later insertion into a map replaces an earlier one.
pub open spec fn anchor_lookup(allowed: Seq<(u128, String)>, id: u128) -> Option<Seq<char>>
    decreases allowed.len(),
{
    if allowed.len() == 0 {
        None
    } else if allowed.last().0 == id {
        Some(allowed.last().1@)
    } else {
        anchor_lookup(allowed.drop_last(), id)
    }
}

/// The first anchor of `anchors` whose root does not exist, if any.
pub open spec fn first_missing(exists: Seq<bool>) -> Option<int>
    decreases exists.len(),
{
    if exists.len() == 0 {
        None
    } else {
        match first_missing(exists.drop_last()) {
            Some(i) => Some(i),
            None => if !exists.last() {
                Some(exists.len() - 1)
            } else {
                None
            },
        }
    }
}

/// Start a session for `peer_id` on `profile_id` with the anchors the
/// initiator names; `exists[i]` tells whether the root of `anchors[i]`
/// exists here. The first anchor whose root is missing is refused as not
/// found; otherwise the session allows exactly these anchors, and the
/// answer carries the responder's clock minus the initiator's.
pub fn start_session(
    peer_id: u128,
    profile_id: u128,
    anchors: &Vec<(u128, String)>,
    exists: &Vec<bool>,
    responder_unix_secs: i64,
    initiator_unix_secs: i64,
) -> (r: Result<(ResponderSession, i64), (ErrorCode, String)>)
    requires
        exists@.len() == anchors@.len(),
        i64::MIN <= responder_unix_secs - initiator_unix_secs <= i64::MAX,
    ensures
        match first_missing(exists@) {
            Some(i) => r matches Err((code, msg)) && code == ErrorCode::NotFound && msg@
                == "anchor path does not exist: "@ + anchors@[i].1@,
            None => r matches Ok((s, offset)) && s.peer_id == peer_id && s.profile_id == profile_id
                && s.allowed_anchors@ == anchors@ && offset == responder_unix_secs - initiator_unix_secs,
        },
{
    let mut i: usize = 0;
    while i < anchors.len()
        invariant
            i <= anchors@.len(),
            exists@.len() == anchors@.len(),
            first_missing(exists@.take(i as int)) is None,
        decreases anchors@.len() - i,
    {
        assert(exists@.take(i + 1).drop_last() =~= exists@.take(i as int));
        if !exists[i] {
            proof {
                lemma_first_missing_prefix(exists@, i as int + 1);
            }
            let mut v: Vec<char> = Vec::new();
            push_str(&mut v, "anchor path does not exist: ");
            push_str(&mut v, anchors[i].1.as_str());
            return Err((ErrorCode::NotFound, string_from_chars(&v)));
        }
        i = i + 1;
    }
    assert(exists@.take(i as int) =~= exists@);
    let mut allowed: Vec<(u128, String)> = Vec::new();
    let mut j: usize = 0;
    while j < anchors.len()
        invariant
            j <= anchors@.len(),
            allowed@ == anchors@.take(j as int),
        decreases anchors@.len() - j,
    {
        let (id, root) = &anchors[j];
        allowed.push((*id, root.clone()));
        assert(allowed@ =~= anchors@.take(j + 1));
        j = j + 1;
    }
    assert(anchors@.take(j as int) =~= anchors@);
    let session = ResponderSession { peer_id, profile_id, allowed_anchors: allowed };
    Ok((session, responder_unix_secs - initiator_unix_secs))
}

/// Start a session as `start_session` does, first refusing with an internal
/// error when the responder's clock minus the initiator's does not fit in
/// an `i64`.
pub fn start_session_checked(
    peer_id: u128,
    profile_id: u128,
    anchors: &Vec<(u128, String)>,
    exists: &Vec<bool>,
    responder_unix_secs: i64,
    initiator_unix_secs: i64,
) -> (r: Result<(ResponderSession, i64), (ErrorCode, String)>)
    requires
        exists@.len() == anchors@.len(),
    ensures
        !(i64::MIN <= responder_unix_secs - initiator_unix_secs <= i64::MAX) ==> (r matches Err((code, msg))
            && code == ErrorCode::Internal && msg@ == "clock offset out of range"@),
        i64::MIN <= responder_unix_secs - initiator_unix_secs <= i64::MAX ==> match first_missing(exists@) {
            Some(i) => r matches Err((code, msg)) && code == ErrorCode::NotFound && msg@
                == "anchor path does not exist: "@ + anchors@[i].1@,
            None => r matches Ok((s, offset)) && s.peer_id == peer_id && s.profile_id == profile_id
                && s.allowed_anchors@ == anchors@ && offset == responder_unix_secs - initiator_unix_secs,
        },
{
    match responder_unix_secs.checked_sub(initiator_unix_secs) {
        None => Err((ErrorCode::Internal, "clock offset out of range".to_string())),
        Some(_) => start_session(peer_id, profile_id, anchors, exists, responder_unix_secs, initiator_unix_secs),
    }
}

proof fn lemma_first_missing_prefix(exists: Seq<bool>, n: int)
    requires
        0 <= n <= exists.len(),
        first_missing(exists.take(n)) is Some,
    ensures
        first_missing(exists) == first_missing(exists.take(n)),
    decreases exists.len() - n,
{
    if n < exists.len() {
        assert(exists.take(n + 1).drop_last() =~= exists.take(n));
        lemma_first_missing_prefix(exists, n + 1);
    } else {
        assert(exists.take(n) =~= exists);
    }
}

/// Where a request on anchor `id` goes, or why it is refused: without a
/// session the session is invalid; an anchor the session does not allow is
/// denied.
pub open spec fn anchor_root_of(session: Option<ResponderSession>, id: u128) -> Result<Seq<char>, (ErrorCode, Seq<char>)> {
    match session {
        None => Err((ErrorCode::InvalidSession, "no active session"@)),
        Some(s) => match anchor_lookup(s.allowed_anchors@, id) {
            None => Err((ErrorCode::AccessDenied, "anchor "@ + uuid_text(id) + " not allowed"@)),
            Some(root) => Ok(root),
        },
    }
}

/// A refusal as the caller sends it: a code and a message.
pub open spec fn refusal_matches<T>(r: Result<T, (ErrorCode, String)>, e: (ErrorCode, Seq<char>)) -> bool {
    r matches Err((code, msg)) && code == e.0 && msg@ == e.1
}

/// The root of anchor `anchor_id` in the current session, or the refusal.
pub fn anchor_root(session: &Option<ResponderSession>, anchor_id: u128) -> (r: Result<String, (ErrorCode, String)>)
    ensures
        match anchor_root_of(*session, anchor_id) {
            Ok(root) => r matches Ok(s) && s@ == root,
            Err(e) => refusal_matches(r, e),
        },
{
    match session {
        None => {
            let mut v: Vec<char> = Vec::new();
            push_str(&mut v, "no active session");
            Err((ErrorCode::InvalidSession, string_from_chars(&v)))
        },
        Some(s) => {
            let allowed = &s.allowed_anchors;
            let mut i = allowed.len();
            assert(allowed@.take(i as int) =~= allowed@);
            while i > 0
                invariant
                    i <= allowed@.len(),
                    session.is_some() && session.unwrap().allowed_anchors@ == allowed@,
                    anchor_lookup(allowed@, anchor_id) == anchor_lookup(allowed@.take(i as int), anchor_id),
                decreases i,
            {
                assert(allowed@.take(i as int).drop_last() =~= allowed@.take(i - 1));
                if allowed[i - 1].0 == anchor_id {
                    assert(allowed@.take(i as int).last() == allowed@[i - 1]);
                    let root = allowed[i - 1].1.clone();
                    return Ok(root);
                }
                i = i - 1;
            }
            let mut v: Vec<char> = Vec::new();
            push_str(&mut v, "anchor ");
            let id = uuid_string(anchor_id);
            push_str(&mut v, id.as_str());
            push_str(&mut v, " not allowed");
            Err((ErrorCode::AccessDenied, string_from_chars(&v)))
        },
    }
}

/// The refusal of a path that could escape its anchor.
pub open spec fn traversal_refusal(p: Seq<char>) -> (ErrorCode, Seq<char>) {
    (ErrorCode::AccessDenied, "path traversal rejected: "@ + p)
}

/// Where a request on `path` of anchor `id` lands, or why it is refused:
/// the anchor's root must be available and the path must not escape it.
pub open spec fn target_of(session: Option<ResponderSession>, id: u128, path: Seq<char>) -> Result<Seq<char>, (ErrorCode, Seq<char>)> {
    match anchor_root_of(session, id) {
        Err(e) => Err(e),
        Ok(root) => if safe_text(path) {
            Ok(path_join_text(root, path))
        } else {
            Err(traversal_refusal(path))
        },
    }
}

fn join_str(base: &str, rel: &str) -> (r: String)
    ensures
        r@ == path_join_text(base@, rel@),
{
    string_from_chars(&path_join(&chars_of(base), &chars_of(rel)))
}

/// Where a request to write, create or delete `path` under anchor
/// `anchor_id` lands, or the refusal.
pub fn request_target(session: &Option<ResponderSession>, anchor_id: u128, path: &RelPath) -> (r: Result<String, (ErrorCode, String)>)
    ensures
        match target_of(*session, anchor_id, path@) {
            Ok(t) => r matches Ok(s) && s@ == t,
            Err(e) => refusal_matches(r, e),
        },
{
    let root = match anchor_root(session, anchor_id) {
        Ok(root) => root,
        Err(e) => return Err(e),
    };
    match validate_rel_path(path) {
        Err(e) => Err(e),
        Ok(()) => Ok(join_str(root.as_str(), path.display())),
    }
}

/// Where a rename of `path` to `new_name` under anchor `anchor_id` goes
/// from and to, or the refusal: both must stay under the anchor, and the
/// new name is taken relative to the anchor's root.
pub fn rename_targets(
    session: &Option<ResponderSession>,
    anchor_id: u128,
    path: &RelPath,
    new_name: &str,
) -> (r: Result<(String, String), (ErrorCode, String)>)
    ensures
        match target_of(*session, anchor_id, path@) {
            Err(e) => refusal_matches(r, e),
            Ok(from) => if safe_text(new_name@) {
                r matches Ok((f, t)) && f@ == from && t@ == path_join_text(
                    anchor_root_of(*session, anchor_id)->Ok_0,
                    new_name@,
                )
            } else {
                refusal_matches(r, traversal_refusal(new_name@))
            },
        },
{
    let root = match anchor_root(session, anchor_id) {
        Ok(root) => root,
        Err(e) => return Err(e),
    };
    match validate_rel_path(path) {
        Err(e) => return Err(e),
        Ok(()) => {},
    }
    let name = RelPath::new(new_name);
    match validate_rel_path(&name) {
        Err(_) => {
            let mut v: Vec<char> = Vec::new();
            push_str(&mut v, "path traversal rejected: ");
            push_str(&mut v, new_name);
            Err((ErrorCode::AccessDenied, string_from_chars(&v)))
        },
        Ok(()) => Ok((join_str(root.as_str(), path.display()), join_str(root.as_str(), new_name))),
    }
}

/// The first of `paths` that a fetch refuses, with its refusal: a path that
/// could escape the anchor is denied, a path that is not a file there is
/// not found (`is_file[i]` tells whether `paths[i]` is a file under the
/// anchor's root).
pub open spec fn fetch_refusal(paths: Seq<RelPath>, is_file: Seq<bool>) -> Option<(ErrorCode, Seq<char>)>
    decreases paths.len(),
{
    if paths.len() == 0 {
        None
    } else {
        match fetch_refusal(paths.drop_last(), is_file) {
            Some(e) => Some(e),
            None => {
                let p = paths.last();
                if !safe_text(p@) {
                    Some(traversal_refusal(p@))
                } else if !is_file[paths.len() - 1] {
                    Some((ErrorCode::NotFound, "file not found: "@ + p@))
                } else {
                    None
                }
            },
        }
    }
}

/// Check a request to fetch `paths`: the first refused path decides.
pub fn check_fetch(paths: &Vec<RelPath>, is_file: &Vec<bool>) -> (r: Result<(), (ErrorCode, String)>)
    requires
        is_file@.len() == paths@.len(),
    ensures
        match fetch_refusal(paths@, is_file@) {
            None => r is Ok,
            Some(e) => refusal_matches(r, e),
        },
{
    let mut i: usize = 0;
    while i < paths.len()
        invariant
            i <= paths@.len(),
            is_file@.len() == paths@.len(),
            fetch_refusal(paths@.take(i as int), is_file@) is None,
        decreases paths@.len() - i,
    {
        assert(paths@.take(i + 1).drop_last() =~= paths@.take(i as int));
        let p = &paths[i];
        let bad = match validate_rel_path(p) {
            Err(e) => Some(e),
            Ok(()) => {
                if !is_file[i] {
                    let mut v: Vec<char> = Vec::new();
                    push_str(&mut v, "file not found: ");
                    push_str(&mut v, p.display());
                    Some((ErrorCode::NotFound, string_from_chars(&v)))
                } else {
                    None
                }
            },
        };
        match bad {
            Some(e) => {
                proof {
                    lemma_fetch_refusal_prefix(paths@, is_file@, i as int + 1);
                }
                return Err(e);
            },
            None => {},
        }
        i = i + 1;
    }
    assert(paths@.take(i as int) =~= paths@);
    Ok(())
}

proof fn lemma_fetch_refusal_prefix(paths: Seq<RelPath>, is_file: Seq<bool>, n: int)
    requires
        0 <= n <= paths.len(),
        fetch_refusal(paths.take(n), is_file) is Some,
    ensures
        fetch_refusal(paths, is_file) == fetch_refusal(paths.take(n), is_file),
    decreases paths.len() - n,
{
    if n < paths.len() {
        assert(paths.take(n + 1).drop_last() =~= paths.take(n));
        lemma_fetch_refusal_prefix(paths, is_file, n + 1);
    } else {
        assert(paths.take(n) =~= paths);
    }
}

/// What a quick send does with one entry.
#[derive(Debug)]
pub enum QuickSendStep {
    /// The entry's path could escape the destination: it is skipped.
    Skip,
    /// Create this directory.
    MakeDir(String),
    /// Receive the file's data and write it here with this modification time.
    Receive { dest: String, mtime_secs: i64 },
}

/// What a quick send does with `e` under the destination `dest`.
pub open spec fn quick_send_step_matches(step: QuickSendStep, e: QuickSendEntry, dest: Seq<char>) -> bool {
    if !safe_text(e.rel_path@) {
        step is Skip
    } else if e.is_dir {
        step matches QuickSendStep::MakeDir(p) && p@ == path_join_text(dest, e.rel_path@)
    } else {
        step matches QuickSendStep::Receive { dest: p, mtime_secs } && p@ == path_join_text(dest, e.rel_path@)
            && mtime_secs == e.mtime_secs
    }
}

/// The steps of a quick send of `entries` into `destination_dir`, in order;
/// a destination that mentions `..` is refused.
pub fn quick_send_steps(destination_dir: &str, entries: &Vec<QuickSendEntry>) -> (r: Result<Vec<QuickSendStep>, Error>)
    ensures
        contains(destination_dir@, ".."@) ==> (r matches Err(Error::Session(m)) && m@
            == "path traversal in destination_dir"@),
        !contains(destination_dir@, ".."@) ==> (r matches Ok(steps) && steps@.len() == entries@.len()
            && forall|i: int|
            0 <= i < entries@.len() ==> quick_send_step_matches(
                #[trigger] steps@[i],
                entries@[i],
                destination_dir@,
            )),
{
    let d = chars_of(destination_dir);
    let dots = chars_of("..");
    if chars_contain(d.as_slice(), dots.as_slice()) {
        let mut v: Vec<char> = Vec::new();
        push_str(&mut v, "path traversal in destination_dir");
        return Err(Error::Session(string_from_chars(&v)));
    }
    let mut steps: Vec<QuickSendStep> = Vec::new();
    let mut i: usize = 0;
    while i < entries.len()
        invariant
            i <= entries@.len(),
            steps@.len() == i,
            forall|j: int|
                0 <= j < i ==> quick_send_step_matches(#[trigger] steps@[j], entries@[j], destination_dir@),
        decreases entries@.len() - i,
    {
        let e = &entries[i];
        let step = if !e.rel_path.is_safe() {
            QuickSendStep::Skip
        } else if e.is_dir {
            QuickSendStep::MakeDir(join_str(destination_dir, e.rel_path.display()))
        } else {
            QuickSendStep::Receive { dest: join_str(destination_dir, e.rel_path.display()), mtime_secs: e.mtime_secs }
        };
        steps.push(step);
        i = i + 1;
    }
    Ok(steps)
}

} // verus!
