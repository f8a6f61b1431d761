//! How the initiator of a session with a peer carries out a plan: which
//! actions it asks the peer to perform, which it performs on its own side,
//! and which files it pulls from the peer.
use vstd::prelude::*;

use crate::path::{path_join, path_join_text, RelPath};
use crate::reconcile::{Action, Side, SyncMode};
use crate::text::{chars_of, string_from_chars};

verus! {

/// A request the initiator makes of its peer.
#[derive(Debug)]
pub enum PeerRequest {
    /// Create a directory under the peer's anchor.
    Mkdir(RelPath),
    /// Receive a file from the initiator.
    PutFile(RelPath),
    /// Delete a file or directory under the peer's anchor.
    Delete(RelPath),
    /// Rename a file under the peer's anchor.
    Rename { path: RelPath, new_name: String },
}

/// How the initiator carries out one action of the plan.
#[derive(Debug)]
pub enum Route {
    /// Ask the peer.
    Peer(PeerRequest),
    /// Create this local directory.
    MkdirLocal(String),
    /// Delete this local file or directory.
    DeleteLocal(String),
    /// Rename this local file to that path.
    RenameLocal { from: String, to: String },
    /// Fetch this file from the peer, with the other fetches of the run.
    Pull(RelPath),
    /// Nothing to do; the action counts as carried out.
    Done,
    /// Not part of this kind of run.
    Ignored,
}

/// How a push run carries out an action: directory creations, copies and
/// deletions meant for the peer go to the peer; anything else needs no work.
pub open spec fn push_route_of(a: Action) -> Route {
    match a {
        Action::CreateDir { on: Side::Remote, path } => Route::Peer(PeerRequest::Mkdir(path)),
        Action::CopyFile { from: Side::Local, path } => Route::Peer(PeerRequest::PutFile(path)),
        Action::Delete { on: Side::Remote, path } => Route::Peer(PeerRequest::Delete(path)),
        _ => Route::Done,
    }
}

/// A local path under the anchor's root, as `Path::join` makes it.
pub open spec fn local_path_text(root: Seq<char>, rel: Seq<char>) -> Seq<char> {
    path_join_text(root, rel)
}

/// How a pull run carries out an action: local directory creations and
/// deletions are done locally, copies from the peer are fetched, and the
/// rest is not part of a pull.
pub open spec fn pull_route_matches(r: Route, a: Action, root: Seq<char>) -> bool {
    match a {
        Action::CreateDir { on: Side::Local, path } => r matches Route::MkdirLocal(p) && p@ == local_path_text(
            root,
            path@,
        ),
        Action::Delete { on: Side::Local, path } => r matches Route::DeleteLocal(p) && p@ == local_path_text(
            root,
            path@,
        ),
        Action::CopyFile { from: Side::Remote, path } => r == Route::Pull(path),
        _ => r == Route::Ignored,
    }
}

/// How a bidirectional run carries out an action: actions on the peer's
/// side (and copies to it) go to the peer; local directory creations,
/// deletions and renames are done locally, a rename moving the file to the
/// new name directly under the root; copies from the peer are fetched.
pub open spec fn bidi_route_matches(r: Route, a: Action, root: Seq<char>) -> bool {
    match a {
        Action::CreateDir { on: Side::Remote, path } => r == Route::Peer(PeerRequest::Mkdir(path)),
        Action::CopyFile { from: Side::Local, path } => r == Route::Peer(PeerRequest::PutFile(path)),
        Action::Delete { on: Side::Remote, path } => r == Route::Peer(PeerRequest::Delete(path)),
        Action::RenameConflict { on: Side::Remote, path, new_name } => r == Route::Peer(
            PeerRequest::Rename { path, new_name },
        ),
        Action::CreateDir { on: Side::Local, path } => r matches Route::MkdirLocal(p) && p@ == local_path_text(
            root,
            path@,
        ),
        Action::Delete { on: Side::Local, path } => r matches Route::DeleteLocal(p) && p@ == local_path_text(
            root,
            path@,
        ),
        Action::RenameConflict { on: Side::Local, path, new_name } => r matches Route::RenameLocal {
            from,
            to,
        } && from@ == local_path_text(root, path@) && to@ == local_path_text(root, new_name@),
        Action::CopyFile { from: Side::Remote, path } => r == Route::Pull(path),
    }
}

fn local_path(root: &str, rel: &str) -> (r: String)
    ensures
        r@ == local_path_text(root@, rel@),
{
    string_from_chars(&path_join(&chars_of(root), &chars_of(rel)))
}

/// How a push run carries out `action`.
pub fn push_route(action: &Action) -> (r: Route)
    ensures
        r == push_route_of(*action),
{
    match action {
        Action::CreateDir { on: Side::Remote, path } => Route::Peer(PeerRequest::Mkdir(path.clone())),
        Action::CopyFile { from: Side::Local, path } => Route::Peer(PeerRequest::PutFile(path.clone())),
        Action::Delete { on: Side::Remote, path } => Route::Peer(PeerRequest::Delete(path.clone())),
        _ => Route::Done,
    }
}

/// How a pull run into `local_root` carries out `action`.
pub fn pull_route(action: &Action, local_root: &str) -> (r: Route)
    ensures
        pull_route_matches(r, *action, local_root@),
{
    match action {
        Action::CreateDir { on: Side::Local, path } => Route::MkdirLocal(local_path(local_root, path.display())),
        Action::Delete { on: Side::Local, path } => Route::DeleteLocal(local_path(local_root, path.display())),
        Action::CopyFile { from: Side::Remote, path } => Route::Pull(path.clone()),
        _ => Route::Ignored,
    }
}

/// How a bidirectional run with local root `local_root` carries out `action`.
pub fn bidi_route(action: &Action, local_root: &str) -> (r: Route)
    ensures
        bidi_route_matches(r, *action, local_root@),
{
    match action {
        Action::CreateDir { on: Side::Remote, path } => Route::Peer(PeerRequest::Mkdir(path.clone())),
        Action::CopyFile { from: Side::Local, path } => Route::Peer(PeerRequest::PutFile(path.clone())),
        Action::Delete { on: Side::Remote, path } => Route::Peer(PeerRequest::Delete(path.clone())),
        Action::RenameConflict { on: Side::Remote, path, new_name } => Route::Peer(
            PeerRequest::Rename { path: path.clone(), new_name: new_name.clone() },
        ),
        Action::CreateDir { on: Side::Local, path } => Route::MkdirLocal(local_path(local_root, path.display())),
        Action::Delete { on: Side::Local, path } => Route::DeleteLocal(local_path(local_root, path.display())),
        Action::RenameConflict { on: Side::Local, path, new_name } => Route::RenameLocal {
            from: local_path(local_root, path.display()),
            to: local_path(local_root, new_name.as_str()),
        },
        Action::CopyFile { from: Side::Remote, path } => Route::Pull(path.clone()),
    }
}

/// The paths of the copies from the peer, in plan order.
pub open spec fn pulled_paths(actions: Seq<Action>) -> Seq<RelPath>
    decreases actions.len(),
{
    if actions.len() == 0 {
        Seq::empty()
    } else {
        let rest = pulled_paths(actions.drop_last());
        match actions.last() {
            Action::CopyFile { from: Side::Remote, path } => rest.push(path),
            _ => rest,
        }
    }
}

/// The paths to fetch from the peer, in plan order.
pub fn paths_to_pull(actions: &Vec<Action>) -> (r: Vec<RelPath>)
    ensures
        r@ == pulled_paths(actions@),
{
    let mut r: Vec<RelPath> = Vec::new();
    let mut i: usize = 0;
    while i < actions.len()
        invariant
            i <= actions@.len(),
            r@ == pulled_paths(actions@.take(i as int)),
        decreases actions@.len() - i,
    {
        assert(actions@.take(i + 1).drop_last() =~= actions@.take(i as int));
        match &actions[i] {
            Action::CopyFile { from: Side::Remote, path } => r.push(path.clone()),
            _ => {},
        }
        i = i + 1;
    }
    assert(actions@.take(i as int) =~= actions@);
    r
}

/// `a` is a copy from the peer of a path with the normalized form `k`.
pub open spec fn pulls_key(a: Action, k: Seq<char>) -> bool {
    a matches Action::CopyFile { from: Side::Remote, path } && path.key() == k
}

/// The first copy from the peer of `path` (compared by normalized form):
/// the action a fetched file carries out.
pub fn find_pull_action(actions: &Vec<Action>, path: &RelPath) -> (r: Option<usize>)
    ensures
        match r {
            Some(i) => i < actions@.len() && pulls_key(actions@[i as int], path.key()) && forall|j: int|
                0 <= j < i ==> !pulls_key(#[trigger] actions@[j], path.key()),
            None => forall|j: int| 0 <= j < actions@.len() ==> !pulls_key(#[trigger] actions@[j], path.key()),
        },
{
    let mut i: usize = 0;
    while i < actions.len()
        invariant
            i <= actions@.len(),
            forall|j: int| 0 <= j < i ==> !pulls_key(#[trigger] actions@[j], path.key()),
        decreases actions@.len() - i,
    {
        match &actions[i] {
            Action::CopyFile { from: Side::Remote, path: p } => {
                if p.same_key(path) {
                    return Some(i);
                }
            },
            _ => {},
        }
        i = i + 1;
    }
    None
}

/// The positions, in order, of the routes of `rs` that delete a local path
/// (when `deletes`) or create a local directory (otherwise).
pub open spec fn local_positions(rs: Seq<Route>, deletes: bool) -> Seq<int>
    decreases rs.len(),
{
    if rs.len() == 0 {
        Seq::empty()
    } else {
        let prev = local_positions(rs.drop_last(), deletes);
        if (deletes && rs.last() is DeleteLocal) || (!deletes && rs.last() is MkdirLocal) {
            prev.push(rs.len() - 1)
        } else {
            prev
        }
    }
}

/// The order in which a run carries out its routes before any fetch: a
/// pull run creates its local directories, then makes its local deletions;
/// other runs go through the routes as planned.
pub open spec fn run_order_spec(mode: SyncMode, rs: Seq<Route>) -> Seq<int> {
    if mode == SyncMode::Pull {
        local_positions(rs, false) + local_positions(rs, true)
    } else {
        Seq::new(rs.len(), |i: int| i)
    }
}

/// Positions as integers.
pub open spec fn positions_view(v: Seq<usize>) -> Seq<int> {
    v.map_values(|i: usize| i as int)
}

proof fn lemma_positions_push(v: Seq<usize>, i: usize)
    ensures
        positions_view(v.push(i)) == positions_view(v).push(i as int),
{
    assert(positions_view(v.push(i)) =~= positions_view(v).push(i as int));
}

fn push_local_positions(order: &mut Vec<usize>, routes: &Vec<Route>, deletes: bool)
    ensures
        positions_view(final(order)@) == positions_view(old(order)@) + local_positions(routes@, deletes),
{
    let ghost start = positions_view(order@);
    let mut i: usize = 0;
    assert(routes@.take(0) =~= Seq::<Route>::empty());
    assert(start + local_positions(routes@.take(0), deletes) =~= start);
    while i < routes.len()
        invariant
            i <= routes@.len(),
            positions_view(order@) == start + local_positions(routes@.take(i as int), deletes),
        decreases routes@.len() - i,
    {
        let hit = match &routes[i] {
            Route::DeleteLocal(_) => deletes,
            Route::MkdirLocal(_) => !deletes,
            _ => false,
        };
        assert(routes@.take(i + 1).drop_last() =~= routes@.take(i as int));
        assert(routes@.take(i + 1).last() == routes@[i as int]);
        if hit {
            let ghost before = order@;
            order.push(i);
            proof {
                lemma_positions_push(before, i);
                assert((start + local_positions(routes@.take(i as int), deletes)).push(i as int) =~= start
                    + local_positions(routes@.take(i as int), deletes).push(i as int));
            }
        }
        i = i + 1;
    }
    assert(routes@.take(i as int) =~= routes@);
}

/// The positions of the routes a run of mode `mode` carries out before
/// fetching, in the order it carries them out.
pub fn run_order(mode: SyncMode, routes: &Vec<Route>) -> (r: Vec<usize>)
    ensures
        positions_view(r@) == run_order_spec(mode, routes@),
{
    let mut order: Vec<usize> = Vec::new();
    assert(positions_view(order@) =~= Seq::<int>::empty());
    if mode == SyncMode::Pull {
        push_local_positions(&mut order, routes, false);
        push_local_positions(&mut order, routes, true);
        assert(Seq::<int>::empty() + local_positions(routes@, false) =~= local_positions(routes@, false));
    } else {
        let mut i: usize = 0;
        while i < routes.len()
            invariant
                i <= routes@.len(),
                positions_view(order@) == Seq::new(i as nat, |j: int| j),
            decreases routes@.len() - i,
        {
            let ghost before = order@;
            order.push(i);
            proof {
                lemma_positions_push(before, i);
                assert(Seq::new(i as nat, |j: int| j).push(i as int) =~= Seq::new((i + 1) as nat, |j: int| j));
            }
            i = i + 1;
        }
    }
    order
}


/// One step of a run: the position of the action it carries out (none for
/// a fetched file that no action names), and what it transferred or why it
/// failed.
pub type RunStep = (Option<usize>, Result<u64, String>);

/// What a run has done so far: the positions of the actions carried out, in
/// the order they were carried out; the errors, in order; and the files and
/// bytes transferred.
pub struct RunTally {
    pub executed: Vec<usize>,
    pub errors: Vec<String>,
    pub files_transferred: u64,
    pub bytes_transferred: u64,
}

/// The position a step carried out: its own, when it succeeded.
pub open spec fn step_position(step: RunStep) -> Seq<usize> {
    match step {
        (Some(i), Ok(_)) => seq![i],
        _ => Seq::empty(),
    }
}

/// The message of a step, when it failed.
pub open spec fn step_error(step: RunStep) -> Seq<Seq<char>> {
    match step.1 {
        Ok(_) => Seq::empty(),
        Err(e) => seq![e@],
    }
}

/// The bytes a step moved.
pub open spec fn step_bytes(step: RunStep) -> int {
    match step.1 {
        Ok(b) => b as int,
        Err(_) => 0,
    }
}

/// The positions carried out by the successful steps of `steps`, in order.
pub open spec fn executed_positions(steps: Seq<RunStep>) -> Seq<usize>
    decreases steps.len(),
{
    if steps.len() == 0 {
        Seq::empty()
    } else {
        executed_positions(steps.drop_last()) + step_position(steps.last())
    }
}

/// The messages of the failed steps of `steps`, in order.
pub open spec fn step_errors(steps: Seq<RunStep>) -> Seq<Seq<char>>
    decreases steps.len(),
{
    if steps.len() == 0 {
        Seq::empty()
    } else {
        step_errors(steps.drop_last()) + step_error(steps.last())
    }
}

/// The number of successful steps of `steps`.
pub open spec fn successes(steps: Seq<RunStep>) -> nat
    decreases steps.len(),
{
    if steps.len() == 0 {
        0
    } else {
        successes(steps.drop_last()) + if steps.last().1 is Ok {
            1nat
        } else {
            0nat
        }
    }
}

/// The bytes moved by the successful steps of `steps`.
pub open spec fn bytes_moved(steps: Seq<RunStep>) -> int
    decreases steps.len(),
{
    if steps.len() == 0 {
        0
    } else {
        bytes_moved(steps.drop_last()) + step_bytes(steps.last())
    }
}

impl RunTally {
    /// A run that has done nothing yet.
    pub fn new() -> (r: Self)
        ensures
            r.executed@ == Seq::<usize>::empty(),
            r.errors@ == Seq::<String>::empty(),
            r.files_transferred == 0,
            r.bytes_transferred == 0,
    {
        RunTally { executed: Vec::new(), errors: Vec::new(), files_transferred: 0, bytes_transferred: 0 }
    }

    /// Record one step of the run. A success marks its action carried out
    /// and adds what it transferred (a file when it moved any byte; every
    /// fetched file counts, `fetched`); a failure keeps its message. Either
    /// way the run goes on with its next step.
    pub fn record_step(&mut self, step: RunStep, fetched: bool)
        requires
            step.1 matches Ok(b) ==> old(self).bytes_transferred + b <= u64::MAX && old(self).files_transferred
                < u64::MAX,
        ensures
            final(self).executed@ == old(self).executed@ + step_position(step),
            errors_text(final(self).errors@) == errors_text(old(self).errors@) + step_error(step),
            final(self).bytes_transferred == old(self).bytes_transferred + step_bytes(step),
            final(self).files_transferred == old(self).files_transferred + match step.1 {
                Ok(b) => if b > 0 || fetched {
                    1int
                } else {
                    0int
                },
                Err(_) => 0int,
            },
    {
        let (pos, outcome) = step;
        let ghost st = (pos, outcome);
        match outcome {
            Ok(b) => {
                if let Some(i) = pos {
                    self.executed.push(i);
                }
                self.bytes_transferred = self.bytes_transferred + b;
                if b > 0 || fetched {
                    self.files_transferred = self.files_transferred + 1;
                }
                assert(errors_text(self.errors@) =~= errors_text(old(self).errors@) + step_error(st));
                assert(self.executed@ =~= old(self).executed@ + step_position(st));
            },
            Err(e) => {
                let ghost before = self.errors@;
                self.errors.push(e);
                assert(errors_text(self.errors@) =~= errors_text(before) + step_error(st));
                assert(self.executed@ =~= old(self).executed@ + step_position(st));
            },
        }
    }
}

/// The texts of error messages.
pub open spec fn errors_text(v: Seq<String>) -> Seq<Seq<char>> {
    v.map_values(|e: String| e@)
}

/// A failed step does not end a run: after any steps, the positions carried
/// out are those of the successful steps and the errors those of the failed
/// ones, both in order, and every step is counted once, as a success or as
/// an error.
pub proof fn law_every_step_is_recorded(steps: Seq<RunStep>)
    ensures
        successes(steps) + step_errors(steps).len() == steps.len(),
        executed_positions(steps).len() <= successes(steps),
        (forall|j: int| 0 <= j < steps.len() ==> (#[trigger] steps[j]).0 is Some) ==> executed_positions(steps).len()
            == successes(steps),
    decreases steps.len(),
{
    if steps.len() > 0 {
        law_every_step_is_recorded(steps.drop_last());
        if forall|j: int| 0 <= j < steps.len() ==> (#[trigger] steps[j]).0 is Some {
            assert forall|j: int| 0 <= j < steps.drop_last().len() implies (#[trigger] steps.drop_last()[j]).0 is Some by {
                assert(steps.drop_last()[j] == steps[j]);
            }
            assert(steps[steps.len() - 1].0 is Some);
        }
    }
}


/// In a push run every deletion on the peer's side is sent to the peer as a
/// request to delete that very path, and every other action that changes
/// the peer's side (a directory, a copy from here) is sent to the peer too.
pub proof fn law_push_sends_remote_changes_to_the_peer(a: Action)
    ensures
        a matches Action::Delete { on: Side::Remote, path } ==> push_route_of(a) == Route::Peer(
            PeerRequest::Delete(path),
        ),
        a matches Action::CreateDir { on: Side::Remote, path } ==> push_route_of(a) == Route::Peer(
            PeerRequest::Mkdir(path),
        ),
        a matches Action::CopyFile { from: Side::Local, path } ==> push_route_of(a) == Route::Peer(
            PeerRequest::PutFile(path),
        ),
        push_route_of(a) is Peer <==> (a matches Action::Delete { on: Side::Remote, .. } || a matches Action::CreateDir {
            on: Side::Remote,
            ..
        } || a matches Action::CopyFile { from: Side::Local, .. }),
{
}

/// In a two-way run every deletion on the peer's side is sent to the peer
/// as a request to delete that very path; so is every other action on the
/// peer's side (a directory, a copy from here, a conflict rename there),
/// and nothing that acts on this side is sent to the peer.
pub proof fn law_bidi_sends_remote_changes_to_the_peer(r: Route, a: Action, root: Seq<char>)
    requires
        bidi_route_matches(r, a, root),
    ensures
        a matches Action::Delete { on: Side::Remote, path } ==> r == Route::Peer(PeerRequest::Delete(path)),
        a matches Action::CreateDir { on: Side::Remote, path } ==> r == Route::Peer(PeerRequest::Mkdir(path)),
        a matches Action::CopyFile { from: Side::Local, path } ==> r == Route::Peer(PeerRequest::PutFile(path)),
        r is Peer <==> (a matches Action::Delete { on: Side::Remote, .. } || a matches Action::CreateDir {
            on: Side::Remote,
            ..
        } || a matches Action::CopyFile { from: Side::Local, .. } || a matches Action::RenameConflict {
            on: Side::Remote,
            ..
        }),
{
}

} // verus!
