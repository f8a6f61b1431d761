//! Reconciliation: from the changes on both sides to a plan of actions.
//!
//! This is the core decision logic of the sync engine. It examines what
//! changed on each side and produces actions respecting the sync mode and
//! the conflict policy.
use vstd::prelude::*;

use crate::diff::{Change, DiffResult, SyncIndex};
use crate::clock::{is_date_text, today_utc};
use crate::path::{file_name_text, lemma_parent_shorter, normalize_text, parent_text, RelPath};
use crate::pathmap::{insert_entry, lookup, PathMap};
use crate::scan::FileEntry;
use crate::text::{chars_of, push_str, string_from_chars};

verus! {

/// Which side of the sync pair.
#[derive(Debug, Clone, Copy, PartialEq, Eq, Structural)]
pub enum Side {
    Local,
    Remote,
}

/// Sync mode for a profile.
#[derive(Debug, Clone, Copy, PartialEq, Eq, Structural)]
pub enum SyncMode {
    Push,
    Pull,
    Bidirectional,
}

/// Conflict resolution policy.
#[derive(Debug, Clone, Copy, PartialEq, Eq, Structural)]
pub enum ConflictPolicy {
    NewerWins,
    KeepBoth,
}

/// What kind of conflict occurred.
#[derive(Debug, Clone, Copy, PartialEq, Eq, Structural)]
pub enum ConflictKind {
    BothModified,
    DeleteVsEdit,
}

/// How a conflict was resolved.
#[derive(Debug, Clone, Copy, PartialEq, Eq, Structural)]
pub enum ConflictResolution {
    NewerWins,
    KeepBoth,
}

/// A detected conflict and its resolution.
#[derive(Debug)]
pub struct Conflict {
    pub path: RelPath,
    pub kind: ConflictKind,
    pub resolution: ConflictResolution,
    pub winner: Side,
}

/// A conflict with its path as text.
pub struct ConflictView {
    pub path: Seq<char>,
    pub kind: ConflictKind,
    pub resolution: ConflictResolution,
    pub winner: Side,
}

impl View for Conflict {
    type V = ConflictView;

    open spec fn view(&self) -> ConflictView {
        ConflictView {
            path: self.path@,
            kind: self.kind,
            resolution: self.resolution,
            winner: self.winner,
        }
    }
}

impl Clone for Conflict {
    fn clone(&self) -> (r: Self)
        ensures
            r == *self,
    {
        Conflict {
            path: self.path.clone(),
            kind: self.kind,
            resolution: self.resolution,
            winner: self.winner,
        }
    }
}

/// An action to be executed during the apply phase.
#[derive(Debug)]
pub enum Action {
    CopyFile { from: Side, path: RelPath },
    CreateDir { on: Side, path: RelPath },
    Delete { on: Side, path: RelPath },
    RenameConflict { on: Side, path: RelPath, new_name: String },
}

/// An action with its paths as text.
pub enum ActionView {
    CopyFile { from: Side, path: Seq<char> },
    CreateDir { on: Side, path: Seq<char> },
    Delete { on: Side, path: Seq<char> },
    RenameConflict { on: Side, path: Seq<char>, new_name: Seq<char> },
}

impl View for Action {
    type V = ActionView;

    open spec fn view(&self) -> ActionView {
        match self {
            Action::CopyFile { from, path } => ActionView::CopyFile { from: *from, path: path@ },
            Action::CreateDir { on, path } => ActionView::CreateDir { on: *on, path: path@ },
            Action::Delete { on, path } => ActionView::Delete { on: *on, path: path@ },
            Action::RenameConflict { on, path, new_name } => ActionView::RenameConflict {
                on: *on,
                path: path@,
                new_name: new_name@,
            },
        }
    }
}

impl Clone for Action {
    fn clone(&self) -> (r: Self)
        ensures
            r == *self,
    {
        match self {
            Action::CopyFile { from, path } => Action::CopyFile { from: *from, path: path.clone() },
            Action::CreateDir { on, path } => Action::CreateDir { on: *on, path: path.clone() },
            Action::Delete { on, path } => Action::Delete { on: *on, path: path.clone() },
            Action::RenameConflict { on, path, new_name } => Action::RenameConflict {
                on: *on,
                path: path.clone(),
                new_name: new_name.clone(),
            },
        }
    }
}

impl ActionView {
    /// The path an action is about.
    pub open spec fn path(self) -> Seq<char> {
        match self {
            ActionView::CopyFile { path, .. } => path,
            ActionView::CreateDir { path, .. } => path,
            ActionView::Delete { path, .. } => path,
            ActionView::RenameConflict { path, .. } => path,
        }
    }
}

/// The result of reconciliation: actions to execute and conflicts encountered.
#[derive(Debug)]
pub struct SyncPlan {
    pub actions: Vec<Action>,
    pub conflicts: Vec<Conflict>,
}

pub open spec fn actions_view(v: Seq<Action>) -> Seq<ActionView> {
    v.map_values(|a: Action| a@)
}

pub open spec fn conflicts_view(v: Seq<Conflict>) -> Seq<ConflictView> {
    v.map_values(|c: Conflict| c@)
}

/// Context needed for conflict resolution (file metadata from both sides).
pub struct ReconcileContext<'a> {
    pub local_entries: &'a PathMap<FileEntry>,
    pub remote_entries: &'a PathMap<FileEntry>,
    pub delete_propagation: bool,
    pub peer_name: String,
    /// Responder clock minus initiator clock in seconds (positive = responder is ahead).
    /// Used to adjust remote mtimes into initiator's clock domain before comparing.
    pub clock_offset_secs: i64,
}

/// Modification times within this many seconds of each other are a tie.
pub const CLOCK_SKEW_TOLERANCE_SECS: i64 = 5;

/// What reconciliation knows besides the changes.
pub struct Env {
    pub local: Seq<(RelPath, FileEntry)>,
    pub remote: Seq<(RelPath, FileEntry)>,
    pub delete_propagation: bool,
    pub peer_name: Seq<char>,
    pub clock_offset: int,
    pub date: Seq<char>,
}

pub open spec fn env_of(ctx: ReconcileContext, date: Seq<char>) -> Env {
    Env {
        local: ctx.local_entries@,
        remote: ctx.remote_entries@,
        delete_propagation: ctx.delete_propagation,
        peer_name: ctx.peer_name@,
        clock_offset: ctx.clock_offset_secs as int,
        date,
    }
}

pub open spec fn other_side(s: Side) -> Side {
    match s {
        Side::Local => Side::Remote,
        Side::Remote => Side::Local,
    }
}

/// Two actions are equal as `Action`'s `==` compares them: same kind, same
/// sides, paths with the same normalized form, same new name.
pub open spec fn same_action(a: ActionView, b: ActionView) -> bool {
    match (a, b) {
        (ActionView::CopyFile { from: f1, path: p1 }, ActionView::CopyFile { from: f2, path: p2 }) => f1
            == f2 && normalize_text(p1) == normalize_text(p2),
        (ActionView::CreateDir { on: s1, path: p1 }, ActionView::CreateDir { on: s2, path: p2 }) => s1
            == s2 && normalize_text(p1) == normalize_text(p2),
        (ActionView::Delete { on: s1, path: p1 }, ActionView::Delete { on: s2, path: p2 }) => s1 == s2
            && normalize_text(p1) == normalize_text(p2),
        (
            ActionView::RenameConflict { on: s1, path: p1, new_name: n1 },
            ActionView::RenameConflict { on: s2, path: p2, new_name: n2 },
        ) => s1 == s2 && normalize_text(p1) == normalize_text(p2) && n1 == n2,
        _ => false,
    }
}

/// `acts` with a directory creation for `p` on `on`, unless an equal action is there.
pub open spec fn add_dir(acts: Seq<ActionView>, on: Side, p: Seq<char>) -> Seq<ActionView> {
    let a = ActionView::CreateDir { on, path: p };
    if exists|i: int| 0 <= i < acts.len() && same_action(#[trigger] acts[i], a) {
        acts
    } else {
        acts.push(a)
    }
}

/// The parent of `d`, its parent, and so on up to the top.
pub open spec fn lineage(d: Seq<char>) -> Seq<Seq<char>>
    decreases d.len(),
{
    match parent_text(d) {
        None => Seq::empty(),
        Some(p) => {
            proof {
                lemma_parent_shorter(d);
            }
            seq![p] + lineage(p)
        },
    }
}

/// `acts` with directory creations for each of `ps`, in order.
pub open spec fn add_dirs(acts: Seq<ActionView>, on: Side, ps: Seq<Seq<char>>) -> Seq<ActionView>
    decreases ps.len(),
{
    if ps.len() == 0 {
        acts
    } else {
        add_dir(add_dirs(acts, on, ps.drop_last()), on, ps.last())
    }
}

/// `acts` with creations for the ancestors of `d` on `on`, from the top down.
pub open spec fn with_parents(acts: Seq<ActionView>, on: Side, d: Seq<char>) -> Seq<ActionView> {
    add_dirs(acts, on, lineage(d).reverse())
}

/// A change on `from` carried over to `to`: an edit is copied (after its
/// parent directories); a deletion is repeated only with delete propagation.
pub open spec fn propagate(
    acts: Seq<ActionView>,
    c: Change,
    from: Side,
    to: Side,
    delete_propagation: bool,
) -> Seq<ActionView> {
    match c {
        Change::Deleted(p) => if delete_propagation {
            acts.push(ActionView::Delete { on: to, path: p@ })
        } else {
            acts
        },
        _ => with_parents(acts, to, c.spec_path()@).push(
            ActionView::CopyFile { from, path: c.spec_path()@ },
        ),
    }
}

/// Every change of the source side carried to the destination, in order.
pub open spec fn unidirectional(
    changes: Seq<Change>,
    from: Side,
    to: Side,
    delete_propagation: bool,
) -> Seq<ActionView>
    decreases changes.len(),
{
    if changes.len() == 0 {
        Seq::empty()
    } else {
        propagate(
            unidirectional(changes.drop_last(), from, to, delete_propagation),
            changes.last(),
            from,
            to,
            delete_propagation,
        )
    }
}

/// Both sides hold the same content at `key`: equal hashes where both are
/// known, equal sizes otherwise; false unless both sides have the file.
pub open spec fn same_content(key: Seq<char>, env: Env) -> bool {
    match (lookup(env.local, key), lookup(env.remote, key)) {
        (Some(l), Some(r)) => match (l.hash, r.hash) {
            (Some(lh), Some(rh)) => lh@ == rh@,
            _ => l.size == r.size,
        },
        _ => false,
    }
}

/// The side with the newer copy at `key`. Remote times are moved into the
/// local clock by the offset; times within the tolerance are a tie, which
/// goes to the local side, as does a file missing on the remote side.
pub open spec fn newer_side(key: Seq<char>, env: Env) -> Side {
    match (lookup(env.local, key), lookup(env.remote, key)) {
        (Some(l), Some(r)) => {
            let adjusted = r.mtime_secs - env.clock_offset;
            let d = l.mtime_secs - adjusted;
            if -(CLOCK_SKEW_TOLERANCE_SECS as int) <= d <= CLOCK_SKEW_TOLERANCE_SECS as int {
                Side::Local
            } else if l.mtime_secs >= adjusted {
                Side::Local
            } else {
                Side::Remote
            }
        },
        (None, Some(_)) => Side::Remote,
        _ => Side::Local,
    }
}

/// With copies on both sides, the remote copy is the newer exactly when its
/// time, moved into the local clock, is more than the tolerance after the
/// local one; a copy on the remote side only is the newer; otherwise the
/// local copy is.
pub proof fn law_newer_side_beyond_tolerance(key: Seq<char>, env: Env)
    ensures
        (lookup(env.local, key), lookup(env.remote, key)) matches (Some(l), Some(r)) ==> newer_side(key, env) == if r.mtime_secs
            - env.clock_offset - l.mtime_secs > CLOCK_SKEW_TOLERANCE_SECS as int {
            Side::Remote
        } else {
            Side::Local
        },
        lookup(env.local, key) is None && lookup(env.remote, key) is Some ==> newer_side(key, env) == Side::Remote,
        lookup(env.remote, key) is None ==> newer_side(key, env) == Side::Local,
{
}

/// The name a conflicting local copy is renamed to: its file name (`file`
/// where the path has none) followed by `.conflict-` and the date.
pub open spec fn conflict_name(path: Seq<char>, date: Seq<char>) -> Seq<char> {
    let name = match file_name_text(path) {
        Some(s) => s,
        None => "file"@,
    };
    name + ".conflict-"@ + date
}

/// Actions and conflicts produced so far.
pub type Progress = (Seq<ActionView>, Seq<ConflictView>);

/// A content conflict at `path`: under newer-wins the newer copy overwrites
/// the other; under keep-both the local copy is renamed aside, then each
/// side's version is copied to the other.
pub open spec fn content_conflict(st: Progress, path: Seq<char>, key: Seq<char>, policy: ConflictPolicy, env: Env) -> Progress {
    match policy {
        ConflictPolicy::NewerWins => {
            let winner = newer_side(key, env);
            let loser = other_side(winner);
            (
                with_parents(st.0, loser, path).push(ActionView::CopyFile { from: winner, path }),
                st.1.push(
                    ConflictView {
                        path,
                        kind: ConflictKind::BothModified,
                        resolution: ConflictResolution::NewerWins,
                        winner,
                    },
                ),
            )
        },
        ConflictPolicy::KeepBoth => {
            let renamed = st.0.push(
                ActionView::RenameConflict {
                    on: Side::Local,
                    path,
                    new_name: conflict_name(path, env.date),
                },
            );
            let to_local = with_parents(renamed, Side::Local, path).push(
                ActionView::CopyFile { from: Side::Remote, path },
            );
            let to_remote = with_parents(to_local, Side::Remote, path).push(
                ActionView::CopyFile { from: Side::Local, path },
            );
            (
                to_remote,
                st.1.push(
                    ConflictView {
                        path,
                        kind: ConflictKind::BothModified,
                        resolution: ConflictResolution::KeepBoth,
                        winner: Side::Local,
                    },
                ),
            )
        },
    }
}

/// Deleted on one side, edited on the other: the edited copy is kept and
/// copied back, whatever the policy.
pub open spec fn delete_vs_edit(st: Progress, path: Seq<char>, edited: Side) -> Progress {
    (
        with_parents(st.0, other_side(edited), path).push(ActionView::CopyFile { from: edited, path }),
        st.1.push(
            ConflictView {
                path,
                kind: ConflictKind::DeleteVsEdit,
                resolution: ConflictResolution::NewerWins,
                winner: edited,
            },
        ),
    )
}

/// Both sides changed `path`.
pub open spec fn both_changed(
    st: Progress,
    path: RelPath,
    l: Change,
    r: Change,
    policy: ConflictPolicy,
    env: Env,
) -> Progress {
    if l.is_edit() && r.is_edit() {
        if same_content(path.key(), env) {
            st
        } else {
            content_conflict(st, path@, path.key(), policy, env)
        }
    } else if !l.is_edit() && !r.is_edit() {
        st
    } else if !l.is_edit() {
        delete_vs_edit(st, path@, Side::Remote)
    } else {
        delete_vs_edit(st, path@, Side::Local)
    }
}

/// One changed path in bidirectional mode.
pub open spec fn bidi_step(
    st: Progress,
    path: RelPath,
    lc: Option<Change>,
    rc: Option<Change>,
    policy: ConflictPolicy,
    env: Env,
) -> Progress {
    match (lc, rc) {
        (Some(c), None) => (propagate(st.0, c, Side::Local, Side::Remote, env.delete_propagation), st.1),
        (None, Some(c)) => (propagate(st.0, c, Side::Remote, Side::Local, env.delete_propagation), st.1),
        (Some(l), Some(r)) => both_changed(st, path, l, r, policy, env),
        (None, None) => st,
    }
}

/// The changes of one side by path: the first change of a path supplies
/// the key, the last one the value.
pub open spec fn change_map(changes: Seq<Change>) -> Seq<(RelPath, Change)>
    decreases changes.len(),
{
    if changes.len() == 0 {
        Seq::empty()
    } else {
        let c = changes.last();
        insert_entry(change_map(changes.drop_last()), c.spec_path(), c)
    }
}

/// `base` with the keys of `m` added in order (existing keys stay).
pub open spec fn key_union<V>(base: Seq<(RelPath, ())>, m: Seq<(RelPath, V)>) -> Seq<(RelPath, ())>
    decreases m.len(),
{
    if m.len() == 0 {
        base
    } else {
        insert_entry(key_union(base, m.drop_last()), m.last().0, ())
    }
}

/// Bidirectional reconciliation over the changed paths, in path order.
pub open spec fn bidi_fold(
    keys: Seq<(RelPath, ())>,
    lm: Seq<(RelPath, Change)>,
    rm: Seq<(RelPath, Change)>,
    policy: ConflictPolicy,
    env: Env,
) -> Progress
    decreases keys.len(),
{
    if keys.len() == 0 {
        (Seq::empty(), Seq::empty())
    } else {
        let k = keys.last().0;
        bidi_step(
            bidi_fold(keys.drop_last(), lm, rm, policy, env),
            k,
            lookup(lm, k.key()),
            lookup(rm, k.key()),
            policy,
            env,
        )
    }
}

/// Bidirectional reconciliation of the local and remote changes.
pub open spec fn bidirectional(local: Seq<Change>, remote: Seq<Change>, policy: ConflictPolicy, env: Env) -> Progress {
    let lm = change_map(local);
    let rm = change_map(remote);
    bidi_fold(key_union(key_union(Seq::empty(), lm), rm), lm, rm, policy, env)
}

/// The plan reconciliation produces.
pub open spec fn plan_spec(
    local: Seq<Change>,
    remote: Seq<Change>,
    mode: SyncMode,
    policy: ConflictPolicy,
    env: Env,
) -> Progress {
    match mode {
        SyncMode::Push => (
            unidirectional(local, Side::Local, Side::Remote, env.delete_propagation),
            Seq::empty(),
        ),
        SyncMode::Pull => (
            unidirectional(remote, Side::Remote, Side::Local, env.delete_propagation),
            Seq::empty(),
        ),
        SyncMode::Bidirectional => bidirectional(local, remote, policy, env),
    }
}

pub open spec fn plan_view(plan: SyncPlan) -> Progress {
    (actions_view(plan.actions@), conflicts_view(plan.conflicts@))
}

pub open spec fn paths_view(v: Seq<RelPath>) -> Seq<Seq<char>> {
    v.map_values(|p: RelPath| p@)
}

/// The lineage of an optional path: the path itself, then its lineage.
pub open spec fn lineage_from(c: Option<RelPath>) -> Seq<Seq<char>> {
    match c {
        None => Seq::empty(),
        Some(p) => seq![p@] + lineage(p@),
    }
}

proof fn lemma_push_action(v: Seq<Action>, a: Action)
    ensures
        actions_view(v.push(a)) == actions_view(v).push(a@),
{
    assert(actions_view(v.push(a)) =~= actions_view(v).push(a@));
}

proof fn lemma_push_conflict(v: Seq<Conflict>, c: Conflict)
    ensures
        conflicts_view(v.push(c)) == conflicts_view(v).push(c@),
{
    assert(conflicts_view(v.push(c)) =~= conflicts_view(v).push(c@));
}

impl Side {
    /// The other side of the pair.
    pub fn opposite(self) -> (r: Side)
        ensures
            r == other_side(self),
    {
        match self {
            Side::Local => Side::Remote,
            Side::Remote => Side::Local,
        }
    }
}

/// Whether two actions are equal (paths compared by normalized form).
pub fn actions_equal(a: &Action, b: &Action) -> (r: bool)
    ensures
        r == same_action(a@, b@),
{
    match (a, b) {
        (Action::CopyFile { from: f1, path: p1 }, Action::CopyFile { from: f2, path: p2 }) => *f1 == *f2
            && p1.same_key(p2),
        (Action::CreateDir { on: s1, path: p1 }, Action::CreateDir { on: s2, path: p2 }) => *s1 == *s2
            && p1.same_key(p2),
        (Action::Delete { on: s1, path: p1 }, Action::Delete { on: s2, path: p2 }) => *s1 == *s2
            && p1.same_key(p2),
        (
            Action::RenameConflict { on: s1, path: p1, new_name: n1 },
            Action::RenameConflict { on: s2, path: p2, new_name: n2 },
        ) => *s1 == *s2 && p1.same_key(p2) && *n1 == *n2,
        _ => false,
    }
}

/// Append a directory creation unless an equal action is already planned.
fn add_dir_action(actions: &mut Vec<Action>, on: Side, p: RelPath)
    ensures
        actions_view(final(actions)@) == add_dir(actions_view(old(actions)@), on, p@),
{
    let a = Action::CreateDir { on, path: p };
    let mut i: usize = 0;
    while i < actions.len()
        invariant
            i <= actions@.len(),
            actions@ == old(actions)@,
            a@ == (ActionView::CreateDir { on, path: p@ }),
            forall|j: int| 0 <= j < i ==> !same_action(#[trigger] actions_view(actions@)[j], a@),
        decreases actions@.len() - i,
    {
        if actions_equal(&actions[i], &a) {
            assert(same_action(actions_view(actions@)[i as int], a@));
            return;
        }
        i = i + 1;
    }
    proof {
        lemma_push_action(actions@, a);
    }
    actions.push(a);
}

/// Ensure the parent directories of `path` are created on `on`, from the top down.
fn collect_parent_dirs(path: &RelPath, on: Side, actions: &mut Vec<Action>)
    ensures
        actions_view(final(actions)@) == with_parents(actions_view(old(actions)@), on, path@),
{
    let mut parents: Vec<RelPath> = Vec::new();
    let mut current = path.parent();
    while current.is_some()
        invariant
            paths_view(parents@) + lineage_from(current) == lineage(path@),
        decreases match current {
            Some(c) => c@.len() + 1,
            None => 0,
        },
    {
        let p = current.unwrap();
        current = p.parent();
        proof {
            lemma_parent_shorter(p@);
            assert(paths_view(parents@.push(p)) =~= paths_view(parents@).push(p@));
            assert(lineage_from(Some(p)) == seq![p@] + lineage(p@));
            assert(paths_view(parents@.push(p)) + lineage_from(current) =~= paths_view(parents@) + (
            seq![p@] + lineage(p@)));
        }
        parents.push(p);
    }
    assert(paths_view(parents@) =~= lineage(path@));
    let ghost top_down = lineage(path@).reverse();
    let n = parents.len();
    let mut k: usize = 0;
    while k < n
        invariant
            k <= n,
            n == parents@.len(),
            paths_view(parents@) == lineage(path@),
            top_down == lineage(path@).reverse(),
            actions_view(actions@) == add_dirs(actions_view(old(actions)@), on, top_down.take(k as int)),
        decreases n - k,
    {
        let p = parents[n - 1 - k].clone();
        assert(top_down[k as int] == paths_view(parents@)[n - 1 - k]);
        assert(top_down.take(k + 1).drop_last() =~= top_down.take(k as int));
        add_dir_action(actions, on, p);
        k = k + 1;
    }
    assert(top_down.take(n as int) =~= top_down);
}

/// Carry one change from `from` over to `to`.
fn propagate_change(change: &Change, from: Side, to: Side, delete_propagation: bool, actions: &mut Vec<Action>)
    ensures
        actions_view(final(actions)@) == propagate(actions_view(old(actions)@), *change, from, to, delete_propagation),
{
    match change {
        Change::Deleted(p) => {
            if delete_propagation {
                let a = Action::Delete { on: to, path: p.clone() };
                proof {
                    lemma_push_action(actions@, a);
                }
                actions.push(a);
            }
        },
        Change::Created(p) | Change::Modified(p) => {
            collect_parent_dirs(p, to, actions);
            let a = Action::CopyFile { from, path: p.clone() };
            proof {
                lemma_push_action(actions@, a);
            }
            actions.push(a);
        },
    }
}

/// Push/Pull: the source side is authoritative, no conflicts are possible.
fn reconcile_unidirectional(diff: &DiffResult, source: Side, dest: Side, ctx: &ReconcileContext) -> (plan: SyncPlan)
    ensures
        plan_view(plan) == (unidirectional(
            if source == Side::Local {
                diff.local@
            } else {
                diff.remote@
            },
            source,
            dest,
            ctx.delete_propagation,
        ), Seq::<ConflictView>::empty()),
{
    let source_changes = match source {
        Side::Local => &diff.local,
        Side::Remote => &diff.remote,
    };
    let mut actions: Vec<Action> = Vec::new();
    let mut i: usize = 0;
    while i < source_changes.len()
        invariant
            i <= source_changes@.len(),
            actions_view(actions@) == unidirectional(source_changes@.take(i as int), source, dest, ctx.delete_propagation),
        decreases source_changes@.len() - i,
    {
        assert(source_changes@.take(i + 1).drop_last() =~= source_changes@.take(i as int));
        propagate_change(&source_changes[i], source, dest, ctx.delete_propagation, &mut actions);
        i = i + 1;
    }
    assert(source_changes@.take(i as int) =~= source_changes@);
    let conflicts: Vec<Conflict> = Vec::new();
    assert(conflicts_view(conflicts@) =~= Seq::<ConflictView>::empty());
    SyncPlan { actions, conflicts }
}

/// Whether both sides hold the same content at `path`.
fn content_is_same(path: &RelPath, ctx: &ReconcileContext) -> (r: bool)
    ensures
        r == same_content(path.key(), env_of(*ctx, Seq::empty())),
{
    match (ctx.local_entries.get(path), ctx.remote_entries.get(path)) {
        (Some(l), Some(r)) => match (&l.hash, &r.hash) {
            (Some(lh), Some(rh)) => *lh == *rh,
            _ => l.size == r.size,
        },
        _ => false,
    }
}

/// The side with the newer copy of `path`.
pub fn pick_newer(path: &RelPath, ctx: &ReconcileContext) -> (r: Side)
    ensures
        r == newer_side(path.key(), env_of(*ctx, Seq::empty())),
{
    match (ctx.local_entries.get(path), ctx.remote_entries.get(path)) {
        (Some(l), Some(r)) => {
            let adjusted: i128 = r.mtime_secs as i128 - ctx.clock_offset_secs as i128;
            let d: i128 = l.mtime_secs as i128 - adjusted;
            let tol: i128 = CLOCK_SKEW_TOLERANCE_SECS as i128;
            if -tol <= d && d <= tol {
                Side::Local
            } else if l.mtime_secs as i128 >= adjusted {
                Side::Local
            } else {
                Side::Remote
            }
        },
        (None, Some(_)) => Side::Remote,
        _ => Side::Local,
    }
}

/// The name a conflicting local copy is renamed to.
pub fn make_conflict_name(path: &RelPath, date: &str) -> (r: String)
    ensures
        r@ == conflict_name(path@, date@),
{
    let mut v: Vec<char> = match path.file_name() {
        Some(s) => chars_of(s),
        None => chars_of("file"),
    };
    push_str(&mut v, ".conflict-");
    push_str(&mut v, date);
    string_from_chars(&v)
}

fn resolve_content_conflict(
    path: &RelPath,
    policy: ConflictPolicy,
    ctx: &ReconcileContext,
    date: &str,
    actions: &mut Vec<Action>,
    conflicts: &mut Vec<Conflict>,
)
    ensures
        (actions_view(final(actions)@), conflicts_view(final(conflicts)@)) == content_conflict(
            (actions_view(old(actions)@), conflicts_view(old(conflicts)@)),
            path@,
            path.key(),
            policy,
            env_of(*ctx, date@),
        ),
{
    match policy {
        ConflictPolicy::NewerWins => {
            let winner = pick_newer(path, ctx);
            let loser = winner.opposite();
            collect_parent_dirs(path, loser, actions);
            let a = Action::CopyFile { from: winner, path: path.clone() };
            proof {
                lemma_push_action(actions@, a);
            }
            actions.push(a);
            let c = Conflict {
                path: path.clone(),
                kind: ConflictKind::BothModified,
                resolution: ConflictResolution::NewerWins,
                winner,
            };
            proof {
                lemma_push_conflict(conflicts@, c);
            }
            conflicts.push(c);
        },
        ConflictPolicy::KeepBoth => {
            let conflict_name = make_conflict_name(path, date);
            let a = Action::RenameConflict { on: Side::Local, path: path.clone(), new_name: conflict_name };
            proof {
                lemma_push_action(actions@, a);
            }
            actions.push(a);
            collect_parent_dirs(path, Side::Local, actions);
            let b = Action::CopyFile { from: Side::Remote, path: path.clone() };
            proof {
                lemma_push_action(actions@, b);
            }
            actions.push(b);
            collect_parent_dirs(path, Side::Remote, actions);
            let d = Action::CopyFile { from: Side::Local, path: path.clone() };
            proof {
                lemma_push_action(actions@, d);
            }
            actions.push(d);
            let c = Conflict {
                path: path.clone(),
                kind: ConflictKind::BothModified,
                resolution: ConflictResolution::KeepBoth,
                winner: Side::Local,
            };
            proof {
                lemma_push_conflict(conflicts@, c);
            }
            conflicts.push(c);
        },
    }
}

/// Delete-vs-edit: keep the edited copy, regardless of policy.
fn resolve_delete_vs_edit(path: &RelPath, edited_side: Side, actions: &mut Vec<Action>, conflicts: &mut Vec<Conflict>)
    ensures
        (actions_view(final(actions)@), conflicts_view(final(conflicts)@)) == delete_vs_edit(
            (actions_view(old(actions)@), conflicts_view(old(conflicts)@)),
            path@,
            edited_side,
        ),
{
    let dest = edited_side.opposite();
    collect_parent_dirs(path, dest, actions);
    let a = Action::CopyFile { from: edited_side, path: path.clone() };
    proof {
        lemma_push_action(actions@, a);
    }
    actions.push(a);
    let c = Conflict {
        path: path.clone(),
        kind: ConflictKind::DeleteVsEdit,
        resolution: ConflictResolution::NewerWins,
        winner: edited_side,
    };
    proof {
        lemma_push_conflict(conflicts@, c);
    }
    conflicts.push(c);
}

fn handle_both_changed(
    path: &RelPath,
    local: &Change,
    remote: &Change,
    policy: ConflictPolicy,
    ctx: &ReconcileContext,
    date: &str,
    actions: &mut Vec<Action>,
    conflicts: &mut Vec<Conflict>,
)
    ensures
        (actions_view(final(actions)@), conflicts_view(final(conflicts)@)) == both_changed(
            (actions_view(old(actions)@), conflicts_view(old(conflicts)@)),
            *path,
            *local,
            *remote,
            policy,
            env_of(*ctx, date@),
        ),
{
    let l_edit = match local {
        Change::Deleted(_) => false,
        _ => true,
    };
    let r_edit = match remote {
        Change::Deleted(_) => false,
        _ => true,
    };
    if l_edit && r_edit {
        if content_is_same(path, ctx) {
            return;
        }
        resolve_content_conflict(path, policy, ctx, date, actions, conflicts);
    } else if !l_edit && !r_edit {
    } else if !l_edit {
        resolve_delete_vs_edit(path, Side::Remote, actions, conflicts);
    } else {
        resolve_delete_vs_edit(path, Side::Local, actions, conflicts);
    }
}

/// The changes of one side by path.
fn change_map_of(changes: &Vec<Change>) -> (m: PathMap<Change>)
    ensures
        m@ == change_map(changes@),
{
    let mut m: PathMap<Change> = PathMap::new();
    let mut i: usize = 0;
    while i < changes.len()
        invariant
            i <= changes@.len(),
            m@ == change_map(changes@.take(i as int)),
        decreases changes@.len() - i,
    {
        assert(changes@.take(i + 1).drop_last() =~= changes@.take(i as int));
        let c = &changes[i];
        m.insert(c.path().clone(), c.clone());
        i = i + 1;
    }
    assert(changes@.take(i as int) =~= changes@);
    m
}

/// Add the keys of `m` to `keys`, in order.
pub(crate) fn add_keys<V>(keys: &mut PathMap<()>, m: &PathMap<V>)
    ensures
        final(keys)@ == key_union(old(keys)@, m@),
{
    let es = m.entries();
    let mut i: usize = 0;
    while i < es.len()
        invariant
            i <= es@.len(),
            es@ == m@,
            keys@ == key_union(old(keys)@, es@.take(i as int)),
        decreases es@.len() - i,
    {
        assert(es@.take(i + 1).drop_last() =~= es@.take(i as int));
        keys.insert(es[i].0.clone(), ());
        i = i + 1;
    }
    assert(es@.take(i as int) =~= es@);
}

/// Bidirectional reconciliation over every changed path, in path order.
fn reconcile_bidirectional(diff: &DiffResult, policy: ConflictPolicy, ctx: &ReconcileContext, date: &str) -> (plan: SyncPlan)
    ensures
        plan_view(plan) == bidirectional(diff.local@, diff.remote@, policy, env_of(*ctx, date@)),
{
    let lm = change_map_of(&diff.local);
    let rm = change_map_of(&diff.remote);
    let mut keys: PathMap<()> = PathMap::new();
    add_keys(&mut keys, &lm);
    add_keys(&mut keys, &rm);
    let ks = keys.entries();
    let mut actions: Vec<Action> = Vec::new();
    let mut conflicts: Vec<Conflict> = Vec::new();
    assert(actions_view(actions@) =~= Seq::<ActionView>::empty());
    assert(conflicts_view(conflicts@) =~= Seq::<ConflictView>::empty());
    let mut i: usize = 0;
    while i < ks.len()
        invariant
            i <= ks@.len(),
            (actions_view(actions@), conflicts_view(conflicts@)) == bidi_fold(ks@.take(i as int), lm@, rm@, policy, env_of(*ctx, date@)),
        decreases ks@.len() - i,
    {
        assert(ks@.take(i + 1).drop_last() =~= ks@.take(i as int));
        let path = &ks[i].0;
        match (lm.get(path), rm.get(path)) {
            (Some(c), None) => {
                propagate_change(c, Side::Local, Side::Remote, ctx.delete_propagation, &mut actions);
            },
            (None, Some(c)) => {
                propagate_change(c, Side::Remote, Side::Local, ctx.delete_propagation, &mut actions);
            },
            (Some(l), Some(r)) => {
                handle_both_changed(path, l, r, policy, ctx, date, &mut actions, &mut conflicts);
            },
            (None, None) => {},
        }
        i = i + 1;
    }
    assert(ks@.take(i as int) =~= ks@);
    SyncPlan { actions, conflicts }
}

/// Reconcile a diff into a sync plan, naming conflict copies with `date`.
///
/// Push and Pull carry the source side's changes over; Bidirectional walks
/// the changed paths in order and resolves paths changed on both sides by
/// the conflict policy.
pub fn reconcile_on(
    diff: &DiffResult,
    index: &SyncIndex,
    mode: SyncMode,
    policy: ConflictPolicy,
    ctx: &ReconcileContext,
    date: &str,
) -> (plan: SyncPlan)
    ensures
        plan_view(plan) == plan_spec(diff.local@, diff.remote@, mode, policy, env_of(*ctx, date@)),
{
    match mode {
        SyncMode::Push => reconcile_unidirectional(diff, Side::Local, Side::Remote, ctx),
        SyncMode::Pull => reconcile_unidirectional(diff, Side::Remote, Side::Local, ctx),
        SyncMode::Bidirectional => reconcile_bidirectional(diff, policy, ctx, date),
    }
}

/// Some action of `acts` renames a conflict copy.
pub open spec fn renames_a_copy(acts: Seq<ActionView>) -> bool {
    exists|i: int| 0 <= i < acts.len() && #[trigger] acts[i] is RenameConflict
}

/// Whether some action renames a conflict copy.
fn has_rename(actions: &Vec<Action>) -> (r: bool)
    ensures
        r == renames_a_copy(actions_view(actions@)),
{
    let mut i: usize = 0;
    while i < actions.len()
        invariant
            i <= actions@.len(),
            forall|j: int| 0 <= j < i ==> !(#[trigger] actions_view(actions@)[j] is RenameConflict),
        decreases actions@.len() - i,
    {
        match &actions[i] {
            Action::RenameConflict { .. } => {
                assert(actions_view(actions@)[i as int] is RenameConflict);
                return true;
            },
            _ => {},
        }
        i = i + 1;
    }
    false
}

/// Conflict copies are named with a date only in two-way runs that keep
/// both copies.
pub open spec fn names_conflict_copies(mode: SyncMode, policy: ConflictPolicy) -> bool {
    mode is Bidirectional && policy is KeepBoth
}

/// Outside two-way runs that keep both copies, the plan does not depend on
/// the date.
pub proof fn law_plan_ignores_date(
    local: Seq<Change>,
    remote: Seq<Change>,
    mode: SyncMode,
    policy: ConflictPolicy,
    env: Env,
    date: Seq<char>,
)
    requires
        !names_conflict_copies(mode, policy),
    ensures
        plan_spec(local, remote, mode, policy, env) == plan_spec(local, remote, mode, policy, Env { date, ..env }),
{
    if mode is Bidirectional {
        let lm = change_map(local);
        let rm = change_map(remote);
        lemma_bidi_fold_ignores_date(key_union(key_union(Seq::empty(), lm), rm), lm, rm, env, date);
    }
}

proof fn lemma_bidi_fold_ignores_date(
    keys: Seq<(RelPath, ())>,
    lm: Seq<(RelPath, Change)>,
    rm: Seq<(RelPath, Change)>,
    env: Env,
    date: Seq<char>,
)
    ensures
        bidi_fold(keys, lm, rm, ConflictPolicy::NewerWins, env) == bidi_fold(
            keys,
            lm,
            rm,
            ConflictPolicy::NewerWins,
            Env { date, ..env },
        ),
    decreases keys.len(),
{
    if keys.len() > 0 {
        lemma_bidi_fold_ignores_date(keys.drop_last(), lm, rm, env, date);
    }
}

/// Reconcile a diff into a sync plan.
///
/// Conflict copies kept under the keep-both policy are named with today's
/// date in UTC, read from the system clock only when the plan renames a
/// copy; the result is none only then, when the clock gives no date (before
/// 1970 or after 9999). Apart from that date the plan is the one
/// `reconcile_on` makes.
pub fn reconcile(
    diff: &DiffResult,
    index: &SyncIndex,
    mode: SyncMode,
    policy: ConflictPolicy,
    ctx: &ReconcileContext,
) -> (plan: Option<SyncPlan>)
    ensures
        !renames_a_copy(plan_spec(diff.local@, diff.remote@, mode, policy, env_of(*ctx, Seq::empty())).0) ==> (
        plan matches Some(p) && forall|date: Seq<char>|
            plan_view(p) == plan_spec(diff.local@, diff.remote@, mode, policy, #[trigger] env_of(*ctx, date))),
        plan matches Some(p) ==> exists|date: Seq<char>|
            (renames_a_copy(plan_view(p).0) ==> is_date_text(date)) && plan_view(p) == plan_spec(
                diff.local@,
                diff.remote@,
                mode,
                policy,
                #[trigger] env_of(*ctx, date),
            ),
{
    let p = reconcile_on(diff, index, mode, policy, ctx, "");
    proof {
        reveal_strlit("");
        assert(""@ =~= Seq::<char>::empty());
    }
    if !has_rename(&p.actions) {
        proof {
            assert forall|date: Seq<char>|
                plan_view(p) == plan_spec(diff.local@, diff.remote@, mode, policy, #[trigger] env_of(*ctx, date)) by {
                crate::guarantees::law_plan_without_copy_names_ignores_date(
                    diff.local@,
                    diff.remote@,
                    mode,
                    policy,
                    env_of(*ctx, ""@),
                    date,
                );
                assert(env_of(*ctx, date) == Env { date, ..env_of(*ctx, ""@) });
            }
        }
        Some(p)
    } else {
        match today_utc() {
            Some(date) => {
                let q = reconcile_on(diff, index, mode, policy, ctx, date.as_str());
                assert(is_date_text(date@));
                Some(q)
            },
            None => None,
        }
    }
}

} // verus!
