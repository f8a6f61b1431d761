//! Applying a plan: which filesystem operation each action calls for, and
//! how the outcomes are recorded.
//!
//! Executing an action touches the disk, so the caller performs the
//! operation that `fs_op_for` names and hands the outcome back; a failure
//! on one action does not stop the others.
use vstd::prelude::*;

use crate::path::{parent_chars, parent_text, path_join, path_join_text};
use crate::reconcile::{other_side, Action, ActionView, Side, SyncPlan};
use crate::text::{chars_of, starts_with, string_from_chars};

verus! {

/// An action that was carried out.
#[derive(Debug)]
pub struct AppliedAction {
    pub action: Action,
}

/// An action that failed, with the error it failed with.
#[derive(Debug)]
pub struct ApplyError {
    pub action: Action,
    pub error: String,
}

/// Result of applying a sync plan.
#[derive(Debug)]
pub struct ApplyResult {
    pub applied: Vec<AppliedAction>,
    pub errors: Vec<ApplyError>,
}

/// Context for applying actions: the root directory of each side.
pub struct ApplyContext {
    pub local_root: String,
    pub remote_root: String,
}

/// A filesystem operation, with its paths.
#[derive(Debug)]
pub enum FsOp {
    /// Create a directory and any missing parents.
    CreateDirAll { path: String },
    /// Copy a file through a temporary file next to the destination, then
    /// rename it into place.
    AtomicCopy { source: String, dest: String },
    /// Remove a file, or a directory with its contents.
    Remove { path: String },
    /// Rename a file if it exists.
    RenameIfExists { from: String, to: String },
}

/// The root directory of side `s`.
pub open spec fn root_text(ctx: ApplyContext, s: Side) -> Seq<char> {
    match s {
        Side::Local => ctx.local_root@,
        Side::Remote => ctx.remote_root@,
    }
}

/// Where a conflicting file is renamed to: beside it, in its parent
/// directory (or in the root when it has none), under the new name.
pub open spec fn renamed_target(ctx: ApplyContext, on: Side, path: Seq<char>, new_name: Seq<char>) -> Seq<char> {
    let current = path_join_text(root_text(ctx, on), path);
    let dir = match parent_text(current) {
        Some(p) => p,
        None => root_text(ctx, on),
    };
    path_join_text(dir, new_name)
}

/// The filesystem operation that carries out an action: a directory is
/// created under its side's root; a copy goes from the source side's root
/// to the other side's; a deletion removes under its side's root; a
/// conflict rename moves the file beside itself under the new name.
pub open spec fn fs_op_matches(op: FsOp, a: ActionView, ctx: ApplyContext) -> bool {
    match a {
        ActionView::CreateDir { on, path } => op matches FsOp::CreateDirAll { path: p } && p@
            == path_join_text(root_text(ctx, on), path),
        ActionView::CopyFile { from, path } => op matches FsOp::AtomicCopy { source, dest } && source@
            == path_join_text(root_text(ctx, from), path) && dest@ == path_join_text(
            root_text(ctx, other_side(from)),
            path,
        ),
        ActionView::Delete { on, path } => op matches FsOp::Remove { path: p } && p@ == path_join_text(
            root_text(ctx, on),
            path,
        ),
        ActionView::RenameConflict { on, path, new_name } => op matches FsOp::RenameIfExists { from, to }
            && from@ == path_join_text(root_text(ctx, on), path) && to@ == renamed_target(
            ctx,
            on,
            path,
            new_name,
        ),
    }
}

impl ApplyContext {
    /// The root directory of a side.
    pub fn root_for(&self, side: Side) -> (r: &str)
        ensures
            r@ == root_text(*self, side),
    {
        match side {
            Side::Local => self.local_root.as_str(),
            Side::Remote => self.remote_root.as_str(),
        }
    }
}

fn joined(base: &str, rel: &str) -> (r: String)
    ensures
        r@ == path_join_text(base@, rel@),
{
    let b = chars_of(base);
    let r = chars_of(rel);
    string_from_chars(&path_join(&b, &r))
}

/// The filesystem operation that carries out `action`.
pub fn fs_op_for(action: &Action, ctx: &ApplyContext) -> (op: FsOp)
    ensures
        fs_op_matches(op, action@, *ctx),
{
    match action {
        Action::CreateDir { on, path } => FsOp::CreateDirAll { path: joined(ctx.root_for(*on), path.display()) },
        Action::CopyFile { from, path } => FsOp::AtomicCopy {
            source: joined(ctx.root_for(*from), path.display()),
            dest: joined(ctx.root_for(from.opposite()), path.display()),
        },
        Action::Delete { on, path } => FsOp::Remove { path: joined(ctx.root_for(*on), path.display()) },
        Action::RenameConflict { on, path, new_name } => {
            let root = ctx.root_for(*on);
            let current = joined(root, path.display());
            let ov = chars_of(current.as_str());
            let dir = match parent_chars(&ov) {
                Some(p) => p,
                None => chars_of(root),
            };
            let nv = chars_of(new_name.as_str());
            let to = string_from_chars(&path_join(&dir, &nv));
            FsOp::RenameIfExists { from: current, to }
        },
    }
}

/// The actions whose outcome was a success, in order.
pub open spec fn succeeded(acts: Seq<Action>, outcomes: Seq<Result<(), String>>) -> Seq<Action>
    decreases acts.len(),
{
    if acts.len() == 0 {
        Seq::empty()
    } else {
        let rest = succeeded(acts.drop_last(), outcomes);
        if outcomes[acts.len() - 1] is Ok {
            rest.push(acts.last())
        } else {
            rest
        }
    }
}

/// The actions whose outcome was a failure, with the error, in order.
pub open spec fn failed(acts: Seq<Action>, outcomes: Seq<Result<(), String>>) -> Seq<(Action, Seq<char>)>
    decreases acts.len(),
{
    if acts.len() == 0 {
        Seq::empty()
    } else {
        let rest = failed(acts.drop_last(), outcomes);
        match outcomes[acts.len() - 1] {
            Ok(_) => rest,
            Err(e) => rest.push((acts.last(), e@)),
        }
    }
}

pub open spec fn applied_view(v: Seq<AppliedAction>) -> Seq<Action> {
    v.map_values(|a: AppliedAction| a.action)
}

pub open spec fn errors_view(v: Seq<ApplyError>) -> Seq<(Action, Seq<char>)> {
    v.map_values(|e: ApplyError| (e.action, e.error@))
}

/// Record the outcome of applying a plan: every action is attempted, and
/// `outcomes[i]` is what executing `plan.actions[i]` gave. Successes are
/// recorded as applied and failures as errors, both in plan order.
pub fn apply_plan(plan: &SyncPlan, outcomes: &Vec<Result<(), String>>) -> (r: ApplyResult)
    requires
        outcomes@.len() == plan.actions@.len(),
    ensures
        applied_view(r.applied@) == succeeded(plan.actions@, outcomes@),
        errors_view(r.errors@) == failed(plan.actions@, outcomes@),
{
    let mut applied: Vec<AppliedAction> = Vec::new();
    let mut errors: Vec<ApplyError> = Vec::new();
    let mut i: usize = 0;
    while i < plan.actions.len()
        invariant
            i <= plan.actions@.len(),
            outcomes@.len() == plan.actions@.len(),
            applied_view(applied@) == succeeded(plan.actions@.take(i as int), outcomes@),
            errors_view(errors@) == failed(plan.actions@.take(i as int), outcomes@),
        decreases plan.actions@.len() - i,
    {
        let ghost pre = plan.actions@.take(i + 1);
        assert(pre.drop_last() =~= plan.actions@.take(i as int));
        let action = plan.actions[i].clone();
        match &outcomes[i] {
            Ok(()) => {
                let a = AppliedAction { action };
                assert(applied_view(applied@.push(a)) =~= applied_view(applied@).push(a.action));
                applied.push(a);
            },
            Err(e) => {
                let err = ApplyError { action, error: e.clone() };
                assert(errors_view(errors@.push(err)) =~= errors_view(errors@).push((err.action, err.error@)));
                errors.push(err);
            },
        }
        i = i + 1;
    }
    assert(plan.actions@.take(i as int) =~= plan.actions@);
    ApplyResult { applied, errors }
}


/// A plan being applied: the outcomes of the actions attempted so far, in
/// plan order.
pub struct ApplyRun {
    outcomes: Vec<Result<(), String>>,
}

impl View for ApplyRun {
    type V = Seq<Result<(), String>>;

    closed spec fn view(&self) -> Seq<Result<(), String>> {
        self.outcomes@
    }
}

impl ApplyRun {
    /// A run that has attempted nothing yet.
    pub fn new() -> (r: Self)
        ensures
            r@ == Seq::<Result<(), String>>::empty(),
    {
        ApplyRun { outcomes: Vec::new() }
    }

    /// The position of the action to attempt next: the one after those
    /// already attempted, whatever their outcomes; none once every action
    /// of the plan has been attempted.
    pub fn next_action(&self, plan: &SyncPlan) -> (r: Option<usize>)
        ensures
            self@.len() < plan.actions@.len() ==> r == Some(self@.len() as usize),
            self@.len() >= plan.actions@.len() ==> r is None,
    {
        if self.outcomes.len() < plan.actions.len() {
            Some(self.outcomes.len())
        } else {
            None
        }
    }

    /// Record the outcome of the action `next_action` named.
    pub fn record(&mut self, outcome: Result<(), String>)
        ensures
            final(self)@ == old(self)@.push(outcome),
    {
        self.outcomes.push(outcome);
    }

    /// The result of the run, once every action of the plan has been
    /// attempted: successes as applied and failures as errors, in plan
    /// order.
    pub fn finish(&self, plan: &SyncPlan) -> (r: Option<ApplyResult>)
        ensures
            self@.len() == plan.actions@.len() <==> r is Some,
            r matches Some(res) ==> applied_view(res.applied@) == succeeded(plan.actions@, self@) && errors_view(
                res.errors@,
            ) == failed(plan.actions@, self@),
    {
        if self.outcomes.len() == plan.actions.len() {
            Some(apply_plan(plan, &self.outcomes))
        } else {
            None
        }
    }
}

/// A failure does not stop the run: every action is recorded exactly once,
/// as applied or as an error; when every outcome is a success, every action
/// is applied, in plan order.
pub proof fn law_every_action_is_recorded(acts: Seq<Action>, outcomes: Seq<Result<(), String>>)
    requires
        outcomes.len() == acts.len(),
    ensures
        succeeded(acts, outcomes).len() + failed(acts, outcomes).len() == acts.len(),
        (forall|i: int| 0 <= i < outcomes.len() ==> (#[trigger] outcomes[i]) is Ok) ==> succeeded(acts, outcomes) == acts
            && failed(acts, outcomes).len() == 0,
    decreases acts.len(),
{
    if acts.len() > 0 {
        let outs = outcomes.drop_last();
        law_every_action_is_recorded(acts.drop_last(), outs);
        lemma_outcome_prefix(acts.drop_last(), outcomes);
        if forall|i: int| 0 <= i < outcomes.len() ==> (#[trigger] outcomes[i]) is Ok {
            assert forall|i: int| 0 <= i < outs.len() implies (#[trigger] outs[i]) is Ok by {
                assert(outs[i] == outcomes[i]);
            }
            assert(outcomes[acts.len() - 1] is Ok);
            assert(acts.drop_last().push(acts.last()) =~= acts);
        }
    }
}

proof fn lemma_outcome_prefix(acts: Seq<Action>, outcomes: Seq<Result<(), String>>)
    requires
        acts.len() < outcomes.len(),
    ensures
        succeeded(acts, outcomes.drop_last()) == succeeded(acts, outcomes),
        failed(acts, outcomes.drop_last()) == failed(acts, outcomes),
    decreases acts.len(),
{
    if acts.len() > 0 {
        lemma_outcome_prefix(acts.drop_last(), outcomes);
        assert(outcomes.drop_last()[acts.len() - 1] == outcomes[acts.len() - 1]);
    }
}


proof fn lemma_join_starts_with_base(base: Seq<char>, rel: Seq<char>)
    requires
        !starts_with(rel, seq!['/']),
    ensures
        starts_with(path_join_text(base, rel), base),
{
    let j = path_join_text(base, rel);
    if base.len() > 0 {
        assert(j.take(base.len() as int) =~= base);
    } else {
        assert(j.take(0) =~= base);
    }
}

/// A copy reads under the root of its source side and writes under the
/// root of the other side: from the local side to under the remote root,
/// from the remote side to under the local root. So when neither root is
/// the start of the other, a copy never writes where it reads.
pub proof fn law_copies_cross_between_roots(op: FsOp, from: Side, path: Seq<char>, ctx: ApplyContext)
    requires
        fs_op_matches(op, ActionView::CopyFile { from, path }, ctx),
        !starts_with(path, seq!['/']),
    ensures
        op is AtomicCopy,
        from == Side::Local ==> (op matches FsOp::AtomicCopy { source, dest } && starts_with(source@, ctx.local_root@)
            && starts_with(dest@, ctx.remote_root@)),
        from == Side::Remote ==> (op matches FsOp::AtomicCopy { source, dest } && starts_with(source@, ctx.remote_root@)
            && starts_with(dest@, ctx.local_root@)),
        !starts_with(ctx.local_root@, ctx.remote_root@) && !starts_with(ctx.remote_root@, ctx.local_root@) ==> (
        op matches FsOp::AtomicCopy { source, dest } && source@ != dest@),
{
    let (src_root, dst_root) = if from == Side::Local {
        (ctx.local_root@, ctx.remote_root@)
    } else {
        (ctx.remote_root@, ctx.local_root@)
    };
    lemma_join_starts_with_base(src_root, path);
    lemma_join_starts_with_base(dst_root, path);
    if let FsOp::AtomicCopy { source, dest } = op {
        assert(starts_with(source@, src_root));
        assert(starts_with(dest@, dst_root));
        if source@ == dest@ {
            let s = source@;
            if src_root.len() <= dst_root.len() {
                assert(dst_root.take(src_root.len() as int) =~= s.take(src_root.len() as int));
                assert(starts_with(dst_root, src_root));
            } else {
                assert(src_root.take(dst_root.len() as int) =~= s.take(dst_root.len() as int));
                assert(starts_with(src_root, dst_root));
            }
        }
    }
}

} // verus!
