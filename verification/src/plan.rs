//! Putting a plan's actions in a safe order for execution.
use vstd::prelude::*;

use crate::reconcile::{actions_view, Action, ActionView, SyncPlan};
use crate::path::normalize_text;
use crate::text::{chars_count, chars_of, count_char};

verus! {

broadcast use vstd::seq_lib::group_seq_properties;

/// The phase an action runs in: directories first, then copies and
/// renames, then deletions.
pub open spec fn phase_of(a: ActionView) -> int {
    match a {
        ActionView::CreateDir { .. } => 0,
        ActionView::CopyFile { .. } => 1,
        ActionView::RenameConflict { .. } => 1,
        ActionView::Delete { .. } => 2,
    }
}

/// The depth of an action's path: the number of `/` in it.
pub open spec fn depth_of(a: ActionView) -> int {
    count_char(a.path(), '/') as int
}

/// Where an action goes in execution order: its phase, then within the
/// directory phase shallow paths first, within the deletion phase deep
/// paths first, and within the copy phase no preference.
pub open spec fn rank(a: ActionView) -> (int, int) {
    let p = phase_of(a);
    (p, if p == 0 {
        depth_of(a)
    } else if p == 2 {
        -depth_of(a)
    } else {
        0
    })
}

/// `a` must run before `b`.
pub open spec fn runs_before(a: ActionView, b: ActionView) -> bool {
    rank(a).0 < rank(b).0 || (rank(a).0 == rank(b).0 && rank(a).1 < rank(b).1)
}

/// No action of `s` must run before one that precedes it: directories come
/// before copies and renames, which come before deletions; directories are
/// created parents first and deletions remove children first.
pub open spec fn in_execution_order(s: Seq<ActionView>) -> bool {
    forall|i: int, j: int| 0 <= i < j < s.len() ==> !runs_before(#[trigger] s[j], #[trigger] s[i])
}

/// Where `x` goes when added to `s`: after the last action that need not
/// run after it.
pub open spec fn insert_pos(s: Seq<ActionView>, x: ActionView) -> int
    decreases s.len(),
{
    if s.len() == 0 {
        0
    } else if runs_before(x, s.last()) {
        insert_pos(s.drop_last(), x)
    } else {
        s.len() as int
    }
}

/// The actions of `s` in execution order; actions of the same rank keep
/// the order they had.
pub open spec fn execution_order(s: Seq<ActionView>) -> Seq<ActionView>
    decreases s.len(),
{
    if s.len() == 0 {
        s
    } else {
        let rest = execution_order(s.drop_last());
        rest.insert(insert_pos(rest, s.last()), s.last())
    }
}

/// The rank of an action as its phase and its ordering value.
fn action_rank(a: &Action) -> (r: (u8, i128))
    ensures
        r.0 as int == rank(a@).0,
        r.1 as int == rank(a@).1,
{
    let (phase, path) = match a {
        Action::CreateDir { path, .. } => (0u8, path),
        Action::CopyFile { path, .. } => (1u8, path),
        Action::RenameConflict { path, .. } => (1u8, path),
        Action::Delete { path, .. } => (2u8, path),
    };
    let chars = chars_of(path.display());
    let depth = chars_count(chars.as_slice(), '/');
    assert(depth_of(a@) == depth);
    if phase == 0 {
        (phase, depth as i128)
    } else if phase == 2 {
        (phase, -(depth as i128))
    } else {
        (phase, 0)
    }
}

fn action_runs_before(a: &Action, b: &Action) -> (r: bool)
    ensures
        r == runs_before(a@, b@),
{
    let ra = action_rank(a);
    let rb = action_rank(b);
    ra.0 < rb.0 || (ra.0 == rb.0 && ra.1 < rb.1)
}

/// Order actions for safe execution:
/// 1. CreateDir (parents before children — sorted by path depth ascending)
/// 2. CopyFile / RenameConflict (any order)
/// 3. Delete (children before parents — sorted by path depth descending)
///
/// This ensures directories exist before files are copied into them,
/// and that files are removed before their parent directories.
pub fn order_actions(plan: &mut SyncPlan)
    ensures
        actions_view(final(plan).actions@) == execution_order(actions_view(old(plan).actions@)),
        final(plan).conflicts == old(plan).conflicts,
{
    let ghost input = actions_view(plan.actions@);
    let mut out: Vec<Action> = Vec::new();
    let mut i: usize = 0;
    while i < plan.actions.len()
        invariant
            i <= plan.actions@.len(),
            input == actions_view(plan.actions@),
            actions_view(out@) == execution_order(input.take(i as int)),
        decreases plan.actions@.len() - i,
    {
        let x = plan.actions[i].clone();
        assert(input.take(i + 1).drop_last() =~= input.take(i as int));
        assert(input.take(i + 1).last() == x@);
        let ghost rest = actions_view(out@);
        let mut j: usize = out.len();
        while j > 0 && action_runs_before(&x, &out[j - 1])
            invariant
                j <= out@.len(),
                rest == actions_view(out@),
                insert_pos(rest, x@) == insert_pos(rest.take(j as int), x@),
            decreases j,
        {
            assert(rest.take(j as int).drop_last() =~= rest.take(j - 1));
            j = j - 1;
        }
        assert(insert_pos(rest, x@) == j);
        out.insert(j, x);
        assert(actions_view(out@) =~= rest.insert(j as int, x@));
        i = i + 1;
    }
    assert(input.take(i as int) =~= input);
    plan.actions = out;
}


proof fn lemma_insert_pos(s: Seq<ActionView>, x: ActionView)
    ensures
        0 <= insert_pos(s, x) <= s.len(),
        forall|j: int| insert_pos(s, x) <= j < s.len() ==> runs_before(x, #[trigger] s[j]),
        insert_pos(s, x) > 0 ==> !runs_before(x, s[insert_pos(s, x) - 1]),
    decreases s.len(),
{
    if s.len() > 0 && runs_before(x, s.last()) {
        lemma_insert_pos(s.drop_last(), x);
        assert forall|j: int| insert_pos(s, x) <= j < s.len() implies runs_before(x, #[trigger] s[j]) by {
            if j < s.len() - 1 {
                assert(s[j] == s.drop_last()[j]);
            }
        }
    }
}

proof fn lemma_insert_keeps_order(s: Seq<ActionView>, x: ActionView)
    requires
        in_execution_order(s),
    ensures
        in_execution_order(s.insert(insert_pos(s, x), x)),
{
    let p = insert_pos(s, x);
    lemma_insert_pos(s, x);
    let r = s.insert(p, x);
    assert forall|i: int, j: int| 0 <= i < j < r.len() implies !runs_before(#[trigger] r[j], #[trigger] r[i]) by {
        if j < p {
            assert(r[i] == s[i] && r[j] == s[j]);
        } else if j == p {
            assert(r[i] == s[i]);
            if i < p - 1 {
                assert(!runs_before(s[p - 1], s[i]));
            }
        } else if i < p {
            assert(r[i] == s[i] && r[j] == s[j - 1]);
        } else if i == p {
            assert(r[j] == s[j - 1]);
            assert(runs_before(x, s[j - 1]));
        } else {
            assert(r[i] == s[i - 1] && r[j] == s[j - 1]);
        }
    }
}

/// Ordering puts the actions in execution order.
pub proof fn law_order_is_execution_order(s: Seq<ActionView>)
    ensures
        in_execution_order(execution_order(s)),
    decreases s.len(),
{
    if s.len() > 0 {
        law_order_is_execution_order(s.drop_last());
        lemma_insert_keeps_order(execution_order(s.drop_last()), s.last());
    }
}

/// Ordering neither adds nor drops an action: the result is a permutation.
pub proof fn law_order_is_permutation(s: Seq<ActionView>)
    ensures
        execution_order(s).to_multiset() == s.to_multiset(),
    decreases s.len(),
{
    broadcast use vstd::seq_lib::to_multiset_insert, vstd::seq_lib::to_multiset_build;

    if s.len() > 0 {
        law_order_is_permutation(s.drop_last());
        let rest = execution_order(s.drop_last());
        lemma_insert_pos(rest, s.last());
        assert(s.drop_last().push(s.last()) == s);
    }
}

/// The actions of rank `r`.
pub open spec fn of_rank(r: (int, int)) -> spec_fn(ActionView) -> bool {
    |a: ActionView| rank(a) == r
}

/// Ordering is stable: the actions of each rank keep their relative order.
pub proof fn law_order_is_stable(s: Seq<ActionView>, r: (int, int))
    ensures
        execution_order(s).filter(of_rank(r)) == s.filter(of_rank(r)),
    decreases s.len(),
{
    if s.len() > 0 {
        let x = s.last();
        let pred = of_rank(r);
        law_order_is_stable(s.drop_last(), r);
        let rest = execution_order(s.drop_last());
        let p = insert_pos(rest, x);
        lemma_insert_pos(rest, x);
        let front = rest.take(p);
        let back = rest.skip(p);
        let one = Seq::<ActionView>::empty().push(x);
        assert(rest == front + back);
        assert(rest.insert(p, x) == front + one + back);
        Seq::filter_distributes_over_add(front + one, back, pred);
        Seq::filter_distributes_over_add(front, one, pred);
        Seq::filter_distributes_over_add(front, back, pred);
        Seq::<ActionView>::empty().lemma_filter_push(x, pred);
        assert(Seq::<ActionView>::empty().filter(pred) == Seq::<ActionView>::empty()) by {
            reveal(Seq::filter);
        }
        s.drop_last().lemma_filter_push(x, pred);
        assert(s.drop_last().push(x) == s);
        if rank(x) == r {
            assert forall|j: int| 0 <= j < back.len() implies !pred(#[trigger] back[j]) by {
                assert(back[j] == rest[p + j]);
                assert(runs_before(x, rest[p + j]));
            }
            back.lemma_all_neg_filter_empty(pred);
            assert(back.filter(pred) =~= Seq::<ActionView>::empty());
        }
    }
}

/// Ordering actions that are already in execution order changes nothing.
pub proof fn law_order_is_idempotent(s: Seq<ActionView>)
    requires
        in_execution_order(s),
    ensures
        execution_order(s) == s,
    decreases s.len(),
{
    if s.len() > 0 {
        let prev = s.drop_last();
        assert(in_execution_order(prev)) by {
            assert forall|i: int, j: int| 0 <= i < j < prev.len() implies !runs_before(#[trigger] prev[j], #[trigger] prev[i]) by {
                assert(prev[i] == s[i] && prev[j] == s[j]);
            }
        }
        law_order_is_idempotent(prev);
        if prev.len() > 0 {
            assert(!runs_before(s.last(), s[prev.len() - 1]));
            assert(prev.last() == s[prev.len() - 1]);
        }
        assert(insert_pos(prev, s.last()) == prev.len());
        assert(prev.insert(prev.len() as int, s.last()) =~= s);
    }
}


/// `a` and `b` create the same directory: on the same side, at paths with
/// the same normalized form.
pub open spec fn same_dir(a: ActionView, b: ActionView) -> bool {
    match (a, b) {
        (ActionView::CreateDir { on: s1, path: p1 }, ActionView::CreateDir { on: s2, path: p2 }) => s1 == s2
            && normalize_text(p1) == normalize_text(p2),
        _ => false,
    }
}

/// `s[i]` creates a directory that an earlier action of `s` already creates.
pub open spec fn repeats_dir(s: Seq<ActionView>, i: int) -> bool {
    exists|j: int| 0 <= j < i && same_dir(#[trigger] s[j], s[i])
}

/// `s` without the directory creations that repeat an earlier one.
pub open spec fn without_repeated_dirs(s: Seq<ActionView>) -> Seq<ActionView>
    decreases s.len(),
{
    if s.len() == 0 {
        s
    } else {
        let rest = without_repeated_dirs(s.drop_last());
        if repeats_dir(s, s.len() - 1) {
            rest
        } else {
            rest.push(s.last())
        }
    }
}

fn creates_same_dir(a: &Action, b: &Action) -> (r: bool)
    ensures
        r == same_dir(a@, b@),
{
    match (a, b) {
        (Action::CreateDir { on: s1, path: p1 }, Action::CreateDir { on: s2, path: p2 }) => *s1 == *s2
            && p1.same_key(p2),
        _ => false,
    }
}

/// Deduplicate CreateDir actions (same path + side).
pub fn dedup_dirs(plan: &mut SyncPlan)
    ensures
        actions_view(final(plan).actions@) == without_repeated_dirs(actions_view(old(plan).actions@)),
        final(plan).conflicts == old(plan).conflicts,
{
    let ghost input = actions_view(plan.actions@);
    let mut out: Vec<Action> = Vec::new();
    let mut i: usize = 0;
    while i < plan.actions.len()
        invariant
            i <= plan.actions@.len(),
            input == actions_view(plan.actions@),
            actions_view(out@) == without_repeated_dirs(input.take(i as int)),
        decreases plan.actions@.len() - i,
    {
        let ghost pre = input.take(i + 1);
        assert(pre.drop_last() =~= input.take(i as int));
        let mut seen = false;
        let mut j: usize = 0;
        while j < i
            invariant
                j <= i < plan.actions@.len(),
                input == actions_view(plan.actions@),
                pre == input.take(i + 1),
                seen <==> exists|k: int| 0 <= k < j && same_dir(#[trigger] pre[k], pre[i as int]),
            decreases i - j,
        {
            assert(pre[j as int] == plan.actions@[j as int]@);
            assert(pre[i as int] == plan.actions@[i as int]@);
            if creates_same_dir(&plan.actions[j], &plan.actions[i]) {
                seen = true;
            }
            j = j + 1;
        }
        assert(repeats_dir(pre, i as int) == seen);
        if !seen {
            let x = plan.actions[i].clone();
            assert(actions_view(out@.push(x)) =~= actions_view(out@).push(x@));
            out.push(x);
        }
        i = i + 1;
    }
    assert(input.take(i as int) =~= input);
    plan.actions = out;
}

proof fn lemma_dedup_members(s: Seq<ActionView>)
    ensures
        forall|i: int| 0 <= i < without_repeated_dirs(s).len() ==> exists|j: int| 0 <= j < s.len()
            && s[j] == #[trigger] without_repeated_dirs(s)[i],
    decreases s.len(),
{
    if s.len() > 0 {
        let prev = s.drop_last();
        lemma_dedup_members(prev);
        let rest = without_repeated_dirs(prev);
        let r = without_repeated_dirs(s);
        assert forall|i: int| 0 <= i < r.len() implies exists|j: int| 0 <= j < s.len() && s[j] == #[trigger] r[i] by {
            if i < rest.len() {
                assert(r[i] == rest[i]);
                let j = choose|j: int| 0 <= j < prev.len() && prev[j] == #[trigger] rest[i];
                assert(s[j] == prev[j]);
            } else {
                assert(s[s.len() - 1] == r[i]);
            }
        }
    }
}

/// After deduplication no two actions create the same directory.
pub proof fn law_dedup_leaves_no_repeats(s: Seq<ActionView>)
    ensures
        forall|i: int, j: int| 0 <= i < j < without_repeated_dirs(s).len() ==> !same_dir(
            #[trigger] without_repeated_dirs(s)[i],
            #[trigger] without_repeated_dirs(s)[j],
        ),
    decreases s.len(),
{
    if s.len() > 0 {
        let prev = s.drop_last();
        law_dedup_leaves_no_repeats(prev);
        lemma_dedup_members(prev);
        let rest = without_repeated_dirs(prev);
        let r = without_repeated_dirs(s);
        assert forall|i: int, j: int| 0 <= i < j < r.len() implies !same_dir(#[trigger] r[i], #[trigger] r[j]) by {
            if j < rest.len() {
                assert(r[i] == rest[i] && r[j] == rest[j]);
            } else {
                assert(r[i] == rest[i]);
                let k = choose|k: int| 0 <= k < prev.len() && prev[k] == #[trigger] rest[i];
                assert(s[k] == prev[k]);
                assert(r[j] == s[s.len() - 1]);
                assert(!same_dir(s[k], s[s.len() - 1]));
            }
        }
    }
}

/// Every directory that an action creates is still created after
/// deduplication.
pub proof fn law_dedup_keeps_every_dir(s: Seq<ActionView>)
    ensures
        forall|i: int| 0 <= i < s.len() && (#[trigger] s[i]) is CreateDir ==> exists|j: int| 0 <= j < without_repeated_dirs(s).len()
            && same_dir(#[trigger] without_repeated_dirs(s)[j], s[i]),
    decreases s.len(),
{
    if s.len() > 0 {
        let prev = s.drop_last();
        law_dedup_keeps_every_dir(prev);
        let rest = without_repeated_dirs(prev);
        let r = without_repeated_dirs(s);
        assert forall|i: int| 0 <= i < s.len() && (#[trigger] s[i]) is CreateDir implies exists|j: int| 0 <= j < r.len()
            && same_dir(#[trigger] r[j], s[i]) by {
            let n = s.len() - 1;
            if i < n {
                assert(prev[i] == s[i]);
                let j = choose|j: int| 0 <= j < rest.len() && same_dir(#[trigger] rest[j], prev[i]);
                assert(r[j] == rest[j]);
            } else if repeats_dir(s, n) {
                let k = choose|k: int| 0 <= k < n && same_dir(#[trigger] s[k], s[n]);
                assert(prev[k] == s[k]);
                let j = choose|j: int| 0 <= j < rest.len() && same_dir(#[trigger] rest[j], prev[k]);
                assert(r[j] == rest[j]);
            } else {
                assert(r[rest.len() as int] == s[n]);
            }
        }
    }
}

/// Not a directory creation.
pub open spec fn not_dir() -> spec_fn(ActionView) -> bool {
    |a: ActionView| !(a is CreateDir)
}

/// Deduplication keeps every other action, in order.
pub proof fn law_dedup_keeps_other_actions(s: Seq<ActionView>)
    ensures
        without_repeated_dirs(s).filter(not_dir()) == s.filter(not_dir()),
    decreases s.len(),
{
    if s.len() > 0 {
        let prev = s.drop_last();
        law_dedup_keeps_other_actions(prev);
        let rest = without_repeated_dirs(prev);
        rest.lemma_filter_push(s.last(), not_dir());
        prev.lemma_filter_push(s.last(), not_dir());
        assert(prev.push(s.last()) == s);
    }
}

} // verus!
