//! What reconciliation guarantees of every plan it makes.
//!
//! Each public proof function here states one property of `plan_spec`, the
//! plan that `reconcile_on` and `reconcile` are proved to return.
use vstd::prelude::*;

use crate::diff::Change;
use crate::path::{normalize_text, RelPath};
use crate::pathmap::{has_key, insert_entry, lemma_insert_sorted, lookup, sorted_entries};
use crate::text::{lemma_seq_lt_irreflexive, seq_lt};
use crate::scan::FileEntry;
use crate::reconcile::{
    add_dir, add_dirs, bidi_fold, bidi_step, bidirectional, change_map, content_conflict,
    key_union, plan_spec, propagate, unidirectional, with_parents, ActionView,
    ConflictPolicy, ConflictView, Env, Side, SyncMode, renames_a_copy, names_conflict_copies,
    law_plan_ignores_date,
};

verus! {

/// `a` creates a directory on `on`.
pub open spec fn dir_on(a: ActionView, on: Side) -> bool {
    a matches ActionView::CreateDir { on: o, .. } && o == on
}

/// `r` is `acts` followed by directory creations on `on` only.
pub open spec fn extends_with_dirs(acts: Seq<ActionView>, r: Seq<ActionView>, on: Side) -> bool {
    &&& acts.len() <= r.len()
    &&& forall|i: int| 0 <= i < acts.len() ==> r[i] == acts[i]
    &&& forall|i: int| acts.len() <= i < r.len() ==> dir_on(#[trigger] r[i], on)
}

proof fn lemma_add_dir_extends(acts: Seq<ActionView>, on: Side, p: Seq<char>)
    ensures
        extends_with_dirs(acts, add_dir(acts, on, p), on),
{
}

proof fn lemma_add_dirs_extends(acts: Seq<ActionView>, on: Side, ps: Seq<Seq<char>>)
    ensures
        extends_with_dirs(acts, add_dirs(acts, on, ps), on),
    decreases ps.len(),
{
    if ps.len() > 0 {
        let mid = add_dirs(acts, on, ps.drop_last());
        lemma_add_dirs_extends(acts, on, ps.drop_last());
        lemma_add_dir_extends(mid, on, ps.last());
    }
}

/// Creating the parents of a path only appends directory creations on that side.
pub proof fn lemma_with_parents_extends(acts: Seq<ActionView>, on: Side, d: Seq<char>)
    ensures
        extends_with_dirs(acts, with_parents(acts, on, d), on),
{
    lemma_add_dirs_extends(acts, on, crate::reconcile::lineage(d).reverse());
}


/// No action of `acts` deletes anything.
pub open spec fn no_deletes(acts: Seq<ActionView>) -> bool {
    forall|i: int| 0 <= i < acts.len() ==> !(#[trigger] acts[i] is Delete)
}

/// `a` moves data from `from` to `to` only: copies come from `from`,
/// directories and deletions are made on `to`, nothing is renamed.
pub open spec fn directed(a: ActionView, from: Side, to: Side) -> bool {
    match a {
        ActionView::CopyFile { from: f, .. } => f == from,
        ActionView::CreateDir { on, .. } => on == to,
        ActionView::Delete { on, .. } => on == to,
        ActionView::RenameConflict { .. } => false,
    }
}

proof fn lemma_with_parents_no_deletes(acts: Seq<ActionView>, on: Side, d: Seq<char>)
    requires
        no_deletes(acts),
    ensures
        no_deletes(with_parents(acts, on, d)),
{
    let r = with_parents(acts, on, d);
    lemma_with_parents_extends(acts, on, d);
    assert forall|i: int| 0 <= i < r.len() implies !(#[trigger] r[i] is Delete) by {
        if i < acts.len() {
            assert(r[i] == acts[i]);
        } else {
            assert(dir_on(r[i], on));
        }
    }
}

proof fn lemma_propagate_no_deletes(acts: Seq<ActionView>, c: Change, from: Side, to: Side)
    requires
        no_deletes(acts),
    ensures
        no_deletes(propagate(acts, c, from, to, false)),
{
    match c {
        Change::Deleted(_) => {},
        _ => {
            lemma_with_parents_no_deletes(acts, to, c.spec_path()@);
        },
    }
}

proof fn lemma_unidirectional_no_deletes(changes: Seq<Change>, from: Side, to: Side)
    ensures
        no_deletes(unidirectional(changes, from, to, false)),
    decreases changes.len(),
{
    if changes.len() > 0 {
        lemma_unidirectional_no_deletes(changes.drop_last(), from, to);
        lemma_propagate_no_deletes(unidirectional(changes.drop_last(), from, to, false), changes.last(), from, to);
    }
}

proof fn lemma_unidirectional_directed(changes: Seq<Change>, from: Side, to: Side, dp: bool)
    ensures
        forall|i: int| 0 <= i < unidirectional(changes, from, to, dp).len()
            ==> directed(#[trigger] unidirectional(changes, from, to, dp)[i], from, to),
    decreases changes.len(),
{
    if changes.len() > 0 {
        let prev = unidirectional(changes.drop_last(), from, to, dp);
        lemma_unidirectional_directed(changes.drop_last(), from, to, dp);
        let c = changes.last();
        let r = unidirectional(changes, from, to, dp);
        match c {
            Change::Deleted(_) => {
                assert forall|i: int| 0 <= i < r.len() implies directed(#[trigger] r[i], from, to) by {
                    if i < prev.len() {
                        assert(r[i] == prev[i]);
                    }
                }
            },
            _ => {
                let mid = with_parents(prev, to, c.spec_path()@);
                lemma_with_parents_extends(prev, to, c.spec_path()@);
                assert forall|i: int| 0 <= i < r.len() implies directed(#[trigger] r[i], from, to) by {
                    if i < prev.len() {
                        assert(r[i] == mid[i]);
                        assert(mid[i] == prev[i]);
                    } else if i < mid.len() {
                        assert(r[i] == mid[i]);
                        assert(dir_on(mid[i], to));
                    }
                }
            },
        }
    }
}

/// Push and pull carry changes one way only: every copy comes from the
/// source side, every directory and deletion is made on the destination,
/// nothing is renamed, and there are no conflicts.
pub proof fn law_one_way_modes_are_directed(
    local: Seq<Change>,
    remote: Seq<Change>,
    mode: SyncMode,
    policy: ConflictPolicy,
    env: Env,
)
    requires
        mode != SyncMode::Bidirectional,
    ensures
        ({
            let (from, to) = if mode == SyncMode::Push {
                (Side::Local, Side::Remote)
            } else {
                (Side::Remote, Side::Local)
            };
            let plan = plan_spec(local, remote, mode, policy, env);
            &&& forall|i: int| 0 <= i < plan.0.len() ==> directed(#[trigger] plan.0[i], from, to)
            &&& plan.1.len() == 0
        }),
{
    if mode == SyncMode::Push {
        lemma_unidirectional_directed(local, Side::Local, Side::Remote, env.delete_propagation);
    } else {
        lemma_unidirectional_directed(remote, Side::Remote, Side::Local, env.delete_propagation);
    }
}


proof fn lemma_push_no_deletes(acts: Seq<ActionView>, a: ActionView)
    requires
        no_deletes(acts),
        !(a is Delete),
    ensures
        no_deletes(acts.push(a)),
{
    assert forall|i: int| 0 <= i < acts.push(a).len() implies !(#[trigger] acts.push(a)[i] is Delete) by {
        if i < acts.len() {
            assert(acts.push(a)[i] == acts[i]);
        }
    }
}

proof fn lemma_conflict_no_deletes(
    st: (Seq<ActionView>, Seq<ConflictView>),
    path: Seq<char>,
    key: Seq<char>,
    policy: ConflictPolicy,
    env: Env,
)
    requires
        no_deletes(st.0),
    ensures
        no_deletes(content_conflict(st, path, key, policy, env).0),
{
    match policy {
        ConflictPolicy::NewerWins => {
            let loser = crate::reconcile::other_side(crate::reconcile::newer_side(key, env));
            lemma_with_parents_no_deletes(st.0, loser, path);
            lemma_push_no_deletes(
                with_parents(st.0, loser, path),
                ActionView::CopyFile { from: crate::reconcile::newer_side(key, env), path },
            );
        },
        ConflictPolicy::KeepBoth => {
            let renamed = st.0.push(
                ActionView::RenameConflict {
                    on: Side::Local,
                    path,
                    new_name: crate::reconcile::conflict_name(path, env.date),
                },
            );
            lemma_push_no_deletes(st.0, renamed.last());
            assert(renamed == st.0.push(renamed.last()));
            lemma_with_parents_no_deletes(renamed, Side::Local, path);
            let to_local = with_parents(renamed, Side::Local, path).push(
                ActionView::CopyFile { from: Side::Remote, path },
            );
            lemma_push_no_deletes(with_parents(renamed, Side::Local, path), to_local.last());
            lemma_with_parents_no_deletes(to_local, Side::Remote, path);
            lemma_push_no_deletes(
                with_parents(to_local, Side::Remote, path),
                ActionView::CopyFile { from: Side::Local, path },
            );
        },
    }
}

proof fn lemma_step_no_deletes(
    st: (Seq<ActionView>, Seq<ConflictView>),
    path: RelPath,
    lc: Option<Change>,
    rc: Option<Change>,
    policy: ConflictPolicy,
    env: Env,
)
    requires
        no_deletes(st.0),
        !env.delete_propagation,
    ensures
        no_deletes(bidi_step(st, path, lc, rc, policy, env).0),
{
    match (lc, rc) {
        (Some(c), None) => lemma_propagate_no_deletes(st.0, c, Side::Local, Side::Remote),
        (None, Some(c)) => lemma_propagate_no_deletes(st.0, c, Side::Remote, Side::Local),
        (Some(l), Some(r)) => {
            if l.is_edit() && r.is_edit() {
                if !crate::reconcile::same_content(path.key(), env) {
                    lemma_conflict_no_deletes(st, path@, path.key(), policy, env);
                }
            } else if l.is_edit() != r.is_edit() {
                let edited = if l.is_edit() { Side::Local } else { Side::Remote };
                lemma_with_parents_no_deletes(st.0, crate::reconcile::other_side(edited), path@);
                lemma_push_no_deletes(
                    with_parents(st.0, crate::reconcile::other_side(edited), path@),
                    ActionView::CopyFile { from: edited, path: path@ },
                );
            }
        },
        (None, None) => {},
    }
}

proof fn lemma_fold_no_deletes(
    keys: Seq<(RelPath, ())>,
    lm: Seq<(RelPath, Change)>,
    rm: Seq<(RelPath, Change)>,
    policy: ConflictPolicy,
    env: Env,
)
    requires
        !env.delete_propagation,
    ensures
        no_deletes(bidi_fold(keys, lm, rm, policy, env).0),
    decreases keys.len(),
{
    if keys.len() > 0 {
        let k = keys.last().0;
        lemma_fold_no_deletes(keys.drop_last(), lm, rm, policy, env);
        lemma_step_no_deletes(
            bidi_fold(keys.drop_last(), lm, rm, policy, env),
            k,
            lookup(lm, k.key()),
            lookup(rm, k.key()),
            policy,
            env,
        );
    }
}

/// Without delete propagation, no plan deletes anything, in any mode and
/// under any policy.
pub proof fn law_no_delete_without_propagation(
    local: Seq<Change>,
    remote: Seq<Change>,
    mode: SyncMode,
    policy: ConflictPolicy,
    env: Env,
)
    requires
        !env.delete_propagation,
    ensures
        no_deletes(plan_spec(local, remote, mode, policy, env).0),
{
    match mode {
        SyncMode::Push => lemma_unidirectional_no_deletes(local, Side::Local, Side::Remote),
        SyncMode::Pull => lemma_unidirectional_no_deletes(remote, Side::Remote, Side::Local),
        SyncMode::Bidirectional => {
            let lm = change_map(local);
            let rm = change_map(remote);
            lemma_fold_no_deletes(key_union(key_union(Seq::empty(), lm), rm), lm, rm, policy, env);
        },
    }
}

/// Reconciling no changes plans nothing, in any mode and under any policy.
pub proof fn law_empty_diff_empty_plan(mode: SyncMode, policy: ConflictPolicy, env: Env)
    ensures
        plan_spec(Seq::empty(), Seq::empty(), mode, policy, env).0.len() == 0,
        plan_spec(Seq::empty(), Seq::empty(), mode, policy, env).1.len() == 0,
{
    let e: Seq<Change> = Seq::empty();
    assert(change_map(e) == Seq::<(RelPath, Change)>::empty());
    let k0: Seq<(RelPath, ())> = Seq::empty();
    assert(key_union(k0, change_map(e)) == k0);
    assert(key_union(key_union(k0, change_map(e)), change_map(e)) == k0);
}


/// Some change of `cs` is at key `k`.
pub open spec fn changed_at(cs: Seq<Change>, k: Seq<char>) -> bool {
    exists|i: int| 0 <= i < cs.len() && (#[trigger] cs[i]).spec_path().key() == k
}

/// The map of changes by path holds a key exactly where some change is, and
/// what it holds there is one of the changes, at that key.
pub proof fn lemma_change_map(cs: Seq<Change>)
    ensures
        sorted_entries(change_map(cs)),
        forall|k: Seq<char>| #[trigger] has_key(change_map(cs), k) <==> changed_at(cs, k),
        forall|k: Seq<char>| #[trigger] has_key(change_map(cs), k) ==> {
            let c = lookup(change_map(cs), k).unwrap();
            &&& c.spec_path().key() == k
            &&& exists|i: int| 0 <= i < cs.len() && #[trigger] cs[i] == c
        },
    decreases cs.len(),
{
    if cs.len() > 0 {
        let prev = cs.drop_last();
        let c = cs.last();
        lemma_change_map(prev);
        let m0 = change_map(prev);
        lemma_insert_sorted(m0, c.spec_path(), c);
        let m = change_map(cs);
        assert(m == insert_entry(m0, c.spec_path(), c));
        assert(cs[cs.len() - 1] == c);
        assert forall|k: Seq<char>| #[trigger] has_key(m, k) <==> changed_at(cs, k) by {
            if k == c.spec_path().key() {
                assert(cs[cs.len() - 1].spec_path().key() == k);
            } else {
                if changed_at(cs, k) {
                    let i = choose|i: int| 0 <= i < cs.len() && (#[trigger] cs[i]).spec_path().key() == k;
                    assert(prev[i] == cs[i]);
                    assert(changed_at(prev, k));
                }
                if changed_at(prev, k) {
                    let i = choose|i: int| 0 <= i < prev.len() && (#[trigger] prev[i]).spec_path().key() == k;
                    assert(prev[i] == cs[i]);
                }
            }
        }
        assert forall|k: Seq<char>| #[trigger] has_key(m, k) implies {
            let v = lookup(m, k).unwrap();
            &&& v.spec_path().key() == k
            &&& exists|i: int| 0 <= i < cs.len() && #[trigger] cs[i] == v
        } by {
            if k != c.spec_path().key() {
                assert(has_key(m0, k));
                let v = lookup(m0, k).unwrap();
                let i = choose|i: int| 0 <= i < prev.len() && #[trigger] prev[i] == v;
                assert(prev[i] == cs[i]);
            }
        }
    } else {
        assert forall|k: Seq<char>| #[trigger] has_key(change_map(cs), k) <==> changed_at(cs, k) by {}
    }
}


proof fn lemma_fold_no_conflicts(
    keys: Seq<(RelPath, ())>,
    lm: Seq<(RelPath, Change)>,
    rm: Seq<(RelPath, Change)>,
    policy: ConflictPolicy,
    env: Env,
)
    requires
        forall|k: Seq<char>| !(#[trigger] has_key(lm, k) && has_key(rm, k)),
    ensures
        bidi_fold(keys, lm, rm, policy, env).1.len() == 0,
    decreases keys.len(),
{
    if keys.len() > 0 {
        let k = keys.last().0;
        lemma_fold_no_conflicts(keys.drop_last(), lm, rm, policy, env);
        assert(!(has_key(lm, k.key()) && has_key(rm, k.key())));
    }
}

/// When no path is changed on both sides, bidirectional reconciliation
/// reports no conflict (and the one-way modes never do).
pub proof fn law_disjoint_changes_no_conflicts(
    local: Seq<Change>,
    remote: Seq<Change>,
    mode: SyncMode,
    policy: ConflictPolicy,
    env: Env,
)
    requires
        forall|i: int, j: int|
            0 <= i < local.len() && 0 <= j < remote.len() ==> (#[trigger] local[i]).spec_path().key()
                != (#[trigger] remote[j]).spec_path().key(),
    ensures
        plan_spec(local, remote, mode, policy, env).1.len() == 0,
{
    if mode == SyncMode::Bidirectional {
        let lm = change_map(local);
        let rm = change_map(remote);
        lemma_change_map(local);
        lemma_change_map(remote);
        assert forall|k: Seq<char>| !(#[trigger] has_key(lm, k) && has_key(rm, k)) by {
            if has_key(lm, k) && has_key(rm, k) {
                assert(changed_at(local, k));
                assert(changed_at(remote, k));
                let i = choose|i: int| 0 <= i < local.len() && (#[trigger] local[i]).spec_path().key() == k;
                let j = choose|j: int| 0 <= j < remote.len() && (#[trigger] remote[j]).spec_path().key() == k;
                assert(local[i].spec_path().key() != remote[j].spec_path().key());
            }
        }
        lemma_fold_no_conflicts(key_union(key_union(Seq::empty(), lm), rm), lm, rm, policy, env);
    }
}


/// Some entry of `m` has key `k`.
pub open spec fn keyed_in<V>(m: Seq<(RelPath, V)>, k: Seq<char>) -> bool {
    exists|i: int| 0 <= i < m.len() && (#[trigger] m[i]).0.key() == k
}

pub proof fn lemma_has_key_keyed_in<V>(m: Seq<(RelPath, V)>, k: Seq<char>)
    ensures
        has_key(m, k) <==> keyed_in(m, k),
{
    crate::pathmap::lemma_index_of_key_bounds(m, k);
    if has_key(m, k) {
        let i = crate::pathmap::index_of_key(m, k);
        assert(m[i].0.key() == k);
    }
}

/// The keys of a union are those of its two parts.
pub proof fn lemma_key_union<V>(base: Seq<(RelPath, ())>, m: Seq<(RelPath, V)>)
    requires
        sorted_entries(base),
    ensures
        sorted_entries(key_union(base, m)),
        forall|k: Seq<char>| #[trigger] has_key(key_union(base, m), k) <==> (has_key(base, k) || keyed_in(m, k)),
    decreases m.len(),
{
    if m.len() > 0 {
        let prev = m.drop_last();
        lemma_key_union(base, prev);
        let u0 = key_union(base, prev);
        lemma_insert_sorted(u0, m.last().0, ());
        assert forall|k: Seq<char>| #[trigger] has_key(key_union(base, m), k) <==> (has_key(base, k) || keyed_in(m, k)) by {
            if keyed_in(prev, k) {
                let i = choose|i: int| 0 <= i < prev.len() && (#[trigger] prev[i]).0.key() == k;
                assert(m[i] == prev[i]);
            }
            if keyed_in(m, k) {
                let i = choose|i: int| 0 <= i < m.len() && (#[trigger] m[i]).0.key() == k;
                if i < m.len() - 1 {
                    assert(m[i] == prev[i]);
                }
            }
        }
    } else {
        assert forall|k: Seq<char>| #[trigger] has_key(key_union(base, m), k) <==> (has_key(base, k) || keyed_in(m, k)) by {}
    }
}

/// Both sides changed `k` by an edit to the same content.
pub open spec fn converged_at(
    lm: Seq<(RelPath, Change)>,
    rm: Seq<(RelPath, Change)>,
    k: Seq<char>,
    env: Env,
) -> bool {
    &&& has_key(lm, k)
    &&& has_key(rm, k)
    &&& lookup(lm, k).unwrap().is_edit()
    &&& lookup(rm, k).unwrap().is_edit()
    &&& crate::reconcile::same_content(k, env)
}

proof fn lemma_fold_converged(
    keys: Seq<(RelPath, ())>,
    lm: Seq<(RelPath, Change)>,
    rm: Seq<(RelPath, Change)>,
    policy: ConflictPolicy,
    env: Env,
)
    requires
        forall|i: int| 0 <= i < keys.len() ==> converged_at(lm, rm, (#[trigger] keys[i]).0.key(), env),
    ensures
        bidi_fold(keys, lm, rm, policy, env).0.len() == 0,
        bidi_fold(keys, lm, rm, policy, env).1.len() == 0,
    decreases keys.len(),
{
    if keys.len() > 0 {
        let k = keys.last().0;
        assert(keys.last() == keys[keys.len() - 1]);
        assert(converged_at(lm, rm, k.key(), env));
        assert forall|i: int| 0 <= i < keys.drop_last().len() implies converged_at(
            lm,
            rm,
            (#[trigger] keys.drop_last()[i]).0.key(),
            env,
        ) by {
            assert(keys.drop_last()[i] == keys[i]);
        }
        lemma_fold_converged(keys.drop_last(), lm, rm, policy, env);
    }
}

/// When both sides changed the same paths, every change an edit, and each
/// of those paths holds the same content on both sides, bidirectional
/// reconciliation plans nothing and reports no conflict.
pub proof fn law_converged_changes_plan_nothing(
    local: Seq<Change>,
    remote: Seq<Change>,
    policy: ConflictPolicy,
    env: Env,
)
    requires
        forall|i: int| 0 <= i < local.len() ==> (#[trigger] local[i]).is_edit(),
        forall|i: int| 0 <= i < remote.len() ==> (#[trigger] remote[i]).is_edit(),
        forall|k: Seq<char>| #[trigger] changed_at(local, k) <==> changed_at(remote, k),
        forall|i: int| 0 <= i < local.len() ==> crate::reconcile::same_content((#[trigger] local[i]).spec_path().key(), env),
    ensures
        plan_spec(local, remote, SyncMode::Bidirectional, policy, env).0.len() == 0,
        plan_spec(local, remote, SyncMode::Bidirectional, policy, env).1.len() == 0,
{
    let lm = change_map(local);
    let rm = change_map(remote);
    lemma_change_map(local);
    lemma_change_map(remote);
    let e: Seq<(RelPath, ())> = Seq::empty();
    lemma_key_union(e, lm);
    lemma_key_union(key_union(e, lm), rm);
    let keys = key_union(key_union(e, lm), rm);
    assert forall|i: int| 0 <= i < keys.len() implies converged_at(lm, rm, (#[trigger] keys[i]).0.key(), env) by {
        let k = keys[i].0.key();
        crate::pathmap::lemma_sorted_index(keys, i, k);
        assert(has_key(keys, k));
        lemma_has_key_keyed_in(lm, k);
        lemma_has_key_keyed_in(rm, k);
        assert(!has_key(e, k));
        assert(has_key(lm, k) || has_key(rm, k));
        assert(changed_at(local, k) || changed_at(remote, k));
        assert(changed_at(local, k) && changed_at(remote, k));
        assert(has_key(lm, k) && has_key(rm, k));
        let lc = lookup(lm, k).unwrap();
        let rc = lookup(rm, k).unwrap();
        let a = choose|a: int| 0 <= a < local.len() && #[trigger] local[a] == lc;
        let b = choose|b: int| 0 <= b < remote.len() && #[trigger] remote[b] == rc;
        assert(local[a].is_edit());
        assert(remote[b].is_edit());
        assert(crate::reconcile::same_content(local[a].spec_path().key(), env));
    }
    lemma_fold_converged(keys, lm, rm, policy, env);
}


/// The scanned entries of side `s`.
pub open spec fn entries_on(env: Env, s: Side) -> Seq<(RelPath, FileEntry)> {
    match s {
        Side::Local => env.local,
        Side::Remote => env.remote,
    }
}

/// A copy names a path that its source side has an entry for.
pub open spec fn copy_backed(a: ActionView, env: Env) -> bool {
    match a {
        ActionView::CopyFile { from, path } => has_key(entries_on(env, from), normalize_text(path)),
        _ => true,
    }
}

pub open spec fn copies_backed(acts: Seq<ActionView>, env: Env) -> bool {
    forall|i: int| 0 <= i < acts.len() ==> copy_backed(#[trigger] acts[i], env)
}

/// Every edit of `cs` is at a path that `entries` has an entry for.
pub open spec fn edits_backed(cs: Seq<Change>, entries: Seq<(RelPath, FileEntry)>) -> bool {
    forall|i: int| 0 <= i < cs.len() && (#[trigger] cs[i]).is_edit() ==> has_key(entries, cs[i].spec_path().key())
}

proof fn lemma_with_parents_backed(acts: Seq<ActionView>, on: Side, d: Seq<char>, env: Env)
    requires
        copies_backed(acts, env),
    ensures
        copies_backed(with_parents(acts, on, d), env),
{
    let r = with_parents(acts, on, d);
    lemma_with_parents_extends(acts, on, d);
    assert forall|i: int| 0 <= i < r.len() implies copy_backed(#[trigger] r[i], env) by {
        if i < acts.len() {
            assert(r[i] == acts[i]);
        } else {
            assert(dir_on(r[i], on));
        }
    }
}

proof fn lemma_push_backed(acts: Seq<ActionView>, a: ActionView, env: Env)
    requires
        copies_backed(acts, env),
        copy_backed(a, env),
    ensures
        copies_backed(acts.push(a), env),
{
    assert forall|i: int| 0 <= i < acts.push(a).len() implies copy_backed(#[trigger] acts.push(a)[i], env) by {
        if i < acts.len() {
            assert(acts.push(a)[i] == acts[i]);
        }
    }
}

proof fn lemma_propagate_backed(acts: Seq<ActionView>, c: Change, from: Side, to: Side, dp: bool, env: Env)
    requires
        copies_backed(acts, env),
        c.is_edit() ==> has_key(entries_on(env, from), c.spec_path().key()),
    ensures
        copies_backed(propagate(acts, c, from, to, dp), env),
{
    match c {
        Change::Deleted(_) => {
            if dp {
                lemma_push_backed(acts, ActionView::Delete { on: to, path: c.spec_path()@ }, env);
            }
        },
        _ => {
            lemma_with_parents_backed(acts, to, c.spec_path()@, env);
            lemma_push_backed(
                with_parents(acts, to, c.spec_path()@),
                ActionView::CopyFile { from, path: c.spec_path()@ },
                env,
            );
        },
    }
}

proof fn lemma_unidirectional_backed(changes: Seq<Change>, from: Side, to: Side, dp: bool, env: Env)
    requires
        edits_backed(changes, entries_on(env, from)),
    ensures
        copies_backed(unidirectional(changes, from, to, dp), env),
    decreases changes.len(),
{
    if changes.len() > 0 {
        let prev = changes.drop_last();
        assert forall|i: int| 0 <= i < prev.len() && (#[trigger] prev[i]).is_edit() implies has_key(
            entries_on(env, from),
            prev[i].spec_path().key(),
        ) by {
            assert(prev[i] == changes[i]);
        }
        lemma_unidirectional_backed(prev, from, to, dp, env);
        assert(changes.last() == changes[changes.len() - 1]);
        lemma_propagate_backed(unidirectional(prev, from, to, dp), changes.last(), from, to, dp, env);
    }
}

proof fn lemma_conflict_backed(
    st: (Seq<ActionView>, Seq<ConflictView>),
    path: Seq<char>,
    policy: ConflictPolicy,
    env: Env,
)
    requires
        copies_backed(st.0, env),
        has_key(env.local, normalize_text(path)),
        has_key(env.remote, normalize_text(path)),
    ensures
        copies_backed(content_conflict(st, path, normalize_text(path), policy, env).0, env),
{
    let key = normalize_text(path);
    match policy {
        ConflictPolicy::NewerWins => {
            let winner = crate::reconcile::newer_side(key, env);
            let loser = crate::reconcile::other_side(winner);
            lemma_with_parents_backed(st.0, loser, path, env);
            lemma_push_backed(with_parents(st.0, loser, path), ActionView::CopyFile { from: winner, path }, env);
        },
        ConflictPolicy::KeepBoth => {
            let renamed = st.0.push(
                ActionView::RenameConflict {
                    on: Side::Local,
                    path,
                    new_name: crate::reconcile::conflict_name(path, env.date),
                },
            );
            lemma_push_backed(st.0, renamed.last(), env);
            assert(renamed == st.0.push(renamed.last()));
            lemma_with_parents_backed(renamed, Side::Local, path, env);
            let to_local = with_parents(renamed, Side::Local, path).push(
                ActionView::CopyFile { from: Side::Remote, path },
            );
            lemma_push_backed(with_parents(renamed, Side::Local, path), to_local.last(), env);
            lemma_with_parents_backed(to_local, Side::Remote, path, env);
            lemma_push_backed(
                with_parents(to_local, Side::Remote, path),
                ActionView::CopyFile { from: Side::Local, path },
                env,
            );
        },
    }
}

proof fn lemma_fold_backed(
    keys: Seq<(RelPath, ())>,
    local: Seq<Change>,
    remote: Seq<Change>,
    policy: ConflictPolicy,
    env: Env,
)
    requires
        edits_backed(local, env.local),
        edits_backed(remote, env.remote),
    ensures
        copies_backed(bidi_fold(keys, change_map(local), change_map(remote), policy, env).0, env),
    decreases keys.len(),
{
    let lm = change_map(local);
    let rm = change_map(remote);
    if keys.len() > 0 {
        let k = keys.last().0;
        let key = k.key();
        lemma_fold_backed(keys.drop_last(), local, remote, policy, env);
        let st = bidi_fold(keys.drop_last(), lm, rm, policy, env);
        lemma_change_map(local);
        lemma_change_map(remote);
        // What each side changed at this key is an element of its changes, at this key.
        if has_key(lm, key) {
            let c = lookup(lm, key).unwrap();
            let i = choose|i: int| 0 <= i < local.len() && #[trigger] local[i] == c;
            assert(c.is_edit() ==> has_key(env.local, key));
        }
        if has_key(rm, key) {
            let c = lookup(rm, key).unwrap();
            let i = choose|i: int| 0 <= i < remote.len() && #[trigger] remote[i] == c;
            assert(c.is_edit() ==> has_key(env.remote, key));
        }
        match (lookup(lm, key), lookup(rm, key)) {
            (Some(c), None) => lemma_propagate_backed(st.0, c, Side::Local, Side::Remote, env.delete_propagation, env),
            (None, Some(c)) => lemma_propagate_backed(st.0, c, Side::Remote, Side::Local, env.delete_propagation, env),
            (Some(l), Some(r)) => {
                if l.is_edit() && r.is_edit() {
                    if !crate::reconcile::same_content(key, env) {
                        lemma_conflict_backed(st, k@, policy, env);
                    }
                } else if l.is_edit() != r.is_edit() {
                    let edited = if l.is_edit() { Side::Local } else { Side::Remote };
                    lemma_with_parents_backed(st.0, crate::reconcile::other_side(edited), k@, env);
                    lemma_push_backed(
                        with_parents(st.0, crate::reconcile::other_side(edited), k@),
                        ActionView::CopyFile { from: edited, path: k@ },
                        env,
                    );
                }
            },
            (None, None) => {},
        }
    }
}

/// When every edit on a side is at a path that side has an entry for, every
/// copy in the plan names a path that its source side has an entry for, in
/// any mode and under any policy.
pub proof fn law_copies_come_from_existing_entries(
    local: Seq<Change>,
    remote: Seq<Change>,
    mode: SyncMode,
    policy: ConflictPolicy,
    env: Env,
)
    requires
        edits_backed(local, env.local),
        edits_backed(remote, env.remote),
    ensures
        copies_backed(plan_spec(local, remote, mode, policy, env).0, env),
{
    match mode {
        SyncMode::Push => lemma_unidirectional_backed(local, Side::Local, Side::Remote, env.delete_propagation, env),
        SyncMode::Pull => lemma_unidirectional_backed(remote, Side::Remote, Side::Local, env.delete_propagation, env),
        SyncMode::Bidirectional => {
            let lm = change_map(local);
            let rm = change_map(remote);
            lemma_fold_backed(key_union(key_union(Seq::empty(), lm), rm), local, remote, policy, env);
        },
    }
}


/// Some change of `cs` is an edit at key `k`.
pub open spec fn edited_at(cs: Seq<Change>, k: Seq<char>) -> bool {
    exists|i: int| 0 <= i < cs.len() && (#[trigger] cs[i]).is_edit() && cs[i].spec_path().key() == k
}

/// A copy carries a file that its source side edited.
pub open spec fn copy_of_edit(a: ActionView, local: Seq<Change>, remote: Seq<Change>) -> bool {
    match a {
        ActionView::CopyFile { from, path } => edited_at(
            if from == Side::Local {
                local
            } else {
                remote
            },
            normalize_text(path),
        ),
        _ => true,
    }
}

pub open spec fn copies_of_edits(acts: Seq<ActionView>, local: Seq<Change>, remote: Seq<Change>) -> bool {
    forall|i: int| 0 <= i < acts.len() ==> copy_of_edit(#[trigger] acts[i], local, remote)
}

proof fn lemma_with_parents_edits(acts: Seq<ActionView>, on: Side, d: Seq<char>, local: Seq<Change>, remote: Seq<Change>)
    requires
        copies_of_edits(acts, local, remote),
    ensures
        copies_of_edits(with_parents(acts, on, d), local, remote),
{
    let r = with_parents(acts, on, d);
    lemma_with_parents_extends(acts, on, d);
    assert forall|i: int| 0 <= i < r.len() implies copy_of_edit(#[trigger] r[i], local, remote) by {
        if i < acts.len() {
            assert(r[i] == acts[i]);
        } else {
            assert(dir_on(r[i], on));
        }
    }
}

proof fn lemma_push_edits(acts: Seq<ActionView>, a: ActionView, local: Seq<Change>, remote: Seq<Change>)
    requires
        copies_of_edits(acts, local, remote),
        copy_of_edit(a, local, remote),
    ensures
        copies_of_edits(acts.push(a), local, remote),
{
    assert forall|i: int| 0 <= i < acts.push(a).len() implies copy_of_edit(#[trigger] acts.push(a)[i], local, remote) by {
        if i < acts.len() {
            assert(acts.push(a)[i] == acts[i]);
        }
    }
}

proof fn lemma_propagate_edits(
    acts: Seq<ActionView>,
    c: Change,
    from: Side,
    to: Side,
    dp: bool,
    local: Seq<Change>,
    remote: Seq<Change>,
)
    requires
        copies_of_edits(acts, local, remote),
        c.is_edit() ==> edited_at(if from == Side::Local { local } else { remote }, c.spec_path().key()),
    ensures
        copies_of_edits(propagate(acts, c, from, to, dp), local, remote),
{
    match c {
        Change::Deleted(_) => {
            if dp {
                lemma_push_edits(acts, ActionView::Delete { on: to, path: c.spec_path()@ }, local, remote);
            }
        },
        _ => {
            lemma_with_parents_edits(acts, to, c.spec_path()@, local, remote);
            lemma_push_edits(
                with_parents(acts, to, c.spec_path()@),
                ActionView::CopyFile { from, path: c.spec_path()@ },
                local,
                remote,
            );
        },
    }
}

proof fn lemma_unidirectional_edits(
    changes: Seq<Change>,
    from: Side,
    to: Side,
    dp: bool,
    local: Seq<Change>,
    remote: Seq<Change>,
)
    requires
        changes == (if from == Side::Local { local } else { remote }),
    ensures
        copies_of_edits(unidirectional(changes.take(changes.len() as int), from, to, dp), local, remote),
{
    lemma_unidirectional_edits_prefix(changes, changes.len() as int, from, to, dp, local, remote);
}

proof fn lemma_unidirectional_edits_prefix(
    changes: Seq<Change>,
    n: int,
    from: Side,
    to: Side,
    dp: bool,
    local: Seq<Change>,
    remote: Seq<Change>,
)
    requires
        0 <= n <= changes.len(),
        changes == (if from == Side::Local { local } else { remote }),
    ensures
        copies_of_edits(unidirectional(changes.take(n), from, to, dp), local, remote),
    decreases n,
{
    if n > 0 {
        lemma_unidirectional_edits_prefix(changes, n - 1, from, to, dp, local, remote);
        assert(changes.take(n).drop_last() =~= changes.take(n - 1));
        let c = changes.take(n).last();
        assert(c == changes[n - 1]);
        if c.is_edit() {
            assert(edited_at(changes, c.spec_path().key()));
        }
        lemma_propagate_edits(unidirectional(changes.take(n - 1), from, to, dp), c, from, to, dp, local, remote);
    }
}

proof fn lemma_fold_edits(
    keys: Seq<(RelPath, ())>,
    local: Seq<Change>,
    remote: Seq<Change>,
    policy: ConflictPolicy,
    env: Env,
)
    ensures
        copies_of_edits(bidi_fold(keys, change_map(local), change_map(remote), policy, env).0, local, remote),
    decreases keys.len(),
{
    let lm = change_map(local);
    let rm = change_map(remote);
    if keys.len() > 0 {
        let k = keys.last().0;
        let key = k.key();
        lemma_fold_edits(keys.drop_last(), local, remote, policy, env);
        let st = bidi_fold(keys.drop_last(), lm, rm, policy, env);
        lemma_change_map(local);
        lemma_change_map(remote);
        if has_key(lm, key) {
            let c = lookup(lm, key).unwrap();
            let i = choose|i: int| 0 <= i < local.len() && #[trigger] local[i] == c;
            assert(c.is_edit() ==> edited_at(local, key));
        }
        if has_key(rm, key) {
            let c = lookup(rm, key).unwrap();
            let i = choose|i: int| 0 <= i < remote.len() && #[trigger] remote[i] == c;
            assert(c.is_edit() ==> edited_at(remote, key));
        }
        match (lookup(lm, key), lookup(rm, key)) {
            (Some(c), None) => lemma_propagate_edits(st.0, c, Side::Local, Side::Remote, env.delete_propagation, local, remote),
            (None, Some(c)) => lemma_propagate_edits(st.0, c, Side::Remote, Side::Local, env.delete_propagation, local, remote),
            (Some(l), Some(r)) => {
                if l.is_edit() && r.is_edit() {
                    if !crate::reconcile::same_content(key, env) {
                        lemma_conflict_edits(st, k@, policy, env, local, remote);
                    }
                } else if l.is_edit() != r.is_edit() {
                    let edited = if l.is_edit() { Side::Local } else { Side::Remote };
                    lemma_with_parents_edits(st.0, crate::reconcile::other_side(edited), k@, local, remote);
                    lemma_push_edits(
                        with_parents(st.0, crate::reconcile::other_side(edited), k@),
                        ActionView::CopyFile { from: edited, path: k@ },
                        local,
                        remote,
                    );
                }
            },
            (None, None) => {},
        }
    }
}

proof fn lemma_conflict_edits(
    st: (Seq<ActionView>, Seq<ConflictView>),
    path: Seq<char>,
    policy: ConflictPolicy,
    env: Env,
    local: Seq<Change>,
    remote: Seq<Change>,
)
    requires
        copies_of_edits(st.0, local, remote),
        edited_at(local, normalize_text(path)),
        edited_at(remote, normalize_text(path)),
    ensures
        copies_of_edits(content_conflict(st, path, normalize_text(path), policy, env).0, local, remote),
{
    let key = normalize_text(path);
    match policy {
        ConflictPolicy::NewerWins => {
            let winner = crate::reconcile::newer_side(key, env);
            let loser = crate::reconcile::other_side(winner);
            lemma_with_parents_edits(st.0, loser, path, local, remote);
            lemma_push_edits(with_parents(st.0, loser, path), ActionView::CopyFile { from: winner, path }, local, remote);
        },
        ConflictPolicy::KeepBoth => {
            let renamed = st.0.push(
                ActionView::RenameConflict {
                    on: Side::Local,
                    path,
                    new_name: crate::reconcile::conflict_name(path, env.date),
                },
            );
            lemma_push_edits(st.0, renamed.last(), local, remote);
            assert(renamed == st.0.push(renamed.last()));
            lemma_with_parents_edits(renamed, Side::Local, path, local, remote);
            let to_local = with_parents(renamed, Side::Local, path).push(
                ActionView::CopyFile { from: Side::Remote, path },
            );
            lemma_push_edits(with_parents(renamed, Side::Local, path), to_local.last(), local, remote);
            lemma_with_parents_edits(to_local, Side::Remote, path, local, remote);
            lemma_push_edits(
                with_parents(to_local, Side::Remote, path),
                ActionView::CopyFile { from: Side::Local, path },
                local,
                remote,
            );
        },
    }
}

/// Only changed files are transferred: every copy in a plan carries a file
/// that its source side created or modified, in any mode and under any
/// policy.
pub proof fn law_only_changed_files_are_copied(
    local: Seq<Change>,
    remote: Seq<Change>,
    mode: SyncMode,
    policy: ConflictPolicy,
    env: Env,
)
    ensures
        copies_of_edits(plan_spec(local, remote, mode, policy, env).0, local, remote),
{
    match mode {
        SyncMode::Push => {
            lemma_unidirectional_edits(local, Side::Local, Side::Remote, env.delete_propagation, local, remote);
            assert(local.take(local.len() as int) =~= local);
        },
        SyncMode::Pull => {
            lemma_unidirectional_edits(remote, Side::Remote, Side::Local, env.delete_propagation, local, remote);
            assert(remote.take(remote.len() as int) =~= remote);
        },
        SyncMode::Bidirectional => {
            let lm = change_map(local);
            let rm = change_map(remote);
            lemma_fold_edits(key_union(key_union(Seq::empty(), lm), rm), local, remote, policy, env);
        },
    }
}


/// The action with its sides swapped.
pub open spec fn mirror_action(a: ActionView) -> ActionView {
    match a {
        ActionView::CopyFile { from, path } => ActionView::CopyFile { from: crate::reconcile::other_side(from), path },
        ActionView::CreateDir { on, path } => ActionView::CreateDir { on: crate::reconcile::other_side(on), path },
        ActionView::Delete { on, path } => ActionView::Delete { on: crate::reconcile::other_side(on), path },
        ActionView::RenameConflict { on, path, new_name } => ActionView::RenameConflict {
            on: crate::reconcile::other_side(on),
            path,
            new_name,
        },
    }
}

/// The actions with their sides swapped.
pub open spec fn mirror_actions(acts: Seq<ActionView>) -> Seq<ActionView> {
    acts.map_values(|a: ActionView| mirror_action(a))
}

proof fn lemma_mirror_push(acts: Seq<ActionView>, a: ActionView)
    ensures
        mirror_actions(acts.push(a)) == mirror_actions(acts).push(mirror_action(a)),
{
    assert(mirror_actions(acts.push(a)) =~= mirror_actions(acts).push(mirror_action(a)));
}

proof fn lemma_mirror_add_dir(acts: Seq<ActionView>, on: Side, p: Seq<char>)
    ensures
        add_dir(mirror_actions(acts), crate::reconcile::other_side(on), p) == mirror_actions(add_dir(acts, on, p)),
{
    let a = ActionView::CreateDir { on, path: p };
    let ma = ActionView::CreateDir { on: crate::reconcile::other_side(on), path: p };
    let m = mirror_actions(acts);
    assert(mirror_action(a) == ma);
    let found = exists|i: int| 0 <= i < acts.len() && crate::reconcile::same_action(#[trigger] acts[i], a);
    let mfound = exists|i: int| 0 <= i < m.len() && crate::reconcile::same_action(#[trigger] m[i], ma);
    if found {
        let i = choose|i: int| 0 <= i < acts.len() && crate::reconcile::same_action(#[trigger] acts[i], a);
        assert(m[i] == mirror_action(acts[i]));
        assert(crate::reconcile::same_action(m[i], ma));
    }
    if mfound {
        let i = choose|i: int| 0 <= i < m.len() && crate::reconcile::same_action(#[trigger] m[i], ma);
        assert(m[i] == mirror_action(acts[i]));
        assert(crate::reconcile::same_action(acts[i], a));
    }
    if !found {
        lemma_mirror_push(acts, a);
    }
}

proof fn lemma_mirror_add_dirs(acts: Seq<ActionView>, on: Side, ps: Seq<Seq<char>>)
    ensures
        add_dirs(mirror_actions(acts), crate::reconcile::other_side(on), ps) == mirror_actions(add_dirs(acts, on, ps)),
    decreases ps.len(),
{
    if ps.len() > 0 {
        lemma_mirror_add_dirs(acts, on, ps.drop_last());
        lemma_mirror_add_dir(add_dirs(acts, on, ps.drop_last()), on, ps.last());
    }
}

proof fn lemma_mirror_propagate(acts: Seq<ActionView>, c: Change, from: Side, to: Side, dp: bool)
    ensures
        propagate(mirror_actions(acts), c, crate::reconcile::other_side(from), crate::reconcile::other_side(to), dp)
            == mirror_actions(propagate(acts, c, from, to, dp)),
{
    match c {
        Change::Deleted(p) => {
            if dp {
                lemma_mirror_push(acts, ActionView::Delete { on: to, path: p@ });
            }
        },
        _ => {
            let path = c.spec_path()@;
            lemma_mirror_add_dirs(acts, to, crate::reconcile::lineage(path).reverse());
            lemma_mirror_push(with_parents(acts, to, path), ActionView::CopyFile { from, path });
        },
    }
}

/// The keys of a union of maps with unique keys, none of them in the base,
/// are the base's entries and the maps' keys, as stored in the maps.
proof fn lemma_key_union_entries<V>(base: Seq<(RelPath, ())>, m: Seq<(RelPath, V)>)
    requires
        sorted_entries(base),
        sorted_entries(m),
        forall|j: int| 0 <= j < m.len() ==> !has_key(base, (#[trigger] m[j]).0.key()),
    ensures
        forall|x: (RelPath, ())| #[trigger] key_union(base, m).contains(x) <==> (base.contains(x) || exists|j: int|
            0 <= j < m.len() && (#[trigger] m[j]).0 == x.0),
    decreases m.len(),
{
    if m.len() > 0 {
        let prev = m.drop_last();
        crate::pathmap::lemma_sorted_drop_last(m);
        assert forall|j: int| 0 <= j < prev.len() implies !has_key(base, (#[trigger] prev[j]).0.key()) by {
            assert(prev[j] == m[j]);
        }
        lemma_key_union_entries(base, prev);
        lemma_key_union(base, prev);
        let u0 = key_union(base, prev);
        let k = m.last().0.key();
        assert(!has_key(base, m[m.len() - 1].0.key()));
        assert(!keyed_in(prev, k)) by {
            if keyed_in(prev, k) {
                let j = choose|j: int| 0 <= j < prev.len() && (#[trigger] prev[j]).0.key() == k;
                assert(prev[j] == m[j]);
                assert(seq_lt(m[j].0.key(), m[m.len() - 1].0.key()));
                lemma_seq_lt_irreflexive(k);
            }
        }
        assert(!has_key(u0, k));
        crate::pathmap::lemma_index_of_key_bounds(u0, k);
        let p = crate::pathmap::lower_bound(u0, k);
        crate::pathmap::lemma_lower_bound(u0, k);
        let u = key_union(base, m);
        assert(u == u0.insert(p, (m.last().0, ())));
        assert forall|x: (RelPath, ())| #[trigger] u.contains(x) <==> (base.contains(x) || exists|j: int|
            0 <= j < m.len() && (#[trigger] m[j]).0 == x.0) by {
            if u.contains(x) {
                let a = choose|a: int| 0 <= a < u.len() && u[a] == x;
                if a < p {
                    assert(u0[a] == x);
                    assert(u0.contains(x));
                } else if a == p {
                    assert(m[m.len() - 1].0 == x.0);
                } else {
                    assert(u0[a - 1] == x);
                    assert(u0.contains(x));
                }
                if u0.contains(x) && !base.contains(x) {
                    let j = choose|j: int| 0 <= j < prev.len() && (#[trigger] prev[j]).0 == x.0;
                    assert(m[j] == prev[j]);
                }
            }
            if base.contains(x) {
                assert(u0.contains(x));
                let a = choose|a: int| 0 <= a < u0.len() && u0[a] == x;
                if a < p {
                    assert(u[a] == x);
                } else {
                    assert(u[a + 1] == x);
                }
            }
            if exists|j: int| 0 <= j < m.len() && (#[trigger] m[j]).0 == x.0 {
                let j = choose|j: int| 0 <= j < m.len() && (#[trigger] m[j]).0 == x.0;
                if j == m.len() - 1 {
                    assert(u[p] == (m.last().0, ()));
                    assert(x == (m.last().0, ()));
                } else {
                    assert(prev[j] == m[j]);
                    assert(u0.contains(x));
                    let a = choose|a: int| 0 <= a < u0.len() && u0[a] == x;
                    if a < p {
                        assert(u[a] == x);
                    } else {
                        assert(u[a + 1] == x);
                    }
                }
            }
        }
    } else {
        assert forall|x: (RelPath, ())| #[trigger] key_union(base, m).contains(x) <==> (base.contains(x) || exists|
            j: int,
        | 0 <= j < m.len() && (#[trigger] m[j]).0 == x.0) by {}
    }
}


proof fn lemma_fold_mirror(
    keys: Seq<(RelPath, ())>,
    lm: Seq<(RelPath, Change)>,
    rm: Seq<(RelPath, Change)>,
    policy: ConflictPolicy,
    env: Env,
)
    requires
        forall|k: Seq<char>| !(#[trigger] has_key(lm, k) && has_key(rm, k)),
    ensures
        bidi_fold(keys, rm, lm, policy, env).0 == mirror_actions(bidi_fold(keys, lm, rm, policy, env).0),
        bidi_fold(keys, rm, lm, policy, env).1.len() == 0,
        bidi_fold(keys, lm, rm, policy, env).1.len() == 0,
    decreases keys.len(),
{
    if keys.len() > 0 {
        let k = keys.last().0;
        let key = k.key();
        lemma_fold_mirror(keys.drop_last(), lm, rm, policy, env);
        let st = bidi_fold(keys.drop_last(), lm, rm, policy, env);
        assert(!(has_key(lm, key) && has_key(rm, key)));
        match (lookup(lm, key), lookup(rm, key)) {
            (Some(c), None) => lemma_mirror_propagate(st.0, c, Side::Local, Side::Remote, env.delete_propagation),
            (None, Some(c)) => lemma_mirror_propagate(st.0, c, Side::Remote, Side::Local, env.delete_propagation),
            _ => {},
        }
    } else {
        assert(mirror_actions(Seq::<ActionView>::empty()) =~= Seq::<ActionView>::empty());
    }
}

/// Swapping the two sides of a diff in which no path changed on both sides
/// swaps the sides of every action of the bidirectional plan, in the same
/// order; neither plan reports a conflict.
pub proof fn law_swapping_sides_mirrors_the_plan(
    local: Seq<Change>,
    remote: Seq<Change>,
    policy: ConflictPolicy,
    env: Env,
)
    requires
        forall|i: int, j: int|
            0 <= i < local.len() && 0 <= j < remote.len() ==> (#[trigger] local[i]).spec_path().key()
                != (#[trigger] remote[j]).spec_path().key(),
    ensures
        bidirectional(remote, local, policy, env).0 == mirror_actions(bidirectional(local, remote, policy, env).0),
        bidirectional(remote, local, policy, env).1.len() == 0,
        bidirectional(local, remote, policy, env).1.len() == 0,
{
    let lm = change_map(local);
    let rm = change_map(remote);
    lemma_change_map(local);
    lemma_change_map(remote);
    assert forall|k: Seq<char>| !(#[trigger] has_key(lm, k) && has_key(rm, k)) by {
        if has_key(lm, k) && has_key(rm, k) {
            assert(changed_at(local, k));
            assert(changed_at(remote, k));
            let i = choose|i: int| 0 <= i < local.len() && (#[trigger] local[i]).spec_path().key() == k;
            let j = choose|j: int| 0 <= j < remote.len() && (#[trigger] remote[j]).spec_path().key() == k;
            assert(local[i].spec_path().key() != remote[j].spec_path().key());
        }
    }
    let e: Seq<(RelPath, ())> = Seq::empty();
    // Both orders of union hold the same entries, so they are the same sequence.
    lemma_key_union(e, lm);
    lemma_key_union(e, rm);
    let ul = key_union(e, lm);
    let ur = key_union(e, rm);
    lemma_key_union(ul, rm);
    lemma_key_union(ur, lm);
    assert forall|j: int| 0 <= j < rm.len() implies !has_key(ul, (#[trigger] rm[j]).0.key()) by {
        crate::pathmap::lemma_sorted_index(rm, j, rm[j].0.key());
        lemma_has_key_keyed_in(lm, rm[j].0.key());
    }
    assert forall|j: int| 0 <= j < lm.len() implies !has_key(ur, (#[trigger] lm[j]).0.key()) by {
        crate::pathmap::lemma_sorted_index(lm, j, lm[j].0.key());
        lemma_has_key_keyed_in(rm, lm[j].0.key());
    }
    assert forall|j: int| 0 <= j < lm.len() implies !has_key(e, (#[trigger] lm[j]).0.key()) by {}
    assert forall|j: int| 0 <= j < rm.len() implies !has_key(e, (#[trigger] rm[j]).0.key()) by {}
    lemma_key_union_entries(e, lm);
    lemma_key_union_entries(e, rm);
    lemma_key_union_entries(ul, rm);
    lemma_key_union_entries(ur, lm);
    let klr = key_union(ul, rm);
    let krl = key_union(ur, lm);
    assert forall|x: (RelPath, ())| #[trigger] klr.contains(x) <==> krl.contains(x) by {
        assert(klr.contains(x) <==> (ul.contains(x) || exists|j: int| 0 <= j < rm.len() && (#[trigger] rm[j]).0 == x.0));
        assert(krl.contains(x) <==> (ur.contains(x) || exists|j: int| 0 <= j < lm.len() && (#[trigger] lm[j]).0 == x.0));
        assert(ul.contains(x) <==> (e.contains(x) || exists|j: int| 0 <= j < lm.len() && (#[trigger] lm[j]).0 == x.0));
        assert(ur.contains(x) <==> (e.contains(x) || exists|j: int| 0 <= j < rm.len() && (#[trigger] rm[j]).0 == x.0));
    }
    crate::pathmap::lemma_sorted_same_entries(klr, krl);
    lemma_fold_mirror(klr, lm, rm, policy, env);
}

/// `a` copies, from side `from`, a path whose key is `k`.
pub open spec fn copy_at(a: ActionView, from: Side, k: Seq<char>) -> bool {
    a matches ActionView::CopyFile { from: f, path } && f == from && normalize_text(path) == k
}

/// `a` deletes, on side `on`, a path whose key is `k`.
pub open spec fn delete_at(a: ActionView, on: Side, k: Seq<char>) -> bool {
    a matches ActionView::Delete { on: o, path } && o == on && normalize_text(path) == k
}

/// Some action of `acts` copies from `from` at key `k`.
pub open spec fn copies_at(acts: Seq<ActionView>, from: Side, k: Seq<char>) -> bool {
    exists|i: int| 0 <= i < acts.len() && #[trigger] copy_at(acts[i], from, k)
}

/// Some action of `acts` deletes on `on` at key `k`.
pub open spec fn deletes_at(acts: Seq<ActionView>, on: Side, k: Seq<char>) -> bool {
    exists|i: int| 0 <= i < acts.len() && #[trigger] delete_at(acts[i], on, k)
}

/// `acts` brings the two sides together at key `k`, where the local side
/// made change `lc` and the remote side change `rc`: a change on one side
/// only is carried to the other (a deletion when deletions propagate);
/// edits on both sides with different content go from the newer side to
/// the other under newer-wins, and each way under keep-both; an edit
/// against a deletion is copied back. Nothing needs doing where neither
/// side changed, both deleted, or both hold the same content.
pub open spec fn settles(
    acts: Seq<ActionView>,
    k: Seq<char>,
    lc: Option<Change>,
    rc: Option<Change>,
    policy: ConflictPolicy,
    env: Env,
) -> bool {
    match (lc, rc) {
        (Some(c), None) => if c.is_edit() {
            copies_at(acts, Side::Local, k)
        } else {
            env.delete_propagation ==> deletes_at(acts, Side::Remote, k)
        },
        (None, Some(c)) => if c.is_edit() {
            copies_at(acts, Side::Remote, k)
        } else {
            env.delete_propagation ==> deletes_at(acts, Side::Local, k)
        },
        (Some(l), Some(r)) => if l.is_edit() && r.is_edit() {
            crate::reconcile::same_content(k, env) || match policy {
                ConflictPolicy::NewerWins => copies_at(acts, crate::reconcile::newer_side(k, env), k),
                ConflictPolicy::KeepBoth => copies_at(acts, Side::Local, k) && copies_at(acts, Side::Remote, k),
            }
        } else if !l.is_edit() && !r.is_edit() {
            true
        } else if !l.is_edit() {
            copies_at(acts, Side::Remote, k)
        } else {
            copies_at(acts, Side::Local, k)
        },
        (None, None) => true,
    }
}

/// `b` starts with all of `a`.
pub open spec fn starts_with_actions(b: Seq<ActionView>, a: Seq<ActionView>) -> bool {
    &&& a.len() <= b.len()
    &&& forall|i: int| 0 <= i < a.len() ==> b[i] == a[i]
}

proof fn lemma_settles_grows(
    a: Seq<ActionView>,
    b: Seq<ActionView>,
    k: Seq<char>,
    lc: Option<Change>,
    rc: Option<Change>,
    policy: ConflictPolicy,
    env: Env,
)
    requires
        settles(a, k, lc, rc, policy, env),
        starts_with_actions(b, a),
    ensures
        settles(b, k, lc, rc, policy, env),
{
    assert forall|from: Side| copies_at(a, from, k) implies copies_at(b, from, k) by {
        let i = choose|i: int| 0 <= i < a.len() && #[trigger] copy_at(a[i], from, k);
        assert(b[i] == a[i]);
    }
    assert forall|on: Side| deletes_at(a, on, k) implies deletes_at(b, on, k) by {
        let i = choose|i: int| 0 <= i < a.len() && #[trigger] delete_at(a[i], on, k);
        assert(b[i] == a[i]);
    }
}

proof fn lemma_pushed_copy(acts: Seq<ActionView>, from: Side, path: Seq<char>)
    ensures
        copies_at(acts.push(ActionView::CopyFile { from, path }), from, normalize_text(path)),
        starts_with_actions(acts.push(ActionView::CopyFile { from, path }), acts),
{
    let r = acts.push(ActionView::CopyFile { from, path });
    assert(copy_at(r[acts.len() as int], from, normalize_text(path)));
}

proof fn lemma_parents_then_copy(acts: Seq<ActionView>, on: Side, from: Side, path: Seq<char>)
    ensures
        copies_at(with_parents(acts, on, path).push(ActionView::CopyFile { from, path }), from, normalize_text(path)),
        starts_with_actions(with_parents(acts, on, path).push(ActionView::CopyFile { from, path }), acts),
{
    lemma_with_parents_extends(acts, on, path);
    lemma_pushed_copy(with_parents(acts, on, path), from, path);
}

proof fn lemma_step_settles(
    st: (Seq<ActionView>, Seq<ConflictView>),
    path: RelPath,
    lc: Option<Change>,
    rc: Option<Change>,
    policy: ConflictPolicy,
    env: Env,
)
    requires
        lc matches Some(c) ==> c.spec_path().key() == path.key(),
        rc matches Some(c) ==> c.spec_path().key() == path.key(),
    ensures
        settles(bidi_step(st, path, lc, rc, policy, env).0, path.key(), lc, rc, policy, env),
        starts_with_actions(bidi_step(st, path, lc, rc, policy, env).0, st.0),
{
    let k = path.key();
    let acts = st.0;
    match (lc, rc) {
        (Some(c), None) => {
            if c.is_edit() {
                lemma_parents_then_copy(acts, Side::Remote, Side::Local, c.spec_path()@);
            } else if env.delete_propagation {
                let r = acts.push(ActionView::Delete { on: Side::Remote, path: c.spec_path()@ });
                assert(delete_at(r[acts.len() as int], Side::Remote, k));
            }
        },
        (None, Some(c)) => {
            if c.is_edit() {
                lemma_parents_then_copy(acts, Side::Local, Side::Remote, c.spec_path()@);
            } else if env.delete_propagation {
                let r = acts.push(ActionView::Delete { on: Side::Local, path: c.spec_path()@ });
                assert(delete_at(r[acts.len() as int], Side::Local, k));
            }
        },
        (Some(l), Some(r)) => {
            if l.is_edit() && r.is_edit() {
                if !crate::reconcile::same_content(k, env) {
                    match policy {
                        ConflictPolicy::NewerWins => {
                            let w = crate::reconcile::newer_side(k, env);
                            lemma_parents_then_copy(acts, crate::reconcile::other_side(w), w, path@);
                        },
                        ConflictPolicy::KeepBoth => {
                            let renamed = acts.push(
                                ActionView::RenameConflict {
                                    on: Side::Local,
                                    path: path@,
                                    new_name: crate::reconcile::conflict_name(path@, env.date),
                                },
                            );
                            let to_local = with_parents(renamed, Side::Local, path@).push(
                                ActionView::CopyFile { from: Side::Remote, path: path@ },
                            );
                            let to_remote = with_parents(to_local, Side::Remote, path@).push(
                                ActionView::CopyFile { from: Side::Local, path: path@ },
                            );
                            lemma_parents_then_copy(renamed, Side::Local, Side::Remote, path@);
                            lemma_parents_then_copy(to_local, Side::Remote, Side::Local, path@);
                            assert forall|from: Side| copies_at(to_local, from, k) implies copies_at(to_remote, from, k) by {
                                let i = choose|i: int| 0 <= i < to_local.len() && #[trigger] copy_at(to_local[i], from, k);
                                assert(to_remote[i] == to_local[i]);
                            }
                        },
                    }
                }
            } else if !l.is_edit() && r.is_edit() {
                lemma_parents_then_copy(acts, Side::Local, Side::Remote, path@);
            } else if l.is_edit() && !r.is_edit() {
                lemma_parents_then_copy(acts, Side::Remote, Side::Local, path@);
            }
        },
        (None, None) => {},
    }
}

proof fn lemma_fold_settles(
    keys: Seq<(RelPath, ())>,
    lm: Seq<(RelPath, Change)>,
    rm: Seq<(RelPath, Change)>,
    policy: ConflictPolicy,
    env: Env,
)
    requires
        forall|k: Seq<char>| #[trigger] has_key(lm, k) ==> lookup(lm, k).unwrap().spec_path().key() == k,
        forall|k: Seq<char>| #[trigger] has_key(rm, k) ==> lookup(rm, k).unwrap().spec_path().key() == k,
    ensures
        forall|i: int|
            0 <= i < keys.len() ==> settles(
                bidi_fold(keys, lm, rm, policy, env).0,
                (#[trigger] keys[i]).0.key(),
                lookup(lm, keys[i].0.key()),
                lookup(rm, keys[i].0.key()),
                policy,
                env,
            ),
    decreases keys.len(),
{
    if keys.len() > 0 {
        let prev = keys.drop_last();
        let path = keys.last().0;
        let k = path.key();
        lemma_fold_settles(prev, lm, rm, policy, env);
        let st = bidi_fold(prev, lm, rm, policy, env);
        assert(has_key(lm, k) ==> lookup(lm, k).unwrap().spec_path().key() == k);
        assert(has_key(rm, k) ==> lookup(rm, k).unwrap().spec_path().key() == k);
        lemma_step_settles(st, path, lookup(lm, k), lookup(rm, k), policy, env);
        let done = bidi_fold(keys, lm, rm, policy, env);
        assert forall|i: int| 0 <= i < keys.len() implies settles(
            done.0,
            (#[trigger] keys[i]).0.key(),
            lookup(lm, keys[i].0.key()),
            lookup(rm, keys[i].0.key()),
            policy,
            env,
        ) by {
            if i < keys.len() - 1 {
                assert(prev[i] == keys[i]);
                lemma_settles_grows(
                    st.0,
                    done.0,
                    keys[i].0.key(),
                    lookup(lm, keys[i].0.key()),
                    lookup(rm, keys[i].0.key()),
                    policy,
                    env,
                );
            } else {
                assert(keys[i] == keys.last());
            }
        }
    }
}

/// Bidirectional sync brings both sides together: at every path that
/// changed, the plan carries a one-sided change to the other side (a
/// deletion only where deletions propagate), copies the newer of two
/// different edits over the older one under newer-wins and each way under
/// keep-both, and copies an edit back over a deletion.
pub proof fn law_bidirectional_sync_converges(
    local: Seq<Change>,
    remote: Seq<Change>,
    policy: ConflictPolicy,
    env: Env,
    k: Seq<char>,
)
    ensures
        settles(
            plan_spec(local, remote, SyncMode::Bidirectional, policy, env).0,
            k,
            lookup(change_map(local), k),
            lookup(change_map(remote), k),
            policy,
            env,
        ),
{
    let lm = change_map(local);
    let rm = change_map(remote);
    lemma_change_map(local);
    lemma_change_map(remote);
    let k0 = Seq::<(RelPath, ())>::empty();
    lemma_key_union(k0, lm);
    lemma_key_union(key_union(k0, lm), rm);
    let keys = key_union(key_union(k0, lm), rm);
    lemma_fold_settles(keys, lm, rm, policy, env);
    if has_key(lm, k) || has_key(rm, k) {
        lemma_has_key_keyed_in(lm, k);
        lemma_has_key_keyed_in(rm, k);
        assert(has_key(keys, k));
        lemma_has_key_keyed_in(keys, k);
        let i = choose|i: int| 0 <= i < keys.len() && (#[trigger] keys[i]).0.key() == k;
        assert(settles(
            bidi_fold(keys, lm, rm, policy, env).0,
            keys[i].0.key(),
            lookup(lm, keys[i].0.key()),
            lookup(rm, keys[i].0.key()),
            policy,
            env,
        ));
    }
}


/// No two changes of `cs` are at the same key.
pub open spec fn keys_unique(cs: Seq<Change>) -> bool {
    forall|i: int, j: int|
        0 <= i < j < cs.len() ==> (#[trigger] cs[i]).spec_path().key() != (#[trigger] cs[j]).spec_path().key()
}

proof fn lemma_unique_change_lookup(cs: Seq<Change>, i: int)
    requires
        keys_unique(cs),
        0 <= i < cs.len(),
    ensures
        lookup(change_map(cs), cs[i].spec_path().key()) == Some(cs[i]),
{
    lemma_change_map(cs);
    let k = cs[i].spec_path().key();
    assert(changed_at(cs, k));
    assert(has_key(change_map(cs), k));
    let c = lookup(change_map(cs), k).unwrap();
    let j = choose|j: int| 0 <= j < cs.len() && #[trigger] cs[j] == c;
    if j != i {
        if j < i {
            assert(cs[j].spec_path().key() != cs[i].spec_path().key());
        } else {
            assert(cs[i].spec_path().key() != cs[j].spec_path().key());
        }
    }
}

/// When no path changed on both sides and each side names a path once,
/// two-way sync copies every created or modified file from the side where
/// it changed, whatever the policy.
pub proof fn law_disjoint_edits_are_copied_from_their_side(
    local: Seq<Change>,
    remote: Seq<Change>,
    policy: ConflictPolicy,
    env: Env,
)
    requires
        keys_unique(local),
        keys_unique(remote),
        forall|i: int, j: int|
            0 <= i < local.len() && 0 <= j < remote.len() ==> (#[trigger] local[i]).spec_path().key()
                != (#[trigger] remote[j]).spec_path().key(),
    ensures
        forall|i: int|
            0 <= i < local.len() && (#[trigger] local[i]).is_edit() ==> copies_at(
                plan_spec(local, remote, SyncMode::Bidirectional, policy, env).0,
                Side::Local,
                local[i].spec_path().key(),
            ),
        forall|j: int|
            0 <= j < remote.len() && (#[trigger] remote[j]).is_edit() ==> copies_at(
                plan_spec(local, remote, SyncMode::Bidirectional, policy, env).0,
                Side::Remote,
                remote[j].spec_path().key(),
            ),
{
    lemma_change_map(local);
    lemma_change_map(remote);
    assert forall|i: int| 0 <= i < local.len() && (#[trigger] local[i]).is_edit() implies copies_at(
        plan_spec(local, remote, SyncMode::Bidirectional, policy, env).0,
        Side::Local,
        local[i].spec_path().key(),
    ) by {
        let k = local[i].spec_path().key();
        lemma_unique_change_lookup(local, i);
        if has_key(change_map(remote), k) {
            assert(changed_at(remote, k));
            let j = choose|j: int| 0 <= j < remote.len() && (#[trigger] remote[j]).spec_path().key() == k;
            assert(local[i].spec_path().key() != remote[j].spec_path().key());
        }
        law_bidirectional_sync_converges(local, remote, policy, env, k);
    }
    assert forall|j: int| 0 <= j < remote.len() && (#[trigger] remote[j]).is_edit() implies copies_at(
        plan_spec(local, remote, SyncMode::Bidirectional, policy, env).0,
        Side::Remote,
        remote[j].spec_path().key(),
    ) by {
        let k = remote[j].spec_path().key();
        lemma_unique_change_lookup(remote, j);
        if has_key(change_map(local), k) {
            assert(changed_at(local, k));
            let i = choose|i: int| 0 <= i < local.len() && (#[trigger] local[i]).spec_path().key() == k;
            assert(local[i].spec_path().key() != remote[j].spec_path().key());
        }
        law_bidirectional_sync_converges(local, remote, policy, env, k);
    }
}


proof fn lemma_keep_both_step_date(
    st: (Seq<ActionView>, Seq<ConflictView>),
    path: RelPath,
    lc: Option<Change>,
    rc: Option<Change>,
    env: Env,
    date: Seq<char>,
)
    ensures
        starts_with_actions(bidi_step(st, path, lc, rc, ConflictPolicy::KeepBoth, env).0, st.0),
        bidi_step(st, path, lc, rc, ConflictPolicy::KeepBoth, env) == bidi_step(
            st,
            path,
            lc,
            rc,
            ConflictPolicy::KeepBoth,
            Env { date, ..env },
        ) || renames_a_copy(bidi_step(st, path, lc, rc, ConflictPolicy::KeepBoth, env).0),
{
    let acts = st.0;
    match (lc, rc) {
        (Some(c), None) => {
            if c.is_edit() {
                lemma_with_parents_extends(acts, Side::Remote, c.spec_path()@);
            }
        },
        (None, Some(c)) => {
            if c.is_edit() {
                lemma_with_parents_extends(acts, Side::Local, c.spec_path()@);
            }
        },
        (Some(l), Some(r)) => {
            if l.is_edit() && r.is_edit() {
                if !crate::reconcile::same_content(path.key(), env) {
                    let renamed = acts.push(
                        ActionView::RenameConflict {
                            on: Side::Local,
                            path: path@,
                            new_name: crate::reconcile::conflict_name(path@, env.date),
                        },
                    );
                    lemma_with_parents_extends(renamed, Side::Local, path@);
                    let to_local = with_parents(renamed, Side::Local, path@).push(
                        ActionView::CopyFile { from: Side::Remote, path: path@ },
                    );
                    lemma_with_parents_extends(to_local, Side::Remote, path@);
                    let res = bidi_step(st, path, lc, rc, ConflictPolicy::KeepBoth, env).0;
                    assert(res[acts.len() as int] == renamed[acts.len() as int]);
                    assert(res[acts.len() as int] is RenameConflict);
                }
            } else if !l.is_edit() && !r.is_edit() {
            } else if !l.is_edit() {
                lemma_with_parents_extends(acts, Side::Local, path@);
            } else {
                lemma_with_parents_extends(acts, Side::Remote, path@);
            }
        },
        (None, None) => {},
    }
}

proof fn lemma_keep_both_fold_date(
    keys: Seq<(RelPath, ())>,
    lm: Seq<(RelPath, Change)>,
    rm: Seq<(RelPath, Change)>,
    env: Env,
    date: Seq<char>,
)
    requires
        !renames_a_copy(bidi_fold(keys, lm, rm, ConflictPolicy::KeepBoth, env).0),
    ensures
        bidi_fold(keys, lm, rm, ConflictPolicy::KeepBoth, env) == bidi_fold(
            keys,
            lm,
            rm,
            ConflictPolicy::KeepBoth,
            Env { date, ..env },
        ),
    decreases keys.len(),
{
    if keys.len() > 0 {
        let prev = bidi_fold(keys.drop_last(), lm, rm, ConflictPolicy::KeepBoth, env);
        let k = keys.last().0;
        lemma_keep_both_step_date(prev, k, lookup(lm, k.key()), lookup(rm, k.key()), env, date);
        let whole = bidi_fold(keys, lm, rm, ConflictPolicy::KeepBoth, env).0;
        if renames_a_copy(prev.0) {
            let i = choose|i: int| 0 <= i < prev.0.len() && #[trigger] prev.0[i] is RenameConflict;
            assert(whole[i] == prev.0[i]);
        }
        lemma_keep_both_fold_date(keys.drop_last(), lm, rm, env, date);
    }
}

/// A plan that renames no conflict copy does not depend on the date.
pub proof fn law_plan_without_copy_names_ignores_date(
    local: Seq<Change>,
    remote: Seq<Change>,
    mode: SyncMode,
    policy: ConflictPolicy,
    env: Env,
    date: Seq<char>,
)
    requires
        !renames_a_copy(plan_spec(local, remote, mode, policy, env).0),
    ensures
        plan_spec(local, remote, mode, policy, env) == plan_spec(local, remote, mode, policy, Env { date, ..env }),
{
    if names_conflict_copies(mode, policy) {
        let lm = change_map(local);
        let rm = change_map(remote);
        lemma_keep_both_fold_date(key_union(key_union(Seq::empty(), lm), rm), lm, rm, env, date);
    } else {
        law_plan_ignores_date(local, remote, mode, policy, env, date);
    }
}


/// When both sides edited a file, one of the two scanned copies carries no
/// hash, and the two copies differ in size, they cannot hold the same
/// content: two-way sync copies the file from one side to the other,
/// whatever the policy.
pub proof fn law_edits_of_different_sizes_are_copied(
    local: Seq<Change>,
    remote: Seq<Change>,
    policy: ConflictPolicy,
    env: Env,
    k: Seq<char>,
)
    requires
        lookup(change_map(local), k) is Some && lookup(change_map(local), k).unwrap().is_edit(),
        lookup(change_map(remote), k) is Some && lookup(change_map(remote), k).unwrap().is_edit(),
        lookup(env.local, k) is Some && lookup(env.remote, k) is Some,
        lookup(env.local, k).unwrap().hash is None || lookup(env.remote, k).unwrap().hash is None,
        lookup(env.local, k).unwrap().size != lookup(env.remote, k).unwrap().size,
    ensures
        copies_at(plan_spec(local, remote, SyncMode::Bidirectional, policy, env).0, Side::Local, k)
            || copies_at(plan_spec(local, remote, SyncMode::Bidirectional, policy, env).0, Side::Remote, k),
{
    law_bidirectional_sync_converges(local, remote, policy, env, k);
    assert(!crate::reconcile::same_content(k, env));
}

} // verus!
