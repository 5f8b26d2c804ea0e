//! What holds of the watched-repository tracker over any run of operations: the invariant
//! is kept, versions only grow, and a repository that comes back after it was dropped gets
//! a version no earlier one reaches.
use vstd::prelude::*;

use crate::path::same_path;
use crate::watch::{
    is_lru_victim, is_watched, spec_add, spec_evict, spec_flush, spec_rearm,
    spec_record, spec_touch, spec_version, version_in, watcher_wf, EntryModel, WatcherModel,
    MAX_WATCHED_REPOS,
};

verus! {

/// One operation on the tracker, as the model sees it.
pub enum WatchOp {
    /// `ensure` found the repository at this index and marked it as used.
    Touch(int),
    /// `ensure` dropped the least recently used entry, at this index.
    Evict(int),
    /// `add_entry` started tracking this repository, its watch started or not.
    Add(Seq<char>, bool),
    /// `rearm_result` recorded, for this index, whether the watch started again.
    Rearm(int, bool),
    /// `record_completion` recorded, for this index, whether a change was seen and whether
    /// the watch started again.
    Record(int, bool, bool),
    /// `flush` gave the pending repositories new versions.
    Flush,
}

/// Whether the operation can be made on the tracker `m`, as the requirements of the
/// functions that make it state.
pub open spec fn op_allowed(m: WatcherModel, op: WatchOp) -> bool {
    match op {
        WatchOp::Touch(i) => 0 <= i < m.entries.len(),
        WatchOp::Evict(v) => is_lru_victim(m, v),
        WatchOp::Add(root, _) => !is_watched(m, root) && m.entries.len() < MAX_WATCHED_REPOS,
        WatchOp::Rearm(i, _) => 0 <= i < m.entries.len(),
        WatchOp::Record(i, _, _) => 0 <= i < m.entries.len(),
        WatchOp::Flush => true,
    }
}

/// The tracker after the operation.
pub open spec fn apply_op(m: WatcherModel, op: WatchOp) -> WatcherModel {
    match op {
        WatchOp::Touch(i) => spec_touch(m, i),
        WatchOp::Evict(v) => spec_evict(m, v),
        WatchOp::Add(root, armed) => spec_add(m, root, armed),
        WatchOp::Rearm(i, armed) => spec_rearm(m, i, armed),
        WatchOp::Record(i, changed, rearmed) => spec_record(m, i, changed, rearmed),
        WatchOp::Flush => spec_flush(m),
    }
}

/// The tracker after the operations `ops`, in order.
pub open spec fn run_ops(m: WatcherModel, ops: Seq<WatchOp>) -> WatcherModel
    decreases ops.len(),
{
    if ops.len() == 0 {
        m
    } else {
        apply_op(run_ops(m, ops.drop_last()), ops.last())
    }
}

/// Whether each of `ops` can be made on the tracker that the ones before it left.
pub open spec fn ops_allowed(m: WatcherModel, ops: Seq<WatchOp>) -> bool
    decreases ops.len(),
{
    if ops.len() == 0 {
        true
    } else {
        ops_allowed(m, ops.drop_last()) && op_allowed(run_ops(m, ops.drop_last()), ops.last())
    }
}

/// Every entry of `s` whose repository `o` did not watch has a version of at least the
/// next version `o` would have handed out.
pub open spec fn fresh_since(s: WatcherModel, o: WatcherModel) -> bool {
    forall|i: int|
        0 <= i < s.entries.len() && !is_watched(o, #[trigger] s.entries[i].root) ==> s.entries[i].version
            >= o.epoch
}

/// Entries that keep their repository and version at every index.
pub open spec fn same_roots_versions(a: Seq<EntryModel>, b: Seq<EntryModel>) -> bool {
    &&& a.len() == b.len()
    &&& forall|i: int|
        #![trigger a[i]]
        #![trigger b[i]]
        0 <= i < a.len() ==> a[i].root == b[i].root && a[i].version == b[i].version
}

/// Changing an entry's marks, use stamp or watch state keeps the invariant.
proof fn lemma_same_roots_wf(m: WatcherModel, r: WatcherModel)
    requires
        watcher_wf(m),
        same_roots_versions(m.entries, r.entries),
        r.epoch == m.epoch,
        r.touch >= m.touch,
        forall|i: int| 0 <= i < r.entries.len() ==> #[trigger] r.entries[i].last_touch < r.touch,
    ensures
        watcher_wf(r),
{
    assert forall|a: int, b: int|
        0 <= a < r.entries.len() && 0 <= b < r.entries.len() && a != b implies !same_path(
        #[trigger] r.entries[a].root,
        #[trigger] r.entries[b].root,
    ) by {
        assert(!same_path(m.entries[a].root, m.entries[b].root));
    }
    assert forall|a: int| 0 <= a < r.entries.len() implies 1 <= #[trigger] r.entries[a].version < r.epoch by {
        assert(m.entries[a].version == r.entries[a].version);
    }
}

/// One allowed operation keeps the invariant, never moves the next version back, and keeps
/// every entry whose repository `o` did not watch at a version of at least `o`'s next one.
proof fn lemma_op(s: WatcherModel, op: WatchOp, o: WatcherModel)
    requires
        watcher_wf(s),
        op_allowed(s, op),
        o.epoch <= s.epoch,
        fresh_since(s, o),
    ensures
        watcher_wf(apply_op(s, op)),
        s.epoch <= apply_op(s, op).epoch,
        fresh_since(apply_op(s, op), o),
{
    let r = apply_op(s, op);
    match op {
        WatchOp::Touch(i) => {
            assert(same_roots_versions(s.entries, r.entries));
            assert forall|a: int| 0 <= a < r.entries.len() implies #[trigger] r.entries[a].last_touch < r.touch by {
                if a != i {
                    assert(r.entries[a] == s.entries[a]);
                }
            }
            lemma_same_roots_wf(s, r);
            assert forall|a: int|
                0 <= a < r.entries.len() && !is_watched(o, #[trigger] r.entries[a].root) implies r.entries[a].version
                >= o.epoch by {
                assert(r.entries[a].root == s.entries[a].root);
            }
        },
        WatchOp::Evict(v) => {
            let es = s.entries;
            let re = r.entries;
            assert forall|a: int| 0 <= a < re.len() implies #[trigger] re[a] == es[if a == v { es.len() - 1 } else { a }] by {}
            assert forall|a: int, b: int|
                0 <= a < re.len() && 0 <= b < re.len() && a != b implies !same_path(#[trigger] re[a].root, #[trigger] re[b].root) by {
                let ia = if a == v { es.len() - 1 } else { a };
                let ib = if b == v { es.len() - 1 } else { b };
                assert(re[a] == es[ia] && re[b] == es[ib]);
            }
            assert forall|a: int| 0 <= a < re.len() implies 1 <= #[trigger] re[a].version < r.epoch && re[a].last_touch < r.touch by {
                let ia = if a == v { es.len() - 1 } else { a };
                assert(re[a] == es[ia]);
            }
            assert forall|a: int|
                0 <= a < re.len() && !is_watched(o, #[trigger] re[a].root) implies re[a].version >= o.epoch by {
                let ia = if a == v { es.len() - 1 } else { a };
                assert(re[a] == es[ia]);
            }
        },
        WatchOp::Add(root, armed) => {
            crate::watch::lemma_new_entry_is_freshest(s, root, armed);
            assert forall|a: int|
                0 <= a < r.entries.len() && !is_watched(o, #[trigger] r.entries[a].root) implies r.entries[a].version
                >= o.epoch by {
                if a < s.entries.len() {
                    assert(r.entries[a] == s.entries[a]);
                }
            }
        },
        WatchOp::Rearm(i, armed) => {
            assert(same_roots_versions(s.entries, r.entries));
            assert forall|a: int| 0 <= a < r.entries.len() implies #[trigger] r.entries[a].last_touch < r.touch by {
                if a != i {
                    assert(r.entries[a] == s.entries[a]);
                }
            }
            lemma_same_roots_wf(s, r);
            assert forall|a: int|
                0 <= a < r.entries.len() && !is_watched(o, #[trigger] r.entries[a].root) implies r.entries[a].version
                >= o.epoch by {
                assert(r.entries[a].root == s.entries[a].root);
            }
        },
        WatchOp::Record(i, changed, rearmed) => {
            assert(same_roots_versions(s.entries, r.entries));
            assert forall|a: int| 0 <= a < r.entries.len() implies #[trigger] r.entries[a].last_touch < r.touch by {
                if a != i {
                    assert(r.entries[a] == s.entries[a]);
                }
            }
            lemma_same_roots_wf(s, r);
            assert forall|a: int|
                0 <= a < r.entries.len() && !is_watched(o, #[trigger] r.entries[a].root) implies r.entries[a].version
                >= o.epoch by {
                assert(r.entries[a].root == s.entries[a].root);
            }
        },
        WatchOp::Flush => {
            crate::watch::lemma_flush(s);
            crate::watch::lemma_flush_entries(s.entries, s.epoch);
            assert forall|a: int|
                0 <= a < r.entries.len() && !is_watched(o, #[trigger] r.entries[a].root) implies r.entries[a].version
                >= o.epoch by {
                assert(r.entries[a].root == s.entries[a].root);
            }
        },
    }
}

/// A run of allowed operations keeps the invariant and never moves the next version back.
proof fn lemma_run_wf(m: WatcherModel, ops: Seq<WatchOp>)
    requires
        watcher_wf(m),
        ops_allowed(m, ops),
    ensures
        watcher_wf(run_ops(m, ops)),
        m.epoch <= run_ops(m, ops).epoch,
    decreases ops.len(),
{
    if ops.len() > 0 {
        lemma_run_wf(m, ops.drop_last());
        let s = run_ops(m, ops.drop_last());
        lemma_op(s, ops.last(), s);
    }
}

/// After a run of allowed operations, every entry whose repository the tracker did not
/// watch after the first `k` of them has a version of at least the next version at that
/// point.
proof fn lemma_run_fresh(m: WatcherModel, ops: Seq<WatchOp>, k: int)
    requires
        watcher_wf(m),
        ops_allowed(m, ops),
        0 <= k <= ops.len(),
    ensures
        run_ops(m, ops.take(k)).epoch <= run_ops(m, ops).epoch,
        fresh_since(run_ops(m, ops), run_ops(m, ops.take(k))),
    decreases ops.len(),
{
    if k == ops.len() {
        assert(ops.take(k) =~= ops);
        let s = run_ops(m, ops);
        assert forall|i: int| 0 <= i < s.entries.len() && !is_watched(s, #[trigger] s.entries[i].root) implies s.entries[i].version >= s.epoch by {
            assert(same_path(s.entries[i].root, s.entries[i].root));
        }
    } else {
        let d = ops.drop_last();
        assert(d.take(k) =~= ops.take(k));
        lemma_run_fresh(m, d, k);
        lemma_run_wf(m, d);
        let s = run_ops(m, d);
        lemma_op(s, ops.last(), run_ops(m, ops.take(k)));
    }
}

/// In a tracker whose entries watch distinct repositories, the version of a watched
/// repository is that of its entry.
pub proof fn lemma_version_in_at(es: Seq<EntryModel>, root: Seq<char>, i: int)
    requires
        forall|a: int, b: int|
            0 <= a < es.len() && 0 <= b < es.len() && a != b ==> !same_path(
                #[trigger] es[a].root,
                #[trigger] es[b].root,
            ),
        0 <= i < es.len(),
        same_path(es[i].root, root),
    ensures
        version_in(es, root) == es[i].version,
    decreases es.len(),
{
    if !same_path(es[0].root, root) {
        let t = es.drop_first();
        assert forall|a: int, b: int|
            0 <= a < t.len() && 0 <= b < t.len() && a != b implies !same_path(#[trigger] t[a].root, #[trigger] t[b].root) by {
            assert(t[a] == es[a + 1] && t[b] == es[b + 1]);
        }
        assert(t[i - 1] == es[i]);
        lemma_version_in_at(t, root, i - 1);
    } else if i != 0 {
        assert(!same_path(es[0].root, es[i].root));
    }
}

/// Over any run of allowed operations (what `ensure`, `add_entry`, `rearm_result`,
/// `record_completion` and `flush` do) the tracker keeps its invariant and its next
/// version never moves back; and a repository that was not watched at some point of the
/// run (never yet, or dropped to make room) but is watched at its end has a version
/// greater than every version held at that point or before, so no cache key made for an
/// earlier watch of it can match.
pub proof fn lemma_versions_fresh_over_runs(m: WatcherModel, ops: Seq<WatchOp>)
    requires
        watcher_wf(m),
        ops_allowed(m, ops),
    ensures
        watcher_wf(run_ops(m, ops)),
        forall|j: int, k: int|
            0 <= j <= k <= ops.len() ==> #[trigger] run_ops(m, ops.take(j)).epoch <= #[trigger] run_ops(
                m,
                ops.take(k),
            ).epoch,
        forall|j: int, k: int, root: Seq<char>, i: int|
            #![trigger is_watched(run_ops(m, ops.take(k)), root), run_ops(m, ops.take(j)).entries[i]]
            0 <= j <= k <= ops.len() && !is_watched(run_ops(m, ops.take(k)), root) && is_watched(
                run_ops(m, ops),
                root,
            ) && 0 <= i < run_ops(m, ops.take(j)).entries.len() ==> run_ops(m, ops.take(j)).entries[i].version
                < spec_version(run_ops(m, ops), root),
{
    lemma_run_wf(m, ops);
    let f = run_ops(m, ops);
    assert forall|j: int, k: int| 0 <= j <= k <= ops.len() implies #[trigger] run_ops(m, ops.take(j)).epoch <= #[trigger] run_ops(
        m,
        ops.take(k),
    ).epoch by {
        let tk = ops.take(k);
        lemma_prefix_allowed(m, ops, k);
        assert(tk.take(j) =~= ops.take(j));
        lemma_run_fresh(m, tk, j);
    }
    assert forall|j: int, k: int, root: Seq<char>, i: int|
        #![trigger is_watched(run_ops(m, ops.take(k)), root), run_ops(m, ops.take(j)).entries[i]]
        0 <= j <= k <= ops.len() && !is_watched(run_ops(m, ops.take(k)), root) && is_watched(f, root) && 0 <= i
            < run_ops(m, ops.take(j)).entries.len() implies run_ops(m, ops.take(j)).entries[i].version
        < spec_version(f, root) by {
        let pk = run_ops(m, ops.take(k));
        let pj = run_ops(m, ops.take(j));
        lemma_run_fresh(m, ops, k);
        lemma_prefix_allowed(m, ops, k);
        lemma_prefix_allowed(m, ops, j);
        lemma_run_wf(m, ops.take(j));
        let tk = ops.take(k);
        assert(tk.take(j) =~= ops.take(j));
        lemma_run_fresh(m, tk, j);
        assert(tk.take(k) =~= tk);
        let w = choose|w: int| 0 <= w < f.entries.len() && same_path(#[trigger] f.entries[w].root, root);
        lemma_version_in_at(f.entries, root, w);
        if is_watched(pk, f.entries[w].root) {
            let x = choose|x: int| 0 <= x < pk.entries.len() && same_path(#[trigger] pk.entries[x].root, f.entries[w].root);
            assert(same_path(pk.entries[x].root, root));
        }
        assert(pj.entries[i].version < pj.epoch);
    }
}

/// The operations that lead up to a point of an allowed run are allowed.
proof fn lemma_prefix_allowed(m: WatcherModel, ops: Seq<WatchOp>, k: int)
    requires
        ops_allowed(m, ops),
        0 <= k <= ops.len(),
    ensures
        ops_allowed(m, ops.take(k)),
    decreases ops.len(),
{
    if k == ops.len() {
        assert(ops.take(k) =~= ops);
    } else {
        assert(ops.drop_last().take(k) =~= ops.take(k));
        lemma_prefix_allowed(m, ops.drop_last(), k);
    }
}

/// `ensure` on a watched repository adds no entry and leaves every version and the next
/// version as they were; where that repository's watch was lost, starting it again (with
/// whatever outcome) leaves it pending, so the next flush gives it exactly the next
/// version, greater than every version held before.
pub proof fn lemma_ensure_watched(m: WatcherModel, root: Seq<char>, i: int, rearmed: bool)
    requires
        watcher_wf(m),
        0 <= i < m.entries.len(),
        same_path(m.entries[i].root, root),
    ensures
        spec_touch(m, i).entries.len() == m.entries.len(),
        spec_touch(m, i).epoch == m.epoch,
        spec_version(spec_touch(m, i), root) == spec_version(m, root),
        forall|j: int| 0 <= j < m.entries.len() ==> #[trigger] spec_touch(m, i).entries[j].version == m.entries[j].version,
        !m.entries[i].armed ==> {
            let r = spec_rearm(spec_touch(m, i), i, rearmed);
            &&& r.entries[i].pending
            &&& spec_version(spec_flush(r), root) > spec_version(m, root)
            &&& forall|j: int| 0 <= j < m.entries.len() ==> m.entries[j].version < #[trigger] spec_version(spec_flush(r), root)
        },
{
    let t = spec_touch(m, i);
    lemma_op(m, WatchOp::Touch(i), m);
    lemma_version_in_at(m.entries, root, i);
    lemma_version_in_at(t.entries, root, i);
    if !m.entries[i].armed {
        let r = spec_rearm(t, i, rearmed);
        lemma_op(t, WatchOp::Rearm(i, rearmed), t);
        crate::watch::lemma_flush(r);
        let f = spec_flush(r);
        assert(f.entries[i].root == m.entries[i].root);
        lemma_version_in_at(f.entries, root, i);
        assert forall|j: int| 0 <= j < m.entries.len() implies m.entries[j].version < #[trigger] spec_version(f, root) by {
            assert(r.entries[j].version == m.entries[j].version);
        }
    }
}

/// Looking up a repository that no entry watches gives 0.
proof fn lemma_version_in_unwatched(es: Seq<EntryModel>, root: Seq<char>)
    requires
        forall|i: int| 0 <= i < es.len() ==> !same_path(#[trigger] es[i].root, root),
    ensures
        version_in(es, root) == 0,
    decreases es.len(),
{
    if es.len() > 0 {
        let t = es.drop_first();
        assert forall|i: int| 0 <= i < t.len() implies !same_path(#[trigger] t[i].root, root) by {
            assert(t[i] == es[i + 1]);
        }
        lemma_version_in_unwatched(t, root);
    }
}

/// In a well-formed tracker the version of a repository is 0 exactly where no entry
/// watches it.
pub proof fn lemma_version_zero_iff_unwatched(m: WatcherModel, root: Seq<char>)
    requires
        watcher_wf(m),
    ensures
        spec_version(m, root) == 0 <==> !is_watched(m, root),
{
    if is_watched(m, root) {
        let i = choose|i: int| 0 <= i < m.entries.len() && same_path(#[trigger] m.entries[i].root, root);
        lemma_version_in_at(m.entries, root, i);
    } else {
        lemma_version_in_unwatched(m.entries, root);
    }
}

} // verus!
