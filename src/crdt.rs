//! Local writes and remote merges under last-writer-wins by
//! `(timestamp, device_id)`, with a model of the replicated tables and the
//! laws that make replicas converge.
use vstd::prelude::*;
use crate::hlc::{HlcTimestamp, HybridLogicalClock, exhausted_spec};
use crate::text::str_eq;
use std::collections::HashSet;
use crate::oplog::{
    OpType, OplogEntry, RowKey, row_key, stamp_lt, stamp_le, same_stamp, sorted_by_stamp,
    since_spec, sort_by_stamp,
};

verus! {

broadcast use vstd::std_specs::hash::group_hash_axioms;

/// The winner that `e` leaves for its record: `e` itself if no winner is
/// recorded or the recorded one sorts strictly before `e`.
pub open spec fn apply_spec(t: Map<RowKey, OplogEntry>, e: OplogEntry) -> Map<RowKey, OplogEntry> {
    if t.contains_key(row_key(e)) && !stamp_lt(t[row_key(e)], e) {
        t
    } else {
        t.insert(row_key(e), e)
    }
}

/// The winners after applying `es` in order.
pub open spec fn fold_spec(t: Map<RowKey, OplogEntry>, es: Seq<OplogEntry>) -> Map<
    RowKey,
    OplogEntry,
>
    decreases es.len(),
{
    if es.len() == 0 {
        t
    } else {
        apply_spec(fold_spec(t, es.drop_last()), es.last())
    }
}

/// The domain-table contents: each live record with its post-image.
pub open spec fn visible_spec(t: Map<RowKey, OplogEntry>) -> Map<RowKey, Seq<char>> {
    Map::new(|k: RowKey| t.contains_key(k) && t[k].op_type != OpType::Delete, |k: RowKey| t[k].data@)
}

/// A replica as the laws see it: the winner per record and the oplog.
pub struct ReplicaState {
    pub table: Map<RowKey, OplogEntry>,
    pub log: Seq<OplogEntry>,
}

pub open spec fn log_has_id(log: Seq<OplogEntry>, id: u128) -> bool {
    exists|i: int| 0 <= i < log.len() && (#[trigger] log[i]).id == id
}

/// Merging one remote entry: skipped if its id is logged, else applied and
/// logged.
pub open spec fn step_spec(st: ReplicaState, e: OplogEntry) -> ReplicaState {
    if log_has_id(st.log, e.id) {
        st
    } else {
        ReplicaState { table: apply_spec(st.table, e), log: st.log.push(e) }
    }
}

/// Merging `es` in order.
pub open spec fn merge_spec(st: ReplicaState, es: Seq<OplogEntry>) -> ReplicaState
    decreases es.len(),
{
    if es.len() == 0 {
        st
    } else {
        step_spec(merge_spec(st, es.drop_last()), es.last())
    }
}

/// What every reachable replica satisfies: each logged entry is at or below
/// its record's winner, and each winner is a logged entry filed under its
/// own record.
pub open spec fn state_wf(st: ReplicaState) -> bool {
    &&& forall|i: int|
        0 <= i < st.log.len() ==> st.table.contains_key(row_key(#[trigger] st.log[i]))
            && stamp_le(st.log[i], st.table[row_key(st.log[i])])
    &&& forall|k: RowKey|
        #[trigger] st.table.contains_key(k) ==> row_key(st.table[k]) == k && st.log.contains(
            st.table[k],
        )
}

/// The data-model invariants over a set of entries: an id names one entry,
/// and one record never sees two different entries with the same stamp.
pub open spec fn entries_consistent(es: Seq<OplogEntry>) -> bool {
    forall|i: int, j: int|
        0 <= i < es.len() && 0 <= j < es.len() && ((#[trigger] es[i]).id == (#[trigger] es[j]).id
            || (row_key(es[i]) == row_key(es[j]) && same_stamp(es[i], es[j]))) ==> es[i] == es[j]
}

proof fn lemma_consistent_sub(a: Seq<OplogEntry>, b: Seq<OplogEntry>)
    requires
        entries_consistent(a),
        forall|x: OplogEntry| #[trigger] b.contains(x) ==> a.contains(x),
    ensures
        entries_consistent(b),
{
    assert forall|i: int, j: int|
        0 <= i < b.len() && 0 <= j < b.len() && ((#[trigger] b[i]).id == (#[trigger] b[j]).id || (
        row_key(b[i]) == row_key(b[j]) && same_stamp(b[i], b[j]))) implies b[i] == b[j] by {
        assert(b.contains(b[i]));
        assert(b.contains(b[j]));
        let ii = choose|ii: int| 0 <= ii < a.len() && a[ii] == b[i];
        let jj = choose|jj: int| 0 <= jj < a.len() && a[jj] == b[j];
        assert(a[ii] == a[jj]);
    }
}

/// What the winner of one record is after a fold: present iff the start or
/// some entry names the record, taken from one of them, and at or above all
/// of them.
proof fn lemma_fold_char(t: Map<RowKey, OplogEntry>, es: Seq<OplogEntry>, k: RowKey)
    ensures
        fold_spec(t, es).contains_key(k) <==> (t.contains_key(k) || exists|i: int|
            0 <= i < es.len() && row_key(#[trigger] es[i]) == k),
        fold_spec(t, es).contains_key(k) ==> (t.contains_key(k) && fold_spec(t, es)[k] == t[k])
            || exists|i: int|
            0 <= i < es.len() && row_key(#[trigger] es[i]) == k && fold_spec(t, es)[k] == es[i],
        t.contains_key(k) ==> stamp_le(t[k], fold_spec(t, es)[k]),
        forall|i: int|
            0 <= i < es.len() && row_key(#[trigger] es[i]) == k ==> stamp_le(
                es[i],
                fold_spec(t, es)[k],
            ),
    decreases es.len(),
{
    if es.len() > 0 {
        let pre = es.drop_last();
        let e = es.last();
        lemma_fold_char(t, pre, k);
        let m = fold_spec(t, pre);
        assert(fold_spec(t, es) == apply_spec(m, e));
        assert forall|i: int| 0 <= i < pre.len() implies #[trigger] es[i] == pre[i] by {}
        if exists|i: int| 0 <= i < es.len() && row_key(#[trigger] es[i]) == k {
            let i = choose|i: int| 0 <= i < es.len() && row_key(#[trigger] es[i]) == k;
            if i < pre.len() {
                assert(row_key(pre[i]) == k);
            }
        }
        if fold_spec(t, es).contains_key(k) && !(t.contains_key(k) && fold_spec(t, es)[k] == t[k]) {
            if row_key(e) == k && fold_spec(t, es)[k] == e {
                assert(es[es.len() - 1] == e);
            } else {
                let i = choose|i: int|
                    0 <= i < pre.len() && row_key(#[trigger] pre[i]) == k && m[k] == pre[i];
                assert(es[i] == pre[i]);
            }
        }
    }
}

/// Entries on one record that share their stamp agree, and agree with the
/// winner already filed for that record.
pub open spec fn consistent_with(t: Map<RowKey, OplogEntry>, es: Seq<OplogEntry>) -> bool {
    &&& entries_consistent(es)
    &&& forall|k: RowKey, i: int|
        0 <= i < es.len() && #[trigger] t.contains_key(k) && row_key(#[trigger] es[i]) == k
            && same_stamp(t[k], es[i]) ==> t[k] == es[i]
}

/// Folds over sequences with the same elements agree.
proof fn lemma_fold_converge(t: Map<RowKey, OplogEntry>, a: Seq<OplogEntry>, b: Seq<OplogEntry>)
    requires
        consistent_with(t, a),
        forall|x: OplogEntry| a.contains(x) <==> b.contains(x),
    ensures
        fold_spec(t, a) == fold_spec(t, b),
{
    let fa = fold_spec(t, a);
    let fb = fold_spec(t, b);
    assert forall|k: RowKey| #[trigger] fa.contains_key(k) == fb.contains_key(k) && (fa.contains_key(k)
        ==> fa[k] == fb[k]) by {
        lemma_fold_char(t, a, k);
        lemma_fold_char(t, b, k);
        if exists|i: int| 0 <= i < a.len() && row_key(#[trigger] a[i]) == k {
            let i = choose|i: int| 0 <= i < a.len() && row_key(#[trigger] a[i]) == k;
            assert(a.contains(a[i]));
            assert(b.contains(a[i]));
        }
        if exists|i: int| 0 <= i < b.len() && row_key(#[trigger] b[i]) == k {
            let i = choose|i: int| 0 <= i < b.len() && row_key(#[trigger] b[i]) == k;
            assert(b.contains(b[i]));
            assert(a.contains(b[i]));
        }
        if fa.contains_key(k) {
            // each side's winner is a candidate of the other
            if !(t.contains_key(k) && fb[k] == t[k]) {
                let j = choose|j: int| 0 <= j < b.len() && row_key(#[trigger] b[j]) == k && fb[k] == b[j];
                assert(b.contains(b[j]));
                assert(a.contains(b[j]));
                let i = choose|i: int| 0 <= i < a.len() && a[i] == b[j];
                assert(row_key(a[i]) == k);
            }
            if !(t.contains_key(k) && fa[k] == t[k]) {
                let i = choose|i: int| 0 <= i < a.len() && row_key(#[trigger] a[i]) == k && fa[k] == a[i];
                assert(a.contains(a[i]));
                assert(b.contains(a[i]));
                let j = choose|j: int| 0 <= j < b.len() && b[j] == a[i];
                assert(row_key(b[j]) == k);
            }
            assert(same_stamp(fa[k], fb[k]));
            if t.contains_key(k) && fa[k] == t[k] {
                if !(t.contains_key(k) && fb[k] == t[k]) {
                    let j = choose|j: int| 0 <= j < b.len() && row_key(#[trigger] b[j]) == k && fb[k] == b[j];
                    assert(b.contains(b[j]));
                    let i = choose|i: int| 0 <= i < a.len() && a[i] == b[j];
                }
            } else {
                let i = choose|i: int| 0 <= i < a.len() && row_key(#[trigger] a[i]) == k && fa[k] == a[i];
                if t.contains_key(k) && fb[k] == t[k] {
                } else {
                    let j = choose|j: int| 0 <= j < b.len() && row_key(#[trigger] b[j]) == k && fb[k] == b[j];
                    assert(b.contains(b[j]));
                    let i2 = choose|i2: int| 0 <= i2 < a.len() && a[i2] == b[j];
                    assert(a[i] == a[i2]);
                }
            }
        }
    }
    assert(fa =~= fb);
}


/// Under the invariants, the id check never changes the outcome: merging is
/// the plain last-writer-wins fold, and the invariants hold afterwards.
proof fn lemma_merge_is_fold(st: ReplicaState, es: Seq<OplogEntry>)
    requires
        state_wf(st),
        entries_consistent(st.log + es),
    ensures
        merge_spec(st, es).table == fold_spec(st.table, es),
        state_wf(merge_spec(st, es)),
        forall|x: OplogEntry| #[trigger] merge_spec(st, es).log.contains(x) ==> (st.log + es).contains(x),
    decreases es.len(),
{
    if es.len() > 0 {
        let pre = es.drop_last();
        let e = es.last();
        assert forall|x: OplogEntry| #[trigger] (st.log + pre).contains(x) implies (st.log + es).contains(x) by {
            let i = choose|i: int| 0 <= i < (st.log + pre).len() && (st.log + pre)[i] == x;
            assert((st.log + es)[i] == x);
        }
        lemma_consistent_sub(st.log + es, st.log + pre);
        lemma_merge_is_fold(st, pre);
        let mid = merge_spec(st, pre);
        assert((st.log + es)[st.log.len() + es.len() - 1] == e);
        assert((st.log + es).contains(e));
        if log_has_id(mid.log, e.id) {
            let i = choose|i: int| 0 <= i < mid.log.len() && (#[trigger] mid.log[i]).id == e.id;
            assert(mid.log.contains(mid.log[i]));
            let a = choose|a: int| 0 <= a < (st.log + es).len() && (st.log + es)[a] == mid.log[i];
            let b = choose|b: int| 0 <= b < (st.log + es).len() && (st.log + es)[b] == e;
            assert((st.log + es)[a] == (st.log + es)[b]);
        } else {
            let nxt = step_spec(mid, e);
            assert forall|i: int| 0 <= i < nxt.log.len() implies nxt.table.contains_key(
                row_key(#[trigger] nxt.log[i]),
            ) && stamp_le(nxt.log[i], nxt.table[row_key(nxt.log[i])]) by {
                if i < mid.log.len() {
                    assert(nxt.log[i] == mid.log[i]);
                }
            }
            assert forall|k: RowKey| #[trigger] nxt.table.contains_key(k) implies row_key(nxt.table[k])
                == k && nxt.log.contains(nxt.table[k]) by {
                if k == row_key(e) && nxt.table[k] == e {
                    assert(nxt.log[nxt.log.len() - 1] == e);
                } else {
                    let i = choose|i: int| 0 <= i < mid.log.len() && mid.log[i] == mid.table[k];
                    assert(nxt.log[i] == mid.log[i]);
                }
            }
            assert forall|x: OplogEntry| #[trigger] nxt.log.contains(x) implies (st.log + es).contains(x) by {
                let i = choose|i: int| 0 <= i < nxt.log.len() && nxt.log[i] == x;
                if i < mid.log.len() {
                    assert(mid.log[i] == x);
                    assert(mid.log.contains(x));
                }
            }
        }
    }
}

proof fn lemma_table_consistent(st: ReplicaState, es: Seq<OplogEntry>)
    requires
        state_wf(st),
        entries_consistent(st.log + es),
    ensures
        consistent_with(st.table, es),
{
    let all = st.log + es;
    assert forall|x: OplogEntry| #[trigger] es.contains(x) implies all.contains(x) by {
        let i = choose|i: int| 0 <= i < es.len() && es[i] == x;
        assert(all[st.log.len() + i] == x);
    }
    lemma_consistent_sub(all, es);
    assert forall|k: RowKey, i: int|
        0 <= i < es.len() && #[trigger] st.table.contains_key(k) && row_key(#[trigger] es[i]) == k
            && same_stamp(st.table[k], es[i]) implies st.table[k] == es[i] by {
        let a = choose|a: int| 0 <= a < st.log.len() && st.log[a] == st.table[k];
        assert(all[a] == st.table[k]);
        assert(all[st.log.len() + i] == es[i]);
    }
}

/// Convergence: two replicas that start from the same state and end up
/// having merged the same set of entries, in whatever order and however
/// interleaved, hold the same winners and so the same table contents.
pub proof fn lemma_convergence(st: ReplicaState, a: Seq<OplogEntry>, b: Seq<OplogEntry>)
    requires
        state_wf(st),
        entries_consistent(st.log + a),
        forall|x: OplogEntry| a.contains(x) <==> b.contains(x),
    ensures
        merge_spec(st, a).table == merge_spec(st, b).table,
        visible_spec(merge_spec(st, a).table) == visible_spec(merge_spec(st, b).table),
{
    assert forall|x: OplogEntry| #[trigger] (st.log + b).contains(x) implies (st.log + a).contains(x) by {
        let i = choose|i: int| 0 <= i < (st.log + b).len() && (st.log + b)[i] == x;
        if i < st.log.len() {
            assert((st.log + a)[i] == x);
        } else {
            assert(b[i - st.log.len()] == x);
            assert(b.contains(x));
            let j = choose|j: int| 0 <= j < a.len() && a[j] == x;
            assert((st.log + a)[st.log.len() + j] == x);
        }
    }
    lemma_consistent_sub(st.log + a, st.log + b);
    lemma_merge_is_fold(st, a);
    lemma_merge_is_fold(st, b);
    lemma_table_consistent(st, a);
    lemma_fold_converge(st.table, a, b);
}

proof fn lemma_merge_logs(st: ReplicaState, es: Seq<OplogEntry>)
    ensures
        forall|i: int| 0 <= i < es.len() ==> log_has_id(merge_spec(st, es).log, #[trigger] es[i].id),
        forall|id: u128| #[trigger] log_has_id(st.log, id) ==> log_has_id(merge_spec(st, es).log, id),
    decreases es.len(),
{
    if es.len() > 0 {
        let pre = es.drop_last();
        lemma_merge_logs(st, pre);
        let mid = merge_spec(st, pre);
        let e = es.last();
        assert forall|id: u128| #[trigger] log_has_id(mid.log, id) implies log_has_id(
            step_spec(mid, e).log,
            id,
        ) by {
            let i = choose|i: int| 0 <= i < mid.log.len() && (#[trigger] mid.log[i]).id == id;
            assert(step_spec(mid, e).log[i] == mid.log[i]);
        }
        assert forall|i: int| 0 <= i < es.len() implies log_has_id(
            merge_spec(st, es).log,
            #[trigger] es[i].id,
        ) by {
            if i < pre.len() {
                assert(es[i] == pre[i]);
                assert(log_has_id(mid.log, pre[i].id));
            } else if !log_has_id(mid.log, e.id) {
                assert(step_spec(mid, e).log[mid.log.len() as int] == e);
            }
        }
        assert forall|id: u128| #[trigger] log_has_id(st.log, id) implies log_has_id(
            merge_spec(st, es).log,
            id,
        ) by {
            assert(log_has_id(mid.log, id));
        }
    }
}

proof fn lemma_merge_all_logged(st: ReplicaState, es: Seq<OplogEntry>)
    requires
        forall|i: int| 0 <= i < es.len() ==> log_has_id(st.log, #[trigger] es[i].id),
    ensures
        merge_spec(st, es) == st,
    decreases es.len(),
{
    if es.len() > 0 {
        assert forall|i: int| 0 <= i < es.len() - 1 implies log_has_id(
            st.log,
            #[trigger] es.drop_last()[i].id,
        ) by {
            assert(es.drop_last()[i] == es[i]);
        }
        lemma_merge_all_logged(st, es.drop_last());
        assert(log_has_id(st.log, es[es.len() - 1].id));
    }
}

/// Idempotence: merging a batch a second time, in any order, changes
/// nothing, neither the winners nor the oplog.
pub proof fn lemma_merge_idempotent(st: ReplicaState, a: Seq<OplogEntry>, b: Seq<OplogEntry>)
    requires
        forall|x: OplogEntry| b.contains(x) ==> a.contains(x),
    ensures
        merge_spec(merge_spec(st, a), b) == merge_spec(st, a),
{
    lemma_merge_logs(st, a);
    let m = merge_spec(st, a);
    assert forall|i: int| 0 <= i < b.len() implies log_has_id(m.log, #[trigger] b[i].id) by {
        assert(b.contains(b[i]));
        let j = choose|j: int| 0 <= j < a.len() && a[j] == b[i];
        assert(log_has_id(m.log, a[j].id));
    }
    lemma_merge_all_logged(m, b);
}

/// The greater of two entries under `(timestamp, device_id)`.
pub open spec fn later_of(e1: OplogEntry, e2: OplogEntry) -> OplogEntry {
    if stamp_lt(e1, e2) {
        e2
    } else {
        e1
    }
}

/// Last-writer-wins: after merging two entries on the same record, in either
/// order, the record holds the one with the greater `(timestamp, device_id)`.
pub proof fn lemma_last_writer_wins(st: ReplicaState, e1: OplogEntry, e2: OplogEntry)
    requires
        state_wf(st),
        entries_consistent(st.log + seq![e1, e2]),
        row_key(e1) == row_key(e2),
        !same_stamp(e1, e2),
        st.table.contains_key(row_key(e1)) ==> stamp_lt(st.table[row_key(e1)], later_of(e1, e2)),
    ensures
        merge_spec(st, seq![e1, e2]).table[row_key(e1)] == later_of(e1, e2),
        merge_spec(st, seq![e2, e1]).table[row_key(e1)] == later_of(e1, e2),
{
    let k = row_key(e1);
    let w = later_of(e1, e2);
    let s12 = seq![e1, e2];
    let s21 = seq![e2, e1];
    assert forall|x: OplogEntry| #[trigger] (st.log + s21).contains(x) implies (st.log + s12).contains(x) by {
        let i = choose|i: int| 0 <= i < (st.log + s21).len() && (st.log + s21)[i] == x;
        if i < st.log.len() {
            assert((st.log + s12)[i] == x);
        } else if i == st.log.len() {
            assert((st.log + s12)[i + 1] == x);
        } else {
            assert((st.log + s12)[i - 1] == x);
        }
    }
    lemma_consistent_sub(st.log + s12, st.log + s21);
    lemma_merge_is_fold(st, s12);
    lemma_merge_is_fold(st, s21);
    lemma_fold_char(st.table, s12, k);
    lemma_fold_char(st.table, s21, k);
    assert(s12[0] == e1 && s12[1] == e2 && s21[0] == e2 && s21[1] == e1);
}

/// Tombstone stability: a delete that sorts after every insert or update of
/// its record in the batch (and after a live winner already recorded) leaves
/// the record absent from the table contents.
pub proof fn lemma_tombstone_stable(st: ReplicaState, es: Seq<OplogEntry>, d: OplogEntry)
    requires
        state_wf(st),
        entries_consistent(st.log + es),
        es.contains(d),
        d.op_type == OpType::Delete,
        forall|i: int|
            0 <= i < es.len() && row_key(#[trigger] es[i]) == row_key(d) && es[i].op_type
                != OpType::Delete ==> stamp_lt(es[i], d),
        st.table.contains_key(row_key(d)) && st.table[row_key(d)].op_type != OpType::Delete
            ==> stamp_lt(st.table[row_key(d)], d),
    ensures
        !visible_spec(merge_spec(st, es).table).contains_key(row_key(d)),
{
    let k = row_key(d);
    lemma_merge_is_fold(st, es);
    lemma_fold_char(st.table, es, k);
    let di = choose|i: int| 0 <= i < es.len() && es[i] == d;
    assert(row_key(es[di]) == k);
}


/// The winners held as a list, one per record, seen as a map.
pub open spec fn rows_map(s: Seq<OplogEntry>) -> Map<RowKey, OplogEntry>
    decreases s.len(),
{
    if s.len() == 0 {
        Map::empty()
    } else {
        rows_map(s.drop_last()).insert(row_key(s.last()), s.last())
    }
}

pub open spec fn unique_rows(s: Seq<OplogEntry>) -> bool {
    forall|i: int, j: int|
        0 <= i < s.len() && 0 <= j < s.len() && i != j ==> row_key(#[trigger] s[i]) != row_key(
            #[trigger] s[j],
        )
}

proof fn lemma_rows_map(s: Seq<OplogEntry>)
    requires
        unique_rows(s),
    ensures
        forall|k: RowKey|
            #[trigger] rows_map(s).contains_key(k) <==> exists|i: int|
                0 <= i < s.len() && row_key(#[trigger] s[i]) == k,
        forall|i: int| 0 <= i < s.len() ==> rows_map(s)[row_key(#[trigger] s[i])] == s[i],
    decreases s.len(),
{
    if s.len() > 0 {
        let pre = s.drop_last();
        assert(unique_rows(pre)) by {
            assert forall|i: int, j: int|
                0 <= i < pre.len() && 0 <= j < pre.len() && i != j implies row_key(
                #[trigger] pre[i],
            ) != row_key(#[trigger] pre[j]) by {
                assert(pre[i] == s[i] && pre[j] == s[j]);
            }
        }
        lemma_rows_map(pre);
        assert forall|k: RowKey| #[trigger] rows_map(s).contains_key(k) <==> exists|i: int|
            0 <= i < s.len() && row_key(#[trigger] s[i]) == k by {
            if rows_map(pre).contains_key(k) {
                let i = choose|i: int| 0 <= i < pre.len() && row_key(#[trigger] pre[i]) == k;
                assert(s[i] == pre[i]);
            }
            if exists|i: int| 0 <= i < s.len() && row_key(#[trigger] s[i]) == k {
                let i = choose|i: int| 0 <= i < s.len() && row_key(#[trigger] s[i]) == k;
                if i < pre.len() {
                    assert(row_key(pre[i]) == k);
                }
            }
        }
        assert forall|i: int| 0 <= i < s.len() implies rows_map(s)[row_key(#[trigger] s[i])]
            == s[i] by {
            if i < pre.len() {
                assert(pre[i] == s[i]);
                assert(row_key(s[i]) != row_key(s[s.len() - 1]));
            }
        }
    }
}

/// Relies on uuid::Uuid::new_v4 (and Uuid::as_u128): a fresh random
/// identifier. Nothing is promised of its value.
#[verifier::external_body]
pub(crate) fn fresh_id() -> (r: u128) {
    uuid::Uuid::new_v4().as_u128()
}

/// Builds an entry for a local write: a fresh id, this device, and the next
/// timestamp of `clock`; `None` only once the clock is exhausted.
pub fn build_oplog_entry(
    clock: &mut HybridLogicalClock,
    device_id: u128,
    table: &str,
    op_type: OpType,
    key: &str,
    data: &str,
) -> (r: Option<OplogEntry>)
    requires
        old(clock).wf(),
    ensures
        final(clock).wf(),
        match r {
            Some(e) => {
                &&& e.device_id == device_id
                &&& e.table@ == table@
                &&& e.op_type == op_type
                &&& e.key@ == key@
                &&& e.data@ == data@
                &&& e.timestamp == final(clock).last.packed()
                &&& e.timestamp > old(clock).last.packed()
            },
            None => final(clock).last == old(clock).last && crate::hlc::exhausted_spec(
                old(clock).last,
            ),
        },
{
    match clock.now() {
        Some(ts) => Some(
            OplogEntry {
                id: fresh_id(),
                device_id,
                timestamp: ts,
                table: table.to_string(),
                op_type,
                key: key.to_string(),
                data: data.to_string(),
            },
        ),
        None => None,
    }
}

/// One device's replica: its clock, the winning entry per record, and the
/// oplog.
pub struct Replica {
    device_id: u128,
    clock: HybridLogicalClock,
    winners: Vec<OplogEntry>,
    log: Vec<OplogEntry>,
    ids: HashSet<u128>,
}

impl Replica {
    pub closed spec fn state(&self) -> ReplicaState {
        ReplicaState { table: rows_map(self.winners@), log: self.log@ }
    }

    pub closed spec fn device(&self) -> u128 {
        self.device_id
    }

    /// The last timestamp the replica's clock has emitted.
    pub closed spec fn clock_last(&self) -> HlcTimestamp {
        self.clock.last
    }

    pub closed spec fn wf(&self) -> bool {
        &&& unique_rows(self.winners@)
        &&& state_wf(self.state())
        &&& self.clock.wf()
        &&& forall|id: u128| self.ids@.contains(id) <==> log_has_id(self.log@, id)
    }

    /// A replica's state always meets the model's invariants.
    pub proof fn lemma_state_wf(&self)
        requires
            self.wf(),
        ensures
            state_wf(self.state()),
    {
    }

    /// An empty replica for `device_id`.
    pub fn new(device_id: u128) -> (r: Replica)
        ensures
            r.wf(),
            r.device() == device_id,
            r.state().table == Map::<RowKey, OplogEntry>::empty(),
            r.state().log == Seq::<OplogEntry>::empty(),
    {
        let r = Replica {
            device_id,
            clock: HybridLogicalClock::new(),
            winners: Vec::new(),
            log: Vec::new(),
            ids: HashSet::new(),
        };
        assert(r.state().table =~= Map::<RowKey, OplogEntry>::empty());
        r
    }

    pub fn device_id(&self) -> (r: u128)
        ensures
            r == self.device(),
    {
        self.device_id
    }

    /// Whether an entry with this id is in the oplog.
    pub fn contains(&self, id: u128) -> (r: bool)
        requires
            self.wf(),
        ensures
            r == log_has_id(self.state().log, id),
    {
        self.ids.contains(&id)
    }

    fn find_row(&self, e: &OplogEntry) -> (r: Option<usize>)
        ensures
            match r {
                Some(i) => i < self.winners@.len() && row_key(self.winners@[i as int]) == row_key(*e),
                None => forall|i: int|
                    0 <= i < self.winners@.len() ==> row_key(#[trigger] self.winners@[i]) != row_key(*e),
            },
    {
        let mut i: usize = 0;
        while i < self.winners.len()
            invariant
                0 <= i <= self.winners@.len(),
                forall|j: int| 0 <= j < i ==> row_key(#[trigger] self.winners@[j]) != row_key(*e),
            decreases self.winners@.len() - i,
        {
            if self.winners[i].same_row(e) {
                return Some(i);
            }
            i += 1;
        }
        None
    }

    fn apply_winner(&mut self, e: OplogEntry)
        requires
            unique_rows(old(self).winners@),
        ensures
            unique_rows(final(self).winners@),
            rows_map(final(self).winners@) == apply_spec(rows_map(old(self).winners@), e),
            final(self).log == old(self).log,
            final(self).clock == old(self).clock,
            final(self).device_id == old(self).device_id,
            final(self).ids == old(self).ids,
    {
        let ghost before = self.winners@;
        proof {
            lemma_rows_map(before);
        }
        match self.find_row(&e) {
            Some(i) => {
                assert(rows_map(before).contains_key(row_key(e)));
                assert(rows_map(before)[row_key(e)] == before[i as int]);
                if self.winners[i].precedes(&e) {
                    self.winners.set(i, e);
                    let ghost after = self.winners@;
                    assert(unique_rows(after)) by {
                        assert forall|a: int, b: int|
                            0 <= a < after.len() && 0 <= b < after.len() && a != b implies row_key(
                            #[trigger] after[a],
                        ) != row_key(#[trigger] after[b]) by {
                            assert(row_key(after[a]) == row_key(before[a]));
                            assert(row_key(after[b]) == row_key(before[b]));
                        }
                    }
                    proof {
                        lemma_rows_map(after);
                    }
                    assert forall|k: RowKey| #[trigger] rows_map(after).contains_key(k) == rows_map(
                        before,
                    ).insert(row_key(e), e).contains_key(k) && (rows_map(after).contains_key(k)
                        ==> rows_map(after)[k] == rows_map(before).insert(row_key(e), e)[k]) by {
                        if rows_map(after).contains_key(k) {
                            let j = choose|j: int| 0 <= j < after.len() && row_key(#[trigger] after[j]) == k;
                            assert(row_key(before[j]) == k);
                        }
                        if rows_map(before).contains_key(k) {
                            let j = choose|j: int| 0 <= j < before.len() && row_key(#[trigger] before[j]) == k;
                            assert(row_key(after[j]) == k);
                        }
                    }
                    assert(rows_map(after) =~= rows_map(before).insert(row_key(e), e));
                }
            },
            None => {
                assert(!rows_map(before).contains_key(row_key(e)));
                self.winners.push(e);
                assert(self.winners@.drop_last() =~= before);
                let ghost after = self.winners@;
                assert(unique_rows(after)) by {
                    assert forall|a: int, b: int|
                        0 <= a < after.len() && 0 <= b < after.len() && a != b implies row_key(
                        #[trigger] after[a],
                    ) != row_key(#[trigger] after[b]) by {
                        if a < before.len() {
                            assert(after[a] == before[a]);
                        }
                        if b < before.len() {
                            assert(after[b] == before[b]);
                        }
                    }
                }
            },
        }
    }

    /// Merges one entry: skipped when its id is already logged, else applied
    /// under last-writer-wins and appended to the oplog.
    pub fn merge_one(&mut self, e: OplogEntry)
        requires
            old(self).wf(),
        ensures
            final(self).wf(),
            final(self).device() == old(self).device(),
            final(self).state() == step_spec(old(self).state(), e),
    {
        if self.contains(e.id) {
            return;
        }
        let ghost st = self.state();
        let copy = e.duplicate();
        self.apply_winner(copy);
        self.ids.insert(e.id);
        let ghost log_before = self.log@;
        self.log.push(e);
        proof {
            assert forall|id: u128| self.ids@.contains(id) <==> log_has_id(self.log@, id) by {
                if log_has_id(log_before, id) {
                    let i = choose|i: int| 0 <= i < log_before.len() && (#[trigger] log_before[i]).id == id;
                    assert(self.log@[i] == log_before[i]);
                }
                if log_has_id(self.log@, id) {
                    let i = choose|i: int| 0 <= i < self.log@.len() && (#[trigger] self.log@[i]).id == id;
                    if i < log_before.len() {
                        assert(self.log@[i] == log_before[i]);
                    }
                }
                assert(self.log@[self.log@.len() - 1] == e);
            }
            let nxt = self.state();
            assert(nxt == step_spec(st, e));
            assert forall|i: int| 0 <= i < nxt.log.len() implies nxt.table.contains_key(
                row_key(#[trigger] nxt.log[i]),
            ) && stamp_le(nxt.log[i], nxt.table[row_key(nxt.log[i])]) by {
                if i < st.log.len() {
                    assert(nxt.log[i] == st.log[i]);
                }
            }
            assert forall|k: RowKey| #[trigger] nxt.table.contains_key(k) implies row_key(nxt.table[k])
                == k && nxt.log.contains(nxt.table[k]) by {
                if k == row_key(e) && nxt.table[k] == e {
                    assert(nxt.log[nxt.log.len() - 1] == e);
                } else {
                    let i = choose|i: int| 0 <= i < st.log.len() && st.log[i] == st.table[k];
                    assert(nxt.log[i] == st.log[i]);
                }
            }
        }
    }

    /// Merges a batch of remote entries: sorted ascending by
    /// `(timestamp, device_id)`, then merged one by one.
    pub fn merge(&mut self, entries: &Vec<OplogEntry>)
        requires
            old(self).wf(),
        ensures
            final(self).wf(),
            final(self).device() == old(self).device(),
            exists|s: Seq<OplogEntry>|
                sorted_by_stamp(s) && s.to_multiset() == entries@.to_multiset() && final(self).state()
                    == merge_spec(old(self).state(), s),
    {
        let sorted = sort_by_stamp(entries);
        let ghost st = self.state();
        let mut i: usize = 0;
        while i < sorted.len()
            invariant
                0 <= i <= sorted@.len(),
                self.wf(),
                self.device() == old(self).device(),
                st == old(self).state(),
                self.state() == merge_spec(st, sorted@.subrange(0, i as int)),
            decreases sorted@.len() - i,
        {
            let e = sorted[i].duplicate();
            self.merge_one(e);
            assert(sorted@.subrange(0, i + 1).drop_last() =~= sorted@.subrange(0, i as int));
            i += 1;
        }
        assert(sorted@.subrange(0, sorted@.len() as int) =~= sorted@);
    }

    /// A local write: stamps a new entry with this device and the next clock
    /// value, applies it under last-writer-wins and appends it to the oplog.
    /// `None`, with nothing changed, only once the clock is exhausted.
    pub fn local_apply(&mut self, table: &str, op_type: OpType, key: &str, data: &str) -> (r:
        Option<OplogEntry>)
        requires
            old(self).wf(),
        ensures
            final(self).wf(),
            final(self).device() == old(self).device(),
            match r {
                Some(e) => {
                    &&& e.device_id == old(self).device()
                    &&& e.table@ == table@
                    &&& e.op_type == op_type
                    &&& e.key@ == key@
                    &&& e.data@ == data@
                    &&& e.timestamp > old(self).clock_last().packed()
                    &&& e.timestamp == final(self).clock_last().packed()
                    &&& final(self).state() == (ReplicaState {
                        table: apply_spec(old(self).state().table, e),
                        log: old(self).state().log.push(e),
                    })
                },
                None => {
                    &&& final(self).state() == old(self).state()
                    &&& final(self).clock_last() == old(self).clock_last()
                    &&& exhausted_spec(old(self).clock_last())
                },
            },
    {
        let e = match build_oplog_entry(&mut self.clock, self.device_id, table, op_type, key, data) {
            Some(e) => e,
            None => return None,
        };
        let ghost st = self.state();
        self.apply_winner(e.duplicate());
        self.ids.insert(e.id);
        let ghost log_before = self.log@;
        self.log.push(e.duplicate());
        proof {
            assert forall|id: u128| self.ids@.contains(id) <==> log_has_id(self.log@, id) by {
                if log_has_id(log_before, id) {
                    let i = choose|i: int| 0 <= i < log_before.len() && (#[trigger] log_before[i]).id == id;
                    assert(self.log@[i] == log_before[i]);
                }
                if log_has_id(self.log@, id) {
                    let i = choose|i: int| 0 <= i < self.log@.len() && (#[trigger] self.log@[i]).id == id;
                    if i < log_before.len() {
                        assert(self.log@[i] == log_before[i]);
                    }
                }
                assert(self.log@[self.log@.len() - 1] == e);
            }
            let nxt = self.state();
            assert forall|i: int| 0 <= i < nxt.log.len() implies nxt.table.contains_key(
                row_key(#[trigger] nxt.log[i]),
            ) && stamp_le(nxt.log[i], nxt.table[row_key(nxt.log[i])]) by {
                if i < st.log.len() {
                    assert(nxt.log[i] == st.log[i]);
                }
            }
            assert forall|k: RowKey| #[trigger] nxt.table.contains_key(k) implies row_key(nxt.table[k])
                == k && nxt.log.contains(nxt.table[k]) by {
                if k == row_key(e) && nxt.table[k] == e {
                    assert(nxt.log[nxt.log.len() - 1] == e);
                } else {
                    let i = choose|i: int| 0 <= i < st.log.len() && st.log[i] == st.table[k];
                    assert(nxt.log[i] == st.log[i]);
                }
            }
        }
        Some(e)
    }

    /// The logged entries with a timestamp above `threshold`, ascending by
    /// `(timestamp, device_id)`.
    pub fn entries_since(&self, threshold: u64) -> (r: Vec<OplogEntry>)
        ensures
            sorted_by_stamp(r@),
            r@.to_multiset() == since_spec(self.state().log, threshold).to_multiset(),
    {
        crate::oplog::entries_since(&self.log, threshold)
    }

    /// The post-image of a live record, if the table holds one.
    pub fn get(&self, table: &str, key: &str) -> (r: Option<String>)
        requires
            self.wf(),
        ensures
            match r {
                Some(d) => visible_spec(self.state().table).contains_key((table@, key@))
                    && d@ == visible_spec(self.state().table)[(table@, key@)],
                None => !visible_spec(self.state().table).contains_key((table@, key@)),
            },
    {
        proof {
            lemma_rows_map(self.winners@);
        }
        let mut i: usize = 0;
        while i < self.winners.len()
            invariant
                0 <= i <= self.winners@.len(),
                self.wf(),
                forall|j: int| 0 <= j < i ==> row_key(#[trigger] self.winners@[j]) != (table@, key@),
            decreases self.winners@.len() - i,
        {
            let w = &self.winners[i];
            if str_eq(w.table.as_str(), table) && str_eq(w.key.as_str(), key) {
                assert(row_key(self.winners@[i as int]) == (table@, key@));
                proof {
                    lemma_rows_map(self.winners@);
                }
                assert(rows_map(self.winners@)[(table@, key@)] == self.winners@[i as int]);
                assert(self.state().table.contains_key((table@, key@)));
                if w.op_type == OpType::Delete {
                    return None;
                }
                return Some(w.data.clone());
            }
            i += 1;
        }
        proof {
            lemma_rows_map(self.winners@);
        }
        None
    }

    /// The number of entries in the oplog.
    pub fn log_len(&self) -> (r: usize)
        ensures
            r == self.state().log.len(),
    {
        self.log.len()
    }
}

} // verus!
