//! Operation-log entries, their total order by `(timestamp, device_id)`, and
//! the ordered range read used to answer sync requests.
use vstd::prelude::*;

verus! {

/// What an operation does to its record.
#[derive(Clone, Copy, Debug, PartialEq, Eq, Structural)]
pub enum OpType {
    Insert,
    Update,
    Delete,
}

/// One journaled operation. `key` is the record's primary key and `data`
/// its serialized post-image (empty for a delete).
#[derive(Clone, Debug)]
pub struct OplogEntry {
    pub id: u128,
    pub device_id: u128,
    pub timestamp: u64,
    pub table: String,
    pub op_type: OpType,
    pub key: String,
    pub data: String,
}

/// Identifies a record: relation name and primary key.
pub type RowKey = (Seq<char>, Seq<char>);

pub open spec fn row_key(e: OplogEntry) -> RowKey {
    (e.table@, e.key@)
}

/// `a` sorts strictly before `b` under `(timestamp, device_id)`.
pub open spec fn stamp_lt(a: OplogEntry, b: OplogEntry) -> bool {
    a.timestamp < b.timestamp || (a.timestamp == b.timestamp && a.device_id < b.device_id)
}

pub open spec fn stamp_le(a: OplogEntry, b: OplogEntry) -> bool {
    !stamp_lt(b, a)
}

pub open spec fn same_stamp(a: OplogEntry, b: OplogEntry) -> bool {
    a.timestamp == b.timestamp && a.device_id == b.device_id
}

/// Ascending by `(timestamp, device_id)`.
pub open spec fn sorted_by_stamp(s: Seq<OplogEntry>) -> bool {
    forall|i: int, j: int| 0 <= i < j < s.len() ==> stamp_le(#[trigger] s[i], #[trigger] s[j])
}

/// The entries of `log` whose timestamp is above `threshold`, in log order.
pub open spec fn since_spec(log: Seq<OplogEntry>, threshold: u64) -> Seq<OplogEntry>
    decreases log.len(),
{
    if log.len() == 0 {
        Seq::empty()
    } else {
        let rest = since_spec(log.drop_last(), threshold);
        if log.last().timestamp > threshold {
            rest.push(log.last())
        } else {
            rest
        }
    }
}

impl OplogEntry {
    /// A field-by-field copy.
    pub fn duplicate(&self) -> (r: OplogEntry)
        ensures
            r == *self,
    {
        OplogEntry {
            id: self.id,
            device_id: self.device_id,
            timestamp: self.timestamp,
            table: self.table.clone(),
            op_type: self.op_type,
            key: self.key.clone(),
            data: self.data.clone(),
        }
    }

    /// Whether `self` sorts strictly before `other`.
    pub fn precedes(&self, other: &OplogEntry) -> (r: bool)
        ensures
            r == stamp_lt(*self, *other),
    {
        self.timestamp < other.timestamp || (self.timestamp == other.timestamp && self.device_id
            < other.device_id)
    }

    /// Whether both name the same record.
    pub fn same_row(&self, other: &OplogEntry) -> (r: bool)
        ensures
            r == (row_key(*self) == row_key(*other)),
    {
        self.table == other.table && self.key == other.key
    }
}

proof fn lemma_insert_to_multiset<A>(s: Seq<A>, j: int, x: A)
    requires
        0 <= j <= s.len(),
    ensures
        s.insert(j, x).to_multiset() =~= s.to_multiset().insert(x),
{
    broadcast use vstd::seq_lib::group_to_multiset_ensures;

    let t = s.insert(j, x);
    assert(t.remove(j) =~= s);
    assert(t[j] == x);
    assert(t.to_multiset().count(x) > 0) by {
        assert(t.contains(x));
    }
}

/// Inserts `x` into the sorted `out`, after every entry that does not sort
/// after it.
pub fn insert_sorted(out: &mut Vec<OplogEntry>, x: OplogEntry)
    requires
        sorted_by_stamp(old(out)@),
    ensures
        sorted_by_stamp(final(out)@),
        final(out)@.to_multiset() == old(out)@.to_multiset().insert(x),
        final(out)@.len() == old(out)@.len() + 1,
{
    let mut j: usize = 0;
    while j < out.len() && !x.precedes(&out[j])
        invariant
            0 <= j <= out@.len(),
            forall|i: int| 0 <= i < j ==> stamp_le(#[trigger] out@[i], x),
        decreases out@.len() - j,
    {
        j += 1;
    }
    proof {
        lemma_insert_to_multiset(out@, j as int, x);
    }
    let ghost before = out@;
    out.insert(j, x);
    assert(sorted_by_stamp(out@)) by {
        assert forall|a: int, b: int| 0 <= a < b < out@.len() implies stamp_le(
            #[trigger] out@[a],
            #[trigger] out@[b],
        ) by {
            if b < j {
            } else if b == j {
            } else if a < j {
                assert(out@[b] == before[b - 1]);
                assert(stamp_le(before[j as int], before[b - 1]));
            } else if a == j {
                assert(out@[b] == before[b - 1]);
                assert(stamp_le(before[j as int], before[b - 1]));
            } else {
                assert(out@[a] == before[a - 1]);
                assert(out@[b] == before[b - 1]);
            }
        }
    }
}

/// A copy of `entries` sorted ascending by `(timestamp, device_id)`.
pub fn sort_by_stamp(entries: &Vec<OplogEntry>) -> (r: Vec<OplogEntry>)
    ensures
        sorted_by_stamp(r@),
        r@.to_multiset() == entries@.to_multiset(),
        r@.len() == entries@.len(),
{
    let mut out: Vec<OplogEntry> = Vec::new();
    let mut i: usize = 0;
    assert(entries@.subrange(0, 0) =~= out@);
    while i < entries.len()
        invariant
            0 <= i <= entries@.len(),
            sorted_by_stamp(out@),
            out@.to_multiset() == entries@.subrange(0, i as int).to_multiset(),
            out@.len() == i,
        decreases entries@.len() - i,
    {
        let e = entries[i].duplicate();
        insert_sorted(&mut out, e);
        proof {
            broadcast use vstd::seq_lib::group_to_multiset_ensures;

            assert(entries@.subrange(0, i + 1) =~= entries@.subrange(0, i as int).push(e));
        }
        i += 1;
    }
    assert(entries@.subrange(0, entries@.len() as int) =~= entries@);
    out
}

/// The entries of `log` with a timestamp above `threshold`, sorted ascending
/// by `(timestamp, device_id)`.
pub fn entries_since(log: &Vec<OplogEntry>, threshold: u64) -> (r: Vec<OplogEntry>)
    ensures
        sorted_by_stamp(r@),
        r@.to_multiset() == since_spec(log@, threshold).to_multiset(),
{
    let mut out: Vec<OplogEntry> = Vec::new();
    let mut i: usize = 0;
    assert(since_spec(log@.subrange(0, 0), threshold) =~= out@);
    while i < log.len()
        invariant
            0 <= i <= log@.len(),
            sorted_by_stamp(out@),
            out@.to_multiset() == since_spec(log@.subrange(0, i as int), threshold).to_multiset(),
        decreases log@.len() - i,
    {
        proof {
            assert(log@.subrange(0, i + 1).drop_last() =~= log@.subrange(0, i as int));
        }
        if log[i].timestamp > threshold {
            let e = log[i].duplicate();
            insert_sorted(&mut out, e);
            proof {
                broadcast use vstd::seq_lib::group_to_multiset_ensures;

            }
        }
        i += 1;
    }
    assert(log@.subrange(0, log@.len() as int) =~= log@);
    out
}


/// The total of `sizes[a..b]`.
pub open spec fn size_sum(sizes: Seq<usize>, a: int, b: int) -> nat
    decreases b - a,
{
    if b <= a {
        0
    } else {
        size_sum(sizes, a, b - 1) + sizes[b - 1] as nat
    }
}

/// Where batch `k` of `ends` starts.
pub open spec fn batch_start(ends: Seq<usize>, k: int) -> int {
    if k == 0 {
        0
    } else {
        ends[k - 1] as int
    }
}

/// `ends` cuts `sizes` greedily into consecutive non-empty batches: each
/// stays within `budget` unless it is a single oversized item, and each
/// batch but the last would exceed `budget` with one more item.
pub open spec fn greedy_cuts(sizes: Seq<usize>, budget: nat, ends: Seq<usize>) -> bool {
    &&& (sizes.len() == 0 <==> ends.len() == 0)
    &&& ends.len() > 0 ==> ends.last() == sizes.len()
    &&& forall|k: int|
        0 <= k < ends.len() ==> {
            let a = batch_start(ends, k);
            let b = #[trigger] ends[k] as int;
            &&& a < b <= sizes.len()
            &&& (size_sum(sizes, a, b) <= budget || b == a + 1)
            &&& (b < sizes.len() ==> size_sum(sizes, a, b + 1) > budget)
        }
}

/// Cuts a run of items with the given encoded sizes into batches for
/// publications of at most `budget` bytes; returns each batch's end index.
pub fn batch_ends(sizes: &Vec<usize>, budget: usize) -> (r: Vec<usize>)
    ensures
        greedy_cuts(sizes@, budget as nat, r@),
{
    let n = sizes.len();
    let mut ends: Vec<usize> = Vec::new();
    if n == 0 {
        return ends;
    }
    let mut start: usize = 0;
    let mut acc: usize = sizes[0];
    let mut i: usize = 1;
    assert(size_sum(sizes@, 0, 0) == 0);
    assert(size_sum(sizes@, 0, 1) == sizes@[0]);
    while i < n
        invariant
            n == sizes@.len(),
            0 <= start < i <= n,
            acc as nat == size_sum(sizes@, start as int, i as int),
            acc as nat <= budget || i == start + 1,
            ends@.len() == 0 ==> start == 0,
            ends@.len() > 0 ==> ends@.last() == start,
            forall|k: int|
                0 <= k < ends@.len() ==> {
                    let a = batch_start(ends@, k);
                    let b = #[trigger] ends@[k] as int;
                    &&& a < b <= start
                    &&& (size_sum(sizes@, a, b) <= budget || b == a + 1)
                    &&& (b < n ==> size_sum(sizes@, a, b + 1) > budget)
                },
        decreases n - i,
    {
        let s = sizes[i];
        if acc > budget || s > budget - acc {
            assert(size_sum(sizes@, start as int, i + 1) > budget);
            let ghost old_ends = ends@;
            ends.push(i);
            assert forall|k: int| 0 <= k < ends@.len() implies {
                let a = batch_start(ends@, k);
                let b = #[trigger] ends@[k] as int;
                &&& a < b <= i
                &&& (size_sum(sizes@, a, b) <= budget || b == a + 1)
                &&& (b < n ==> size_sum(sizes@, a, b + 1) > budget)
            } by {
                if k < old_ends.len() {
                    assert(ends@[k] == old_ends[k]);
                    if k > 0 {
                        assert(ends@[k - 1] == old_ends[k - 1]);
                    }
                }
            }
            start = i;
            acc = s;
            assert(size_sum(sizes@, i as int, i as int) == 0);
            assert(size_sum(sizes@, i as int, i + 1) == s);
        } else {
            assert(size_sum(sizes@, start as int, i + 1) == size_sum(sizes@, start as int, i as int)
                + s);
            acc = acc + s;
        }
        i += 1;
    }
    let ghost old_ends = ends@;
    ends.push(n);
    assert forall|k: int| 0 <= k < ends@.len() implies {
        let a = batch_start(ends@, k);
        let b = #[trigger] ends@[k] as int;
        &&& a < b <= n
        &&& (size_sum(sizes@, a, b) <= budget || b == a + 1)
        &&& (b < n ==> size_sum(sizes@, a, b + 1) > budget)
    } by {
        if k < old_ends.len() {
            assert(ends@[k] == old_ends[k]);
            if k > 0 {
                assert(ends@[k - 1] == old_ends[k - 1]);
            }
        }
    }
    ends
}

} // verus!
