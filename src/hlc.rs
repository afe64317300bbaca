//! Hybrid logical clock: wall-clock milliseconds in the high 48 bits of a
//! timestamp, a logical counter in the low 16 bits.
use vstd::prelude::*;

verus! {

/// The largest physical component a timestamp can carry (48 bits).
pub const MAX_PHYSICAL_MS: u64 = 0xffff_ffff_ffff;

/// The largest logical component a timestamp can carry (16 bits).
pub const MAX_LOGICAL: u16 = 0xffff;

/// One reading of the clock, as its two components.
#[derive(Clone, Copy, Debug, PartialEq, Eq, Structural)]
pub struct HlcTimestamp {
    pub physical: u64,
    pub logical: u16,
}

/// The 64-bit packing of a (physical, logical) pair.
pub open spec fn pack_spec(physical: int, logical: int) -> int {
    physical * 65536 + logical
}

/// The pair that a packed value stands for.
pub open spec fn unpack_spec(ts: u64) -> HlcTimestamp {
    HlcTimestamp { physical: (ts / 65536) as u64, logical: (ts % 65536) as u16 }
}

impl HlcTimestamp {
    pub open spec fn wf(self) -> bool {
        self.physical <= MAX_PHYSICAL_MS
    }

    pub open spec fn packed(self) -> int {
        pack_spec(self.physical as int, self.logical as int)
    }

    /// Packs the pair into one ordered 64-bit value.
    pub fn to_timestamp(&self) -> (r: u64)
        requires
            self.wf(),
        ensures
            r == self.packed(),
    {
        assert(self.physical * 65536 + self.logical <= 0xffff_ffff_ffff_ffffu64) by (nonlinear_arith)
            requires
                self.physical <= 0xffff_ffff_ffffu64,
                self.logical <= 0xffffu16,
        ;
        self.physical * 65536 + self.logical as u64
    }

    /// Splits a packed value back into its pair.
    pub fn from_timestamp(ts: u64) -> (r: HlcTimestamp)
        ensures
            r == unpack_spec(ts),
            r.wf(),
            r.packed() == ts,
    {
        assert(ts / 65536 <= 0xffff_ffff_ffffu64) by (nonlinear_arith);
        HlcTimestamp { physical: ts / 65536, logical: (ts % 65536) as u16 }
    }
}

/// Packing then unpacking gives the pair back; unpacking then packing gives
/// the value back.
pub proof fn lemma_pack_round_trip(t: HlcTimestamp, ts: u64)
    requires
        t.wf(),
    ensures
        0 <= t.packed() <= u64::MAX,
        unpack_spec(t.packed() as u64) == t,
        unpack_spec(ts).packed() == ts,
{
    assert(t.physical * 65536 + t.logical <= 0xffff_ffff_ffff_ffffu64) by (nonlinear_arith)
        requires
            t.physical <= 0xffff_ffff_ffffu64,
            t.logical <= 0xffffu16,
    ;
    let p = t.packed();
    assert(p / 65536 == t.physical && p % 65536 == t.logical) by (nonlinear_arith)
        requires
            p == t.physical * 65536 + t.logical,
            0 <= t.logical < 65536,
    ;
}

/// Packing keeps the lexicographic order of the pairs.
pub proof fn lemma_pack_order(a: HlcTimestamp, b: HlcTimestamp)
    ensures
        a.packed() < b.packed() <==> (a.physical < b.physical || (a.physical == b.physical
            && a.logical < b.logical)),
{
    assert(a.packed() < b.packed() <==> (a.physical < b.physical || (a.physical == b.physical
        && a.logical < b.logical))) by (nonlinear_arith)
        requires
            0 <= a.logical < 65536,
            0 <= b.logical < 65536,
            a.packed() == a.physical * 65536 + a.logical,
            b.packed() == b.physical * 65536 + b.logical,
    ;
}

/// The pair that follows `t` by one logical step, carrying into the physical
/// component when the counter is full.
pub open spec fn successor_spec(t: HlcTimestamp) -> HlcTimestamp {
    if t.logical < MAX_LOGICAL {
        HlcTimestamp { physical: t.physical, logical: (t.logical + 1) as u16 }
    } else {
        HlcTimestamp { physical: (t.physical + 1) as u64, logical: 0 }
    }
}

/// Whether `t` is the last pair the clock can hold.
pub open spec fn exhausted_spec(t: HlcTimestamp) -> bool {
    t.physical >= MAX_PHYSICAL_MS && t.logical == MAX_LOGICAL
}

/// A wall-clock reading limited to what the physical component can hold.
pub open spec fn clamp_spec(wall_ms: u64) -> u64 {
    if wall_ms > MAX_PHYSICAL_MS {
        MAX_PHYSICAL_MS
    } else {
        wall_ms
    }
}

/// What one reading of the clock emits after `last`, given the wall time:
/// the wall time with a zero counter if it is ahead, else `last` advanced by
/// one logical step; nothing once the clock is exhausted.
pub open spec fn tick_spec(last: HlcTimestamp, wall_ms: u64) -> Option<HlcTimestamp> {
    let pt = clamp_spec(wall_ms);
    if pt > last.physical {
        Some(HlcTimestamp { physical: pt, logical: 0 })
    } else if exhausted_spec(last) {
        None
    } else {
        Some(successor_spec(last))
    }
}

/// The component-wise maximum of two pairs, advanced by one logical step.
pub open spec fn observe_spec(local: HlcTimestamp, remote: HlcTimestamp) -> Option<HlcTimestamp> {
    let m = HlcTimestamp {
        physical: if local.physical >= remote.physical {
            local.physical
        } else {
            remote.physical
        },
        logical: if local.logical >= remote.logical {
            local.logical
        } else {
            remote.logical
        },
    };
    if exhausted_spec(m) {
        None
    } else {
        Some(successor_spec(m))
    }
}

proof fn lemma_successor_greater(t: HlcTimestamp)
    requires
        t.wf(),
        !exhausted_spec(t),
    ensures
        successor_spec(t).wf(),
        successor_spec(t).packed() == t.packed() + 1,
{
}

/// A clock emits strictly increasing timestamps on one device.
pub struct HybridLogicalClock {
    pub last: HlcTimestamp,
}

impl HybridLogicalClock {
    pub open spec fn wf(&self) -> bool {
        self.last.wf()
    }

    /// A clock that has emitted nothing yet.
    pub fn new() -> (r: HybridLogicalClock)
        ensures
            r.wf(),
            r.last == (HlcTimestamp { physical: 0, logical: 0 }),
    {
        HybridLogicalClock { last: HlcTimestamp { physical: 0, logical: 0 } }
    }

    /// Emits the next timestamp for the wall-clock reading `wall_ms`; `None`
    /// (and no change) only once the clock has reached its last value.
    pub fn tick(&mut self, wall_ms: u64) -> (r: Option<u64>)
        requires
            old(self).wf(),
        ensures
            final(self).wf(),
            match tick_spec(old(self).last, wall_ms) {
                Some(t) => final(self).last == t && r == Some(t.packed() as u64),
                None => final(self).last == old(self).last && r is None,
            },
            r matches Some(v) ==> v > old(self).last.packed(),
    {
        let pt = if wall_ms > MAX_PHYSICAL_MS {
            MAX_PHYSICAL_MS
        } else {
            wall_ms
        };
        let next = if pt > self.last.physical {
            HlcTimestamp { physical: pt, logical: 0 }
        } else if self.last.physical >= MAX_PHYSICAL_MS && self.last.logical == MAX_LOGICAL {
            return None;
        } else if self.last.logical < MAX_LOGICAL {
            HlcTimestamp { physical: self.last.physical, logical: self.last.logical + 1 }
        } else {
            HlcTimestamp { physical: self.last.physical + 1, logical: 0 }
        };
        proof {
            lemma_pack_order(self.last, next);
        }
        self.last = next;
        Some(next.to_timestamp())
    }

    /// Merges a remote timestamp into the clock: the state becomes the
    /// component-wise maximum, advanced by one logical step. Returns false
    /// (and changes nothing) only when that step cannot be represented.
    pub fn observe(&mut self, remote: u64) -> (advanced: bool)
        requires
            old(self).wf(),
        ensures
            final(self).wf(),
            match observe_spec(old(self).last, unpack_spec(remote)) {
                Some(t) => final(self).last == t && advanced,
                None => final(self).last == old(self).last && !advanced,
            },
            advanced ==> final(self).last.packed() > old(self).last.packed(),
            advanced ==> final(self).last.packed() > remote,
    {
        let r = HlcTimestamp::from_timestamp(remote);
        let m = HlcTimestamp {
            physical: if self.last.physical >= r.physical {
                self.last.physical
            } else {
                r.physical
            },
            logical: if self.last.logical >= r.logical {
                self.last.logical
            } else {
                r.logical
            },
        };
        if m.physical >= MAX_PHYSICAL_MS && m.logical == MAX_LOGICAL {
            return false;
        }
        let next = if m.logical < MAX_LOGICAL {
            HlcTimestamp { physical: m.physical, logical: m.logical + 1 }
        } else {
            HlcTimestamp { physical: m.physical + 1, logical: 0 }
        };
        proof {
            lemma_pack_order(self.last, m);
            lemma_pack_order(r, m);
            lemma_successor_greater(m);
        }
        self.last = next;
        true
    }

    /// Emits the next timestamp for the current wall-clock time (a clock set
    /// before 1970 reads as zero).
    pub fn now(&mut self) -> (r: Option<u64>)
        requires
            old(self).wf(),
        ensures
            final(self).wf(),
            r matches Some(v) ==> v > old(self).last.packed() && v == final(self).last.packed(),
            r is None ==> final(self).last == old(self).last && exhausted_spec(old(self).last),
    {
        let pt: u64 = match wall_clock_ms() {
            Some(ms) => if ms > u64::MAX as u128 {
                u64::MAX
            } else {
                ms as u64
            },
            None => 0,
        };
        self.tick(pt)
    }
}

/// Relies on SystemTime::now, SystemTime::duration_since(UNIX_EPOCH) and
/// Duration::as_millis: milliseconds since the Unix epoch, or `None` when
/// the system clock reads before it. Nothing is promised of the value.
#[verifier::external_body]
fn wall_clock_ms() -> (r: Option<u128>) {
    std::time::SystemTime::now().duration_since(std::time::UNIX_EPOCH).ok().map(|d| d.as_millis())
}

/// The timestamps emitted by successive readings with wall times `pts`,
/// starting after `last`.
pub open spec fn ticks_spec(last: HlcTimestamp, pts: Seq<u64>) -> Seq<HlcTimestamp>
    decreases pts.len(),
{
    if pts.len() == 0 {
        Seq::empty()
    } else {
        let prev = ticks_spec(last, pts.drop_last());
        let cur = if prev.len() == 0 {
            last
        } else {
            prev.last()
        };
        match tick_spec(cur, pts.last()) {
            Some(t) => prev.push(t),
            None => prev,
        }
    }
}

/// Every sequence of readings on one clock emits strictly increasing
/// timestamps, each above the clock's starting value.
pub proof fn lemma_ticks_strictly_increase(last: HlcTimestamp, pts: Seq<u64>)
    requires
        last.wf(),
    ensures
        forall|i: int|
            0 <= i < ticks_spec(last, pts).len() ==> ticks_spec(last, pts)[i].wf()
                && ticks_spec(last, pts)[i].packed() > last.packed(),
        forall|i: int, j: int|
            0 <= i < j < ticks_spec(last, pts).len() ==> ticks_spec(last, pts)[i].packed()
                < ticks_spec(last, pts)[j].packed(),
    decreases pts.len(),
{
    if pts.len() > 0 {
        lemma_ticks_strictly_increase(last, pts.drop_last());
        let prev = ticks_spec(last, pts.drop_last());
        let cur = if prev.len() == 0 {
            last
        } else {
            prev.last()
        };
        match tick_spec(cur, pts.last()) {
            Some(t) => {
                lemma_pack_order(cur, t);
                if !(clamp_spec(pts.last()) > cur.physical) {
                    lemma_successor_greater(cur);
                }
                assert(t.packed() > cur.packed());
                let s = prev.push(t);
                assert forall|i: int, j: int| 0 <= i < j < s.len() implies s[i].packed()
                    < s[j].packed() by {
                    if j == s.len() - 1 && i < prev.len() {
                        assert(prev[i].packed() <= cur.packed());
                    }
                }
            },
            None => {},
        }
    }
}

} // verus!
