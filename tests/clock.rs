use nexus_core::{HlcTimestamp, HybridLogicalClock};

#[test]
fn ticks_are_strictly_increasing() {
    let mut c = HybridLogicalClock::new();
    let a = c.tick(100).unwrap();
    let b = c.tick(100).unwrap();
    let d = c.tick(50).unwrap();
    let e = c.tick(200).unwrap();
    assert_eq!(a, 100 << 16);
    assert_eq!(b, (100 << 16) + 1);
    assert_eq!(d, (100 << 16) + 2);
    assert_eq!(e, 200 << 16);
}

#[test]
fn logical_counter_carries() {
    let mut c = HybridLogicalClock { last: HlcTimestamp { physical: 5, logical: u16::MAX } };
    assert_eq!(c.tick(1), Some(6 << 16));
}

#[test]
fn exhausted_clock_stops() {
    let mut c = HybridLogicalClock { last: HlcTimestamp { physical: 0xffff_ffff_ffff, logical: u16::MAX } };
    assert_eq!(c.tick(u64::MAX), None);
    assert_eq!(c.last.logical, u16::MAX);
}

#[test]
fn observe_takes_componentwise_max() {
    let mut c = HybridLogicalClock { last: HlcTimestamp { physical: 10, logical: 7 } };
    assert!(c.observe((20 << 16) + 3));
    assert_eq!(c.last, HlcTimestamp { physical: 20, logical: 8 });
}

#[test]
fn pack_round_trip() {
    let t = HlcTimestamp { physical: 123456, logical: 789 };
    let packed = t.to_timestamp();
    assert_eq!(packed, (123456 << 16) | 789);
    assert_eq!(HlcTimestamp::from_timestamp(packed), t);
}

#[test]
fn now_is_monotone() {
    let mut c = HybridLogicalClock::new();
    let a = c.now().unwrap();
    let b = c.now().unwrap();
    assert!(b > a);
}
