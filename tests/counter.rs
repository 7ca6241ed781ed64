use counter64::split16;
use counter64::split32;
use counter64::split8;
use counter64::wide;
use counter64::Counter;

#[test]
fn test_incr_returns_prev() {
    let mut prev = 0;
    let counter = Counter::new();

    for _ in 0..80000 {
        let curr = counter.incr();
        assert_eq!(curr, prev);
        prev += 1;
    }
}

#[test]
fn split_counters_incr_return_prev() {
    let a = split32::Counter::new();
    let b = split16::Counter::new();
    let c = split8::Counter::new();
    for k in 0..80000u64 {
        assert_eq!(a.incr(), k);
        assert_eq!(b.incr(), k);
        assert_eq!(c.incr(), k);
    }
    assert_eq!(a.get(), 80000);
    assert_eq!(b.get(), 80000);
    assert_eq!(c.get(), 80000);
}

#[test]
fn seeded_incr_returns_seed_plus_k() {
    let seed = 0x0000_00FF_FFFF_FF00u64;
    let a = split32::Counter::with_init(seed);
    let b = split16::Counter::with_init(seed);
    let c = split8::Counter::with_init(seed);
    let d = wide::Counter::with_init(seed);
    for k in 0..1000u64 {
        assert_eq!(a.incr(), seed + k);
        assert_eq!(b.incr(), seed + k);
        assert_eq!(c.incr(), seed + k);
        assert_eq!(d.incr(), seed + k);
    }
}

#[test]
fn new_counters_start_at_zero() {
    assert_eq!(Counter::new().get(), 0);
    assert_eq!(wide::Counter::new().get(), 0);
    assert_eq!(split32::Counter::new().get(), 0);
    assert_eq!(split16::Counter::new().get(), 0);
    assert_eq!(split8::Counter::new().get(), 0);
}

#[test]
fn seeding_round_trips() {
    let seeds = [
        0u64,
        1,
        0xFF,
        0x100,
        0xFFFF,
        0xFFFF_FFFF,
        0x1_0000_0000,
        0x0123_4567_89AB_CDEF,
        0x8000_0000_0000_0000,
        u64::MAX,
    ];
    for &x in seeds.iter() {
        assert_eq!(wide::Counter::with_init(x).get(), x);
        assert_eq!(split32::Counter::with_init(x).get(), x);
        assert_eq!(split16::Counter::with_init(x).get(), x);
        assert_eq!(split8::Counter::with_init(x).get(), x);
    }
}

#[test]
fn carry_crosses_low_half() {
    let seed = (1u64 << 32) - 1;
    let a = split32::Counter::with_init(seed);
    assert_eq!(a.incr(), seed);
    assert_eq!(a.get(), 1u64 << 32);
    let b = split16::Counter::with_init(seed);
    assert_eq!(b.incr(), seed);
    assert_eq!(b.get(), 1u64 << 32);
    let c = split8::Counter::with_init(seed);
    assert_eq!(c.incr(), seed);
    assert_eq!(c.get(), 1u64 << 32);
    let d = wide::Counter::with_init(seed);
    assert_eq!(d.incr(), seed);
    assert_eq!(d.get(), 1u64 << 32);
}

#[test]
fn carry_stops_at_first_cell_that_does_not_roll_over() {
    let c = split8::Counter::with_init(0x0000_0000_01FF_FFFF);
    c.incr();
    assert_eq!(c.get(), 0x0000_0000_0200_0000);
    let b = split16::Counter::with_init(0x0000_0001_FFFF_FFFF);
    b.incr();
    assert_eq!(b.get(), 0x0000_0002_0000_0000);
    let a = split32::Counter::with_init(0x0000_0005_FFFF_FFFE);
    a.incr();
    assert_eq!(a.get(), 0x0000_0005_FFFF_FFFF);
}

#[test]
fn counters_wrap_past_largest_value() {
    let a = split32::Counter::with_init(u64::MAX);
    assert_eq!(a.incr(), u64::MAX);
    assert_eq!(a.get(), 0);
    let b = split16::Counter::with_init(u64::MAX);
    assert_eq!(b.incr(), u64::MAX);
    assert_eq!(b.get(), 0);
    let c = split8::Counter::with_init(u64::MAX);
    assert_eq!(c.incr(), u64::MAX);
    assert_eq!(c.get(), 0);
    let d = wide::Counter::with_init(u64::MAX);
    assert_eq!(d.incr(), u64::MAX);
    assert_eq!(d.get(), 0);
}

#[test]
fn serial_increments_are_all_counted() {
    let a = split32::Counter::new();
    let b = split16::Counter::new();
    let c = split8::Counter::new();
    let d = Counter::new();
    for _ in 0..8 {
        for _ in 0..80000 {
            a.incr();
            b.incr();
            c.incr();
            d.incr();
        }
    }
    assert_eq!(a.get(), 640000);
    assert_eq!(b.get(), 640000);
    assert_eq!(c.get(), 640000);
    assert_eq!(d.get(), 640000);
}

#[test]
fn serial_increments_across_low_half_rollover() {
    let seed = u32::MAX as u64 - 80000;
    let a = split32::Counter::with_init(seed);
    let b = split16::Counter::with_init(seed);
    let c = split8::Counter::with_init(seed);
    let d = Counter::with_init(seed);
    for _ in 0..640000 {
        a.incr();
        b.incr();
        c.incr();
        d.incr();
    }
    assert_eq!(a.get(), u32::MAX as u64 - 80000 + 640000);
    assert_eq!(b.get(), u32::MAX as u64 - 80000 + 640000);
    assert_eq!(c.get(), u32::MAX as u64 - 80000 + 640000);
    assert_eq!(d.get(), u32::MAX as u64 - 80000 + 640000);
}

#[test]
fn split_and_join_exact_values() {
    let x = 0x0123_4567_89AB_CDEFu64;
    assert_eq!(split32::split(x), (0x89AB_CDEF, 0x0123_4567));
    assert_eq!(split32::join(0x89AB_CDEF, 0x0123_4567), x);
    assert_eq!(split16::split(x), [0xCDEF, 0x89AB, 0x4567, 0x0123]);
    assert_eq!(split16::join([0xCDEF, 0x89AB, 0x4567, 0x0123]), x);
    assert_eq!(split8::split(x), [0xEF, 0xCD, 0xAB, 0x89, 0x67, 0x45, 0x23, 0x01]);
    assert_eq!(split8::join([0xEF, 0xCD, 0xAB, 0x89, 0x67, 0x45, 0x23, 0x01]), x);
    assert_eq!(split32::join(0, 1), 1u64 << 32);
    assert_eq!(split16::join([0, 0, 0, 1]), 1u64 << 48);
    assert_eq!(split8::join([0, 0, 0, 0, 0, 0, 0, 1]), 1u64 << 56);
}

#[test]
fn snapshot_stands_only_when_low_cell_agrees() {
    assert_eq!(split32::snapshot(0x89AB_CDEF, 0x0123_4567, 0x89AB_CDEF), Some(0x0123_4567_89AB_CDEF));
    assert_eq!(split32::snapshot(u32::MAX, 0, 0), None);
    assert_eq!(split32::snapshot(0, 1, 0), Some(1u64 << 32));
    assert_eq!(
        split16::snapshot([0xCDEF, 0x89AB, 0x4567, 0x0123], 0xCDEF),
        Some(0x0123_4567_89AB_CDEF)
    );
    assert_eq!(split16::snapshot([0xFFFF, 0, 0, 0], 0), None);
    assert_eq!(
        split8::snapshot([0xEF, 0xCD, 0xAB, 0x89, 0x67, 0x45, 0x23, 0x01], 0xEF),
        Some(0x0123_4567_89AB_CDEF)
    );
    assert_eq!(split8::snapshot([0xFF, 0, 0, 0, 0, 0, 0, 0], 0), None);
}

#[test]
fn counters_print_for_debugging() {
    assert!(!format!("{:?}", wide::Counter::with_init(5)).is_empty());
    assert!(!format!("{:?}", split32::Counter::with_init(5)).is_empty());
    assert!(!format!("{:?}", split16::Counter::with_init(5)).is_empty());
    assert!(!format!("{:?}", split8::Counter::with_init(5)).is_empty());
}

#[test]
fn carry_only_from_a_cell_at_its_largest_value() {
    assert!(split32::carries(u32::MAX));
    assert!(!split32::carries(u32::MAX - 1));
    assert!(!split32::carries(0));
    assert!(split16::carries(u16::MAX));
    assert!(!split16::carries(u16::MAX - 1));
    assert!(!split16::carries(0));
    assert!(split8::carries(u8::MAX));
    assert!(!split8::carries(u8::MAX - 1));
    assert!(!split8::carries(0));
}
