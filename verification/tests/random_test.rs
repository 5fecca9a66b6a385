use vrp_core::random::{Random, PROBABILITY_SCALE};

#[test]
fn same_seed_gives_same_sequence() {
    let mut a = Random::new(42);
    let mut b = Random::new(42);
    for _ in 0..16 {
        assert_eq!(a.next_u64(), b.next_u64());
    }
}

#[test]
fn zero_seed_is_replaced() {
    let mut r = Random::new(0);
    assert_ne!(r.next_u64(), 0);
}

#[test]
fn certain_probability_always_hits() {
    let mut r = Random::new(7);
    for _ in 0..32 {
        assert!(r.is_hit(PROBABILITY_SCALE));
    }
}

#[test]
fn zero_probability_never_hits() {
    let mut r = Random::new(7);
    for _ in 0..32 {
        assert!(!r.is_hit(0));
    }
}

#[test]
fn ranged_draws_stay_in_range() {
    let mut r = Random::new(11);
    for _ in 0..64 {
        let v = r.next_in_range(3, 9);
        assert!((3..9).contains(&v));
    }
}
