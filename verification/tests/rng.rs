use cloudkitty_core::rng::{DecisionRng, SimRng};

#[test]
fn same_seed_produces_the_same_stream() {
    let mut a = SimRng::from_seed(42);
    let mut b = SimRng::from_seed(42);
    for _ in 0..100 {
        assert_eq!(a.next_u64(), b.next_u64());
    }
}

#[test]
fn different_seeds_diverge() {
    let mut a = SimRng::from_seed(1);
    let mut b = SimRng::from_seed(2);
    let a: Vec<u64> = (0..10).map(|_| a.next_u64()).collect();
    let b: Vec<u64> = (0..10).map(|_| b.next_u64()).collect();
    assert_ne!(a, b);
}

#[test]
fn choose_on_empty_slice_is_none() {
    let mut rng = DecisionRng::from_seed(3);
    let empty: [u8; 0] = [];
    assert!(rng.choose_one(&empty).is_none());
}

#[test]
fn draws_stay_in_range_and_empty_ranges_yield_their_floor() {
    let mut rng = SimRng::from_seed(7);
    for _ in 0..200 {
        let r = rng.gen_range_u32(3, 9);
        assert!((3..9).contains(&r));
    }
    assert_eq!(rng.gen_range_u32(5, 5), 5);
    assert_eq!(rng.gen_range_u32(9, 2), 9);
    let mut d = DecisionRng::from_seed(7);
    for _ in 0..200 {
        let r = d.gen_range_usize(0, 4);
        assert!(r < 4);
    }
    assert_eq!(d.gen_range_usize(6, 6), 6);
}

#[test]
fn a_reseeded_stream_restarts_from_its_seed() {
    let mut fresh = DecisionRng::from_seed(11);
    let first: Vec<usize> = (0..8).map(|_| fresh.gen_range_usize(0, 1000)).collect();
    let mut used = DecisionRng::from_seed(99);
    for _ in 0..5 {
        used.gen_range_usize(0, 1000);
    }
    used.reseed(11);
    let again: Vec<usize> = (0..8).map(|_| used.gen_range_usize(0, 1000)).collect();
    assert_eq!(first, again);
}

#[test]
fn derived_decision_streams_follow_the_master_order() {
    let mut m1 = SimRng::from_seed(99);
    let mut m2 = SimRng::from_seed(99);
    let mut s1: Vec<DecisionRng> = (0..4).map(|_| m1.derive_decision_rng()).collect();
    let mut s2: Vec<DecisionRng> = (0..4).map(|_| m2.derive_decision_rng()).collect();
    let forward: Vec<usize> = s1.iter_mut().map(|s| s.gen_range_usize(0, 1 << 20)).collect();
    let mut backward = vec![0usize; 4];
    for i in (0..4).rev() {
        backward[i] = s2[i].gen_range_usize(0, 1 << 20);
    }
    assert_eq!(forward, backward);
    let items = [10, 20, 30];
    let picked = s1[0].choose_one(&items).unwrap();
    assert!(items.contains(picked));
}

#[test]
fn a_reseeded_stream_is_the_fresh_stream_of_its_seed() {
    let mut a = DecisionRng::from_seed(5);
    a.gen_range_usize(0, 10);
    a.reseed(9);
    let mut b = DecisionRng::from_seed(9);
    for _ in 0..5 {
        assert_eq!(a.gen_range_usize(0, 1000), b.gen_range_usize(0, 1000));
    }
}

#[test]
fn a_derived_stream_is_seeded_by_one_master_draw() {
    let mut master = SimRng::from_seed(99);
    let mut twin = SimRng::from_seed(99);
    let mut derived = master.derive_decision_rng();
    let mut direct = DecisionRng::from_seed(twin.next_u64());
    assert_eq!(derived.gen_range_usize(0, 1 << 20), direct.gen_range_usize(0, 1 << 20));
    // Both masters spent exactly one draw.
    assert_eq!(master.next_u64(), twin.next_u64());
}

#[test]
fn choosing_is_one_index_draw_over_the_slice() {
    let items = [10u32, 20, 30, 40, 50, 60, 70];
    // Both generators run the same seeded stream.
    let mut a = SimRng::from_seed(123);
    let mut b = DecisionRng::from_seed(123);
    let mut c = DecisionRng::from_seed(123);
    let mut d = DecisionRng::from_seed(123);
    for _ in 0..50 {
        let picked = *a.choose_one(&items).unwrap();
        let index = b.gen_range_usize(0, items.len());
        assert_eq!(picked, items[index]);
        let picked = *c.choose_one(&items).unwrap();
        let index = d.gen_range_usize(0, items.len());
        assert_eq!(picked, items[index]);
    }
}

#[test]
fn choosing_from_nothing_leaves_the_stream_alone() {
    let mut a = SimRng::from_seed(8);
    let mut b = SimRng::from_seed(8);
    let empty: [u8; 0] = [];
    assert!(a.choose_one(&empty).is_none());
    assert_eq!(a.next_u64(), b.next_u64());
}

#[test]
fn ratio_draws_are_certain_at_the_ends_and_repeat_under_one_seed() {
    let mut a = SimRng::from_seed(31);
    let mut b = SimRng::from_seed(31);
    let mut heads = 0;
    for _ in 0..200 {
        assert!(a.gen_ratio(4, 4));
        assert!(!a.gen_ratio(0, 4));
        let coin = a.gen_ratio(3, 5);
        assert!(b.gen_ratio(4, 4));
        assert!(!b.gen_ratio(0, 4));
        assert_eq!(coin, b.gen_ratio(3, 5));
        if coin {
            heads += 1;
        }
    }
    assert!(heads > 0 && heads < 200);
    assert_eq!(a.next_u64(), b.next_u64());
}
