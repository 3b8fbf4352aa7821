use rust_actions::rng::SeededRng;

#[test]
fn test_deterministic_uuid() {
    let mut rng1 = SeededRng::with_seed(42);
    let mut rng2 = SeededRng::with_seed(42);

    let uuid1 = rng1.next_uuid();
    let uuid2 = rng2.next_uuid();

    assert_eq!(uuid1, uuid2);
}

#[test]
fn test_deterministic_string() {
    let mut rng1 = SeededRng::with_seed(123);
    let mut rng2 = SeededRng::with_seed(123);

    let s1 = rng1.next_string(32);
    let s2 = rng2.next_string(32);

    assert_eq!(s1, s2);
}

#[test]
fn test_from_scenario_name() {
    let rng1 = SeededRng::from_scenario_name("test scenario");
    let rng2 = SeededRng::from_scenario_name("test scenario");
    let rng3 = SeededRng::from_scenario_name("different scenario");

    assert_eq!(rng1.seed(), rng2.seed());
    assert_ne!(rng1.seed(), rng3.seed());
}

#[test]
fn test_sequence_determinism() {
    let mut rng1 = SeededRng::with_seed(999);
    let mut rng2 = SeededRng::with_seed(999);

    for _ in 0..100 {
        assert_eq!(rng1.next_u64(), rng2.next_u64());
    }
}

#[test]
fn test_typed_draws_deterministic() {
    let mut a = SeededRng::with_seed(7);
    let mut b = SeededRng::with_seed(7);
    for _ in 0..25 {
        assert_eq!(a.next_u32(), b.next_u32());
        assert_eq!(a.next_i64(), b.next_i64());
        assert_eq!(a.next_bool(), b.next_bool());
        assert_eq!(a.next_range(3, 9), b.next_range(3, 9));
    }
    assert_eq!(a.next_hex(16), b.next_hex(16));
}

#[test]
fn test_next_hex_alphabet() {
    let mut rng = SeededRng::with_seed(5);
    let s = rng.next_hex(64);
    assert_eq!(s.len(), 64);
    assert!(s.chars().all(|c| c.is_ascii_hexdigit() && !c.is_ascii_uppercase()));
}

#[test]
fn test_next_range_bounds() {
    let mut rng = SeededRng::with_seed(11);
    for _ in 0..200 {
        let v = rng.next_range(10, 20);
        assert!((10..20).contains(&v));
    }
}

#[test]
fn test_pick_and_shuffle() {
    let mut rng = SeededRng::with_seed(3);
    let items = [1u64, 2, 3, 4, 5];
    let picked = rng.pick(&items).copied().unwrap();
    assert!(items.contains(&picked));
    let empty: [u64; 0] = [];
    assert!(rng.pick(&empty).is_none());

    let mut v = vec![1u64, 2, 3, 4, 5, 6, 7, 8];
    rng.shuffle(&mut v);
    let mut sorted = v.clone();
    sorted.sort_unstable();
    assert_eq!(sorted, vec![1, 2, 3, 4, 5, 6, 7, 8]);
}

#[test]
fn test_clone_replays_from_seed() {
    let mut a = SeededRng::with_seed(21);
    let first = a.next_u64();
    let _ = a.next_u64();
    let mut b = a.clone();
    assert_eq!(b.seed(), 21);
    assert_eq!(b.next_u64(), first);
}
