use tetris_engine::EngineRng;

#[test]
fn seeded_rng_is_deterministic() {
    let mut left = EngineRng::seeded(7);
    let mut right = EngineRng::seeded(7);

    let mut left_bag = [1, 2, 3, 4, 5, 6, 7];
    let mut right_bag = [1, 2, 3, 4, 5, 6, 7];
    left.shuffle_bag(&mut left_bag);
    right.shuffle_bag(&mut right_bag);

    assert_eq!(left_bag, right_bag);
    assert_eq!(left.choose_index(7), right.choose_index(7));
}

#[test]
fn shuffle_bag_permutes_the_ids() {
    let mut rng = EngineRng::seeded(21);
    let mut moved = false;
    for _ in 0..20 {
        let mut bag = [1, 2, 3, 4, 5, 6, 7];
        rng.shuffle_bag(&mut bag);
        if bag != [1, 2, 3, 4, 5, 6, 7] {
            moved = true;
        }
        let mut sorted = bag;
        sorted.sort_unstable();
        assert_eq!(sorted, [1, 2, 3, 4, 5, 6, 7]);
    }
    assert!(moved);
}

#[test]
fn choose_index_stays_below_the_bound() {
    let mut rng = EngineRng::default();
    let mut seen = [false; 9];
    for _ in 0..500 {
        let i = rng.choose_index(9);
        assert!(i < 9);
        seen[i] = true;
    }
    assert!(seen.iter().all(|&s| s));
    assert_eq!(rng.choose_index(1), 0);
}

#[test]
fn cloned_rng_continues_the_same_stream() {
    let mut first = EngineRng::seeded(5);
    let _ = first.choose_index(100);
    let mut copy = first.clone();
    for _ in 0..10 {
        assert_eq!(first.choose_index(1000), copy.choose_index(1000));
    }
}
