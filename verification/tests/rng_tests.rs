use axiart_core::rng::RandomStream;

#[test]
fn same_seed_same_words() {
    let mut a = RandomStream::from_seed(99);
    let mut b = RandomStream::from_seed(99);
    for _ in 0..32 {
        assert_eq!(a.next_below(1_000_000), b.next_below(1_000_000));
    }
}

#[test]
fn next_below_stays_below_bound() {
    let mut s = RandomStream::from_seed(7);
    for _ in 0..64 {
        let v = s.next_below(10);
        assert!(v < 10);
    }
}

#[test]
fn stream_is_not_constant() {
    // guards against the wrapper returning a fixed word instead of the
    // seeded ChaCha stream
    let mut s = RandomStream::from_seed(1);
    let first = s.next_below(u64::MAX);
    let mut saw_different = false;
    for _ in 0..16 {
        if s.next_below(u64::MAX) != first {
            saw_different = true;
        }
    }
    assert!(saw_different);
}

#[test]
fn different_seeds_diverge() {
    let mut a = RandomStream::from_seed(1);
    let mut b = RandomStream::from_seed(2);
    let mut diverged = false;
    for _ in 0..16 {
        if a.next_below(u64::MAX) != b.next_below(u64::MAX) {
            diverged = true;
        }
    }
    assert!(diverged);
}
