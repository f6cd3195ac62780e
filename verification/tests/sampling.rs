use std::collections::HashSet;
use tig_structs::sampler::sample_nonces;

#[test]
fn sampler_draws_exactly_the_sample_size() {
    let picked = sample_nonces(1000, 50, "round-randomness");
    assert_eq!(picked.len(), 50);
    let distinct: HashSet<u64> = picked.iter().copied().collect();
    assert_eq!(distinct.len(), 50);
    for nonce in &picked {
        assert!(*nonce < 1000);
    }
}

#[test]
fn sampler_is_reproducible() {
    let a = sample_nonces(1000, 50, "round-randomness");
    let b = sample_nonces(1000, 50, "round-randomness");
    assert_eq!(a, b);
}

#[test]
fn sampler_takes_whole_range_when_small() {
    let picked = sample_nonces(30, 50, "seed");
    assert_eq!(picked.len(), 30);
    let distinct: HashSet<u64> = picked.iter().copied().collect();
    let all: HashSet<u64> = (0u64..30).collect();
    assert_eq!(distinct, all);
}

#[test]
fn sampler_depends_on_the_randomness() {
    let a = sample_nonces(1000, 50, "seed-one");
    let b = sample_nonces(1000, 50, "seed-two");
    assert_ne!(a, b);
}
