use sponge_merkle::fr::Fr;
use sponge_merkle::hashchain::HashChain;
use sponge_merkle::permutation::{DummyPermutation, SeededDummyPermutation};
use sponge_merkle::sponge::AlgebraicSponge;
use sponge_merkle::ConfigurationError;

fn fr(x: u64) -> Fr {
    Fr::from_u64(x)
}

fn nums(xs: &[u64]) -> Vec<Fr> {
    xs.iter().map(|&x| Fr::from_u64(x)).collect()
}

fn as_u64s(xs: &[Fr]) -> Vec<u64> {
    xs.iter().map(|x| x.as_u64()).collect()
}

#[test]
fn construction_rejects_zero_rate() {
    let r = AlgebraicSponge::new(0, 1, DummyPermutation {});
    assert_eq!(r.err(), Some(ConfigurationError::ZeroRate));
}

#[test]
fn construction_rejects_zero_capacity() {
    let r = AlgebraicSponge::new(1, 0, DummyPermutation {});
    assert_eq!(r.err(), Some(ConfigurationError::ZeroCapacity));
}

// Determinism: two sponges built identically and fed identical call
// sequences produce identical outputs.
#[test]
fn determinism() {
    let p = SeededDummyPermutation { seed: fr(3) };
    let mut s1 = AlgebraicSponge::new(2, 1, p).unwrap();
    let mut s2 = AlgebraicSponge::new(2, 1, p).unwrap();
    s1.absorb(&nums(&[5, 7, 9]));
    s2.absorb(&nums(&[5, 7, 9]));
    assert_eq!(as_u64s(&s1.squeeze(2)), as_u64s(&s2.squeeze(2)));
    s1.absorb(&nums(&[1]));
    s2.absorb(&nums(&[1]));
    assert_eq!(as_u64s(&s1.squeeze(3)), as_u64s(&s2.squeeze(3)));
}

// Mode-boundary counting: the permutation adds one to every cell, and the
// absorbed elements are all zero, so the squeezed cell equals the exact
// number of permutation invocations.  Absorbing five elements at rate one
// permutes four times; the fifth permutation comes with the squeeze.
#[test]
fn permutation_count_over_rate_one() {
    let mut s = AlgebraicSponge::new(1, 1, DummyPermutation {}).unwrap();
    s.absorb(&nums(&[0, 0, 0, 0, 0]));
    assert_eq!(as_u64s(&s.squeeze(1)), vec![5]);
}

// Lazy permute on next use: an absorb that finishes exactly on the rate
// boundary defers its permutation; the next absorb forces it, and the
// squeeze forces one more.
#[test]
fn permutation_deferred_at_boundary() {
    let mut s = AlgebraicSponge::new(2, 1, DummyPermutation {}).unwrap();
    s.absorb(&nums(&[0, 0]));
    s.absorb(&nums(&[0]));
    assert_eq!(as_u64s(&s.squeeze(1)), vec![2]);
}

// Reset idempotence: after any history, reset reproduces the outputs of a
// freshly constructed sponge on the same call sequence.
#[test]
fn reset_restores_fresh_behaviour() {
    let p = SeededDummyPermutation { seed: fr(7) };
    let mut used = AlgebraicSponge::new(2, 2, p).unwrap();
    used.absorb(&nums(&[42, 17]));
    let _ = used.squeeze(3);
    used.reset();
    let mut fresh = AlgebraicSponge::new(2, 2, p).unwrap();
    used.absorb(&nums(&[8, 9]));
    fresh.absorb(&nums(&[8, 9]));
    assert_eq!(as_u64s(&used.squeeze(2)), as_u64s(&fresh.squeeze(2)));
    used.reset();
    used.reset();
    fresh.reset();
    used.absorb(&nums(&[8, 9]));
    fresh.absorb(&nums(&[8, 9]));
    assert_eq!(as_u64s(&used.squeeze(2)), as_u64s(&fresh.squeeze(2)));
}

#[test]
fn hashchain_consistency_test() {
    let rate = 3;
    let capacity = 1;
    let p = DummyPermutation {};
    let sponge = AlgebraicSponge::new(rate, capacity, p).unwrap();
    let mut hashchain = HashChain::new(sponge);
    hashchain.absorb(&[Fr::one(), Fr::one().add(Fr::one())]);
    let res = hashchain.squeeze_ints(2, 1);
    assert_eq!(res, vec![0, 1]);
}

// squeeze_ints: every output lies below 2^bits, and each is exactly the
// corresponding squeezed element truncated to its low bits.
#[test]
fn squeeze_ints_bounded_and_reproducible() {
    let p = SeededDummyPermutation { seed: fr(123456) };
    let mut chain_a = HashChain::new(AlgebraicSponge::new(2, 1, p).unwrap());
    let mut chain_b = HashChain::new(AlgebraicSponge::new(2, 1, p).unwrap());
    chain_a.absorb(&nums(&[11, 22, 33]));
    chain_b.absorb(&nums(&[11, 22, 33]));
    let elems = chain_a.squeeze(5);
    let ints = chain_b.squeeze_ints(5, 4);
    assert_eq!(ints.len(), 5);
    for (e, i) in elems.iter().zip(ints.iter()) {
        assert!(*i < 16);
        assert_eq!(*i, e.as_u64() % 16);
    }
    // Wide enough bit counts return the full residue.
    let mut chain_c = HashChain::new(AlgebraicSponge::new(2, 1, p).unwrap());
    chain_c.absorb(&nums(&[11, 22, 33]));
    let wide = chain_c.squeeze_ints(5, 64);
    for (e, i) in elems.iter().zip(wide.iter()) {
        assert_eq!(*i, e.as_u64());
    }
}

// Edge cases: an empty absorb still forces the duplex transition out of
// squeezing mode, and a zero-length squeeze still switches the mode, so
// both still count toward the lazy permutation schedule.
#[test]
fn empty_operations() {
    let mut s = AlgebraicSponge::new(1, 1, DummyPermutation {}).unwrap();
    s.absorb(&[]);
    assert!(s.squeeze(0).is_empty());
    // Absorbing from squeezing mode forces one permutation; the first
    // squeeze above forced another.
    s.absorb(&nums(&[0]));
    assert_eq!(as_u64s(&s.squeeze(1)), vec![3]);
}

#[test]
fn squeeze_ints_zero_bits_are_zero() {
    let p = SeededDummyPermutation { seed: fr(13) };
    let mut chain = HashChain::new(AlgebraicSponge::new(1, 1, p).unwrap());
    chain.absorb(&nums(&[6, 7]));
    assert_eq!(chain.squeeze_ints(3, 0), vec![0, 0, 0]);
}

// The chain is streaming: absorbing in two calls equals absorbing in one.
#[test]
fn hashchain_accumulates() {
    let p = SeededDummyPermutation { seed: fr(5) };
    let mut split = HashChain::new(AlgebraicSponge::new(2, 1, p).unwrap());
    split.absorb(&nums(&[1, 2]));
    split.absorb(&nums(&[3]));
    let mut joined = HashChain::new(AlgebraicSponge::new(2, 1, p).unwrap());
    joined.absorb(&nums(&[1, 2, 3]));
    assert_eq!(as_u64s(&split.squeeze(4)), as_u64s(&joined.squeeze(4)));
}
