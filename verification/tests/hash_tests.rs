use sponge_merkle::fr::Fr;
use sponge_merkle::leafhash::LeafHash;
use sponge_merkle::permutation::SeededDummyPermutation;
use sponge_merkle::sponge::AlgebraicSponge;
use sponge_merkle::two_to_one_hash::TwoToOneHash;

fn fr(x: u64) -> Fr {
    Fr::from_u64(x)
}

// The seed-1 leaf sponge at rate 1, capacity 1: cell j of an m-cell state
// gains j + 1 per permutation, which makes every hash exactly computable
// by hand.
#[test]
fn leaf_hash_values() {
    let p = SeededDummyPermutation { seed: fr(1) };
    let mut leaf = LeafHash::new(AlgebraicSponge::new(1, 1, p).unwrap());
    assert_eq!(leaf.hash(&[fr(1), fr(2)]).as_u64(), 5);
    assert_eq!(leaf.hash(&[fr(3), fr(4)]).as_u64(), 9);
    // The private sponge is reset before each hash: repeating an input
    // repeats its hash, whatever came in between.
    assert_eq!(leaf.hash(&[fr(1), fr(2)]).as_u64(), 5);
}

#[test]
fn two_to_one_values() {
    let p = SeededDummyPermutation { seed: fr(2) };
    let mut node = TwoToOneHash::new(AlgebraicSponge::new(1, 1, p).unwrap());
    // [0,0] + 5 at cell 0, permute, + 9, permute again on squeeze.
    assert_eq!(node.hash(fr(5), fr(9)).as_u64(), 18);
    assert_eq!(node.hash(fr(5), fr(9)).as_u64(), 18);
}

// An empty leaf still hashes: the squeeze forces one permutation over the
// all-zero state, so the hash is exactly the seed.
#[test]
fn leaf_hash_of_empty_leaf() {
    let p = SeededDummyPermutation { seed: fr(4) };
    let mut leaf = LeafHash::new(AlgebraicSponge::new(1, 1, p).unwrap());
    assert_eq!(leaf.hash(&[]).as_u64(), 4);
}

// Order-sensitivity: at rate 2 the node hash is first-operand plus seed,
// so swapping distinct operands must change the result.
#[test]
fn two_to_one_order_sensitive() {
    let p = SeededDummyPermutation { seed: fr(3) };
    let mut node = TwoToOneHash::new(AlgebraicSponge::new(2, 1, p).unwrap());
    let ab = node.hash(fr(10), fr(20)).as_u64();
    let ba = node.hash(fr(20), fr(10)).as_u64();
    assert_eq!(ab, 13);
    assert_eq!(ba, 23);
    assert_ne!(ab, ba);
}

// Salt-sensitivity: distinct salts over one leaf give distinct hashes.
#[test]
fn zk_hash_salt_sensitive() {
    let p = SeededDummyPermutation { seed: fr(1) };
    let mut leaf = LeafHash::new(AlgebraicSponge::new(1, 1, p).unwrap());
    let h1 = leaf.zk_hash(&[fr(1), fr(2)], fr(10)).as_u64();
    let h2 = leaf.zk_hash(&[fr(1), fr(2)], fr(11)).as_u64();
    assert_eq!(h1, 16);
    assert_eq!(h2, 17);
    assert_ne!(h1, h2);
}
