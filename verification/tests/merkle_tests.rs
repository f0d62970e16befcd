use sponge_merkle::constraints::{Boolean, ConstraintSystem};
use sponge_merkle::fr::Fr;
use sponge_merkle::leafhash::{LeafHash, LeafHashGadget};
use sponge_merkle::sponge::AlgebraicSponge;
use sponge_merkle::merkle_tree::MerklePathGadget;
use sponge_merkle::permutation::SeededDummyPermutation;
use sponge_merkle::sponge_gadget::AlgebraicSpongeGadget;
use sponge_merkle::two_to_one_hash::{TwoToOneHash, TwoToOneHashGadget};
use sponge_merkle::ConfigurationError;

fn fr(x: u64) -> Fr {
    Fr::from_u64(x)
}

#[test]
fn mt_test() {
    let mut cs = ConstraintSystem::new();
    let leaf_permutation = SeededDummyPermutation { seed: Fr::one() };
    let two_to_one_permutation = SeededDummyPermutation {
        seed: Fr::one().add(Fr::one()),
    };

    let leafsponge = AlgebraicSpongeGadget::new(&mut cs, 1, 1, leaf_permutation).unwrap();
    let nodesponge = AlgebraicSpongeGadget::new(&mut cs, 1, 1, two_to_one_permutation).unwrap();

    let mut leaf_hash = LeafHashGadget::new(&mut cs, leafsponge);
    let mut node_hash = TwoToOneHashGadget::new(&mut cs, nodesponge);

    // Tree over {1, 2, 3, 4}.
    let one = cs.allocate_witness(fr(1));
    let two = cs.allocate_witness(fr(2));
    let three = cs.allocate_witness(fr(3));
    let four = cs.allocate_witness(fr(4));
    // l1 = Leaf(1, 2) = 5 with the given permutation and seed.
    let l1 = leaf_hash.hash(&mut cs, &[one, two]);
    assert_eq!(cs.value_of(l1).unwrap().as_u64(), 5);
    // l2 = Leaf(3, 4) = 9.
    let l2 = leaf_hash.hash(&mut cs, &[three, four]);
    assert_eq!(cs.value_of(l2).unwrap().as_u64(), 9);
    let root = node_hash.hash(&mut cs, l1, l2);

    let mut mt_path_gadget = MerklePathGadget {
        leaf_hasher: leaf_hash,
        node_hasher: node_hash,
    };
    mt_path_gadget
        .verify(
            &mut cs,
            &[Boolean::Constant(false)],
            root,
            &[l2],
            &[one, two],
        )
        .unwrap();

    assert!(cs.is_satisfied());
}

fn merkle_fixture() -> (ConstraintSystem, MerklePathGadget<SeededDummyPermutation>) {
    let mut cs = ConstraintSystem::new();
    let leafsponge =
        AlgebraicSpongeGadget::new(&mut cs, 1, 1, SeededDummyPermutation { seed: fr(1) }).unwrap();
    let nodesponge =
        AlgebraicSpongeGadget::new(&mut cs, 1, 1, SeededDummyPermutation { seed: fr(2) }).unwrap();
    let leaf_hasher = LeafHashGadget::new(&mut cs, leafsponge);
    let node_hasher = TwoToOneHashGadget::new(&mut cs, nodesponge);
    (
        cs,
        MerklePathGadget {
            leaf_hasher,
            node_hasher,
        },
    )
}

// End to end with hand-computed values: leafhash([1,2]) = 5,
// leafhash([3,4]) = 9, root = twotoone(5, 9) = 18.  The genuine path
// satisfies the circuit.
#[test]
fn merkle_path_accepts_genuine_path() {
    let (mut cs, mut gadget) = merkle_fixture();
    let one = cs.allocate_witness(fr(1));
    let two = cs.allocate_witness(fr(2));
    let sibling = cs.allocate_witness(fr(9));
    let root = cs.allocate_witness(fr(18));
    gadget
        .verify(&mut cs, &[Boolean::Constant(false)], root, &[sibling], &[one, two])
        .unwrap();
    assert!(cs.is_satisfied());
}

// Flipping the path bit swaps the children, so with an order-sensitive
// node hash (rate two: the hash is the left operand plus the seed) the
// circuit must become unsatisfiable.  At rate one the seeded node hash is
// symmetric, so the order-sensitive configuration is used here.
#[test]
fn merkle_path_rejects_flipped_bit() {
    let mut cs = ConstraintSystem::new();
    let leafsponge =
        AlgebraicSpongeGadget::new(&mut cs, 1, 1, SeededDummyPermutation { seed: fr(1) }).unwrap();
    let nodesponge =
        AlgebraicSpongeGadget::new(&mut cs, 2, 1, SeededDummyPermutation { seed: fr(2) }).unwrap();
    let leaf_hasher = LeafHashGadget::new(&mut cs, leafsponge);
    let node_hasher = TwoToOneHashGadget::new(&mut cs, nodesponge);
    let mut gadget = MerklePathGadget { leaf_hasher, node_hasher };
    let one = cs.allocate_witness(fr(1));
    let two = cs.allocate_witness(fr(2));
    let sibling = cs.allocate_witness(fr(9));
    // Genuine root: twotoone(5, 9) = 5 + seed = 7 at rate two.
    let root = cs.allocate_witness(fr(7));
    gadget
        .verify(&mut cs, &[Boolean::Constant(true)], root, &[sibling], &[one, two])
        .unwrap();
    assert!(!cs.is_satisfied());
}

// The same configuration accepts the genuine bit.
#[test]
fn merkle_path_order_sensitive_accepts_genuine_bit() {
    let mut cs = ConstraintSystem::new();
    let leafsponge =
        AlgebraicSpongeGadget::new(&mut cs, 1, 1, SeededDummyPermutation { seed: fr(1) }).unwrap();
    let nodesponge =
        AlgebraicSpongeGadget::new(&mut cs, 2, 1, SeededDummyPermutation { seed: fr(2) }).unwrap();
    let leaf_hasher = LeafHashGadget::new(&mut cs, leafsponge);
    let node_hasher = TwoToOneHashGadget::new(&mut cs, nodesponge);
    let mut gadget = MerklePathGadget { leaf_hasher, node_hasher };
    let one = cs.allocate_witness(fr(1));
    let two = cs.allocate_witness(fr(2));
    let sibling = cs.allocate_witness(fr(9));
    let root = cs.allocate_witness(fr(7));
    gadget
        .verify(&mut cs, &[Boolean::Constant(false)], root, &[sibling], &[one, two])
        .unwrap();
    assert!(cs.is_satisfied());
}

// A tampered root must make the circuit unsatisfiable.
#[test]
fn merkle_path_rejects_tampered_root() {
    let (mut cs, mut gadget) = merkle_fixture();
    let one = cs.allocate_witness(fr(1));
    let two = cs.allocate_witness(fr(2));
    let sibling = cs.allocate_witness(fr(9));
    let root = cs.allocate_witness(fr(19));
    gadget
        .verify(&mut cs, &[Boolean::Constant(false)], root, &[sibling], &[one, two])
        .unwrap();
    assert!(!cs.is_satisfied());
}

// Secret path bits work through allocated boolean variables too: a
// two-level tree, leaf at index 2 (bits [1, 0] root to leaf).
#[test]
fn merkle_path_two_levels_with_allocated_bits() {
    let (mut cs, mut gadget) = merkle_fixture();
    let five = cs.allocate_witness(fr(5));
    let six = cs.allocate_witness(fr(6));
    // Recompute the root off-circuit with the same gadgets' values:
    // leaf = leafhash([5, 6]), level 0 sibling 40 (leaf is left),
    // level 1 sibling 30 (current is right).
    let s0 = cs.allocate_witness(fr(40));
    let s1 = cs.allocate_witness(fr(30));
    let leaf_val = {
        let mut h = LeafHash::new(
            AlgebraicSponge::new(1, 1, SeededDummyPermutation { seed: fr(1) }).unwrap(),
        );
        h.hash(&[fr(5), fr(6)])
    };
    let root_val = {
        let mut h = TwoToOneHash::new(
            AlgebraicSponge::new(1, 1, SeededDummyPermutation { seed: fr(2) }).unwrap(),
        );
        let l0 = h.hash(leaf_val, fr(40));
        h.hash(fr(30), l0)
    };
    let root = cs.allocate_witness(root_val);
    let b_top = cs.alloc_bit(true);
    let b_leaf = cs.alloc_bit(false);
    gadget
        .verify(&mut cs, &[b_top, b_leaf], root, &[s1, s0], &[five, six])
        .unwrap();
    assert!(cs.is_satisfied());
}

#[test]
fn merkle_path_rejects_length_mismatch() {
    let (mut cs, mut gadget) = merkle_fixture();
    let one = cs.allocate_witness(fr(1));
    let sibling = cs.allocate_witness(fr(9));
    let root = cs.allocate_witness(fr(18));
    let r = gadget.verify(
        &mut cs,
        &[Boolean::Constant(false), Boolean::Constant(true)],
        root,
        &[sibling],
        &[one],
    );
    assert_eq!(r.err(), Some(ConfigurationError::LengthMismatch));
}
