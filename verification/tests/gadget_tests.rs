use sponge_merkle::constraints::{Boolean, ConstraintSystem};
use sponge_merkle::fr::Fr;
use sponge_merkle::hashchain::{HashChain, HashChainGadget};
use sponge_merkle::leafhash::{LeafHash, LeafHashGadget};
use sponge_merkle::mux::{int_to_constant_boolean_vec, mux};
use sponge_merkle::permutation::SeededDummyPermutation;
use sponge_merkle::sponge::AlgebraicSponge;
use sponge_merkle::sponge_gadget::AlgebraicSpongeGadget;
use sponge_merkle::ConfigurationError;

fn fr(x: u64) -> Fr {
    Fr::from_u64(x)
}

#[test]
fn constraint_system_operations() {
    let mut cs = ConstraintSystem::new();
    assert_eq!(cs.num_variables(), 0);
    assert_eq!(cs.num_constraints(), 0);
    let a = cs.allocate_witness(fr(6));
    let b = cs.allocate_witness(fr(7));
    let s = cs.add(a, b);
    let p = cs.multiply(a, b);
    let k = cs.add_constant(a, fr(10));
    assert_eq!(cs.value_of(s).unwrap().as_u64(), 13);
    assert_eq!(cs.value_of(p).unwrap().as_u64(), 42);
    assert_eq!(cs.value_of(k).unwrap().as_u64(), 16);
    assert_eq!(cs.num_variables(), 5);
    assert_eq!(cs.num_constraints(), 3);
    let t = cs.alloc_bit(true);
    let sel = cs.conditionally_select(t, s, p);
    assert_eq!(cs.value_of(sel).unwrap().as_u64(), 13);
    let f = t.not();
    let sel2 = cs.conditionally_select(f, s, p);
    assert_eq!(cs.value_of(sel2).unwrap().as_u64(), 42);
    assert!(cs.is_satisfied());
    // An equality of equal values keeps the system satisfied; one of
    // unequal values breaks it.
    let s2 = cs.add(a, b);
    cs.enforce_equal(s, s2);
    assert!(cs.is_satisfied());
    cs.enforce_equal(s, p);
    assert!(!cs.is_satisfied());
}

#[test]
fn boolean_values() {
    let mut cs = ConstraintSystem::new();
    assert_eq!(cs.boolean_value_of(Boolean::Constant(true)), Some(true));
    assert_eq!(
        cs.boolean_value_of(Boolean::Constant(false).not()),
        Some(true)
    );
    let b = cs.alloc_bit(false);
    assert_eq!(cs.boolean_value_of(b), Some(false));
    assert_eq!(cs.boolean_value_of(b.not()), Some(true));
}

#[test]
fn int_to_constant_boolean_vec_is_msb_first() {
    let bits = int_to_constant_boolean_vec(5, 3);
    assert_eq!(
        bits,
        vec![
            Boolean::Constant(true),
            Boolean::Constant(false),
            Boolean::Constant(true)
        ]
    );
    assert_eq!(int_to_constant_boolean_vec(0, 0), vec![]);
}

#[test]
fn mux_test() {
    let mut cs = ConstraintSystem::new();
    let size: u64 = 8;
    let n_bits: u64 = 3;
    let mut f_vec = Vec::new();
    for i in 0..size {
        f_vec.push(cs.allocate_witness(fr(i)));
    }
    for i in 0..size {
        let location = int_to_constant_boolean_vec(i, n_bits);
        let mux_res = mux(&mut cs, &f_vec, &location).unwrap();
        cs.enforce_equal(mux_res, f_vec[i as usize]);
    }
    assert!(cs.is_satisfied());
}

// Mux correctness on the concrete example: values 0..7, selector bits
// [1, 0, 1] (most-significant first) pick index 5.
#[test]
fn mux_selects_index_five() {
    let mut cs = ConstraintSystem::new();
    let mut vars = Vec::new();
    for i in 0..8u64 {
        vars.push(cs.allocate_witness(fr(i)));
    }
    let location = vec![
        Boolean::Constant(true),
        Boolean::Constant(false),
        Boolean::Constant(true),
    ];
    let r = mux(&mut cs, &vars, &location).unwrap();
    assert_eq!(cs.value_of(r).unwrap().as_u64(), 5);
    assert!(cs.is_satisfied());
}

// One candidate and no selector bits: the trivial selection.
#[test]
fn mux_single_candidate() {
    let mut cs = ConstraintSystem::new();
    let v = cs.allocate_witness(fr(99));
    let r = mux(&mut cs, &[v], &[]).unwrap();
    assert_eq!(cs.value_of(r).unwrap().as_u64(), 99);
    assert!(cs.is_satisfied());
}

#[test]
fn mux_rejects_bad_width() {
    let mut cs = ConstraintSystem::new();
    let mut vars = Vec::new();
    for i in 0..6u64 {
        vars.push(cs.allocate_witness(fr(i)));
    }
    let location = vec![Boolean::Constant(true), Boolean::Constant(false)];
    let r = mux(&mut cs, &vars, &location);
    assert_eq!(r.err(), Some(ConfigurationError::WidthNotPowerOfTwo));
}

#[test]
fn gadget_sponge_rejects_zero_configuration() {
    let mut cs = ConstraintSystem::new();
    let p = SeededDummyPermutation { seed: fr(1) };
    assert_eq!(
        AlgebraicSpongeGadget::new(&mut cs, 0, 1, p).err(),
        Some(ConfigurationError::ZeroRate)
    );
    assert_eq!(
        AlgebraicSpongeGadget::new(&mut cs, 1, 0, p).err(),
        Some(ConfigurationError::ZeroCapacity)
    );
}

// The circuit sponge mirrors the concrete one: same inputs, same values.
#[test]
fn gadget_matches_concrete_sponge() {
    let p = SeededDummyPermutation { seed: fr(9) };
    let mut concrete = AlgebraicSponge::new(2, 1, p).unwrap();
    concrete.absorb(&[fr(4), fr(5), fr(6)]);
    let expect = concrete.squeeze(3);

    let mut cs = ConstraintSystem::new();
    let mut gadget = AlgebraicSpongeGadget::new(&mut cs, 2, 1, p).unwrap();
    let inputs: Vec<_> = [4u64, 5, 6]
        .iter()
        .map(|&x| cs.allocate_witness(fr(x)))
        .collect();
    gadget.absorb(&mut cs, &inputs);
    let out = gadget.squeeze(&mut cs, 3);
    assert_eq!(out.len(), 3);
    for (v, e) in out.iter().zip(expect.iter()) {
        assert_eq!(cs.value_of(*v).unwrap().as_u64(), e.as_u64());
    }
    assert!(cs.is_satisfied());
}

// The circuit leaf hash produces the very value the concrete one does.
#[test]
fn gadget_leaf_hash_matches_concrete() {
    let p = SeededDummyPermutation { seed: fr(1) };
    let mut concrete = LeafHash::new(AlgebraicSponge::new(1, 1, p).unwrap());
    let expect = concrete.hash(&[fr(1), fr(2)]).as_u64();

    let mut cs = ConstraintSystem::new();
    let sponge = AlgebraicSpongeGadget::new(&mut cs, 1, 1, p).unwrap();
    let mut leaf = LeafHashGadget::new(&mut cs, sponge);
    let one = cs.allocate_witness(fr(1));
    let two = cs.allocate_witness(fr(2));
    let h = leaf.hash(&mut cs, &[one, two]);
    assert_eq!(cs.value_of(h).unwrap().as_u64(), expect);
    assert_eq!(expect, 5);
    let salt = cs.allocate_witness(fr(10));
    let zk = leaf.zk_hash(&mut cs, &[one, two], salt);
    assert_eq!(cs.value_of(zk).unwrap().as_u64(), 16);
    assert!(cs.is_satisfied());
}

// The circuit hash chain decomposes each squeezed element into boolean
// variables that reproduce exactly what the concrete squeeze_ints
// computes, least-significant bit first.
#[test]
fn gadget_squeeze_ints_matches_concrete() {
    let p = SeededDummyPermutation { seed: fr(77) };
    let mut concrete = HashChain::new(AlgebraicSponge::new(2, 1, p).unwrap());
    concrete.absorb(&[fr(100), fr(200)]);
    let ints = concrete.squeeze_ints(2, 6);

    let mut cs = ConstraintSystem::new();
    let sponge = AlgebraicSpongeGadget::new(&mut cs, 2, 1, p).unwrap();
    let mut chain = HashChainGadget::new(&mut cs, sponge);
    let inputs: Vec<_> = [100u64, 200]
        .iter()
        .map(|&x| cs.allocate_witness(fr(x)))
        .collect();
    chain.absorb(&mut cs, &inputs);
    let rows = chain.squeeze_ints(&mut cs, 2, 6);
    assert_eq!(rows.len(), 2);
    for (row, int) in rows.iter().zip(ints.iter()) {
        assert_eq!(row.len(), 6);
        let mut recomposed: u64 = 0;
        for (j, bit) in row.iter().enumerate() {
            if cs.boolean_value_of(*bit).unwrap() {
                recomposed += 1 << j;
            }
        }
        assert_eq!(recomposed, *int);
        assert!(recomposed < 64);
    }
    assert!(cs.is_satisfied());
}
