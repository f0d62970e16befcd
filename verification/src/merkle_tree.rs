//! The Merkle authentication-path verifier, as a constraint generator.
//!
//! The leaf is hashed with the leaf hash, then folded up the tree with the
//! two-to-one hash: at every level a secret selector bit decides
//! obliviously — through the multiplexer, never by branching — whether the
//! running hash is the left or the right child, and the sibling from the
//! authentication path takes the other side.  A final equality constraint
//! ties the result to the claimed root, so a false path yields an
//! unsatisfiable system rather than a local error.
//!
//! Externally supplied paths are ordered root to leaf; they are walked in
//! reverse so that level zero is the leaf's own level.

use vstd::prelude::*;
use crate::constraints::{
    bool_value, bool_wf, cs_wf, extends, lemma_bool_value_extend, lemma_extends_trans, sat,
    value_at, var_ok, var_values, Boolean, ConstraintSystem, CsModel, FpVar,
};
use crate::leafhash::{spec_leaf_hash, LeafHashGadget};
use crate::mux::{bits_index, mux};
use crate::permutation::{PermutationGadget, PermutationSpec};
use crate::two_to_one_hash::{spec_two_to_one, TwoToOneHashGadget};
use crate::ConfigurationError;

verus! {

/// The truth values a sequence of circuit booleans takes under an
/// assignment.
pub open spec fn bools_of(bits: Seq<Boolean>, vals: Seq<nat>) -> Seq<bool> {
    Seq::new(bits.len(), |i: int| bool_value(bits[i], vals))
}

/// Fold a running hash up the tree, leaf level first: at each level the
/// selector bit says whether the running hash is the right child (the
/// sibling then stands on the left).
pub open spec fn spec_path_fold<P: PermutationSpec>(
    p: P,
    rate: nat,
    capacity: nat,
    cur: nat,
    bits: Seq<bool>,
    sibs: Seq<nat>,
) -> nat
    decreases bits.len(),
{
    if bits.len() == 0 {
        cur
    } else {
        let next = if bits[0] {
            spec_two_to_one(p, rate, capacity, sibs[0], cur)
        } else {
            spec_two_to_one(p, rate, capacity, cur, sibs[0])
        };
        spec_path_fold(p, rate, capacity, next, bits.skip(1), sibs.skip(1))
    }
}

/// The Merkle-path verifier: one leaf hasher and one node hasher, each
/// owning its sponge.
pub struct MerklePathGadget<P: PermutationGadget> {
    pub leaf_hasher: LeafHashGadget<P>,
    pub node_hasher: TwoToOneHashGadget<P>,
}

impl<P: PermutationGadget> MerklePathGadget<P> {
    /// Both hashers are well-formed under the given system.
    pub open spec fn wf(&self, m: CsModel) -> bool {
        &&& self.leaf_hasher.wf(m)
        &&& self.node_hasher.wf(m)
    }

    /// Emit the constraints proving that `leaf` hashes to a value that,
    /// folded up the tree along `path` with the siblings of `auth_path`,
    /// equals `root`.  The emitted system is satisfied exactly when the
    /// system was satisfied before and the recomputed root value equals
    /// the claimed one.  Mismatched `path` and `auth_path` lengths are a
    /// configuration error, rejected before anything is emitted.
    pub fn verify(
        &mut self,
        cs: &mut ConstraintSystem,
        path: &[Boolean],
        root: FpVar,
        auth_path: &[FpVar],
        leaf: &[FpVar],
    ) -> (res: Result<(), ConfigurationError>)
        requires
            cs_wf(old(cs)@),
            old(self).wf(old(cs)@),
            var_ok(root, old(cs)@),
            forall|j: int| 0 <= j < path@.len() ==> bool_wf(#[trigger] path@[j], old(cs)@.vals.len()),
            forall|j: int| 0 <= j < auth_path@.len() ==> var_ok(#[trigger] auth_path@[j], old(cs)@),
            forall|j: int| 0 <= j < leaf@.len() ==> var_ok(#[trigger] leaf@[j], old(cs)@),
        ensures
            res is Ok <==> path@.len() == auth_path@.len(),
            res is Err ==> res == Result::<(), ConfigurationError>::Err(
                ConfigurationError::LengthMismatch,
            ) && final(cs)@ == old(cs)@ && *final(self) == *old(self),
            cs_wf(final(cs)@),
            extends(final(cs)@, old(cs)@),
            final(self).wf(final(cs)@),
            res is Ok ==> (sat(final(cs)@) <==> (sat(old(cs)@) && spec_path_fold(
                old(self).node_hasher.model(old(cs)@).perm,
                old(self).node_hasher.model(old(cs)@).rate,
                old(self).node_hasher.model(old(cs)@).capacity,
                spec_leaf_hash(
                    old(self).leaf_hasher.model(old(cs)@).perm,
                    old(self).leaf_hasher.model(old(cs)@).rate,
                    old(self).leaf_hasher.model(old(cs)@).capacity,
                    var_values(leaf@, old(cs)@),
                ),
                bools_of(path@, old(cs)@.vals).reverse(),
                var_values(auth_path@, old(cs)@).reverse(),
            ) == value_at(old(cs)@, root))),
    {
        if path.len() != auth_path.len() {
            return Err(ConfigurationError::LengthMismatch);
        }
        let ghost cs0 = cs@;
        let ghost nperm = self.node_hasher.model(cs0).perm;
        let ghost nrate = self.node_hasher.model(cs0).rate;
        let ghost ncap = self.node_hasher.model(cs0).capacity;
        let ghost rbits = bools_of(path@, cs0.vals).reverse();
        let ghost rsibs = var_values(auth_path@, cs0).reverse();
        let ghost lh = spec_leaf_hash(
            self.leaf_hasher.model(cs0).perm,
            self.leaf_hasher.model(cs0).rate,
            self.leaf_hasher.model(cs0).capacity,
            var_values(leaf@, cs0),
        );
        let ghost target = spec_path_fold(nperm, nrate, ncap, lh, rbits, rsibs);
        let n = path.len();
        proof {
            self.node_hasher.lemma_extends_stable(cs0, cs0);
        }
        let mut cur = self.leaf_hasher.hash(cs, leaf);
        proof {
            self.node_hasher.lemma_extends_stable(cs0, cs@);
            assert(rbits.skip(0) =~= rbits);
            assert(rsibs.skip(0) =~= rsibs);
        }
        let mut i: usize = 0;
        while i < n
            invariant
                i <= n,
                n == path@.len(),
                n == auth_path@.len(),
                cs_wf(cs@),
                extends(cs@, cs0),
                sat(cs@) <==> sat(cs0),
                self.leaf_hasher.wf(cs@),
                self.node_hasher.wf(cs@),
                self.node_hasher.model(cs@).perm == nperm,
                self.node_hasher.model(cs@).rate == nrate,
                self.node_hasher.model(cs@).capacity == ncap,
                rbits == bools_of(path@, cs0.vals).reverse(),
                rsibs == var_values(auth_path@, cs0).reverse(),
                rbits.len() == n,
                rsibs.len() == n,
                target == spec_path_fold(nperm, nrate, ncap, lh, rbits, rsibs),
                forall|j: int| 0 <= j < n ==> bool_wf(#[trigger] path@[j], cs0.vals.len()),
                forall|j: int| 0 <= j < n ==> var_ok(#[trigger] auth_path@[j], cs0),
                var_ok(root, cs0),
                var_ok(cur, cs@),
                spec_path_fold(
                    nperm,
                    nrate,
                    ncap,
                    value_at(cs@, cur),
                    rbits.skip(i as int),
                    rsibs.skip(i as int),
                ) == target,
            decreases n - i,
        {
            let ghost pre = cs@;
            let bit = path[n - 1 - i];
            let sib = auth_path[n - 1 - i];
            let mut pair: Vec<FpVar> = Vec::new();
            pair.push(cur);
            pair.push(sib);
            let mut left_sel: Vec<Boolean> = Vec::new();
            left_sel.push(bit);
            let nbit = bit.not();
            let mut right_sel: Vec<Boolean> = Vec::new();
            right_sel.push(nbit);
            proof {
                assert(var_ok(sib, pre));
                assert(value_at(pre, sib) == value_at(cs0, sib));
                lemma_bool_value_extend(bit, cs0, pre);
                vstd::arithmetic::power2::lemma2_to64();
            }
            let left = match mux(cs, pair.as_slice(), left_sel.as_slice()) {
                Ok(v) => v,
                Err(e) => {
                    proof {
                        assert(false);
                    }
                    return Err(ConfigurationError::LengthMismatch);
                },
            };
            let ghost mid = cs@;
            proof {
                lemma_bool_value_extend(bit, cs0, mid);
                assert(var_ok(pair@[0], mid) && var_ok(pair@[1], mid));
            }
            let right = match mux(cs, pair.as_slice(), right_sel.as_slice()) {
                Ok(v) => v,
                Err(e) => {
                    proof {
                        assert(false);
                    }
                    return Err(ConfigurationError::LengthMismatch);
                },
            };
            let ghost mid2 = cs@;
            proof {
                self.node_hasher.lemma_extends_stable(pre, mid);
                self.node_hasher.lemma_extends_stable(mid, mid2);
                self.leaf_hasher.lemma_extends_stable(pre, mid);
                self.leaf_hasher.lemma_extends_stable(mid, mid2);
                assert(var_ok(left, mid2) && value_at(mid2, left) == value_at(mid, left));
            }
            let next = self.node_hasher.hash(cs, left, right);
            proof {
                lemma_extends_trans(mid, pre, cs0);
                lemma_extends_trans(mid2, mid, cs0);
                lemma_extends_trans(cs@, mid2, cs0);
                self.leaf_hasher.lemma_extends_stable(mid2, cs@);
                let bv = bool_value(bit, cs0.vals);
                assert(rbits[i as int] == bv);
                assert(rsibs[i as int] == value_at(cs0, sib));
                let lval = if bv {
                    value_at(cs0, sib)
                } else {
                    value_at(pre, cur)
                };
                let rval = if bv {
                    value_at(pre, cur)
                } else {
                    value_at(cs0, sib)
                };
                assert(bits_index(left_sel@, pre.vals) == (if bv {
                    1nat
                } else {
                    0nat
                })) by {
                    assert(left_sel@.drop_last() =~= Seq::<Boolean>::empty());
                    assert(bits_index(Seq::<Boolean>::empty(), pre.vals) == 0);
                    assert(left_sel@.last() == bit);
                    lemma_bool_value_extend(bit, cs0, pre);
                }
                assert(pair@[0] == cur && pair@[1] == sib);
                assert(value_at(mid, left) == lval);
                assert(bits_index(right_sel@, mid.vals) == (if bv {
                    0nat
                } else {
                    1nat
                })) by {
                    assert(right_sel@.drop_last() =~= Seq::<Boolean>::empty());
                    assert(bits_index(Seq::<Boolean>::empty(), mid.vals) == 0);
                    assert(right_sel@.last() == nbit);
                    lemma_bool_value_extend(bit, cs0, mid);
                    assert(bool_value(nbit, mid.vals) == !bool_value(bit, mid.vals));
                }
                assert(value_at(mid, cur) == value_at(pre, cur));
                assert(value_at(mid, sib) == value_at(cs0, sib));
                assert(value_at(mid2, right) == rval);
                assert(value_at(cs@, next) == spec_two_to_one(nperm, nrate, ncap, lval, rval));
                assert(rbits.skip(i as int).len() > 0);
                assert(rbits.skip(i as int)[0] == rbits[i as int]);
                assert(rsibs.skip(i as int)[0] == rsibs[i as int]);
                assert(rbits.skip(i as int).skip(1) =~= rbits.skip(i as int + 1));
                assert(rsibs.skip(i as int).skip(1) =~= rsibs.skip(i as int + 1));
            }
            cur = next;
            i = i + 1;
        }
        let ghost pre_end = cs@;
        proof {
            assert(rbits.skip(n as int) =~= Seq::<bool>::empty());
            assert(rsibs.skip(n as int) =~= Seq::<nat>::empty());
            assert(value_at(pre_end, cur) == target);
            assert(value_at(pre_end, root) == value_at(cs0, root));
        }
        cs.enforce_equal(cur, root);
        proof {
            lemma_extends_trans(cs@, pre_end, cs0);
            self.leaf_hasher.lemma_extends_stable(pre_end, cs@);
            self.node_hasher.lemma_extends_stable(pre_end, cs@);
        }
        Ok(())
    }
}

} // verus!
