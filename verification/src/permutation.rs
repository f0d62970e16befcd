//! The permutation capability the sponge is built on.
//!
//! A permutation is a pluggable, deterministic, fixed-width transform of the
//! sponge's state array.  Its mathematical behaviour is captured once, by
//! [`PermutationSpec`], and consumed by two executable capabilities that
//! share it: [`Permutation`] transforms concrete field values, and the
//! circuit-side counterpart (declared next to the constraint system)
//! drives the identical transform over allocated circuit variables.
//!
//! Two simple permutations serve as test doubles; a production round
//! function (Poseidon, Rescue, ...) plugs in through the same traits.

use vstd::prelude::*;
use crate::constraints::{
    cs_wf, extends, sat, value_at, var_ok, var_values, ConstraintSystem, FpVar,
};
use crate::fr::{fadd, fmul, fr_p, views, Fr};

verus! {

/// The mathematical model of a permutation: a function on sequences of
/// residues.  Both the concrete and the circuit capability of one
/// permutation answer to this single model, which is what keeps the two
/// backends synchronized by construction.
pub trait PermutationSpec: Sized {
    /// The transform on residue sequences.
    spec fn spec_permute(&self, s: Seq<nat>) -> Seq<nat>;

    /// The transform is length-preserving.
    proof fn lemma_permute_len(&self, s: Seq<nat>)
        ensures
            self.spec_permute(s).len() == s.len(),
    ;
}

/// The concrete permutation capability: transforms a state array of field
/// values in place, exactly as the model says.
pub trait Permutation: PermutationSpec {
    /// Apply the permutation to the state array.
    fn permute(&self, state: &mut Vec<Fr>)
        ensures
            final(state)@.len() == old(state)@.len(),
            views(final(state)@) == self.spec_permute(views(old(state)@)),
    ;
}

/// A permutation that adds one to every state cell.  A test double: it is
/// trivially non-cryptographic, but exercises every mode transition of the
/// sponge.
#[derive(Clone, Copy)]
pub struct DummyPermutation {}

impl PermutationSpec for DummyPermutation {
    open spec fn spec_permute(&self, s: Seq<nat>) -> Seq<nat> {
        Seq::new(s.len(), |i: int| fadd(s[i], 1))
    }

    proof fn lemma_permute_len(&self, s: Seq<nat>) {
    }
}

impl Permutation for DummyPermutation {
    fn permute(&self, state: &mut Vec<Fr>) {
        let ghost orig = state@;
        let n = state.len();
        let mut i: usize = 0;
        while i < n
            invariant
                n == state@.len(),
                orig.len() == n,
                i <= n,
                forall|j: int| 0 <= j < i ==> state@[j]@ == fadd(orig[j]@, 1),
                forall|j: int| i <= j < n ==> state@[j] == orig[j],
            decreases n - i,
        {
            state[i] = state[i].add(Fr::one());
            i = i + 1;
        }
        proof {
            assert(views(state@) =~= self.spec_permute(views(orig)));
        }
    }
}

/// A permutation configured by a seed `s`: cell `j` of an `m`-cell state is
/// incremented by `(j + 1) * s`.  A slightly richer test double whose
/// closed form makes hash values exactly predictable.
#[derive(Clone, Copy)]
pub struct SeededDummyPermutation {
    pub seed: Fr,
}

impl PermutationSpec for SeededDummyPermutation {
    open spec fn spec_permute(&self, s: Seq<nat>) -> Seq<nat> {
        Seq::new(s.len(), |i: int| fadd(s[i], fmul((i + 1) as nat, self.seed@)))
    }

    proof fn lemma_permute_len(&self, s: Seq<nat>) {
    }
}

impl Permutation for SeededDummyPermutation {
    fn permute(&self, state: &mut Vec<Fr>) {
        let ghost orig = state@;
        let n = state.len();
        let mut cur = self.seed;
        let mut i: usize = 0;
        proof {
            crate::fr::lemma_view_bound(cur);
            vstd::arithmetic::div_mod::lemma_small_mod(self.seed@, fr_p());
            assert(cur@ == fmul(1nat, self.seed@));
        }
        while i < n
            invariant
                n == state@.len(),
                orig.len() == n,
                i <= n,
                cur@ == fmul((i + 1) as nat, self.seed@),
                forall|j: int| 0 <= j < i
                    ==> state@[j]@ == fadd(orig[j]@, fmul((j + 1) as nat, self.seed@)),
                forall|j: int| i <= j < n ==> state@[j] == orig[j],
            decreases n - i,
        {
            state[i] = state[i].add(cur);
            cur = cur.add(self.seed);
            proof {
                crate::fr::lemma_view_bound(self.seed);
                lemma_scale_step((i + 1) as nat, self.seed@);
            }
            i = i + 1;
        }
        proof {
            assert(views(state@) =~= self.spec_permute(views(orig)));
        }
    }
}

/// The circuit permutation capability: drives the same transform as the
/// concrete one, but over allocated circuit variables, emitting
/// constraints into the given system.  The values the state variables
/// hold afterwards follow the very model the concrete capability follows.
pub trait PermutationGadget: PermutationSpec {
    /// Apply the permutation to a state array of circuit variables.
    fn permute(&self, cs: &mut ConstraintSystem, state: &mut Vec<FpVar>)
        requires
            cs_wf(old(cs)@),
            forall|j: int| 0 <= j < old(state)@.len() ==> var_ok(#[trigger] old(state)@[j], old(cs)@),
        ensures
            cs_wf(final(cs)@),
            extends(final(cs)@, old(cs)@),
            sat(final(cs)@) <==> sat(old(cs)@),
            final(state)@.len() == old(state)@.len(),
            forall|j: int|
                0 <= j < final(state)@.len() ==> var_ok(#[trigger] final(state)@[j], final(cs)@),
            var_values(final(state)@, final(cs)@) == self.spec_permute(
                var_values(old(state)@, old(cs)@),
            ),
    ;
}

impl PermutationGadget for SeededDummyPermutation {
    fn permute(&self, cs: &mut ConstraintSystem, state: &mut Vec<FpVar>) {
        let ghost m0 = cs@;
        let ghost orig = state@;
        let ghost ov = var_values(orig, m0);
        let n = state.len();
        let mut cur = self.seed;
        let mut i: usize = 0;
        proof {
            crate::fr::lemma_view_bound(cur);
            vstd::arithmetic::div_mod::lemma_small_mod(self.seed@, fr_p());
            assert(cur@ == fmul(1nat, self.seed@));
        }
        while i < n
            invariant
                n == state@.len(),
                orig.len() == n,
                ov == var_values(orig, m0),
                i <= n,
                cur@ == fmul((i + 1) as nat, self.seed@),
                cs_wf(cs@),
                extends(cs@, m0),
                sat(cs@) <==> sat(m0),
                forall|j: int| 0 <= j < n ==> var_ok(#[trigger] orig[j], m0),
                forall|j: int| 0 <= j < i ==> var_ok(#[trigger] state@[j], cs@),
                forall|j: int|
                    0 <= j < i ==> value_at(cs@, #[trigger] state@[j]) == fadd(
                        ov[j],
                        fmul((j + 1) as nat, self.seed@),
                    ),
                forall|j: int| i <= j < n ==> state@[j] == orig[j],
            decreases n - i,
        {
            let ghost pre = cs@;
            proof {
                assert(var_ok(orig[i as int], pre));
            }
            let nv = cs.add_constant(state[i], cur);
            state[i] = nv;
            cur = cur.add(self.seed);
            proof {
                crate::fr::lemma_view_bound(self.seed);
                lemma_scale_step((i + 1) as nat, self.seed@);
                assert(value_at(pre, orig[i as int]) == ov[i as int]);
                assert forall|j: int| 0 <= j < i implies value_at(cs@, #[trigger] state@[j]) == fadd(
                    ov[j],
                    fmul((j + 1) as nat, self.seed@),
                ) by {
                    assert(var_ok(state@[j], pre));
                }
            }
            i = i + 1;
        }
        proof {
            assert(var_values(state@, cs@) =~= self.spec_permute(var_values(orig, m0)));
        }
    }
}

/// Adding the seed once more advances the multiple by one.
proof fn lemma_scale_step(k: nat, s: nat)
    requires
        s < fr_p(),
    ensures
        fadd(fmul(k, s), s) == fmul((k + 1) as nat, s),
{
    vstd::arithmetic::div_mod::lemma_small_mod(s, fr_p());
    vstd::arithmetic::div_mod::lemma_add_mod_noop((k * s) as int, s as int, fr_p() as int);
    assert((k + 1) * s == k * s + s) by (nonlinear_arith);
}

} // verus!
