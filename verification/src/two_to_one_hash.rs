//! The node hash: two field elements in, one out.
//!
//! `hash(left, right)` resets a private sponge, absorbs `[left, right]` in
//! that fixed order and squeezes one element.  The order is significant:
//! it encodes which child of a tree node each operand is.

use vstd::prelude::*;
use crate::constraints::{
    cs_wf, extends, sat, value_at, var_ok, var_values, ConstraintSystem, CsModel, FpVar,
};
use crate::fr::{Fr};
use crate::permutation::{Permutation, PermutationGadget, PermutationSpec};
use crate::sponge::{
    lemma_absorb_ignores_perms, lemma_reset_like_fresh, lemma_squeeze_ignores_perms, spec_absorb,
    spec_fresh, spec_reset, spec_squeeze, AlgebraicSponge, SpongeModel,
};
use crate::sponge_gadget::AlgebraicSpongeGadget;

verus! {

/// The node-hash value: reset, absorb `[left, right]`, squeeze one.
pub open spec fn spec_two_to_one<P: PermutationSpec>(
    p: P,
    rate: nat,
    capacity: nat,
    left: nat,
    right: nat,
) -> nat {
    spec_squeeze(spec_absorb(spec_fresh(p, rate, capacity), seq![left, right]), 1).1[0]
}

/// With the seeded test permutation and both operands within one rate
/// block, the node hash evaluates in closed form: the first operand plus
/// the seed.
pub proof fn lemma_two_to_one_eval(
    p: crate::permutation::SeededDummyPermutation,
    rate: nat,
    capacity: nat,
    a: nat,
    b: nat,
)
    requires
        2 <= rate,
        1 <= capacity,
        a < crate::fr::fr_p(),
        b < crate::fr::fr_p(),
    ensures
        spec_two_to_one(p, rate, capacity, a, b) == crate::fr::fadd(
            a,
            crate::fr::fmul(1, p.seed@),
        ),
{
    let fresh = spec_fresh(p, rate, capacity);
    let e = seq![a, b];
    let zs = crate::sponge::zero_state(rate + capacity);
    vstd::arithmetic::div_mod::lemma_small_mod(a, crate::fr::fr_p());
    vstd::arithmetic::div_mod::lemma_small_mod(b, crate::fr::fr_p());
    assert(e.skip(1) =~= seq![b]);
    assert(seq![b].skip(1) =~= Seq::<nat>::empty());
    let st2 = zs.update(0, crate::fr::fadd(zs[0], a));
    let st3 = st2.update(1, crate::fr::fadd(st2[1], b));
    assert(crate::sponge::absorb_at(p, st3, rate, 2, Seq::<nat>::empty()) == (st3, 2nat, 0nat));
    assert(crate::sponge::absorb_at(p, st2, rate, 1, seq![b]) == (st3, 2nat, 0nat));
    assert(crate::sponge::absorb_at(p, zs, rate, 0, e) == (st3, 2nat, 0nat));
    let m1 = spec_absorb(fresh, e);
    assert(m1.state == st3);
    assert(m1.mode == crate::sponge::SpongeMode::Absorbing { pos: 2 });
    assert(st3[0] == crate::fr::fadd(0, a));
    assert(crate::fr::fadd(0, a) == a);
    let base = p.spec_permute(st3);
    assert(base[0] == crate::fr::fadd(a, crate::fr::fmul(1, p.seed@)));
    assert(crate::sponge::squeeze_at(p, base, rate, 1, 0).0 == Seq::<nat>::empty());
    assert(seq![base[0]] + Seq::<nat>::empty() =~= seq![base[0]]);
    assert(crate::sponge::squeeze_at(p, base, rate, 0, 1).0 == seq![base[0]]);
    assert(spec_squeeze(m1, 1).1[0] == base[0]);
}

/// Order-sensitivity law: under the seeded test permutation, with a rate
/// of at least two, swapping the operands of the node hash changes the
/// result whenever they differ.
pub proof fn lemma_two_to_one_order_sensitive(
    p: crate::permutation::SeededDummyPermutation,
    rate: nat,
    capacity: nat,
    a: nat,
    b: nat,
)
    requires
        2 <= rate,
        1 <= capacity,
        a < crate::fr::fr_p(),
        b < crate::fr::fr_p(),
        a != b,
    ensures
        spec_two_to_one(p, rate, capacity, a, b) != spec_two_to_one(p, rate, capacity, b, a),
{
    lemma_two_to_one_eval(p, rate, capacity, a, b);
    lemma_two_to_one_eval(p, rate, capacity, b, a);
    crate::fr::lemma_fadd_cancel(crate::fr::fmul(1, p.seed@), a, b);
}

/// Hashes an ordered pair of field elements to one element through a
/// private sponge.
pub struct TwoToOneHash<P: Permutation> {
    sponge: AlgebraicSponge<P>,
}

impl<P: Permutation> View for TwoToOneHash<P> {
    type V = SpongeModel<P>;

    closed spec fn view(&self) -> SpongeModel<P> {
        self.sponge@
    }
}

impl<P: Permutation> TwoToOneHash<P> {
    /// The wrapper's internal invariant.
    pub closed spec fn wf(&self) -> bool {
        self.sponge.wf()
    }

    /// Take ownership of a sponge and reset it.
    pub fn new(sponge: AlgebraicSponge<P>) -> (r: TwoToOneHash<P>)
        requires
            sponge.wf(),
        ensures
            r.wf(),
            r@ == spec_reset(sponge@),
    {
        let mut s = sponge;
        s.reset();
        TwoToOneHash { sponge: s }
    }

    /// Hash an ordered pair: the sponge is reset, absorbs `[left, right]`
    /// and squeezes exactly one element.
    pub fn hash(&mut self, left: Fr, right: Fr) -> (r: Fr)
        requires
            old(self).wf(),
        ensures
            final(self).wf(),
            final(self)@.perm == old(self)@.perm,
            final(self)@.rate == old(self)@.rate,
            final(self)@.capacity == old(self)@.capacity,
            r@ == spec_two_to_one(
                old(self)@.perm,
                old(self)@.rate,
                old(self)@.capacity,
                left@,
                right@,
            ),
    {
        let ghost m0 = self@;
        self.sponge.reset();
        let mut pair: Vec<Fr> = Vec::new();
        pair.push(left);
        pair.push(right);
        self.sponge.absorb(pair.as_slice());
        let out = self.sponge.squeeze(1);
        proof {
            assert(crate::fr::views(pair@) =~= seq![left@, right@]);
            lemma_reset_like_fresh(m0);
            let fresh = spec_fresh(m0.perm, m0.rate, m0.capacity);
            lemma_absorb_ignores_perms(spec_reset(m0), fresh, seq![left@, right@]);
            lemma_squeeze_ignores_perms(
                spec_absorb(spec_reset(m0), seq![left@, right@]),
                spec_absorb(fresh, seq![left@, right@]),
                1,
            );
            assert(out@[0]@ == crate::fr::views(out@)[0]);
        }
        out[0]
    }
}

/// The circuit variant of the node hash: identical control flow over
/// circuit variables, constrained so that the output variable holds
/// exactly the node-hash value.
pub struct TwoToOneHashGadget<P: PermutationGadget> {
    sponge: AlgebraicSpongeGadget<P>,
}

impl<P: PermutationGadget> TwoToOneHashGadget<P> {
    /// The wrapper's internal invariant, relative to a constraint system.
    pub closed spec fn wf(&self, m: CsModel) -> bool {
        self.sponge.wf(m)
    }

    /// The wrapper's sponge model under an assignment.
    pub closed spec fn model(&self, m: CsModel) -> SpongeModel<P> {
        self.sponge.model(m)
    }

    /// Extending the constraint system moves neither well-formedness nor
    /// the model.
    pub proof fn lemma_extends_stable(&self, m1: CsModel, m2: CsModel)
        requires
            self.wf(m1),
            extends(m2, m1),
        ensures
            self.wf(m2),
            self.model(m2) == self.model(m1),
    {
        self.sponge.lemma_extends_stable(m1, m2);
    }

    /// Take ownership of a circuit sponge and reset it.
    pub fn new(cs: &mut ConstraintSystem, sponge: AlgebraicSpongeGadget<P>) -> (r:
        TwoToOneHashGadget<P>)
        requires
            cs_wf(old(cs)@),
            sponge.wf(old(cs)@),
        ensures
            cs_wf(final(cs)@),
            extends(final(cs)@, old(cs)@),
            sat(final(cs)@) <==> sat(old(cs)@),
            r.wf(final(cs)@),
            r.model(final(cs)@) == spec_reset(sponge.model(old(cs)@)),
    {
        let mut s = sponge;
        s.reset(cs);
        TwoToOneHashGadget { sponge: s }
    }

    /// Hash an ordered pair of variables: the sponge is reset, absorbs
    /// `[left, right]` and squeezes one freshly allocated output variable,
    /// whose value is the node-hash of the operands' values.
    pub fn hash(&mut self, cs: &mut ConstraintSystem, left: FpVar, right: FpVar) -> (r: FpVar)
        requires
            cs_wf(old(cs)@),
            old(self).wf(old(cs)@),
            var_ok(left, old(cs)@),
            var_ok(right, old(cs)@),
        ensures
            cs_wf(final(cs)@),
            extends(final(cs)@, old(cs)@),
            sat(final(cs)@) <==> sat(old(cs)@),
            final(self).wf(final(cs)@),
            final(self).model(final(cs)@).perm == old(self).model(old(cs)@).perm,
            final(self).model(final(cs)@).rate == old(self).model(old(cs)@).rate,
            final(self).model(final(cs)@).capacity == old(self).model(old(cs)@).capacity,
            var_ok(r, final(cs)@),
            value_at(final(cs)@, r) == spec_two_to_one(
                old(self).model(old(cs)@).perm,
                old(self).model(old(cs)@).rate,
                old(self).model(old(cs)@).capacity,
                value_at(old(cs)@, left),
                value_at(old(cs)@, right),
            ),
    {
        let ghost cs0 = cs@;
        let ghost m0 = self.model(cs0);
        let ghost lv = value_at(cs0, left);
        let ghost rv = value_at(cs0, right);
        self.sponge.reset(cs);
        let ghost cs1 = cs@;
        let mut pair: Vec<FpVar> = Vec::new();
        pair.push(left);
        pair.push(right);
        proof {
            assert(var_ok(left, cs1) && var_ok(right, cs1));
            assert(var_values(pair@, cs1) =~= seq![lv, rv]);
        }
        self.sponge.absorb(cs, pair.as_slice());
        let out = self.sponge.squeeze(cs, 1);
        proof {
            lemma_reset_like_fresh(m0);
            let fresh = spec_fresh(m0.perm, m0.rate, m0.capacity);
            lemma_absorb_ignores_perms(spec_reset(m0), fresh, seq![lv, rv]);
            lemma_squeeze_ignores_perms(
                spec_absorb(spec_reset(m0), seq![lv, rv]),
                spec_absorb(fresh, seq![lv, rv]),
                1,
            );
            crate::constraints::lemma_extends_trans(cs@, cs1, cs0);
            assert(value_at(cs@, out@[0]) == var_values(out@, cs@)[0]);
        }
        out[0]
    }
}

} // verus!
