//! The leaf hash: a fixed wrapper over a freshly reset sponge.
//!
//! `hash` absorbs all leaf elements and squeezes exactly one element;
//! `zk_hash` additionally absorbs a salt before squeezing, so repeated
//! openings of one leaf are unlinkable.  Each call resets the private
//! sponge first, so no state leaks between unrelated hashes.

use vstd::prelude::*;
use crate::constraints::{
    cs_wf, extends, lemma_var_values_extend, sat, value_at, var_ok, var_values, ConstraintSystem,
    CsModel, FpVar,
};
use crate::fr::{views, Fr};
use crate::permutation::{Permutation, PermutationGadget, PermutationSpec};
use crate::sponge::{
    lemma_absorb_ignores_perms, lemma_reset_like_fresh, lemma_squeeze_ignores_perms, spec_absorb,
    spec_fresh, spec_reset, spec_squeeze, AlgebraicSponge, SpongeModel,
};
use crate::sponge_gadget::AlgebraicSpongeGadget;

verus! {

/// The leaf-hash value: reset, absorb the elements, squeeze one.
pub open spec fn spec_leaf_hash<P: PermutationSpec>(
    p: P,
    rate: nat,
    capacity: nat,
    elems: Seq<nat>,
) -> nat {
    spec_squeeze(spec_absorb(spec_fresh(p, rate, capacity), elems), 1).1[0]
}

/// The salted leaf-hash value: reset, absorb the elements, absorb the
/// salt, squeeze one.
pub open spec fn spec_zk_hash<P: PermutationSpec>(
    p: P,
    rate: nat,
    capacity: nat,
    elems: Seq<nat>,
    salt: nat,
) -> nat {
    spec_squeeze(spec_absorb(spec_absorb(spec_fresh(p, rate, capacity), elems), seq![salt]), 1).1[0]
}

/// With the seeded test permutation, the salted leaf hash evaluates in
/// closed form whenever the leaf fills whole rate blocks (any leaf at
/// rate one): the first state cell after the leaf, plus the salt, plus
/// the seed.
proof fn lemma_zk_hash_eval(
    p: crate::permutation::SeededDummyPermutation,
    rate: nat,
    capacity: nat,
    elems: Seq<nat>,
    salt: nat,
)
    requires
        1 <= rate,
        1 <= capacity,
        elems.len() as int % (rate as int) == 0,
    ensures
        spec_zk_hash(p, rate, capacity, elems, salt) == crate::fr::fadd(
            crate::fr::fadd(zk_base_cell(p, rate, capacity, elems), salt),
            crate::fr::fmul(1, p.seed@),
        ),
{
    let fresh = spec_fresh(p, rate, capacity);
    let me = spec_absorb(fresh, elems);
    let zs = crate::sponge::zero_state(rate + capacity);
    crate::sponge::lemma_absorb_at_pos(p, zs, rate, 0, elems);
    crate::sponge::lemma_absorb_at_len(p, zs, rate, 0, elems);
    if elems.len() > 0 {
        let len = elems.len();
        let k = len as int / rate as int;
        vstd::arithmetic::div_mod::lemma_fundamental_div_mod(len as int, rate as int);
        assert(len == rate * k);
        assert(k >= 1) by (nonlinear_arith)
            requires
                len == rate * k,
                len >= 1,
                rate >= 1,
                k >= 0,
        ;
        assert(len - 1 == rate * (k - 1) + (rate - 1)) by (nonlinear_arith)
            requires
                len == rate * k,
        ;
        vstd::arithmetic::div_mod::lemma_fundamental_div_mod_converse(
            len - 1,
            rate as int,
            k - 1,
            rate - 1,
        );
        assert((0 + len - 1) % (rate as int) == rate - 1);
        assert(me.mode == crate::sponge::SpongeMode::Absorbing { pos: rate });
    } else {
        assert(me.mode == crate::sponge::SpongeMode::Absorbing { pos: 0 });
    }
    assert(me.state.len() == rate + capacity);
    // Absorbing the salt: one forced permutation where the cursor stands
    // at the rate, then the salt lands in cell zero either way.
    let base = zk_base(p, rate, capacity, elems);
    assert(base.len() == rate + capacity) by {
        p.lemma_permute_len(me.state);
    }
    let m1 = spec_absorb(me, seq![salt]);
    assert(seq![salt].skip(1) =~= Seq::<nat>::empty());
    let st2 = base.update(0, crate::fr::fadd(base[0], salt));
    assert(crate::sponge::absorb_at(p, st2, rate, 1, Seq::<nat>::empty()) == (st2, 1nat, 0nat));
    assert(crate::sponge::absorb_at(p, base, rate, 0, seq![salt]) == (st2, 1nat, 0nat));
    assert(m1.state == st2);
    assert(m1.mode == crate::sponge::SpongeMode::Absorbing { pos: 1 });
    // Squeezing one element: a forced permutation, then cell zero is read.
    let base2 = p.spec_permute(st2);
    assert(base2[0] == crate::fr::fadd(st2[0], crate::fr::fmul(1, p.seed@)));
    assert(crate::sponge::squeeze_at(p, base2, rate, 1, 0).0 == Seq::<nat>::empty());
    assert(seq![base2[0]] + Seq::<nat>::empty() =~= seq![base2[0]]);
    assert(crate::sponge::squeeze_at(p, base2, rate, 0, 1).0 == seq![base2[0]]);
    assert(spec_squeeze(m1, 1).1[0] == base2[0]);
}

/// The state the sponge holds just before the salt is written: after the
/// leaf, with the pending boundary permutation applied if one is due.
spec fn zk_base(
    p: crate::permutation::SeededDummyPermutation,
    rate: nat,
    capacity: nat,
    elems: Seq<nat>,
) -> Seq<nat> {
    let me = spec_absorb(spec_fresh(p, rate, capacity), elems);
    if elems.len() == 0 {
        me.state
    } else {
        p.spec_permute(me.state)
    }
}

/// Cell zero of that state: the only cell the salted squeeze reads.
spec fn zk_base_cell(
    p: crate::permutation::SeededDummyPermutation,
    rate: nat,
    capacity: nat,
    elems: Seq<nat>,
) -> nat {
    zk_base(p, rate, capacity, elems)[0]
}

/// Salt-sensitivity law: under the seeded test permutation, salting one
/// leaf with two different salts yields two different hashes, whenever
/// the leaf fills whole rate blocks (in particular, always at rate one).
pub proof fn lemma_zk_hash_salt_sensitive(
    p: crate::permutation::SeededDummyPermutation,
    rate: nat,
    capacity: nat,
    elems: Seq<nat>,
    salt1: nat,
    salt2: nat,
)
    requires
        1 <= rate,
        1 <= capacity,
        elems.len() as int % (rate as int) == 0,
        salt1 < crate::fr::fr_p(),
        salt2 < crate::fr::fr_p(),
        salt1 != salt2,
    ensures
        spec_zk_hash(p, rate, capacity, elems, salt1) != spec_zk_hash(
            p,
            rate,
            capacity,
            elems,
            salt2,
        ),
{
    lemma_zk_hash_eval(p, rate, capacity, elems, salt1);
    lemma_zk_hash_eval(p, rate, capacity, elems, salt2);
    let b0 = zk_base_cell(p, rate, capacity, elems);
    crate::fr::lemma_fadd_cancel(b0, salt1, salt2);
    vstd::arithmetic::div_mod::lemma_mod_bound((b0 + salt1) as int, crate::fr::fr_p() as int);
    vstd::arithmetic::div_mod::lemma_mod_bound((b0 + salt2) as int, crate::fr::fr_p() as int);
    crate::fr::lemma_fadd_cancel(
        crate::fr::fmul(1, p.seed@),
        crate::fr::fadd(b0, salt1),
        crate::fr::fadd(b0, salt2),
    );
}

/// Hashes a leaf of arbitrary arity to one field element through a
/// private sponge.
pub struct LeafHash<P: Permutation> {
    sponge: AlgebraicSponge<P>,
}

impl<P: Permutation> View for LeafHash<P> {
    type V = SpongeModel<P>;

    closed spec fn view(&self) -> SpongeModel<P> {
        self.sponge@
    }
}

impl<P: Permutation> LeafHash<P> {
    /// The wrapper's internal invariant.
    pub closed spec fn wf(&self) -> bool {
        self.sponge.wf()
    }

    /// Take ownership of a sponge and reset it.
    pub fn new(sponge: AlgebraicSponge<P>) -> (r: LeafHash<P>)
        requires
            sponge.wf(),
        ensures
            r.wf(),
            r@ == spec_reset(sponge@),
    {
        let mut s = sponge;
        s.reset();
        LeafHash { sponge: s }
    }

    /// Hash the given elements: the sponge is reset, absorbs them all and
    /// squeezes exactly one element.  The result depends only on the
    /// sponge's configuration and the inputs.
    pub fn hash(&mut self, elems: &[Fr]) -> (r: Fr)
        requires
            old(self).wf(),
        ensures
            final(self).wf(),
            final(self)@.perm == old(self)@.perm,
            final(self)@.rate == old(self)@.rate,
            final(self)@.capacity == old(self)@.capacity,
            r@ == spec_leaf_hash(old(self)@.perm, old(self)@.rate, old(self)@.capacity, views(elems@)),
    {
        let ghost m0 = self@;
        self.sponge.reset();
        self.sponge.absorb(elems);
        let out = self.sponge.squeeze(1);
        proof {
            lemma_reset_like_fresh(m0);
            lemma_absorb_ignores_perms(
                spec_reset(m0),
                spec_fresh(m0.perm, m0.rate, m0.capacity),
                views(elems@),
            );
            lemma_squeeze_ignores_perms(
                spec_absorb(spec_reset(m0), views(elems@)),
                spec_absorb(spec_fresh(m0.perm, m0.rate, m0.capacity), views(elems@)),
                1,
            );
            assert(out@[0]@ == views(out@)[0]);
        }
        out[0]
    }

    /// Hash the given elements together with a salt: as `hash`, with the
    /// salt absorbed after the elements and before the squeeze.
    pub fn zk_hash(&mut self, elems: &[Fr], salt: Fr) -> (r: Fr)
        requires
            old(self).wf(),
        ensures
            final(self).wf(),
            final(self)@.perm == old(self)@.perm,
            final(self)@.rate == old(self)@.rate,
            final(self)@.capacity == old(self)@.capacity,
            r@ == spec_zk_hash(
                old(self)@.perm,
                old(self)@.rate,
                old(self)@.capacity,
                views(elems@),
                salt@,
            ),
    {
        let ghost m0 = self@;
        self.sponge.reset();
        self.sponge.absorb(elems);
        let mut salt_vec: Vec<Fr> = Vec::new();
        salt_vec.push(salt);
        self.sponge.absorb(salt_vec.as_slice());
        let out = self.sponge.squeeze(1);
        proof {
            assert(views(salt_vec@) =~= seq![salt@]);
            lemma_reset_like_fresh(m0);
            let fresh = spec_fresh(m0.perm, m0.rate, m0.capacity);
            lemma_absorb_ignores_perms(spec_reset(m0), fresh, views(elems@));
            lemma_absorb_ignores_perms(
                spec_absorb(spec_reset(m0), views(elems@)),
                spec_absorb(fresh, views(elems@)),
                seq![salt@],
            );
            lemma_squeeze_ignores_perms(
                spec_absorb(spec_absorb(spec_reset(m0), views(elems@)), seq![salt@]),
                spec_absorb(spec_absorb(fresh, views(elems@)), seq![salt@]),
                1,
            );
            assert(out@[0]@ == views(out@)[0]);
        }
        out[0]
    }
}

/// The circuit variant of the leaf hash: identical control flow over
/// circuit variables, constrained so that the output variable holds
/// exactly the leaf-hash value.
pub struct LeafHashGadget<P: PermutationGadget> {
    sponge: AlgebraicSpongeGadget<P>,
}

impl<P: PermutationGadget> LeafHashGadget<P> {
    /// The wrapper's internal invariant, relative to a constraint system.
    pub closed spec fn wf(&self, m: CsModel) -> bool {
        self.sponge.wf(m)
    }

    /// The wrapper's sponge model under an assignment.
    pub closed spec fn model(&self, m: CsModel) -> SpongeModel<P> {
        self.sponge.model(m)
    }

    /// Extending the constraint system moves neither well-formedness nor
    /// the model.
    pub proof fn lemma_extends_stable(&self, m1: CsModel, m2: CsModel)
        requires
            self.wf(m1),
            extends(m2, m1),
        ensures
            self.wf(m2),
            self.model(m2) == self.model(m1),
    {
        self.sponge.lemma_extends_stable(m1, m2);
    }

    /// Take ownership of a circuit sponge and reset it.
    pub fn new(cs: &mut ConstraintSystem, sponge: AlgebraicSpongeGadget<P>) -> (r: LeafHashGadget<
        P,
    >)
        requires
            cs_wf(old(cs)@),
            sponge.wf(old(cs)@),
        ensures
            cs_wf(final(cs)@),
            extends(final(cs)@, old(cs)@),
            sat(final(cs)@) <==> sat(old(cs)@),
            r.wf(final(cs)@),
            r.model(final(cs)@) == spec_reset(sponge.model(old(cs)@)),
    {
        let mut s = sponge;
        s.reset(cs);
        LeafHashGadget { sponge: s }
    }

    /// Hash the given variables: the sponge is reset, absorbs them all
    /// and squeezes exactly one freshly allocated output variable, whose
    /// value is the leaf-hash of the inputs' values.
    pub fn hash(&mut self, cs: &mut ConstraintSystem, elems: &[FpVar]) -> (r: FpVar)
        requires
            cs_wf(old(cs)@),
            old(self).wf(old(cs)@),
            forall|j: int| 0 <= j < elems@.len() ==> var_ok(#[trigger] elems@[j], old(cs)@),
        ensures
            cs_wf(final(cs)@),
            extends(final(cs)@, old(cs)@),
            sat(final(cs)@) <==> sat(old(cs)@),
            final(self).wf(final(cs)@),
            final(self).model(final(cs)@).perm == old(self).model(old(cs)@).perm,
            final(self).model(final(cs)@).rate == old(self).model(old(cs)@).rate,
            final(self).model(final(cs)@).capacity == old(self).model(old(cs)@).capacity,
            var_ok(r, final(cs)@),
            value_at(final(cs)@, r) == spec_leaf_hash(
                old(self).model(old(cs)@).perm,
                old(self).model(old(cs)@).rate,
                old(self).model(old(cs)@).capacity,
                var_values(elems@, old(cs)@),
            ),
    {
        let ghost cs0 = cs@;
        let ghost m0 = self.model(cs0);
        let ghost ev = var_values(elems@, cs0);
        self.sponge.reset(cs);
        let ghost cs1 = cs@;
        proof {
            lemma_var_values_extend(elems@, cs0, cs1);
        }
        self.sponge.absorb(cs, elems);
        let out = self.sponge.squeeze(cs, 1);
        proof {
            lemma_reset_like_fresh(m0);
            lemma_absorb_ignores_perms(spec_reset(m0), spec_fresh(m0.perm, m0.rate, m0.capacity), ev);
            lemma_squeeze_ignores_perms(
                spec_absorb(spec_reset(m0), ev),
                spec_absorb(spec_fresh(m0.perm, m0.rate, m0.capacity), ev),
                1,
            );
            crate::constraints::lemma_extends_trans(cs@, cs1, cs0);
            assert(value_at(cs@, out@[0]) == var_values(out@, cs@)[0]);
        }
        out[0]
    }

    /// Hash the given variables together with a salt variable: as `hash`,
    /// with the salt absorbed after the elements and before the squeeze.
    pub fn zk_hash(&mut self, cs: &mut ConstraintSystem, elems: &[FpVar], salt: FpVar) -> (r:
        FpVar)
        requires
            cs_wf(old(cs)@),
            old(self).wf(old(cs)@),
            forall|j: int| 0 <= j < elems@.len() ==> var_ok(#[trigger] elems@[j], old(cs)@),
            var_ok(salt, old(cs)@),
        ensures
            cs_wf(final(cs)@),
            extends(final(cs)@, old(cs)@),
            sat(final(cs)@) <==> sat(old(cs)@),
            final(self).wf(final(cs)@),
            final(self).model(final(cs)@).perm == old(self).model(old(cs)@).perm,
            final(self).model(final(cs)@).rate == old(self).model(old(cs)@).rate,
            final(self).model(final(cs)@).capacity == old(self).model(old(cs)@).capacity,
            var_ok(r, final(cs)@),
            value_at(final(cs)@, r) == spec_zk_hash(
                old(self).model(old(cs)@).perm,
                old(self).model(old(cs)@).rate,
                old(self).model(old(cs)@).capacity,
                var_values(elems@, old(cs)@),
                value_at(old(cs)@, salt),
            ),
    {
        let ghost cs0 = cs@;
        let ghost m0 = self.model(cs0);
        let ghost ev = var_values(elems@, cs0);
        let ghost saltv = value_at(cs0, salt);
        self.sponge.reset(cs);
        let ghost cs1 = cs@;
        proof {
            lemma_var_values_extend(elems@, cs0, cs1);
        }
        self.sponge.absorb(cs, elems);
        let ghost cs2 = cs@;
        let mut salt_vec: Vec<FpVar> = Vec::new();
        salt_vec.push(salt);
        proof {
            crate::constraints::lemma_extends_trans(cs2, cs1, cs0);
            assert(var_ok(salt, cs2));
            assert(var_values(salt_vec@, cs2) =~= seq![saltv]);
        }
        self.sponge.absorb(cs, salt_vec.as_slice());
        let out = self.sponge.squeeze(cs, 1);
        proof {
            lemma_reset_like_fresh(m0);
            let fresh = spec_fresh(m0.perm, m0.rate, m0.capacity);
            lemma_absorb_ignores_perms(spec_reset(m0), fresh, ev);
            lemma_absorb_ignores_perms(
                spec_absorb(spec_reset(m0), ev),
                spec_absorb(fresh, ev),
                seq![saltv],
            );
            lemma_squeeze_ignores_perms(
                spec_absorb(spec_absorb(spec_reset(m0), ev), seq![saltv]),
                spec_absorb(spec_absorb(fresh, ev), seq![saltv]),
                1,
            );
            crate::constraints::lemma_extends_trans(cs@, cs2, cs0);
            assert(value_at(cs@, out@[0]) == var_values(out@, cs@)[0]);
        }
        out[0]
    }
}

} // verus!
