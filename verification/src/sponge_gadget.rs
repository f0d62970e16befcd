//! The circuit variant of the duplex sponge.
//!
//! The gadget sponge holds circuit variables instead of field values and
//! routes every state change through the constraint system, allocating a
//! variable for every element it produces.  Its cursor and mode logic is
//! the concrete sponge's, and the values its state variables hold follow
//! the very same model transitions, [`spec_absorb`] and [`spec_squeeze`]:
//! the two backends agree by construction.

use vstd::prelude::*;
use crate::constraints::{
    cs_wf, extends, lemma_extends_trans, lemma_var_values_extend, sat, value_at, var_ok,
    var_values, ConstraintSystem, FpVar,
};
use crate::fr::Fr;
use crate::permutation::PermutationGadget;
use crate::sponge::{
    absorb_at, spec_absorb, spec_fresh, spec_reset, spec_squeeze, squeeze_at, SpongeMode,
    SpongeModel, SpongeState,
};
use crate::ConfigurationError;

verus! {

/// A duplex sponge over circuit variables.
pub struct AlgebraicSpongeGadget<P: PermutationGadget> {
    state: Vec<FpVar>,
    rate: usize,
    capacity: usize,
    permutation: P,
    mode: SpongeState,
    perm_invocations: Ghost<nat>,
}

impl<P: PermutationGadget> AlgebraicSpongeGadget<P> {
    /// The sponge's internal invariant, relative to a constraint system:
    /// the configuration is positive, the state array has the configured
    /// width, the cursor lies within the rate, and every state variable
    /// is allocated.
    pub closed spec fn wf(&self, m: crate::constraints::CsModel) -> bool {
        &&& self.rate >= 1
        &&& self.capacity >= 1
        &&& self.state@.len() == self.rate + self.capacity
        &&& match self.mode {
            SpongeState::Absorbing { next_absorb_index } => next_absorb_index <= self.rate,
            SpongeState::Squeezing { next_squeeze_index } => next_squeeze_index <= self.rate,
        }
        &&& forall|j: int| 0 <= j < self.state@.len() ==> var_ok(#[trigger] self.state@[j], m)
    }

    /// The sponge's model under an assignment: the residues its state
    /// variables hold, with the shared mode and configuration.
    pub closed spec fn model(&self, m: crate::constraints::CsModel) -> SpongeModel<P> {
        SpongeModel {
            perm: self.permutation,
            state: var_values(self.state@, m),
            rate: self.rate as nat,
            capacity: self.capacity as nat,
            mode: match self.mode {
                SpongeState::Absorbing { next_absorb_index } => SpongeMode::Absorbing {
                    pos: next_absorb_index as nat,
                },
                SpongeState::Squeezing { next_squeeze_index } => SpongeMode::Squeezing {
                    pos: next_squeeze_index as nat,
                },
            },
            perms: self.perm_invocations@,
        }
    }

    /// Extending the constraint system moves neither the sponge's
    /// well-formedness nor its model.
    pub proof fn lemma_extends_stable(
        &self,
        m1: crate::constraints::CsModel,
        m2: crate::constraints::CsModel,
    )
        requires
            self.wf(m1),
            extends(m2, m1),
        ensures
            self.wf(m2),
            self.model(m2) == self.model(m1),
    {
        lemma_var_values_extend(self.state@, m1, m2);
        assert(self.model(m2) =~= self.model(m1));
    }

    /// A vector of `n` fresh variables constrained to zero.
    fn zero_vars(cs: &mut ConstraintSystem, n: usize) -> (v: Vec<FpVar>)
        requires
            cs_wf(old(cs)@),
        ensures
            cs_wf(final(cs)@),
            extends(final(cs)@, old(cs)@),
            sat(final(cs)@) <==> sat(old(cs)@),
            v@.len() == n,
            forall|j: int| 0 <= j < n ==> var_ok(#[trigger] v@[j], final(cs)@),
            var_values(v@, final(cs)@) == crate::sponge::zero_state(n as nat),
    {
        let ghost m0 = cs@;
        let mut v: Vec<FpVar> = Vec::new();
        while v.len() < n
            invariant
                v@.len() <= n,
                cs_wf(cs@),
                extends(cs@, m0),
                sat(cs@) <==> sat(m0),
                forall|j: int| 0 <= j < v@.len() ==> var_ok(#[trigger] v@[j], cs@),
                forall|j: int| 0 <= j < v@.len() ==> value_at(cs@, #[trigger] v@[j]) == 0,
            decreases n - v@.len(),
        {
            let ghost pre = cs@;
            let z = cs.constant(Fr::zero());
            v.push(z);
            proof {
                lemma_extends_trans(cs@, pre, m0);
                assert forall|j: int| 0 <= j < v@.len() implies value_at(
                    cs@,
                    #[trigger] v@[j],
                ) == 0 by {
                    if j < v@.len() - 1 {
                        assert(var_ok(v@[j], pre));
                    }
                }
            }
        }
        proof {
            assert(var_values(v@, cs@) =~= crate::sponge::zero_state(n as nat));
        }
        v
    }

    /// Construct a circuit sponge: `rate + capacity` variables constrained
    /// to zero, absorbing from cursor zero.  A zero rate or capacity is a
    /// configuration error, rejected eagerly.
    pub fn new(cs: &mut ConstraintSystem, rate: usize, capacity: usize, permutation: P) -> (r:
        Result<AlgebraicSpongeGadget<P>, ConfigurationError>)
        requires
            cs_wf(old(cs)@),
            rate + capacity <= usize::MAX,
        ensures
            cs_wf(final(cs)@),
            extends(final(cs)@, old(cs)@),
            sat(final(cs)@) <==> sat(old(cs)@),
            r is Ok <==> (rate >= 1 && capacity >= 1),
            rate == 0 ==> (r matches Err(e) && e == ConfigurationError::ZeroRate),
            rate >= 1 && capacity == 0 ==> (r matches Err(e) && e == ConfigurationError::ZeroCapacity),
            r matches Ok(g) ==> g.wf(final(cs)@) && g.model(final(cs)@) == spec_fresh(
                permutation,
                rate as nat,
                capacity as nat,
            ),
    {
        if rate == 0 {
            return Err(ConfigurationError::ZeroRate);
        }
        if capacity == 0 {
            return Err(ConfigurationError::ZeroCapacity);
        }
        let state = Self::zero_vars(cs, rate + capacity);
        let g = AlgebraicSpongeGadget {
            state,
            rate,
            capacity,
            permutation,
            mode: SpongeState::Absorbing { next_absorb_index: 0 },
            perm_invocations: Ghost(0nat),
        };
        proof {
            assert(g.model(cs@) =~= spec_fresh(permutation, rate as nat, capacity as nat));
        }
        Ok(g)
    }

    /// Reinitialize: the state becomes fresh variables constrained to
    /// zero, and the mode returns to absorbing from cursor zero.
    pub fn reset(&mut self, cs: &mut ConstraintSystem)
        requires
            cs_wf(old(cs)@),
            old(self).wf(old(cs)@),
        ensures
            cs_wf(final(cs)@),
            extends(final(cs)@, old(cs)@),
            sat(final(cs)@) <==> sat(old(cs)@),
            final(self).wf(final(cs)@),
            final(self).model(final(cs)@) == spec_reset(old(self).model(old(cs)@)),
    {
        let n = self.state.len();
        self.state = Self::zero_vars(cs, n);
        self.mode = SpongeState::Absorbing { next_absorb_index: 0 };
        proof {
            assert(self.model(cs@) =~= spec_reset(old(self).model(old(cs)@)));
        }
    }

    /// Apply the permutation to the state variables and count the
    /// invocation.
    fn apply_permutation(&mut self, cs: &mut ConstraintSystem)
        requires
            cs_wf(old(cs)@),
            old(self).wf(old(cs)@),
        ensures
            cs_wf(final(cs)@),
            extends(final(cs)@, old(cs)@),
            sat(final(cs)@) <==> sat(old(cs)@),
            final(self).wf(final(cs)@),
            final(self).model(final(cs)@) == (SpongeModel {
                state: old(self).model(old(cs)@).perm.spec_permute(
                    old(self).model(old(cs)@).state,
                ),
                perms: old(self).model(old(cs)@).perms + 1,
                ..old(self).model(old(cs)@)
            }),
    {
        self.permutation.permute(cs, &mut self.state);
        proof {
            self.perm_invocations@ = self.perm_invocations@ + 1;
        }
        proof {
            assert(final(self).model(cs@) =~= (SpongeModel {
                state: old(self).model(old(cs)@).perm.spec_permute(
                    old(self).model(old(cs)@).state,
                ),
                perms: old(self).model(old(cs)@).perms + 1,
                ..old(self).model(old(cs)@)
            }));
        }
    }

    /// Absorb the given variables: their values are added into
    /// consecutive rate cells from the cursor, through fresh variables
    /// and addition constraints, permuting and wrapping at the rate
    /// boundary exactly as the concrete sponge does.
    pub fn absorb(&mut self, cs: &mut ConstraintSystem, elements: &[FpVar])
        requires
            cs_wf(old(cs)@),
            old(self).wf(old(cs)@),
            forall|j: int|
                0 <= j < elements@.len() ==> var_ok(#[trigger] elements@[j], old(cs)@),
        ensures
            cs_wf(final(cs)@),
            extends(final(cs)@, old(cs)@),
            sat(final(cs)@) <==> sat(old(cs)@),
            final(self).wf(final(cs)@),
            final(self).model(final(cs)@) == spec_absorb(
                old(self).model(old(cs)@),
                var_values(elements@, old(cs)@),
            ),
    {
        let ghost cs0 = cs@;
        let ghost m0 = self.model(cs0);
        let ghost ev = var_values(elements@, cs0);
        let mut pos: usize;
        let forced: bool;
        match self.mode {
            SpongeState::Absorbing { next_absorb_index } => {
                if next_absorb_index == self.rate {
                    forced = true;
                    pos = 0;
                } else {
                    forced = false;
                    pos = next_absorb_index;
                }
            },
            SpongeState::Squeezing { next_squeeze_index: _ } => {
                forced = true;
                pos = 0;
            },
        }
        if forced {
            self.apply_permutation(cs);
        }
        let ghost base = var_values(self.state@, cs@);
        let ghost pos0 = pos as nat;
        let ghost fcount: nat = if forced { 1nat } else { 0nat };
        let ghost target = absorb_at(m0.perm, base, m0.rate, pos0, ev);
        proof {
            assert(ev.skip(0) =~= ev);
        }
        let mut i: usize = 0;
        while i < elements.len()
            invariant
                cs_wf(cs@),
                extends(cs@, cs0),
                sat(cs@) <==> sat(cs0),
                self.wf(cs@),
                i <= elements.len(),
                pos <= self.rate,
                ev == var_values(elements@, cs0),
                forall|j: int| 0 <= j < elements@.len() ==> var_ok(#[trigger] elements@[j], cs0),
                self.model(cs@).perm == m0.perm,
                self.model(cs@).rate == m0.rate,
                self.model(cs@).capacity == m0.capacity,
                absorb_at(
                    m0.perm,
                    var_values(self.state@, cs@),
                    m0.rate,
                    pos as nat,
                    ev.skip(i as int),
                ).0 == target.0,
                absorb_at(
                    m0.perm,
                    var_values(self.state@, cs@),
                    m0.rate,
                    pos as nat,
                    ev.skip(i as int),
                ).1 == target.1,
                self.model(cs@).perms + absorb_at(
                    m0.perm,
                    var_values(self.state@, cs@),
                    m0.rate,
                    pos as nat,
                    ev.skip(i as int),
                ).2 == m0.perms + fcount + target.2,
            decreases elements.len() - i,
        {
            let ghost pre_vals = var_values(self.state@, cs@);
            let ghost pre_pos = pos as nat;
            let ghost rem = ev.skip(i as int);
            if pos == self.rate {
                self.apply_permutation(cs);
                pos = 0;
            }
            let ghost mid = cs@;
            let ghost mid_vals = var_values(self.state@, mid);
            let e = elements[i];
            proof {
                assert(var_ok(e, mid));
                assert(value_at(mid, e) == ev[i as int]);
            }
            let nv = cs.add(self.state[pos], e);
            self.state[pos] = nv;
            proof {
                assert(rem.len() > 0);
                assert(rem[0] == ev[i as int]);
                assert(rem.skip(1) =~= ev.skip(i as int + 1));
                let st1 = if pre_pos == m0.rate {
                    m0.perm.spec_permute(pre_vals)
                } else {
                    pre_vals
                };
                assert(mid_vals == st1);
                assert forall|j: int| 0 <= j < self.state@.len() implies var_ok(
                    #[trigger] self.state@[j],
                    cs@,
                ) by {
                    if j != pos as int {
                        assert(var_ok(self.state@[j], mid));
                    }
                }
                assert(value_at(cs@, self.state@[pos as int]) == crate::fr::fadd(
                    st1[pos as int],
                    rem[0],
                ));
                assert forall|j: int|
                    0 <= j < self.state@.len() && j != pos as int implies value_at(
                    cs@,
                    #[trigger] self.state@[j],
                ) == st1[j] by {
                    assert(var_ok(self.state@[j], mid));
                }
                assert(var_values(self.state@, cs@) =~= st1.update(
                    pos as int,
                    crate::fr::fadd(st1[pos as int], rem[0]),
                ));
            }
            pos = pos + 1;
            i = i + 1;
        }
        self.mode = SpongeState::Absorbing { next_absorb_index: pos };
        proof {
            assert(ev.skip(i as int) =~= Seq::<nat>::empty());
            assert(self.model(cs@) =~= spec_absorb(m0, ev));
        }
    }

    /// Squeeze `num_elements` output variables: each is freshly allocated
    /// and constrained equal to the rate cell it is read from, permuting
    /// and wrapping at the rate boundary exactly as the concrete sponge
    /// does.
    pub fn squeeze(&mut self, cs: &mut ConstraintSystem, num_elements: usize) -> (out: Vec<FpVar>)
        requires
            cs_wf(old(cs)@),
            old(self).wf(old(cs)@),
        ensures
            cs_wf(final(cs)@),
            extends(final(cs)@, old(cs)@),
            sat(final(cs)@) <==> sat(old(cs)@),
            final(self).wf(final(cs)@),
            final(self).model(final(cs)@) == spec_squeeze(
                old(self).model(old(cs)@),
                num_elements as nat,
            ).0,
            out@.len() == num_elements,
            forall|j: int| 0 <= j < num_elements ==> var_ok(#[trigger] out@[j], final(cs)@),
            var_values(out@, final(cs)@) == spec_squeeze(
                old(self).model(old(cs)@),
                num_elements as nat,
            ).1,
    {
        let ghost cs0 = cs@;
        let ghost m0 = self.model(cs0);
        let mut pos: usize;
        let forced: bool;
        match self.mode {
            SpongeState::Absorbing { next_absorb_index: _ } => {
                forced = true;
                pos = 0;
            },
            SpongeState::Squeezing { next_squeeze_index } => {
                if next_squeeze_index == self.rate {
                    forced = true;
                    pos = 0;
                } else {
                    forced = false;
                    pos = next_squeeze_index;
                }
            },
        }
        if forced {
            self.apply_permutation(cs);
        }
        let ghost base = var_values(self.state@, cs@);
        let ghost pos0 = pos as nat;
        let ghost fcount: nat = if forced { 1nat } else { 0nat };
        let ghost target = squeeze_at(m0.perm, base, m0.rate, pos0, num_elements as nat);
        let mut out: Vec<FpVar> = Vec::new();
        let mut i: usize = 0;
        while i < num_elements
            invariant
                cs_wf(cs@),
                extends(cs@, cs0),
                sat(cs@) <==> sat(cs0),
                self.wf(cs@),
                i <= num_elements,
                pos <= self.rate,
                out@.len() == i,
                forall|j: int| 0 <= j < i ==> var_ok(#[trigger] out@[j], cs@),
                self.model(cs@).perm == m0.perm,
                self.model(cs@).rate == m0.rate,
                self.model(cs@).capacity == m0.capacity,
                var_values(out@, cs@) + squeeze_at(
                    m0.perm,
                    var_values(self.state@, cs@),
                    m0.rate,
                    pos as nat,
                    (num_elements - i) as nat,
                ).0 == target.0,
                squeeze_at(
                    m0.perm,
                    var_values(self.state@, cs@),
                    m0.rate,
                    pos as nat,
                    (num_elements - i) as nat,
                ).1 == target.1,
                squeeze_at(
                    m0.perm,
                    var_values(self.state@, cs@),
                    m0.rate,
                    pos as nat,
                    (num_elements - i) as nat,
                ).2 == target.2,
                self.model(cs@).perms + squeeze_at(
                    m0.perm,
                    var_values(self.state@, cs@),
                    m0.rate,
                    pos as nat,
                    (num_elements - i) as nat,
                ).3 == m0.perms + fcount + target.3,
            decreases num_elements - i,
        {
            let ghost entry_cs = cs@;
            let ghost prev_out = out@;
            let ghost pre_out = var_values(prev_out, entry_cs);
            if pos == self.rate {
                self.apply_permutation(cs);
                pos = 0;
            }
            let ghost mid = cs@;
            let ghost mid_vals = var_values(self.state@, mid);
            let ov = cs.allocate_equal(self.state[pos]);
            out.push(ov);
            proof {
                lemma_var_values_extend(prev_out, entry_cs, mid);
                lemma_var_values_extend(prev_out, mid, cs@);
                self.lemma_extends_stable(mid, cs@);
                assert(value_at(cs@, ov) == mid_vals[pos as int]);
                assert(var_values(self.state@, cs@) =~= mid_vals);
                assert(var_values(out@, cs@) =~= pre_out + seq![mid_vals[pos as int]]);
                assert(pre_out + (seq![mid_vals[pos as int]] + squeeze_at(
                    m0.perm,
                    mid_vals,
                    m0.rate,
                    (pos + 1) as nat,
                    (num_elements - i - 1) as nat,
                ).0) =~= (pre_out + seq![mid_vals[pos as int]]) + squeeze_at(
                    m0.perm,
                    mid_vals,
                    m0.rate,
                    (pos + 1) as nat,
                    (num_elements - i - 1) as nat,
                ).0);
            }
            pos = pos + 1;
            i = i + 1;
        }
        self.mode = SpongeState::Squeezing { next_squeeze_index: pos };
        proof {
            assert(var_values(out@, cs@) + Seq::<nat>::empty() =~= var_values(out@, cs@));
            assert(self.model(cs@) =~= spec_squeeze(m0, num_elements as nat).0);
        }
        out
    }
}

} // verus!
