//! The hash chain: a long-lived, streaming sponge.
//!
//! Unlike the fixed-arity hashes, the chain's sponge is reset only at
//! construction: every `absorb` accumulates into the same state, and
//! `squeeze` / `squeeze_ints` extract elements or bounded integers from
//! all input absorbed so far.

use vstd::prelude::*;
use vstd::arithmetic::power2::pow2;
use crate::constraints::{
    bool_value, bool_wf, cs_wf, extends, lemma_bool_value_extend, lemma_extends_trans, sat,
    value_at, var_ok, var_values, Boolean, ConstraintSystem, CsModel, FpVar,
};
use crate::fr::{fr_p, views, Fr};
use crate::permutation::{Permutation, PermutationGadget};
use crate::sponge::{spec_absorb, spec_reset, spec_squeeze, AlgebraicSponge, SpongeModel};
use crate::sponge_gadget::AlgebraicSpongeGadget;

verus! {

/// Bit `j` of a residue, least-significant bit first.
pub open spec fn spec_bit(x: nat, j: nat) -> bool {
    (x / pow2(j)) % 2 == 1
}

/// A streaming hash over a single long-lived sponge.
pub struct HashChain<P: Permutation> {
    sponge: AlgebraicSponge<P>,
}

impl<P: Permutation> View for HashChain<P> {
    type V = SpongeModel<P>;

    closed spec fn view(&self) -> SpongeModel<P> {
        self.sponge@
    }
}

impl<P: Permutation> HashChain<P> {
    /// The chain's internal invariant.
    pub closed spec fn wf(&self) -> bool {
        self.sponge.wf()
    }

    /// Take ownership of a sponge and reset it once; the chain never
    /// resets it again.
    pub fn new(sponge: AlgebraicSponge<P>) -> (r: HashChain<P>)
        requires
            sponge.wf(),
        ensures
            r.wf(),
            r@ == spec_reset(sponge@),
    {
        let mut s = sponge;
        s.reset();
        HashChain { sponge: s }
    }

    /// Accumulate elements into the chain.
    pub fn absorb(&mut self, elems: &[Fr])
        requires
            old(self).wf(),
        ensures
            final(self).wf(),
            final(self)@ == spec_absorb(old(self)@, views(elems@)),
    {
        self.sponge.absorb(elems);
    }

    /// Extract `num_elements` field elements.
    pub fn squeeze(&mut self, num_elements: usize) -> (out: Vec<Fr>)
        requires
            old(self).wf(),
        ensures
            final(self).wf(),
            final(self)@ == spec_squeeze(old(self)@, num_elements as nat).0,
            views(out@) == spec_squeeze(old(self)@, num_elements as nat).1,
            out@.len() == num_elements,
    {
        self.sponge.squeeze(num_elements)
    }

    /// Extract `num_elements` bounded integers: each is the low
    /// `bits_per_elem` bits of the corresponding squeezed element, so each
    /// lies in `[0, 2^bits_per_elem)`.
    pub fn squeeze_ints(&mut self, num_elements: usize, bits_per_elem: usize) -> (out: Vec<u64>)
        requires
            old(self).wf(),
        ensures
            final(self).wf(),
            final(self)@ == spec_squeeze(old(self)@, num_elements as nat).0,
            out@.len() == num_elements,
            forall|j: int|
                0 <= j < num_elements ==> out@[j] as nat == spec_squeeze(
                    old(self)@,
                    num_elements as nat,
                ).1[j] % pow2(bits_per_elem as nat),
            forall|j: int| 0 <= j < num_elements ==> (out@[j] as nat) < pow2(bits_per_elem as nat),
    {
        let ghost m0 = self@;
        let elems = self.sponge.squeeze(num_elements);
        let mut out: Vec<u64> = Vec::new();
        let mut j: usize = 0;
        while j < num_elements
            invariant
                j <= num_elements,
                elems@.len() == num_elements,
                out@.len() == j,
                views(elems@) == spec_squeeze(m0, num_elements as nat).1,
                forall|k: int|
                    0 <= k < j ==> out@[k] as nat == views(elems@)[k] % pow2(bits_per_elem as nat),
                forall|k: int| 0 <= k < j ==> (out@[k] as nat) < pow2(bits_per_elem as nat),
            decreases num_elements - j,
        {
            let val = elems[j].as_u64();
            proof {
                crate::fr::lemma_view_bound(elems@[j as int]);
                vstd::arithmetic::power2::lemma2_to64();
            }
            let truncated: u64;
            if bits_per_elem >= 64 {
                truncated = val;
                proof {
                    if bits_per_elem > 64 {
                        vstd::arithmetic::power2::lemma_pow2_strictly_increases(
                            64,
                            bits_per_elem as nat,
                        );
                    }
                    vstd::arithmetic::div_mod::lemma_small_mod(
                        val as nat,
                        pow2(bits_per_elem as nat),
                    );
                }
            } else {
                let shifted = 1u64 << (bits_per_elem as u64);
                proof {
                    vstd::bits::lemma_u64_pow2_no_overflow(bits_per_elem as nat);
                    vstd::bits::lemma_u64_shl_is_mul(1u64, bits_per_elem as u64);
                    vstd::arithmetic::power2::lemma_pow2_pos(bits_per_elem as nat);
                }
                let mask = shifted - 1;
                truncated = val & mask;
                proof {
                    assert(mask as nat == vstd::bits::low_bits_mask(bits_per_elem as nat));
                    vstd::bits::lemma_u64_low_bits_mask_is_mod(val, bits_per_elem as nat);
                    vstd::arithmetic::power2::lemma_pow2_pos(bits_per_elem as nat);
                    vstd::arithmetic::div_mod::lemma_mod_bound(
                        val as int,
                        pow2(bits_per_elem as nat) as int,
                    );
                }
            }
            out.push(truncated);
            j = j + 1;
        }
        out
    }
}

/// The number of bits every canonical residue fits in.
pub const FR_BITS: usize = 31;

/// The circuit variant of the hash chain: a long-lived circuit sponge,
/// with `squeeze_ints` decomposing each squeezed variable into boolean
/// variables constrained to recompose it.
pub struct HashChainGadget<P: PermutationGadget> {
    sponge: AlgebraicSpongeGadget<P>,
}

impl<P: PermutationGadget> HashChainGadget<P> {
    /// The chain's internal invariant, relative to a constraint system.
    pub closed spec fn wf(&self, m: CsModel) -> bool {
        self.sponge.wf(m)
    }

    /// The chain's sponge model under an assignment.
    pub closed spec fn model(&self, m: CsModel) -> SpongeModel<P> {
        self.sponge.model(m)
    }

    /// Extending the constraint system moves neither well-formedness nor
    /// the model.
    pub proof fn lemma_extends_stable(&self, m1: CsModel, m2: CsModel)
        requires
            self.wf(m1),
            extends(m2, m1),
        ensures
            self.wf(m2),
            self.model(m2) == self.model(m1),
    {
        self.sponge.lemma_extends_stable(m1, m2);
    }

    /// Take ownership of a circuit sponge and reset it once; the chain
    /// never resets it again.
    pub fn new(cs: &mut ConstraintSystem, sponge: AlgebraicSpongeGadget<P>) -> (r: HashChainGadget<
        P,
    >)
        requires
            cs_wf(old(cs)@),
            sponge.wf(old(cs)@),
        ensures
            cs_wf(final(cs)@),
            extends(final(cs)@, old(cs)@),
            sat(final(cs)@) <==> sat(old(cs)@),
            r.wf(final(cs)@),
            r.model(final(cs)@) == spec_reset(sponge.model(old(cs)@)),
    {
        let mut s = sponge;
        s.reset(cs);
        HashChainGadget { sponge: s }
    }

    /// Accumulate variables into the chain.
    pub fn absorb(&mut self, cs: &mut ConstraintSystem, elems: &[FpVar])
        requires
            cs_wf(old(cs)@),
            old(self).wf(old(cs)@),
            forall|j: int| 0 <= j < elems@.len() ==> var_ok(#[trigger] elems@[j], old(cs)@),
        ensures
            cs_wf(final(cs)@),
            extends(final(cs)@, old(cs)@),
            sat(final(cs)@) <==> sat(old(cs)@),
            final(self).wf(final(cs)@),
            final(self).model(final(cs)@) == spec_absorb(
                old(self).model(old(cs)@),
                var_values(elems@, old(cs)@),
            ),
    {
        self.sponge.absorb(cs, elems);
    }

    /// Extract `num_elements` freshly allocated output variables.
    pub fn squeeze(&mut self, cs: &mut ConstraintSystem, num_elements: usize) -> (out: Vec<FpVar>)
        requires
            cs_wf(old(cs)@),
            old(self).wf(old(cs)@),
        ensures
            cs_wf(final(cs)@),
            extends(final(cs)@, old(cs)@),
            sat(final(cs)@) <==> sat(old(cs)@),
            final(self).wf(final(cs)@),
            final(self).model(final(cs)@) == spec_squeeze(
                old(self).model(old(cs)@),
                num_elements as nat,
            ).0,
            out@.len() == num_elements,
            forall|j: int| 0 <= j < num_elements ==> var_ok(#[trigger] out@[j], final(cs)@),
            var_values(out@, final(cs)@) == spec_squeeze(
                old(self).model(old(cs)@),
                num_elements as nat,
            ).1,
    {
        self.sponge.squeeze(cs, num_elements)
    }

    /// Extract `num_elements` bounded integers as boolean variables: row
    /// `i` holds the low `bits_per_elem` bits of the `i`-th squeezed
    /// element, least-significant bit first, each allocated as a boolean
    /// variable and the whole decomposition constrained to recompose the
    /// squeezed variable.
    pub fn squeeze_ints(&mut self, cs: &mut ConstraintSystem, num_elements: usize, bits_per_elem: usize) -> (out: Vec<
        Vec<Boolean>,
    >)
        requires
            cs_wf(old(cs)@),
            old(self).wf(old(cs)@),
        ensures
            cs_wf(final(cs)@),
            extends(final(cs)@, old(cs)@),
            sat(final(cs)@) <==> sat(old(cs)@),
            final(self).wf(final(cs)@),
            final(self).model(final(cs)@) == spec_squeeze(
                old(self).model(old(cs)@),
                num_elements as nat,
            ).0,
            out@.len() == num_elements,
            forall|i: int| 0 <= i < num_elements ==> (#[trigger] out@[i])@.len() == bits_per_elem,
            forall|i: int, j: int|
                0 <= i < num_elements && 0 <= j < bits_per_elem ==> bool_wf(
                    #[trigger] out@[i]@[j],
                    final(cs)@.vals.len(),
                ) && bool_value(out@[i]@[j], final(cs)@.vals) == spec_bit(
                    spec_squeeze(old(self).model(old(cs)@), num_elements as nat).1[i],
                    j as nat,
                ),
    {
        let ghost cs0 = cs@;
        let ghost m0 = self.model(cs0);
        let elems = self.sponge.squeeze(cs, num_elements);
        let ghost csq = cs@;
        let ghost sq = spec_squeeze(m0, num_elements as nat).1;
        let mut out: Vec<Vec<Boolean>> = Vec::new();
        let mut i: usize = 0;
        while i < num_elements
            invariant
                i <= num_elements,
                out@.len() == i,
                num_elements == elems@.len(),
                cs_wf(cs@),
                extends(csq, cs0),
                extends(cs@, csq),
                sat(csq) <==> sat(cs0),
                sat(cs@) <==> sat(csq),
                self.wf(csq),
                self.model(csq) == spec_squeeze(m0, num_elements as nat).0,
                sq == spec_squeeze(m0, num_elements as nat).1,
                sq.len() == num_elements,
                forall|k: int| 0 <= k < num_elements ==> var_ok(#[trigger] elems@[k], csq),
                var_values(elems@, csq) == sq,
                forall|r: int| 0 <= r < i ==> (#[trigger] out@[r])@.len() == bits_per_elem,
                forall|r: int, j: int|
                    0 <= r < i && 0 <= j < bits_per_elem ==> bool_wf(
                        #[trigger] out@[r]@[j],
                        cs@.vals.len(),
                    ) && bool_value(out@[r]@[j], cs@.vals) == spec_bit(sq[r], j as nat),
            decreases num_elements - i,
        {
            let ghost entry = cs@;
            let v = elems[i];
            proof {
                assert(var_ok(v, csq));
                assert(value_at(entry, v) == value_at(csq, v));
                assert(value_at(csq, v) == sq[i as int]);
            }
            let val_fr = cs.value_of(v).unwrap();
            let val = val_fr.as_u64();
            proof {
                crate::fr::lemma_view_bound(val_fr);
                assert(val as nat == sq[i as int]);
                assert(val < crate::fr::FR_MODULUS);
                vstd::arithmetic::power2::lemma2_to64();
                assert((val as nat) < pow2(31));
            }
            let mut bitvec: Vec<Boolean> = Vec::new();
            let mut j: usize = 0;
            while j < FR_BITS
                invariant
                    j <= FR_BITS,
                    bitvec@.len() == j,
                    cs_wf(cs@),
                    extends(cs@, entry),
                    sat(cs@) <==> sat(entry),
                    val < crate::fr::FR_MODULUS,
                    (val as nat) < pow2(31),
                    forall|k: int|
                        0 <= k < j ==> bool_wf(#[trigger] bitvec@[k], cs@.vals.len()) && bool_value(
                            bitvec@[k],
                            cs@.vals,
                        ) == spec_bit(val as nat, k as nat),
                decreases FR_BITS - j,
            {
                let b = (val >> (j as u64)) & 1 == 1;
                proof {
                    vstd::bits::lemma_u64_shr_is_div(val, j as u64);
                    vstd::bits::lemma_u64_low_bits_mask_is_mod(val >> (j as u64), 1);
                    assert(vstd::bits::low_bits_mask(1) == 1 && pow2(1) == 2) by {
                        vstd::arithmetic::power2::lemma2_to64();
                    }
                    assert(b == spec_bit(val as nat, j as nat));
                }
                let ghost pre = cs@;
                let bb = cs.alloc_bit(b);
                bitvec.push(bb);
                proof {
                    lemma_extends_trans(cs@, pre, entry);
                    assert forall|k: int| 0 <= k < j implies bool_wf(
                        #[trigger] bitvec@[k],
                        cs@.vals.len(),
                    ) && bool_value(bitvec@[k], cs@.vals) == spec_bit(val as nat, k as nat) by {
                        lemma_bool_value_extend(bitvec@[k], pre, cs@);
                    }
                }
                j = j + 1;
            }
            let ghost after_bits = cs@;
            let mut acc = cs.constant(Fr::zero());
            proof {
                lemma_extends_trans(cs@, after_bits, entry);
                vstd::arithmetic::div_mod::lemma_basic_div(val as int, pow2(31) as int);
                assert(value_at(cs@, acc) == (val as nat) / pow2(31));
                assert forall|k: int| 0 <= k < FR_BITS implies bool_wf(
                    #[trigger] bitvec@[k],
                    cs@.vals.len(),
                ) && bool_value(bitvec@[k], cs@.vals) == spec_bit(val as nat, k as nat) by {
                    lemma_bool_value_extend(bitvec@[k], after_bits, cs@);
                }
            }
            let mut jj: usize = FR_BITS;
            while jj > 0
                invariant
                    jj <= FR_BITS,
                    bitvec@.len() == FR_BITS,
                    cs_wf(cs@),
                    extends(cs@, entry),
                    sat(cs@) <==> sat(entry),
                    val < crate::fr::FR_MODULUS,
                    (val as nat) < pow2(31),
                    var_ok(acc, cs@),
                    value_at(cs@, acc) == (val as nat) / pow2(jj as nat),
                    forall|k: int|
                        0 <= k < FR_BITS ==> bool_wf(#[trigger] bitvec@[k], cs@.vals.len())
                            && bool_value(bitvec@[k], cs@.vals) == spec_bit(val as nat, k as nat),
                decreases jj,
            {
                jj = jj - 1;
                let ghost pre = cs@;
                let ghost q = (val as nat) / pow2((jj + 1) as nat);
                let doubled = cs.add(acc, acc);
                let plus1 = cs.add_constant(doubled, Fr::one());
                let bb = bitvec[jj];
                proof {
                    lemma_extends_trans(cs@, pre, entry);
                    lemma_bool_value_extend(bb, pre, cs@);
                }
                let acc2 = cs.conditionally_select(bb, plus1, doubled);
                proof {
                    lemma_extends_trans(cs@, pre, entry);
                    crate::mux::lemma_div_pow2_step(val as nat, jj as nat);
                    vstd::arithmetic::power2::lemma_pow2_pos(jj as nat);
                    vstd::arithmetic::div_mod::lemma_div_is_ordered_by_denominator(
                        val as int,
                        1,
                        pow2(jj as nat) as int,
                    );
                    assert((val as nat) / pow2(jj as nat) <= val as nat);
                    assert(2 * q + ((val as nat) / pow2(jj as nat)) % 2 == (val as nat) / pow2(
                        jj as nat,
                    ));
                    assert(2 * q < fr_p() && 2 * q + 1 <= fr_p());
                    vstd::arithmetic::div_mod::lemma_small_mod(2 * q, fr_p());
                    if spec_bit(val as nat, jj as nat) {
                        vstd::arithmetic::div_mod::lemma_small_mod(2 * q + 1, fr_p());
                    }
                    assert(value_at(cs@, acc2) == (val as nat) / pow2(jj as nat));
                    assert forall|k: int| 0 <= k < FR_BITS implies bool_wf(
                        #[trigger] bitvec@[k],
                        cs@.vals.len(),
                    ) && bool_value(bitvec@[k], cs@.vals) == spec_bit(val as nat, k as nat) by {
                        lemma_bool_value_extend(bitvec@[k], pre, cs@);
                    }
                }
                acc = acc2;
            }
            proof {
                assert(pow2(0) == 1) by {
                    vstd::arithmetic::power2::lemma2_to64();
                }
                assert((val as nat) / 1 == val as nat);
                assert(value_at(cs@, acc) == val as nat);
                assert(var_ok(v, cs@) && value_at(cs@, v) == val as nat);
            }
            cs.enforce_equal(acc, v);
            let ghost after_enforce = cs@;
            proof {
                lemma_extends_trans(cs@, entry, csq);
            }
            let mut row: Vec<Boolean> = Vec::new();
            let mut j2: usize = 0;
            while j2 < bits_per_elem
                invariant
                    j2 <= bits_per_elem,
                    row@.len() == j2,
                    bitvec@.len() == FR_BITS,
                    after_enforce == cs@,
                    (val as nat) < pow2(31),
                    forall|k: int|
                        0 <= k < FR_BITS ==> bool_wf(#[trigger] bitvec@[k], cs@.vals.len())
                            && bool_value(bitvec@[k], cs@.vals) == spec_bit(val as nat, k as nat),
                    forall|k: int|
                        0 <= k < j2 ==> bool_wf(#[trigger] row@[k], cs@.vals.len()) && bool_value(
                            row@[k],
                            cs@.vals,
                        ) == spec_bit(val as nat, k as nat),
                decreases bits_per_elem - j2,
            {
                if j2 < FR_BITS {
                    row.push(bitvec[j2]);
                } else {
                    row.push(Boolean::Constant(false));
                    proof {
                        if j2 > 31 {
                            vstd::arithmetic::power2::lemma_pow2_strictly_increases(31, j2 as nat);
                        }
                        vstd::arithmetic::power2::lemma_pow2_pos(j2 as nat);
                        vstd::arithmetic::div_mod::lemma_basic_div(
                            val as int,
                            pow2(j2 as nat) as int,
                        );
                        assert(!spec_bit(val as nat, j2 as nat));
                    }
                }
                j2 = j2 + 1;
            }
            out.push(row);
            i = i + 1;
            proof {
                assert forall|r: int, j3: int|
                    0 <= r < i && 0 <= j3 < bits_per_elem implies bool_wf(
                    #[trigger] out@[r]@[j3],
                    cs@.vals.len(),
                ) && bool_value(out@[r]@[j3], cs@.vals) == spec_bit(sq[r], j3 as nat) by {
                    if r < i - 1 {
                        lemma_bool_value_extend(out@[r]@[j3], entry, cs@);
                    }
                }
            }
        }
        proof {
            self.lemma_extends_stable(csq, cs@);
            lemma_extends_trans(cs@, csq, cs0);
        }
        out
    }
}

} // verus!
