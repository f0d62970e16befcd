//! The duplex sponge: the state machine every hash primitive is built on.
//!
//! The sponge owns a state array of `rate + capacity` field elements and a
//! mode with a cursor.  Absorbing writes (adds) inputs into consecutive
//! rate cells; squeezing reads rate cells out; whenever the cursor reaches
//! the rate mid-operation the permutation is applied and the cursor wraps.
//! An operation that finishes exactly on the boundary leaves the
//! permutation to the next use (lazy permute on next use), and a transition
//! between absorbing and squeezing always forces one permutation.
//!
//! The whole behaviour is captured by a pure model, [`SpongeModel`], and
//! the transition functions [`spec_absorb`] and [`spec_squeeze`]; the
//! executable sponge is proved to follow them step for step.  The same
//! model also drives the circuit-variant sponge, so the two backends agree
//! by construction.

use vstd::prelude::*;
use crate::fr::{fadd, views, Fr};
use crate::permutation::{Permutation, PermutationSpec};
use crate::ConfigurationError;

verus! {

/// The phase of a sponge: filling rate cells, or reading them out.  The
/// cursor is the index of the next rate cell to be written or read.
#[derive(PartialEq, Eq, Structural)]
pub enum SpongeMode {
    Absorbing { pos: nat },
    Squeezing { pos: nat },
}

/// The mathematical state of a sponge: the permutation it was built with,
/// the residues in its state array, its configuration, its mode, and the
/// number of permutation invocations performed so far.
#[verifier::ext_equal]
pub struct SpongeModel<P> {
    pub perm: P,
    pub state: Seq<nat>,
    pub rate: nat,
    pub capacity: nat,
    pub mode: SpongeMode,
    pub perms: nat,
}

/// An all-zero state array.
pub open spec fn zero_state(n: nat) -> Seq<nat> {
    Seq::new(n, |i: int| 0nat)
}

/// The model of a freshly constructed sponge.
pub open spec fn spec_fresh<P>(perm: P, rate: nat, capacity: nat) -> SpongeModel<P> {
    SpongeModel {
        perm,
        state: zero_state(rate + capacity),
        rate,
        capacity,
        mode: SpongeMode::Absorbing { pos: 0 },
        perms: 0,
    }
}

/// Resetting restores the construction-time state and mode; only the
/// permutation-invocation count survives.
pub open spec fn spec_reset<P>(m: SpongeModel<P>) -> SpongeModel<P> {
    SpongeModel {
        state: zero_state(m.rate + m.capacity),
        mode: SpongeMode::Absorbing { pos: 0 },
        ..m
    }
}

/// Well-formedness of a model: positive rate and capacity, a state array
/// of the configured width, and a cursor within the rate.
pub open spec fn model_wf<P>(m: SpongeModel<P>) -> bool {
    &&& m.rate >= 1
    &&& m.capacity >= 1
    &&& m.state.len() == m.rate + m.capacity
    &&& match m.mode {
        SpongeMode::Absorbing { pos } => pos <= m.rate,
        SpongeMode::Squeezing { pos } => pos <= m.rate,
    }
}

/// Absorb `elems` one cell at a time starting at cursor `pos`, permuting
/// and wrapping whenever the cursor stands at the rate with input left.
/// Returns the new state, the new cursor, and the number of permutations
/// performed.
pub open spec fn absorb_at<P: PermutationSpec>(
    p: P,
    state: Seq<nat>,
    rate: nat,
    pos: nat,
    elems: Seq<nat>,
) -> (Seq<nat>, nat, nat)
    decreases elems.len(),
{
    if elems.len() == 0 {
        (state, pos, 0)
    } else {
        let (st1, pos1, c1): (Seq<nat>, nat, nat) = if pos == rate {
            (p.spec_permute(state), 0nat, 1nat)
        } else {
            (state, pos, 0nat)
        };
        let st2 = st1.update(pos1 as int, fadd(st1[pos1 as int], elems[0]));
        let (st3, pos3, c3) = absorb_at(p, st2, rate, (pos1 + 1) as nat, elems.skip(1));
        (st3, pos3, (c1 + c3) as nat)
    }
}

/// One absorb call.  A sponge in squeezing mode, or one whose cursor
/// stands at the rate, is permuted once before any input is written; the
/// duplex transition from squeezing to absorbing always permutes.
pub open spec fn spec_absorb<P: PermutationSpec>(m: SpongeModel<P>, elems: Seq<nat>) -> SpongeModel<
    P,
> {
    let forced = match m.mode {
        SpongeMode::Absorbing { pos } => pos == m.rate,
        SpongeMode::Squeezing { pos: _ } => true,
    };
    let pos0: nat = match m.mode {
        SpongeMode::Absorbing { pos } => if pos == m.rate {
            0nat
        } else {
            pos
        },
        SpongeMode::Squeezing { pos: _ } => 0nat,
    };
    let base = if forced {
        m.perm.spec_permute(m.state)
    } else {
        m.state
    };
    let (st, pos, c) = absorb_at(m.perm, base, m.rate, pos0, elems);
    SpongeModel {
        state: st,
        mode: SpongeMode::Absorbing { pos },
        perms: (m.perms + (if forced {
            1nat
        } else {
            0nat
        }) + c) as nat,
        ..m
    }
}

/// Squeeze `n` residues one cell at a time starting at cursor `pos`,
/// permuting and wrapping whenever the cursor stands at the rate with
/// output still owed.  Returns the output, the new state, the new cursor,
/// and the number of permutations performed.
pub open spec fn squeeze_at<P: PermutationSpec>(
    p: P,
    state: Seq<nat>,
    rate: nat,
    pos: nat,
    n: nat,
) -> (Seq<nat>, Seq<nat>, nat, nat)
    decreases n,
{
    if n == 0 {
        (Seq::empty(), state, pos, 0)
    } else {
        let (st1, pos1, c1): (Seq<nat>, nat, nat) = if pos == rate {
            (p.spec_permute(state), 0nat, 1nat)
        } else {
            (state, pos, 0nat)
        };
        let e = st1[pos1 as int];
        let (out, st3, pos3, c3) = squeeze_at(p, st1, rate, (pos1 + 1) as nat, (n - 1) as nat);
        (seq![e] + out, st3, pos3, (c1 + c3) as nat)
    }
}

/// One squeeze call.  A sponge in absorbing mode is permuted once before
/// any output is read; one already squeezing continues from its cursor.
pub open spec fn spec_squeeze<P: PermutationSpec>(m: SpongeModel<P>, n: nat) -> (
    SpongeModel<P>,
    Seq<nat>,
) {
    let forced = match m.mode {
        SpongeMode::Absorbing { pos: _ } => true,
        SpongeMode::Squeezing { pos } => pos == m.rate,
    };
    let pos0: nat = match m.mode {
        SpongeMode::Absorbing { pos: _ } => 0nat,
        SpongeMode::Squeezing { pos } => if pos == m.rate {
            0nat
        } else {
            pos
        },
    };
    let base = if forced {
        m.perm.spec_permute(m.state)
    } else {
        m.state
    };
    let (out, st, pos, c) = squeeze_at(m.perm, base, m.rate, pos0, n);
    (
        SpongeModel {
            state: st,
            mode: SpongeMode::Squeezing { pos },
            perms: (m.perms + (if forced {
                1nat
            } else {
                0nat
            }) + c) as nat,
            ..m
        },
        out,
    )
}

/// Absorbing never changes the width of the state array.
pub proof fn lemma_absorb_at_len<P: PermutationSpec>(
    p: P,
    state: Seq<nat>,
    rate: nat,
    pos: nat,
    elems: Seq<nat>,
)
    requires
        1 <= rate,
        pos <= rate,
        rate < state.len(),
    ensures
        absorb_at(p, state, rate, pos, elems).0.len() == state.len(),
    decreases elems.len(),
{
    if elems.len() > 0 {
        if pos == rate {
            p.lemma_permute_len(state);
            let st1 = p.spec_permute(state);
            let st2 = st1.update(0, fadd(st1[0], elems[0]));
            lemma_absorb_at_len(p, st2, rate, 1, elems.skip(1));
            assert(absorb_at(p, state, rate, pos, elems).0 == absorb_at(
                p,
                st2,
                rate,
                1,
                elems.skip(1),
            ).0);
        } else {
            let st2 = state.update(pos as int, fadd(state[pos as int], elems[0]));
            lemma_absorb_at_len(p, st2, rate, pos + 1, elems.skip(1));
            assert(absorb_at(p, state, rate, pos, elems).0 == absorb_at(
                p,
                st2,
                rate,
                pos + 1,
                elems.skip(1),
            ).0);
        }
    }
}

/// Where the cursor stands after absorbing: untouched by an empty
/// absorb, else one past the last cell written, counted from the
/// effective start.
pub proof fn lemma_absorb_at_pos<P: PermutationSpec>(
    p: P,
    state: Seq<nat>,
    rate: nat,
    pos: nat,
    elems: Seq<nat>,
)
    requires
        1 <= rate,
        pos <= rate,
    ensures
        absorb_at(p, state, rate, pos, elems).1 == (if elems.len() == 0 {
            pos as int
        } else {
            ((if pos == rate {
                0nat
            } else {
                pos
            }) + elems.len() - 1) % (rate as int) + 1
        }),
    decreases elems.len(),
{
    let len = elems.len();
    if len > 0 {
        if pos == rate {
            let st1 = p.spec_permute(state);
            lemma_absorb_at_pos(p, st1.update(0, fadd(st1[0], elems[0])), rate, 1, elems.skip(1));
            if len > 1 {
                vstd::arithmetic::div_mod::lemma_small_mod(0, rate);
            } else {
                vstd::arithmetic::div_mod::lemma_small_mod(0, rate);
            }
        } else {
            lemma_absorb_at_pos(
                p,
                state.update(pos as int, fadd(state[pos as int], elems[0])),
                rate,
                pos + 1,
                elems.skip(1),
            );
            if len == 1 {
                vstd::arithmetic::div_mod::lemma_small_mod(pos, rate);
            } else {
                if pos + 1 == rate {
                    vstd::arithmetic::div_mod::lemma_mod_add_multiples_vanish(
                        len - 2,
                        rate as int,
                    );
                }
            }
        }
    }
}

/// The number of full rate-blocks a write of `len` cells crosses when it
/// starts at cursor `pos`: a write that only reaches the boundary crosses
/// nothing — its permutation is deferred to the next use.
pub open spec fn blocks_crossed(pos: nat, len: nat, rate: nat) -> nat {
    if len == 0 {
        0
    } else {
        ((pos + len - 1) / (rate as int)) as nat
    }
}

/// Mode-boundary law for absorbing: the permutations performed inside one
/// absorb are exactly the full rate-blocks the cursor crosses.
pub proof fn lemma_absorb_block_count<P: PermutationSpec>(
    p: P,
    state: Seq<nat>,
    rate: nat,
    pos: nat,
    elems: Seq<nat>,
)
    requires
        1 <= rate,
        pos <= rate,
    ensures
        absorb_at(p, state, rate, pos, elems).2 == blocks_crossed(pos, elems.len(), rate),
    decreases elems.len(),
{
    let len = elems.len();
    if len > 0 {
        if pos == rate {
            let st1 = p.spec_permute(state);
            lemma_absorb_block_count(
                p,
                st1.update(0, fadd(st1[0], elems[0])),
                rate,
                1,
                elems.skip(1),
            );
            vstd::arithmetic::div_mod::lemma_hoist_over_denominator(len - 1, 1, rate);
        } else {
            lemma_absorb_block_count(
                p,
                state.update(pos as int, fadd(state[pos as int], elems[0])),
                rate,
                pos + 1,
                elems.skip(1),
            );
            if len == 1 {
                vstd::arithmetic::div_mod::lemma_basic_div(pos as int, rate as int);
            }
        }
    }
}

/// Mode-boundary law for squeezing: the permutations performed inside one
/// squeeze are exactly the full rate-blocks the cursor crosses.
pub proof fn lemma_squeeze_block_count<P: PermutationSpec>(
    p: P,
    state: Seq<nat>,
    rate: nat,
    pos: nat,
    n: nat,
)
    requires
        1 <= rate,
        pos <= rate,
    ensures
        squeeze_at(p, state, rate, pos, n).3 == blocks_crossed(pos, n, rate),
    decreases n,
{
    if n > 0 {
        if pos == rate {
            lemma_squeeze_block_count(p, p.spec_permute(state), rate, 1, (n - 1) as nat);
            vstd::arithmetic::div_mod::lemma_hoist_over_denominator(n - 1, 1, rate);
        } else {
            lemma_squeeze_block_count(p, state, rate, pos + 1, (n - 1) as nat);
            if n == 1 {
                vstd::arithmetic::div_mod::lemma_basic_div(pos as int, rate as int);
            }
        }
    }
}

/// Mode-boundary law at the call level: one absorb invokes the
/// permutation once for the deferred or duplex transition, if one is due,
/// plus once per full rate-block the write crosses; nothing more.
pub proof fn lemma_absorb_permutation_count<P: PermutationSpec>(m: SpongeModel<P>, elems: Seq<nat>)
    requires
        model_wf(m),
    ensures
        spec_absorb(m, elems).perms == m.perms + (match m.mode {
            SpongeMode::Absorbing { pos } => if pos == m.rate {
                1nat
            } else {
                0nat
            },
            SpongeMode::Squeezing { pos: _ } => 1nat,
        }) + blocks_crossed(
            match m.mode {
                SpongeMode::Absorbing { pos } => if pos == m.rate {
                    0nat
                } else {
                    pos
                },
                SpongeMode::Squeezing { pos: _ } => 0nat,
            },
            elems.len(),
            m.rate,
        ),
{
    let forced = match m.mode {
        SpongeMode::Absorbing { pos } => pos == m.rate,
        SpongeMode::Squeezing { pos: _ } => true,
    };
    let pos0: nat = match m.mode {
        SpongeMode::Absorbing { pos } => if pos == m.rate {
            0nat
        } else {
            pos
        },
        SpongeMode::Squeezing { pos: _ } => 0nat,
    };
    let base = if forced {
        m.perm.spec_permute(m.state)
    } else {
        m.state
    };
    lemma_absorb_block_count(m.perm, base, m.rate, pos0, elems);
}

/// Mode-boundary law at the call level: one squeeze invokes the
/// permutation once for the mode transition or deferred boundary, if one
/// is due, plus once per full rate-block the read crosses; nothing more.
pub proof fn lemma_squeeze_permutation_count<P: PermutationSpec>(m: SpongeModel<P>, n: nat)
    requires
        model_wf(m),
    ensures
        spec_squeeze(m, n).0.perms == m.perms + (match m.mode {
            SpongeMode::Absorbing { pos: _ } => 1nat,
            SpongeMode::Squeezing { pos } => if pos == m.rate {
                1nat
            } else {
                0nat
            },
        }) + blocks_crossed(
            match m.mode {
                SpongeMode::Absorbing { pos: _ } => 0nat,
                SpongeMode::Squeezing { pos } => if pos == m.rate {
                    0nat
                } else {
                    pos
                },
            },
            n,
            m.rate,
        ),
{
    let forced = match m.mode {
        SpongeMode::Absorbing { pos: _ } => true,
        SpongeMode::Squeezing { pos } => pos == m.rate,
    };
    let pos0: nat = match m.mode {
        SpongeMode::Absorbing { pos: _ } => 0nat,
        SpongeMode::Squeezing { pos } => if pos == m.rate {
            0nat
        } else {
            pos
        },
    };
    let base = if forced {
        m.perm.spec_permute(m.state)
    } else {
        m.state
    };
    lemma_squeeze_block_count(m.perm, base, m.rate, pos0, n);
}

/// One call of a sponge: absorb a batch of residues, or squeeze a count
/// of them.
pub enum SpongeOp {
    Absorb(Seq<nat>),
    Squeeze(nat),
}

/// Run a call sequence against the model, collecting one output sequence
/// per call (empty for an absorb).
pub open spec fn spec_run<P: PermutationSpec>(m: SpongeModel<P>, ops: Seq<SpongeOp>) -> (
    SpongeModel<P>,
    Seq<Seq<nat>>,
)
    decreases ops.len(),
{
    if ops.len() == 0 {
        (m, Seq::empty())
    } else {
        match ops[0] {
            SpongeOp::Absorb(elems) => {
                let rest = spec_run(spec_absorb(m, elems), ops.skip(1));
                (rest.0, seq![Seq::<nat>::empty()] + rest.1)
            },
            SpongeOp::Squeeze(n) => {
                let sq = spec_squeeze(m, n);
                let rest = spec_run(sq.0, ops.skip(1));
                (rest.0, seq![sq.1] + rest.1)
            },
        }
    }
}

/// Determinism law: two sponges built identically and fed identical call
/// sequences end in identical states and produce identical outputs.
pub proof fn lemma_sponge_determinism<P: PermutationSpec>(
    m1: SpongeModel<P>,
    m2: SpongeModel<P>,
    ops: Seq<SpongeOp>,
)
    requires
        m1 == m2,
    ensures
        spec_run(m1, ops) == spec_run(m2, ops),
{
}

/// A run's outputs, state, mode and configuration never depend on the
/// permutation-invocation count it starts from.
pub proof fn lemma_run_ignores_perms<P: PermutationSpec>(
    m1: SpongeModel<P>,
    m2: SpongeModel<P>,
    ops: Seq<SpongeOp>,
)
    requires
        same_but_perms(m1, m2),
    ensures
        same_but_perms(spec_run(m1, ops).0, spec_run(m2, ops).0),
        spec_run(m1, ops).1 == spec_run(m2, ops).1,
    decreases ops.len(),
{
    if ops.len() > 0 {
        match ops[0] {
            SpongeOp::Absorb(elems) => {
                lemma_absorb_ignores_perms(m1, m2, elems);
                lemma_run_ignores_perms(spec_absorb(m1, elems), spec_absorb(m2, elems), ops.skip(1));
            },
            SpongeOp::Squeeze(n) => {
                lemma_squeeze_ignores_perms(m1, m2, n);
                lemma_run_ignores_perms(spec_squeeze(m1, n).0, spec_squeeze(m2, n).0, ops.skip(1));
            },
        }
    }
}

/// Reset law: a reset sponge, fed any call sequence, produces the very
/// outputs a freshly constructed sponge produces on that sequence,
/// irrespective of prior history.
pub proof fn lemma_reset_restores_fresh<P: PermutationSpec>(m: SpongeModel<P>, ops: Seq<SpongeOp>)
    ensures
        spec_run(spec_reset(m), ops).1 == spec_run(
            spec_fresh(m.perm, m.rate, m.capacity),
            ops,
        ).1,
{
    lemma_reset_like_fresh(m);
    lemma_run_ignores_perms(spec_reset(m), spec_fresh(m.perm, m.rate, m.capacity), ops);
}

/// Two models that agree on everything but their permutation-invocation
/// count.  All sponge outputs coincide on such models; only the count
/// itself differs.
pub open spec fn same_but_perms<P>(m1: SpongeModel<P>, m2: SpongeModel<P>) -> bool {
    &&& m1.perm == m2.perm
    &&& m1.state == m2.state
    &&& m1.rate == m2.rate
    &&& m1.capacity == m2.capacity
    &&& m1.mode == m2.mode
}

/// Absorbing preserves agreement up to the invocation count.
pub proof fn lemma_absorb_ignores_perms<P: PermutationSpec>(
    m1: SpongeModel<P>,
    m2: SpongeModel<P>,
    elems: Seq<nat>,
)
    requires
        same_but_perms(m1, m2),
    ensures
        same_but_perms(spec_absorb(m1, elems), spec_absorb(m2, elems)),
{
}

/// Squeezing preserves agreement up to the invocation count and yields
/// the same output.
pub proof fn lemma_squeeze_ignores_perms<P: PermutationSpec>(
    m1: SpongeModel<P>,
    m2: SpongeModel<P>,
    n: nat,
)
    requires
        same_but_perms(m1, m2),
    ensures
        same_but_perms(spec_squeeze(m1, n).0, spec_squeeze(m2, n).0),
        spec_squeeze(m1, n).1 == spec_squeeze(m2, n).1,
{
}

/// Resetting a sponge leaves it agreeing with a freshly constructed one
/// on everything but the invocation count.
pub proof fn lemma_reset_like_fresh<P>(m: SpongeModel<P>)
    ensures
        same_but_perms(spec_reset(m), spec_fresh(m.perm, m.rate, m.capacity)),
{
}

/// The executable mode, mirroring [`SpongeMode`] with a machine cursor.
#[derive(Clone, Copy)]
pub(crate) enum SpongeState {
    Absorbing { next_absorb_index: usize },
    Squeezing { next_squeeze_index: usize },
}

/// A duplex sponge over concrete field values.
pub struct AlgebraicSponge<P: Permutation> {
    state: Vec<Fr>,
    rate: usize,
    capacity: usize,
    permutation: P,
    mode: SpongeState,
    perm_invocations: Ghost<nat>,
}

impl<P: Permutation> View for AlgebraicSponge<P> {
    type V = SpongeModel<P>;

    closed spec fn view(&self) -> SpongeModel<P> {
        SpongeModel {
            perm: self.permutation,
            state: views(self.state@),
            rate: self.rate as nat,
            capacity: self.capacity as nat,
            mode: match self.mode {
                SpongeState::Absorbing { next_absorb_index } => SpongeMode::Absorbing {
                    pos: next_absorb_index as nat,
                },
                SpongeState::Squeezing { next_squeeze_index } => SpongeMode::Squeezing {
                    pos: next_squeeze_index as nat,
                },
            },
            perms: self.perm_invocations@,
        }
    }
}

/// A vector of `n` zero elements.
fn zero_vec(n: usize) -> (v: Vec<Fr>)
    ensures
        v@.len() == n,
        views(v@) == zero_state(n as nat),
{
    let mut v: Vec<Fr> = Vec::new();
    while v.len() < n
        invariant
            v@.len() <= n,
            forall|j: int| 0 <= j < v@.len() ==> v@[j]@ == 0,
        decreases n - v@.len(),
    {
        v.push(Fr::zero());
    }
    proof {
        assert(views(v@) =~= zero_state(n as nat));
    }
    v
}

impl<P: Permutation> AlgebraicSponge<P> {
    /// The sponge's internal invariant.
    pub closed spec fn wf(&self) -> bool {
        &&& self.rate >= 1
        &&& self.capacity >= 1
        &&& self.state@.len() == self.rate + self.capacity
        &&& match self.mode {
            SpongeState::Absorbing { next_absorb_index } => next_absorb_index <= self.rate,
            SpongeState::Squeezing { next_squeeze_index } => next_squeeze_index <= self.rate,
        }
    }

    /// A well-formed sponge has a well-formed model.
    pub proof fn lemma_wf_model(&self)
        requires
            self.wf(),
        ensures
            model_wf(self@),
    {
    }

    /// Construct a sponge with the given rate, capacity and permutation:
    /// an all-zero state, absorbing from cursor zero.  A zero rate or
    /// capacity is a configuration error, rejected eagerly.
    pub fn new(rate: usize, capacity: usize, permutation: P) -> (r: Result<
        AlgebraicSponge<P>,
        ConfigurationError,
    >)
        requires
            rate + capacity <= usize::MAX,
        ensures
            r is Ok <==> (rate >= 1 && capacity >= 1),
            rate == 0 ==> r == Result::<AlgebraicSponge<P>, ConfigurationError>::Err(
                ConfigurationError::ZeroRate,
            ),
            rate >= 1 && capacity == 0 ==> r == Result::<
                AlgebraicSponge<P>,
                ConfigurationError,
            >::Err(ConfigurationError::ZeroCapacity),
            r matches Ok(s) ==> s.wf() && s@ == spec_fresh(permutation, rate as nat, capacity as nat),
    {
        if rate == 0 {
            return Err(ConfigurationError::ZeroRate);
        }
        if capacity == 0 {
            return Err(ConfigurationError::ZeroCapacity);
        }
        let state = zero_vec(rate + capacity);
        let s = AlgebraicSponge {
            state,
            rate,
            capacity,
            permutation,
            mode: SpongeState::Absorbing { next_absorb_index: 0 },
            perm_invocations: Ghost(0nat),
        };
        proof {
            assert(s@ =~= spec_fresh(s.permutation, rate as nat, capacity as nat));
        }
        Ok(s)
    }

    /// Reinitialize to the construction-time state; idempotent.
    pub fn reset(&mut self)
        requires
            old(self).wf(),
        ensures
            final(self).wf(),
            final(self)@ == spec_reset(old(self)@),
    {
        let n = self.state.len();
        self.state = zero_vec(n);
        self.mode = SpongeState::Absorbing { next_absorb_index: 0 };
        proof {
            assert(self@ =~= spec_reset(old(self)@));
        }
    }

    /// Apply the permutation to the state array and count the invocation.
    fn apply_permutation(&mut self)
        requires
            old(self).wf(),
        ensures
            final(self).wf(),
            final(self)@ == (SpongeModel {
                state: old(self)@.perm.spec_permute(old(self)@.state),
                perms: old(self)@.perms + 1,
                ..old(self)@
            }),
    {
        self.permutation.permute(&mut self.state);
        proof {
            self.perm_invocations@ = self.perm_invocations@ + 1;
        }
        proof {
            assert(self@ =~= SpongeModel {
                state: old(self)@.perm.spec_permute(old(self)@.state),
                perms: old(self)@.perms + 1,
                ..old(self)@
            });
        }
    }

    /// Absorb the given elements, adding them into consecutive rate cells
    /// from the cursor, permuting and wrapping at the rate boundary.
    pub fn absorb(&mut self, elements: &[Fr])
        requires
            old(self).wf(),
        ensures
            final(self).wf(),
            final(self)@ == spec_absorb(old(self)@, views(elements@)),
    {
        let ghost m0 = self@;
        let ghost ev = views(elements@);
        let mut pos: usize;
        let forced: bool;
        match self.mode {
            SpongeState::Absorbing { next_absorb_index } => {
                if next_absorb_index == self.rate {
                    forced = true;
                    pos = 0;
                } else {
                    forced = false;
                    pos = next_absorb_index;
                }
            },
            SpongeState::Squeezing { next_squeeze_index: _ } => {
                forced = true;
                pos = 0;
            },
        }
        if forced {
            self.apply_permutation();
        }
        let ghost base = views(self.state@);
        let ghost pos0 = pos as nat;
        let ghost fcount: nat = if forced { 1nat } else { 0nat };
        let ghost target = absorb_at(m0.perm, base, m0.rate, pos0, ev);
        proof {
            assert(ev.skip(0) =~= ev);
        }
        let mut i: usize = 0;
        while i < elements.len()
            invariant
                self.wf(),
                i <= elements.len(),
                pos <= self.rate,
                ev == views(elements@),
                self@.perm == m0.perm,
                self@.rate == m0.rate,
                self@.capacity == m0.capacity,
                absorb_at(m0.perm, views(self.state@), m0.rate, pos as nat, ev.skip(i as int)).0
                    == target.0,
                absorb_at(m0.perm, views(self.state@), m0.rate, pos as nat, ev.skip(i as int)).1
                    == target.1,
                self@.perms + absorb_at(
                    m0.perm,
                    views(self.state@),
                    m0.rate,
                    pos as nat,
                    ev.skip(i as int),
                ).2 == m0.perms + fcount + target.2,
            decreases elements.len() - i,
        {
            let ghost pre_views = views(self.state@);
            let ghost pre_pos = pos as nat;
            let ghost rem = ev.skip(i as int);
            if pos == self.rate {
                self.apply_permutation();
                pos = 0;
            }
            let e = elements[i];
            self.state[pos] = self.state[pos].add(e);
            proof {
                assert(rem.len() > 0);
                assert(rem[0] == ev[i as int]);
                assert(rem.skip(1) =~= ev.skip(i as int + 1));
                let st1 = if pre_pos == m0.rate {
                    m0.perm.spec_permute(pre_views)
                } else {
                    pre_views
                };
                assert(views(self.state@) =~= st1.update(
                    pos as int,
                    fadd(st1[pos as int], rem[0]),
                ));
            }
            pos = pos + 1;
            i = i + 1;
        }
        self.mode = SpongeState::Absorbing { next_absorb_index: pos };
        proof {
            assert(ev.skip(i as int) =~= Seq::<nat>::empty());
            assert(self@ =~= spec_absorb(m0, ev));
        }
    }

    /// Squeeze `num_elements` pseudorandom elements, reading consecutive
    /// rate cells from the cursor, permuting and wrapping at the rate
    /// boundary.  An absorbing sponge is permuted once before reading.
    pub fn squeeze(&mut self, num_elements: usize) -> (out: Vec<Fr>)
        requires
            old(self).wf(),
        ensures
            final(self).wf(),
            final(self)@ == spec_squeeze(old(self)@, num_elements as nat).0,
            views(out@) == spec_squeeze(old(self)@, num_elements as nat).1,
            out@.len() == num_elements,
    {
        let ghost m0 = self@;
        let mut pos: usize;
        let forced: bool;
        match self.mode {
            SpongeState::Absorbing { next_absorb_index: _ } => {
                forced = true;
                pos = 0;
            },
            SpongeState::Squeezing { next_squeeze_index } => {
                if next_squeeze_index == self.rate {
                    forced = true;
                    pos = 0;
                } else {
                    forced = false;
                    pos = next_squeeze_index;
                }
            },
        }
        if forced {
            self.apply_permutation();
        }
        let ghost base = views(self.state@);
        let ghost pos0 = pos as nat;
        let ghost fcount: nat = if forced { 1nat } else { 0nat };
        let ghost target = squeeze_at(m0.perm, base, m0.rate, pos0, num_elements as nat);
        let mut out: Vec<Fr> = Vec::new();
        let mut i: usize = 0;
        while i < num_elements
            invariant
                self.wf(),
                i <= num_elements,
                pos <= self.rate,
                out@.len() == i,
                self@.perm == m0.perm,
                self@.rate == m0.rate,
                self@.capacity == m0.capacity,
                views(out@) + squeeze_at(
                    m0.perm,
                    views(self.state@),
                    m0.rate,
                    pos as nat,
                    (num_elements - i) as nat,
                ).0 == target.0,
                squeeze_at(
                    m0.perm,
                    views(self.state@),
                    m0.rate,
                    pos as nat,
                    (num_elements - i) as nat,
                ).1 == target.1,
                squeeze_at(
                    m0.perm,
                    views(self.state@),
                    m0.rate,
                    pos as nat,
                    (num_elements - i) as nat,
                ).2 == target.2,
                self@.perms + squeeze_at(
                    m0.perm,
                    views(self.state@),
                    m0.rate,
                    pos as nat,
                    (num_elements - i) as nat,
                ).3 == m0.perms + fcount + target.3,
            decreases num_elements - i,
        {
            let ghost pre_out = views(out@);
            if pos == self.rate {
                self.apply_permutation();
                pos = 0;
            }
            let e = self.state[pos];
            out.push(e);
            proof {
                assert(views(out@) =~= pre_out + seq![e@]);
                assert(e@ == views(self.state@)[pos as int]);
                assert(pre_out + (seq![e@] + squeeze_at(
                    m0.perm,
                    views(self.state@),
                    m0.rate,
                    (pos + 1) as nat,
                    (num_elements - i - 1) as nat,
                ).0) =~= (pre_out + seq![e@]) + squeeze_at(
                    m0.perm,
                    views(self.state@),
                    m0.rate,
                    (pos + 1) as nat,
                    (num_elements - i - 1) as nat,
                ).0);
            }
            pos = pos + 1;
            i = i + 1;
        }
        self.mode = SpongeState::Squeezing { next_squeeze_index: pos };
        proof {
            assert(views(out@) + Seq::<nat>::empty() =~= views(out@));
            assert(self@ =~= spec_squeeze(m0, num_elements as nat).0);
        }
        out
    }
}

} // verus!
