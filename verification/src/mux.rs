//! The oblivious multiplexer: select one of `2^k` candidates from `k`
//! selector bits without branching on them.
//!
//! The circuit's topology cannot depend on secret data, so the selection
//! is a balanced binary reduction: every round replaces each adjacent
//! pair with one conditional selection driven by the next selector bit,
//! least-significant first, until a single variable remains.  Its value
//! is exactly the candidate at the selectors' integer index, with the
//! most-significant bit first.

use vstd::prelude::*;
use vstd::arithmetic::power2::pow2;
use crate::constraints::{
    bool_value, bool_wf, cs_wf, extends, lemma_bool_value_extend, lemma_extends_trans, sat,
    value_at, var_ok, Boolean, ConstraintSystem, FpVar,
};
use crate::ConfigurationError;

verus! {

/// The integer a sequence of selector bits denotes under an assignment,
/// most-significant bit first.
pub open spec fn bits_index(bits: Seq<Boolean>, vals: Seq<nat>) -> nat
    decreases bits.len(),
{
    if bits.len() == 0 {
        0
    } else {
        2 * bits_index(bits.drop_last(), vals) + (if bool_value(bits.last(), vals) {
            1nat
        } else {
            0nat
        })
    }
}

/// The denoted integer lies below `2^len`.
pub proof fn lemma_bits_index_bound(bits: Seq<Boolean>, vals: Seq<nat>)
    ensures
        bits_index(bits, vals) < pow2(bits.len()),
    decreases bits.len(),
{
    vstd::arithmetic::power2::lemma_pow2_pos(bits.len());
    if bits.len() > 0 {
        lemma_bits_index_bound(bits.drop_last(), vals);
        vstd::arithmetic::power2::lemma_pow2_unfold(bits.len());
    }
}

/// Peeling the most-significant bit off the front.
pub proof fn lemma_bits_index_front(bits: Seq<Boolean>, vals: Seq<nat>)
    requires
        bits.len() >= 1,
    ensures
        bits_index(bits, vals) == (if bool_value(bits[0], vals) {
            pow2((bits.len() - 1) as nat)
        } else {
            0nat
        }) + bits_index(bits.skip(1), vals),
    decreases bits.len(),
{
    if bits.len() == 1 {
        assert(bits.drop_last().len() == 0);
        assert(bits.skip(1).len() == 0);
        assert(pow2(0) == 1) by {
            vstd::arithmetic::power2::lemma2_to64();
        }
        assert(bits.last() == bits[0]);
        assert(bits_index(bits.drop_last(), vals) == 0);
        assert(bits_index(bits.skip(1), vals) == 0);
    } else {
        let front = bits.drop_last();
        let n = bits.len();
        lemma_bits_index_front(front, vals);
        assert(front.skip(1) =~= bits.skip(1).drop_last());
        assert(front[0] == bits[0]);
        assert(bits.skip(1).last() == bits.last());
        assert(bits.skip(1).len() == n - 1);
        let tailbit: nat = if bool_value(bits.last(), vals) {
            1nat
        } else {
            0nat
        };
        assert(bits_index(bits, vals) == 2 * bits_index(front, vals) + tailbit);
        assert(bits_index(bits.skip(1), vals) == 2 * bits_index(bits.skip(1).drop_last(), vals)
            + tailbit);
        assert(bits_index(front, vals) == (if bool_value(bits[0], vals) {
            pow2((n - 2) as nat)
        } else {
            0nat
        }) + bits_index(front.skip(1), vals));
        vstd::arithmetic::power2::lemma_pow2_unfold((n - 1) as nat);
        if bool_value(bits[0], vals) {
            assert(2 * bits_index(front, vals) == 2 * pow2((n - 2) as nat) + 2 * bits_index(
                front.skip(1),
                vals,
            ));
            assert(2 * pow2((n - 2) as nat) == pow2((n - 1) as nat));
        }
    }
}

/// Build a constant selector-bit vector for a known index,
/// most-significant bit first: under every assignment the bits denote
/// `index` reduced modulo `2^num_bits`.
pub fn int_to_constant_boolean_vec(index: u64, num_bits: u64) -> (r: Vec<Boolean>)
    requires
        num_bits <= 64,
    ensures
        r@.len() == num_bits,
        forall|j: int| 0 <= j < num_bits ==> (#[trigger] r@[j]) matches Boolean::Constant(_),
        forall|vals: Seq<nat>| #[trigger] bits_index(r@, vals) == (index as nat) % pow2(
            num_bits as nat,
        ),
{
    let ghost goal = (index as nat) % pow2(num_bits as nat);
    let mut r: Vec<Boolean> = Vec::new();
    let mut t: u64 = 0;
    proof {
        vstd::arithmetic::power2::lemma_pow2_pos(num_bits as nat);
        vstd::arithmetic::div_mod::lemma_mod_bound(index as int, pow2(num_bits as nat) as int);
        vstd::arithmetic::div_mod::lemma_basic_div(goal as int, pow2(num_bits as nat) as int);
    }
    while t < num_bits
        invariant
            num_bits <= 64,
            t <= num_bits,
            r@.len() == t,
            forall|j: int| 0 <= j < t ==> (#[trigger] r@[j]) matches Boolean::Constant(_),
            forall|vals: Seq<nat>| #[trigger] bits_index(r@, vals) == goal / pow2(
                (num_bits - t) as nat,
            ),
            goal == (index as nat) % pow2(num_bits as nat),
            goal < pow2(num_bits as nat),
        decreases num_bits - t,
    {
        let j = num_bits - 1 - t;
        let b = (index >> j) & 1 == 1;
        let ghost pre = r@;
        r.push(Boolean::Constant(b));
        proof {
            vstd::bits::lemma_u64_shr_is_div(index, j);
            vstd::bits::lemma_u64_low_bits_mask_is_mod(index >> j, 1);
            assert(vstd::bits::low_bits_mask(1) == 1) by {
                vstd::arithmetic::power2::lemma2_to64();
            }
            assert(pow2(1) == 2) by {
                vstd::arithmetic::power2::lemma2_to64();
            }
            lemma_mod_pow2_bit(index as nat, num_bits as nat, j as nat);
            lemma_div_pow2_step(goal, j as nat);
            assert(goal / pow2(j as nat) == 2 * (goal / pow2((num_bits - t) as nat)) + ((goal
                / pow2(j as nat)) % 2));
            assert(b == ((goal / pow2(j as nat)) % 2 == 1));
            assert((goal / pow2(j as nat)) % 2 == 0 || (goal / pow2(j as nat)) % 2 == 1);
            assert forall|vals: Seq<nat>| #[trigger] bits_index(r@, vals) == goal / pow2(
                (num_bits - t - 1) as nat,
            ) by {
                assert(r@.drop_last() =~= pre);
                assert(bits_index(pre, vals) == goal / pow2((num_bits - t) as nat));
                assert(r@.last() == Boolean::Constant(b));
            }
        }
        t = t + 1;
    }
    proof {
        assert(pow2(0) == 1) by {
            vstd::arithmetic::power2::lemma2_to64();
        }
        assert forall|vals: Seq<nat>| #[trigger] bits_index(r@, vals) == (index as nat) % pow2(
            num_bits as nat,
        ) by {
            assert(bits_index(r@, vals) == goal / pow2((num_bits - t) as nat));
            assert(goal / 1 == goal);
        }
    }
    r
}

/// Select the candidate at the selector bits' integer index, without
/// branching on them: a balanced binary reduction of conditional
/// selections over `log2(N)` rounds.  The width must be the power of two
/// matching the selector count; anything else is a configuration error.
pub fn mux(cs: &mut ConstraintSystem, values: &[FpVar], location: &[Boolean]) -> (res: Result<
    FpVar,
    ConfigurationError,
>)
    requires
        cs_wf(old(cs)@),
        forall|j: int| 0 <= j < values@.len() ==> var_ok(#[trigger] values@[j], old(cs)@),
        forall|j: int|
            0 <= j < location@.len() ==> bool_wf(#[trigger] location@[j], old(cs)@.vals.len()),
    ensures
        cs_wf(final(cs)@),
        extends(final(cs)@, old(cs)@),
        sat(final(cs)@) <==> sat(old(cs)@),
        res is Ok <==> (location@.len() < 64 && values@.len() == pow2(location@.len())),
        res is Err ==> res == Result::<FpVar, ConfigurationError>::Err(
            ConfigurationError::WidthNotPowerOfTwo,
        ),
        res matches Ok(v) ==> var_ok(v, final(cs)@) && value_at(final(cs)@, v) == value_at(
            old(cs)@,
            values@[bits_index(location@, old(cs)@.vals) as int],
        ),
{
    let n = location.len();
    if n >= 64 {
        return Err(ConfigurationError::WidthNotPowerOfTwo);
    }
    let width = 1u64 << (n as u64);
    proof {
        vstd::bits::lemma_u64_pow2_no_overflow(n as nat);
        vstd::bits::lemma_u64_shl_is_mul(1u64, n as u64);
    }
    if values.len() as u64 != width {
        return Err(ConfigurationError::WidthNotPowerOfTwo);
    }
    proof {
        assert(values@.len() == pow2(n as nat));
    }
    let ghost cs0 = cs@;
    let ghost vals0 = cs0.vals;
    let ghost lbits = location@;
    let mut cur: Vec<FpVar> = Vec::new();
    let mut i: usize = 0;
    while i < values.len()
        invariant
            i <= values@.len(),
            cur@.len() == i,
            forall|k: int| 0 <= k < i ==> cur@[k] == values@[k],
        decreases values@.len() - i,
    {
        cur.push(values[i]);
        i = i + 1;
    }
    let mut t: usize = 0;
    proof {
        assert(lbits.skip(n as int) =~= Seq::<Boolean>::empty());
        assert(pow2(0) == 1) by {
            vstd::arithmetic::power2::lemma2_to64();
        }
    }
    while t < n
        invariant
            t <= n,
            n == lbits.len(),
            lbits == location@,
            n < 64,
            cs_wf(cs@),
            extends(cs@, cs0),
            sat(cs@) <==> sat(cs0),
            vals0 == cs0.vals,
            values@.len() == pow2(n as nat),
            forall|j: int| 0 <= j < values@.len() ==> var_ok(#[trigger] values@[j], cs0),
            forall|j: int| 0 <= j < n ==> bool_wf(#[trigger] lbits[j], vals0.len()),
            cur@.len() == pow2((n - t) as nat),
            forall|k: int| 0 <= k < cur@.len() ==> var_ok(#[trigger] cur@[k], cs@),
            forall|k: int|
                0 <= k < cur@.len() ==> value_at(cs@, #[trigger] cur@[k]) == value_at(
                    cs0,
                    values@[k * pow2(t as nat) + bits_index(lbits.skip(n - t), vals0)],
                ),
        decreases n - t,
    {
        let bit = location[n - 1 - t];
        let half = cur.len() / 2;
        proof {
            vstd::arithmetic::power2::lemma_pow2_unfold((n - t) as nat);
            assert(cur@.len() == 2 * pow2((n - t - 1) as nat));
            assert(half == pow2((n - t - 1) as nat));
            vstd::arithmetic::power2::lemma_pow2_pos((n - t - 1) as nat);
        }
        let ghost tail = bits_index(lbits.skip(n - t), vals0);
        let ghost newtail = bits_index(lbits.skip(n - t - 1), vals0);
        proof {
            let s = lbits.skip(n - t - 1);
            lemma_bits_index_front(s, vals0);
            assert(s[0] == lbits[n - 1 - t]);
            assert(s.skip(1) =~= lbits.skip(n - t));
            assert(s.len() == t + 1);
            assert(newtail == (if bool_value(lbits[n - 1 - t], vals0) {
                pow2(t as nat)
            } else {
                0nat
            }) + tail);
        }
        let mut next: Vec<FpVar> = Vec::new();
        let mut j: usize = 0;
        while j < half
            invariant
                j <= half,
                next@.len() == j,
                t < n,
                n == lbits.len(),
                lbits == location@,
                n < 64,
                cs_wf(cs@),
                extends(cs@, cs0),
                sat(cs@) <==> sat(cs0),
                vals0 == cs0.vals,
                values@.len() == pow2(n as nat),
                forall|jj: int| 0 <= jj < values@.len() ==> var_ok(#[trigger] values@[jj], cs0),
                forall|jj: int| 0 <= jj < n ==> bool_wf(#[trigger] lbits[jj], vals0.len()),
                cur@.len() == pow2((n - t) as nat),
                half == pow2((n - t - 1) as nat),
                cur@.len() == 2 * half,
                2 * half <= usize::MAX,
                bit == lbits[n - 1 - t],
                tail == bits_index(lbits.skip(n - t), vals0),
                newtail == bits_index(lbits.skip(n - t - 1), vals0),
                newtail == (if bool_value(lbits[n - 1 - t], vals0) {
                    pow2(t as nat)
                } else {
                    0nat
                }) + tail,
                forall|k: int| 0 <= k < cur@.len() ==> var_ok(#[trigger] cur@[k], cs@),
                forall|k: int|
                    0 <= k < cur@.len() ==> value_at(cs@, #[trigger] cur@[k]) == value_at(
                        cs0,
                        values@[k * pow2(t as nat) + tail],
                    ),
                forall|k: int| 0 <= k < j ==> var_ok(#[trigger] next@[k], cs@),
                forall|k: int|
                    0 <= k < j ==> value_at(cs@, #[trigger] next@[k]) == value_at(
                        cs0,
                        values@[k * pow2((t + 1) as nat) + newtail],
                    ),
            decreases half - j,
        {
            let ghost pre = cs@;
            proof {
                assert(var_ok(cur@[2 * j as int], pre));
                assert(var_ok(cur@[2 * j + 1], pre));
                lemma_bool_value_extend(bit, cs0, pre);
            }
            let sel = cs.conditionally_select(bit, cur[2 * j + 1], cur[2 * j]);
            next.push(sel);
            proof {
                lemma_extends_trans(cs@, pre, cs0);
                let bv = bool_value(bit, vals0);
                let b: nat = if bv {
                    1nat
                } else {
                    0nat
                };
                vstd::arithmetic::power2::lemma_pow2_unfold((t + 1) as nat);
                assert((2 * j + b) * pow2(t as nat) == j * pow2((t + 1) as nat) + b * pow2(
                    t as nat,
                )) by (nonlinear_arith)
                    requires
                        pow2((t + 1) as nat) == 2 * pow2(t as nat),
                ;
                assert(value_at(cs@, sel) == value_at(
                    cs0,
                    values@[j * pow2((t + 1) as nat) + newtail],
                ));
                assert forall|k: int| 0 <= k < cur@.len() implies value_at(
                    cs@,
                    #[trigger] cur@[k],
                ) == value_at(cs0, values@[k * pow2(t as nat) + tail]) by {
                    assert(var_ok(cur@[k], pre));
                }
                assert forall|k: int| 0 <= k < j implies value_at(cs@, #[trigger] next@[k])
                    == value_at(cs0, values@[k * pow2((t + 1) as nat) + newtail]) by {
                    assert(var_ok(next@[k], pre));
                }
            }
            j = j + 1;
        }
        cur = next;
        t = t + 1;
    }
    proof {
        assert(lbits.skip(0) =~= lbits);
        lemma_bits_index_bound(lbits, vals0);
        assert(cur@.len() == 1);
        assert(value_at(cs@, cur@[0]) == value_at(
            cs0,
            values@[bits_index(lbits, vals0) as int],
        ));
    }
    Ok(cur[0])
}

/// One step of reading a number most-significant bit first: the value of
/// the top bits down to position `k` is twice the value down to `k + 1`,
/// plus bit `k`.
pub proof fn lemma_div_pow2_step(x: nat, k: nat)
    ensures
        x / pow2(k) == 2 * (x / pow2((k + 1) as nat)) + ((x / pow2(k)) % 2),
{
    vstd::arithmetic::power2::lemma_pow2_pos(k);
    vstd::arithmetic::power2::lemma_pow2_pos((k + 1) as nat);
    vstd::arithmetic::power2::lemma_pow2_unfold((k + 1) as nat);
    vstd::arithmetic::div_mod::lemma_div_denominator(x as int, pow2(k) as int, 2);
    vstd::arithmetic::div_mod::lemma_fundamental_div_mod((x / pow2(k)) as int, 2);
}

/// Bit `k` of a number is untouched by reduction modulo a higher power
/// of two.
proof fn lemma_mod_pow2_bit(x: nat, n: nat, k: nat)
    requires
        k < n,
    ensures
        ((x % pow2(n)) / pow2(k)) % 2 == (x / pow2(k)) % 2,
{
    let pk = pow2(k);
    let pnk = pow2((n - k) as nat);
    vstd::arithmetic::power2::lemma_pow2_pos(k);
    vstd::arithmetic::power2::lemma_pow2_pos((n - k) as nat);
    vstd::arithmetic::power2::lemma_pow2_adds(k, (n - k) as nat);
    vstd::arithmetic::div_mod::lemma_mod_breakdown(x as int, pk as int, pnk as int);
    vstd::arithmetic::div_mod::lemma_mod_bound(x as int, pk as int);
    vstd::arithmetic::div_mod::lemma_fundamental_div_mod_converse(
        (x % pow2(n)) as int,
        pk as int,
        ((x / pk) % pnk) as int,
        (x % pk) as int,
    );
    vstd::arithmetic::power2::lemma_pow2_adds(1, (n - k - 1) as nat);
    vstd::arithmetic::power2::lemma_pow2_pos((n - k - 1) as nat);
    assert(pow2(1) == 2) by {
        vstd::arithmetic::power2::lemma2_to64();
    }
    vstd::arithmetic::div_mod::lemma_mod_mod(
        (x / pk) as int,
        2,
        pow2((n - k - 1) as nat) as int,
    );
}

} // verus!
