//! The concrete prime field the hashing layer works over.
//!
//! The field element is deliberately small: the sponge construction only
//! consumes the ring operations, equality and a bit representation, so a
//! word-sized prime keeps every operation exactly verifiable.  A field
//! element is viewed as its canonical residue, a natural number below the
//! modulus.

use vstd::prelude::*;
use vstd::arithmetic::div_mod::{
    lemma_add_mod_noop, lemma_mod_bound, lemma_mod_twice, lemma_mul_mod_noop, lemma_small_mod,
};

verus! {

/// The field modulus: a prime that fits in 31 bits, so sums fit in a `u64`
/// and products fit in a `u64` without intermediate overflow.
pub const FR_MODULUS: u64 = 2013265921;

/// The modulus as a natural number, for specifications.
pub open spec fn fr_p() -> nat {
    FR_MODULUS as nat
}

/// Addition of residues.
pub open spec fn fadd(a: nat, b: nat) -> nat {
    (a + b) % fr_p()
}

/// Subtraction of residues.
pub open spec fn fsub(a: nat, b: nat) -> nat {
    ((a + fr_p() - (b % fr_p())) % (fr_p() as int)) as nat
}

/// Multiplication of residues.
pub open spec fn fmul(a: nat, b: nat) -> nat {
    (a * b) % fr_p()
}

/// Parameters of the scalar field: the modulus and the number of bits
/// needed to represent a canonical residue.
pub struct FrParameters;

impl FrParameters {
    /// The field modulus.
    pub fn modulus() -> (r: u64)
        ensures
            r == FR_MODULUS,
    {
        FR_MODULUS
    }

    /// Number of bits of the modulus: every canonical residue fits in this
    /// many bits.
    pub fn modulus_bits() -> (r: u32)
        ensures
            r == 31u32,
            fr_p() <= vstd::arithmetic::power2::pow2(31),
    {
        proof {
            vstd::arithmetic::power2::lemma2_to64();
        }
        31
    }
}

/// An element of the prime field, stored as its canonical residue.
#[derive(Clone, Copy, Debug)]
pub struct Fr {
    v: u64,
}

impl View for Fr {
    type V = nat;

    closed spec fn view(&self) -> nat {
        (self.v % FR_MODULUS) as nat
    }
}

/// The sequence of residues a sequence of field elements stands for.
pub open spec fn views(s: Seq<Fr>) -> Seq<nat> {
    Seq::new(s.len(), |i: int| s[i]@)
}

impl Fr {
    /// The additive identity.
    pub fn zero() -> (r: Fr)
        ensures
            r@ == 0,
    {
        Fr { v: 0 }
    }

    /// The multiplicative identity.
    pub fn one() -> (r: Fr)
        ensures
            r@ == 1,
    {
        Fr { v: 1 }
    }

    /// The residue of an arbitrary machine integer.
    pub fn from_u64(x: u64) -> (r: Fr)
        ensures
            r@ == x as nat % fr_p(),
    {
        let r = Fr { v: x % FR_MODULUS };
        proof {
            lemma_mod_twice(x as int, FR_MODULUS as int);
        }
        r
    }

    /// The canonical residue as a machine integer.
    pub fn as_u64(&self) -> (r: u64)
        ensures
            r as nat == self@,
    {
        self.v % FR_MODULUS
    }

    /// Field equality: equality of residues.
    pub fn equals(&self, other: &Fr) -> (r: bool)
        ensures
            r == (self@ == other@),
    {
        self.v % FR_MODULUS == other.v % FR_MODULUS
    }

    /// Field addition.
    pub fn add(self, other: Fr) -> (r: Fr)
        ensures
            r@ == fadd(self@, other@),
    {
        let a = self.v % FR_MODULUS;
        let b = other.v % FR_MODULUS;
        let s = if a + b >= FR_MODULUS {
            a + b - FR_MODULUS
        } else {
            a + b
        };
        proof {
            lemma_add_mod_noop(self.v as int, other.v as int, FR_MODULUS as int);
            if a + b >= FR_MODULUS {
                vstd::arithmetic::div_mod::lemma_mod_sub_multiples_vanish(
                    (a + b) as int,
                    FR_MODULUS as int,
                );
            }
            lemma_small_mod(s as nat, fr_p());
        }
        Fr { v: s }
    }

    /// Field subtraction.
    pub fn sub(self, other: Fr) -> (r: Fr)
        ensures
            r@ == fsub(self@, other@),
    {
        let a = self.v % FR_MODULUS;
        let b = other.v % FR_MODULUS;
        let s = if a >= b {
            a - b
        } else {
            a + FR_MODULUS - b
        };
        proof {
            lemma_mod_twice(other.v as int, FR_MODULUS as int);
            assert(a as nat == self@ && b as nat == other@ % fr_p());
            if a >= b {
                vstd::arithmetic::div_mod::lemma_mod_add_multiples_vanish(
                    a - b,
                    FR_MODULUS as int,
                );
            }
            lemma_small_mod(s as nat, fr_p());
        }
        Fr { v: s }
    }

    /// Field multiplication.
    pub fn mul(self, other: Fr) -> (r: Fr)
        ensures
            r@ == fmul(self@, other@),
    {
        let a = self.v % FR_MODULUS;
        let b = other.v % FR_MODULUS;
        proof {
            assert(a * b <= (FR_MODULUS - 1) * (FR_MODULUS - 1)) by (nonlinear_arith)
                requires
                    a < FR_MODULUS,
                    b < FR_MODULUS,
            ;
        }
        let p = a * b;
        let r = Fr { v: p % FR_MODULUS };
        proof {
            lemma_mul_mod_noop(self.v as int, other.v as int, FR_MODULUS as int);
            lemma_mod_twice((a * b) as int, FR_MODULUS as int);
        }
        r
    }
}

/// Every residue lies below the modulus.
pub proof fn lemma_view_bound(x: Fr)
    ensures
        x@ < fr_p(),
{
    lemma_mod_bound(x.v as int, FR_MODULUS as int);
}

/// Adding one constant to two distinct residues keeps them distinct, on
/// either side.
pub proof fn lemma_fadd_cancel(c: nat, x: nat, y: nat)
    requires
        x < fr_p(),
        y < fr_p(),
        x != y,
    ensures
        fadd(c, x) != fadd(c, y),
        fadd(x, c) != fadd(y, c),
{
    let p = fr_p();
    let c2 = c % p;
    lemma_mod_bound(c as int, p as int);
    lemma_add_mod_noop(c as int, x as int, p as int);
    lemma_add_mod_noop(c as int, y as int, p as int);
    lemma_small_mod(x, p);
    lemma_small_mod(y, p);
    assert(fadd(c, x) == (c2 + x) % p);
    assert(fadd(c, y) == (c2 + y) % p);
    if c2 + x < p {
        lemma_small_mod((c2 + x) as nat, p);
    } else {
        vstd::arithmetic::div_mod::lemma_mod_sub_multiples_vanish((c2 + x) as int, p as int);
        lemma_small_mod((c2 + x - p) as nat, p);
    }
    if c2 + y < p {
        lemma_small_mod((c2 + y) as nat, p);
    } else {
        vstd::arithmetic::div_mod::lemma_mod_sub_multiples_vanish((c2 + y) as int, p as int);
        lemma_small_mod((c2 + y - p) as nat, p);
    }
    assert(fadd(x, c) == fadd(c, x));
    assert(fadd(y, c) == fadd(c, y));
}

} // verus!
