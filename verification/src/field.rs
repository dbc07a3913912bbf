//! The scalar field of BLS12-381, held as four 64-bit limbs in canonical
//! (fully reduced, little-endian) form. Arithmetic is done by `ark-ff`.

use ark_bls12_381::Fr as Scalar;
use ark_ff::{BigInteger256, PrimeField};
use rand::rngs::StdRng;
use vstd::prelude::*;

verus! {

/// The integer that four little-endian 64-bit limbs stand for.
pub open spec fn limbs_value(l0: u64, l1: u64, l2: u64, l3: u64) -> nat {
    (l0 as nat) + (l1 as nat) * 0x1_0000_0000_0000_0000 + (l2 as nat)
        * 0x1_0000_0000_0000_0000_0000_0000_0000_0000 + (l3 as nat)
        * 0x1_0000_0000_0000_0000_0000_0000_0000_0000_0000_0000_0000_0000
}

/// The field's prime order,
/// `0x73eda753299d7d483339d80809a1d80553bda402fffe5bfeffffffff00000001`.
pub open spec fn modulus() -> nat {
    limbs_value(
        0xffff_ffff_0000_0001,
        0x53bd_a402_fffe_5bfe,
        0x3339_d808_09a1_d805,
        0x73ed_a753_299d_7d48,
    )
}

/// The sum of two reduced values in the field.
pub open spec fn field_sum(a: nat, b: nat) -> nat {
    (a + b) % modulus()
}

/// The difference of two reduced values in the field.
pub open spec fn field_difference(a: nat, b: nat) -> nat {
    ((a + modulus() - b) % (modulus() as int)) as nat
}

/// Sum and difference of reduced values, without the remainder operation.
pub proof fn lemma_field_operations(a: nat, b: nat)
    requires
        a < modulus(),
        b < modulus(),
    ensures
        field_sum(a, b) as int == if a + b < modulus() {
            (a + b) as int
        } else {
            a + b - modulus()
        },
        field_difference(a, b) as int == if a >= b {
            a - b
        } else {
            a + modulus() - b
        },
        field_sum(a, b) < modulus(),
        field_difference(a, b) < modulus(),
{
    let p = modulus() as int;
    lemma_remainder_below_double((a + b) as int, p);
    lemma_remainder_below_double(a + p - b, p);
}

proof fn lemma_remainder_below_double(x: int, p: int)
    requires
        p > 0,
        0 <= x < 2 * p,
    ensures
        x % p == if x < p {
            x
        } else {
            x - p
        },
{
    if x < p {
        vstd::arithmetic::div_mod::lemma_small_mod(x as nat, p as nat);
    } else {
        vstd::arithmetic::div_mod::lemma_small_mod((x - p) as nat, p as nat);
        vstd::arithmetic::div_mod::lemma_mod_add_multiples_vanish(x - p, p);
    }
}

/// The integers that a sequence of elements stands for.
pub open spec fn values(s: Seq<Fr>) -> Seq<nat> {
    Seq::new(s.len(), |i: int| s[i].value())
}

/// A field element. Every value of this type is fully reduced.
#[derive(Clone, Copy, Debug, PartialEq, Eq, Structural)]
pub struct Fr {
    pub(crate) l0: u64,
    pub(crate) l1: u64,
    pub(crate) l2: u64,
    pub(crate) l3: u64,
}

impl Fr {
    #[verifier::type_invariant]
    pub closed spec fn reduced(self) -> bool {
        limbs_value(self.l0, self.l1, self.l2, self.l3) < modulus()
    }

    /// The integer in `[0, modulus())` that this element stands for.
    pub closed spec fn value(self) -> nat {
        limbs_value(self.l0, self.l1, self.l2, self.l3)
    }

    /// The 32 bytes of the element's little-endian encoding: the limbs, least
    /// significant first, each with its least significant byte first.
    pub open spec fn le_bytes(self) -> Seq<u8> {
        vstd::bytes::spec_u64_to_le_bytes(self.limbs_spec().0) + vstd::bytes::spec_u64_to_le_bytes(
            self.limbs_spec().1,
        ) + vstd::bytes::spec_u64_to_le_bytes(self.limbs_spec().2)
            + vstd::bytes::spec_u64_to_le_bytes(self.limbs_spec().3)
    }

    /// The additive identity.
    pub closed spec fn zero_element() -> Fr {
        Fr { l0: 0, l1: 0, l2: 0, l3: 0 }
    }

    pub fn zero() -> (r: Fr)
        ensures
            r == Fr::zero_element(),
            r.value() == 0,
    {
        Fr { l0: 0, l1: 0, l2: 0, l3: 0 }
    }

    pub fn from_u64(v: u64) -> (r: Fr)
        ensures
            r.value() == v,
    {
        Fr { l0: v, l1: 0, l2: 0, l3: 0 }
    }

    /// The element with the given limbs, if they stand for a reduced value.
    pub fn from_limbs(l0: u64, l1: u64, l2: u64, l3: u64) -> (r: Option<Fr>)
        ensures
            r.is_some() <==> limbs_value(l0, l1, l2, l3) < modulus(),
            r.is_some() ==> r.unwrap().value() == limbs_value(l0, l1, l2, l3),
            r.is_some() ==> r.unwrap().limbs_spec() == (l0, l1, l2, l3),
    {
        let below = if l3 != 0x73ed_a753_299d_7d48 {
            l3 < 0x73ed_a753_299d_7d48
        } else if l2 != 0x3339_d808_09a1_d805 {
            l2 < 0x3339_d808_09a1_d805
        } else if l1 != 0x53bd_a402_fffe_5bfe {
            l1 < 0x53bd_a402_fffe_5bfe
        } else {
            l0 < 0xffff_ffff_0000_0001
        };
        if below {
            Some(Fr { l0, l1, l2, l3 })
        } else {
            None
        }
    }

    /// The four limbs, least significant first.
    pub closed spec fn limbs_spec(self) -> (u64, u64, u64, u64) {
        (self.l0, self.l1, self.l2, self.l3)
    }

    /// The four limbs, least significant first.
    pub fn limbs(&self) -> (l: (u64, u64, u64, u64))
        ensures
            l == self.limbs_spec(),
            limbs_value(l.0, l.1, l.2, l.3) == self.value(),
    {
        (self.l0, self.l1, self.l2, self.l3)
    }

    pub fn is_zero(&self) -> (b: bool)
        ensures
            b <==> self.value() == 0,
    {
        self.l0 == 0 && self.l1 == 0 && self.l2 == 0 && self.l3 == 0
    }

    /// The sum in the field.
    pub fn plus(&self, other: &Fr) -> (r: Fr)
        ensures
            r.value() == field_sum(self.value(), other.value()),
    {
        field_add(self, other)
    }

    /// The difference in the field.
    pub fn minus(&self, other: &Fr) -> (r: Fr)
        ensures
            r.value() == field_difference(self.value(), other.value()),
    {
        field_sub(self, other)
    }

    /// An element drawn from the generator. Which one depends on the
    /// generator's state; whichever it is, it is a reduced value, as blinding
    /// needs it.
    pub fn random(rng: &mut StdRng) -> (r: Fr)
        ensures
            r.value() < modulus(),
    {
        let r = field_random(rng);
        proof {
            use_type_invariant(&r);
        }
        r
    }

    /// The little-endian encoding, 32 bytes.
    pub fn to_le_bytes(&self) -> (out: Vec<u8>)
        ensures
            out@ == self.le_bytes(),
            out@.len() == 32,
    {
        let mut out = vstd::bytes::u64_to_le_bytes(self.l0);
        let mut b1 = vstd::bytes::u64_to_le_bytes(self.l1);
        let mut b2 = vstd::bytes::u64_to_le_bytes(self.l2);
        let mut b3 = vstd::bytes::u64_to_le_bytes(self.l3);
        out.append(&mut b1);
        out.append(&mut b2);
        out.append(&mut b3);
        out
    }
}

/// The generator that blinding values are drawn from.
#[verifier::external_type_specification]
#[verifier::external_body]
pub struct ExStdRng(StdRng);

/// `UniformRand::rand` for `ark_bls12_381::Fr`: some element of the field.
#[verifier::external_body]
fn field_random(rng: &mut StdRng) -> (r: Fr) {
    let l = <Scalar as ark_ff::UniformRand>::rand(rng).into_repr().0;
    Fr { l0: l[0], l1: l[1], l2: l[2], l3: l[3] }
}

/// Elements that stand for the same integer are the same element.
pub proof fn lemma_value_determines_element(a: Fr, b: Fr)
    requires
        a.value() == b.value(),
    ensures
        a == b,
{
    let base: int = 0x1_0000_0000_0000_0000;
    let high_a = a.l1 as int + a.l2 as int * base + a.l3 as int * base * base;
    let high_b = b.l1 as int + b.l2 as int * base + b.l3 as int * base * base;
    assert(a.value() == a.l0 as int + high_a * base) by (nonlinear_arith)
        requires
            a.value() == limbs_value(a.l0, a.l1, a.l2, a.l3),
            base == 0x1_0000_0000_0000_0000,
            high_a == a.l1 as int + a.l2 as int * base + a.l3 as int * base * base,
    ;
    assert(b.value() == b.l0 as int + high_b * base) by (nonlinear_arith)
        requires
            b.value() == limbs_value(b.l0, b.l1, b.l2, b.l3),
            base == 0x1_0000_0000_0000_0000,
            high_b == b.l1 as int + b.l2 as int * base + b.l3 as int * base * base,
    ;
    lemma_same_digits(a.l0 as int, high_a, b.l0 as int, high_b, base);
    let top_a = a.l2 as int + a.l3 as int * base;
    let top_b = b.l2 as int + b.l3 as int * base;
    assert(high_a == a.l1 as int + top_a * base) by (nonlinear_arith)
        requires
            high_a == a.l1 as int + a.l2 as int * base + a.l3 as int * base * base,
            top_a == a.l2 as int + a.l3 as int * base,
    ;
    assert(high_b == b.l1 as int + top_b * base) by (nonlinear_arith)
        requires
            high_b == b.l1 as int + b.l2 as int * base + b.l3 as int * base * base,
            top_b == b.l2 as int + b.l3 as int * base,
    ;
    lemma_same_digits(a.l1 as int, top_a, b.l1 as int, top_b, base);
    lemma_same_digits(a.l2 as int, a.l3 as int, b.l2 as int, b.l3 as int, base);
}

/// In a positional notation, equal numbers have equal lowest digits and equal
/// rests.
proof fn lemma_same_digits(low_a: int, rest_a: int, low_b: int, rest_b: int, base: int)
    requires
        base > 0,
        0 <= low_a < base,
        0 <= low_b < base,
        low_a + rest_a * base == low_b + rest_b * base,
    ensures
        low_a == low_b,
        rest_a == rest_b,
{
    assert(rest_a == rest_b) by (nonlinear_arith)
        requires
            base > 0,
            0 <= low_a < base,
            0 <= low_b < base,
            low_a + rest_a * base == low_b + rest_b * base,
    ;
}

/// Addition of `ark_bls12_381::Fr`: the sum of the two values, reduced.
#[verifier::external_body]
fn field_add(a: &Fr, b: &Fr) -> (r: Fr)
    ensures
        r.value() == field_sum(a.value(), b.value()),
{
    let to = |f: &Fr| Scalar::from_repr(BigInteger256([f.l0, f.l1, f.l2, f.l3])).unwrap();
    let l = (to(a) + to(b)).into_repr().0;
    Fr { l0: l[0], l1: l[1], l2: l[2], l3: l[3] }
}

/// Subtraction of `ark_bls12_381::Fr`: the difference of the two values,
/// reduced into `[0, modulus())`.
#[verifier::external_body]
fn field_sub(a: &Fr, b: &Fr) -> (r: Fr)
    ensures
        r.value() == field_difference(a.value(), b.value()),
{
    let to = |f: &Fr| Scalar::from_repr(BigInteger256([f.l0, f.l1, f.l2, f.l3])).unwrap();
    let l = (to(a) - to(b)).into_repr().0;
    Fr { l0: l[0], l1: l[1], l2: l[2], l3: l[3] }
}

} // verus!
