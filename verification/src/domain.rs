//! Evaluation domains: multiplicative subgroups of power-of-two size, and the
//! transforms between coefficients and evaluations over them.

use crate::field::{values, Fr};
use ark_bls12_381::Fr as Scalar;
use ark_ff::{BigInteger256, PrimeField};
use ark_poly::{EvaluationDomain, GeneralEvaluationDomain};
use vstd::prelude::*;

verus! {

/// The largest domain the field offers: its two-adicity is 32.
pub open spec fn max_domain_size() -> nat {
    0x1_0000_0000
}

pub open spec fn is_power_of_two(n: nat) -> bool
    decreases n,
{
    n == 1 || (n > 1 && n % 2 == 0 && is_power_of_two(n / 2))
}

/// The smallest power of two that is at least `n`.
pub open spec fn ceil_power_of_two(n: nat) -> nat
    decreases n,
{
    if n <= 1 {
        1
    } else {
        2 * ceil_power_of_two((n + 1) / 2)
    }
}

/// `ceil_power_of_two(n)` is a power of two, at least `n`, and below `2 * n`
/// for positive `n`.
pub proof fn lemma_ceil_power_of_two(n: nat)
    ensures
        is_power_of_two(ceil_power_of_two(n)),
        n <= ceil_power_of_two(n),
        n >= 1 ==> ceil_power_of_two(n) < 2 * n,
    decreases n,
{
    if n > 1 {
        lemma_ceil_power_of_two((n + 1) / 2);
    }
}

/// A power of two that is at least `n` is at least `ceil_power_of_two(n)`.
pub proof fn lemma_ceil_power_of_two_least(n: nat, p: nat)
    requires
        is_power_of_two(p),
        n <= p,
    ensures
        ceil_power_of_two(n) <= p,
    decreases n,
{
    if n > 1 {
        lemma_ceil_power_of_two_least((n + 1) / 2, p / 2);
    }
}

/// Between a power of two and its double there is no other power of two.
pub proof fn lemma_power_of_two_gap(a: nat, b: nat)
    requires
        is_power_of_two(a),
        is_power_of_two(b),
        a < b,
    ensures
        2 * a <= b,
    decreases a,
{
    if a > 1 {
        lemma_power_of_two_gap(a / 2, b / 2);
    }
}

/// Of two powers of two, the smaller divides the larger.
pub proof fn lemma_powers_of_two_divide(a: nat, b: nat)
    requires
        is_power_of_two(a),
        is_power_of_two(b),
        a <= b,
    ensures
        b % a == 0,
        (b / a) * a == b,
        b / a >= 1,
    decreases b,
{
    if a == b {
        assert(b / a == 1 && b % a == 0) by (nonlinear_arith)
            requires
                a == b,
                a >= 1,
        ;
    } else {
        lemma_power_of_two_gap(a, b);
        lemma_powers_of_two_divide(a, b / 2);
        let h = b / 2;
        let k = h / a;
        assert(b == 2 * h);
        assert(b == (2 * k) * a) by (nonlinear_arith)
            requires
                b == 2 * h,
                k * a == h,
        ;
        assert(b % a == 0 && b / a == 2 * k) by (nonlinear_arith)
            requires
                b == (2 * k) * a,
                a >= 1,
        ;
    }
}

/// The evaluations over the domain of size `size` of the polynomial with the
/// given coefficients, as the radix-2 transform computes them.
pub uninterp spec fn fft_evaluations(size: nat, coeffs: Seq<nat>) -> Seq<nat>;

/// The coefficients that the inverse radix-2 transform over the domain of
/// size `size` gives for the given evaluations.
pub uninterp spec fn ifft_coefficients(size: nat, evals: Seq<nat>) -> Seq<nat>;

/// `GeneralEvaluationDomain::<Fr>::new` and `size`: for a request of at most
/// 2^32 coefficients there is a domain, and its size is the next power of two.
#[verifier::external_body]
fn evaluation_domain_size(num_coeffs: usize) -> (r: Option<usize>)
    requires
        num_coeffs <= max_domain_size(),
        ceil_power_of_two(num_coeffs as nat) <= usize::MAX,
    ensures
        r == Some(ceil_power_of_two(num_coeffs as nat) as usize),
{
    match GeneralEvaluationDomain::<Scalar>::new(num_coeffs) {
        Some(d) => Some(d.size()),
        None => None,
    }
}

/// `EvaluationDomain::fft` over the domain of the given size: the input is
/// cut or zero-padded to the domain's size and transformed.
#[verifier::external_body]
pub(crate) fn domain_fft(size: usize, coeffs: &Vec<Fr>) -> (evals: Vec<Fr>)
    requires
        is_power_of_two(size as nat),
        size <= max_domain_size(),
    ensures
        values(evals@) == fft_evaluations(size as nat, values(coeffs@)),
        evals@.len() == size,
{
    let to = |f: &Fr| Scalar::from_repr(BigInteger256([f.l0, f.l1, f.l2, f.l3])).unwrap();
    let back = |c: &Scalar| {
        let l = c.into_repr().0;
        Fr { l0: l[0], l1: l[1], l2: l[2], l3: l[3] }
    };
    let d = GeneralEvaluationDomain::<Scalar>::new(size).unwrap();
    let c: Vec<Scalar> = coeffs.iter().map(to).collect();
    d.fft(&c).iter().map(back).collect()
}

/// `EvaluationDomain::ifft` over the domain of the given size: the input is
/// cut or zero-padded to the domain's size and transformed back.
#[verifier::external_body]
pub(crate) fn domain_ifft(size: usize, evals: &Vec<Fr>) -> (coeffs: Vec<Fr>)
    requires
        is_power_of_two(size as nat),
        size <= max_domain_size(),
    ensures
        values(coeffs@) == ifft_coefficients(size as nat, values(evals@)),
        coeffs@.len() == size,
{
    let to = |f: &Fr| Scalar::from_repr(BigInteger256([f.l0, f.l1, f.l2, f.l3])).unwrap();
    let back = |c: &Scalar| {
        let l = c.into_repr().0;
        Fr { l0: l[0], l1: l[1], l2: l[2], l3: l[3] }
    };
    let d = GeneralEvaluationDomain::<Scalar>::new(size).unwrap();
    let e: Vec<Scalar> = evals.iter().map(to).collect();
    d.ifft(&e).iter().map(back).collect()
}

/// The size of the domain for `num_coeffs` coefficients: the next power of
/// two, where the field has a subgroup of that size.
pub fn domain_size(num_coeffs: usize) -> (r: Option<usize>)
    ensures
        r.is_some() <==> num_coeffs <= max_domain_size() && ceil_power_of_two(num_coeffs as nat)
            <= usize::MAX,
        r.is_some() ==> r.unwrap() == ceil_power_of_two(num_coeffs as nat),
        r.is_some() ==> is_power_of_two(r.unwrap() as nat) && r.unwrap() <= max_domain_size(),
{
    let half_range: usize = usize::MAX / 2 + 1;
    proof {
        lemma_ceil_power_of_two(num_coeffs as nat);
        lemma_half_range_is_power();
        if num_coeffs <= half_range {
            lemma_ceil_power_of_two_least(num_coeffs as nat, half_range as nat);
        } else {
            lemma_power_of_two_gap(half_range as nat, ceil_power_of_two(num_coeffs as nat));
        }
        if num_coeffs <= max_domain_size() {
            lemma_max_domain_is_power();
            lemma_ceil_power_of_two_least(num_coeffs as nat, max_domain_size());
        }
    }
    if num_coeffs as u64 <= 0x1_0000_0000u64 && num_coeffs <= half_range {
        evaluation_domain_size(num_coeffs)
    } else {
        None
    }
}

proof fn lemma_max_domain_is_power()
    ensures
        is_power_of_two(max_domain_size()),
{
    reveal_with_fuel(is_power_of_two, 34);
}

proof fn lemma_half_range_is_power()
    ensures
        is_power_of_two((usize::MAX / 2 + 1) as nat),
{
    reveal_with_fuel(is_power_of_two, 66);
    assert(usize::MAX == 0xffff_ffff || usize::MAX == 0xffff_ffff_ffff_ffff);
}

} // verus!
