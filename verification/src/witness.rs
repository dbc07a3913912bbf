//! The private-witness polynomial: the witness laid out over the constraint
//! domain, made to vanish on the instance domain, blinded, and divided by the
//! instance domain's vanishing polynomial.

use crate::domain::{
    ceil_power_of_two, domain_fft, domain_ifft, domain_size, fft_evaluations, ifft_coefficients,
    is_power_of_two, lemma_powers_of_two_divide, max_domain_size,
};
use crate::error::Failure;
use crate::field::{field_difference, field_sum, modulus, values, Fr};
use crate::poly::{
    coefficient, divide_by_vanishing, lemma_division_found, lemma_normalized, normalized, poly_add,
    poly_scaled_vanishing, poly_sum, scaled_vanishing, vanishing_quotient, vanishing_remainder,
};
use vstd::prelude::*;

verus! {

/// The public inputs of a witness: what follows the leading one, up to the
/// number of instance variables.
pub open spec fn public_part(witness: Seq<Fr>, num_inputs: nat) -> Seq<Fr> {
    witness.subrange(1, num_inputs as int)
}

/// The public inputs, if the witness holds that many instance variables.
pub fn public_inputs(witness: &Vec<Fr>, num_inputs: usize) -> (r: Result<Vec<Fr>, Failure>)
    ensures
        r.is_ok() <==> 1 <= num_inputs <= witness@.len(),
        r.is_ok() ==> r.unwrap()@ == public_part(witness@, num_inputs as nat),
        r.is_err() ==> r.unwrap_err() == Failure::MalformedWitness,
{
    if num_inputs == 0 || num_inputs > witness.len() {
        return Err(Failure::MalformedWitness);
    }
    let mut out: Vec<Fr> = Vec::new();
    let mut i: usize = 1;
    while i < num_inputs
        invariant
            1 <= i <= num_inputs <= witness@.len(),
            out@ == witness@.subrange(1, i as int),
        decreases num_inputs - i,
    {
        out.push(witness[i]);
        i += 1;
        assert(out@ =~= witness@.subrange(1, i as int));
    }
    Ok(out)
}

/// The value that the witness polynomial takes at point `k` of the
/// constraint domain of size `h`, over an instance domain of size `x`.
pub open spec fn witness_evaluation(
    witness: Seq<nat>,
    public: Seq<nat>,
    ratio: int,
    k: int,
) -> nat {
    if k % ratio == 0 {
        0
    } else {
        field_difference(coefficient(witness, k - k / ratio - 1), public[k])
    }
}

/// The witness polynomial's evaluations over the constraint domain.
pub open spec fn witness_evaluations(witness: Seq<Fr>, num_inputs: nat, h: nat, x: nat) -> Seq<
    nat,
> {
    let public = fft_evaluations(h, values(public_part(witness, num_inputs)));
    Seq::new(h, |k: int| witness_evaluation(values(witness), public, (h / x) as int, k))
}

/// The interpolated witness polynomial plus `blind` times the constraint
/// domain's vanishing polynomial.
pub open spec fn blinded_witness(
    witness: Seq<Fr>,
    num_inputs: nat,
    h: nat,
    x: nat,
    blind: nat,
) -> Seq<nat> {
    poly_sum(
        ifft_coefficients(h, witness_evaluations(witness, num_inputs, h, x)),
        scaled_vanishing(blind, h),
    )
}

/// The sizes for which the construction is defined: the witness covers the
/// instance variables, both domains exist, the instance domain is no larger
/// than the constraint domain, and the blinding product fits a domain.
pub open spec fn construction_error(
    witness_len: nat,
    num_inputs: nat,
    num_constraints: nat,
) -> Option<Failure> {
    let h = ceil_power_of_two(num_constraints);
    let x = ceil_power_of_two(num_inputs);
    if num_inputs == 0 || num_inputs > witness_len {
        Some(Failure::MalformedWitness)
    } else if num_constraints > max_domain_size() || num_inputs > max_domain_size() || h
        > usize::MAX || x > usize::MAX || 2 * h > max_domain_size() {
        Some(Failure::DomainTooLarge)
    } else if x > h {
        Some(Failure::DomainMismatch)
    } else {
        None
    }
}

/// The two domain sizes, constraint domain first, or the error that the
/// sizes give.
pub fn construction_domains(witness_len: usize, num_inputs: usize, num_constraints: usize) -> (r:
    Result<(usize, usize), Failure>)
    ensures
        match r {
            Ok((h, x)) => {
                &&& construction_error(
                    witness_len as nat,
                    num_inputs as nat,
                    num_constraints as nat,
                ).is_none()
                &&& h == ceil_power_of_two(num_constraints as nat)
                &&& x == ceil_power_of_two(num_inputs as nat)
                &&& is_power_of_two(h as nat)
                &&& is_power_of_two(x as nat)
                &&& 1 <= x <= h
                &&& 2 * h <= max_domain_size()
            },
            Err(e) => construction_error(
                witness_len as nat,
                num_inputs as nat,
                num_constraints as nat,
            ) == Some(e),
        },
{
    if num_inputs == 0 || num_inputs > witness_len {
        return Err(Failure::MalformedWitness);
    }
    let h = match domain_size(num_constraints) {
        Some(h) => h,
        None => {
            return Err(Failure::DomainTooLarge);
        },
    };
    let x = match domain_size(num_inputs) {
        Some(x) => x,
        None => {
            return Err(Failure::DomainTooLarge);
        },
    };
    if h as u64 > 0x8000_0000u64 {
        return Err(Failure::DomainTooLarge);
    }
    if x > h {
        return Err(Failure::DomainMismatch);
    }
    Ok((h, x))
}

/// The evaluations of the witness polynomial over the constraint domain:
/// zero at the points aligned with the instance domain, and elsewhere the
/// private witness value less the public-input polynomial.
pub fn witness_evaluations_on_domain(
    witness: &Vec<Fr>,
    num_inputs: usize,
    num_constraints: usize,
) -> (r: Result<Vec<Fr>, Failure>)
    ensures
        match r {
            Ok(evals) => {
                &&& construction_error(
                    witness@.len(),
                    num_inputs as nat,
                    num_constraints as nat,
                ).is_none()
                &&& values(evals@) == witness_evaluations(
                    witness@,
                    num_inputs as nat,
                    ceil_power_of_two(num_constraints as nat),
                    ceil_power_of_two(num_inputs as nat),
                )
            },
            Err(e) => construction_error(witness@.len(), num_inputs as nat, num_constraints as nat)
                == Some(e),
        },
{
    let (h, x) = match construction_domains(witness.len(), num_inputs, num_constraints) {
        Ok(d) => d,
        Err(e) => {
            return Err(e);
        },
    };
    let public = match public_inputs(witness, num_inputs) {
        Ok(p) => p,
        Err(e) => {
            return Err(e);
        },
    };
    let public_evals = domain_fft(h, &public);
    let ratio = h / x;
    proof {
        lemma_powers_of_two_divide(x as nat, h as nat);
    }
    let ghost target = witness_evaluations(witness@, num_inputs as nat, h as nat, x as nat);
    let mut evals: Vec<Fr> = Vec::new();
    let mut k: usize = 0;
    while k < h
        invariant
            k <= h,
            ratio >= 1,
            ratio == h as nat / x as nat,
            public_evals@.len() == h,
            values(public_evals@) == fft_evaluations(
                h as nat,
                values(public_part(witness@, num_inputs as nat)),
            ),
            target == witness_evaluations(witness@, num_inputs as nat, h as nat, x as nat),
            evals@.len() == k,
            forall|i: int| 0 <= i < k ==> (#[trigger] evals@[i]).value() == target[i],
        decreases h - k,
    {
        let value = if k % ratio == 0 {
            Fr::zero()
        } else {
            let q = k / ratio;
            assert(k >= 1 && ratio >= 2) by (nonlinear_arith)
                requires
                    ratio >= 1,
                    k % ratio != 0,
            ;
            assert(q < k) by (nonlinear_arith)
                requires
                    q == k / ratio,
                    ratio >= 2,
                    k >= 1,
            ;
            let index = k - q - 1;
            let entry = if index < witness.len() {
                witness[index]
            } else {
                Fr::zero()
            };
            assert(entry.value() == coefficient(values(witness@), index as int));
            assert(values(public_evals@)[k as int] == public_evals@[k as int].value());
            entry.minus(&public_evals[k])
        };
        evals.push(value);
        k += 1;
    }
    assert(values(evals@) =~= target);
    Ok(evals)
}

/// What the construction gives: the error of the sizes, or the quotient of
/// the blinded interpolation by the instance domain's vanishing polynomial
/// where that division is exact, and its refusal where it is not.
pub open spec fn witness_polynomial_of(
    witness: Seq<Fr>,
    num_inputs: nat,
    num_constraints: nat,
    blind: nat,
) -> Result<Seq<nat>, Failure> {
    let h = ceil_power_of_two(num_constraints);
    let x = ceil_power_of_two(num_inputs);
    let blinded = blinded_witness(witness, num_inputs, h, x, blind);
    match construction_error(witness.len(), num_inputs, num_constraints) {
        Some(e) => Err(e),
        None => if vanishing_remainder(blinded, x).len() == 0 {
            Ok(vanishing_quotient(blinded, x))
        } else {
            Err(Failure::NonZeroRemainder)
        },
    }
}

/// Whether the construction succeeds does not depend on the blinding: the
/// blinding term is a multiple of the constraint domain's vanishing
/// polynomial, which the instance domain's vanishing polynomial divides. The
/// construction is exact if and only if the interpolated polynomial folds to
/// zero at each place of the instance domain.
pub proof fn lemma_blinding_does_not_decide(
    witness: Seq<Fr>,
    num_inputs: nat,
    num_constraints: nat,
    first: nat,
    second: nat,
)
    requires
        first < modulus(),
        second < modulus(),
    ensures
        witness_polynomial_of(witness, num_inputs, num_constraints, first).is_ok()
            == witness_polynomial_of(witness, num_inputs, num_constraints, second).is_ok(),
        match witness_polynomial_of(witness, num_inputs, num_constraints, first) {
            Ok(_) => true,
            Err(e) => witness_polynomial_of(witness, num_inputs, num_constraints, second) == Err::<
                Seq<nat>,
                Failure,
            >(e),
        },
        construction_error(witness.len(), num_inputs, num_constraints).is_none() ==> (
        witness_polynomial_of(witness, num_inputs, num_constraints, first).is_ok() <==> forall|
            t: int,
        |
            0 <= t < ceil_power_of_two(num_inputs) ==> #[trigger] crate::poly::folded(
                ifft_coefficients(
                    ceil_power_of_two(num_constraints),
                    witness_evaluations(
                        witness,
                        num_inputs,
                        ceil_power_of_two(num_constraints),
                        ceil_power_of_two(num_inputs),
                    ),
                ),
                ceil_power_of_two(num_inputs),
                t,
            ) == 0),
{
    if construction_error(witness.len(), num_inputs, num_constraints).is_none() {
        let h = ceil_power_of_two(num_constraints);
        let x = ceil_power_of_two(num_inputs);
        crate::domain::lemma_ceil_power_of_two(num_constraints);
        crate::domain::lemma_ceil_power_of_two(num_inputs);
        lemma_powers_of_two_divide(x, h);
        let interpolated = ifft_coefficients(h, witness_evaluations(witness, num_inputs, h, x));
        crate::poly::lemma_blinding_keeps_remainder(interpolated, first, h, x);
        crate::poly::lemma_blinding_keeps_remainder(interpolated, second, h, x);
        crate::poly::lemma_exact_division(interpolated, x);
    }
}

/// The witness polynomial: the quotient of the blinded interpolation by the
/// instance domain's vanishing polynomial. The division must leave no
/// remainder; if it does, the construction is refused.
pub fn witness_polynomial(
    witness: &Vec<Fr>,
    num_inputs: usize,
    num_constraints: usize,
    blind: &Fr,
) -> (r: Result<Vec<Fr>, Failure>)
    ensures
        match r {
            Ok(w) => witness_polynomial_of(
                witness@,
                num_inputs as nat,
                num_constraints as nat,
                blind.value(),
            ) == Ok::<Seq<nat>, Failure>(values(w@)),
            Err(e) => witness_polynomial_of(
                witness@,
                num_inputs as nat,
                num_constraints as nat,
                blind.value(),
            ) == Err::<Seq<nat>, Failure>(e),
        },
{
    let evals = match witness_evaluations_on_domain(witness, num_inputs, num_constraints) {
        Ok(e) => e,
        Err(e) => {
            return Err(e);
        },
    };
    let (h, x) = match construction_domains(witness.len(), num_inputs, num_constraints) {
        Ok(d) => d,
        Err(e) => {
            return Err(e);
        },
    };
    let interpolated = domain_ifft(h, &evals);
    let blinding = poly_scaled_vanishing(blind, h);
    let blinded = poly_add(&interpolated, &blinding);
    let (quotient, remainder) = divide_by_vanishing(&blinded, x);
    proof {
        let spec_blinded = blinded_witness(
            witness@,
            num_inputs as nat,
            h as nat,
            x as nat,
            blind.value(),
        );
        lemma_normalized(spec_blinded);
        assert(values(blinded@) == normalized(spec_blinded));
        assert forall|t: int| 0 <= t implies #[trigger] coefficient(spec_blinded, t) % modulus()
            == field_sum(
            field_difference(
                coefficient(values(quotient@), t - x),
                coefficient(values(quotient@), t),
            ),
            coefficient(values(remainder@), t),
        ) by {
            assert(coefficient(values(blinded@), t) == coefficient(spec_blinded, t));
        }
        lemma_division_found(spec_blinded, x as nat, values(quotient@), values(remainder@));
    }
    if remainder.len() == 0 {
        Ok(quotient)
    } else {
        Err(Failure::NonZeroRemainder)
    }
}

} // verus!
