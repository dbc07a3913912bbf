//! The polynomial commitment scheme, as far as this protocol uses it:
//! committing to a polynomial under a committer key.

use crate::error::Failure;
use crate::field::{values, Fr};
use crate::poly::{longer, normalized};
use ark_bls12_381::{Bls12_381, Fr as Scalar};
use ark_ff::{BigInteger256, PrimeField, ToBytes};
use ark_poly::univariate::DensePolynomial;
use ark_poly::UVPolynomial;
use ark_poly_commit::marlin_pc::MarlinKZG10;
use ark_poly_commit::{LabeledPolynomial, PolynomialCommitment};
use rand::rngs::StdRng;
use vstd::prelude::*;

verus! {

/// The committer key of the KZG-based scheme over BLS12-381. Its own
/// declaration is bounded by a trait that cannot be named here, so it is held
/// whole and seen only through `key_powers` and `plain_commitment`.
#[verifier::external_body]
pub struct CommitterKey {
    pub inner: ark_poly_commit::marlin_pc::CommitterKey<Bls12_381>,
}

/// Why the scheme refused to commit.
#[verifier::external_type_specification]
#[verifier::external_body]
pub struct ExCommitError(ark_poly_commit::Error);

/// The number of powers that the key holds: it commits to polynomials with
/// at most that many coefficients.
pub uninterp spec fn key_powers(ck: CommitterKey) -> nat;

/// The encoding of the commitment without blinding to the polynomial with
/// the given coefficients, none of them a trailing zero.
pub uninterp spec fn plain_commitment(ck: CommitterKey, coeffs: Seq<nat>) -> Seq<u8>;

/// The hiding bound of a blinded commitment: the number of evaluations that
/// the commitment hides. The blinding polynomial has a degree one above the
/// bound, so two coefficients more than the bound.
pub const HIDING_BOUND: usize = 1;

/// `MarlinKZG10::commit` of one polynomial without degree bound, followed by
/// `ToBytes::write` of the commitment. A polynomial with more coefficients
/// than the key has powers is refused (the zero polynomial counts as one
/// coefficient). With a hiding bound the commitment is blinded by a random
/// polynomial drawn from the generator, which must then be there, and
/// nothing more is known of the result. Without one the generator is not
/// drawn from, nothing else is refused, and the commitment is a function of
/// key and polynomial.
#[verifier::external_body]
fn commit(
    ck: &CommitterKey,
    coeffs: &Vec<Fr>,
    hiding_bound: Option<usize>,
    rng: Option<&mut StdRng>,
) -> (r: Result<Vec<u8>, ark_poly_commit::Error>)
    requires
        hiding_bound.is_some() ==> hiding_bound.unwrap() < usize::MAX,
        hiding_bound.is_some() ==> rng.is_some(),
    ensures
        r.is_ok() ==> longer(normalized(values(coeffs@)).len(), 1) <= key_powers(*ck),
        hiding_bound.is_none() ==> (r.is_ok() <==> longer(normalized(values(coeffs@)).len(), 1)
            <= key_powers(*ck)),
        hiding_bound.is_none() && r.is_ok() ==> r.unwrap()@ == plain_commitment(
            *ck,
            normalized(values(coeffs@)),
        ),
{
    let to = |f: &Fr| Scalar::from_repr(BigInteger256([f.l0, f.l1, f.l2, f.l3])).unwrap();
    let p = DensePolynomial::from_coefficients_vec(coeffs.iter().map(to).collect());
    let p = LabeledPolynomial::new("p".to_string(), p, None, hiding_bound);
    let rng = rng.map(|g| g as &mut dyn rand::RngCore);
    let (c, _) = MarlinKZG10::<Bls12_381, DensePolynomial<Scalar>>::commit(&ck.inner, [&p], rng)?;
    let mut out = Vec::new();
    c[0].write(&mut out).unwrap();
    Ok(out)
}

/// A commitment without blinding: the same polynomial under the same key
/// always gives the same bytes.
pub fn commit_plain(ck: &CommitterKey, coeffs: &Vec<Fr>) -> (r: Result<Vec<u8>, Failure>)
    ensures
        r.is_ok() <==> longer(normalized(values(coeffs@)).len(), 1) <= key_powers(*ck),
        r.is_ok() ==> r.unwrap()@ == plain_commitment(*ck, normalized(values(coeffs@))),
        r.is_err() ==> r.unwrap_err() == Failure::Commitment,
{
    match commit(ck, coeffs, None, None) {
        Ok(bytes) => Ok(bytes),
        Err(_) => Err(Failure::Commitment),
    }
}

/// A blinded commitment, with the hiding bound `HIDING_BOUND`: the same
/// polynomial commits differently from run to run.
pub fn commit_hiding(ck: &CommitterKey, coeffs: &Vec<Fr>, rng: &mut StdRng) -> (r: Result<
    Vec<u8>,
    Failure,
>)
    ensures
        r.is_ok() ==> longer(normalized(values(coeffs@)).len(), 1) <= key_powers(*ck),
        r.is_err() ==> r.unwrap_err() == Failure::Commitment,
{
    match commit(ck, coeffs, Some(HIDING_BOUND), Some(rng)) {
        Ok(bytes) => Ok(bytes),
        Err(_) => Err(Failure::Commitment),
    }
}

} // verus!
