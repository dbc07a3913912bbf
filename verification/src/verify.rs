//! The verifier's side: the randomness is derived again from public data,
//! the difference polynomial is committed to again, the zero-test is
//! checked, and the result is joined with the base protocol's verdict.

use crate::commit::{key_powers, CommitterKey};
use crate::error::Failure;
use crate::field::Fr;
use crate::poly::{longer, normalized};
use crate::poso::{derive_poso_rand, poso_randomness, SLOTS_PER_UNIT};
use crate::zerotest::{
    commit_to_diff, difference_polynomial, zero_test_commitment, zero_test_verdict,
    zero_test_verify, ZeroTestProof,
};
use vstd::prelude::*;

verus! {

/// How the base protocol's verification ended.
#[derive(Clone, Copy, Debug, PartialEq, Eq, Structural)]
pub enum BaseVerdict {
    /// The base proof is valid.
    Accepted,
    /// The base proof is invalid.
    Rejected,
    /// The base verification could not be performed.
    Failed,
}

/// The two outcomes joined: valid only if the zero-test holds and the base
/// protocol accepts; a base verification that could not run is an error, not
/// a `false`.
pub open spec fn combined(zero_test: bool, base: BaseVerdict) -> Result<bool, Failure> {
    match base {
        BaseVerdict::Accepted => Ok(zero_test),
        BaseVerdict::Rejected => Ok(false),
        BaseVerdict::Failed => Err(Failure::BaseProtocol),
    }
}

/// The rounds of the base protocol: a base proof holds the commitments and
/// the prover's message of each.
pub const BASE_ROUNDS: usize = 3;

/// Whether a base proof with so many rounds of commitments and of messages
/// has all the rounds that the base verifier reads.
pub fn has_all_rounds(commitment_rounds: usize, message_rounds: usize) -> (whole: bool)
    ensures
        whole <==> commitment_rounds >= BASE_ROUNDS && message_rounds >= BASE_ROUNDS,
{
    commitment_rounds >= BASE_ROUNDS && message_rounds >= BASE_ROUNDS
}

/// The verdict that the base verifier's outcome stands for. A proof that
/// lacks a round is not handed to the base verifier and cannot be judged; nor
/// can one on which the base verifier gave no answer.
pub open spec fn base_verdict_of(
    commitment_rounds: nat,
    message_rounds: nat,
    outcome: Option<bool>,
) -> BaseVerdict {
    if commitment_rounds < BASE_ROUNDS || message_rounds < BASE_ROUNDS {
        BaseVerdict::Failed
    } else {
        match outcome {
            Some(true) => BaseVerdict::Accepted,
            Some(false) => BaseVerdict::Rejected,
            None => BaseVerdict::Failed,
        }
    }
}

/// The base verdict for a proof of the given shape and the base verifier's
/// answer on it, if it gave one.
pub fn base_verdict(commitment_rounds: usize, message_rounds: usize, outcome: Option<bool>) -> (v:
    BaseVerdict)
    ensures
        v == base_verdict_of(commitment_rounds as nat, message_rounds as nat, outcome),
{
    if !has_all_rounds(commitment_rounds, message_rounds) {
        BaseVerdict::Failed
    } else {
        match outcome {
            Some(true) => BaseVerdict::Accepted,
            Some(false) => BaseVerdict::Rejected,
            None => BaseVerdict::Failed,
        }
    }
}

/// Joins the two checks.
pub fn combine(zero_test: bool, base: BaseVerdict) -> (r: Result<bool, Failure>)
    ensures
        r == combined(zero_test, base),
{
    match base {
        BaseVerdict::Accepted => Ok(zero_test),
        BaseVerdict::Rejected => Ok(false),
        BaseVerdict::Failed => Err(Failure::BaseProtocol),
    }
}

/// What verification gives: the first stage that cannot be performed, or
/// the conjunction of the zero-test and the base verdict.
pub open spec fn verification(
    ck: CommitterKey,
    verifying_key: Seq<u8>,
    public_input: Seq<Fr>,
    witness_commitment: Seq<u8>,
    poso_size: nat,
    stored: Seq<u8>,
    base: BaseVerdict,
) -> Result<bool, Failure> {
    let rand = poso_randomness(verifying_key, public_input, witness_commitment, poso_size);
    let offset = public_input.len() + 1;
    if poso_size * SLOTS_PER_UNIT as nat > usize::MAX {
        Err(Failure::MismatchedLengths)
    } else if offset > usize::MAX {
        Err(Failure::DomainTooLarge)
    } else if longer(normalized(difference_polynomial(rand)).len(), 1) > key_powers(ck) {
        Err(Failure::Commitment)
    } else {
        match zero_test_verdict(ck, rand, offset, stored) {
            Ok(z) => combined(z, base),
            Err(e) => Err(e),
        }
    }
}

/// Verifies a proof: `Ok(true)` for a valid one, `Ok(false)` for an invalid
/// one, an error where a stage could not be performed. The offset of the
/// randomised slots is the number of instance variables, one more than there
/// are public inputs.
pub fn verify(
    ck: &CommitterKey,
    verifying_key: &Vec<u8>,
    public_input: &Vec<Fr>,
    witness_commitment: &Vec<u8>,
    poso_size: usize,
    zero_test: &ZeroTestProof,
    base: BaseVerdict,
) -> (r: Result<bool, Failure>)
    ensures
        r == verification(
            *ck,
            verifying_key@,
            public_input@,
            witness_commitment@,
            poso_size as nat,
            zero_test.quotient_commitment@,
            base,
        ),
{
    if poso_size > usize::MAX / SLOTS_PER_UNIT {
        return Err(Failure::MismatchedLengths);
    }
    if public_input.len() == usize::MAX {
        return Err(Failure::DomainTooLarge);
    }
    let offset = public_input.len() + 1;
    let poso_rand = derive_poso_rand(verifying_key, public_input, witness_commitment, poso_size);
    match commit_to_diff(ck, &poso_rand) {
        Ok(_) => {},
        Err(e) => {
            return Err(e);
        },
    }
    match zero_test_verify(ck, &poso_rand, offset, zero_test) {
        Ok(z) => combine(z, base),
        Err(e) => Err(e),
    }
}

/// What an honest prover stored is accepted: if the verifier derives the
/// randomness from the same verifying key, public inputs and witness
/// commitment, can commit to the difference polynomial, and the base
/// protocol accepts, the verdict is `true`.
pub proof fn lemma_honest_proof_verifies(
    ck: CommitterKey,
    verifying_key: Seq<u8>,
    public_input: Seq<Fr>,
    witness_commitment: Seq<u8>,
    poso_size: nat,
)
    requires
        poso_size * SLOTS_PER_UNIT as nat <= usize::MAX,
        public_input.len() + 1 <= usize::MAX,
        longer(
            normalized(
                difference_polynomial(
                    poso_randomness(verifying_key, public_input, witness_commitment, poso_size),
                ),
            ).len(),
            1,
        ) <= key_powers(ck),
        zero_test_commitment(
            ck,
            poso_randomness(verifying_key, public_input, witness_commitment, poso_size),
            public_input.len() + 1,
        ).is_ok(),
    ensures
        verification(
            ck,
            verifying_key,
            public_input,
            witness_commitment,
            poso_size,
            zero_test_commitment(
                ck,
                poso_randomness(verifying_key, public_input, witness_commitment, poso_size),
                public_input.len() + 1,
            ).unwrap(),
            BaseVerdict::Accepted,
        ) == Ok::<bool, Failure>(true),
{
}

/// Round trip: what the prover prepared is valid for the verifier. Where the
/// verifier is given the witness commitment and the zero-test proof of a
/// prover's output, the public inputs of the prover's witness and the
/// prover's key, and the base protocol accepts, the verdict is `true`.
pub proof fn lemma_prover_output_verifies(
    out: crate::prove::ProverOutput,
    ck: CommitterKey,
    verifying_key: Seq<u8>,
    c: Seq<Seq<(Fr, usize)>>,
    num_non_zero: nat,
    witness: Seq<Fr>,
    num_inputs: nat,
    poso_size: nat,
)
    requires
        1 <= num_inputs <= witness.len(),
        witness.len() <= usize::MAX,
        poso_size * SLOTS_PER_UNIT as nat <= usize::MAX,
        out.is_prepared_from(ck, verifying_key, c, num_non_zero, witness, num_inputs, poso_size),
    ensures
        verification(
            ck,
            verifying_key,
            crate::witness::public_part(witness, num_inputs),
            out.witness_commitment@,
            poso_size,
            out.zero_test.quotient_commitment@,
            BaseVerdict::Accepted,
        ) == Ok::<bool, Failure>(true),
{
    assert(crate::witness::public_part(witness, num_inputs).len() + 1 == num_inputs);
}

/// The randomness has no trailing zero: every value is at least one, so the
/// difference polynomial has as many coefficients as there are values.
pub proof fn lemma_difference_polynomial_is_whole(
    verifying_key: Seq<u8>,
    public_input: Seq<Fr>,
    witness_commitment: Seq<u8>,
    poso_size: nat,
)
    ensures
        normalized(
            difference_polynomial(
                poso_randomness(verifying_key, public_input, witness_commitment, poso_size),
            ),
        ).len() == poso_size * SLOTS_PER_UNIT as nat,
{
    let rand = poso_randomness(verifying_key, public_input, witness_commitment, poso_size);
    let p = difference_polynomial(rand);
    if p.len() > 0 {
        assert(p.last() == rand[rand.len() - 1] as nat);
        assert(rand[rand.len() - 1] >= 1);
    }
}

/// The verdict does not depend on the witness commitment. The location
/// domain has no fewer points than the difference polynomial has
/// coefficients, so the quotient is zero whatever the randomness is: the
/// zero-test binds the number of the values and not the values. A changed
/// commitment changes the randomness and leaves the verdict as it was.
pub proof fn lemma_verdict_ignores_commitment(
    ck: CommitterKey,
    verifying_key: Seq<u8>,
    public_input: Seq<Fr>,
    first: Seq<u8>,
    second: Seq<u8>,
    poso_size: nat,
    stored: Seq<u8>,
    base: BaseVerdict,
)
    ensures
        verification(ck, verifying_key, public_input, first, poso_size, stored, base)
            == verification(ck, verifying_key, public_input, second, poso_size, stored, base),
{
    let offset = public_input.len() + 1;
    let a = poso_randomness(verifying_key, public_input, first, poso_size);
    let b = poso_randomness(verifying_key, public_input, second, poso_size);
    lemma_difference_polynomial_is_whole(verifying_key, public_input, first, poso_size);
    lemma_difference_polynomial_is_whole(verifying_key, public_input, second, poso_size);
    crate::zerotest::lemma_zero_test_quotient_is_zero(a, offset);
    crate::zerotest::lemma_zero_test_quotient_is_zero(b, offset);
    assert(a.len() == b.len());
}

/// Whatever the zero-test says, a proof that the base protocol rejects is
/// invalid, and one that it could not check is not judged.
pub proof fn lemma_base_verdict_decides(
    ck: CommitterKey,
    verifying_key: Seq<u8>,
    public_input: Seq<Fr>,
    witness_commitment: Seq<u8>,
    poso_size: nat,
    stored: Seq<u8>,
    base: BaseVerdict,
)
    ensures
        base == BaseVerdict::Rejected ==> verification(
            ck,
            verifying_key,
            public_input,
            witness_commitment,
            poso_size,
            stored,
            base,
        ) != Ok::<bool, Failure>(true),
        base == BaseVerdict::Failed ==> verification(
            ck,
            verifying_key,
            public_input,
            witness_commitment,
            poso_size,
            stored,
            base,
        ).is_err(),
{
}

/// With no unit to randomise, verification does not fail on the zero-test:
/// where the key holds a power and the location domain exists, the verdict
/// on the honest commitment is the base protocol's.
pub proof fn lemma_no_units_verifies(
    ck: CommitterKey,
    verifying_key: Seq<u8>,
    public_input: Seq<Fr>,
    witness_commitment: Seq<u8>,
    base: BaseVerdict,
)
    requires
        key_powers(ck) >= 1,
        public_input.len() + 1 <= crate::domain::max_domain_size(),
        crate::domain::ceil_power_of_two(public_input.len() + 1) <= usize::MAX,
    ensures
        verification(
            ck,
            verifying_key,
            public_input,
            witness_commitment,
            0,
            crate::commit::plain_commitment(ck, Seq::<nat>::empty()),
            base,
        ) == combined(true, base),
{
    crate::poso::lemma_no_units_no_randomness(verifying_key, public_input, witness_commitment);
    crate::zerotest::lemma_empty_randomness_verifies(ck, public_input.len() + 1);
    crate::domain::lemma_ceil_power_of_two(public_input.len() + 1);
    assert(difference_polynomial(Seq::<u16>::empty()) =~= Seq::<nat>::empty());
}

} // verus!
