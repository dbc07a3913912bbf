//! The prover's side: witness polynomial, its commitment, the randomness
//! derived from it, the randomised witness, the patched key and the
//! zero-test proof. The base protocol then proves with the patched key and
//! the randomised witness.

use crate::commit::{commit_hiding, key_powers, plain_commitment, CommitterKey};
use crate::domain::ceil_power_of_two;
use crate::error::Failure;
use crate::field::{modulus, values, Fr};
use crate::patch::{is_patch_of, patch_error, patch_key, rows, PatchedKey};
use crate::poso::{
    derive_poso_rand, poso_randomness, randomization_error, randomize_witness, randomized_witness,
    SLOTS_PER_UNIT,
};
use crate::poly::{longer, normalized};
use crate::witness::{
    lemma_blinding_does_not_decide, public_inputs, public_part, witness_polynomial,
    witness_polynomial_of,
};
use crate::zerotest::{
    commit_to_diff, difference_polynomial, zero_test_commitment, zero_test_prove, ZeroTestProof,
};
use rand::rngs::StdRng;
use vstd::prelude::*;

verus! {

/// What the prover has once its own part is done.
pub struct ProverOutput {
    /// The blinded commitment to the witness polynomial.
    pub witness_commitment: Vec<u8>,
    /// The randomness derived from the transcript.
    pub poso_rand: Vec<u16>,
    /// The witness with the randomness applied.
    pub witness: Vec<Fr>,
    /// The key patched for this proof.
    pub key: PatchedKey,
    /// The commitment without blinding to the difference polynomial.
    pub difference_commitment: Vec<u8>,
    /// The zero-test proof over the randomness.
    pub zero_test: ZeroTestProof,
}

/// The randomness that the prover derives once the witness commitment is
/// known.
pub open spec fn prover_randomness(
    verifying_key: Seq<u8>,
    witness: Seq<Fr>,
    num_inputs: nat,
    witness_commitment: Seq<u8>,
    poso_size: nat,
) -> Seq<u16> {
    poso_randomness(
        verifying_key,
        public_part(witness, num_inputs),
        witness_commitment,
        poso_size,
    )
}

/// Why the steps after the commitment cannot be done, if they cannot: the
/// first of them that refuses, in the order in which they are taken.
pub open spec fn preparation_error(
    ck: CommitterKey,
    c: Seq<Seq<(Fr, usize)>>,
    num_non_zero: nat,
    witness_len: nat,
    num_inputs: nat,
    poso_size: nat,
    rand: Seq<u16>,
) -> Option<Failure> {
    if num_inputs == 0 || num_inputs > witness_len {
        Some(Failure::MalformedWitness)
    } else if poso_size * SLOTS_PER_UNIT as nat > usize::MAX {
        Some(Failure::MismatchedLengths)
    } else if randomization_error(witness_len, num_inputs, poso_size, rand).is_some() {
        randomization_error(witness_len, num_inputs, poso_size, rand)
    } else if patch_error(c, poso_size, rand, num_non_zero).is_some() {
        patch_error(c, poso_size, rand, num_non_zero)
    } else if longer(normalized(difference_polynomial(rand)).len(), 1) > key_powers(ck) {
        Some(Failure::Commitment)
    } else {
        match zero_test_commitment(ck, rand, num_inputs) {
            Ok(_) => None,
            Err(e) => Some(e),
        }
    }
}

impl ProverOutput {
    /// Every part is what the protocol prescribes for the commitment that
    /// the output carries.
    pub open spec fn is_prepared_from(
        self,
        ck: CommitterKey,
        verifying_key: Seq<u8>,
        c: Seq<Seq<(Fr, usize)>>,
        num_non_zero: nat,
        witness: Seq<Fr>,
        num_inputs: nat,
        poso_size: nat,
    ) -> bool {
        &&& self.poso_rand@ == prover_randomness(
            verifying_key,
            witness,
            num_inputs,
            self.witness_commitment@,
            poso_size,
        )
        &&& values(self.witness@) == randomized_witness(
            values(witness),
            num_inputs,
            self.poso_rand@,
        )
        &&& forall|k: int|
            0 <= k < witness.len() && !(num_inputs <= k < num_inputs + self.poso_rand@.len())
                ==> #[trigger] self.witness@[k] == witness[k]
        &&& is_patch_of(c, rows(self.key.c@), poso_size, self.poso_rand@)
        &&& self.key.consistent(ceil_power_of_two(num_non_zero))
        &&& longer(normalized(difference_polynomial(self.poso_rand@)).len(), 1) <= key_powers(ck)
        &&& self.difference_commitment@ == plain_commitment(
            ck,
            normalized(difference_polynomial(self.poso_rand@)),
        )
        &&& zero_test_commitment(ck, self.poso_rand@, num_inputs) == Ok::<Seq<u8>, Failure>(
            self.zero_test.quotient_commitment@,
        )
    }
}

/// The prover's steps once the witness commitment is there: derive the
/// randomness, apply it to the witness, patch the key, commit to the
/// difference polynomial, prove the zero-test. Any step that refuses ends the
/// proof; nothing partial is handed out.
pub fn prepare(
    ck: &CommitterKey,
    verifying_key: &Vec<u8>,
    c: &Vec<Vec<(Fr, usize)>>,
    num_non_zero: usize,
    witness: &Vec<Fr>,
    num_inputs: usize,
    poso_size: usize,
    witness_commitment: Vec<u8>,
) -> (r: Result<ProverOutput, Failure>)
    ensures
        match r {
            Ok(out) => {
                &&& out.witness_commitment@ == witness_commitment@
                &&& preparation_error(
                    *ck,
                    rows(c@),
                    num_non_zero as nat,
                    witness@.len(),
                    num_inputs as nat,
                    poso_size as nat,
                    out.poso_rand@,
                ).is_none()
                &&& out.is_prepared_from(
                    *ck,
                    verifying_key@,
                    rows(c@),
                    num_non_zero as nat,
                    witness@,
                    num_inputs as nat,
                    poso_size as nat,
                )
            },
            Err(e) => preparation_error(
                *ck,
                rows(c@),
                num_non_zero as nat,
                witness@.len(),
                num_inputs as nat,
                poso_size as nat,
                prover_randomness(
                    verifying_key@,
                    witness@,
                    num_inputs as nat,
                    witness_commitment@,
                    poso_size as nat,
                ),
            ) == Some(e),
        },
{
    let public = match public_inputs(witness, num_inputs) {
        Ok(p) => p,
        Err(e) => {
            return Err(e);
        },
    };
    if poso_size > usize::MAX / SLOTS_PER_UNIT {
        return Err(Failure::MismatchedLengths);
    }
    let poso_rand = derive_poso_rand(verifying_key, &public, &witness_commitment, poso_size);
    let new_witness = match randomize_witness(witness, num_inputs, poso_size, &poso_rand) {
        Ok(w) => w,
        Err(e) => {
            return Err(e);
        },
    };
    let key = match patch_key(c, poso_size, &poso_rand, num_non_zero) {
        Ok(k) => k,
        Err(e) => {
            return Err(e);
        },
    };
    let difference_commitment = match commit_to_diff(ck, &poso_rand) {
        Ok(c) => c,
        Err(e) => {
            return Err(e);
        },
    };
    let zero_test = match zero_test_prove(ck, &poso_rand, num_inputs) {
        Ok(p) => p,
        Err(e) => {
            return Err(e);
        },
    };
    Ok(
        ProverOutput {
            witness_commitment,
            poso_rand,
            witness: new_witness,
            key,
            difference_commitment,
            zero_test,
        },
    )
}

/// The prover: builds and commits to the witness polynomial under fresh
/// blinding, and goes on as `prepare` says. Whether the witness polynomial
/// can be built does not depend on the blinding drawn: where the sizes rule
/// it out, or the division leaves a remainder, the proof is refused with
/// that error, and only then. After that the outcome depends on the
/// commitment drawn.
pub fn prove(
    ck: &CommitterKey,
    verifying_key: &Vec<u8>,
    c: &Vec<Vec<(Fr, usize)>>,
    num_constraints: usize,
    num_non_zero: usize,
    witness: &Vec<Fr>,
    num_inputs: usize,
    poso_size: usize,
    rng: &mut StdRng,
) -> (r: Result<ProverOutput, Failure>)
    ensures
        match witness_polynomial_of(witness@, num_inputs as nat, num_constraints as nat, 0) {
            Ok(_) => true,
            Err(e) => r == Err::<ProverOutput, Failure>(e),
        },
        match r {
            Ok(out) => {
                &&& witness_polynomial_of(
                    witness@,
                    num_inputs as nat,
                    num_constraints as nat,
                    0,
                ).is_ok()
                &&& preparation_error(
                    *ck,
                    rows(c@),
                    num_non_zero as nat,
                    witness@.len(),
                    num_inputs as nat,
                    poso_size as nat,
                    out.poso_rand@,
                ).is_none()
                &&& out.is_prepared_from(
                    *ck,
                    verifying_key@,
                    rows(c@),
                    num_non_zero as nat,
                    witness@,
                    num_inputs as nat,
                    poso_size as nat,
                )
            },
            Err(e) => {
                ||| witness_polynomial_of(witness@, num_inputs as nat, num_constraints as nat, 0)
                    == Err::<Seq<nat>, Failure>(e)
                ||| e == Failure::Commitment
                ||| exists|commitment: Seq<u8>|
                    #[trigger] preparation_error(
                        *ck,
                        rows(c@),
                        num_non_zero as nat,
                        witness@.len(),
                        num_inputs as nat,
                        poso_size as nat,
                        prover_randomness(
                            verifying_key@,
                            witness@,
                            num_inputs as nat,
                            commitment,
                            poso_size as nat,
                        ),
                    ) == Some(e)
            },
        },
{
    let blind = Fr::random(rng);
    proof {
        assert(0 < modulus());
        lemma_blinding_does_not_decide(
            witness@,
            num_inputs as nat,
            num_constraints as nat,
            blind.value(),
            0,
        );
        lemma_blinding_does_not_decide(
            witness@,
            num_inputs as nat,
            num_constraints as nat,
            0,
            blind.value(),
        );
    }
    let polynomial = match witness_polynomial(witness, num_inputs, num_constraints, &blind) {
        Ok(p) => p,
        Err(e) => {
            return Err(e);
        },
    };
    let witness_commitment = match commit_hiding(ck, &polynomial, rng) {
        Ok(c) => c,
        Err(e) => {
            return Err(e);
        },
    };
    prepare(
        ck,
        verifying_key,
        c,
        num_non_zero,
        witness,
        num_inputs,
        poso_size,
        witness_commitment,
    )
}

} // verus!
