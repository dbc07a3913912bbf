//! The zero-test: the randomness, read as the coefficients of a polynomial,
//! is divided by the vanishing polynomial of the location domain, and the
//! proof is the commitment to the quotient. The verifier derives the
//! randomness on its own, does the same, and compares.

use crate::commit::{commit_plain, key_powers, plain_commitment, CommitterKey};
use crate::domain::{ceil_power_of_two, domain_size, max_domain_size};
use crate::error::Failure;
use crate::field::{modulus, values, Fr};
use crate::poly::{
    divide_by_vanishing, is_reduced, lemma_division_of_short, longer, vanishing_quotient,
};
use vstd::prelude::*;

verus! {

/// The zero-test proof: one commitment, to the quotient polynomial.
#[derive(Clone, Debug)]
pub struct ZeroTestProof {
    pub quotient_commitment: Vec<u8>,
}

/// The randomness as polynomial coefficients, the first value the constant
/// term.
pub open spec fn difference_polynomial(rand: Seq<u16>) -> Seq<nat> {
    Seq::new(rand.len(), |i: int| rand[i] as nat)
}

/// The randomness as field elements.
pub fn difference_coefficients(poso_rand: &Vec<u16>) -> (d: Vec<Fr>)
    ensures
        values(d@) == difference_polynomial(poso_rand@),
{
    let mut d: Vec<Fr> = Vec::new();
    let mut i: usize = 0;
    while i < poso_rand.len()
        invariant
            i <= poso_rand@.len(),
            d@.len() == i,
            forall|j: int| 0 <= j < i ==> (#[trigger] d@[j]).value() == poso_rand@[j],
        decreases poso_rand@.len() - i,
    {
        d.push(Fr::from_u64(poso_rand[i] as u64));
        i += 1;
    }
    assert(values(d@) =~= difference_polynomial(poso_rand@));
    d
}

/// The commitment without blinding to the difference polynomial.
pub fn commit_to_diff(ck: &CommitterKey, poso_rand: &Vec<u16>) -> (r: Result<Vec<u8>, Failure>)
    ensures
        r.is_ok() <==> longer(
            crate::poly::normalized(difference_polynomial(poso_rand@)).len(),
            1,
        ) <= key_powers(*ck),
        r.is_ok() ==> r.unwrap()@ == plain_commitment(
            *ck,
            crate::poly::normalized(difference_polynomial(poso_rand@)),
        ),
        r.is_err() ==> r.unwrap_err() == Failure::Commitment,
{
    let d = difference_coefficients(poso_rand);
    commit_plain(ck, &d)
}

/// The number of location slots: the offset and one slot per value.
pub open spec fn location_slots(offset: nat, rand: Seq<u16>) -> nat {
    offset + rand.len()
}

/// The quotient of the difference polynomial by the vanishing polynomial of
/// the location domain.
pub open spec fn zero_test_quotient(rand: Seq<u16>, offset: nat) -> Seq<nat> {
    vanishing_quotient(
        difference_polynomial(rand),
        ceil_power_of_two(location_slots(offset, rand)),
    )
}

/// What an honest prover commits to for the given randomness: the
/// commitment to the quotient, unless the location domain does not exist or
/// the key is too small.
pub open spec fn zero_test_commitment(ck: CommitterKey, rand: Seq<u16>, offset: nat) -> Result<
    Seq<u8>,
    Failure,
> {
    let slots = location_slots(offset, rand);
    if slots > max_domain_size() || ceil_power_of_two(slots) > usize::MAX {
        Err(Failure::DomainTooLarge)
    } else if longer(zero_test_quotient(rand, offset).len(), 1) > key_powers(ck) {
        Err(Failure::Commitment)
    } else {
        Ok(plain_commitment(ck, zero_test_quotient(rand, offset)))
    }
}

/// What the verifier decides about a stored commitment: whether it is the
/// commitment that the randomness gives.
pub open spec fn zero_test_verdict(
    ck: CommitterKey,
    rand: Seq<u16>,
    offset: nat,
    stored: Seq<u8>,
) -> Result<bool, Failure> {
    match zero_test_commitment(ck, rand, offset) {
        Ok(expected) => Ok(expected == stored),
        Err(e) => Err(e),
    }
}

fn quotient_commitment(ck: &CommitterKey, poso_rand: &Vec<u16>, offset: usize) -> (r: Result<
    Vec<u8>,
    Failure,
>)
    ensures
        match r {
            Ok(c) => zero_test_commitment(*ck, poso_rand@, offset as nat) == Ok::<
                Seq<u8>,
                Failure,
            >(c@),
            Err(e) => zero_test_commitment(*ck, poso_rand@, offset as nat) == Err::<
                Seq<u8>,
                Failure,
            >(e),
        },
{
    if poso_rand.len() > usize::MAX - offset {
        proof {
            crate::domain::lemma_ceil_power_of_two(location_slots(offset as nat, poso_rand@));
        }
        return Err(Failure::DomainTooLarge);
    }
    let m = match domain_size(offset + poso_rand.len()) {
        Some(m) => m,
        None => {
            return Err(Failure::DomainTooLarge);
        },
    };
    let diff = difference_coefficients(poso_rand);
    let (quotient, _) = divide_by_vanishing(&diff, m);
    proof {
        crate::poly::lemma_normalized(values(quotient@));
    }
    commit_plain(ck, &quotient)
}

/// Proves the zero-test for the given randomness.
pub fn zero_test_prove(ck: &CommitterKey, poso_rand: &Vec<u16>, offset: usize) -> (r: Result<
    ZeroTestProof,
    Failure,
>)
    ensures
        match r {
            Ok(proof) => zero_test_commitment(*ck, poso_rand@, offset as nat) == Ok::<
                Seq<u8>,
                Failure,
            >(proof.quotient_commitment@),
            Err(e) => zero_test_commitment(*ck, poso_rand@, offset as nat) == Err::<
                Seq<u8>,
                Failure,
            >(e),
        },
{
    match quotient_commitment(ck, poso_rand, offset) {
        Ok(c) => Ok(ZeroTestProof { quotient_commitment: c }),
        Err(e) => Err(e),
    }
}

/// Whether two byte strings are the same.
pub fn same_bytes(a: &Vec<u8>, b: &Vec<u8>) -> (same: bool)
    ensures
        same <==> a@ == b@,
{
    if a.len() != b.len() {
        return false;
    }
    let mut i: usize = 0;
    while i < a.len()
        invariant
            i <= a@.len(),
            a@.len() == b@.len(),
            forall|j: int| 0 <= j < i ==> a@[j] == b@[j],
        decreases a@.len() - i,
    {
        if a[i] != b[i] {
            return false;
        }
        i += 1;
    }
    assert(a@ =~= b@);
    true
}

/// Checks a zero-test proof against the randomness that the verifier
/// derived: the quotient is computed and committed to again, and the proof
/// holds if it stores that commitment.
pub fn zero_test_verify(
    ck: &CommitterKey,
    poso_rand: &Vec<u16>,
    offset: usize,
    proof: &ZeroTestProof,
) -> (r: Result<bool, Failure>)
    ensures
        r == zero_test_verdict(*ck, poso_rand@, offset as nat, proof.quotient_commitment@),
{
    match quotient_commitment(ck, poso_rand, offset) {
        Ok(c) => Ok(same_bytes(&c, &proof.quotient_commitment)),
        Err(e) => Err(e),
    }
}

/// The verifier accepts what an honest prover produced from the same
/// randomness.
pub proof fn lemma_zero_test_complete(ck: CommitterKey, rand: Seq<u16>, offset: nat)
    requires
        zero_test_commitment(ck, rand, offset).is_ok(),
    ensures
        zero_test_verdict(ck, rand, offset, zero_test_commitment(ck, rand, offset).unwrap())
            == Ok::<bool, Failure>(true),
{
}

/// The difference polynomial has no more coefficients than the location
/// domain has points, so the quotient is the zero polynomial whatever the
/// randomness is.
pub proof fn lemma_zero_test_quotient_is_zero(rand: Seq<u16>, offset: nat)
    ensures
        zero_test_quotient(rand, offset) == Seq::<nat>::empty(),
{
    let p = difference_polynomial(rand);
    let m = ceil_power_of_two(location_slots(offset, rand));
    crate::domain::lemma_ceil_power_of_two(location_slots(offset, rand));
    assert(is_reduced(p)) by {
        assert forall|i: int| 0 <= i < p.len() implies #[trigger] p[i] < modulus() by {
            assert(p[i] == rand[i] as nat);
        }
    }
    lemma_division_of_short(p, m);
}

/// With no randomness at all the zero-test still goes through: where the
/// location domain exists and the key holds a power, the prover's commitment
/// is the one to the zero polynomial, and the verifier accepts it.
pub proof fn lemma_empty_randomness_verifies(ck: CommitterKey, offset: nat)
    requires
        offset <= max_domain_size(),
        ceil_power_of_two(offset) <= usize::MAX,
        key_powers(ck) >= 1,
    ensures
        zero_test_commitment(ck, Seq::<u16>::empty(), offset) == Ok::<Seq<u8>, Failure>(
            plain_commitment(ck, Seq::<nat>::empty()),
        ),
        zero_test_verdict(
            ck,
            Seq::<u16>::empty(),
            offset,
            plain_commitment(ck, Seq::<nat>::empty()),
        ) == Ok::<bool, Failure>(true),
{
    lemma_zero_test_quotient_is_zero(Seq::<u16>::empty(), offset);
}

} // verus!
