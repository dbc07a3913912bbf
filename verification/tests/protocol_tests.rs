use ark_bls12_381::Bls12_381;
use ark_poly::univariate::DensePolynomial;
use ark_poly_commit::marlin_pc::MarlinKZG10;
use ark_poly_commit::PolynomialCommitment;
use packmarlin::commit::{commit_hiding, commit_plain, CommitterKey};
use packmarlin::error::Failure;
use packmarlin::field::Fr;
use packmarlin::poly::{divide_by_vanishing, normalize};
use packmarlin::poso::{derive_poso_rand, randomize_witness};
use packmarlin::prove::{prepare, prove};
use packmarlin::verify::{base_verdict, combine, has_all_rounds, verify, BaseVerdict};
use packmarlin::witness::public_inputs;
use packmarlin::zerotest::{
    commit_to_diff, difference_coefficients, zero_test_prove, zero_test_verify, ZeroTestProof,
};
use rand::rngs::StdRng;
use rand::SeedableRng;

fn committer_key(powers: usize) -> CommitterKey {
    let mut rng = StdRng::seed_from_u64(11);
    let pp = MarlinKZG10::<Bls12_381, DensePolynomial<ark_bls12_381::Fr>>::setup(
        powers.max(4),
        None,
        &mut rng,
    )
    .unwrap();
    let (ck, _) =
        MarlinKZG10::<Bls12_381, DensePolynomial<ark_bls12_381::Fr>>::trim(&pp, powers - 1, 1, None)
            .unwrap();
    assert_eq!(ck.powers.len(), powers);
    CommitterKey { inner: ck }
}

fn f(v: u64) -> Fr {
    Fr::from_u64(v)
}

fn witness(len: u64) -> Vec<Fr> {
    let mut w = vec![f(1), f(41)];
    for _ in 2..len {
        w.push(f(1));
    }
    w
}

fn matrix() -> Vec<Vec<(Fr, usize)>> {
    (0..8).map(|r| (0..11).map(|j| (f(10 * r + j), j as usize)).collect()).collect()
}

#[test]
fn plain_commitments_are_repeatable() {
    let ck = committer_key(8);
    let p = vec![f(3), f(0), f(5)];
    let first = commit_plain(&ck, &p).unwrap();
    assert_eq!(first, commit_plain(&ck, &p).unwrap());
    assert!(!first.is_empty());
    assert_ne!(first, commit_plain(&ck, &vec![f(3), f(0), f(6)]).unwrap());
}

#[test]
fn trailing_zeros_do_not_change_a_commitment() {
    let ck = committer_key(8);
    let short = commit_plain(&ck, &vec![f(3), f(9)]).unwrap();
    assert_eq!(short, commit_plain(&ck, &vec![f(3), f(9), f(0), f(0)]).unwrap());
    let zero = commit_plain(&ck, &vec![]).unwrap();
    assert_eq!(zero, commit_plain(&ck, &vec![f(0); 20]).unwrap());
}

#[test]
fn a_key_commits_to_as_many_coefficients_as_it_has_powers() {
    let ck = committer_key(4);
    assert!(commit_plain(&ck, &vec![f(1); 4]).is_ok());
    assert_eq!(commit_plain(&ck, &vec![f(1); 5]), Err(Failure::Commitment));
}

#[test]
fn hiding_commitments_differ_from_run_to_run() {
    let ck = committer_key(8);
    let mut rng = StdRng::seed_from_u64(5);
    let p = vec![f(3), f(0), f(5)];
    let first = commit_hiding(&ck, &p, &mut rng).unwrap();
    let second = commit_hiding(&ck, &p, &mut rng).unwrap();
    assert_ne!(first, second);
    assert_ne!(first, commit_plain(&ck, &p).unwrap());
}

#[test]
fn division_by_a_vanishing_polynomial() {
    // x^5 + 2x^4 + 3 = (x + 2) * (x^4 - 1) + (x + 5)
    let p = vec![f(3), f(0), f(0), f(0), f(2), f(1)];
    let (q, r) = divide_by_vanishing(&p, 4);
    assert_eq!(q, vec![f(2), f(1)]);
    assert_eq!(r, vec![f(5), f(1)]);
    let (q, r) = divide_by_vanishing(&vec![f(4), f(7)], 2);
    assert!(q.is_empty());
    assert_eq!(r, vec![f(4), f(7)]);
    let (q, r) = divide_by_vanishing(&vec![], 1);
    assert!(q.is_empty() && r.is_empty());
}

#[test]
fn normalising_drops_trailing_zeros_only() {
    assert_eq!(normalize(vec![f(0), f(2), f(0), f(0)]), vec![f(0), f(2)]);
    assert_eq!(normalize(vec![f(0), f(0)]), Vec::<Fr>::new());
    assert_eq!(normalize(vec![f(1)]), vec![f(1)]);
}

#[test]
fn difference_polynomial_has_the_randomness_as_coefficients() {
    assert_eq!(difference_coefficients(&vec![1, 256, 9]), vec![f(1), f(256), f(9)]);
    let ck = committer_key(8);
    assert_eq!(
        commit_to_diff(&ck, &vec![1, 256, 9]),
        commit_plain(&ck, &vec![f(1), f(256), f(9)])
    );
    assert_eq!(commit_to_diff(&ck, &vec![1; 9]), Err(Failure::Commitment));
}

#[test]
fn zero_test_accepts_the_honest_proof() {
    let ck = committer_key(16);
    let rand: Vec<u16> = (1..=11).collect();
    let proof = zero_test_prove(&ck, &rand, 2).unwrap();
    assert_eq!(zero_test_verify(&ck, &rand, 2, &proof), Ok(true));
}

#[test]
fn zero_test_rejects_a_foreign_commitment() {
    let ck = committer_key(16);
    let rand: Vec<u16> = (1..=11).collect();
    let mut proof = zero_test_prove(&ck, &rand, 2).unwrap();
    let last = proof.quotient_commitment.len() - 1;
    proof.quotient_commitment[last] ^= 1;
    assert_eq!(zero_test_verify(&ck, &rand, 2, &proof), Ok(false));
    let other = ZeroTestProof { quotient_commitment: commit_plain(&ck, &vec![f(1)]).unwrap() };
    assert_eq!(zero_test_verify(&ck, &rand, 2, &other), Ok(false));
    let empty = ZeroTestProof { quotient_commitment: vec![] };
    assert_eq!(zero_test_verify(&ck, &rand, 2, &empty), Ok(false));
}

#[test]
fn zero_test_commits_to_the_zero_quotient() {
    let ck = committer_key(16);
    let rand: Vec<u16> = (1..=11).collect();
    let proof = zero_test_prove(&ck, &rand, 2).unwrap();
    assert_eq!(proof.quotient_commitment, commit_plain(&ck, &vec![]).unwrap());
}

#[test]
fn zero_test_over_no_randomness() {
    let ck = committer_key(4);
    let proof = zero_test_prove(&ck, &vec![], 0).unwrap();
    assert_eq!(zero_test_verify(&ck, &vec![], 0, &proof), Ok(true));
    let proof = zero_test_prove(&ck, &vec![], 3).unwrap();
    assert_eq!(zero_test_verify(&ck, &vec![], 3, &proof), Ok(true));
}

#[test]
fn zero_test_needs_a_location_domain() {
    let ck = committer_key(4);
    assert_eq!(
        zero_test_prove(&ck, &vec![1], 1usize << 32).err(),
        Some(Failure::DomainTooLarge)
    );
    assert_eq!(
        zero_test_verify(
            &ck,
            &vec![1],
            usize::MAX,
            &ZeroTestProof { quotient_commitment: vec![] }
        ),
        Err(Failure::DomainTooLarge)
    );
}

#[test]
fn verdicts_are_joined() {
    assert_eq!(combine(true, BaseVerdict::Accepted), Ok(true));
    assert_eq!(combine(false, BaseVerdict::Accepted), Ok(false));
    assert_eq!(combine(true, BaseVerdict::Rejected), Ok(false));
    assert_eq!(combine(false, BaseVerdict::Rejected), Ok(false));
    assert_eq!(combine(true, BaseVerdict::Failed), Err(Failure::BaseProtocol));
    assert_eq!(combine(false, BaseVerdict::Failed), Err(Failure::BaseProtocol));
}

#[test]
fn prover_and_verifier_meet() {
    // 8 constraints, 2 instance variables, one unit of 11 slots
    let ck = committer_key(32);
    let vk = vec![0xabu8; 64];
    let w = witness(16);
    let c = matrix();
    let mut rng = StdRng::seed_from_u64(2024);
    let out = prove(&ck, &vk, &c, 8, 88, &w, 2, 1, &mut rng).unwrap();

    let public = public_inputs(&w, 2).unwrap();
    assert_eq!(public, vec![f(41)]);
    assert_eq!(out.poso_rand, derive_poso_rand(&vk, &public, &out.witness_commitment, 1));
    assert_eq!(out.poso_rand.len(), 11);
    assert_eq!(out.witness, randomize_witness(&w, 2, 1, &out.poso_rand).unwrap());
    for j in 0..11 {
        assert_eq!(out.witness[2 + j], f(u64::from(out.poso_rand[j])));
        assert_eq!(out.key.c[0][j].0, f(j as u64 + u64::from(out.poso_rand[j])));
    }
    assert_eq!(out.key.c[1], c[1]);
    assert_eq!(out.key.val_evals.len(), 88);
    assert_eq!(Ok(out.difference_commitment.clone()), commit_to_diff(&ck, &out.poso_rand));

    let accepted = verify(
        &ck,
        &vk,
        &public,
        &out.witness_commitment,
        1,
        &out.zero_test,
        BaseVerdict::Accepted,
    );
    assert_eq!(accepted, Ok(true));
    let rejected = verify(
        &ck,
        &vk,
        &public,
        &out.witness_commitment,
        1,
        &out.zero_test,
        BaseVerdict::Rejected,
    );
    assert_eq!(rejected, Ok(false));
    let failed = verify(
        &ck,
        &vk,
        &public,
        &out.witness_commitment,
        1,
        &out.zero_test,
        BaseVerdict::Failed,
    );
    assert_eq!(failed, Err(Failure::BaseProtocol));
}

#[test]
fn a_tampered_zero_test_proof_is_invalid() {
    let ck = committer_key(32);
    let vk = vec![0xabu8; 64];
    let w = witness(16);
    let mut rng = StdRng::seed_from_u64(2024);
    let out = prove(&ck, &vk, &matrix(), 8, 88, &w, 2, 1, &mut rng).unwrap();
    let public = public_inputs(&w, 2).unwrap();
    let mut forged = out.zero_test.clone();
    forged.quotient_commitment[0] ^= 0x10;
    assert_eq!(
        verify(&ck, &vk, &public, &out.witness_commitment, 1, &forged, BaseVerdict::Accepted),
        Ok(false)
    );
}

#[test]
fn proofs_differ_with_the_blinding() {
    let ck = committer_key(32);
    let vk = vec![1u8; 8];
    let w = witness(16);
    let mut rng = StdRng::seed_from_u64(1);
    let first = prove(&ck, &vk, &matrix(), 8, 88, &w, 2, 1, &mut rng).unwrap();
    let second = prove(&ck, &vk, &matrix(), 8, 88, &w, 2, 1, &mut rng).unwrap();
    assert_ne!(first.witness_commitment, second.witness_commitment);
    assert_ne!(first.poso_rand, second.poso_rand);
}

#[test]
fn preparation_is_a_function_of_the_commitment() {
    let ck = committer_key(32);
    let vk = vec![1u8; 8];
    let w = witness(16);
    let commitment = vec![5u8; 97];
    let first = prepare(&ck, &vk, &matrix(), 88, &w, 2, 1, commitment.clone()).unwrap();
    let second = prepare(&ck, &vk, &matrix(), 88, &w, 2, 1, commitment.clone()).unwrap();
    assert_eq!(first.witness_commitment, commitment);
    assert_eq!(first.poso_rand, second.poso_rand);
    assert_eq!(first.witness, second.witness);
    assert_eq!(first.key.c, second.key.c);
    assert_eq!(first.key.val_poly, second.key.val_poly);
    assert_eq!(first.zero_test.quotient_commitment, second.zero_test.quotient_commitment);
}

#[test]
fn no_units_still_prove_and_verify() {
    let ck = committer_key(32);
    let vk = vec![1u8; 8];
    let w = witness(16);
    let mut rng = StdRng::seed_from_u64(3);
    let out = prove(&ck, &vk, &matrix(), 8, 88, &w, 2, 0, &mut rng).unwrap();
    assert!(out.poso_rand.is_empty());
    assert_eq!(out.witness, w);
    assert_eq!(out.key.c, matrix());
    let public = public_inputs(&w, 2).unwrap();
    assert_eq!(
        verify(
            &ck,
            &vk,
            &public,
            &out.witness_commitment,
            0,
            &out.zero_test,
            BaseVerdict::Accepted
        ),
        Ok(true)
    );
}

#[test]
fn the_prover_refuses_what_does_not_fit() {
    let ck = committer_key(32);
    let vk = vec![1u8; 8];
    let mut rng = StdRng::seed_from_u64(3);
    let c = matrix();
    let w = witness(16);
    // no instance variable
    assert_eq!(
        prove(&ck, &vk, &c, 8, 88, &w, 0, 1, &mut rng).err(),
        Some(Failure::MalformedWitness)
    );
    // more instance variables than witness entries
    assert_eq!(
        prove(&ck, &vk, &c, 32, 88, &w, 17, 1, &mut rng).err(),
        Some(Failure::MalformedWitness)
    );
    // instance domain above the constraint domain
    assert_eq!(
        prove(&ck, &vk, &c, 2, 88, &w, 3, 1, &mut rng).err(),
        Some(Failure::DomainMismatch)
    );
    // constraint domain beyond the field's subgroups
    assert_eq!(
        prove(&ck, &vk, &c, (1usize << 32) + 1, 88, &w, 2, 1, &mut rng).err(),
        Some(Failure::DomainTooLarge)
    );
    // two units do not fit a witness of 16 entries
    assert_eq!(
        prove(&ck, &vk, &c, 8, 88, &w, 2, 2, &mut rng).err(),
        Some(Failure::MismatchedLengths)
    );
    // nine units need nine rows
    assert_eq!(
        prove(&ck, &vk, &c, 8, 88, &witness(200), 2, 9, &mut rng).err(),
        Some(Failure::MismatchedLengths)
    );
    // a key with too few powers for the witness polynomial
    let small = committer_key(4);
    assert_eq!(
        prove(&small, &vk, &c, 8, 88, &w, 2, 1, &mut rng).err(),
        Some(Failure::Commitment)
    );
}

#[test]
fn the_verifier_needs_a_key_for_the_difference_polynomial() {
    let ck = committer_key(8);
    let vk = vec![1u8; 8];
    let proof = ZeroTestProof { quotient_commitment: commit_plain(&ck, &vec![]).unwrap() };
    assert_eq!(
        verify(&ck, &vk, &vec![f(41)], &vec![0u8; 4], 1, &proof, BaseVerdict::Accepted),
        Err(Failure::Commitment)
    );
    assert_eq!(
        verify(&ck, &vk, &vec![f(41)], &vec![0u8; 4], 0, &proof, BaseVerdict::Accepted),
        Ok(true)
    );
}

#[test]
fn the_prover_needs_a_key_for_the_difference_polynomial() {
    // eight powers hold the witness polynomial and not the eleven values
    let ck = committer_key(8);
    let vk = vec![1u8; 8];
    let w = witness(16);
    let refused = prepare(&ck, &vk, &matrix(), 88, &w, 2, 1, vec![5u8; 97]);
    assert_eq!(refused.err(), Some(Failure::Commitment));
    let mut rng = StdRng::seed_from_u64(3);
    assert_eq!(
        prove(&ck, &vk, &matrix(), 8, 88, &w, 2, 1, &mut rng).err(),
        Some(Failure::Commitment)
    );
    // eleven powers are enough, and then the verifier can follow
    let ck = committer_key(11);
    let out = prepare(&ck, &vk, &matrix(), 88, &w, 2, 1, vec![5u8; 97]).unwrap();
    let public = public_inputs(&w, 2).unwrap();
    assert_eq!(
        verify(
            &ck,
            &vk,
            &public,
            &out.witness_commitment,
            1,
            &out.zero_test,
            BaseVerdict::Accepted
        ),
        Ok(true)
    );
}

#[test]
fn a_base_proof_needs_its_three_rounds() {
    assert!(has_all_rounds(3, 3));
    assert!(has_all_rounds(4, 3));
    assert!(!has_all_rounds(2, 3));
    assert!(!has_all_rounds(3, 2));
    assert!(!has_all_rounds(0, 0));
}

#[test]
fn base_outcomes_become_verdicts() {
    assert_eq!(base_verdict(3, 3, Some(true)), BaseVerdict::Accepted);
    assert_eq!(base_verdict(3, 3, Some(false)), BaseVerdict::Rejected);
    assert_eq!(base_verdict(3, 3, None), BaseVerdict::Failed);
    assert_eq!(base_verdict(2, 3, Some(true)), BaseVerdict::Failed);
    assert_eq!(base_verdict(3, 1, Some(false)), BaseVerdict::Failed);
}

#[test]
fn the_verdict_does_not_follow_the_witness_commitment() {
    // the quotient is zero for every randomness, so the zero-test holds the
    // number of the values and not the values themselves
    let ck = committer_key(32);
    let vk = vec![0xabu8; 64];
    let w = witness(16);
    let mut rng = StdRng::seed_from_u64(2024);
    let out = prove(&ck, &vk, &matrix(), 8, 88, &w, 2, 1, &mut rng).unwrap();
    let public = public_inputs(&w, 2).unwrap();
    let mut changed = out.witness_commitment.clone();
    changed[0] ^= 1;
    assert_ne!(derive_poso_rand(&vk, &public, &changed, 1), out.poso_rand);
    assert_eq!(
        verify(&ck, &vk, &public, &changed, 1, &out.zero_test, BaseVerdict::Accepted),
        Ok(true)
    );
    assert_eq!(
        verify(&ck, &vk, &public, &vec![], 1, &out.zero_test, BaseVerdict::Accepted),
        Ok(true)
    );
    // the base protocol's verdict still decides
    assert_eq!(
        verify(&ck, &vk, &public, &changed, 1, &out.zero_test, BaseVerdict::Rejected),
        Ok(false)
    );
}
