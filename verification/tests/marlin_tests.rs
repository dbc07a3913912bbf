use ark_bls12_381::{Bls12_381, Fr as BlsFr};
use ark_ff::{BigInteger256, PrimeField, ToBytes};
use ark_marlin::{IndexProverKey, IndexVerifierKey, Marlin, Proof};
use ark_poly::univariate::DensePolynomial;
use ark_poly_commit::marlin_pc::MarlinKZG10;
use ark_relations::r1cs::{
    ConstraintSynthesizer, ConstraintSystemRef, LinearCombination, SynthesisError, Variable,
};
use blake2::Blake2s;
use packmarlin::commit::CommitterKey;
use packmarlin::field::Fr;
use packmarlin::prove::{prove, ProverOutput};
use packmarlin::verify::{verify, BaseVerdict};
use rand::rngs::StdRng;
use rand::SeedableRng;

type Scheme = MarlinKZG10<Bls12_381, DensePolynomial<BlsFr>>;
type Base = Marlin<BlsFr, Scheme, Blake2s>;

/// Eight constraints over two instance variables (the one and `x`) and
/// fourteen private ones: eleven slots that stand at one, their sum, the
/// square of `x`, and a variable that is zero. The zero variable stands in
/// the first row of `C` with the coefficient `weight`, so that the witness
/// satisfies the circuit whatever the weight is.
#[derive(Clone)]
struct Slots {
    x: u64,
    weight: u64,
}

impl Slots {
    fn assignment(&self) -> Vec<BlsFr> {
        let mut z = vec![BlsFr::from(1u64), BlsFr::from(self.x)];
        z.extend(vec![BlsFr::from(1u64); 11]);
        z.push(BlsFr::from(11u64));
        z.push(BlsFr::from(self.x * self.x));
        z.push(BlsFr::from(0u64));
        z
    }
}

impl ConstraintSynthesizer<BlsFr> for Slots {
    fn generate_constraints(self, cs: ConstraintSystemRef<BlsFr>) -> Result<(), SynthesisError> {
        let z = self.assignment();
        let x = cs.new_input_variable(|| Ok(z[1]))?;
        let mut slots = Vec::new();
        for j in 0..11 {
            slots.push(cs.new_witness_variable(|| Ok(z[2 + j]))?);
        }
        let sum = cs.new_witness_variable(|| Ok(z[13]))?;
        let square = cs.new_witness_variable(|| Ok(z[14]))?;
        let zero = cs.new_witness_variable(|| Ok(z[15]))?;
        let one = BlsFr::from(1u64);
        let single = |v: Variable| LinearCombination(vec![(one, v)]);
        // 1 * sum = slot_0 + ... + slot_10 + weight * zero
        let mut total: Vec<(BlsFr, Variable)> = slots.iter().map(|s| (one, *s)).collect();
        total.push((BlsFr::from(self.weight), zero));
        cs.enforce_constraint(single(Variable::One), single(sum), LinearCombination(total))?;
        // x * x = square
        cs.enforce_constraint(single(x), single(x), single(square))?;
        // slot_j * slot_j = slot_j, for six of the slots
        for s in slots.iter().take(6) {
            cs.enforce_constraint(single(*s), single(*s), single(*s))?;
        }
        Ok(())
    }
}

fn from_ark(x: &BlsFr) -> Fr {
    let l = x.into_repr().0;
    Fr::from_limbs(l[0], l[1], l[2], l[3]).unwrap()
}

fn to_ark(x: &Fr) -> BlsFr {
    let l = x.limbs();
    BlsFr::from_repr(BigInteger256([l.0, l.1, l.2, l.3])).unwrap()
}

fn honest() -> Slots {
    Slots { x: 41, weight: 1 }
}

/// The keys of the honest circuit, and the proving key of the circuit whose
/// matrix differs from it in one entry.
fn keys(
    rng: &mut StdRng,
) -> (
    IndexProverKey<BlsFr, Scheme>,
    IndexVerifierKey<BlsFr, Scheme>,
    IndexProverKey<BlsFr, Scheme>,
) {
    let srs = Base::universal_setup(16, 16, 64, rng).unwrap();
    let (pk, vk) = Base::index(&srs, honest()).unwrap();
    let (other, _) = Base::index(&srs, Slots { x: 41, weight: 2 }).unwrap();
    (pk, vk, other)
}

fn key_bytes(vk: &IndexVerifierKey<BlsFr, Scheme>) -> Vec<u8> {
    let mut bytes = Vec::new();
    vk.write(&mut bytes).unwrap();
    bytes
}

fn library_part(
    pk: &IndexProverKey<BlsFr, Scheme>,
    rng: &mut StdRng,
) -> (CommitterKey, Vec<u8>, ProverOutput) {
    let ck = CommitterKey { inner: pk.committer_key.clone() };
    let bytes = key_bytes(&pk.index_vk);
    let c: Vec<Vec<(Fr, usize)>> = pk
        .index
        .c
        .iter()
        .map(|row| row.iter().map(|(v, i)| (from_ark(v), *i)).collect())
        .collect();
    let witness: Vec<Fr> = honest().assignment().iter().map(from_ark).collect();
    let info = &pk.index.index_info;
    let out = prove(
        &ck,
        &bytes,
        &c,
        info.num_constraints,
        info.num_non_zero,
        &witness,
        2,
        1,
        rng,
    )
    .unwrap();
    (ck, bytes, out)
}

fn base_verdict(
    vk: &IndexVerifierKey<BlsFr, Scheme>,
    proof: &Proof<BlsFr, Scheme>,
    rng: &mut StdRng,
) -> BaseVerdict {
    match Base::verify(vk, &[BlsFr::from(41u64)], proof, rng) {
        Ok(true) => BaseVerdict::Accepted,
        Ok(false) => BaseVerdict::Rejected,
        Err(_) => BaseVerdict::Failed,
    }
}

#[test]
fn round_trip_with_the_base_protocol() {
    let mut rng = StdRng::seed_from_u64(99);
    let (pk, vk, _) = keys(&mut rng);
    assert!(pk.index.c[0].len() >= 11);
    let (ck, bytes, out) = library_part(&pk, &mut rng);
    assert_eq!(out.poso_rand.len(), 11);
    // the slots stood at one and now hold the randomness
    for j in 0..11 {
        assert_eq!(to_ark(&out.witness[2 + j]), BlsFr::from(u64::from(out.poso_rand[j])));
    }
    // the patched matrix differs from the indexed one at the slots of row 0 only
    for j in 0..11 {
        let raised = pk.index.c[0][j].0 + BlsFr::from(u64::from(out.poso_rand[j]));
        assert_eq!(to_ark(&out.key.c[0][j].0), raised);
    }
    for r in 1..pk.index.c.len() {
        for (e, entry) in pk.index.c[r].iter().enumerate() {
            assert_eq!(to_ark(&out.key.c[r][e].0), entry.0);
        }
    }

    let proof = Base::prove(&pk, honest(), &mut rng).unwrap();
    let base = base_verdict(&vk, &proof, &mut rng);
    assert_eq!(base, BaseVerdict::Accepted);
    let public = vec![Fr::from_u64(41)];
    assert_eq!(
        verify(&ck, &bytes, &public, &out.witness_commitment, 1, &out.zero_test, base),
        Ok(true)
    );
}

#[test]
fn a_corrupted_matrix_entry_is_noticed() {
    let mut rng = StdRng::seed_from_u64(99);
    let (pk, vk, other) = keys(&mut rng);
    let (ck, bytes, out) = library_part(&pk, &mut rng);

    // one entry of `C` differs, and nothing else
    let mut differing = 0;
    for (row, other_row) in pk.index.c.iter().zip(&other.index.c) {
        assert_eq!(row.len(), other_row.len());
        for (entry, other_entry) in row.iter().zip(other_row) {
            assert_eq!(entry.1, other_entry.1);
            if entry.0 != other_entry.0 {
                differing += 1;
            }
        }
    }
    assert_eq!(differing, 1);
    assert_eq!(pk.index.a, other.index.a);
    assert_eq!(pk.index.b, other.index.b);

    let proof = Base::prove(&other, Slots { x: 41, weight: 2 }, &mut rng).unwrap();
    let base = base_verdict(&vk, &proof, &mut rng);
    assert_eq!(base, BaseVerdict::Rejected);
    let public = vec![Fr::from_u64(41)];
    assert_eq!(
        verify(&ck, &bytes, &public, &out.witness_commitment, 1, &out.zero_test, base),
        Ok(false)
    );
}

#[test]
fn a_foreign_public_input_is_noticed() {
    let mut rng = StdRng::seed_from_u64(5);
    let (pk, vk, _) = keys(&mut rng);
    let (ck, bytes, out) = library_part(&pk, &mut rng);
    let proof = Base::prove(&pk, honest(), &mut rng).unwrap();
    let base = match Base::verify(&vk, &[BlsFr::from(42u64)], &proof, &mut rng) {
        Ok(true) => BaseVerdict::Accepted,
        Ok(false) => BaseVerdict::Rejected,
        Err(_) => BaseVerdict::Failed,
    };
    assert_eq!(base, BaseVerdict::Rejected);
    let public = vec![Fr::from_u64(42)];
    assert_eq!(
        verify(&ck, &bytes, &public, &out.witness_commitment, 1, &out.zero_test, base),
        Ok(false)
    );
}
