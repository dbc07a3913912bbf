//! Randomisation of the designated witness slots: the values are drawn from
//! a transcript bound to the public data and the witness commitment, so that
//! prover and verifier derive the same sequence on their own.

use crate::error::Failure;
use crate::field::{field_sum, values, Fr};
use crate::transcript::{bound_seed, bounded_value, seed_material, stream_byte, Transcript};
use vstd::prelude::*;

verus! {

/// Randomised slots per unit.
pub const SLOTS_PER_UNIT: usize = 11;

/// The largest randomness value; the smallest is 1.
pub const POSO_BOUND: u16 = 256;

/// The bytes of the protocol label, `packmarlin`.
pub open spec fn protocol_label() -> Seq<u8> {
    seq![112u8, 97u8, 99u8, 107u8, 109u8, 97u8, 114u8, 108u8, 105u8, 110u8]
}

/// The protocol label that every transcript starts with.
pub fn protocol_name() -> (label: Vec<u8>)
    ensures
        label@ == protocol_label(),
{
    let label: Vec<u8> = vec![112u8, 97u8, 99u8, 107u8, 109u8, 97u8, 114u8, 108u8, 105u8, 110u8];
    assert(label@ =~= protocol_label());
    label
}

/// One stream byte as a randomness value: the byte plus one.
pub open spec fn poso_value(byte: u8) -> u16 {
    (byte + 1) as u16
}

/// The randomness value for one drawn byte.
pub fn poso_from_byte(byte: u8) -> (v: u16)
    ensures
        v == poso_value(byte),
        1 <= v <= POSO_BOUND,
{
    byte as u16 + 1
}

/// The `n` values drawn from a stream, starting at draw `start`.
pub open spec fn poso_sequence(seed: Seq<u8>, start: nat, n: nat) -> Seq<u16> {
    Seq::new(n, |i: int| poso_value(stream_byte(seed, (start + i) as nat)))
}

/// The randomness that both parties derive from the verifying key, the
/// public inputs and the witness commitment, for `poso_size` units.
pub open spec fn poso_randomness(
    verifying_key: Seq<u8>,
    public_input: Seq<Fr>,
    witness_commitment: Seq<u8>,
    poso_size: nat,
) -> Seq<u16> {
    poso_sequence(
        bound_seed(
            seed_material(protocol_label(), verifying_key, public_input),
            witness_commitment,
        ),
        0,
        poso_size * SLOTS_PER_UNIT as nat,
    )
}

/// Draws the values for `poso_size` units from the transcript, in order.
pub fn draw_poso_rand(transcript: &mut Transcript, poso_size: usize) -> (out: Vec<u16>)
    requires
        poso_size * SLOTS_PER_UNIT <= usize::MAX,
    ensures
        out@ == poso_sequence(
            old(transcript).seed(),
            old(transcript).position(),
            poso_size as nat * SLOTS_PER_UNIT as nat,
        ),
        forall|i: int| 0 <= i < out@.len() ==> 1 <= #[trigger] out@[i] <= POSO_BOUND,
        final(transcript).seed() == old(transcript).seed(),
        final(transcript).position() == old(transcript).position() + poso_size * SLOTS_PER_UNIT,
{
    let n = poso_size * SLOTS_PER_UNIT;
    let mut out: Vec<u16> = Vec::new();
    let mut i: usize = 0;
    while i < n
        invariant
            i <= n,
            out@ == poso_sequence(old(transcript).seed(), old(transcript).position(), i as nat),
            forall|j: int| 0 <= j < out@.len() ==> 1 <= #[trigger] out@[j] <= POSO_BOUND,
            transcript.seed() == old(transcript).seed(),
            transcript.position() == old(transcript).position() + i,
        decreases n - i,
    {
        let v = transcript.next_bounded_u16(POSO_BOUND);
        out.push(v);
        i += 1;
        assert(out@ =~= poso_sequence(
            old(transcript).seed(),
            old(transcript).position(),
            i as nat,
        ));
    }
    out
}

/// A transcript that has taken in, in this order, the protocol label, the
/// verifying key, the public inputs and the witness commitment.
pub fn bound_transcript(
    verifying_key: &Vec<u8>,
    public_input: &Vec<Fr>,
    witness_commitment: &Vec<u8>,
) -> (t: Transcript)
    ensures
        t.seed() == bound_seed(
            seed_material(protocol_label(), verifying_key@, public_input@),
            witness_commitment@,
        ),
        t.position() == 0,
{
    let label = protocol_name();
    let mut t = Transcript::initialize(&label, verifying_key, public_input);
    t.absorb(witness_commitment);
    t
}

/// The randomness for `poso_size` units, as prover and verifier both derive
/// it.
pub fn derive_poso_rand(
    verifying_key: &Vec<u8>,
    public_input: &Vec<Fr>,
    witness_commitment: &Vec<u8>,
    poso_size: usize,
) -> (out: Vec<u16>)
    requires
        poso_size * SLOTS_PER_UNIT <= usize::MAX,
    ensures
        out@ == poso_randomness(
            verifying_key@,
            public_input@,
            witness_commitment@,
            poso_size as nat,
        ),
        out@.len() == poso_size * SLOTS_PER_UNIT,
        forall|i: int| 0 <= i < out@.len() ==> 1 <= #[trigger] out@[i] <= POSO_BOUND,
{
    let mut t = bound_transcript(verifying_key, public_input, witness_commitment);
    draw_poso_rand(&mut t, poso_size)
}

/// The derived randomness is a function of what the transcript was bound to:
/// two transcripts initialised independently over the same label, verifying
/// key, public inputs and witness commitment hand out the same bounded
/// value at every draw, whatever the bound.
pub proof fn lemma_transcript_determinism(
    a: Transcript,
    b: Transcript,
    verifying_key: Seq<u8>,
    public_input: Seq<Fr>,
    witness_commitment: Seq<u8>,
    n: nat,
    draw: nat,
    max: u16,
)
    requires
        a.seed() == bound_seed(
            seed_material(protocol_label(), verifying_key, public_input),
            witness_commitment,
        ),
        b.seed() == bound_seed(
            seed_material(protocol_label(), verifying_key, public_input),
            witness_commitment,
        ),
        a.position() == 0,
        b.position() == 0,
    ensures
        poso_sequence(a.seed(), a.position(), n) == poso_sequence(b.seed(), b.position(), n),
        bounded_value(stream_byte(a.seed(), a.position() + draw), max) == bounded_value(
            stream_byte(b.seed(), b.position() + draw),
            max,
        ),
{
}

/// With no unit to randomise, the randomness is empty.
pub proof fn lemma_no_units_no_randomness(
    verifying_key: Seq<u8>,
    public_input: Seq<Fr>,
    witness_commitment: Seq<u8>,
)
    ensures
        poso_randomness(verifying_key, public_input, witness_commitment, 0) == Seq::<u16>::empty(),
{
    assert(poso_randomness(verifying_key, public_input, witness_commitment, 0) =~= Seq::<
        u16,
    >::empty());
}

/// Whether every value lies in `[1, POSO_BOUND]`.
pub open spec fn in_range(rand: Seq<u16>) -> bool {
    forall|i: int| 0 <= i < rand.len() ==> 1 <= #[trigger] rand[i] <= POSO_BOUND
}

/// The witness with the slots from `offset` on raised by the randomness less
/// one: slot `j` of unit `i` is entry `offset + i * SLOTS_PER_UNIT + j`.
pub open spec fn randomized_witness(witness: Seq<nat>, offset: nat, rand: Seq<u16>) -> Seq<nat> {
    Seq::new(
        witness.len(),
        |k: int|
            if offset <= k < offset + rand.len() {
                field_sum(witness[k], (rand[k - offset] - 1) as nat)
            } else {
                witness[k]
            },
    )
}

/// Why a witness cannot take the given randomness, if it cannot.
pub open spec fn randomization_error(
    witness_len: nat,
    offset: nat,
    poso_size: nat,
    rand: Seq<u16>,
) -> Option<Failure> {
    if rand.len() != poso_size * SLOTS_PER_UNIT as nat || offset + rand.len() > witness_len {
        Some(Failure::MismatchedLengths)
    } else if !in_range(rand) {
        Some(Failure::RandomnessOutOfRange)
    } else {
        None
    }
}

/// Applies the randomness to the witness. The slots stand at one by default,
/// so each takes its value plus the randomness less one; every other entry is
/// kept.
pub fn randomize_witness(
    witness: &Vec<Fr>,
    offset: usize,
    poso_size: usize,
    poso_rand: &Vec<u16>,
) -> (r: Result<Vec<Fr>, Failure>)
    ensures
        match r {
            Ok(w) => {
                &&& randomization_error(
                    witness@.len(),
                    offset as nat,
                    poso_size as nat,
                    poso_rand@,
                ).is_none()
                &&& values(w@) == randomized_witness(values(witness@), offset as nat, poso_rand@)
                &&& forall|k: int|
                    0 <= k < witness@.len() && !(offset <= k < offset + poso_rand@.len())
                        ==> #[trigger] w@[k] == witness@[k]
            },
            Err(e) => randomization_error(
                witness@.len(),
                offset as nat,
                poso_size as nat,
                poso_rand@,
            ) == Some(e),
        },
{
    let n = poso_rand.len();
    if n / SLOTS_PER_UNIT != poso_size || n % SLOTS_PER_UNIT != 0 {
        return Err(Failure::MismatchedLengths);
    }
    if offset > witness.len() || n > witness.len() - offset {
        return Err(Failure::MismatchedLengths);
    }
    assert(n == poso_size * SLOTS_PER_UNIT);
    let mut t: usize = 0;
    while t < n
        invariant
            t <= n,
            n == poso_rand@.len(),
            n == poso_size * SLOTS_PER_UNIT,
            offset + n <= witness@.len(),
            forall|i: int| 0 <= i < t ==> 1 <= #[trigger] poso_rand@[i] <= POSO_BOUND,
        decreases n - t,
    {
        if poso_rand[t] < 1 || poso_rand[t] > POSO_BOUND {
            assert(!(1 <= poso_rand@[t as int] <= POSO_BOUND));
            return Err(Failure::RandomnessOutOfRange);
        }
        t += 1;
    }
    let ghost target = randomized_witness(values(witness@), offset as nat, poso_rand@);
    let mut out: Vec<Fr> = Vec::new();
    let mut k: usize = 0;
    while k < witness.len()
        invariant
            k <= witness@.len(),
            n == poso_rand@.len(),
            offset + n <= witness@.len(),
            in_range(poso_rand@),
            target == randomized_witness(values(witness@), offset as nat, poso_rand@),
            out@.len() == k,
            forall|i: int| 0 <= i < k ==> (#[trigger] out@[i]).value() == target[i],
            forall|i: int|
                0 <= i < k && !(offset <= i < offset + n) ==> #[trigger] out@[i] == witness@[i],
        decreases witness@.len() - k,
    {
        let entry = if offset <= k && k - offset < n {
            let raise = Fr::from_u64((poso_rand[k - offset] - 1) as u64);
            witness[k].plus(&raise)
        } else {
            witness[k]
        };
        out.push(entry);
        k += 1;
    }
    assert(values(out@) =~= target);
    Ok(out)
}

} // verus!
