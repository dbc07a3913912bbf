use ark_marlin::rng::FiatShamirRng;
use ark_std::UniformRand;
use blake2::Blake2s;
use packmarlin::field::Fr;
use packmarlin::poso::{
    bound_transcript, derive_poso_rand, draw_poso_rand, protocol_name, POSO_BOUND, SLOTS_PER_UNIT,
};
use packmarlin::transcript::{encode_elements, Transcript};

fn key_bytes() -> Vec<u8> {
    (0u8..40).collect()
}

fn inputs() -> Vec<Fr> {
    vec![Fr::from_u64(5), Fr::from_u64(0xdead_beef)]
}

#[test]
fn protocol_label_is_packmarlin() {
    assert_eq!(protocol_name(), b"packmarlin".to_vec());
}

#[test]
fn elements_are_encoded_little_endian() {
    let bytes = encode_elements(&vec![Fr::from_u64(0x0102), Fr::from_u64(7)]);
    assert_eq!(bytes.len(), 64);
    assert_eq!(bytes[0], 0x02);
    assert_eq!(bytes[1], 0x01);
    assert!(bytes[2..32].iter().all(|b| *b == 0));
    assert_eq!(bytes[32], 7);
}

#[test]
fn independent_transcripts_agree() {
    let commitment = vec![9u8; 97];
    let mut a = bound_transcript(&key_bytes(), &inputs(), &commitment);
    let mut b = bound_transcript(&key_bytes(), &inputs(), &commitment);
    for _ in 0..200 {
        assert_eq!(a.next_bounded_u16(256), b.next_bounded_u16(256));
    }
    assert_eq!(a.next_bytes(50), b.next_bytes(50));
}

#[test]
fn derivation_is_repeatable() {
    let commitment = vec![1u8, 2, 3];
    let first = derive_poso_rand(&key_bytes(), &inputs(), &commitment, 4);
    let second = derive_poso_rand(&key_bytes(), &inputs(), &commitment, 4);
    assert_eq!(first, second);
    assert_eq!(first.len(), 4 * SLOTS_PER_UNIT);
}

#[test]
fn randomness_stays_in_range() {
    let rand = derive_poso_rand(&key_bytes(), &inputs(), &vec![0u8; 10], 300);
    assert_eq!(rand.len(), 3300);
    assert!(rand.iter().all(|v| 1 <= *v && *v <= POSO_BOUND));
    // with 3300 draws both ends of the range are all but certain to show
    assert!(rand.iter().any(|v| *v > 200));
    assert!(rand.iter().any(|v| *v < 50));
}

#[test]
fn no_units_give_no_randomness() {
    let rand = derive_poso_rand(&key_bytes(), &inputs(), &vec![0u8; 10], 0);
    assert!(rand.is_empty());
}

#[test]
fn one_flipped_commitment_byte_changes_the_randomness() {
    let commitment = vec![0x55u8; 97];
    let honest = derive_poso_rand(&key_bytes(), &inputs(), &commitment, 2);
    for position in [0usize, 48, 96] {
        let mut tampered = commitment.clone();
        tampered[position] ^= 1;
        let derived = derive_poso_rand(&key_bytes(), &inputs(), &tampered, 2);
        assert_ne!(honest, derived);
    }
}

#[test]
fn public_data_changes_the_randomness() {
    let commitment = vec![0x55u8; 97];
    let honest = derive_poso_rand(&key_bytes(), &inputs(), &commitment, 2);
    let other_inputs = vec![Fr::from_u64(5), Fr::from_u64(0xdead_bee0)];
    assert_ne!(honest, derive_poso_rand(&key_bytes(), &other_inputs, &commitment, 2));
    let mut other_key = key_bytes();
    other_key[3] ^= 0x80;
    assert_ne!(honest, derive_poso_rand(&other_key, &inputs(), &commitment, 2));
}

#[test]
fn stream_is_that_of_the_hash_seeded_generator() {
    let commitment = vec![7u8; 33];
    let mut material = b"packmarlin".to_vec();
    material.extend_from_slice(&key_bytes());
    material.extend_from_slice(&encode_elements(&inputs()));
    let mut reference = FiatShamirRng::<Blake2s>::from_seed(&material);
    reference.absorb(&commitment);
    let expected: Vec<u16> =
        (0..22).map(|_| u16::from(u8::rand(&mut reference)) + 1).collect();
    assert_eq!(derive_poso_rand(&key_bytes(), &inputs(), &commitment, 2), expected);
}

#[test]
fn absorbing_restarts_the_stream() {
    let label = protocol_name();
    let mut a = Transcript::initialize(&label, &key_bytes(), &inputs());
    let mut b = Transcript::initialize(&label, &key_bytes(), &inputs());
    let first = a.next_bytes(16);
    assert_eq!(first, b.next_bytes(16));
    a.absorb(&vec![1u8]);
    b.absorb(&vec![2u8]);
    assert_ne!(a.next_bytes(16), b.next_bytes(16));
}

#[test]
fn bounded_draws_respect_the_bound() {
    let label = protocol_name();
    let mut t = Transcript::initialize(&label, &key_bytes(), &inputs());
    for _ in 0..100 {
        let v = t.next_bounded_u16(6);
        assert!(1 <= v && v <= 6);
    }
    assert_eq!(t.next_bounded_u16(0), 0);
    assert_eq!(t.next_bounded_u16(1), 1);
}

#[test]
fn a_bounded_draw_is_the_byte_plus_one() {
    let label = protocol_name();
    let mut a = Transcript::initialize(&label, &key_bytes(), &inputs());
    let mut b = Transcript::initialize(&label, &key_bytes(), &inputs());
    for _ in 0..64 {
        let byte = a.next_byte();
        assert_eq!(b.next_bounded_u16(256), u16::from(byte) + 1);
    }
}

#[test]
fn drawing_continues_where_the_transcript_stands() {
    let commitment = vec![3u8; 5];
    let whole = derive_poso_rand(&key_bytes(), &inputs(), &commitment, 3);
    let mut t = bound_transcript(&key_bytes(), &inputs(), &commitment);
    let mut parts = draw_poso_rand(&mut t, 1);
    parts.extend(draw_poso_rand(&mut t, 2));
    assert_eq!(whole, parts);
}
