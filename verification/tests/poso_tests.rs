use packmarlin::error::Failure;
use packmarlin::field::Fr;
use packmarlin::poso::randomize_witness;

fn ones(len: usize) -> Vec<Fr> {
    vec![Fr::from_u64(1); len]
}

fn ramp(n: u16) -> Vec<u16> {
    (1..=n).collect()
}

#[test]
fn slots_take_the_randomness_less_one() {
    let witness = ones(30);
    let rand = ramp(22);
    let out = randomize_witness(&witness, 3, 2, &rand).unwrap();
    assert_eq!(out.len(), 30);
    for k in 0..30 {
        if (3..25).contains(&k) {
            // default 1 plus (value - 1) is the value itself
            assert_eq!(out[k], Fr::from_u64(u64::from(rand[k - 3])));
        } else {
            assert_eq!(out[k], Fr::from_u64(1));
        }
    }
}

#[test]
fn slot_of_unit_and_index() {
    let mut witness = ones(40);
    witness[2 + 11 + 4] = Fr::from_u64(1000);
    let mut rand = vec![1u16; 22];
    rand[11 + 4] = 256;
    let out = randomize_witness(&witness, 2, 2, &rand).unwrap();
    assert_eq!(out[2 + 11 + 4], Fr::from_u64(1255));
    assert_eq!(out[2 + 11 + 3], Fr::from_u64(1));
}

#[test]
fn addition_wraps_in_the_field() {
    let top = Fr::from_limbs(
        0xffff_ffff_0000_0000,
        0x53bd_a402_fffe_5bfe,
        0x3339_d808_09a1_d805,
        0x73ed_a753_299d_7d48,
    )
    .unwrap();
    let mut witness = ones(12);
    witness[1] = top;
    let mut rand = vec![1u16; 11];
    rand[0] = 3;
    let out = randomize_witness(&witness, 1, 1, &rand).unwrap();
    assert_eq!(out[1], Fr::from_u64(1));
}

#[test]
fn no_units_leave_the_witness_alone() {
    let witness = ones(5);
    assert_eq!(randomize_witness(&witness, 5, 0, &vec![]), Ok(witness.clone()));
    assert_eq!(randomize_witness(&witness, 2, 0, &vec![]), Ok(witness));
}

#[test]
fn lengths_must_fit() {
    let witness = ones(20);
    assert_eq!(randomize_witness(&witness, 3, 2, &ramp(11)), Err(Failure::MismatchedLengths));
    assert_eq!(randomize_witness(&witness, 3, 1, &ramp(12)), Err(Failure::MismatchedLengths));
    assert_eq!(randomize_witness(&witness, 10, 1, &ramp(11)), Err(Failure::MismatchedLengths));
    assert_eq!(randomize_witness(&witness, 21, 0, &vec![]), Err(Failure::MismatchedLengths));
    assert!(randomize_witness(&witness, 9, 1, &ramp(11)).is_ok());
}

#[test]
fn values_must_lie_in_range() {
    let witness = ones(20);
    let mut rand = ramp(11);
    rand[5] = 0;
    assert_eq!(randomize_witness(&witness, 3, 1, &rand), Err(Failure::RandomnessOutOfRange));
    rand[5] = 257;
    assert_eq!(randomize_witness(&witness, 3, 1, &rand), Err(Failure::RandomnessOutOfRange));
    rand[5] = 256;
    assert!(randomize_witness(&witness, 3, 1, &rand).is_ok());
}
