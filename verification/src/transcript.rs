//! Fiat-Shamir transcript: a hash-seeded stream generator whose output is a
//! function of everything absorbed so far.

use crate::field::Fr;
use vstd::prelude::*;

verus! {

/// The generator behind the transcript: `FiatShamirRng` over Blake2s. Its
/// own declaration is bounded by a trait that cannot be named here, so it is
/// held whole and seen only through `generator_seed` and
/// `generator_position`.
#[verifier::external_body]
pub struct Generator {
    inner: ark_marlin::rng::FiatShamirRng<blake2::Blake2s>,
}

/// The 32-byte seed that a generator currently holds.
pub uninterp spec fn generator_seed(g: Generator) -> Seq<u8>;

/// How many words a generator has handed out since it was last seeded.
pub uninterp spec fn generator_position(g: Generator) -> nat;

/// The Blake2s digest of a byte string.
pub uninterp spec fn blake2s_digest(bytes: Seq<u8>) -> Seq<u8>;

/// The byte that a generator seeded with `seed` hands out as its draw number
/// `position`, counting from zero.
pub uninterp spec fn stream_byte(seed: Seq<u8>, position: nat) -> u8;

/// `FiatShamirRng::from_seed`: the new generator holds the digest of the
/// given bytes as its seed and has handed out nothing.
#[verifier::external_body]
fn generator_from_seed(bytes: &Vec<u8>) -> (g: Generator)
    ensures
        generator_seed(g) == blake2s_digest(bytes@),
        generator_position(g) == 0,
{
    Generator { inner: ark_marlin::rng::FiatShamirRng::<blake2::Blake2s>::from_seed(bytes) }
}

/// `FiatShamirRng::absorb`: the generator is reseeded with the digest of
/// the given bytes followed by its previous seed, the new bytes first, as
/// the method's body has it.
#[verifier::external_body]
fn generator_absorb(g: &mut Generator, bytes: &Vec<u8>)
    ensures
        generator_seed(*final(g)) == blake2s_digest(bytes@ + generator_seed(*old(g))),
        generator_position(*final(g)) == 0,
{
    g.inner.absorb(bytes)
}

/// `UniformRand::rand` for `u8`: the next byte of the generator's stream.
#[verifier::external_body]
fn generator_next_byte(g: &mut Generator) -> (b: u8)
    ensures
        b == stream_byte(generator_seed(*old(g)), generator_position(*old(g))),
        generator_seed(*final(g)) == generator_seed(*old(g)),
        generator_position(*final(g)) == generator_position(*old(g)) + 1,
{
    <u8 as ark_std::UniformRand>::rand(&mut g.inner)
}

/// The bytes that a generator hands out as draws `start`, `start + 1`, ...,
/// `start + n - 1`.
pub open spec fn stream_bytes(seed: Seq<u8>, start: nat, n: nat) -> Seq<u8> {
    Seq::new(n, |i: int| stream_byte(seed, (start + i) as nat))
}

/// A byte brought into `[1, max]`; zero where `max` is zero.
pub open spec fn bounded_value(byte: u8, max: u16) -> u16 {
    if max == 0 {
        0
    } else {
        ((byte as int) % (max as int) + 1) as u16
    }
}

/// The little-endian encodings of the elements, one after the other.
pub open spec fn encoded_elements(elements: Seq<Fr>) -> Seq<u8>
    decreases elements.len(),
{
    if elements.len() == 0 {
        Seq::empty()
    } else {
        encoded_elements(elements.drop_last()) + elements.last().le_bytes()
    }
}

/// What a transcript is seeded with: the protocol label, the verifying key
/// and the public inputs, in that order.
pub open spec fn seed_material(label: Seq<u8>, verifying_key: Seq<u8>, public_input: Seq<Fr>) -> Seq<
    u8,
> {
    label + verifying_key + encoded_elements(public_input)
}

/// The seed that a transcript holds once it was initialised with the given
/// material and has absorbed the given commitment.
pub open spec fn bound_seed(material: Seq<u8>, commitment: Seq<u8>) -> Seq<u8> {
    blake2s_digest(commitment + blake2s_digest(material))
}

/// The encodings of the elements, joined.
pub fn encode_elements(elements: &Vec<Fr>) -> (out: Vec<u8>)
    ensures
        out@ == encoded_elements(elements@),
{
    let mut out: Vec<u8> = Vec::new();
    let mut i: usize = 0;
    while i < elements.len()
        invariant
            i <= elements@.len(),
            out@ == encoded_elements(elements@.subrange(0, i as int)),
        decreases elements@.len() - i,
    {
        let mut bytes = elements[i].to_le_bytes();
        out.append(&mut bytes);
        proof {
            let next = elements@.subrange(0, i + 1);
            assert(next.drop_last() =~= elements@.subrange(0, i as int));
            assert(next.last() == elements@[i as int]);
        }
        i += 1;
    }
    assert(elements@.subrange(0, i as int) =~= elements@);
    out
}

/// A running transcript. Its state is the seed it holds and the number of
/// draws made since that seed was set; what it hands out next is a function
/// of the two.
pub struct Transcript {
    generator: Generator,
}

impl Transcript {
    /// The seed that the transcript currently holds.
    pub closed spec fn seed(self) -> Seq<u8> {
        generator_seed(self.generator)
    }

    /// The number of draws since the seed was last set.
    pub closed spec fn position(self) -> nat {
        generator_position(self.generator)
    }

    /// A transcript over the given label and public data.
    pub fn initialize(label: &Vec<u8>, verifying_key: &Vec<u8>, public_input: &Vec<Fr>) -> (t:
        Transcript)
        ensures
            t.seed() == blake2s_digest(seed_material(label@, verifying_key@, public_input@)),
            t.position() == 0,
    {
        let mut material: Vec<u8> = Vec::new();
        let mut label_bytes = label.clone();
        let mut key_bytes = verifying_key.clone();
        let mut input_bytes = encode_elements(public_input);
        material.append(&mut label_bytes);
        material.append(&mut key_bytes);
        material.append(&mut input_bytes);
        assert(material@ =~= seed_material(label@, verifying_key@, public_input@));
        Transcript { generator: generator_from_seed(&material) }
    }

    /// Appends `bytes` to the running state: the seed becomes the digest of
    /// `bytes` followed by the previous seed.
    pub fn absorb(&mut self, bytes: &Vec<u8>)
        ensures
            final(self).seed() == blake2s_digest(bytes@ + old(self).seed()),
            final(self).position() == 0,
    {
        generator_absorb(&mut self.generator, bytes);
    }

    /// The next byte of the stream.
    pub fn next_byte(&mut self) -> (b: u8)
        ensures
            b == stream_byte(old(self).seed(), old(self).position()),
            final(self).seed() == old(self).seed(),
            final(self).position() == old(self).position() + 1,
    {
        generator_next_byte(&mut self.generator)
    }

    /// The next `n` bytes of the stream.
    pub fn next_bytes(&mut self, n: usize) -> (out: Vec<u8>)
        ensures
            out@ == stream_bytes(old(self).seed(), old(self).position(), n as nat),
            final(self).seed() == old(self).seed(),
            final(self).position() == old(self).position() + n,
    {
        let mut out: Vec<u8> = Vec::new();
        let mut i: usize = 0;
        while i < n
            invariant
                i <= n,
                out@ == stream_bytes(old(self).seed(), old(self).position(), i as nat),
                self.seed() == old(self).seed(),
                self.position() == old(self).position() + i,
            decreases n - i,
        {
            let b = self.next_byte();
            out.push(b);
            i += 1;
            assert(out@ =~= stream_bytes(old(self).seed(), old(self).position(), i as nat));
        }
        out
    }

    /// The next byte of the stream, brought into `[1, max]`.
    pub fn next_bounded_u16(&mut self, max: u16) -> (v: u16)
        ensures
            v == bounded_value(stream_byte(old(self).seed(), old(self).position()), max),
            max > 0 ==> 1 <= v <= max,
            final(self).seed() == old(self).seed(),
            final(self).position() == old(self).position() + 1,
    {
        let b = self.next_byte();
        if max == 0 {
            0
        } else {
            (b as u16) % max + 1
        }
    }
}

/// Two transcripts in the same state hand out the same values, however
/// many are drawn: the output is a function of seed and position alone.
pub proof fn lemma_same_state_same_output(a: Transcript, b: Transcript, max: u16, n: nat)
    requires
        a.seed() == b.seed(),
        a.position() == b.position(),
    ensures
        bounded_value(stream_byte(a.seed(), a.position()), max) == bounded_value(
            stream_byte(b.seed(), b.position()),
            max,
        ),
        stream_bytes(a.seed(), a.position(), n) == stream_bytes(b.seed(), b.position(), n),
{
}

} // verus!
