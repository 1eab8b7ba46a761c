//! The commitment circuit: `commitment = SHA-256(SHA-256(preimage))` as a
//! constraint system.
//!
//! The circuit allocates one boolean variable for each bit of the preimage
//! buffer, witnessed when proving and unknown during key generation, so that
//! its shape never depends on the witness. The hash gadget reads and writes
//! each byte most significant bit first, while buffers and digests are laid
//! out least significant bit first: every byte is mirrored on the way in and
//! on the way out. The digest's bits are packed into field elements and
//! exposed as the public inputs.

use vstd::prelude::*;
use bellman::gadgets::boolean::{AllocatedBit, Boolean};
use bellman::gadgets::multipack;
use bellman::gadgets::sha256::sha256;
use bellman::{Circuit, ConstraintSystem, SynthesisError};
use ff::PrimeField;
use crate::preimage::{bits_le, buffer_bits, PREIMAGE_BITS};

verus! {

/// `bellman::SynthesisError`: the error of a gadget or of the proof system.
/// Nothing is known of a value of it.
#[verifier::external_type_specification]
#[verifier::external_body]
pub struct ExSynthesisError(bellman::SynthesisError);

/// `bellman::gadgets::boolean::Boolean`: a bit of the circuit, a variable
/// or a constant. Nothing is known of a value of it.
#[verifier::external_type_specification]
#[verifier::external_body]
pub struct ExBoolean(bellman::gadgets::boolean::Boolean);

/// The number of bits in a digest.
pub const DIGEST_BITS: usize = 256;

/// The commitment circuit, with the preimage as its witness. Without a
/// preimage it stands for the same constraints over unknown bits.
pub struct CommitmentCircuit {
    pub preimage: Option<[u8; 80]>,
}

impl CommitmentCircuit {
    /// The circuit with the buffer as its witness, for proving.
    pub fn with_witness(buffer: &[u8; 80]) -> (circuit: CommitmentCircuit)
        ensures
            circuit.preimage == Some(*buffer),
    {
        CommitmentCircuit { preimage: Some(*buffer) }
    }

    /// The circuit over unknown bits, for key generation.
    pub fn without_witness() -> (circuit: CommitmentCircuit)
        ensures
            circuit.preimage is None,
    {
        CommitmentCircuit { preimage: None }
    }
}

/// The value of each preimage bit variable: the buffer's bits, least
/// significant bit of each byte first, or nothing known at all.
pub open spec fn witness_of(preimage: Option<[u8; 80]>) -> Seq<Option<bool>> {
    Seq::new(
        PREIMAGE_BITS as nat,
        |i: int|
            match preimage {
                Some(buffer) => Some(bits_le(buffer@)[i]),
                None => None,
            },
    )
}

/// The position that bit `i` takes when the bits of its byte are put in the
/// opposite order.
pub open spec fn mirrored(i: int) -> int {
    i - i % 8 + (7 - i % 8)
}

/// The same bits with every group of eight in the opposite order.
pub open spec fn byte_mirrored<T>(bits: Seq<T>) -> Seq<T> {
    Seq::new(bits.len(), |i: int| bits[mirrored(i)])
}

/// Mirroring stays inside the byte, and undoes itself.
pub proof fn lemma_mirrored(i: int)
    requires
        0 <= i,
    ensures
        0 <= mirrored(i),
        mirrored(i) / 8 == i / 8,
        mirrored(i) % 8 == 7 - i % 8,
        mirrored(mirrored(i)) == i,
{
}

/// Mirroring every byte twice gives the bits back.
pub proof fn lemma_byte_mirrored_twice<T>(bits: Seq<T>)
    requires
        bits.len() % 8 == 0,
    ensures
        byte_mirrored(byte_mirrored(bits)) == bits,
{
    let once = byte_mirrored(bits);
    assert forall|i: int| 0 <= i < bits.len() implies byte_mirrored(once)[i] == bits[i] by {
        lemma_mirrored(i);
        lemma_mirror_in_range(i, bits.len() as int);
    }
    assert(byte_mirrored(once) =~= bits);
}

/// Among whole bytes, a mirrored position is a position.
proof fn lemma_mirror_in_range(i: int, len: int)
    requires
        0 <= i < len,
        len % 8 == 0,
    ensures
        0 <= mirrored(i) < len,
{
}

/// The values to witness the preimage bits with.
pub fn witness_values(preimage: &Option<[u8; 80]>) -> (values: Vec<Option<bool>>)
    ensures
        values@ == witness_of(*preimage),
        values@.len() == PREIMAGE_BITS,
{
    let mut values: Vec<Option<bool>> = Vec::new();
    match preimage {
        Some(buffer) => {
            let bits = buffer_bits(buffer);
            let mut i: usize = 0;
            while i < PREIMAGE_BITS
                invariant
                    i <= PREIMAGE_BITS,
                    bits@ == bits_le(buffer@),
                    bits@.len() == PREIMAGE_BITS,
                    *preimage == Some(*buffer),
                    values@.len() == i,
                    forall|k: int| 0 <= k < i ==> values@[k] == witness_of(*preimage)[k],
                decreases PREIMAGE_BITS - i,
            {
                values.push(Some(bits[i]));
                i += 1;
            }
        },
        None => {
            let mut i: usize = 0;
            while i < PREIMAGE_BITS
                invariant
                    i <= PREIMAGE_BITS,
                    *preimage is None,
                    values@.len() == i,
                    forall|k: int| 0 <= k < i ==> values@[k] == witness_of(*preimage)[k],
                decreases PREIMAGE_BITS - i,
            {
                values.push(None);
                i += 1;
            }
        },
    }
    proof {
        assert(values@ =~= witness_of(*preimage));
    }
    values
}

/// `Clone` of a circuit boolean: a copy that is the same variable or
/// constant.
pub assume_specification[ <bellman::gadgets::boolean::Boolean as Clone>::clone ](
    bit: &bellman::gadgets::boolean::Boolean,
) -> (copy: bellman::gadgets::boolean::Boolean)
    ensures
        copy == *bit,
;

/// `AllocatedBit::alloc`, then `Boolean::from`: a fresh variable of the
/// constraint system, constrained to be zero or one and witnessed with the
/// given value, in a namespace of its own.
#[verifier::external_body]
fn allocate_bit<Scalar: PrimeField, CS: ConstraintSystem<Scalar>>(
    cs: &mut CS,
    index: usize,
    value: Option<bool>,
) -> (bit: Result<Boolean, SynthesisError>) {
    AllocatedBit::alloc(cs.namespace(|| format!("preimage bit {}", index)), value).map(Boolean::from)
}

/// `bellman::gadgets::sha256::sha256`: the constraints of one SHA-256 over
/// whole bytes, in a namespace of the given name. The digest has 256 bits.
#[verifier::external_body]
fn sha256_gadget<Scalar: PrimeField, CS: ConstraintSystem<Scalar>>(
    cs: &mut CS,
    name: &str,
    input: &Vec<Boolean>,
) -> (digest: Result<Vec<Boolean>, SynthesisError>)
    requires
        input@.len() % 8 == 0,
    ensures
        digest matches Ok(bits) ==> bits@.len() == DIGEST_BITS,
{
    sha256(cs.namespace(|| name), input)
}

/// `multipack::pack_into_inputs`: packs the bits into as few field elements
/// as hold them and makes each a public input.
#[verifier::external_body]
fn expose_as_inputs<Scalar: PrimeField, CS: ConstraintSystem<Scalar>>(
    cs: &mut CS,
    bits: &Vec<Boolean>,
) -> (done: Result<(), SynthesisError>) {
    multipack::pack_into_inputs(cs.namespace(|| "pack hash"), bits)
}

/// Copies circuit bits with every byte mirrored.
fn mirror_bytes(bits: &Vec<Boolean>) -> (out: Vec<Boolean>)
    requires
        bits@.len() % 8 == 0,
    ensures
        out@ == byte_mirrored(bits@),
{
    let mut out: Vec<Boolean> = Vec::new();
    let mut i: usize = 0;
    while i < bits.len()
        invariant
            i <= bits@.len(),
            bits@.len() % 8 == 0,
            out@.len() == i,
            forall|k: int| 0 <= k < i ==> out@[k] == bits@[mirrored(k)],
        decreases bits@.len() - i,
    {
        let within: usize = i % 8;
        let source: usize = i - within + (7 - within);
        proof {
            lemma_mirror_in_range(i as int, bits@.len() as int);
        }
        out.push(bits[source].clone());
        i += 1;
    }
    proof {
        assert(out@ =~= byte_mirrored(bits@));
    }
    out
}

/// The double SHA-256 gadget. Input and digest are in least significant bit
/// first order within each byte.
fn sha256d<Scalar: PrimeField, CS: ConstraintSystem<Scalar>>(
    cs: &mut CS,
    data: &Vec<Boolean>,
) -> (digest: Result<Vec<Boolean>, SynthesisError>)
    requires
        data@.len() % 8 == 0,
    ensures
        digest matches Ok(bits) ==> bits@.len() == DIGEST_BITS,
{
    let input = mirror_bytes(data);
    let mid = sha256_gadget(cs, "SHA-256(input)", &input)?;
    let res = sha256_gadget(cs, "SHA-256(mid)", &mid)?;
    Ok(mirror_bytes(&res))
}

impl<Scalar: PrimeField> Circuit<Scalar> for CommitmentCircuit {
    /// Builds the constraints: one variable for each preimage bit, the
    /// double hash over them, and the digest as public inputs.
    fn synthesize<CS: ConstraintSystem<Scalar>>(self, cs: &mut CS) -> Result<(), SynthesisError> {
        let values = witness_values(&self.preimage);
        let mut bits: Vec<Boolean> = Vec::new();
        let mut i: usize = 0;
        while i < values.len()
            invariant
                i <= values@.len(),
                values@.len() == PREIMAGE_BITS,
                bits@.len() == i,
            decreases values@.len() - i,
        {
            let bit = allocate_bit(cs, i, values[i])?;
            bits.push(bit);
            i += 1;
        }
        let hash = sha256d(cs, &bits)?;
        expose_as_inputs(cs, &hash)
    }
}

} // verus!
