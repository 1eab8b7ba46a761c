//! The proof system: Groth16 over BLS12-381 for the commitment circuit.
//!
//! [`setup`] generates a proving and a verifying key for the circuit,
//! [`prove`] shows knowledge of a preimage, and [`verify`] checks a proof
//! against a commitment. Keys and proofs are handled as bytes in their
//! native encoding; only the proving key stays in memory as it is. Every
//! proof is checked against its commitment before it is handed out, so that
//! what [`prove`] returns is what [`verify`] accepts.

use vstd::prelude::*;
use vstd::string::StringSliceAdditionalSpecFns;
use bellman::gadgets::multipack;
use bellman::groth16;
use bls12_381::Bls12;
use rand::rngs::OsRng;
use crate::circuit::CommitmentCircuit;
use crate::commitment::{commit, commitment_of, DIGEST_LENGTH};
use crate::error::Error;
use crate::preimage::{pad_preimage, zero_padded, PREIMAGE_CAPACITY};

verus! {

/// The number of bytes in a proof: two compressed points of the first group
/// and one of the second.
pub const PROOF_LENGTH: usize = 192;

/// `bellman::groth16::Parameters` over BLS12-381: the parameters that are
/// generated for the commitment circuit. Nothing is known of a value of it.
#[verifier::external_body]
pub struct Groth16Parameters {
    inner: groth16::Parameters<Bls12>,
}

/// The proving key of the commitment circuit, with the encoding of the
/// verifying key that was generated with it.
pub struct ProvingParameters {
    groth16: Groth16Parameters,
    verifying_key: Vec<u8>,
}

impl ProvingParameters {
    /// The encoding of the verifying key.
    pub closed spec fn key(&self) -> Seq<u8> {
        self.verifying_key@
    }

    /// The encoding of the verifying key.
    pub fn verifying_key(&self) -> (key: Vec<u8>)
        ensures
            key@ == self.key(),
    {
        self.verifying_key.clone()
    }
}

/// Why no proof was produced.
#[derive(Clone, Copy, Debug, PartialEq, Eq)]
pub enum ProvingError {
    /// The preimage exceeds the capacity of the circuit.
    PreimageTooLong,
    /// The proof system gave up while it built the proof.
    Synthesis,
    /// The proof that was built does not verify.
    Unverified,
}

/// Whether bytes are the native encoding of a verifying key, as
/// `VerifyingKey::read` of `bellman` decides it.
pub uninterp spec fn verifying_key_parses(key: Seq<u8>) -> bool;

/// Whether bytes begin with the native encoding of a proof, as
/// `Proof::read` of `bellman` decides it.
pub uninterp spec fn proof_parses(proof: Seq<u8>) -> bool;

/// Whether `bellman` accepts a proof, given in its native encoding, for a
/// commitment under a verifying key, given in its native encoding.
pub uninterp spec fn groth16_accepts(key: Seq<u8>, commitment: Seq<u8>, proof: Seq<u8>) -> bool;

/// `groth16::generate_random_parameters`: parameters for the circuit, with
/// randomness from the operating system.
#[verifier::external_body]
fn generate_parameters(circuit: CommitmentCircuit) -> (params: Result<
    Groth16Parameters,
    bellman::SynthesisError,
>) {
    let inner = groth16::generate_random_parameters::<Bls12, _, _>(circuit, &mut OsRng)?;
    Ok(Groth16Parameters { inner })
}

/// `VerifyingKey::write`: the native encoding of the verifying key that the
/// parameters hold.
#[verifier::external_body]
fn write_verifying_key(params: &Groth16Parameters) -> (key: Option<Vec<u8>>) {
    let mut bytes = Vec::new();
    params.inner.vk.write(&mut bytes).ok()?;
    Some(bytes)
}

/// `groth16::create_random_proof`, then `Proof::write`: a proof for the
/// circuit with its witness, with randomness from the operating system, in
/// its native encoding of 192 bytes.
#[verifier::external_body]
fn create_proof(params: &Groth16Parameters, circuit: CommitmentCircuit) -> (proof: Result<
    Vec<u8>,
    bellman::SynthesisError,
>)
    ensures
        proof matches Ok(bytes) ==> bytes@.len() == PROOF_LENGTH,
{
    let proof = groth16::create_random_proof(circuit, &params.inner, &mut OsRng)?;
    let mut bytes = Vec::new();
    proof.write(&mut bytes)?;
    Ok(bytes)
}

/// `VerifyingKey::read`: whether the bytes are the native encoding of a
/// verifying key.
#[verifier::external_body]
pub(crate) fn parses_as_verifying_key(key: &[u8]) -> (ok: bool)
    ensures
        ok == verifying_key_parses(key@),
{
    groth16::VerifyingKey::<Bls12>::read(key).is_ok()
}

/// `Proof::read`: whether the bytes begin with the native encoding of a
/// proof.
#[verifier::external_body]
fn parses_as_proof(proof: &[u8]) -> (ok: bool)
    ensures
        ok == proof_parses(proof@),
{
    groth16::Proof::<Bls12>::read(proof).is_ok()
}

/// `groth16::verify_proof` on a key and a proof that can be read, the key
/// read and prepared, the proof read, and the commitment packed into field
/// elements as the circuit packs its public inputs.
#[verifier::external_body]
fn check_proof(key: &[u8], commitment: &[u8], proof: &[u8]) -> (ok: bool)
    requires
        verifying_key_parses(key@),
        proof_parses(proof@),
    ensures
        ok == groth16_accepts(key@, commitment@, proof@),
{
    let Ok(key) = groth16::VerifyingKey::<Bls12>::read(key) else { return false };
    let Ok(proof) = groth16::Proof::<Bls12>::read(proof) else { return false };
    let prepared = groth16::prepare_verifying_key(&key);
    let inputs = multipack::compute_multipacking(&multipack::bytes_to_bits_le(commitment));
    groth16::verify_proof(&prepared, &proof, &inputs).is_ok()
}

/// What [`verify`] accepts under a key: a commitment of 32 bytes and a
/// proof of 192 bytes, with a key and a proof that can be read, that
/// `bellman` accepts.
pub open spec fn verifies(key: Seq<u8>, commitment: Seq<u8>, proof: Seq<u8>) -> bool {
    &&& commitment.len() == DIGEST_LENGTH
    &&& proof.len() == PROOF_LENGTH
    &&& verifying_key_parses(key)
    &&& proof_parses(proof)
    &&& groth16_accepts(key, commitment, proof)
}

/// What proving a buffer under a key may end in: a proof that [`verify`]
/// accepts for the buffer's commitment, a failure of the proof system,
/// or, where a proof was made that [`verify`] does not accept, the report
/// of it.
pub open spec fn may_return(key: Seq<u8>, buffer: Seq<u8>, out: Result<Vec<u8>, ProvingError>)
    -> bool {
    match out {
        Ok(bytes) => verifies(key, commitment_of(buffer), bytes@),
        Err(ProvingError::Synthesis) => true,
        Err(ProvingError::Unverified) => exists|made: Seq<u8>|
            made.len() == PROOF_LENGTH && !#[trigger] verifies(key, commitment_of(buffer), made),
        Err(ProvingError::PreimageTooLong) => false,
    }
}

/// Decides on the keys of a key generation: the parameters, and what was
/// written of their verifying key. The keys are good when the verifying key
/// was written and reads back; anything else is [`Error::Serialization`].
pub fn accept_keys(groth16: Groth16Parameters, written: Option<Vec<u8>>) -> (keys: Result<
    (ProvingParameters, Vec<u8>),
    Error,
>)
    ensures
        match written {
            Some(key) => if verifying_key_parses(key@) {
                keys matches Ok((params, kept)) && kept@ == key@ && params.key() == key@
            } else {
                keys matches Err(Error::Serialization)
            },
            None => keys matches Err(Error::Serialization),
        },
{
    match written {
        Some(key) => {
            if parses_as_verifying_key(key.as_slice()) {
                let params = ProvingParameters { groth16, verifying_key: key.clone() };
                Ok((params, key))
            } else {
                Err(Error::Serialization)
            }
        },
        None => Err(Error::Serialization),
    }
}

/// Generates a proving key and the verifying key that goes with it, the
/// latter in its native encoding, for the circuit with no witness. The keys
/// are fresh on every call and come from no ceremony. Fails with
/// [`Error::Setup`] when no key can be generated and with
/// [`Error::Serialization`] when the verifying key does not read back from
/// its encoding, as [`accept_keys`] decides.
pub fn setup() -> (keys: Result<(ProvingParameters, Vec<u8>), Error>)
    ensures
        keys matches Ok((params, key)) ==> key@ == params.key() && verifying_key_parses(key@),
        keys matches Err(e) ==> e is Setup || e is Serialization,
{
    let groth16 = match generate_parameters(CommitmentCircuit::without_witness()) {
        Ok(groth16) => groth16,
        Err(_) => {
            return Err(Error::Setup);
        },
    };
    let written = write_verifying_key(&groth16);
    accept_keys(groth16, written)
}

/// Decides on what the proof system made for a buffer: a proof that
/// [`verify`] accepts for the buffer's commitment under the key is handed
/// on, another one is reported as [`ProvingError::Unverified`], and none at
/// all as [`ProvingError::Synthesis`].
pub fn accept_proof(key: &[u8], buffer: &[u8; 80], made: Option<Vec<u8>>) -> (out: Result<
    Vec<u8>,
    ProvingError,
>)
    ensures
        match made {
            Some(bytes) => if verifies(key@, commitment_of(buffer@), bytes@) {
                out == Ok::<Vec<u8>, ProvingError>(bytes)
            } else {
                out == Err::<Vec<u8>, ProvingError>(ProvingError::Unverified)
            },
            None => out == Err::<Vec<u8>, ProvingError>(ProvingError::Synthesis),
        },
{
    match made {
        Some(bytes) => {
            let commitment = commit(buffer);
            if verify(key, commitment.as_slice(), bytes.as_slice()) {
                Ok(bytes)
            } else {
                Err(ProvingError::Unverified)
            }
        },
        None => Err(ProvingError::Synthesis),
    }
}

/// Proves knowledge of a preimage buffer: builds the circuit with the buffer
/// as its witness, has the proof system make a proof, and lets
/// [`accept_proof`] decide on it under the verifying key of the parameters.
/// A proof that comes back is one that [`verify`] accepts.
pub fn prove_buffer(params: &ProvingParameters, buffer: &[u8; 80]) -> (proof: Result<
    Vec<u8>,
    ProvingError,
>)
    ensures
        may_return(params.key(), buffer@, proof),
{
    let made = match create_proof(&params.groth16, CommitmentCircuit::with_witness(buffer)) {
        Ok(bytes) => Some(bytes),
        Err(_) => None,
    };
    proof {
        if made is Some {
            assert(made->0@.len() == PROOF_LENGTH);
        }
    }
    accept_proof(params.verifying_key.as_slice(), buffer, made)
}

/// Proves knowledge of the preimage that the text `m` pads to. The length
/// of `m` is checked before the circuit is built, and the proof against
/// the commitment before it is returned.
pub fn prove(params: &ProvingParameters, m: &str) -> (proof: Result<Vec<u8>, ProvingError>)
    ensures
        m.spec_bytes().len() > PREIMAGE_CAPACITY <==> proof matches Err(
            ProvingError::PreimageTooLong,
        ),
        m.spec_bytes().len() <= PREIMAGE_CAPACITY ==> may_return(
            params.key(),
            zero_padded(m.spec_bytes()),
            proof,
        ),
{
    match pad_preimage(m.as_bytes()) {
        Some(buffer) => prove_buffer(params, &buffer),
        None => Err(ProvingError::PreimageTooLong),
    }
}

/// Checks a proof against a commitment under a verifying key. Anything
/// malformed is a rejection: a commitment or a proof of the wrong length,
/// and a key or a proof that cannot be read.
pub fn verify(key: &[u8], hash: &[u8], proof: &[u8]) -> (ok: bool)
    ensures
        ok == verifies(key@, hash@, proof@),
        !proof_parses(proof@) ==> !ok,
        !verifying_key_parses(key@) ==> !ok,
{
    if hash.len() != DIGEST_LENGTH || proof.len() != PROOF_LENGTH {
        return false;
    }
    if !parses_as_verifying_key(key) || !parses_as_proof(proof) {
        return false;
    }
    check_proof(key, hash, proof)
}

} // verus!
