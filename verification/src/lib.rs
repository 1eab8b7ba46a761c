//! Field redaction for structured records, with salted commitments and
//! zero-knowledge proofs that every commitment opens to a known value.
//!
//! A selected field's text is joined with a salt, padded to a fixed buffer,
//! hashed twice with SHA-256 and replaced by the hex digest. For each
//! replaced field a Groth16 proof attests knowledge of the buffer behind the
//! digest. The proofs travel in one binary bundle, addressed by record index
//! and field key, and can be checked later with the verifying key alone.
//!
//! The parts, leaves first:
//!
//! - [`text`], [`hexadecimal`]: bytes, text and hex digits;
//! - [`preimage`], [`commitment`]: the buffer behind a commitment and the
//!   commitment itself;
//! - [`circuit`], [`zk`]: the commitment as a constraint system, and the
//!   proof system around it;
//! - [`bundle`], [`frames`]: the two encodings of a list of proofs;
//! - [`record`], [`salt`]: records and their keys, and the salt;
//! - [`redaction`], [`verification`]: the two engines, over any prover and
//!   any verifier;
//! - [`zk4log`], [`nopen`]: the commands of the tool, on values;
//! - [`parser`], [`progress_bar`], [`error`]: what stands beside them.

pub mod error;
pub mod text;
pub mod record;
pub mod hexadecimal;
pub mod bundle;
pub mod frames;
pub mod preimage;
pub mod commitment;
pub mod circuit;
pub mod zk;
pub mod salt;
pub mod redaction;
pub mod verification;
pub mod zk4log;
pub mod nopen;
pub mod parser;
pub mod progress_bar;
