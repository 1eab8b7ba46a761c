//! The failures that redaction and verification report.

use vstd::prelude::*;

verus! {

/// What went wrong, with the record and field it concerns where there is one.
#[derive(Clone, Debug, PartialEq, Eq)]
pub enum Error {
    /// A field's text and the salt together exceed the preimage capacity.
    PreimageTooLong { record_index: usize, field_key: String },
    /// Key generation for the commitment circuit failed.
    Setup,
    /// No proof could be produced for a field.
    Proving { record_index: usize, field_key: String },
    /// A key or a proof could not be encoded or decoded.
    Serialization,
    /// A proof bundle is not a sequence of complete, well-formed records.
    BundleFraming,
    /// A proof names a record or a field that the record set lacks.
    VerificationMismatch { record_index: usize, field_key: String },
    /// A proof was checked against its commitment and rejected.
    VerificationFailed { record_index: usize, field_key: String },
}

impl Error {
    /// A one-line description, for messages.
    pub fn describe(&self) -> (text: &'static str)
        ensures
            text@ == Self::message(*self),
    {
        match self {
            Error::PreimageTooLong { .. } => "value and salt exceed the preimage capacity",
            Error::Setup => "key generation failed",
            Error::Proving { .. } => "proof generation failed",
            Error::Serialization => "malformed key or proof",
            Error::BundleFraming => "malformed proof bundle",
            Error::VerificationMismatch { .. } => "no field for this proof",
            Error::VerificationFailed { .. } => "proof rejected",
        }
    }

    /// The text that [`Error::describe`] returns.
    pub open spec fn message(e: Error) -> Seq<char> {
        match e {
            Error::PreimageTooLong { .. } => "value and salt exceed the preimage capacity"@,
            Error::Setup => "key generation failed"@,
            Error::Proving { .. } => "proof generation failed"@,
            Error::Serialization => "malformed key or proof"@,
            Error::BundleFraming => "malformed proof bundle"@,
            Error::VerificationMismatch { .. } => "no field for this proof"@,
            Error::VerificationFailed { .. } => "proof rejected"@,
        }
    }
}

} // verus!
