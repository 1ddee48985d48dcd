//! The failures that the operations of this crate report.

use vstd::prelude::*;

verus! {

/// Names the stored object that a lookup did not find: its kind and its key.
#[derive(Debug, PartialEq, Eq)]
pub enum MissingObject {
    /// No setup artifact is stored for the program.
    Setup { program_id: u32 },
    /// The program has no proof with this identifier.
    Proof { program_id: u32, proof_id: u32 },
}

/// Why an operation failed. Every failure a caller can trigger is returned as
/// a value of this type.
#[derive(Debug, PartialEq, Eq)]
pub enum Error {
    /// Assembly was asked for before the fragment with this index arrived.
    MissingChunk(u32),
    /// The assembled bytes are not a valid object; the codec's reason.
    DeserializationError(String),
    /// A lookup of a setup artifact or of a proof found nothing.
    NotFound(MissingObject),
    /// The caller is not the owner.
    NotAuthorized,
    /// A failure of the hosting layer, or a limit of the machine.
    Internal(String),
}

/// The failure of a lookup of the setup artifact of `program_id`.
pub open spec fn setup_not_found(program_id: u32) -> Error {
    Error::NotFound(MissingObject::Setup { program_id })
}

/// The failure of a lookup of the proof `proof_id` of `program_id`.
pub open spec fn proof_not_found(program_id: u32, proof_id: u32) -> Error {
    Error::NotFound(MissingObject::Proof { program_id, proof_id })
}

} // verus!
