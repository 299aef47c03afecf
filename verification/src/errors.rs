//! The failure taxonomy of the proof lifecycle. Every operation reports
//! exactly one of these; callers branch on the stable per-operation label.

use vstd::prelude::*;

verus! {

/// What went wrong during one lifecycle operation. No operation ever
/// returns a partial result alongside one of these.
#[derive(Clone, Copy, PartialEq, Eq, Structural, Debug)]
pub enum Error {
    /// The structured reference string could not be provisioned.
    SrsProvision,
    /// The verification key could not be derived from the bytecode.
    VerificationKey,
    /// The witness string at this position (zero-based) of the input list
    /// does not parse as a canonical field element.
    WitnessParse { index: usize },
    /// The circuit requires this witness index, but the witness map has no
    /// value for it.
    IncompleteWitness { missing: u32 },
    /// Serialized witness bytes that do not follow the codec's layout.
    WitnessFormat,
    /// The proving backend failed; a key produced under other flags
    /// surfaces here when the backend cannot tell the cases apart.
    Proving,
    /// Proof or verification-key bytes that cannot even be parsed.
    ProofFormat,
}

impl Error {
    /// The stable label that prefixes every caller-facing message for the
    /// operation that raised this error.
    pub fn label(&self) -> (r: &'static str)
        ensures
            r@ == match *self {
                Error::SrsProvision => "SRS setup failed"@,
                Error::VerificationKey => "Getting verification key failed"@,
                Error::WitnessParse { .. } => "Failed to convert witness"@,
                Error::IncompleteWitness { .. } => "Witness is missing a required input"@,
                Error::WitnessFormat => "Failed to deserialize witness"@,
                Error::Proving => "Proving failed"@,
                Error::ProofFormat => "Proof verification failed"@,
            },
    {
        match self {
            Error::SrsProvision => "SRS setup failed",
            Error::VerificationKey => "Getting verification key failed",
            Error::WitnessParse { .. } => "Failed to convert witness",
            Error::IncompleteWitness { .. } => "Witness is missing a required input",
            Error::WitnessFormat => "Failed to deserialize witness",
            Error::Proving => "Proving failed",
            Error::ProofFormat => "Proof verification failed",
        }
    }
}

} // verus!
