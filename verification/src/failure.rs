//! The ways in which one invocation of the pipeline can fail.

use vstd::prelude::*;

verus! {

/// Why an invocation stopped. Nothing is retried: the first failure ends it.
#[derive(Clone, Copy, Debug, PartialEq, Eq, Structural)]
pub enum Failure {
    /// The bundled table could not be opened, or the national enumeration
    /// could not be reached.
    SourceUnavailable,
    /// A row of the table does not have the expected shape.
    MalformedInputRow,
    /// The artifact that a stage reads has not been produced yet.
    ArtifactMissing,
    /// The artifact that a stage reads is there but cannot be decoded.
    ArtifactCorrupt,
    /// The destination of an artifact could not be written.
    WriteFailure,
    /// A collaborator outside this layer reported an error of its own.
    CollaboratorFailed,
}

impl Failure {
    /// The sentence shown for each failure.
    pub open spec fn spec_message(self) -> Seq<char> {
        match self {
            Failure::SourceUnavailable => "the input source of the region is unavailable"@,
            Failure::MalformedInputRow => "a row of the input table is malformed"@,
            Failure::ArtifactMissing => "the population artifact has not been produced yet"@,
            Failure::ArtifactCorrupt => "the population artifact cannot be decoded"@,
            Failure::WriteFailure => "the destination could not be written"@,
            Failure::CollaboratorFailed => "a collaborator reported an error"@,
        }
    }

    /// A human-readable sentence for the failure.
    pub fn message(self) -> (text: &'static str)
        ensures
            text@ == self.spec_message(),
    {
        match self {
            Failure::SourceUnavailable => "the input source of the region is unavailable",
            Failure::MalformedInputRow => "a row of the input table is malformed",
            Failure::ArtifactMissing => "the population artifact has not been produced yet",
            Failure::ArtifactCorrupt => "the population artifact cannot be decoded",
            Failure::WriteFailure => "the destination could not be written",
            Failure::CollaboratorFailed => "a collaborator reported an error",
        }
    }
}

} // verus!
