//! What can go wrong while a checklist is processed.

use vstd::prelude::*;

verus! {

/// What can go wrong while a checklist is processed. The first three are
/// counted and the run goes on; the last two end it.
#[derive(Debug, PartialEq, Eq)]
pub enum SrisumError {
    /// A line is no `<integrity> <target>`.
    MalformedLine,
    /// The target of a line does not exist.
    TargetNotFound,
    /// The content of a target has none of the digests claimed for it under
    /// the strongest algorithm.
    IntegrityMismatch,
    /// A target could not be read, for another reason than that it does not
    /// exist. The text says which and why.
    UnexpectedIo(String),
    /// A checklist could not be opened. The text says which and why.
    ChecklistSourceUnavailable(String),
}

impl Clone for SrisumError {
    fn clone(&self) -> (copy: Self)
        ensures
            copy == *self,
    {
        match self {
            SrisumError::MalformedLine => SrisumError::MalformedLine,
            SrisumError::TargetNotFound => SrisumError::TargetNotFound,
            SrisumError::IntegrityMismatch => SrisumError::IntegrityMismatch,
            SrisumError::UnexpectedIo(context) => SrisumError::UnexpectedIo(context.clone()),
            SrisumError::ChecklistSourceUnavailable(context) => {
                SrisumError::ChecklistSourceUnavailable(context.clone())
            },
        }
    }
}

impl SrisumError {
    /// The text that describes the error.
    pub open spec fn text(self) -> Seq<char> {
        match self {
            SrisumError::MalformedLine => "Failed to parse integrity string"@,
            SrisumError::TargetNotFound => "No such file or directory"@,
            SrisumError::IntegrityMismatch => "File failed integrity check"@,
            SrisumError::UnexpectedIo(context) => "I/O Error: "@ + context@,
            SrisumError::ChecklistSourceUnavailable(context) => "Failed to open checksum file: "@
                + context@,
        }
    }

    /// The text that describes the error.
    pub fn message(&self) -> (text: String)
        ensures
            text@ == self.text(),
    {
        match self {
            SrisumError::MalformedLine => String::from_str("Failed to parse integrity string"),
            SrisumError::TargetNotFound => String::from_str("No such file or directory"),
            SrisumError::IntegrityMismatch => String::from_str("File failed integrity check"),
            SrisumError::UnexpectedIo(context) => String::from_str("I/O Error: ").concat(
                context.as_str(),
            ),
            SrisumError::ChecklistSourceUnavailable(context) => String::from_str(
                "Failed to open checksum file: ",
            ).concat(context.as_str()),
        }
    }
}

} // verus!
