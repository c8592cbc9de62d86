use vstd::prelude::*;

verus! {

/// serde_json's error type, carried through from the parser to be mapped to [`GenerateError`].
#[verifier::external_type_specification]
#[verifier::external_body]
pub struct ExJsonError(serde_json::Error);

/// A field of the commit-message record.
#[derive(Clone, Copy, Debug, PartialEq, Eq, Structural)]
pub enum Field {
    Category,
    Title,
    Changes,
}

/// Why one generation attempt failed.
#[derive(Clone, Copy, Debug, PartialEq, Eq, Structural)]
pub enum GenerateError {
    /// A line of the transport stream is not valid JSON.
    MalformedEvent,
    /// The accumulated model output is not a valid JSON document.
    MalformedDocument,
    /// A required field of the record is absent or has the wrong type.
    BadField(Field),
    /// The category is not one of the closed set of commit kinds.
    UnknownCategory,
}

} // verus!
