use vstd::prelude::*;

verus! {

/// The unified error taxonomy flowing out of conversion and assembly.
///
/// The first error encountered during either conversion or finalization
/// aborts the entire assembly; every error is returned as a value so a host
/// layer can map it to a protocol-level response.
pub enum TypedMultipartError {
    /// The part's text content did not parse as the declared scalar type.
    WrongFieldType { field_name: String, wanted_type: String },
    /// A required slot had zero occurrences in the part stream.
    MissingField { field_name: String },
    /// A part name matched no descriptor (strict policy only).
    UnknownField { field_name: String },
    /// Malformed UTF-8 text, or a transport-level stream failure.
    InvalidRequestBody,
    /// Temporary-file creation, write, or persist failure.
    IOError,
    /// Reserved for future size enforcement; never produced today.
    FieldLimitExceeded { field_name: String },
}

} // verus!
