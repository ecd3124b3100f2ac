use crate::temp_file::TempFile;
use vstd::prelude::*;

verus! {

/// The metadata carried by one multipart part: the optional original file
/// name and the optional declared content type.
pub struct FieldMetadata {
    pub file_name: Option<String>,
    pub content_type: Option<String>,
}

/// Pairs a part's metadata with its converted contents, for callers that
/// need the request headers alongside the value.
pub struct FieldData<T> {
    pub metadata: FieldMetadata,
    pub contents: T,
}

/// The single-pass content of one part.
///
/// The boundary parser hands the body fully read into memory; for a part the
/// target shape declares disk-backed, the transport instead streams the body
/// through a [`TempSink`](crate::temp_file::TempSink) and hands the finished
/// handle.
pub enum PartBody {
    Bytes(Vec<u8>),
    File(TempFile),
}

/// One item of the incoming stream: a name (not necessarily unique across
/// the stream), its metadata, and a body that is consumed by exactly one
/// conversion attempt.
pub struct Part {
    pub name: String,
    pub metadata: FieldMetadata,
    pub body: PartBody,
}

} // verus!
