//! Decodes a `multipart/form-data` body — an ordered stream of named,
//! independently typed parts — into a pre-declared, strongly typed record.
//!
//! A caller declares a [`TargetShape`](assemble::TargetShape): an ordered list
//! of field descriptors, each naming the part it matches, its cardinality
//! (required, optional, defaulted, or list) and the target type. The
//! [`assemble`](assemble::assemble) function walks the incoming parts exactly
//! once, converts each into the declared type, and either returns the fully
//! populated record or the first error, never a partial record.
//!
//! The boundary tokenizer that frames raw bytes into parts, and the transport
//! that streams disk-backed parts to the filesystem, are the caller's
//! collaborators: they hand this library plain values ([`part::Part`],
//! [`temp_file::TempFile`]) and take plain values back.

pub mod assemble;
pub mod convert;
pub mod errors;
pub mod parse;
pub mod part;
pub mod temp_file;

pub use assemble::assemble;
pub use assemble::AssemblyOutcome;
pub use assemble::Cardinality;
pub use assemble::FieldDescriptor;
pub use assemble::Record;
pub use assemble::SlotValue;
pub use assemble::TargetShape;
pub use convert::convert;
pub use convert::FieldType;
pub use convert::ScalarType;
pub use convert::TryFromField;
pub use convert::Value;
pub use errors::TypedMultipartError;
pub use part::FieldData;
pub use part::FieldMetadata;
pub use part::Part;
pub use part::PartBody;
pub use temp_file::PersistJob;
pub use temp_file::TempFile;
pub use temp_file::TempSink;
