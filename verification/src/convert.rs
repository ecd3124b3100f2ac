use crate::errors::TypedMultipartError;
use crate::parse::{
    parse_bool, parse_char, parse_i64, parse_u64, spec_parse_bool, spec_parse_char, spec_parse_i64,
    spec_parse_u64,
};
use crate::part::{Part, PartBody};
use crate::temp_file::TempFile;
use vstd::prelude::*;
use vstd::utf8::{decode_utf8, valid_utf8};

verus! {

/// The scalar target types, one table entry each; extend by adding entries.
#[derive(Clone, Copy)]
pub enum ScalarType {
    /// A signed integer, parsed by the signed literal grammar.
    Integer,
    /// An unsigned integer, parsed by the unsigned literal grammar.
    Unsigned,
    /// Exactly `true` or `false`.
    Boolean,
    /// Exactly one character.
    Character,
}

/// The closed universe of target types a slot can declare.
#[derive(Clone, Copy)]
pub enum FieldType {
    /// Read the body as text, then parse it as the scalar.
    Scalar(ScalarType),
    /// Read the body as text, passed through unchanged.
    Text,
    /// Read the body into an in-memory contiguous buffer.
    Binary,
    /// Stream the body to a temporary file; never buffered whole in memory.
    Disk,
}

/// One converted value, tagged by its target type.
pub enum Value {
    Integer(i64),
    Unsigned(u64),
    Boolean(bool),
    Character(char),
    Text(String),
    Binary(Vec<u8>),
    File(TempFile),
}

/// The canonical name of a scalar target type, as reported by
/// `WrongFieldType`.
pub open spec fn spec_wanted_name(k: ScalarType) -> Seq<char> {
    match k {
        ScalarType::Integer => "integer"@,
        ScalarType::Unsigned => "unsigned integer"@,
        ScalarType::Boolean => "boolean"@,
        ScalarType::Character => "character"@,
    }
}

/// The canonical name of a scalar target type.
pub fn wanted_name(k: &ScalarType) -> (s: String)
    ensures
        s@ == spec_wanted_name(*k),
{
    match k {
        ScalarType::Integer => "integer".to_owned(),
        ScalarType::Unsigned => "unsigned integer".to_owned(),
        ScalarType::Boolean => "boolean".to_owned(),
        ScalarType::Character => "character".to_owned(),
    }
}

/// Relies on `String::from_utf8` of std: it returns the string decoding the
/// bytes exactly when they are valid UTF-8, and refuses them otherwise.
#[verifier::external_body]
fn utf8_text(bytes: Vec<u8>) -> (r: Option<String>)
    ensures
        r is Some <==> valid_utf8(bytes@),
        r is Some ==> r->Some_0@ == decode_utf8(bytes@),
{
    String::from_utf8(bytes).ok()
}

/// Whether the scalar's grammar accepts the text.
pub open spec fn spec_scalar_parses(k: ScalarType, text: Seq<char>) -> bool {
    match k {
        ScalarType::Integer => spec_parse_i64(text) is Some,
        ScalarType::Unsigned => spec_parse_u64(text) is Some,
        ScalarType::Boolean => spec_parse_bool(text) is Some,
        ScalarType::Character => spec_parse_char(text) is Some,
    }
}

/// The converted value is the scalar the text denotes.
pub open spec fn spec_scalar_value_ok(k: ScalarType, text: Seq<char>, v: Value) -> bool {
    match k {
        ScalarType::Integer => v matches Value::Integer(n) && spec_parse_i64(text) == Some(n),
        ScalarType::Unsigned => v matches Value::Unsigned(n) && spec_parse_u64(text) == Some(n),
        ScalarType::Boolean => v matches Value::Boolean(b) && spec_parse_bool(text) == Some(b),
        ScalarType::Character => v matches Value::Character(c) && spec_parse_char(text) == Some(c),
    }
}

/// Whether converting the part to the target type succeeds.
pub open spec fn spec_convert_ok(ft: FieldType, p: Part) -> bool {
    match ft {
        FieldType::Scalar(k) => p.body matches PartBody::Bytes(b) && valid_utf8(b@)
            && spec_scalar_parses(k, decode_utf8(b@)),
        FieldType::Text => p.body matches PartBody::Bytes(b) && valid_utf8(b@),
        FieldType::Binary => p.body is Bytes,
        FieldType::Disk => p.body is File,
    }
}

/// The value a successful conversion returns: the parsed scalar, the decoded
/// text, the raw bytes, or the disk-backed handle, exactly.
pub open spec fn spec_value_ok(ft: FieldType, p: Part, v: Value) -> bool {
    match ft {
        FieldType::Scalar(k) => p.body matches PartBody::Bytes(b) && valid_utf8(b@)
            && spec_scalar_value_ok(k, decode_utf8(b@), v),
        FieldType::Text => p.body matches PartBody::Bytes(b) && valid_utf8(b@) && (
        v matches Value::Text(s) && s@ == decode_utf8(b@)),
        FieldType::Binary => p.body matches PartBody::Bytes(b) && v == Value::Binary(b),
        FieldType::Disk => p.body matches PartBody::File(f) && v == Value::File(f),
    }
}

/// The error a failed conversion returns: `InvalidRequestBody` for malformed
/// UTF-8 text or a body whose transport form does not fit the target type,
/// `WrongFieldType` naming the part and the wanted type for text that does
/// not parse as the declared scalar.
pub open spec fn spec_convert_err(ft: FieldType, p: Part, e: TypedMultipartError) -> bool {
    match ft {
        FieldType::Scalar(k) => match p.body {
            PartBody::Bytes(b) => if !valid_utf8(b@) {
                e is InvalidRequestBody
            } else {
                !spec_scalar_parses(k, decode_utf8(b@))
                    && (e matches TypedMultipartError::WrongFieldType { field_name, wanted_type }
                    && field_name@ == p.name@ && wanted_type@ == spec_wanted_name(k))
            },
            PartBody::File(_) => e is InvalidRequestBody,
        },
        FieldType::Text => !(p.body matches PartBody::Bytes(b) && valid_utf8(b@))
            && e is InvalidRequestBody,
        FieldType::Binary => p.body is File && e is InvalidRequestBody,
        FieldType::Disk => p.body is Bytes && e is InvalidRequestBody,
    }
}

/// Converts one part's body into the declared target type.
///
/// Scalar and text targets read the entire body as text (malformed UTF-8
/// fails with `InvalidRequestBody`); a scalar that does not match the target
/// grammar fails with `WrongFieldType` naming the part and the wanted type.
/// Binary targets take the raw bytes; disk-backed targets take the streamed
/// temp-file handle. A body whose transport form does not fit the target
/// (a disk-backed handle for an in-memory target, or the reverse) fails with
/// `InvalidRequestBody`.
pub fn convert(ft: &FieldType, part: Part) -> (r: Result<Value, TypedMultipartError>)
    ensures
        r is Ok <==> spec_convert_ok(*ft, part),
        r is Ok ==> spec_value_ok(*ft, part, r->Ok_0),
        r is Err ==> spec_convert_err(*ft, part, r->Err_0),
{
    let Part { name, metadata: _, body } = part;
    match ft {
        FieldType::Scalar(k) => match body {
            PartBody::Bytes(b) => match utf8_text(b) {
                Some(text) => convert_scalar(k, name, text),
                None => Err(TypedMultipartError::InvalidRequestBody),
            },
            PartBody::File(_) => Err(TypedMultipartError::InvalidRequestBody),
        },
        FieldType::Text => match body {
            PartBody::Bytes(b) => match utf8_text(b) {
                Some(text) => Ok(Value::Text(text)),
                None => Err(TypedMultipartError::InvalidRequestBody),
            },
            PartBody::File(_) => Err(TypedMultipartError::InvalidRequestBody),
        },
        FieldType::Binary => match body {
            PartBody::Bytes(b) => Ok(Value::Binary(b)),
            PartBody::File(_) => Err(TypedMultipartError::InvalidRequestBody),
        },
        FieldType::Disk => match body {
            PartBody::File(f) => Ok(Value::File(f)),
            PartBody::Bytes(_) => Err(TypedMultipartError::InvalidRequestBody),
        },
    }
}

/// Parses the decoded text as the scalar target, or reports `WrongFieldType`
/// naming the offending part and the wanted type.
fn convert_scalar(k: &ScalarType, name: String, text: String) -> (r: Result<
    Value,
    TypedMultipartError,
>)
    ensures
        r is Ok <==> spec_scalar_parses(*k, text@),
        r is Ok ==> spec_scalar_value_ok(*k, text@, r->Ok_0),
        r is Err ==> (r->Err_0 matches TypedMultipartError::WrongFieldType {
            field_name,
            wanted_type,
        } && field_name@ == name@ && wanted_type@ == spec_wanted_name(*k)),
{
    let parsed: Option<Value> = match k {
        ScalarType::Integer => match parse_i64(text.as_str()) {
            Some(n) => Some(Value::Integer(n)),
            None => None,
        },
        ScalarType::Unsigned => match parse_u64(text.as_str()) {
            Some(n) => Some(Value::Unsigned(n)),
            None => None,
        },
        ScalarType::Boolean => match parse_bool(text.as_str()) {
            Some(b) => Some(Value::Boolean(b)),
            None => None,
        },
        ScalarType::Character => match parse_char(text.as_str()) {
            Some(c) => Some(Value::Character(c)),
            None => None,
        },
    };
    match parsed {
        Some(v) => Ok(v),
        None => Err(
            TypedMultipartError::WrongFieldType { field_name: name, wanted_type: wanted_name(k) },
        ),
    }
}

/// Types that can be created from one part of the stream: the extension
/// point for caller-defined convertible types.
pub trait TryFromField: Sized {
    /// Consumes the part to create the target value.
    fn try_from_field(part: Part) -> Result<Self, TypedMultipartError>;
}

impl TryFromField for String {
    /// The body read as text, unchanged beyond UTF-8 validation.
    fn try_from_field(part: Part) -> (r: Result<Self, TypedMultipartError>)
        ensures
            r is Ok <==> spec_convert_ok(FieldType::Text, part),
            r is Ok ==> spec_value_ok(FieldType::Text, part, Value::Text(r->Ok_0)),
    {
        match convert(&FieldType::Text, part) {
            Ok(Value::Text(s)) => Ok(s),
            Ok(_) => Err(TypedMultipartError::InvalidRequestBody),
            Err(e) => Err(e),
        }
    }
}

impl TryFromField for Vec<u8> {
    /// The raw body bytes, uninterpreted.
    fn try_from_field(part: Part) -> (r: Result<Self, TypedMultipartError>)
        ensures
            r is Ok <==> spec_convert_ok(FieldType::Binary, part),
            r is Ok ==> spec_value_ok(FieldType::Binary, part, Value::Binary(r->Ok_0)),
    {
        match convert(&FieldType::Binary, part) {
            Ok(Value::Binary(b)) => Ok(b),
            Ok(_) => Err(TypedMultipartError::InvalidRequestBody),
            Err(e) => Err(e),
        }
    }
}

impl TryFromField for u64 {
    /// The body read as text and parsed by the unsigned literal grammar.
    fn try_from_field(part: Part) -> (r: Result<Self, TypedMultipartError>)
        ensures
            r is Ok <==> spec_convert_ok(FieldType::Scalar(ScalarType::Unsigned), part),
            r is Ok ==> spec_value_ok(
                FieldType::Scalar(ScalarType::Unsigned),
                part,
                Value::Unsigned(r->Ok_0),
            ),
    {
        match convert(&FieldType::Scalar(ScalarType::Unsigned), part) {
            Ok(Value::Unsigned(n)) => Ok(n),
            Ok(_) => Err(TypedMultipartError::InvalidRequestBody),
            Err(e) => Err(e),
        }
    }
}

impl TryFromField for i64 {
    /// The body read as text and parsed by the signed literal grammar.
    fn try_from_field(part: Part) -> (r: Result<Self, TypedMultipartError>)
        ensures
            r is Ok <==> spec_convert_ok(FieldType::Scalar(ScalarType::Integer), part),
            r is Ok ==> spec_value_ok(
                FieldType::Scalar(ScalarType::Integer),
                part,
                Value::Integer(r->Ok_0),
            ),
    {
        match convert(&FieldType::Scalar(ScalarType::Integer), part) {
            Ok(Value::Integer(n)) => Ok(n),
            Ok(_) => Err(TypedMultipartError::InvalidRequestBody),
            Err(e) => Err(e),
        }
    }
}

impl TryFromField for bool {
    /// The body read as text: exactly `true` or `false`.
    fn try_from_field(part: Part) -> (r: Result<Self, TypedMultipartError>)
        ensures
            r is Ok <==> spec_convert_ok(FieldType::Scalar(ScalarType::Boolean), part),
            r is Ok ==> spec_value_ok(
                FieldType::Scalar(ScalarType::Boolean),
                part,
                Value::Boolean(r->Ok_0),
            ),
    {
        match convert(&FieldType::Scalar(ScalarType::Boolean), part) {
            Ok(Value::Boolean(b)) => Ok(b),
            Ok(_) => Err(TypedMultipartError::InvalidRequestBody),
            Err(e) => Err(e),
        }
    }
}

impl TryFromField for char {
    /// The body read as text: exactly one character.
    fn try_from_field(part: Part) -> (r: Result<Self, TypedMultipartError>)
        ensures
            r is Ok <==> spec_convert_ok(FieldType::Scalar(ScalarType::Character), part),
            r is Ok ==> spec_value_ok(
                FieldType::Scalar(ScalarType::Character),
                part,
                Value::Character(r->Ok_0),
            ),
    {
        match convert(&FieldType::Scalar(ScalarType::Character), part) {
            Ok(Value::Character(c)) => Ok(c),
            Ok(_) => Err(TypedMultipartError::InvalidRequestBody),
            Err(e) => Err(e),
        }
    }
}

} // verus!
