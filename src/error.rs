//! The closed set of failures of encoding, decoding and offset reconstruction.
use vstd::prelude::*;

verus! {

/// Every failure of the codec. The first one met aborts the operation.
#[derive(Debug, Clone, PartialEq, Eq, Structural)]
pub enum PlainSerializerError {
    /// Fewer bytes remain than the shape requires.
    UnexpectedEof,
    /// A text collection is not valid UTF-8.
    Utf8Error,
    /// An enum's backing integer names none of its variants.
    InvalidVariant(i128),
    /// A collection holds more elements than its 16-bit length prefix can count.
    TooBig(usize),
    /// A value does not have the structure its shape describes, or an integer does
    /// not fit its width.
    ShapeMismatch,
    /// A struct was opened after the offset tree had been finished.
    TooManyStructs,
    /// A field or pseudo-field was reported with no struct open.
    EmptyStructStack,
    /// The remaining field names of the open struct are missing.
    EmptyFieldsStack,
    /// More fields were reported than the open struct declares.
    TooManyFields,
    /// A struct was closed before all its declared fields were reported.
    TooLittleFields,
    /// A nested struct closed while its parent had no field to attach it to.
    NoFields,
    /// The field a nested struct closes into already holds a nested struct (as when
    /// a collection or fixed array holds two structs): the tree keeps no partial
    /// record of either.
    DoubleInnerStruct,
    /// The offset tree was taken with structs still open.
    UnexpectedStruct,
    /// The offset tree was taken with field-name lists still open.
    UnexpectedFields,
    /// The offset tree was taken before any struct was finished.
    NoResult,
    /// A field or struct end was reported before the start of the field it closes.
    BackwardsOffset,
    /// A pseudo-field shifted its field past the largest offset.
    OffsetOverflow,
}

impl PlainSerializerError {
    /// Whether this failure is a breach of the offset-tracking protocol (a schema
    /// binding out of step with its field names), as opposed to malformed input.
    pub fn is_protocol_violation(&self) -> (r: bool)
        ensures
            r == !(self is UnexpectedEof || self is Utf8Error || self is InvalidVariant
                || self is TooBig || self is ShapeMismatch),
    {
        match self {
            PlainSerializerError::UnexpectedEof
            | PlainSerializerError::Utf8Error
            | PlainSerializerError::InvalidVariant(_)
            | PlainSerializerError::TooBig(_)
            | PlainSerializerError::ShapeMismatch => false,
            _ => true,
        }
    }
}

} // verus!
