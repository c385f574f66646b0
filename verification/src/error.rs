//! The failures that the library reports.
use vstd::prelude::*;

verus! {

/// Why a lookup, a conversion or a serialization failed.
#[derive(Debug, Clone, Copy, PartialEq, Eq, Structural)]
pub enum AdsError {
    /// No uploaded symbol has the requested name.
    SymbolNotFound,
    /// The type of a structure on the way to a requested field is unknown.
    FieldTypeNotFound,
    /// A structure on the way to a requested field has no field of that name.
    FieldNotFound,
    /// The type information of a symbol could not be found.
    TypeInfoNotFound,
    /// Bytes meant to hold a string have no terminating zero.
    StringNotTerminated,
    /// Bytes meant to hold a string are not valid UTF-8.
    InvalidUtf8,
    /// A null value cannot be written to the controller.
    NullValue,
    /// The value is not plain data of a fixed width.
    NotPlainData,
    /// A value had to be a structure.
    ExpectedObject,
    /// A value had to be an array.
    ExpectedArray,
    /// A structure value has more members than its type has fields.
    TooManyMembers,
    /// The value cannot be written to a symbol of type void.
    VoidType,
    /// A JSON value does not fit the data type of its symbol.
    InvalidJsonValue,
    /// A JSON array was expected for an array symbol.
    ExpectedJsonArray,
    /// A JSON object was expected for a structure symbol.
    ExpectedJsonObject,
    /// A field of a structure is missing from the JSON object.
    MissingJsonField,
    /// The data type id is not one the library handles.
    UnsupportedType,
    /// No symbol with the requested name or handle is registered for notification.
    NotRegistered,
    /// The bytes read for a symbol do not hold a value of its type.
    ReadFailed,
}

} // verus!
