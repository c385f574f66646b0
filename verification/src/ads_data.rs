//! The layout of PLC values in bytes: ADS data type ids, reading values out
//! of the bytes the controller sends, and writing values as bytes for it.
use crate::client_types::{first_zero, position_of_zero};
use crate::codec::{
    lemma_u16_roundtrip, lemma_u32_roundtrip, lemma_u64_roundtrip, le_u16, le_u32, le_u64, read_i16_le,
    read_i32_le, read_i64_le, read_i8, read_u16_le, read_u32_le, read_u64_le, read_u8, u16_le_bytes,
    u16_to_le_bytes, u32_le_bytes, u32_to_le_bytes, u64_le_bytes, u64_to_le_bytes,
};
use crate::error::AdsError;
use crate::text::string_from_utf8;
use crate::variant::{Variant, VariantModel};
use vstd::prelude::*;
use vstd::utf8::{decode_utf8, valid_utf8};

verus! {

/// The ADS data type ids of the controller.
#[derive(Debug, Clone, Copy, PartialEq, Eq, Structural)]
pub enum AdsDataTypeId {
    Void,
    Int8,
    UInt8,
    Int16,
    UInt16,
    Int32,
    UInt32,
    Int64,
    UInt64,
    Real32,
    Real64,
    String,
    WString,
    Real80,
    Bit,
    /// Some sort of structure or object.
    BigType,
    MaxTypes,
}

/// The data type id with number `v`, if there is one.
pub open spec fn type_id_of(v: u32) -> Option<AdsDataTypeId> {
    if v == 0 {
        Some(AdsDataTypeId::Void)
    } else if v == 16 {
        Some(AdsDataTypeId::Int8)
    } else if v == 17 {
        Some(AdsDataTypeId::UInt8)
    } else if v == 2 {
        Some(AdsDataTypeId::Int16)
    } else if v == 18 {
        Some(AdsDataTypeId::UInt16)
    } else if v == 3 {
        Some(AdsDataTypeId::Int32)
    } else if v == 19 {
        Some(AdsDataTypeId::UInt32)
    } else if v == 20 {
        Some(AdsDataTypeId::Int64)
    } else if v == 21 {
        Some(AdsDataTypeId::UInt64)
    } else if v == 4 {
        Some(AdsDataTypeId::Real32)
    } else if v == 5 {
        Some(AdsDataTypeId::Real64)
    } else if v == 30 {
        Some(AdsDataTypeId::String)
    } else if v == 31 {
        Some(AdsDataTypeId::WString)
    } else if v == 32 {
        Some(AdsDataTypeId::Real80)
    } else if v == 33 {
        Some(AdsDataTypeId::Bit)
    } else if v == 65 {
        Some(AdsDataTypeId::BigType)
    } else if v == 67 {
        Some(AdsDataTypeId::MaxTypes)
    } else {
        None
    }
}

impl AdsDataTypeId {
    /// The number of this data type id.
    pub open spec fn spec_value(self) -> u32 {
        match self {
            AdsDataTypeId::Void => 0,
            AdsDataTypeId::Int8 => 16,
            AdsDataTypeId::UInt8 => 17,
            AdsDataTypeId::Int16 => 2,
            AdsDataTypeId::UInt16 => 18,
            AdsDataTypeId::Int32 => 3,
            AdsDataTypeId::UInt32 => 19,
            AdsDataTypeId::Int64 => 20,
            AdsDataTypeId::UInt64 => 21,
            AdsDataTypeId::Real32 => 4,
            AdsDataTypeId::Real64 => 5,
            AdsDataTypeId::String => 30,
            AdsDataTypeId::WString => 31,
            AdsDataTypeId::Real80 => 32,
            AdsDataTypeId::Bit => 33,
            AdsDataTypeId::BigType => 65,
            AdsDataTypeId::MaxTypes => 67,
        }
    }

    /// The number of this data type id.
    pub fn value(&self) -> (r: u32)
        ensures
            r == self.spec_value(),
    {
        match self {
            AdsDataTypeId::Void => 0,
            AdsDataTypeId::Int8 => 16,
            AdsDataTypeId::UInt8 => 17,
            AdsDataTypeId::Int16 => 2,
            AdsDataTypeId::UInt16 => 18,
            AdsDataTypeId::Int32 => 3,
            AdsDataTypeId::UInt32 => 19,
            AdsDataTypeId::Int64 => 20,
            AdsDataTypeId::UInt64 => 21,
            AdsDataTypeId::Real32 => 4,
            AdsDataTypeId::Real64 => 5,
            AdsDataTypeId::String => 30,
            AdsDataTypeId::WString => 31,
            AdsDataTypeId::Real80 => 32,
            AdsDataTypeId::Bit => 33,
            AdsDataTypeId::BigType => 65,
            AdsDataTypeId::MaxTypes => 67,
        }
    }
}

/// Every data type id is read back from its own number.
pub proof fn law_type_id_roundtrip(t: AdsDataTypeId)
    ensures
        type_id_of(t.spec_value()) == Some(t),
{
}

impl TryFrom<u32> for AdsDataTypeId {
    type Error = &'static str;

    /// The data type id with number `value`; an error for any other number.
    fn try_from(value: u32) -> (r: Result<Self, Self::Error>) {
        match value {
            0 => Ok(AdsDataTypeId::Void),
            16 => Ok(AdsDataTypeId::Int8),
            17 => Ok(AdsDataTypeId::UInt8),
            2 => Ok(AdsDataTypeId::Int16),
            18 => Ok(AdsDataTypeId::UInt16),
            3 => Ok(AdsDataTypeId::Int32),
            19 => Ok(AdsDataTypeId::UInt32),
            20 => Ok(AdsDataTypeId::Int64),
            21 => Ok(AdsDataTypeId::UInt64),
            4 => Ok(AdsDataTypeId::Real32),
            5 => Ok(AdsDataTypeId::Real64),
            30 => Ok(AdsDataTypeId::String),
            31 => Ok(AdsDataTypeId::WString),
            32 => Ok(AdsDataTypeId::Real80),
            33 => Ok(AdsDataTypeId::Bit),
            65 => Ok(AdsDataTypeId::BigType),
            67 => Ok(AdsDataTypeId::MaxTypes),
            _ => Err("Invalid AdsDataTypeId"),
        }
    }
}

impl vstd::std_specs::convert::TryFromSpecImpl<u32> for AdsDataTypeId {
    open spec fn obeys_try_from_spec() -> bool {
        true
    }

    open spec fn try_from_spec(v: u32) -> Result<AdsDataTypeId, &'static str> {
        match type_id_of(v) {
            Some(t) => Ok(t),
            None => Err("Invalid AdsDataTypeId"),
        }
    }
}

/// The data type id with number `v`.
pub fn data_type_id_from(v: u32) -> (r: Option<AdsDataTypeId>)
    ensures
        r == type_id_of(v),
{
    match AdsDataTypeId::try_from(v) {
        Ok(t) => Some(t),
        Err(_) => None,
    }
}

/// The value of plain data of type `t` held in `bytes`: the bytes must have
/// exactly the width of the type, and are read least significant first.
/// Floating-point values keep their bit patterns. Other types have none.
pub open spec fn plain_value(bytes: Seq<u8>, t: AdsDataTypeId) -> Option<VariantModel> {
    match t {
        AdsDataTypeId::Int8 => if bytes.len() == 1 {
            Some(VariantModel::SByte(bytes[0] as i8))
        } else {
            None
        },
        AdsDataTypeId::UInt8 => if bytes.len() == 1 {
            Some(VariantModel::Byte(bytes[0]))
        } else {
            None
        },
        AdsDataTypeId::Int16 => if bytes.len() == 2 {
            Some(VariantModel::Int16(le_u16(bytes) as i16))
        } else {
            None
        },
        AdsDataTypeId::UInt16 => if bytes.len() == 2 {
            Some(VariantModel::UInt16(le_u16(bytes)))
        } else {
            None
        },
        AdsDataTypeId::Int32 => if bytes.len() == 4 {
            Some(VariantModel::Int32(le_u32(bytes) as i32))
        } else {
            None
        },
        AdsDataTypeId::UInt32 => if bytes.len() == 4 {
            Some(VariantModel::UInt32(le_u32(bytes)))
        } else {
            None
        },
        AdsDataTypeId::Int64 => if bytes.len() == 8 {
            Some(VariantModel::Int64(le_u64(bytes) as i64))
        } else {
            None
        },
        AdsDataTypeId::UInt64 => if bytes.len() == 8 {
            Some(VariantModel::UInt64(le_u64(bytes)))
        } else {
            None
        },
        AdsDataTypeId::Real32 => if bytes.len() == 4 {
            Some(VariantModel::Real32(le_u32(bytes)))
        } else {
            None
        },
        AdsDataTypeId::Real64 => if bytes.len() == 8 {
            Some(VariantModel::Real64(le_u64(bytes)))
        } else {
            None
        },
        AdsDataTypeId::Bit => if bytes.len() == 1 {
            Some(VariantModel::Bit(bytes[0] != 0))
        } else {
            None
        },
        _ => None,
    }
}

/// The view of an optional variant.
pub open spec fn option_view(v: Option<Variant>) -> Option<VariantModel> {
    match v {
        Some(x) => Some(x@),
        None => None,
    }
}

/// The value of plain data of type `type_id` held in `bytes`; `None` for a
/// type that is not plain data of a fixed width, or for bytes that do not
/// have the width of the type.
pub fn value_from_bytes(bytes: &Vec<u8>, type_id: &AdsDataTypeId) -> (r: Option<Variant>)
    ensures
        option_view(r) == plain_value(bytes@, *type_id),
{
    plain_from_slice(bytes.as_slice(), type_id)
}

/// The value of plain data of type `type_id` held in `b`.
pub(crate) fn plain_from_slice(b: &[u8], type_id: &AdsDataTypeId) -> (r: Option<Variant>)
    ensures
        option_view(r) == plain_value(b@, *type_id),
{
    match type_id {
        AdsDataTypeId::Int8 => match read_i8(b) {
            Some(v) => Some(Variant::SByte(v)),
            None => None,
        },
        AdsDataTypeId::UInt8 => match read_u8(b) {
            Some(v) => Some(Variant::Byte(v)),
            None => None,
        },
        AdsDataTypeId::Int16 => match read_i16_le(b) {
            Some(v) => Some(Variant::Int16(v)),
            None => None,
        },
        AdsDataTypeId::UInt16 => match read_u16_le(b) {
            Some(v) => Some(Variant::UInt16(v)),
            None => None,
        },
        AdsDataTypeId::Int32 => match read_i32_le(b) {
            Some(v) => Some(Variant::Int32(v)),
            None => None,
        },
        AdsDataTypeId::UInt32 => match read_u32_le(b) {
            Some(v) => Some(Variant::UInt32(v)),
            None => None,
        },
        AdsDataTypeId::Int64 => match read_i64_le(b) {
            Some(v) => Some(Variant::Int64(v)),
            None => None,
        },
        AdsDataTypeId::UInt64 => match read_u64_le(b) {
            Some(v) => Some(Variant::UInt64(v)),
            None => None,
        },
        AdsDataTypeId::Real32 => match read_u32_le(b) {
            Some(v) => Some(Variant::Real32(v)),
            None => None,
        },
        AdsDataTypeId::Real64 => match read_u64_le(b) {
            Some(v) => Some(Variant::Real64(v)),
            None => None,
        },
        AdsDataTypeId::Bit => match read_i8(b) {
            Some(v) => {
                let ghost x: u8 = b@[0];
                assert((x as i8 == 0) == (x == 0)) by (bit_vector);
                Some(Variant::Bit(v != 0))
            },
            None => None,
        },
        _ => None,
    }
}

/// The text held in `bytes`: the bytes before the first zero, when they are
/// valid UTF-8.
pub open spec fn string_value(bytes: Seq<u8>) -> Result<Seq<char>, AdsError> {
    match first_zero(bytes) {
        Some(k) => if valid_utf8(bytes.take(k)) {
            Ok(decode_utf8(bytes.take(k)))
        } else {
            Err(AdsError::InvalidUtf8)
        },
        None => Err(AdsError::StringNotTerminated),
    }
}

/// The string the PLC sent in `s`: the bytes before the first zero, read as
/// UTF-8. An error if no byte is zero or the text is not valid UTF-8.
pub fn vec_to_string(s: &Vec<u8>) -> (r: Result<String, AdsError>)
    ensures
        match r {
            Ok(t) => string_value(s@) == Ok::<Seq<char>, AdsError>(t@),
            Err(e) => string_value(s@) == Err::<Seq<char>, AdsError>(e),
        },
{
    text_from_slice(s.as_slice())
}

/// The string held in `b`: the bytes before the first zero, read as UTF-8.
pub(crate) fn text_from_slice(b: &[u8]) -> (r: Result<String, AdsError>)
    ensures
        match r {
            Ok(t) => string_value(b@) == Ok::<Seq<char>, AdsError>(t@),
            Err(e) => string_value(b@) == Err::<Seq<char>, AdsError>(e),
        },
{
    match position_of_zero(b) {
        Some(end) => {
            assert(b@.subrange(0, end as int) =~= b@.take(end as int));
            match string_from_utf8(&b[0..end]) {
                Ok(text) => Ok(text),
                Err(_) => Err(AdsError::InvalidUtf8),
            }
        },
        None => Err(AdsError::StringNotTerminated),
    }
}

/// The bytes of a plain value as the controller holds it, least significant
/// first; floating-point values by their bit patterns. Null and values that
/// are no plain data have none.
pub open spec fn plain_bytes(v: VariantModel) -> Result<Seq<u8>, AdsError> {
    match v {
        VariantModel::Null => Err(AdsError::NullValue),
        VariantModel::Bit(b) => Ok(if b {
            seq![1u8]
        } else {
            seq![0u8]
        }),
        VariantModel::Byte(x) => Ok(seq![x]),
        VariantModel::SByte(x) => Ok(seq![x as u8]),
        VariantModel::Int16(x) => Ok(u16_le_bytes(x as u16)),
        VariantModel::UInt16(x) => Ok(u16_le_bytes(x)),
        VariantModel::Int32(x) => Ok(u32_le_bytes(x as u32)),
        VariantModel::UInt32(x) => Ok(u32_le_bytes(x)),
        VariantModel::Int64(x) => Ok(u64_le_bytes(x as u64)),
        VariantModel::UInt64(x) => Ok(u64_le_bytes(x)),
        VariantModel::Real32(x) => Ok(u32_le_bytes(x)),
        VariantModel::Real64(x) => Ok(u64_le_bytes(x)),
        _ => Err(AdsError::NotPlainData),
    }
}

/// The data type id that holds a plain value.
pub open spec fn plain_type_of(v: VariantModel) -> Option<AdsDataTypeId> {
    match v {
        VariantModel::Bit(_) => Some(AdsDataTypeId::Bit),
        VariantModel::Byte(_) => Some(AdsDataTypeId::UInt8),
        VariantModel::SByte(_) => Some(AdsDataTypeId::Int8),
        VariantModel::Int16(_) => Some(AdsDataTypeId::Int16),
        VariantModel::UInt16(_) => Some(AdsDataTypeId::UInt16),
        VariantModel::Int32(_) => Some(AdsDataTypeId::Int32),
        VariantModel::UInt32(_) => Some(AdsDataTypeId::UInt32),
        VariantModel::Int64(_) => Some(AdsDataTypeId::Int64),
        VariantModel::UInt64(_) => Some(AdsDataTypeId::UInt64),
        VariantModel::Real32(_) => Some(AdsDataTypeId::Real32),
        VariantModel::Real64(_) => Some(AdsDataTypeId::Real64),
        _ => None,
    }
}

/// The bytes of a plain value as the controller holds it, least significant
/// first. An error for null and for values that are no plain data.
pub fn serialize_value(value: &Variant) -> (r: Result<Vec<u8>, AdsError>)
    ensures
        match r {
            Ok(b) => plain_bytes(value@) == Ok::<Seq<u8>, AdsError>(b@),
            Err(e) => plain_bytes(value@) == Err::<Seq<u8>, AdsError>(e),
        },
{
    match value {
        Variant::Null => Err(AdsError::NullValue),
        Variant::Bit(s) => {
            if *s {
                let r = vec![1u8];
                assert(r@ =~= seq![1u8]);
                Ok(r)
            } else {
                let r = vec![0u8];
                assert(r@ =~= seq![0u8]);
                Ok(r)
            }
        },
        Variant::Byte(s) => {
            let r = vec![*s];
            assert(r@ =~= seq![*s]);
            Ok(r)
        },
        Variant::SByte(s) => {
            let r = vec![*s as u8];
            assert(r@ =~= seq![*s as u8]);
            Ok(r)
        },
        Variant::Int16(s) => Ok(u16_to_le_bytes(*s as u16)),
        Variant::UInt16(s) => Ok(u16_to_le_bytes(*s)),
        Variant::Int32(s) => Ok(u32_to_le_bytes(*s as u32)),
        Variant::UInt32(s) => Ok(u32_to_le_bytes(*s)),
        Variant::Int64(s) => Ok(u64_to_le_bytes(*s as u64)),
        Variant::UInt64(s) => Ok(u64_to_le_bytes(*s)),
        Variant::Real32(s) => Ok(u32_to_le_bytes(*s)),
        Variant::Real64(s) => Ok(u64_to_le_bytes(*s)),
        _ => Err(AdsError::NotPlainData),
    }
}

/// Writing a plain value and reading the bytes back with its data type gives
/// the value again.
pub proof fn law_plain_roundtrip(v: VariantModel)
    requires
        plain_type_of(v) is Some,
    ensures
        plain_bytes(v) is Ok,
        plain_value(plain_bytes(v)->Ok_0, plain_type_of(v)->0) == Some(v),
{
    match v {
        VariantModel::SByte(x) => {
            assert((x as u8) as i8 == x) by (bit_vector);
        },
        VariantModel::Int16(x) => {
            lemma_u16_roundtrip(x as u16);
            assert((x as u16) as i16 == x) by (bit_vector);
        },
        VariantModel::UInt16(x) => {
            lemma_u16_roundtrip(x);
        },
        VariantModel::Int32(x) => {
            lemma_u32_roundtrip(x as u32);
            assert((x as u32) as i32 == x) by (bit_vector);
        },
        VariantModel::UInt32(x) => {
            lemma_u32_roundtrip(x);
        },
        VariantModel::Real32(x) => {
            lemma_u32_roundtrip(x);
        },
        VariantModel::Int64(x) => {
            lemma_u64_roundtrip(x as u64);
            assert((x as u64) as i64 == x) by (bit_vector);
        },
        VariantModel::UInt64(x) => {
            lemma_u64_roundtrip(x);
        },
        VariantModel::Real64(x) => {
            lemma_u64_roundtrip(x);
        },
        _ => {},
    }
}

} // verus!
