//! Little-endian encoding and decoding of the fixed-width integers that the
//! controller exchanges with the client.
use vstd::prelude::*;
use zerocopy::byteorder::{LittleEndian, I16, I32, I64, U16, U32, U64};
use zerocopy::FromBytes;

verus! {

/// The value of two bytes read in little-endian order.
pub open spec fn le_u16(s: Seq<u8>) -> u16 {
    (s[0] as u16) | ((s[1] as u16) << 8u16)
}

/// The value of four bytes read in little-endian order.
pub open spec fn le_u32(s: Seq<u8>) -> u32 {
    (s[0] as u32) | ((s[1] as u32) << 8u32) | ((s[2] as u32) << 16u32) | ((s[3] as u32) << 24u32)
}

/// The value of eight bytes read in little-endian order.
pub open spec fn le_u64(s: Seq<u8>) -> u64 {
    (s[0] as u64) | ((s[1] as u64) << 8u64) | ((s[2] as u64) << 16u64) | ((s[3] as u64) << 24u64)
        | ((s[4] as u64) << 32u64) | ((s[5] as u64) << 40u64) | ((s[6] as u64) << 48u64) | ((
    s[7] as u64) << 56u64)
}

/// The two bytes of `v`, least significant first.
pub open spec fn u16_le_bytes(v: u16) -> Seq<u8> {
    seq![(v & 0xff) as u8, ((v >> 8u16) & 0xff) as u8]
}

/// The four bytes of `v`, least significant first.
pub open spec fn u32_le_bytes(v: u32) -> Seq<u8> {
    seq![
        (v & 0xff) as u8,
        ((v >> 8u32) & 0xff) as u8,
        ((v >> 16u32) & 0xff) as u8,
        ((v >> 24u32) & 0xff) as u8,
    ]
}

/// The eight bytes of `v`, least significant first.
pub open spec fn u64_le_bytes(v: u64) -> Seq<u8> {
    seq![
        (v & 0xff) as u8,
        ((v >> 8u64) & 0xff) as u8,
        ((v >> 16u64) & 0xff) as u8,
        ((v >> 24u64) & 0xff) as u8,
        ((v >> 32u64) & 0xff) as u8,
        ((v >> 40u64) & 0xff) as u8,
        ((v >> 48u64) & 0xff) as u8,
        ((v >> 56u64) & 0xff) as u8,
    ]
}

/// Reading back the two bytes of a `u16` gives the value.
pub proof fn lemma_u16_roundtrip(v: u16)
    ensures
        u16_le_bytes(v).len() == 2,
        le_u16(u16_le_bytes(v)) == v,
{
    let s = u16_le_bytes(v);
    let b0 = s[0];
    let b1 = s[1];
    assert(b0 == (v & 0xff) as u8 && b1 == ((v >> 8u16) & 0xff) as u8);
    assert(b0 == (v & 0xff) as u8 && b1 == ((v >> 8u16) & 0xff) as u8 ==> (b0 as u16) | ((
    b1 as u16) << 8u16) == v) by (bit_vector);
}

/// Reading back the four bytes of a `u32` gives the value.
pub proof fn lemma_u32_roundtrip(v: u32)
    ensures
        u32_le_bytes(v).len() == 4,
        le_u32(u32_le_bytes(v)) == v,
{
    let s = u32_le_bytes(v);
    let b0 = s[0];
    let b1 = s[1];
    let b2 = s[2];
    let b3 = s[3];
    assert(b0 == (v & 0xff) as u8 && b1 == ((v >> 8u32) & 0xff) as u8 && b2 == ((v >> 16u32)
        & 0xff) as u8 && b3 == ((v >> 24u32) & 0xff) as u8 ==> (b0 as u32) | ((b1 as u32)
        << 8u32) | ((b2 as u32) << 16u32) | ((b3 as u32) << 24u32) == v) by (bit_vector);
}

/// Reading back the eight bytes of a `u64` gives the value.
pub proof fn lemma_u64_roundtrip(v: u64)
    ensures
        u64_le_bytes(v).len() == 8,
        le_u64(u64_le_bytes(v)) == v,
{
    let s = u64_le_bytes(v);
    let b0 = s[0];
    let b1 = s[1];
    let b2 = s[2];
    let b3 = s[3];
    let b4 = s[4];
    let b5 = s[5];
    let b6 = s[6];
    let b7 = s[7];
    assert(b0 == (v & 0xff) as u8 && b1 == ((v >> 8u64) & 0xff) as u8 && b2 == ((v >> 16u64)
        & 0xff) as u8 && b3 == ((v >> 24u64) & 0xff) as u8 && b4 == ((v >> 32u64) & 0xff) as u8
        && b5 == ((v >> 40u64) & 0xff) as u8 && b6 == ((v >> 48u64) & 0xff) as u8 && b7 == ((v
        >> 56u64) & 0xff) as u8 ==> (b0 as u64) | ((b1 as u64) << 8u64) | ((b2 as u64) << 16u64)
        | ((b3 as u64) << 24u64) | ((b4 as u64) << 32u64) | ((b5 as u64) << 40u64) | ((
    b6 as u64) << 48u64) | ((b7 as u64) << 56u64) == v) by (bit_vector);
}

/// `zerocopy`'s `FromBytes::read_from` for `u8`: a value exactly when the
/// slice holds one byte, and then that byte.
#[verifier::external_body]
pub(crate) fn read_u8(bytes: &[u8]) -> (r: Option<u8>)
    ensures
        r is Some <==> bytes@.len() == 1,
        r matches Some(v) ==> v == bytes@[0],
{
    u8::read_from(bytes)
}

/// `zerocopy`'s `FromBytes::read_from` for `i8`: a value exactly when the
/// slice holds one byte, and then that byte read as two's complement.
#[verifier::external_body]
pub(crate) fn read_i8(bytes: &[u8]) -> (r: Option<i8>)
    ensures
        r is Some <==> bytes@.len() == 1,
        r matches Some(v) ==> v == bytes@[0] as i8,
{
    i8::read_from(bytes)
}

/// `zerocopy::byteorder::U16<LittleEndian>::read_from` followed by `get`:
/// a value exactly when the slice holds two bytes, read least significant first.
#[verifier::external_body]
pub(crate) fn read_u16_le(bytes: &[u8]) -> (r: Option<u16>)
    ensures
        r is Some <==> bytes@.len() == 2,
        r matches Some(v) ==> v == le_u16(bytes@),
{
    match U16::<LittleEndian>::read_from(bytes) {
        Some(v) => Some(v.get()),
        None => None,
    }
}

/// `zerocopy::byteorder::I16<LittleEndian>::read_from` followed by `get`:
/// a value exactly when the slice holds two bytes, read least significant
/// first as two's complement.
#[verifier::external_body]
pub(crate) fn read_i16_le(bytes: &[u8]) -> (r: Option<i16>)
    ensures
        r is Some <==> bytes@.len() == 2,
        r matches Some(v) ==> v == le_u16(bytes@) as i16,
{
    match I16::<LittleEndian>::read_from(bytes) {
        Some(v) => Some(v.get()),
        None => None,
    }
}

/// `zerocopy::byteorder::U32<LittleEndian>::read_from` followed by `get`:
/// a value exactly when the slice holds four bytes, read least significant first.
#[verifier::external_body]
pub(crate) fn read_u32_le(bytes: &[u8]) -> (r: Option<u32>)
    ensures
        r is Some <==> bytes@.len() == 4,
        r matches Some(v) ==> v == le_u32(bytes@),
{
    match U32::<LittleEndian>::read_from(bytes) {
        Some(v) => Some(v.get()),
        None => None,
    }
}

/// `zerocopy::byteorder::I32<LittleEndian>::read_from` followed by `get`:
/// a value exactly when the slice holds four bytes, read least significant
/// first as two's complement.
#[verifier::external_body]
pub(crate) fn read_i32_le(bytes: &[u8]) -> (r: Option<i32>)
    ensures
        r is Some <==> bytes@.len() == 4,
        r matches Some(v) ==> v == le_u32(bytes@) as i32,
{
    match I32::<LittleEndian>::read_from(bytes) {
        Some(v) => Some(v.get()),
        None => None,
    }
}

/// `zerocopy::byteorder::U64<LittleEndian>::read_from` followed by `get`:
/// a value exactly when the slice holds eight bytes, read least significant first.
#[verifier::external_body]
pub(crate) fn read_u64_le(bytes: &[u8]) -> (r: Option<u64>)
    ensures
        r is Some <==> bytes@.len() == 8,
        r matches Some(v) ==> v == le_u64(bytes@),
{
    match U64::<LittleEndian>::read_from(bytes) {
        Some(v) => Some(v.get()),
        None => None,
    }
}

/// `zerocopy::byteorder::I64<LittleEndian>::read_from` followed by `get`:
/// a value exactly when the slice holds eight bytes, read least significant
/// first as two's complement.
#[verifier::external_body]
pub(crate) fn read_i64_le(bytes: &[u8]) -> (r: Option<i64>)
    ensures
        r is Some <==> bytes@.len() == 8,
        r matches Some(v) ==> v == le_u64(bytes@) as i64,
{
    match I64::<LittleEndian>::read_from(bytes) {
        Some(v) => Some(v.get()),
        None => None,
    }
}

/// The two bytes of `v`, least significant first.
pub fn u16_to_le_bytes(v: u16) -> (r: Vec<u8>)
    ensures
        r@ == u16_le_bytes(v),
{
    let mut r: Vec<u8> = Vec::new();
    r.push((v & 0xff) as u8);
    r.push(((v >> 8u16) & 0xff) as u8);
    assert(r@ =~= u16_le_bytes(v));
    r
}

/// The four bytes of `v`, least significant first.
pub fn u32_to_le_bytes(v: u32) -> (r: Vec<u8>)
    ensures
        r@ == u32_le_bytes(v),
{
    let mut r: Vec<u8> = Vec::new();
    r.push((v & 0xff) as u8);
    r.push(((v >> 8u32) & 0xff) as u8);
    r.push(((v >> 16u32) & 0xff) as u8);
    r.push(((v >> 24u32) & 0xff) as u8);
    assert(r@ =~= u32_le_bytes(v));
    r
}

/// The eight bytes of `v`, least significant first.
pub fn u64_to_le_bytes(v: u64) -> (r: Vec<u8>)
    ensures
        r@ == u64_le_bytes(v),
{
    let mut r: Vec<u8> = Vec::new();
    r.push((v & 0xff) as u8);
    r.push(((v >> 8u64) & 0xff) as u8);
    r.push(((v >> 16u64) & 0xff) as u8);
    r.push(((v >> 24u64) & 0xff) as u8);
    r.push(((v >> 32u64) & 0xff) as u8);
    r.push(((v >> 40u64) & 0xff) as u8);
    r.push(((v >> 48u64) & 0xff) as u8);
    r.push(((v >> 56u64) & 0xff) as u8);
    assert(r@ =~= u64_le_bytes(v));
    r
}

} // verus!
