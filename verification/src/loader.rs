//! Reading the symbol and data type tables that a controller uploads: the
//! records of the ADS interface, the names that follow them, and the array
//! bounds written in type names.
use crate::address::AdsSymbolEntry;
use crate::codec::{
    le_u16, le_u32, lemma_u16_roundtrip, lemma_u32_roundtrip, read_u16_le, read_u32_le,
    u16_le_bytes, u32_le_bytes,
};
use crate::name_map::{lookup, sorted_by_name, NameMap};
use crate::symbols::{
    array_word, empty_symbol_info, last_named, AdsSymbolCollection, AdsDataTypeInfo, AdsSymbolInfo, DataTypeInfoModel, SymbolInfoModel,
};
use crate::text::{
    chars_of, find, find_char, find_chars, parse_i128, parses_i128, signed_value, split_chars,
    split_on, string_from_utf8,
};
use vstd::utf8::{decode_utf8, valid_utf8};
use vstd::prelude::*;

verus! {

/// The separator between the bounds of an array range.
pub open spec fn range_dots() -> Seq<char> {
    seq!['.', '.']
}

/// The first two pieces of `d` cut at each `..`, when there are two.
pub open spec fn range_bounds(d: Seq<char>) -> Option<(Seq<char>, Seq<char>)> {
    match find(d, range_dots()) {
        None => None,
        Some(k) => {
            let rest = d.skip(k + 2);
            match find(rest, range_dots()) {
                Some(j) => Some((d.take(k), rest.take(j))),
                None => Some((d.take(k), rest)),
            }
        },
    }
}

/// The number of elements of the range `lower..upper`: `upper - lower + 1`
/// when both bounds are numbers, which may be negative, as in `-5..5`. Zero
/// when either is not, when there is no `..`, when the upper bound is below
/// the lower one, as in `0..-1`, or when the count is past the largest
/// `usize`.
pub open spec fn range_count(d: Seq<char>) -> usize {
    match range_bounds(d) {
        None => 0,
        Some((lo, hi)) => if parses_i128(lo) && parses_i128(hi) {
            let l = signed_value(lo);
            let u = signed_value(hi);
            if l <= u && u - l + 1 <= usize::MAX {
                (u - l + 1) as usize
            } else {
                0
            }
        } else {
            0
        },
    }
}

/// The element counts of the ranges `ranges`, in order.
pub open spec fn range_counts(ranges: Seq<Seq<char>>) -> Seq<usize> {
    Seq::new(ranges.len(), |i: int| range_count(ranges[i]))
}

/// The element counts written in the type name `t` of an array, one per
/// dimension, that is per range between the brackets, the ranges separated
/// by commas: `ARRAY [a..b] OF ..` has one, `ARRAY [a..b,c..d,e..f] OF ..`
/// three. None where the type name is no array declaration with a range;
/// `None` where the `]` stands before the `[`, so that there is no text
/// between them to cut out.
pub open spec fn array_dims(t: Seq<char>) -> Option<Seq<usize>> {
    if !(find(t, array_word()) is Some && find_char(t, '[') is Some && find_char(t, ']') is Some
        && find(t, range_dots()) is Some) {
        Some(Seq::empty())
    } else {
        let start = find_char(t, '[')->0 + 1;
        let end = find_char(t, ']')->0;
        if start <= end {
            Some(range_counts(split_on(t.subrange(start, end), ',')))
        } else {
            None
        }
    }
}

/// The element count of a range.
fn range_count_of(d: &[char]) -> (r: usize)
    ensures
        r == range_count(d@),
{
    let dv = vstd::slice::slice_to_vec(d);
    let dots = vec!['.', '.'];
    assert(dots@ =~= range_dots());
    match find_chars(&dv, &dots) {
        None => 0,
        Some(k) => {
            proof {
                crate::text::lemma_find_from(dv@, dots@, 0);
                assert(dots@.len() == 2);
                assert(crate::text::occurs_at(dv@, dots@, k as int));
            }
            let total = dv.len();
            let from = k + 2;
            let rest = vstd::slice::slice_to_vec(&dv.as_slice()[from..total]);
            assert(rest@ =~= d@.skip(k + 2));
            let lo = &dv.as_slice()[0..k];
            assert(lo@ =~= d@.take(k as int));
            let hi_end = match find_chars(&rest, &dots) {
                Some(j) => {
                    proof {
                        crate::text::lemma_find_from(rest@, dots@, 0);
                    }
                    j
                },
                None => rest.len(),
            };
            let hi = &rest.as_slice()[0..hi_end];
            let ghost bounds = range_bounds(d@)->0;
            assert(hi@ =~= bounds.1);
            match (parse_i128(lo), parse_i128(hi)) {
                (Some(l), Some(u)) => counted_range(l, u),
                _ => 0,
            }
        },
    }
}

/// `u - l + 1` where `l <= u` and the count fits in a `usize`, otherwise zero.
fn counted_range(l: i128, u: i128) -> (r: usize)
    ensures
        r == (if l <= u && u - l + 1 <= usize::MAX {
            (u - l + 1) as usize
        } else {
            0usize
        }),
{
    if l > u {
        return 0;
    }
    let big: i128 = usize::MAX as i128;
    if l < 0 && u >= 0 && (u > big || l < -big) {
        return 0;
    }
    let d: i128 = u - l;
    if d < big {
        (d + 1) as usize
    } else {
        0
    }
}

/// The number of elements of an array range written `lower..upper`:
/// `upper - lower + 1`, or zero where the text holds no `..`, a bound is
/// no number, the upper bound is below the lower one or the count is past
/// the largest `usize`.
pub fn parse_array_range(declaration: &str) -> (r: usize)
    ensures
        range_count(declaration@) == r,
{
    let d = chars_of(declaration);
    range_count_of(d.as_slice())
}

/// The element counts of the array type name `t`, `None` where they do not exist.
fn array_dims_of(t: &Vec<char>) -> (r: Option<Vec<usize>>)
    ensures
        match r {
            Some(v) => array_dims(t@) == Some(v@),
            None => array_dims(t@) is None,
        },
{
    let array = vec!['A', 'R', 'R', 'A', 'Y'];
    let open = vec!['['];
    let close = vec![']'];
    let dots = vec!['.', '.'];
    assert(array@ =~= array_word());
    assert(open@ =~= seq!['[']);
    assert(close@ =~= seq![']']);
    assert(dots@ =~= range_dots());
    let has_array = find_chars(t, &array).is_some();
    let open_at = find_chars(t, &open);
    let close_at = find_chars(t, &close);
    let has_dots = find_chars(t, &dots).is_some();
    if !has_array || open_at.is_none() || close_at.is_none() || !has_dots {
        return Some(Vec::new());
    }
    let start = match open_at {
        Some(i) => i,
        None => 0,
    };
    let end = match close_at {
        Some(i) => i,
        None => 0,
    };
    proof {
        crate::text::lemma_find_from(t@, open@, 0);
        crate::text::lemma_find_from(t@, close@, 0);
    }
    let n = t.len();
    assert(start < n);
    let start = start + 1;
    if start > end {
        return None;
    }
    let mut inner: Vec<char> = Vec::new();
    let mut i: usize = start;
    while i < end
        invariant
            start <= i <= end,
            end < t@.len(),
            inner@ == t@.subrange(start as int, i as int),
        decreases end - i,
    {
        inner.push(t[i]);
        i += 1;
    }
    let ranges = split_chars(&inner, ',');
    let ghost rv = split_on(inner@, ',');
    let mut counts: Vec<usize> = Vec::new();
    let mut k: usize = 0;
    assert(array_dims(t@) == Some(range_counts(rv)));
    while k < ranges.len()
        invariant
            0 <= k <= ranges@.len(),
            array_dims(t@) == Some(range_counts(rv)),
            ranges@.len() == rv.len(),
            forall|q: int| 0 <= q < ranges@.len() ==> #[trigger] ranges@[q]@ == rv[q],
            counts@ == range_counts(rv).take(k as int),
        decreases ranges@.len() - k,
    {
        let a = range_count_of(ranges[k].as_slice());
        counts.push(a);
        assert(counts@ =~= range_counts(rv).take(k + 1));
        k += 1;
    }
    assert(counts@ =~= range_counts(rv));
    Some(counts)
}

/// Fills in the dimensions of an array symbol from its type name: one
/// element count per range between the brackets, none where the type name
/// is no array declaration with a range.
pub fn set_symbol_array_length(symbol_info: &mut AdsSymbolInfo)
    requires
        array_dims(old(symbol_info).data_type_name@) is Some,
    ensures
        final(symbol_info)@ == (crate::symbols::SymbolInfoModel {
            array_dimensions: array_dims(old(symbol_info).data_type_name@)->0,
            ..old(symbol_info)@
        }),
{
    let t = chars_of(symbol_info.data_type_name.as_str());
    match array_dims_of(&t) {
        Some(dims) => {
            symbol_info.array_dimensions = dims;
        },
        None => {
            symbol_info.array_dimensions = Vec::new();
        },
    }
}

/// The size of the record that describes one symbol.
pub const SYMBOL_ENTRY_LEN: usize = 30;

/// The size of the record that describes one data type or field.
pub const DATATYPE_ENTRY_LEN: usize = 42;

/// The size of the record that describes one array dimension.
pub const ARRAY_INFO_LEN: usize = 8;

/// The description of a data type, or of a field of one, as the ADS
/// interface returns it. The name, type name and comment follow it, each
/// closed by a zero byte; then the array dimensions and the fields.
#[allow(non_snake_case)]
#[derive(Debug, Clone, Copy, PartialEq, Eq, Structural)]
pub struct AdsDatatypeEntry {
    pub entryLength: u32,
    pub version: u32,
    pub hashValue: u32,
    pub typeHashValue: u32,
    pub size: u32,
    pub offs: u32,
    pub dataType: u32,
    pub flags: u32,
    pub nameLength: u16,
    pub typeLength: u16,
    pub commentLength: u16,
    pub arrayDim: u16,
    pub subItems: u16,
}

/// One dimension of an array data type: its lower bound and element count.
#[allow(non_snake_case)]
#[derive(Debug, Clone, Copy, PartialEq, Eq, Structural)]
pub struct AdsDatatypeArrayInfo {
    pub lBound: u32,
    pub elements: u32,
}

/// The little-endian `u32` at position `o` of `b`.
pub open spec fn u32_at(b: Seq<u8>, o: int) -> u32 {
    le_u32(b.subrange(o, o + 4))
}

/// The little-endian `u16` at position `o` of `b`.
pub open spec fn u16_at(b: Seq<u8>, o: int) -> u16 {
    le_u16(b.subrange(o, o + 2))
}

/// The symbol record that starts at position `o` of `b`.
pub open spec fn symbol_entry_at(b: Seq<u8>, o: int) -> AdsSymbolEntry {
    AdsSymbolEntry {
        entryLength: u32_at(b, o),
        iGroup: u32_at(b, o + 4),
        iOffs: u32_at(b, o + 8),
        size: u32_at(b, o + 12),
        dataType: u32_at(b, o + 16),
        flags: u32_at(b, o + 20),
        nameLength: u16_at(b, o + 24),
        typeLength: u16_at(b, o + 26),
        commentLength: u16_at(b, o + 28),
    }
}

/// The data type record that starts at position `o` of `b`.
pub open spec fn datatype_entry_at(b: Seq<u8>, o: int) -> AdsDatatypeEntry {
    AdsDatatypeEntry {
        entryLength: u32_at(b, o),
        version: u32_at(b, o + 4),
        hashValue: u32_at(b, o + 8),
        typeHashValue: u32_at(b, o + 12),
        size: u32_at(b, o + 16),
        offs: u32_at(b, o + 20),
        dataType: u32_at(b, o + 24),
        flags: u32_at(b, o + 28),
        nameLength: u16_at(b, o + 32),
        typeLength: u16_at(b, o + 34),
        commentLength: u16_at(b, o + 36),
        arrayDim: u16_at(b, o + 38),
        subItems: u16_at(b, o + 40),
    }
}

/// The bytes of the data type record `e` as the ADS interface lays it out:
/// each number least significant byte first, in the order of the record's
/// fields.
pub open spec fn datatype_entry_bytes(e: AdsDatatypeEntry) -> Seq<u8> {
    u32_le_bytes(e.entryLength) + u32_le_bytes(e.version) + u32_le_bytes(e.hashValue)
        + u32_le_bytes(e.typeHashValue) + u32_le_bytes(e.size) + u32_le_bytes(e.offs)
        + u32_le_bytes(e.dataType) + u32_le_bytes(e.flags) + u16_le_bytes(e.nameLength)
        + u16_le_bytes(e.typeLength) + u16_le_bytes(e.commentLength) + u16_le_bytes(e.arrayDim)
        + u16_le_bytes(e.subItems)
}

/// The bytes of the symbol record `e` as the ADS interface lays it out:
/// each number least significant byte first, in the order of the record's
/// fields.
pub open spec fn symbol_entry_bytes(e: AdsSymbolEntry) -> Seq<u8> {
    u32_le_bytes(e.entryLength) + u32_le_bytes(e.iGroup) + u32_le_bytes(e.iOffs) + u32_le_bytes(
        e.size,
    ) + u32_le_bytes(e.dataType) + u32_le_bytes(e.flags) + u16_le_bytes(e.nameLength)
        + u16_le_bytes(e.typeLength) + u16_le_bytes(e.commentLength)
}

/// A `u32` whose bytes stand at position `o` is read back there.
proof fn lemma_u32_placed(b: Seq<u8>, o: int, v: u32)
    requires
        0 <= o,
        o + 4 <= b.len(),
        b.subrange(o, o + 4) == u32_le_bytes(v),
    ensures
        u32_at(b, o) == v,
{
    lemma_u32_roundtrip(v);
}

/// A `u16` whose bytes stand at position `o` is read back there.
proof fn lemma_u16_placed(b: Seq<u8>, o: int, v: u16)
    requires
        0 <= o,
        o + 2 <= b.len(),
        b.subrange(o, o + 2) == u16_le_bytes(v),
    ensures
        u16_at(b, o) == v,
{
    lemma_u16_roundtrip(v);
}

/// A data type record written in the layout of the ADS interface, wherever
/// it stands in a table, is read back as the same record: in particular its
/// data type id from its seventh number and its flags from its eighth.
pub proof fn law_datatype_entry_layout(pre: Seq<u8>, e: AdsDatatypeEntry, post: Seq<u8>)
    ensures
        datatype_entry_bytes(e).len() == DATATYPE_ENTRY_LEN,
        datatype_entry_at(pre + datatype_entry_bytes(e) + post, pre.len() as int) == e,
{
    lemma_u32_roundtrip(e.entryLength);
    lemma_u32_roundtrip(e.version);
    lemma_u32_roundtrip(e.hashValue);
    lemma_u32_roundtrip(e.typeHashValue);
    lemma_u32_roundtrip(e.size);
    lemma_u32_roundtrip(e.offs);
    lemma_u32_roundtrip(e.dataType);
    lemma_u32_roundtrip(e.flags);
    lemma_u16_roundtrip(e.nameLength);
    lemma_u16_roundtrip(e.typeLength);
    lemma_u16_roundtrip(e.commentLength);
    lemma_u16_roundtrip(e.arrayDim);
    lemma_u16_roundtrip(e.subItems);
    let eb = datatype_entry_bytes(e);
    let b = pre + eb + post;
    let o = pre.len() as int;
    assert(eb.len() == 42);
    assert(b.subrange(o, o + 4) =~= u32_le_bytes(e.entryLength));
    assert(b.subrange(o + 4, o + 8) =~= u32_le_bytes(e.version));
    assert(b.subrange(o + 8, o + 12) =~= u32_le_bytes(e.hashValue));
    assert(b.subrange(o + 12, o + 16) =~= u32_le_bytes(e.typeHashValue));
    assert(b.subrange(o + 16, o + 20) =~= u32_le_bytes(e.size));
    assert(b.subrange(o + 20, o + 24) =~= u32_le_bytes(e.offs));
    assert(b.subrange(o + 24, o + 28) =~= u32_le_bytes(e.dataType));
    assert(b.subrange(o + 28, o + 32) =~= u32_le_bytes(e.flags));
    assert(b.subrange(o + 32, o + 34) =~= u16_le_bytes(e.nameLength));
    assert(b.subrange(o + 34, o + 36) =~= u16_le_bytes(e.typeLength));
    assert(b.subrange(o + 36, o + 38) =~= u16_le_bytes(e.commentLength));
    assert(b.subrange(o + 38, o + 40) =~= u16_le_bytes(e.arrayDim));
    assert(b.subrange(o + 40, o + 42) =~= u16_le_bytes(e.subItems));
    lemma_u32_placed(b, o, e.entryLength);
    lemma_u32_placed(b, o + 4, e.version);
    lemma_u32_placed(b, o + 8, e.hashValue);
    lemma_u32_placed(b, o + 12, e.typeHashValue);
    lemma_u32_placed(b, o + 16, e.size);
    lemma_u32_placed(b, o + 20, e.offs);
    lemma_u32_placed(b, o + 24, e.dataType);
    lemma_u32_placed(b, o + 28, e.flags);
    lemma_u16_placed(b, o + 32, e.nameLength);
    lemma_u16_placed(b, o + 34, e.typeLength);
    lemma_u16_placed(b, o + 36, e.commentLength);
    lemma_u16_placed(b, o + 38, e.arrayDim);
    lemma_u16_placed(b, o + 40, e.subItems);
}

/// A symbol record written in the layout of the ADS interface, wherever it
/// stands in a table, is read back as the same record.
pub proof fn law_symbol_entry_layout(pre: Seq<u8>, e: AdsSymbolEntry, post: Seq<u8>)
    ensures
        symbol_entry_bytes(e).len() == SYMBOL_ENTRY_LEN,
        symbol_entry_at(pre + symbol_entry_bytes(e) + post, pre.len() as int) == e,
{
    lemma_u32_roundtrip(e.entryLength);
    lemma_u32_roundtrip(e.iGroup);
    lemma_u32_roundtrip(e.iOffs);
    lemma_u32_roundtrip(e.size);
    lemma_u32_roundtrip(e.dataType);
    lemma_u32_roundtrip(e.flags);
    lemma_u16_roundtrip(e.nameLength);
    lemma_u16_roundtrip(e.typeLength);
    lemma_u16_roundtrip(e.commentLength);
    let eb = symbol_entry_bytes(e);
    let b = pre + eb + post;
    let o = pre.len() as int;
    assert(eb.len() == 30);
    assert(b.subrange(o, o + 4) =~= u32_le_bytes(e.entryLength));
    assert(b.subrange(o + 4, o + 8) =~= u32_le_bytes(e.iGroup));
    assert(b.subrange(o + 8, o + 12) =~= u32_le_bytes(e.iOffs));
    assert(b.subrange(o + 12, o + 16) =~= u32_le_bytes(e.size));
    assert(b.subrange(o + 16, o + 20) =~= u32_le_bytes(e.dataType));
    assert(b.subrange(o + 20, o + 24) =~= u32_le_bytes(e.flags));
    assert(b.subrange(o + 24, o + 26) =~= u16_le_bytes(e.nameLength));
    assert(b.subrange(o + 26, o + 28) =~= u16_le_bytes(e.typeLength));
    assert(b.subrange(o + 28, o + 30) =~= u16_le_bytes(e.commentLength));
    lemma_u32_placed(b, o, e.entryLength);
    lemma_u32_placed(b, o + 4, e.iGroup);
    lemma_u32_placed(b, o + 8, e.iOffs);
    lemma_u32_placed(b, o + 12, e.size);
    lemma_u32_placed(b, o + 16, e.dataType);
    lemma_u32_placed(b, o + 20, e.flags);
    lemma_u16_placed(b, o + 24, e.nameLength);
    lemma_u16_placed(b, o + 26, e.typeLength);
    lemma_u16_placed(b, o + 28, e.commentLength);
}

/// The array dimension record that starts at position `o` of `b`.
pub open spec fn array_info_at(b: Seq<u8>, o: int) -> AdsDatatypeArrayInfo {
    AdsDatatypeArrayInfo { lBound: u32_at(b, o), elements: u32_at(b, o + 4) }
}

fn u32_from(b: &[u8], o: usize) -> (r: u32)
    requires
        o + 4 <= b@.len(),
    ensures
        r == u32_at(b@, o as int),
{
    let len = b.len();
    assert(o + 4 <= len);
    match read_u32_le(&b[o..o + 4]) {
        Some(v) => v,
        None => 0,
    }
}

fn u16_from(b: &[u8], o: usize) -> (r: u16)
    requires
        o + 2 <= b@.len(),
    ensures
        r == u16_at(b@, o as int),
{
    let len = b.len();
    assert(o + 2 <= len);
    match read_u16_le(&b[o..o + 2]) {
        Some(v) => v,
        None => 0,
    }
}

/// Reads the symbol record at position `o`.
fn read_symbol_entry(b: &[u8], o: usize) -> (r: AdsSymbolEntry)
    requires
        o + SYMBOL_ENTRY_LEN <= b@.len(),
    ensures
        r == symbol_entry_at(b@, o as int),
{
    let len = b.len();
    assert(o + SYMBOL_ENTRY_LEN <= len);
    AdsSymbolEntry {
        entryLength: u32_from(b, o),
        iGroup: u32_from(b, o + 4),
        iOffs: u32_from(b, o + 8),
        size: u32_from(b, o + 12),
        dataType: u32_from(b, o + 16),
        flags: u32_from(b, o + 20),
        nameLength: u16_from(b, o + 24),
        typeLength: u16_from(b, o + 26),
        commentLength: u16_from(b, o + 28),
    }
}

/// Reads the data type record at position `o`.
fn read_datatype_entry(b: &[u8], o: usize) -> (r: AdsDatatypeEntry)
    requires
        o + DATATYPE_ENTRY_LEN <= b@.len(),
    ensures
        r == datatype_entry_at(b@, o as int),
{
    let len = b.len();
    assert(o + DATATYPE_ENTRY_LEN <= len);
    AdsDatatypeEntry {
        entryLength: u32_from(b, o),
        version: u32_from(b, o + 4),
        hashValue: u32_from(b, o + 8),
        typeHashValue: u32_from(b, o + 12),
        size: u32_from(b, o + 16),
        offs: u32_from(b, o + 20),
        dataType: u32_from(b, o + 24),
        flags: u32_from(b, o + 28),
        nameLength: u16_from(b, o + 32),
        typeLength: u16_from(b, o + 34),
        commentLength: u16_from(b, o + 36),
        arrayDim: u16_from(b, o + 38),
        subItems: u16_from(b, o + 40),
    }
}

/// The text held in `bytes` when they are valid UTF-8, otherwise empty text.
pub open spec fn stream_text(bytes: Seq<u8>) -> Seq<char> {
    if valid_utf8(bytes) {
        decode_utf8(bytes)
    } else {
        Seq::empty()
    }
}

/// The text held in `bytes`, or an empty string where they are not valid UTF-8.
pub fn extract_string_from_stream(bytes: &Vec<u8>) -> (r: String)
    ensures
        r@ == stream_text(bytes@),
{
    text_of(bytes.as_slice())
}

fn text_of(bytes: &[u8]) -> (r: String)
    ensures
        r@ == stream_text(bytes@),
{
    match string_from_utf8(bytes) {
        Ok(t) => t,
        Err(_) => String::new(),
    }
}

/// The dimensions recorded for a symbol or field with type name `t`: those
/// of its declaration when it is an array, none otherwise.
pub open spec fn dims_for(t: Seq<char>) -> Seq<usize> {
    if find(t, array_word()) is Some {
        array_dims(t)->0
    } else {
        Seq::empty()
    }
}

/// Reading the dimensions of type name `t` does not fail: where it is an
/// array declaration, its `]` does not stand before its `[`.
pub open spec fn dims_readable(t: Seq<char>) -> bool {
    find(t, array_word()) is Some ==> array_dims(t) is Some
}

/// The symbol described by the record at position `o` of the symbol table
/// `b`, with the name, type name and comment that follow the record. `None`
/// where the record or its texts run past the end of the table, or the
/// brackets of an array declaration in its type name stand in reverse order.
pub open spec fn symbol_record(b: Seq<u8>, o: int) -> Option<SymbolInfoModel> {
    if o + SYMBOL_ENTRY_LEN > b.len() {
        None
    } else {
        let e = symbol_entry_at(b, o);
        let name_at = o + SYMBOL_ENTRY_LEN;
        let type_at = name_at + e.nameLength + 1;
        let comment_at = type_at + e.typeLength + 1;
        if name_at + e.nameLength > b.len() || type_at + e.typeLength > b.len() || comment_at
            + e.commentLength > b.len() {
            None
        } else {
            let t = stream_text(b.subrange(type_at, type_at + e.typeLength));
            if !dims_readable(t) {
                None
            } else {
                Some(
                    SymbolInfoModel {
                        name: stream_text(b.subrange(name_at, name_at + e.nameLength)),
                        group_index: e.iGroup,
                        index_offset: e.iOffs,
                        offset: 0,
                        size: e.size,
                        type_id: e.dataType,
                        data_type_name: t,
                        comment: stream_text(b.subrange(comment_at, comment_at + e.commentLength)),
                        is_structure: false,
                        is_array: find(t, array_word()) is Some,
                        array_dimensions: dims_for(t),
                    },
                )
            }
        }
    }
}

/// The `n` symbols described by the records from position `o` of the symbol
/// table `b` on, each record followed by the next after its entry length.
/// `None` where a record cannot be read or an offset passes the largest `usize`.
pub open spec fn symbols_from(b: Seq<u8>, o: int, n: nat) -> Option<Seq<SymbolInfoModel>>
    decreases n,
{
    if n == 0 {
        Some(Seq::empty())
    } else {
        match symbol_record(b, o) {
            None => None,
            Some(s) => {
                let next = o + symbol_entry_at(b, o).entryLength;
                if next > usize::MAX {
                    None
                } else {
                    match symbols_from(b, next, (n - 1) as nat) {
                        None => None,
                        Some(rest) => Some(seq![s] + rest),
                    }
                }
            },
        }
    }
}

/// The views of a sequence of symbols.
pub open spec fn symbols_view(v: Seq<AdsSymbolInfo>) -> Seq<SymbolInfoModel> {
    Seq::new(v.len(), |i: int| v[i]@)
}

/// Reads the symbol described at position `o`.
fn read_symbol_record(b: &[u8], o: usize) -> (r: Option<AdsSymbolInfo>)
    ensures
        match r {
            Some(s) => symbol_record(b@, o as int) == Some(s@),
            None => symbol_record(b@, o as int) is None,
        },
{
    let n = b.len();
    if o > n || n - o < SYMBOL_ENTRY_LEN {
        return None;
    }
    let e = read_symbol_entry(b, o);
    let name_at = o + SYMBOL_ENTRY_LEN;
    let name_len = e.nameLength as usize;
    let type_len = e.typeLength as usize;
    let comment_len = e.commentLength as usize;
    if n - name_at < name_len {
        return None;
    }
    let name_end = name_at + name_len;
    if n - name_end < 1 || n - name_end - 1 < type_len {
        return None;
    }
    let type_at = name_end + 1;
    let type_end = type_at + type_len;
    if n - type_end < 1 || n - type_end - 1 < comment_len {
        return None;
    }
    let comment_at = type_end + 1;
    let comment_end = comment_at + comment_len;
    let name = text_of(&b[name_at..name_end]);
    let type_text = text_of(&b[type_at..type_end]);
    let comment = text_of(&b[comment_at..comment_end]);
    let mut info = AdsSymbolInfo::new();
    info.name = name;
    info.group_index = e.iGroup;
    info.index_offset = e.iOffs;
    info.size = e.size;
    info.type_id = e.dataType;
    info.data_type_name = type_text;
    info.comment = comment;
    let t = chars_of(info.data_type_name.as_str());
    let array = vec!['A', 'R', 'R', 'A', 'Y'];
    assert(array@ =~= array_word());
    info.is_array = find_chars(&t, &array).is_some();
    if info.is_array {
        match array_dims_of(&t) {
            Some(dims) => {
                info.array_dimensions = dims;
            },
            None => {
                return None;
            },
        }
    }
    Some(info)
}

/// Reads `count` symbols from the symbol table `b` as `symbols_from` describes them.
fn read_symbols(b: &[u8], count: u32) -> (r: Option<Vec<AdsSymbolInfo>>)
    ensures
        match r {
            Some(v) => symbols_from(b@, 0, count as nat) == Some(symbols_view(v@)),
            None => symbols_from(b@, 0, count as nat) is None,
        },
{
    let mut out: Vec<AdsSymbolInfo> = Vec::new();
    let mut offset: usize = 0;
    let mut i: u32 = 0;
    while i < count
        invariant
            0 <= i <= count,
            symbols_from(b@, 0, count as nat) == match symbols_from(
                b@,
                offset as int,
                (count - i) as nat,
            ) {
                None => None,
                Some(rest) => Some(symbols_view(out@) + rest),
            },
        decreases count - i,
    {
        let ghost before = symbols_view(out@);
        match read_symbol_record(b, offset) {
            None => {
                return None;
            },
            Some(info) => {
                let e = read_symbol_entry(b, offset);
                let step = e.entryLength as usize;
                if usize::MAX - offset < step {
                    return None;
                }
                out.push(info);
                proof {
                    assert(symbols_view(out@) =~= before + seq![info@]);
                    assert forall|rest: Seq<SymbolInfoModel>|
                        #![auto]
                        before + (seq![info@] + rest) == symbols_view(out@) + rest by {
                        assert(before + (seq![info@] + rest) =~= symbols_view(out@) + rest);
                    }
                }
                offset = offset + step;
            },
        }
        i += 1;
    }
    assert(symbols_view(out@) + Seq::<SymbolInfoModel>::empty() =~= symbols_view(out@));
    Some(out)
}

/// The field described by data type record `e` at position `o` of the
/// data type table `b`: its name, type name and comment follow the record;
/// its offset in the structure is the record's `offs`. `Some(None)` where
/// `o` lies past the table or the name is not valid UTF-8; `None` where a
/// text runs past the end of the table or the brackets of an array
/// declaration in the type name stand in reverse order.
pub open spec fn field_record(e: AdsDatatypeEntry, b: Seq<u8>, o: int) -> Option<
    Option<SymbolInfoModel>,
> {
    if o >= b.len() + DATATYPE_ENTRY_LEN {
        Some(None)
    } else {
        let name_at = o + DATATYPE_ENTRY_LEN;
        let name_end = name_at + e.nameLength;
        let type_at = name_end + 1;
        let type_end = type_at + e.typeLength;
        let comment_at = type_end + 1;
        let comment_end = comment_at + e.commentLength;
        if name_end > b.len() {
            None
        } else if !valid_utf8(b.subrange(name_at, name_end)) {
            Some(None)
        } else if (e.typeLength > 0 && type_end > b.len()) || (e.commentLength > 0 && comment_end
            > b.len()) {
            None
        } else {
            let t = if e.typeLength > 0 {
                stream_text(b.subrange(type_at, type_end))
            } else {
                Seq::empty()
            };
            if !dims_readable(t) {
                None
            } else {
                Some(
                    Some(
                        SymbolInfoModel {
                            name: decode_utf8(b.subrange(name_at, name_end)),
                            group_index: 0,
                            index_offset: 0,
                            offset: e.offs,
                            size: e.size,
                            type_id: e.dataType,
                            data_type_name: t,
                            comment: if e.commentLength > 0 {
                                stream_text(b.subrange(comment_at, comment_end))
                            } else {
                                Seq::empty()
                            },
                            is_structure: e.subItems > 0,
                            is_array: find(t, array_word()) is Some,
                            array_dimensions: dims_for(t),
                        },
                    ),
                )
            }
        }
    }
}

/// The field of a structure described by `item`, the data type record at
/// position `offset` of the data type table `buffer`, with the name, type
/// name and comment that follow the record. `None` where `offset` lies past
/// the table or the name is not valid UTF-8.
pub fn parse_datatype_entry_field(item: &AdsDatatypeEntry, buffer: &Vec<u8>, offset: usize) -> (r:
    Option<AdsSymbolInfo>)
    requires
        buffer@.len() <= isize::MAX,
        field_record(*item, buffer@, offset as int) is Some,
    ensures
        match r {
            Some(f) => field_record(*item, buffer@, offset as int) == Some(Some(f@)),
            None => field_record(*item, buffer@, offset as int) == Some(None::<SymbolInfoModel>),
        },
{
    match read_field(item, buffer.as_slice(), offset) {
        Some(f) => f,
        None => None,
    }
}

fn read_field(e: &AdsDatatypeEntry, b: &[u8], o: usize) -> (r: Option<Option<AdsSymbolInfo>>)
    requires
        b@.len() <= isize::MAX,
    ensures
        match r {
            None => field_record(*e, b@, o as int) is None,
            Some(None) => field_record(*e, b@, o as int) == Some(None::<SymbolInfoModel>),
            Some(Some(f)) => field_record(*e, b@, o as int) == Some(Some(f@)),
        },
{
    let n = b.len();
    if o >= n && o - n >= DATATYPE_ENTRY_LEN {
        return Some(None);
    }
    let name_at = o + DATATYPE_ENTRY_LEN;
    let name_end = name_at + e.nameLength as usize;
    if name_end > n {
        return None;
    }
    let name = match string_from_utf8(&b[name_at..name_end]) {
        Ok(t) => t,
        Err(_) => {
            return Some(None);
        },
    };
    let type_at = name_end + 1;
    let type_end = type_at + e.typeLength as usize;
    let comment_at = type_end + 1;
    let comment_end = comment_at + e.commentLength as usize;
    if (e.typeLength > 0 && type_end > n) || (e.commentLength > 0 && comment_end > n) {
        return None;
    }
    let mut info = AdsSymbolInfo::new();
    info.name = name;
    info.offset = e.offs;
    info.size = e.size;
    info.type_id = e.dataType;
    info.is_structure = e.subItems > 0;
    if e.typeLength > 0 {
        info.data_type_name = text_of(&b[type_at..type_end]);
    }
    if e.commentLength > 0 {
        info.comment = text_of(&b[comment_at..comment_end]);
    }
    assert(e.typeLength == 0 ==> info.data_type_name@ =~= Seq::<char>::empty());
    let t = chars_of(info.data_type_name.as_str());
    let array = vec!['A', 'R', 'R', 'A', 'Y'];
    assert(array@ =~= array_word());
    info.is_array = find_chars(&t, &array).is_some();
    if info.is_array {
        match array_dims_of(&t) {
            Some(dims) => {
                info.array_dimensions = dims;
            },
            None => {
                return None;
            },
        }
    }
    Some(Some(info))
}

/// The element counts of `k` array dimension records from position `o` of
/// `b` on, and `acc` times their product. `None` where a record runs past the
/// end of the table or the product passes the largest `u32`.
pub open spec fn dims_from(b: Seq<u8>, o: int, k: nat, acc: u32) -> Option<(Seq<usize>, u32)>
    decreases k,
{
    if k == 0 {
        Some((Seq::empty(), acc))
    } else if o + ARRAY_INFO_LEN > b.len() {
        None
    } else {
        let el = array_info_at(b, o).elements;
        if acc * el > u32::MAX {
            None
        } else {
            match dims_from(b, o + ARRAY_INFO_LEN, (k - 1) as nat, (acc * el) as u32) {
                None => None,
                Some(r) => Some((seq![el as usize] + r.0, r.1)),
            }
        }
    }
}

/// The `k` fields described by the records from position `o` of the data
/// type table `b` on, each followed by the next after its entry length; a
/// field that cannot be read stands as an empty symbol. `None` where a
/// record runs past the end of the table, a field fails as `field_record`
/// describes, or an offset passes the largest `usize`.
pub open spec fn fields_from(b: Seq<u8>, o: int, k: nat) -> Option<Seq<SymbolInfoModel>>
    decreases k,
{
    if k == 0 {
        Some(Seq::empty())
    } else if o + DATATYPE_ENTRY_LEN > b.len() {
        None
    } else {
        let e = datatype_entry_at(b, o);
        match field_record(e, b, o) {
            None => None,
            Some(f) => {
                let next = o + e.entryLength;
                if next > usize::MAX {
                    None
                } else {
                    match fields_from(b, next, (k - 1) as nat) {
                        None => None,
                        Some(rest) => Some(
                            seq![
                                match f {
                                    Some(x) => x,
                                    None => empty_symbol_info(),
                                },
                            ] + rest,
                        ),
                    }
                }
            },
        }
    }
}

/// The data type described by record `e` at position `o` of the data type
/// table `b`: its name and comment follow the record, then one record per
/// array dimension, then one record per field. `Some(None)` where `o` lies
/// past the table or the name is not valid UTF-8; `None` where the comment,
/// a dimension or a field cannot be read.
pub open spec fn item_record(e: AdsDatatypeEntry, b: Seq<u8>, o: int) -> Option<
    Option<DataTypeInfoModel>,
> {
    if o >= b.len() + DATATYPE_ENTRY_LEN {
        Some(None)
    } else {
        let name_at = o + DATATYPE_ENTRY_LEN;
        let name_end = name_at + e.nameLength;
        let comment_at = name_end + 1 + e.typeLength + 1;
        let comment_end = comment_at + e.commentLength;
        if name_end > b.len() {
            None
        } else if !valid_utf8(b.subrange(name_at, name_end)) {
            Some(None)
        } else if e.commentLength > 0 && comment_end > b.len() {
            None
        } else {
            match dims_from(b, comment_end + 1, e.arrayDim as nat, 1) {
                None => None,
                Some(d) => match fields_from(
                    b,
                    comment_end + 1 + e.arrayDim * ARRAY_INFO_LEN,
                    e.subItems as nat,
                ) {
                    None => None,
                    Some(fields) => Some(
                        Some(
                            DataTypeInfoModel {
                                name: decode_utf8(b.subrange(name_at, name_end)),
                                comment: if e.commentLength > 0 {
                                    stream_text(b.subrange(comment_at, comment_end))
                                } else {
                                    Seq::empty()
                                },
                                entry_length: e.entryLength,
                                version: e.version,
                                size: e.size,
                                offset: e.offs,
                                data_type: e.dataType,
                                flags: e.flags,
                                num_array_dimensions: e.arrayDim,
                                num_fields: e.subItems,
                                array_data_size: if e.arrayDim > 0 {
                                    d.1 as usize
                                } else {
                                    0
                                },
                                array_dimensions: d.0,
                                fields,
                            },
                        ),
                    ),
                },
            }
        }
    }
}

fn read_dims(b: &[u8], o: usize, k: u16) -> (r: Option<(Vec<usize>, u32)>)
    requires
        b@.len() <= isize::MAX,
        o <= b@.len() + 0x40000,
    ensures
        match r {
            Some(x) => dims_from(b@, o as int, k as nat, 1) == Some((x.0@, x.1)),
            None => dims_from(b@, o as int, k as nat, 1) is None,
        },
{
    let n = b.len();
    let mut dims: Vec<usize> = Vec::new();
    let mut size: u32 = 1;
    let mut at: usize = o;
    let mut i: u16 = 0;
    while i < k
        invariant
            n == b@.len(),
            n <= isize::MAX,
            i <= k,
            at <= n + 0x40000,
            dims_from(b@, o as int, k as nat, 1) == match dims_from(
                b@,
                at as int,
                (k - i) as nat,
                size,
            ) {
                None => None,
                Some(r) => Some((dims@ + r.0, r.1)),
            },
        decreases k - i,
    {
        if at > n || n - at < ARRAY_INFO_LEN {
            return None;
        }
        let el = u32_from(b, at + 4);
        assert(array_info_at(b@, at as int).elements == el);
        if el != 0 && size > u32::MAX / el {
            proof {
                assert(size * el > u32::MAX) by (nonlinear_arith)
                    requires
                        el != 0,
                        size > u32::MAX / el,
                ;
            }
            return None;
        }
        proof {
            if el != 0 {
                assert(size * el <= u32::MAX) by (nonlinear_arith)
                    requires
                        el != 0,
                        size <= u32::MAX / el,
                ;
            }
        }
        let ghost before = dims@;
        dims.push(el as usize);
        proof {
            assert forall|r: Seq<usize>| #![auto] before + (seq![el as usize] + r) == dims@ + r by {
                assert(before + (seq![el as usize] + r) =~= dims@ + r);
            }
        }
        size = size * el;
        at = at + ARRAY_INFO_LEN;
        i += 1;
    }
    assert(dims@ + Seq::<usize>::empty() =~= dims@);
    Some((dims, size))
}

fn read_fields(b: &[u8], o: usize, k: u16) -> (r: Option<Vec<AdsSymbolInfo>>)
    requires
        b@.len() <= isize::MAX,
    ensures
        match r {
            Some(v) => fields_from(b@, o as int, k as nat) == Some(symbols_view(v@)),
            None => fields_from(b@, o as int, k as nat) is None,
        },
{
    let n = b.len();
    let mut fields: Vec<AdsSymbolInfo> = Vec::new();
    let mut at: usize = o;
    let mut i: u16 = 0;
    while i < k
        invariant
            n == b@.len(),
            n <= isize::MAX,
            i <= k,
            fields_from(b@, o as int, k as nat) == match fields_from(
                b@,
                at as int,
                (k - i) as nat,
            ) {
                None => None,
                Some(rest) => Some(symbols_view(fields@) + rest),
            },
        decreases k - i,
    {
        if at > n || n - at < DATATYPE_ENTRY_LEN {
            return None;
        }
        let e = read_datatype_entry(b, at);
        let f = match read_field(&e, b, at) {
            None => {
                return None;
            },
            Some(Some(f)) => f,
            Some(None) => AdsSymbolInfo::new(),
        };
        let step = e.entryLength as usize;
        if usize::MAX - at < step {
            return None;
        }
        let ghost before = symbols_view(fields@);
        let ghost fv = f@;
        fields.push(f);
        proof {
            assert(symbols_view(fields@) =~= before + seq![fv]);
            assert forall|rest: Seq<SymbolInfoModel>| #![auto]
                before + (seq![fv] + rest) == symbols_view(fields@) + rest by {
                assert(before + (seq![fv] + rest) =~= symbols_view(fields@) + rest);
            }
        }
        at = at + step;
        i += 1;
    }
    assert(symbols_view(fields@) + Seq::<SymbolInfoModel>::empty() =~= symbols_view(fields@));
    Some(fields)
}

fn read_item(e: &AdsDatatypeEntry, b: &[u8], o: usize) -> (r: Option<Option<AdsDataTypeInfo>>)
    requires
        b@.len() <= isize::MAX,
    ensures
        match r {
            None => item_record(*e, b@, o as int) is None,
            Some(None) => item_record(*e, b@, o as int) == Some(None::<DataTypeInfoModel>),
            Some(Some(t)) => item_record(*e, b@, o as int) == Some(Some(t@)),
        },
{
    let n = b.len();
    if o >= n && o - n >= DATATYPE_ENTRY_LEN {
        return Some(None);
    }
    let name_at = o + DATATYPE_ENTRY_LEN;
    let name_end = name_at + e.nameLength as usize;
    if name_end > n {
        return None;
    }
    let name = match string_from_utf8(&b[name_at..name_end]) {
        Ok(t) => t,
        Err(_) => {
            return Some(None);
        },
    };
    let comment_at = name_end + 1 + e.typeLength as usize + 1;
    let comment_end = comment_at + e.commentLength as usize;
    if e.commentLength > 0 && comment_end > n {
        return None;
    }
    let (dims, size) = match read_dims(b, comment_end + 1, e.arrayDim) {
        Some(d) => d,
        None => {
            return None;
        },
    };
    let fields_at = comment_end + 1 + (e.arrayDim as usize) * ARRAY_INFO_LEN;
    let fields = match read_fields(b, fields_at, e.subItems) {
        Some(f) => f,
        None => {
            return None;
        },
    };
    let mut info = AdsDataTypeInfo::new();
    info.name = name;
    if e.commentLength > 0 {
        info.comment = text_of(&b[comment_at..comment_end]);
    }
    info.entry_length = e.entryLength;
    info.version = e.version;
    info.size = e.size;
    info.offset = e.offs;
    info.data_type = e.dataType;
    info.flags = e.flags;
    info.num_array_dimensions = e.arrayDim;
    info.num_fields = e.subItems;
    if e.arrayDim > 0 {
        info.array_data_size = size as usize;
    }
    info.array_dimensions = dims;
    info.fields = fields;
    assert(info@.fields =~= symbols_view(info.fields@));
    Some(Some(info))
}

/// The data type described by `item`, the record at position `offset` of
/// the data type table `buffer`: its name and comment, its array dimensions
/// with the product of their element counts, and its fields. `None` where
/// `offset` lies past the table or the name is not valid UTF-8.
pub fn parse_datatype_entry_item(item: &AdsDatatypeEntry, buffer: &Vec<u8>, offset: usize) -> (r:
    Option<AdsDataTypeInfo>)
    requires
        buffer@.len() <= isize::MAX,
        item_record(*item, buffer@, offset as int) is Some,
    ensures
        match r {
            Some(t) => item_record(*item, buffer@, offset as int) == Some(Some(t@)),
            None => item_record(*item, buffer@, offset as int) == Some(None::<DataTypeInfoModel>),
        },
{
    match read_item(item, buffer.as_slice(), offset) {
        Some(t) => t,
        None => None,
    }
}

/// The data types described by the records from position `o` of the data
/// type table `b` to its end, in order, each record followed by the next
/// after the length written in its first four bytes; records whose name
/// cannot be read are passed over. `None` where a record runs past the end
/// of the table or cannot be read, a length is zero (the table would be read
/// without end), or an offset passes the largest `usize`.
#[verifier::opaque]
pub open spec fn types_from(b: Seq<u8>, o: int) -> Option<Seq<DataTypeInfoModel>>
    decreases b.len() - o,
{
    if o >= b.len() {
        Some(Seq::empty())
    } else if o < 0 || o + DATATYPE_ENTRY_LEN > b.len() {
        None
    } else {
        let inc = u32_at(b, o);
        match item_record(datatype_entry_at(b, o), b, o) {
            None => None,
            Some(parsed) => if inc == 0 || o + inc > usize::MAX {
                None
            } else {
                let rest = if o + inc >= b.len() {
                    Some(Seq::empty())
                } else {
                    types_from(b, o + inc)
                };
                match rest {
                    None => None,
                    Some(rest) => Some(
                        match parsed {
                            Some(dt) => seq![dt] + rest,
                            None => rest,
                        },
                    ),
                }
            },
        }
    }
}

/// The last data type of `s` with name `k`, if any.
pub open spec fn last_type_named(s: Seq<DataTypeInfoModel>, k: Seq<char>) -> Option<
    DataTypeInfoModel,
>
    decreases s.len(),
{
    if s.len() == 0 {
        None
    } else if s.last().name == k {
        Some(s.last())
    } else {
        last_type_named(s.drop_last(), k)
    }
}

/// The last data type with name `k` among `s` followed by `t`.
proof fn lemma_last_type_named_append(s: Seq<DataTypeInfoModel>, t: Seq<DataTypeInfoModel>, k: Seq<char>)
    ensures
        last_type_named(s + t, k) == match last_type_named(t, k) {
            Some(x) => Some(x),
            None => last_type_named(s, k),
        },
    decreases t.len(),
{
    if t.len() == 0 {
        assert(s + t =~= s);
    } else {
        assert((s + t).drop_last() =~= s + t.drop_last());
        assert((s + t).last() == t.last());
        lemma_last_type_named_append(s, t.drop_last(), k);
    }
}

/// A data type that may be missing, by its view.
pub open spec fn type_view(t: Option<AdsDataTypeInfo>) -> Option<DataTypeInfoModel> {
    match t {
        Some(x) => Some(x@),
        None => None,
    }
}

/// One step of `types_from`: the record at `o`, then those after it.
proof fn lemma_types_step(b: Seq<u8>, o: int, parsed: Option<DataTypeInfoModel>)
    requires
        0 <= o < b.len(),
        o + DATATYPE_ENTRY_LEN <= b.len(),
        item_record(datatype_entry_at(b, o), b, o) == Some(parsed),
        u32_at(b, o) != 0,
        o + u32_at(b, o) <= usize::MAX,
    ensures
        types_from(b, o) == match (if o + u32_at(b, o) >= b.len() {
            Some(Seq::<DataTypeInfoModel>::empty())
        } else {
            types_from(b, o + u32_at(b, o))
        }) {
            None => None,
            Some(rest) => Some(
                match parsed {
                    Some(dt) => seq![dt] + rest,
                    None => rest,
                },
            ),
        },
{
    reveal(types_from);
}

/// Where the table ends, no more data types follow.
proof fn lemma_types_end(b: Seq<u8>, o: int)
    requires
        o >= b.len(),
    ensures
        types_from(b, o) == Some(Seq::<DataTypeInfoModel>::empty()),
{
    reveal(types_from);
}

/// A record that cannot be read, or whose length is zero or leads past the
/// largest `usize`, ends reading in failure.
proof fn lemma_types_stop(b: Seq<u8>, o: int)
    requires
        0 <= o < b.len(),
        o + DATATYPE_ENTRY_LEN > b.len() || item_record(datatype_entry_at(b, o), b, o) is None
            || u32_at(b, o) == 0 || o + u32_at(b, o) > usize::MAX,
    ensures
        types_from(b, o) is None,
{
    reveal(types_from);
}

/// Inserting `dv` by its name into a map that holds the last of `done` by
/// name gives a map that holds the last of `done` followed by `dv`.
proof fn lemma_last_after_insert(
    before: Seq<(Seq<char>, DataTypeInfoModel)>,
    after: Seq<(Seq<char>, DataTypeInfoModel)>,
    done: Seq<DataTypeInfoModel>,
    dv: DataTypeInfoModel,
)
    requires
        forall|k: Seq<char>| #![trigger lookup(before, k)] lookup(before, k) == last_type_named(done, k),
        lookup(after, dv.name) == Some(dv),
        forall|k: Seq<char>| k != dv.name ==> lookup(after, k) == lookup(before, k),
    ensures
        forall|k: Seq<char>|
            #![trigger lookup(after, k)]
            lookup(after, k) == last_type_named(done + seq![dv], k),
{
    assert forall|k: Seq<char>| #![trigger lookup(after, k)]
        lookup(after, k) == last_type_named(done + seq![dv], k) by {
        lemma_last_type_named_append(done, seq![dv], k);
        let one = seq![dv];
        assert(one.len() == 1);
        assert(one.last() == dv);
        assert(one.drop_last() =~= Seq::<DataTypeInfoModel>::empty());
        assert(last_type_named(Seq::<DataTypeInfoModel>::empty(), k) is None);
        if k != dv.name {
            assert(last_type_named(one, k) == last_type_named(one.drop_last(), k));
            assert(lookup(after, k) == lookup(before, k));
        } else {
            assert(last_type_named(one, k) == Some(dv));
        }
    }
}

/// Every data type of the data type table `buffer`, by name; of types with
/// the same name the last in the table is kept.
pub fn parse_datatypes(buffer: &Vec<u8>) -> (r: NameMap<AdsDataTypeInfo>)
    requires
        buffer@.len() <= isize::MAX,
        types_from(buffer@, 0) is Some,
    ensures
        sorted_by_name(r@),
        forall|k: Seq<char>|
            #![trigger lookup(r@, k)]
            lookup(r@, k) == last_type_named(types_from(buffer@, 0)->0, k),
{
    match read_types(buffer.as_slice()) {
        Some(m) => m,
        None => NameMap::new(),
    }
}

#[verifier::spinoff_prover]
fn read_types(b: &[u8]) -> (r: Option<NameMap<AdsDataTypeInfo>>)
    requires
        b@.len() <= isize::MAX,
    ensures
        match r {
            Some(m) => types_from(b@, 0) is Some && sorted_by_name(m@) && forall|k: Seq<char>|
                #![trigger lookup(m@, k)]
                lookup(m@, k) == last_type_named(types_from(b@, 0)->0, k),
            None => types_from(b@, 0) is None,
        },
{
    let n = b.len();
    let mut map: NameMap<AdsDataTypeInfo> = NameMap::new();
    let mut offset: usize = 0;
    let ghost mut done: Seq<DataTypeInfoModel> = Seq::empty();
    while offset < n
        invariant
            n == b@.len(),
            n <= isize::MAX,
            sorted_by_name(map@),
            forall|k: Seq<char>|
                #![trigger lookup(map@, k)]
                lookup(map@, k) == last_type_named(done, k),
            types_from(b@, 0) == match types_from(b@, offset as int) {
                None => None,
                Some(rest) => Some(done + rest),
            },
        decreases if offset <= n { n - offset } else { 0 },
    {
        if n - offset < DATATYPE_ENTRY_LEN {
            proof {
                lemma_types_stop(b@, offset as int);
            }
            return None;
        }
        let inc = u32_from(b, offset);
        let e = read_datatype_entry(b, offset);
        let parsed = read_item(&e, b, offset);
        let step = inc as usize;
        if parsed.is_none() || step == 0 || usize::MAX - offset < step {
            proof {
                lemma_types_stop(b@, offset as int);
            }
            return None;
        }
        let ghost old_done = done;
        proof {
            lemma_types_step(b@, offset as int, type_view(parsed->0));
        }
        match parsed {
            Some(Some(dt)) => {
                let ghost dv = dt@;
                let ghost old_map = map@;
                let key = dt.name.clone();
                map.insert(key, dt);
                proof {
                    lemma_last_after_insert(old_map, map@, old_done, dv);
                    done = old_done + seq![dv];
                    assert forall|rest: Seq<DataTypeInfoModel>| #![auto]
                        old_done + (seq![dv] + rest) == done + rest by {
                        assert(old_done + (seq![dv] + rest) =~= done + rest);
                    }
                }
            },
            _ => {},
        }
        offset = offset + step;
        proof {
            if offset >= n {
                lemma_types_end(b@, offset as int);
            }
        }
    }
    proof {
        lemma_types_end(b@, offset as int);
    }
    assert(done + Seq::<DataTypeInfoModel>::empty() =~= done);
    Some(map)
}

/// The `count` symbols of the symbol table, as `symbols_from` describes them.
pub fn parse_symbol_table(symbol_table: &Vec<u8>, count: u32) -> (r: Vec<AdsSymbolInfo>)
    requires
        symbols_from(symbol_table@, 0, count as nat) is Some,
    ensures
        symbols_from(symbol_table@, 0, count as nat) == Some(symbols_view(r@)),
{
    match read_symbols(symbol_table.as_slice(), count) {
        Some(v) => v,
        None => Vec::new(),
    }
}

/// The collection built from what a controller uploads: `count` symbols
/// read from `symbol_table` as `symbols_from` describes them, each by its
/// name (the last of equal names kept), and the data types of
/// `datatype_table` as `parse_datatypes` reads them, or none where no data
/// type table was uploaded. `None` exactly where one of the tables cannot be
/// read as described.
pub fn parse_upload(symbol_table: &Vec<u8>, count: u32, datatype_table: &Option<Vec<u8>>) -> (r:
    Option<AdsSymbolCollection>)
    requires
        match datatype_table {
            Some(t) => t@.len() <= isize::MAX,
            None => true,
        },
    ensures
        r is Some <==> (symbols_from(symbol_table@, 0, count as nat) is Some && match datatype_table {
            Some(t) => types_from(t@, 0) is Some,
            None => true,
        }),
        r matches Some(c) ==> {
            &&& sorted_by_name(c@.symbols)
            &&& forall|k: Seq<char>|
                #![trigger lookup(c@.symbols, k)]
                lookup(c@.symbols, k) == last_named(
                    symbols_from(symbol_table@, 0, count as nat)->0,
                    k,
                )
            &&& match datatype_table {
                Some(t) => sorted_by_name(c@.data_types) && forall|k: Seq<char>|
                    #![trigger lookup(c@.data_types, k)]
                    lookup(c@.data_types, k) == last_type_named(types_from(t@, 0)->0, k),
                None => c@.data_types.len() == 0,
            }
        },
{
    let symbols = match read_symbols(symbol_table.as_slice(), count) {
        Some(v) => v,
        None => {
            return None;
        },
    };
    let mut ret = AdsSymbolCollection::from_vector(&symbols);
    assert(Seq::new(symbols@.len(), |i: int| symbols@[i]@) =~= symbols_view(symbols@));
    match datatype_table {
        Some(t) => match read_types(t.as_slice()) {
            Some(m) => {
                ret.data_types = m;
            },
            None => {
                return None;
            },
        },
        None => {},
    }
    Some(ret)
}

/// The data type id, flags, size and offset of a data type read from a
/// record, and the type id, size and offset of a field read from one, are
/// those of the record.
pub proof fn law_datatype_record_numbers(e: AdsDatatypeEntry, b: Seq<u8>, o: int)
    ensures
        item_record(e, b, o) matches Some(Some(d)) ==> d.data_type == e.dataType && d.flags
            == e.flags && d.size == e.size && d.offset == e.offs && d.num_fields == e.subItems
            && d.num_array_dimensions == e.arrayDim,
        field_record(e, b, o) matches Some(Some(f)) ==> f.type_id == e.dataType && f.size
            == e.size && f.offset == e.offs && f.is_structure == (e.subItems > 0),
{
}

/// A data type table that begins with a record written in the layout of the
/// ADS interface is read with that record's data type first, carrying the
/// record's data type id and flags.
pub proof fn law_datatype_table_first(e: AdsDatatypeEntry, rest: Seq<u8>)
    requires
        e.entryLength > 0,
        types_from(datatype_entry_bytes(e) + rest, 0) is Some,
        item_record(e, datatype_entry_bytes(e) + rest, 0) is Some,
        item_record(e, datatype_entry_bytes(e) + rest, 0)->0 is Some,
    ensures
        ({
            let ts = types_from(datatype_entry_bytes(e) + rest, 0)->0;
            &&& ts.len() >= 1
            &&& ts[0] == item_record(e, datatype_entry_bytes(e) + rest, 0)->0->0
            &&& ts[0].data_type == e.dataType
            &&& ts[0].flags == e.flags
        }),
{
    reveal(types_from);
    let b = datatype_entry_bytes(e) + rest;
    law_datatype_entry_layout(Seq::empty(), e, rest);
    law_datatype_record_numbers(e, b, 0);
    assert(Seq::<u8>::empty() + datatype_entry_bytes(e) + rest =~= b);
    assert(datatype_entry_at(b, 0) == e);
    assert(u32_at(b, 0) == e.entryLength);
    assert(b.len() >= DATATYPE_ENTRY_LEN);
    let d = item_record(e, b, 0)->0->0;
    assert(item_record(datatype_entry_at(b, 0), b, 0) == Some(Some(d)));
    assert(0 + e.entryLength <= usize::MAX);
    let ts = types_from(b, 0)->0;
    assert(!(0 >= b.len()));
    assert(!(0 < 0 || 0 + DATATYPE_ENTRY_LEN > b.len()));
    if e.entryLength >= b.len() {
        assert(ts =~= seq![d] + Seq::<DataTypeInfoModel>::empty());
    } else {
        assert(types_from(b, e.entryLength as int) is Some);
        assert(ts =~= seq![d] + types_from(b, e.entryLength as int)->0);
    }
}

/// A symbol record of a table as written: the record, its name, type name
/// and comment each closed by a zero byte, then any further bytes up to the
/// record's entry length.
pub struct SymbolRecordText {
    pub entry: AdsSymbolEntry,
    pub name: Seq<u8>,
    pub type_text: Seq<u8>,
    pub comment: Seq<u8>,
    pub pad: Seq<u8>,
}

/// The bytes of the symbol record `r`.
pub open spec fn record_bytes(r: SymbolRecordText) -> Seq<u8> {
    symbol_entry_bytes(r.entry) + r.name + seq![0u8] + r.type_text + seq![0u8] + r.comment + seq![
        0u8,
    ] + r.pad
}

/// The lengths in the record `r` are those of its texts and of the whole
/// record, whatever bytes follow its texts; and its type name can be read.
pub open spec fn record_fits(r: SymbolRecordText) -> bool {
    &&& r.entry.nameLength == r.name.len()
    &&& r.entry.typeLength == r.type_text.len()
    &&& r.entry.commentLength == r.comment.len()
    &&& r.entry.entryLength == record_bytes(r).len()
    &&& dims_readable(stream_text(r.type_text))
}

/// The bytes of the symbol records `rs`, one after the other.
pub open spec fn table_bytes(rs: Seq<SymbolRecordText>) -> Seq<u8>
    decreases rs.len(),
{
    if rs.len() == 0 {
        Seq::empty()
    } else {
        record_bytes(rs[0]) + table_bytes(rs.drop_first())
    }
}

/// The symbol `s` is the one record `r` describes: its texts and numbers.
pub open spec fn symbol_of_record(s: SymbolInfoModel, r: SymbolRecordText) -> bool {
    &&& s.name == stream_text(r.name)
    &&& s.data_type_name == stream_text(r.type_text)
    &&& s.comment == stream_text(r.comment)
    &&& s.group_index == r.entry.iGroup
    &&& s.index_offset == r.entry.iOffs
    &&& s.size == r.entry.size
    &&& s.type_id == r.entry.dataType
}

/// The bytes of records laid one after the other are those of the first
/// records followed by those of the rest.
proof fn lemma_table_append(a: Seq<SymbolRecordText>, b: Seq<SymbolRecordText>)
    ensures
        table_bytes(a + b) == table_bytes(a) + table_bytes(b),
    decreases a.len(),
{
    if a.len() == 0 {
        assert(a + b =~= b);
        assert(table_bytes(a) + table_bytes(b) =~= table_bytes(b));
    } else {
        assert((a + b).drop_first() =~= a.drop_first() + b);
        assert((a + b)[0] == a[0]);
        lemma_table_append(a.drop_first(), b);
        assert(record_bytes(a[0]) + (table_bytes(a.drop_first()) + table_bytes(b)) =~= (
        record_bytes(a[0]) + table_bytes(a.drop_first())) + table_bytes(b));
    }
}

/// Where the texts of a record stand within its bytes.
#[verifier::rlimit(40)]
proof fn lemma_record_texts(r: SymbolRecordText)
    ensures
        ({
            let rb = record_bytes(r);
            let type_at: int = 30int + r.name.len() + 1;
            let comment_at: int = type_at + r.type_text.len() + 1;
            &&& rb.len() == comment_at + r.comment.len() + 1 + r.pad.len()
            &&& rb.subrange(0, 30) == symbol_entry_bytes(r.entry)
            &&& rb.subrange(30, 30int + r.name.len()) == r.name
            &&& rb.subrange(type_at, type_at + r.type_text.len()) == r.type_text
            &&& rb.subrange(comment_at, comment_at + r.comment.len()) == r.comment
        }),
{
    law_symbol_entry_layout(Seq::empty(), r.entry, Seq::empty());
    let eb = symbol_entry_bytes(r.entry);
    let rb = record_bytes(r);
    let a1 = eb + r.name;
    let a2 = a1 + seq![0u8];
    let a3 = a2 + r.type_text;
    let a4 = a3 + seq![0u8];
    let a5 = a4 + r.comment;
    let a6 = a5 + seq![0u8];
    assert(rb == a6 + r.pad);
    assert(rb.subrange(0, 30) =~= eb);
    assert(rb.subrange(30, 30int + r.name.len()) =~= r.name);
    let type_at: int = 30int + r.name.len() + 1;
    assert(rb.subrange(type_at, type_at + r.type_text.len()) =~= r.type_text);
    let comment_at: int = type_at + r.type_text.len() + 1;
    assert(rb.subrange(comment_at, comment_at + r.comment.len()) =~= r.comment);
}

/// Where the parts of a record stand in a table.
#[verifier::rlimit(40)]
proof fn lemma_record_layout(pre: Seq<u8>, r: SymbolRecordText, post: Seq<u8>)
    ensures
        ({
            let b = pre + record_bytes(r) + post;
            let o = pre.len() as int;
            let name_at: int = o + 30;
            let type_at = name_at + r.name.len() + 1;
            let comment_at: int = type_at + r.type_text.len() + 1;
            &&& symbol_entry_at(b, o) == r.entry
            &&& b.len() >= comment_at + r.comment.len() + 1
            &&& b.subrange(name_at, name_at + r.name.len()) == r.name
            &&& b.subrange(type_at, type_at + r.type_text.len()) == r.type_text
            &&& b.subrange(comment_at, comment_at + r.comment.len()) == r.comment
        }),
{
    lemma_record_texts(r);
    let rb = record_bytes(r);
    let eb = symbol_entry_bytes(r.entry);
    let b = pre + rb + post;
    let o = pre.len() as int;
    let rest = rb.subrange(30, rb.len() as int);
    assert(rb =~= eb + rest);
    assert(b =~= pre + eb + (rest + post));
    law_symbol_entry_layout(pre, r.entry, rest + post);
    let type_at: int = 30int + r.name.len() + 1;
    let comment_at: int = type_at + r.type_text.len() + 1;
    assert(b.subrange(o + 30, o + 30 + r.name.len()) =~= rb.subrange(30, 30int + r.name.len()));
    assert(b.subrange(o + type_at, o + type_at + r.type_text.len()) =~= rb.subrange(
        type_at,
        type_at + r.type_text.len(),
    ));
    assert(b.subrange(o + comment_at, o + comment_at + r.comment.len()) =~= rb.subrange(
        comment_at,
        comment_at + r.comment.len(),
    ));
}

/// A record that fits, wherever it stands in a table, is read as the symbol
/// it describes, and the next record is looked for right after its bytes.
proof fn lemma_record_read(pre: Seq<u8>, r: SymbolRecordText, post: Seq<u8>)
    requires
        record_fits(r),
    ensures
        symbol_record(pre + record_bytes(r) + post, pre.len() as int) matches Some(s)
            && symbol_of_record(s, r),
        symbol_entry_at(pre + record_bytes(r) + post, pre.len() as int).entryLength
            == record_bytes(r).len(),
{
    lemma_record_layout(pre, r, post);
}

/// The bytes of a table are those of the records before record `k`, then
/// record `k`, then the records after it.
#[verifier::rlimit(100)]
proof fn lemma_table_split(rs: Seq<SymbolRecordText>, k: int)
    requires
        0 <= k < rs.len(),
    ensures
        table_bytes(rs) == table_bytes(rs.take(k)) + record_bytes(rs[k]) + table_bytes(
            rs.skip(k + 1),
        ),
        table_bytes(rs.take(k + 1)) == table_bytes(rs.take(k)) + record_bytes(rs[k]),
{
    let front = rs.take(k);
    let one = seq![rs[k]];
    let back = rs.skip(k + 1);
    assert(one.drop_first() =~= Seq::<SymbolRecordText>::empty());
    assert(table_bytes(Seq::<SymbolRecordText>::empty()) =~= Seq::<u8>::empty());
    assert(table_bytes(one) =~= record_bytes(rs[k]));
    lemma_table_append(one, back);
    lemma_table_append(front, one + back);
    lemma_table_append(front, one);
    assert(rs =~= front + (one + back));
    assert(rs.take(k + 1) =~= front + one);
    assert(table_bytes(front) + (record_bytes(rs[k]) + table_bytes(back)) =~= table_bytes(front)
        + record_bytes(rs[k]) + table_bytes(back));
}

/// Reading the records of a table from record `k` on.
#[verifier::rlimit(80)]
proof fn lemma_table_read_from(rs: Seq<SymbolRecordText>, tail: Seq<u8>, k: int)
    requires
        0 <= k <= rs.len(),
        forall|i: int| 0 <= i < rs.len() ==> record_fits(#[trigger] rs[i]),
        (table_bytes(rs) + tail).len() <= usize::MAX,
    ensures
        symbols_from(
            table_bytes(rs) + tail,
            table_bytes(rs.take(k)).len() as int,
            (rs.len() - k) as nat,
        ) matches Some(syms) && syms.len() == rs.len() - k && forall|i: int|
            0 <= i < syms.len() ==> symbol_of_record(#[trigger] syms[i], rs[k + i]),
    decreases rs.len() - k,
{
    let t = table_bytes(rs) + tail;
    if k < rs.len() {
        let front = rs.take(k);
        let back = rs.skip(k + 1);
        lemma_table_split(rs, k);
        let pre = table_bytes(front);
        let post = table_bytes(back) + tail;
        assert(t =~= pre + record_bytes(rs[k]) + post);
        lemma_record_read(pre, rs[k], post);
        assert(table_bytes(rs.take(k + 1)).len() == pre.len() + record_bytes(rs[k]).len());
        lemma_table_read_from(rs, tail, k + 1);
        let s = symbol_record(t, pre.len() as int)->0;
        let rest = symbols_from(t, table_bytes(rs.take(k + 1)).len() as int, (rs.len() - k - 1) as nat)->0;
        assert(symbols_from(t, pre.len() as int, (rs.len() - k) as nat) == Some(seq![s] + rest));
        assert forall|i: int| 0 <= i < rs.len() - k implies symbol_of_record(
            #[trigger] (seq![s] + rest)[i],
            rs[k + i],
        ) by {
            if i > 0 {
                assert((seq![s] + rest)[i] == rest[i - 1]);
            }
        }
    }
}

/// A symbol table made of records, each followed by the next at its entry
/// length, whatever bytes stand between the end of its texts and that
/// length, is read as the symbols the records describe, one per record and
/// in order, with the names, type names and comments written.
pub proof fn law_symbol_table_read(rs: Seq<SymbolRecordText>, tail: Seq<u8>)
    requires
        forall|i: int| 0 <= i < rs.len() ==> record_fits(#[trigger] rs[i]),
        (table_bytes(rs) + tail).len() <= usize::MAX,
    ensures
        symbols_from(table_bytes(rs) + tail, 0, rs.len()) matches Some(syms) && syms.len()
            == rs.len() && forall|i: int|
            0 <= i < syms.len() ==> symbol_of_record(#[trigger] syms[i], rs[i]),
{
    assert(rs.take(0) =~= Seq::<SymbolRecordText>::empty());
    lemma_table_read_from(rs, tail, 0);
}

} // verus!
