//! Writing values as the bytes the controller expects, with the layout that
//! the uploaded symbol and data type tables describe.
use crate::ads_data::{plain_bytes, serialize_value};
use crate::ads_data::{law_plain_roundtrip, plain_type_of, string_value, type_id_of, AdsDataTypeId};
use crate::client_types::first_zero;
use crate::deserialize::{
    deser, deser_array, deser_elems, deser_field, deser_fields, deser_struct, deser_value,
    insert_member, max_depth, member_index_from, shape, text_bytes, Members,
};
use crate::name_map::lookup;
use crate::error::AdsError;
use crate::symbols::{
    array_element, dims_product, fundamental_type_info, strides_fit, AdsSymbolCollection,
    AdsSymbolInfo, CollectionModel, SymbolInfoModel,
};
use crate::variant::{
    items_model, lemma_items_model, lemma_members_model, members_model, Variant, VariantModel,
};
use vstd::prelude::*;
use vstd::string::StringSliceAdditionalSpecFns;

verus! {

broadcast use vstd::std_specs::vec::axiom_vec_index_decreases;

/// `b` followed by zeros up to length `n`, or `b` itself when it is not shorter.
pub open spec fn pad_to(b: Seq<u8>, n: int) -> Seq<u8> {
    if b.len() < n {
        b + Seq::new((n - b.len()) as nat, |i: int| 0u8)
    } else {
        b
    }
}

/// `b` cut or filled with zeros to length `n`.
pub open spec fn resize_to(b: Seq<u8>, n: int) -> Seq<u8> {
    if b.len() < n {
        pad_to(b, n)
    } else {
        b.take(n)
    }
}

/// The bytes written for value `v` of symbol `s`: an array as its items one
/// after the other, each written for `s` as `ser_item` describes, filled
/// with zeros to the size of `s`; a structure as its members in order, each written for the field of
/// the same position in the fundamental type of `s` at the field's offset,
/// filled with zeros to the size of the type; a string as its UTF-8 bytes
/// cut or filled to the size of `s`; plain data as itself. `None` where
/// writing would fail.
pub open spec fn ser(c: CollectionModel, s: SymbolInfoModel, v: VariantModel) -> Option<
    Result<Seq<u8>, AdsError>,
>
    decreases v, 0nat,
{
    match v {
        VariantModel::Array(items) => match ser_items(c, s, items) {
            None => None,
            Some(Err(e)) => Some(Err(e)),
            Some(Ok(b)) => Some(Ok(pad_to(b, s.size as int))),
        },
        VariantModel::Object(ms) => match fundamental_type_info(c, s) {
            None => Some(Err(AdsError::TypeInfoNotFound)),
            Some(dt) => match ser_members(c, dt.fields, ms, 0, Seq::empty()) {
                None => None,
                Some(Err(e)) => Some(Err(e)),
                Some(Ok(b)) => Some(Ok(pad_to(b, dt.size as int))),
            },
        },
        VariantModel::Str(t) => Some(Ok(resize_to(text_bytes(t), s.size as int))),
        _ => Some(plain_bytes(v)),
    }
}

/// The bytes written for the items of an array of symbol `s`, one after the other.
pub open spec fn ser_items(c: CollectionModel, s: SymbolInfoModel, items: Seq<VariantModel>) -> Option<
    Result<Seq<u8>, AdsError>,
>
    decreases items, 0nat,
{
    if items.len() == 0 {
        Some(Ok(Seq::empty()))
    } else {
        match ser_item(c, s, items[0]) {
            None => None,
            Some(Err(e)) => Some(Err(e)),
            Some(Ok(b)) => match ser_items(c, s, items.drop_first()) {
                None => None,
                Some(Err(e)) => Some(Err(e)),
                Some(Ok(rest)) => Some(Ok(b + rest)),
            },
        }
    }
}

/// The bytes written for an item of an array of symbol `s`: a nested array,
/// a row of an array of more dimensions, as its own items one after the
/// other, with no zeros after them; any other value as `ser` writes it.
pub open spec fn ser_item(c: CollectionModel, s: SymbolInfoModel, v: VariantModel) -> Option<
    Result<Seq<u8>, AdsError>,
>
    decreases v, 1nat,
{
    match v {
        VariantModel::Array(inner) => ser_items(c, s, inner),
        _ => ser(c, s, v),
    }
}

/// The bytes `acc` followed by those written for the members `ms`, the
/// first of them for field number `count`.
pub open spec fn ser_members(
    c: CollectionModel,
    fields: Seq<SymbolInfoModel>,
    ms: Seq<(Seq<char>, VariantModel)>,
    count: int,
    acc: Seq<u8>,
) -> Option<Result<Seq<u8>, AdsError>>
    decreases ms, 0nat,
{
    if ms.len() == 0 {
        Some(Ok(acc))
    } else if count < 0 || count >= fields.len() {
        Some(Err(AdsError::TooManyMembers))
    } else {
        let f = fields[count];
        match ser(c, f, ms[0].1) {
            None => None,
            Some(Err(e)) => Some(Err(e)),
            Some(Ok(b)) => ser_members(
                c,
                fields,
                ms.drop_first(),
                count + 1,
                pad_to(acc, f.offset as int) + b,
            ),
        }
    }
}

/// Writing a value never fails outright: it gives bytes or an error.
pub proof fn lemma_ser_total(c: CollectionModel, s: SymbolInfoModel, v: VariantModel)
    ensures
        ser(c, s, v) is Some,
    decreases v, 0nat,
{
    match v {
        VariantModel::Array(items) => lemma_ser_items_total(c, s, items),
        VariantModel::Object(ms) => match fundamental_type_info(c, s) {
            None => {},
            Some(dt) => lemma_ser_members_total(c, dt.fields, ms, 0, Seq::empty()),
        },
        _ => {},
    }
}

/// Writing the items of an array gives bytes or an error.
pub proof fn lemma_ser_items_total(c: CollectionModel, s: SymbolInfoModel, items: Seq<VariantModel>)
    ensures
        ser_items(c, s, items) is Some,
    decreases items, 0nat,
{
    if items.len() > 0 {
        lemma_ser_item_total(c, s, items[0]);
        lemma_ser_items_total(c, s, items.drop_first());
    }
}

/// Writing an item of an array gives bytes or an error.
pub proof fn lemma_ser_item_total(c: CollectionModel, s: SymbolInfoModel, v: VariantModel)
    ensures
        ser_item(c, s, v) is Some,
    decreases v, 1nat,
{
    match v {
        VariantModel::Array(inner) => lemma_ser_items_total(c, s, inner),
        _ => lemma_ser_total(c, s, v),
    }
}

/// Writing the members of a structure gives bytes or an error.
pub proof fn lemma_ser_members_total(
    c: CollectionModel,
    fields: Seq<SymbolInfoModel>,
    ms: Seq<(Seq<char>, VariantModel)>,
    count: int,
    acc: Seq<u8>,
)
    ensures
        ser_members(c, fields, ms, count, acc) is Some,
    decreases ms, 0nat,
{
    if ms.len() > 0 && 0 <= count < fields.len() {
        let f = fields[count];
        lemma_ser_total(c, f, ms[0].1);
        if let Some(Ok(b)) = ser(c, f, ms[0].1) {
            lemma_ser_members_total(c, fields, ms.drop_first(), count + 1, pad_to(acc, f.offset as int) + b);
        }
    }
}

/// Adds zeros to `b` up to length `n`.
fn pad_zeros(b: &mut Vec<u8>, n: usize)
    ensures
        final(b)@ == pad_to(old(b)@, n as int),
{
    let ghost start = b@;
    while b.len() < n
        invariant
            b@.len() == start.len() || b@.len() <= n,
            b@ == start + Seq::new((b@.len() - start.len()) as nat, |i: int| 0u8),
            start == old(b)@,
            b@.len() >= start.len(),
        decreases n - b@.len(),
    {
        b.push(0);
        assert(b@ =~= start + Seq::new((b@.len() - start.len()) as nat, |i: int| 0u8));
    }
    proof {
        if start.len() >= n {
            assert(b@ =~= start);
        }
    }
}

/// Adds the bytes of `more` to the end of `b`.
fn append_bytes(b: &mut Vec<u8>, more: &Vec<u8>)
    ensures
        final(b)@ == old(b)@ + more@,
{
    let mut i: usize = 0;
    let ghost start = b@;
    while i < more.len()
        invariant
            0 <= i <= more@.len(),
            start == old(b)@,
            b@ == start + more@.take(i as int),
        decreases more@.len() - i,
    {
        b.push(more[i]);
        assert(start + more@.take(i + 1) =~= (start + more@.take(i as int)).push(more@[i as int]));
        i += 1;
    }
    assert(more@.take(more@.len() as int) =~= more@);
}

/// The bytes written for the items `arr` of an array of symbol `s`, one
/// after the other, `None` where writing fails.
fn items_core(c: &AdsSymbolCollection, s: &AdsSymbolInfo, arr: &Vec<Variant>) -> (r: Option<
    Result<Vec<u8>, AdsError>,
>)
    ensures
        match r {
            None => ser_items(c@, s@, items_model(arr@)) is None,
            Some(Ok(b)) => ser_items(c@, s@, items_model(arr@)) == Some(Ok::<Seq<u8>, AdsError>(b@)),
            Some(Err(e)) => ser_items(c@, s@, items_model(arr@)) == Some(Err::<Seq<u8>, AdsError>(e)),
        },
    decreases arr, 0nat,
{
    proof {
        lemma_items_model(arr@);
    }
    let ghost items = items_model(arr@);
    let mut all: Vec<u8> = Vec::new();
    let mut i: usize = 0;
    assert(items.skip(0) =~= items);
    while i < arr.len()
        invariant
            0 <= i <= arr@.len(),
            items == items_model(arr@),
            items.len() == arr@.len(),
            forall|j: int| 0 <= j < arr@.len() ==> #[trigger] items[j] == arr@[j]@,
            ser_items(c@, s@, items) == match ser_items(c@, s@, items.skip(i as int)) {
                None => None,
                Some(Err(e)) => Some(Err(e)),
                Some(Ok(rest)) => Some(Ok(all@ + rest)),
            },
        decreases arr@.len() - i,
    {
        assert(items.skip(i as int)[0] == arr@[i as int]@);
        assert(decreases_to!(*arr => arr[i as int]));
        assert(items.skip(i as int).drop_first() =~= items.skip(i + 1));
        match item_core(c, s, &arr[i]) {
            None => {
                return None;
            },
            Some(Err(e)) => {
                return Some(Err(e));
            },
            Some(Ok(bytes)) => {
                let ghost before = all@;
                append_bytes(&mut all, &bytes);
                proof {
                    assert forall|rest: Seq<u8>| #![auto]
                        before + (bytes@ + rest) == all@ + rest by {
                        assert(before + (bytes@ + rest) =~= all@ + rest);
                    }
                }
            },
        }
        i += 1;
    }
    assert(items.skip(i as int) =~= Seq::<VariantModel>::empty());
    assert(all@ + Seq::<u8>::empty() =~= all@);
    Some(Ok(all))
}

/// The bytes written for an item `v` of an array of symbol `s`, as
/// `ser_item` describes them, `None` where writing fails.
fn item_core(c: &AdsSymbolCollection, s: &AdsSymbolInfo, v: &Variant) -> (r: Option<
    Result<Vec<u8>, AdsError>,
>)
    ensures
        match r {
            None => ser_item(c@, s@, v@) is None,
            Some(Ok(b)) => ser_item(c@, s@, v@) == Some(Ok::<Seq<u8>, AdsError>(b@)),
            Some(Err(e)) => ser_item(c@, s@, v@) == Some(Err::<Seq<u8>, AdsError>(e)),
        },
    decreases v, 1nat,
{
    match v {
        Variant::Array(inner) => {
            proof {
                lemma_items_model(inner@);
            }
            items_core(c, s, inner)
        },
        _ => ser_core(c, s, v),
    }
}

/// The bytes written for `value` of symbol `s`, `None` where writing fails.
fn ser_core(c: &AdsSymbolCollection, s: &AdsSymbolInfo, value: &Variant) -> (r: Option<
    Result<Vec<u8>, AdsError>,
>)
    ensures
        match r {
            None => ser(c@, s@, value@) is None,
            Some(Ok(b)) => ser(c@, s@, value@) == Some(Ok::<Seq<u8>, AdsError>(b@)),
            Some(Err(e)) => ser(c@, s@, value@) == Some(Err::<Seq<u8>, AdsError>(e)),
        },
    decreases value, 0nat,
{
    match value {
        Variant::Array(arr) => {
            proof {
                lemma_items_model(arr@);
            }
            match items_core(c, s, arr) {
                None => None,
                Some(Err(e)) => Some(Err(e)),
                Some(Ok(all)) => {
                    let mut all = all;
                    pad_zeros(&mut all, s.size as usize);
                    Some(Ok(all))
                },
            }
        },
        Variant::Object(members) => {
            proof {
                lemma_members_model(members@);
            }
            let ghost ms = members_model(members@);
            match c.get_fundamental_type_info(s) {
                None => Some(Err(AdsError::TypeInfoNotFound)),
                Some(dt) => {
                    let ghost fields = dt@.fields;
                    let mut all: Vec<u8> = Vec::new();
                    let mut count: usize = 0;
                    assert(ms.skip(0) =~= ms);
                    while count < members.len()
                        invariant
                            0 <= count <= members@.len(),
                            ms == members_model(members@),
                            value@ == VariantModel::Object(ms),
                            *value == Variant::Object(*members),
                            ms.len() == members@.len(),
                            forall|j: int|
                                0 <= j < members@.len() ==> #[trigger] ms[j] == (
                                    members@[j].0@,
                                    members@[j].1@,
                                ),
                            fields == dt@.fields,
                            fundamental_type_info(c@, s@) == Some(dt@),
                            ser_members(c@, fields, ms, 0, Seq::empty()) == ser_members(
                                c@,
                                fields,
                                ms.skip(count as int),
                                count as int,
                                all@,
                            ),
                        decreases members@.len() - count,
                    {
                        assert(ms.skip(count as int)[0] == ms[count as int]);
                        assert(ms.skip(count as int).drop_first() =~= ms.skip(count + 1));
                        if count >= dt.fields.len() {
                            return Some(Err(AdsError::TooManyMembers));
                        }
                        let field = &dt.fields[count];
                        assert(decreases_to!(*members => members[count as int]));
                        assert(fields[count as int] == field@);
                        match ser_core(c, field, &members[count].1) {
                            None => {
                                return None;
                            },
                            Some(Err(e)) => {
                                return Some(Err(e));
                            },
                            Some(Ok(bytes)) => {
                                pad_zeros(&mut all, field.offset as usize);
                                append_bytes(&mut all, &bytes);
                            },
                        }
                        count += 1;
                    }
                    assert(ms.skip(count as int) =~= Seq::<(Seq<char>, VariantModel)>::empty());
                    pad_zeros(&mut all, dt.size as usize);
                    Some(Ok(all))
                },
            }
        },
        Variant::String(text) => {
            let bytes = text.as_str().as_bytes();
            let size = s.size as usize;
            let mut out: Vec<u8> = Vec::new();
            let mut i: usize = 0;
            while i < bytes.len() && i < size
                invariant
                    0 <= i <= bytes@.len(),
                    i <= size,
                    bytes@ == text_bytes(text@),
                    out@ == bytes@.take(i as int),
                decreases bytes@.len() - i,
            {
                out.push(bytes[i]);
                assert(bytes@.take(i + 1) =~= bytes@.take(i as int).push(bytes@[i as int]));
                i += 1;
            }
            proof {
                if bytes@.len() < size {
                    assert(bytes@.take(bytes@.len() as int) =~= bytes@);
                } else {
                    assert(out@ =~= resize_to(bytes@, size as int));
                }
            }
            pad_zeros(&mut out, size);
            Some(Ok(out))
        },
        _ => {
            let r = serialize_value(value);
            Some(r)
        },
    }
}

/// What `serialize_array` writes: the bytes of an array value, an error
/// for any other value.
pub open spec fn ser_array(c: CollectionModel, s: SymbolInfoModel, v: VariantModel) -> Option<
    Result<Seq<u8>, AdsError>,
> {
    match v {
        VariantModel::Array(_) => ser(c, s, v),
        _ => Some(Err(AdsError::ExpectedArray)),
    }
}

/// What `serialize_struct` writes: the bytes of a structure value, an error
/// for any other value.
pub open spec fn ser_struct(c: CollectionModel, s: SymbolInfoModel, v: VariantModel) -> Option<
    Result<Seq<u8>, AdsError>,
> {
    match v {
        VariantModel::Object(_) => ser(c, s, v),
        _ => Some(Err(AdsError::ExpectedObject)),
    }
}

/// A written value seen as bytes.
pub open spec fn bytes_view(r: Result<Vec<u8>, AdsError>) -> Result<Seq<u8>, AdsError> {
    match r {
        Ok(b) => Ok(b@),
        Err(e) => Err(e),
    }
}

/// Writes an array value for symbol `symbol_info`: each item as `serialize`
/// writes it for the same symbol, one after the other, then zeros up to the
/// size of the symbol.
pub fn serialize_array(
    symbol_collection: &AdsSymbolCollection,
    symbol_info: &AdsSymbolInfo,
    value: &Variant,
) -> (r: Result<Vec<u8>, AdsError>)
    ensures
        ser_array(symbol_collection@, symbol_info@, value@) == Some(bytes_view(r)),
{
    proof {
        lemma_ser_total(symbol_collection@, symbol_info@, value@);
    }
    match value {
        Variant::Array(_) => serialize(symbol_collection, symbol_info, value),
        _ => Err(AdsError::ExpectedArray),
    }
}

/// Writes a structure value for symbol `symbol_info`: member number `i` as
/// `serialize` writes it for field number `i` of the symbol's fundamental
/// type, placed at that field's offset, then zeros up to the size of the type.
pub fn serialize_struct(
    symbol_collection: &AdsSymbolCollection,
    symbol_info: &AdsSymbolInfo,
    value: &Variant,
) -> (r: Result<Vec<u8>, AdsError>)
    ensures
        ser_struct(symbol_collection@, symbol_info@, value@) == Some(bytes_view(r)),
{
    proof {
        lemma_ser_total(symbol_collection@, symbol_info@, value@);
    }
    match value {
        Variant::Object(_) => serialize(symbol_collection, symbol_info, value),
        _ => Err(AdsError::ExpectedObject),
    }
}

/// Writes `value` for symbol `symbol_info` in the layout of the controller:
/// arrays and structures as `serialize_array` and `serialize_struct` do,
/// text as its UTF-8 bytes cut or filled with zeros to the size of the
/// symbol, plain data least significant byte first.
pub fn serialize(
    symbol_collection: &AdsSymbolCollection,
    symbol_info: &AdsSymbolInfo,
    value: &Variant,
) -> (r: Result<Vec<u8>, AdsError>)
    ensures
        ser(symbol_collection@, symbol_info@, value@) == Some(bytes_view(r)),
{
    proof {
        lemma_ser_total(symbol_collection@, symbol_info@, value@);
    }
    match ser_core(symbol_collection, symbol_info, value) {
        Some(r) => r,
        None => Err(AdsError::TypeInfoNotFound),
    }
}

/// Text written to a symbol that is no array, with room for it and a
/// closing zero, is read back unchanged as a string.
pub proof fn law_string_roundtrip(c: CollectionModel, s: SymbolInfoModel, t: Seq<char>)
    requires
        !s.is_array,
        text_bytes(t).len() < s.size,
        forall|i: int| 0 <= i < text_bytes(t).len() ==> text_bytes(t)[i] != 0,
    ensures
        ser(c, s, VariantModel::Str(t)) matches Some(Ok(b)) && deser(
            c,
            s,
            b,
            AdsDataTypeId::String,
            max_depth(),
        ) == Some(Some(VariantModel::Str(t))),
{
    let tb = text_bytes(t);
    let b = resize_to(tb, s.size as int);
    let n = tb.len() as int;
    assert(b.len() == s.size);
    assert(b[n] == 0);
    assert(forall|j: int| 0 <= j < n ==> b[j] == tb[j]);
    assert(exists|i: int| 0 <= i < b.len() && b[i] == 0);
    let k = choose|i: int| 0 <= i < b.len() && b[i] == 0 && forall|j: int| 0 <= j < i ==> b[j] != 0;
    assert(0 <= n < b.len() && b[n] == 0 && forall|j: int| 0 <= j < n ==> b[j] != 0);
    assert(k == n) by {
        if k < n {
            assert(b[k] == tb[k]);
        } else if k > n {
            assert(b[n] != 0);
        }
    }
    assert(first_zero(b) == Some(n));
    assert(b.take(n) =~= tb);
    vstd::utf8::encode_utf8_valid_utf8(t);
    vstd::utf8::encode_utf8_decode_utf8(t);
    assert(string_value(b) == Ok::<Seq<char>, AdsError>(t));
}

/// Field `f` of a structure holds the plain value `v`: the field's type was
/// uploaded and has no fields of its own, the field is no structure and no
/// array, its type id is that of `v`, and its size is the width of `v`.
pub open spec fn plain_field_for(c: CollectionModel, f: SymbolInfoModel, v: VariantModel) -> bool {
    &&& lookup(c.data_types, f.data_type_name) matches Some(fi) && fi.num_fields == 0
    &&& !f.is_structure
    &&& !f.is_array
    &&& f.type_id != 65
    &&& plain_type_of(v) is Some
    &&& type_id_of(f.type_id) == plain_type_of(v)
    &&& plain_bytes(v) matches Ok(b) && b.len() == f.size
}

/// `v` is an array of plain values for field `f`, an array of one
/// dimension that holds exactly as many values as `v` and is exactly as
/// wide as their bytes, of the element type its declaration names.
pub open spec fn array_field_for(c: CollectionModel, f: SymbolInfoModel, v: VariantModel) -> bool {
    &&& lookup(c.data_types, f.data_type_name) matches Some(fi) && fi.num_fields == 0
    &&& !f.is_structure
    &&& f.is_array
    &&& f.type_id != 65
    &&& v is Array
    &&& f.array_dimensions.len() == 1
    &&& f.array_dimensions[0] == v->Array_0.len()
    &&& type_id_of(f.type_id) is Some
    &&& elements_fit(c, f, v->Array_0, type_id_of(f.type_id)->0)
    &&& plain_cat(v->Array_0).len() == f.size
}

/// `v` is a value that field `f` holds: plain data, or an array of plain data.
pub open spec fn field_fits(c: CollectionModel, f: SymbolInfoModel, v: VariantModel) -> bool {
    plain_field_for(c, f, v) || array_field_for(c, f, v)
}

/// The bytes of a field value: an array's values one after the other, or
/// the bytes of plain data.
pub open spec fn field_bytes(v: VariantModel) -> Seq<u8> {
    match v {
        VariantModel::Array(items) => plain_cat(items),
        _ => plain_bytes(v)->Ok_0,
    }
}

/// The fields `fs` lie inside `size` bytes in the order they are listed,
/// none overlapping the next, and no two have the same name.
pub open spec fn fields_laid_out(fs: Seq<SymbolInfoModel>, size: int) -> bool {
    &&& forall|i: int, j: int|
        0 <= i < j < fs.len() ==> #[trigger] fs[i].offset + fs[i].size <= #[trigger] fs[j].offset
    &&& forall|i: int| 0 <= i < fs.len() ==> #[trigger] fs[i].offset + fs[i].size <= size
    &&& forall|i: int, j: int| 0 <= i < j < fs.len() ==> #[trigger] fs[i].name != #[trigger] fs[j].name
}

/// The members `ms` are, in order, values for the fields `fs` under the
/// fields' names: plain data, or arrays of plain data.
pub open spec fn members_fit(c: CollectionModel, fs: Seq<SymbolInfoModel>, ms: Members) -> bool {
    &&& ms.len() == fs.len()
    &&& forall|i: int|
        #![trigger ms[i]]
        0 <= i < fs.len() ==> ms[i].0 == fs[i].name && field_fits(c, fs[i], ms[i].1)
}

/// The structure value with members `ms` fits symbol `s`, which is no
/// array: the fields of the symbol's type lie inside the type in the order
/// listed, none overlapping the next, with names that differ, and the
/// members are values for them, plain data or arrays of plain data, in
/// order and under their names.
pub open spec fn struct_fits(c: CollectionModel, s: SymbolInfoModel, ms: Members) -> bool {
    &&& !s.is_array
    &&& fundamental_type_info(c, s) matches Some(dt) && fields_laid_out(dt.fields, dt.size as int)
        && members_fit(c, dt.fields, ms)
}

/// Where the bytes of the first `k` fields end.
pub open spec fn layout_end(fs: Seq<SymbolInfoModel>, k: int) -> int {
    if k <= 0 {
        0
    } else {
        fs[k - 1].offset + fs[k - 1].size
    }
}

/// The bytes `b` hold, at the place of each of the first `k` fields, the
/// bytes of the member for it.
pub open spec fn holds_members(b: Seq<u8>, fs: Seq<SymbolInfoModel>, ms: Members, k: int) -> bool {
    forall|j: int|
        0 <= j < k ==> #[trigger] b.subrange(fs[j].offset as int, fs[j].offset + fs[j].size)
            == field_bytes(ms[j].1)
}

/// A field value is written as its field bytes, exactly as wide as the field.
proof fn lemma_field_written(c: CollectionModel, f: SymbolInfoModel, v: VariantModel)
    requires
        field_fits(c, f, v),
    ensures
        ser(c, f, v) == Some(Ok::<Seq<u8>, AdsError>(field_bytes(v))),
        field_bytes(v).len() == f.size,
{
    if array_field_for(c, f, v) {
        let items = v->Array_0;
        let t = type_id_of(f.type_id)->0;
        let e = array_element(f.data_type_name)->0;
        let w = lookup(c.data_types, e)->0.size as int;
        lemma_ser_items_plain(c, f, items, t, w);
        assert(pad_to(plain_cat(items), f.size as int) == plain_cat(items));
    } else {
        assert(plain_field_for(c, f, v));
    }
}

/// A field value is read back from bytes that hold its field bytes at the
/// field's place.
proof fn lemma_field_read(
    c: CollectionModel,
    s: SymbolInfoModel,
    f: SymbolInfoModel,
    v: VariantModel,
    b: Seq<u8>,
    fuel: nat,
)
    requires
        fuel > 0,
        field_fits(c, f, v),
        f.offset + f.size <= b.len(),
        b.subrange(f.offset as int, f.offset + f.size) == field_bytes(v),
    ensures
        deser_field(c, s, f, b, fuel) == Some(Some(v)),
{
    if array_field_for(c, f, v) {
        lemma_array_field_read(c, s, f, v, b, fuel);
    } else {
        lemma_plain_field_read(c, s, f, v, b, fuel);
    }
}

/// An array field is read from its own place.
#[verifier::rlimit(40)]
proof fn lemma_array_field_read(
    c: CollectionModel,
    s: SymbolInfoModel,
    f: SymbolInfoModel,
    v: VariantModel,
    b: Seq<u8>,
    fuel: nat,
)
    requires
        fuel > 0,
        array_field_for(c, f, v),
        f.offset + f.size <= b.len(),
        b.subrange(f.offset as int, f.offset + f.size) == field_bytes(v),
    ensures
        deser_field(c, s, f, b, fuel) == Some(Some(v)),
{
    let sub = b.subrange(f.offset as int, f.offset + f.size);
    let ft = type_id_of(f.type_id)->0;
    let items = v->Array_0;
    lemma_one_dimension(f.array_dimensions);
    assert(sub.subrange(0, plain_cat(items).len() as int) =~= sub);
    lemma_array_read_at(c, f, items, ft, sub, fuel);
    assert(items.subrange(0, items.len() as int) =~= items);
    assert(deser_array(c, f, sub, ft, fuel) == Some(Some(v)));
}

/// A plain field is read from its own place.
#[verifier::rlimit(40)]
proof fn lemma_plain_field_read(
    c: CollectionModel,
    s: SymbolInfoModel,
    f: SymbolInfoModel,
    v: VariantModel,
    b: Seq<u8>,
    fuel: nat,
)
    requires
        plain_field_for(c, f, v),
        f.offset + f.size <= b.len(),
        b.subrange(f.offset as int, f.offset + f.size) == field_bytes(v),
    ensures
        deser_field(c, s, f, b, fuel) == Some(Some(v)),
{
    let sub = b.subrange(f.offset as int, f.offset + f.size);
    let ft = type_id_of(f.type_id)->0;
    law_plain_roundtrip(v);
    assert(deser_value(c, s, sub, ft, fuel) == Some(Some(v)));
}

proof fn lemma_ser_members_layout(
    c: CollectionModel,
    fs: Seq<SymbolInfoModel>,
    ms: Members,
    k: int,
    acc: Seq<u8>,
    size: int,
)
    requires
        0 <= k <= fs.len(),
        fields_laid_out(fs, size),
        members_fit(c, fs, ms),
        acc.len() == layout_end(fs, k),
        holds_members(acc, fs, ms, k),
    ensures
        ser_members(c, fs, ms.skip(k), k, acc) matches Some(Ok(out)) && out.len() == layout_end(
            fs,
            fs.len() as int,
        ) && holds_members(out, fs, ms, fs.len() as int),
    decreases fs.len() - k,
{
    if k < fs.len() {
        let f = fs[k];
        let v = ms[k].1;
        let pb = field_bytes(v);
        assert(ms.skip(k)[0] == ms[k]);
        assert(ms.skip(k).drop_first() =~= ms.skip(k + 1));
        lemma_field_written(c, f, v);
        if k > 0 {
            assert(fs[k - 1].offset + fs[k - 1].size <= fs[k].offset);
        }
        let padded = pad_to(acc, f.offset as int);
        let next = padded + pb;
        assert(padded.len() == f.offset);
        assert(next.len() == layout_end(fs, k + 1));
        assert forall|j: int| 0 <= j < k + 1 implies #[trigger] next.subrange(
            fs[j].offset as int,
            fs[j].offset + fs[j].size,
        ) == field_bytes(ms[j].1) by {
            if j < k {
                if j < k - 1 {
                    assert(fs[j].offset + fs[j].size <= fs[k - 1].offset);
                }
                assert(next.subrange(fs[j].offset as int, fs[j].offset + fs[j].size) =~= acc.subrange(
                    fs[j].offset as int,
                    fs[j].offset + fs[j].size,
                ));
            } else {
                assert(next.subrange(fs[j].offset as int, fs[j].offset + fs[j].size) =~= pb);
            }
        }
        lemma_ser_members_layout(c, fs, ms, k + 1, next, size);
    } else {
        assert(ms.skip(k).len() == 0);
    }
}

proof fn lemma_member_absent(m: Members, k: Seq<char>, i: int)
    requires
        0 <= i,
        forall|q: int| i <= q < m.len() ==> m[q].0 != k,
    ensures
        member_index_from(m, k, i) is None,
    decreases m.len() - i,
{
    if i < m.len() {
        lemma_member_absent(m, k, i + 1);
    }
}

proof fn lemma_deser_fields_layout(
    c: CollectionModel,
    s: SymbolInfoModel,
    fs: Seq<SymbolInfoModel>,
    b: Seq<u8>,
    ms: Members,
    k: int,
    fuel: nat,
)
    requires
        0 <= k <= fs.len(),
        fuel > 0,
        fields_laid_out(fs, b.len() as int),
        members_fit(c, fs, ms),
        holds_members(b, fs, ms, fs.len() as int),
    ensures
        deser_fields(c, s, fs.skip(k), b, ms.take(k), fuel) == Some(ms),
    decreases fs.len() - k,
{
    if k < fs.len() {
        let f = fs[k];
        let v = ms[k].1;
        assert(fs.skip(k)[0] == f);
        assert(fs.skip(k).drop_first() =~= fs.skip(k + 1));
        let sub = b.subrange(f.offset as int, f.offset + f.size);
        assert(sub == field_bytes(v));
        lemma_field_read(c, s, f, v, b, fuel);
        assert forall|q: int| 0 <= q < ms.take(k).len() implies ms.take(k)[q].0 != f.name by {
            assert(ms[q].0 == fs[q].name);
        }
        lemma_member_absent(ms.take(k), f.name, 0);
        assert(insert_member(ms.take(k), f.name, v) =~= ms.take(k + 1));
        lemma_deser_fields_layout(c, s, fs, b, ms, k + 1, fuel);
    } else {
        assert(ms.take(k) =~= ms);
    }
}

/// The bytes written for a structure value laid out as `law_struct_roundtrip` asks.
proof fn lemma_struct_bytes(c: CollectionModel, s: SymbolInfoModel, ms: Members) -> (b: Seq<u8>)
    requires
        fundamental_type_info(c, s) matches Some(dt) && fields_laid_out(dt.fields, dt.size as int)
            && members_fit(c, dt.fields, ms),
    ensures
        ser(c, s, VariantModel::Object(ms)) == Some(Ok::<Seq<u8>, AdsError>(b)),
        b.len() == fundamental_type_info(c, s)->0.size,
        holds_members(
            b,
            fundamental_type_info(c, s)->0.fields,
            ms,
            fundamental_type_info(c, s)->0.fields.len() as int,
        ),
{
    let dt = fundamental_type_info(c, s)->0;
    let fs = dt.fields;
    assert(ms.skip(0) =~= ms);
    assert(holds_members(Seq::<u8>::empty(), fs, ms, 0));
    lemma_ser_members_layout(c, fs, ms, 0, Seq::empty(), dt.size as int);
    let out = ser_members(c, fs, ms, 0, Seq::empty())->0->Ok_0;
    if fs.len() > 0 {
        assert(fs[fs.len() - 1].offset + fs[fs.len() - 1].size <= dt.size);
    }
    let b = pad_to(out, dt.size as int);
    assert forall|j: int| 0 <= j < fs.len() implies #[trigger] b.subrange(
        fs[j].offset as int,
        fs[j].offset + fs[j].size,
    ) == field_bytes(ms[j].1) by {
        if j < fs.len() - 1 {
            assert(fs[j].offset + fs[j].size <= fs[fs.len() - 1].offset);
        }
        assert(b.subrange(fs[j].offset as int, fs[j].offset + fs[j].size) =~= out.subrange(
            fs[j].offset as int,
            fs[j].offset + fs[j].size,
        ));
    }
    b
}

/// Reading back bytes that hold the members at the fields' places.
proof fn lemma_struct_read(c: CollectionModel, s: SymbolInfoModel, ms: Members, b: Seq<u8>)
    requires
        !s.is_array,
        fundamental_type_info(c, s) matches Some(dt) && fields_laid_out(dt.fields, dt.size as int)
            && members_fit(c, dt.fields, ms) && b.len() == dt.size && holds_members(
            b,
            dt.fields,
            ms,
            dt.fields.len() as int,
        ),
    ensures
        deser(c, s, b, AdsDataTypeId::BigType, max_depth()) == Some(Some(VariantModel::Object(ms))),
{
    let dt = fundamental_type_info(c, s)->0;
    let fs = dt.fields;
    assert(fs.skip(0) =~= fs);
    assert(ms.take(0) =~= Seq::<(Seq<char>, VariantModel)>::empty());
    lemma_deser_fields_layout(c, s, fs, b, ms, 0, (max_depth() - 2) as nat);
    assert(deser_struct(c, s, b, (max_depth() - 1) as nat) == Some(
        Some(VariantModel::Object(ms)),
    ));
}

/// A structure value whose members are values for the fields of the
/// symbol's type, plain data or arrays of plain data, in order and under
/// the fields' names, written for a symbol that is no array, is read back
/// unchanged from the bytes written, each field from its own place, where
/// the fields lie inside the type in the order listed, none overlapping the
/// next, with names that differ.
pub proof fn law_struct_roundtrip(c: CollectionModel, s: SymbolInfoModel, ms: Members)
    requires
        struct_fits(c, s, ms),
    ensures
        ser(c, s, VariantModel::Object(ms)) matches Some(Ok(b)) && deser(
            c,
            s,
            b,
            AdsDataTypeId::BigType,
            max_depth(),
        ) == Some(Some(VariantModel::Object(ms))),
{
    let b = lemma_struct_bytes(c, s, ms);
    lemma_struct_read(c, s, ms, b);
}

/// The bytes of the plain values `items`, one after the other.
pub open spec fn plain_cat(items: Seq<VariantModel>) -> Seq<u8>
    decreases items.len(),
{
    if items.len() == 0 {
        Seq::empty()
    } else {
        plain_bytes(items[0])->Ok_0 + plain_cat(items.drop_first())
    }
}

/// `v` is plain data of type `t`, `w` bytes wide.
pub open spec fn plain_of(v: VariantModel, t: AdsDataTypeId, w: int) -> bool {
    &&& plain_type_of(v) == Some(t)
    &&& plain_bytes(v) matches Ok(b) && b.len() == w
}

/// Each of `items` is plain data of type `t`, `w` bytes wide.
pub open spec fn plain_items_of(items: Seq<VariantModel>, t: AdsDataTypeId, w: int) -> bool {
    forall|i: int| 0 <= i < items.len() ==> #[trigger] plain_of(items[i], t, w)
}

/// The element type named by the array declaration of symbol `s` was
/// uploaded, and `items` are plain data of type `t` as wide as it.
pub open spec fn elements_fit(c: CollectionModel, s: SymbolInfoModel, items: Seq<VariantModel>, t: AdsDataTypeId) -> bool {
    match array_element(s.data_type_name) {
        Some(e) => match lookup(c.data_types, e) {
            Some(vdt) => plain_items_of(items, t, vdt.size as int),
            None => false,
        },
        None => false,
    }
}

proof fn lemma_ser_items_plain(c: CollectionModel, s: SymbolInfoModel, items: Seq<VariantModel>, t: AdsDataTypeId, w: int)
    requires
        plain_items_of(items, t, w),
    ensures
        ser_items(c, s, items) == Some(Ok::<Seq<u8>, AdsError>(plain_cat(items))),
        plain_cat(items).len() == items.len() * w,
    decreases items.len(),
{
    if items.len() > 0 {
        assert(plain_items_of(items.drop_first(), t, w)) by {
            assert forall|i: int| 0 <= i < items.drop_first().len() implies #[trigger] plain_of(
                items.drop_first()[i],
                t,
                w,
            ) by {
                assert(items.drop_first()[i] == items[i + 1]);
                assert(plain_of(items[i + 1], t, w));
            }
        }
        lemma_ser_items_plain(c, s, items.drop_first(), t, w);
        let v = items[0];
        assert(plain_of(v, t, w));
        assert(ser(c, s, v) == Some(plain_bytes(v)));
        assert(!(v is Array));
        assert(ser_item(c, s, v) == ser(c, s, v));
        assert(items.len() * w == w + (items.len() - 1) * w) by (nonlinear_arith);
    }
}

#[verifier::rlimit(30)]
proof fn lemma_elems_plain(
    c: CollectionModel,
    s: SymbolInfoModel,
    b: Seq<u8>,
    t: AdsDataTypeId,
    w: int,
    items: Seq<VariantModel>,
    k: int,
    offset: int,
    fuel: nat,
)
    requires
        0 <= k <= items.len(),
        0 <= offset,
        plain_items_of(items, t, w),
        offset + plain_cat(items.skip(k)).len() <= b.len(),
        b.subrange(offset, offset + plain_cat(items.skip(k)).len()) == plain_cat(items.skip(k)),
    ensures
        deser_elems(c, s, b, t, w, (items.len() - k) as nat, offset, items.take(k), fuel) == Some(
            (items, offset + plain_cat(items.skip(k)).len()),
        ),
    decreases items.len() - k,
{
    let rest = items.skip(k);
    if k < items.len() {
        let v = items[k];
        let pb = plain_bytes(v)->Ok_0;
        assert(plain_of(v, t, w));
        assert(rest[0] == v);
        assert(rest.drop_first() =~= items.skip(k + 1));
        assert(plain_cat(rest) == pb + plain_cat(items.skip(k + 1)));
        assert(b.subrange(offset, offset + w) =~= pb) by {
            assert(b.subrange(offset, offset + w) =~= b.subrange(
                offset,
                offset + plain_cat(rest).len(),
            ).subrange(0, w));
        }
        assert(b.subrange(offset + w, offset + w + plain_cat(items.skip(k + 1)).len())
            =~= plain_cat(items.skip(k + 1))) by {
            assert(b.subrange(offset + w, offset + w + plain_cat(items.skip(k + 1)).len())
                =~= b.subrange(offset, offset + plain_cat(rest).len()).subrange(
                w,
                plain_cat(rest).len() as int,
            ));
        }
        law_plain_roundtrip(v);
        assert(deser_value(c, s, pb, t, fuel) == Some(Some(v)));
        assert(items.take(k).push(v) =~= items.take(k + 1));
        lemma_elems_plain(c, s, b, t, w, items, k + 1, offset + w, fuel);
    } else {
        assert(items.take(k) =~= items);
    }
}

/// Reading back bytes that begin with the plain `items`, laid out one
/// after the other, for an array symbol with the counts `dims`.
proof fn lemma_array_read(
    c: CollectionModel,
    s: SymbolInfoModel,
    items: Seq<VariantModel>,
    t: AdsDataTypeId,
    b: Seq<u8>,
)
    requires
        s.is_array,
        s.array_dimensions.len() > 0,
        strides_fit(s.array_dimensions),
        dims_product(s.array_dimensions) == items.len(),
        lookup(c.data_types, s.data_type_name) is Some,
        elements_fit(c, s, items, t),
        plain_cat(items).len() <= b.len(),
        b.subrange(0, plain_cat(items).len() as int) == plain_cat(items),
    ensures
        deser(c, s, b, t, max_depth()) == Some(
            Some(shape(items, s.array_dimensions, 0, 0)),
        ),
{
    let e = array_element(s.data_type_name)->0;
    let vdt = lookup(c.data_types, e)->0;
    let w = vdt.size as int;
    assert(items.skip(0) =~= items);
    assert(items.take(0) =~= Seq::<VariantModel>::empty());
    let fuel = (max_depth() - 1) as nat;
    lemma_elems_plain(c, s, b, t, w, items, 0, 0, fuel);
}

/// Reading, with `fuel` to spare, the bytes that begin with the plain
/// `items` for an array symbol with the counts `dims`.
proof fn lemma_array_read_at(
    c: CollectionModel,
    s: SymbolInfoModel,
    items: Seq<VariantModel>,
    t: AdsDataTypeId,
    b: Seq<u8>,
    fuel: nat,
)
    requires
        fuel > 0,
        s.array_dimensions.len() > 0,
        strides_fit(s.array_dimensions),
        dims_product(s.array_dimensions) == items.len(),
        lookup(c.data_types, s.data_type_name) is Some,
        elements_fit(c, s, items, t),
        plain_cat(items).len() <= b.len(),
        b.subrange(0, plain_cat(items).len() as int) == plain_cat(items),
    ensures
        deser_array(c, s, b, t, fuel) == Some(Some(shape(items, s.array_dimensions, 0, 0))),
{
    let e = array_element(s.data_type_name)->0;
    let vdt = lookup(c.data_types, e)->0;
    let w = vdt.size as int;
    assert(items.skip(0) =~= items);
    assert(items.take(0) =~= Seq::<VariantModel>::empty());
    lemma_elems_plain(c, s, b, t, w, items, 0, 0, (fuel - 1) as nat);
}

/// An array of plain values of type `t`, one per element of the only
/// dimension of an array symbol, is read back unchanged from the bytes
/// written for it, where the array's type was uploaded and the element
/// type its declaration names was uploaded with the width of the values.
pub proof fn law_array_roundtrip(
    c: CollectionModel,
    s: SymbolInfoModel,
    items: Seq<VariantModel>,
    t: AdsDataTypeId,
)
    requires
        s.is_array,
        s.array_dimensions.len() == 1,
        s.array_dimensions[0] == items.len(),
        lookup(c.data_types, s.data_type_name) is Some,
        elements_fit(c, s, items, t),
    ensures
        ser(c, s, VariantModel::Array(items)) matches Some(Ok(b)) && deser(c, s, b, t, max_depth())
            == Some(Some(VariantModel::Array(items))),
{
    let e = array_element(s.data_type_name)->0;
    let vdt = lookup(c.data_types, e)->0;
    lemma_ser_items_plain(c, s, items, t, vdt.size as int);
    let cat = plain_cat(items);
    let b = pad_to(cat, s.size as int);
    assert(ser(c, s, VariantModel::Array(items)) == Some(Ok::<Seq<u8>, AdsError>(b)));
    assert(b.subrange(0, cat.len() as int) =~= cat);
    let dims = s.array_dimensions;
    lemma_one_dimension(dims);
    lemma_array_read(c, s, items, t, b);
    assert(items.subrange(0, items.len() as int) =~= items);
}

/// The counts of a single dimension fit, and their product is that count.
proof fn lemma_one_dimension(dims: Seq<usize>)
    requires
        dims.len() == 1,
    ensures
        strides_fit(dims),
        dims_product(dims) == dims[0],
{
    assert(dims.skip(1) =~= Seq::<usize>::empty());
    assert(dims.drop_first() =~= Seq::<usize>::empty());
    assert(dims_product(dims.drop_first()) == 1);
    assert(dims_product(dims) == dims[0]);
    assert(dims.skip(0) =~= dims);
    assert forall|j: int| 0 <= j <= dims.len() implies #[trigger] dims_product(dims.skip(j))
        <= usize::MAX by {
        if j == 0 {
            assert(dims.skip(j) =~= dims);
        } else {
            assert(dims.skip(j) =~= Seq::<usize>::empty());
        }
    }
}

/// The counts of two dimensions whose product fits, fit, and their
/// products from each dimension on are the two counts multiplied and the
/// second count.
proof fn lemma_two_dimensions(dims: Seq<usize>)
    requires
        dims.len() == 2,
        dims[0] * dims[1] <= usize::MAX,
    ensures
        strides_fit(dims),
        dims_product(dims) == dims[0] * dims[1],
        dims_product(dims.skip(1)) == dims[1],
{
    let k = dims[1];
    assert(dims.skip(1) =~= seq![k]);
    assert(dims.skip(2) =~= Seq::<usize>::empty());
    assert(dims.skip(0) =~= dims);
    assert(seq![k].drop_first() =~= Seq::<usize>::empty());
    assert(dims_product(Seq::<usize>::empty()) == 1);
    assert(dims_product(seq![k]) == k);
    assert(dims.drop_first() =~= seq![k]);
    assert(dims_product(dims) == dims[0] * k);
    assert forall|j: int| 0 <= j <= dims.len() implies #[trigger] dims_product(dims.skip(j))
        <= usize::MAX by {
        if j == 0 {
            assert(dims.skip(j) =~= dims);
        } else if j == 1 {
            assert(dims.skip(j) =~= seq![k]);
        } else {
            assert(dims.skip(j) =~= Seq::<usize>::empty());
        }
    }
}

/// An array symbol with two dimensions, of `r` and `k` elements, is read
/// row by row: from bytes that begin with `r * k` plain values of its
/// element type, one after the other, it reads `r` arrays, array `i` holding
/// the values `i * k` to `i * k + k - 1`, where the array's type was uploaded
/// and the element type its declaration names was uploaded with the width
/// of the values.
pub proof fn law_array_rows(
    c: CollectionModel,
    s: SymbolInfoModel,
    items: Seq<VariantModel>,
    t: AdsDataTypeId,
    b: Seq<u8>,
)
    requires
        s.is_array,
        s.array_dimensions.len() == 2,
        items.len() == s.array_dimensions[0] * s.array_dimensions[1],
        items.len() <= usize::MAX,
        lookup(c.data_types, s.data_type_name) is Some,
        elements_fit(c, s, items, t),
        plain_cat(items).len() <= b.len(),
        b.subrange(0, plain_cat(items).len() as int) == plain_cat(items),
    ensures
        deser(c, s, b, t, max_depth()) == Some(
            Some(
                VariantModel::Array(
                    Seq::new(
                        s.array_dimensions[0] as nat,
                        |i: int|
                            VariantModel::Array(
                                items.subrange(
                                    i * s.array_dimensions[1],
                                    i * s.array_dimensions[1] + s.array_dimensions[1],
                                ),
                            ),
                    ),
                ),
            ),
        ),
{
    let dims = s.array_dimensions;
    let r = dims[0];
    let k = dims[1];
    lemma_two_dimensions(dims);
    lemma_array_read(c, s, items, t, b);
    let sv = shape(items, dims, 0, 0);
    let want = Seq::new(
        r as nat,
        |i: int| VariantModel::Array(items.subrange(i * k, i * k + k)),
    );
    assert(sv->Array_0.len() == r);
    assert forall|i: int| 0 <= i < r implies #[trigger] sv->Array_0[i] == want[i] by {
        assert(sv->Array_0[i] == shape(items, dims, 1, 0 + i * k));
        assert(dims.len() == 2);
    }
    assert(sv->Array_0 =~= want);
}

/// Rows of `k` values each, laid one after the other: row `i` stands at
/// positions `i * k` to `i * k + k - 1`.
proof fn lemma_flatten_rows(rows: Seq<Seq<VariantModel>>, k: int)
    requires
        k >= 0,
        forall|i: int| 0 <= i < rows.len() ==> #[trigger] rows[i].len() == k,
    ensures
        rows.flatten().len() == rows.len() * k,
        forall|i: int|
            0 <= i < rows.len() ==> rows.flatten().subrange(i * k, i * k + k) == #[trigger] rows[i],
    decreases rows.len(),
{
    if rows.len() > 0 {
        let rest = rows.drop_first();
        assert forall|i: int| 0 <= i < rest.len() implies #[trigger] rest[i].len() == k by {
            assert(rest[i] == rows[i + 1]);
        }
        lemma_flatten_rows(rest, k);
        let f = rows.flatten();
        let g = rest.flatten();
        assert(f == rows[0] + g);
        let n = rest.len() as int;
        assert(rows.len() * k == k + n * k) by (nonlinear_arith)
            requires
                rows.len() == n + 1,
        ;
        assert forall|i: int| 0 <= i < rows.len() implies f.subrange(i * k, i * k + k)
            == #[trigger] rows[i] by {
            if i == 0 {
                assert(f.subrange(0, k) =~= rows[0]);
            } else {
                assert(i * k == (i - 1) * k + k) by (nonlinear_arith);
                assert((i - 1) * k + k <= n * k) by (nonlinear_arith)
                    requires
                        0 <= i - 1 < n,
                        k >= 0,
                ;
                assert((i - 1) * k >= 0) by (nonlinear_arith)
                    requires
                        i >= 1,
                        k >= 0,
                ;
                assert(rest[i - 1] == rows[i]);
                assert(g.subrange((i - 1) * k, (i - 1) * k + k) == rest[i - 1]);
                assert(f.subrange(i * k, i * k + k) =~= g.subrange((i - 1) * k, (i - 1) * k + k));
            }
        }
    }
}

/// The bytes of plain values laid one after the other are those of the
/// first values followed by those of the rest.
proof fn lemma_plain_cat_append(a: Seq<VariantModel>, b: Seq<VariantModel>)
    ensures
        plain_cat(a + b) == plain_cat(a) + plain_cat(b),
    decreases a.len(),
{
    if a.len() > 0 {
        assert((a + b).drop_first() =~= a.drop_first() + b);
        assert((a + b)[0] == a[0]);
        lemma_plain_cat_append(a.drop_first(), b);
    } else {
        assert(a + b =~= b);
    }
}

/// The rows of a two-dimensional array value.
pub open spec fn grid(rows: Seq<Seq<VariantModel>>) -> VariantModel {
    VariantModel::Array(Seq::new(rows.len(), |i: int| VariantModel::Array(rows[i])))
}

/// Each of `rows` holds plain data of type `t` as wide as the element type
/// named by the array declaration of symbol `s`, which was uploaded.
pub open spec fn rows_fit(c: CollectionModel, s: SymbolInfoModel, rows: Seq<Seq<VariantModel>>, t: AdsDataTypeId) -> bool {
    match array_element(s.data_type_name) {
        Some(e) => match lookup(c.data_types, e) {
            Some(vdt) => forall|i: int| 0 <= i < rows.len() ==> plain_items_of(
                #[trigger] rows[i],
                t,
                vdt.size as int,
            ),
            None => false,
        },
        None => false,
    }
}

/// Writing the rows of plain values one after the other gives the bytes of
/// all their values in order, and those values are plain.
proof fn lemma_ser_rows(
    c: CollectionModel,
    s: SymbolInfoModel,
    rows: Seq<Seq<VariantModel>>,
    t: AdsDataTypeId,
    w: int,
)
    requires
        forall|i: int| 0 <= i < rows.len() ==> plain_items_of(#[trigger] rows[i], t, w),
    ensures
        ser_items(c, s, Seq::new(rows.len(), |i: int| VariantModel::Array(rows[i]))) == Some(
            Ok::<Seq<u8>, AdsError>(plain_cat(rows.flatten())),
        ),
        plain_items_of(rows.flatten(), t, w),
    decreases rows.len(),
{
    let items = Seq::new(rows.len(), |i: int| VariantModel::Array(rows[i]));
    if rows.len() > 0 {
        let rest = rows.drop_first();
        assert forall|i: int| 0 <= i < rest.len() implies plain_items_of(#[trigger] rest[i], t, w) by {
            assert(rest[i] == rows[i + 1]);
        }
        lemma_ser_rows(c, s, rest, t, w);
        assert(items.drop_first() =~= Seq::new(rest.len(), |i: int| VariantModel::Array(rest[i])));
        assert(plain_items_of(rows[0], t, w));
        lemma_ser_items_plain(c, s, rows[0], t, w);
        assert(ser_item(c, s, items[0]) == ser_items(c, s, rows[0]));
        assert(rows.flatten() == rows[0] + rest.flatten());
        lemma_plain_cat_append(rows[0], rest.flatten());
        let f = rows.flatten();
        assert forall|j: int| 0 <= j < f.len() implies #[trigger] plain_of(f[j], t, w) by {
            if j < rows[0].len() {
                assert(f[j] == rows[0][j]);
            } else {
                assert(f[j] == rest.flatten()[j - rows[0].len()]);
            }
        }
    } else {
        assert(rows.flatten() =~= Seq::<VariantModel>::empty());
    }
}

/// A two-dimensional array value of `r` rows of `k` plain values each, of
/// the type its declaration names, is read back unchanged from the bytes
/// written for it, row by row, where the array's type was uploaded and the
/// element type was uploaded with the width of the values.
pub proof fn law_grid_roundtrip(
    c: CollectionModel,
    s: SymbolInfoModel,
    rows: Seq<Seq<VariantModel>>,
    t: AdsDataTypeId,
)
    requires
        s.is_array,
        s.array_dimensions.len() == 2,
        s.array_dimensions[0] == rows.len(),
        forall|i: int| 0 <= i < rows.len() ==> #[trigger] rows[i].len() == s.array_dimensions[1],
        s.array_dimensions[0] * s.array_dimensions[1] <= usize::MAX,
        lookup(c.data_types, s.data_type_name) is Some,
        rows_fit(c, s, rows, t),
    ensures
        ser(c, s, grid(rows)) matches Some(Ok(b)) && deser(c, s, b, t, max_depth()) == Some(
            Some(grid(rows)),
        ),
{
    let dims = s.array_dimensions;
    let k = dims[1] as int;
    let e = array_element(s.data_type_name)->0;
    let w = lookup(c.data_types, e)->0.size as int;
    let items = Seq::new(rows.len(), |i: int| VariantModel::Array(rows[i]));
    lemma_ser_rows(c, s, rows, t, w);
    let flat = rows.flatten();
    let cat = plain_cat(flat);
    let b = pad_to(cat, s.size as int);
    assert(ser(c, s, grid(rows)) == Some(Ok::<Seq<u8>, AdsError>(b)));
    assert(b.subrange(0, cat.len() as int) =~= cat);
    lemma_flatten_rows(rows, k);
    law_array_rows(c, s, flat, t, b);
    let read = Seq::new(dims[0] as nat, |i: int| VariantModel::Array(flat.subrange(i * k, i * k + k)));
    assert forall|i: int| 0 <= i < rows.len() implies #[trigger] read[i] == items[i] by {
        assert(flat.subrange(i * k, i * k + k) == rows[i]);
    }
    assert(read =~= items);
}

/// Writing items of an array that are structures, each written alone as
/// `w` bytes, lays them one after the other, item `i` at bytes `i * w` to
/// `i * w + w - 1`.
proof fn lemma_ser_items_objects(c: CollectionModel, s: SymbolInfoModel, items: Seq<VariantModel>, w: int)
    requires
        w >= 0,
        forall|i: int| 0 <= i < items.len() ==> (#[trigger] items[i]) is Object,
        forall|i: int|
            0 <= i < items.len() ==> (ser(c, s, #[trigger] items[i]) matches Some(Ok(b)) && b.len()
                == w),
    ensures
        ser_items(c, s, items) matches Some(Ok(out)) && out.len() == items.len() * w && forall|
            i: int,
        |
            0 <= i < items.len() ==> out.subrange(i * w, i * w + w) == ser(
                c,
                s,
                #[trigger] items[i],
            )->0->Ok_0,
    decreases items.len(),
{
    if items.len() == 0 {
    } else {
        let rest = items.drop_first();
        assert forall|i: int| 0 <= i < rest.len() implies (#[trigger] rest[i]) is Object && (ser(
            c,
            s,
            rest[i],
        ) matches Some(Ok(b)) && b.len() == w) by {
            assert(rest[i] == items[i + 1]);
        }
        lemma_ser_items_objects(c, s, rest, w);
        let first = ser(c, s, items[0])->0->Ok_0;
        assert(items[0] is Object);
        assert(ser(c, s, items[0]) matches Some(Ok(b)) && b.len() == w);
        assert(ser_item(c, s, items[0]) == ser(c, s, items[0]));
        let tail = ser_items(c, s, rest)->0->Ok_0;
        let out = first + tail;
        assert(ser_items(c, s, items) == Some(Ok::<Seq<u8>, AdsError>(out)));
        let n = rest.len() as int;
        assert(items.len() * w == w + n * w) by (nonlinear_arith)
            requires
                items.len() == n + 1,
        ;
        assert forall|i: int| 0 <= i < items.len() implies out.subrange(i * w, i * w + w) == ser(
            c,
            s,
            #[trigger] items[i],
        )->0->Ok_0 by {
            if i == 0 {
                assert(out.subrange(0, w) =~= first);
            } else {
                assert(i * w == (i - 1) * w + w) by (nonlinear_arith);
                assert((i - 1) * w + w <= n * w) by (nonlinear_arith)
                    requires
                        0 <= i - 1 < n,
                        w >= 0,
                ;
                assert((i - 1) * w >= 0) by (nonlinear_arith)
                    requires
                        i >= 1,
                        w >= 0,
                ;
                assert(rest[i - 1] == items[i]);
                assert(tail.subrange((i - 1) * w, (i - 1) * w + w) == ser(c, s, rest[i - 1])->0->Ok_0);
                assert(out.subrange(i * w, i * w + w) =~= tail.subrange((i - 1) * w, (i - 1) * w + w));
            }
        }
    }
}

/// An array of structures is written element by element: element `i` takes
/// the bytes `i * w` to `i * w + w - 1`, where `w` is the size of the
/// element type, and holds there exactly the bytes that writing that
/// structure alone gives, its filling up to the size of the type included.
pub proof fn law_array_of_structures(c: CollectionModel, s: SymbolInfoModel, items: Seq<VariantModel>)
    requires
        fundamental_type_info(c, s) is Some,
        forall|i: int| 0 <= i < items.len() ==> (#[trigger] items[i]) is Object,
        forall|i: int|
            0 <= i < items.len() ==> (ser(c, s, #[trigger] items[i]) matches Some(Ok(b)) && b.len()
                == fundamental_type_info(c, s)->0.size),
    ensures
        ser(c, s, VariantModel::Array(items)) matches Some(Ok(out)) && out.len() >= items.len()
            * fundamental_type_info(c, s)->0.size && forall|i: int|
            0 <= i < items.len() ==> out.subrange(
                i * fundamental_type_info(c, s)->0.size,
                i * fundamental_type_info(c, s)->0.size + fundamental_type_info(c, s)->0.size,
            ) == ser(c, s, #[trigger] items[i])->0->Ok_0,
{
    let w = fundamental_type_info(c, s)->0.size as int;
    lemma_ser_items_objects(c, s, items, w);
    let cat = ser_items(c, s, items)->0->Ok_0;
    let out = pad_to(cat, s.size as int);
    assert(ser(c, s, VariantModel::Array(items)) == Some(Ok::<Seq<u8>, AdsError>(out)));
    assert forall|i: int| 0 <= i < items.len() implies out.subrange(i * w, i * w + w) == ser(
        c,
        s,
        #[trigger] items[i],
    )->0->Ok_0 by {
        assert(i * w + w <= items.len() * w) by (nonlinear_arith)
            requires
                0 <= i < items.len(),
                w >= 0,
        ;
        assert(i * w >= 0) by (nonlinear_arith)
            requires
                i >= 0,
                w >= 0,
        ;
        assert(out.subrange(i * w, i * w + w) =~= cat.subrange(i * w, i * w + w));
    }
}

} // verus!
