//! Turning JSON values into variant values shaped as the symbols of the
//! controller describe them.
use crate::ads_data::{data_type_id_from, type_id_of, AdsDataTypeId};
use crate::deserialize::{
    insert_member, insert_member_exec, lemma_object_view, members_view,
    Members,
};
use crate::error::AdsError;
use crate::symbols::{
    fundamental_type_info, AdsDataTypeInfo, AdsSymbolCollection,
    AdsSymbolInfo, CollectionModel, DataTypeInfoModel, SymbolInfoModel,
};
use crate::variant::{lemma_items_model, items_model, Variant, VariantModel};
use vstd::prelude::*;

verus! {

broadcast use vstd::std_specs::vec::axiom_vec_index_decreases;

/// What a JSON number can be read as. Each reading is taken the way the JSON
/// library takes it: as a signed or unsigned 64-bit integer where the number
/// is one that fits, and as a 64-bit float, whose bit pattern is held here
/// together with that of the same value narrowed to a 32-bit float.
#[derive(Debug, Clone, Copy, PartialEq, Eq, Structural)]
pub struct JsonNumber {
    pub as_i64: Option<i64>,
    pub as_u64: Option<u64>,
    pub f64_bits: u64,
    pub f32_bits: u32,
}

/// A JSON value. An object holds its members in order.
#[derive(Debug, PartialEq)]
pub enum Json {
    Null,
    Bool(bool),
    Number(JsonNumber),
    String(String),
    Array(Vec<Json>),
    Object(Vec<(String, Json)>),
}

/// The mathematical value of a [`Json`].
pub enum JsonModel {
    Null,
    Bool(bool),
    Number(JsonNumber),
    Str(Seq<char>),
    Array(Seq<JsonModel>),
    Object(Seq<(Seq<char>, JsonModel)>),
}

impl View for Json {
    type V = JsonModel;

    open spec fn view(&self) -> JsonModel {
        json_model(*self)
    }
}

/// The mathematical value of a JSON value.
pub open spec fn json_model(j: Json) -> JsonModel
    decreases j,
{
    match j {
        Json::Null => JsonModel::Null,
        Json::Bool(b) => JsonModel::Bool(b),
        Json::Number(n) => JsonModel::Number(n),
        Json::String(s) => JsonModel::Str(s@),
        Json::Array(items) => JsonModel::Array(json_items_model(items@)),
        Json::Object(ms) => JsonModel::Object(json_members_model(ms@)),
    }
}

/// The values of a sequence of JSON values.
pub open spec fn json_items_model(s: Seq<Json>) -> Seq<JsonModel>
    decreases s,
{
    if s.len() == 0 {
        Seq::empty()
    } else {
        seq![json_model(s[0])] + json_items_model(s.drop_first())
    }
}

/// The names and values of a sequence of JSON members.
pub open spec fn json_members_model(s: Seq<(String, Json)>) -> Seq<(Seq<char>, JsonModel)>
    decreases s,
{
    if s.len() == 0 {
        Seq::empty()
    } else {
        seq![(s[0].0@, json_model(s[0].1))] + json_members_model(s.drop_first())
    }
}

/// The values of a sequence of JSON values, one by one.
pub proof fn lemma_json_items_model(s: Seq<Json>)
    ensures
        json_items_model(s).len() == s.len(),
        forall|i: int| 0 <= i < s.len() ==> #[trigger] json_items_model(s)[i] == s[i]@,
    decreases s.len(),
{
    if s.len() > 0 {
        lemma_json_items_model(s.drop_first());
        assert forall|i: int| 0 <= i < s.len() implies #[trigger] json_items_model(s)[i]
            == s[i]@ by {
            if i > 0 {
                assert(s.drop_first()[i - 1] == s[i]);
            }
        }
    }
}

/// The names and values of a sequence of JSON members, one by one.
pub proof fn lemma_json_members_model(s: Seq<(String, Json)>)
    ensures
        json_members_model(s).len() == s.len(),
        forall|i: int|
            0 <= i < s.len() ==> #[trigger] json_members_model(s)[i] == (s[i].0@, s[i].1@),
    decreases s.len(),
{
    if s.len() > 0 {
        lemma_json_members_model(s.drop_first());
        assert forall|i: int| 0 <= i < s.len() implies #[trigger] json_members_model(s)[i] == (
            s[i].0@,
            s[i].1@,
        ) by {
            if i > 0 {
                assert(s.drop_first()[i - 1] == s[i]);
            }
        }
    }
}

/// The value of `j` as a signed 64-bit integer, if it is a number that is one.
pub open spec fn json_i64(j: JsonModel) -> Option<i64> {
    match j {
        JsonModel::Number(n) => n.as_i64,
        _ => None,
    }
}

/// The value of `j` as an unsigned 64-bit integer, if it is a number that is one.
pub open spec fn json_u64(j: JsonModel) -> Option<u64> {
    match j {
        JsonModel::Number(n) => n.as_u64,
        _ => None,
    }
}

/// The position of the first member of `ms` at or after `i` named `k`.
pub open spec fn json_key_index(ms: Seq<(Seq<char>, JsonModel)>, k: Seq<char>, i: int) -> Option<
    int,
>
    decreases ms.len() - i,
{
    if i < 0 || i >= ms.len() {
        None
    } else if ms[i].0 == k {
        Some(i)
    } else {
        json_key_index(ms, k, i + 1)
    }
}

/// The value of type `t`, no structure, that the JSON value `j` gives:
/// integers narrowed to their width, floats by their bit patterns, text,
/// and truth values. An error where `j` is not of the kind the type needs,
/// for void, and for the types that are not handled.
pub open spec fn scalar_from_json(t: AdsDataTypeId, j: JsonModel) -> Result<VariantModel, AdsError> {
    match t {
        AdsDataTypeId::Void => Err(AdsError::VoidType),
        AdsDataTypeId::Int8 => match json_i64(j) {
            Some(x) => Ok(VariantModel::SByte(x as i8)),
            None => Err(AdsError::InvalidJsonValue),
        },
        AdsDataTypeId::UInt8 => match json_u64(j) {
            Some(x) => Ok(VariantModel::Byte(x as u8)),
            None => Err(AdsError::InvalidJsonValue),
        },
        AdsDataTypeId::Int16 => match json_i64(j) {
            Some(x) => Ok(VariantModel::Int16(x as i16)),
            None => Err(AdsError::InvalidJsonValue),
        },
        AdsDataTypeId::UInt16 => match json_u64(j) {
            Some(x) => Ok(VariantModel::UInt16(x as u16)),
            None => Err(AdsError::InvalidJsonValue),
        },
        AdsDataTypeId::Int32 => match json_i64(j) {
            Some(x) => Ok(VariantModel::Int32(x as i32)),
            None => Err(AdsError::InvalidJsonValue),
        },
        AdsDataTypeId::UInt32 => match json_u64(j) {
            Some(x) => Ok(VariantModel::UInt32(x as u32)),
            None => Err(AdsError::InvalidJsonValue),
        },
        AdsDataTypeId::Int64 => match json_i64(j) {
            Some(x) => Ok(VariantModel::Int64(x)),
            None => Err(AdsError::InvalidJsonValue),
        },
        AdsDataTypeId::UInt64 => match json_u64(j) {
            Some(x) => Ok(VariantModel::UInt64(x)),
            None => Err(AdsError::InvalidJsonValue),
        },
        AdsDataTypeId::Real32 => match j {
            JsonModel::Number(n) => Ok(VariantModel::Real32(n.f32_bits)),
            _ => Err(AdsError::InvalidJsonValue),
        },
        AdsDataTypeId::Real64 => match j {
            JsonModel::Number(n) => Ok(VariantModel::Real64(n.f64_bits)),
            _ => Err(AdsError::InvalidJsonValue),
        },
        AdsDataTypeId::String | AdsDataTypeId::WString => match j {
            JsonModel::Str(s) => Ok(VariantModel::Str(s)),
            _ => Err(AdsError::InvalidJsonValue),
        },
        AdsDataTypeId::Bit => match j {
            JsonModel::Bool(b) => Ok(VariantModel::Bit(b)),
            _ => Err(AdsError::InvalidJsonValue),
        },
        _ => Err(AdsError::UnsupportedType),
    }
}

/// The value that `j` gives for symbol `s`: for an array symbol, a JSON
/// array whose items each give a value of the fundamental type of `s`; for
/// any other symbol, a value of that type as `value_from_json` describes
/// it. An error where the fundamental type was not uploaded.
pub open spec fn json_for_symbol(c: CollectionModel, s: SymbolInfoModel, j: JsonModel) -> Option<
    Result<VariantModel, AdsError>,
>
    decreases j, 3int, 0int,
{
    match fundamental_type_info(c, s) {
        None => Some(Err(AdsError::TypeInfoNotFound)),
        Some(dt) => if s.is_array {
            match j {
                JsonModel::Array(_) => json_items(c, dt, j, 0, Seq::empty()),
                _ => Some(Err(AdsError::ExpectedJsonArray)),
            }
        } else {
            value_from_json(c, dt, j)
        },
    }
}

/// The value that `j` gives for data type `dt`: for a structure, a JSON
/// object with a member for each field, giving the field's value as
/// `json_for_symbol` describes it; otherwise as `scalar_from_json` does.
pub open spec fn value_from_json(c: CollectionModel, dt: DataTypeInfoModel, j: JsonModel) -> Option<
    Result<VariantModel, AdsError>,
>
    decreases j, 2int, 0int,
{
    match type_id_of(dt.data_type) {
        None => Some(Err(AdsError::UnsupportedType)),
        Some(AdsDataTypeId::BigType) => match j {
            JsonModel::Object(_) => json_fields(c, dt.fields, j, 0, Seq::empty()),
            _ => Some(Err(AdsError::ExpectedJsonObject)),
        },
        Some(t) => Some(scalar_from_json(t, j)),
    }
}

/// The structure `acc` followed by the members for `fields` from number `i`
/// on, each taken from the member of the JSON object `j` with the field's name.
pub open spec fn json_fields(
    c: CollectionModel,
    fields: Seq<SymbolInfoModel>,
    j: JsonModel,
    i: int,
    acc: Members,
) -> Option<Result<VariantModel, AdsError>>
    decreases j, 1int, fields.len() - i,
{
    if i < 0 || i >= fields.len() {
        Some(Ok(VariantModel::Object(acc)))
    } else {
        match j {
            JsonModel::Object(ms) => match json_key_index(ms, fields[i].name, 0) {
                None => Some(Err(AdsError::MissingJsonField)),
                Some(k) => if 0 <= k < ms.len() {
                    match json_for_symbol(c, fields[i], ms[k].1) {
                        None => None,
                        Some(Err(e)) => Some(Err(e)),
                        Some(Ok(v)) => json_fields(
                            c,
                            fields,
                            j,
                            i + 1,
                            insert_member(acc, fields[i].name, v),
                        ),
                    }
                } else {
                    None
                },
            },
            _ => Some(Ok(VariantModel::Object(acc))),
        }
    }
}

/// The array `acc` followed by the values of data type `dt` that the items
/// of the JSON array `j` from number `i` on give.
pub open spec fn json_items(
    c: CollectionModel,
    dt: DataTypeInfoModel,
    j: JsonModel,
    i: int,
    acc: Seq<VariantModel>,
) -> Option<Result<VariantModel, AdsError>>
    decreases j, 1int, match j {
        JsonModel::Array(items) => items.len() - i,
        _ => 0,
    },
{
    match j {
        JsonModel::Array(items) => if i < 0 || i >= items.len() {
            Some(Ok(VariantModel::Array(acc)))
        } else {
            match value_from_json(c, dt, items[i]) {
                None => None,
                Some(Err(e)) => Some(Err(e)),
                Some(Ok(v)) => json_items(c, dt, j, i + 1, acc.push(v)),
            }
        },
        _ => Some(Ok(VariantModel::Array(acc))),
    }
}

/// A conversion result seen through the views of its values.
pub open spec fn result_view(r: Result<Variant, AdsError>) -> Result<VariantModel, AdsError> {
    match r {
        Ok(v) => Ok(v@),
        Err(e) => Err(e),
    }
}

/// The position of the first member of `ms` named `k`.
pub(crate) fn key_index(ms: &Vec<(String, Json)>, k: &String) -> (r: Option<usize>)
    ensures
        match r {
            Some(i) => json_key_index(json_members_model(ms@), k@, 0) == Some(i as int),
            None => json_key_index(json_members_model(ms@), k@, 0) is None,
        },
{
    proof {
        lemma_json_members_model(ms@);
    }
    let ghost m = json_members_model(ms@);
    let mut i: usize = 0;
    while i < ms.len()
        invariant
            0 <= i <= ms@.len(),
            m == json_members_model(ms@),
            m.len() == ms@.len(),
            forall|q: int| 0 <= q < ms@.len() ==> #[trigger] m[q] == (ms@[q].0@, ms@[q].1@),
            json_key_index(m, k@, 0) == json_key_index(m, k@, i as int),
        decreases ms@.len() - i,
    {
        assert(m[i as int].0 == ms@[i as int].0@);
        if ms[i].0 == *k {
            return Some(i);
        }
        i += 1;
    }
    None
}

/// The value of type `t`, no structure, that `j` gives.
fn scalar_exec(t: AdsDataTypeId, j: &Json) -> (r: Result<Variant, AdsError>)
    ensures
        result_view(r) == scalar_from_json(t, j@),
{
    match t {
        AdsDataTypeId::Void => Err(AdsError::VoidType),
        AdsDataTypeId::Int8 => match j {
            Json::Number(n) => match n.as_i64 {
                Some(x) => Ok(Variant::SByte(x as i8)),
                None => Err(AdsError::InvalidJsonValue),
            },
            _ => Err(AdsError::InvalidJsonValue),
        },
        AdsDataTypeId::UInt8 => match j {
            Json::Number(n) => match n.as_u64 {
                Some(x) => Ok(Variant::Byte(x as u8)),
                None => Err(AdsError::InvalidJsonValue),
            },
            _ => Err(AdsError::InvalidJsonValue),
        },
        AdsDataTypeId::Int16 => match j {
            Json::Number(n) => match n.as_i64 {
                Some(x) => Ok(Variant::Int16(x as i16)),
                None => Err(AdsError::InvalidJsonValue),
            },
            _ => Err(AdsError::InvalidJsonValue),
        },
        AdsDataTypeId::UInt16 => match j {
            Json::Number(n) => match n.as_u64 {
                Some(x) => Ok(Variant::UInt16(x as u16)),
                None => Err(AdsError::InvalidJsonValue),
            },
            _ => Err(AdsError::InvalidJsonValue),
        },
        AdsDataTypeId::Int32 => match j {
            Json::Number(n) => match n.as_i64 {
                Some(x) => Ok(Variant::Int32(x as i32)),
                None => Err(AdsError::InvalidJsonValue),
            },
            _ => Err(AdsError::InvalidJsonValue),
        },
        AdsDataTypeId::UInt32 => match j {
            Json::Number(n) => match n.as_u64 {
                Some(x) => Ok(Variant::UInt32(x as u32)),
                None => Err(AdsError::InvalidJsonValue),
            },
            _ => Err(AdsError::InvalidJsonValue),
        },
        AdsDataTypeId::Int64 => match j {
            Json::Number(n) => match n.as_i64 {
                Some(x) => Ok(Variant::Int64(x)),
                None => Err(AdsError::InvalidJsonValue),
            },
            _ => Err(AdsError::InvalidJsonValue),
        },
        AdsDataTypeId::UInt64 => match j {
            Json::Number(n) => match n.as_u64 {
                Some(x) => Ok(Variant::UInt64(x)),
                None => Err(AdsError::InvalidJsonValue),
            },
            _ => Err(AdsError::InvalidJsonValue),
        },
        AdsDataTypeId::Real32 => match j {
            Json::Number(n) => Ok(Variant::Real32(n.f32_bits)),
            _ => Err(AdsError::InvalidJsonValue),
        },
        AdsDataTypeId::Real64 => match j {
            Json::Number(n) => Ok(Variant::Real64(n.f64_bits)),
            _ => Err(AdsError::InvalidJsonValue),
        },
        AdsDataTypeId::String | AdsDataTypeId::WString => match j {
            Json::String(s) => Ok(Variant::String(s.clone())),
            _ => Err(AdsError::InvalidJsonValue),
        },
        AdsDataTypeId::Bit => match j {
            Json::Bool(b) => Ok(Variant::Bit(*b)),
            _ => Err(AdsError::InvalidJsonValue),
        },
        _ => Err(AdsError::UnsupportedType),
    }
}

/// The value `j` gives for symbol `s`, as `json_for_symbol` describes it.
fn symbol_core(c: &AdsSymbolCollection, s: &AdsSymbolInfo, j: &Json) -> (r: Option<
    Result<Variant, AdsError>,
>)
    ensures
        match r {
            Some(x) => json_for_symbol(c@, s@, j@) == Some(result_view(x)),
            None => json_for_symbol(c@, s@, j@) is None,
        },
    decreases j, 1int,
{
    let dt = match c.get_fundamental_type_info(s) {
        Some(dt) => dt,
        None => {
            return Some(Err(AdsError::TypeInfoNotFound));
        },
    };
    if !s.is_array {
        return type_core(c, &dt, j);
    }
    match j {
        Json::Array(items) => {
            proof {
                lemma_json_items_model(items@);
            }
            let ghost jm = json_items_model(items@);
            let mut out: Vec<Variant> = Vec::new();
            let mut i: usize = 0;
            assert(Seq::new(out@.len(), |q: int| out@[q]@) =~= Seq::<VariantModel>::empty());
            while i < items.len()
                invariant
                    0 <= i <= items@.len(),
                    json_for_symbol(c@, s@, j@) == json_items(c@, dt@, j@, 0, Seq::empty()),
                    *j == Json::Array(*items),
                    j@ == JsonModel::Array(jm),
                    jm.len() == items@.len(),
                    forall|q: int| 0 <= q < items@.len() ==> #[trigger] jm[q] == items@[q]@,
                    out@.len() == i,
                    json_items(c@, dt@, j@, 0, Seq::empty()) == json_items(
                        c@,
                        dt@,
                        j@,
                        i as int,
                        Seq::new(out@.len(), |q: int| out@[q]@),
                    ),
                decreases items@.len() - i,
            {
                assert(decreases_to!(*items => items[i as int]));
                match type_core(c, &dt, &items[i]) {
                    None => {
                        return None;
                    },
                    Some(Err(e)) => {
                        return Some(Err(e));
                    },
                    Some(Ok(v)) => {
                        let ghost before = Seq::new(out@.len(), |q: int| out@[q]@);
                        out.push(v);
                        assert(Seq::new(out@.len(), |q: int| out@[q]@) =~= before.push(
                            out@[i as int]@,
                        ));
                    },
                }
                i += 1;
            }
            proof {
                lemma_items_model(out@);
                assert(items_model(out@) =~= Seq::new(out@.len(), |q: int| out@[q]@));
            }
            Some(Ok(Variant::Array(out)))
        },
        _ => Some(Err(AdsError::ExpectedJsonArray)),
    }
}

/// The value `j` gives for data type `dt`, as `value_from_json` describes it.
fn type_core(c: &AdsSymbolCollection, dt: &AdsDataTypeInfo, j: &Json) -> (r: Option<
    Result<Variant, AdsError>,
>)
    ensures
        match r {
            Some(x) => value_from_json(c@, dt@, j@) == Some(result_view(x)),
            None => value_from_json(c@, dt@, j@) is None,
        },
    decreases j, 0int,
{
    let t = match data_type_id_from(dt.data_type) {
        Some(t) => t,
        None => {
            return Some(Err(AdsError::UnsupportedType));
        },
    };
    match t {
        AdsDataTypeId::BigType => {},
        _ => {
            return Some(scalar_exec(t, j));
        },
    }
    match j {
        Json::Object(ms) => {
            proof {
                lemma_json_members_model(ms@);
            }
            let ghost jm = json_members_model(ms@);
            let ghost fields = dt@.fields;
            let mut out: Vec<(String, Variant)> = Vec::new();
            let mut i: usize = 0;
            assert(members_view(out@) =~= Seq::<(Seq<char>, VariantModel)>::empty());
            while i < dt.fields.len()
                invariant
                    0 <= i <= dt.fields@.len(),
                    value_from_json(c@, dt@, j@) == json_fields(c@, fields, j@, 0, Seq::empty()),
                    fields == dt@.fields,
                    fields.len() == dt.fields@.len(),
                    *j == Json::Object(*ms),
                    j@ == JsonModel::Object(jm),
                    jm == json_members_model(ms@),
                    jm.len() == ms@.len(),
                    forall|q: int| 0 <= q < ms@.len() ==> #[trigger] jm[q] == (ms@[q].0@, ms@[q].1@),
                    json_fields(c@, fields, j@, 0, Seq::empty()) == json_fields(
                        c@,
                        fields,
                        j@,
                        i as int,
                        members_view(out@),
                    ),
                decreases dt.fields@.len() - i,
            {
                let field = &dt.fields[i];
                assert(fields[i as int] == field@);
                let k = match key_index(ms, &field.name) {
                    Some(k) => k,
                    None => {
                        return Some(Err(AdsError::MissingJsonField));
                    },
                };
                proof {
                    lemma_key_index(jm, field.name@, 0);
                }
                assert(decreases_to!(*ms => ms[k as int]));
                match symbol_core(c, field, &ms[k].1) {
                    None => {
                        return None;
                    },
                    Some(Err(e)) => {
                        return Some(Err(e));
                    },
                    Some(Ok(v)) => {
                        insert_member_exec(&mut out, field.name.clone(), v);
                    },
                }
                i += 1;
            }
            proof {
                lemma_object_view(out);
            }
            Some(Ok(Variant::Object(out)))
        },
        _ => Some(Err(AdsError::ExpectedJsonObject)),
    }
}

/// A position found by `json_key_index` lies within the members.
pub proof fn lemma_key_index(ms: Seq<(Seq<char>, JsonModel)>, k: Seq<char>, i: int)
    ensures
        json_key_index(ms, k, i) matches Some(p) ==> i <= p < ms.len() && ms[p].0 == k,
    decreases ms.len() - i,
{
    if 0 <= i < ms.len() && ms[i].0 != k {
        lemma_key_index(ms, k, i + 1);
    }
}

/// A JSON number that is a signed 64-bit integer `x`, converted for a
/// symbol that is no array and whose type is a signed integer type, gives
/// `x` narrowed to the width of that type: negative numbers included.
pub proof fn law_json_signed_integer(c: CollectionModel, s: SymbolInfoModel, n: JsonNumber, x: i64)
    requires
        !s.is_array,
        fundamental_type_info(c, s) is Some,
        n.as_i64 == Some(x),
    ensures
        ({
            let t = type_id_of(fundamental_type_info(c, s)->0.data_type);
            let r = json_for_symbol(c, s, JsonModel::Number(n));
            &&& t == Some(AdsDataTypeId::Int8) ==> r == Some(
                Ok::<VariantModel, AdsError>(VariantModel::SByte(x as i8)),
            )
            &&& t == Some(AdsDataTypeId::Int16) ==> r == Some(
                Ok::<VariantModel, AdsError>(VariantModel::Int16(x as i16)),
            )
            &&& t == Some(AdsDataTypeId::Int32) ==> r == Some(
                Ok::<VariantModel, AdsError>(VariantModel::Int32(x as i32)),
            )
            &&& t == Some(AdsDataTypeId::Int64) ==> r == Some(
                Ok::<VariantModel, AdsError>(VariantModel::Int64(x)),
            )
        }),
{
}

/// A JSON number that is an unsigned 64-bit integer `x`, converted for a
/// symbol that is no array and whose type is an unsigned integer type,
/// gives `x` narrowed to the width of that type.
pub proof fn law_json_unsigned_integer(c: CollectionModel, s: SymbolInfoModel, n: JsonNumber, x: u64)
    requires
        !s.is_array,
        fundamental_type_info(c, s) is Some,
        n.as_u64 == Some(x),
    ensures
        ({
            let t = type_id_of(fundamental_type_info(c, s)->0.data_type);
            let r = json_for_symbol(c, s, JsonModel::Number(n));
            &&& t == Some(AdsDataTypeId::UInt8) ==> r == Some(
                Ok::<VariantModel, AdsError>(VariantModel::Byte(x as u8)),
            )
            &&& t == Some(AdsDataTypeId::UInt16) ==> r == Some(
                Ok::<VariantModel, AdsError>(VariantModel::UInt16(x as u16)),
            )
            &&& t == Some(AdsDataTypeId::UInt32) ==> r == Some(
                Ok::<VariantModel, AdsError>(VariantModel::UInt32(x as u32)),
            )
            &&& t == Some(AdsDataTypeId::UInt64) ==> r == Some(
                Ok::<VariantModel, AdsError>(VariantModel::UInt64(x)),
            )
        }),
{
}

/// Converting a JSON value for a symbol never fails outright: it gives a
/// value or an error.
pub proof fn lemma_json_symbol_total(c: CollectionModel, s: SymbolInfoModel, j: JsonModel)
    ensures
        json_for_symbol(c, s, j) is Some,
    decreases j, 3int, 0int,
{
    match fundamental_type_info(c, s) {
        None => {},
        Some(dt) => if s.is_array {
            match j {
                JsonModel::Array(_) => lemma_json_items_total(c, dt, j, 0, Seq::empty()),
                _ => {},
            }
        } else {
            lemma_json_value_total(c, dt, j);
        },
    }
}

/// Converting a JSON value for a data type gives a value or an error.
pub proof fn lemma_json_value_total(c: CollectionModel, dt: DataTypeInfoModel, j: JsonModel)
    ensures
        value_from_json(c, dt, j) is Some,
    decreases j, 2int, 0int,
{
    match type_id_of(dt.data_type) {
        Some(AdsDataTypeId::BigType) => match j {
            JsonModel::Object(_) => lemma_json_fields_total(c, dt.fields, j, 0, Seq::empty()),
            _ => {},
        },
        _ => {},
    }
}

/// Converting the members of a JSON object for fields gives a value or an error.
pub proof fn lemma_json_fields_total(
    c: CollectionModel,
    fields: Seq<SymbolInfoModel>,
    j: JsonModel,
    i: int,
    acc: Members,
)
    ensures
        json_fields(c, fields, j, i, acc) is Some,
    decreases j, 1int, fields.len() - i,
{
    if 0 <= i < fields.len() {
        match j {
            JsonModel::Object(ms) => match json_key_index(ms, fields[i].name, 0) {
                None => {},
                Some(k) => {
                    lemma_key_index(ms, fields[i].name, 0);
                    assert(decreases_to!(j => ms[k].1));
                    lemma_json_symbol_total(c, fields[i], ms[k].1);
                    match json_for_symbol(c, fields[i], ms[k].1) {
                        Some(Ok(v)) => lemma_json_fields_total(
                            c,
                            fields,
                            j,
                            i + 1,
                            insert_member(acc, fields[i].name, v),
                        ),
                        _ => {},
                    }
                },
            },
            _ => {},
        }
    }
}

/// Converting the items of a JSON array for a data type gives a value or an error.
pub proof fn lemma_json_items_total(
    c: CollectionModel,
    dt: DataTypeInfoModel,
    j: JsonModel,
    i: int,
    acc: Seq<VariantModel>,
)
    ensures
        json_items(c, dt, j, i, acc) is Some,
    decreases j, 1int, match j {
        JsonModel::Array(items) => items.len() - i,
        _ => 0,
    },
{
    match j {
        JsonModel::Array(items) => if 0 <= i < items.len() {
            assert(decreases_to!(j => items[i]));
            lemma_json_value_total(c, dt, items[i]);
            match value_from_json(c, dt, items[i]) {
                Some(Ok(v)) => lemma_json_items_total(c, dt, j, i + 1, acc.push(v)),
                _ => {},
            }
        },
        _ => {},
    }
}

/// The variant value that the JSON value `json_val` gives for symbol
/// `symbol_info`: for an array symbol, the items of a JSON array each
/// converted to the fundamental type of the symbol; for a structure, the
/// members of a JSON object taken by field name, each converted for its
/// field; for other types, the JSON number, text or truth value the type
/// needs. An error where the JSON value does not fit the symbol.
pub fn convert_json_to_variant(
    symbol_collection: &AdsSymbolCollection,
    json_val: &Json,
    symbol_info: &AdsSymbolInfo,
) -> (r: Result<Variant, AdsError>)
    ensures
        json_for_symbol(symbol_collection@, symbol_info@, json_val@) == Some(result_view(r)),
{
    proof {
        lemma_json_symbol_total(symbol_collection@, symbol_info@, json_val@);
    }
    match symbol_core(symbol_collection, symbol_info, json_val) {
        Some(r) => r,
        None => Err(AdsError::TypeInfoNotFound),
    }
}

/// The variant value that the JSON value `json_val` gives for data type
/// `dt`, as `convert_json_to_variant` converts values that are no arrays.
pub fn convert_json_value_to_variant(
    symbol_collection: &AdsSymbolCollection,
    json_val: &Json,
    dt: &AdsDataTypeInfo,
) -> (r: Result<Variant, AdsError>)
    ensures
        value_from_json(symbol_collection@, dt@, json_val@) == Some(result_view(r)),
{
    proof {
        lemma_json_value_total(symbol_collection@, dt@, json_val@);
    }
    match type_core(symbol_collection, dt, json_val) {
        Some(r) => r,
        None => Err(AdsError::TypeInfoNotFound),
    }
}

/// A copy of `j`.
fn copy_json(j: &Json) -> (r: Json)
    ensures
        r@ == j@,
    decreases j,
{
        match j {
            Json::Null => Json::Null,
            Json::Bool(b) => Json::Bool(*b),
            Json::Number(n) => Json::Number(*n),
            Json::String(s) => Json::String(s.clone()),
            Json::Array(items) => {
                let mut out: Vec<Json> = Vec::new();
                let mut i: usize = 0;
                while i < items.len()
                    invariant
                        0 <= i <= items@.len(),
                        *j == Json::Array(*items),
                        out@.len() == i,
                        forall|q: int| 0 <= q < i ==> #[trigger] out@[q]@ == items@[q]@,
                    decreases items@.len() - i,
                {
                    assert(decreases_to!(*j => (*j)->Array_0));
                    assert(decreases_to!(*items => items[i as int]));
                    out.push(copy_json(&items[i]));
                    i += 1;
                }
                proof {
                    lemma_json_items_model(out@);
                    lemma_json_items_model(items@);
                    assert(json_items_model(out@) =~= json_items_model(items@));
                }
                Json::Array(out)
            },
            Json::Object(ms) => {
                let mut out: Vec<(String, Json)> = Vec::new();
                let mut i: usize = 0;
                while i < ms.len()
                    invariant
                        0 <= i <= ms@.len(),
                        *j == Json::Object(*ms),
                        out@.len() == i,
                        forall|q: int|
                            0 <= q < i ==> #[trigger] out@[q].0@ == ms@[q].0@ && out@[q].1@
                                == ms@[q].1@,
                    decreases ms@.len() - i,
                {
                    assert(decreases_to!(*j => (*j)->Object_0));
                    assert(decreases_to!(*ms => ms[i as int]));
                    assert(decreases_to!(ms[i as int] => ms[i as int].1));
                    assert(decreases_to!(*j => ms[i as int].1));
                    let v = copy_json(&ms[i].1);
                    out.push((ms[i].0.clone(), v));
                    i += 1;
                }
                proof {
                    lemma_json_members_model(out@);
                    lemma_json_members_model(ms@);
                    assert(json_members_model(out@) =~= json_members_model(ms@));
                }
                Json::Object(out)
            },
        }
}

impl Clone for Json {
    fn clone(&self) -> (r: Self)
        ensures
            r@ == self@,
    {
        copy_json(self)
    }
}

} // verus!
