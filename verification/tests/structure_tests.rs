use twincatads::ads_data::AdsDataTypeId;
use twincatads::deserialize::{
    deserialize, deserialize_array, deserialize_structure, deserialize_value, try_deserialize,
};
use twincatads::error::AdsError;
use twincatads::serialize::{serialize, serialize_array, serialize_struct};
use twincatads::symbols::{AdsDataTypeInfo, AdsSymbolCollection, AdsSymbolInfo};
use twincatads::variant::Variant;

fn symbol(name: &str, type_text: &str, size: u32, type_id: u32) -> AdsSymbolInfo {
    let mut s = AdsSymbolInfo::new();
    s.name = name.to_string();
    s.data_type_name = type_text.to_string();
    s.size = size;
    s.type_id = type_id;
    s
}

fn plain_type(name: &str, size: u32, type_id: u32) -> AdsDataTypeInfo {
    let mut t = AdsDataTypeInfo::new();
    t.name = name.to_string();
    t.size = size;
    t.data_type = type_id;
    t
}

/// A structure of a BOOL at 0, a DINT at 4 (three bytes of padding before
/// it) and an INT at 8, twelve bytes in all.
fn collection() -> AdsSymbolCollection {
    let mut c = AdsSymbolCollection::from_vector(&vec![
        symbol("GM.st", "ST_Data", 12, 65),
        symbol("GM.aValues", "ARRAY [0..2] OF INT", 6, 2),
        symbol("GM.sText", "STRING(9)", 10, 30),
        symbol("GM.n", "DINT", 4, 3),
    ]);
    let mut st = plain_type("ST_Data", 12, 65);
    st.num_fields = 3;
    let mut b = symbol("bOn", "BOOL", 1, 33);
    b.offset = 0;
    let mut d = symbol("nCount", "DINT", 4, 3);
    d.offset = 4;
    let mut i = symbol("nLevel", "INT", 2, 2);
    i.offset = 8;
    st.fields = vec![b, d, i];
    c.data_types.insert("ST_Data".to_string(), st);
    c.data_types.insert("BOOL".to_string(), plain_type("BOOL", 1, 33));
    c.data_types.insert("DINT".to_string(), plain_type("DINT", 4, 3));
    c.data_types.insert("INT".to_string(), plain_type("INT", 2, 2));
    c.data_types.insert("ARRAY [0..2] OF INT".to_string(), plain_type("ARRAY [0..2] OF INT", 6, 2));
    c
}

fn st_value() -> Variant {
    Variant::Object(vec![
        ("bOn".to_string(), Variant::Bit(true)),
        ("nCount".to_string(), Variant::Int32(-2)),
        ("nLevel".to_string(), Variant::Int16(300)),
    ])
}

fn sym(c: &AdsSymbolCollection, name: &str) -> AdsSymbolInfo {
    c.get_symbol_info(name).unwrap()
}

#[test]
fn structure_written_with_padding() {
    let c = collection();
    let s = sym(&c, "GM.st");
    let bytes = serialize(&c, &s, &st_value()).unwrap();
    assert_eq!(bytes, vec![1, 0, 0, 0, 0xfe, 0xff, 0xff, 0xff, 0x2c, 0x01, 0, 0]);
    assert_eq!(serialize_struct(&c, &s, &st_value()).unwrap(), bytes);
}

#[test]
fn structure_read_back_after_write() {
    let c = collection();
    let s = sym(&c, "GM.st");
    let bytes = serialize(&c, &s, &st_value()).unwrap();
    assert_eq!(deserialize(&c, &s, &bytes, &AdsDataTypeId::BigType), Some(st_value()));
    assert_eq!(
        deserialize_structure(&c, &s, &bytes, &AdsDataTypeId::BigType),
        Some(st_value())
    );
    assert_eq!(
        deserialize_value(&c, &s, &bytes, &AdsDataTypeId::BigType),
        Some(st_value())
    );
}

#[test]
fn structure_with_too_many_members() {
    let c = collection();
    let s = sym(&c, "GM.st");
    let mut members = match st_value() {
        Variant::Object(m) => m,
        _ => unreachable!(),
    };
    members.push(("extra".to_string(), Variant::Byte(1)));
    assert_eq!(serialize(&c, &s, &Variant::Object(members)), Err(AdsError::TooManyMembers));
}

#[test]
fn structure_member_errors_pass_through() {
    let c = collection();
    let s = sym(&c, "GM.st");
    let v = Variant::Object(vec![("bOn".to_string(), Variant::Null)]);
    assert_eq!(serialize(&c, &s, &v), Err(AdsError::NullValue));
    assert_eq!(serialize_struct(&c, &s, &Variant::Byte(1)), Err(AdsError::ExpectedObject));
}

#[test]
fn array_written_and_read() {
    let c = collection();
    let s = {
        let mut s = sym(&c, "GM.aValues");
        s.is_array = true;
        s.array_dimensions = vec![3];
        s
    };
    let v = Variant::Array(vec![Variant::Int16(1), Variant::Int16(-1), Variant::Int16(2)]);
    let bytes = serialize_array(&c, &s, &v).unwrap();
    assert_eq!(bytes, vec![1, 0, 0xff, 0xff, 2, 0]);
    assert_eq!(deserialize_array(&c, &s, &bytes, &AdsDataTypeId::Int16), Some(v.clone()));
    assert_eq!(deserialize(&c, &s, &bytes, &AdsDataTypeId::Int16), Some(v));
    // A short array is filled with zeros up to the size of the symbol.
    let short = serialize(&c, &s, &Variant::Array(vec![Variant::Int16(7)])).unwrap();
    assert_eq!(short, vec![7, 0, 0, 0, 0, 0]);
    assert_eq!(serialize_array(&c, &s, &Variant::Int16(1)), Err(AdsError::ExpectedArray));
}

#[test]
fn strings_written_to_the_symbol_size() {
    let c = collection();
    let s = sym(&c, "GM.sText");
    let bytes = serialize(&c, &s, &Variant::String("abc".to_string())).unwrap();
    assert_eq!(bytes, vec![b'a', b'b', b'c', 0, 0, 0, 0, 0, 0, 0]);
    assert_eq!(
        deserialize(&c, &s, &bytes, &AdsDataTypeId::String),
        Some(Variant::String("abc".to_string()))
    );
    let long = serialize(&c, &s, &Variant::String("abcdefghijkl".to_string())).unwrap();
    assert_eq!(long, b"abcdefghij".to_vec());
    assert_eq!(deserialize(&c, &s, &long, &AdsDataTypeId::String), None);
}

#[test]
fn plain_symbols_written_and_read() {
    let c = collection();
    let s = sym(&c, "GM.n");
    let bytes = serialize(&c, &s, &Variant::Int32(0x01020304)).unwrap();
    assert_eq!(bytes, vec![4, 3, 2, 1]);
    assert_eq!(
        deserialize(&c, &s, &bytes, &AdsDataTypeId::Int32),
        Some(Variant::Int32(0x01020304))
    );
    assert_eq!(serialize(&c, &s, &Variant::Null), Err(AdsError::NullValue));
    assert_eq!(deserialize(&c, &s, &vec![1, 2], &AdsDataTypeId::Int32), None);
}

#[test]
fn checked_forms_agree() {
    let c = collection();
    let s = sym(&c, "GM.st");
    let bytes = serialize(&c, &s, &st_value()).unwrap();
    assert_eq!(try_deserialize(&c, &s, &bytes, &AdsDataTypeId::BigType), Some(Some(st_value())));
    let bad = symbol("GM.bad", "ARRAY [0..1] OF", 2, 65);
    assert_eq!(serialize(&c, &bad, &Variant::Object(vec![])), Err(AdsError::TypeInfoNotFound));
}

#[test]
fn structure_of_unknown_type() {
    let c = collection();
    let s = symbol("GM.x", "ARRAY [0..1] OF NOTHING", 4, 65);
    assert_eq!(serialize(&c, &s, &Variant::Object(vec![])), Err(AdsError::TypeInfoNotFound));
    assert_eq!(deserialize_structure(&c, &s, &vec![0; 4], &AdsDataTypeId::BigType), None);
}

fn ints(values: &[i16]) -> Vec<Variant> {
    values.iter().map(|v| Variant::Int16(*v)).collect()
}

#[test]
fn two_dimensional_arrays_read_row_by_row() {
    let mut c = collection();
    let name = "ARRAY [0..1,0..2] OF INT";
    c.data_types.insert(name.to_string(), plain_type(name, 12, 2));
    let mut s = symbol("GM.aGrid", name, 12, 2);
    s.is_array = true;
    s.array_dimensions = vec![2, 3];
    let bytes: Vec<u8> = vec![1, 0, 2, 0, 3, 0, 4, 0, 5, 0, 6, 0];
    let want = Variant::Array(vec![
        Variant::Array(ints(&[1, 2, 3])),
        Variant::Array(ints(&[4, 5, 6])),
    ]);
    assert_eq!(deserialize_array(&c, &s, &bytes, &AdsDataTypeId::Int16), Some(want.clone()));
    assert_eq!(deserialize(&c, &s, &bytes, &AdsDataTypeId::Int16), Some(want.clone()));
    // Rows are written one after the other, with zeros only after the last.
    assert_eq!(serialize(&c, &s, &want), Ok(bytes.clone()));
    let short = Variant::Array(vec![Variant::Array(ints(&[7]))]);
    assert_eq!(serialize(&c, &s, &short), Ok(vec![7, 0, 0, 0, 0, 0, 0, 0, 0, 0, 0, 0]));
    assert_eq!(try_deserialize(&c, &s, &bytes[..10].to_vec(), &AdsDataTypeId::Int16), None);
}

#[test]
fn three_dimensional_arrays_read_row_by_row() {
    let mut c = collection();
    let name = "ARRAY [0..1,0..1,-1..0] OF INT";
    c.data_types.insert(name.to_string(), plain_type(name, 16, 2));
    let mut s = symbol("GM.aCube", name, 16, 2);
    s.is_array = true;
    s.array_dimensions = vec![2, 2, 2];
    let bytes: Vec<u8> = (1u8..=8).flat_map(|v| vec![v, 0]).collect();
    let want = Variant::Array(vec![
        Variant::Array(vec![Variant::Array(ints(&[1, 2])), Variant::Array(ints(&[3, 4]))]),
        Variant::Array(vec![Variant::Array(ints(&[5, 6])), Variant::Array(ints(&[7, 8]))]),
    ]);
    assert_eq!(deserialize(&c, &s, &bytes, &AdsDataTypeId::Int16), Some(want));
}

#[test]
fn arrays_without_dimensions_or_declaration() {
    let c = collection();
    let mut s = sym(&c, "GM.aValues");
    s.is_array = true;
    s.array_dimensions = vec![];
    assert_eq!(deserialize(&c, &s, &vec![0; 6], &AdsDataTypeId::Int16), None);
    let mut plain = sym(&c, "GM.n");
    plain.is_array = true;
    plain.array_dimensions = vec![1];
    assert_eq!(try_deserialize(&c, &plain, &vec![0; 4], &AdsDataTypeId::Int32), Some(None));
}
