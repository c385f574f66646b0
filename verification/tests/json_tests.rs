use twincatads::error::AdsError;
use twincatads::json::{
    convert_json_to_variant, convert_json_value_to_variant, Json, JsonNumber,
};
use twincatads::symbols::{AdsDataTypeInfo, AdsSymbolCollection, AdsSymbolInfo};
use twincatads::variant::Variant;

fn whole(v: i64) -> Json {
    Json::Number(JsonNumber {
        as_i64: Some(v),
        as_u64: if v >= 0 { Some(v as u64) } else { None },
        f64_bits: (v as f64).to_bits(),
        f32_bits: (v as f64 as f32).to_bits(),
    })
}

fn float(v: f64) -> Json {
    Json::Number(JsonNumber {
        as_i64: None,
        as_u64: None,
        f64_bits: v.to_bits(),
        f32_bits: (v as f32).to_bits(),
    })
}

fn symbol(name: &str, type_text: &str, size: u32, type_id: u32) -> AdsSymbolInfo {
    let mut s = AdsSymbolInfo::new();
    s.name = name.to_string();
    s.data_type_name = type_text.to_string();
    s.size = size;
    s.type_id = type_id;
    s
}

fn plain_type(name: &str, size: u32, type_id: u32) -> AdsDataTypeInfo {
    let mut t = AdsDataTypeInfo::new();
    t.name = name.to_string();
    t.size = size;
    t.data_type = type_id;
    t
}

fn collection() -> AdsSymbolCollection {
    let mut arr = symbol("GM.aLevels", "ARRAY [0..1] OF INT", 4, 2);
    arr.is_array = true;
    arr.array_dimensions = vec![2];
    let mut c = AdsSymbolCollection::from_vector(&vec![
        symbol("GM.n8", "SINT", 1, 16),
        symbol("GM.u8", "USINT", 1, 17),
        symbol("GM.n16", "INT", 2, 2),
        symbol("GM.u32", "UDINT", 4, 19),
        symbol("GM.n64", "LINT", 8, 20),
        symbol("GM.f", "REAL", 4, 4),
        symbol("GM.d", "LREAL", 8, 5),
        symbol("GM.s", "STRING(80)", 81, 30),
        symbol("GM.b", "BOOL", 1, 33),
        symbol("GM.v", "VOID", 0, 0),
        symbol("GM.r80", "REAL80", 10, 32),
        symbol("GM.st", "ST_Pair", 4, 65),
        arr,
    ]);
    let mut st = plain_type("ST_Pair", 4, 65);
    let a = symbol("a", "INT", 2, 2);
    let mut b = symbol("b", "INT", 2, 2);
    b.offset = 2;
    st.fields = vec![a, b];
    st.num_fields = 2;
    c.data_types.insert("ST_Pair".to_string(), st);
    c.data_types.insert("INT".to_string(), plain_type("INT", 2, 2));
    for (name, size, id) in [
        ("SINT", 1, 16),
        ("USINT", 1, 17),
        ("UDINT", 4, 19),
        ("LINT", 8, 20),
        ("REAL", 4, 4),
        ("LREAL", 8, 5),
        ("STRING(80)", 81, 30),
        ("BOOL", 1, 33),
        ("VOID", 0, 0),
        ("REAL80", 10, 32),
        ("ODD", 1, 99),
    ] {
        c.data_types.insert(name.to_string(), plain_type(name, size, id));
    }
    c
}

fn convert(c: &AdsSymbolCollection, name: &str, j: &Json) -> Result<Variant, AdsError> {
    let s = c.get_symbol_info(name).unwrap();
    convert_json_to_variant(c, j, &s)
}

#[test]
fn integers_narrowed_to_their_width() {
    let c = collection();
    assert_eq!(convert(&c, "GM.n8", &whole(-3)), Ok(Variant::SByte(-3)));
    assert_eq!(convert(&c, "GM.n8", &whole(300)), Ok(Variant::SByte(44)));
    assert_eq!(convert(&c, "GM.u8", &whole(255)), Ok(Variant::Byte(255)));
    assert_eq!(convert(&c, "GM.n16", &whole(-1)), Ok(Variant::Int16(-1)));
    assert_eq!(convert(&c, "GM.u32", &whole(7)), Ok(Variant::UInt32(7)));
    assert_eq!(convert(&c, "GM.n64", &whole(i64::MIN)), Ok(Variant::Int64(i64::MIN)));
    assert_eq!(convert(&c, "GM.u8", &whole(-1)), Err(AdsError::InvalidJsonValue));
    assert_eq!(convert(&c, "GM.n16", &float(1.5)), Err(AdsError::InvalidJsonValue));
}

#[test]
fn floats_texts_and_truth_values() {
    let c = collection();
    assert_eq!(convert(&c, "GM.f", &float(1.5)), Ok(Variant::Real32(1.5f32.to_bits())));
    assert_eq!(convert(&c, "GM.d", &whole(2)), Ok(Variant::Real64(2.0f64.to_bits())));
    assert_eq!(
        convert(&c, "GM.s", &Json::String("hello".to_string())),
        Ok(Variant::String("hello".to_string()))
    );
    assert_eq!(convert(&c, "GM.b", &Json::Bool(true)), Ok(Variant::Bit(true)));
    assert_eq!(convert(&c, "GM.b", &whole(1)), Err(AdsError::InvalidJsonValue));
    assert_eq!(convert(&c, "GM.s", &Json::Null), Err(AdsError::InvalidJsonValue));
    assert_eq!(convert(&c, "GM.f", &Json::String("1".to_string())), Err(AdsError::InvalidJsonValue));
}

#[test]
fn void_and_unhandled_types() {
    let c = collection();
    assert_eq!(convert(&c, "GM.v", &whole(1)), Err(AdsError::VoidType));
    assert_eq!(convert(&c, "GM.r80", &whole(1)), Err(AdsError::UnsupportedType));
    let odd = symbol("GM.odd", "ODD", 1, 99);
    assert_eq!(convert_json_to_variant(&c, &whole(1), &odd), Err(AdsError::UnsupportedType));
    let unknown = symbol("GM.unknown", "NOT_UPLOADED", 2, 2);
    assert_eq!(convert_json_to_variant(&c, &whole(1), &unknown), Err(AdsError::TypeInfoNotFound));
}

#[test]
fn structures_from_objects() {
    let c = collection();
    let obj = Json::Object(vec![
        ("b".to_string(), whole(2)),
        ("a".to_string(), whole(1)),
        ("ignored".to_string(), Json::Null),
    ]);
    assert_eq!(
        convert(&c, "GM.st", &obj),
        Ok(Variant::Object(vec![
            ("a".to_string(), Variant::Int16(1)),
            ("b".to_string(), Variant::Int16(2)),
        ]))
    );
    let missing = Json::Object(vec![("a".to_string(), whole(1))]);
    assert_eq!(convert(&c, "GM.st", &missing), Err(AdsError::MissingJsonField));
    assert_eq!(convert(&c, "GM.st", &whole(1)), Err(AdsError::ExpectedJsonObject));
}

#[test]
fn arrays_from_json_arrays() {
    let c = collection();
    let arr = Json::Array(vec![whole(5), whole(-5)]);
    assert_eq!(
        convert(&c, "GM.aLevels", &arr),
        Ok(Variant::Array(vec![Variant::Int16(5), Variant::Int16(-5)]))
    );
    assert_eq!(convert(&c, "GM.aLevels", &whole(5)), Err(AdsError::ExpectedJsonArray));
    let bad_item = Json::Array(vec![Json::Bool(true)]);
    assert_eq!(convert(&c, "GM.aLevels", &bad_item), Err(AdsError::InvalidJsonValue));
}

#[test]
fn values_for_data_types() {
    let c = collection();
    let dt = c.data_types.get(&"INT".to_string()).unwrap();
    assert_eq!(convert_json_value_to_variant(&c, &whole(9), dt), Ok(Variant::Int16(9)));
    let st = c.data_types.get(&"ST_Pair".to_string()).unwrap();
    let obj = Json::Object(vec![("a".to_string(), whole(1)), ("b".to_string(), whole(3))]);
    assert!(convert_json_value_to_variant(&c, &obj, st).is_ok());
    let s = c.get_symbol_info("GM.n16").unwrap();
    assert_eq!(convert_json_to_variant(&c, &whole(4), &s), Ok(Variant::Int16(4)));
}

#[test]
fn json_values_copy() {
    let j = Json::Object(vec![("k".to_string(), Json::Array(vec![whole(1), Json::Null]))]);
    assert_eq!(j.clone(), j);
}
