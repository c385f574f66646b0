use twincatads::address::{to_ams_addr, AmsAddr, AdsSymbolEntry};
use twincatads::error::AdsError;
use twincatads::name_map::NameMap;
use twincatads::symbols::{AdsDataTypeInfo, AdsSymbolCollection, AdsSymbolInfo};

fn symbol(name: &str, type_text: &str, size: u32, type_id: u32) -> AdsSymbolInfo {
    let mut s = AdsSymbolInfo::new();
    s.name = name.to_string();
    s.data_type_name = type_text.to_string();
    s.size = size;
    s.type_id = type_id;
    s
}

#[test]
fn ams_addresses() {
    let a = to_ams_addr("192.168.127.1.1.1").unwrap();
    assert_eq!(a.netId.b, [192, 168, 127, 1, 1, 1]);
    assert_eq!(a.port, 0);
    let b = to_ams_addr("  10.0.0.2.1.1 ").unwrap();
    assert_eq!(b.netId.b, [10, 0, 0, 2, 1, 1]);
    assert!(to_ams_addr("10.0.0.2.1.1.").is_none());
    assert!(to_ams_addr("1..2.3.4.5").is_none());
    assert!(to_ams_addr("a.b.c.d.e.f").is_none());
    assert!(to_ams_addr("256.1.1.1.1.1").is_none());
    assert!(to_ams_addr("1.2.3.4.5").is_none());
    assert!(to_ams_addr("1.2.3.4.5.6.7").is_none());
    assert!(to_ams_addr("1.2.3.4.5.256").is_none());
    assert!(to_ams_addr("1.2.x.4.5.6").is_none());
    assert!(to_ams_addr("").is_none());
    assert!(to_ams_addr("+1.2.3.4.5.6").is_none());
    assert!(to_ams_addr("1.2.3.4.5.-6").is_none());
    let wide = to_ams_addr("\u{3000}\u{a0}7.6.5.4.3.2\u{2028}").unwrap();
    assert_eq!(wide.netId.b, [7, 6, 5, 4, 3, 2]);
}

#[test]
fn printed_addresses_read_back() {
    for b in [[0u8, 0, 0, 0, 0, 0], [255, 1, 10, 99, 100, 200], [5, 4, 3, 2, 1, 0]] {
        let text = format!("{}.{}.{}.{}.{}.{}", b[0], b[1], b[2], b[3], b[4], b[5]);
        assert_eq!(to_ams_addr(&text).unwrap().netId.b, b);
        let spaced = format!(" \t{}\n", text);
        assert_eq!(to_ams_addr(&spaced).unwrap().netId.b, b);
    }
}

#[test]
fn default_addresses_and_entries() {
    let a = AmsAddr::new();
    assert_eq!(a.port, 851);
    assert_eq!(a.netId.b, [0; 6]);
    assert_eq!(AmsAddr::default().port, 0);
    let e = AdsSymbolEntry::new();
    assert_eq!(e.entryLength, 0);
    assert_eq!(e.commentLength, 0);
}

#[test]
fn name_map_keeps_names_in_order() {
    let mut m: NameMap<u32> = NameMap::new();
    m.insert("b".to_string(), 2);
    m.insert("a".to_string(), 1);
    m.insert("c".to_string(), 3);
    m.insert("a".to_string(), 10);
    assert_eq!(m.len(), 3);
    assert_eq!(m.get(&"a".to_string()), Some(&10));
    assert_eq!(m.get(&"z".to_string()), None);
    assert!(m.contains_key(&"c".to_string()));
    let names: Vec<String> = (0..m.len()).map(|i| m.entry_at(i).0.clone()).collect();
    assert_eq!(names, vec!["a", "b", "c"]);
    m.clear();
    assert_eq!(m.len(), 0);
}

#[test]
fn collection_from_symbols_last_wins() {
    let syms = vec![
        symbol("GM.b", "INT", 2, 2),
        symbol("GM.a", "DINT", 4, 3),
        symbol("GIO.x", "BOOL", 1, 33),
        symbol("GM.a", "REAL", 4, 4),
    ];
    let c = AdsSymbolCollection::from_vector(&syms);
    assert_eq!(c.symbols.len(), 3);
    assert_eq!(c.symbols.get(&"GM.a".to_string()).unwrap().data_type_name, "REAL");
    assert_eq!(c.data_types.len(), 0);
    let gm = c.find_symbols_in_domain("GM");
    let names: Vec<&str> = gm.iter().map(|s| s.name.as_str()).collect();
    assert_eq!(names, vec!["GM.a", "GM.b"]);
    assert!(c.find_symbols_in_domain("NONE").is_empty());
    assert_eq!(AdsSymbolCollection::new().symbols.len(), 0);
}

fn structure_collection() -> AdsSymbolCollection {
    let mut st = symbol("GM.stAxis", "ST_Axis", 16, 65);
    st.is_structure = false;
    let mut c = AdsSymbolCollection::from_vector(&vec![
        st,
        symbol("GM.nCount", "DINT", 4, 3),
        symbol("GM.arr", "ARRAY [0..3] OF INT", 8, 2),
    ]);
    let mut dt = AdsDataTypeInfo::new();
    dt.name = "ST_Axis".to_string();
    dt.size = 16;
    dt.data_type = 65;
    dt.num_fields = 2;
    let mut f1 = symbol("fPosition", "LREAL", 8, 5);
    f1.offset = 0;
    let mut f2 = symbol("nState", "DINT", 4, 3);
    f2.offset = 8;
    dt.fields = vec![f1, f2];
    c.data_types.insert("ST_Axis".to_string(), dt);
    let mut int_type = AdsDataTypeInfo::new();
    int_type.name = "INT".to_string();
    int_type.size = 2;
    int_type.data_type = 2;
    c.data_types.insert("INT".to_string(), int_type);
    c
}

#[test]
fn symbol_info_of_symbols_and_fields() {
    let c = structure_collection();
    assert_eq!(c.get_symbol_info("GM.nCount").unwrap().size, 4);
    let f = c.get_symbol_info("GM.stAxis.nState").unwrap();
    assert_eq!(f.name, "nState");
    assert_eq!(f.offset, 8);
    assert_eq!(c.get_symbol_info("GM.stAxis.nothing"), Err(AdsError::FieldNotFound));
    assert_eq!(c.get_symbol_info("GM.missing"), Err(AdsError::SymbolNotFound));
    assert_eq!(c.get_symbol_info("GM.stAxis").unwrap().name, "GM.stAxis");
}

#[test]
fn nested_fields_of_structure_symbols() {
    let mut outer = symbol("GVL.st", "ST_Outer", 24, 65);
    outer.is_structure = true;
    let mut c = AdsSymbolCollection::from_vector(&vec![outer]);
    let mut outer_type = AdsDataTypeInfo::new();
    outer_type.name = "ST_Outer".to_string();
    outer_type.size = 24;
    outer_type.num_fields = 2;
    let mut inner = symbol("inner", "ST_Inner", 16, 65);
    inner.offset = 8;
    outer_type.fields = vec![symbol("n", "DINT", 4, 3), inner];
    c.data_types.insert("ST_Outer".to_string(), outer_type);
    let mut inner_type = AdsDataTypeInfo::new();
    inner_type.name = "ST_Inner".to_string();
    inner_type.size = 16;
    inner_type.num_fields = 1;
    let mut x = symbol("x", "LREAL", 8, 5);
    x.offset = 8;
    inner_type.fields = vec![x];
    c.data_types.insert("ST_Inner".to_string(), inner_type);
    assert_eq!(c.get_symbol_info("GVL.st.n").unwrap().name, "n");
    let deep = c.get_symbol_info("GVL.st.inner.x").unwrap();
    assert_eq!(deep.name, "x");
    assert_eq!(deep.offset, 8);
    assert_eq!(deep.size, 8);
    assert_eq!(c.get_symbol_info("GVL.st.inner.y"), Err(AdsError::FieldNotFound));
    assert_eq!(c.get_symbol_info("GVL.st.n.x"), Err(AdsError::FieldTypeNotFound));
}

#[test]
fn fundamental_types() {
    let c = structure_collection();
    let arr = c.symbols.get(&"GM.arr".to_string()).unwrap();
    assert_eq!(c.get_fundamental_type_info(arr).unwrap().name, "INT");
    let st = c.symbols.get(&"GM.stAxis".to_string()).unwrap();
    assert_eq!(c.get_fundamental_type_info(st).unwrap().fields.len(), 2);
    let n = c.symbols.get(&"GM.nCount".to_string()).unwrap();
    assert!(c.get_fundamental_type_info(n).is_none());
    let missing = symbol("GM.x", "ARRAY [0..1] OF UNKNOWN", 2, 2);
    assert!(c.get_fundamental_type_info(&missing).is_none());
    assert!(c.get_fundamental_type_info(&symbol("GM.b", "BUF_OF", 2, 2)).is_none());
}

#[test]
fn type_names_holding_of_are_plain() {
    let mut c = structure_collection();
    let mut offset_type = AdsDataTypeInfo::new();
    offset_type.name = "ST_OFFSET".to_string();
    offset_type.size = 6;
    c.data_types.insert("ST_OFFSET".to_string(), offset_type);
    let mut set_type = AdsDataTypeInfo::new();
    set_type.name = "SET".to_string();
    c.data_types.insert("SET".to_string(), set_type);
    let s = symbol("GM.o", "ST_OFFSET", 6, 65);
    let dt = c.get_fundamental_type_info(&s).unwrap();
    assert_eq!(dt.name, "ST_OFFSET");
    assert_eq!(dt.size, 6);
    let a = symbol("GM.a", "ARRAY [1..2] OF ST_OFFSET", 12, 65);
    assert_eq!(c.get_fundamental_type_info(&a).unwrap().name, "ST_OFFSET");
}

#[test]
fn data_type_sub_items() {
    let mut dt = AdsDataTypeInfo::new();
    assert_eq!(dt.sub_item_count(), 0);
    dt.num_fields = 3;
    assert_eq!(dt.sub_item_count(), 3);
    let mut arr = AdsDataTypeInfo::new();
    arr.num_array_dimensions = 2;
    arr.array_dimensions = vec![2, 3];
    assert_eq!(arr.sub_item_count(), 6);
    arr.num_array_dimensions = 3;
    arr.array_dimensions = vec![2, 3, 4];
    assert_eq!(arr.sub_item_count(), 24);
    arr.array_dimensions = vec![0, 1usize << 33, 1usize << 33];
    assert_eq!(arr.sub_item_count(), 0);
}

#[test]
fn collection_copies_keep_their_entries() {
    let c = structure_collection();
    let d = c.clone();
    assert_eq!(d.symbols.len(), c.symbols.len());
    assert_eq!(d.data_types.len(), c.data_types.len());
    assert_eq!(d.get_symbol_info("GM.stAxis.nState").unwrap().offset, 8);
    let mut n: NameMap<AdsSymbolInfo> = NameMap::new();
    n.insert("x".to_string(), symbol("x", "INT", 2, 2));
    let m = n.clone();
    assert_eq!(m.get(&"x".to_string()).unwrap().size, 2);
}

#[test]
fn field_of_unknown_type() {
    let c = AdsSymbolCollection::from_vector(&vec![symbol("GM.arr", "ARRAY [0..3] OF UNKNOWN", 8, 2)]);
    assert_eq!(c.get_symbol_info("GM.arr.x"), Err(AdsError::FieldTypeNotFound));
    assert_eq!(c.get_symbol_info("GM.arr").unwrap().name, "GM.arr");
}
