use twincatads::loader::{
    extract_string_from_stream, parse_array_range, parse_datatype_entry_field,
    parse_datatype_entry_item, parse_datatypes, parse_symbol_table, parse_upload,
    set_symbol_array_length, AdsDatatypeEntry,
};
use twincatads::symbols::AdsSymbolInfo;

fn symbol_record(name: &str, type_text: &str, comment: &str, group: u32, offs: u32, size: u32, type_id: u32) -> Vec<u8> {
    let len = 30 + name.len() + 1 + type_text.len() + 1 + comment.len() + 1;
    let mut b = Vec::new();
    b.extend_from_slice(&(len as u32).to_le_bytes());
    b.extend_from_slice(&group.to_le_bytes());
    b.extend_from_slice(&offs.to_le_bytes());
    b.extend_from_slice(&size.to_le_bytes());
    b.extend_from_slice(&type_id.to_le_bytes());
    b.extend_from_slice(&0u32.to_le_bytes());
    b.extend_from_slice(&(name.len() as u16).to_le_bytes());
    b.extend_from_slice(&(type_text.len() as u16).to_le_bytes());
    b.extend_from_slice(&(comment.len() as u16).to_le_bytes());
    for t in [name, type_text, comment] {
        b.extend_from_slice(t.as_bytes());
        b.push(0);
    }
    b
}

struct Rec<'a> {
    name: &'a str,
    type_text: &'a str,
    comment: &'a str,
    size: u32,
    offs: u32,
    type_id: u32,
    dims: Vec<(u32, u32)>,
    fields: Vec<Vec<u8>>,
}

fn datatype_record(r: &Rec) -> Vec<u8> {
    let mut tail = Vec::new();
    for t in [r.name, r.type_text, r.comment] {
        tail.extend_from_slice(t.as_bytes());
        tail.push(0);
    }
    for (lb, el) in &r.dims {
        tail.extend_from_slice(&lb.to_le_bytes());
        tail.extend_from_slice(&el.to_le_bytes());
    }
    for f in &r.fields {
        tail.extend_from_slice(f);
    }
    let len = 42 + tail.len();
    let mut b = Vec::new();
    b.extend_from_slice(&(len as u32).to_le_bytes());
    b.extend_from_slice(&1u32.to_le_bytes());
    b.extend_from_slice(&0u32.to_le_bytes());
    b.extend_from_slice(&0u32.to_le_bytes());
    b.extend_from_slice(&r.size.to_le_bytes());
    b.extend_from_slice(&r.offs.to_le_bytes());
    b.extend_from_slice(&r.type_id.to_le_bytes());
    b.extend_from_slice(&0u32.to_le_bytes());
    b.extend_from_slice(&(r.name.len() as u16).to_le_bytes());
    b.extend_from_slice(&(r.type_text.len() as u16).to_le_bytes());
    b.extend_from_slice(&(r.comment.len() as u16).to_le_bytes());
    b.extend_from_slice(&(r.dims.len() as u16).to_le_bytes());
    b.extend_from_slice(&(r.fields.len() as u16).to_le_bytes());
    b.extend_from_slice(&tail);
    b
}

fn entry_of(b: &[u8]) -> AdsDatatypeEntry {
    let u32_at = |o: usize| u32::from_le_bytes([b[o], b[o + 1], b[o + 2], b[o + 3]]);
    let u16_at = |o: usize| u16::from_le_bytes([b[o], b[o + 1]]);
    AdsDatatypeEntry {
        entryLength: u32_at(0),
        version: u32_at(4),
        hashValue: u32_at(8),
        typeHashValue: u32_at(12),
        size: u32_at(16),
        offs: u32_at(20),
        dataType: u32_at(24),
        flags: u32_at(28),
        nameLength: u16_at(32),
        typeLength: u16_at(34),
        commentLength: u16_at(36),
        arrayDim: u16_at(38),
        subItems: u16_at(40),
    }
}

fn axis_type() -> Vec<u8> {
    let f1 = datatype_record(&Rec {
        name: "fPosition",
        type_text: "LREAL",
        comment: "",
        size: 8,
        offs: 0,
        type_id: 5,
        dims: vec![],
        fields: vec![],
    });
    let f2 = datatype_record(&Rec {
        name: "aFlags",
        type_text: "ARRAY [1..4] OF BOOL",
        comment: "flags",
        size: 4,
        offs: 8,
        type_id: 33,
        dims: vec![],
        fields: vec![],
    });
    datatype_record(&Rec {
        name: "ST_Axis",
        type_text: "",
        comment: "an axis",
        size: 16,
        offs: 0,
        type_id: 65,
        dims: vec![],
        fields: vec![f1, f2],
    })
}

#[test]
fn array_ranges() {
    assert_eq!(parse_array_range("0..9"), 10);
    assert_eq!(parse_array_range("1..1"), 1);
    assert_eq!(parse_array_range("+2..5"), 4);
    assert_eq!(parse_array_range("5"), 0);
    assert_eq!(parse_array_range("a..3"), 0);
    assert_eq!(parse_array_range("1...5"), 0);
    assert_eq!(parse_array_range("0..3..7"), 4);
    assert_eq!(parse_array_range("-5..5"), 11);
    assert_eq!(parse_array_range("-3..-1"), 3);
    assert_eq!(parse_array_range("0..-1"), 0);
    assert_eq!(parse_array_range("5..1"), 0);
    assert_eq!(parse_array_range("9223372036854775808..9223372036854775809"), 2);
    assert_eq!(parse_array_range("0..18446744073709551615"), 0);
}

#[test]
fn array_lengths_from_type_names() {
    let mut s = AdsSymbolInfo::new();
    s.data_type_name = "ARRAY [0..9] OF INT".to_string();
    set_symbol_array_length(&mut s);
    assert_eq!(s.array_dimensions, vec![10]);
    s.data_type_name = "ARRAY [1..2,0..4] OF REAL".to_string();
    set_symbol_array_length(&mut s);
    assert_eq!(s.array_dimensions, vec![2, 5]);
    s.data_type_name = "ARRAY [0..1,0..2,0..3] OF INT".to_string();
    set_symbol_array_length(&mut s);
    assert_eq!(s.array_dimensions, vec![2, 3, 4]);
    s.data_type_name = "ARRAY [-5..5] OF INT".to_string();
    set_symbol_array_length(&mut s);
    assert_eq!(s.array_dimensions, vec![11]);
    s.data_type_name = "ARRAY [0..-1] OF INT".to_string();
    set_symbol_array_length(&mut s);
    assert_eq!(s.array_dimensions, vec![0]);
    s.data_type_name = "INT".to_string();
    set_symbol_array_length(&mut s);
    assert!(s.array_dimensions.is_empty());
}

#[test]
fn strings_from_streams() {
    assert_eq!(extract_string_from_stream(&b"MAIN.x".to_vec()), "MAIN.x");
    assert_eq!(extract_string_from_stream(&vec![0xff, 0x41]), "");
    assert_eq!(extract_string_from_stream(&vec![]), "");
}

#[test]
fn symbol_table_records() {
    let mut table = symbol_record("GM.fReal", "LREAL", "a real", 0x4020, 16, 8, 5);
    table.extend(symbol_record("GM.aData", "ARRAY [0..4] OF INT", "", 0x4020, 24, 10, 2));
    let syms = parse_symbol_table(&table, 2);
    assert_eq!(syms.len(), 2);
    assert_eq!(syms[0].name, "GM.fReal");
    assert_eq!(syms[0].data_type_name, "LREAL");
    assert_eq!(syms[0].comment, "a real");
    assert_eq!(syms[0].group_index, 0x4020);
    assert_eq!(syms[0].index_offset, 16);
    assert_eq!(syms[0].size, 8);
    assert_eq!(syms[0].type_id, 5);
    assert!(!syms[0].is_array);
    assert!(syms[1].is_array);
    assert_eq!(syms[1].array_dimensions, vec![5]);
    assert!(parse_symbol_table(&table, 0).is_empty());
}

#[test]
fn datatype_fields_and_items() {
    let buffer = axis_type();
    let entry = entry_of(&buffer);
    let item = parse_datatype_entry_item(&entry, &buffer, 0).unwrap();
    assert_eq!(item.name, "ST_Axis");
    assert_eq!(item.comment, "an axis");
    assert_eq!(item.size, 16);
    assert_eq!(item.num_fields, 2);
    assert_eq!(item.fields.len(), 2);
    assert_eq!(item.fields[0].name, "fPosition");
    assert_eq!(item.fields[0].data_type_name, "LREAL");
    assert_eq!(item.fields[1].name, "aFlags");
    assert_eq!(item.fields[1].offset, 8);
    assert_eq!(item.fields[1].comment, "flags");
    assert!(item.fields[1].is_array);
    assert_eq!(item.fields[1].array_dimensions, vec![4]);
    let field_at = 42 + "ST_Axis".len() + 1 + 1 + "an axis".len() + 1;
    let field = parse_datatype_entry_field(&entry_of(&buffer[field_at..]), &buffer, field_at).unwrap();
    assert_eq!(field.name, "fPosition");
    assert_eq!(field.size, 8);
    // An offset past the table gives nothing.
    assert!(parse_datatype_entry_item(&entry, &buffer, buffer.len() + 100).is_none());
}

#[test]
fn array_datatype_dimensions() {
    let buffer = datatype_record(&Rec {
        name: "ARRAY [0..2,0..3] OF INT",
        type_text: "INT",
        comment: "",
        size: 24,
        offs: 0,
        type_id: 2,
        dims: vec![(0, 3), (0, 4)],
        fields: vec![],
    });
    let item = parse_datatype_entry_item(&entry_of(&buffer), &buffer, 0).unwrap();
    assert_eq!(item.num_array_dimensions, 2);
    assert_eq!(item.array_dimensions, vec![3, 4]);
    assert_eq!(item.array_data_size, 12);
}

#[test]
fn datatype_tables() {
    let mut table = axis_type();
    table.extend(datatype_record(&Rec {
        name: "INT",
        type_text: "",
        comment: "",
        size: 2,
        offs: 0,
        type_id: 2,
        dims: vec![],
        fields: vec![],
    }));
    let types = parse_datatypes(&table);
    assert_eq!(types.len(), 2);
    assert_eq!(types.get(&"INT".to_string()).unwrap().size, 2);
    assert_eq!(types.get(&"ST_Axis".to_string()).unwrap().fields.len(), 2);
    assert_eq!(parse_datatypes(&vec![]).len(), 0);
}

#[test]
fn whole_upload() {
    let table = symbol_record("GM.stAxis", "ST_Axis", "", 0x4020, 0, 16, 65);
    let c = parse_upload(&table, 1, &Some(axis_type())).unwrap();
    assert_eq!(c.symbols.len(), 1);
    assert_eq!(c.data_types.len(), 1);
    let info = c.get_symbol_info("GM.stAxis.aFlags").unwrap();
    assert_eq!(info.offset, 8);
    let none = parse_upload(&table, 1, &None).unwrap();
    assert_eq!(none.data_types.len(), 0);
    // A count of records larger than the table holds cannot be read.
    assert!(parse_upload(&table, 2, &None).is_none());
}

#[test]
fn upload_with_an_empty_range() {
    let mut table = symbol_record("GM.aNone", "ARRAY [0..-1] OF INT", "", 0x4020, 0, 0, 2);
    table.extend(symbol_record("GM.n", "INT", "", 0x4020, 0, 2, 2));
    let c = parse_upload(&table, 2, &None).unwrap();
    assert_eq!(c.symbols.len(), 2);
    let a = c.symbols.get(&"GM.aNone".to_string()).unwrap();
    assert!(a.is_array);
    assert_eq!(a.array_dimensions, vec![0]);
    let field = datatype_record(&Rec {
        name: "aNone",
        type_text: "ARRAY [0..-1] OF INT",
        comment: "",
        size: 0,
        offs: 0,
        type_id: 2,
        dims: vec![],
        fields: vec![],
    });
    let f = parse_datatype_entry_field(&entry_of(&field), &field, 0).unwrap();
    assert_eq!(f.name, "aNone");
    assert!(f.is_array);
    assert_eq!(f.array_dimensions, vec![0]);
}
