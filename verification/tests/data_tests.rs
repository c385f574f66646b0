use twincatads::ads_data::{serialize_value, value_from_bytes, vec_to_string, AdsDataTypeId};
use twincatads::client_types::{
    AdsClientNotification, AdsState, EventInfoType, MaxString, RouterState,
};
use twincatads::codec::{u16_to_le_bytes, u32_to_le_bytes, u64_to_le_bytes};
use twincatads::error::AdsError;
use twincatads::variant::Variant;

#[test]
fn le_bytes_of_integers() {
    assert_eq!(u16_to_le_bytes(0x1234), vec![0x34, 0x12]);
    assert_eq!(u32_to_le_bytes(0x1234_5678), vec![0x78, 0x56, 0x34, 0x12]);
    assert_eq!(
        u64_to_le_bytes(0x0102_0304_0506_0708),
        vec![8, 7, 6, 5, 4, 3, 2, 1]
    );
}

#[test]
fn plain_values_from_bytes() {
    assert_eq!(value_from_bytes(&vec![0xff], &AdsDataTypeId::Int8), Some(Variant::SByte(-1)));
    assert_eq!(value_from_bytes(&vec![0xff], &AdsDataTypeId::UInt8), Some(Variant::Byte(255)));
    assert_eq!(
        value_from_bytes(&vec![0x34, 0x12], &AdsDataTypeId::UInt16),
        Some(Variant::UInt16(0x1234))
    );
    assert_eq!(
        value_from_bytes(&vec![0xfe, 0xff], &AdsDataTypeId::Int16),
        Some(Variant::Int16(-2))
    );
    assert_eq!(
        value_from_bytes(&vec![1, 0, 0, 0], &AdsDataTypeId::Int32),
        Some(Variant::Int32(1))
    );
    assert_eq!(
        value_from_bytes(&vec![0, 0, 0x80, 0x3f], &AdsDataTypeId::Real32),
        Some(Variant::Real32(1.0f32.to_bits()))
    );
    assert_eq!(
        value_from_bytes(&1.5f64.to_bits().to_le_bytes().to_vec(), &AdsDataTypeId::Real64),
        Some(Variant::Real64(1.5f64.to_bits()))
    );
    assert_eq!(value_from_bytes(&vec![1], &AdsDataTypeId::Bit), Some(Variant::Bit(true)));
    // Wrong width and types that are no plain data.
    assert_eq!(value_from_bytes(&vec![1, 2, 3], &AdsDataTypeId::Int32), None);
    assert_eq!(value_from_bytes(&vec![1], &AdsDataTypeId::BigType), None);
}

#[test]
fn plain_values_to_bytes_and_back() {
    let values = vec![
        Variant::Bit(true),
        Variant::Byte(7),
        Variant::SByte(-7),
        Variant::Int16(-300),
        Variant::UInt16(60000),
        Variant::Int32(-70000),
        Variant::UInt32(4_000_000_000),
        Variant::Int64(-5),
        Variant::UInt64(u64::MAX),
        Variant::Real32(2.5f32.to_bits()),
        Variant::Real64((-0.25f64).to_bits()),
    ];
    let types = vec![
        AdsDataTypeId::Bit,
        AdsDataTypeId::UInt8,
        AdsDataTypeId::Int8,
        AdsDataTypeId::Int16,
        AdsDataTypeId::UInt16,
        AdsDataTypeId::Int32,
        AdsDataTypeId::UInt32,
        AdsDataTypeId::Int64,
        AdsDataTypeId::UInt64,
        AdsDataTypeId::Real32,
        AdsDataTypeId::Real64,
    ];
    for (v, t) in values.iter().zip(types.iter()) {
        let bytes = serialize_value(v).unwrap();
        assert_eq!(value_from_bytes(&bytes, t).as_ref(), Some(v));
    }
    assert_eq!(serialize_value(&Variant::Int16(0x0102)).unwrap(), vec![2, 1]);
}

#[test]
fn serialize_value_errors() {
    assert_eq!(serialize_value(&Variant::Null), Err(AdsError::NullValue));
    assert_eq!(
        serialize_value(&Variant::String("x".to_string())),
        Err(AdsError::NotPlainData)
    );
    assert_eq!(serialize_value(&Variant::Array(vec![])), Err(AdsError::NotPlainData));
}

#[test]
fn strings_from_plc_bytes() {
    assert_eq!(vec_to_string(&vec![b'a', b'b', 0, b'c']), Ok("ab".to_string()));
    assert_eq!(vec_to_string(&vec![0]), Ok(String::new()));
    assert_eq!(vec_to_string(&vec![b'a', b'b']), Err(AdsError::StringNotTerminated));
    assert_eq!(vec_to_string(&vec![0xff, 0xfe, 0]), Err(AdsError::InvalidUtf8));
}

#[test]
fn data_type_ids() {
    assert_eq!(AdsDataTypeId::try_from(65u32), Ok(AdsDataTypeId::BigType));
    assert_eq!(AdsDataTypeId::try_from(33u32), Ok(AdsDataTypeId::Bit));
    assert!(AdsDataTypeId::try_from(99u32).is_err());
    for v in [0u32, 16, 17, 2, 18, 3, 19, 20, 21, 4, 5, 30, 31, 32, 33, 65, 67] {
        assert_eq!(AdsDataTypeId::try_from(v).unwrap().value(), v);
    }
}

#[test]
fn max_string_round_trip() {
    let s = MaxString::from_string("There is no spoon.");
    assert_eq!(s.to_string().unwrap(), "There is no spoon.");
    assert_eq!(MaxString::default().to_string().unwrap(), "");
    let long: String = std::iter::repeat('x').take(300).collect();
    let cut = MaxString::from_string(&long);
    assert_eq!(cut.0[254], b'x');
    assert_eq!(cut.0[255], 0);
    assert_eq!(cut.to_string().unwrap().len(), 255);
    assert_eq!(cut.to_string().unwrap(), long[..255].to_string());
    let mixed: String = "aé".repeat(120);
    assert!(mixed.len() > 255 && mixed.is_char_boundary(255));
    assert_eq!(MaxString::from_string(&mixed).to_string().unwrap(), mixed[..255].to_string());
}

#[test]
fn max_string_without_zero_is_empty() {
    let s = MaxString([b'a'; 256]);
    assert_eq!(s.to_string().unwrap(), "");
    let mut bad = MaxString::default();
    bad.0[0] = 0xff;
    assert!(bad.to_string().is_err());
}

#[test]
fn states_from_codes() {
    assert_eq!(AdsState::from(5i16), AdsState::Running);
    assert_eq!(AdsState::from(6i16), AdsState::Stopped);
    assert_eq!(AdsState::from(0i16), AdsState::Unknown);
    assert_eq!(AdsState::from(Variant::Int32(5)), AdsState::Running);
    assert_eq!(AdsState::from(Variant::Byte(6)), AdsState::Stopped);
    assert_eq!(AdsState::from(Variant::Null), AdsState::Unknown);
    assert_eq!(RouterState::from(1i16), RouterState::Started);
    assert_eq!(RouterState::from(0i16), RouterState::Stopped);
    assert_eq!(RouterState::from(2i16), RouterState::Removed);
    assert_eq!(RouterState::from(Variant::SByte(-1)), RouterState::Unknown);
    for st in [AdsState::Unknown, AdsState::Running, AdsState::Stopped] {
        assert_eq!(AdsState::from(st.code()), st);
    }
    for st in [RouterState::Unknown, RouterState::Stopped, RouterState::Started, RouterState::Removed] {
        assert_eq!(RouterState::from(st.code()), st);
    }
}

#[test]
fn state_notification_reads_as_state() {
    let n = AdsClientNotification::new_ads_state(5);
    assert_eq!(AdsState::from(n.value), AdsState::Running);
    let r = AdsClientNotification::new_router_state(2);
    assert_eq!(r.event_type, EventInfoType::RouterState);
    assert_eq!(RouterState::from(r.value), RouterState::Removed);
}

#[test]
fn event_codes_and_notifications() {
    assert_eq!(EventInfoType::Invalid.code(), 0);
    assert_eq!(EventInfoType::DataChange.code(), 1);
    assert_eq!(EventInfoType::SymbolTableChange.code(), 10);
    let d = AdsClientNotification::new_datachange("GM.fReal", &Variant::Int32(3));
    assert_eq!(d.event_type, EventInfoType::DataChange);
    assert_eq!(d.name, "GM.fReal");
    assert_eq!(d.value, Variant::Int32(3));
    let t = AdsClientNotification::new_symbol_table();
    assert_eq!(t.event_type, EventInfoType::SymbolTableChange);
    assert_eq!(t.value, Variant::Null);
    let z = AdsClientNotification::default();
    assert_eq!(z.event_type, EventInfoType::Invalid);
    assert_eq!(z.name, "");
}
