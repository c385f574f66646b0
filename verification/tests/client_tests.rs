use twincatads::ads_data::AdsDataTypeId;
use twincatads::client::{
    bytes_for_write, notification_cycle_time_ms, notification_for_event, registration_request,
    try_notification_for_event, try_registration_request, value_from_read,
    variant_for_json_write, NotificationRequest,
};
use twincatads::client_types::{EventInfoType, RouterNotificationEventInfo};
use twincatads::error::AdsError;
use twincatads::json::{Json, JsonNumber};
use twincatads::registry::{
    add_registered_symbol, get_last_registered_symbol, get_new_id,
    get_registered_symbol_by_handle, get_registered_symbol_by_name,
    remove_registered_symbol_by_name, RegisteredSymbol,
};
use twincatads::serialize::serialize;
use twincatads::symbols::{AdsDataTypeInfo, AdsSymbolCollection, AdsSymbolInfo};
use twincatads::variant::Variant;

fn registered(name: &str, handle: u32, notification_handle: u32, t: AdsDataTypeId) -> RegisteredSymbol {
    RegisteredSymbol {
        handle,
        notification_handle,
        name: name.to_string(),
        data_type_id: t,
        options: vec![],
    }
}

fn number(v: u64) -> Json {
    Json::Number(JsonNumber {
        as_i64: Some(v as i64),
        as_u64: Some(v),
        f64_bits: (v as f64).to_bits(),
        f32_bits: (v as f64 as f32).to_bits(),
    })
}

fn collection() -> AdsSymbolCollection {
    let mut n = AdsSymbolInfo::new();
    n.name = "GM.nCount".to_string();
    n.data_type_name = "DINT".to_string();
    n.size = 4;
    n.type_id = 3;
    let mut odd = AdsSymbolInfo::new();
    odd.name = "GM.odd".to_string();
    odd.data_type_name = "ODD".to_string();
    odd.size = 2;
    odd.type_id = 99;
    let mut c = AdsSymbolCollection::from_vector(&vec![n, odd]);
    let mut dint = AdsDataTypeInfo::new();
    dint.name = "DINT".to_string();
    dint.size = 4;
    dint.data_type = 3;
    c.data_types.insert("DINT".to_string(), dint);
    c
}

#[test]
fn registry_lookups() {
    let mut list = Vec::new();
    add_registered_symbol(&mut list, registered("GM.a", 1, 11, AdsDataTypeId::Int16));
    add_registered_symbol(&mut list, registered("GM.b", 2, 12, AdsDataTypeId::Int32));
    assert_eq!(get_registered_symbol_by_name(&list, "GM.b").unwrap().handle, 2);
    assert_eq!(get_registered_symbol_by_handle(&list, 1).unwrap().name, "GM.a");
    assert_eq!(
        get_registered_symbol_by_name(&list, "GM.c"),
        Err(AdsError::NotRegistered)
    );
    assert_eq!(get_registered_symbol_by_handle(&list, 9), Err(AdsError::NotRegistered));
    assert_eq!(get_last_registered_symbol(&list).unwrap().name, "GM.b");
    assert_eq!(remove_registered_symbol_by_name(&mut list, "GM.a"), Ok(()));
    assert_eq!(list.len(), 1);
    assert_eq!(remove_registered_symbol_by_name(&mut list, "GM.a"), Err(AdsError::NotRegistered));
    assert_eq!(remove_registered_symbol_by_name(&mut list, "GM.b"), Ok(()));
    assert!(get_last_registered_symbol(&list).is_none());
}

#[test]
fn add_then_remove_restores_the_registry() {
    let mut list = vec![registered("GM.a", 1, 11, AdsDataTypeId::Int16)];
    let before = list.clone();
    add_registered_symbol(&mut list, registered("GM.new", 5, 15, AdsDataTypeId::Bit));
    assert_eq!(get_registered_symbol_by_name(&list, "GM.new").unwrap().handle, 5);
    remove_registered_symbol_by_name(&mut list, "GM.new").unwrap();
    assert_eq!(list, before);
}

#[test]
fn ids_count_up_and_wrap() {
    let mut counter: u32 = 1;
    assert_eq!(get_new_id(&mut counter), 1);
    assert_eq!(get_new_id(&mut counter), 2);
    assert_eq!(counter, 3);
    let mut top = u32::MAX;
    assert_eq!(get_new_id(&mut top), u32::MAX);
    assert_eq!(top, 0);
}

#[test]
fn notifications_for_events() {
    let c = collection();
    let list = vec![registered("GM.nCount", 7, 70, AdsDataTypeId::Int32)];
    let change = RouterNotificationEventInfo {
        event_type: EventInfoType::DataChange,
        id: 7,
        data: vec![5, 0, 0, 0],
    };
    let n = notification_for_event(&c, &list, &change).unwrap();
    assert_eq!(n.event_type, EventInfoType::DataChange);
    assert_eq!(n.name, "GM.nCount");
    assert_eq!(n.value, Variant::Int32(5));
    let unknown = RouterNotificationEventInfo { event_type: EventInfoType::DataChange, id: 8, data: vec![] };
    assert!(notification_for_event(&c, &list, &unknown).is_none());
    let short = RouterNotificationEventInfo { event_type: EventInfoType::DataChange, id: 7, data: vec![1] };
    assert!(notification_for_event(&c, &list, &short).is_none());
    let state = RouterNotificationEventInfo { event_type: EventInfoType::AdsState, id: 0, data: vec![5, 0] };
    let s = notification_for_event(&c, &list, &state).unwrap();
    assert_eq!(s.event_type, EventInfoType::AdsState);
    assert_eq!(s.value, Variant::Int16(5));
    let router = RouterNotificationEventInfo { event_type: EventInfoType::RouterState, id: 32767, data: vec![1, 0, 0, 0] };
    assert!(notification_for_event(&c, &list, &router).is_none());
    let router2 = RouterNotificationEventInfo { event_type: EventInfoType::RouterState, id: 32767, data: vec![1, 0] };
    assert_eq!(notification_for_event(&c, &list, &router2).unwrap().value, Variant::Int16(1));
    let table = RouterNotificationEventInfo { event_type: EventInfoType::SymbolTableChange, id: 0, data: vec![] };
    assert_eq!(
        notification_for_event(&c, &list, &table).unwrap().event_type,
        EventInfoType::SymbolTableChange
    );
    let invalid = RouterNotificationEventInfo { event_type: EventInfoType::Invalid, id: 0, data: vec![] };
    assert!(try_notification_for_event(&c, &list, &invalid).unwrap().is_none());
}

#[test]
fn cycle_times_from_options() {
    assert_eq!(notification_cycle_time_ms(&vec![]), 50);
    assert_eq!(notification_cycle_time_ms(&vec![("cycle_time".to_string(), number(200))]), 200);
    assert_eq!(notification_cycle_time_ms(&vec![("cycle_time".to_string(), number(3))]), 10);
    assert_eq!(
        notification_cycle_time_ms(&vec![("cycle_time".to_string(), Json::String("x".to_string()))]),
        50
    );
    assert_eq!(
        notification_cycle_time_ms(&vec![("cycle_time".to_string(), number((1u64 << 32) + 20))]),
        20
    );
}

#[test]
fn registration_requests() {
    let c = collection();
    let empty: Vec<RegisteredSymbol> = vec![];
    let opts = vec![("cycle_time".to_string(), number(100))];
    assert_eq!(
        registration_request(&c, &empty, "GM.nCount", &opts),
        Ok(Some(NotificationRequest {
            length: 4,
            cycle_time: 1_000_000,
            data_type_id: AdsDataTypeId::Int32
        }))
    );
    let done = vec![registered("GM.nCount", 7, 70, AdsDataTypeId::Int32)];
    assert_eq!(registration_request(&c, &done, "GM.nCount", &opts), Ok(None));
    let pending = vec![registered("GM.nCount", 7, 0, AdsDataTypeId::Int32)];
    assert!(registration_request(&c, &pending, "GM.nCount", &opts).unwrap().is_some());
    assert_eq!(
        registration_request(&c, &empty, "GM.none", &opts),
        Err(AdsError::SymbolNotFound)
    );
    assert_eq!(registration_request(&c, &empty, "GM.odd", &opts), Err(AdsError::UnsupportedType));
    let huge = vec![("cycle_time".to_string(), number(500_000))];
    assert!(try_registration_request(&c, &empty, "GM.nCount", &huge).is_none());
}

#[test]
fn values_read_and_written() {
    let c = collection();
    assert_eq!(value_from_read(&c, "GM.nCount", 3, &vec![1, 0, 0, 0]), Ok(Variant::Int32(1)));
    assert_eq!(value_from_read(&c, "GM.nCount", 99, &vec![1, 0, 0, 0]), Err(AdsError::UnsupportedType));
    assert_eq!(value_from_read(&c, "GM.none", 3, &vec![1, 0, 0, 0]), Err(AdsError::SymbolNotFound));
    assert_eq!(value_from_read(&c, "GM.nCount", 3, &vec![1, 0]), Err(AdsError::ReadFailed));
    assert_eq!(bytes_for_write(&c, "GM.nCount", &Variant::Int32(-1)), Ok(vec![0xff; 4]));
    assert_eq!(bytes_for_write(&c, "GM.none", &Variant::Int32(-1)), Err(AdsError::SymbolNotFound));
    assert_eq!(variant_for_json_write(&c, "GM.nCount", &number(12)), Ok(Variant::Int32(12)));
    assert_eq!(variant_for_json_write(&c, "GM.none", &number(12)), Err(AdsError::SymbolNotFound));
    assert_eq!(variant_for_json_write(&c, "GM.odd", &number(12)), Err(AdsError::TypeInfoNotFound));
}

#[test]
fn structure_change_notified_as_written() {
    let mut st = AdsSymbolInfo::new();
    st.name = "GM.stPair".to_string();
    st.data_type_name = "ST_Pair".to_string();
    st.size = 4;
    st.type_id = 65;
    let mut c = AdsSymbolCollection::from_vector(&vec![st]);
    let mut dt = AdsDataTypeInfo::new();
    dt.name = "ST_Pair".to_string();
    dt.size = 4;
    dt.data_type = 65;
    dt.num_fields = 2;
    let mut a = AdsSymbolInfo::new();
    a.name = "a".to_string();
    a.data_type_name = "INT".to_string();
    a.size = 2;
    a.type_id = 2;
    let mut b = a.clone();
    b.name = "b".to_string();
    b.offset = 2;
    dt.fields = vec![a, b];
    c.data_types.insert("ST_Pair".to_string(), dt);
    let mut int_type = AdsDataTypeInfo::new();
    int_type.name = "INT".to_string();
    int_type.size = 2;
    int_type.data_type = 2;
    c.data_types.insert("INT".to_string(), int_type);
    let value = Variant::Object(vec![
        ("a".to_string(), Variant::Int16(-4)),
        ("b".to_string(), Variant::Int16(9)),
    ]);
    let info = c.get_symbol_info("GM.stPair").unwrap();
    let bytes = serialize(&c, &info, &value).unwrap();
    let list = vec![registered("GM.stPair", 3, 30, AdsDataTypeId::BigType)];
    let event = RouterNotificationEventInfo { event_type: EventInfoType::DataChange, id: 3, data: bytes };
    let n = notification_for_event(&c, &list, &event).unwrap();
    assert_eq!(n.name, "GM.stPair");
    assert_eq!(n.value, value);
}
