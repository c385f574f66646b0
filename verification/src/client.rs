//! The decisions of the client between its calls into the ADS interface:
//! what each event from the router tells the owner of the client, how a
//! symbol is registered for notification, and which values are read and
//! written for a symbol.
use crate::ads_data::{data_type_id_from, type_id_of, AdsDataTypeId};
use crate::client_types::{AdsClientNotification, EventInfoType, RouterNotificationEventInfo};
use crate::codec::{le_u16, read_i16_le};
use crate::deserialize::{deser, max_depth, try_deserialize};
use crate::error::AdsError;
use crate::json::{
    json_for_symbol, json_key_index, json_members_model, json_u64, lemma_json_members_model,
    convert_json_to_variant, result_view, Json, JsonModel,
};
use crate::registry::{
    get_registered_symbol_by_handle, get_registered_symbol_by_name, handle_index_from,
    name_index_from, registered_view, RegisteredSymbol, RegisteredSymbolModel,
};
use crate::serialize::{bytes_view, law_struct_roundtrip, ser, serialize, struct_fits};
use crate::deserialize::Members;
use crate::symbols::{
    symbol_info_result, AdsSymbolCollection, CollectionModel,
};
use crate::variant::{Variant, VariantModel};
use vstd::prelude::*;

verus! {

/// The state carried by the two bytes of a state event, read least
/// significant first; none for data of any other length.
pub open spec fn event_state(data: Seq<u8>) -> Option<i16> {
    if data.len() == 2 {
        Some(le_u16(data) as i16)
    } else {
        None
    }
}

/// What a change of the value of the symbol registered with handle `id`
/// tells the owner: the symbol's name and the value read from `data` for it
/// with the data type it was registered with. `Some(None)` where the handle
/// is not registered, the symbol is not in the table or the data hold no
/// value; `None` where looking the symbol up or reading the value would fail.
pub open spec fn data_change(
    c: CollectionModel,
    registered: Seq<RegisteredSymbolModel>,
    id: u32,
    data: Seq<u8>,
) -> Option<Option<(Seq<char>, VariantModel)>> {
    match handle_index_from(registered, id, 0) {
        None => Some(None),
        Some(i) => {
            let sym = registered[i];
            match symbol_info_result(c, sym.name) {
                Err(_) => Some(None),
                Ok(si) => match deser(c, si, data, sym.data_type_id, max_depth()) {
                    None => None,
                    Some(None) => Some(None),
                    Some(Some(v)) => Some(Some((sym.name, v))),
                },
            }
        },
    }
}

/// What an event from the router tells the owner of the client, if anything.
pub enum NotificationOutcome {
    /// A changed value: the name of the symbol and its new value.
    DataChange(Seq<char>, VariantModel),
    /// A new state of the target.
    AdsState(i16),
    /// A new state of the router.
    RouterState(i16),
    /// A changed symbol table.
    SymbolTable,
    /// Nothing.
    Nothing,
}

/// What `info` tells the owner; `None` where finding it out would fail as
/// `data_change` describes.
pub open spec fn event_outcome(
    c: CollectionModel,
    registered: Seq<RegisteredSymbolModel>,
    info: RouterNotificationEventInfo,
) -> Option<NotificationOutcome> {
    match info.event_type {
        EventInfoType::Invalid => Some(NotificationOutcome::Nothing),
        EventInfoType::DataChange => match data_change(c, registered, info.id, info.data@) {
            None => None,
            Some(None) => Some(NotificationOutcome::Nothing),
            Some(Some((name, v))) => Some(NotificationOutcome::DataChange(name, v)),
        },
        EventInfoType::AdsState => match event_state(info.data@) {
            Some(s) => Some(NotificationOutcome::AdsState(s)),
            None => Some(NotificationOutcome::Nothing),
        },
        EventInfoType::RouterState => match event_state(info.data@) {
            Some(s) => Some(NotificationOutcome::RouterState(s)),
            None => Some(NotificationOutcome::Nothing),
        },
        EventInfoType::SymbolTableChange => Some(NotificationOutcome::SymbolTable),
    }
}

/// The notification `n` reports `o`; no notification reports nothing.
pub open spec fn reports(n: Option<AdsClientNotification>, o: NotificationOutcome) -> bool {
    match o {
        NotificationOutcome::Nothing => n is None,
        NotificationOutcome::DataChange(name, v) => n matches Some(x) && x.event_type
            == EventInfoType::DataChange && x.name@ == name && x.value@ == v,
        NotificationOutcome::AdsState(s) => n matches Some(x) && x.event_type
            == EventInfoType::AdsState && x.name@.len() == 0 && x.value == Variant::Int16(s),
        NotificationOutcome::RouterState(s) => n matches Some(x) && x.event_type
            == EventInfoType::RouterState && x.name@.len() == 0 && x.value == Variant::Int16(s),
        NotificationOutcome::SymbolTable => n matches Some(x) && x.event_type
            == EventInfoType::SymbolTableChange && x.name@.len() == 0 && x.value == Variant::Null,
    }
}

fn event_state_of(data: &Vec<u8>) -> (r: Option<i16>)
    ensures
        r == event_state(data@),
{
    read_i16_le(data.as_slice())
}

fn notification_core(
    collection: &AdsSymbolCollection,
    registered: &Vec<RegisteredSymbol>,
    info: &RouterNotificationEventInfo,
) -> (r: Option<Option<AdsClientNotification>>)
    ensures
        match r {
            None => event_outcome(collection@, registered_view(registered@), *info) is None,
            Some(n) => event_outcome(collection@, registered_view(registered@), *info) matches Some(
                o,
            ) && reports(n, o),
        },
{
    match info.event_type {
        EventInfoType::Invalid => Some(None),
        EventInfoType::DataChange => {
            let symbol = match get_registered_symbol_by_handle(registered, info.id) {
                Ok(s) => s,
                Err(_) => {
                    return Some(None);
                },
            };
            let symbol_info = match collection.get_symbol_info(symbol.name.as_str()) {
                Err(_) => {
                    return Some(None);
                },
                Ok(si) => si,
            };
            match try_deserialize(collection, &symbol_info, &info.data, &symbol.data_type_id) {
                None => None,
                Some(None) => Some(None),
                Some(Some(v)) => Some(
                    Some(AdsClientNotification::new_datachange(symbol.name.as_str(), &v)),
                ),
            }
        },
        EventInfoType::AdsState => match event_state_of(&info.data) {
            Some(s) => Some(Some(AdsClientNotification::new_ads_state(s))),
            None => Some(None),
        },
        EventInfoType::RouterState => match event_state_of(&info.data) {
            Some(s) => Some(Some(AdsClientNotification::new_router_state(s))),
            None => Some(None),
        },
        EventInfoType::SymbolTableChange => Some(Some(AdsClientNotification::new_symbol_table())),
    }
}

/// The notification that the event `info` from the router gives the owner
/// of the client: for a changed value of a registered symbol, its name and
/// the value read from the event's bytes with the data type the symbol was
/// registered with; for a state event whose bytes hold a 16-bit state, that
/// state; for a changed symbol table, that news. Nothing for an invalid
/// event, an unknown handle, a symbol missing from the table, or bytes that
/// hold no value.
pub fn notification_for_event(
    collection: &AdsSymbolCollection,
    registered: &Vec<RegisteredSymbol>,
    info: &RouterNotificationEventInfo,
) -> (r: Option<AdsClientNotification>)
    requires
        event_outcome(collection@, registered_view(registered@), *info) is Some,
    ensures
        reports(r, event_outcome(collection@, registered_view(registered@), *info)->0),
{
    match notification_core(collection, registered, info) {
        Some(n) => n,
        None => None,
    }
}

/// The notification as `notification_for_event` gives it, or `None` where
/// looking up the symbol or reading its value would fail.
pub fn try_notification_for_event(
    collection: &AdsSymbolCollection,
    registered: &Vec<RegisteredSymbol>,
    info: &RouterNotificationEventInfo,
) -> (r: Option<Option<AdsClientNotification>>)
    ensures
        match r {
            None => event_outcome(collection@, registered_view(registered@), *info) is None,
            Some(n) => event_outcome(collection@, registered_view(registered@), *info) matches Some(
                o,
            ) && reports(n, o),
        },
{
    notification_core(collection, registered, info)
}

/// The name of the option that sets the cycle time of a notification.
pub open spec fn cycle_time_key() -> Seq<char> {
    seq!['c', 'y', 'c', 'l', 'e', '_', 't', 'i', 'm', 'e']
}

/// The cycle time in milliseconds asked for in `options`: the `cycle_time`
/// member read as an unsigned integer and cut to 32 bits, 50 where there is
/// no such member or it is no unsigned integer, and at least 10.
pub open spec fn cycle_time_ms(options: Seq<(Seq<char>, JsonModel)>) -> u32 {
    let ms: u32 = match json_key_index(options, cycle_time_key(), 0) {
        Some(k) => match json_u64(options[k].1) {
            Some(v) => v as u32,
            None => 50,
        },
        None => 50,
    };
    if ms < 10 {
        10
    } else {
        ms
    }
}

/// What the ADS interface is asked for to notify changes of a symbol: the
/// number of bytes to send, the cycle time in units of 100 ns, and the data
/// type the values are read with.
#[derive(Debug, Clone, Copy, PartialEq, Eq, Structural)]
pub struct NotificationRequest {
    pub length: u32,
    pub cycle_time: u32,
    pub data_type_id: AdsDataTypeId,
}

/// The symbol named `name` is registered with a notification already.
pub open spec fn already_registered(registered: Seq<RegisteredSymbolModel>, name: Seq<char>) -> bool {
    name_index_from(registered, name, 0) matches Some(i) && registered[i].notification_handle != 0
}

/// Deciding how to register `name` does not fail: it is registered already,
/// or looking it up does not fail and, where it is found, the cycle time of
/// `options` in units of 100 ns fits in 32 bits.
pub open spec fn registration_defined(
    c: CollectionModel,
    registered: Seq<RegisteredSymbolModel>,
    name: Seq<char>,
    options: Seq<(Seq<char>, JsonModel)>,
) -> bool {
    already_registered(registered, name) || (symbol_info_result(c, name) is Ok ==> cycle_time_ms(
        options,
    ) * 10000 <= u32::MAX)
}

/// How to register symbol `name` for notification: nothing to do where it
/// is registered already; otherwise a request for the size of the symbol,
/// the cycle time of `options` and the symbol's data type. An error where
/// the symbol is not in the table or its data type id is unknown.
pub open spec fn registration(
    c: CollectionModel,
    registered: Seq<RegisteredSymbolModel>,
    name: Seq<char>,
    options: Seq<(Seq<char>, JsonModel)>,
) -> Result<Option<NotificationRequest>, AdsError> {
    if already_registered(registered, name) {
        Ok(None)
    } else {
        match symbol_info_result(c, name) {
            Err(_) => Err(AdsError::SymbolNotFound),
            Ok(si) => match type_id_of(si.type_id) {
                None => Err(AdsError::UnsupportedType),
                Some(t) => Ok(
                    Some(
                        NotificationRequest {
                            length: si.size,
                            cycle_time: (cycle_time_ms(options) * 10000) as u32,
                            data_type_id: t,
                        },
                    ),
                ),
            },
        }
    }
}

/// The cycle time in milliseconds asked for in `options`.
pub fn notification_cycle_time_ms(options: &Vec<(String, Json)>) -> (r: u32)
    ensures
        r == cycle_time_ms(json_members_model(options@)),
{
    proof {
        lemma_json_members_model(options@);
    }
    let ghost m = json_members_model(options@);
    let key = vec!['c', 'y', 'c', 'l', 'e', '_', 't', 'i', 'm', 'e'];
    let key_text = crate::text::string_from_chars(key.as_slice());
    assert(key_text@ =~= cycle_time_key());
    let ms: u32 = match crate::json::key_index(options, &key_text) {
        Some(k) => {
            proof {
                crate::json::lemma_key_index(m, cycle_time_key(), 0);
            }
            assert(m[k as int] == (options@[k as int].0@, options@[k as int].1@));
            match &options[k].1 {
                Json::Number(n) => match n.as_u64 {
                    Some(v) => #[verifier::truncate]
                    (v as u32),
                    None => 50,
                },
                _ => 50,
            }
        },
        None => 50,
    };
    if ms < 10 {
        10
    } else {
        ms
    }
}

fn registration_core(
    collection: &AdsSymbolCollection,
    registered: &Vec<RegisteredSymbol>,
    symbol_name: &str,
    options: &Vec<(String, Json)>,
) -> (r: Option<Result<Option<NotificationRequest>, AdsError>>)
    ensures
        match r {
            None => !registration_defined(
                collection@,
                registered_view(registered@),
                symbol_name@,
                json_members_model(options@),
            ),
            Some(x) => registration_defined(
                collection@,
                registered_view(registered@),
                symbol_name@,
                json_members_model(options@),
            ) && x == registration(
                collection@,
                registered_view(registered@),
                symbol_name@,
                json_members_model(options@),
            ),
        },
{
    match get_registered_symbol_by_name(registered, symbol_name) {
        Ok(item) => {
            if item.notification_handle != 0 {
                return Some(Ok(None));
            }
        },
        Err(_) => {},
    }
    let symbol = match collection.get_symbol_info(symbol_name) {
        Err(_) => {
            return Some(Err(AdsError::SymbolNotFound));
        },
        Ok(si) => si,
    };
    let ms = notification_cycle_time_ms(options);
    if ms > 429496 {
        return None;
    }
    let t = match data_type_id_from(symbol.type_id) {
        Some(t) => t,
        None => {
            return Some(Err(AdsError::UnsupportedType));
        },
    };
    Some(Ok(Some(NotificationRequest { length: symbol.size, cycle_time: ms * 10000, data_type_id: t })))
}

/// How to register symbol `symbol_name` for notification with `options`,
/// as `registration` describes it.
pub fn registration_request(
    collection: &AdsSymbolCollection,
    registered: &Vec<RegisteredSymbol>,
    symbol_name: &str,
    options: &Vec<(String, Json)>,
) -> (r: Result<Option<NotificationRequest>, AdsError>)
    requires
        registration_defined(
            collection@,
            registered_view(registered@),
            symbol_name@,
            json_members_model(options@),
        ),
    ensures
        r == registration(
            collection@,
            registered_view(registered@),
            symbol_name@,
            json_members_model(options@),
        ),
{
    match registration_core(collection, registered, symbol_name, options) {
        Some(x) => x,
        None => Ok(None),
    }
}

/// How to register a symbol as `registration_request` decides it, or `None`
/// where deciding would fail as `registration_defined` describes.
pub fn try_registration_request(
    collection: &AdsSymbolCollection,
    registered: &Vec<RegisteredSymbol>,
    symbol_name: &str,
    options: &Vec<(String, Json)>,
) -> (r: Option<Result<Option<NotificationRequest>, AdsError>>)
    ensures
        match r {
            None => !registration_defined(
                collection@,
                registered_view(registered@),
                symbol_name@,
                json_members_model(options@),
            ),
            Some(x) => x == registration(
                collection@,
                registered_view(registered@),
                symbol_name@,
                json_members_model(options@),
            ),
        },
{
    registration_core(collection, registered, symbol_name, options)
}

/// The value read for symbol `name` from `bytes`, the symbol's value as the
/// controller sent it, with data type id `data_type`: an error where the id
/// is unknown, the symbol is not in the table, or the bytes hold no value.
/// `None` where looking up the symbol or reading the value would fail.
pub open spec fn read_value(c: CollectionModel, name: Seq<char>, data_type: u32, bytes: Seq<u8>) -> Option<
    Result<VariantModel, AdsError>,
> {
    match type_id_of(data_type) {
        None => Some(Err(AdsError::UnsupportedType)),
        Some(t) => match symbol_info_result(c, name) {
            Err(_) => Some(Err(AdsError::SymbolNotFound)),
            Ok(si) => match deser(c, si, bytes, t, max_depth()) {
                None => None,
                Some(None) => Some(Err(AdsError::ReadFailed)),
                Some(Some(v)) => Some(Ok(v)),
            },
        },
    }
}

/// The value read for a symbol, `None` where reading would fail.
pub fn try_value_from_read(
    collection: &AdsSymbolCollection,
    symbol_name: &str,
    data_type: u32,
    bytes: &Vec<u8>,
) -> (r: Option<Result<Variant, AdsError>>)
    ensures
        match r {
            None => read_value(collection@, symbol_name@, data_type, bytes@) is None,
            Some(x) => read_value(collection@, symbol_name@, data_type, bytes@) == Some(
                result_view(x),
            ),
        },
{
    let t = match data_type_id_from(data_type) {
        Some(t) => t,
        None => {
            return Some(Err(AdsError::UnsupportedType));
        },
    };
    let si = match collection.get_symbol_info(symbol_name) {
        Err(_) => {
            return Some(Err(AdsError::SymbolNotFound));
        },
        Ok(si) => si,
    };
    match try_deserialize(collection, &si, bytes, &t) {
        None => None,
        Some(None) => Some(Err(AdsError::ReadFailed)),
        Some(Some(v)) => Some(Ok(v)),
    }
}

/// The value of symbol `symbol_name` held in `bytes`, the bytes read for it
/// from the controller, whose symbol entry gives data type id `data_type`,
/// as `read_value` describes it.
pub fn value_from_read(
    collection: &AdsSymbolCollection,
    symbol_name: &str,
    data_type: u32,
    bytes: &Vec<u8>,
) -> (r: Result<Variant, AdsError>)
    requires
        read_value(collection@, symbol_name@, data_type, bytes@) is Some,
    ensures
        read_value(collection@, symbol_name@, data_type, bytes@) == Some(result_view(r)),
{
    match try_value_from_read(collection, symbol_name, data_type, bytes) {
        Some(x) => x,
        None => Err(AdsError::ReadFailed),
    }
}

/// The bytes written to symbol `name` for the value `v`: those `serialize`
/// gives for the symbol's information, or an error where the symbol is not
/// in the table.
pub open spec fn write_bytes(c: CollectionModel, name: Seq<char>, v: VariantModel) -> Result<
    Seq<u8>,
    AdsError,
> {
    match symbol_info_result(c, name) {
        Err(_) => Err(AdsError::SymbolNotFound),
        Ok(si) => ser(c, si, v)->0,
    }
}

/// The bytes to write to symbol `symbol_name` for `value`, in the layout
/// the symbol table describes, as `write_bytes` describes them.
pub fn bytes_for_write(collection: &AdsSymbolCollection, symbol_name: &str, value: &Variant) -> (r:
    Result<Vec<u8>, AdsError>)
    ensures
        write_bytes(collection@, symbol_name@, value@) == bytes_view(r),
{
    match collection.get_symbol_info(symbol_name) {
        Err(_) => Err(AdsError::SymbolNotFound),
        Ok(si) => serialize(collection, &si, value),
    }
}

/// The value written to symbol `name` for the JSON value `j`: the one
/// `convert_json_to_variant` gives for the symbol's information, or an
/// error where the symbol is not in the table.
pub open spec fn json_write_value(c: CollectionModel, name: Seq<char>, j: JsonModel) -> Result<
    VariantModel,
    AdsError,
> {
    match symbol_info_result(c, name) {
        Err(_) => Err(AdsError::SymbolNotFound),
        Ok(si) => json_for_symbol(c, si, j)->0,
    }
}

/// The variant value to write to symbol `symbol_name` for the JSON value
/// `value`, as `json_write_value` describes it.
pub fn variant_for_json_write(collection: &AdsSymbolCollection, symbol_name: &str, value: &Json) -> (r:
    Result<Variant, AdsError>)
    ensures
        json_write_value(collection@, symbol_name@, value@) == result_view(r),
{
    match collection.get_symbol_info(symbol_name) {
        Err(_) => Err(AdsError::SymbolNotFound),
        Ok(si) => convert_json_to_variant(collection, value, &si),
    }
}

/// The symbol registered with handle `id` is a structure, registered with
/// data type `BigType`, found by its name in the table, and the structure
/// value with members `ms` fits it.
pub open spec fn registered_structure(
    c: CollectionModel,
    registered: Seq<RegisteredSymbolModel>,
    id: u32,
    ms: Members,
) -> bool {
    match handle_index_from(registered, id, 0) {
        Some(i) => registered[i].data_type_id == AdsDataTypeId::BigType && match symbol_info_result(
            c,
            registered[i].name,
        ) {
            Ok(si) => struct_fits(c, si, ms),
            Err(_) => false,
        },
        None => false,
    }
}

/// The change notification of a structure symbol registered for
/// notification carries, under the symbol's name, the structure value whose
/// bytes the event holds.
pub proof fn law_structure_notification(
    c: CollectionModel,
    registered: Seq<RegisteredSymbolModel>,
    info: RouterNotificationEventInfo,
    ms: Members,
)
    requires
        info.event_type == EventInfoType::DataChange,
        registered_structure(c, registered, info.id, ms),
        match handle_index_from(registered, info.id, 0) {
            Some(i) => match symbol_info_result(c, registered[i].name) {
                Ok(si) => ser(c, si, VariantModel::Object(ms)) == Some(
                    Ok::<Seq<u8>, AdsError>(info.data@),
                ),
                Err(_) => false,
            },
            None => false,
        },
    ensures
        match handle_index_from(registered, info.id, 0) {
            Some(i) => event_outcome(c, registered, info) == Some(
                NotificationOutcome::DataChange(registered[i].name, VariantModel::Object(ms)),
            ),
            None => false,
        },
{
    let i = handle_index_from(registered, info.id, 0)->0;
    let si = symbol_info_result(c, registered[i].name)->Ok_0;
    law_struct_roundtrip(c, si, ms);
}

} // verus!
