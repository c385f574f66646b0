//! Types exchanged between the client, the router and the user: states of
//! the target and of the router, notification events, fixed-length strings
//! and the addresses and symbol entries of the ADS interface.
use crate::text::string_from_utf8;
use crate::variant::Variant;
use std::string::FromUtf8Error;
use std::time::Instant;
use vstd::prelude::*;
use vstd::string::StringSliceAdditionalSpecFns;
use vstd::utf8::{decode_utf8, encode_utf8, valid_utf8};

verus! {

/// The kind of event that is passed from the router callbacks to the client.
#[derive(Debug, Clone, Copy, PartialEq, Eq, Structural)]
pub enum EventInfoType {
    Invalid,
    /// The value of a symbol in the target device has changed.
    /// When a symbol is registered for notification, a first notification
    /// carries its current value.
    DataChange,
    /// The state of the target device (RUN or STOP) has changed.
    AdsState,
    /// The state of the ADS router has changed. There is no first
    /// notification when a connection is made.
    RouterState,
    /// The symbol table in the target device has changed; handles and
    /// notifications must be registered again.
    SymbolTableChange,
}

impl EventInfoType {
    /// The number that identifies each kind of event.
    pub open spec fn spec_code(self) -> u32 {
        match self {
            EventInfoType::Invalid => 0,
            EventInfoType::DataChange => 1,
            EventInfoType::AdsState => 2,
            EventInfoType::RouterState => 3,
            EventInfoType::SymbolTableChange => 10,
        }
    }

    /// The number that identifies this kind of event.
    pub fn code(&self) -> (r: u32)
        ensures
            r == self.spec_code(),
    {
        match self {
            EventInfoType::Invalid => 0,
            EventInfoType::DataChange => 1,
            EventInfoType::AdsState => 2,
            EventInfoType::RouterState => 3,
            EventInfoType::SymbolTableChange => 10,
        }
    }
}

/// The details of an event from the ADS router, passed from the router's
/// callback to the client.
#[derive(Debug)]
pub struct RouterNotificationEventInfo {
    /// The kind of event.
    pub event_type: EventInfoType,
    /// Id of the symbol about which the notification was received.
    pub id: u32,
    /// The bytes received from the ADS router.
    pub data: Vec<u8>,
}

impl Clone for RouterNotificationEventInfo {
    fn clone(&self) -> (r: Self)
        ensures
            r.event_type == self.event_type,
            r.id == self.id,
            r.data@ == self.data@,
    {
        let data = self.data.clone();
        assert(data@ =~= self.data@);
        RouterNotificationEventInfo { event_type: self.event_type, id: self.id, data }
    }
}

/// `std::time::Instant`, a moment of the monotonic clock; it is only carried
/// through, never looked into.
#[verifier::external_type_specification]
#[verifier::external_body]
pub struct ExInstant(Instant);

/// `Instant::now`: the current moment of the monotonic clock. Nothing is
/// stated of the moment it returns.
#[verifier::external_body]
fn instant_now() -> Instant {
    Instant::now()
}

/// What the client tells its owner: a changed value, a changed state of the
/// target or of the router, or a changed symbol table, with the moment it
/// was received.
pub struct AdsClientNotification {
    /// The kind of event.
    pub event_type: EventInfoType,
    /// When the notification was received.
    pub timestamp: Instant,
    /// The name of the symbol whose value changed; empty for other events.
    pub name: String,
    /// The value received.
    pub value: Variant,
}

impl Default for AdsClientNotification {
    /// An invalid event with no name and a null value, stamped now.
    fn default() -> (r: Self)
        ensures
            r.event_type == EventInfoType::Invalid,
            r.name@.len() == 0,
            r.value == Variant::Null,
    {
        AdsClientNotification {
            event_type: EventInfoType::Invalid,
            timestamp: instant_now(),
            name: String::new(),
            value: Variant::Null,
        }
    }
}

impl AdsClientNotification {
    /// The event that symbol `name` took the value `val`, stamped now.
    pub fn new_datachange(name: &str, val: &Variant) -> (r: Self)
        ensures
            r.event_type == EventInfoType::DataChange,
            r.name@ == name@,
            r.value@ == val@,
    {
        AdsClientNotification {
            event_type: EventInfoType::DataChange,
            timestamp: instant_now(),
            name: name.to_owned(),
            value: val.clone(),
        }
    }

    /// The event that the target entered ADS state `state`, stamped now.
    pub fn new_ads_state(state: i16) -> (r: Self)
        ensures
            r.event_type == EventInfoType::AdsState,
            r.name@.len() == 0,
            r.value == Variant::Int16(state),
    {
        AdsClientNotification {
            event_type: EventInfoType::AdsState,
            timestamp: instant_now(),
            name: String::new(),
            value: Variant::Int16(state),
        }
    }

    /// The event that the router entered state `state`, stamped now.
    pub fn new_router_state(state: i16) -> (r: Self)
        ensures
            r.event_type == EventInfoType::RouterState,
            r.name@.len() == 0,
            r.value == Variant::Int16(state),
    {
        AdsClientNotification {
            event_type: EventInfoType::RouterState,
            timestamp: instant_now(),
            name: String::new(),
            value: Variant::Int16(state),
        }
    }

    /// The event that the symbol table of the target changed, stamped now.
    pub fn new_symbol_table() -> (r: Self)
        ensures
            r.event_type == EventInfoType::SymbolTableChange,
            r.name@.len() == 0,
            r.value == Variant::Null,
    {
        AdsClientNotification {
            event_type: EventInfoType::SymbolTableChange,
            timestamp: instant_now(),
            name: String::new(),
            value: Variant::Null,
        }
    }
}

/// The ADS state of a target device: whether the PLC runs or is stopped.
#[derive(Debug, Clone, Copy, PartialEq, Eq, Structural)]
pub enum AdsState {
    /// No information is known about the target device.
    Unknown,
    /// The target device is in run mode.
    Running,
    /// The target device is stopped.
    Stopped,
}

/// The ADS state that a state code stands for.
pub open spec fn ads_state_of(code: int) -> AdsState {
    if code == 5 {
        AdsState::Running
    } else if code == 6 {
        AdsState::Stopped
    } else {
        AdsState::Unknown
    }
}

/// The ADS state that a variant holding a state code stands for: integers
/// of 8, 16 and 32 bits are read, anything else is unknown.
pub open spec fn ads_state_of_variant(v: Variant) -> AdsState {
    match v {
        Variant::Int32(c) => ads_state_of(c as int),
        Variant::Int16(c) => ads_state_of(c as int),
        Variant::Byte(c) => ads_state_of(c as int),
        Variant::SByte(c) => ads_state_of(c as int),
        _ => AdsState::Unknown,
    }
}

impl AdsState {
    /// The code of this state on the wire.
    pub open spec fn spec_code(self) -> i16 {
        match self {
            AdsState::Unknown => -1i16,
            AdsState::Running => 5,
            AdsState::Stopped => 6,
        }
    }

    /// The code of this state on the wire.
    pub fn code(&self) -> (r: i16)
        ensures
            r == self.spec_code(),
    {
        match self {
            AdsState::Unknown => -1,
            AdsState::Running => 5,
            AdsState::Stopped => 6,
        }
    }
}

/// Every ADS state is read back from its own code.
pub proof fn law_ads_state_code(st: AdsState)
    ensures
        ads_state_of(st.spec_code() as int) == st,
{
}

/// The value of an ADS state notification for code `s` reads as the state of `s`.
pub proof fn law_ads_state_notification(s: i16)
    ensures
        ads_state_of_variant(Variant::Int16(s)) == ads_state_of(s as int),
{
}

impl From<i16> for AdsState {
    fn from(value: i16) -> (r: Self) {
        if value == 5 {
            AdsState::Running
        } else if value == 6 {
            AdsState::Stopped
        } else {
            AdsState::Unknown
        }
    }
}

impl vstd::std_specs::convert::FromSpecImpl<i16> for AdsState {
    open spec fn obeys_from_spec() -> bool {
        true
    }

    open spec fn from_spec(value: i16) -> AdsState {
        ads_state_of(value as int)
    }
}

impl From<Variant> for AdsState {
    fn from(value: Variant) -> (r: Self) {
        match value {
            Variant::Int32(v) => if v == 5 {
                AdsState::Running
            } else if v == 6 {
                AdsState::Stopped
            } else {
                AdsState::Unknown
            },
            Variant::Int16(v) => AdsState::from(v),
            Variant::Byte(v) => AdsState::from(v as i16),
            Variant::SByte(v) => AdsState::from(v as i16),
            _ => AdsState::Unknown,
        }
    }
}

impl vstd::std_specs::convert::FromSpecImpl<Variant> for AdsState {
    open spec fn obeys_from_spec() -> bool {
        true
    }

    open spec fn from_spec(value: Variant) -> AdsState {
        ads_state_of_variant(value)
    }
}

/// The state of the ADS router. Router callbacks come only when the state
/// changes; there is none when a connection is made.
#[derive(Debug, Clone, Copy, PartialEq, Eq, Structural)]
pub enum RouterState {
    /// No information is known about the router.
    Unknown,
    /// The router stopped.
    Stopped,
    /// The router started.
    Started,
    /// The router has been removed.
    Removed,
}

/// The router state that a state code stands for.
pub open spec fn router_state_of(code: int) -> RouterState {
    if code == 1 {
        RouterState::Started
    } else if code == 0 {
        RouterState::Stopped
    } else if code == 2 {
        RouterState::Removed
    } else {
        RouterState::Unknown
    }
}

/// The router state that a variant holding a state code stands for:
/// integers of 8, 16 and 32 bits are read, anything else is unknown.
pub open spec fn router_state_of_variant(v: Variant) -> RouterState {
    match v {
        Variant::Int32(c) => router_state_of(c as int),
        Variant::Int16(c) => router_state_of(c as int),
        Variant::Byte(c) => router_state_of(c as int),
        Variant::SByte(c) => router_state_of(c as int),
        _ => RouterState::Unknown,
    }
}

impl RouterState {
    /// The code of this state on the wire.
    pub open spec fn spec_code(self) -> i16 {
        match self {
            RouterState::Unknown => -1i16,
            RouterState::Stopped => 0,
            RouterState::Started => 1,
            RouterState::Removed => 2,
        }
    }

    /// The code of this state on the wire.
    pub fn code(&self) -> (r: i16)
        ensures
            r == self.spec_code(),
    {
        match self {
            RouterState::Unknown => -1,
            RouterState::Stopped => 0,
            RouterState::Started => 1,
            RouterState::Removed => 2,
        }
    }
}

/// Every router state is read back from its own code.
pub proof fn law_router_state_code(st: RouterState)
    ensures
        router_state_of(st.spec_code() as int) == st,
{
}

/// The value of a router state notification for code `s` reads as the state of `s`.
pub proof fn law_router_state_notification(s: i16)
    ensures
        router_state_of_variant(Variant::Int16(s)) == router_state_of(s as int),
{
}

impl From<i16> for RouterState {
    fn from(value: i16) -> (r: Self) {
        if value == 1 {
            RouterState::Started
        } else if value == 0 {
            RouterState::Stopped
        } else if value == 2 {
            RouterState::Removed
        } else {
            RouterState::Unknown
        }
    }
}

impl vstd::std_specs::convert::FromSpecImpl<i16> for RouterState {
    open spec fn obeys_from_spec() -> bool {
        true
    }

    open spec fn from_spec(value: i16) -> RouterState {
        router_state_of(value as int)
    }
}

impl From<Variant> for RouterState {
    fn from(value: Variant) -> (r: Self) {
        match value {
            Variant::Int32(v) => if v == 1 {
                RouterState::Started
            } else if v == 0 {
                RouterState::Stopped
            } else if v == 2 {
                RouterState::Removed
            } else {
                RouterState::Unknown
            },
            Variant::Int16(v) => RouterState::from(v),
            Variant::Byte(v) => RouterState::from(v as i16),
            Variant::SByte(v) => RouterState::from(v as i16),
            _ => RouterState::Unknown,
        }
    }
}

impl vstd::std_specs::convert::FromSpecImpl<Variant> for RouterState {
    open spec fn obeys_from_spec() -> bool {
        true
    }

    open spec fn from_spec(value: Variant) -> RouterState {
        router_state_of_variant(value)
    }
}

/// The position of the first zero byte in `s`.
pub open spec fn first_zero(s: Seq<u8>) -> Option<int> {
    if exists|i: int| 0 <= i < s.len() && s[i] == 0 {
        Some(choose|i: int| 0 <= i < s.len() && s[i] == 0 && forall|j: int| 0 <= j < i ==> s[j] != 0)
    } else {
        None
    }
}

/// The position of the first zero byte in `s`.
pub fn position_of_zero(s: &[u8]) -> (r: Option<usize>)
    ensures
        match r {
            Some(i) => i < s@.len() && s@[i as int] == 0 && forall|j: int| 0 <= j < i ==> s@[j] != 0,
            None => forall|j: int| 0 <= j < s@.len() ==> s@[j] != 0,
        },
        r matches Some(i) ==> first_zero(s@) == Some(i as int),
        r is None ==> first_zero(s@) is None,
{
    let mut i: usize = 0;
    while i < s.len()
        invariant
            0 <= i <= s@.len(),
            forall|j: int| 0 <= j < i ==> s@[j] != 0,
        decreases s@.len() - i,
    {
        if s[i] == 0 {
            let ghost k = choose|k: int| 0 <= k < s@.len() && s@[k] == 0 && forall|j: int|
                0 <= j < k ==> s@[j] != 0;
            assert(k == i) by {
                if k < i {
                } else if k > i {
                }
            }
            return Some(i);
        }
        i += 1;
    }
    None
}

/// The fixed-length string type of the PLC, `T_MaxString`: 256 bytes of
/// text, ended by the first zero byte. Strings declared shorter in the PLC
/// do not fit this type.
#[derive(Debug, Clone, Copy)]
pub struct MaxString(pub [u8; 256]);

impl Default for MaxString {
    fn default() -> (r: Self)
        ensures
            forall|i: int| 0 <= i < 256 ==> r.0@[i] == 0,
    {
        MaxString([0u8; 256])
    }
}

/// The bytes of a fixed-length string holding `b`: its first 255 bytes,
/// then zeros up to 256.
pub open spec fn max_string_bytes(b: Seq<u8>) -> Seq<u8> {
    Seq::new(256, |i: int| if i < b.len() && i < 255 { b[i] } else { 0u8 })
}

/// The text held in the bytes `a` of a fixed-length string: the bytes
/// before the first zero read as UTF-8, or empty text when no byte is zero;
/// `None` where those bytes are not valid UTF-8.
pub open spec fn max_string_text(a: Seq<u8>) -> Option<Seq<char>> {
    match first_zero(a) {
        Some(k) => if valid_utf8(a.subrange(0, k)) {
            Some(decode_utf8(a.subrange(0, k)))
        } else {
            None
        },
        None => Some(Seq::empty()),
    }
}

/// A text of at most 255 bytes with no zero byte, stored in a fixed-length
/// string, is read back unchanged.
pub proof fn law_max_string_roundtrip(t: Seq<char>)
    requires
        encode_utf8(t).len() <= 255,
        forall|i: int| 0 <= i < encode_utf8(t).len() ==> encode_utf8(t)[i] != 0,
    ensures
        max_string_text(max_string_bytes(encode_utf8(t))) == Some(t),
{
    let b = encode_utf8(t);
    let a = max_string_bytes(b);
    let n = b.len() as int;
    assert(a[n] == 0);
    assert(forall|j: int| 0 <= j < n ==> a[j] == b[j]);
    assert(exists|i: int| 0 <= i < a.len() && a[i] == 0);
    let k = choose|i: int| 0 <= i < a.len() && a[i] == 0 && forall|j: int| 0 <= j < i ==> a[j] != 0;
    assert(0 <= n < a.len() && a[n] == 0 && forall|j: int| 0 <= j < n ==> a[j] != 0);
    assert(k == n) by {
        if k < n {
            assert(a[k] == b[k]);
        } else if k > n {
            assert(a[n] != 0);
        }
    }
    assert(a.subrange(0, n) =~= b);
    vstd::utf8::encode_utf8_valid_utf8(t);
    vstd::utf8::encode_utf8_decode_utf8(t);
}

/// The UTF-8 bytes of two texts one after the other are those of the first
/// followed by those of the second.
pub proof fn lemma_encode_concat(p: Seq<char>, q: Seq<char>)
    ensures
        encode_utf8(p + q) == encode_utf8(p) + encode_utf8(q),
    decreases p.len(),
{
    if p.len() > 0 {
        assert((p + q).drop_first() =~= p.drop_first() + q);
        assert((p + q)[0] == p[0]);
        lemma_encode_concat(p.drop_first(), q);
    } else {
        assert(p + q =~= q);
    }
}

/// A text longer than 255 bytes with no zero byte, stored in a fixed-length
/// string, is read back as its first 255 bytes, where those bytes end with
/// a whole character: the first `m` characters of the text.
pub proof fn law_max_string_cut(t: Seq<char>, m: int)
    requires
        0 <= m <= t.len(),
        encode_utf8(t.take(m)).len() == 255,
        forall|i: int| 0 <= i < encode_utf8(t).len() ==> encode_utf8(t)[i] != 0,
    ensures
        max_string_text(max_string_bytes(encode_utf8(t))) == Some(t.take(m)),
{
    let b = encode_utf8(t);
    let p = encode_utf8(t.take(m));
    assert(t =~= t.take(m) + t.skip(m));
    lemma_encode_concat(t.take(m), t.skip(m));
    assert(b.len() >= 255);
    assert(forall|j: int| 0 <= j < 255 ==> b[j] == p[j]);
    let a = max_string_bytes(b);
    let n = 255int;
    assert(a[n] == 0);
    assert(forall|j: int| 0 <= j < n ==> a[j] == b[j]);
    assert(exists|i: int| 0 <= i < a.len() && a[i] == 0);
    let k = choose|i: int| 0 <= i < a.len() && a[i] == 0 && forall|j: int| 0 <= j < i ==> a[j] != 0;
    assert(0 <= n < a.len() && a[n] == 0 && forall|j: int| 0 <= j < n ==> a[j] != 0);
    assert(k == n) by {
        if k < n {
            assert(a[k] == b[k]);
        } else if k > n {
            assert(a[n] != 0);
        }
    }
    assert(a.subrange(0, n) =~= p);
    vstd::utf8::encode_utf8_valid_utf8(t.take(m));
    vstd::utf8::encode_utf8_decode_utf8(t.take(m));
}

impl MaxString {
    /// The text of the string: the bytes before the first zero read as UTF-8,
    /// or an empty string when no byte is zero.
    pub fn to_string(&self) -> (r: Result<String, FromUtf8Error>)
        ensures
            match r {
                Ok(s) => max_string_text(self.0@) == Some(s@),
                Err(_) => max_string_text(self.0@) is None,
            },
    {
        let bytes: &[u8] = self.0.as_slice();
        match position_of_zero(bytes) {
            Some(end) => string_from_utf8(&bytes[0..end]),
            None => Ok(String::new()),
        }
    }

    /// The string holding the first 255 bytes of `s`, the rest zero.
    pub fn from_string(s: &str) -> (r: Self)
        ensures
            r.0@ == max_string_bytes(s.spec_bytes()),
    {
        let bytes = s.as_bytes();
        let n: usize = if bytes.len() < 255 {
            bytes.len()
        } else {
            255
        };
        let mut array = [0u8; 256];
        let mut i: usize = 0;
        while i < n
            invariant
                0 <= i <= n,
                n <= 255,
                n <= bytes@.len(),
                bytes@ == s.spec_bytes(),
                n == bytes@.len() || n == 255,
                forall|j: int| 0 <= j < i ==> array@[j] == bytes@[j],
                forall|j: int| i <= j < 256 ==> array@[j] == 0,
            decreases n - i,
        {
            array[i] = bytes[i];
            i += 1;
        }
        assert(array@ =~= max_string_bytes(s.spec_bytes()));
        MaxString(array)
    }
}

} // verus!
