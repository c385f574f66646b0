//! The symbols registered for notification when their value changes, and
//! the ids that tell client instances apart.
use crate::ads_data::AdsDataTypeId;
use crate::error::AdsError;
use crate::json::{lemma_json_members_model, json_members_model, Json, JsonModel};
use vstd::prelude::*;

verus! {

/// A symbol registered for notification when its value changes: the handle
/// of the symbol, the handle of the notification, the symbol's name and
/// data type, and the options it was registered with.
#[derive(Debug, PartialEq)]
pub struct RegisteredSymbol {
    pub handle: u32,
    pub notification_handle: u32,
    pub name: String,
    pub data_type_id: AdsDataTypeId,
    pub options: Vec<(String, Json)>,
}

/// The mathematical value of a [`RegisteredSymbol`].
pub struct RegisteredSymbolModel {
    pub handle: u32,
    pub notification_handle: u32,
    pub name: Seq<char>,
    pub data_type_id: AdsDataTypeId,
    pub options: Seq<(Seq<char>, JsonModel)>,
}

impl View for RegisteredSymbol {
    type V = RegisteredSymbolModel;

    open spec fn view(&self) -> RegisteredSymbolModel {
        RegisteredSymbolModel {
            handle: self.handle,
            notification_handle: self.notification_handle,
            name: self.name@,
            data_type_id: self.data_type_id,
            options: json_members_model(self.options@),
        }
    }
}

impl Clone for RegisteredSymbol {
    fn clone(&self) -> (r: Self)
        ensures
            r@ == self@,
    {
        let mut options: Vec<(String, Json)> = Vec::new();
        let mut i: usize = 0;
        while i < self.options.len()
            invariant
                0 <= i <= self.options@.len(),
                options@.len() == i,
                forall|q: int|
                    0 <= q < i ==> #[trigger] options@[q].0@ == self.options@[q].0@
                        && options@[q].1@ == self.options@[q].1@,
            decreases self.options@.len() - i,
        {
            let v = self.options[i].1.clone();
            options.push((self.options[i].0.clone(), v));
            i += 1;
        }
        proof {
            lemma_json_members_model(options@);
            lemma_json_members_model(self.options@);
            assert(json_members_model(options@) =~= json_members_model(self.options@));
        }
        RegisteredSymbol {
            handle: self.handle,
            notification_handle: self.notification_handle,
            name: self.name.clone(),
            data_type_id: self.data_type_id,
            options,
        }
    }
}

/// The views of a list of registered symbols.
pub open spec fn registered_view(v: Seq<RegisteredSymbol>) -> Seq<RegisteredSymbolModel> {
    Seq::new(v.len(), |i: int| v[i]@)
}

/// The position of the first symbol of `s` at or after `i` named `k`.
pub open spec fn name_index_from(s: Seq<RegisteredSymbolModel>, k: Seq<char>, i: int) -> Option<int>
    decreases s.len() - i,
{
    if i < 0 || i >= s.len() {
        None
    } else if s[i].name == k {
        Some(i)
    } else {
        name_index_from(s, k, i + 1)
    }
}

/// The position of the first symbol of `s` at or after `i` with handle `h`.
pub open spec fn handle_index_from(s: Seq<RegisteredSymbolModel>, h: u32, i: int) -> Option<int>
    decreases s.len() - i,
{
    if i < 0 || i >= s.len() {
        None
    } else if s[i].handle == h {
        Some(i)
    } else {
        handle_index_from(s, h, i + 1)
    }
}

/// A position found by `name_index_from` holds a symbol of that name.
pub proof fn lemma_name_index(s: Seq<RegisteredSymbolModel>, k: Seq<char>, i: int)
    requires
        0 <= i,
    ensures
        name_index_from(s, k, i) matches Some(p) ==> i <= p < s.len() && s[p].name == k && forall|
            q: int,
        | i <= q < p ==> s[q].name != k,
        name_index_from(s, k, i) is None ==> forall|q: int| i <= q < s.len() ==> s[q].name != k,
    decreases s.len() - i,
{
    if i < s.len() && s[i].name != k {
        lemma_name_index(s, k, i + 1);
    }
}

/// The position of the first registered symbol named `k`.
fn find_name(symbols: &Vec<RegisteredSymbol>, k: &str) -> (r: Option<usize>)
    ensures
        match r {
            Some(i) => i < symbols@.len() && name_index_from(registered_view(symbols@), k@, 0)
                == Some(i as int),
            None => name_index_from(registered_view(symbols@), k@, 0) is None,
        },
{
    let key = k.to_owned();
    let ghost sv = registered_view(symbols@);
    let mut i: usize = 0;
    while i < symbols.len()
        invariant
            0 <= i <= symbols@.len(),
            key@ == k@,
            sv == registered_view(symbols@),
            name_index_from(sv, k@, 0) == name_index_from(sv, k@, i as int),
        decreases symbols@.len() - i,
    {
        assert(sv[i as int].name == symbols@[i as int].name@);
        if symbols[i].name == key {
            return Some(i);
        }
        i += 1;
    }
    None
}

/// The first symbol of `symbols` registered under `symbol_name`; an error if none is.
pub fn get_registered_symbol_by_name(symbols: &Vec<RegisteredSymbol>, symbol_name: &str) -> (r:
    Result<RegisteredSymbol, AdsError>)
    ensures
        match name_index_from(registered_view(symbols@), symbol_name@, 0) {
            Some(i) => 0 <= i < symbols@.len() && (r matches Ok(s) && s@ == symbols@[i]@),
            None => r == Err::<RegisteredSymbol, AdsError>(AdsError::NotRegistered),
        },
{
    match find_name(symbols, symbol_name) {
        Some(i) => Ok(symbols[i].clone()),
        None => Err(AdsError::NotRegistered),
    }
}

/// Removes the first symbol of `symbols` registered under `symbol_name`, the
/// others keeping their order; an error, with nothing removed, if none is.
pub fn remove_registered_symbol_by_name(symbols: &mut Vec<RegisteredSymbol>, symbol_name: &str) -> (r:
    Result<(), AdsError>)
    ensures
        match name_index_from(registered_view(old(symbols)@), symbol_name@, 0) {
            Some(i) => 0 <= i < old(symbols)@.len() && r is Ok && final(symbols)@ == old(
                symbols,
            )@.remove(i),
            None => r == Err::<(), AdsError>(AdsError::NotRegistered) && final(symbols)@ == old(
                symbols,
            )@,
        },
{
    match find_name(symbols, symbol_name) {
        Some(i) => {
            symbols.remove(i);
            Ok(())
        },
        None => Err(AdsError::NotRegistered),
    }
}

/// The first symbol of `symbols` registered with symbol handle `handle`; an
/// error if none is.
pub fn get_registered_symbol_by_handle(symbols: &Vec<RegisteredSymbol>, handle: u32) -> (r: Result<
    RegisteredSymbol,
    AdsError,
>)
    ensures
        match handle_index_from(registered_view(symbols@), handle, 0) {
            Some(i) => 0 <= i < symbols@.len() && (r matches Ok(s) && s@ == symbols@[i]@),
            None => r == Err::<RegisteredSymbol, AdsError>(AdsError::NotRegistered),
        },
{
    let ghost sv = registered_view(symbols@);
    let mut i: usize = 0;
    while i < symbols.len()
        invariant
            0 <= i <= symbols@.len(),
            sv == registered_view(symbols@),
            handle_index_from(sv, handle, 0) == handle_index_from(sv, handle, i as int),
        decreases symbols@.len() - i,
    {
        if symbols[i].handle == handle {
            return Ok(symbols[i].clone());
        }
        i += 1;
    }
    Err(AdsError::NotRegistered)
}

/// The symbol registered last, if any is.
pub fn get_last_registered_symbol(symbols: &Vec<RegisteredSymbol>) -> (r: Option<RegisteredSymbol>)
    ensures
        symbols@.len() == 0 ==> r is None,
        symbols@.len() > 0 ==> (r matches Some(s) && s@ == symbols@.last()@),
{
    let n = symbols.len();
    if n > 0 {
        Some(symbols[n - 1].clone())
    } else {
        None
    }
}

/// Adds `s` after the symbols registered so far.
pub fn add_registered_symbol(symbols: &mut Vec<RegisteredSymbol>, s: RegisteredSymbol)
    ensures
        final(symbols)@ == old(symbols)@.push(s),
{
    symbols.push(s);
}

/// Hands out the id held in `counter` and moves the counter on by one,
/// wrapping around past the largest `u32`: no id comes twice before the
/// counter has gone all the way round.
pub fn get_new_id(counter: &mut u32) -> (r: u32)
    ensures
        r == *old(counter),
        *final(counter) == next_id(*old(counter)),
{
    let id = *counter;
    *counter = if id == u32::MAX {
        0
    } else {
        id + 1
    };
    id
}

/// The counter after `get_new_id` hands out the id `c`.
pub open spec fn next_id(c: u32) -> u32 {
    if c == u32::MAX {
        0
    } else {
        (c + 1) as u32
    }
}

/// The id handed out by call number `k` (from zero) of `get_new_id` on a
/// counter that starts at `c`.
pub open spec fn id_after(c: u32, k: nat) -> u32
    decreases k,
{
    if k == 0 {
        c
    } else {
        id_after(next_id(c), (k - 1) as nat)
    }
}

/// Call number `k` hands out `c + k` taken modulo 2^32.
pub proof fn lemma_id_after(c: u32, k: nat)
    ensures
        id_after(c, k) as int == (c as int + k) % 0x1_0000_0000,
    decreases k,
{
    if k > 0 {
        let m: int = 0x1_0000_0000;
        lemma_id_after(next_id(c), (k - 1) as nat);
        assert(next_id(c) as int == (c as int + 1) % m);
        vstd::arithmetic::div_mod::lemma_add_mod_noop(c as int + 1, (k - 1) as int, m);
        vstd::arithmetic::div_mod::lemma_add_mod_noop_right(
            (c as int + 1) % m,
            (k - 1) as int,
            m,
        );
    }
}

/// No id is handed out twice before the counter has gone all the way round:
/// calls `i` and `j` of fewer than 2^32 successive calls give different ids.
pub proof fn law_ids_distinct(c: u32, i: nat, j: nat)
    requires
        i < j < 0x1_0000_0000,
    ensures
        id_after(c, i) != id_after(c, j),
{
    lemma_id_after(c, i);
    lemma_id_after(c, j);
    let m: int = 0x1_0000_0000;
    let a: int = c as int + i;
    let b: int = c as int + j;
    if id_after(c, i) == id_after(c, j) {
        vstd::arithmetic::div_mod::lemma_fundamental_div_mod(a, m);
        vstd::arithmetic::div_mod::lemma_fundamental_div_mod(b, m);
        let qa = a / m;
        let qb = b / m;
        assert(b - a == m * (qb - qa));
        assert(false) by (nonlinear_arith)
            requires
                b - a == m * (qb - qa),
                0 < b - a < m,
                m > 0,
        ;
    }
}

/// A symbol added under a name no registered symbol has is the one found by that name.
pub proof fn law_found_after_add(symbols: Seq<RegisteredSymbol>, s: RegisteredSymbol)
    requires
        name_index_from(registered_view(symbols), s@.name, 0) is None,
    ensures
        name_index_from(registered_view(symbols.push(s)), s@.name, 0) == Some(symbols.len() as int),
        handle_index_from(registered_view(symbols.push(s)), s@.handle, 0) matches Some(i)
            && registered_view(symbols.push(s))[i].handle == s@.handle,
{
    let before = registered_view(symbols);
    let after = registered_view(symbols.push(s));
    lemma_name_index(before, s@.name, 0);
    assert(after.len() == symbols.len() + 1);
    assert forall|q: int| 0 <= q < symbols.len() implies after[q] == before[q] by {}
    lemma_name_index(after, s@.name, 0);
    assert(after[symbols.len() as int] == s@);
    lemma_handle_index(after, s@.handle, 0);
    assert(handle_index_from(after, s@.handle, 0) is Some) by {
        if handle_index_from(after, s@.handle, 0) is None {
            assert(after[symbols.len() as int].handle == s@.handle);
        }
    }
}

/// Removing by name a symbol just added under a name no other registered
/// symbol has leaves the registered symbols as they were.
pub proof fn law_remove_after_add(symbols: Seq<RegisteredSymbol>, s: RegisteredSymbol)
    requires
        name_index_from(registered_view(symbols), s@.name, 0) is None,
    ensures
        name_index_from(registered_view(symbols.push(s)), s@.name, 0) == Some(symbols.len() as int),
        symbols.push(s).remove(symbols.len() as int) == symbols,
{
    law_found_after_add(symbols, s);
    assert(symbols.push(s).remove(symbols.len() as int) =~= symbols);
}

/// A position found by `handle_index_from` holds a symbol with that handle.
pub proof fn lemma_handle_index(s: Seq<RegisteredSymbolModel>, h: u32, i: int)
    requires
        0 <= i,
    ensures
        handle_index_from(s, h, i) matches Some(p) ==> i <= p < s.len() && s[p].handle == h,
        handle_index_from(s, h, i) is None ==> forall|q: int| i <= q < s.len() ==> s[q].handle != h,
    decreases s.len() - i,
{
    if i < s.len() && s[i].handle != h {
        lemma_handle_index(s, h, i + 1);
    }
}

} // verus!
