//! Addresses of ADS devices and the symbol entry record of the ADS interface.
use crate::text::{
    char_is_whitespace, chars_of, digits_value, is_digit, is_white_space, parse_u8,
    parses_unsigned, split_chars, split_on, split_scan, trim, trim_end, trim_start,
    unsigned_digits,
};
use vstd::prelude::*;

verus! {

/// The six bytes of an AMS net id, such as `192.168.127.1.1.1`.
#[derive(Debug, Clone, Copy, PartialEq, Eq)]
pub struct AmsNetId {
    pub b: [u8; 6],
}

impl AmsNetId {
    /// The net id `0.0.0.0.0.0`.
    pub fn new() -> (r: Self)
        ensures
            forall|i: int| 0 <= i < 6 ==> r.b@[i] == 0,
    {
        AmsNetId { b: [0u8; 6] }
    }
}

/// An AMS address: the net id of a device and the port of a task on it.
#[allow(non_snake_case)]
#[derive(Debug, Clone, Copy, PartialEq, Eq)]
pub struct AmsAddr {
    pub netId: AmsNetId,
    pub port: u16,
}

impl AmsAddr {
    /// The address with net id `0.0.0.0.0.0` and the default PLC port 851.
    pub fn new() -> (r: Self)
        ensures
            forall|i: int| 0 <= i < 6 ==> r.netId.b@[i] == 0,
            r.port == 851,
    {
        AmsAddr { netId: AmsNetId::new(), port: 851 }
    }
}

impl Default for AmsAddr {
    /// The all-zero address, port 0 included.
    fn default() -> (r: Self)
        ensures
            forall|i: int| 0 <= i < 6 ==> r.netId.b@[i] == 0,
            r.port == 0,
    {
        AmsAddr { netId: AmsNetId::new(), port: 0 }
    }
}

/// The description of a symbol in the PLC as the ADS interface returns it:
/// where its data lives, its size and type, and the lengths of its name,
/// type name and comment.
#[allow(non_snake_case)]
#[derive(Debug, Clone, Copy, PartialEq, Eq, Structural)]
pub struct AdsSymbolEntry {
    pub entryLength: u32,
    pub iGroup: u32,
    pub iOffs: u32,
    pub size: u32,
    pub dataType: u32,
    pub flags: u32,
    pub nameLength: u16,
    pub typeLength: u16,
    pub commentLength: u16,
}

impl AdsSymbolEntry {
    /// The entry with every field zero.
    pub fn new() -> (r: Self)
        ensures
            r == (AdsSymbolEntry {
                entryLength: 0,
                iGroup: 0,
                iOffs: 0,
                size: 0,
                dataType: 0,
                flags: 0,
                nameLength: 0,
                typeLength: 0,
                commentLength: 0,
            }),
    {
        AdsSymbolEntry {
            entryLength: 0,
            iGroup: 0,
            iOffs: 0,
            size: 0,
            dataType: 0,
            flags: 0,
            nameLength: 0,
            typeLength: 0,
            commentLength: 0,
        }
    }
}

/// The pieces of an address text: the text without surrounding white space,
/// cut at each `.`.
pub open spec fn address_tokens(s: Seq<char>) -> Seq<Seq<char>> {
    split_on(trim(s), '.')
}

/// A byte written in decimal: one or more digits, with a value of at most 255.
pub open spec fn is_byte_text(t: Seq<char>) -> bool {
    &&& t.len() > 0
    &&& forall|i: int| 0 <= i < t.len() ==> #[trigger] is_digit(t[i])
    &&& digits_value(t) <= 255
}

/// The text is a well-formed AMS net id: six pieces, each a byte in decimal.
pub open spec fn is_ams_address(s: Seq<char>) -> bool {
    let t = address_tokens(s);
    &&& t.len() == 6
    &&& forall|i: int| 0 <= i < 6 ==> is_byte_text(#[trigger] t[i])
}

/// The position of the first character of `s` that is not white space.
fn trimmed_start(s: &Vec<char>) -> (r: usize)
    ensures
        r <= s@.len(),
        trim_start(s@) == s@.subrange(r as int, s@.len() as int),
{
    let mut i: usize = 0;
    assert(s@.subrange(0, s@.len() as int) =~= s@);
    while i < s.len() && char_is_whitespace(s[i])
        invariant
            0 <= i <= s@.len(),
            trim_start(s@) == trim_start(s@.subrange(i as int, s@.len() as int)),
        decreases s@.len() - i,
    {
        assert(s@.subrange(i as int, s@.len() as int).drop_first() =~= s@.subrange(
            i + 1,
            s@.len() as int,
        ));
        i += 1;
    }
    i
}

/// The end of `s[start..]` without its trailing white space.
fn trimmed_end(s: &Vec<char>, start: usize) -> (r: usize)
    requires
        start <= s@.len(),
    ensures
        start <= r <= s@.len(),
        trim_end(s@.subrange(start as int, s@.len() as int)) == s@.subrange(
            start as int,
            r as int,
        ),
{
    let mut e: usize = s.len();
    while e > start && char_is_whitespace(s[e - 1])
        invariant
            start <= e <= s@.len(),
            trim_end(s@.subrange(start as int, s@.len() as int)) == trim_end(
                s@.subrange(start as int, e as int),
            ),
        decreases e,
    {
        assert(s@.subrange(start as int, e as int).drop_last() =~= s@.subrange(
            start as int,
            e - 1,
        ));
        e -= 1;
    }
    e
}

/// `t` is made of digits only, and has at least one.
fn all_digits(t: &Vec<char>) -> (r: bool)
    ensures
        r == (t@.len() > 0 && forall|i: int| 0 <= i < t@.len() ==> #[trigger] is_digit(t@[i])),
{
    if t.len() == 0 {
        return false;
    }
    let mut q: usize = 0;
    while q < t.len()
        invariant
            0 <= q <= t@.len(),
            forall|i: int| 0 <= i < q ==> #[trigger] is_digit(t@[i]),
        decreases t@.len() - q,
    {
        let ch = t[q];
        if !('0' <= ch && ch <= '9') {
            assert(!is_digit(t@[q as int]));
            return false;
        }
        q += 1;
    }
    true
}

/// The AMS address written in `s` as six decimal bytes separated by dots,
/// such as `192.168.127.1.1.1`, possibly with white space around it, with
/// port 0; `None` if the text is not such an address.
pub fn to_ams_addr(s: &str) -> (r: Option<AmsAddr>)
    ensures
        r is Some <==> is_ams_address(s@),
        r matches Some(a) ==> a.port == 0 && forall|i: int|
            0 <= i < 6 ==> a.netId.b@[i] as nat == digits_value(#[trigger] address_tokens(s@)[i]),
{
    let cs = chars_of(s);
    let start = trimmed_start(&cs);
    let end = trimmed_end(&cs, start);
    let mut body: Vec<char> = Vec::new();
    let mut i: usize = start;
    while i < end
        invariant
            start <= i <= end <= cs@.len(),
            body@ == cs@.subrange(start as int, i as int),
        decreases end - i,
    {
        body.push(cs[i]);
        i += 1;
    }
    assert(body@ == trim(s@)) by {
        assert(cs@.subrange(start as int, end as int) =~= trim_end(
            cs@.subrange(start as int, cs@.len() as int),
        ));
    }
    let tokens = split_chars(&body, '.');
    assert(tokens@.len() == address_tokens(s@).len());
    assert(forall|k: int|
        0 <= k < tokens@.len() ==> #[trigger] tokens@[k]@ == address_tokens(s@)[k]);
    if tokens.len() != 6 {
        return None;
    }
    let mut ret = AmsAddr::default();
    let mut k: usize = 0;
    while k < 6
        invariant
            0 <= k <= 6,
            tokens@.len() == 6,
            forall|j: int| 0 <= j < 6 ==> #[trigger] tokens@[j]@ == address_tokens(s@)[j],
            forall|j: int| 0 <= j < k ==> is_byte_text(#[trigger] address_tokens(s@)[j]),
            forall|j: int|
                0 <= j < k ==> ret.netId.b@[j] as nat == digits_value(
                    #[trigger] address_tokens(s@)[j],
                ),
            ret.port == 0,
        decreases 6 - k,
    {
        let ghost tk = tokens@[k as int]@;
        if !all_digits(&tokens[k]) {
            assert(!is_byte_text(address_tokens(s@)[k as int]));
            return None;
        }
        assert(is_digit(tk[0]));
        assert(tk[0] != '+');
        assert(unsigned_digits(tk) == tk);
        match parse_u8(tokens[k].as_slice()) {
            Some(b) => {
                ret.netId.b[k] = b;
            },
            None => {
                assert(!is_byte_text(address_tokens(s@)[k as int]));
                return None;
            },
        }
        k += 1;
    }
    Some(ret)
}

/// The character of the decimal digit `n`, below ten.
pub open spec fn digit_char(n: nat) -> char {
    seq!['0', '1', '2', '3', '4', '5', '6', '7', '8', '9'][n as int]
}

/// The decimal text of `n`, without leading zeros.
pub open spec fn decimal(n: nat) -> Seq<char>
    decreases n,
{
    if n < 10 {
        seq![digit_char(n)]
    } else {
        decimal(n / 10).push(digit_char(n % 10))
    }
}

/// The bytes `b` in decimal, separated by dots.
pub open spec fn dotted(b: Seq<u8>) -> Seq<char>
    decreases b.len(),
{
    if b.len() <= 1 {
        if b.len() == 1 {
            decimal(b[0] as nat)
        } else {
            Seq::empty()
        }
    } else {
        decimal(b[0] as nat) + seq!['.'] + dotted(b.drop_first())
    }
}

/// The decimal text of `n` is made of digits, none of them white space,
/// and is read back as `n`.
pub proof fn lemma_decimal(n: nat)
    ensures
        decimal(n).len() > 0,
        forall|i: int| 0 <= i < decimal(n).len() ==> #[trigger] is_digit(decimal(n)[i]),
        forall|i: int| 0 <= i < decimal(n).len() ==> !is_white_space(#[trigger] decimal(n)[i]),
        forall|i: int| 0 <= i < decimal(n).len() ==> decimal(n)[i] != '.',
        digits_value(decimal(n)) == n,
    decreases n,
{
    let ds = seq!['0', '1', '2', '3', '4', '5', '6', '7', '8', '9'];
    assert forall|m: nat| m < 10 implies is_digit(#[trigger] digit_char(m)) && !is_white_space(
        digit_char(m),
    ) && digit_char(m) != '.' && (digit_char(m) as nat) - ('0' as nat) == m by {
        assert(digit_char(m) == ds[m as int]);
    }
    if n < 10 {
        assert(decimal(n).drop_last() =~= Seq::<char>::empty());
        assert(decimal(n).last() == digit_char(n));
        assert((digit_char(n) as nat) - ('0' as nat) == n);
        assert(digits_value(decimal(n)) == digits_value(Seq::<char>::empty()) * 10 + n);
    } else {
        lemma_decimal(n / 10);
        let d = decimal(n / 10);
        assert(decimal(n).drop_last() =~= d);
        assert(decimal(n).last() == digit_char(n % 10));
        assert(n == (n / 10) * 10 + n % 10);
        let m = (n % 10) as nat;
        assert((digit_char(m) as nat) - ('0' as nat) == m);
        assert(digits_value(decimal(n)) == digits_value(d) * 10 + m);
        assert forall|i: int| 0 <= i < decimal(n).len() implies #[trigger] is_digit(decimal(n)[i])
            && !is_white_space(decimal(n)[i]) && decimal(n)[i] != '.' by {
            if i < d.len() {
                assert(decimal(n)[i] == d[i]);
            }
        }
    }
}

/// Cutting at `c` text that holds no `c`, after the piece `cur` begun
/// already, gives that piece continued with the text, and nothing more.
proof fn lemma_split_scan_plain(x: Seq<char>, c: char, cur: Seq<char>, rest: Seq<Seq<char>>)
    requires
        forall|i: int| 0 <= i < x.len() ==> x[i] != c,
    ensures
        split_scan(x, c, cur) == seq![cur + x],
    decreases x.len(),
{
    if x.len() > 0 {
        assert(x.drop_first().len() < x.len());
        lemma_split_scan_plain(x.drop_first(), c, cur.push(x[0]), rest);
        assert(cur.push(x[0]) + x.drop_first() =~= cur + x);
    } else {
        assert(cur + x =~= cur);
    }
}

/// Cutting at `c` the text `x`, which holds no `c`, then `c`, then `y`,
/// gives the piece `x` followed by the pieces of `y`.
proof fn lemma_split_scan_piece(x: Seq<char>, y: Seq<char>, c: char, cur: Seq<char>)
    requires
        forall|i: int| 0 <= i < x.len() ==> x[i] != c,
    ensures
        split_scan(x + seq![c] + y, c, cur) == seq![cur + x] + split_scan(y, c, Seq::empty()),
    decreases x.len(),
{
    let all = x + seq![c] + y;
    if x.len() > 0 {
        assert(all[0] == x[0]);
        assert(all.drop_first() =~= x.drop_first() + seq![c] + y);
        lemma_split_scan_piece(x.drop_first(), y, c, cur.push(x[0]));
        assert(cur.push(x[0]) + x.drop_first() =~= cur + x);
    } else {
        assert(all[0] == c);
        assert(all.drop_first() =~= y);
        assert(cur + x =~= cur);
    }
}

/// The pieces of the dotted text of `b` are the decimal texts of its bytes.
proof fn lemma_dotted_split(b: Seq<u8>)
    requires
        b.len() >= 1,
    ensures
        split_on(dotted(b), '.') == Seq::new(b.len(), |i: int| decimal(b[i] as nat)),
    decreases b.len(),
{
    lemma_decimal(b[0] as nat);
    let x = decimal(b[0] as nat);
    if b.len() == 1 {
        lemma_split_scan_plain(x, '.', Seq::empty(), Seq::empty());
        assert(Seq::<char>::empty() + x =~= x);
        assert(split_on(dotted(b), '.') =~= Seq::new(b.len(), |i: int| decimal(b[i] as nat)));
    } else {
        let y = dotted(b.drop_first());
        lemma_split_scan_piece(x, y, '.', Seq::empty());
        lemma_dotted_split(b.drop_first());
        assert(Seq::<char>::empty() + x =~= x);
        assert(split_on(dotted(b), '.') =~= Seq::new(b.len(), |i: int| decimal(b[i] as nat)));
    }
}

/// The dotted text of `b` begins and ends with a character that is no
/// white space.
proof fn lemma_dotted_ends(b: Seq<u8>)
    requires
        b.len() >= 1,
    ensures
        dotted(b).len() > 0,
        !is_white_space(dotted(b)[0]),
        !is_white_space(dotted(b).last()),
    decreases b.len(),
{
    lemma_decimal(b[0] as nat);
    if b.len() > 1 {
        lemma_dotted_ends(b.drop_first());
        let x = decimal(b[0] as nat);
        let y = dotted(b.drop_first());
        assert(dotted(b)[0] == x[0]);
        assert(dotted(b).last() == y.last());
    }
}

/// White space in front of a text that does not begin with white space is cut off.
proof fn lemma_trim_start_prefix(w: Seq<char>, t: Seq<char>)
    requires
        forall|i: int| 0 <= i < w.len() ==> is_white_space(#[trigger] w[i]),
        t.len() > 0,
        !is_white_space(t[0]),
    ensures
        trim_start(w + t) == t,
    decreases w.len(),
{
    if w.len() > 0 {
        assert((w + t).drop_first() =~= w.drop_first() + t);
        assert(is_white_space(w[0]));
        lemma_trim_start_prefix(w.drop_first(), t);
    } else {
        assert(w + t =~= t);
    }
}

/// White space after a text that does not end with white space is cut off.
proof fn lemma_trim_end_suffix(t: Seq<char>, w: Seq<char>)
    requires
        forall|i: int| 0 <= i < w.len() ==> is_white_space(#[trigger] w[i]),
        t.len() > 0,
        !is_white_space(t.last()),
    ensures
        trim_end(t + w) == t,
    decreases w.len(),
{
    if w.len() > 0 {
        assert((t + w).drop_last() =~= t + w.drop_last());
        assert(is_white_space(w.last()));
        lemma_trim_end_suffix(t, w.drop_last());
    } else {
        assert(t + w =~= t);
    }
}

/// Six bytes written in decimal and separated by dots, as an AMS net id is
/// printed, possibly with white space before and after, are an AMS address
/// whose bytes, as `to_ams_addr` reads them, are those six bytes.
pub proof fn law_address_text(b: Seq<u8>, before: Seq<char>, after: Seq<char>)
    requires
        b.len() == 6,
        forall|i: int| 0 <= i < before.len() ==> is_white_space(#[trigger] before[i]),
        forall|i: int| 0 <= i < after.len() ==> is_white_space(#[trigger] after[i]),
    ensures
        is_ams_address(before + dotted(b) + after),
        forall|i: int|
            0 <= i < 6 ==> digits_value(#[trigger] address_tokens(before + dotted(b) + after)[i])
                == b[i],
{
    let t = dotted(b);
    lemma_dotted_ends(b);
    assert(before + t + after =~= before + (t + after));
    assert((t + after)[0] == t[0]);
    lemma_trim_start_prefix(before, t + after);
    lemma_trim_end_suffix(t, after);
    assert(trim(before + t + after) == t);
    lemma_dotted_split(b);
    assert forall|i: int| 0 <= i < 6 implies is_byte_text(
        #[trigger] address_tokens(before + t + after)[i],
    ) && digits_value(address_tokens(before + t + after)[i]) == b[i] by {
        assert(address_tokens(before + t + after)[i] == decimal(b[i] as nat));
        lemma_decimal(b[i] as nat);
    }
}

} // verus!
