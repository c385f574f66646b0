//! Text handling shared by the symbol table code: characters of strings,
//! searching, splitting, white space and decimal numbers.
use std::string::FromUtf8Error;
use vstd::prelude::*;
use vstd::utf8::{decode_utf8, valid_utf8};

verus! {

/// `std::string::FromUtf8Error`, the error of `String::from_utf8`; it is
/// only carried through, never looked into.
#[verifier::external_type_specification]
#[verifier::external_body]
pub struct ExFromUtf8Error(FromUtf8Error);

/// `str::chars`, collected: the characters of `s` in order.
#[verifier::external_body]
pub(crate) fn chars_of(s: &str) -> (r: Vec<char>)
    ensures
        r@ == s@,
{
    s.chars().collect()
}

/// `String::from_iter` over characters: the string made of `cs`.
#[verifier::external_body]
pub(crate) fn string_from_chars(cs: &[char]) -> (r: String)
    ensures
        r@ == cs@,
{
    cs.iter().collect()
}

/// `String::from_utf8`: a string exactly when the bytes are valid UTF-8,
/// and then the characters they encode.
#[verifier::external_body]
pub(crate) fn string_from_utf8(bytes: &[u8]) -> (r: Result<String, FromUtf8Error>)
    ensures
        r is Ok <==> valid_utf8(bytes@),
        r matches Ok(s) ==> s@ == decode_utf8(bytes@),
{
    String::from_utf8(bytes.to_vec())
}

/// Whether `c` has the Unicode `White_Space` property, the white space that
/// `str::trim` removes.
pub(crate) fn char_is_whitespace(c: char) -> (r: bool)
    ensures
        r == is_white_space(c),
{
    let u = c as u32;
    (0x09 <= u && u <= 0x0d) || u == 0x20 || u == 0x85 || u == 0xa0 || u == 0x1680 || (0x2000
        <= u && u <= 0x200a) || u == 0x2028 || u == 0x2029 || u == 0x202f || u == 0x205f || u
        == 0x3000
}

/// The characters with the Unicode `White_Space` property.
pub open spec fn is_white_space(c: char) -> bool {
    let u = c as u32;
    ||| 0x09 <= u <= 0x0d
    ||| u == 0x20
    ||| u == 0x85
    ||| u == 0xa0
    ||| u == 0x1680
    ||| 0x2000 <= u <= 0x200a
    ||| u == 0x2028
    ||| u == 0x2029
    ||| u == 0x202f
    ||| u == 0x205f
    ||| u == 0x3000
}

/// A decimal digit character.
pub open spec fn is_digit(c: char) -> bool {
    '0' <= c <= '9'
}

/// The number written by a sequence of decimal digits.
pub open spec fn digits_value(d: Seq<char>) -> nat
    decreases d.len(),
{
    if d.len() == 0 {
        0
    } else {
        digits_value(d.drop_last()) * 10 + ((d.last() as nat) - ('0' as nat)) as nat
    }
}

/// The digits of an unsigned number as `FromStr` reads it: one leading `+`
/// is allowed when something follows it.
pub open spec fn unsigned_digits(t: Seq<char>) -> Seq<char> {
    if t.len() > 1 && t[0] == '+' {
        t.drop_first()
    } else {
        t
    }
}

/// `t` is accepted by `FromStr` for an unsigned type whose largest value is `max`.
pub open spec fn parses_unsigned(t: Seq<char>, max: nat) -> bool {
    let d = unsigned_digits(t);
    &&& d.len() > 0
    &&& forall|i: int| 0 <= i < d.len() ==> #[trigger] is_digit(d[i])
    &&& digits_value(d) <= max
}

/// `u8::from_str`: a value exactly when the text is an optional `+` followed
/// by decimal digits whose value fits in a byte, and then that value.
#[verifier::external_body]
pub(crate) fn parse_u8(t: &[char]) -> (r: Option<u8>)
    ensures
        r is Some <==> parses_unsigned(t@, 255),
        r matches Some(v) ==> v == digits_value(unsigned_digits(t@)),
{
    let s: String = t.iter().collect();
    s.parse::<u8>().ok()
}

/// The sign and digits of a signed number as `FromStr` reads it: one
/// leading `+` or `-` is allowed when something follows it.
pub open spec fn signed_digits(t: Seq<char>) -> (bool, Seq<char>) {
    if t.len() > 1 && t[0] == '-' {
        (true, t.drop_first())
    } else if t.len() > 1 && t[0] == '+' {
        (false, t.drop_first())
    } else {
        (false, t)
    }
}

/// The number written by `t`, read as a signed decimal number.
pub open spec fn signed_value(t: Seq<char>) -> int {
    let (neg, d) = signed_digits(t);
    if neg {
        -(digits_value(d) as int)
    } else {
        digits_value(d) as int
    }
}

/// `t` is accepted by `i128::from_str`: an optional sign followed by
/// decimal digits whose value lies in the range of an `i128`.
pub open spec fn parses_i128(t: Seq<char>) -> bool {
    let d = signed_digits(t).1;
    &&& d.len() > 0
    &&& forall|i: int| 0 <= i < d.len() ==> #[trigger] is_digit(d[i])
    &&& i128::MIN <= signed_value(t) <= i128::MAX
}

/// `i128::from_str`: a value exactly when the text is an optional `+` or
/// `-` followed by decimal digits whose value fits in an `i128`, and then
/// that value.
#[verifier::external_body]
pub(crate) fn parse_i128(t: &[char]) -> (r: Option<i128>)
    ensures
        r is Some <==> parses_i128(t@),
        r matches Some(v) ==> v == signed_value(t@),
{
    let s: String = t.iter().collect();
    s.parse::<i128>().ok()
}

/// `needle` stands in `hay` at position `i`.
pub open spec fn occurs_at<T>(hay: Seq<T>, needle: Seq<T>, i: int) -> bool {
    &&& 0 <= i
    &&& i + needle.len() <= hay.len()
    &&& hay.subrange(i, i + needle.len()) == needle
}

/// The first position at or after `i` where `needle` stands in `hay`.
pub open spec fn find_from<T>(hay: Seq<T>, needle: Seq<T>, i: int) -> Option<int>
    decreases hay.len() - i,
{
    if i < 0 || i + needle.len() > hay.len() {
        None
    } else if needle.len() == 0 || hay.subrange(i, i + needle.len()) == needle {
        Some(i)
    } else {
        find_from(hay, needle, i + 1)
    }
}

/// The first position where `needle` stands in `hay`, as `str::find` gives it.
pub open spec fn find<T>(hay: Seq<T>, needle: Seq<T>) -> Option<int> {
    find_from(hay, needle, 0)
}

/// `find_from` gives a position where the needle stands, with no earlier one.
pub proof fn lemma_find_from<T>(hay: Seq<T>, needle: Seq<T>, i: int)
    requires
        0 <= i,
    ensures
        find_from(hay, needle, i) matches Some(k) ==> i <= k && occurs_at(hay, needle, k) && (
        forall|j: int| i <= j < k ==> !occurs_at(hay, needle, j)),
        find_from(hay, needle, i) is None ==> forall|j: int|
            i <= j ==> !occurs_at(hay, needle, j),
    decreases hay.len() - i,
{
    if i + needle.len() > hay.len() {
    } else if needle.len() == 0 || hay.subrange(i, i + needle.len()) == needle {
        if needle.len() == 0 {
            assert(hay.subrange(i, i + needle.len()) =~= needle);
        }
    } else {
        lemma_find_from(hay, needle, i + 1);
    }
}

/// The position of the first occurrence of `needle` in `hay`.
pub fn find_chars(hay: &Vec<char>, needle: &Vec<char>) -> (r: Option<usize>)
    ensures
        match r {
            Some(k) => find(hay@, needle@) == Some(k as int),
            None => find(hay@, needle@) is None,
        },
{
    if needle.len() > hay.len() {
        return None;
    }
    let hay_len = hay.len();
    let last = hay_len - needle.len();
    let mut i: usize = 0;
    while i <= last
        invariant
            last == hay@.len() - needle@.len(),
            hay_len == hay@.len(),
            0 <= i <= last + 1,
            find(hay@, needle@) == find_from(hay@, needle@, i as int),
        decreases last + 1 - i,
    {
        let mut j: usize = 0;
        let mut same = true;
        while j < needle.len()
            invariant
                0 <= j <= needle@.len(),
                i <= last,
                hay_len == hay@.len(),
                last == hay@.len() - needle@.len(),
                same <==> forall|k: int| 0 <= k < j ==> hay@[i + k] == needle@[k],
            decreases needle@.len() - j,
        {
            assert(i + j < hay_len);
            if hay[i + j] != needle[j] {
                same = false;
            }
            j += 1;
        }
        if same {
            assert(hay@.subrange(i as int, i + needle@.len()) =~= needle@);
            return Some(i);
        }
        if needle.len() == 0 {
            assert(hay@.subrange(i as int, i as int) =~= needle@);
        }
        assert(hay@.subrange(i as int, i + needle@.len()) != needle@) by {
            let k = choose|k: int| 0 <= k < needle@.len() && hay@[i + k] != needle@[k];
            assert(hay@.subrange(i as int, i + needle@.len())[k] != needle@[k]);
        }
        if i == last {
            assert(find_from(hay@, needle@, i + 1) is None);
            return None;
        }
        i += 1;
    }
    None
}

/// The position of the first `c` in `s`.
pub open spec fn find_char(s: Seq<char>, c: char) -> Option<int> {
    find(s, seq![c])
}

/// `s` cut at every `c`, the piece before the first cut starting with `cur`.
pub open spec fn split_scan(s: Seq<char>, c: char, cur: Seq<char>) -> Seq<Seq<char>>
    decreases s.len(),
{
    if s.len() == 0 {
        seq![cur]
    } else if s[0] == c {
        seq![cur] + split_scan(s.drop_first(), c, Seq::empty())
    } else {
        split_scan(s.drop_first(), c, cur.push(s[0]))
    }
}

/// `s` cut at every `c`, as `str::split` gives it.
pub open spec fn split_on(s: Seq<char>, c: char) -> Seq<Seq<char>> {
    split_scan(s, c, Seq::empty())
}

/// The pieces of `s` between the occurrences of `c`.
pub fn split_chars(s: &Vec<char>, c: char) -> (r: Vec<Vec<char>>)
    ensures
        r@.len() == split_on(s@, c).len(),
        forall|k: int| 0 <= k < r@.len() ==> #[trigger] r@[k]@ == split_on(s@, c)[k],
{
    let mut pieces: Vec<Vec<char>> = Vec::new();
    let mut cur: Vec<char> = Vec::new();
    let mut i: usize = 0;
    let ghost done: Seq<Seq<char>> = Seq::empty();
    assert(s@.subrange(0, s@.len() as int) =~= s@);
    assert(cur@ =~= Seq::<char>::empty());
    assert(done + split_scan(s@, c, cur@) =~= split_scan(s@, c, cur@));
    while i < s.len()
        invariant
            0 <= i <= s@.len(),
            pieces@.len() == done.len(),
            forall|k: int| 0 <= k < pieces@.len() ==> #[trigger] pieces@[k]@ == done[k],
            done + split_scan(s@.subrange(i as int, s@.len() as int), c, cur@) == split_on(s@, c),
        decreases s@.len() - i,
    {
        let ghost rest = s@.subrange(i as int, s@.len() as int);
        assert(rest.drop_first() =~= s@.subrange(i + 1, s@.len() as int));
        if s[i] == c {
            proof {
                assert(done + split_scan(rest, c, cur@) == done.push(cur@) + split_scan(
                    rest.drop_first(),
                    c,
                    Seq::empty(),
                ));
                done = done.push(cur@);
            }
            pieces.push(cur);
            cur = Vec::new();
            assert(cur@ =~= Seq::<char>::empty());
        } else {
            cur.push(s[i]);
        }
        i += 1;
    }
    let ghost rest = s@.subrange(i as int, s@.len() as int);
    assert(rest =~= Seq::<char>::empty());
    proof {
        done = done.push(cur@);
    }
    pieces.push(cur);
    assert(done =~= split_on(s@, c));
    pieces
}

/// `s` without its leading white space.
pub open spec fn trim_start(s: Seq<char>) -> Seq<char>
    decreases s.len(),
{
    if s.len() > 0 && is_white_space(s[0]) {
        trim_start(s.drop_first())
    } else {
        s
    }
}

/// `s` without its trailing white space.
pub open spec fn trim_end(s: Seq<char>) -> Seq<char>
    decreases s.len(),
{
    if s.len() > 0 && is_white_space(s.last()) {
        trim_end(s.drop_last())
    } else {
        s
    }
}

/// `s` without leading and trailing white space, as `str::trim` gives it.
pub open spec fn trim(s: Seq<char>) -> Seq<char> {
    trim_end(trim_start(s))
}

} // verus!
