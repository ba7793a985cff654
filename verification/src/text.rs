//! Text as the protocol carries it: UTF-8 checks and conversions.

use vstd::prelude::*;
use vstd::utf8::*;
use vstd::string::StringSliceAdditionalSpecFns;
use vstd::string::StrSliceExecFns;
use bytes::BytesMut;
use crate::buffer::{bytes_of, put_u8};

verus! {

/// `std::str::from_utf8`: the bytes read as a string slice when they are
/// valid UTF-8, `None` otherwise. The string's UTF-8 encoding is exactly the
/// given bytes.
#[verifier::external_body]
pub(crate) fn str_from_utf8<'a>(v: &'a [u8]) -> (r: Option<&'a str>)
    ensures
        r is Some <==> valid_utf8(v@),
        r matches Some(s) ==> s.spec_bytes() == v@,
{
    std::str::from_utf8(v).ok()
}

/// The decimal digits of `n`, as ASCII bytes, most significant first.
pub open spec fn digit_bytes(n: nat) -> Seq<u8>
    decreases n,
{
    if n < 10 {
        seq![(48 + n) as u8]
    } else {
        digit_bytes(n / 10).push((48 + n % 10) as u8)
    }
}

/// The decimal form of `n` as ASCII bytes, with a leading `-` when negative:
/// what `format!("{}", n)` writes for an integer.
pub open spec fn decimal_bytes(n: int) -> Seq<u8> {
    if n < 0 {
        seq![45u8] + digit_bytes((-n) as nat)
    } else {
        digit_bytes(n as nat)
    }
}

/// A number below 10^k takes at most k digits.
pub proof fn lemma_digit_len(n: nat, k: nat, bound: nat)
    requires
        n < bound,
        bound == pow10(k),
        k >= 1,
    ensures
        1 <= digit_bytes(n).len() <= k,
    decreases k,
{
    if n >= 10 {
        assert(k > 1) by {
            if k == 1 {
                assert(pow10(1) == 10 * pow10(0));
            }
        }
        assert(pow10(k) == 10 * pow10((k - 1) as nat));
        lemma_digit_len(n / 10, (k - 1) as nat, pow10((k - 1) as nat));
    }
}

/// Ten to the power `k`.
pub open spec fn pow10(k: nat) -> nat
    decreases k,
{
    if k == 0 {
        1
    } else {
        10 * pow10((k - 1) as nat)
    }
}

/// The decimal form of a 64-bit number takes at most 20 bytes.
pub proof fn lemma_decimal_len(n: i64)
    ensures
        1 <= decimal_bytes(n as int).len() <= 20,
{
    reveal_with_fuel(pow10, 20);
    if n < 0 {
        lemma_digit_len((-(n as int)) as nat, 19, pow10(19));
    } else {
        lemma_digit_len(n as nat, 19, pow10(19));
    }
}

/// Appends the decimal digits of `n`.
fn write_digits(n: u64, buf: &mut BytesMut)
    requires
        bytes_of(*old(buf)).len() + digit_bytes(n as nat).len() <= isize::MAX,
    ensures
        bytes_of(*final(buf)) == bytes_of(*old(buf)) + digit_bytes(n as nat),
    decreases n,
{
    if n >= 10 {
        write_digits(n / 10, buf);
    }
    let d: u8 = (n % 10) as u8;
    put_u8(buf, 48 + d);
    assert(bytes_of(*buf) =~= bytes_of(*old(buf)) + digit_bytes(n as nat));
}

/// Appends the decimal form of `n`.
pub fn write_decimal(n: i64, buf: &mut BytesMut)
    requires
        bytes_of(*old(buf)).len() + 20 <= isize::MAX,
    ensures
        bytes_of(*final(buf)) == bytes_of(*old(buf)) + decimal_bytes(n as int),
{
    proof {
        lemma_decimal_len(n);
    }
    if n < 0 {
        put_u8(buf, 45);
        let m: u64 = (0 - (n as i128)) as u64;
        write_digits(m, buf);
        assert(bytes_of(*buf) =~= bytes_of(*old(buf)) + decimal_bytes(n as int));
    } else {
        write_digits(n as u64, buf);
    }
}

/// Bytes below 128 (ASCII) are valid UTF-8.
pub proof fn lemma_ascii_bytes_valid(b: Seq<u8>)
    requires
        forall|i: int| 0 <= i < b.len() ==> b[i] < 128,
    ensures
        valid_utf8(b),
{
    assert(b.subrange(0, 0) =~= Seq::<u8>::empty());
    assert(valid_utf8(Seq::<u8>::empty()));
    partial_valid_utf8_extend_ascii_block(b, 0, b.len() as int);
    assert(b.subrange(0, b.len() as int) =~= b);
}

/// The name of `std`'s lower-casing: `str::to_lowercase` maps each character
/// to its Unicode lower case.
pub uninterp spec fn lowercase_of(s: Seq<char>) -> Seq<char>;

/// The ASCII lower case of a character: `A` to `Z` become `a` to `z`, every
/// other character stays.
pub open spec fn ascii_lower(c: char) -> char {
    if 'A' <= c && c <= 'Z' {
        ((c as u32) + 32) as char
    } else {
        c
    }
}

/// `str::to_lowercase`: the Unicode lower case of `s`. On ASCII text, whose
/// characters' Unicode lower case is their ASCII lower case, it lower-cases
/// each character in place.
#[verifier::external_body]
pub(crate) fn to_lowercase(s: &str) -> (r: String)
    ensures
        r@ == lowercase_of(s@),
        is_ascii_chars(s@) ==> r@ == s@.map_values(|c: char| ascii_lower(c)),
{
    s.to_lowercase()
}

/// An owned copy of `s`.
pub fn owned(s: &str) -> (r: String)
    ensures
        r@ == s@,
{
    s.to_owned()
}

/// The first position, from `i` on, where `s` holds `c`.
pub open spec fn find_from(s: Seq<char>, i: int, c: char) -> Option<int>
    decreases s.len() - i,
{
    if i < 0 || i >= s.len() {
        None
    } else if s[i] == c {
        Some(i)
    } else {
        find_from(s, i + 1, c)
    }
}

/// What `find_from` finds is `c`, at or after `i`, and nothing before it is.
pub proof fn lemma_find_from(s: Seq<char>, i: int, c: char)
    requires
        0 <= i <= s.len(),
    ensures
        match find_from(s, i, c) {
            Some(k) => i <= k < s.len() && s[k] == c && forall|j: int| i <= j < k ==> s[j] != c,
            None => forall|j: int| i <= j < s.len() ==> s[j] != c,
        },
    decreases s.len() - i,
{
    if i < s.len() && s[i] != c {
        lemma_find_from(s, i + 1, c);
    }
}

/// The first position, from `from` on, where `s` holds `c`.
pub fn find_char(s: &str, from: usize, c: char) -> (r: Option<usize>)
    requires
        from <= s@.len(),
    ensures
        r == match find_from(s@, from as int, c) {
            Some(k) => Some(k as usize),
            None => None::<usize>,
        },
{
    let n = s.unicode_len();
    let mut i = from;
    while i < n
        invariant
            from <= i <= n,
            n == s@.len(),
            find_from(s@, from as int, c) == find_from(s@, i as int, c),
        decreases n - i,
    {
        if s.get_char(i) == c {
            return Some(i);
        }
        i = i + 1;
    }
    None
}

/// The piece of `s` before its first `c`, or all of `s`: the first item of
/// `s.split(c)`.
pub open spec fn before_char(s: Seq<char>, c: char) -> Seq<char> {
    match find_from(s, 0, c) {
        Some(k) => s.take(k),
        None => s,
    }
}

/// The first item of `s.split(c)`.
pub fn split_first<'a>(s: &'a str, c: char) -> (r: &'a str)
    ensures
        r@ == before_char(s@, c),
{
    let n = s.unicode_len();
    proof {
        lemma_find_from(s@, 0, c);
    }
    match find_char(s, 0, c) {
        Some(k) => s.substring_char(0, k),
        None => {
            let r = s.substring_char(0, n);
            assert(s@.subrange(0, n as int) =~= s@);
            r
        },
    }
}

/// The ASCII code of the lower-case hexadecimal digit for `n` (below 16).
pub open spec fn hex_digit_byte(n: int) -> u8 {
    if n < 10 {
        (48 + n) as u8
    } else {
        (87 + n) as u8
    }
}

/// The lower-case hexadecimal digits of `b` as ASCII bytes: two per byte,
/// high half first.
pub open spec fn hex_bytes(b: Seq<u8>) -> Seq<u8>
    decreases b.len(),
{
    if b.len() == 0 {
        seq![]
    } else {
        hex_bytes(b.drop_last()) + seq![
            hex_digit_byte(b.last() as int / 16),
            hex_digit_byte(b.last() as int % 16),
        ]
    }
}

/// Hexadecimal digits are ASCII.
pub proof fn lemma_hex_bytes_ascii(b: Seq<u8>)
    ensures
        hex_bytes(b).len() == 2 * b.len(),
        forall|i: int| 0 <= i < hex_bytes(b).len() ==> #[trigger] hex_bytes(b)[i] < 128,
    decreases b.len(),
{
    if b.len() > 0 {
        lemma_hex_bytes_ascii(b.drop_last());
        let p = hex_bytes(b.drop_last());
        let h = hex_bytes(b);
        assert forall|i: int| 0 <= i < h.len() implies #[trigger] h[i] < 128 by {
            if i < p.len() {
                assert(h[i] == p[i]);
            }
        }
    }
}

/// Appends the hexadecimal digits of `b[from..to]`.
pub fn push_hex(v: &mut Vec<u8>, b: &[u8], from: usize, to: usize)
    requires
        from <= to <= b@.len(),
    ensures
        final(v)@ == old(v)@ + hex_bytes(b@.subrange(from as int, to as int)),
{
    let ghost start = v@;
    let mut i = from;
    assert(b@.subrange(from as int, from as int) =~= Seq::<u8>::empty());
    assert(v@ =~= start + hex_bytes(b@.subrange(from as int, from as int)));
    while i < to
        invariant
            from <= i <= to,
            to <= b@.len(),
            v@ == start + hex_bytes(b@.subrange(from as int, i as int)),
        decreases to - i,
    {
        let x = b[i];
        let hi: u8 = x / 16;
        let lo: u8 = x % 16;
        let hb: u8 = if hi < 10 { 48 + hi } else { 87 + hi };
        let lb: u8 = if lo < 10 { 48 + lo } else { 87 + lo };
        v.push(hb);
        v.push(lb);
        proof {
            let t = b@.subrange(from as int, i + 1);
            assert(t.drop_last() =~= b@.subrange(from as int, i as int));
            assert(t.last() == x);
        }
        i = i + 1;
        assert(v@ =~= start + hex_bytes(b@.subrange(from as int, i as int)));
    }
}

/// The string that the ASCII bytes `v` spell.
pub fn ascii_string(v: &Vec<u8>) -> (s: String)
    requires
        forall|i: int| 0 <= i < v@.len() ==> v@[i] < 128,
    ensures
        s@ == decode_utf8(v@),
{
    proof {
        lemma_ascii_bytes_valid(v@);
    }
    let st = str_from_utf8(v.as_slice()).unwrap();
    proof {
        broadcast use vstd::utf8::encode_utf8_decode_utf8;
        assert(st@ == decode_utf8(encode_utf8(st@)));
    }
    owned(st)
}

} // verus!
