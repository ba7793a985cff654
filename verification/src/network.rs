//! The wire format of the Minecraft protocol: variable-length integers,
//! length-prefixed strings, big-endian shorts, and length-prefixed frames.

use vstd::prelude::*;
use vstd::slice::slice_subrange;
use vstd::utf8::*;
use vstd::string::StringSliceAdditionalSpecFns;
use bytes::BytesMut;
use crate::buffer::{bytes_of, put_u8, put_slice, new_buffer, buffer_bytes};
use crate::text::str_from_utf8;

verus! {

/// The phase of the protocol that a connection is in.
#[derive(Debug, Clone, Copy, PartialEq, Eq, Structural)]
pub enum ConnectionState {
    Handshake,
    Status,
    Login,
    Transfer,
    Configuration,
    Play,
}

/// Encoding of the unsigned value `v`: seven bits per byte, least significant
/// group first, the high bit set on every byte but the last.
pub open spec fn varint_u32_bytes(v: nat) -> Seq<u8>
    decreases v,
{
    if v < 128 {
        seq![v as u8]
    } else {
        seq![(v % 128 + 128) as u8] + varint_u32_bytes(v / 128)
    }
}

/// Encoding of a protocol `VarInt`: the two's-complement bits of `value`, as an
/// unsigned 32-bit number.
pub open spec fn varint_bytes(value: i32) -> Seq<u8> {
    varint_u32_bytes((value as u32) as nat)
}

/// The length of the `VarInt` that starts `s`, searching from position `i`:
/// the first byte without the high bit ends it, and it may take at most five
/// bytes.
pub open spec fn varint_end(s: Seq<u8>, i: nat) -> Option<nat>
    decreases 5 - i,
{
    if i >= 5 || i >= s.len() {
        None
    } else if s[i as int] < 128 {
        Some(i + 1)
    } else {
        varint_end(s, i + 1)
    }
}

/// The number carried by the first `n` bytes of `s`, low seven bits of each,
/// least significant group first.
pub open spec fn varint_sum(s: Seq<u8>, n: nat) -> nat
    decreases n,
{
    if n == 0 || s.len() == 0 {
        0
    } else {
        (s[0] % 128) as nat + 128 * varint_sum(s.drop_first(), (n - 1) as nat)
    }
}

/// What `read_varint` reads at the start of `s`: the value, truncated to its
/// low 32 bits and read as two's complement, and the number of bytes it took.
pub open spec fn spec_read_varint(s: Seq<u8>) -> Option<(i32, nat)> {
    match varint_end(s, 0) {
        Some(n) => Some(((varint_sum(s, n) % 0x1_0000_0000) as u32 as i32, n)),
        None => None,
    }
}

/// 128 to the power `k`: the weight of the `k`-th seven-bit group.
pub open spec fn pow128(k: nat) -> nat
    decreases k,
{
    if k == 0 {
        1
    } else {
        128 * pow128((k - 1) as nat)
    }
}

proof fn lemma_varint_sum_step(s: Seq<u8>, i: nat)
    requires
        i < s.len(),
    ensures
        varint_sum(s, i + 1) == varint_sum(s, i) + (s[i as int] % 128) as nat * pow128(i),
    decreases i,
{
    if i > 0 {
        let t = s.drop_first();
        lemma_varint_sum_step(t, (i - 1) as nat);
        assert(t[(i - 1) as int] == s[i as int]);
        let d = (s[i as int] % 128) as nat;
        assert(128 * (d * pow128((i - 1) as nat)) == d * pow128(i)) by (nonlinear_arith)
            requires
                pow128(i) == 128 * pow128((i - 1) as nat),
        ;
        assert(varint_sum(s, i + 1) == (s[0] % 128) as nat + 128 * varint_sum(t, i));
        assert(varint_sum(s, i) == (s[0] % 128) as nat + 128 * varint_sum(t, (i - 1) as nat));
        assert(varint_sum(t, i) == varint_sum(t, (i - 1) as nat) + d * pow128((i - 1) as nat));
        assert(varint_sum(s, i + 1) == varint_sum(s, i) + 128 * (d * pow128((i - 1) as nat)));
    } else {
        assert(varint_sum(s, 1) == (s[0] % 128) as nat + 128 * varint_sum(s.drop_first(), 0));
        assert(pow128(0) == 1);
        assert((s[0] % 128) as nat * 1 == (s[0] % 128) as nat);
    }
}

proof fn lemma_pow128_pos(k: nat)
    ensures
        pow128(k) >= 1,
    decreases k,
{
    if k > 0 {
        lemma_pow128_pos((k - 1) as nat);
    }
}

/// `varint_end` finds the first byte without the high bit, when it is among
/// the first five.
proof fn lemma_varint_end_at(s: Seq<u8>, i: nat, m: nat)
    requires
        i < m <= 5,
        m <= s.len(),
        forall|j: int| i <= j < m - 1 ==> s[j] >= 128,
        s[m - 1] < 128,
    ensures
        varint_end(s, i) == Some(m),
    decreases m - i,
{
    if i + 1 < m {
        lemma_varint_end_at(s, i + 1, m);
    }
}

/// Every encoding takes between one and five bytes; all but its last byte
/// carry the high bit.
pub proof fn lemma_varint_u32_bytes_shape(v: nat)
    requires
        v < 0x1_0000_0000,
    ensures
        1 <= varint_u32_bytes(v).len() <= 5,
        varint_u32_bytes(v).len() == 1 <==> v < 0x80,
        varint_u32_bytes(v).len() == 2 <==> 0x80 <= v < 0x4000,
        varint_u32_bytes(v).len() == 3 <==> 0x4000 <= v < 0x20_0000,
        varint_u32_bytes(v).len() == 4 <==> 0x20_0000 <= v < 0x1000_0000,
        varint_u32_bytes(v).len() == 5 <==> 0x1000_0000 <= v,
        forall|j: int|
            0 <= j < varint_u32_bytes(v).len() - 1 ==> #[trigger] varint_u32_bytes(v)[j] >= 128,
        varint_u32_bytes(v)[varint_u32_bytes(v).len() - 1] < 128,
    decreases v,
{
    if v >= 128 {
        lemma_varint_u32_bytes_shape(v / 128);
        let e = varint_u32_bytes(v);
        let t = varint_u32_bytes(v / 128);
        assert(e == seq![(v % 128 + 128) as u8] + t);
        assert forall|j: int| 0 <= j < e.len() - 1 implies #[trigger] e[j] >= 128 by {
            if j > 0 {
                assert(e[j] == t[j - 1]);
            }
        }
        assert(e[e.len() - 1] == t[t.len() - 1]);
    }
}

proof fn lemma_varint_sum_of_encoding(v: nat, rest: Seq<u8>)
    ensures
        varint_sum(varint_u32_bytes(v) + rest, varint_u32_bytes(v).len()) == v,
    decreases v,
{
    let e = varint_u32_bytes(v);
    let s = e + rest;
    if v < 128 {
        assert(s[0] == v as u8);
        assert(varint_sum(s.drop_first(), 0) == 0);
    } else {
        let t = varint_u32_bytes(v / 128);
        lemma_varint_sum_of_encoding(v / 128, rest);
        assert(s.drop_first() =~= t + rest);
        assert(s[0] == (v % 128 + 128) as u8);
    }
}

/// Reading a `VarInt` gives back the value that was written, and says how
/// many bytes it took, whatever follows it.
pub proof fn lemma_varint_roundtrip(value: i32, rest: Seq<u8>)
    ensures
        spec_read_varint(varint_bytes(value) + rest) == Some((value, varint_bytes(value).len())),
{
    let v = (value as u32) as nat;
    let e = varint_u32_bytes(v);
    let s = e + rest;
    lemma_varint_u32_bytes_shape(v);
    assert forall|j: int| 0 <= j < e.len() - 1 implies s[j] >= 128 by {
        assert(s[j] == e[j]);
    }
    lemma_varint_end_at(s, 0, e.len());
    lemma_varint_sum_of_encoding(v, rest);
    assert((value as u32) as i32 == value) by (bit_vector);
}

/// Reads a `VarInt` at the start of `buf`: its value and the number of bytes
/// it took, or `None` when `buf` ends before it does or it runs past five
/// bytes.
pub fn read_varint(buf: &[u8]) -> (r: Option<(i32, usize)>)
    ensures
        match r {
            Some((v, n)) => spec_read_varint(buf@) == Some((v, n as nat)) && 1 <= n <= buf@.len()
                && n <= 5,
            None => spec_read_varint(buf@) is None,
        },
{
    let mut acc: u64 = 0;
    let mut mult: u64 = 1;
    let mut i: usize = 0;
    while i < buf.len()
        invariant
            i <= 5,
            i <= buf@.len(),
            acc == varint_sum(buf@, i as nat),
            mult == pow128(i as nat),
            acc < mult,
            mult <= 0x8_0000_0000,
            varint_end(buf@, 0) == varint_end(buf@, i as nat),
        decreases buf.len() - i,
    {
        if i == 5 {
            return None;
        }
        let b = buf[i];
        proof {
            lemma_varint_sum_step(buf@, i as nat);
            let d = (b % 128) as nat;
            assert(acc + d * mult < 128 * mult) by (nonlinear_arith)
                requires
                    acc < mult,
                    d < 128,
            ;
            assert(mult <= 0x1000_0000) by {
                assert(i <= 4);
                reveal_with_fuel(pow128, 5);
                if i < 4 {
                    assert(pow128(i as nat) <= pow128(4)) by {
                        lemma_pow128_mono(i as nat, 4);
                    }
                }
            }
        }
        acc = acc + ((b % 128) as u64) * mult;
        mult = mult * 128;
        i = i + 1;
        if b < 128 {
            return Some((((acc % 0x1_0000_0000u64) as u32) as i32, i));
        }
    }
    None
}

proof fn lemma_pow128_mono(a: nat, b: nat)
    requires
        a <= b,
    ensures
        pow128(a) <= pow128(b),
    decreases b - a,
{
    if a < b {
        lemma_pow128_mono(a, (b - 1) as nat);
        lemma_pow128_pos((b - 1) as nat);
    }
}

/// Appends the `VarInt` encoding of `value` to `buf`.
pub fn write_varint(value: i32, buf: &mut BytesMut)
    requires
        bytes_of(*old(buf)).len() + varint_bytes(value).len() <= isize::MAX,
    ensures
        bytes_of(*final(buf)) == bytes_of(*old(buf)) + varint_bytes(value),
{
    let ghost start = bytes_of(*buf);
    let mut v: u32 = value as u32;
    while v >= 128
        invariant
            bytes_of(*buf) + varint_u32_bytes(v as nat) == start + varint_bytes(value),
            start.len() + varint_bytes(value).len() <= isize::MAX,
        decreases v,
    {
        let ghost before = bytes_of(*buf);
        let ghost old_v = v as nat;
        let byte: u8 = ((v % 128) + 128) as u8;
        proof {
            assert(varint_u32_bytes(old_v) == seq![byte] + varint_u32_bytes(old_v / 128));
            assert(before.len() + 1 <= isize::MAX) by {
                assert((before + varint_u32_bytes(old_v)).len() == start.len() + varint_bytes(value).len());
            }
        }
        put_u8(buf, byte);
        v = v / 128;
        assert(bytes_of(*buf) + varint_u32_bytes(v as nat) =~= before + varint_u32_bytes(old_v));
    }
    let ghost before = bytes_of(*buf);
    proof {
        assert(before.len() + 1 <= isize::MAX) by {
            assert((before + varint_u32_bytes(v as nat)).len() == start.len() + varint_bytes(value).len());
        }
    }
    put_u8(buf, v as u8);
    assert(bytes_of(*buf) =~= before + varint_u32_bytes(v as nat));
}

/// Number of bytes that the `VarInt` encoding of `value` takes.
pub fn varint_size(value: i32) -> (n: usize)
    ensures
        n == varint_bytes(value).len(),
{
    let v: u32 = value as u32;
    proof {
        lemma_varint_u32_bytes_shape(v as nat);
    }
    if v < 0x80 {
        1
    } else if v < 0x4000 {
        2
    } else if v < 0x20_0000 {
        3
    } else if v < 0x1000_0000 {
        4
    } else {
        5
    }
}

/// A length-prefixed byte string: the `VarInt` of the byte count, read as a
/// 32-bit signed number, then the bytes.
pub open spec fn string_bytes(b: Seq<u8>) -> Seq<u8> {
    varint_bytes(b.len() as i32) + b
}

/// The longest string, in bytes, that `read_string` accepts.
pub const MAX_STRING_BYTES: i32 = 32767;

/// What `read_string` reads at the start of `s`: the string's bytes and the
/// number of bytes taken in all. The length prefix must lie between 0 and
/// `MAX_STRING_BYTES`, the bytes must all be present, and they must be valid
/// UTF-8.
pub open spec fn spec_read_string(s: Seq<u8>) -> Option<(Seq<u8>, nat)> {
    match spec_read_varint(s) {
        Some((len, n)) => if 0 <= len <= MAX_STRING_BYTES && n + len <= s.len()
            && valid_utf8(s.subrange(n as int, n + len)) {
            Some((s.subrange(n as int, n + len), (n + len) as nat))
        } else {
            None
        },
        None => None,
    }
}

/// Reads a length-prefixed UTF-8 string at the start of `buf`: the string
/// and the number of bytes taken, length prefix included.
pub fn read_string(buf: &[u8]) -> (r: Option<(&str, usize)>)
    ensures
        match r {
            Some((st, k)) => spec_read_string(buf@) == Some((st.spec_bytes(), k as nat))
                && k <= buf@.len(),
            None => spec_read_string(buf@) is None,
        },
{
    match read_varint(buf) {
        Some((len, len_bytes)) => {
            if len < 0 || len > MAX_STRING_BYTES {
                return None;
            }
            let len = len as usize;
            if buf.len() >= len_bytes && buf.len() - len_bytes >= len {
                let sub = slice_subrange(buf, len_bytes, len_bytes + len);
                match str_from_utf8(sub) {
                    Some(st) => Some((st, len_bytes + len)),
                    None => None,
                }
            } else {
                None
            }
        },
        None => None,
    }
}

/// Appends `s` to `buf` as a length-prefixed string. The prefix is the byte
/// length converted with `as i32`, as the protocol's `VarInt` carries it.
pub fn write_string(s: &str, buf: &mut BytesMut)
    requires
        bytes_of(*old(buf)).len() + string_bytes(s.spec_bytes()).len() <= isize::MAX,
    ensures
        bytes_of(*final(buf)) == bytes_of(*old(buf)) + string_bytes(s.spec_bytes()),
{
    write_bytes(s.as_bytes(), buf);
}

/// Appends `data` to `buf` as a length-prefixed byte array.
pub fn write_bytes(data: &[u8], buf: &mut BytesMut)
    requires
        bytes_of(*old(buf)).len() + string_bytes(data@).len() <= isize::MAX,
    ensures
        bytes_of(*final(buf)) == bytes_of(*old(buf)) + string_bytes(data@),
{
    let ghost start = bytes_of(*buf);
    write_varint(data.len() as i32, buf);
    put_slice(buf, data);
    assert(bytes_of(*buf) =~= start + string_bytes(data@));
}

/// Reads a big-endian unsigned 16-bit number at the start of `buf`.
pub fn read_ushort(buf: &[u8]) -> (r: Option<(u16, usize)>)
    ensures
        match r {
            Some((v, n)) => buf@.len() >= 2 && n == 2 && v == buf@[0] * 256 + buf@[1],
            None => buf@.len() < 2,
        },
{
    if buf.len() >= 2 {
        let val: u16 = (buf[0] as u16) * 256 + (buf[1] as u16);
        Some((val, 2))
    } else {
        None
    }
}

/// A string written by `write_string` (of at most `MAX_STRING_BYTES` bytes)
/// is read back by `read_string`, whatever follows it.
pub proof fn lemma_string_roundtrip(b: Seq<u8>, rest: Seq<u8>)
    requires
        valid_utf8(b),
        b.len() <= MAX_STRING_BYTES,
    ensures
        spec_read_string(string_bytes(b) + rest) == Some((b, string_bytes(b).len())),
{
    let len = b.len() as i32;
    let s = string_bytes(b) + rest;
    assert(s == varint_bytes(len) + (b + rest));
    lemma_varint_roundtrip(len, b + rest);
    let n = varint_bytes(len).len();
    assert(s.subrange(n as int, (n + b.len()) as int) =~= b);
}

/// What the start of a receive buffer holds.
#[derive(Debug, Clone, Copy, PartialEq, Eq, Structural)]
pub enum FrameStep {
    /// No complete frame yet: the length prefix or the body is still
    /// missing.
    Incomplete,
    /// The length prefix is negative: no frame can follow.
    Malformed,
    /// A complete frame of `consumed` bytes whose body does not start with a
    /// readable packet id.
    Unreadable { consumed: usize },
    /// A complete frame of `consumed` bytes carrying packet `id`; the packet's
    /// payload runs from `body_start` to `consumed`.
    Packet { consumed: usize, id: i32, body_start: usize },
}

/// How a receive buffer `s` splits into its first frame: a `VarInt` length,
/// then that many bytes that start with the packet id's `VarInt`.
pub open spec fn spec_next_frame(s: Seq<u8>) -> FrameStep {
    match spec_read_varint(s) {
        None => FrameStep::Incomplete,
        Some((len, n)) => if len < 0 {
            FrameStep::Malformed
        } else if s.len() < n + len {
            FrameStep::Incomplete
        } else {
            match spec_read_varint(s.subrange(n as int, n + len)) {
                None => FrameStep::Unreadable { consumed: (n + len) as usize },
                Some((id, k)) => FrameStep::Packet {
                    consumed: (n + len) as usize,
                    id,
                    body_start: (n + k) as usize,
                },
            }
        },
    }
}

/// Splits off the first frame of a receive buffer.
pub fn next_frame(buf: &[u8]) -> (r: FrameStep)
    ensures
        r == spec_next_frame(buf@),
{
    match read_varint(buf) {
        None => FrameStep::Incomplete,
        Some((len, n)) => {
            if len < 0 {
                return FrameStep::Malformed;
            }
            let len = len as usize;
            if buf.len() < n || buf.len() - n < len {
                return FrameStep::Incomplete;
            }
            let body = slice_subrange(buf, n, n + len);
            match read_varint(body) {
                None => FrameStep::Unreadable { consumed: n + len },
                Some((id, k)) => FrameStep::Packet { consumed: n + len, id, body_start: n + k },
            }
        },
    }
}

/// A frame on the wire: the `VarInt` of the length of what follows (packet id
/// and payload, converted with `as i32`), the packet id's `VarInt`, the payload.
pub open spec fn frame_bytes(id: i32, data: Seq<u8>) -> Seq<u8> {
    varint_bytes((varint_bytes(id).len() + data.len()) as i32) + varint_bytes(id) + data
}

/// Proof helper: an encoded `VarInt` takes at most five bytes.
pub proof fn lemma_varint_bytes_len(value: i32)
    ensures
        1 <= varint_bytes(value).len() <= 5,
{
    lemma_varint_u32_bytes_shape((value as u32) as nat);
}

/// Encodes packet `id` with payload `data` as one frame.
pub fn encode_frame(id: i32, data: &[u8]) -> (b: BytesMut)
    requires
        data@.len() + 10 <= isize::MAX,
    ensures
        bytes_of(b) == frame_bytes(id, data@),
{
    proof {
        lemma_varint_bytes_len(id);
        lemma_varint_bytes_len((varint_bytes(id).len() + data@.len()) as i32);
    }
    let payload_len = varint_size(id) + data.len();
    let mut out = new_buffer();
    write_varint(payload_len as i32, &mut out);
    write_varint(id, &mut out);
    put_slice(&mut out, data);
    assert(bytes_of(out) =~= frame_bytes(id, data@));
    out
}

/// A frame written by `encode_frame` is split off whole by `next_frame`,
/// whatever follows it, when its length fits the protocol's 32-bit length.
pub proof fn lemma_frame_roundtrip(id: i32, data: Seq<u8>, rest: Seq<u8>)
    requires
        data.len() + 5 <= i32::MAX,
    ensures
        ({
            let head = varint_bytes((varint_bytes(id).len() + data.len()) as i32);
            spec_next_frame(frame_bytes(id, data) + rest) == FrameStep::Packet {
                consumed: frame_bytes(id, data).len() as usize,
                id,
                body_start: (head.len() + varint_bytes(id).len()) as usize,
            }
        }),
{
    lemma_varint_bytes_len(id);
    let body = varint_bytes(id) + data;
    let len = (varint_bytes(id).len() + data.len()) as i32;
    let head = varint_bytes(len);
    let s = frame_bytes(id, data) + rest;
    assert(s =~= head + (body + rest));
    lemma_varint_roundtrip(len, body + rest);
    assert(len as int == body.len());
    assert(s.subrange(head.len() as int, head.len() + len) =~= varint_bytes(id) + data);
    lemma_varint_roundtrip(id, data);
}

/// A `VarInt` that ends at `varint_end` ends there whatever follows.
proof fn lemma_varint_end_extend(s: Seq<u8>, rest: Seq<u8>, i: nat)
    requires
        varint_end(s, i) is Some,
    ensures
        varint_end(s + rest, i) == varint_end(s, i),
        varint_end(s, i).unwrap() <= s.len(),
        varint_end(s, i).unwrap() <= 5,
        varint_end(s, i).unwrap() > i,
    decreases 5 - i,
{
    assert((s + rest)[i as int] == s[i as int]);
    if s[i as int] >= 128 {
        lemma_varint_end_extend(s, rest, i + 1);
    }
}

/// Where `varint_end` finds no end, every byte it looked at carries the
/// high bit.
proof fn lemma_varint_end_none(s: Seq<u8>, i: nat)
    requires
        varint_end(s, i) is None,
    ensures
        forall|j: int| i <= j < s.len() && j < 5 ==> s[j] >= 128,
    decreases 5 - i,
{
    if i < 5 && i < s.len() {
        lemma_varint_end_none(s, i + 1);
    }
}

/// The sum over the first `n` bytes depends on those bytes alone.
proof fn lemma_varint_sum_extend(s: Seq<u8>, rest: Seq<u8>, n: nat)
    requires
        n <= s.len(),
    ensures
        varint_sum(s + rest, n) == varint_sum(s, n),
    decreases n,
{
    if n > 0 {
        assert((s + rest).drop_first() =~= s.drop_first() + rest);
        lemma_varint_sum_extend(s.drop_first(), rest, (n - 1) as nat);
    }
}

/// A `VarInt` read at the start of `s` reads the same whatever follows, and
/// takes between one byte and all of `s`.
pub proof fn lemma_read_varint_extend(s: Seq<u8>, rest: Seq<u8>)
    requires
        spec_read_varint(s) is Some,
    ensures
        spec_read_varint(s + rest) == spec_read_varint(s),
        1 <= spec_read_varint(s).unwrap().1 <= s.len(),
        spec_read_varint(s).unwrap().1 <= 5,
{
    lemma_varint_end_extend(s, rest, 0);
    lemma_varint_sum_extend(s, rest, varint_end(s, 0).unwrap());
}

/// What `next_frame` decides on a buffer stands once bytes arrive after it,
/// unless it asked for more: a complete frame (readable or not) and a
/// negative length are found again, with the same bytes consumed. When it
/// asks for more, either the length prefix is read and asks for more bytes
/// than the buffer holds, or the prefix is unfinished (every byte so far
/// carries the high bit, and there are fewer than five), or it runs past
/// five bytes.
pub proof fn lemma_next_frame_extend(s: Seq<u8>, rest: Seq<u8>)
    ensures
        !(spec_next_frame(s) is Incomplete) ==> spec_next_frame(s + rest) == spec_next_frame(s),
        spec_next_frame(s) matches FrameStep::Packet { consumed, id, body_start } ==> 1 <= consumed
            <= s.len() && body_start <= consumed,
        spec_next_frame(s) matches FrameStep::Unreadable { consumed } ==> 1 <= consumed <= s.len(),
        spec_next_frame(s) is Incomplete ==> (spec_read_varint(s) matches Some((len, n)) && 0 <= len
            && s.len() < n + len) || (spec_read_varint(s) is None && forall|j: int|
            0 <= j < s.len() && j < 5 ==> #[trigger] s[j] >= 128),
{
    match spec_read_varint(s) {
        None => {
            lemma_varint_end_none(s, 0);
        },
        Some((len, n)) => {
            lemma_read_varint_extend(s, rest);
            if len >= 0 && s.len() >= n + len {
                let t = s + rest;
                assert(t.subrange(n as int, n + len) =~= s.subrange(n as int, n + len));
                match spec_read_varint(s.subrange(n as int, n + len)) {
                    None => {},
                    Some((id, k)) => {
                        lemma_read_varint_extend(s.subrange(n as int, n + len), Seq::<u8>::empty());
                    },
                }
            }
        },
    }
}

/// `varint_size` gives the number of bytes that `write_varint` appends:
/// both are the length of `varint_bytes`.
pub proof fn lemma_varint_size_is_written_length(value: i32, before: Seq<u8>, after: Seq<u8>)
    requires
        after == before + varint_bytes(value),
    ensures
        after.len() - before.len() == varint_bytes(value).len(),
        1 <= after.len() - before.len() <= 5,
{
    lemma_varint_bytes_len(value);
}

/// How taking frames off a receive buffer stopped.
#[derive(Debug, Clone, Copy, PartialEq, Eq, Structural)]
pub enum DrainEnd {
    /// The next frame is not complete yet: more bytes are needed.
    Wait,
    /// A complete frame whose body does not start with a readable packet id
    /// was taken off; the driver waits for more bytes before going on.
    Skipped,
    /// A negative length prefix: no frame can follow.
    Malformed,
}

/// The packets that the driver takes off a receive buffer `s` in one go,
/// each as its id and payload, in order; how many bytes it takes off; and
/// why it stops.
pub open spec fn drain(s: Seq<u8>) -> (Seq<(i32, Seq<u8>)>, nat, DrainEnd)
    decreases s.len(),
{
    match spec_next_frame(s) {
        FrameStep::Incomplete => (seq![], 0, DrainEnd::Wait),
        FrameStep::Malformed => (seq![], 0, DrainEnd::Malformed),
        FrameStep::Unreadable { consumed } => (seq![], consumed as nat, DrainEnd::Skipped),
        FrameStep::Packet { consumed, id, body_start } => {
            proof {
                lemma_next_frame_extend(s, Seq::<u8>::empty());
            }
            let rest = drain(s.skip(consumed as int));
            (
                seq![(id, s.subrange(body_start as int, consumed as int))] + rest.0,
                (consumed + rest.1) as nat,
                rest.2,
            )
        },
    }
}

/// Draining takes off no more than the buffer holds.
pub proof fn lemma_drain_len(s: Seq<u8>)
    ensures
        drain(s).1 <= s.len(),
    decreases s.len(),
{
    lemma_next_frame_extend(s, Seq::<u8>::empty());
    if let FrameStep::Packet { consumed, id, body_start } = spec_next_frame(s) {
        lemma_drain_len(s.skip(consumed as int));
    }
}

/// Bytes may arrive in pieces of any size: taking frames off `a`, then off
/// what is left of it with `b` appended, takes off the same packets as
/// taking them off `a + b` at once. Where draining `a` stops short of
/// waiting (a skipped or malformed frame), `b` changes nothing.
pub proof fn lemma_drain_split(a: Seq<u8>, b: Seq<u8>)
    ensures
        drain(a).2 != DrainEnd::Wait ==> drain(a + b) == drain(a),
        drain(a).2 == DrainEnd::Wait ==> ({
            let r = drain(a.skip(drain(a).1 as int) + b);
            drain(a + b) == (drain(a).0 + r.0, drain(a).1 + r.1, r.2)
        }),
    decreases a.len(),
{
    lemma_next_frame_extend(a, b);
    match spec_next_frame(a) {
        FrameStep::Incomplete => {
            assert(a.skip(0) =~= a);
            assert(seq![] + drain(a + b).0 =~= drain(a + b).0);
        },
        FrameStep::Malformed => {},
        FrameStep::Unreadable { consumed } => {},
        FrameStep::Packet { consumed, id, body_start } => {
            let c = consumed as int;
            let t = a.skip(c);
            assert((a + b).skip(c) =~= t + b);
            assert((a + b).subrange(body_start as int, c) =~= a.subrange(body_start as int, c));
            lemma_drain_split(t, b);
            let head = seq![(id, a.subrange(body_start as int, c))];
            lemma_drain_len(t);
            assert(drain(a).1 == c + drain(t).1);
            if drain(t).2 == DrainEnd::Wait {
                assert(a.skip(drain(a).1 as int) =~= t.skip(drain(t).1 as int));
                let r = drain(t.skip(drain(t).1 as int) + b);
                assert(head + (drain(t).0 + r.0) =~= (head + drain(t).0) + r.0);
            }
        },
    }
}

/// Draining stops to wait only where what is left holds no complete frame.
pub proof fn lemma_drain_wait_leaves_incomplete(s: Seq<u8>)
    requires
        drain(s).2 == DrainEnd::Wait,
    ensures
        spec_next_frame(s.skip(drain(s).1 as int)) is Incomplete,
    decreases s.len(),
{
    lemma_next_frame_extend(s, Seq::<u8>::empty());
    match spec_next_frame(s) {
        FrameStep::Incomplete => {
            assert(s.skip(0) =~= s);
        },
        FrameStep::Packet { consumed, id, body_start } => {
            let t = s.skip(consumed as int);
            lemma_drain_wait_leaves_incomplete(t);
            lemma_drain_len(t);
            assert(s.skip(drain(s).1 as int) =~= t.skip(drain(t).1 as int));
        },
        _ => {},
    }
}

/// What the driver takes off over a run of reads, starting from the bytes
/// `buf` left over: after each read the buffer is drained, and what is
/// left waits for the next read. Gives the packets in order, the bytes left
/// at the end, and whether every drain stopped only to wait.
pub open spec fn drain_reads(buf: Seq<u8>, reads: Seq<Seq<u8>>) -> (Seq<(i32, Seq<u8>)>, Seq<u8>, bool)
    decreases reads.len(),
{
    if reads.len() == 0 {
        (seq![], buf, true)
    } else {
        let s = buf + reads[0];
        let d = drain(s);
        let rest = drain_reads(s.skip(d.1 as int), reads.drop_first());
        (d.0 + rest.0, rest.1, d.2 == DrainEnd::Wait && rest.2)
    }
}

/// However the bytes are split into reads, the driver takes off the same
/// packets as from all the bytes at once, and keeps the same bytes for
/// later, as long as no drain stops at a skipped or malformed frame.
pub proof fn lemma_drain_any_reads(reads: Seq<Seq<u8>>)
    requires
        drain_reads(Seq::<u8>::empty(), reads).2,
    ensures
        ({
            let all = reads.flatten();
            &&& drain_reads(Seq::<u8>::empty(), reads).0 == drain(all).0
            &&& drain_reads(Seq::<u8>::empty(), reads).1 == all.skip(drain(all).1 as int)
            &&& drain(all).2 == DrainEnd::Wait
        }),
{
    lemma_drain_reads_from(Seq::<u8>::empty(), reads);
    assert(Seq::<u8>::empty() + reads.flatten() =~= reads.flatten());
}

/// `lemma_drain_any_reads`, from left-over bytes that hold no complete
/// frame.
proof fn lemma_drain_reads_from(buf: Seq<u8>, reads: Seq<Seq<u8>>)
    requires
        spec_next_frame(buf) is Incomplete,
        drain_reads(buf, reads).2,
    ensures
        ({
            let all = buf + reads.flatten();
            &&& drain_reads(buf, reads).0 == drain(all).0
            &&& drain_reads(buf, reads).1 == all.skip(drain(all).1 as int)
            &&& drain(all).2 == DrainEnd::Wait
        }),
    decreases reads.len(),
{
    if reads.len() == 0 {
        assert(buf + reads.flatten() =~= buf);
        assert(buf.skip(0) =~= buf);
    } else {
        let s = buf + reads[0];
        let f = reads.drop_first().flatten();
        let d = drain(s);
        assert(buf + reads.flatten() =~= s + f);
        lemma_drain_split(s, f);
        lemma_drain_len(s);
        let left = s.skip(d.1 as int);
        lemma_drain_wait_leaves_incomplete(s);
        lemma_drain_reads_from(left, reads.drop_first());
        let r = drain(left + f);
        lemma_drain_len(left + f);
        lemma_drain_len(s + f);
        assert((left + f).skip(r.1 as int) =~= (s + f).skip(drain(s + f).1 as int));
    }
}

/// The packets at positions `v` of `buf`: each id with its payload bytes.
pub open spec fn frames_at(buf: Seq<u8>, v: Seq<(i32, usize, usize)>) -> Seq<(i32, Seq<u8>)> {
    v.map_values(|f: (i32, usize, usize)| (f.0, buf.subrange(f.1 as int, f.2 as int)))
}

/// After taking the packets `v` off `buf`, up to position `pos`, what is
/// left to drain accounts for the rest of `drain(buf)`.
pub open spec fn drained_up_to(buf: Seq<u8>, v: Seq<(i32, usize, usize)>, pos: int) -> bool {
    &&& 0 <= pos <= buf.len()
    &&& drain(buf).0 == frames_at(buf, v) + drain(buf.skip(pos)).0
    &&& drain(buf).1 == pos + drain(buf.skip(pos)).1
    &&& drain(buf).2 == drain(buf.skip(pos)).2
    &&& forall|k: int| #![trigger v[k]] 0 <= k < v.len() ==> v[k].1 <= v[k].2 <= pos
}

/// Taking one more complete packet off keeps `drained_up_to`.
proof fn lemma_drain_step(buf: Seq<u8>, v: Seq<(i32, usize, usize)>, pos: int)
    requires
        drained_up_to(buf, v, pos),
        spec_next_frame(buf.skip(pos)) is Packet,
        buf.len() <= usize::MAX,
    ensures
        ({
            let (c, id, bs) = match spec_next_frame(buf.skip(pos)) {
                FrameStep::Packet { consumed, id, body_start } => (consumed as int, id, body_start as int),
                _ => (0, 0, 0),
            };
            drained_up_to(buf, v.push((id, (pos + bs) as usize, (pos + c) as usize)), pos + c)
        }),
{
    let t = buf.skip(pos);
    lemma_next_frame_extend(t, Seq::<u8>::empty());
    if let FrameStep::Packet { consumed, id, body_start } = spec_next_frame(t) {
        let c = consumed as int;
        let bs = body_start as int;
        let f = (id, (pos + bs) as usize, (pos + c) as usize);
        let w = v.push(f);
        assert(t.subrange(bs, c) =~= buf.subrange(pos + bs, pos + c));
        assert(t.skip(c) =~= buf.skip(pos + c));
        assert(frames_at(buf, w) =~= frames_at(buf, v).push((id, t.subrange(bs, c))));
        let r = drain(t.skip(c));
        assert(frames_at(buf, w) + r.0 =~= frames_at(buf, v) + (seq![(id, t.subrange(bs, c))] + r.0));
        assert forall|k: int| #![trigger w[k]] 0 <= k < w.len() implies w[k].1 <= w[k].2 <= pos + c by {
            if k < v.len() {
                assert(w[k] == v[k]);
            }
        }
    }
}

/// Takes the frames off the start of a receive buffer (see `drain`): the
/// packets as id and payload position, the number of bytes taken off, and
/// why it stopped.
pub fn split_frames(buf: &[u8]) -> (r: (Vec<(i32, usize, usize)>, usize, DrainEnd))
    ensures
        frames_at(buf@, r.0@) == drain(buf@).0,
        r.1 == drain(buf@).1,
        r.2 == drain(buf@).2,
        r.1 <= buf@.len(),
        forall|k: int| #![trigger r.0@[k]] 0 <= k < r.0@.len() ==> r.0@[k].1 <= r.0@[k].2 <= r.1,
{
    let mut frames: Vec<(i32, usize, usize)> = Vec::new();
    let mut pos: usize = 0;
    assert(buf@.skip(0) =~= buf@);
    assert(frames_at(buf@, frames@) + drain(buf@).0 =~= drain(buf@).0);
    loop
        invariant
            drained_up_to(buf@, frames@, pos as int),
            forall|k: int|
                #![trigger frames@[k]]
                0 <= k < frames@.len() ==> frames@[k].1 <= frames@[k].2 <= pos,
        decreases buf@.len() - pos,
    {
        let rest = slice_subrange(buf, pos, buf.len());
        let ghost t = buf@.skip(pos as int);
        assert(rest@ =~= t);
        proof {
            lemma_next_frame_extend(t, Seq::<u8>::empty());
            lemma_drain_len(t);
        }
        match next_frame(rest) {
            FrameStep::Incomplete => {
                assert(frames_at(buf@, frames@) + seq![] =~= frames_at(buf@, frames@));
                return (frames, pos, DrainEnd::Wait);
            },
            FrameStep::Malformed => {
                assert(frames_at(buf@, frames@) + seq![] =~= frames_at(buf@, frames@));
                return (frames, pos, DrainEnd::Malformed);
            },
            FrameStep::Unreadable { consumed } => {
                assert(frames_at(buf@, frames@) + seq![] =~= frames_at(buf@, frames@));
                return (frames, pos + consumed, DrainEnd::Skipped);
            },
            FrameStep::Packet { consumed, id, body_start } => {
                proof {
                    lemma_drain_step(buf@, frames@, pos as int);
                }
                let ghost before = frames@;
                let next = pos + consumed;
                frames.push((id, pos + body_start, next));
                assert forall|k: int| #![trigger frames@[k]] 0 <= k < frames@.len() implies frames@[k].1
                    <= frames@[k].2 <= next by {
                    if k < before.len() {
                        assert(frames@[k] == before[k]);
                        assert(before[k].1 <= before[k].2 <= pos);
                    }
                }
                pos = next;
            },
        }
    }
}

} // verus!
