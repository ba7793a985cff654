//! The packets that the proxy and its plugins send to clients: kicks,
//! transfers, cookies, keep-alives, resource packs, status responses.

use vstd::prelude::*;
use vstd::string::*;
use vstd::utf8::*;
use bytes::BytesMut;
use crate::buffer::{bytes_of, new_buffer, put_slice, put_u8, put_i64, put_u16, i64_be_bytes, u16_be_bytes};
use crate::network::{write_string, write_bytes, write_varint, string_bytes, varint_bytes, lemma_varint_bytes_len};
use crate::text::{decimal_bytes, write_decimal, lemma_decimal_len};

verus! {

broadcast use vstd::string::group_string_axioms, vstd::utf8::is_ascii_chars_encode_utf8;

/// A packet: its id and its payload, without the frame around them.
#[derive(Debug)]
pub struct Packet {
    pub id: i32,
    pub data: BytesMut,
}

/// Appends the UTF-8 bytes of `s`.
fn put_str(buf: &mut BytesMut, s: &str)
    requires
        bytes_of(*old(buf)).len() + s.spec_bytes().len() <= isize::MAX,
    ensures
        bytes_of(*final(buf)) == bytes_of(*old(buf)) + s.spec_bytes(),
{
    put_slice(buf, s.as_bytes());
}

/// Opening of the chat component that carries a kick reason.
pub const TEXT_OPEN: &'static str = "{\"text\":\"";

/// Closing of the chat component that carries a kick reason.
pub const TEXT_CLOSE: &'static str = "\"}";

/// The JSON chat component `{"text":"<text>"}`, as bytes; the text goes in
/// as it is.
pub open spec fn text_json(text: Seq<u8>) -> Seq<u8> {
    TEXT_OPEN.spec_bytes() + text + TEXT_CLOSE.spec_bytes()
}

proof fn lemma_text_literals()
    ensures
        TEXT_OPEN.spec_bytes().len() == 9,
        TEXT_CLOSE.spec_bytes().len() == 2,
{
    reveal_strlit("{\"text\":\"");
    reveal_strlit("\"}");
    assert(is_ascii(TEXT_OPEN));
    assert(is_ascii(TEXT_CLOSE));
}

/// The disconnect packet of the login state, with `reason` as its message.
pub fn kick_packet(reason: &str) -> (p: Packet)
    requires
        reason.spec_bytes().len() + 32 <= isize::MAX,
    ensures
        p.id == 0,
        bytes_of(p.data) == string_bytes(text_json(reason.spec_bytes())),
{
    proof {
        lemma_text_literals();
    }
    let mut json = new_buffer();
    put_str(&mut json, TEXT_OPEN);
    put_str(&mut json, reason);
    put_str(&mut json, TEXT_CLOSE);
    let mut payload = new_buffer();
    proof {
        lemma_varint_bytes_len(bytes_of(json).len() as i32);
    }
    write_bytes(crate::buffer::buffer_bytes(&json), &mut payload);
    Packet { id: 0x00, data: payload }
}

/// The transfer packet: reconnect to `host` on `port`.
pub fn transfer_packet(host: &str, port: i32) -> (p: Packet)
    requires
        host.spec_bytes().len() + 10 <= isize::MAX,
    ensures
        p.id == 0x0B,
        bytes_of(p.data) == string_bytes(host.spec_bytes()) + varint_bytes(port),
{
    proof {
        lemma_varint_bytes_len(host.spec_bytes().len() as i32);
        lemma_varint_bytes_len(port);
    }
    let mut payload = new_buffer();
    write_string(host, &mut payload);
    write_varint(port, &mut payload);
    Packet { id: 0x0B, data: payload }
}

/// The store cookie packet: keep `payload` on the client under `key`.
pub fn store_cookie_packet(key: &str, payload: &[u8]) -> (p: Packet)
    requires
        key.spec_bytes().len() + payload@.len() + 10 <= isize::MAX,
    ensures
        p.id == 0x0A,
        bytes_of(p.data) == string_bytes(key.spec_bytes()) + string_bytes(payload@),
{
    proof {
        lemma_varint_bytes_len(key.spec_bytes().len() as i32);
        lemma_varint_bytes_len(payload@.len() as i32);
    }
    let mut data = new_buffer();
    write_string(key, &mut data);
    write_bytes(payload, &mut data);
    Packet { id: 0x0A, data }
}

/// The keep-alive packet of the configuration state, carrying `value`.
pub fn keep_alive_packet(value: i64) -> (p: Packet)
    ensures
        p.id == 0x04,
        bytes_of(p.data) == i64_be_bytes(value),
{
    let mut data = new_buffer();
    put_i64(&mut data, value);
    assert(bytes_of(data) =~= i64_be_bytes(value));
    Packet { id: 0x04, data }
}

/// Name of the one field of an NBT text component.
pub const TEXT_TAG_NAME: &'static str = "text";

/// An unnamed NBT compound holding the string tag `text`: compound tag id,
/// string tag id, the name `text`, the string, end tag. Lengths are
/// big-endian 16-bit, the text's converted with `as u16`.
pub open spec fn text_component_nbt(text: Seq<u8>) -> Seq<u8> {
    seq![10u8, 8u8] + u16_be_bytes(4) + TEXT_TAG_NAME.spec_bytes() + u16_be_bytes(text.len() as u16)
        + text + seq![0u8]
}

proof fn lemma_tag_name()
    ensures
        TEXT_TAG_NAME.spec_bytes().len() == 4,
{
    reveal_strlit("text");
    assert(is_ascii(TEXT_TAG_NAME));
}

/// Appends the NBT text component of `text`.
fn put_text_component(buf: &mut BytesMut, text: &str)
    requires
        bytes_of(*old(buf)).len() + text.spec_bytes().len() + 16 <= isize::MAX,
    ensures
        bytes_of(*final(buf)) == bytes_of(*old(buf)) + text_component_nbt(text.spec_bytes()),
{
    proof {
        lemma_tag_name();
    }
    let ghost start = bytes_of(*buf);
    put_u8(buf, 10);
    put_u8(buf, 8);
    put_u16(buf, 4);
    put_str(buf, TEXT_TAG_NAME);
    put_u16(buf, text.len() as u16);
    put_str(buf, text);
    put_u8(buf, 0);
    assert(bytes_of(*buf) =~= start + text_component_nbt(text.spec_bytes()));
}

/// The disconnect packet of the configuration state, with `component` as
/// the text of its NBT message.
pub fn config_disconnect_packet(component: &str) -> (p: Packet)
    requires
        component.spec_bytes().len() + 16 <= isize::MAX,
    ensures
        p.id == 0x02,
        bytes_of(p.data) == text_component_nbt(component.spec_bytes()),
{
    let mut data = new_buffer();
    put_text_component(&mut data, component);
    assert(bytes_of(data) =~= text_component_nbt(component.spec_bytes()));
    Packet { id: 0x02, data }
}

/// The reset chat packet: no payload.
pub fn reset_chat_packet() -> (p: Packet)
    ensures
        p.id == 0x06,
        bytes_of(p.data) == Seq::<u8>::empty(),
{
    Packet { id: 0x06, data: new_buffer() }
}

/// The cookie request packet of the configuration state, for `key`.
pub fn fetch_cookie_packet(key: &str) -> (p: Packet)
    requires
        key.spec_bytes().len() + 5 <= isize::MAX,
    ensures
        p.id == 0x00,
        bytes_of(p.data) == string_bytes(key.spec_bytes()),
{
    proof {
        lemma_varint_bytes_len(key.spec_bytes().len() as i32);
    }
    let mut data = new_buffer();
    write_string(key, &mut data);
    assert(bytes_of(data) =~= string_bytes(key.spec_bytes()));
    Packet { id: 0x00, data }
}

/// The cookie request packet of the login state, for `key`.
pub fn fetch_login_cookie_packet(key: &str) -> (p: Packet)
    requires
        key.spec_bytes().len() + 5 <= isize::MAX,
    ensures
        p.id == 0x05,
        bytes_of(p.data) == string_bytes(key.spec_bytes()),
{
    proof {
        lemma_varint_bytes_len(key.spec_bytes().len() as i32);
    }
    let mut data = new_buffer();
    write_string(key, &mut data);
    assert(bytes_of(data) =~= string_bytes(key.spec_bytes()));
    Packet { id: 0x05, data }
}

/// The plugin message packet: `data` on `channel`.
pub fn plugin_message_packet(channel: &str, data: &[u8]) -> (p: Packet)
    requires
        channel.spec_bytes().len() + data@.len() + 5 <= isize::MAX,
    ensures
        p.id == 0x01,
        bytes_of(p.data) == string_bytes(channel.spec_bytes()) + data@,
{
    proof {
        lemma_varint_bytes_len(channel.spec_bytes().len() as i32);
    }
    let mut payload = new_buffer();
    write_string(channel, &mut payload);
    put_slice(&mut payload, data);
    Packet { id: 0x01, data: payload }
}

/// The add resource pack packet: pack UUID, URL, hash, whether it is
/// forced, and an optional prompt (flag byte, then its NBT text component).
pub open spec fn add_resource_pack_bytes(
    uuid: Seq<u8>,
    url: Seq<u8>,
    hash: Seq<u8>,
    forced: bool,
    prompt: Option<Seq<u8>>,
) -> Seq<u8> {
    uuid + string_bytes(url) + string_bytes(hash) + seq![if forced { 1u8 } else { 0u8 }] + match prompt {
        Some(msg) => seq![1u8] + text_component_nbt(msg),
        None => seq![0u8],
    }
}

/// The add resource pack packet.
pub fn add_resource_pack_packet(
    uuid: &[u8; 16],
    url: &str,
    hash: &str,
    forced: bool,
    prompt_message: Option<&str>,
) -> (p: Packet)
    requires
        url.spec_bytes().len() + hash.spec_bytes().len() + match prompt_message {
            Some(m) => m.spec_bytes().len(),
            None => 0,
        } + 64 <= isize::MAX,
    ensures
        p.id == 0x09,
        bytes_of(p.data) == add_resource_pack_bytes(
            uuid@,
            url.spec_bytes(),
            hash.spec_bytes(),
            forced,
            match prompt_message {
                Some(m) => Some(m.spec_bytes()),
                None => None,
            },
        ),
{
    proof {
        lemma_varint_bytes_len(url.spec_bytes().len() as i32);
        lemma_varint_bytes_len(hash.spec_bytes().len() as i32);
    }
    let mut data = new_buffer();
    put_slice(&mut data, uuid.as_slice());
    write_string(url, &mut data);
    write_string(hash, &mut data);
    put_u8(&mut data, if forced { 1 } else { 0 });
    let ghost mid = bytes_of(data);
    match prompt_message {
        Some(msg) => {
            put_u8(&mut data, 1);
            put_text_component(&mut data, msg);
            assert(bytes_of(data) =~= mid + (seq![1u8] + text_component_nbt(msg.spec_bytes())));
        },
        None => {
            put_u8(&mut data, 0);
        },
    }
    assert(bytes_of(data) =~= add_resource_pack_bytes(
        uuid@,
        url.spec_bytes(),
        hash.spec_bytes(),
        forced,
        match prompt_message {
            Some(m) => Some(m.spec_bytes()),
            None => None,
        },
    ));
    Packet { id: 0x09, data }
}

/// The remove resource pack packet: one pack by UUID, or all of them.
pub fn remove_resource_pack_packet(uuid: Option<&[u8; 16]>) -> (p: Packet)
    ensures
        p.id == 0x08,
        bytes_of(p.data) == match uuid {
            Some(u) => seq![1u8] + u@,
            None => seq![0u8],
        },
{
    let mut data = new_buffer();
    match uuid {
        Some(u) => {
            put_u8(&mut data, 1);
            put_slice(&mut data, u.as_slice());
        },
        None => {
            put_u8(&mut data, 0);
        },
    }
    assert(bytes_of(data) =~= match uuid {
        Some(u) => seq![1u8] + u@,
        None => seq![0u8],
    });
    Packet { id: 0x08, data }
}

/// The finish configuration packet: no payload.
pub fn finish_configuration_packet() -> (p: Packet)
    ensures
        p.id == 0x03,
        bytes_of(p.data) == Seq::<u8>::empty(),
{
    Packet { id: 0x03, data: new_buffer() }
}

/// The encoding of a list of known packs: namespace, id and version of each,
/// as strings, in order.
pub open spec fn packs_bytes(packs: Seq<(&str, &str, &str)>) -> Seq<u8>
    decreases packs.len(),
{
    if packs.len() == 0 {
        seq![]
    } else {
        packs_bytes(packs.drop_last()) + string_bytes(packs.last().0.spec_bytes())
            + string_bytes(packs.last().1.spec_bytes()) + string_bytes(packs.last().2.spec_bytes())
    }
}

proof fn lemma_packs_bytes_prefix(packs: Seq<(&str, &str, &str)>, i: int)
    requires
        0 <= i <= packs.len(),
    ensures
        packs_bytes(packs.take(i)).len() <= packs_bytes(packs).len(),
    decreases packs.len() - i,
{
    if i < packs.len() {
        lemma_packs_bytes_prefix(packs, i + 1);
        assert(packs.take(i + 1).drop_last() =~= packs.take(i));
    } else {
        assert(packs.take(i) =~= packs);
    }
}

/// The known packs packet of the configuration state: the count, then each
/// pack's namespace, id and version.
pub fn known_packs_packet(packs: &[(&str, &str, &str)]) -> (p: Packet)
    requires
        packs_bytes(packs@).len() + 5 <= isize::MAX,
    ensures
        p.id == 0x0E,
        bytes_of(p.data) == varint_bytes(packs@.len() as i32) + packs_bytes(packs@),
{
    proof {
        lemma_varint_bytes_len(packs@.len() as i32);
    }
    let mut data = new_buffer();
    write_varint(packs.len() as i32, &mut data);
    let ghost head = bytes_of(data);
    let mut i: usize = 0;
    while i < packs.len()
        invariant
            i <= packs@.len(),
            head == varint_bytes(packs@.len() as i32),
            head.len() <= 5,
            packs_bytes(packs@).len() + 5 <= isize::MAX,
            bytes_of(data) == head + packs_bytes(packs@.take(i as int)),
        decreases packs.len() - i,
    {
        let (namespace, id, version) = packs[i];
        proof {
            lemma_packs_bytes_prefix(packs@, i + 1);
            assert(packs@.take(i + 1).drop_last() =~= packs@.take(i as int));
            assert(packs@.take(i + 1).last() == packs@[i as int]);
        }
        let ghost before = bytes_of(data);
        write_string(namespace, &mut data);
        write_string(id, &mut data);
        write_string(version, &mut data);
        assert(bytes_of(data) =~= head + packs_bytes(packs@.take(i + 1)));
        i = i + 1;
    }
    assert(packs@.take(packs@.len() as int) =~= packs@);
    Packet { id: 0x0E, data }
}

/// Start of the status JSON, up to the version name.
pub const STATUS_VERSION_OPEN: &'static str = "{\"version\":{\"name\":\"";
/// Between the version name and the protocol number.
pub const STATUS_PROTOCOL: &'static str = "\",\"protocol\":";
/// Between the protocol number and the player limit.
pub const STATUS_MAX: &'static str = "},\"players\":{\"max\":";
/// Between the player limit and the online count.
pub const STATUS_ONLINE: &'static str = ",\"online\":";
/// Between the online count and the message of the day.
pub const STATUS_DESCRIPTION: &'static str = "},\"description\":{\"text\":\"";
/// After the message of the day.
pub const STATUS_DESCRIPTION_CLOSE: &'static str = "\"}";
/// Before the favicon, when there is one.
pub const STATUS_FAVICON_OPEN: &'static str = ",\"favicon\":\"";
/// After the favicon.
pub const STATUS_FAVICON_CLOSE: &'static str = "\"";
/// End of the status JSON.
pub const STATUS_CLOSE: &'static str = "}";

/// The server list status JSON:
/// `{"version":{"name":"<v>","protocol":<p>},"players":{"max":<m>,"online":<o>},
/// "description":{"text":"<motd>"}` then `,"favicon":"<f>"` when there is a
/// favicon, then `}`. Strings go in as they are; numbers in decimal.
pub open spec fn status_json(
    version_name: Seq<u8>,
    protocol: i32,
    max_players: i32,
    online_players: i32,
    motd: Seq<u8>,
    favicon: Option<Seq<u8>>,
) -> Seq<u8> {
    STATUS_VERSION_OPEN.spec_bytes() + version_name + STATUS_PROTOCOL.spec_bytes() + decimal_bytes(
        protocol as int,
    ) + STATUS_MAX.spec_bytes() + decimal_bytes(max_players as int) + STATUS_ONLINE.spec_bytes()
        + decimal_bytes(online_players as int) + STATUS_DESCRIPTION.spec_bytes() + motd
        + STATUS_DESCRIPTION_CLOSE.spec_bytes() + match favicon {
        Some(f) => STATUS_FAVICON_OPEN.spec_bytes() + f + STATUS_FAVICON_CLOSE.spec_bytes(),
        None => Seq::<u8>::empty(),
    } + STATUS_CLOSE.spec_bytes()
}

proof fn lemma_status_literals()
    ensures
        STATUS_VERSION_OPEN.spec_bytes().len() == 20,
        STATUS_PROTOCOL.spec_bytes().len() == 13,
        STATUS_MAX.spec_bytes().len() == 19,
        STATUS_ONLINE.spec_bytes().len() == 10,
        STATUS_DESCRIPTION.spec_bytes().len() == 25,
        STATUS_DESCRIPTION_CLOSE.spec_bytes().len() == 2,
        STATUS_FAVICON_OPEN.spec_bytes().len() == 12,
        STATUS_FAVICON_CLOSE.spec_bytes().len() == 1,
        STATUS_CLOSE.spec_bytes().len() == 1,
{
    reveal_strlit("{\"version\":{\"name\":\"");
    reveal_strlit("\",\"protocol\":");
    reveal_strlit("},\"players\":{\"max\":");
    reveal_strlit(",\"online\":");
    reveal_strlit("},\"description\":{\"text\":\"");
    reveal_strlit("\"}");
    reveal_strlit(",\"favicon\":\"");
    reveal_strlit("\"");
    reveal_strlit("}");
    assert(is_ascii(STATUS_VERSION_OPEN));
    assert(is_ascii(STATUS_PROTOCOL));
    assert(is_ascii(STATUS_MAX));
    assert(is_ascii(STATUS_ONLINE));
    assert(is_ascii(STATUS_DESCRIPTION));
    assert(is_ascii(STATUS_DESCRIPTION_CLOSE));
    assert(is_ascii(STATUS_FAVICON_OPEN));
    assert(is_ascii(STATUS_FAVICON_CLOSE));
    assert(is_ascii(STATUS_CLOSE));
}

/// The status response packet: the status JSON as a string.
pub fn status_response_packet(
    version_name: &str,
    protocol: i32,
    max_players: i32,
    online_players: i32,
    motd: &str,
    favicon: Option<&str>,
) -> (p: Packet)
    requires
        version_name.spec_bytes().len() + motd.spec_bytes().len() + match favicon {
            Some(f) => f.spec_bytes().len(),
            None => 0,
        } + 256 <= isize::MAX,
    ensures
        p.id == 0x00,
        bytes_of(p.data) == string_bytes(
            status_json(
                version_name.spec_bytes(),
                protocol,
                max_players,
                online_players,
                motd.spec_bytes(),
                match favicon {
                    Some(f) => Some(f.spec_bytes()),
                    None => None,
                },
            ),
        ),
{
    proof {
        lemma_status_literals();
        lemma_decimal_len(protocol as i64);
        lemma_decimal_len(max_players as i64);
        lemma_decimal_len(online_players as i64);
    }
    let mut json = new_buffer();
    put_str(&mut json, STATUS_VERSION_OPEN);
    put_str(&mut json, version_name);
    put_str(&mut json, STATUS_PROTOCOL);
    write_decimal(protocol as i64, &mut json);
    put_str(&mut json, STATUS_MAX);
    write_decimal(max_players as i64, &mut json);
    put_str(&mut json, STATUS_ONLINE);
    write_decimal(online_players as i64, &mut json);
    put_str(&mut json, STATUS_DESCRIPTION);
    put_str(&mut json, motd);
    put_str(&mut json, STATUS_DESCRIPTION_CLOSE);
    let ghost before_favicon = bytes_of(json);
    match favicon {
        Some(f) => {
            put_str(&mut json, STATUS_FAVICON_OPEN);
            put_str(&mut json, f);
            put_str(&mut json, STATUS_FAVICON_CLOSE);
        },
        None => {},
    }
    put_str(&mut json, STATUS_CLOSE);
    let ghost json_len = bytes_of(json).len();
    proof {
        lemma_varint_bytes_len(json_len as i32);
    }
    assert(bytes_of(json) =~= status_json(
        version_name.spec_bytes(),
        protocol,
        max_players,
        online_players,
        motd.spec_bytes(),
        match favicon {
            Some(f) => Some(f.spec_bytes()),
            None => None,
        },
    ));
    let mut data = new_buffer();
    write_bytes(crate::buffer::buffer_bytes(&json), &mut data);
    Packet { id: 0x00, data }
}

} // verus!
