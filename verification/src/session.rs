//! The per-connection protocol state machine of the proxy.
//!
//! A `Session` holds what the proxy remembers of one client. Each packet that
//! the client sends moves the session on and yields the actions that the
//! connection's driver performs in order: notify the plugins, write bytes to
//! the client, or close the connection.

use vstd::prelude::*;
use vstd::utf8::*;
use vstd::string::*;
use vstd::slice::{slice_subrange, slice_to_vec};
use vstd::pervasive::VecAdditionalExecFns;
use md5::Digest;
use bytes::BytesMut;
use crate::text::owned;
use crate::buffer::{bytes_of, new_buffer, put_slice, put_u8, put_i64, i64_be_bytes};
use crate::network::{
    ConnectionState, read_varint, read_string, write_string, write_varint, encode_frame,
    spec_read_varint, spec_read_string, string_bytes, frame_bytes, varint_bytes,
    lemma_varint_bytes_len, MAX_STRING_BYTES,
};

verus! {

broadcast use vstd::utf8::encode_utf8_decode_utf8;

/// The oldest protocol version (1.20.5) that the proxy lets log in.
pub const MIN_PROTOCOL: i32 = 766;

/// The disconnect reason sent to clients older than `MIN_PROTOCOL`.
pub const OUTDATED_CLIENT_REASON: &'static str = "{\"text\":\"Please use Minecraft 1.20.5 or above.\"}";

/// What is hashed, before the player name, for an offline-mode UUID.
pub const OFFLINE_PLAYER_PREFIX: &'static str = "OfflinePlayer:";

/// The MD5 digest of `data`, as the `md-5` crate computes it.
pub uninterp spec fn md5_of(data: Seq<u8>) -> Seq<u8>;

/// `Md5::digest` of the `md-5` crate: the 16-byte MD5 digest of `data`.
#[verifier::external_body]
fn md5_digest(data: &[u8]) -> (r: Vec<u8>)
    ensures
        r@ == md5_of(data@),
        r@.len() == 16,
{
    md5::Md5::digest(data).to_vec()
}

/// The offline-mode UUID of a player: the MD5 digest of
/// `"OfflinePlayer:" + name`, marked as a version 3, RFC 4122 UUID.
pub open spec fn offline_uuid(name: Seq<u8>) -> Seq<u8> {
    let h = md5_of(OFFLINE_PLAYER_PREFIX.spec_bytes() + name);
    h.update(6, (h[6] & 0x0f) | 0x30).update(8, (h[8] & 0x3f) | 0x80)
}

/// Computes the offline-mode UUID of the player whose name has UTF-8 bytes
/// `name`.
pub fn offline_uuid_bytes(name: &[u8]) -> (r: Vec<u8>)
    ensures
        r@ == offline_uuid(name@),
        r@.len() == 16,
{
    let mut input = slice_to_vec(OFFLINE_PLAYER_PREFIX.as_bytes());
    input.extend_from_slice(name);
    assert(input@ =~= OFFLINE_PLAYER_PREFIX.spec_bytes() + name@);
    let mut h = md5_digest(input.as_slice());
    let b6 = (h[6] & 0x0f) | 0x30;
    h.set(6, b6);
    let b8 = (h[8] & 0x3f) | 0x80;
    h.set(8, b8);
    h
}

/// An offline-mode UUID (of a 16-byte digest) carries version 3 in the high
/// nibble of byte 6 and the RFC 4122 variant (binary 10) in the top bits of
/// byte 8; the other bytes are the digest's.
pub proof fn lemma_offline_uuid_version(name: Seq<u8>)
    ensures
        md5_of(OFFLINE_PLAYER_PREFIX.spec_bytes() + name).len() == 16 ==> {
            let h = md5_of(OFFLINE_PLAYER_PREFIX.spec_bytes() + name);
            &&& offline_uuid(name).len() == 16
            &&& offline_uuid(name)[6] >> 4u8 == 3
            &&& offline_uuid(name)[8] >> 6u8 == 2
            &&& forall|i: int| 0 <= i < 16 && i != 6 && i != 8 ==> offline_uuid(name)[i] == h[i]
        },
{
    let h = md5_of(OFFLINE_PLAYER_PREFIX.spec_bytes() + name);
    if h.len() == 16 {
        let a = h[6];
        let b = h[8];
        assert(((a & 0x0f) | 0x30) >> 4u8 == 3) by (bit_vector);
        assert(((b & 0x3f) | 0x80) >> 6u8 == 2) by (bit_vector);
    }
}

/// What the proxy remembers of one client connection.
pub struct Session {
    pub state: ConnectionState,
    pub is_from_transfer: bool,
    pub client_name: Option<String>,
    pub client_protocol: i32,
    pub client_hostname: String,
}

/// A `Session` seen as values: strings by their characters.
pub struct SessionView {
    pub state: ConnectionState,
    pub is_from_transfer: bool,
    pub client_name: Option<Seq<char>>,
    pub client_protocol: i32,
    pub client_hostname: Seq<char>,
}

impl View for Session {
    type V = SessionView;

    open spec fn view(&self) -> SessionView {
        SessionView {
            state: self.state,
            is_from_transfer: self.is_from_transfer,
            client_name: match self.client_name {
                Some(n) => Some(n@),
                None => None,
            },
            client_protocol: self.client_protocol,
            client_hostname: self.client_hostname@,
        }
    }
}

/// One thing that the connection's driver does in answer to a packet.
#[derive(Debug)]
pub enum SessionAction {
    /// Notify the plugins of a handshake.
    Handshake { protocol: i32, hostname: String, port: u16, next_state: i32 },
    /// Notify the plugins of a status request.
    StatusRequest { protocol: i32, hostname: String },
    /// Ask the plugins whether the player named `name`, with the 16-byte
    /// `uuid` it logs in with, may log in; when they all allow it, write
    /// `on_allow` (the login success frame) to the client.
    PreLogin { name: String, uuid: Vec<u8>, is_from_transfer: bool, on_allow: BytesMut },
    /// Notify the plugins of a cookie response.
    CookieResponse { key: String, payload: Option<Vec<u8>> },
    /// Notify the plugins that the client sent its settings and is ready.
    Ready {
        locale: String,
        view_distance: i8,
        chat_visibility: i32,
        chat_colors: bool,
        main_hand: i32,
    },
    /// Notify the plugins of a plugin message.
    PluginMessage { channel: String, data: Vec<u8> },
    /// Notify the plugins of a resource pack response.
    ResourcePackResponse { uuid: Vec<u8>, result: i32 },
    /// Hand the raw packet to the plugins, tagged with this state.
    Packet { state: ConnectionState },
    /// Write these bytes to the client.
    Send { frame: BytesMut },
    /// Close the connection.
    Close,
}

/// A `SessionAction` seen as values.
pub enum ActionView {
    Handshake { protocol: i32, hostname: Seq<char>, port: u16, next_state: i32 },
    StatusRequest { protocol: i32, hostname: Seq<char> },
    PreLogin { name: Seq<char>, uuid: Seq<u8>, is_from_transfer: bool, on_allow: Seq<u8> },
    CookieResponse { key: Seq<char>, payload: Option<Seq<u8>> },
    Ready {
        locale: Seq<char>,
        view_distance: i8,
        chat_visibility: i32,
        chat_colors: bool,
        main_hand: i32,
    },
    PluginMessage { channel: Seq<char>, data: Seq<u8> },
    ResourcePackResponse { uuid: Seq<u8>, result: i32 },
    Packet { state: ConnectionState },
    Send { frame: Seq<u8> },
    Close,
}

impl View for SessionAction {
    type V = ActionView;

    open spec fn view(&self) -> ActionView {
        match self {
            SessionAction::Handshake { protocol, hostname, port, next_state } => ActionView::Handshake {
                protocol: *protocol,
                hostname: hostname@,
                port: *port,
                next_state: *next_state,
            },
            SessionAction::StatusRequest { protocol, hostname } => ActionView::StatusRequest {
                protocol: *protocol,
                hostname: hostname@,
            },
            SessionAction::PreLogin { name, uuid, is_from_transfer, on_allow } => ActionView::PreLogin {
                name: name@,
                uuid: uuid@,
                is_from_transfer: *is_from_transfer,
                on_allow: bytes_of(*on_allow),
            },
            SessionAction::CookieResponse { key, payload } => ActionView::CookieResponse {
                key: key@,
                payload: match payload {
                    Some(p) => Some(p@),
                    None => None,
                },
            },
            SessionAction::Ready { locale, view_distance, chat_visibility, chat_colors, main_hand } =>
                ActionView::Ready {
                locale: locale@,
                view_distance: *view_distance,
                chat_visibility: *chat_visibility,
                chat_colors: *chat_colors,
                main_hand: *main_hand,
            },
            SessionAction::PluginMessage { channel, data } => ActionView::PluginMessage {
                channel: channel@,
                data: data@,
            },
            SessionAction::ResourcePackResponse { uuid, result } => ActionView::ResourcePackResponse {
                uuid: uuid@,
                result: *result,
            },
            SessionAction::Packet { state } => ActionView::Packet { state: *state },
            SessionAction::Send { frame } => ActionView::Send { frame: bytes_of(*frame) },
            SessionAction::Close => ActionView::Close,
        }
    }
}

/// The fields of a handshake packet: protocol version, server address (its
/// UTF-8 bytes), server port, and the requested next state.
pub open spec fn spec_parse_handshake(d: Seq<u8>) -> Option<(i32, Seq<u8>, u16, i32)> {
    match spec_read_varint(d) {
        None => None,
        Some((pv, a)) => {
            let d1 = d.skip(a as int);
            match spec_read_string(d1) {
                None => None,
                Some((host, b)) => {
                    let d2 = d1.skip(b as int);
                    if d2.len() < 2 {
                        None
                    } else {
                        match spec_read_varint(d2.skip(2)) {
                            None => None,
                            Some((ns, _)) => Some((pv, host, (d2[0] * 256 + d2[1]) as u16, ns)),
                        }
                    }
                },
            }
        },
    }
}

/// The fields of a login start packet: the player name's UTF-8 bytes, and the
/// UUID to log the player in with: the 16 bytes after the name when the
/// client sent them, else the offline-mode UUID of the name.
pub open spec fn spec_parse_login_start(d: Seq<u8>) -> Option<(Seq<u8>, Seq<u8>)> {
    match spec_read_string(d) {
        None => None,
        Some((name, k)) => {
            let rest = d.skip(k as int);
            Some((name, if rest.len() >= 16 { rest.take(16) } else { offline_uuid(name) }))
        },
    }
}

/// The fields of a cookie response: the key's UTF-8 bytes and the payload,
/// if the client sent one. A payload flag must follow the key; a payload
/// must be complete.
pub open spec fn spec_parse_cookie(d: Seq<u8>) -> Option<(Seq<u8>, Option<Seq<u8>>)> {
    match spec_read_string(d) {
        None => None,
        Some((key, k)) => {
            let r = d.skip(k as int);
            if r.len() == 0 {
                None
            } else if r[0] == 0 {
                Some((key, None))
            } else {
                let r2 = r.skip(1);
                match spec_read_varint(r2) {
                    None => None,
                    Some((pl, m)) => {
                        let r3 = r2.skip(m as int);
                        if pl >= 0 && r3.len() >= pl {
                            Some((key, Some(r3.take(pl as int))))
                        } else {
                            None
                        }
                    },
                }
            }
        },
    }
}

/// The fields of a client information packet that the plugins are told of:
/// locale, view distance, chat mode, chat colours, main hand. The skin parts,
/// the main hand and the two flags after it must all be present.
pub open spec fn spec_parse_client_info(d: Seq<u8>) -> Option<(Seq<u8>, i8, i32, bool, i32)> {
    match spec_read_string(d) {
        None => None,
        Some((locale, k)) => {
            let r = d.skip(k as int);
            if r.len() == 0 {
                None
            } else {
                let r1 = r.skip(1);
                match spec_read_varint(r1) {
                    None => None,
                    Some((cv, m)) => {
                        let r2 = r1.skip(m as int);
                        if r2.len() < 2 {
                            None
                        } else {
                            let r4 = r2.skip(2);
                            match spec_read_varint(r4) {
                                None => None,
                                Some((mh, q)) => if r4.skip(q as int).len() >= 2 {
                                    Some((locale, r[0] as i8, cv, r2[0] != 0, mh))
                                } else {
                                    None
                                },
                            }
                        }
                    },
                }
            }
        },
    }
}

/// The fields of a plugin message: the channel's UTF-8 bytes and the data
/// after it.
pub open spec fn spec_parse_plugin_message(d: Seq<u8>) -> Option<(Seq<u8>, Seq<u8>)> {
    match spec_read_string(d) {
        None => None,
        Some((channel, k)) => Some((channel, d.skip(k as int))),
    }
}

/// The fields of a resource pack response: the pack's 16-byte UUID and the
/// result code.
pub open spec fn spec_parse_resource_pack(d: Seq<u8>) -> Option<(Seq<u8>, i32)> {
    if d.len() < 16 {
        None
    } else {
        match spec_read_varint(d.skip(16)) {
            None => None,
            Some((result, _)) => Some((d.take(16), result)),
        }
    }
}

/// The frame that turns away a client older than `MIN_PROTOCOL`.
pub open spec fn outdated_frame() -> Seq<u8> {
    frame_bytes(0, string_bytes(OUTDATED_CLIENT_REASON.spec_bytes()))
}

/// The login success frame: UUID, name, and an empty property list.
pub open spec fn login_success_frame(uuid: Seq<u8>, name: Seq<u8>) -> Seq<u8> {
    frame_bytes(2, uuid + string_bytes(name) + seq![0u8])
}

/// The status pong frame: the eight bytes of the ping sent back.
pub open spec fn pong_frame(payload: Seq<u8>) -> Seq<u8> {
    frame_bytes(1, payload)
}

/// The keep-alive frame sent while a client is in the configuration state.
pub open spec fn keep_alive_frame(now_millis: i64) -> Seq<u8> {
    frame_bytes(4, i64_be_bytes(now_millis))
}

/// The handshake state: a handshake packet records the client's protocol
/// and host name, tells the plugins, and moves to the status or login state;
/// an outdated client asking to log in is told to update and disconnected,
/// and an unknown next state closes the connection.
pub open spec fn spec_on_handshake(m: SessionView, id: i32, d: Seq<u8>) -> (SessionView, Seq<ActionView>) {
    if id != 0 {
        (m, seq![])
    } else {
        match spec_parse_handshake(d) {
            None => (m, seq![]),
            Some((pv, host, port, ns)) => {
                let hostname = decode_utf8(host);
                let m1 = SessionView { client_protocol: pv, client_hostname: hostname, ..m };
                let hs = ActionView::Handshake { protocol: pv, hostname, port, next_state: ns };
                if (ns == 2 || ns == 3) && pv < MIN_PROTOCOL {
                    (m1, seq![hs, ActionView::Send { frame: outdated_frame() }, ActionView::Close])
                } else if ns == 1 {
                    (SessionView { state: ConnectionState::Status, ..m1 }, seq![hs])
                } else if ns == 2 {
                    (SessionView { state: ConnectionState::Login, ..m1 }, seq![hs])
                } else if ns == 3 {
                    (
                        SessionView { state: ConnectionState::Login, is_from_transfer: true, ..m1 },
                        seq![hs],
                    )
                } else {
                    (m1, seq![hs, ActionView::Close])
                }
            },
        }
    }
}

/// The status state: a status request goes to the plugins, a ping is
/// answered with its payload.
pub open spec fn spec_on_status(m: SessionView, id: i32, d: Seq<u8>) -> (SessionView, Seq<ActionView>) {
    if id == 0 {
        (
            m,
            seq![
                ActionView::StatusRequest {
                    protocol: m.client_protocol,
                    hostname: m.client_hostname,
                },
            ],
        )
    } else if id == 1 && d.len() >= 8 {
        (m, seq![ActionView::Send { frame: pong_frame(d.take(8)) }])
    } else {
        (m, seq![])
    }
}

/// The login state: a login start asks the plugins and carries the login
/// success frame to send if they allow it; the login acknowledgement moves
/// to configuration; cookie responses go to the plugins. Every packet is
/// also handed to the plugins.
pub open spec fn spec_on_login(m: SessionView, id: i32, d: Seq<u8>) -> (SessionView, Seq<ActionView>) {
    let pk = ActionView::Packet { state: m.state };
    if id == 0 {
        match spec_parse_login_start(d) {
            None => (m, seq![pk]),
            Some((name, uuid)) => (
                SessionView { client_name: Some(decode_utf8(name)), ..m },
                seq![
                    ActionView::PreLogin {
                        name: decode_utf8(name),
                        uuid,
                        is_from_transfer: m.is_from_transfer,
                        on_allow: login_success_frame(uuid, name),
                    },
                    pk,
                ],
            ),
        }
    } else if id == 3 {
        (SessionView { state: ConnectionState::Configuration, ..m }, seq![pk])
    } else if id == 4 {
        match spec_parse_cookie(d) {
            None => (m, seq![pk]),
            Some((key, payload)) => (
                m,
                seq![ActionView::CookieResponse { key: decode_utf8(key), payload }, pk],
            ),
        }
    } else {
        (m, seq![pk])
    }
}

/// The configuration state: client settings mean the client is ready; cookie
/// responses, plugin messages and resource pack responses go to the
/// plugins; the acknowledgement of the end of configuration moves to play.
/// Keep-alive answers and known-pack selections are dropped; every other
/// packet is handed to the plugins.
pub open spec fn spec_on_configuration(m: SessionView, id: i32, d: Seq<u8>) -> (SessionView, Seq<ActionView>) {
    let pk = ActionView::Packet { state: m.state };
    if id == 0 {
        match spec_parse_client_info(d) {
            None => (m, seq![pk]),
            Some((locale, vd, cv, cc, mh)) => (
                m,
                seq![
                    ActionView::Ready {
                        locale: decode_utf8(locale),
                        view_distance: vd,
                        chat_visibility: cv,
                        chat_colors: cc,
                        main_hand: mh,
                    },
                    pk,
                ],
            ),
        }
    } else if id == 1 {
        match spec_parse_cookie(d) {
            None => (m, seq![pk]),
            Some((key, payload)) => (
                m,
                seq![ActionView::CookieResponse { key: decode_utf8(key), payload }, pk],
            ),
        }
    } else if id == 2 {
        match spec_parse_plugin_message(d) {
            None => (m, seq![pk]),
            Some((channel, data)) => (
                m,
                seq![ActionView::PluginMessage { channel: decode_utf8(channel), data }, pk],
            ),
        }
    } else if id == 3 {
        (SessionView { state: ConnectionState::Play, ..m }, seq![pk])
    } else if id == 4 || id == 7 {
        (m, seq![])
    } else if id == 6 {
        match spec_parse_resource_pack(d) {
            None => (m, seq![pk]),
            Some((uuid, result)) => (
                m,
                seq![ActionView::ResourcePackResponse { uuid, result }, pk],
            ),
        }
    } else {
        (m, seq![pk])
    }
}

/// How a session answers packet `id` with payload `d`: its next state and
/// the actions, in order.
pub open spec fn spec_on_packet(m: SessionView, id: i32, d: Seq<u8>) -> (SessionView, Seq<ActionView>) {
    match m.state {
        ConnectionState::Handshake => spec_on_handshake(m, id, d),
        ConnectionState::Status => spec_on_status(m, id, d),
        ConnectionState::Login => spec_on_login(m, id, d),
        ConnectionState::Transfer => spec_on_login(m, id, d),
        ConnectionState::Configuration => spec_on_configuration(m, id, d),
        ConnectionState::Play => (m, seq![ActionView::Packet { state: m.state }]),
    }
}

/// The views of a list of actions.
pub open spec fn actions_view(a: Seq<SessionAction>) -> Seq<ActionView> {
    a.map_values(|x: SessionAction| x@)
}

/// The rest of `d` from position `k`.
fn tail(d: &[u8], k: usize) -> (r: &[u8])
    requires
        k <= d@.len(),
    ensures
        r@ == d@.skip(k as int),
{
    slice_subrange(d, k, d.len())
}

/// The characters of a string are the decoding of its UTF-8 bytes.
proof fn lemma_str_chars(s: &str)
    ensures
        s@ == decode_utf8(s.spec_bytes()),
{
}

/// Reads a handshake packet (see `spec_parse_handshake`).
fn parse_handshake(d: &[u8]) -> (r: Option<(i32, &str, u16, i32)>)
    ensures
        match r {
            Some((pv, host, port, ns)) => spec_parse_handshake(d@) == Some(
                (pv, host.spec_bytes(), port, ns),
            ),
            None => spec_parse_handshake(d@) is None,
        },
{
    let (pv, a) = match read_varint(d) {
        Some(x) => x,
        None => return None,
    };
    let d1 = tail(d, a);
    let (host, b) = match read_string(d1) {
        Some(x) => x,
        None => return None,
    };
    let d2 = tail(d1, b);
    if d2.len() < 2 {
        return None;
    }
    let port: u16 = (d2[0] as u16) * 256 + (d2[1] as u16);
    let d3 = tail(d2, 2);
    match read_varint(d3) {
        Some((ns, _)) => Some((pv, host, port, ns)),
        None => None,
    }
}

/// Reads a login start packet (see `spec_parse_login_start`).
fn parse_login_start(d: &[u8]) -> (r: Option<(&str, Vec<u8>)>)
    ensures
        match r {
            Some((name, uuid)) => spec_parse_login_start(d@) == Some((name.spec_bytes(), uuid@))
                && uuid@.len() == 16,
            None => spec_parse_login_start(d@) is None,
        },
{
    let (name, k) = match read_string(d) {
        Some(x) => x,
        None => return None,
    };
    let rest = tail(d, k);
    let uuid = if rest.len() >= 16 {
        slice_to_vec(slice_subrange(rest, 0, 16))
    } else {
        offline_uuid_bytes(name.as_bytes())
    };
    Some((name, uuid))
}

/// Reads a cookie response (see `spec_parse_cookie`).
fn parse_cookie(d: &[u8]) -> (r: Option<(&str, Option<&[u8]>)>)
    ensures
        match r {
            Some((key, payload)) => spec_parse_cookie(d@) == Some(
                (
                    key.spec_bytes(),
                    match payload {
                        Some(p) => Some(p@),
                        None => None,
                    },
                ),
            ),
            None => spec_parse_cookie(d@) is None,
        },
{
    let (key, k) = match read_string(d) {
        Some(x) => x,
        None => return None,
    };
    let r = tail(d, k);
    if r.len() == 0 {
        return None;
    }
    if r[0] == 0 {
        return Some((key, None));
    }
    let r2 = tail(r, 1);
    let (pl, m) = match read_varint(r2) {
        Some(x) => x,
        None => return None,
    };
    let r3 = tail(r2, m);
    if pl >= 0 && r3.len() >= pl as usize {
        Some((key, Some(slice_subrange(r3, 0, pl as usize))))
    } else {
        None
    }
}

/// Reads a client information packet (see `spec_parse_client_info`).
fn parse_client_info(d: &[u8]) -> (r: Option<(&str, i8, i32, bool, i32)>)
    ensures
        match r {
            Some((locale, vd, cv, cc, mh)) => spec_parse_client_info(d@) == Some(
                (locale.spec_bytes(), vd, cv, cc, mh),
            ),
            None => spec_parse_client_info(d@) is None,
        },
{
    let (locale, k) = match read_string(d) {
        Some(x) => x,
        None => return None,
    };
    let r = tail(d, k);
    if r.len() == 0 {
        return None;
    }
    let view_distance = r[0] as i8;
    let r1 = tail(r, 1);
    let (cv, m) = match read_varint(r1) {
        Some(x) => x,
        None => return None,
    };
    let r2 = tail(r1, m);
    if r2.len() < 2 {
        return None;
    }
    let chat_colors = r2[0] != 0;
    let r4 = tail(r2, 2);
    let (mh, q) = match read_varint(r4) {
        Some(x) => x,
        None => return None,
    };
    let r5 = tail(r4, q);
    if r5.len() >= 2 {
        Some((locale, view_distance, cv, chat_colors, mh))
    } else {
        None
    }
}

/// Reads a plugin message (see `spec_parse_plugin_message`).
fn parse_plugin_message(d: &[u8]) -> (r: Option<(&str, &[u8])>)
    ensures
        match r {
            Some((channel, data)) => spec_parse_plugin_message(d@) == Some(
                (channel.spec_bytes(), data@),
            ),
            None => spec_parse_plugin_message(d@) is None,
        },
{
    match read_string(d) {
        Some((channel, k)) => Some((channel, tail(d, k))),
        None => None,
    }
}

/// Reads a resource pack response (see `spec_parse_resource_pack`).
fn parse_resource_pack(d: &[u8]) -> (r: Option<(&[u8], i32)>)
    ensures
        match r {
            Some((uuid, result)) => spec_parse_resource_pack(d@) == Some((uuid@, result)),
            None => spec_parse_resource_pack(d@) is None,
        },
{
    if d.len() < 16 {
        return None;
    }
    match read_varint(tail(d, 16)) {
        Some((result, _)) => Some((slice_subrange(d, 0, 16), result)),
        None => None,
    }
}

/// The frame that turns away a client older than `MIN_PROTOCOL`.
pub fn outdated_disconnect() -> (b: BytesMut)
    ensures
        bytes_of(b) == outdated_frame(),
{
    proof {
        reveal_strlit("{\"text\":\"Please use Minecraft 1.20.5 or above.\"}");
        broadcast use vstd::string::group_string_axioms;
        broadcast use vstd::utf8::is_ascii_chars_encode_utf8;
        lemma_varint_bytes_len(48);
    }
    assert(is_ascii(OUTDATED_CLIENT_REASON));
    assert(OUTDATED_CLIENT_REASON.spec_bytes().len() == 48);
    let mut payload = new_buffer();
    write_string(OUTDATED_CLIENT_REASON, &mut payload);
    encode_frame(0, crate::buffer::buffer_bytes(&payload))
}

/// The login success frame for a player with this 16-byte UUID and name.
pub fn login_success(uuid: &[u8], name: &str) -> (b: BytesMut)
    requires
        uuid@.len() == 16,
        name.spec_bytes().len() <= MAX_STRING_BYTES,
    ensures
        bytes_of(b) == login_success_frame(uuid@, name.spec_bytes()),
{
    proof {
        lemma_varint_bytes_len(name.spec_bytes().len() as i32);
    }
    let mut body = new_buffer();
    put_slice(&mut body, uuid);
    write_string(name, &mut body);
    put_u8(&mut body, 0);
    assert(bytes_of(body) =~= uuid@ + string_bytes(name.spec_bytes()) + seq![0u8]);
    encode_frame(2, crate::buffer::buffer_bytes(&body))
}

impl Session {
    /// A fresh connection: in the handshake state, nothing known yet.
    pub fn new() -> (s: Session)
        ensures
            s@ == (SessionView {
                state: ConnectionState::Handshake,
                is_from_transfer: false,
                client_name: None,
                client_protocol: 0,
                client_hostname: Seq::<char>::empty(),
            }),
    {
        Session {
            state: ConnectionState::Handshake,
            is_from_transfer: false,
            client_name: None,
            client_protocol: 0,
            client_hostname: String::new(),
        }
    }

    /// The keep-alive frame to send on a timer tick at `now_millis`: one is
    /// sent only in the configuration state.
    pub fn keep_alive(&self, now_millis: i64) -> (r: Option<BytesMut>)
        ensures
            r is Some <==> self.state == ConnectionState::Configuration,
            r matches Some(b) ==> bytes_of(b) == keep_alive_frame(now_millis),
    {
        if self.state == ConnectionState::Configuration {
            let mut body = new_buffer();
            put_i64(&mut body, now_millis);
            Some(encode_frame(4, crate::buffer::buffer_bytes(&body)))
        } else {
            None
        }
    }

    /// Moves the session on by one packet from the client (`id` and its
    /// payload `data`) and returns what to do, in order.
    pub fn on_packet(&mut self, id: i32, data: &[u8]) -> (actions: Vec<SessionAction>)
        ensures
            final(self)@ == spec_on_packet(old(self)@, id, data@).0,
            actions_view(actions@) == spec_on_packet(old(self)@, id, data@).1,
    {
        match self.state {
            ConnectionState::Handshake => self.on_handshake(id, data),
            ConnectionState::Status => self.on_status(id, data),
            ConnectionState::Login => self.on_login(id, data),
            ConnectionState::Transfer => self.on_login(id, data),
            ConnectionState::Configuration => self.on_configuration(id, data),
            ConnectionState::Play => {
                let actions = vec![SessionAction::Packet { state: self.state }];
                assert(actions_view(actions@) =~= seq![ActionView::Packet { state: self.state }]);
                actions
            },
        }
    }

    fn on_handshake(&mut self, id: i32, data: &[u8]) -> (actions: Vec<SessionAction>)
        ensures
            final(self)@ == spec_on_handshake(old(self)@, id, data@).0,
            actions_view(actions@) == spec_on_handshake(old(self)@, id, data@).1,
    {
        let mut actions: Vec<SessionAction> = Vec::new();
        if id != 0 {
            assert(actions_view(actions@) =~= seq![]);
            return actions;
        }
        match parse_handshake(data) {
            None => {
                assert(actions_view(actions@) =~= seq![]);
                actions
            },
            Some((pv, host, port, ns)) => {
                proof {
                    lemma_str_chars(host);
                }
                self.client_protocol = pv;
                self.client_hostname = owned(host);
                let hs = SessionAction::Handshake {
                    protocol: pv,
                    hostname: owned(host),
                    port,
                    next_state: ns,
                };
                let ghost hsv = hs@;
                actions.push(hs);
                if (ns == 2 || ns == 3) && pv < MIN_PROTOCOL {
                    let frame = outdated_disconnect();
                    actions.push(SessionAction::Send { frame });
                    actions.push(SessionAction::Close);
                    assert(actions_view(actions@) =~= seq![
                        hsv,
                        ActionView::Send { frame: outdated_frame() },
                        ActionView::Close,
                    ]);
                } else if ns == 1 {
                    self.state = ConnectionState::Status;
                    assert(actions_view(actions@) =~= seq![hsv]);
                } else if ns == 2 {
                    self.state = ConnectionState::Login;
                    assert(actions_view(actions@) =~= seq![hsv]);
                } else if ns == 3 {
                    self.state = ConnectionState::Login;
                    self.is_from_transfer = true;
                    assert(actions_view(actions@) =~= seq![hsv]);
                } else {
                    actions.push(SessionAction::Close);
                    assert(actions_view(actions@) =~= seq![hsv, ActionView::Close]);
                }
                actions
            },
        }
    }

    fn on_status(&mut self, id: i32, data: &[u8]) -> (actions: Vec<SessionAction>)
        ensures
            final(self)@ == spec_on_status(old(self)@, id, data@).0,
            actions_view(actions@) == spec_on_status(old(self)@, id, data@).1,
    {
        let mut actions: Vec<SessionAction> = Vec::new();
        if id == 0 {
            let hostname = self.client_hostname.clone();
            actions.push(SessionAction::StatusRequest { protocol: self.client_protocol, hostname });
            assert(actions_view(actions@) =~= seq![
                ActionView::StatusRequest {
                    protocol: self.client_protocol,
                    hostname: self.client_hostname@,
                },
            ]);
        } else if id == 1 && data.len() >= 8 {
            let frame = encode_frame(1, slice_subrange(data, 0, 8));
            actions.push(SessionAction::Send { frame });
            assert(data@.subrange(0, 8) =~= data@.take(8));
            assert(actions_view(actions@) =~= seq![
                ActionView::Send { frame: pong_frame(data@.take(8)) },
            ]);
        } else {
            assert(actions_view(actions@) =~= seq![]);
        }
        actions
    }

    fn on_login(&mut self, id: i32, data: &[u8]) -> (actions: Vec<SessionAction>)
        ensures
            final(self)@ == spec_on_login(old(self)@, id, data@).0,
            actions_view(actions@) == spec_on_login(old(self)@, id, data@).1,
    {
        let mut actions: Vec<SessionAction> = Vec::new();
        let state = self.state;
        let ghost pk = ActionView::Packet { state: state };
        if id == 0 {
            match parse_login_start(data) {
                Some((name, uuid)) => {
                    proof {
                        lemma_str_chars(name);
                    }
                    self.client_name = Some(owned(name));
                    let on_allow = login_success(uuid.as_slice(), name);
                    let pre = SessionAction::PreLogin {
                        name: owned(name),
                        uuid,
                        is_from_transfer: self.is_from_transfer,
                        on_allow,
                    };
                    let ghost prev = pre@;
                    actions.push(pre);
                    actions.push(SessionAction::Packet { state });
                    assert(actions_view(actions@) =~= seq![prev, pk]);
                },
                None => {
                    actions.push(SessionAction::Packet { state });
                    assert(actions_view(actions@) =~= seq![pk]);
                },
            }
        } else if id == 3 {
            actions.push(SessionAction::Packet { state });
            self.state = ConnectionState::Configuration;
            assert(actions_view(actions@) =~= seq![pk]);
        } else if id == 4 {
            self.push_cookie(data, &mut actions);
            let ghost before = actions@;
            actions.push(SessionAction::Packet { state });
            assert(actions_view(actions@) =~= actions_view(before).push(pk));
            proof {
                match spec_parse_cookie(data@) {
                    Some((key, payload)) => {
                        assert(actions_view(actions@) =~= seq![
                            ActionView::CookieResponse { key: decode_utf8(key), payload },
                            pk,
                        ]);
                    },
                    None => {
                        assert(actions_view(actions@) =~= seq![pk]);
                    },
                }
            }
        } else {
            actions.push(SessionAction::Packet { state });
            assert(actions_view(actions@) =~= seq![pk]);
        }
        actions
    }

    /// Appends the cookie response action, when `data` parses as one.
    fn push_cookie(&self, data: &[u8], actions: &mut Vec<SessionAction>)
        requires
            old(actions)@.len() == 0,
        ensures
            actions_view(final(actions)@) == match spec_parse_cookie(data@) {
                Some((key, payload)) => seq![
                    ActionView::CookieResponse { key: decode_utf8(key), payload },
                ],
                None => seq![],
            },
    {
        match parse_cookie(data) {
            Some((key, payload)) => {
                proof {
                    lemma_str_chars(key);
                }
                let payload = match payload {
                    Some(p) => Some(slice_to_vec(p)),
                    None => None,
                };
                let a = SessionAction::CookieResponse { key: owned(key), payload };
                let ghost av = a@;
                actions.push(a);
                assert(actions_view(actions@) =~= seq![av]);
            },
            None => {
                assert(actions_view(actions@) =~= seq![]);
            },
        }
    }

    fn on_configuration(&mut self, id: i32, data: &[u8]) -> (actions: Vec<SessionAction>)
        ensures
            final(self)@ == spec_on_configuration(old(self)@, id, data@).0,
            actions_view(actions@) == spec_on_configuration(old(self)@, id, data@).1,
    {
        let mut actions: Vec<SessionAction> = Vec::new();
        let state = self.state;
        let ghost pk = ActionView::Packet { state: state };
        if id == 0 {
            match parse_client_info(data) {
                Some((locale, vd, cv, cc, mh)) => {
                    proof {
                        lemma_str_chars(locale);
                    }
                    let a = SessionAction::Ready {
                        locale: owned(locale),
                        view_distance: vd,
                        chat_visibility: cv,
                        chat_colors: cc,
                        main_hand: mh,
                    };
                    let ghost av = a@;
                    actions.push(a);
                    actions.push(SessionAction::Packet { state });
                    assert(actions_view(actions@) =~= seq![av, pk]);
                },
                None => {
                    actions.push(SessionAction::Packet { state });
                    assert(actions_view(actions@) =~= seq![pk]);
                },
            }
        } else if id == 1 {
            self.push_cookie(data, &mut actions);
            let ghost before = actions@;
            actions.push(SessionAction::Packet { state });
            assert(actions_view(actions@) =~= actions_view(before).push(pk));
            proof {
                match spec_parse_cookie(data@) {
                    Some((key, payload)) => {
                        assert(actions_view(actions@) =~= seq![
                            ActionView::CookieResponse { key: decode_utf8(key), payload },
                            pk,
                        ]);
                    },
                    None => {
                        assert(actions_view(actions@) =~= seq![pk]);
                    },
                }
            }
        } else if id == 2 {
            match parse_plugin_message(data) {
                Some((channel, body)) => {
                    proof {
                        lemma_str_chars(channel);
                    }
                    let a = SessionAction::PluginMessage {
                        channel: owned(channel),
                        data: slice_to_vec(body),
                    };
                    let ghost av = a@;
                    actions.push(a);
                    actions.push(SessionAction::Packet { state });
                    assert(actions_view(actions@) =~= seq![av, pk]);
                },
                None => {
                    actions.push(SessionAction::Packet { state });
                    assert(actions_view(actions@) =~= seq![pk]);
                },
            }
        } else if id == 3 {
            actions.push(SessionAction::Packet { state });
            self.state = ConnectionState::Play;
            assert(actions_view(actions@) =~= seq![pk]);
        } else if id == 4 || id == 7 {
            assert(actions_view(actions@) =~= seq![]);
        } else if id == 6 {
            match parse_resource_pack(data) {
                Some((uuid, result)) => {
                    let a = SessionAction::ResourcePackResponse { uuid: slice_to_vec(uuid), result };
                    let ghost av = a@;
                    actions.push(a);
                    actions.push(SessionAction::Packet { state });
                    assert(actions_view(actions@) =~= seq![av, pk]);
                },
                None => {
                    actions.push(SessionAction::Packet { state });
                    assert(actions_view(actions@) =~= seq![pk]);
                },
            }
        } else {
            actions.push(SessionAction::Packet { state });
            assert(actions_view(actions@) =~= seq![pk]);
        }
        actions
    }
}

/// The order in which a connection goes through the states.
pub open spec fn state_rank(s: ConnectionState) -> int {
    match s {
        ConnectionState::Handshake => 0,
        ConnectionState::Status => 1,
        ConnectionState::Login => 1,
        ConnectionState::Transfer => 1,
        ConnectionState::Configuration => 2,
        ConnectionState::Play => 3,
    }
}

/// A connection never goes back: every packet leaves the state where it
/// is or moves it on (handshake to status or login, login to
/// configuration, configuration to play), and only the handshake closes
/// the connection. The player name, once known, and the protocol and host
/// name after the handshake, change only in those steps.
pub proof fn lemma_session_moves_forward(m: SessionView, id: i32, d: Seq<u8>)
    ensures
        ({
            let (m2, acts) = spec_on_packet(m, id, d);
            &&& state_rank(m.state) <= state_rank(m2.state)
            &&& m2.state != m.state ==> state_rank(m2.state) == state_rank(m.state) + 1
            &&& m.state != ConnectionState::Handshake ==> m2.client_protocol == m.client_protocol
                && m2.client_hostname == m.client_hostname && m2.is_from_transfer
                == m.is_from_transfer
            &&& (exists|i: int| 0 <= i < acts.len() && acts[i] is Close) ==> m.state
                == ConnectionState::Handshake
        }),
{
    let (m2, acts) = spec_on_packet(m, id, d);
    if exists|i: int| 0 <= i < acts.len() && acts[i] is Close {
        let i = choose|i: int| 0 <= i < acts.len() && acts[i] is Close;
        assert(acts[i] is Close);
    }
}

/// A client older than 1.20.5 (protocol 766) that asks to log in, or to
/// log in after a transfer, is told to update and disconnected; the
/// plugins still hear of its handshake first.
pub proof fn lemma_outdated_client_refused(m: SessionView, d: Seq<u8>)
    requires
        m.state == ConnectionState::Handshake,
        spec_parse_handshake(d) matches Some((pv, host, port, ns)) && (ns == 2 || ns == 3) && pv
            < MIN_PROTOCOL,
    ensures
        ({
            let (pv, host, port, ns) = spec_parse_handshake(d).unwrap();
            let (m2, acts) = spec_on_packet(m, 0, d);
            &&& acts == seq![
                ActionView::Handshake {
                    protocol: pv,
                    hostname: decode_utf8(host),
                    port,
                    next_state: ns,
                },
                ActionView::Send { frame: outdated_frame() },
                ActionView::Close,
            ]
            &&& m2.state == ConnectionState::Handshake
        }),
{
}

/// A client of 1.20.5 or newer that asks to log in moves to the login state
/// (remembering whether it came from a transfer) and nothing is closed.
pub proof fn lemma_current_client_logs_in(m: SessionView, d: Seq<u8>)
    requires
        m.state == ConnectionState::Handshake,
        spec_parse_handshake(d) matches Some((pv, host, port, ns)) && (ns == 2 || ns == 3) && pv
            >= MIN_PROTOCOL,
    ensures
        ({
            let (pv, host, port, ns) = spec_parse_handshake(d).unwrap();
            let (m2, acts) = spec_on_packet(m, 0, d);
            &&& m2.state == ConnectionState::Login
            &&& m2.is_from_transfer == (ns == 3 || m.is_from_transfer)
            &&& m2.client_protocol == pv
            &&& m2.client_hostname == decode_utf8(host)
            &&& acts.len() == 1
        }),
{
}

/// A resource pack response in the configuration state names the pack by
/// the 16 bytes that open its payload and carries the result code that
/// follows them, whatever comes after; the plugins hear of it, then get the
/// packet.
pub proof fn lemma_resource_pack_response(m: SessionView, u: Seq<u8>, r: i32, rest: Seq<u8>)
    requires
        m.state == ConnectionState::Configuration,
        u.len() == 16,
    ensures
        spec_on_packet(m, 6, u + varint_bytes(r) + rest) == (
            m,
            seq![
                ActionView::ResourcePackResponse { uuid: u, result: r },
                ActionView::Packet { state: ConnectionState::Configuration },
            ],
        ),
{
    let d = u + varint_bytes(r) + rest;
    assert(d.skip(16) =~= varint_bytes(r) + rest);
    assert(d.take(16) =~= u);
    crate::network::lemma_varint_roundtrip(r, rest);
}

} // verus!
