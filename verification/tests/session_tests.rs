use bytes::BytesMut;
use transfer_proxy_rs::network::{write_string, write_varint, ConnectionState};
use transfer_proxy_rs::session::{offline_uuid_bytes, Session, SessionAction};

fn handshake(protocol: i32, host: &str, port: u16, next: i32) -> Vec<u8> {
    let mut b = BytesMut::new();
    write_varint(protocol, &mut b);
    write_string(host, &mut b);
    let mut v = b.to_vec();
    v.extend_from_slice(&port.to_be_bytes());
    let mut n = BytesMut::new();
    write_varint(next, &mut n);
    v.extend_from_slice(&n);
    v
}

fn string(s: &str) -> Vec<u8> {
    let mut b = BytesMut::new();
    write_string(s, &mut b);
    b.to_vec()
}

#[test]
fn outdated_client_is_disconnected() {
    let mut s = Session::new();
    let actions = s.on_packet(0, &handshake(765, "play.example.com", 25565, 2));
    assert_eq!(actions.len(), 3);
    match &actions[0] {
        SessionAction::Handshake { protocol, hostname, port, next_state } => {
            assert_eq!(*protocol, 765);
            assert_eq!(hostname, "play.example.com");
            assert_eq!(*port, 25565);
            assert_eq!(*next_state, 2);
        }
        other => panic!("unexpected {:?}", other),
    }
    let reason = r#"{"text":"Please use Minecraft 1.20.5 or above."}"#;
    let mut expected = vec![(2 + reason.len()) as u8, 0x00, reason.len() as u8];
    expected.extend_from_slice(reason.as_bytes());
    match &actions[1] {
        SessionAction::Send { frame } => assert_eq!(frame.to_vec(), expected),
        other => panic!("unexpected {:?}", other),
    }
    assert!(matches!(actions[2], SessionAction::Close));
}

#[test]
fn status_ping_flow() {
    let mut s = Session::new();
    let actions = s.on_packet(0, &handshake(767, "hub.example.com:25565", 25565, 1));
    assert_eq!(actions.len(), 1);
    assert_eq!(s.state, ConnectionState::Status);
    let actions = s.on_packet(0, &[]);
    match &actions[..] {
        [SessionAction::StatusRequest { protocol, hostname }] => {
            assert_eq!(*protocol, 767);
            assert_eq!(hostname, "hub.example.com:25565");
        }
        other => panic!("unexpected {:?}", other),
    }
    let actions = s.on_packet(1, &[1, 2, 3, 4, 5, 6, 7, 8]);
    match &actions[..] {
        [SessionAction::Send { frame }] => assert_eq!(frame.to_vec(), vec![9, 1, 1, 2, 3, 4, 5, 6, 7, 8]),
        other => panic!("unexpected {:?}", other),
    }
    // A short ping is ignored.
    assert!(s.on_packet(1, &[1, 2]).is_empty());
}

#[test]
fn login_to_play_flow() {
    let mut s = Session::new();
    s.on_packet(0, &handshake(768, "localhost", 25565, 3));
    assert_eq!(s.state, ConnectionState::Login);
    assert!(s.is_from_transfer);

    let actions = s.on_packet(0, &string("Notch"));
    assert_eq!(actions.len(), 2);
    let uuid = hex("b50ad385829d3141a2167e7d7539ba7f");
    match &actions[0] {
        SessionAction::PreLogin { name, uuid: carried, is_from_transfer, on_allow } => {
            assert_eq!(name, "Notch");
            assert_eq!(carried, &uuid);
            assert!(*is_from_transfer);
            let mut body = uuid.clone();
            body.extend_from_slice(&string("Notch"));
            body.push(0);
            let mut expected = vec![(body.len() + 1) as u8, 0x02];
            expected.extend_from_slice(&body);
            assert_eq!(on_allow.to_vec(), expected);
        }
        other => panic!("unexpected {:?}", other),
    }
    assert!(matches!(actions[1], SessionAction::Packet { state: ConnectionState::Login }));
    assert_eq!(s.client_name.as_deref(), Some("Notch"));

    let actions = s.on_packet(3, &[]);
    assert!(matches!(actions[..], [SessionAction::Packet { state: ConnectionState::Login }]));
    assert_eq!(s.state, ConnectionState::Configuration);

    let mut info = string("en_us");
    info.extend_from_slice(&[8, 0, 1, 0x7f, 1, 0, 1]);
    let actions = s.on_packet(0, &info);
    match &actions[..] {
        [SessionAction::Ready { locale, view_distance, chat_visibility, chat_colors, main_hand }, SessionAction::Packet { state: ConnectionState::Configuration }] =>
        {
            assert_eq!(locale, "en_us");
            assert_eq!(*view_distance, 8);
            assert_eq!(*chat_visibility, 0);
            assert!(*chat_colors);
            assert_eq!(*main_hand, 1);
        }
        other => panic!("unexpected {:?}", other),
    }

    // Keep-alive answers and known packs are swallowed.
    assert!(s.on_packet(4, &[0; 8]).is_empty());
    assert!(s.on_packet(7, &[]).is_empty());

    let ka = s.keep_alive(0x0102030405060708).unwrap();
    assert_eq!(ka.to_vec(), vec![9, 4, 1, 2, 3, 4, 5, 6, 7, 8]);

    let actions = s.on_packet(3, &[]);
    assert!(matches!(actions[..], [SessionAction::Packet { state: ConnectionState::Configuration }]));
    assert_eq!(s.state, ConnectionState::Play);
    assert!(s.keep_alive(1).is_none());
    assert!(matches!(s.on_packet(0x20, &[1])[..], [SessionAction::Packet { state: ConnectionState::Play }]));
}

fn hex(s: &str) -> Vec<u8> {
    (0..s.len()).step_by(2).map(|i| u8::from_str_radix(&s[i..i + 2], 16).unwrap()).collect()
}

#[test]
fn offline_uuid_matches_known_value() {
    assert_eq!(offline_uuid_bytes(b"Notch"), hex("b50ad385829d3141a2167e7d7539ba7f"));
}

#[test]
fn login_with_client_uuid_uses_it() {
    let mut s = Session::new();
    s.on_packet(0, &handshake(767, "h", 1, 2));
    let mut start = string("Steve");
    let uuid: Vec<u8> = (1..=16).collect();
    start.extend_from_slice(&uuid);
    let actions = s.on_packet(0, &start);
    match &actions[0] {
        SessionAction::PreLogin { on_allow, is_from_transfer, uuid: carried, .. } => {
            assert!(!*is_from_transfer);
            assert_eq!(carried, &uuid);
            assert_eq!(on_allow.to_vec()[2..18].to_vec(), uuid);
        }
        other => panic!("unexpected {:?}", other),
    }
}

#[test]
fn cookie_plugin_message_and_resource_pack() {
    let mut s = Session::new();
    s.on_packet(0, &handshake(767, "h", 1, 2));
    let mut cookie = string("key");
    cookie.extend_from_slice(&[1, 2, 0xaa, 0xbb, 0xcc]);
    let actions = s.on_packet(4, &cookie);
    match &actions[..] {
        [SessionAction::CookieResponse { key, payload }, SessionAction::Packet { .. }] => {
            assert_eq!(key, "key");
            assert_eq!(payload.as_deref(), Some(&[0xaa, 0xbb][..]));
        }
        other => panic!("unexpected {:?}", other),
    }
    let mut no_payload = string("k2");
    no_payload.push(0);
    match &s.on_packet(4, &no_payload)[..] {
        [SessionAction::CookieResponse { payload: None, .. }, SessionAction::Packet { .. }] => {}
        other => panic!("unexpected {:?}", other),
    }
    // Missing flag: only the raw packet goes to the plugins.
    assert_eq!(s.on_packet(4, &string("k3")).len(), 1);

    s.on_packet(3, &[]);
    let mut msg = string("minecraft:brand");
    msg.extend_from_slice(b"vanilla");
    match &s.on_packet(2, &msg)[..] {
        [SessionAction::PluginMessage { channel, data }, SessionAction::Packet { .. }] => {
            assert_eq!(channel, "minecraft:brand");
            assert_eq!(data, b"vanilla");
        }
        other => panic!("unexpected {:?}", other),
    }
    let mut rp: Vec<u8> = (0..16).collect();
    rp.push(3);
    match &s.on_packet(6, &rp)[..] {
        [SessionAction::ResourcePackResponse { uuid, result }, SessionAction::Packet { .. }] => {
            assert_eq!(uuid.len(), 16);
            assert_eq!(*result, 3);
        }
        other => panic!("unexpected {:?}", other),
    }
}

#[test]
fn unknown_next_state_closes() {
    let mut s = Session::new();
    let actions = s.on_packet(0, &handshake(767, "h", 1, 7));
    assert_eq!(actions.len(), 2);
    assert!(matches!(actions[1], SessionAction::Close));
    // Other packets in the handshake state are ignored.
    let mut s = Session::new();
    assert!(s.on_packet(5, &[1, 2, 3]).is_empty());
    assert!(s.on_packet(0, &[0x80]).is_empty());
}
