use transfer_proxy_rs::packets::{
    add_resource_pack_packet, config_disconnect_packet, fetch_cookie_packet, fetch_login_cookie_packet,
    finish_configuration_packet, keep_alive_packet, kick_packet, known_packs_packet,
    plugin_message_packet, remove_resource_pack_packet, reset_chat_packet, status_response_packet,
    store_cookie_packet, transfer_packet,
};
use transfer_proxy_rs::plugin::pre_login_verdict;

fn with_len(s: &str) -> Vec<u8> {
    let mut v = vec![s.len() as u8];
    v.extend_from_slice(s.as_bytes());
    v
}

#[test]
fn kick_carries_text_component() {
    let p = kick_packet("Bye");
    assert_eq!(p.id, 0);
    assert_eq!(p.data.to_vec(), with_len(r#"{"text":"Bye"}"#));
}

#[test]
fn transfer_has_host_and_port() {
    let p = transfer_packet("127.0.0.1", 35565);
    assert_eq!(p.id, 0x0B);
    let mut expected = with_len("127.0.0.1");
    expected.extend_from_slice(&[0xed, 0x95, 0x02]);
    assert_eq!(p.data.to_vec(), expected);
}

#[test]
fn cookie_packets() {
    let p = store_cookie_packet("k", &[7, 8]);
    assert_eq!(p.id, 0x0A);
    assert_eq!(p.data.to_vec(), vec![1, b'k', 2, 7, 8]);
    let p = fetch_cookie_packet("k");
    assert_eq!((p.id, p.data.to_vec()), (0x00, vec![1, b'k']));
    let p = fetch_login_cookie_packet("k");
    assert_eq!((p.id, p.data.to_vec()), (0x05, vec![1, b'k']));
}

#[test]
fn keep_alive_is_big_endian() {
    let p = keep_alive_packet(-2);
    assert_eq!(p.id, 0x04);
    assert_eq!(p.data.to_vec(), vec![0xff, 0xff, 0xff, 0xff, 0xff, 0xff, 0xff, 0xfe]);
}

#[test]
fn config_disconnect_is_nbt() {
    let p = config_disconnect_packet("Hi");
    assert_eq!(p.id, 0x02);
    assert_eq!(p.data.to_vec(), vec![10, 8, 0, 4, b't', b'e', b'x', b't', 0, 2, b'H', b'i', 0]);
}

#[test]
fn empty_packets() {
    let p = reset_chat_packet();
    assert_eq!((p.id, p.data.len()), (0x06, 0));
    let p = finish_configuration_packet();
    assert_eq!((p.id, p.data.len()), (0x03, 0));
}

#[test]
fn plugin_message_appends_raw_data() {
    let p = plugin_message_packet("a:b", &[1, 2]);
    assert_eq!(p.id, 0x01);
    assert_eq!(p.data.to_vec(), vec![3, b'a', b':', b'b', 1, 2]);
}

#[test]
fn resource_pack_packets() {
    let uuid = [7u8; 16];
    let p = add_resource_pack_packet(&uuid, "u", "h", true, None);
    assert_eq!(p.id, 0x09);
    let mut expected = uuid.to_vec();
    expected.extend_from_slice(&[1, b'u', 1, b'h', 1, 0]);
    assert_eq!(p.data.to_vec(), expected);

    let p = add_resource_pack_packet(&uuid, "u", "h", false, Some("ok"));
    let mut expected = uuid.to_vec();
    expected.extend_from_slice(&[1, b'u', 1, b'h', 0, 1, 10, 8, 0, 4, b't', b'e', b'x', b't', 0, 2, b'o', b'k', 0]);
    assert_eq!(p.data.to_vec(), expected);

    let p = remove_resource_pack_packet(Some(&uuid));
    let mut expected = vec![1];
    expected.extend_from_slice(&uuid);
    assert_eq!((p.id, p.data.to_vec()), (0x08, expected));
    let p = remove_resource_pack_packet(None);
    assert_eq!(p.data.to_vec(), vec![0]);
}

#[test]
fn status_response_json() {
    let p = status_response_packet("Proxy", 767, 100, -3, "Hello", None);
    assert_eq!(p.id, 0);
    let json = r#"{"version":{"name":"Proxy","protocol":767},"players":{"max":100,"online":-3},"description":{"text":"Hello"}}"#;
    assert_eq!(p.data.to_vec(), with_len(json));
    let p = status_response_packet("V", 0, 0, 0, "", Some("data:x"));
    let json = r#"{"version":{"name":"V","protocol":0},"players":{"max":0,"online":0},"description":{"text":""},"favicon":"data:x"}"#;
    assert_eq!(p.data.to_vec(), with_len(json));
}

#[test]
fn known_packs_lists_each() {
    let p = known_packs_packet(&[("minecraft", "core", "1.21")]);
    assert_eq!(p.id, 0x0E);
    let mut expected = vec![1];
    expected.extend(with_len("minecraft"));
    expected.extend(with_len("core"));
    expected.extend(with_len("1.21"));
    assert_eq!(p.data.to_vec(), expected);
}

#[test]
fn pre_login_needs_every_plugin() {
    assert!(pre_login_verdict(&[]));
    assert!(pre_login_verdict(&[true, true]));
    assert!(!pre_login_verdict(&[true, false, true]));
}
