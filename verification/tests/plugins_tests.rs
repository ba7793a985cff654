use transfer_proxy_rs::config::ProxyConfig;
use transfer_proxy_rs::ip_info::{asn_label, network_contains, GeoInfo, IpNet, IpValue};
use transfer_proxy_rs::plugins::bbob::{uuid_hyphenated, uuid_simple, BanReason, BbobConfig};
use transfer_proxy_rs::plugins::motd::{icon_data_uri, MotdConfig, MotdEntry, StatusDraws};
use transfer_proxy_rs::plugins::transfor::{parse_i32, port_of, TransferConfig, TransferPlan, TransferRule};
use transfer_proxy_rs::string_set::StringSet;
use transfer_proxy_rs::text::split_first;

fn v4(a: u8, b: u8, c: u8, d: u8) -> IpValue {
    IpValue { v6: false, bits: u32::from_be_bytes([a, b, c, d]) as u128 }
}

const NO_UUID: [u8; 16] = [0; 16];

fn s(x: &str) -> String {
    x.to_string()
}

#[test]
fn proxy_config_default_address() {
    assert_eq!(ProxyConfig::default().bind_address, "127.0.0.1:25565");
}

#[test]
fn asn_labels() {
    assert_eq!(asn_label(15169), "AS15169");
    assert_eq!(asn_label(0), "AS0");
    assert_eq!(asn_label(u32::MAX), "AS4294967295");
}

fn banned_ranges(entries: &[&str]) -> BbobConfig {
    let mut cfg = BbobConfig::default();
    for e in entries {
        cfg.apply_command("banip", &[e.to_string()]);
    }
    cfg
}

#[test]
fn networks_parse_and_contain() {
    let cfg = banned_ranges(&["192.168.1.0/24"]);
    let net = cfg.parsed_banned_ips[0];
    assert_eq!(net, IpNet { v6: false, addr: u32::from_be_bytes([192, 168, 1, 0]) as u128, prefix: 24 });
    assert!(network_contains(&net, &v4(192, 168, 1, 77)));
    assert!(!network_contains(&net, &v4(192, 168, 2, 1)));
    let single = banned_ranges(&["10.0.0.1"]).parsed_banned_ips[0];
    assert_eq!(single.prefix, 32);
    assert!(network_contains(&single, &v4(10, 0, 0, 1)));
    assert!(!network_contains(&single, &v4(10, 0, 0, 2)));
    let all = banned_ranges(&["0.0.0.0/0"]).parsed_banned_ips[0];
    assert!(network_contains(&all, &v4(8, 8, 8, 8)));
    let v6 = banned_ranges(&["2001:db8::/32"]).parsed_banned_ips[0];
    assert!(v6.v6);
    assert!(!network_contains(&v6, &v4(1, 2, 3, 4)));
    assert!(network_contains(&v6, &IpValue { v6: true, bits: 0x2001_0db8_0000_0000_0000_0000_0000_0001 }));
    let bad = banned_ranges(&["not an ip", "1.2.3.4/33"]);
    assert_eq!(bad.banned_ips.len(), 2);
    assert!(bad.parsed_banned_ips.is_empty());
}

#[test]
fn string_set_behaves_as_a_set() {
    let mut set = StringSet::new();
    assert!(set.insert(s("a")));
    assert!(!set.insert(s("a")));
    assert!(set.insert(s("b")));
    assert_eq!(set.len(), 2);
    assert!(set.contains(&s("a")));
    assert!(set.remove(&s("a")));
    assert!(!set.remove(&s("a")));
    assert!(!set.contains(&s("a")));
    assert_eq!(set.get(0), "b");
}

fn args(a: &[&str]) -> Vec<String> {
    a.iter().map(|x| x.to_string()).collect()
}

#[test]
fn ban_commands_and_login_checks() {
    let mut cfg = BbobConfig::default();
    let ip = s("1.2.3.4");
    assert_eq!(cfg.check_login(&ip, Some(v4(1, 2, 3, 4)), "Steve", &NO_UUID, None), None);

    assert!(cfg.apply_command("BANIP", &args(&["1.2.3.4"])));
    assert_eq!(cfg.check_login(&ip, Some(v4(1, 2, 3, 4)), "Steve", &NO_UUID, None), Some(BanReason::Ip));
    assert_eq!(BanReason::Ip.message(), "Your IP is banned.");
    assert!(cfg.apply_command("unbanip", &args(&["1.2.3.4"])));
    assert!(!cfg.apply_command("unbanip", &args(&["1.2.3.4"])));
    assert_eq!(cfg.check_login(&ip, Some(v4(1, 2, 3, 4)), "Steve", &NO_UUID, None), None);

    assert!(cfg.apply_command("banip", &args(&["1.2.0.0/16"])));
    assert_eq!(cfg.parsed_banned_ips.len(), 1);
    assert_eq!(cfg.check_login(&ip, Some(v4(1, 2, 3, 4)), "Steve", &NO_UUID, None), Some(BanReason::IpRange));
    assert_eq!(BanReason::IpRange.message(), "Your IP range is banned.");
    assert_eq!(cfg.check_login(&s("9.9.9.9"), Some(v4(9, 9, 9, 9)), "Steve", &NO_UUID, None), None);

    assert!(cfg.apply_command("banuser", &args(&["Notch"])));
    assert!(cfg.banned_names.contains(&s("notch")));
    assert_eq!(cfg.check_login(&s("9.9.9.9"), Some(v4(9, 9, 9, 9)), "NOTCH", &NO_UUID, None), Some(BanReason::Account));
    assert_eq!(BanReason::Account.message(), "Your account is banned.");
    assert!(cfg.apply_command("unbanuser", &args(&["notch"])));

    assert!(cfg.apply_command("banasn", &args(&["AS15169"])));
    let asn = s("AS15169");
    assert_eq!(cfg.check_login(&s("9.9.9.9"), None, "x", &NO_UUID, Some(&asn)), Some(BanReason::Network));
    assert_eq!(BanReason::Network.message(), "Your network (ASN) is banned.");
    assert!(cfg.apply_command("unbanasn", &args(&["AS15169"])));

    assert!(cfg.apply_command("banuuid", &args(&["ABC-DEF"])));
    assert!(cfg.banned_uuids.contains(&s("abc-def")));
    assert!(cfg.apply_command("unbanuuid", &args(&["abc-def"])));

    let notch: [u8; 16] = [
        0xb5, 0x0a, 0xd3, 0x85, 0x82, 0x9d, 0x31, 0x41, 0xa2, 0x16, 0x7e, 0x7d, 0x75, 0x39, 0xba, 0x7f,
    ];
    assert_eq!(cfg.check_login(&s("9.9.9.9"), None, "Notch", &notch, None), None);
    assert!(cfg.apply_command("banuuid", &args(&["B50AD385-829D-3141-A216-7E7D7539BA7F"])));
    assert_eq!(cfg.check_login(&s("9.9.9.9"), None, "Notch", &notch, None), Some(BanReason::Uuid));
    assert_eq!(BanReason::Uuid.message(), "Your UUID is banned.");
    assert_eq!(cfg.check_login(&s("9.9.9.9"), None, "Notch", &NO_UUID, None), None);
    assert!(cfg.apply_command("unbanuuid", &args(&["b50ad385-829d-3141-a216-7e7d7539ba7f"])));
    assert_eq!(cfg.check_login(&s("9.9.9.9"), None, "Notch", &notch, None), None);
    assert!(cfg.apply_command("banuuid", &args(&["b50ad385829d3141a2167e7d7539ba7f"])));
    assert_eq!(cfg.check_login(&s("9.9.9.9"), None, "Notch", &notch, None), Some(BanReason::Uuid));
    assert!(cfg.apply_command("unbanuuid", &args(&["b50ad385829d3141a2167e7d7539ba7f"])));

    assert!(!cfg.apply_command("banip", &args(&[])));
    assert!(!cfg.apply_command("help", &args(&["x"])));
}

#[test]
fn lowercase_and_split() {
    let mut cfg = BbobConfig::default();
    assert!(cfg.apply_command("BanUser", &[s("ÄbC")]));
    assert!(cfg.banned_names.contains(&s("äbc")));
    assert_eq!(split_first("hub.example.com:25565", ':'), "hub.example.com");
    assert_eq!(split_first("nohost", ':'), "nohost");
}

#[test]
fn motd_default_values() {
    let c = MotdConfig::default();
    assert_eq!(c.motds.len(), 2);
    assert_eq!(c.motds[0].protocol, 766);
    assert_eq!(c.motds[1].texts, vec![s("Welcome to TransferProxyRS (1.21)")]);
    assert_eq!(c.max_players, 1000);
    assert_eq!(c.per_server_limits, vec![(s("hub.example.com"), 100)]);
}

#[test]
fn motd_protocol_restrictions() {
    let mut c = MotdConfig::default();
    assert!(!c.denies(765, 2));
    c.denied_protocols = vec![765];
    assert!(c.denies(765, 2));
    assert!(c.denies(765, 3));
    assert!(!c.denies(765, 1));
    assert!(!c.denies(767, 2));
    c.allowed_protocols = vec![767];
    assert!(c.denies(768, 2));
    assert!(!c.denies(767, 2));
}

fn geo(country: Option<&str>) -> GeoInfo {
    GeoInfo { country: country.map(s), region: None, city: None }
}

#[test]
fn motd_status_composition() {
    let mut c = MotdConfig::default();
    c.motds.push(MotdEntry { protocol: 767, texts: vec![s("US only")], country: Some(s("US")), region: None, city: None });
    c.icons = vec![s("icon-a"), s("icon-b")];
    let d = StatusDraws { jitter: -5, motd_pick: 1, text_pick: 0, icon_pick: 1 };
    let r = c.compose_status(767, "hub.example.com:25565", &geo(Some("US")), &d);
    assert_eq!(r.max_players, 100);
    assert_eq!(r.online_players, 45);
    assert_eq!(r.motd, "US only");
    assert_eq!(r.favicon.as_deref(), Some("icon-b"));

    let d = StatusDraws { jitter: 3, motd_pick: 1, text_pick: 0, icon_pick: 0 };
    let r = c.compose_status(900, "other", &geo(None), &d);
    assert_eq!(r.max_players, 1000);
    assert_eq!(r.online_players, 53);
    assert_eq!(r.motd, "Another Default MOTD");

    c.default_motds.clear();
    c.fake_online = false;
    c.icons.clear();
    let r = c.compose_status(900, "other", &geo(None), &d);
    assert_eq!(r.online_players, 0);
    assert_eq!(r.motd, "TransferProxyRS");
    assert!(r.favicon.is_none());

    c.fake_online = true;
    c.fake_online_count = 2;
    let d = StatusDraws { jitter: -5, motd_pick: 0, text_pick: 1, icon_pick: 0 };
    let r = c.compose_status(766, "x", &geo(None), &d);
    assert_eq!(r.online_players, 0);
    assert_eq!(r.motd, "Random MOTD 1");

    c.icons = vec![s(""), s("icon-b")];
    let r = c.compose_status(766, "x", &geo(None), &d);
    assert!(r.favicon.is_none());
}

#[test]
fn motd_random_status_stays_in_range() {
    let c = MotdConfig::default();
    for _ in 0..50 {
        let r = c.status_reply(766, "hub.example.com", &geo(None));
        assert_eq!(r.max_players, 100);
        assert!((45..=55).contains(&r.online_players));
        assert!(r.motd == "Welcome to TransferProxyRS (1.20.5)" || r.motd == "Random MOTD 1");
        assert!(r.favicon.is_none());
    }
}

#[test]
fn icon_data_uri_is_base64() {
    assert_eq!(icon_data_uri(b"hello"), "data:image/png;base64,aGVsbG8=");
    assert_eq!(icon_data_uri(&[0, 1, 2, 3]), "data:image/png;base64,AAECAw==");
}

#[test]
fn parse_i32_like_std() {
    for text in ["0", "25565", "+7", "-7", "-2147483648", "2147483647", "2147483648", "-2147483649", "", "-", "+", "12a", " 1", "99999999999999", "007"] {
        assert_eq!(parse_i32(text), text.parse::<i32>().ok(), "{}", text);
    }
}

#[test]
fn address_ports() {
    assert_eq!(port_of("127.0.0.1:35565"), 35565);
    assert_eq!(port_of("example.com"), 25565);
    assert_eq!(port_of("example.com:abc"), 25565);
    assert_eq!(port_of("a:1:2"), 1);
}

fn rule(target: &str, country: Option<&str>, asn: Option<&str>) -> TransferRule {
    TransferRule { target: s(target), country: country.map(s), region: None, city: None, asn: asn.map(s) }
}

#[test]
fn transfer_default_config() {
    let c = TransferConfig::default();
    assert_eq!(c.default_server, "hub");
    match c.choose_transfer(&geo(None), None) {
        TransferPlan::Transfer { target, host, port } => {
            assert_eq!(target, "hub");
            assert_eq!(host, "127.0.0.1");
            assert_eq!(port, 35565);
        }
        TransferPlan::UnknownTarget { .. } => panic!("hub has an address"),
    }
}

#[test]
fn transfer_rules_and_weights() {
    let mut c = TransferConfig::default();
    c.servers.push((s("us_hub"), s("10.0.0.5")));
    c.rules = vec![rule("us_hub", Some("US"), Some("AS15169")), rule("survival", Some("DE"), None)];
    c.weights = vec![(s("hub"), 80), (s("survival"), 20)];
    let asn = s("AS15169");
    match c.plan_transfer(&geo(Some("US")), Some(&asn), 0) {
        TransferPlan::Transfer { target, host, port } => {
            assert_eq!(target, "us_hub");
            assert_eq!(host, "10.0.0.5");
            assert_eq!(port, 25565);
        }
        _ => panic!(),
    }
    // The rule needs both country and network.
    match c.plan_transfer(&geo(Some("US")), None, 85) {
        TransferPlan::Transfer { target, .. } => assert_eq!(target, "survival"),
        _ => panic!(),
    }
    match c.plan_transfer(&geo(None), None, 79) {
        TransferPlan::Transfer { target, .. } => assert_eq!(target, "hub"),
        _ => panic!(),
    }
    match c.plan_transfer(&geo(Some("DE")), None, 0) {
        TransferPlan::Transfer { target, port, .. } => {
            assert_eq!(target, "survival");
            assert_eq!(port, 45565);
        }
        _ => panic!(),
    }
    c.rules = vec![rule("nowhere", None, None)];
    match c.plan_transfer(&geo(None), None, 0) {
        TransferPlan::UnknownTarget { target } => assert_eq!(target, "nowhere"),
        _ => panic!(),
    }
}

#[test]
fn transfer_weights_consulted_only_for_default() {
    let mut c = TransferConfig::default();
    c.weights = vec![(s("hub"), u32::MAX), (s("survival"), 1)];
    assert_eq!(c.total_weight(), u32::MAX as u128 + 1);
    assert!(c.consults_weights(&geo(None), None));
    c.rules = vec![rule("survival", Some("DE"), None), rule("hub", Some("FR"), None)];
    assert!(!c.consults_weights(&geo(Some("DE")), None));
    assert!(c.consults_weights(&geo(Some("FR")), None));
    // A rule that sends elsewhere is followed without a draw.
    match c.choose_transfer(&geo(Some("DE")), None) {
        TransferPlan::Transfer { target, .. } => assert_eq!(target, "survival"),
        _ => panic!(),
    }
    c.weights.clear();
    assert!(!c.consults_weights(&geo(None), None));
    assert_eq!(c.total_weight(), 0);
    match c.choose_transfer(&geo(None), None) {
        TransferPlan::Transfer { target, .. } => assert_eq!(target, "hub"),
        _ => panic!(),
    }
}

#[test]
fn uuid_text_forms() {
    let u: [u8; 16] = [
        0xb5, 0x0a, 0xd3, 0x85, 0x82, 0x9d, 0x31, 0x41, 0xa2, 0x16, 0x7e, 0x7d, 0x75, 0x39, 0xba, 0x7f,
    ];
    assert_eq!(uuid_hyphenated(&u), "b50ad385-829d-3141-a216-7e7d7539ba7f");
    assert_eq!(uuid_simple(&u), "b50ad385829d3141a2167e7d7539ba7f");
    assert_eq!(uuid_hyphenated(&[0; 16]), "00000000-0000-0000-0000-000000000000");
}

#[test]
fn first_listed_entry_counts() {
    let mut c = MotdConfig::default();
    c.per_server_limits.push((s("hub.example.com"), 7));
    assert_eq!(c.max_players_for("hub.example.com"), 100);
    let mut t = TransferConfig::default();
    t.servers.push((s("hub"), s("10.9.9.9:1")));
    match t.plan_transfer(&geo(None), None, 0) {
        TransferPlan::Transfer { host, port, .. } => {
            assert_eq!(host, "127.0.0.1");
            assert_eq!(port, 35565);
        }
        _ => panic!(),
    }
}

#[test]
fn ban_commands_in_any_case() {
    let mut cfg = BbobConfig::default();
    assert!(cfg.apply_command("BanAsn", &[s("AS1")]));
    assert!(cfg.banned_asns.contains(&s("AS1")));
    assert!(cfg.apply_command("UNBANASN", &[s("AS1")]));
    assert!(!cfg.banned_asns.contains(&s("AS1")));
}
