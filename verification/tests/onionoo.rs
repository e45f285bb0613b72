use kagemusha::ip::IpAddress;
use kagemusha::model::{Error, RelayFlag};
use kagemusha::onionoo::{
    exit_nodes_from, first_or_not_found, network_stats_from, onionoo_relay_to_exit,
    onionoo_relay_to_info, parse_flag, parse_or_address, relay_details_from, relay_search_from,
    OnionooClient, OnionooExitPolicy, OnionooRelay,
};

fn relay(fingerprint: &str, nickname: &str, addr: &str, flags: &[&str], bw: u64, country: Option<&str>) -> OnionooRelay {
    OnionooRelay {
        fingerprint: Some(fingerprint.to_string()),
        nickname: Some(nickname.to_string()),
        or_addresses: vec![addr.to_string()],
        flags: flags.iter().map(|f| f.to_string()).collect(),
        observed_bandwidth: Some(bw),
        country: country.map(|c| c.to_string()),
        first_seen: None,
        last_seen: None,
        exit_policy_summary: None,
        dir_address: None,
    }
}

#[test]
fn default_base_url() {
    let client = OnionooClient::new();
    assert_eq!(client.base_url(), "https://onionoo.torproject.org");
}

#[test]
fn custom_base_url_strips_trailing_slash() {
    let client = OnionooClient::with_base_url("https://example.com/");
    assert_eq!(client.base_url(), "https://example.com");
}

#[test]
fn parses_mock_relay_response() {
    // The record that a typical JSON response of the service describes.
    let r = OnionooRelay {
        fingerprint: Some("AAAA1234".to_string()),
        nickname: Some("TestRelay".to_string()),
        or_addresses: vec!["1.2.3.4:9001".to_string()],
        flags: vec!["Exit".to_string(), "Running".to_string(), "Valid".to_string()],
        observed_bandwidth: Some(50000),
        country: Some("us".to_string()),
        first_seen: Some("2020-01-01 00:00:00".to_string()),
        last_seen: Some("2025-06-01 00:00:00".to_string()),
        exit_policy_summary: None,
        dir_address: None,
    };
    let relays = vec![r];
    assert_eq!(relays.len(), 1);

    let info = onionoo_relay_to_info(&relays[0]).unwrap();
    assert_eq!(info.fingerprint, "AAAA1234");
    assert_eq!(info.nickname, "TestRelay");
    assert_eq!(info.address, IpAddress::parse("1.2.3.4").unwrap());
    assert_eq!(info.or_port, 9001);
    assert_eq!(info.bandwidth, 50000);
    assert!(info.flags.contains(&RelayFlag::Exit));
    assert!(info.flags.contains(&RelayFlag::Running));
}

#[test]
fn parses_ipv6_or_address() {
    let result = parse_or_address("[2001:db8::1]:443");
    assert!(result.is_some());
    let (ip, port) = result.unwrap();
    assert_eq!(ip, IpAddress::parse("2001:db8::1").unwrap());
    assert_eq!(port, 443);
}

#[test]
fn parse_flag_known_and_unknown() {
    assert_eq!(parse_flag("Exit"), Some(RelayFlag::Exit));
    assert_eq!(parse_flag("Guard"), Some(RelayFlag::Guard));
    assert_eq!(parse_flag("Unknown"), None);
}

#[test]
fn parse_flag_reads_every_name_exactly() {
    let names = [
        ("Authority", RelayFlag::Authority),
        ("BadExit", RelayFlag::BadExit),
        ("Exit", RelayFlag::Exit),
        ("Fast", RelayFlag::Fast),
        ("Guard", RelayFlag::Guard),
        ("HSDir", RelayFlag::HSDir),
        ("Running", RelayFlag::Running),
        ("Stable", RelayFlag::Stable),
        ("StaleDesc", RelayFlag::StaleDesc),
        ("V2Dir", RelayFlag::V2Dir),
        ("Valid", RelayFlag::Valid),
    ];
    for (name, flag) in names {
        assert_eq!(parse_flag(name), Some(flag));
    }
    assert_eq!(parse_flag("exit"), None);
    assert_eq!(parse_flag("Exit "), None);
    assert_eq!(parse_flag(""), None);
}

#[test]
fn or_address_forms() {
    assert_eq!(parse_or_address("1.2.3.4:9001"), Some((IpAddress::V4(1, 2, 3, 4), 9001)));
    assert_eq!(parse_or_address("1.2.3.4:+80"), Some((IpAddress::V4(1, 2, 3, 4), 80)));
    assert_eq!(parse_or_address("1.2.3.4:0009001"), Some((IpAddress::V4(1, 2, 3, 4), 9001)));
    assert_eq!(parse_or_address("1.2.3.4:65536"), None);
    assert_eq!(parse_or_address("1.2.3.4:"), None);
    assert_eq!(parse_or_address("1.2.3.4"), None);
    assert_eq!(parse_or_address("1.2.3.4:-1"), None);
    assert_eq!(parse_or_address("[::1]:80"), Some((IpAddress::V6(0, 0, 0, 0, 0, 0, 0, 1), 80)));
    // The character after `]` is skipped whatever it is.
    assert_eq!(parse_or_address("[::1]x80"), Some((IpAddress::V6(0, 0, 0, 0, 0, 0, 0, 1), 80)));
    assert_eq!(parse_or_address("[::1]"), None);
    assert_eq!(parse_or_address("[::1]é80"), None);
    assert_eq!(parse_or_address("é::1]:80"), None);
    assert_eq!(parse_or_address("]:80"), None);
}

#[test]
fn relay_without_address_is_a_parse_error() {
    let mut r = relay("FP1", "Nick", "not-an-address", &[], 1, None);
    match onionoo_relay_to_info(&r) {
        Err(Error::Parse(m)) => assert_eq!(m, "no valid address for relay FP1"),
        other => panic!("unexpected {:?}", other),
    }
    r.or_addresses.clear();
    r.fingerprint = None;
    match onionoo_relay_to_exit(&r) {
        Err(Error::Parse(m)) => assert_eq!(m, "no valid address for relay "),
        other => panic!("unexpected {:?}", other),
    }
}

#[test]
fn relay_info_fields_and_uptime() {
    let mut r = relay("AAAA1234", "TestRelay", "1.2.3.4:9001", &["Exit", "Bogus", "Valid"], 7, Some("de"));
    r.dir_address = Some("1.2.3.4:9030".to_string());
    r.first_seen = Some("2020-01-01 00:00:00".to_string());
    r.last_seen = Some("2025-06-01T12:00:00Z".to_string());
    let info = onionoo_relay_to_info(&r).unwrap();
    assert_eq!(info.dir_port, 9030);
    assert_eq!(info.flags, vec![RelayFlag::Exit, RelayFlag::Valid]);
    assert_eq!(info.country, Some("de".to_string()));
    assert_eq!(info.first_seen.secs, 1577836800);
    assert_eq!(info.last_seen.secs, 1748779200);
    assert_eq!(info.uptime_days, 1978);
}

#[test]
fn relay_info_defaults() {
    let r = OnionooRelay {
        fingerprint: None,
        nickname: None,
        or_addresses: vec!["5.6.7.8:443".to_string()],
        flags: vec![],
        observed_bandwidth: None,
        country: None,
        first_seen: Some("garbage".to_string()),
        last_seen: None,
        exit_policy_summary: None,
        dir_address: Some("nonsense".to_string()),
    };
    let info = onionoo_relay_to_info(&r).unwrap();
    assert_eq!(info.fingerprint, "");
    assert_eq!(info.nickname, "");
    assert_eq!(info.bandwidth, 0);
    assert_eq!(info.dir_port, 0);
    assert_eq!(info.first_seen.secs, 0);
    assert_eq!(info.last_seen.secs, 0);
    assert_eq!(info.uptime_days, 0);
}

#[test]
fn negative_uptime_is_zero() {
    let mut r = relay("F", "N", "1.2.3.4:1", &[], 0, None);
    r.first_seen = Some("2025-01-02 00:00:00".to_string());
    r.last_seen = Some("2025-01-01 00:00:00".to_string());
    assert_eq!(onionoo_relay_to_info(&r).unwrap().uptime_days, 0);
}

#[test]
fn exit_policy_summaries() {
    let mut r = relay("E1", "Exit1", "9.9.9.9:443", &["Exit"], 10, Some("nl"));
    r.exit_policy_summary = Some(OnionooExitPolicy {
        accept: Some(vec!["80".to_string(), "443".to_string()]),
        reject: Some(vec!["25".to_string()]),
    });
    let node = onionoo_relay_to_exit(&r).unwrap();
    assert_eq!(node.exit_policy_summary, "accept 80, 443");
    assert_eq!(node.address, IpAddress::V4(9, 9, 9, 9));
    assert_eq!(node.country, Some("nl".to_string()));
    r.exit_policy_summary = Some(OnionooExitPolicy { accept: None, reject: Some(vec!["1-65535".to_string()]) });
    assert_eq!(onionoo_relay_to_exit(&r).unwrap().exit_policy_summary, "reject 1-65535");
    r.exit_policy_summary = Some(OnionooExitPolicy { accept: None, reject: None });
    assert_eq!(onionoo_relay_to_exit(&r).unwrap().exit_policy_summary, "");
}

#[test]
fn exit_nodes_skip_unreadable_records() {
    let relays = vec![
        relay("A", "a", "1.1.1.1:1", &[], 0, None),
        relay("B", "b", "bogus", &[], 0, None),
        relay("C", "c", "[::2]:3", &[], 0, None),
    ];
    let nodes = exit_nodes_from(&relays);
    assert_eq!(nodes.len(), 2);
    assert_eq!(nodes[0].fingerprint, "A");
    assert_eq!(nodes[1].address, IpAddress::V6(0, 0, 0, 0, 0, 0, 0, 2));
}

#[test]
fn search_stops_at_first_unreadable_record() {
    let relays = vec![
        relay("A", "a", "1.1.1.1:1", &[], 0, None),
        relay("B", "b", "bogus", &[], 0, None),
        relay("C", "c", "also bogus", &[], 0, None),
    ];
    match relay_search_from(&relays) {
        Err(Error::Parse(m)) => assert_eq!(m, "no valid address for relay B"),
        other => panic!("unexpected {:?}", other),
    }
    let ok = relay_search_from(&relays[..1].to_vec()).unwrap();
    assert_eq!(ok.len(), 1);
    assert_eq!(ok[0].nickname, "a");
}

#[test]
fn details_of_missing_relay() {
    match relay_details_from(vec![], "ABC") {
        Err(Error::RelayNotFound(m)) => assert_eq!(m, "ABC"),
        other => panic!("unexpected {:?}", other),
    }
    let info = relay_details_from(vec![relay("X", "x", "1.2.3.4:5", &[], 0, None)], "X").unwrap();
    assert_eq!(info.or_port, 5);
    assert_eq!(first_or_not_found(vec![7, 8], "q"), Ok(7));
}

#[test]
fn network_statistics() {
    let relays = vec![
        relay("A", "a", "1.1.1.1:1", &["Exit", "Guard"], 100, Some("de")),
        relay("B", "b", "1.1.1.2:1", &["Guard"], 50, Some("us")),
        relay("C", "c", "1.1.1.3:1", &["Exit"], 25, Some("de")),
        OnionooRelay { observed_bandwidth: None, country: None, ..relay("D", "d", "x", &["exit"], 0, None) },
    ];
    let stats = network_stats_from(&relays).unwrap();
    assert_eq!(stats.total_relays, 4);
    assert_eq!(stats.exit_relays, 2);
    assert_eq!(stats.guard_relays, 2);
    assert_eq!(stats.total_bandwidth, 175);
    assert_eq!(stats.country_distribution.len(), 2);
    for c in &stats.country_distribution {
        match c.country.as_str() {
            "de" => assert_eq!(c.relays, 2),
            "us" => assert_eq!(c.relays, 1),
            other => panic!("unexpected country {}", other),
        }
    }
}

#[test]
fn network_statistics_add_up() {
    let relays = vec![
        relay("A", "a", "1.1.1.1:1", &["Exit", "Guard"], 1, Some("de")),
        relay("B", "b", "1.1.1.2:1", &["Exit"], 1, Some("us")),
        relay("C", "c", "1.1.1.3:1", &["Exit"], 1, Some("de")),
        relay("D", "d", "1.1.1.4:1", &["Guard"], 1, None),
        relay("E", "e", "1.1.1.5:1", &[], 1, Some("nl")),
    ];
    let stats = network_stats_from(&relays).unwrap();
    let counted: u32 = stats.country_distribution.iter().map(|c| c.relays).sum();
    assert_eq!(counted, 4);
    assert!(stats.exit_relays <= stats.total_relays);
    assert!(stats.guard_relays <= stats.total_relays);
    assert!(stats.country_distribution.iter().all(|c| c.relays <= stats.total_relays));
}

#[test]
fn base_url_trimming_is_idempotent() {
    let client = OnionooClient::with_base_url("https://example.org/api///");
    assert_eq!(client.base_url(), "https://example.org/api");
    let again = OnionooClient::with_base_url(client.base_url());
    assert_eq!(again.base_url(), client.base_url());
    assert_eq!(OnionooClient::with_base_url("///").base_url(), "");
}

#[test]
fn network_statistics_overflow() {
    let relays = vec![
        relay("A", "a", "1.1.1.1:1", &[], u64::MAX, None),
        relay("B", "b", "1.1.1.2:1", &[], 1, None),
    ];
    assert!(network_stats_from(&relays).is_none());
}

#[test]
fn request_urls() {
    let client = OnionooClient::with_base_url("http://localhost:8080//");
    assert_eq!(client.base_url(), "http://localhost:8080");
    assert_eq!(client.relay_details_url("FP"), "http://localhost:8080/details?lookup=FP");
    assert_eq!(client.relay_search_url("DE"), "http://localhost:8080/details?search=DE");
    assert_eq!(client.bandwidth_url("FP"), "http://localhost:8080/bandwidth?lookup=FP");
    assert_eq!(
        client.network_stats_url(),
        "http://localhost:8080/details?type=relay&fields=fingerprint,flags,observed_bandwidth,country"
    );
    assert_eq!(
        client.exit_nodes_url(),
        "http://localhost:8080/details?type=relay&flag=Exit&fields=fingerprint,nickname,or_addresses,exit_policy_summary,country,observed_bandwidth"
    );
    assert_eq!(OnionooClient::default().base_url(), "https://onionoo.torproject.org");
}

#[test]
fn displayed_socket_addresses_read_back() {
    let addrs = [
        IpAddress::V4(1, 2, 3, 4),
        IpAddress::V4(0, 0, 0, 0),
        IpAddress::V6(0, 0, 0, 0, 0, 0, 0, 1),
        IpAddress::V6(0x2001, 0xdb8, 0, 0, 0, 0, 0, 0x9),
        IpAddress::V6(0, 0, 0, 0, 0, 0xffff, 0x0102, 0x0304),
    ];
    for ip in addrs {
        for port in [0u16, 80, 9001, 65535] {
            let text = match ip {
                IpAddress::V4(..) => format!("{}:{}", ip.to_string(), port),
                IpAddress::V6(..) => format!("[{}]:{}", ip.to_string(), port),
            };
            assert_eq!(parse_or_address(&text), Some((ip, port)), "{}", text);
        }
    }
    for bad in ["1.2.3.4", "1.2.3.4:70000", "[::1]", "[::1]:", "host:80"] {
        assert_eq!(parse_or_address(bad), None, "{}", bad);
    }
}
