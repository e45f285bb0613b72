use kagemusha::exits::{
    exit_nodes_from_addresses, is_exit_address, parse_exit_list, CacheLookup, TorExitDetector,
};
use kagemusha::ip::IpAddress;

#[test]
fn parses_exit_list_format() {
    let body = "# comment\n1.2.3.4\n5.6.7.8\n\n# another comment\n9.10.11.12\n";
    let addrs = parse_exit_list(body);
    assert_eq!(addrs.len(), 3);
    assert_eq!(addrs[0], IpAddress::parse("1.2.3.4").unwrap());
    assert_eq!(addrs[1], IpAddress::parse("5.6.7.8").unwrap());
    assert_eq!(addrs[2], IpAddress::parse("9.10.11.12").unwrap());
}

#[test]
fn handles_empty_list() {
    let addrs = parse_exit_list("");
    assert!(addrs.is_empty());

    let addrs = parse_exit_list("# only comments\n# here\n");
    assert!(addrs.is_empty());
}

#[test]
fn skips_invalid_lines() {
    let body = "1.2.3.4\nnot_an_ip\n5.6.7.8\n";
    let addrs = parse_exit_list(body);
    assert_eq!(addrs.len(), 2);
}

#[test]
fn exit_list_trims_and_handles_line_endings() {
    let body = "  1.2.3.4  \r\n\t::1\r\n   # indented comment\n5.6.7.8\r";
    let addrs = parse_exit_list(body);
    assert_eq!(
        addrs,
        vec![IpAddress::V4(1, 2, 3, 4), IpAddress::V6(0, 0, 0, 0, 0, 0, 0, 1), IpAddress::V4(5, 6, 7, 8)]
    );
}

#[test]
fn caches_results() {
    let hour: u128 = 3_600_000_000_000;
    let mut detector = TorExitDetector::with_config("https://example.com/nonexistent", hour);
    assert_eq!(detector.exit_list_url(), "https://example.com/nonexistent");
    assert!(matches!(detector.lookup(0), CacheLookup::Refresh));

    // Pre-populate the cache.
    detector.store(vec![IpAddress::parse("1.2.3.4").unwrap()], 10);

    // Should use the cache without a refresh.
    let exits = match detector.lookup(20) {
        CacheLookup::Fresh(v) => v,
        CacheLookup::Refresh => panic!("expected a fresh list"),
    };
    assert!(is_exit_address(&exits, IpAddress::parse("1.2.3.4").unwrap()));
    assert!(!is_exit_address(&exits, IpAddress::parse("9.9.9.9").unwrap()));

    // Once the time to live has passed, the list is fetched again.
    assert!(matches!(detector.lookup(10 + hour - 1), CacheLookup::Fresh(_)));
    assert!(matches!(detector.lookup(10 + hour), CacheLookup::Refresh));
}

#[test]
fn default_detector_configuration() {
    let detector = TorExitDetector::new();
    assert_eq!(detector.exit_list_url(), "https://check.torproject.org/torbulkexitlist");
    assert_eq!(detector.cache_ttl_nanos(), 3_600_000_000_000);
}

#[test]
fn exit_nodes_know_only_the_address() {
    let nodes = exit_nodes_from_addresses(&vec![IpAddress::V4(1, 1, 1, 1), IpAddress::V4(2, 2, 2, 2)]);
    assert_eq!(nodes.len(), 2);
    assert_eq!(nodes[1].address, IpAddress::V4(2, 2, 2, 2));
    assert_eq!(nodes[0].fingerprint, "");
    assert_eq!(nodes[0].exit_policy_summary, "");
    assert_eq!(nodes[0].country, None);
    assert_eq!(nodes[0].bandwidth, 0);
}

#[test]
fn written_exit_list_parses_back() {
    let addrs = vec![
        IpAddress::V4(185, 220, 101, 1),
        IpAddress::V6(0x2a0b, 0xf4c2, 0, 0, 0, 0, 0, 0x10),
        IpAddress::V6(0, 0, 0, 0, 0, 0xffff, 0x0a00, 0x0001),
        IpAddress::V4(0, 0, 0, 0),
    ];
    let body = addrs.iter().map(|a| a.to_string()).collect::<Vec<_>>().join("\n");
    assert_eq!(parse_exit_list(&body), addrs);
    assert_eq!(parse_exit_list(""), Vec::<IpAddress>::new());
}

#[test]
fn joined_exit_lists_concatenate() {
    let pieces = ["1.2.3.4\r\n# c\n5.6.7.8\r", "", "\n::1\nbad\n", "  9.9.9.9  ", "#x"];
    for a in pieces {
        for b in pieces {
            let joined = format!("{}\n{}", a, b);
            let mut expected = parse_exit_list(a);
            expected.extend(parse_exit_list(b));
            assert_eq!(parse_exit_list(&joined), expected, "{:?}", joined);
        }
    }
}
