use kagemusha::audit::{
    audit_report, basic_audit_report, build_recommendations, check_dns_leak, check_ip_exposed,
};
use kagemusha::ip::IpAddress;
use kagemusha::model::{Error, ExitNode};

fn exit(fingerprint: &str, nickname: &str, addr: &str) -> ExitNode {
    ExitNode {
        fingerprint: fingerprint.into(),
        nickname: nickname.into(),
        address: IpAddress::parse(addr).unwrap(),
        exit_policy_summary: String::new(),
        country: None,
        bandwidth: 0,
    }
}

#[test]
fn generates_report() {
    let report = basic_audit_report(Ok(vec![]));

    assert!(!report.dns_leak);
    assert!(!report.webrtc_leak);
    assert!(!report.ip_exposed);
    assert!(!report.tor_detected);
    assert!(report.exit_fingerprint.is_none());
}

#[test]
fn all_checks_have_results() {
    let report = basic_audit_report(Ok(vec![exit("ABCD1234", "TestExit", "1.2.3.4")]));

    // With exits loaded, tor_detected should be true.
    assert!(report.tor_detected);
    // Recommendations should be populated.
    assert!(!report.recommendations.is_empty());
}

#[test]
fn recommendations_always_present() {
    let report = basic_audit_report(Ok(vec![]));

    // Should always have at least the four category recommendations.
    assert!(report.recommendations.len() >= 3);
}

#[test]
fn exit_fingerprint_captured() {
    let mut node = exit("DEADBEEF", "MyExit", "10.0.0.1");
    node.country = Some("de".into());
    node.bandwidth = 100_000;
    let report = basic_audit_report(Ok(vec![node]));

    assert!(report.tor_detected);
    assert_eq!(report.exit_fingerprint.as_deref(), Some("DEADBEEF"));
}

#[test]
fn dns_leak_detected_when_ip_not_exit() {
    // External IP that is NOT in the exit list = DNS leak.
    let exits = vec![IpAddress::parse("1.2.3.4").unwrap()];
    let leak = check_dns_leak(&exits, Some(IpAddress::parse("9.9.9.9").unwrap()));
    assert!(leak);

    // External IP that IS in the exit list = no leak.
    let no_leak = check_dns_leak(&exits, Some(IpAddress::parse("1.2.3.4").unwrap()));
    assert!(!no_leak);
}

#[test]
fn ip_exposed_when_external_matches_local() {
    let local = vec![IpAddress::parse("192.168.1.10").unwrap()];

    // External IP matches local interface = exposed.
    assert!(check_ip_exposed(Some(IpAddress::parse("192.168.1.10").unwrap()), &local));

    // Different external IP = not exposed.
    assert!(!check_ip_exposed(Some(IpAddress::parse("8.8.8.8").unwrap()), &local));

    // No external IP = not exposed (conservative).
    assert!(!check_ip_exposed(None, &local));
}

#[test]
fn recommendations_vary_with_tor_status() {
    // No exits -> recommendations mention "not connected".
    let report = basic_audit_report(Ok(vec![]));
    assert!(report.recommendations.iter().any(|r| r.contains("not be connected to Tor")));

    // With exits -> recommendations mention "appears active".
    let report = basic_audit_report(Ok(vec![exit("F1", "N1", "1.1.1.1")]));
    assert!(report.recommendations.iter().any(|r| r.contains("appears active")));
}

#[test]
fn no_leak_reported_without_external_ip_or_exits() {
    assert!(!check_dns_leak(&vec![IpAddress::V4(1, 2, 3, 4)], None));
    assert!(!check_dns_leak(&vec![], Some(IpAddress::V4(9, 9, 9, 9))));
}

#[test]
fn failed_listing_counts_as_no_exits() {
    let report = basic_audit_report(Err(Error::Network("down".into())));
    assert!(!report.tor_detected);
    assert_eq!(report.recommendations.len(), 4);
}

#[test]
fn empty_first_fingerprint_is_not_reported() {
    let report = basic_audit_report(Ok(vec![exit("", "anon", "1.1.1.1"), exit("F2", "n", "2.2.2.2")]));
    assert!(report.tor_detected);
    assert_eq!(report.exit_fingerprint, None);
}

#[test]
fn full_audit_with_known_addresses() {
    let exits = vec![exit("F1", "N1", "1.1.1.1")];
    let local = vec![IpAddress::V4(9, 9, 9, 9)];
    let report = audit_report(Ok(exits), Some(IpAddress::V4(9, 9, 9, 9)), &local);
    assert!(report.dns_leak);
    assert!(report.ip_exposed);
    assert!(report.recommendations[0].starts_with("DNS leak detected: configure"));
    assert!(report.recommendations[2].starts_with("IP exposed:"));
}

#[test]
fn recommendation_texts() {
    let recs = build_recommendations(false, false, false, true);
    assert_eq!(
        recs,
        vec![
            "DNS leak check: no leak detected".to_string(),
            "WebRTC leak check: not yet implemented — disable WebRTC in browser settings as a precaution".to_string(),
            "IP exposure check: real IP does not appear to be exposed".to_string(),
            "Tor connection: exit nodes detected, Tor appears active".to_string(),
        ]
    );
    let recs = build_recommendations(true, true, true, false);
    assert_eq!(
        recs[0],
        "DNS leak detected: configure your system to route DNS queries through Tor (e.g., set DNS to 127.0.0.1:5353 with a Tor DNS proxy)"
    );
    assert_eq!(
        recs[1],
        "WebRTC leak detected: disable WebRTC in your browser (about:config → media.peerconnection.enabled = false)"
    );
    assert_eq!(
        recs[2],
        "IP exposed: your real IP is visible externally — ensure all traffic is routed through Tor or a VPN"
    );
    assert_eq!(
        recs[3],
        "No Tor exit nodes detected — you may not be connected to Tor. Verify your Tor daemon is running and circuits are established"
    );
}

#[test]
fn every_report_has_four_recommendations() {
    let exits = vec![exit("FP", "n", "1.2.3.4")];
    let reports = [
        basic_audit_report(Ok(vec![])),
        basic_audit_report(Ok(exits.clone())),
        basic_audit_report(Err(Error::Network("down".into()))),
        audit_report(Ok(exits.clone()), Some(IpAddress::V4(9, 9, 9, 9)), &vec![IpAddress::V4(9, 9, 9, 9)]),
        audit_report(Ok(exits), Some(IpAddress::V4(1, 2, 3, 4)), &vec![]),
    ];
    for report in &reports {
        assert_eq!(report.recommendations.len(), 4);
        assert!(!report.webrtc_leak);
        assert!(!report.dns_leak || report.tor_detected);
    }
}

#[test]
fn recommendation_text_structure() {
    for bits in 0..16u8 {
        let (dns, webrtc, exposed, tor) = (bits & 1 != 0, bits & 2 != 0, bits & 4 != 0, bits & 8 != 0);
        let recs = build_recommendations(dns, webrtc, exposed, tor);
        assert_eq!(recs.len(), 4);
        assert_eq!(recs[0].starts_with("DNS leak detected"), dns);
        assert_eq!(recs[1].starts_with("WebRTC leak detected"), webrtc);
        assert_eq!(recs[2].starts_with("IP exposed"), exposed);
        assert_eq!(recs[3].contains("not be connected to Tor"), !tor);
        assert_eq!(recs[3].contains("appears active"), tor);
    }
}
