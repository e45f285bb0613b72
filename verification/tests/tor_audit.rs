use kagemusha::ip::IpAddress;
use kagemusha::model::{Error, ExitNode, PrivacyReport};
use kagemusha::tor_audit::{
    echo_body_of, echo_request, extract_echo_body, ip_echo_host, TorAudit, TorAuditAction, TorAuditEvent,
    IP_ECHO_PORT,
};

fn exit(fingerprint: &str, addr: IpAddress) -> ExitNode {
    ExitNode {
        fingerprint: fingerprint.into(),
        nickname: "n".into(),
        address: addr,
        exit_policy_summary: "accept 80,443".into(),
        country: Some("nl".into()),
        bandwidth: 500_000,
    }
}

fn report_of(action: TorAuditAction) -> PrivacyReport {
    match action {
        TorAuditAction::Report(Ok(r)) => r,
        _ => panic!("expected a report"),
    }
}

#[test]
fn echo_request_and_host() {
    assert_eq!(ip_echo_host(), "ifconfig.me");
    assert_eq!(IP_ECHO_PORT, 80);
    assert_eq!(echo_request(), "GET / HTTP/1.1\r\nHost: ifconfig.me\r\nConnection: close\r\n\r\n");
}

#[test]
fn echo_body_is_the_trimmed_text_after_the_header() {
    let reply = b"HTTP/1.1 200 OK\r\nContent-Type: text/plain\r\n\r\n  198.51.100.1\n";
    assert_eq!(extract_echo_body(reply).unwrap(), "198.51.100.1");
    let two = b"H\r\n\r\n1.2.3.4\r\n\r\ntrailer";
    assert_eq!(extract_echo_body(two).unwrap(), "1.2.3.4");
    for empty in [&b"HTTP/1.1 200 OK\r\n"[..], &b"H\r\n\r\n   \n"[..], &b""[..]] {
        match extract_echo_body(empty) {
            Err(Error::Parse(m)) => assert_eq!(m, "empty response body from IP echo service"),
            other => panic!("unexpected {:?}", other),
        }
    }
}

#[test]
fn transport_not_ready_ends_the_audit() {
    let (state, action) = TorAudit::start();
    assert!(matches!(action, TorAuditAction::CheckTransportReady));
    let (state, action) = state.step(TorAuditEvent::TransportReady(false));
    assert!(matches!(state, TorAudit::Finished));
    let report = report_of(action);
    assert!(!report.tor_detected && !report.dns_leak);
    assert_eq!(
        report.recommendations,
        vec!["Tor transport is not ready — bootstrap may still be in progress".to_string()]
    );
}

#[test]
fn failed_ip_fetch_reports_the_error() {
    let (state, _) = TorAudit::start();
    let (state, action) = state.step(TorAuditEvent::TransportReady(true));
    assert!(matches!(action, TorAuditAction::FetchExternalIp));
    let (_, action) = state.step(TorAuditEvent::ExternalIp(Err(Error::Network("timeout".into()))));
    let report = report_of(action);
    assert!(report.tor_detected);
    assert!(!report.dns_leak);
    assert_eq!(
        report.recommendations,
        vec!["Could not determine external IP through Tor: network request failed: timeout".to_string()]
    );
}

#[test]
fn unreadable_ip_is_a_parse_error() {
    let (state, _) = TorAudit::start();
    let (state, _) = state.step(TorAuditEvent::TransportReady(true));
    let (state, action) = state.step(TorAuditEvent::ExternalIp(Ok("<html>".into())));
    assert!(matches!(state, TorAudit::Finished));
    match action {
        TorAuditAction::Report(Err(Error::Parse(m))) => {
            assert_eq!(m, "invalid IP from echo service: <html>: invalid IP address syntax")
        }
        _ => panic!("expected a parse error"),
    }
}

#[test]
fn audit_through_a_known_exit() {
    let ip = IpAddress::parse("198.51.100.1").unwrap();
    let (state, _) = TorAudit::start();
    let (state, _) = state.step(TorAuditEvent::TransportReady(true));
    let (state, action) = state.step(TorAuditEvent::ExternalIp(Ok("198.51.100.1".into())));
    assert!(matches!(action, TorAuditAction::CheckIsExit(a) if a == ip));
    let (state, action) = state.step(TorAuditEvent::IsExit(Ok(true)));
    assert!(matches!(action, TorAuditAction::ListExits));
    let exits = vec![exit("OTHER", IpAddress::V4(1, 1, 1, 1)), exit("TOR_EXIT_FP", ip)];
    let (state, action) = state.step(TorAuditEvent::Exits(Ok(exits)));
    assert!(matches!(state, TorAudit::Finished));
    let report = report_of(action);
    assert!(report.tor_detected);
    assert!(!report.dns_leak);
    assert_eq!(report.exit_fingerprint.as_deref(), Some("TOR_EXIT_FP"));
    assert_eq!(
        report.recommendations,
        vec![
            "External IP 198.51.100.1 is a known Tor exit — traffic is properly routed".to_string(),
            "Exit node fingerprint: TOR_EXIT_FP".to_string(),
            "WebRTC leak check: not applicable in CLI context — disable WebRTC in browsers".to_string(),
            "IP exposure: Tor is active, real IP should be hidden from destination servers".to_string(),
        ]
    );
}

#[test]
fn audit_through_an_unknown_address() {
    let (state, _) = TorAudit::start();
    let (state, _) = state.step(TorAuditEvent::TransportReady(true));
    let (state, _) = state.step(TorAuditEvent::ExternalIp(Ok("2001:db8::1".into())));
    let (state, _) = state.step(TorAuditEvent::IsExit(Err(Error::Other("detector down".into()))));
    let (_, action) = state.step(TorAuditEvent::Exits(Err(Error::Other("detector down".into()))));
    let report = report_of(action);
    assert!(!report.tor_detected);
    assert!(report.dns_leak);
    assert_eq!(report.exit_fingerprint, None);
    assert_eq!(
        report.recommendations,
        vec![
            "DNS leak detected: external IP 2001:db8::1 is not a known Tor exit node — DNS queries may be leaking outside the Tor circuit".to_string(),
            "WebRTC leak check: not applicable in CLI context — disable WebRTC in browsers".to_string(),
        ]
    );
}

#[test]
fn every_audit_reports_within_four_answers() {
    let ip = IpAddress::V4(203, 0, 113, 5);
    let runs: Vec<Vec<TorAuditEvent>> = vec![
        vec![TorAuditEvent::TransportReady(false)],
        vec![TorAuditEvent::TransportReady(true), TorAuditEvent::ExternalIp(Err(Error::Network("x".into())))],
        vec![TorAuditEvent::TransportReady(true), TorAuditEvent::ExternalIp(Ok("nope".into()))],
        vec![
            TorAuditEvent::TransportReady(true),
            TorAuditEvent::ExternalIp(Ok("203.0.113.5".into())),
            TorAuditEvent::IsExit(Ok(true)),
            TorAuditEvent::Exits(Ok(vec![exit("FP", ip)])),
        ],
        vec![
            TorAuditEvent::TransportReady(true),
            TorAuditEvent::ExternalIp(Ok("203.0.113.5".into())),
            TorAuditEvent::IsExit(Ok(false)),
            TorAuditEvent::Exits(Ok(vec![])),
        ],
    ];
    for events in runs {
        let (mut state, mut action) = TorAudit::start();
        for event in events {
            assert!(!matches!(action, TorAuditAction::Report(_)));
            let (s, a) = state.step(event);
            state = s;
            action = a;
        }
        assert!(matches!(state, TorAudit::Finished));
        match action {
            TorAuditAction::Report(Ok(report)) => {
                assert!(!report.webrtc_leak && !report.ip_exposed);
                assert!(!(report.dns_leak && report.tor_detected));
            }
            TorAuditAction::Report(Err(_)) => {}
            _ => panic!("the audit did not report"),
        }
    }
}

#[test]
fn echo_body_of_decoded_text() {
    assert_eq!(echo_body_of("HTTP/1.1 200 OK\r\nA: b\r\n\r\n  203.0.113.9 \n"), Ok("203.0.113.9".to_string()));
    assert_eq!(echo_body_of("x\r\n\r\n1.2.3.4\r\n\r\ntrailer"), Ok("1.2.3.4".to_string()));
    for text in ["", "no header end", "HTTP/1.1 200 OK\r\n\r\n   "] {
        match echo_body_of(text) {
            Err(Error::Parse(m)) => assert_eq!(m, "empty response body from IP echo service"),
            other => panic!("unexpected {:?}", other),
        }
    }
}
