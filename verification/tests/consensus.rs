use kagemusha::consensus::{
    build_consensus, consensus_at, consensus_from_relays, is_valid_at, onionoo_to_relay_entry,
    relay_entries_from, OnionooConsensusProvider,
};
use kagemusha::ip::IpAddress;
use kagemusha::model::{Error, RelayEntry, RelayFlag};
use kagemusha::onionoo::OnionooRelay;
use kagemusha::time::Timestamp;

fn mock(fingerprint: &str, nickname: &str, addr: &str, flags: &[&str], bw: u64) -> OnionooRelay {
    OnionooRelay {
        fingerprint: Some(fingerprint.into()),
        nickname: Some(nickname.into()),
        or_addresses: vec![addr.into()],
        flags: flags.iter().map(|f| f.to_string()).collect(),
        observed_bandwidth: Some(bw),
        country: None,
        first_seen: None,
        last_seen: None,
        exit_policy_summary: None,
        dir_address: None,
    }
}

fn mock_relays() -> Vec<OnionooRelay> {
    vec![
        mock("AAA111", "GuardRelay", "1.2.3.4:9001", &["Guard", "Running", "Valid"], 100_000),
        mock("BBB222", "ExitRelay", "5.6.7.8:443", &["Exit", "Running", "Valid", "Fast"], 200_000),
        mock("CCC333", "MiddleRelay", "9.10.11.12:9001", &["Running", "Stable"], 50_000),
    ]
}

#[test]
fn constructs_consensus_from_mock_data() {
    let relays: Vec<RelayEntry> = mock_relays()
        .iter()
        .filter_map(|r| onionoo_to_relay_entry(r).ok())
        .collect();

    assert_eq!(relays.len(), 3);
    assert_eq!(relays[0].fingerprint, "AAA111");
    assert_eq!(relays[1].nickname, "ExitRelay");
    assert_eq!(relays[2].address, IpAddress::parse("9.10.11.12").unwrap());
}

#[test]
fn counts_flags_correctly() {
    let relays: Vec<RelayEntry> = mock_relays()
        .iter()
        .filter_map(|r| onionoo_to_relay_entry(r).ok())
        .collect();

    let exit_count = relays.iter().filter(|r| r.flags.contains(&RelayFlag::Exit)).count();
    let guard_count = relays.iter().filter(|r| r.flags.contains(&RelayFlag::Guard)).count();

    assert_eq!(exit_count, 1);
    assert_eq!(guard_count, 1);
}

#[test]
fn entry_fields() {
    let e = onionoo_to_relay_entry(&mock("F", "N", "[::1]:9001", &["Fast", "Nope"], 3)).unwrap();
    assert_eq!(e.address, IpAddress::V6(0, 0, 0, 0, 0, 0, 0, 1));
    assert_eq!(e.or_port, 9001);
    assert_eq!(e.dir_port, 0);
    assert_eq!(e.flags, vec![RelayFlag::Fast]);
    assert_eq!(e.bandwidth, 3);
    match onionoo_to_relay_entry(&mock("F", "N", "nowhere", &[], 3)) {
        Err(Error::Parse(m)) => assert_eq!(m, "no valid address for F"),
        other => panic!("unexpected {:?}", other),
    }
}

#[test]
fn consensus_is_valid_for_an_hour() {
    let mut relays = mock_relays();
    relays.push(mock("DDD444", "Broken", "??", &[], 1));
    let now = Timestamp { secs: 1_700_000_000, nanos: 5 };
    let c = consensus_from_relays(&relays, now);
    assert_eq!(c.valid_after, now);
    assert_eq!(c.valid_until, Timestamp { secs: 1_700_003_600, nanos: 5 });
    assert_eq!(c.relays.len(), 3);
    assert_eq!(relay_entries_from(&relays).len(), 3);

    let built = build_consensus(&relays).unwrap();
    assert_eq!(built.valid_until.secs - built.valid_after.secs, 3600);
    assert_eq!(built.relays.len(), 3);
}

#[test]
fn provider_urls() {
    let p = OnionooConsensusProvider::with_base_url("https://mirror.example/");
    assert_eq!(p.base_url(), "https://mirror.example");
    assert_eq!(
        p.fetch_url(),
        "https://mirror.example/details?type=relay&fields=fingerprint,nickname,or_addresses,flags,observed_bandwidth"
    );
    assert_eq!(OnionooConsensusProvider::new().base_url(), "https://onionoo.torproject.org");
}

#[test]
fn consensus_at_the_end_of_the_range() {
    let relays = mock_relays();
    let last_ok = Timestamp { secs: 8210266876799 - 3600, nanos: 0 };
    let c = consensus_at(&relays, last_ok).unwrap();
    assert_eq!(c.valid_after, last_ok);
    assert_eq!(c.valid_until, Timestamp { secs: 8210266876799, nanos: 0 });
    assert_eq!(c.relays.len(), 3);
    assert!(consensus_at(&relays, Timestamp { secs: 8210266876799 - 3599, nanos: 0 }).is_none());
}

#[test]
fn cached_consensus_validity() {
    let c = consensus_at(&mock_relays(), Timestamp { secs: 1000, nanos: 5 }).unwrap();
    assert!(is_valid_at(&c, Timestamp { secs: 1000, nanos: 5 }));
    assert!(is_valid_at(&c, Timestamp { secs: 4599, nanos: 999_999_999 }));
    assert!(is_valid_at(&c, Timestamp { secs: 4600, nanos: 4 }));
    assert!(!is_valid_at(&c, Timestamp { secs: 4600, nanos: 5 }));
    assert!(!is_valid_at(&c, Timestamp { secs: 9000, nanos: 0 }));
}
