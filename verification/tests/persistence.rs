use kagemusha::ip::IpAddress;
use kagemusha::model::{ExitNode, RelayEntry, RelayFlag};
use kagemusha::persistence::{exit_snapshot_row, flags_to_json, relay_snapshot_row};

fn sample_relay() -> RelayEntry {
    RelayEntry {
        fingerprint: "AAAA1234BBBB5678".into(),
        nickname: "TestRelay".into(),
        address: IpAddress::parse("1.2.3.4").unwrap(),
        or_port: 9001,
        dir_port: 0,
        flags: vec![RelayFlag::Exit, RelayFlag::Running, RelayFlag::Valid],
        bandwidth: 100_000,
    }
}

fn sample_exit() -> ExitNode {
    ExitNode {
        fingerprint: "EXIT_FP_001".into(),
        nickname: "FastExit".into(),
        address: IpAddress::parse("5.6.7.8").unwrap(),
        exit_policy_summary: "accept 80,443".into(),
        country: Some("de".into()),
        bandwidth: 500_000,
    }
}

#[test]
fn relay_row_columns() {
    let row = relay_snapshot_row(&sample_relay(), "2025-06-01T00:00:00Z");
    assert_eq!(row.fingerprint, "AAAA1234BBBB5678");
    assert_eq!(row.nickname, "TestRelay");
    assert_eq!(row.address, "1.2.3.4");
    assert_eq!(row.or_port, 9001);
    assert_eq!(row.dir_port, 0);
    assert_eq!(row.flags, "[\"Exit\",\"Running\",\"Valid\"]");
    assert_eq!(row.bandwidth, 100_000);
    assert_eq!(row.country, None);
    assert_eq!(row.captured_at, "2025-06-01T00:00:00Z");
}

#[test]
fn exit_row_columns() {
    let row = exit_snapshot_row(&sample_exit(), "2025-06-01T12:00:00Z");
    assert_eq!(row.fingerprint, "EXIT_FP_001");
    assert_eq!(row.address, "5.6.7.8");
    assert_eq!(row.exit_policy, "accept 80,443");
    assert_eq!(row.country, Some("de".to_string()));
    assert_eq!(row.bandwidth, 500_000);
    assert_eq!(row.captured_at, "2025-06-01T12:00:00Z");
}

#[test]
fn flags_json_and_wrapping_bandwidth() {
    assert_eq!(flags_to_json(&vec![]), "[]");
    assert_eq!(flags_to_json(&vec![RelayFlag::HSDir]), "[\"HSDir\"]");
    let mut relay = sample_relay();
    relay.bandwidth = u64::MAX;
    relay.address = IpAddress::V6(0xfe80, 0, 0, 0, 0, 0, 0, 1);
    let row = relay_snapshot_row(&relay, "t");
    assert_eq!(row.bandwidth, -1);
    assert_eq!(row.address, "fe80::1");
}

#[test]
fn stored_addresses_read_back() {
    let mut relay = sample_relay();
    for address in [
        IpAddress::V4(1, 2, 3, 4),
        IpAddress::V6(0x2001, 0xdb8, 0, 0, 0, 0, 0, 0x42),
        IpAddress::V6(0, 0, 0, 0, 0, 0xffff, 0x0102, 0x0304),
    ] {
        relay.address = address;
        let row = relay_snapshot_row(&relay, "t");
        assert_eq!(IpAddress::parse(&row.address), Some(address));
        let mut exit = sample_exit();
        exit.address = address;
        let row = exit_snapshot_row(&exit, "t");
        assert_eq!(IpAddress::parse(&row.address), Some(address));
    }
}
