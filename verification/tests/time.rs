use kagemusha::time::{add_one_hour, resolve_instant, seen_time, uptime_days, Timestamp};

#[test]
fn seen_time_readings() {
    assert_eq!(seen_time(&None), Timestamp { secs: 0, nanos: 0 });
    assert_eq!(seen_time(&Some("2020-01-01 00:00:00".into())), Timestamp { secs: 1577836800, nanos: 0 });
    assert_eq!(
        seen_time(&Some("2020-01-01T01:00:00.5+01:00".into())),
        Timestamp { secs: 1577836800, nanos: 500_000_000 }
    );
    assert_eq!(seen_time(&Some("yesterday".into())), Timestamp { secs: 0, nanos: 0 });
}

#[test]
fn resolve_prefers_rfc3339() {
    assert_eq!(resolve_instant(Some((5, 1)), Some((7, 2))), Timestamp { secs: 5, nanos: 1 });
    assert_eq!(resolve_instant(None, Some((7, 2))), Timestamp { secs: 7, nanos: 2 });
    assert_eq!(resolve_instant(None, None), Timestamp { secs: 0, nanos: 0 });
}

#[test]
fn uptime_in_whole_days() {
    let t = |secs: i64, nanos: u32| Timestamp { secs, nanos };
    assert_eq!(uptime_days(t(0, 0), t(86_400, 0)), 1);
    assert_eq!(uptime_days(t(0, 0), t(86_399, 999_999_999)), 0);
    assert_eq!(uptime_days(t(0, 500), t(86_400, 499)), 0);
    assert_eq!(uptime_days(t(86_400 * 10, 0), t(0, 0)), 0);
    assert_eq!(uptime_days(t(1577836800, 0), t(1748736000, 0)), 1978);
    assert_eq!(uptime_days(t(i64::MIN, 0), t(i64::MAX, 0)), 0);
}

#[test]
fn one_hour_later() {
    assert_eq!(add_one_hour(Timestamp { secs: 10, nanos: 7 }), Timestamp { secs: 3610, nanos: 7 });
    assert_eq!(
        add_one_hour(Timestamp { secs: 59, nanos: 1_200_000_000 }),
        Timestamp { secs: 3659, nanos: 200_000_000 }
    );
}
