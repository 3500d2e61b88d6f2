use netstats::delta::{counter_delta, process_ifvec_table};
use netstats::model::{Delta, Interface, Observation, Sample, Timestamp};
use netstats::record::{counter_or_zero, date_and_rest, ingest, sample_from_parts, parse_line, LineError, ParseError};
use netstats::report::{analyze, process_lines};
use netstats::series::{build_vec_for_interface, get_interface_names};
use netstats::store::SampleStore;

fn ts(second: i32) -> Timestamp {
    Timestamp { year: 124, month: 0, day: 1, hour: 10, minute: 0, second, utc_offset: 0 }
}

fn obs(second: i32, rx: u64, tx: u64) -> Observation {
    Observation { timestamp: ts(second), bytes_rx: rx, bytes_tx: tx }
}

fn iface(name: &str, rx: u64, tx: u64) -> Interface {
    Interface { ifname: name.to_string(), bytes_rx: rx, bytes_tx: tx }
}

fn sample(second: i32, ifs: Vec<Interface>) -> Sample {
    Sample { timestamp: ts(second), interfaces: ifs }
}

fn lines(text: &[&str]) -> Vec<String> {
    text.iter().map(|l| l.to_string()).collect()
}

#[test]
fn monotonic_deltas() {
    let d = process_ifvec_table(&vec![obs(1, 100, 50), obs(2, 150, 80), obs(3, 300, 80)]);
    assert_eq!(
        d,
        vec![
            Delta { timestamp: ts(1), delta_rx: 50, delta_tx: 30, reset: false },
            Delta { timestamp: ts(2), delta_rx: 150, delta_tx: 0, reset: false },
        ]
    );
}

#[test]
fn reset_delta() {
    let d = process_ifvec_table(&vec![obs(1, 1000, 500), obs(2, 10, 5)]);
    assert_eq!(d, vec![Delta { timestamp: ts(1), delta_rx: 10, delta_tx: 5, reset: true }]);
}

#[test]
fn reset_of_one_counter_flags_the_entry() {
    let d = process_ifvec_table(&vec![obs(1, 1000, 500), obs(2, 1200, 5)]);
    assert_eq!(d, vec![Delta { timestamp: ts(1), delta_rx: 200, delta_tx: 5, reset: true }]);
}

#[test]
fn counter_delta_values() {
    assert_eq!(counter_delta(100, 150), 50);
    assert_eq!(counter_delta(7, 7), 0);
    assert_eq!(counter_delta(1000, 10), 10);
    assert_eq!(counter_delta(0, u64::MAX), u64::MAX);
}

#[test]
fn fewer_than_two_observations_give_no_delta() {
    assert!(process_ifvec_table(&vec![]).is_empty());
    assert!(process_ifvec_table(&vec![obs(1, 5, 5)]).is_empty());
}

#[test]
fn delta_count_is_one_less_than_appearances() {
    let db = vec![
        sample(1, vec![iface("eth0", 1, 1), iface("lo", 1, 1)]),
        sample(2, vec![iface("eth0", 2, 2)]),
        sample(3, vec![iface("eth0", 3, 3)]),
    ];
    let tables = analyze(&db);
    assert_eq!(tables.len(), 2);
    assert_eq!(tables[0].ifname, "eth0");
    assert_eq!(tables[0].deltas.len(), 2);
    assert_eq!(tables[1].ifname, "lo");
    assert_eq!(tables[1].deltas.len(), 0);
}

#[test]
fn sparse_interface() {
    let db = vec![
        sample(1, vec![iface("eth0", 10, 10), iface("eth1", 100, 200)]),
        sample(2, vec![iface("eth0", 20, 20)]),
        sample(3, vec![iface("eth0", 30, 30), iface("eth1", 180, 260)]),
    ];
    let series = build_vec_for_interface(&"eth1".to_string(), &db);
    assert_eq!(series, vec![obs(1, 100, 200), obs(3, 180, 260)]);
    let deltas = process_ifvec_table(&series);
    assert_eq!(deltas, vec![Delta { timestamp: ts(1), delta_rx: 80, delta_tx: 60, reset: false }]);
}

#[test]
fn names_in_order_of_first_appearance() {
    let db = vec![
        sample(1, vec![iface("wlan0", 1, 1), iface("eth0", 1, 1)]),
        sample(2, vec![iface("eth0", 2, 2), iface("eth1", 2, 2), iface("wlan0", 2, 2)]),
    ];
    assert_eq!(get_interface_names(&db), vec!["wlan0".to_string(), "eth0".to_string(), "eth1".to_string()]);
    assert!(get_interface_names(&vec![]).is_empty());
}

#[test]
fn store_keeps_arrival_order() {
    let mut store = SampleStore::new();
    assert_eq!(store.len(), 0);
    store.append(sample(2, vec![iface("a", 1, 1)]));
    store.append(sample(1, vec![iface("b", 1, 1)]));
    assert_eq!(store.len(), 2);
    assert_eq!(store.all_samples()[0].timestamp, ts(2));
    assert_eq!(store.all_samples()[1].interfaces[0].ifname, "b");
}

#[test]
fn counter_fields() {
    assert_eq!(counter_or_zero("123"), 123);
    assert_eq!(counter_or_zero("+7"), 7);
    assert_eq!(counter_or_zero("18446744073709551615"), u64::MAX);
    assert_eq!(counter_or_zero("18446744073709551616"), 0);
    assert_eq!(counter_or_zero("12a"), 0);
    assert_eq!(counter_or_zero(""), 0);
}

#[test]
fn parse_line_reads_date_and_interfaces() {
    let s = parse_line("Tue, 02 Jan 2024 13:45:07 +0100 @ eth0 RX 123 TX 456, wlan0 RX 7 TX 8,")
        .unwrap();
    assert_eq!(
        s.timestamp,
        Timestamp { year: 124, month: 0, day: 2, hour: 13, minute: 45, second: 7, utc_offset: 3600 }
    );
    assert_eq!(s.interfaces.len(), 2);
    assert_eq!(s.interfaces[0].ifname, "eth0");
    assert_eq!((s.interfaces[0].bytes_rx, s.interfaces[0].bytes_tx), (123, 456));
    assert_eq!(s.interfaces[1].ifname, "wlan0");
    assert_eq!((s.interfaces[1].bytes_rx, s.interfaces[1].bytes_tx), (7, 8));
}

#[test]
fn malformed_counter_reads_as_zero() {
    let s = parse_line("Mon, 01 Jan 2024 10:00:00 +0000 @ eth0 RX 12x4 TX 5, wlan0 RX 7 TX 8,")
        .unwrap();
    assert_eq!(s.timestamp.hour, 10);
    assert_eq!(s.interfaces.len(), 2);
    assert_eq!((s.interfaces[0].bytes_rx, s.interfaces[0].bytes_tx), (0, 5));
    assert_eq!((s.interfaces[1].bytes_rx, s.interfaces[1].bytes_tx), (7, 8));
}

#[test]
fn line_errors() {
    assert_eq!(parse_line("eth0 RX 1 TX 2,").unwrap_err(), ParseError::DateNotFound);
    assert_eq!(parse_line("").unwrap_err(), ParseError::DateNotFound);
    assert_eq!(parse_line("yesterday @ eth0 RX 1 TX 2,").unwrap_err(), ParseError::BadDate);
    assert_eq!(
        parse_line("Mon, 01 Jan 2024 10:00:00 +0000 @ nothing here").unwrap_err(),
        ParseError::NoInterfaceData
    );
}

#[test]
fn sample_from_parts_outcomes() {
    let m = vec![vec![Some("eth0 RX 5 TX 6".to_string()), Some("eth0".to_string()), Some("5".to_string()), Some("6".to_string())]];
    assert_eq!(sample_from_parts(None, &m).unwrap_err(), ParseError::BadDate);
    assert_eq!(sample_from_parts(Some(ts(1)), &vec![]).unwrap_err(), ParseError::NoInterfaceData);
    let s = sample_from_parts(Some(ts(1)), &m).unwrap();
    assert_eq!(s.timestamp, ts(1));
    assert_eq!(s.interfaces[0].ifname, "eth0");
    assert_eq!((s.interfaces[0].bytes_rx, s.interfaces[0].bytes_tx), (5, 6));
}

#[test]
fn missing_date_aborts_the_run() {
    let log = lines(&[
        "Mon, 01 Jan 2024 10:00:00 +0000 @ eth0 RX 1 TX 2,",
        "eth0 RX 5 TX 6,",
        "Mon, 01 Jan 2024 10:02:00 +0000 @ eth0 RX 9 TX 9,",
    ]);
    let r = process_lines(&log);
    assert_eq!(r.unwrap_err(), LineError { line: 2, kind: ParseError::DateNotFound });
    assert_eq!(ingest(&log).err(), Some(LineError { line: 2, kind: ParseError::DateNotFound }));
}

#[test]
fn empty_log_gives_no_tables() {
    assert!(process_lines(&vec![]).unwrap().is_empty());
}

#[test]
fn whole_run_is_repeatable() {
    let log = lines(&[
        "Mon, 01 Jan 2024 10:00:00 +0000 @ eth0 RX 100 TX 50, eth1 RX 1 TX 1,",
        "Mon, 01 Jan 2024 10:01:00 +0000 @ eth0 RX 150 TX 80,",
        "Mon, 01 Jan 2024 10:02:00 +0000 @ eth0 RX 300 TX 80, eth1 RX 5 TX 3,",
    ]);
    let a = process_lines(&log).unwrap();
    let b = process_lines(&log).unwrap();
    assert_eq!(a.len(), 2);
    assert_eq!(a.len(), b.len());
    for (x, y) in a.iter().zip(b.iter()) {
        assert_eq!(x.ifname, y.ifname);
        assert_eq!(x.deltas, y.deltas);
    }
    assert_eq!(a[0].ifname, "eth0");
    assert_eq!(a[0].deltas.len(), 2);
    assert_eq!((a[0].deltas[0].delta_rx, a[0].deltas[0].delta_tx), (50, 30));
    assert_eq!((a[0].deltas[1].delta_rx, a[0].deltas[1].delta_tx), (150, 0));
    assert_eq!(a[0].deltas[0].timestamp.minute, 0);
    assert_eq!(a[1].ifname, "eth1");
    assert_eq!(a[1].deltas.len(), 1);
    assert_eq!((a[1].deltas[0].delta_rx, a[1].deltas[0].delta_tx), (4, 2));
}

#[test]
fn date_split_outcomes() {
    assert_eq!(date_and_rest(&None).unwrap_err(), ParseError::DateNotFound);
    assert_eq!(date_and_rest(&Some(vec![Some("x".to_string())])).unwrap_err(), ParseError::DateNotFound);
    assert_eq!(
        date_and_rest(&Some(vec![Some("d @ r".to_string()), None, Some("r".to_string())])).unwrap_err(),
        ParseError::DateNotFound
    );
    let (d, r) = date_and_rest(&Some(vec![
        Some("d @ r".to_string()),
        Some("d".to_string()),
        Some("r".to_string()),
    ]))
    .unwrap();
    assert_eq!((d.as_str(), r.as_str()), ("d", "r"));
}

#[test]
fn date_is_taken_before_the_last_separator() {
    let s = parse_line("  Mon, 01 Jan 2024 10:00:00 +0000   @ eth0 RX 1 TX 2").unwrap();
    assert_eq!(s.timestamp.minute, 0);
    assert_eq!(s.interfaces.len(), 1);
    assert_eq!((s.interfaces[0].bytes_rx, s.interfaces[0].bytes_tx), (1, 2));
}

#[test]
fn repeated_name_keeps_first_entry() {
    let s = parse_line("Mon, 01 Jan 2024 10:00:00 +0000 @ eth0 RX 1 TX 2, eth0 RX 9 TX 9, lo RX 3 TX 4").unwrap();
    assert_eq!(s.interfaces.len(), 2);
    assert_eq!(s.interfaces[0].ifname, "eth0");
    assert_eq!((s.interfaces[0].bytes_rx, s.interfaces[0].bytes_tx), (1, 2));
    assert_eq!(s.interfaces[1].ifname, "lo");
}

#[test]
fn missing_interface_data_aborts_the_run() {
    let log = lines(&[
        "Mon, 01 Jan 2024 10:00:00 +0000 @ eth0 RX 1 TX 2,",
        "Mon, 01 Jan 2024 10:01:00 +0000 @ ",
        "no date here",
    ]);
    assert_eq!(process_lines(&log).unwrap_err(), LineError { line: 2, kind: ParseError::NoInterfaceData });
}
