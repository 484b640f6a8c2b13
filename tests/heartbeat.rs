use std::sync::atomic::Ordering;

use muxado::error::ErrorCode;
use muxado::heartbeat::{
    get_durations, Heartbeat, HeartbeatConfig, HeartbeatTimes, Monitor, Requester, NANOS_PER_SEC,
};
use muxado::typed::{decode_type, encode_type, HEARTBEAT_TYPE};

const MS: u64 = 1_000_000;

#[test]
fn echo_of_sent_id_is_accepted() {
    let mut r = Requester::new();
    let out = r.start_beat_with(0x0102_0304);
    assert_eq!(out, vec![1, 2, 3, 4]);
    assert!(r.check_echo(&out));
}

#[test]
fn random_beat_echoed_back_is_accepted() {
    let mut r = Requester::new();
    let out = r.start_beat().expect("random source");
    assert_eq!(out.len(), 4);
    assert!(r.check_echo(&out));
}

#[test]
fn mismatched_echo_stops_requester() {
    let mut r = Requester::new();
    let out = r.start_beat_with(7);
    let mut bad = out.clone();
    bad[3] ^= 1;
    assert!(!r.check_echo(&bad));
    // Without a beat under way no echo is accepted.
    assert!(!r.check_echo(&out));
}

#[test]
fn monitor_reports_latency_then_missed_beat() {
    let interval = 10 * MS;
    let tolerance = 10 * MS;
    let mut m = Monitor::new(0, interval, tolerance);
    assert_eq!(m.deadline, 20 * MS);
    assert!(!m.expired(5 * MS));
    let lat = m.on_latency(5 * MS, 2 * MS, interval, tolerance);
    assert!(lat > 0);
    assert_eq!(lat, 2 * MS);
    assert_eq!(m.deadline, 25 * MS);
    // Echo stopped: within 20 ms of the last beat the callback gets 0.
    assert!(m.expired(25 * MS));
    assert_eq!(m.on_timeout(25 * MS, interval, tolerance), 0);
    assert_eq!(m.deadline, 45 * MS);
    // And again, periodically.
    assert!(m.expired(45 * MS));
    assert_eq!(m.on_timeout(45 * MS, interval, tolerance), 0);
}

#[test]
fn monitor_deadline_saturates() {
    let m = Monitor::new(u64::MAX - 1, 10, 10);
    assert_eq!(m.deadline, u64::MAX);
}

#[test]
fn heartbeat_type_is_reserved() {
    let hb = Heartbeat::new(());
    assert_eq!(hb.typ, HEARTBEAT_TYPE);
    assert_eq!(hb.check_open(HEARTBEAT_TYPE), Err(ErrorCode::StreamRefused));
    assert_eq!(hb.check_open(1), Ok(()));
    assert!(hb.is_heartbeat(0xFFFF_FFFF));
    assert!(!hb.is_heartbeat(0));
    let half = hb.rewrap(5u8);
    assert_eq!(half.typ, HEARTBEAT_TYPE);
    assert_eq!(half.inner, 5);
}

#[test]
fn default_config() {
    let c: HeartbeatConfig<fn(u64)> = HeartbeatConfig::default();
    assert_eq!(c.interval, 10 * NANOS_PER_SEC);
    assert_eq!(c.tolerance, 15 * NANOS_PER_SEC);
    assert!(c.callback.is_none());
}

#[test]
fn durations_are_shared_and_settable() {
    let t = HeartbeatTimes::new(10, 20);
    assert_eq!(t.get_durations(), (10, 20));
    t.set_interval(30);
    t.set_tolerance(40);
    assert_eq!(get_durations(&t.durations), (30, 40));
    assert_eq!(t.durations.0.load(Ordering::Relaxed), 30);
}

#[test]
fn type_tag_round_trip() {
    let tag = encode_type(0xDEAD_BEEF);
    assert_eq!(tag, vec![0xDE, 0xAD, 0xBE, 0xEF]);
    let mut stream = tag.clone();
    stream.extend_from_slice(b"user bytes");
    assert_eq!(decode_type(&stream), Some(0xDEAD_BEEF));
    assert_eq!(decode_type(&tag[..3]), None);
}
