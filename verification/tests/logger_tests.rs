use gps_logger::logbook::{LoadError, ObservationLog};
use gps_logger::observation::{Observation, ReceiveEvent, StepAction};
use gps_logger::observation::observe_step;
use gps_logger::report::{Report, ReportKind};
use gps_logger::schedule::{interval_millis_of_secs, log_file_name, remaining_pause, window_closed};

fn tpv(body: &[u8]) -> Report {
    Report::Tpv(body.to_vec())
}

fn sky(body: &[u8]) -> Report {
    Report::Sky(body.to_vec())
}

#[test]
fn report_kind_and_payload() {
    let r = Report::from_kind(ReportKind::Pps, vec![7, 8]);
    assert_eq!(r.kind(), ReportKind::Pps);
    assert_eq!(r.payload().clone(), vec![7, 8]);
}

#[test]
fn fresh_observation_is_empty() {
    let o = Observation::new(42);
    assert_eq!(o.timestamp_millis, 42);
    assert!(o.device.is_none());
    assert!(o.tpv.is_none());
    assert!(o.sky.is_none());
    assert!(o.pps.is_none());
    assert!(o.gst.is_none());
}

#[test]
fn window_with_tpv_and_sky_fills_only_those_slots() {
    // One TPV report and one SKY report inside the window: tpv and sky are
    // populated, device, pps and gst stay absent.
    let mut o = Observation::new(0);
    o.receive(tpv(b"tpv at t+200ms"));
    o.receive(sky(b"sky at t+900ms"));
    assert_eq!(o.tpv, Some(tpv(b"tpv at t+200ms")));
    assert_eq!(o.sky, Some(sky(b"sky at t+900ms")));
    assert!(o.device.is_none());
    assert!(o.pps.is_none());
    assert!(o.gst.is_none());
}

#[test]
fn later_report_of_same_tag_replaces_earlier() {
    // Two TPV reports in the same window: the slot holds the later one only.
    let mut o = Observation::new(0);
    o.receive(tpv(b"tpv at t+100ms"));
    o.receive(tpv(b"tpv at t+800ms"));
    assert_eq!(o.tpv, Some(tpv(b"tpv at t+800ms")));
}

#[test]
fn observe_step_merges_reports_and_keeps_waiting() {
    let mut o = Observation::new(5);
    let a = observe_step(&mut o, ReceiveEvent::Message(tpv(b"x")), true);
    assert_eq!(a, StepAction::KeepWaiting);
    assert_eq!(o.tpv, Some(tpv(b"x")));
}

#[test]
fn observe_step_failure_skip_and_continue() {
    let mut o = Observation::new(5);
    o.receive(tpv(b"x"));
    let before = o.clone();
    let a = observe_step(&mut o, ReceiveEvent::Failure, true);
    assert_eq!(a, StepAction::KeepWaiting);
    assert_eq!(o, before);
}

#[test]
fn observe_step_failure_fatal_policy_aborts() {
    let mut o = Observation::new(5);
    let before = o.clone();
    let a = observe_step(&mut o, ReceiveEvent::Failure, false);
    assert_eq!(a, StepAction::Abort);
    assert_eq!(o, before);
}

#[test]
fn empty_file_round_trip() {
    // A freshly created, zero-length file is an empty log.
    let loaded = ObservationLog::load(&Vec::new()).unwrap();
    assert_eq!(loaded.len(), 0);
    // Persisting an empty log and loading it again gives an empty log.
    let bytes = loaded.persist();
    assert_eq!(bytes, Vec::<u8>::new());
    let again = ObservationLog::load(&bytes).unwrap();
    assert_eq!(again.len(), 0);
}

#[test]
fn serialization_round_trip_reproduces_entries() {
    let mut log = ObservationLog::new();
    let mut o1 = Observation::new(1111);
    o1.receive(tpv(b"first tpv"));
    o1.receive(Report::Device(b"dev".to_vec()));
    let mut o2 = Observation::new(2222);
    o2.receive(Report::Gst(Vec::new()));
    // A body that itself looks like framing bytes must round-trip unharmed.
    o2.receive(Report::Sky(vec![1, 0, 13, 0, 0, 0, 0, 0, 0, 0, 1]));
    let o3 = Observation::new(3333);
    log.append(o1.clone());
    log.append(o2.clone());
    log.append(o3.clone());
    let bytes = log.persist();
    let loaded = ObservationLog::load(&bytes).unwrap();
    assert_eq!(loaded.entries, vec![o1, o2, o3]);
}

#[test]
fn persisted_bytes_of_single_empty_observation() {
    // Timestamp 1 as eight little-endian bytes, then five empty slots.
    let mut log = ObservationLog::new();
    log.append(Observation::new(1));
    let bytes = log.persist();
    assert_eq!(bytes, vec![1, 0, 0, 0, 0, 0, 0, 0, 0, 0, 0, 0, 0]);
}

#[test]
fn persisted_bytes_of_filled_slot() {
    // A filled slot is the byte 1, the body length as eight little-endian
    // bytes, then the body.
    let mut log = ObservationLog::new();
    let mut o = Observation::new(0);
    o.receive(tpv(&[0xAB, 0xCD]));
    log.append(o);
    let bytes = log.persist();
    let expected: Vec<u8> = vec![
        0, 0, 0, 0, 0, 0, 0, 0, // timestamp
        0, // device absent
        1, 2, 0, 0, 0, 0, 0, 0, 0, 0xAB, 0xCD, // tpv present, two bytes
        0, 0, 0, // sky, pps, gst absent
    ];
    assert_eq!(bytes, expected);
}

#[test]
fn appended_cycles_grow_log_and_keep_history_bytes() {
    // Three load-append-persist cycles: after cycle k the log has k entries
    // in order, and earlier cycles' bytes are a prefix of later ones.
    let mut file = Vec::new();
    let mut previous = Vec::new();
    for k in 1u64..=3 {
        let mut log = ObservationLog::load(&file).unwrap();
        let mut o = Observation::new(k * 1000);
        o.receive(tpv(format!("cycle {}", k).as_bytes()));
        log.append(o);
        file = log.persist();
        assert_eq!(log.len(), k as usize);
        assert_eq!(&file[..previous.len()], &previous[..]);
        previous = file.clone();
    }
    let final_log = ObservationLog::load(&file).unwrap();
    assert_eq!(final_log.len(), 3);
    for (i, entry) in final_log.entries.iter().enumerate() {
        assert_eq!(entry.timestamp_millis, (i as u64 + 1) * 1000);
        assert_eq!(
            entry.tpv,
            Some(tpv(format!("cycle {}", i + 1).as_bytes()))
        );
    }
}

#[test]
fn malformed_content_fails_to_load() {
    let bytes = b"this is not an encoded log".to_vec();
    assert_eq!(ObservationLog::load(&bytes), Err(LoadError::Malformed));
}

#[test]
fn truncated_record_fails_to_load() {
    let mut log = ObservationLog::new();
    let mut o = Observation::new(7);
    o.receive(tpv(b"payload"));
    log.append(o);
    let mut bytes = log.persist();
    bytes.pop();
    assert_eq!(ObservationLog::load(&bytes), Err(LoadError::Malformed));
}

#[test]
fn trailing_garbage_fails_to_load() {
    let mut log = ObservationLog::new();
    log.append(Observation::new(7));
    let mut bytes = log.persist();
    bytes.push(9);
    assert_eq!(ObservationLog::load(&bytes), Err(LoadError::Malformed));
}

#[test]
fn bad_slot_marker_fails_to_load() {
    let mut bytes = vec![0u8; 13];
    bytes[8] = 2; // a slot must start with 0 or 1
    assert_eq!(ObservationLog::load(&bytes), Err(LoadError::Malformed));
}

#[test]
fn window_closes_exactly_at_its_span() {
    assert!(!window_closed(0, 999, 1000));
    assert!(window_closed(0, 1000, 1000));
    assert!(window_closed(0, 2500, 1000));
    // A clock reading earlier than the start never closes the window.
    assert!(!window_closed(500, 400, 100));
}

#[test]
fn pause_is_the_unused_part_of_the_interval() {
    assert_eq!(remaining_pause(0, 300, 10000), 9700);
    assert_eq!(remaining_pause(0, 10000, 10000), 0);
    // An overrun cycle gets no pause.
    assert_eq!(remaining_pause(0, 12000, 10000), 0);
}

#[test]
fn interval_seconds_to_milliseconds() {
    assert_eq!(interval_millis_of_secs(10), Some(10000));
    assert_eq!(interval_millis_of_secs(0), Some(0));
    assert_eq!(interval_millis_of_secs(u64::MAX), None);
}

#[test]
fn file_name_renders_the_start_instant() {
    let name = log_file_name(0);
    assert_eq!(name, "1970-01-01T00-00-00_GPS_data.json");
    let later = log_file_name(1_700_000_000_000);
    assert_eq!(later, "2023-11-14T22-13-20_GPS_data.json");
}
