use beijing_bus::bus::{BusLine, BusStation, LatLngText, RealtimeBus};
use beijing_bus::poll::{
    contains_str, is_followed_line, next_station_seconds, round_pause_ms, should_store,
    PollAction, RetryState,
};

#[test]
fn fresh_values() {
    let p = LatLngText::new();
    assert_eq!((p.lat.as_str(), p.lng.as_str()), ("0", "0"));
    let s = BusStation::new();
    assert_eq!(s.name, "");
    let b = RealtimeBus::new();
    assert_eq!(b.id, 0);
    assert_eq!(b.gps_update_time, 0);
    assert_eq!(b.next_station, "");
    let l = BusLine::new(-3);
    assert_eq!(l.display_text(), "<BUS:  (0站) id=-3#0>");
}

#[test]
fn bus_status_lines() {
    let mut b = RealtimeBus::new();
    b.id = 17;
    b.next_station = "北站".to_string();
    b.next_station_run_time = -1;
    b.next_station_time = -1;
    assert!(b.has_arrived());
    assert_eq!(b.describ(), "bus#17 到站！ => 北站");
    b.next_station_time = 1400000000;
    assert!(!b.has_arrived());
    assert_eq!(b.describ(), "bus#17 下一站 => 北站");
    b.id = -2;
    b.next_station_run_time = 30;
    b.next_station_time = -1;
    assert_eq!(b.describ(), "bus#-2 下一站 => 北站");
}

#[test]
fn followed_lines() {
    assert!(is_followed_line("运通101(北京站-中关村)"));
    assert!(is_followed_line("快速运通"));
    assert!(!is_followed_line("116(城铁柳芳站-龙潭公园)"));
    assert!(!is_followed_line("运"));
    assert!(!is_followed_line(""));
    assert!(contains_str("abc", ""));
    assert!(contains_str("abc", "bc"));
    assert!(!contains_str("abc", "abcd"));
}

#[test]
fn retries() {
    let mut r = RetryState::new();
    assert_eq!(r.after_fetch(true), PollAction::Process);
    for _ in 0..5 {
        assert_eq!(r.after_fetch(false), PollAction::RetryAfterPause);
    }
    assert_eq!(r.retries, 5);
    assert_eq!(r.after_fetch(false), PollAction::StopAfterPause);
    let mut r = RetryState::new();
    r.after_fetch(false);
    r.after_fetch(false);
    assert_eq!(r.after_fetch(true), PollAction::Process);
    assert_eq!(r.retries, 0);
}

#[test]
fn pacing_and_storage() {
    assert_eq!(round_pause_ms(0), 8000);
    assert_eq!(round_pause_ms(7_999_999_999), 8000);
    assert_eq!(round_pause_ms(8_000_000_000), 0);
    assert_eq!(round_pause_ms(u64::MAX), 0);
    assert_eq!(next_station_seconds(-1), None);
    assert_eq!(next_station_seconds(1400000000), Some(1400000000));
    assert_eq!(next_station_seconds(-2), Some(-2));
    assert!(should_store(0));
    assert!(!should_store(1));
    assert!(should_store(2));
}
