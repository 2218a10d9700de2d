use mrtracker::common::{Diagnostic, Line, Station};
use mrtracker::map::{
    computed, judge_freshness, place, quality, FreshnessState, PositionQuality, TrainLocation,
};
use mrtracker::matching::{RunKey, TripUpdateIndex, UpdateMatch};
use mrtracker::realtime::{RailRtFeed, StopTimeEvent, StopTimeUpdate, TripUpdate};
use mrtracker::schedule::{
    RailNetwork, ScheduledCall, TimeExactness, TimeQuality, TripInstance,
};
use mrtracker::time::{parse_date, GtfsTime, ServiceDate};

#[test]
fn a_run_without_an_update_is_schedule_only() {
    assert_eq!(quality(true, false, false), PositionQuality::ScheduleOnly);
    assert_eq!(quality(false, false, true), PositionQuality::ScheduleOnly);
}

#[test]
fn realtime_positions_carry_their_provenance() {
    assert_eq!(quality(true, true, false), PositionQuality::AtStation);
    assert_eq!(
        quality(false, true, false),
        PositionQuality::InterpolatedRealtime
    );
    assert_eq!(
        quality(false, true, true),
        PositionQuality::InterpolatedSchedule
    );
}

#[test]
fn an_ageing_layer_still_applies_and_a_stale_one_does_not() {
    assert!(FreshnessState::Live.is_current());
    assert!(FreshnessState::Ageing.is_current());
    assert!(!FreshnessState::Stale.is_current());
    assert!(!FreshnessState::Unavailable.is_current());
}

#[test]
fn a_computed_time_is_not_a_published_time() {
    assert!(computed(TimeQuality::Interpolated));
    assert!(computed(TimeQuality::Approximate));
    assert!(!computed(TimeQuality::Exact));
    assert!(!computed(TimeQuality::Missing));
}

fn date(text: &str) -> ServiceDate {
    parse_date(text).unwrap()
}

fn hms(h: u32, m: u32, s: u32) -> GtfsTime {
    GtfsTime::from_hms(h, m, s)
}

fn feed(timestamp: Option<u64>, updates: Vec<TripUpdate>) -> RailRtFeed {
    RailRtFeed {
        feed_timestamp: timestamp,
        trip_updates: updates,
    }
}

fn run_update(
    trip_id: &str,
    start_date: Option<&str>,
    start_time: Option<&str>,
    delay_secs: Option<i32>,
) -> TripUpdate {
    TripUpdate {
        trip_id: Some(trip_id.to_string()),
        start_date: start_date.map(str::to_string),
        start_time: start_time.map(str::to_string),
        canceled: false,
        delay_secs,
        stop_updates: Vec::new(),
    }
}

fn codes(diagnostics: &[Diagnostic]) -> Vec<&str> {
    diagnostics.iter().map(|d| d.code.as_str()).collect()
}

#[test]
fn the_layer_ages_by_its_two_thresholds() {
    let live = feed(Some(1_000), vec![run_update("T", None, None, Some(60))]);
    let d = date("20260810");
    let clock = hms(8, 0, 0);
    let mut diagnostics = Vec::new();
    let f = judge_freshness(d, clock, Some(&live), Some(1_030), 60, 120, &mut diagnostics);
    assert_eq!(f.state, FreshnessState::Live);
    assert_eq!(f.age_secs, Some(30));
    assert!(diagnostics.is_empty());

    let f = judge_freshness(d, clock, Some(&live), Some(1_090), 60, 120, &mut diagnostics);
    assert_eq!(f.state, FreshnessState::Ageing);
    let f = judge_freshness(d, clock, Some(&live), Some(1_121), 60, 120, &mut diagnostics);
    assert_eq!(f.state, FreshnessState::Stale);
    assert_eq!(codes(&diagnostics), vec!["realtime-ageing", "realtime-stale"]);

    // A reading before the timestamp is an age of zero, not a negative one.
    let f = judge_freshness(d, clock, Some(&live), Some(900), 60, 120, &mut diagnostics);
    assert_eq!(f.age_secs, Some(0));
    assert_eq!(f.state, FreshnessState::Live);
}

#[test]
fn judging_a_feed_without_a_timestamp_counts_as_stale() {
    let undated = feed(None, Vec::new());
    let mut diagnostics = Vec::new();
    let f = judge_freshness(
        date("20260810"),
        hms(8, 0, 0),
        Some(&undated),
        Some(1_000),
        60,
        120,
        &mut diagnostics,
    );
    assert_eq!(f.state, FreshnessState::Stale);
    assert_eq!(f.age_secs, None);
    assert_eq!(
        codes(&diagnostics),
        vec!["realtime-without-trip-updates", "realtime-without-timestamp"]
    );
}

#[test]
fn without_a_realtime_layer_the_state_is_unavailable() {
    let mut diagnostics = Vec::new();
    let f = judge_freshness(
        date("20260810"),
        hms(8, 0, 0),
        None,
        Some(1_000),
        60,
        120,
        &mut diagnostics,
    );
    assert_eq!(f.state, FreshnessState::Unavailable);
    assert!(!f.state.is_current());
    assert!(diagnostics.is_empty());
}

fn index(updates: Vec<TripUpdate>, diagnostics: &mut Vec<Diagnostic>) -> TripUpdateIndex {
    let rt = feed(Some(1_000), updates);
    TripUpdateIndex::from_feed(Some(&rt), diagnostics)
}

#[test]
fn an_update_reaches_only_the_service_date_it_names() {
    let mut diagnostics = Vec::new();
    let idx = index(
        vec![
            run_update("T1", Some("20260810"), None, Some(60)),
            run_update("T1", Some("20260811"), None, Some(120)),
        ],
        &mut diagnostics,
    );
    let m = idx.lookup(RunKey::new("T1", date("20260810"), None));
    assert_eq!(m.update, Some(0));
    assert!(m.targeted);
    let m = idx.lookup(RunKey::new("T1", date("20260811"), None));
    assert_eq!(m.update, Some(1));
    let m = idx.lookup(RunKey::new("T1", date("20260812"), None));
    assert_eq!(m.update, None);
    assert!(!m.ambiguous);
    let m = idx.lookup(RunKey::new("T2", date("20260810"), None));
    assert_eq!(m.update, None);
    assert!(diagnostics.is_empty());
}

#[test]
fn headway_siblings_match_by_their_start_time() {
    let mut diagnostics = Vec::new();
    let idx = index(
        vec![
            run_update("F1", None, Some("08:10:00"), Some(300)),
            run_update("F2", None, None, Some(300)),
        ],
        &mut diagnostics,
    );
    let m = idx.lookup(RunKey::new("F1", date("20260810"), Some(hms(8, 10, 0))));
    assert_eq!(m.update, Some(0));
    assert!(!m.targeted);
    let m = idx.lookup(RunKey::new("F1", date("20260810"), Some(hms(8, 20, 0))));
    assert_eq!(m.update, None);
    // An update without a start time reaches no sibling and says so.
    let m = idx.lookup(RunKey::new("F2", date("20260810"), Some(hms(8, 0, 0))));
    assert_eq!(m.update, None);
    assert!(m.ambiguous);
    // A start time never narrows a fixed trip.
    let m = idx.lookup(RunKey::new("F1", date("20260810"), None));
    assert_eq!(m.update, Some(0));
}

#[test]
fn indexing_an_unreadable_start_date_is_reported_and_read_as_none() {
    let mut diagnostics = Vec::new();
    let idx = index(
        vec![
            run_update("T1", Some("2026-08-10"), Some("9:99"), Some(60)),
            TripUpdate {
                trip_id: None,
                ..run_update("X", None, None, None)
            },
        ],
        &mut diagnostics,
    );
    assert_eq!(idx.entries.len(), 1);
    assert_eq!(diagnostics.len(), 2);
    let m = idx.lookup(RunKey::new("T1", date("20260811"), None));
    assert_eq!(m.update, Some(0));
    assert!(!m.targeted);
}

fn station(id: &str, name: &str, code: &str) -> Station {
    Station {
        gtfs_id: id.to_string(),
        name: name.to_string(),
        codes: vec![code.to_string()],
        platform_stop_ids: Vec::new(),
        lines: vec![0],
    }
}

fn network() -> RailNetwork {
    RailNetwork {
        stations: vec![
            station("S_NS1", "Jurong East", "NS1"),
            station("S_NS2", "Bukit Batok", "NS2"),
            station("S_NS3", "Bukit Gombak", "NS3"),
        ],
        lines: vec![Line {
            route_id: "NS".to_string(),
            name: "NSL".to_string(),
            long_name: Some("North-South Line".to_string()),
            color: Some("D42E12".to_string()),
            text_color: Some("FFFFFF".to_string()),
        }],
        patterns: Vec::new(),
    }
}

fn call(station: usize, arrival: GtfsTime, departure: GtfsTime) -> ScheduledCall {
    ScheduledCall {
        station,
        arrival: Some(arrival),
        departure: Some(departure),
        pickup_allowed: true,
        drop_off_allowed: true,
        stop_headsign: None,
        platform_stop_id: format!("P{station}"),
        platform_code: None,
        time_quality: TimeQuality::Exact,
    }
}

fn trip() -> TripInstance {
    TripInstance {
        instance_id: "20260810:NS_T1".to_string(),
        source_trip_id: "NS_T1".to_string(),
        service_date: date("20260810"),
        line: 0,
        pattern: 7,
        direction: Some(0),
        headsign: None,
        short_name: None,
        exactness: TimeExactness::Exact,
        calls: vec![
            call(0, hms(8, 0, 0), hms(8, 0, 30)),
            call(1, hms(8, 5, 0), hms(8, 5, 30)),
            call(2, hms(8, 10, 0), hms(8, 10, 0)),
        ],
    }
}

fn no_match() -> UpdateMatch {
    UpdateMatch {
        update: None,
        targeted: false,
        ambiguous: false,
    }
}

fn matched() -> UpdateMatch {
    UpdateMatch {
        update: Some(0),
        targeted: true,
        ambiguous: false,
    }
}

#[test]
fn placing_a_run_between_two_stations_sits_on_an_edge() {
    let mut diagnostics = Vec::new();
    let t = place(&network(), &trip(), hms(8, 2, 0), false, no_match(), None, &mut diagnostics)
        .unwrap();
    assert_eq!(
        t.location,
        TrainLocation::OnEdge {
            pattern: 7,
            index: 0,
            from: 0,
            to: 1
        }
    );
    assert_eq!(t.travelled_secs, 90);
    assert_eq!(t.span_secs, 270);
    assert_eq!(t.edge_secs, Some(270));
    assert_eq!(t.quality, PositionQuality::ScheduleOnly);
    assert_eq!(t.destination, "Bukit Gombak");
    assert_eq!(t.instance_id, "20260810:NS_T1");
    assert!(diagnostics.is_empty());
}

#[test]
fn placing_a_run_standing_at_a_station_sits_on_the_station() {
    let mut diagnostics = Vec::new();
    let t = place(&network(), &trip(), hms(8, 5, 10), false, no_match(), None, &mut diagnostics)
        .unwrap();
    assert_eq!(
        t.location,
        TrainLocation::AtStation {
            station: 1,
            pattern: 7,
            index: 1
        }
    );
    assert_eq!(t.travelled_secs, 0);
    assert_eq!(t.edge_secs, None);
}

#[test]
fn a_run_outside_its_span_is_not_on_the_map() {
    let mut diagnostics = Vec::new();
    assert!(place(&network(), &trip(), hms(7, 0, 0), false, no_match(), None, &mut diagnostics)
        .is_none());
    assert!(place(&network(), &trip(), hms(8, 10, 1), false, no_match(), None, &mut diagnostics)
        .is_none());
    assert!(diagnostics.is_empty());
}

#[test]
fn placing_a_trip_update_shifts_the_position() {
    let mut diagnostics = Vec::new();
    let update = run_update("NS_T1", Some("20260810"), None, Some(120));
    let t = place(
        &network(),
        &trip(),
        hms(8, 2, 0),
        true,
        matched(),
        Some(&update),
        &mut diagnostics,
    )
    .unwrap();
    assert_eq!(
        t.location,
        TrainLocation::AtStation {
            station: 0,
            pattern: 7,
            index: 0
        }
    );
    assert_eq!(t.quality, PositionQuality::AtStation);
    assert_eq!(t.delay_secs, Some(120));
}

#[test]
fn a_stale_layer_leaves_the_position_to_the_schedule() {
    let mut diagnostics = Vec::new();
    let update = run_update("NS_T1", Some("20260810"), None, Some(120));
    let t = place(
        &network(),
        &trip(),
        hms(8, 2, 0),
        false,
        matched(),
        Some(&update),
        &mut diagnostics,
    )
    .unwrap();
    assert_eq!(t.quality, PositionQuality::ScheduleOnly);
    assert_eq!(t.delay_secs, None);
}

#[test]
fn placing_a_per_stop_event_wins_over_the_trip_delay() {
    let mut diagnostics = Vec::new();
    let mut update = run_update("NS_T1", Some("20260810"), None, Some(600));
    update.stop_updates.push(StopTimeUpdate {
        stop_id: Some("P0".to_string()),
        arrival: None,
        departure: Some(StopTimeEvent {
            time: None,
            delay_secs: Some(0),
        }),
        skipped: false,
    });
    let t = place(
        &network(),
        &trip(),
        hms(8, 2, 0),
        true,
        matched(),
        Some(&update),
        &mut diagnostics,
    )
    .unwrap();
    // Departed on time from the first station, due ten minutes late at
    // the second.
    assert_eq!(
        t.location,
        TrainLocation::OnEdge {
            pattern: 7,
            index: 0,
            from: 0,
            to: 1
        }
    );
    assert_eq!(t.span_secs, 870);
    assert_eq!(t.quality, PositionQuality::InterpolatedRealtime);
    assert_eq!(t.delay_secs, Some(0));
}

#[test]
fn placing_a_canceled_run_is_not_drawn() {
    let mut diagnostics = Vec::new();
    let mut update = run_update("NS_T1", Some("20260810"), None, None);
    update.canceled = true;
    assert!(place(
        &network(),
        &trip(),
        hms(8, 2, 0),
        false,
        matched(),
        Some(&update),
        &mut diagnostics,
    )
    .is_none());
    assert_eq!(codes(&diagnostics), vec!["train-canceled"]);
}

#[test]
fn an_untargeted_cancellation_from_a_stale_layer_is_not_attributed() {
    let mut diagnostics = Vec::new();
    let mut update = run_update("NS_T1", None, None, None);
    update.canceled = true;
    let placed = place(
        &network(),
        &trip(),
        hms(8, 2, 0),
        false,
        UpdateMatch {
            update: Some(0),
            targeted: false,
            ambiguous: false,
        },
        Some(&update),
        &mut diagnostics,
    );
    assert!(placed.is_some());
    assert_eq!(codes(&diagnostics), vec!["train-cancellation-not-attributed"]);
}

#[test]
fn placing_a_run_bracketed_by_missing_times_is_not_placed() {
    let mut diagnostics = Vec::new();
    let mut t = trip();
    t.calls[1].arrival = None;
    t.calls[1].departure = None;
    t.calls[1].time_quality = TimeQuality::Missing;
    assert!(place(&network(), &t, hms(8, 5, 0), false, no_match(), None, &mut diagnostics)
        .is_none());
    assert_eq!(codes(&diagnostics), vec!["train-between-missing-calls"]);
}

#[test]
fn a_headway_run_never_becomes_a_train() {
    let mut diagnostics = Vec::new();
    let mut t = trip();
    t.exactness = TimeExactness::Approximate;
    assert!(place(&network(), &t, hms(8, 2, 0), false, no_match(), None, &mut diagnostics)
        .is_none());
    assert_eq!(codes(&diagnostics), vec!["train-approximate-times"]);
}
