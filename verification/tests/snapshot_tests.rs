//! The live map view model over a miniature network.
//!
//! The network and its schedule are built by hand: `NS_T1` runs
//! between two stations, `EW_T1` stands at one, `BP_T1` is a non-exact
//! headway block, `TE_F1` an exact one, `TE_M1` has stop times that the
//! feed leaves empty, `NS_T5` continues past midnight, and `PW_L1`
//! follows a loop that visits Punggol twice. The schedule of a day is
//! what a query of that day returns.

use mrtracker::common::{Line, Station};
use mrtracker::config::MissingTimePolicy;
use mrtracker::map::{FreshnessState, MapTrain, NetworkSnapshot, PositionQuality, TrainLocation};
use mrtracker::realtime::{RailRtFeed, StopTimeEvent, StopTimeUpdate, TripUpdate};
use mrtracker::schedule::{
    FrequencyBand, RailNetwork, ScheduledCall, StopPattern, TimeExactness, TimeQuality,
    TripInstance, TripQueryResult,
};
use mrtracker::snapshot::NetworkSnapshotBuilder;
use mrtracker::status::{
    AffectedSegment, AlertMessage, LineState, ServiceStatus, TrainServiceAlerts,
};
use mrtracker::time::{parse_date, GtfsTime, ServiceDate};

/// The POSIX time that stands for "now" in the tests.
const NOW_UNIX: u64 = 1_746_400_000;

fn hms(h: u32, m: u32, s: u32) -> GtfsTime {
    GtfsTime::from_hms(h, m, s)
}

fn station(id: &str, name: &str, codes: &[&str], platforms: &[&str], lines: &[usize]) -> Station {
    Station {
        gtfs_id: id.to_string(),
        name: name.to_string(),
        codes: codes.iter().map(|c| c.to_string()).collect(),
        platform_stop_ids: platforms.iter().map(|p| p.to_string()).collect(),
        lines: lines.to_vec(),
    }
}

fn line(route_id: &str, name: &str, long_name: &str, color: &str) -> Line {
    Line {
        route_id: route_id.to_string(),
        name: name.to_string(),
        long_name: Some(long_name.to_string()),
        color: Some(color.to_string()),
        text_color: None,
    }
}

fn pattern(line: usize, stations: &[usize]) -> StopPattern {
    StopPattern {
        line,
        direction: Some(0),
        stations: stations.to_vec(),
    }
}

/// The miniature network.
fn network() -> RailNetwork {
    RailNetwork {
        stations: vec![
            station("JUR", "Jurong East", &["NS1", "EW24"], &["JUR_NS", "JUR_EW"], &[0, 1]),
            station("CCK", "Choa Chu Kang", &["NS4"], &["CCK_NS"], &[0]),
            station("MRB", "Marina Bay", &["NS27"], &["MRB_NS"], &[0]),
            station("RFP", "Raffles Place", &["EW14"], &["RFP_EW"], &[1]),
            station("WDN", "Woodlands North", &["TE1"], &["WDN_TE"], &[2]),
            station("WDL", "Woodlands", &["TE2"], &["WDL_TE"], &[2]),
            station("WDS", "Woodlands South", &["TE3"], &["WDS_TE"], &[2]),
            station("SPL", "Springleaf", &["TE4"], &["SPL_TE"], &[2]),
            station("PGL", "Punggol", &["PTC"], &["PGL_PW"], &[3]),
            station("SKE", "Sam Kee", &["PW1"], &["SKE_PW"], &[3]),
            station("TLE", "Teck Lee", &["PW3"], &["TLE_PW"], &[3]),
            station("BKP", "Bukit Panjang", &["BP6"], &["BKP_BP"], &[4]),
            station("SVW", "South View", &["BP2"], &["SVW_BP"], &[4]),
        ],
        lines: vec![
            line("NS", "NSL", "North South Line", "D42E12"),
            line("EW", "EWL", "East West Line", "009645"),
            line("TE", "TEL", "Thomson-East Coast Line", "9D5B25"),
            line("PW", "PGLRT", "Punggol LRT West", "748477"),
            line("BP", "BPLRT", "Bukit Panjang LRT", "748477"),
        ],
        patterns: vec![
            pattern(0, &[0, 1, 2]),
            pattern(1, &[0, 3]),
            pattern(2, &[4, 5, 6]),
            pattern(2, &[4, 5, 6, 7]),
            pattern(3, &[8, 9, 10, 8]),
            pattern(4, &[11, 12]),
        ],
    }
}

fn call(
    station: usize,
    platform: &str,
    times: Option<(GtfsTime, GtfsTime)>,
    quality: TimeQuality,
) -> ScheduledCall {
    ScheduledCall {
        station,
        arrival: times.map(|t| t.0),
        departure: times.map(|t| t.1),
        pickup_allowed: true,
        drop_off_allowed: true,
        stop_headsign: None,
        platform_stop_id: platform.to_string(),
        platform_code: None,
        time_quality: quality,
    }
}

fn exact(station: usize, platform: &str, arrival: GtfsTime, departure: GtfsTime) -> ScheduledCall {
    call(station, platform, Some((arrival, departure)), TimeQuality::Exact)
}

fn run(
    day: &str,
    trip_id: &str,
    start: Option<&str>,
    line: usize,
    pattern: usize,
    headsign: Option<&str>,
    calls: Vec<ScheduledCall>,
) -> TripInstance {
    let instance_id = match start {
        Some(s) => format!("{day}:{trip_id}@{s}"),
        None => format!("{day}:{trip_id}"),
    };
    TripInstance {
        instance_id,
        source_trip_id: trip_id.to_string(),
        service_date: parse_date(day).unwrap(),
        line,
        pattern,
        direction: Some(0),
        headsign: headsign.map(str::to_string),
        short_name: None,
        exactness: TimeExactness::Exact,
        calls,
    }
}

fn secs(t: GtfsTime) -> u32 {
    t.seconds()
}

fn plus(t: GtfsTime, s: u32) -> GtfsTime {
    GtfsTime::from_seconds(secs(t) + s)
}

/// What a query of one service date returns: every weekday run of the
/// network, and the non-exact headway block as a band. A weekend day
/// carries nothing.
fn day(text: &str, policy: MissingTimePolicy) -> TripQueryResult {
    let date = parse_date(text).unwrap();
    let weekday = date.days().rem_euclid(7);
    // 1970-01-01 was a Thursday: 2 and 3 are the Saturday and Sunday.
    if weekday == 2 || weekday == 3 {
        return TripQueryResult {
            trips: Vec::new(),
            frequency_bands: Vec::new(),
            diagnostics: Vec::new(),
        };
    }
    let mut trips = vec![
        run(
            text,
            "NS_T1",
            None,
            0,
            0,
            Some("Marina Bay"),
            vec![
                exact(0, "JUR_NS", hms(6, 0, 0), hms(6, 0, 30)),
                exact(1, "CCK_NS", hms(6, 10, 0), hms(6, 10, 30)),
                exact(2, "MRB_NS", hms(6, 30, 0), hms(6, 30, 0)),
            ],
        ),
        run(
            text,
            "EW_T1",
            None,
            1,
            1,
            None,
            vec![
                exact(0, "JUR_EW", hms(6, 5, 0), hms(6, 5, 30)),
                exact(3, "RFP_EW", hms(6, 20, 0), hms(6, 20, 0)),
            ],
        ),
        run(
            text,
            "TE_T3",
            None,
            2,
            2,
            None,
            vec![
                exact(4, "WDN_TE", hms(6, 0, 0), hms(6, 0, 0)),
                exact(5, "WDL_TE", hms(6, 4, 0), hms(6, 4, 30)),
                exact(6, "WDS_TE", hms(6, 8, 0), hms(6, 8, 0)),
            ],
        ),
        run(
            text,
            "PW_L1",
            None,
            3,
            4,
            Some("Punggol"),
            vec![
                exact(8, "PGL_PW", hms(6, 0, 0), hms(6, 0, 0)),
                exact(9, "SKE_PW", hms(6, 2, 0), hms(6, 2, 30)),
                exact(10, "TLE_PW", hms(6, 5, 0), hms(6, 5, 30)),
                exact(8, "PGL_PW", hms(6, 10, 0), hms(6, 10, 0)),
            ],
        ),
        run(
            text,
            "NS_T5",
            None,
            0,
            0,
            Some("Marina Bay"),
            vec![
                exact(0, "JUR_NS", hms(23, 50, 0), hms(23, 50, 30)),
                exact(1, "CCK_NS", hms(24, 5, 0), hms(24, 5, 30)),
                exact(2, "MRB_NS", hms(24, 25, 0), hms(24, 25, 0)),
            ],
        ),
    ];
    let middle = |station: usize, platform: &str, t: GtfsTime| match policy {
        MissingTimePolicy::Keep => call(station, platform, None, TimeQuality::Missing),
        MissingTimePolicy::InterpolateBounded => {
            call(station, platform, Some((t, t)), TimeQuality::Interpolated)
        }
    };
    trips.push(run(
        text,
        "TE_M1",
        None,
        2,
        3,
        Some("Springleaf"),
        vec![
            exact(4, "WDN_TE", hms(7, 0, 0), hms(7, 0, 0)),
            middle(5, "WDL_TE", hms(7, 4, 0)),
            middle(6, "WDS_TE", hms(7, 8, 0)),
            exact(7, "SPL_TE", hms(7, 12, 0), hms(7, 12, 0)),
        ],
    ));
    for start in [hms(5, 0, 0), hms(5, 10, 0), hms(5, 20, 0)] {
        trips.push(run(
            text,
            "TE_F1",
            Some(&start.to_text()),
            2,
            2,
            Some("Woodlands South"),
            vec![
                exact(4, "WDN_TE", start, start),
                exact(5, "WDL_TE", plus(start, 240), plus(start, 270)),
                exact(6, "WDS_TE", plus(start, 480), plus(start, 480)),
            ],
        ));
    }
    TripQueryResult {
        trips,
        frequency_bands: vec![FrequencyBand {
            band_id: format!("{text}:BP_T1"),
            source_trip_id: "BP_T1".to_string(),
            line: 4,
            pattern: 5,
            direction: Some(0),
            headsign: Some("South View".to_string()),
            start: hms(5, 30, 0),
            end: hms(6, 0, 0),
            headway_secs: 600,
            template: vec![
                exact(11, "BKP_BP", hms(5, 30, 0), hms(5, 30, 0)),
                exact(12, "SVW_BP", hms(5, 34, 0), hms(5, 34, 0)),
            ],
        }],
        diagnostics: Vec::new(),
    }
}

/// Build the snapshot of a date at a clock reading from the queries of
/// the date and of the day before.
fn build_at(
    builder: &NetworkSnapshotBuilder,
    date_text: &str,
    clock: GtfsTime,
) -> NetworkSnapshot {
    let date = parse_date(date_text).unwrap();
    let before = date.previous_day().to_text();
    let policy = builder.missing_time_policy;
    builder.build(date, clock, &day(date_text, policy), &day(&before, policy))
}

fn date_text() -> &'static str {
    "20250505"
}

fn date() -> ServiceDate {
    parse_date(date_text()).unwrap()
}

fn update(trip_id: &str, delay_secs: Option<i32>, stops: Vec<StopTimeUpdate>) -> TripUpdate {
    TripUpdate {
        trip_id: Some(trip_id.to_string()),
        start_date: None,
        start_time: None,
        canceled: false,
        delay_secs,
        stop_updates: stops,
    }
}

fn run_update(
    trip_id: &str,
    start_date: Option<&str>,
    start_time: Option<&str>,
    delay_secs: Option<i32>,
) -> TripUpdate {
    TripUpdate {
        start_date: start_date.map(str::to_string),
        start_time: start_time.map(str::to_string),
        ..update(trip_id, delay_secs, Vec::new())
    }
}

fn cancellation(trip_id: &str, start_date: Option<&str>, start_time: Option<&str>) -> TripUpdate {
    TripUpdate {
        canceled: true,
        ..run_update(trip_id, start_date, start_time, None)
    }
}

fn stop_delay(stop_id: &str, delay_secs: i32) -> StopTimeUpdate {
    StopTimeUpdate {
        stop_id: Some(stop_id.to_string()),
        arrival: Some(StopTimeEvent {
            time: None,
            delay_secs: Some(delay_secs),
        }),
        departure: Some(StopTimeEvent {
            time: None,
            delay_secs: Some(delay_secs),
        }),
        skipped: false,
    }
}

fn feed(timestamp: u64, updates: Vec<TripUpdate>) -> RailRtFeed {
    RailRtFeed {
        feed_timestamp: Some(timestamp),
        trip_updates: updates,
    }
}

fn train<'a>(snapshot: &'a NetworkSnapshot, trip_id: &str) -> &'a MapTrain {
    let found: Vec<&MapTrain> = snapshot
        .trains
        .iter()
        .filter(|t| t.source_trip_id == trip_id)
        .collect();
    assert_eq!(found.len(), 1, "expected one train for {trip_id}");
    found[0]
}

fn has_train(snapshot: &NetworkSnapshot, trip_id: &str) -> bool {
    snapshot.trains.iter().any(|t| t.source_trip_id == trip_id)
}

fn station_name(snapshot: &NetworkSnapshot, station: usize) -> &str {
    snapshot
        .stations
        .iter()
        .find(|s| s.station == station)
        .map(|s| s.name.as_str())
        .expect("the snapshot names every station")
}

fn has_diagnostic(snapshot: &NetworkSnapshot, code: &str) -> bool {
    snapshot.diagnostics.iter().any(|d| d.code == code)
}

fn has_diagnostic_about(snapshot: &NetworkSnapshot, code: &str, subject: &str) -> bool {
    snapshot
        .diagnostics
        .iter()
        .any(|d| d.code == code && d.subject.as_deref() == Some(subject))
}

/// The share of the edge a train has travelled, as `travelled / span`.
fn progress(t: &MapTrain) -> (i64, i64) {
    (t.travelled_secs, t.span_secs)
}

fn disrupted_alerts() -> TrainServiceAlerts {
    TrainServiceAlerts {
        status: ServiceStatus::Disrupted,
        affected_segments: vec![AffectedSegment {
            line: "NSL".to_string(),
            direction: "Both".to_string(),
            stations: "NS1,NS4".to_string(),
            free_public_bus: "NS1".to_string(),
            free_mrt_shuttle: String::new(),
            mrt_shuttle_direction: String::new(),
        }],
        messages: vec![AlertMessage {
            content: "NSL: no service.".to_string(),
            created_date: String::new(),
        }],
    }
}

// ----------------------------------------------------------------------
// The static layers
// ----------------------------------------------------------------------

#[test]
fn the_snapshot_carries_the_whole_network() {
    let network = network();
    let snapshot = build_at(&NetworkSnapshotBuilder::new(&network), date_text(), hms(6, 5, 0));

    assert!(snapshot.lines.iter().all(|l| l.route_id != "970"));
    assert!(snapshot.lines.iter().any(|l| l.name == "NSL"));
    assert_eq!(snapshot.lines.len(), network.lines.len());
    assert_eq!(snapshot.stations.len(), network.stations.len());

    for edge in &snapshot.edges {
        let pattern = &network.patterns[edge.pattern];
        assert_eq!(pattern.stations[edge.index], edge.from);
        assert_eq!(pattern.stations[edge.index + 1], edge.to);
        assert_eq!(pattern.line, edge.line);
    }

    let keys: Vec<(usize, usize)> = snapshot.edges.iter().map(|e| (e.pattern, e.index)).collect();
    let mut sorted = keys.clone();
    sorted.sort_unstable();
    assert_eq!(keys, sorted);
}

#[test]
fn the_alerts_set_the_state_of_a_line() {
    let network = network();
    let alerts = disrupted_alerts();
    let snapshot = build_at(
        &NetworkSnapshotBuilder::new(&network).with_alerts(&alerts),
        date_text(),
        hms(6, 5, 0),
    );

    let nsl = snapshot.lines.iter().find(|l| l.name == "NSL").unwrap();
    match &nsl.state {
        LineState::Disrupted { stations, .. } => {
            assert_eq!(stations, &vec!["NS1".to_string(), "NS4".to_string()]);
        }
        LineState::Normal => panic!("the NSL must be disrupted"),
    }
    let ewl = snapshot.lines.iter().find(|l| l.name == "EWL").unwrap();
    assert!(matches!(ewl.state, LineState::Normal));
}

#[test]
fn the_alert_messages_reach_the_snapshot_as_network_notices() {
    let network = network();
    let alerts = disrupted_alerts();
    let snapshot = build_at(
        &NetworkSnapshotBuilder::new(&network).with_alerts(&alerts),
        date_text(),
        hms(6, 5, 0),
    );
    assert_eq!(snapshot.notices, vec!["NSL: no service.".to_string()]);

    let quiet = build_at(&NetworkSnapshotBuilder::new(&network), date_text(), hms(6, 5, 0));
    assert!(quiet.notices.is_empty());
}

// ----------------------------------------------------------------------
// Positions
// ----------------------------------------------------------------------

#[test]
fn a_run_between_two_stations_sits_on_an_edge() {
    let network = network();
    let snapshot = build_at(&NetworkSnapshotBuilder::new(&network), date_text(), hms(6, 5, 0));

    let run = train(&snapshot, "NS_T1");
    match run.location {
        TrainLocation::OnEdge { index, from, to, .. } => {
            assert_eq!(index, 0);
            assert_eq!(station_name(&snapshot, from), "Jurong East");
            assert_eq!(station_name(&snapshot, to), "Choa Chu Kang");
        }
        TrainLocation::AtStation { .. } => panic!("NS_T1 is between two stations"),
    }
    assert_eq!(progress(run), (270, 570));
    assert_eq!(run.quality, PositionQuality::ScheduleOnly);
    assert_eq!(run.delay_secs, None);
    assert_eq!(run.destination, "Marina Bay");
    assert!(!run.schedule_interpolated);
}

#[test]
fn a_run_standing_at_a_station_sits_on_the_station() {
    let network = network();
    let realtime = feed(NOW_UNIX, vec![update("EW_T1", Some(0), vec![])]);
    let snapshot = build_at(
        &NetworkSnapshotBuilder::new(&network).with_realtime(&realtime, NOW_UNIX),
        date_text(),
        hms(6, 5, 0),
    );

    let run = train(&snapshot, "EW_T1");
    match run.location {
        TrainLocation::AtStation { station, index, .. } => {
            assert_eq!(station_name(&snapshot, station), "Jurong East");
            assert_eq!(index, 0);
        }
        TrainLocation::OnEdge { .. } => panic!("EW_T1 stands at a station"),
    }
    assert_eq!(run.travelled_secs, 0);
    assert_eq!(run.quality, PositionQuality::AtStation);
}

#[test]
fn a_trip_update_shifts_the_position() {
    let network = network();
    let realtime = feed(NOW_UNIX, vec![update("NS_T1", Some(120), vec![])]);
    let snapshot = build_at(
        &NetworkSnapshotBuilder::new(&network).with_realtime(&realtime, NOW_UNIX),
        date_text(),
        hms(6, 5, 0),
    );

    let run = train(&snapshot, "NS_T1");
    assert_eq!(run.quality, PositionQuality::InterpolatedRealtime);
    assert_eq!(run.delay_secs, Some(120));
    assert_eq!(progress(run), (150, 570));
}

#[test]
fn a_per_stop_event_wins_over_the_trip_delay() {
    let network = network();
    let realtime = feed(
        NOW_UNIX,
        vec![update("NS_T1", Some(120), vec![stop_delay("CCK_NS", 300)])],
    );
    let snapshot = build_at(
        &NetworkSnapshotBuilder::new(&network).with_realtime(&realtime, NOW_UNIX),
        date_text(),
        hms(6, 5, 0),
    );

    let run = train(&snapshot, "NS_T1");
    assert_eq!(progress(run), (150, 750));
    assert_eq!(run.delay_secs, Some(120));
}

// ----------------------------------------------------------------------
// Which update belongs to which run
// ----------------------------------------------------------------------

fn live_snapshot(network: &RailNetwork, updates: Vec<TripUpdate>, date: &str, clock: GtfsTime) -> NetworkSnapshot {
    let realtime = feed(NOW_UNIX, updates);
    build_at(
        &NetworkSnapshotBuilder::new(network).with_realtime(&realtime, NOW_UNIX),
        date,
        clock,
    )
}

#[test]
fn an_update_applies_only_to_the_service_date_it_names() {
    let network = network();
    let build = |u: TripUpdate| live_snapshot(&network, vec![u], date_text(), hms(6, 5, 0));

    let today = build(run_update("NS_T1", Some("20250505"), None, Some(120)));
    assert_eq!(train(&today, "NS_T1").delay_secs, Some(120));
    assert_eq!(progress(train(&today, "NS_T1")), (150, 570));

    let yesterday = build(run_update("NS_T1", Some("20250504"), None, Some(120)));
    let run = train(&yesterday, "NS_T1");
    assert_eq!(run.delay_secs, None);
    assert_eq!(run.quality, PositionQuality::ScheduleOnly);
    assert_eq!(progress(run), (270, 570));

    let undated = build(run_update("NS_T1", None, None, Some(120)));
    assert_eq!(train(&undated, "NS_T1").delay_secs, Some(120));
}

#[test]
fn an_update_names_its_day_across_midnight() {
    let network = network();
    let build = |u: TripUpdate| live_snapshot(&network, vec![u], "20250506", hms(0, 10, 0));

    let monday = build(run_update("NS_T5", Some("20250505"), None, Some(120)));
    let run = train(&monday, "NS_T5");
    assert_eq!(run.instance_id, "20250505:NS_T5");
    assert_eq!(run.delay_secs, Some(120));
    assert_eq!(progress(run), (150, 1170));

    let tuesday = build(run_update("NS_T5", Some("20250506"), None, Some(120)));
    let run = train(&tuesday, "NS_T5");
    assert_eq!(run.instance_id, "20250505:NS_T5");
    assert_eq!(run.delay_secs, None);
    assert_eq!(run.quality, PositionQuality::ScheduleOnly);
    assert_eq!(progress(run), (270, 1170));
}

#[test]
fn frequency_siblings_match_by_their_start_time() {
    let network = network();
    let build = |u: TripUpdate| live_snapshot(&network, vec![u], date_text(), hms(5, 15, 0));

    let mine = build(run_update("TE_F1", None, Some("05:10:00"), Some(60)));
    let run = train(&mine, "TE_F1");
    assert_eq!(run.instance_id, "20250505:TE_F1@05:10:00");
    assert_eq!(run.delay_secs, Some(60));
    match run.location {
        TrainLocation::AtStation { station, .. } => {
            assert_eq!(station_name(&mine, station), "Woodlands");
        }
        TrainLocation::OnEdge { .. } => panic!("the delayed run stands at Woodlands at 05:15"),
    }

    let sibling = build(run_update("TE_F1", None, Some("05:20:00"), Some(60)));
    let run = train(&sibling, "TE_F1");
    assert_eq!(run.instance_id, "20250505:TE_F1@05:10:00");
    assert_eq!(run.delay_secs, None);
    assert_eq!(run.quality, PositionQuality::ScheduleOnly);
    match run.location {
        TrainLocation::OnEdge { from, to, .. } => {
            assert_eq!(station_name(&sibling, from), "Woodlands");
            assert_eq!(station_name(&sibling, to), "Woodlands South");
        }
        TrainLocation::AtStation { .. } => panic!("the untouched run is between two stations"),
    }
    assert!(!has_diagnostic(&sibling, "realtime-update-ambiguous"));
}

#[test]
fn a_frequency_update_without_a_start_time_moves_no_sibling() {
    let network = network();
    let snapshot = live_snapshot(
        &network,
        vec![run_update("TE_F1", None, None, Some(60))],
        date_text(),
        hms(5, 15, 0),
    );

    let run = train(&snapshot, "TE_F1");
    assert_eq!(run.instance_id, "20250505:TE_F1@05:10:00");
    assert_eq!(run.delay_secs, None);
    assert_eq!(run.quality, PositionQuality::ScheduleOnly);
    assert!(has_diagnostic_about(
        &snapshot,
        "realtime-update-ambiguous",
        "20250505:TE_F1@05:10:00"
    ));
}

#[test]
fn a_start_time_never_filters_a_fixed_trip() {
    let network = network();
    let snapshot = live_snapshot(
        &network,
        vec![run_update("NS_T1", Some("20250505"), Some("23:59:00"), Some(120))],
        date_text(),
        hms(6, 5, 0),
    );

    assert_eq!(train(&snapshot, "NS_T1").delay_secs, Some(120));
    assert!(!has_diagnostic(&snapshot, "realtime-update-ambiguous"));
}

#[test]
fn an_unreadable_start_date_is_reported_and_read_as_none() {
    let network = network();
    let snapshot = live_snapshot(
        &network,
        vec![run_update("NS_T1", Some("05/05/2025"), None, Some(120))],
        date_text(),
        hms(6, 5, 0),
    );

    assert!(has_diagnostic_about(
        &snapshot,
        "realtime-unreadable-start-date",
        "NS_T1"
    ));
    assert_eq!(train(&snapshot, "NS_T1").delay_secs, Some(120));
}

#[test]
fn a_predicted_time_without_a_delay_leaves_a_note() {
    let network = network();
    let snapshot = live_snapshot(
        &network,
        vec![update(
            "NS_T1",
            None,
            vec![StopTimeUpdate {
                stop_id: Some("CCK_NS".to_string()),
                arrival: Some(StopTimeEvent {
                    time: Some(1_746_400_500),
                    delay_secs: None,
                }),
                departure: None,
                skipped: false,
            }],
        )],
        date_text(),
        hms(6, 5, 0),
    );

    assert!(has_diagnostic_about(
        &snapshot,
        "stop-update-without-delay",
        "NS_T1"
    ));
    let run = train(&snapshot, "NS_T1");
    assert_eq!(progress(run), (270, 570));
    assert_eq!(run.delay_secs, None);
}

#[test]
fn an_empty_trip_update_leaves_the_run_schedule_only() {
    let network = network();
    let snapshot = live_snapshot(&network, vec![update("EW_T1", None, vec![])], date_text(), hms(6, 5, 0));

    let run = train(&snapshot, "EW_T1");
    assert!(matches!(run.location, TrainLocation::AtStation { .. }));
    assert_eq!(run.quality, PositionQuality::ScheduleOnly);
    assert_eq!(run.delay_secs, None);

    let snapshot = live_snapshot(
        &network,
        vec![update("EW_T1", None, vec![stop_delay("RFP_EW", 60)])],
        date_text(),
        hms(6, 5, 0),
    );
    assert_eq!(train(&snapshot, "EW_T1").quality, PositionQuality::ScheduleOnly);
}

#[test]
fn a_skipped_call_is_passed_and_never_stood_at() {
    let network = network();
    let skip = || {
        vec![update(
            "NS_T1",
            None,
            vec![StopTimeUpdate {
                stop_id: Some("CCK_NS".to_string()),
                arrival: None,
                departure: None,
                skipped: true,
            }],
        )]
    };
    let build = |clock: GtfsTime| live_snapshot(&network, skip(), date_text(), clock);

    for clock in [hms(6, 10, 0), hms(6, 10, 15)] {
        let snapshot = build(clock);
        let run = train(&snapshot, "NS_T1");
        match run.location {
            TrainLocation::OnEdge { index, from, to, .. } => {
                assert_eq!(index, 1);
                assert_eq!(station_name(&snapshot, from), "Choa Chu Kang");
                assert_eq!(station_name(&snapshot, to), "Marina Bay");
            }
            TrainLocation::AtStation { .. } => {
                panic!("the run skips Choa Chu Kang, so it never stands there")
            }
        }
        assert_eq!(run.edge_secs, Some(1200));
    }
    assert_eq!(progress(train(&build(hms(6, 10, 15)), "NS_T1")), (15, 1200));

    assert!(has_diagnostic_about(
        &build(hms(6, 10, 15)),
        "train-call-skipped",
        "20250505:NS_T1"
    ));

    let snapshot = build(hms(6, 5, 0));
    match train(&snapshot, "NS_T1").location {
        TrainLocation::OnEdge { index, to, .. } => {
            assert_eq!(index, 0);
            assert_eq!(station_name(&snapshot, to), "Choa Chu Kang");
        }
        TrainLocation::AtStation { .. } => panic!("NS_T1 is between two stations at 06:05"),
    }
}

#[test]
fn a_canceled_run_is_not_drawn() {
    let network = network();
    let snapshot = live_snapshot(
        &network,
        vec![cancellation("NS_T1", None, None)],
        date_text(),
        hms(6, 5, 0),
    );

    assert!(!has_train(&snapshot, "NS_T1"));
    assert!(has_diagnostic_about(
        &snapshot,
        "train-canceled",
        "20250505:NS_T1"
    ));
}

#[test]
fn a_cancellation_survives_a_stale_feed() {
    let network = network();
    let build = |u: TripUpdate| {
        let realtime = feed(NOW_UNIX - 3600, vec![u]);
        build_at(
            &NetworkSnapshotBuilder::new(&network).with_realtime(&realtime, NOW_UNIX),
            date_text(),
            hms(6, 5, 0),
        )
    };

    let dated = build(cancellation("NS_T1", Some("20250505"), None));
    assert_eq!(dated.freshness.state, FreshnessState::Stale);
    assert!(!has_train(&dated, "NS_T1"));
    assert!(has_diagnostic_about(&dated, "train-canceled", "20250505:NS_T1"));

    let undated = build(cancellation("NS_T1", None, None));
    assert_eq!(undated.freshness.state, FreshnessState::Stale);
    assert!(has_train(&undated, "NS_T1"));
    assert_eq!(train(&undated, "NS_T1").quality, PositionQuality::ScheduleOnly);
    assert!(has_diagnostic_about(
        &undated,
        "train-cancellation-not-attributed",
        "20250505:NS_T1"
    ));
}

#[test]
fn yesterdays_cancellation_does_not_suppress_todays_run() {
    let network = network();
    let snapshot = live_snapshot(
        &network,
        vec![cancellation("NS_T1", Some("20250504"), None)],
        date_text(),
        hms(6, 5, 0),
    );

    assert_eq!(snapshot.freshness.state, FreshnessState::Live);
    assert!(has_train(&snapshot, "NS_T1"));
    assert!(!has_diagnostic(&snapshot, "train-canceled"));

    let build = |start_date: &str| {
        live_snapshot(
            &network,
            vec![cancellation("NS_T5", Some(start_date), None)],
            "20250506",
            hms(0, 10, 0),
        )
    };
    assert!(!has_train(&build("20250505"), "NS_T5"));
    assert!(has_train(&build("20250506"), "NS_T5"));
}

#[test]
fn a_frequency_cancellation_names_the_run_it_cancels() {
    let network = network();
    let build = |u: TripUpdate| live_snapshot(&network, vec![u], date_text(), hms(5, 15, 0));

    assert!(!has_train(
        &build(cancellation("TE_F1", Some("20250505"), Some("05:10:00"))),
        "TE_F1"
    ));
    assert!(has_train(
        &build(cancellation("TE_F1", Some("20250505"), Some("05:20:00"))),
        "TE_F1"
    ));
    let ambiguous = build(cancellation("TE_F1", Some("20250505"), None));
    assert!(has_train(&ambiguous, "TE_F1"));
    assert!(has_diagnostic_about(
        &ambiguous,
        "realtime-update-ambiguous",
        "20250505:TE_F1@05:10:00"
    ));
}

#[test]
fn a_headway_band_never_becomes_a_train() {
    let network = network();
    let snapshot = build_at(&NetworkSnapshotBuilder::new(&network), date_text(), hms(5, 15, 0));

    assert!(!has_train(&snapshot, "BP_T1"));
    let band = snapshot
        .bands
        .iter()
        .find(|b| b.source_trip_id == "BP_T1")
        .expect("the non-exact block reaches the snapshot as a band");
    assert_eq!(band.headway_secs, 600);
    assert_eq!(band.headway_minutes, 10);
    assert_eq!(band.start.to_text(), "05:30:00");
    assert_eq!(band.end.to_text(), "06:00:00");
    assert_eq!(band.destination.as_deref(), Some("South View"));

    assert!(snapshot.bands.iter().all(|b| b.source_trip_id != "TE_F1"));
    let run = train(&snapshot, "TE_F1");
    assert_eq!(run.instance_id, "20250505:TE_F1@05:10:00");
    match run.location {
        TrainLocation::OnEdge { from, to, .. } => {
            assert_eq!(station_name(&snapshot, from), "Woodlands");
            assert_eq!(station_name(&snapshot, to), "Woodlands South");
        }
        TrainLocation::AtStation { .. } => panic!("the run is between two stations"),
    }
}

#[test]
fn a_run_bracketed_by_missing_times_is_not_placed() {
    let network = network();
    let snapshot = build_at(
        &NetworkSnapshotBuilder::new(&network).missing_time_policy(MissingTimePolicy::Keep),
        date_text(),
        hms(7, 5, 0),
    );

    assert!(!has_train(&snapshot, "TE_M1"));
    assert!(has_diagnostic_about(
        &snapshot,
        "train-between-missing-calls",
        "20250505:TE_M1"
    ));
}

#[test]
fn an_interpolated_schedule_marks_the_position() {
    let network = network();
    let snapshot = live_snapshot(&network, vec![update("TE_M1", Some(0), vec![])], date_text(), hms(7, 5, 0));

    let run = train(&snapshot, "TE_M1");
    assert_eq!(run.quality, PositionQuality::InterpolatedSchedule);
    assert!(run.schedule_interpolated);
}

#[test]
fn a_stale_feed_falls_back_to_the_schedule() {
    let network = network();
    let realtime = feed(NOW_UNIX - 600, vec![update("NS_T1", Some(120), vec![])]);
    let snapshot = build_at(
        &NetworkSnapshotBuilder::new(&network)
            .with_realtime(&realtime, NOW_UNIX)
            .staleness_secs(120),
        date_text(),
        hms(6, 5, 0),
    );

    assert_eq!(snapshot.freshness.state, FreshnessState::Stale);
    assert_eq!(snapshot.freshness.age_secs, Some(600));
    assert!(has_diagnostic(&snapshot, "realtime-stale"));

    let run = train(&snapshot, "NS_T1");
    assert_eq!(progress(run), (270, 570));
    assert_eq!(run.delay_secs, None);
    assert!(snapshot
        .trains
        .iter()
        .all(|t| t.quality == PositionQuality::ScheduleOnly));
}

#[test]
fn an_ageing_feed_still_carries_its_predictions() {
    let network = network();
    let realtime = feed(NOW_UNIX - 90, vec![update("NS_T1", Some(120), vec![])]);
    let snapshot = build_at(
        &NetworkSnapshotBuilder::new(&network).with_realtime(&realtime, NOW_UNIX),
        date_text(),
        hms(6, 5, 0),
    );

    assert_eq!(snapshot.freshness.state, FreshnessState::Ageing);
    assert!(snapshot.freshness.state.is_current());
    assert_eq!(snapshot.freshness.age_secs, Some(90));
    assert_eq!(snapshot.freshness.ageing_secs, 60);
    assert_eq!(snapshot.freshness.staleness_secs, 120);
    assert!(has_diagnostic(&snapshot, "realtime-ageing"));

    let run = train(&snapshot, "NS_T1");
    assert_eq!(run.quality, PositionQuality::InterpolatedRealtime);
    assert_eq!(run.delay_secs, Some(120));
    assert_eq!(progress(run), (150, 570));
}

#[test]
fn the_ageing_threshold_is_the_callers_to_set() {
    let network = network();
    let realtime = feed(NOW_UNIX - 30, vec![update("NS_T1", Some(120), vec![])]);
    let build = |ageing: u32| {
        build_at(
            &NetworkSnapshotBuilder::new(&network)
                .with_realtime(&realtime, NOW_UNIX)
                .ageing_secs(ageing),
            date_text(),
            hms(6, 5, 0),
        )
        .freshness
        .state
    };
    assert_eq!(build(60), FreshnessState::Live);
    assert_eq!(build(20), FreshnessState::Ageing);

    let old = feed(NOW_UNIX - 600, vec![update("NS_T1", Some(120), vec![])]);
    let snapshot = build_at(
        &NetworkSnapshotBuilder::new(&network)
            .with_realtime(&old, NOW_UNIX)
            .staleness_secs(120)
            .ageing_secs(900),
        date_text(),
        hms(6, 5, 0),
    );
    assert_eq!(snapshot.freshness.state, FreshnessState::Stale);
    assert!(!snapshot.freshness.state.is_current());
}

#[test]
fn a_feed_without_a_timestamp_counts_as_stale() {
    let network = network();
    let realtime = RailRtFeed {
        feed_timestamp: None,
        trip_updates: vec![update("NS_T1", Some(120), vec![])],
    };
    let snapshot = build_at(
        &NetworkSnapshotBuilder::new(&network).with_realtime(&realtime, NOW_UNIX),
        date_text(),
        hms(6, 5, 0),
    );

    assert_eq!(snapshot.freshness.state, FreshnessState::Stale);
    assert!(has_diagnostic(&snapshot, "realtime-without-timestamp"));
    assert_eq!(train(&snapshot, "NS_T1").delay_secs, None);
}

#[test]
fn without_a_realtime_layer_everything_is_schedule_only() {
    let network = network();
    let snapshot = build_at(&NetworkSnapshotBuilder::new(&network), date_text(), hms(6, 5, 0));

    assert_eq!(snapshot.freshness.state, FreshnessState::Unavailable);
    assert_eq!(snapshot.freshness.feed_timestamp, None);
    assert_eq!(snapshot.freshness.age_secs, None);
    assert!(!snapshot.trains.is_empty());
    assert!(snapshot
        .trains
        .iter()
        .all(|t| t.quality == PositionQuality::ScheduleOnly));
}

#[test]
fn an_empty_realtime_feed_says_so() {
    let network = network();
    let snapshot = live_snapshot(&network, Vec::new(), date_text(), hms(6, 5, 0));

    assert_eq!(snapshot.freshness.state, FreshnessState::Live);
    assert!(has_diagnostic(&snapshot, "realtime-without-trip-updates"));
    assert!(snapshot
        .trains
        .iter()
        .all(|t| t.quality == PositionQuality::ScheduleOnly));
}

#[test]
fn a_run_past_midnight_stays_on_its_service_day() {
    let network = network();
    let snapshot = build_at(&NetworkSnapshotBuilder::new(&network), date_text(), hms(24, 10, 0));

    let run = train(&snapshot, "NS_T5");
    match run.location {
        TrainLocation::OnEdge { index, from, to, .. } => {
            assert_eq!(index, 1);
            assert_eq!(station_name(&snapshot, from), "Choa Chu Kang");
            assert_eq!(station_name(&snapshot, to), "Marina Bay");
        }
        TrainLocation::AtStation { .. } => panic!("NS_T5 is between two stations"),
    }
    assert_eq!(progress(run), (270, 1170));
}

#[test]
fn a_run_past_midnight_reaches_the_map_after_midnight() {
    let network = network();
    let snapshot = build_at(&NetworkSnapshotBuilder::new(&network), "20250506", hms(0, 10, 0));

    assert_eq!(snapshot.freshness.service_date.to_text(), "20250506");
    let run = train(&snapshot, "NS_T5");
    assert_eq!(run.instance_id, "20250505:NS_T5");
    match run.location {
        TrainLocation::OnEdge { index, from, to, .. } => {
            assert_eq!(index, 1);
            assert_eq!(station_name(&snapshot, from), "Choa Chu Kang");
            assert_eq!(station_name(&snapshot, to), "Marina Bay");
        }
        TrainLocation::AtStation { .. } => panic!("NS_T5 is between two stations"),
    }
    assert_eq!(progress(run), (270, 1170));
    assert_eq!(snapshot.trains.len(), 1);
}

#[test]
fn a_loop_pattern_visits_a_station_twice() {
    let network = network();
    let snapshot = build_at(&NetworkSnapshotBuilder::new(&network), date_text(), hms(6, 8, 0));

    let run = train(&snapshot, "PW_L1");
    let (pattern, index, from, to) = match run.location {
        TrainLocation::OnEdge { pattern, index, from, to } => (pattern, index, from, to),
        TrainLocation::AtStation { .. } => panic!("PW_L1 is between two stations"),
    };
    assert_eq!(index, 2);
    assert_eq!(station_name(&snapshot, from), "Teck Lee");
    assert_eq!(station_name(&snapshot, to), "Punggol");

    let stations = &network.patterns[pattern].stations;
    assert_eq!(stations.first(), stations.last());
    let touching: Vec<usize> = snapshot
        .edges
        .iter()
        .filter(|e| e.pattern == pattern && (e.from == to || e.to == to))
        .map(|e| e.index)
        .collect();
    assert_eq!(touching, vec![0, 2]);
}

// ----------------------------------------------------------------------
// Determinism
// ----------------------------------------------------------------------

fn snapshot_realtime() -> RailRtFeed {
    feed(
        NOW_UNIX - 30,
        vec![
            update("NS_T1", Some(60), vec![stop_delay("CCK_NS", 150)]),
            update("EW_T1", None, vec![stop_delay("JUR_EW", -20)]),
            TripUpdate {
                canceled: true,
                ..update("TE_T3", None, Vec::new())
            },
        ],
    )
}

#[test]
fn the_trains_come_out_in_a_stable_order() {
    let network = network();
    let snapshot = build_at(&NetworkSnapshotBuilder::new(&network), date_text(), hms(6, 5, 0));

    let ids: Vec<&str> = snapshot.trains.iter().map(|t| t.instance_id.as_str()).collect();
    let mut sorted = ids.clone();
    sorted.sort_unstable();
    assert_eq!(ids, sorted);
    assert!(ids.len() > 1);
}

#[test]
fn the_same_inputs_produce_the_same_json() {
    let network = network();
    let realtime = snapshot_realtime();
    let alerts = disrupted_alerts();
    let build = || {
        format!(
            "{:?}",
            build_at(
                &NetworkSnapshotBuilder::new(&network)
                    .with_realtime(&realtime, NOW_UNIX)
                    .with_alerts(&alerts),
                date_text(),
                hms(6, 5, 0),
            )
        )
    };
    assert_eq!(build(), build());
    let snapshot = build_at(
        &NetworkSnapshotBuilder::new(&network)
            .with_realtime(&realtime, NOW_UNIX)
            .with_alerts(&alerts),
        date_text(),
        hms(6, 5, 0),
    );
    // The canceled run is not drawn; the early one stands at its
    // station with its own delay.
    assert!(!has_train(&snapshot, "TE_T3"));
    assert_eq!(train(&snapshot, "EW_T1").delay_secs, Some(-20));
}

// ----------------------------------------------------------------------
// More of the builder's rules
// ----------------------------------------------------------------------

#[test]
fn the_query_window_stays_within_the_service_day() {
    let network = network();
    let (from, to) = NetworkSnapshotBuilder::new(&network).query_window(hms(0, 30, 0));
    assert_eq!(from.seconds(), 0);
    assert_eq!(to.to_text(), "01:30:00");
    let (from, to) = NetworkSnapshotBuilder::new(&network)
        .window_secs(600)
        .query_window(hms(8, 0, 0));
    assert_eq!(from.to_text(), "07:50:00");
    assert_eq!(to.to_text(), "08:10:00");
    let (_, to) = NetworkSnapshotBuilder::new(&network)
        .window_secs(u32::MAX)
        .query_window(hms(1, 0, 0));
    assert_eq!(to.seconds(), u32::MAX);
}

#[test]
fn the_bands_of_both_days_come_out_by_identifier() {
    let network = network();
    let snapshot = build_at(&NetworkSnapshotBuilder::new(&network), "20250506", hms(0, 10, 0));
    let ids: Vec<&str> = snapshot.bands.iter().map(|b| b.band_id.as_str()).collect();
    assert_eq!(ids, vec!["20250505:BP_T1", "20250506:BP_T1"]);
}

#[test]
fn each_snapshot_report_carries_the_severity_of_its_code() {
    use_severity_check(
        live_snapshot(
            &network(),
            vec![run_update("NS_T1", Some("05/05/2025"), None, Some(120))],
            date_text(),
            hms(6, 5, 0),
        ),
        "realtime-unreadable-start-date",
        mrtracker::common::Severity::Warning,
    );
    use_severity_check(
        live_snapshot(
            &network(),
            vec![update(
                "NS_T1",
                None,
                vec![StopTimeUpdate {
                    stop_id: Some("CCK_NS".to_string()),
                    arrival: Some(StopTimeEvent { time: Some(1_746_400_500), delay_secs: None }),
                    departure: None,
                    skipped: false,
                }],
            )],
            date_text(),
            hms(6, 5, 0),
        ),
        "stop-update-without-delay",
        mrtracker::common::Severity::Info,
    );
}

fn use_severity_check(snapshot: NetworkSnapshot, code: &str, severity: mrtracker::common::Severity) {
    let found: Vec<_> = snapshot.diagnostics.iter().filter(|d| d.code == code).collect();
    assert!(!found.is_empty(), "{code}");
    assert!(found.iter().all(|d| d.severity == severity), "{code}");
}

#[test]
fn a_disruption_marks_the_drawn_section_between_the_stations_it_names() {
    let network = network();
    let alerts = disrupted_alerts();
    let snapshot = build_at(
        &NetworkSnapshotBuilder::new(&network).with_alerts(&alerts),
        date_text(),
        hms(6, 5, 0),
    );
    let all_drawn = vec![true; network.stations.len()];
    let all_sections = vec![true; snapshot.edges.len()];
    let marks = mrtracker::disruption::disruption_marks(&snapshot, &all_drawn, &all_sections);
    assert_eq!(marks.len(), 1);
    assert_eq!(marks[0].line, 0);
    assert_eq!(marks[0].edges.len(), 1);
    let edge = &snapshot.edges[marks[0].edges[0]];
    assert_eq!((edge.from, edge.to), (0, 1));
    assert!(marks[0].diagnostics.is_empty());

    // Choa Chu Kang is not drawn: the code is reported and no edge is marked.
    let mut undrawn = all_drawn.clone();
    undrawn[1] = false;
    let marks = mrtracker::disruption::disruption_marks(&snapshot, &undrawn, &all_sections);
    assert!(marks[0].edges.is_empty());
    let codes: Vec<(&str, Option<&str>)> = marks[0]
        .diagnostics
        .iter()
        .map(|d| (d.code.as_str(), d.subject.as_deref()))
        .collect();
    assert_eq!(
        codes,
        vec![
            ("map-disruption-station-undrawn", Some("NS4")),
            ("map-disruption-without-segment", Some("NSL")),
        ]
    );

    // Without the section of the edge, the whole line is marked instead.
    let no_sections = vec![false; snapshot.edges.len()];
    let marks = mrtracker::disruption::disruption_marks(&snapshot, &all_drawn, &no_sections);
    assert!(marks[0].edges.is_empty());
    assert_eq!(marks[0].diagnostics.len(), 1);
    assert_eq!(marks[0].diagnostics[0].code, "map-disruption-without-segment");
}
