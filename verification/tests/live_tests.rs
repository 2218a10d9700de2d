//! The live destination board, the network status, and line matching,
//! over a small hand-built network and its scheduled calls.

use mrtracker::board::{station_crowd, BoardCall, LiveBoard, LiveBoardBuilder};
use mrtracker::common::{Line, Station};
use mrtracker::realtime::{
    ActivePeriod, Alert, AlertEffect, InformedEntity, RailRtFeed, StopTimeEvent, StopTimeUpdate,
    TripUpdate,
};
use mrtracker::schedule::{RailNetwork, StopPattern};
use mrtracker::status::{
    match_train_line, AffectedSegment, AlertMessage, CrowdLevel, LineState, NetworkStatus,
    PlatformCrowd, ServiceStatus, TrainLine, TrainServiceAlerts,
};
use mrtracker::time::{parse_date, GtfsTime, ServiceDate};

fn date(text: &str) -> ServiceDate {
    parse_date(text).unwrap()
}

fn hms(h: u32, m: u32, s: u32) -> GtfsTime {
    GtfsTime::from_hms(h, m, s)
}

fn station(id: &str, code: &str, name: &str) -> Station {
    Station {
        gtfs_id: id.to_string(),
        name: name.to_string(),
        codes: vec![code.to_string()],
        platform_stop_ids: vec![id.to_string()],
        lines: vec![0],
    }
}

/// Three North South Line stations: Jurong East (NS1), Choa Chu Kang
/// (NS4), and Marina Bay (NS27).
fn tiny_network() -> RailNetwork {
    RailNetwork {
        stations: vec![
            station("S_NS1", "NS1", "Jurong East"),
            station("S_NS4", "NS4", "Choa Chu Kang"),
            station("S_NS27", "NS27", "Marina Bay"),
        ],
        lines: vec![Line {
            route_id: "NS".to_string(),
            name: "NSL".to_string(),
            long_name: Some("North South Line".to_string()),
            color: Some("D42E12".to_string()),
            text_color: None,
        }],
        patterns: vec![StopPattern {
            line: 0,
            direction: Some(0),
            stations: vec![0, 1, 2],
        }],
    }
}

/// One call of a run toward Marina Bay.
fn call(trip: &str, day: &str, run_start: Option<GtfsTime>, time: GtfsTime) -> BoardCall {
    BoardCall {
        trip_id: trip.to_string(),
        service_date: date(day),
        run_start,
        line: 0,
        headsign: Some("Marina Bay".to_string()),
        terminus: 2,
        time,
        exact: true,
    }
}

/// The calls of the daily trip `T1` at NS4 (08:10) on the board's day
/// and the day before.
fn tiny_calls_ns4() -> Vec<BoardCall> {
    vec![
        call("T1", "20260809", None, hms(8, 10, 0)),
        call("T1", "20260810", None, hms(8, 10, 0)),
    ]
}

/// The calls of `T1` at NS1 (08:00).
fn tiny_calls_ns1() -> Vec<BoardCall> {
    vec![
        call("T1", "20260809", None, hms(8, 0, 0)),
        call("T1", "20260810", None, hms(8, 0, 0)),
    ]
}

/// `T1` calls NS4 at 08:10 and `T2` at 08:14.
fn two_train_calls_ns4() -> Vec<BoardCall> {
    vec![
        call("T1", "20260809", None, hms(8, 10, 0)),
        call("T2", "20260809", None, hms(8, 14, 0)),
        call("T1", "20260810", None, hms(8, 10, 0)),
        call("T2", "20260810", None, hms(8, 14, 0)),
    ]
}

/// `T1` calls NS1 at 08:00 and `T2` at 08:04.
fn two_train_calls_ns1() -> Vec<BoardCall> {
    vec![
        call("T1", "20260810", None, hms(8, 0, 0)),
        call("T2", "20260810", None, hms(8, 4, 0)),
    ]
}

/// The headway block `TF` starts runs at 08:00 and 08:10, each of
/// which calls NS4 ten minutes later.
fn frequency_calls_ns4() -> Vec<BoardCall> {
    vec![
        call("TF", "20260810", Some(hms(8, 0, 0)), hms(8, 10, 0)),
        call("TF", "20260810", Some(hms(8, 10, 0)), hms(8, 20, 0)),
    ]
}

/// The run `T1` reaches NS4 at 24:10:00 of its own service day.
fn past_midnight_calls_ns4() -> Vec<BoardCall> {
    vec![
        call("T1", "20260811", None, hms(24, 10, 0)),
        call("T1", "20260810", None, hms(24, 10, 0)),
    ]
}

fn disrupted_alerts() -> TrainServiceAlerts {
    TrainServiceAlerts {
        status: ServiceStatus::Disrupted,
        affected_segments: vec![AffectedSegment {
            line: "NSL".to_string(),
            direction: "Both".to_string(),
            stations: "NS1,NS4".to_string(),
            free_public_bus: "NS1,NS4".to_string(),
            free_mrt_shuttle: String::new(),
            mrt_shuttle_direction: String::new(),
        }],
        messages: vec![AlertMessage {
            content: "NSL: no service between NS1 and NS4.".to_string(),
            created_date: "2026-08-10 08:00:00".to_string(),
        }],
    }
}

fn update(trip_id: &str) -> TripUpdate {
    TripUpdate {
        trip_id: Some(trip_id.to_string()),
        start_date: None,
        start_time: None,
        canceled: false,
        delay_secs: None,
        stop_updates: Vec::new(),
    }
}

fn feed(updates: Vec<TripUpdate>) -> RailRtFeed {
    RailRtFeed {
        feed_timestamp: None,
        trip_updates: updates,
    }
}

fn stop_update(stop_id: &str) -> StopTimeUpdate {
    StopTimeUpdate {
        stop_id: Some(stop_id.to_string()),
        arrival: None,
        departure: None,
        skipped: false,
    }
}

/// A realtime feed with one trip-level delay.
fn trip_delay(trip_id: &str, delay_secs: i32) -> RailRtFeed {
    let mut u = update(trip_id);
    u.delay_secs = Some(delay_secs);
    feed(vec![u])
}

fn board_at(
    network: &RailNetwork,
    realtime: &RailRtFeed,
    station: usize,
    clock: GtfsTime,
    lookahead_secs: u32,
    calls: &[BoardCall],
) -> LiveBoard {
    LiveBoardBuilder::new(network).with_realtime(realtime).build(
        station,
        date("20260810"),
        clock,
        lookahead_secs,
        calls,
    )
}

// ----------------------------------------------------------------------
// Line matching
// ----------------------------------------------------------------------

#[test]
fn line_matching_uses_codes_and_names() {
    let network = tiny_network();
    assert_eq!(match_train_line(&network.lines[0]), Some(TrainLine::NSL));

    let by_name = Line {
        route_id: "X".to_string(),
        name: "Sengkang LRT".to_string(),
        long_name: None,
        color: None,
        text_color: None,
    };
    assert_eq!(match_train_line(&by_name), Some(TrainLine::SLRT));

    let hyphenated = Line {
        route_id: "NS".to_string(),
        name: "NS".to_string(),
        long_name: Some("North-South Line".to_string()),
        color: None,
        text_color: None,
    };
    assert_eq!(match_train_line(&hyphenated), Some(TrainLine::NSL));

    let bus = Line {
        route_id: "970".to_string(),
        name: "970".to_string(),
        long_name: Some("Bus Service 970".to_string()),
        color: None,
        text_color: None,
    };
    assert_eq!(match_train_line(&bus), None);
}

// ----------------------------------------------------------------------
// Network status
// ----------------------------------------------------------------------

#[test]
fn network_status_marks_disrupted_lines() {
    let status = NetworkStatus::from_alerts(&disrupted_alerts());

    assert_eq!(status.overall, ServiceStatus::Disrupted);
    assert_eq!(status.lines.len(), TrainLine::all().len());
    assert!(status.line(TrainLine::NSL).is_disrupted());
    assert!(!status.line(TrainLine::EWL).is_disrupted());
    assert_eq!(status.messages.len(), 1);

    match &status.line(TrainLine::NSL).state {
        LineState::Disrupted {
            stations,
            direction,
            free_public_bus,
        } => {
            assert_eq!(stations, &vec!["NS1".to_string(), "NS4".to_string()]);
            assert_eq!(direction, "Both");
            assert_eq!(free_public_bus.len(), 2);
        }
        LineState::Normal => panic!("NSL must be disrupted"),
    }
}

#[test]
fn network_status_with_normal_service() {
    let alerts = TrainServiceAlerts {
        status: ServiceStatus::Normal,
        affected_segments: Vec::new(),
        messages: Vec::new(),
    };
    let status = NetworkStatus::from_alerts(&alerts);
    assert_eq!(status.overall, ServiceStatus::Normal);
    assert!(status.lines.iter().all(|l| !l.is_disrupted()));
    assert!(status.messages.is_empty());
}

// ----------------------------------------------------------------------
// Live board
// ----------------------------------------------------------------------

#[test]
fn the_static_board_lists_departures() {
    let network = tiny_network();
    let board = LiveBoardBuilder::new(&network).build(
        1,
        date("20260810"),
        hms(8, 0, 0),
        3600,
        &tiny_calls_ns4(),
    );

    assert_eq!(board.station_name, "Choa Chu Kang");
    assert_eq!(board.station_codes, vec!["NS4"]);
    assert_eq!(board.rows.len(), 1);

    let row = &board.rows[0];
    assert_eq!(row.line_code, "NSL");
    assert_eq!(row.line_color.as_deref(), Some("D42E12"));
    assert_eq!(row.destination, "Marina Bay");
    assert_eq!(row.departs_in_secs, 600);
    assert_eq!(row.clock_time, "08:10:00");
    assert!(!row.approximate);
    assert_eq!(row.delay_secs, None);
    assert!(!row.canceled);
    assert_eq!(row.crowd, None);
    assert!(board.notices.is_empty());
}

#[test]
fn live_layers_decorate_the_board() {
    let network = tiny_network();
    let alerts = disrupted_alerts();
    let crowd = vec![PlatformCrowd {
        station: "NS4".to_string(),
        start_time: "2026-08-10T08:00:00+08:00".to_string(),
        end_time: "2026-08-10T08:10:00+08:00".to_string(),
        crowd_level: CrowdLevel::High,
    }];
    let mut u = update("T1");
    let mut su = stop_update("S_NS4");
    su.departure = Some(StopTimeEvent {
        delay_secs: Some(120),
        time: None,
    });
    u.stop_updates = vec![su];
    let realtime = feed(vec![u]);

    let board = LiveBoardBuilder::new(&network)
        .with_alerts(&alerts)
        .with_crowd(&crowd)
        .with_realtime(&realtime)
        .build(1, date("20260810"), hms(8, 0, 0), 3600, &tiny_calls_ns4());

    let row = &board.rows[0];
    assert_eq!(row.delay_secs, Some(120));
    assert_eq!(row.crowd, Some(CrowdLevel::High));
    assert!(!row.canceled);
    assert_eq!(board.notices, vec!["NSL: no service between NS1 and NS4."]);
}

#[test]
fn canceled_trips_are_flagged() {
    let network = tiny_network();
    let mut u = update("T1");
    u.canceled = true;
    let realtime = feed(vec![u]);
    let board = board_at(&network, &realtime, 1, hms(8, 0, 0), 3600, &tiny_calls_ns4());
    assert!(board.rows[0].canceled);
}

#[test]
fn notices_stay_away_from_unaffected_stations() {
    let network = tiny_network();
    let alerts = TrainServiceAlerts {
        status: ServiceStatus::Disrupted,
        affected_segments: vec![AffectedSegment {
            line: "NEL".to_string(),
            direction: "Both".to_string(),
            stations: "NE1,NE3".to_string(),
            free_public_bus: String::new(),
            free_mrt_shuttle: String::new(),
            mrt_shuttle_direction: String::new(),
        }],
        messages: vec![AlertMessage {
            content: "NEL disruption.".to_string(),
            created_date: String::new(),
        }],
    };
    let board = LiveBoardBuilder::new(&network).with_alerts(&alerts).build(
        1,
        date("20260810"),
        hms(8, 0, 0),
        3600,
        &tiny_calls_ns4(),
    );
    assert!(board.notices.is_empty());
}

#[test]
fn max_rows_caps_the_board() {
    let network = tiny_network();
    let board = LiveBoardBuilder::new(&network).max_rows(0).build(
        0,
        date("20260810"),
        hms(8, 0, 0),
        3600,
        &tiny_calls_ns1(),
    );
    assert!(board.rows.is_empty());
}

// ----------------------------------------------------------------------
// Realtime service alerts on the board
// ----------------------------------------------------------------------

fn rt_alert(effect: AlertEffect, informed: Vec<InformedEntity>) -> Alert {
    Alert {
        effect,
        header: Some("Test alert".to_string()),
        description: None,
        active_periods: Vec::new(),
        informed,
    }
}

fn trip_entity(trip_id: &str) -> InformedEntity {
    InformedEntity {
        agency_id: None,
        route_id: None,
        stop_id: None,
        trip_id: Some(trip_id.to_string()),
    }
}

fn route_entity(route_id: &str) -> InformedEntity {
    InformedEntity {
        agency_id: None,
        route_id: Some(route_id.to_string()),
        stop_id: None,
        trip_id: None,
    }
}

fn stop_entity(stop_id: &str) -> InformedEntity {
    InformedEntity {
        agency_id: None,
        route_id: None,
        stop_id: Some(stop_id.to_string()),
        trip_id: None,
    }
}

fn build_with_alerts(alerts: &[Alert], now_unix: u64) -> LiveBoard {
    let network = tiny_network();
    LiveBoardBuilder::new(&network)
        .with_rt_alerts(alerts, now_unix)
        .build(1, date("20260810"), hms(8, 0, 0), 3600, &tiny_calls_ns4())
}

#[test]
fn a_no_service_alert_cancels_the_named_trip() {
    let alerts = vec![rt_alert(AlertEffect::NoService, vec![trip_entity("T1")])];
    let board = build_with_alerts(&alerts, 1_000);
    assert!(board.rows[0].canceled);
    assert!(!board.rows[0].alerted);
}

#[test]
fn a_route_alert_reaches_every_departure_of_the_line() {
    let alerts = vec![rt_alert(
        AlertEffect::SignificantDelays,
        vec![route_entity("NS")],
    )];
    let board = build_with_alerts(&alerts, 1_000);
    assert!(!board.rows[0].canceled);
    assert!(board.rows[0].alerted);
    assert_eq!(board.notices, vec!["Test alert"]);
}

#[test]
fn a_platform_alert_reaches_the_station() {
    let alerts = vec![rt_alert(AlertEffect::NoService, vec![stop_entity("S_NS4")])];
    let board = build_with_alerts(&alerts, 1_000);
    assert!(board.rows[0].canceled);
    assert_eq!(board.notices, vec!["Test alert"]);
}

#[test]
fn alerts_for_other_parts_of_the_network_stay_away() {
    let alerts = vec![
        rt_alert(AlertEffect::NoService, vec![route_entity("EW")]),
        rt_alert(AlertEffect::NoService, vec![stop_entity("S_EW1")]),
        rt_alert(AlertEffect::NoService, vec![trip_entity("T9")]),
    ];
    let board = build_with_alerts(&alerts, 1_000);
    assert!(!board.rows[0].canceled);
    assert!(!board.rows[0].alerted);
    assert!(board.notices.is_empty());
}

#[test]
fn inactive_alerts_change_nothing() {
    let mut alert = rt_alert(AlertEffect::NoService, vec![route_entity("NS")]);
    alert.active_periods = vec![ActivePeriod {
        start: Some(100),
        end: Some(200),
    }];
    let board = build_with_alerts(&[alert], 1_000);
    assert!(!board.rows[0].canceled);
    assert!(board.notices.is_empty());
}

#[test]
fn a_non_disruptive_alert_leaves_the_timing_alone() {
    let alerts = vec![rt_alert(
        AlertEffect::AccessibilityIssue,
        vec![route_entity("NS")],
    )];
    let board = build_with_alerts(&alerts, 1_000);
    assert!(!board.rows[0].canceled);
    assert!(!board.rows[0].alerted);
}

#[test]
fn a_modified_schedule_is_a_notice_without_marking_rows() {
    let alerts = vec![rt_alert(
        AlertEffect::ModifiedService,
        vec![route_entity("NS")],
    )];
    let board = build_with_alerts(&alerts, 1_000);
    assert!(!board.rows[0].alerted);
    assert!(!board.rows[0].canceled);
    assert_eq!(board.notices, vec!["Test alert"]);
}

#[test]
fn a_blank_alert_text_reaches_no_notice() {
    let mut alert = rt_alert(AlertEffect::NoService, vec![route_entity("NS")]);
    alert.header = Some(" ".to_string());
    let board = build_with_alerts(&[alert], 1_000);
    assert!(board.rows[0].canceled);
    assert!(board.notices.is_empty());
}

// ----------------------------------------------------------------------
// Realtime predictions on the board
// ----------------------------------------------------------------------

#[test]
fn a_delay_moves_and_reorders_the_rows() {
    let network = tiny_network();
    let realtime = trip_delay("T1", 360);
    let board = board_at(&network, &realtime, 1, hms(8, 0, 0), 3600, &two_train_calls_ns4());

    assert_eq!(board.rows.len(), 2);
    assert_eq!(board.rows[0].clock_time, "08:14:00");
    assert_eq!(board.rows[0].departs_in_secs, 840);
    assert_eq!(board.rows[0].delay_secs, None);
    assert_eq!(board.rows[1].clock_time, "08:16:00");
    assert_eq!(board.rows[1].departs_in_secs, 960);
    assert_eq!(board.rows[1].delay_secs, Some(360));
}

#[test]
fn the_row_limit_counts_predicted_times() {
    let network = tiny_network();
    let realtime = trip_delay("T1", 360);
    let board = LiveBoardBuilder::new(&network)
        .with_realtime(&realtime)
        .max_rows(1)
        .build(1, date("20260810"), hms(8, 0, 0), 3600, &two_train_calls_ns4());

    assert_eq!(board.rows.len(), 1);
    assert_eq!(board.rows[0].clock_time, "08:14:00");
}

#[test]
fn a_delay_pushes_a_row_out_of_the_window() {
    let network = tiny_network();
    let realtime = trip_delay("T1", 3060);
    let board = board_at(&network, &realtime, 1, hms(8, 0, 0), 3600, &two_train_calls_ns4());

    assert_eq!(board.rows.len(), 1);
    assert_eq!(board.rows[0].clock_time, "08:14:00");
}

#[test]
fn a_late_train_scheduled_before_now_still_shows() {
    let network = tiny_network();
    let realtime = trip_delay("T1", 300);
    let board = board_at(&network, &realtime, 1, hms(8, 12, 0), 3600, &two_train_calls_ns4());

    assert_eq!(board.rows.len(), 2);
    assert_eq!(board.rows[0].clock_time, "08:14:00");
    assert_eq!(board.rows[0].departs_in_secs, 120);
    assert_eq!(board.rows[1].clock_time, "08:15:00");
    assert_eq!(board.rows[1].departs_in_secs, 180);
}

#[test]
fn an_early_train_enters_the_window() {
    let network = tiny_network();
    let realtime = trip_delay("T2", -600);
    let board = board_at(&network, &realtime, 1, hms(8, 0, 0), 300, &two_train_calls_ns4());

    assert_eq!(board.rows.len(), 1);
    assert_eq!(board.rows[0].clock_time, "08:04:00");
    assert_eq!(board.rows[0].departs_in_secs, 240);
    assert_eq!(board.rows[0].delay_secs, Some(-600));
}

#[test]
fn a_stop_event_beats_the_trip_level_delay() {
    let network = tiny_network();
    let mut u = update("T1");
    u.delay_secs = Some(600);
    let mut su = stop_update("S_NS4");
    su.departure = Some(StopTimeEvent {
        delay_secs: Some(120),
        time: None,
    });
    u.stop_updates = vec![su];
    let realtime = feed(vec![u]);

    let board = board_at(&network, &realtime, 1, hms(8, 0, 0), 3600, &tiny_calls_ns4());
    assert_eq!(board.rows[0].delay_secs, Some(120));
    assert_eq!(board.rows[0].departs_in_secs, 720);
    assert_eq!(board.rows[0].clock_time, "08:12:00");

    let origin = board_at(&network, &realtime, 0, hms(7, 50, 0), 3600, &tiny_calls_ns1());
    assert_eq!(origin.rows[0].delay_secs, Some(600));
    assert_eq!(origin.rows[0].departs_in_secs, 1200);
    assert_eq!(origin.rows[0].clock_time, "08:10:00");
}

#[test]
fn a_skipped_stop_leaves_the_board() {
    let network = tiny_network();
    let mut u = update("T1");
    let mut su = stop_update("S_NS4");
    su.skipped = true;
    u.stop_updates = vec![su];
    let realtime = feed(vec![u]);

    let board = board_at(&network, &realtime, 1, hms(8, 0, 0), 3600, &two_train_calls_ns4());
    assert_eq!(board.rows.len(), 1);
    assert_eq!(board.rows[0].clock_time, "08:14:00");

    let origin = board_at(&network, &realtime, 0, hms(7, 50, 0), 3600, &two_train_calls_ns1());
    assert_eq!(origin.rows.len(), 2);
}

#[test]
fn a_canceled_row_keeps_its_scheduled_slot() {
    let network = tiny_network();
    let mut u = update("T1");
    u.canceled = true;
    u.delay_secs = Some(1200);
    let realtime = feed(vec![u]);
    let board = board_at(&network, &realtime, 1, hms(8, 0, 0), 3600, &two_train_calls_ns4());

    assert_eq!(board.rows.len(), 2);
    assert!(board.rows[0].canceled);
    assert_eq!(board.rows[0].clock_time, "08:10:00");
    assert_eq!(board.rows[0].departs_in_secs, 600);
    assert!(!board.rows[1].canceled);
}

#[test]
fn an_irrelevant_realtime_layer_changes_nothing() {
    let network = tiny_network();
    let calls = two_train_calls_ns4();
    let plain = LiveBoardBuilder::new(&network).build(
        1,
        date("20260810"),
        hms(8, 0, 0),
        3600,
        &calls,
    );
    let realtime = trip_delay("T9", 900);
    let decorated = board_at(&network, &realtime, 1, hms(8, 0, 0), 3600, &calls);
    assert_eq!(format!("{:?}", plain), format!("{:?}", decorated));
    assert_eq!(plain.rows.len(), 2);
    assert_eq!(plain.rows[0].departs_in_secs, 600);
    assert_eq!(plain.rows[0].clock_time, "08:10:00");
}

// ----------------------------------------------------------------------
// Which trip update reaches which row
// ----------------------------------------------------------------------

fn run_update(trip_id: &str, start_time: Option<&str>, delay_secs: i32) -> RailRtFeed {
    let mut u = update(trip_id);
    u.start_time = start_time.map(str::to_string);
    u.delay_secs = Some(delay_secs);
    feed(vec![u])
}

#[test]
fn an_update_naming_one_start_time_moves_only_that_sibling() {
    let network = tiny_network();
    let realtime = run_update("TF", Some("08:10:00"), 300);
    let board = board_at(&network, &realtime, 1, hms(8, 0, 0), 3600, &frequency_calls_ns4());

    assert_eq!(board.rows.len(), 2);
    assert_eq!(board.rows[0].clock_time, "08:10:00");
    assert_eq!(board.rows[0].delay_secs, None);
    assert_eq!(board.rows[0].departs_in_secs, 600);
    assert_eq!(board.rows[1].clock_time, "08:25:00");
    assert_eq!(board.rows[1].delay_secs, Some(300));
    assert_eq!(board.rows[1].departs_in_secs, 1500);
}

#[test]
fn a_cancellation_naming_one_start_time_cancels_only_that_sibling() {
    let network = tiny_network();
    let mut u = update("TF");
    u.start_time = Some("08:00:00".to_string());
    u.canceled = true;
    let realtime = feed(vec![u]);
    let board = board_at(&network, &realtime, 1, hms(8, 0, 0), 3600, &frequency_calls_ns4());

    assert_eq!(board.rows.len(), 2);
    assert!(board.rows[0].canceled);
    assert_eq!(board.rows[0].clock_time, "08:10:00");
    assert!(!board.rows[1].canceled);
    assert_eq!(board.rows[1].clock_time, "08:20:00");
}

#[test]
fn a_skipped_stop_naming_one_start_time_removes_only_that_sibling() {
    let network = tiny_network();
    let mut u = update("TF");
    u.start_time = Some("08:10:00".to_string());
    let mut su = stop_update("S_NS4");
    su.skipped = true;
    u.stop_updates = vec![su];
    let realtime = feed(vec![u]);
    let board = board_at(&network, &realtime, 1, hms(8, 0, 0), 3600, &frequency_calls_ns4());

    assert_eq!(board.rows.len(), 1);
    assert_eq!(board.rows[0].clock_time, "08:10:00");
}

#[test]
fn an_update_naming_no_start_time_reaches_no_sibling() {
    let network = tiny_network();
    let realtime = run_update("TF", None, 300);
    let board = board_at(&network, &realtime, 1, hms(8, 0, 0), 3600, &frequency_calls_ns4());

    assert_eq!(board.rows.len(), 2);
    assert!(board.rows.iter().all(|row| row.delay_secs.is_none()));
    assert_eq!(board.rows[0].clock_time, "08:10:00");
    assert_eq!(board.rows[1].clock_time, "08:20:00");
}

fn dated_update(trip_id: &str, start_date: &str, delay_secs: i32) -> RailRtFeed {
    let mut u = update(trip_id);
    u.start_date = Some(start_date.to_string());
    u.delay_secs = Some(delay_secs);
    feed(vec![u])
}

fn past_midnight_board(realtime: &RailRtFeed) -> LiveBoard {
    let network = tiny_network();
    LiveBoardBuilder::new(&network).with_realtime(realtime).build(
        1,
        date("20260811"),
        hms(0, 5, 0),
        3600,
        &past_midnight_calls_ns4(),
    )
}

#[test]
fn a_todays_update_cannot_change_yesterdays_run() {
    let today = past_midnight_board(&dated_update("T1", "20260811", 300));
    assert_eq!(today.rows.len(), 1);
    assert_eq!(today.rows[0].delay_secs, None);
    assert_eq!(today.rows[0].clock_time, "00:10:00");
    assert_eq!(today.rows[0].departs_in_secs, 300);

    let yesterday = past_midnight_board(&dated_update("T1", "20260810", 300));
    assert_eq!(yesterday.rows.len(), 1);
    assert_eq!(yesterday.rows[0].delay_secs, Some(300));
    assert_eq!(yesterday.rows[0].clock_time, "00:15:00");
    assert_eq!(yesterday.rows[0].departs_in_secs, 600);
}

#[test]
fn a_todays_cancellation_cannot_cancel_yesterdays_run() {
    let mut u = update("T1");
    u.start_date = Some("20260811".to_string());
    u.canceled = true;
    let board = past_midnight_board(&feed(vec![u]));

    assert_eq!(board.rows.len(), 1);
    assert!(!board.rows[0].canceled);
}

#[test]
fn an_undated_update_still_reaches_a_fixed_trip() {
    let board = past_midnight_board(&trip_delay("T1", 300));
    assert_eq!(board.rows.len(), 1);
    assert_eq!(board.rows[0].delay_secs, Some(300));
}

#[test]
fn a_start_time_never_narrows_a_fixed_trip() {
    let network = tiny_network();
    let realtime = run_update("T1", Some("09:99:99"), 360);
    let board = board_at(&network, &realtime, 1, hms(8, 0, 0), 3600, &two_train_calls_ns4());

    assert_eq!(board.rows.len(), 2);
    assert_eq!(board.rows[1].clock_time, "08:16:00");
    assert_eq!(board.rows[1].delay_secs, Some(360));
}

// ----------------------------------------------------------------------
// More of the board's rules
// ----------------------------------------------------------------------

#[test]
fn the_worst_crowd_level_among_the_codes_wins() {
    let codes = vec!["NS1".to_string(), "EW24".to_string()];
    let record = |code: &str, level: CrowdLevel| PlatformCrowd {
        station: code.to_string(),
        start_time: String::new(),
        end_time: String::new(),
        crowd_level: level,
    };
    let crowd = vec![
        record("ns1", CrowdLevel::Low),
        record("EW24", CrowdLevel::Moderate),
        record("NE1", CrowdLevel::High),
    ];
    assert_eq!(station_crowd(&codes, &crowd), Some(CrowdLevel::Moderate));
    assert_eq!(station_crowd(&codes, &[]), None);
    assert_eq!(
        station_crowd(&codes, &[record("NS1", CrowdLevel::Unknown)]),
        None
    );
}

#[test]
fn a_row_without_a_headsign_names_the_terminus_and_a_headway_is_approximate() {
    let network = tiny_network();
    let mut c = call("TF", "20260810", Some(hms(8, 0, 0)), hms(8, 10, 0));
    c.headsign = None;
    c.exact = false;
    let board = LiveBoardBuilder::new(&network).build(
        1,
        date("20260810"),
        hms(8, 0, 0),
        3600,
        &[c],
    );
    assert_eq!(board.rows[0].destination, "Marina Bay");
    assert!(board.rows[0].approximate);
}

#[test]
fn the_window_holds_both_of_its_ends() {
    let network = tiny_network();
    let calls = vec![
        call("T1", "20260810", None, hms(8, 0, 0)),
        call("T2", "20260810", None, hms(8, 10, 0)),
        call("T3", "20260810", None, hms(8, 10, 1)),
    ];
    let board = LiveBoardBuilder::new(&network).build(
        1,
        date("20260810"),
        hms(8, 0, 0),
        600,
        &calls,
    );
    assert_eq!(board.rows.len(), 2);
    assert_eq!(board.rows[0].departs_in_secs, 0);
    assert_eq!(board.rows[1].departs_in_secs, 600);
}

#[test]
fn a_departure_after_midnight_shows_the_clock_time() {
    let network = tiny_network();
    let calls = vec![call("T1", "20260810", None, hms(24, 30, 0))];
    let board = LiveBoardBuilder::new(&network).build(
        1,
        date("20260810"),
        hms(24, 0, 0),
        3600,
        &calls,
    );
    assert_eq!(board.rows[0].clock_time, "00:30:00");
    assert_eq!(board.rows[0].departs_in_secs, 1800);
}

#[test]
fn the_arrival_event_stands_in_for_a_missing_departure_event() {
    let network = tiny_network();
    let mut u = update("T1");
    u.delay_secs = Some(600);
    let mut su = stop_update("S_NS4");
    su.arrival = Some(StopTimeEvent {
        delay_secs: Some(60),
        time: None,
    });
    u.stop_updates = vec![su];
    let board = board_at(&network, &feed(vec![u]), 1, hms(8, 0, 0), 3600, &tiny_calls_ns4());
    assert_eq!(board.rows[0].delay_secs, Some(60));
    assert_eq!(board.rows[0].clock_time, "08:11:00");
}
