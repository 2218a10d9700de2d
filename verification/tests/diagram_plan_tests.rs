//! Which runs and blocks a train diagram draws, before its geometry.

use mrtracker::common::{Line, Station};
use mrtracker::config::PublicationConfig;
use mrtracker::corridor::{AxisDirection, DiagramTarget};
use mrtracker::diagram_finish::finish_diagram;
use mrtracker::diagram_plan::plan_diagram;
use mrtracker::error::PublicationError;
use mrtracker::schedule::{
    FrequencyBand, RailNetwork, ScheduledCall, StopPattern, TimeExactness, TimeQuality,
    TripInstance, TripQueryResult,
};
use mrtracker::time::{parse_date, parse_time};

fn network() -> RailNetwork {
    let station = |id: &str, name: &str| Station {
        gtfs_id: id.to_string(),
        name: name.to_string(),
        codes: Vec::new(),
        platform_stop_ids: vec![id.to_string()],
        lines: vec![0],
    };
    let line = |id: &str| Line {
        route_id: id.to_string(),
        name: id.to_string(),
        long_name: None,
        color: None,
        text_color: None,
    };
    RailNetwork {
        stations: vec![station("A", "Alpha"), station("B", "Beta"), station("C", "Gamma")],
        lines: vec![line("R"), line("S")],
        patterns: vec![
            StopPattern { line: 0, direction: Some(0), stations: vec![0, 1, 2] },
            StopPattern { line: 1, direction: Some(0), stations: vec![0, 1] },
        ],
    }
}

fn call(station: usize, at: &str) -> ScheduledCall {
    ScheduledCall {
        station,
        arrival: parse_time(at),
        departure: parse_time(at),
        pickup_allowed: true,
        drop_off_allowed: true,
        stop_headsign: None,
        platform_stop_id: "P".to_string(),
        platform_code: None,
        time_quality: TimeQuality::Exact,
    }
}

fn trip(id: &str, line: usize, pattern: usize, calls: Vec<ScheduledCall>) -> TripInstance {
    TripInstance {
        instance_id: format!("20250505:{id}"),
        source_trip_id: id.to_string(),
        service_date: parse_date("20250505").unwrap(),
        line,
        pattern,
        direction: Some(0),
        headsign: None,
        short_name: Some(format!("No. {id}")),
        exactness: TimeExactness::Exact,
        calls,
    }
}

fn day() -> TripQueryResult {
    TripQueryResult {
        trips: vec![
            trip("IN", 0, 0, vec![call(0, "06:00:00"), call(1, "06:05:00"), call(2, "06:10:00")]),
            trip("LATE", 0, 0, vec![call(0, "09:00:00"), call(1, "09:05:00"), call(2, "09:10:00")]),
            trip("OFF", 0, 0, vec![call(1, "06:20:00"), call(0, "06:25:00"), call(2, "06:30:00")]),
            trip("BACK", 0, 0, vec![call(2, "06:40:00"), call(1, "06:45:00")]),
            trip("OTHER", 1, 1, vec![call(0, "06:00:00"), call(1, "06:05:00")]),
        ],
        frequency_bands: vec![FrequencyBand {
            band_id: "F".to_string(),
            source_trip_id: "TF".to_string(),
            line: 0,
            pattern: 0,
            direction: Some(0),
            headsign: Some("Gamma".to_string()),
            start: parse_time("06:00:00").unwrap(),
            end: parse_time("07:00:00").unwrap(),
            headway_secs: 25 * 60,
            template: vec![call(0, "06:00:00"), call(2, "06:10:00")],
        }],
        diagnostics: Vec::new(),
    }
}

#[test]
fn the_plan_keeps_the_target_runs_inside_the_window() {
    let network = network();
    let config = PublicationConfig::default();
    let day = day();
    let plan = plan_diagram(
        &network,
        &DiagramTarget::Line(0),
        parse_time("05:00:00").unwrap(),
        parse_time("08:00:00").unwrap(),
        &config,
        true,
        &day,
    )
    .unwrap();
    assert_eq!(plan.wanted_runs, vec![true, false, true, true, false]);
    let planned: Vec<usize> = plan.runs.iter().map(|r| r.trip).collect();
    assert_eq!(planned, vec![0, 3]);
    assert_eq!(plan.runs[0].direction, AxisDirection::Down);
    assert_eq!(plan.runs[1].direction, AxisDirection::Up);
    assert_eq!(plan.runs[0].nodes.len(), 3);
    assert_eq!(plan.runs[0].destination, "Gamma");
    assert_eq!(plan.runs[0].label.as_deref(), Some("No. IN"));
    assert_eq!(plan.run_reports.len(), 1);
    assert_eq!(plan.run_reports[0].code, "run-off-corridor");
    assert_eq!(plan.run_reports[0].subject.as_deref(), Some("OFF"));
    assert_eq!(plan.bands.len(), 1);
    assert_eq!(plan.bands[0].destination, "Gamma");
    // Starts at 06:00, 06:25, and 06:50: the last is 50 minutes later.
    assert_eq!(plan.bands[0].shift_secs, 50 * 60);
    assert_eq!(plan.time_axis.start, parse_time("05:00:00").unwrap());
}

#[test]
fn an_empty_window_is_a_configuration_error() {
    let network = network();
    let config = PublicationConfig::default();
    let r = plan_diagram(
        &network,
        &DiagramTarget::Line(0),
        parse_time("08:00:00").unwrap(),
        parse_time("08:00:00").unwrap(),
        &config,
        true,
        &day(),
    );
    match r {
        Err(PublicationError::Configuration(m)) => {
            assert_eq!(m, "the diagram window 08:00:00 to 08:00:00 is empty")
        }
        _ => panic!("expected a configuration error"),
    }
}

#[test]
fn a_non_positive_geometry_is_a_configuration_error() {
    let network = network();
    let config = PublicationConfig::default();
    let r = plan_diagram(
        &network,
        &DiagramTarget::Line(0),
        parse_time("05:00:00").unwrap(),
        parse_time("08:00:00").unwrap(),
        &config,
        false,
        &day(),
    );
    assert!(matches!(r, Err(PublicationError::Configuration(_))));
}

#[test]
fn the_finished_diagram_orders_its_runs_and_says_what_it_dropped() {
    let network = network();
    let config = PublicationConfig::default();
    let day = day();
    let from = parse_time("05:00:00").unwrap();
    let until = parse_time("08:00:00").unwrap();
    let date = parse_date("20250505").unwrap();
    let plan = plan_diagram(&network, &DiagramTarget::Line(0), from, until, &config, true, &day).unwrap();

    // The later-starting path sorts last, whatever the plan order.
    let first_times = vec![Some(7 * 3600), Some(6 * 3600)];
    let tail = finish_diagram(&network, &plan, &day, date, from, until, &config, &first_times, &vec![true]);
    assert_eq!(tail.run_order, vec![1, 0]);
    assert_eq!(tail.band_order, vec![0]);
    assert_eq!(tail.lines.len(), 1);
    assert_eq!(tail.lines[0].route_id, "R");
    assert_eq!(tail.destinations, vec!["Beta".to_string(), "Gamma".to_string()]);
    let keys: Vec<&str> = tail.legend.iter().map(|i| i.key.as_str()).collect();
    assert_eq!(keys, vec!["stop", "approximate"]);
    assert!(!tail.diagnostics.iter().any(|d| d.code == "diagram-empty"));

    // A run the drawing dropped is reported, and leaves the filters.
    let tail = finish_diagram(&network, &plan, &day, date, from, until, &config, &vec![Some(6 * 3600), None], &vec![false]);
    assert_eq!(tail.run_order, vec![0]);
    assert!(tail.band_order.is_empty());
    assert_eq!(tail.destinations, vec!["Gamma".to_string()]);
    let dropped: Vec<_> = tail.diagnostics.iter().filter(|d| d.code == "run-outside-window").collect();
    assert_eq!(dropped.len(), 1);
    assert_eq!(dropped[0].subject.as_deref(), Some("BACK"));

    // Nothing drawn: the diagram says so, last.
    let tail = finish_diagram(&network, &plan, &day, date, from, until, &config, &vec![None, None], &vec![false]);
    let last = tail.diagnostics.last().unwrap();
    assert_eq!(last.code, "diagram-empty");
    assert_eq!(last.message, "no run of this corridor falls inside 05:00:00 to 08:00:00 on 20250505");
}
