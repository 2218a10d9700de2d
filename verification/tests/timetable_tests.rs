use mrtracker::common::{DepartureFlag, DocumentSeed, Line, LineView, Station};
use mrtracker::schedule::{
    RailNetwork, ScheduledCall, StopPattern, TimeQuality, TripInstance, TripQueryResult,
};
use mrtracker::time::parse_date;
use mrtracker::timetable::build_timetable;
use mrtracker::config::{PublicationConfig, SecondsDisplay};
use mrtracker::schedule::TimeExactness;
use mrtracker::text::Labels;
use mrtracker::time::{parse_time, GtfsTime};
use mrtracker::timetable::{
    balanced_breaks, direction_heading, seconds_for, HourGroup, TimetableDeparture,
};

fn group(hour: u32, count: usize) -> HourGroup {
    HourGroup {
        service_hour: hour,
        display_hour: (hour % 24) as u8,
        departures: (0..count)
            .map(|i| TimetableDeparture {
                scheduled_time: GtfsTime::from_hms(hour, i as u32, 0),
                display_minute: i as u8,
                display_seconds: None,
                destination: "X".into(),
                destination_full: "X".into(),
                platform: None,
                trip_short_name: None,
                source_trip_id: "T".into(),
                instance_id: "I".into(),
                exactness: TimeExactness::Exact,
                flags: Vec::new(),
            })
            .collect(),
    }
}

#[test]
fn balanced_columns_keep_the_hour_order() {
    let groups: Vec<HourGroup> = (4..28).map(|h| group(h, 4)).collect();
    let breaks = balanced_breaks(&groups, 2);
    assert_eq!(breaks, vec![12]);
    let breaks = balanced_breaks(&groups, 3);
    assert_eq!(breaks, vec![8, 16]);
}

#[test]
fn balanced_columns_follow_the_height_of_the_rows() {
    let mut groups: Vec<HourGroup> = (4..12).map(|h| group(h, 9)).collect();
    groups.extend((12..20).map(|h| group(h, 1)));
    assert_eq!(balanced_breaks(&groups, 2), vec![6]);
}

#[test]
fn a_sparse_day_still_splits_down_the_middle() {
    let mut groups: Vec<HourGroup> = (4..10).map(|h| group(h, 3)).collect();
    groups.extend((10..28).map(|h| group(h, 0)));
    assert_eq!(balanced_breaks(&groups, 2), vec![12]);
}

#[test]
fn one_column_never_breaks() {
    let groups: Vec<HourGroup> = (4..28).map(|h| group(h, 1)).collect();
    assert!(balanced_breaks(&groups, 1).is_empty());
    let first: Vec<HourGroup> = groups[..1].to_vec();
    assert!(balanced_breaks(&first, 3).is_empty());
}

#[test]
fn more_columns_than_rows_give_each_row_its_own_column() {
    let groups: Vec<HourGroup> = (4..7).map(|h| group(h, 2)).collect();
    assert_eq!(balanced_breaks(&groups, 6), vec![1, 2]);
}

#[test]
fn seconds_appear_only_when_they_matter() {
    let round = parse_time("06:10:00").unwrap();
    let odd = parse_time("06:10:30").unwrap();
    assert_eq!(seconds_for(round, SecondsDisplay::ShowIfNonzero), None);
    assert_eq!(seconds_for(odd, SecondsDisplay::ShowIfNonzero), Some(30));
    assert_eq!(seconds_for(odd, SecondsDisplay::Hide), None);
    assert_eq!(seconds_for(round, SecondsDisplay::Show), Some(0));
}

#[test]
fn a_direction_heading_lists_the_real_destinations() {
    let line = LineView {
        route_id: "TE".into(),
        name: "TEL".into(),
        long_name: None,
        color: None,
        text_color: None,
        key: "te".into(),
    };
    let config = PublicationConfig::default();
    let labels = Labels::for_language(config.language);

    let one = direction_heading(&line, Some(0), &vec!["Springleaf".into()], &config, &labels);
    assert_eq!(one, "For Springleaf");

    let two = direction_heading(
        &line,
        Some(0),
        &vec!["Springleaf".into(), "Woodlands South".into()],
        &config,
        &labels,
    );
    assert_eq!(two, "For Springleaf / Woodlands South");

    let none = direction_heading(&line, Some(1), &Vec::new(), &config, &labels);
    assert_eq!(none, "Direction 1");
}

#[test]
fn a_middle_call_becomes_one_departure_with_its_marks() {

    let station = |id: &str, name: &str| Station {
        gtfs_id: id.to_string(),
        name: name.to_string(),
        codes: Vec::new(),
        platform_stop_ids: vec![id.to_string()],
        lines: vec![0],
    };
    let network = RailNetwork {
        stations: vec![station("A", "Alpha"), station("B", "Beta"), station("C", "Gamma")],
        lines: vec![Line {
            route_id: "R".to_string(),
            name: "R".to_string(),
            long_name: None,
            color: None,
            text_color: None,
        }],
        patterns: vec![StopPattern { line: 0, direction: Some(0), stations: vec![0, 1, 2] }],
    };
    let call = |s: usize, a: &str, d: &str| ScheduledCall {
        station: s,
        arrival: parse_time(a),
        departure: parse_time(d),
        pickup_allowed: true,
        drop_off_allowed: true,
        stop_headsign: None,
        platform_stop_id: ["A", "B", "C"][s].to_string(),
        platform_code: None,
        time_quality: TimeQuality::Exact,
    };
    let date = parse_date("20250505").unwrap();
    let run = TripInstance {
        instance_id: "20250505:T".to_string(),
        source_trip_id: "T".to_string(),
        service_date: date,
        line: 0,
        pattern: 0,
        direction: Some(0),
        headsign: None,
        short_name: None,
        exactness: TimeExactness::Exact,
        calls: vec![
            call(0, "06:00:00", "06:00:30"),
            call(1, "06:05:00", "06:05:30"),
            call(2, "06:10:00", "06:10:00"),
        ],
    };
    let seed = DocumentSeed {
        generator_version: "test".to_string(),
        feed_sha256: "0".repeat(64),
        feed_timestamp: None,
        timezone: "Asia/Singapore".to_string(),
        generated_from_cache: false,
        configuration_sha256: "0".repeat(64),
    };
    let run_again = run.clone();
    let run_third = run.clone();
    let query = TripQueryResult { trips: vec![run], frequency_bands: Vec::new(), diagnostics: Vec::new() };
    let config = PublicationConfig::default();
    let doc = build_timetable(&network, 1, date, None, &config, &seed, true, Ok(query)).unwrap();
    assert_eq!(doc.panels.len(), 1);
    assert_eq!(doc.departure_count(), 1);
    let d = doc.panels[0]
        .hour_groups
        .iter()
        .flat_map(|g| g.departures.iter())
        .next()
        .unwrap();
    assert_eq!(d.scheduled_time, parse_time("06:05:30").unwrap());
    assert_eq!(d.display_minute, 5);
    assert_eq!(d.display_seconds, Some(30));
    assert_eq!(d.destination_full, "Gamma");
    assert_eq!(d.flags, vec![DepartureFlag::FirstOfDay, DepartureFlag::LastOfDay]);
    assert_eq!(doc.panels[0].direction_label, "For Gamma");

    // With empty hours shown, every hour of the service day has a row.
    let mut shown = PublicationConfig::default();
    shown.timetable.show_empty_hours = true;
    let query = TripQueryResult { trips: vec![run_again], frequency_bands: Vec::new(), diagnostics: Vec::new() };
    let doc = build_timetable(&network, 1, date, None, &shown, &seed, true, Ok(query)).unwrap();
    let hours: Vec<u32> = doc.panels[0].hour_groups.iter().map(|g| g.service_hour).collect();
    assert_eq!(hours, (4..28).collect::<Vec<u32>>());
    assert!(doc.panels[0]
        .hour_groups
        .iter()
        .all(|g| u32::from(g.display_hour) == g.service_hour % 24));

    // Two balanced columns split the rows without changing their order.
    shown.timetable.layout = mrtracker::config::ColumnLayout::Balanced;
    shown.timetable.columns = 2;
    let query = TripQueryResult { trips: vec![run_third], frequency_bands: Vec::new(), diagnostics: Vec::new() };
    let doc = build_timetable(&network, 1, date, None, &shown, &seed, true, Ok(query)).unwrap();
    let panel = &doc.panels[0];
    let columns = panel.columns();
    assert_eq!(columns.len(), 2);
    let rejoined: Vec<u32> = columns.iter().flat_map(|c| c.iter()).map(|g| g.service_hour).collect();
    let straight: Vec<u32> = panel.hour_groups.iter().map(|g| g.service_hour).collect();
    assert_eq!(rejoined, straight);

    // A day with no boardable call warns that the timetable is empty.
    let query = TripQueryResult { trips: Vec::new(), frequency_bands: Vec::new(), diagnostics: Vec::new() };
    let doc = build_timetable(&network, 1, date, None, &PublicationConfig::default(), &seed, true, Ok(query))
        .unwrap();
    assert!(doc.panels.is_empty());
    let empty: Vec<_> = doc.metadata.diagnostics.iter().filter(|d| d.code == "timetable-empty").collect();
    assert_eq!(empty.len(), 1);
    assert_eq!(empty[0].severity, mrtracker::common::Severity::Warning);
}

#[test]
fn a_day_that_starts_off_the_hour_keeps_its_last_departures() {
    let station = |id: &str, name: &str| Station {
        gtfs_id: id.to_string(),
        name: name.to_string(),
        codes: Vec::new(),
        platform_stop_ids: vec![id.to_string()],
        lines: vec![0],
    };
    let network = RailNetwork {
        stations: vec![station("A", "Alpha"), station("B", "Beta"), station("C", "Gamma")],
        lines: vec![Line {
            route_id: "R".to_string(),
            name: "R".to_string(),
            long_name: None,
            color: None,
            text_color: None,
        }],
        patterns: vec![StopPattern { line: 0, direction: Some(0), stations: vec![0, 1, 2] }],
    };
    let call = |s: usize, a: &str, d: &str| ScheduledCall {
        station: s,
        arrival: parse_time(a),
        departure: parse_time(d),
        pickup_allowed: true,
        drop_off_allowed: true,
        stop_headsign: None,
        platform_stop_id: ["A", "B", "C"][s].to_string(),
        platform_code: None,
        time_quality: TimeQuality::Exact,
    };
    let date = parse_date("20250505").unwrap();
    let run = TripInstance {
        instance_id: "20250505:L".to_string(),
        source_trip_id: "L".to_string(),
        service_date: date,
        line: 0,
        pattern: 0,
        direction: Some(0),
        headsign: None,
        short_name: None,
        exactness: TimeExactness::Exact,
        calls: vec![
            call(0, "28:10:00", "28:10:00"),
            call(1, "28:15:00", "28:15:00"),
            call(2, "28:20:00", "28:20:00"),
        ],
    };
    let seed = DocumentSeed {
        generator_version: "test".to_string(),
        feed_sha256: "0".repeat(64),
        feed_timestamp: None,
        timezone: "Asia/Singapore".to_string(),
        generated_from_cache: false,
        configuration_sha256: "0".repeat(64),
    };
    let mut config = PublicationConfig::default();
    config.day_start = parse_time("04:30:00").unwrap();
    let query = TripQueryResult { trips: vec![run], frequency_bands: Vec::new(), diagnostics: Vec::new() };
    let doc = build_timetable(&network, 1, date, None, &config, &seed, true, Ok(query)).unwrap();
    assert_eq!(doc.departure_count(), 1);
    let last = doc.panels[0].hour_groups.last().unwrap();
    assert_eq!(last.service_hour, 28);
    assert_eq!(last.display_hour, 4);
    assert_eq!(last.departures.len(), 1);
    assert_eq!(last.departures[0].scheduled_time, parse_time("28:15:00").unwrap());
}
