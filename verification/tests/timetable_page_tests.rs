use mrtracker::common::{DocumentSeed, Line, Station};
use mrtracker::config::PublicationConfig;
use mrtracker::schedule::{
    RailNetwork, ScheduledCall, TimeExactness, TimeQuality, TripInstance, TripQueryResult,
};
use mrtracker::time::{parse_date, parse_time, GtfsTime};
use mrtracker::timetable::build_timetable;
use mrtracker::timetable_page::render_timetable;

fn station(id: &str, name: &str, code: &str) -> Station {
    Station {
        gtfs_id: id.to_string(),
        name: name.to_string(),
        codes: vec![code.to_string()],
        platform_stop_ids: Vec::new(),
        lines: vec![0],
    }
}

fn network(last_name: &str, color: &str) -> RailNetwork {
    RailNetwork {
        stations: vec![
            station("WDN", "Woodlands North", "TE1"),
            station("WDL", "Woodlands", "TE2"),
            station("SPL", last_name, "TE3"),
        ],
        lines: vec![Line {
            route_id: "TE".to_string(),
            name: "TEL".to_string(),
            long_name: Some("Thomson-East Coast Line".to_string()),
            color: Some(color.to_string()),
            text_color: Some("FFFFFF".to_string()),
        }],
        patterns: Vec::new(),
    }
}

fn call(station: usize, time: GtfsTime) -> ScheduledCall {
    ScheduledCall {
        station,
        arrival: Some(time),
        departure: Some(time),
        pickup_allowed: true,
        drop_off_allowed: true,
        stop_headsign: None,
        platform_stop_id: format!("P{station}"),
        platform_code: Some("1".to_string()),
        time_quality: TimeQuality::Exact,
    }
}

fn trip(id: &str, start: &str) -> TripInstance {
    let t0 = parse_time(start).unwrap();
    TripInstance {
        instance_id: format!("20250505:{id}"),
        source_trip_id: id.to_string(),
        service_date: parse_date("20250505").unwrap(),
        line: 0,
        pattern: 0,
        direction: Some(0),
        headsign: None,
        short_name: None,
        exactness: TimeExactness::Exact,
        calls: vec![
            call(0, t0),
            call(1, t0.plus_seconds(120)),
            call(2, t0.plus_seconds(600)),
        ],
    }
}

fn seed(from_cache: bool) -> DocumentSeed {
    DocumentSeed {
        generator_version: "mrt-schedule-cli 0.1.0".to_string(),
        feed_sha256: "a".repeat(64),
        feed_timestamp: Some("2026-08-10T00:00:00+08:00".to_string()),
        timezone: "Asia/Singapore".to_string(),
        generated_from_cache: from_cache,
        configuration_sha256: "b".repeat(64),
    }
}

fn page(net: &RailNetwork, config: &PublicationConfig, from_cache: bool) -> String {
    let query = TripQueryResult {
        trips: vec![trip("T1", "05:10:00"), trip("T2", "06:00:30")],
        frequency_bands: Vec::new(),
        diagnostics: Vec::new(),
    };
    let document = build_timetable(
        net,
        0,
        parse_date("20250505").unwrap(),
        None,
        config,
        &seed(from_cache),
        true,
        Ok(query),
    )
    .unwrap();
    render_timetable(&document, config, &["body{}"], "/* script */")
}


#[test]
fn the_timetable_is_one_self_contained_document() {
    let html = page(&network("Springleaf", "9D5B25"), &PublicationConfig::default(), false);
    assert!(html.starts_with("<!doctype html>"));
    assert!(html.trim_end().ends_with("</html>"));
    assert!(html.contains("default-src &#39;none&#39;"));
    for forbidden in ["<link ", "src=\"http", "src=\"//", "@import", "url(http"] {
        assert!(!html.contains(forbidden), "found {forbidden}");
    }
    assert_eq!(html.matches("<script").count(), 1);
    assert_eq!(html.matches("<style").count(), 1);
}

#[test]
fn the_timetable_reads_without_a_stylesheet() {
    let html = page(&network("Springleaf", "9D5B25"), &PublicationConfig::default(), false);
    assert!(html.contains("<th scope=\"row\" class=\"hour-cell\">05</th>"));
    assert!(html.contains("<table class=\"hours\">"));
    assert!(html.contains("<h1>"));
    assert!(html.contains("<h2 class=\"direction\""));
    assert!(html.contains("class=\"controls needs-script no-print\""));
    assert!(html.contains("--line-color: #9D5B25;"));
}

#[test]
fn every_departure_carries_a_spoken_form() {
    let html = page(&network("Springleaf", "9D5B25"), &PublicationConfig::default(), false);
    assert!(html.contains("05:10 \u{2192} Springleaf"));
    assert!(html.contains("06:00:30 \u{2192} Springleaf"));
    assert!(html.contains("<span aria-hidden=\"true\" class=\"min\">10</span>"));
    assert!(html.contains("<span aria-hidden=\"true\" class=\"sec\">30</span>"));
}

#[test]
fn a_cached_feed_is_stated_on_the_page() {
    let html = page(&network("Springleaf", "9D5B25"), &PublicationConfig::default(), true);
    assert!(html.contains("generated from a cached feed"));
    assert!(html.contains("class=\"stale\""));
}

#[test]
fn the_colophon_carries_the_provenance() {
    let html = page(&network("Springleaf", "9D5B25"), &PublicationConfig::default(), false);
    assert!(html.contains("aaaaaaaaaaaa"));
    assert!(html.contains("mrt-schedule-cli 0.1.0"));
    assert!(html.contains("2026-08-10T00:00:00+08:00"));
    assert!(html.contains("Asia/Singapore"));
}

/// The exact byte sequences that would make injected feed text run.
const INJECTIONS: [&str; 8] = [
    "<script>alert",
    "</script>alert",
    "<svg onload",
    "<img src=x",
    "</h1><script",
    "</style><script",
    "</text><script",
    "display:none",
];

/// A network whose every feed string tries to inject markup: station
/// names and codes, the platform, the line name and colour, the
/// headsign, and the train name.
fn hostile_page() -> String {
    let hostile_station = |id: &str, name: &str, code: Option<&str>| Station {
        gtfs_id: id.to_string(),
        name: name.to_string(),
        codes: code.map(|c| vec![c.to_string()]).unwrap_or_default(),
        platform_stop_ids: Vec::new(),
        lines: vec![0],
    };
    let net = RailNetwork {
        stations: vec![
            hostile_station(
                "A",
                "</h1><script>alert('a')</script> & Co",
                Some("<img src=x onerror=alert(1)>"),
            ),
            hostile_station("B", "Beta & Co \u{2014} <b>bold</b>", None),
        ],
        lines: vec![Line {
            route_id: "R".to_string(),
            name: "</style><script>alert(3)</script>".to_string(),
            long_name: None,
            color: Some("red;} body {display:none".to_string()),
            text_color: None,
        }],
        patterns: Vec::new(),
    };
    let t0 = parse_time("06:00:00").unwrap();
    let mut first = call(0, t0);
    first.platform_code = Some("\"><script>alert(2)</script>".to_string());
    let run = TripInstance {
        instance_id: "20250505:T".to_string(),
        source_trip_id: "T".to_string(),
        service_date: parse_date("20250505").unwrap(),
        line: 0,
        pattern: 0,
        direction: Some(0),
        headsign: Some("</title><svg onload=alert(4)>".to_string()),
        short_name: Some("</text><script>alert(5)</script>".to_string()),
        exactness: TimeExactness::Exact,
        calls: vec![first, call(1, t0.plus_seconds(600))],
    };
    let config = PublicationConfig::default();
    let document = build_timetable(
        &net,
        0,
        parse_date("20250505").unwrap(),
        None,
        &config,
        &seed(false),
        true,
        Ok(TripQueryResult {
            trips: vec![run],
            frequency_bands: Vec::new(),
            diagnostics: Vec::new(),
        }),
    )
    .unwrap();
    render_timetable(&document, &config, &["body{}"], "/* script */")
}

#[test]
fn hostile_feed_text_cannot_break_out_of_the_timetable() {
    let html = hostile_page();
    for injection in INJECTIONS {
        assert!(!html.contains(injection), "the page contains {injection}");
    }
    // The renderer emits exactly one script element of its own, and
    // no feed text added another.
    assert_eq!(html.matches("<script").count(), 1);
    assert_eq!(html.matches("<style").count(), 1);
    // The text is still there, escaped.
    assert!(html.contains("&lt;script&gt;alert(&#39;a&#39;)&lt;/script&gt; &amp; Co"));
    // The hostile colour never becomes a declaration.
    assert!(!html.contains("--line-color: red"));
}

#[test]
fn rendering_is_byte_for_byte_reproducible() {
    let net = network("Springleaf", "9D5B25");
    let config = PublicationConfig::default();
    assert_eq!(page(&net, &config, false), page(&net, &config, false));
}
