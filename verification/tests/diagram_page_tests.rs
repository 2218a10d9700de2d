//! The page around a train diagram: filters, call tables, the band
//! list, and the data island.

use mrtracker::common::{DocumentSeed, Line, LineView, PublicationMetadata};
use mrtracker::config::PublicationConfig;
use mrtracker::diagram_page::{
    render_diagram, DiagramBandView, DiagramCallRow, DiagramPage, DiagramRunView,
};
use mrtracker::text::LocalizedText;
use mrtracker::time::{parse_date, GtfsTime};

fn hms(h: u32, m: u32, s: u32) -> GtfsTime {
    GtfsTime::from_hms(h, m, s)
}

fn line(route_id: &str, name: &str, color: Option<&str>) -> LineView {
    LineView::from_line(&Line {
        route_id: route_id.to_string(),
        name: name.to_string(),
        long_name: None,
        color: color.map(str::to_string),
        text_color: None,
    })
}

fn call(station: &str, stops: bool, arrival: Option<GtfsTime>, departure: Option<GtfsTime>) -> DiagramCallRow {
    DiagramCallRow {
        station: station.to_string(),
        stops,
        arrival,
        departure,
        platform: Some("1".to_string()),
    }
}

fn run(trip: &str, direction: Option<u8>, exact: bool, destination: &str) -> DiagramRunView {
    DiagramRunView {
        label: Some(format!("{trip}-name")),
        line: line("TE", "TEL", Some("9D5B25")),
        destination: destination.to_string(),
        direction,
        exact,
        first_time: Some(hms(5, 10, 0)),
        source_trip_id: trip.to_string(),
        calls: vec![
            call("Woodlands North", true, None, Some(hms(5, 10, 0))),
            call("Woodlands", false, Some(hms(5, 14, 0)), Some(hms(5, 14, 0))),
            call("Springleaf", true, Some(hms(25, 2, 0)), None),
        ],
    }
}

fn metadata() -> PublicationMetadata {
    let seed = DocumentSeed {
        generator_version: "mrt-schedule-cli 0.1.0".to_string(),
        feed_sha256: "a".repeat(64),
        feed_timestamp: None,
        timezone: "Asia/Singapore".to_string(),
        generated_from_cache: false,
        configuration_sha256: "b".repeat(64),
    };
    PublicationMetadata::new(&seed, parse_date("20250505").unwrap(), Vec::new())
}

fn page(runs: Vec<DiagramRunView>, bands: Vec<DiagramBandView>) -> DiagramPage {
    DiagramPage {
        title: LocalizedText::en("Thomson-East Coast Line"),
        lines: vec![line("TE", "TEL", Some("9D5B25")), line("<b>", "Evil", Some("red;x"))],
        runs,
        destinations: vec!["Springleaf".to_string(), "Woodlands North".to_string()],
        bands,
        start: hms(5, 0, 0),
        end: hms(25, 30, 0),
        service_day_label: "Monday 5 May 2025".to_string(),
        metadata: metadata(),
        legend: Vec::new(),
    }
}

fn render(p: &DiagramPage, config: &PublicationConfig) -> String {
    render_diagram(p, config, &["body {}"], "<svg></svg>", "{\"runs\":\"</script>\"}", "run();")
}

#[test]
fn the_diagram_page_carries_a_call_table_for_every_run() {
    let runs = vec![
        run("TE_T1", Some(0), true, "Springleaf"),
        run("TE_T2", Some(1), true, "Woodlands North"),
    ];
    let html = render(&page(runs, Vec::new()), &PublicationConfig::default());
    assert_eq!(html.matches("<details>").count(), 2);
    assert!(html.contains("<th scope=\"col\">Arrival</th>"));
    assert!(html.contains("class=\"call-tables\""));
    assert!(html.contains("TE_T1-name \u{00B7} TEL \u{2192} Springleaf \u{00B7} 05:10"));
    // A time past midnight keeps its service-day hour, and a missing
    // time is a dash.
    assert!(html.contains("<td>25:02:00</td><td>\u{2014}</td>"));
    // A call the run passes says so.
    assert!(html.contains("Woodlands <span class=\"flag\">("));
    assert!(html.starts_with("<!doctype html>"));
    assert!(html.trim_end().ends_with("</html>"));
    assert!(html.contains("Train diagram \u{00B7} 05:00 \u{2013} 25:30 \u{00B7} Monday 5 May 2025"));
}

#[test]
fn the_internal_trip_identifier_appears_only_when_it_is_asked_for() {
    let p = page(vec![run("TE_T1", Some(0), true, "Springleaf")], Vec::new());
    let plain = render(&p, &PublicationConfig::default());
    assert!(!plain.contains("<p class=\"muted\">TE_T1</p>"));
    let mut config = PublicationConfig::default();
    config.diagram.show_internal_trip_ids = true;
    let verbose = render(&p, &config);
    assert!(verbose.contains("<p class=\"muted\">TE_T1</p>"));
}

#[test]
fn the_directions_are_listed_once_in_order() {
    let runs = vec![
        run("A", Some(1), true, "Springleaf"),
        run("B", None, true, "Springleaf"),
        run("C", Some(0), true, "Springleaf"),
        run("D", Some(1), true, "Springleaf"),
    ];
    let html = render(&page(runs, Vec::new()), &PublicationConfig::default());
    let zero = html.find("data-filter=\"direction\" value=\"0\"").unwrap();
    let one = html.find("data-filter=\"direction\" value=\"1\"").unwrap();
    let dash = html
        .find("data-filter=\"direction\" value=\"\u{2014}\"")
        .unwrap();
    assert!(zero < one && one < dash);
    assert_eq!(html.matches("data-filter=\"direction\"").count(), 3);
}

#[test]
fn the_exactness_filter_appears_with_approximate_service_only() {
    let exact = render(
        &page(vec![run("A", Some(0), true, "Springleaf")], Vec::new()),
        &PublicationConfig::default(),
    );
    assert!(!exact.contains("data-filter=\"exactness\""));

    let approximate = render(
        &page(vec![run("A", Some(0), false, "Springleaf")], Vec::new()),
        &PublicationConfig::default(),
    );
    assert_eq!(approximate.matches("data-filter=\"exactness\"").count(), 2);
    assert!(approximate.contains(" \u{00B7} ~</summary>"));
}

#[test]
fn a_headway_band_is_named_below_the_drawing() {
    let bands = vec![DiagramBandView {
        label: "every 10 min approximately".to_string(),
        line_name: "BPLRT".to_string(),
        destination: "South View".to_string(),
    }];
    let html = render(&page(Vec::new(), bands), &PublicationConfig::default());
    assert!(html.contains("class=\"band-list\""));
    assert!(html.contains("<li>every 10 min approximately \u{00B7} BPLRT \u{2192} South View</li>"));
    assert!(html.contains("data-filter=\"exactness\""));
    // Without runs there is no call table.
    assert!(!html.contains("class=\"call-tables\""));
}

#[test]
fn hostile_feed_text_cannot_break_out_of_the_diagram() {
    let mut hostile = run("<script>alert(1)</script>", Some(0), true, "\"><img src=x>");
    hostile.calls[0].station = "</td><script>alert(2)</script>".to_string();
    let mut config = PublicationConfig::default();
    config.diagram.show_internal_trip_ids = true;
    let html = render(&page(vec![hostile], Vec::new()), &config);
    assert!(!html.contains("<script>alert("));
    assert!(!html.contains("\"><img"));
    // A hostile colour falls back to the neutral swatch.
    assert!(html.contains("background:#8b97ad"));
    assert!(!html.contains("red;x"));
    // The data island stays inert: the one script tag of the island and
    // the one of the page script.
    assert!(!html.contains("\"</script>\"}"));
    assert_eq!(html.matches("<script").count(), 2);
    assert!(html.contains("<svg></svg>"));
    assert!(html.contains("run();"));
}
