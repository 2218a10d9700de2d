//! The decisions the map drawing makes on plain values: stations by
//! code, the line a ribbon carries, its colour, and the page around it.

use mrtracker::common::{fill_title, Diagnostic, Line, Station};
use mrtracker::config::{PublicationConfig, StationSpacing};
use mrtracker::corridor::effective_spacing;
use mrtracker::diagram_page::SvgMode;
use mrtracker::layout::{BoundLayout, FeatureGeometry, Layout, LayoutDocument, LayoutFeature};
use mrtracker::map::{Freshness, FreshnessState, MapEdge, MapLine, MapStation, NetworkSnapshot};
use mrtracker::mapweb::{describe, render_map_page};
use mrtracker::ribbons::{carried_line, layout_station, line_color, station_by_code};
use mrtracker::schedule::{RailNetwork, StopPattern};
use mrtracker::status::LineState;
use mrtracker::text::LocalizedText;
use mrtracker::time::{parse_date, GtfsTime};

fn map_line(line: usize, name: &str, color: Option<&str>) -> MapLine {
    MapLine {
        line,
        route_id: name.to_string(),
        name: name.to_string(),
        long_name: None,
        color: color.map(str::to_string),
        state: LineState::Normal,
    }
}

fn map_station(station: usize, name: &str, codes: &[&str]) -> MapStation {
    MapStation {
        station,
        name: name.to_string(),
        codes: codes.iter().map(|c| c.to_string()).collect(),
    }
}

fn edge(line: usize, from: usize, to: usize) -> MapEdge {
    MapEdge {
        pattern: line,
        index: 0,
        line,
        from,
        to,
    }
}

fn freshness(state: FreshnessState) -> Freshness {
    Freshness {
        service_date: parse_date("20250505").unwrap(),
        clock: GtfsTime { secs: 8 * 3600 + 30 * 60 },
        feed_timestamp: None,
        now_unix: None,
        age_secs: None,
        ageing_secs: 120,
        staleness_secs: 300,
        state,
    }
}

fn snapshot() -> NetworkSnapshot {
    NetworkSnapshot {
        lines: vec![
            map_line(0, "NSL", Some("D42E12")),
            map_line(1, "EWL", Some("red; x:y")),
            map_line(2, "CCL", None),
        ],
        stations: vec![
            map_station(0, "Jurong East", &["NS1", "EW24"]),
            map_station(1, "Bukit Batok", &["NS2"]),
            map_station(2, "Clementi", &["EW23"]),
            map_station(3, "Dover", &["EW22"]),
        ],
        edges: vec![
            edge(0, 0, 1),
            edge(1, 0, 2),
            edge(1, 2, 3),
            edge(2, 2, 3),
        ],
        trains: Vec::new(),
        bands: Vec::new(),
        freshness: freshness(FreshnessState::Unavailable),
        notices: Vec::new(),
        diagnostics: vec![Diagnostic::warning("snapshot-note", "from the snapshot".to_string())],
    }
}

fn blank_feature(kind: &str, id: &str, geometry: FeatureGeometry) -> LayoutFeature {
    LayoutFeature {
        kind: Some(kind.to_string()),
        id: Some(id.to_string()),
        geometry,
        name: None,
        mode: None,
        color: None,
        visible: None,
        branch_line: None,
        branch_node: None,
        code: None,
        line_id: None,
        has_t: false,
    }
}

fn network() -> RailNetwork {
    let station = |id: &str, name: &str, codes: &[&str]| Station {
        gtfs_id: id.to_string(),
        name: name.to_string(),
        codes: codes.iter().map(|c| c.to_string()).collect(),
        platform_stop_ids: vec![format!("{id}_P")],
        lines: vec![0],
    };
    RailNetwork {
        stations: vec![
            station("JUR", "Jurong East", &["NS1", "EW24"]),
            station("BBT", "Bukit Batok", &["NS2"]),
        ],
        lines: vec![Line {
            route_id: "NS".to_string(),
            name: "NSL".to_string(),
            long_name: None,
            color: None,
            text_color: None,
        }],
        patterns: vec![StopPattern {
            line: 0,
            direction: Some(0),
            stations: vec![0, 1],
        }],
    }
}

fn bound() -> BoundLayout {
    let red = LayoutFeature {
        color: Some("#00ff00".to_string()),
        ..blank_feature("line", "line-red", FeatureGeometry::LineString(2))
    };
    let plain = LayoutFeature {
        color: Some("url(#x)".to_string()),
        ..blank_feature("line", "line-plain", FeatureGeometry::LineString(2))
    };
    let jurong = LayoutFeature {
        code: Some("NS1".to_string()),
        line_id: Some("line-red".to_string()),
        ..blank_feature("station", "station-ns1", FeatureGeometry::Point(true))
    };
    let layout = Layout::from_document(&LayoutDocument {
        collection: true,
        features: Some(vec![red, plain, jurong]),
    });
    BoundLayout::bind(layout, &network())
}

#[test]
fn a_station_code_is_found_whatever_its_spelling() {
    let snapshot = snapshot();
    assert_eq!(station_by_code(&snapshot, "NS1"), Some(0));
    assert_eq!(station_by_code(&snapshot, "ns-1"), Some(0));
    assert_eq!(station_by_code(&snapshot, "EW 24"), Some(0));
    assert_eq!(station_by_code(&snapshot, "ew22"), Some(3));
    assert_eq!(station_by_code(&snapshot, "ZZ9"), None);
}

#[test]
fn a_layout_station_is_found_by_its_identifier() {
    let bound = bound();
    let found = layout_station(&bound, "station-ns1").unwrap();
    assert_eq!(found.code.as_deref(), Some("NS1"));
    assert!(layout_station(&bound, "station-zz9").is_none());
}

#[test]
fn the_majority_of_edges_decides_the_carried_line() {
    let snapshot = snapshot();
    // Stations 0, 2, and 3 sit on ribbon "west"; station 1 on "north".
    let placed = vec![
        vec!["west".to_string(), "north".to_string()],
        vec!["north".to_string()],
        vec!["west".to_string()],
        vec!["west".to_string()],
    ];
    // Line 1 has two edges on "west", line 2 one.
    assert_eq!(carried_line(&snapshot, &placed, "west"), Some(1));
    assert_eq!(carried_line(&snapshot, &placed, "north"), Some(0));
    assert_eq!(carried_line(&snapshot, &placed, "nowhere"), None);
}

#[test]
fn a_tie_goes_to_the_lowest_line() {
    let snapshot = snapshot();
    // Only stations 2 and 3 are placed: lines 1 and 2 both cast one vote.
    let placed = vec![
        Vec::new(),
        Vec::new(),
        vec!["south".to_string()],
        vec!["south".to_string()],
    ];
    assert_eq!(carried_line(&snapshot, &placed, "south"), Some(1));
    // A station drawn twice on the ribbon votes twice.
    let doubled = vec![
        Vec::new(),
        Vec::new(),
        vec!["south".to_string()],
        vec!["south".to_string(), "south".to_string()],
    ];
    assert_eq!(carried_line(&snapshot, &doubled, "south"), Some(1));
}

#[test]
fn the_feed_colour_comes_first_and_a_hostile_one_falls_through() {
    let snapshot = snapshot();
    let bound = bound();
    assert_eq!(line_color(&snapshot, &bound, "line-red", Some(0), "EW1"), "#D42E12");
    // The feed colour of line 1 fails the filter: the layout colour wins.
    assert_eq!(line_color(&snapshot, &bound, "line-red", Some(1), "EW1"), "#00ff00");
    // No feed colour, a hostile layout colour: the palette answers.
    assert_eq!(line_color(&snapshot, &bound, "line-plain", Some(2), "CC1"), "#fa9e0d");
    // Nothing answers: the neutral grey.
    assert_eq!(line_color(&snapshot, &bound, "line-plain", None, "ZZ1"), "#7a7f8c");
    assert_eq!(line_color(&snapshot, &bound, "line-none", Some(9), ""), "#7a7f8c");
}

#[test]
fn the_description_counts_lines_stations_and_disruptions() {
    let snapshot = snapshot();
    assert_eq!(
        describe(&snapshot, 3, 4, 0),
        "A schematic of 3 line(s) and 4 station(s), on the service day 20250505 at 08:30:00. \
         The drawing is not geographic."
    );
    assert_eq!(
        describe(&snapshot, 3, 4, 2),
        "A schematic of 3 line(s) and 4 station(s), on the service day 20250505 at 08:30:00. \
         The drawing is not geographic. 2 line(s) are marked disrupted; the notices name them."
    );
}

#[test]
fn the_page_fills_every_placeholder() {
    let snapshot = snapshot();
    let shell = "<main data-url=\"<!--MAP-SNAPSHOT-URL-->\" class=\"<!--MAP-LAMP-->\">\
                 <!--MAP-SVG--><script><!--MAP-GEOMETRY--></script>\
                 <p><!--MAP-STATUS--></p><!--MAP-NOTICES--><p><!--MAP-DATE--></p>\
                 <p><!--MAP-DEPLOYMENT--></p><!--MAP-DIAGNOSTICS-->\
                 <meta content=\"connect-src 'self'<!--MAP-CONNECT-->\"></main>";
    let extra = vec![Diagnostic::warning("layout-note", "from <the> layout".to_string())];
    let page = render_map_page(
        shell,
        "<svg></svg>",
        "{\"a\":\"</script>\"}",
        &extra,
        &snapshot,
        "https://live.example.com/map.json",
        "Refreshed <often>.",
    );
    assert!(!page.contains("<!--MAP-"));
    assert!(page.contains("data-url=\"https://live.example.com/map.json\""));
    assert!(page.contains("class=\"stale\""));
    assert!(page.contains("<svg></svg>"));
    assert!(page.contains("{\"a\":\"\\u003c/script\\u003e\"}"));
    assert!(page.contains("schedule only \u{00B7} no realtime layer"));
    assert!(page.contains("<p>20250505 at 08:30:00</p>"));
    assert!(page.contains("Refreshed &lt;often&gt;."));
    assert!(page.contains("connect-src 'self' https://live.example.com\""));
    let layout_at = page.find("layout-note").unwrap();
    let snapshot_at = page.find("snapshot-note").unwrap();
    assert!(layout_at < snapshot_at);
    assert!(page.contains("from &lt;the&gt; layout"));
}

#[test]
fn distance_spacing_falls_back_for_a_corridor_without_distances() {
    let mut config = PublicationConfig::default();
    assert_eq!(effective_spacing(false, &config), StationSpacing::Equal);
    config.diagram.station_spacing = StationSpacing::Distance;
    assert_eq!(effective_spacing(true, &config), StationSpacing::Distance);
    assert_eq!(effective_spacing(false, &config), StationSpacing::Equal);
    config.diagram.station_spacing = StationSpacing::Manual;
    assert_eq!(effective_spacing(false, &config), StationSpacing::Manual);
}

#[test]
fn a_title_template_fills_both_languages() {
    let template = LocalizedText {
        en: "{line} diagram, {date}".to_string(),
        ja: Some("{line} ダイヤ {date}".to_string()),
    };
    let title = fill_title(
        &template,
        &[("line", "NSL"), ("date", "20250505")],
        &PublicationConfig::default(),
    );
    assert_eq!(title.en, "NSL diagram, 20250505");
    assert_eq!(title.ja.as_deref(), Some("NSL ダイヤ 20250505"));
    assert!(SvgMode::Embedded != SvgMode::Standalone);
}
