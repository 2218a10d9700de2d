//! The schematic layout and its binding, over features built in the
//! test the way the export writes them.

use mrtracker::common::{Line, Station};
use mrtracker::layout::{
    BoundLayout, FeatureGeometry, Layout, LayoutDocument, LayoutFeature, UnmatchedReason,
};
use mrtracker::schedule::{RailNetwork, StopPattern};

fn station(id: &str, name: &str, codes: &[&str]) -> Station {
    Station {
        gtfs_id: id.to_string(),
        name: name.to_string(),
        codes: codes.iter().map(|c| c.to_string()).collect(),
        platform_stop_ids: vec![format!("{id}_P")],
        lines: vec![0],
    }
}

/// A small network: an interchange, two line stations, and a depot
/// halt without a public code.
fn network() -> RailNetwork {
    RailNetwork {
        stations: vec![
            station("JUR", "Jurong East", &["NS1", "EW24"]),
            station("CCK", "Choa Chu Kang", &["NS4"]),
            station("MRB", "Marina Bay", &["NS27"]),
            station("DEP", "Depot Halt", &[]),
        ],
        lines: vec![Line {
            route_id: "NS".to_string(),
            name: "NSL".to_string(),
            long_name: None,
            color: None,
            text_color: None,
        }],
        patterns: vec![StopPattern {
            line: 0,
            direction: Some(0),
            stations: vec![0, 1, 2],
        }],
    }
}

fn text(s: &str) -> Option<String> {
    Some(s.to_string())
}

fn blank_feature(kind: Option<&str>, id: Option<&str>, geometry: FeatureGeometry) -> LayoutFeature {
    LayoutFeature {
        kind: kind.map(str::to_string),
        id: id.map(str::to_string),
        geometry,
        name: None,
        mode: None,
        color: None,
        visible: None,
        branch_line: None,
        branch_node: None,
        code: None,
        line_id: None,
        has_t: false,
    }
}

/// The one line of the test layouts.
fn test_line() -> LayoutFeature {
    LayoutFeature {
        name: text("Test Line"),
        mode: text("Metro"),
        color: text("#d42e12"),
        visible: Some(true),
        ..blank_feature(Some("line"), Some("line-test"), FeatureGeometry::LineString(2))
    }
}

/// One station feature on the test line.
fn station_feature(id: &str, name: &str, code: Option<&str>) -> LayoutFeature {
    LayoutFeature {
        name: text(name),
        code: code.map(str::to_string),
        line_id: text("line-test"),
        has_t: true,
        ..blank_feature(Some("station"), Some(id), FeatureGeometry::Point(true))
    }
}

fn document(features: Vec<LayoutFeature>) -> LayoutDocument {
    LayoutDocument {
        collection: true,
        features: Some(features),
    }
}

fn layout_with(stations: Vec<LayoutFeature>) -> Layout {
    let mut features = vec![test_line()];
    features.extend(stations);
    Layout::from_document(&document(features))
}

fn layout_has(layout: &Layout, code: &str) -> bool {
    layout.diagnostics.iter().any(|d| d.code == code)
}

fn bound_has(bound: &BoundLayout, code: &str) -> bool {
    bound.diagnostics.iter().any(|d| d.code == code)
}

#[test]
fn a_station_with_an_unknown_code_is_reported() {
    let network = network();
    let layout = layout_with(vec![station_feature("station-zz9", "Nowhere", Some("ZZ9"))]);
    let bound = BoundLayout::bind(layout, &network);

    assert_eq!(bound.stations.len(), 0);
    assert_eq!(bound.unmatched.len(), 1);
    assert_eq!(bound.unmatched[0].layout_station, "station-zz9");
    assert_eq!(bound.unmatched[0].code.as_deref(), Some("ZZ9"));
    assert_eq!(bound.unmatched[0].reason, UnmatchedReason::UnknownCode);
    assert!(bound_has(&bound, "layout-station-unmatched"));
    assert!(bound
        .diagnostics
        .iter()
        .any(|d| d.subject.as_deref() == Some("station-zz9")));
}

#[test]
fn a_network_station_the_layout_misses_is_reported() {
    let network = network();
    let layout = layout_with(vec![station_feature("station-ns1", "Jurong East", Some("NS1"))]);
    let bound = BoundLayout::bind(layout, &network);

    assert_eq!(bound.stations.len(), 1);
    // The depot halt carries no code, so it is noted and not listed.
    assert_eq!(bound.uncovered.len(), network.stations.len() - 2);
    assert!(!bound.is_complete());
    assert!(bound_has(&bound, "network-station-uncovered"));
    assert!(bound_has(&bound, "network-station-without-code"));

    let marina = bound
        .uncovered
        .iter()
        .find(|station| station.name == "Marina Bay")
        .expect("Marina Bay is uncovered");
    assert_eq!(marina.codes, vec!["NS27".to_string()]);
    let order: Vec<usize> = bound.uncovered.iter().map(|s| s.station).collect();
    let mut sorted = order.clone();
    sorted.sort_unstable();
    assert_eq!(order, sorted);
}

#[test]
fn a_station_without_a_code_is_reported() {
    let network = network();
    let layout = layout_with(vec![station_feature("station-unnamed", "Somewhere", None)]);
    assert!(layout_has(&layout, "layout-station-without-code"));

    let bound = BoundLayout::bind(layout, &network);
    assert_eq!(bound.stations.len(), 0);
    assert_eq!(bound.unmatched.len(), 1);
    assert_eq!(bound.unmatched[0].reason, UnmatchedReason::NoCode);
    assert_eq!(bound.unmatched[0].code, None);
    assert!(bound_has(&bound, "layout-station-without-code"));
}

#[test]
fn a_foreign_feature_is_counted_and_reported() {
    let mut features = vec![
        test_line(),
        station_feature("station-ns1", "Jurong East", Some("NS1")),
    ];
    // A feature from another tool, and one of a kind this reader does
    // not know.
    features.push(blank_feature(None, None, FeatureGeometry::Point(true)));
    features.push(blank_feature(Some("depot"), Some("depot-1"), FeatureGeometry::Point(true)));

    let layout = Layout::from_document(&document(features));
    assert_eq!(layout.unknown_features, 2);
    assert_eq!(layout.lines.len(), 1);
    assert_eq!(layout.stations.len(), 1);
    assert!(layout_has(&layout, "layout-unknown-feature"));
    assert!(layout
        .diagnostics
        .iter()
        .any(|d| d.code == "layout-unknown-feature" && d.message.contains('2')));
}

#[test]
fn two_stations_with_one_code_are_reported() {
    let network = network();
    let layout = layout_with(vec![
        station_feature("station-ns1", "Jurong East", Some("NS1")),
        station_feature("station-ns1-again", "Jurong East", Some("ns-1")),
    ]);
    let bound = BoundLayout::bind(layout, &network);

    assert_eq!(bound.stations.len(), 2);
    assert!(bound_has(&bound, "layout-duplicate-code"));
}

#[test]
fn a_station_on_an_unknown_line_is_reported() {
    let mut feature = station_feature("station-ns1", "Jurong East", Some("NS1"));
    feature.line_id = text("line-missing");
    let layout = layout_with(vec![feature]);

    assert_eq!(layout.stations.len(), 1);
    assert!(layout_has(&layout, "layout-station-without-line"));
}

#[test]
fn malformed_geometry_is_a_diagnostic() {
    let features = vec![
        LayoutFeature {
            name: text("Short"),
            ..blank_feature(Some("line"), Some("line-short"), FeatureGeometry::LineString(1))
        },
        LayoutFeature {
            name: text("Broken"),
            code: text("NS1"),
            line_id: text("line-short"),
            has_t: true,
            ..blank_feature(Some("station"), Some("station-broken"), FeatureGeometry::Point(false))
        },
        LayoutFeature {
            name: text("Broken area"),
            code: text("NS4"),
            line_id: text("line-short"),
            has_t: true,
            ..blank_feature(Some("station-area"), Some("area-broken"), FeatureGeometry::Polygon(0))
        },
    ];
    let layout = Layout::from_document(&document(features));

    assert_eq!(layout.lines.len(), 0);
    assert_eq!(layout.stations.len(), 0);
    assert!(layout_has(&layout, "layout-line-without-geometry"));
    assert!(layout_has(&layout, "layout-station-without-position"));
    assert_eq!(
        layout
            .diagnostics
            .iter()
            .filter(|d| d.code == "layout-station-without-position")
            .count(),
        2
    );
}

#[test]
fn a_value_that_is_not_a_feature_collection_is_a_diagnostic() {
    let layout = Layout::from_document(&LayoutDocument {
        collection: false,
        features: None,
    });
    assert_eq!(layout.lines.len(), 0);
    assert!(layout_has(&layout, "layout-not-a-feature-collection"));
    assert_eq!(layout.diagnostics.len(), 1);
    assert_eq!(layout.diagnostics[0].severity, mrtracker::common::Severity::Error);
    assert_eq!(layout.unknown_features, 0);

    let layout = Layout::from_document(&LayoutDocument {
        collection: true,
        features: None,
    });
    assert!(layout_has(&layout, "layout-without-features"));
    assert_eq!(layout.diagnostics.len(), 1);
    assert_eq!(layout.diagnostics[0].severity, mrtracker::common::Severity::Error);
    assert_eq!(layout.stations.len(), 0);
}

#[test]
fn an_empty_layout_reports_every_network_station() {
    let network = network();
    let layout = Layout::from_document(&document(Vec::new()));
    let bound = BoundLayout::bind(layout, &network);

    assert_eq!(bound.stations.len(), 0);
    // Every station with a code is listed; the one without is noted.
    assert_eq!(bound.uncovered.len(), network.stations.len() - 1);
    assert!(!bound.is_complete());
}

#[test]
fn an_interchange_binds_once_per_line() {
    let network = network();
    let mut ew = station_feature("station-ew24", "Jurong East", Some("EW24"));
    ew.line_id = text("line-ew");
    let mut features = vec![
        test_line(),
        LayoutFeature {
            name: text("East West"),
            ..blank_feature(Some("line"), Some("line-ew"), FeatureGeometry::LineString(3))
        },
        station_feature("station-ns1", "Jurong East", Some("NS1")),
        ew,
    ];
    features.push(station_feature("station-ns4", "Choa Chu Kang", Some("NS4")));
    features.push(station_feature("station-ns27", "Marina Bay", Some(" ns 27 ")));
    let layout = Layout::from_document(&document(features));
    let bound = BoundLayout::bind(layout, &network);

    let jurong: Vec<_> = bound
        .stations
        .iter()
        .filter(|station| station.name == "Jurong East")
        .collect();
    assert_eq!(jurong.len(), 2);
    assert_eq!(jurong[0].station, jurong[1].station);
    assert_ne!(jurong[0].layout_line, jurong[1].layout_line);
    assert_ne!(jurong[0].code, jurong[1].code);
    // Every coded station is drawn; only the halt without a code is
    // noted, and it is no gap of the layout.
    assert!(bound.uncovered.is_empty());
    assert!(bound.unmatched.is_empty());
    assert!(bound.is_complete());
    assert_eq!(bound.station("station-ns27"), Some(2));
    assert_eq!(bound.station("station-zz"), None);
}

#[test]
fn a_line_keeps_its_properties_and_its_feature() {
    let mut branch = LayoutFeature {
        name: text("  Branch  "),
        color: text("#123456"),
        visible: Some(false),
        branch_line: text("line-test"),
        branch_node: Some(1),
        ..blank_feature(Some("line"), Some("line-branch"), FeatureGeometry::LineString(4))
    };
    branch.mode = text("   ");
    let layout = Layout::from_document(&document(vec![test_line(), branch]));

    assert_eq!(layout.lines.len(), 2);
    let line = layout.line("line-branch").expect("the branch is kept");
    assert_eq!(line.feature, 1);
    assert_eq!(line.name.as_deref(), Some("Branch"));
    assert_eq!(line.mode, None);
    assert!(!line.visible);
    let link = line.branch_of.as_ref().expect("a branch names its parent");
    assert_eq!(link.line, "line-test");
    assert_eq!(link.node_index, Some(1));
    assert!(layout.line("line-test").unwrap().visible);
    assert!(layout.line("line-nothing").is_none());
}

#[test]
fn a_duplicate_line_and_a_nameless_line_are_reported() {
    let nameless = blank_feature(Some("line"), Some("line-plain"), FeatureGeometry::LineString(2));
    let layout = Layout::from_document(&document(vec![test_line(), test_line(), nameless]));
    assert_eq!(layout.lines.len(), 2);
    assert!(layout_has(&layout, "layout-duplicate-line"));
    assert!(layout_has(&layout, "layout-line-without-name"));

    let anonymous = blank_feature(Some("line"), Some("  "), FeatureGeometry::LineString(2));
    let layout = Layout::from_document(&document(vec![anonymous]));
    assert!(layout.lines.is_empty());
    assert!(layout_has(&layout, "layout-line-without-id"));
}

#[test]
fn a_station_area_keeps_its_kind_and_a_missing_t_is_noted() {
    let mut area = station_feature("area-ns4", "Choa Chu Kang", Some("NS4"));
    area.kind = text("station-area");
    area.geometry = FeatureGeometry::Polygon(4);
    area.has_t = false;
    let layout = layout_with(vec![area]);
    assert_eq!(layout.stations.len(), 1);
    assert!(layout.stations[0].area);
    assert_eq!(layout.stations[0].feature, 1);
    assert!(layout_has(&layout, "layout-station-without-t"));
}

#[test]
fn each_layout_report_carries_the_severity_of_its_code() {
    let nameless = blank_feature(Some("line"), Some("line-plain"), FeatureGeometry::LineString(2));
    let mut area = station_feature("area-ns4", "Choa Chu Kang", None);
    area.has_t = false;
    let foreign = blank_feature(Some("label"), Some("x"), FeatureGeometry::Point(true));
    let layout = Layout::from_document(&document(vec![test_line(), test_line(), nameless, area, foreign]));
    let severity_of = |code: &str| {
        layout
            .diagnostics
            .iter()
            .find(|d| d.code == code)
            .map(|d| d.severity.clone())
    };
    assert_eq!(severity_of("layout-duplicate-line"), Some(mrtracker::common::Severity::Warning));
    assert_eq!(severity_of("layout-line-without-name"), Some(mrtracker::common::Severity::Info));
    assert_eq!(severity_of("layout-station-without-code"), Some(mrtracker::common::Severity::Warning));
    assert_eq!(severity_of("layout-station-without-t"), Some(mrtracker::common::Severity::Info));
    assert_eq!(severity_of("layout-unknown-feature"), Some(mrtracker::common::Severity::Warning));
}

#[test]
fn a_layout_binds_itself_as_the_binder_does() {
    let network = network();
    let layout = layout_with(vec![station_feature("jur", "Jurong East", Some("NS1"))]);
    let again = layout_with(vec![station_feature("jur", "Jurong East", Some("NS1"))]);
    let bound = layout.bind(&network);
    let direct = BoundLayout::bind(again, &network);
    assert_eq!(bound.stations.len(), direct.stations.len());
    assert_eq!(bound.stations[0].station, direct.stations[0].station);
    assert_eq!(bound.uncovered.len(), direct.uncovered.len());
}

#[test]
fn each_layout_report_says_what_it_is_about() {
    let mut nameless = station_feature("cck", "Choa Chu Kang", None);
    nameless.has_t = false;
    let layout = layout_with(vec![nameless]);
    let code = layout.diagnostics.iter().find(|d| d.code == "layout-station-without-code").unwrap();
    assert_eq!(code.subject.as_deref(), Some("cck"));
    assert_eq!(
        code.message,
        "this station feature carries no station code, so it cannot bind to a network station"
    );
    let layout = Layout::from_document(&LayoutDocument { collection: false, features: None });
    assert_eq!(
        layout.diagnostics[0].message,
        "the layout is not a GeoJSON FeatureCollection, so it carries no line and no station"
    );
    assert_eq!(layout.diagnostics[0].subject, None);
}
