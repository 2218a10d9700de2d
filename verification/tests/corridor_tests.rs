use mrtracker::common::{Line, Station};
use mrtracker::config::{BranchConfig, CorridorConfig, PublicationConfig};
use mrtracker::corridor::{
    derive_groups, is_subsequence, match_backward, match_forward, resolve_corridor, AxisDirection,
    DiagramTarget,
};
use mrtracker::error::PublicationError;
use mrtracker::schedule::{RailNetwork, StopPattern};

#[test]
fn a_subsequence_matches_in_order() {
    let spine = vec![1, 2, 3, 4, 5];
    assert_eq!(match_forward(&spine, &vec![1, 3, 5]), Some(vec![0, 2, 4]));
    assert_eq!(match_forward(&spine, &vec![2, 4]), Some(vec![1, 3]));
    assert_eq!(match_forward(&spine, &vec![3, 2]), None);
    assert_eq!(match_forward(&spine, &vec![1, 9]), None);
}

#[test]
fn a_backward_match_reads_the_axis_upwards() {
    let spine = vec![1, 2, 3, 4];
    assert_eq!(
        match_backward(&spine, &vec![4, 3, 2, 1]),
        Some(vec![3, 2, 1, 0])
    );
    assert_eq!(match_backward(&spine, &vec![4, 2]), Some(vec![3, 1]));
    assert_eq!(match_backward(&spine, &vec![1, 2]), None);
}

#[test]
fn a_repeated_station_matches_its_own_occurrence() {
    let spine = vec![1, 2, 3, 1];
    assert_eq!(
        match_forward(&spine, &vec![1, 2, 3, 1]),
        Some(vec![0, 1, 2, 3])
    );
    assert_eq!(match_forward(&spine, &vec![1, 2, 3, 1, 2, 3, 1]), None);
    assert!(is_subsequence(&spine, &vec![2, 1]));
    assert!(!is_subsequence(&spine, &vec![3, 2]));
}

fn station(id: &str, name: &str, code: &str) -> Station {
    Station {
        gtfs_id: id.to_string(),
        name: name.to_string(),
        codes: vec![code.to_string()],
        platform_stop_ids: Vec::new(),
        lines: vec![0],
    }
}

fn pattern(direction: Option<u8>, stations: Vec<usize>) -> StopPattern {
    StopPattern {
        line: 0,
        direction,
        stations,
    }
}

fn network() -> RailNetwork {
    RailNetwork {
        stations: vec![
            station("S_TE1", "Woodlands North", "TE1"),
            station("S_TE2", "Woodlands", "TE2"),
            station("S_TE3", "Woodlands South", "TE3"),
            station("S_TE4", "Springleaf", "TE4"),
            station("S_TB1", "Branch Alpha", "TB1"),
            station("S_TB2", "Branch Beta", "TB2"),
        ],
        lines: vec![
            Line {
                route_id: "TE".to_string(),
                name: "TEL".to_string(),
                long_name: None,
                color: None,
                text_color: None,
            },
            Line {
                route_id: "XX".to_string(),
                name: "Nothing".to_string(),
                long_name: None,
                color: None,
                text_color: None,
            },
        ],
        patterns: vec![
            pattern(Some(1), vec![3, 2, 1, 0]),
            pattern(Some(0), vec![1, 2]),
            pattern(Some(0), vec![0, 1, 4, 5]),
            pattern(Some(0), vec![0, 1, 2, 3]),
        ],
    }
}

#[test]
fn patterns_that_fit_no_axis_get_a_panel_and_a_report() {
    let net = network();
    let (groups, diagnostics) = derive_groups(&net, &net.patterns);
    assert_eq!(groups.len(), 2);
    assert_eq!(groups[0].stations, vec![0, 1, 2, 3]);
    assert_eq!(groups[0].label, "Woodlands North \u{2013} Springleaf");
    assert_eq!(groups[1].stations, vec![0, 1, 4, 5]);
    assert_eq!(diagnostics.len(), 2);
    assert_eq!(diagnostics[0].code, "corridor-split");
    assert!(diagnostics[0].message.starts_with("2 stop pattern group(s)"));
    assert_eq!(diagnostics[1].code, "corridor-separate-panel");
    assert_eq!(
        diagnostics[1].message,
        "the pattern Woodlands North \u{2192} Branch Beta needs its own panel"
    );
}

#[test]
fn a_longer_pattern_replaces_the_spine_it_contains() {
    let mut net = network();
    net.patterns = vec![
        pattern(Some(0), vec![1, 2]),
        pattern(Some(1), vec![2, 1, 0]),
    ];
    let (groups, diagnostics) = derive_groups(&net, &net.patterns);
    assert_eq!(groups.len(), 1);
    assert_eq!(groups[0].stations, vec![2, 1, 0]);
    assert!(diagnostics.is_empty());
}

#[test]
fn a_line_becomes_a_corridor_with_one_node_per_position() {
    let net = network();
    let plan = resolve_corridor(&net, &DiagramTarget::Line(0), &PublicationConfig::default()).unwrap();
    assert_eq!(plan.corridor.id, "te");
    assert_eq!(plan.corridor.label, "TEL");
    let keys: Vec<&str> = plan.corridor.nodes.iter().map(|n| n.key.as_str()).collect();
    assert_eq!(
        keys,
        vec![
            "S_TE1#0", "S_TE2#0", "S_TE3#0", "S_TE4#0", "S_TE1#1", "S_TE2#1", "S_TB1#0",
            "S_TB2#0"
        ]
    );
    assert_eq!(plan.corridor.panels.len(), 2);
    assert_eq!(plan.corridor.panels[1].id, "te-p1");
    assert_eq!(plan.corridor.panels[1].first_node, 4);
    assert_eq!(plan.corridor.panels[1].last_node, 7);
    assert_eq!(plan.corridor.nodes[6].panel, 1);
    assert_eq!(plan.diagnostics.len(), 2);

    let down = plan.map_run(&vec![1, 2]).unwrap();
    assert_eq!(down.nodes, vec![1, 2]);
    assert_eq!(down.direction, AxisDirection::Down);
    let up = plan.map_run(&vec![2, 1]).unwrap();
    assert_eq!(up.nodes, vec![2, 1]);
    assert_eq!(up.direction, AxisDirection::Up);
    let branch = plan.map_run(&vec![4, 5]).unwrap();
    assert_eq!(branch.nodes, vec![6, 7]);
    assert!(plan.map_run(&vec![1]).is_none());
    assert!(plan.map_run(&vec![5, 3]).is_none());
}

#[test]
fn a_line_without_a_pattern_is_an_unresolved_corridor() {
    let net = network();
    match resolve_corridor(&net, &DiagramTarget::Line(1), &PublicationConfig::default()) {
        Err(PublicationError::UnresolvedCorridor(m)) => {
            assert_eq!(m, "the line \"Nothing\" has no stop pattern")
        }
        other => panic!("unexpected {:?}", other.map(|p| p.corridor.id)),
    }
}

#[test]
fn one_pattern_is_one_panel() {
    let net = network();
    let plan = resolve_corridor(&net, &DiagramTarget::Pattern(3), &PublicationConfig::default()).unwrap();
    assert_eq!(plan.corridor.id, "pattern-3");
    assert_eq!(plan.corridor.label, "Woodlands North \u{2013} Springleaf");
    assert_eq!(plan.corridor.nodes.len(), 4);
    assert!(plan.diagnostics.is_empty());
}

fn configured() -> PublicationConfig {
    let mut config = PublicationConfig::default();
    config.corridors.push(CorridorConfig {
        id: "tel-main".into(),
        axis: vec!["TE1".into(), "TE2".into(), "Woodlands South".into(), "S_TE4".into()],
        branches: vec![BranchConfig {
            junction: "TE2".into(),
            axis: vec!["TB1".into(), "TB2".into()],
            label: None,
        }],
        ..Default::default()
    });
    config
}

#[test]
fn a_configured_corridor_places_the_branch_on_the_axis() {
    let net = network();
    let plan = resolve_corridor(
        &net,
        &DiagramTarget::Corridor("tel-main".into()),
        &configured(),
    )
    .unwrap();
    assert_eq!(plan.corridor.id, "tel-main");
    assert_eq!(plan.corridor.label, "tel-main");
    assert_eq!(plan.corridor.nodes.len(), 6);
    assert_eq!(plan.corridor.panels[1].label, "For Branch Beta");
    let run = plan.map_run(&vec![0, 1, 4]).unwrap();
    assert_eq!(run.nodes, vec![0, 1, 4]);
    assert_eq!(run.direction, AxisDirection::Down);
}

#[test]
fn a_configured_corridor_reports_what_it_cannot_resolve() {
    let net = network();
    let mut config = configured();
    config.corridors[0].axis.push("ZZ9".into());
    match resolve_corridor(&net, &DiagramTarget::Corridor("tel-main".into()), &config) {
        Err(PublicationError::UnresolvedStation(m)) => assert_eq!(
            m,
            "the corridor \"tel-main\" names the station \"ZZ9\", which is not in the feed"
        ),
        _ => panic!("expected an unresolved station"),
    }

    let mut config = configured();
    config.corridors[0].branches[0].junction = "TB1".into();
    match resolve_corridor(&net, &DiagramTarget::Corridor("tel-main".into()), &config) {
        Err(PublicationError::UnresolvedCorridor(m)) => assert_eq!(
            m,
            "the junction \"TB1\" is not on the axis of corridor \"tel-main\""
        ),
        _ => panic!("expected a junction off the axis"),
    }
}

#[test]
fn a_missing_corridor_is_an_unresolved_target() {
    let net = network();
    match resolve_corridor(&net, &DiagramTarget::Corridor("nope".into()), &configured()) {
        Err(PublicationError::UnresolvedCorridor(m)) => {
            assert_eq!(m, "the configuration defines no corridor \"nope\"")
        }
        _ => panic!("expected an unresolved corridor"),
    }
}
