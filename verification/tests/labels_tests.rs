use mrtracker::common::{clock_hhmm, css_color, css_key, service_hhmm, DepartureFlag};
use mrtracker::config::{
    BranchConfig, CorridorConfig, LabelConfig, PublicationConfig, CONFIG_VERSION,
};
use mrtracker::error::{GtfsError, PublicationError};
use mrtracker::text::{parse_language, Labels, Language, LocalizedText};
use mrtracker::time::{parse_date, parse_time};

#[test]
fn css_keys_are_safe_and_stable() {
    assert_eq!(css_key("NS"), "ns");
    assert_eq!(css_key("CC_a"), "cc-a");
    assert_eq!(css_key("EW 24 / X"), "ew-24-x");
    assert_eq!(css_key("--"), "x");
    assert_eq!(css_key(""), "x");
}

#[test]
fn css_colors_only_carry_hexadecimal_digits() {
    assert_eq!(css_color("D42E12"), "#D42E12");
    assert_eq!(css_color("#D42E12"), "#D42E12");
    assert_eq!(css_color("red;}body{display:none"), "");
    assert_eq!(css_color(""), "");
}

#[test]
fn clock_formatting_wraps_past_midnight() {
    let late = parse_time("25:35:00").unwrap();
    assert_eq!(clock_hhmm(late), "01:35");
    assert_eq!(service_hhmm(late), "25:35");
}

#[test]
fn flags_carry_distinct_symbols() {
    let all = [
        DepartureFlag::Approximate,
        DepartureFlag::Interpolated,
        DepartureFlag::FirstOfDay,
        DepartureFlag::LastOfDay,
        DepartureFlag::PastMidnight,
    ];
    let mut symbols: Vec<&str> = all.iter().map(|f| f.symbol()).collect();
    symbols.sort_unstable();
    symbols.dedup();
    assert_eq!(symbols.len(), all.len());
}

#[test]
fn the_default_service_day_runs_from_04_00_to_28_00() {
    let config = PublicationConfig::default();
    assert_eq!(config.day_start.to_text(), "04:00:00");
    assert_eq!(config.day_end().to_text(), "28:00:00");
    assert!(config.check(true).is_ok());
}

#[test]
fn a_wrong_schema_version_is_rejected() {
    let config = PublicationConfig {
        version: 99,
        ..Default::default()
    };
    assert!(config.check(true).unwrap_err().contains("version"));
}

#[test]
fn impossible_layouts_are_rejected() {
    let mut config = PublicationConfig::default();
    config.timetable.columns = 0;
    assert!(config.check(true).unwrap_err().contains("columns"));

    let mut config = PublicationConfig::default();
    config.diagram.minor_grid_minutes = 0;
    assert!(config.check(true).unwrap_err().contains("minor_grid_minutes"));
}

#[test]
fn a_non_positive_geometry_is_rejected() {
    let config = PublicationConfig::default();
    assert!(config.check(false).unwrap_err().contains("greater than zero"));
}

#[test]
fn a_branch_junction_must_lie_on_the_axis() {
    let mut config = PublicationConfig::default();
    config.corridors.push(CorridorConfig {
        id: "main".into(),
        axis: vec!["A".into(), "B".into()],
        branches: vec![BranchConfig {
            junction: "Z".into(),
            axis: vec!["C".into()],
            label: None,
        }],
        ..Default::default()
    });
    assert!(config.check(true).unwrap_err().contains("junction"));
}

#[test]
fn duplicate_corridor_ids_are_rejected() {
    let mut config = PublicationConfig::default();
    for _ in 0..2 {
        config.corridors.push(CorridorConfig {
            id: "main".into(),
            axis: vec!["A".into(), "B".into()],
            ..Default::default()
        });
    }
    assert!(config.check(true).unwrap_err().contains("twice"));
}

#[test]
fn a_corridor_is_found_by_its_identifier() {
    let mut config = PublicationConfig::default();
    config.corridors.push(CorridorConfig {
        id: "tel-main".into(),
        axis: vec!["TE1".into(), "TE2".into()],
        ..Default::default()
    });
    assert_eq!(config.corridor("tel-main").map(|c| c.axis.len()), Some(2));
    assert!(config.corridor("nope").is_none());
    assert_eq!(config.version, CONFIG_VERSION);
}

#[test]
fn direction_overrides_use_a_stable_key() {
    let mut labels = LabelConfig::default();
    labels.direction_overrides.push((
        "NS:0".to_string(),
        LocalizedText::both("Southbound", "下り"),
    ));
    assert_eq!(
        labels
            .direction_override("NS", Some(0), Language::Ja)
            .as_deref(),
        Some("下り")
    );
    assert_eq!(labels.direction_override("NS", Some(1), Language::En), None);
    assert_eq!(LabelConfig::direction_key("NS", None), "NS:none");
}

#[test]
fn abbreviations_fall_back_to_the_full_name() {
    let mut labels = LabelConfig::default();
    labels
        .destination_abbreviations
        .push(("Marina Bay".into(), "Mar Bay".into()));
    assert_eq!(labels.abbreviate("Marina Bay"), "Mar Bay");
    assert_eq!(labels.abbreviate("Jurong East"), "Jurong East");
}

#[test]
fn localized_text_falls_back_to_english() {
    let only_en = LocalizedText::en("Departures");
    assert_eq!(only_en.get(Language::Ja), "Departures");

    let both = LocalizedText::both("Departures", "発車時刻表");
    assert_eq!(both.get(Language::En), "Departures");
    assert_eq!(both.get(Language::Ja), "発車時刻表");
}

#[test]
fn placeholders_fill_in_both_forms() {
    let template = LocalizedText::both("{station} departures", "{station} 発車時刻表");
    let filled = template.fill(&[("station", "Jurong East")]);
    assert_eq!(filled.en, "Jurong East departures");
    assert_eq!(filled.ja.as_deref(), Some("Jurong East 発車時刻表"));
}

#[test]
fn a_placeholder_without_a_value_stays_as_written() {
    let template = LocalizedText::en("{line} at {station}");
    let filled = template.fill(&[("station", "Woodlands")]);
    assert_eq!(filled.en, "{line} at Woodlands");
    assert_eq!(filled.ja, None);
}

#[test]
fn a_direction_label_never_guesses_a_compass_bearing() {
    let en = Labels::for_language(Language::En);
    let ja = Labels::for_language(Language::Ja);
    assert_eq!(en.direction_number(Some(0)), "Direction 0");
    assert_eq!(en.direction_number(None), "Direction not stated");
    assert_eq!(ja.direction_number(Some(1)), "方向 1");
}

#[test]
fn a_headway_band_says_that_it_is_approximate() {
    let en = Labels::for_language(Language::En);
    let ja = Labels::for_language(Language::Ja);
    let text = en.headway_band("06:30", "09:00", 4);
    assert!(text.contains("approximately"), "{text}");
    assert!(ja.headway_band("06:30", "09:00", 4).contains("約4分間隔"));
}

#[test]
fn languages_parse_from_configuration_strings() {
    assert_eq!(parse_language("ja").unwrap(), Language::Ja);
    assert_eq!(parse_language("English").unwrap(), Language::En);
    assert!(parse_language("de").is_err());
}

#[test]
fn service_dates_carry_a_weekday() {
    let date = parse_date("20260810").unwrap();
    let en = Labels::for_language(Language::En);
    let ja = Labels::for_language(Language::Ja);
    assert_eq!(en.service_date_text(date), "2026-08-10 (Mon)");
    assert_eq!(ja.service_date_text(date), "2026-08-10 (月)");
}

#[test]
fn exit_codes_follow_the_command_line_contract() {
    assert_eq!(PublicationError::Configuration("x".into()).exit_code(), 2);
    assert_eq!(
        PublicationError::UnresolvedStation("x".into()).exit_code(),
        5
    );
    assert_eq!(
        PublicationError::Gtfs(GtfsError::PolicyViolation("x".into())).exit_code(),
        6
    );
    assert_eq!(
        PublicationError::Gtfs(GtfsError::Other("no calendar".into())).exit_code(),
        4
    );
    assert_eq!(PublicationError::UnresolvedLine("x".into()).exit_code(), 5);
    assert_eq!(PublicationError::UnresolvedCorridor("x".into()).exit_code(), 5);
}

#[test]
fn times_and_dates_read_back_as_written() {
    assert_eq!(parse_time("08:05:00").unwrap().to_text(), "08:05:00");
    assert_eq!(parse_time("25:35:00").unwrap().to_text(), "25:35:00");
    assert!(parse_time("8:5").is_none());
    assert!(parse_time("08:60:00").is_none());
    assert_eq!(parse_date("20260810").unwrap().to_text(), "20260810");
    assert!(parse_date("20260230").is_none());
    assert!(parse_date("2026081").is_none());
}

#[test]
fn a_css_key_is_its_own_key() {
    for input in ["NS", "CC_a", "EW 24 / X", "--", "", "a--b", "-Ab-", "東西 7"] {
        let key = css_key(input);
        assert_eq!(css_key(&key), key);
        assert!(!key.contains("--"));
        let letters: String = input
            .chars()
            .filter(|c| c.is_ascii_alphanumeric())
            .map(|c| c.to_ascii_lowercase())
            .collect();
        if letters.is_empty() {
            assert_eq!(key, "x");
        } else {
            assert_eq!(key.replace('-', ""), letters);
        }
    }
    assert_eq!(css_key("a--b"), "a-b");
    assert_eq!(css_key("東西 7"), "7");
}

#[test]
fn the_views_of_a_network_line_and_station() {
    use_views();
}

fn use_views() {
    let network = mrtracker::schedule::RailNetwork {
        stations: vec![mrtracker::common::Station {
            gtfs_id: "JUR".to_string(),
            name: "Jurong East".to_string(),
            codes: vec!["NS1".to_string(), "EW24".to_string()],
            platform_stop_ids: Vec::new(),
            lines: vec![0],
        }],
        lines: vec![mrtracker::common::Line {
            route_id: "NS_L".to_string(),
            name: "NSL".to_string(),
            long_name: Some("North South Line".to_string()),
            color: Some("D42E12".to_string()),
            text_color: Some("not a colour".to_string()),
        }],
        patterns: Vec::new(),
    };
    let s = mrtracker::common::StationView::of(&network, 0);
    assert_eq!(s.name, "Jurong East");
    assert_eq!(s.codes, vec!["NS1".to_string(), "EW24".to_string()]);
    let l = mrtracker::common::LineView::of(&network, 0);
    assert_eq!(l.name, "NSL");
    assert_eq!(l.color.as_deref(), Some("#D42E12"));
    assert_eq!(l.text_color.as_deref(), Some(""));
    assert_eq!(l.key, "ns-l");
}
