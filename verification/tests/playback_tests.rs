//! The bounded playback schedule over hand-built query results.

use mrtracker::common::{Line, Station};
use mrtracker::playback::schedule;
use mrtracker::schedule::{
    FrequencyBand, RailNetwork, ScheduledCall, StopPattern, TimeExactness, TimeQuality,
    TripInstance, TripQueryResult,
};
use mrtracker::time::{GtfsTime, ServiceDate};

/// 2026-08-10 10:00:00 in Singapore.
const NOW: i64 = 1_786_327_200;

fn network() -> RailNetwork {
    let station = |id: &str, code: &str| Station {
        gtfs_id: id.to_string(),
        name: id.to_string(),
        codes: vec![code.to_string()],
        platform_stop_ids: vec![format!("{id}_P")],
        lines: vec![0],
    };
    RailNetwork {
        stations: vec![station("AAA", "TE1"), station("BBB", "TE2")],
        lines: vec![Line {
            route_id: "TE".to_string(),
            name: "TEL".to_string(),
            long_name: None,
            color: None,
            text_color: None,
        }],
        patterns: vec![StopPattern {
            line: 0,
            direction: Some(0),
            stations: vec![0, 1],
        }],
    }
}

fn call(station: usize, platform: &str, at: Option<u32>, quality: TimeQuality) -> ScheduledCall {
    ScheduledCall {
        station,
        arrival: at.map(GtfsTime::from_seconds),
        departure: at.map(|s| GtfsTime::from_seconds(s + 30)),
        pickup_allowed: true,
        drop_off_allowed: true,
        stop_headsign: None,
        platform_stop_id: platform.to_string(),
        platform_code: None,
        time_quality: quality,
    }
}

fn trip(date: ServiceDate, instance: &str, trip_id: &str, calls: Vec<ScheduledCall>) -> TripInstance {
    TripInstance {
        instance_id: instance.to_string(),
        source_trip_id: trip_id.to_string(),
        service_date: date,
        line: 0,
        pattern: 0,
        direction: Some(0),
        headsign: Some("Bravo".to_string()),
        short_name: None,
        exactness: TimeExactness::Exact,
        calls,
    }
}

/// The four days around `NOW`: yesterday, today, tomorrow, and the
/// day after, each with one run at 10:00 and one at 23:00.
fn days(with_gap: bool) -> Vec<TripQueryResult> {
    let today = ServiceDate::from_days(20675);
    (0..4)
        .map(|k| {
            let date = today.plus_days(k - 1);
            let day = date.to_text();
            let morning = trip(
                date,
                &format!("{day}:TE_M"),
                "TE_M",
                vec![
                    call(0, "AAA_P", Some(36_000), TimeQuality::Exact),
                    call(1, "BBB_P", Some(36_300), TimeQuality::Interpolated),
                ],
            );
            let gap = if with_gap && k == 1 { None } else { Some(83_100) };
            let evening = trip(
                date,
                &format!("{day}:TE_E@23:00:00"),
                "TE_E",
                vec![
                    call(0, "AAA_P", Some(82_800), TimeQuality::Exact),
                    call(1, "BBB_P", gap, TimeQuality::Exact),
                    call(0, "AAA_P", Some(83_400), TimeQuality::Exact),
                ],
            );
            TripQueryResult {
                trips: vec![morning, evening],
                frequency_bands: vec![FrequencyBand {
                    band_id: format!("{day}:TE_F"),
                    source_trip_id: "TE_F".to_string(),
                    line: 0,
                    pattern: 0,
                    direction: Some(0),
                    headsign: None,
                    start: GtfsTime::from_seconds(6 * 3600),
                    end: GtfsTime::from_seconds(7 * 3600),
                    headway_secs: 300,
                    template: vec![
                        call(0, "AAA_P", Some(0), TimeQuality::Exact),
                        call(1, "BBB_P", Some(600), TimeQuality::Exact),
                    ],
                }],
                diagnostics: Vec::new(),
            }
        })
        .collect()
}

#[test]
fn schedule_uses_service_dates_and_preserves_platform_calls() {
    let data = schedule(&network(), NOW, &days(false)).unwrap();
    assert_eq!(data.valid_until - data.generated, 36 * 3600);
    assert_eq!(data.generated - data.valid_from, 3600);
    assert!(!data.runs.is_empty());
    for run in &data.runs {
        assert_eq!(run.day.to_text().len(), 8);
        assert_eq!(run.calls.len() >= 2, true);
        for call in &run.calls {
            assert!(call.platform_stop_id.ends_with("_P"));
            assert!(call.departure >= call.arrival);
        }
    }
}

#[test]
fn only_runs_inside_the_window_are_exported() {
    let data = schedule(&network(), NOW, &days(false)).unwrap();
    // Yesterday's runs ended long ago; today's morning run is running
    // and its evening run lies ahead, as does tomorrow morning's; the
    // window closes at 22:00 tomorrow, before the later runs start.
    let ids: Vec<&str> = data.runs.iter().map(|r| r.id.as_str()).collect();
    assert_eq!(
        ids,
        vec!["20260810:TE_M", "20260810:TE_E@23:00:00", "20260811:TE_M"]
    );
    let midnight = NOW - 10 * 3600;
    assert_eq!(data.runs[0].base, midnight);
    assert_eq!(data.runs[2].base, midnight + 86400);
    assert_eq!(data.runs[0].route, "TE");
    assert_eq!(data.runs[0].headsign.as_deref(), Some("Bravo"));
    assert!(!data.runs[0].frequency);
    assert!(data.runs[1].frequency);
    assert!(data.runs[0].computed);
    assert!(!data.runs[1].computed);
    assert_eq!(data.runs[0].calls[0].arrival, 36_000);
    assert_eq!(data.runs[0].calls[0].departure, 36_030);
    assert_eq!(data.runs[0].calls[1].platform_stop_id, "BBB_P");
}

#[test]
fn a_band_covers_the_runtime_of_its_template() {
    let data = schedule(&network(), NOW, &days(false)).unwrap();
    // Today's block, 06:00 to 07:00 plus a 630 s run, ends before the
    // window opens at 09:00; tomorrow's falls inside it.
    assert_eq!(data.bands.len(), 1);
    let midnight = NOW - 10 * 3600;
    assert_eq!(data.bands[0].start, midnight + 86400 + 6 * 3600);
    assert_eq!(data.bands[0].end, midnight + 86400 + 7 * 3600 + 630);
    assert_eq!(data.bands[0].headway, 300);
    assert_eq!(data.bands[0].route, "TE");
}

#[test]
fn a_run_without_a_time_refuses_the_whole_export() {
    assert_eq!(schedule(&network(), NOW, &days(true)).err(), Some(1));
}
