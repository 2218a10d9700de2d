//! The live destination board of one station.
//!
//! The board merges the live layers into the scheduled calls of the
//! station: the realtime predictions move a row to its predicted time,
//! drop a call that the run skips, and flag a canceled run at its
//! scheduled slot; the service alerts flag the rows they name; the
//! crowd records give the station's worst crowd level; and the alert
//! texts become the notices. Every layer is optional: without one the
//! board shows the static schedule.
//!
//! A trip update reaches a row only where the decision table of the
//! matching module attaches it to that run.

use vstd::prelude::*;

use crate::common::{string_views, Line, Station};
use crate::matching::{
    index_of_feed, lemma_index_names_updates, lemma_lookup_sound, named_updates, scan_from, RunKey,
    TripMatch, TripUpdateIndex,
};
use crate::map::{delay_or_zero, either};
use crate::realtime::{
    ActivePeriod, Alert, AlertEffect, InformedEntity, RailRtFeed, StopTimeEvent, StopTimeUpdate,
    TripUpdate,
};
use crate::schedule::RailNetwork;
use crate::status::{
    code_list, crowd_severity, line_of_code, match_line_spec, match_train_line, message_texts,
    severity_of, CrowdLevel, PlatformCrowd, ServiceStatus, TrainLine, TrainServiceAlerts,
};
use crate::textbuf::{chars_of, lower_seq, owned, str_eq, to_lower_chars, trim, trim_white};
use crate::time::{time_text, GtfsTime, ServiceDate};
use crate::timetable::opt_view;

verus! {

// ----------------------------------------------------------------------
// Service alerts
// ----------------------------------------------------------------------

/// Whether a period holds a moment.
pub open spec fn period_covers(p: ActivePeriod, now: u64) -> bool {
    (match p.start {
        Some(s) => s <= now,
        None => true,
    }) && (match p.end {
        Some(e) => now <= e,
        None => true,
    })
}

/// Whether an alert applies at a moment: always without a period,
/// otherwise while one of its periods holds the moment.
pub open spec fn alert_active(a: Alert, now: u64) -> bool {
    a.active_periods@.len() == 0 || exists|k: int|
        0 <= k < a.active_periods@.len() && period_covers(#[trigger] a.active_periods@[k], now)
}

/// Whether an effect stops the service.
pub open spec fn stops_service(e: AlertEffect) -> bool {
    e == AlertEffect::NoService
}

/// Whether an effect disturbs the service without stopping it: reduced
/// service, significant delays, or a detour. A modified service is a
/// planned schedule, not a disturbance.
pub open spec fn disturbs_service(e: AlertEffect) -> bool {
    e == AlertEffect::ReducedService || e == AlertEffect::SignificantDelays || e
        == AlertEffect::Detour
}

/// The text of an alert: its headline, else its description; a blank
/// text is none.
pub open spec fn alert_text(a: Alert) -> Option<Seq<char>> {
    match a.header {
        Some(h) if trim_white(h@).len() > 0 => Some(h@),
        _ => match a.description {
            Some(d) if trim_white(d@).len() > 0 => Some(d@),
            _ => None,
        },
    }
}

impl AlertEffect {
    /// Report whether the effect stops the service.
    pub fn stops_service(self) -> (b: bool)
        ensures
            b == stops_service(self),
    {
        matches!(self, AlertEffect::NoService)
    }

    /// Report whether the effect disturbs the service without a delay
    /// figure.
    pub fn disturbs_service(self) -> (b: bool)
        ensures
            b == disturbs_service(self),
    {
        matches!(
            self,
            AlertEffect::ReducedService | AlertEffect::SignificantDelays | AlertEffect::Detour
        )
    }
}

fn not_blank(s: &String) -> (b: bool)
    ensures
        b == (trim_white(s@).len() > 0),
{
    let t = trim(&chars_of(s.as_str()));
    !t.as_str().is_empty()
}

impl Alert {
    /// Report whether the alert applies at a POSIX time.
    pub fn is_active(&self, now: u64) -> (b: bool)
        ensures
            b == alert_active(*self, now),
    {
        if self.active_periods.len() == 0 {
            return true;
        }
        let mut k: usize = 0;
        while k < self.active_periods.len()
            invariant
                k <= self.active_periods@.len(),
                forall|j: int| 0 <= j < k ==> !period_covers(self.active_periods@[j], now),
            decreases self.active_periods@.len() - k,
        {
            let p = self.active_periods[k];
            let after_start = match p.start {
                Some(s) => s <= now,
                None => true,
            };
            let before_end = match p.end {
                Some(e) => now <= e,
                None => true,
            };
            if after_start && before_end {
                proof {
                    assert(period_covers(self.active_periods@[k as int], now));
                }
                return true;
            }
            k = k + 1;
        }
        false
    }

    /// Get the text of the alert, where it has one that is not blank.
    pub fn text(&self) -> (r: Option<&str>)
        ensures
            match alert_text(*self) {
                Some(t) => r matches Some(s) && s@ == t,
                None => r is None,
            },
    {
        match &self.header {
            Some(h) => if not_blank(h) {
                return Some(h.as_str());
            },
            None => {},
        }
        match &self.description {
            Some(d) => if not_blank(d) {
                return Some(d.as_str());
            },
            None => {},
        }
        None
    }
}

/// Whether a list of strings holds a text.
pub open spec fn holds_text(list: Seq<String>, t: Seq<char>) -> bool {
    exists|k: int| 0 <= k < list.len() && (#[trigger] list[k])@ == t
}

fn list_holds(list: &Vec<String>, t: &str) -> (b: bool)
    ensures
        b == holds_text(list@, t@),
{
    let mut k: usize = 0;
    while k < list.len()
        invariant
            k <= list@.len(),
            forall|j: int| 0 <= j < k ==> list@[j]@ != t@,
        decreases list@.len() - k,
    {
        if str_eq(list[k].as_str(), t) {
            return true;
        }
        k = k + 1;
    }
    false
}

/// Whether an entity names the departure of a trip of a route from one
/// of the platforms.
pub open spec fn names_departure(
    e: InformedEntity,
    trip: Seq<char>,
    route: Seq<char>,
    platforms: Seq<String>,
) -> bool {
    ||| (e.trip_id matches Some(t) && t@ == trip)
    ||| (e.route_id matches Some(r) && r@ == route)
    ||| (e.stop_id matches Some(s) && holds_text(platforms, s@))
}

/// Whether an alert names the departure.
pub open spec fn alert_names_departure(
    a: Alert,
    trip: Seq<char>,
    route: Seq<char>,
    platforms: Seq<String>,
) -> bool {
    exists|k: int|
        0 <= k < a.informed@.len() && names_departure(#[trigger] a.informed@[k], trip, route, platforms)
}

/// The cancel and disturbance flags that the first `m` alerts give a
/// departure.
pub open spec fn alert_flags(
    alerts: Seq<Alert>,
    now: u64,
    trip: Seq<char>,
    route: Seq<char>,
    platforms: Seq<String>,
    m: int,
) -> (bool, bool)
    decreases m,
{
    if m <= 0 {
        (false, false)
    } else {
        let prev = alert_flags(alerts, now, trip, route, platforms, m - 1);
        let a = alerts[m - 1];
        if alert_active(a, now) && alert_names_departure(a, trip, route, platforms) {
            (prev.0 || stops_service(a.effect), prev.1 || disturbs_service(a.effect))
        } else {
            prev
        }
    }
}

fn entity_names_departure(e: &InformedEntity, trip: &str, route: &str, platforms: &Vec<String>) -> (b:
    bool)
    ensures
        b == names_departure(*e, trip@, route@, platforms@),
{
    let by_trip = match &e.trip_id {
        Some(t) => str_eq(t.as_str(), trip),
        None => false,
    };
    let by_route = match &e.route_id {
        Some(r) => str_eq(r.as_str(), route),
        None => false,
    };
    let by_stop = match &e.stop_id {
        Some(s) => list_holds(platforms, s.as_str()),
        None => false,
    };
    by_trip || by_route || by_stop
}

fn alert_reaches(a: &Alert, trip: &str, route: &str, platforms: &Vec<String>) -> (b: bool)
    ensures
        b == alert_names_departure(*a, trip@, route@, platforms@),
{
    let mut k: usize = 0;
    while k < a.informed.len()
        invariant
            k <= a.informed@.len(),
            forall|j: int| 0 <= j < k ==> !names_departure(a.informed@[j], trip@, route@, platforms@),
        decreases a.informed@.len() - k,
    {
        if entity_names_departure(&a.informed[k], trip, route, platforms) {
            return true;
        }
        k = k + 1;
    }
    false
}

// ----------------------------------------------------------------------
// Crowding
// ----------------------------------------------------------------------

/// Whether two texts are equal ignoring ASCII case.
pub open spec fn same_ignoring_case(a: Seq<char>, b: Seq<char>) -> bool {
    lower_seq(a) == lower_seq(b)
}

/// The worse of a crowd level so far and a new one: the new one where
/// it ranks strictly higher.
pub open spec fn worse_crowd(worst: Option<CrowdLevel>, level: CrowdLevel) -> Option<CrowdLevel> {
    if severity_of(level) > match worst {
        Some(w) => severity_of(w),
        None => 0u8,
    } {
        Some(level)
    } else {
        worst
    }
}

/// The worst level among the first `j` records of a code.
pub open spec fn crowd_of_code(
    code: Seq<char>,
    crowd: Seq<PlatformCrowd>,
    worst: Option<CrowdLevel>,
    j: int,
) -> Option<CrowdLevel>
    decreases j,
{
    if j <= 0 {
        worst
    } else {
        let prev = crowd_of_code(code, crowd, worst, j - 1);
        if same_ignoring_case(crowd[j - 1].station@, code) {
            worse_crowd(prev, crowd[j - 1].crowd_level)
        } else {
            prev
        }
    }
}

/// The worst live crowd level among the first `i` codes of a station.
pub open spec fn station_crowd_spec(codes: Seq<String>, crowd: Seq<PlatformCrowd>, i: int) -> Option<
    CrowdLevel,
>
    decreases i,
{
    if i <= 0 {
        None
    } else {
        crowd_of_code(
            codes[i - 1]@,
            crowd,
            station_crowd_spec(codes, crowd, i - 1),
            crowd.len() as int,
        )
    }
}

fn same_code(a: &str, b: &str) -> (r: bool)
    ensures
        r == same_ignoring_case(a@, b@),
{
    let x = to_lower_chars(&chars_of(a));
    let y = to_lower_chars(&chars_of(b));
    crate::textbuf::chars_eq(&x, &y)
}

/// Get the worst live crowd level among the codes of a station.
pub fn station_crowd(codes: &Vec<String>, crowd: &[PlatformCrowd]) -> (r: Option<CrowdLevel>)
    ensures
        r == station_crowd_spec(codes@, crowd@, codes@.len() as int),
{
    let mut worst: Option<CrowdLevel> = None;
    let mut i: usize = 0;
    while i < codes.len()
        invariant
            i <= codes@.len(),
            worst == station_crowd_spec(codes@, crowd@, i as int),
        decreases codes@.len() - i,
    {
        let ghost start = worst;
        let mut j: usize = 0;
        while j < crowd.len()
            invariant
                j <= crowd@.len(),
                i < codes@.len(),
                worst == crowd_of_code(codes@[i as int]@, crowd@, start, j as int),
            decreases crowd@.len() - j,
        {
            if same_code(crowd[j].station.as_str(), codes[i].as_str()) {
                let level = crowd[j].crowd_level;
                let current = match worst {
                    Some(w) => crowd_severity(w),
                    None => 0,
                };
                if crowd_severity(level) > current {
                    worst = Some(level);
                }
            }
            j = j + 1;
        }
        i = i + 1;
    }
    worst
}

// ----------------------------------------------------------------------
// Notices
// ----------------------------------------------------------------------

/// Whether the network names only lines it holds from its stations.
pub open spec fn stations_name_lines(network: RailNetwork) -> bool {
    forall|s: int, k: int|
        0 <= s < network.stations@.len() && 0 <= k < network.stations@[s].lines@.len() ==> (
        #[trigger] network.stations@[s].lines@[k]) < network.lines@.len()
}

/// Whether a line of the operator's alerts serves a station.
pub open spec fn serves_station(network: RailNetwork, station: Station, l: TrainLine) -> bool {
    exists|k: int|
        0 <= k < station.lines@.len() && match_line_spec(
            network.lines@[(#[trigger] station.lines@[k]) as int],
        ) == Some(l)
}

/// Whether a text is one of the codes of a station, ignoring ASCII case.
pub open spec fn station_has_code(station: Station, code: Seq<char>) -> bool {
    exists|k: int|
        0 <= k < station.codes@.len() && same_ignoring_case((#[trigger] station.codes@[k])@, code)
}

/// Whether an affected segment concerns a station: its line serves the
/// station, or it names one of the station's codes.
pub open spec fn segment_touches(
    network: RailNetwork,
    station: Station,
    seg: crate::status::AffectedSegment,
) -> bool {
    (line_of_code(seg.line@) matches Some(l) && serves_station(network, station, l)) || exists|
        c: int,
    |
        0 <= c < code_list(seg.stations@).len() && station_has_code(
            station,
            #[trigger] code_list(seg.stations@)[c],
        )
}

/// The operator's messages for a station: all of them, while the
/// network is disrupted and a segment concerns the station.
pub open spec fn legacy_notices_spec(
    alerts: Option<TrainServiceAlerts>,
    network: RailNetwork,
    station: Station,
) -> Seq<Seq<char>> {
    match alerts {
        None => Seq::empty(),
        Some(a) => if a.status != ServiceStatus::Disrupted {
            Seq::empty()
        } else if exists|k: int|
            0 <= k < a.affected_segments@.len() && segment_touches(
                network,
                station,
                #[trigger] a.affected_segments@[k],
            ) {
            message_texts(a.messages@)
        } else {
            Seq::empty()
        },
    }
}

/// The routes of the lines that serve a station.
pub open spec fn station_routes(network: RailNetwork, station: Station) -> Seq<Seq<char>> {
    station.lines@.map_values(|l: usize| network.lines@[l as int].route_id@)
}

/// Whether an entity names a route of the station or one of its
/// platforms.
pub open spec fn names_station(e: InformedEntity, routes: Seq<Seq<char>>, platforms: Seq<String>) -> bool {
    ||| (e.route_id matches Some(r) && routes.contains(r@))
    ||| (e.stop_id matches Some(s) && holds_text(platforms, s@))
}

/// Whether an alert names a route of the station or one of its
/// platforms.
pub open spec fn alert_names_station(a: Alert, routes: Seq<Seq<char>>, platforms: Seq<String>) -> bool {
    exists|k: int| 0 <= k < a.informed@.len() && names_station(#[trigger] a.informed@[k], routes, platforms)
}

/// The texts of the first `m` alerts that apply and name the station,
/// each once.
pub open spec fn station_alert_texts(
    alerts: Seq<Alert>,
    now: u64,
    routes: Seq<Seq<char>>,
    platforms: Seq<String>,
    m: int,
) -> Seq<Seq<char>>
    decreases m,
{
    if m <= 0 {
        Seq::empty()
    } else {
        let prev = station_alert_texts(alerts, now, routes, platforms, m - 1);
        let a = alerts[m - 1];
        if alert_active(a, now) && alert_names_station(a, routes, platforms) {
            match alert_text(a) {
                Some(t) => if prev.contains(t) {
                    prev
                } else {
                    prev.push(t)
                },
                None => prev,
            }
        } else {
            prev
        }
    }
}

/// The first texts followed by the texts of the extra list that they
/// do not already hold.
pub open spec fn merged_notices(base: Seq<Seq<char>>, extra: Seq<Seq<char>>, m: int) -> Seq<Seq<char>>
    decreases m,
{
    if m <= 0 {
        base
    } else {
        let prev = merged_notices(base, extra, m - 1);
        if prev.contains(extra[m - 1]) {
            prev
        } else {
            prev.push(extra[m - 1])
        }
    }
}

/// The notices of a station: the operator's messages, then the texts
/// of the service alerts that apply now and name the station.
pub open spec fn notices_spec(
    alerts: Option<TrainServiceAlerts>,
    rt_alerts: Seq<Alert>,
    now: Option<u64>,
    network: RailNetwork,
    station: Station,
) -> Seq<Seq<char>> {
    let legacy = legacy_notices_spec(alerts, network, station);
    match now {
        None => legacy,
        Some(n) => {
            let texts = station_alert_texts(
                rt_alerts,
                n,
                station_routes(network, station),
                station.platform_stop_ids@,
                rt_alerts.len() as int,
            );
            merged_notices(legacy, texts, texts.len() as int)
        },
    }
}

fn serves(network: &RailNetwork, station: &Station, l: TrainLine) -> (b: bool)
    requires
        forall|k: int| 0 <= k < station.lines@.len() ==> station.lines@[k] < network.lines@.len(),
    ensures
        b == serves_station(*network, *station, l),
{
    let mut k: usize = 0;
    while k < station.lines.len()
        invariant
            k <= station.lines@.len(),
            forall|j: int| 0 <= j < station.lines@.len() ==> station.lines@[j] < network.lines@.len(),
            forall|j: int|
                0 <= j < k ==> match_line_spec(network.lines@[station.lines@[j] as int]) != Some(l),
        decreases station.lines@.len() - k,
    {
        match match_train_line(&network.lines[station.lines[k]]) {
            Some(m) => {
                if m == l {
                    return true;
                }
            },
            None => {},
        }
        k = k + 1;
    }
    false
}

fn has_code_of(station: &Station, code: &str) -> (b: bool)
    ensures
        b == station_has_code(*station, code@),
{
    let mut k: usize = 0;
    while k < station.codes.len()
        invariant
            k <= station.codes@.len(),
            forall|j: int| 0 <= j < k ==> !same_ignoring_case(station.codes@[j]@, code@),
        decreases station.codes@.len() - k,
    {
        if same_code(station.codes[k].as_str(), code) {
            return true;
        }
        k = k + 1;
    }
    false
}

fn touches(network: &RailNetwork, station: &Station, seg: &crate::status::AffectedSegment) -> (b:
    bool)
    requires
        forall|k: int| 0 <= k < station.lines@.len() ==> station.lines@[k] < network.lines@.len(),
    ensures
        b == segment_touches(*network, *station, *seg),
{
    match seg.train_line() {
        Some(l) => {
            if serves(network, station, l) {
                return true;
            }
        },
        None => {},
    }
    let codes = seg.station_codes();
    let mut c: usize = 0;
    while c < codes.len()
        invariant
            c <= codes@.len(),
            string_views(codes@) == code_list(seg.stations@),
            forall|j: int| 0 <= j < c ==> !station_has_code(*station, code_list(seg.stations@)[j]),
        decreases codes@.len() - c,
    {
        proof {
            assert(string_views(codes@)[c as int] == codes@[c as int]@);
        }
        if has_code_of(station, codes[c].as_str()) {
            return true;
        }
        c = c + 1;
    }
    false
}

#[verifier::loop_isolation(false)]
fn legacy_notices(
    alerts: Option<&TrainServiceAlerts>,
    network: &RailNetwork,
    station: &Station,
) -> (r: Vec<String>)
    requires
        forall|k: int| 0 <= k < station.lines@.len() ==> station.lines@[k] < network.lines@.len(),
    ensures
        string_views(r@) == legacy_notices_spec(
            match alerts {
                Some(a) => Some(*a),
                None => None,
            },
            *network,
            *station,
        ),
{
    let a = match alerts {
        None => return Vec::new(),
        Some(a) => a,
    };
    if a.status != ServiceStatus::Disrupted {
        return Vec::new();
    }
    let mut k: usize = 0;
    while k < a.affected_segments.len()
        invariant
            k <= a.affected_segments@.len(),
            forall|j: int| 0 <= j < station.lines@.len() ==> station.lines@[j] < network.lines@.len(),
            forall|j: int| 0 <= j < k ==> !segment_touches(*network, *station, a.affected_segments@[j]),
        decreases a.affected_segments@.len() - k,
    {
        if touches(network, station, &a.affected_segments[k]) {
            let mut out: Vec<String> = Vec::new();
            let mut m: usize = 0;
            while m < a.messages.len()
                invariant
                    m <= a.messages@.len(),
                    string_views(out@) == message_texts(a.messages@.take(m as int)),
                decreases a.messages@.len() - m,
            {
                let ghost before = out@;
                out.push(owned(a.messages[m].content.as_str()));
                proof {
                    assert(string_views(out@) =~= string_views(before).push(a.messages@[m as int].content@));
                    assert(message_texts(a.messages@.take(m + 1)) =~= message_texts(
                        a.messages@.take(m as int),
                    ).push(a.messages@[m as int].content@));
                }
                m = m + 1;
            }
            proof {
                assert(a.messages@.take(a.messages@.len() as int) =~= a.messages@);
            }
            return out;
        }
        k = k + 1;
    }
    Vec::new()
}

fn route_ids(network: &RailNetwork, station: &Station) -> (r: Vec<String>)
    requires
        forall|k: int| 0 <= k < station.lines@.len() ==> station.lines@[k] < network.lines@.len(),
    ensures
        string_views(r@) == station_routes(*network, *station),
{
    let mut out: Vec<String> = Vec::new();
    let mut k: usize = 0;
    while k < station.lines.len()
        invariant
            k <= station.lines@.len(),
            forall|j: int| 0 <= j < station.lines@.len() ==> station.lines@[j] < network.lines@.len(),
            string_views(out@) == station_routes(*network, *station).take(k as int),
        decreases station.lines@.len() - k,
    {
        let ghost before = out@;
        out.push(owned(network.lines[station.lines[k]].route_id.as_str()));
        proof {
            assert(string_views(out@) =~= string_views(before).push(
                network.lines@[station.lines@[k as int] as int].route_id@,
            ));
            assert(string_views(out@) =~= station_routes(*network, *station).take(k + 1));
        }
        k = k + 1;
    }
    proof {
        assert(station_routes(*network, *station).take(station.lines@.len() as int) =~= station_routes(
            *network,
            *station,
        ));
    }
    out
}

fn entity_names_station(e: &InformedEntity, routes: &Vec<String>, platforms: &Vec<String>) -> (b:
    bool)
    ensures
        b == names_station(*e, string_views(routes@), platforms@),
{
    let by_route = match &e.route_id {
        Some(r) => list_holds(routes, r.as_str()),
        None => false,
    };
    proof {
        match &e.route_id {
            Some(r) => lemma_holds_text_views(routes@, r@),
            None => {},
        }
    }
    let by_stop = match &e.stop_id {
        Some(s) => list_holds(platforms, s.as_str()),
        None => false,
    };
    by_route || by_stop
}

fn alert_reaches_station(a: &Alert, routes: &Vec<String>, platforms: &Vec<String>) -> (b: bool)
    ensures
        b == alert_names_station(*a, string_views(routes@), platforms@),
{
    let mut k: usize = 0;
    while k < a.informed.len()
        invariant
            k <= a.informed@.len(),
            forall|j: int|
                0 <= j < k ==> !names_station(a.informed@[j], string_views(routes@), platforms@),
        decreases a.informed@.len() - k,
    {
        if entity_names_station(&a.informed[k], routes, platforms) {
            return true;
        }
        k = k + 1;
    }
    false
}

proof fn lemma_holds_text_views(list: Seq<String>, t: Seq<char>)
    ensures
        holds_text(list, t) == string_views(list).contains(t),
{
    if holds_text(list, t) {
        let k = choose|k: int| 0 <= k < list.len() && (#[trigger] list[k])@ == t;
        assert(string_views(list)[k] == t);
    }
    if string_views(list).contains(t) {
        let k = choose|k: int| 0 <= k < string_views(list).len() && string_views(list)[k] == t;
        assert(list[k]@ == t);
    }
}

/// Collect the notices of a station.
pub fn station_notices(
    alerts: Option<&TrainServiceAlerts>,
    rt_alerts: &[Alert],
    now: Option<u64>,
    network: &RailNetwork,
    station: &Station,
) -> (r: Vec<String>)
    requires
        forall|k: int| 0 <= k < station.lines@.len() ==> station.lines@[k] < network.lines@.len(),
    ensures
        string_views(r@) == notices_spec(
            match alerts {
                Some(a) => Some(*a),
                None => None,
            },
            rt_alerts@,
            now,
            *network,
            *station,
        ),
{
    let mut notices = legacy_notices(alerts, network, station);
    let n = match now {
        None => return notices,
        Some(n) => n,
    };
    let routes = route_ids(network, station);
    let ghost legacy = string_views(notices@);
    let mut texts: Vec<String> = Vec::new();
    let mut m: usize = 0;
    while m < rt_alerts.len()
        invariant
            m <= rt_alerts@.len(),
            string_views(routes@) == station_routes(*network, *station),
            string_views(texts@) == station_alert_texts(
                rt_alerts@,
                n,
                station_routes(*network, *station),
                station.platform_stop_ids@,
                m as int,
            ),
        decreases rt_alerts@.len() - m,
    {
        let a = &rt_alerts[m];
        if a.is_active(n) && alert_reaches_station(a, &routes, &station.platform_stop_ids) {
            match a.text() {
                Some(t) => {
                    proof {
                        lemma_holds_text_views(texts@, t@);
                    }
                    if !list_holds(&texts, t) {
                        let ghost before = texts@;
                        texts.push(owned(t));
                        proof {
                            assert(string_views(texts@) =~= string_views(before).push(t@));
                        }
                    }
                },
                None => {},
            }
        }
        m = m + 1;
    }
    let ghost tv = string_views(texts@);
    let mut j: usize = 0;
    while j < texts.len()
        invariant
            j <= texts@.len(),
            tv == string_views(texts@),
            string_views(notices@) == merged_notices(legacy, tv, j as int),
        decreases texts@.len() - j,
    {
        proof {
            lemma_holds_text_views(notices@, texts@[j as int]@);
            assert(tv[j as int] == texts@[j as int]@);
        }
        if !list_holds(&notices, texts[j].as_str()) {
            let ghost before = notices@;
            notices.push(owned(texts[j].as_str()));
            proof {
                assert(string_views(notices@) =~= string_views(before).push(texts@[j as int]@));
            }
        }
        j = j + 1;
    }
    notices
}

// ----------------------------------------------------------------------
// Realtime predictions
// ----------------------------------------------------------------------

/// One scheduled call of the station that the board may show: a run of
/// a trip that departs the station.
#[derive(Clone, Debug)]
pub struct BoardCall {
    /// The GTFS `trip_id` of the run.
    pub trip_id: String,
    /// The service day the run belongs to.
    pub service_date: ServiceDate,
    /// The start of the run, for a run that a headway block expands.
    pub run_start: Option<GtfsTime>,
    /// The line of the run, an index into the lines of the network.
    pub line: usize,
    /// The headsign of the trip.
    pub headsign: Option<String>,
    /// The last station of the run, an index into the stations.
    pub terminus: usize,
    /// The scheduled departure from the station, on the run's service day.
    pub time: GtfsTime,
    /// `false` where the time comes from a headway and is approximate.
    pub exact: bool,
}

/// The update that the decision table of the matching module attaches
/// to a call, read from the feed's updates.
pub open spec fn call_update(entries: Seq<TripMatch>, us: Seq<TripUpdate>, c: BoardCall) -> Option<
    TripUpdate,
> {
    match scan_from(entries, c.trip_id@, c.service_date.day_count(), c.run_start, 0, false).update {
        Some(k) => Some(us[k as int]),
        None => None,
    }
}

/// Whether a stop time update names one of the platforms.
pub open spec fn names_platform(su: StopTimeUpdate, platforms: Seq<String>) -> bool {
    su.stop_id matches Some(id) && holds_text(platforms, id@)
}

/// The first stop time update from `i` on that names one of the
/// platforms.
pub open spec fn first_platform_update(sus: Seq<StopTimeUpdate>, platforms: Seq<String>, i: int) -> Option<
    int,
>
    decreases sus.len() - i,
{
    if i < 0 || i >= sus.len() {
        None
    } else if names_platform(sus[i], platforms) {
        Some(i)
    } else {
        first_platform_update(sus, platforms, i + 1)
    }
}

/// The stop time update of a trip update for the station.
pub open spec fn platform_update(u: TripUpdate, platforms: Seq<String>) -> Option<StopTimeUpdate> {
    match first_platform_update(u.stop_updates@, platforms, 0) {
        Some(i) => Some(u.stop_updates@[i]),
        None => None,
    }
}

/// The delay of a stop time update: that of its departure event, else
/// that of its arrival event.
pub open spec fn stop_delay(su: StopTimeUpdate) -> Option<i32> {
    match (if su.departure is Some {
        su.departure
    } else {
        su.arrival
    }) {
        Some(e) => e.delay_secs,
        None => None,
    }
}

/// What the realtime layer says of a call at the station: whether the
/// call stays, its predicted time in seconds after the midnight of the
/// board's date, its delay, and whether the run is canceled.
///
/// A canceled run keeps its scheduled slot and no delay. A run that
/// skips the station leaves the board. Otherwise the station's own
/// stop event gives the delay, else the trip-level delay does, and the
/// call stays while the prediction lies in the window.
pub open spec fn call_fate(
    c: BoardCall,
    u: Option<TripUpdate>,
    platforms: Seq<String>,
    date: int,
    clock: int,
    lookahead: int,
) -> (bool, int, Option<i32>, bool) {
    let scheduled = (c.service_date.day_count() - date) * 86400 + c.time.secs;
    match u {
        Some(x) => if x.canceled {
            (clock <= scheduled <= clock + lookahead, scheduled, None, true)
        } else {
            let su = platform_update(x, platforms);
            let own = match su {
                Some(s) => stop_delay(s),
                None => None,
            };
            let delay = either(own, x.delay_secs);
            let predicted = scheduled + delay_or_zero(delay);
            let skipped = su matches Some(s) && s.skipped;
            (!skipped && clock <= predicted <= clock + lookahead, predicted, delay, false)
        },
        None => (clock <= scheduled <= clock + lookahead, scheduled, None, false),
    }
}

fn first_platform_index(sus: &Vec<StopTimeUpdate>, platforms: &Vec<String>) -> (r: Option<usize>)
    ensures
        r matches Some(i) ==> i < sus@.len() && first_platform_update(sus@, platforms@, 0) == Some(
            i as int,
        ),
        r is None ==> first_platform_update(sus@, platforms@, 0) is None,
{
    let mut i: usize = 0;
    while i < sus.len()
        invariant
            i <= sus@.len(),
            first_platform_update(sus@, platforms@, i as int) == first_platform_update(
                sus@,
                platforms@,
                0,
            ),
        decreases sus@.len() - i,
    {
        let hit = match &sus[i].stop_id {
            Some(id) => list_holds(platforms, id.as_str()),
            None => false,
        };
        if hit {
            return Some(i);
        }
        i = i + 1;
    }
    None
}

/// Work out what the realtime layer says of one call.
fn fate_of(
    c: &BoardCall,
    u: Option<&TripUpdate>,
    platforms: &Vec<String>,
    date: ServiceDate,
    clock: u32,
    lookahead: u32,
) -> (r: (bool, i64, Option<i32>, bool))
    ensures
        r.0 == call_fate(
            *c,
            match u {
                Some(x) => Some(*x),
                None => None,
            },
            platforms@,
            date.day_count(),
            clock as int,
            lookahead as int,
        ).0,
        r.1 == call_fate(
            *c,
            match u {
                Some(x) => Some(*x),
                None => None,
            },
            platforms@,
            date.day_count(),
            clock as int,
            lookahead as int,
        ).1,
        r.2 == call_fate(
            *c,
            match u {
                Some(x) => Some(*x),
                None => None,
            },
            platforms@,
            date.day_count(),
            clock as int,
            lookahead as int,
        ).2,
        r.3 == call_fate(
            *c,
            match u {
                Some(x) => Some(*x),
                None => None,
            },
            platforms@,
            date.day_count(),
            clock as int,
            lookahead as int,
        ).3,
{
    let run_day = c.service_date.days();
    let board_day = date.days();
    let scheduled: i64 = (run_day - board_day) * 86400 + c.time.secs as i64;
    let low: i64 = clock as i64;
    let high: i64 = clock as i64 + lookahead as i64;
    let x = match u {
        None => return (low <= scheduled && scheduled <= high, scheduled, None, false),
        Some(x) => x,
    };
    if x.canceled {
        return (low <= scheduled && scheduled <= high, scheduled, None, true);
    }
    let found = first_platform_index(&x.stop_updates, platforms);
    let (own, skipped) = match found {
        Some(i) => {
            proof {
                assert(platform_update(*x, platforms@) == Some(x.stop_updates@[i as int]));
            }
            let su = &x.stop_updates[i];
            let event = if su.departure.is_some() {
                su.departure
            } else {
                su.arrival
            };
            let d = match event {
                Some(e) => e.delay_secs,
                None => None,
            };
            (d, su.skipped)
        },
        None => {
            proof {
                assert(platform_update(*x, platforms@) is None);
            }
            (None, false)
        },
    };
    let delay = match own {
        Some(d) => Some(d),
        None => x.delay_secs,
    };
    let predicted: i64 = match delay {
        Some(d) => scheduled + d as i64,
        None => scheduled,
    };
    (!skipped && low <= predicted && predicted <= high, predicted, delay, false)
}

// ----------------------------------------------------------------------
// The board
// ----------------------------------------------------------------------

/// One row of a live destination board.
#[derive(Clone, Debug)]
pub struct LiveBoardRow {
    /// The display code of the line, for example `NSL`.
    pub line_code: String,
    /// The line color as a six-digit hexadecimal value.
    pub line_color: Option<String>,
    /// The destination text.
    pub destination: String,
    /// The wait time until the departure, in seconds.
    pub departs_in_secs: u32,
    /// The departure time on the 24-hour clock, as `HH:MM:SS`.
    pub clock_time: String,
    /// `true` if the time comes from a headway and is approximate.
    pub approximate: bool,
    /// The live delay in seconds, if a trip update reports one.
    pub delay_secs: Option<i32>,
    /// `true` if a trip update or a service alert cancels this trip.
    pub canceled: bool,
    /// `true` if an active service alert disturbs this departure
    /// without a delay figure: reduced service, significant delays, or
    /// a detour.
    pub alerted: bool,
    /// The live platform crowd level at the station, if available.
    pub crowd: Option<CrowdLevel>,
}

/// A live destination board for one station.
#[derive(Clone, Debug)]
pub struct LiveBoard {
    /// The station name.
    pub station_name: String,
    /// The station codes, for example `NS1` and `EW24`.
    pub station_codes: Vec<String>,
    /// The board rows, in the order of their predicted times.
    pub rows: Vec<LiveBoardRow>,
    /// Alert messages for the lines that serve this station.
    pub notices: Vec<String>,
}

/// A builder that merges live data layers into a [`LiveBoard`].
///
/// Every layer is optional. Without live layers the board shows the
/// static schedule.
pub struct LiveBoardBuilder<'a> {
    /// The static network.
    pub network: &'a RailNetwork,
    /// The operator's train service alerts.
    pub alerts: Option<&'a TrainServiceAlerts>,
    /// The live platform crowd records.
    pub crowd: &'a [PlatformCrowd],
    /// The decoded realtime feed with trip updates.
    pub realtime: Option<&'a RailRtFeed>,
    /// The realtime service alerts.
    pub rt_alerts: &'a [Alert],
    /// The POSIX time at which the service alerts are judged.
    pub now_unix: Option<u64>,
    /// The most rows the board shows.
    pub max_rows: usize,
}

/// The fates of the calls of a board, call by call.
pub open spec fn board_fates(
    calls: Seq<BoardCall>,
    entries: Seq<TripMatch>,
    us: Seq<TripUpdate>,
    platforms: Seq<String>,
    date: int,
    clock: int,
    lookahead: int,
) -> Seq<(bool, int, Option<i32>, bool)> {
    Seq::new(
        calls.len(),
        |i: int|
            call_fate(
                calls[i],
                call_update(entries, us, calls[i]),
                platforms,
                date,
                clock,
                lookahead,
            ),
    )
}

/// Whether call `a` comes before call `b` on the board: the earlier
/// predicted time first, and the earlier call of the schedule for one
/// time.
pub open spec fn runs_before(f: Seq<(bool, int, Option<i32>, bool)>, a: int, b: int) -> bool {
    f[a].1 < f[b].1 || (f[a].1 == f[b].1 && a < b)
}

/// Whether `order` lists exactly the calls that stay, in board order.
pub open spec fn is_board_order(f: Seq<(bool, int, Option<i32>, bool)>, order: Seq<int>) -> bool {
    &&& forall|k: int| 0 <= k < order.len() ==> 0 <= #[trigger] order[k] < f.len() && f[order[k]].0
    &&& forall|i: int| 0 <= i < f.len() && (#[trigger] f[i]).0 ==> order.contains(i)
    &&& forall|k: int, l: int|
        0 <= k < l < order.len() ==> runs_before(f, #[trigger] order[k], #[trigger] order[l])
}

/// The alert flags of a departure: none without a time to judge the
/// alerts at.
pub open spec fn departure_flags(
    alerts: Seq<Alert>,
    now: Option<u64>,
    c: BoardCall,
    network: RailNetwork,
    platforms: Seq<String>,
) -> (bool, bool) {
    match now {
        None => (false, false),
        Some(n) => alert_flags(
            alerts,
            n,
            c.trip_id@,
            network.lines@[c.line as int].route_id@,
            platforms,
            alerts.len() as int,
        ),
    }
}

/// Whether a row shows a call with its fate, alert flags, and crowd.
pub open spec fn row_shows(
    network: RailNetwork,
    c: BoardCall,
    fate: (bool, int, Option<i32>, bool),
    clock: int,
    flags: (bool, bool),
    crowd: Option<CrowdLevel>,
    row: LiveBoardRow,
) -> bool {
    let line = network.lines@[c.line as int];
    &&& row.line_code@ == line.name@
    &&& opt_view(row.line_color) == opt_view(line.color)
    &&& row.destination@ == match c.headsign {
        Some(h) => h@,
        None => network.stations@[c.terminus as int].name@,
    }
    &&& row.departs_in_secs == fate.1 - clock
    &&& row.clock_time@ == time_text((fate.1 % 86400) as nat)
    &&& row.approximate == !c.exact
    &&& row.delay_secs == fate.2
    &&& row.canceled == (fate.3 || flags.0)
    &&& row.alerted == flags.1
    &&& row.crowd == crowd
}

/// The realtime updates a builder holds.
pub open spec fn builder_updates(b: LiveBoardBuilder) -> Seq<TripUpdate> {
    match b.realtime {
        Some(f) => f.trip_updates@,
        None => Seq::empty(),
    }
}

/// The operator's alerts a builder holds.
pub open spec fn builder_alerts(b: LiveBoardBuilder) -> Option<TrainServiceAlerts> {
    match b.alerts {
        Some(a) => Some(*a),
        None => None,
    }
}

/// Whether a board is the one a builder makes for a station over the
/// scheduled calls, with a given index of the realtime feed: the
/// station's name and codes; the calls that stay, in board order, cut
/// to the row limit; and the station's notices.
pub open spec fn board_from(
    b: LiveBoardBuilder,
    entries: Seq<TripMatch>,
    station: int,
    date: ServiceDate,
    clock: GtfsTime,
    lookahead: u32,
    calls: Seq<BoardCall>,
    board: LiveBoard,
) -> bool {
    let network = *b.network;
    let st = network.stations@[station];
    let platforms = st.platform_stop_ids@;
    let f = board_fates(
        calls,
        entries,
        builder_updates(b),
        platforms,
        date.day_count(),
        clock.secs as int,
        lookahead as int,
    );
    let crowd = station_crowd_spec(st.codes@, b.crowd@, st.codes@.len() as int);
    &&& board.station_name@ == st.name@
    &&& string_views(board.station_codes@) == string_views(st.codes@)
    &&& exists|order: Seq<int>|
        is_board_order(f, order) && board.rows@.len() == (if b.max_rows < order.len() {
            b.max_rows as int
        } else {
            order.len() as int
        }) && forall|k: int|
            0 <= k < board.rows@.len() ==> row_shows(
                network,
                calls[order[k]],
                f[order[k]],
                clock.secs as int,
                departure_flags(b.rt_alerts@, b.now_unix, calls[order[k]], network, platforms),
                crowd,
                #[trigger] board.rows@[k],
            )
    &&& string_views(board.notices@) == notices_spec(
        builder_alerts(b),
        b.rt_alerts@,
        b.now_unix,
        network,
        st,
    )
}

/// Whether the builder's network holds a station, the lines it names,
/// and the lines and termini of the calls.
pub open spec fn board_inputs_fit(network: RailNetwork, station: int, calls: Seq<BoardCall>) -> bool {
    &&& 0 <= station < network.stations@.len()
    &&& forall|k: int|
        0 <= k < network.stations@[station].lines@.len() ==> (
        #[trigger] network.stations@[station].lines@[k]) < network.lines@.len()
    &&& forall|i: int|
        0 <= i < calls.len() ==> (#[trigger] calls[i]).line < network.lines@.len()
            && calls[i].terminus < network.stations@.len()
}

fn departure_alerts(
    alerts: &[Alert],
    now: Option<u64>,
    trip: &str,
    route: &str,
    platforms: &Vec<String>,
) -> (r: (bool, bool))
    ensures
        r == match now {
            None => (false, false),
            Some(n) => alert_flags(alerts@, n, trip@, route@, platforms@, alerts@.len() as int),
        },
{
    let n = match now {
        None => return (false, false),
        Some(n) => n,
    };
    let mut canceled = false;
    let mut alerted = false;
    let mut m: usize = 0;
    while m < alerts.len()
        invariant
            m <= alerts@.len(),
            (canceled, alerted) == alert_flags(alerts@, n, trip@, route@, platforms@, m as int),
        decreases alerts@.len() - m,
    {
        let a = &alerts[m];
        if a.is_active(n) && alert_reaches(a, trip, route, platforms) {
            canceled = canceled || a.effect.stops_service();
            alerted = alerted || a.effect.disturbs_service();
        }
        m = m + 1;
    }
    (canceled, alerted)
}

/// The exact view of the computed fates.
pub open spec fn fate_views(v: Seq<(bool, i64, Option<i32>, bool)>) -> Seq<(bool, int, Option<i32>, bool)> {
    Seq::new(v.len(), |i: int| (v[i].0, v[i].1 as int, v[i].2, v[i].3))
}

fn board_order(fates: &Vec<(bool, i64, Option<i32>, bool)>) -> (order: Vec<usize>)
    ensures
        is_board_order(fate_views(fates@), order@.map_values(|i: usize| i as int)),
{
    let ghost f = fate_views(fates@);
    let mut order: Vec<usize> = Vec::new();
    let mut i: usize = 0;
    while i < fates.len()
        invariant
            i <= fates@.len(),
            f == fate_views(fates@),
            forall|k: int| 0 <= k < order@.len() ==> (#[trigger] order@[k]) < i && f[order@[k] as int].0,
            forall|j: int| 0 <= j < i && (#[trigger] f[j]).0 ==> exists|k: int| 0 <= k < order@.len() && order@[k] == j,
            forall|k: int, l: int|
                0 <= k < l < order@.len() ==> runs_before(f, #[trigger] order@[k] as int, #[trigger] order@[l] as int),
        decreases fates@.len() - i,
    {
        if !fates[i].0 {
            proof {
                assert forall|j: int| 0 <= j < i + 1 && (#[trigger] f[j]).0 implies exists|k: int|
                    0 <= k < order@.len() && order@[k] == j by {
                    assert(j != i as int);
                }
            }
            i = i + 1;
            continue;
        }
        let t = fates[i].1;
        let mut pos: usize = 0;
        while pos < order.len() && fates[order[pos]].1 <= t
            invariant
                pos <= order@.len(),
                i < fates@.len(),
                t == fates@[i as int].1,
                f == fate_views(fates@),
                forall|k: int| 0 <= k < order@.len() ==> (#[trigger] order@[k]) < i,
                forall|k: int| 0 <= k < pos ==> runs_before(f, #[trigger] order@[k] as int, i as int),
            decreases order@.len() - pos,
        {
            pos = pos + 1;
        }
        let ghost old_order = order@;
        order.insert(pos, i);
        proof {
            assert(order@ == old_order.insert(pos as int, i));
            if pos < old_order.len() {
                assert(runs_before(f, i as int, old_order[pos as int] as int));
            }
            assert forall|k: int, l: int|
                0 <= k < l < order@.len() implies runs_before(
                f,
                #[trigger] order@[k] as int,
                #[trigger] order@[l] as int,
            ) by {
                if k == pos as int {
                    assert(order@[l] == old_order[l - 1]);
                    if l - 1 > pos {
                        assert(runs_before(f, old_order[pos as int] as int, old_order[l - 1] as int));
                    }
                } else if l == pos as int {
                    assert(order@[k] == old_order[k]);
                } else {
                    let ok = if k < pos { k } else { k - 1 };
                    let ol = if l < pos { l } else { l - 1 };
                    assert(order@[k] == old_order[ok]);
                    assert(order@[l] == old_order[ol]);
                }
            }
            assert forall|k: int| 0 <= k < order@.len() implies (#[trigger] order@[k]) < i + 1
                && f[order@[k] as int].0 by {
                if k < pos {
                    assert(order@[k] == old_order[k]);
                } else if k > pos {
                    assert(order@[k] == old_order[k - 1]);
                }
            }
            assert forall|j: int| 0 <= j < i + 1 && (#[trigger] f[j]).0 implies exists|k: int|
                0 <= k < order@.len() && order@[k] == j by {
                if j == i as int {
                    assert(order@[pos as int] == j);
                } else {
                    let k0 = choose|k: int| 0 <= k < old_order.len() && old_order[k] == j;
                    if k0 < pos {
                        assert(order@[k0] == j);
                    } else {
                        assert(order@[k0 + 1] == j);
                    }
                }
            }
        }
        i = i + 1;
    }
    proof {
        let o = order@.map_values(|i: usize| i as int);
        assert forall|k: int, l: int|
            0 <= k < l < o.len() implies runs_before(f, #[trigger] o[k], #[trigger] o[l]) by {
            assert(runs_before(f, order@[k] as int, order@[l] as int));
        }
        assert forall|i: int| 0 <= i < f.len() && (#[trigger] f[i]).0 implies o.contains(i) by {
            let k = choose|k: int| 0 <= k < order@.len() && order@[k] == i;
            assert(o[k] == i);
        }
    }
    order
}

fn make_row(
    network: &RailNetwork,
    c: &BoardCall,
    fate: (bool, i64, Option<i32>, bool),
    clock: u32,
    lookahead: u32,
    flags: (bool, bool),
    crowd: Option<CrowdLevel>,
) -> (row: LiveBoardRow)
    requires
        c.line < network.lines@.len(),
        c.terminus < network.stations@.len(),
        clock <= fate.1 <= clock + lookahead,
    ensures
        row_shows(
            *network,
            *c,
            (fate.0, fate.1 as int, fate.2, fate.3),
            clock as int,
            flags,
            crowd,
            row,
        ),
{
    let line = &network.lines[c.line];
    let destination = match &c.headsign {
        Some(h) => owned(h.as_str()),
        None => owned(network.stations[c.terminus].name.as_str()),
    };
    let wait = (fate.1 - clock as i64) as u32;
    let on_clock = (fate.1 % 86400) as u32;
    LiveBoardRow {
        line_code: owned(line.name.as_str()),
        line_color: crate::common::copy_option(&line.color),
        destination,
        departs_in_secs: wait,
        clock_time: GtfsTime::from_seconds(on_clock).to_text(),
        approximate: !c.exact,
        delay_secs: fate.2,
        canceled: fate.3 || flags.0,
        alerted: flags.1,
        crowd,
    }
}

impl<'a> LiveBoardBuilder<'a> {
    /// Make a builder for the given network.
    pub fn new(network: &'a RailNetwork) -> (b: LiveBoardBuilder<'a>)
        ensures
            b.network == network,
            b.alerts is None,
            b.crowd@.len() == 0,
            b.realtime is None,
            b.rt_alerts@.len() == 0,
            b.now_unix is None,
            b.max_rows == 10,
    {
        LiveBoardBuilder {
            network,
            alerts: None,
            crowd: &[],
            realtime: None,
            rt_alerts: &[],
            now_unix: None,
            max_rows: 10,
        }
    }

    /// Add the operator's train service alerts.
    pub fn with_alerts(self, alerts: &'a TrainServiceAlerts) -> (b: LiveBoardBuilder<'a>)
        ensures
            b == (LiveBoardBuilder { alerts: Some(alerts), ..self }),
    {
        LiveBoardBuilder { alerts: Some(alerts), ..self }
    }

    /// Add realtime service alerts, judged at the given POSIX time.
    ///
    /// An active alert that names a trip, a route, or a platform of the
    /// station reaches the board: a no-service alert cancels the
    /// affected departures, a disturbance marks them, and the alert
    /// text joins the notices.
    pub fn with_rt_alerts(self, alerts: &'a [Alert], now_unix: u64) -> (b: LiveBoardBuilder<'a>)
        ensures
            b == (LiveBoardBuilder { rt_alerts: alerts, now_unix: Some(now_unix), ..self }),
    {
        LiveBoardBuilder { rt_alerts: alerts, now_unix: Some(now_unix), ..self }
    }

    /// Add live platform crowd records.
    pub fn with_crowd(self, crowd: &'a [PlatformCrowd]) -> (b: LiveBoardBuilder<'a>)
        ensures
            b == (LiveBoardBuilder { crowd, ..self }),
    {
        LiveBoardBuilder { crowd, ..self }
    }

    /// Add a decoded realtime feed with trip updates.
    pub fn with_realtime(self, realtime: &'a RailRtFeed) -> (b: LiveBoardBuilder<'a>)
        ensures
            b == (LiveBoardBuilder { realtime: Some(realtime), ..self }),
    {
        LiveBoardBuilder { realtime: Some(realtime), ..self }
    }

    /// Set the maximum number of board rows. The default is 10.
    pub fn max_rows(self, max_rows: usize) -> (b: LiveBoardBuilder<'a>)
        ensures
            b == (LiveBoardBuilder { max_rows, ..self }),
    {
        LiveBoardBuilder { max_rows, ..self }
    }

    /// Build the board of one station from its scheduled calls.
    ///
    /// The calls are those of the schedule around the window, on the
    /// board's date and the day before; the board keeps the calls whose
    /// predicted time lies from `clock` to `clock + lookahead_secs`, in
    /// the order of their predicted times, up to the row limit.
    pub fn build(
        &self,
        station: usize,
        date: ServiceDate,
        clock: GtfsTime,
        lookahead_secs: u32,
        calls: &[BoardCall],
    ) -> (board: LiveBoard)
        requires
            board_inputs_fit(*self.network, station as int, calls@),
        ensures
            exists|entries: Seq<TripMatch>|
                index_of_feed(entries, builder_updates(*self)) && board_from(
                    *self,
                    entries,
                    station as int,
                    date,
                    clock,
                    lookahead_secs,
                    calls@,
                    board,
                ),
    {
        let network = self.network;
        let st = &network.stations[station];
        let platforms = &st.platform_stop_ids;
        let crowd = station_crowd(&st.codes, self.crowd);
        let mut diagnostics: Vec<crate::common::Diagnostic> = Vec::new();
        let index = TripUpdateIndex::from_feed(self.realtime, &mut diagnostics);
        let ghost us = builder_updates(*self);
        let ghost entries = index.entries@;
        proof {
            if self.realtime is None {
                assert(named_updates(us).len() == 0);
            }
            lemma_index_names_updates(entries, us);
        }
        let ghost f = board_fates(
            calls@,
            entries,
            us,
            platforms@,
            date.day_count(),
            clock.secs as int,
            lookahead_secs as int,
        );
        let mut fates: Vec<(bool, i64, Option<i32>, bool)> = Vec::new();
        let mut i: usize = 0;
        while i < calls.len()
            invariant
                i <= calls@.len(),
                entries == index.entries@,
                index_of_feed(entries, us),
                us == builder_updates(*self),
                forall|k: int| 0 <= k < entries.len() ==> (#[trigger] entries[k]).update < us.len(),
                f == board_fates(
                    calls@,
                    entries,
                    us,
                    platforms@,
                    date.day_count(),
                    clock.secs as int,
                    lookahead_secs as int,
                ),
                fates@.len() == i,
                forall|k: int| 0 <= k < i ==> (#[trigger] fate_views(fates@)[k]) == f[k],
            decreases calls@.len() - i,
        {
            let c = &calls[i];
            let run = RunKey::new(c.trip_id.as_str(), c.service_date, c.run_start);
            let m = index.lookup(run);
            proof {
                lemma_lookup_sound(entries, run);
            }
            let u: Option<&TripUpdate> = match m.update {
                Some(k) => match self.realtime {
                    Some(feed) => Some(&feed.trip_updates[k]),
                    None => None,
                },
                None => None,
            };
            proof {
                let want = call_update(entries, us, calls@[i as int]);
                assert(match u {
                    Some(x) => Some(*x),
                    None => None,
                } == want);
            }
            let fate = fate_of(c, u, platforms, date, clock.secs, lookahead_secs);
            let ghost before = fates@;
            fates.push(fate);
            proof {
                assert forall|k: int| 0 <= k < i + 1 implies (#[trigger] fate_views(fates@)[k]) == f[k] by {
                    if k < i {
                        assert(fate_views(fates@)[k] == fate_views(before)[k]);
                    }
                }
            }
            i = i + 1;
        }
        proof {
            assert(fate_views(fates@) =~= f);
        }
        let order = board_order(&fates);
        let ghost o = order@.map_values(|j: usize| j as int);
        let n = if self.max_rows < order.len() {
            self.max_rows
        } else {
            order.len()
        };
        let mut rows: Vec<LiveBoardRow> = Vec::new();
        let mut k: usize = 0;
        while k < n
            invariant
                k <= n,
                n <= order@.len(),
                o == order@.map_values(|j: usize| j as int),
                is_board_order(f, o),
                f == fate_views(fates@),
                f == board_fates(
                    calls@,
                    entries,
                    us,
                    platforms@,
                    date.day_count(),
                    clock.secs as int,
                    lookahead_secs as int,
                ),
                fates@.len() == calls@.len(),
                board_inputs_fit(*network, station as int, calls@),
                network == self.network,
                st == network.stations@[station as int],
                platforms == st.platform_stop_ids,
                crowd == station_crowd_spec(st.codes@, self.crowd@, st.codes@.len() as int),
                rows@.len() == k,
                forall|j: int|
                    0 <= j < k ==> row_shows(
                        *network,
                        calls@[o[j]],
                        f[o[j]],
                        clock.secs as int,
                        departure_flags(
                            self.rt_alerts@,
                            self.now_unix,
                            calls@[o[j]],
                            *network,
                            platforms@,
                        ),
                        crowd,
                        #[trigger] rows@[j],
                    ),
            decreases n - k,
        {
            let at = order[k];
            proof {
                assert(o[k as int] == at as int);
                assert(f[at as int].0);
                assert(f[at as int] == call_fate(
                    calls@[at as int],
                    call_update(entries, us, calls@[at as int]),
                    platforms@,
                    date.day_count(),
                    clock.secs as int,
                    lookahead_secs as int,
                ));
            }
            let c = &calls[at];
            let line = &network.lines[c.line];
            let flags = departure_alerts(
                self.rt_alerts,
                self.now_unix,
                c.trip_id.as_str(),
                line.route_id.as_str(),
                platforms,
            );
            let row = make_row(network, c, fates[at], clock.secs, lookahead_secs, flags, crowd);
            let ghost before = rows@;
            rows.push(row);
            proof {
                assert forall|j: int|
                    0 <= j < k + 1 implies row_shows(
                    *network,
                    calls@[o[j]],
                    f[o[j]],
                    clock.secs as int,
                    departure_flags(self.rt_alerts@, self.now_unix, calls@[o[j]], *network, platforms@),
                    crowd,
                    #[trigger] rows@[j],
                ) by {
                    if j < k {
                        assert(rows@[j] == before[j]);
                    }
                }
            }
            k = k + 1;
        }
        let notices = station_notices(self.alerts, self.rt_alerts, self.now_unix, network, st);
        let board = LiveBoard {
            station_name: owned(st.name.as_str()),
            station_codes: crate::common::copy_strings(&st.codes),
            rows,
            notices,
        };
        proof {
            assert(board_from(
                *self,
                entries,
                station as int,
                date,
                clock,
                lookahead_secs,
                calls@,
                board,
            ));
        }
        board
    }
}

/// A realtime layer whose updates reach none of the calls leaves every
/// call where the schedule puts it: the board is the static one.
pub proof fn lemma_unmatched_updates_change_nothing(
    calls: Seq<BoardCall>,
    entries: Seq<TripMatch>,
    us: Seq<TripUpdate>,
    platforms: Seq<String>,
    date: int,
    clock: int,
    lookahead: int,
)
    requires
        forall|i: int| 0 <= i < calls.len() ==> call_update(entries, us, #[trigger] calls[i]) is None,
    ensures
        board_fates(calls, entries, us, platforms, date, clock, lookahead) == board_fates(
            calls,
            Seq::empty(),
            Seq::empty(),
            platforms,
            date,
            clock,
            lookahead,
        ),
{
    let a = board_fates(calls, entries, us, platforms, date, clock, lookahead);
    let b = board_fates(calls, Seq::empty(), Seq::empty(), platforms, date, clock, lookahead);
    assert forall|i: int| 0 <= i < calls.len() implies a[i] == b[i] by {
        assert(call_update(entries, us, calls[i]) is None);
        assert(call_update(Seq::empty(), Seq::empty(), calls[i]) is None);
    }
    assert(a =~= b);
}

proof fn lemma_merged_keeps_the_base(base: Seq<Seq<char>>, extra: Seq<Seq<char>>, m: int)
    ensures
        merged_notices(base, extra, m).len() >= base.len(),
        merged_notices(base, extra, m).take(base.len() as int) == base,
    decreases m,
{
    if m > 0 {
        lemma_merged_keeps_the_base(base, extra, m - 1);
        let prev = merged_notices(base, extra, m - 1);
        if !prev.contains(extra[m - 1]) {
            assert(prev.push(extra[m - 1]).take(base.len() as int) =~= prev.take(base.len() as int));
        }
    }
}

/// While the network is disrupted, the operator's messages reach every
/// station that a disrupted line serves, whether or not the segment
/// lists that station's code: the notices of such a station begin with
/// all of the operator's messages, in order.
pub proof fn lemma_a_disrupted_line_reaches_every_station_it_serves(
    alerts: TrainServiceAlerts,
    rt_alerts: Seq<crate::realtime::Alert>,
    now: Option<u64>,
    network: RailNetwork,
    station: Station,
    k: int,
    j: int,
)
    requires
        alerts.status == ServiceStatus::Disrupted,
        0 <= k < alerts.affected_segments@.len(),
        0 <= j < station.lines@.len(),
        line_of_code(alerts.affected_segments@[k].line@) is Some,
        crate::status::match_line_spec(network.lines@[station.lines@[j] as int]) == line_of_code(
            alerts.affected_segments@[k].line@,
        ),
    ensures
        notices_spec(Some(alerts), rt_alerts, now, network, station).len() >= message_texts(
            alerts.messages@,
        ).len(),
        notices_spec(Some(alerts), rt_alerts, now, network, station).take(
            message_texts(alerts.messages@).len() as int,
        ) == message_texts(alerts.messages@),
{
    let seg = alerts.affected_segments@[k];
    let l = line_of_code(seg.line@)->0;
    assert(serves_station(network, station, l));
    assert(segment_touches(network, station, seg));
    let legacy = legacy_notices_spec(Some(alerts), network, station);
    assert(legacy == message_texts(alerts.messages@));
    assert(legacy.take(legacy.len() as int) =~= legacy);
    match now {
        None => {},
        Some(n) => {
            let texts = station_alert_texts(
                rt_alerts,
                n,
                station_routes(network, station),
                station.platform_stop_ids@,
                rt_alerts.len() as int,
            );
            lemma_merged_keeps_the_base(legacy, texts, texts.len() as int);
        },
    }
}

} // verus!
