//! The whole network at one instant: the line, station, and edge
//! tables, the placed runs, the headway bands, the freshness of the
//! realtime layer, and the network notices.
//!
//! The schedule of the two service days that can carry trains at the
//! clock reading comes in as the caller's query results: the runs of
//! the board's date around the clock, and those of the day before
//! around the same reading 24 hours later, where a run past midnight
//! keeps its `24:xx` times.

use vstd::prelude::*;

use crate::common::{diagnostic_view, diagnostic_views, copy_option, copy_strings, string_views, Diagnostic, Line};
use crate::config::MissingTimePolicy;
use crate::map::{
    codes_of, freshness_codes, freshness_findings, placement_findings, graded_snapshot, keeps_prefix, judge_freshness, snapshot_severity, place, placement, placement_codes,
    train_matches, Freshness, MapBand, MapEdge, MapLine, MapStation, MapTrain, NetworkSnapshot,
    Placement, DEFAULT_AGEING_SECS, DEFAULT_STALENESS_SECS, DEFAULT_WINDOW_SECS,
};
use crate::matching::{
    expanded_start_spec, index_of_feed, lemma_index_names_updates, lemma_lookup_sound,
    named_updates, scan_from, unreadable_count, unreadable_findings, RunKey, TripMatch, TripUpdateIndex, UpdateMatch,
};
use crate::order::{lemma_seq_lt_asymmetric, lemma_seq_lt_total, lemma_seq_lt_transitive, seq_lt, str_lt};
use crate::realtime::{RailRtFeed, TripUpdate};
use crate::schedule::{FrequencyBand, RailNetwork, TripInstance, TripQueryResult, trip_in_network};
use crate::status::{
    line_of_code, match_line_spec, match_train_line, message_texts, segment_state,
    state_of_segment, AffectedSegment, LineState, TrainServiceAlerts,
};
use crate::textbuf::owned;
use crate::time::{GtfsTime, ServiceDate};

verus! {

/// The seconds of one day.
pub const SECS_PER_DAY: u32 = 86400;

/// A builder that merges the network, the realtime feed, and the
/// operator's alerts into a [`NetworkSnapshot`].
///
/// Every live layer is optional. Without them the snapshot is the
/// schedule drawn at the clock reading, and every train is
/// schedule-only.
pub struct NetworkSnapshotBuilder<'a> {
    /// The static network.
    pub network: &'a RailNetwork,
    /// The decoded realtime feed with trip updates.
    pub realtime: Option<&'a RailRtFeed>,
    /// The POSIX time to measure the age of the feed against.
    pub now_unix: Option<u64>,
    /// The operator's train service alerts.
    pub alerts: Option<&'a TrainServiceAlerts>,
    /// The age above which the layer counts as ageing, in seconds.
    pub ageing_secs: u32,
    /// The age above which the layer counts as stale, in seconds.
    pub staleness_secs: u32,
    /// The half-width of the query window, in seconds.
    pub window_secs: u32,
    /// How the queries fill in stop times that the feed leaves empty.
    pub missing_time_policy: MissingTimePolicy,
}

impl<'a> NetworkSnapshotBuilder<'a> {
    /// Make a builder for the given network.
    pub fn new(network: &'a RailNetwork) -> (b: NetworkSnapshotBuilder<'a>)
        ensures
            b.network == network,
            b.realtime is None,
            b.now_unix is None,
            b.alerts is None,
            b.ageing_secs == DEFAULT_AGEING_SECS,
            b.staleness_secs == DEFAULT_STALENESS_SECS,
            b.window_secs == DEFAULT_WINDOW_SECS,
            b.missing_time_policy == MissingTimePolicy::InterpolateBounded,
    {
        NetworkSnapshotBuilder {
            network,
            realtime: None,
            now_unix: None,
            alerts: None,
            ageing_secs: DEFAULT_AGEING_SECS,
            staleness_secs: DEFAULT_STALENESS_SECS,
            window_secs: DEFAULT_WINDOW_SECS,
            missing_time_policy: MissingTimePolicy::InterpolateBounded,
        }
    }

    /// Add a decoded realtime feed, with the POSIX time to measure its
    /// age against. The builder reads no clock.
    pub fn with_realtime(self, realtime: &'a RailRtFeed, now_unix: u64) -> (b: NetworkSnapshotBuilder<'a>)
        ensures
            b == (NetworkSnapshotBuilder { realtime: Some(realtime), now_unix: Some(now_unix), ..self }),
    {
        NetworkSnapshotBuilder { realtime: Some(realtime), now_unix: Some(now_unix), ..self }
    }

    /// Add the operator's train service alerts. They set the state of
    /// the affected lines.
    pub fn with_alerts(self, alerts: &'a TrainServiceAlerts) -> (b: NetworkSnapshotBuilder<'a>)
        ensures
            b == (NetworkSnapshotBuilder { alerts: Some(alerts), ..self }),
    {
        NetworkSnapshotBuilder { alerts: Some(alerts), ..self }
    }

    /// Set the staleness threshold, in seconds. The default is 120.
    pub fn staleness_secs(self, seconds: u32) -> (b: NetworkSnapshotBuilder<'a>)
        ensures
            b == (NetworkSnapshotBuilder { staleness_secs: seconds, ..self }),
    {
        NetworkSnapshotBuilder { staleness_secs: seconds, ..self }
    }

    /// Set the ageing threshold, in seconds. The default is 60.
    pub fn ageing_secs(self, seconds: u32) -> (b: NetworkSnapshotBuilder<'a>)
        ensures
            b == (NetworkSnapshotBuilder { ageing_secs: seconds, ..self }),
    {
        NetworkSnapshotBuilder { ageing_secs: seconds, ..self }
    }

    /// Set the half-width of the query window, in seconds. The default
    /// is 3600.
    pub fn window_secs(self, seconds: u32) -> (b: NetworkSnapshotBuilder<'a>)
        ensures
            b == (NetworkSnapshotBuilder { window_secs: seconds, ..self }),
    {
        NetworkSnapshotBuilder { window_secs: seconds, ..self }
    }

    /// Set how the queries fill in stop times that the feed leaves
    /// empty.
    pub fn missing_time_policy(self, policy: MissingTimePolicy) -> (b: NetworkSnapshotBuilder<'a>)
        ensures
            b == (NetworkSnapshotBuilder { missing_time_policy: policy, ..self }),
    {
        NetworkSnapshotBuilder { missing_time_policy: policy, ..self }
    }

    /// The query window around a clock reading: `clock ± window`, held
    /// within the range of a service-day time.
    pub fn query_window(&self, clock: GtfsTime) -> (w: (GtfsTime, GtfsTime))
        ensures
            w.0.secs == (if clock.secs >= self.window_secs {
                clock.secs - self.window_secs
            } else {
                0
            }),
            w.1.secs == (if clock.secs + self.window_secs <= u32::MAX {
                clock.secs + self.window_secs
            } else {
                u32::MAX as int
            }),
    {
        let from = if clock.secs >= self.window_secs {
            clock.secs - self.window_secs
        } else {
            0
        };
        let to = if clock.secs <= u32::MAX - self.window_secs {
            clock.secs + self.window_secs
        } else {
            u32::MAX
        };
        (GtfsTime::from_seconds(from), GtfsTime::from_seconds(to))
    }
}

// ----------------------------------------------------------------------
// The static layers
// ----------------------------------------------------------------------

/// The first segment from `i` on that names a line.
pub open spec fn first_segment_of(segs: Seq<AffectedSegment>, line: crate::status::TrainLine, i: int) -> Option<
    AffectedSegment,
>
    decreases segs.len() - i,
{
    if i < 0 || i >= segs.len() {
        None
    } else if line_of_code(segs[i].line@) == Some(line) {
        Some(segs[i])
    } else {
        first_segment_of(segs, line, i + 1)
    }
}

/// The segment that sets the state of a line on the map: the first one
/// of the operator's alerts that names the line.
pub open spec fn map_segment(alerts: Option<TrainServiceAlerts>, line: Line) -> Option<AffectedSegment> {
    match alerts {
        None => None,
        Some(a) => match match_line_spec(line) {
            None => None,
            Some(l) => first_segment_of(a.affected_segments@, l, 0),
        },
    }
}

/// Whether a map line shows line `i` of the network.
pub open spec fn map_line_shows(
    alerts: Option<TrainServiceAlerts>,
    network: RailNetwork,
    i: int,
    m: MapLine,
) -> bool {
    let line = network.lines@[i];
    &&& m.line == i
    &&& m.route_id@ == line.route_id@
    &&& m.name@ == line.name@
    &&& crate::timetable::opt_view(m.long_name) == crate::timetable::opt_view(line.long_name)
    &&& crate::timetable::opt_view(m.color) == crate::timetable::opt_view(line.color)
    &&& state_of_segment(m.state, map_segment(alerts, line))
}

/// Whether a map station shows station `i` of the network.
pub open spec fn map_station_shows(network: RailNetwork, i: int, m: MapStation) -> bool {
    let st = network.stations@[i];
    &&& m.station == i
    &&& m.name@ == st.name@
    &&& string_views(m.codes@) == string_views(st.codes@)
}

/// The edges of stop pattern `p`, in pattern order.
pub open spec fn pattern_edges(network: RailNetwork, p: int) -> Seq<MapEdge> {
    let pat = network.patterns@[p];
    let n = pat.stations@.len();
    Seq::new(
        if n >= 1 {
            (n - 1) as nat
        } else {
            0
        },
        |j: int|
            MapEdge {
                pattern: p as usize,
                index: j as usize,
                line: pat.line,
                from: pat.stations@[j],
                to: pat.stations@[j + 1],
            },
    )
}

/// The edges of the first `p` stop patterns.
pub open spec fn edges_upto(network: RailNetwork, p: int) -> Seq<MapEdge>
    decreases p,
{
    if p <= 0 {
        Seq::empty()
    } else {
        edges_upto(network, p - 1) + pattern_edges(network, p - 1)
    }
}

/// The network notices: the operator's messages, unchanged.
pub open spec fn snapshot_notices(alerts: Option<TrainServiceAlerts>) -> Seq<Seq<char>> {
    match alerts {
        None => Seq::empty(),
        Some(a) => message_texts(a.messages@),
    }
}

#[verifier::loop_isolation(false)]
fn map_line_state(alerts: Option<&TrainServiceAlerts>, line: &Line) -> (s: LineState)
    ensures
        state_of_segment(
            s,
            map_segment(
                match alerts {
                    Some(a) => Some(*a),
                    None => None,
                },
                *line,
            ),
        ),
{
    let a = match alerts {
        None => return LineState::Normal,
        Some(a) => a,
    };
    let l = match match_train_line(line) {
        None => return LineState::Normal,
        Some(l) => l,
    };
    let mut i: usize = 0;
    while i < a.affected_segments.len()
        invariant
            i <= a.affected_segments@.len(),
            first_segment_of(a.affected_segments@, l, i as int) == first_segment_of(
                a.affected_segments@,
                l,
                0,
            ),
        decreases a.affected_segments@.len() - i,
    {
        let seg = &a.affected_segments[i];
        match seg.train_line() {
            Some(m) => {
                if m == l {
                    return segment_state(seg);
                }
            },
            None => {},
        }
        i = i + 1;
    }
    LineState::Normal
}

fn map_lines(alerts: Option<&TrainServiceAlerts>, network: &RailNetwork) -> (r: Vec<MapLine>)
    ensures
        r@.len() == network.lines@.len(),
        forall|i: int|
            0 <= i < r@.len() ==> map_line_shows(
                match alerts {
                    Some(a) => Some(*a),
                    None => None,
                },
                *network,
                i,
                #[trigger] r@[i],
            ),
{
    let mut out: Vec<MapLine> = Vec::new();
    let mut i: usize = 0;
    while i < network.lines.len()
        invariant
            i <= network.lines@.len(),
            out@.len() == i,
            forall|k: int|
                0 <= k < i ==> map_line_shows(
                    match alerts {
                        Some(a) => Some(*a),
                        None => None,
                    },
                    *network,
                    k,
                    #[trigger] out@[k],
                ),
        decreases network.lines@.len() - i,
    {
        let line = &network.lines[i];
        let m = MapLine {
            line: i,
            route_id: owned(line.route_id.as_str()),
            name: owned(line.name.as_str()),
            long_name: copy_option(&line.long_name),
            color: copy_option(&line.color),
            state: map_line_state(alerts, line),
        };
        out.push(m);
        i = i + 1;
    }
    out
}

fn map_stations(network: &RailNetwork) -> (r: Vec<MapStation>)
    ensures
        r@.len() == network.stations@.len(),
        forall|i: int| 0 <= i < r@.len() ==> map_station_shows(*network, i, #[trigger] r@[i]),
{
    let mut out: Vec<MapStation> = Vec::new();
    let mut i: usize = 0;
    while i < network.stations.len()
        invariant
            i <= network.stations@.len(),
            out@.len() == i,
            forall|k: int| 0 <= k < i ==> map_station_shows(*network, k, #[trigger] out@[k]),
        decreases network.stations@.len() - i,
    {
        let st = &network.stations[i];
        out.push(MapStation { station: i, name: owned(st.name.as_str()), codes: copy_strings(&st.codes) });
        i = i + 1;
    }
    out
}

fn map_edges(network: &RailNetwork) -> (r: Vec<MapEdge>)
    ensures
        r@ == edges_upto(*network, network.patterns@.len() as int),
{
    let mut out: Vec<MapEdge> = Vec::new();
    let mut p: usize = 0;
    while p < network.patterns.len()
        invariant
            p <= network.patterns@.len(),
            out@ == edges_upto(*network, p as int),
        decreases network.patterns@.len() - p,
    {
        let pat = &network.patterns[p];
        let ghost before = out@;
        let n = pat.stations.len();
        let last = if n > 0 {
            n - 1
        } else {
            0
        };
        let mut j: usize = 0;
        while j < last
            invariant
                p < network.patterns@.len(),
                pat == network.patterns@[p as int],
                n == pat.stations@.len(),
                last == (if n > 0 { n - 1 } else { 0 }),
                j <= last,
                out@ == before + pattern_edges(*network, p as int).take(j as int),
            decreases last - j,
        {
            out.push(
                MapEdge {
                    pattern: p,
                    index: j,
                    line: pat.line,
                    from: pat.stations[j],
                    to: pat.stations[j + 1],
                },
            );
            proof {
                assert(out@ =~= before + pattern_edges(*network, p as int).take(j + 1));
            }
            j = j + 1;
        }
        proof {
            assert(pattern_edges(*network, p as int).take(j as int) =~= pattern_edges(
                *network,
                p as int,
            ));
        }
        p = p + 1;
    }
    out
}

fn map_notices(alerts: Option<&TrainServiceAlerts>) -> (r: Vec<String>)
    ensures
        string_views(r@) == snapshot_notices(
            match alerts {
                Some(a) => Some(*a),
                None => None,
            },
        ),
{
    let mut out: Vec<String> = Vec::new();
    let a = match alerts {
        None => return out,
        Some(a) => a,
    };
    let mut i: usize = 0;
    while i < a.messages.len()
        invariant
            i <= a.messages@.len(),
            string_views(out@) == message_texts(a.messages@.take(i as int)),
        decreases a.messages@.len() - i,
    {
        let ghost before = out@;
        out.push(owned(a.messages[i].content.as_str()));
        proof {
            assert(string_views(out@) =~= string_views(before).push(a.messages@[i as int].content@));
            assert(message_texts(a.messages@.take(i + 1)) =~= message_texts(
                a.messages@.take(i as int),
            ).push(a.messages@[i as int].content@));
        }
        i = i + 1;
    }
    proof {
        assert(a.messages@.take(a.messages@.len() as int) =~= a.messages@);
    }
    out
}

// ----------------------------------------------------------------------
// Order by identifier
// ----------------------------------------------------------------------

/// Whether item `a` comes before item `b`: the smaller identifier
/// first, and the earlier item for one identifier.
pub open spec fn id_before(ids: Seq<Seq<char>>, a: int, b: int) -> bool {
    seq_lt(ids[a], ids[b]) || (ids[a] == ids[b] && a < b)
}

/// Whether `order` lists items of `ids` by identifier, each at most
/// once and keeping the items of one identifier in their order.
pub open spec fn id_sorted(ids: Seq<Seq<char>>, order: Seq<int>) -> bool {
    &&& forall|k: int| 0 <= k < order.len() ==> 0 <= #[trigger] order[k] < ids.len()
    &&& forall|k: int, l: int|
        0 <= k < l < order.len() ==> id_before(ids, #[trigger] order[k], #[trigger] order[l])
}

/// Whether `order` lists every item of `ids` once, by identifier.
pub open spec fn is_id_order(ids: Seq<Seq<char>>, order: Seq<int>) -> bool {
    &&& order.len() == ids.len()
    &&& id_sorted(ids, order)
}

/// Inserting the next item before the first one with a greater
/// identifier keeps the order sorted.
proof fn lemma_id_insert(ids: Seq<Seq<char>>, order: Seq<int>, c: int, pos: int)
    requires
        0 <= c < ids.len(),
        id_sorted(ids, order),
        forall|k: int| 0 <= k < order.len() ==> #[trigger] order[k] < c,
        0 <= pos <= order.len(),
        forall|k: int| 0 <= k < pos ==> !seq_lt(ids[c], ids[#[trigger] order[k]]),
        pos < order.len() ==> seq_lt(ids[c], ids[order[pos]]),
    ensures
        id_sorted(ids, order.insert(pos, c)),
        forall|k: int| 0 <= k < order.len() + 1 ==> #[trigger] order.insert(pos, c)[k] <= c,
{
    let o2 = order.insert(pos, c);
    assert forall|k: int, l: int| 0 <= k < l < o2.len() implies id_before(
        ids,
        #[trigger] o2[k],
        #[trigger] o2[l],
    ) by {
        if k == pos {
            assert(o2[l] == order[l - 1]);
            if l - 1 > pos {
                assert(id_before(ids, order[pos], order[l - 1]));
                if seq_lt(ids[order[pos]], ids[order[l - 1]]) {
                    lemma_seq_lt_transitive(ids[c], ids[order[pos]], ids[order[l - 1]]);
                }
            }
        } else if l == pos {
            assert(o2[k] == order[k]);
            lemma_seq_lt_total(ids[c], ids[order[k]]);
        } else {
            let ok = if k < pos { k } else { k - 1 };
            let ol = if l < pos { l } else { l - 1 };
            assert(o2[k] == order[ok]);
            assert(o2[l] == order[ol]);
        }
    }
    assert forall|k: int| 0 <= k < order.len() + 1 implies #[trigger] o2[k] <= c by {
        if k < pos {
            assert(o2[k] == order[k]);
        } else if k > pos {
            assert(o2[k] == order[k - 1]);
        }
    }
}

// ----------------------------------------------------------------------
// Bands
// ----------------------------------------------------------------------

/// Whether a map band shows a headway block.
pub open spec fn band_shows(b: FrequencyBand, m: MapBand) -> bool {
    &&& m.band_id@ == b.band_id@
    &&& m.source_trip_id@ == b.source_trip_id@
    &&& m.line == b.line
    &&& m.pattern == b.pattern
    &&& crate::timetable::opt_view(m.destination) == crate::timetable::opt_view(b.headsign)
    &&& m.start == b.start
    &&& m.end == b.end
    &&& m.headway_secs == b.headway_secs
    &&& m.headway_minutes == b.headway_secs / 60
}

/// The identifiers of a run of headway blocks.
pub open spec fn band_ids(bs: Seq<FrequencyBand>) -> Seq<Seq<char>> {
    bs.map_values(|b: FrequencyBand| b.band_id@)
}

fn map_band(b: &FrequencyBand) -> (m: MapBand)
    ensures
        band_shows(*b, m),
{
    MapBand {
        band_id: owned(b.band_id.as_str()),
        source_trip_id: owned(b.source_trip_id.as_str()),
        line: b.line,
        pattern: b.pattern,
        destination: copy_option(&b.headsign),
        start: b.start,
        end: b.end,
        headway_secs: b.headway_secs,
        headway_minutes: b.headway_minutes(),
    }
}

/// Merge the headway blocks of both days into one list ordered by
/// identifier.
fn sorted_bands(today: &Vec<FrequencyBand>, yesterday: &Vec<FrequencyBand>) -> (r: Vec<MapBand>)
    requires
        today@.len() + yesterday@.len() <= usize::MAX,
    ensures
        exists|order: Seq<int>|
            is_id_order(band_ids(today@ + yesterday@), order) && r@.len() == order.len() && forall|
                k: int,
            |
                0 <= k < order.len() ==> band_shows(
                    (today@ + yesterday@)[#[trigger] order[k]],
                    r@[k],
                ),
{
    let ghost all = today@ + yesterday@;
    let ghost ids = band_ids(all);
    let ghost mut order: Seq<int> = Seq::empty();
    let mut out: Vec<MapBand> = Vec::new();
    let mut c: usize = 0;
    let total = today.len() + yesterday.len();
    while c < total
        invariant
            total == all.len(),
            all == today@ + yesterday@,
            ids == band_ids(all),
            c <= total,
            order.len() == c,
            out@.len() == c,
            id_sorted(ids, order),
            forall|k: int| 0 <= k < order.len() ==> #[trigger] order[k] < c,
            forall|k: int| 0 <= k < order.len() ==> band_shows(all[#[trigger] order[k]], out@[k]),
        decreases total - c,
    {
        let b = if c < today.len() {
            &today[c]
        } else {
            &yesterday[c - today.len()]
        };
        proof {
            assert(*b == all[c as int]);
        }
        let m = map_band(b);
        let mut pos: usize = 0;
        while pos < out.len() && !str_lt(m.band_id.as_str(), out[pos].band_id.as_str())
            invariant
                pos <= out@.len(),
                out@.len() == order.len(),
                ids == band_ids(all),
                c < all.len(),
                m.band_id@ == ids[c as int],
                forall|k: int| 0 <= k < order.len() ==> 0 <= #[trigger] order[k] < ids.len(),
                forall|k: int| 0 <= k < order.len() ==> band_shows(all[#[trigger] order[k]], out@[k]),
                forall|k: int| 0 <= k < pos ==> !seq_lt(ids[c as int], ids[#[trigger] order[k]]),
            decreases out@.len() - pos,
        {
            proof {
                assert(band_shows(all[order[pos as int]], out@[pos as int]));
                assert(ids[order[pos as int]] == out@[pos as int].band_id@);
            }
            pos = pos + 1;
        }
        proof {
            if pos < out@.len() {
                assert(band_shows(all[order[pos as int]], out@[pos as int]));
                assert(ids[order[pos as int]] == out@[pos as int].band_id@);
            }
            lemma_id_insert(ids, order, c as int, pos as int);
        }
        let ghost old_out = out@;
        let ghost old_order = order;
        out.insert(pos, m);
        proof {
            order = order.insert(pos as int, c as int);
            assert forall|k: int| 0 <= k < order.len() implies band_shows(
                all[#[trigger] order[k]],
                out@[k],
            ) by {
                if k < pos {
                    assert(order[k] == old_order[k]);
                    assert(out@[k] == old_out[k]);
                } else if k > pos {
                    assert(order[k] == old_order[k - 1]);
                    assert(out@[k] == old_out[k - 1]);
                }
            }
        }
        c = c + 1;
    }
    proof {
        assert(is_id_order(band_ids(today@ + yesterday@), order));
    }
    out
}

// ----------------------------------------------------------------------
// Trains
// ----------------------------------------------------------------------

/// What the decision table of the matching module says about a run.
pub open spec fn run_match(entries: Seq<TripMatch>, trip: TripInstance) -> UpdateMatch {
    scan_from(
        entries,
        trip.source_trip_id@,
        trip.service_date.day_count(),
        expanded_start_spec(trip),
        0,
        false,
    )
}

/// The trip update that belongs to a run, read from the feed.
pub open spec fn run_update(entries: Seq<TripMatch>, us: Seq<TripUpdate>, trip: TripInstance) -> Option<
    TripUpdate,
> {
    match run_match(entries, trip).update {
        Some(k) => Some(us[k as int]),
        None => None,
    }
}

/// Where a run is at its clock reading.
pub open spec fn run_placement(
    entries: Seq<TripMatch>,
    us: Seq<TripUpdate>,
    live: bool,
    r: (TripInstance, int),
) -> Placement {
    placement(r.0, r.1, live, run_match(entries, r.0).targeted, run_update(entries, us, r.0))
}

/// The runs of both service days, each with the clock reading of its
/// own day: the board's day at the clock, the day before 24 hours
/// later.
pub open spec fn day_runs(today: Seq<TripInstance>, yesterday: Seq<TripInstance>, clock: int) -> Seq<
    (TripInstance, int),
> {
    today.map_values(|t: TripInstance| (t, clock)) + yesterday.map_values(
        |t: TripInstance| (t, clock + 86400),
    )
}

/// The first `n` runs that stand at a station or lie on an edge.
pub open spec fn placed_upto(
    runs: Seq<(TripInstance, int)>,
    entries: Seq<TripMatch>,
    us: Seq<TripUpdate>,
    live: bool,
    n: int,
) -> Seq<(TripInstance, int)>
    decreases n,
{
    if n <= 0 {
        Seq::empty()
    } else {
        let prev = placed_upto(runs, entries, us, live, n - 1);
        let p = run_placement(entries, us, live, runs[n - 1]);
        if p is At || p is Edge {
            prev.push(runs[n - 1])
        } else {
            prev
        }
    }
}

/// The codes of the diagnostics that placing runs `lo` to `hi` leaves.
pub open spec fn run_codes(
    runs: Seq<(TripInstance, int)>,
    entries: Seq<TripMatch>,
    us: Seq<TripUpdate>,
    live: bool,
    lo: int,
    hi: int,
) -> Seq<Seq<char>>
    decreases hi - lo,
{
    if hi <= lo {
        Seq::empty()
    } else {
        run_codes(runs, entries, us, live, lo, hi - 1) + placement_codes(
            runs[hi - 1].0,
            runs[hi - 1].1,
            live,
            run_match(entries, runs[hi - 1].0),
            run_update(entries, us, runs[hi - 1].0),
        )
    }
}

/// What placing runs `lo` to `hi` leaves, as plain values.
pub open spec fn run_views(
    runs: Seq<(TripInstance, int)>,
    entries: Seq<TripMatch>,
    us: Seq<TripUpdate>,
    live: bool,
    lo: int,
    hi: int,
) -> Seq<(crate::common::Severity, Seq<char>, Seq<char>, Option<Seq<char>>)>
    decreases hi - lo,
{
    if hi <= lo {
        Seq::empty()
    } else {
        run_views(runs, entries, us, live, lo, hi - 1) + placement_findings(
            runs[hi - 1].0,
            runs[hi - 1].1,
            live,
            run_match(entries, runs[hi - 1].0),
            run_update(entries, us, runs[hi - 1].0),
        )
    }
}

/// The identifiers of placed runs.
pub open spec fn run_ids(runs: Seq<(TripInstance, int)>) -> Seq<Seq<char>> {
    runs.map_values(|r: (TripInstance, int)| r.0.instance_id@)
}

/// Whether a map train shows a placed run.
pub open spec fn train_shows(
    network: RailNetwork,
    entries: Seq<TripMatch>,
    us: Seq<TripUpdate>,
    live: bool,
    r: (TripInstance, int),
    t: MapTrain,
) -> bool {
    train_matches(
        t,
        network,
        r.0,
        r.1,
        live,
        run_update(entries, us, r.0),
        run_placement(entries, us, live, r),
    )
}

/// The updates of an optional feed.
pub open spec fn feed_updates(realtime: Option<&RailRtFeed>) -> Seq<TripUpdate> {
    match realtime {
        Some(f) => f.trip_updates@,
        None => Seq::empty(),
    }
}

pub(crate) fn extend_diagnostics(out: &mut Vec<Diagnostic>, more: &Vec<Diagnostic>)
    ensures
        codes_of(final(out)@) == codes_of(old(out)@) + codes_of(more@),
        final(out)@.len() == old(out)@.len() + more@.len(),
        forall|k: int| 0 <= k < old(out)@.len() ==> #[trigger] final(out)@[k] == old(out)@[k],
        forall|k: int|
            0 <= k < more@.len() ==> (#[trigger] final(out)@[old(out)@.len() + k]).severity
                == more@[k].severity,
        graded_snapshot(old(out)@) && graded_snapshot(more@) ==> graded_snapshot(final(out)@),
        diagnostic_views(final(out)@) == diagnostic_views(old(out)@) + diagnostic_views(more@),
{
    let ghost start = out@;
    let mut i: usize = 0;
    while i < more.len()
        invariant
            i <= more@.len(),
            diagnostic_views(out@) == diagnostic_views(start) + diagnostic_views(more@.take(i as int)),
            codes_of(out@) == codes_of(start) + codes_of(more@.take(i as int)),
            out@.len() == start.len() + i,
            forall|k: int| 0 <= k < start.len() ==> #[trigger] out@[k] == start[k],
            forall|k: int|
                0 <= k < i ==> (#[trigger] out@[start.len() + k]).severity == more@[k].severity
                    && out@[start.len() + k].code@ == more@[k].code@,
        decreases more@.len() - i,
    {
        let ghost before = out@;
        out.push(more[i].duplicate());
        proof {
            assert forall|k: int| 0 <= k < start.len() implies #[trigger] out@[k] == start[k] by {
                assert(out@[k] == before[k]);
            }
            assert forall|k: int|
                0 <= k < i + 1 implies (#[trigger] out@[start.len() + k]).severity
                    == more@[k].severity && out@[start.len() + k].code@ == more@[k].code@ by {
                if k < i {
                    assert(out@[start.len() + k] == before[start.len() + k]);
                }
            }
            assert(codes_of(out@) =~= codes_of(before).push(more@[i as int].code@));
            assert(diagnostic_views(out@) =~= diagnostic_views(before).push(diagnostic_view(out@.last())));
            assert(diagnostic_views(more@.take(i + 1)) =~= diagnostic_views(more@.take(i as int)).push(
                diagnostic_view(more@[i as int]),
            ));
            assert(codes_of(more@.take(i + 1)) =~= codes_of(more@.take(i as int)).push(
                more@[i as int].code@,
            ));
        }
        i = i + 1;
    }
    proof {
        assert(more@.take(more@.len() as int) =~= more@);
        if graded_snapshot(start) && graded_snapshot(more@) {
            assert forall|k: int| 0 <= k < out@.len() implies snapshot_severity(
                (#[trigger] out@[k]).code@,
            ) is None || snapshot_severity(out@[k].code@) == Some(out@[k].severity) by {
                if k >= start.len() {
                    let j = k - start.len();
                    assert(out@[start.len() + j].code@ == more@[j].code@);
                    assert(more@[j].severity == out@[start.len() + j].severity);
                }
            }
        }
    }
}

/// Whether each train shows the placed run that the order names, and
/// carries its identifier.
pub open spec fn shows_all(
    network: RailNetwork,
    entries: Seq<TripMatch>,
    us: Seq<TripUpdate>,
    live: bool,
    placed: Seq<(TripInstance, int)>,
    order: Seq<int>,
    out: Seq<MapTrain>,
) -> bool {
    &&& out.len() == order.len()
    &&& forall|k: int|
        0 <= k < order.len() ==> train_shows(network, entries, us, live, placed[#[trigger] order[k]], out[k])
    &&& forall|k: int| 0 <= k < order.len() ==> (#[trigger] out[k]).instance_id@ == placed[order[k]].0.instance_id@
}

proof fn lemma_shows_insert(
    network: RailNetwork,
    entries: Seq<TripMatch>,
    us: Seq<TripUpdate>,
    live: bool,
    placed: Seq<(TripInstance, int)>,
    order: Seq<int>,
    out: Seq<MapTrain>,
    pos: int,
    cidx: int,
    t: MapTrain,
)
    requires
        shows_all(network, entries, us, live, placed, order, out),
        0 <= pos <= order.len(),
        train_shows(network, entries, us, live, placed[cidx], t),
        t.instance_id@ == placed[cidx].0.instance_id@,
    ensures
        shows_all(network, entries, us, live, placed, order.insert(pos, cidx), out.insert(pos, t)),
{
    let o2 = order.insert(pos, cidx);
    let t2 = out.insert(pos, t);
    assert forall|k: int| 0 <= k < o2.len() implies train_shows(
        network,
        entries,
        us,
        live,
        placed[#[trigger] o2[k]],
        t2[k],
    ) && t2[k].instance_id@ == placed[o2[k]].0.instance_id@ by {
        if k < pos {
            assert(o2[k] == order[k]);
            assert(t2[k] == out[k]);
        } else if k > pos {
            assert(o2[k] == order[k - 1]);
            assert(t2[k] == out[k - 1]);
        }
    }
}

fn train_slot(out: &Vec<MapTrain>, id: &str) -> (pos: usize)
    ensures
        pos <= out@.len(),
        forall|k: int| 0 <= k < pos ==> !seq_lt(id@, (#[trigger] out@[k]).instance_id@),
        pos < out@.len() ==> seq_lt(id@, out@[pos as int].instance_id@),
{
    let mut pos: usize = 0;
    while pos < out.len()
        invariant
            pos <= out@.len(),
            forall|k: int| 0 <= k < pos ==> !seq_lt(id@, (#[trigger] out@[k]).instance_id@),
        decreases out@.len() - pos,
    {
        if str_lt(id, out[pos].instance_id.as_str()) {
            return pos;
        }
        pos = pos + 1;
    }
    pos
}

/// Whether a placement puts a run on the map.
pub open spec fn on_map(p: Placement) -> bool {
    p is At || p is Edge
}

/// Place one run and insert its train, if it has one, at its place in
/// the order by identifier.
fn place_one(
    network: &RailNetwork,
    trip: &TripInstance,
    reading: GtfsTime,
    live: bool,
    index: &TripUpdateIndex,
    realtime: Option<&RailRtFeed>,
    out: &mut Vec<MapTrain>,
    diagnostics: &mut Vec<Diagnostic>,
    Ghost(all): Ghost<Seq<(TripInstance, int)>>,
    Ghost(order): Ghost<Seq<int>>,
) -> (res: Ghost<Seq<int>>)
    requires
        index_of_feed(index.entries@, feed_updates(realtime)),
        trip_in_network(*network, *trip),
        id_sorted(run_ids(all), order),
        forall|k: int| 0 <= k < order.len() ==> #[trigger] order[k] < order.len(),
        shows_all(*network, index.entries@, feed_updates(realtime), live, all, order, old(out)@),
        on_map(run_placement(index.entries@, feed_updates(realtime), live, (*trip, reading.secs as int)))
            ==> order.len() < all.len() && all[order.len() as int] == (*trip, reading.secs as int),
    ensures
        codes_of(final(diagnostics)@) == codes_of(old(diagnostics)@) + placement_codes(
            *trip,
            reading.secs as int,
            live,
            run_match(index.entries@, *trip),
            run_update(index.entries@, feed_updates(realtime), *trip),
        ),
        res@.len() == order.len() + (if on_map(
            run_placement(index.entries@, feed_updates(realtime), live, (*trip, reading.secs as int)),
        ) {
            1int
        } else {
            0int
        }),
        id_sorted(run_ids(all), res@),
        forall|k: int| 0 <= k < res@.len() ==> #[trigger] res@[k] < res@.len(),
        shows_all(*network, index.entries@, feed_updates(realtime), live, all, res@, final(out)@),
        graded_snapshot(old(diagnostics)@) ==> graded_snapshot(final(diagnostics)@),
        keeps_prefix(old(diagnostics)@, final(diagnostics)@),
        diagnostic_views(final(diagnostics)@) == diagnostic_views(old(diagnostics)@) + placement_findings(
            *trip,
            reading.secs as int,
            live,
            run_match(index.entries@, *trip),
            run_update(index.entries@, feed_updates(realtime), *trip),
        ),
{
    let ghost entries = index.entries@;
    let ghost us = feed_updates(realtime);
    let ghost ids = run_ids(all);
    proof {
        lemma_index_names_updates(entries, us);
    }
    let run = RunKey::for_instance(trip);
    let m = index.lookup(run);
    proof {
        lemma_lookup_sound(entries, run);
        assert(m == run_match(entries, *trip));
    }
    let u: Option<&TripUpdate> = match m.update {
        Some(k) => match realtime {
            Some(f) => Some(&f.trip_updates[k]),
            None => None,
        },
        None => None,
    };
    proof {
        assert(crate::map::deref_update(u) == run_update(entries, us, *trip));
    }
    let placed = place(network, trip, reading, live, m, u, diagnostics);
    match placed {
        Some(t) => {
            let ghost cidx = order.len() as int;
            proof {
                assert(ids[cidx] == t.instance_id@);
            }
            let pos = train_slot(out, t.instance_id.as_str());
            proof {
                assert forall|k: int| 0 <= k < pos implies !seq_lt(ids[cidx], ids[#[trigger] order[k]]) by {
                    assert(out@[k].instance_id@ == all[order[k]].0.instance_id@);
                }
                if pos < out@.len() {
                    assert(out@[pos as int].instance_id@ == all[order[pos as int]].0.instance_id@);
                }
                lemma_id_insert(ids, order, cidx, pos as int);
                lemma_shows_insert(*network, entries, us, live, all, order, out@, pos as int, cidx, t);
            }
            out.insert(pos, t);
            let ghost o2 = order.insert(pos as int, cidx);
            proof {
                assert forall|k: int| 0 <= k < o2.len() implies #[trigger] o2[k] < o2.len() by {
                    if k < pos {
                        assert(o2[k] == order[k]);
                    } else if k > pos {
                        assert(o2[k] == order[k - 1]);
                    }
                }
            }
            Ghost(o2)
        },
        None => Ghost(order),
    }
}

/// Place the runs of both days and order the trains by identifier.
#[verifier::spinoff_prover]
#[verifier::rlimit(100)]
fn sorted_trains(
    network: &RailNetwork,
    today: &TripQueryResult,
    yesterday: &TripQueryResult,
    clock: GtfsTime,
    live: bool,
    index: &TripUpdateIndex,
    realtime: Option<&RailRtFeed>,
    diagnostics: &mut Vec<Diagnostic>,
) -> (r: Vec<MapTrain>)
    requires
        index_of_feed(index.entries@, feed_updates(realtime)),
        clock.secs + 86400 <= u32::MAX,
        today.trips@.len() + yesterday.trips@.len() <= usize::MAX,
        forall|i: int| 0 <= i < today.trips@.len() ==> trip_in_network(*network, #[trigger] today.trips@[i]),
        forall|i: int|
            0 <= i < yesterday.trips@.len() ==> trip_in_network(*network, #[trigger] yesterday.trips@[i]),
    ensures
        ({
            let runs = day_runs(today.trips@, yesterday.trips@, clock.secs as int);
            let entries = index.entries@;
            let us = feed_updates(realtime);
            let placed = placed_upto(runs, entries, us, live, runs.len() as int);
            &&& exists|order: Seq<int>|
                is_id_order(run_ids(placed), order) && shows_all(*network, entries, us, live, placed, order, r@)
            &&& codes_of(final(diagnostics)@) == codes_of(old(diagnostics)@) + codes_of(
                today.diagnostics@,
            ) + run_codes(runs, entries, us, live, 0, today.trips@.len() as int) + codes_of(
                yesterday.diagnostics@,
            ) + run_codes(runs, entries, us, live, today.trips@.len() as int, runs.len() as int)
        }),
        graded_snapshot(old(diagnostics)@) && graded_snapshot(today.diagnostics@)
            && graded_snapshot(yesterday.diagnostics@) ==> graded_snapshot(final(diagnostics)@),
        keeps_prefix(old(diagnostics)@, final(diagnostics)@),
        ({
            let runs = day_runs(today.trips@, yesterday.trips@, clock.secs as int);
            let entries = index.entries@;
            let us = feed_updates(realtime);
            diagnostic_views(final(diagnostics)@) == diagnostic_views(old(diagnostics)@) + diagnostic_views(
                today.diagnostics@,
            ) + run_views(runs, entries, us, live, 0, today.trips@.len() as int) + diagnostic_views(
                yesterday.diagnostics@,
            ) + run_views(runs, entries, us, live, today.trips@.len() as int, runs.len() as int)
        }),
{
    let ghost ds0 = diagnostics@;
    let ghost vstart = diagnostic_views(diagnostics@);
    let ghost graded_in = graded_snapshot(diagnostics@) && graded_snapshot(today.diagnostics@)
        && graded_snapshot(yesterday.diagnostics@);
    let ghost entries = index.entries@;
    let ghost us = feed_updates(realtime);
    let ghost runs = day_runs(today.trips@, yesterday.trips@, clock.secs as int);
    let ghost start = codes_of(diagnostics@);
    extend_diagnostics(diagnostics, &today.diagnostics);
    let nt = today.trips.len();
    let total = nt + yesterday.trips.len();
    let ghost all = placed_upto(runs, entries, us, live, runs.len() as int);
    let ghost mut order: Seq<int> = Seq::empty();
    let mut out: Vec<MapTrain> = Vec::new();
    let mut c: usize = 0;
    while c < total
        invariant
            nt == today.trips@.len(),
            total == runs.len(),
            runs == day_runs(today.trips@, yesterday.trips@, clock.secs as int),
            entries == index.entries@,
            us == feed_updates(realtime),
            index_of_feed(entries, us),
            all == placed_upto(runs, entries, us, live, runs.len() as int),
            clock.secs + 86400 <= u32::MAX,
            forall|i: int| 0 <= i < today.trips@.len() ==> trip_in_network(*network, #[trigger] today.trips@[i]),
            forall|i: int|
                0 <= i < yesterday.trips@.len() ==> trip_in_network(*network, #[trigger] yesterday.trips@[i]),
            c <= total,
            order.len() == placed_upto(runs, entries, us, live, c as int).len(),
            id_sorted(run_ids(all), order),
            forall|k: int| 0 <= k < order.len() ==> #[trigger] order[k] < order.len(),
            shows_all(*network, entries, us, live, all, order, out@),
            c <= nt ==> codes_of(diagnostics@) == start + codes_of(today.diagnostics@) + run_codes(
                runs,
                entries,
                us,
                live,
                0,
                c as int,
            ),
            c > nt ==> codes_of(diagnostics@) == start + codes_of(today.diagnostics@) + run_codes(
                runs,
                entries,
                us,
                live,
                0,
                nt as int,
            ) + codes_of(yesterday.diagnostics@) + run_codes(runs, entries, us, live, nt as int, c as int),
            graded_in ==> graded_snapshot(diagnostics@),
            graded_in ==> graded_snapshot(yesterday.diagnostics@),
            keeps_prefix(ds0, diagnostics@),
            c <= nt ==> diagnostic_views(diagnostics@) == vstart + diagnostic_views(today.diagnostics@)
                + run_views(runs, entries, us, live, 0, c as int),
            c > nt ==> diagnostic_views(diagnostics@) == vstart + diagnostic_views(today.diagnostics@)
                + run_views(runs, entries, us, live, 0, nt as int) + diagnostic_views(yesterday.diagnostics@)
                + run_views(runs, entries, us, live, nt as int, c as int),
        decreases total - c,
    {
        proof {
            lemma_placed_prefix(runs, entries, us, live, c + 1, runs.len() as int);
        }
        if c == nt {
            extend_diagnostics(diagnostics, &yesterday.diagnostics);
        }
        let (trip, reading) = if c < nt {
            (&today.trips[c], clock)
        } else {
            (&yesterday.trips[c - nt], GtfsTime::from_seconds(clock.secs + SECS_PER_DAY))
        };
        proof {
            assert(runs[c as int] == (*trip, reading.secs as int));
            if on_map(run_placement(entries, us, live, runs[c as int])) {
                assert(placed_upto(runs, entries, us, live, c + 1) == placed_upto(
                    runs,
                    entries,
                    us,
                    live,
                    c as int,
                ).push(runs[c as int]));
            }
        }
        let ghost before = codes_of(diagnostics@);
        let Ghost(next) = place_one(
            network,
            trip,
            reading,
            live,
            index,
            realtime,
            &mut out,
            diagnostics,
            Ghost(all),
            Ghost(order),
        );
        proof {
            order = next;
            assert(run_codes(runs, entries, us, live, 0, c + 1) == run_codes(runs, entries, us, live, 0, c as int)
                + placement_codes(
                runs[c as int].0,
                runs[c as int].1,
                live,
                run_match(entries, runs[c as int].0),
                run_update(entries, us, runs[c as int].0),
            ));
            if c >= nt {
                assert(run_codes(runs, entries, us, live, nt as int, c + 1) == run_codes(
                    runs,
                    entries,
                    us,
                    live,
                    nt as int,
                    c as int,
                ) + placement_codes(
                    runs[c as int].0,
                    runs[c as int].1,
                    live,
                    run_match(entries, runs[c as int].0),
                    run_update(entries, us, runs[c as int].0),
                ));
            }
            if c == nt {
                assert(run_codes(runs, entries, us, live, nt as int, nt as int) =~= Seq::empty());
                assert(run_views(runs, entries, us, live, nt as int, nt as int) =~= Seq::empty());
            }
            assert(run_views(runs, entries, us, live, 0, c + 1) == run_views(runs, entries, us, live, 0, c as int)
                + placement_findings(
                runs[c as int].0,
                runs[c as int].1,
                live,
                run_match(entries, runs[c as int].0),
                run_update(entries, us, runs[c as int].0),
            ));
            if c >= nt {
                assert(run_views(runs, entries, us, live, nt as int, c + 1) == run_views(
                    runs,
                    entries,
                    us,
                    live,
                    nt as int,
                    c as int,
                ) + placement_findings(
                    runs[c as int].0,
                    runs[c as int].1,
                    live,
                    run_match(entries, runs[c as int].0),
                    run_update(entries, us, runs[c as int].0),
                ));
            }
        }
        c = c + 1;
    }
    if total == nt {
        extend_diagnostics(diagnostics, &yesterday.diagnostics);
        proof {
            assert(run_codes(runs, entries, us, live, nt as int, nt as int) =~= Seq::empty());
            assert(run_views(runs, entries, us, live, nt as int, nt as int) =~= Seq::empty());
        }
    }
    proof {
        assert(is_id_order(run_ids(all), order));
    }
    out
}

/// The runs placed among the first `n` are the first of those placed
/// among the first `m`.
proof fn lemma_placed_prefix(
    runs: Seq<(TripInstance, int)>,
    entries: Seq<TripMatch>,
    us: Seq<TripUpdate>,
    live: bool,
    n: int,
    m: int,
)
    requires
        0 <= n <= m,
    ensures
        placed_upto(runs, entries, us, live, n).len() <= placed_upto(runs, entries, us, live, m).len(),
        forall|k: int|
            0 <= k < placed_upto(runs, entries, us, live, n).len() ==> #[trigger] placed_upto(
                runs,
                entries,
                us,
                live,
                m,
            )[k] == placed_upto(runs, entries, us, live, n)[k],
    decreases m - n,
{
    if n < m {
        lemma_placed_prefix(runs, entries, us, live, n, m - 1);
    }
}

// ----------------------------------------------------------------------
// The snapshot
// ----------------------------------------------------------------------

/// The feed a builder holds.
pub open spec fn builder_feed(b: NetworkSnapshotBuilder) -> Option<RailRtFeed> {
    match b.realtime {
        Some(f) => Some(*f),
        None => None,
    }
}

/// The operator's alerts a builder holds.
pub open spec fn builder_alerts(b: NetworkSnapshotBuilder) -> Option<TrainServiceAlerts> {
    match b.alerts {
        Some(a) => Some(*a),
        None => None,
    }
}

/// The age of the feed a builder holds.
pub open spec fn builder_age(b: NetworkSnapshotBuilder) -> Option<u64> {
    match b.realtime {
        Some(f) => crate::map::age_of(f.feed_timestamp, b.now_unix),
        None => None,
    }
}

/// The freshness a builder judges at a date and a clock reading.
pub open spec fn builder_freshness(b: NetworkSnapshotBuilder, date: ServiceDate, clock: GtfsTime) -> Freshness {
    Freshness {
        service_date: date,
        clock,
        feed_timestamp: match b.realtime {
            Some(f) => f.feed_timestamp,
            None => None,
        },
        now_unix: b.now_unix,
        age_secs: builder_age(b),
        ageing_secs: b.ageing_secs,
        staleness_secs: b.staleness_secs,
        state: crate::map::freshness_state_of(
            b.realtime is Some,
            builder_age(b),
            b.ageing_secs,
            b.staleness_secs,
        ),
    }
}

/// Whether the trains and the diagnostics of a snapshot are those that
/// an index of the feed gives: the placed runs of both days ordered by
/// identifier; the freshness findings, one warning for each unreadable
/// descriptor field, and then each day's query findings followed by
/// the placement findings of its runs.
pub open spec fn runs_shown(
    b: NetworkSnapshotBuilder,
    date: ServiceDate,
    clock: GtfsTime,
    today: TripQueryResult,
    yesterday: TripQueryResult,
    entries: Seq<TripMatch>,
    s: NetworkSnapshot,
) -> bool {
    let network = *b.network;
    let us = feed_updates(b.realtime);
    let f = builder_freshness(b, date, clock);
    let live = crate::map::is_current_spec(f.state);
    let runs = day_runs(today.trips@, yesterday.trips@, clock.secs as int);
    let placed = placed_upto(runs, entries, us, live, runs.len() as int);
    let fc = freshness_codes(builder_feed(b), f.age_secs, b.ageing_secs, b.staleness_secs);
    let unreadable = match b.realtime {
        Some(r) => unreadable_count(r.trip_updates@) as int,
        None => 0int,
    };
    let rest = codes_of(today.diagnostics@) + run_codes(
        runs,
        entries,
        us,
        live,
        0,
        today.trips@.len() as int,
    ) + codes_of(yesterday.diagnostics@) + run_codes(
        runs,
        entries,
        us,
        live,
        today.trips@.len() as int,
        runs.len() as int,
    );
    &&& index_of_feed(entries, us)
    &&& exists|order: Seq<int>|
        is_id_order(run_ids(placed), order) && shows_all(network, entries, us, live, placed, order, s.trains@)
    &&& s.diagnostics@.len() == fc.len() + unreadable + rest.len()
    &&& codes_of(s.diagnostics@).take(fc.len() as int) == fc
    &&& codes_of(s.diagnostics@).skip(fc.len() + unreadable) == rest
    &&& diagnostic_views(s.diagnostics@).take(fc.len() + unreadable) == freshness_findings(
        builder_feed(b),
        f.age_secs,
        b.ageing_secs,
        b.staleness_secs,
    ) + match b.realtime {
        Some(r) => unreadable_findings(r.trip_updates@),
        None => Seq::empty(),
    }
    &&& diagnostic_views(s.diagnostics@).skip(fc.len() + unreadable) == diagnostic_views(today.diagnostics@)
        + run_views(runs, entries, us, live, 0, today.trips@.len() as int) + diagnostic_views(
        yesterday.diagnostics@,
    ) + run_views(runs, entries, us, live, today.trips@.len() as int, runs.len() as int)
}

/// Whether a snapshot is the one a builder makes at a date and a clock
/// reading from the query results of the date and of the day before.
pub open spec fn snapshot_of(
    b: NetworkSnapshotBuilder,
    date: ServiceDate,
    clock: GtfsTime,
    today: TripQueryResult,
    yesterday: TripQueryResult,
    s: NetworkSnapshot,
) -> bool {
    let network = *b.network;
    let alerts = builder_alerts(b);
    let all_bands = today.frequency_bands@ + yesterday.frequency_bands@;
    &&& s.lines@.len() == network.lines@.len()
    &&& forall|i: int| 0 <= i < s.lines@.len() ==> map_line_shows(alerts, network, i, #[trigger] s.lines@[i])
    &&& s.stations@.len() == network.stations@.len()
    &&& forall|i: int| 0 <= i < s.stations@.len() ==> map_station_shows(network, i, #[trigger] s.stations@[i])
    &&& s.edges@ == edges_upto(network, network.patterns@.len() as int)
    &&& string_views(s.notices@) == snapshot_notices(alerts)
    &&& s.freshness == builder_freshness(b, date, clock)
    &&& exists|order: Seq<int>|
        is_id_order(band_ids(all_bands), order) && s.bands@.len() == order.len() && forall|k: int|
            0 <= k < order.len() ==> band_shows(all_bands[#[trigger] order[k]], s.bands@[k])
    &&& exists|entries: Seq<TripMatch>| runs_shown(b, date, clock, today, yesterday, entries, s)
}

impl<'a> NetworkSnapshotBuilder<'a> {
    /// Build the snapshot for one service date and one clock reading,
    /// from the caller's queries of the date around `clock` and of the
    /// day before around `clock` plus 24 hours.
    ///
    /// A run reaches the map from one of the two days: an
    /// `instance_id` carries the service date it came from, so the two
    /// days stay distinct and the order stays stable.
    #[verifier::spinoff_prover]
    #[verifier::rlimit(100)]
    pub fn build(
        &self,
        date: ServiceDate,
        clock: GtfsTime,
        today: &TripQueryResult,
        yesterday: &TripQueryResult,
    ) -> (s: NetworkSnapshot)
        requires
            clock.secs + 86400 <= u32::MAX,
            today.trips@.len() + yesterday.trips@.len() <= usize::MAX,
            today.frequency_bands@.len() + yesterday.frequency_bands@.len() <= usize::MAX,
            forall|i: int|
                0 <= i < today.trips@.len() ==> trip_in_network(*self.network, #[trigger] today.trips@[i]),
            forall|i: int|
                0 <= i < yesterday.trips@.len() ==> trip_in_network(
                    *self.network,
                    #[trigger] yesterday.trips@[i],
                ),
        ensures
            snapshot_of(*self, date, clock, *today, *yesterday, s),
            graded_snapshot(today.diagnostics@) && graded_snapshot(yesterday.diagnostics@)
                ==> graded_snapshot(s.diagnostics@),
    {
        let mut diagnostics: Vec<Diagnostic> = Vec::new();
        proof {
            assert(graded_snapshot(diagnostics@));
        }
        let freshness = judge_freshness(
            date,
            clock,
            self.realtime,
            self.now_unix,
            self.ageing_secs,
            self.staleness_secs,
            &mut diagnostics,
        );
        let ghost after_freshness = diagnostics@;
        let live = freshness.state.is_current();
        let index = TripUpdateIndex::from_feed(self.realtime, &mut diagnostics);
        let ghost after_index = diagnostics@;
        proof {
            if self.realtime is None {
                assert(named_updates(feed_updates(self.realtime)).len() == 0);
            }
        }
        let trains = sorted_trains(
            self.network,
            today,
            yesterday,
            clock,
            live,
            &index,
            self.realtime,
            &mut diagnostics,
        );
        let bands = sorted_bands(&today.frequency_bands, &yesterday.frequency_bands);
        let s = NetworkSnapshot {
            lines: map_lines(self.alerts, self.network),
            stations: map_stations(self.network),
            edges: map_edges(self.network),
            trains,
            bands,
            freshness,
            notices: map_notices(self.alerts),
            diagnostics,
        };
        proof {
            let fc = freshness_codes(
                builder_feed(*self),
                freshness.age_secs,
                self.ageing_secs,
                self.staleness_secs,
            );
            assert(codes_of(after_freshness) =~= fc);
            assert(codes_of(after_index).take(fc.len() as int) =~= fc);
            assert(codes_of(s.diagnostics@) =~= codes_of(after_index) + codes_of(s.diagnostics@).skip(
                after_index.len() as int,
            ));
            let unreadable = match self.realtime {
                Some(r) => unreadable_count(r.trip_updates@) as int,
                None => 0int,
            };
            assert(after_index.len() == fc.len() + unreadable);
            assert(freshness == builder_freshness(*self, date, clock));
            assert(live == crate::map::is_current_spec(builder_freshness(*self, date, clock).state));
            let us = feed_updates(self.realtime);
            let runs = day_runs(today.trips@, yesterday.trips@, clock.secs as int);
            let rest = codes_of(today.diagnostics@) + run_codes(
                runs,
                index.entries@,
                us,
                live,
                0,
                today.trips@.len() as int,
            ) + codes_of(yesterday.diagnostics@) + run_codes(
                runs,
                index.entries@,
                us,
                live,
                today.trips@.len() as int,
                runs.len() as int,
            );
            assert(codes_of(s.diagnostics@) == codes_of(after_index) + rest);
            assert(codes_of(s.diagnostics@).skip(fc.len() + unreadable) =~= rest);
            assert(codes_of(s.diagnostics@).take(fc.len() as int) =~= fc);
            assert(diagnostic_views(after_index).len() == after_index.len());
            assert(diagnostic_views(s.diagnostics@).take(after_index.len() as int) =~= diagnostic_views(
                after_index,
            ));
            assert(diagnostic_views(s.diagnostics@).skip(after_index.len() as int) =~= diagnostic_views(
                today.diagnostics@,
            ) + run_views(runs, index.entries@, us, live, 0, today.trips@.len() as int) + diagnostic_views(
                yesterday.diagnostics@,
            ) + run_views(runs, index.entries@, us, live, today.trips@.len() as int, runs.len() as int));
            assert(runs_shown(*self, date, clock, *today, *yesterday, index.entries@, s));
        }
        s
    }
}

/// Where the realtime layer is missing, stale, or of unknown age, the
/// snapshot is the schedule: every train is schedule-only and carries
/// no delay from a trip update.
pub proof fn lemma_without_a_current_layer_every_train_is_schedule_only(
    b: NetworkSnapshotBuilder,
    date: ServiceDate,
    clock: GtfsTime,
    today: TripQueryResult,
    yesterday: TripQueryResult,
    s: NetworkSnapshot,
)
    requires
        snapshot_of(b, date, clock, today, yesterday, s),
        !crate::map::is_current_spec(s.freshness.state),
    ensures
        forall|k: int|
            0 <= k < s.trains@.len() ==> (#[trigger] s.trains@[k]).quality
                == crate::map::PositionQuality::ScheduleOnly && s.trains@[k].delay_secs is None,
{
    let entries = choose|entries: Seq<TripMatch>| runs_shown(b, date, clock, today, yesterday, entries, s);
    let us = feed_updates(b.realtime);
    let runs = day_runs(today.trips@, yesterday.trips@, clock.secs as int);
    let placed = placed_upto(runs, entries, us, false, runs.len() as int);
    assert(crate::map::is_current_spec(builder_freshness(b, date, clock).state) == false);
    assert(exists|order: Seq<int>|
        is_id_order(run_ids(placed), order) && shows_all(*b.network, entries, us, false, placed, order, s.trains@));
    let order = choose|order: Seq<int>|
        is_id_order(run_ids(placed), order) && shows_all(*b.network, entries, us, false, placed, order, s.trains@);
    assert forall|k: int| 0 <= k < s.trains@.len() implies (#[trigger] s.trains@[k]).quality
        == crate::map::PositionQuality::ScheduleOnly && s.trains@[k].delay_secs is None by {
        let r = placed[order[k]];
        assert(train_shows(*b.network, entries, us, false, r, s.trains@[k]));
        assert(crate::map::shifting_trip_update(false, run_update(entries, us, r.0)) is None);
        let adj = crate::map::adjusted_calls(r.0.calls@, None);
        crate::map::lemma_placement_names_a_call(
            r.0,
            r.1,
            false,
            run_match(entries, r.0).targeted,
            run_update(entries, us, r.0),
        );
        match run_placement(entries, us, false, r) {
            Placement::At(i) => {
                assert(adj[i] == crate::map::adjusted_spec(r.0.calls@[i], None));
                lemma_unshifted_call(r.0.calls@[i]);
            },
            Placement::Edge(e) => {
                assert(adj[e] == crate::map::adjusted_spec(r.0.calls@[e], None));
                assert(adj[e + 1] == crate::map::adjusted_spec(r.0.calls@[e + 1], None));
                lemma_unshifted_call(r.0.calls@[e]);
                lemma_unshifted_call(r.0.calls@[e + 1]);
            },
            _ => {},
        }
    }
}

proof fn lemma_unshifted_call(c: crate::schedule::ScheduledCall)
    ensures
        crate::map::adjusted_spec(c, None) matches Some(a) ==> !a.realtime && a.delay_secs is None,
{
    assert(crate::map::announced_for(None, c.platform_stop_id@) is None);
    assert(crate::map::shifting_update(None, c) is None);
    assert(crate::map::trip_delay_of(None) is None);
    assert(crate::map::arrival_delay_of(None, c) is None);
    assert(crate::map::departure_delay_of(None, c) is None);
}

} // verus!
