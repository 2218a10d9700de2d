//! Which runs and headway blocks a train diagram draws, and what it
//! says of each, before any coordinate is computed.
//!
//! A run whose calls do not follow the station axis is dropped with a
//! diagnostic, never bent onto the axis. A kept run carries the nodes
//! its calls map onto, the way it travels, its destination, the label
//! the configuration allows, and the panel it starts in.

use vstd::prelude::*;

use crate::common::{copy_option, Diagnostic, Line, Severity};
use crate::config::{config_error, PublicationConfig, TripLabelMode};
use crate::corridor::{
    first_corridor, map_run_spec, paths_consistent, resolve_corridor, target_plan, AxisDirection,
    CorridorPlan, DiagramTarget,
};
use crate::diagram::{axis_fits, axis_of, build_time_axis, interval_secs, TimeAxis};
use crate::error::PublicationError;
use crate::schedule::{
    arrival_or_departure_of, last_start_of, patterns_in_network, FrequencyBand, RailNetwork,
    ScheduledCall, TripInstance, TripQueryResult,
};
use crate::text::{direction_text, Labels};
use crate::textbuf::{chars_eq, chars_of, lower_seq, owned, push_str, str_eq, to_lower_chars};
use crate::time::{time_text, GtfsTime};

verus! {

/// One run that follows the corridor.
#[derive(Clone, Debug)]
pub struct PlannedRun {
    /// The index of the run in the query result.
    pub trip: usize,
    /// The corridor node of every call.
    pub nodes: Vec<usize>,
    /// Which way the run travels along the axis.
    pub direction: AxisDirection,
    /// The destination text.
    pub destination: String,
    /// The label the diagram may write on the path.
    pub label: Option<String>,
    /// The panel of the first node.
    pub panel: usize,
}

/// One headway block whose template follows the corridor.
#[derive(Clone, Debug)]
pub struct PlannedBand {
    /// The index of the block in the query result.
    pub band: usize,
    /// The corridor node of every call of the template.
    pub nodes: Vec<usize>,
    /// Which way the block travels along the axis.
    pub direction: AxisDirection,
    /// The destination text.
    pub destination: String,
    /// The panel of the first node.
    pub panel: usize,
    /// How much later than the template the last run of the block
    /// starts, in seconds.
    pub shift_secs: u32,
}

/// The stations of a list of calls.
pub open spec fn call_stations(calls: Seq<ScheduledCall>) -> Seq<usize> {
    calls.map_values(|c: ScheduledCall| c.station)
}

/// Whether every call of every run names a station of the network.
pub open spec fn calls_in_network(network: RailNetwork, calls: Seq<ScheduledCall>) -> bool {
    forall|i: int| 0 <= i < calls.len() ==> (#[trigger] calls[i]).station < network.stations@.len()
}

/// The destination of a run: its headsign, else the name of its last
/// station, else its direction in words.
pub open spec fn run_destination(network: RailNetwork, t: TripInstance, labels: Labels) -> Seq<char> {
    match t.headsign {
        Some(h) => h@,
        None => if t.calls@.len() > 0 {
            network.stations@[t.calls@.last().station as int].name@
        } else {
            direction_text(labels.language, t.direction)
        },
    }
}

/// The destination of a headway block: its headsign, else the name of
/// the last station of its template, else nothing.
pub open spec fn band_destination(network: RailNetwork, b: FrequencyBand) -> Seq<char> {
    match b.headsign {
        Some(h) => h@,
        None => if b.template@.len() > 0 {
            network.stations@[b.template@.last().station as int].name@
        } else {
            Seq::empty()
        },
    }
}

/// The panel of the first node of a mapping, or the first panel.
pub open spec fn first_panel(plan: CorridorPlan, nodes: Seq<usize>) -> usize {
    if nodes.len() > 0 && nodes[0] < plan.corridor.nodes@.len() {
        plan.corridor.nodes@[nodes[0] as int].panel
    } else {
        0
    }
}

/// The label of a run: none where the configuration writes none, else
/// the public train name.
pub open spec fn run_label(config: PublicationConfig, t: TripInstance) -> Option<Seq<char>> {
    match config.diagram.show_trip_labels {
        TripLabelMode::Never => None,
        _ => match t.short_name {
            Some(s) => Some(s@),
            None => None,
        },
    }
}

/// The wanted runs among the first `n` whose calls follow the corridor.
pub open spec fn planned_upto(plan: CorridorPlan, ts: Seq<TripInstance>, wanted: Seq<bool>, n: int) -> Seq<
    int,
>
    decreases n,
{
    if n <= 0 {
        Seq::empty()
    } else if wanted[n - 1] && map_run_spec(plan.paths@, call_stations(ts[n - 1].calls@)) is Some {
        planned_upto(plan, ts, wanted, n - 1).push(n - 1)
    } else {
        planned_upto(plan, ts, wanted, n - 1)
    }
}

/// The wanted runs among the first `n` whose calls leave the corridor.
pub open spec fn off_corridor_upto(plan: CorridorPlan, ts: Seq<TripInstance>, wanted: Seq<bool>, n: int) -> Seq<
    int,
>
    decreases n,
{
    if n <= 0 {
        Seq::empty()
    } else if wanted[n - 1] && map_run_spec(plan.paths@, call_stations(ts[n - 1].calls@)) is None {
        off_corridor_upto(plan, ts, wanted, n - 1).push(n - 1)
    } else {
        off_corridor_upto(plan, ts, wanted, n - 1)
    }
}

/// Whether a planned run shows run `i` of a query result.
pub open spec fn run_planned(
    network: RailNetwork,
    plan: CorridorPlan,
    config: PublicationConfig,
    labels: Labels,
    ts: Seq<TripInstance>,
    i: int,
    r: PlannedRun,
) -> bool {
    let t = ts[i];
    &&& r.trip == i
    &&& map_run_spec(plan.paths@, call_stations(t.calls@)) == Some((r.nodes@, r.direction))
    &&& r.destination@ == run_destination(network, t, labels)
    &&& (match r.label {
        Some(l) => run_label(config, t) == Some(l@),
        None => run_label(config, t) is None,
    })
    &&& r.panel == first_panel(plan, r.nodes@)
}

/// Whether a diagnostic reports that a run leaves the corridor.
pub open spec fn off_corridor_report(t: TripInstance, d: Diagnostic) -> bool {
    &&& d.severity == Severity::Warning
    &&& d.code@ == "run-off-corridor"@
    &&& d.subject matches Some(s) && s@ == t.source_trip_id@
}

fn stations_of(calls: &Vec<ScheduledCall>) -> (r: Vec<usize>)
    ensures
        r@ == call_stations(calls@),
{
    let mut r: Vec<usize> = Vec::new();
    let mut i: usize = 0;
    while i < calls.len()
        invariant
            i <= calls@.len(),
            r@ == call_stations(calls@.take(i as int)),
        decreases calls@.len() - i,
    {
        proof {
            assert(call_stations(calls@.take(i + 1)) =~= call_stations(calls@.take(i as int)).push(
                calls@[i as int].station,
            ));
        }
        r.push(calls[i].station);
        i = i + 1;
    }
    proof {
        assert(calls@.take(calls@.len() as int) =~= calls@);
    }
    r
}

fn panel_of(plan: &CorridorPlan, nodes: &Vec<usize>) -> (p: usize)
    ensures
        p == first_panel(*plan, nodes@),
{
    if nodes.len() > 0 && nodes[0] < plan.corridor.nodes.len() {
        plan.corridor.nodes[nodes[0]].panel
    } else {
        0
    }
}

fn destination_of(network: &RailNetwork, t: &TripInstance, labels: &Labels) -> (s: String)
    requires
        calls_in_network(*network, t.calls@),
    ensures
        s@ == run_destination(*network, *t, *labels),
{
    match &t.headsign {
        Some(h) => owned(h.as_str()),
        None => if t.calls.len() > 0 {
            let last = t.calls[t.calls.len() - 1].station;
            owned(network.stations[last].name.as_str())
        } else {
            labels.direction_number(t.direction)
        },
    }
}

fn label_of(config: &PublicationConfig, t: &TripInstance) -> (r: Option<String>)
    ensures
        match r {
            Some(l) => run_label(*config, *t) == Some(l@),
            None => run_label(*config, *t) is None,
        },
{
    match config.diagram.show_trip_labels {
        TripLabelMode::Never => None,
        _ => match &t.short_name {
            Some(s) => Some(owned(s.as_str())),
            None => None,
        },
    }
}

/// Map the wanted runs of a query result onto the corridor.
///
/// The wanted runs that follow the corridor come back in query order,
/// each with its nodes, direction, destination, label, and panel; each
/// wanted run that leaves it is reported, in the same order, and drawn
/// nowhere.
pub fn plan_runs(
    network: &RailNetwork,
    plan: &CorridorPlan,
    trips: &Vec<TripInstance>,
    wanted: &Vec<bool>,
    config: &PublicationConfig,
    labels: &Labels,
) -> (r: (Vec<PlannedRun>, Vec<Diagnostic>))
    requires
        paths_consistent(plan.paths@),
        wanted@.len() == trips@.len(),
        forall|i: int| 0 <= i < trips@.len() ==> calls_in_network(*network, #[trigger] trips@[i].calls@),
    ensures
        r.0@.len() == planned_upto(*plan, trips@, wanted@, trips@.len() as int).len(),
        forall|j: int|
            0 <= j < r.0@.len() ==> run_planned(
                *network,
                *plan,
                *config,
                *labels,
                trips@,
                planned_upto(*plan, trips@, wanted@, trips@.len() as int)[j],
                #[trigger] r.0@[j],
            ),
        r.1@.len() == off_corridor_upto(*plan, trips@, wanted@, trips@.len() as int).len(),
        forall|j: int|
            0 <= j < r.1@.len() ==> off_corridor_report(
                trips@[off_corridor_upto(*plan, trips@, wanted@, trips@.len() as int)[j]],
                #[trigger] r.1@[j],
            ),
{
    let mut runs: Vec<PlannedRun> = Vec::new();
    let mut reports: Vec<Diagnostic> = Vec::new();
    let mut i: usize = 0;
    while i < trips.len()
        invariant
            i <= trips@.len(),
            paths_consistent(plan.paths@),
            wanted@.len() == trips@.len(),
            forall|k: int| 0 <= k < trips@.len() ==> calls_in_network(*network, #[trigger] trips@[k].calls@),
            runs@.len() == planned_upto(*plan, trips@, wanted@, i as int).len(),
            forall|j: int|
                0 <= j < runs@.len() ==> run_planned(
                    *network,
                    *plan,
                    *config,
                    *labels,
                    trips@,
                    planned_upto(*plan, trips@, wanted@, i as int)[j],
                    #[trigger] runs@[j],
                ),
            reports@.len() == off_corridor_upto(*plan, trips@, wanted@, i as int).len(),
            forall|j: int|
                0 <= j < reports@.len() ==> off_corridor_report(
                    trips@[off_corridor_upto(*plan, trips@, wanted@, i as int)[j]],
                    #[trigger] reports@[j],
                ),
        decreases trips@.len() - i,
    {
        if !wanted[i] {
            proof {
                assert(planned_upto(*plan, trips@, wanted@, i + 1) == planned_upto(*plan, trips@, wanted@, i as int));
                assert(off_corridor_upto(*plan, trips@, wanted@, i + 1) == off_corridor_upto(*plan, trips@, wanted@, i as int));
            }
            i = i + 1;
            continue;
        }
        let t = &trips[i];
        let stations = stations_of(&t.calls);
        match plan.map_run(&stations) {
            Some(mapping) => {
                let ghost before = planned_upto(*plan, trips@, wanted@, i as int);
                assert(calls_in_network(*network, trips@[i as int].calls@));
                let destination = destination_of(network, t, labels);
                let label = label_of(config, t);
                let panel = panel_of(plan, &mapping.nodes);
                runs.push(
                    PlannedRun {
                        trip: i,
                        nodes: mapping.nodes,
                        direction: mapping.direction,
                        destination,
                        label,
                        panel,
                    },
                );
                proof {
                    assert(planned_upto(*plan, trips@, wanted@, i + 1) == before.push(i as int));
                }
            },
            None => {
                let ghost before = off_corridor_upto(*plan, trips@, wanted@, i as int);
                let d = Diagnostic::warning(
                    "run-off-corridor",
                    owned(
                        "the calls of the run do not follow the station axis of this corridor, so the diagram leaves the run out",
                    ),
                ).about(t.source_trip_id.as_str());
                reports.push(d);
                proof {
                    assert(off_corridor_upto(*plan, trips@, wanted@, i + 1) == before.push(i as int));
                }
            },
        }
        i = i + 1;
    }
    (runs, reports)
}


/// The blocks among the first `n` whose template follows the corridor.
pub open spec fn planned_bands_upto(
    plan: CorridorPlan,
    bs: Seq<FrequencyBand>,
    wanted: Seq<bool>,
    n: int,
) -> Seq<int>
    decreases n,
{
    if n <= 0 {
        Seq::empty()
    } else if wanted[n - 1] && map_run_spec(plan.paths@, call_stations(bs[n - 1].template@)) is Some {
        planned_bands_upto(plan, bs, wanted, n - 1).push(n - 1)
    } else {
        planned_bands_upto(plan, bs, wanted, n - 1)
    }
}

/// The blocks among the first `n` whose template leaves the corridor.
pub open spec fn off_corridor_bands_upto(
    plan: CorridorPlan,
    bs: Seq<FrequencyBand>,
    wanted: Seq<bool>,
    n: int,
) -> Seq<int>
    decreases n,
{
    if n <= 0 {
        Seq::empty()
    } else if wanted[n - 1] && map_run_spec(plan.paths@, call_stations(bs[n - 1].template@)) is None {
        off_corridor_bands_upto(plan, bs, wanted, n - 1).push(n - 1)
    } else {
        off_corridor_bands_upto(plan, bs, wanted, n - 1)
    }
}

/// Whether a planned block shows block `i` of a query result.
pub open spec fn band_planned(
    network: RailNetwork,
    plan: CorridorPlan,
    bs: Seq<FrequencyBand>,
    i: int,
    p: PlannedBand,
) -> bool {
    let b = bs[i];
    &&& p.band == i
    &&& map_run_spec(plan.paths@, call_stations(b.template@)) == Some((p.nodes@, p.direction))
    &&& p.destination@ == band_destination(network, b)
    &&& p.panel == first_panel(plan, p.nodes@)
    &&& p.shift_secs == last_start_of(b) - b.start.secs
}

/// Whether a diagnostic reports that a block leaves the corridor.
pub open spec fn band_off_corridor_report(b: FrequencyBand, d: Diagnostic) -> bool {
    &&& d.severity == Severity::Warning
    &&& d.code@ == "band-off-corridor"@
    &&& d.subject matches Some(s) && s@ == b.source_trip_id@
}

fn band_destination_of(network: &RailNetwork, b: &FrequencyBand) -> (s: String)
    requires
        calls_in_network(*network, b.template@),
    ensures
        s@ == band_destination(*network, *b),
{
    match &b.headsign {
        Some(h) => owned(h.as_str()),
        None => if b.template.len() > 0 {
            let last = b.template[b.template.len() - 1].station;
            owned(network.stations[last].name.as_str())
        } else {
            String::new()
        },
    }
}

/// Map the template of every wanted headway block of a query result
/// onto the corridor, and find how much later its last run starts.
///
/// The wanted blocks that follow the corridor come back in query order;
/// each wanted block that leaves it is reported, in the same order.
pub fn plan_bands(
    network: &RailNetwork,
    plan: &CorridorPlan,
    bands: &Vec<FrequencyBand>,
    wanted: &Vec<bool>,
) -> (r: (
    Vec<PlannedBand>,
    Vec<Diagnostic>,
))
    requires
        paths_consistent(plan.paths@),
        wanted@.len() == bands@.len(),
        forall|i: int| 0 <= i < bands@.len() ==> calls_in_network(*network, #[trigger] bands@[i].template@),
    ensures
        r.0@.len() == planned_bands_upto(*plan, bands@, wanted@, bands@.len() as int).len(),
        forall|j: int|
            0 <= j < r.0@.len() ==> band_planned(
                *network,
                *plan,
                bands@,
                planned_bands_upto(*plan, bands@, wanted@, bands@.len() as int)[j],
                #[trigger] r.0@[j],
            ),
        r.1@.len() == off_corridor_bands_upto(*plan, bands@, wanted@, bands@.len() as int).len(),
        forall|j: int|
            0 <= j < r.1@.len() ==> band_off_corridor_report(
                bands@[off_corridor_bands_upto(*plan, bands@, wanted@, bands@.len() as int)[j]],
                #[trigger] r.1@[j],
            ),
{
    let mut out: Vec<PlannedBand> = Vec::new();
    let mut reports: Vec<Diagnostic> = Vec::new();
    let mut i: usize = 0;
    while i < bands.len()
        invariant
            i <= bands@.len(),
            paths_consistent(plan.paths@),
            wanted@.len() == bands@.len(),
            forall|k: int| 0 <= k < bands@.len() ==> calls_in_network(*network, #[trigger] bands@[k].template@),
            out@.len() == planned_bands_upto(*plan, bands@, wanted@, i as int).len(),
            forall|j: int|
                0 <= j < out@.len() ==> band_planned(
                    *network,
                    *plan,
                    bands@,
                    planned_bands_upto(*plan, bands@, wanted@, i as int)[j],
                    #[trigger] out@[j],
                ),
            reports@.len() == off_corridor_bands_upto(*plan, bands@, wanted@, i as int).len(),
            forall|j: int|
                0 <= j < reports@.len() ==> band_off_corridor_report(
                    bands@[off_corridor_bands_upto(*plan, bands@, wanted@, i as int)[j]],
                    #[trigger] reports@[j],
                ),
        decreases bands@.len() - i,
    {
        if !wanted[i] {
            proof {
                assert(planned_bands_upto(*plan, bands@, wanted@, i + 1) == planned_bands_upto(*plan, bands@, wanted@, i as int));
                assert(off_corridor_bands_upto(*plan, bands@, wanted@, i + 1) == off_corridor_bands_upto(*plan, bands@, wanted@, i as int));
            }
            i = i + 1;
            continue;
        }
        let b = &bands[i];
        let stations = stations_of(&b.template);
        match plan.map_run(&stations) {
            Some(mapping) => {
                let ghost before = planned_bands_upto(*plan, bands@, wanted@, i as int);
                assert(calls_in_network(*network, bands@[i as int].template@));
                let destination = band_destination_of(network, b);
                let panel = panel_of(plan, &mapping.nodes);
                let shift_secs = b.last_start_seconds() - b.start.secs;
                out.push(
                    PlannedBand {
                        band: i,
                        nodes: mapping.nodes,
                        direction: mapping.direction,
                        destination,
                        panel,
                        shift_secs,
                    },
                );
                proof {
                    assert(planned_bands_upto(*plan, bands@, wanted@, i + 1) == before.push(i as int));
                }
            },
            None => {
                let ghost before = off_corridor_bands_upto(*plan, bands@, wanted@, i as int);
                let d = Diagnostic::warning(
                    "band-off-corridor",
                    owned("the template of a headway block does not follow the station axis"),
                ).about(b.source_trip_id.as_str());
                reports.push(d);
                proof {
                    assert(off_corridor_bands_upto(*plan, bands@, wanted@, i + 1) == before.push(i as int));
                }
            },
        }
        i = i + 1;
    }
    (out, reports)
}


// ----------------------------------------------------------------------
// The whole plan
// ----------------------------------------------------------------------

/// What a diagram draws before any coordinate is computed.
#[derive(Clone, Debug)]
pub struct DiagramPlan {
    /// The corridor and the paths a run may follow.
    pub corridor: CorridorPlan,
    /// The grid of the time axis.
    pub time_axis: TimeAxis,
    /// Which runs of the query result the diagram asks for: those of
    /// its line or pattern that have a time inside the window.
    pub wanted_runs: Vec<bool>,
    /// Which headway blocks it asks for: those of its line or pattern.
    pub wanted_bands: Vec<bool>,
    /// The wanted runs that follow the corridor.
    pub runs: Vec<PlannedRun>,
    /// A report for each wanted run that leaves it.
    pub run_reports: Vec<Diagnostic>,
    /// The wanted blocks that follow the corridor.
    pub bands: Vec<PlannedBand>,
    /// A report for each wanted block that leaves it.
    pub band_reports: Vec<Diagnostic>,
}

/// Whether a run has a time at or after `from` and a time at or before
/// `until`, so that some of it falls inside the window.
pub open spec fn trip_overlaps(t: TripInstance, from: int, until: int) -> bool {
    &&& exists|i: int|
        0 <= i < t.calls@.len() && (arrival_or_departure_of(#[trigger] t.calls@[i]) matches Some(x)
            && x.secs >= from)
    &&& exists|i: int|
        0 <= i < t.calls@.len() && (arrival_or_departure_of(#[trigger] t.calls@[i]) matches Some(x)
            && x.secs <= until)
}

/// Whether a line and a pattern are those a selection asks for.
pub open spec fn selects(line: Option<usize>, pattern: Option<usize>, l: usize, p: usize) -> bool {
    &&& (line matches Some(x) ==> x == l)
    &&& (pattern matches Some(y) ==> y == p)
}

/// The first line from `i` on whose route identifier is a name.
pub open spec fn first_route(lines: Seq<Line>, name: Seq<char>, i: int) -> Option<int>
    decreases lines.len() - i,
{
    if i < 0 || i >= lines.len() {
        None
    } else if lines[i].route_id@ == name {
        Some(i)
    } else {
        first_route(lines, name, i + 1)
    }
}

/// The first line from `i` on whose name is a name, ignoring ASCII case.
pub open spec fn first_named(lines: Seq<Line>, name: Seq<char>, i: int) -> Option<int>
    decreases lines.len() - i,
{
    if i < 0 || i >= lines.len() {
        None
    } else if lower_seq(lines[i].name@) == lower_seq(name) {
        Some(i)
    } else {
        first_named(lines, name, i + 1)
    }
}

/// The line a name resolves to: by route identifier first, then by
/// name.
pub open spec fn line_named(lines: Seq<Line>, name: Seq<char>) -> Option<int> {
    match first_route(lines, name, 0) {
        Some(i) => Some(i),
        None => first_named(lines, name, 0),
    }
}

/// The line that a configured corridor names, if it names one.
pub open spec fn corridor_line_name(config: PublicationConfig, id: Seq<char>) -> Option<Seq<char>> {
    match first_corridor(config, id, 0) {
        Some(i) => match config.corridors@[i].line {
            Some(n) => Some(n@),
            None => None,
        },
        None => None,
    }
}

/// The line a diagram target asks for, where it asks for one that the
/// network holds.
pub open spec fn target_line(network: RailNetwork, target: DiagramTarget, config: PublicationConfig) -> Option<
    usize,
> {
    match target {
        DiagramTarget::Line(l) => Some(l),
        DiagramTarget::Pattern(_) => None,
        DiagramTarget::Corridor(id) => match corridor_line_name(config, id@) {
            Some(n) => match line_named(network.lines@, n) {
                Some(l) => Some(l as usize),
                None => None,
            },
            None => None,
        },
    }
}

/// The pattern a diagram target asks for.
pub open spec fn target_pattern(target: DiagramTarget) -> Option<usize> {
    match target {
        DiagramTarget::Pattern(p) => Some(p),
        _ => None,
    }
}

/// Whether a target names a corridor whose line the network lacks.
pub open spec fn line_unresolved(network: RailNetwork, target: DiagramTarget, config: PublicationConfig) -> bool {
    match target {
        DiagramTarget::Corridor(id) => match corridor_line_name(config, id@) {
            Some(n) => line_named(network.lines@, n) is None,
            None => false,
        },
        _ => false,
    }
}

/// The message of a corridor whose line the network lacks.
pub open spec fn unresolved_line_text(target: DiagramTarget, config: PublicationConfig) -> Seq<char> {
    match target {
        DiagramTarget::Corridor(id) => "the corridor \""@ + id@ + "\" names the line \""@
            + corridor_line_name(config, id@)->0 + "\", which is not in the feed"@,
        _ => Seq::empty(),
    }
}

/// The message of an empty window.
pub open spec fn empty_window_text(from: GtfsTime, until: GtfsTime) -> Seq<char> {
    "the diagram window "@ + time_text(from.secs as nat) + " to "@ + time_text(until.secs as nat)
        + " is empty"@
}

/// The message of a grid that does not fit a service day.
pub open spec fn grid_text() -> Seq<char> {
    "the grid intervals of the diagram do not fit a service-day time"@
}

fn first_route_exec(lines: &Vec<Line>, name: &str) -> (r: Option<usize>)
    ensures
        match first_route(lines@, name@, 0) {
            Some(i) => r == Some(i as usize),
            None => r is None,
        },
{
    let mut i: usize = 0;
    while i < lines.len()
        invariant
            i <= lines@.len(),
            first_route(lines@, name@, i as int) == first_route(lines@, name@, 0),
        decreases lines@.len() - i,
    {
        if str_eq(lines[i].route_id.as_str(), name) {
            return Some(i);
        }
        i = i + 1;
    }
    None
}

fn first_named_exec(lines: &Vec<Line>, name: &str) -> (r: Option<usize>)
    ensures
        match first_named(lines@, name@, 0) {
            Some(i) => r == Some(i as usize),
            None => r is None,
        },
{
    let wanted = to_lower_chars(&chars_of(name));
    let mut i: usize = 0;
    while i < lines.len()
        invariant
            i <= lines@.len(),
            wanted@ == lower_seq(name@),
            first_named(lines@, name@, i as int) == first_named(lines@, name@, 0),
        decreases lines@.len() - i,
    {
        let own = to_lower_chars(&chars_of(lines[i].name.as_str()));
        if chars_eq(&own, &wanted) {
            return Some(i);
        }
        i = i + 1;
    }
    None
}

fn corridor_line_exec<'a>(config: &'a PublicationConfig, id: &str) -> (r: Option<&'a String>)
    ensures
        match corridor_line_name(*config, id@) {
            Some(n) => r matches Some(x) && x@ == n,
            None => r is None,
        },
{
    let mut i: usize = 0;
    while i < config.corridors.len()
        invariant
            i <= config.corridors@.len(),
            first_corridor(*config, id@, i as int) == first_corridor(*config, id@, 0),
        decreases config.corridors@.len() - i,
    {
        if str_eq(config.corridors[i].id.as_str(), id) {
            return match &config.corridors[i].line {
                Some(n) => Some(n),
                None => None,
            };
        }
        i = i + 1;
    }
    None
}

fn overlaps_exec(t: &TripInstance, from: GtfsTime, until: GtfsTime) -> (b: bool)
    ensures
        b == trip_overlaps(*t, from.secs as int, until.secs as int),
{
    let mut late = false;
    let mut early = false;
    let mut i: usize = 0;
    while i < t.calls.len()
        invariant
            i <= t.calls@.len(),
            late == exists|k: int|
                0 <= k < i && (arrival_or_departure_of(#[trigger] t.calls@[k]) matches Some(x) && x.secs
                    >= from.secs),
            early == exists|k: int|
                0 <= k < i && (arrival_or_departure_of(#[trigger] t.calls@[k]) matches Some(x) && x.secs
                    <= until.secs),
        decreases t.calls@.len() - i,
    {
        match t.calls[i].arrival_or_departure() {
            Some(x) => {
                if x.secs >= from.secs {
                    late = true;
                }
                if x.secs <= until.secs {
                    early = true;
                }
            },
            None => {},
        }
        proof {
            if !late {
                assert forall|k: int| 0 <= k < i + 1 implies !(arrival_or_departure_of(
                    #[trigger] t.calls@[k],
                ) matches Some(x) && x.secs >= from.secs) by {
                    if k < i {
                    }
                }
            }
            if !early {
                assert forall|k: int| 0 <= k < i + 1 implies !(arrival_or_departure_of(
                    #[trigger] t.calls@[k],
                ) matches Some(x) && x.secs <= until.secs) by {
                    if k < i {
                    }
                }
            }
        }
        i = i + 1;
    }
    late && early
}

/// Which runs a selection asks for.
pub open spec fn runs_wanted(
    ts: Seq<TripInstance>,
    line: Option<usize>,
    pattern: Option<usize>,
    from: GtfsTime,
    until: GtfsTime,
) -> Seq<bool> {
    Seq::new(
        ts.len(),
        |i: int|
            selects(line, pattern, ts[i].line, ts[i].pattern) && trip_overlaps(
                ts[i],
                from.secs as int,
                until.secs as int,
            ),
    )
}

/// Which headway blocks a selection asks for.
pub open spec fn bands_wanted(bs: Seq<FrequencyBand>, line: Option<usize>, pattern: Option<usize>) -> Seq<
    bool,
> {
    Seq::new(bs.len(), |i: int| selects(line, pattern, bs[i].line, bs[i].pattern))
}

/// Whether a plan is the plan of a diagram.
pub open spec fn plan_is(
    network: RailNetwork,
    target: DiagramTarget,
    from: GtfsTime,
    until: GtfsTime,
    config: PublicationConfig,
    labels: Labels,
    day: TripQueryResult,
    p: DiagramPlan,
) -> bool {
    let line = target_line(network, target, config);
    let pattern = target_pattern(target);
    let wr = runs_wanted(day.trips@, line, pattern, from, until);
    let wb = bands_wanted(day.frequency_bands@, line, pattern);
    let ts = day.trips@;
    let bs = day.frequency_bands@;
    &&& target_plan(network, target, config, Ok(p.corridor))
    &&& axis_of(from, until, config, p.time_axis)
    &&& p.wanted_runs@ == wr
    &&& p.wanted_bands@ == wb
    &&& p.runs@.len() == planned_upto(p.corridor, ts, wr, ts.len() as int).len()
    &&& forall|j: int|
        0 <= j < p.runs@.len() ==> run_planned(
            network,
            p.corridor,
            config,
            labels,
            ts,
            planned_upto(p.corridor, ts, wr, ts.len() as int)[j],
            #[trigger] p.runs@[j],
        )
    &&& p.run_reports@.len() == off_corridor_upto(p.corridor, ts, wr, ts.len() as int).len()
    &&& forall|j: int|
        0 <= j < p.run_reports@.len() ==> off_corridor_report(
            ts[off_corridor_upto(p.corridor, ts, wr, ts.len() as int)[j]],
            #[trigger] p.run_reports@[j],
        )
    &&& p.bands@.len() == planned_bands_upto(p.corridor, bs, wb, bs.len() as int).len()
    &&& forall|j: int|
        0 <= j < p.bands@.len() ==> band_planned(
            network,
            p.corridor,
            bs,
            planned_bands_upto(p.corridor, bs, wb, bs.len() as int)[j],
            #[trigger] p.bands@[j],
        )
    &&& p.band_reports@.len() == off_corridor_bands_upto(p.corridor, bs, wb, bs.len() as int).len()
    &&& forall|j: int|
        0 <= j < p.band_reports@.len() ==> band_off_corridor_report(
            bs[off_corridor_bands_upto(p.corridor, bs, wb, bs.len() as int)[j]],
            #[trigger] p.band_reports@[j],
        )
}

/// Plan a train diagram: check the configuration and the window, build
/// the corridor, resolve the line a configured corridor names, choose
/// the runs of the target that have a time inside the window and the
/// headway blocks of the target, and map both onto the corridor.
///
/// `geometry_positive` says whether the width of an hour and the
/// height of a row, which travel beside the configuration as
/// floating-point numbers, are greater than zero. What is left for the
/// drawing is the geometry: the coordinates and the clipping of each
/// path at the window edges.
pub fn plan_diagram(
    network: &RailNetwork,
    target: &DiagramTarget,
    from: GtfsTime,
    until: GtfsTime,
    config: &PublicationConfig,
    geometry_positive: bool,
    day: &TripQueryResult,
) -> (r: Result<DiagramPlan, PublicationError>)
    requires
        patterns_in_network(*network),
        target matches DiagramTarget::Pattern(p) ==> p < network.patterns@.len(),
        target matches DiagramTarget::Line(l) ==> l < network.lines@.len(),
        forall|i: int| 0 <= i < day.trips@.len() ==> calls_in_network(*network, #[trigger] day.trips@[i].calls@),
        forall|i: int|
            0 <= i < day.frequency_bands@.len() ==> calls_in_network(
                *network,
                #[trigger] day.frequency_bands@[i].template@,
            ),
    ensures
        match config_error(*config, geometry_positive) {
            Some(m) => r matches Err(PublicationError::Configuration(e)) && e@ == m,
            None => if until.secs <= from.secs {
                r matches Err(PublicationError::Configuration(e)) && e@ == empty_window_text(from, until)
            } else if !axis_fits(from, until, *config) {
                r matches Err(PublicationError::Configuration(e)) && e@ == grid_text()
            } else {
                exists|cp: Result<CorridorPlan, PublicationError>|
                    #[trigger] target_plan(*network, *target, *config, cp) && match cp {
                        Err(x) => r == Err::<DiagramPlan, PublicationError>(x),
                        Ok(c) => if line_unresolved(*network, *target, *config) {
                            r matches Err(PublicationError::UnresolvedLine(e)) && e@
                                == unresolved_line_text(*target, *config)
                        } else {
                            r matches Ok(p) && p.corridor == c && plan_is(
                                *network,
                                *target,
                                from,
                                until,
                                *config,
                                crate::text::labels_of(config.language),
                                *day,
                                p,
                            )
                        },
                    }
            },
        },
{
    match config.check(geometry_positive) {
        Err(m) => return Err(PublicationError::Configuration(m)),
        Ok(()) => {},
    }
    if until.secs <= from.secs {
        let mut m = owned("the diagram window ");
        push_str(&mut m, from.to_text().as_str());
        push_str(&mut m, " to ");
        push_str(&mut m, until.to_text().as_str());
        push_str(&mut m, " is empty");
        proof {
            assert(m@ =~= empty_window_text(from, until));
        }
        return Err(PublicationError::Configuration(m));
    }
    let d = &config.diagram;
    let fits = d.minor_grid_minutes <= 1_000_000 && d.medium_grid_minutes <= 1_000_000
        && d.major_grid_minutes <= 1_000_000 && (until.secs as u64) + (if d.minor_grid_minutes == 0 {
        60u64
    } else {
        d.minor_grid_minutes as u64 * 60
    }) <= u32::MAX as u64;
    proof {
        assert(fits == axis_fits(from, until, *config));
    }
    if !fits {
        return Err(PublicationError::Configuration(owned("the grid intervals of the diagram do not fit a service-day time")));
    }
    let resolved = resolve_corridor(network, target, config);
    let ghost cp = resolved;
    let plan = match resolved {
        Err(e) => return Err(e),
        Ok(p) => p,
    };
    proof {
        assert(target_plan(*network, *target, *config, cp));
        assert(paths_consistent(plan.paths@)) by {
            lemma_target_plan_consistent(*network, *target, *config, plan);
        }
    }
    let line: Option<usize> = match target {
        DiagramTarget::Line(l) => Some(*l),
        DiagramTarget::Pattern(_) => None,
        DiagramTarget::Corridor(id) => match corridor_line_exec(config, id.as_str()) {
            None => None,
            Some(name) => match first_route_exec(&network.lines, name.as_str()) {
                Some(l) => Some(l),
                None => match first_named_exec(&network.lines, name.as_str()) {
                    Some(l) => Some(l),
                    None => {
                        let mut m = owned("the corridor \"");
                        push_str(&mut m, id.as_str());
                        push_str(&mut m, "\" names the line \"");
                        push_str(&mut m, name.as_str());
                        push_str(&mut m, "\", which is not in the feed");
                        proof {
                            assert(m@ =~= unresolved_line_text(*target, *config));
                        }
                        return Err(PublicationError::UnresolvedLine(m));
                    },
                },
            },
        },
    };
    let pattern: Option<usize> = match target {
        DiagramTarget::Pattern(p) => Some(*p),
        _ => None,
    };
    proof {
        assert(line == target_line(*network, *target, *config));
        assert(!line_unresolved(*network, *target, *config));
    }
    let mut wanted_runs: Vec<bool> = Vec::new();
    let mut i: usize = 0;
    while i < day.trips.len()
        invariant
            i <= day.trips@.len(),
            wanted_runs@ == runs_wanted(day.trips@, line, pattern, from, until).take(i as int),
        decreases day.trips@.len() - i,
    {
        let t = &day.trips[i];
        let sel = (match line {
            Some(x) => x == t.line,
            None => true,
        }) && (match pattern {
            Some(y) => y == t.pattern,
            None => true,
        });
        let w = sel && overlaps_exec(t, from, until);
        wanted_runs.push(w);
        proof {
            assert(wanted_runs@ =~= runs_wanted(day.trips@, line, pattern, from, until).take(i + 1));
        }
        i = i + 1;
    }
    proof {
        assert(wanted_runs@ =~= runs_wanted(day.trips@, line, pattern, from, until));
    }
    let mut wanted_bands: Vec<bool> = Vec::new();
    let mut b: usize = 0;
    while b < day.frequency_bands.len()
        invariant
            b <= day.frequency_bands@.len(),
            wanted_bands@ == bands_wanted(day.frequency_bands@, line, pattern).take(b as int),
        decreases day.frequency_bands@.len() - b,
    {
        let f = &day.frequency_bands[b];
        let sel = (match line {
            Some(x) => x == f.line,
            None => true,
        }) && (match pattern {
            Some(y) => y == f.pattern,
            None => true,
        });
        wanted_bands.push(sel);
        proof {
            assert(wanted_bands@ =~= bands_wanted(day.frequency_bands@, line, pattern).take(b + 1));
        }
        b = b + 1;
    }
    proof {
        assert(wanted_bands@ =~= bands_wanted(day.frequency_bands@, line, pattern));
    }
    let labels = Labels::for_language(config.language);
    let (runs, run_reports) = plan_runs(network, &plan, &day.trips, &wanted_runs, config, &labels);
    let (bands, band_reports) = plan_bands(network, &plan, &day.frequency_bands, &wanted_bands);
    let time_axis = build_time_axis(from, until, config);
    Ok(DiagramPlan { corridor: plan, time_axis, wanted_runs, wanted_bands, runs, run_reports, bands, band_reports })
}


proof fn lemma_target_plan_consistent(
    network: RailNetwork,
    target: DiagramTarget,
    config: PublicationConfig,
    plan: CorridorPlan,
)
    requires
        target_plan(network, target, config, Ok(plan)),
    ensures
        paths_consistent(plan.paths@),
{
}

/// A run is wanted exactly when it belongs to the line and pattern the
/// diagram selects and it reaches into the window: some call of it has
/// a time at or after the window's start, and some call a time at or
/// before its end. A run that starts before the window and ends inside
/// it is therefore drawn, cut at the window's edge.
pub proof fn lemma_a_run_is_wanted_when_it_reaches_the_window(
    network: RailNetwork,
    target: DiagramTarget,
    from: GtfsTime,
    until: GtfsTime,
    config: PublicationConfig,
    labels: Labels,
    day: TripQueryResult,
    p: DiagramPlan,
    i: int,
)
    requires
        plan_is(network, target, from, until, config, labels, day, p),
        0 <= i < day.trips@.len(),
    ensures
        p.wanted_runs@[i] <==> {
            let t = day.trips@[i];
            &&& (target_line(network, target, config) matches Some(l) ==> l == t.line)
            &&& (target_pattern(target) matches Some(q) ==> q == t.pattern)
            &&& exists|a: int|
                0 <= a < t.calls@.len() && (arrival_or_departure_of(#[trigger] t.calls@[a]) matches Some(x)
                    && x.secs >= from.secs)
            &&& exists|b: int|
                0 <= b < t.calls@.len() && (arrival_or_departure_of(#[trigger] t.calls@[b]) matches Some(x)
                    && x.secs <= until.secs)
        },
{
}

} // verus!
