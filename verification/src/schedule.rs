//! The schedule as the projections read it: the stations and lines of
//! the network, and the runs that a trip query returns for one
//! service date.
//!
//! The feed loader and the query that expands trips into runs sit in
//! front of this library; these types carry their answer as plain
//! values, and every projection here works from that answer alone.

use vstd::prelude::*;

use crate::common::{Line, Station};
use crate::time::{GtfsTime, ServiceDate};

verus! {

/// Where the scheduled time of a call came from.
#[derive(Copy, Clone, Debug, PartialEq, Eq, Structural, Hash)]
pub enum TimeQuality {
    /// The feed publishes the time.
    Exact,
    /// The time was computed between two published times.
    Interpolated,
    /// The feed marks the time as approximate.
    Approximate,
    /// The call has no time.
    Missing,
}

/// Whether the times of a run are exact or come from a headway.
#[derive(Copy, Clone, Debug, PartialEq, Eq, Structural, Hash)]
pub enum TimeExactness {
    /// The times are a schedule.
    Exact,
    /// The times come from a headway block without exact times.
    Approximate,
}

/// One call of a run at a station.
#[derive(Clone, Debug, PartialEq, Eq)]
pub struct ScheduledCall {
    /// The index of the parent station in the network.
    pub station: usize,
    /// The scheduled arrival.
    pub arrival: Option<GtfsTime>,
    /// The scheduled departure.
    pub departure: Option<GtfsTime>,
    /// Whether passengers may board here.
    pub pickup_allowed: bool,
    /// Whether passengers may alight here.
    pub drop_off_allowed: bool,
    /// The headsign that applies from this call on.
    pub stop_headsign: Option<String>,
    /// The GTFS `stop_id` of the platform.
    pub platform_stop_id: String,
    /// The public platform code.
    pub platform_code: Option<String>,
    /// Where the scheduled time came from.
    pub time_quality: TimeQuality,
}

/// The arrival of a call, or its departure where it has no arrival.
pub open spec fn arrival_or_departure_of(c: ScheduledCall) -> Option<GtfsTime> {
    match c.arrival {
        Some(t) => Some(t),
        None => c.departure,
    }
}

/// The departure of a call, or its arrival where it has no departure.
pub open spec fn departure_or_arrival_of(c: ScheduledCall) -> Option<GtfsTime> {
    match c.departure {
        Some(t) => Some(t),
        None => c.arrival,
    }
}

/// The last time of a run: the departure, or arrival, of its last call.
pub open spec fn last_time_of(t: TripInstance) -> Option<GtfsTime> {
    if t.calls@.len() == 0 {
        None
    } else {
        departure_or_arrival_of(t.calls@.last())
    }
}

/// The first time of a run: the arrival, or departure, of its first
/// call.
pub open spec fn first_time_of(t: TripInstance) -> Option<GtfsTime> {
    if t.calls@.len() == 0 {
        None
    } else {
        arrival_or_departure_of(t.calls@[0])
    }
}

/// Whether a call of a run has no time at all.
pub open spec fn has_missing_times_of(t: TripInstance) -> bool {
    exists|i: int| 0 <= i < t.calls@.len() && arrival_or_departure_of(#[trigger] t.calls@[i]) is None
}

/// Whether a time of a run was computed between two published ones.
pub open spec fn has_interpolated_times_of(t: TripInstance) -> bool {
    exists|i: int|
        0 <= i < t.calls@.len() && (#[trigger] t.calls@[i]).time_quality == TimeQuality::Interpolated
}

impl ScheduledCall {
    /// The arrival, or the departure where the call has no arrival.
    pub fn arrival_or_departure(&self) -> (t: Option<GtfsTime>)
        ensures
            t == arrival_or_departure_of(*self),
    {
        match self.arrival {
            Some(t) => Some(t),
            None => self.departure,
        }
    }

    /// The departure, or the arrival where the call has no departure.
    pub fn departure_or_arrival(&self) -> (t: Option<GtfsTime>)
        ensures
            t == departure_or_arrival_of(*self),
    {
        match self.departure {
            Some(t) => Some(t),
            None => self.arrival,
        }
    }

    /// Whether passengers may board here.
    pub fn allows_pickup(&self) -> (b: bool)
        ensures
            b == self.pickup_allowed,
    {
        self.pickup_allowed
    }
}

/// One run of a trip on one service date.
#[derive(Clone, Debug, PartialEq, Eq)]
pub struct TripInstance {
    /// The stable identifier of the run: `<date>:<trip_id>`, with
    /// `@<HH:MM:SS>` after it for a run that a headway block expanded.
    pub instance_id: String,
    /// The GTFS `trip_id` that the run comes from.
    pub source_trip_id: String,
    /// The service date of the run.
    pub service_date: ServiceDate,
    /// The index of the line in the network.
    pub line: usize,
    /// The index of the stop pattern.
    pub pattern: usize,
    /// The GTFS direction.
    pub direction: Option<u8>,
    /// The trip headsign.
    pub headsign: Option<String>,
    /// The public train name.
    pub short_name: Option<String>,
    /// Whether the times are exact.
    pub exactness: TimeExactness,
    /// The calls, in travel order.
    pub calls: Vec<ScheduledCall>,
}

impl TripInstance {
    /// The station of the last call.
    pub fn terminus(&self) -> (s: Option<usize>)
        ensures
            self.calls@.len() == 0 ==> s is None,
            self.calls@.len() > 0 ==> s == Some(self.calls@.last().station),
    {
        if self.calls.len() == 0 {
            None
        } else {
            Some(self.calls[self.calls.len() - 1].station)
        }
    }

    /// The first time of the run: the arrival, or departure, of its
    /// first call.
    pub fn first_time(&self) -> (t: Option<GtfsTime>)
        ensures
            self.calls@.len() == 0 ==> t is None,
            self.calls@.len() > 0 ==> t == arrival_or_departure_of(self.calls@[0]),
    {
        if self.calls.len() == 0 {
            None
        } else {
            self.calls[0].arrival_or_departure()
        }
    }

    /// The last time of the run: the departure, or arrival, of its last
    /// call.
    pub fn last_time(&self) -> (t: Option<GtfsTime>)
        ensures
            t == last_time_of(*self),
    {
        if self.calls.len() == 0 {
            None
        } else {
            self.calls[self.calls.len() - 1].departure_or_arrival()
        }
    }

    /// Whether a call of the run has no time at all.
    pub fn has_missing_times(&self) -> (b: bool)
        ensures
            b == has_missing_times_of(*self),
    {
        let mut i: usize = 0;
        while i < self.calls.len()
            invariant
                i <= self.calls@.len(),
                forall|j: int|
                    0 <= j < i ==> arrival_or_departure_of(#[trigger] self.calls@[j]) is Some,
            decreases self.calls@.len() - i,
        {
            if self.calls[i].arrival_or_departure().is_none() {
                return true;
            }
            i = i + 1;
        }
        false
    }

    /// Whether a time of the run was computed between two published
    /// ones.
    pub fn has_interpolated_times(&self) -> (b: bool)
        ensures
            b == has_interpolated_times_of(*self),
    {
        let mut i: usize = 0;
        while i < self.calls.len()
            invariant
                i <= self.calls@.len(),
                forall|j: int|
                    0 <= j < i ==> (#[trigger] self.calls@[j]).time_quality
                        != TimeQuality::Interpolated,
            decreases self.calls@.len() - i,
        {
            if self.calls[i].time_quality == TimeQuality::Interpolated {
                return true;
            }
            i = i + 1;
        }
        false
    }
}

/// A headway block that the query did not expand into runs.
#[derive(Clone, Debug, PartialEq, Eq)]
pub struct FrequencyBand {
    /// The stable identifier of the block.
    pub band_id: String,
    /// The GTFS `trip_id` of the template trip.
    pub source_trip_id: String,
    /// The index of the line.
    pub line: usize,
    /// The index of the stop pattern.
    pub pattern: usize,
    /// The GTFS direction.
    pub direction: Option<u8>,
    /// The trip headsign.
    pub headsign: Option<String>,
    /// The first departure of the block.
    pub start: GtfsTime,
    /// The end of the block.
    pub end: GtfsTime,
    /// The time between two runs, in seconds.
    pub headway_secs: u32,
    /// The calls of the template trip.
    pub template: Vec<ScheduledCall>,
}

/// The running time of a template: from the first time of its first
/// call to the last time of its last call, and nothing where either is
/// missing or the second comes first.
pub open spec fn template_span(calls: Seq<ScheduledCall>) -> nat {
    if calls.len() == 0 {
        0
    } else {
        match (arrival_or_departure_of(calls[0]), departure_or_arrival_of(calls.last())) {
            (Some(a), Some(b)) => if b.secs >= a.secs {
                (b.secs - a.secs) as nat
            } else {
                0
            },
            _ => 0,
        }
    }
}

/// The last scheduled start of a headway block: the latest start a
/// whole number of headways after the first that comes before the end
/// of the block, or the first start where there is none.
pub open spec fn last_start_of(b: FrequencyBand) -> int {
    if b.headway_secs == 0 || b.end.secs <= b.start.secs {
        b.start.secs as int
    } else {
        b.start.secs + ((b.end.secs - b.start.secs - 1) / (b.headway_secs as int)) * b.headway_secs
    }
}

impl FrequencyBand {
    /// The last scheduled start of the block, in seconds of the service
    /// day. It differs from `end - headway` where the length of the
    /// block is not a whole multiple of the headway.
    pub fn last_start_seconds(&self) -> (s: u32)
        ensures
            s == last_start_of(*self),
            self.start.secs <= s,
    {
        if self.headway_secs == 0 || self.end.secs <= self.start.secs {
            self.start.secs
        } else {
            let span = self.end.secs - self.start.secs - 1;
            let h = self.headway_secs;
            let k = span / h;
            assert(k * h <= span) by (nonlinear_arith)
                requires
                    k == span / h,
                    h > 0,
            ;
            self.start.secs + k * h
        }
    }

    /// The end of the time that the block's runs cover, in seconds of
    /// the service day: the end of the block plus the running time of
    /// its template, so that its last run still counts while it runs.
    pub fn span_end_seconds(&self) -> (s: u64)
        ensures
            s == self.end.secs + template_span(self.template@),
    {
        let n = self.template.len();
        let span: u64 = if n == 0 {
            0
        } else {
            match (self.template[0].arrival_or_departure(), self.template[n - 1].departure_or_arrival()) {
                (Some(a), Some(b)) => if b.secs >= a.secs {
                    (b.secs - a.secs) as u64
                } else {
                    0
                },
                _ => 0,
            }
        };
        self.end.secs as u64 + span
    }

    /// The headway in whole minutes.
    pub fn headway_minutes(&self) -> (m: u32)
        ensures
            m == self.headway_secs / 60,
    {
        self.headway_secs / 60
    }
}

/// What a trip query returns for one service date.
#[derive(Clone, Debug)]
pub struct TripQueryResult {
    /// The runs, in the order the query returns them.
    pub trips: Vec<TripInstance>,
    /// The headway blocks that the query kept as bands.
    pub frequency_bands: Vec<FrequencyBand>,
    /// What the query reported.
    pub diagnostics: Vec<crate::common::Diagnostic>,
}

/// One stop pattern of a line: the stations that its trips call at,
/// in order.
#[derive(Clone, Debug)]
pub struct StopPattern {
    /// The line of the pattern.
    pub line: usize,
    /// The GTFS direction of the pattern.
    pub direction: Option<u8>,
    /// The stations, in travel order.
    pub stations: Vec<usize>,
}

/// The stations, lines, and stop patterns of the rail network, by
/// index.
#[derive(Clone, Debug)]
pub struct RailNetwork {
    /// The parent stations.
    pub stations: Vec<Station>,
    /// The lines.
    pub lines: Vec<Line>,
    /// The stop patterns.
    pub patterns: Vec<StopPattern>,
}

/// A network whose stop patterns name only lines and stations it holds.
pub open spec fn patterns_in_network(n: RailNetwork) -> bool {
    forall|p: int|
        0 <= p < n.patterns@.len() ==> (#[trigger] n.patterns@[p]).line < n.lines@.len() && forall|
            i: int,
        | 0 <= i < n.patterns@[p].stations@.len() ==> n.patterns@[p].stations@[i] < n.stations@.len()
}

/// A network whose runs name only stations and lines it holds.
pub open spec fn trip_in_network(n: RailNetwork, t: TripInstance) -> bool {
    &&& t.line < n.lines@.len()
    &&& forall|i: int| 0 <= i < t.calls@.len() ==> (#[trigger] t.calls@[i]).station < n.stations@.len()
}

} // verus!
