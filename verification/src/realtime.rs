//! The GTFS-Realtime trip updates, as the live views read them.
//!
//! The protobuf decoder sits in front of this library; these types
//! carry the fields of a decoded feed that the views use.

use vstd::prelude::*;

verus! {

/// One predicted event at a stop.
#[derive(Copy, Clone, Debug, PartialEq, Eq)]
pub struct StopTimeEvent {
    /// The predicted time, in POSIX seconds.
    pub time: Option<i64>,
    /// The delay, in seconds; positive means late.
    pub delay_secs: Option<i32>,
}

/// The prediction for one stop of a trip.
#[derive(Clone, Debug, PartialEq, Eq)]
pub struct StopTimeUpdate {
    /// The GTFS `stop_id` of the platform.
    pub stop_id: Option<String>,
    /// The arrival prediction.
    pub arrival: Option<StopTimeEvent>,
    /// The departure prediction.
    pub departure: Option<StopTimeEvent>,
    /// Whether the run skips the stop.
    pub skipped: bool,
}

/// The realtime statement about one trip.
#[derive(Clone, Debug, PartialEq, Eq)]
pub struct TripUpdate {
    /// The GTFS `trip_id` the update names.
    pub trip_id: Option<String>,
    /// The service date the update names, as the feed writes it.
    pub start_date: Option<String>,
    /// The start time the update names, as the feed writes it.
    pub start_time: Option<String>,
    /// Whether the update cancels the trip.
    pub canceled: bool,
    /// The trip-level delay, in seconds.
    pub delay_secs: Option<i32>,
    /// The per-stop predictions.
    pub stop_updates: Vec<StopTimeUpdate>,
}

/// A decoded realtime feed.
#[derive(Clone, Debug)]
pub struct RailRtFeed {
    /// The timestamp of the feed header, in POSIX seconds.
    pub feed_timestamp: Option<u64>,
    /// The trip updates, in feed order.
    pub trip_updates: Vec<TripUpdate>,
}

/// What an alert does to the service.
#[derive(Copy, Clone, Debug, PartialEq, Eq, Structural)]
pub enum AlertEffect {
    /// The service does not run.
    NoService,
    /// The service runs less often.
    ReducedService,
    /// The service runs with significant delays.
    SignificantDelays,
    /// The service takes another way.
    Detour,
    /// More service than scheduled.
    AdditionalService,
    /// The service runs to another schedule.
    ModifiedService,
    /// Another effect.
    OtherEffect,
    /// An effect the operator does not know.
    UnknownEffect,
    /// A stop moved.
    StopMoved,
    /// No effect on the service.
    NoEffect,
    /// An accessibility problem, such as a broken lift.
    AccessibilityIssue,
}

/// When an alert applies; an open end reaches to infinity.
#[derive(Copy, Clone, Debug, PartialEq, Eq)]
pub struct ActivePeriod {
    /// The first POSIX second of the period.
    pub start: Option<u64>,
    /// The last POSIX second of the period.
    pub end: Option<u64>,
}

/// What an alert names.
#[derive(Clone, Debug)]
pub struct InformedEntity {
    /// The agency.
    pub agency_id: Option<String>,
    /// The GTFS route.
    pub route_id: Option<String>,
    /// The GTFS stop or platform.
    pub stop_id: Option<String>,
    /// The GTFS trip.
    pub trip_id: Option<String>,
}

/// One GTFS-Realtime service alert.
#[derive(Clone, Debug)]
pub struct Alert {
    /// What the alert does to the service.
    pub effect: AlertEffect,
    /// The headline.
    pub header: Option<String>,
    /// The longer description.
    pub description: Option<String>,
    /// When the alert applies; always, without a period.
    pub active_periods: Vec<ActivePeriod>,
    /// What the alert names.
    pub informed: Vec<InformedEntity>,
}

} // verus!
