//! The time axis of the time–distance string diagram.
//!
//! Time runs along the horizontal axis of a diagram. The grid of that
//! axis is a plain function of the window and the configured intervals:
//! a line at every multiple of the faint interval inside the window,
//! each as strong as the strongest interval that divides it, and the
//! boundary between two calendar days, at `24:00`, stronger still.
//!
//! The horizontal coordinate of a line is a floating-point number and is
//! placed by the caller from the time of the line.

use vstd::prelude::*;

use crate::common::{hhmm_text, service_hhmm};
use crate::config::PublicationConfig;
use crate::time::GtfsTime;

verus! {

/// How strong a grid line is.
#[derive(Copy, Clone, Debug, PartialEq, Eq, Structural)]
pub enum TickLevel {
    /// A faint line.
    Minor,
    /// A medium line.
    Medium,
    /// A strong line, usually on the hour.
    Major,
    /// The boundary between two calendar days, at `24:00`.
    DayBoundary,
}

/// One grid line of the time axis.
#[derive(Clone, Debug)]
pub struct TimeTick {
    /// The time on the service day.
    pub time: GtfsTime,
    /// How strong the line is.
    pub level: TickLevel,
    /// The label, on major lines and day boundaries only.
    pub label: Option<String>,
}

/// The horizontal axis.
#[derive(Clone, Debug)]
pub struct TimeAxis {
    /// The first time of the window.
    pub start: GtfsTime,
    /// The exclusive end of the window.
    pub end: GtfsTime,
    /// The grid lines.
    pub ticks: Vec<TimeTick>,
    /// The interval of the strong lines, in minutes.
    pub major_minutes: u32,
    /// The interval of the medium lines, in minutes.
    pub medium_minutes: u32,
    /// The interval of the faint lines, in minutes.
    pub minor_minutes: u32,
}

/// An interval in seconds from minutes, at least one minute.
pub open spec fn interval_secs(minutes: u32) -> int {
    if minutes == 0 {
        60
    } else {
        minutes * 60
    }
}

/// The first multiple of an interval at or after a time.
pub open spec fn first_multiple(from: int, interval: int) -> int {
    ((from + interval - 1) / interval) * interval
}

/// The level of a grid line at a time: a day boundary at a positive
/// multiple of a day, else the strongest interval that divides it.
pub open spec fn tick_level(t: int, major: int, medium: int) -> TickLevel {
    if t % 86400 == 0 && t > 0 {
        TickLevel::DayBoundary
    } else if t % major == 0 {
        TickLevel::Major
    } else if t % medium == 0 {
        TickLevel::Medium
    } else {
        TickLevel::Minor
    }
}

/// The number of grid lines of a window.
pub open spec fn tick_count(from: int, until: int, minor: int) -> int {
    let first = first_multiple(from, minor);
    if first > until {
        0
    } else {
        (until - first) / minor + 1
    }
}

/// Whether a grid line is line `k` of a window: its time, its level,
/// and its label.
pub open spec fn tick_matches(
    tick: TimeTick,
    k: int,
    from: int,
    minor: int,
    major: int,
    medium: int,
) -> bool {
    let t = first_multiple(from, minor) + k * minor;
    &&& tick.time.secs == t
    &&& tick.level == tick_level(t, major, medium)
    &&& (tick.level == TickLevel::Major || tick.level == TickLevel::DayBoundary) ==> (tick.label matches Some(
        l,
    ) && l@ == hhmm_text(t as nat))
    &&& (tick.level == TickLevel::Minor || tick.level == TickLevel::Medium) ==> tick.label is None
}

/// Whether the configured intervals and the window fit the arithmetic
/// of the axis.
pub open spec fn axis_fits(from: GtfsTime, until: GtfsTime, config: PublicationConfig) -> bool {
    &&& config.diagram.minor_grid_minutes <= 1_000_000
    &&& config.diagram.medium_grid_minutes <= 1_000_000
    &&& config.diagram.major_grid_minutes <= 1_000_000
    &&& until.secs + interval_secs(config.diagram.minor_grid_minutes) <= u32::MAX
    &&& from.secs <= until.secs
}

fn interval(minutes: u32) -> (s: u32)
    requires
        minutes <= 1_000_000,
    ensures
        s == interval_secs(minutes),
        s >= 60,
{
    if minutes == 0 {
        60
    } else {
        minutes * 60
    }
}

/// Whether an axis is the time axis of a window: its ends, its
/// intervals, and every grid line in order.
pub open spec fn axis_of(from: GtfsTime, until: GtfsTime, config: PublicationConfig, axis: TimeAxis) -> bool {
    &&& axis.start == from
    &&& axis.end == until
    &&& axis.major_minutes == config.diagram.major_grid_minutes
    &&& axis.medium_minutes == config.diagram.medium_grid_minutes
    &&& axis.minor_minutes == config.diagram.minor_grid_minutes
    &&& axis.ticks@.len() == tick_count(
        from.secs as int,
        until.secs as int,
        interval_secs(config.diagram.minor_grid_minutes),
    )
    &&& forall|k: int|
        0 <= k < axis.ticks@.len() ==> tick_matches(
            #[trigger] axis.ticks@[k],
            k,
            from.secs as int,
            interval_secs(config.diagram.minor_grid_minutes),
            interval_secs(config.diagram.major_grid_minutes),
            interval_secs(config.diagram.medium_grid_minutes),
        )
}

/// Build the grid lines of the time axis.
pub fn build_time_axis(from: GtfsTime, until: GtfsTime, config: &PublicationConfig) -> (axis:
    TimeAxis)
    requires
        axis_fits(from, until, *config),
    ensures
        axis.start == from,
        axis.end == until,
        axis.major_minutes == config.diagram.major_grid_minutes,
        axis.medium_minutes == config.diagram.medium_grid_minutes,
        axis.minor_minutes == config.diagram.minor_grid_minutes,
        axis.ticks@.len() == tick_count(
            from.secs as int,
            until.secs as int,
            interval_secs(config.diagram.minor_grid_minutes),
        ),
        forall|k: int|
            0 <= k < axis.ticks@.len() ==> tick_matches(
                #[trigger] axis.ticks@[k],
                k,
                from.secs as int,
                interval_secs(config.diagram.minor_grid_minutes),
                interval_secs(config.diagram.major_grid_minutes),
                interval_secs(config.diagram.medium_grid_minutes),
            ),
        axis_of(from, until, *config, axis),
{
    let minor = interval(config.diagram.minor_grid_minutes);
    let medium = interval(config.diagram.medium_grid_minutes);
    let major = interval(config.diagram.major_grid_minutes);
    let ghost f = first_multiple(from.secs as int, minor as int);
    proof {
        assert(f >= from.secs) by (nonlinear_arith)
            requires
                f == ((from.secs + minor - 1) / (minor as int)) * minor,
                minor >= 60,
        ;
        assert(f < from.secs + minor) by (nonlinear_arith)
            requires
                f == ((from.secs + minor - 1) / (minor as int)) * minor,
                minor >= 60,
        ;
    }
    let mut seconds: u32 = ((from.secs as u64 + minor as u64 - 1) / minor as u64 * minor as u64) as u32;
    let mut ticks: Vec<TimeTick> = Vec::new();
    let mut k: usize = 0;
    while seconds <= until.secs
        invariant
            minor == interval_secs(config.diagram.minor_grid_minutes),
            medium == interval_secs(config.diagram.medium_grid_minutes),
            major == interval_secs(config.diagram.major_grid_minutes),
            minor >= 60,
            medium >= 60,
            major >= 60,
            until.secs + minor <= u32::MAX,
            f == first_multiple(from.secs as int, minor as int),
            f >= from.secs,
            seconds == f + k * minor,
            seconds <= until.secs + minor,
            k <= seconds,
            ticks@.len() == k,
            forall|j: int|
                0 <= j < k ==> tick_matches(
                    #[trigger] ticks@[j],
                    j,
                    from.secs as int,
                    minor as int,
                    major as int,
                    medium as int,
                ),
        decreases until.secs + minor - seconds,
    {
        let time = GtfsTime::from_seconds(seconds);
        let level = if seconds % 86400 == 0 && seconds > 0 {
            TickLevel::DayBoundary
        } else if seconds % major == 0 {
            TickLevel::Major
        } else if seconds % medium == 0 {
            TickLevel::Medium
        } else {
            TickLevel::Minor
        };
        let label = match level {
            TickLevel::Major | TickLevel::DayBoundary => Some(service_hhmm(time)),
            _ => None,
        };
        ticks.push(TimeTick { time, level, label });
        proof {
            assert(f + (k + 1) * minor == f + k * minor + minor) by (nonlinear_arith);
            assert(k + 1 <= f + (k + 1) * minor) by (nonlinear_arith)
                requires
                    minor >= 60,
                    k >= 0,
                    f >= 0,
            ;
        }
        seconds = seconds + minor;
        k = k + 1;
    }
    proof {
        let c = tick_count(from.secs as int, until.secs as int, minor as int);
        if f > until.secs {
            assert(k == 0) by (nonlinear_arith)
                requires
                    seconds == f + k * minor,
                    seconds <= until.secs + minor,
                    f > until.secs,
                    minor >= 60,
                    k >= 0,
                    seconds > until.secs,
                    f < from.secs + minor,
                    from.secs <= until.secs,
            {
                if k > 0 {
                    assert(k * minor >= minor);
                }
            }
        } else {
            assert(k == (until.secs - f) / (minor as int) + 1) by (nonlinear_arith)
                requires
                    seconds == f + k * minor,
                    seconds > until.secs,
                    seconds <= until.secs + minor,
                    f <= until.secs,
                    minor >= 60,
                    k >= 0,
            ;
        }
    }
    TimeAxis {
        start: from,
        end: until,
        ticks,
        major_minutes: config.diagram.major_grid_minutes,
        medium_minutes: config.diagram.medium_grid_minutes,
        minor_minutes: config.diagram.minor_grid_minutes,
    }
}

} // verus!
