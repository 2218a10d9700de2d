//! The live map view model.
//!
//! A snapshot is the whole rail network at one instant: the runs placed
//! on the edges between neighbouring stations, the headway bands that
//! carry no individual runs, and a freshness record for the realtime
//! layer.
//!
//! There are no vehicle positions: every position is derived from the
//! scheduled trajectory of a run, shifted by the trip update that
//! belongs to it, and placed between the adjusted departure behind and
//! the adjusted arrival ahead. So every position carries a
//! [`PositionQuality`], and a renderer draws an estimate as an
//! estimate.

use vstd::prelude::*;

use crate::common::{diagnostic_view, diagnostic_views, Diagnostic, Severity};
use crate::matching::UpdateMatch;
use crate::realtime::{RailRtFeed, StopTimeEvent, StopTimeUpdate, TripUpdate};
use crate::schedule::{
    arrival_or_departure_of, departure_or_arrival_of, RailNetwork, ScheduledCall, TimeExactness,
    TimeQuality, TripInstance,
};
use crate::textbuf::{owned, push_decimal, push_str};
use crate::time::{GtfsTime, ServiceDate};

verus! {

/// The default staleness threshold, in seconds.
pub const DEFAULT_STALENESS_SECS: u32 = 120;

/// The default ageing threshold, in seconds.
pub const DEFAULT_AGEING_SECS: u32 = 60;

/// The default half-width of the query window, in seconds.
pub const DEFAULT_WINDOW_SECS: u32 = 3600;

/// Where the position of one train comes from.
#[derive(Copy, Clone, Debug, PartialEq, Eq, Structural)]
pub enum PositionQuality {
    /// The run stands at a station, and the realtime layer carried a
    /// time or a delay for that call.
    AtStation,
    /// The run lies between two stations, both bracketing times are
    /// published ones, and the realtime layer carried a time or a delay
    /// for at least one of them.
    InterpolatedRealtime,
    /// The run lies between two stations, and at least one bracketing
    /// time was computed or is marked approximate.
    InterpolatedSchedule,
    /// No realtime update applies; the position comes from the
    /// schedule alone.
    ScheduleOnly,
}

/// How current the realtime layer of a snapshot is.
#[derive(Copy, Clone, Debug, PartialEq, Eq, Structural)]
pub enum FreshnessState {
    /// The realtime feed is newer than the ageing threshold.
    Live,
    /// The realtime feed is older than the ageing threshold and newer
    /// than the staleness threshold.
    Ageing,
    /// The realtime feed is older than the staleness threshold, or it
    /// carries no timestamp at all.
    Stale,
    /// The caller supplied no realtime layer.
    Unavailable,
}

/// Whether the realtime layer still applies in a state.
pub open spec fn is_current_spec(s: FreshnessState) -> bool {
    s is Live || s is Ageing
}

impl FreshnessState {
    /// Report whether the realtime layer still applies.
    ///
    /// A live layer and an ageing one both shift positions; a stale
    /// one and an absent one do not.
    pub fn is_current(self) -> (b: bool)
        ensures
            b == is_current_spec(self),
    {
        match self {
            FreshnessState::Live => true,
            FreshnessState::Ageing => true,
            FreshnessState::Stale => false,
            FreshnessState::Unavailable => false,
        }
    }
}

/// The freshness of the realtime layer.
#[derive(Copy, Clone, Debug)]
pub struct Freshness {
    /// The service date of the snapshot.
    pub service_date: ServiceDate,
    /// The clock that the snapshot was evaluated at.
    pub clock: GtfsTime,
    /// The timestamp of the realtime feed, in POSIX seconds.
    pub feed_timestamp: Option<u64>,
    /// The POSIX time the caller passed with the realtime layer.
    pub now_unix: Option<u64>,
    /// The age of the realtime feed, in seconds.
    pub age_secs: Option<u64>,
    /// The threshold above which the layer counts as ageing.
    pub ageing_secs: u32,
    /// The threshold above which the layer counts as stale.
    pub staleness_secs: u32,
    /// The resulting state.
    pub state: FreshnessState,
}

/// The age of a feed: the time since its timestamp, never below zero,
/// where both the timestamp and the reading are known.
pub open spec fn age_of(timestamp: Option<u64>, now: Option<u64>) -> Option<u64> {
    match (timestamp, now) {
        (Some(t), Some(n)) => Some(if n >= t {
            (n - t) as u64
        } else {
            0u64
        }),
        _ => None,
    }
}

/// The state of a realtime layer: stale above the staleness
/// threshold or without a timestamp, ageing above the ageing
/// threshold, live otherwise, and unavailable without a layer.
pub open spec fn freshness_state_of(
    present: bool,
    age: Option<u64>,
    ageing_secs: u32,
    staleness_secs: u32,
) -> FreshnessState {
    if !present {
        FreshnessState::Unavailable
    } else {
        match age {
            None => FreshnessState::Stale,
            Some(a) => if a > staleness_secs {
                FreshnessState::Stale
            } else if a > ageing_secs {
                FreshnessState::Ageing
            } else {
                FreshnessState::Live
            },
        }
    }
}

/// The rank of a state on the way from live to stale.
pub open spec fn decay_rank(s: FreshnessState) -> int {
    match s {
        FreshnessState::Live => 0,
        FreshnessState::Ageing => 1,
        FreshnessState::Stale => 2,
        FreshnessState::Unavailable => 3,
    }
}

/// A layer degrades in one direction only: an older feed is never in
/// a fresher state than a newer one under the same thresholds, and a
/// feed above the staleness threshold is stale whatever the ageing
/// threshold says.
pub proof fn lemma_freshness_degrades_monotonically(
    younger: u64,
    older: u64,
    ageing_secs: u32,
    staleness_secs: u32,
)
    requires
        younger <= older,
    ensures
        decay_rank(freshness_state_of(true, Some(younger), ageing_secs, staleness_secs))
            <= decay_rank(freshness_state_of(true, Some(older), ageing_secs, staleness_secs)),
        older > staleness_secs ==> freshness_state_of(
            true,
            Some(older),
            ageing_secs,
            staleness_secs,
        ) == FreshnessState::Stale,
        is_current_spec(freshness_state_of(true, Some(younger), ageing_secs, staleness_secs))
            <== is_current_spec(
            freshness_state_of(true, Some(older), ageing_secs, staleness_secs),
        ),
{
}

/// The codes of the diagnostics that judging the freshness leaves.
pub open spec fn freshness_codes(
    feed: Option<RailRtFeed>,
    age: Option<u64>,
    ageing_secs: u32,
    staleness_secs: u32,
) -> Seq<Seq<char>> {
    match feed {
        None => Seq::empty(),
        Some(f) => (if f.trip_updates@.len() == 0 {
            seq!["realtime-without-trip-updates"@]
        } else {
            Seq::empty()
        }) + match age {
            None => seq!["realtime-without-timestamp"@],
            Some(a) => if a > staleness_secs {
                seq!["realtime-stale"@]
            } else if a > ageing_secs {
                seq!["realtime-ageing"@]
            } else {
                Seq::empty()
            },
        },
    }
}

/// The diagnostics that judging the freshness leaves, as plain values:
/// the severity, the code, the message, and no subject.
pub open spec fn freshness_findings(
    feed: Option<RailRtFeed>,
    age: Option<u64>,
    ageing_secs: u32,
    staleness_secs: u32,
) -> Seq<(Severity, Seq<char>, Seq<char>, Option<Seq<char>>)> {
    match feed {
        None => Seq::empty(),
        Some(f) => (if f.trip_updates@.len() == 0 {
            seq![
                (
                    Severity::Info,
                    "realtime-without-trip-updates"@,
                    "the realtime feed carries no trip update, so every run is schedule-only"@,
                    None,
                ),
            ]
        } else {
            Seq::empty()
        }) + match age {
            None => seq![
                (
                    Severity::Warning,
                    "realtime-without-timestamp"@,
                    "the realtime feed carries no timestamp, so its age is unknown and the snapshot falls back to the schedule"@,
                    None,
                ),
            ],
            Some(a) => if a > staleness_secs {
                seq![
                    (
                        Severity::Warning,
                        "realtime-stale"@,
                        "the realtime feed is "@ + crate::textbuf::decimal(a as nat)
                            + " s old, above the threshold of "@ + crate::textbuf::decimal(
                            staleness_secs as nat,
                        ) + " s, so the snapshot falls back to the schedule"@,
                        None,
                    ),
                ]
            } else if a > ageing_secs {
                seq![
                    (
                        Severity::Info,
                        "realtime-ageing"@,
                        "the realtime feed is "@ + crate::textbuf::decimal(a as nat)
                            + " s old, above the ageing threshold of "@ + crate::textbuf::decimal(
                            ageing_secs as nat,
                        ) + " s and below the staleness threshold of "@ + crate::textbuf::decimal(
                            staleness_secs as nat,
                        ) + " s, so its predictions still apply and the page reports the age"@,
                        None,
                    ),
                ]
            } else {
                Seq::empty()
            },
        },
    }
}

/// The severity that the snapshot gives a diagnostic of one of its own
/// codes: a note for what the map still draws faithfully, a warning for
/// a run or a feed that it cannot use as sent; `None` for a code that
/// the snapshot does not write itself.
pub open spec fn snapshot_severity(code: Seq<char>) -> Option<Severity> {
    if code == "realtime-without-trip-updates"@ ||
        code == "realtime-ageing"@ ||
        code == "realtime-update-ambiguous"@ ||
        code == "train-canceled"@ ||
        code == "train-cancellation-not-attributed"@ ||
        code == "stop-update-without-delay"@ ||
        code == "train-call-skipped"@ {
        Some(Severity::Info)
    } else if code == "realtime-without-timestamp"@ ||
        code == "realtime-stale"@ ||
        code == "train-approximate-times"@ ||
        code == "train-between-missing-calls"@ ||
        code == "train-not-placed"@ ||
        code == "realtime-unreadable-start-date"@ ||
        code == "realtime-unreadable-start-time"@ {
        Some(Severity::Warning)
    } else {
        None
    }
}

/// Every diagnostic with a code of the snapshot carries that code's
/// severity.
pub open spec fn graded_snapshot(ds: Seq<Diagnostic>) -> bool {
    forall|i: int|
        0 <= i < ds.len() ==> snapshot_severity((#[trigger] ds[i]).code@) is None
            || snapshot_severity(ds[i].code@) == Some(ds[i].severity)
}

pub(crate) proof fn lemma_graded_snapshot_push(ds: Seq<Diagnostic>, d: Diagnostic)
    requires
        snapshot_severity(d.code@) == Some(d.severity),
    ensures
        graded_snapshot(ds) ==> graded_snapshot(ds.push(d)),
{
    if graded_snapshot(ds) {
        assert forall|i: int| 0 <= i < ds.push(d).len() implies snapshot_severity(
            (#[trigger] ds.push(d)[i]).code@,
        ) is None || snapshot_severity(ds.push(d)[i].code@) == Some(ds.push(d)[i].severity) by {
            if i < ds.len() {
                assert(ds.push(d)[i] == ds[i]);
            }
        }
    }
}

pub(crate) proof fn lemma_snapshot_severities()
    ensures
        snapshot_severity("realtime-without-trip-updates"@) == Some(Severity::Info),
        snapshot_severity("realtime-ageing"@) == Some(Severity::Info),
        snapshot_severity("realtime-update-ambiguous"@) == Some(Severity::Info),
        snapshot_severity("train-canceled"@) == Some(Severity::Info),
        snapshot_severity("train-cancellation-not-attributed"@) == Some(Severity::Info),
        snapshot_severity("stop-update-without-delay"@) == Some(Severity::Info),
        snapshot_severity("train-call-skipped"@) == Some(Severity::Info),
        snapshot_severity("realtime-without-timestamp"@) == Some(Severity::Warning),
        snapshot_severity("realtime-stale"@) == Some(Severity::Warning),
        snapshot_severity("train-approximate-times"@) == Some(Severity::Warning),
        snapshot_severity("train-between-missing-calls"@) == Some(Severity::Warning),
        snapshot_severity("train-not-placed"@) == Some(Severity::Warning),
        snapshot_severity("realtime-unreadable-start-date"@) == Some(Severity::Warning),
        snapshot_severity("realtime-unreadable-start-time"@) == Some(Severity::Warning),
{
    reveal_strlit("realtime-without-trip-updates");
    reveal_strlit("realtime-ageing");
    reveal_strlit("realtime-update-ambiguous");
    reveal_strlit("train-canceled");
    reveal_strlit("train-cancellation-not-attributed");
    reveal_strlit("stop-update-without-delay");
    reveal_strlit("train-call-skipped");
    reveal_strlit("realtime-without-timestamp");
    reveal_strlit("realtime-stale");
    reveal_strlit("train-approximate-times");
    reveal_strlit("train-between-missing-calls");
    reveal_strlit("train-not-placed");
    reveal_strlit("realtime-unreadable-start-date");
    reveal_strlit("realtime-unreadable-start-time");
    assert("realtime-without-trip-updates"@.len() == 29);
    assert("realtime-ageing"@.len() == 15);
    assert("realtime-update-ambiguous"@.len() == 25);
    assert("train-canceled"@.len() == 14);
    assert("train-cancellation-not-attributed"@.len() == 33);
    assert("stop-update-without-delay"@.len() == 25);
    assert("train-call-skipped"@.len() == 18);
    assert("realtime-without-timestamp"@.len() == 26);
    assert("realtime-stale"@.len() == 14);
    assert("train-approximate-times"@.len() == 23);
    assert("train-between-missing-calls"@.len() == 27);
    assert("train-not-placed"@.len() == 16);
    assert("realtime-unreadable-start-date"@.len() == 30);
    assert("realtime-unreadable-start-time"@.len() == 30);
    assert("realtime-update-ambiguous"@[0] != "stop-update-without-delay"@[0]);
    assert("train-canceled"@[0] != "realtime-stale"@[0]);
    assert("realtime-unreadable-start-date"@[26] != "realtime-unreadable-start-time"@[26]);
}

/// Whether `b` begins with the diagnostics of `a`.
pub open spec fn keeps_prefix(a: Seq<Diagnostic>, b: Seq<Diagnostic>) -> bool {
    a.len() <= b.len() && forall|k: int| 0 <= k < a.len() ==> #[trigger] b[k] == a[k]
}

/// The codes of a run of diagnostics.
pub open spec fn codes_of(ds: Seq<Diagnostic>) -> Seq<Seq<char>> {
    ds.map_values(|d: Diagnostic| d.code@)
}

fn push_seconds_phrase(out: &mut String, before: &str, secs: u64, after: &str)
    ensures
        final(out)@ == old(out)@ + before@ + crate::textbuf::decimal(secs as nat) + after@,
{
    push_str(out, before);
    push_decimal(out, secs);
    push_str(out, after);
    proof {
        assert(out@ =~= old(out)@ + before@ + crate::textbuf::decimal(secs as nat) + after@);
    }
}

/// Judge the age of the realtime layer.
///
/// A feed without a timestamp counts as stale: the snapshot cannot
/// tell how old it is, and the honest answer is the schedule. The two
/// thresholds are read in order, stale first and then ageing, so the
/// layer degrades in one direction only.
pub fn judge_freshness(
    date: ServiceDate,
    clock: GtfsTime,
    realtime: Option<&RailRtFeed>,
    now_unix: Option<u64>,
    ageing_secs: u32,
    staleness_secs: u32,
    diagnostics: &mut Vec<Diagnostic>,
) -> (f: Freshness)
    ensures
        f.service_date == date,
        f.clock == clock,
        f.now_unix == now_unix,
        f.ageing_secs == ageing_secs,
        f.staleness_secs == staleness_secs,
        f.feed_timestamp == match realtime {
            Some(r) => r.feed_timestamp,
            None => None,
        },
        f.age_secs == match realtime {
            Some(r) => age_of(r.feed_timestamp, now_unix),
            None => None,
        },
        f.state == freshness_state_of(realtime is Some, f.age_secs, ageing_secs, staleness_secs),
        codes_of(final(diagnostics)@) == codes_of(old(diagnostics)@) + freshness_codes(
            match realtime {
                Some(r) => Some(*r),
                None => None,
            },
            f.age_secs,
            ageing_secs,
            staleness_secs,
        ),
        graded_snapshot(old(diagnostics)@) ==> graded_snapshot(final(diagnostics)@),
        diagnostic_views(final(diagnostics)@) == diagnostic_views(old(diagnostics)@)
            + freshness_findings(
            match realtime {
                Some(r) => Some(*r),
                None => None,
            },
            f.age_secs,
            ageing_secs,
            staleness_secs,
        ),
{
    let ghost start = diagnostics@;
    let mut freshness = Freshness {
        service_date: date,
        clock,
        feed_timestamp: None,
        now_unix,
        age_secs: None,
        ageing_secs,
        staleness_secs,
        state: FreshnessState::Unavailable,
    };
    let feed = match realtime {
        Some(feed) => feed,
        None => {
            proof {
                assert(codes_of(diagnostics@) =~= codes_of(start) + Seq::<Seq<char>>::empty());
                assert(diagnostic_views(diagnostics@) =~= diagnostic_views(start) + Seq::<
                    (Severity, Seq<char>, Seq<char>, Option<Seq<char>>),
                >::empty());
            }
            return freshness;
        },
    };
    freshness.feed_timestamp = feed.feed_timestamp;
    if feed.trip_updates.len() == 0 {
        let ghost prev = diagnostics@;
        diagnostics.push(
            Diagnostic::info(
                "realtime-without-trip-updates",
                owned("the realtime feed carries no trip update, so every run is schedule-only"),
            ),
        );
        proof {
            lemma_snapshot_severities();
            assert(diagnostics@ == prev.push(diagnostics@.last()));
            lemma_graded_snapshot_push(prev, diagnostics@.last());
            assert(diagnostic_views(diagnostics@) =~= diagnostic_views(prev).push(
                diagnostic_view(diagnostics@.last()),
            ));
        }
    }
    let ghost mid = diagnostics@;
    let age = match (feed.feed_timestamp, now_unix) {
        (Some(timestamp), Some(now)) => Some(
            if now >= timestamp {
                now - timestamp
            } else {
                0
            },
        ),
        _ => None,
    };
    freshness.age_secs = age;
    freshness.state = match age {
        None => {
            let ghost prev = diagnostics@;
            diagnostics.push(
                Diagnostic::warning(
                    "realtime-without-timestamp",
                    owned(
                        "the realtime feed carries no timestamp, so its age is unknown and the snapshot falls back to the schedule",
                    ),
                ),
            );
            proof {
                lemma_snapshot_severities();
                assert(diagnostics@ == prev.push(diagnostics@.last()));
                lemma_graded_snapshot_push(prev, diagnostics@.last());
                assert(diagnostic_views(diagnostics@) =~= diagnostic_views(prev).push(
                    diagnostic_view(diagnostics@.last()),
                ));
            }
            FreshnessState::Stale
        },
        Some(age) => {
            if age > staleness_secs as u64 {
                let mut message = String::new();
                push_seconds_phrase(&mut message, "the realtime feed is ", age, " s old, above the threshold of ");
                push_seconds_phrase(&mut message, "", staleness_secs as u64, " s, so the snapshot falls back to the schedule");
                proof {
                    reveal_strlit("");
                    assert(message@ =~= "the realtime feed is "@ + crate::textbuf::decimal(age as nat)
                        + " s old, above the threshold of "@ + crate::textbuf::decimal(
                        staleness_secs as nat,
                    ) + " s, so the snapshot falls back to the schedule"@);
                }
                let ghost prev = diagnostics@;
                diagnostics.push(Diagnostic::warning("realtime-stale", message));
                proof {
                    lemma_snapshot_severities();
                    assert(diagnostics@ == prev.push(diagnostics@.last()));
                    lemma_graded_snapshot_push(prev, diagnostics@.last());
                    assert(diagnostic_views(diagnostics@) =~= diagnostic_views(prev).push(
                        diagnostic_view(diagnostics@.last()),
                    ));
                }
                FreshnessState::Stale
            } else if age > ageing_secs as u64 {
                let mut message = String::new();
                push_seconds_phrase(&mut message, "the realtime feed is ", age, " s old, above the ageing threshold of ");
                push_seconds_phrase(&mut message, "", ageing_secs as u64, " s and below the staleness threshold of ");
                push_seconds_phrase(&mut message, "", staleness_secs as u64, " s, so its predictions still apply and the page reports the age");
                proof {
                    reveal_strlit("");
                    assert(message@ =~= "the realtime feed is "@ + crate::textbuf::decimal(age as nat)
                        + " s old, above the ageing threshold of "@ + crate::textbuf::decimal(
                        ageing_secs as nat,
                    ) + " s and below the staleness threshold of "@ + crate::textbuf::decimal(
                        staleness_secs as nat,
                    ) + " s, so its predictions still apply and the page reports the age"@);
                }
                let ghost prev = diagnostics@;
                diagnostics.push(Diagnostic::info("realtime-ageing", message));
                proof {
                    lemma_snapshot_severities();
                    assert(diagnostics@ == prev.push(diagnostics@.last()));
                    lemma_graded_snapshot_push(prev, diagnostics@.last());
                    assert(diagnostic_views(diagnostics@) =~= diagnostic_views(prev).push(
                        diagnostic_view(diagnostics@.last()),
                    ));
                }
                FreshnessState::Ageing
            } else {
                FreshnessState::Live
            }
        },
    };
    proof {
        reveal_strlit("realtime-without-trip-updates");
        assert(diagnostic_views(diagnostics@) =~= diagnostic_views(start) + freshness_findings(
            Some(*feed),
            age,
            ageing_secs,
            staleness_secs,
        ));
        assert(codes_of(diagnostics@) =~= codes_of(start) + freshness_codes(
            Some(*feed),
            age,
            ageing_secs,
            staleness_secs,
        ));
    }
    freshness
}

// ----------------------------------------------------------------------
// The shift
// ----------------------------------------------------------------------

/// One call of a run with the realtime shift applied. The times count
/// seconds after midnight of the service day and stay on it.
#[derive(Copy, Clone, Debug)]
pub struct AdjustedCall {
    /// The adjusted arrival.
    pub arrival: i64,
    /// The adjusted departure.
    pub departure: i64,
    /// The delay applied here, in seconds.
    pub delay_secs: Option<i32>,
    /// Where the scheduled time of the call came from.
    pub quality: TimeQuality,
    /// The realtime layer carried a time or a delay that applies here.
    pub realtime: bool,
    /// The trip update marks this call skipped.
    pub skipped: bool,
}

/// What the shift noticed about the trip update.
#[derive(Copy, Clone, Debug)]
pub struct ShiftNotes {
    /// A stop time update carried a predicted time but no delay.
    pub time_without_delay: bool,
    /// How many calls the trip update marks skipped.
    pub skipped: usize,
}

/// The first stop time update that names a platform.
pub open spec fn first_stop_update(sus: Seq<StopTimeUpdate>, id: Seq<char>, i: int) -> Option<int>
    decreases sus.len() - i,
{
    if i < 0 || i >= sus.len() {
        None
    } else if sus[i].stop_id matches Some(s) && s@ == id {
        Some(i)
    } else {
        first_stop_update(sus, id, i + 1)
    }
}

/// The stop time update of a trip update for one platform.
pub open spec fn announced_for(update: Option<TripUpdate>, id: Seq<char>) -> Option<StopTimeUpdate> {
    match update {
        Some(u) => match first_stop_update(u.stop_updates@, id, 0) {
            Some(i) => Some(u.stop_updates@[i]),
            None => None,
        },
        None => None,
    }
}

/// The delay of an optional event.
pub open spec fn event_delay(e: Option<StopTimeEvent>) -> Option<i32> {
    match e {
        Some(ev) => ev.delay_secs,
        None => None,
    }
}

/// The first of two options that is present.
pub open spec fn either<T>(a: Option<T>, b: Option<T>) -> Option<T> {
    if a is Some {
        a
    } else {
        b
    }
}

/// Whether an optional event carries a time or a delay.
pub open spec fn event_says(e: Option<StopTimeEvent>) -> bool {
    e matches Some(ev) && (ev.time is Some || ev.delay_secs is Some)
}

/// Whether an optional event carries a predicted time.
pub open spec fn event_has_time(e: Option<StopTimeEvent>) -> bool {
    e matches Some(ev) && ev.time is Some
}

/// Whether an optional event carries a delay.
pub open spec fn event_has_delay(e: Option<StopTimeEvent>) -> bool {
    e matches Some(ev) && ev.delay_secs is Some
}

/// A delay in seconds, zero where none applies.
pub open spec fn delay_or_zero(d: Option<i32>) -> int {
    match d {
        Some(v) => v as int,
        None => 0,
    }
}

/// The stop time update that shifts a call: the announced one, unless
/// it marks the call skipped.
pub open spec fn shifting_update(update: Option<TripUpdate>, call: ScheduledCall) -> Option<
    StopTimeUpdate,
> {
    match announced_for(update, call.platform_stop_id@) {
        Some(su) => if su.skipped {
            None
        } else {
            Some(su)
        },
        None => None,
    }
}

/// Whether the trip update marks the call skipped.
pub open spec fn skipped_by(update: Option<TripUpdate>, call: ScheduledCall) -> bool {
    announced_for(update, call.platform_stop_id@) matches Some(su) && su.skipped
}

/// The trip-level delay of an optional update.
pub open spec fn trip_delay_of(update: Option<TripUpdate>) -> Option<i32> {
    match update {
        Some(u) => u.delay_secs,
        None => None,
    }
}

/// The delay that shifts the arrival of a call: the stop's own arrival
/// delay, then its departure delay, then the trip-level delay.
pub open spec fn arrival_delay_of(update: Option<TripUpdate>, call: ScheduledCall) -> Option<i32> {
    either(
        match shifting_update(update, call) {
            Some(su) => either(event_delay(su.arrival), event_delay(su.departure)),
            None => None,
        },
        trip_delay_of(update),
    )
}

/// The delay that shifts the departure of a call: the stop's own
/// departure delay, then its arrival delay, then the trip-level delay.
pub open spec fn departure_delay_of(update: Option<TripUpdate>, call: ScheduledCall) -> Option<
    i32,
> {
    either(
        match shifting_update(update, call) {
            Some(su) => either(event_delay(su.departure), event_delay(su.arrival)),
            None => None,
        },
        trip_delay_of(update),
    )
}

/// One call with the realtime shift applied; `None` for a call with
/// no time at all.
pub open spec fn adjusted_spec(call: ScheduledCall, update: Option<TripUpdate>) -> Option<
    AdjustedCall,
> {
    match (arrival_or_departure_of(call), departure_or_arrival_of(call)) {
        (Some(a), Some(d)) => {
            let arrival = a.secs + delay_or_zero(arrival_delay_of(update, call));
            let departure = d.secs + delay_or_zero(departure_delay_of(update, call));
            let skipped = skipped_by(update, call);
            Some(
                AdjustedCall {
                    arrival: arrival as i64,
                    departure: (if skipped {
                        arrival
                    } else {
                        departure
                    }) as i64,
                    delay_secs: either(
                        departure_delay_of(update, call),
                        arrival_delay_of(update, call),
                    ),
                    quality: call.time_quality,
                    realtime: trip_delay_of(update) is Some || (shifting_update(
                        update,
                        call,
                    ) matches Some(su) && (event_says(su.arrival) || event_says(su.departure))),
                    skipped,
                },
            )
        },
        _ => None,
    }
}

/// Whether a call's stop update carries a predicted time and no delay.
pub open spec fn time_without_delay_at(update: Option<TripUpdate>, call: ScheduledCall) -> bool {
    shifting_update(update, call) matches Some(su) && !event_has_delay(su.arrival)
        && !event_has_delay(su.departure) && (event_has_time(su.arrival) || event_has_time(
        su.departure,
    ))
}

fn find_stop_update(sus: &Vec<StopTimeUpdate>, id: &str) -> (r: Option<usize>)
    ensures
        r matches Some(i) ==> first_stop_update(sus@, id@, 0) == Some(i as int) && i < sus@.len(),
        r is None ==> first_stop_update(sus@, id@, 0) is None,
{
    let mut i: usize = 0;
    while i < sus.len()
        invariant
            i <= sus@.len(),
            first_stop_update(sus@, id@, 0) == first_stop_update(sus@, id@, i as int),
        decreases sus@.len() - i,
    {
        match &sus[i].stop_id {
            Some(s) => {
                if crate::textbuf::str_eq(s.as_str(), id) {
                    return Some(i);
                }
            },
            None => {},
        }
        i = i + 1;
    }
    None
}

fn first_delay(a: Option<StopTimeEvent>, b: Option<StopTimeEvent>) -> (r: Option<i32>)
    ensures
        r == either(event_delay(a), event_delay(b)),
{
    match a {
        Some(e) => match e.delay_secs {
            Some(d) => return Some(d),
            None => {},
        },
        None => {},
    }
    match b {
        Some(e) => e.delay_secs,
        None => None,
    }
}

fn says(e: Option<StopTimeEvent>) -> (b: bool)
    ensures
        b == event_says(e),
{
    match e {
        Some(ev) => ev.time.is_some() || ev.delay_secs.is_some(),
        None => false,
    }
}

/// Apply the realtime shift to one scheduled call.
///
/// The per-stop event wins where the feed supplies one for the platform
/// of the call, otherwise the trip-level delay applies. A stop time
/// update that carries only an absolute predicted time cannot be used
/// without a time zone, so it leaves a note instead of a guess. A
/// skipped call keeps its scheduled arrival as an instant the run
/// passes through.
pub fn adjust(call: &ScheduledCall, update: Option<&TripUpdate>, notes: &mut ShiftNotes) -> (r:
    Option<AdjustedCall>)
    requires
        old(notes).skipped < usize::MAX,
    ensures
        r == adjusted_spec(
            *call,
            match update {
                Some(u) => Some(*u),
                None => None,
            },
        ),
        final(notes).skipped == old(notes).skipped + if r is Some && skipped_by(
            match update {
                Some(u) => Some(*u),
                None => None,
            },
            *call,
        ) {
            1int
        } else {
            0int
        },
        final(notes).time_without_delay == (old(notes).time_without_delay || (r is Some
            && time_without_delay_at(
            match update {
                Some(u) => Some(*u),
                None => None,
            },
            *call,
        ))),
{
    let ghost upd: Option<TripUpdate> = match update {
        Some(u) => Some(*u),
        None => None,
    };
    let arrival = match call.arrival_or_departure() {
        Some(t) => t,
        None => return None,
    };
    let departure = match call.departure_or_arrival() {
        Some(t) => t,
        None => return None,
    };
    let announced: Option<&StopTimeUpdate> = match update {
        Some(u) => match find_stop_update(&u.stop_updates, call.platform_stop_id.as_str()) {
            Some(i) => Some(&u.stop_updates[i]),
            None => None,
        },
        None => None,
    };
    assert(match announced {
        Some(a) => announced_for(upd, call.platform_stop_id@) == Some(*a),
        None => announced_for(upd, call.platform_stop_id@) is None,
    });
    let skipped = match announced {
        Some(su) => su.skipped,
        None => false,
    };
    if skipped {
        notes.skipped = notes.skipped + 1;
    }
    let stop_update: Option<&StopTimeUpdate> = match announced {
        Some(su) => if su.skipped {
            None
        } else {
            Some(su)
        },
        None => None,
    };
    match stop_update {
        Some(su) => {
            let no_delay = !(match su.arrival {
                Some(e) => e.delay_secs.is_some(),
                None => false,
            }) && !(match su.departure {
                Some(e) => e.delay_secs.is_some(),
                None => false,
            });
            let has_time = (match su.arrival {
                Some(e) => e.time.is_some(),
                None => false,
            }) || (match su.departure {
                Some(e) => e.time.is_some(),
                None => false,
            });
            if no_delay && has_time {
                notes.time_without_delay = true;
            }
        },
        None => {},
    }
    let trip_delay = match update {
        Some(u) => u.delay_secs,
        None => None,
    };
    let arrival_delay = match stop_update {
        Some(su) => match first_delay(su.arrival, su.departure) {
            Some(d) => Some(d),
            None => trip_delay,
        },
        None => trip_delay,
    };
    let departure_delay = match stop_update {
        Some(su) => match first_delay(su.departure, su.arrival) {
            Some(d) => Some(d),
            None => trip_delay,
        },
        None => trip_delay,
    };
    let realtime = trip_delay.is_some() || match stop_update {
        Some(su) => says(su.arrival) || says(su.departure),
        None => false,
    };
    let arrival_secs = arrival.secs as i64 + match arrival_delay {
        Some(d) => d as i64,
        None => 0,
    };
    let departure_secs = departure.secs as i64 + match departure_delay {
        Some(d) => d as i64,
        None => 0,
    };
    Some(
        AdjustedCall {
            arrival: arrival_secs,
            departure: if skipped {
                arrival_secs
            } else {
                departure_secs
            },
            delay_secs: match departure_delay {
                Some(d) => Some(d),
                None => arrival_delay,
            },
            quality: call.time_quality,
            realtime,
            skipped,
        },
    )
}

/// Whether the library or the feed marked a scheduled time as
/// something other than a plain published time.
pub open spec fn computed_spec(q: TimeQuality) -> bool {
    q is Interpolated || q is Approximate
}

/// Report whether the scheduled time was computed or is approximate.
pub fn computed(quality: TimeQuality) -> (b: bool)
    ensures
        b == computed_spec(quality),
{
    match quality {
        TimeQuality::Interpolated => true,
        TimeQuality::Approximate => true,
        TimeQuality::Exact => false,
        TimeQuality::Missing => false,
    }
}

/// The provenance marker of one position.
pub open spec fn quality_spec(at_station: bool, realtime: bool, interpolated: bool) -> PositionQuality {
    if !realtime {
        PositionQuality::ScheduleOnly
    } else if at_station {
        PositionQuality::AtStation
    } else if interpolated {
        PositionQuality::InterpolatedSchedule
    } else {
        PositionQuality::InterpolatedRealtime
    }
}

/// Pick the provenance marker of one position.
///
/// Without a realtime shift on a bracketing call the position is
/// schedule-only, whatever else is true of it.
pub fn quality(at_station: bool, realtime: bool, interpolated: bool) -> (q: PositionQuality)
    ensures
        q == quality_spec(at_station, realtime, interpolated),
        !realtime ==> q == PositionQuality::ScheduleOnly,
        realtime ==> q != PositionQuality::ScheduleOnly,
{
    if !realtime {
        PositionQuality::ScheduleOnly
    } else if at_station {
        PositionQuality::AtStation
    } else if interpolated {
        PositionQuality::InterpolatedSchedule
    } else {
        PositionQuality::InterpolatedRealtime
    }
}

// ----------------------------------------------------------------------
// Positions
// ----------------------------------------------------------------------

/// Where one train sits on the network.
#[derive(Copy, Clone, Debug, PartialEq, Eq, Structural)]
pub enum TrainLocation {
    /// The run stands at a station.
    AtStation {
        /// The station.
        station: usize,
        /// The stop pattern of the run.
        pattern: usize,
        /// The index of the call in the pattern.
        index: usize,
    },
    /// The run lies between two stations.
    OnEdge {
        /// The stop pattern of the run.
        pattern: usize,
        /// The index of the edge in the pattern.
        index: usize,
        /// The station behind.
        from: usize,
        /// The station ahead.
        to: usize,
    },
}

/// One train on the map.
#[derive(Clone, Debug)]
pub struct MapTrain {
    /// The stable identifier of the run.
    pub instance_id: String,
    /// The GTFS `trip_id` that the run comes from.
    pub source_trip_id: String,
    /// The line of the run.
    pub line: usize,
    /// Where the run sits.
    pub location: TrainLocation,
    /// The seconds since the adjusted departure behind, for a run on an
    /// edge; zero at a station.
    pub travelled_secs: i64,
    /// The adjusted time from the departure behind to the arrival
    /// ahead, for a run on an edge; zero at a station. The share of the
    /// edge travelled is `travelled_secs / span_secs`.
    pub span_secs: i64,
    /// The same span as a bound on local motion, for a run on an edge.
    pub edge_secs: Option<u32>,
    /// The destination text.
    pub destination: String,
    /// Where the position comes from.
    pub quality: PositionQuality,
    /// The live delay in seconds, where a trip update reports one.
    pub delay_secs: Option<i32>,
    /// A bracketing scheduled time was computed or is approximate.
    pub schedule_interpolated: bool,
}

/// The calls of a run with the realtime shift applied.
pub open spec fn adjusted_calls(calls: Seq<ScheduledCall>, update: Option<TripUpdate>) -> Seq<
    Option<AdjustedCall>,
> {
    calls.map_values(|c: ScheduledCall| adjusted_spec(c, update))
}

/// Whether the run serves call `i`: it has a time and is not skipped.
pub open spec fn serves(adj: Seq<Option<AdjustedCall>>, i: int) -> bool {
    0 <= i < adj.len() && (adj[i] matches Some(c) && !c.skipped)
}

/// The first call from `i` on that the run serves.
pub open spec fn first_serving(adj: Seq<Option<AdjustedCall>>, i: int) -> Option<int>
    decreases adj.len() - i,
{
    if i < 0 || i >= adj.len() {
        None
    } else if serves(adj, i) {
        Some(i)
    } else {
        first_serving(adj, i + 1)
    }
}

/// The last call before `j` that the run serves.
pub open spec fn last_serving(adj: Seq<Option<AdjustedCall>>, j: int) -> Option<int>
    decreases j,
{
    if j <= 0 || j > adj.len() {
        None
    } else if serves(adj, j - 1) {
        Some(j - 1)
    } else {
        last_serving(adj, j - 1)
    }
}

/// Whether the run stands at call `i` at a moment.
pub open spec fn stands_at(adj: Seq<Option<AdjustedCall>>, now: int, i: int) -> bool {
    serves(adj, i) && adj[i]->0.arrival <= now <= adj[i]->0.departure
}

/// The first call from `i` on at which the run stands at a moment.
pub open spec fn first_standing(adj: Seq<Option<AdjustedCall>>, now: int, i: int) -> Option<int>
    decreases adj.len() - i,
{
    if i < 0 || i >= adj.len() {
        None
    } else if stands_at(adj, now, i) {
        Some(i)
    } else {
        first_standing(adj, now, i + 1)
    }
}

/// The first call from `i` on that has a time.
pub open spec fn next_known(adj: Seq<Option<AdjustedCall>>, i: int) -> Option<int>
    decreases adj.len() - i,
{
    if i < 0 || i >= adj.len() {
        None
    } else if adj[i] is Some {
        Some(i)
    } else {
        next_known(adj, i + 1)
    }
}

/// How a run that stands at no station lies on its edges.
pub enum EdgeOutcome {
    /// It lies on the edge from call `behind` to the next call.
    Found(int),
    /// The bracketing calls are not neighbours: calls without a time
    /// lie between them.
    Gap,
    /// No pair of neighbouring timed calls brackets the moment.
    Unbracketed,
}

/// Scan the pairs of consecutive timed calls from call `b` on for the
/// first one whose departure behind and arrival ahead bracket a moment.
pub open spec fn edge_scan(adj: Seq<Option<AdjustedCall>>, now: int, b: int) -> EdgeOutcome
    decreases adj.len() - b,
{
    if b < 0 || b >= adj.len() {
        EdgeOutcome::Unbracketed
    } else if adj[b] is None {
        edge_scan(adj, now, b + 1)
    } else {
        match next_known(adj, b + 1) {
            None => EdgeOutcome::Unbracketed,
            Some(a) => if adj[b]->0.departure <= now && now < adj[a]->0.arrival {
                if a != b + 1 {
                    EdgeOutcome::Gap
                } else {
                    EdgeOutcome::Found(b)
                }
            } else {
                edge_scan(adj, now, b + 1)
            },
        }
    }
}

/// Why a run is or is not on the map at a moment.
pub enum Placement {
    /// The trip update cancels this run.
    Canceled,
    /// The run comes from a non-exact headway block.
    Approximate,
    /// The run is not on the network at this moment.
    Off,
    /// The run stands at call `i`.
    At(int),
    /// The run lies on the edge from call `i` to call `i + 1`.
    Edge(int),
    /// The run lies between calls without a time.
    Gap,
    /// The adjusted times do not bracket the moment.
    Unbracketed,
}

/// The update that shifts the run: the matched one while the layer is
/// current, none otherwise.
pub open spec fn shifting_trip_update(live: bool, update: Option<TripUpdate>) -> Option<TripUpdate> {
    if live {
        update
    } else {
        None
    }
}

/// Where a run is at a clock reading, by the rules of the live map: a
/// cancellation that provably targets the run, or arrives while the
/// layer is current, removes it; a run of a non-exact headway block has
/// no position; a run outside the span from its first to its last
/// served call is off the network; otherwise it stands at the first
/// served call whose adjusted times hold the moment, or lies on the
/// first edge whose times bracket it.
pub open spec fn placement(
    trip: TripInstance,
    now: int,
    live: bool,
    targeted: bool,
    update: Option<TripUpdate>,
) -> Placement {
    if (update matches Some(u) && u.canceled) && (live || targeted) {
        Placement::Canceled
    } else if trip.exactness != TimeExactness::Exact {
        Placement::Approximate
    } else {
        locate_spec(adjusted_calls(trip.calls@, shifting_trip_update(live, update)), now)
    }
}

/// Where a run with adjusted calls is at a moment: off the network
/// outside the span from its first to its last served call; otherwise
/// at the first served call whose times hold the moment, or on the
/// first edge whose times bracket it.
pub open spec fn locate_spec(adj: Seq<Option<AdjustedCall>>, now: int) -> Placement {
    match (first_serving(adj, 0), last_serving(adj, adj.len() as int)) {
        (Some(first), Some(last)) => if now < adj[first]->0.arrival || now > adj[last]->0.departure {
            Placement::Off
        } else {
            match first_standing(adj, now, 0) {
                Some(i) => Placement::At(i),
                None => match edge_scan(adj, now, 0) {
                    EdgeOutcome::Found(b) => Placement::Edge(b),
                    EdgeOutcome::Gap => Placement::Gap,
                    EdgeOutcome::Unbracketed => Placement::Unbracketed,
                },
            }
        },
        _ => Placement::Off,
    }
}

/// The destination of a run: its headsign, else the name of its last
/// station, else nothing.
pub open spec fn destination_of(network: RailNetwork, trip: TripInstance) -> Seq<char> {
    match trip.headsign {
        Some(h) => h@,
        None => if trip.calls@.len() > 0 {
            network.stations@[trip.calls@.last().station as int].name@
        } else {
            Seq::empty()
        },
    }
}

/// The train that a placement at a call or on an edge puts on the map.
pub open spec fn train_matches(
    t: MapTrain,
    network: RailNetwork,
    trip: TripInstance,
    now: int,
    live: bool,
    update: Option<TripUpdate>,
    p: Placement,
) -> bool {
    let adj = adjusted_calls(trip.calls@, shifting_trip_update(live, update));
    &&& t.instance_id@ == trip.instance_id@
    &&& t.source_trip_id@ == trip.source_trip_id@
    &&& t.line == trip.line
    &&& t.destination@ == destination_of(network, trip)
    &&& match p {
        Placement::At(i) => {
            let c = adj[i]->0;
            &&& t.location == (TrainLocation::AtStation {
                station: trip.calls@[i].station,
                pattern: trip.pattern,
                index: i as usize,
            })
            &&& t.travelled_secs == 0 && t.span_secs == 0 && t.edge_secs is None
            &&& t.quality == quality_spec(true, c.realtime, computed_spec(c.quality))
            &&& t.delay_secs == c.delay_secs
            &&& t.schedule_interpolated == computed_spec(c.quality)
        },
        Placement::Edge(b) => {
            let back = adj[b]->0;
            let front = adj[b + 1]->0;
            let interpolated = computed_spec(back.quality) || computed_spec(front.quality);
            &&& t.location == (TrainLocation::OnEdge {
                pattern: trip.pattern,
                index: b as usize,
                from: trip.calls@[b].station,
                to: trip.calls@[b + 1].station,
            })
            &&& t.travelled_secs == now - back.departure
            &&& t.span_secs == front.arrival - back.departure
            &&& t.edge_secs == Some((front.arrival - back.departure) as u32)
            &&& t.quality == quality_spec(false, back.realtime || front.realtime, interpolated)
            &&& t.delay_secs == back.delay_secs
            &&& t.schedule_interpolated == interpolated
        },
        _ => false,
    }
}

/// The codes of the diagnostics that placing a run with exact times
/// leaves behind: the notes of the shift, then why it could not be
/// placed, where it could not.
pub open spec fn run_codes(calls: Seq<ScheduledCall>, update: Option<TripUpdate>, now: int) -> Seq<
    Seq<char>,
> {
    let p = locate_spec(adjusted_calls(calls, update), now);
    (if notes_of(calls, update).time_without_delay {
        seq!["stop-update-without-delay"@]
    } else {
        Seq::empty()
    }) + (if notes_of(calls, update).skipped > 0 {
        seq!["train-call-skipped"@]
    } else {
        Seq::empty()
    }) + (if p == Placement::Gap {
        seq!["train-between-missing-calls"@]
    } else if p == Placement::Unbracketed {
        seq!["train-not-placed"@]
    } else {
        Seq::empty()
    })
}

/// The codes of the diagnostics that placing a run leaves behind.
pub open spec fn placement_codes(
    trip: TripInstance,
    now: int,
    live: bool,
    matched: UpdateMatch,
    update: Option<TripUpdate>,
) -> Seq<Seq<char>> {
    let p = placement(trip, now, live, matched.targeted, update);
    (if matched.ambiguous {
        seq!["realtime-update-ambiguous"@]
    } else {
        Seq::empty()
    }) + (if update matches Some(u) && u.canceled {
        if live || matched.targeted {
            seq!["train-canceled"@]
        } else {
            seq!["train-cancellation-not-attributed"@]
        }
    } else {
        Seq::empty()
    }) + (if p == Placement::Canceled {
        Seq::empty()
    } else if p == Placement::Approximate {
        seq!["train-approximate-times"@]
    } else {
        run_codes(trip.calls@, shifting_trip_update(live, update), now)
    })
}

/// The diagnostics that placing a run with exact times leaves, as
/// plain values.
pub open spec fn run_findings(trip: TripInstance, update: Option<TripUpdate>, now: int) -> Seq<(Severity, Seq<char>, Seq<char>, Option<Seq<char>>)> {
    let calls = trip.calls@;
    let p = locate_spec(adjusted_calls(calls, update), now);
    let notes = notes_of(calls, update);
    (if notes.time_without_delay {
        seq![(Severity::Info, "stop-update-without-delay"@, "a stop time update carries a predicted time but no delay, and the snapshot cannot convert a POSIX time to a service day without a time zone, so the trip-level delay applies instead"@, Some(trip.source_trip_id@))]
    } else {
        Seq::empty()
    }) + (if notes.skipped > 0 {
        seq![
            (
                Severity::Info,
                "train-call-skipped"@,
                "the trip update marks "@ + crate::textbuf::decimal(notes.skipped as nat) + " call(s) of this run skipped, so the map draws the run passing those stations rather than standing at them"@,
                Some(trip.instance_id@),
            ),
        ]
    } else {
        Seq::empty()
    }) + (if p == Placement::Gap {
        seq![(Severity::Warning, "train-between-missing-calls"@, "the run lies between two calls that have no time, so the snapshot cannot say which edge it is on"@, Some(trip.instance_id@))]
    } else if p == Placement::Unbracketed {
        seq![(Severity::Warning, "train-not-placed"@, "the adjusted times of the run do not bracket the clock, so the snapshot cannot place it"@, Some(trip.instance_id@))]
    } else {
        Seq::empty()
    })
}

/// The diagnostics that placing a run leaves, as plain values.
pub open spec fn placement_findings(
    trip: TripInstance,
    now: int,
    live: bool,
    matched: UpdateMatch,
    update: Option<TripUpdate>,
) -> Seq<(Severity, Seq<char>, Seq<char>, Option<Seq<char>>)> {
    let p = placement(trip, now, live, matched.targeted, update);
    (if matched.ambiguous {
        seq![
            (
                Severity::Info,
                "realtime-update-ambiguous"@,
                "a trip update names \""@ + trip.source_trip_id@ + "\" but no start time, and the headway block expands that trip into several runs, so the update cannot be shown to belong to this one; the map draws this run from the schedule"@,
                Some(trip.instance_id@),
            ),
        ]
    } else {
        Seq::empty()
    }) + (if update matches Some(u) && u.canceled {
        if live || matched.targeted {
            seq![(Severity::Info, "train-canceled"@, "the trip update cancels this run, so the map draws no train for it"@, Some(trip.instance_id@))]
        } else {
            seq![(Severity::Info, "train-cancellation-not-attributed"@, "the trip update cancels the trip but names no start date, and the realtime feed is stale, so the cancellation cannot be shown to be about this run rather than an earlier one; the map draws the scheduled run"@, Some(trip.instance_id@))]
        }
    } else {
        Seq::empty()
    }) + (if p == Placement::Canceled {
        Seq::empty()
    } else if p == Placement::Approximate {
        seq![(Severity::Warning, "train-approximate-times"@, "the run comes from a non-exact headway block, so it has no position"@, Some(trip.instance_id@))]
    } else {
        run_findings(trip, shifting_trip_update(live, update), now)
    })
}

/// What shifting all calls of a run notices.
pub open spec fn notes_of(calls: Seq<ScheduledCall>, update: Option<TripUpdate>) -> ShiftNotes
    decreases calls.len(),
{
    if calls.len() == 0 {
        ShiftNotes { time_without_delay: false, skipped: 0 }
    } else {
        let n = notes_of(calls.drop_last(), update);
        let c = calls.last();
        let timed = adjusted_spec(c, update) is Some;
        ShiftNotes {
            time_without_delay: n.time_without_delay || (timed && time_without_delay_at(update, c)),
            skipped: (n.skipped + if timed && skipped_by(update, c) {
                1int
            } else {
                0int
            }) as usize,
        }
    }
}

/// The update behind an optional reference.
pub open spec fn deref_update(update: Option<&TripUpdate>) -> Option<TripUpdate> {
    match update {
        Some(u) => Some(*u),
        None => None,
    }
}

proof fn lemma_first_standing_bounds(adj: Seq<Option<AdjustedCall>>, now: int, i: int)
    requires
        0 <= i,
    ensures
        first_standing(adj, now, i) matches Some(j) ==> i <= j < adj.len() && stands_at(adj, now, j),
    decreases adj.len() - i,
{
    if i < adj.len() && !stands_at(adj, now, i) {
        lemma_first_standing_bounds(adj, now, i + 1);
    }
}

proof fn lemma_next_known_bounds(adj: Seq<Option<AdjustedCall>>, i: int)
    requires
        0 <= i,
    ensures
        next_known(adj, i) matches Some(j) ==> i <= j < adj.len() && adj[j] is Some,
    decreases adj.len() - i,
{
    if i < adj.len() && adj[i] is None {
        lemma_next_known_bounds(adj, i + 1);
    }
}

proof fn lemma_edge_scan_bounds(adj: Seq<Option<AdjustedCall>>, now: int, b: int)
    requires
        0 <= b,
    ensures
        edge_scan(adj, now, b) matches EdgeOutcome::Found(e) ==> b <= e && e + 1 < adj.len()
            && adj[e] is Some && adj[e + 1] is Some,
    decreases adj.len() - b,
{
    if b < adj.len() {
        lemma_next_known_bounds(adj, b + 1);
        lemma_edge_scan_bounds(adj, now, b + 1);
    }
}

/// A run on the map stands at one of its own calls, or lies on the
/// edge from one of its calls to the next.
pub proof fn lemma_placement_names_a_call(
    trip: TripInstance,
    now: int,
    live: bool,
    targeted: bool,
    update: Option<TripUpdate>,
)
    ensures
        placement(trip, now, live, targeted, update) matches Placement::At(i) ==> 0 <= i
            < trip.calls@.len() && adjusted_calls(trip.calls@, shifting_trip_update(live, update))[i]
            is Some,
        placement(trip, now, live, targeted, update) matches Placement::Edge(e) ==> 0 <= e && e + 1
            < trip.calls@.len() && adjusted_calls(trip.calls@, shifting_trip_update(live, update))[e]
            is Some && adjusted_calls(trip.calls@, shifting_trip_update(live, update))[e + 1] is Some,
{
    let adj = adjusted_calls(trip.calls@, shifting_trip_update(live, update));
    lemma_first_standing_bounds(adj, now, 0);
    lemma_edge_scan_bounds(adj, now, 0);
}

proof fn lemma_adjusted_bounds(c: ScheduledCall, u: Option<TripUpdate>)
    ensures
        adjusted_spec(c, u) matches Some(a) ==> -0x8000_0000 <= a.arrival <= 0x1_8000_0000
            && -0x8000_0000 <= a.departure <= 0x1_8000_0000,
{
}

fn serving_at(adjusted: &Vec<Option<AdjustedCall>>, i: usize) -> (b: bool)
    requires
        i < adjusted@.len(),
    ensures
        b == serves(adjusted@, i as int),
{
    match adjusted[i] {
        Some(c) => !c.skipped,
        None => false,
    }
}

fn not_running_message(before: &str, trip: &TripInstance, after: &str) -> (s: String)
    ensures
        s@ == before@ + trip.source_trip_id@ + after@,
{
    let mut out = owned(before);
    push_str(&mut out, trip.source_trip_id.as_str());
    push_str(&mut out, after);
    proof {
        assert(out@ =~= before@ + trip.source_trip_id@ + after@);
    }
    out
}

/// Where a run is, as [`locate`] finds it.
#[derive(Copy, Clone, Debug)]
pub enum Located {
    /// Not on the network.
    Off,
    /// At call `i`.
    At(usize),
    /// On the edge from call `i` to call `i + 1`.
    Edge(usize),
    /// Between calls without a time.
    Gap,
    /// No pair of timed calls brackets the moment.
    Unbracketed,
}

/// The placement that a located run stands for.
pub open spec fn located_view(l: Located) -> Placement {
    match l {
        Located::Off => Placement::Off,
        Located::At(i) => Placement::At(i as int),
        Located::Edge(i) => Placement::Edge(i as int),
        Located::Gap => Placement::Gap,
        Located::Unbracketed => Placement::Unbracketed,
    }
}

/// Shift every call of a run.
pub fn shift_run(calls: &Vec<ScheduledCall>, update: Option<&TripUpdate>) -> (r: (
    Vec<Option<AdjustedCall>>,
    ShiftNotes,
))
    ensures
        r.0@ == adjusted_calls(calls@, deref_update(update)),
        r.1 == notes_of(calls@, deref_update(update)),
{
    let ghost u1 = deref_update(update);
    let mut notes = ShiftNotes { time_without_delay: false, skipped: 0 };
    let mut adjusted: Vec<Option<AdjustedCall>> = Vec::new();
    let mut i: usize = 0;
    while i < calls.len()
        invariant
            i <= calls@.len(),
            adjusted@ == adjusted_calls(calls@.take(i as int), u1),
            notes == notes_of(calls@.take(i as int), u1),
            notes.skipped <= i,
            u1 == deref_update(update),
        decreases calls@.len() - i,
    {
        proof {
            assert(calls@.take(i + 1).drop_last() =~= calls@.take(i as int));
        }
        let a = adjust(&calls[i], update, &mut notes);
        adjusted.push(a);
        proof {
            assert(adjusted@ =~= adjusted_calls(calls@.take(i + 1), u1));
        }
        i = i + 1;
    }
    proof {
        assert(calls@.take(calls@.len() as int) =~= calls@);
    }
    (adjusted, notes)
}

/// Find where a run with adjusted calls is at a moment.
#[verifier::loop_isolation(false)]
pub fn locate(adjusted: &Vec<Option<AdjustedCall>>, now: i64) -> (r: Located)
    ensures
        located_view(r) == locate_spec(adjusted@, now as int),
        r matches Located::At(i) ==> i < adjusted@.len() && adjusted@[i as int] is Some,
        r matches Located::Edge(i) ==> i + 1 < adjusted@.len() && adjusted@[i as int] is Some
            && adjusted@[i + 1] is Some,
{
    let ghost adj = adjusted@;
    let n = adjusted.len();
    let mut f: usize = 0;
    while f < n && !serving_at(adjusted, f)
        invariant
            f <= n,
            n == adj.len(),
            adjusted@ == adj,
            first_serving(adj, 0) == first_serving(adj, f as int),
        decreases n - f,
    {
        f = f + 1;
    }
    let mut l: usize = n;
    while l > 0 && !serving_at(adjusted, l - 1)
        invariant
            l <= n,
            n == adj.len(),
            adjusted@ == adj,
            last_serving(adj, n as int) == last_serving(adj, l as int),
        decreases l,
    {
        l = l - 1;
    }
    if f >= n || l == 0 {
        return Located::Off;
    }
    let first_call = adjusted[f].unwrap();
    let last_call = adjusted[l - 1].unwrap();
    if now < first_call.arrival || now > last_call.departure {
        return Located::Off;
    }
    let mut k: usize = 0;
    while k < n
        invariant
            k <= n,
            n == adj.len(),
            adjusted@ == adj,
            first_standing(adj, now as int, 0) == first_standing(adj, now as int, k as int),
        decreases n - k,
    {
        match adjusted[k] {
            Some(call) => {
                if !call.skipped && call.arrival <= now && now <= call.departure {
                    return Located::At(k);
                }
            },
            None => {},
        }
        k = k + 1;
    }
    assert(first_standing(adj, now as int, 0) is None);
    let mut b: usize = 0;
    while b < n
        invariant
            b <= n,
            n == adj.len(),
            adjusted@ == adj,
            edge_scan(adj, now as int, 0) == edge_scan(adj, now as int, b as int),
        decreases n - b,
    {
        if adjusted[b].is_some() {
            let mut a: usize = b + 1;
            while a < n && adjusted[a].is_none()
                invariant
                    b < a <= n,
                    n == adj.len(),
                    adjusted@ == adj,
                    next_known(adj, b + 1) == next_known(adj, a as int),
                decreases n - a,
            {
                a = a + 1;
            }
            if a >= n {
                return Located::Unbracketed;
            }
            let back = adjusted[b].unwrap();
            let front = adjusted[a].unwrap();
            if back.departure <= now && now < front.arrival {
                if a != b + 1 {
                    return Located::Gap;
                }
                return Located::Edge(b);
            }
        }
        b = b + 1;
    }
    Located::Unbracketed
}

/// The destination text of a run.
fn destination(network: &RailNetwork, trip: &TripInstance) -> (s: String)
    requires
        crate::schedule::trip_in_network(*network, *trip),
    ensures
        s@ == destination_of(*network, *trip),
{
    match &trip.headsign {
        Some(h) => owned(h.as_str()),
        None => match trip.terminus() {
            Some(st) => owned(network.stations[st].name.as_str()),
            None => String::new(),
        },
    }
}

/// Place one run on the network at a clock reading, or say why it
/// cannot be placed.
///
/// `matched` is what the decision table of the matching module says
/// about the run, and `update` is the trip update it names. The result
/// is `None` for a run that is not running at `clock`; everything else
/// that keeps a run off the map leaves a diagnostic behind.
#[verifier::spinoff_prover]
#[verifier::rlimit(60)]
pub fn place(
    network: &RailNetwork,
    trip: &TripInstance,
    clock: GtfsTime,
    live: bool,
    matched: UpdateMatch,
    update: Option<&TripUpdate>,
    diagnostics: &mut Vec<Diagnostic>,
) -> (r: Option<MapTrain>)
    requires
        crate::schedule::trip_in_network(*network, *trip),
    ensures
        ({
            let p = placement(
                *trip,
                clock.secs as int,
                live,
                matched.targeted,
                deref_update(update),
            );
            &&& (r is Some <==> (p is At || p is Edge))
            &&& (r matches Some(t) ==> train_matches(
                t,
                *network,
                *trip,
                clock.secs as int,
                live,
                deref_update(update),
                p,
            ))
        }),
        codes_of(final(diagnostics)@) == codes_of(old(diagnostics)@) + placement_codes(
            *trip,
            clock.secs as int,
            live,
            matched,
            deref_update(update),
        ),
        graded_snapshot(old(diagnostics)@) ==> graded_snapshot(final(diagnostics)@),
        keeps_prefix(old(diagnostics)@, final(diagnostics)@),
        diagnostic_views(final(diagnostics)@) == diagnostic_views(old(diagnostics)@) + placement_findings(
            *trip,
            clock.secs as int,
            live,
            matched,
            deref_update(update),
        ),
{
    let ghost v0 = diagnostic_views(diagnostics@);
    let ghost mut vexp: Seq<(Severity, Seq<char>, Seq<char>, Option<Seq<char>>)> = Seq::empty();
    let ghost u0 = deref_update(update);
    let ghost now_i = clock.secs as int;
    let ghost p = placement(*trip, now_i, live, matched.targeted, u0);
    let ghost start = codes_of(diagnostics@);
    let ghost mut expected: Seq<Seq<char>> = Seq::empty();
    if matched.ambiguous {
        let message = not_running_message(
            "a trip update names \"",
            trip,
            "\" but no start time, and the headway block expands that trip into several runs, so the update cannot be shown to belong to this one; the map draws this run from the schedule",
        );
        let ghost prev = diagnostics@;
        diagnostics.push(
            Diagnostic::info("realtime-update-ambiguous", message).about(trip.instance_id.as_str()),
        );
        proof {
            lemma_snapshot_severities();
            assert(diagnostics@ == prev.push(diagnostics@.last()));
            lemma_graded_snapshot_push(prev, diagnostics@.last());
            assert(diagnostic_views(diagnostics@) =~= diagnostic_views(prev).push(
                diagnostic_view(diagnostics@.last()),
            ));
        }
        proof {
            expected = expected.push("realtime-update-ambiguous"@);
            vexp = vexp.push(diagnostic_view(diagnostics@.last()));
        }
    }
    let canceled = match update {
        Some(u) => u.canceled,
        None => false,
    };
    if canceled {
        if live || matched.targeted {
            let ghost prev = diagnostics@;
            diagnostics.push(
                Diagnostic::info(
                    "train-canceled",
                    owned("the trip update cancels this run, so the map draws no train for it"),
                ).about(trip.instance_id.as_str()),
            );
            proof {
                lemma_snapshot_severities();
                assert(diagnostics@ == prev.push(diagnostics@.last()));
                lemma_graded_snapshot_push(prev, diagnostics@.last());
                assert(diagnostic_views(diagnostics@) =~= diagnostic_views(prev).push(
                    diagnostic_view(diagnostics@.last()),
                ));
            }
            proof {
                expected = expected.push("train-canceled"@);
                vexp = vexp.push(diagnostic_view(diagnostics@.last()));
                assert(codes_of(diagnostics@) =~= start + expected);
        assert(diagnostic_views(diagnostics@) =~= v0 + vexp);
                assert(expected =~= placement_codes(*trip, now_i, live, matched, u0));
                assert(vexp =~= placement_findings(*trip, now_i, live, matched, u0));
            }
            return None;
        }
        let ghost prev = diagnostics@;
        diagnostics.push(
            Diagnostic::info(
                "train-cancellation-not-attributed",
                owned(
                    "the trip update cancels the trip but names no start date, and the realtime feed is stale, so the cancellation cannot be shown to be about this run rather than an earlier one; the map draws the scheduled run",
                ),
            ).about(trip.instance_id.as_str()),
        );
        proof {
            lemma_snapshot_severities();
            assert(diagnostics@ == prev.push(diagnostics@.last()));
            lemma_graded_snapshot_push(prev, diagnostics@.last());
            assert(diagnostic_views(diagnostics@) =~= diagnostic_views(prev).push(
                diagnostic_view(diagnostics@.last()),
            ));
        }
        proof {
            expected = expected.push("train-cancellation-not-attributed"@);
            vexp = vexp.push(diagnostic_view(diagnostics@.last()));
        }
    }
    match trip.exactness {
        TimeExactness::Exact => {},
        TimeExactness::Approximate => {
            let ghost prev = diagnostics@;
            diagnostics.push(
                Diagnostic::warning(
                    "train-approximate-times",
                    owned("the run comes from a non-exact headway block, so it has no position"),
                ).about(trip.instance_id.as_str()),
            );
            proof {
                lemma_snapshot_severities();
                assert(diagnostics@ == prev.push(diagnostics@.last()));
                lemma_graded_snapshot_push(prev, diagnostics@.last());
                assert(diagnostic_views(diagnostics@) =~= diagnostic_views(prev).push(
                    diagnostic_view(diagnostics@.last()),
                ));
            }
            proof {
                expected = expected.push("train-approximate-times"@);
                vexp = vexp.push(diagnostic_view(diagnostics@.last()));
                assert(codes_of(diagnostics@) =~= start + expected);
        assert(diagnostic_views(diagnostics@) =~= v0 + vexp);
                assert(expected =~= placement_codes(*trip, now_i, live, matched, u0));
                assert(vexp =~= placement_findings(*trip, now_i, live, matched, u0));
            }
            return None;
        },
    }
    proof {
        assert(codes_of(diagnostics@) =~= start + expected);
        assert(diagnostic_views(diagnostics@) =~= v0 + vexp);
    }
    let upd: Option<&TripUpdate> = if live {
        update
    } else {
        None
    };
    let ghost u1 = deref_update(upd);
    assert(u1 == shifting_trip_update(live, u0));
    let ghost before = codes_of(diagnostics@);
    let r = place_exact(network, trip, clock, upd, diagnostics);
    proof {
        assert(codes_of(diagnostics@) =~= start + expected + run_codes(trip.calls@, u1, now_i));
        assert(diagnostic_views(diagnostics@) =~= v0 + vexp + run_findings(*trip, u1, now_i));
        assert(vexp + run_findings(*trip, u1, now_i) =~= placement_findings(*trip, now_i, live, matched, u0));
        assert(expected + run_codes(trip.calls@, u1, now_i) =~= placement_codes(
            *trip,
            now_i,
            live,
            matched,
            u0,
        ));
    }
    r
}

/// Place a run with exact times, shifted by an update.
fn place_exact(
    network: &RailNetwork,
    trip: &TripInstance,
    clock: GtfsTime,
    upd: Option<&TripUpdate>,
    diagnostics: &mut Vec<Diagnostic>,
) -> (r: Option<MapTrain>)
    requires
        crate::schedule::trip_in_network(*network, *trip),
    ensures
        ({
            let p = locate_spec(
                adjusted_calls(trip.calls@, deref_update(upd)),
                clock.secs as int,
            );
            &&& (r is Some <==> (p is At || p is Edge))
            &&& (r matches Some(t) ==> train_matches(
                t,
                *network,
                *trip,
                clock.secs as int,
                true,
                deref_update(upd),
                p,
            ))
        }),
        codes_of(final(diagnostics)@) == codes_of(old(diagnostics)@) + run_codes(
            trip.calls@,
            deref_update(upd),
            clock.secs as int,
        ),
        graded_snapshot(old(diagnostics)@) ==> graded_snapshot(final(diagnostics)@),
        keeps_prefix(old(diagnostics)@, final(diagnostics)@),
        diagnostic_views(final(diagnostics)@) == diagnostic_views(old(diagnostics)@) + run_findings(
            *trip,
            deref_update(upd),
            clock.secs as int,
        ),
{
    let ghost v0 = diagnostic_views(diagnostics@);
    let ghost mut vexp: Seq<(Severity, Seq<char>, Seq<char>, Option<Seq<char>>)> = Seq::empty();
    let ghost u1 = deref_update(upd);
    let ghost now_i = clock.secs as int;
    let ghost start = codes_of(diagnostics@);
    let ghost mut expected: Seq<Seq<char>> = Seq::empty();
    let (adjusted, notes) = shift_run(&trip.calls, upd);
    let ghost adj = adjusted@;
    if notes.time_without_delay {
        let ghost prev = diagnostics@;
        diagnostics.push(
            Diagnostic::info(
                "stop-update-without-delay",
                owned(
                    "a stop time update carries a predicted time but no delay, and the snapshot cannot convert a POSIX time to a service day without a time zone, so the trip-level delay applies instead",
                ),
            ).about(trip.source_trip_id.as_str()),
        );
        proof {
            lemma_snapshot_severities();
            assert(diagnostics@ == prev.push(diagnostics@.last()));
            lemma_graded_snapshot_push(prev, diagnostics@.last());
            assert(diagnostic_views(diagnostics@) =~= diagnostic_views(prev).push(
                diagnostic_view(diagnostics@.last()),
            ));
        }
        proof {
            expected = expected.push("stop-update-without-delay"@);
            vexp = vexp.push(diagnostic_view(diagnostics@.last()));
        }
    }
    if notes.skipped > 0 {
        let mut message = owned("the trip update marks ");
        push_decimal(&mut message, notes.skipped as u64);
        push_str(
            &mut message,
            " call(s) of this run skipped, so the map draws the run passing those stations rather than standing at them",
        );
        let ghost prev = diagnostics@;
        diagnostics.push(
            Diagnostic::info("train-call-skipped", message).about(trip.instance_id.as_str()),
        );
        proof {
            lemma_snapshot_severities();
            assert(diagnostics@ == prev.push(diagnostics@.last()));
            lemma_graded_snapshot_push(prev, diagnostics@.last());
            assert(diagnostic_views(diagnostics@) =~= diagnostic_views(prev).push(
                diagnostic_view(diagnostics@.last()),
            ));
        }
        proof {
            expected = expected.push("train-call-skipped"@);
            vexp = vexp.push(diagnostic_view(diagnostics@.last()));
        }
    }
    proof {
        assert(codes_of(diagnostics@) =~= start + expected);
        assert(diagnostic_views(diagnostics@) =~= v0 + vexp);
    }
    let now = clock.secs as i64;
    let located = locate(&adjusted, now);
    match located {
        Located::At(k) => {
            let call = adjusted[k].unwrap();
            let train = MapTrain {
                instance_id: owned(trip.instance_id.as_str()),
                source_trip_id: owned(trip.source_trip_id.as_str()),
                line: trip.line,
                location: TrainLocation::AtStation {
                    station: trip.calls[k].station,
                    pattern: trip.pattern,
                    index: k,
                },
                travelled_secs: 0,
                span_secs: 0,
                edge_secs: None,
                destination: destination(network, trip),
                quality: quality(true, call.realtime, computed(call.quality)),
                delay_secs: call.delay_secs,
                schedule_interpolated: computed(call.quality),
            };
            proof {
                assert(expected =~= run_codes(trip.calls@, u1, now_i));
                assert(vexp =~= run_findings(*trip, u1, now_i));
            }
            Some(train)
        },
        Located::Edge(b) => {
            let n = adjusted.len();
            assert(b + 1 < n);
            let back = adjusted[b].unwrap();
            let front = adjusted[b + 1].unwrap();
            proof {
                lemma_adjusted_bounds(trip.calls@[b as int], u1);
                lemma_adjusted_bounds(trip.calls@[b + 1], u1);
            }
            let span = front.arrival - back.departure;
            let interpolated = computed(back.quality) || computed(front.quality);
            let train = MapTrain {
                instance_id: owned(trip.instance_id.as_str()),
                source_trip_id: owned(trip.source_trip_id.as_str()),
                line: trip.line,
                location: TrainLocation::OnEdge {
                    pattern: trip.pattern,
                    index: b,
                    from: trip.calls[b].station,
                    to: trip.calls[b + 1].station,
                },
                travelled_secs: now - back.departure,
                span_secs: span,
                edge_secs: Some(#[verifier::truncate] (span as u32)),
                destination: destination(network, trip),
                quality: quality(false, back.realtime || front.realtime, interpolated),
                delay_secs: back.delay_secs,
                schedule_interpolated: interpolated,
            };
            proof {
                assert(expected =~= run_codes(trip.calls@, u1, now_i));
                assert(vexp =~= run_findings(*trip, u1, now_i));
            }
            Some(train)
        },
        Located::Off => {
            proof {
                assert(expected =~= run_codes(trip.calls@, u1, now_i));
                assert(vexp =~= run_findings(*trip, u1, now_i));
            }
            None
        },
        Located::Gap => {
            let ghost prev = diagnostics@;
            diagnostics.push(
                Diagnostic::warning(
                    "train-between-missing-calls",
                    owned(
                        "the run lies between two calls that have no time, so the snapshot cannot say which edge it is on",
                    ),
                ).about(trip.instance_id.as_str()),
            );
            proof {
                lemma_snapshot_severities();
                assert(diagnostics@ == prev.push(diagnostics@.last()));
                lemma_graded_snapshot_push(prev, diagnostics@.last());
                assert(diagnostic_views(diagnostics@) =~= diagnostic_views(prev).push(
                    diagnostic_view(diagnostics@.last()),
                ));
            }
            proof {
                expected = expected.push("train-between-missing-calls"@);
                vexp = vexp.push(diagnostic_view(diagnostics@.last()));
                assert(codes_of(diagnostics@) =~= start + expected);
        assert(diagnostic_views(diagnostics@) =~= v0 + vexp);
                assert(expected =~= run_codes(trip.calls@, u1, now_i));
                assert(vexp =~= run_findings(*trip, u1, now_i));
            }
            None
        },
        Located::Unbracketed => {
            let ghost prev = diagnostics@;
            diagnostics.push(
                Diagnostic::warning(
                    "train-not-placed",
                    owned(
                        "the adjusted times of the run do not bracket the clock, so the snapshot cannot place it",
                    ),
                ).about(trip.instance_id.as_str()),
            );
            proof {
                lemma_snapshot_severities();
                assert(diagnostics@ == prev.push(diagnostics@.last()));
                lemma_graded_snapshot_push(prev, diagnostics@.last());
                assert(diagnostic_views(diagnostics@) =~= diagnostic_views(prev).push(
                    diagnostic_view(diagnostics@.last()),
                ));
            }
            proof {
                expected = expected.push("train-not-placed"@);
                vexp = vexp.push(diagnostic_view(diagnostics@.last()));
                assert(codes_of(diagnostics@) =~= start + expected);
        assert(diagnostic_views(diagnostics@) =~= v0 + vexp);
                assert(expected =~= run_codes(trip.calls@, u1, now_i));
                assert(vexp =~= run_findings(*trip, u1, now_i));
            }
            None
        },
    }
}

// ----------------------------------------------------------------------
// The snapshot
// ----------------------------------------------------------------------

/// One line of the network.
#[derive(Clone, Debug)]
pub struct MapLine {
    /// The index of the line.
    pub line: usize,
    /// The GTFS route identifier.
    pub route_id: String,
    /// The display name, for example `NSL`.
    pub name: String,
    /// The long name.
    pub long_name: Option<String>,
    /// The line colour as the feed supplies it; a renderer filters it.
    pub color: Option<String>,
    /// The live state of the line.
    pub state: crate::status::LineState,
}

/// One station of the network.
#[derive(Clone, Debug)]
pub struct MapStation {
    /// The index of the station.
    pub station: usize,
    /// The public name.
    pub name: String,
    /// The public station codes.
    pub codes: Vec<String>,
}

/// One edge of the network: the section between two neighbouring
/// stations of one stop pattern.
#[derive(Copy, Clone, Debug)]
pub struct MapEdge {
    /// The stop pattern that the edge belongs to.
    pub pattern: usize,
    /// The index of the edge in the pattern.
    pub index: usize,
    /// The line of the pattern.
    pub line: usize,
    /// The station behind.
    pub from: usize,
    /// The station ahead.
    pub to: usize,
}

/// One headway block that the snapshot did not expand into trains.
#[derive(Clone, Debug)]
pub struct MapBand {
    /// The stable identifier of the block.
    pub band_id: String,
    /// The GTFS `trip_id` of the template trip.
    pub source_trip_id: String,
    /// The line of the block.
    pub line: usize,
    /// The stop pattern of the block.
    pub pattern: usize,
    /// The destination text, when the feed supplies one.
    pub destination: Option<String>,
    /// The first departure of the block.
    pub start: GtfsTime,
    /// The end of the block.
    pub end: GtfsTime,
    /// The time between two runs, in seconds.
    pub headway_secs: u32,
    /// The same headway in whole minutes, for a label.
    pub headway_minutes: u32,
}

/// The whole network at one instant.
#[derive(Clone, Debug)]
pub struct NetworkSnapshot {
    /// Every line, in identifier order.
    pub lines: Vec<MapLine>,
    /// Every station, in identifier order.
    pub stations: Vec<MapStation>,
    /// Every edge, in pattern order and then pattern index order.
    pub edges: Vec<MapEdge>,
    /// The placed runs.
    pub trains: Vec<MapTrain>,
    /// The headway blocks that carry no individual runs.
    pub bands: Vec<MapBand>,
    /// The freshness of the realtime layer.
    pub freshness: Freshness,
    /// The public alert messages.
    pub notices: Vec<String>,
    /// Everything the snapshot could not represent.
    pub diagnostics: Vec<Diagnostic>,
}

} // verus!
