//! A bounded schedule for continuous map playback in the browser.
//!
//! The export covers the runs of four service days around the current
//! Singapore date, from an hour before now to a day and a half after
//! it, so a page can animate the network without asking again. A run
//! whose times are incomplete would animate wrongly, so the export
//! refuses the whole schedule rather than draw one.

use vstd::prelude::*;
use vstd::arithmetic::div_mod::lemma_fundamental_div_mod_converse;

use crate::clock::{sgt_from_unix, sgt_in_range};
use crate::common::copy_option;
use crate::schedule::{
    arrival_or_departure_of, departure_or_arrival_of, first_time_of, has_interpolated_times_of,
    has_missing_times_of, last_time_of, template_span, FrequencyBand, RailNetwork, ScheduledCall,
    TripInstance, TripQueryResult,
};
use crate::textbuf::{owned, push_char, push_str, str_eq};
use crate::time::{date_text, ServiceDate};

verus! {

/// How far back the export reaches, in seconds.
pub const LOOKBEHIND_SECS: i64 = 3600;

/// How far ahead the export reaches, in seconds.
pub const LOOKAHEAD_SECS: i64 = 129600;

/// One call of an exported run.
#[derive(Clone, Debug)]
pub struct PlaybackCall {
    /// The GTFS `stop_id` of the platform.
    pub platform_stop_id: String,
    /// The arrival, or the departure where there is none, in seconds
    /// of the service day.
    pub arrival: u32,
    /// The departure, or the arrival where there is none.
    pub departure: u32,
}

/// One exported run.
#[derive(Clone, Debug)]
pub struct PlaybackRun {
    /// The stable instance identifier.
    pub id: String,
    /// The GTFS `trip_id`.
    pub trip: String,
    /// The GTFS `route_id` of the line.
    pub route: String,
    /// The service date.
    pub day: ServiceDate,
    /// The POSIX time of the service day's midnight.
    pub base: i64,
    /// The trip headsign.
    pub headsign: Option<String>,
    /// Whether a headway block generated the run.
    pub frequency: bool,
    /// Whether a time of the run was computed.
    pub computed: bool,
    /// The calls, in travel order.
    pub calls: Vec<PlaybackCall>,
}

/// One exported headway block.
#[derive(Clone, Debug)]
pub struct PlaybackBand {
    /// The GTFS `route_id` of the line.
    pub route: String,
    /// The POSIX time of the first departure.
    pub start: i64,
    /// The POSIX time that the block's runs cover up to.
    pub end: i64,
    /// The time between two runs, in seconds.
    pub headway: u32,
}

/// The whole export.
#[derive(Clone, Debug)]
pub struct PlaybackSchedule {
    /// The POSIX time the export was built at.
    pub generated: i64,
    /// The first POSIX time the export covers.
    pub valid_from: i64,
    /// The last POSIX time the export covers.
    pub valid_until: i64,
    /// The runs, day by day in query order.
    pub runs: Vec<PlaybackRun>,
    /// The headway blocks, day by day in query order.
    pub bands: Vec<PlaybackBand>,
}

// ----------------------------------------------------------------------
// The model
// ----------------------------------------------------------------------

/// The Singapore date of a POSIX time, in days from 1970-01-01.
pub open spec fn sgt_day(now: int) -> int {
    (now + 28800) / 86400
}

/// The Singapore clock of a POSIX time, in seconds after midnight.
pub open spec fn sgt_clock(now: int) -> int {
    (now + 28800) % 86400
}

/// The POSIX time of the midnight that starts the `k`-th exported day;
/// the first is the day before today.
pub open spec fn day_base(now: int, k: int) -> int {
    now - sgt_clock(now) + (k - 1) * 86400
}

/// Whether a run stays out of the export because one of its ends has
/// no time, or because a call inside the window has none.
pub open spec fn run_missing(t: TripInstance, base: int, from: int, until: int) -> bool {
    match (first_time_of(t), last_time_of(t)) {
        (Some(f), Some(l)) => !(base + l.secs < from || base + f.secs > until)
            && has_missing_times_of(t),
        _ => true,
    }
}

/// Whether a run is exported: both ends have a time, it overlaps the
/// window, and every call has a time.
pub open spec fn run_kept(t: TripInstance, base: int, from: int, until: int) -> bool {
    match (first_time_of(t), last_time_of(t)) {
        (Some(f), Some(l)) => !(base + l.secs < from || base + f.secs > until)
            && !has_missing_times_of(t),
        _ => false,
    }
}

/// The exported runs among the first `n`, by index.
pub open spec fn kept_upto(ts: Seq<TripInstance>, base: int, from: int, until: int, n: int) -> Seq<
    int,
>
    decreases n,
{
    if n <= 0 {
        Seq::empty()
    } else if run_kept(ts[n - 1], base, from, until) {
        kept_upto(ts, base, from, until, n - 1).push(n - 1)
    } else {
        kept_upto(ts, base, from, until, n - 1)
    }
}

/// How many of the first `n` runs lack a time the export needs.
pub open spec fn missing_upto(ts: Seq<TripInstance>, base: int, from: int, until: int, n: int) -> nat
    decreases n,
{
    if n <= 0 {
        0
    } else {
        missing_upto(ts, base, from, until, n - 1) + if run_missing(ts[n - 1], base, from, until) {
            1nat
        } else {
            0nat
        }
    }
}

/// Whether a headway block overlaps the window.
pub open spec fn band_kept(b: FrequencyBand, base: int, from: int, until: int) -> bool {
    base + b.end.secs + template_span(b.template@) >= from && base + b.start.secs <= until
}

/// The exported blocks among the first `n`, by index.
pub open spec fn bands_upto(bs: Seq<FrequencyBand>, base: int, from: int, until: int, n: int) -> Seq<
    int,
>
    decreases n,
{
    if n <= 0 {
        Seq::empty()
    } else if band_kept(bs[n - 1], base, from, until) {
        bands_upto(bs, base, from, until, n - 1).push(n - 1)
    } else {
        bands_upto(bs, base, from, until, n - 1)
    }
}

/// The exported runs of the first `k` days, as a day and an index.
pub open spec fn all_runs(days: Seq<TripQueryResult>, now: int, k: int) -> Seq<(int, int)>
    decreases k,
{
    if k <= 0 {
        Seq::empty()
    } else {
        let ts = days[k - 1].trips@;
        all_runs(days, now, k - 1) + kept_upto(
            ts,
            day_base(now, k - 1),
            now - 3600,
            now + 129600,
            ts.len() as int,
        ).map_values(|i: int| (k - 1, i))
    }
}

/// How many runs of the first `k` days lack a time the export needs.
pub open spec fn all_missing(days: Seq<TripQueryResult>, now: int, k: int) -> nat
    decreases k,
{
    if k <= 0 {
        0
    } else {
        let ts = days[k - 1].trips@;
        all_missing(days, now, k - 1) + missing_upto(
            ts,
            day_base(now, k - 1),
            now - 3600,
            now + 129600,
            ts.len() as int,
        )
    }
}

/// The exported blocks of the first `k` days, as a day and an index.
pub open spec fn all_bands(days: Seq<TripQueryResult>, now: int, k: int) -> Seq<(int, int)>
    decreases k,
{
    if k <= 0 {
        Seq::empty()
    } else {
        let bs = days[k - 1].frequency_bands@;
        all_bands(days, now, k - 1) + bands_upto(
            bs,
            day_base(now, k - 1),
            now - 3600,
            now + 129600,
            bs.len() as int,
        ).map_values(|i: int| (k - 1, i))
    }
}

/// Whether an exported call shows a scheduled one.
pub open spec fn call_shows(c: ScheduledCall, p: PlaybackCall) -> bool {
    &&& p.platform_stop_id@ == c.platform_stop_id@
    &&& arrival_or_departure_of(c) matches Some(a) && p.arrival == a.secs
    &&& departure_or_arrival_of(c) matches Some(d) && p.departure == d.secs
}

/// Whether an exported run shows a run of the day `date`.
pub open spec fn run_shows(
    network: RailNetwork,
    t: TripInstance,
    date: int,
    base: int,
    r: PlaybackRun,
) -> bool {
    &&& r.id@ == t.instance_id@
    &&& r.trip@ == t.source_trip_id@
    &&& r.route@ == network.lines@[t.line as int].route_id@
    &&& r.day.day_count() == date
    &&& r.base == base
    &&& (r.headsign is None <==> t.headsign is None)
    &&& (r.headsign matches Some(h) ==> (t.headsign matches Some(g) && h@ == g@))
    &&& r.frequency == (t.instance_id@ != date_text(date) + seq![':'] + t.source_trip_id@)
    &&& r.computed == has_interpolated_times_of(t)
    &&& r.calls@.len() == t.calls@.len()
    &&& forall|c: int| 0 <= c < t.calls@.len() ==> call_shows(t.calls@[c], #[trigger] r.calls@[c])
}

/// Whether an exported block shows a headway block of a day.
pub open spec fn band_shows(network: RailNetwork, b: FrequencyBand, base: int, p: PlaybackBand) -> bool {
    &&& p.route@ == network.lines@[b.line as int].route_id@
    &&& p.start == base + b.start.secs
    &&& p.end == base + b.end.secs + template_span(b.template@)
    &&& p.headway == b.headway_secs
}

/// Whether every run and block of the days belongs to a line of the
/// network.
pub open spec fn days_in_network(network: RailNetwork, days: Seq<TripQueryResult>) -> bool {
    &&& forall|k: int, i: int|
        0 <= k < days.len() && 0 <= i < days[k].trips@.len() ==> (#[trigger] days[k].trips@[i]).line
            < network.lines@.len()
    &&& forall|k: int, i: int|
        0 <= k < days.len() && 0 <= i < days[k].frequency_bands@.len()
            ==> (#[trigger] days[k].frequency_bands@[i]).line < network.lines@.len()
}

// ----------------------------------------------------------------------
// The export
// ----------------------------------------------------------------------

fn export_run(network: &RailNetwork, t: &TripInstance, date: ServiceDate, base: i64) -> (r:
    PlaybackRun)
    requires
        t.line < network.lines@.len(),
        !has_missing_times_of(*t),
    ensures
        run_shows(*network, *t, date.day_count(), base as int, r),
{
    let mut calls: Vec<PlaybackCall> = Vec::new();
    let mut c: usize = 0;
    while c < t.calls.len()
        invariant
            c <= t.calls@.len(),
            calls@.len() == c,
            !has_missing_times_of(*t),
            forall|j: int| 0 <= j < c ==> call_shows(t.calls@[j], #[trigger] calls@[j]),
        decreases t.calls@.len() - c,
    {
        let call = &t.calls[c];
        proof {
            if arrival_or_departure_of(t.calls@[c as int]) is None {
                assert(has_missing_times_of(*t));
            }
        }
        let arrival = match call.arrival_or_departure() {
            Some(a) => a.secs,
            None => 0,
        };
        let departure = match call.departure_or_arrival() {
            Some(d) => d.secs,
            None => 0,
        };
        calls.push(
            PlaybackCall { platform_stop_id: owned(call.platform_stop_id.as_str()), arrival, departure },
        );
        c = c + 1;
    }
    let mut plain = date.to_text();
    push_char(&mut plain, ':');
    push_str(&mut plain, t.source_trip_id.as_str());
    proof {
        assert(plain@ =~= date_text(date.day_count()) + seq![':'] + t.source_trip_id@);
    }
    let frequency = !str_eq(t.instance_id.as_str(), plain.as_str());
    let r = PlaybackRun {
        id: owned(t.instance_id.as_str()),
        trip: owned(t.source_trip_id.as_str()),
        route: owned(network.lines[t.line].route_id.as_str()),
        day: date,
        base,
        headsign: copy_option(&t.headsign),
        frequency,
        computed: t.has_interpolated_times(),
        calls,
    };
    assert(r.calls@.len() == t.calls@.len());
    assert(r.frequency == (t.instance_id@ != date_text(date.day_count()) + seq![':']
        + t.source_trip_id@));
    r
}

fn export_day_runs(
    network: &RailNetwork,
    trips: &Vec<TripInstance>,
    date: ServiceDate,
    base: i64,
    from: i64,
    until: i64,
    runs: &mut Vec<PlaybackRun>,
    missing: &mut u128,
)
    requires
        forall|i: int| 0 <= i < trips@.len() ==> (#[trigger] trips@[i]).line < network.lines@.len(),
        -0x4000_0000_0000_0000 <= base <= 0x4000_0000_0000_0000,
        *old(missing) <= 0x3_0000_0000_0000_0000u128,
    ensures
        final(runs)@.len() == old(runs)@.len() + kept_upto(
            trips@,
            base as int,
            from as int,
            until as int,
            trips@.len() as int,
        ).len(),
        forall|j: int| 0 <= j < old(runs)@.len() ==> final(runs)@[j] == old(runs)@[j],
        forall|j: int|
            0 <= j < kept_upto(trips@, base as int, from as int, until as int, trips@.len() as int).len()
                ==> run_shows(
                *network,
                trips@[kept_upto(trips@, base as int, from as int, until as int, trips@.len() as int)[j]],
                date.day_count(),
                base as int,
                #[trigger] final(runs)@[old(runs)@.len() + j],
            ),
        *final(missing) == *old(missing) + missing_upto(
            trips@,
            base as int,
            from as int,
            until as int,
            trips@.len() as int,
        ),
        missing_upto(trips@, base as int, from as int, until as int, trips@.len() as int)
            <= trips@.len(),
{
    let ghost start = runs@.len();
    let ghost old_runs = runs@;
    let ghost m0 = *missing as int;
    let mut i: usize = 0;
    while i < trips.len()
        invariant
            i <= trips@.len(),
            forall|k: int| 0 <= k < trips@.len() ==> (#[trigger] trips@[k]).line < network.lines@.len(),
            -0x4000_0000_0000_0000 <= base <= 0x4000_0000_0000_0000,
            m0 <= 0x3_0000_0000_0000_0000u128,
            runs@.len() == start + kept_upto(trips@, base as int, from as int, until as int, i as int).len(),
            forall|j: int| 0 <= j < start ==> runs@[j] == old_runs[j],
            forall|j: int|
                0 <= j < kept_upto(trips@, base as int, from as int, until as int, i as int).len()
                    ==> run_shows(
                    *network,
                    trips@[kept_upto(trips@, base as int, from as int, until as int, i as int)[j]],
                    date.day_count(),
                    base as int,
                    #[trigger] runs@[start + j],
                ),
            *missing == m0 + missing_upto(trips@, base as int, from as int, until as int, i as int),
            missing_upto(trips@, base as int, from as int, until as int, i as int) <= i,
        decreases trips@.len() - i,
    {
        let t = &trips[i];
        let ghost kept_before = kept_upto(trips@, base as int, from as int, until as int, i as int);
        match (t.first_time(), t.last_time()) {
            (Some(f), Some(l)) => {
                let outside = base + (l.secs as i64) < from || base + (f.secs as i64) > until;
                if !outside {
                    if t.has_missing_times() {
                        *missing = *missing + 1;
                    } else {
                        let r = export_run(network, t, date, base);
                        runs.push(r);
                        proof {
                            assert(kept_upto(trips@, base as int, from as int, until as int, i + 1)
                                == kept_before.push(i as int));
                        }
                    }
                }
            },
            _ => {
                *missing = *missing + 1;
            },
        }
        i = i + 1;
    }
}

fn export_day_bands(
    network: &RailNetwork,
    bands: &Vec<FrequencyBand>,
    base: i64,
    from: i64,
    until: i64,
    out: &mut Vec<PlaybackBand>,
)
    requires
        forall|i: int| 0 <= i < bands@.len() ==> (#[trigger] bands@[i]).line < network.lines@.len(),
        -0x4000_0000_0000_0000 <= base <= 0x4000_0000_0000_0000,
    ensures
        final(out)@.len() == old(out)@.len() + bands_upto(
            bands@,
            base as int,
            from as int,
            until as int,
            bands@.len() as int,
        ).len(),
        forall|j: int| 0 <= j < old(out)@.len() ==> final(out)@[j] == old(out)@[j],
        forall|j: int|
            0 <= j < bands_upto(bands@, base as int, from as int, until as int, bands@.len() as int).len()
                ==> band_shows(
                *network,
                bands@[bands_upto(bands@, base as int, from as int, until as int, bands@.len() as int)[j]],
                base as int,
                #[trigger] final(out)@[old(out)@.len() + j],
            ),
{
    let ghost start = out@.len();
    let ghost old_out = out@;
    let mut i: usize = 0;
    while i < bands.len()
        invariant
            i <= bands@.len(),
            forall|k: int| 0 <= k < bands@.len() ==> (#[trigger] bands@[k]).line < network.lines@.len(),
            -0x4000_0000_0000_0000 <= base <= 0x4000_0000_0000_0000,
            out@.len() == start + bands_upto(bands@, base as int, from as int, until as int, i as int).len(),
            forall|j: int| 0 <= j < start ==> out@[j] == old_out[j],
            forall|j: int|
                0 <= j < bands_upto(bands@, base as int, from as int, until as int, i as int).len()
                    ==> band_shows(
                    *network,
                    bands@[bands_upto(bands@, base as int, from as int, until as int, i as int)[j]],
                    base as int,
                    #[trigger] out@[start + j],
                ),
        decreases bands@.len() - i,
    {
        let b = &bands[i];
        let start_at = base + (b.start.secs as i64);
        let span_end = b.span_end_seconds();
        assert(span_end <= 0x1_0000_0000u64 * 2);
        let end_at = base + (span_end as i64);
        if end_at >= from && start_at <= until {
            let ghost before = bands_upto(bands@, base as int, from as int, until as int, i as int);
            out.push(
                PlaybackBand {
                    route: owned(network.lines[b.line].route_id.as_str()),
                    start: start_at,
                    end: end_at,
                    headway: b.headway_secs,
                },
            );
            proof {
                assert(bands_upto(bands@, base as int, from as int, until as int, i + 1) == before.push(
                    i as int,
                ));
            }
        }
        i = i + 1;
    }
}


/// Export the runs and headway blocks of the four service days around
/// now, for map playback.
///
/// `now` is a POSIX time; `days[k]` is what the trip query returned
/// for the service date `k - 1` days after the Singapore date of `now`,
/// over its whole 48-hour service day. A run is exported when both of
/// its ends have a time, it overlaps the window from an hour before
/// now to a day and a half after it, and every call has a time; a
/// headway block when the time its runs cover overlaps the window.
/// Where a run lacks a time the export needs, nothing is exported and
/// the number of such runs comes back instead.
pub fn schedule(network: &RailNetwork, now: i64, days: &Vec<TripQueryResult>) -> (r: Result<
    PlaybackSchedule,
    u128,
>)
    requires
        days@.len() == 4,
        sgt_in_range(now - 86400),
        sgt_in_range(now + 2 * 86400),
        days_in_network(*network, days@),
    ensures
        match r {
            Ok(s) => {
                &&& all_missing(days@, now as int, 4) == 0
                &&& s.generated == now
                &&& s.valid_from == now - 3600
                &&& s.valid_until == now + 129600
                &&& s.runs@.len() == all_runs(days@, now as int, 4).len()
                &&& forall|j: int|
                    0 <= j < s.runs@.len() ==> run_shows(
                        *network,
                        days@[all_runs(days@, now as int, 4)[j].0].trips@[all_runs(
                            days@,
                            now as int,
                            4,
                        )[j].1],
                        sgt_day(now as int) + all_runs(days@, now as int, 4)[j].0 - 1,
                        day_base(now as int, all_runs(days@, now as int, 4)[j].0),
                        #[trigger] s.runs@[j],
                    )
                &&& s.bands@.len() == all_bands(days@, now as int, 4).len()
                &&& forall|j: int|
                    0 <= j < s.bands@.len() ==> band_shows(
                        *network,
                        days@[all_bands(days@, now as int, 4)[j].0].frequency_bands@[all_bands(
                            days@,
                            now as int,
                            4,
                        )[j].1],
                        day_base(now as int, all_bands(days@, now as int, 4)[j].0),
                        #[trigger] s.bands@[j],
                    )
            },
            Err(m) => m == all_missing(days@, now as int, 4) && m > 0,
        },
{
    let (today, clock) = sgt_from_unix(now);
    proof {
        lemma_fundamental_div_mod_converse(
            now + 28800,
            86400,
            today.day_count(),
            clock.secs as int,
        );
    }
    let ghost t0 = today.day_count();
    let midnight = now - (clock.secs as i64);
    let valid_from = now - LOOKBEHIND_SECS;
    let valid_until = now + LOOKAHEAD_SECS;
    let mut runs: Vec<PlaybackRun> = Vec::new();
    let mut bands: Vec<PlaybackBand> = Vec::new();
    let mut missing: u128 = 0;
    let mut k: usize = 0;
    while k < 4
        invariant
            k <= 4,
            days@.len() == 4,
            days_in_network(*network, days@),
            t0 == sgt_day(now as int),
            t0 == today.day_count(),
            crate::time::MIN_DAYS < t0 < crate::time::MAX_DAYS - 1,
            midnight == now - sgt_clock(now as int),
            -0x1000_0000_0000_0000 <= midnight <= 0x1000_0000_0000_0000,
            valid_from == now - 3600,
            valid_until == now + 129600,
            missing == all_missing(days@, now as int, k as int),
            missing <= k * 0x1_0000_0000_0000_0000u128,
            runs@.len() == all_runs(days@, now as int, k as int).len(),
            forall|j: int|
                0 <= j < runs@.len() ==> run_shows(
                    *network,
                    days@[all_runs(days@, now as int, k as int)[j].0].trips@[all_runs(
                        days@,
                        now as int,
                        k as int,
                    )[j].1],
                    t0 + all_runs(days@, now as int, k as int)[j].0 - 1,
                    day_base(now as int, all_runs(days@, now as int, k as int)[j].0),
                    #[trigger] runs@[j],
                ),
            bands@.len() == all_bands(days@, now as int, k as int).len(),
            forall|j: int|
                0 <= j < bands@.len() ==> band_shows(
                    *network,
                    days@[all_bands(days@, now as int, k as int)[j].0].frequency_bands@[all_bands(
                        days@,
                        now as int,
                        k as int,
                    )[j].1],
                    day_base(now as int, all_bands(days@, now as int, k as int)[j].0),
                    #[trigger] bands@[j],
                ),
        decreases 4 - k,
    {
        let offset: i64 = k as i64 - 1;
        let date = today.plus_days(offset);
        let base = midnight + offset * 86400;
        let day = &days[k];
        let n_trips = day.trips.len();
        assert(n_trips < 0x1_0000_0000_0000_0000u128);
        let ghost ts = day.trips@;
        let ghost bs = day.frequency_bands@;
        let ghost runs_before = runs@;
        let ghost bands_before = bands@;
        let ghost ar = all_runs(days@, now as int, k as int);
        let ghost ab = all_bands(days@, now as int, k as int);
        assert(base == day_base(now as int, k as int));
        assert forall|i: int| 0 <= i < ts.len() implies (#[trigger] ts[i]).line < network.lines@.len() by {
            assert(days@[k as int].trips@[i] == ts[i]);
        }
        assert forall|i: int| 0 <= i < bs.len() implies (#[trigger] bs[i]).line < network.lines@.len() by {
            assert(days@[k as int].frequency_bands@[i] == bs[i]);
        }
        export_day_runs(network, &day.trips, date, base, valid_from, valid_until, &mut runs, &mut missing);
        export_day_bands(network, &day.frequency_bands, base, valid_from, valid_until, &mut bands);
        proof {
            let kr = kept_upto(ts, base as int, valid_from as int, valid_until as int, ts.len() as int);
            let kb = bands_upto(bs, base as int, valid_from as int, valid_until as int, bs.len() as int);
            let ar2 = all_runs(days@, now as int, k + 1);
            let ab2 = all_bands(days@, now as int, k + 1);
            assert(ar2 == ar + kr.map_values(|i: int| (k as int, i)));
            assert(ab2 == ab + kb.map_values(|i: int| (k as int, i)));
            assert forall|j: int| 0 <= j < runs@.len() implies run_shows(
                *network,
                days@[ar2[j].0].trips@[ar2[j].1],
                t0 + ar2[j].0 - 1,
                day_base(now as int, ar2[j].0),
                #[trigger] runs@[j],
            ) by {
                if j < runs_before.len() {
                    assert(ar2[j] == ar[j]);
                    assert(runs@[j] == runs_before[j]);
                } else {
                    let jj = j - runs_before.len();
                    assert(ar2[j] == (k as int, kr[jj]));
                    assert(runs@[runs_before.len() + jj] == runs@[j]);
                }
            }
            assert forall|j: int| 0 <= j < bands@.len() implies band_shows(
                *network,
                days@[ab2[j].0].frequency_bands@[ab2[j].1],
                day_base(now as int, ab2[j].0),
                #[trigger] bands@[j],
            ) by {
                if j < bands_before.len() {
                    assert(ab2[j] == ab[j]);
                    assert(bands@[j] == bands_before[j]);
                } else {
                    let jj = j - bands_before.len();
                    assert(ab2[j] == (k as int, kb[jj]));
                    assert(bands@[bands_before.len() + jj] == bands@[j]);
                }
            }
        }
        k = k + 1;
    }
    if missing > 0 {
        Err(missing)
    } else {
        Ok(PlaybackSchedule { generated: now, valid_from, valid_until, runs, bands })
    }
}

proof fn lemma_kept_upto_holds(ts: Seq<TripInstance>, base: int, from: int, until: int, n: int, i: int)
    requires
        0 <= i < n <= ts.len(),
        run_kept(ts[i], base, from, until),
    ensures
        kept_upto(ts, base, from, until, n).contains(i),
    decreases n,
{
    if i < n - 1 {
        lemma_kept_upto_holds(ts, base, from, until, n - 1, i);
        let prev = kept_upto(ts, base, from, until, n - 1);
        let j = choose|j: int| 0 <= j < prev.len() && prev[j] == i;
        if run_kept(ts[n - 1], base, from, until) {
            assert(kept_upto(ts, base, from, until, n)[j] == i);
        }
    } else {
        let prev = kept_upto(ts, base, from, until, n - 1);
        assert(kept_upto(ts, base, from, until, n)[prev.len() as int] == i);
    }
}

proof fn lemma_all_runs_holds(days: Seq<TripQueryResult>, now: int, k: int, d: int, i: int)
    requires
        0 <= d < k <= days.len(),
        kept_upto(
            days[d].trips@,
            day_base(now, d),
            now - 3600,
            now + 129600,
            days[d].trips@.len() as int,
        ).contains(i),
    ensures
        all_runs(days, now, k).contains((d, i)),
    decreases k,
{
    let ts = days[k - 1].trips@;
    let prev = all_runs(days, now, k - 1);
    let here = kept_upto(ts, day_base(now, k - 1), now - 3600, now + 129600, ts.len() as int).map_values(
        |x: int| (k - 1, x),
    );
    if d < k - 1 {
        lemma_all_runs_holds(days, now, k - 1, d, i);
        let j = choose|j: int| 0 <= j < prev.len() && prev[j] == (d, i);
        assert((prev + here)[j] == (d, i));
    } else {
        let kept = kept_upto(ts, day_base(now, k - 1), now - 3600, now + 129600, ts.len() as int);
        let j = choose|j: int| 0 <= j < kept.len() && kept[j] == i;
        assert(here[j] == (d, i));
        assert((prev + here)[prev.len() + j] == (d, i));
    }
}

/// Every run of the four days whose every call has a time, whose last
/// time is no earlier than an hour before now, and whose first time is
/// no later than a day and a half after now, is exported: a run on the
/// network right now is in the schedule however early it started.
pub proof fn lemma_every_run_in_the_window_is_exported(
    days: Seq<TripQueryResult>,
    now: int,
    d: int,
    i: int,
)
    requires
        days.len() == 4,
        0 <= d < 4,
        0 <= i < days[d].trips@.len(),
        !has_missing_times_of(days[d].trips@[i]),
        first_time_of(days[d].trips@[i]) matches Some(f) && day_base(now, d) + f.secs <= now + 129600,
        last_time_of(days[d].trips@[i]) matches Some(l) && day_base(now, d) + l.secs >= now - 3600,
    ensures
        all_runs(days, now, 4).contains((d, i)),
{
    let ts = days[d].trips@;
    assert(run_kept(ts[i], day_base(now, d), now - 3600, now + 129600));
    lemma_kept_upto_holds(ts, day_base(now, d), now - 3600, now + 129600, ts.len() as int, i);
    lemma_all_runs_holds(days, now, 4, d, i);
}

} // verus!
