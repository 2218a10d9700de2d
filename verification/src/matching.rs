//! Matching a GTFS-Realtime trip update to one run.
//!
//! A `trip_id` names a trip in the schedule, not one run of it. The
//! same `trip_id` runs again tomorrow, and a trip that a headway block
//! expands runs several times in one day. A trip descriptor says which
//! run it means with `start_date` and `start_time`, and this module
//! reads both: an update reaches a run only where it can be shown to
//! belong to it.
//!
//! | The update names | The run | The update |
//! | --- | --- | --- |
//! | a `start_date` equal to the run's service date | any | may apply |
//! | a `start_date` on another day | any | never applies |
//! | no readable `start_date` | any | may apply |
//! | a `start_time` equal to the run's start | comes from a headway block | may apply |
//! | a `start_time` at another minute | comes from a headway block | never applies |
//! | no readable `start_time` | comes from a headway block | applies to none of the sibling runs, and says so |
//! | any `start_time` | is a fixed trip | ignored |

use vstd::prelude::*;

use crate::common::{diagnostic_view, diagnostic_views, Diagnostic, Severity};
use crate::realtime::{RailRtFeed, TripUpdate};
use crate::schedule::{arrival_or_departure_of, TripInstance};
use crate::text::language_error;
use crate::textbuf::{chars_of, owned, push_str};
use crate::time::{parse_date, parse_date_spec, parse_time, parse_time_spec, GtfsTime, ServiceDate};

verus! {

/// The identity of one run, as far as matching is concerned.
#[derive(Copy, Clone, Debug)]
pub struct RunKey<'a> {
    /// The GTFS `trip_id` that the run comes from.
    pub trip_id: &'a str,
    /// The service date that the run belongs to.
    pub service_date: ServiceDate,
    /// The start of the run, for a run that a headway block expanded;
    /// `None` for a fixed trip.
    pub run_start: Option<GtfsTime>,
}

/// The position of the last `@` of a text.
pub open spec fn last_at(s: Seq<char>) -> Option<int>
    decreases s.len(),
{
    if s.len() == 0 {
        None
    } else if s.last() == '@' {
        Some(s.len() - 1)
    } else {
        last_at(s.drop_last())
    }
}

/// Whether a text ends with another.
pub open spec fn ends_with(s: Seq<char>, t: Seq<char>) -> bool {
    t.len() <= s.len() && s.subrange(s.len() - t.len(), s.len() as int) == t
}

/// The start that identifies one run of a headway block: the time
/// after the last `@` of the instance identifier, where the part before
/// it ends with the trip identifier; the first time of the run where
/// that suffix is no time; `None` for a fixed trip.
pub open spec fn expanded_start_spec(trip: TripInstance) -> Option<GtfsTime> {
    let id = trip.instance_id@;
    match last_at(id) {
        None => None,
        Some(p) => if !ends_with(id.take(p), trip.source_trip_id@) {
            None
        } else {
            match parse_time_spec(id.skip(p + 1)) {
                Some(secs) => Some(GtfsTime { secs: secs as u32 }),
                None => if trip.calls@.len() == 0 {
                    None
                } else {
                    arrival_or_departure_of(trip.calls@[0])
                },
            }
        },
    }
}

proof fn lemma_last_at(s: Seq<char>)
    ensures
        last_at(s) matches Some(p) ==> 0 <= p < s.len() && s[p] == '@' && forall|k: int|
            p < k < s.len() ==> s[k] != '@',
        last_at(s) is None ==> forall|k: int| 0 <= k < s.len() ==> s[k] != '@',
    decreases s.len(),
{
    if s.len() > 0 && s.last() != '@' {
        lemma_last_at(s.drop_last());
        assert forall|k: int| 0 <= k < s.len() - 1 implies s[k] == s.drop_last()[k] by {}
    }
}

fn find_last_at(v: &Vec<char>) -> (r: Option<usize>)
    ensures
        r matches Some(p) ==> last_at(v@) == Some(p as int) && p < v@.len(),
        r is None ==> last_at(v@) is None,
{
    let mut i = v.len();
    while i > 0
        invariant
            i <= v@.len(),
            forall|k: int| i <= k < v@.len() ==> v@[k] != '@',
        decreases i,
    {
        if v[i - 1] == '@' {
            proof {
                lemma_last_at(v@);
                if last_at(v@) is None {
                    assert(v@[i - 1] != '@');
                } else {
                    let p = last_at(v@)->0;
                    assert(p == i - 1);
                }
            }
            return Some(i - 1);
        }
        i = i - 1;
    }
    proof {
        lemma_last_at(v@);
    }
    None
}

fn ends_with_chars(v: &Vec<char>, end: usize, t: &Vec<char>) -> (b: bool)
    requires
        end <= v@.len(),
    ensures
        b == ends_with(v@.take(end as int), t@),
{
    if t.len() > end {
        return false;
    }
    let start = end - t.len();
    let mut k: usize = 0;
    while k < t.len()
        invariant
            start + t@.len() == end,
            end <= v@.len(),
            k <= t@.len(),
            forall|j: int| 0 <= j < k ==> v@[start + j] == t@[j],
        decreases t@.len() - k,
    {
        if v[start + k] != t[k] {
            proof {
                assert(v@.take(end as int).subrange(start as int, end as int)[k as int] != t@[k as int]);
            }
            return false;
        }
        k = k + 1;
    }
    proof {
        assert(v@.take(end as int).subrange(start as int, end as int) =~= t@);
    }
    true
}

fn string_from_range(v: &Vec<char>, from: usize) -> (s: String)
    requires
        from <= v@.len(),
    ensures
        s@ == v@.skip(from as int),
{
    let mut out = String::new();
    crate::textbuf::push_range(&mut out, v, from, v.len());
    proof {
        assert(v@.subrange(from as int, v@.len() as int) =~= v@.skip(from as int));
    }
    out
}

/// Get the start time that identifies one run of a headway block.
///
/// A trip query writes the identifier of a run as `<date>:<trip_id>`
/// for a fixed trip and as `<date>:<trip_id>@<HH:MM:SS>` for a run that
/// a headway block expanded. The suffix therefore decides, and the
/// `trip_id` test keeps a `trip_id` that contains an `@` of its own
/// from reading as a suffix.
pub fn expanded_start(trip: &TripInstance) -> (r: Option<GtfsTime>)
    ensures
        r == expanded_start_spec(*trip),
{
    let id = chars_of(trip.instance_id.as_str());
    let p = match find_last_at(&id) {
        Some(p) => p,
        None => return None,
    };
    let source = chars_of(trip.source_trip_id.as_str());
    if !ends_with_chars(&id, p, &source) {
        return None;
    }
    let n = id.len();
    assert(p < n);
    let suffix = string_from_range(&id, p + 1);
    match parse_time(suffix.as_str()) {
        Some(t) => Some(t),
        None => trip.first_time(),
    }
}

impl<'a> RunKey<'a> {
    /// Name one run by its trip, its service date, and its start.
    pub fn new(trip_id: &'a str, service_date: ServiceDate, run_start: Option<GtfsTime>) -> (k:
        RunKey<'a>)
        ensures
            k.trip_id == trip_id,
            k.service_date == service_date,
            k.run_start == run_start,
    {
        RunKey { trip_id, service_date, run_start }
    }

    /// Name the run that one trip instance represents.
    pub fn for_instance(trip: &'a TripInstance) -> (k: RunKey<'a>)
        ensures
            k.trip_id@ == trip.source_trip_id@,
            k.service_date == trip.service_date,
            k.run_start == expanded_start_spec(*trip),
    {
        RunKey::new(trip.source_trip_id.as_str(), trip.service_date, expanded_start(trip))
    }
}

/// One trip update of the feed with its identifying fields read once.
#[derive(Clone, Debug)]
pub struct TripMatch {
    /// The index of the update in the feed.
    pub update: usize,
    /// The `trip_id` the update names.
    pub trip_id: String,
    /// The service date the update names, where it names a readable one.
    pub start_date: Option<ServiceDate>,
    /// The start time the update names, where it names a readable one.
    pub start_time: Option<GtfsTime>,
}

/// The trip updates of one feed, indexed for matching, in feed order.
#[derive(Clone, Debug)]
pub struct TripUpdateIndex {
    /// The indexed updates.
    pub entries: Vec<TripMatch>,
}

/// What the realtime feed says about one run.
#[derive(Copy, Clone, Debug, PartialEq, Eq)]
pub struct UpdateMatch {
    /// The index of the update that belongs to the run, where one does.
    pub update: Option<usize>,
    /// The update names the service date of the run, and the start
    /// time of the run where it comes from a headway block.
    pub targeted: bool,
    /// An update names the trip of the run and cannot be attached to
    /// one of the runs the headway block expands.
    pub ambiguous: bool,
}

/// The date an update names, read; `None` where it names none or one
/// that is no GTFS date.
pub open spec fn read_date(s: Option<String>) -> Option<int> {
    match s {
        Some(raw) => parse_date_spec(raw@),
        None => None,
    }
}

/// The start time an update names, read.
pub open spec fn read_time(s: Option<String>) -> Option<nat> {
    match s {
        Some(raw) => parse_time_spec(raw@),
        None => None,
    }
}

/// Whether an index entry reads one update of the feed.
pub open spec fn entry_reads(m: TripMatch, k: int, u: TripUpdate) -> bool {
    &&& m.update == k
    &&& u.trip_id matches Some(id) && m.trip_id@ == id@
    &&& (m.start_date matches Some(d) ==> read_date(u.start_date) == Some(d.day_count()))
    &&& (m.start_date is None ==> read_date(u.start_date) is None)
    &&& (m.start_time matches Some(t) ==> read_time(u.start_time) == Some(t.secs as nat))
    &&& (m.start_time is None ==> read_time(u.start_time) is None)
}

/// The indexes of the updates that name a trip, in feed order.
pub open spec fn named_updates(us: Seq<TripUpdate>) -> Seq<int>
    decreases us.len(),
{
    if us.len() == 0 {
        Seq::empty()
    } else if us.last().trip_id is Some {
        named_updates(us.drop_last()).push(us.len() - 1)
    } else {
        named_updates(us.drop_last())
    }
}

/// An index that reads every update of a feed that names a trip, and
/// only those, in feed order.
pub open spec fn index_of_feed(entries: Seq<TripMatch>, us: Seq<TripUpdate>) -> bool {
    &&& entries.len() == named_updates(us).len()
    &&& forall|i: int|
        0 <= i < entries.len() ==> entry_reads(
            #[trigger] entries[i],
            named_updates(us)[i],
            us[named_updates(us)[i]],
        )
}

/// The warnings that reading a feed leaves: one per start date and
/// one per start time that a named update spells unreadably.
pub open spec fn unreadable_count(us: Seq<TripUpdate>) -> nat
    decreases us.len(),
{
    if us.len() == 0 {
        0
    } else {
        let u = us.last();
        unreadable_count(us.drop_last()) + if u.trip_id is Some {
            (if u.start_date is Some && read_date(u.start_date) is None {
                1nat
            } else {
                0nat
            }) + (if u.start_time is Some && read_time(u.start_time) is None {
                1nat
            } else {
                0nat
            })
        } else {
            0nat
        }
    }
}

/// The text of the warning on a field of an update that does not read.
pub open spec fn unreadable_text(field: Seq<char>, raw: Seq<char>, what: Seq<char>) -> Seq<char> {
    "the trip update names the "@ + field + " \""@ + raw + "\", which is not a GTFS "@ + what
        + ", so the update is read as naming no "@ + field + " at all"@
}

/// The warning on the start date of an update, when it does not read.
pub open spec fn date_finding(u: TripUpdate, id: Seq<char>) -> Seq<
    (Severity, Seq<char>, Seq<char>, Option<Seq<char>>),
> {
    match u.start_date {
        Some(raw) => if parse_date_spec(raw@) is None {
            seq![
                (
                    Severity::Warning,
                    "realtime-unreadable-start-date"@,
                    unreadable_text("start date"@, raw@, "date"@),
                    Some(id),
                ),
            ]
        } else {
            Seq::empty()
        },
        None => Seq::empty(),
    }
}

/// The warning on the start time of an update, when it does not read.
pub open spec fn time_finding(u: TripUpdate, id: Seq<char>) -> Seq<
    (Severity, Seq<char>, Seq<char>, Option<Seq<char>>),
> {
    match u.start_time {
        Some(raw) => if parse_time_spec(raw@) is None {
            seq![
                (
                    Severity::Warning,
                    "realtime-unreadable-start-time"@,
                    unreadable_text("start time"@, raw@, "time"@),
                    Some(id),
                ),
            ]
        } else {
            Seq::empty()
        },
        None => Seq::empty(),
    }
}

/// The warnings that reading a feed leaves, as plain values: for each
/// named update, its start date and then its start time where they do
/// not read, about the trip the update names.
pub open spec fn unreadable_findings(us: Seq<TripUpdate>) -> Seq<
    (Severity, Seq<char>, Seq<char>, Option<Seq<char>>),
>
    decreases us.len(),
{
    if us.len() == 0 {
        Seq::empty()
    } else {
        let u = us.last();
        unreadable_findings(us.drop_last()) + match u.trip_id {
            Some(id) => date_finding(u, id@) + time_finding(u, id@),
            None => Seq::empty(),
        }
    }
}

proof fn lemma_named_updates_bounds(us: Seq<TripUpdate>)
    ensures
        forall|i: int|
            0 <= i < named_updates(us).len() ==> 0 <= #[trigger] named_updates(us)[i] < us.len()
                && us[named_updates(us)[i]].trip_id is Some,
    decreases us.len(),
{
    if us.len() > 0 {
        lemma_named_updates_bounds(us.drop_last());
    }
}

fn unreadable_message(field: &str, raw: &str, what: &str) -> (s: String)
    ensures
        s@ == "the trip update names the "@ + field@ + " \""@ + raw@ + "\", which is not a GTFS "@
            + what@ + ", so the update is read as naming no "@ + field@ + " at all"@,
{
    let mut out = owned("the trip update names the ");
    push_str(&mut out, field);
    push_str(&mut out, " \"");
    push_str(&mut out, raw);
    push_str(&mut out, "\", which is not a GTFS ");
    push_str(&mut out, what);
    push_str(&mut out, ", so the update is read as naming no ");
    push_str(&mut out, field);
    push_str(&mut out, " at all");
    proof {
        assert(out@ =~= "the trip update names the "@ + field@ + " \""@ + raw@
            + "\", which is not a GTFS "@ + what@ + ", so the update is read as naming no "@ + field@
            + " at all"@);
    }
    out
}

impl TripUpdateIndex {
    /// An index with no update.
    pub fn empty() -> (i: TripUpdateIndex)
        ensures
            i.entries@.len() == 0,
    {
        TripUpdateIndex { entries: Vec::new() }
    }

    /// Index the trip updates of one realtime feed.
    ///
    /// An update that names no trip is left out. A `start_date` or a
    /// `start_time` that does not parse is reported with a warning and
    /// then treated as absent, so an unreadable field falls back to the
    /// behaviour of a field the feed never sent.
    pub fn from_feed(feed: Option<&RailRtFeed>, diagnostics: &mut Vec<Diagnostic>) -> (i:
        TripUpdateIndex)
        ensures
            feed is None ==> i.entries@.len() == 0,
            feed matches Some(f) ==> index_of_feed(i.entries@, f.trip_updates@),
            final(diagnostics)@.len() == old(diagnostics)@.len() + match feed {
                Some(f) => unreadable_count(f.trip_updates@),
                None => 0,
            },
            forall|k: int|
                0 <= k < old(diagnostics)@.len() ==> final(diagnostics)@[k] == old(
                    diagnostics,
                )@[k],
            crate::map::graded_snapshot(old(diagnostics)@) ==> crate::map::graded_snapshot(
                final(diagnostics)@,
            ),
            diagnostic_views(final(diagnostics)@) == diagnostic_views(old(diagnostics)@) + match feed {
                Some(f) => unreadable_findings(f.trip_updates@),
                None => Seq::empty(),
            },
    {
        let mut entries: Vec<TripMatch> = Vec::new();
        let feed = match feed {
            Some(f) => f,
            None => {
                proof {
                    assert(diagnostic_views(diagnostics@) =~= diagnostic_views(diagnostics@) + Seq::<
                        (Severity, Seq<char>, Seq<char>, Option<Seq<char>>),
                    >::empty());
                }
                return TripUpdateIndex { entries };
            },
        };
        let ghost us = feed.trip_updates@;
        let ghost start = diagnostics@;
        let mut i: usize = 0;
        while i < feed.trip_updates.len()
            invariant
                i <= us.len(),
                us == feed.trip_updates@,
                index_of_feed(entries@, us.take(i as int)),
                diagnostics@.len() == start.len() + unreadable_count(us.take(i as int)),
                forall|k: int| 0 <= k < start.len() ==> diagnostics@[k] == start[k],
                crate::map::graded_snapshot(start) ==> crate::map::graded_snapshot(diagnostics@),
                diagnostic_views(diagnostics@) == diagnostic_views(start) + unreadable_findings(
                    us.take(i as int),
                ),
            decreases us.len() - i,
        {
            proof {
                assert(us.take(i + 1).drop_last() =~= us.take(i as int));
                lemma_named_updates_bounds(us.take(i as int));
            }
            let update = &feed.trip_updates[i];
            match &update.trip_id {
                None => {
                    proof {
                        assert(named_updates(us.take(i + 1)) == named_updates(us.take(i as int)));
                        assert forall|j: int| 0 <= j < entries@.len() implies entry_reads(
                            #[trigger] entries@[j],
                            named_updates(us.take(i + 1))[j],
                            us.take(i + 1)[named_updates(us.take(i + 1))[j]],
                        ) by {
                            assert(us.take(i + 1)[named_updates(us.take(i as int))[j]] == us.take(
                                i as int,
                            )[named_updates(us.take(i as int))[j]]);
                        }
                        assert(us.take(i + 1).last() == *update);
                        assert(diagnostic_views(diagnostics@) =~= diagnostic_views(start) + unreadable_findings(
                            us.take(i + 1),
                        ));
                    }
                },
                Some(trip_id) => {
                    let ghost v0 = diagnostic_views(diagnostics@);
                    let start_date = match &update.start_date {
                        Some(raw) => match parse_date(raw.as_str()) {
                            Some(d) => Some(d),
                            None => {
                                let message = unreadable_message(
                                    "start date",
                                    raw.as_str(),
                                    "date",
                                );
                                let ghost prev = diagnostics@;
                                diagnostics.push(
                                    Diagnostic::warning("realtime-unreadable-start-date", message).about(
                                    trip_id.as_str()),
                                );
                                proof {
                                    crate::map::lemma_snapshot_severities();
                                    assert(diagnostics@ == prev.push(diagnostics@.last()));
                                    crate::map::lemma_graded_snapshot_push(prev, diagnostics@.last());
                                    assert(diagnostic_views(diagnostics@) =~= diagnostic_views(prev).push(
                                        diagnostic_view(diagnostics@.last()),
                                    ));
                                }
                                None
                            },
                        },
                        None => None,
                    };
                    proof {
                        assert(diagnostic_views(diagnostics@) =~= v0 + date_finding(*update, trip_id@));
                    }
                    let ghost v1 = diagnostic_views(diagnostics@);
                    let start_time = match &update.start_time {
                        Some(raw) => match parse_time(raw.as_str()) {
                            Some(t) => Some(t),
                            None => {
                                let message = unreadable_message(
                                    "start time",
                                    raw.as_str(),
                                    "time",
                                );
                                let ghost prev = diagnostics@;
                                diagnostics.push(
                                    Diagnostic::warning("realtime-unreadable-start-time", message).about(
                                    trip_id.as_str()),
                                );
                                proof {
                                    crate::map::lemma_snapshot_severities();
                                    assert(diagnostics@ == prev.push(diagnostics@.last()));
                                    crate::map::lemma_graded_snapshot_push(prev, diagnostics@.last());
                                    assert(diagnostic_views(diagnostics@) =~= diagnostic_views(prev).push(
                                        diagnostic_view(diagnostics@.last()),
                                    ));
                                }
                                None
                            },
                        },
                        None => None,
                    };
                    proof {
                        assert(diagnostic_views(diagnostics@) =~= v1 + time_finding(*update, trip_id@));
                        assert(us.take(i + 1).last() == *update);
                        assert(diagnostic_views(diagnostics@) =~= diagnostic_views(start) + unreadable_findings(
                            us.take(i + 1),
                        ));
                    }
                    entries.push(
                        TripMatch { update: i, trip_id: owned(trip_id.as_str()), start_date, start_time },
                    );
                    proof {
                        let n = named_updates(us.take(i + 1));
                        assert(n == named_updates(us.take(i as int)).push(i as int));
                        assert forall|j: int| 0 <= j < entries@.len() implies entry_reads(
                            #[trigger] entries@[j],
                            n[j],
                            us.take(i + 1)[n[j]],
                        ) by {
                            if j < entries@.len() - 1 {
                                assert(us.take(i + 1)[n[j]] == us.take(i as int)[named_updates(
                                    us.take(i as int),
                                )[j]]);
                            }
                        }
                    }
                },
            }
            i = i + 1;
        }
        proof {
            assert(us.take(us.len() as int) =~= us);
        }
        TripUpdateIndex { entries }
    }
}

/// The outcome of the decision table over the entries from `i` on:
/// the matching update, whether it is targeted, and whether an entry
/// was passed over as ambiguous.
pub open spec fn scan_from(
    entries: Seq<TripMatch>,
    trip_id: Seq<char>,
    date: int,
    run_start: Option<GtfsTime>,
    i: int,
    ambiguous: bool,
) -> UpdateMatch
    decreases entries.len() - i,
{
    if i < 0 || i >= entries.len() {
        UpdateMatch { update: None, targeted: false, ambiguous }
    } else {
        let c = entries[i];
        if c.trip_id@ != trip_id {
            scan_from(entries, trip_id, date, run_start, i + 1, ambiguous)
        } else if c.start_date matches Some(d) && d.day_count() != date {
            scan_from(entries, trip_id, date, run_start, i + 1, ambiguous)
        } else {
            match run_start {
                Some(start) => match c.start_time {
                    Some(t) => if t.secs == start.secs {
                        UpdateMatch {
                            update: Some(c.update),
                            targeted: c.start_date is Some,
                            ambiguous: false,
                        }
                    } else {
                        scan_from(entries, trip_id, date, run_start, i + 1, ambiguous)
                    },
                    None => scan_from(entries, trip_id, date, run_start, i + 1, true),
                },
                None => UpdateMatch {
                    update: Some(c.update),
                    targeted: c.start_date is Some,
                    ambiguous: false,
                },
            }
        }
    }
}

/// The decision table applied to one run.
pub open spec fn lookup_spec(entries: Seq<TripMatch>, run: RunKey) -> UpdateMatch {
    scan_from(entries, run.trip_id@, run.service_date.day_count(), run.run_start, 0, false)
}

impl TripUpdateIndex {
    /// Find the update that belongs to one run, by the decision table
    /// of this module. Where several updates fit one run, the first of
    /// them wins.
    pub fn lookup(&self, run: RunKey) -> (m: UpdateMatch)
        ensures
            m == lookup_spec(self.entries@, run),
    {
        let date = run.service_date.days();
        let mut ambiguous = false;
        let mut i: usize = 0;
        while i < self.entries.len()
            invariant
                i <= self.entries@.len(),
                date == run.service_date.day_count(),
                scan_from(self.entries@, run.trip_id@, date as int, run.run_start, i as int, ambiguous)
                    == lookup_spec(self.entries@, run),
            decreases self.entries@.len() - i,
        {
            let c = &self.entries[i];
            if !crate::textbuf::str_eq(c.trip_id.as_str(), run.trip_id) {
                i = i + 1;
                continue;
            }
            let other_day = match c.start_date {
                Some(d) => d.days() != date,
                None => false,
            };
            if other_day {
                i = i + 1;
                continue;
            }
            match run.run_start {
                Some(start) => match c.start_time {
                    Some(t) => {
                        if t.secs != start.secs {
                            i = i + 1;
                            continue;
                        }
                    },
                    None => {
                        ambiguous = true;
                        i = i + 1;
                        continue;
                    },
                },
                None => {},
            }
            return UpdateMatch {
                update: Some(c.update),
                targeted: c.start_date.is_some(),
                ambiguous: false,
            };
        }
        UpdateMatch { update: None, targeted: false, ambiguous }
    }
}

/// An update that the table attaches to a run names the run's trip,
/// names no other service day, and — for a run of a headway block —
/// names the run's start. A targeted match names the service date, and
/// an ambiguous run gets no update at all; a fixed trip is never
/// ambiguous.
pub proof fn lemma_lookup_sound(entries: Seq<TripMatch>, run: RunKey)
    ensures
        lookup_spec(entries, run).update matches Some(k) ==> exists|i: int|
            0 <= i < entries.len() && (#[trigger] entries[i]).update == k && entries[i].trip_id@
                == run.trip_id@ && (entries[i].start_date matches Some(d) ==> d.day_count()
                == run.service_date.day_count()) && (run.run_start matches Some(s) ==> (
            entries[i].start_time matches Some(t) && t.secs == s.secs)) && (lookup_spec(
                entries,
                run,
            ).targeted == entries[i].start_date is Some),
        lookup_spec(entries, run).ambiguous ==> lookup_spec(entries, run).update is None,
        lookup_spec(entries, run).update is None ==> !lookup_spec(entries, run).targeted,
        run.run_start is None ==> !lookup_spec(entries, run).ambiguous,
{
    lemma_scan_sound(entries, run.trip_id@, run.service_date.day_count(), run.run_start, 0, false);
}

proof fn lemma_scan_sound(
    entries: Seq<TripMatch>,
    trip_id: Seq<char>,
    date: int,
    run_start: Option<GtfsTime>,
    i: int,
    ambiguous: bool,
)
    requires
        0 <= i,
    ensures
        ({
            let m = scan_from(entries, trip_id, date, run_start, i, ambiguous);
            &&& m.update matches Some(k) ==> exists|j: int|
                i <= j < entries.len() && (#[trigger] entries[j]).update == k && entries[j].trip_id@
                    == trip_id && (entries[j].start_date matches Some(d) ==> d.day_count() == date)
                    && (run_start matches Some(s) ==> (entries[j].start_time matches Some(t)
                    && t.secs == s.secs)) && (m.targeted == entries[j].start_date is Some)
            &&& m.ambiguous ==> m.update is None
            &&& m.update is None ==> !m.targeted
            &&& (run_start is None && !ambiguous) ==> !m.ambiguous
        }),
    decreases entries.len() - i,
{
    if i < entries.len() {
        let c = entries[i];
        if c.trip_id@ != trip_id || (c.start_date matches Some(d) && d.day_count() != date) {
            lemma_scan_sound(entries, trip_id, date, run_start, i + 1, ambiguous);
        } else {
            match run_start {
                Some(start) => match c.start_time {
                    Some(t) => if t.secs != start.secs {
                        lemma_scan_sound(entries, trip_id, date, run_start, i + 1, ambiguous);
                    },
                    None => {
                        lemma_scan_sound(entries, trip_id, date, run_start, i + 1, true);
                    },
                },
                None => {},
            }
        }
    }
}

/// Every entry of an index that reads a feed names one of its
/// updates.
pub proof fn lemma_index_names_updates(entries: Seq<TripMatch>, us: Seq<TripUpdate>)
    requires
        index_of_feed(entries, us),
    ensures
        forall|k: int| 0 <= k < entries.len() ==> (#[trigger] entries[k]).update < us.len(),
{
    lemma_named_updates_bounds(us);
    assert forall|k: int| 0 <= k < entries.len() implies (#[trigger] entries[k]).update < us.len() by {
        assert(entry_reads(entries[k], named_updates(us)[k], us[named_updates(us)[k]]));
    }
}

/// The update that the decision table attaches to a run is one that an
/// entry names.
pub proof fn lemma_scan_names_an_entry(
    entries: Seq<TripMatch>,
    trip_id: Seq<char>,
    date: int,
    run_start: Option<GtfsTime>,
    i: int,
    ambiguous: bool,
)
    requires
        0 <= i,
    ensures
        scan_from(entries, trip_id, date, run_start, i, ambiguous).update matches Some(u) ==> exists|
            k: int,
        | 0 <= k < entries.len() && entries[k].update == u,
    decreases entries.len() - i,
{
    if i < entries.len() {
        lemma_scan_names_an_entry(entries, trip_id, date, run_start, i + 1, ambiguous);
        lemma_scan_names_an_entry(entries, trip_id, date, run_start, i + 1, true);
    }
}

} // verus!
