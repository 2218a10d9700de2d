//! The station departure timetable projection.
//!
//! [`build_timetable`] turns the runs of one service date into a
//! Japanese-style departure timetable: one panel per line, platform,
//! and direction, each panel a table of hour rows with the departure
//! minutes beside them.
//!
//! # Rules that the projection keeps
//!
//! - Hours follow the *service day*, so a day that starts at `04:00`
//!   ends with the rows `00` to `03` of the next calendar day.
//! - A departure appears exactly once. A call enters the timetable
//!   only when it permits boarding, carries a usable time, and has a
//!   later call after it.
//! - Destination text comes from `stop_headsign`, then
//!   `trip_headsign`, then the last station of the run, then the
//!   configuration. Nothing is guessed.
//! - Headway service without exact times becomes a band row, never a
//!   list of invented minutes.

use vstd::prelude::*;

use crate::common::{
    DocumentSeed,
    css_key, css_key_spec, flag_explanation, flag_key, flag_rank, flag_symbol, string_views,
    DepartureFlag, Diagnostic, LegendItem, LineView, PublicationMetadata, Severity, StationView,
};
use crate::config::{
    direction_key_text, table_find, table_get, ColumnLayout, PublicationConfig, SecondsDisplay,
};
use crate::mapweb::join_strings;
use crate::page::join;
use crate::schedule::{departure_or_arrival_of, RailNetwork, ScheduledCall, TimeExactness, TripInstance};
use crate::text::{direction_text, localized_get, towards_text, Labels, LocalizedText};
use crate::textbuf::{decimal, owned, push_char, push_decimal, push_str};
use crate::time::GtfsTime;

verus! {

/// One departure of a timetable.
#[derive(Clone, Debug)]
pub struct TimetableDeparture {
    /// The scheduled time on the service day.
    pub scheduled_time: GtfsTime,
    /// The minute, for the large numeral.
    pub display_minute: u8,
    /// The seconds, when the configuration shows them.
    pub display_seconds: Option<u8>,
    /// The destination, possibly abbreviated.
    pub destination: String,
    /// The full destination, for a screen reader and a tooltip.
    pub destination_full: String,
    /// The platform of this departure.
    pub platform: Option<String>,
    /// The public train name, when the feed supplies one.
    pub trip_short_name: Option<String>,
    /// The internal GTFS trip identifier; never a passenger-facing
    /// train number.
    pub source_trip_id: String,
    /// The identifier of the run.
    pub instance_id: String,
    /// Whether the time is exact.
    pub exactness: TimeExactness,
    /// The marks on this departure.
    pub flags: Vec<DepartureFlag>,
}

/// One hour row of a panel.
#[derive(Clone, Debug)]
pub struct HourGroup {
    /// The hour on the service day; 24 and more are the small hours of
    /// the next calendar day.
    pub service_hour: u32,
    /// The hour on the 24-hour clock, for display.
    pub display_hour: u8,
    /// The departures of the hour, in time order.
    pub departures: Vec<TimetableDeparture>,
}

/// A headway band, as a timetable row.
#[derive(Clone, Debug)]
pub struct FrequencyNote {
    /// The identifier of the band.
    pub band_id: String,
    /// The first departure of the band.
    pub start: GtfsTime,
    /// The end of the band.
    pub end: GtfsTime,
    /// The headway in whole minutes.
    pub headway_minutes: u32,
    /// The destination of the band.
    pub destination: String,
    /// The ready-made text, for example
    /// `06:30–09:00  every 10 min approximately`.
    pub text: String,
    /// The service hours that the band covers.
    pub service_hours: Vec<u32>,
}

/// One direction panel of a timetable.
#[derive(Clone, Debug)]
pub struct TimetablePanel {
    /// A stable key for the panel, usable in HTML identifiers.
    pub key: String,
    /// The line of the panel.
    pub line: LineView,
    /// The heading that names the direction.
    pub direction_label: String,
    /// The GTFS direction of the panel.
    pub direction: Option<u8>,
    /// The platform heading, when the feed names a platform.
    pub platform_label: Option<String>,
    /// Every destination that the panel carries, most frequent first.
    pub destination_summary: Vec<String>,
    /// The hour rows, in service-day order.
    pub hour_groups: Vec<HourGroup>,
    /// The indexes of the hour rows at which a new column starts.
    pub column_breaks: Vec<usize>,
    /// The headway bands that affect this panel.
    pub frequency_notes: Vec<FrequencyNote>,
}

/// A finished timetable document.
#[derive(Clone, Debug)]
pub struct TimetableDocument {
    /// Where the data came from.
    pub metadata: PublicationMetadata,
    /// The station of the timetable.
    pub station: StationView,
    /// The page title.
    pub title: LocalizedText,
    /// The service-day label, for example `2026-08-10 (Mon)`.
    pub service_day_label: String,
    /// The first hour of the service day.
    pub day_start: GtfsTime,
    /// The exclusive end of the service day.
    pub day_end: GtfsTime,
    /// One panel per line, platform, and direction.
    pub panels: Vec<TimetablePanel>,
    /// The legend entries that the panels use.
    pub legend: Vec<LegendItem>,
}

/// Whether the departures at positions `q` and `q + 1` of an index
/// list are in order.
pub open spec fn deps_ordered_at(deps: Seq<Collected>, s: Seq<usize>, q: int) -> bool {
    !dep_before(deps[s[q + 1] as int].departure, deps[s[q] as int].departure)
}

/// Whether the departures at positions `q` and `q + 1` of a row are in
/// order.
pub open spec fn row_ordered_at(row: Seq<TimetableDeparture>, q: int) -> bool {
    !dep_before(row[q + 1], row[q])
}

/// Whether the keys at positions `a` and `a + 1` are in order.
pub open spec fn keys_ordered_at(keys: Seq<PanelKey>, a: int) -> bool {
    key_lt(keys[a], keys[a + 1])
}

/// Whether the summary entries at positions `a` and `a + 1` are in
/// order.
pub open spec fn summary_ordered_at(v: Seq<(Seq<char>, nat)>, a: int) -> bool {
    !summary_before(v[a + 1], v[a])
}

// ----------------------------------------------------------------------
// Counting and columns
// ----------------------------------------------------------------------

/// The number of departures in a run of hour rows.
pub open spec fn hour_departures(groups: Seq<HourGroup>) -> int
    decreases groups.len(),
{
    if groups.len() == 0 {
        0
    } else {
        hour_departures(groups.drop_last()) + groups.last().departures@.len()
    }
}

/// The number of departures in a run of panels.
pub open spec fn panel_departures(panels: Seq<TimetablePanel>) -> int
    decreases panels.len(),
{
    if panels.len() == 0 {
        0
    } else {
        panel_departures(panels.drop_last()) + hour_departures(panels.last().hour_groups@)
    }
}

proof fn lemma_hour_departures_nonnegative(groups: Seq<HourGroup>)
    ensures
        hour_departures(groups) >= 0,
    decreases groups.len(),
{
    if groups.len() > 0 {
        lemma_hour_departures_nonnegative(groups.drop_last());
    }
}

proof fn lemma_panel_departures_monotone(panels: Seq<TimetablePanel>, i: int)
    requires
        0 <= i <= panels.len(),
    ensures
        panel_departures(panels.take(i)) <= panel_departures(panels),
        0 <= panel_departures(panels.take(i)),
    decreases panels.len(),
{
    if i < panels.len() {
        assert(panels.drop_last().take(i) =~= panels.take(i)) by {
            assert(i <= panels.drop_last().len());
        }
        lemma_panel_departures_monotone(panels.drop_last(), i);
        lemma_hour_departures_nonnegative(panels.last().hour_groups@);
    } else {
        assert(panels.take(i) =~= panels);
        if panels.len() > 0 {
            lemma_panel_departures_monotone(panels.drop_last(), i - 1);
            assert(panels.drop_last().take(i - 1) =~= panels.drop_last());
            lemma_hour_departures_nonnegative(panels.last().hour_groups@);
        }
    }
}

proof fn lemma_hour_departures_monotone(groups: Seq<HourGroup>, i: int)
    requires
        0 <= i <= groups.len(),
    ensures
        hour_departures(groups.take(i)) <= hour_departures(groups),
        0 <= hour_departures(groups.take(i)),
    decreases groups.len(),
{
    if i < groups.len() {
        assert(groups.drop_last().take(i) =~= groups.take(i));
        lemma_hour_departures_monotone(groups.drop_last(), i);
    } else {
        assert(groups.take(i) =~= groups);
        if groups.len() > 0 {
            lemma_hour_departures_monotone(groups.drop_last(), i - 1);
            assert(groups.drop_last().take(i - 1) =~= groups.drop_last());
        }
    }
}

fn count_hours(groups: &Vec<HourGroup>) -> (n: usize)
    requires
        hour_departures(groups@) <= usize::MAX,
    ensures
        n == hour_departures(groups@),
{
    let mut n: usize = 0;
    let mut i: usize = 0;
    while i < groups.len()
        invariant
            i <= groups@.len(),
            n == hour_departures(groups@.take(i as int)),
            hour_departures(groups@) <= usize::MAX,
        decreases groups@.len() - i,
    {
        proof {
            assert(groups@.take(i + 1).drop_last() =~= groups@.take(i as int));
            lemma_hour_departures_monotone(groups@, i + 1);
        }
        n = n + groups[i].departures.len();
        i = i + 1;
    }
    proof {
        assert(groups@.take(groups@.len() as int) =~= groups@);
    }
    n
}

impl TimetablePanel {
    /// Count the departures of the panel.
    pub fn departure_count(&self) -> (n: usize)
        requires
            hour_departures(self.hour_groups@) <= usize::MAX,
        ensures
            n == hour_departures(self.hour_groups@),
    {
        count_hours(&self.hour_groups)
    }

    /// Split the hour rows into columns, using the column breaks: the
    /// rows of each column, in order.
    pub fn columns(&self) -> (r: Vec<&[HourGroup]>)
        ensures
            r@.len() == column_ranges(self.column_breaks@, self.hour_groups@.len() as int).len(),
            forall|k: int|
                0 <= k < r@.len() ==> (#[trigger] r@[k])@ == self.hour_groups@.subrange(
                    column_ranges(self.column_breaks@, self.hour_groups@.len() as int)[k].0 as int,
                    column_ranges(self.column_breaks@, self.hour_groups@.len() as int)[k].1 as int,
                ),
    {
        let bounds = column_bounds(&self.column_breaks, self.hour_groups.len());
        proof {
            lemma_columns_lie_within_the_rows(self.column_breaks@, self.hour_groups@.len() as int);
        }
        let rows = self.hour_groups.as_slice();
        let mut out: Vec<&[HourGroup]> = Vec::new();
        let mut k: usize = 0;
        while k < bounds.len()
            invariant
                k <= bounds@.len(),
                bounds@ == column_ranges(self.column_breaks@, self.hour_groups@.len() as int),
                rows@ == self.hour_groups@,
                forall|j: int|
                    0 <= j < bounds@.len() ==> 0 <= (#[trigger] bounds@[j]).0 <= bounds@[j].1
                        <= rows@.len(),
                out@.len() == k,
                forall|j: int|
                    0 <= j < k ==> (#[trigger] out@[j])@ == rows@.subrange(
                        bounds@[j].0 as int,
                        bounds@[j].1 as int,
                    ),
            decreases bounds@.len() - k,
        {
            let (a, b) = bounds[k];
            out.push(vstd::slice::slice_subrange(rows, a, b));
            k = k + 1;
        }
        out
    }
}

impl TimetableDocument {
    /// Count the departures in the whole document.
    pub fn departure_count(&self) -> (n: usize)
        requires
            panel_departures(self.panels@) <= usize::MAX,
        ensures
            n == panel_departures(self.panels@),
    {
        let mut n: usize = 0;
        let mut i: usize = 0;
        while i < self.panels.len()
            invariant
                i <= self.panels@.len(),
                n == panel_departures(self.panels@.take(i as int)),
                panel_departures(self.panels@) <= usize::MAX,
            decreases self.panels@.len() - i,
        {
            proof {
                assert(self.panels@.take(i + 1).drop_last() =~= self.panels@.take(i as int));
                lemma_panel_departures_monotone(self.panels@, i + 1);
                lemma_hour_departures_nonnegative(self.panels@[i as int].hour_groups@);
            }
            let m = count_hours(&self.panels[i].hour_groups);
            n = n + m;
            i = i + 1;
        }
        proof {
            assert(self.panels@.take(self.panels@.len() as int) =~= self.panels@);
        }
        n
    }
}

/// The columns that breaks cut from a run of rows, from `start` on: a
/// break that is beyond the current start and within the rows ends a
/// column; the rest of the rows form the last one.
pub open spec fn ranges_from(breaks: Seq<usize>, len: int, start: int) -> Seq<(usize, usize)>
    decreases breaks.len(),
{
    if breaks.len() == 0 {
        if start < len {
            seq![(start as usize, len as usize)]
        } else {
            Seq::empty()
        }
    } else {
        let b = breaks[0] as int;
        if b > start && b <= len {
            seq![(start as usize, b as usize)] + ranges_from(breaks.drop_first(), len, b)
        } else {
            ranges_from(breaks.drop_first(), len, start)
        }
    }
}

/// The columns of a panel; a panel without rows is one empty column.
pub open spec fn column_ranges(breaks: Seq<usize>, len: int) -> Seq<(usize, usize)> {
    let r = ranges_from(breaks, len, 0);
    if r.len() == 0 {
        seq![(0usize, len as usize)]
    } else {
        r
    }
}

proof fn lemma_ranges_tile(breaks: Seq<usize>, len: int, start: int)
    requires
        0 <= start <= len <= usize::MAX,
    ensures
        ({
            let r = ranges_from(breaks, len, start);
            &&& r.len() == 0 <==> start == len
            &&& r.len() > 0 ==> r[0].0 == start && r[r.len() - 1].1 == len
            &&& forall|i: int| 0 <= i < r.len() ==> (#[trigger] r[i]).0 < r[i].1
            &&& forall|i: int| 0 <= i < r.len() - 1 ==> (#[trigger] r[i]).1 == r[i + 1].0
        }),
    decreases breaks.len(),
{
    if breaks.len() > 0 {
        let b = breaks[0] as int;
        if b > start && b <= len {
            lemma_ranges_tile(breaks.drop_first(), len, b);
            let rest = ranges_from(breaks.drop_first(), len, b);
            let r = ranges_from(breaks, len, start);
            assert(r == seq![(start as usize, b as usize)] + rest);
            assert forall|i: int| 0 <= i < r.len() - 1 implies (#[trigger] r[i]).1 == r[i + 1].0 by {
                if i > 0 {
                    assert(r[i] == rest[i - 1]);
                    assert(r[i + 1] == rest[i]);
                }
            }
            assert forall|i: int| 0 <= i < r.len() implies (#[trigger] r[i]).0 < r[i].1 by {
                if i > 0 {
                    assert(r[i] == rest[i - 1]);
                }
            }
        } else {
            lemma_ranges_tile(breaks.drop_first(), len, start);
        }
    }
}

/// The columns of a panel tile its hour rows: the first starts at the
/// first row, each ends where the next begins, the last ends at the
/// last row, and none is empty unless the panel has no rows at all.
pub proof fn lemma_columns_tile_the_rows(breaks: Seq<usize>, len: int)
    requires
        0 <= len <= usize::MAX,
    ensures
        ({
            let r = column_ranges(breaks, len);
            &&& r.len() > 0
            &&& r[0].0 == 0 && r[r.len() - 1].1 == len
            &&& forall|i: int| 0 <= i < r.len() - 1 ==> (#[trigger] r[i]).1 == r[i + 1].0
            &&& len > 0 ==> forall|i: int| 0 <= i < r.len() ==> (#[trigger] r[i]).0 < r[i].1
        }),
{
    lemma_ranges_tile(breaks, len, 0);
}

#[verifier::spinoff_prover]
proof fn lemma_ranges_within(breaks: Seq<usize>, len: int, start: int)
    requires
        0 <= start <= len <= usize::MAX,
    ensures
        forall|i: int|
            0 <= i < ranges_from(breaks, len, start).len() ==> start <= (#[trigger] ranges_from(
                breaks,
                len,
                start,
            )[i]).0 <= ranges_from(breaks, len, start)[i].1 <= len,
    decreases breaks.len(),
{
    if breaks.len() > 0 {
        let b = breaks[0] as int;
        if b > start && b <= len {
            lemma_ranges_within(breaks.drop_first(), len, b);
            let rest = ranges_from(breaks.drop_first(), len, b);
            let r = ranges_from(breaks, len, start);
            assert forall|i: int| 0 <= i < r.len() implies start <= (#[trigger] r[i]).0 <= r[i].1
                <= len by {
                if i > 0 {
                    assert(r[i] == rest[i - 1]);
                }
            }
        } else {
            lemma_ranges_within(breaks.drop_first(), len, start);
            assert(ranges_from(breaks, len, start) == ranges_from(breaks.drop_first(), len, start));
        }
    } else {
        let r = ranges_from(breaks, len, start);
        assert forall|i: int| 0 <= i < r.len() implies start <= (#[trigger] r[i]).0 <= r[i].1
            <= len by {
            assert(r[i] == (start as usize, len as usize));
        }
    }
}

/// Every column of a panel lies inside its hour rows.
pub proof fn lemma_columns_lie_within_the_rows(breaks: Seq<usize>, len: int)
    requires
        0 <= len <= usize::MAX,
    ensures
        forall|i: int|
            0 <= i < column_ranges(breaks, len).len() ==> 0 <= (#[trigger] column_ranges(
                breaks,
                len,
            )[i]).0 <= column_ranges(breaks, len)[i].1 <= len,
{
    lemma_ranges_within(breaks, len, 0);
}

/// The `(start, end)` bounds of the columns of a panel, in order.
pub fn column_bounds(breaks: &Vec<usize>, len: usize) -> (r: Vec<(usize, usize)>)
    ensures
        r@ == column_ranges(breaks@, len as int),
{
    let mut out: Vec<(usize, usize)> = Vec::new();
    let mut start: usize = 0;
    let mut i: usize = 0;
    proof {
        assert(breaks@.skip(0) =~= breaks@);
        assert(out@ + ranges_from(breaks@, len as int, 0) =~= ranges_from(breaks@, len as int, 0));
    }
    while i < breaks.len()
        invariant
            i <= breaks@.len(),
            start <= len,
            out@ + ranges_from(breaks@.skip(i as int), len as int, start as int) == ranges_from(
                breaks@,
                len as int,
                0,
            ),
        decreases breaks@.len() - i,
    {
        proof {
            assert(breaks@.skip(i as int).drop_first() =~= breaks@.skip(i + 1));
            assert(breaks@.skip(i as int)[0] == breaks@[i as int]);
        }
        let b = breaks[i];
        if b > start && b <= len {
            out.push((start, b));
            proof {
                assert(out@ + ranges_from(breaks@.skip(i + 1), len as int, b as int) =~= ranges_from(
                    breaks@,
                    len as int,
                    0,
                ));
            }
            start = b;
        }
        i = i + 1;
    }
    proof {
        assert(breaks@.skip(0) =~= breaks@);
    }
    if start < len {
        out.push((start, len));
    }
    proof {
        assert(out@ =~= ranges_from(breaks@, len as int, 0));
    }
    if out.len() == 0 {
        out.push((0, len));
    }
    out
}

/// How many departures fit on one printed line of an hour row.
pub const DEPARTURES_PER_LINE: usize = 6;

/// The printed height of an hour row, in lines.
pub open spec fn row_weight(g: HourGroup) -> int {
    1 + (if g.departures@.len() >= 1 {
        g.departures@.len() - 1
    } else {
        0
    }) / 6
}

/// The printed height of a run of hour rows.
pub open spec fn total_weight(groups: Seq<HourGroup>) -> int
    decreases groups.len(),
{
    if groups.len() == 0 {
        0
    } else {
        total_weight(groups.drop_last()) + row_weight(groups.last())
    }
}

/// The breaks of a balanced layout from row `index` on: break before a
/// row as soon as the running weight passes the ideal share of the
/// columns that are already complete, provided enough rows remain for
/// the columns still to come.
pub open spec fn breaks_from(
    groups: Seq<HourGroup>,
    columns: int,
    total: int,
    index: int,
    carried: int,
    column: int,
) -> Seq<int>
    decreases groups.len() - index,
{
    if index < 0 || index >= groups.len() || column >= columns {
        Seq::empty()
    } else {
        let w = row_weight(groups[index]);
        let target = total * column / columns;
        if carried + w > target && index > 0 && groups.len() - index >= columns - column {
            seq![index] + breaks_from(groups, columns, total, index + 1, carried + w, column + 1)
        } else {
            breaks_from(groups, columns, total, index + 1, carried + w, column)
        }
    }
}

/// The breaks that split hour rows into columns of roughly equal
/// printed height; none for one column or fewer than two rows.
pub open spec fn balanced_spec(groups: Seq<HourGroup>, columns: int) -> Seq<int> {
    if columns <= 1 || groups.len() < 2 {
        Seq::empty()
    } else {
        let c = if columns < groups.len() {
            columns
        } else {
            groups.len() as int
        };
        breaks_from(groups, c, total_weight(groups), 0, 0, 1)
    }
}

proof fn lemma_breaks_shape(
    groups: Seq<HourGroup>,
    columns: int,
    total: int,
    index: int,
    carried: int,
    column: int,
)
    requires
        0 <= index,
        1 <= column,
    ensures
        ({
            let r = breaks_from(groups, columns, total, index, carried, column);
            &&& forall|i: int| 0 <= i < r.len() ==> index <= #[trigger] r[i] < groups.len()
            &&& forall|i: int| 0 <= i < r.len() ==> #[trigger] r[i] > 0
            &&& forall|i: int, j: int| 0 <= i < j < r.len() ==> r[i] < r[j]
            &&& column + r.len() <= (if columns > column {
                columns
            } else {
                column
            })
        }),
    decreases groups.len() - index,
{
    if index < groups.len() && column < columns {
        let w = row_weight(groups[index]);
        let target = total * column / columns;
        if carried + w > target && index > 0 && groups.len() - index >= columns - column {
            lemma_breaks_shape(groups, columns, total, index + 1, carried + w, column + 1);
            let rest = breaks_from(groups, columns, total, index + 1, carried + w, column + 1);
            let r = breaks_from(groups, columns, total, index, carried, column);
            assert(r == seq![index] + rest);
            assert forall|i: int, j: int| 0 <= i < j < r.len() implies r[i] < r[j] by {
                if i > 0 {
                    assert(r[i] == rest[i - 1]);
                }
                assert(r[j] == rest[j - 1]);
            }
            assert forall|i: int| 0 <= i < r.len() implies index <= #[trigger] r[i] < groups.len() by {
                if i > 0 {
                    assert(r[i] == rest[i - 1]);
                }
            }
        } else {
            lemma_breaks_shape(groups, columns, total, index + 1, carried + w, column);
        }
    }
}

/// The breaks of a balanced layout keep the hour order: they rise
/// strictly, each falls inside the rows and after the first, and they
/// make no more columns than asked for.
pub proof fn lemma_balanced_breaks_keep_the_order(groups: Seq<HourGroup>, columns: int)
    ensures
        ({
            let r = balanced_spec(groups, columns);
            &&& forall|i: int| 0 <= i < r.len() ==> 0 < #[trigger] r[i] < groups.len()
            &&& forall|i: int, j: int| 0 <= i < j < r.len() ==> r[i] < r[j]
            &&& r.len() + 1 <= (if columns > 1 {
                columns
            } else {
                1
            })
        }),
{
    if !(columns <= 1 || groups.len() < 2) {
        let c = if columns < groups.len() {
            columns
        } else {
            groups.len() as int
        };
        lemma_breaks_shape(groups, c, total_weight(groups), 0, 0, 1);
    }
}

/// Split the hour rows into columns of roughly equal printed height.
///
/// The weight of a row is the number of lines that its departures
/// need, which is what decides how tall a column becomes. The order of
/// the rows never changes.
pub fn balanced_breaks(hour_groups: &Vec<HourGroup>, columns: usize) -> (r: Vec<usize>)
    requires
        hour_groups@.len() <= u32::MAX,
    ensures
        r@.map_values(|b: usize| b as int) == balanced_spec(hour_groups@, columns as int),
{
    let mut breaks: Vec<usize> = Vec::new();
    if columns <= 1 || hour_groups.len() < 2 {
        proof {
            assert(breaks@.map_values(|b: usize| b as int) =~= Seq::<int>::empty());
        }
        return breaks;
    }
    let n = hour_groups.len();
    let c = if columns < n {
        columns
    } else {
        n
    };
    let ghost gs = hour_groups@;
    let mut total: u128 = 0;
    let mut k: usize = 0;
    while k < n
        invariant
            k <= n,
            n == gs.len(),
            gs == hour_groups@,
            n <= u32::MAX,
            total == total_weight(gs.take(k as int)),
            total <= k * 0x1_0000_0000_0000_0000,
        decreases n - k,
    {
        proof {
            assert(gs.take(k + 1).drop_last() =~= gs.take(k as int));
        }
        let len = hour_groups[k].departures.len();
        let w: u128 = if len >= 1 {
            1 + ((len - 1) / 6) as u128
        } else {
            1
        };
        total = total + w;
        k = k + 1;
    }
    proof {
        assert(gs.take(n as int) =~= gs);
    }
    let mut carried: u128 = 0;
    let mut column: usize = 1;
    let mut index: usize = 0;
    proof {
        assert(breaks@.map_values(|b: usize| b as int) + breaks_from(
            gs,
            c as int,
            total as int,
            0,
            0,
            1,
        ) =~= breaks_from(gs, c as int, total as int, 0, 0, 1));
    }
    while index < n && column < c
        invariant
            index <= n,
            n == gs.len(),
            gs == hour_groups@,
            2 <= n <= u32::MAX,
            1 <= column,
            c <= n,
            total == total_weight(gs),
            total <= n * 0x1_0000_0000_0000_0000,
            carried <= index * 0x1_0000_0000_0000_0000,
            column <= index + 1,
            breaks@.map_values(|b: usize| b as int) + breaks_from(
                gs,
                c as int,
                total as int,
                index as int,
                carried as int,
                column as int,
            ) == breaks_from(gs, c as int, total as int, 0, 0, 1),
        decreases n - index,
    {
        let len = hour_groups[index].departures.len();
        let w: u128 = if len >= 1 {
            1 + ((len - 1) / 6) as u128
        } else {
            1
        };
        proof {
            assert(total * column <= (n * 0x1_0000_0000_0000_0000) * n) by (nonlinear_arith)
                requires
                    0 <= total <= n * 0x1_0000_0000_0000_0000,
                    0 <= column <= n,
            ;
            assert((n * 0x1_0000_0000_0000_0000) * n <= u128::MAX) by (nonlinear_arith)
                requires
                    0 <= n <= u32::MAX,
            ;
            assert(carried + w <= (index + 1) * 0x1_0000_0000_0000_0000) by (nonlinear_arith)
                requires
                    carried <= index * 0x1_0000_0000_0000_0000,
                    w <= 0x1_0000_0000_0000_0000,
            ;
            assert((index + 1) * 0x1_0000_0000_0000_0000 <= u128::MAX) by (nonlinear_arith)
                requires
                    index < n <= u32::MAX,
            ;
        }
        let target = total * (column as u128) / (c as u128);
        let ghost old_breaks = breaks@;
        if carried + w > target && index > 0 && n - index >= c - column {
            breaks.push(index);
            proof {
                assert(breaks@.map_values(|b: usize| b as int) =~= old_breaks.map_values(
                    |b: usize| b as int,
                ).push(index as int));
                assert(breaks@.map_values(|b: usize| b as int) + breaks_from(
                    gs,
                    c as int,
                    total as int,
                    index + 1,
                    carried + w,
                    column + 1,
                ) =~= breaks_from(gs, c as int, total as int, 0, 0, 1));
            }
            column = column + 1;
        }
        carried = carried + w;
        index = index + 1;
    }
    proof {
        assert(breaks@.map_values(|b: usize| b as int) =~= breaks_from(
            gs,
            c as int,
            total as int,
            0,
            0,
            1,
        ));
    }
    breaks
}

/// The breaks that a layout asks for: none for a single column, the
/// rows of the configured hours for a split, balanced breaks otherwise.
pub open spec fn breaks_spec(groups: Seq<HourGroup>, config: PublicationConfig) -> Seq<int> {
    match config.timetable.layout {
        ColumnLayout::Single => Seq::empty(),
        ColumnLayout::SplitAt => split_rows(groups, config.timetable.split_at@),
        _ => balanced_spec(groups, config.timetable.columns as int),
    }
}

/// The first row of a service hour.
pub open spec fn row_of_hour(groups: Seq<HourGroup>, hour: u32, i: int) -> Option<int>
    decreases groups.len() - i,
{
    if i < 0 || i >= groups.len() {
        None
    } else if groups[i].service_hour == hour {
        Some(i)
    } else {
        row_of_hour(groups, hour, i + 1)
    }
}

/// The rows at which the configured split hours start, where they are
/// not the first row.
pub open spec fn split_rows(groups: Seq<HourGroup>, hours: Seq<u32>) -> Seq<int>
    decreases hours.len(),
{
    if hours.len() == 0 {
        Seq::empty()
    } else {
        let rest = split_rows(groups, hours.drop_last());
        match row_of_hour(groups, hours.last(), 0) {
            Some(i) => if i > 0 {
                rest.push(i)
            } else {
                rest
            },
            None => rest,
        }
    }
}

fn find_hour_row(groups: &Vec<HourGroup>, hour: u32) -> (r: Option<usize>)
    ensures
        r matches Some(i) ==> row_of_hour(groups@, hour, 0) == Some(i as int),
        r is None ==> row_of_hour(groups@, hour, 0) is None,
{
    let mut i: usize = 0;
    while i < groups.len()
        invariant
            i <= groups@.len(),
            row_of_hour(groups@, hour, 0) == row_of_hour(groups@, hour, i as int),
        decreases groups@.len() - i,
    {
        if groups[i].service_hour == hour {
            return Some(i);
        }
        i = i + 1;
    }
    None
}

/// Choose the hour rows at which a new column starts.
pub fn column_breaks(hour_groups: &Vec<HourGroup>, config: &PublicationConfig) -> (r: Vec<usize>)
    requires
        hour_groups@.len() <= u32::MAX,
    ensures
        r@.map_values(|b: usize| b as int) == breaks_spec(hour_groups@, *config),
{
    match config.timetable.layout {
        ColumnLayout::Single => {
            let r: Vec<usize> = Vec::new();
            proof {
                assert(r@.map_values(|b: usize| b as int) =~= Seq::<int>::empty());
            }
            r
        },
        ColumnLayout::SplitAt => {
            let hours = &config.timetable.split_at;
            let mut out: Vec<usize> = Vec::new();
            let mut i: usize = 0;
            while i < hours.len()
                invariant
                    i <= hours@.len(),
                    out@.map_values(|b: usize| b as int) == split_rows(
                        hour_groups@,
                        hours@.take(i as int),
                    ),
                decreases hours@.len() - i,
            {
                proof {
                    assert(hours@.take(i + 1).drop_last() =~= hours@.take(i as int));
                }
                match find_hour_row(hour_groups, hours[i]) {
                    Some(row) => {
                        if row > 0 {
                            out.push(row);
                        }
                    },
                    None => {},
                }
                proof {
                    assert(out@.map_values(|b: usize| b as int) =~= split_rows(
                        hour_groups@,
                        hours@.take(i + 1),
                    ));
                }
                i = i + 1;
            }
            proof {
                assert(hours@.take(hours@.len() as int) =~= hours@);
            }
            out
        },
        _ => {
            balanced_breaks(hour_groups, config.timetable.columns)
        },
    }
}

// ----------------------------------------------------------------------
// One departure
// ----------------------------------------------------------------------

/// The seconds a departure shows under a display mode.
pub open spec fn seconds_spec(time: GtfsTime, mode: SecondsDisplay) -> Option<u8> {
    let seconds = (time.secs % 60) as u8;
    match mode {
        SecondsDisplay::Hide => None,
        SecondsDisplay::Show => Some(seconds),
        SecondsDisplay::ShowIfNonzero => if seconds != 0 {
            Some(seconds)
        } else {
            None
        },
    }
}

/// Choose the seconds to display.
pub fn seconds_for(time: GtfsTime, mode: SecondsDisplay) -> (r: Option<u8>)
    ensures
        r == seconds_spec(time, mode),
{
    let seconds = time.seconds_part() as u8;
    match mode {
        SecondsDisplay::Hide => None,
        SecondsDisplay::Show => Some(seconds),
        SecondsDisplay::ShowIfNonzero => if seconds != 0 {
            Some(seconds)
        } else {
            None
        },
    }
}

/// The departure time of call `i` of a run, where a passenger can
/// board there: boarding is permitted, a later call follows, and the
/// call carries a departure or an arrival time.
pub open spec fn boardable_spec(trip: TripInstance, i: int) -> Option<GtfsTime> {
    if i + 1 >= trip.calls@.len() || !trip.calls@[i].pickup_allowed {
        None
    } else {
        departure_or_arrival_of(trip.calls@[i])
    }
}

/// Get the departure time of a call that a passenger can board.
pub fn boardable_departure(trip: &TripInstance, index: usize) -> (r: Option<GtfsTime>)
    requires
        index < trip.calls@.len(),
    ensures
        r == boardable_spec(*trip, index as int),
{
    if index >= trip.calls.len() - 1 {
        return None;
    }
    if !trip.calls[index].allows_pickup() {
        return None;
    }
    trip.calls[index].departure_or_arrival()
}

/// The platform text of a call: the configured override for its
/// platform, else its own platform code where that is not empty.
pub open spec fn platform_spec(call: ScheduledCall, config: PublicationConfig) -> Option<Seq<char>> {
    match table_get(config.labels.platform_overrides@, call.platform_stop_id@) {
        Some(text) => Some(text@),
        None => match call.platform_code {
            Some(c) => if c@.len() > 0 {
                Some(c@)
            } else {
                None
            },
            None => None,
        },
    }
}

/// The view of an optional string.
pub open spec fn opt_view(s: Option<String>) -> Option<Seq<char>> {
    match s {
        Some(x) => Some(x@),
        None => None,
    }
}

/// Resolve the platform label of one call.
pub fn resolve_platform(call: &ScheduledCall, config: &PublicationConfig) -> (r: Option<String>)
    ensures
        opt_view(r) == platform_spec(*call, *config),
{
    match table_find(&config.labels.platform_overrides, call.platform_stop_id.as_str()) {
        Some(i) => return Some(owned(config.labels.platform_overrides[i].1.as_str())),
        None => {},
    }
    match &call.platform_code {
        Some(c) => if c.as_str().is_empty() {
            None
        } else {
            Some(owned(c.as_str()))
        },
        None => None,
    }
}

/// The destination text of a departure: the per-call headsign, the
/// trip headsign, the last station of the run, the configured
/// direction override, and finally the neutral direction number.
pub open spec fn destination_spec(
    network: RailNetwork,
    trip: TripInstance,
    i: int,
    config: PublicationConfig,
    labels: Labels,
) -> Seq<char> {
    let call = trip.calls@[i];
    if call.stop_headsign matches Some(h) && h@.len() > 0 {
        call.stop_headsign->0@
    } else if trip.headsign matches Some(h) && h@.len() > 0 {
        trip.headsign->0@
    } else if trip.calls@.len() > 0 && i + 1 < trip.calls@.len() {
        network.stations@[trip.calls@.last().station as int].name@
    } else {
        match table_get(
            config.labels.direction_overrides@,
            direction_key_text(network.lines@[trip.line as int].route_id@, trip.direction),
        ) {
            Some(t) => localized_get(t, config.language),
            None => direction_text(labels.language, trip.direction),
        }
    }
}

/// Resolve the destination text of one departure. Nothing is guessed.
pub fn resolve_destination(
    network: &RailNetwork,
    trip: &TripInstance,
    index: usize,
    config: &PublicationConfig,
    labels: &Labels,
) -> (r: String)
    requires
        index < trip.calls@.len(),
        crate::schedule::trip_in_network(*network, *trip),
    ensures
        r@ == destination_spec(*network, *trip, index as int, *config, *labels),
{
    let call = &trip.calls[index];
    match &call.stop_headsign {
        Some(h) => if !h.as_str().is_empty() {
            return owned(h.as_str());
        },
        None => {},
    }
    match &trip.headsign {
        Some(h) => if !h.as_str().is_empty() {
            return owned(h.as_str());
        },
        None => {},
    }
    if index < trip.calls.len() - 1 {
        let last = &trip.calls[trip.calls.len() - 1];
        return owned(network.stations[last.station].name.as_str());
    }
    let route_id = network.lines[trip.line].route_id.as_str();
    match config.labels.direction_override(route_id, trip.direction, config.language) {
        Some(text) => text,
        None => labels.direction_number(trip.direction),
    }
}

// ----------------------------------------------------------------------
// A panel's headings
// ----------------------------------------------------------------------

/// The number of departures to one destination.
pub open spec fn dest_count(deps: Seq<TimetableDeparture>, name: Seq<char>) -> nat
    decreases deps.len(),
{
    if deps.len() == 0 {
        0
    } else {
        dest_count(deps.drop_last(), name) + if deps.last().destination_full@ == name {
            1nat
        } else {
            0nat
        }
    }
}

/// The destinations of the departures, each once, in first-seen order.
pub open spec fn distinct_dests(deps: Seq<TimetableDeparture>) -> Seq<Seq<char>>
    decreases deps.len(),
{
    if deps.len() == 0 {
        Seq::empty()
    } else {
        let r = distinct_dests(deps.drop_last());
        if r.contains(deps.last().destination_full@) {
            r
        } else {
            r.push(deps.last().destination_full@)
        }
    }
}

/// A list of names with the band destinations it lacks added.
pub open spec fn with_band_dests(names: Seq<Seq<char>>, bands: Seq<FrequencyNote>) -> Seq<Seq<char>>
    decreases bands.len(),
{
    if bands.len() == 0 {
        names
    } else {
        let r = with_band_dests(names, bands.drop_last());
        if r.contains(bands.last().destination@) {
            r
        } else {
            r.push(bands.last().destination@)
        }
    }
}

/// The destinations of a panel, each once: those of its departures in
/// first-seen order, then those of its bands that no departure has.
pub open spec fn panel_dests(deps: Seq<TimetableDeparture>, bands: Seq<FrequencyNote>) -> Seq<
    Seq<char>,
> {
    with_band_dests(distinct_dests(deps), bands)
}

/// Whether one summary entry comes before another: more departures
/// first, then by name.
pub open spec fn summary_before(a: (Seq<char>, nat), b: (Seq<char>, nat)) -> bool {
    a.1 > b.1 || (a.1 == b.1 && crate::order::seq_lt(a.0, b.0))
}

proof fn lemma_summary_before_asymmetric(a: (Seq<char>, nat), b: (Seq<char>, nat))
    ensures
        !(summary_before(a, b) && summary_before(b, a)),
{
    crate::order::lemma_seq_lt_asymmetric(a.0, b.0);
}

/// A list of destinations with their departure counts.
pub open spec fn counted(r: Seq<String>, deps: Seq<TimetableDeparture>) -> Seq<(Seq<char>, nat)> {
    r.map_values(|n: String| (n@, dest_count(deps, n@)))
}

/// The names of a summary list with their counts.
pub open spec fn summary_view(v: Seq<(String, usize)>) -> Seq<(Seq<char>, nat)> {
    v.map_values(|e: (String, usize)| (e.0@, e.1 as nat))
}

/// The names of a summary list.
pub open spec fn summary_names(v: Seq<(String, usize)>) -> Seq<Seq<char>> {
    v.map_values(|e: (String, usize)| e.0@)
}

proof fn lemma_distinct_dests(deps: Seq<TimetableDeparture>)
    ensures
        distinct_dests(deps).no_duplicates(),
        forall|n: Seq<char>|
            distinct_dests(deps).contains(n) <==> exists|k: int|
                0 <= k < deps.len() && (#[trigger] deps[k]).destination_full@ == n,
    decreases deps.len(),
{
    if deps.len() > 0 {
        lemma_distinct_dests(deps.drop_last());
        let r = distinct_dests(deps.drop_last());
        assert forall|n: Seq<char>|
            distinct_dests(deps).contains(n) <==> exists|k: int|
                0 <= k < deps.len() && (#[trigger] deps[k]).destination_full@ == n by {
            if distinct_dests(deps).contains(n) {
                if r.contains(n) {
                    let k = choose|k: int|
                        0 <= k < deps.drop_last().len() && (#[trigger] deps.drop_last()[k]).destination_full@ == n;
                    assert(deps[k] == deps.drop_last()[k]);
                } else {
                    assert(deps[deps.len() - 1].destination_full@ == n);
                }
            }
            if exists|k: int| 0 <= k < deps.len() && (#[trigger] deps[k]).destination_full@ == n {
                let k = choose|k: int| 0 <= k < deps.len() && (#[trigger] deps[k]).destination_full@ == n;
                if k < deps.len() - 1 {
                    assert(deps.drop_last()[k] == deps[k]);
                    assert(r.contains(n));
                    if !r.contains(deps.last().destination_full@) {
                        assert(r.push(deps.last().destination_full@).contains(n)) by {
                            let j = choose|j: int| 0 <= j < r.len() && r[j] == n;
                            assert(r.push(deps.last().destination_full@)[j] == n);
                        }
                    }
                } else {
                    if !r.contains(n) {
                        assert(distinct_dests(deps)[r.len() as int] == n);
                    }
                }
            }
        }
    }
}

proof fn lemma_with_band_dests(names: Seq<Seq<char>>, bands: Seq<FrequencyNote>)
    requires
        names.no_duplicates(),
    ensures
        with_band_dests(names, bands).no_duplicates(),
        forall|n: Seq<char>|
            with_band_dests(names, bands).contains(n) <==> (names.contains(n) || exists|k: int|
                0 <= k < bands.len() && (#[trigger] bands[k]).destination@ == n),
    decreases bands.len(),
{
    if bands.len() > 0 {
        lemma_with_band_dests(names, bands.drop_last());
        let r = with_band_dests(names, bands.drop_last());
        assert forall|n: Seq<char>|
            with_band_dests(names, bands).contains(n) <==> (names.contains(n) || exists|k: int|
                0 <= k < bands.len() && (#[trigger] bands[k]).destination@ == n) by {
            if with_band_dests(names, bands).contains(n) && !names.contains(n) {
                if r.contains(n) {
                    let k = choose|k: int|
                        0 <= k < bands.drop_last().len() && (#[trigger] bands.drop_last()[k]).destination@ == n;
                    assert(bands[k] == bands.drop_last()[k]);
                } else {
                    assert(bands[bands.len() - 1].destination@ == n);
                }
            }
            if names.contains(n) || exists|k: int| 0 <= k < bands.len() && (#[trigger] bands[k]).destination@ == n {
                let in_r = names.contains(n) || exists|k: int| 0 <= k < bands.drop_last().len() && (#[trigger] bands.drop_last()[k]).destination@ == n;
                if in_r {
                    if !names.contains(n) {
                        let k = choose|k: int|
                            0 <= k < bands.drop_last().len() && (#[trigger] bands.drop_last()[k]).destination@ == n;
                        assert(bands.drop_last()[k].destination@ == n);
                    }
                    assert(r.contains(n));
                    if !r.contains(bands.last().destination@) {
                        let j = choose|j: int| 0 <= j < r.len() && r[j] == n;
                        assert(r.push(bands.last().destination@)[j] == n);
                    }
                } else {
                    let k = choose|k: int| 0 <= k < bands.len() && (#[trigger] bands[k]).destination@ == n;
                    if k < bands.len() - 1 {
                        assert(bands.drop_last()[k] == bands[k]);
                    }
                    if !r.contains(n) {
                        assert(with_band_dests(names, bands)[r.len() as int] == n);
                    }
                }
            }
        }
    }
}

/// The destination summary of a panel names every destination of its
/// departures and bands, and each exactly once.
pub proof fn lemma_panel_dests_are_exact(deps: Seq<TimetableDeparture>, bands: Seq<FrequencyNote>)
    ensures
        panel_dests(deps, bands).no_duplicates(),
        forall|n: Seq<char>|
            panel_dests(deps, bands).contains(n) <==> ((exists|k: int|
                0 <= k < deps.len() && (#[trigger] deps[k]).destination_full@ == n) || (exists|k: int|
                0 <= k < bands.len() && (#[trigger] bands[k]).destination@ == n)),
{
    lemma_distinct_dests(deps);
    lemma_with_band_dests(distinct_dests(deps), bands);
    assert forall|n: Seq<char>|
        panel_dests(deps, bands).contains(n) <==> ((exists|k: int|
            0 <= k < deps.len() && (#[trigger] deps[k]).destination_full@ == n) || (exists|k: int|
            0 <= k < bands.len() && (#[trigger] bands[k]).destination@ == n)) by {
        assert(distinct_dests(deps).contains(n) <==> exists|k: int|
            0 <= k < deps.len() && (#[trigger] deps[k]).destination_full@ == n);
        assert(with_band_dests(distinct_dests(deps), bands).contains(n) <==> (distinct_dests(
            deps,
        ).contains(n) || exists|k: int|
            0 <= k < bands.len() && (#[trigger] bands[k]).destination@ == n));
    }
}

proof fn lemma_count_step(deps: Seq<TimetableDeparture>, i: int, n: Seq<char>)
    requires
        0 <= i < deps.len(),
    ensures
        dest_count(deps.take(i + 1), n) == dest_count(deps.take(i), n) + if deps[i].destination_full@
            == n {
            1nat
        } else {
            0nat
        },
{
    assert(deps.take(i + 1).drop_last() =~= deps.take(i));
}

fn count_destinations(departures: &Vec<TimetableDeparture>) -> (names: Vec<(String, usize)>)
    ensures
        summary_names(names@) == distinct_dests(departures@),
        forall|a: int|
            0 <= a < names@.len() ==> (#[trigger] names@[a]).1 == dest_count(
                departures@,
                names@[a].0@,
            ),
{
    let mut names: Vec<(String, usize)> = Vec::new();
    let len = departures.len();
    let mut i: usize = 0;
    while i < len
        invariant
            i <= departures@.len(),
            len == departures@.len(),
            summary_names(names@) == distinct_dests(departures@.take(i as int)),
            forall|a: int|
                0 <= a < names@.len() ==> (#[trigger] names@[a]).1 == dest_count(
                    departures@.take(i as int),
                    names@[a].0@,
                ),
            forall|a: int| 0 <= a < names@.len() ==> (#[trigger] names@[a]).1 <= i,
        decreases departures@.len() - i,
    {
        proof {
            assert(departures@.take(i + 1).drop_last() =~= departures@.take(i as int));
            lemma_distinct_dests(departures@.take(i as int));
        }
        let name = departures[i].destination_full.as_str();
        let mut found: Option<usize> = None;
        let mut a: usize = 0;
        while a < names.len()
            invariant
                a <= names@.len(),
                found is None ==> forall|q: int| 0 <= q < a ==> names@[q].0@ != name@,
                found matches Some(f) ==> f < names@.len() && names@[f as int].0@ == name@,
            decreases names@.len() - a,
        {
            if found.is_none() && crate::textbuf::str_eq(names[a].0.as_str(), name) {
                found = Some(a);
            }
            a = a + 1;
        }
        let ghost before = names@;
        match found {
            Some(f) => {
                let n = names[f].1;
                let entry = (owned(names[f].0.as_str()), n + 1);
                names.set(f, entry);
                proof {
                    assert(summary_names(before)[f as int] == name@);
                    assert(distinct_dests(departures@.take(i as int)).contains(name@));
                    assert(summary_names(names@) =~= summary_names(before));
                    assert forall|q: int| 0 <= q < names@.len() implies (#[trigger] names@[q]).1
                        == dest_count(departures@.take(i + 1), names@[q].0@) by {
                        lemma_count_step(departures@, i as int, names@[q].0@);
                        if q != f {
                            assert(names@[q] == before[q]);
                            assert(summary_names(before)[q] != summary_names(before)[f as int]);
                        }
                    }
                }
            },
            None => {
                names.push((owned(name), 1));
                proof {
                    assert(!distinct_dests(departures@.take(i as int)).contains(name@)) by {
                        if distinct_dests(departures@.take(i as int)).contains(name@) {
                            let q = choose|q: int| 0 <= q < before.len() && summary_names(before)[q] == name@;
                        }
                    }
                    assert(summary_names(names@) =~= summary_names(before).push(name@));
                    assert(dest_count(departures@.take(i as int), name@) == 0) by {
                        lemma_distinct_dests(departures@.take(i as int));
                        lemma_dest_count_absent(departures@.take(i as int), name@);
                    }
                    assert forall|q: int| 0 <= q < names@.len() implies (#[trigger] names@[q]).1
                        == dest_count(departures@.take(i + 1), names@[q].0@) by {
                        lemma_count_step(departures@, i as int, names@[q].0@);
                        if q < before.len() {
                            assert(names@[q] == before[q]);
                            assert(summary_names(before)[q] != name@);
                        }
                    }
                }
            },
        }
        i = i + 1;
    }
    proof {
        assert(departures@.take(departures@.len() as int) =~= departures@);
    }
    names
}

fn add_band_destinations(names: &mut Vec<(String, usize)>, departures: &Vec<TimetableDeparture>, bands: &Vec<FrequencyNote>)
    requires
        summary_names(old(names)@) == distinct_dests(departures@),
        forall|a: int|
            0 <= a < old(names)@.len() ==> (#[trigger] old(names)@[a]).1 == dest_count(
                departures@,
                old(names)@[a].0@,
            ),
    ensures
        summary_names(final(names)@) == panel_dests(departures@, bands@),
        forall|a: int|
            0 <= a < final(names)@.len() ==> (#[trigger] final(names)@[a]).1 == dest_count(
                departures@,
                final(names)@[a].0@,
            ),
{
    let mut j: usize = 0;
    while j < bands.len()
        invariant
            j <= bands@.len(),
            summary_names(names@) == with_band_dests(distinct_dests(departures@), bands@.take(j as int)),
            forall|a: int|
                0 <= a < names@.len() ==> (#[trigger] names@[a]).1 == dest_count(
                    departures@,
                    names@[a].0@,
                ),
        decreases bands@.len() - j,
    {
        proof {
            assert(bands@.take(j + 1).drop_last() =~= bands@.take(j as int));
        }
        let name = bands[j].destination.as_str();
        let mut found = false;
        let mut a: usize = 0;
        while a < names.len()
            invariant
                a <= names@.len(),
                !found ==> forall|q: int| 0 <= q < a ==> names@[q].0@ != name@,
                found ==> summary_names(names@).contains(name@),
            decreases names@.len() - a,
        {
            if crate::textbuf::str_eq(names[a].0.as_str(), name) {
                proof {
                    assert(summary_names(names@)[a as int] == name@);
                }
                found = true;
            }
            a = a + 1;
        }
        let ghost before = names@;
        if !found {
            proof {
                assert(!summary_names(before).contains(name@)) by {
                    if summary_names(before).contains(name@) {
                        let q = choose|q: int| 0 <= q < before.len() && summary_names(before)[q] == name@;
                    }
                }
                lemma_distinct_dests(departures@);
                lemma_with_band_dests(distinct_dests(departures@), bands@.take(j as int));
                assert(!distinct_dests(departures@).contains(name@));
                lemma_dest_count_absent(departures@, name@);
            }
            names.push((owned(name), 0));
            proof {
                assert(summary_names(names@) =~= summary_names(before).push(name@));
                assert forall|q: int| 0 <= q < names@.len() implies (#[trigger] names@[q]).1
                    == dest_count(departures@, names@[q].0@) by {
                    if q < before.len() {
                        assert(names@[q] == before[q]);
                    }
                }
            }
        }
        j = j + 1;
    }
    proof {
        assert(bands@.take(bands@.len() as int) =~= bands@);
    }
}

fn sort_summary(names: &Vec<(String, usize)>, departures: &Vec<TimetableDeparture>) -> (sorted: Vec<
    (String, usize),
>)
    requires
        forall|a: int|
            0 <= a < names@.len() ==> (#[trigger] names@[a]).1 == dest_count(
                departures@,
                names@[a].0@,
            ),
    ensures
        summary_names(sorted@).to_multiset() == summary_names(names@).to_multiset(),
        forall|a: int|
            0 <= a < sorted@.len() ==> (#[trigger] sorted@[a]).1 == dest_count(
                departures@,
                sorted@[a].0@,
            ),
        forall|a: int|
            0 <= a < sorted@.len() - 1 ==> #[trigger] summary_ordered_at(summary_view(sorted@), a),
{
    broadcast use vstd::seq_lib::group_to_multiset_ensures;

    let mut sorted: Vec<(String, usize)> = Vec::new();
    let mut k: usize = 0;
    while k < names.len()
        invariant
            k <= names@.len(),
            forall|a: int|
                0 <= a < names@.len() ==> (#[trigger] names@[a]).1 == dest_count(
                    departures@,
                    names@[a].0@,
                ),
            summary_names(sorted@).to_multiset() == summary_names(names@.take(k as int)).to_multiset(),
            forall|a: int|
                0 <= a < sorted@.len() ==> (#[trigger] sorted@[a]).1 == dest_count(
                    departures@,
                    sorted@[a].0@,
                ),
            forall|a: int|
                0 <= a < sorted@.len() - 1 ==> #[trigger] summary_ordered_at(summary_view(sorted@), a),
        decreases names@.len() - k,
    {
        let x_name = names[k].0.as_str();
        let x_count = names[k].1;
        let ghost x = (x_name@, x_count as nat);
        let mut p: usize = 0;
        while p < sorted.len() && !(x_count > sorted[p].1 || (x_count == sorted[p].1
            && crate::order::str_lt(x_name, sorted[p].0.as_str())))
            invariant
                p <= sorted@.len(),
                x == (x_name@, x_count as nat),
                forall|q: int| 0 <= q < p ==> !summary_before(x, #[trigger] summary_view(sorted@)[q]),
            decreases sorted@.len() - p,
        {
            p = p + 1;
        }
        let ghost before = sorted@;
        let ghost before_view = summary_view(sorted@);
        let ghost before_names = summary_names(sorted@);
        proof {
            if p < before_view.len() {
                lemma_summary_before_asymmetric(x, before_view[p as int]);
            }
        }
        sorted.insert(p, (owned(x_name), x_count));
        proof {
            assert(summary_view(sorted@) =~= before_view.insert(p as int, x));
            assert(summary_names(sorted@) =~= before_names.insert(p as int, x_name@));
            vstd::seq_lib::to_multiset_insert(before_names, p as int, x_name@);
            assert(names@.take(k + 1) =~= names@.take(k as int).push(names@[k as int]));
            assert(summary_names(names@.take(k + 1)) =~= summary_names(names@.take(k as int)).push(
                x_name@,
            ));
            vstd::seq_lib::to_multiset_build(summary_names(names@.take(k as int)), x_name@);
            assert forall|a: int| 0 <= a < sorted@.len() implies (#[trigger] sorted@[a]).1
                == dest_count(departures@, sorted@[a].0@) by {
                if a < p {
                    assert(sorted@[a] == before[a]);
                } else if a > p {
                    assert(sorted@[a] == before[a - 1]);
                }
            }
            assert forall|a: int|
                0 <= a < sorted@.len() - 1 implies #[trigger] summary_ordered_at(summary_view(sorted@), a) by {
                let v = summary_view(sorted@);
                if a + 1 < p {
                    assert(summary_ordered_at(before_view, a));
                    assert(v[a] == before_view[a] && v[a + 1] == before_view[a + 1]);
                } else if a + 1 == p {
                    assert(v[a] == before_view[a] && v[a + 1] == x);
                } else if a == p {
                    assert(v[a] == x && v[a + 1] == before_view[a]);
                } else {
                    assert(summary_ordered_at(before_view, a - 1));
                    assert(v[a] == before_view[a - 1] && v[a + 1] == before_view[a]);
                }
            }
        }
        k = k + 1;
    }
    proof {
        assert(names@.take(names@.len() as int) =~= names@);
    }
    sorted
}

/// List the destinations of a panel, most frequent first.
///
/// The result holds the destinations of the panel's departures and
/// bands, each once; adjacent entries are in order of falling departure
/// count and then by name.
pub fn summarize_destinations(departures: &Vec<TimetableDeparture>, bands: &Vec<FrequencyNote>) -> (r:
    Vec<String>)
    ensures
        string_views(r@).to_multiset() == panel_dests(departures@, bands@).to_multiset(),
        forall|i: int| 0 <= i < r@.len() - 1 ==> #[trigger] summary_ordered_at(counted(r@, departures@), i),
{
    let mut names = count_destinations(departures);
    add_band_destinations(&mut names, departures, bands);
    let sorted = sort_summary(&names, departures);
    let mut out: Vec<String> = Vec::new();
    let mut m: usize = 0;
    while m < sorted.len()
        invariant
            m <= sorted@.len(),
            out@.len() == m,
            forall|a: int| 0 <= a < m ==> (#[trigger] out@[a])@ == sorted@[a].0@,
        decreases sorted@.len() - m,
    {
        out.push(owned(sorted[m].0.as_str()));
        m = m + 1;
    }
    proof {
        assert(string_views(out@) =~= summary_names(sorted@));
        assert forall|i: int| 0 <= i < out@.len() - 1 implies #[trigger] summary_ordered_at(counted(out@, departures@), i) by {
            assert(summary_ordered_at(summary_view(sorted@), i));
            assert(summary_view(sorted@)[i] == (sorted@[i].0@, sorted@[i].1 as nat));
            assert(summary_view(sorted@)[i + 1] == (sorted@[i + 1].0@, sorted@[i + 1].1 as nat));
        }
    }
    out
}

proof fn lemma_dest_count_absent(deps: Seq<TimetableDeparture>, name: Seq<char>)
    ensures
        (forall|k: int| 0 <= k < deps.len() ==> (#[trigger] deps[k]).destination_full@ != name)
            ==> dest_count(deps, name) == 0,
    decreases deps.len(),
{
    if deps.len() > 0 {
        lemma_dest_count_absent(deps.drop_last(), name);
        if forall|k: int| 0 <= k < deps.len() ==> (#[trigger] deps[k]).destination_full@ != name {
            assert forall|k: int| 0 <= k < deps.drop_last().len() implies (#[trigger] deps.drop_last()[k]).destination_full@ != name by {
                assert(deps.drop_last()[k] == deps[k]);
            }
        }
    }
}

/// The heading of a direction panel: the configured override, then the
/// destinations that the panel carries, then the plain direction
/// number. It never guesses a compass bearing.
pub open spec fn heading_spec(
    line: LineView,
    direction: Option<u8>,
    dests: Seq<String>,
    config: PublicationConfig,
    labels: Labels,
) -> Seq<char> {
    match table_get(
        config.labels.direction_overrides@,
        direction_key_text(line.route_id@, direction),
    ) {
        Some(t) => localized_get(t, config.language),
        None => if dests.len() == 0 {
            direction_text(labels.language, direction)
        } else if dests.len() == 1 {
            towards_text(labels.language, dests[0]@)
        } else if dests.len() <= 3 {
            towards_text(labels.language, join(string_views(dests), " / "@))
        } else {
            towards_text(
                labels.language,
                join(string_views(dests.take(3)), " / "@) + " \u{2026}"@,
            )
        },
    }
}

/// Build the heading of a direction panel.
pub fn direction_heading(
    line: &LineView,
    direction: Option<u8>,
    destinations: &Vec<String>,
    config: &PublicationConfig,
    labels: &Labels,
) -> (r: String)
    ensures
        r@ == heading_spec(*line, direction, destinations@, *config, *labels),
{
    match config.labels.direction_override(line.route_id.as_str(), direction, config.language) {
        Some(text) => return text,
        None => {},
    }
    let n = destinations.len();
    if n == 0 {
        labels.direction_number(direction)
    } else if n == 1 {
        labels.towards(destinations[0].as_str())
    } else if n <= 3 {
        let joined = join_strings(destinations, " / ");
        labels.towards(joined.as_str())
    } else {
        let mut first: Vec<String> = Vec::new();
        first.push(owned(destinations[0].as_str()));
        first.push(owned(destinations[1].as_str()));
        first.push(owned(destinations[2].as_str()));
        proof {
            assert(string_views(first@) =~= string_views(destinations@.take(3)));
        }
        let mut joined = join_strings(&first, " / ");
        push_str(&mut joined, " \u{2026}");
        labels.towards(joined.as_str())
    }
}

/// The grouping key of a panel.
#[derive(Clone, Debug)]
pub struct PanelKey {
    /// The line.
    pub line: usize,
    /// The platform, where panels are split by platform.
    pub platform: Option<String>,
    /// The direction as a sort key: a stated direction first.
    pub direction_order: u8,
    /// The GTFS direction.
    pub direction: Option<u8>,
    /// The destination, where panels are split by destination.
    pub destination: Option<String>,
}

/// The parts of a panel key, before they are joined with hyphens.
pub open spec fn panel_key_parts(line_key: Seq<char>, key: PanelKey) -> Seq<Seq<char>> {
    let a = seq![line_key, match key.direction {
        Some(v) => seq!['d'] + decimal(v as nat),
        None => "dx"@,
    }];
    let b = match key.platform {
        Some(p) => a.push(seq!['p'] + css_key_spec(p@)),
        None => a,
    };
    match key.destination {
        Some(d) => b.push(css_key_spec(d@)),
        None => b,
    }
}

/// Build a stable HTML-safe key for a panel.
pub fn panel_key(line: &LineView, key: &PanelKey) -> (r: String)
    ensures
        r@ == join(panel_key_parts(line.key@, *key), seq!['-']),
{
    let ghost mut parts: Seq<Seq<char>> = seq![line.key@];
    let mut out = owned(line.key.as_str());
    push_char(&mut out, '-');
    match key.direction {
        Some(v) => {
            push_char(&mut out, 'd');
            push_decimal(&mut out, v as u64);
        },
        None => push_str(&mut out, "dx"),
    }
    proof {
        let q = parts.push(
            match key.direction {
                Some(v) => seq!['d'] + decimal(v as nat),
                None => "dx"@,
            },
        );
        assert(q.drop_last() =~= parts);
        assert(join(parts, seq!['-']) == line.key@);
        assert(join(q, seq!['-']) == join(parts, seq!['-']) + seq!['-'] + q.last());
        parts = q;
        assert(out@ =~= join(parts, seq!['-']));
    }
    match &key.platform {
        Some(p) => {
            push_char(&mut out, '-');
            push_char(&mut out, 'p');
            push_str(&mut out, css_key(p.as_str()).as_str());
            proof {
                let q = parts.push(seq!['p'] + css_key_spec(p@));
                assert(q.drop_last() =~= parts);
                parts = q;
                assert(out@ =~= join(parts, seq!['-']));
            }
        },
        None => {},
    }
    match &key.destination {
        Some(d) => {
            push_char(&mut out, '-');
            push_str(&mut out, css_key(d.as_str()).as_str());
            proof {
                let q = parts.push(css_key_spec(d@));
                assert(q.drop_last() =~= parts);
                parts = q;
                assert(out@ =~= join(parts, seq!['-']));
            }
        },
        None => {},
    }
    proof {
        assert(parts =~= panel_key_parts(line.key@, *key));
    }
    out
}

// ----------------------------------------------------------------------
// The legend
// ----------------------------------------------------------------------

/// Whether a departure carries a flag.
pub open spec fn departure_has(d: TimetableDeparture, f: DepartureFlag) -> bool {
    exists|k: int| 0 <= k < d.flags@.len() && d.flags@[k] == f
}

/// Whether a departure of an hour row carries a flag.
pub open spec fn group_has(g: HourGroup, f: DepartureFlag) -> bool {
    exists|k: int| 0 <= k < g.departures@.len() && departure_has(g.departures@[k], f)
}

/// Whether a departure of a panel carries a flag.
pub open spec fn panel_has(p: TimetablePanel, f: DepartureFlag) -> bool {
    exists|k: int| 0 <= k < p.hour_groups@.len() && group_has(p.hour_groups@[k], f)
}

/// Whether a departure of any panel carries a flag.
pub open spec fn flag_used(ps: Seq<TimetablePanel>, f: DepartureFlag) -> bool {
    exists|k: int| 0 <= k < ps.len() && panel_has(ps[k], f)
}

fn departure_carries(d: &TimetableDeparture, f: DepartureFlag) -> (b: bool)
    ensures
        b == departure_has(*d, f),
{
    let mut i: usize = 0;
    while i < d.flags.len()
        invariant
            i <= d.flags@.len(),
            forall|k: int| 0 <= k < i ==> d.flags@[k] != f,
        decreases d.flags@.len() - i,
    {
        if d.flags[i].rank() == f.rank() {
            return true;
        }
        i = i + 1;
    }
    false
}

fn group_carries(g: &HourGroup, f: DepartureFlag) -> (b: bool)
    ensures
        b == group_has(*g, f),
{
    let mut i: usize = 0;
    while i < g.departures.len()
        invariant
            i <= g.departures@.len(),
            forall|k: int| 0 <= k < i ==> !departure_has(g.departures@[k], f),
        decreases g.departures@.len() - i,
    {
        if departure_carries(&g.departures[i], f) {
            return true;
        }
        i = i + 1;
    }
    false
}

fn panel_carries(p: &TimetablePanel, f: DepartureFlag) -> (b: bool)
    ensures
        b == panel_has(*p, f),
{
    let mut i: usize = 0;
    while i < p.hour_groups.len()
        invariant
            i <= p.hour_groups@.len(),
            forall|k: int| 0 <= k < i ==> !group_has(p.hour_groups@[k], f),
        decreases p.hour_groups@.len() - i,
    {
        if group_carries(&p.hour_groups[i], f) {
            return true;
        }
        i = i + 1;
    }
    false
}

fn flag_in_use(panels: &Vec<TimetablePanel>, f: DepartureFlag) -> (b: bool)
    ensures
        b == flag_used(panels@, f),
{
    let mut i: usize = 0;
    while i < panels.len()
        invariant
            i <= panels@.len(),
            forall|k: int| 0 <= k < i ==> !panel_has(panels@[k], f),
        decreases panels@.len() - i,
    {
        if panel_carries(&panels[i], f) {
            return true;
        }
        i = i + 1;
    }
    false
}

/// The legend entry of a flag.
pub open spec fn flag_entry(f: DepartureFlag, labels: Labels) -> (Seq<char>, Option<Seq<char>>, Seq<char>) {
    (flag_key(f), Some(flag_symbol(f)), flag_explanation(f, labels))
}

/// The view of a legend entry.
pub open spec fn legend_view(item: LegendItem) -> (Seq<char>, Option<Seq<char>>, Seq<char>) {
    (item.key@, opt_view(item.symbol), item.label@)
}

/// The legend of a timetable: the flags the panels use, in flag order,
/// then the platform entry where a panel names a platform, then the
/// headway entry where a panel carries a band.
pub open spec fn legend_spec(ps: Seq<TimetablePanel>, labels: Labels) -> Seq<
    (Seq<char>, Option<Seq<char>>, Seq<char>),
> {
    let f0 = if flag_used(ps, DepartureFlag::Approximate) {
        seq![flag_entry(DepartureFlag::Approximate, labels)]
    } else {
        Seq::empty()
    };
    let f1 = if flag_used(ps, DepartureFlag::Interpolated) {
        f0.push(flag_entry(DepartureFlag::Interpolated, labels))
    } else {
        f0
    };
    let f2 = if flag_used(ps, DepartureFlag::FirstOfDay) {
        f1.push(flag_entry(DepartureFlag::FirstOfDay, labels))
    } else {
        f1
    };
    let f3 = if flag_used(ps, DepartureFlag::LastOfDay) {
        f2.push(flag_entry(DepartureFlag::LastOfDay, labels))
    } else {
        f2
    };
    let f4 = if flag_used(ps, DepartureFlag::PastMidnight) {
        f3.push(flag_entry(DepartureFlag::PastMidnight, labels))
    } else {
        f3
    };
    let f5 = if exists|k: int| 0 <= k < ps.len() && ps[k].platform_label is Some {
        f4.push(("platform"@, None, labels.legend_platform@))
    } else {
        f4
    };
    if exists|k: int| 0 <= k < ps.len() && ps[k].frequency_notes@.len() > 0 {
        f5.push(("headway"@, None, labels.legend_approximate@))
    } else {
        f5
    }
}

fn push_flag_entry(
    legend: &mut Vec<LegendItem>,
    panels: &Vec<TimetablePanel>,
    f: DepartureFlag,
    labels: &Labels,
)
    ensures
        final(legend)@.map_values(|i: LegendItem| legend_view(i)) == if flag_used(panels@, f) {
            old(legend)@.map_values(|i: LegendItem| legend_view(i)).push(flag_entry(f, *labels))
        } else {
            old(legend)@.map_values(|i: LegendItem| legend_view(i))
        },
{
    let ghost before = legend@;
    if flag_in_use(panels, f) {
        legend.push(LegendItem::with_symbol(f.key(), f.symbol(), f.explanation(labels)));
        proof {
            assert(legend@.map_values(|i: LegendItem| legend_view(i)) =~= before.map_values(
                |i: LegendItem| legend_view(i),
            ).push(flag_entry(f, *labels)));
        }
    }
}

/// Build the legend from the marks that the panels actually use.
pub fn build_legend(panels: &Vec<TimetablePanel>, labels: &Labels) -> (r: Vec<LegendItem>)
    ensures
        r@.map_values(|i: LegendItem| legend_view(i)) == legend_spec(panels@, *labels),
{
    let mut legend: Vec<LegendItem> = Vec::new();
    proof {
        assert(legend@.map_values(|i: LegendItem| legend_view(i)) =~= Seq::<
            (Seq<char>, Option<Seq<char>>, Seq<char>),
        >::empty());
    }
    push_flag_entry(&mut legend, panels, DepartureFlag::Approximate, labels);
    push_flag_entry(&mut legend, panels, DepartureFlag::Interpolated, labels);
    push_flag_entry(&mut legend, panels, DepartureFlag::FirstOfDay, labels);
    push_flag_entry(&mut legend, panels, DepartureFlag::LastOfDay, labels);
    push_flag_entry(&mut legend, panels, DepartureFlag::PastMidnight, labels);
    let ghost flags_part = legend@.map_values(|i: LegendItem| legend_view(i));
    let mut platform = false;
    let mut headway = false;
    let mut i: usize = 0;
    while i < panels.len()
        invariant
            i <= panels@.len(),
            platform == exists|k: int| 0 <= k < i && panels@[k].platform_label is Some,
            headway == exists|k: int| 0 <= k < i && panels@[k].frequency_notes@.len() > 0,
        decreases panels@.len() - i,
    {
        if panels[i].platform_label.is_some() {
            platform = true;
        }
        if panels[i].frequency_notes.len() > 0 {
            headway = true;
        }
        i = i + 1;
    }
    let ghost before = legend@;
    if platform {
        legend.push(LegendItem::plain("platform", labels.legend_platform));
        proof {
            assert(legend@.map_values(|i: LegendItem| legend_view(i)) =~= before.map_values(
                |i: LegendItem| legend_view(i),
            ).push(("platform"@, None, labels.legend_platform@)));
        }
    }
    let ghost before2 = legend@;
    if headway {
        legend.push(LegendItem::plain("headway", labels.legend_approximate));
        proof {
            assert(legend@.map_values(|i: LegendItem| legend_view(i)) =~= before2.map_values(
                |i: LegendItem| legend_view(i),
            ).push(("headway"@, None, labels.legend_approximate@)));
        }
    }
    legend
}

// ----------------------------------------------------------------------
// Collecting the departures
// ----------------------------------------------------------------------

/// Whether call `c` of a run enters the timetable of a station: it is
/// at the station, a passenger can board there, and its departure falls
/// inside the service day.
pub open spec fn qualifies(trip: TripInstance, c: int, station: usize, start: GtfsTime, end: GtfsTime) -> bool {
    &&& 0 <= c < trip.calls@.len()
    &&& trip.calls@[c].station == station
    &&& boardable_spec(trip, c) matches Some(t) && start.secs <= t.secs && t.secs < end.secs
}

/// The calls among the first `n` of a run that enter the timetable.
pub open spec fn calls_from(trip: TripInstance, station: usize, start: GtfsTime, end: GtfsTime, n: int) -> Seq<int>
    decreases n,
{
    if n <= 0 {
        Seq::empty()
    } else {
        calls_from(trip, station, start, end, n - 1) + if qualifies(trip, n - 1, station, start, end) {
            seq![n - 1]
        } else {
            Seq::empty()
        }
    }
}

/// The calls of a list of runs that enter the timetable, as run and
/// call indexes, in run order and then call order.
pub open spec fn qualifying(trips: Seq<TripInstance>, station: usize, start: GtfsTime, end: GtfsTime) -> Seq<(int, int)>
    decreases trips.len(),
{
    if trips.len() == 0 {
        Seq::empty()
    } else {
        let t = trips.len() - 1;
        qualifying(trips.drop_last(), station, start, end) + calls_from(
            trips.last(),
            station,
            start,
            end,
            trips.last().calls@.len() as int,
        ).map_values(|c: int| (t, c))
    }
}

/// One departure with the key of its panel and the marks it carries
/// before the first and last departures are known.
#[derive(Clone, Debug)]
pub struct Collected {
    /// The key of the panel.
    pub key: PanelKey,
    /// The departure.
    pub departure: TimetableDeparture,
    /// The time comes from a headway.
    pub approximate: bool,
    /// The time was computed or is marked approximate by the feed.
    pub interpolated: bool,
    /// The departure falls after midnight.
    pub past_midnight: bool,
}

/// The abbreviated form of a destination.
pub open spec fn abbreviated(config: PublicationConfig, dest: Seq<char>) -> Seq<char> {
    match table_get(config.labels.destination_abbreviations@, dest) {
        Some(short) => short@,
        None => dest,
    }
}

/// The panel key of a departure.
pub open spec fn key_matches(
    k: PanelKey,
    line: usize,
    direction: Option<u8>,
    platform: Option<Seq<char>>,
    dest: Seq<char>,
    config: PublicationConfig,
) -> bool {
    &&& k.line == line
    &&& opt_view(k.platform) == if config.timetable.group_by_platform {
        platform
    } else {
        None
    }
    &&& k.direction_order == match direction {
        Some(v) => v,
        None => 255u8,
    }
    &&& k.direction == direction
    &&& opt_view(k.destination) == if config.timetable.split_by_destination {
        Some(dest)
    } else {
        None
    }
}

/// What a collected departure says of call `c` of a run.
pub open spec fn collected_matches(
    e: Collected,
    network: RailNetwork,
    trip: TripInstance,
    c: int,
    config: PublicationConfig,
    labels: Labels,
) -> bool {
    let t = boardable_spec(trip, c)->0;
    let call = trip.calls@[c];
    let dest = destination_spec(network, trip, c, config, labels);
    let d = e.departure;
    &&& d.scheduled_time == t
    &&& d.display_minute as int == (t.secs / 60) % 60
    &&& d.display_seconds == seconds_spec(t, config.timetable.seconds)
    &&& d.destination@ == abbreviated(config, dest)
    &&& d.destination_full@ == dest
    &&& opt_view(d.platform) == platform_spec(call, config)
    &&& opt_view(d.trip_short_name) == if config.timetable.show_trip_short_name {
        opt_view(trip.short_name)
    } else {
        None
    }
    &&& d.source_trip_id@ == trip.source_trip_id@
    &&& d.instance_id@ == trip.instance_id@
    &&& d.exactness == trip.exactness
    &&& d.flags@.len() == 0
    &&& e.approximate == (trip.exactness == TimeExactness::Approximate)
    &&& e.interpolated == (call.time_quality == crate::schedule::TimeQuality::Interpolated
        || call.time_quality == crate::schedule::TimeQuality::Approximate)
    &&& e.past_midnight == (t.secs / 3600 >= 24)
    &&& key_matches(e.key, trip.line, trip.direction, platform_spec(call, config), dest, config)
}

fn copy_opt(s: &Option<String>) -> (r: Option<String>)
    ensures
        opt_view(r) == opt_view(*s),
{
    match s {
        Some(x) => Some(owned(x.as_str())),
        None => None,
    }
}

fn collect_call(
    network: &RailNetwork,
    trip: &TripInstance,
    index: usize,
    time: GtfsTime,
    config: &PublicationConfig,
    labels: &Labels,
) -> (e: Collected)
    requires
        index < trip.calls@.len(),
        crate::schedule::trip_in_network(*network, *trip),
        boardable_spec(*trip, index as int) == Some(time),
    ensures
        collected_matches(e, *network, *trip, index as int, *config, *labels),
{
    let call = &trip.calls[index];
    let destination = resolve_destination(network, trip, index, config, labels);
    let platform = resolve_platform(call, config);
    let key = PanelKey {
        line: trip.line,
        platform: if config.timetable.group_by_platform {
            copy_opt(&platform)
        } else {
            None
        },
        direction_order: match trip.direction {
            Some(v) => v,
            None => 255,
        },
        direction: trip.direction,
        destination: if config.timetable.split_by_destination {
            Some(owned(destination.as_str()))
        } else {
            None
        },
    };
    let interpolated = match call.time_quality {
        crate::schedule::TimeQuality::Interpolated => true,
        crate::schedule::TimeQuality::Approximate => true,
        _ => false,
    };
    let departure = TimetableDeparture {
        scheduled_time: time,
        display_minute: time.minutes() as u8,
        display_seconds: seconds_for(time, config.timetable.seconds),
        destination: owned(config.labels.abbreviate(destination.as_str())),
        destination_full: destination,
        platform,
        trip_short_name: if config.timetable.show_trip_short_name {
            copy_opt(&trip.short_name)
        } else {
            None
        },
        source_trip_id: owned(trip.source_trip_id.as_str()),
        instance_id: owned(trip.instance_id.as_str()),
        exactness: trip.exactness,
        flags: Vec::new(),
    };
    Collected {
        key,
        departure,
        approximate: match trip.exactness {
            TimeExactness::Approximate => true,
            TimeExactness::Exact => false,
        },
        interpolated,
        past_midnight: time.hours() >= 24,
    }
}

/// Whether a collected departure describes one qualifying call.
pub open spec fn collected_for(
    e: Collected,
    q: (int, int),
    trips: Seq<TripInstance>,
    network: RailNetwork,
    config: PublicationConfig,
    labels: Labels,
) -> bool {
    0 <= q.0 < trips.len() && collected_matches(e, network, trips[q.0], q.1, config, labels)
}

/// Collect the departures of a station from the runs of a query, in
/// run order and then call order: exactly the calls that
/// [`qualifies`] admits, each described by [`collected_matches`].
pub fn collect_departures(
    network: &RailNetwork,
    trips: &Vec<TripInstance>,
    station: usize,
    start: GtfsTime,
    end: GtfsTime,
    config: &PublicationConfig,
    labels: &Labels,
) -> (r: Vec<Collected>)
    requires
        forall|t: int| 0 <= t < trips@.len() ==> crate::schedule::trip_in_network(*network, #[trigger] trips@[t]),
    ensures
        r@.len() == qualifying(trips@, station, start, end).len(),
        forall|i: int|
            0 <= i < r@.len() ==> collected_for(
                #[trigger] r@[i],
                qualifying(trips@, station, start, end)[i],
                trips@,
                *network,
                *config,
                *labels,
            ),
{
    let mut out: Vec<Collected> = Vec::new();
    let mut t: usize = 0;
    while t < trips.len()
        invariant
            t <= trips@.len(),
            forall|u: int| 0 <= u < trips@.len() ==> crate::schedule::trip_in_network(*network, #[trigger] trips@[u]),
            out@.len() == qualifying(trips@.take(t as int), station, start, end).len(),
            forall|i: int|
                0 <= i < out@.len() ==> collected_for(
                    #[trigger] out@[i],
                    qualifying(trips@.take(t as int), station, start, end)[i],
                    trips@,
                    *network,
                    *config,
                    *labels,
                ),
        decreases trips@.len() - t,
    {
        let trip = &trips[t];
        let ghost prefix = qualifying(trips@.take(t as int), station, start, end);
        proof {
            assert(trips@.take(t + 1).drop_last() =~= trips@.take(t as int));
            assert(trips@.take(t + 1).last() == trips@[t as int]);
        }
        let mut c: usize = 0;
        while c < trip.calls.len()
            invariant
                c <= trip.calls@.len(),
                *trip == trips@[t as int],
                t < trips@.len(),
                crate::schedule::trip_in_network(*network, *trip),
                prefix == qualifying(trips@.take(t as int), station, start, end),
                out@.len() == prefix.len() + calls_from(*trip, station, start, end, c as int).len(),
                forall|i: int|
                    0 <= i < prefix.len() ==> collected_for(
                        #[trigger] out@[i],
                        prefix[i],
                        trips@,
                        *network,
                        *config,
                        *labels,
                    ),
                forall|i: int|
                    prefix.len() <= i < out@.len() ==> collected_matches(
                        #[trigger] out@[i],
                        *network,
                        *trip,
                        calls_from(*trip, station, start, end, c as int)[i - prefix.len()],
                        *config,
                        *labels,
                    ),
            decreases trip.calls@.len() - c,
        {
            let ghost before = out@;
            if trip.calls[c].station == station {
                match boardable_departure(trip, c) {
                    Some(time) => {
                        if start.secs <= time.secs && time.secs < end.secs {
                            let e = collect_call(network, trip, c, time, config, labels);
                            out.push(e);
                        }
                    },
                    None => {},
                }
            }
            proof {
                let cf = calls_from(*trip, station, start, end, c + 1);
                assert(cf == calls_from(*trip, station, start, end, c as int) + if qualifies(*trip, c as int, station, start, end) {
                    seq![c as int]
                } else {
                    Seq::empty()
                });
                assert forall|i: int| prefix.len() <= i < out@.len() implies collected_matches(
                    #[trigger] out@[i],
                    *network,
                    *trip,
                    cf[i - prefix.len()],
                    *config,
                    *labels,
                ) by {
                    if i < before.len() {
                        assert(out@[i] == before[i]);
                    }
                }
                assert forall|i: int| 0 <= i < prefix.len() implies collected_for(
                    #[trigger] out@[i],
                    prefix[i],
                    trips@,
                    *network,
                    *config,
                    *labels,
                ) by {
                    assert(out@[i] == before[i]);
                }
            }
            c = c + 1;
        }
        proof {
            let cf = calls_from(*trip, station, start, end, trip.calls@.len() as int);
            let whole = qualifying(trips@.take(t + 1), station, start, end);
            assert(whole == prefix + cf.map_values(|cc: int| (t as int, cc)));
            assert forall|i: int| 0 <= i < out@.len() implies collected_for(
                #[trigger] out@[i],
                whole[i],
                trips@,
                *network,
                *config,
                *labels,
            ) by {
                if i >= prefix.len() {
                    assert(whole[i] == (t as int, cf[i - prefix.len()]));
                } else {
                    assert(whole[i] == prefix[i]);
                }
            }
        }
        t = t + 1;
    }
    proof {
        assert(trips@.take(trips@.len() as int) =~= trips@);
    }
    out
}

// ----------------------------------------------------------------------
// Collecting the bands
// ----------------------------------------------------------------------

/// The first call of a band's template at a station that has a later
/// call after it.
pub open spec fn band_call_from(b: crate::schedule::FrequencyBand, station: usize, i: int) -> Option<int>
    decreases b.template@.len() - i,
{
    if i < 0 || i + 1 >= b.template@.len() {
        None
    } else if b.template@[i].station == station {
        Some(i)
    } else {
        band_call_from(b, station, i + 1)
    }
}

/// The seconds from the first call of a band's template to call `i`.
pub open spec fn band_offset(b: crate::schedule::FrequencyBand, i: int) -> int {
    match (
        departure_or_arrival_of(b.template@[i]),
        crate::schedule::arrival_or_departure_of(b.template@[0]),
    ) {
        (Some(here), Some(first)) => if here.secs >= first.secs {
            here.secs - first.secs
        } else {
            0
        },
        _ => 0,
    }
}

/// A band whose times stay on the clock when they are moved to any
/// call of its template.
pub open spec fn band_fits(b: crate::schedule::FrequencyBand) -> bool {
    forall|i: int|
        0 <= i < b.template@.len() ==> (departure_or_arrival_of(#[trigger] b.template@[i]) matches Some(
            t,
        ) ==> b.start.secs + t.secs <= u32::MAX && b.end.secs + t.secs <= u32::MAX)
}

/// The destination of a band: its headsign, the headsign of its call at
/// the station, or the name of the last station of its template.
pub open spec fn band_destination(network: RailNetwork, b: crate::schedule::FrequencyBand, i: int) -> Seq<char> {
    match b.headsign {
        Some(h) => h@,
        None => match b.template@[i].stop_headsign {
            Some(h) => h@,
            None => if b.template@.len() > 0 {
                network.stations@[b.template@.last().station as int].name@
            } else {
                Seq::empty()
            },
        },
    }
}

/// The service hours from `from` to `to`, both included, that fall on
/// the rows of the service day.
pub open spec fn band_hours(from: int, to: int, first: int, end: int) -> Seq<u32>
    decreases to - from + 1,
{
    if from > to {
        Seq::empty()
    } else {
        band_hours(from, to - 1, first, end) + if first <= to && to < end {
            seq![to as u32]
        } else {
            Seq::empty()
        }
    }
}

/// One band with the key of its panel and the platform of its call.
#[derive(Clone, Debug)]
pub struct CollectedBand {
    /// The key of the panel.
    pub key: PanelKey,
    /// The platform of the band's call at the station.
    pub platform: Option<String>,
    /// The timetable row.
    pub note: FrequencyNote,
}

/// What a collected band says of a headway block.
pub open spec fn band_matches(
    e: CollectedBand,
    network: RailNetwork,
    b: crate::schedule::FrequencyBand,
    station: usize,
    day_start: GtfsTime,
    day_end: GtfsTime,
    config: PublicationConfig,
    labels: Labels,
) -> bool {
    let i = band_call_from(b, station, 0)->0;
    let call = b.template@[i];
    let dest = band_destination(network, b, i);
    let start = b.start.secs + band_offset(b, i);
    let end = b.end.secs + band_offset(b, i);
    &&& opt_view(e.platform) == platform_spec(call, config)
    &&& key_matches(e.key, b.line, b.direction, platform_spec(call, config), dest, config)
    &&& e.note.band_id@ == b.band_id@
    &&& e.note.start.secs == start
    &&& e.note.end.secs == end
    &&& e.note.headway_minutes == b.headway_secs / 60
    &&& e.note.destination@ == abbreviated(config, dest)
    &&& e.note.text@ == crate::text::headway_text(
        labels.language,
        crate::common::hhmm_text(start as nat),
        crate::common::hhmm_text(end as nat),
        (b.headway_secs / 60) as nat,
    )
    &&& e.note.service_hours@ == band_hours(
        start / 3600,
        end / 3600,
        (day_start.secs / 3600) as int,
        rows_end(day_end),
    )
}

/// Whether a band reaches the timetable of a station: a call of its
/// template is at the station with a later call after it, and
/// passengers may board there.
pub open spec fn band_qualifies(b: crate::schedule::FrequencyBand, station: usize) -> bool {
    band_call_from(b, station, 0) matches Some(i) && b.template@[i].pickup_allowed
}

/// The bands that reach the timetable of a station, by index.
pub open spec fn qualifying_bands(bands: Seq<crate::schedule::FrequencyBand>, station: usize) -> Seq<int>
    decreases bands.len(),
{
    if bands.len() == 0 {
        Seq::empty()
    } else {
        qualifying_bands(bands.drop_last(), station) + if band_qualifies(bands.last(), station) {
            seq![bands.len() - 1]
        } else {
            Seq::empty()
        }
    }
}

proof fn lemma_band_call(b: crate::schedule::FrequencyBand, station: usize, i: int)
    requires
        0 <= i,
    ensures
        band_call_from(b, station, i) matches Some(k) ==> i <= k && k + 1 < b.template@.len()
            && b.template@[k].station == station,
    decreases b.template@.len() - i,
{
    if i + 1 < b.template@.len() && b.template@[i].station != station {
        lemma_band_call(b, station, i + 1);
    }
}

/// The hour after the last hour row of a day that ends at `t`: the
/// hour of the day's last second, plus one, so that a day ending off
/// the hour still has a row for its last departures.
pub open spec fn rows_end(t: GtfsTime) -> int {
    (t.secs + 3599) / 3600
}

/// Compute [`rows_end`].
pub fn rows_end_hour(t: GtfsTime) -> (h: u32)
    ensures
        h == rows_end(t),
{
    let q = t.secs / 3600;
    let r = t.secs % 3600;
    proof {
        assert(q * 3600 + r == t.secs && 0 <= r < 3600) by (nonlinear_arith)
            requires
                q == t.secs / 3600,
                r == t.secs % 3600,
        ;
        assert(r == 0 ==> (t.secs + 3599) / 3600 == q) by (nonlinear_arith)
            requires
                q * 3600 + r == t.secs,
                0 <= r < 3600,
        ;
        assert(r > 0 ==> (t.secs + 3599) / 3600 == q + 1) by (nonlinear_arith)
            requires
                q * 3600 + r == t.secs,
                0 <= r < 3600,
        ;
        assert(q < 4294967295) by (nonlinear_arith)
            requires
                q == t.secs / 3600,
                t.secs <= 4294967295,
        ;
    }
    if r == 0 {
        q
    } else {
        q + 1
    }
}

fn hours_between(from: u32, to: u32, first: u32, end: u32) -> (r: Vec<u32>)
    ensures
        r@ == band_hours(from as int, to as int, first as int, end as int),
{
    let mut out: Vec<u32> = Vec::new();
    let mut h: u64 = from as u64;
    proof {
        assert(band_hours(from as int, from - 1, first as int, end as int) =~= Seq::<u32>::empty());
    }
    while h <= to as u64
        invariant
            from <= h <= to as int + 1 || (from > to && h == from),
            out@ == band_hours(from as int, h - 1, first as int, end as int),
        decreases to as int + 1 - h,
    {
        if first as u64 <= h && h < end as u64 {
            out.push(h as u32);
        }
        proof {
            assert(out@ =~= band_hours(from as int, h as int, first as int, end as int));
        }
        h = h + 1;
    }
    proof {
        if from > to {
            assert(band_hours(from as int, to as int, first as int, end as int) =~= Seq::<u32>::empty());
        }
    }
    out
}

fn find_band_call(band: &crate::schedule::FrequencyBand, station: usize) -> (r: Option<usize>)
    ensures
        r matches Some(i) ==> band_call_from(*band, station, 0) == Some(i as int),
        r is None ==> band_call_from(*band, station, 0) is None,
{
    let n = band.template.len();
    let mut i: usize = 0;
    while i < n && i + 1 < n && band.template[i].station != station
        invariant
            i <= n,
            n == band.template@.len(),
            band_call_from(*band, station, 0) == band_call_from(*band, station, i as int),
        decreases n - i,
    {
        i = i + 1;
    }
    if i < n && i + 1 < n {
        Some(i)
    } else {
        None
    }
}

fn collect_band(
    network: &RailNetwork,
    band: &crate::schedule::FrequencyBand,
    index: usize,
    day_start: GtfsTime,
    day_end: GtfsTime,
    config: &PublicationConfig,
    labels: &Labels,
) -> (e: CollectedBand)
    requires
        band_call_from(*band, band.template@[index as int].station, 0) == Some(index as int),
        index + 1 < band.template@.len(),
        band_fits(*band),
        forall|i: int| 0 <= i < band.template@.len() ==> (#[trigger] band.template@[i]).station < network.stations@.len(),
    ensures
        band_matches(e, *network, *band, band.template@[index as int].station, day_start, day_end, *config, *labels),
{
    let call = &band.template[index];
    let destination = match &band.headsign {
        Some(h) => owned(h.as_str()),
        None => match &call.stop_headsign {
            Some(h) => owned(h.as_str()),
            None => {
                let last = &band.template[band.template.len() - 1];
                owned(network.stations[last.station].name.as_str())
            },
        },
    };
    let platform = resolve_platform(call, config);
    let offset: u32 = match (call.departure_or_arrival(), band.template[0].arrival_or_departure()) {
        (Some(here), Some(first)) => if here.secs >= first.secs {
            here.secs - first.secs
        } else {
            0
        },
        _ => 0,
    };
    proof {
        assert(departure_or_arrival_of(band.template@[index as int]) matches Some(t) ==> band.start.secs + t.secs <= u32::MAX && band.end.secs + t.secs <= u32::MAX);
    }
    let start = band.start.plus_seconds(offset);
    let end = band.end.plus_seconds(offset);
    let key = PanelKey {
        line: band.line,
        platform: if config.timetable.group_by_platform {
            copy_opt(&platform)
        } else {
            None
        },
        direction_order: match band.direction {
            Some(v) => v,
            None => 255,
        },
        direction: band.direction,
        destination: if config.timetable.split_by_destination {
            Some(owned(destination.as_str()))
        } else {
            None
        },
    };
    let minutes = band.headway_minutes();
    let start_text = crate::common::service_hhmm(start);
    let end_text = crate::common::service_hhmm(end);
    let note = FrequencyNote {
        band_id: owned(band.band_id.as_str()),
        start,
        end,
        headway_minutes: minutes,
        destination: owned(config.labels.abbreviate(destination.as_str())),
        text: labels.headway_band(start_text.as_str(), end_text.as_str(), minutes),
        service_hours: hours_between(start.hours(), end.hours(), day_start.hours(), rows_end_hour(day_end)),
    };
    CollectedBand { key, platform, note }
}

/// Whether a collected band describes band `q` of the first `k`.
pub open spec fn band_entry_ok(
    e: CollectedBand,
    q: int,
    k: int,
    bands: Seq<crate::schedule::FrequencyBand>,
    network: RailNetwork,
    station: usize,
    day_start: GtfsTime,
    day_end: GtfsTime,
    config: PublicationConfig,
    labels: Labels,
) -> bool {
    0 <= q < k && k <= bands.len() && band_matches(e, network, bands[q], station, day_start, day_end, config, labels)
}

/// Collect the bands that reach the timetable of a station, in the
/// order of the query.
pub fn collect_bands(
    network: &RailNetwork,
    bands: &Vec<crate::schedule::FrequencyBand>,
    station: usize,
    day_start: GtfsTime,
    day_end: GtfsTime,
    config: &PublicationConfig,
    labels: &Labels,
) -> (r: Vec<CollectedBand>)
    requires
        forall|k: int| 0 <= k < bands@.len() ==> band_fits(#[trigger] bands@[k]),
        forall|k: int, i: int|
            0 <= k < bands@.len() && 0 <= i < bands@[k].template@.len() ==> (
            #[trigger] bands@[k].template@[i]).station < network.stations@.len(),
    ensures
        r@.len() == qualifying_bands(bands@, station).len(),
        forall|i: int|
            0 <= i < r@.len() ==> band_matches(
                #[trigger] r@[i],
                *network,
                bands@[qualifying_bands(bands@, station)[i]],
                station,
                day_start,
                day_end,
                *config,
                *labels,
            ),
{
    let mut out: Vec<CollectedBand> = Vec::new();
    let mut k: usize = 0;
    while k < bands.len()
        invariant
            k <= bands@.len(),
            forall|q: int| 0 <= q < bands@.len() ==> band_fits(#[trigger] bands@[q]),
            forall|q: int, i: int|
                0 <= q < bands@.len() && 0 <= i < bands@[q].template@.len() ==> (
                #[trigger] bands@[q].template@[i]).station < network.stations@.len(),
            out@.len() == qualifying_bands(bands@.take(k as int), station).len(),
            forall|i: int|
                0 <= i < out@.len() ==> band_entry_ok(
                    #[trigger] out@[i],
                    qualifying_bands(bands@.take(k as int), station)[i],
                    k as int,
                    bands@,
                    *network,
                    station,
                    day_start,
                    day_end,
                    *config,
                    *labels,
                ),
        decreases bands@.len() - k,
    {
        proof {
            assert(bands@.take(k + 1).drop_last() =~= bands@.take(k as int));
        }
        let band = &bands[k];
        let ghost before = out@;
        let ghost prefix = qualifying_bands(bands@.take(k as int), station);
        let found = find_band_call(band, station);
        proof {
            lemma_band_call(*band, station, 0);
        }
        match found {
            Some(index) => {
                proof {
                    assert(band_call_from(*band, station, 0) == Some(index as int));
                }
                if band.template[index].allows_pickup() {
                    proof {
                        assert(band.template@[index as int].station == station);
                        assert forall|j: int| 0 <= j < band.template@.len() implies (#[trigger] band.template@[j]).station < network.stations@.len() by {
                            assert(bands@[k as int].template@[j].station < network.stations@.len());
                        }
                    }
                    let e = collect_band(network, band, index, day_start, day_end, config, labels);
                    out.push(e);
                }
            },
            None => {},
        }
        proof {
            let whole = qualifying_bands(bands@.take(k + 1), station);
            assert(bands@.take(k + 1).last() == bands@[k as int]);
            assert(whole == prefix + if band_qualifies(bands@[k as int], station) {
                seq![k as int]
            } else {
                Seq::empty()
            });
            assert forall|j: int| 0 <= j < out@.len() implies band_entry_ok(
                #[trigger] out@[j],
                whole[j],
                k + 1,
                bands@,
                *network,
                station,
                day_start,
                day_end,
                *config,
                *labels,
            ) by {
                if j < before.len() {
                    assert(out@[j] == before[j]);
                    assert(whole[j] == prefix[j]);
                } else {
                    assert(whole[j] == k);
                }
            }
        }
        k = k + 1;
    }
    proof {
        assert(bands@.take(bands@.len() as int) =~= bands@);
    }
    out
}

// ----------------------------------------------------------------------
// The panels
// ----------------------------------------------------------------------

/// The value of a panel key.
pub open spec fn key_view(k: PanelKey) -> (usize, Option<Seq<char>>, u8, Option<u8>, Option<Seq<char>>) {
    (k.line, opt_view(k.platform), k.direction_order, k.direction, opt_view(k.destination))
}

/// The order of optional texts: none first, then by text.
pub open spec fn opt_text_lt(a: Option<Seq<char>>, b: Option<Seq<char>>) -> bool {
    match (a, b) {
        (None, Some(_)) => true,
        (Some(x), Some(y)) => crate::order::seq_lt(x, y),
        _ => false,
    }
}

/// The order of optional directions: none first, then by number.
pub open spec fn opt_dir_lt(a: Option<u8>, b: Option<u8>) -> bool {
    match (a, b) {
        (None, Some(_)) => true,
        (Some(x), Some(y)) => x < y,
        _ => false,
    }
}

/// The order of panels: by line, platform, stated direction first,
/// direction, and destination.
pub open spec fn key_lt(a: PanelKey, b: PanelKey) -> bool {
    let (al, ap, ao, ad, ae) = key_view(a);
    let (bl, bp, bo, bd, be) = key_view(b);
    al < bl || (al == bl && (opt_text_lt(ap, bp) || (ap == bp && (ao < bo || (ao == bo && (
    opt_dir_lt(ad, bd) || (ad == bd && opt_text_lt(ae, be))))))))
}

proof fn lemma_opt_text_lt(a: Option<Seq<char>>, b: Option<Seq<char>>)
    ensures
        !(opt_text_lt(a, b) && opt_text_lt(b, a)),
        a != b ==> opt_text_lt(a, b) || opt_text_lt(b, a),
{
    match (a, b) {
        (Some(x), Some(y)) => {
            crate::order::lemma_seq_lt_asymmetric(x, y);
            crate::order::lemma_seq_lt_total(x, y);
        },
        _ => {},
    }
}

proof fn lemma_key_lt(a: PanelKey, b: PanelKey)
    ensures
        !(key_lt(a, b) && key_lt(b, a)),
        key_view(a) != key_view(b) ==> key_lt(a, b) || key_lt(b, a),
{
    lemma_opt_text_lt(opt_view(a.platform), opt_view(b.platform));
    lemma_opt_text_lt(opt_view(a.destination), opt_view(b.destination));
}

fn opt_text_lt_exec(a: &Option<String>, b: &Option<String>) -> (r: bool)
    ensures
        r == opt_text_lt(opt_view(*a), opt_view(*b)),
{
    match (a, b) {
        (None, Some(_)) => true,
        (Some(x), Some(y)) => crate::order::str_lt(x.as_str(), y.as_str()),
        _ => false,
    }
}

fn opt_text_eq(a: &Option<String>, b: &Option<String>) -> (r: bool)
    ensures
        r == (opt_view(*a) == opt_view(*b)),
{
    match (a, b) {
        (None, None) => true,
        (Some(x), Some(y)) => crate::textbuf::str_eq(x.as_str(), y.as_str()),
        _ => false,
    }
}

fn opt_dir_lt_exec(a: Option<u8>, b: Option<u8>) -> (r: bool)
    ensures
        r == opt_dir_lt(a, b),
{
    match (a, b) {
        (None, Some(_)) => true,
        (Some(x), Some(y)) => x < y,
        _ => false,
    }
}

/// Report whether one panel key sorts before another.
pub fn panel_key_lt(a: &PanelKey, b: &PanelKey) -> (r: bool)
    ensures
        r == key_lt(*a, *b),
{
    proof {
        lemma_opt_text_lt(opt_view(a.platform), opt_view(b.platform));
        lemma_opt_text_lt(opt_view(a.destination), opt_view(b.destination));
    }
    if a.line != b.line {
        return a.line < b.line;
    }
    if !opt_text_eq(&a.platform, &b.platform) {
        return opt_text_lt_exec(&a.platform, &b.platform);
    }
    if a.direction_order != b.direction_order {
        return a.direction_order < b.direction_order;
    }
    if a.direction != b.direction {
        return opt_dir_lt_exec(a.direction, b.direction);
    }
    opt_text_lt_exec(&a.destination, &b.destination)
}

/// Report whether two panel keys are the same.
pub fn panel_key_eq(a: &PanelKey, b: &PanelKey) -> (r: bool)
    ensures
        r == (key_view(*a) == key_view(*b)),
{
    a.line == b.line && opt_text_eq(&a.platform, &b.platform) && a.direction_order
        == b.direction_order && a.direction == b.direction && opt_text_eq(
        &a.destination,
        &b.destination,
    )
}

fn copy_key(k: &PanelKey) -> (r: PanelKey)
    ensures
        key_view(r) == key_view(*k),
{
    PanelKey {
        line: k.line,
        platform: copy_opt(&k.platform),
        direction_order: k.direction_order,
        direction: k.direction,
        destination: copy_opt(&k.destination),
    }
}

/// Whether a key is the key of a collected departure or band.
pub open spec fn key_in_use(
    deps: Seq<Collected>,
    bands: Seq<CollectedBand>,
    v: (usize, Option<Seq<char>>, u8, Option<u8>, Option<Seq<char>>),
) -> bool {
    (exists|i: int| 0 <= i < deps.len() && key_view(#[trigger] deps[i].key) == v) || (exists|i: int|
        0 <= i < bands.len() && key_view(#[trigger] bands[i].key) == v)
}

/// A list of panel keys in strictly rising order, each once.
pub open spec fn keys_ok(keys: Seq<PanelKey>) -> bool {
    &&& forall|a: int, b: int| 0 <= a < b < keys.len() ==> key_view(keys[a]) != key_view(keys[b])
    &&& forall|a: int| 0 <= a < keys.len() - 1 ==> #[trigger] keys_ordered_at(keys, a)
}

/// Whether a list of panel keys holds a key value.
pub open spec fn has_key(keys: Seq<PanelKey>, v: (usize, Option<Seq<char>>, u8, Option<u8>, Option<Seq<char>>)) -> bool {
    exists|a: int| 0 <= a < keys.len() && key_view(#[trigger] keys[a]) == v
}

fn insert_key(keys: &mut Vec<PanelKey>, k: &PanelKey)
    requires
        keys_ok(old(keys)@),
    ensures
        keys_ok(final(keys)@),
        forall|v| #[trigger] has_key(final(keys)@, v) ==> (has_key(old(keys)@, v) || v == key_view(*k)),
        forall|v| #[trigger] has_key(old(keys)@, v) ==> has_key(final(keys)@, v),
        has_key(final(keys)@, key_view(*k)),
{
    let ghost before = keys@;
    let mut p: usize = 0;
    while p < keys.len() && panel_key_lt(&keys[p], k)
        invariant
            p <= keys@.len(),
            keys@ == before,
            forall|q: int| 0 <= q < p ==> key_lt(#[trigger] keys@[q], *k),
        decreases keys@.len() - p,
    {
        p = p + 1;
    }
    let present = p < keys.len() && panel_key_eq(&keys[p], k);
    if present {
        proof {
            assert(key_view(keys@[p as int]) == key_view(*k));
        }
        return;
    }
    proof {
        assert forall|q: int| 0 <= q < keys@.len() implies key_view(keys@[q]) != key_view(*k) by {
            if q < p {
                lemma_key_lt(keys@[q], *k);
            } else if q > p {
                lemma_key_lt(keys@[p as int], *k);
                lemma_sorted_keys_after(keys@, p as int, q);
                if key_view(keys@[q]) == key_view(*k) {
                    lemma_key_lt_respects_view(keys@[p as int], keys@[q], *k);
                }
            }
        }
    }
    keys.insert(p, copy_key(k));
    proof {
        assert forall|a: int, b: int| 0 <= a < b < keys@.len() implies key_view(keys@[a])
            != key_view(keys@[b]) by {
            if a != p && b != p {
                let ia = if a < p { a } else { a - 1 };
                let ib = if b < p { b } else { b - 1 };
                assert(keys@[a] == before[ia] && keys@[b] == before[ib]);
            } else if a == p {
                assert(keys@[b] == before[b - 1]);
            } else {
                assert(keys@[a] == before[a]);
            }
        }
        assert forall|a: int| 0 <= a < keys@.len() - 1 implies #[trigger] keys_ordered_at(keys@, a) by {
            if a + 1 < p {
                assert(keys_ordered_at(before, a));
                assert(keys@[a] == before[a] && keys@[a + 1] == before[a + 1]);
            } else if a + 1 == p {
                assert(keys@[a] == before[a]);
                lemma_key_lt_respects_view(before[a], *k, keys@[a + 1]);
            } else if a == p {
                assert(keys@[a + 1] == before[a]);
                lemma_key_lt(before[a], *k);
                lemma_key_lt_respects_view_left(*k, keys@[a], before[a]);
            } else {
                assert(keys_ordered_at(before, a - 1));
                assert(keys@[a] == before[a - 1] && keys@[a + 1] == before[a]);
            }
        }
        assert forall|v| has_key(keys@, v) implies (has_key(before, v) || v == key_view(*k)) by {
            let a = choose|a: int| 0 <= a < keys@.len() && key_view(#[trigger] keys@[a]) == v;
            if a < p {
                assert(keys@[a] == before[a]);
            } else if a > p {
                assert(keys@[a] == before[a - 1]);
            }
        }
        assert forall|v| (has_key(before, v) || v == key_view(*k)) implies has_key(keys@, v) by {
            if has_key(before, v) {
                let a = choose|a: int| 0 <= a < before.len() && key_view(#[trigger] before[a]) == v;
                if a < p {
                    assert(keys@[a] == before[a]);
                } else {
                    assert(keys@[a + 1] == before[a]);
                }
            } else {
                assert(key_view(keys@[p as int]) == v);
            }
        }
        assert(has_key(keys@, key_view(*k))) by {
            assert(key_view(keys@[p as int]) == key_view(*k));
        }
    }
}

/// The panel keys of the collected departures and bands: each key once,
/// in key order.
pub fn panel_keys(deps: &Vec<Collected>, bands: &Vec<CollectedBand>) -> (keys: Vec<PanelKey>)
    ensures
        keys_ok(keys@),
        forall|v| #[trigger] has_key(keys@, v) <==> key_in_use(deps@, bands@, v),
{
    let mut keys: Vec<PanelKey> = Vec::new();
    let mut i: usize = 0;
    while i < deps.len()
        invariant
            i <= deps@.len(),
            keys_ok(keys@),
            forall|v| #[trigger] has_key(keys@, v) ==> exists|j: int| 0 <= j < i && key_view(#[trigger] deps@[j].key) == v,
            forall|j: int| 0 <= j < i ==> has_key(keys@, key_view(#[trigger] deps@[j].key)),
        decreases deps@.len() - i,
    {
        let ghost before = keys@;
        insert_key(&mut keys, &deps[i].key);
        proof {
            assert forall|v| #[trigger] has_key(keys@, v) implies exists|j: int| 0 <= j < i + 1 && key_view(#[trigger] deps@[j].key) == v by {
                if v == key_view(deps@[i as int].key) {
                    assert(key_view(deps@[i as int].key) == v);
                } else {
                    assert(has_key(before, v));
                }
            }
            assert forall|j: int| 0 <= j < i + 1 implies has_key(keys@, key_view(#[trigger] deps@[j].key)) by {
                if j < i {
                    assert(has_key(before, key_view(deps@[j].key)));
                }
            }
        }
        i = i + 1;
    }
    let mut j: usize = 0;
    while j < bands.len()
        invariant
            j <= bands@.len(),
            keys_ok(keys@),
            forall|v| #[trigger] has_key(keys@, v) ==> ((exists|q: int| 0 <= q < deps@.len() && key_view(#[trigger] deps@[q].key) == v)
                    || exists|q: int| 0 <= q < j && key_view(#[trigger] bands@[q].key) == v),
            forall|q: int| 0 <= q < deps@.len() ==> has_key(keys@, key_view(#[trigger] deps@[q].key)),
            forall|q: int| 0 <= q < j ==> has_key(keys@, key_view(#[trigger] bands@[q].key)),
        decreases bands@.len() - j,
    {
        let ghost before = keys@;
        insert_key(&mut keys, &bands[j].key);
        proof {
            assert forall|v| #[trigger] has_key(keys@, v) implies ((exists|q: int| 0 <= q < deps@.len() && key_view(#[trigger] deps@[q].key) == v)
                    || exists|q: int| 0 <= q < j + 1 && key_view(#[trigger] bands@[q].key) == v) by {
                if v == key_view(bands@[j as int].key) {
                    assert(key_view(bands@[j as int].key) == v);
                } else {
                    assert(has_key(before, v));
                }
            }
            assert forall|q: int| 0 <= q < deps@.len() implies has_key(keys@, key_view(#[trigger] deps@[q].key)) by {
                assert(has_key(before, key_view(deps@[q].key)));
            }
            assert forall|q: int| 0 <= q < j + 1 implies has_key(keys@, key_view(#[trigger] bands@[q].key)) by {
                if q < j {
                    assert(has_key(before, key_view(bands@[q].key)));
                }
            }
        }
        j = j + 1;
    }
    proof {
        assert forall|v| #[trigger] has_key(keys@, v) <==> key_in_use(deps@, bands@, v) by {
            if key_in_use(deps@, bands@, v) {
                if exists|q: int| 0 <= q < deps@.len() && key_view(#[trigger] deps@[q].key) == v {
                    let q = choose|q: int| 0 <= q < deps@.len() && key_view(#[trigger] deps@[q].key) == v;
                    assert(has_key(keys@, key_view(deps@[q].key)));
                } else {
                    let q = choose|q: int| 0 <= q < bands@.len() && key_view(#[trigger] bands@[q].key) == v;
                    assert(has_key(keys@, key_view(bands@[q].key)));
                }
            }
        }
    }
    keys
}

proof fn lemma_key_lt_respects_view(a: PanelKey, b: PanelKey, c: PanelKey)
    requires
        key_view(b) == key_view(c),
    ensures
        key_lt(a, b) == key_lt(a, c),
{
}

proof fn lemma_key_lt_respects_view_left(a: PanelKey, b: PanelKey, c: PanelKey)
    requires
        key_view(a) == key_view(b),
    ensures
        key_lt(a, c) == key_lt(b, c),
{
}

proof fn lemma_key_lt_transitive(a: PanelKey, b: PanelKey, c: PanelKey)
    requires
        key_lt(a, b),
        key_lt(b, c),
    ensures
        key_lt(a, c),
{
    crate::order::lemma_seq_lt_transitive_all();
}

proof fn lemma_sorted_keys_after(keys: Seq<PanelKey>, p: int, q: int)
    requires
        0 <= p < q < keys.len(),
        forall|a: int| 0 <= a < keys.len() - 1 ==> #[trigger] keys_ordered_at(keys, a),
    ensures
        key_lt(keys[p], keys[q]),
    decreases q - p,
{
    assert(keys_ordered_at(keys, q - 1));
    if q > p + 1 {
        lemma_sorted_keys_after(keys, p, q - 1);
        lemma_key_lt_transitive(keys[p], keys[q - 1], keys[q]);
    }
}

/// Whether one departure sorts before another: by time, then by full
/// destination, then by run.
#[verifier::opaque]
pub open spec fn dep_before(a: TimetableDeparture, b: TimetableDeparture) -> bool {
    a.scheduled_time.secs < b.scheduled_time.secs || (a.scheduled_time.secs == b.scheduled_time.secs
        && (crate::order::seq_lt(a.destination_full@, b.destination_full@) || (a.destination_full@
        == b.destination_full@ && crate::order::seq_lt(a.instance_id@, b.instance_id@))))
}

proof fn lemma_dep_before_asymmetric(a: TimetableDeparture, b: TimetableDeparture)
    ensures
        !(dep_before(a, b) && dep_before(b, a)),
{
    reveal(dep_before);
    crate::order::lemma_seq_lt_asymmetric(a.destination_full@, b.destination_full@);
    crate::order::lemma_seq_lt_asymmetric(a.instance_id@, b.instance_id@);
}

fn dep_before_exec(a: &TimetableDeparture, b: &TimetableDeparture) -> (r: bool)
    ensures
        r == dep_before(*a, *b),
{
    proof {
        reveal(dep_before);
        crate::order::lemma_seq_lt_asymmetric(a.destination_full@, b.destination_full@);
    }
    if a.scheduled_time.secs != b.scheduled_time.secs {
        return a.scheduled_time.secs < b.scheduled_time.secs;
    }
    if !crate::textbuf::str_eq(a.destination_full.as_str(), b.destination_full.as_str()) {
        return crate::order::str_lt(a.destination_full.as_str(), b.destination_full.as_str());
    }
    crate::order::str_lt(a.instance_id.as_str(), b.instance_id.as_str())
}

/// The indexes of the collected departures of one panel, in order.
pub open spec fn key_indices(deps: Seq<Collected>, key: PanelKey, n: int) -> Seq<usize>
    decreases n,
{
    if n <= 0 {
        Seq::empty()
    } else {
        key_indices(deps, key, n - 1) + if key_view(deps[n - 1].key) == key_view(key) {
            seq![(n - 1) as usize]
        } else {
            Seq::empty()
        }
    }
}

proof fn lemma_key_indices(deps: Seq<Collected>, key: PanelKey, n: int)
    requires
        0 <= n <= deps.len(),
        deps.len() <= usize::MAX,
    ensures
        forall|k: int|
            0 <= k < key_indices(deps, key, n).len() ==> #[trigger] key_indices(deps, key, n)[k] < n
                && key_view(deps[key_indices(deps, key, n)[k] as int].key) == key_view(key),
    decreases n,
{
    if n > 0 {
        lemma_key_indices(deps, key, n - 1);
        let r = key_indices(deps, key, n);
        let q = key_indices(deps, key, n - 1);
        assert(r == q + if key_view(deps[n - 1].key) == key_view(key) {
            seq![(n - 1) as usize]
        } else {
            Seq::empty()
        });
        assert forall|k: int| 0 <= k < r.len() implies #[trigger] r[k] < n && key_view(deps[r[k] as int].key) == key_view(key) by {
            if k < q.len() {
                assert(r[k] == q[k]);
            }
        }
    }
}

/// Sort the departures of a panel, given by their indexes.
fn sort_departures(deps: &Vec<Collected>, idxs: &Vec<usize>) -> (r: Vec<usize>)
    requires
        forall|k: int| 0 <= k < idxs@.len() ==> (#[trigger] idxs@[k]) < deps@.len(),
    ensures
        r@.to_multiset() == idxs@.to_multiset(),
        forall|k: int| 0 <= k < r@.len() ==> (#[trigger] r@[k]) < deps@.len(),
        forall|k: int|
            0 <= k < r@.len() - 1 ==> #[trigger] deps_ordered_at(deps@, r@, k),
{
    broadcast use vstd::seq_lib::group_to_multiset_ensures;

    let mut out: Vec<usize> = Vec::new();
    let mut k: usize = 0;
    while k < idxs.len()
        invariant
            k <= idxs@.len(),
            forall|q: int| 0 <= q < idxs@.len() ==> (#[trigger] idxs@[q]) < deps@.len(),
            out@.to_multiset() == idxs@.take(k as int).to_multiset(),
            forall|q: int| 0 <= q < out@.len() ==> (#[trigger] out@[q]) < deps@.len(),
            forall|q: int|
                0 <= q < out@.len() - 1 ==> #[trigger] deps_ordered_at(deps@, out@, q),
        decreases idxs@.len() - k,
    {
        let x = idxs[k];
        let xd = &deps[x].departure;
        let mut p: usize = 0;
        while p < out.len() && !dep_before_exec(xd, &deps[out[p]].departure)
            invariant
                p <= out@.len(),
                x < deps@.len(),
                *xd == deps@[x as int].departure,
                forall|q: int| 0 <= q < out@.len() ==> (#[trigger] out@[q]) < deps@.len(),
                forall|q: int| 0 <= q < p ==> !dep_before(*xd, #[trigger] deps@[out@[q] as int].departure),
            decreases out@.len() - p,
        {
            p = p + 1;
        }
        let ghost before = out@;
        proof {
            if p < before.len() {
                lemma_dep_before_asymmetric(*xd, deps@[before[p as int] as int].departure);
            }
        }
        out.insert(p, x);
        proof {
            assert(out@ == before.insert(p as int, x));
            vstd::seq_lib::to_multiset_insert(before, p as int, x);
            assert(idxs@.take(k + 1) =~= idxs@.take(k as int).push(x));
            vstd::seq_lib::to_multiset_build(idxs@.take(k as int), x);
            assert forall|q: int| 0 <= q < out@.len() implies (#[trigger] out@[q]) < deps@.len() by {
                if q < p {
                    assert(out@[q] == before[q]);
                } else if q > p {
                    assert(out@[q] == before[q - 1]);
                }
            }
            before.insert_ensures(p as int, x);
            assert forall|q: int| p < q < out@.len() implies out@[q] == before[q - 1] by {
                assert(before.insert(p as int, x)[(q - 1) + 1] == before[q - 1]);
            }
            if p > 0 {
                assert(!dep_before(*xd, deps@[before[p - 1] as int].departure));
            }
            lemma_insert_index(deps@, before, out@, p as int, x);
        }
        k = k + 1;
    }
    proof {
        assert(idxs@.take(idxs@.len() as int) =~= idxs@);
    }
    out
}

proof fn lemma_insert_index(deps: Seq<Collected>, before: Seq<usize>, out: Seq<usize>, p: int, x: usize)
    requires
        0 <= p <= before.len(),
        out.len() == before.len() + 1,
        forall|q: int| 0 <= q < p ==> out[q] == before[q],
        out[p] == x,
        forall|q: int| p < q < out.len() ==> out[q] == before[q - 1],
        forall|q: int|
            0 <= q < before.len() - 1 ==> #[trigger] deps_ordered_at(deps, before, q),
        p > 0 ==> !dep_before(deps[x as int].departure, deps[before[p - 1] as int].departure),
        p < before.len() ==> !dep_before(deps[before[p] as int].departure, deps[x as int].departure),
    ensures
        forall|q: int|
            0 <= q < out.len() - 1 ==> #[trigger] deps_ordered_at(deps, out, q),
{
    assert forall|q: int|
        0 <= q < out.len() - 1 implies #[trigger] deps_ordered_at(deps, out, q) by {
        if q + 1 < p {
            assert(deps_ordered_at(deps, before, q));
            assert(out[q] == before[q] && out[q + 1] == before[q + 1]);
        } else if q + 1 == p {
            assert(out[q] == before[q] && out[q + 1] == x);
        } else if q == p {
            assert(out[q] == x && out[q + 1] == before[q]);
        } else {
            assert(deps_ordered_at(deps, before, q - 1));
            assert(out[q] == before[q - 1] && out[q + 1] == before[q]);
        }
    }
}

/// The flags of a departure, in flag order.
pub open spec fn flags_spec(e: Collected, first: bool, last: bool) -> Seq<DepartureFlag> {
    let a = if e.approximate {
        seq![DepartureFlag::Approximate]
    } else {
        Seq::empty()
    };
    let b = if e.interpolated {
        a.push(DepartureFlag::Interpolated)
    } else {
        a
    };
    let c = if first {
        b.push(DepartureFlag::FirstOfDay)
    } else {
        b
    };
    let d = if last {
        c.push(DepartureFlag::LastOfDay)
    } else {
        c
    };
    if e.past_midnight {
        d.push(DepartureFlag::PastMidnight)
    } else {
        d
    }
}

/// A departure that repeats a collected one, with its flags set.
pub open spec fn same_departure(d: TimetableDeparture, e: TimetableDeparture) -> bool {
    &&& d.scheduled_time == e.scheduled_time
    &&& d.display_minute == e.display_minute
    &&& d.display_seconds == e.display_seconds
    &&& d.destination@ == e.destination@
    &&& d.destination_full@ == e.destination_full@
    &&& opt_view(d.platform) == opt_view(e.platform)
    &&& opt_view(d.trip_short_name) == opt_view(e.trip_short_name)
    &&& d.source_trip_id@ == e.source_trip_id@
    &&& d.instance_id@ == e.instance_id@
    &&& d.exactness == e.exactness
}

fn make_departure(e: &Collected, first: bool, last: bool) -> (d: TimetableDeparture)
    ensures
        same_departure(d, e.departure),
        d.flags@ == flags_spec(*e, first, last),
{
    let mut flags: Vec<DepartureFlag> = Vec::new();
    if e.approximate {
        flags.push(DepartureFlag::Approximate);
    }
    if e.interpolated {
        flags.push(DepartureFlag::Interpolated);
    }
    if first {
        flags.push(DepartureFlag::FirstOfDay);
    }
    if last {
        flags.push(DepartureFlag::LastOfDay);
    }
    if e.past_midnight {
        flags.push(DepartureFlag::PastMidnight);
    }
    proof {
        assert(flags@ =~= flags_spec(*e, first, last));
    }
    let s = &e.departure;
    TimetableDeparture {
        scheduled_time: s.scheduled_time,
        display_minute: s.display_minute,
        display_seconds: s.display_seconds,
        destination: owned(s.destination.as_str()),
        destination_full: owned(s.destination_full.as_str()),
        platform: copy_opt(&s.platform),
        trip_short_name: copy_opt(&s.trip_short_name),
        source_trip_id: owned(s.source_trip_id.as_str()),
        instance_id: owned(s.instance_id.as_str()),
        exactness: s.exactness,
        flags,
    }
}

/// Whether a departure of a panel repeats a collected departure of the
/// panel's key.
pub open spec fn from_collected(d: TimetableDeparture, deps: Seq<Collected>, key: PanelKey) -> bool {
    exists|i: int| 0 <= i < deps.len() && key_view(deps[i].key) == key_view(key) && same_departure(
        d,
        #[trigger] deps[i].departure,
    )
}

/// An hour row whose departures are the panel's departures of that
/// hour, in order.
pub open spec fn group_ok(g: HourGroup, deps: Seq<Collected>, key: PanelKey) -> bool {
    &&& g.display_hour as int == g.service_hour % 24
    &&& forall|k: int| 0 <= k < g.departures@.len() ==> (#[trigger] g.departures@[k]).scheduled_time.secs / 3600 == g.service_hour
    &&& forall|k: int| 0 <= k < g.departures@.len() ==> from_collected(#[trigger] g.departures@[k], deps, key)
    &&& forall|k: int| 0 <= k < g.departures@.len() - 1 ==> #[trigger] row_ordered_at(g.departures@, k)
}

/// Whether a band of a panel covers a service hour.
pub open spec fn band_covers(notes: Seq<FrequencyNote>, hour: u32) -> bool {
    exists|b: int, h: int| 0 <= b < notes.len() && 0 <= h < notes[b].service_hours@.len() && #[trigger] notes[b].service_hours@[h] == hour
}

fn covers(notes: &Vec<FrequencyNote>, hour: u32) -> (r: bool)
    ensures
        r == band_covers(notes@, hour),
{
    let mut b: usize = 0;
    while b < notes.len()
        invariant
            b <= notes@.len(),
            forall|q: int, h: int| 0 <= q < b && 0 <= h < notes@[q].service_hours@.len() ==> notes@[q].service_hours@[h] != hour,
        decreases notes@.len() - b,
    {
        let hours = &notes[b].service_hours;
        let mut h: usize = 0;
        while h < hours.len()
            invariant
                h <= hours@.len(),
                b < notes@.len(),
                *hours == notes@[b as int].service_hours,
                forall|q: int| 0 <= q < h ==> hours@[q] != hour,
            decreases hours@.len() - h,
        {
            if hours[h] == hour {
                proof {
                    assert(notes@[b as int].service_hours@[h as int] == hour);
                }
                return true;
            }
            h = h + 1;
        }
        b = b + 1;
    }
    false
}

/// The positions, among the first `n` of the sorted order, of the
/// departures that fall in a service hour.
pub open spec fn hour_picks(deps: Seq<Collected>, sorted: Seq<usize>, hour: int, n: int) -> Seq<int>
    decreases n,
{
    if n <= 0 {
        Seq::empty()
    } else if deps[sorted[n - 1] as int].departure.scheduled_time.secs / 3600 == hour {
        hour_picks(deps, sorted, hour, n - 1).push(n - 1)
    } else {
        hour_picks(deps, sorted, hour, n - 1)
    }
}

/// Whether a departure of a row repeats the departure at position `p`
/// of the sorted order, marked first or last of the day where the
/// marks are on and it is the first or the last of the whole order.
pub open spec fn row_entry(
    d: TimetableDeparture,
    deps: Seq<Collected>,
    sorted: Seq<usize>,
    p: int,
    mark: bool,
) -> bool {
    let e = deps[sorted[p] as int];
    &&& same_departure(d, e.departure)
    &&& d.flags@ == flags_spec(e, mark && p == 0, mark && p == sorted.len() - 1)
}

/// Whether a row is exactly the departures of a service hour, in the
/// sorted order.
pub open spec fn row_is(
    row: Seq<TimetableDeparture>,
    deps: Seq<Collected>,
    sorted: Seq<usize>,
    hour: int,
    mark: bool,
) -> bool {
    let picks = hour_picks(deps, sorted, hour, sorted.len() as int);
    &&& row.len() == picks.len()
    &&& forall|q: int| 0 <= q < row.len() ==> row_entry(#[trigger] row[q], deps, sorted, picks[q], mark)
}

/// The departures of a panel at one service hour, in order.
fn hour_row(
    deps: &Vec<Collected>,
    sorted: &Vec<usize>,
    key: &PanelKey,
    hour: u32,
    mark: bool,
) -> (row: Vec<TimetableDeparture>)
    requires
        forall|k: int| 0 <= k < sorted@.len() ==> (#[trigger] sorted@[k]) < deps@.len()
            && key_view(deps@[sorted@[k] as int].key) == key_view(*key),
        forall|k: int|
            0 <= k < sorted@.len() - 1 ==> #[trigger] deps_ordered_at(deps@, sorted@, k),
    ensures
        forall|q: int| 0 <= q < row@.len() ==> (#[trigger] row@[q]).scheduled_time.secs / 3600 == hour,
        forall|q: int| 0 <= q < row@.len() ==> from_collected(#[trigger] row@[q], deps@, *key),
        forall|q: int| 0 <= q < row@.len() - 1 ==> #[trigger] row_ordered_at(row@, q),
        row_is(row@, deps@, sorted@, hour as int, mark),
{
    let n = sorted.len();
    let mut row: Vec<TimetableDeparture> = Vec::new();
    let ghost mut last_k: int = -1;
    let mut k: usize = 0;
    while k < n
        invariant
            k <= n,
            n == sorted@.len(),
            forall|q: int| 0 <= q < sorted@.len() ==> (#[trigger] sorted@[q]) < deps@.len()
                && key_view(deps@[sorted@[q] as int].key) == key_view(*key),
            forall|q: int|
                0 <= q < sorted@.len() - 1 ==> #[trigger] deps_ordered_at(deps@, sorted@, q),
            forall|q: int| 0 <= q < row@.len() ==> (#[trigger] row@[q]).scheduled_time.secs / 3600 == hour,
            forall|q: int| 0 <= q < row@.len() ==> from_collected(#[trigger] row@[q], deps@, *key),
            forall|q: int| 0 <= q < row@.len() - 1 ==> #[trigger] row_ordered_at(row@, q),
            row@.len() > 0 ==> 0 <= last_k < k && row@.last().scheduled_time == deps@[sorted@[last_k] as int].departure.scheduled_time
                && same_departure(row@.last(), deps@[sorted@[last_k] as int].departure),
            row@.len() == hour_picks(deps@, sorted@, hour as int, k as int).len(),
            forall|q: int|
                0 <= q < row@.len() ==> row_entry(
                    #[trigger] row@[q],
                    deps@,
                    sorted@,
                    hour_picks(deps@, sorted@, hour as int, k as int)[q],
                    mark,
                ),
        decreases n - k,
    {
        let i = sorted[k];
        let e = &deps[i];
        if e.departure.scheduled_time.hours() == hour {
            let first = mark && k == 0;
            let last = mark && k == n - 1;
            let d = make_departure(e, first, last);
            let ghost before = row@;
            proof {
                if before.len() > 0 {
                    lemma_sorted_deps_after(deps@, sorted@, last_k, k as int);
                    lemma_same_departure_order(before.last(), deps@[sorted@[last_k] as int].departure, d, e.departure);
                }
                assert(same_departure(d, deps@[i as int].departure));
                assert(from_collected(d, deps@, *key));
            }
            let ghost picks_before = hour_picks(deps@, sorted@, hour as int, k as int);
            row.push(d);
            proof {
                assert(hour_picks(deps@, sorted@, hour as int, k + 1) == picks_before.push(k as int));
                assert forall|q: int| 0 <= q < row@.len() implies row_entry(
                    #[trigger] row@[q],
                    deps@,
                    sorted@,
                    hour_picks(deps@, sorted@, hour as int, k + 1)[q],
                    mark,
                ) by {
                    if q < before.len() {
                        assert(row@[q] == before[q]);
                    }
                }
                last_k = k as int;
                assert forall|q: int| 0 <= q < row@.len() - 1 implies #[trigger] row_ordered_at(row@, q) by {
                    if q + 1 < before.len() {
                        assert(row_ordered_at(before, q));
                        assert(row@[q] == before[q] && row@[q + 1] == before[q + 1]);
                    } else {
                        assert(row@[q] == before.last());
                    }
                }
            }
        }
        k = k + 1;
    }
    row
}

proof fn lemma_same_departure_order(a: TimetableDeparture, a2: TimetableDeparture, b: TimetableDeparture, b2: TimetableDeparture)
    requires
        same_departure(a, a2),
        same_departure(b, b2),
        !dep_before(b2, a2),
    ensures
        !dep_before(b, a),
{
    reveal(dep_before);
}

/// Whether a panel keeps the row of a service hour: the configuration
/// shows empty hours, a departure falls in it, or a band covers it.
pub open spec fn hour_kept(
    deps: Seq<Collected>,
    sorted: Seq<usize>,
    notes: Seq<FrequencyNote>,
    show_empty: bool,
    hour: int,
) -> bool {
    ||| show_empty
    ||| hour_picks(deps, sorted, hour, sorted.len() as int).len() > 0
    ||| band_covers(notes, hour as u32)
}

/// The service hours from `first` up to `end` whose rows a panel keeps,
/// in order.
pub open spec fn kept_hours(
    deps: Seq<Collected>,
    sorted: Seq<usize>,
    notes: Seq<FrequencyNote>,
    show_empty: bool,
    first: int,
    end: int,
) -> Seq<int>
    decreases end - first,
{
    if end <= first {
        Seq::empty()
    } else if hour_kept(deps, sorted, notes, show_empty, end - 1) {
        kept_hours(deps, sorted, notes, show_empty, first, end - 1).push(end - 1)
    } else {
        kept_hours(deps, sorted, notes, show_empty, first, end - 1)
    }
}

/// Build the hour rows of a panel from its sorted departures: one row
/// per service hour of the day, kept where it has a departure, a band
/// covers it, or the configuration shows empty hours.
fn hour_rows(
    deps: &Vec<Collected>,
    sorted: &Vec<usize>,
    key: &PanelKey,
    first_hour: u32,
    end_hour: u32,
    notes: &Vec<FrequencyNote>,
    config: &PublicationConfig,
) -> (groups: Vec<HourGroup>)
    requires
        forall|k: int| 0 <= k < sorted@.len() ==> (#[trigger] sorted@[k]) < deps@.len()
            && key_view(deps@[sorted@[k] as int].key) == key_view(*key),
        forall|k: int|
            0 <= k < sorted@.len() - 1 ==> #[trigger] deps_ordered_at(deps@, sorted@, k),
    ensures
        groups@.len() <= u32::MAX,
        forall|g: int| 0 <= g < groups@.len() ==> group_ok(#[trigger] groups@[g], deps@, *key),
        forall|g: int| 0 <= g < groups@.len() ==> first_hour <= (#[trigger] groups@[g]).service_hour < end_hour,
        forall|a: int, b: int| 0 <= a < b < groups@.len() ==> groups@[a].service_hour < groups@[b].service_hour,
        groups@.len() == kept_hours(
            deps@,
            sorted@,
            notes@,
            config.timetable.show_empty_hours,
            first_hour as int,
            end_hour as int,
        ).len(),
        forall|g: int|
            0 <= g < groups@.len() ==> (#[trigger] groups@[g]).service_hour == kept_hours(
                deps@,
                sorted@,
                notes@,
                config.timetable.show_empty_hours,
                first_hour as int,
                end_hour as int,
            )[g] && row_is(
                groups@[g].departures@,
                deps@,
                sorted@,
                groups@[g].service_hour as int,
                config.timetable.mark_first_and_last,
            ),
{
    let mut groups: Vec<HourGroup> = Vec::new();
    let mut hour = first_hour;
    while hour < end_hour
        invariant
            first_hour <= hour,
            forall|k: int| 0 <= k < sorted@.len() ==> (#[trigger] sorted@[k]) < deps@.len()
                && key_view(deps@[sorted@[k] as int].key) == key_view(*key),
            forall|k: int|
                0 <= k < sorted@.len() - 1 ==> #[trigger] deps_ordered_at(deps@, sorted@, k),
            groups@.len() <= hour - first_hour,
            hour <= end_hour || groups@.len() == 0,
            hour > end_hour ==> hour == first_hour,
            forall|g: int| 0 <= g < groups@.len() ==> group_ok(#[trigger] groups@[g], deps@, *key),
            forall|g: int| 0 <= g < groups@.len() ==> first_hour <= (#[trigger] groups@[g]).service_hour < hour,
            forall|a: int, b: int| 0 <= a < b < groups@.len() ==> groups@[a].service_hour < groups@[b].service_hour,
            groups@.len() == kept_hours(
                deps@,
                sorted@,
                notes@,
                config.timetable.show_empty_hours,
                first_hour as int,
                hour as int,
            ).len(),
            forall|g: int|
                0 <= g < groups@.len() ==> (#[trigger] groups@[g]).service_hour == kept_hours(
                    deps@,
                    sorted@,
                    notes@,
                    config.timetable.show_empty_hours,
                    first_hour as int,
                    hour as int,
                )[g] && row_is(
                    groups@[g].departures@,
                    deps@,
                    sorted@,
                    groups@[g].service_hour as int,
                    config.timetable.mark_first_and_last,
                ),
        decreases end_hour - hour,
    {
        let row = hour_row(deps, sorted, key, hour, config.timetable.mark_first_and_last);
        let keep = config.timetable.show_empty_hours || row.len() > 0 || covers(notes, hour);
        let ghost show = config.timetable.show_empty_hours;
        let ghost kept_before = kept_hours(deps@, sorted@, notes@, show, first_hour as int, hour as int);
        proof {
            assert(keep == hour_kept(deps@, sorted@, notes@, show, hour as int));
        }
        if keep {
            let ghost before = groups@;
            let g = HourGroup { service_hour: hour, display_hour: (hour % 24) as u8, departures: row };
            groups.push(g);
            proof {
                assert(kept_hours(deps@, sorted@, notes@, show, first_hour as int, hour + 1)
                    == kept_before.push(hour as int));
                assert forall|gg: int| 0 <= gg < groups@.len() implies group_ok(#[trigger] groups@[gg], deps@, *key) by {
                    if gg < before.len() {
                        assert(groups@[gg] == before[gg]);
                    }
                }
                assert forall|gg: int| 0 <= gg < groups@.len() implies (#[trigger] groups@[gg]).service_hour
                    == kept_hours(deps@, sorted@, notes@, show, first_hour as int, hour + 1)[gg] && row_is(
                    groups@[gg].departures@,
                    deps@,
                    sorted@,
                    groups@[gg].service_hour as int,
                    config.timetable.mark_first_and_last,
                ) by {
                    if gg < before.len() {
                        assert(groups@[gg] == before[gg]);
                    }
                }
            }
        } else {
            proof {
                assert(kept_hours(deps@, sorted@, notes@, show, first_hour as int, hour + 1)
                    == kept_before);
            }
        }
        hour = hour + 1;
    }
    groups
}

proof fn lemma_sorted_deps_after(deps: Seq<Collected>, sorted: Seq<usize>, a: int, b: int)
    requires
        0 <= a < b < sorted.len(),
        forall|k: int| 0 <= k < sorted.len() ==> (#[trigger] sorted[k]) < deps.len(),
        forall|k: int|
            0 <= k < sorted.len() - 1 ==> #[trigger] deps_ordered_at(deps, sorted, k),
    ensures
        !dep_before(deps[sorted[b] as int].departure, deps[sorted[a] as int].departure),
    decreases b - a,
{
    assert(deps_ordered_at(deps, sorted, b - 1));
    if b > a + 1 {
        lemma_sorted_deps_after(deps, sorted, a, b - 1);
        lemma_dep_before_no_descent(
            deps[sorted[a] as int].departure,
            deps[sorted[b - 1] as int].departure,
            deps[sorted[b] as int].departure,
        );
    }
}

proof fn lemma_dep_before_no_descent(a: TimetableDeparture, b: TimetableDeparture, c: TimetableDeparture)
    requires
        !dep_before(b, a),
        !dep_before(c, b),
    ensures
        !dep_before(c, a),
{
    reveal(dep_before);
    let (ad, bd, cd) = (a.destination_full@, b.destination_full@, c.destination_full@);
    let (ai, bi, ci) = (a.instance_id@, b.instance_id@, c.instance_id@);
    crate::order::lemma_seq_lt_total(ad, bd);
    crate::order::lemma_seq_lt_total(bd, cd);
    crate::order::lemma_seq_lt_total(ai, bi);
    crate::order::lemma_seq_lt_total(bi, ci);
    crate::order::lemma_seq_lt_asymmetric(ad, cd);
    crate::order::lemma_seq_lt_asymmetric(ai, ci);
    crate::order::lemma_seq_lt_asymmetric(ad, bd);
    crate::order::lemma_seq_lt_asymmetric(ai, bi);
    if a.scheduled_time.secs == c.scheduled_time.secs {
        if seq_lt_or_eq(ad, bd) && seq_lt_or_eq(bd, cd) {
            if crate::order::seq_lt(ad, bd) && crate::order::seq_lt(bd, cd) {
                crate::order::lemma_seq_lt_transitive(ad, bd, cd);
            }
        }
        if ad == bd && bd == cd {
            if crate::order::seq_lt(ai, bi) && crate::order::seq_lt(bi, ci) {
                crate::order::lemma_seq_lt_transitive(ai, bi, ci);
            }
        }
    }
}

/// One text sorts before another or equals it.
pub open spec fn seq_lt_or_eq(a: Seq<char>, b: Seq<char>) -> bool {
    crate::order::seq_lt(a, b) || a == b
}

// ----------------------------------------------------------------------
// One panel
// ----------------------------------------------------------------------

/// Whether the bands at positions `q` and `q + 1` of an index list are
/// in order of their start.
pub open spec fn bands_ordered_at(bands: Seq<CollectedBand>, s: Seq<usize>, q: int) -> bool {
    bands[s[q] as int].note.start.secs <= bands[s[q + 1] as int].note.start.secs
}

/// Sort the bands of a panel, given by their indexes, by start.
fn sort_bands(bands: &Vec<CollectedBand>, key: &PanelKey) -> (r: Vec<usize>)
    ensures
        forall|k: int| 0 <= k < r@.len() ==> (#[trigger] r@[k]) < bands@.len()
            && key_view(bands@[r@[k] as int].key) == key_view(*key),
        forall|i: int| 0 <= i < bands@.len() && key_view(bands@[i].key) == key_view(*key) ==> r@.contains(i as usize),
        r@.no_duplicates(),
        forall|k: int| 0 <= k < r@.len() - 1 ==> #[trigger] bands_ordered_at(bands@, r@, k),
{
    let mut out: Vec<usize> = Vec::new();
    let mut i: usize = 0;
    while i < bands.len()
        invariant
            i <= bands@.len(),
            forall|k: int| 0 <= k < out@.len() ==> (#[trigger] out@[k]) < i
                && key_view(bands@[out@[k] as int].key) == key_view(*key),
            forall|j: int| 0 <= j < i && key_view(bands@[j].key) == key_view(*key) ==> out@.contains(j as usize),
            out@.no_duplicates(),
            forall|k: int| 0 <= k < out@.len() - 1 ==> #[trigger] bands_ordered_at(bands@, out@, k),
        decreases bands@.len() - i,
    {
        if panel_key_eq(&bands[i].key, key) {
            let start = bands[i].note.start.secs;
            let mut p: usize = 0;
            while p < out.len() && bands[out[p]].note.start.secs <= start
                invariant
                    p <= out@.len(),
                    forall|k: int| 0 <= k < out@.len() ==> (#[trigger] out@[k]) < i,
                    i < bands@.len(),
                    start == bands@[i as int].note.start.secs,
                    forall|q: int| 0 <= q < p ==> bands@[(#[trigger] out@[q]) as int].note.start.secs <= start,
                decreases out@.len() - p,
            {
                p = p + 1;
            }
            let ghost before = out@;
            out.insert(p, i);
            proof {
                before.insert_ensures(p as int, i);
                assert forall|q: int| p < q < out@.len() implies out@[q] == before[q - 1] by {
                    assert(before.insert(p as int, i)[(q - 1) + 1] == before[q - 1]);
                }
                assert forall|k: int| 0 <= k < out@.len() implies (#[trigger] out@[k]) < i + 1
                    && key_view(bands@[out@[k] as int].key) == key_view(*key) by {
                    if k < p {
                        assert(out@[k] == before[k]);
                    } else if k > p {
                        assert(out@[k] == before[k - 1]);
                    }
                }
                assert forall|j: int| 0 <= j < i + 1 && key_view(bands@[j].key) == key_view(*key) implies out@.contains(j as usize) by {
                    if j < i {
                        let q = choose|q: int| 0 <= q < before.len() && before[q] == j as usize;
                        if q < p {
                            assert(out@[q] == before[q]);
                        } else {
                            assert(out@[q + 1] == before[q]);
                        }
                    } else {
                        assert(out@[p as int] == i);
                    }
                }
                assert forall|a: int, b: int| 0 <= a < out@.len() && 0 <= b < out@.len() && a != b implies out@[a] != out@[b] by {
                    let ia = if a < p { a } else if a == p { -1 } else { a - 1 };
                    let ib = if b < p { b } else if b == p { -1 } else { b - 1 };
                    if a != p && b != p {
                        assert(out@[a] == before[ia] && out@[b] == before[ib]);
                    } else if a == p {
                        assert(out@[b] == before[ib]);
                    } else {
                        assert(out@[a] == before[ia]);
                    }
                }
                assert forall|k: int| 0 <= k < out@.len() - 1 implies #[trigger] bands_ordered_at(bands@, out@, k) by {
                    if k + 1 < p {
                        assert(bands_ordered_at(bands@, before, k));
                        assert(out@[k] == before[k] && out@[k + 1] == before[k + 1]);
                    } else if k + 1 == p {
                        assert(out@[k] == before[k] && out@[k + 1] == i);
                    } else if k == p {
                        assert(out@[k] == i && out@[k + 1] == before[k]);
                    } else {
                        assert(bands_ordered_at(bands@, before, k - 1));
                        assert(out@[k] == before[k - 1] && out@[k + 1] == before[k]);
                    }
                }
            }
        } else {
            proof {
                assert forall|j: int| 0 <= j < i + 1 && key_view(bands@[j].key) == key_view(*key) implies out@.contains(j as usize) by {
                }
            }
        }
        i = i + 1;
    }
    out
}

/// A note that repeats a collected one.
pub open spec fn same_note(n: FrequencyNote, m: FrequencyNote) -> bool {
    &&& n.band_id@ == m.band_id@
    &&& n.start == m.start
    &&& n.end == m.end
    &&& n.headway_minutes == m.headway_minutes
    &&& n.destination@ == m.destination@
    &&& n.text@ == m.text@
    &&& n.service_hours@ == m.service_hours@
}

fn copy_note(n: &FrequencyNote) -> (r: FrequencyNote)
    ensures
        same_note(r, *n),
{
    let mut hours: Vec<u32> = Vec::new();
    let mut i: usize = 0;
    while i < n.service_hours.len()
        invariant
            i <= n.service_hours@.len(),
            hours@ == n.service_hours@.take(i as int),
        decreases n.service_hours@.len() - i,
    {
        hours.push(n.service_hours[i]);
        proof {
            assert(hours@ =~= n.service_hours@.take(i + 1));
        }
        i = i + 1;
    }
    proof {
        assert(hours@ =~= n.service_hours@);
    }
    FrequencyNote {
        band_id: owned(n.band_id.as_str()),
        start: n.start,
        end: n.end,
        headway_minutes: n.headway_minutes,
        destination: owned(n.destination.as_str()),
        text: owned(n.text.as_str()),
        service_hours: hours,
    }
}

/// The platform of a panel: that of its first departure, or of its first
/// band where it has no departure.
pub open spec fn first_platform(deps: Seq<Collected>, bands: Seq<CollectedBand>, key: PanelKey) -> Option<Seq<char>> {
    if exists|i: int| 0 <= i < deps.len() && key_view(deps[i].key) == key_view(key) {
        let i = choose|i: int| 0 <= i < deps.len() && key_view(deps[i].key) == key_view(key) && forall|j: int|
            0 <= j < i ==> key_view(deps[j].key) != key_view(key);
        opt_view(deps[i].departure.platform)
    } else if exists|i: int| 0 <= i < bands.len() && key_view(bands[i].key) == key_view(key) {
        let i = choose|i: int| 0 <= i < bands.len() && key_view(bands[i].key) == key_view(key) && forall|j: int|
            0 <= j < i ==> key_view(bands[j].key) != key_view(key);
        opt_view(bands[i].platform)
    } else {
        None
    }
}

fn panel_platform(deps: &Vec<Collected>, bands: &Vec<CollectedBand>, key: &PanelKey) -> (r: Option<String>)
    ensures
        opt_view(r) == first_platform(deps@, bands@, *key),
{
    let mut i: usize = 0;
    while i < deps.len()
        invariant
            i <= deps@.len(),
            forall|j: int| 0 <= j < i ==> key_view(deps@[j].key) != key_view(*key),
        decreases deps@.len() - i,
    {
        if panel_key_eq(&deps[i].key, key) {
            proof {
                let w = choose|w: int| 0 <= w < deps@.len() && key_view(deps@[w].key) == key_view(*key) && forall|j: int|
                    0 <= j < w ==> key_view(deps@[j].key) != key_view(*key);
                assert(w == i) by {
                    if w < i {
                    } else if w > i {
                        assert(key_view(deps@[i as int].key) != key_view(*key));
                    }
                }
            }
            return copy_opt(&deps[i].departure.platform);
        }
        i = i + 1;
    }
    let mut j: usize = 0;
    while j < bands.len()
        invariant
            j <= bands@.len(),
            forall|q: int| 0 <= q < deps@.len() ==> key_view(deps@[q].key) != key_view(*key),
            forall|q: int| 0 <= q < j ==> key_view(bands@[q].key) != key_view(*key),
        decreases bands@.len() - j,
    {
        if panel_key_eq(&bands[j].key, key) {
            proof {
                let w = choose|w: int| 0 <= w < bands@.len() && key_view(bands@[w].key) == key_view(*key) && forall|q: int|
                    0 <= q < w ==> key_view(bands@[q].key) != key_view(*key);
                assert(w == j) by {
                    if w > j {
                        assert(key_view(bands@[j as int].key) != key_view(*key));
                    }
                }
            }
            return copy_opt(&bands[j].platform);
        }
        j = j + 1;
    }
    None
}

/// The departures of the collected ones that carry a key, in order.
pub open spec fn key_departures(deps: Seq<Collected>, key: PanelKey) -> Seq<TimetableDeparture>
    decreases deps.len(),
{
    if deps.len() == 0 {
        Seq::empty()
    } else {
        key_departures(deps.drop_last(), key) + if key_view(deps.last().key) == key_view(key) {
            seq![deps.last().departure]
        } else {
            Seq::empty()
        }
    }
}

/// Two runs of departures with the same destinations, one by one.
pub open spec fn same_destinations(a: Seq<TimetableDeparture>, b: Seq<TimetableDeparture>) -> bool {
    a.len() == b.len() && forall|i: int| 0 <= i < a.len() ==> (#[trigger] a[i]).destination_full@ == b[i].destination_full@
}

proof fn lemma_dests_follow_names(a: Seq<TimetableDeparture>, b: Seq<TimetableDeparture>)
    requires
        same_destinations(a, b),
    ensures
        distinct_dests(a) == distinct_dests(b),
        forall|n: Seq<char>| #[trigger] dest_count(a, n) == dest_count(b, n),
    decreases a.len(),
{
    if a.len() > 0 {
        assert(same_destinations(a.drop_last(), b.drop_last())) by {
            assert forall|i: int| 0 <= i < a.drop_last().len() implies (#[trigger] a.drop_last()[i]).destination_full@ == b.drop_last()[i].destination_full@ by {
                assert(a.drop_last()[i] == a[i]);
                assert(b.drop_last()[i] == b[i]);
            }
        }
        lemma_dests_follow_names(a.drop_last(), b.drop_last());
        assert(a.last().destination_full@ == b.last().destination_full@) by {
            assert(a[a.len() - 1].destination_full@ == b[a.len() - 1].destination_full@);
        }
        assert forall|n: Seq<char>| #[trigger] dest_count(a, n) == dest_count(b, n) by {
            assert(dest_count(a.drop_last(), n) == dest_count(b.drop_last(), n));
        }
    }
}

/// Whether a line view shows a line record.
pub open spec fn line_view_of(v: LineView, line: crate::common::Line) -> bool {
    &&& v.route_id@ == line.route_id@
    &&& v.name@ == line.name@
    &&& opt_view(v.long_name) == opt_view(line.long_name)
    &&& v.color is None <==> line.color is None
    &&& v.color matches Some(c) ==> crate::common::optional_color(line.color) == Some(c@)
    &&& v.text_color is None <==> line.text_color is None
    &&& v.text_color matches Some(c) ==> crate::common::optional_color(line.text_color) == Some(c@)
    &&& v.key@ == css_key_spec(line.route_id@)
}

/// Whether a note of a panel repeats the note of a band with the
/// panel's key.
pub open spec fn note_from_band(n: FrequencyNote, bands: Seq<CollectedBand>, key: PanelKey) -> bool {
    exists|i: int| 0 <= i < bands.len() && key_view(bands[i].key) == key_view(key) && same_note(n, #[trigger] bands[i].note)
}

/// Whether an order holds every departure of a panel key once, in time
/// order.
pub open spec fn panel_order(deps: Seq<Collected>, key: PanelKey, sorted: Seq<usize>) -> bool {
    &&& sorted.to_multiset() == key_indices(deps, key, deps.len() as int).to_multiset()
    &&& forall|k: int| 0 <= k < sorted.len() ==> (#[trigger] sorted[k]) < deps.len()
    &&& forall|k: int| 0 <= k < sorted.len() - 1 ==> #[trigger] deps_ordered_at(deps, sorted, k)
}

/// Whether the hour rows of a panel are exactly the rows that its
/// hours keep, each holding exactly the departures of its hour in the
/// order `sorted`, with their marks.
pub open spec fn rows_complete(
    groups: Seq<HourGroup>,
    deps: Seq<Collected>,
    sorted: Seq<usize>,
    notes: Seq<FrequencyNote>,
    config: PublicationConfig,
    first_hour: u32,
    end_hour: u32,
) -> bool {
    let kept = kept_hours(
        deps,
        sorted,
        notes,
        config.timetable.show_empty_hours,
        first_hour as int,
        end_hour as int,
    );
    &&& groups.len() == kept.len()
    &&& forall|g: int|
        0 <= g < groups.len() ==> (#[trigger] groups[g]).service_hour == kept[g] && row_is(
            groups[g].departures@,
            deps,
            sorted,
            groups[g].service_hour as int,
            config.timetable.mark_first_and_last,
        )
}

/// Whether the notes of a panel are exactly the bands of its key, once
/// each, in the order `order`.
pub open spec fn notes_complete(
    notes: Seq<FrequencyNote>,
    bands: Seq<CollectedBand>,
    key: PanelKey,
    order: Seq<usize>,
) -> bool {
    &&& order.no_duplicates()
    &&& forall|k: int| 0 <= k < order.len() ==> (#[trigger] order[k]) < bands.len()
        && key_view(bands[order[k] as int].key) == key_view(key)
    &&& forall|i: int| 0 <= i < bands.len() && key_view(#[trigger] bands[i].key) == key_view(key) ==> order.contains(i as usize)
    &&& notes.len() == order.len()
    &&& forall|k: int| 0 <= k < notes.len() ==> same_note(#[trigger] notes[k], bands[order[k] as int].note)
}

/// What a panel built for one key holds.
pub open spec fn panel_ok(
    panel: TimetablePanel,
    deps: Seq<Collected>,
    bands: Seq<CollectedBand>,
    key: PanelKey,
    network: RailNetwork,
    config: PublicationConfig,
    labels: Labels,
    first_hour: u32,
    end_hour: u32,
) -> bool {
    &&& panel.key@ == join(panel_key_parts(panel.line.key@, key), seq!['-'])
    &&& line_view_of(panel.line, network.lines@[key.line as int])
    &&& panel.direction == key.direction
    &&& opt_view(panel.platform_label) == match first_platform(deps, bands, key) {
        Some(p) => Some(crate::text::platform_text(labels.language, p)),
        None => None,
    }
    &&& string_views(panel.destination_summary@).to_multiset() == panel_dests(key_departures(deps, key), frequency_notes_of(panel)).to_multiset()
    &&& forall|i: int| 0 <= i < panel.destination_summary@.len() - 1 ==> #[trigger] summary_ordered_at(counted(panel.destination_summary@, key_departures(deps, key)), i)
    &&& panel.direction_label@ == heading_spec(panel.line, key.direction, panel.destination_summary@, config, labels)
    &&& forall|g: int| 0 <= g < panel.hour_groups@.len() ==> group_ok(#[trigger] panel.hour_groups@[g], deps, key)
    &&& forall|g: int| 0 <= g < panel.hour_groups@.len() ==> first_hour <= (#[trigger] panel.hour_groups@[g]).service_hour < end_hour
    &&& forall|a: int, b: int| 0 <= a < b < panel.hour_groups@.len() ==> panel.hour_groups@[a].service_hour < panel.hour_groups@[b].service_hour
    &&& panel.column_breaks@.map_values(|b: usize| b as int) == breaks_spec(panel.hour_groups@, config)
    &&& forall|k: int| 0 <= k < panel.frequency_notes@.len() ==> note_from_band(#[trigger] panel.frequency_notes@[k], bands, key)
    &&& forall|k: int| 0 <= k < panel.frequency_notes@.len() - 1 ==> #[trigger] panel.frequency_notes@[k].start.secs <= panel.frequency_notes@[k + 1].start.secs
    &&& exists|sorted: Seq<usize>|
        #[trigger] panel_order(deps, key, sorted) && rows_complete(
            panel.hour_groups@,
            deps,
            sorted,
            panel.frequency_notes@,
            config,
            first_hour,
            end_hour,
        )
    &&& exists|order: Seq<usize>| #[trigger] notes_complete(panel.frequency_notes@, bands, key, order)
}

/// The notes of a panel.
pub open spec fn frequency_notes_of(panel: TimetablePanel) -> Seq<FrequencyNote> {
    panel.frequency_notes@
}

fn unsorted_departures(deps: &Vec<Collected>, key: &PanelKey) -> (r: Vec<TimetableDeparture>)
    ensures
        same_destinations(r@, key_departures(deps@, *key)),
        r@.len() < usize::MAX || deps@.len() >= usize::MAX,
{
    let mut out: Vec<TimetableDeparture> = Vec::new();
    let mut i: usize = 0;
    while i < deps.len()
        invariant
            i <= deps@.len(),
            same_destinations(out@, key_departures(deps@.take(i as int), *key)),
            out@.len() <= i,
        decreases deps@.len() - i,
    {
        proof {
            assert(deps@.take(i + 1).drop_last() =~= deps@.take(i as int));
        }
        let ghost before = out@;
        if panel_key_eq(&deps[i].key, key) {
            out.push(make_departure(&deps[i], false, false));
        }
        proof {
            let kd = key_departures(deps@.take(i + 1), *key);
            assert forall|q: int| 0 <= q < out@.len() implies (#[trigger] out@[q]).destination_full@ == kd[q].destination_full@ by {
                if q < before.len() {
                    assert(out@[q] == before[q]);
                    assert(kd[q] == key_departures(deps@.take(i as int), *key)[q]);
                }
            }
        }
        i = i + 1;
    }
    proof {
        assert(deps@.take(deps@.len() as int) =~= deps@);
    }
    out
}

/// Build one panel from the collected departures and bands of its key.
pub fn build_panel(
    network: &RailNetwork,
    deps: &Vec<Collected>,
    bands: &Vec<CollectedBand>,
    key: &PanelKey,
    first_hour: u32,
    end_hour: u32,
    config: &PublicationConfig,
    labels: &Labels,
) -> (panel: TimetablePanel)
    requires
        key.line < network.lines@.len(),
    ensures
        panel_ok(panel, deps@, bands@, *key, *network, *config, *labels, first_hour, end_hour),
{
    // The departures, in time order.
    let mut idxs: Vec<usize> = Vec::new();
    let mut i: usize = 0;
    while i < deps.len()
        invariant
            i <= deps@.len(),
            forall|k: int| 0 <= k < idxs@.len() ==> (#[trigger] idxs@[k]) < deps@.len()
                && key_view(deps@[idxs@[k] as int].key) == key_view(*key),
            idxs@ == key_indices(deps@, *key, i as int),
        decreases deps@.len() - i,
    {
        let ghost before = idxs@;
        if panel_key_eq(&deps[i].key, key) {
            idxs.push(i);
            proof {
                assert(key_indices(deps@, *key, i + 1) =~= before.push(i));
            }
        } else {
            proof {
                assert(key_indices(deps@, *key, i + 1) =~= before);
            }
        }
        i = i + 1;
    }
    let sorted = sort_departures(deps, &idxs);
    proof {
        assert forall|k: int| 0 <= k < sorted@.len() implies (#[trigger] sorted@[k]) < deps@.len()
            && key_view(deps@[sorted@[k] as int].key) == key_view(*key) by {
            broadcast use vstd::seq_lib::group_to_multiset_ensures;
            assert(sorted@.to_multiset().count(sorted@[k]) > 0);
            assert(idxs@.contains(sorted@[k]));
        }
    }
    // The bands.
    let band_order = sort_bands(bands, key);
    let mut notes: Vec<FrequencyNote> = Vec::new();
    let mut b: usize = 0;
    while b < band_order.len()
        invariant
            b <= band_order@.len(),
            forall|k: int| 0 <= k < band_order@.len() ==> (#[trigger] band_order@[k]) < bands@.len()
                && key_view(bands@[band_order@[k] as int].key) == key_view(*key),
            forall|k: int| 0 <= k < band_order@.len() - 1 ==> #[trigger] bands_ordered_at(bands@, band_order@, k),
            notes@.len() == b,
            forall|k: int| 0 <= k < b ==> same_note(#[trigger] notes@[k], bands@[band_order@[k] as int].note),
        decreases band_order@.len() - b,
    {
        let n = copy_note(&bands[band_order[b]].note);
        notes.push(n);
        b = b + 1;
    }
    proof {
        assert forall|k: int| 0 <= k < notes@.len() implies note_from_band(#[trigger] notes@[k], bands@, *key) by {
            assert(same_note(notes@[k], bands@[band_order@[k] as int].note));
        }
        assert forall|k: int| 0 <= k < notes@.len() - 1 implies #[trigger] notes@[k].start.secs <= notes@[k + 1].start.secs by {
            assert(bands_ordered_at(bands@, band_order@, k));
            assert(same_note(notes@[k], bands@[band_order@[k] as int].note));
            assert(same_note(notes@[k + 1], bands@[band_order@[k + 1] as int].note));
        }
    }
    let line = LineView::from_line(&network.lines[key.line]);
    let unsorted = unsorted_departures(deps, key);
    let summary = summarize_destinations(&unsorted, &notes);
    proof {
        lemma_dests_follow_names(unsorted@, key_departures(deps@, *key));
        assert(panel_dests(unsorted@, notes@) == panel_dests(key_departures(deps@, *key), notes@));
        assert(counted(summary@, unsorted@) =~= counted(summary@, key_departures(deps@, *key)));
    }
    let heading = direction_heading(&line, key.direction, &summary, config, labels);
    let hour_groups = hour_rows(deps, &sorted, key, first_hour, end_hour, &notes, config);
    proof {
        assert(panel_order(deps@, *key, sorted@));
        assert(rows_complete(hour_groups@, deps@, sorted@, notes@, *config, first_hour, end_hour));
        assert(notes_complete(notes@, bands@, *key, band_order@));
    }
    let breaks = column_breaks(&hour_groups, config);
    let platform = panel_platform(deps, bands, key);
    let platform_label = match &platform {
        Some(code) => Some(labels.platform_label(code.as_str())),
        None => None,
    };
    TimetablePanel {
        key: panel_key(&line, key),
        line,
        direction_label: heading,
        direction: key.direction,
        platform_label,
        destination_summary: summary,
        hour_groups,
        column_breaks: breaks,
        frequency_notes: notes,
    }
}

// ----------------------------------------------------------------------
// The document
// ----------------------------------------------------------------------

/// A title with its `{station}`, `{line}`, and `{date}` placeholders
/// filled in.
pub open spec fn title_text(t: Seq<char>, station: Seq<char>, line: Seq<char>, date: Seq<char>) -> Seq<char> {
    crate::textbuf::replace_all(
        crate::textbuf::replace_all(
            crate::textbuf::replace_all(t, crate::text::placeholder("station"@), station),
            crate::text::placeholder("line"@),
            line,
        ),
        crate::text::placeholder("date"@),
        date,
    )
}

/// The name of the line a timetable is filtered to, or nothing.
pub open spec fn line_name_of(network: RailNetwork, line_filter: Option<usize>) -> Seq<char> {
    match line_filter {
        Some(l) => network.lines@[l as int].name@,
        None => Seq::empty(),
    }
}

/// The codes of the diagnostics that a timetable adds to those of its
/// query: a warning when no departure and no band reached it, and a
/// note when headway service was expanded.
pub open spec fn timetable_codes(empty: bool, config: PublicationConfig) -> Seq<Seq<char>> {
    (if empty {
        seq!["timetable-empty"@]
    } else {
        Seq::empty()
    }) + (if config.frequency_policy == crate::config::FrequencyPolicy::ExpandApproximate {
        seq!["timetable-approximate-expansion"@]
    } else {
        Seq::empty()
    })
}

/// The severities of the diagnostics that a timetable adds, in the
/// order of [`timetable_codes`]: the empty timetable warns, the
/// expansion is a note.
pub open spec fn timetable_severities(empty: bool, config: PublicationConfig) -> Seq<Severity> {
    (if empty {
        seq![Severity::Warning]
    } else {
        Seq::empty()
    }) + (if config.frequency_policy == crate::config::FrequencyPolicy::ExpandApproximate {
        seq![Severity::Info]
    } else {
        Seq::empty()
    })
}

/// The severities of a run of diagnostics.
pub open spec fn severities_of(ds: Seq<Diagnostic>) -> Seq<Severity> {
    ds.map_values(|d: Diagnostic| d.severity)
}

/// What a finished timetable holds, given the collected departures and
/// bands and the panel keys.
pub open spec fn document_ok(
    doc: TimetableDocument,
    deps: Seq<Collected>,
    bands: Seq<CollectedBand>,
    keys: Seq<PanelKey>,
    network: RailNetwork,
    config: PublicationConfig,
    labels: Labels,
) -> bool {
    &&& keys_ok(keys)
    &&& forall|v| #[trigger] has_key(keys, v) <==> key_in_use(deps, bands, v)
    &&& doc.panels@.len() == keys.len()
    &&& forall|p: int| 0 <= p < keys.len() ==> panel_ok(
        #[trigger] doc.panels@[p],
        deps,
        bands,
        keys[p],
        network,
        config,
        labels,
        doc.day_start.secs / 3600,
        rows_end(doc.day_end) as u32,
    )
    &&& doc.legend@.map_values(|i: LegendItem| legend_view(i)) == legend_spec(doc.panels@, labels)
}

/// Build a station timetable from the answer of a trip query for one
/// service date.
///
/// The query asks for the runs that call at the station between the
/// first hour and the end of the service day, under the frequency and
/// missing-time policies of the configuration, and for one line where
/// `line_filter` names one. `geometry_positive` says whether the
/// diagram geometry of the configuration is greater than zero.
///
/// The configuration is checked first; then a failed query is passed
/// on; then every call that a passenger can board at the station
/// within the service day becomes a departure of the panel of its line,
/// platform, direction, and destination, and every headway band a row
/// of its panel.
pub fn build_timetable(
    network: &RailNetwork,
    station: usize,
    service_date: crate::time::ServiceDate,
    line_filter: Option<usize>,
    config: &PublicationConfig,
    seed: &DocumentSeed,
    geometry_positive: bool,
    query: Result<crate::schedule::TripQueryResult, crate::error::GtfsError>,
) -> (r: Result<TimetableDocument, crate::error::PublicationError>)
    requires
        station < network.stations@.len(),
        line_filter matches Some(l) ==> l < network.lines@.len(),
        crate::config::config_error(*config, geometry_positive) is None ==> config.day_start.secs
            + config.day_duration_hours * 3600 <= u32::MAX,
        query matches Ok(result) ==> ((forall|t: int|
            0 <= t < result.trips@.len() ==> crate::schedule::trip_in_network(
                *network,
                #[trigger] result.trips@[t],
            )) && (forall|k: int|
            0 <= k < result.frequency_bands@.len() ==> band_fits(#[trigger] result.frequency_bands@[k])
                && result.frequency_bands@[k].line < network.lines@.len()) && (forall|k: int, i: int|
            0 <= k < result.frequency_bands@.len() && 0 <= i
                < result.frequency_bands@[k].template@.len() ==> (
            #[trigger] result.frequency_bands@[k].template@[i]).station < network.stations@.len())),
    ensures
        match crate::config::config_error(*config, geometry_positive) {
            Some(m) => r matches Err(crate::error::PublicationError::Configuration(e)) && e@ == m,
            None => match query {
                Err(g) => r == Err::<TimetableDocument, crate::error::PublicationError>(
                    crate::error::PublicationError::Gtfs(g),
                ),
                Ok(result) => r matches Ok(doc) && {
                    let labels = crate::text::labels_of(config.language);
                    let ds = config.day_start;
                    let de = GtfsTime { secs: (config.day_start.secs + config.day_duration_hours * 3600) as u32 };
                    &&& doc.day_start == ds
                    &&& doc.day_end == de
                    &&& doc.service_day_label@ == crate::text::service_date_heading(
                        config.language,
                        service_date.day_count(),
                    )
                    &&& doc.station.gtfs_id@ == network.stations@[station as int].gtfs_id@
                    &&& doc.station.name@ == network.stations@[station as int].name@
                    &&& string_views(doc.station.codes@) == string_views(network.stations@[station as int].codes@)
                    &&& doc.title.en@ == title_text(
                        config.timetable.title.en@,
                        network.stations@[station as int].name@,
                        line_name_of(*network, line_filter),
                        crate::text::service_date_heading(config.language, service_date.day_count()),
                    )
                    &&& opt_view(doc.title.ja) == match config.timetable.title.ja {
                        Some(j) => Some(title_text(
                            j@,
                            network.stations@[station as int].name@,
                            line_name_of(*network, line_filter),
                            crate::text::service_date_heading(config.language, service_date.day_count()),
                        )),
                        None => None,
                    }
                    &&& doc.metadata.service_date == service_date
                    &&& doc.metadata.feed_sha256@ == seed.feed_sha256@
                    &&& doc.metadata.generator_version@ == seed.generator_version@
                    &&& exists|deps: Seq<Collected>, bands: Seq<CollectedBand>, keys: Seq<PanelKey>| {
                        &&& deps.len() == qualifying(result.trips@, station, ds, de).len()
                        &&& forall|i: int| 0 <= i < deps.len() ==> collected_for(
                            #[trigger] deps[i],
                            qualifying(result.trips@, station, ds, de)[i],
                            result.trips@,
                            *network,
                            *config,
                            labels,
                        )
                        &&& bands.len() == qualifying_bands(result.frequency_bands@, station).len()
                        &&& forall|i: int| 0 <= i < bands.len() ==> band_matches(
                            #[trigger] bands[i],
                            *network,
                            result.frequency_bands@[qualifying_bands(result.frequency_bands@, station)[i]],
                            station,
                            ds,
                            de,
                            *config,
                            labels,
                        )
                        &&& document_ok(doc, deps, bands, keys, *network, *config, labels)
                        &&& codes_of_diagnostics(doc.metadata.diagnostics@) == codes_of_diagnostics(result.diagnostics@)
                            + timetable_codes(deps.len() == 0 && bands.len() == 0, *config)
                        &&& severities_of(doc.metadata.diagnostics@) == severities_of(result.diagnostics@)
                            + timetable_severities(deps.len() == 0 && bands.len() == 0, *config)
                    }
                },
            },
        },
{
    match config.check(geometry_positive) {
        Err(m) => return Err(crate::error::PublicationError::Configuration(m)),
        Ok(()) => {},
    }
    let labels = Labels::for_language(config.language);
    let day_start = config.day_start;
    let day_end = config.day_end();
    let result = match query {
        Ok(result) => result,
        Err(e) => return Err(crate::error::PublicationError::Gtfs(e)),
    };
    let deps = collect_departures(network, &result.trips, station, day_start, day_end, config, &labels);
    let bands = collect_bands(network, &result.frequency_bands, station, day_start, day_end, config, &labels);
    let mut diagnostics = result.diagnostics;
    let ghost query_codes = codes_of_diagnostics(diagnostics@);
    let ghost query_severities = severities_of(diagnostics@);
    if deps.len() == 0 && bands.len() == 0 {
        let mut message = owned("no boardable departure at ");
        push_str(&mut message, network.stations[station].name.as_str());
        push_str(&mut message, " on ");
        push_str(&mut message, service_date.to_text().as_str());
        push_str(&mut message, " between ");
        push_str(&mut message, day_start.to_text().as_str());
        push_str(&mut message, " and ");
        push_str(&mut message, day_end.to_text().as_str());
        diagnostics.push(Diagnostic::warning("timetable-empty", message));
    }
    let ghost mid = codes_of_diagnostics(diagnostics@);
    match config.frequency_policy {
        crate::config::FrequencyPolicy::ExpandApproximate => {
            diagnostics.push(
                Diagnostic::info(
                    "timetable-approximate-expansion",
                    owned(
                        "the frequency policy expanded headway service into approximate departures; every such departure carries the approximation mark",
                    ),
                ),
            );
        },
        crate::config::FrequencyPolicy::Bands => {},
    }
    proof {
        assert(codes_of_diagnostics(diagnostics@) =~= query_codes + timetable_codes(
            deps@.len() == 0 && bands@.len() == 0,
            *config,
        ));
        assert(severities_of(diagnostics@) =~= query_severities + timetable_severities(
            deps@.len() == 0 && bands@.len() == 0,
            *config,
        ));
    }
    let keys = panel_keys(&deps, &bands);
    proof {
        lemma_keys_in_network(
            deps@,
            bands@,
            keys@,
            *network,
            result.trips@,
            result.frequency_bands@,
            station,
            day_start,
            day_end,
            *config,
            labels,
        );
    }
    let first_hour = day_start.hours();
    let end_hour = rows_end_hour(day_end);
    let mut panels: Vec<TimetablePanel> = Vec::new();
    let mut p: usize = 0;
    while p < keys.len()
        invariant
            p <= keys@.len(),
            panels@.len() == p,
            forall|q: int| 0 <= q < keys@.len() ==> (#[trigger] keys@[q]).line < network.lines@.len(),
            forall|q: int| 0 <= q < p ==> panel_ok(
                #[trigger] panels@[q],
                deps@,
                bands@,
                keys@[q],
                *network,
                *config,
                labels,
                first_hour,
                end_hour,
            ),
        decreases keys@.len() - p,
    {
        let panel = build_panel(network, &deps, &bands, &keys[p], first_hour, end_hour, config, &labels);
        panels.push(panel);
        p = p + 1;
    }
    let legend = build_legend(&panels, &labels);
    let station_view = StationView::from_station(&network.stations[station]);
    let line_name = match line_filter {
        Some(l) => owned(network.lines[l].name.as_str()),
        None => String::new(),
    };
    let date_text = labels.service_date_text(service_date);
    let replacements = [
        ("station", network.stations[station].name.as_str()),
        ("line", line_name.as_str()),
        ("date", date_text.as_str()),
    ];
    let title = config.timetable.title.fill(&replacements);
    proof {
        reveal_with_fuel(crate::text::fill_text, 4);
        assert(replacements@.len() == 3);
    }
    let label = labels.service_date_text(service_date);
    let metadata = PublicationMetadata::new(seed, service_date, diagnostics);
    let doc = TimetableDocument {
        metadata,
        station: station_view,
        title,
        service_day_label: label,
        day_start,
        day_end,
        panels,
        legend,
    };
    proof {
        assert(document_ok(doc, deps@, bands@, keys@, *network, *config, labels));
    }
    Ok(doc)
}

proof fn lemma_keys_in_network(
    deps: Seq<Collected>,
    bands: Seq<CollectedBand>,
    keys: Seq<PanelKey>,
    network: RailNetwork,
    trips: Seq<TripInstance>,
    fbands: Seq<crate::schedule::FrequencyBand>,
    station: usize,
    ds: GtfsTime,
    de: GtfsTime,
    config: PublicationConfig,
    labels: Labels,
)
    requires
        forall|v| #[trigger] has_key(keys, v) <==> key_in_use(deps, bands, v),
        forall|t: int| 0 <= t < trips.len() ==> crate::schedule::trip_in_network(network, #[trigger] trips[t]),
        forall|k: int| 0 <= k < fbands.len() ==> (#[trigger] fbands[k]).line < network.lines@.len(),
        deps.len() == qualifying(trips, station, ds, de).len(),
        forall|i: int| 0 <= i < deps.len() ==> collected_for(
            #[trigger] deps[i],
            qualifying(trips, station, ds, de)[i],
            trips,
            network,
            config,
            labels,
        ),
        bands.len() == qualifying_bands(fbands, station).len(),
        forall|i: int| 0 <= i < bands.len() ==> band_matches(
            #[trigger] bands[i],
            network,
            fbands[qualifying_bands(fbands, station)[i]],
            station,
            ds,
            de,
            config,
            labels,
        ),
    ensures
        forall|q: int| 0 <= q < keys.len() ==> (#[trigger] keys[q]).line < network.lines@.len(),
{
    lemma_qualifying_bands_bounds(fbands, station);
    assert forall|q: int| 0 <= q < keys.len() implies (#[trigger] keys[q]).line < network.lines@.len() by {
        assert(has_key(keys, key_view(keys[q])));
        if exists|i: int| 0 <= i < deps.len() && key_view(#[trigger] deps[i].key) == key_view(keys[q]) {
            let i = choose|i: int| 0 <= i < deps.len() && key_view(#[trigger] deps[i].key) == key_view(keys[q]);
            let w = qualifying(trips, station, ds, de)[i];
            assert(collected_for(deps[i], w, trips, network, config, labels));
            assert(crate::schedule::trip_in_network(network, trips[w.0]));
        } else {
            let i = choose|i: int| 0 <= i < bands.len() && key_view(#[trigger] bands[i].key) == key_view(keys[q]);
            let b = qualifying_bands(fbands, station)[i];
            assert(band_matches(bands[i], network, fbands[b], station, ds, de, config, labels));
            assert(fbands[b].line < network.lines@.len());
        }
    }
}

/// The codes of a run of diagnostics.
pub open spec fn codes_of_diagnostics(ds: Seq<Diagnostic>) -> Seq<Seq<char>> {
    ds.map_values(|d: Diagnostic| d.code@)
}

proof fn lemma_qualifying_bands_bounds(bands: Seq<crate::schedule::FrequencyBand>, station: usize)
    ensures
        forall|i: int| 0 <= i < qualifying_bands(bands, station).len() ==> 0 <= #[trigger] qualifying_bands(bands, station)[i] < bands.len(),
    decreases bands.len(),
{
    if bands.len() > 0 {
        lemma_qualifying_bands_bounds(bands.drop_last(), station);
        let r = qualifying_bands(bands, station);
        let q = qualifying_bands(bands.drop_last(), station);
        assert forall|i: int| 0 <= i < r.len() implies 0 <= #[trigger] r[i] < bands.len() by {
            if i < q.len() {
                assert(r[i] == q[i]);
            }
        }
    }
}

proof fn lemma_calls_from_holds(trip: TripInstance, station: usize, start: GtfsTime, end: GtfsTime, n: int, c: int)
    requires
        0 <= n <= trip.calls@.len(),
    ensures
        calls_from(trip, station, start, end, n).contains(c) <==> (0 <= c < n && qualifies(
            trip,
            c,
            station,
            start,
            end,
        )),
    decreases n,
{
    if n > 0 {
        lemma_calls_from_holds(trip, station, start, end, n - 1, c);
        let prev = calls_from(trip, station, start, end, n - 1);
        let tail = if qualifies(trip, n - 1, station, start, end) {
            seq![n - 1]
        } else {
            Seq::<int>::empty()
        };
        let all = calls_from(trip, station, start, end, n);
        assert(all == prev + tail);
        if prev.contains(c) {
            let j = choose|j: int| 0 <= j < prev.len() && prev[j] == c;
            assert(all[j] == c);
        }
        if c == n - 1 && qualifies(trip, n - 1, station, start, end) {
            assert(all[prev.len() as int] == c);
        }
        if all.contains(c) {
            let j = choose|j: int| 0 <= j < all.len() && all[j] == c;
            if j < prev.len() {
                assert(prev[j] == c);
            } else {
                assert(tail[j - prev.len()] == c);
            }
        }
    }
}

proof fn lemma_qualifying_holds(trips: Seq<TripInstance>, station: usize, start: GtfsTime, end: GtfsTime, t: int, c: int)
    ensures
        qualifying(trips, station, start, end).contains((t, c)) <==> (0 <= t < trips.len() && qualifies(
            trips[t],
            c,
            station,
            start,
            end,
        )),
    decreases trips.len(),
{
    if trips.len() > 0 {
        let last = trips.len() - 1;
        let front = trips.drop_last();
        lemma_qualifying_holds(front, station, start, end, t, c);
        let prev = qualifying(front, station, start, end);
        let cs = calls_from(trips.last(), station, start, end, trips.last().calls@.len() as int);
        let here = cs.map_values(|x: int| (last, x));
        let all = qualifying(trips, station, start, end);
        assert(all == prev + here);
        lemma_calls_from_holds(trips.last(), station, start, end, trips.last().calls@.len() as int, c);
        if 0 <= t < last {
            assert(front[t] == trips[t]);
        }
        if prev.contains((t, c)) {
            let j = choose|j: int| 0 <= j < prev.len() && prev[j] == (t, c);
            assert(all[j] == (t, c));
        }
        if t == last && cs.contains(c) {
            let j = choose|j: int| 0 <= j < cs.len() && cs[j] == c;
            assert(here[j] == (t, c));
            assert(all[prev.len() + j] == (t, c));
        }
        if all.contains((t, c)) {
            let j = choose|j: int| 0 <= j < all.len() && all[j] == (t, c);
            if j < prev.len() {
                assert(prev[j] == (t, c));
            } else {
                assert(here[j - prev.len()] == (t, c));
                assert(cs[j - prev.len()] == c);
            }
        }
    }
}

/// The departures of a timetable are exactly the calls of the runs
/// that stop at the station, let passengers board, are followed by a
/// later call of their run, and carry a time inside the service day.
/// In particular the last call of a run, where a train ends, is never a
/// departure.
pub proof fn lemma_departures_are_boardable_calls_with_a_later_call(
    trips: Seq<TripInstance>,
    station: usize,
    start: GtfsTime,
    end: GtfsTime,
    t: int,
    c: int,
)
    ensures
        qualifying(trips, station, start, end).contains((t, c)) <==> {
            &&& 0 <= t < trips.len()
            &&& 0 <= c && c + 1 < trips[t].calls@.len()
            &&& trips[t].calls@[c].station == station
            &&& trips[t].calls@[c].pickup_allowed
            &&& crate::schedule::departure_or_arrival_of(trips[t].calls@[c]) matches Some(x)
            &&& start.secs <= x.secs && x.secs < end.secs
        },
{
    lemma_qualifying_holds(trips, station, start, end, t, c);
}

} // verus!
