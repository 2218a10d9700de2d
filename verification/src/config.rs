//! The publication configuration.
//!
//! One configuration drives both outputs. It carries the presentation
//! choices that GTFS cannot answer: how long the service day is, how
//! many columns a printed timetable uses, which direction headings to
//! override, and which corridor a diagram draws.
//!
//! Everything here is a *presentation* choice. No option here invents
//! schedule data. An option that changes what the data means — the
//! frequency policy and the missing-time policy — names the policy
//! explicitly and the renderers mark the result.
//!
//! The two geometric settings of the diagram, the width of an hour and
//! the height of a station row, are floating-point numbers and travel
//! beside this configuration rather than inside it.

use vstd::prelude::*;

use crate::text::{Language, LocalizedText, localized_get};
use crate::textbuf::{decimal, owned, push_char, push_decimal, push_str, str_eq, trim_white};
use crate::time::GtfsTime;

verus! {

/// The configuration schema version that this crate understands.
pub const CONFIG_VERSION: u32 = 1;

/// How headway-based service reaches a document.
#[derive(Copy, Clone, Debug, PartialEq, Eq)]
pub enum FrequencyPolicy {
    /// Headway service becomes a band with an approximation mark.
    Bands,
    /// Headway service is expanded into approximate departures, every
    /// one of them marked.
    ExpandApproximate,
}

/// How the schedule query fills in stop times that the feed leaves
/// empty.
#[derive(Copy, Clone, Debug, PartialEq, Eq)]
pub enum MissingTimePolicy {
    /// A call without a time keeps no time.
    Keep,
    /// A missing time is interpolated between two published ones.
    InterpolateBounded,
}

/// How a timetable panel splits into columns.
#[derive(Copy, Clone, Debug, PartialEq, Eq)]
pub enum ColumnLayout {
    /// One continuous hour table.
    Single,
    /// Split at the service hours in [`TimetableConfig::split_at`].
    SplitAt,
    /// Distribute the hour rows evenly, in order.
    Balanced,
    /// Balanced on a wide screen and in print, stacked on a narrow
    /// screen. This is the default.
    Responsive,
}

/// When a departure shows its seconds.
#[derive(Copy, Clone, Debug, PartialEq, Eq)]
pub enum SecondsDisplay {
    /// Never show seconds.
    Hide,
    /// Always show seconds.
    Show,
    /// Show seconds only when they are not zero. This is the default.
    ShowIfNonzero,
}

/// The timetable options.
#[derive(Clone, Debug)]
pub struct TimetableConfig {
    /// How the panel splits into columns.
    pub layout: ColumnLayout,
    /// How many columns a balanced or responsive layout uses.
    pub columns: usize,
    /// The service hours at which [`ColumnLayout::SplitAt`] breaks.
    pub split_at: Vec<u32>,
    /// Show an hour row that carries no departure.
    pub show_empty_hours: bool,
    /// When a departure shows its seconds.
    pub seconds: SecondsDisplay,
    /// Give each platform its own panel, when the feed names
    /// platforms.
    pub group_by_platform: bool,
    /// Give each destination its own panel.
    pub split_by_destination: bool,
    /// Mark the first and the last departure of each panel.
    pub mark_first_and_last: bool,
    /// Show the public trip name next to a departure, when the feed
    /// supplies one.
    pub show_trip_short_name: bool,
    /// The page title. `{station}`, `{line}`, and `{date}` fill in.
    pub title: LocalizedText,
}

/// How a diagram spaces the stations on the vertical axis.
#[derive(Copy, Clone, Debug, PartialEq, Eq)]
pub enum StationSpacing {
    /// Every station gets the same height. This is the default.
    Equal,
    /// Space the stations by the distance between them. Falls back to
    /// equal spacing when the feed carries no usable distance.
    Distance,
    /// Use the offsets from the corridor configuration.
    Manual,
}

/// When a diagram writes a label on a train path.
#[derive(Copy, Clone, Debug, PartialEq, Eq)]
pub enum TripLabelMode {
    /// Never write a label.
    Never,
    /// Write a label where one fits without overlapping. This is the
    /// default.
    Auto,
    /// Write every label, even where they overlap.
    Always,
}

/// The diagram options that are not geometry.
#[derive(Clone, Debug)]
pub struct DiagramConfig {
    /// How the stations are spaced.
    pub station_spacing: StationSpacing,
    /// The interval of the strong grid lines, in minutes.
    pub major_grid_minutes: u32,
    /// The interval of the medium grid lines, in minutes.
    pub medium_grid_minutes: u32,
    /// The interval of the faint grid lines, in minutes.
    pub minor_grid_minutes: u32,
    /// Draw the horizontal segment where a train stands at a station.
    pub show_dwell: bool,
    /// When to write a label on a train path.
    pub show_trip_labels: TripLabelMode,
    /// Put the internal GTFS `trip_id` in the hover details.
    ///
    /// The identifier never appears as a passenger-facing train
    /// number, whatever this option says.
    pub show_internal_trip_ids: bool,
    /// The page title. `{line}`, `{corridor}`, and `{date}` fill in.
    pub title: LocalizedText,
}

/// The label overrides.
///
/// Every override is explicit. Nothing here is derived from the feed.
/// Each table holds one entry per key.
#[derive(Clone, Debug)]
pub struct LabelConfig {
    /// Direction headings, keyed by `<route_id>:<direction_id>`, for
    /// example `NS:0`. Use `NS:none` for a route without a direction.
    pub direction_overrides: Vec<(String, LocalizedText)>,
    /// Short forms of destination names, keyed by the full name.
    pub destination_abbreviations: Vec<(String, String)>,
    /// Platform labels, keyed by the GTFS `stop_id` of the platform.
    pub platform_overrides: Vec<(String, String)>,
    /// Corridor headings, keyed by the corridor identifier.
    pub corridor_overrides: Vec<(String, LocalizedText)>,
}

/// The visual theme.
#[derive(Clone, Debug)]
pub struct ThemeConfig {
    /// The font families, in order of preference.
    pub font_stack: Vec<String>,
    /// The background of the hour cells, as a CSS color.
    pub hour_cell: String,
    /// The text color on the hour cells.
    pub hour_cell_text: String,
    /// The background of an alternating row.
    pub row_alternate: String,
    /// The page background.
    pub background: String,
    /// The page text color.
    pub text: String,
    /// The fallback accent when a line carries no color.
    pub accent: String,
}

/// A branch of a corridor.
#[derive(Clone, Debug)]
pub struct BranchConfig {
    /// The station of the main axis where the branch leaves it.
    pub junction: String,
    /// The stations of the branch, in travel order away from the
    /// junction.
    pub axis: Vec<String>,
    /// The heading of the branch panel.
    pub label: Option<LocalizedText>,
}

/// A hand-written corridor for a diagram.
#[derive(Clone, Debug)]
pub struct CorridorConfig {
    /// The identifier that the command line selects.
    pub id: String,
    /// The line whose trips the corridor draws.
    pub line: Option<String>,
    /// The heading of the corridor.
    pub label: Option<LocalizedText>,
    /// The stations of the main axis, in travel order.
    pub axis: Vec<String>,
    /// The branches that leave the main axis.
    pub branches: Vec<BranchConfig>,
}

/// The whole publication configuration.
#[derive(Clone, Debug)]
pub struct PublicationConfig {
    /// The schema version of the configuration file.
    pub version: u32,
    /// A free-text profile name, for example `singapore-lta`.
    pub profile: Option<String>,
    /// The time zone that the output states.
    pub timezone: Option<String>,
    /// The first hour of the timetable service day.
    pub day_start: GtfsTime,
    /// How many hours the service day covers.
    pub day_duration_hours: u32,
    /// How to treat headway-based service.
    pub frequency_policy: FrequencyPolicy,
    /// How to fill in missing stop times.
    pub missing_time_policy: MissingTimePolicy,
    /// The language of the user-interface labels.
    pub language: Language,
    /// The timetable options.
    pub timetable: TimetableConfig,
    /// The diagram options.
    pub diagram: DiagramConfig,
    /// The label overrides.
    pub labels: LabelConfig,
    /// The visual theme.
    pub theme: ThemeConfig,
    /// The corridor definitions for diagrams.
    pub corridors: Vec<CorridorConfig>,
}

/// Look up a key in a table, the first entry with the key.
pub open spec fn table_get<V>(table: Seq<(String, V)>, key: Seq<char>) -> Option<V>
    decreases table.len(),
{
    if table.len() == 0 {
        None
    } else if table[0].0@ == key {
        Some(table[0].1)
    } else {
        table_get(table.skip(1), key)
    }
}

/// Find the entry of a table under a key.
pub fn table_find<V>(table: &Vec<(String, V)>, key: &str) -> (r: Option<usize>)
    ensures
        r matches Some(i) ==> i < table@.len() && table_get(table@, key@) == Some(table@[i as int].1),
        r is None ==> table_get(table@, key@) is None,
{
    let mut i: usize = 0;
    proof {
        assert(table@.skip(0) =~= table@);
    }
    while i < table.len()
        invariant
            i <= table@.len(),
            table_get(table@, key@) == table_get(table@.skip(i as int), key@),
        decreases table@.len() - i,
    {
        proof {
            assert(table@.skip(i as int)[0] == table@[i as int]);
            assert(table@.skip(i as int).skip(1) =~= table@.skip(i + 1));
        }
        if str_eq(table[i].0.as_str(), key) {
            return Some(i);
        }
        i = i + 1;
    }
    None
}

/// The key of a direction override.
pub open spec fn direction_key_text(route_id: Seq<char>, direction: Option<u8>) -> Seq<char> {
    match direction {
        Some(v) => route_id + seq![':'] + decimal(v as nat),
        None => route_id + ":none"@,
    }
}

impl LabelConfig {
    /// Build the key of a direction override.
    pub fn direction_key(route_id: &str, direction: Option<u8>) -> (k: String)
        ensures
            k@ == direction_key_text(route_id@, direction),
    {
        let mut out = owned(route_id);
        match direction {
            Some(v) => {
                push_char(&mut out, ':');
                push_decimal(&mut out, v as u64);
            },
            None => push_str(&mut out, ":none"),
        }
        proof {
            assert(out@ =~= direction_key_text(route_id@, direction));
        }
        out
    }

    /// Get the configured direction heading, if one exists.
    pub fn direction_override(&self, route_id: &str, direction: Option<u8>, language: Language) -> (r:
        Option<String>)
        ensures
            match table_get(self.direction_overrides@, direction_key_text(route_id@, direction)) {
                Some(t) => r matches Some(s) && s@ == localized_get(t, language),
                None => r is None,
            },
    {
        let key = Self::direction_key(route_id, direction);
        match table_find(&self.direction_overrides, key.as_str()) {
            Some(i) => Some(owned(self.direction_overrides[i].1.get(language))),
            None => None,
        }
    }

    /// Get the short form of a destination, or the name itself.
    pub fn abbreviate<'a>(&'a self, destination: &'a str) -> (s: &'a str)
        ensures
            s@ == match table_get(self.destination_abbreviations@, destination@) {
                Some(short) => short@,
                None => destination@,
            },
    {
        match table_find(&self.destination_abbreviations, destination) {
            Some(i) => self.destination_abbreviations[i].1.as_str(),
            None => destination,
        }
    }
}

} // verus!

verus! {

/// The first branch of a corridor whose junction is not on its axis.
pub open spec fn branch_error(k: CorridorConfig, b: int) -> Option<Seq<char>>
    decreases k.branches@.len() - b,
{
    if b < 0 || b >= k.branches@.len() {
        None
    } else if !(exists|s: int| 0 <= s < k.axis@.len() && k.axis@[s]@ == k.branches@[b].junction@) {
        Some("the branch junction \""@ + k.branches@[b].junction@ + "\" of corridor \""@ + k.id@
            + "\" is not on its axis"@)
    } else {
        branch_error(k, b + 1)
    }
}

/// The first problem of the corridors from index `i` on.
pub open spec fn corridor_error(cs: Seq<CorridorConfig>, i: int) -> Option<Seq<char>>
    decreases cs.len() - i,
{
    if i < 0 || i >= cs.len() {
        None
    } else if trim_white(cs[i].id@).len() == 0 {
        Some("every corridor needs a non-empty id"@)
    } else if exists|j: int| 0 <= j < i && cs[j].id@ == cs[i].id@ {
        Some("the corridor id \""@ + cs[i].id@ + "\" appears twice"@)
    } else if cs[i].axis@.len() < 2 {
        Some("the corridor \""@ + cs[i].id@ + "\" needs at least two stations on its axis"@)
    } else {
        match branch_error(cs[i], 0) {
            Some(e) => Some(e),
            None => corridor_error(cs, i + 1),
        }
    }
}

/// The first problem of a configuration, or `None` when it can work.
///
/// `geometry_positive` says whether the width of an hour and the height
/// of a station row, the two floating-point settings of the diagram,
/// are greater than zero.
pub open spec fn config_error(c: PublicationConfig, geometry_positive: bool) -> Option<Seq<char>> {
    if c.version != CONFIG_VERSION {
        Some("the configuration states version "@ + decimal(c.version as nat)
            + ", but this build understands version 1"@)
    } else if c.day_duration_hours == 0 || c.day_duration_hours > 48 {
        Some("day_duration_hours is "@ + decimal(c.day_duration_hours as nat)
            + "; use a value from 1 to 48"@)
    } else if c.timetable.columns == 0 || c.timetable.columns > 6 {
        Some("timetable.columns is "@ + decimal(c.timetable.columns as nat)
            + "; use a value from 1 to 6"@)
    } else if c.diagram.major_grid_minutes == 0 {
        Some("diagram.major_grid_minutes must be greater than zero"@)
    } else if c.diagram.medium_grid_minutes == 0 {
        Some("diagram.medium_grid_minutes must be greater than zero"@)
    } else if c.diagram.minor_grid_minutes == 0 {
        Some("diagram.minor_grid_minutes must be greater than zero"@)
    } else if !geometry_positive {
        Some("diagram.pixels_per_hour and diagram.row_height must be greater than zero"@)
    } else {
        corridor_error(c.corridors@, 0)
    }
}

fn axis_has(axis: &Vec<String>, name: &str) -> (r: bool)
    ensures
        r == exists|s: int| 0 <= s < axis@.len() && axis@[s]@ == name@,
{
    let mut s: usize = 0;
    while s < axis.len()
        invariant
            s <= axis@.len(),
            forall|t: int| 0 <= t < s ==> axis@[t]@ != name@,
        decreases axis@.len() - s,
    {
        if str_eq(axis[s].as_str(), name) {
            return true;
        }
        s = s + 1;
    }
    false
}

fn check_branches(k: &CorridorConfig) -> (r: Option<String>)
    ensures
        match branch_error(*k, 0) {
            Some(e) => r matches Some(m) && m@ == e,
            None => r is None,
        },
{
    let mut b: usize = 0;
    while b < k.branches.len()
        invariant
            b <= k.branches@.len(),
            branch_error(*k, 0) == branch_error(*k, b as int),
        decreases k.branches@.len() - b,
    {
        let branch = &k.branches[b];
        if !axis_has(&k.axis, branch.junction.as_str()) {
            let mut m = String::new();
            push_str(&mut m, "the branch junction \"");
            push_str(&mut m, branch.junction.as_str());
            push_str(&mut m, "\" of corridor \"");
            push_str(&mut m, k.id.as_str());
            push_str(&mut m, "\" is not on its axis");
            proof {
                assert(m@ =~= "the branch junction \""@ + k.branches@[b as int].junction@
                    + "\" of corridor \""@ + k.id@ + "\" is not on its axis"@);
            }
            return Some(m);
        }
        b = b + 1;
    }
    None
}

fn check_corridors(cs: &Vec<CorridorConfig>) -> (r: Option<String>)
    ensures
        match corridor_error(cs@, 0) {
            Some(e) => r matches Some(m) && m@ == e,
            None => r is None,
        },
{
    let mut i: usize = 0;
    while i < cs.len()
        invariant
            i <= cs@.len(),
            corridor_error(cs@, 0) == corridor_error(cs@, i as int),
        decreases cs@.len() - i,
    {
        let k = &cs[i];
        let idv = crate::textbuf::chars_of(k.id.as_str());
        let trimmed = crate::textbuf::trim(&idv);
        if trimmed.as_str().is_empty() {
            return Some(owned("every corridor needs a non-empty id"));
        }
        let mut j: usize = 0;
        while j < i
            invariant
                j <= i < cs@.len(),
                *k == cs@[i as int],
                trim_white(cs@[i as int].id@).len() != 0,
                corridor_error(cs@, 0) == corridor_error(cs@, i as int),
                forall|t: int| 0 <= t < j ==> cs@[t].id@ != cs@[i as int].id@,
            decreases i - j,
        {
            if str_eq(cs[j].id.as_str(), k.id.as_str()) {
                let mut m = String::new();
                push_str(&mut m, "the corridor id \"");
                push_str(&mut m, k.id.as_str());
                push_str(&mut m, "\" appears twice");
                proof {
                    assert(m@ =~= "the corridor id \""@ + cs@[i as int].id@ + "\" appears twice"@);
                    assert(cs@[j as int].id@ == cs@[i as int].id@);
                    assert(trim_white(cs@[i as int].id@).len() != 0);
                }
                return Some(m);
            }
            j = j + 1;
        }
        if k.axis.len() < 2 {
            let mut m = String::new();
            push_str(&mut m, "the corridor \"");
            push_str(&mut m, k.id.as_str());
            push_str(&mut m, "\" needs at least two stations on its axis");
            proof {
                assert(m@ =~= "the corridor \""@ + cs@[i as int].id@
                    + "\" needs at least two stations on its axis"@);
            }
            return Some(m);
        }
        let b = check_branches(k);
        if b.is_some() {
            return b;
        }
        i = i + 1;
    }
    None
}

fn numbered_message(head: &str, value: u64, tail: &str) -> (m: String)
    ensures
        m@ == head@ + decimal(value as nat) + tail@,
{
    let mut m = owned(head);
    push_decimal(&mut m, value);
    push_str(&mut m, tail);
    m
}

impl PublicationConfig {
    /// Get the exclusive end of the timetable service day.
    pub fn day_end(&self) -> (t: GtfsTime)
        requires
            self.day_start.secs + self.day_duration_hours * 3600 <= u32::MAX,
        ensures
            t.secs == self.day_start.secs + self.day_duration_hours * 3600,
    {
        self.day_start.plus_seconds(self.day_duration_hours * 3600)
    }

    /// Check the configuration for values that cannot work.
    ///
    /// `geometry_positive` says whether the width of an hour and the
    /// height of a station row, which travel beside the configuration
    /// as floating-point numbers, are greater than zero.
    pub fn check(&self, geometry_positive: bool) -> (r: Result<(), String>)
        ensures
            match config_error(*self, geometry_positive) {
                Some(e) => r matches Err(m) && m@ == e,
                None => r is Ok,
            },
    {
        if self.version != CONFIG_VERSION {
            return Err(
                numbered_message(
                    "the configuration states version ",
                    self.version as u64,
                    ", but this build understands version 1",
                ),
            );
        }
        if self.day_duration_hours == 0 || self.day_duration_hours > 48 {
            return Err(
                numbered_message(
                    "day_duration_hours is ",
                    self.day_duration_hours as u64,
                    "; use a value from 1 to 48",
                ),
            );
        }
        if self.timetable.columns == 0 || self.timetable.columns > 6 {
            return Err(
                numbered_message(
                    "timetable.columns is ",
                    self.timetable.columns as u64,
                    "; use a value from 1 to 6",
                ),
            );
        }
        if self.diagram.major_grid_minutes == 0 {
            return Err(owned("diagram.major_grid_minutes must be greater than zero"));
        }
        if self.diagram.medium_grid_minutes == 0 {
            return Err(owned("diagram.medium_grid_minutes must be greater than zero"));
        }
        if self.diagram.minor_grid_minutes == 0 {
            return Err(owned("diagram.minor_grid_minutes must be greater than zero"));
        }
        if !geometry_positive {
            return Err(
                owned("diagram.pixels_per_hour and diagram.row_height must be greater than zero"),
            );
        }
        match check_corridors(&self.corridors) {
            Some(m) => Err(m),
            None => Ok(()),
        }
    }

    /// Find a corridor definition by identifier.
    pub fn corridor(&self, id: &str) -> (r: Option<&CorridorConfig>)
        ensures
            r matches Some(c) ==> c.id@ == id@ && exists|i: int|
                0 <= i < self.corridors@.len() && self.corridors@[i] == *c && (forall|j: int|
                    0 <= j < i ==> self.corridors@[j].id@ != id@),
            r is None ==> forall|i: int| 0 <= i < self.corridors@.len() ==> self.corridors@[i].id@ != id@,
    {
        let mut i: usize = 0;
        while i < self.corridors.len()
            invariant
                i <= self.corridors@.len(),
                forall|j: int| 0 <= j < i ==> self.corridors@[j].id@ != id@,
            decreases self.corridors@.len() - i,
        {
            if str_eq(self.corridors[i].id.as_str(), id) {
                return Some(&self.corridors[i]);
            }
            i = i + 1;
        }
        None
    }
}

impl Default for TimetableConfig {
    fn default() -> (c: TimetableConfig)
        ensures
            c.layout == ColumnLayout::Responsive,
            c.columns == 2,
            c.split_at@.len() == 0,
            c.show_empty_hours,
            c.seconds == SecondsDisplay::ShowIfNonzero,
            c.group_by_platform,
            !c.split_by_destination,
            c.mark_first_and_last,
            c.show_trip_short_name,
            c.title.en@ == "{station} departure timetable"@,
            c.title.ja matches Some(j) && j@ == "{station} 発車時刻表"@,
    {
        TimetableConfig {
            layout: ColumnLayout::Responsive,
            columns: 2,
            split_at: Vec::new(),
            show_empty_hours: true,
            seconds: SecondsDisplay::ShowIfNonzero,
            group_by_platform: true,
            split_by_destination: false,
            mark_first_and_last: true,
            show_trip_short_name: true,
            title: LocalizedText::both("{station} departure timetable", "{station} 発車時刻表"),
        }
    }
}

impl Default for DiagramConfig {
    fn default() -> (c: DiagramConfig)
        ensures
            c.station_spacing == StationSpacing::Equal,
            c.major_grid_minutes == 60,
            c.medium_grid_minutes == 30,
            c.minor_grid_minutes == 10,
            c.show_dwell,
            c.show_trip_labels == TripLabelMode::Auto,
            !c.show_internal_trip_ids,
            c.title.en@ == "{corridor} train diagram"@,
            c.title.ja matches Some(j) && j@ == "{corridor} 列車ダイヤグラム"@,
    {
        DiagramConfig {
            station_spacing: StationSpacing::Equal,
            major_grid_minutes: 60,
            medium_grid_minutes: 30,
            minor_grid_minutes: 10,
            show_dwell: true,
            show_trip_labels: TripLabelMode::Auto,
            show_internal_trip_ids: false,
            title: LocalizedText::both("{corridor} train diagram", "{corridor} 列車ダイヤグラム"),
        }
    }
}

impl Default for LabelConfig {
    fn default() -> (c: LabelConfig)
        ensures
            c.direction_overrides@.len() == 0,
            c.destination_abbreviations@.len() == 0,
            c.platform_overrides@.len() == 0,
            c.corridor_overrides@.len() == 0,
    {
        LabelConfig {
            direction_overrides: Vec::new(),
            destination_abbreviations: Vec::new(),
            platform_overrides: Vec::new(),
            corridor_overrides: Vec::new(),
        }
    }
}

impl Default for ThemeConfig {
    fn default() -> (c: ThemeConfig)
        ensures
            c.font_stack@.len() == 5,
            c.font_stack@[0]@ == "Noto Sans"@,
            c.font_stack@[1]@ == "Noto Sans JP"@,
            c.font_stack@[2]@ == "Hiragino Kaku Gothic ProN"@,
            c.font_stack@[3]@ == "Arial"@,
            c.font_stack@[4]@ == "sans-serif"@,
            c.hour_cell@ == "#1b2a5e"@,
            c.hour_cell_text@ == "#ffffff"@,
            c.row_alternate@ == "#eef1f8"@,
            c.background@ == "#ffffff"@,
            c.text@ == "#14171f"@,
            c.accent@ == "#1b2a5e"@,
    {
        let mut font_stack: Vec<String> = Vec::new();
        font_stack.push(owned("Noto Sans"));
        font_stack.push(owned("Noto Sans JP"));
        font_stack.push(owned("Hiragino Kaku Gothic ProN"));
        font_stack.push(owned("Arial"));
        font_stack.push(owned("sans-serif"));
        ThemeConfig {
            font_stack,
            hour_cell: owned("#1b2a5e"),
            hour_cell_text: owned("#ffffff"),
            row_alternate: owned("#eef1f8"),
            background: owned("#ffffff"),
            text: owned("#14171f"),
            accent: owned("#1b2a5e"),
        }
    }
}

impl Default for CorridorConfig {
    fn default() -> (c: CorridorConfig)
        ensures
            c.id@.len() == 0,
            c.line is None,
            c.label is None,
            c.axis@.len() == 0,
            c.branches@.len() == 0,
    {
        CorridorConfig {
            id: String::new(),
            line: None,
            label: None,
            axis: Vec::new(),
            branches: Vec::new(),
        }
    }
}

impl Default for PublicationConfig {
    /// The defaults: version 1, a service day from 04:00 for 24 hours,
    /// headway bands, bounded interpolation, English labels.
    fn default() -> (c: PublicationConfig)
        ensures
            c.version == CONFIG_VERSION,
            c.profile is None,
            c.timezone is None,
            c.day_start.secs == 4 * 3600,
            c.day_duration_hours == 24,
            c.frequency_policy == FrequencyPolicy::Bands,
            c.missing_time_policy == MissingTimePolicy::InterpolateBounded,
            c.language == Language::En,
            c.timetable.columns == 2,
            c.timetable.layout == ColumnLayout::Responsive,
            c.timetable.seconds == SecondsDisplay::ShowIfNonzero,
            c.diagram.major_grid_minutes == 60,
            c.diagram.medium_grid_minutes == 30,
            c.diagram.minor_grid_minutes == 10,
            c.labels.direction_overrides@.len() == 0,
            c.labels.destination_abbreviations@.len() == 0,
            c.labels.platform_overrides@.len() == 0,
            c.labels.corridor_overrides@.len() == 0,
            c.theme.accent@ == "#1b2a5e"@,
            c.theme.hour_cell@ == "#1b2a5e"@,
            c.corridors@.len() == 0,
            config_error(c, true) is None,
    {
        PublicationConfig {
            version: CONFIG_VERSION,
            profile: None,
            timezone: None,
            day_start: GtfsTime::from_hms(4, 0, 0),
            day_duration_hours: 24,
            frequency_policy: FrequencyPolicy::Bands,
            missing_time_policy: MissingTimePolicy::InterpolateBounded,
            language: Language::En,
            timetable: TimetableConfig::default(),
            diagram: DiagramConfig::default(),
            labels: LabelConfig::default(),
            theme: ThemeConfig::default(),
            corridors: Vec::new(),
        }
    }
}

} // verus!
