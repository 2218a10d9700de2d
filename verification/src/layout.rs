//! The schematic layout, and its binding to the rail network.
//!
//! The map is schematic, so the drawing is data: an OpenFantasyMap
//! GeoJSON export. The reader takes the features as plain records, the
//! fields that the export carries read out of each, and decides what
//! becomes a line, what becomes a station, and what is reported. The
//! coordinates stay with the caller, who finds them again by the index
//! of the feature that each line and station records.
//!
//! The binding joins the layout stations to the network stations by
//! station code, never by name, and reports both directions of what did
//! not match: a layout station that no network station answers, and a
//! network station that the layout draws nowhere.

use vstd::prelude::*;

use crate::common::{diagnostic_view, diagnostic_views, string_views, Diagnostic, Severity};
use crate::map::codes_of;
use crate::schedule::RailNetwork;
use crate::textbuf::{
    ascii_alnum, chars_of, is_ascii_alnum, lower_seq, owned, push_str, str_eq, to_ascii_lower,
    trim, trim_white, ascii_lower,
};
use crate::timetable::opt_view;

verus! {

// ----------------------------------------------------------------------
// The features of the export
// ----------------------------------------------------------------------

/// The geometry of a feature, as far as the reader uses it.
#[derive(Copy, Clone, Debug, PartialEq, Eq, Structural)]
pub enum FeatureGeometry {
    /// A `LineString` with this many usable positions.
    LineString(usize),
    /// A `Point`, whose position is usable or not.
    Point(bool),
    /// A `Polygon` whose outer ring, without its repeated closing
    /// position, has this many usable positions.
    Polygon(usize),
    /// Any other geometry, or none.
    Other,
}

/// One feature of the export, with the properties that the reader
/// uses, as the export writes them.
#[derive(Clone, Debug)]
pub struct LayoutFeature {
    /// The OpenFantasyMap kind, `ofm`.
    pub kind: Option<String>,
    /// The identifier.
    pub id: Option<String>,
    /// The geometry.
    pub geometry: FeatureGeometry,
    /// The display name.
    pub name: Option<String>,
    /// The editor's drawing mode of a line.
    pub mode: Option<String>,
    /// The colour of a line.
    pub color: Option<String>,
    /// The `visible` flag of a line, where the export writes one.
    pub visible: Option<bool>,
    /// The `lineId` of the branch link of a line.
    pub branch_line: Option<String>,
    /// The `nodeIndex` of the branch link of a line.
    pub branch_node: Option<usize>,
    /// The station code.
    pub code: Option<String>,
    /// The `lineId` of a station.
    pub line_id: Option<String>,
    /// Whether the station carries its arc position `t` as a number.
    pub has_t: bool,
}

/// The export as a whole.
#[derive(Clone, Debug)]
pub struct LayoutDocument {
    /// Whether the value is a GeoJSON `FeatureCollection`.
    pub collection: bool,
    /// The features, where the collection carries a features array.
    pub features: Option<Vec<LayoutFeature>>,
}

/// The link from a branch to the line it leaves.
#[derive(Clone, Debug)]
pub struct LayoutBranch {
    /// The identifier of the parent layout line.
    pub line: String,
    /// The index of the parent node that the branch leaves from.
    pub node_index: Option<usize>,
}

/// One drawn line of the layout.
#[derive(Clone, Debug)]
pub struct LayoutLine {
    /// The identifier that the editor gave the line.
    pub id: String,
    /// The display name.
    pub name: Option<String>,
    /// The editor's drawing mode.
    pub mode: Option<String>,
    /// The colour as the editor wrote it; a renderer filters it.
    pub color: Option<String>,
    /// Whether the editor had the line switched on.
    pub visible: bool,
    /// The line this one branches from, where it is a branch.
    pub branch_of: Option<LayoutBranch>,
    /// The index of the feature that draws the line.
    pub feature: usize,
}

/// One station of the layout.
#[derive(Clone, Debug)]
pub struct LayoutStation {
    /// The identifier that the editor gave the station.
    pub id: String,
    /// The identifier of the layout line that the station sits on.
    pub line: String,
    /// The name as the layout carries it.
    pub name: Option<String>,
    /// The official station code, the key that binds the station.
    pub code: Option<String>,
    /// Whether the station carries its arc position along its line.
    pub has_t: bool,
    /// Whether the station is drawn as an area.
    pub area: bool,
    /// The index of the feature that draws the station.
    pub feature: usize,
}

/// The schematic drawing: the lines, the stations, and what the reader
/// could not use.
#[derive(Clone, Debug)]
pub struct Layout {
    /// The lines, in file order.
    pub lines: Vec<LayoutLine>,
    /// The stations, in file order.
    pub stations: Vec<LayoutStation>,
    /// The number of features that carry no kind the reader knows.
    pub unknown_features: usize,
    /// Everything the reader could not use.
    pub diagnostics: Vec<Diagnostic>,
}

/// A property text: trimmed, and none where it is empty.
pub open spec fn text_value(raw: Option<String>) -> Option<Seq<char>> {
    match raw {
        Some(s) => if trim_white(s@).len() > 0 {
            Some(trim_white(s@))
        } else {
            None
        },
        None => None,
    }
}

fn read_text(raw: &Option<String>) -> (r: Option<String>)
    ensures
        opt_view(r) == text_value(*raw),
{
    match raw {
        Some(s) => {
            let t = trim(&chars_of(s.as_str()));
            if t.as_str().is_empty() {
                None
            } else {
                Some(t)
            }
        },
        None => None,
    }
}

/// Whether a feature is a line, and a station.
pub open spec fn is_line_kind(f: LayoutFeature) -> bool {
    f.kind matches Some(k) && k@ == "line"@
}

pub open spec fn is_station_kind(f: LayoutFeature) -> bool {
    f.kind matches Some(k) && (k@ == "station"@ || k@ == "station-area"@)
}

/// Whether a station feature has a usable position: a usable point, or
/// a ring with at least one position, whose centre is the anchor.
pub open spec fn placed(g: FeatureGeometry) -> bool {
    match g {
        FeatureGeometry::Point(usable) => usable,
        FeatureGeometry::Polygon(n) => n > 0,
        _ => false,
    }
}

/// What the reader has made of the first features: the lines and the
/// stations it kept, each as its identifier and the index of its
/// feature; the count of unknown features; and the codes of what it
/// reported.
pub open spec fn read_upto(fs: Seq<LayoutFeature>, n: int) -> (
    Seq<(Seq<char>, int)>,
    Seq<(Seq<char>, int)>,
    nat,
    Seq<Seq<char>>,
)
    decreases n,
{
    if n <= 0 {
        (Seq::empty(), Seq::empty(), 0, Seq::empty())
    } else {
        let (lines, stations, unknown, codes) = read_upto(fs, n - 1);
        let f = fs[n - 1];
        if is_line_kind(f) {
            match text_value(f.id) {
                None => (lines, stations, unknown, codes.push("layout-line-without-id"@)),
                Some(id) => if line_ids(lines).contains(id) {
                    (lines, stations, unknown, codes.push("layout-duplicate-line"@))
                } else if !(f.geometry matches FeatureGeometry::LineString(k) && k >= 2) {
                    (lines, stations, unknown, codes.push("layout-line-without-geometry"@))
                } else {
                    (
                        lines.push((id, n - 1)),
                        stations,
                        unknown,
                        if text_value(f.name) is None {
                            codes.push("layout-line-without-name"@)
                        } else {
                            codes
                        },
                    )
                },
            }
        } else if is_station_kind(f) {
            match text_value(f.id) {
                None => (lines, stations, unknown, codes.push("layout-station-without-id"@)),
                Some(id) => if !placed(f.geometry) {
                    (lines, stations, unknown, codes.push("layout-station-without-position"@))
                } else {
                    (
                        lines,
                        stations.push((id, n - 1)),
                        unknown,
                        codes + (if text_value(f.code) is None {
                            seq!["layout-station-without-code"@]
                        } else {
                            Seq::empty()
                        }) + (if !f.has_t {
                            seq!["layout-station-without-t"@]
                        } else {
                            Seq::empty()
                        }),
                    )
                },
            }
        } else {
            (lines, stations, unknown + 1, codes)
        }
    }
}

/// The identifiers of kept lines.
pub open spec fn line_ids(lines: Seq<(Seq<char>, int)>) -> Seq<Seq<char>> {
    lines.map_values(|l: (Seq<char>, int)| l.0)
}

/// The line a station feature names: its `lineId`, or the empty text.
pub open spec fn station_line(f: LayoutFeature) -> Seq<char> {
    match text_value(f.line_id) {
        Some(l) => l,
        None => Seq::empty(),
    }
}

/// Whether a layout line is the one the reader keeps of a feature.
pub open spec fn line_read(fs: Seq<LayoutFeature>, kept: (Seq<char>, int), l: LayoutLine) -> bool {
    let f = fs[kept.1];
    &&& l.id@ == kept.0
    &&& l.feature == kept.1
    &&& opt_view(l.name) == text_value(f.name)
    &&& opt_view(l.mode) == text_value(f.mode)
    &&& opt_view(l.color) == text_value(f.color)
    &&& l.visible == (f.visible != Some(false))
    &&& match text_value(f.branch_line) {
        Some(parent) => l.branch_of matches Some(b) && b.line@ == parent && b.node_index
            == f.branch_node,
        None => l.branch_of is None,
    }
}

/// Whether a layout station is the one the reader keeps of a feature.
pub open spec fn station_read(fs: Seq<LayoutFeature>, kept: (Seq<char>, int), s: LayoutStation) -> bool {
    let f = fs[kept.1];
    &&& s.id@ == kept.0
    &&& s.feature == kept.1
    &&& s.line@ == station_line(f)
    &&& opt_view(s.name) == text_value(f.name)
    &&& opt_view(s.code) == text_value(f.code)
    &&& s.has_t == f.has_t
    &&& s.area == (f.geometry is Polygon)
}

/// The codes of the reports on stations that name a line the layout
/// does not carry, in station order.
pub open spec fn missing_line_codes(stations: Seq<Seq<char>>, lines: Seq<Seq<char>>, n: int) -> Seq<
    Seq<char>,
>
    decreases n,
{
    if n <= 0 {
        Seq::empty()
    } else if lines.contains(stations[n - 1]) {
        missing_line_codes(stations, lines, n - 1)
    } else {
        missing_line_codes(stations, lines, n - 1).push("layout-station-without-line"@)
    }
}

/// The severity that the layout reader gives a diagnostic of each
/// code: the two reports that leave the layout empty are errors, a
/// missing line name or arc position and a network station without a
/// code are notes, and the rest warn.
pub open spec fn layout_severity(code: Seq<char>) -> Severity {
    if code == "layout-not-a-feature-collection"@ || code == "layout-without-features"@ {
        Severity::Error
    } else if code == "layout-line-without-name"@ || code == "layout-station-without-t"@
        || code == "network-station-without-code"@ {
        Severity::Info
    } else {
        Severity::Warning
    }
}

/// Every diagnostic carries the severity of its code.
pub open spec fn graded_by_code(ds: Seq<Diagnostic>) -> bool {
    forall|i: int| 0 <= i < ds.len() ==> (#[trigger] ds[i]).severity == layout_severity(ds[i].code@)
}

proof fn lemma_graded_push(ds: Seq<Diagnostic>, d: Diagnostic)
    requires
        d.severity == layout_severity(d.code@),
    ensures
        graded_by_code(ds) ==> graded_by_code(ds.push(d)),
{
    if graded_by_code(ds) {
        lemma_graded_push_graded(ds, d);
    }
}

proof fn lemma_graded_push_graded(ds: Seq<Diagnostic>, d: Diagnostic)
    requires
        graded_by_code(ds),
        d.severity == layout_severity(d.code@),
    ensures
        graded_by_code(ds.push(d)),
{
    assert forall|i: int| 0 <= i < ds.push(d).len() implies (#[trigger] ds.push(d)[i]).severity
        == layout_severity(ds.push(d)[i].code@) by {
        if i < ds.len() {
            assert(ds.push(d)[i] == ds[i]);
        }
    }
}

proof fn lemma_layout_severities()
    ensures
        layout_severity("layout-not-a-feature-collection"@) == Severity::Error,
        layout_severity("layout-without-features"@) == Severity::Error,
        layout_severity("layout-line-without-name"@) == Severity::Info,
        layout_severity("layout-station-without-t"@) == Severity::Info,
        layout_severity("layout-line-without-id"@) == Severity::Warning,
        layout_severity("layout-duplicate-line"@) == Severity::Warning,
        layout_severity("layout-line-without-geometry"@) == Severity::Warning,
        layout_severity("layout-station-without-id"@) == Severity::Warning,
        layout_severity("layout-station-without-position"@) == Severity::Warning,
        layout_severity("layout-station-without-code"@) == Severity::Warning,
        layout_severity("layout-unknown-feature"@) == Severity::Warning,
        layout_severity("layout-station-without-line"@) == Severity::Warning,
        layout_severity("network-station-without-code"@) == Severity::Info,
        layout_severity("layout-station-unmatched"@) == Severity::Warning,
        layout_severity("layout-duplicate-code"@) == Severity::Warning,
        layout_severity("network-station-uncovered"@) == Severity::Warning,
{
    reveal_strlit("layout-not-a-feature-collection");
    reveal_strlit("layout-without-features");
    reveal_strlit("layout-line-without-name");
    reveal_strlit("layout-station-without-t");
    reveal_strlit("layout-line-without-id");
    reveal_strlit("layout-duplicate-line");
    reveal_strlit("layout-line-without-geometry");
    reveal_strlit("layout-station-without-id");
    reveal_strlit("layout-station-without-position");
    reveal_strlit("layout-station-without-code");
    reveal_strlit("layout-unknown-feature");
    reveal_strlit("layout-station-without-line");
    reveal_strlit("network-station-without-code");
    reveal_strlit("layout-station-unmatched");
    reveal_strlit("layout-duplicate-code");
    reveal_strlit("network-station-uncovered");
    assert("layout-not-a-feature-collection"@.len() == 31);
    assert("layout-without-features"@.len() == 23);
    assert("layout-line-without-name"@.len() == 24);
    assert("layout-station-without-t"@.len() == 24);
    assert("layout-line-without-id"@.len() == 22);
    assert("layout-duplicate-line"@.len() == 21);
    assert("layout-line-without-geometry"@.len() == 28);
    assert("layout-station-without-id"@.len() == 25);
    assert("layout-station-without-position"@.len() == 31);
    assert("layout-station-without-code"@.len() == 27);
    assert("layout-unknown-feature"@.len() == 22);
    assert("layout-station-without-line"@.len() == 27);
    assert("network-station-without-code"@.len() == 28);
    assert("layout-station-unmatched"@.len() == 24);
    assert("layout-duplicate-code"@.len() == 21);
    assert("network-station-uncovered"@.len() == 25);
    assert("layout-station-without-t"@[7] != "layout-line-without-name"@[7]);
    assert("layout-line-without-geometry"@[0] != "network-station-without-code"@[0]);
    assert("layout-station-without-position"@[7] != "layout-not-a-feature-collection"@[7]);
    assert("layout-station-unmatched"@[7] != "layout-line-without-name"@[7]);
    assert("layout-station-unmatched"@[15] != "layout-station-without-t"@[15]);
}

/// What reading a line feature reports, as plain values, given the
/// lines read before it.
pub open spec fn line_finding(f: LayoutFeature, lines: Seq<(Seq<char>, int)>) -> Seq<(Severity, Seq<char>, Seq<char>, Option<Seq<char>>)> {
    match text_value(f.id) {
        None => seq![(Severity::Warning, "layout-line-without-id"@, "a line feature of the layout carries no identifier, so no station can name it and the layout drops it"@, None)],
        Some(id) => if line_ids(lines).contains(id) {
            seq![(Severity::Warning, "layout-duplicate-line"@, "two line features of the layout share one identifier, so the layout keeps the first and drops the second"@, Some(id))]
        } else if !(f.geometry matches FeatureGeometry::LineString(k) && k >= 2) {
            seq![(Severity::Warning, "layout-line-without-geometry"@, "this line feature is not a LineString with at least two usable positions, so the layout cannot draw it"@, Some(id))]
        } else if text_value(f.name) is None {
            seq![(Severity::Info, "layout-line-without-name"@, "this line feature carries no name, so a renderer has no label for it"@, Some(id))]
        } else {
            Seq::empty()
        },
    }
}

/// What reading a station feature reports, as plain values.
pub open spec fn station_finding(f: LayoutFeature) -> Seq<(Severity, Seq<char>, Seq<char>, Option<Seq<char>>)> {
    match text_value(f.id) {
        None => seq![(Severity::Warning, "layout-station-without-id"@, "a station feature of the layout carries no identifier, so the layout cannot report on it and drops it"@, None)],
        Some(id) => if !placed(f.geometry) {
            seq![(Severity::Warning, "layout-station-without-position"@, "the geometry of this station feature is not a usable Point or Polygon, so the layout cannot place it"@, Some(id))]
        } else {
            (if text_value(f.code) is None {
                seq![(Severity::Warning, "layout-station-without-code"@, "this station feature carries no station code, so it cannot bind to a network station"@, Some(id))]
            } else {
                Seq::empty()
            }) + (if !f.has_t {
                seq![(Severity::Info, "layout-station-without-t"@, "this station feature carries no arc position, so a renderer places it by its anchor alone"@, Some(id))]
            } else {
                Seq::empty()
            })
        },
    }
}

/// What reading the first `n` features reports, as plain values.
pub open spec fn feature_findings(fs: Seq<LayoutFeature>, n: int) -> Seq<(Severity, Seq<char>, Seq<char>, Option<Seq<char>>)>
    decreases n,
{
    if n <= 0 {
        Seq::empty()
    } else {
        let f = fs[n - 1];
        feature_findings(fs, n - 1) + if is_line_kind(f) {
            line_finding(f, read_upto(fs, n - 1).0)
        } else if is_station_kind(f) {
            station_finding(f)
        } else {
            Seq::empty()
        }
    }
}

/// The report on the features of another tool, as plain values.
pub open spec fn unknown_finding(unknown: nat) -> Seq<(Severity, Seq<char>, Seq<char>, Option<Seq<char>>)> {
    if unknown > 0 {
        seq![
            (
                Severity::Warning,
                "layout-unknown-feature"@,
                crate::textbuf::decimal(unknown)
                    + " feature(s) of the layout are neither an OpenFantasyMap line nor a station, so the layout draws nothing for them"@,
                None,
            ),
        ]
    } else {
        Seq::empty()
    }
}

/// The reports on the first `n` stations that name a line the layout
/// does not carry, as plain values.
pub open spec fn missing_line_findings(stations: Seq<LayoutStation>, lines: Seq<Seq<char>>, n: int) -> Seq<(Severity, Seq<char>, Seq<char>, Option<Seq<char>>)>
    decreases n,
{
    if n <= 0 {
        Seq::empty()
    } else if lines.contains(stations[n - 1].line@) {
        missing_line_findings(stations, lines, n - 1)
    } else {
        missing_line_findings(stations, lines, n - 1).push(
            (
                Severity::Warning,
                "layout-station-without-line"@,
                "this station names the layout line \""@ + stations[n - 1].line@
                    + "\", which the layout does not carry, so a renderer has no polyline to place it on"@,
                Some(stations[n - 1].id@),
            ),
        )
    }
}

/// What the reader reports on a document, as plain values: its
/// severity, code, message and subject of each diagnostic.
pub open spec fn layout_findings(doc: LayoutDocument, layout: Layout) -> Seq<(Severity, Seq<char>, Seq<char>, Option<Seq<char>>)> {
    if !doc.collection {
        seq![(Severity::Error, "layout-not-a-feature-collection"@, "the layout is not a GeoJSON FeatureCollection, so it carries no line and no station"@, None)]
    } else {
        match doc.features {
            None => seq![(Severity::Error, "layout-without-features"@, "the feature collection carries no features array, so the layout is empty"@, None)],
            Some(features) => {
                let fs = features@;
                let (lines, stations, unknown, codes) = read_upto(fs, fs.len() as int);
                feature_findings(fs, fs.len() as int) + unknown_finding(unknown) + missing_line_findings(
                    layout.stations@,
                    line_ids(lines),
                    stations.len() as int,
                )
            },
        }
    }
}

/// Whether a layout is what the reader makes of a document.
pub open spec fn layout_of(doc: LayoutDocument, layout: Layout) -> bool {
    if !doc.collection {
        &&& layout.lines@.len() == 0 && layout.stations@.len() == 0
        &&& layout.unknown_features == 0
        &&& codes_of(layout.diagnostics@) == seq!["layout-not-a-feature-collection"@]
        &&& layout.diagnostics@[0].severity == Severity::Error
    } else {
        match doc.features {
            None => {
                &&& layout.lines@.len() == 0 && layout.stations@.len() == 0
                &&& layout.unknown_features == 0
                &&& codes_of(layout.diagnostics@) == seq!["layout-without-features"@]
                &&& layout.diagnostics@[0].severity == Severity::Error
            },
            Some(features) => {
                let fs = features@;
                let (lines, stations, unknown, codes) = read_upto(fs, fs.len() as int);
                &&& layout.lines@.len() == lines.len()
                &&& forall|k: int|
                    0 <= k < lines.len() ==> line_read(fs, lines[k], #[trigger] layout.lines@[k])
                &&& layout.stations@.len() == stations.len()
                &&& forall|k: int|
                    0 <= k < stations.len() ==> station_read(
                        fs,
                        stations[k],
                        #[trigger] layout.stations@[k],
                    )
                &&& layout.unknown_features == unknown
                &&& codes_of(layout.diagnostics@) == codes + (if unknown > 0 {
                    seq!["layout-unknown-feature"@]
                } else {
                    Seq::empty()
                }) + missing_line_codes(
                    layout.stations@.map_values(|s: LayoutStation| s.line@),
                    line_ids(lines),
                    stations.len() as int,
                )
            },
        }
    }
}

fn has_line(lines: &Vec<LayoutLine>, id: &str) -> (b: bool)
    ensures
        b == exists|k: int| 0 <= k < lines@.len() && (#[trigger] lines@[k]).id@ == id@,
{
    let mut k: usize = 0;
    while k < lines.len()
        invariant
            k <= lines@.len(),
            forall|j: int| 0 <= j < k ==> (#[trigger] lines@[j]).id@ != id@,
        decreases lines@.len() - k,
    {
        if str_eq(lines[k].id.as_str(), id) {
            return true;
        }
        k = k + 1;
    }
    false
}

fn warning_about(code: &str, message: &str, subject: &str) -> (d: Diagnostic)
    ensures
        d.code@ == code@,
        d.severity == Severity::Warning,
        d.message@ == message@,
        d.subject matches Some(s) && s@ == subject@,
{
    Diagnostic::warning(code, owned(message)).about(subject)
}

fn info_about(code: &str, message: &str, subject: &str) -> (d: Diagnostic)
    ensures
        d.code@ == code@,
        d.severity == Severity::Info,
        d.message@ == message@,
        d.subject matches Some(s) && s@ == subject@,
{
    Diagnostic::info(code, owned(message)).about(subject)
}

/// Read one line feature.
fn read_line(
    f: &LayoutFeature,
    index: usize,
    lines: &mut Vec<LayoutLine>,
    diagnostics: &mut Vec<Diagnostic>,
    Ghost(fs): Ghost<Seq<LayoutFeature>>,
    Ghost(kept): Ghost<Seq<(Seq<char>, int)>>,
)
    requires
        index < fs.len(),
        fs[index as int] == *f,
        old(lines)@.len() == kept.len(),
        forall|k: int| 0 <= k < kept.len() ==> line_read(fs, kept[k], #[trigger] old(lines)@[k]),
    ensures
        ({
            let (next, code) = match text_value(f.id) {
                None => (kept, seq!["layout-line-without-id"@]),
                Some(id) => if line_ids(kept).contains(id) {
                    (kept, seq!["layout-duplicate-line"@])
                } else if !(f.geometry matches FeatureGeometry::LineString(k) && k >= 2) {
                    (kept, seq!["layout-line-without-geometry"@])
                } else {
                    (
                        kept.push((id, index as int)),
                        if text_value(f.name) is None {
                            seq!["layout-line-without-name"@]
                        } else {
                            Seq::empty()
                        },
                    )
                },
            };
            &&& final(lines)@.len() == next.len()
            &&& forall|k: int| 0 <= k < next.len() ==> line_read(fs, next[k], #[trigger] final(lines)@[k])
            &&& codes_of(final(diagnostics)@) == codes_of(old(diagnostics)@) + code
        }),
        graded_by_code(old(diagnostics)@) ==> graded_by_code(final(diagnostics)@),
        diagnostic_views(final(diagnostics)@) == diagnostic_views(old(diagnostics)@) + line_finding(*f, kept),
{
    let ghost start = codes_of(diagnostics@);
    let ghost v0 = diagnostic_views(diagnostics@);
    let ghost ds0 = diagnostics@;
    proof {
        lemma_layout_severities();
    }
    let id = match read_text(&f.id) {
        None => {
            let ghost prev = diagnostics@;
            diagnostics.push(
                Diagnostic::warning(
                    "layout-line-without-id",
                    owned(
                        "a line feature of the layout carries no identifier, so no station can name it and the layout drops it",
                    ),
                ),
            );
            proof {
                assert(diagnostics@ == prev.push(diagnostics@.last()));
                lemma_graded_push(prev, diagnostics@.last());
                assert(diagnostic_views(diagnostics@) =~= diagnostic_views(prev).push(
                    diagnostic_view(diagnostics@.last()),
                ));
            }
            proof {
                assert(codes_of(diagnostics@) =~= start + seq!["layout-line-without-id"@]);
                assert(diagnostic_views(diagnostics@) =~= v0 + line_finding(*f, kept));
            }
            return ;
        },
        Some(id) => id,
    };
    proof {
        if line_ids(kept).contains(id@) {
            let k = choose|k: int| 0 <= k < line_ids(kept).len() && line_ids(kept)[k] == id@;
            assert(lines@[k].id@ == id@);
        }
    }
    if has_line(lines, id.as_str()) {
        proof {
            let k = choose|k: int| 0 <= k < lines@.len() && (#[trigger] lines@[k]).id@ == id@;
            assert(line_ids(kept)[k] == id@);
        }
        let ghost prev = diagnostics@;
        diagnostics.push(
            warning_about(
                "layout-duplicate-line",
                "two line features of the layout share one identifier, so the layout keeps the first and drops the second",
                id.as_str(),
            ),
        );
        proof {
            assert(diagnostics@ == prev.push(diagnostics@.last()));
            lemma_graded_push(prev, diagnostics@.last());
            assert(diagnostic_views(diagnostics@) =~= diagnostic_views(prev).push(
                diagnostic_view(diagnostics@.last()),
            ));
        }
        proof {
            assert(codes_of(diagnostics@) =~= start + seq!["layout-duplicate-line"@]);
                assert(diagnostic_views(diagnostics@) =~= v0 + line_finding(*f, kept));
        }
        return ;
    }
    let drawable = match f.geometry {
        FeatureGeometry::LineString(k) => k >= 2,
        _ => false,
    };
    if !drawable {
        let ghost prev = diagnostics@;
        diagnostics.push(
            warning_about(
                "layout-line-without-geometry",
                "this line feature is not a LineString with at least two usable positions, so the layout cannot draw it",
                id.as_str(),
            ),
        );
        proof {
            assert(diagnostics@ == prev.push(diagnostics@.last()));
            lemma_graded_push(prev, diagnostics@.last());
            assert(diagnostic_views(diagnostics@) =~= diagnostic_views(prev).push(
                diagnostic_view(diagnostics@.last()),
            ));
        }
        proof {
            assert(codes_of(diagnostics@) =~= start + seq!["layout-line-without-geometry"@]);
                assert(diagnostic_views(diagnostics@) =~= v0 + line_finding(*f, kept));
        }
        return ;
    }
    let name = read_text(&f.name);
    if name.is_none() {
        let ghost prev = diagnostics@;
        diagnostics.push(
            info_about(
                "layout-line-without-name",
                "this line feature carries no name, so a renderer has no label for it",
                id.as_str(),
            ),
        );
        proof {
            assert(diagnostics@ == prev.push(diagnostics@.last()));
            lemma_graded_push(prev, diagnostics@.last());
            assert(diagnostic_views(diagnostics@) =~= diagnostic_views(prev).push(
                diagnostic_view(diagnostics@.last()),
            ));
        }
        proof {
            assert(codes_of(diagnostics@) =~= start + seq!["layout-line-without-name"@]);
            assert(diagnostic_views(diagnostics@) =~= v0 + line_finding(*f, kept));
        }
    } else {
        proof {
            assert(codes_of(diagnostics@) =~= start + Seq::<Seq<char>>::empty());
            assert(diagnostic_views(diagnostics@) =~= v0 + line_finding(*f, kept));
        }
    }
    let branch_of = match read_text(&f.branch_line) {
        Some(parent) => Some(LayoutBranch { line: parent, node_index: f.branch_node }),
        None => None,
    };
    let visible = match f.visible {
        Some(v) => v,
        None => true,
    };
    let line = LayoutLine {
        id,
        name,
        mode: read_text(&f.mode),
        color: read_text(&f.color),
        visible,
        branch_of,
        feature: index,
    };
    let ghost before = lines@;
    lines.push(line);
    proof {
        assert forall|k: int| 0 <= k < kept.len() + 1 implies line_read(
            fs,
            #[trigger] kept.push((line.id@, index as int))[k],
            lines@[k],
        ) by {
            if k < kept.len() {
                assert(lines@[k] == before[k]);
            }
        }
    }
}

/// Read one station feature.
fn read_station(
    f: &LayoutFeature,
    index: usize,
    stations: &mut Vec<LayoutStation>,
    diagnostics: &mut Vec<Diagnostic>,
    Ghost(fs): Ghost<Seq<LayoutFeature>>,
    Ghost(kept): Ghost<Seq<(Seq<char>, int)>>,
)
    requires
        index < fs.len(),
        fs[index as int] == *f,
        old(stations)@.len() == kept.len(),
        forall|k: int| 0 <= k < kept.len() ==> station_read(fs, kept[k], #[trigger] old(stations)@[k]),
    ensures
        ({
            let (next, code) = match text_value(f.id) {
                None => (kept, seq!["layout-station-without-id"@]),
                Some(id) => if !placed(f.geometry) {
                    (kept, seq!["layout-station-without-position"@])
                } else {
                    (
                        kept.push((id, index as int)),
                        (if text_value(f.code) is None {
                            seq!["layout-station-without-code"@]
                        } else {
                            Seq::empty()
                        }) + (if !f.has_t {
                            seq!["layout-station-without-t"@]
                        } else {
                            Seq::empty()
                        }),
                    )
                },
            };
            &&& final(stations)@.len() == next.len()
            &&& forall|k: int|
                0 <= k < next.len() ==> station_read(fs, next[k], #[trigger] final(stations)@[k])
            &&& codes_of(final(diagnostics)@) == codes_of(old(diagnostics)@) + code
        }),
        graded_by_code(old(diagnostics)@) ==> graded_by_code(final(diagnostics)@),
        diagnostic_views(final(diagnostics)@) == diagnostic_views(old(diagnostics)@) + station_finding(*f),
{
    let ghost start = codes_of(diagnostics@);
    let ghost v0 = diagnostic_views(diagnostics@);
    let ghost ds0 = diagnostics@;
    proof {
        lemma_layout_severities();
    }
    let id = match read_text(&f.id) {
        None => {
            let ghost prev = diagnostics@;
            diagnostics.push(
                Diagnostic::warning(
                    "layout-station-without-id",
                    owned(
                        "a station feature of the layout carries no identifier, so the layout cannot report on it and drops it",
                    ),
                ),
            );
            proof {
                assert(diagnostics@ == prev.push(diagnostics@.last()));
                lemma_graded_push(prev, diagnostics@.last());
                assert(diagnostic_views(diagnostics@) =~= diagnostic_views(prev).push(
                    diagnostic_view(diagnostics@.last()),
                ));
            }
            proof {
                assert(codes_of(diagnostics@) =~= start + seq!["layout-station-without-id"@]);
                assert(diagnostic_views(diagnostics@) =~= v0 + station_finding(*f));
            }
            return ;
        },
        Some(id) => id,
    };
    let usable = match f.geometry {
        FeatureGeometry::Point(u) => u,
        FeatureGeometry::Polygon(n) => n > 0,
        _ => false,
    };
    if !usable {
        let ghost prev = diagnostics@;
        diagnostics.push(
            warning_about(
                "layout-station-without-position",
                "the geometry of this station feature is not a usable Point or Polygon, so the layout cannot place it",
                id.as_str(),
            ),
        );
        proof {
            assert(diagnostics@ == prev.push(diagnostics@.last()));
            lemma_graded_push(prev, diagnostics@.last());
            assert(diagnostic_views(diagnostics@) =~= diagnostic_views(prev).push(
                diagnostic_view(diagnostics@.last()),
            ));
        }
        proof {
            assert(codes_of(diagnostics@) =~= start + seq!["layout-station-without-position"@]);
                assert(diagnostic_views(diagnostics@) =~= v0 + station_finding(*f));
        }
        return ;
    }
    let code = read_text(&f.code);
    let ghost mid = codes_of(diagnostics@);
    if code.is_none() {
        let ghost prev = diagnostics@;
        diagnostics.push(
            warning_about(
                "layout-station-without-code",
                "this station feature carries no station code, so it cannot bind to a network station",
                id.as_str(),
            ),
        );
        proof {
            assert(diagnostics@ == prev.push(diagnostics@.last()));
            lemma_graded_push(prev, diagnostics@.last());
            assert(diagnostic_views(diagnostics@) =~= diagnostic_views(prev).push(
                diagnostic_view(diagnostics@.last()),
            ));
        }
    }
    let ghost first: Seq<Seq<char>> = if code.is_none() {
        seq!["layout-station-without-code"@]
    } else {
        Seq::empty()
    };
    proof {
        assert(codes_of(diagnostics@) =~= start + first);
    }
    let ghost vfirst = diagnostic_views(diagnostics@);
    if !f.has_t {
        let ghost prev = diagnostics@;
        diagnostics.push(
            info_about(
                "layout-station-without-t",
                "this station feature carries no arc position, so a renderer places it by its anchor alone",
                id.as_str(),
            ),
        );
        proof {
            assert(diagnostics@ == prev.push(diagnostics@.last()));
            lemma_graded_push(prev, diagnostics@.last());
            assert(diagnostic_views(diagnostics@) =~= diagnostic_views(prev).push(
                diagnostic_view(diagnostics@.last()),
            ));
        }
    }
    let ghost second: Seq<Seq<char>> = if !f.has_t {
        seq!["layout-station-without-t"@]
    } else {
        Seq::empty()
    };
    proof {
        assert(codes_of(diagnostics@) =~= start + (first + second));
        assert(diagnostic_views(diagnostics@) =~= v0 + station_finding(*f));
    }
    let line = match read_text(&f.line_id) {
        Some(l) => l,
        None => String::new(),
    };
    let area = match f.geometry {
        FeatureGeometry::Polygon(_) => true,
        _ => false,
    };
    let station = LayoutStation {
        id,
        line,
        name: read_text(&f.name),
        code,
        has_t: f.has_t,
        area,
        feature: index,
    };
    let ghost before = stations@;
    stations.push(station);
    proof {
        assert forall|k: int| 0 <= k < kept.len() + 1 implies station_read(
            fs,
            #[trigger] kept.push((station.id@, index as int))[k],
            stations@[k],
        ) by {
            if k < kept.len() {
                assert(stations@[k] == before[k]);
            }
        }
    }
}

/// Report every station that names a line the layout does not carry.
fn check_station_lines(layout: &Layout, diagnostics: &mut Vec<Diagnostic>)
    ensures
        codes_of(final(diagnostics)@) == codes_of(old(diagnostics)@) + missing_line_codes(
            layout.stations@.map_values(|s: LayoutStation| s.line@),
            layout.lines@.map_values(|l: LayoutLine| l.id@),
            layout.stations@.len() as int,
        ),
        graded_by_code(old(diagnostics)@) ==> graded_by_code(final(diagnostics)@),
        diagnostic_views(final(diagnostics)@) == diagnostic_views(old(diagnostics)@) + missing_line_findings(
            layout.stations@,
            layout.lines@.map_values(|l: LayoutLine| l.id@),
            layout.stations@.len() as int,
        ),
{
    let ghost v0 = diagnostic_views(diagnostics@);
    let ghost names = layout.stations@.map_values(|s: LayoutStation| s.line@);
    let ghost ids = layout.lines@.map_values(|l: LayoutLine| l.id@);
    let ghost start = codes_of(diagnostics@);
    let ghost ds0 = diagnostics@;
    proof {
        lemma_layout_severities();
    }
    let mut i: usize = 0;
    while i < layout.stations.len()
        invariant
            i <= layout.stations@.len(),
            names == layout.stations@.map_values(|s: LayoutStation| s.line@),
            ids == layout.lines@.map_values(|l: LayoutLine| l.id@),
            codes_of(diagnostics@) == start + missing_line_codes(names, ids, i as int),
            graded_by_code(ds0) ==> graded_by_code(diagnostics@),
            layout_severity("layout-station-without-line"@) == Severity::Warning,
            diagnostic_views(diagnostics@) == v0 + missing_line_findings(layout.stations@, ids, i as int),
        decreases layout.stations@.len() - i,
    {
        let st = &layout.stations[i];
        let known = has_line(&layout.lines, st.line.as_str());
        proof {
            if known {
                let k = choose|k: int| 0 <= k < layout.lines@.len() && (#[trigger] layout.lines@[k]).id@
                    == st.line@;
                assert(ids[k] == names[i as int]);
            }
            if ids.contains(names[i as int]) {
                let k = choose|k: int| 0 <= k < ids.len() && ids[k] == names[i as int];
                assert(layout.lines@[k].id@ == st.line@);
            }
        }
        let ghost before = codes_of(diagnostics@);
        proof {
            assert(names[i as int] == st.line@);
        }
        if !known {
            let mut message = owned("this station names the layout line \"");
            push_str(&mut message, st.line.as_str());
            push_str(
                &mut message,
                "\", which the layout does not carry, so a renderer has no polyline to place it on",
            );
            let ghost prev = diagnostics@;
            diagnostics.push(Diagnostic::warning("layout-station-without-line", message).about(st.id.as_str()));
            proof {
                assert(diagnostics@ == prev.push(diagnostics@.last()));
                lemma_graded_push(prev, diagnostics@.last());
                assert(diagnostic_views(diagnostics@) =~= diagnostic_views(prev).push(
                    diagnostic_view(diagnostics@.last()),
                ));
            }
            proof {
                assert(codes_of(diagnostics@) =~= before.push("layout-station-without-line"@));
                assert(diagnostic_views(diagnostics@) =~= v0 + missing_line_findings(layout.stations@, ids, i + 1));
            }
        } else {
            proof {
                assert(diagnostic_views(diagnostics@) =~= v0 + missing_line_findings(layout.stations@, ids, i + 1));
            }
        }
        i = i + 1;
    }
}

impl Layout {
    /// Read a layout from the features of an OpenFantasyMap export.
    ///
    /// The reader never fails: a value that is not a feature
    /// collection, a feature without an identifier or a usable
    /// geometry, a duplicate line, a feature of another tool — each is
    /// a diagnostic on the layout it returns.
    pub fn from_document(doc: &LayoutDocument) -> (layout: Layout)
        ensures
            layout_of(*doc, layout),
            graded_by_code(layout.diagnostics@),
            diagnostic_views(layout.diagnostics@) == layout_findings(*doc, layout),
    {
        let mut diagnostics: Vec<Diagnostic> = Vec::new();
        proof {
            lemma_layout_severities();
            assert(graded_by_code(diagnostics@));
        }
        if !doc.collection {
            let ghost prev = diagnostics@;
            diagnostics.push(
                Diagnostic::error(
                    "layout-not-a-feature-collection",
                    owned(
                        "the layout is not a GeoJSON FeatureCollection, so it carries no line and no station",
                    ),
                ),
            );
            proof {
                assert(diagnostics@ == prev.push(diagnostics@.last()));
                lemma_graded_push(prev, diagnostics@.last());
                assert(diagnostic_views(diagnostics@) =~= diagnostic_views(prev).push(
                    diagnostic_view(diagnostics@.last()),
                ));
            }
            proof {
                assert(codes_of(diagnostics@) =~= seq!["layout-not-a-feature-collection"@]);
                assert(diagnostic_views(diagnostics@) =~= diagnostic_views(Seq::<Diagnostic>::empty()).push(
                    diagnostic_view(diagnostics@.last()),
                ));
            }
            return Layout { lines: Vec::new(), stations: Vec::new(), unknown_features: 0, diagnostics };
        }
        let features = match &doc.features {
            None => {
                let ghost prev = diagnostics@;
                diagnostics.push(
                    Diagnostic::error(
                        "layout-without-features",
                        owned(
                            "the feature collection carries no features array, so the layout is empty",
                        ),
                    ),
                );
                proof {
                    assert(diagnostics@ == prev.push(diagnostics@.last()));
                    lemma_graded_push(prev, diagnostics@.last());
                    assert(diagnostic_views(diagnostics@) =~= diagnostic_views(prev).push(
                        diagnostic_view(diagnostics@.last()),
                    ));
                }
                proof {
                    assert(codes_of(diagnostics@) =~= seq!["layout-without-features"@]);
                    assert(diagnostic_views(diagnostics@) =~= diagnostic_views(Seq::<Diagnostic>::empty()).push(
                        diagnostic_view(diagnostics@.last()),
                    ));
                }
                return Layout { lines: Vec::new(), stations: Vec::new(), unknown_features: 0, diagnostics };
            },
            Some(f) => f,
        };
        let ghost fs = features@;
        let mut lines: Vec<LayoutLine> = Vec::new();
        let mut stations: Vec<LayoutStation> = Vec::new();
        let mut unknown: usize = 0;
        let mut i: usize = 0;
        while i < features.len()
            invariant
                i <= fs.len(),
                fs == features@,
                unknown <= i,
                ({
                    let (kl, ks, ku, kc) = read_upto(fs, i as int);
                    &&& lines@.len() == kl.len()
                    &&& forall|k: int| 0 <= k < kl.len() ==> line_read(fs, kl[k], #[trigger] lines@[k])
                    &&& stations@.len() == ks.len()
                    &&& forall|k: int| 0 <= k < ks.len() ==> station_read(fs, ks[k], #[trigger] stations@[k])
                    &&& unknown == ku
                    &&& codes_of(diagnostics@) == kc
                }),
                graded_by_code(diagnostics@),
                diagnostic_views(diagnostics@) == feature_findings(fs, i as int),
            decreases fs.len() - i,
        {
            let f = &features[i];
            let ghost st = read_upto(fs, i as int);
            let is_line = match &f.kind {
                Some(k) => str_eq(k.as_str(), "line"),
                None => false,
            };
            let is_station = match &f.kind {
                Some(k) => str_eq(k.as_str(), "station") || str_eq(k.as_str(), "station-area"),
                None => false,
            };
            proof {
                reveal_strlit("line");
                reveal_strlit("station");
                reveal_strlit("station-area");
                assert(is_line == is_line_kind(*f));
                assert(is_station == is_station_kind(*f));
            }
            if is_line {
                read_line(f, i, &mut lines, &mut diagnostics, Ghost(fs), Ghost(st.0));
            } else if is_station {
                read_station(f, i, &mut stations, &mut diagnostics, Ghost(fs), Ghost(st.1));
            } else {
                unknown = unknown + 1;
            }
            proof {
                assert(fs[i as int] == *f);
                assert(diagnostic_views(diagnostics@) =~= feature_findings(fs, i + 1));
            }
            i = i + 1;
        }
        let ghost read_codes = codes_of(diagnostics@);
        let ghost read_views = diagnostic_views(diagnostics@);
        if unknown > 0 {
            let mut message = crate::textbuf::decimal_string(unknown as u64);
            push_str(
                &mut message,
                " feature(s) of the layout are neither an OpenFantasyMap line nor a station, so the layout draws nothing for them",
            );
            let ghost prev = diagnostics@;
            diagnostics.push(Diagnostic::warning("layout-unknown-feature", message));
            proof {
                assert(diagnostics@ == prev.push(diagnostics@.last()));
                lemma_graded_push(prev, diagnostics@.last());
                assert(diagnostic_views(diagnostics@) =~= diagnostic_views(prev).push(
                    diagnostic_view(diagnostics@.last()),
                ));
            }
        }
        let ghost kc = codes_of(diagnostics@);
        proof {
            assert(diagnostic_views(diagnostics@) =~= read_views + unknown_finding(unknown as nat));
            if unknown > 0 {
                assert(kc =~= read_codes + seq!["layout-unknown-feature"@]);
            } else {
                assert(kc =~= read_codes + Seq::<Seq<char>>::empty());
            }
        }
        let mut layout = Layout { lines, stations, unknown_features: unknown, diagnostics: Vec::new() };
        check_station_lines(&layout, &mut diagnostics);
        proof {
            let (kl, ks, ku, kc0) = read_upto(fs, fs.len() as int);
            assert(layout.lines@.map_values(|l: LayoutLine| l.id@) =~= line_ids(kl));
        }
        layout.diagnostics = diagnostics;
        proof {
            let (kl, ks, ku, kc0) = read_upto(fs, fs.len() as int);
            assert(diagnostic_views(layout.diagnostics@) =~= feature_findings(fs, fs.len() as int) + unknown_finding(ku)
                + missing_line_findings(layout.stations@, line_ids(kl), ks.len() as int));
        }
        layout
    }

    /// Join the layout to a network, and report both directions of
    /// what did not match; see [`BoundLayout::bind`].
    pub fn bind(self, network: &RailNetwork) -> (b: BoundLayout)
        ensures
            binding_is(self, *network, b),
            graded_by_code(self.diagnostics@) ==> graded_by_code(b.diagnostics@),
    {
        BoundLayout::bind(self, network)
    }

    /// Get one line by its layout identifier.
    pub fn line(&self, id: &str) -> (r: Option<&LayoutLine>)
        ensures
            match r {
                Some(l) => l.id@ == id@ && exists|k: int|
                    0 <= k < self.lines@.len() && self.lines@[k] == *l && forall|j: int|
                        0 <= j < k ==> (#[trigger] self.lines@[j]).id@ != id@,
                None => forall|k: int| 0 <= k < self.lines@.len() ==> (#[trigger] self.lines@[k]).id@ != id@,
            },
    {
        let mut k: usize = 0;
        while k < self.lines.len()
            invariant
                k <= self.lines@.len(),
                forall|j: int| 0 <= j < k ==> (#[trigger] self.lines@[j]).id@ != id@,
            decreases self.lines@.len() - k,
        {
            if str_eq(self.lines[k].id.as_str(), id) {
                return Some(&self.lines[k]);
            }
            k = k + 1;
        }
        None
    }
}

// ----------------------------------------------------------------------
// The binding
// ----------------------------------------------------------------------

/// One layout station joined to a network station.
#[derive(Clone, Debug)]
pub struct BoundStation {
    /// The identifier of the layout station.
    pub layout_station: String,
    /// The identifier of the layout line it sits on.
    pub layout_line: String,
    /// The code that bound it, as the layout spells it.
    pub code: String,
    /// The network station.
    pub station: usize,
    /// The name of the network station, the authoritative one.
    pub name: String,
}

/// Why a layout station bound to nothing.
#[derive(Copy, Clone, Debug, PartialEq, Eq, Structural)]
pub enum UnmatchedReason {
    /// The layout station carries no code.
    NoCode,
    /// The layout station carries a code that no network station
    /// answers to.
    UnknownCode,
}

/// A layout station that no network station answers.
#[derive(Clone, Debug)]
pub struct UnmatchedStation {
    /// The identifier of the layout station.
    pub layout_station: String,
    /// The identifier of the layout line it sits on.
    pub layout_line: String,
    /// The name the layout carries for it.
    pub name: Option<String>,
    /// The code the layout carries for it, where it carries one.
    pub code: Option<String>,
    /// Why it bound to nothing.
    pub reason: UnmatchedReason,
}

/// A network station that the layout draws nowhere.
#[derive(Clone, Debug)]
pub struct UncoveredStation {
    /// The network station.
    pub station: usize,
    /// The public name of the station.
    pub name: String,
    /// The public station codes of the station.
    pub codes: Vec<String>,
}

/// A layout joined to a network, by station code in both directions.
#[derive(Clone, Debug)]
pub struct BoundLayout {
    /// The layout as it was read.
    pub layout: Layout,
    /// The bound stations, in layout order.
    pub stations: Vec<BoundStation>,
    /// The layout stations that bound to nothing, in layout order.
    pub unmatched: Vec<UnmatchedStation>,
    /// The network stations that carry a code and that no layout
    /// station covers, in station order.
    pub uncovered: Vec<UncoveredStation>,
    /// Everything the layout reported, then what the binding could not
    /// match.
    pub diagnostics: Vec<Diagnostic>,
}

/// The comparison key of a station code: its ASCII letters and digits,
/// lower-cased, so that `NS1`, `ns-1` and `NS 1` are one code.
pub open spec fn code_key(s: Seq<char>) -> Seq<char>
    decreases s.len(),
{
    if s.len() == 0 {
        Seq::empty()
    } else if ascii_alnum(s.last()) {
        code_key(s.drop_last()).push(ascii_lower(s.last()))
    } else {
        code_key(s.drop_last())
    }
}

/// Whether a network station answers to a key.
pub open spec fn answers(network: RailNetwork, j: int, key: Seq<char>) -> bool {
    exists|k: int|
        0 <= k < network.stations@[j].codes@.len() && code_key(
            (#[trigger] network.stations@[j].codes@[k])@,
        ) == key
}

/// The first network station from `j` on that answers to a key.
pub open spec fn resolve_from(network: RailNetwork, key: Seq<char>, j: int) -> Option<int>
    decreases network.stations@.len() - j,
{
    if j < 0 || j >= network.stations@.len() {
        None
    } else if answers(network, j, key) {
        Some(j)
    } else {
        resolve_from(network, key, j + 1)
    }
}

/// What binding makes of a layout station: nothing without a code,
/// otherwise the first network station that answers to its code.
pub open spec fn binding_of(network: RailNetwork, s: LayoutStation) -> Option<Option<int>> {
    match s.code {
        None => None,
        Some(c) => Some(resolve_from(network, code_key(c@), 0)),
    }
}

/// The bound stations among the first `n`, as the index of the layout
/// station and that of the network station.
pub open spec fn bound_upto(ls: Seq<LayoutStation>, network: RailNetwork, n: int) -> Seq<(int, int)>
    decreases n,
{
    if n <= 0 {
        Seq::empty()
    } else {
        match binding_of(network, ls[n - 1]) {
            Some(Some(j)) => bound_upto(ls, network, n - 1).push((n - 1, j)),
            _ => bound_upto(ls, network, n - 1),
        }
    }
}

/// The layout stations among the first `n` that bound to nothing.
pub open spec fn unmatched_upto(ls: Seq<LayoutStation>, network: RailNetwork, n: int) -> Seq<int>
    decreases n,
{
    if n <= 0 {
        Seq::empty()
    } else {
        match binding_of(network, ls[n - 1]) {
            Some(Some(_)) => unmatched_upto(ls, network, n - 1),
            _ => unmatched_upto(ls, network, n - 1).push(n - 1),
        }
    }
}

/// Whether a layout station binds to network station `j`.
pub open spec fn covered(ls: Seq<LayoutStation>, network: RailNetwork, j: int) -> bool {
    exists|i: int| 0 <= i < ls.len() && binding_of(network, #[trigger] ls[i]) == Some(Some(j))
}

/// The network stations among the first `m` that carry a code and that
/// no layout station covers.
pub open spec fn uncovered_upto(ls: Seq<LayoutStation>, network: RailNetwork, m: int) -> Seq<int>
    decreases m,
{
    if m <= 0 {
        Seq::empty()
    } else if !covered(ls, network, m - 1) && network.stations@[m - 1].codes@.len() > 0 {
        uncovered_upto(ls, network, m - 1).push(m - 1)
    } else {
        uncovered_upto(ls, network, m - 1)
    }
}

/// The keys of the codes that bind among the first `n` stations.
pub open spec fn bound_keys(ls: Seq<LayoutStation>, network: RailNetwork, n: int) -> Seq<Seq<char>>
    decreases n,
{
    if n <= 0 {
        Seq::empty()
    } else {
        match binding_of(network, ls[n - 1]) {
            Some(Some(_)) => bound_keys(ls, network, n - 1).push(code_key(ls[n - 1].code->0@)),
            _ => bound_keys(ls, network, n - 1),
        }
    }
}

/// The codes of what binding the first `n` layout stations reports: a
/// code no station answers, and a code that an earlier station bound.
pub open spec fn binding_codes(ls: Seq<LayoutStation>, network: RailNetwork, n: int) -> Seq<Seq<char>>
    decreases n,
{
    if n <= 0 {
        Seq::empty()
    } else {
        let prev = binding_codes(ls, network, n - 1);
        match binding_of(network, ls[n - 1]) {
            None => prev,
            Some(None) => prev.push("layout-station-unmatched"@),
            Some(Some(_)) => if bound_keys(ls, network, n - 1).contains(code_key(ls[n - 1].code->0@)) {
                prev.push("layout-duplicate-code"@)
            } else {
                prev
            },
        }
    }
}

/// The codes of what the binding reports about the first `m` network
/// stations that no layout station covers.
pub open spec fn coverage_codes(ls: Seq<LayoutStation>, network: RailNetwork, m: int) -> Seq<Seq<char>>
    decreases m,
{
    if m <= 0 {
        Seq::empty()
    } else {
        let prev = coverage_codes(ls, network, m - 1);
        if covered(ls, network, m - 1) {
            prev
        } else if network.stations@[m - 1].codes@.len() == 0 {
            prev.push("network-station-without-code"@)
        } else {
            prev.push("network-station-uncovered"@)
        }
    }
}

/// Whether a bound station shows a binding.
pub open spec fn bound_shows(ls: Seq<LayoutStation>, network: RailNetwork, b: (int, int), s: BoundStation) -> bool {
    &&& s.layout_station@ == ls[b.0].id@
    &&& s.layout_line@ == ls[b.0].line@
    &&& (ls[b.0].code matches Some(c) && s.code@ == c@)
    &&& s.station == b.1
    &&& s.name@ == network.stations@[b.1].name@
}

/// Whether an unmatched station shows a layout station.
pub open spec fn unmatched_shows(ls: Seq<LayoutStation>, i: int, u: UnmatchedStation) -> bool {
    &&& u.layout_station@ == ls[i].id@
    &&& u.layout_line@ == ls[i].line@
    &&& opt_view(u.name) == opt_view(ls[i].name)
    &&& opt_view(u.code) == opt_view(ls[i].code)
    &&& u.reason == (if ls[i].code is None {
        UnmatchedReason::NoCode
    } else {
        UnmatchedReason::UnknownCode
    })
}

/// Whether an uncovered station shows network station `j`.
pub open spec fn uncovered_shows(network: RailNetwork, j: int, u: UncoveredStation) -> bool {
    &&& u.station == j
    &&& u.name@ == network.stations@[j].name@
    &&& string_views(u.codes@) == string_views(network.stations@[j].codes@)
}

/// Whether a binding is the join of a layout and a network.
pub open spec fn binding_is(layout: Layout, network: RailNetwork, b: BoundLayout) -> bool {
    let ls = layout.stations@;
    let n = ls.len() as int;
    let m = network.stations@.len() as int;
    let bound = bound_upto(ls, network, n);
    let unmatched = unmatched_upto(ls, network, n);
    let uncovered = uncovered_upto(ls, network, m);
    &&& b.layout == layout
    &&& b.stations@.len() == bound.len()
    &&& forall|k: int| 0 <= k < bound.len() ==> bound_shows(ls, network, bound[k], #[trigger] b.stations@[k])
    &&& b.unmatched@.len() == unmatched.len()
    &&& forall|k: int| 0 <= k < unmatched.len() ==> unmatched_shows(ls, unmatched[k], #[trigger] b.unmatched@[k])
    &&& b.uncovered@.len() == uncovered.len()
    &&& forall|k: int| 0 <= k < uncovered.len() ==> uncovered_shows(network, uncovered[k], #[trigger] b.uncovered@[k])
    &&& codes_of(b.diagnostics@) == codes_of(layout.diagnostics@) + binding_codes(ls, network, n)
        + coverage_codes(ls, network, m)
}

pub(crate) fn key_of(code: &str) -> (k: Vec<char>)
    ensures
        k@ == code_key(code@),
{
    let v = chars_of(code);
    let mut k: Vec<char> = Vec::new();
    let mut i: usize = 0;
    while i < v.len()
        invariant
            i <= v@.len(),
            v@ == code@,
            k@ == code_key(v@.take(i as int)),
        decreases v@.len() - i,
    {
        proof {
            assert(v@.take(i + 1).drop_last() =~= v@.take(i as int));
        }
        if is_ascii_alnum(v[i]) {
            k.push(to_ascii_lower(v[i]));
        }
        i = i + 1;
    }
    proof {
        assert(v@.take(v@.len() as int) =~= v@);
    }
    k
}

fn station_answers(network: &RailNetwork, j: usize, key: &Vec<char>) -> (b: bool)
    requires
        j < network.stations@.len(),
    ensures
        b == answers(*network, j as int, key@),
{
    let codes = &network.stations[j].codes;
    let mut k: usize = 0;
    while k < codes.len()
        invariant
            k <= codes@.len(),
            j < network.stations@.len(),
            codes == network.stations@[j as int].codes,
            forall|i: int| 0 <= i < k ==> code_key((#[trigger] codes@[i])@) != key@,
        decreases codes@.len() - k,
    {
        let ck = key_of(codes[k].as_str());
        if crate::textbuf::chars_eq(&ck, key) {
            return true;
        }
        k = k + 1;
    }
    false
}

fn resolve(network: &RailNetwork, key: &Vec<char>) -> (r: Option<usize>)
    ensures
        match r {
            Some(j) => j < network.stations@.len() && resolve_from(*network, key@, 0) == Some(j as int),
            None => resolve_from(*network, key@, 0) is None,
        },
{
    let mut j: usize = 0;
    while j < network.stations.len()
        invariant
            j <= network.stations@.len(),
            resolve_from(*network, key@, j as int) == resolve_from(*network, key@, 0),
        decreases network.stations@.len() - j,
    {
        if station_answers(network, j, key) {
            return Some(j);
        }
        j = j + 1;
    }
    None
}

fn seen_at(keys: &Vec<Vec<char>>, key: &Vec<char>) -> (r: Option<usize>)
    ensures
        match r {
            Some(s) => s < keys@.len() && keys@[s as int]@ == key@,
            None => forall|s: int| 0 <= s < keys@.len() ==> (#[trigger] keys@[s])@ != key@,
        },
{
    let mut s: usize = 0;
    while s < keys.len()
        invariant
            s <= keys@.len(),
            forall|t: int| 0 <= t < s ==> (#[trigger] keys@[t])@ != key@,
        decreases keys@.len() - s,
    {
        if crate::textbuf::chars_eq(&keys[s], key) {
            return Some(s);
        }
        s = s + 1;
    }
    None
}

impl BoundLayout {
    /// Join a layout to a network.
    ///
    /// A layout station binds to the first network station that
    /// answers to its code; one without a code, or with a code that no
    /// station answers, is unmatched. Every network station that
    /// carries a code and that no layout station binds is uncovered.
    #[verifier::spinoff_prover]
    pub fn bind(layout: Layout, network: &RailNetwork) -> (b: BoundLayout)
        ensures
            binding_is(layout, *network, b),
            graded_by_code(layout.diagnostics@) ==> graded_by_code(b.diagnostics@),
    {
        let ghost ls = layout.stations@;
        let mut diagnostics: Vec<Diagnostic> = Vec::new();
        crate::snapshot::extend_diagnostics(&mut diagnostics, &layout.diagnostics);
        proof {
            if graded_by_code(layout.diagnostics@) {
                assert forall|k: int| 0 <= k < diagnostics@.len() implies (
                #[trigger] diagnostics@[k]).severity == layout_severity(diagnostics@[k].code@) by {
                    assert(diagnostics@[0 + k].severity == layout.diagnostics@[k].severity);
                    assert(codes_of(diagnostics@)[k] == codes_of(layout.diagnostics@)[k]);
                }
            }
        }
        let ghost base = codes_of(diagnostics@);
        let mut covered_v: Vec<bool> = Vec::new();
        let mut j: usize = 0;
        while j < network.stations.len()
            invariant
                j <= network.stations@.len(),
                covered_v@.len() == j,
                forall|t: int| 0 <= t < j ==> !(#[trigger] covered_v@[t]),
            decreases network.stations@.len() - j,
        {
            covered_v.push(false);
            j = j + 1;
        }
        let mut seen_keys: Vec<Vec<char>> = Vec::new();
        let mut seen_ids: Vec<String> = Vec::new();
        let mut stations: Vec<BoundStation> = Vec::new();
        let mut unmatched: Vec<UnmatchedStation> = Vec::new();
        let mut i: usize = 0;
        while i < layout.stations.len()
            invariant
                i <= ls.len(),
                ls == layout.stations@,
                base == codes_of(layout.diagnostics@),
                covered_v@.len() == network.stations@.len(),
                forall|t: int|
                    0 <= t < covered_v@.len() ==> (#[trigger] covered_v@[t] <==> exists|x: int|
                        0 <= x < i && binding_of(*network, #[trigger] ls[x]) == Some(Some(t))),
                seen_ids@.len() == seen_keys@.len(),
                forall|key: Seq<char>|
                    #![trigger bound_keys(ls, *network, i as int).contains(key)]
                    bound_keys(ls, *network, i as int).contains(key) <==> exists|s: int|
                        0 <= s < seen_keys@.len() && (#[trigger] seen_keys@[s])@ == key,
                stations@.len() == bound_upto(ls, *network, i as int).len(),
                forall|k: int|
                    0 <= k < stations@.len() ==> bound_shows(
                        ls,
                        *network,
                        bound_upto(ls, *network, i as int)[k],
                        #[trigger] stations@[k],
                    ),
                unmatched@.len() == unmatched_upto(ls, *network, i as int).len(),
                forall|k: int|
                    0 <= k < unmatched@.len() ==> unmatched_shows(
                        ls,
                        unmatched_upto(ls, *network, i as int)[k],
                        #[trigger] unmatched@[k],
                    ),
                codes_of(diagnostics@) == base + binding_codes(ls, *network, i as int),
                graded_by_code(layout.diagnostics@) ==> graded_by_code(diagnostics@),
            decreases ls.len() - i,
        {
            let st = &layout.stations[i];
            let ghost before_codes = codes_of(diagnostics@);
            let ghost before_stations = stations@;
            let ghost before_unmatched = unmatched@;
            let ghost before_covered = covered_v@;
            let ghost before_keys = seen_keys@;
            match &st.code {
                None => {
                    proof {
                        assert(binding_of(*network, ls[i as int]) is None);
                        assert(bound_keys(ls, *network, i + 1) == bound_keys(ls, *network, i as int));
                    }
                    unmatched.push(
                        UnmatchedStation {
                            layout_station: owned(st.id.as_str()),
                            layout_line: owned(st.line.as_str()),
                            name: crate::common::copy_option(&st.name),
                            code: None,
                            reason: UnmatchedReason::NoCode,
                        },
                    );
                    proof {
                        assert forall|k: int| 0 <= k < unmatched@.len() implies unmatched_shows(
                            ls,
                            unmatched_upto(ls, *network, i + 1)[k],
                            #[trigger] unmatched@[k],
                        ) by {
                            if k < before_unmatched.len() {
                                assert(unmatched@[k] == before_unmatched[k]);
                            }
                        }
                        assert forall|t: int|
                            0 <= t < covered_v@.len() implies (#[trigger] covered_v@[t] <==> exists|x: int|
                            0 <= x < i + 1 && binding_of(*network, #[trigger] ls[x]) == Some(Some(t))) by {
                            if covered_v@[t] {
                                let x = choose|x: int| 0 <= x < i && binding_of(*network, #[trigger] ls[x]) == Some(Some(t));
                                assert(0 <= x < i + 1 && binding_of(*network, ls[x]) == Some(Some(t)));
                            }
                        }
                    }
                },
                Some(code) => {
                    let key = key_of(code.as_str());
                    match resolve(network, &key) {
                        None => {
                            proof {
                                assert(binding_of(*network, ls[i as int]) == Some(None::<int>));
                                assert(bound_keys(ls, *network, i + 1) == bound_keys(ls, *network, i as int));
                            }
                            let mut message = owned("no network station answers to the code \"");
                            push_str(&mut message, code.as_str());
                            push_str(
                                &mut message,
                                "\", so the layout draws a station the network does not have",
                            );
                            let ghost prev = diagnostics@;
                            diagnostics.push(
                                Diagnostic::warning("layout-station-unmatched", message).about(st.id.as_str()),
                            );
                            proof {
                                lemma_layout_severities();
                                assert(diagnostics@ == prev.push(diagnostics@.last()));
                                lemma_graded_push(prev, diagnostics@.last());
                                assert(diagnostic_views(diagnostics@) =~= diagnostic_views(prev).push(
                                    diagnostic_view(diagnostics@.last()),
                                ));
                            }
                            unmatched.push(
                                UnmatchedStation {
                                    layout_station: owned(st.id.as_str()),
                                    layout_line: owned(st.line.as_str()),
                                    name: crate::common::copy_option(&st.name),
                                    code: Some(owned(code.as_str())),
                                    reason: UnmatchedReason::UnknownCode,
                                },
                            );
                            proof {
                                assert(codes_of(diagnostics@) =~= before_codes.push("layout-station-unmatched"@));
                                assert forall|k: int| 0 <= k < unmatched@.len() implies unmatched_shows(
                                    ls,
                                    unmatched_upto(ls, *network, i + 1)[k],
                                    #[trigger] unmatched@[k],
                                ) by {
                                    if k < before_unmatched.len() {
                                        assert(unmatched@[k] == before_unmatched[k]);
                                    }
                                }
                                assert forall|t: int|
                                    0 <= t < covered_v@.len() implies (#[trigger] covered_v@[t] <==> exists|x: int|
                                    0 <= x < i + 1 && binding_of(*network, #[trigger] ls[x]) == Some(Some(t))) by {
                                    if covered_v@[t] {
                                        let x = choose|x: int| 0 <= x < i && binding_of(*network, #[trigger] ls[x]) == Some(Some(t));
                                        assert(0 <= x < i + 1 && binding_of(*network, ls[x]) == Some(Some(t)));
                                    }
                                }
                            }
                        },
                        Some(jj) => {
                            proof {
                                assert(binding_of(*network, ls[i as int]) == Some(Some(jj as int)));
                            }
                            let ghost old_contains = bound_keys(ls, *network, i as int).contains(key@);
                            match seen_at(&seen_keys, &key) {
                                Some(sx) => {
                                    proof {
                                        assert(old_contains);
                                    }
                                    let mut message = owned("the layout station \"");
                                    push_str(&mut message, seen_ids[sx].as_str());
                                    push_str(
                                        &mut message,
                                        "\" already carries the code \"",
                                    );
                                    push_str(&mut message, code.as_str());
                                    push_str(&mut message, "\", so the network station is drawn twice");
                                    let ghost prev = diagnostics@;
                                    diagnostics.push(
                                        Diagnostic::warning("layout-duplicate-code", message).about(
                                            st.id.as_str(),
                                        ),
                                    );
                                    proof {
                                        lemma_layout_severities();
                                        assert(diagnostics@ == prev.push(diagnostics@.last()));
                                        lemma_graded_push(prev, diagnostics@.last());
                                        assert(diagnostic_views(diagnostics@) =~= diagnostic_views(prev).push(
                                            diagnostic_view(diagnostics@.last()),
                                        ));
                                    }
                                    seen_ids.set(sx, owned(st.id.as_str()));
                                    proof {
                                        assert(codes_of(diagnostics@) =~= before_codes.push("layout-duplicate-code"@));
                                        assert forall|key2: Seq<char>|
                                            #![trigger bound_keys(ls, *network, i + 1).contains(key2)]
                                            bound_keys(ls, *network, i + 1).contains(key2) <==> exists|s: int|
                                                0 <= s < seen_keys@.len() && (#[trigger] seen_keys@[s])@ == key2 by {
                                            let bk = bound_keys(ls, *network, i as int);
                                            assert(bound_keys(ls, *network, i + 1) == bk.push(key@));
                                            if bk.push(key@).contains(key2) {
                                                let q = choose|q: int| 0 <= q < bk.push(key@).len() && bk.push(key@)[q] == key2;
                                                if q < bk.len() {
                                                    assert(bk[q] == key2);
                                                    assert(bk.contains(key2));
                                                } else {
                                                    assert(seen_keys@[sx as int]@ == key2);
                                                }
                                            }
                                            if exists|s: int| 0 <= s < seen_keys@.len() && (#[trigger] seen_keys@[s])@ == key2 {
                                                assert(bk.contains(key2));
                                                let q = choose|q: int| 0 <= q < bk.len() && bk[q] == key2;
                                                assert(bk.push(key@)[q] == key2);
                                            }
                                        }
                                    }
                                },
                                None => {
                                    proof {
                                        assert(!old_contains);
                                    }
                                    seen_keys.push(key);
                                    seen_ids.push(owned(st.id.as_str()));
                                    proof {
                                        assert(codes_of(diagnostics@) =~= before_codes);
                                        assert forall|key2: Seq<char>|
                                            #![trigger bound_keys(ls, *network, i + 1).contains(key2)]
                                            bound_keys(ls, *network, i + 1).contains(key2) <==> exists|s: int|
                                                0 <= s < seen_keys@.len() && (#[trigger] seen_keys@[s])@ == key2 by {
                                            let bk = bound_keys(ls, *network, i as int);
                                            assert(bound_keys(ls, *network, i + 1) == bk.push(key@));
                                            if bk.push(key@).contains(key2) {
                                                let q = choose|q: int| 0 <= q < bk.push(key@).len() && bk.push(key@)[q] == key2;
                                                if q < bk.len() {
                                                    assert(bk[q] == key2);
                                                    assert(bk.contains(key2));
                                                    let s0 = choose|s: int| 0 <= s < before_keys.len() && (#[trigger] before_keys[s])@ == key2;
                                                    assert(seen_keys@[s0] == before_keys[s0]);
                                                } else {
                                                    assert(seen_keys@[before_keys.len() as int]@ == key2);
                                                }
                                            }
                                            if exists|s: int| 0 <= s < seen_keys@.len() && (#[trigger] seen_keys@[s])@ == key2 {
                                                let s0 = choose|s: int| 0 <= s < seen_keys@.len() && (#[trigger] seen_keys@[s])@ == key2;
                                                if s0 < before_keys.len() {
                                                    assert(before_keys[s0] == seen_keys@[s0]);
                                                    assert(bk.contains(key2));
                                                    let q = choose|q: int| 0 <= q < bk.len() && bk[q] == key2;
                                                    assert(bk.push(key@)[q] == key2);
                                                } else {
                                                    assert(bk.push(key@)[bk.len() as int] == key2);
                                                }
                                            }
                                        }
                                    }
                                },
                            }
                            covered_v.set(jj, true);
                            stations.push(
                                BoundStation {
                                    layout_station: owned(st.id.as_str()),
                                    layout_line: owned(st.line.as_str()),
                                    code: owned(code.as_str()),
                                    station: jj,
                                    name: owned(network.stations[jj].name.as_str()),
                                },
                            );
                            proof {
                                assert forall|k: int| 0 <= k < stations@.len() implies bound_shows(
                                    ls,
                                    *network,
                                    bound_upto(ls, *network, i + 1)[k],
                                    #[trigger] stations@[k],
                                ) by {
                                    if k < before_stations.len() {
                                        assert(stations@[k] == before_stations[k]);
                                    }
                                }
                                assert forall|t: int|
                                    0 <= t < covered_v@.len() implies (#[trigger] covered_v@[t] <==> exists|x: int|
                                    0 <= x < i + 1 && binding_of(*network, #[trigger] ls[x]) == Some(Some(t))) by {
                                    if t == jj as int {
                                        assert(binding_of(*network, ls[i as int]) == Some(Some(t)));
                                    } else {
                                        assert(covered_v@[t] == before_covered[t]);
                                        if covered_v@[t] {
                                            let x = choose|x: int| 0 <= x < i && binding_of(*network, #[trigger] ls[x]) == Some(Some(t));
                                            assert(0 <= x < i + 1 && binding_of(*network, ls[x]) == Some(Some(t)));
                                        }
                                    }
                                }
                            }
                        },
                    }
                },
            }
            i = i + 1;
        }
        let ghost n = ls.len() as int;
        let ghost after_binding = codes_of(diagnostics@);
        let mut uncovered: Vec<UncoveredStation> = Vec::new();
        let mut j: usize = 0;
        while j < network.stations.len()
            invariant
                j <= network.stations@.len(),
                ls == layout.stations@,
                n == ls.len(),
                covered_v@.len() == network.stations@.len(),
                forall|t: int|
                    0 <= t < covered_v@.len() ==> (#[trigger] covered_v@[t] <==> covered(ls, *network, t)),
                uncovered@.len() == uncovered_upto(ls, *network, j as int).len(),
                forall|k: int|
                    0 <= k < uncovered@.len() ==> uncovered_shows(
                        *network,
                        uncovered_upto(ls, *network, j as int)[k],
                        #[trigger] uncovered@[k],
                    ),
                codes_of(diagnostics@) == after_binding + coverage_codes(ls, *network, j as int),
                graded_by_code(layout.diagnostics@) ==> graded_by_code(diagnostics@),
            decreases network.stations@.len() - j,
        {
            let station = &network.stations[j];
            let ghost before_codes = codes_of(diagnostics@);
            let ghost before_uncovered = uncovered@;
            if covered_v[j] {
                proof {
                    assert(covered(ls, *network, j as int));
                }
            } else if station.codes.len() == 0 {
                let ghost prev = diagnostics@;
                diagnostics.push(
                    Diagnostic::info(
                        "network-station-without-code",
                        owned(
                            "this network station carries no station code, so no layout station can bind to it",
                        ),
                    ).about(station.gtfs_id.as_str()),
                );
                proof {
                    lemma_layout_severities();
                    assert(diagnostics@ == prev.push(diagnostics@.last()));
                    lemma_graded_push(prev, diagnostics@.last());
                    assert(diagnostic_views(diagnostics@) =~= diagnostic_views(prev).push(
                        diagnostic_view(diagnostics@.last()),
                    ));
                }
                proof {
                    assert(codes_of(diagnostics@) =~= before_codes.push("network-station-without-code"@));
                }
            } else {
                let mut message = owned("the layout draws no station for \"");
                push_str(&mut message, station.name.as_str());
                push_str(&mut message, "\" (");
                let mut c: usize = 0;
                while c < station.codes.len()
                    invariant
                        c <= station.codes@.len(),
                    decreases station.codes@.len() - c,
                {
                    if c > 0 {
                        push_str(&mut message, ", ");
                    }
                    push_str(&mut message, station.codes[c].as_str());
                    c = c + 1;
                }
                push_str(&mut message, "), so the network reaches a place the map does not show");
                let ghost prev = diagnostics@;
                diagnostics.push(
                    Diagnostic::warning("network-station-uncovered", message).about(
                        station.gtfs_id.as_str(),
                    ),
                );
                proof {
                    lemma_layout_severities();
                    assert(diagnostics@ == prev.push(diagnostics@.last()));
                    lemma_graded_push(prev, diagnostics@.last());
                    assert(diagnostic_views(diagnostics@) =~= diagnostic_views(prev).push(
                        diagnostic_view(diagnostics@.last()),
                    ));
                }
                uncovered.push(
                    UncoveredStation {
                        station: j,
                        name: owned(station.name.as_str()),
                        codes: crate::common::copy_strings(&station.codes),
                    },
                );
                proof {
                    assert(codes_of(diagnostics@) =~= before_codes.push("network-station-uncovered"@));
                    assert forall|k: int| 0 <= k < uncovered@.len() implies uncovered_shows(
                        *network,
                        uncovered_upto(ls, *network, j + 1)[k],
                        #[trigger] uncovered@[k],
                    ) by {
                        if k < before_uncovered.len() {
                            assert(uncovered@[k] == before_uncovered[k]);
                        }
                    }
                }
            }
            j = j + 1;
        }
        BoundLayout { layout, stations, unmatched, uncovered, diagnostics }
    }
}

impl BoundLayout {
    /// Get the network station that one layout station binds to: that
    /// of the first bound station with the identifier.
    pub fn station(&self, layout_station: &str) -> (r: Option<usize>)
        ensures
            match r {
                Some(j) => exists|k: int|
                    0 <= k < self.stations@.len() && (#[trigger] self.stations@[k]).layout_station@
                        == layout_station@ && self.stations@[k].station == j && forall|x: int|
                        0 <= x < k ==> (#[trigger] self.stations@[x]).layout_station@ != layout_station@,
                None => forall|k: int|
                    0 <= k < self.stations@.len() ==> (#[trigger] self.stations@[k]).layout_station@
                        != layout_station@,
            },
    {
        let mut k: usize = 0;
        while k < self.stations.len()
            invariant
                k <= self.stations@.len(),
                forall|x: int|
                    0 <= x < k ==> (#[trigger] self.stations@[x]).layout_station@ != layout_station@,
            decreases self.stations@.len() - k,
        {
            if str_eq(self.stations[k].layout_station.as_str(), layout_station) {
                return Some(self.stations[k].station);
            }
            k = k + 1;
        }
        None
    }

    /// Report whether every station matched, in both directions.
    pub fn is_complete(&self) -> (b: bool)
        ensures
            b == (self.unmatched@.len() == 0 && self.uncovered@.len() == 0),
    {
        self.unmatched.len() == 0 && self.uncovered.len() == 0
    }
}

/// Every layout station is bound or unmatched, never both: the bound
/// ones are those whose code a network station answers.
pub proof fn lemma_every_layout_station_is_bound_or_unmatched(
    ls: Seq<LayoutStation>,
    network: RailNetwork,
    n: int,
)
    requires
        0 <= n <= ls.len(),
    ensures
        bound_upto(ls, network, n).len() + unmatched_upto(ls, network, n).len() == n,
        forall|i: int|
            0 <= i < n ==> ((exists|k: int|
                0 <= k < bound_upto(ls, network, n).len() && (#[trigger] bound_upto(ls, network, n)[k]).0
                    == i) <==> binding_of(network, #[trigger] ls[i]) matches Some(Some(_))),
        forall|i: int|
            0 <= i < n ==> (unmatched_upto(ls, network, n).contains(i) <==> !(binding_of(
                network,
                #[trigger] ls[i],
            ) matches Some(Some(_)))),
    decreases n,
{
    if n > 0 {
        lemma_every_layout_station_is_bound_or_unmatched(ls, network, n - 1);
        lemma_bound_below(ls, network, n - 1);
        lemma_unmatched_below(ls, network, n - 1);
        let b0 = bound_upto(ls, network, n - 1);
        let u0 = unmatched_upto(ls, network, n - 1);
        let b = bound_upto(ls, network, n);
        let u = unmatched_upto(ls, network, n);
        assert forall|i: int| 0 <= i < n implies ((exists|k: int|
            0 <= k < b.len() && (#[trigger] b[k]).0 == i) <==> binding_of(network, #[trigger] ls[i]) matches Some(
            Some(_),
        )) by {
            if i < n - 1 {
                if exists|k: int| 0 <= k < b.len() && (#[trigger] b[k]).0 == i {
                    let k = choose|k: int| 0 <= k < b.len() && (#[trigger] b[k]).0 == i;
                    if k < b0.len() {
                        assert(b0[k].0 == i);
                    }
                }
                if exists|k: int| 0 <= k < b0.len() && (#[trigger] b0[k]).0 == i {
                    let k = choose|k: int| 0 <= k < b0.len() && (#[trigger] b0[k]).0 == i;
                    assert(b[k] == b0[k]);
                }
            } else {
                if binding_of(network, ls[i]) matches Some(Some(_)) {
                    assert(b[b0.len() as int].0 == i);
                } else {
                    assert(b == b0);
                }
            }
        }
        assert forall|i: int| 0 <= i < n implies (u.contains(i) <==> !(binding_of(network, #[trigger] ls[i]) matches Some(
            Some(_),
        ))) by {
            if i < n - 1 {
                if u.contains(i) {
                    let k = choose|k: int| 0 <= k < u.len() && u[k] == i;
                    if k < u0.len() {
                        assert(u0[k] == i);
                    }
                }
                if u0.contains(i) {
                    let k = choose|k: int| 0 <= k < u0.len() && u0[k] == i;
                    assert(u[k] == u0[k]);
                }
            } else {
                if !(binding_of(network, ls[i]) matches Some(Some(_))) {
                    assert(u[u0.len() as int] == i);
                } else {
                    assert(u == u0);
                }
            }
        }
    }
}

proof fn lemma_bound_below(ls: Seq<LayoutStation>, network: RailNetwork, n: int)
    ensures
        forall|k: int|
            0 <= k < bound_upto(ls, network, n).len() ==> 0 <= (#[trigger] bound_upto(ls, network, n)[k]).0
                < n,
    decreases n,
{
    if n > 0 {
        lemma_bound_below(ls, network, n - 1);
        let b0 = bound_upto(ls, network, n - 1);
        let b = bound_upto(ls, network, n);
        assert forall|k: int| 0 <= k < b.len() implies 0 <= (#[trigger] b[k]).0 < n by {
            if k < b0.len() {
                assert(b[k] == b0[k]);
            }
        }
    }
}

proof fn lemma_unmatched_below(ls: Seq<LayoutStation>, network: RailNetwork, n: int)
    ensures
        forall|k: int|
            0 <= k < unmatched_upto(ls, network, n).len() ==> 0 <= #[trigger] unmatched_upto(
                ls,
                network,
                n,
            )[k] < n,
    decreases n,
{
    if n > 0 {
        lemma_unmatched_below(ls, network, n - 1);
        let u0 = unmatched_upto(ls, network, n - 1);
        let u = unmatched_upto(ls, network, n);
        assert forall|k: int| 0 <= k < u.len() implies 0 <= #[trigger] u[k] < n by {
            if k < u0.len() {
                assert(u[k] == u0[k]);
            }
        }
    }
}

/// Every network station that carries a code is drawn by a bound
/// layout station, or reported as uncovered.
pub proof fn lemma_every_coded_station_is_drawn_or_reported(
    ls: Seq<LayoutStation>,
    network: RailNetwork,
    m: int,
)
    requires
        0 <= m <= network.stations@.len(),
    ensures
        forall|j: int|
            0 <= j < m && network.stations@[j].codes@.len() > 0 ==> covered(ls, network, j)
                || uncovered_upto(ls, network, m).contains(j),
        forall|j: int|
            0 <= j < m ==> (uncovered_upto(ls, network, m).contains(j) ==> !covered(ls, network, j)),
    decreases m,
{
    if m > 0 {
        lemma_every_coded_station_is_drawn_or_reported(ls, network, m - 1);
        let u0 = uncovered_upto(ls, network, m - 1);
        let u = uncovered_upto(ls, network, m);
        lemma_uncovered_below(ls, network, m - 1);
        assert forall|j: int|
            0 <= j < m && network.stations@[j].codes@.len() > 0 implies covered(ls, network, j)
            || u.contains(j) by {
            if j < m - 1 {
                if u0.contains(j) {
                    let k = choose|k: int| 0 <= k < u0.len() && u0[k] == j;
                    assert(u[k] == j);
                }
            } else if !covered(ls, network, j) {
                assert(u[u0.len() as int] == j);
            }
        }
        assert forall|j: int| 0 <= j < m && u.contains(j) implies !covered(ls, network, j) by {
            {
                let k = choose|k: int| 0 <= k < u.len() && u[k] == j;
                if k < u0.len() {
                    assert(u0[k] == j);
                    assert(u0.contains(j));
                }
            }
        }
    }
}

proof fn lemma_uncovered_below(ls: Seq<LayoutStation>, network: RailNetwork, m: int)
    ensures
        forall|k: int|
            0 <= k < uncovered_upto(ls, network, m).len() ==> 0 <= #[trigger] uncovered_upto(
                ls,
                network,
                m,
            )[k] < m,
    decreases m,
{
    if m > 0 {
        lemma_uncovered_below(ls, network, m - 1);
        let u0 = uncovered_upto(ls, network, m - 1);
        let u = uncovered_upto(ls, network, m);
        assert forall|k: int| 0 <= k < u.len() implies 0 <= #[trigger] u[k] < m by {
            if k < u0.len() {
                assert(u[k] == u0[k]);
            }
        }
    }
}

} // verus!
