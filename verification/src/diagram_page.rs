//! Render a train diagram as one self-contained HTML page: the drawing,
//! the filter controls, and a call table for every run.
//!
//! The tables are the accessible and print-friendly equivalent of the
//! drawing: with JavaScript switched off the reader still gets every
//! scheduled time. The drawing itself, and the data the page script
//! reads, come in as finished text.

use vstd::prelude::*;

use crate::common::{hhmm_text, service_hhmm, LegendItem, LineView, PublicationMetadata};
use crate::config::PublicationConfig;
use crate::escape::{attr, css_color, css_color_filter, html_escape, json, json_escape, text};
use crate::order::{lemma_seq_lt_asymmetric, lemma_seq_lt_total, lemma_seq_lt_transitive, seq_lt, str_lt};
use crate::page::{
    accent_of, colophon, colophon_html, foot, head, head_html, legend, legend_html, masthead,
    masthead_html, non_empty, theme_block, theme_text, warnings, warnings_html,
};
use crate::text::{labels_of, language_tag, localized_get, Labels, LocalizedText};
use crate::textbuf::{decimal, owned, push_decimal, push_str};
use crate::time::{time_text, GtfsTime};

verus! {

/// One call of a run, as its table row shows it.
#[derive(Clone, Debug)]
pub struct DiagramCallRow {
    /// The station name.
    pub station: String,
    /// Whether the run serves the station.
    pub stops: bool,
    /// The scheduled arrival.
    pub arrival: Option<GtfsTime>,
    /// The scheduled departure.
    pub departure: Option<GtfsTime>,
    /// The platform.
    pub platform: Option<String>,
}

/// One run of the diagram, as its table shows it.
#[derive(Clone, Debug)]
pub struct DiagramRunView {
    /// The public train name, where the feed gives one.
    pub label: Option<String>,
    /// The line of the run.
    pub line: LineView,
    /// The destination text.
    pub destination: String,
    /// The GTFS direction.
    pub direction: Option<u8>,
    /// Whether the times are exact.
    pub exact: bool,
    /// The time of the first point of the drawn path.
    pub first_time: Option<GtfsTime>,
    /// The GTFS `trip_id`, an internal key.
    pub source_trip_id: String,
    /// The calls, in travel order.
    pub calls: Vec<DiagramCallRow>,
}

/// One headway band of the diagram.
#[derive(Clone, Debug)]
pub struct DiagramBandView {
    /// The band label, for example `every 10 min`.
    pub label: String,
    /// The line name.
    pub line_name: String,
    /// The destination text.
    pub destination: String,
}

/// What the page of a diagram shows besides the drawing.
#[derive(Clone, Debug)]
pub struct DiagramPage {
    /// The title.
    pub title: LocalizedText,
    /// The lines, for the line filter.
    pub lines: Vec<LineView>,
    /// The runs.
    pub runs: Vec<DiagramRunView>,
    /// The destinations, for the destination filter.
    pub destinations: Vec<String>,
    /// The headway bands.
    pub bands: Vec<DiagramBandView>,
    /// The start of the time axis.
    pub start: GtfsTime,
    /// The end of the time axis.
    pub end: GtfsTime,
    /// The label of the service day.
    pub service_day_label: String,
    /// The provenance of the document.
    pub metadata: PublicationMetadata,
    /// The legend.
    pub legend: Vec<LegendItem>,
}

/// The buttons above the drawing.
pub open spec fn button_html(id: Seq<char>, label: Seq<char>) -> Seq<char> {
    "<button type=\"button\" id=\""@ + id + "\">"@ + html_escape(label) + "</button>\n"@
}

/// The zoom, reset, print, download, and monochrome switches.
pub open spec fn diagram_controls_html(labels: Labels) -> Seq<char> {
    "<div class=\"controls needs-script no-print\">\n"@ + button_html("zoom-in"@, labels.zoom_in@)
        + button_html("zoom-out"@, labels.zoom_out@) + button_html("reset-view"@, labels.reset@)
        + button_html("print-page"@, labels.print@) + button_html(
        "download-svg"@,
        labels.download_svg@,
    ) + button_html("toggle-mono"@, labels.monochrome@) + "</div>\n"@
}

fn render_button(out: &mut String, id: &str, label: &str)
    ensures
        final(out)@ == old(out)@ + button_html(id@, label@),
{
    push_str(out, "<button type=\"button\" id=\"");
    push_str(out, id);
    push_str(out, "\">");
    push_str(out, text(label).as_str());
    push_str(out, "</button>\n");
    proof {
        assert(final(out)@ =~= old(out)@ + button_html(id@, label@));
    }
}

fn render_controls(out: &mut String, labels: &Labels)
    ensures
        final(out)@ == old(out)@ + diagram_controls_html(*labels),
{
    push_str(out, "<div class=\"controls needs-script no-print\">\n");
    render_button(out, "zoom-in", labels.zoom_in);
    render_button(out, "zoom-out", labels.zoom_out);
    render_button(out, "reset-view", labels.reset);
    render_button(out, "print-page", labels.print);
    render_button(out, "download-svg", labels.download_svg);
    render_button(out, "toggle-mono", labels.monochrome);
    push_str(out, "</div>\n");
    proof {
        reveal_strlit("zoom-in");
        reveal_strlit("zoom-out");
        reveal_strlit("reset-view");
        reveal_strlit("print-page");
        reveal_strlit("download-svg");
        reveal_strlit("toggle-mono");
        assert(final(out)@ =~= old(out)@ + diagram_controls_html(*labels));
    }
}

// ----------------------------------------------------------------------
// Filters
// ----------------------------------------------------------------------

/// The text of a direction: its number, or a dash.
pub open spec fn direction_text(d: Option<u8>) -> Seq<char> {
    match d {
        Some(v) => decimal(v as nat),
        None => "\u{2014}"@,
    }
}

/// Whether a list holds the direction texts of the runs, each once, in
/// the order of their characters.
pub open spec fn is_direction_list(runs: Seq<DiagramRunView>, list: Seq<Seq<char>>) -> bool {
    directions_of_first(runs, list, runs.len() as int)
}

/// Whether a list holds the direction texts of the first `n` runs,
/// each once, in the order of their characters.
pub open spec fn directions_of_first(runs: Seq<DiagramRunView>, list: Seq<Seq<char>>, n: int) -> bool {
    &&& forall|k: int, l: int| 0 <= k < l < list.len() ==> seq_lt(#[trigger] list[k], #[trigger] list[l])
    &&& forall|k: int|
        0 <= k < list.len() ==> exists|r: int|
            0 <= r < n && direction_text((#[trigger] runs[r]).direction) == #[trigger] list[k]
    &&& forall|r: int| 0 <= r < n ==> list.contains(direction_text((#[trigger] runs[r]).direction))
}

/// One checkbox of a filter.
pub open spec fn checkbox_html(filter: Seq<char>, value: Seq<char>, label: Seq<char>) -> Seq<char> {
    "<label><input type=\"checkbox\" checked data-filter=\""@ + filter + "\" value=\""@
        + html_escape(value) + "\">"@ + html_escape(label) + "</label>\n"@
}

/// The swatch color of a line: its color where it passes the filter,
/// otherwise a neutral grey.
pub open spec fn swatch_color(line: LineView) -> Seq<char> {
    match line.color {
        Some(c) => match css_color_filter(c@) {
            Some(x) => x,
            None => "#8b97ad"@,
        },
        None => "#8b97ad"@,
    }
}

/// The checkbox of a line, with its swatch.
pub open spec fn line_box_html(line: LineView) -> Seq<char> {
    "<label><input type=\"checkbox\" checked data-filter=\"line\" value=\""@ + html_escape(
        line.route_id@,
    ) + "\"><span class=\"swatch\" style=\"background:"@ + swatch_color(line) + "\"></span>"@
        + html_escape(line.name@) + "</label>\n"@
}

/// The checkboxes of the lines.
pub open spec fn line_boxes_html(lines: Seq<LineView>) -> Seq<char>
    decreases lines.len(),
{
    if lines.len() == 0 {
        Seq::empty()
    } else {
        line_boxes_html(lines.drop_last()) + line_box_html(lines.last())
    }
}

/// The checkboxes of a filter over texts.
pub open spec fn text_boxes_html(filter: Seq<char>, values: Seq<Seq<char>>) -> Seq<char>
    decreases values.len(),
{
    if values.len() == 0 {
        Seq::empty()
    } else {
        text_boxes_html(filter, values.drop_last()) + checkbox_html(
            filter,
            values.last(),
            values.last(),
        )
    }
}

/// Whether a page carries bands or approximate runs.
pub open spec fn has_approximate(page: DiagramPage) -> bool {
    page.bands@.len() > 0 || exists|r: int| 0 <= r < page.runs@.len() && !(#[trigger] page.runs@[r]).exact
}

/// The opening of a fieldset.
pub open spec fn fieldset_open(legend: Seq<char>) -> Seq<char> {
    "<fieldset><legend>"@ + html_escape(legend) + "</legend>\n"@
}

/// The filter for exact and approximate service.
pub open spec fn exactness_html(labels: Labels) -> Seq<char> {
    fieldset_open(labels.show_approximate@)
        + "<label><input type=\"checkbox\" checked data-filter=\"exactness\" value=\"exact\">"@
        + html_escape(labels.exact@) + "</label>\n"@
        + "<label><input type=\"checkbox\" checked data-filter=\"exactness\" value=\"approximate\">"@
        + html_escape(labels.approximate@) + "</label>\n"@ + "</fieldset>\n"@
}

/// The filter controls of a page, with the directions listed.
pub open spec fn filters_html(page: DiagramPage, labels: Labels, directions: Seq<Seq<char>>) -> Seq<
    char,
> {
    filters_open(labels) + line_filter_html(page, labels) + direction_filter_html(labels, directions)
        + destination_filter_html(page, labels) + (if has_approximate(page) {
        exactness_html(labels)
    } else {
        Seq::empty()
    }) + "</div>\n</details>\n"@
}

/// The opening of the filter controls.
pub open spec fn filters_open(labels: Labels) -> Seq<char> {
    "<details class=\"filters needs-script no-print\" open>\n<summary>"@ + html_escape(
        labels.filters@,
    ) + "</summary>\n<div class=\"filter-groups\">\n"@
}

/// The line filter.
pub open spec fn line_filter_html(page: DiagramPage, labels: Labels) -> Seq<char> {
    fieldset_open(labels.line@) + line_boxes_html(page.lines@) + "</fieldset>\n"@
}

/// The direction filter.
pub open spec fn direction_filter_html(labels: Labels, directions: Seq<Seq<char>>) -> Seq<char> {
    fieldset_open(labels.direction@) + text_boxes_html("direction"@, directions) + "</fieldset>\n"@
}

/// The destination filter.
pub open spec fn destination_filter_html(page: DiagramPage, labels: Labels) -> Seq<char> {
    fieldset_open(labels.destination@) + text_boxes_html(
        "destination"@,
        page.destinations@.map_values(|d: String| d@),
    ) + "</fieldset>\n"@
}

fn direction_string(d: Option<u8>) -> (s: String)
    ensures
        s@ == direction_text(d),
{
    match d {
        Some(v) => {
            let mut out = String::new();
            push_decimal(&mut out, v as u64);
            out
        },
        None => owned("\u{2014}"),
    }
}

fn direction_list(runs: &Vec<DiagramRunView>) -> (list: Vec<String>)
    ensures
        is_direction_list(runs@, list@.map_values(|s: String| s@)),
{
    let mut list: Vec<String> = Vec::new();
    let mut i: usize = 0;
    while i < runs.len()
        invariant
            i <= runs@.len(),
            directions_of_first(runs@, list@.map_values(|s: String| s@), i as int),
        decreases runs@.len() - i,
    {
        let d = direction_string(runs[i].direction);
        let ghost old_list = list@;
        let ghost l0 = old_list.map_values(|s: String| s@);
        let mut pos: usize = 0;
        while pos < list.len() && str_lt(list[pos].as_str(), d.as_str())
            invariant
                pos <= list@.len(),
                list@ == old_list,
                l0 == old_list.map_values(|s: String| s@),
                forall|k: int| 0 <= k < pos ==> seq_lt(#[trigger] l0[k], d@),
            decreases list@.len() - pos,
        {
            proof {
                assert(l0[pos as int] == list@[pos as int]@);
            }
            pos = pos + 1;
        }
        proof {
            if pos < list@.len() {
                assert(l0[pos as int] == list@[pos as int]@);
            }
        }
        let present = pos < list.len() && crate::textbuf::str_eq(list[pos].as_str(), d.as_str());
        if !present {
            list.insert(pos, d);
            proof {
                let l = list@.map_values(|s: String| s@);
                assert(l =~= l0.insert(pos as int, d@));
                if pos < l0.len() {
                    lemma_seq_lt_total(d@, l0[pos as int]);
                }
                assert forall|k: int, m: int| 0 <= k < m < l.len() implies seq_lt(#[trigger] l[k], #[trigger] l[m]) by {
                    if k < pos && m == pos {
                    } else if k < pos && m > pos {
                        assert(l[m] == l0[m - 1]);
                        assert(l[k] == l0[k]);
                        if m - 1 > pos {
                            lemma_seq_lt_transitive(d@, l0[pos as int], l0[m - 1]);
                        }
                        lemma_seq_lt_transitive(l0[k], d@, l0[m - 1]);
                    } else if k == pos {
                        assert(l[m] == l0[m - 1]);
                        if m - 1 > pos {
                            lemma_seq_lt_transitive(d@, l0[pos as int], l0[m - 1]);
                        }
                    } else if k > pos {
                        assert(l[k] == l0[k - 1]);
                        assert(l[m] == l0[m - 1]);
                    } else {
                        assert(l[k] == l0[k]);
                        assert(l[m] == l0[m]);
                    }
                }
                assert forall|k: int| 0 <= k < l.len() implies exists|r: int|
                    0 <= r < i + 1 && direction_text((#[trigger] runs@[r]).direction) == #[trigger] l[k] by {
                    if k == pos {
                        assert(direction_text(runs@[i as int].direction) == l[k]);
                    } else {
                        let kk = if k < pos { k } else { k - 1 };
                        assert(l[k] == l0[kk]);
                        let r = choose|r: int| 0 <= r < i && direction_text((#[trigger] runs@[r]).direction) == l0[kk];
                        assert(0 <= r < i + 1 && direction_text(runs@[r].direction) == l[k]);
                    }
                }
                assert forall|r: int| 0 <= r < i + 1 implies l.contains(direction_text((#[trigger] runs@[r]).direction)) by {
                    if r == i as int {
                        assert(l[pos as int] == d@);
                    } else {
                        let t = direction_text(runs@[r].direction);
                        assert(l0.contains(t));
                        let k = choose|k: int| 0 <= k < l0.len() && l0[k] == t;
                        if k < pos {
                            assert(l[k] == t);
                        } else {
                            assert(l[k + 1] == t);
                        }
                    }
                }
            }
        } else {
            proof {
                let l = list@.map_values(|s: String| s@);
                assert(l == l0);
                assert forall|k: int| 0 <= k < l.len() implies exists|r: int|
                    0 <= r < i + 1 && direction_text((#[trigger] runs@[r]).direction) == #[trigger] l[k] by {
                    let r = choose|r: int| 0 <= r < i && direction_text((#[trigger] runs@[r]).direction) == l[k];
                    assert(0 <= r < i + 1 && direction_text(runs@[r].direction) == l[k]);
                }
                assert forall|r: int| 0 <= r < i + 1 implies l.contains(direction_text((#[trigger] runs@[r]).direction)) by {
                    if r == i as int {
                        assert(l[pos as int] == d@);
                    }
                }
            }
        }
        i = i + 1;
    }
    list
}

fn render_checkbox(out: &mut String, filter: &str, value: &str)
    ensures
        final(out)@ == old(out)@ + checkbox_html(filter@, value@, value@),
{
    push_str(out, "<label><input type=\"checkbox\" checked data-filter=\"");
    push_str(out, filter);
    push_str(out, "\" value=\"");
    push_str(out, attr(value).as_str());
    push_str(out, "\">");
    push_str(out, text(value).as_str());
    push_str(out, "</label>\n");
    proof {
        assert(final(out)@ =~= old(out)@ + checkbox_html(filter@, value@, value@));
    }
}

fn render_text_boxes(out: &mut String, filter: &str, values: &Vec<String>)
    ensures
        final(out)@ == old(out)@ + text_boxes_html(filter@, values@.map_values(|v: String| v@)),
{
    let ghost start = out@;
    let ghost vs = values@.map_values(|v: String| v@);
    let mut i: usize = 0;
    while i < values.len()
        invariant
            i <= values@.len(),
            vs == values@.map_values(|v: String| v@),
            out@ == start + text_boxes_html(filter@, vs.take(i as int)),
        decreases values@.len() - i,
    {
        proof {
            assert(vs.take(i + 1).drop_last() =~= vs.take(i as int));
            assert(vs.take(i + 1).last() == values@[i as int]@);
        }
        render_checkbox(out, filter, values[i].as_str());
        i = i + 1;
    }
    proof {
        assert(vs.take(vs.len() as int) =~= vs);
    }
}

fn swatch(line: &LineView) -> (s: String)
    ensures
        s@ == swatch_color(*line),
{
    match &line.color {
        Some(c) => match css_color(c.as_str()) {
            Some(x) => x,
            None => owned("#8b97ad"),
        },
        None => owned("#8b97ad"),
    }
}

fn render_line_boxes(out: &mut String, lines: &Vec<LineView>)
    ensures
        final(out)@ == old(out)@ + line_boxes_html(lines@),
{
    let ghost start = out@;
    let mut i: usize = 0;
    while i < lines.len()
        invariant
            i <= lines@.len(),
            out@ == start + line_boxes_html(lines@.take(i as int)),
        decreases lines@.len() - i,
    {
        proof {
            assert(lines@.take(i + 1).drop_last() =~= lines@.take(i as int));
        }
        let line = &lines[i];
        let ghost before = out@;
        push_str(out, "<label><input type=\"checkbox\" checked data-filter=\"line\" value=\"");
        push_str(out, attr(line.route_id.as_str()).as_str());
        push_str(out, "\"><span class=\"swatch\" style=\"background:");
        push_str(out, swatch(line).as_str());
        push_str(out, "\"></span>");
        push_str(out, text(line.name.as_str()).as_str());
        push_str(out, "</label>\n");
        proof {
            assert(out@ =~= before + line_box_html(*line));
        }
        i = i + 1;
    }
    proof {
        assert(lines@.take(lines@.len() as int) =~= lines@);
    }
}

fn render_fieldset_open(out: &mut String, legend: &str)
    ensures
        final(out)@ == old(out)@ + fieldset_open(legend@),
{
    push_str(out, "<fieldset><legend>");
    push_str(out, text(legend).as_str());
    push_str(out, "</legend>\n");
    proof {
        assert(final(out)@ =~= old(out)@ + fieldset_open(legend@));
    }
}

fn any_approximate(page: &DiagramPage) -> (b: bool)
    ensures
        b == has_approximate(*page),
{
    if page.bands.len() > 0 {
        return true;
    }
    let mut r: usize = 0;
    while r < page.runs.len()
        invariant
            r <= page.runs@.len(),
            page.bands@.len() == 0,
            forall|k: int| 0 <= k < r ==> (#[trigger] page.runs@[k]).exact,
        decreases page.runs@.len() - r,
    {
        if !page.runs[r].exact {
            return true;
        }
        r = r + 1;
    }
    false
}

fn render_exactness(out: &mut String, labels: &Labels)
    ensures
        final(out)@ == old(out)@ + exactness_html(*labels),
{
    let ghost s0 = out@;
    render_fieldset_open(out, labels.show_approximate);
    push_str(out, "<label><input type=\"checkbox\" checked data-filter=\"exactness\" value=\"exact\">");
    push_str(out, text(labels.exact).as_str());
    push_str(out, "</label>\n");
    push_str(
        out,
        "<label><input type=\"checkbox\" checked data-filter=\"exactness\" value=\"approximate\">",
    );
    push_str(out, text(labels.approximate).as_str());
    push_str(out, "</label>\n");
    push_str(out, "</fieldset>\n");
    proof {
        assert(out@ =~= s0 + exactness_html(*labels));
    }
}

fn render_filters_open(out: &mut String, labels: &Labels)
    ensures
        final(out)@ == old(out)@ + filters_open(*labels),
{
    let ghost s0 = out@;
    push_str(out, "<details class=\"filters needs-script no-print\" open>\n<summary>");
    push_str(out, text(labels.filters).as_str());
    push_str(out, "</summary>\n<div class=\"filter-groups\">\n");
    proof {
        assert(out@ =~= s0 + filters_open(*labels));
    }
}

fn render_line_filter(out: &mut String, page: &DiagramPage, labels: &Labels)
    ensures
        final(out)@ == old(out)@ + line_filter_html(*page, *labels),
{
    let ghost s0 = out@;
    render_fieldset_open(out, labels.line);
    render_line_boxes(out, &page.lines);
    push_str(out, "</fieldset>\n");
    proof {
        assert(out@ =~= s0 + line_filter_html(*page, *labels));
    }
}

fn render_box_filter(out: &mut String, legend: &str, filter: &str, values: &Vec<String>)
    ensures
        final(out)@ == old(out)@ + fieldset_open(legend@) + text_boxes_html(
            filter@,
            values@.map_values(|v: String| v@),
        ) + "</fieldset>\n"@,
{
    let ghost s0 = out@;
    render_fieldset_open(out, legend);
    render_text_boxes(out, filter, values);
    push_str(out, "</fieldset>\n");
    proof {
        assert(out@ =~= s0 + fieldset_open(legend@) + text_boxes_html(
            filter@,
            values@.map_values(|v: String| v@),
        ) + "</fieldset>\n"@);
    }
}

#[verifier::spinoff_prover]
#[verifier::rlimit(60)]
fn render_filters(out: &mut String, page: &DiagramPage, labels: &Labels)
    ensures
        exists|dirs: Seq<Seq<char>>|
            is_direction_list(page.runs@, dirs) && final(out)@ == old(out)@ + filters_html(
                *page,
                *labels,
                dirs,
            ),
{
    let directions = direction_list(&page.runs);
    let ghost dirs = directions@.map_values(|v: String| v@);
    let ghost s0 = out@;
    render_filters_open(out, labels);
    let ghost s1 = out@;
    render_line_filter(out, page, labels);
    let ghost s2 = out@;
    render_box_filter(out, labels.direction, "direction", &directions);
    let ghost s3 = out@;
    proof {
        reveal_strlit("direction");
    }
    render_box_filter(out, labels.destination, "destination", &page.destinations);
    let ghost s4 = out@;
    proof {
        reveal_strlit("destination");
    }
    if any_approximate(page) {
        render_exactness(out, labels);
    }
    let ghost s5 = out@;
    proof {
        assert(s5 =~= s4 + (if has_approximate(*page) {
            exactness_html(*labels)
        } else {
            Seq::empty()
        }));
    }
    push_str(out, "</div>\n</details>\n");
    proof {
        assert(out@ =~= s0 + filters_html(*page, *labels, dirs));
    }
}

// ----------------------------------------------------------------------
// Call tables
// ----------------------------------------------------------------------

/// The text of a time cell: the time, or a dash.
pub open spec fn time_cell_text(t: Option<GtfsTime>) -> Seq<char> {
    match t {
        Some(v) => time_text(v.secs as nat),
        None => "\u{2014}"@,
    }
}

/// The heading of a run's table: its name, line, destination, first
/// time, and a tilde for approximate times.
pub open spec fn run_heading(run: DiagramRunView) -> Seq<char> {
    (match run.label {
        Some(l) => l@ + " \u{00B7} "@,
        None => Seq::empty(),
    }) + run.line.name@ + " \u{2192} "@ + run.destination@ + (match run.first_time {
        Some(t) => " \u{00B7} "@ + hhmm_text(t.secs as nat),
        None => Seq::empty(),
    }) + (if !run.exact {
        " \u{00B7} ~"@
    } else {
        Seq::empty()
    })
}

/// One row of a call table.
pub open spec fn call_row_html(c: DiagramCallRow, labels: Labels) -> Seq<char> {
    "<tr><th scope=\"row\">"@ + html_escape(c.station@) + (if !c.stops {
        " <span class=\"flag\">("@ + html_escape(labels.legend_pass_through@) + ")</span>"@
    } else {
        Seq::empty()
    }) + "</th><td>"@ + html_escape(time_cell_text(c.arrival)) + "</td><td>"@ + html_escape(
        time_cell_text(c.departure),
    ) + "</td><td>"@ + html_escape(
        match c.platform {
            Some(p) => p@,
            None => "\u{2014}"@,
        },
    ) + "</td></tr>\n"@
}

/// The rows of a call table.
pub open spec fn call_rows_html(calls: Seq<DiagramCallRow>, labels: Labels) -> Seq<char>
    decreases calls.len(),
{
    if calls.len() == 0 {
        Seq::empty()
    } else {
        call_rows_html(calls.drop_last(), labels) + call_row_html(calls.last(), labels)
    }
}

/// A header cell.
pub open spec fn header_cell(label: Seq<char>) -> Seq<char> {
    "<th scope=\"col\">"@ + html_escape(label) + "</th>"@
}

/// The table of one run.
pub open spec fn run_table_html(run: DiagramRunView, labels: Labels, show_ids: bool) -> Seq<char> {
    run_table_open(run, labels) + call_rows_html(run.calls@, labels) + run_table_close(run, show_ids)
}

/// The summary and the head of a run's table.
pub open spec fn run_table_open(run: DiagramRunView, labels: Labels) -> Seq<char> {
    "<details>\n<summary>"@ + html_escape(run_heading(run)) + "</summary>\n<table>\n<thead><tr>"@
        + header_cell(labels.stations@) + header_cell(labels.arrival@) + header_cell(
        labels.departure@,
    ) + header_cell(labels.platform@) + "</tr></thead>\n<tbody>\n"@
}

/// The end of a run's table, with the internal trip identifier where
/// it is asked for.
pub open spec fn run_table_close(run: DiagramRunView, show_ids: bool) -> Seq<char> {
    "</tbody>\n</table>\n"@ + (if show_ids {
        "<p class=\"muted\">"@ + html_escape(run.source_trip_id@) + "</p>\n"@
    } else {
        Seq::empty()
    }) + "</details>\n"@
}

/// The tables of a run of runs.
pub open spec fn run_tables_html(runs: Seq<DiagramRunView>, labels: Labels, show_ids: bool) -> Seq<char>
    decreases runs.len(),
{
    if runs.len() == 0 {
        Seq::empty()
    } else {
        run_tables_html(runs.drop_last(), labels, show_ids) + run_table_html(
            runs.last(),
            labels,
            show_ids,
        )
    }
}

/// The call tables of a page: none without runs.
pub open spec fn call_tables_html(page: DiagramPage, labels: Labels, show_ids: bool) -> Seq<char> {
    if page.runs@.len() == 0 {
        Seq::empty()
    } else {
        "<section class=\"call-tables\" aria-labelledby=\"calls-heading\">\n<h2 id=\"calls-heading\">"@
            + html_escape(labels.calls@) + "</h2>\n"@ + run_tables_html(page.runs@, labels, show_ids)
            + "</section>\n"@
    }
}

fn time_cell(t: Option<GtfsTime>) -> (s: String)
    ensures
        s@ == time_cell_text(t),
{
    match t {
        Some(v) => v.to_text(),
        None => owned("\u{2014}"),
    }
}

fn heading_of(run: &DiagramRunView) -> (s: String)
    ensures
        s@ == run_heading(*run),
{
    let mut h = String::new();
    match &run.label {
        Some(l) => {
            push_str(&mut h, l.as_str());
            push_str(&mut h, " \u{00B7} ");
        },
        None => {},
    }
    push_str(&mut h, run.line.name.as_str());
    push_str(&mut h, " \u{2192} ");
    push_str(&mut h, run.destination.as_str());
    match run.first_time {
        Some(t) => {
            push_str(&mut h, " \u{00B7} ");
            push_str(&mut h, service_hhmm(t).as_str());
        },
        None => {},
    }
    if !run.exact {
        push_str(&mut h, " \u{00B7} ~");
    }
    proof {
        assert(h@ =~= run_heading(*run));
    }
    h
}

fn render_call_row(out: &mut String, c: &DiagramCallRow, labels: &Labels)
    ensures
        final(out)@ == old(out)@ + call_row_html(*c, *labels),
{
    let ghost s0 = out@;
    push_str(out, "<tr><th scope=\"row\">");
    push_str(out, text(c.station.as_str()).as_str());
    if !c.stops {
        push_str(out, " <span class=\"flag\">(");
        push_str(out, text(labels.legend_pass_through).as_str());
        push_str(out, ")</span>");
    }
    push_str(out, "</th><td>");
    push_str(out, text(time_cell(c.arrival).as_str()).as_str());
    push_str(out, "</td><td>");
    push_str(out, text(time_cell(c.departure).as_str()).as_str());
    push_str(out, "</td><td>");
    let platform = match &c.platform {
        Some(p) => owned(p.as_str()),
        None => owned("\u{2014}"),
    };
    push_str(out, text(platform.as_str()).as_str());
    push_str(out, "</td></tr>\n");
    proof {
        assert(out@ =~= s0 + call_row_html(*c, *labels));
    }
}

fn render_header_cell(out: &mut String, label: &str)
    ensures
        final(out)@ == old(out)@ + header_cell(label@),
{
    push_str(out, "<th scope=\"col\">");
    push_str(out, text(label).as_str());
    push_str(out, "</th>");
    proof {
        assert(final(out)@ =~= old(out)@ + header_cell(label@));
    }
}

fn render_run_table(out: &mut String, run: &DiagramRunView, labels: &Labels, show_ids: bool)
    ensures
        final(out)@ == old(out)@ + run_table_html(*run, *labels, show_ids),
{
    let ghost s0 = out@;
    push_str(out, "<details>\n<summary>");
    push_str(out, text(heading_of(run).as_str()).as_str());
    push_str(out, "</summary>\n<table>\n<thead><tr>");
    render_header_cell(out, labels.stations);
    render_header_cell(out, labels.arrival);
    render_header_cell(out, labels.departure);
    render_header_cell(out, labels.platform);
    push_str(out, "</tr></thead>\n<tbody>\n");
    let ghost s1 = out@;
    proof {
        assert(s1 =~= s0 + run_table_open(*run, *labels));
    }
    let mut i: usize = 0;
    while i < run.calls.len()
        invariant
            i <= run.calls@.len(),
            out@ == s1 + call_rows_html(run.calls@.take(i as int), *labels),
        decreases run.calls@.len() - i,
    {
        proof {
            assert(run.calls@.take(i + 1).drop_last() =~= run.calls@.take(i as int));
        }
        render_call_row(out, &run.calls[i], labels);
        i = i + 1;
    }
    proof {
        assert(run.calls@.take(run.calls@.len() as int) =~= run.calls@);
    }
    let ghost s2 = out@;
    push_str(out, "</tbody>\n</table>\n");
    if show_ids {
        push_str(out, "<p class=\"muted\">");
        push_str(out, text(run.source_trip_id.as_str()).as_str());
        push_str(out, "</p>\n");
    }
    push_str(out, "</details>\n");
    proof {
        assert(out@ =~= s2 + run_table_close(*run, show_ids));
        assert(out@ =~= s0 + run_table_html(*run, *labels, show_ids));
    }
}

fn render_call_tables(out: &mut String, page: &DiagramPage, labels: &Labels, show_ids: bool)
    ensures
        final(out)@ == old(out)@ + call_tables_html(*page, *labels, show_ids),
{
    let ghost s0 = out@;
    if page.runs.len() == 0 {
        proof {
            assert(out@ =~= s0 + call_tables_html(*page, *labels, show_ids));
        }
        return;
    }
    push_str(out, "<section class=\"call-tables\" aria-labelledby=\"calls-heading\">\n<h2 id=\"calls-heading\">");
    push_str(out, text(labels.calls).as_str());
    push_str(out, "</h2>\n");
    let ghost s1 = out@;
    let mut i: usize = 0;
    while i < page.runs.len()
        invariant
            i <= page.runs@.len(),
            out@ == s1 + run_tables_html(page.runs@.take(i as int), *labels, show_ids),
        decreases page.runs@.len() - i,
    {
        proof {
            assert(page.runs@.take(i + 1).drop_last() =~= page.runs@.take(i as int));
        }
        render_run_table(out, &page.runs[i], labels, show_ids);
        i = i + 1;
    }
    proof {
        assert(page.runs@.take(page.runs@.len() as int) =~= page.runs@);
    }
    push_str(out, "</section>\n");
    proof {
        assert(out@ =~= s0 + call_tables_html(*page, *labels, show_ids));
    }
}

// ----------------------------------------------------------------------
// The page
// ----------------------------------------------------------------------

/// One headway band of the list below the drawing.
pub open spec fn band_item_html(b: DiagramBandView) -> Seq<char> {
    "<li>"@ + html_escape(b.label@) + " \u{00B7} "@ + html_escape(b.line_name@) + " \u{2192} "@
        + html_escape(b.destination@) + "</li>\n"@
}

/// The items of the band list.
pub open spec fn band_items_html(bands: Seq<DiagramBandView>) -> Seq<char>
    decreases bands.len(),
{
    if bands.len() == 0 {
        Seq::empty()
    } else {
        band_items_html(bands.drop_last()) + band_item_html(bands.last())
    }
}

/// The band list: none without bands.
pub open spec fn bands_html(bands: Seq<DiagramBandView>) -> Seq<char> {
    if bands.len() == 0 {
        Seq::empty()
    } else {
        "<ul class=\"band-list\">\n"@ + band_items_html(bands) + "</ul>\n"@
    }
}

/// The panel that the page script fills with the selected run.
pub open spec fn run_details_html(labels: Labels) -> Seq<char> {
    "<section class=\"run-details needs-script no-print\" aria-live=\"polite\" aria-labelledby=\"run-details-heading\">\n<h2 id=\"run-details-heading\">"@
        + html_escape(labels.selected_run@)
        + "</h2>\n<div id=\"run-details-body\"></div>\n</section>\n"@
}

/// A text where present and not empty.
pub open spec fn filled(value: Option<String>) -> Option<Seq<char>> {
    match value {
        Some(c) => if c@.len() > 0 {
            Some(c@)
        } else {
            None
        },
        None => None,
    }
}

/// The theme of a diagram page: accented with the line of its first
/// run.
pub open spec fn diagram_theme(page: DiagramPage, config: PublicationConfig) -> Seq<char> {
    if page.runs@.len() == 0 {
        theme_text(config.theme, None, None)
    } else {
        theme_text(config.theme, filled(page.runs@[0].line.color), filled(page.runs@[0].line.text_color))
    }
}

/// The subtitle: the word for a diagram, the time axis, and the day.
pub open spec fn diagram_subtitle(page: DiagramPage, labels: Labels) -> Seq<char> {
    labels.diagram@ + " \u{00B7} "@ + hhmm_text(page.start.secs as nat) + " \u{2013} "@ + hhmm_text(
        page.end.secs as nat,
    ) + " \u{00B7} "@ + page.service_day_label@
}

/// The part of a diagram page above the drawing.
pub open spec fn diagram_top_html(
    page: DiagramPage,
    config: PublicationConfig,
    styles: Seq<&str>,
    directions: Seq<Seq<char>>,
) -> Seq<char> {
    let labels = labels_of(config.language);
    let title = localized_get(page.title, config.language);
    head_html(title, language_tag(config.language), styles, diagram_theme(page, config))
        + masthead_html(title, diagram_subtitle(page, labels), Seq::empty()) + warnings_html(
        page.metadata,
        labels,
    ) + diagram_controls_html(labels) + filters_html(page, labels, directions)
}

/// The part of a diagram page below the drawing.
pub open spec fn diagram_bottom_html(
    page: DiagramPage,
    config: PublicationConfig,
    data: Seq<char>,
    script: Seq<char>,
) -> Seq<char> {
    let labels = labels_of(config.language);
    run_details_html(labels) + bands_html(page.bands@) + call_tables_html(
        page,
        labels,
        config.diagram.show_internal_trip_ids,
    ) + legend_html(page.legend@, labels) + colophon_html(page.metadata, labels)
        + "<script type=\"application/json\" id=\"diagram-data\">"@ + json_escape(data)
        + "</script>\n<script>\n"@ + script + "\n</script>\n"@ + "</div>\n</body>\n</html>\n"@
}

/// A whole diagram page.
pub open spec fn diagram_html(
    page: DiagramPage,
    config: PublicationConfig,
    styles: Seq<&str>,
    svg: Seq<char>,
    data: Seq<char>,
    script: Seq<char>,
    directions: Seq<Seq<char>>,
) -> Seq<char> {
    diagram_top_html(page, config, styles, directions) + "<div class=\"diagram-frame\">\n"@ + svg
        + "</div>\n"@ + diagram_bottom_html(page, config, data, script)
}

fn render_bands(out: &mut String, bands: &Vec<DiagramBandView>)
    ensures
        final(out)@ == old(out)@ + bands_html(bands@),
{
    let ghost s0 = out@;
    if bands.len() == 0 {
        proof {
            assert(out@ =~= s0 + bands_html(bands@));
        }
        return;
    }
    push_str(out, "<ul class=\"band-list\">\n");
    let ghost s1 = out@;
    let mut i: usize = 0;
    while i < bands.len()
        invariant
            i <= bands@.len(),
            out@ == s1 + band_items_html(bands@.take(i as int)),
        decreases bands@.len() - i,
    {
        proof {
            assert(bands@.take(i + 1).drop_last() =~= bands@.take(i as int));
        }
        let b = &bands[i];
        let ghost before = out@;
        push_str(out, "<li>");
        push_str(out, text(b.label.as_str()).as_str());
        push_str(out, " \u{00B7} ");
        push_str(out, text(b.line_name.as_str()).as_str());
        push_str(out, " \u{2192} ");
        push_str(out, text(b.destination.as_str()).as_str());
        push_str(out, "</li>\n");
        proof {
            assert(out@ =~= before + band_item_html(*b));
        }
        i = i + 1;
    }
    proof {
        assert(bands@.take(bands@.len() as int) =~= bands@);
    }
    push_str(out, "</ul>\n");
    proof {
        assert(out@ =~= s0 + bands_html(bands@));
    }
}

fn render_run_details(out: &mut String, labels: &Labels)
    ensures
        final(out)@ == old(out)@ + run_details_html(*labels),
{
    let ghost s0 = out@;
    push_str(
        out,
        "<section class=\"run-details needs-script no-print\" aria-live=\"polite\" aria-labelledby=\"run-details-heading\">\n<h2 id=\"run-details-heading\">",
    );
    push_str(out, text(labels.selected_run).as_str());
    push_str(out, "</h2>\n<div id=\"run-details-body\"></div>\n</section>\n");
    proof {
        assert(out@ =~= s0 + run_details_html(*labels));
    }
}

fn color_text(c: &Option<String>) -> (r: Option<&str>)
    ensures
        crate::page::str_view(r) == match *c {
            Some(s) => Some(s@),
            None => None,
        },
{
    match c {
        Some(s) => Some(s.as_str()),
        None => None,
    }
}

fn page_theme(page: &DiagramPage, config: &PublicationConfig) -> (theme: String)
    ensures
        theme@ == diagram_theme(*page, *config),
{
    let (accent_color, accent_text) = if page.runs.len() > 0 {
        let line = &page.runs[0].line;
        accent_of(config, color_text(&line.color), color_text(&line.text_color))
    } else {
        (None, None)
    };
    proof {
        if page.runs@.len() > 0 {
            let line = page.runs@[0].line;
            assert(crate::page::str_view(accent_color) == filled(line.color));
            assert(crate::page::str_view(accent_text) == filled(line.text_color));
        }
    }
    theme_block(&config.theme, accent_color, accent_text)
}

fn page_subtitle(page: &DiagramPage, labels: &Labels) -> (subtitle: String)
    ensures
        subtitle@ == diagram_subtitle(*page, *labels),
{
    let mut subtitle = owned(labels.diagram);
    push_str(&mut subtitle, " \u{00B7} ");
    push_str(&mut subtitle, service_hhmm(page.start).as_str());
    push_str(&mut subtitle, " \u{2013} ");
    push_str(&mut subtitle, service_hhmm(page.end).as_str());
    push_str(&mut subtitle, " \u{00B7} ");
    push_str(&mut subtitle, page.service_day_label.as_str());
    proof {
        assert(subtitle@ =~= diagram_subtitle(*page, *labels));
    }
    subtitle
}

#[verifier::rlimit(60)]
#[verifier::spinoff_prover]
fn render_top(
    out: &mut String,
    page: &DiagramPage,
    config: &PublicationConfig,
    styles: &[&str],
    labels: &Labels,
)
    requires
        *labels == labels_of(config.language),
    ensures
        exists|dirs: Seq<Seq<char>>|
            is_direction_list(page.runs@, dirs) && final(out)@ == old(out)@ + diagram_top_html(
                *page,
                *config,
                styles@,
                dirs,
            ),
{
    let theme = page_theme(page, config);
    let title = page.title.get(config.language);
    let subtitle = page_subtitle(page, labels);
    let ghost s0 = out@;
    head(out, title, config.language.tag(), styles, theme.as_str());
    let no_codes: Vec<String> = Vec::new();
    masthead(out, title, subtitle.as_str(), no_codes.as_slice());
    proof {
        assert(no_codes@ =~= Seq::<String>::empty());
    }
    warnings(out, &page.metadata, labels);
    render_controls(out, labels);
    let ghost s4 = out@;
    render_filters(out, page, labels);
    proof {
        let dirs = choose|dirs: Seq<Seq<char>>|
            is_direction_list(page.runs@, dirs) && out@ == s4 + filters_html(*page, *labels, dirs);
        assert(out@ =~= s0 + diagram_top_html(*page, *config, styles@, dirs));
    }
}

#[verifier::rlimit(60)]
#[verifier::spinoff_prover]
fn render_bottom(
    out: &mut String,
    page: &DiagramPage,
    config: &PublicationConfig,
    labels: &Labels,
    data: &str,
    script: &str,
)
    requires
        *labels == labels_of(config.language),
    ensures
        final(out)@ == old(out)@ + diagram_bottom_html(*page, *config, data@, script@),
{
    let ghost s0 = out@;
    render_run_details(out, labels);
    render_bands(out, &page.bands);
    render_call_tables(out, page, labels, config.diagram.show_internal_trip_ids);
    legend(out, page.legend.as_slice(), labels);
    colophon(out, &page.metadata, labels);
    let ghost s5 = out@;
    push_str(out, "<script type=\"application/json\" id=\"diagram-data\">");
    push_str(out, json(data).as_str());
    push_str(out, "</script>\n<script>\n");
    push_str(out, script);
    push_str(out, "\n</script>\n");
    foot(out);
    proof {
        assert(out@ =~= s0 + diagram_bottom_html(*page, *config, data@, script@));
    }
}

/// Render a diagram page as one HTML file: the drawing `svg`, the
/// filters, and the call tables, with the style sheets, the data that
/// the page script reads, and the script itself inlined.
pub fn render_diagram(
    page: &DiagramPage,
    config: &PublicationConfig,
    styles: &[&str],
    svg: &str,
    data: &str,
    script: &str,
) -> (html: String)
    ensures
        exists|dirs: Seq<Seq<char>>|
            is_direction_list(page.runs@, dirs) && html@ == diagram_html(
                *page,
                *config,
                styles@,
                svg@,
                data@,
                script@,
                dirs,
            ),
{
    let labels = Labels::for_language(config.language);
    let mut out = String::new();
    render_top(&mut out, page, config, styles, &labels);
    let ghost s1 = out@;
    push_str(&mut out, "<div class=\"diagram-frame\">\n");
    push_str(&mut out, svg);
    push_str(&mut out, "</div>\n");
    let ghost s2 = out@;
    render_bottom(&mut out, page, config, &labels, data, script);
    proof {
        let dirs = choose|dirs: Seq<Seq<char>>|
            is_direction_list(page.runs@, dirs) && s1 == Seq::<char>::empty() + diagram_top_html(
                *page,
                *config,
                styles@,
                dirs,
            );
        assert(out@ =~= diagram_html(*page, *config, styles@, svg@, data@, script@, dirs));
    }
    out
}


/// How the drawing of a diagram is packaged.
#[derive(Copy, Clone, Debug, PartialEq, Eq, Structural)]
pub enum SvgMode {
    /// A fragment for embedding in an HTML page.
    Embedded,
    /// A standalone document with an XML declaration.
    Standalone,
}

} // verus!
