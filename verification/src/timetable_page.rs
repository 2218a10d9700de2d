//! Render a timetable document as one self-contained HTML page.
//!
//! The markup is semantic first: a panel is a `<section>`, an hour row
//! is a `<tr>` with the hour in a `<th>`, and the departures of that
//! hour are an `<ol>`. With the stylesheet removed the page still reads
//! as "05 — 12 Springleaf, 24 Woodlands South", which is what a screen
//! reader announces and what a text browser shows.
//!
//! The style sheets and the page script are files of the program; the
//! caller hands their text in.

use vstd::prelude::*;

use crate::common::{css_key_spec, flag_explanation, flag_key, flag_symbol, DepartureFlag};
use crate::config::PublicationConfig;
use crate::escape::{attr, css_color, css_color_filter, css_ident, html_escape, text};
use crate::mapweb::join_strings;
use crate::common::string_views;
use crate::page::{
    accent_of, colophon, colophon_html, foot, head, head_html, join, legend, legend_html,
    masthead, masthead_html, theme_block, theme_text, warnings, warnings_html,
};
use crate::text::{labels_of, language_tag, localized_get, Labels};
use crate::textbuf::{decimal, owned, pad2, push_char, push_decimal, push_pad2, push_str};
use crate::timetable::{
    column_bounds, column_ranges, lemma_columns_lie_within_the_rows, FrequencyNote, HourGroup,
    TimetableDeparture, TimetableDocument, TimetablePanel,
};

verus! {

/// The spoken explanations of the flags of a departure.
pub open spec fn flags_spoken(flags: Seq<DepartureFlag>, labels: Labels) -> Seq<char>
    decreases flags.len(),
{
    if flags.len() == 0 {
        Seq::empty()
    } else {
        flags_spoken(flags.drop_last(), labels) + ", "@ + flag_explanation(flags.last(), labels)
    }
}

/// The visible marks of the flags of a departure.
pub open spec fn flags_marks(flags: Seq<DepartureFlag>) -> Seq<char>
    decreases flags.len(),
{
    if flags.len() == 0 {
        Seq::empty()
    } else {
        flags_marks(flags.drop_last()) + "<span aria-hidden=\"true\" class=\"flag flag-"@
            + flag_key(flags.last()) + "\">"@ + html_escape(flag_symbol(flags.last()))
            + "</span>"@
    }
}

/// The accessible name of a departure: everything spelled out, because
/// the visual form abbreviates and relies on position.
pub open spec fn spoken_text(d: TimetableDeparture, labels: Labels) -> Seq<char> {
    pad2(((d.scheduled_time.secs / 3600) % 24) as nat) + seq![':'] + pad2(d.display_minute as nat)
        + (match d.display_seconds {
        Some(s) => seq![':'] + pad2(s as nat),
        None => Seq::empty(),
    }) + " \u{2192} "@ + d.destination_full@ + (match d.platform {
        Some(p) => ", "@ + labels.platform@ + " "@ + p@,
        None => Seq::empty(),
    }) + flags_spoken(d.flags@, labels)
}

/// The opening of a departure item, marked where the time is
/// approximate.
pub open spec fn departure_open(d: TimetableDeparture) -> Seq<char> {
    "<li class=\"dep"@ + (if d.flags@.contains(DepartureFlag::Approximate) {
        " approximate"@
    } else {
        Seq::empty()
    }) + "\"><span class=\"visually-hidden\">"@
}

/// The visible time of a departure: the minute, and the seconds where
/// the configuration shows them.
pub open spec fn departure_time_html(d: TimetableDeparture) -> Seq<char> {
    "</span>\n<span aria-hidden=\"true\" class=\"min\">"@ + pad2(d.display_minute as nat)
        + "</span>"@ + (match d.display_seconds {
        Some(s) => "<span aria-hidden=\"true\" class=\"sec\">"@ + pad2(s as nat) + "</span>"@,
        None => Seq::empty(),
    })
}

/// The visible destination and train name of a departure.
pub open spec fn departure_names_html(d: TimetableDeparture) -> Seq<char> {
    "<span aria-hidden=\"true\" class=\"dest\" title=\""@ + html_escape(d.destination_full@)
        + "\">"@ + html_escape(d.destination@) + "</span>"@ + (match d.trip_short_name {
        Some(n) => "<span aria-hidden=\"true\" class=\"train-name\">"@ + html_escape(n@)
            + "</span>"@,
        None => Seq::empty(),
    })
}

/// The markup of one departure.
pub open spec fn departure_html(d: TimetableDeparture, labels: Labels) -> Seq<char> {
    departure_open(d) + html_escape(spoken_text(d, labels)) + departure_time_html(d)
        + departure_names_html(d) + flags_marks(d.flags@) + "</li>\n"@
}

/// The markup of the departures of one hour.
pub open spec fn departures_html(ds: Seq<TimetableDeparture>, labels: Labels) -> Seq<char>
    decreases ds.len(),
{
    if ds.len() == 0 {
        Seq::empty()
    } else {
        departures_html(ds.drop_last(), labels) + departure_html(ds.last(), labels)
    }
}

/// The opening of an hour row, marked where the hour belongs to the
/// next calendar day.
pub open spec fn hour_row_open(g: HourGroup) -> Seq<char> {
    "<tr class=\"hour-row"@ + (if g.service_hour >= 24 {
        " past-midnight"@
    } else {
        Seq::empty()
    }) + "\">\n<th scope=\"row\" class=\"hour-cell\">"@ + pad2(g.display_hour as nat)
        + "</th>\n<td class=\"minutes\">"@
}

/// The minutes of an hour row; a dash for an hour without a departure.
pub open spec fn hour_minutes_html(g: HourGroup, labels: Labels) -> Seq<char> {
    if g.departures@.len() == 0 {
        "<span class=\"empty-hour\" aria-hidden=\"true\">\u{2014}</span>"@
    } else {
        "<ol>\n"@ + departures_html(g.departures@, labels) + "</ol>"@
    }
}

/// The markup of one hour row.
pub open spec fn hour_row_html(g: HourGroup, labels: Labels) -> Seq<char> {
    hour_row_open(g) + hour_minutes_html(g, labels) + "</td>\n</tr>\n"@
}

/// The markup of a run of hour rows.
pub open spec fn hour_rows_html(gs: Seq<HourGroup>, labels: Labels) -> Seq<char>
    decreases gs.len(),
{
    if gs.len() == 0 {
        Seq::empty()
    } else {
        hour_rows_html(gs.drop_last(), labels) + hour_row_html(gs.last(), labels)
    }
}

/// The hidden caption of a column: line, direction, service day, and
/// the column number counted from one.
pub open spec fn caption_text(panel: TimetablePanel, day_label: Seq<char>, index: nat) -> Seq<
    char,
> {
    panel.line.name@ + " \u{00B7} "@ + panel.direction_label@ + " \u{00B7} "@ + day_label + " "@
        + decimal(index + 1)
}

/// The markup of one column of hour rows.
pub open spec fn column_html(
    groups: Seq<HourGroup>,
    index: nat,
    panel: TimetablePanel,
    day_label: Seq<char>,
    labels: Labels,
) -> Seq<char> {
    "<table class=\"hours\">\n<caption class=\"visually-hidden\">"@ + html_escape(
        caption_text(panel, day_label, index),
    ) + "</caption>\n<thead><tr><th scope=\"col\" class=\"col-hour\">"@ + html_escape(
        labels.hour@,
    ) + "</th><th scope=\"col\">"@ + html_escape(labels.minutes@)
        + "</th></tr></thead>\n<tbody>\n"@ + hour_rows_html(groups, labels)
        + "</tbody>\n</table>\n"@
}

/// The markup of the columns `0..n` of a panel.
pub open spec fn columns_html(
    ranges: Seq<(usize, usize)>,
    n: int,
    panel: TimetablePanel,
    day_label: Seq<char>,
    labels: Labels,
) -> Seq<char>
    decreases n,
{
    if n <= 0 {
        Seq::empty()
    } else {
        columns_html(ranges, n - 1, panel, day_label, labels) + column_html(
            panel.hour_groups@.subrange(ranges[n - 1].0 as int, ranges[n - 1].1 as int),
            (n - 1) as nat,
            panel,
            day_label,
            labels,
        )
    }
}

/// The markup of the headway bands of a panel.
pub open spec fn notes_html(notes: Seq<FrequencyNote>) -> Seq<char>
    decreases notes.len(),
{
    if notes.len() == 0 {
        Seq::empty()
    } else {
        notes_html(notes.drop_last()) + "<li class=\"band-row\"><span class=\"band-time\">"@
            + html_escape(notes.last().text@) + "</span> <span class=\"band-dest\">"@
            + html_escape(notes.last().destination@) + "</span></li>\n"@
    }
}

/// A declaration of a custom property for a color that passes the CSS
/// filter, and nothing otherwise.
pub open spec fn color_declaration(name: Seq<char>, color: Option<String>) -> Seq<char> {
    match color {
        Some(c) => match css_color_filter(c@) {
            Some(f) => name + ": "@ + f + seq![';'],
            None => Seq::empty(),
        },
        None => Seq::empty(),
    }
}

/// The identifier of the heading of a panel.
pub open spec fn heading_id(panel: TimetablePanel) -> Seq<char> {
    "panel-"@ + css_key_spec(panel.key@) + "-heading"@
}

/// The opening of a panel section, styled with the colors of its line
/// so a document with two lines keeps both identities.
pub open spec fn panel_open(panel: TimetablePanel) -> Seq<char> {
    "<section class=\"panel\" id=\"panel-"@ + html_escape(css_key_spec(panel.key@))
        + "\" aria-labelledby=\""@ + html_escape(heading_id(panel)) + "\" style=\""@
        + color_declaration("--line-color"@, panel.line.color) + color_declaration(
        "--line-text"@,
        panel.line.text_color,
    ) + "\">\n"@
}

/// The heading block of a panel: the line, the direction, and the
/// platform.
pub open spec fn panel_heading(panel: TimetablePanel) -> Seq<char> {
    "<div class=\"panel-head\">\n<span class=\"line-name\">"@ + html_escape(panel.line.name@)
        + "</span>\n<h2 class=\"direction\" id=\""@ + html_escape(heading_id(panel)) + "\">"@
        + html_escape(panel.direction_label@) + "</h2>\n"@ + (match panel.platform_label {
        Some(p) => "<span class=\"platform\">"@ + html_escape(p@) + "</span>\n"@,
        None => Seq::empty(),
    }) + "</div>\n"@
}

/// The destinations of a panel, where it carries more than one.
pub open spec fn panel_summary(panel: TimetablePanel) -> Seq<char> {
    if panel.destination_summary@.len() > 1 {
        "<p class=\"panel-destinations\">"@ + html_escape(
            join(string_views(panel.destination_summary@), " \u{00B7} "@),
        ) + "</p>\n"@
    } else {
        Seq::empty()
    }
}

/// The head of a panel.
pub open spec fn panel_head_html(panel: TimetablePanel) -> Seq<char> {
    panel_open(panel) + panel_heading(panel) + panel_summary(panel)
}

/// The column block of a panel.
pub open spec fn panel_columns_html(panel: TimetablePanel, day_label: Seq<char>, labels: Labels) -> Seq<
    char,
> {
    let ranges = column_ranges(panel.column_breaks@, panel.hour_groups@.len() as int);
    "<div class=\"panel-columns\" data-columns=\""@ + decimal(
        if ranges.len() < 4 {
            ranges.len()
        } else {
            4
        },
    ) + "\">\n"@ + columns_html(ranges, ranges.len() as int, panel, day_label, labels)
        + "</div>\n"@
}

/// The band block of a panel, where it carries headway bands.
pub open spec fn panel_bands_html(panel: TimetablePanel) -> Seq<char> {
    if panel.frequency_notes@.len() > 0 {
        "<ul class=\"bands\">\n"@ + notes_html(panel.frequency_notes@) + "</ul>\n"@
    } else {
        Seq::empty()
    }
}

/// The markup of one panel.
#[verifier::opaque]
pub open spec fn panel_html(panel: TimetablePanel, day_label: Seq<char>, labels: Labels) -> Seq<
    char,
> {
    panel_head_html(panel) + panel_columns_html(panel, day_label, labels) + panel_bands_html(panel)
        + "</section>\n"@
}

/// The markup of a run of panels.
pub open spec fn panels_html(panels: Seq<TimetablePanel>, day_label: Seq<char>, labels: Labels) -> Seq<
    char,
>
    decreases panels.len(),
{
    if panels.len() == 0 {
        Seq::empty()
    } else {
        panels_html(panels.drop_last(), day_label, labels) + panel_html(
            panels.last(),
            day_label,
            labels,
        )
    }
}

/// The switches above the panels: print, and a monochrome mode for a
/// reader and a laser printer. The page is fully usable without them.
pub open spec fn controls_html(labels: Labels) -> Seq<char> {
    "<div class=\"controls needs-script no-print\">\n<button type=\"button\" id=\"print-page\">"@
        + html_escape(labels.print@)
        + "</button>\n<button type=\"button\" id=\"toggle-mono\">"@ + html_escape(
        labels.monochrome@,
    ) + "</button>\n</div>\n"@
}

/// The body of a timetable page between the controls and the legend.
pub open spec fn body_html(document: TimetableDocument, labels: Labels) -> Seq<char> {
    if document.panels@.len() == 0 {
        "<p class=\"no-departures\">"@ + html_escape(labels.no_departures@) + "</p>\n"@
    } else {
        "<div class=\"panels\">\n"@ + panels_html(
            document.panels@,
            document.service_day_label@,
            labels,
        ) + "</div>\n"@
    }
}

/// The accent colors of a timetable page: those of the first panel's
/// line, where present and not empty.
pub open spec fn page_accent(document: TimetableDocument) -> (Option<Seq<char>>, Option<Seq<char>>) {
    if document.panels@.len() == 0 {
        (None, None)
    } else {
        let line = document.panels@[0].line;
        (
            match line.color {
                Some(c) => if c@.len() > 0 { Some(c@) } else { None },
                None => None,
            },
            match line.text_color {
                Some(c) => if c@.len() > 0 { Some(c@) } else { None },
                None => None,
            },
        )
    }
}

/// The theme block of a timetable page.
pub open spec fn page_theme(document: TimetableDocument, config: PublicationConfig) -> Seq<char> {
    theme_text(config.theme, page_accent(document).0, page_accent(document).1)
}

/// A whole timetable page.
pub open spec fn timetable_html(
    document: TimetableDocument,
    config: PublicationConfig,
    styles: Seq<&str>,
    script: Seq<char>,
) -> Seq<char> {
    let labels = labels_of(config.language);
    let title = localized_get(document.title, config.language);
    head_html(title, language_tag(config.language), styles, page_theme(document, config))
        + masthead_html(
        title,
        labels.departures@ + " \u{00B7} "@ + document.service_day_label@,
        document.station.codes@,
    ) + warnings_html(document.metadata, labels) + controls_html(labels) + body_html(
        document,
        labels,
    ) + legend_html(document.legend@, labels) + colophon_html(document.metadata, labels)
        + "<script>\n"@ + script + "\n</script>\n"@ + "</div>\n</body>\n</html>\n"@
}

fn has_approximate(flags: &Vec<DepartureFlag>) -> (b: bool)
    ensures
        b == flags@.contains(DepartureFlag::Approximate),
{
    let mut i: usize = 0;
    while i < flags.len()
        invariant
            i <= flags@.len(),
            forall|k: int| 0 <= k < i ==> flags@[k] != DepartureFlag::Approximate,
        decreases flags@.len() - i,
    {
        if matches!(flags[i], DepartureFlag::Approximate) {
            proof {
                assert(flags@[i as int] == DepartureFlag::Approximate);
            }
            return true;
        }
        i = i + 1;
    }
    false
}

fn spoken(d: &TimetableDeparture, labels: &Labels) -> (s: String)
    ensures
        s@ == spoken_text(*d, *labels),
{
    let mut out = String::new();
    push_pad2(&mut out, ((d.scheduled_time.secs / 3600) % 24) as u64);
    push_char(&mut out, ':');
    push_pad2(&mut out, d.display_minute as u64);
    match d.display_seconds {
        Some(sec) => {
            push_char(&mut out, ':');
            push_pad2(&mut out, sec as u64);
        },
        None => {},
    }
    push_str(&mut out, " \u{2192} ");
    push_str(&mut out, d.destination_full.as_str());
    match &d.platform {
        Some(p) => {
            push_str(&mut out, ", ");
            push_str(&mut out, labels.platform);
            push_str(&mut out, " ");
            push_str(&mut out, p.as_str());
        },
        None => {},
    }
    let ghost before = out@;
    let mut i: usize = 0;
    while i < d.flags.len()
        invariant
            i <= d.flags@.len(),
            out@ == before + flags_spoken(d.flags@.take(i as int), *labels),
        decreases d.flags@.len() - i,
    {
        proof {
            assert(d.flags@.take(i + 1).drop_last() =~= d.flags@.take(i as int));
        }
        push_str(&mut out, ", ");
        push_str(&mut out, d.flags[i].explanation(labels));
        proof {
            assert(out@ =~= before + flags_spoken(d.flags@.take(i + 1), *labels));
        }
        i = i + 1;
    }
    proof {
        assert(d.flags@.take(d.flags@.len() as int) =~= d.flags@);
        assert(out@ =~= spoken_text(*d, *labels));
    }
    out
}

fn render_flag_marks(out: &mut String, flags: &Vec<DepartureFlag>)
    ensures
        final(out)@ == old(out)@ + flags_marks(flags@),
{
    let ghost before = out@;
    let mut i: usize = 0;
    while i < flags.len()
        invariant
            i <= flags@.len(),
            out@ == before + flags_marks(flags@.take(i as int)),
        decreases flags@.len() - i,
    {
        proof {
            assert(flags@.take(i + 1).drop_last() =~= flags@.take(i as int));
        }
        push_str(out, "<span aria-hidden=\"true\" class=\"flag flag-");
        push_str(out, flags[i].key());
        push_str(out, "\">");
        push_str(out, text(flags[i].symbol()).as_str());
        push_str(out, "</span>");
        proof {
            assert(out@ =~= before + flags_marks(flags@.take(i + 1)));
        }
        i = i + 1;
    }
    proof {
        assert(flags@.take(flags@.len() as int) =~= flags@);
    }
}

fn render_departure_time(out: &mut String, departure: &TimetableDeparture)
    ensures
        final(out)@ == old(out)@ + departure_time_html(*departure),
{
    push_str(out, "</span>\n<span aria-hidden=\"true\" class=\"min\">");
    push_pad2(out, departure.display_minute as u64);
    push_str(out, "</span>");
    let ghost mid = out@;
    match departure.display_seconds {
        Some(sec) => {
            push_str(out, "<span aria-hidden=\"true\" class=\"sec\">");
            push_pad2(out, sec as u64);
            push_str(out, "</span>");
        },
        None => {},
    }
    proof {
        assert(out@ =~= old(out)@ + departure_time_html(*departure));
    }
}

fn render_departure_names(out: &mut String, departure: &TimetableDeparture)
    ensures
        final(out)@ == old(out)@ + departure_names_html(*departure),
{
    push_str(out, "<span aria-hidden=\"true\" class=\"dest\" title=\"");
    push_str(out, attr(departure.destination_full.as_str()).as_str());
    push_str(out, "\">");
    push_str(out, text(departure.destination.as_str()).as_str());
    push_str(out, "</span>");
    match &departure.trip_short_name {
        Some(name) => {
            push_str(out, "<span aria-hidden=\"true\" class=\"train-name\">");
            push_str(out, text(name.as_str()).as_str());
            push_str(out, "</span>");
        },
        None => {},
    }
    proof {
        assert(out@ =~= old(out)@ + departure_names_html(*departure));
    }
}

/// Write one departure.
pub fn render_departure(out: &mut String, departure: &TimetableDeparture, labels: &Labels)
    ensures
        final(out)@ == old(out)@ + departure_html(*departure, *labels),
{
    let ghost s0 = out@;
    push_str(out, "<li class=\"dep");
    if has_approximate(&departure.flags) {
        push_str(out, " approximate");
    }
    push_str(out, "\"><span class=\"visually-hidden\">");
    proof {
        assert(out@ =~= s0 + departure_open(*departure));
    }
    let ghost s1 = out@;
    push_str(out, text(spoken(departure, labels).as_str()).as_str());
    let ghost s2 = out@;
    render_departure_time(out, departure);
    let ghost s3 = out@;
    render_departure_names(out, departure);
    let ghost s4 = out@;
    render_flag_marks(out, &departure.flags);
    let ghost s5 = out@;
    push_str(out, "</li>\n");
    proof {
        assert(out@ =~= s0 + departure_html(*departure, *labels));
    }
}

fn render_hour_row(out: &mut String, group: &HourGroup, labels: &Labels)
    ensures
        final(out)@ == old(out)@ + hour_row_html(*group, *labels),
{
    let ghost s0 = out@;
    push_str(out, "<tr class=\"hour-row");
    if group.service_hour >= 24 {
        push_str(out, " past-midnight");
    }
    push_str(out, "\">\n<th scope=\"row\" class=\"hour-cell\">");
    push_pad2(out, group.display_hour as u64);
    push_str(out, "</th>\n<td class=\"minutes\">");
    proof {
        assert(out@ =~= s0 + hour_row_open(*group));
    }
    let ghost s1 = out@;
    if group.departures.len() == 0 {
        push_str(out, "<span class=\"empty-hour\" aria-hidden=\"true\">\u{2014}</span>");
    } else {
        push_str(out, "<ol>\n");
        let ghost before = out@;
        let mut i: usize = 0;
        while i < group.departures.len()
            invariant
                i <= group.departures@.len(),
                out@ == before + departures_html(group.departures@.take(i as int), *labels),
            decreases group.departures@.len() - i,
        {
            proof {
                assert(group.departures@.take(i + 1).drop_last() =~= group.departures@.take(
                    i as int,
                ));
            }
            render_departure(out, &group.departures[i], labels);
            proof {
                assert(out@ =~= before + departures_html(group.departures@.take(i + 1), *labels));
            }
            i = i + 1;
        }
        proof {
            assert(group.departures@.take(group.departures@.len() as int) =~= group.departures@);
        }
        push_str(out, "</ol>");
    }
    proof {
        assert(out@ =~= s1 + hour_minutes_html(*group, *labels));
    }
    let ghost s2 = out@;
    push_str(out, "</td>\n</tr>\n");
    proof {
        assert(out@ =~= s0 + hour_row_html(*group, *labels));
    }
}

/// Write one column: the hour rows `start..end` of a panel.
pub fn render_column(
    out: &mut String,
    panel: &TimetablePanel,
    start: usize,
    end: usize,
    index: usize,
    day_label: &str,
    labels: &Labels,
)
    requires
        start <= end <= panel.hour_groups@.len(),
        index < usize::MAX,
    ensures
        final(out)@ == old(out)@ + column_html(
            panel.hour_groups@.subrange(start as int, end as int),
            index as nat,
            *panel,
            day_label@,
            *labels,
        ),
{
    let ghost first = out@;
    let mut caption = owned(panel.line.name.as_str());
    push_str(&mut caption, " \u{00B7} ");
    push_str(&mut caption, panel.direction_label.as_str());
    push_str(&mut caption, " \u{00B7} ");
    push_str(&mut caption, day_label);
    push_str(&mut caption, " ");
    push_decimal(&mut caption, (index + 1) as u64);
    proof {
        assert(caption@ =~= caption_text(*panel, day_label@, index as nat));
    }
    push_str(out, "<table class=\"hours\">\n<caption class=\"visually-hidden\">");
    push_str(out, text(caption.as_str()).as_str());
    push_str(out, "</caption>\n<thead><tr><th scope=\"col\" class=\"col-hour\">");
    push_str(out, text(labels.hour).as_str());
    push_str(out, "</th><th scope=\"col\">");
    push_str(out, text(labels.minutes).as_str());
    push_str(out, "</th></tr></thead>\n<tbody>\n");
    let ghost rows = panel.hour_groups@.subrange(start as int, end as int);
    let ghost before = out@;
    let mut k: usize = start;
    while k < end
        invariant
            start <= k <= end <= panel.hour_groups@.len(),
            rows == panel.hour_groups@.subrange(start as int, end as int),
            out@ == before + hour_rows_html(rows.take(k - start), *labels),
        decreases end - k,
    {
        proof {
            assert(rows.take(k - start + 1).drop_last() =~= rows.take(k - start));
            assert(rows.take(k - start + 1).last() == panel.hour_groups@[k as int]);
        }
        render_hour_row(out, &panel.hour_groups[k], labels);
        proof {
            assert(out@ =~= before + hour_rows_html(rows.take(k - start + 1), *labels));
        }
        k = k + 1;
    }
    proof {
        assert(rows.take(end - start) =~= rows);
    }
    push_str(out, "</tbody>\n</table>\n");
    proof {
        assert(out@ =~= first + column_html(rows, index as nat, *panel, day_label@, *labels));
    }
}

fn push_color_declaration(out: &mut String, name: &str, color: &Option<String>)
    ensures
        final(out)@ == old(out)@ + color_declaration(name@, *color),
{
    match color {
        Some(c) => match css_color(c.as_str()) {
            Some(f) => {
                push_str(out, name);
                push_str(out, ": ");
                push_str(out, f.as_str());
                push_char(out, ';');
                proof {
                    assert(out@ =~= old(out)@ + color_declaration(name@, *color));
                }
            },
            None => {},
        },
        None => {},
    }
}

#[verifier::spinoff_prover]
#[verifier::rlimit(40)]
fn render_panel_head(out: &mut String, panel: &TimetablePanel)
    ensures
        final(out)@ == old(out)@ + panel_head_html(*panel),
{
    let ghost s0 = out@;
    let key = css_ident(panel.key.as_str());
    let mut heading = owned("panel-");
    push_str(&mut heading, key.as_str());
    push_str(&mut heading, "-heading");
    proof {
        assert(heading@ =~= heading_id(*panel));
    }
    push_str(out, "<section class=\"panel\" id=\"panel-");
    push_str(out, attr(key.as_str()).as_str());
    push_str(out, "\" aria-labelledby=\"");
    push_str(out, attr(heading.as_str()).as_str());
    push_str(out, "\" style=\"");
    push_color_declaration(out, "--line-color", &panel.line.color);
    push_color_declaration(out, "--line-text", &panel.line.text_color);
    push_str(out, "\">\n");
    proof {
        assert(out@ =~= s0 + panel_open(*panel));
    }
    let ghost s1 = out@;
    push_str(out, "<div class=\"panel-head\">\n<span class=\"line-name\">");
    push_str(out, text(panel.line.name.as_str()).as_str());
    push_str(out, "</span>\n<h2 class=\"direction\" id=\"");
    push_str(out, attr(heading.as_str()).as_str());
    push_str(out, "\">");
    push_str(out, text(panel.direction_label.as_str()).as_str());
    push_str(out, "</h2>\n");
    match &panel.platform_label {
        Some(p) => {
            push_str(out, "<span class=\"platform\">");
            push_str(out, text(p.as_str()).as_str());
            push_str(out, "</span>\n");
        },
        None => {},
    }
    push_str(out, "</div>\n");
    proof {
        assert(out@ =~= s1 + panel_heading(*panel));
    }
    let ghost s2 = out@;
    if panel.destination_summary.len() > 1 {
        push_str(out, "<p class=\"panel-destinations\">");
        let joined = join_strings(&panel.destination_summary, " \u{00B7} ");
        push_str(out, text(joined.as_str()).as_str());
        push_str(out, "</p>\n");
    }
    proof {
        assert(out@ =~= s2 + panel_summary(*panel));
        assert(out@ =~= s0 + panel_head_html(*panel));
    }
}

fn render_panel_columns(out: &mut String, panel: &TimetablePanel, day_label: &str, labels: &Labels)
    ensures
        final(out)@ == old(out)@ + panel_columns_html(*panel, day_label@, *labels),
{
    let ghost s0 = out@;
    let row_count = panel.hour_groups.len();
    let columns = column_bounds(&panel.column_breaks, panel.hour_groups.len());
    let ghost ranges = column_ranges(panel.column_breaks@, panel.hour_groups@.len() as int);
    proof {
        lemma_columns_lie_within_the_rows(panel.column_breaks@, panel.hour_groups@.len() as int);
    }
    let count = if columns.len() < 4 {
        columns.len()
    } else {
        4
    };
    push_str(out, "<div class=\"panel-columns\" data-columns=\"");
    push_decimal(out, count as u64);
    push_str(out, "\">\n");
    let ghost before = out@;
    let mut i: usize = 0;
    while i < columns.len()
        invariant
            i <= columns@.len(),
            columns@ == ranges,
            ranges == column_ranges(panel.column_breaks@, panel.hour_groups@.len() as int),
            forall|j: int|
                0 <= j < ranges.len() ==> 0 <= (#[trigger] ranges[j]).0 <= ranges[j].1
                    <= panel.hour_groups@.len(),
            out@ == before + columns_html(ranges, i as int, *panel, day_label@, *labels),
        decreases columns@.len() - i,
    {
        let (a, b) = columns[i];
        render_column(out, panel, a, b, i, day_label, labels);
        i = i + 1;
    }
    push_str(out, "</div>\n");
    proof {
        assert(out@ =~= s0 + panel_columns_html(*panel, day_label@, *labels));
    }
}

fn render_panel_bands(out: &mut String, panel: &TimetablePanel)
    ensures
        final(out)@ == old(out)@ + panel_bands_html(*panel),
{
    if panel.frequency_notes.len() > 0 {
        push_str(out, "<ul class=\"bands\">\n");
        let ghost nb = out@;
        let mut k: usize = 0;
        while k < panel.frequency_notes.len()
            invariant
                k <= panel.frequency_notes@.len(),
                out@ == nb + notes_html(panel.frequency_notes@.take(k as int)),
            decreases panel.frequency_notes@.len() - k,
        {
            proof {
                assert(panel.frequency_notes@.take(k + 1).drop_last()
                    =~= panel.frequency_notes@.take(k as int));
            }
            let note = &panel.frequency_notes[k];
            push_str(out, "<li class=\"band-row\"><span class=\"band-time\">");
            push_str(out, text(note.text.as_str()).as_str());
            push_str(out, "</span> <span class=\"band-dest\">");
            push_str(out, text(note.destination.as_str()).as_str());
            push_str(out, "</span></li>\n");
            proof {
                assert(out@ =~= nb + notes_html(panel.frequency_notes@.take(k + 1)));
            }
            k = k + 1;
        }
        proof {
            assert(panel.frequency_notes@.take(panel.frequency_notes@.len() as int)
                =~= panel.frequency_notes@);
        }
        push_str(out, "</ul>\n");
    }
    proof {
        assert(out@ =~= old(out)@ + panel_bands_html(*panel));
    }
}

/// Write one panel.
pub fn render_panel(out: &mut String, panel: &TimetablePanel, day_label: &str, labels: &Labels)
    ensures
        final(out)@ == old(out)@ + panel_html(*panel, day_label@, *labels),
{
    let ghost s0 = out@;
    render_panel_head(out, panel);
    let ghost s1 = out@;
    render_panel_columns(out, panel, day_label, labels);
    let ghost s2 = out@;
    render_panel_bands(out, panel);
    let ghost s3 = out@;
    push_str(out, "</section>\n");
    proof {
        reveal(panel_html);
        assert(out@ =~= s0 + panel_html(*panel, day_label@, *labels));
    }
}

fn line_color_str(c: &Option<String>) -> (r: Option<&str>)
    ensures
        crate::page::str_view(r) == match *c {
            Some(s) => Some(s@),
            None => None,
        },
{
    match c {
        Some(s) => Some(s.as_str()),
        None => None,
    }
}

fn render_controls(out: &mut String, labels: &Labels)
    ensures
        final(out)@ == old(out)@ + controls_html(*labels),
{
    push_str(
        out,
        "<div class=\"controls needs-script no-print\">\n<button type=\"button\" id=\"print-page\">",
    );
    push_str(out, text(labels.print).as_str());
    push_str(out, "</button>\n<button type=\"button\" id=\"toggle-mono\">");
    push_str(out, text(labels.monochrome).as_str());
    push_str(out, "</button>\n</div>\n");
    proof {
        assert(out@ =~= old(out)@ + controls_html(*labels));
    }
}

fn render_body(out: &mut String, document: &TimetableDocument, labels: &Labels)
    ensures
        final(out)@ == old(out)@ + body_html(*document, *labels),
{
    if document.panels.len() == 0 {
        push_str(out, "<p class=\"no-departures\">");
        push_str(out, text(labels.no_departures).as_str());
        push_str(out, "</p>\n");
    } else {
        push_str(out, "<div class=\"panels\">\n");
        let ghost before = out@;
        let mut i: usize = 0;
        while i < document.panels.len()
            invariant
                i <= document.panels@.len(),
                out@ == before + panels_html(
                    document.panels@.take(i as int),
                    document.service_day_label@,
                    *labels,
                ),
            decreases document.panels@.len() - i,
        {
            proof {
                assert(document.panels@.take(i + 1).drop_last() =~= document.panels@.take(i as int));
            }
            render_panel(out, &document.panels[i], document.service_day_label.as_str(), labels);
            proof {
                assert(out@ =~= before + panels_html(
                    document.panels@.take(i + 1),
                    document.service_day_label@,
                    *labels,
                ));
            }
            i = i + 1;
        }
        proof {
            assert(document.panels@.take(document.panels@.len() as int) =~= document.panels@);
        }
        push_str(out, "</div>\n");
    }
    proof {
        assert(out@ =~= old(out)@ + body_html(*document, *labels));
    }
}

/// Render a timetable document as one HTML page, with the style
/// sheets and the page script of the program inlined.
pub fn render_timetable(
    document: &TimetableDocument,
    config: &PublicationConfig,
    styles: &[&str],
    script: &str,
) -> (page: String)
    ensures
        page@ == timetable_html(*document, *config, styles@, script@),
{
    let labels = crate::text::Labels::for_language(config.language);
    let (accent_color, accent_text) = if document.panels.len() > 0 {
        let line = &document.panels[0].line;
        accent_of(config, line_color_str(&line.color), line_color_str(&line.text_color))
    } else {
        (None, None)
    };
    proof {
        assert(crate::page::str_view(accent_color) == page_accent(*document).0);
        assert(crate::page::str_view(accent_text) == page_accent(*document).1);
    }
    let theme = theme_block(&config.theme, accent_color, accent_text);
    let title = document.title.get(config.language);
    let mut subtitle = owned(labels.departures);
    push_str(&mut subtitle, " \u{00B7} ");
    push_str(&mut subtitle, document.service_day_label.as_str());
    let mut out = String::new();
    let ghost s0 = out@;
    head(&mut out, title, config.language.tag(), styles, theme.as_str());
    let ghost s1 = out@;
    masthead(&mut out, title, subtitle.as_str(), document.station.codes.as_slice());
    let ghost s2 = out@;
    warnings(&mut out, &document.metadata, &labels);
    let ghost s3 = out@;
    render_controls(&mut out, &labels);
    let ghost s4 = out@;
    render_body(&mut out, document, &labels);
    let ghost s5 = out@;
    legend(&mut out, document.legend.as_slice(), &labels);
    let ghost s6 = out@;
    colophon(&mut out, &document.metadata, &labels);
    let ghost s7 = out@;
    push_str(&mut out, "<script>\n");
    push_str(&mut out, script);
    push_str(&mut out, "\n</script>\n");
    foot(&mut out);
    proof {
        assert(s0 == Seq::<char>::empty());
        assert(out@ =~= timetable_html(*document, *config, styles@, script@));
    }
    out
}

} // verus!
