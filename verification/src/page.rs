//! The shared page frame.
//!
//! Both documents share a head, a theme block, a masthead, a legend,
//! and a colophon. This module writes them and nothing else.

use vstd::prelude::*;

use crate::common::{first_chars, first_chars_of, LegendItem, PublicationMetadata};
use crate::config::{PublicationConfig, ThemeConfig};
use crate::escape::{css_color, css_color_filter, css_font_family, font_family, html_escape, text};
use crate::text::{service_date_heading, Labels};
use crate::textbuf::{owned, push_str};

verus! {

/// The Content-Security-Policy of every generated page.
///
/// `default-src 'none'` blocks every network request, so the page
/// cannot phone home, load a tracker, or leak the station a reader
/// looked up. Inline styles and scripts are allowed because the page
/// must be one self-contained file; nothing else is.
pub const CSP: &'static str = "default-src 'none'; style-src 'unsafe-inline'; script-src 'unsafe-inline'; img-src data:; base-uri 'none'; form-action 'none'; frame-ancestors 'none'";

/// The style sheets, one after the other.
pub open spec fn sheets_text(styles: Seq<&str>) -> Seq<char>
    decreases styles.len(),
{
    if styles.len() == 0 {
        Seq::empty()
    } else {
        sheets_text(styles.drop_last()) + styles.last()@
    }
}

/// The document head, up to and including the opening `<body>` tag.
pub open spec fn head_html(
    title: Seq<char>,
    language: Seq<char>,
    styles: Seq<&str>,
    theme: Seq<char>,
) -> Seq<char> {
    "<!doctype html>\n<html lang=\""@ + html_escape(language)
        + "\">\n<head>\n<meta charset=\"utf-8\">\n"@
        + "<meta name=\"viewport\" content=\"width=device-width, initial-scale=1\">\n"@
        + "<meta http-equiv=\"Content-Security-Policy\" content=\""@ + html_escape(CSP@)
        + "\">\n<meta name=\"referrer\" content=\"no-referrer\">\n<title>"@ + html_escape(title)
        + "</title>\n<style>\n"@ + theme + sheets_text(styles)
        + "\n</style>\n</head>\n<body>\n<div class=\"page\">\n"@
}

/// Write the document head, up to and including the opening
/// `<body>` tag.
pub fn head(out: &mut String, title: &str, language: &str, styles: &[&str], theme: &str)
    ensures
        final(out)@ == old(out)@ + head_html(title@, language@, styles@, theme@),
{
    let ghost start = out@;
    push_str(out, "<!doctype html>\n<html lang=\"");
    push_str(out, text(language).as_str());
    push_str(out, "\">\n<head>\n<meta charset=\"utf-8\">\n");
    push_str(out, "<meta name=\"viewport\" content=\"width=device-width, initial-scale=1\">\n");
    push_str(out, "<meta http-equiv=\"Content-Security-Policy\" content=\"");
    push_str(out, text(CSP).as_str());
    push_str(out, "\">\n<meta name=\"referrer\" content=\"no-referrer\">\n<title>");
    push_str(out, text(title).as_str());
    push_str(out, "</title>\n<style>\n");
    push_str(out, theme);
    let ghost before = out@;
    let mut i: usize = 0;
    while i < styles.len()
        invariant
            i <= styles@.len(),
            out@ == before + sheets_text(styles@.take(i as int)),
        decreases styles@.len() - i,
    {
        proof {
            assert(styles@.take(i + 1).drop_last() =~= styles@.take(i as int));
        }
        push_str(out, styles[i]);
        proof {
            assert(out@ =~= before + sheets_text(styles@.take(i + 1)));
        }
        i = i + 1;
    }
    push_str(out, "\n</style>\n</head>\n<body>\n<div class=\"page\">\n");
    proof {
        assert(styles@.take(styles@.len() as int) =~= styles@);
        assert(out@ =~= start + head_html(title@, language@, styles@, theme@));
    }
}

/// Close the page.
pub fn foot(out: &mut String)
    ensures
        final(out)@ == old(out)@ + "</div>\n</body>\n</html>\n"@,
{
    push_str(out, "</div>\n</body>\n</html>\n");
}

/// A color that passes the filter, or the fallback.
pub open spec fn color_or(value: Seq<char>, fallback: Seq<char>) -> Seq<char> {
    match css_color_filter(value) {
        Some(c) => c,
        None => fallback,
    }
}

/// The entries of a font list that survive the filter, in order.
pub open spec fn font_entries(stack: Seq<String>) -> Seq<Seq<char>>
    decreases stack.len(),
{
    if stack.len() == 0 {
        Seq::empty()
    } else {
        match font_family(stack.last()@) {
            Some(f) => font_entries(stack.drop_last()).push(f),
            None => font_entries(stack.drop_last()),
        }
    }
}

/// Texts joined by a separator.
pub open spec fn join(items: Seq<Seq<char>>, sep: Seq<char>) -> Seq<char>
    decreases items.len(),
{
    if items.len() == 0 {
        Seq::empty()
    } else if items.len() == 1 {
        items[0]
    } else {
        join(items.drop_last(), sep) + sep + items.last()
    }
}

/// The value of the font stack variable.
pub open spec fn font_stack_text(stack: Seq<String>) -> Seq<char> {
    if font_entries(stack).len() == 0 {
        "system-ui, sans-serif"@
    } else {
        join(font_entries(stack), ", "@)
    }
}

/// The text of an optional string slice.
pub open spec fn str_view(value: Option<&str>) -> Option<Seq<char>> {
    match value {
        Some(v) => Some(v@),
        None => None,
    }
}

/// An optional color that passes the filter, or the fallback.
pub open spec fn optional_color_or(value: Option<Seq<char>>, fallback: Seq<char>) -> Seq<char> {
    match value {
        Some(v) => match css_color_filter(v) {
            Some(c) => c,
            None => fallback,
        },
        None => fallback,
    }
}

/// The `:root` block of a theme.
pub open spec fn theme_text(
    theme: ThemeConfig,
    accent: Option<Seq<char>>,
    accent_text: Option<Seq<char>>,
) -> Seq<char> {
    let bg = color_or(theme.background@, "#ffffff"@);
    let fg = color_or(theme.text@, "#14171f"@);
    let row_alt = color_or(theme.row_alternate@, "#eef1f8"@);
    let hour = color_or(theme.hour_cell@, "#1b2a5e"@);
    let hour_text = color_or(theme.hour_cell_text@, "#ffffff"@);
    let accent_color = optional_color_or(accent, color_or(theme.accent@, "#1b2a5e"@));
    let accent_text_color = optional_color_or(accent_text, "#ffffff"@);
    ":root {\n--font-stack: "@ + font_stack_text(theme.font_stack@) + ";\n--bg: "@ + bg
        + ";\n--fg: "@ + fg + ";\n--muted: color-mix(in srgb, "@ + fg + " 62%, "@ + bg
        + ");\n--rule: color-mix(in srgb, "@ + fg + " 22%, "@ + bg + ");\n--panel-bg: "@
        + row_alt + ";\n--row-alt: "@ + row_alt + ";\n--hour-bg: "@ + hour + ";\n--hour-fg: "@
        + hour_text + ";\n--accent: "@ + accent_color + ";\n--accent-text: "@
        + accent_text_color
        + ";\n--focus: #0b62d6;\n--warn: #b26a00;\n--warn-fg: #8a5200;\n--warn-bg: #fff6e5;\n}\n"@
}

fn color(value: &str, fallback: &str) -> (r: String)
    ensures
        r@ == color_or(value@, fallback@),
{
    match css_color(value) {
        Some(c) => c,
        None => owned(fallback),
    }
}

fn optional_color(value: Option<&str>, fallback: String) -> (r: String)
    ensures
        r@ == optional_color_or(str_view(value), fallback@),
{
    match value {
        Some(v) => match css_color(v) {
            Some(c) => c,
            None => fallback,
        },
        None => fallback,
    }
}

fn font_stack(stack: &Vec<String>) -> (r: String)
    ensures
        r@ == font_stack_text(stack@),
{
    let mut out = String::new();
    let mut any = false;
    let ghost mut entries: Seq<Seq<char>> = Seq::empty();
    let mut i: usize = 0;
    while i < stack.len()
        invariant
            i <= stack@.len(),
            entries == font_entries(stack@.take(i as int)),
            any == (entries.len() > 0),
            out@ == join(entries, ", "@),
        decreases stack@.len() - i,
    {
        proof {
            assert(stack@.take(i + 1).drop_last() =~= stack@.take(i as int));
        }
        match css_font_family(stack[i].as_str()) {
            Some(f) => {
                if any {
                    push_str(&mut out, ", ");
                }
                push_str(&mut out, f.as_str());
                proof {
                    let next = entries.push(f@);
                    assert(next.drop_last() =~= entries);
                    entries = next;
                    assert(out@ =~= join(entries, ", "@));
                }
                any = true;
            },
            None => {},
        }
        i = i + 1;
    }
    proof {
        assert(stack@.take(stack@.len() as int) =~= stack@);
    }
    if !any {
        return owned("system-ui, sans-serif");
    }
    out
}

/// Build the `:root` block from the theme configuration.
///
/// Every value passes an escaping filter, so a hostile configuration
/// or a hostile `route_color` cannot inject a declaration.
pub fn theme_block(theme: &ThemeConfig, accent: Option<&str>, accent_text: Option<&str>) -> (r:
    String)
    ensures
        r@ == theme_text(*theme, str_view(accent), str_view(accent_text)),
{
    let fonts = font_stack(&theme.font_stack);
    let bg = color(theme.background.as_str(), "#ffffff");
    let fg = color(theme.text.as_str(), "#14171f");
    let row_alt = color(theme.row_alternate.as_str(), "#eef1f8");
    let hour = color(theme.hour_cell.as_str(), "#1b2a5e");
    let hour_text = color(theme.hour_cell_text.as_str(), "#ffffff");
    let accent_color = optional_color(accent, color(theme.accent.as_str(), "#1b2a5e"));
    let accent_text_color = optional_color(accent_text, owned("#ffffff"));
    let mut out = owned(":root {\n--font-stack: ");
    push_str(&mut out, fonts.as_str());
    push_str(&mut out, ";\n--bg: ");
    push_str(&mut out, bg.as_str());
    push_str(&mut out, ";\n--fg: ");
    push_str(&mut out, fg.as_str());
    push_str(&mut out, ";\n--muted: color-mix(in srgb, ");
    push_str(&mut out, fg.as_str());
    push_str(&mut out, " 62%, ");
    push_str(&mut out, bg.as_str());
    push_str(&mut out, ");\n--rule: color-mix(in srgb, ");
    push_str(&mut out, fg.as_str());
    push_str(&mut out, " 22%, ");
    push_str(&mut out, bg.as_str());
    push_str(&mut out, ");\n--panel-bg: ");
    push_str(&mut out, row_alt.as_str());
    push_str(&mut out, ";\n--row-alt: ");
    push_str(&mut out, row_alt.as_str());
    push_str(&mut out, ";\n--hour-bg: ");
    push_str(&mut out, hour.as_str());
    push_str(&mut out, ";\n--hour-fg: ");
    push_str(&mut out, hour_text.as_str());
    push_str(&mut out, ";\n--accent: ");
    push_str(&mut out, accent_color.as_str());
    push_str(&mut out, ";\n--accent-text: ");
    push_str(&mut out, accent_text_color.as_str());
    push_str(
        &mut out,
        ";\n--focus: #0b62d6;\n--warn: #b26a00;\n--warn-fg: #8a5200;\n--warn-bg: #fff6e5;\n}\n",
    );
    proof {
        assert(out@ =~= theme_text(*theme, str_view(accent), str_view(accent_text)));
    }
    out
}

/// Every color of the theme block is either its fallback or a `#`
/// followed by hexadecimal digits only, so no configured value can
/// carry a declaration of its own.
pub proof fn lemma_theme_colors_are_filtered(value: Seq<char>, fallback: Seq<char>)
    ensures
        color_or(value, fallback) == fallback || (color_or(value, fallback).len() > 0
            && color_or(value, fallback)[0] == '#' && crate::escape::all_hex(
            color_or(value, fallback).skip(1),
        )),
{
}

/// The code chips of a masthead.
pub open spec fn chips_html(codes: Seq<String>) -> Seq<char>
    decreases codes.len(),
{
    if codes.len() == 0 {
        Seq::empty()
    } else {
        chips_html(codes.drop_last()) + "<span class=\"code-chip\">"@ + html_escape(
            codes.last()@,
        ) + "</span>"@
    }
}

/// The masthead of a page.
pub open spec fn masthead_html(title: Seq<char>, subtitle: Seq<char>, codes: Seq<String>) -> Seq<
    char,
> {
    "<header class=\"masthead\">\n<h1>"@ + html_escape(title) + (if codes.len() == 0 {
        Seq::empty()
    } else {
        "<span class=\"station-codes\">"@ + chips_html(codes) + "</span>"@
    }) + "</h1>\n<p class=\"subtitle\">"@ + html_escape(subtitle) + "</p>\n</header>\n"@
}

/// Write the masthead.
pub fn masthead(out: &mut String, title: &str, subtitle: &str, codes: &[String])
    ensures
        final(out)@ == old(out)@ + masthead_html(title@, subtitle@, codes@),
{
    let ghost start = out@;
    push_str(out, "<header class=\"masthead\">\n<h1>");
    push_str(out, text(title).as_str());
    if codes.len() > 0 {
        push_str(out, "<span class=\"station-codes\">");
        let ghost before = out@;
        let mut i: usize = 0;
        while i < codes.len()
            invariant
                i <= codes@.len(),
                out@ == before + chips_html(codes@.take(i as int)),
            decreases codes@.len() - i,
        {
            proof {
                assert(codes@.take(i + 1).drop_last() =~= codes@.take(i as int));
            }
            push_str(out, "<span class=\"code-chip\">");
            push_str(out, text(codes[i].as_str()).as_str());
            push_str(out, "</span>");
            proof {
                assert(out@ =~= before + chips_html(codes@.take(i + 1)));
            }
            i = i + 1;
        }
        proof {
            assert(codes@.take(codes@.len() as int) =~= codes@);
        }
        push_str(out, "</span>");
    }
    push_str(out, "</h1>\n<p class=\"subtitle\">");
    push_str(out, text(subtitle).as_str());
    push_str(out, "</p>\n</header>\n");
    proof {
        assert(out@ =~= start + masthead_html(title@, subtitle@, codes@));
    }
}

/// The items of a list, each escaped in its own `<li>`.
pub open spec fn items_html(items: Seq<String>) -> Seq<char>
    decreases items.len(),
{
    if items.len() == 0 {
        Seq::empty()
    } else {
        items_html(items.drop_last()) + "<li>"@ + html_escape(items.last()@) + "</li>\n"@
    }
}

/// The warning banner of a document.
pub open spec fn warnings_html(metadata: PublicationMetadata, labels: Labels) -> Seq<char> {
    if metadata.warnings@.len() == 0 && !metadata.generated_from_cache {
        Seq::empty()
    } else {
        "<div class=\"notice\" role=\"note\">\n<strong>"@ + html_escape(labels.warnings@)
            + "</strong>\n"@ + (if metadata.generated_from_cache {
            "<p class=\"stale\">"@ + html_escape(labels.stale_feed@) + "</p>\n"@
        } else {
            Seq::empty()
        }) + (if metadata.warnings@.len() > 0 {
            "<ul>\n"@ + items_html(metadata.warnings@) + "</ul>\n"@
        } else {
            Seq::empty()
        }) + "</div>\n"@
    }
}

fn render_items(out: &mut String, items: &Vec<String>)
    ensures
        final(out)@ == old(out)@ + items_html(items@),
{
    let ghost before = out@;
    let mut i: usize = 0;
    while i < items.len()
        invariant
            i <= items@.len(),
            out@ == before + items_html(items@.take(i as int)),
        decreases items@.len() - i,
    {
        proof {
            assert(items@.take(i + 1).drop_last() =~= items@.take(i as int));
        }
        push_str(out, "<li>");
        push_str(out, text(items[i].as_str()).as_str());
        push_str(out, "</li>\n");
        proof {
            assert(out@ =~= before + items_html(items@.take(i + 1)));
        }
        i = i + 1;
    }
    proof {
        assert(items@.take(items@.len() as int) =~= items@);
    }
}

/// Write the warning banner, when the document carries warnings or
/// came from a cached feed.
pub fn warnings(out: &mut String, metadata: &PublicationMetadata, labels: &Labels)
    ensures
        final(out)@ == old(out)@ + warnings_html(*metadata, *labels),
{
    if metadata.warnings.len() == 0 && !metadata.generated_from_cache {
        proof {
            assert(out@ =~= out@ + warnings_html(*metadata, *labels));
        }
        return;
    }
    let ghost start = out@;
    push_str(out, "<div class=\"notice\" role=\"note\">\n<strong>");
    push_str(out, text(labels.warnings).as_str());
    push_str(out, "</strong>\n");
    if metadata.generated_from_cache {
        push_str(out, "<p class=\"stale\">");
        push_str(out, text(labels.stale_feed).as_str());
        push_str(out, "</p>\n");
    }
    let ghost mid = out@;
    if metadata.warnings.len() > 0 {
        push_str(out, "<ul>\n");
        render_items(out, &metadata.warnings);
        push_str(out, "</ul>\n");
    }
    push_str(out, "</div>\n");
    proof {
        assert(out@ =~= start + warnings_html(*metadata, *labels));
    }
}

/// The markup of one legend entry.
pub open spec fn legend_item_html(item: LegendItem) -> Seq<char> {
    "<li>"@ + (match item.symbol {
        Some(s) => "<span class=\"symbol\" aria-hidden=\"true\">"@ + html_escape(s@)
            + "</span> "@,
        None => Seq::empty(),
    }) + html_escape(item.label@) + "</li>\n"@
}

/// The markup of a run of legend entries.
pub open spec fn legend_items_html(items: Seq<LegendItem>) -> Seq<char>
    decreases items.len(),
{
    if items.len() == 0 {
        Seq::empty()
    } else {
        legend_items_html(items.drop_last()) + legend_item_html(items.last())
    }
}

/// The legend of a document; an empty legend renders nothing.
pub open spec fn legend_html(items: Seq<LegendItem>, labels: Labels) -> Seq<char> {
    if items.len() == 0 {
        Seq::empty()
    } else {
        "<section class=\"legend\" aria-labelledby=\"legend-heading\">\n<h2 id=\"legend-heading\">"@
            + html_escape(labels.legend@) + "</h2>\n<ul>\n"@ + legend_items_html(items)
            + "</ul>\n</section>\n"@
    }
}

fn render_legend_item(out: &mut String, item: &LegendItem)
    ensures
        final(out)@ == old(out)@ + legend_item_html(*item),
{
    let ghost start = out@;
    push_str(out, "<li>");
    match &item.symbol {
        Some(symbol) => {
            push_str(out, "<span class=\"symbol\" aria-hidden=\"true\">");
            push_str(out, text(symbol.as_str()).as_str());
            push_str(out, "</span> ");
        },
        None => {},
    }
    push_str(out, text(item.label.as_str()).as_str());
    push_str(out, "</li>\n");
    proof {
        assert(out@ =~= start + legend_item_html(*item));
    }
}

/// Write the legend.
pub fn legend(out: &mut String, items: &[LegendItem], labels: &Labels)
    ensures
        final(out)@ == old(out)@ + legend_html(items@, *labels),
{
    if items.len() == 0 {
        proof {
            assert(out@ =~= out@ + legend_html(items@, *labels));
        }
        return;
    }
    let ghost start = out@;
    push_str(
        out,
        "<section class=\"legend\" aria-labelledby=\"legend-heading\">\n<h2 id=\"legend-heading\">",
    );
    push_str(out, text(labels.legend).as_str());
    push_str(out, "</h2>\n<ul>\n");
    let ghost before = out@;
    let mut i: usize = 0;
    while i < items.len()
        invariant
            i <= items@.len(),
            out@ == before + legend_items_html(items@.take(i as int)),
        decreases items@.len() - i,
    {
        proof {
            assert(items@.take(i + 1).drop_last() =~= items@.take(i as int));
        }
        render_legend_item(out, &items[i]);
        proof {
            assert(out@ =~= before + legend_items_html(items@.take(i + 1)));
        }
        i = i + 1;
    }
    push_str(out, "</ul>\n</section>\n");
    proof {
        assert(items@.take(items@.len() as int) =~= items@);
        assert(out@ =~= start + legend_html(items@, *labels));
    }
}

/// One row of the colophon.
pub open spec fn colophon_row(term: Seq<char>, value: Seq<char>) -> Seq<char> {
    "<dt>"@ + html_escape(term) + "</dt><dd>"@ + html_escape(value) + "</dd>\n"@
}

/// The colophon of a document.
pub open spec fn colophon_html(metadata: PublicationMetadata, labels: Labels) -> Seq<char> {
    "<footer class=\"colophon\">\n<dl>\n"@ + colophon_row(
        labels.service_date@,
        service_date_heading(labels.language, metadata.service_date.day_count()),
    ) + colophon_row("Time zone"@, metadata.timezone@) + (match metadata.feed_timestamp {
        Some(t) => colophon_row(labels.source@, t@),
        None => Seq::empty(),
    }) + colophon_row(labels.feed_fingerprint@, first_chars(metadata.feed_sha256@, 12))
        + colophon_row("Configuration"@, first_chars(metadata.configuration_sha256@, 12))
        + colophon_row("Generator"@, metadata.generator_version@) + colophon_row(
        "Schema"@,
        metadata.schema_version@,
    ) + "</dl>\n<p>"@ + html_escape(labels.offline_note@) + "</p>\n</footer>\n"@
}

fn row(out: &mut String, term: &str, value: &str)
    ensures
        final(out)@ == old(out)@ + colophon_row(term@, value@),
{
    let ghost start = out@;
    push_str(out, "<dt>");
    push_str(out, text(term).as_str());
    push_str(out, "</dt><dd>");
    push_str(out, text(value).as_str());
    push_str(out, "</dd>\n");
    proof {
        assert(out@ =~= start + colophon_row(term@, value@));
    }
}

/// Write the colophon: where the data came from and how to reproduce
/// the page.
#[verifier::spinoff_prover]
#[verifier::rlimit(30)]
pub fn colophon(out: &mut String, metadata: &PublicationMetadata, labels: &Labels)
    ensures
        final(out)@ == old(out)@ + colophon_html(*metadata, *labels),
{
    let ghost start = out@;
    let service_date = labels.service_date_text(metadata.service_date);
    push_str(out, "<footer class=\"colophon\">\n<dl>\n");
    row(out, labels.service_date, service_date.as_str());
    row(out, "Time zone", metadata.timezone.as_str());
    match &metadata.feed_timestamp {
        Some(timestamp) => row(out, labels.source, timestamp.as_str()),
        None => {},
    }
    let sha = metadata.short_feed_sha();
    row(out, labels.feed_fingerprint, sha.as_str());
    let configuration = first_chars_of(metadata.configuration_sha256.as_str(), 12);
    row(out, "Configuration", configuration.as_str());
    row(out, "Generator", metadata.generator_version.as_str());
    row(out, "Schema", metadata.schema_version.as_str());
    push_str(out, "</dl>\n<p>");
    push_str(out, text(labels.offline_note).as_str());
    push_str(out, "</p>\n</footer>\n");
    proof {
        assert(out@ =~= start + colophon_html(*metadata, *labels));
    }
}

/// A value that is present and not empty.
pub open spec fn non_empty(value: Option<&str>) -> Option<&str> {
    match value {
        Some(v) => if v@.len() > 0 {
            Some(v)
        } else {
            None
        },
        None => None,
    }
}

fn keep_non_empty<'a>(value: Option<&'a str>) -> (r: Option<&'a str>)
    ensures
        r == non_empty(value),
{
    match value {
        Some(v) => if v.is_empty() {
            None
        } else {
            Some(v)
        },
        None => None,
    }
}

/// Get the accent colors that a document should use: the line's own
/// colors, where they are present and not empty.
pub fn accent_of<'a>(
    config: &'a PublicationConfig,
    line_color: Option<&'a str>,
    line_text: Option<&'a str>,
) -> (r: (Option<&'a str>, Option<&'a str>))
    ensures
        r.0 == non_empty(line_color),
        r.1 == non_empty(line_text),
{
    let _ = config;
    (keep_non_empty(line_color), keep_non_empty(line_text))
}

} // verus!
