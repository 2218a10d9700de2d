//! The pieces of the live map page that are text: escaping, colour
//! filtering, the palette, the connect policy, and the status words.
//!
//! Every string that came from a feed or from a layout file passes
//! [`text`] or [`attr`] before it reaches markup, and every colour
//! passes [`feed_color`] before it reaches a presentation attribute.

use vstd::prelude::*;

use crate::common::{string_views, Diagnostic};
use crate::escape::{all_hex, html_escape, json_escape};
use crate::map::{
    is_current_spec, Freshness, FreshnessState, MapLine, MapTrain, NetworkSnapshot, PositionQuality,
};
use crate::page::join;
use crate::status::LineState;
use crate::time::{date_text, time_text};
use crate::textbuf::{
    replace_all, replace_chars,
    ascii_alpha, ascii_alnum, ascii_upper, chars_of, decimal, is_ascii_alnum, is_ascii_alpha,
    owned, push_char, push_decimal, push_range, push_str, str_eq, to_ascii_upper, trim,
    trim_white,
};

verus! {

/// The layout the map draws, unless the caller names another.
pub const DEFAULT_LAYOUT: &'static str = "config/layout-mini.geojson";

/// How often the page re-polls, in seconds.
pub const POLL_SECS: u32 = 20;

/// The colour of a line that no source names.
pub const NEUTRAL: &'static str = "#7a7f8c";

/// Escape a string for element content in HTML and SVG.
pub fn text(value: &str) -> (res: String)
    ensures
        res@ == html_escape(value@),
{
    crate::escape::text(value)
}

/// Escape a string for an attribute value in double quotes.
pub fn attr(value: &str) -> (res: String)
    ensures
        res@ == html_escape(value@),
{
    crate::escape::text(value)
}

/// Escape a JSON document so that it is inert inside a `<script>`
/// element.
pub fn json_island(value: &str) -> (res: String)
    ensures
        res@ == json_escape(value@),
{
    crate::escape::json(value)
}

/// The digits of a colour, without a leading `#`.
pub open spec fn color_digits(s: Seq<char>) -> Seq<char> {
    if s.len() > 0 && s[0] == '#' {
        s.skip(1)
    } else {
        s
    }
}

/// The colour that survives the filter: three, four, six, or eight
/// hexadecimal digits, with or without a leading `#`, written with one.
pub open spec fn feed_color_spec(s: Seq<char>) -> Option<Seq<char>> {
    let d = color_digits(s);
    if (d.len() == 3 || d.len() == 4 || d.len() == 6 || d.len() == 8) && all_hex(d) {
        Some(seq!['#'] + d)
    } else {
        None
    }
}

/// Filter a colour from a feed or a layout file.
///
/// GTFS writes `route_color` as six hexadecimal digits with no `#`,
/// and a layout file writes `#rrggbb`, so both forms pass. Anything
/// else yields `None`, so nothing but a literal colour can reach a
/// presentation attribute.
pub fn feed_color(value: &str) -> (r: Option<String>)
    ensures
        r matches Some(c) ==> feed_color_spec(value@) == Some(c@),
        r is None ==> feed_color_spec(value@) is None,
{
    let v = chars_of(value);
    let from: usize = if v.len() > 0 && v[0] == '#' {
        1
    } else {
        0
    };
    let n = v.len() - from;
    proof {
        assert(color_digits(v@) =~= v@.skip(from as int));
    }
    if (n == 3 || n == 4 || n == 6 || n == 8) && crate::escape::all_hex_from(&v, from) {
        let mut out = String::new();
        push_char(&mut out, '#');
        push_range(&mut out, &v, from, v.len());
        proof {
            assert(v@.subrange(from as int, v@.len() as int) =~= v@.skip(from as int));
            assert(out@ =~= seq!['#'] + color_digits(v@));
        }
        Some(out)
    } else {
        None
    }
}

/// A colour from the filter is a `#` and hexadecimal digits only.
pub proof fn lemma_feed_color_is_literal(s: Seq<char>)
    ensures
        feed_color_spec(s) matches Some(c) ==> c.len() > 0 && c[0] == '#' && all_hex(c.skip(1)),
{
    if let Some(c) = feed_color_spec(s) {
        assert(c.skip(1) =~= color_digits(s));
    }
}

/// The leading ASCII letters of a text.
pub open spec fn alpha_prefix(s: Seq<char>, i: int) -> Seq<char>
    decreases s.len() - i,
{
    if i < 0 || i >= s.len() || !ascii_alpha(s[i]) {
        Seq::empty()
    } else {
        seq![ascii_upper(s[i])] + alpha_prefix(s, i + 1)
    }
}

/// The official LTA line colours, by station-code prefix.
pub open spec fn palette_entry(p: Seq<char>) -> Option<Seq<char>> {
    if p == "NS"@ {
        Some("#d42e12"@)
    } else if p == "EW"@ || p == "CG"@ {
        Some("#009645"@)
    } else if p == "NE"@ {
        Some("#9900aa"@)
    } else if p == "CC"@ || p == "CE"@ {
        Some("#fa9e0d"@)
    } else if p == "DT"@ {
        Some("#005ec4"@)
    } else if p == "TE"@ {
        Some("#9d5b25"@)
    } else if p == "BP"@ || p == "SK"@ || p == "SE"@ || p == "SW"@ || p == "STC"@ || p == "PG"@
        || p == "PE"@ || p == "PW"@ || p == "PTC"@ {
        Some("#748477"@)
    } else {
        None
    }
}

fn palette_lookup(p: &str) -> (r: Option<&'static str>)
    ensures
        r matches Some(c) ==> palette_entry(p@) == Some(c@),
        r is None ==> palette_entry(p@) is None,
{
    if str_eq(p, "NS") {
        Some("#d42e12")
    } else if str_eq(p, "EW") || str_eq(p, "CG") {
        Some("#009645")
    } else if str_eq(p, "NE") {
        Some("#9900aa")
    } else if str_eq(p, "CC") || str_eq(p, "CE") {
        Some("#fa9e0d")
    } else if str_eq(p, "DT") {
        Some("#005ec4")
    } else if str_eq(p, "TE") {
        Some("#9d5b25")
    } else if str_eq(p, "BP") || str_eq(p, "SK") || str_eq(p, "SE") || str_eq(p, "SW") || str_eq(
        p,
        "STC",
    ) || str_eq(p, "PG") || str_eq(p, "PE") || str_eq(p, "PW") || str_eq(p, "PTC") {
        Some("#748477")
    } else {
        None
    }
}

/// Get the palette colour for a station code, for example `NS1`: the
/// colour of its leading letters, upper-cased.
pub fn palette_color(code: &str) -> (r: Option<&'static str>)
    ensures
        r matches Some(c) ==> palette_entry(alpha_prefix(code@, 0)) == Some(c@),
        r is None ==> palette_entry(alpha_prefix(code@, 0)) is None,
{
    let v = chars_of(code);
    let mut end: usize = 0;
    while end < v.len() && is_ascii_alpha(v[end])
        invariant
            end <= v@.len(),
            forall|k: int| 0 <= k < end ==> ascii_alpha(v@[k]),
        decreases v@.len() - end,
    {
        end = end + 1;
    }
    let mut prefix = String::new();
    let mut i: usize = 0;
    while i < end
        invariant
            i <= end <= v@.len(),
            forall|k: int| 0 <= k < end ==> ascii_alpha(v@[k]),
            end == v@.len() || !ascii_alpha(v@[end as int]),
            prefix@ + alpha_prefix(v@, i as int) == alpha_prefix(v@, 0),
        decreases end - i,
    {
        proof {
            assert(alpha_prefix(v@, i as int) =~= seq![ascii_upper(v@[i as int])] + alpha_prefix(
                v@,
                i + 1,
            ));
        }
        push_char(&mut prefix, to_ascii_upper(v[i]));
        proof {
            assert(prefix@ + alpha_prefix(v@, i + 1) =~= alpha_prefix(v@, 0));
        }
        i = i + 1;
    }
    proof {
        assert(alpha_prefix(v@, end as int) =~= Seq::<char>::empty());
        assert(prefix@ =~= alpha_prefix(v@, 0));
    }
    palette_lookup(prefix.as_str())
}

/// Whether a character may stand in the host of an allowed origin.
pub open spec fn host_char(c: char) -> bool {
    ascii_alnum(c) || c == '.' || c == '-' || c == ':'
}

/// Whether every character of a host is allowed.
pub open spec fn host_chars_only(host: Seq<char>) -> bool {
    forall|k: int| 0 <= k < host.len() ==> host_char(#[trigger] host[k])
}

/// The part of a text before its first `/`.
pub open spec fn before_slash(s: Seq<char>, i: int) -> Seq<char>
    decreases s.len() - i,
{
    if i < 0 || i >= s.len() || s[i] == '/' {
        Seq::empty()
    } else {
        seq![s[i]] + before_slash(s, i + 1)
    }
}

/// Whether a text starts with another.
pub open spec fn starts_with(s: Seq<char>, p: Seq<char>) -> bool {
    p.len() <= s.len() && s.take(p.len() as int) == p
}

/// The extra `connect-src` source for a snapshot URL: for an absolute
/// `http` or `https` URL, a space and its `scheme://host[:port]`,
/// where the host is not empty and every one of its characters is an
/// ASCII letter or digit, `.`, `-`, or `:`; nothing otherwise.
pub open spec fn connect_extra_spec(u: Seq<char>) -> Seq<char> {
    let https = starts_with(u, "https://"@);
    let http = starts_with(u, "http://"@);
    if !https && !http {
        Seq::empty()
    } else {
        let scheme = if https {
            "https"@
        } else {
            "http"@
        };
        let host = before_slash(u, (scheme.len() + 3) as int);
        if host.len() > 0 && host_chars_only(host) {
            seq![' '] + scheme + "://"@ + host
        } else {
            Seq::empty()
        }
    }
}

fn starts_with_str(v: &Vec<char>, p: &str) -> (b: bool)
    ensures
        b == starts_with(v@, p@),
{
    let pv = chars_of(p);
    if pv.len() > v.len() {
        return false;
    }
    let mut k: usize = 0;
    while k < pv.len()
        invariant
            pv@.len() <= v@.len(),
            k <= pv@.len(),
            pv@ == p@,
            forall|j: int| 0 <= j < k ==> v@[j] == pv@[j],
        decreases pv@.len() - k,
    {
        if v[k] != pv[k] {
            proof {
                assert(v@.take(pv@.len() as int)[k as int] != pv@[k as int]);
            }
            return false;
        }
        k = k + 1;
    }
    proof {
        assert(v@.take(pv@.len() as int) =~= pv@);
    }
    true
}

/// The extra `connect-src` source for a cross-origin snapshot URL.
///
/// A same-origin snapshot adds nothing. An absolute URL is reduced to
/// `scheme://host[:port]` and dropped entirely unless every character
/// of the host is inert inside the `content` attribute, so a hostile
/// URL cannot widen the policy.
#[verifier::loop_isolation(false)]
pub fn connect_extra(snapshot_url: &str) -> (r: String)
    ensures
        r@ == connect_extra_spec(snapshot_url@),
{
    let v = chars_of(snapshot_url);
    proof {
        reveal_strlit("https://");
        reveal_strlit("http://");
        reveal_strlit("https");
        reveal_strlit("http");
    }
    let https = starts_with_str(&v, "https://");
    let http = starts_with_str(&v, "http://");
    if !https && !http {
        return String::new();
    }
    let from: usize = if https {
        8
    } else {
        7
    };
    let mut end = from;
    while end < v.len() && v[end] != '/'
        invariant
            from <= end <= v@.len(),
            from <= v@.len(),
            forall|k: int| from <= k < end ==> v@[k] != '/',
        decreases v@.len() - end,
    {
        end = end + 1;
    }
    proof {
        lemma_before_slash(v@, from as int, end as int);
    }
    if end == from {
        return String::new();
    }
    let mut k = from;
    while k < end
        invariant
            from <= k <= end <= v@.len(),
            forall|j: int| from <= j < k ==> host_char(v@[j]),
        decreases end - k,
    {
        let c = v[k];
        if !(is_ascii_alnum(c) || c == '.' || c == '-' || c == ':') {
            proof {
                assert(before_slash(v@, from as int)[k - from] == v@[k as int]);
                assert(!host_char(before_slash(v@, from as int)[k - from]));
                let host = before_slash(snapshot_url@, from as int);
                assert(host[k - from] == v@[k as int]);
                assert(!host_char(host[k - from]));
                if https {
                    assert(("https"@).len() + 3 == from);
                } else {
                    assert(("http"@).len() + 3 == from);
                }
                assert(!host_chars_only(host));
                assert(host.len() > 0);
                assert(starts_with(snapshot_url@, "https://"@) == https);
                assert(starts_with(snapshot_url@, "http://"@) == http);
                if https {
                    assert(host == before_slash(snapshot_url@, (("https"@).len() + 3) as int));
                } else {
                    assert(host == before_slash(snapshot_url@, (("http"@).len() + 3) as int));
                }
            }
            return String::new();
        }
        k = k + 1;
    }
    let mut out = String::new();
    push_char(&mut out, ' ');
    if https {
        push_str(&mut out, "https");
    } else {
        push_str(&mut out, "http");
    }
    push_str(&mut out, "://");
    push_range(&mut out, &v, from, end);
    proof {
        let host = before_slash(v@, from as int);
        assert forall|j: int| 0 <= j < host.len() implies host_char(#[trigger] host[j]) by {
            assert(host[j] == v@[from + j]);
        }
    }
    out
}

proof fn lemma_before_slash(s: Seq<char>, from: int, end: int)
    requires
        0 <= from <= end <= s.len(),
        forall|k: int| from <= k < end ==> s[k] != '/',
        end == s.len() || s[end] == '/',
    ensures
        before_slash(s, from) == s.subrange(from, end),
    decreases end - from,
{
    if from < end {
        lemma_before_slash(s, from + 1, end);
        assert(before_slash(s, from) =~= s.subrange(from, end));
    } else {
        assert(before_slash(s, from) =~= s.subrange(from, end));
    }
}

/// An age in words, as the board's status line says it.
pub open spec fn ago_text(seconds: nat) -> Seq<char> {
    if seconds < 10 {
        "just now"@
    } else if seconds < 90 {
        decimal(seconds) + " s ago"@
    } else if seconds / 60 < 90 {
        decimal(seconds / 60) + " min ago"@
    } else {
        decimal(seconds / 60 / 60) + " h ago"@
    }
}

/// Say an age in words.
pub fn ago(seconds: u64) -> (s: String)
    ensures
        s@ == ago_text(seconds as nat),
{
    if seconds < 10 {
        return owned("just now");
    }
    let mut out = String::new();
    if seconds < 90 {
        push_decimal(&mut out, seconds);
        push_str(&mut out, " s ago");
        return out;
    }
    let minutes = seconds / 60;
    if minutes < 90 {
        push_decimal(&mut out, minutes);
        push_str(&mut out, " min ago");
        return out;
    }
    push_decimal(&mut out, minutes / 60);
    push_str(&mut out, " h ago");
    out
}

/// The lamp class for the freshness of a snapshot: the three lamps of
/// the board, with a missing realtime layer shown as stale.
pub open spec fn freshness_class_spec(s: FreshnessState) -> Seq<char> {
    match s {
        FreshnessState::Live => "live"@,
        FreshnessState::Ageing => "ageing"@,
        _ => "stale"@,
    }
}

/// The lamp class for the freshness of a snapshot.
pub fn freshness_class(snapshot: &NetworkSnapshot) -> (s: &'static str)
    ensures
        s@ == freshness_class_spec(snapshot.freshness.state),
{
    match snapshot.freshness.state {
        FreshnessState::Live => "live",
        FreshnessState::Ageing => "ageing",
        FreshnessState::Stale => "stale",
        FreshnessState::Unavailable => "stale",
    }
}

/// The freshness of a snapshot in words.
pub open spec fn freshness_words_spec(f: Freshness) -> Seq<char> {
    match (f.state, f.age_secs) {
        (FreshnessState::Live, Some(age)) => "live \u{00B7} realtime feed "@ + ago_text(age as nat),
        (FreshnessState::Live, None) => "live"@,
        (FreshnessState::Ageing, Some(age)) => "ageing \u{00B7} realtime feed "@ + ago_text(
            age as nat,
        ),
        (FreshnessState::Ageing, None) => "ageing"@,
        (FreshnessState::Stale, Some(age)) => "schedule only \u{00B7} realtime feed "@ + ago_text(
            age as nat,
        ),
        (FreshnessState::Stale, None) => "schedule only \u{00B7} the realtime feed carries no timestamp"@,
        (FreshnessState::Unavailable, _) => "schedule only \u{00B7} no realtime layer"@,
    }
}

/// Say the freshness of a snapshot in words.
pub fn freshness_words(snapshot: &NetworkSnapshot) -> (s: String)
    ensures
        s@ == freshness_words_spec(snapshot.freshness),
{
    let f = snapshot.freshness;
    match (f.state, f.age_secs) {
        (FreshnessState::Live, Some(age)) => {
            let mut out = owned("live \u{00B7} realtime feed ");
            push_str(&mut out, ago(age).as_str());
            out
        },
        (FreshnessState::Live, None) => owned("live"),
        (FreshnessState::Ageing, Some(age)) => {
            let mut out = owned("ageing \u{00B7} realtime feed ");
            push_str(&mut out, ago(age).as_str());
            out
        },
        (FreshnessState::Ageing, None) => owned("ageing"),
        (FreshnessState::Stale, Some(age)) => {
            let mut out = owned("schedule only \u{00B7} realtime feed ");
            push_str(&mut out, ago(age).as_str());
            out
        },
        (FreshnessState::Stale, None) => owned(
            "schedule only \u{00B7} the realtime feed carries no timestamp",
        ),
        (FreshnessState::Unavailable, _) => owned("schedule only \u{00B7} no realtime layer"),
    }
}

/// Join strings with a separator.
pub fn join_strings(items: &Vec<String>, sep: &str) -> (r: String)
    ensures
        r@ == join(string_views(items@), sep@),
{
    let mut out = String::new();
    let mut i: usize = 0;
    while i < items.len()
        invariant
            i <= items@.len(),
            out@ == join(string_views(items@.take(i as int)), sep@),
        decreases items@.len() - i,
    {
        proof {
            assert(string_views(items@.take(i + 1)).drop_last() =~= string_views(
                items@.take(i as int),
            ));
        }
        if i > 0 {
            push_str(&mut out, sep);
        }
        push_str(&mut out, items[i].as_str());
        proof {
            assert(out@ =~= join(string_views(items@.take(i + 1)), sep@));
        }
        i = i + 1;
    }
    proof {
        assert(items@.take(items@.len() as int) =~= items@);
    }
    out
}

/// The notice of one disrupted line.
pub open spec fn disruption_html(
    name: Seq<char>,
    stations: Seq<String>,
    direction: Seq<char>,
    bus: Seq<String>,
) -> Seq<char> {
    let p1 = seq![html_escape(name) + " disrupted"@];
    let p2 = if trim_white(direction).len() > 0 {
        p1.push("direction "@ + html_escape(direction))
    } else {
        p1
    };
    let p3 = if stations.len() == 0 {
        p2.push("the alert names no station"@)
    } else {
        p2.push(html_escape(join(string_views(stations), ", "@)))
    };
    let p4 = if bus.len() > 0 {
        p3.push("free public bus at "@ + html_escape(join(string_views(bus), ", "@)))
    } else {
        p3
    };
    "<p class=\"notice disrupted\">"@ + join(p4, " \u{00B7} "@) + "</p>\n"@
}

/// The notices of the disrupted lines, in line order.
pub open spec fn line_notices(lines: Seq<MapLine>) -> Seq<char>
    decreases lines.len(),
{
    if lines.len() == 0 {
        Seq::empty()
    } else {
        line_notices(lines.drop_last()) + match lines.last().state {
            LineState::Disrupted { stations, direction, free_public_bus } => disruption_html(
                lines.last().name@,
                stations@,
                direction@,
                free_public_bus@,
            ),
            LineState::Normal => Seq::empty(),
        }
    }
}

/// The network notices, each in its own paragraph.
pub open spec fn message_notices(messages: Seq<String>) -> Seq<char>
    decreases messages.len(),
{
    if messages.len() == 0 {
        Seq::empty()
    } else {
        message_notices(messages.drop_last()) + "<p class=\"notice\">"@ + html_escape(
            messages.last()@,
        ) + "</p>\n"@
    }
}

/// Whether every train on the map comes from the schedule alone.
pub open spec fn all_schedule_only(trains: Seq<MapTrain>) -> bool {
    forall|i: int| 0 <= i < trains.len() ==> (#[trigger] trains[i]).quality == PositionQuality::ScheduleOnly
}

/// The sentence for a current realtime layer that names no run drawn.
pub open spec fn empty_layer_sentence() -> Seq<char> {
    "<p class=\"notice\">The realtime layer names no run drawn on this map, so every train here comes from the schedule alone.</p>\n"@
}

/// The notice area of the page; nothing when there is nothing to say.
pub open spec fn notices_html(s: NetworkSnapshot) -> Seq<char> {
    let body = line_notices(s.lines@) + message_notices(s.notices@) + if is_current_spec(
        s.freshness.state,
    ) && s.trains@.len() > 0 && all_schedule_only(s.trains@) {
        empty_layer_sentence()
    } else {
        Seq::empty()
    };
    if body.len() == 0 {
        Seq::empty()
    } else {
        "<section class=\"notices\" aria-label=\"Service notices\">\n"@ + body + "</section>\n"@
    }
}

fn disruption(name: &str, stations: &Vec<String>, direction: &str, bus: &Vec<String>) -> (r:
    String)
    ensures
        r@ == disruption_html(name@, stations@, direction@, bus@),
{
    let ghost mut parts: Seq<Seq<char>> = Seq::empty();
    let mut out = owned("<p class=\"notice disrupted\">");
    let ghost head = out@;
    push_str(&mut out, text(name).as_str());
    push_str(&mut out, " disrupted");
    proof {
        parts = seq![html_escape(name@) + " disrupted"@];
        assert(out@ =~= head + join(parts, " \u{00B7} "@));
    }
    let dv = chars_of(direction);
    let trimmed = trim(&dv);
    if !trimmed.as_str().is_empty() {
        push_str(&mut out, " \u{00B7} ");
        push_str(&mut out, "direction ");
        push_str(&mut out, text(direction).as_str());
        proof {
            let q = parts.push("direction "@ + html_escape(direction@));
            assert(q.drop_last() =~= parts);
            parts = q;
            assert(out@ =~= head + join(parts, " \u{00B7} "@));
        }
    }
    push_str(&mut out, " \u{00B7} ");
    if stations.len() == 0 {
        push_str(&mut out, "the alert names no station");
        proof {
            let q = parts.push("the alert names no station"@);
            assert(q.drop_last() =~= parts);
            parts = q;
        }
    } else {
        let joined = join_strings(stations, ", ");
        push_str(&mut out, text(joined.as_str()).as_str());
        proof {
            let q = parts.push(html_escape(join(string_views(stations@), ", "@)));
            assert(q.drop_last() =~= parts);
            parts = q;
        }
    }
    proof {
        assert(out@ =~= head + join(parts, " \u{00B7} "@));
    }
    if bus.len() > 0 {
        let joined = join_strings(bus, ", ");
        push_str(&mut out, " \u{00B7} ");
        push_str(&mut out, "free public bus at ");
        push_str(&mut out, text(joined.as_str()).as_str());
        proof {
            let q = parts.push("free public bus at "@ + html_escape(join(string_views(bus@), ", "@)));
            assert(q.drop_last() =~= parts);
            parts = q;
            assert(out@ =~= head + join(parts, " \u{00B7} "@));
        }
    }
    push_str(&mut out, "</p>\n");
    proof {
        assert(out@ =~= disruption_html(name@, stations@, direction@, bus@));
    }
    out
}

/// Render the notice area: what the operator said, and what the map
/// can say about its own realtime coverage.
///
/// Everything here comes from the snapshot and passes [`text`] on the
/// way in. The area does not exist when there is nothing to say.
pub fn render_notices(snapshot: &NetworkSnapshot) -> (r: String)
    ensures
        r@ == notices_html(*snapshot),
{
    let mut body = String::new();
    let mut i: usize = 0;
    while i < snapshot.lines.len()
        invariant
            i <= snapshot.lines@.len(),
            body@ == line_notices(snapshot.lines@.take(i as int)),
        decreases snapshot.lines@.len() - i,
    {
        proof {
            assert(snapshot.lines@.take(i + 1).drop_last() =~= snapshot.lines@.take(i as int));
        }
        let line = &snapshot.lines[i];
        match &line.state {
            LineState::Disrupted { stations, direction, free_public_bus } => {
                let item = disruption(line.name.as_str(), stations, direction.as_str(), free_public_bus);
                push_str(&mut body, item.as_str());
            },
            LineState::Normal => {},
        }
        proof {
            assert(body@ =~= line_notices(snapshot.lines@.take(i + 1)));
        }
        i = i + 1;
    }
    proof {
        assert(snapshot.lines@.take(snapshot.lines@.len() as int) =~= snapshot.lines@);
    }
    let ghost lines_part = body@;
    let mut j: usize = 0;
    while j < snapshot.notices.len()
        invariant
            j <= snapshot.notices@.len(),
            body@ == lines_part + message_notices(snapshot.notices@.take(j as int)),
        decreases snapshot.notices@.len() - j,
    {
        proof {
            assert(snapshot.notices@.take(j + 1).drop_last() =~= snapshot.notices@.take(j as int));
        }
        push_str(&mut body, "<p class=\"notice\">");
        push_str(&mut body, text(snapshot.notices[j].as_str()).as_str());
        push_str(&mut body, "</p>\n");
        proof {
            assert(body@ =~= lines_part + message_notices(snapshot.notices@.take(j + 1)));
        }
        j = j + 1;
    }
    proof {
        assert(snapshot.notices@.take(snapshot.notices@.len() as int) =~= snapshot.notices@);
    }
    let mut all_schedule = true;
    let mut t: usize = 0;
    while t < snapshot.trains.len()
        invariant
            t <= snapshot.trains@.len(),
            all_schedule == all_schedule_only(snapshot.trains@.take(t as int)),
        decreases snapshot.trains@.len() - t,
    {
        let q = snapshot.trains[t].quality;
        let schedule_only = match q {
            PositionQuality::ScheduleOnly => true,
            _ => false,
        };
        proof {
            if !all_schedule_only(snapshot.trains@.take(t as int)) {
                let w = choose|w: int|
                    0 <= w < t && !(snapshot.trains@.take(t as int)[w].quality
                        == PositionQuality::ScheduleOnly);
                assert(snapshot.trains@.take(t + 1)[w] == snapshot.trains@.take(t as int)[w]);
            }
            if !schedule_only {
                assert(snapshot.trains@.take(t + 1)[t as int] == snapshot.trains@[t as int]);
            }
        }
        all_schedule = all_schedule && schedule_only;
        t = t + 1;
    }
    proof {
        assert(snapshot.trains@.take(snapshot.trains@.len() as int) =~= snapshot.trains@);
    }
    if snapshot.freshness.state.is_current() && snapshot.trains.len() > 0 && all_schedule {
        push_str(
            &mut body,
            "<p class=\"notice\">The realtime layer names no run drawn on this map, so every train here comes from the schedule alone.</p>\n",
        );
    }
    if body.as_str().is_empty() {
        return String::new();
    }
    let mut out = owned("<section class=\"notices\" aria-label=\"Service notices\">\n");
    push_str(&mut out, body.as_str());
    push_str(&mut out, "</section>\n");
    out
}

/// The list of diagnostics, each with its code, message, and subject.
pub open spec fn diagnostics_html(ds: Seq<Diagnostic>) -> Seq<char> {
    if ds.len() == 0 {
        "<p class=\"no-diagnostics\">Nothing went unreported.</p>"@
    } else {
        "<ul class=\"diagnostics\">\n"@ + diagnostic_items(ds) + "</ul>\n"@
    }
}

/// The items of the diagnostics list.
pub open spec fn diagnostic_items(ds: Seq<Diagnostic>) -> Seq<char>
    decreases ds.len(),
{
    if ds.len() == 0 {
        Seq::empty()
    } else {
        let d = ds.last();
        diagnostic_items(ds.drop_last()) + "<li><code>"@ + html_escape(d.code@) + "</code> "@
            + html_escape(d.message@) + (match d.subject {
            Some(s) => " <span class=\"subject\">"@ + html_escape(s@) + "</span>"@,
            None => Seq::empty(),
        }) + "</li>\n"@
    }
}

/// Render the diagnostics as a list. An unmatched station, an
/// unplaceable run, and a stale feed are all reported here rather than
/// hidden: the page says what it could not draw.
pub fn render_diagnostics(diagnostics: &[Diagnostic]) -> (r: String)
    ensures
        r@ == diagnostics_html(diagnostics@),
{
    if diagnostics.len() == 0 {
        return owned("<p class=\"no-diagnostics\">Nothing went unreported.</p>");
    }
    let mut out = owned("<ul class=\"diagnostics\">\n");
    let ghost head = out@;
    let mut i: usize = 0;
    while i < diagnostics.len()
        invariant
            i <= diagnostics@.len(),
            out@ == head + diagnostic_items(diagnostics@.take(i as int)),
        decreases diagnostics@.len() - i,
    {
        proof {
            assert(diagnostics@.take(i + 1).drop_last() =~= diagnostics@.take(i as int));
        }
        let d = &diagnostics[i];
        push_str(&mut out, "<li><code>");
        push_str(&mut out, text(d.code.as_str()).as_str());
        push_str(&mut out, "</code> ");
        push_str(&mut out, text(d.message.as_str()).as_str());
        match &d.subject {
            Some(s) => {
                push_str(&mut out, " <span class=\"subject\">");
                push_str(&mut out, text(s.as_str()).as_str());
                push_str(&mut out, "</span>");
            },
            None => {},
        }
        push_str(&mut out, "</li>\n");
        proof {
            assert(out@ =~= head + diagnostic_items(diagnostics@.take(i + 1)));
        }
        i = i + 1;
    }
    push_str(&mut out, "</ul>\n");
    proof {
        assert(diagnostics@.take(diagnostics@.len() as int) =~= diagnostics@);
    }
    out
}

/// The accessible title of one station: its name, its codes in
/// brackets, and a note for an interchange.
pub open spec fn station_title_spec(name: Seq<char>, codes: Seq<String>, interchange: bool) -> Seq<
    char,
> {
    name + (if codes.len() > 0 {
        " ("@ + join(string_views(codes), ", "@) + ")"@
    } else {
        Seq::empty()
    }) + (if interchange {
        " \u{00B7} interchange"@
    } else {
        Seq::empty()
    })
}

/// Build the accessible title of one station.
pub fn station_title(name: &str, codes: &Vec<String>, interchange: bool) -> (r: String)
    ensures
        r@ == station_title_spec(name@, codes@, interchange),
{
    let mut out = owned(name);
    if codes.len() > 0 {
        push_str(&mut out, " (");
        push_str(&mut out, join_strings(codes, ", ").as_str());
        push_str(&mut out, ")");
    }
    if interchange {
        push_str(&mut out, " \u{00B7} interchange");
    }
    proof {
        assert(out@ =~= station_title_spec(name@, codes@, interchange));
    }
    out
}

/// The key of one edge of the map geometry: line, from, and to.
pub fn section_key(line: usize, from: usize, to: usize) -> (r: String)
    ensures
        r@ == decimal(line as nat) + seq!['-'] + decimal(from as nat) + seq!['-'] + decimal(
            to as nat,
        ),
{
    let mut out = String::new();
    push_decimal(&mut out, line as u64);
    push_char(&mut out, '-');
    push_decimal(&mut out, from as u64);
    push_char(&mut out, '-');
    push_decimal(&mut out, to as u64);
    out
}


// ----------------------------------------------------------------------
// The text alternative and the page
// ----------------------------------------------------------------------

/// The date and clock of a snapshot, `YYYYMMDD at HH:MM:SS`.
pub open spec fn dated_spec(f: Freshness) -> Seq<char> {
    date_text(f.service_date.day_count()) + " at "@ + time_text(f.clock.secs as nat)
}

/// The text alternative of the drawing.
pub open spec fn describe_spec(f: Freshness, lines: nat, stations: nat, disrupted: nat) -> Seq<char> {
    "A schematic of "@ + decimal(lines) + " line(s) and "@ + decimal(stations)
        + " station(s), on the service day "@ + dated_spec(f) + ". The drawing is not geographic."@
        + if disrupted > 0 {
        " "@ + decimal(disrupted) + " line(s) are marked disrupted; the notices name them."@
    } else {
        Seq::empty()
    }
}

fn dated(snapshot: &NetworkSnapshot) -> (r: String)
    ensures
        r@ == dated_spec(snapshot.freshness),
{
    let mut out = snapshot.freshness.service_date.to_text();
    push_str(&mut out, " at ");
    push_str(&mut out, snapshot.freshness.clock.to_text().as_str());
    out
}

/// Build the text alternative of the drawing from the number of lines
/// and stations it draws and the number of lines it marks disrupted.
///
/// A disrupted line is greyed and its affected section drawn broken,
/// so the description says how many lines are in that state: a reader
/// who cannot see the drawing gets the same count.
pub fn describe(snapshot: &NetworkSnapshot, lines: usize, stations: usize, disrupted: usize) -> (r:
    String)
    ensures
        r@ == describe_spec(snapshot.freshness, lines as nat, stations as nat, disrupted as nat),
{
    let mut out = owned("A schematic of ");
    push_decimal(&mut out, lines as u64);
    push_str(&mut out, " line(s) and ");
    push_decimal(&mut out, stations as u64);
    push_str(&mut out, " station(s), on the service day ");
    push_str(&mut out, dated(snapshot).as_str());
    push_str(&mut out, ". The drawing is not geographic.");
    if disrupted > 0 {
        push_str(&mut out, " ");
        push_decimal(&mut out, disrupted as u64);
        push_str(&mut out, " line(s) are marked disrupted; the notices name them.");
    }
    out
}

/// Whether two diagnostics read the same.
pub open spec fn reads_same(a: Diagnostic, b: Diagnostic) -> bool {
    &&& a.code@ == b.code@
    &&& a.message@ == b.message@
    &&& (a.subject is None <==> b.subject is None)
    &&& (a.subject matches Some(x) ==> (b.subject matches Some(y) && x@ == y@))
}

proof fn lemma_items_read_the_same(a: Seq<Diagnostic>, b: Seq<Diagnostic>)
    requires
        a.len() == b.len(),
        forall|i: int| 0 <= i < a.len() ==> reads_same(#[trigger] a[i], b[i]),
    ensures
        diagnostic_items(a) == diagnostic_items(b),
    decreases a.len(),
{
    if a.len() > 0 {
        lemma_items_read_the_same(a.drop_last(), b.drop_last());
        assert(reads_same(a[a.len() - 1], b[b.len() - 1]));
    }
}

fn push_copies(out: &mut Vec<Diagnostic>, more: &Vec<Diagnostic>, Ghost(want): Ghost<Seq<Diagnostic>>)
    requires
        old(out)@.len() + more@.len() <= want.len(),
        forall|i: int| 0 <= i < old(out)@.len() ==> reads_same(#[trigger] old(out)@[i], want[i]),
        forall|i: int|
            0 <= i < more@.len() ==> reads_same(#[trigger] more@[i], want[old(out)@.len() + i]),
    ensures
        final(out)@.len() == old(out)@.len() + more@.len(),
        forall|i: int| 0 <= i < final(out)@.len() ==> reads_same(#[trigger] final(out)@[i], want[i]),
{
    let ghost start = out@.len();
    let mut k: usize = 0;
    while k < more.len()
        invariant
            k <= more@.len(),
            out@.len() == start + k,
            start + more@.len() <= want.len(),
            forall|i: int| 0 <= i < out@.len() ==> reads_same(#[trigger] out@[i], want[i]),
            forall|i: int| 0 <= i < more@.len() ==> reads_same(#[trigger] more@[i], want[start + i]),
        decreases more@.len() - k,
    {
        let d = more[k].duplicate();
        proof {
            assert(reads_same(more@[k as int], want[start + k]));
        }
        out.push(d);
        k = k + 1;
    }
}

/// The map page: the shell with each of its placeholders replaced, in
/// order, by the drawing, the geometry island, the status words, the
/// lamp, the notices, the date, the deployment sentence, the
/// diagnostics, the extra connect source, and the snapshot URL.
pub open spec fn map_page_spec(
    shell: Seq<char>,
    svg: Seq<char>,
    geometry: Seq<char>,
    diagnostics: Seq<Diagnostic>,
    s: NetworkSnapshot,
    snapshot_url: Seq<char>,
    deployment: Seq<char>,
) -> Seq<char> {
    let r = replace_all(shell, "<!--MAP-SVG-->"@, svg);
    let r = replace_all(r, "<!--MAP-GEOMETRY-->"@, json_escape(geometry));
    let r = replace_all(r, "<!--MAP-STATUS-->"@, html_escape(freshness_words_spec(s.freshness)));
    let r = replace_all(r, "<!--MAP-LAMP-->"@, freshness_class_spec(s.freshness.state));
    let r = replace_all(r, "<!--MAP-NOTICES-->"@, notices_html(s));
    let r = replace_all(r, "<!--MAP-DATE-->"@, html_escape(dated_spec(s.freshness)));
    let r = replace_all(r, "<!--MAP-DEPLOYMENT-->"@, html_escape(deployment));
    let r = replace_all(r, "<!--MAP-DIAGNOSTICS-->"@, diagnostics_html(diagnostics));
    let r = replace_all(r, "<!--MAP-CONNECT-->"@, connect_extra_spec(snapshot_url));
    replace_all(r, "<!--MAP-SNAPSHOT-URL-->"@, html_escape(snapshot_url))
}

fn replace_in(s: String, p: &str, v: &str) -> (r: String)
    requires
        p@.len() > 0,
    ensures
        r@ == replace_all(s@, p@, v@),
{
    let sv = chars_of(s.as_str());
    let pv = chars_of(p);
    replace_chars(&sv, &pv, v)
}

/// Render the whole map page.
///
/// `svg` is the drawing and `geometry` the JSON document that the
/// script reads; `diagnostics` are what the layout and the drawing
/// reported, and the snapshot's own follow them.
pub fn render_map_page(
    shell: &str,
    svg: &str,
    geometry: &str,
    diagnostics: &Vec<Diagnostic>,
    snapshot: &NetworkSnapshot,
    snapshot_url: &str,
    deployment: &str,
) -> (r: String)
    ensures
        r@ == map_page_spec(
            shell@,
            svg@,
            geometry@,
            diagnostics@ + snapshot.diagnostics@,
            *snapshot,
            snapshot_url@,
            deployment@,
        ),
{
    let ghost want = diagnostics@ + snapshot.diagnostics@;
    let mut all: Vec<Diagnostic> = Vec::new();
    proof {
        assert forall|i: int| 0 <= i < diagnostics@.len() implies reads_same(
            #[trigger] diagnostics@[i],
            want[0 + i],
        ) by {
            assert(want[i] == diagnostics@[i]);
        }
    }
    push_copies(&mut all, diagnostics, Ghost(want));
    proof {
        assert forall|i: int| 0 <= i < snapshot.diagnostics@.len() implies reads_same(
            #[trigger] snapshot.diagnostics@[i],
            want[diagnostics@.len() + i],
        ) by {
            assert(want[diagnostics@.len() + i] == snapshot.diagnostics@[i]);
        }
    }
    push_copies(&mut all, &snapshot.diagnostics, Ghost(want));
    proof {
        lemma_items_read_the_same(all@, want);
    }
    proof {
        reveal_strlit("<!--MAP-SVG-->");
        reveal_strlit("<!--MAP-GEOMETRY-->");
        reveal_strlit("<!--MAP-STATUS-->");
        reveal_strlit("<!--MAP-LAMP-->");
        reveal_strlit("<!--MAP-NOTICES-->");
        reveal_strlit("<!--MAP-DATE-->");
        reveal_strlit("<!--MAP-DEPLOYMENT-->");
        reveal_strlit("<!--MAP-DIAGNOSTICS-->");
        reveal_strlit("<!--MAP-CONNECT-->");
        reveal_strlit("<!--MAP-SNAPSHOT-URL-->");
    }
    let r = replace_in(owned(shell), "<!--MAP-SVG-->", svg);
    let r = replace_in(r, "<!--MAP-GEOMETRY-->", json_island(geometry).as_str());
    let r = replace_in(r, "<!--MAP-STATUS-->", text(freshness_words(snapshot).as_str()).as_str());
    let r = replace_in(r, "<!--MAP-LAMP-->", freshness_class(snapshot));
    let r = replace_in(r, "<!--MAP-NOTICES-->", render_notices(snapshot).as_str());
    let r = replace_in(r, "<!--MAP-DATE-->", text(dated(snapshot).as_str()).as_str());
    let r = replace_in(r, "<!--MAP-DEPLOYMENT-->", text(deployment).as_str());
    let r = replace_in(r, "<!--MAP-DIAGNOSTICS-->", render_diagnostics(all.as_slice()).as_str());
    let r = replace_in(r, "<!--MAP-CONNECT-->", connect_extra(snapshot_url).as_str());
    replace_in(r, "<!--MAP-SNAPSHOT-URL-->", attr(snapshot_url).as_str())
}

} // verus!
