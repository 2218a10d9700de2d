//! View types and helpers that both published documents share.

use vstd::prelude::*;

use crate::config::PublicationConfig;
use crate::text::{fill_text, LocalizedText};
use crate::textbuf::{
    ascii_alnum, ascii_lower, is_ascii_alnum, push_char, to_ascii_lower, trim_flagged,
    trimmed_string,
};

verus! {

/// The key characters of an identifier before the hyphens at its ends
/// are removed: every run of other characters becomes one hyphen.
pub open spec fn key_raw(s: Seq<char>) -> Seq<char>
    decreases s.len(),
{
    if s.len() == 0 {
        Seq::empty()
    } else {
        let r = key_raw(s.drop_last());
        let c = s.last();
        if ascii_alnum(c) {
            r.push(ascii_lower(c))
        } else if r.len() > 0 && r.last() == '-' {
            r
        } else {
            r.push('-')
        }
    }
}

/// The hyphen flags of a sequence of characters.
pub open spec fn dash_flags(s: Seq<char>) -> Seq<bool> {
    s.map_values(|c: char| c == '-')
}

/// The CSS-safe key of an identifier.
pub open spec fn css_key_spec(s: Seq<char>) -> Seq<char> {
    let t = trim_flagged(key_raw(s), dash_flags(key_raw(s)));
    if t.len() == 0 {
        seq!['x']
    } else {
        t
    }
}

/// A character that a CSS key may hold.
pub open spec fn key_char(c: char) -> bool {
    ('a' <= c && c <= 'z') || ('0' <= c && c <= '9') || c == '-'
}

proof fn lemma_key_raw_chars(s: Seq<char>)
    ensures
        forall|i: int| 0 <= i < key_raw(s).len() ==> key_char(#[trigger] key_raw(s)[i]),
    decreases s.len(),
{
    if s.len() > 0 {
        lemma_key_raw_chars(s.drop_last());
        let r = key_raw(s.drop_last());
        let c = s.last();
        if ascii_alnum(c) {
            assert(key_char(ascii_lower(c)));
            assert forall|i: int| 0 <= i < key_raw(s).len() implies key_char(
                #[trigger] key_raw(s)[i],
            ) by {
                if i < r.len() {
                    assert(key_raw(s)[i] == r[i]);
                }
            }
        } else if !(r.len() > 0 && r.last() == '-') {
            assert forall|i: int| 0 <= i < key_raw(s).len() implies key_char(
                #[trigger] key_raw(s)[i],
            ) by {
                if i < r.len() {
                    assert(key_raw(s)[i] == r[i]);
                }
            }
        }
    }
}

/// A CSS key is never empty, holds only lower-case ASCII letters,
/// digits, and hyphens, and neither starts nor ends with a hyphen.
pub proof fn lemma_css_key_is_safe(s: Seq<char>)
    ensures
        css_key_spec(s).len() > 0,
        forall|i: int| 0 <= i < css_key_spec(s).len() ==> key_char(#[trigger] css_key_spec(s)[i]),
        css_key_spec(s)[0] != '-',
        css_key_spec(s)[css_key_spec(s).len() - 1] != '-',
{
    let r = key_raw(s);
    let f = dash_flags(r);
    lemma_key_raw_chars(s);
    crate::textbuf::lemma_first_false_bounds(f, 0);
    crate::textbuf::lemma_last_false_bounds(f, f.len() as int);
    let a = crate::textbuf::first_false_from(f, 0);
    let b = crate::textbuf::last_false_end(f, f.len() as int);
    if a < b {
        assert(!f[a] && !f[b - 1]);
        assert(css_key_spec(s) == r.subrange(a, b));
        assert forall|i: int| 0 <= i < css_key_spec(s).len() implies key_char(
            #[trigger] css_key_spec(s)[i],
        ) by {
            assert(css_key_spec(s)[i] == r[a + i]);
        }
    }
}

/// The ASCII letters and digits of an identifier, lower-cased, in order.
pub open spec fn alnum_lowered(s: Seq<char>) -> Seq<char>
    decreases s.len(),
{
    if s.len() == 0 {
        Seq::empty()
    } else if ascii_alnum(s.last()) {
        alnum_lowered(s.drop_last()).push(ascii_lower(s.last()))
    } else {
        alnum_lowered(s.drop_last())
    }
}

/// The characters of a sequence other than its hyphens, in order.
pub open spec fn without_dashes(s: Seq<char>) -> Seq<char>
    decreases s.len(),
{
    if s.len() == 0 {
        Seq::empty()
    } else if s.last() == '-' {
        without_dashes(s.drop_last())
    } else {
        without_dashes(s.drop_last()).push(s.last())
    }
}

/// No two hyphens stand next to each other.
pub open spec fn no_double_dash(s: Seq<char>) -> bool {
    forall|i: int, j: int|
        #![trigger s[i], s[j]]
        0 <= i && j == i + 1 && j < s.len() ==> !(s[i] == '-' && s[j] == '-')
}

proof fn lemma_key_raw_shape(s: Seq<char>)
    ensures
        no_double_dash(key_raw(s)),
        without_dashes(key_raw(s)) == alnum_lowered(s),
    decreases s.len(),
{
    if s.len() > 0 {
        lemma_key_raw_shape(s.drop_last());
        let r = key_raw(s.drop_last());
        let c = s.last();
        if ascii_alnum(c) {
            let x = ascii_lower(c);
            assert(x != '-');
            assert(r.push(x).drop_last() =~= r);
            assert forall|i: int, j: int|
                #![trigger r.push(x)[i], r.push(x)[j]]
                0 <= i && j == i + 1 && j < r.push(x).len() implies !(r.push(x)[i] == '-' && r.push(x)[j] == '-') by {
                if j < r.len() {
                    assert(r.push(x)[i] == r[i] && r.push(x)[j] == r[j]);
                }
            }
        } else if !(r.len() > 0 && r.last() == '-') {
            assert(r.push('-').drop_last() =~= r);
            assert forall|i: int, j: int|
                #![trigger r.push('-')[i], r.push('-')[j]]
                0 <= i && j == i + 1 && j < r.push('-').len() implies !(r.push('-')[i] == '-' && r.push('-')[j] == '-') by {
                if j < r.len() {
                    assert(r.push('-')[i] == r[i] && r.push('-')[j] == r[j]);
                } else {
                    assert(r.push('-')[i] == r[i]);
                }
            }
        }
    }
}

proof fn lemma_without_dashes_append(a: Seq<char>, b: Seq<char>)
    ensures
        without_dashes(a + b) == without_dashes(a) + without_dashes(b),
    decreases b.len(),
{
    if b.len() == 0 {
        assert(a + b =~= a);
        assert(without_dashes(a) + without_dashes(b) =~= without_dashes(a));
    } else {
        lemma_without_dashes_append(a, b.drop_last());
        assert((a + b).drop_last() =~= a + b.drop_last());
        assert((a + b).last() == b.last());
        if b.last() != '-' {
            assert(without_dashes(a) + without_dashes(b.drop_last()).push(b.last()) =~= (
            without_dashes(a) + without_dashes(b.drop_last())).push(b.last()));
        }
    }
}

proof fn lemma_without_dashes_empty(s: Seq<char>)
    ensures
        (forall|k: int| 0 <= k < s.len() ==> s[k] == '-') <==> without_dashes(s).len() == 0,
    decreases s.len(),
{
    if s.len() > 0 {
        lemma_without_dashes_empty(s.drop_last());
        if without_dashes(s).len() == 0 {
            assert forall|k: int| 0 <= k < s.len() implies s[k] == '-' by {
                if k < s.len() - 1 {
                    assert(s[k] == s.drop_last()[k]);
                }
            }
        }
        if forall|k: int| 0 <= k < s.len() ==> s[k] == '-' {
            assert forall|k: int| 0 <= k < s.drop_last().len() implies s.drop_last()[k] == '-' by {
                assert(s.drop_last()[k] == s[k]);
            }
        }
    }
}

proof fn lemma_key_raw_of_key(p: Seq<char>)
    requires
        forall|i: int| 0 <= i < p.len() ==> key_char(#[trigger] p[i]),
        p.len() > 0 ==> p[0] != '-',
        no_double_dash(p),
    ensures
        key_raw(p) == p,
    decreases p.len(),
{
    if p.len() > 0 {
        let q = p.drop_last();
        assert forall|i: int| 0 <= i < q.len() implies key_char(#[trigger] q[i]) by {
            assert(q[i] == p[i]);
        }
        assert forall|i: int, j: int|
            #![trigger q[i], q[j]]
            0 <= i && j == i + 1 && j < q.len() implies !(q[i] == '-' && q[j] == '-') by {
            assert(q[i] == p[i] && q[j] == p[j]);
        }
        if q.len() > 0 {
            assert(q[0] == p[0]);
        }
        lemma_key_raw_of_key(q);
        let c = p.last();
        assert(key_char(p[p.len() - 1]));
        if ascii_alnum(c) {
            assert(ascii_lower(c) == c);
            assert(q.push(c) =~= p);
        } else {
            assert(c == '-');
            assert(q.len() > 0);
            assert(q.last() == p[p.len() - 2]);
            assert(!(p[p.len() - 2] == '-' && p[p.len() - 1] == '-'));
            assert(q.push(c) =~= p);
        }
    }
}

/// A CSS key never holds two hyphens in a row. Without its hyphens it
/// is the ASCII letters and digits of the identifier, lower-cased and
/// in order; an identifier with none of them gets the key `x`. The key
/// of a key is that key.
pub proof fn lemma_css_key_is_stable(s: Seq<char>)
    ensures
        no_double_dash(css_key_spec(s)),
        alnum_lowered(s).len() > 0 ==> without_dashes(css_key_spec(s)) == alnum_lowered(s),
        alnum_lowered(s).len() == 0 ==> css_key_spec(s) == seq!['x'],
        css_key_spec(css_key_spec(s)) == css_key_spec(s),
{
    let r = key_raw(s);
    let f = dash_flags(r);
    lemma_key_raw_shape(s);
    lemma_css_key_is_safe(s);
    crate::textbuf::lemma_first_false_bounds(f, 0);
    crate::textbuf::lemma_last_false_bounds(f, f.len() as int);
    let a = crate::textbuf::first_false_from(f, 0);
    let b = crate::textbuf::last_false_end(f, f.len() as int);
    let v = css_key_spec(s);
    if a < b {
        let t = r.subrange(a, b);
        assert(v == t);
        let head = r.subrange(0, a);
        let tail = r.subrange(b, r.len() as int);
        assert(r =~= head + t + tail);
        assert forall|k: int| 0 <= k < head.len() implies head[k] == '-' by {
            assert(f[k]);
        }
        assert forall|k: int| 0 <= k < tail.len() implies tail[k] == '-' by {
            assert(f[b + k]);
        }
        lemma_without_dashes_empty(head);
        lemma_without_dashes_empty(tail);
        lemma_without_dashes_empty(t);
        lemma_without_dashes_append(head, t);
        lemma_without_dashes_append(head + t, tail);
        assert(without_dashes(head) + without_dashes(t) =~= without_dashes(t));
        assert(without_dashes(head + t) + without_dashes(tail) =~= without_dashes(head + t));
        assert(!f[a]);
        assert(t[0] != '-');
        assert forall|i: int, j: int|
            #![trigger t[i], t[j]]
            0 <= i && j == i + 1 && j < t.len() implies !(t[i] == '-' && t[j] == '-') by {
            assert(t[i] == r[a + i] && t[j] == r[a + j]);
        }
    } else {
        assert(v == seq!['x']);
        assert forall|k: int| 0 <= k < r.len() implies r[k] == '-' by {
            assert(f[k]);
        }
        lemma_without_dashes_empty(r);
        assert(ascii_alnum('x'));
    }
    assert(no_double_dash(v));
    lemma_key_raw_of_key(v);
    let g = dash_flags(v);
    assert(!g[0]);
    assert(!g[v.len() - 1]);
    assert(crate::textbuf::first_false_from(g, 0) == 0);
    assert(crate::textbuf::last_false_end(g, g.len() as int) == v.len());
    assert(v.subrange(0, v.len() as int) =~= v);
}

/// Turn any identifier into a key that is safe in a CSS class, an
/// HTML identifier, and a JavaScript object key.
pub fn css_key(value: &str) -> (res: String)
    ensures
        res@ == css_key_spec(value@),
{
    let mut out: Vec<char> = Vec::new();
    for c in it: value.chars()
        invariant
            it.seq() == value@,
            out@ == key_raw(value@.take(it.index() as int)),
    {
        proof {
            assert(value@.take(it.index() + 1).drop_last() =~= value@.take(it.index() as int));
        }
        if is_ascii_alnum(c) {
            out.push(to_ascii_lower(c));
        } else if !(out.len() > 0 && out[out.len() - 1] == '-') {
            out.push('-');
        }
    }
    proof {
        assert(value@.take(value@.len() as int) =~= value@);
    }
    let mut flags: Vec<bool> = Vec::new();
    let mut i: usize = 0;
    while i < out.len()
        invariant
            i <= out@.len(),
            flags@ == dash_flags(out@.take(i as int)),
        decreases out@.len() - i,
    {
        proof {
            assert(dash_flags(out@.take(i + 1)) =~= dash_flags(out@.take(i as int)).push(
                out@[i as int] == '-',
            ));
        }
        flags.push(out[i] == '-');
        i = i + 1;
    }
    proof {
        assert(out@.take(out@.len() as int) =~= out@);
    }
    let trimmed = trimmed_string(&out, &flags);
    if trimmed.as_str().is_empty() {
        let mut x = String::new();
        push_char(&mut x, 'x');
        proof {
            assert(x@ =~= seq!['x']);
        }
        x
    } else {
        trimmed
    }
}

} // verus!

verus! {

/// The version of the JSON view-model schema.
pub const SCHEMA_VERSION: &'static str = "1.0";

/// The CSS color of a six-digit GTFS color, or nothing.
pub open spec fn gtfs_css_color(s: Seq<char>) -> Seq<char> {
    let digits = if s.len() > 0 && s[0] == '#' {
        s.skip(1)
    } else {
        s
    };
    if digits.len() == 6 && crate::escape::all_hex(digits) {
        seq!['#'] + digits
    } else {
        Seq::empty()
    }
}

/// Turn a six-digit GTFS color into a CSS color.
///
/// The check is strict: anything that is not exactly six hexadecimal
/// digits, with an optional leading `#`, yields an empty string. A
/// stylesheet therefore cannot receive a value that a hostile feed
/// chose, whatever the feed carries in `route_color`.
pub fn css_color(value: &str) -> (res: String)
    ensures
        res@ == gtfs_css_color(value@),
{
    let v = crate::textbuf::chars_of(value);
    let start: usize = if v.len() > 0 && v[0] == '#' {
        1
    } else {
        0
    };
    proof {
        assert(v@.skip(0) =~= v@);
    }
    let mut out = String::new();
    if v.len() - start == 6 && crate::escape::all_hex_from(&v, start) {
        push_char(&mut out, '#');
        crate::textbuf::push_range(&mut out, &v, start, v.len());
        proof {
            assert(v@.subrange(start as int, v@.len() as int) =~= v@.skip(start as int));
            assert(out@ =~= seq!['#'] + v@.skip(start as int));
        }
    }
    out
}

/// One entry of the legend.
#[derive(Clone, Debug, PartialEq, Eq)]
pub struct LegendItem {
    /// A stable key, for example `approximate`.
    pub key: String,
    /// The symbol that appears in the output, if the entry has one.
    pub symbol: Option<String>,
    /// The explanation.
    pub label: String,
}

impl LegendItem {
    /// Make a legend entry with a symbol.
    pub fn with_symbol(key: &str, symbol: &str, label: &str) -> (item: LegendItem)
        ensures
            item.key@ == key@,
            item.symbol matches Some(s) && s@ == symbol@,
            item.label@ == label@,
    {
        LegendItem {
            key: crate::textbuf::owned(key),
            symbol: Some(crate::textbuf::owned(symbol)),
            label: crate::textbuf::owned(label),
        }
    }

    /// Make a legend entry without a symbol.
    pub fn plain(key: &str, label: &str) -> (item: LegendItem)
        ensures
            item.key@ == key@,
            item.symbol is None,
            item.label@ == label@,
    {
        LegendItem {
            key: crate::textbuf::owned(key),
            symbol: None,
            label: crate::textbuf::owned(label),
        }
    }
}

/// A mark on one departure or one train path.
#[derive(Copy, Clone, Debug, PartialEq, Eq, Hash, PartialOrd, Ord)]
pub enum DepartureFlag {
    /// The time comes from a headway, not from a schedule.
    Approximate,
    /// The library computed the time between two scheduled times.
    Interpolated,
    /// The first departure of the panel on this service day.
    FirstOfDay,
    /// The last departure of the panel on this service day.
    LastOfDay,
    /// The departure happens after midnight, on the next calendar day.
    PastMidnight,
}

/// The rank of a flag in the order the documents list flags.
pub open spec fn flag_rank(f: DepartureFlag) -> nat {
    match f {
        DepartureFlag::Approximate => 0,
        DepartureFlag::Interpolated => 1,
        DepartureFlag::FirstOfDay => 2,
        DepartureFlag::LastOfDay => 3,
        DepartureFlag::PastMidnight => 4,
    }
}

/// The stable key of a flag.
pub open spec fn flag_key(f: DepartureFlag) -> Seq<char> {
    match f {
        DepartureFlag::Approximate => "approximate"@,
        DepartureFlag::Interpolated => "interpolated"@,
        DepartureFlag::FirstOfDay => "first"@,
        DepartureFlag::LastOfDay => "last"@,
        DepartureFlag::PastMidnight => "past-midnight"@,
    }
}

/// The printed symbol of a flag.
pub open spec fn flag_symbol(f: DepartureFlag) -> Seq<char> {
    match f {
        DepartureFlag::Approximate => "~"@,
        DepartureFlag::Interpolated => "*"@,
        DepartureFlag::FirstOfDay => "\u{25B7}"@,
        DepartureFlag::LastOfDay => "\u{25C1}"@,
        DepartureFlag::PastMidnight => "\u{2020}"@,
    }
}

/// The explanation of a flag in a label catalogue.
pub open spec fn flag_explanation(f: DepartureFlag, labels: crate::text::Labels) -> Seq<char> {
    match f {
        DepartureFlag::Approximate => labels.legend_approximate@,
        DepartureFlag::Interpolated => labels.legend_interpolated@,
        DepartureFlag::FirstOfDay => labels.legend_first@,
        DepartureFlag::LastOfDay => labels.legend_last@,
        DepartureFlag::PastMidnight => labels.legend_past_midnight@,
    }
}

impl DepartureFlag {
    /// Get the position of the flag in the order the documents use.
    pub fn rank(self) -> (r: u8)
        ensures
            r == flag_rank(self),
    {
        match self {
            DepartureFlag::Approximate => 0,
            DepartureFlag::Interpolated => 1,
            DepartureFlag::FirstOfDay => 2,
            DepartureFlag::LastOfDay => 3,
            DepartureFlag::PastMidnight => 4,
        }
    }

    /// Get the stable key of the flag.
    pub fn key(self) -> (k: &'static str)
        ensures
            k@ == flag_key(self),
    {
        match self {
            DepartureFlag::Approximate => "approximate",
            DepartureFlag::Interpolated => "interpolated",
            DepartureFlag::FirstOfDay => "first",
            DepartureFlag::LastOfDay => "last",
            DepartureFlag::PastMidnight => "past-midnight",
        }
    }

    /// Get the symbol that the renderers print.
    ///
    /// The symbols are plain characters, so they render with any font
    /// and stay legible in a monochrome print.
    pub fn symbol(self) -> (s: &'static str)
        ensures
            s@ == flag_symbol(self),
    {
        match self {
            DepartureFlag::Approximate => "~",
            DepartureFlag::Interpolated => "*",
            DepartureFlag::FirstOfDay => "\u{25B7}",
            DepartureFlag::LastOfDay => "\u{25C1}",
            DepartureFlag::PastMidnight => "\u{2020}",
        }
    }

    /// Get the explanation of the flag.
    pub fn explanation(self, labels: &crate::text::Labels) -> (s: &'static str)
        ensures
            s@ == flag_explanation(self, *labels),
    {
        match self {
            DepartureFlag::Approximate => labels.legend_approximate,
            DepartureFlag::Interpolated => labels.legend_interpolated,
            DepartureFlag::FirstOfDay => labels.legend_first,
            DepartureFlag::LastOfDay => labels.legend_last,
            DepartureFlag::PastMidnight => labels.legend_past_midnight,
        }
    }
}

/// Distinct flags carry distinct symbols, so a reader can tell every
/// mark apart on the printed page.
pub proof fn lemma_flag_symbols_distinct(a: DepartureFlag, b: DepartureFlag)
    requires
        a != b,
    ensures
        flag_symbol(a) != flag_symbol(b),
        flag_key(a) != flag_key(b),
{
    reveal_strlit("~");
    reveal_strlit("*");
    reveal_strlit("\u{25B7}");
    reveal_strlit("\u{25C1}");
    reveal_strlit("\u{2020}");
    reveal_strlit("approximate");
    reveal_strlit("interpolated");
    reveal_strlit("first");
    reveal_strlit("last");
    reveal_strlit("past-midnight");
    if flag_symbol(a) == flag_symbol(b) {
        assert(flag_symbol(a)[0] == flag_symbol(b)[0]);
    }
    if flag_key(a) == flag_key(b) {
        assert(flag_key(a).len() == flag_key(b).len());
        assert(flag_key(a)[0] == flag_key(b)[0]);
    }
}

/// A station, as a document shows it.
#[derive(Clone, Debug, PartialEq, Eq)]
pub struct StationView {
    /// The GTFS identifier of the station.
    pub gtfs_id: String,
    /// The public name.
    pub name: String,
    /// The public codes, for example `NS1` and `EW24`.
    pub codes: Vec<String>,
}

impl StationView {
    /// Get the primary code, when the station has one.
    pub fn primary_code(&self) -> (c: Option<&str>)
        ensures
            self.codes@.len() == 0 ==> c is None,
            self.codes@.len() > 0 ==> (c matches Some(s) && s@ == self.codes@[0]@),
    {
        if self.codes.len() == 0 {
            None
        } else {
            Some(self.codes[0].as_str())
        }
    }
}

/// Format a time on the 24-hour clock, for example `25:35:00` as
/// `01:35`.
pub fn clock_hhmm(time: crate::time::GtfsTime) -> (s: String)
    ensures
        s@ == hhmm_text((time.secs % 86400) as nat),
{
    let clock = crate::time::GtfsTime::from_seconds(time.clock_seconds());
    let mut out = String::new();
    crate::textbuf::push_pad2(&mut out, clock.hours() as u64);
    push_char(&mut out, ':');
    crate::textbuf::push_pad2(&mut out, clock.minutes() as u64);
    out
}

/// Format a time on the service day, for example `25:35`.
pub fn service_hhmm(time: crate::time::GtfsTime) -> (s: String)
    ensures
        s@ == hhmm_text(time.secs as nat),
{
    let mut out = String::new();
    crate::textbuf::push_pad2(&mut out, time.hours() as u64);
    push_char(&mut out, ':');
    crate::textbuf::push_pad2(&mut out, time.minutes() as u64);
    out
}

/// The text `HH:MM` of a number of seconds.
pub open spec fn hhmm_text(secs: nat) -> Seq<char> {
    crate::textbuf::pad2(secs / 3600) + seq![':'] + crate::textbuf::pad2((secs / 60) % 60)
}

/// The 24-hour clock shows a time past midnight as the same time of
/// the next calendar day: the clock text of a service-day time is the
/// service-day text of that time less whole days.
pub proof fn lemma_clock_wraps_past_midnight(secs: nat)
    ensures
        hhmm_text(secs % 86400) == hhmm_text((secs % 86400) as nat),
        secs < 86400 ==> hhmm_text(secs % 86400) == hhmm_text(secs),
{
}

/// The facts about the source of a document.
///
/// The caller fills this in. It carries no clock reading, so two runs
/// over the same feed and configuration produce identical documents.
#[derive(Clone, Debug)]
pub struct DocumentSeed {
    /// The version of the program that generated the document.
    pub generator_version: String,
    /// The SHA-256 of the feed archive or directory.
    pub feed_sha256: String,
    /// The timestamp that the feed publisher stated, if known.
    pub feed_timestamp: Option<String>,
    /// The time zone of the schedule.
    pub timezone: String,
    /// Whether the feed came from the local cache after a failed
    /// download.
    pub generated_from_cache: bool,
    /// The SHA-256 of the configuration.
    pub configuration_sha256: String,
}

/// The first characters of a text, at most `n` of them.
pub open spec fn first_chars(s: Seq<char>, n: nat) -> Seq<char> {
    if s.len() <= n {
        s
    } else {
        s.take(n as int)
    }
}

/// Keep the first characters of a text, at most `n` of them.
pub fn first_chars_of(s: &str, n: usize) -> (r: String)
    ensures
        r@ == first_chars(s@, n as nat),
{
    let v = crate::textbuf::chars_of(s);
    let end = if v.len() <= n {
        v.len()
    } else {
        n
    };
    let mut out = String::new();
    crate::textbuf::push_range(&mut out, &v, 0, end);
    proof {
        assert(v@.subrange(0, end as int) =~= first_chars(v@, n as nat));
    }
    out
}

} // verus!

verus! {

/// How much a diagnostic matters.
#[derive(Copy, Clone, Debug, PartialEq, Eq, Structural, Hash, PartialOrd, Ord)]
pub enum Severity {
    /// Worth knowing; the document is complete.
    Info,
    /// The document is complete, but something in the feed or the
    /// configuration deserves a look.
    Warning,
    /// Part of the document could not be built.
    Error,
}

/// Whether a severity reaches the warning level.
pub open spec fn is_warning_or_worse(s: Severity) -> bool {
    s is Warning || s is Error
}

/// A finding of a projection, reported instead of hidden.
#[derive(Clone, Debug, PartialEq, Eq)]
pub struct Diagnostic {
    /// How much the finding matters.
    pub severity: Severity,
    /// A stable code, for example `timetable-empty`.
    pub code: String,
    /// The human-readable message.
    pub message: String,
    /// What the finding is about, when that is one thing.
    pub subject: Option<String>,
}

/// A diagnostic as plain values: its severity, its code, its message,
/// and its subject.
pub open spec fn diagnostic_view(d: Diagnostic) -> (Severity, Seq<char>, Seq<char>, Option<Seq<char>>) {
    (
        d.severity,
        d.code@,
        d.message@,
        match d.subject {
            Some(s) => Some(s@),
            None => None,
        },
    )
}

/// A run of diagnostics as plain values.
pub open spec fn diagnostic_views(ds: Seq<Diagnostic>) -> Seq<
    (Severity, Seq<char>, Seq<char>, Option<Seq<char>>),
> {
    ds.map_values(|d: Diagnostic| diagnostic_view(d))
}

/// The one-line text of a diagnostic: its code, a colon, and the
/// message.
pub open spec fn diagnostic_text(d: Diagnostic) -> Seq<char> {
    d.code@ + ": "@ + d.message@
}

impl Diagnostic {
    /// Make a diagnostic.
    pub fn new(severity: Severity, code: &str, message: String) -> (d: Diagnostic)
        ensures
            d.severity == severity,
            d.code@ == code@,
            d.message == message,
            d.subject is None,
    {
        Diagnostic { severity, code: crate::textbuf::owned(code), message, subject: None }
    }

    /// Make an informational diagnostic.
    pub fn info(code: &str, message: String) -> (d: Diagnostic)
        ensures
            d.severity == Severity::Info,
            d.code@ == code@,
            d.message == message,
            d.subject is None,
    {
        Diagnostic::new(Severity::Info, code, message)
    }

    /// Make a warning.
    pub fn warning(code: &str, message: String) -> (d: Diagnostic)
        ensures
            d.severity == Severity::Warning,
            d.code@ == code@,
            d.message == message,
            d.subject is None,
    {
        Diagnostic::new(Severity::Warning, code, message)
    }

    /// Make an error.
    pub fn error(code: &str, message: String) -> (d: Diagnostic)
        ensures
            d.severity == Severity::Error,
            d.code@ == code@,
            d.message == message,
            d.subject is None,
    {
        Diagnostic::new(Severity::Error, code, message)
    }

    /// Name what the diagnostic is about.
    pub fn about(self, subject: &str) -> (d: Diagnostic)
        ensures
            d.severity == self.severity,
            d.code == self.code,
            d.message == self.message,
            d.subject matches Some(s) && s@ == subject@,
    {
        Diagnostic { subject: Some(crate::textbuf::owned(subject)), ..self }
    }

    /// Make a diagnostic with the same severity, code, message, and
    /// subject.
    pub fn duplicate(&self) -> (d: Diagnostic)
        ensures
            d.severity == self.severity,
            d.code@ == self.code@,
            d.message@ == self.message@,
            d.subject is None <==> self.subject is None,
            d.subject matches Some(x) ==> (self.subject matches Some(y) && x@ == y@),
    {
        Diagnostic {
            severity: self.severity,
            code: crate::textbuf::owned(self.code.as_str()),
            message: crate::textbuf::owned(self.message.as_str()),
            subject: copy_option(&self.subject),
        }
    }

    /// The one-line text of the diagnostic.
    pub fn to_text(&self) -> (s: String)
        ensures
            s@ == diagnostic_text(*self),
    {
        let mut out = crate::textbuf::owned(self.code.as_str());
        crate::textbuf::push_str(&mut out, ": ");
        crate::textbuf::push_str(&mut out, self.message.as_str());
        out
    }
}

/// The texts of the diagnostics that reach the warning level, in
/// their order.
pub open spec fn warning_texts(ds: Seq<Diagnostic>) -> Seq<Seq<char>>
    decreases ds.len(),
{
    if ds.len() == 0 {
        Seq::empty()
    } else if is_warning_or_worse(ds.last().severity) {
        warning_texts(ds.drop_last()).push(diagnostic_text(ds.last()))
    } else {
        warning_texts(ds.drop_last())
    }
}

/// The views of a run of strings.
pub open spec fn string_views(v: Seq<String>) -> Seq<Seq<char>> {
    v.map_values(|s: String| s@)
}

/// Copy an optional string, keeping its contents.
pub fn copy_option(s: &Option<String>) -> (r: Option<String>)
    ensures
        r is None <==> s is None,
        r matches Some(x) ==> (s matches Some(y) && x@ == y@),
{
    match s {
        Some(x) => Some(crate::textbuf::owned(x.as_str())),
        None => None,
    }
}

/// The provenance block of a document.
#[derive(Clone, Debug)]
pub struct PublicationMetadata {
    /// The version of the JSON view-model schema.
    pub schema_version: String,
    /// The version of the program that generated the document.
    pub generator_version: String,
    /// The SHA-256 of the feed.
    pub feed_sha256: String,
    /// The timestamp that the feed publisher stated.
    pub feed_timestamp: Option<String>,
    /// The service date of the document.
    pub service_date: crate::time::ServiceDate,
    /// The time zone of the schedule.
    pub timezone: String,
    /// Whether the feed came from the cache.
    pub generated_from_cache: bool,
    /// The SHA-256 of the configuration.
    pub configuration_sha256: String,
    /// The human-readable warnings that the projection produced.
    pub warnings: Vec<String>,
    /// The full diagnostics, for tools.
    pub diagnostics: Vec<Diagnostic>,
}

impl PublicationMetadata {
    /// Build the metadata from a seed, a date, and the diagnostics.
    ///
    /// The warnings are the texts of the diagnostics at the warning
    /// level or above, in their order.
    pub fn new(
        seed: &DocumentSeed,
        service_date: crate::time::ServiceDate,
        diagnostics: Vec<Diagnostic>,
    ) -> (m: PublicationMetadata)
        ensures
            m.schema_version@ == SCHEMA_VERSION@,
            m.generator_version@ == seed.generator_version@,
            m.feed_sha256@ == seed.feed_sha256@,
            m.feed_timestamp is None <==> seed.feed_timestamp is None,
            m.feed_timestamp matches Some(t) ==> (seed.feed_timestamp matches Some(u) && t@
                == u@),
            m.service_date == service_date,
            m.timezone@ == seed.timezone@,
            m.generated_from_cache == seed.generated_from_cache,
            m.configuration_sha256@ == seed.configuration_sha256@,
            string_views(m.warnings@) == warning_texts(diagnostics@),
            m.diagnostics@ == diagnostics@,
    {
        let mut warnings: Vec<String> = Vec::new();
        let mut i: usize = 0;
        while i < diagnostics.len()
            invariant
                i <= diagnostics@.len(),
                string_views(warnings@) == warning_texts(diagnostics@.take(i as int)),
            decreases diagnostics@.len() - i,
        {
            proof {
                assert(diagnostics@.take(i + 1).drop_last() =~= diagnostics@.take(i as int));
            }
            let d = &diagnostics[i];
            if d.severity == Severity::Warning || d.severity == Severity::Error {
                let t = d.to_text();
                warnings.push(t);
            }
            proof {
                assert(string_views(warnings@) =~= warning_texts(diagnostics@.take(i + 1)));
            }
            i = i + 1;
        }
        proof {
            assert(diagnostics@.take(diagnostics@.len() as int) =~= diagnostics@);
        }
        PublicationMetadata {
            schema_version: crate::textbuf::owned(SCHEMA_VERSION),
            generator_version: crate::textbuf::owned(seed.generator_version.as_str()),
            feed_sha256: crate::textbuf::owned(seed.feed_sha256.as_str()),
            feed_timestamp: copy_option(&seed.feed_timestamp),
            service_date,
            timezone: crate::textbuf::owned(seed.timezone.as_str()),
            generated_from_cache: seed.generated_from_cache,
            configuration_sha256: crate::textbuf::owned(seed.configuration_sha256.as_str()),
            warnings,
            diagnostics,
        }
    }

    /// Get the first twelve characters of the feed fingerprint, for a
    /// compact footer.
    pub fn short_feed_sha(&self) -> (s: String)
        ensures
            s@ == first_chars(self.feed_sha256@, 12),
    {
        first_chars_of(self.feed_sha256.as_str(), 12)
    }
}

/// A station record of the network.
#[derive(Clone, Debug, PartialEq, Eq)]
pub struct Station {
    /// The GTFS identifier of the parent station.
    pub gtfs_id: String,
    /// The public name.
    pub name: String,
    /// The public codes.
    pub codes: Vec<String>,
    /// The GTFS `stop_id` of every platform of the station.
    pub platform_stop_ids: Vec<String>,
    /// The lines that serve the station.
    pub lines: Vec<usize>,
}

/// A line record of the network.
#[derive(Clone, Debug, PartialEq, Eq)]
pub struct Line {
    /// The GTFS route identifier.
    pub route_id: String,
    /// The display name.
    pub name: String,
    /// The long name.
    pub long_name: Option<String>,
    /// The color as the feed states it.
    pub color: Option<String>,
    /// The text color as the feed states it.
    pub text_color: Option<String>,
}

/// Copy a run of strings, keeping their contents.
pub fn copy_strings(v: &Vec<String>) -> (r: Vec<String>)
    ensures
        string_views(r@) == string_views(v@),
{
    let mut out: Vec<String> = Vec::new();
    let mut i: usize = 0;
    while i < v.len()
        invariant
            i <= v@.len(),
            out@.len() == i,
            forall|k: int| 0 <= k < i ==> (#[trigger] out@[k])@ == v@[k]@,
        decreases v@.len() - i,
    {
        out.push(crate::textbuf::owned(v[i].as_str()));
        i = i + 1;
    }
    proof {
        assert(string_views(out@) =~= string_views(v@));
    }
    out
}

impl StationView {
    /// Build the view of one station of a network.
    pub fn of(network: &crate::schedule::RailNetwork, id: usize) -> (v: StationView)
        requires
            id < network.stations@.len(),
        ensures
            v.gtfs_id@ == network.stations@[id as int].gtfs_id@,
            v.name@ == network.stations@[id as int].name@,
            string_views(v.codes@) == string_views(network.stations@[id as int].codes@),
    {
        StationView::from_station(&network.stations[id])
    }

    /// Build the view from a station record.
    pub fn from_station(station: &Station) -> (v: StationView)
        ensures
            v.gtfs_id@ == station.gtfs_id@,
            v.name@ == station.name@,
            string_views(v.codes@) == string_views(station.codes@),
    {
        StationView {
            gtfs_id: crate::textbuf::owned(station.gtfs_id.as_str()),
            name: crate::textbuf::owned(station.name.as_str()),
            codes: copy_strings(&station.codes),
        }
    }
}

/// A line, as a document shows it.
#[derive(Clone, Debug, PartialEq, Eq)]
pub struct LineView {
    /// The GTFS route identifier.
    pub route_id: String,
    /// The display name, for example `NSL`.
    pub name: String,
    /// The long name, for example `North South Line`.
    pub long_name: Option<String>,
    /// The line color as a CSS color, for example `#D42E12`.
    pub color: Option<String>,
    /// The text color on the line color.
    pub text_color: Option<String>,
    /// A CSS-safe key derived from the route identifier.
    pub key: String,
}

/// The CSS form of an optional feed color.
pub open spec fn optional_color(c: Option<String>) -> Option<Seq<char>> {
    match c {
        Some(s) => Some(gtfs_css_color(s@)),
        None => None,
    }
}

fn map_color(c: &Option<String>) -> (r: Option<String>)
    ensures
        r is None <==> c is None,
        r matches Some(x) ==> optional_color(*c) == Some(x@),
{
    match c {
        Some(s) => Some(css_color(s.as_str())),
        None => None,
    }
}

impl LineView {
    /// Build the view of one line of a network.
    pub fn of(network: &crate::schedule::RailNetwork, id: usize) -> (v: LineView)
        requires
            id < network.lines@.len(),
        ensures
            v.route_id@ == network.lines@[id as int].route_id@,
            v.name@ == network.lines@[id as int].name@,
            v.long_name is None <==> network.lines@[id as int].long_name is None,
            v.long_name matches Some(t) ==> (network.lines@[id as int].long_name matches Some(u)
                && t@ == u@),
            v.color is None <==> network.lines@[id as int].color is None,
            v.color matches Some(c) ==> optional_color(network.lines@[id as int].color) == Some(c@),
            v.text_color is None <==> network.lines@[id as int].text_color is None,
            v.text_color matches Some(c) ==> optional_color(network.lines@[id as int].text_color)
                == Some(c@),
            v.key@ == css_key_spec(network.lines@[id as int].route_id@),
    {
        LineView::from_line(&network.lines[id])
    }

    /// Build the view from a line record.
    ///
    /// The colors pass the strict GTFS color filter, and the key is the
    /// CSS key of the route identifier.
    pub fn from_line(line: &Line) -> (v: LineView)
        ensures
            v.route_id@ == line.route_id@,
            v.name@ == line.name@,
            v.long_name is None <==> line.long_name is None,
            v.long_name matches Some(t) ==> (line.long_name matches Some(u) && t@ == u@),
            v.color is None <==> line.color is None,
            v.color matches Some(c) ==> optional_color(line.color) == Some(c@),
            v.text_color is None <==> line.text_color is None,
            v.text_color matches Some(c) ==> optional_color(line.text_color) == Some(c@),
            v.key@ == css_key_spec(line.route_id@),
    {
        LineView {
            route_id: crate::textbuf::owned(line.route_id.as_str()),
            name: crate::textbuf::owned(line.name.as_str()),
            long_name: copy_option(&line.long_name),
            color: map_color(&line.color),
            text_color: map_color(&line.text_color),
            key: css_key(line.route_id.as_str()),
        }
    }
}


/// Fill the `{name}` placeholders of a title template, in both of its
/// forms. The configuration does not change the result.
pub fn fill_title(
    template: &LocalizedText,
    replacements: &[(&str, &str)],
    config: &PublicationConfig,
) -> (t: LocalizedText)
    ensures
        t.en@ == fill_text(template.en@, replacements@),
        match template.ja {
            Some(j) => t.ja matches Some(tj) && tj@ == fill_text(j@, replacements@),
            None => t.ja is None,
        },
{
    let _ = config;
    template.fill(replacements)
}

} // verus!
