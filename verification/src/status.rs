//! The live status of the rail network's lines.
//!
//! The operator publishes train service alerts: an overall status, the
//! affected segments of the lines, and public messages. The types here
//! carry those alerts as plain values; the network status and the line
//! state of the live views are built from them.

use vstd::prelude::*;

use crate::common::{string_views, Line};
use crate::textbuf::{
    chars_of, contains_chars, contains_seq, owned, push_char, replace_all, string_of, str_eq,
    to_upper_chars, trim, trim_white, upper_seq,
};

verus! {

/// A Singapore rail line as the operator's alerts name it.
#[derive(Copy, Clone, Debug, PartialEq, Eq, Structural)]
pub enum TrainLine {
    /// The North South Line.
    NSL,
    /// The East West Line.
    EWL,
    /// The North East Line.
    NEL,
    /// The Circle Line.
    CCL,
    /// The Downtown Line.
    DTL,
    /// The Thomson-East Coast Line.
    TEL,
    /// The Bukit Panjang LRT.
    BPL,
    /// The Sengkang LRT.
    SLRT,
    /// The Punggol LRT.
    PLRT,
    /// The Changi Airport branch.
    CGL,
}

/// Every known line, in the order a status board lists them.
pub open spec fn all_lines() -> Seq<TrainLine> {
    seq![
        TrainLine::NSL,
        TrainLine::EWL,
        TrainLine::NEL,
        TrainLine::CCL,
        TrainLine::DTL,
        TrainLine::TEL,
        TrainLine::BPL,
        TrainLine::SLRT,
        TrainLine::PLRT,
        TrainLine::CGL,
    ]
}

/// The code of a line in the operator's alerts.
pub open spec fn line_code(l: TrainLine) -> Seq<char> {
    match l {
        TrainLine::NSL => "NSL"@,
        TrainLine::EWL => "EWL"@,
        TrainLine::NEL => "NEL"@,
        TrainLine::CCL => "CCL"@,
        TrainLine::DTL => "DTL"@,
        TrainLine::TEL => "TEL"@,
        TrainLine::BPL => "BPL"@,
        TrainLine::SLRT => "SLRT"@,
        TrainLine::PLRT => "PLRT"@,
        TrainLine::CGL => "CGL"@,
    }
}

/// The line whose code a text is, from position `i` of the list on.
pub open spec fn line_of_code_from(s: Seq<char>, i: int) -> Option<TrainLine>
    decreases 10 - i,
{
    if i < 0 || i >= 10 {
        None
    } else if line_code(all_lines()[i]) == s {
        Some(all_lines()[i])
    } else {
        line_of_code_from(s, i + 1)
    }
}

/// The line whose code a text is.
pub open spec fn line_of_code(s: Seq<char>) -> Option<TrainLine> {
    line_of_code_from(s, 0)
}

impl TrainLine {
    /// Get every known line, in the order a status board lists them.
    pub fn all() -> (v: Vec<TrainLine>)
        ensures
            v@ == all_lines(),
    {
        let v = vec![
            TrainLine::NSL,
            TrainLine::EWL,
            TrainLine::NEL,
            TrainLine::CCL,
            TrainLine::DTL,
            TrainLine::TEL,
            TrainLine::BPL,
            TrainLine::SLRT,
            TrainLine::PLRT,
            TrainLine::CGL,
        ];
        proof {
            assert(v@ =~= all_lines());
        }
        v
    }

    /// Get the code of the line, for example `NSL`.
    pub fn code(self) -> (s: &'static str)
        ensures
            s@ == line_code(self),
    {
        match self {
            TrainLine::NSL => "NSL",
            TrainLine::EWL => "EWL",
            TrainLine::NEL => "NEL",
            TrainLine::CCL => "CCL",
            TrainLine::DTL => "DTL",
            TrainLine::TEL => "TEL",
            TrainLine::BPL => "BPL",
            TrainLine::SLRT => "SLRT",
            TrainLine::PLRT => "PLRT",
            TrainLine::CGL => "CGL",
        }
    }
}

/// Read a line code, for example `NSL`.
pub fn parse_train_line(s: &str) -> (r: Option<TrainLine>)
    ensures
        r == line_of_code(s@),
{
    let all = TrainLine::all();
    let mut i: usize = 0;
    while i < all.len()
        invariant
            i <= 10,
            all@ == all_lines(),
            line_of_code(s@) == line_of_code_from(s@, i as int),
        decreases 10 - i,
    {
        if str_eq(all[i].code(), s) {
            return Some(all[i]);
        }
        i = i + 1;
    }
    None
}

/// The name fragments that identify a line in a route name, in the
/// order they are tried.
pub open spec fn name_needles() -> Seq<(Seq<char>, TrainLine)> {
    seq![
        ("NORTH SOUTH"@, TrainLine::NSL),
        ("EAST WEST"@, TrainLine::EWL),
        ("NORTH EAST"@, TrainLine::NEL),
        ("CIRCLE"@, TrainLine::CCL),
        ("DOWNTOWN"@, TrainLine::DTL),
        ("THOMSON"@, TrainLine::TEL),
        ("BUKIT PANJANG"@, TrainLine::BPL),
        ("SENGKANG"@, TrainLine::SLRT),
        ("PUNGGOL"@, TrainLine::PLRT),
        ("CHANGI"@, TrainLine::CGL),
    ]
}

/// The first line whose name fragment a text contains, from position
/// `i` of the list on.
pub open spec fn needle_from(text: Seq<char>, i: int) -> Option<TrainLine>
    decreases 10 - i,
{
    if i < 0 || i >= 10 {
        None
    } else if contains_seq(text, name_needles()[i].0) {
        Some(name_needles()[i].1)
    } else {
        needle_from(text, i + 1)
    }
}

/// The text that the name search reads: the upper-case name, the
/// upper-case long name after a space, and hyphens read as spaces.
pub open spec fn route_text(line: Line) -> Seq<char> {
    replace_all(
        upper_seq(line.name@) + match line.long_name {
            Some(l) => seq![' '] + upper_seq(l@),
            None => Seq::empty(),
        },
        seq!['-'],
        seq![' '],
    )
}

/// The Singapore line of a GTFS line: its short name read as a line
/// code, or else the first known line name that its names contain.
pub open spec fn match_line_spec(line: Line) -> Option<TrainLine> {
    match line_of_code(line.name@) {
        Some(l) => Some(l),
        None => needle_from(route_text(line), 0),
    }
}

fn needle_text(i: usize) -> (r: (&'static str, TrainLine))
    requires
        i < 10,
    ensures
        r.0@ == name_needles()[i as int].0,
        r.1 == name_needles()[i as int].1,
{
    if i == 0 {
        ("NORTH SOUTH", TrainLine::NSL)
    } else if i == 1 {
        ("EAST WEST", TrainLine::EWL)
    } else if i == 2 {
        ("NORTH EAST", TrainLine::NEL)
    } else if i == 3 {
        ("CIRCLE", TrainLine::CCL)
    } else if i == 4 {
        ("DOWNTOWN", TrainLine::DTL)
    } else if i == 5 {
        ("THOMSON", TrainLine::TEL)
    } else if i == 6 {
        ("BUKIT PANJANG", TrainLine::BPL)
    } else if i == 7 {
        ("SENGKANG", TrainLine::SLRT)
    } else if i == 8 {
        ("PUNGGOL", TrainLine::PLRT)
    } else {
        ("CHANGI", TrainLine::CGL)
    }
}

/// Match a GTFS line to a Singapore line.
///
/// GTFS feeds name their routes in different ways: `NSL`, `NS`,
/// `North South Line`, and so on. The short name is tried as a code
/// first; then the names are searched for the known line names.
pub fn match_train_line(line: &Line) -> (r: Option<TrainLine>)
    ensures
        r == match_line_spec(*line),
{
    match parse_train_line(line.name.as_str()) {
        Some(l) => return Some(l),
        None => {},
    }
    let mut text = to_upper_chars(&chars_of(line.name.as_str()));
    match &line.long_name {
        Some(long) => {
            let upper = to_upper_chars(&chars_of(long.as_str()));
            let ghost before = text@;
            text.push(' ');
            let mut k: usize = 0;
            while k < upper.len()
                invariant
                    k <= upper@.len(),
                    text@ == before + seq![' '] + upper@.take(k as int),
                decreases upper@.len() - k,
            {
                text.push(upper[k]);
                proof {
                    assert(text@ =~= before + seq![' '] + upper@.take(k + 1));
                }
                k = k + 1;
            }
            proof {
                assert(upper@.take(upper@.len() as int) =~= upper@);
                assert(text@ =~= upper_seq(line.name@) + (seq![' '] + upper_seq(long@)));
            }
        },
        None => {
            proof {
                assert(text@ =~= upper_seq(line.name@) + Seq::<char>::empty());
            }
        },
    }
    let hyphen = vec!['-'];
    proof {
        assert(hyphen@ =~= seq!['-']);
    }
    let spaced = replace_chars_to_vec(&text, &hyphen);
    proof {
        assert(spaced@ == route_text(*line));
    }
    let mut i: usize = 0;
    while i < 10
        invariant
            i <= 10,
            line_of_code(line.name@) is None,
            spaced@ == route_text(*line),
            needle_from(route_text(*line), 0) == needle_from(route_text(*line), i as int),
        decreases 10 - i,
    {
        let (needle, found) = needle_text(i);
        if contains_chars(&spaced, &chars_of(needle)) {
            return Some(found);
        }
        i = i + 1;
    }
    None
}

fn replace_chars_to_vec(s: &Vec<char>, p: &Vec<char>) -> (r: Vec<char>)
    requires
        p@ == seq!['-'],
    ensures
        r@ == replace_all(s@, p@, seq![' ']),
{
    let replaced = crate::textbuf::replace_chars(s, p, " ");
    proof {
        reveal_strlit(" ");
        assert(" "@ =~= seq![' ']);
    }
    chars_of(replaced.as_str())
}

// ----------------------------------------------------------------------
// The operator's alerts
// ----------------------------------------------------------------------

/// The overall service status of the operator's alerts.
#[derive(Copy, Clone, Debug, PartialEq, Eq, Structural)]
pub enum ServiceStatus {
    /// Every line runs normally.
    Normal,
    /// At least one line is disrupted.
    Disrupted,
}

/// One affected segment of a line.
#[derive(Clone, Debug)]
pub struct AffectedSegment {
    /// The line code, for example `NSL`.
    pub line: String,
    /// The affected direction, as the operator writes it.
    pub direction: String,
    /// The affected station codes, separated by commas.
    pub stations: String,
    /// The station codes with free public bus service, separated by
    /// commas.
    pub free_public_bus: String,
    /// The station codes with a free shuttle train, separated by commas.
    pub free_mrt_shuttle: String,
    /// The direction of the shuttle train.
    pub mrt_shuttle_direction: String,
}

/// One public message of the operator.
#[derive(Clone, Debug)]
pub struct AlertMessage {
    /// The text.
    pub content: String,
    /// When the operator wrote it, as the operator writes it.
    pub created_date: String,
}

/// The operator's train service alerts.
#[derive(Clone, Debug)]
pub struct TrainServiceAlerts {
    /// The overall service status.
    pub status: ServiceStatus,
    /// The affected segments.
    pub affected_segments: Vec<AffectedSegment>,
    /// The public messages.
    pub messages: Vec<AlertMessage>,
}

/// The pieces of a comma-separated text, in order.
pub open spec fn comma_pieces(s: Seq<char>) -> Seq<Seq<char>>
    decreases s.len(),
{
    if s.len() == 0 {
        seq![Seq::empty()]
    } else {
        let prev = comma_pieces(s.drop_last());
        if s.last() == ',' {
            prev.push(Seq::empty())
        } else {
            prev.update(prev.len() - 1, prev.last().push(s.last()))
        }
    }
}

/// The trimmed, non-empty pieces among the first `n` pieces.
pub open spec fn kept_codes(pieces: Seq<Seq<char>>, n: int) -> Seq<Seq<char>>
    decreases n,
{
    if n <= 0 {
        Seq::empty()
    } else if trim_white(pieces[n - 1]).len() == 0 {
        kept_codes(pieces, n - 1)
    } else {
        kept_codes(pieces, n - 1).push(trim_white(pieces[n - 1]))
    }
}

/// The codes of a comma-separated list: each piece trimmed, empty
/// pieces left out.
pub open spec fn code_list(s: Seq<char>) -> Seq<Seq<char>> {
    kept_codes(comma_pieces(s), comma_pieces(s).len() as int)
}

proof fn lemma_comma_pieces_nonempty(s: Seq<char>)
    ensures
        comma_pieces(s).len() >= 1,
    decreases s.len(),
{
    if s.len() > 0 {
        lemma_comma_pieces_nonempty(s.drop_last());
    }
}

/// Split a comma-separated list of codes.
pub fn split_codes(s: &str) -> (r: Vec<String>)
    ensures
        string_views(r@) == code_list(s@),
{
    let v = chars_of(s);
    let mut out: Vec<String> = Vec::new();
    let mut piece: Vec<char> = Vec::new();
    let mut i: usize = 0;
    proof {
        assert(v@.take(0) =~= Seq::<char>::empty());
        assert(comma_pieces(v@.take(0)) =~= seq![Seq::<char>::empty()]);
        assert(string_views(out@) =~= kept_codes(comma_pieces(v@.take(0)), 0));
    }
    while i < v.len()
        invariant
            i <= v@.len(),
            comma_pieces(v@.take(i as int)).len() >= 1,
            piece@ == comma_pieces(v@.take(i as int)).last(),
            string_views(out@) == kept_codes(
                comma_pieces(v@.take(i as int)),
                comma_pieces(v@.take(i as int)).len() - 1,
            ),
        decreases v@.len() - i,
    {
        let ghost pre = comma_pieces(v@.take(i as int));
        proof {
            assert(v@.take(i + 1).drop_last() =~= v@.take(i as int));
            assert(v@.take(i + 1).last() == v@[i as int]);
        }
        if v[i] == ',' {
            let t = trim(&piece);
            if !t.as_str().is_empty() {
                let ghost before = out@;
                out.push(t);
                proof {
                    assert(string_views(out@) =~= string_views(before).push(t@));
                }
            }
            piece = Vec::new();
            proof {
                let now = comma_pieces(v@.take(i + 1));
                assert(now == pre.push(Seq::empty()));
                assert(now[pre.len() - 1] == pre.last());
                assert(kept_codes(now, now.len() - 1) == kept_codes(now, pre.len() as int));
                assert(kept_codes(now, pre.len() - 1) =~= kept_codes(pre, pre.len() - 1)) by {
                    lemma_kept_prefix(pre, now, pre.len() - 1);
                }
                assert(piece@ =~= Seq::<char>::empty());
            }
        } else {
            piece.push(v[i]);
            proof {
                let now = comma_pieces(v@.take(i + 1));
                assert(now == pre.update(pre.len() - 1, pre.last().push(v@[i as int])));
                assert(kept_codes(now, now.len() - 1) =~= kept_codes(pre, pre.len() - 1)) by {
                    lemma_kept_prefix(pre, now, pre.len() - 1);
                }
            }
        }
        i = i + 1;
    }
    let t = trim(&piece);
    let ghost pre = comma_pieces(v@.take(i as int));
    if !t.as_str().is_empty() {
        let ghost before = out@;
        out.push(t);
        proof {
            assert(string_views(out@) =~= string_views(before).push(t@));
        }
    }
    proof {
        assert(v@.take(v@.len() as int) =~= v@);
    }
    out
}

proof fn lemma_kept_prefix(a: Seq<Seq<char>>, b: Seq<Seq<char>>, n: int)
    requires
        0 <= n <= a.len(),
        n <= b.len(),
        forall|k: int| 0 <= k < n ==> a[k] == b[k],
    ensures
        kept_codes(a, n) == kept_codes(b, n),
    decreases n,
{
    if n > 0 {
        lemma_kept_prefix(a, b, n - 1);
    }
}

impl AffectedSegment {
    /// Get the line of the segment, where its code is a known one.
    pub fn train_line(&self) -> (r: Option<TrainLine>)
        ensures
            r == line_of_code(self.line@),
    {
        parse_train_line(self.line.as_str())
    }

    /// Get the affected station codes.
    pub fn station_codes(&self) -> (r: Vec<String>)
        ensures
            string_views(r@) == code_list(self.stations@),
    {
        split_codes(self.stations.as_str())
    }

    /// Get the station codes with free public bus service.
    pub fn free_public_bus_codes(&self) -> (r: Vec<String>)
        ensures
            string_views(r@) == code_list(self.free_public_bus@),
    {
        split_codes(self.free_public_bus.as_str())
    }
}

// ----------------------------------------------------------------------
// The network status
// ----------------------------------------------------------------------

/// The live state of one line.
#[derive(Clone, Debug)]
pub enum LineState {
    /// The line operates as normal.
    Normal,
    /// A part of the line is disrupted.
    Disrupted {
        /// The affected station codes, for example `NE1`.
        stations: Vec<String>,
        /// The affected direction, as the alert reports it.
        direction: String,
        /// The station codes with free public bus service.
        free_public_bus: Vec<String>,
    },
}

/// Whether a line state is the disruption that a segment reports, or
/// normal service without one.
pub open spec fn state_of_segment(state: LineState, segment: Option<AffectedSegment>) -> bool {
    match segment {
        None => state is Normal,
        Some(seg) => match state {
            LineState::Normal => false,
            LineState::Disrupted { stations, direction, free_public_bus } => string_views(
                stations@,
            ) == code_list(seg.stations@) && direction@ == seg.direction@ && string_views(
                free_public_bus@,
            ) == code_list(seg.free_public_bus@),
        },
    }
}

/// The disruption that a segment reports.
pub fn segment_state(segment: &AffectedSegment) -> (s: LineState)
    ensures
        state_of_segment(s, Some(*segment)),
{
    LineState::Disrupted {
        stations: segment.station_codes(),
        direction: owned(segment.direction.as_str()),
        free_public_bus: segment.free_public_bus_codes(),
    }
}

/// The live status of one line.
#[derive(Clone, Debug)]
pub struct LineStatus {
    /// The line.
    pub line: TrainLine,
    /// The state of the line.
    pub state: LineState,
}

impl LineStatus {
    /// Report whether the line is disrupted.
    pub fn is_disrupted(&self) -> (b: bool)
        ensures
            b == (self.state is Disrupted),
    {
        match self.state {
            LineState::Disrupted { .. } => true,
            LineState::Normal => false,
        }
    }
}

/// The live status of the whole rail network.
///
/// It always holds one entry per known line, so a status board can
/// render a stable list.
#[derive(Clone, Debug)]
pub struct NetworkStatus {
    /// The overall service status.
    pub overall: ServiceStatus,
    /// The status of every known line.
    pub lines: Vec<LineStatus>,
    /// The public alert messages.
    pub messages: Vec<String>,
}

/// The last segment among the first `n` whose line is a given one.
pub open spec fn last_segment_of(segs: Seq<AffectedSegment>, line: TrainLine, n: int) -> Option<
    AffectedSegment,
>
    decreases n,
{
    if n <= 0 {
        None
    } else if line_of_code(segs[n - 1].line@) == Some(line) {
        Some(segs[n - 1])
    } else {
        last_segment_of(segs, line, n - 1)
    }
}

/// The contents of the messages.
pub open spec fn message_texts(ms: Seq<AlertMessage>) -> Seq<Seq<char>> {
    ms.map_values(|m: AlertMessage| m.content@)
}

/// Whether a status holds every known line in order, each in the state
/// that the last segment naming it reports.
pub open spec fn status_of_alerts(status: NetworkStatus, alerts: TrainServiceAlerts) -> bool {
    &&& status.overall == alerts.status
    &&& status.lines@.len() == all_lines().len()
    &&& forall|i: int|
        0 <= i < status.lines@.len() ==> (#[trigger] status.lines@[i]).line == all_lines()[i]
            && state_of_segment(
            status.lines@[i].state,
            last_segment_of(
                alerts.affected_segments@,
                all_lines()[i],
                alerts.affected_segments@.len() as int,
            ),
        )
    &&& string_views(status.messages@) == message_texts(alerts.messages@)
}

fn message_contents(ms: &Vec<AlertMessage>) -> (r: Vec<String>)
    ensures
        string_views(r@) == message_texts(ms@),
{
    let mut out: Vec<String> = Vec::new();
    let mut i: usize = 0;
    while i < ms.len()
        invariant
            i <= ms@.len(),
            string_views(out@) == message_texts(ms@.take(i as int)),
        decreases ms@.len() - i,
    {
        let ghost before = out@;
        out.push(owned(ms[i].content.as_str()));
        proof {
            assert(string_views(out@) =~= string_views(before).push(ms@[i as int].content@));
            assert(message_texts(ms@.take(i + 1)) =~= message_texts(ms@.take(i as int)).push(
                ms@[i as int].content@,
            ));
        }
        i = i + 1;
    }
    proof {
        assert(ms@.take(ms@.len() as int) =~= ms@);
    }
    out
}

fn line_state_from(alerts: &TrainServiceAlerts, line: TrainLine) -> (s: LineState)
    ensures
        state_of_segment(
            s,
            last_segment_of(alerts.affected_segments@, line, alerts.affected_segments@.len() as int),
        ),
{
    let segs = &alerts.affected_segments;
    let mut n = segs.len();
    while n > 0
        invariant
            n <= segs@.len(),
            segs@ == alerts.affected_segments@,
            last_segment_of(segs@, line, segs@.len() as int) == last_segment_of(segs@, line, n as int),
        decreases n,
    {
        match segs[n - 1].train_line() {
            Some(l) => {
                if l == line {
                    proof {
                        assert(line_of_code(segs@[n - 1].line@) == Some(line));
                        assert(last_segment_of(segs@, line, n as int) == Some(segs@[n - 1]));
                    }
                    let s = segment_state(&segs[n - 1]);
                    return s;
                }
            },
            None => {},
        }
        n = n - 1;
    }
    LineState::Normal
}

impl NetworkStatus {
    /// Build the network status from the operator's alerts.
    pub fn from_alerts(alerts: &TrainServiceAlerts) -> (status: NetworkStatus)
        ensures
            status_of_alerts(status, *alerts),
    {
        let all = TrainLine::all();
        let mut lines: Vec<LineStatus> = Vec::new();
        let mut i: usize = 0;
        while i < all.len()
            invariant
                i <= all@.len(),
                all@ == all_lines(),
                lines@.len() == i,
                forall|k: int|
                    0 <= k < i ==> (#[trigger] lines@[k]).line == all_lines()[k] && state_of_segment(
                        lines@[k].state,
                        last_segment_of(
                            alerts.affected_segments@,
                            all_lines()[k],
                            alerts.affected_segments@.len() as int,
                        ),
                    ),
            decreases all@.len() - i,
        {
            lines.push(LineStatus { line: all[i], state: line_state_from(alerts, all[i]) });
            i = i + 1;
        }
        NetworkStatus {
            overall: alerts.status,
            lines,
            messages: message_contents(&alerts.messages),
        }
    }

    /// Get the status of one line.
    pub fn line(&self, line: TrainLine) -> (s: &LineStatus)
        requires
            exists|i: int| 0 <= i < self.lines@.len() && self.lines@[i].line == line,
        ensures
            s.line == line,
            exists|i: int| 0 <= i < self.lines@.len() && self.lines@[i] == *s && forall|j: int|
                0 <= j < i ==> self.lines@[j].line != line,
    {
        let mut i: usize = 0;
        while i < self.lines.len()
            invariant
                i <= self.lines@.len(),
                exists|k: int| i <= k < self.lines@.len() && self.lines@[k].line == line,
                forall|j: int| 0 <= j < i ==> self.lines@[j].line != line,
            decreases self.lines@.len() - i,
        {
            if self.lines[i].line == line {
                return &self.lines[i];
            }
            i = i + 1;
        }
        &self.lines[0]
    }
}

/// A status built from alerts holds every known line, so looking up
/// any line of it succeeds.
pub proof fn lemma_status_holds_every_line(
    status: NetworkStatus,
    alerts: TrainServiceAlerts,
    line: TrainLine,
)
    requires
        status_of_alerts(status, alerts),
    ensures
        exists|i: int| 0 <= i < status.lines@.len() && status.lines@[i].line == line,
{
    let i: int = match line {
        TrainLine::NSL => 0,
        TrainLine::EWL => 1,
        TrainLine::NEL => 2,
        TrainLine::CCL => 3,
        TrainLine::DTL => 4,
        TrainLine::TEL => 5,
        TrainLine::BPL => 6,
        TrainLine::SLRT => 7,
        TrainLine::PLRT => 8,
        TrainLine::CGL => 9,
    };
    assert(status.lines@[i].line == line);
}

// ----------------------------------------------------------------------
// Platform crowding
// ----------------------------------------------------------------------

/// How crowded a platform is.
#[derive(Copy, Clone, Debug, PartialEq, Eq, Structural)]
pub enum CrowdLevel {
    /// The operator does not know.
    Unknown,
    /// Few passengers.
    Low,
    /// Some passengers.
    Moderate,
    /// Many passengers.
    High,
}

/// One live crowd record of a station.
#[derive(Clone, Debug)]
pub struct PlatformCrowd {
    /// The station code, for example `NS4`.
    pub station: String,
    /// The start of the period, as the operator writes it.
    pub start_time: String,
    /// The end of the period, as the operator writes it.
    pub end_time: String,
    /// The crowd level.
    pub crowd_level: CrowdLevel,
}

/// The rank of a crowd level; higher means more crowded.
pub open spec fn severity_of(level: CrowdLevel) -> u8 {
    match level {
        CrowdLevel::Unknown => 0,
        CrowdLevel::Low => 1,
        CrowdLevel::Moderate => 2,
        CrowdLevel::High => 3,
    }
}

/// Rank a crowd level for comparisons. Higher means more crowded.
pub fn crowd_severity(level: CrowdLevel) -> (r: u8)
    ensures
        r == severity_of(level),
{
    match level {
        CrowdLevel::Unknown => 0,
        CrowdLevel::Low => 1,
        CrowdLevel::Moderate => 2,
        CrowdLevel::High => 3,
    }
}

/// The fragment of its official name by which a route name names each
/// line: "Downtown Line" names the DTL, "Thomson-East Coast Line" the
/// TEL, and so on.
pub open spec fn official_fragment(l: TrainLine) -> Seq<char> {
    match l {
        TrainLine::NSL => "NORTH SOUTH"@,
        TrainLine::EWL => "EAST WEST"@,
        TrainLine::NEL => "NORTH EAST"@,
        TrainLine::CCL => "CIRCLE"@,
        TrainLine::DTL => "DOWNTOWN"@,
        TrainLine::TEL => "THOMSON"@,
        TrainLine::BPL => "BUKIT PANJANG"@,
        TrainLine::SLRT => "SENGKANG"@,
        TrainLine::PLRT => "PUNGGOL"@,
        TrainLine::CGL => "CHANGI"@,
    }
}

/// A GTFS line whose short name is a line's code is that line.
pub proof fn lemma_a_line_code_names_its_line(line: Line, l: TrainLine)
    requires
        line.name@ == line_code(l),
    ensures
        match_line_spec(line) == Some(l),
{
    reveal_strlit("NSL");
    reveal_strlit("EWL");
    reveal_strlit("NEL");
    reveal_strlit("CCL");
    reveal_strlit("DTL");
    reveal_strlit("TEL");
    reveal_strlit("BPL");
    reveal_strlit("SLRT");
    reveal_strlit("PLRT");
    reveal_strlit("CGL");
    reveal_with_fuel(line_of_code_from, 11);
    assert(line_code(l).len() >= 3);
    assert(line_of_code(line.name@) == Some(l)) by {
        if l == TrainLine::NSL {
        } else if l == TrainLine::EWL {
            assert(line_code(l)[0] != line_code(TrainLine::NSL)[0]);
        } else if l == TrainLine::NEL {
            assert(line_code(l)[1] != line_code(TrainLine::NSL)[1]);
            assert(line_code(l)[0] != line_code(TrainLine::EWL)[0]);
        } else if l == TrainLine::CCL {
            assert(line_code(l)[0] != line_code(TrainLine::NSL)[0]);
            assert(line_code(l)[0] != line_code(TrainLine::EWL)[0]);
            assert(line_code(l)[0] != line_code(TrainLine::NEL)[0]);
        } else if l == TrainLine::DTL {
            assert(line_code(l)[0] != line_code(TrainLine::NSL)[0]);
            assert(line_code(l)[0] != line_code(TrainLine::EWL)[0]);
            assert(line_code(l)[0] != line_code(TrainLine::NEL)[0]);
            assert(line_code(l)[0] != line_code(TrainLine::CCL)[0]);
        } else if l == TrainLine::TEL {
            assert(line_code(l)[0] != line_code(TrainLine::NSL)[0]);
            assert(line_code(l)[0] != line_code(TrainLine::EWL)[0]);
            assert(line_code(l)[0] != line_code(TrainLine::NEL)[0]);
            assert(line_code(l)[0] != line_code(TrainLine::CCL)[0]);
            assert(line_code(l)[0] != line_code(TrainLine::DTL)[0]);
        } else if l == TrainLine::BPL {
            assert(line_code(l)[0] != line_code(TrainLine::NSL)[0]);
            assert(line_code(l)[0] != line_code(TrainLine::EWL)[0]);
            assert(line_code(l)[0] != line_code(TrainLine::NEL)[0]);
            assert(line_code(l)[0] != line_code(TrainLine::CCL)[0]);
            assert(line_code(l)[0] != line_code(TrainLine::DTL)[0]);
            assert(line_code(l)[0] != line_code(TrainLine::TEL)[0]);
        } else if l == TrainLine::SLRT {
            assert(line_code(l)[0] != line_code(TrainLine::NSL)[0]);
            assert(line_code(l)[0] != line_code(TrainLine::EWL)[0]);
            assert(line_code(l)[0] != line_code(TrainLine::NEL)[0]);
            assert(line_code(l)[0] != line_code(TrainLine::CCL)[0]);
            assert(line_code(l)[0] != line_code(TrainLine::DTL)[0]);
            assert(line_code(l)[0] != line_code(TrainLine::TEL)[0]);
            assert(line_code(l)[0] != line_code(TrainLine::BPL)[0]);
        } else if l == TrainLine::PLRT {
            assert(line_code(l)[0] != line_code(TrainLine::NSL)[0]);
            assert(line_code(l)[0] != line_code(TrainLine::EWL)[0]);
            assert(line_code(l)[0] != line_code(TrainLine::NEL)[0]);
            assert(line_code(l)[0] != line_code(TrainLine::CCL)[0]);
            assert(line_code(l)[0] != line_code(TrainLine::DTL)[0]);
            assert(line_code(l)[0] != line_code(TrainLine::TEL)[0]);
            assert(line_code(l)[0] != line_code(TrainLine::BPL)[0]);
            assert(line_code(l)[0] != line_code(TrainLine::SLRT)[0]);
        } else if l == TrainLine::CGL {
            assert(line_code(l)[0] != line_code(TrainLine::NSL)[0]);
            assert(line_code(l)[0] != line_code(TrainLine::EWL)[0]);
            assert(line_code(l)[0] != line_code(TrainLine::NEL)[0]);
            assert(line_code(l)[1] != line_code(TrainLine::CCL)[1]);
            assert(line_code(l)[0] != line_code(TrainLine::DTL)[0]);
            assert(line_code(l)[0] != line_code(TrainLine::TEL)[0]);
            assert(line_code(l)[0] != line_code(TrainLine::BPL)[0]);
            assert(line_code(l)[0] != line_code(TrainLine::SLRT)[0]);
            assert(line_code(l)[0] != line_code(TrainLine::PLRT)[0]);
        }
    }
}

/// A GTFS line whose short name is no line code, and whose names
/// mention exactly one line by its official name, is that line. So a
/// route "DT" with the long name "Downtown Line" is the DTL.
pub proof fn lemma_a_line_named_once_is_that_line(line: Line, l: TrainLine)
    requires
        line_of_code(line.name@) is None,
        contains_seq(route_text(line), official_fragment(l)),
        forall|m: TrainLine| m != l ==> !contains_seq(route_text(line), #[trigger] official_fragment(m)),
    ensures
        match_line_spec(line) == Some(l),
{
    let text = route_text(line);
    reveal_with_fuel(needle_from, 11);
    assert(name_needles()[0] == (official_fragment(TrainLine::NSL), TrainLine::NSL));
    assert(name_needles()[1] == (official_fragment(TrainLine::EWL), TrainLine::EWL));
    assert(name_needles()[2] == (official_fragment(TrainLine::NEL), TrainLine::NEL));
    assert(name_needles()[3] == (official_fragment(TrainLine::CCL), TrainLine::CCL));
    assert(name_needles()[4] == (official_fragment(TrainLine::DTL), TrainLine::DTL));
    assert(name_needles()[5] == (official_fragment(TrainLine::TEL), TrainLine::TEL));
    assert(name_needles()[6] == (official_fragment(TrainLine::BPL), TrainLine::BPL));
    assert(name_needles()[7] == (official_fragment(TrainLine::SLRT), TrainLine::SLRT));
    assert(name_needles()[8] == (official_fragment(TrainLine::PLRT), TrainLine::PLRT));
    assert(name_needles()[9] == (official_fragment(TrainLine::CGL), TrainLine::CGL));
    let m0 = contains_seq(text, official_fragment(TrainLine::NSL));
    let m1 = contains_seq(text, official_fragment(TrainLine::EWL));
    let m2 = contains_seq(text, official_fragment(TrainLine::NEL));
    let m3 = contains_seq(text, official_fragment(TrainLine::CCL));
    let m4 = contains_seq(text, official_fragment(TrainLine::DTL));
    let m5 = contains_seq(text, official_fragment(TrainLine::TEL));
    let m6 = contains_seq(text, official_fragment(TrainLine::BPL));
    let m7 = contains_seq(text, official_fragment(TrainLine::SLRT));
    let m8 = contains_seq(text, official_fragment(TrainLine::PLRT));
    let m9 = contains_seq(text, official_fragment(TrainLine::CGL));
}

} // verus!
