//! The sections of the map that a line disruption marks.
//!
//! An alert names the affected stations by their codes. The map marks
//! the edges of the disrupted line whose two stations the alert names
//! and the layout draws, one mark per pair of stations; a code that
//! reaches no drawn station is reported, and a disruption that marks
//! no edge is reported too, so that the renderer marks the whole line
//! rather than a guessed section.

use vstd::prelude::*;

use crate::common::{Diagnostic, Severity};
use crate::layout::code_key;
use crate::map::{MapEdge, MapLine, MapStation, NetworkSnapshot};
use crate::ribbons::{first_answering, station_by_code};
use crate::status::LineState;
use crate::textbuf::owned;
use crate::timetable::opt_view;

verus! {

/// The network station that a code names on the map, when one does.
pub open spec fn code_station(stations: Seq<MapStation>, code: Seq<char>) -> Option<usize> {
    match first_answering(stations, code_key(code), 0) {
        Some(i) => Some(stations[i].station),
        None => None,
    }
}

/// Whether the map draws a network station.
pub open spec fn is_drawn(drawn: Seq<bool>, s: usize) -> bool {
    s < drawn.len() && drawn[s as int]
}

/// Whether one of the first `n` codes of an alert names the station
/// `s`, and the map draws it.
pub open spec fn affected(
    stations: Seq<MapStation>,
    codes: Seq<String>,
    drawn: Seq<bool>,
    n: int,
    s: usize,
) -> bool {
    &&& is_drawn(drawn, s)
    &&& exists|k: int|
        0 <= k < n && k < codes.len() && #[trigger] code_station(stations, codes[k]@) == Some(s)
}

/// Whether two edges join the same two stations, in either direction.
pub open spec fn same_pair(a: MapEdge, b: MapEdge) -> bool {
    (a.from == b.from && a.to == b.to) || (a.from == b.to && a.to == b.from)
}

/// Whether the edge at index `i` may carry the mark of a disruption of
/// `line`: it belongs to the line, the alert names both of its
/// stations, and the map drew its section.
pub open spec fn markable(
    stations: Seq<MapStation>,
    codes: Seq<String>,
    drawn: Seq<bool>,
    has_section: Seq<bool>,
    line: usize,
    e: MapEdge,
    i: int,
) -> bool {
    &&& e.line == line
    &&& affected(stations, codes, drawn, codes.len() as int, e.from)
    &&& affected(stations, codes, drawn, codes.len() as int, e.to)
    &&& 0 <= i < has_section.len()
    &&& has_section[i]
}

/// The indices of the edges among the first `n` that a disruption of
/// `line` marks: each markable edge whose two stations no edge marked
/// before it joins.
pub open spec fn marked_edges(
    edges: Seq<MapEdge>,
    stations: Seq<MapStation>,
    codes: Seq<String>,
    drawn: Seq<bool>,
    has_section: Seq<bool>,
    line: usize,
    n: int,
) -> Seq<usize>
    decreases n,
{
    if n <= 0 {
        Seq::empty()
    } else {
        let prev = marked_edges(edges, stations, codes, drawn, has_section, line, n - 1);
        if markable(stations, codes, drawn, has_section, line, edges[n - 1], n - 1) && !(exists|j: int|
            0 <= j < prev.len() && #[trigger] same_pair(edges[prev[j] as int], edges[n - 1])) {
            prev.push((n - 1) as usize)
        } else {
            prev
        }
    }
}

/// A diagnostic as its severity, its code, its message and its subject.
pub open spec fn finding_view(d: Diagnostic) -> (Severity, Seq<char>, Seq<char>, Option<Seq<char>>) {
    (d.severity, d.code@, d.message@, opt_view(d.subject))
}

/// What the map reports on the first `n` codes of an alert: a code
/// that names no station, and one whose station the map does not draw.
pub open spec fn code_findings(
    stations: Seq<MapStation>,
    codes: Seq<String>,
    drawn: Seq<bool>,
    n: int,
) -> Seq<(Severity, Seq<char>, Seq<char>, Option<Seq<char>>)>
    decreases n,
{
    if n <= 0 {
        Seq::empty()
    } else {
        let prev = code_findings(stations, codes, drawn, n - 1);
        let c = codes[n - 1]@;
        match code_station(stations, c) {
            None => prev.push((Severity::Warning, "map-disruption-station-unknown"@, "no station of the network answers the code the alert names, so the mark cannot reach it"@, Some(c))),
            Some(s) => if is_drawn(drawn, s) {
                prev
            } else {
                prev.push((Severity::Warning, "map-disruption-station-undrawn"@, "the alert names a station that the layout draws nowhere, so the mark cannot reach it"@, Some(c)))
            },
        }
    }
}

/// What the map marks for one disrupted line.
pub struct DisruptionMark {
    /// The disrupted line.
    pub line: usize,
    /// The indices of the marked edges in the snapshot, in edge order.
    pub edges: Vec<usize>,
    /// What the map reports on the disruption.
    pub diagnostics: Vec<Diagnostic>,
}

/// Whether a mark is what the map makes of a disruption of `line`
/// that names `codes`.
pub open spec fn mark_is(
    snapshot: NetworkSnapshot,
    drawn: Seq<bool>,
    has_section: Seq<bool>,
    line: usize,
    name: Seq<char>,
    codes: Seq<String>,
    m: DisruptionMark,
) -> bool {
    let marked = marked_edges(
        snapshot.edges@,
        snapshot.stations@,
        codes,
        drawn,
        has_section,
        line,
        snapshot.edges@.len() as int,
    );
    &&& m.line == line
    &&& m.edges@ == marked
    &&& m.diagnostics@.map_values(|d: Diagnostic| finding_view(d)) == code_findings(
        snapshot.stations@,
        codes,
        drawn,
        codes.len() as int,
    ) + (if marked.len() == 0 {
        seq![(Severity::Info, "map-disruption-without-segment"@, "the alert names no two neighbouring stations of this line, so the map marks the whole line rather than a guessed section"@, Some(name))]
    } else {
        Seq::empty()
    })
}

fn holds(v: &Vec<usize>, x: usize) -> (b: bool)
    ensures
        b == v@.contains(x),
{
    let mut i: usize = 0;
    while i < v.len()
        invariant
            i <= v@.len(),
            forall|j: int| 0 <= j < i ==> v@[j] != x,
        decreases v@.len() - i,
    {
        if v[i] == x {
            return true;
        }
        i = i + 1;
    }
    false
}

/// Mark the disruption of one line.
fn mark_line(
    snapshot: &NetworkSnapshot,
    drawn: &Vec<bool>,
    has_section: &Vec<bool>,
    line: usize,
    name: &String,
    codes: &Vec<String>,
) -> (m: DisruptionMark)
    ensures
        mark_is(*snapshot, drawn@, has_section@, line, name@, codes@, m),
{
    let ghost ss = snapshot.stations@;
    let ghost es = snapshot.edges@;
    let ghost f = |d: Diagnostic| finding_view(d);
    let mut diagnostics: Vec<Diagnostic> = Vec::new();
    let mut reached: Vec<usize> = Vec::new();
    let mut k: usize = 0;
    while k < codes.len()
        invariant
            k <= codes@.len(),
            ss == snapshot.stations@,
            f == (|d: Diagnostic| finding_view(d)),
            diagnostics@.map_values(f) == code_findings(ss, codes@, drawn@, k as int),
            forall|s: usize| affected(ss, codes@, drawn@, k as int, s) <==> reached@.contains(s),
        decreases codes@.len() - k,
    {
        let code = codes[k].as_str();
        let found = station_by_code(snapshot, code);
        let ghost before = diagnostics@;
        let ghost reached_before = reached@;
        proof {
            assert(code_station(ss, codes@[k as int]@) == found);
        }
        match found {
            None => {
                diagnostics.push(
                    Diagnostic::warning(
                        "map-disruption-station-unknown",
                        owned(
                            "no station of the network answers the code the alert names, so the mark cannot reach it",
                        ),
                    ).about(code),
                );
                proof {
                    assert(diagnostics@.map_values(f) =~= before.map_values(f).push(
                        (Severity::Warning, "map-disruption-station-unknown"@, "no station of the network answers the code the alert names, so the mark cannot reach it"@, Some(codes@[k as int]@)),
                    ));
                }
            },
            Some(s) => {
                if s < drawn.len() && drawn[s] {
                    reached.push(s);
                } else {
                    diagnostics.push(
                        Diagnostic::warning(
                            "map-disruption-station-undrawn",
                            owned(
                                "the alert names a station that the layout draws nowhere, so the mark cannot reach it",
                            ),
                        ).about(code),
                    );
                    proof {
                        assert(diagnostics@.map_values(f) =~= before.map_values(f).push(
                            (Severity::Warning, "map-disruption-station-undrawn"@, "the alert names a station that the layout draws nowhere, so the mark cannot reach it"@, Some(codes@[k as int]@)),
                        ));
                    }
                }
            },
        }
        proof {
            assert forall|s: usize| affected(ss, codes@, drawn@, k + 1, s) <==> reached@.contains(s) by {
                if affected(ss, codes@, drawn@, k + 1, s) {
                    let j = choose|j: int|
                        0 <= j < k + 1 && j < codes@.len() && #[trigger] code_station(ss, codes@[j]@) == Some(s);
                    if j < k {
                        assert(affected(ss, codes@, drawn@, k as int, s));
                        assert(reached_before.contains(s));
                        let x = choose|x: int| 0 <= x < reached_before.len() && reached_before[x] == s;
                        assert(reached@[x] == s);
                    } else {
                        assert(reached@.last() == s);
                    }
                }
                if reached@.contains(s) {
                    let x = choose|x: int| 0 <= x < reached@.len() && reached@[x] == s;
                    if x < reached_before.len() {
                        assert(reached_before[x] == s);
                        assert(reached_before.contains(s));
                        assert(affected(ss, codes@, drawn@, k as int, s));
                    } else {
                        assert(code_station(ss, codes@[k as int]@) == Some(s));
                    }
                }
            }
        }
        k = k + 1;
    }
    let ghost n_codes = codes@.len() as int;
    let mut marked: Vec<usize> = Vec::new();
    let mut e: usize = 0;
    while e < snapshot.edges.len()
        invariant
            e <= es.len(),
            es == snapshot.edges@,
            ss == snapshot.stations@,
            n_codes == codes@.len(),
            forall|s: usize| affected(ss, codes@, drawn@, n_codes, s) <==> reached@.contains(s),
            marked@ == marked_edges(es, ss, codes@, drawn@, has_section@, line, e as int),
            forall|j: int| 0 <= j < marked@.len() ==> #[trigger] marked@[j] < e,
        decreases es.len() - e,
    {
        let edge = &snapshot.edges[e];
        let ok = edge.line == line && holds(&reached, edge.from) && holds(&reached, edge.to) && e
            < has_section.len() && has_section[e];
        proof {
            assert(ok == markable(ss, codes@, drawn@, has_section@, line, es[e as int], e as int));
        }
        let ghost prev = marked@;
        if ok {
            let mut seen = false;
            let mut j: usize = 0;
            while j < marked.len()
                invariant
                    j <= marked@.len(),
                    marked@ == prev,
                    es == snapshot.edges@,
                    e < es.len(),
                    *edge == es[e as int],
                    forall|x: int| 0 <= x < marked@.len() ==> #[trigger] marked@[x] < e,
                    seen <==> exists|x: int|
                        0 <= x < j && #[trigger] same_pair(es[marked@[x] as int], es[e as int]),
                decreases marked@.len() - j,
            {
                let other = &snapshot.edges[marked[j]];
                if (other.from == edge.from && other.to == edge.to) || (other.from == edge.to
                    && other.to == edge.from) {
                    seen = true;
                    proof {
                        assert(same_pair(es[marked@[j as int] as int], es[e as int]));
                    }
                }
                j = j + 1;
            }
            if !seen {
                marked.push(e);
            }
        }
        proof {
            assert(marked@ =~= marked_edges(es, ss, codes@, drawn@, has_section@, line, e + 1));
        }
        e = e + 1;
    }
    let ghost before = diagnostics@;
    if marked.len() == 0 {
        diagnostics.push(
            Diagnostic::info(
                "map-disruption-without-segment",
                owned(
                    "the alert names no two neighbouring stations of this line, so the map marks the whole line rather than a guessed section",
                ),
            ).about(name.as_str()),
        );
        proof {
            assert(diagnostics@.map_values(f) =~= before.map_values(f).push(
                (Severity::Info, "map-disruption-without-segment"@, "the alert names no two neighbouring stations of this line, so the map marks the whole line rather than a guessed section"@, Some(name@)),
            ));
        }
    }
    proof {
        assert(diagnostics@.map_values(f) =~= code_findings(ss, codes@, drawn@, n_codes) + (if marked@.len()
            == 0 {
            seq![(Severity::Info, "map-disruption-without-segment"@, "the alert names no two neighbouring stations of this line, so the map marks the whole line rather than a guessed section"@, Some(name@))]
        } else {
            Seq::empty()
        }));
    }
    DisruptionMark { line, edges: marked, diagnostics }
}

/// The indices of the disrupted lines among the first `n`.
pub open spec fn disrupted_lines(lines: Seq<MapLine>, n: int) -> Seq<int>
    decreases n,
{
    if n <= 0 {
        Seq::empty()
    } else if lines[n - 1].state is Disrupted {
        disrupted_lines(lines, n - 1).push(n - 1)
    } else {
        disrupted_lines(lines, n - 1)
    }
}

/// Whether a mark is what the map makes of the disrupted line `l`.
pub open spec fn marks_line(
    snapshot: NetworkSnapshot,
    drawn: Seq<bool>,
    has_section: Seq<bool>,
    l: MapLine,
    m: DisruptionMark,
) -> bool {
    match l.state {
        LineState::Disrupted { stations, .. } => mark_is(
            snapshot,
            drawn,
            has_section,
            l.line,
            l.name@,
            stations@,
            m,
        ),
        LineState::Normal => false,
    }
}

/// Mark every disrupted line of a snapshot, in line order.
///
/// `drawn[s]` says whether the map draws the network station `s`, and
/// `has_section[i]` whether it drew the section of the snapshot's edge
/// `i`; both come from the geometry, which is the renderer's.
pub fn disruption_marks(snapshot: &NetworkSnapshot, drawn: &Vec<bool>, has_section: &Vec<bool>) -> (r: Vec<
    DisruptionMark,
>)
    ensures
        r@.len() == disrupted_lines(snapshot.lines@, snapshot.lines@.len() as int).len(),
        forall|k: int|
            0 <= k < r@.len() ==> marks_line(
                *snapshot,
                drawn@,
                has_section@,
                snapshot.lines@[disrupted_lines(snapshot.lines@, snapshot.lines@.len() as int)[k]],
                #[trigger] r@[k],
            ),
{
    let ghost ls = snapshot.lines@;
    let mut out: Vec<DisruptionMark> = Vec::new();
    let mut i: usize = 0;
    while i < snapshot.lines.len()
        invariant
            i <= ls.len(),
            ls == snapshot.lines@,
            out@.len() == disrupted_lines(ls, i as int).len(),
            forall|k: int|
                0 <= k < out@.len() ==> marks_line(
                    *snapshot,
                    drawn@,
                    has_section@,
                    ls[disrupted_lines(ls, i as int)[k]],
                    #[trigger] out@[k],
                ),
        decreases ls.len() - i,
    {
        let line = &snapshot.lines[i];
        let ghost before = out@;
        match &line.state {
            LineState::Disrupted { stations, .. } => {
                let m = mark_line(snapshot, drawn, has_section, line.line, &line.name, stations);
                out.push(m);
                proof {
                    assert(disrupted_lines(ls, i + 1) == disrupted_lines(ls, i as int).push(i as int));
                    assert forall|k: int| 0 <= k < out@.len() implies marks_line(
                        *snapshot,
                        drawn@,
                        has_section@,
                        ls[disrupted_lines(ls, i + 1)[k]],
                        #[trigger] out@[k],
                    ) by {
                        if k < before.len() {
                            assert(out@[k] == before[k]);
                        }
                    }
                }
            },
            LineState::Normal => {
                proof {
                    assert(disrupted_lines(ls, i + 1) == disrupted_lines(ls, i as int));
                }
            },
        }
        i = i + 1;
    }
    out
}

} // verus!
