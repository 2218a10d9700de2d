//! What the map draws on each ribbon of the layout: the station a code
//! names, the network line a ribbon carries, and the colour it is
//! painted in.
//!
//! The geometry itself is floating point and lives with the renderer;
//! these are the decisions it makes on plain values.

use vstd::prelude::*;

use crate::layout::{code_key, key_of, BoundLayout, LayoutLine, LayoutStation};
use crate::map::{MapEdge, MapLine, MapStation, NetworkSnapshot};
use crate::escape::all_hex;
use crate::mapweb::{
    alpha_prefix, feed_color, feed_color_spec, lemma_feed_color_is_literal, palette_color,
    palette_entry, NEUTRAL,
};
use crate::textbuf::{chars_eq, owned, str_eq};

verus! {

// ----------------------------------------------------------------------
// Stations by code
// ----------------------------------------------------------------------

/// Whether a station of the snapshot answers to a code key.
pub open spec fn map_station_answers(s: MapStation, key: Seq<char>) -> bool {
    exists|k: int| 0 <= k < s.codes@.len() && code_key((#[trigger] s.codes@[k])@) == key
}

/// The first snapshot station from `i` on that answers to a key.
pub open spec fn first_answering(ss: Seq<MapStation>, key: Seq<char>, i: int) -> Option<int>
    decreases ss.len() - i,
{
    if i < 0 || i >= ss.len() {
        None
    } else if map_station_answers(ss[i], key) {
        Some(i)
    } else {
        first_answering(ss, key, i + 1)
    }
}

fn answers_key(s: &MapStation, key: &Vec<char>) -> (b: bool)
    ensures
        b == map_station_answers(*s, key@),
{
    let mut k: usize = 0;
    while k < s.codes.len()
        invariant
            k <= s.codes@.len(),
            forall|i: int| 0 <= i < k ==> code_key((#[trigger] s.codes@[i])@) != key@,
        decreases s.codes@.len() - k,
    {
        let ck = key_of(s.codes[k].as_str());
        if chars_eq(&ck, key) {
            return true;
        }
        k = k + 1;
    }
    false
}

/// Find the station that a station code names.
///
/// The comparison is the code key that the layout binder resolves a
/// layout station with, so `NS1`, `ns-1`, and `NS 1` all name the same
/// station; the first station in snapshot order that answers wins.
pub fn station_by_code(snapshot: &NetworkSnapshot, code: &str) -> (r: Option<usize>)
    ensures
        match first_answering(snapshot.stations@, code_key(code@), 0) {
            Some(i) => r == Some(snapshot.stations@[i].station),
            None => r is None,
        },
{
    let key = key_of(code);
    let mut i: usize = 0;
    while i < snapshot.stations.len()
        invariant
            i <= snapshot.stations@.len(),
            key@ == code_key(code@),
            first_answering(snapshot.stations@, key@, i as int) == first_answering(
                snapshot.stations@,
                key@,
                0,
            ),
        decreases snapshot.stations@.len() - i,
    {
        if answers_key(&snapshot.stations[i], &key) {
            return Some(snapshot.stations[i].station);
        }
        i = i + 1;
    }
    None
}

// ----------------------------------------------------------------------
// Layout lookups
// ----------------------------------------------------------------------

/// The first layout station from `i` on with an identifier.
pub open spec fn first_layout_station(ls: Seq<LayoutStation>, id: Seq<char>, i: int) -> Option<int>
    decreases ls.len() - i,
{
    if i < 0 || i >= ls.len() {
        None
    } else if ls[i].id@ == id {
        Some(i)
    } else {
        first_layout_station(ls, id, i + 1)
    }
}

/// Get the layout station behind a bound station, by its identifier.
pub fn layout_station<'a>(bound: &'a BoundLayout, id: &str) -> (r: Option<&'a LayoutStation>)
    ensures
        match first_layout_station(bound.layout.stations@, id@, 0) {
            Some(i) => r matches Some(s) && *s == bound.layout.stations@[i],
            None => r is None,
        },
{
    let stations = &bound.layout.stations;
    let mut i: usize = 0;
    while i < stations.len()
        invariant
            i <= stations@.len(),
            stations@ == bound.layout.stations@,
            first_layout_station(stations@, id@, i as int) == first_layout_station(
                stations@,
                id@,
                0,
            ),
        decreases stations@.len() - i,
    {
        if str_eq(stations[i].id.as_str(), id) {
            return Some(&stations[i]);
        }
        i = i + 1;
    }
    None
}

/// The first layout line from `i` on with an identifier.
pub open spec fn first_layout_line(ls: Seq<LayoutLine>, id: Seq<char>, i: int) -> Option<int>
    decreases ls.len() - i,
{
    if i < 0 || i >= ls.len() {
        None
    } else if ls[i].id@ == id {
        Some(i)
    } else {
        first_layout_line(ls, id, i + 1)
    }
}

/// The first network line from `i` on with an index.
pub open spec fn first_map_line(ls: Seq<MapLine>, id: int, i: int) -> Option<int>
    decreases ls.len() - i,
{
    if i < 0 || i >= ls.len() {
        None
    } else if ls[i].line == id {
        Some(i)
    } else {
        first_map_line(ls, id, i + 1)
    }
}

// ----------------------------------------------------------------------
// Colours
// ----------------------------------------------------------------------

/// A colour as a source writes it, through the filter.
pub open spec fn filtered(c: Option<String>) -> Option<Seq<char>> {
    match c {
        Some(c) => feed_color_spec(c@),
        None => None,
    }
}

/// The colour of one layout line: the filtered feed colour of the
/// network line it carries, else the filtered colour the layout gives
/// it, else the palette colour of a sample station code, else the
/// neutral grey.
pub open spec fn line_color_spec(
    lines: Seq<MapLine>,
    layout_lines: Seq<LayoutLine>,
    layout_line: Seq<char>,
    network_line: Option<usize>,
    sample_code: Seq<char>,
) -> Seq<char> {
    let feed = match network_line {
        Some(id) => match first_map_line(lines, id as int, 0) {
            Some(i) => filtered(lines[i].color),
            None => None,
        },
        None => None,
    };
    let drawn = match first_layout_line(layout_lines, layout_line, 0) {
        Some(k) => filtered(layout_lines[k].color),
        None => None,
    };
    match feed {
        Some(c) => c,
        None => match drawn {
            Some(c) => c,
            None => match palette_entry(alpha_prefix(sample_code, 0)) {
                Some(c) => c,
                None => "#7a7f8c"@,
            },
        },
    }
}

fn filter_color(c: &Option<String>) -> (r: Option<String>)
    ensures
        match r {
            Some(s) => filtered(*c) == Some(s@),
            None => filtered(*c) is None,
        },
{
    match c {
        Some(s) => feed_color(s.as_str()),
        None => None,
    }
}

fn feed_color_of(lines: &Vec<MapLine>, network_line: Option<usize>) -> (r: Option<String>)
    ensures
        match network_line {
            Some(id) => match first_map_line(lines@, id as int, 0) {
                Some(i) => match r {
                    Some(s) => filtered(lines@[i].color) == Some(s@),
                    None => filtered(lines@[i].color) is None,
                },
                None => r is None,
            },
            None => r is None,
        },
{
    match network_line {
        None => None,
        Some(id) => {
            let mut i: usize = 0;
            while i < lines.len()
                invariant
                    i <= lines@.len(),
                    network_line == Some(id),
                    first_map_line(lines@, id as int, i as int) == first_map_line(
                        lines@,
                        id as int,
                        0,
                    ),
                decreases lines@.len() - i,
            {
                if lines[i].line == id {
                    return filter_color(&lines[i].color);
                }
                i = i + 1;
            }
            None
        },
    }
}

fn layout_color_of(layout_lines: &Vec<LayoutLine>, layout_line: &str) -> (r: Option<String>)
    ensures
        match first_layout_line(layout_lines@, layout_line@, 0) {
            Some(k) => match r {
                Some(s) => filtered(layout_lines@[k].color) == Some(s@),
                None => filtered(layout_lines@[k].color) is None,
            },
            None => r is None,
        },
{
    let mut k: usize = 0;
    while k < layout_lines.len()
        invariant
            k <= layout_lines@.len(),
            first_layout_line(layout_lines@, layout_line@, k as int) == first_layout_line(
                layout_lines@,
                layout_line@,
                0,
            ),
        decreases layout_lines@.len() - k,
    {
        if str_eq(layout_lines[k].id.as_str(), layout_line) {
            return filter_color(&layout_lines[k].color);
        }
        k = k + 1;
    }
    None
}

/// Pick the colour of one layout line.
///
/// The feed colour of the network line the ribbon carries comes first,
/// because the operator publishes it; the layout colour second,
/// because a person drew it; the official palette last. Every one of
/// them passes [`feed_color`] first, so a hostile `route_color`
/// becomes a palette colour rather than a CSS declaration.
pub fn line_color(
    snapshot: &NetworkSnapshot,
    bound: &BoundLayout,
    layout_line: &str,
    network_line: Option<usize>,
    sample_code: &str,
) -> (r: String)
    ensures
        r@ == line_color_spec(
            snapshot.lines@,
            bound.layout.lines@,
            layout_line@,
            network_line,
            sample_code@,
        ),
{
    match feed_color_of(&snapshot.lines, network_line) {
        Some(c) => c,
        None => match layout_color_of(&bound.layout.lines, layout_line) {
            Some(c) => c,
            None => match palette_color(sample_code) {
                Some(c) => owned(c),
                None => {
                    proof {
                        reveal_strlit("#7a7f8c");
                    }
                    owned(NEUTRAL)
                },
            },
        },
    }
}


// ----------------------------------------------------------------------
// The line a ribbon carries
// ----------------------------------------------------------------------

/// How many of the layout lines that draw a station are `ll`.
pub open spec fn count_on(v: Seq<String>, ll: Seq<char>) -> nat
    decreases v.len(),
{
    if v.len() == 0 {
        0
    } else {
        count_on(v.drop_last(), ll) + if v.last()@ == ll {
            1nat
        } else {
            0nat
        }
    }
}

/// The layout lines that draw a station, in placement order; none for
/// a station that the drawing does not place.
pub open spec fn placed_at(placed: Seq<Vec<String>>, s: int) -> Seq<String> {
    if 0 <= s < placed.len() {
        placed[s]@
    } else {
        Seq::empty()
    }
}

/// The votes that one edge casts for `line` on the ribbon `ll`: when it
/// belongs to `line` and the ribbon draws its far station, one for each
/// time the ribbon draws its near station.
pub open spec fn edge_vote(e: MapEdge, placed: Seq<Vec<String>>, ll: Seq<char>, line: int) -> nat {
    if e.line == line && count_on(placed_at(placed, e.to as int), ll) > 0 {
        count_on(placed_at(placed, e.from as int), ll)
    } else {
        0
    }
}

/// The votes that the first `n` edges cast for `line` on the ribbon `ll`.
pub open spec fn votes_upto(
    edges: Seq<MapEdge>,
    placed: Seq<Vec<String>>,
    ll: Seq<char>,
    line: int,
    n: int,
) -> nat
    decreases n,
{
    if n <= 0 {
        0
    } else {
        votes_upto(edges, placed, ll, line, n - 1) + edge_vote(edges[n - 1], placed, ll, line)
    }
}

/// The votes that every edge casts for `line` on the ribbon `ll`.
pub open spec fn tally(edges: Seq<MapEdge>, placed: Seq<Vec<String>>, ll: Seq<char>, line: int) -> nat {
    votes_upto(edges, placed, ll, line, edges.len() as int)
}

proof fn lemma_count_on_len(v: Seq<String>, ll: Seq<char>)
    ensures
        count_on(v, ll) <= v.len(),
    decreases v.len(),
{
    if v.len() > 0 {
        lemma_count_on_len(v.drop_last(), ll);
    }
}

proof fn lemma_votes_come_from_an_edge(
    edges: Seq<MapEdge>,
    placed: Seq<Vec<String>>,
    ll: Seq<char>,
    line: int,
    n: int,
)
    requires
        0 <= n <= edges.len(),
        votes_upto(edges, placed, ll, line, n) > 0,
    ensures
        exists|i: int| 0 <= i < n && (#[trigger] edges[i]).line == line,
    decreases n,
{
    if edge_vote(edges[n - 1], placed, ll, line) > 0 {
        assert(edges[n - 1].line == line);
    } else {
        lemma_votes_come_from_an_edge(edges, placed, ll, line, n - 1);
        let i = choose|i: int| 0 <= i < n - 1 && (#[trigger] edges[i]).line == line;
        assert(edges[i].line == line);
    }
}

fn count_on_exec(v: &Vec<String>, ll: &str) -> (c: u128)
    ensures
        c == count_on(v@, ll@),
        c <= v@.len(),
{
    let mut c: u128 = 0;
    let mut i: usize = 0;
    while i < v.len()
        invariant
            i <= v@.len(),
            c == count_on(v@.take(i as int), ll@),
            c <= i,
        decreases v@.len() - i,
    {
        proof {
            assert(v@.take(i + 1).drop_last() =~= v@.take(i as int));
        }
        if str_eq(v[i].as_str(), ll) {
            c = c + 1;
        }
        i = i + 1;
    }
    proof {
        assert(v@.take(v@.len() as int) =~= v@);
    }
    c
}

fn placed_count(placed: &Vec<Vec<String>>, s: usize, ll: &str) -> (c: u128)
    ensures
        c == count_on(placed_at(placed@, s as int), ll@),
        c <= 0xffff_ffff_ffff_ffffu128,
{
    if s < placed.len() {
        let v = &placed[s];
        let n = v.len();
        assert(n <= 0xffff_ffff_ffff_ffffu128);
        count_on_exec(v, ll)
    } else {
        0
    }
}

fn tally_exec(edges: &Vec<MapEdge>, placed: &Vec<Vec<String>>, ll: &str, line: usize) -> (t: u128)
    ensures
        t == tally(edges@, placed@, ll@, line as int),
{
    let mut t: u128 = 0;
    let mut j: usize = 0;
    while j < edges.len()
        invariant
            j <= edges@.len(),
            t == votes_upto(edges@, placed@, ll@, line as int, j as int),
            t <= j * 0xffff_ffff_ffff_ffffu128,
        decreases edges@.len() - j,
    {
        let e = edges[j];
        if e.line == line {
            let far = placed_count(placed, e.to, ll);
            if far > 0 {
                let near = placed_count(placed, e.from, ll);
                t = t + near;
            }
        }
        j = j + 1;
    }
    t
}

/// Decide which network line a ribbon of the layout carries.
///
/// `placed[s]` lists the layout lines that draw station `s`, in the
/// order the drawing placed them. An edge whose two stations the ribbon
/// both draws is a vote for the line of that edge. The line with the
/// most votes wins, and the lowest index breaks a tie, so the result
/// never moves between runs; a ribbon with no vote carries no line.
pub fn carried_line(snapshot: &NetworkSnapshot, placed: &Vec<Vec<String>>, layout_line: &str) -> (r: Option<usize>)
    ensures
        match r {
            Some(w) => {
                &&& tally(snapshot.edges@, placed@, layout_line@, w as int) > 0
                &&& forall|l: int|
                    #![trigger tally(snapshot.edges@, placed@, layout_line@, l)]
                    tally(snapshot.edges@, placed@, layout_line@, l) <= tally(
                        snapshot.edges@,
                        placed@,
                        layout_line@,
                        w as int,
                    ) && (tally(snapshot.edges@, placed@, layout_line@, l) == tally(
                        snapshot.edges@,
                        placed@,
                        layout_line@,
                        w as int,
                    ) ==> w <= l)
            },
            None => forall|l: int| #[trigger] tally(snapshot.edges@, placed@, layout_line@, l) == 0,
        },
{
    let edges = &snapshot.edges;
    let ghost ll = layout_line@;
    let mut best: Option<(usize, u128)> = None;
    let mut j: usize = 0;
    while j < edges.len()
        invariant
            j <= edges@.len(),
            edges@ == snapshot.edges@,
            ll == layout_line@,
            match best {
                None => forall|i: int|
                    0 <= i < j ==> tally(edges@, placed@, ll, (#[trigger] edges@[i]).line as int) == 0,
                Some((w, tw)) => {
                    &&& tw == tally(edges@, placed@, ll, w as int)
                    &&& tw > 0
                    &&& forall|i: int|
                        0 <= i < j ==> {
                            let t = tally(edges@, placed@, ll, (#[trigger] edges@[i]).line as int);
                            t <= tw && (t == tw ==> w <= edges@[i].line)
                        }
                },
            },
        decreases edges@.len() - j,
    {
        let l = edges[j].line;
        let t = tally_exec(edges, placed, layout_line, l);
        match best {
            None => {
                if t > 0 {
                    best = Some((l, t));
                }
            },
            Some((w, tw)) => {
                if t > tw || (t == tw && l < w) {
                    best = Some((l, t));
                }
            },
        }
        j = j + 1;
    }
    proof {
        assert forall|l: int| #[trigger] tally(edges@, placed@, ll, l) > 0 implies exists|i: int|
            0 <= i < edges@.len() && edges@[i].line == l by {
            lemma_votes_come_from_an_edge(edges@, placed@, ll, l, edges@.len() as int);
        }
    }
    match best {
        Some((w, _)) => Some(w),
        None => None,
    }
}


/// A colour that can stand in a presentation attribute: a `#` and
/// hexadecimal digits, nothing else.
pub open spec fn is_literal_color(c: Seq<char>) -> bool {
    c.len() > 0 && c[0] == '#' && all_hex(c.skip(1))
}

proof fn lemma_literal(c: Seq<char>, digits: Seq<char>)
    requires
        c =~= seq!['#'] + digits,
        all_hex(digits),
    ensures
        is_literal_color(c),
{
    assert(c.skip(1) =~= digits);
}

proof fn lemma_palette_is_literal(p: Seq<char>)
    ensures
        palette_entry(p) matches Some(c) ==> is_literal_color(c),
{
    reveal_strlit("#d42e12");
    reveal_strlit("#009645");
    reveal_strlit("#9900aa");
    reveal_strlit("#fa9e0d");
    reveal_strlit("#005ec4");
    reveal_strlit("#9d5b25");
    reveal_strlit("#748477");
    lemma_literal("#d42e12"@, seq!['d', '4', '2', 'e', '1', '2']);
    lemma_literal("#009645"@, seq!['0', '0', '9', '6', '4', '5']);
    lemma_literal("#9900aa"@, seq!['9', '9', '0', '0', 'a', 'a']);
    lemma_literal("#fa9e0d"@, seq!['f', 'a', '9', 'e', '0', 'd']);
    lemma_literal("#005ec4"@, seq!['0', '0', '5', 'e', 'c', '4']);
    lemma_literal("#9d5b25"@, seq!['9', 'd', '5', 'b', '2', '5']);
    lemma_literal("#748477"@, seq!['7', '4', '8', '4', '7', '7']);
}

/// Every colour a ribbon is painted in is a literal colour, whatever
/// the feed and the layout file write: the feed and layout colours pass
/// the filter, and the palette and the neutral grey are literals.
pub proof fn lemma_line_color_is_literal(
    lines: Seq<MapLine>,
    layout_lines: Seq<LayoutLine>,
    layout_line: Seq<char>,
    network_line: Option<usize>,
    sample_code: Seq<char>,
)
    ensures
        is_literal_color(line_color_spec(lines, layout_lines, layout_line, network_line, sample_code)),
{
    if let Some(id) = network_line {
        if let Some(i) = first_map_line(lines, id as int, 0) {
            if let Some(c) = lines[i].color {
                lemma_feed_color_is_literal(c@);
            }
        }
    }
    if let Some(k) = first_layout_line(layout_lines, layout_line, 0) {
        if let Some(c) = layout_lines[k].color {
            lemma_feed_color_is_literal(c@);
        }
    }
    lemma_palette_is_literal(alpha_prefix(sample_code, 0));
    reveal_strlit("#7a7f8c");
    lemma_literal("#7a7f8c"@, seq!['7', 'a', '7', 'f', '8', 'c']);
}

} // verus!
