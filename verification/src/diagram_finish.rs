//! What a train diagram says once its paths are drawn: the order of its
//! runs and blocks, the lines and destinations its filters offer, its
//! legend, its title, and its diagnostics.
//!
//! The renderer draws each planned run and tells the library two
//! things it measured on the drawing: whether the run kept a path
//! inside the window, and the time its path starts at. Everything else
//! is decided here.

use vstd::prelude::*;

use crate::common::{
    diagnostic_view, diagnostic_views, flag_key, flag_symbol, optional_color, css_key_spec,
    DepartureFlag, Diagnostic, LegendItem, Line, LineView, Severity,
};
use crate::config::{PublicationConfig, StationSpacing};
use crate::diagram::{TickLevel, TimeAxis};
use crate::diagram_plan::DiagramPlan;
use crate::order::{lemma_seq_lt_asymmetric, lemma_seq_lt_total, lemma_seq_lt_transitive, seq_lt, str_lt};
use crate::schedule::{RailNetwork, TimeExactness, TimeQuality, TripQueryResult};
use crate::text::{fill_text, Labels, LocalizedText};
use crate::textbuf::{owned, push_str, str_eq};
use crate::time::{date_text, time_text, GtfsTime, ServiceDate};
use crate::timetable::{legend_view, opt_view};

verus! {

// ----------------------------------------------------------------------
// Order by key
// ----------------------------------------------------------------------

/// Whether key `a` sorts before key `b`: the earlier time, then the
/// smaller first text, then the smaller second text.
pub open spec fn key_lt(a: (int, Seq<char>, Seq<char>), b: (int, Seq<char>, Seq<char>)) -> bool {
    ||| a.0 < b.0
    ||| a.0 == b.0 && seq_lt(a.1, b.1)
    ||| a.0 == b.0 && a.1 == b.1 && seq_lt(a.2, b.2)
}

/// Whether item `a` comes before item `b`: the smaller key first, and
/// the earlier item for one key.
pub open spec fn key_before(keys: Seq<(int, Seq<char>, Seq<char>)>, a: int, b: int) -> bool {
    key_lt(keys[a], keys[b]) || (keys[a] == keys[b] && a < b)
}

/// Whether `order` lists items of `keys` by key, each at most once.
pub open spec fn key_sorted(keys: Seq<(int, Seq<char>, Seq<char>)>, order: Seq<usize>) -> bool {
    &&& forall|k: int| 0 <= k < order.len() ==> #[trigger] order[k] < keys.len()
    &&& forall|k: int, l: int|
        0 <= k < l < order.len() ==> key_before(keys, #[trigger] order[k] as int, #[trigger] order[l] as int)
}

proof fn lemma_key_lt_total(a: (int, Seq<char>, Seq<char>), b: (int, Seq<char>, Seq<char>))
    ensures
        a != b ==> key_lt(a, b) || key_lt(b, a),
        !(key_lt(a, b) && key_lt(b, a)),
{
    lemma_seq_lt_total(a.1, b.1);
    lemma_seq_lt_total(a.2, b.2);
    lemma_seq_lt_asymmetric(a.1, b.1);
    lemma_seq_lt_asymmetric(a.2, b.2);
}

proof fn lemma_key_lt_transitive(
    a: (int, Seq<char>, Seq<char>),
    b: (int, Seq<char>, Seq<char>),
    c: (int, Seq<char>, Seq<char>),
)
    requires
        key_lt(a, b),
        key_lt(b, c),
    ensures
        key_lt(a, c),
{
    if a.0 == b.0 && b.0 == c.0 {
        if seq_lt(a.1, b.1) && seq_lt(b.1, c.1) {
            lemma_seq_lt_transitive(a.1, b.1, c.1);
        }
        if a.1 == b.1 && b.1 == c.1 && seq_lt(a.2, b.2) && seq_lt(b.2, c.2) {
            lemma_seq_lt_transitive(a.2, b.2, c.2);
        }
    }
}

proof fn lemma_key_insert(keys: Seq<(int, Seq<char>, Seq<char>)>, order: Seq<usize>, c: usize, pos: int)
    requires
        c < keys.len(),
        key_sorted(keys, order),
        forall|k: int| 0 <= k < order.len() ==> #[trigger] order[k] < c,
        0 <= pos <= order.len(),
        forall|k: int| 0 <= k < pos ==> !key_lt(keys[c as int], keys[#[trigger] order[k] as int]),
        pos < order.len() ==> key_lt(keys[c as int], keys[order[pos] as int]),
    ensures
        key_sorted(keys, order.insert(pos, c)),
        forall|k: int| 0 <= k < order.len() + 1 ==> #[trigger] order.insert(pos, c)[k] <= c,
{
    let o2 = order.insert(pos, c);
    assert forall|k: int, l: int| 0 <= k < l < o2.len() implies key_before(
        keys,
        #[trigger] o2[k] as int,
        #[trigger] o2[l] as int,
    ) by {
        if k == pos {
            assert(o2[l] == order[l - 1]);
            if l - 1 > pos {
                assert(key_before(keys, order[pos] as int, order[l - 1] as int));
                if key_lt(keys[order[pos] as int], keys[order[l - 1] as int]) {
                    lemma_key_lt_transitive(keys[c as int], keys[order[pos] as int], keys[order[l - 1] as int]);
                }
            }
        } else if l == pos {
            assert(o2[k] == order[k]);
            lemma_key_lt_total(keys[c as int], keys[order[k] as int]);
        } else {
            let ok = if k < pos { k } else { k - 1 };
            let ol = if l < pos { l } else { l - 1 };
            assert(o2[k] == order[ok]);
            assert(o2[l] == order[ol]);
        }
    }
    assert forall|k: int| 0 <= k < order.len() + 1 implies #[trigger] o2[k] <= c by {
        if k < pos {
            assert(o2[k] == order[k]);
        } else if k > pos {
            assert(o2[k] == order[k - 1]);
        }
    }
}

/// The keys of a list of items, as plain values.
pub open spec fn keys_of(times: Seq<u32>, firsts: Seq<String>, seconds: Seq<String>) -> Seq<
    (int, Seq<char>, Seq<char>),
> {
    Seq::new(times.len(), |i: int| (times[i] as int, firsts[i]@, seconds[i]@))
}

fn key_less(
    times: &Vec<u32>,
    firsts: &Vec<String>,
    seconds: &Vec<String>,
    a: usize,
    b: usize,
) -> (r: bool)
    requires
        a < times@.len(),
        b < times@.len(),
        firsts@.len() == times@.len(),
        seconds@.len() == times@.len(),
    ensures
        r == key_lt(
            keys_of(times@, firsts@, seconds@)[a as int],
            keys_of(times@, firsts@, seconds@)[b as int],
        ),
{
    proof {
        let ks = keys_of(times@, firsts@, seconds@);
        assert(ks[a as int] == (times@[a as int] as int, firsts@[a as int]@, seconds@[a as int]@));
        assert(ks[b as int] == (times@[b as int] as int, firsts@[b as int]@, seconds@[b as int]@));
        lemma_seq_lt_asymmetric(firsts@[a as int]@, firsts@[b as int]@);
    }
    if times[a] != times[b] {
        return times[a] < times[b];
    }
    if !str_eq(firsts[a].as_str(), firsts[b].as_str()) {
        return str_lt(firsts[a].as_str(), firsts[b].as_str());
    }
    str_lt(seconds[a].as_str(), seconds[b].as_str())
}

/// Order the kept items by key, the earlier item first where two keys
/// are equal.
pub fn order_by_key(
    times: &Vec<u32>,
    firsts: &Vec<String>,
    seconds: &Vec<String>,
    kept: &Vec<bool>,
) -> (order: Vec<usize>)
    requires
        firsts@.len() == times@.len(),
        seconds@.len() == times@.len(),
        kept@.len() == times@.len(),
    ensures
        key_sorted(keys_of(times@, firsts@, seconds@), order@),
        forall|k: usize| k < times@.len() ==> (kept@[k as int] <==> order@.contains(k)),
        forall|j: int| 0 <= j < order@.len() ==> #[trigger] order@[j] < times@.len(),
{
    let ghost keys = keys_of(times@, firsts@, seconds@);
    let mut order: Vec<usize> = Vec::new();
    let mut c: usize = 0;
    while c < times.len()
        invariant
            c <= times@.len(),
            firsts@.len() == times@.len(),
            seconds@.len() == times@.len(),
            kept@.len() == times@.len(),
            keys == keys_of(times@, firsts@, seconds@),
            key_sorted(keys, order@),
            forall|k: int| 0 <= k < order@.len() ==> #[trigger] order@[k] < c,
            forall|k: usize| k < c ==> (kept@[k as int] <==> order@.contains(k)),
        decreases times@.len() - c,
    {
        if kept[c] {
            let mut pos: usize = 0;
            while pos < order.len() && !key_less(times, firsts, seconds, c, order[pos])
                invariant
                    pos <= order@.len(),
                    c < times@.len(),
                    firsts@.len() == times@.len(),
                    seconds@.len() == times@.len(),
                    keys == keys_of(times@, firsts@, seconds@),
                    forall|k: int| 0 <= k < order@.len() ==> #[trigger] order@[k] < c,
                    forall|k: int| 0 <= k < pos ==> !key_lt(keys[c as int], keys[#[trigger] order@[k] as int]),
                decreases order@.len() - pos,
            {
                pos = pos + 1;
            }
            proof {
                lemma_key_insert(keys, order@, c, pos as int);
            }
            let ghost before = order@;
            order.insert(pos, c);
            proof {
                assert forall|k: usize| k < c + 1 implies (kept@[k as int] <==> order@.contains(k)) by {
                    if k < c {
                        if before.contains(k) {
                            let j = choose|j: int| 0 <= j < before.len() && before[j] == k;
                            if j < pos {
                                assert(order@[j] == k);
                            } else {
                                assert(order@[j + 1] == k);
                            }
                        }
                        if order@.contains(k) {
                            let j = choose|j: int| 0 <= j < order@.len() && order@[j] == k;
                            if j < pos {
                                assert(before[j] == k);
                            } else if j > pos {
                                assert(before[j - 1] == k);
                            }
                        }
                    } else {
                        assert(order@[pos as int] == c);
                    }
                }
                assert forall|k: int| 0 <= k < order@.len() implies #[trigger] order@[k] < c + 1 by {
                    assert(order@[k] <= c);
                }
            }
        } else {
            proof {
                assert forall|k: usize| k < c + 1 implies (kept@[k as int] <==> order@.contains(k)) by {
                    if k == c && order@.contains(k) {
                        let j = choose|j: int| 0 <= j < order@.len() && order@[j] == k;
                        assert(order@[j] < c);
                    }
                }
            }
        }
        c = c + 1;
    }
    order
}

// ----------------------------------------------------------------------
// One item per text
// ----------------------------------------------------------------------

/// Whether `out` picks, for each text of `keys`, the first item with
/// that text, ordered by text.
pub open spec fn first_of_each(keys: Seq<Seq<char>>, out: Seq<usize>) -> bool {
    &&& forall|j: int| 0 <= j < out.len() ==> #[trigger] out[j] < keys.len()
    &&& forall|j: int, l: int|
        0 <= j < l < out.len() ==> seq_lt(keys[#[trigger] out[j] as int], keys[#[trigger] out[l] as int])
    &&& forall|j: int, i: int|
        #![trigger keys[i], out[j]]
        0 <= j < out.len() && 0 <= i < out[j] ==> keys[i] != keys[out[j] as int]
    &&& forall|i: int| 0 <= i < keys.len() ==> #[trigger] has_key_at(keys, out, i)
}

/// Whether some item of `out` carries the text of item `i`.
pub open spec fn has_key_at(keys: Seq<Seq<char>>, out: Seq<usize>, i: int) -> bool {
    exists|j: int| 0 <= j < out.len() && #[trigger] keys[out[j] as int] == keys[i]
}

proof fn lemma_found_keeps(ks: Seq<Seq<char>>, c: int, out: Seq<usize>)
    requires
        0 <= c < ks.len(),
        first_of_each(ks.take(c), out),
        forall|x: int| 0 <= x < out.len() ==> #[trigger] out[x] < c,
        exists|x: int| 0 <= x < out.len() && #[trigger] ks[out[x] as int] == ks[c],
    ensures
        first_of_each(ks.take(c + 1), out),
{
    let t = ks.take(c);
    let t2 = ks.take(c + 1);
    let x = choose|x: int| 0 <= x < out.len() && #[trigger] ks[out[x] as int] == ks[c];
    assert(t2[out[x] as int] == ks[c]);
    assert forall|i: int| 0 <= i < t2.len() implies #[trigger] has_key_at(t2, out, i) by {
        if i < c {
            assert(t2[i] == t[i]);
            assert(has_key_at(t, out, i));
            let y = choose|y: int| 0 <= y < out.len() && #[trigger] t[out[y] as int] == t[i];
            assert(t2[out[y] as int] == t[out[y] as int]);
            assert(0 <= y < out.len() && t2[out[y] as int] == t2[i]);
        } else {
            assert(t2[out[x] as int] == t2[i]);
            assert(0 <= x < out.len() && t2[out[x] as int] == t2[i]);
        }
    }
    assert forall|y: int, i: int|
        #![trigger t2[i], out[y]]
        0 <= y < out.len() && 0 <= i < out[y] implies t2[i] != t2[out[y] as int] by {
        assert(t2[i] == t[i]);
        assert(t2[out[y] as int] == t[out[y] as int]);
    }
    assert forall|y: int, l: int| 0 <= y < l < out.len() implies seq_lt(
        t2[#[trigger] out[y] as int],
        t2[#[trigger] out[l] as int],
    ) by {
        assert(t2[out[y] as int] == t[out[y] as int]);
        assert(t2[out[l] as int] == t[out[l] as int]);
    }
}

proof fn lemma_insert_covers(ks: Seq<Seq<char>>, c: int, before: Seq<usize>, pos: int)
    requires
        0 <= c < ks.len(),
        c <= usize::MAX,
        first_of_each(ks.take(c), before),
        0 <= pos <= before.len(),
    ensures
        forall|i: int|
            0 <= i < c + 1 ==> #[trigger] has_key_at(ks.take(c + 1), before.insert(pos, c as usize), i),
{
    let t = ks.take(c);
    let t2 = ks.take(c + 1);
    let out = before.insert(pos, c as usize);
    assert forall|i: int| 0 <= i < c + 1 implies #[trigger] has_key_at(t2, out, i) by {
        if i < c {
            assert(t2[i] == t[i]);
            assert(has_key_at(t, before, i));
            let z = choose|z: int| 0 <= z < before.len() && #[trigger] t[before[z] as int] == t[i];
            let y = if z < pos { z } else { z + 1 };
            assert(out[y] == before[z]);
            assert(t2[out[y] as int] == t[before[z] as int]);
            assert(0 <= y < out.len() && t2[out[y] as int] == t2[i]);
        } else {
            assert(out[pos] == c);
            assert(t2[out[pos] as int] == t2[i]);
            assert(0 <= pos < out.len() && t2[out[pos] as int] == t2[i]);
        }
    }
}

#[verifier::spinoff_prover]
#[verifier::rlimit(50)]
proof fn lemma_insert_keeps(ks: Seq<Seq<char>>, c: int, before: Seq<usize>, pos: int)
    requires
        0 <= c < ks.len(),
        c <= usize::MAX,
        first_of_each(ks.take(c), before),
        forall|x: int| 0 <= x < before.len() ==> #[trigger] before[x] < c,
        forall|x: int| 0 <= x < before.len() ==> #[trigger] ks[before[x] as int] != ks[c],
        0 <= pos <= before.len(),
        forall|x: int| 0 <= x < pos ==> !seq_lt(ks[c], ks[#[trigger] before[x] as int]),
        pos < before.len() ==> seq_lt(ks[c], ks[before[pos] as int]),
    ensures
        first_of_each(ks.take(c + 1), before.insert(pos, c as usize)),
        forall|y: int| 0 <= y < before.len() + 1 ==> #[trigger] before.insert(pos, c as usize)[y] < c + 1,
{
    let t = ks.take(c);
    let t2 = ks.take(c + 1);
    let out = before.insert(pos, c as usize);
    assert forall|y: int| 0 <= y < out.len() implies #[trigger] out[y] < c + 1 by {
        if y < pos {
            assert(out[y] == before[y]);
        } else if y > pos {
            assert(out[y] == before[y - 1]);
        }
    }
    assert forall|y: int, l: int| 0 <= y < l < out.len() implies seq_lt(
        t2[#[trigger] out[y] as int],
        t2[#[trigger] out[l] as int],
    ) by {
        let oy = if y < pos { y } else { y - 1 };
        let ol = if l < pos { l } else { l - 1 };
        if y == pos {
            assert(out[l] == before[ol]);
            assert(t2[before[ol] as int] == t[before[ol] as int]);
            if ol > pos {
                assert(seq_lt(t[before[pos] as int], t[before[ol] as int]));
                lemma_seq_lt_transitive(ks[c], ks[before[pos] as int], ks[before[ol] as int]);
            }
        } else if l == pos {
            assert(out[y] == before[oy]);
            assert(t2[before[oy] as int] == t[before[oy] as int]);
            lemma_seq_lt_total(ks[c], ks[before[oy] as int]);
        } else {
            assert(out[y] == before[oy]);
            assert(out[l] == before[ol]);
            assert(t2[before[oy] as int] == t[before[oy] as int]);
            assert(t2[before[ol] as int] == t[before[ol] as int]);
        }
    }
    assert forall|y: int, i: int|
        #![trigger t2[i], out[y]]
        0 <= y < out.len() && 0 <= i < out[y] implies t2[i] != t2[out[y] as int] by {
        if y == pos {
            assert(t2[i] == t[i]);
            assert(has_key_at(t, before, i));
            let z = choose|z: int| 0 <= z < before.len() && #[trigger] t[before[z] as int] == t[i];
            assert(ks[before[z] as int] != ks[c]);
        } else {
            let oy = if y < pos { y } else { y - 1 };
            assert(out[y] == before[oy]);
            assert(t2[i] == t[i]);
            assert(t2[before[oy] as int] == t[before[oy] as int]);
        }
    }
    lemma_insert_covers(ks, c, before, pos);
}

/// Pick, for each text, the first item that carries it, ordered by
/// text.
pub fn pick_first_of_each(keys: &Vec<String>) -> (out: Vec<usize>)
    ensures
        first_of_each(crate::common::string_views(keys@), out@),
{
    let ghost ks = crate::common::string_views(keys@);
    let mut out: Vec<usize> = Vec::new();
    let mut c: usize = 0;
    while c < keys.len()
        invariant
            c <= keys@.len(),
            ks == crate::common::string_views(keys@),
            ks.len() == keys@.len(),
            first_of_each(ks.take(c as int), out@),
            forall|j: int| 0 <= j < out@.len() ==> #[trigger] out@[j] < c,
        decreases keys@.len() - c,
    {
        proof {
            assert(ks[c as int] == keys@[c as int]@);
        }
        let mut found = false;
        let mut j: usize = 0;
        while j < out.len()
            invariant
                j <= out@.len(),
                c < keys@.len(),
                ks == crate::common::string_views(keys@),
                forall|x: int| 0 <= x < out@.len() ==> #[trigger] out@[x] < c,
                found <==> exists|x: int| 0 <= x < j && #[trigger] ks[out@[x] as int] == ks[c as int],
            decreases out@.len() - j,
        {
            proof {
                assert(ks[out@[j as int] as int] == keys@[out@[j as int] as int]@);
            }
            if str_eq(keys[out[j]].as_str(), keys[c].as_str()) {
                found = true;
            }
            j = j + 1;
        }
        if found {
            proof {
                lemma_found_keeps(ks, c as int, out@);
            }
        } else {
            let mut pos: usize = 0;
            while pos < out.len() && !str_lt(keys[c].as_str(), keys[out[pos]].as_str())
                invariant
                    pos <= out@.len(),
                    c < keys@.len(),
                    ks == crate::common::string_views(keys@),
                    forall|x: int| 0 <= x < out@.len() ==> #[trigger] out@[x] < c,
                    forall|x: int| 0 <= x < pos ==> !seq_lt(ks[c as int], ks[#[trigger] out@[x] as int]),
                decreases out@.len() - pos,
            {
                proof {
                    assert(ks[out@[pos as int] as int] == keys@[out@[pos as int] as int]@);
                }
                pos = pos + 1;
            }
            proof {
                if pos < out@.len() {
                    assert(ks[out@[pos as int] as int] == keys@[out@[pos as int] as int]@);
                }
                lemma_insert_keeps(ks, c as int, out@, pos as int);
            }
            out.insert(pos, c);
        }
        c = c + 1;
    }
    proof {
        assert(ks.take(keys@.len() as int) =~= ks);
    }
    out
}

// ----------------------------------------------------------------------
// The finished diagram
// ----------------------------------------------------------------------

/// Whether the inputs of [`finish_diagram`] fit together: one
/// measurement per planned run and per planned block, every plan entry
/// naming an item of the query result, and every item a line of the
/// network.
pub open spec fn tail_inputs_fit(
    network: RailNetwork,
    plan: DiagramPlan,
    day: TripQueryResult,
    first_times: Seq<Option<u32>>,
    band_drawn: Seq<bool>,
) -> bool {
    &&& first_times.len() == plan.runs@.len()
    &&& band_drawn.len() == plan.bands@.len()
    &&& forall|k: int| 0 <= k < plan.runs@.len() ==> (#[trigger] plan.runs@[k]).trip < day.trips@.len()
    &&& forall|k: int| 0 <= k < plan.bands@.len() ==> (#[trigger] plan.bands@[k]).band < day.frequency_bands@.len()
    &&& forall|t: int| 0 <= t < day.trips@.len() ==> (#[trigger] day.trips@[t]).line < network.lines@.len()
    &&& forall|b: int| 0 <= b < day.frequency_bands@.len() ==> (#[trigger] day.frequency_bands@[b]).line
        < network.lines@.len()
}

/// The sort key of each planned run: the time its drawn path starts
/// at (the window start for a run the drawing dropped), its route, and
/// its instance.
pub open spec fn run_keys(
    network: RailNetwork,
    plan: DiagramPlan,
    day: TripQueryResult,
    first_times: Seq<Option<u32>>,
    from: GtfsTime,
) -> Seq<(int, Seq<char>, Seq<char>)> {
    Seq::new(
        plan.runs@.len(),
        |k: int|
            (
                match first_times[k] {
                    Some(t) => t as int,
                    None => from.secs as int,
                },
                network.lines@[day.trips@[plan.runs@[k].trip as int].line as int].route_id@,
                day.trips@[plan.runs@[k].trip as int].instance_id@,
            ),
    )
}

/// The sort key of each planned block: its start and its identifier.
pub open spec fn band_keys(plan: DiagramPlan, day: TripQueryResult) -> Seq<(int, Seq<char>, Seq<char>)> {
    Seq::new(
        plan.bands@.len(),
        |k: int|
            (
                day.frequency_bands@[plan.bands@[k].band as int].start.secs as int,
                day.frequency_bands@[plan.bands@[k].band as int].band_id@,
                Seq::<char>::empty(),
            ),
    )
}

/// The lines of the drawn runs, in run order, then those of the drawn
/// blocks, in block order.
pub open spec fn shown_lines(
    plan: DiagramPlan,
    day: TripQueryResult,
    run_order: Seq<usize>,
    band_order: Seq<usize>,
) -> Seq<usize> {
    run_order.map_values(|k: usize| day.trips@[plan.runs@[k as int].trip as int].line)
        + band_order.map_values(|k: usize| day.frequency_bands@[plan.bands@[k as int].band as int].line)
}

/// The destinations of the drawn runs, in run order, then those of the
/// drawn blocks, in block order.
pub open spec fn shown_destinations(plan: DiagramPlan, run_order: Seq<usize>, band_order: Seq<usize>) -> Seq<
    Seq<char>,
> {
    run_order.map_values(|k: usize| plan.runs@[k as int].destination@) + band_order.map_values(
        |k: usize| plan.bands@[k as int].destination@,
    )
}

/// Whether a line view shows a line of the network.
pub open spec fn line_shown(l: Line, v: LineView) -> bool {
    &&& v.route_id@ == l.route_id@
    &&& v.name@ == l.name@
    &&& opt_view(v.long_name) == opt_view(l.long_name)
    &&& opt_view(v.color) == optional_color(l.color)
    &&& opt_view(v.text_color) == optional_color(l.text_color)
    &&& v.key@ == css_key_spec(l.route_id@)
}

/// The calls of a planned run.
pub open spec fn planned_calls(plan: DiagramPlan, day: TripQueryResult, k: int) -> Seq<crate::schedule::ScheduledCall> {
    day.trips@[plan.runs@[k].trip as int].calls@
}

/// Whether a drawn run has a call that serves its station.
pub open spec fn some_stop(plan: DiagramPlan, day: TripQueryResult, first_times: Seq<Option<u32>>, n: int) -> bool {
    exists|k: int, c: int|
        0 <= k < n && k < first_times.len() && first_times[k] is Some && 0 <= c < planned_calls(plan, day, k).len()
            && ((#[trigger] planned_calls(plan, day, k)[c]).pickup_allowed || planned_calls(
            plan,
            day,
            k,
        )[c].drop_off_allowed)
}

/// Whether a drawn run passes a station without serving it.
pub open spec fn some_pass(plan: DiagramPlan, day: TripQueryResult, first_times: Seq<Option<u32>>, n: int) -> bool {
    exists|k: int, c: int|
        0 <= k < n && k < first_times.len() && first_times[k] is Some && 0 <= c < planned_calls(plan, day, k).len()
            && !(#[trigger] planned_calls(plan, day, k)[c]).pickup_allowed && !planned_calls(
            plan,
            day,
            k,
        )[c].drop_off_allowed
}

/// Whether a drawn run has a computed time.
pub open spec fn some_interpolated(plan: DiagramPlan, day: TripQueryResult, first_times: Seq<Option<u32>>, n: int) -> bool {
    exists|k: int, c: int|
        0 <= k < n && k < first_times.len() && first_times[k] is Some && 0 <= c < planned_calls(plan, day, k).len()
            && (#[trigger] planned_calls(plan, day, k)[c]).time_quality == TimeQuality::Interpolated
}

/// Whether a drawn run comes from a headway block without exact times.
pub open spec fn some_approximate(plan: DiagramPlan, day: TripQueryResult, first_times: Seq<Option<u32>>, n: int) -> bool {
    exists|k: int|
        0 <= k < n && k < first_times.len() && #[trigger] first_times[k] is Some && day.trips@[plan.runs@[k].trip as int].exactness
            == TimeExactness::Approximate
}

/// Whether the time axis crosses midnight of the service day.
pub open spec fn crosses_midnight(axis: TimeAxis) -> bool {
    exists|i: int| 0 <= i < axis.ticks@.len() && (#[trigger] axis.ticks@[i]).level == TickLevel::DayBoundary
}

/// The legend of a diagram, entry by entry: the stop and pass-through
/// marks where a drawn run uses them, the approximation mark where a
/// drawn run or a drawn block is approximate, the interpolation mark,
/// and the day boundary where the axis crosses midnight.
pub open spec fn diagram_legend(
    plan: DiagramPlan,
    day: TripQueryResult,
    first_times: Seq<Option<u32>>,
    any_band: bool,
    labels: Labels,
) -> Seq<(Seq<char>, Option<Seq<char>>, Seq<char>)> {
    (if some_stop(plan, day, first_times, first_times.len() as int) {
        seq![("stop"@, None, labels.legend_dwell@)]
    } else {
        Seq::empty()
    }) + (if some_pass(plan, day, first_times, first_times.len() as int) {
        seq![("pass-through"@, None, labels.legend_pass_through@)]
    } else {
        Seq::empty()
    }) + (if some_approximate(plan, day, first_times, first_times.len() as int) || any_band {
        seq![
            (
                flag_key(DepartureFlag::Approximate),
                Some(flag_symbol(DepartureFlag::Approximate)),
                labels.legend_approximate@,
            ),
        ]
    } else {
        Seq::empty()
    }) + (if some_interpolated(plan, day, first_times, first_times.len() as int) {
        seq![
            (
                flag_key(DepartureFlag::Interpolated),
                Some(flag_symbol(DepartureFlag::Interpolated)),
                labels.legend_interpolated@,
            ),
        ]
    } else {
        Seq::empty()
    }) + (if crosses_midnight(plan.time_axis) {
        seq![("day-boundary"@, None, labels.legend_day_boundary@)]
    } else {
        Seq::empty()
    })
}

/// The notes on the planned runs that the drawing dropped, in plan
/// order.
pub open spec fn dropped_findings(
    plan: DiagramPlan,
    day: TripQueryResult,
    first_times: Seq<Option<u32>>,
    n: int,
) -> Seq<(Severity, Seq<char>, Seq<char>, Option<Seq<char>>)>
    decreases n,
{
    if n <= 0 {
        Seq::empty()
    } else {
        dropped_findings(plan, day, first_times, n - 1) + if first_times[n - 1] is None {
            seq![
                (
                    Severity::Info,
                    "run-outside-window"@,
                    "the run carries no time inside the diagram window"@,
                    Some(day.trips@[plan.runs@[n - 1].trip as int].source_trip_id@),
                ),
            ]
        } else {
            Seq::empty()
        }
    }
}

/// The message of an empty diagram.
pub open spec fn empty_diagram_text(from: GtfsTime, until: GtfsTime, date: ServiceDate) -> Seq<char> {
    "no run of this corridor falls inside "@ + time_text(from.secs as nat) + " to "@ + time_text(
        until.secs as nat,
    ) + " on "@ + date_text(date.day_count())
}

/// A diagram title with its `{corridor}`, `{line}`, and `{date}`
/// placeholders filled in; the corridor's heading stands for the line.
pub open spec fn diagram_title_text(t: Seq<char>, corridor: Seq<char>, date: Seq<char>) -> Seq<char> {
    crate::textbuf::replace_all(
        crate::textbuf::replace_all(
            crate::textbuf::replace_all(t, crate::text::placeholder("corridor"@), corridor),
            crate::text::placeholder("line"@),
            corridor,
        ),
        crate::text::placeholder("date"@),
        date,
    )
}

/// What a diagram says besides its coordinates.
pub struct DiagramTail {
    /// The drawn runs, by index into the plan, in drawing order.
    pub run_order: Vec<usize>,
    /// The drawn blocks, by index into the plan, in drawing order.
    pub band_order: Vec<usize>,
    /// The lines the filters offer, one per route, by route.
    pub lines: Vec<LineView>,
    /// The destinations the filters offer, once each, in order.
    pub destinations: Vec<String>,
    /// The legend.
    pub legend: Vec<LegendItem>,
    /// The title.
    pub title: LocalizedText,
    /// The heading of the service day.
    pub service_day_label: String,
    /// Every diagnostic of the diagram.
    pub diagnostics: Vec<Diagnostic>,
}

fn copy_diagnostics(out: &mut Vec<Diagnostic>, more: &Vec<Diagnostic>)
    ensures
        diagnostic_views(final(out)@) == diagnostic_views(old(out)@) + diagnostic_views(more@),
{
    let ghost start = diagnostic_views(out@);
    let mut i: usize = 0;
    while i < more.len()
        invariant
            i <= more@.len(),
            diagnostic_views(out@) == start + diagnostic_views(more@.take(i as int)),
        decreases more@.len() - i,
    {
        let ghost before = out@;
        out.push(more[i].duplicate());
        proof {
            assert(diagnostic_views(out@) =~= diagnostic_views(before).push(diagnostic_view(out@.last())));
            assert(diagnostic_views(more@.take(i + 1)) =~= diagnostic_views(more@.take(i as int)).push(
                diagnostic_view(more@[i as int]),
            ));
        }
        i = i + 1;
    }
    proof {
        assert(more@.take(more@.len() as int) =~= more@);
    }
}

fn call_marks(calls: &Vec<crate::schedule::ScheduledCall>) -> (r: (bool, bool, bool))
    ensures
        r.0 == exists|c: int| 0 <= c < calls@.len() && ((#[trigger] calls@[c]).pickup_allowed || calls@[c].drop_off_allowed),
        r.1 == exists|c: int| 0 <= c < calls@.len() && !(#[trigger] calls@[c]).pickup_allowed && !calls@[c].drop_off_allowed,
        r.2 == exists|c: int| 0 <= c < calls@.len() && (#[trigger] calls@[c]).time_quality == TimeQuality::Interpolated,
{
    let mut stop = false;
    let mut pass = false;
    let mut interp = false;
    let mut c: usize = 0;
    while c < calls.len()
        invariant
            c <= calls@.len(),
            stop == exists|x: int| 0 <= x < c && ((#[trigger] calls@[x]).pickup_allowed || calls@[x].drop_off_allowed),
            pass == exists|x: int| 0 <= x < c && !(#[trigger] calls@[x]).pickup_allowed && !calls@[x].drop_off_allowed,
            interp == exists|x: int| 0 <= x < c && (#[trigger] calls@[x]).time_quality == TimeQuality::Interpolated,
        decreases calls@.len() - c,
    {
        let call = &calls[c];
        if call.pickup_allowed || call.drop_off_allowed {
            stop = true;
        } else {
            pass = true;
        }
        match call.time_quality {
            TimeQuality::Interpolated => {
                interp = true;
            },
            _ => {},
        }
        c = c + 1;
    }
    (stop, pass, interp)
}

/// Whether `lines` shows, by route, the first line of each route among
/// the shown lines, `pick` naming where each first appears.
pub open spec fn lines_picked(
    network: RailNetwork,
    plan: DiagramPlan,
    day: TripQueryResult,
    run_order: Seq<usize>,
    band_order: Seq<usize>,
    lines: Seq<LineView>,
    pick: Seq<usize>,
) -> bool {
    let ls = shown_lines(plan, day, run_order, band_order);
    &&& first_of_each(ls.map_values(|l: usize| network.lines@[l as int].route_id@), pick)
    &&& lines.len() == pick.len()
    &&& forall|j: int|
        0 <= j < pick.len() ==> line_shown(network.lines@[ls[#[trigger] pick[j] as int] as int], lines[j])
}

/// Whether `destinations` holds each shown destination once, in
/// order, `pick` naming where each first appears.
pub open spec fn destinations_picked(
    plan: DiagramPlan,
    run_order: Seq<usize>,
    band_order: Seq<usize>,
    destinations: Seq<String>,
    pick: Seq<usize>,
) -> bool {
    let ds = shown_destinations(plan, run_order, band_order);
    &&& first_of_each(ds, pick)
    &&& crate::common::string_views(destinations) == pick.map_values(|i: usize| ds[i as int])
}

fn view_of_line(network: &RailNetwork, l: usize) -> (v: LineView)
    requires
        l < network.lines@.len(),
    ensures
        line_shown(network.lines@[l as int], v),
{
    LineView::of(network, l)
}

fn finish_lists(
    network: &RailNetwork,
    plan: &DiagramPlan,
    day: &TripQueryResult,
    run_order: &Vec<usize>,
    band_order: &Vec<usize>,
) -> (r: (Vec<LineView>, Vec<String>))
    requires
        forall|k: int| 0 <= k < plan.runs@.len() ==> (#[trigger] plan.runs@[k]).trip < day.trips@.len(),
        forall|k: int| 0 <= k < plan.bands@.len() ==> (#[trigger] plan.bands@[k]).band < day.frequency_bands@.len(),
        forall|t: int| 0 <= t < day.trips@.len() ==> (#[trigger] day.trips@[t]).line < network.lines@.len(),
        forall|b: int| 0 <= b < day.frequency_bands@.len() ==> (#[trigger] day.frequency_bands@[b]).line
            < network.lines@.len(),
        forall|j: int| 0 <= j < run_order@.len() ==> #[trigger] run_order@[j] < plan.runs@.len(),
        forall|j: int| 0 <= j < band_order@.len() ==> #[trigger] band_order@[j] < plan.bands@.len(),
    ensures
        exists|pick: Seq<usize>| #[trigger] lines_picked(*network, *plan, *day, run_order@, band_order@, r.0@, pick),
        exists|pick: Seq<usize>| #[trigger] destinations_picked(*plan, run_order@, band_order@, r.1@, pick),
{
    let ghost ls = shown_lines(*plan, *day, run_order@, band_order@);
    let ghost ds = shown_destinations(*plan, run_order@, band_order@);
    let mut line_ids: Vec<usize> = Vec::new();
    let mut route_ids: Vec<String> = Vec::new();
    let mut dests: Vec<String> = Vec::new();
    let mut k: usize = 0;
    while k < run_order.len()
        invariant
            k <= run_order@.len(),
            ls == shown_lines(*plan, *day, run_order@, band_order@),
            ds == shown_destinations(*plan, run_order@, band_order@),
            ls.len() == run_order@.len() + band_order@.len(),
            ds.len() == run_order@.len() + band_order@.len(),
            forall|k: int| 0 <= k < plan.runs@.len() ==> (#[trigger] plan.runs@[k]).trip < day.trips@.len(),
            forall|k: int| 0 <= k < plan.bands@.len() ==> (#[trigger] plan.bands@[k]).band < day.frequency_bands@.len(),
            forall|t: int| 0 <= t < day.trips@.len() ==> (#[trigger] day.trips@[t]).line < network.lines@.len(),
            forall|b: int| 0 <= b < day.frequency_bands@.len() ==> (#[trigger] day.frequency_bands@[b]).line
                < network.lines@.len(),
            forall|j: int| 0 <= j < run_order@.len() ==> #[trigger] run_order@[j] < plan.runs@.len(),
            forall|j: int| 0 <= j < band_order@.len() ==> #[trigger] band_order@[j] < plan.bands@.len(),
            line_ids@ == ls.take(k as int),
            route_ids@.len() == k as int,
            forall|j: int| 0 <= j < k as int ==> (#[trigger] route_ids@[j])@ == network.lines@[ls[j] as int].route_id@,
            crate::common::string_views(dests@) == ds.take(k as int),
            forall|j: int| 0 <= j < k as int ==> #[trigger] ls[j] < network.lines@.len(),
        decreases run_order@.len() - k,
    {
        let pr = &plan.runs[run_order[k]];
        let line = day.trips[pr.trip].line;
        let dest = pr.destination.as_str();
        proof {
            assert(ls[k as int] == line);
            assert(ds[k as int] == dest@);
        }
        line_ids.push(line);
        route_ids.push(owned(network.lines[line].route_id.as_str()));
        let ghost dbefore = dests@;
        dests.push(owned(dest));
        proof {
            assert(line_ids@ =~= ls.take(k + 1));
            assert(crate::common::string_views(dests@) =~= crate::common::string_views(dbefore).push(dest@));
            assert(crate::common::string_views(dests@) =~= ds.take(k + 1));
        }
        k = k + 1;
    }
    let mut b: usize = 0;
    while b < band_order.len()
        invariant
            b <= band_order@.len(),
            ls == shown_lines(*plan, *day, run_order@, band_order@),
            ds == shown_destinations(*plan, run_order@, band_order@),
            ls.len() == run_order@.len() + band_order@.len(),
            ds.len() == run_order@.len() + band_order@.len(),
            forall|k: int| 0 <= k < plan.runs@.len() ==> (#[trigger] plan.runs@[k]).trip < day.trips@.len(),
            forall|k: int| 0 <= k < plan.bands@.len() ==> (#[trigger] plan.bands@[k]).band < day.frequency_bands@.len(),
            forall|t: int| 0 <= t < day.trips@.len() ==> (#[trigger] day.trips@[t]).line < network.lines@.len(),
            forall|b: int| 0 <= b < day.frequency_bands@.len() ==> (#[trigger] day.frequency_bands@[b]).line
                < network.lines@.len(),
            forall|j: int| 0 <= j < run_order@.len() ==> #[trigger] run_order@[j] < plan.runs@.len(),
            forall|j: int| 0 <= j < band_order@.len() ==> #[trigger] band_order@[j] < plan.bands@.len(),
            line_ids@ == ls.take(run_order@.len() + b),
            route_ids@.len() == run_order@.len() + b,
            forall|j: int| 0 <= j < run_order@.len() + b ==> (#[trigger] route_ids@[j])@ == network.lines@[ls[j] as int].route_id@,
            crate::common::string_views(dests@) == ds.take(run_order@.len() + b),
            forall|j: int| 0 <= j < run_order@.len() + b ==> #[trigger] ls[j] < network.lines@.len(),
        decreases band_order@.len() - b,
    {
        let pb = &plan.bands[band_order[b]];
        let line = day.frequency_bands[pb.band].line;
        let dest = pb.destination.as_str();
        proof {
            assert(ls[run_order@.len() + b] == line);
            assert(ds[run_order@.len() + b] == dest@);
        }
        line_ids.push(line);
        route_ids.push(owned(network.lines[line].route_id.as_str()));
        let ghost dbefore = dests@;
        dests.push(owned(dest));
        proof {
            assert(line_ids@ =~= ls.take(run_order@.len() + b + 1));
            assert(crate::common::string_views(dests@) =~= crate::common::string_views(dbefore).push(dest@));
            assert(crate::common::string_views(dests@) =~= ds.take(run_order@.len() + b + 1));
        }
        b = b + 1;
    }
    proof {
        assert(ls.take(ls.len() as int) =~= ls);
        assert(ds.take(ds.len() as int) =~= ds);
        assert(crate::common::string_views(route_ids@) =~= ls.map_values(
            |l: usize| network.lines@[l as int].route_id@,
        ));
    }
    let pick = pick_first_of_each(&route_ids);
    let mut lines: Vec<LineView> = Vec::new();
    let mut j: usize = 0;
    while j < pick.len()
        invariant
            j <= pick@.len(),
            line_ids@ == ls,
            forall|x: int| 0 <= x < ls.len() ==> #[trigger] ls[x] < network.lines@.len(),
            forall|x: int| 0 <= x < pick@.len() ==> #[trigger] pick@[x] < ls.len(),
            lines@.len() == j,
            forall|x: int|
                0 <= x < j ==> line_shown(network.lines@[ls[#[trigger] pick@[x] as int] as int], lines@[x]),
        decreases pick@.len() - j,
    {
        proof {
            assert(pick@[j as int] < ls.len());
        }
        let v = view_of_line(network, line_ids[pick[j]]);
        lines.push(v);
        j = j + 1;
    }
    let dpick = pick_first_of_each(&dests);
    let mut out: Vec<String> = Vec::new();
    let mut j: usize = 0;
    while j < dpick.len()
        invariant
            j <= dpick@.len(),
            crate::common::string_views(dests@) == ds,
            forall|x: int| 0 <= x < dpick@.len() ==> #[trigger] dpick@[x] < ds.len(),
            crate::common::string_views(out@) == dpick@.take(j as int).map_values(|i: usize| ds[i as int]),
        decreases dpick@.len() - j,
    {
        proof {
            assert(dpick@[j as int] < ds.len());
            assert(ds[dpick@[j as int] as int] == dests@[dpick@[j as int] as int]@);
        }
        let ghost obefore = out@;
        out.push(owned(dests[dpick[j]].as_str()));
        proof {
            assert(crate::common::string_views(out@) =~= crate::common::string_views(obefore).push(
                ds[dpick@[j as int] as int],
            ));
            assert(crate::common::string_views(out@) =~= dpick@.take(j + 1).map_values(|i: usize| ds[i as int]));
        }
        j = j + 1;
    }
    proof {
        assert(dpick@.take(dpick@.len() as int) =~= dpick@);
        assert(lines_picked(*network, *plan, *day, run_order@, band_order@, lines@, pick@));
        assert(destinations_picked(*plan, run_order@, band_order@, out@, dpick@));
    }
    let r = (lines, out);
    proof {
        assert(lines_picked(*network, *plan, *day, run_order@, band_order@, r.0@, pick@));
        assert(destinations_picked(*plan, run_order@, band_order@, r.1@, dpick@));
    }
    r
}

fn diagram_legend_items(
    plan: &DiagramPlan,
    day: &TripQueryResult,
    first_times: &Vec<Option<u32>>,
    any_band: bool,
    labels: &Labels,
) -> (legend: Vec<LegendItem>)
    requires
        first_times@.len() == plan.runs@.len(),
        forall|k: int| 0 <= k < plan.runs@.len() ==> (#[trigger] plan.runs@[k]).trip < day.trips@.len(),
    ensures
        legend@.map_values(|i: LegendItem| legend_view(i)) == diagram_legend(
            *plan,
            *day,
            first_times@,
            any_band,
            *labels,
        ),
{
    let ghost ft = first_times@;
    let mut stop = false;
    let mut pass = false;
    let mut interp = false;
    let mut approx = false;
    let mut k: usize = 0;
    while k < plan.runs.len()
        invariant
            k <= plan.runs@.len(),
            ft == first_times@,
            ft.len() == plan.runs@.len(),
            forall|k: int| 0 <= k < plan.runs@.len() ==> (#[trigger] plan.runs@[k]).trip < day.trips@.len(),
            stop == some_stop(*plan, *day, ft, k as int),
            pass == some_pass(*plan, *day, ft, k as int),
            interp == some_interpolated(*plan, *day, ft, k as int),
            approx == some_approximate(*plan, *day, ft, k as int),
        decreases plan.runs@.len() - k,
    {
        if first_times[k].is_some() {
            let trip = &day.trips[plan.runs[k].trip];
            let marks = call_marks(&trip.calls);
            proof {
                assert(trip.calls@ == planned_calls(*plan, *day, k as int));
            }
            if marks.0 {
                stop = true;
            }
            if marks.1 {
                pass = true;
            }
            if marks.2 {
                interp = true;
            }
            match trip.exactness {
                TimeExactness::Approximate => {
                    approx = true;
                },
                _ => {},
            }
        }
        proof {
            lemma_marks_step(*plan, *day, ft, k as int);
        }
        k = k + 1;
    }
    let mut midnight = false;
    let mut i: usize = 0;
    while i < plan.time_axis.ticks.len()
        invariant
            i <= plan.time_axis.ticks@.len(),
            midnight == exists|x: int|
                0 <= x < i && (#[trigger] plan.time_axis.ticks@[x]).level == TickLevel::DayBoundary,
        decreases plan.time_axis.ticks@.len() - i,
    {
        match plan.time_axis.ticks[i].level {
            TickLevel::DayBoundary => {
                midnight = true;
            },
            _ => {},
        }
        i = i + 1;
    }
    let mut legend: Vec<LegendItem> = Vec::new();
    let ghost mut expected: Seq<(Seq<char>, Option<Seq<char>>, Seq<char>)> = Seq::empty();
    if stop {
        legend.push(LegendItem::plain("stop", labels.legend_dwell));
        proof {
            expected = expected.push(("stop"@, None, labels.legend_dwell@));
        }
    }
    if pass {
        legend.push(LegendItem::plain("pass-through", labels.legend_pass_through));
        proof {
            expected = expected.push(("pass-through"@, None, labels.legend_pass_through@));
        }
    }
    if approx || any_band {
        legend.push(
            LegendItem::with_symbol(
                DepartureFlag::Approximate.key(),
                DepartureFlag::Approximate.symbol(),
                labels.legend_approximate,
            ),
        );
        proof {
            expected = expected.push(
                (
                    flag_key(DepartureFlag::Approximate),
                    Some(flag_symbol(DepartureFlag::Approximate)),
                    labels.legend_approximate@,
                ),
            );
        }
    }
    if interp {
        legend.push(
            LegendItem::with_symbol(
                DepartureFlag::Interpolated.key(),
                DepartureFlag::Interpolated.symbol(),
                labels.legend_interpolated,
            ),
        );
        proof {
            expected = expected.push(
                (
                    flag_key(DepartureFlag::Interpolated),
                    Some(flag_symbol(DepartureFlag::Interpolated)),
                    labels.legend_interpolated@,
                ),
            );
        }
    }
    if midnight {
        legend.push(LegendItem::plain("day-boundary", labels.legend_day_boundary));
        proof {
            expected = expected.push(("day-boundary"@, None, labels.legend_day_boundary@));
        }
    }
    proof {
        assert(legend@.map_values(|i: LegendItem| legend_view(i)) =~= expected);
        assert(expected =~= diagram_legend(*plan, *day, ft, any_band, *labels));
    }
    legend
}

proof fn lemma_marks_step(plan: DiagramPlan, day: TripQueryResult, ft: Seq<Option<u32>>, k: int)
    requires
        0 <= k < ft.len(),
    ensures
        some_stop(plan, day, ft, k + 1) == (some_stop(plan, day, ft, k) || (ft[k] is Some && exists|c: int|
            0 <= c < planned_calls(plan, day, k).len() && ((#[trigger] planned_calls(plan, day, k)[c]).pickup_allowed
                || planned_calls(plan, day, k)[c].drop_off_allowed))),
        some_pass(plan, day, ft, k + 1) == (some_pass(plan, day, ft, k) || (ft[k] is Some && exists|c: int|
            0 <= c < planned_calls(plan, day, k).len() && !(#[trigger] planned_calls(plan, day, k)[c]).pickup_allowed
                && !planned_calls(plan, day, k)[c].drop_off_allowed)),
        some_interpolated(plan, day, ft, k + 1) == (some_interpolated(plan, day, ft, k) || (ft[k] is Some
            && exists|c: int|
            0 <= c < planned_calls(plan, day, k).len() && (#[trigger] planned_calls(plan, day, k)[c]).time_quality
                == TimeQuality::Interpolated)),
        some_approximate(plan, day, ft, k + 1) == (some_approximate(plan, day, ft, k) || (ft[k] is Some
            && day.trips@[plan.runs@[k].trip as int].exactness == TimeExactness::Approximate)),
{
}

/// The message of the warning that distance spacing falls back.
pub open spec fn spacing_text() -> Seq<char> {
    "the feed carries no usable station positions for this corridor, so the diagram falls back to equal station spacing"@
}

/// The diagnostics of a finished diagram: those of the corridor, of
/// the query, and of the plan, then the fallback of distance spacing,
/// the notes on the runs the drawing dropped, and the warning of an
/// empty diagram.
pub open spec fn tail_findings(
    plan: DiagramPlan,
    day: TripQueryResult,
    first_times: Seq<Option<u32>>,
    config: PublicationConfig,
    empty: bool,
    from: GtfsTime,
    until: GtfsTime,
    date: ServiceDate,
) -> Seq<(Severity, Seq<char>, Seq<char>, Option<Seq<char>>)> {
    diagnostic_views(plan.corridor.diagnostics@) + diagnostic_views(day.diagnostics@) + diagnostic_views(
        plan.run_reports@,
    ) + diagnostic_views(plan.band_reports@) + (if config.diagram.station_spacing
        == StationSpacing::Distance {
        seq![(Severity::Warning, "distance-spacing-unavailable"@, spacing_text(), None)]
    } else {
        Seq::empty()
    }) + dropped_findings(plan, day, first_times, first_times.len() as int) + (if empty {
        seq![(Severity::Warning, "diagram-empty"@, empty_diagram_text(from, until, date), None)]
    } else {
        Seq::empty()
    })
}

/// Finish a diagram once its paths are drawn.
///
/// `first_times[k]` is the time the drawn path of the planned run `k`
/// starts at, or `None` where the drawing kept no path of it inside
/// the window; `band_drawn[k]` says whether the drawing kept either
/// path of the planned block `k`.
pub fn finish_diagram(
    network: &RailNetwork,
    plan: &DiagramPlan,
    day: &TripQueryResult,
    service_date: ServiceDate,
    from: GtfsTime,
    until: GtfsTime,
    config: &PublicationConfig,
    first_times: &Vec<Option<u32>>,
    band_drawn: &Vec<bool>,
) -> (t: DiagramTail)
    requires
        tail_inputs_fit(*network, *plan, *day, first_times@, band_drawn@),
    ensures
        key_sorted(run_keys(*network, *plan, *day, first_times@, from), t.run_order@),
        forall|k: usize| k < plan.runs@.len() ==> (first_times@[k as int] is Some <==> t.run_order@.contains(k)),
        key_sorted(band_keys(*plan, *day), t.band_order@),
        forall|k: usize| k < plan.bands@.len() ==> (band_drawn@[k as int] <==> t.band_order@.contains(k)),
        exists|pick: Seq<usize>|
            #[trigger] lines_picked(*network, *plan, *day, t.run_order@, t.band_order@, t.lines@, pick),
        exists|pick: Seq<usize>|
            #[trigger] destinations_picked(*plan, t.run_order@, t.band_order@, t.destinations@, pick),
        t.legend@.map_values(|i: LegendItem| legend_view(i)) == diagram_legend(
            *plan,
            *day,
            first_times@,
            t.band_order@.len() > 0,
            crate::text::labels_of(config.language),
        ),
        t.service_day_label@ == crate::text::service_date_heading(config.language, service_date.day_count()),
        t.title.en@ == diagram_title_text(config.diagram.title.en@, plan.corridor.corridor.label@, t.service_day_label@),
        opt_view(t.title.ja) == match config.diagram.title.ja {
            Some(j) => Some(diagram_title_text(j@, plan.corridor.corridor.label@, t.service_day_label@)),
            None => None,
        },
        diagnostic_views(t.diagnostics@) == tail_findings(
            *plan,
            *day,
            first_times@,
            *config,
            t.run_order@.len() == 0 && t.band_order@.len() == 0,
            from,
            until,
            service_date,
        ),
{
    let labels = Labels::for_language(config.language);
    // The order of the runs.
    let n = plan.runs.len();
    let mut times: Vec<u32> = Vec::new();
    let mut firsts: Vec<String> = Vec::new();
    let mut seconds: Vec<String> = Vec::new();
    let mut kept: Vec<bool> = Vec::new();
    let mut k: usize = 0;
    while k < n
        invariant
            n == plan.runs@.len(),
            k <= n,
            tail_inputs_fit(*network, *plan, *day, first_times@, band_drawn@),
            times@.len() == k,
            firsts@.len() == k,
            seconds@.len() == k,
            kept@.len() == k,
            forall|j: int| 0 <= j < k ==> keys_of(times@, firsts@, seconds@)[j] == #[trigger] run_keys(
                *network,
                *plan,
                *day,
                first_times@,
                from,
            )[j],
            forall|j: int| 0 <= j < k ==> #[trigger] kept@[j] == first_times@[j] is Some,
        decreases n - k,
    {
        let pr = &plan.runs[k];
        let trip = &day.trips[pr.trip];
        let time = match first_times[k] {
            Some(t) => t,
            None => from.secs,
        };
        times.push(time);
        firsts.push(owned(network.lines[trip.line].route_id.as_str()));
        seconds.push(owned(trip.instance_id.as_str()));
        kept.push(first_times[k].is_some());
        proof {
            assert forall|j: int| 0 <= j < k + 1 implies keys_of(times@, firsts@, seconds@)[j]
                == #[trigger] run_keys(*network, *plan, *day, first_times@, from)[j] by {
                assert(keys_of(times@, firsts@, seconds@)[j] == (times@[j] as int, firsts@[j]@, seconds@[j]@));
            }
        }
        k = k + 1;
    }
    proof {
        assert(keys_of(times@, firsts@, seconds@) =~= run_keys(*network, *plan, *day, first_times@, from));
    }
    let run_order = order_by_key(&times, &firsts, &seconds, &kept);
    // The order of the blocks.
    let m = plan.bands.len();
    let mut btimes: Vec<u32> = Vec::new();
    let mut bfirsts: Vec<String> = Vec::new();
    let mut bseconds: Vec<String> = Vec::new();
    let mut k: usize = 0;
    while k < m
        invariant
            m == plan.bands@.len(),
            k <= m,
            tail_inputs_fit(*network, *plan, *day, first_times@, band_drawn@),
            btimes@.len() == k,
            bfirsts@.len() == k,
            bseconds@.len() == k,
            forall|j: int| 0 <= j < k ==> keys_of(btimes@, bfirsts@, bseconds@)[j] == #[trigger] band_keys(
                *plan,
                *day,
            )[j],
        decreases m - k,
    {
        let band = &day.frequency_bands[plan.bands[k].band];
        btimes.push(band.start.secs);
        bfirsts.push(owned(band.band_id.as_str()));
        bseconds.push(String::new());
        proof {
            assert forall|j: int| 0 <= j < k + 1 implies keys_of(btimes@, bfirsts@, bseconds@)[j]
                == #[trigger] band_keys(*plan, *day)[j] by {
                assert(keys_of(btimes@, bfirsts@, bseconds@)[j] == (btimes@[j] as int, bfirsts@[j]@, bseconds@[j]@));
            }
        }
        k = k + 1;
    }
    proof {
        assert(keys_of(btimes@, bfirsts@, bseconds@) =~= band_keys(*plan, *day));
    }
    let band_order = order_by_key(&btimes, &bfirsts, &bseconds, band_drawn);
    let t_runs = finish_lists(network, plan, day, &run_order, &band_order);
    let ghost lp = choose|p: Seq<usize>| lines_picked(*network, *plan, *day, run_order@, band_order@, t_runs.0@, p);
    let ghost dp = choose|p: Seq<usize>| destinations_picked(*plan, run_order@, band_order@, t_runs.1@, p);
    proof {
        assert(lines_picked(*network, *plan, *day, run_order@, band_order@, t_runs.0@, lp));
        assert(destinations_picked(*plan, run_order@, band_order@, t_runs.1@, dp));
    }
    let legend = diagram_legend_items(plan, day, first_times, band_order.len() > 0, &labels);
    // The diagnostics.
    let mut diagnostics: Vec<Diagnostic> = Vec::new();
    copy_diagnostics(&mut diagnostics, &plan.corridor.diagnostics);
    copy_diagnostics(&mut diagnostics, &day.diagnostics);
    copy_diagnostics(&mut diagnostics, &plan.run_reports);
    copy_diagnostics(&mut diagnostics, &plan.band_reports);
    let ghost base = diagnostic_views(diagnostics@);
    match config.diagram.station_spacing {
        StationSpacing::Distance => {
            diagnostics.push(
                Diagnostic::warning(
                    "distance-spacing-unavailable",
                    owned(
                        "the feed carries no usable station positions for this corridor, so the diagram falls back to equal station spacing",
                    ),
                ),
            );
            proof {
                assert(diagnostic_views(diagnostics@) =~= base + seq![
                    (Severity::Warning, "distance-spacing-unavailable"@, spacing_text(), None),
                ]);
            }
        },
        _ => {
            proof {
                assert(diagnostic_views(diagnostics@) =~= base + Seq::<
                    (Severity, Seq<char>, Seq<char>, Option<Seq<char>>),
                >::empty());
            }
        },
    }
    let ghost spaced = diagnostic_views(diagnostics@);
    let mut k: usize = 0;
    while k < n
        invariant
            n == plan.runs@.len(),
            k <= n,
            tail_inputs_fit(*network, *plan, *day, first_times@, band_drawn@),
            diagnostic_views(diagnostics@) == spaced + dropped_findings(*plan, *day, first_times@, k as int),
        decreases n - k,
    {
        let ghost before = diagnostics@;
        if first_times[k].is_none() {
            let trip = &day.trips[plan.runs[k].trip];
            diagnostics.push(
                Diagnostic::info("run-outside-window", owned("the run carries no time inside the diagram window")).about(
                    trip.source_trip_id.as_str(),
                ),
            );
            proof {
                assert(diagnostic_views(diagnostics@) =~= diagnostic_views(before).push(
                    diagnostic_view(diagnostics@.last()),
                ));
            }
        }
        proof {
            assert(diagnostic_views(diagnostics@) =~= spaced + dropped_findings(*plan, *day, first_times@, k + 1));
        }
        k = k + 1;
    }
    let ghost dropped = diagnostic_views(diagnostics@);
    if run_order.len() == 0 && band_order.len() == 0 {
        let mut message = owned("no run of this corridor falls inside ");
        push_str(&mut message, from.to_text().as_str());
        push_str(&mut message, " to ");
        push_str(&mut message, until.to_text().as_str());
        push_str(&mut message, " on ");
        push_str(&mut message, service_date.to_text().as_str());
        diagnostics.push(Diagnostic::warning("diagram-empty", message));
        proof {
            assert(diagnostic_views(diagnostics@) =~= dropped + seq![
                (Severity::Warning, "diagram-empty"@, empty_diagram_text(from, until, service_date), None),
            ]);
        }
    } else {
        proof {
            assert(diagnostic_views(diagnostics@) =~= dropped + Seq::<
                (Severity, Seq<char>, Seq<char>, Option<Seq<char>>),
            >::empty());
        }
    }
    // The title.
    let day_label = labels.service_date_text(service_date);
    let label = plan.corridor.corridor.label.as_str();
    let replacements = [("corridor", label), ("line", label), ("date", day_label.as_str())];
    let title = config.diagram.title.fill(&replacements);
    proof {
        reveal_with_fuel(crate::text::fill_text, 4);
        assert(replacements@.len() == 3);
    }
    let (lines, destinations) = t_runs;
    let t = DiagramTail {
        run_order,
        band_order,
        lines,
        destinations,
        legend,
        title,
        service_day_label: day_label,
        diagnostics,
    };
    proof {
        assert(lines_picked(*network, *plan, *day, t.run_order@, t.band_order@, t.lines@, lp));
        assert(destinations_picked(*plan, t.run_order@, t.band_order@, t.destinations@, dp));
    }
    t
}

} // verus!
