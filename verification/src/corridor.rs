//! Corridor resolution for the string diagram.
//!
//! A string diagram needs one vertical axis of stations. A line does
//! not always give one: a branch leaves the main line, and a loop
//! visits the same station twice. This module turns the stop patterns
//! of a line into an explicit corridor and decides, without guessing,
//! which runs can be drawn on it.
//!
//! A station cannot name a position on the axis, because an unrolled
//! loop contains the same station more than once. A [`CorridorNode`]
//! therefore carries the station *and* an occurrence index, and every
//! mapping works on node indexes.
//!
//! How the axis is chosen:
//!
//! 1. When the configuration names a corridor, that axis wins.
//! 2. Otherwise the longest pattern of the line becomes the spine. A
//!    pattern that is a subsequence of the spine, forwards or
//!    backwards, joins it. A pattern that contains the spine replaces
//!    it.
//! 3. A pattern that fits neither way starts a new panel. The
//!    projection reports it and never forces it onto the main axis.
//!
//! The vertical coordinates of the nodes are floating-point numbers and
//! are laid out by the caller from the node order that this module
//! fixes.

use vstd::prelude::*;

use crate::common::{string_views, Diagnostic, Severity, Station, StationView};
use crate::config::{
    table_find, table_get, BranchConfig, CorridorConfig, PublicationConfig, StationSpacing,
};
use crate::error::PublicationError;
use crate::schedule::{RailNetwork, StopPattern};
use crate::text::{localized_get, towards_text, Labels, Language};
use crate::textbuf::{decimal, owned, push_decimal, push_str, str_eq};

verus! {

// ----------------------------------------------------------------------
// Matching a run against a path
// ----------------------------------------------------------------------

/// The first position from `from` on where `x` occurs.
pub open spec fn first_at(hay: Seq<usize>, x: usize, from: int) -> Option<int>
    decreases hay.len() - from,
{
    if from < 0 || from >= hay.len() {
        None
    } else if hay[from] == x {
        Some(from)
    } else {
        first_at(hay, x, from + 1)
    }
}

/// The greedy match of `needle` in `hay` from position `from` on: each
/// entry of the needle at the first position after the previous one.
pub open spec fn greedy_from(hay: Seq<usize>, needle: Seq<usize>, from: int) -> Option<Seq<int>>
    decreases needle.len(),
{
    if needle.len() == 0 {
        Some(Seq::empty())
    } else {
        match first_at(hay, needle[0], from) {
            None => None,
            Some(i) => match greedy_from(hay, needle.drop_first(), i + 1) {
                None => None,
                Some(rest) => Some(seq![i] + rest),
            },
        }
    }
}

/// The positions of a forward match of the calls of a run on a path.
pub open spec fn forward_match(hay: Seq<usize>, needle: Seq<usize>) -> Option<Seq<int>> {
    greedy_from(hay, needle, 0)
}

/// Whether `idx` places each entry of `needle` in `hay`, at strictly
/// increasing positions from `from` on.
pub open spec fn embeds_from(hay: Seq<usize>, needle: Seq<usize>, idx: Seq<int>, from: int) -> bool {
    &&& idx.len() == needle.len()
    &&& forall|k: int| 0 <= k < idx.len() ==> from <= #[trigger] idx[k] < hay.len()
    &&& forall|k: int| 0 <= k < idx.len() ==> hay[#[trigger] idx[k]] == needle[k]
    &&& forall|k: int, l: int| 0 <= k < l < idx.len() ==> #[trigger] idx[k] < #[trigger] idx[l]
}

/// Whether `needle` appears inside `hay` in order.
pub open spec fn is_subseq(hay: Seq<usize>, needle: Seq<usize>) -> bool {
    exists|idx: Seq<int>| embeds_from(hay, needle, idx, 0)
}

proof fn lemma_first_at(hay: Seq<usize>, x: usize, from: int)
    requires
        0 <= from,
    ensures
        first_at(hay, x, from) matches Some(i) ==> from <= i < hay.len() && hay[i] == x && forall|
            j: int,
        | from <= j < i ==> hay[j] != x,
        first_at(hay, x, from) is None ==> forall|j: int| from <= j < hay.len() ==> hay[j] != x,
    decreases hay.len() - from,
{
    if from < hay.len() && hay[from] != x {
        lemma_first_at(hay, x, from + 1);
    }
}

/// The greedy match is an embedding, and it finds one whenever any
/// embedding from the same position exists.
proof fn lemma_greedy(hay: Seq<usize>, needle: Seq<usize>, from: int)
    requires
        0 <= from,
    ensures
        greedy_from(hay, needle, from) matches Some(idx) ==> embeds_from(hay, needle, idx, from),
        (exists|idx: Seq<int>| embeds_from(hay, needle, idx, from)) ==> greedy_from(
            hay,
            needle,
            from,
        ) is Some,
    decreases needle.len(),
{
    if needle.len() > 0 {
        lemma_first_at(hay, needle[0], from);
        match first_at(hay, needle[0], from) {
            None => {
                if exists|idx: Seq<int>| embeds_from(hay, needle, idx, from) {
                    let idx = choose|idx: Seq<int>| embeds_from(hay, needle, idx, from);
                    assert(hay[idx[0]] == needle[0]);
                }
            },
            Some(i) => {
                lemma_greedy(hay, needle.drop_first(), i + 1);
                match greedy_from(hay, needle.drop_first(), i + 1) {
                    Some(rest) => {
                        let idx = seq![i] + rest;
                        assert(greedy_from(hay, needle, from) == Some(idx));
                        assert forall|k: int| 0 <= k < idx.len() implies hay[#[trigger] idx[k]]
                            == needle[k] by {
                            if k > 0 {
                                assert(idx[k] == rest[k - 1]);
                                assert(needle[k] == needle.drop_first()[k - 1]);
                            }
                        }
                        assert forall|k: int| 0 <= k < idx.len() implies from <= #[trigger] idx[k]
                            < hay.len() by {
                            if k > 0 {
                                assert(idx[k] == rest[k - 1]);
                            }
                        }
                        assert forall|k: int, l: int|
                            0 <= k < l < idx.len() implies #[trigger] idx[k] < #[trigger] idx[l] by {
                            assert(idx[l] == rest[l - 1]);
                            if k > 0 {
                                assert(idx[k] == rest[k - 1]);
                            }
                        }
                    },
                    None => {
                        if exists|idx: Seq<int>| embeds_from(hay, needle, idx, from) {
                            let idx = choose|idx: Seq<int>| embeds_from(hay, needle, idx, from);
                            assert(hay[idx[0]] == needle[0]);
                            assert(i <= idx[0]);
                            let tail = idx.drop_first();
                            assert forall|k: int| 0 <= k < tail.len() implies i + 1 <= #[trigger] tail[k]
                                < hay.len() by {
                                assert(tail[k] == idx[k + 1]);
                                assert(idx[0] < idx[k + 1]);
                            }
                            assert forall|k: int| 0 <= k < tail.len() implies hay[#[trigger] tail[k]]
                                == needle.drop_first()[k] by {
                                assert(tail[k] == idx[k + 1]);
                            }
                            assert forall|k: int, l: int|
                                0 <= k < l < tail.len() implies #[trigger] tail[k] < #[trigger] tail[l] by {
                                assert(tail[k] == idx[k + 1]);
                                assert(tail[l] == idx[l + 1]);
                            }
                            assert(embeds_from(hay, needle.drop_first(), tail, i + 1));
                        }
                    },
                }
            },
        }
    }
}

/// The forward match finds the calls of a run on a path exactly when
/// they appear on it in order, and what it finds places every call on
/// its own station at strictly increasing positions.
pub proof fn lemma_forward_match_is_exact(hay: Seq<usize>, needle: Seq<usize>)
    ensures
        forward_match(hay, needle) is Some <==> is_subseq(hay, needle),
        forward_match(hay, needle) matches Some(idx) ==> embeds_from(hay, needle, idx, 0),
{
    lemma_greedy(hay, needle, 0);
}

fn find_from(hay: &Vec<usize>, x: usize, from: usize) -> (r: Option<usize>)
    requires
        from <= hay@.len(),
    ensures
        r matches Some(i) ==> first_at(hay@, x, from as int) == Some(i as int),
        r is None ==> first_at(hay@, x, from as int) is None,
{
    let mut i = from;
    while i < hay.len()
        invariant
            from <= i <= hay@.len(),
            first_at(hay@, x, from as int) == first_at(hay@, x, i as int),
        decreases hay@.len() - i,
    {
        if hay[i] == x {
            return Some(i);
        }
        i = i + 1;
    }
    None
}

/// Match the calls of a run against a path, from top to bottom: the
/// position on the path of each call, each at the first place after
/// the previous one.
pub fn match_forward(haystack: &Vec<usize>, needle: &Vec<usize>) -> (r: Option<Vec<usize>>)
    ensures
        match forward_match(haystack@, needle@) {
            Some(idx) => r matches Some(v) && v@.len() == idx.len() && forall|k: int|
                0 <= k < idx.len() ==> v@[k] == idx[k],
            None => r is None,
        },
{
    let hay_len = haystack.len();
    let mut out: Vec<usize> = Vec::new();
    let mut cursor: usize = 0;
    let mut k: usize = 0;
    proof {
        lemma_greedy(haystack@, needle@, 0);
        assert(needle@.skip(0) =~= needle@);
        match greedy_from(haystack@, needle@, 0) {
            Some(idx) => {
                assert(idx.skip(0) =~= idx);
            },
            None => {},
        }
    }
    while k < needle.len()
        invariant
            k <= needle@.len(),
            cursor <= haystack@.len(),
            hay_len == haystack@.len(),
            out@.len() == k,
            match greedy_from(haystack@, needle@, 0) {
                Some(idx) => greedy_from(haystack@, needle@.skip(k as int), cursor as int) == Some(
                    idx.skip(k as int),
                ) && forall|j: int| 0 <= j < k ==> out@[j] == idx[j],
                None => greedy_from(haystack@, needle@.skip(k as int), cursor as int) is None,
            },
            match greedy_from(haystack@, needle@, 0) {
                Some(idx) => idx.len() == needle@.len(),
                None => true,
            },
        decreases needle@.len() - k,
    {
        proof {
            assert(needle@.skip(k as int)[0] == needle@[k as int]);
            assert(needle@.skip(k as int).drop_first() =~= needle@.skip(k + 1));
        }
        match find_from(haystack, needle[k], cursor) {
            None => {
                return None;
            },
            Some(i) => {
                proof {
                    lemma_first_at(haystack@, needle@[k as int], cursor as int);
                    assert(i < haystack@.len());
                    match greedy_from(haystack@, needle@, 0) {
                        Some(idx) => {
                            let rest = greedy_from(haystack@, needle@.skip(k + 1), i + 1)->0;
                            assert(idx.skip(k as int) == seq![i as int] + rest);
                            assert(idx.skip(k as int)[0] == idx[k as int]);
                            assert(idx.skip(k as int).drop_first() =~= idx.skip(k + 1));
                            assert(rest == idx.skip(k + 1));
                        },
                        None => {},
                    }
                }
                out.push(i);
                cursor = i + 1;
            },
        }
        k = k + 1;
    }
    proof {
        assert(needle@.skip(k as int).len() == 0);
        match greedy_from(haystack@, needle@, 0) {
            Some(idx) => {
                assert(idx.skip(k as int).len() == 0);
            },
            None => {},
        }
    }
    Some(out)
}

/// The path read from bottom to top.
pub open spec fn reversed(s: Seq<usize>) -> Seq<usize> {
    Seq::new(s.len(), |i: int| s[s.len() - 1 - i])
}

/// The positions of a backward match: the forward match on the path
/// read upwards, turned back into positions on the path.
pub open spec fn backward_match(hay: Seq<usize>, needle: Seq<usize>) -> Option<Seq<int>> {
    match forward_match(reversed(hay), needle) {
        Some(idx) => Some(idx.map_values(|i: int| hay.len() - 1 - i)),
        None => None,
    }
}

/// Whether `idx` places each entry of `needle` in `hay` at strictly
/// decreasing positions.
pub open spec fn embeds_backward(hay: Seq<usize>, needle: Seq<usize>, idx: Seq<int>) -> bool {
    &&& idx.len() == needle.len()
    &&& forall|k: int| 0 <= k < idx.len() ==> 0 <= #[trigger] idx[k] < hay.len()
    &&& forall|k: int| 0 <= k < idx.len() ==> hay[#[trigger] idx[k]] == needle[k]
    &&& forall|k: int, l: int| 0 <= k < l < idx.len() ==> #[trigger] idx[k] > #[trigger] idx[l]
}

/// The backward match finds the calls of a run exactly when they
/// appear on the path from bottom to top, and what it finds places
/// every call on its own station at strictly decreasing positions.
pub proof fn lemma_backward_match_is_exact(hay: Seq<usize>, needle: Seq<usize>)
    ensures
        backward_match(hay, needle) is Some <==> exists|idx: Seq<int>|
            embeds_backward(hay, needle, idx),
        backward_match(hay, needle) matches Some(idx) ==> embeds_backward(hay, needle, idx),
{
    let rev = reversed(hay);
    lemma_forward_match_is_exact(rev, needle);
    match forward_match(rev, needle) {
        Some(f) => {
            let idx = f.map_values(|i: int| hay.len() - 1 - i);
            assert forall|k: int| 0 <= k < idx.len() implies hay[#[trigger] idx[k]] == needle[k] by {
                assert(rev[f[k]] == needle[k]);
            }
            assert forall|k: int| 0 <= k < idx.len() implies 0 <= #[trigger] idx[k] < hay.len() by {
                assert(0 <= f[k] < rev.len());
            }
            assert forall|k: int, l: int|
                0 <= k < l < idx.len() implies #[trigger] idx[k] > #[trigger] idx[l] by {
                assert(f[k] < f[l]);
            }
            assert(embeds_backward(hay, needle, idx));
        },
        None => {
            if exists|idx: Seq<int>| embeds_backward(hay, needle, idx) {
                let idx = choose|idx: Seq<int>| embeds_backward(hay, needle, idx);
                let f = idx.map_values(|i: int| hay.len() - 1 - i);
                assert forall|k: int| 0 <= k < f.len() implies rev[#[trigger] f[k]] == needle[k] by {
                    assert(hay[idx[k]] == needle[k]);
                }
                assert forall|k: int| 0 <= k < f.len() implies 0 <= #[trigger] f[k] < rev.len() by {
                    assert(0 <= idx[k] < hay.len());
                }
                assert forall|k: int, l: int|
                    0 <= k < l < f.len() implies #[trigger] f[k] < #[trigger] f[l] by {
                    assert(idx[k] > idx[l]);
                }
                assert(embeds_from(rev, needle, f, 0));
            }
        },
    }
}

fn reverse_ids(v: &Vec<usize>) -> (r: Vec<usize>)
    ensures
        r@ == reversed(v@),
{
    let mut out: Vec<usize> = Vec::new();
    let mut i = v.len();
    while i > 0
        invariant
            i <= v@.len(),
            out@.len() == v@.len() - i,
            forall|k: int| 0 <= k < out@.len() ==> out@[k] == v@[v@.len() - 1 - k],
        decreases i,
    {
        out.push(v[i - 1]);
        i = i - 1;
    }
    proof {
        assert(out@ =~= reversed(v@));
    }
    out
}

/// Match the calls of a run against a path, from bottom to top.
pub fn match_backward(haystack: &Vec<usize>, needle: &Vec<usize>) -> (r: Option<Vec<usize>>)
    ensures
        match backward_match(haystack@, needle@) {
            Some(idx) => r matches Some(v) && v@.len() == idx.len() && forall|k: int|
                0 <= k < idx.len() ==> v@[k] == idx[k],
            None => r is None,
        },
{
    let rev = reverse_ids(haystack);
    match match_forward(&rev, needle) {
        None => None,
        Some(f) => {
            proof {
                lemma_forward_match_is_exact(rev@, needle@);
            }
            let ghost fi = forward_match(rev@, needle@)->0;
            let hay_len = haystack.len();
            let mut out: Vec<usize> = Vec::new();
            let mut k: usize = 0;
            while k < f.len()
                invariant
                    k <= f@.len(),
                    f@.len() == fi.len(),
                    rev@.len() == haystack@.len(),
                    hay_len == haystack@.len(),
                    forall|j: int| 0 <= j < fi.len() ==> f@[j] == fi[j],
                    forall|j: int| 0 <= j < fi.len() ==> 0 <= #[trigger] fi[j] < rev@.len(),
                    out@.len() == k,
                    forall|j: int| 0 <= j < k ==> out@[j] == haystack@.len() - 1 - fi[j],
                decreases f@.len() - k,
            {
                proof {
                    assert(f@[k as int] == fi[k as int]);
                    assert(0 <= fi[k as int] < rev@.len());
                }
                out.push(hay_len - 1 - f[k]);
                k = k + 1;
            }
            Some(out)
        },
    }
}

/// Report whether `needle` appears inside `haystack` in order.
///
/// The scan is greedy from the left, which is exact for a subsequence
/// test and handles a station that repeats in a loop.
pub fn is_subsequence(haystack: &Vec<usize>, needle: &Vec<usize>) -> (b: bool)
    ensures
        b == is_subseq(haystack@, needle@),
{
    proof {
        lemma_forward_match_is_exact(haystack@, needle@);
    }
    match_forward(haystack, needle).is_some()
}

// ----------------------------------------------------------------------
// The order in which patterns claim the axis
// ----------------------------------------------------------------------

/// The sort key of a direction: a stated direction first.
pub open spec fn direction_key(d: Option<u8>) -> int {
    match d {
        Some(v) => v as int,
        None => 255,
    }
}

/// Whether one list of stations sorts strictly before another, entry by
/// entry, a proper prefix first.
pub open spec fn ids_lt(a: Seq<usize>, b: Seq<usize>) -> bool
    decreases a.len(),
{
    if b.len() == 0 {
        false
    } else if a.len() == 0 {
        true
    } else if a[0] != b[0] {
        a[0] < b[0]
    } else {
        ids_lt(a.drop_first(), b.drop_first())
    }
}

/// Whether one pattern claims the axis before another: the longest
/// first, then direction 0 before direction 1 before none, then by the
/// stations.
pub open spec fn pattern_before(a: StopPattern, b: StopPattern) -> bool {
    ||| a.stations@.len() > b.stations@.len()
    ||| (a.stations@.len() == b.stations@.len() && direction_key(a.direction) < direction_key(
        b.direction,
    ))
    ||| (a.stations@.len() == b.stations@.len() && direction_key(a.direction) == direction_key(
        b.direction,
    ) && ids_lt(a.stations@, b.stations@))
}

proof fn lemma_ids_lt_asymmetric(a: Seq<usize>, b: Seq<usize>)
    ensures
        !(ids_lt(a, b) && ids_lt(b, a)),
    decreases a.len(),
{
    if a.len() > 0 && b.len() > 0 && a[0] == b[0] {
        lemma_ids_lt_asymmetric(a.drop_first(), b.drop_first());
    }
}

proof fn lemma_ids_lt_transitive(a: Seq<usize>, b: Seq<usize>, c: Seq<usize>)
    requires
        ids_lt(a, b),
        ids_lt(b, c),
    ensures
        ids_lt(a, c),
    decreases a.len(),
{
    if a.len() > 0 && b.len() > 0 && c.len() > 0 && a[0] == b[0] && b[0] == c[0] {
        lemma_ids_lt_transitive(a.drop_first(), b.drop_first(), c.drop_first());
    }
}

proof fn lemma_ids_lt_total(a: Seq<usize>, b: Seq<usize>)
    ensures
        a != b ==> ids_lt(a, b) || ids_lt(b, a),
    decreases a.len(),
{
    if a.len() > 0 && b.len() > 0 && a[0] == b[0] {
        lemma_ids_lt_total(a.drop_first(), b.drop_first());
        if a.drop_first() == b.drop_first() {
            assert(a =~= seq![a[0]] + a.drop_first());
            assert(b =~= seq![b[0]] + b.drop_first());
        }
    } else if a.len() == 0 && b.len() == 0 {
        assert(a =~= b);
    }
}

/// The order of patterns is a strict order, and two patterns that
/// neither order puts first call at the same stations.
pub proof fn lemma_pattern_before_is_a_strict_order(a: StopPattern, b: StopPattern, c: StopPattern)
    ensures
        !pattern_before(a, a),
        !(pattern_before(a, b) && pattern_before(b, a)),
        pattern_before(a, b) && pattern_before(b, c) ==> pattern_before(a, c),
        !pattern_before(a, b) && !pattern_before(b, a) ==> a.stations@ == b.stations@,
{
    lemma_ids_lt_asymmetric(a.stations@, a.stations@);
    lemma_ids_lt_asymmetric(a.stations@, b.stations@);
    lemma_ids_lt_total(a.stations@, b.stations@);
    if ids_lt(a.stations@, b.stations@) && ids_lt(b.stations@, c.stations@) {
        lemma_ids_lt_transitive(a.stations@, b.stations@, c.stations@);
    }
}

/// Whether `order` lists every pattern exactly once, in the order in
/// which the patterns claim the axis.
pub open spec fn is_claim_order(ps: Seq<StopPattern>, order: Seq<int>) -> bool {
    &&& order.len() == ps.len()
    &&& forall|k: int| 0 <= k < order.len() ==> 0 <= #[trigger] order[k] < ps.len()
    &&& forall|k: int, l: int| 0 <= k < l < order.len() ==> #[trigger] order[k] != #[trigger] order[l]
    &&& forall|k: int, l: int|
        0 <= k < l < order.len() ==> !pattern_before(ps[#[trigger] order[l]], ps[#[trigger] order[k]])
}

fn ids_less(a: &Vec<usize>, b: &Vec<usize>) -> (r: bool)
    ensures
        r == ids_lt(a@, b@),
{
    let mut i: usize = 0;
    proof {
        assert(a@.skip(0) =~= a@);
        assert(b@.skip(0) =~= b@);
    }
    while i < a.len() && i < b.len() && a[i] == b[i]
        invariant
            i <= a@.len(),
            i <= b@.len(),
            ids_lt(a@, b@) == ids_lt(a@.skip(i as int), b@.skip(i as int)),
        decreases a@.len() - i,
    {
        proof {
            assert(a@.skip(i as int).drop_first() =~= a@.skip(i + 1));
            assert(b@.skip(i as int).drop_first() =~= b@.skip(i + 1));
        }
        i = i + 1;
    }
    if i >= b.len() {
        return false;
    }
    if i >= a.len() {
        return true;
    }
    a[i] < b[i]
}

fn direction_sort_key(d: Option<u8>) -> (k: u16)
    ensures
        k == direction_key(d),
{
    match d {
        Some(v) => v as u16,
        None => 255,
    }
}

fn claims_before(a: &StopPattern, b: &StopPattern) -> (r: bool)
    ensures
        r == pattern_before(*a, *b),
{
    let la = a.stations.len();
    let lb = b.stations.len();
    if la != lb {
        return la > lb;
    }
    let da = direction_sort_key(a.direction);
    let db = direction_sort_key(b.direction);
    if da != db {
        return da < db;
    }
    ids_less(&a.stations, &b.stations)
}

/// The order in which the patterns claim the axis, as indexes.
fn claim_order(patterns: &Vec<StopPattern>) -> (order: Vec<usize>)
    ensures
        is_claim_order(patterns@, order@.map_values(|i: usize| i as int)),
{
    let mut order: Vec<usize> = Vec::new();
    let mut i: usize = 0;
    while i < patterns.len()
        invariant
            i <= patterns@.len(),
            order@.len() == i,
            forall|k: int| 0 <= k < order@.len() ==> (#[trigger] order@[k]) < i,
            forall|k: int, l: int|
                0 <= k < l < order@.len() ==> #[trigger] order@[k] != #[trigger] order@[l],
            forall|k: int, l: int|
                0 <= k < l < order@.len() ==> !pattern_before(
                    patterns@[#[trigger] order@[l] as int],
                    patterns@[#[trigger] order@[k] as int],
                ),
        decreases patterns@.len() - i,
    {
        let mut pos: usize = 0;
        while pos < order.len() && !claims_before(&patterns[i], &patterns[order[pos]])
            invariant
                pos <= order@.len(),
                i < patterns@.len(),
                forall|k: int| 0 <= k < order@.len() ==> (#[trigger] order@[k]) < i,
                forall|k: int|
                    0 <= k < pos ==> !pattern_before(
                        patterns@[i as int],
                        patterns@[#[trigger] order@[k] as int],
                    ),
            decreases order@.len() - pos,
        {
            pos = pos + 1;
        }
        let ghost old_order = order@;
        order.insert(pos, i);
        proof {
            assert(order@ == old_order.insert(pos as int, i));
            assert forall|k: int, l: int|
                0 <= k < l < order@.len() implies !pattern_before(
                patterns@[#[trigger] order@[l] as int],
                patterns@[#[trigger] order@[k] as int],
            ) by {
                let pk = patterns@[order@[k] as int];
                let pl = patterns@[order@[l] as int];
                if k == pos as int {
                    // the new pattern against a later one
                    let x = patterns@[old_order[pos as int] as int];
                    assert(pattern_before(patterns@[i as int], x));
                    assert(order@[l] == old_order[l - 1]);
                    if l - 1 > pos {
                        assert(!pattern_before(pl, x));
                    }
                    lemma_pattern_before_is_a_strict_order(pl, patterns@[i as int], x);
                } else if l == pos as int {
                    assert(order@[k] == old_order[k]);
                } else {
                    let ok = if k < pos { k } else { k - 1 };
                    let ol = if l < pos { l } else { l - 1 };
                    assert(order@[k] == old_order[ok]);
                    assert(order@[l] == old_order[ol]);
                }
            }
            assert forall|k: int, l: int|
                0 <= k < l < order@.len() implies #[trigger] order@[k] != #[trigger] order@[l] by {
                if k != pos as int && l != pos as int {
                    let ok = if k < pos { k } else { k - 1 };
                    let ol = if l < pos { l } else { l - 1 };
                    assert(order@[k] == old_order[ok]);
                    assert(order@[l] == old_order[ol]);
                } else if k == pos as int {
                    assert(order@[l] == old_order[l - 1]);
                } else {
                    assert(order@[k] == old_order[k]);
                }
            }
            assert forall|k: int| 0 <= k < order@.len() implies (#[trigger] order@[k]) < i + 1 by {
                if k < pos {
                    assert(order@[k] == old_order[k]);
                } else if k > pos {
                    assert(order@[k] == old_order[k - 1]);
                }
            }
        }
        i = i + 1;
    }
    proof {
        let o = order@.map_values(|i: usize| i as int);
        assert forall|k: int, l: int| 0 <= k < l < o.len() implies #[trigger] o[k] != #[trigger] o[l] by {
            assert(order@[k] != order@[l]);
        }
        assert forall|k: int, l: int|
            0 <= k < l < o.len() implies !pattern_before(
            patterns@[#[trigger] o[l]],
            patterns@[#[trigger] o[k]],
        ) by {
            assert(!pattern_before(patterns@[order@[l] as int], patterns@[order@[k] as int]));
        }
    }
    order
}

// ----------------------------------------------------------------------
// The spines of a line
// ----------------------------------------------------------------------

/// One block of the axis before its nodes are known.
#[derive(Clone, Debug)]
pub struct AxisGroup {
    /// The heading of the block.
    pub label: String,
    /// The stations, from top to bottom.
    pub stations: Vec<usize>,
    /// The position on the main axis where a branch leaves it.
    pub is_branch_of: Option<usize>,
}

/// The station lists of a run of vectors.
pub open spec fn views(v: Seq<Vec<usize>>) -> Seq<Seq<usize>> {
    v.map_values(|x: Vec<usize>| x@)
}

/// Where a pattern lands among the spines from spine `j` on: the first
/// spine that already holds it, forwards or backwards, stays; the first
/// one that it holds, forwards or backwards, is replaced by it in that
/// reading.
pub open spec fn place_from(spines: Seq<Seq<usize>>, p: Seq<usize>, j: int) -> Option<
    (int, Seq<usize>),
>
    decreases spines.len() - j,
{
    if j < 0 || j >= spines.len() {
        None
    } else if is_subseq(spines[j], p) || is_subseq(spines[j], reversed(p)) {
        Some((j, spines[j]))
    } else if is_subseq(p, spines[j]) {
        Some((j, p))
    } else if is_subseq(reversed(p), spines[j]) {
        Some((j, reversed(p)))
    } else {
        place_from(spines, p, j + 1)
    }
}

/// The spines, and the patterns that needed a panel of their own,
/// after the first `m` patterns of the claim order.
pub open spec fn spine_state(ps: Seq<StopPattern>, order: Seq<int>, m: int) -> (
    Seq<Seq<usize>>,
    Seq<int>,
)
    decreases m,
{
    if m <= 0 {
        (Seq::empty(), Seq::empty())
    } else {
        let prev = spine_state(ps, order, m - 1);
        let p = ps[order[m - 1]].stations@;
        match place_from(prev.0, p, 0) {
            Some(found) => (prev.0.update(found.0, found.1), prev.1),
            None => if prev.0.len() == 0 {
                (prev.0.push(p), prev.1)
            } else {
                (prev.0.push(p), prev.1.push(order[m - 1]))
            },
        }
    }
}

/// The name of a station of the network.
pub open spec fn station_name(network: RailNetwork, s: usize) -> Seq<char> {
    network.stations@[s as int].name@
}

/// The heading of a block of the axis: its first and its last station.
pub open spec fn corridor_label_text(network: RailNetwork, stations: Seq<usize>) -> Seq<char> {
    if stations.len() == 0 {
        Seq::empty()
    } else {
        station_name(network, stations[0]) + " \u{2013} "@ + station_name(
            network,
            stations[stations.len() - 1],
        )
    }
}

/// The short description of a pattern: its first and its last station.
pub open spec fn pattern_text(network: RailNetwork, stations: Seq<usize>) -> Seq<char> {
    if stations.len() == 0 {
        "? \u{2192} ?"@
    } else {
        station_name(network, stations[0]) + " \u{2192} "@ + station_name(
            network,
            stations[stations.len() - 1],
        )
    }
}

/// The message of a line whose patterns need several panels.
pub open spec fn split_message(n: nat) -> Seq<char> {
    decimal(n)
        + " stop pattern group(s) do not fit on one station axis, so the diagram draws them in separate panels; define a corridor in the configuration to place them on one axis"@
}

/// The message of a pattern that needs a panel of its own.
pub open spec fn own_panel_message(network: RailNetwork, stations: Seq<usize>) -> Seq<char> {
    "the pattern "@ + pattern_text(network, stations) + " needs its own panel"@
}

/// Whether the stations of every pattern are stations of the network.
pub open spec fn patterns_name_stations(network: RailNetwork, ps: Seq<StopPattern>) -> bool {
    forall|p: int, i: int|
        0 <= p < ps.len() && 0 <= i < ps[p].stations@.len() ==> (#[trigger] ps[p].stations@[i])
            < network.stations@.len()
}

/// Whether the groups and diagnostics are those of a spine state.
pub open spec fn groups_of_spines(
    network: RailNetwork,
    ps: Seq<StopPattern>,
    st: (Seq<Seq<usize>>, Seq<int>),
    groups: Seq<AxisGroup>,
    diagnostics: Seq<Diagnostic>,
) -> bool {
    &&& groups.len() == st.0.len()
    &&& forall|g: int|
        0 <= g < groups.len() ==> (#[trigger] groups[g]).stations@ == st.0[g] && groups[g].label@
            == corridor_label_text(network, st.0[g]) && groups[g].is_branch_of is None
    &&& st.0.len() <= 1 ==> diagnostics.len() == 0
    &&& st.0.len() > 1 ==> {
        &&& diagnostics.len() == 1 + st.1.len()
        &&& diagnostics[0].severity == Severity::Warning
        &&& diagnostics[0].code@ == "corridor-split"@
        &&& diagnostics[0].message@ == split_message(st.0.len())
        &&& forall|k: int|
            0 <= k < st.1.len() ==> (#[trigger] diagnostics[k + 1]).severity == Severity::Info
                && diagnostics[k + 1].code@ == "corridor-separate-panel"@ && diagnostics[k
                + 1].message@ == own_panel_message(network, ps[st.1[k]].stations@)
    }
}

fn copy_ids(v: &Vec<usize>) -> (r: Vec<usize>)
    ensures
        r@ == v@,
{
    let mut out: Vec<usize> = Vec::new();
    let mut i: usize = 0;
    while i < v.len()
        invariant
            i <= v@.len(),
            out@ == v@.take(i as int),
        decreases v@.len() - i,
    {
        out.push(v[i]);
        proof {
            assert(out@ =~= v@.take(i + 1));
        }
        i = i + 1;
    }
    proof {
        assert(v@.take(v@.len() as int) =~= v@);
    }
    out
}

proof fn lemma_views_update(v: Seq<Vec<usize>>, j: int, x: Vec<usize>)
    requires
        0 <= j < v.len(),
    ensures
        views(v.update(j, x)) == views(v).update(j, x@),
{
    assert(views(v.update(j, x)) =~= views(v).update(j, x@));
}

proof fn lemma_views_push(v: Seq<Vec<usize>>, x: Vec<usize>)
    ensures
        views(v.push(x)) == views(v).push(x@),
{
    assert(views(v.push(x)) =~= views(v).push(x@));
}

/// Put a pattern on the spines: keep, replace, or report that no spine
/// takes it.
fn place_pattern(spines: &mut Vec<Vec<usize>>, p: &Vec<usize>) -> (placed: bool)
    ensures
        placed == place_from(views(old(spines)@), p@, 0) is Some,
        views(final(spines)@) == match place_from(views(old(spines)@), p@, 0) {
            Some(found) => views(old(spines)@).update(found.0, found.1),
            None => views(old(spines)@),
        },
{
    let backward = reverse_ids(p);
    let ghost start = views(spines@);
    let mut j: usize = 0;
    while j < spines.len()
        invariant
            j <= spines@.len(),
            views(spines@) == start,
            start == views(old(spines)@),
            backward@ == reversed(p@),
            place_from(start, p@, 0) == place_from(start, p@, j as int),
        decreases spines@.len() - j,
    {
        proof {
            assert(start[j as int] == spines@[j as int]@);
        }
        if is_subsequence(&spines[j], p) || is_subsequence(&spines[j], &backward) {
            proof {
                assert(is_subseq(start[j as int], p@) || is_subseq(start[j as int], reversed(p@)));
                assert(place_from(start, p@, j as int) == Some((j as int, start[j as int])));
                assert(start.update(j as int, start[j as int]) =~= start);
            }
            return true;
        }
        if is_subsequence(p, &spines[j]) {
            let copy = copy_ids(p);
            proof {
                lemma_views_update(spines@, j as int, copy);
            }
            spines.set(j, copy);
            return true;
        }
        if is_subsequence(&backward, &spines[j]) {
            let copy = copy_ids(&backward);
            proof {
                lemma_views_update(spines@, j as int, copy);
            }
            spines.set(j, copy);
            return true;
        }
        j = j + 1;
    }
    false
}

fn station_name_of<'a>(network: &'a RailNetwork, s: usize) -> (r: &'a str)
    requires
        s < network.stations@.len(),
    ensures
        r@ == station_name(*network, s),
{
    network.stations[s].name.as_str()
}

/// The heading of a block of the axis: its first and its last station.
pub fn corridor_label(network: &RailNetwork, stations: &Vec<usize>) -> (r: String)
    requires
        forall|i: int| 0 <= i < stations@.len() ==> stations@[i] < network.stations@.len(),
    ensures
        r@ == corridor_label_text(*network, stations@),
{
    if stations.len() == 0 {
        return String::new();
    }
    let mut out = owned(station_name_of(network, stations[0]));
    push_str(&mut out, " \u{2013} ");
    push_str(&mut out, station_name_of(network, stations[stations.len() - 1]));
    out
}

/// Describe a pattern by its first and its last station.
pub fn describe_pattern(network: &RailNetwork, stations: &Vec<usize>) -> (r: String)
    requires
        forall|i: int| 0 <= i < stations@.len() ==> stations@[i] < network.stations@.len(),
    ensures
        r@ == pattern_text(*network, stations@),
{
    if stations.len() == 0 {
        return owned("? \u{2192} ?");
    }
    let mut out = owned(station_name_of(network, stations[0]));
    push_str(&mut out, " \u{2192} ");
    push_str(&mut out, station_name_of(network, stations[stations.len() - 1]));
    out
}

/// Derive the blocks of the axis from the patterns of a line, with
/// what the derivation has to report.
#[verifier::loop_isolation(false)]
pub fn derive_groups(network: &RailNetwork, patterns: &Vec<StopPattern>) -> (r: (
    Vec<AxisGroup>,
    Vec<Diagnostic>,
))
    requires
        patterns_name_stations(*network, patterns@),
    ensures
        exists|order: Seq<int>|
            is_claim_order(patterns@, order) && groups_of_spines(
                *network,
                patterns@,
                spine_state(patterns@, order, order.len() as int),
                r.0@,
                r.1@,
            ),
{
    let order = claim_order(patterns);
    let ghost o = order@.map_values(|i: usize| i as int);
    let mut spines: Vec<Vec<usize>> = Vec::new();
    let mut rejected: Vec<usize> = Vec::new();
    let mut m: usize = 0;
    while m < order.len()
        invariant
            m <= order@.len(),
            is_claim_order(patterns@, o),
            o.len() == order@.len(),
            forall|k: int| 0 <= k < order@.len() ==> o[k] == order@[k] as int,
            views(spines@) == spine_state(patterns@, o, m as int).0,
            rejected@.map_values(|i: usize| i as int) == spine_state(patterns@, o, m as int).1,
            forall|k: int| 0 <= k < rejected@.len() ==> (#[trigger] rejected@[k]) < patterns@.len(),
        decreases order@.len() - m,
    {
        let index = order[m];
        proof {
            assert(0 <= o[m as int] < patterns@.len());
        }
        let stations = &patterns[index].stations;
        let ghost before = spines@;
        let placed = place_pattern(&mut spines, stations);
        if !placed {
            let copy = copy_ids(stations);
            proof {
                lemma_views_push(spines@, copy);
            }
            if spines.len() > 0 {
                let ghost rej = rejected@;
                rejected.push(index);
                proof {
                    assert(rejected@.map_values(|i: usize| i as int) =~= rej.map_values(
                        |i: usize| i as int,
                    ).push(index as int));
                }
            }
            spines.push(copy);
        }
        proof {
            assert(patterns@[o[m as int]].stations@ == stations@);
        }
        m = m + 1;
    }
    proof {
        lemma_spine_state_names(patterns@, o, order@.len() as int, network.stations@.len() as int);
        assert forall|g: int, i: int|
            0 <= g < spines@.len() && 0 <= i < spines@[g]@.len() implies (
            #[trigger] spines@[g]@[i]) < network.stations@.len() by {
            assert(views(spines@)[g] == spines@[g]@);
        }
    }
    // The groups.
    let mut groups: Vec<AxisGroup> = Vec::new();
    let mut g: usize = 0;
    while g < spines.len()
        invariant
            g <= spines@.len(),
            groups@.len() == g,
            forall|g: int, i: int|
                0 <= g < spines@.len() && 0 <= i < spines@[g]@.len() ==> (
                #[trigger] spines@[g]@[i]) < network.stations@.len(),
            forall|h: int|
                0 <= h < g ==> (#[trigger] groups@[h]).stations@ == spines@[h]@ && groups@[h].label@
                    == corridor_label_text(*network, spines@[h]@) && groups@[h].is_branch_of is None,
        decreases spines@.len() - g,
    {
        groups.push(
            AxisGroup {
                label: corridor_label(network, &spines[g]),
                stations: copy_ids(&spines[g]),
                is_branch_of: None,
            },
        );
        g = g + 1;
    }
    // The diagnostics.
    let mut diagnostics: Vec<Diagnostic> = Vec::new();
    if spines.len() > 1 {
        let mut message = String::new();
        push_decimal(&mut message, spines.len() as u64);
        push_str(
            &mut message,
            " stop pattern group(s) do not fit on one station axis, so the diagram draws them in separate panels; define a corridor in the configuration to place them on one axis",
        );
        diagnostics.push(Diagnostic::warning("corridor-split", message));
        let mut k: usize = 0;
        while k < rejected.len()
            invariant
                k <= rejected@.len(),
                diagnostics@.len() == 1 + k,
                diagnostics@[0].severity == Severity::Warning,
                diagnostics@[0].code@ == "corridor-split"@,
                diagnostics@[0].message@ == split_message(spines@.len() as nat),
                forall|j: int|
                    0 <= j < k ==> (#[trigger] diagnostics@[j + 1]).severity == Severity::Info
                        && diagnostics@[j + 1].code@ == "corridor-separate-panel"@ && diagnostics@[j
                        + 1].message@ == own_panel_message(
                        *network,
                        patterns@[rejected@[j] as int].stations@,
                    ),
            decreases rejected@.len() - k,
        {
            let mut text = owned("the pattern ");
            push_str(&mut text, describe_pattern(network, &patterns[rejected[k]].stations).as_str());
            push_str(&mut text, " needs its own panel");
            diagnostics.push(Diagnostic::info("corridor-separate-panel", text));
            k = k + 1;
        }
    }
    proof {
        let st = spine_state(patterns@, o, o.len() as int);
        assert(views(spines@).len() == spines@.len());
        assert forall|h: int| 0 <= h < groups@.len() implies (#[trigger] groups@[h]).stations@
            == st.0[h] && groups@[h].label@ == corridor_label_text(*network, st.0[h])
            && groups@[h].is_branch_of is None by {
            assert(views(spines@)[h] == spines@[h]@);
        }
        if st.0.len() > 1 {
            assert forall|k: int| 0 <= k < st.1.len() implies (#[trigger] diagnostics@[k + 1]).severity
                == Severity::Info && diagnostics@[k + 1].code@ == "corridor-separate-panel"@
                && diagnostics@[k + 1].message@ == own_panel_message(
                *network,
                patterns@[st.1[k]].stations@,
            ) by {
                assert(rejected@.map_values(|i: usize| i as int)[k] == rejected@[k] as int);
            }
        }
        assert(is_claim_order(patterns@, o));
    }
    (groups, diagnostics)
}

/// A spine that a placement puts down holds only stations of the
/// network when the pattern and the spines do.
proof fn lemma_place_from_names(spines: Seq<Seq<usize>>, p: Seq<usize>, j: int, n: int)
    requires
        forall|g: int, i: int| 0 <= g < spines.len() && 0 <= i < spines[g].len() ==> (
        #[trigger] spines[g][i]) < n,
        forall|i: int| 0 <= i < p.len() ==> #[trigger] p[i] < n,
    ensures
        place_from(spines, p, j) matches Some(found) ==> j <= found.0 < spines.len() && forall|
            i: int,
        | 0 <= i < found.1.len() ==> #[trigger] found.1[i] < n,
    decreases spines.len() - j,
{
    if 0 <= j < spines.len() {
        if !(is_subseq(spines[j], p) || is_subseq(spines[j], reversed(p))) && !is_subseq(
            p,
            spines[j],
        ) && is_subseq(reversed(p), spines[j]) {
            assert forall|i: int| 0 <= i < reversed(p).len() implies #[trigger] reversed(p)[i] < n by {
                assert(reversed(p)[i] == p[p.len() - 1 - i]);
            }
        }
        lemma_place_from_names(spines, p, j + 1, n);
    }
}

/// Every spine holds only stations of the network when every pattern
/// does.
proof fn lemma_spine_state_names(ps: Seq<StopPattern>, order: Seq<int>, m: int, n: int)
    requires
        forall|p: int, i: int|
            0 <= p < ps.len() && 0 <= i < ps[p].stations@.len() ==> (#[trigger] ps[p].stations@[i])
                < n,
        forall|k: int| 0 <= k < order.len() ==> 0 <= #[trigger] order[k] < ps.len(),
        m <= order.len(),
    ensures
        forall|g: int, i: int|
            0 <= g < spine_state(ps, order, m).0.len() && 0 <= i < spine_state(
                ps,
                order,
                m,
            ).0[g].len() ==> (#[trigger] spine_state(ps, order, m).0[g][i]) < n,
        forall|k: int|
            0 <= k < spine_state(ps, order, m).1.len() ==> 0 <= #[trigger] spine_state(
                ps,
                order,
                m,
            ).1[k] < ps.len(),
    decreases m,
{
    if m > 0 {
        lemma_spine_state_names(ps, order, m - 1, n);
        assert(0 <= order[m - 1] < ps.len());
        let prev = spine_state(ps, order, m - 1);
        let p = ps[order[m - 1]].stations@;
        assert forall|i: int| 0 <= i < p.len() implies #[trigger] p[i] < n by {
            assert(ps[order[m - 1]].stations@[i] < n);
        }
        lemma_place_from_names(prev.0, p, 0, n);
        let cur = spine_state(ps, order, m);
        assert forall|g: int, i: int| 0 <= g < cur.0.len() && 0 <= i < cur.0[g].len() implies (
        #[trigger] cur.0[g][i]) < n by {
            match place_from(prev.0, p, 0) {
                Some(found) => {
                    if g != found.0 {
                        assert(cur.0[g] == prev.0[g]);
                    }
                },
                None => {
                    if g < prev.0.len() {
                        assert(cur.0[g] == prev.0[g]);
                    }
                },
            }
        }
    }
}

// ----------------------------------------------------------------------
// The corridor
// ----------------------------------------------------------------------

/// One position on the vertical axis of a diagram.
#[derive(Clone, Debug)]
pub struct CorridorNode {
    /// A stable key, `<station gtfs id>#<occurrence>`.
    pub key: String,
    /// The station at this position.
    pub station: StationView,
    /// The index of that station in the network.
    pub station_index: usize,
    /// How often the station has already appeared on this axis,
    /// starting at zero. The count runs across the whole corridor, so
    /// `key` names exactly one position.
    pub occurrence: usize,
    /// The panel that this node belongs to.
    pub panel: usize,
}

/// A block of the axis with its own heading.
#[derive(Clone, Debug)]
pub struct CorridorPanel {
    /// A stable key.
    pub id: String,
    /// The heading of the panel.
    pub label: String,
    /// The index of the first node of the panel.
    pub first_node: usize,
    /// The index of the last node of the panel.
    pub last_node: usize,
}

/// The vertical axis of a diagram.
#[derive(Clone, Debug)]
pub struct Corridor {
    /// The identifier of the corridor.
    pub id: String,
    /// The heading of the corridor.
    pub label: String,
    /// Every node of the axis, from top to bottom.
    pub nodes: Vec<CorridorNode>,
    /// The blocks of the axis.
    pub panels: Vec<CorridorPanel>,
}

impl Corridor {
    /// Get the node at an index.
    pub fn node(&self, index: usize) -> (n: &CorridorNode)
        requires
            index < self.nodes@.len(),
        ensures
            *n == self.nodes@[index as int],
    {
        &self.nodes[index]
    }
}

/// A path through the corridor that a run may follow: the main axis,
/// a panel of its own, or the main axis up to a junction and then a
/// branch.
#[derive(Clone, Debug)]
pub struct CorridorPath {
    /// The nodes of the path, from top to bottom.
    pub nodes: Vec<usize>,
    /// The station at each node.
    pub stations: Vec<usize>,
}

/// A resolved corridor with everything needed to map runs onto it.
#[derive(Clone, Debug)]
pub struct CorridorPlan {
    /// The axis.
    pub corridor: Corridor,
    /// The paths that a run may follow, the longest first.
    pub paths: Vec<CorridorPath>,
    /// What the resolver had to report.
    pub diagnostics: Vec<Diagnostic>,
}

/// Which way a run travels along the corridor.
#[derive(Copy, Clone, Debug, PartialEq, Eq, Structural)]
pub enum AxisDirection {
    /// The run follows the axis from top to bottom.
    Down,
    /// The run follows the axis from bottom to top.
    Up,
}

/// The result of mapping the calls of one run onto the corridor.
#[derive(Clone, Debug)]
pub struct RunMapping {
    /// One node index per call of the run.
    pub nodes: Vec<usize>,
    /// Which way the run travels.
    pub direction: AxisDirection,
}

/// The node of every station of the groups `0..g`, with the group it
/// belongs to.
pub open spec fn flat_upto(groups: Seq<AxisGroup>, g: int) -> Seq<(usize, int)>
    decreases g,
{
    if g <= 0 {
        Seq::empty()
    } else {
        flat_upto(groups, g - 1) + groups[g - 1].stations@.map_values(|s: usize| (s, g - 1))
    }
}

/// How often a station occurs among the first `i` nodes.
pub open spec fn occurrences_before(flat: Seq<(usize, int)>, station: usize, i: int) -> nat
    decreases i,
{
    if i <= 0 {
        0
    } else {
        occurrences_before(flat, station, i - 1) + if flat[i - 1].0 == station {
            1nat
        } else {
            0nat
        }
    }
}

/// The node indexes `first..first + n`.
pub open spec fn node_range(first: int, n: int) -> Seq<int> {
    Seq::new(n as nat, |i: int| first + i)
}

/// The panel of one non-empty group: identifier, heading, first and
/// last node.
pub open spec fn panel_of_group(id: Seq<char>, groups: Seq<AxisGroup>, g: int) -> (
    Seq<char>,
    Seq<char>,
    int,
    int,
) {
    (
        id + "-p"@ + decimal(g as nat),
        groups[g].label@,
        flat_upto(groups, g).len() as int,
        flat_upto(groups, g + 1).len() - 1,
    )
}

/// The path of one non-empty group: its own nodes, after the main axis
/// up to the junction for a branch.
pub open spec fn path_of_group(groups: Seq<AxisGroup>, g: int) -> (Seq<int>, Seq<usize>) {
    let own = node_range(flat_upto(groups, g).len() as int, groups[g].stations@.len() as int);
    match groups[g].is_branch_of {
        None => (own, groups[g].stations@),
        Some(j) => (
            node_range(0, j + 1) + own,
            groups[0].stations@.take(j + 1) + groups[g].stations@,
        ),
    }
}

/// The panels of the non-empty groups among `0..g`.
pub open spec fn panels_upto(id: Seq<char>, groups: Seq<AxisGroup>, g: int) -> Seq<
    (Seq<char>, Seq<char>, int, int),
>
    decreases g,
{
    if g <= 0 {
        Seq::empty()
    } else if groups[g - 1].stations@.len() == 0 {
        panels_upto(id, groups, g - 1)
    } else {
        panels_upto(id, groups, g - 1).push(panel_of_group(id, groups, g - 1))
    }
}

/// The paths of the non-empty groups among `0..g`, in group order.
pub open spec fn paths_upto(groups: Seq<AxisGroup>, g: int) -> Seq<(Seq<int>, Seq<usize>)>
    decreases g,
{
    if g <= 0 {
        Seq::empty()
    } else if groups[g - 1].stations@.len() == 0 {
        paths_upto(groups, g - 1)
    } else {
        paths_upto(groups, g - 1).push(path_of_group(groups, g - 1))
    }
}

/// Whether path `a` comes before path `b`: the longer first, and in
/// group order for one length.
pub open spec fn longer_first(paths: Seq<(Seq<int>, Seq<usize>)>, a: int, b: int) -> bool {
    paths[a].1.len() > paths[b].1.len() || (paths[a].1.len() == paths[b].1.len() && a < b)
}

/// Whether `order` lists the paths longest first, and paths of one
/// length in their group order.
pub open spec fn is_length_order(paths: Seq<(Seq<int>, Seq<usize>)>, order: Seq<int>) -> bool {
    &&& order.len() == paths.len()
    &&& forall|k: int| 0 <= k < order.len() ==> 0 <= #[trigger] order[k] < paths.len()
    &&& forall|k: int, l: int| 0 <= k < l < order.len() ==> #[trigger] order[k] != #[trigger] order[l]
    &&& forall|k: int, l: int|
        0 <= k < l < order.len() ==> longer_first(paths, #[trigger] order[k], #[trigger] order[l])
}

/// Whether the groups can be assembled: every station is one of the
/// network, and a branch leaves a non-empty main axis at one of its
/// stations.
pub open spec fn groups_fit(network: RailNetwork, groups: Seq<AxisGroup>) -> bool {
    &&& forall|g: int, i: int|
        0 <= g < groups.len() && 0 <= i < groups[g].stations@.len() ==> (
        #[trigger] groups[g].stations@[i]) < network.stations@.len()
    &&& forall|g: int|
        0 <= g < groups.len() && (#[trigger] groups[g]).is_branch_of is Some ==> g > 0
            && groups[0].is_branch_of is None && groups[g].is_branch_of->0
            < groups[0].stations@.len()
}

/// Whether node `i` of a corridor is the `i`-th station of the groups.
pub open spec fn node_matches(
    network: RailNetwork,
    flat: Seq<(usize, int)>,
    i: int,
    n: CorridorNode,
) -> bool {
    let st = network.stations@[flat[i].0 as int];
    &&& n.station_index == flat[i].0
    &&& n.panel == flat[i].1
    &&& n.occurrence == occurrences_before(flat, flat[i].0, i)
    &&& n.key@ == st.gtfs_id@ + "#"@ + decimal(n.occurrence as nat)
    &&& n.station.gtfs_id@ == st.gtfs_id@
    &&& n.station.name@ == st.name@
    &&& string_views(n.station.codes@) == string_views(st.codes@)
}

/// Whether a panel carries an identifier, a heading, and its nodes.
pub open spec fn panel_matches(p: CorridorPanel, want: (Seq<char>, Seq<char>, int, int)) -> bool {
    &&& p.id@ == want.0
    &&& p.label@ == want.1
    &&& p.first_node == want.2
    &&& p.last_node == want.3
}

/// Whether a corridor plan is the assembly of the groups.
pub open spec fn assembled(
    network: RailNetwork,
    id: Seq<char>,
    label: Seq<char>,
    groups: Seq<AxisGroup>,
    diagnostics: Seq<Diagnostic>,
    plan: CorridorPlan,
) -> bool {
    let flat = flat_upto(groups, groups.len() as int);
    let panels = panels_upto(id, groups, groups.len() as int);
    let paths = paths_upto(groups, groups.len() as int);
    &&& plan.corridor.id@ == id
    &&& plan.corridor.label@ == label
    &&& plan.corridor.nodes@.len() == flat.len()
    &&& forall|i: int|
        0 <= i < flat.len() ==> node_matches(network, flat, i, #[trigger] plan.corridor.nodes@[i])
    &&& plan.corridor.panels@.len() == panels.len()
    &&& forall|k: int|
        0 <= k < panels.len() ==> panel_matches(#[trigger] plan.corridor.panels@[k], panels[k])
    &&& exists|order: Seq<int>|
        is_length_order(paths, order) && plan.paths@.len() == order.len() && forall|k: int|
            0 <= k < order.len() ==> (#[trigger] plan.paths@[k]).nodes@.map_values(
                |v: usize| v as int,
            ) == paths[order[k]].0 && plan.paths@[k].stations@ == paths[order[k]].1
    &&& plan.diagnostics@ == diagnostics
}

/// The view of a path: its nodes as integers, and its stations.
pub open spec fn path_view(p: CorridorPath) -> (Seq<int>, Seq<usize>) {
    (p.nodes@.map_values(|v: usize| v as int), p.stations@)
}

/// The views of a run of paths.
pub open spec fn path_views(ps: Seq<CorridorPath>) -> Seq<(Seq<int>, Seq<usize>)> {
    ps.map_values(|p: CorridorPath| path_view(p))
}

proof fn lemma_occurrences_prefix(a: Seq<(usize, int)>, b: Seq<(usize, int)>, s: usize, i: int)
    requires
        0 <= i <= a.len(),
    ensures
        occurrences_before(a + b, s, i) == occurrences_before(a, s, i),
    decreases i,
{
    if i > 0 {
        lemma_occurrences_prefix(a, b, s, i - 1);
        assert((a + b)[i - 1] == a[i - 1]);
    }
}

proof fn lemma_occurrences_bound(a: Seq<(usize, int)>, s: usize, i: int)
    requires
        0 <= i,
    ensures
        occurrences_before(a, s, i) <= i,
    decreases i,
{
    if i > 0 {
        lemma_occurrences_bound(a, s, i - 1);
    }
}

fn make_node(network: &RailNetwork, station: usize, occurrence: usize, panel: usize) -> (n:
    CorridorNode)
    requires
        station < network.stations@.len(),
    ensures
        n.station_index == station,
        n.panel == panel,
        n.occurrence == occurrence,
        n.key@ == network.stations@[station as int].gtfs_id@ + "#"@ + decimal(occurrence as nat),
        n.station.gtfs_id@ == network.stations@[station as int].gtfs_id@,
        n.station.name@ == network.stations@[station as int].name@,
        string_views(n.station.codes@) == string_views(network.stations@[station as int].codes@),
{
    let view = StationView::from_station(&network.stations[station]);
    let mut key = owned(network.stations[station].gtfs_id.as_str());
    push_str(&mut key, "#");
    push_decimal(&mut key, occurrence as u64);
    CorridorNode { key, station: view, station_index: station, occurrence, panel }
}

fn group_path(groups: &Vec<AxisGroup>, g: usize, first: usize) -> (p: CorridorPath)
    requires
        g < groups@.len(),
        first == flat_upto(groups@, g as int).len(),
        first + groups@[g as int].stations@.len() <= usize::MAX,
        groups@[g as int].is_branch_of matches Some(j) ==> j < groups@[0].stations@.len() && j
            < first,
    ensures
        path_view(p) == path_of_group(groups@, g as int),
{
    let group = &groups[g];
    let mut nodes: Vec<usize> = Vec::new();
    let mut stations: Vec<usize> = Vec::new();
    match group.is_branch_of {
        Some(j) => {
            let main = &groups[0].stations;
            let mut k: usize = 0;
            while k <= j
                invariant
                    k <= j + 1,
                    j < main@.len(),
                    j < first,
                    nodes@.len() == k,
                    forall|x: int| 0 <= x < k ==> nodes@[x] == x,
                    stations@ == main@.take(k as int),
                decreases j + 1 - k,
            {
                nodes.push(k);
                stations.push(main[k]);
                proof {
                    assert(stations@ =~= main@.take(k + 1));
                }
                k = k + 1;
            }
        },
        None => {},
    }
    let ghost prefix_nodes = nodes@;
    let ghost prefix_stations = stations@;
    let ghost prefix_len: int = match group.is_branch_of {
        Some(j) => j + 1,
        None => 0,
    };
    proof {
        assert(prefix_nodes.len() == prefix_len);
        assert(forall|x: int| 0 <= x < prefix_len ==> prefix_nodes[x] == x);
    }
    let mut q: usize = 0;
    while q < group.stations.len()
        invariant
            q <= group.stations@.len(),
            first + group.stations@.len() <= usize::MAX,
            nodes@.len() == prefix_nodes.len() + q,
            forall|x: int| 0 <= x < prefix_nodes.len() ==> nodes@[x] == prefix_nodes[x],
            forall|x: int|
                prefix_nodes.len() <= x < nodes@.len() ==> nodes@[x] == first + (x
                    - prefix_nodes.len()),
            stations@ == prefix_stations + group.stations@.take(q as int),
        decreases group.stations@.len() - q,
    {
        nodes.push(first + q);
        stations.push(group.stations[q]);
        proof {
            assert(stations@ =~= prefix_stations + group.stations@.take(q + 1));
        }
        q = q + 1;
    }
    let p = CorridorPath { nodes, stations };
    proof {
        assert(group.stations@.take(group.stations@.len() as int) =~= group.stations@);
        let own = node_range(first as int, group.stations@.len() as int);
        match group.is_branch_of {
            Some(j) => {
                let m = p.nodes@.map_values(|v: usize| v as int);
                let want = node_range(0, j + 1) + own;
                assert forall|x: int| 0 <= x < m.len() implies m[x] == want[x] by {
                    if x < j + 1 {
                        assert(p.nodes@[x] == prefix_nodes[x]);
                    }
                }
                assert(m =~= want);
            },
            None => {
                assert(p.nodes@.map_values(|v: usize| v as int) =~= own);
                assert(prefix_stations =~= Seq::<usize>::empty());
            },
        }
    }
    p
}

proof fn lemma_longer_first(paths: Seq<(Seq<int>, Seq<usize>)>, a: int, b: int, c: int)
    ensures
        a != b ==> longer_first(paths, a, b) || longer_first(paths, b, a),
        !(longer_first(paths, a, b) && longer_first(paths, b, a)),
        longer_first(paths, a, b) && longer_first(paths, b, c) ==> longer_first(paths, a, c),
{
}

fn length_order(paths: &Vec<CorridorPath>) -> (order: Vec<usize>)
    ensures
        is_length_order(path_views(paths@), order@.map_values(|i: usize| i as int)),
{
    let ghost pv = path_views(paths@);
    let mut order: Vec<usize> = Vec::new();
    let mut i: usize = 0;
    while i < paths.len()
        invariant
            i <= paths@.len(),
            pv == path_views(paths@),
            pv.len() == paths@.len(),
            order@.len() == i,
            forall|k: int| 0 <= k < order@.len() ==> (#[trigger] order@[k]) < i,
            forall|k: int, l: int|
                0 <= k < l < order@.len() ==> #[trigger] order@[k] != #[trigger] order@[l],
            forall|k: int, l: int|
                0 <= k < l < order@.len() ==> longer_first(
                    pv,
                    #[trigger] order@[k] as int,
                    #[trigger] order@[l] as int,
                ),
        decreases paths@.len() - i,
    {
        let mut pos: usize = 0;
        while pos < order.len() && paths[order[pos]].stations.len() >= paths[i].stations.len()
            invariant
                pos <= order@.len(),
                i < paths@.len(),
                pv == path_views(paths@),
                forall|k: int| 0 <= k < order@.len() ==> (#[trigger] order@[k]) < i,
                forall|k: int| 0 <= k < pos ==> longer_first(pv, #[trigger] order@[k] as int, i as int),
            decreases order@.len() - pos,
        {
            proof {
                assert(pv[order@[pos as int] as int].1 == paths@[order@[pos as int] as int].stations@);
                assert(pv[i as int].1 == paths@[i as int].stations@);
            }
            pos = pos + 1;
        }
        proof {
            if pos < order@.len() {
                assert(pv[order@[pos as int] as int].1 == paths@[order@[pos as int] as int].stations@);
                assert(pv[i as int].1 == paths@[i as int].stations@);
                assert(longer_first(pv, i as int, order@[pos as int] as int));
            }
        }
        let ghost old_order = order@;
        order.insert(pos, i);
        proof {
            assert(order@ == old_order.insert(pos as int, i));
            assert forall|k: int, l: int|
                0 <= k < l < order@.len() implies longer_first(
                pv,
                #[trigger] order@[k] as int,
                #[trigger] order@[l] as int,
            ) by {
                if k == pos as int {
                    assert(order@[l] == old_order[l - 1]);
                    if l - 1 > pos {
                        lemma_longer_first(
                            pv,
                            i as int,
                            old_order[pos as int] as int,
                            old_order[l - 1] as int,
                        );
                    }
                } else if l == pos as int {
                    assert(order@[k] == old_order[k]);
                } else {
                    let ok = if k < pos { k } else { k - 1 };
                    let ol = if l < pos { l } else { l - 1 };
                    assert(order@[k] == old_order[ok]);
                    assert(order@[l] == old_order[ol]);
                }
            }
            assert forall|k: int, l: int|
                0 <= k < l < order@.len() implies #[trigger] order@[k] != #[trigger] order@[l] by {
                if k != pos as int && l != pos as int {
                    let ok = if k < pos { k } else { k - 1 };
                    let ol = if l < pos { l } else { l - 1 };
                    assert(order@[k] == old_order[ok]);
                    assert(order@[l] == old_order[ol]);
                } else if k == pos as int {
                    assert(order@[l] == old_order[l - 1]);
                } else {
                    assert(order@[k] == old_order[k]);
                }
            }
            assert forall|k: int| 0 <= k < order@.len() implies (#[trigger] order@[k]) < i + 1 by {
                if k < pos {
                    assert(order@[k] == old_order[k]);
                } else if k > pos {
                    assert(order@[k] == old_order[k - 1]);
                }
            }
        }
        i = i + 1;
    }
    proof {
        let o = order@.map_values(|i: usize| i as int);
        assert forall|k: int, l: int| 0 <= k < l < o.len() implies #[trigger] o[k] != #[trigger] o[l] by {
            assert(order@[k] != order@[l]);
        }
        assert forall|k: int, l: int|
            0 <= k < l < o.len() implies longer_first(pv, #[trigger] o[k], #[trigger] o[l]) by {
            assert(longer_first(pv, order@[k] as int, order@[l] as int));
        }
    }
    order
}

proof fn lemma_flat_len(groups: Seq<AxisGroup>, g: int)
    requires
        1 <= g <= groups.len(),
    ensures
        flat_upto(groups, g).len() >= groups[0].stations@.len(),
        flat_upto(groups, g).len() >= flat_upto(groups, g - 1).len(),
    decreases g,
{
    if g > 1 {
        lemma_flat_len(groups, g - 1);
    } else {
        assert(flat_upto(groups, 0).len() == 0);
    }
}

proof fn lemma_flat_index(groups: Seq<AxisGroup>, g: int, i: int)
    requires
        0 <= g,
        0 <= i < flat_upto(groups, g).len(),
    ensures
        flat_upto(groups, g)[i].1 < g,
        0 <= flat_upto(groups, g)[i].1,
    decreases g,
{
    if g > 0 {
        let prev = flat_upto(groups, g - 1);
        if i < prev.len() {
            lemma_flat_index(groups, g - 1, i);
        }
    }
}

fn copy_path(p: &CorridorPath) -> (r: CorridorPath)
    ensures
        path_view(r) == path_view(*p),
{
    CorridorPath { nodes: copy_ids(&p.nodes), stations: copy_ids(&p.stations) }
}

fn panel_id(id: &str, g: usize) -> (r: String)
    ensures
        r@ == id@ + "-p"@ + decimal(g as nat),
{
    let mut out = owned(id);
    push_str(&mut out, "-p");
    push_decimal(&mut out, g as u64);
    out
}

/// Turn the blocks into a corridor: its nodes, its panels, and the
/// paths that a run may follow, the longest first so a branch run
/// matches the branch path rather than the shorter main-axis prefix.
#[verifier::loop_isolation(false)]
pub fn assemble(
    network: &RailNetwork,
    id: &str,
    label: &str,
    groups: &Vec<AxisGroup>,
    diagnostics: Vec<Diagnostic>,
) -> (plan: CorridorPlan)
    requires
        groups_fit(*network, groups@),
    ensures
        assembled(*network, id@, label@, groups@, diagnostics@, plan),
        paths_consistent(plan.paths@),
{
    let n_st = network.stations.len();
    let mut counts: Vec<usize> = Vec::new();
    while counts.len() < n_st
        invariant
            counts@.len() <= n_st,
            n_st == network.stations@.len(),
            forall|s: int| 0 <= s < counts@.len() ==> counts@[s] == 0,
        decreases n_st - counts@.len(),
    {
        counts.push(0);
    }
    let mut nodes: Vec<CorridorNode> = Vec::new();
    let mut panels: Vec<CorridorPanel> = Vec::new();
    let mut unsorted: Vec<CorridorPath> = Vec::new();
    let mut g: usize = 0;
    proof {
        assert forall|s: int| 0 <= s < n_st implies counts@[s] == occurrences_before(
            flat_upto(groups@, 0),
            s as usize,
            0,
        ) by {}
        assert(path_views(unsorted@) =~= paths_upto(groups@, 0));
    }
    while g < groups.len()
        invariant
            g <= groups@.len(),
            n_st == network.stations@.len(),
            counts@.len() == n_st,
            nodes@.len() == flat_upto(groups@, g as int).len(),
            forall|i: int|
                0 <= i < nodes@.len() ==> node_matches(
                    *network,
                    flat_upto(groups@, g as int),
                    i,
                    #[trigger] nodes@[i],
                ),
            forall|s: int|
                0 <= s < n_st ==> #[trigger] counts@[s] == occurrences_before(
                    flat_upto(groups@, g as int),
                    s as usize,
                    flat_upto(groups@, g as int).len() as int,
                ),
            panels@.len() == panels_upto(id@, groups@, g as int).len(),
            forall|k: int|
                0 <= k < panels@.len() ==> panel_matches(
                    #[trigger] panels@[k],
                    panels_upto(id@, groups@, g as int)[k],
                ),
            path_views(unsorted@) == paths_upto(groups@, g as int),
        decreases groups@.len() - g,
    {
        let group = &groups[g];
        let ghost base = flat_upto(groups@, g as int);
        let ghost mapped = group.stations@.map_values(|s: usize| (s, g as int));
        proof {
            assert(flat_upto(groups@, g + 1) == base + groups@[g as int].stations@.map_values(
                |s: usize| (s, (g + 1) - 1),
            ));
            assert(flat_upto(groups@, g + 1) =~= base + mapped);
        }
        if group.stations.len() > 0 {
            let first = nodes.len();
            let mut q: usize = 0;
            while q < group.stations.len()
                invariant
                    q <= group.stations@.len(),
                    g < groups@.len(),
                    *group == groups@[g as int],
                    mapped == group.stations@.map_values(|s: usize| (s, g as int)),
                    n_st == network.stations@.len(),
                    counts@.len() == n_st,
                    nodes@.len() == base.len() + q,
                    forall|i: int|
                        0 <= i < nodes@.len() ==> node_matches(
                            *network,
                            base + mapped.take(q as int),
                            i,
                            #[trigger] nodes@[i],
                        ),
                    forall|s: int|
                        0 <= s < n_st ==> #[trigger] counts@[s] == occurrences_before(
                            base + mapped.take(q as int),
                            s as usize,
                            (base + mapped.take(q as int)).len() as int,
                        ),
                    forall|i: int|
                        0 <= i < group.stations@.len() ==> (#[trigger] group.stations@[i]) < n_st,
                decreases group.stations@.len() - q,
            {
                let st = group.stations[q];
                let ghost cur = base + mapped.take(q as int);
                let ghost next = base + mapped.take(q + 1);
                proof {
                    assert(mapped.take(q + 1) =~= mapped.take(q as int).push(mapped[q as int]));
                    assert(mapped[q as int] == (st, g as int));
                    assert(next =~= cur + seq![(st, g as int)]);
                    lemma_occurrences_bound(cur, st, cur.len() as int);
                }
                let ghost old_nodes = nodes@;
                let ghost old_counts = counts@;
                let occ = counts[st];
                nodes.push(make_node(network, st, occ, g));
                let total = nodes.len();
                counts.set(st, occ + 1);
                proof {
                    assert forall|i: int| 0 <= i < nodes@.len() implies node_matches(
                        *network,
                        next,
                        i,
                        #[trigger] nodes@[i],
                    ) by {
                        lemma_occurrences_prefix(cur, seq![(st, g as int)], next[i].0, i);
                        if i < cur.len() {
                            assert(next[i] == cur[i]);
                            assert(nodes@[i] == old_nodes[i]);
                            assert(node_matches(*network, cur, i, old_nodes[i]));
                        } else {
                            assert(next[i] == (st, g as int));
                            assert(old_counts[st as int] == occurrences_before(
                                cur,
                                st,
                                cur.len() as int,
                            ));
                        }
                    }
                    assert forall|s: int| 0 <= s < n_st implies #[trigger] counts@[s]
                        == occurrences_before(next, s as usize, next.len() as int) by {
                        lemma_occurrences_prefix(cur, seq![(st, g as int)], s as usize, cur.len() as int);
                        assert(old_counts[s] == occurrences_before(cur, s as usize, cur.len() as int));
                        assert(next[cur.len() as int] == (st, g as int));
                    }
                }
                q = q + 1;
            }
            proof {
                assert(mapped.take(q as int) =~= mapped);
            }
            let last = nodes.len() - 1;
            proof {
                assert(g < groups@.len());
            }
            panels.push(
                CorridorPanel {
                    id: panel_id(id, g),
                    label: owned(group.label.as_str()),
                    first_node: first,
                    last_node: last,
                },
            );
            proof {
                match group.is_branch_of {
                    Some(j) => {
                        lemma_flat_len(groups@, g as int);
                    },
                    None => {},
                }
            }
            let path = group_path(groups, g, first);
            let ghost before_paths = unsorted@;
            unsorted.push(path);
            proof {
                assert(path_views(unsorted@) =~= path_views(before_paths).push(path_view(path)));
            }
        } else {
            proof {
                assert(mapped =~= Seq::<(usize, int)>::empty());
                assert(base + mapped =~= base);
            }
        }
        g = g + 1;
    }
    let order = length_order(&unsorted);
    let ghost o = order@.map_values(|i: usize| i as int);
    let mut paths: Vec<CorridorPath> = Vec::new();
    let mut k: usize = 0;
    while k < order.len()
        invariant
            k <= order@.len(),
            is_length_order(path_views(unsorted@), o),
            o.len() == order@.len(),
            forall|j: int| 0 <= j < order@.len() ==> o[j] == order@[j] as int,
            paths@.len() == k,
            forall|j: int|
                0 <= j < k ==> path_view(#[trigger] paths@[j]) == path_views(unsorted@)[o[j]],
        decreases order@.len() - k,
    {
        proof {
            assert(0 <= o[k as int] < path_views(unsorted@).len());
        }
        paths.push(copy_path(&unsorted[order[k]]));
        k = k + 1;
    }
    let plan = CorridorPlan {
        corridor: Corridor { id: owned(id), label: owned(label), nodes, panels },
        paths,
        diagnostics,
    };
    proof {
        let pv = paths_upto(groups@, groups@.len() as int);
        lemma_paths_upto_consistent(groups@, groups@.len() as int);
        assert forall|j: int| 0 <= j < o.len() implies (#[trigger] plan.paths@[j]).nodes@.map_values(
            |v: usize| v as int,
        ) == pv[o[j]].0 && plan.paths@[j].stations@ == pv[o[j]].1 by {
            assert(path_view(plan.paths@[j]) == pv[o[j]]);
        }
        assert forall|j: int| 0 <= j < plan.paths@.len() implies (
        #[trigger] plan.paths@[j]).nodes@.len() == plan.paths@[j].stations@.len() by {
            assert(path_view(plan.paths@[j]) == pv[o[j]]);
            assert(plan.paths@[j].nodes@.map_values(|v: usize| v as int).len()
                == plan.paths@[j].nodes@.len());
        }
    }
    plan
}

/// Whether every path carries one node per station.
pub open spec fn paths_consistent(paths: Seq<CorridorPath>) -> bool {
    forall|k: int| 0 <= k < paths.len() ==> (#[trigger] paths[k]).nodes@.len() == paths[k].stations@.len()
}

/// The nodes at the given positions of a path.
pub open spec fn nodes_at(path: CorridorPath, idx: Seq<int>) -> Seq<usize> {
    idx.map_values(|i: int| path.nodes@[i])
}

/// The mapping of a run onto the paths from path `k` on: the first
/// path that holds the calls from top to bottom, or else from bottom
/// to top.
pub open spec fn map_run_from(paths: Seq<CorridorPath>, stations: Seq<usize>, k: int) -> Option<
    (Seq<usize>, AxisDirection),
>
    decreases paths.len() - k,
{
    if k < 0 || k >= paths.len() {
        None
    } else {
        match forward_match(paths[k].stations@, stations) {
            Some(idx) => Some((nodes_at(paths[k], idx), AxisDirection::Down)),
            None => match backward_match(paths[k].stations@, stations) {
                Some(idx) => Some((nodes_at(paths[k], idx), AxisDirection::Up)),
                None => map_run_from(paths, stations, k + 1),
            },
        }
    }
}

/// The mapping of a run onto a corridor; none for a run of fewer than
/// two calls.
pub open spec fn map_run_spec(paths: Seq<CorridorPath>, stations: Seq<usize>) -> Option<
    (Seq<usize>, AxisDirection),
> {
    if stations.len() < 2 {
        None
    } else {
        map_run_from(paths, stations, 0)
    }
}

fn pick_nodes(path: &CorridorPath, idx: &Vec<usize>, ghost_idx: Ghost<Seq<int>>) -> (r: Vec<usize>)
    requires
        path.nodes@.len() == path.stations@.len(),
        idx@.len() == ghost_idx@.len(),
        forall|k: int| 0 <= k < idx@.len() ==> idx@[k] == ghost_idx@[k],
        forall|k: int| 0 <= k < ghost_idx@.len() ==> 0 <= #[trigger] ghost_idx@[k] < path.stations@.len(),
    ensures
        r@ == nodes_at(*path, ghost_idx@),
{
    let mut out: Vec<usize> = Vec::new();
    let mut k: usize = 0;
    while k < idx.len()
        invariant
            k <= idx@.len(),
            path.nodes@.len() == path.stations@.len(),
            idx@.len() == ghost_idx@.len(),
            forall|j: int| 0 <= j < idx@.len() ==> idx@[j] == ghost_idx@[j],
            forall|j: int|
                0 <= j < ghost_idx@.len() ==> 0 <= #[trigger] ghost_idx@[j] < path.stations@.len(),
            out@.len() == k,
            forall|j: int| 0 <= j < k ==> out@[j] == path.nodes@[ghost_idx@[j]],
        decreases idx@.len() - k,
    {
        proof {
            assert(0 <= ghost_idx@[k as int] < path.stations@.len());
        }
        out.push(path.nodes[idx[k]]);
        k = k + 1;
    }
    proof {
        assert(out@ =~= nodes_at(*path, ghost_idx@));
    }
    out
}

impl CorridorPlan {
    /// Map the calls of one run onto the corridor.
    ///
    /// Returns `None` when no path of the corridor contains the calls
    /// in order, for example when a loop run traverses the axis more
    /// often than the corridor was unrolled for.
    pub fn map_run(&self, stations: &Vec<usize>) -> (r: Option<RunMapping>)
        requires
            paths_consistent(self.paths@),
        ensures
            match map_run_spec(self.paths@, stations@) {
                Some(m) => r matches Some(x) && x.nodes@ == m.0 && x.direction == m.1,
                None => r is None,
            },
    {
        if stations.len() < 2 {
            return None;
        }
        let mut k: usize = 0;
        while k < self.paths.len()
            invariant
                k <= self.paths@.len(),
                stations@.len() >= 2,
                paths_consistent(self.paths@),
                map_run_spec(self.paths@, stations@) == map_run_from(self.paths@, stations@, k as int),
            decreases self.paths@.len() - k,
        {
            let path = &self.paths[k];
            proof {
                assert(path.nodes@.len() == path.stations@.len());
            }
            match match_forward(&path.stations, stations) {
                Some(idx) => {
                    let ghost g = forward_match(path.stations@, stations@)->0;
                    proof {
                        lemma_forward_match_is_exact(path.stations@, stations@);
                    }
                    let nodes = pick_nodes(path, &idx, Ghost(g));
                    return Some(RunMapping { nodes, direction: AxisDirection::Down });
                },
                None => {},
            }
            match match_backward(&path.stations, stations) {
                Some(idx) => {
                    let ghost g = backward_match(path.stations@, stations@)->0;
                    proof {
                        lemma_backward_match_is_exact(path.stations@, stations@);
                    }
                    let nodes = pick_nodes(path, &idx, Ghost(g));
                    return Some(RunMapping { nodes, direction: AxisDirection::Up });
                },
                None => {},
            }
            k = k + 1;
        }
        None
    }
}

proof fn lemma_paths_upto_consistent(groups: Seq<AxisGroup>, g: int)
    requires
        forall|h: int|
            0 <= h < groups.len() && (#[trigger] groups[h]).is_branch_of is Some ==> h > 0
                && groups[0].is_branch_of is None && groups[h].is_branch_of->0
                < groups[0].stations@.len(),
        g <= groups.len(),
    ensures
        forall|k: int|
            0 <= k < paths_upto(groups, g).len() ==> (#[trigger] paths_upto(groups, g)[k]).0.len()
                == paths_upto(groups, g)[k].1.len(),
    decreases g,
{
    if g > 0 {
        lemma_paths_upto_consistent(groups, g - 1);
        if groups[g - 1].stations@.len() > 0 {
            let p = path_of_group(groups, g - 1);
            match groups[g - 1].is_branch_of {
                Some(j) => {
                    assert(groups[g - 1].is_branch_of->0 < groups[0].stations@.len());
                    assert(groups[0].stations@.take(j + 1).len() == j + 1);
                },
                None => {},
            }
            assert(p.0.len() == p.1.len());
            let prev = paths_upto(groups, g - 1);
            assert forall|k: int| 0 <= k < paths_upto(groups, g).len() implies (
            #[trigger] paths_upto(groups, g)[k]).0.len() == paths_upto(groups, g)[k].1.len() by {
                if k < prev.len() {
                    assert(paths_upto(groups, g)[k] == prev[k]);
                }
            }
        } else {
            assert(paths_upto(groups, g) == paths_upto(groups, g - 1));
        }
    }
}

// ----------------------------------------------------------------------
// A corridor from the configuration
// ----------------------------------------------------------------------

/// Whether a station answers to a name in one of three ways: by one of
/// its public codes, by its GTFS identifier, or by its public name.
pub open spec fn answers_to(st: Station, name: Seq<char>, way: int) -> bool {
    if way == 0 {
        exists|c: int| 0 <= c < st.codes@.len() && (#[trigger] st.codes@[c])@ == name
    } else if way == 1 {
        st.gtfs_id@ == name
    } else {
        st.name@ == name
    }
}

/// The first station from `i` on that answers to a name in one way.
pub open spec fn first_answering(network: RailNetwork, name: Seq<char>, way: int, i: int) -> Option<
    int,
>
    decreases network.stations@.len() - i,
{
    if i < 0 || i >= network.stations@.len() {
        None
    } else if answers_to(network.stations@[i], name, way) {
        Some(i)
    } else {
        first_answering(network, name, way, i + 1)
    }
}

/// The station that a configuration names: the first with the name as
/// a code, else the first with it as a GTFS identifier, else the first
/// with it as a public name.
pub open spec fn resolve_station_spec(network: RailNetwork, name: Seq<char>) -> Option<int> {
    match first_answering(network, name, 0, 0) {
        Some(i) => Some(i),
        None => match first_answering(network, name, 1, 0) {
            Some(i) => Some(i),
            None => first_answering(network, name, 2, 0),
        },
    }
}

/// The stations of a list of names, or the first name that names none.
pub open spec fn resolve_all_spec(network: RailNetwork, names: Seq<String>) -> Result<
    Seq<usize>,
    Seq<char>,
>
    decreases names.len(),
{
    if names.len() == 0 {
        Ok(Seq::empty())
    } else {
        match resolve_all_spec(network, names.drop_last()) {
            Err(e) => Err(e),
            Ok(prefix) => match resolve_station_spec(network, names.last()@) {
                None => Err(names.last()@),
                Some(i) => Ok(prefix.push(i as usize)),
            },
        }
    }
}

/// The message of a corridor that names a station the feed lacks.
pub open spec fn unknown_station_message(corridor: Seq<char>, name: Seq<char>) -> Seq<char> {
    "the corridor \""@ + corridor + "\" names the station \""@ + name
        + "\", which is not in the feed"@
}

/// The message of a junction that is not on the main axis.
pub open spec fn junction_message(corridor: Seq<char>, junction: Seq<char>) -> Seq<char> {
    "the junction \""@ + junction + "\" is not on the axis of corridor \""@ + corridor + "\""@
}

/// The first position of a station on an axis.
pub open spec fn position_in(axis: Seq<usize>, s: usize) -> Option<int> {
    first_at(axis, s, 0)
}

/// The heading of a configured corridor: its own label, else the label
/// override for its identifier, else the identifier.
pub open spec fn configured_label(definition: CorridorConfig, config: PublicationConfig) -> Seq<
    char,
> {
    match definition.label {
        Some(t) => localized_get(t, config.language),
        None => match table_get(config.labels.corridor_overrides@, definition.id@) {
            Some(t) => localized_get(t, config.language),
            None => definition.id@,
        },
    }
}

/// The heading of a branch: its own label, else "For" its last
/// station, else its junction.
pub open spec fn branch_label_text(
    branch: BranchConfig,
    network: RailNetwork,
    stations: Seq<usize>,
    language: Language,
    labels: Labels,
) -> Seq<char> {
    match branch.label {
        Some(t) => localized_get(t, language),
        None => if stations.len() > 0 {
            towards_text(labels.language, station_name(network, stations[stations.len() - 1]))
        } else {
            branch.junction@
        },
    }
}

/// A block of the axis as plain values: heading, stations, junction.
pub open spec fn group_view(g: AxisGroup) -> (Seq<char>, Seq<usize>, Option<usize>) {
    (g.label@, g.stations@, g.is_branch_of)
}

/// Why a configured corridor cannot be built: a station the feed lacks
/// (`true`), or a junction off the axis (`false`), with the message.
pub type CorridorProblem = (bool, Seq<char>);

/// The branch blocks of a configured corridor from branch `b` on.
pub open spec fn branches_from(
    network: RailNetwork,
    definition: CorridorConfig,
    config: PublicationConfig,
    labels: Labels,
    main: Seq<usize>,
    b: int,
) -> Result<Seq<(Seq<char>, Seq<usize>, Option<usize>)>, CorridorProblem>
    decreases definition.branches@.len() - b,
{
    if b < 0 || b >= definition.branches@.len() {
        Ok(Seq::empty())
    } else {
        let branch = definition.branches@[b];
        match resolve_station_spec(network, branch.junction@) {
            None => Err((true, unknown_station_message(definition.id@, branch.junction@))),
            Some(j) => match position_in(main, j as usize) {
                None => Err((false, junction_message(definition.id@, branch.junction@))),
                Some(p) => match resolve_all_spec(network, branch.axis@) {
                    Err(name) => Err((true, unknown_station_message(definition.id@, name))),
                    Ok(stations) => match branches_from(
                        network,
                        definition,
                        config,
                        labels,
                        main,
                        b + 1,
                    ) {
                        Err(e) => Err(e),
                        Ok(rest) => Ok(
                            seq![
                                (
                                    branch_label_text(
                                        branch,
                                        network,
                                        stations,
                                        config.language,
                                        labels,
                                    ),
                                    stations,
                                    Some(p as usize),
                                ),
                            ] + rest,
                        ),
                    },
                },
            },
        }
    }
}

/// The blocks of a configured corridor: the main axis, then each
/// branch, or the first problem in that order.
pub open spec fn configured_groups(
    network: RailNetwork,
    definition: CorridorConfig,
    config: PublicationConfig,
    labels: Labels,
) -> Result<Seq<(Seq<char>, Seq<usize>, Option<usize>)>, CorridorProblem> {
    match resolve_all_spec(network, definition.axis@) {
        Err(name) => Err((true, unknown_station_message(definition.id@, name))),
        Ok(main) => match branches_from(network, definition, config, labels, main, 0) {
            Err(e) => Err(e),
            Ok(rest) => Ok(seq![(configured_label(definition, config), main, None)] + rest),
        },
    }
}

fn has_code(st: &Station, name: &str) -> (b: bool)
    ensures
        b == answers_to(*st, name@, 0),
{
    let mut c: usize = 0;
    while c < st.codes.len()
        invariant
            c <= st.codes@.len(),
            forall|k: int| 0 <= k < c ==> st.codes@[k]@ != name@,
        decreases st.codes@.len() - c,
    {
        if str_eq(st.codes[c].as_str(), name) {
            return true;
        }
        c = c + 1;
    }
    false
}

fn find_answering(network: &RailNetwork, name: &str, way: u8) -> (r: Option<usize>)
    requires
        way <= 2,
    ensures
        r matches Some(i) ==> first_answering(*network, name@, way as int, 0) == Some(i as int)
            && i < network.stations@.len(),
        r is None ==> first_answering(*network, name@, way as int, 0) is None,
{
    let mut i: usize = 0;
    while i < network.stations.len()
        invariant
            i <= network.stations@.len(),
            way <= 2,
            first_answering(*network, name@, way as int, 0) == first_answering(
                *network,
                name@,
                way as int,
                i as int,
            ),
        decreases network.stations@.len() - i,
    {
        let st = &network.stations[i];
        let found = if way == 0 {
            has_code(st, name)
        } else if way == 1 {
            str_eq(st.gtfs_id.as_str(), name)
        } else {
            str_eq(st.name.as_str(), name)
        };
        if found {
            return Some(i);
        }
        i = i + 1;
    }
    None
}

/// Find the station that a configuration names.
pub fn resolve_station(network: &RailNetwork, name: &str) -> (r: Option<usize>)
    ensures
        r matches Some(i) ==> resolve_station_spec(*network, name@) == Some(i as int) && i
            < network.stations@.len(),
        r is None ==> resolve_station_spec(*network, name@) is None,
{
    match find_answering(network, name, 0) {
        Some(i) => Some(i),
        None => match find_answering(network, name, 1) {
            Some(i) => Some(i),
            None => find_answering(network, name, 2),
        },
    }
}

fn resolve_all(network: &RailNetwork, names: &Vec<String>) -> (r: Result<Vec<usize>, usize>)
    ensures
        match resolve_all_spec(*network, names@) {
            Ok(v) => r matches Ok(x) && x@ == v,
            Err(name) => r matches Err(k) && k < names@.len() && names@[k as int]@ == name,
        },
        r matches Ok(x) ==> forall|i: int| 0 <= i < x@.len() ==> x@[i] < network.stations@.len(),
{
    let mut out: Vec<usize> = Vec::new();
    let mut k: usize = 0;
    while k < names.len()
        invariant
            k <= names@.len(),
            resolve_all_spec(*network, names@.take(k as int)) == Ok::<Seq<usize>, Seq<char>>(out@),
            forall|i: int| 0 <= i < out@.len() ==> out@[i] < network.stations@.len(),
        decreases names@.len() - k,
    {
        proof {
            assert(names@.take(k + 1).drop_last() =~= names@.take(k as int));
        }
        match resolve_station(network, names[k].as_str()) {
            None => {
                proof {
                    lemma_resolve_all_prefix(*network, names@, k as int + 1);
                }
                return Err(k);
            },
            Some(i) => {
                out.push(i);
            },
        }
        k = k + 1;
    }
    proof {
        assert(names@.take(names@.len() as int) =~= names@);
    }
    Ok(out)
}

/// A problem in a prefix of the names is the problem of the whole list.
proof fn lemma_resolve_all_prefix(network: RailNetwork, names: Seq<String>, m: int)
    requires
        0 <= m <= names.len(),
        resolve_all_spec(network, names.take(m)) is Err,
    ensures
        resolve_all_spec(network, names) == resolve_all_spec(network, names.take(m)),
    decreases names.len() - m,
{
    if m < names.len() {
        assert(names.take(m + 1).drop_last() =~= names.take(m));
        lemma_resolve_all_prefix(network, names, m + 1);
    } else {
        assert(names.take(m) =~= names);
    }
}

/// The blocks before a point, in front of the blocks after it.
pub open spec fn prepend_groups(
    done: Seq<(Seq<char>, Seq<usize>, Option<usize>)>,
    rest: Result<Seq<(Seq<char>, Seq<usize>, Option<usize>)>, CorridorProblem>,
) -> Result<Seq<(Seq<char>, Seq<usize>, Option<usize>)>, CorridorProblem> {
    match rest {
        Err(e) => Err(e),
        Ok(r) => Ok(done + r),
    }
}

/// Whether a result is the corridor that a configuration defines: the
/// first problem of its blocks, or the assembly of its blocks.
pub open spec fn configured_plan(
    network: RailNetwork,
    definition: CorridorConfig,
    config: PublicationConfig,
    labels: Labels,
    r: Result<CorridorPlan, PublicationError>,
) -> bool {
    match configured_groups(network, definition, config, labels) {
        Err(problem) => if problem.0 {
            r matches Err(PublicationError::UnresolvedStation(e)) && e@ == problem.1
        } else {
            r matches Err(PublicationError::UnresolvedCorridor(e)) && e@ == problem.1
        },
        Ok(gs) => r matches Ok(plan) && paths_consistent(plan.paths@) && exists|
            groups: Seq<AxisGroup>,
        |
            groups.map_values(|g: AxisGroup| group_view(g)) == gs && assembled(
                network,
                definition.id@,
                configured_label(definition, config),
                groups,
                Seq::empty(),
                plan,
            ),
    }
}

fn branch_label(
    branch: &BranchConfig,
    network: &RailNetwork,
    stations: &Vec<usize>,
    language: Language,
    labels: &Labels,
) -> (r: String)
    requires
        forall|i: int| 0 <= i < stations@.len() ==> stations@[i] < network.stations@.len(),
    ensures
        r@ == branch_label_text(*branch, *network, stations@, language, *labels),
{
    match &branch.label {
        Some(text) => owned(text.get(language)),
        None => if stations.len() > 0 {
            labels.towards(station_name_of(network, stations[stations.len() - 1]))
        } else {
            owned(branch.junction.as_str())
        },
    }
}

fn configured_label_of(definition: &CorridorConfig, config: &PublicationConfig) -> (r: String)
    ensures
        r@ == configured_label(*definition, *config),
{
    match &definition.label {
        Some(text) => owned(text.get(config.language)),
        None => match table_find(&config.labels.corridor_overrides, definition.id.as_str()) {
            Some(k) => owned(config.labels.corridor_overrides[k].1.get(config.language)),
            None => owned(definition.id.as_str()),
        },
    }
}

fn unknown_station(corridor: &str, name: &str) -> (e: PublicationError)
    ensures
        e matches PublicationError::UnresolvedStation(m) && m@ == unknown_station_message(
            corridor@,
            name@,
        ),
{
    let mut m = owned("the corridor \"");
    push_str(&mut m, corridor);
    push_str(&mut m, "\" names the station \"");
    push_str(&mut m, name);
    push_str(&mut m, "\", which is not in the feed");
    PublicationError::UnresolvedStation(m)
}

/// Build a corridor from an explicit configuration.
#[verifier::loop_isolation(false)]
pub fn from_config(
    network: &RailNetwork,
    definition: &CorridorConfig,
    config: &PublicationConfig,
    labels: &Labels,
) -> (r: Result<CorridorPlan, PublicationError>)
    ensures
        configured_plan(*network, *definition, *config, *labels, r),
{
    let main = match resolve_all(network, &definition.axis) {
        Err(k) => {
            return Err(unknown_station(definition.id.as_str(), definition.axis[k].as_str()));
        },
        Ok(v) => v,
    };
    let label = configured_label_of(definition, config);
    let mut groups: Vec<AxisGroup> = Vec::new();
    groups.push(AxisGroup { label: owned(label.as_str()), stations: copy_ids(&main), is_branch_of: None });
    let mut b: usize = 0;
    proof {
        assert(groups@.skip(1).map_values(|g: AxisGroup| group_view(g)) =~= Seq::<
            (Seq<char>, Seq<usize>, Option<usize>),
        >::empty());
        assert(prepend_groups(Seq::empty(), branches_from(*network, *definition, *config, *labels, main@, 0))
            == branches_from(*network, *definition, *config, *labels, main@, 0)) by {
            match branches_from(*network, *definition, *config, *labels, main@, 0) {
                Ok(r) => {
                    assert(Seq::<(Seq<char>, Seq<usize>, Option<usize>)>::empty() + r =~= r);
                },
                Err(_) => {},
            }
        }
    }
    while b < definition.branches.len()
        invariant
            b <= definition.branches@.len(),
            groups@.len() == b + 1,
            groups@[0].label@ == configured_label(*definition, *config),
            groups@[0].stations@ == main@,
            groups@[0].is_branch_of is None,
            forall|i: int| 0 <= i < main@.len() ==> main@[i] < network.stations@.len(),
            resolve_all_spec(*network, definition.axis@) == Ok::<Seq<usize>, Seq<char>>(main@),
            branches_from(*network, *definition, *config, *labels, main@, 0) == prepend_groups(
                groups@.skip(1).map_values(|g: AxisGroup| group_view(g)),
                branches_from(*network, *definition, *config, *labels, main@, b as int),
            ),
            forall|g: int, i: int|
                0 <= g < groups@.len() && 0 <= i < groups@[g].stations@.len() ==> (
                #[trigger] groups@[g].stations@[i]) < network.stations@.len(),
            forall|g: int|
                0 <= g < groups@.len() && (#[trigger] groups@[g]).is_branch_of is Some ==> g > 0
                    && groups@[g].is_branch_of->0 < main@.len(),
        decreases definition.branches@.len() - b,
    {
        let branch = &definition.branches[b];
        let junction = match resolve_station(network, branch.junction.as_str()) {
            None => {
                return Err(unknown_station(definition.id.as_str(), branch.junction.as_str()));
            },
            Some(j) => j,
        };
        let p = match find_from(&main, junction, 0) {
            None => {
                let mut m = owned("the junction \"");
                push_str(&mut m, branch.junction.as_str());
                push_str(&mut m, "\" is not on the axis of corridor \"");
                push_str(&mut m, definition.id.as_str());
                push_str(&mut m, "\"");
                return Err(PublicationError::UnresolvedCorridor(m));
            },
            Some(p) => p,
        };
        proof {
            lemma_first_at(main@, junction, 0);
        }
        let stations = match resolve_all(network, &branch.axis) {
            Err(k) => {
                return Err(unknown_station(definition.id.as_str(), branch.axis[k].as_str()));
            },
            Ok(v) => v,
        };
        let blabel = branch_label(branch, network, &stations, config.language, labels);
        let ghost done = groups@.skip(1).map_values(|g: AxisGroup| group_view(g));
        let group = AxisGroup { label: blabel, stations, is_branch_of: Some(p) };
        let ghost gv = group_view(group);
        groups.push(group);
        proof {
            let rest = branches_from(*network, *definition, *config, *labels, main@, b + 1);
            assert(groups@.skip(1).map_values(|g: AxisGroup| group_view(g)) =~= done.push(gv));
            match rest {
                Ok(r) => {
                    assert(done + (seq![gv] + r) =~= done.push(gv) + r);
                },
                Err(_) => {},
            }
        }
        b = b + 1;
    }
    proof {
        assert(branches_from(*network, *definition, *config, *labels, main@, b as int) == Ok::<
            Seq<(Seq<char>, Seq<usize>, Option<usize>)>,
            CorridorProblem,
        >(Seq::empty()));
        let done = groups@.skip(1).map_values(|g: AxisGroup| group_view(g));
        assert(done + Seq::<(Seq<char>, Seq<usize>, Option<usize>)>::empty() =~= done);
        assert(groups@.map_values(|g: AxisGroup| group_view(g)) =~= seq![
            (configured_label(*definition, *config), main@, None::<usize>),
        ] + done);
    }
    let none: Vec<Diagnostic> = Vec::new();
    proof {
        assert(none@ =~= Seq::<Diagnostic>::empty());
    }
    let plan = assemble(network, definition.id.as_str(), label.as_str(), &groups, none);
    Ok(plan)
}

// ----------------------------------------------------------------------
// The corridor of a diagram target
// ----------------------------------------------------------------------

/// Which trips a diagram draws.
#[derive(Clone, Debug)]
pub enum DiagramTarget {
    /// Every pattern of one line.
    Line(usize),
    /// One stop pattern.
    Pattern(usize),
    /// A corridor from the configuration.
    Corridor(String),
}

/// The first configured corridor with an identifier.
pub open spec fn first_corridor(config: PublicationConfig, id: Seq<char>, i: int) -> Option<int>
    decreases config.corridors@.len() - i,
{
    if i < 0 || i >= config.corridors@.len() {
        None
    } else if config.corridors@[i].id@ == id {
        Some(i)
    } else {
        first_corridor(config, id, i + 1)
    }
}

/// The stop patterns of a line, in the order of the network.
pub open spec fn line_patterns(network: RailNetwork, line: usize) -> Seq<StopPattern> {
    network.patterns@.filter(|p: StopPattern| p.line == line)
}

/// Whether two lists hold the same patterns, field by field.
pub open spec fn same_patterns(a: Seq<StopPattern>, b: Seq<StopPattern>) -> bool {
    &&& a.len() == b.len()
    &&& forall|k: int|
        0 <= k < a.len() ==> (#[trigger] a[k]).line == b[k].line && a[k].direction == b[k].direction
            && a[k].stations@ == b[k].stations@
}

/// Whether a result is the corridor of a diagram target.
pub open spec fn target_plan(
    network: RailNetwork,
    target: DiagramTarget,
    config: PublicationConfig,
    r: Result<CorridorPlan, PublicationError>,
) -> bool {
    let labels = crate::text::labels_of(config.language);
    match target {
        DiagramTarget::Corridor(id) => match first_corridor(config, id@, 0) {
            None => r matches Err(PublicationError::UnresolvedCorridor(e)) && e@
                == "the configuration defines no corridor \""@ + id@ + "\""@,
            Some(i) => configured_plan(network, config.corridors@[i], config, labels, r),
        },
        DiagramTarget::Pattern(p) => {
            let stations = network.patterns@[p as int].stations@;
            r matches Ok(plan) && paths_consistent(plan.paths@) && exists|groups: Seq<AxisGroup>|
                groups.map_values(|g: AxisGroup| group_view(g)) == seq![
                    (corridor_label_text(network, stations), stations, None::<usize>),
                ] && assembled(
                    network,
                    "pattern-"@ + decimal(p as nat),
                    corridor_label_text(network, stations),
                    groups,
                    Seq::empty(),
                    plan,
                )
        },
        DiagramTarget::Line(l) => {
            let ps = line_patterns(network, l);
            if ps.len() == 0 {
                r matches Err(PublicationError::UnresolvedCorridor(e)) && e@ == "the line \""@
                    + network.lines@[l as int].name@ + "\" has no stop pattern"@
            } else {
                r matches Ok(plan) && paths_consistent(plan.paths@) && exists|
                    copies: Seq<StopPattern>,
                    groups: Seq<AxisGroup>,
                    diagnostics: Seq<Diagnostic>,
                    order: Seq<int>,
                |
                    same_patterns(copies, ps) && is_claim_order(copies, order) && groups_of_spines(
                        network,
                        copies,
                        spine_state(copies, order, order.len() as int),
                        groups,
                        diagnostics,
                    ) && assembled(
                        network,
                        crate::common::css_key_spec(network.lines@[l as int].route_id@),
                        network.lines@[l as int].name@,
                        groups,
                        diagnostics,
                        plan,
                    )
            }
        },
    }
}

fn corridor_index(config: &PublicationConfig, id: &str) -> (r: Option<usize>)
    ensures
        r matches Some(i) ==> first_corridor(*config, id@, 0) == Some(i as int) && i
            < config.corridors@.len(),
        r is None ==> first_corridor(*config, id@, 0) is None,
{
    let mut i: usize = 0;
    while i < config.corridors.len()
        invariant
            i <= config.corridors@.len(),
            first_corridor(*config, id@, 0) == first_corridor(*config, id@, i as int),
        decreases config.corridors@.len() - i,
    {
        if str_eq(config.corridors[i].id.as_str(), id) {
            return Some(i);
        }
        i = i + 1;
    }
    None
}

fn patterns_of_line(network: &RailNetwork, line: usize) -> (r: Vec<StopPattern>)
    ensures
        same_patterns(r@, line_patterns(*network, line)),
{
    let mut out: Vec<StopPattern> = Vec::new();
    let mut i: usize = 0;
    while i < network.patterns.len()
        invariant
            i <= network.patterns@.len(),
            same_patterns(out@, network.patterns@.take(i as int).filter(|p: StopPattern| p.line == line)),
        decreases network.patterns@.len() - i,
    {
        let ghost prev = out@;
        proof {
            reveal(Seq::filter);
            assert(network.patterns@.take(i + 1).drop_last() =~= network.patterns@.take(i as int));
        }
        if network.patterns[i].line == line {
            out.push(copy_pattern(&network.patterns[i]));
        }
        proof {
            let f = network.patterns@.take(i + 1).filter(|p: StopPattern| p.line == line);
            let fp = network.patterns@.take(i as int).filter(|p: StopPattern| p.line == line);
            assert(network.patterns@.take(i + 1).last() == network.patterns@[i as int]);
            if network.patterns@[i as int].line == line {
                assert(f == fp.push(network.patterns@[i as int]));
                assert forall|k: int| 0 <= k < out@.len() implies (#[trigger] out@[k]).line == f[k].line
                    && out@[k].direction == f[k].direction && out@[k].stations@ == f[k].stations@ by {
                    if k < prev.len() {
                        assert(out@[k] == prev[k]);
                    }
                }
            } else {
                assert(f == fp);
            }
        }
        i = i + 1;
    }
    proof {
        assert(network.patterns@.take(network.patterns@.len() as int) =~= network.patterns@);
    }
    out
}

fn copy_pattern(p: &StopPattern) -> (r: StopPattern)
    ensures
        r.line == p.line,
        r.direction == p.direction,
        r.stations@ == p.stations@,
{
    StopPattern { line: p.line, direction: p.direction, stations: copy_ids(&p.stations) }
}

/// Build the corridor for a diagram target.
pub fn resolve_corridor(
    network: &RailNetwork,
    target: &DiagramTarget,
    config: &PublicationConfig,
) -> (r: Result<CorridorPlan, PublicationError>)
    requires
        crate::schedule::patterns_in_network(*network),
        target matches DiagramTarget::Pattern(p) ==> p < network.patterns@.len(),
        target matches DiagramTarget::Line(l) ==> l < network.lines@.len(),
    ensures
        target_plan(*network, *target, *config, r),
{
    let labels = crate::text::Labels::for_language(config.language);
    match target {
        DiagramTarget::Corridor(id) => match corridor_index(config, id.as_str()) {
            None => {
                let mut m = owned("the configuration defines no corridor \"");
                push_str(&mut m, id.as_str());
                push_str(&mut m, "\"");
                proof {
                    assert(m@ =~= "the configuration defines no corridor \""@ + id@ + "\""@);
                }
                Err(PublicationError::UnresolvedCorridor(m))
            },
            Some(i) => {
                let r = from_config(network, &config.corridors[i], config, &labels);
                proof {
                    assert(labels == crate::text::labels_of(config.language));
                    assert(configured_plan(*network, config.corridors@[i as int], *config, labels, r));
                }
                r
            },
        },
        DiagramTarget::Pattern(p) => {
            let stations = copy_ids(&network.patterns[*p].stations);
            proof {
                assert(forall|i: int|
                    0 <= i < stations@.len() ==> stations@[i] < network.stations@.len());
            }
            let label = corridor_label(network, &stations);
            let mut id = owned("pattern-");
            push_decimal(&mut id, *p as u64);
            let mut groups: Vec<AxisGroup> = Vec::new();
            groups.push(AxisGroup { label: owned(label.as_str()), stations, is_branch_of: None });
            let none: Vec<Diagnostic> = Vec::new();
            proof {
                assert(none@ =~= Seq::<Diagnostic>::empty());
                assert(groups@.map_values(|g: AxisGroup| group_view(g)) =~= seq![
                    (label@, network.patterns@[*p as int].stations@, None::<usize>),
                ]);
            }
            let plan = assemble(network, id.as_str(), label.as_str(), &groups, none);
            let r = Ok(plan);
            proof {
                assert(label@ == corridor_label_text(*network, network.patterns@[*p as int].stations@));
                assert(target_plan(*network, *target, *config, r));
            }
            r
        },
        DiagramTarget::Line(l) => {
            let patterns = patterns_of_line(network, *l);
            let line = &network.lines[*l];
            if patterns.len() == 0 {
                let mut m = owned("the line \"");
                push_str(&mut m, line.name.as_str());
                push_str(&mut m, "\" has no stop pattern");
                proof {
                    assert(m@ =~= "the line \""@ + network.lines@[*l as int].name@
                        + "\" has no stop pattern"@);
                }
                return Err(PublicationError::UnresolvedCorridor(m));
            }
            proof {
                let ps = network.patterns@;
                let f = line_patterns(*network, *l);
                assert forall|q: int, i: int|
                    0 <= q < patterns@.len() && 0 <= i < patterns@[q].stations@.len() implies (
                    #[trigger] patterns@[q].stations@[i]) < network.stations@.len() by {
                    assert(f.contains(f[q]));
                    ps.lemma_filter_contains_rev(|p: StopPattern| p.line == *l, f[q]);
                    let k = choose|k: int| 0 <= k < ps.len() && ps[k] == f[q];
                    assert(ps[k].stations@[i] < network.stations@.len());
                }
            }
            let (groups, diagnostics) = derive_groups(network, &patterns);
            let key = crate::common::css_key(line.route_id.as_str());
            proof {
                let order = choose|order: Seq<int>|
                    is_claim_order(patterns@, order) && groups_of_spines(
                        *network,
                        patterns@,
                        spine_state(patterns@, order, order.len() as int),
                        groups@,
                        diagnostics@,
                    );
                lemma_spine_groups_fit(*network, patterns@, order, groups@, diagnostics@);
            }
            let ghost dv = diagnostics@;
            let ghost gv = groups@;
            let plan = assemble(network, key.as_str(), line.name.as_str(), &groups, diagnostics);
            let r = Ok(plan);
            proof {
                let order = choose|order: Seq<int>|
                    is_claim_order(patterns@, order) && groups_of_spines(
                        *network,
                        patterns@,
                        spine_state(patterns@, order, order.len() as int),
                        gv,
                        dv,
                    );
                assert(same_patterns(patterns@, line_patterns(*network, *l)));
                assert(is_claim_order(patterns@, order));
                assert(assembled(*network, key@, line.name@, gv, dv, plan));
                assert(target_plan(*network, *target, *config, r));
            }
            r
        },
    }
}

proof fn lemma_spine_groups_fit(
    network: RailNetwork,
    ps: Seq<StopPattern>,
    order: Seq<int>,
    groups: Seq<AxisGroup>,
    diagnostics: Seq<Diagnostic>,
)
    requires
        patterns_name_stations(network, ps),
        is_claim_order(ps, order),
        groups_of_spines(network, ps, spine_state(ps, order, order.len() as int), groups, diagnostics),
    ensures
        groups_fit(network, groups),
{
    lemma_spine_state_names(ps, order, order.len() as int, network.stations@.len() as int);
    let st = spine_state(ps, order, order.len() as int);
    assert forall|g: int, i: int|
        0 <= g < groups.len() && 0 <= i < groups[g].stations@.len() implies (
        #[trigger] groups[g].stations@[i]) < network.stations@.len() by {
        assert(groups[g].stations@ == st.0[g]);
    }
    assert forall|g: int|
        0 <= g < groups.len() && (#[trigger] groups[g]).is_branch_of is Some implies g > 0
            && groups[0].is_branch_of is None && groups[g].is_branch_of->0
            < groups[0].stations@.len() by {
        assert(groups[g].is_branch_of is None);
    }
}


/// The spacing that a diagram of a corridor uses: the configured one,
/// except that distance spacing falls back to equal spacing for a
/// corridor that could not be spaced by distance.
pub fn effective_spacing(spaced_by_distance: bool, config: &PublicationConfig) -> (s: StationSpacing)
    ensures
        s == (if config.diagram.station_spacing is Distance && !spaced_by_distance {
            StationSpacing::Equal
        } else {
            config.diagram.station_spacing
        }),
{
    match config.diagram.station_spacing {
        StationSpacing::Distance => if spaced_by_distance {
            StationSpacing::Distance
        } else {
            StationSpacing::Equal
        },
        StationSpacing::Equal => StationSpacing::Equal,
        StationSpacing::Manual => StationSpacing::Manual,
    }
}

} // verus!
