//! The stated laws of the layout engine, each proved against the spec
//! functions that the executable operations are verified to implement.

use vstd::prelude::*;

use crate::layout::{
    monitor_proximity_spec, prox_outer, prox_pair, prox_row, sans_links, sans_links_pos,
    shift_mons_full, shift_res_spec,
};
use crate::monitor::MonitorV;
use crate::tui::{
    disconnect_spec, dispatch_spec, is_main_state, set_primary_only_spec, undo_core_spec, Key,
};
use crate::{App, State};

verus! {

// ---------------------------------------------------------------------------
// Primary uniqueness
// ---------------------------------------------------------------------------

/// At most one monitor carries the primary flag.
pub open spec fn at_most_one_primary(ms: Seq<MonitorV>) -> bool {
    forall|i: int, j: int|
        0 <= i < ms.len() && 0 <= j < ms.len() && i != j && (#[trigger] ms[i]).is_primary ==> !(
        #[trigger] ms[j]).is_primary
}

/// Primary uniqueness: whatever the model held before, after the
/// primary-assignment key at most one monitor is primary.
pub proof fn lemma_primary_unique(ms: Seq<MonitorV>, app: App, hist: Seq<Seq<MonitorV>>)
    requires
        app.selected_idx < ms.len(),
        app.state == State::MonitorEdit || app.state == State::MonitorSwap,
    ensures
        at_most_one_primary(dispatch_spec(Key::Char('p'), ms, app, hist).0),
{
    let r = set_primary_only_spec(ms, app.selected_idx as int);
    assert forall|i: int, j: int|
        0 <= i < r.len() && 0 <= j < r.len() && i != j && (#[trigger] r[i]).is_primary implies !(
    #[trigger] r[j]).is_primary by {
        if i != app.selected_idx as int {
            assert(!r[i].is_primary);
        }
    }
}

// ---------------------------------------------------------------------------
// Undo round-trip
// ---------------------------------------------------------------------------

/// The keys that push a snapshot before mutating, from a main state.
pub open spec fn snapshot_key(key: Key, app: App) -> bool {
    ||| (key == Key::Char('m') && (app.state == State::MonitorEdit || app.state
        == State::MenuSelect))
    ||| (key == Key::Char('p') && (app.state == State::MonitorEdit || app.state
        == State::MonitorSwap))
    ||| (key == Key::Enter && app.state == State::InfoEdit)
}

/// Undo round-trip: any snapshotting operation followed by undo yields a
/// monitor list equal to the one before the operation.
pub proof fn lemma_undo_round_trip(
    key: Key,
    ms: Seq<MonitorV>,
    app: App,
    hist: Seq<Seq<MonitorV>>,
)
    requires
        snapshot_key(key, app),
    ensures
        ({
            let (m1, a1, h1) = dispatch_spec(key, ms, app, hist);
            dispatch_spec(Key::Char('u'), m1, a1, h1).0 == ms
        }),
{
    let (m1, a1, h1) = dispatch_spec(key, ms, app, hist);
    assert(h1.len() > 0 && h1.last() == ms);
    assert(is_main_state(a1.state));
    assert(undo_core_spec(m1, h1).0 == ms);
}

/// Undo round-trip for the connection toggle: it happens inside a popup,
/// so the user leaves the popup first; the snapshot pushed by the toggle
/// is then the one undo restores.
pub proof fn lemma_undo_round_trip_connection(
    ms: Seq<MonitorV>,
    app: App,
    hist: Seq<Seq<MonitorV>>,
)
    requires
        app.state == State::ConnectionPopup,
        app.connected_monitor_id < ms.len(),
        is_main_state(app.previous_state),
        ms[app.connected_monitor_id as int].is_enabled ==> (disconnect_spec(ms, app) is Some),
    ensures
        ({
            let (m1, a1, h1) = dispatch_spec(Key::Enter, ms, app, hist);
            let (m2, a2, h2) = dispatch_spec(Key::Esc, m1, a1, h1);
            dispatch_spec(Key::Char('u'), m2, a2, h2).0 == ms
        }),
{
    let (m1, a1, h1) = dispatch_spec(Key::Enter, ms, app, hist);
    assert(h1.len() > 0 && h1.last() == ms);
    assert(a1.state == State::ConnectionPopup);
    assert(a1.previous_state == app.previous_state);
    let (m2, a2, h2) = dispatch_spec(Key::Esc, m1, a1, h1);
    assert(h2 == h1 && m2 == m1);
    assert(is_main_state(a2.state));
    assert(undo_core_spec(m2, h2).0 == ms);
}

// ---------------------------------------------------------------------------
// Non-overlap and the proximity pass
// ---------------------------------------------------------------------------

/// Two displayed rectangles occupy disjoint canvas area.
pub open spec fn rects_disjoint(a: MonitorV, b: MonitorV) -> bool {
    ||| a.position.0 + a.displayed_resolution.0 <= b.position.0
    ||| b.position.0 + b.displayed_resolution.0 <= a.position.0
    ||| a.position.1 + a.displayed_resolution.1 <= b.position.1
    ||| b.position.1 + b.displayed_resolution.1 <= a.position.1
}

/// No two enabled monitors overlap on the canvas.
pub open spec fn non_overlapping(ms: Seq<MonitorV>) -> bool {
    forall|i: int, j: int|
        0 <= i < ms.len() && 0 <= j < ms.len() && i != j && (#[trigger] ms[i]).is_enabled && (
        #[trigger] ms[j]).is_enabled ==> rects_disjoint(ms[i], ms[j])
}

/// The proximity pass touches links only.
pub proof fn lemma_prox_pair_sans_links(ms: Seq<MonitorV>, i: int, j: int)
    ensures
        prox_pair(ms, i, j).len() == ms.len(),
        forall|k: int|
            0 <= k < ms.len() ==> sans_links(#[trigger] prox_pair(ms, i, j)[k]) == sans_links(
                ms[k],
            ),
{
}

pub proof fn lemma_prox_row_sans_links(ms: Seq<MonitorV>, i: int, j: int)
    ensures
        prox_row(ms, i, j).len() == ms.len(),
        forall|k: int|
            0 <= k < ms.len() ==> sans_links(#[trigger] prox_row(ms, i, j)[k]) == sans_links(
                ms[k],
            ),
    decreases ms.len() - j,
{
    if 0 <= j < ms.len() {
        lemma_prox_pair_sans_links(ms, i, j);
        lemma_prox_row_sans_links(prox_pair(ms, i, j), i, j + 1);
    }
}

pub proof fn lemma_prox_outer_sans_links(ms: Seq<MonitorV>, i: int)
    ensures
        prox_outer(ms, i).len() == ms.len(),
        forall|k: int|
            0 <= k < ms.len() ==> sans_links(#[trigger] prox_outer(ms, i)[k]) == sans_links(
                ms[k],
            ),
    decreases ms.len() - i,
{
    if 0 <= i < ms.len() {
        lemma_prox_row_sans_links(ms, i, 0);
        lemma_prox_outer_sans_links(prox_row(ms, i, 0), i + 1);
    }
}

/// Clearing links moves nothing either.
pub proof fn lemma_clear_links_sans(ms: Seq<MonitorV>)
    ensures
        crate::layout::clear_links_spec(ms).len() == ms.len(),
        forall|k: int|
            0 <= k < ms.len() ==> sans_links(#[trigger] crate::layout::clear_links_spec(ms)[k])
                == sans_links(ms[k]),
{
}

/// Non-overlap is untouched by the proximity pass: re-deriving links from
/// positions moves nothing, so disjoint rectangles stay disjoint.
pub proof fn lemma_proximity_preserves_non_overlap(ms: Seq<MonitorV>)
    requires
        non_overlapping(ms),
    ensures
        non_overlapping(monitor_proximity_spec(ms)),
{
    lemma_clear_links_sans(ms);
    lemma_prox_outer_sans_links(crate::layout::clear_links_spec(ms), 0);
    let r = monitor_proximity_spec(ms);
    assert forall|i: int, j: int|
        0 <= i < r.len() && 0 <= j < r.len() && i != j && (#[trigger] r[i]).is_enabled && (
        #[trigger] r[j]).is_enabled implies rects_disjoint(r[i], r[j]) by {
        let c = crate::layout::clear_links_spec(ms);
        assert(sans_links(r[i]) == sans_links(c[i]) && sans_links(c[i]) == sans_links(ms[i]));
        assert(sans_links(r[j]) == sans_links(c[j]) && sans_links(c[j]) == sans_links(ms[j]));
        assert(rects_disjoint(ms[i], ms[j]));
    }
}

// ---------------------------------------------------------------------------
// Anchoring and the reflow sweep
// ---------------------------------------------------------------------------

/// The arrangement hugs the origin: no enabled monitor is at a negative
/// coordinate, and on each axis some enabled monitor touches zero.
pub open spec fn anchored(ms: Seq<MonitorV>) -> bool {
    &&& (forall|i: int|
        0 <= i < ms.len() && (#[trigger] ms[i]).is_enabled ==> ms[i].position.0 >= 0
            && ms[i].position.1 >= 0)
    &&& (exists|i: int|
        0 <= i < ms.len() && (#[trigger] ms[i]).is_enabled && ms[i].position.0 == 0)
    &&& (exists|i: int|
        0 <= i < ms.len() && (#[trigger] ms[i]).is_enabled && ms[i].position.1 == 0)
}

/// Anchoring survives the reflow sweep: when the sweep edges are positive
/// and stay positive after the shift, the monitors pinned at zero do not
/// move and nothing crosses below zero.
pub proof fn lemma_shift_res_preserves_anchoring(ms: Seq<MonitorV>, idx: int, diff: (int, int))
    requires
        anchored(ms),
        0 <= idx < ms.len(),
        ms[idx].position.0 + ms[idx].displayed_resolution.0 > 0,
        ms[idx].position.1 + ms[idx].displayed_resolution.1 > 0,
        ms[idx].position.0 + ms[idx].displayed_resolution.0 + diff.0 > 0,
        ms[idx].position.1 + ms[idx].displayed_resolution.1 + diff.1 > 0,
    ensures
        anchored(shift_res_spec(ms, idx, diff)),
{
    let r = shift_res_spec(ms, idx, diff);
    let edge_x = ms[idx].position.0 + ms[idx].displayed_resolution.0;
    let edge_y = ms[idx].position.1 + ms[idx].displayed_resolution.1;
    assert forall|i: int|
        0 <= i < r.len() && (#[trigger] r[i]).is_enabled implies r[i].position.0 >= 0
        && r[i].position.1 >= 0 by {
        assert(ms[i].is_enabled);
        assert(ms[i].position.0 >= 0 && ms[i].position.1 >= 0);
    }
    let w0 = choose|i: int|
        0 <= i < ms.len() && (#[trigger] ms[i]).is_enabled && ms[i].position.0 == 0;
    assert(r[w0].position.0 == 0 && r[w0].is_enabled);
    let w1 = choose|i: int|
        0 <= i < ms.len() && (#[trigger] ms[i]).is_enabled && ms[i].position.1 == 0;
    assert(r[w1].position.1 == 0 && r[w1].is_enabled);
}


// ---------------------------------------------------------------------------
// Position consistency and the snap pass
// ---------------------------------------------------------------------------

/// Links only ever point forward in the list.
pub open spec fn links_forward(ms: Seq<MonitorV>) -> bool {
    forall|i: int|
        0 <= i < ms.len() ==> {
            &&& ((#[trigger] ms[i]).right is Some ==> i < ms[i].right->Some_0 < ms.len())
            &&& (ms[i].down is Some ==> i < ms[i].down->Some_0 < ms.len())
        }
}

/// No monitor is snapped twice: distinct monitors point right or down at
/// distinct targets, and no target is claimed both as a right and as a
/// down neighbor.
pub open spec fn snap_targets_unique(ms: Seq<MonitorV>) -> bool {
    &&& (forall|i1: int, i2: int|
        0 <= i1 < ms.len() && 0 <= i2 < ms.len() && (#[trigger] ms[i1]).right is Some && (
        #[trigger] ms[i2]).right is Some && ms[i1].right == ms[i2].right ==> i1 == i2)
    &&& (forall|i1: int, i2: int|
        0 <= i1 < ms.len() && 0 <= i2 < ms.len() && (#[trigger] ms[i1]).down is Some && (
        #[trigger] ms[i2]).down is Some && ms[i1].down == ms[i2].down ==> i1 == i2)
    &&& (forall|i1: int, i2: int|
        0 <= i1 < ms.len() && 0 <= i2 < ms.len() && (#[trigger] ms[i1]).right is Some && (
        #[trigger] ms[i2]).down is Some ==> ms[i1].right != ms[i2].down)
}

/// Consistency of positions with links: each linked neighbor sits exactly
/// against the edge of its parent.
pub open spec fn positions_consistent(ms: Seq<MonitorV>) -> bool {
    forall|i: int|
        0 <= i < ms.len() ==> {
            &&& ((#[trigger] ms[i]).right is Some ==> ms[ms[i].right->Some_0].position == (
                ms[i].position.0 + ms[i].displayed_resolution.0,
                ms[i].position.1,
            ))
            &&& (ms[i].down is Some ==> ms[ms[i].down->Some_0].position == (
                ms[i].position.0,
                ms[i].position.1 + ms[i].displayed_resolution.1,
            ))
        }
}

/// Whether any of the first `k` monitors snaps `t` into place.
pub open spec fn snapped_by_prefix(ms: Seq<MonitorV>, k: int, t: int) -> bool {
    exists|p: int|
        0 <= p < k && ((#[trigger] ms[p]).right == Some(t) || ms[p].down == Some(t))
}

/// After the first `k` snap steps: links and sizes unchanged, positions of
/// monitors nobody snapped yet unchanged, and every link out of the first
/// `k` monitors already consistent.
pub open spec fn unp_inv(ms: Seq<MonitorV>, s: Seq<MonitorV>, k: int) -> bool {
    &&& s.len() == ms.len()
    &&& (forall|q: int|
        0 <= q < ms.len() ==> crate::layout::links_of(#[trigger] s[q]) == crate::layout::links_of(
            ms[q],
        ))
    &&& (forall|q: int|
        0 <= q < ms.len() ==> sans_links_pos(#[trigger] s[q]) == sans_links_pos(ms[q]))
    &&& (forall|q: int|
        0 <= q < ms.len() && !snapped_by_prefix(ms, k, q) ==> (#[trigger] s[q]).position
            == ms[q].position)
    &&& (forall|p: int|
        0 <= p < k ==> {
            &&& ((#[trigger] ms[p]).right is Some ==> s[ms[p].right->Some_0].position == (
                s[p].position.0 + s[p].displayed_resolution.0,
                s[p].position.1,
            ))
            &&& (ms[p].down is Some ==> s[ms[p].down->Some_0].position == (
                s[p].position.0,
                s[p].position.1 + s[p].displayed_resolution.1,
            ))
        })
}

pub proof fn lemma_unp_upto_consistent(ms: Seq<MonitorV>, k: int)
    requires
        links_forward(ms),
        snap_targets_unique(ms),
        0 <= k <= ms.len(),
    ensures
        unp_inv(ms, crate::layout::unp_upto(ms, k), k),
    decreases k,
{
    if k == 0 {
        assert(unp_inv(ms, crate::layout::unp_upto(ms, 0), 0));
    } else {
        lemma_unp_upto_consistent(ms, k - 1);
        let s = crate::layout::unp_upto(ms, k - 1);
        let s2 = crate::layout::unp_step(s, k - 1);
        assert(crate::layout::unp_upto(ms, k) == s2);
        let p = k - 1;
        // the step writes only the (unique) targets of p, so every other
        // position survives, and p's own position is already final
        assert forall|q: int|
            0 <= q < ms.len() && !snapped_by_prefix(ms, k, q) implies (#[trigger] s2[q]).position
            == ms[q].position by {
            assert(!snapped_by_prefix(ms, k - 1, q));
            assert(s[q].position == ms[q].position);
            if ms[p].right is Some {
                assert(ms[p].right != Some(q));
            }
            if ms[p].down is Some {
                assert(ms[p].down != Some(q));
            }
        }
        assert forall|pp: int| 0 <= pp < k implies {
            &&& ((#[trigger] ms[pp]).right is Some ==> s2[ms[pp].right->Some_0].position == (
                s2[pp].position.0 + s2[pp].displayed_resolution.0,
                s2[pp].position.1,
            ))
            &&& (ms[pp].down is Some ==> s2[ms[pp].down->Some_0].position == (
                s2[pp].position.0,
                s2[pp].position.1 + s2[pp].displayed_resolution.1,
            ))
        } by {
            if pp < k - 1 {
                // the older links stay consistent: neither endpoint is a
                // target of step p
                if ms[pp].right is Some {
                    let c = ms[pp].right->Some_0;
                    assert(ms[p].right is Some ==> ms[p].right->Some_0 != c);
                    assert(ms[p].down is Some ==> ms[p].down->Some_0 != c);
                    assert(ms[p].right is Some ==> ms[p].right->Some_0 != pp || p == pp);
                    assert(s2[c].position == s[c].position);
                    assert(s2[pp].position == s[pp].position || snapped_by_prefix(ms, k, pp));
                    if ms[p].right == Some(pp) || ms[p].down == Some(pp) {
                        // pp would be a target of p, but links only point
                        // forward, so p < pp < k - 1 + 1 is impossible
                        assert(p < pp);
                        assert(false);
                    }
                    assert(s2[pp].position == s[pp].position);
                }
                if ms[pp].down is Some {
                    let c = ms[pp].down->Some_0;
                    assert(s2[c].position == s[c].position);
                    if ms[p].right == Some(pp) || ms[p].down == Some(pp) {
                        assert(p < pp);
                        assert(false);
                    }
                    assert(s2[pp].position == s[pp].position);
                }
            } else {
                // the step itself establishes p's links; p is not its own
                // target because links point forward
                assert(pp == p);
                if ms[p].right is Some {
                    let r = ms[p].right->Some_0;
                    assert(p < r);
                    assert(s2[r].position == (
                        s[p].position.0 + s[p].displayed_resolution.0,
                        s[p].position.1,
                    ));
                    assert(s2[p].position == s[p].position);
                }
                if ms[p].down is Some {
                    let d = ms[p].down->Some_0;
                    assert(p < d);
                    assert(s2[d].position == (
                        s2[p].position.0,
                        s2[p].position.1 + s2[p].displayed_resolution.1,
                    ));
                }
            }
        }
    }
}

/// Position consistency: after the snap pass of
/// `update_neighbor_positions`, every right neighbor sits at its parent's
/// right edge and every down neighbor under its bottom edge — provided
/// links point forward in the list and no monitor is claimed twice. (The
/// proximity pass that follows re-derives the links and moves nothing.)
pub proof fn lemma_snap_pass_consistent(ms: Seq<MonitorV>)
    requires
        links_forward(ms),
        snap_targets_unique(ms),
    ensures
        positions_consistent(crate::layout::unp_upto(ms, ms.len() as int)),
{
    lemma_unp_upto_consistent(ms, ms.len() as int);
    let s = crate::layout::unp_upto(ms, ms.len() as int);
    assert forall|i: int| 0 <= i < s.len() implies {
        &&& ((#[trigger] s[i]).right is Some ==> s[s[i].right->Some_0].position == (
            s[i].position.0 + s[i].displayed_resolution.0,
            s[i].position.1,
        ))
        &&& (s[i].down is Some ==> s[s[i].down->Some_0].position == (
            s[i].position.0,
            s[i].position.1 + s[i].displayed_resolution.1,
        ))
    } by {
        assert(crate::layout::links_of(s[i]) == crate::layout::links_of(ms[i]));
        assert(sans_links_pos(s[i]) == sans_links_pos(ms[i]));
    }
}


// ---------------------------------------------------------------------------
// Link symmetry and the proximity pass
// ---------------------------------------------------------------------------

/// `j` sits exactly against the right edge of `i`'s footprint; only
/// enabled monitors take part in the pass.
pub open spec fn right_match(ms: Seq<MonitorV>, i: int, j: int) -> bool {
    &&& i != j
    &&& 0 <= i < ms.len()
    &&& 0 <= j < ms.len()
    &&& ms[i].is_enabled
    &&& ms[j].is_enabled
    &&& ms[j].position.0 == ms[i].position.0 + ms[i].displayed_resolution.0
    &&& ms[j].position.1 == ms[i].position.1
}

pub open spec fn down_match(ms: Seq<MonitorV>, i: int, j: int) -> bool {
    &&& i != j
    &&& 0 <= i < ms.len()
    &&& 0 <= j < ms.len()
    &&& ms[i].is_enabled
    &&& ms[j].is_enabled
    &&& ms[j].position.1 == ms[i].position.1 + ms[i].displayed_resolution.1
    &&& ms[j].position.0 == ms[i].position.0
}

pub open spec fn left_match(ms: Seq<MonitorV>, i: int, j: int) -> bool {
    &&& i != j
    &&& 0 <= i < ms.len()
    &&& 0 <= j < ms.len()
    &&& ms[i].is_enabled
    &&& ms[j].is_enabled
    &&& ms[j].position.0 == ms[i].position.0 - ms[j].displayed_resolution.0
    &&& ms[j].position.1 == ms[i].position.1
}

pub open spec fn up_match(ms: Seq<MonitorV>, i: int, j: int) -> bool {
    &&& i != j
    &&& 0 <= i < ms.len()
    &&& 0 <= j < ms.len()
    &&& ms[i].is_enabled
    &&& ms[j].is_enabled
    &&& ms[j].position.1 == ms[i].position.1 - ms[j].displayed_resolution.1
    &&& ms[j].position.0 == ms[i].position.0
}

/// A geometry the proximity pass can read unambiguously: footprints have
/// positive size, each monitor has at most one neighbor per side, and the
/// side relations are mirror images of each other.
pub open spec fn matches_coherent(ms: Seq<MonitorV>) -> bool {
    &&& (forall|k: int|
        0 <= k < ms.len() && (#[trigger] ms[k]).is_enabled ==> ms[k].displayed_resolution.0 >= 1
            && ms[k].displayed_resolution.1 >= 1)
    &&& (forall|i: int, j: int| #[trigger] right_match(ms, i, j) <==> #[trigger] left_match(ms, j, i))
    &&& (forall|i: int, j: int| #[trigger] down_match(ms, i, j) <==> #[trigger] up_match(ms, j, i))
    &&& (forall|i: int, j1: int, j2: int|
        #[trigger] right_match(ms, i, j1) && #[trigger] right_match(ms, i, j2) ==> j1 == j2)
    &&& (forall|i: int, j1: int, j2: int|
        #[trigger] left_match(ms, i, j1) && #[trigger] left_match(ms, i, j2) ==> j1 == j2)
    &&& (forall|i: int, j1: int, j2: int|
        #[trigger] down_match(ms, i, j1) && #[trigger] down_match(ms, i, j2) ==> j1 == j2)
    &&& (forall|i: int, j1: int, j2: int|
        #[trigger] up_match(ms, i, j1) && #[trigger] up_match(ms, i, j2) ==> j1 == j2)
}

pub open spec fn has_right(ms: Seq<MonitorV>, i: int) -> bool {
    exists|j: int| right_match(ms, i, j)
}

pub open spec fn the_right(ms: Seq<MonitorV>, i: int) -> int {
    choose|j: int| right_match(ms, i, j)
}

pub open spec fn has_left(ms: Seq<MonitorV>, i: int) -> bool {
    exists|j: int| left_match(ms, i, j)
}

pub open spec fn the_left(ms: Seq<MonitorV>, i: int) -> int {
    choose|j: int| left_match(ms, i, j)
}

pub open spec fn has_down(ms: Seq<MonitorV>, i: int) -> bool {
    exists|j: int| down_match(ms, i, j)
}

pub open spec fn the_down(ms: Seq<MonitorV>, i: int) -> int {
    choose|j: int| down_match(ms, i, j)
}

pub open spec fn has_up(ms: Seq<MonitorV>, i: int) -> bool {
    exists|j: int| up_match(ms, i, j)
}

pub open spec fn the_up(ms: Seq<MonitorV>, i: int) -> int {
    choose|j: int| up_match(ms, i, j)
}

/// Each link is either still clear or points at the one geometric
/// neighbor on that side.
pub open spec fn prox_inv(ms: Seq<MonitorV>, s: Seq<MonitorV>) -> bool {
    &&& s.len() == ms.len()
    &&& (forall|k: int| 0 <= k < ms.len() ==> sans_links(#[trigger] s[k]) == sans_links(ms[k]))
    &&& (forall|k: int|
        0 <= k < ms.len() ==> {
            &&& ((#[trigger] s[k]).right is None || (has_right(ms, k) && s[k].right == Some(
                the_right(ms, k),
            )))
            &&& (s[k].left is None || (has_left(ms, k) && s[k].left == Some(the_left(ms, k))))
            &&& (s[k].down is None || (has_down(ms, k) && s[k].down == Some(the_down(ms, k))))
            &&& (s[k].up is None || (has_up(ms, k) && s[k].up == Some(the_up(ms, k))))
        })
}

/// Every side of `k` that has a geometric neighbor already points at it.
pub open spec fn slots_done(ms: Seq<MonitorV>, s: Seq<MonitorV>, k: int) -> bool {
    &&& (has_right(ms, k) ==> s[k].right == Some(the_right(ms, k)))
    &&& (has_left(ms, k) ==> s[k].left == Some(the_left(ms, k)))
    &&& (has_down(ms, k) ==> s[k].down == Some(the_down(ms, k)))
    &&& (has_up(ms, k) ==> s[k].up == Some(the_up(ms, k)))
}

/// The sides of `i` whose neighbor index is below `j` are already set.
pub open spec fn row_partial(ms: Seq<MonitorV>, s: Seq<MonitorV>, i: int, j: int) -> bool {
    &&& (has_right(ms, i) && the_right(ms, i) < j ==> s[i].right == Some(the_right(ms, i)))
    &&& (has_left(ms, i) && the_left(ms, i) < j ==> s[i].left == Some(the_left(ms, i)))
    &&& (has_down(ms, i) && the_down(ms, i) < j ==> s[i].down == Some(the_down(ms, i)))
    &&& (has_up(ms, i) && the_up(ms, i) < j ==> s[i].up == Some(the_up(ms, i)))
}

/// One pair step keeps the invariant, keeps every finished slot finished,
/// and finishes the sides of `i` whose neighbor is `j`.
proof fn lemma_prox_pair_sym(ms: Seq<MonitorV>, s: Seq<MonitorV>, i: int, j: int)
    requires
        matches_coherent(ms),
        prox_inv(ms, s),
        0 <= i < ms.len(),
        0 <= j < ms.len(),
    ensures
        prox_inv(ms, prox_pair(s, i, j)),
        forall|k: int|
            0 <= k < ms.len() && slots_done(ms, s, k) ==> slots_done(ms, prox_pair(s, i, j), k),
        right_match(ms, i, j) ==> prox_pair(s, i, j)[i].right == Some(j),
        left_match(ms, i, j) ==> prox_pair(s, i, j)[i].left == Some(j),
        down_match(ms, i, j) ==> prox_pair(s, i, j)[i].down == Some(j),
        up_match(ms, i, j) ==> prox_pair(s, i, j)[i].up == Some(j),
        forall|t: int|
            0 <= t < ms.len() ==> ((#[trigger] prox_pair(s, i, j)[t]).right is Some ==> s[t].right
                is Some || prox_pair(s, i, j)[t].right == Some(the_right(ms, t))),
{
    let r = prox_pair(s, i, j);
    if i != j {
        assert(sans_links(s[i]) == sans_links(ms[i]));
        assert(sans_links(s[j]) == sans_links(ms[j]));
        if right_match(ms, i, j) {
            assert(the_right(ms, i) == j);
            assert(left_match(ms, j, i));
            assert(the_left(ms, j) == i);
        } else if down_match(ms, i, j) {
            assert(the_down(ms, i) == j);
            assert(up_match(ms, j, i));
            assert(the_up(ms, j) == i);
        } else if left_match(ms, i, j) {
            assert(the_left(ms, i) == j);
            assert(right_match(ms, j, i));
            assert(the_right(ms, j) == i);
        } else if up_match(ms, i, j) {
            assert(the_up(ms, i) == j);
            assert(down_match(ms, j, i));
            assert(the_down(ms, j) == i);
        }
    }
}

/// A full row finishes every side of `i` and loses nothing already done.
proof fn lemma_prox_row_sym(ms: Seq<MonitorV>, s: Seq<MonitorV>, i: int, j: int)
    requires
        matches_coherent(ms),
        prox_inv(ms, s),
        0 <= i < ms.len(),
        0 <= j <= ms.len(),
        row_partial(ms, s, i, j),
    ensures
        prox_inv(ms, prox_row(s, i, j)),
        forall|k: int|
            0 <= k < ms.len() && slots_done(ms, s, k) ==> slots_done(ms, prox_row(s, i, j), k),
        slots_done(ms, prox_row(s, i, j), i),
    decreases ms.len() - j,
{
    if j == ms.len() {
        assert(prox_row(s, i, j) == s);
        assert(slots_done(ms, s, i)) by {
            if has_right(ms, i) {
                assert(right_match(ms, i, the_right(ms, i)));
            }
            if has_left(ms, i) {
                assert(left_match(ms, i, the_left(ms, i)));
            }
            if has_down(ms, i) {
                assert(down_match(ms, i, the_down(ms, i)));
            }
            if has_up(ms, i) {
                assert(up_match(ms, i, the_up(ms, i)));
            }
        }
    } else {
        let s1 = prox_pair(s, i, j);
        lemma_prox_pair_sym(ms, s, i, j);
        assert(row_partial(ms, s1, i, j + 1)) by {
            if has_right(ms, i) && the_right(ms, i) < j + 1 {
                if the_right(ms, i) == j {
                    assert(right_match(ms, i, j));
                } else {
                    assert(s[i].right == Some(the_right(ms, i)));
                    assert(s1[i].right is Some);
                }
            }
            if has_left(ms, i) && the_left(ms, i) < j + 1 {
                if the_left(ms, i) == j {
                    assert(left_match(ms, i, j));
                } else {
                    assert(s[i].left == Some(the_left(ms, i)));
                }
            }
            if has_down(ms, i) && the_down(ms, i) < j + 1 {
                if the_down(ms, i) == j {
                    assert(down_match(ms, i, j));
                } else {
                    assert(s[i].down == Some(the_down(ms, i)));
                }
            }
            if has_up(ms, i) && the_up(ms, i) < j + 1 {
                if the_up(ms, i) == j {
                    assert(up_match(ms, i, j));
                } else {
                    assert(s[i].up == Some(the_up(ms, i)));
                }
            }
        }
        lemma_prox_row_sym(ms, s1, i, j + 1);
    }
}

/// All remaining rows finish every remaining monitor.
proof fn lemma_prox_outer_sym(ms: Seq<MonitorV>, s: Seq<MonitorV>, i: int)
    requires
        matches_coherent(ms),
        prox_inv(ms, s),
        0 <= i <= ms.len(),
        forall|k: int| 0 <= k < i ==> slots_done(ms, s, k),
    ensures
        prox_inv(ms, prox_outer(s, i)),
        forall|k: int| 0 <= k < ms.len() ==> slots_done(ms, prox_outer(s, i), k),
    decreases ms.len() - i,
{
    if i == ms.len() {
    } else {
        let s1 = prox_row(s, i, 0);
        assert(row_partial(ms, s, i, 0)) by {
            if has_right(ms, i) {
                assert(right_match(ms, i, the_right(ms, i)));
            }
            if has_left(ms, i) {
                assert(left_match(ms, i, the_left(ms, i)));
            }
            if has_down(ms, i) {
                assert(down_match(ms, i, the_down(ms, i)));
            }
            if has_up(ms, i) {
                assert(up_match(ms, i, the_up(ms, i)));
            }
        }
        lemma_prox_row_sym(ms, s, i, 0);
        assert forall|k: int| 0 <= k < i + 1 implies slots_done(ms, s1, k) by {
            if k < i {
                assert(slots_done(ms, s, k));
            }
        }
        lemma_prox_outer_sym(ms, s1, i + 1);
    }
}

/// Symmetric links: `right` and `left` are converses, and so are `down`
/// and `up`.
pub open spec fn link_symmetric(ms: Seq<MonitorV>) -> bool {
    forall|i: int, j: int|
        0 <= i < ms.len() && 0 <= j < ms.len() ==> {
            &&& ((#[trigger] ms[i]).right == Some(j) <==> (#[trigger] ms[j]).left == Some(i))
            &&& (ms[i].down == Some(j) <==> ms[j].up == Some(i))
        }
}

/// Every enabled footprint has positive size on both axes.
pub open spec fn sizes_positive(ms: Seq<MonitorV>) -> bool {
    forall|k: int|
        0 <= k < ms.len() && (#[trigger] ms[k]).is_enabled ==> ms[k].displayed_resolution.0 >= 1
            && ms[k].displayed_resolution.1 >= 1
}

/// Positive sizes and non-overlap make the side relations unambiguous:
/// the mirror clauses hold by construction, and two distinct candidates
/// for one side would occupy overlapping area.
pub proof fn lemma_geometry_coherent(ms: Seq<MonitorV>)
    requires
        sizes_positive(ms),
        non_overlapping(ms),
    ensures
        matches_coherent(ms),
{
    assert forall|i: int, j1: int, j2: int|
        #[trigger] right_match(ms, i, j1) && #[trigger] right_match(ms, i, j2) implies j1
        == j2 by {
        if j1 != j2 {
            assert(ms[j1].position == ms[j2].position);
            assert(!rects_disjoint(ms[j1], ms[j2]));
        }
    }
    assert forall|i: int, j1: int, j2: int|
        #[trigger] down_match(ms, i, j1) && #[trigger] down_match(ms, i, j2) implies j1 == j2 by {
        if j1 != j2 {
            assert(ms[j1].position == ms[j2].position);
            assert(!rects_disjoint(ms[j1], ms[j2]));
        }
    }
    assert forall|i: int, j1: int, j2: int|
        #[trigger] left_match(ms, i, j1) && #[trigger] left_match(ms, i, j2) implies j1 == j2 by {
        if j1 != j2 {
            // both end exactly at i's left edge in the same row
            assert(ms[j1].position.0 + ms[j1].displayed_resolution.0 == ms[i].position.0);
            assert(ms[j2].position.0 + ms[j2].displayed_resolution.0 == ms[i].position.0);
            assert(ms[j1].position.1 == ms[j2].position.1);
            assert(!rects_disjoint(ms[j1], ms[j2]));
        }
    }
    assert forall|i: int, j1: int, j2: int|
        #[trigger] up_match(ms, i, j1) && #[trigger] up_match(ms, i, j2) implies j1 == j2 by {
        if j1 != j2 {
            assert(ms[j1].position.1 + ms[j1].displayed_resolution.1 == ms[i].position.1);
            assert(ms[j2].position.1 + ms[j2].displayed_resolution.1 == ms[i].position.1);
            assert(ms[j1].position.0 == ms[j2].position.0);
            assert(!rects_disjoint(ms[j1], ms[j2]));
        }
    }
}

/// Link symmetry, re-established from positions: under the arrangement
/// invariants — positive footprints and no overlap among enabled
/// monitors — the proximity pass yields symmetric links, whatever links
/// were there before.
pub proof fn lemma_proximity_link_symmetric(ms: Seq<MonitorV>)
    requires
        sizes_positive(ms),
        non_overlapping(ms),
    ensures
        link_symmetric(monitor_proximity_spec(ms)),
{
    let c = crate::layout::clear_links_spec(ms);
    lemma_clear_links_sans(ms);
    lemma_geometry_coherent(ms);
    assert forall|i: int, j: int| true implies {
        &&& (#[trigger] right_match(c, i, j) == #[trigger] right_match(ms, i, j))
        &&& (down_match(c, i, j) == down_match(ms, i, j))
        &&& (left_match(c, i, j) == left_match(ms, i, j))
        &&& (up_match(c, i, j) == up_match(ms, i, j))
    } by {
        if 0 <= i < ms.len() && 0 <= j < ms.len() {
            assert(sans_links(c[i]) == sans_links(ms[i]));
            assert(sans_links(c[j]) == sans_links(ms[j]));
        }
    }
    assert(matches_coherent(c));
    assert(prox_inv(c, c)) by {
        assert forall|k: int| 0 <= k < c.len() implies {
            &&& ((#[trigger] c[k]).right is None || (has_right(c, k) && c[k].right == Some(
                the_right(c, k),
            )))
            &&& (c[k].left is None || (has_left(c, k) && c[k].left == Some(the_left(c, k))))
            &&& (c[k].down is None || (has_down(c, k) && c[k].down == Some(the_down(c, k))))
            &&& (c[k].up is None || (has_up(c, k) && c[k].up == Some(the_up(c, k))))
        } by {
            assert(c[k] == crate::layout::with_links(ms[k], None, None, None, None));
        }
    }
    lemma_prox_outer_sym(c, c, 0);
    let r = monitor_proximity_spec(ms);
    assert forall|i: int, j: int| 0 <= i < r.len() && 0 <= j < r.len() implies {
        &&& ((#[trigger] r[i]).right == Some(j) <==> (#[trigger] r[j]).left == Some(i))
        &&& (r[i].down == Some(j) <==> r[j].up == Some(i))
    } by {
        assert(slots_done(c, r, i) && slots_done(c, r, j));
        if r[i].right == Some(j) {
            assert(right_match(c, i, j));
            assert(left_match(c, j, i));
            assert(the_left(c, j) == i);
        }
        if r[j].left == Some(i) {
            assert(left_match(c, j, i));
            assert(right_match(c, i, j));
            assert(the_right(c, i) == j);
        }
        if r[i].down == Some(j) {
            assert(down_match(c, i, j));
            assert(up_match(c, j, i));
            assert(the_up(c, j) == i);
        }
        if r[j].up == Some(i) {
            assert(up_match(c, j, i));
            assert(down_match(c, i, j));
            assert(the_down(c, i) == j);
        }
    }
}

/// The pass's links match the geometry exactly: after it, `right(i) = j`
/// holds precisely when `j` sits against `i`'s right edge, mirrored for
/// the other sides — and therefore every derived link is consistent with
/// positions (invariant 2, measured with the parent's footprint).
pub proof fn lemma_proximity_links_exact(ms: Seq<MonitorV>)
    requires
        sizes_positive(ms),
        non_overlapping(ms),
    ensures
        ({
            let r = monitor_proximity_spec(ms);
            forall|i: int, j: int|
                0 <= i < ms.len() && 0 <= j < ms.len() ==> {
                    &&& ((#[trigger] r[i]).right == Some(j) <==> right_match(ms, i, j))
                    &&& ((#[trigger] r[j]).left == Some(i) <==> right_match(ms, i, j))
                    &&& (r[i].down == Some(j) <==> down_match(ms, i, j))
                    &&& (r[j].up == Some(i) <==> down_match(ms, i, j))
                }
        }),
        ({
            let r = monitor_proximity_spec(ms);
            forall|i: int|
                0 <= i < ms.len() ==> {
                    &&& ((#[trigger] r[i]).right is Some ==> r[r[i].right->Some_0].position == (
                        r[i].position.0 + r[i].displayed_resolution.0,
                        r[i].position.1,
                    ))
                    &&& (r[i].down is Some ==> r[r[i].down->Some_0].position == (
                        r[i].position.0,
                        r[i].position.1 + r[i].displayed_resolution.1,
                    ))
                }
        }),
{
    let c = crate::layout::clear_links_spec(ms);
    lemma_clear_links_sans(ms);
    lemma_geometry_coherent(ms);
    assert forall|i: int, j: int| true implies {
        &&& (#[trigger] right_match(c, i, j) == #[trigger] right_match(ms, i, j))
        &&& (down_match(c, i, j) == down_match(ms, i, j))
        &&& (left_match(c, i, j) == left_match(ms, i, j))
        &&& (up_match(c, i, j) == up_match(ms, i, j))
    } by {
        if 0 <= i < ms.len() && 0 <= j < ms.len() {
            assert(sans_links(c[i]) == sans_links(ms[i]));
            assert(sans_links(c[j]) == sans_links(ms[j]));
        }
    }
    assert(matches_coherent(c));
    assert(prox_inv(c, c)) by {
        assert forall|k: int| 0 <= k < c.len() implies {
            &&& ((#[trigger] c[k]).right is None || (has_right(c, k) && c[k].right == Some(
                the_right(c, k),
            )))
            &&& (c[k].left is None || (has_left(c, k) && c[k].left == Some(the_left(c, k))))
            &&& (c[k].down is None || (has_down(c, k) && c[k].down == Some(the_down(c, k))))
            &&& (c[k].up is None || (has_up(c, k) && c[k].up == Some(the_up(c, k))))
        } by {
            assert(c[k] == crate::layout::with_links(ms[k], None, None, None, None));
        }
    }
    lemma_prox_outer_sym(c, c, 0);
    let r = monitor_proximity_spec(ms);
    assert forall|i: int, j: int| 0 <= i < ms.len() && 0 <= j < ms.len() implies {
        &&& ((#[trigger] r[i]).right == Some(j) <==> right_match(ms, i, j))
        &&& ((#[trigger] r[j]).left == Some(i) <==> right_match(ms, i, j))
        &&& (r[i].down == Some(j) <==> down_match(ms, i, j))
        &&& (r[j].up == Some(i) <==> down_match(ms, i, j))
    } by {
        assert(slots_done(c, r, i) && slots_done(c, r, j));
        if r[i].right == Some(j) {
            assert(right_match(c, i, j));
        }
        if right_match(ms, i, j) {
            assert(right_match(c, i, j));
            assert(has_right(c, i));
            assert(right_match(c, i, the_right(c, i)));
            assert(the_right(c, i) == j);
            assert(left_match(c, j, i));
            assert(has_left(c, j));
            assert(left_match(c, j, the_left(c, j)));
            assert(the_left(c, j) == i);
        }
        if r[j].left == Some(i) {
            assert(left_match(c, j, i));
            assert(right_match(c, i, j));
        }
        if r[i].down == Some(j) {
            assert(down_match(c, i, j));
        }
        if down_match(ms, i, j) {
            assert(down_match(c, i, j));
            assert(has_down(c, i));
            assert(down_match(c, i, the_down(c, i)));
            assert(the_down(c, i) == j);
            assert(up_match(c, j, i));
            assert(has_up(c, j));
            assert(up_match(c, j, the_up(c, j)));
            assert(the_up(c, j) == i);
        }
        if r[j].up == Some(i) {
            assert(up_match(c, j, i));
            assert(down_match(c, i, j));
        }
    }
    assert forall|i: int| 0 <= i < ms.len() implies {
        &&& ((#[trigger] r[i]).right is Some ==> r[r[i].right->Some_0].position == (
            r[i].position.0 + r[i].displayed_resolution.0,
            r[i].position.1,
        ))
        &&& (r[i].down is Some ==> r[r[i].down->Some_0].position == (
            r[i].position.0,
            r[i].position.1 + r[i].displayed_resolution.1,
        ))
    } by {
        assert(prox_inv(c, r));
        assert(sans_links(r[i]) == sans_links(ms[i]));
        if r[i].right is Some {
            let j = r[i].right->Some_0;
            assert(has_right(c, i) && j == the_right(c, i));
            assert(right_match(c, i, j));
            assert(right_match(ms, i, j));
            assert(sans_links(r[j]) == sans_links(ms[j]));
        }
        if r[i].down is Some {
            let j = r[i].down->Some_0;
            assert(has_down(c, i) && j == the_down(c, i));
            assert(down_match(c, i, j));
            assert(down_match(ms, i, j));
            assert(sans_links(r[j]) == sans_links(ms[j]));
        }
    }
}


/// A walk from a fresh visited list translates its root exactly once.
proof fn lemma_shift_translates_root(ms: Seq<MonitorV>, idx: int, difference: int, vertical: bool)
    requires
        0 <= idx < ms.len(),
    ensures
        shift_mons_full(ms, idx, difference, vertical, Seq::empty()).0.len() == ms.len(),
        shift_mons_full(ms, idx, difference, vertical, Seq::empty()).0[idx]
            == crate::layout::shift_target(ms[idx], difference, vertical),
{
    let fuel = (2 * ms.len() + 2) as nat;
    let fm1 = (fuel - 1) as nat;
    let ms1 = ms.update(idx, crate::layout::shift_target(ms[idx], difference, vertical));
    let se1 = Seq::<int>::empty().push(idx);
    assert(se1.contains(idx)) by {
        assert(se1[0] == idx);
    }
    let r = ms1[idx].right;
    let st2 = if r is Some && 0 <= r->Some_0 < ms1.len() && !se1.contains(r->Some_0) {
        crate::layout::shift_mons_spec(ms1, r->Some_0, difference, vertical, se1, fm1)
    } else {
        (ms1, se1)
    };
    if r is Some && 0 <= r->Some_0 < ms1.len() && !se1.contains(r->Some_0) {
        crate::layout::lemma_shift_shape(ms1, r->Some_0, difference, vertical, se1, fm1);
    }
    assert(st2.0[idx] == ms1[idx] && st2.1.contains(idx) && st2.0.len() == ms.len());
    let l = st2.0[idx].left;
    let st3 = if (l is Some && 0 <= l->Some_0 < st2.0.len() && !st2.1.contains(l->Some_0))
        && vertical {
        crate::layout::shift_mons_spec(st2.0, l->Some_0, difference, vertical, st2.1, fm1)
    } else {
        st2
    };
    if (l is Some && 0 <= l->Some_0 < st2.0.len() && !st2.1.contains(l->Some_0)) && vertical {
        crate::layout::lemma_shift_shape(st2.0, l->Some_0, difference, vertical, st2.1, fm1);
    }
    assert(st3.0[idx] == ms1[idx] && st3.1.contains(idx) && st3.0.len() == ms.len());
    let u = st3.0[idx].up;
    let st4 = if (u is Some && 0 <= u->Some_0 < st3.0.len() && !st3.1.contains(u->Some_0))
        && !vertical {
        crate::layout::shift_mons_spec(st3.0, u->Some_0, difference, vertical, st3.1, fm1)
    } else {
        st3
    };
    if (u is Some && 0 <= u->Some_0 < st3.0.len() && !st3.1.contains(u->Some_0)) && !vertical {
        crate::layout::lemma_shift_shape(st3.0, u->Some_0, difference, vertical, st3.1, fm1);
    }
    assert(st4.0[idx] == ms1[idx] && st4.1.contains(idx) && st4.0.len() == ms.len());
    let d = st4.0[idx].down;
    let st5 = if d is Some && 0 <= d->Some_0 < st4.0.len() && !st4.1.contains(d->Some_0) {
        crate::layout::shift_mons_spec(st4.0, d->Some_0, difference, vertical, st4.1, fm1)
    } else {
        st4
    };
    if d is Some && 0 <= d->Some_0 < st4.0.len() && !st4.1.contains(d->Some_0) {
        crate::layout::lemma_shift_shape(st4.0, d->Some_0, difference, vertical, st4.1, fm1);
    }
    assert(st5.0[idx] == ms1[idx] && st5.0.len() == ms.len());
    assert(shift_mons_full(ms, idx, difference, vertical, Seq::empty()) == st5);
}

/// Position consistency through the whole stabilizer: after the snap
/// phase and the proximity pass of `update_neighbor_positions`, every
/// monitor that the input linked rightward or downward sits exactly
/// against its parent's edge — provided links point forward and no
/// monitor is claimed twice. (The pass re-derives the link annotations;
/// the snapped geometry itself is final, since proximity moves nothing.)
pub proof fn lemma_stabilizer_positions_consistent(ms: Seq<MonitorV>)
    requires
        links_forward(ms),
        snap_targets_unique(ms),
    ensures
        ({
            let r = crate::layout::update_neighbor_positions_spec(ms);
            forall|i: int|
                0 <= i < ms.len() ==> {
                    &&& ((#[trigger] ms[i]).right is Some ==> r[ms[i].right->Some_0].position == (
                        r[i].position.0 + r[i].displayed_resolution.0,
                        r[i].position.1,
                    ))
                    &&& (ms[i].down is Some ==> r[ms[i].down->Some_0].position == (
                        r[i].position.0,
                        r[i].position.1 + r[i].displayed_resolution.1,
                    ))
                }
        }),
{
    lemma_unp_upto_consistent(ms, ms.len() as int);
    lemma_snap_pass_consistent(ms);
    let s = crate::layout::unp_upto(ms, ms.len() as int);
    lemma_clear_links_sans(s);
    lemma_prox_outer_sans_links(crate::layout::clear_links_spec(s), 0);
    let r = crate::layout::update_neighbor_positions_spec(ms);
    assert forall|i: int| 0 <= i < ms.len() implies {
        &&& ((#[trigger] ms[i]).right is Some ==> r[ms[i].right->Some_0].position == (
            r[i].position.0 + r[i].displayed_resolution.0,
            r[i].position.1,
        ))
        &&& (ms[i].down is Some ==> r[ms[i].down->Some_0].position == (
            r[i].position.0,
            r[i].position.1 + r[i].displayed_resolution.1,
        ))
    } by {
        let cl = crate::layout::clear_links_spec(s);
        assert(sans_links(r[i]) == sans_links(cl[i]) && sans_links(cl[i]) == sans_links(s[i]));
        assert(crate::layout::links_of(s[i]) == crate::layout::links_of(ms[i]));
        if ms[i].right is Some {
            let c = ms[i].right->Some_0;
            assert(sans_links(r[c]) == sans_links(cl[c]) && sans_links(cl[c]) == sans_links(
                s[c],
            ));
        }
        if ms[i].down is Some {
            let c = ms[i].down->Some_0;
            assert(sans_links(r[c]) == sans_links(cl[c]) && sans_links(cl[c]) == sans_links(
                s[c],
            ));
        }
    }
}

/// Anchoring of the vertical push's placement: when stacking the
/// selected monitor above the pivot would cross the top of the canvas,
/// the pivot's cone is shifted down first, and the selected monitor then
/// lands exactly at y = 0, in the pivot's column.
#[verifier::rlimit(100)]
#[verifier::spinoff_prover]
pub proof fn lemma_vert_push_grounds_selected(ms: Seq<MonitorV>, pivot: int, sel: int)
    requires
        0 <= pivot < ms.len(),
        0 <= sel < ms.len(),
        ms[pivot].position.1 - ms[pivot].displayed_resolution.1 < 0,
    ensures
        crate::layout::vp_place_spec(ms, pivot, sel, crate::Dir::Up)[sel].position.1 == 0,
{
    let diff = ms[pivot].position.1 - ms[sel].displayed_resolution.1;
    lemma_shift_translates_root(ms, pivot, diff, true);
    let s = shift_mons_full(ms, pivot, diff, true, Seq::empty()).0;
    assert(s[pivot].position.1 == ms[sel].displayed_resolution.1);
    crate::layout::lemma_shift_shape(
        ms,
        pivot,
        diff,
        true,
        Seq::empty(),
        (2 * ms.len() + 2) as nat,
    );
    assert(s[sel] == ms[sel] || s[sel] == crate::layout::shift_target(ms[sel], diff, true));
    assert(s[sel].displayed_resolution == ms[sel].displayed_resolution);
}

/// Anchoring of the horizontal push's placement: when putting the
/// selected monitor left of the pivot would cross the canvas's left
/// edge, the pivot's cone is shifted right first, and the selected
/// monitor then lands exactly at x = 0, in the pivot's row.
#[verifier::rlimit(100)]
#[verifier::spinoff_prover]
pub proof fn lemma_horizontal_push_grounds_selected(ms: Seq<MonitorV>, pivot: int, sel: int)
    requires
        0 <= pivot < ms.len(),
        0 <= sel < ms.len(),
        crate::monitor::links_in_range(ms),
        ms[pivot].position.0 - ms[pivot].displayed_resolution.0 < 0,
    ensures
        crate::layout::hp_place_spec(ms, pivot, sel, crate::Dir::Left)[sel].position.0 == 0,
{
    let diff = ms[pivot].position.0 - ms[sel].displayed_resolution.0;
    lemma_shift_translates_root(ms, pivot, diff, false);
    let s = shift_mons_full(ms, pivot, diff, false, Seq::empty()).0;
    assert(s[pivot].position.0 == ms[sel].displayed_resolution.0);
    crate::layout::lemma_shift_shape(
        ms,
        pivot,
        diff,
        false,
        Seq::empty(),
        (2 * ms.len() + 2) as nat,
    );
    assert(s[sel] == ms[sel] || s[sel] == crate::layout::shift_target(ms[sel], diff, false));
    assert(s[sel].displayed_resolution == ms[sel].displayed_resolution);
    assert(s[sel].right == ms[sel].right);
    let a = s.update(
        sel,
        crate::layout::with_pos(
            s[sel],
            (s[pivot].position.0 - s[sel].displayed_resolution.0, s[pivot].position.1),
        ),
    );
    assert(a[sel].position.0 == 0);
    assert(crate::monitor::link_in_range(ms[sel].right, ms.len() as int));
    let b = if a[sel].right is Some {
        let r = a[sel].right->Some_0;
        let b1 = a.update(pivot, (MonitorV { right: a[sel].right, ..a[pivot] }));
        b1.update(r, (MonitorV { left: Some(pivot), ..b1[r] }))
    } else {
        a
    };
    assert(b[sel].position.0 == 0);
    let c = b.update(pivot, (MonitorV { left: Some(sel), ..b[pivot] }));
    assert(c[sel].position.0 == 0);
    let d = c.update(sel, (MonitorV { right: Some(pivot), ..c[sel] }));
    assert(d[sel].position.0 == 0);
    assert(crate::layout::hp_place_spec(ms, pivot, sel, crate::Dir::Left) == d);
}

} // verus!
