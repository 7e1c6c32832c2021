//! The layout engine: operations that mutate the ordered monitor list in
//! place — swaps, pushes, traversals, shifts and the proximity pass — each
//! specified exactly by a spec-level counterpart over `Seq<MonitorV>`.

use vstd::prelude::*;
use vstd::pervasive::VecAdditionalExecFns;
use vstd::seq_lib::seq_to_set_is_finite;
use vstd::set::axiom_set_insert_len;
use vstd::set_lib::{lemma_int_range, lemma_len_subset, set_int_range};

use crate::monitor::{
    disp_ok, disp_ok_mon, link_in_range, link_view, links_in_range, mons_view, pos_bounded,
    wf_mons, Monitor, MonitorV, Monitors, GEOM_BOUND,
};

verus! {

/// Limit on the translation a single shift may apply.
pub const DIFF_BOUND: i64 = 0x100_0000_0000_0000;

/// Position limit accepted by `shift_mons`.
pub const SHIFT_LIMIT: i64 = 0x800_0000_0000_0000;

/// Position limit accepted by `update_neighbor_positions`.
pub const SNAP_LIMIT: i64 = 0x1000_0000_0000_0000;

/// Position limit accepted by `monitor_proximity`, and the limit every
/// position respects when `update_neighbor_positions` returns.
pub const PROX_LIMIT: i64 = 0x5000_0000_0000_0000;

// ---------------------------------------------------------------------------
// Spec-level field updates
// ---------------------------------------------------------------------------

pub open spec fn with_pos(m: MonitorV, p: (int, int)) -> MonitorV {
    MonitorV { position: p, ..m }
}

pub open spec fn with_links(
    m: MonitorV,
    l: Option<int>,
    r: Option<int>,
    u: Option<int>,
    d: Option<int>,
) -> MonitorV {
    MonitorV { left: l, right: r, up: u, down: d, ..m }
}

/// The monitor with its links blanked; equality of `sans_links` images
/// says two monitors agree on everything except their links.
pub open spec fn sans_links(m: MonitorV) -> MonitorV {
    with_links(m, None, None, None, None)
}

// ---------------------------------------------------------------------------
// Exec-level single-field updates (Verus cannot assign through `vec[i]`)
// ---------------------------------------------------------------------------

pub(crate) fn set_position(monitors: &mut Monitors, i: usize, p: (i64, i64))
    requires
        i < old(monitors).len(),
    ensures
        mons_view(*final(monitors)) == mons_view(*old(monitors)).update(
            i as int,
            with_pos(mons_view(*old(monitors))[i as int], (p.0 as int, p.1 as int)),
        ),
{
    let mut m = monitors[i].clone();
    m.position = p;
    monitors.set(i, m);
    proof {
        assert(mons_view(*final(monitors)) =~= mons_view(*old(monitors)).update(
            i as int,
            with_pos(mons_view(*old(monitors))[i as int], (p.0 as int, p.1 as int)),
        ));
    }
}

pub(crate) fn set_links(
    monitors: &mut Monitors,
    i: usize,
    l: Option<usize>,
    r: Option<usize>,
    u: Option<usize>,
    d: Option<usize>,
)
    requires
        i < old(monitors).len(),
    ensures
        mons_view(*final(monitors)) == mons_view(*old(monitors)).update(
            i as int,
            with_links(
                mons_view(*old(monitors))[i as int],
                link_view(l),
                link_view(r),
                link_view(u),
                link_view(d),
            ),
        ),
{
    let mut m = monitors[i].clone();
    m.left = l;
    m.right = r;
    m.up = u;
    m.down = d;
    monitors.set(i, m);
    proof {
        assert(mons_view(*final(monitors)) =~= mons_view(*old(monitors)).update(
            i as int,
            with_links(
                mons_view(*old(monitors))[i as int],
                link_view(l),
                link_view(r),
                link_view(u),
                link_view(d),
            ),
        ));
    }
}

pub(crate) fn set_link(monitors: &mut Monitors, i: usize, dir: crate::Dir, v: Option<usize>)
    requires
        i < old(monitors).len(),
    ensures
        mons_view(*final(monitors)) == mons_view(*old(monitors)).update(
            i as int,
            link_set(mons_view(*old(monitors))[i as int], dir, link_view(v)),
        ),
{
    let mut m = monitors[i].clone();
    match dir {
        crate::Dir::Left => m.left = v,
        crate::Dir::Right => m.right = v,
        crate::Dir::Up => m.up = v,
        crate::Dir::Down => m.down = v,
    }
    monitors.set(i, m);
    proof {
        assert(mons_view(*final(monitors)) =~= mons_view(*old(monitors)).update(
            i as int,
            link_set(mons_view(*old(monitors))[i as int], dir, link_view(v)),
        ));
    }
}

/// One link of a monitor replaced.
pub open spec fn link_set(m: MonitorV, dir: crate::Dir, v: Option<int>) -> MonitorV {
    match dir {
        crate::Dir::Left => MonitorV { left: v, ..m },
        crate::Dir::Right => MonitorV { right: v, ..m },
        crate::Dir::Up => MonitorV { up: v, ..m },
        crate::Dir::Down => MonitorV { down: v, ..m },
    }
}

/// One link of a monitor read.
pub open spec fn link_get(m: MonitorV, dir: crate::Dir) -> Option<int> {
    match dir {
        crate::Dir::Left => m.left,
        crate::Dir::Right => m.right,
        crate::Dir::Up => m.up,
        crate::Dir::Down => m.down,
    }
}

// ---------------------------------------------------------------------------
// shift_res: the half-plane sweep after a footprint change
// ---------------------------------------------------------------------------

/// Every monitor whose left edge is at or beyond the right edge of `idx`
/// moves by `diff.0`; every monitor at or below its bottom edge moves by
/// `diff.1`. A plain sweep over positions, not a walk of the link graph.
pub open spec fn shift_res_spec(ms: Seq<MonitorV>, idx: int, diff: (int, int)) -> Seq<MonitorV> {
    let edge_x = ms[idx].position.0 + ms[idx].displayed_resolution.0;
    let edge_y = ms[idx].position.1 + ms[idx].displayed_resolution.1;
    ms.map(
        |k: int, m: MonitorV|
            with_pos(
                m,
                (
                    if m.position.0 >= edge_x {
                        m.position.0 + diff.0
                    } else {
                        m.position.0
                    },
                    if m.position.1 >= edge_y {
                        m.position.1 + diff.1
                    } else {
                        m.position.1
                    },
                ),
            ),
    )
}

/// Move everything at or beyond the right/bottom edge of the monitor at
/// `mon_index` by `difference`, to open or close the gap its new footprint
/// needs.
pub fn shift_res(monitors: &mut Monitors, mon_index: usize, difference: (i64, i64))
    requires
        mon_index < old(monitors).len(),
        disp_ok(mons_view(*old(monitors))),
        pos_bounded(mons_view(*old(monitors)), GEOM_BOUND as int),
        -DIFF_BOUND <= difference.0 <= DIFF_BOUND,
        -DIFF_BOUND <= difference.1 <= DIFF_BOUND,
    ensures
        mons_view(*final(monitors)) == shift_res_spec(
            mons_view(*old(monitors)),
            mon_index as int,
            (difference.0 as int, difference.1 as int),
        ),
{
    let ghost ms0 = mons_view(*old(monitors));
    let ghost spec_result = shift_res_spec(ms0, mon_index as int, (difference.0 as int, difference.1 as int));
    let edge_x = monitors[mon_index].position.0 + monitors[mon_index].displayed_resolution.0;
    let edge_y = monitors[mon_index].position.1 + monitors[mon_index].displayed_resolution.1;
    let mut k: usize = 0;
    while k < monitors.len()
        invariant
            k <= monitors.len(),
            monitors.len() == ms0.len(),
            ms0 == mons_view(*old(monitors)),
            spec_result == shift_res_spec(ms0, mon_index as int, (difference.0 as int, difference.1 as int)),
            mon_index < ms0.len(),
            disp_ok(ms0),
            pos_bounded(ms0, GEOM_BOUND as int),
            -DIFF_BOUND <= difference.0 <= DIFF_BOUND,
            -DIFF_BOUND <= difference.1 <= DIFF_BOUND,
            edge_x as int == ms0[mon_index as int].position.0 + ms0[mon_index as int].displayed_resolution.0,
            edge_y as int == ms0[mon_index as int].position.1 + ms0[mon_index as int].displayed_resolution.1,
            forall|q: int| 0 <= q < k ==> mons_view(*monitors)[q] == spec_result[q],
            forall|q: int| k <= q < ms0.len() ==> mons_view(*monitors)[q] == ms0[q],
        decreases monitors.len() - k,
    {
        proof {
            assert(mons_view(*monitors)[k as int] == ms0[k as int]);
            assert(-GEOM_BOUND <= ms0[k as int].position.0 <= GEOM_BOUND);
        }
        let px = monitors[k].position.0;
        let py = monitors[k].position.1;
        let nx = if px >= edge_x {
            px + difference.0
        } else {
            px
        };
        let ny = if py >= edge_y {
            py + difference.1
        } else {
            py
        };
        set_position(monitors, k, (nx, ny));
        proof {
            assert(mons_view(*monitors).len() == ms0.len());
            assert(monitors@.len() == ms0.len());
            assert(spec_result[k as int] == with_pos(
                ms0[k as int],
                (
                    if ms0[k as int].position.0 >= edge_x as int {
                        ms0[k as int].position.0 + difference.0 as int
                    } else {
                        ms0[k as int].position.0
                    },
                    if ms0[k as int].position.1 >= edge_y as int {
                        ms0[k as int].position.1 + difference.1 as int
                    } else {
                        ms0[k as int].position.1
                    },
                ),
            ));
        }
        k = k + 1;
    }
    proof {
        assert(mons_view(*final(monitors)) =~= spec_result);
    }
}

// ---------------------------------------------------------------------------
// monitor_proximity: re-derive neighbor links from positions
// ---------------------------------------------------------------------------

/// One ordered pair (i, j) of enabled monitors: if `j` sits exactly
/// against one cardinal side of `i` — right of `i`'s right edge or under
/// its bottom edge, or ending at `i`'s left or top edge — with the
/// matching perpendicular coordinate, set the two links of that side.
/// Disabled monitors are excluded from geometry and take no part.
pub open spec fn prox_pair(ms: Seq<MonitorV>, i: int, j: int) -> Seq<MonitorV> {
    if i == j || i < 0 || i >= ms.len() || j < 0 || j >= ms.len() || !ms[i].is_enabled
        || !ms[j].is_enabled {
        ms
    } else {
        let mi = ms[i];
        let mj = ms[j];
        if mj.position.0 == mi.position.0 + mi.displayed_resolution.0 && mj.position.1
            == mi.position.1 {
            ms.update(i, MonitorV { right: Some(j), ..mi }).update(
                j,
                MonitorV { left: Some(i), ..mj },
            )
        } else if mj.position.1 == mi.position.1 + mi.displayed_resolution.1 && mj.position.0
            == mi.position.0 {
            ms.update(i, MonitorV { down: Some(j), ..mi }).update(j, MonitorV { up: Some(i), ..mj })
        } else if mj.position.0 == mi.position.0 - mj.displayed_resolution.0 && mj.position.1
            == mi.position.1 {
            ms.update(i, MonitorV { left: Some(j), ..mi }).update(
                j,
                MonitorV { right: Some(i), ..mj },
            )
        } else if mj.position.1 == mi.position.1 - mj.displayed_resolution.1 && mj.position.0
            == mi.position.0 {
            ms.update(i, MonitorV { up: Some(j), ..mi }).update(j, MonitorV { down: Some(i), ..mj })
        } else {
            ms
        }
    }
}

pub proof fn lemma_prox_pair_len(ms: Seq<MonitorV>, i: int, j: int)
    ensures
        prox_pair(ms, i, j).len() == ms.len(),
{
}

/// The row of pairs (i, j), (i, j+1), ... in order.
pub open spec fn prox_row(ms: Seq<MonitorV>, i: int, j: int) -> Seq<MonitorV>
    decreases ms.len() - j,
    via prox_row_dec
{
    if j < 0 || j >= ms.len() {
        ms
    } else {
        prox_row(prox_pair(ms, i, j), i, j + 1)
    }
}

#[via_fn]
proof fn prox_row_dec(ms: Seq<MonitorV>, i: int, j: int) {
    if 0 <= j < ms.len() {
        lemma_prox_pair_len(ms, i, j);
    }
}

pub proof fn lemma_prox_row_len(ms: Seq<MonitorV>, i: int, j: int)
    ensures
        prox_row(ms, i, j).len() == ms.len(),
    decreases ms.len() - j,
{
    if 0 <= j < ms.len() {
        lemma_prox_pair_len(ms, i, j);
        lemma_prox_row_len(prox_pair(ms, i, j), i, j + 1);
    }
}

/// All rows from `i` upward, each row scanning every j.
pub open spec fn prox_outer(ms: Seq<MonitorV>, i: int) -> Seq<MonitorV>
    decreases ms.len() - i,
    via prox_outer_dec
{
    if i < 0 || i >= ms.len() {
        ms
    } else {
        prox_outer(prox_row(ms, i, 0), i + 1)
    }
}

#[via_fn]
proof fn prox_outer_dec(ms: Seq<MonitorV>, i: int) {
    if 0 <= i < ms.len() {
        lemma_prox_row_len(ms, i, 0);
    }
}

/// The whole O(n^2) proximity pass.
/// Every link of every monitor cleared, ready for re-derivation.
pub open spec fn clear_links_spec(ms: Seq<MonitorV>) -> Seq<MonitorV> {
    ms.map(|k: int, m: MonitorV| with_links(m, None, None, None, None))
}

pub open spec fn monitor_proximity_spec(ms: Seq<MonitorV>) -> Seq<MonitorV> {
    prox_outer(clear_links_spec(ms), 0)
}

/// Recalculate cardinal proximity: clear every link, then for each
/// ordered pair of enabled monitors whose rectangles sit exactly against
/// each other, point their links at each other. This re-derives the
/// links from positions alone; positions and all other fields are
/// untouched.
pub fn monitor_proximity(monitors: &mut Monitors)
    requires
        links_in_range(mons_view(*old(monitors))),
        disp_ok(mons_view(*old(monitors))),
        pos_bounded(mons_view(*old(monitors)), PROX_LIMIT as int),
    ensures
        mons_view(*final(monitors)) == monitor_proximity_spec(mons_view(*old(monitors))),
        mons_view(*final(monitors)).len() == mons_view(*old(monitors)).len(),
        links_in_range(mons_view(*final(monitors))),
        forall|q: int|
            0 <= q < mons_view(*old(monitors)).len() ==> sans_links(
                #[trigger] mons_view(*final(monitors))[q],
            ) == sans_links(mons_view(*old(monitors))[q]),
{
    let ghost ms0 = mons_view(*old(monitors));
    let n = monitors.len();
    let mut k: usize = 0;
    while k < n
        invariant
            k <= n,
            n == monitors.len(),
            n == ms0.len(),
            ms0 == mons_view(*old(monitors)),
            forall|q: int|
                0 <= q < k ==> mons_view(*monitors)[q] == clear_links_spec(ms0)[q],
            forall|q: int| k <= q < n ==> mons_view(*monitors)[q] == ms0[q],
        decreases n - k,
    {
        set_links(monitors, k, None, None, None, None);
        proof {
            assert(mons_view(*monitors).len() == ms0.len());
            assert(monitors@.len() == ms0.len());
            assert(mons_view(*monitors)[k as int] == clear_links_spec(ms0)[k as int]);
        }
        k = k + 1;
    }
    proof {
        assert(mons_view(*monitors) =~= clear_links_spec(ms0));
        assert(links_in_range(mons_view(*monitors)));
        assert forall|q: int|
            0 <= q < n implies sans_links(#[trigger] mons_view(*monitors)[q]) == sans_links(
            ms0[q],
        ) by {
            assert(mons_view(*monitors)[q] == clear_links_spec(ms0)[q]);
        }
    }
    let mut i: usize = 0;
    while i < n
        invariant
            i <= n,
            n == monitors.len(),
            n == ms0.len(),
            ms0 == mons_view(*old(monitors)),
            monitor_proximity_spec(ms0) == prox_outer(mons_view(*monitors), i as int),
            links_in_range(mons_view(*monitors)),
            disp_ok(ms0),
            pos_bounded(ms0, PROX_LIMIT as int),
            forall|q: int|
                0 <= q < n ==> sans_links(#[trigger] mons_view(*monitors)[q]) == sans_links(
                    ms0[q],
                ),
        decreases n - i,
    {
        let ghost row0 = mons_view(*monitors);
        let mut j: usize = 0;
        while j < n
            invariant
                j <= n,
                i < n,
                n == monitors.len(),
                n == ms0.len(),
                ms0 == mons_view(*old(monitors)),
                row0.len() == n,
                prox_row(row0, i as int, 0) == prox_row(mons_view(*monitors), i as int, j as int),
                links_in_range(mons_view(*monitors)),
                disp_ok(ms0),
                pos_bounded(ms0, PROX_LIMIT as int),
                forall|q: int|
                    0 <= q < n ==> sans_links(#[trigger] mons_view(*monitors)[q]) == sans_links(
                        ms0[q],
                    ),
            decreases n - j,
        {
            let ghost pre = mons_view(*monitors);
            if i != j && monitors[i].is_enabled && monitors[j].is_enabled {
                proof {
                    assert(mons_view(*monitors)[i as int] == pre[i as int]);
                    assert(mons_view(*monitors)[j as int] == pre[j as int]);
                    assert(sans_links(pre[i as int]) == sans_links(ms0[i as int]));
                    assert(sans_links(pre[j as int]) == sans_links(ms0[j as int]));
                    assert(-PROX_LIMIT <= ms0[i as int].position.0 <= PROX_LIMIT);
                    assert(-PROX_LIMIT <= ms0[j as int].position.0 <= PROX_LIMIT);
                    assert(0 <= ms0[i as int].displayed_resolution.0 <= GEOM_BOUND);
                    assert(0 <= ms0[j as int].displayed_resolution.0 <= GEOM_BOUND);
                }
                let pix = monitors[i].position.0;
                let piy = monitors[i].position.1;
                let pjx = monitors[j].position.0;
                let pjy = monitors[j].position.1;
                let dix = monitors[i].displayed_resolution.0;
                let diy = monitors[i].displayed_resolution.1;
                let djx = monitors[j].displayed_resolution.0;
                let djy = monitors[j].displayed_resolution.1;
                if pjx == pix + dix && pjy == piy {
                    set_link(monitors, i, crate::Dir::Right, Some(j));
                    proof {
                        assert(mons_view(*monitors).len() == n as int);
                    }
                    set_link(monitors, j, crate::Dir::Left, Some(i));
                } else if pjy == piy + diy && pjx == pix {
                    set_link(monitors, i, crate::Dir::Down, Some(j));
                    proof {
                        assert(mons_view(*monitors).len() == n as int);
                    }
                    set_link(monitors, j, crate::Dir::Up, Some(i));
                } else if pjx == pix - djx && pjy == piy {
                    set_link(monitors, i, crate::Dir::Left, Some(j));
                    proof {
                        assert(mons_view(*monitors).len() == n as int);
                    }
                    set_link(monitors, j, crate::Dir::Right, Some(i));
                } else if pjy == piy - djy && pjx == pix {
                    set_link(monitors, i, crate::Dir::Up, Some(j));
                    proof {
                        assert(mons_view(*monitors).len() == n as int);
                    }
                    set_link(monitors, j, crate::Dir::Down, Some(i));
                }
            }
            proof {
                assert(mons_view(*monitors) =~= prox_pair(pre, i as int, j as int));
            }
            j = j + 1;
        }
        i = i + 1;
    }
}

// ---------------------------------------------------------------------------
// update_neighbor_positions: snap linked neighbors into place
// ---------------------------------------------------------------------------

/// One snap step: the right neighbor of `i` (if any) moves to the right
/// edge of `i` at the same height; then the down neighbor of `i` (if any)
/// moves under `i`'s bottom edge at the same column.
pub open spec fn unp_step(ms: Seq<MonitorV>, i: int) -> Seq<MonitorV> {
    let ms1 = match ms[i].right {
        Some(r) => ms.update(
            r,
            with_pos(
                ms[r],
                (ms[i].position.0 + ms[i].displayed_resolution.0, ms[i].position.1),
            ),
        ),
        None => ms,
    };
    match ms[i].down {
        Some(d) => ms1.update(
            d,
            with_pos(
                ms1[d],
                (ms1[i].position.0, ms1[i].position.1 + ms1[i].displayed_resolution.1),
            ),
        ),
        None => ms1,
    }
}

/// The snap steps for monitors 0, 1, ..., i-1, in order.
pub open spec fn unp_upto(ms: Seq<MonitorV>, i: int) -> Seq<MonitorV>
    decreases i,
{
    if i <= 0 {
        ms
    } else {
        unp_step(unp_upto(ms, i - 1), i - 1)
    }
}

/// Snapping every linked neighbor into place and then re-deriving the
/// links from the resulting positions.
pub open spec fn update_neighbor_positions_spec(ms: Seq<MonitorV>) -> Seq<MonitorV> {
    monitor_proximity_spec(unp_upto(ms, ms.len() as int))
}

/// For each monitor in list order, snap its right neighbor to its right
/// edge and its down neighbor under its bottom edge, then recompute
/// proximity. The stabilizer run after operations that edit links or
/// positions.
pub fn update_neighbor_positions(monitors: &mut Monitors)
    requires
        links_in_range(mons_view(*old(monitors))),
        disp_ok(mons_view(*old(monitors))),
        pos_bounded(mons_view(*old(monitors)), SNAP_LIMIT as int),
        mons_view(*old(monitors)).len() <= 0x10000,
    ensures
        mons_view(*final(monitors)) == update_neighbor_positions_spec(mons_view(*old(monitors))),
        mons_view(*final(monitors)).len() == mons_view(*old(monitors)).len(),
        links_in_range(mons_view(*final(monitors))),
{
    let ghost ms0 = mons_view(*old(monitors));
    let n = monitors.len();
    let mut i: usize = 0;
    while i < n
        invariant
            i <= n,
            n == monitors.len(),
            n == ms0.len(),
            n <= 0x10000,
            ms0 == mons_view(*old(monitors)),
            mons_view(*monitors) == unp_upto(ms0, i as int),
            links_in_range(ms0),
            disp_ok(ms0),
            pos_bounded(ms0, SNAP_LIMIT as int),
            links_in_range(mons_view(*monitors)),
            disp_ok(mons_view(*monitors)),
            pos_bounded(mons_view(*monitors), SNAP_LIMIT as int + GEOM_BOUND as int * (i as int)),
            forall|q: int|
                0 <= q < n ==> links_of(#[trigger] mons_view(*monitors)[q]) == links_of(ms0[q]),
        decreases n - i,
    {
        let ghost pre = mons_view(*monitors);
        proof {
            assert(mons_view(*monitors)[i as int] == pre[i as int]);
            assert(GEOM_BOUND as int * (i as int) <= GEOM_BOUND as int * 0x10000)
                by (nonlinear_arith)
                requires
                    0 <= i <= 0x10000,
            ;
            assert(GEOM_BOUND as int * (i as int + 1) <= GEOM_BOUND as int * 0x10000)
                by (nonlinear_arith)
                requires
                    0 <= i as int + 1 <= 0x10000,
            ;
            assert(GEOM_BOUND as int * (i as int + 1) == GEOM_BOUND as int * (i as int) + GEOM_BOUND as int)
                by (nonlinear_arith);
        }
        let right = monitors[i].right;
        let down = monitors[i].down;
        if let Some(right_index) = right {
            proof {
                assert(link_in_range(pre[i as int].right, pre.len() as int));
            }
            let pos_x = monitors[i].position.0 + monitors[i].displayed_resolution.0;
            let pos_y = monitors[i].position.1;
            set_position(monitors, right_index, (pos_x, pos_y));
        }
        if let Some(down_index) = down {
            proof {
                assert(mons_view(*monitors).len() == n as int);
                assert(link_in_range(pre[i as int].down, pre.len() as int));
                assert(GEOM_BOUND as int * (i as int + 2) <= GEOM_BOUND as int * 0x10001)
                    by (nonlinear_arith)
                    requires
                        0 <= i as int + 2 <= 0x10001,
                ;
                assert(GEOM_BOUND as int * (i as int + 2) == GEOM_BOUND as int * (i as int + 1) + GEOM_BOUND as int)
                    by (nonlinear_arith);
                let cv = mons_view(*monitors);
                assert(-(SNAP_LIMIT as int + GEOM_BOUND as int * (i as int + 1)) <= cv[i as int].position.1
                    <= SNAP_LIMIT as int + GEOM_BOUND as int * (i as int + 1));
                assert(cv[i as int].displayed_resolution.1 == pre[i as int].displayed_resolution.1);
            }
            let pos_x = monitors[i].position.0;
            let pos_y = monitors[i].position.1 + monitors[i].displayed_resolution.1;
            set_position(monitors, down_index, (pos_x, pos_y));
        }
        proof {
            assert(mons_view(*monitors) =~= unp_step(pre, i as int));
            assert(unp_step(pre, i as int) == unp_upto(ms0, i as int + 1));
        }
        i = i + 1;
    }
    proof {
        assert(pos_bounded(
            mons_view(*monitors),
            SNAP_LIMIT as int + GEOM_BOUND as int * (n as int),
        ));
        assert(GEOM_BOUND as int * (n as int) <= GEOM_BOUND as int * 0x10000) by (nonlinear_arith)
            requires n <= 0x10000;
        assert(pos_bounded(mons_view(*monitors), PROX_LIMIT as int));
    }
    monitor_proximity(monitors);
}

/// The four links of a monitor, for stating that an operation leaves
/// links alone.
pub open spec fn links_of(m: MonitorV) -> (Option<int>, Option<int>, Option<int>, Option<int>) {
    (m.left, m.right, m.up, m.down)
}

// ---------------------------------------------------------------------------
// shift_mons: translate a connected cone of the link graph
// ---------------------------------------------------------------------------

/// The visited list as mathematical indices.
pub open spec fn idxs_view(v: Seq<usize>) -> Seq<int> {
    v.map_values(|u: usize| u as int)
}

/// Every index the visited list holds is inside the list.
pub open spec fn in_range_idxs(se: Seq<int>, n: int) -> bool {
    forall|x: int| #[trigger] se.contains(x) ==> 0 <= x < n
}

/// A monitor translated by `difference` against the chosen axis.
pub open spec fn shift_target(m: MonitorV, difference: int, vertical: bool) -> MonitorV {
    if vertical {
        with_pos(m, (m.position.0, m.position.1 - difference))
    } else {
        with_pos(m, (m.position.0 - difference, m.position.1))
    }
}

/// The depth-first walk of `shift_mons`: translate the current monitor if
/// it has not been seen, record it, then follow right and down always,
/// left only when moving vertically, up only when moving horizontally.
/// `fuel` only bounds the recursion; every run the executable code makes
/// finishes long before it runs out.
pub open spec fn shift_mons_spec(
    ms: Seq<MonitorV>,
    idx: int,
    difference: int,
    vertical: bool,
    searched: Seq<int>,
    fuel: nat,
) -> (Seq<MonitorV>, Seq<int>)
    decreases fuel,
{
    if fuel == 0 || idx < 0 || idx >= ms.len() {
        (ms, searched)
    } else {
        let ms1 = if !searched.contains(idx) {
            ms.update(idx, shift_target(ms[idx], difference, vertical))
        } else {
            ms
        };
        let se1 = searched.push(idx);
        let r = ms1[idx].right;
        let st2 = if r is Some && 0 <= r->Some_0 < ms1.len() && !se1.contains(r->Some_0) {
            shift_mons_spec(ms1, r->Some_0, difference, vertical, se1, (fuel - 1) as nat)
        } else {
            (ms1, se1)
        };
        let l = st2.0[idx].left;
        let st3 = if (l is Some && 0 <= l->Some_0 < st2.0.len() && !st2.1.contains(l->Some_0))
            && vertical {
            shift_mons_spec(st2.0, l->Some_0, difference, vertical, st2.1, (fuel - 1) as nat)
        } else {
            st2
        };
        let u = st3.0[idx].up;
        let st4 = if (u is Some && 0 <= u->Some_0 < st3.0.len() && !st3.1.contains(u->Some_0))
            && !vertical {
            shift_mons_spec(st3.0, u->Some_0, difference, vertical, st3.1, (fuel - 1) as nat)
        } else {
            st3
        };
        let d = st4.0[idx].down;
        if d is Some && 0 <= d->Some_0 < st4.0.len() && !st4.1.contains(d->Some_0) {
            shift_mons_spec(st4.0, d->Some_0, difference, vertical, st4.1, (fuel - 1) as nat)
        } else {
            st4
        }
    }
}

/// The walk with fuel that can never run out: every level of the walk
/// records a fresh monitor, so `2n + 2` levels always suffice.
pub open spec fn shift_mons_full(
    ms: Seq<MonitorV>,
    idx: int,
    difference: int,
    vertical: bool,
    searched: Seq<int>,
) -> (Seq<MonitorV>, Seq<int>) {
    shift_mons_spec(ms, idx, difference, vertical, searched, (2 * ms.len() + 2) as nat)
}

/// What one walk does, stated between its input and its output: the list
/// keeps its length, the visited list only grows, every new entry is a
/// real index, and each monitor is either untouched or translated exactly
/// once — the latter exactly when the walk visited it for the first time.
pub open spec fn shift_rel(
    a_ms: Seq<MonitorV>,
    a_se: Seq<int>,
    b_ms: Seq<MonitorV>,
    b_se: Seq<int>,
    difference: int,
    vertical: bool,
) -> bool {
    &&& b_ms.len() == a_ms.len()
    &&& (forall|x: int| a_se.contains(x) ==> b_se.contains(x))
    &&& (forall|x: int| b_se.contains(x) ==> a_se.contains(x) || 0 <= x < a_ms.len())
    &&& (forall|k: int|
        0 <= k < a_ms.len() ==> #[trigger] b_ms[k] == (if b_se.contains(k) && !a_se.contains(k) {
            shift_target(a_ms[k], difference, vertical)
        } else {
            a_ms[k]
        }))
}

proof fn lemma_shift_rel_trans(
    a_ms: Seq<MonitorV>,
    a_se: Seq<int>,
    b_ms: Seq<MonitorV>,
    b_se: Seq<int>,
    c_ms: Seq<MonitorV>,
    c_se: Seq<int>,
    difference: int,
    vertical: bool,
)
    requires
        shift_rel(a_ms, a_se, b_ms, b_se, difference, vertical),
        shift_rel(b_ms, b_se, c_ms, c_se, difference, vertical),
    ensures
        shift_rel(a_ms, a_se, c_ms, c_se, difference, vertical),
{
    assert forall|k: int| 0 <= k < a_ms.len() implies #[trigger] c_ms[k] == (if c_se.contains(k)
        && !a_se.contains(k) {
        shift_target(a_ms[k], difference, vertical)
    } else {
        a_ms[k]
    }) by {
        if c_se.contains(k) && !a_se.contains(k) {
            if b_se.contains(k) {
                assert(b_ms[k] == shift_target(a_ms[k], difference, vertical));
                assert(c_ms[k] == b_ms[k]);
            } else {
                assert(b_ms[k] == a_ms[k]);
                assert(c_ms[k] == shift_target(b_ms[k], difference, vertical));
            }
        } else {
            if !c_se.contains(k) {
                assert(!b_se.contains(k));
                assert(c_ms[k] == b_ms[k]);
                assert(b_ms[k] == a_ms[k]);
            } else {
                assert(a_se.contains(k));
                assert(b_se.contains(k));
                assert(c_ms[k] == b_ms[k]);
                assert(b_ms[k] == a_ms[k]);
            }
        }
    }
}

/// Every walk relates its input to its output by `shift_rel`.
pub proof fn lemma_shift_shape(
    ms: Seq<MonitorV>,
    idx: int,
    difference: int,
    vertical: bool,
    searched: Seq<int>,
    fuel: nat,
)
    ensures
        ({
            let st = shift_mons_spec(ms, idx, difference, vertical, searched, fuel);
            shift_rel(ms, searched, st.0, st.1, difference, vertical)
        }),
    decreases fuel,
{
    if fuel == 0 || idx < 0 || idx >= ms.len() {
    } else {
        let ms1 = if !searched.contains(idx) {
            ms.update(idx, shift_target(ms[idx], difference, vertical))
        } else {
            ms
        };
        let se1 = searched.push(idx);
        assert forall|x: int| searched.contains(x) implies se1.contains(x) by {
            let q = choose|q: int| 0 <= q < searched.len() && searched[q] == x;
            assert(se1[q] == x);
        }
        assert forall|k: int|
            0 <= k < ms.len() implies #[trigger] ms1[k] == (if se1.contains(k)
            && !searched.contains(k) {
            shift_target(ms[k], difference, vertical)
        } else {
            ms[k]
        }) by {
            if k == idx {
                assert(se1[se1.len() - 1] == idx);
                assert(se1.contains(idx));
            } else {
                if se1.contains(k) {
                    let q = choose|q: int| 0 <= q < se1.len() && se1[q] == k;
                    assert(q < searched.len());
                    assert(searched[q] == k);
                    assert(searched.contains(k));
                }
            }
        }
        assert(shift_rel(ms, searched, ms1, se1, difference, vertical));
        let r = ms1[idx].right;
        let st2 = if r is Some && 0 <= r->Some_0 < ms1.len() && !se1.contains(r->Some_0) {
            shift_mons_spec(ms1, r->Some_0, difference, vertical, se1, (fuel - 1) as nat)
        } else {
            (ms1, se1)
        };
        if r is Some && 0 <= r->Some_0 < ms1.len() && !se1.contains(r->Some_0) {
            lemma_shift_shape(ms1, r->Some_0, difference, vertical, se1, (fuel - 1) as nat);
        }
        lemma_shift_rel_trans(ms, searched, ms1, se1, st2.0, st2.1, difference, vertical);
        let l = st2.0[idx].left;
        let st3 = if (l is Some && 0 <= l->Some_0 < st2.0.len() && !st2.1.contains(l->Some_0))
            && vertical {
            shift_mons_spec(st2.0, l->Some_0, difference, vertical, st2.1, (fuel - 1) as nat)
        } else {
            st2
        };
        if (l is Some && 0 <= l->Some_0 < st2.0.len() && !st2.1.contains(l->Some_0)) && vertical {
            lemma_shift_shape(st2.0, l->Some_0, difference, vertical, st2.1, (fuel - 1) as nat);
        }
        lemma_shift_rel_trans(ms, searched, st2.0, st2.1, st3.0, st3.1, difference, vertical);
        let u = st3.0[idx].up;
        let st4 = if (u is Some && 0 <= u->Some_0 < st3.0.len() && !st3.1.contains(u->Some_0))
            && !vertical {
            shift_mons_spec(st3.0, u->Some_0, difference, vertical, st3.1, (fuel - 1) as nat)
        } else {
            st3
        };
        if (u is Some && 0 <= u->Some_0 < st3.0.len() && !st3.1.contains(u->Some_0)) && !vertical {
            lemma_shift_shape(st3.0, u->Some_0, difference, vertical, st3.1, (fuel - 1) as nat);
        }
        lemma_shift_rel_trans(ms, searched, st3.0, st3.1, st4.0, st4.1, difference, vertical);
        let d = st4.0[idx].down;
        let st5 = if d is Some && 0 <= d->Some_0 < st4.0.len() && !st4.1.contains(d->Some_0) {
            shift_mons_spec(st4.0, d->Some_0, difference, vertical, st4.1, (fuel - 1) as nat)
        } else {
            st4
        };
        if d is Some && 0 <= d->Some_0 < st4.0.len() && !st4.1.contains(d->Some_0) {
            lemma_shift_shape(st4.0, d->Some_0, difference, vertical, st4.1, (fuel - 1) as nat);
        }
        lemma_shift_rel_trans(ms, searched, st4.0, st4.1, st5.0, st5.1, difference, vertical);
        assert(shift_mons_spec(ms, idx, difference, vertical, searched, fuel) == st5);
    }
}

/// Visited lists with in-range entries have at most `n` distinct entries.
pub proof fn lemma_visited_bound(searched: Seq<int>, n: int)
    requires
        in_range_idxs(searched, n),
        n >= 0,
    ensures
        searched.to_set().finite(),
        searched.to_set().len() <= n,
{
    seq_to_set_is_finite(searched);
    lemma_int_range(0, n);
    assert(searched.to_set().subset_of(set_int_range(0, n))) by {
        assert forall|x: int| searched.to_set().contains(x) implies set_int_range(0, n).contains(
            x,
        ) by {
            assert(searched.contains(x));
        }
    }
    lemma_len_subset(searched.to_set(), set_int_range(0, n));
}

/// The fuel a walk can actually consume, counted from how many monitors
/// are still unseen.
pub open spec fn sm_fuel(n: int, idx: int, searched: Seq<int>) -> int {
    2 * (n - searched.to_set().len()) + (if searched.contains(idx) {
        1int
    } else {
        0int
    }) + 1
}

/// Any two fuels at or above `sm_fuel` give the same walk.
pub proof fn lemma_shift_fuel(
    ms: Seq<MonitorV>,
    idx: int,
    difference: int,
    vertical: bool,
    searched: Seq<int>,
    f1: nat,
    f2: nat,
)
    requires
        in_range_idxs(searched, ms.len() as int),
        f1 >= sm_fuel(ms.len() as int, idx, searched),
        f2 >= sm_fuel(ms.len() as int, idx, searched),
    ensures
        shift_mons_spec(ms, idx, difference, vertical, searched, f1) == shift_mons_spec(
            ms,
            idx,
            difference,
            vertical,
            searched,
            f2,
        ),
    decreases sm_fuel(ms.len() as int, idx, searched),
{
    let n = ms.len() as int;
    lemma_visited_bound(searched, n);
    assert(f1 >= 1 && f2 >= 1);
    if idx < 0 || idx >= n {
    } else {
        let ms1 = if !searched.contains(idx) {
            ms.update(idx, shift_target(ms[idx], difference, vertical))
        } else {
            ms
        };
        let se1 = searched.push(idx);
        searched.lemma_push_to_set_commute(idx);
        axiom_set_insert_len(searched.to_set(), idx);
        assert(in_range_idxs(se1, n)) by {
            assert forall|x: int| #[trigger] se1.contains(x) implies 0 <= x < n by {
                if x != idx {
                    assert(searched.contains(x)) by {
                        let q = choose|q: int| 0 <= q < se1.len() && se1[q] == x;
                        assert(searched[q] == x);
                    }
                }
            }
        }
        lemma_visited_bound(se1, n);
        let mu = sm_fuel(n, idx, searched);
        let r = ms1[idx].right;
        let take_r = r is Some && 0 <= r->Some_0 < ms1.len() && !se1.contains(r->Some_0);
        let st2a = if take_r {
            shift_mons_spec(ms1, r->Some_0, difference, vertical, se1, (f1 - 1) as nat)
        } else {
            (ms1, se1)
        };
        let st2b = if take_r {
            shift_mons_spec(ms1, r->Some_0, difference, vertical, se1, (f2 - 1) as nat)
        } else {
            (ms1, se1)
        };
        if take_r {
            assert(sm_fuel(n, r->Some_0, se1) < mu);
            lemma_shift_fuel(ms1, r->Some_0, difference, vertical, se1, (f1 - 1) as nat, (f2 - 1) as nat);
        }
        assert(st2a == st2b);
        let st2 = st2a;
        assert(in_range_idxs(st2.1, n) && st2.0.len() == n && st2.1.to_set().len()
            >= se1.to_set().len()) by {
            if take_r {
                lemma_shift_shape(ms1, r->Some_0, difference, vertical, se1, (f1 - 1) as nat);
                assert(se1.to_set().subset_of(st2.1.to_set())) by {
                    assert forall|x: int| se1.to_set().contains(x) implies st2.1.to_set().contains(
                        x,
                    ) by {
                        assert(se1.contains(x));
                    }
                }
                lemma_visited_bound(se1, n);
                assert(st2.1.to_set().finite()) by {
                    seq_to_set_is_finite(st2.1);
                }
                lemma_len_subset(se1.to_set(), st2.1.to_set());
                assert forall|x: int| #[trigger] st2.1.contains(x) implies 0 <= x < n by {
                    if !se1.contains(x) {
                    }
                }
            }
        }
        lemma_visited_bound(st2.1, n);
        let l = st2.0[idx].left;
        let take_l = (l is Some && 0 <= l->Some_0 < st2.0.len() && !st2.1.contains(l->Some_0))
            && vertical;
        let st3a = if take_l {
            shift_mons_spec(st2.0, l->Some_0, difference, vertical, st2.1, (f1 - 1) as nat)
        } else {
            st2
        };
        let st3b = if take_l {
            shift_mons_spec(st2.0, l->Some_0, difference, vertical, st2.1, (f2 - 1) as nat)
        } else {
            st2
        };
        if take_l {
            assert(sm_fuel(n, l->Some_0, st2.1) < mu);
            assert(sm_fuel(n, l->Some_0, st2.1) <= f1 - 1 && sm_fuel(n, l->Some_0, st2.1) <= f2
                - 1);
            lemma_shift_fuel(st2.0, l->Some_0, difference, vertical, st2.1, (f1 - 1) as nat, (f2 - 1) as nat);
        }
        assert(st3a == st3b);
        let st3 = st3a;
        assert(in_range_idxs(st3.1, n) && st3.0.len() == n && st3.1.to_set().len()
            >= se1.to_set().len()) by {
            if take_l {
                lemma_shift_shape(st2.0, l->Some_0, difference, vertical, st2.1, (f1 - 1) as nat);
                assert(st2.1.to_set().subset_of(st3.1.to_set())) by {
                    assert forall|x: int| st2.1.to_set().contains(x) implies st3.1.to_set().contains(
                        x,
                    ) by {
                        assert(st2.1.contains(x));
                    }
                }
                assert(st3.1.to_set().finite()) by {
                    seq_to_set_is_finite(st3.1);
                }
                lemma_len_subset(st2.1.to_set(), st3.1.to_set());
                assert forall|x: int| #[trigger] st3.1.contains(x) implies 0 <= x < n by {
                    if !st2.1.contains(x) {
                    }
                }
            }
        }
        lemma_visited_bound(st3.1, n);
        let u = st3.0[idx].up;
        let take_u = (u is Some && 0 <= u->Some_0 < st3.0.len() && !st3.1.contains(u->Some_0))
            && !vertical;
        let st4a = if take_u {
            shift_mons_spec(st3.0, u->Some_0, difference, vertical, st3.1, (f1 - 1) as nat)
        } else {
            st3
        };
        let st4b = if take_u {
            shift_mons_spec(st3.0, u->Some_0, difference, vertical, st3.1, (f2 - 1) as nat)
        } else {
            st3
        };
        if take_u {
            assert(sm_fuel(n, u->Some_0, st3.1) < mu);
            lemma_shift_fuel(st3.0, u->Some_0, difference, vertical, st3.1, (f1 - 1) as nat, (f2 - 1) as nat);
        }
        assert(st4a == st4b);
        let st4 = st4a;
        assert(in_range_idxs(st4.1, n) && st4.0.len() == n && st4.1.to_set().len()
            >= se1.to_set().len()) by {
            if take_u {
                lemma_shift_shape(st3.0, u->Some_0, difference, vertical, st3.1, (f1 - 1) as nat);
                assert(st3.1.to_set().subset_of(st4.1.to_set())) by {
                    assert forall|x: int| st3.1.to_set().contains(x) implies st4.1.to_set().contains(
                        x,
                    ) by {
                        assert(st3.1.contains(x));
                    }
                }
                assert(st4.1.to_set().finite()) by {
                    seq_to_set_is_finite(st4.1);
                }
                lemma_len_subset(st3.1.to_set(), st4.1.to_set());
                assert forall|x: int| #[trigger] st4.1.contains(x) implies 0 <= x < n by {
                    if !st3.1.contains(x) {
                    }
                }
            }
        }
        lemma_visited_bound(st4.1, n);
        let d = st4.0[idx].down;
        let take_d = d is Some && 0 <= d->Some_0 < st4.0.len() && !st4.1.contains(d->Some_0);
        if take_d {
            assert(sm_fuel(n, d->Some_0, st4.1) < mu);
            lemma_shift_fuel(st4.0, d->Some_0, difference, vertical, st4.1, (f1 - 1) as nat, (f2 - 1) as nat);
        }
    }
}


/// Positions are bounded, with extra headroom exactly for the monitors the
/// walk has already translated.
pub open spec fn shift_pos_ok(ms: Seq<MonitorV>, searched: Seq<int>) -> bool {
    forall|k: int|
        0 <= k < ms.len() ==> {
            let lim = if searched.contains(k) {
                SHIFT_LIMIT as int + DIFF_BOUND as int
            } else {
                SHIFT_LIMIT as int
            };
            &&& -lim <= (#[trigger] ms[k]).position.0 <= lim
            &&& -lim <= ms[k].position.1 <= lim
        }
}

/// Whether the visited list holds `x`.
fn contains_idx(v: &Vec<usize>, x: usize) -> (r: bool)
    ensures
        r == idxs_view(v@).contains(x as int),
{
    let mut i: usize = 0;
    while i < v.len()
        invariant
            i <= v.len(),
            forall|q: int| 0 <= q < i ==> v@[q] != x,
        decreases v.len() - i,
    {
        if v[i] == x {
            proof {
                assert(idxs_view(v@)[i as int] == x as int);
            }
            return true;
        }
        i = i + 1;
    }
    proof {
        if idxs_view(v@).contains(x as int) {
            let q = choose|q: int| 0 <= q < idxs_view(v@).len() && idxs_view(v@)[q] == x as int;
            assert(v@[q] as int == x as int);
            assert(false);
        }
    }
    false
}

/// Translate the monitor at `current_idx` and, depth-first, every monitor
/// its links reach, by `difference` against the chosen axis — right and
/// down always, left only when moving vertically, up only when moving
/// horizontally, skipping whatever `searched_mons` already names. Returns
/// the extended visited list.
#[verifier::rlimit(100)]
#[verifier::spinoff_prover]
pub fn shift_mons(
    monitors: &mut Monitors,
    current_idx: usize,
    difference: i64,
    vertical: bool,
    searched_mons: Vec<usize>,
) -> (out: Vec<usize>)
    requires
        current_idx < old(monitors).len(),
        links_in_range(mons_view(*old(monitors))),
        in_range_idxs(idxs_view(searched_mons@), old(monitors).len() as int),
        shift_pos_ok(mons_view(*old(monitors)), idxs_view(searched_mons@)),
        -DIFF_BOUND <= difference <= DIFF_BOUND,
    ensures
        ({
            let st = shift_mons_full(
                mons_view(*old(monitors)),
                current_idx as int,
                difference as int,
                vertical,
                idxs_view(searched_mons@),
            );
            mons_view(*final(monitors)) == st.0 && idxs_view(out@) == st.1
        }),
        mons_view(*final(monitors)).len() == old(monitors).len(),
        links_in_range(mons_view(*final(monitors))),
        in_range_idxs(idxs_view(out@), old(monitors).len() as int),
        shift_pos_ok(mons_view(*final(monitors)), idxs_view(out@)),
        forall|x: int| idxs_view(searched_mons@).contains(x) ==> idxs_view(out@).contains(x),
    decreases
            old(monitors)@.len() - idxs_view(searched_mons@).to_set().len(),
            (if idxs_view(searched_mons@).contains(current_idx as int) {
                1int
            } else {
                0int
            }),
{
    let ghost ms0 = mons_view(*old(monitors));
    let ghost se0 = idxs_view(searched_mons@);
    let ghost n = ms0.len() as int;
    let ghost fuel: nat = (2 * ms0.len() + 2) as nat;
    let ghost idx_i = current_idx as int;
    proof {
        lemma_visited_bound(se0, n);
    }
    let mut searched = searched_mons;
    if !contains_idx(&searched, current_idx) {
        let px = monitors[current_idx].position.0;
        let py = monitors[current_idx].position.1;
        proof {
            assert(mons_view(*monitors)[idx_i] == ms0[idx_i]);
        }
        if vertical {
            set_position(monitors, current_idx, (px, py - difference));
        } else {
            set_position(monitors, current_idx, (px - difference, py));
        }
        proof {
            assert(mons_view(*monitors) =~= ms0.update(
                idx_i,
                shift_target(ms0[idx_i], difference as int, vertical),
            ));
        }
    }
    searched.push(current_idx);
    let ghost ms1 = mons_view(*monitors);
    let ghost se1 = idxs_view(searched@);
    proof {
        assert(se1 =~= se0.push(idx_i));
        assert(ms1 == (if !se0.contains(idx_i) {
            ms0.update(idx_i, shift_target(ms0[idx_i], difference as int, vertical))
        } else {
            ms0
        }));
        se0.lemma_push_to_set_commute(idx_i);
        axiom_set_insert_len(se0.to_set(), idx_i);
        assert forall|x: int| #[trigger] se1.contains(x) implies se0.contains(x) || x == idx_i by {
            let q = choose|q: int| 0 <= q < se1.len() && se1[q] == x;
            if q < se0.len() {
                assert(se0[q] == x);
            }
        }
        assert forall|x: int| se0.contains(x) implies se1.contains(x) by {
            let q = choose|q: int| 0 <= q < se0.len() && se0[q] == x;
            assert(se1[q] == x);
        }
        assert(se1.contains(idx_i)) by {
            assert(se1[se1.len() - 1] == idx_i);
        }
        assert(in_range_idxs(se1, n));
        lemma_visited_bound(se1, n);
        assert(links_in_range(ms1)) by {
            assert forall|k: int| 0 <= k < ms1.len() implies {
                &&& link_in_range(#[trigger] ms1[k].left, ms1.len() as int)
                &&& link_in_range(ms1[k].right, ms1.len() as int)
                &&& link_in_range(ms1[k].up, ms1.len() as int)
                &&& link_in_range(ms1[k].down, ms1.len() as int)
            } by {
                assert(ms1[k].left == ms0[k].left && ms1[k].right == ms0[k].right && ms1[k].up
                    == ms0[k].up && ms1[k].down == ms0[k].down);
            }
        }
        assert(shift_pos_ok(ms1, se1)) by {
            assert forall|k: int| 0 <= k < ms1.len() implies {
                let lim = if se1.contains(k) {
                    SHIFT_LIMIT as int + DIFF_BOUND as int
                } else {
                    SHIFT_LIMIT as int
                };
                &&& -lim <= (#[trigger] ms1[k]).position.0 <= lim
                &&& -lim <= ms1[k].position.1 <= lim
            } by {
                if k != idx_i || se0.contains(idx_i) {
                    assert(ms1[k] == ms0[k]);
                }
                if se0.contains(k) {
                    assert(se1.contains(k));
                }
            }
        }
    }
    let r_link = monitors[current_idx].right;
    if let Some(ri) = r_link {
        if !contains_idx(&searched, ri) {
            proof {
                assert(link_in_range(ms1[idx_i].right, n));
                lemma_visited_bound(se1, n);
            }
            searched = shift_mons(monitors, ri, difference, vertical, searched);
            proof {
                lemma_shift_fuel(
                    ms1,
                    ri as int,
                    difference as int,
                    vertical,
                    se1,
                    (2 * ms1.len() + 2) as nat,
                    (fuel - 1) as nat,
                );
            }
        }
    }
    let ghost ms2 = mons_view(*monitors);
    let ghost se2 = idxs_view(searched@);
    proof {
        let sr = ms1[idx_i].right;
        let take_r = sr is Some && 0 <= sr->Some_0 < ms1.len() && !se1.contains(sr->Some_0);
        assert((ms2, se2) == (if take_r {
            shift_mons_spec(ms1, sr->Some_0, difference as int, vertical, se1, (fuel - 1) as nat)
        } else {
            (ms1, se1)
        }));
        assert(links_in_range(ms2));
        assert(shift_pos_ok(ms2, se2));
        assert(in_range_idxs(se2, n));
        lemma_visited_bound(se2, n);
        assert(se2.to_set().len() >= se1.to_set().len()) by {
            assert(se1.to_set().subset_of(se2.to_set())) by {
                assert forall|x: int| se1.to_set().contains(x) implies se2.to_set().contains(x) by {
                    assert(se1.contains(x));
                }
            }
            lemma_len_subset(se1.to_set(), se2.to_set());
        }
    }
    let l_link = monitors[current_idx].left;
    if let Some(li) = l_link {
        if !contains_idx(&searched, li) && vertical {
            proof {
                assert(link_in_range(ms2[idx_i].left, n));
                lemma_visited_bound(se2, n);
            }
            searched = shift_mons(monitors, li, difference, vertical, searched);
            proof {
                lemma_shift_fuel(
                    ms2,
                    li as int,
                    difference as int,
                    vertical,
                    se2,
                    (2 * ms2.len() + 2) as nat,
                    (fuel - 1) as nat,
                );
            }
        }
    }
    let ghost ms3 = mons_view(*monitors);
    let ghost se3 = idxs_view(searched@);
    proof {
        let sl = ms2[idx_i].left;
        let take_l = (sl is Some && 0 <= sl->Some_0 < ms2.len() && !se2.contains(sl->Some_0))
            && vertical;
        assert((ms3, se3) == (if take_l {
            shift_mons_spec(ms2, sl->Some_0, difference as int, vertical, se2, (fuel - 1) as nat)
        } else {
            (ms2, se2)
        }));
        assert(links_in_range(ms3));
        assert(shift_pos_ok(ms3, se3));
        assert(in_range_idxs(se3, n));
        lemma_visited_bound(se3, n);
        assert(se3.to_set().len() >= se1.to_set().len()) by {
            assert(se2.to_set().subset_of(se3.to_set())) by {
                assert forall|x: int| se2.to_set().contains(x) implies se3.to_set().contains(x) by {
                    assert(se2.contains(x));
                }
            }
            lemma_len_subset(se2.to_set(), se3.to_set());
        }
    }
    let u_link = monitors[current_idx].up;
    if let Some(ui) = u_link {
        if !contains_idx(&searched, ui) && !vertical {
            proof {
                assert(link_in_range(ms3[idx_i].up, n));
                lemma_visited_bound(se3, n);
            }
            searched = shift_mons(monitors, ui, difference, vertical, searched);
            proof {
                lemma_shift_fuel(
                    ms3,
                    ui as int,
                    difference as int,
                    vertical,
                    se3,
                    (2 * ms3.len() + 2) as nat,
                    (fuel - 1) as nat,
                );
            }
        }
    }
    let ghost ms4 = mons_view(*monitors);
    let ghost se4 = idxs_view(searched@);
    proof {
        let su = ms3[idx_i].up;
        let take_u = (su is Some && 0 <= su->Some_0 < ms3.len() && !se3.contains(su->Some_0))
            && !vertical;
        assert((ms4, se4) == (if take_u {
            shift_mons_spec(ms3, su->Some_0, difference as int, vertical, se3, (fuel - 1) as nat)
        } else {
            (ms3, se3)
        }));
        assert(links_in_range(ms4));
        assert(shift_pos_ok(ms4, se4));
        assert(in_range_idxs(se4, n));
        lemma_visited_bound(se4, n);
        assert(se4.to_set().len() >= se1.to_set().len()) by {
            assert(se3.to_set().subset_of(se4.to_set())) by {
                assert forall|x: int| se3.to_set().contains(x) implies se4.to_set().contains(x) by {
                    assert(se3.contains(x));
                }
            }
            lemma_len_subset(se3.to_set(), se4.to_set());
        }
    }
    let d_link = monitors[current_idx].down;
    if let Some(di) = d_link {
        if !contains_idx(&searched, di) {
            proof {
                assert(ms4.len() == n);
                assert(links_in_range(ms4));
                assert(link_in_range(ms4[idx_i].left, n) && link_in_range(ms4[idx_i].down, n));
                lemma_visited_bound(se4, n);
            }
            searched = shift_mons(monitors, di, difference, vertical, searched);
            proof {
                lemma_shift_fuel(
                    ms4,
                    di as int,
                    difference as int,
                    vertical,
                    se4,
                    (2 * ms4.len() + 2) as nat,
                    (fuel - 1) as nat,
                );
            }
        }
    }
    proof {
        let sd = ms4[idx_i].down;
        let take_d = sd is Some && 0 <= sd->Some_0 < ms4.len() && !se4.contains(sd->Some_0);
        assert((mons_view(*monitors), idxs_view(searched@)) == (if take_d {
            shift_mons_spec(ms4, sd->Some_0, difference as int, vertical, se4, (fuel - 1) as nat)
        } else {
            (ms4, se4)
        }));
        assert((mons_view(*monitors), idxs_view(searched@)) == shift_mons_spec(
            ms0,
            idx_i,
            difference as int,
            vertical,
            se0,
            fuel,
        ));
        lemma_shift_shape(ms0, idx_i, difference as int, vertical, se0, fuel);
        let fin = mons_view(*monitors);
        let seo = idxs_view(searched@);
        assert(links_in_range(fin)) by {
            assert forall|k: int| 0 <= k < fin.len() implies {
                &&& link_in_range(#[trigger] fin[k].left, fin.len() as int)
                &&& link_in_range(fin[k].right, fin.len() as int)
                &&& link_in_range(fin[k].up, fin.len() as int)
                &&& link_in_range(fin[k].down, fin.len() as int)
            } by {
                assert(fin[k].left == ms0[k].left && fin[k].right == ms0[k].right && fin[k].up
                    == ms0[k].up && fin[k].down == ms0[k].down);
            }
        }
        assert(shift_pos_ok(fin, seo)) by {
            assert forall|k: int| 0 <= k < fin.len() implies {
                let lim = if seo.contains(k) {
                    SHIFT_LIMIT as int + DIFF_BOUND as int
                } else {
                    SHIFT_LIMIT as int
                };
                &&& -lim <= (#[trigger] fin[k]).position.0 <= lim
                &&& -lim <= fin[k].position.1 <= lim
            } by {
                if seo.contains(k) && !se0.contains(k) {
                    assert(fin[k] == shift_target(ms0[k], difference as int, vertical));
                } else {
                    assert(fin[k] == ms0[k]);
                    if se0.contains(k) {
                        assert(seo.contains(k));
                    }
                }
            }
        }
    }
    searched
}


// ---------------------------------------------------------------------------
// swap_monitors: exchange two adjacent monitors
// ---------------------------------------------------------------------------

/// The monitor with links blanked and position zeroed: what a pure
/// translation or link edit can never change.
pub open spec fn sans_links_pos(m: MonitorV) -> MonitorV {
    with_pos(with_links(m, None, None, None, None), (0, 0))
}

/// Positions after a walk stay within the old bound plus the translation,
/// and nothing but positions changes.
pub proof fn lemma_shift_pos_bound(
    ms: Seq<MonitorV>,
    idx: int,
    difference: int,
    vertical: bool,
    searched: Seq<int>,
    b: int,
)
    requires
        pos_bounded(ms, b),
        b >= 0,
    ensures
        pos_bounded(
            shift_mons_full(ms, idx, difference, vertical, searched).0,
            b + (if difference >= 0 {
                difference
            } else {
                -difference
            }),
        ),
        shift_mons_full(ms, idx, difference, vertical, searched).0.len() == ms.len(),
        forall|k: int|
            0 <= k < ms.len() ==> links_of(
                #[trigger] shift_mons_full(ms, idx, difference, vertical, searched).0[k],
            ) == links_of(ms[k]),
        forall|k: int|
            0 <= k < ms.len() ==> sans_links_pos(
                #[trigger] shift_mons_full(ms, idx, difference, vertical, searched).0[k],
            ) == sans_links_pos(ms[k]),
{
    let fuel = (2 * ms.len() + 2) as nat;
    lemma_shift_shape(ms, idx, difference, vertical, searched, fuel);
    let st = shift_mons_full(ms, idx, difference, vertical, searched);
    let d = if difference >= 0 {
        difference
    } else {
        -difference
    };
    assert forall|k: int| 0 <= k < st.0.len() implies {
        &&& -(b + d) <= (#[trigger] st.0[k]).position.0 <= b + d
        &&& -(b + d) <= st.0[k].position.1 <= b + d
    } by {
        assert(st.0[k] == ms[k] || st.0[k] == shift_target(ms[k], difference, vertical));
    }
    assert forall|k: int| 0 <= k < ms.len() implies links_of(#[trigger] st.0[k]) == links_of(
        ms[k],
    ) && sans_links_pos(st.0[k]) == sans_links_pos(ms[k]) by {
        assert(st.0[k] == ms[k] || st.0[k] == shift_target(ms[k], difference, vertical));
    }
}

pub(crate) fn swap_entries(monitors: &mut Monitors, a: usize, b: usize)
    requires
        a < old(monitors).len(),
        b < old(monitors).len(),
    ensures
        mons_view(*final(monitors)) == mons_view(*old(monitors)).update(
            a as int,
            mons_view(*old(monitors))[b as int],
        ).update(b as int, mons_view(*old(monitors))[a as int]),
{
    let ma = monitors[a].clone();
    let mb = monitors[b].clone();
    monitors.set(a, mb);
    monitors.set(b, ma);
    proof {
        assert(mons_view(*final(monitors)) =~= mons_view(*old(monitors)).update(
            a as int,
            mons_view(*old(monitors))[b as int],
        ).update(b as int, mons_view(*old(monitors))[a as int]));
    }
}

/// What `swap_monitors` leaves behind: the two monitors exchange canvas
/// positions along the axis of `direction` (their sizes accounted for),
/// the downstream cone is shifted to close any size mismatch, their links
/// and their places in the list are exchanged, and linked neighbors are
/// snapped back into place.
pub open spec fn swap_shifted_spec(
    ms: Seq<MonitorV>,
    cur: int,
    sw: int,
    direction: crate::Dir,
) -> Seq<MonitorV> {
    let t = ms[sw];
    match direction {
        crate::Dir::Right => {
            let diff = ms[sw].position.0 - (ms[cur].position.0 + t.displayed_resolution.0);
            let a = ms.update(sw, with_pos(ms[sw], ms[cur].position));
            let b = a.update(
                cur,
                with_pos(
                    a[cur],
                    (a[cur].position.0 + t.displayed_resolution.0, a[cur].position.1),
                ),
            );
            shift_mons_full(b, sw, diff, false, seq![sw]).0
        },
        crate::Dir::Left => {
            let diff = ms[cur].position.0 - (ms[sw].position.0 + ms[cur].displayed_resolution.0);
            let a = ms.update(
                sw,
                with_pos(
                    ms[sw],
                    (ms[sw].position.0 + ms[cur].displayed_resolution.0, ms[sw].position.1),
                ),
            );
            let b = a.update(cur, with_pos(a[cur], t.position));
            shift_mons_full(b, cur, diff, false, seq![cur]).0
        },
        crate::Dir::Down => {
            let diff = ms[cur].displayed_resolution.1 - ms[sw].displayed_resolution.1;
            let a = ms.update(sw, with_pos(ms[sw], ms[cur].position));
            let b = a.update(
                cur,
                with_pos(
                    a[cur],
                    (a[cur].position.0, a[cur].position.1 + t.displayed_resolution.1),
                ),
            );
            if diff != 0 && (b[cur].position.1 == 0 || b[sw].position.1 == 0) {
                shift_mons_full(b, sw, diff, true, seq![sw]).0
            } else {
                b
            }
        },
        crate::Dir::Up => {
            let diff = ms[sw].displayed_resolution.1 - ms[cur].displayed_resolution.1;
            let a = ms.update(
                sw,
                with_pos(
                    ms[sw],
                    (ms[sw].position.0, ms[sw].position.1 + ms[cur].displayed_resolution.1),
                ),
            );
            let b = a.update(cur, with_pos(a[cur], t.position));
            if diff != 0 && (b[cur].position.1 == 0 || b[sw].position.1 == 0) {
                shift_mons_full(b, cur, diff, true, seq![cur]).0
            } else {
                b
            }
        },
    }
}

pub open spec fn swap_monitors_spec(
    ms: Seq<MonitorV>,
    cur: int,
    sw: int,
    direction: crate::Dir,
) -> Seq<MonitorV> {
    let t = ms[sw];
    let shifted = swap_shifted_spec(ms, cur, sw, direction);
    let c = shifted.update(
        sw,
        with_links(
            shifted[sw],
            shifted[cur].left,
            shifted[cur].right,
            shifted[cur].up,
            shifted[cur].down,
        ),
    );
    let d = c.update(cur, with_links(c[cur], t.left, t.right, t.up, t.down));
    let e = d.update(sw, d[cur]).update(cur, d[sw]);
    update_neighbor_positions_spec(e)
}

/// Facts the link-exchange step needs of the shifted list.
pub open spec fn swap_shift_post(ms0: Seq<MonitorV>, shifted: Seq<MonitorV>) -> bool {
    &&& shifted.len() == ms0.len()
    &&& pos_bounded(shifted, 6 * GEOM_BOUND as int)
    &&& links_in_range(shifted)
    &&& disp_ok(shifted)
}

#[verifier::rlimit(100)]
#[verifier::spinoff_prover]
fn swap_shift_right(monitors: &mut Monitors, current_idx: usize, switch_idx: usize)
    requires
        current_idx < old(monitors).len(),
        switch_idx < old(monitors).len(),
        wf_mons(mons_view(*old(monitors))),
    ensures
        mons_view(*final(monitors)) == swap_shifted_spec(
            mons_view(*old(monitors)),
            current_idx as int,
            switch_idx as int,
            crate::Dir::Right,
        ),
        swap_shift_post(mons_view(*old(monitors)), mons_view(*final(monitors))),
{
    let ghost ms0 = mons_view(*old(monitors));
    let ghost cur = current_idx as int;
    let ghost sw = switch_idx as int;
    let ghost t = ms0[sw];
    let ghost bnd = GEOM_BOUND as int;
    let ghost a = ms0.update(sw, with_pos(ms0[sw], ms0[cur].position));
    let ghost b = a.update(
        cur,
        with_pos(a[cur], (a[cur].position.0 + t.displayed_resolution.0, a[cur].position.1)),
    );
    let tw = monitors[switch_idx].displayed_resolution.0;
    let difference = monitors[switch_idx].position.0 - (monitors[current_idx].position.0 + tw);
    let curpos = monitors[current_idx].position;
    set_position(monitors, switch_idx, curpos);
    proof {
        assert(mons_view(*monitors) =~= a);
        assert(monitors@.len() == ms0.len());
        assert(mons_view(*monitors)[cur] == a[cur]);
    }
    let cx = monitors[current_idx].position.0;
    let cy = monitors[current_idx].position.1;
    set_position(monitors, current_idx, (cx + tw, cy));
    proof {
        assert(mons_view(*monitors) =~= b);
        assert(monitors@.len() == ms0.len());
        assert(pos_bounded(b, 2 * bnd));
        assert(links_in_range(b));
        assert(shift_pos_ok(b, seq![sw]));
    }
    let mut seeds: Vec<usize> = Vec::new();
    seeds.push(switch_idx);
    proof {
        assert(idxs_view(seeds@) =~= seq![sw]);
        assert forall|x: int| #[trigger] seq![sw].contains(x) implies 0 <= x < b.len() as int by {
            let q = choose|q: int| 0 <= q < seq![sw].len() && seq![sw][q] == x;
        }
    }
    let _ = shift_mons(monitors, switch_idx, difference, false, seeds);
    proof {
        lemma_shift_pos_bound(b, sw, difference as int, false, seq![sw], 2 * bnd);
        assert(pos_bounded(mons_view(*monitors), 6 * bnd));
        assert(disp_ok(mons_view(*monitors))) by {
            assert forall|k: int| 0 <= k < mons_view(*monitors).len() implies disp_ok_mon(
                #[trigger] mons_view(*monitors)[k],
            ) by {
                assert(sans_links_pos(mons_view(*monitors)[k]) == sans_links_pos(b[k]));
            }
        }
    }
}

#[verifier::rlimit(100)]
#[verifier::spinoff_prover]
fn swap_shift_left(monitors: &mut Monitors, current_idx: usize, switch_idx: usize)
    requires
        current_idx < old(monitors).len(),
        switch_idx < old(monitors).len(),
        wf_mons(mons_view(*old(monitors))),
    ensures
        mons_view(*final(monitors)) == swap_shifted_spec(
            mons_view(*old(monitors)),
            current_idx as int,
            switch_idx as int,
            crate::Dir::Left,
        ),
        swap_shift_post(mons_view(*old(monitors)), mons_view(*final(monitors))),
{
    let ghost ms0 = mons_view(*old(monitors));
    let ghost cur = current_idx as int;
    let ghost sw = switch_idx as int;
    let ghost t = ms0[sw];
    let ghost bnd = GEOM_BOUND as int;
    let ghost a = ms0.update(
        sw,
        with_pos(ms0[sw], (ms0[sw].position.0 + ms0[cur].displayed_resolution.0, ms0[sw].position.1)),
    );
    let ghost b = a.update(cur, with_pos(a[cur], t.position));
    let temp_position = monitors[switch_idx].position;
    let cw = monitors[current_idx].displayed_resolution.0;
    let difference = monitors[current_idx].position.0 - (monitors[switch_idx].position.0 + cw);
    let sx = monitors[switch_idx].position.0;
    let sy = monitors[switch_idx].position.1;
    set_position(monitors, switch_idx, (sx + cw, sy));
    proof {
        assert(mons_view(*monitors) =~= a);
        assert(monitors@.len() == ms0.len());
    }
    set_position(monitors, current_idx, temp_position);
    proof {
        assert(mons_view(*monitors) =~= b);
        assert(monitors@.len() == ms0.len());
        assert(pos_bounded(b, 2 * bnd));
        assert(links_in_range(b));
        assert(shift_pos_ok(b, seq![cur]));
    }
    let mut seeds: Vec<usize> = Vec::new();
    seeds.push(current_idx);
    proof {
        assert(idxs_view(seeds@) =~= seq![cur]);
        assert forall|x: int| #[trigger] seq![cur].contains(x) implies 0 <= x < b.len() as int by {
            let q = choose|q: int| 0 <= q < seq![cur].len() && seq![cur][q] == x;
        }
    }
    let _ = shift_mons(monitors, current_idx, difference, false, seeds);
    proof {
        lemma_shift_pos_bound(b, cur, difference as int, false, seq![cur], 2 * bnd);
        assert(pos_bounded(mons_view(*monitors), 6 * bnd));
        assert(disp_ok(mons_view(*monitors))) by {
            assert forall|k: int| 0 <= k < mons_view(*monitors).len() implies disp_ok_mon(
                #[trigger] mons_view(*monitors)[k],
            ) by {
                assert(sans_links_pos(mons_view(*monitors)[k]) == sans_links_pos(b[k]));
            }
        }
    }
}

#[verifier::rlimit(100)]
#[verifier::spinoff_prover]
fn swap_shift_down(monitors: &mut Monitors, current_idx: usize, switch_idx: usize)
    requires
        current_idx < old(monitors).len(),
        switch_idx < old(monitors).len(),
        wf_mons(mons_view(*old(monitors))),
    ensures
        mons_view(*final(monitors)) == swap_shifted_spec(
            mons_view(*old(monitors)),
            current_idx as int,
            switch_idx as int,
            crate::Dir::Down,
        ),
        swap_shift_post(mons_view(*old(monitors)), mons_view(*final(monitors))),
{
    let ghost ms0 = mons_view(*old(monitors));
    let ghost cur = current_idx as int;
    let ghost sw = switch_idx as int;
    let ghost t = ms0[sw];
    let ghost bnd = GEOM_BOUND as int;
    let ghost a = ms0.update(sw, with_pos(ms0[sw], ms0[cur].position));
    let ghost b = a.update(
        cur,
        with_pos(a[cur], (a[cur].position.0, a[cur].position.1 + t.displayed_resolution.1)),
    );
    let difference = monitors[current_idx].displayed_resolution.1
        - monitors[switch_idx].displayed_resolution.1;
    let th = monitors[switch_idx].displayed_resolution.1;
    let curpos = monitors[current_idx].position;
    set_position(monitors, switch_idx, curpos);
    proof {
        assert(mons_view(*monitors) =~= a);
        assert(monitors@.len() == ms0.len());
        assert(mons_view(*monitors)[cur] == a[cur]);
    }
    let cx = monitors[current_idx].position.0;
    let cy = monitors[current_idx].position.1;
    set_position(monitors, current_idx, (cx, cy + th));
    proof {
        assert(mons_view(*monitors) =~= b);
        assert(monitors@.len() == ms0.len());
        assert(pos_bounded(b, 2 * bnd));
        assert(links_in_range(b));
        assert(shift_pos_ok(b, seq![sw]));
    }
    if difference != 0 && (monitors[current_idx].position.1 == 0
        || monitors[switch_idx].position.1 == 0) {
        let mut seeds: Vec<usize> = Vec::new();
        seeds.push(switch_idx);
        proof {
            assert(idxs_view(seeds@) =~= seq![sw]);
            assert forall|x: int| #[trigger] seq![sw].contains(x) implies 0 <= x
                < b.len() as int by {
                let q = choose|q: int| 0 <= q < seq![sw].len() && seq![sw][q] == x;
            }
        }
        let _ = shift_mons(monitors, switch_idx, difference, true, seeds);
        proof {
            lemma_shift_pos_bound(b, sw, difference as int, true, seq![sw], 2 * bnd);
            assert(pos_bounded(mons_view(*monitors), 6 * bnd));
            assert(disp_ok(mons_view(*monitors))) by {
                assert forall|k: int| 0 <= k < mons_view(*monitors).len() implies disp_ok_mon(
                    #[trigger] mons_view(*monitors)[k],
                ) by {
                    assert(sans_links_pos(mons_view(*monitors)[k]) == sans_links_pos(b[k]));
                }
            }
        }
    }
}

#[verifier::rlimit(100)]
#[verifier::spinoff_prover]
fn swap_shift_up(monitors: &mut Monitors, current_idx: usize, switch_idx: usize)
    requires
        current_idx < old(monitors).len(),
        switch_idx < old(monitors).len(),
        wf_mons(mons_view(*old(monitors))),
    ensures
        mons_view(*final(monitors)) == swap_shifted_spec(
            mons_view(*old(monitors)),
            current_idx as int,
            switch_idx as int,
            crate::Dir::Up,
        ),
        swap_shift_post(mons_view(*old(monitors)), mons_view(*final(monitors))),
{
    let ghost ms0 = mons_view(*old(monitors));
    let ghost cur = current_idx as int;
    let ghost sw = switch_idx as int;
    let ghost t = ms0[sw];
    let ghost bnd = GEOM_BOUND as int;
    let ghost a = ms0.update(
        sw,
        with_pos(ms0[sw], (ms0[sw].position.0, ms0[sw].position.1 + ms0[cur].displayed_resolution.1)),
    );
    let ghost b = a.update(cur, with_pos(a[cur], t.position));
    let temp_position = monitors[switch_idx].position;
    let difference = monitors[switch_idx].displayed_resolution.1
        - monitors[current_idx].displayed_resolution.1;
    let ch = monitors[current_idx].displayed_resolution.1;
    let sx = monitors[switch_idx].position.0;
    let sy = monitors[switch_idx].position.1;
    set_position(monitors, switch_idx, (sx, sy + ch));
    proof {
        assert(mons_view(*monitors) =~= a);
        assert(monitors@.len() == ms0.len());
    }
    set_position(monitors, current_idx, temp_position);
    proof {
        assert(mons_view(*monitors) =~= b);
        assert(monitors@.len() == ms0.len());
        assert(pos_bounded(b, 2 * bnd));
        assert(links_in_range(b));
        assert(shift_pos_ok(b, seq![cur]));
    }
    if difference != 0 && (monitors[current_idx].position.1 == 0
        || monitors[switch_idx].position.1 == 0) {
        let mut seeds: Vec<usize> = Vec::new();
        seeds.push(current_idx);
        proof {
            assert(idxs_view(seeds@) =~= seq![cur]);
            assert forall|x: int| #[trigger] seq![cur].contains(x) implies 0 <= x
                < b.len() as int by {
                let q = choose|q: int| 0 <= q < seq![cur].len() && seq![cur][q] == x;
            }
        }
        let _ = shift_mons(monitors, current_idx, difference, true, seeds);
        proof {
            lemma_shift_pos_bound(b, cur, difference as int, true, seq![cur], 2 * bnd);
            assert(pos_bounded(mons_view(*monitors), 6 * bnd));
            assert(disp_ok(mons_view(*monitors))) by {
                assert forall|k: int| 0 <= k < mons_view(*monitors).len() implies disp_ok_mon(
                    #[trigger] mons_view(*monitors)[k],
                ) by {
                    assert(sans_links_pos(mons_view(*monitors)[k]) == sans_links_pos(b[k]));
                }
            }
        }
    }
}

/// Exchange the monitors at `current_idx` and `switch_idx`, which the
/// caller has found adjacent in `direction`.
#[verifier::rlimit(100)]
#[verifier::spinoff_prover]
pub fn swap_monitors(
    monitors: &mut Monitors,
    current_idx: usize,
    switch_idx: usize,
    direction: crate::Dir,
)
    requires
        current_idx < old(monitors).len(),
        switch_idx < old(monitors).len(),
        wf_mons(mons_view(*old(monitors))),
    ensures
        mons_view(*final(monitors)) == swap_monitors_spec(
            mons_view(*old(monitors)),
            current_idx as int,
            switch_idx as int,
            direction,
        ),
{
    let ghost ms0 = mons_view(*old(monitors));
    let ghost cur = current_idx as int;
    let ghost sw = switch_idx as int;
    let ghost t = ms0[sw];
    let ghost bnd = GEOM_BOUND as int;
    let temp_left = monitors[switch_idx].left;
    let temp_right = monitors[switch_idx].right;
    let temp_up = monitors[switch_idx].up;
    let temp_down = monitors[switch_idx].down;
    match direction {
        crate::Dir::Right => swap_shift_right(monitors, current_idx, switch_idx),
        crate::Dir::Left => swap_shift_left(monitors, current_idx, switch_idx),
        crate::Dir::Down => swap_shift_down(monitors, current_idx, switch_idx),
        crate::Dir::Up => swap_shift_up(monitors, current_idx, switch_idx),
    }
    let ghost shifted = mons_view(*monitors);
    proof {
        assert(shifted == swap_shifted_spec(ms0, cur, sw, direction));
        assert(monitors@.len() == ms0.len());
    }
    let cl = monitors[current_idx].left;
    let cr = monitors[current_idx].right;
    let cu = monitors[current_idx].up;
    let cd = monitors[current_idx].down;
    set_links(monitors, switch_idx, cl, cr, cu, cd);
    proof {
        assert(mons_view(*monitors).len() == ms0.len());
        assert(monitors@.len() == ms0.len());
    }
    set_links(monitors, current_idx, temp_left, temp_right, temp_up, temp_down);
    proof {
        assert(mons_view(*monitors).len() == ms0.len());
        assert(monitors@.len() == ms0.len());
    }
    swap_entries(monitors, switch_idx, current_idx);
    let ghost e = mons_view(*monitors);
    proof {
        let c = shifted.update(
            sw,
            with_links(
                shifted[sw],
                shifted[cur].left,
                shifted[cur].right,
                shifted[cur].up,
                shifted[cur].down,
            ),
        );
        let d = c.update(cur, with_links(c[cur], t.left, t.right, t.up, t.down));
        assert(e =~= d.update(sw, d[cur]).update(cur, d[sw]));
        assert(links_in_range(e)) by {
            assert forall|k: int| 0 <= k < e.len() implies {
                &&& link_in_range(#[trigger] e[k].left, e.len() as int)
                &&& link_in_range(e[k].right, e.len() as int)
                &&& link_in_range(e[k].up, e.len() as int)
                &&& link_in_range(e[k].down, e.len() as int)
            } by {
                assert(link_in_range(shifted[cur].left, e.len() as int));
                assert(link_in_range(ms0[sw].left, e.len() as int));
                assert(link_in_range(shifted[k].left, e.len() as int));
            }
        }
        assert(disp_ok(e)) by {
            assert forall|k: int| 0 <= k < e.len() implies disp_ok_mon(#[trigger] e[k]) by {
                assert(disp_ok_mon(shifted[cur]) && disp_ok_mon(shifted[sw]) && disp_ok_mon(
                    shifted[k],
                ));
            }
        }
        assert(pos_bounded(e, SNAP_LIMIT as int)) by {
            assert forall|k: int| 0 <= k < e.len() implies {
                &&& -(SNAP_LIMIT as int) <= (#[trigger] e[k]).position.0 <= SNAP_LIMIT as int
                &&& -(SNAP_LIMIT as int) <= e[k].position.1 <= SNAP_LIMIT as int
            } by {
                assert(-(6 * bnd) <= shifted[cur].position.0 <= 6 * bnd);
                assert(-(6 * bnd) <= shifted[sw].position.0 <= 6 * bnd);
                assert(-(6 * bnd) <= shifted[k].position.0 <= 6 * bnd);
                assert(-(6 * bnd) <= shifted[cur].position.1 <= 6 * bnd);
                assert(-(6 * bnd) <= shifted[sw].position.1 <= 6 * bnd);
                assert(-(6 * bnd) <= shifted[k].position.1 <= 6 * bnd);
            }
        }
    }
    update_neighbor_positions(monitors);
}


// ---------------------------------------------------------------------------
// traverse_monitors: the L-shaped cursor move around a corner
// ---------------------------------------------------------------------------

/// Bounds and ranges every staged layout step keeps.
pub open spec fn stage_ok(ms: Seq<MonitorV>, b: int) -> bool {
    &&& ms.len() <= 0x10000
    &&& pos_bounded(ms, b)
    &&& links_in_range(ms)
    &&& disp_ok(ms)
}

/// What `traverse_monitors` does: when the monitor has no neighbor in
/// `direction` but an orthogonal neighbor whose own neighbor in
/// `direction` exists, re-parent the monitor onto that target and place it
/// against the target along the orthogonal axis. The flag says whether a
/// traversal happened.
pub open spec fn traverse_monitors_spec(ms: Seq<MonitorV>, sel: int, direction: crate::Dir) -> (
    Seq<MonitorV>,
    bool,
) {
    match direction {
        crate::Dir::Right | crate::Dir::Left => {
            if ms[sel].down is Some {
                let t = ms[sel].down->Some_0;
                let nb = if direction == crate::Dir::Right {
                    ms[t].right
                } else {
                    ms[t].left
                };
                if nb is Some {
                    let ni = nb->Some_0;
                    let a = ms.update(ni, MonitorV { up: Some(sel), ..ms[ni] });
                    let b = a.update(sel, MonitorV { down: Some(ni), ..a[sel] });
                    let c = b.update(sel, with_pos(b[sel], (b[ni].position.0, b[sel].position.1)));
                    let d = c.update(
                        sel,
                        with_pos(
                            c[sel],
                            (c[sel].position.0, c[ni].position.1 - c[sel].displayed_resolution.1),
                        ),
                    );
                    let e = d.update(t, MonitorV { up: None, ..d[t] });
                    (e, true)
                } else {
                    (ms, false)
                }
            } else if ms[sel].up is Some {
                let t = ms[sel].up->Some_0;
                let nb = if direction == crate::Dir::Right {
                    ms[t].right
                } else {
                    ms[t].left
                };
                if nb is Some {
                    let ni = nb->Some_0;
                    let a = ms.update(ni, MonitorV { down: Some(sel), ..ms[ni] });
                    let b = a.update(sel, MonitorV { up: Some(ni), ..a[sel] });
                    let c = b.update(sel, with_pos(b[sel], (b[ni].position.0, b[sel].position.1)));
                    let d = c.update(
                        sel,
                        with_pos(
                            c[sel],
                            (c[sel].position.0, c[ni].position.1 + c[ni].displayed_resolution.1),
                        ),
                    );
                    let e = d.update(t, MonitorV { down: None, ..d[t] });
                    (e, true)
                } else {
                    (ms, false)
                }
            } else {
                (ms, false)
            }
        },
        crate::Dir::Up | crate::Dir::Down => {
            if ms[sel].right is Some {
                let t = ms[sel].right->Some_0;
                let nb = if direction == crate::Dir::Up {
                    ms[t].up
                } else {
                    ms[t].down
                };
                if nb is Some {
                    let ni = nb->Some_0;
                    let a = ms.update(ni, MonitorV { left: Some(sel), ..ms[ni] });
                    let b = a.update(sel, MonitorV { right: Some(ni), ..a[sel] });
                    let c = b.update(
                        sel,
                        with_pos(
                            b[sel],
                            (b[ni].position.0 - b[sel].displayed_resolution.0, b[sel].position.1),
                        ),
                    );
                    let d = c.update(sel, with_pos(c[sel], (c[sel].position.0, c[ni].position.1)));
                    let e = d.update(t, MonitorV { left: None, ..d[t] });
                    (e, true)
                } else {
                    (ms, false)
                }
            } else if ms[sel].left is Some {
                let t = ms[sel].left->Some_0;
                let nb = if direction == crate::Dir::Up {
                    ms[t].up
                } else {
                    ms[t].down
                };
                if nb is Some {
                    let ni = nb->Some_0;
                    let a = ms.update(ni, MonitorV { right: Some(sel), ..ms[ni] });
                    let b = a.update(sel, MonitorV { left: Some(ni), ..a[sel] });
                    let c = b.update(
                        sel,
                        with_pos(
                            b[sel],
                            (b[ni].position.0 + b[ni].displayed_resolution.0, b[sel].position.1),
                        ),
                    );
                    let d = c.update(sel, with_pos(c[sel], (c[sel].position.0, c[ni].position.1)));
                    let e = d.update(t, MonitorV { right: None, ..d[t] });
                    (e, true)
                } else {
                    (ms, false)
                }
            } else {
                (ms, false)
            }
        },
    }
}

#[verifier::rlimit(100)]
#[verifier::spinoff_prover]
fn traverse_axis_x(monitors: &mut Monitors, selected_idx: usize, direction: crate::Dir) -> (traverse: bool)
    requires
        selected_idx < old(monitors).len(),
        wf_mons(mons_view(*old(monitors))),
        (direction == crate::Dir::Right || direction == crate::Dir::Left),
    ensures
        (mons_view(*final(monitors)), traverse) == traverse_monitors_spec(
            mons_view(*old(monitors)),
            selected_idx as int,
            direction,
        ),
        stage_ok(mons_view(*final(monitors)), 2 * GEOM_BOUND as int),
{
    let ghost ms0 = mons_view(*old(monitors));
    let ghost sel = selected_idx as int;
    proof {
        assert(link_in_range(ms0[sel].left, ms0.len() as int) && link_in_range(
            ms0[sel].right,
            ms0.len() as int,
        ) && link_in_range(ms0[sel].up, ms0.len() as int) && link_in_range(
            ms0[sel].down,
            ms0.len() as int,
        ));
    }
    let mut traverse: bool = false;
            if let Some(traverse_idx) = monitors[selected_idx].down {
                proof {
                    assert(link_in_range(ms0[traverse_idx as int].left, ms0.len() as int)
                        && link_in_range(ms0[traverse_idx as int].right, ms0.len() as int)
                        && link_in_range(ms0[traverse_idx as int].up, ms0.len() as int)
                        && link_in_range(ms0[traverse_idx as int].down, ms0.len() as int));
                }
                let neighbour: Option<usize> = if matches!(direction, crate::Dir::Right) {
                    monitors[traverse_idx].right
                } else {
                    monitors[traverse_idx].left
                };
                if let Some(neighbour_idx) = neighbour {
                    set_link(monitors, neighbour_idx, crate::Dir::Up, Some(selected_idx));
                    proof {
                        assert(mons_view(*monitors).len() == ms0.len());
                        assert(monitors@.len() == ms0.len());
                    }
                    set_link(monitors, selected_idx, crate::Dir::Down, Some(neighbour_idx));
                    proof {
                        assert(mons_view(*monitors).len() == ms0.len());
                        assert(monitors@.len() == ms0.len());
                    }
                    let nx = monitors[neighbour_idx].position.0;
                    let sy = monitors[selected_idx].position.1;
                    set_position(monitors, selected_idx, (nx, sy));
                    proof {
                        assert(mons_view(*monitors).len() == ms0.len());
                        assert(monitors@.len() == ms0.len());
                    }
                    let sx = monitors[selected_idx].position.0;
                    let ny = monitors[neighbour_idx].position.1;
                    let sh = monitors[selected_idx].displayed_resolution.1;
                    set_position(monitors, selected_idx, (sx, ny - sh));
                    proof {
                        assert(mons_view(*monitors).len() == ms0.len());
                        assert(monitors@.len() == ms0.len());
                    }
                    set_link(monitors, traverse_idx, crate::Dir::Up, None);
                    traverse = true;
                }
            } else if let Some(traverse_idx) = monitors[selected_idx].up {
                proof {
                    assert(link_in_range(ms0[traverse_idx as int].left, ms0.len() as int)
                        && link_in_range(ms0[traverse_idx as int].right, ms0.len() as int)
                        && link_in_range(ms0[traverse_idx as int].up, ms0.len() as int)
                        && link_in_range(ms0[traverse_idx as int].down, ms0.len() as int));
                }
                let neighbour: Option<usize> = if matches!(direction, crate::Dir::Right) {
                    monitors[traverse_idx].right
                } else {
                    monitors[traverse_idx].left
                };
                if let Some(neighbour_idx) = neighbour {
                    set_link(monitors, neighbour_idx, crate::Dir::Down, Some(selected_idx));
                    proof {
                        assert(mons_view(*monitors).len() == ms0.len());
                        assert(monitors@.len() == ms0.len());
                    }
                    set_link(monitors, selected_idx, crate::Dir::Up, Some(neighbour_idx));
                    proof {
                        assert(mons_view(*monitors).len() == ms0.len());
                        assert(monitors@.len() == ms0.len());
                    }
                    let nx = monitors[neighbour_idx].position.0;
                    let sy = monitors[selected_idx].position.1;
                    set_position(monitors, selected_idx, (nx, sy));
                    proof {
                        assert(mons_view(*monitors).len() == ms0.len());
                        assert(monitors@.len() == ms0.len());
                    }
                    let sx = monitors[selected_idx].position.0;
                    let ny = monitors[neighbour_idx].position.1;
                    let nh = monitors[neighbour_idx].displayed_resolution.1;
                    set_position(monitors, selected_idx, (sx, ny + nh));
                    proof {
                        assert(mons_view(*monitors).len() == ms0.len());
                        assert(monitors@.len() == ms0.len());
                    }
                    set_link(monitors, traverse_idx, crate::Dir::Down, None);
                    traverse = true;
                }
            }
    proof {
        assert((mons_view(*monitors), traverse) == traverse_monitors_spec(ms0, sel, direction));
        assert(stage_ok(mons_view(*monitors), 2 * GEOM_BOUND as int));
    }
    traverse
}

#[verifier::rlimit(100)]
#[verifier::spinoff_prover]
fn traverse_axis_y(monitors: &mut Monitors, selected_idx: usize, direction: crate::Dir) -> (traverse: bool)
    requires
        selected_idx < old(monitors).len(),
        wf_mons(mons_view(*old(monitors))),
        (direction == crate::Dir::Up || direction == crate::Dir::Down),
    ensures
        (mons_view(*final(monitors)), traverse) == traverse_monitors_spec(
            mons_view(*old(monitors)),
            selected_idx as int,
            direction,
        ),
        stage_ok(mons_view(*final(monitors)), 2 * GEOM_BOUND as int),
{
    let ghost ms0 = mons_view(*old(monitors));
    let ghost sel = selected_idx as int;
    proof {
        assert(link_in_range(ms0[sel].left, ms0.len() as int) && link_in_range(
            ms0[sel].right,
            ms0.len() as int,
        ) && link_in_range(ms0[sel].up, ms0.len() as int) && link_in_range(
            ms0[sel].down,
            ms0.len() as int,
        ));
    }
    let mut traverse: bool = false;
            if let Some(traverse_idx) = monitors[selected_idx].right {
                proof {
                    assert(link_in_range(ms0[traverse_idx as int].left, ms0.len() as int)
                        && link_in_range(ms0[traverse_idx as int].right, ms0.len() as int)
                        && link_in_range(ms0[traverse_idx as int].up, ms0.len() as int)
                        && link_in_range(ms0[traverse_idx as int].down, ms0.len() as int));
                }
                let neighbour: Option<usize> = if matches!(direction, crate::Dir::Up) {
                    monitors[traverse_idx].up
                } else {
                    monitors[traverse_idx].down
                };
                if let Some(neighbour_idx) = neighbour {
                    set_link(monitors, neighbour_idx, crate::Dir::Left, Some(selected_idx));
                    proof {
                        assert(mons_view(*monitors).len() == ms0.len());
                        assert(monitors@.len() == ms0.len());
                    }
                    set_link(monitors, selected_idx, crate::Dir::Right, Some(neighbour_idx));
                    proof {
                        assert(mons_view(*monitors).len() == ms0.len());
                        assert(monitors@.len() == ms0.len());
                    }
                    let nx = monitors[neighbour_idx].position.0;
                    let sw = monitors[selected_idx].displayed_resolution.0;
                    let sy = monitors[selected_idx].position.1;
                    set_position(monitors, selected_idx, (nx - sw, sy));
                    proof {
                        assert(mons_view(*monitors).len() == ms0.len());
                        assert(monitors@.len() == ms0.len());
                    }
                    let sx = monitors[selected_idx].position.0;
                    let ny = monitors[neighbour_idx].position.1;
                    set_position(monitors, selected_idx, (sx, ny));
                    proof {
                        assert(mons_view(*monitors).len() == ms0.len());
                        assert(monitors@.len() == ms0.len());
                    }
                    set_link(monitors, traverse_idx, crate::Dir::Left, None);
                    traverse = true;
                }
            } else if let Some(traverse_idx) = monitors[selected_idx].left {
                proof {
                    assert(link_in_range(ms0[traverse_idx as int].left, ms0.len() as int)
                        && link_in_range(ms0[traverse_idx as int].right, ms0.len() as int)
                        && link_in_range(ms0[traverse_idx as int].up, ms0.len() as int)
                        && link_in_range(ms0[traverse_idx as int].down, ms0.len() as int));
                }
                let neighbour: Option<usize> = if matches!(direction, crate::Dir::Up) {
                    monitors[traverse_idx].up
                } else {
                    monitors[traverse_idx].down
                };
                if let Some(neighbour_idx) = neighbour {
                    set_link(monitors, neighbour_idx, crate::Dir::Right, Some(selected_idx));
                    proof {
                        assert(mons_view(*monitors).len() == ms0.len());
                        assert(monitors@.len() == ms0.len());
                    }
                    set_link(monitors, selected_idx, crate::Dir::Left, Some(neighbour_idx));
                    proof {
                        assert(mons_view(*monitors).len() == ms0.len());
                        assert(monitors@.len() == ms0.len());
                    }
                    let nx = monitors[neighbour_idx].position.0;
                    let nw = monitors[neighbour_idx].displayed_resolution.0;
                    let sy = monitors[selected_idx].position.1;
                    set_position(monitors, selected_idx, (nx + nw, sy));
                    proof {
                        assert(mons_view(*monitors).len() == ms0.len());
                        assert(monitors@.len() == ms0.len());
                    }
                    let sx = monitors[selected_idx].position.0;
                    let ny = monitors[neighbour_idx].position.1;
                    set_position(monitors, selected_idx, (sx, ny));
                    proof {
                        assert(mons_view(*monitors).len() == ms0.len());
                        assert(monitors@.len() == ms0.len());
                    }
                    set_link(monitors, traverse_idx, crate::Dir::Right, None);
                    traverse = true;
                }
            }
    proof {
        assert((mons_view(*monitors), traverse) == traverse_monitors_spec(ms0, sel, direction));
        assert(stage_ok(mons_view(*monitors), 2 * GEOM_BOUND as int));
    }
    traverse
}

/// Attempt the diagonal traversal for the monitor at `selected_idx`.
/// Returns true when a traversal happened; otherwise nothing changes.
pub fn traverse_monitors(
    monitors: &mut Monitors,
    selected_idx: usize,
    direction: crate::Dir,
) -> (traverse: bool)
    requires
        selected_idx < old(monitors).len(),
        wf_mons(mons_view(*old(monitors))),
    ensures
        (mons_view(*final(monitors)), traverse) == traverse_monitors_spec(
            mons_view(*old(monitors)),
            selected_idx as int,
            direction,
        ),
        stage_ok(mons_view(*final(monitors)), 2 * GEOM_BOUND as int),
{
    match direction {
        crate::Dir::Right | crate::Dir::Left => traverse_axis_x(monitors, selected_idx, direction),
        crate::Dir::Up | crate::Dir::Down => traverse_axis_y(monitors, selected_idx, direction),
    }
}


// ---------------------------------------------------------------------------
// vert_push / horizontal_push: break the layout along one axis and
// restack the selected monitor against a pivot
// ---------------------------------------------------------------------------

/// Severing of the selected monitor's horizontal link toward `dir`, with
/// its dangling neighbors re-parented onto the pivot and shifted over.
pub open spec fn vp_detach_spec(ms: Seq<MonitorV>, pivot: int, sel: int, dir: crate::Dir) -> Seq<
    MonitorV,
> {
    if dir == crate::Dir::Left {
        let a = ms.update(sel, MonitorV { left: None, ..ms[sel] });
        let b = if a[sel].right is Some {
            let r = a[sel].right->Some_0;
            shift_mons_full(
                a,
                r,
                a[r].position.0 - a[sel].displayed_resolution.0,
                false,
                Seq::empty(),
            ).0
        } else {
            a
        };
        let c = b.update(pivot, MonitorV { right: b[sel].right, ..b[pivot] });
        c.update(sel, MonitorV { right: None, ..c[sel] })
    } else if dir == crate::Dir::Right {
        let a = ms.update(sel, MonitorV { right: None, ..ms[sel] });
        let b = if a[sel].left is Some {
            let l = a[sel].left->Some_0;
            shift_mons_full(
                a,
                l,
                a[l].position.0 - a[sel].displayed_resolution.0,
                false,
                Seq::empty(),
            ).0
        } else {
            a
        };
        let c = b.update(pivot, MonitorV { left: b[sel].left, ..b[pivot] });
        c.update(sel, MonitorV { left: None, ..c[sel] })
    } else {
        ms
    }
}

/// Shift the pivot's cone over to the selected monitor's column.
pub open spec fn vp_align_spec(ms: Seq<MonitorV>, pivot: int, sel: int) -> Seq<MonitorV> {
    if ms[pivot].position.0 > ms[sel].position.0 {
        shift_mons_full(
            ms,
            pivot,
            ms[pivot].position.0 - ms[sel].position.0,
            false,
            Seq::empty(),
        ).0
    } else {
        ms
    }
}

/// Stack the selected monitor directly above or below the pivot and wire
/// the vertical links between the two.
pub open spec fn vp_place_spec(ms: Seq<MonitorV>, pivot: int, sel: int, vert_dir: crate::Dir) -> Seq<
    MonitorV,
> {
    if vert_dir == crate::Dir::Down {
        let a = ms.update(
            sel,
            with_pos(
                ms[sel],
                (ms[pivot].position.0, ms[pivot].position.1 + ms[pivot].displayed_resolution.1),
            ),
        );
        let b = a.update(pivot, MonitorV { down: Some(sel), ..a[pivot] });
        b.update(sel, MonitorV { up: Some(pivot), ..b[sel] })
    } else if vert_dir == crate::Dir::Up {
        let s = if ms[pivot].position.1 - ms[pivot].displayed_resolution.1 < 0 {
            shift_mons_full(
                ms,
                pivot,
                ms[pivot].position.1 - ms[sel].displayed_resolution.1,
                true,
                Seq::empty(),
            ).0
        } else {
            ms
        };
        let a = s.update(
            sel,
            with_pos(
                s[sel],
                (s[pivot].position.0, s[pivot].position.1 - s[sel].displayed_resolution.1),
            ),
        );
        let b = a.update(pivot, (MonitorV { up: Some(sel), ..a[pivot] }));
        b.update(sel, (MonitorV { down: Some(pivot), ..b[sel] }))
    } else {
        ms
    }
}

/// What `vert_push` does: sever the selected monitor's horizontal link
/// toward `dir`, align the pivot's cone with its column, stack it against
/// the pivot per `vert_dir`, then stabilize — the snap walks the links
/// the push just rewired (putting the re-parented neighbors against the
/// pivot's edge) before proximity re-derives the links from the settled
/// positions.
pub open spec fn vert_push_spec(
    ms: Seq<MonitorV>,
    pivot: int,
    dir: crate::Dir,
    vert_dir: crate::Dir,
    sel: int,
) -> Seq<MonitorV> {
    update_neighbor_positions_spec(
        vp_place_spec(vp_align_spec(vp_detach_spec(ms, pivot, sel, dir), pivot, sel), pivot, sel, vert_dir),
    )
}

#[verifier::rlimit(100)]
#[verifier::spinoff_prover]
fn vp_detach(monitors: &mut Monitors, pivot_idx: usize, sel: usize, dir: crate::Dir)
    requires
        pivot_idx < old(monitors).len(),
        sel < old(monitors).len(),
        wf_mons(mons_view(*old(monitors))),
    ensures
        mons_view(*final(monitors)) == vp_detach_spec(
            mons_view(*old(monitors)),
            pivot_idx as int,
            sel as int,
            dir,
        ),
        mons_view(*final(monitors)).len() == old(monitors).len(),
        stage_ok(mons_view(*final(monitors)), 3 * GEOM_BOUND as int),
{
    let ghost ms0 = mons_view(*old(monitors));
    let ghost p = pivot_idx as int;
    let ghost si = sel as int;
    let ghost bnd = GEOM_BOUND as int;
    proof {
        assert(link_in_range(ms0[si].left, ms0.len() as int) && link_in_range(
            ms0[si].right,
            ms0.len() as int,
        ) && link_in_range(ms0[si].up, ms0.len() as int) && link_in_range(
            ms0[si].down,
            ms0.len() as int,
        ));
    }
    if matches!(dir, crate::Dir::Left) {
        set_link(monitors, sel, crate::Dir::Left, None);
        let ghost a = ms0.update(si, MonitorV { left: None, ..ms0[si] });
        proof {
            assert(mons_view(*monitors) =~= a);
            assert(monitors@.len() == ms0.len());
        }
        if monitors[sel].right.is_some() {
            let r = monitors[sel].right.unwrap();
            proof {
                assert(mons_view(*monitors)[si] == a[si]);
                assert(link_in_range(ms0[si].right, ms0.len() as int));
                assert(-(GEOM_BOUND as int) <= ms0[r as int].position.0 <= GEOM_BOUND as int);
                assert(a[r as int].position == ms0[r as int].position);
                assert(disp_ok_mon(ms0[si]));
            }
            let difference = monitors[r].position.0 - monitors[sel].displayed_resolution.0;
            let seeds: Vec<usize> = Vec::new();
            proof {
                assert(idxs_view(seeds@) =~= Seq::<int>::empty());
                assert(shift_pos_ok(a, Seq::<int>::empty()));
            }
            let _ = shift_mons(monitors, r, difference, false, seeds);
            proof {
                lemma_shift_pos_bound(a, r as int, difference as int, false, Seq::empty(), bnd);
                assert(monitors@.len() == ms0.len());
                assert(disp_ok(mons_view(*monitors))) by {
                    assert forall|k: int| 0 <= k < mons_view(*monitors).len() implies disp_ok_mon(
                        #[trigger] mons_view(*monitors)[k],
                    ) by {
                        assert(sans_links_pos(mons_view(*monitors)[k]) == sans_links_pos(a[k]));
                    }
                }
            }
        }
        let ghost b = mons_view(*monitors);
        let sr = monitors[sel].right;
        set_link(monitors, pivot_idx, crate::Dir::Right, sr);
        proof {
            assert(mons_view(*monitors).len() == ms0.len());
            assert(monitors@.len() == ms0.len());
        }
        set_link(monitors, sel, crate::Dir::Right, None);
        proof {
            assert(mons_view(*monitors) =~= vp_detach_spec(ms0, p, si, dir));
        }
    } else if matches!(dir, crate::Dir::Right) {
        set_link(monitors, sel, crate::Dir::Right, None);
        let ghost a = ms0.update(si, MonitorV { right: None, ..ms0[si] });
        proof {
            assert(mons_view(*monitors) =~= a);
            assert(monitors@.len() == ms0.len());
        }
        if monitors[sel].left.is_some() {
            let l = monitors[sel].left.unwrap();
            proof {
                assert(mons_view(*monitors)[si] == a[si]);
                assert(link_in_range(ms0[si].left, ms0.len() as int));
                assert(-(GEOM_BOUND as int) <= ms0[l as int].position.0 <= GEOM_BOUND as int);
                assert(a[l as int].position == ms0[l as int].position);
                assert(disp_ok_mon(ms0[si]));
            }
            let difference = monitors[l].position.0 - monitors[sel].displayed_resolution.0;
            let seeds: Vec<usize> = Vec::new();
            proof {
                assert(idxs_view(seeds@) =~= Seq::<int>::empty());
                assert(shift_pos_ok(a, Seq::<int>::empty()));
            }
            let _ = shift_mons(monitors, l, difference, false, seeds);
            proof {
                lemma_shift_pos_bound(a, l as int, difference as int, false, Seq::empty(), bnd);
                assert(monitors@.len() == ms0.len());
                assert(disp_ok(mons_view(*monitors))) by {
                    assert forall|k: int| 0 <= k < mons_view(*monitors).len() implies disp_ok_mon(
                        #[trigger] mons_view(*monitors)[k],
                    ) by {
                        assert(sans_links_pos(mons_view(*monitors)[k]) == sans_links_pos(a[k]));
                    }
                }
            }
        }
        let sl = monitors[sel].left;
        set_link(monitors, pivot_idx, crate::Dir::Left, sl);
        proof {
            assert(mons_view(*monitors).len() == ms0.len());
            assert(monitors@.len() == ms0.len());
        }
        set_link(monitors, sel, crate::Dir::Left, None);
        proof {
            assert(mons_view(*monitors) =~= vp_detach_spec(ms0, p, si, dir));
        }
    }
}

#[verifier::rlimit(100)]
#[verifier::spinoff_prover]
fn vp_align(monitors: &mut Monitors, pivot_idx: usize, sel: usize)
    requires
        pivot_idx < old(monitors).len(),
        sel < old(monitors).len(),
        stage_ok(mons_view(*old(monitors)), 3 * GEOM_BOUND as int),
    ensures
        mons_view(*final(monitors)) == vp_align_spec(
            mons_view(*old(monitors)),
            pivot_idx as int,
            sel as int,
        ),
        mons_view(*final(monitors)).len() == old(monitors).len(),
        stage_ok(mons_view(*final(monitors)), 9 * GEOM_BOUND as int),
{
    let ghost ms0 = mons_view(*old(monitors));
    let ghost bnd = GEOM_BOUND as int;
    proof {
        assert(-(3 * bnd) <= ms0[pivot_idx as int].position.0 <= 3 * bnd);
        assert(-(3 * bnd) <= ms0[sel as int].position.0 <= 3 * bnd);
    }
    if monitors[pivot_idx].position.0 > monitors[sel].position.0 {
        let difference = monitors[pivot_idx].position.0 - monitors[sel].position.0;
        let seeds: Vec<usize> = Vec::new();
        proof {
            assert(idxs_view(seeds@) =~= Seq::<int>::empty());
            assert(shift_pos_ok(ms0, Seq::<int>::empty()));
        }
        let _ = shift_mons(monitors, pivot_idx, difference, false, seeds);
        proof {
            lemma_shift_pos_bound(ms0, pivot_idx as int, difference as int, false, Seq::empty(), 3 * bnd);
            assert(disp_ok(mons_view(*monitors))) by {
                assert forall|k: int| 0 <= k < mons_view(*monitors).len() implies disp_ok_mon(
                    #[trigger] mons_view(*monitors)[k],
                ) by {
                    assert(sans_links_pos(mons_view(*monitors)[k]) == sans_links_pos(ms0[k]));
                }
            }
        }
    }
}

#[verifier::rlimit(100)]
#[verifier::spinoff_prover]
fn vp_place(monitors: &mut Monitors, pivot_idx: usize, sel: usize, vert_dir: crate::Dir)
    requires
        pivot_idx < old(monitors).len(),
        sel < old(monitors).len(),
        stage_ok(mons_view(*old(monitors)), 9 * GEOM_BOUND as int),
    ensures
        mons_view(*final(monitors)) == vp_place_spec(
            mons_view(*old(monitors)),
            pivot_idx as int,
            sel as int,
            vert_dir,
        ),
        mons_view(*final(monitors)).len() == old(monitors).len(),
        stage_ok(mons_view(*final(monitors)), 20 * GEOM_BOUND as int),
{
    let ghost ms0 = mons_view(*old(monitors));
    let ghost p = pivot_idx as int;
    let ghost si = sel as int;
    let ghost bnd = GEOM_BOUND as int;
    if matches!(vert_dir, crate::Dir::Down) {
        proof {
            assert(-(9 * bnd) <= ms0[p].position.1 <= 9 * bnd);
            assert(disp_ok_mon(ms0[p]));
        }
        let px = monitors[pivot_idx].position.0;
        let py = monitors[pivot_idx].position.1;
        let ph = monitors[pivot_idx].displayed_resolution.1;
        set_position(monitors, sel, (px, py + ph));
        proof {
            assert(mons_view(*monitors).len() == ms0.len());
            assert(monitors@.len() == ms0.len());
        }
        set_link(monitors, pivot_idx, crate::Dir::Down, Some(sel));
        proof {
            assert(mons_view(*monitors).len() == ms0.len());
            assert(monitors@.len() == ms0.len());
        }
        set_link(monitors, sel, crate::Dir::Up, Some(pivot_idx));
        proof {
            assert(mons_view(*monitors) =~= vp_place_spec(ms0, p, si, vert_dir));
        }
    } else if matches!(vert_dir, crate::Dir::Up) {
        proof {
            assert(-(9 * bnd) <= ms0[p].position.1 <= 9 * bnd);
            assert(disp_ok_mon(ms0[p]) && disp_ok_mon(ms0[si]));
        }
        let new_pos_1 = monitors[pivot_idx].position.1 - monitors[pivot_idx].displayed_resolution.1;
        if new_pos_1 < 0 {
            let difference = monitors[pivot_idx].position.1
                - monitors[sel].displayed_resolution.1;
            let seeds: Vec<usize> = Vec::new();
            proof {
                assert(idxs_view(seeds@) =~= Seq::<int>::empty());
                assert(shift_pos_ok(ms0, Seq::<int>::empty()));
            }
            let _ = shift_mons(monitors, pivot_idx, difference, true, seeds);
            proof {
                lemma_shift_pos_bound(ms0, p, difference as int, true, Seq::empty(), 9 * bnd);
                assert(monitors@.len() == ms0.len());
                assert(disp_ok(mons_view(*monitors))) by {
                    assert forall|k: int| 0 <= k < mons_view(*monitors).len() implies disp_ok_mon(
                        #[trigger] mons_view(*monitors)[k],
                    ) by {
                        assert(sans_links_pos(mons_view(*monitors)[k]) == sans_links_pos(ms0[k]));
                    }
                }
            }
        }
        let px = monitors[pivot_idx].position.0;
        let py = monitors[pivot_idx].position.1;
        let sh = monitors[sel].displayed_resolution.1;
        set_position(monitors, sel, (px, py - sh));
        proof {
            assert(mons_view(*monitors).len() == ms0.len());
            assert(monitors@.len() == ms0.len());
        }
        set_link(monitors, pivot_idx, crate::Dir::Up, Some(sel));
        proof {
            assert(mons_view(*monitors).len() == ms0.len());
            assert(monitors@.len() == ms0.len());
        }
        set_link(monitors, sel, crate::Dir::Down, Some(pivot_idx));
        proof {
            assert(mons_view(*monitors) =~= vp_place_spec(ms0, p, si, vert_dir));
        }
    }
}

/// Turn a horizontal stack into a vertical one: invoked when the user
/// moves the selected monitor up or down and it has no vertical neighbor.
/// `pivot_idx` is the orthogonal neighbor chosen by the caller; `dir` says
/// on which side the selected monitor hangs, `vert_dir` where it goes.
pub fn vert_push(
    monitors: &mut Monitors,
    pivot_idx: usize,
    dir: crate::Dir,
    vert_dir: crate::Dir,
    app: crate::App,
)
    requires
        pivot_idx < old(monitors).len(),
        app.selected_idx < old(monitors).len(),
        wf_mons(mons_view(*old(monitors))),
    ensures
        mons_view(*final(monitors)) == vert_push_spec(
            mons_view(*old(monitors)),
            pivot_idx as int,
            dir,
            vert_dir,
            app.selected_idx as int,
        ),
{
    let ghost ms0 = mons_view(*old(monitors));
    vp_detach(monitors, pivot_idx, app.selected_idx, dir);
    vp_align(monitors, pivot_idx, app.selected_idx);
    vp_place(monitors, pivot_idx, app.selected_idx, vert_dir);
    proof {
        assert(disp_ok(mons_view(*monitors))) by {
            assert forall|k: int| 0 <= k < mons_view(*monitors).len() implies disp_ok_mon(
                #[trigger] mons_view(*monitors)[k],
            ) by {
                let pre = vp_place_spec(
                    vp_align_spec(vp_detach_spec(ms0, pivot_idx as int, app.selected_idx as int, dir), pivot_idx as int, app.selected_idx as int),
                    pivot_idx as int,
                    app.selected_idx as int,
                    vert_dir,
                );
                assert(sans_links(mons_view(*monitors)[k]) == sans_links(pre[k]));
            }
        }
        assert(pos_bounded(mons_view(*monitors), SNAP_LIMIT as int)) by {
            assert forall|k: int| 0 <= k < mons_view(*monitors).len() implies {
                &&& -(SNAP_LIMIT as int) <= (#[trigger] mons_view(*monitors)[k]).position.0
                    <= SNAP_LIMIT as int
                &&& -(SNAP_LIMIT as int) <= mons_view(*monitors)[k].position.1 <= SNAP_LIMIT as int
            } by {
                let pre = vp_place_spec(
                    vp_align_spec(vp_detach_spec(ms0, pivot_idx as int, app.selected_idx as int, dir), pivot_idx as int, app.selected_idx as int),
                    pivot_idx as int,
                    app.selected_idx as int,
                    vert_dir,
                );
                assert(sans_links(mons_view(*monitors)[k]) == sans_links(pre[k]));
                assert(-(20 * GEOM_BOUND as int) <= pre[k].position.0 <= 20 * GEOM_BOUND as int);
            }
        }
    }
    update_neighbor_positions(monitors);
}

/// The severing step of `horizontal_push`: hand the selected monitor's
/// vertical link on the far side to the pivot.
pub open spec fn hp_detach_spec(ms: Seq<MonitorV>, pivot: int, sel: int, dir: crate::Dir) -> Seq<
    MonitorV,
> {
    if dir == crate::Dir::Up {
        let a = ms.update(pivot, MonitorV { down: ms[sel].down, ..ms[pivot] });
        a.update(sel, MonitorV { up: None, ..a[sel] })
    } else if dir == crate::Dir::Down {
        let a = ms.update(pivot, MonitorV { up: ms[sel].up, ..ms[pivot] });
        a.update(sel, MonitorV { down: None, ..a[sel] })
    } else {
        ms
    }
}

/// Shift the pivot's cone up to the selected monitor's row.
pub open spec fn hp_align_spec(ms: Seq<MonitorV>, pivot: int, sel: int) -> Seq<MonitorV> {
    if ms[pivot].position.1 > ms[sel].position.1 {
        let m = if ms[sel].position.1 < ms[pivot].position.1 {
            ms[sel].position.1
        } else {
            ms[pivot].position.1
        };
        shift_mons_full(ms, pivot, ms[pivot].position.1 - m, true, Seq::empty()).0
    } else {
        ms
    }
}

/// Put the selected monitor directly left or right of the pivot and wire
/// the horizontal links.
pub open spec fn hp_place_spec(ms: Seq<MonitorV>, pivot: int, sel: int, vert_dir: crate::Dir) -> Seq<
    MonitorV,
> {
    if vert_dir == crate::Dir::Right {
        let a = ms.update(
            sel,
            with_pos(
                ms[sel],
                (ms[pivot].position.0 + ms[pivot].displayed_resolution.0, ms[pivot].position.1),
            ),
        );
        let b = if a[sel].left is Some {
            let l = a[sel].left->Some_0;
            let b1 = a.update(pivot, MonitorV { left: Some(l), ..a[pivot] });
            b1.update(l, MonitorV { right: Some(pivot), ..b1[l] })
        } else {
            a
        };
        let c = b.update(pivot, MonitorV { right: Some(sel), ..b[pivot] });
        c.update(sel, MonitorV { left: Some(pivot), ..c[sel] })
    } else if vert_dir == crate::Dir::Left {
        let s = if ms[pivot].position.0 - ms[pivot].displayed_resolution.0 < 0 {
            shift_mons_full(
                ms,
                pivot,
                ms[pivot].position.0 - ms[sel].displayed_resolution.0,
                false,
                Seq::empty(),
            ).0
        } else {
            ms
        };
        let a = s.update(
            sel,
            with_pos(
                s[sel],
                (s[pivot].position.0 - s[sel].displayed_resolution.0, s[pivot].position.1),
            ),
        );
        let b = if a[sel].right is Some {
            let r = a[sel].right->Some_0;
            let b1 = a.update(pivot, MonitorV { right: a[sel].right, ..a[pivot] });
            b1.update(r, MonitorV { left: Some(pivot), ..b1[r] })
        } else {
            a
        };
        let c = b.update(pivot, MonitorV { left: Some(sel), ..b[pivot] });
        c.update(sel, MonitorV { right: Some(pivot), ..c[sel] })
    } else {
        ms
    }
}

/// What `horizontal_push` does: the mirror of `vert_push` across the
/// axes — sever the vertical link, align the pivot's cone, place the
/// selected monitor beside it, and snap neighbors.
pub open spec fn horizontal_push_spec(
    ms: Seq<MonitorV>,
    pivot: int,
    dir: crate::Dir,
    vert_dir: crate::Dir,
    sel: int,
) -> Seq<MonitorV> {
    update_neighbor_positions_spec(
        hp_place_spec(hp_align_spec(hp_detach_spec(ms, pivot, sel, dir), pivot, sel), pivot, sel, vert_dir),
    )
}

#[verifier::rlimit(100)]
#[verifier::spinoff_prover]
fn hp_detach(monitors: &mut Monitors, pivot_idx: usize, sel: usize, dir: crate::Dir)
    requires
        pivot_idx < old(monitors).len(),
        sel < old(monitors).len(),
        wf_mons(mons_view(*old(monitors))),
    ensures
        mons_view(*final(monitors)) == hp_detach_spec(
            mons_view(*old(monitors)),
            pivot_idx as int,
            sel as int,
            dir,
        ),
        mons_view(*final(monitors)).len() == old(monitors).len(),
        stage_ok(mons_view(*final(monitors)), GEOM_BOUND as int),
{
    let ghost ms0 = mons_view(*old(monitors));
    let ghost p = pivot_idx as int;
    let ghost si = sel as int;
    proof {
        assert(link_in_range(ms0[si].left, ms0.len() as int) && link_in_range(
            ms0[si].right,
            ms0.len() as int,
        ) && link_in_range(ms0[si].up, ms0.len() as int) && link_in_range(
            ms0[si].down,
            ms0.len() as int,
        ));
    }
    if matches!(dir, crate::Dir::Up) {
        let sd = monitors[sel].down;
        set_link(monitors, pivot_idx, crate::Dir::Down, sd);
        proof {
            assert(mons_view(*monitors).len() == ms0.len());
            assert(monitors@.len() == ms0.len());
        }
        set_link(monitors, sel, crate::Dir::Up, None);
        proof {
            assert(mons_view(*monitors) =~= hp_detach_spec(ms0, p, si, dir));
        }
    } else if matches!(dir, crate::Dir::Down) {
        let su = monitors[sel].up;
        set_link(monitors, pivot_idx, crate::Dir::Up, su);
        proof {
            assert(mons_view(*monitors).len() == ms0.len());
            assert(monitors@.len() == ms0.len());
        }
        set_link(monitors, sel, crate::Dir::Down, None);
        proof {
            assert(mons_view(*monitors) =~= hp_detach_spec(ms0, p, si, dir));
        }
    }
}

#[verifier::rlimit(100)]
#[verifier::spinoff_prover]
fn hp_align(monitors: &mut Monitors, pivot_idx: usize, sel: usize)
    requires
        pivot_idx < old(monitors).len(),
        sel < old(monitors).len(),
        stage_ok(mons_view(*old(monitors)), GEOM_BOUND as int),
    ensures
        mons_view(*final(monitors)) == hp_align_spec(
            mons_view(*old(monitors)),
            pivot_idx as int,
            sel as int,
        ),
        mons_view(*final(monitors)).len() == old(monitors).len(),
        stage_ok(mons_view(*final(monitors)), 3 * GEOM_BOUND as int),
{
    let ghost ms0 = mons_view(*old(monitors));
    let ghost bnd = GEOM_BOUND as int;
    proof {
        assert(-(bnd) <= ms0[pivot_idx as int].position.1 <= bnd);
        assert(-(bnd) <= ms0[sel as int].position.1 <= bnd);
    }
    if monitors[pivot_idx].position.1 > monitors[sel].position.1 {
        let sy = monitors[sel].position.1;
        let py = monitors[pivot_idx].position.1;
        let m = if sy < py {
            sy
        } else {
            py
        };
        let difference = py - m;
        let seeds: Vec<usize> = Vec::new();
        proof {
            assert(idxs_view(seeds@) =~= Seq::<int>::empty());
            assert(shift_pos_ok(ms0, Seq::<int>::empty()));
        }
        let _ = shift_mons(monitors, pivot_idx, difference, true, seeds);
        proof {
            lemma_shift_pos_bound(ms0, pivot_idx as int, difference as int, true, Seq::empty(), bnd);
            assert(disp_ok(mons_view(*monitors))) by {
                assert forall|k: int| 0 <= k < mons_view(*monitors).len() implies disp_ok_mon(
                    #[trigger] mons_view(*monitors)[k],
                ) by {
                    assert(sans_links_pos(mons_view(*monitors)[k]) == sans_links_pos(ms0[k]));
                }
            }
        }
    }
}

#[verifier::rlimit(100)]
#[verifier::spinoff_prover]
fn hp_place_right(monitors: &mut Monitors, pivot_idx: usize, sel: usize, vert_dir: crate::Dir)
    requires
        pivot_idx < old(monitors).len(),
        sel < old(monitors).len(),
        stage_ok(mons_view(*old(monitors)), 3 * GEOM_BOUND as int),
        vert_dir == crate::Dir::Right,
    ensures
        mons_view(*final(monitors)) == hp_place_spec(
            mons_view(*old(monitors)),
            pivot_idx as int,
            sel as int,
            vert_dir,
        ),
        mons_view(*final(monitors)).len() == old(monitors).len(),
        stage_ok(mons_view(*final(monitors)), 8 * GEOM_BOUND as int),
{
    let ghost ms0 = mons_view(*old(monitors));
    let ghost p = pivot_idx as int;
    let ghost si = sel as int;
    let ghost bnd = GEOM_BOUND as int;
    proof {
        assert(link_in_range(ms0[si].left, ms0.len() as int) && link_in_range(
            ms0[si].right,
            ms0.len() as int,
        ) && link_in_range(ms0[si].up, ms0.len() as int) && link_in_range(
            ms0[si].down,
            ms0.len() as int,
        ));
    }

        proof {
            assert(-(3 * bnd) <= ms0[p].position.0 <= 3 * bnd);
            assert(disp_ok_mon(ms0[p]));
        }
        let px = monitors[pivot_idx].position.0;
        let pw = monitors[pivot_idx].displayed_resolution.0;
        let py = monitors[pivot_idx].position.1;
        set_position(monitors, sel, (px + pw, py));
        proof {
            assert(mons_view(*monitors).len() == ms0.len());
            assert(monitors@.len() == ms0.len());
        }
        if let Some(left) = monitors[sel].left {
            set_link(monitors, pivot_idx, crate::Dir::Left, Some(left));
            proof {
                assert(mons_view(*monitors).len() == ms0.len());
                assert(monitors@.len() == ms0.len());
            }
            set_link(monitors, left, crate::Dir::Right, Some(pivot_idx));
            proof {
                assert(mons_view(*monitors).len() == ms0.len());
                assert(monitors@.len() == ms0.len());
            }
        }
        set_link(monitors, pivot_idx, crate::Dir::Right, Some(sel));
        proof {
            assert(mons_view(*monitors).len() == ms0.len());
            assert(monitors@.len() == ms0.len());
        }
        set_link(monitors, sel, crate::Dir::Left, Some(pivot_idx));
        proof {
            assert(mons_view(*monitors) =~= hp_place_spec(ms0, p, si, vert_dir));
        }
}

#[verifier::rlimit(100)]
#[verifier::spinoff_prover]
fn hp_shift_left(monitors: &mut Monitors, pivot_idx: usize, sel: usize)
    requires
        pivot_idx < old(monitors).len(),
        sel < old(monitors).len(),
        stage_ok(mons_view(*old(monitors)), 3 * GEOM_BOUND as int),
    ensures
        mons_view(*final(monitors)) == (if mons_view(*old(monitors))[pivot_idx as int].position.0
            - mons_view(*old(monitors))[pivot_idx as int].displayed_resolution.0 < 0 {
            shift_mons_full(
                mons_view(*old(monitors)),
                pivot_idx as int,
                mons_view(*old(monitors))[pivot_idx as int].position.0 - mons_view(
                    *old(monitors),
                )[sel as int].displayed_resolution.0,
                false,
                Seq::empty(),
            ).0
        } else {
            mons_view(*old(monitors))
        }),
        mons_view(*final(monitors)).len() == old(monitors).len(),
        stage_ok(mons_view(*final(monitors)), 7 * GEOM_BOUND as int),
        forall|k: int|
            0 <= k < old(monitors).len() ==> links_of(#[trigger] mons_view(*final(monitors))[k])
                == links_of(mons_view(*old(monitors))[k]),
        forall|k: int|
            0 <= k < old(monitors).len() ==> sans_links_pos(
                #[trigger] mons_view(*final(monitors))[k],
            ) == sans_links_pos(mons_view(*old(monitors))[k]),
{
    let ghost ms0 = mons_view(*old(monitors));
    let ghost p = pivot_idx as int;
    let ghost si = sel as int;
    let ghost bnd = GEOM_BOUND as int;
    proof {
        assert(-(3 * bnd) <= ms0[p].position.0 <= 3 * bnd);
        assert(disp_ok_mon(ms0[p]) && disp_ok_mon(ms0[si]));
    }
    let new_pos_1 = monitors[pivot_idx].position.0 - monitors[pivot_idx].displayed_resolution.0;
    if new_pos_1 < 0 {
        let difference = monitors[pivot_idx].position.0 - monitors[sel].displayed_resolution.0;
        let seeds: Vec<usize> = Vec::new();
        proof {
            assert(idxs_view(seeds@) =~= Seq::<int>::empty());
            assert(shift_pos_ok(ms0, Seq::<int>::empty()));
        }
        let _ = shift_mons(monitors, pivot_idx, difference, false, seeds);
        proof {
            lemma_shift_pos_bound(ms0, p, difference as int, false, Seq::empty(), 3 * bnd);
            assert(monitors@.len() == ms0.len());
            assert(disp_ok(mons_view(*monitors))) by {
                assert forall|k: int| 0 <= k < mons_view(*monitors).len() implies disp_ok_mon(
                    #[trigger] mons_view(*monitors)[k],
                ) by {
                    assert(sans_links_pos(mons_view(*monitors)[k]) == sans_links_pos(ms0[k]));
                }
            }
        }
    }
}

#[verifier::rlimit(100)]
#[verifier::spinoff_prover]
fn hp_place_left(monitors: &mut Monitors, pivot_idx: usize, sel: usize, vert_dir: crate::Dir)
    requires
        pivot_idx < old(monitors).len(),
        sel < old(monitors).len(),
        stage_ok(mons_view(*old(monitors)), 3 * GEOM_BOUND as int),
        vert_dir == crate::Dir::Left,
    ensures
        mons_view(*final(monitors)) == hp_place_spec(
            mons_view(*old(monitors)),
            pivot_idx as int,
            sel as int,
            vert_dir,
        ),
        mons_view(*final(monitors)).len() == old(monitors).len(),
        stage_ok(mons_view(*final(monitors)), 8 * GEOM_BOUND as int),
{
    let ghost ms0 = mons_view(*old(monitors));
    let ghost p = pivot_idx as int;
    let ghost si = sel as int;
    let ghost bnd = GEOM_BOUND as int;
    proof {
        assert(link_in_range(ms0[si].left, ms0.len() as int) && link_in_range(
            ms0[si].right,
            ms0.len() as int,
        ) && link_in_range(ms0[si].up, ms0.len() as int) && link_in_range(
            ms0[si].down,
            ms0.len() as int,
        ));
    }
    hp_shift_left(monitors, pivot_idx, sel);
    let ghost s = mons_view(*monitors);
    proof {
        assert(-(7 * bnd) <= s[p].position.0 <= 7 * bnd);
        assert(-(7 * bnd) <= s[p].position.1 <= 7 * bnd);
        assert(links_of(s[si]) == links_of(ms0[si]));
        assert(disp_ok_mon(ms0[si]));
        assert(sans_links_pos(s[si]) == sans_links_pos(ms0[si]));
    }
    let ghost a_spec = s.update(
        si,
        with_pos(s[si], (s[p].position.0 - s[si].displayed_resolution.0, s[p].position.1)),
    );
    let px = monitors[pivot_idx].position.0;
    let py = monitors[pivot_idx].position.1;
    let sw = monitors[sel].displayed_resolution.0;
    set_position(monitors, sel, (px - sw, py));
    proof {
        assert(mons_view(*monitors) =~= a_spec);
        assert(monitors@.len() == ms0.len());
        assert(links_of(a_spec[si]) == links_of(ms0[si]));
        assert(link_in_range(ms0[si].right, ms0.len() as int));
    }
    let right = monitors[sel].right;
    let ghost b_spec = (if a_spec[si].right is Some {
        let r = a_spec[si].right->Some_0;
        let b1 = a_spec.update(p, MonitorV { right: a_spec[si].right, ..a_spec[p] });
        b1.update(r, MonitorV { left: Some(p), ..b1[r] })
    } else {
        a_spec
    });
    if right.is_some() {
        let sr = monitors[sel].right;
        set_link(monitors, pivot_idx, crate::Dir::Right, sr);
        proof {
            assert(mons_view(*monitors).len() == ms0.len());
            assert(monitors@.len() == ms0.len());
        }
        set_link(monitors, right.unwrap(), crate::Dir::Left, Some(pivot_idx));
    }
    proof {
        assert(mons_view(*monitors) =~= b_spec);
        assert(monitors@.len() == ms0.len());
    }
    set_link(monitors, pivot_idx, crate::Dir::Left, Some(sel));
    proof {
        assert(mons_view(*monitors).len() == ms0.len());
        assert(monitors@.len() == ms0.len());
    }
    set_link(monitors, sel, crate::Dir::Right, Some(pivot_idx));
    proof {
        let c_spec = b_spec.update(p, MonitorV { left: Some(si), ..b_spec[p] });
        let d_spec = c_spec.update(si, MonitorV { right: Some(p), ..c_spec[si] });
        assert(mons_view(*monitors) =~= d_spec);
        assert(hp_place_spec(ms0, p, si, vert_dir) == d_spec);
        assert(stage_ok(mons_view(*monitors), 8 * bnd)) by {
            assert forall|k: int| 0 <= k < d_spec.len() implies {
                &&& -(8 * bnd) <= (#[trigger] d_spec[k]).position.0 <= 8 * bnd
                &&& -(8 * bnd) <= d_spec[k].position.1 <= 8 * bnd
                &&& disp_ok_mon(d_spec[k])
                &&& link_in_range(d_spec[k].left, d_spec.len() as int)
                &&& link_in_range(d_spec[k].right, d_spec.len() as int)
                &&& link_in_range(d_spec[k].up, d_spec.len() as int)
                &&& link_in_range(d_spec[k].down, d_spec.len() as int)
            } by {
                assert(-(7 * bnd) <= s[k].position.0 <= 7 * bnd);
                assert(-(7 * bnd) <= s[k].position.1 <= 7 * bnd);
                assert(disp_ok_mon(s[k]));
                assert(link_in_range(s[k].left, s.len() as int));
                assert(link_in_range(s[si].right, s.len() as int));
            }
        }
    }
}

#[verifier::rlimit(100)]
#[verifier::spinoff_prover]
fn hp_place(monitors: &mut Monitors, pivot_idx: usize, sel: usize, vert_dir: crate::Dir)
    requires
        pivot_idx < old(monitors).len(),
        sel < old(monitors).len(),
        stage_ok(mons_view(*old(monitors)), 3 * GEOM_BOUND as int),
    ensures
        mons_view(*final(monitors)) == hp_place_spec(
            mons_view(*old(monitors)),
            pivot_idx as int,
            sel as int,
            vert_dir,
        ),
        mons_view(*final(monitors)).len() == old(monitors).len(),
        stage_ok(mons_view(*final(monitors)), 8 * GEOM_BOUND as int),
{
    if matches!(vert_dir, crate::Dir::Right) {
        hp_place_right(monitors, pivot_idx, sel, vert_dir);
    } else if matches!(vert_dir, crate::Dir::Left) {
        hp_place_left(monitors, pivot_idx, sel, vert_dir);
    }
}

/// Turn a vertical stack into a horizontal one: invoked when the user
/// moves the selected monitor left or right and it has no horizontal
/// neighbor.
pub fn horizontal_push(
    monitors: &mut Monitors,
    pivot_idx: usize,
    dir: crate::Dir,
    vert_dir: crate::Dir,
    app: crate::App,
)
    requires
        pivot_idx < old(monitors).len(),
        app.selected_idx < old(monitors).len(),
        wf_mons(mons_view(*old(monitors))),
    ensures
        mons_view(*final(monitors)) == horizontal_push_spec(
            mons_view(*old(monitors)),
            pivot_idx as int,
            dir,
            vert_dir,
            app.selected_idx as int,
        ),
{
    let ghost ms0 = mons_view(*old(monitors));
    hp_detach(monitors, pivot_idx, app.selected_idx, dir);
    hp_align(monitors, pivot_idx, app.selected_idx);
    hp_place(monitors, pivot_idx, app.selected_idx, vert_dir);
    update_neighbor_positions(monitors);
}

} // verus!
