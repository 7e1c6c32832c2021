//! The interaction dispatcher: a key press and the current state pick a
//! layout operation, maintain the undo history of whole-model snapshots,
//! and drive the state machine between editing, swapping, the info menu
//! and the popups. Everything here is specified by `dispatch_spec`, the
//! spec-level mirror of `handle_key_press`.
//!
//! Reading the terminal, drawing, and invoking the external tool live
//! outside the library; the dispatcher only transforms plain data.

use vstd::prelude::*;

use crate::layout::{
    horizontal_push, horizontal_push_spec, link_get, monitor_proximity, monitor_proximity_spec,
    set_link, set_links, set_position, shift_mons, shift_mons_full, shift_res, shift_res_spec,
    stage_ok, swap_monitors, swap_monitors_spec, sans_links_pos, traverse_monitors,
    traverse_monitors_spec, update_neighbor_positions, update_neighbor_positions_spec, vert_push,
    vert_push_spec, with_pos, idxs_view,
};
use crate::monitor::{
    disp_ok, disp_ok_mon, find_mode, link_in_range, link_view, links_in_range, mode_resolutions,
    mons_view, rates_of, scaled_dim, wf_mons, Monitor, MonitorV, Monitors, GEOM_BOUND,
};
use crate::{
    menu_next, menu_prev, update_state_spec, App, Dir, FocusedWindow, MenuEntry, State,
};
use vstd::pervasive::VecAdditionalExecFns;

verus! {

/// A key press, as the dispatcher sees it. The embedding program maps
/// whatever its input backend reports onto this type; anything the
/// dispatcher does not react to arrives as `Other`.
#[derive(Debug, PartialEq, Eq, Structural, Clone, Copy)]
pub enum Key {
    Char(char),
    Enter,
    Esc,
    Left,
    Right,
    Up,
    Down,
    Other,
}

/// The undo history as mathematics.
pub open spec fn hist_view(states: Vec<Monitors>) -> Seq<Seq<MonitorV>> {
    states.deep_view()
}

/// One of the four states in which ordinary editing happens.
pub open spec fn is_main_state(s: State) -> bool {
    s == State::MonitorEdit || s == State::MonitorSwap || s == State::MenuSelect || s
        == State::InfoEdit
}

// ---------------------------------------------------------------------------
// Small helpers
// ---------------------------------------------------------------------------

/// The index of the neighbor of `idx` in `direction`, if any.
pub fn get_adjacent_monitor(monitors: &Monitors, idx: usize, direction: Dir) -> (r: Option<usize>)
    requires
        idx < monitors.len(),
    ensures
        link_view(r) == link_get(mons_view(*monitors)[idx as int], direction),
{
    match direction {
        Dir::Right => monitors[idx].right,
        Dir::Left => monitors[idx].left,
        Dir::Up => monitors[idx].up,
        Dir::Down => monitors[idx].down,
    }
}

pub(crate) fn set_selected(monitors: &mut Monitors, i: usize, v: bool)
    requires
        i < old(monitors).len(),
    ensures
        mons_view(*final(monitors)) == mons_view(*old(monitors)).update(
            i as int,
            (MonitorV { is_selected: v, ..mons_view(*old(monitors))[i as int] }),
        ),
{
    let mut m = monitors[i].clone();
    m.is_selected = v;
    monitors.set(i, m);
    proof {
        assert(mons_view(*final(monitors)) =~= mons_view(*old(monitors)).update(
            i as int,
            (MonitorV { is_selected: v, ..mons_view(*old(monitors))[i as int] }),
        ));
    }
}

pub(crate) fn set_primary_flag(monitors: &mut Monitors, i: usize, v: bool)
    requires
        i < old(monitors).len(),
    ensures
        mons_view(*final(monitors)) == mons_view(*old(monitors)).update(
            i as int,
            (MonitorV { is_primary: v, ..mons_view(*old(monitors))[i as int] }),
        ),
{
    let mut m = monitors[i].clone();
    m.is_primary = v;
    monitors.set(i, m);
    proof {
        assert(mons_view(*final(monitors)) =~= mons_view(*old(monitors)).update(
            i as int,
            (MonitorV { is_primary: v, ..mons_view(*old(monitors))[i as int] }),
        ));
    }
}

/// Push a full snapshot of the monitor list onto the undo history.
pub(crate) fn push_snapshot(app_states: &mut Vec<Monitors>, monitors: &Monitors)
    ensures
        hist_view(*final(app_states)) == hist_view(*old(app_states)).push(mons_view(*monitors)),
{
    let snap = monitors.clone();
    proof {
        assert forall|i: int| 0 <= i < monitors@.len() implies snap.deep_view()[i]
            == monitors.deep_view()[i] by {
            assert(cloned::<Monitor>(monitors@[i], snap@[i]));
        }
        assert(snap.deep_view() =~= monitors.deep_view());
    }
    app_states.push(snap);
    proof {
        assert(hist_view(*final(app_states)) =~= hist_view(*old(app_states)).push(
            mons_view(*monitors),
        ));
    }
}

// ---------------------------------------------------------------------------
// Pivot search
// ---------------------------------------------------------------------------

/// The horizontal neighbor (left first, then right) that has no neighbor
/// in `direction`, together with the side it sits on.
pub open spec fn find_horizontal_pivot_spec(ms: Seq<MonitorV>, idx: int, direction: Dir) -> Option<
    (int, Dir),
> {
    let l = ms[idx].left;
    let r = ms[idx].right;
    if l is Some && ((direction == Dir::Up && ms[l->Some_0].up is None) || (direction == Dir::Down
        && ms[l->Some_0].down is None)) {
        Some((l->Some_0, Dir::Left))
    } else if r is Some && ((direction == Dir::Up && ms[r->Some_0].up is None) || (direction
        == Dir::Down && ms[r->Some_0].down is None)) {
        Some((r->Some_0, Dir::Right))
    } else {
        None
    }
}

pub fn find_horizontal_pivot(monitors: &Monitors, idx: usize, direction: Dir) -> (r: Option<
    (usize, Dir),
>)
    requires
        idx < monitors.len(),
        links_in_range(mons_view(*monitors)),
    ensures
        ({
            let sp = find_horizontal_pivot_spec(mons_view(*monitors), idx as int, direction);
            match r {
                Some((p, d)) => sp == Some((p as int, d)),
                None => sp is None,
            }
        }),
{
    proof {
        assert(link_in_range(mons_view(*monitors)[idx as int].left, monitors@.len() as int));
    }
    if let Some(left) = monitors[idx].left {
        if matches!(direction, Dir::Up) && monitors[left].up.is_none() || matches!(
            direction,
            Dir::Down,
        ) && monitors[left].down.is_none() {
            return Some((left, Dir::Left));
        }
    }
    if let Some(right) = monitors[idx].right {
        if matches!(direction, Dir::Up) && monitors[right].up.is_none() || matches!(
            direction,
            Dir::Down,
        ) && monitors[right].down.is_none() {
            return Some((right, Dir::Right));
        }
    }
    None
}

/// The vertical neighbor (up first, then down) that has no neighbor in
/// `direction`, together with the side it sits on.
pub open spec fn find_vertical_pivot_spec(ms: Seq<MonitorV>, idx: int, direction: Dir) -> Option<
    (int, Dir),
> {
    let u = ms[idx].up;
    let d = ms[idx].down;
    if u is Some && ((direction == Dir::Left && ms[u->Some_0].left is None) || (direction
        == Dir::Right && ms[u->Some_0].right is None)) {
        Some((u->Some_0, Dir::Up))
    } else if d is Some && ((direction == Dir::Left && ms[d->Some_0].left is None) || (direction
        == Dir::Right && ms[d->Some_0].right is None)) {
        Some((d->Some_0, Dir::Down))
    } else {
        None
    }
}

pub fn find_vertical_pivot(monitors: &Monitors, idx: usize, direction: Dir) -> (r: Option<
    (usize, Dir),
>)
    requires
        idx < monitors.len(),
        links_in_range(mons_view(*monitors)),
    ensures
        ({
            let sp = find_vertical_pivot_spec(mons_view(*monitors), idx as int, direction);
            match r {
                Some((p, d)) => sp == Some((p as int, d)),
                None => sp is None,
            }
        }),
{
    proof {
        assert(link_in_range(mons_view(*monitors)[idx as int].left, monitors@.len() as int));
    }
    if let Some(up) = monitors[idx].up {
        if matches!(direction, Dir::Left) && monitors[up].left.is_none() || matches!(
            direction,
            Dir::Right,
        ) && monitors[up].right.is_none() {
            return Some((up, Dir::Up));
        }
    }
    if let Some(down) = monitors[idx].down {
        if matches!(direction, Dir::Left) && monitors[down].left.is_none() || matches!(
            direction,
            Dir::Right,
        ) && monitors[down].right.is_none() {
            return Some((down, Dir::Down));
        }
    }
    None
}

// ---------------------------------------------------------------------------
// Cursor movement and swapping
// ---------------------------------------------------------------------------

/// Cursor movement in `MonitorEdit`: follow the neighbor link and reset
/// the info-panel cursors.
pub open spec fn handle_monitor_edit_spec(ms: Seq<MonitorV>, app: App, direction: Dir) -> (
    Seq<MonitorV>,
    App,
) {
    match link_get(ms[app.selected_idx as int], direction) {
        Some(new_idx) => {
            let app1 = App { selected_idx: new_idx as usize, ..app };
            if app1.state == State::MonitorSwap {
                (
                    swap_monitors_spec(ms, app.current_idx as int, new_idx, direction),
                    App { current_idx: new_idx as usize, ..app1 },
                )
            } else {
                (ms, App { extra_entry: 0, menu_entry: MenuEntry::Position, ..app1 })
            }
        },
        None => (ms, app),
    }
}

pub fn handle_monitor_edit(app: &mut App, monitors: &mut Monitors, direction: Dir)
    requires
        old(app).selected_idx < old(monitors).len(),
        old(app).current_idx < old(monitors).len(),
        wf_mons(mons_view(*old(monitors))),
    ensures
        (mons_view(*final(monitors)), *final(app)) == handle_monitor_edit_spec(
            mons_view(*old(monitors)),
            *old(app),
            direction,
        ),
{
    if let Some(new_idx) = get_adjacent_monitor(monitors, app.selected_idx, direction) {
        proof {
            assert(link_in_range(
                link_get(mons_view(*monitors)[app.selected_idx as int], direction),
                monitors@.len() as int,
            ));
        }
        app.selected_idx = new_idx;
        if matches!(app.state, State::MonitorSwap) {
            swap_monitors(monitors, app.current_idx, new_idx, direction);
            app.current_idx = new_idx;
        } else {
            app.extra_entry = 0;
            app.menu_entry = MenuEntry::Position;
        }
    }
}

/// Movement in `MonitorSwap`: swap with the neighbor when there is one;
/// otherwise try the diagonal traversal; otherwise push the layout apart
/// around a pivot.
pub open spec fn handle_monitor_swap_spec(ms: Seq<MonitorV>, app: App, direction: Dir) -> (
    Seq<MonitorV>,
    App,
) {
    match link_get(ms[app.selected_idx as int], direction) {
        Some(new_idx) => {
            let app1 = App { selected_idx: new_idx as usize, extra_entry: 0, ..app };
            (
                swap_monitors_spec(ms, app.current_idx as int, new_idx, direction),
                App { current_idx: new_idx as usize, ..app1 },
            )
        },
        None => {
            let tr = traverse_monitors_spec(ms, app.selected_idx as int, direction);
            if tr.1 {
                (tr.0, app)
            } else {
                match direction {
                    Dir::Left | Dir::Right => {
                        match find_vertical_pivot_spec(ms, app.selected_idx as int, direction) {
                            Some((pm, vd)) => (
                                horizontal_push_spec(
                                    ms,
                                    pm,
                                    vd,
                                    direction,
                                    app.selected_idx as int,
                                ),
                                app,
                            ),
                            None => (ms, app),
                        }
                    },
                    Dir::Up | Dir::Down => {
                        match find_horizontal_pivot_spec(ms, app.selected_idx as int, direction) {
                            Some((pm, vd)) => (
                                vert_push_spec(ms, pm, vd, direction, app.selected_idx as int),
                                app,
                            ),
                            None => (ms, app),
                        }
                    },
                }
            }
        },
    }
}

pub fn handle_monitor_swap(app: &mut App, monitors: &mut Monitors, direction: Dir)
    requires
        old(app).selected_idx < old(monitors).len(),
        old(app).current_idx < old(monitors).len(),
        wf_mons(mons_view(*old(monitors))),
    ensures
        (mons_view(*final(monitors)), *final(app)) == handle_monitor_swap_spec(
            mons_view(*old(monitors)),
            *old(app),
            direction,
        ),
{
    let ghost ms0 = mons_view(*old(monitors));
    let mut swap = false;
    let mut traverse = false;
    if let Some(new_idx) = get_adjacent_monitor(monitors, app.selected_idx, direction) {
        proof {
            assert(link_in_range(
                link_get(ms0[app.selected_idx as int], direction),
                monitors@.len() as int,
            ));
        }
        app.selected_idx = new_idx;
        swap = true;
    } else {
        traverse = traverse_monitors(monitors, app.selected_idx, direction);
    }
    if swap {
        app.extra_entry = 0;
        swap_monitors(monitors, app.current_idx, app.selected_idx, direction);
        app.current_idx = app.selected_idx;
    } else if !traverse {
        match direction {
            Dir::Left | Dir::Right => {
                if let Some((pivot_monitor, vert_direction)) = find_vertical_pivot(
                    monitors,
                    app.selected_idx,
                    direction,
                ) {
                    horizontal_push(monitors, pivot_monitor, vert_direction, direction, *app);
                }
            },
            Dir::Up | Dir::Down => {
                if let Some((pivot_monitor, vert_direction)) = find_horizontal_pivot(
                    monitors,
                    app.selected_idx,
                    direction,
                ) {
                    vert_push(monitors, pivot_monitor, vert_direction, direction, *app);
                }
            },
        }
    }
}

// ---------------------------------------------------------------------------
// Scale, menu and option-list cursors
// ---------------------------------------------------------------------------

/// What the selected monitor needs for scale edits: positive scale and a
/// bounded, non-negative native resolution.
pub open spec fn scale_edit_ok(m: MonitorV) -> bool {
    &&& m.scale >= 1
    &&& 0 <= m.resolution.0 <= GEOM_BOUND
    &&& 0 <= m.resolution.1 <= GEOM_BOUND
}

/// One scale step. Growing is saturating near the top of the range;
/// shrinking stops at the smallest positive step so the scale stays
/// positive.
pub open spec fn scale_step_spec(scale: int, direction: Dir) -> int {
    if direction == Dir::Right {
        if scale <= 0xFFFF_FFFF - 5 {
            scale + 5
        } else {
            scale
        }
    } else {
        if scale > 5 {
            scale - 5
        } else {
            scale
        }
    }
}

/// The scale edit: step the scale of the selected monitor, move everything
/// past the footprint of the monitor at `current_idx` by the footprint
/// change, then recompute the selected footprint.
pub open spec fn handle_menu_scale_spec(ms: Seq<MonitorV>, app: App, direction: Dir) -> Seq<
    MonitorV,
> {
    let sel = app.selected_idx as int;
    let m0 = ms[sel];
    let s1 = ms.update(sel, (MonitorV { scale: scale_step_spec(m0.scale, direction), ..m0 }));
    let m1 = s1[sel];
    let diff = (
        scaled_dim(m1.resolution.0, m1.scale) - m1.displayed_resolution.0,
        scaled_dim(m1.resolution.1, m1.scale) - m1.displayed_resolution.1,
    );
    let s2 = shift_res_spec(s1, app.current_idx as int, diff);
    s2.update(
        sel,
        (MonitorV {
            displayed_resolution: (
                scaled_dim(s2[sel].resolution.0, s2[sel].scale),
                scaled_dim(s2[sel].resolution.1, s2[sel].scale),
            ),
            ..s2[sel]
        }),
    )
}

pub fn handle_menu_scale(app: &mut App, monitors: &mut Monitors, direction: Dir)
    requires
        old(app).selected_idx < old(monitors).len(),
        old(app).current_idx < old(monitors).len(),
        wf_mons(mons_view(*old(monitors))),
        scale_edit_ok(mons_view(*old(monitors))[old(app).selected_idx as int]),
    ensures
        mons_view(*final(monitors)) == handle_menu_scale_spec(
            mons_view(*old(monitors)),
            *old(app),
            direction,
        ),
        *final(app) == *old(app),
{
    let ghost ms0 = mons_view(*old(monitors));
    let ghost sel = app.selected_idx as int;
    let mut m = monitors[app.selected_idx].clone();
    m.scale = if matches!(direction, Dir::Right) {
        if m.scale <= 0xFFFF_FFFFu32 - 5 {
            m.scale + 5
        } else {
            m.scale
        }
    } else {
        if m.scale > 5 {
            m.scale - 5
        } else {
            m.scale
        }
    };
    let sel_idx = app.selected_idx;
    monitors.set(sel_idx, m);
    let ghost s1 = mons_view(*monitors);
    proof {
        assert(s1 =~= ms0.update(
            sel,
            (MonitorV { scale: scale_step_spec(ms0[sel].scale, direction), ..ms0[sel] }),
        ));
        assert(monitors@.len() == ms0.len());
        assert(disp_ok_mon(ms0[sel]));
        assert(scaled_dim(s1[sel].resolution.0, s1[sel].scale) <= 100 * GEOM_BOUND as int)
            by (nonlinear_arith)
            requires
                s1[sel].scale >= 1,
                0 <= s1[sel].resolution.0 <= GEOM_BOUND as int,
        ;
        assert(scaled_dim(s1[sel].resolution.0, s1[sel].scale) >= 0) by (nonlinear_arith)
            requires
                s1[sel].scale >= 1,
                0 <= s1[sel].resolution.0,
        ;
        assert(scaled_dim(s1[sel].resolution.1, s1[sel].scale) <= 100 * GEOM_BOUND as int)
            by (nonlinear_arith)
            requires
                s1[sel].scale >= 1,
                0 <= s1[sel].resolution.1 <= GEOM_BOUND as int,
        ;
        assert(scaled_dim(s1[sel].resolution.1, s1[sel].scale) >= 0) by (nonlinear_arith)
            requires
                s1[sel].scale >= 1,
                0 <= s1[sel].resolution.1,
        ;
    }
    let difference = monitors[app.selected_idx].get_res_difference();
    shift_res(monitors, app.current_idx, difference);
    let ghost s2 = mons_view(*monitors);
    proof {
        assert(s2.len() == s1.len());
        assert(mons_view(*monitors).len() == ms0.len());
        assert(monitors@.len() == ms0.len());
        assert(s2[sel].resolution == s1[sel].resolution && s2[sel].scale == s1[sel].scale);
    }
    let mut m2 = monitors[app.selected_idx].clone();
    let nw = ((m2.resolution.0 as u64 * 100) / (m2.scale as u64)) as i64;
    let nh = ((m2.resolution.1 as u64 * 100) / (m2.scale as u64)) as i64;
    m2.displayed_resolution = (nw, nh);
    monitors.set(sel_idx, m2);
    proof {
        assert(mons_view(*monitors) =~= s2.update(
            sel,
            (MonitorV {
                displayed_resolution: (
                    scaled_dim(s2[sel].resolution.0, s2[sel].scale),
                    scaled_dim(s2[sel].resolution.1, s2[sel].scale),
                ),
                ..s2[sel]
            }),
        ));
        assert(mons_view(*monitors) =~= handle_menu_scale_spec(ms0, *old(app), direction));
    }
}

/// The info-menu cursor: `j` moves down, `k` up, both saturating.
pub open spec fn handle_menu_select_spec(app: App, is_down: bool) -> App {
    App {
        menu_entry: if is_down {
            menu_next(app.menu_entry)
        } else {
            menu_prev(app.menu_entry)
        },
        extra_entry: 0,
        ..app
    }
}

/// Advance the info-panel cursor and reset the option-list cursor.
pub fn handle_menu_select(app: &mut App, is_down: bool)
    ensures
        *final(app) == handle_menu_select_spec(*old(app), is_down),
{
    app.menu_entry = if is_down {
        app.get_next_menu_item()
    } else {
        app.get_prev_menu_item()
    };
    app.extra_entry = 0;
}

/// The option list the `InfoEdit` cursor ranges over: the rate list of the
/// chosen resolution when editing the rate, the resolution list otherwise.
pub open spec fn info_edit_len(m: MonitorV, entry: MenuEntry) -> int {
    if entry == MenuEntry::Framerate {
        rates_of(m)->Some_0.len() as int
    } else {
        m.available_resolutions.len() as int
    }
}

pub open spec fn handle_info_edit_spec(m: MonitorV, app: App, is_down: bool) -> App {
    let max_length = info_edit_len(m, app.menu_entry) - 1;
    if is_down {
        if app.extra_entry < max_length {
            App { extra_entry: (app.extra_entry + 1) as usize, ..app }
        } else {
            app
        }
    } else {
        if app.extra_entry > 0 {
            App { extra_entry: (app.extra_entry - 1) as usize, ..app }
        } else {
            app
        }
    }
}

/// Move the option-list cursor, saturating at both ends.
pub fn handle_info_edit(app: &mut App, monitors: &Monitors, is_down: bool)
    requires
        old(app).selected_idx < monitors.len(),
        old(app).menu_entry == MenuEntry::Framerate ==> (rates_of(
            mons_view(*monitors)[old(app).selected_idx as int],
        ) is Some),
        info_edit_len(
            mons_view(*monitors)[old(app).selected_idx as int],
            old(app).menu_entry,
        ) >= 1,
    ensures
        *final(app) == handle_info_edit_spec(
            mons_view(*monitors)[old(app).selected_idx as int],
            *old(app),
            is_down,
        ),
{
    let max_length: usize = if matches!(app.menu_entry, MenuEntry::Framerate) {
        monitors[app.selected_idx].get_framerate_count() - 1
    } else {
        monitors[app.selected_idx].available_resolutions.len() - 1
    };
    if is_down {
        if app.extra_entry < max_length {
            app.extra_entry = app.extra_entry + 1;
        }
    } else if app.extra_entry > 0 {
        app.extra_entry = app.extra_entry - 1;
    }
}


// ---------------------------------------------------------------------------
// Connection popup: enable and disable outputs
// ---------------------------------------------------------------------------

/// The first enabled monitor at or after `i`.
pub open spec fn first_enabled_from(ms: Seq<MonitorV>, i: int) -> Option<int>
    decreases ms.len() - i,
{
    if i < 0 || i >= ms.len() {
        None
    } else if ms[i].is_enabled {
        Some(i)
    } else {
        first_enabled_from(ms, i + 1)
    }
}

fn find_first_enabled(monitors: &Monitors) -> (r: Option<usize>)
    ensures
        link_view(r) == first_enabled_from(mons_view(*monitors), 0),
{
    let mut i: usize = 0;
    while i < monitors.len()
        invariant
            i <= monitors.len(),
            first_enabled_from(mons_view(*monitors), i as int) == first_enabled_from(
                mons_view(*monitors),
                0,
            ),
        decreases monitors.len() - i,
    {
        if monitors[i].is_enabled {
            return Some(i);
        }
        i = i + 1;
    }
    None
}

fn exists_enabled_other(monitors: &Monitors, id: usize) -> (r: bool)
    ensures
        r == (exists|k: int|
            0 <= k < mons_view(*monitors).len() && k != id as int && (#[trigger] mons_view(
                *monitors,
            )[k]).is_enabled),
{
    let mut i: usize = 0;
    while i < monitors.len()
        invariant
            i <= monitors.len(),
            forall|k: int|
                0 <= k < i && k != id as int ==> !(#[trigger] mons_view(*monitors)[k]).is_enabled,
        decreases monitors.len() - i,
    {
        if i != id && monitors[i].is_enabled {
            proof {
                assert((mons_view(*monitors)[i as int]).is_enabled);
            }
            return true;
        }
        i = i + 1;
    }
    false
}

/// Where the walk along `right` links from `idx` ends, if it ends within
/// `fuel` steps.
pub open spec fn rightmost_from(ms: Seq<MonitorV>, idx: int, fuel: nat) -> Option<int>
    decreases fuel,
{
    if fuel == 0 {
        None
    } else {
        match ms[idx].right {
            None => Some(idx),
            Some(r) => if 0 <= r < ms.len() {
                rightmost_from(ms, r, (fuel - 1) as nat)
            } else {
                None
            },
        }
    }
}

/// Follow `right` links from `idx` to the last monitor of the row. The
/// caller owes that the chain ends (no cycle through `right` links).
pub fn find_rightmost_monitor(monitors: &Monitors, idx: usize) -> (r: usize)
    requires
        idx < monitors.len(),
        links_in_range(mons_view(*monitors)),
        (rightmost_from(
            mons_view(*monitors),
            idx as int,
            (mons_view(*monitors).len() + 1) as nat,
        ) is Some),
    ensures
        Some(r as int) == rightmost_from(
            mons_view(*monitors),
            idx as int,
            (mons_view(*monitors).len() + 1) as nat,
        ),
        r < monitors.len(),
{
    let ghost ms = mons_view(*monitors);
    let ghost n1 = (ms.len() + 1) as nat;
    let mut cur = idx;
    let ghost fuel: nat = n1;
    loop
        invariant
            cur < monitors.len(),
            ms == mons_view(*monitors),
            n1 == (ms.len() + 1) as nat,
            links_in_range(ms),
            fuel <= n1,
            rightmost_from(ms, cur as int, fuel) == rightmost_from(ms, idx as int, n1),
            (rightmost_from(ms, idx as int, n1) is Some),
        decreases fuel,
    {
        proof {
            assert(fuel > 0);
            assert(link_in_range(ms[cur as int].left, ms.len() as int) && link_in_range(
                ms[cur as int].right,
                ms.len() as int,
            ));
        }
        match monitors[cur].right {
            None => {
                return cur;
            },
            Some(r) => {
                cur = r;
                proof {
                    fuel = (fuel - 1) as nat;
                }
            },
        }
    }
}

/// The visible cursor in the connections popup, saturating at both ends.
pub open spec fn handle_connection_edit_spec(n: int, app: App, is_down: bool) -> App {
    if is_down && app.connected_monitor_id + 1 < n {
        App { connected_monitor_id: (app.connected_monitor_id + 1) as usize, ..app }
    } else if !is_down && app.connected_monitor_id > 0 {
        App { connected_monitor_id: (app.connected_monitor_id - 1) as usize, ..app }
    } else {
        app
    }
}

/// Move the connections-popup cursor, staying inside the list.
pub fn handle_connection_edit(app: &mut App, monitors: &Monitors, is_down: bool)
    requires
        old(app).connected_monitor_id < monitors.len(),
    ensures
        *final(app) == handle_connection_edit_spec(
            mons_view(*monitors).len() as int,
            *old(app),
            is_down,
        ),
{
    if is_down && app.connected_monitor_id + 1 < monitors.len() {
        app.connected_monitor_id = app.connected_monitor_id + 1;
    } else if !is_down && app.connected_monitor_id > 0 {
        app.connected_monitor_id = app.connected_monitor_id - 1;
    }
}

/// What a monitor needs before it can be (re)connected: at least one
/// mode, with bounded non-negative resolutions.
pub open spec fn modes_connect_ok(m: MonitorV) -> bool {
    &&& m.available_resolutions.len() >= 1
    &&& forall|k: int|
        0 <= k < m.available_resolutions.len() ==> {
            &&& 0 <= (#[trigger] m.available_resolutions[k]).resolution.0 <= GEOM_BOUND
            &&& 0 <= m.available_resolutions[k].resolution.1 <= GEOM_BOUND
        }
}

/// The disabling of the monitor under the popup cursor. `None` when the
/// action is refused because it would leave no enabled monitor.
pub open spec fn disconnect_spec(ms: Seq<MonitorV>, app: App) -> Option<(Seq<MonitorV>, App)> {
    let id = app.connected_monitor_id as int;
    if !(exists|k: int| 0 <= k < ms.len() && k != id && (#[trigger] ms[k]).is_enabled) {
        None
    } else {
        let s1 = ms.update(id, (MonitorV { is_enabled: false, ..ms[id] }));
        let app1 = if app.selected_idx as int == id || app.current_idx as int == id {
            let f = first_enabled_from(s1, 0)->Some_0;
            App { selected_idx: f as usize, current_idx: f as usize, ..app }
        } else {
            app
        };
        let s2 = if s1[id].right is Some {
            let r = s1[id].right->Some_0;
            let a = s1.update(r, (MonitorV { left: None, ..s1[r] }));
            shift_mons_full(a, r, a[r].position.0 - a[id].position.0, false, Seq::empty()).0
        } else if s1[id].down is Some {
            let d = s1[id].down->Some_0;
            let a = s1.update(d, (MonitorV { up: None, ..s1[d] }));
            shift_mons_full(a, d, a[d].position.1 - a[id].position.1, true, Seq::empty()).0
        } else {
            s1
        };
        let s3 = s2.update(id, with_pos(s2[id], (0, 0)));
        let s4 = s3.update(id, (MonitorV { resolution: (0, 0), ..s3[id] }));
        let s5 = if s4[id].right is Some {
            let r = s4[id].right->Some_0;
            s4.update(r, (MonitorV { left: None, ..s4[r] }))
        } else {
            s4
        };
        let s6 = if s5[id].left is Some {
            let l = s5[id].left->Some_0;
            s5.update(l, (MonitorV { right: None, ..s5[l] }))
        } else {
            s5
        };
        let s7 = if s6[id].down is Some {
            let d = s6[id].down->Some_0;
            s6.update(d, (MonitorV { up: None, ..s6[d] }))
        } else {
            s6
        };
        let s8 = if s7[id].up is Some {
            let u = s7[id].up->Some_0;
            s7.update(u, (MonitorV { down: None, ..s7[u] }))
        } else {
            s7
        };
        let s9 = s8.update(
            id,
            crate::layout::with_links(s8[id], None, None, None, None),
        );
        Some((update_neighbor_positions_spec(monitor_proximity_spec(s9)), app1))
    }
}

/// The connecting of the monitor under the popup cursor: enable it, hang
/// it immediately right of the rightmost monitor of the current row (its
/// displayed footprint wide), give it its widest mode at scale 1.
pub open spec fn connect_spec(ms: Seq<MonitorV>, app: App) -> Seq<MonitorV> {
    let id = app.connected_monitor_id as int;
    let s1 = ms.update(id, (MonitorV { is_enabled: true, ..ms[id] }));
    let rm = rightmost_from(s1, app.current_idx as int, (s1.len() + 1) as nat)->Some_0;
    let s2 = s1.update(
        id,
        with_pos(
            s1[id],
            (s1[rm].position.0 + s1[rm].displayed_resolution.0, s1[rm].position.1),
        ),
    );
    let newres = crate::monitor::sort_res_spec(mode_resolutions(s2[id].available_resolutions))[0];
    let s3 = s2.update(id, (MonitorV { resolution: newres, ..s2[id] }));
    let s4 = s3.update(id, (MonitorV { scale: 100, ..s3[id] }));
    let s5 = s4.update(
        id,
        (MonitorV {
            displayed_resolution: (
                scaled_dim(s4[id].resolution.0, s4[id].scale),
                scaled_dim(s4[id].resolution.1, s4[id].scale),
            ),
            ..s4[id]
        }),
    );
    monitor_proximity_spec(s5)
}

/// The whole toggle, history included: a snapshot is pushed exactly when
/// the toggle happens; a refused disable leaves everything untouched.
pub open spec fn connection_change_spec(ms: Seq<MonitorV>, app: App, hist: Seq<Seq<MonitorV>>) -> (
    Seq<MonitorV>,
    App,
    Seq<Seq<MonitorV>>,
) {
    let id = app.connected_monitor_id as int;
    if ms[id].is_enabled {
        match disconnect_spec(ms, app) {
            None => (ms, app, hist),
            Some((ms1, app1)) => (ms1, app1, hist.push(ms)),
        }
    } else {
        (connect_spec(ms, app), app, hist.push(ms))
    }
}

/// What the toggle requires of the model under the cursor.
pub open spec fn connection_change_req(ms: Seq<MonitorV>, app: App) -> bool {
    let id = app.connected_monitor_id as int;
    &&& app.connected_monitor_id < ms.len()
    &&& (!ms[id].is_enabled ==> modes_connect_ok(ms[id]))
    &&& (!ms[id].is_enabled ==> (rightmost_from(
        ms.update(id, (MonitorV { is_enabled: true, ..ms[id] })),
        app.current_idx as int,
        (ms.len() + 1) as nat,
    ) is Some))
}

#[verifier::rlimit(100)]
#[verifier::spinoff_prover]
/// The collapse step of a disconnect: sever the link back from the former
/// right (or else down) neighbor and shift that cone toward the origin.
#[verifier::rlimit(100)]
#[verifier::spinoff_prover]
fn disconnect_shift(monitors: &mut Monitors, id_x: usize)
    requires
        id_x < old(monitors).len(),
        stage_ok(mons_view(*old(monitors)), GEOM_BOUND as int),
    ensures
        mons_view(*final(monitors)) == ({
            let s1 = mons_view(*old(monitors));
            let id = id_x as int;
            if s1[id].right is Some {
                let r = s1[id].right->Some_0;
                let a = s1.update(r, (MonitorV { left: None, ..s1[r] }));
                shift_mons_full(a, r, a[r].position.0 - a[id].position.0, false, Seq::empty()).0
            } else if s1[id].down is Some {
                let d = s1[id].down->Some_0;
                let a = s1.update(d, (MonitorV { up: None, ..s1[d] }));
                shift_mons_full(a, d, a[d].position.1 - a[id].position.1, true, Seq::empty()).0
            } else {
                s1
            }
        }),
        mons_view(*final(monitors)).len() == old(monitors).len(),
        stage_ok(mons_view(*final(monitors)), 4 * GEOM_BOUND as int),
{
    let ghost s1 = mons_view(*old(monitors));
    let ghost id = id_x as int;
    let ghost ms0 = s1;
    let ghost bnd = GEOM_BOUND as int;
    proof {
        assert(link_in_range(s1[id].left, s1.len() as int) && link_in_range(
            s1[id].right,
            s1.len() as int,
        ) && link_in_range(s1[id].up, s1.len() as int) && link_in_range(
            s1[id].down,
            s1.len() as int,
        ));
    }
        if let Some(right_idx) = monitors[id_x].right {
            set_link(monitors, right_idx, Dir::Left, None);
            let ghost a = mons_view(*monitors);
            proof {
                assert(a =~= s1.update(right_idx as int, (MonitorV { left: None, ..s1[right_idx as int] })));
                assert(monitors@.len() == ms0.len());
                assert(shift_pos_ok_empty(a));
            }
            let difference = monitors[right_idx].position.0 - monitors[id_x].position.0;
            let seeds: Vec<usize> = Vec::new();
            proof {
                assert(idxs_view(seeds@) =~= Seq::<int>::empty());
            }
            let _ = shift_mons(monitors, right_idx, difference, false, seeds);
            proof {
                crate::layout::lemma_shift_pos_bound(
                    a,
                    right_idx as int,
                    difference as int,
                    false,
                    Seq::empty(),
                    bnd,
                );
                assert(monitors@.len() == ms0.len());
                assert(disp_ok(mons_view(*monitors))) by {
                    assert forall|k: int| 0 <= k < mons_view(*monitors).len() implies disp_ok_mon(
                        #[trigger] mons_view(*monitors)[k],
                    ) by {
                        assert(sans_links_pos(mons_view(*monitors)[k]) == sans_links_pos(a[k]));
                    }
                }
            }
        } else if let Some(down_idx) = monitors[id_x].down {
            set_link(monitors, down_idx, Dir::Up, None);
            let ghost a = mons_view(*monitors);
            proof {
                assert(a =~= s1.update(down_idx as int, (MonitorV { up: None, ..s1[down_idx as int] })));
                assert(monitors@.len() == ms0.len());
                assert(shift_pos_ok_empty(a));
            }
            let difference = monitors[down_idx].position.1 - monitors[id_x].position.1;
            let seeds: Vec<usize> = Vec::new();
            proof {
                assert(idxs_view(seeds@) =~= Seq::<int>::empty());
            }
            let _ = shift_mons(monitors, down_idx, difference, true, seeds);
            proof {
                crate::layout::lemma_shift_pos_bound(
                    a,
                    down_idx as int,
                    difference as int,
                    true,
                    Seq::empty(),
                    bnd,
                );
                assert(monitors@.len() == ms0.len());
                assert(disp_ok(mons_view(*monitors))) by {
                    assert forall|k: int| 0 <= k < mons_view(*monitors).len() implies disp_ok_mon(
                        #[trigger] mons_view(*monitors)[k],
                    ) by {
                        assert(sans_links_pos(mons_view(*monitors)[k]) == sans_links_pos(a[k]));
                    }
                }
            }
        }
}

/// The first half of the cleanup: zero the disconnected monitor's
/// position and native resolution, taking it out of the geometry.
#[verifier::rlimit(100)]
#[verifier::spinoff_prover]
fn disconnect_zero(monitors: &mut Monitors, id_x: usize)
    requires
        id_x < old(monitors).len(),
        stage_ok(mons_view(*old(monitors)), 4 * GEOM_BOUND as int),
    ensures
        mons_view(*final(monitors)) == ({
            let s2 = mons_view(*old(monitors));
            let id = id_x as int;
            let s3 = s2.update(id, with_pos(s2[id], (0, 0)));
            s3.update(id, (MonitorV { resolution: (0, 0), ..s3[id] }))
        }),
        mons_view(*final(monitors)).len() == old(monitors).len(),
        stage_ok(mons_view(*final(monitors)), 4 * GEOM_BOUND as int),
{
    let ghost ms0 = mons_view(*old(monitors));
    let ghost id = id_x as int;
    let ghost s2 = mons_view(*monitors);
    set_position(monitors, id_x, (0, 0));
    proof {
        assert(mons_view(*monitors).len() == ms0.len());
        assert(monitors@.len() == ms0.len());
    }
    let mut m2 = monitors[id_x].clone();
    m2.resolution = (0, 0);
    monitors.set(id_x, m2);
    proof {
        let s3 = s2.update(id, with_pos(s2[id], (0, 0)));
        let s4 = s3.update(id, (MonitorV { resolution: (0, 0), ..s3[id] }));
        assert(mons_view(*monitors) =~= s4);
        assert(stage_ok(mons_view(*monitors), 4 * GEOM_BOUND as int)) by {
            assert forall|k: int| 0 <= k < s4.len() implies {
                &&& -(4 * GEOM_BOUND as int) <= (#[trigger] s4[k]).position.0 <= 4
                    * GEOM_BOUND as int
                &&& -(4 * GEOM_BOUND as int) <= s4[k].position.1 <= 4 * GEOM_BOUND as int
                &&& disp_ok_mon(s4[k])
                &&& link_in_range(s4[k].left, s4.len() as int)
                &&& link_in_range(s4[k].right, s4.len() as int)
                &&& link_in_range(s4[k].up, s4.len() as int)
                &&& link_in_range(s4[k].down, s4.len() as int)
            } by {
                assert(-(4 * GEOM_BOUND as int) <= ms0[k].position.0 <= 4 * GEOM_BOUND as int);
                assert(disp_ok_mon(ms0[k]));
                assert(link_in_range(ms0[k].left, ms0.len() as int));
            }
        }
    }
}

/// The second half of the cleanup: purge every link that still points at
/// or from the disconnected monitor.
#[verifier::rlimit(100)]
#[verifier::spinoff_prover]
fn disconnect_unlink(monitors: &mut Monitors, id_x: usize)
    requires
        id_x < old(monitors).len(),
        stage_ok(mons_view(*old(monitors)), 4 * GEOM_BOUND as int),
    ensures
        mons_view(*final(monitors)) == ({
            let s4 = mons_view(*old(monitors));
            let id = id_x as int;
            let s5 = if s4[id].right is Some {
                let r = s4[id].right->Some_0;
                s4.update(r, (MonitorV { left: None, ..s4[r] }))
            } else {
                s4
            };
            let s6 = if s5[id].left is Some {
                let l = s5[id].left->Some_0;
                s5.update(l, (MonitorV { right: None, ..s5[l] }))
            } else {
                s5
            };
            let s7 = if s6[id].down is Some {
                let d = s6[id].down->Some_0;
                s6.update(d, (MonitorV { up: None, ..s6[d] }))
            } else {
                s6
            };
            let s8 = if s7[id].up is Some {
                let u = s7[id].up->Some_0;
                s7.update(u, (MonitorV { down: None, ..s7[u] }))
            } else {
                s7
            };
            s8.update(id, crate::layout::with_links(s8[id], None, None, None, None))
        }),
        mons_view(*final(monitors)).len() == old(monitors).len(),
        stage_ok(mons_view(*final(monitors)), 4 * GEOM_BOUND as int),
{
    let ghost ms0 = mons_view(*old(monitors));
    let ghost id = id_x as int;
    let ghost s4 = mons_view(*monitors);
    proof {
        assert(link_in_range(s4[id].left, s4.len() as int) && link_in_range(
            s4[id].right,
            s4.len() as int,
        ) && link_in_range(s4[id].up, s4.len() as int) && link_in_range(
            s4[id].down,
            s4.len() as int,
        ));
    }
    let ghost s5 = (if s4[id].right is Some {
        let r = s4[id].right->Some_0;
        s4.update(r, (MonitorV { left: None, ..s4[r] }))
    } else {
        s4
    });
    if let Some(idx) = monitors[id_x].right {
        set_link(monitors, idx, Dir::Left, None);
    }
    proof {
        assert(mons_view(*monitors) =~= s5);
        assert(monitors@.len() == ms0.len());
        assert(link_in_range(s5[id].left, s5.len() as int) && link_in_range(
            s5[id].right,
            s5.len() as int,
        ) && link_in_range(s5[id].up, s5.len() as int) && link_in_range(
            s5[id].down,
            s5.len() as int,
        ));
    }
    let ghost s6 = (if s5[id].left is Some {
        let l = s5[id].left->Some_0;
        s5.update(l, (MonitorV { right: None, ..s5[l] }))
    } else {
        s5
    });
    if let Some(idx) = monitors[id_x].left {
        set_link(monitors, idx, Dir::Right, None);
    }
    proof {
        assert(mons_view(*monitors) =~= s6);
        assert(monitors@.len() == ms0.len());
        assert(link_in_range(s6[id].left, s6.len() as int) && link_in_range(
            s6[id].right,
            s6.len() as int,
        ) && link_in_range(s6[id].up, s6.len() as int) && link_in_range(
            s6[id].down,
            s6.len() as int,
        ));
    }
    let ghost s7 = (if s6[id].down is Some {
        let d = s6[id].down->Some_0;
        s6.update(d, (MonitorV { up: None, ..s6[d] }))
    } else {
        s6
    });
    if let Some(idx) = monitors[id_x].down {
        set_link(monitors, idx, Dir::Up, None);
    }
    proof {
        assert(mons_view(*monitors) =~= s7);
        assert(monitors@.len() == ms0.len());
        assert(link_in_range(s7[id].left, s7.len() as int) && link_in_range(
            s7[id].right,
            s7.len() as int,
        ) && link_in_range(s7[id].up, s7.len() as int) && link_in_range(
            s7[id].down,
            s7.len() as int,
        ));
    }
    let ghost s8 = (if s7[id].up is Some {
        let u = s7[id].up->Some_0;
        s7.update(u, (MonitorV { down: None, ..s7[u] }))
    } else {
        s7
    });
    if let Some(idx) = monitors[id_x].up {
        set_link(monitors, idx, Dir::Down, None);
    }
    proof {
        assert(mons_view(*monitors) =~= s8);
        assert(monitors@.len() == ms0.len());
    }
    let ghost s9 = s8.update(id, crate::layout::with_links(s8[id], None, None, None, None));
    set_links(monitors, id_x, None, None, None, None);
    proof {
        assert(mons_view(*monitors) =~= s9);
        assert(monitors@.len() == ms0.len());
        assert(stage_ok(mons_view(*monitors), 4 * GEOM_BOUND as int)) by {
            assert forall|k: int| 0 <= k < s9.len() implies {
                &&& -(4 * GEOM_BOUND as int) <= (#[trigger] s9[k]).position.0 <= 4
                    * GEOM_BOUND as int
                &&& -(4 * GEOM_BOUND as int) <= s9[k].position.1 <= 4 * GEOM_BOUND as int
                &&& disp_ok_mon(s9[k])
                &&& link_in_range(s9[k].left, s9.len() as int)
                &&& link_in_range(s9[k].right, s9.len() as int)
                &&& link_in_range(s9[k].up, s9.len() as int)
                &&& link_in_range(s9[k].down, s9.len() as int)
            } by {
                assert(-(4 * GEOM_BOUND as int) <= ms0[k].position.0 <= 4 * GEOM_BOUND as int);
                assert(disp_ok_mon(ms0[k]));
                assert(link_in_range(ms0[k].left, ms0.len() as int));
            }
        }
    }
}

/// The cleanup of a disconnect: zero the monitor's position and native
/// resolution and purge every link that still points at or from it.
#[verifier::rlimit(100)]
#[verifier::spinoff_prover]
fn disconnect_purge(monitors: &mut Monitors, id_x: usize)
    requires
        id_x < old(monitors).len(),
        stage_ok(mons_view(*old(monitors)), 4 * GEOM_BOUND as int),
    ensures
        mons_view(*final(monitors)) == ({
            let s2 = mons_view(*old(monitors));
            let id = id_x as int;
            let s3 = s2.update(id, with_pos(s2[id], (0, 0)));
            let s4 = s3.update(id, (MonitorV { resolution: (0, 0), ..s3[id] }));
            let s5 = if s4[id].right is Some {
                let r = s4[id].right->Some_0;
                s4.update(r, (MonitorV { left: None, ..s4[r] }))
            } else {
                s4
            };
            let s6 = if s5[id].left is Some {
                let l = s5[id].left->Some_0;
                s5.update(l, (MonitorV { right: None, ..s5[l] }))
            } else {
                s5
            };
            let s7 = if s6[id].down is Some {
                let d = s6[id].down->Some_0;
                s6.update(d, (MonitorV { up: None, ..s6[d] }))
            } else {
                s6
            };
            let s8 = if s7[id].up is Some {
                let u = s7[id].up->Some_0;
                s7.update(u, (MonitorV { down: None, ..s7[u] }))
            } else {
                s7
            };
            s8.update(id, crate::layout::with_links(s8[id], None, None, None, None))
        }),
        mons_view(*final(monitors)).len() == old(monitors).len(),
        stage_ok(mons_view(*final(monitors)), 4 * GEOM_BOUND as int),
{
    disconnect_zero(monitors, id_x);
    disconnect_unlink(monitors, id_x);
}

fn do_disconnect(app: &mut App, monitors: &mut Monitors)
    requires
        old(app).selected_idx < old(monitors).len(),
        old(app).current_idx < old(monitors).len(),
        old(app).connected_monitor_id < old(monitors).len(),
        wf_mons(mons_view(*old(monitors))),
        mons_view(*old(monitors))[old(app).connected_monitor_id as int].is_enabled,
        (exists|k: int|
            0 <= k < mons_view(*old(monitors)).len() && k != old(app).connected_monitor_id as int
                && (#[trigger] mons_view(*old(monitors))[k]).is_enabled),
    ensures
        Some((mons_view(*final(monitors)), *final(app))) == disconnect_spec(
            mons_view(*old(monitors)),
            *old(app),
        ),
{
    let ghost ms0 = mons_view(*old(monitors));
    let ghost id = old(app).connected_monitor_id as int;
    let ghost bnd = GEOM_BOUND as int;
        let id_x = app.connected_monitor_id;
        let mut m = monitors[id_x].clone();
        m.is_enabled = false;
        monitors.set(id_x, m);
        let ghost s1 = mons_view(*monitors);
        proof {
            assert(s1 =~= ms0.update(id, (MonitorV { is_enabled: false, ..ms0[id] })));
            assert(monitors@.len() == ms0.len());
            assert(first_enabled_from(s1, 0) is Some) by {
                let k = choose|k: int|
                    0 <= k < ms0.len() && k != id && (#[trigger] ms0[k]).is_enabled;
                lemma_first_enabled_some(s1, 0, k);
            }
        }
        if app.selected_idx == id_x || app.current_idx == id_x {
            let f = find_first_enabled(monitors);
            let fi = f.unwrap();
            app.selected_idx = fi;
            app.current_idx = fi;
        }
        disconnect_shift(monitors, id_x);
        proof {
            assert(mons_view(*monitors).len() == ms0.len());
            assert(monitors@.len() == ms0.len());
        }
        disconnect_purge(monitors, id_x);
        proof {
            assert(mons_view(*monitors).len() == ms0.len());
            assert(monitors@.len() == ms0.len());
        }
        proof {
            let sp = disconnect_spec(ms0, *old(app));
            assert(sp is Some);
            assert(stage_ok(mons_view(*monitors), 4 * bnd));
        }
        monitor_proximity(monitors);
        update_neighbor_positions(monitors);
        proof {
            assert((mons_view(*monitors), *app) == disconnect_spec(ms0, *old(app))->Some_0);
        }
}

#[verifier::rlimit(100)]
#[verifier::spinoff_prover]
fn do_connect(app: &App, monitors: &mut Monitors)
    requires
        app.current_idx < old(monitors).len(),
        app.connected_monitor_id < old(monitors).len(),
        wf_mons(mons_view(*old(monitors))),
        !mons_view(*old(monitors))[app.connected_monitor_id as int].is_enabled,
        connection_change_req(mons_view(*old(monitors)), *app),
    ensures
        mons_view(*final(monitors)) == connect_spec(mons_view(*old(monitors)), *app),
{
    let ghost ms0 = mons_view(*old(monitors));
    let ghost id = app.connected_monitor_id as int;
    let ghost bnd = GEOM_BOUND as int;
        let id_x = app.connected_monitor_id;
        let mut m = monitors[id_x].clone();
        m.is_enabled = true;
        monitors.set(id_x, m);
        let ghost s1 = mons_view(*monitors);
        proof {
            assert(s1 =~= ms0.update(id, (MonitorV { is_enabled: true, ..ms0[id] })));
            assert(monitors@.len() == ms0.len());
        }
        let right_idx = find_rightmost_monitor(monitors, app.current_idx);
        proof {
            assert(s1[right_idx as int].position == ms0[right_idx as int].position);
            assert(-(bnd) <= ms0[right_idx as int].position.0 <= bnd);
            assert(-(bnd) <= ms0[right_idx as int].position.1 <= bnd);
            assert(disp_ok_mon(ms0[right_idx as int]));
            assert(s1[right_idx as int].displayed_resolution == ms0[
                right_idx as int].displayed_resolution);
        }
        let new_position = (
            monitors[right_idx].position.0 + monitors[right_idx].displayed_resolution.0,
            monitors[right_idx].position.1,
        );
        set_position(monitors, id_x, new_position);
        let ghost s2 = mons_view(*monitors);
        proof {
            assert(mons_view(*monitors).len() == ms0.len());
            assert(monitors@.len() == ms0.len());
            assert(s2[id].available_resolutions == ms0[id].available_resolutions);
        }
        let sorted = monitors[id_x].sort_resolutions();
        proof {
            let mapped = sorted@.map_values(|p: (i64, i64)| (p.0 as int, p.1 as int));
            let keys = mode_resolutions(s2[id].available_resolutions);
            assert(mapped.len() == keys.len());
            assert(mapped.len() >= 1);
            vstd::seq_lib::to_multiset_contains(mapped, mapped[0]);
            vstd::seq_lib::to_multiset_contains(keys, mapped[0]);
            assert(mapped.contains(mapped[0]));
            assert(keys.contains(mapped[0]));
            let kw = choose|kw: int| 0 <= kw < keys.len() && keys[kw] == mapped[0];
            assert(keys[kw] == s2[id].available_resolutions[kw].resolution);
            assert(0 <= mapped[0].0 <= GEOM_BOUND as int && 0 <= mapped[0].1 <= GEOM_BOUND as int);
            assert(mapped[0] == (sorted@[0].0 as int, sorted@[0].1 as int));
        }
        let new_res = sorted[0];
        let mut m2 = monitors[id_x].clone();
        m2.resolution = new_res;
        m2.scale = 100;
        let nw = ((m2.resolution.0 as u64 * 100) / (m2.scale as u64)) as i64;
        let nh = ((m2.resolution.1 as u64 * 100) / (m2.scale as u64)) as i64;
        m2.displayed_resolution = (nw, nh);
        monitors.set(id_x, m2);
        proof {
            let keys = crate::monitor::sort_res_spec(
                mode_resolutions(s2[id].available_resolutions),
            );
            assert((new_res.0 as int, new_res.1 as int) == keys[0]);
            let s3 = s2.update(id, (MonitorV { resolution: keys[0], ..s2[id] }));
            let s4 = s3.update(id, (MonitorV { scale: 100, ..s3[id] }));
            let s5 = s4.update(
                id,
                (MonitorV {
                    displayed_resolution: (
                        scaled_dim(s4[id].resolution.0, s4[id].scale),
                        scaled_dim(s4[id].resolution.1, s4[id].scale),
                    ),
                    ..s4[id]
                }),
            );
            assert(mons_view(*monitors) =~= s5);
            assert(monitors@.len() == ms0.len());
            assert(scaled_dim(s4[id].resolution.0, 100) == s4[id].resolution.0) by (nonlinear_arith)
                requires
                    s4[id].resolution.0 >= 0,
            ;
            assert(scaled_dim(s4[id].resolution.1, 100) == s4[id].resolution.1) by (nonlinear_arith)
                requires
                    s4[id].resolution.1 >= 0,
            ;
            assert(stage_ok(mons_view(*monitors), 2 * bnd));
        }
        monitor_proximity(monitors);
        proof {
            assert(mons_view(*monitors) == connect_spec(ms0, *app));
        }
}

/// Toggle the connection state of the monitor under the popup cursor.
/// Disabling the last enabled monitor is refused and changes nothing.
pub fn handle_monitor_connection_change(
    app: &mut App,
    monitors: &mut Monitors,
    app_states: &mut Vec<Monitors>,
)
    requires
        old(app).selected_idx < old(monitors).len(),
        old(app).current_idx < old(monitors).len(),
        wf_mons(mons_view(*old(monitors))),
        connection_change_req(mons_view(*old(monitors)), *old(app)),
    ensures
        (mons_view(*final(monitors)), *final(app), hist_view(*final(app_states)))
            == connection_change_spec(
            mons_view(*old(monitors)),
            *old(app),
            hist_view(*old(app_states)),
        ),
{
    if monitors[app.connected_monitor_id].is_enabled {
        if !exists_enabled_other(monitors, app.connected_monitor_id) {
            // refuse: this would leave zero enabled monitors
            return ;
        }
        push_snapshot(app_states, monitors);
        do_disconnect(app, monitors);
    } else {
        push_snapshot(app_states, monitors);
        do_connect(app, monitors);
    }
}

/// Positions bounded for a fresh walk (nothing visited yet).
pub open spec fn shift_pos_ok_empty(ms: Seq<MonitorV>) -> bool {
    crate::layout::shift_pos_ok(ms, Seq::empty())
}

/// A witness of an enabled monitor yields a first enabled monitor.
pub proof fn lemma_first_enabled_some(ms: Seq<MonitorV>, i: int, k: int)
    requires
        0 <= i <= k < ms.len(),
        ms[k].is_enabled,
    ensures
        first_enabled_from(ms, i) is Some,
    decreases k - i,
{
    if !ms[i].is_enabled {
        lemma_first_enabled_some(ms, i + 1, k);
    }
}


// ---------------------------------------------------------------------------
// Undo, primary, and the commits of the info panel
// ---------------------------------------------------------------------------

/// Undo without the state check: pop the last snapshot and restore it;
/// when that empties the history, re-push a copy so undo at the root is
/// idempotent.
pub open spec fn undo_core_spec(ms: Seq<MonitorV>, hist: Seq<Seq<MonitorV>>) -> (
    Seq<MonitorV>,
    Seq<Seq<MonitorV>>,
) {
    if hist.len() > 0 {
        let last = hist.last();
        let h1 = hist.drop_last();
        let h2 = if h1.len() == 0 {
            h1.push(last)
        } else {
            h1
        };
        (last, h2)
    } else {
        (ms, hist)
    }
}

fn apply_undo(monitors: &mut Monitors, app_states: &mut Vec<Monitors>)
    ensures
        (mons_view(*final(monitors)), hist_view(*final(app_states))) == undo_core_spec(
            mons_view(*old(monitors)),
            hist_view(*old(app_states)),
        ),
{
    let ghost h0 = hist_view(*old(app_states));
    if let Some(last_state) = app_states.pop() {
        proof {
            assert(last_state.deep_view() == h0.last());
            assert(hist_view(*app_states) =~= h0.drop_last());
        }
        *monitors = last_state;
        if app_states.len() == 0 {
            push_snapshot(app_states, monitors);
        }
    }
}

/// Every monitor's primary flag cleared, then set on the selected one.
pub open spec fn set_primary_only_spec(ms: Seq<MonitorV>, sel: int) -> Seq<MonitorV> {
    let cleared = ms.map(|k: int, m: MonitorV| (MonitorV { is_primary: false, ..m }));
    cleared.update(sel, (MonitorV { is_primary: true, ..cleared[sel] }))
}

fn set_primary_only(monitors: &mut Monitors, sel: usize)
    requires
        sel < old(monitors).len(),
    ensures
        mons_view(*final(monitors)) == set_primary_only_spec(mons_view(*old(monitors)), sel as int),
{
    let ghost ms0 = mons_view(*old(monitors));
    let ghost cleared = ms0.map(|k: int, m: MonitorV| (MonitorV { is_primary: false, ..m }));
    let mut i: usize = 0;
    while i < monitors.len()
        invariant
            i <= monitors.len(),
            monitors.len() == ms0.len(),
            cleared == ms0.map(|k: int, m: MonitorV| (MonitorV { is_primary: false, ..m })),
            forall|q: int| 0 <= q < i ==> mons_view(*monitors)[q] == cleared[q],
            forall|q: int| i <= q < ms0.len() ==> mons_view(*monitors)[q] == ms0[q],
        decreases monitors.len() - i,
    {
        set_primary_flag(monitors, i, false);
        proof {
            assert(mons_view(*monitors).len() == ms0.len());
            assert(monitors@.len() == ms0.len());
            assert(mons_view(*monitors)[i as int] == cleared[i as int]);
        }
        i = i + 1;
    }
    proof {
        assert(mons_view(*monitors) =~= cleared);
    }
    set_primary_flag(monitors, sel, true);
}

/// What the selected monitor must offer before a commit in the info
/// panel.
pub open spec fn modes_rates_ok(m: MonitorV) -> bool {
    forall|k: int|
        0 <= k < m.available_resolutions.len() ==> (#[trigger] m.available_resolutions[k])
            .framerates
            .len() >= 1
}

pub open spec fn info_commit_req(m: MonitorV, app: App) -> bool {
    &&& (app.menu_entry == MenuEntry::Resolution || app.menu_entry == MenuEntry::Framerate)
    &&& (app.menu_entry == MenuEntry::Resolution ==> modes_connect_ok(m) && modes_rates_ok(m)
        && (app.extra_entry as int) < m.available_resolutions.len())
    &&& (app.menu_entry == MenuEntry::Framerate ==> (rates_of(m) is Some) && (
    app.extra_entry as int) < rates_of(m)->Some_0.len())
}

/// The commit on Enter in `InfoEdit`: for a resolution, reflow the canvas
/// by the footprint change, adopt the chosen mode at scale 1 with its
/// first rate; for a rate, just adopt it. A snapshot is pushed first.
pub open spec fn info_commit_spec(ms: Seq<MonitorV>, app: App, hist: Seq<Seq<MonitorV>>) -> (
    Seq<MonitorV>,
    App,
    Seq<Seq<MonitorV>>,
) {
    let hist1 = hist.push(ms);
    let sel = app.selected_idx as int;
    if app.menu_entry == MenuEntry::Resolution {
        let old_res = ms[sel].displayed_resolution;
        let sorted = crate::monitor::sort_res_spec(
            mode_resolutions(ms[sel].available_resolutions),
        );
        let new_res = sorted[app.extra_entry as int];
        let diff = (new_res.0 - old_res.0, new_res.1 - old_res.1);
        let s1 = shift_res_spec(ms, app.current_idx as int, diff);
        let s2 = s1.update(sel, (MonitorV { resolution: new_res, ..s1[sel] }));
        let s3 = s2.update(sel, (MonitorV { displayed_resolution: new_res, ..s2[sel] }));
        let s4 = s3.update(sel, (MonitorV { framerate: rates_of(s3[sel])->Some_0[0], ..s3[sel] }));
        let s5 = s4.update(sel, (MonitorV { scale: 100, ..s4[sel] }));
        (s5, app, hist1)
    } else {
        let s1 = ms.update(
            sel,
            (MonitorV { framerate: rates_of(ms[sel])->Some_0[app.extra_entry as int], ..ms[sel] }),
        );
        (s1, app, hist1)
    }
}

#[verifier::rlimit(100)]
#[verifier::spinoff_prover]
fn handle_info_commit(app: &App, monitors: &mut Monitors, app_states: &mut Vec<Monitors>)
    requires
        app.selected_idx < old(monitors).len(),
        app.current_idx < old(monitors).len(),
        wf_mons(mons_view(*old(monitors))),
        info_commit_req(mons_view(*old(monitors))[app.selected_idx as int], *app),
    ensures
        (mons_view(*final(monitors)), *app, hist_view(*final(app_states))) == info_commit_spec(
            mons_view(*old(monitors)),
            *app,
            hist_view(*old(app_states)),
        ),
{
    let ghost ms0 = mons_view(*old(monitors));
    let ghost sel = app.selected_idx as int;
    push_snapshot(app_states, monitors);
    if matches!(app.menu_entry, MenuEntry::Resolution) {
        let old_res = monitors[app.selected_idx].displayed_resolution;
        let sorted = monitors[app.selected_idx].sort_resolutions();
        proof {
            let mapped = sorted@.map_values(|p: (i64, i64)| (p.0 as int, p.1 as int));
            let keys = mode_resolutions(ms0[sel].available_resolutions);
            assert(mapped.len() == keys.len());
            vstd::seq_lib::to_multiset_contains(mapped, mapped[app.extra_entry as int]);
            vstd::seq_lib::to_multiset_contains(keys, mapped[app.extra_entry as int]);
            assert(mapped.contains(mapped[app.extra_entry as int]));
            assert(keys.contains(mapped[app.extra_entry as int]));
            let kw = choose|kw: int|
                0 <= kw < keys.len() && keys[kw] == mapped[app.extra_entry as int];
            assert(keys[kw] == ms0[sel].available_resolutions[kw].resolution);
            assert(0 <= mapped[app.extra_entry as int].0 <= GEOM_BOUND as int);
            assert(0 <= mapped[app.extra_entry as int].1 <= GEOM_BOUND as int);
            assert(mapped[app.extra_entry as int] == (
                sorted@[app.extra_entry as int].0 as int,
                sorted@[app.extra_entry as int].1 as int,
            ));
            assert(disp_ok_mon(ms0[sel]));
        }
        let new_res = sorted[app.extra_entry];
        let difference = (new_res.0 - old_res.0, new_res.1 - old_res.1);
        shift_res(monitors, app.current_idx, difference);
        let ghost s1 = mons_view(*monitors);
        proof {
            assert(s1.len() == ms0.len());
            assert(mons_view(*monitors).len() == ms0.len());
            assert(monitors@.len() == ms0.len());
        }
        let mut m = monitors[app.selected_idx].clone();
        m.resolution = new_res;
        m.displayed_resolution = new_res;
        let sel_x = app.selected_idx;
        monitors.set(sel_x, m);
        let ghost s3 = mons_view(*monitors);
        proof {
            let new_res_v = (new_res.0 as int, new_res.1 as int);
            let s2g = s1.update(sel, (MonitorV { resolution: new_res_v, ..s1[sel] }));
            assert(s3 =~= s2g.update(sel, (MonitorV { displayed_resolution: new_res_v, ..s2g[sel] })));
            assert(monitors@.len() == ms0.len());
            // the chosen resolution is one of the modes, so it has rates
            assert(s3[sel].available_resolutions == ms0[sel].available_resolutions);
            crate::monitor::lemma_find_mode_some(s3[sel].available_resolutions, new_res_v);
            assert(rates_of(s3[sel]) is Some);
            let j = choose|j: int|
                0 <= j < s3[sel].available_resolutions.len() && (
                #[trigger] s3[sel].available_resolutions[j]) == find_mode(
                    s3[sel].available_resolutions,
                    new_res_v,
                )->Some_0;
            assert(s3[sel].available_resolutions[j].framerates.len() >= 1);
        }
        let sel_x2 = app.selected_idx;
        let mut m2 = monitors[sel_x2].clone();
        m2.set_framerate(0);
        m2.scale = 100;
        monitors.set(sel_x2, m2);
        proof {
            let sp = info_commit_spec(ms0, *app, hist_view(*old(app_states)));
            assert(mons_view(*monitors) =~= sp.0);
        }
    } else {
        let sel_x = app.selected_idx;
        let mut m = monitors[sel_x].clone();
        m.set_framerate(app.extra_entry);
        monitors.set(sel_x, m);
        proof {
            let sp = info_commit_spec(ms0, *app, hist_view(*old(app_states)));
            assert(mons_view(*monitors) =~= sp.0);
        }
    }
}

// ---------------------------------------------------------------------------
// The dispatcher
// ---------------------------------------------------------------------------

pub open spec fn popup_key_spec(
    ms: Seq<MonitorV>,
    app: App,
    hist: Seq<Seq<MonitorV>>,
    target: State,
) -> (Seq<MonitorV>, App, Seq<Seq<MonitorV>>) {
    if is_main_state(app.state) {
        (ms, update_state_spec(app, target), hist)
    } else {
        (ms, app, hist)
    }
}

pub open spec fn undo_key_spec(ms: Seq<MonitorV>, app: App, hist: Seq<Seq<MonitorV>>) -> (
    Seq<MonitorV>,
    App,
    Seq<Seq<MonitorV>>,
) {
    if is_main_state(app.state) {
        let (m2, h2) = undo_core_spec(ms, hist);
        (m2, app, h2)
    } else {
        (ms, app, hist)
    }
}

pub open spec fn horizontal_key_spec(
    ms: Seq<MonitorV>,
    app: App,
    hist: Seq<Seq<MonitorV>>,
    direction: Dir,
) -> (Seq<MonitorV>, App, Seq<Seq<MonitorV>>) {
    if app.state == State::MonitorEdit {
        let (m2, a2) = handle_monitor_edit_spec(ms, app, direction);
        (m2, a2, hist)
    } else if app.state == State::MonitorSwap {
        let (m2, a2) = handle_monitor_swap_spec(ms, app, direction);
        (m2, a2, hist)
    } else if app.state == State::MenuSelect && app.menu_entry == MenuEntry::Scale {
        (handle_menu_scale_spec(ms, app, direction), app, hist)
    } else {
        (ms, app, hist)
    }
}

pub open spec fn vertical_key_spec(
    ms: Seq<MonitorV>,
    app: App,
    hist: Seq<Seq<MonitorV>>,
    direction: Dir,
    is_down: bool,
) -> (Seq<MonitorV>, App, Seq<Seq<MonitorV>>) {
    if app.state == State::MonitorEdit {
        let (m2, a2) = handle_monitor_edit_spec(ms, app, direction);
        (m2, a2, hist)
    } else if app.state == State::MonitorSwap {
        let (m2, a2) = handle_monitor_swap_spec(ms, app, direction);
        (m2, a2, hist)
    } else if app.state == State::MenuSelect {
        (ms, handle_menu_select_spec(app, is_down), hist)
    } else if app.state == State::InfoEdit {
        (ms, handle_info_edit_spec(ms[app.selected_idx as int], app, is_down), hist)
    } else if app.state == State::ConnectionPopup {
        (ms, handle_connection_edit_spec(ms.len() as int, app, is_down), hist)
    } else {
        (ms, app, hist)
    }
}

pub open spec fn enter_key_spec(ms: Seq<MonitorV>, app: App, hist: Seq<Seq<MonitorV>>) -> (
    Seq<MonitorV>,
    App,
    Seq<Seq<MonitorV>>,
) {
    match app.state {
        State::MonitorEdit => {
            let cur = app.current_idx as int;
            let (ms1, app1) = if ms[cur].is_selected {
                (ms.update(cur, (MonitorV { is_selected: false, ..ms[cur] })), app)
            } else {
                (
                    ms.update(
                        app.selected_idx as int,
                        (MonitorV { is_selected: true, ..ms[app.selected_idx as int] }),
                    ),
                    App { current_idx: app.selected_idx, ..app },
                )
            };
            (
                ms1,
                App {
                    focused_window: FocusedWindow::MonitorInfo,
                    ..update_state_spec(app1, State::MenuSelect)
                },
                hist,
            )
        },
        State::MonitorSwap => {
            let app1 = App { focused_window: FocusedWindow::MonitorInfo, ..app };
            let (ms1, app2) = if app.previous_state == State::MonitorEdit {
                (
                    ms.update(
                        app.current_idx as int,
                        (MonitorV { is_selected: false, ..ms[app.current_idx as int] }),
                    ),
                    App { focused_window: FocusedWindow::MonitorList, ..app1 },
                )
            } else {
                (ms, app1)
            };
            (ms1, update_state_spec(app2, app.previous_state), hist)
        },
        State::MenuSelect => {
            if app.menu_entry == MenuEntry::Framerate || app.menu_entry == MenuEntry::Resolution {
                (ms, update_state_spec(app, State::InfoEdit), hist)
            } else {
                (ms, app, hist)
            }
        },
        State::InfoEdit => info_commit_spec(ms, app, hist),
        State::DebugPopup | State::HelpPopup => (
            ms,
            update_state_spec(app, app.previous_state),
            hist,
        ),
        State::ConnectionPopup => connection_change_spec(ms, app, hist),
        _ => (ms, app, hist),
    }
}

pub open spec fn move_key_spec(ms: Seq<MonitorV>, app: App, hist: Seq<Seq<MonitorV>>) -> (
    Seq<MonitorV>,
    App,
    Seq<Seq<MonitorV>>,
) {
    if app.state == State::MonitorEdit || app.state == State::MenuSelect {
        let hist1 = hist.push(ms);
        let (ms1, app1) = if app.state == State::MonitorEdit {
            (
                ms.update(
                    app.selected_idx as int,
                    (MonitorV { is_selected: true, ..ms[app.selected_idx as int] }),
                ),
                App { current_idx: app.selected_idx, ..app },
            )
        } else {
            (ms, app)
        };
        (
            ms1,
            App {
                focused_window: FocusedWindow::MonitorList,
                ..update_state_spec(app1, State::MonitorSwap)
            },
            hist1,
        )
    } else {
        (ms, app, hist)
    }
}

pub open spec fn primary_key_spec(ms: Seq<MonitorV>, app: App, hist: Seq<Seq<MonitorV>>) -> (
    Seq<MonitorV>,
    App,
    Seq<Seq<MonitorV>>,
) {
    if app.state == State::MonitorEdit || app.state == State::MonitorSwap {
        (set_primary_only_spec(ms, app.selected_idx as int), app, hist.push(ms))
    } else {
        (ms, app, hist)
    }
}

pub open spec fn esc_key_spec(ms: Seq<MonitorV>, app: App, hist: Seq<Seq<MonitorV>>) -> (
    Seq<MonitorV>,
    App,
    Seq<Seq<MonitorV>>,
) {
    match app.state {
        State::MenuSelect => {
            let ms1 = ms.update(
                app.current_idx as int,
                (MonitorV { is_selected: false, ..ms[app.current_idx as int] }),
            );
            (
                ms1,
                App {
                    focused_window: FocusedWindow::MonitorList,
                    ..update_state_spec(app, State::MonitorEdit)
                },
                hist,
            )
        },
        State::MonitorSwap => {
            let app1 = App { focused_window: FocusedWindow::MonitorInfo, ..app };
            let (ms1, app2) = if app.previous_state == State::MonitorEdit {
                (
                    ms.update(
                        app.current_idx as int,
                        (MonitorV { is_selected: false, ..ms[app.current_idx as int] }),
                    ),
                    App { focused_window: FocusedWindow::MonitorList, ..app1 },
                )
            } else {
                (ms, app1)
            };
            (ms1, update_state_spec(app2, app.previous_state), hist.push(ms1))
        },
        State::InfoEdit => (ms, update_state_spec(app, State::MenuSelect), hist),
        State::DebugPopup | State::HelpPopup | State::ConnectionPopup => (
            ms,
            update_state_spec(app, app.previous_state),
            hist,
        ),
        _ => (ms, app, hist),
    }
}

/// The whole dispatcher, one key press at a time.
pub open spec fn dispatch_spec(
    key: Key,
    ms: Seq<MonitorV>,
    app: App,
    hist: Seq<Seq<MonitorV>>,
) -> (Seq<MonitorV>, App, Seq<Seq<MonitorV>>) {
    match key {
        Key::Char(c) => {
            if c == '?' {
                popup_key_spec(ms, app, hist, State::HelpPopup)
            } else if c == 'd' {
                popup_key_spec(ms, app, hist, State::DebugPopup)
            } else if c == 'q' {
                (ms, update_state_spec(app, State::Quit), hist)
            } else if c == 'D' {
                popup_key_spec(ms, app, hist, State::ConnectionPopup)
            } else if c == 's' {
                (ms, app, hist)
            } else if c == 'u' {
                undo_key_spec(ms, app, hist)
            } else if c == 'h' {
                horizontal_key_spec(ms, app, hist, Dir::Left)
            } else if c == 'l' {
                horizontal_key_spec(ms, app, hist, Dir::Right)
            } else if c == 'j' {
                vertical_key_spec(ms, app, hist, Dir::Down, true)
            } else if c == 'k' {
                vertical_key_spec(ms, app, hist, Dir::Up, false)
            } else if c == 'm' {
                move_key_spec(ms, app, hist)
            } else if c == 'p' {
                primary_key_spec(ms, app, hist)
            } else {
                (ms, app, hist)
            }
        },
        Key::Left => horizontal_key_spec(ms, app, hist, Dir::Left),
        Key::Right => horizontal_key_spec(ms, app, hist, Dir::Right),
        Key::Up => vertical_key_spec(ms, app, hist, Dir::Up, false),
        Key::Down => vertical_key_spec(ms, app, hist, Dir::Down, true),
        Key::Enter => enter_key_spec(ms, app, hist),
        Key::Esc => esc_key_spec(ms, app, hist),
        Key::Other => (ms, app, hist),
    }
}

pub open spec fn is_horizontal_key(key: Key) -> bool {
    key == Key::Char('h') || key == Key::Char('l') || key == Key::Left || key == Key::Right
}

pub open spec fn is_vertical_key(key: Key) -> bool {
    key == Key::Char('j') || key == Key::Char('k') || key == Key::Up || key == Key::Down
}

/// What the dispatcher asks of its callers, clause by clause matching the
/// paths a key press can take.
pub open spec fn dispatch_req(key: Key, ms: Seq<MonitorV>, app: App) -> bool {
    &&& wf_mons(ms)
    &&& app.selected_idx < ms.len()
    &&& app.current_idx < ms.len()
    &&& (is_horizontal_key(key) && app.state == State::MenuSelect && app.menu_entry
        == MenuEntry::Scale ==> scale_edit_ok(ms[app.selected_idx as int]))
    &&& (is_vertical_key(key) && app.state == State::InfoEdit ==> {
        &&& (app.menu_entry == MenuEntry::Framerate ==> (rates_of(
            ms[app.selected_idx as int],
        ) is Some))
        &&& info_edit_len(ms[app.selected_idx as int], app.menu_entry) >= 1
    })
    &&& (is_vertical_key(key) && app.state == State::ConnectionPopup
        ==> app.connected_monitor_id < ms.len())
    &&& (key == Key::Enter && app.state == State::InfoEdit ==> info_commit_req(
        ms[app.selected_idx as int],
        app,
    ))
    &&& (key == Key::Enter && app.state == State::ConnectionPopup ==> connection_change_req(
        ms,
        app,
    ))
}

/// Dispatch one key press against the model: pick and run the layout
/// operation, drive the state machine, and maintain the undo history,
/// exactly as `dispatch_spec` describes.
#[verifier::rlimit(100)]
#[verifier::spinoff_prover]
pub fn handle_key_press(
    key: Key,
    monitors: &mut Monitors,
    app: &mut App,
    app_states: &mut Vec<Monitors>,
)
    requires
        dispatch_req(key, mons_view(*old(monitors)), *old(app)),
    ensures
        (mons_view(*final(monitors)), *final(app), hist_view(*final(app_states))) == dispatch_spec(
            key,
            mons_view(*old(monitors)),
            *old(app),
            hist_view(*old(app_states)),
        ),
{
    let ghost ms0 = mons_view(*old(monitors));
    let ghost h0 = hist_view(*old(app_states));
    match key {
        Key::Char(c) => {
            if c == '?' {
                if matches!(
                    app.state,
                    State::MonitorEdit | State::MonitorSwap | State::MenuSelect | State::InfoEdit,
                ) {
                    app.update_state(State::HelpPopup);
                }
            } else if c == 'd' {
                if matches!(
                    app.state,
                    State::MonitorEdit | State::MonitorSwap | State::MenuSelect | State::InfoEdit,
                ) {
                    app.update_state(State::DebugPopup);
                }
            } else if c == 'q' {
                app.update_state(State::Quit);
            } else if c == 'D' {
                if matches!(
                    app.state,
                    State::MonitorEdit | State::MonitorSwap | State::MenuSelect | State::InfoEdit,
                ) {
                    app.update_state(State::ConnectionPopup);
                }
            } else if c == 's' {
                // serialization and the external call happen outside the
                // library; the model does not change
            } else if c == 'u' {
                if matches!(
                    app.state,
                    State::MonitorEdit | State::MonitorSwap | State::MenuSelect | State::InfoEdit,
                ) {
                    apply_undo(monitors, app_states);
                }
            } else if c == 'h' {
                dispatch_direction(monitors, app, app_states, Dir::Left, false);
            } else if c == 'l' {
                dispatch_direction(monitors, app, app_states, Dir::Right, false);
            } else if c == 'j' {
                dispatch_direction(monitors, app, app_states, Dir::Down, true);
            } else if c == 'k' {
                dispatch_direction(monitors, app, app_states, Dir::Up, true);
            } else if c == 'm' {
                if matches!(app.state, State::MonitorEdit | State::MenuSelect) {
                    push_snapshot(app_states, monitors);
                    if matches!(app.state, State::MonitorEdit) {
                        set_selected(monitors, app.selected_idx, true);
                        app.current_idx = app.selected_idx;
                    }
                    app.update_state(State::MonitorSwap);
                    app.focused_window = FocusedWindow::MonitorList;
                }
            } else if c == 'p' {
                if matches!(app.state, State::MonitorEdit | State::MonitorSwap) {
                    push_snapshot(app_states, monitors);
                    set_primary_only(monitors, app.selected_idx);
                }
            }
        },
        Key::Left => dispatch_direction(monitors, app, app_states, Dir::Left, false),
        Key::Right => dispatch_direction(monitors, app, app_states, Dir::Right, false),
        Key::Up => dispatch_direction(monitors, app, app_states, Dir::Up, true),
        Key::Down => dispatch_direction(monitors, app, app_states, Dir::Down, true),
        Key::Enter => {
            match app.state {
                State::MonitorEdit => {
                    if monitors[app.current_idx].is_selected {
                        set_selected(monitors, app.current_idx, false);
                    } else {
                        app.current_idx = app.selected_idx;
                        set_selected(monitors, app.selected_idx, true);
                    }
                    app.update_state(State::MenuSelect);
                    app.focused_window = FocusedWindow::MonitorInfo;
                },
                State::MonitorSwap => {
                    app.focused_window = FocusedWindow::MonitorInfo;
                    if matches!(app.previous_state, State::MonitorEdit) {
                        set_selected(monitors, app.current_idx, false);
                        app.focused_window = FocusedWindow::MonitorList;
                    }
                    let prev = app.previous_state;
                    app.update_state(prev);
                },
                State::MenuSelect => {
                    if matches!(app.menu_entry, MenuEntry::Framerate | MenuEntry::Resolution) {
                        app.update_state(State::InfoEdit);
                    }
                },
                State::InfoEdit => {
                    handle_info_commit(app, monitors, app_states);
                },
                State::DebugPopup | State::HelpPopup => {
                    let prev = app.previous_state;
                    app.update_state(prev);
                },
                State::ConnectionPopup => {
                    handle_monitor_connection_change(app, monitors, app_states);
                },
                _ => {},
            }
        },
        Key::Esc => {
            match app.state {
                State::MenuSelect => {
                    set_selected(monitors, app.current_idx, false);
                    app.update_state(State::MonitorEdit);
                    app.focused_window = FocusedWindow::MonitorList;
                },
                State::MonitorSwap => {
                    app.focused_window = FocusedWindow::MonitorInfo;
                    if matches!(app.previous_state, State::MonitorEdit) {
                        set_selected(monitors, app.current_idx, false);
                        app.focused_window = FocusedWindow::MonitorList;
                    }
                    let prev = app.previous_state;
                    app.update_state(prev);
                    push_snapshot(app_states, monitors);
                },
                State::InfoEdit => {
                    app.update_state(State::MenuSelect);
                },
                State::DebugPopup | State::HelpPopup | State::ConnectionPopup => {
                    let prev = app.previous_state;
                    app.update_state(prev);
                },
                _ => {},
            }
        },
        Key::Other => {},
    }
}

/// The shared body of the four direction keys.
#[verifier::rlimit(100)]
#[verifier::spinoff_prover]
fn dispatch_direction(
    monitors: &mut Monitors,
    app: &mut App,
    app_states: &mut Vec<Monitors>,
    direction: Dir,
    is_vertical: bool,
)
    requires
        old(app).selected_idx < old(monitors).len(),
        old(app).current_idx < old(monitors).len(),
        wf_mons(mons_view(*old(monitors))),
        (!is_vertical && old(app).state == State::MenuSelect && old(app).menu_entry
            == MenuEntry::Scale ==> scale_edit_ok(
            mons_view(*old(monitors))[old(app).selected_idx as int],
        )),
        (is_vertical && old(app).state == State::InfoEdit ==> {
            &&& (old(app).menu_entry == MenuEntry::Framerate ==> (rates_of(
                mons_view(*old(monitors))[old(app).selected_idx as int],
            ) is Some))
            &&& info_edit_len(
                mons_view(*old(monitors))[old(app).selected_idx as int],
                old(app).menu_entry,
            ) >= 1
        }),
        (is_vertical && old(app).state == State::ConnectionPopup ==> old(
            app,
        ).connected_monitor_id < old(monitors).len()),
        (is_vertical == (direction == Dir::Up || direction == Dir::Down)),
    ensures
        (mons_view(*final(monitors)), *final(app), hist_view(*final(app_states))) == (
        if is_vertical {
            vertical_key_spec(
                mons_view(*old(monitors)),
                *old(app),
                hist_view(*old(app_states)),
                direction,
                direction == Dir::Down,
            )
        } else {
            horizontal_key_spec(
                mons_view(*old(monitors)),
                *old(app),
                hist_view(*old(app_states)),
                direction,
            )
        }),
{
    let is_down = matches!(direction, Dir::Down);
    match app.state {
        State::MonitorEdit => handle_monitor_edit(app, monitors, direction),
        State::MonitorSwap => handle_monitor_swap(app, monitors, direction),
        State::MenuSelect => {
            if !is_vertical {
                if matches!(app.menu_entry, MenuEntry::Scale) {
                    handle_menu_scale(app, monitors, direction);
                }
            } else {
                handle_menu_select(app, is_down);
            }
        },
        State::InfoEdit => {
            if is_vertical {
                handle_info_edit(app, monitors, is_down);
            }
        },
        State::ConnectionPopup => {
            if is_vertical {
                handle_connection_edit(app, monitors, is_down);
            }
        },
        _ => {},
    }
}

} // verus!
