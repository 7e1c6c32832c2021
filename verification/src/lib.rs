//! Interactive arrangement of X11 outputs: a verified layout engine.
//!
//! The library models each output as a rectangle on a virtual canvas,
//! four-way-linked to its neighbors, and proves that the arrangement
//! operations (swap, push, traverse, shift, connect/disconnect) and the
//! key dispatcher behave as specified. Terminal drawing and process
//! spawning live outside the library; everything here is plain data.

use vstd::prelude::*;

pub mod debug;
pub mod laws;
pub mod layout;
pub mod monitor;
pub mod serialize;
pub mod tui;
pub mod xrandr;

verus! {

/// A cardinal direction on the virtual canvas.
#[derive(Debug, PartialEq, Eq, Structural, Clone, Copy)]
pub enum Dir {
    Left,
    Right,
    Up,
    Down,
}

/// The dispatcher's interaction state. `MonitorEdit` is the initial state,
/// `Quit` the terminal one; the three popup states remember where they were
/// opened from in `App::previous_state`.
#[derive(Debug, PartialEq, Eq, Structural, Clone, Copy)]
pub enum State {
    MonitorEdit,
    MonitorSwap,
    MenuSelect,
    InfoEdit,
    DebugPopup,
    HelpPopup,
    ConnectionPopup,
    Quit,
}

/// Which pane of the main screen currently has focus.
#[derive(Debug, PartialEq, Eq, Structural, Clone, Copy)]
pub enum FocusedWindow {
    MonitorList,
    MonitorInfo,
}

/// The rows of the monitor-info panel, in display order. Cursor movement
/// over them saturates at `Position` and at `Resolutions`; it never wraps.
#[derive(Debug, PartialEq, Eq, Structural, Clone, Copy)]
pub enum MenuEntry {
    Position,
    Resolution,
    Framerate,
    Scale,
    Primary,
    Left,
    Down,
    Up,
    Right,
    Resolutions,
}

/// Successor in the menu order; saturates at the last entry.
pub open spec fn menu_next(e: MenuEntry) -> MenuEntry {
    match e {
        MenuEntry::Position => MenuEntry::Resolution,
        MenuEntry::Resolution => MenuEntry::Framerate,
        MenuEntry::Framerate => MenuEntry::Scale,
        MenuEntry::Scale => MenuEntry::Primary,
        MenuEntry::Primary => MenuEntry::Left,
        MenuEntry::Left => MenuEntry::Down,
        MenuEntry::Down => MenuEntry::Up,
        MenuEntry::Up => MenuEntry::Right,
        MenuEntry::Right => MenuEntry::Resolutions,
        MenuEntry::Resolutions => MenuEntry::Resolutions,
    }
}

/// Predecessor in the menu order; saturates at the first entry.
pub open spec fn menu_prev(e: MenuEntry) -> MenuEntry {
    match e {
        MenuEntry::Position => MenuEntry::Position,
        MenuEntry::Resolution => MenuEntry::Position,
        MenuEntry::Framerate => MenuEntry::Resolution,
        MenuEntry::Scale => MenuEntry::Framerate,
        MenuEntry::Primary => MenuEntry::Scale,
        MenuEntry::Left => MenuEntry::Primary,
        MenuEntry::Down => MenuEntry::Left,
        MenuEntry::Up => MenuEntry::Down,
        MenuEntry::Right => MenuEntry::Up,
        MenuEntry::Resolutions => MenuEntry::Right,
    }
}

/// Dispatcher state: the interaction state machine plus the cursors into
/// the monitor list, the info menu, the option lists and the connection
/// popup. Plain copyable data; the dispatcher owns the authoritative copy.
#[derive(Debug, PartialEq, Eq, Structural, Clone, Copy)]
pub struct App {
    pub state: State,
    pub previous_state: State,
    pub selected_idx: usize,
    pub current_idx: usize,
    pub focused_window: FocusedWindow,
    pub menu_entry: MenuEntry,
    pub extra_entry: usize,
    pub connected_monitor_id: usize,
    pub debug: bool,
}

/// The dispatcher state produced by `App::new`.
pub open spec fn app_new_spec(start_state: State, dbg: bool) -> App {
    App {
        state: start_state,
        previous_state: State::MonitorEdit,
        selected_idx: 0,
        current_idx: 0,
        focused_window: FocusedWindow::MonitorList,
        menu_entry: MenuEntry::Position,
        extra_entry: 0,
        connected_monitor_id: 0,
        debug: dbg,
    }
}

/// `update_state` remembers the state it leaves in `previous_state`.
pub open spec fn update_state_spec(app: App, new_state: State) -> App {
    App { previous_state: app.state, state: new_state, ..app }
}

impl App {
    /// Fresh dispatcher state: cursors at the first monitor, info menu on
    /// `Position`, starting in `start_state`.
    pub fn new(start_state: State, dbg: bool) -> (app: App)
        ensures
            app == app_new_spec(start_state, dbg),
    {
        App {
            selected_idx: 0,
            current_idx: 0,
            focused_window: FocusedWindow::MonitorList,
            state: start_state,
            previous_state: State::MonitorEdit,
            menu_entry: MenuEntry::Position,
            extra_entry: 0,
            connected_monitor_id: 0,
            debug: dbg,
        }
    }

    /// Move to `new_state`, remembering where we came from.
    pub fn update_state(&mut self, new_state: State)
        ensures
            *final(self) == update_state_spec(*old(self), new_state),
    {
        self.previous_state = self.state;
        self.state = new_state;
    }

    /// The entry below the current one, saturating at the bottom.
    pub(crate) fn get_next_menu_item(&mut self) -> (r: MenuEntry)
        ensures
            *final(self) == *old(self),
            r == menu_next(old(self).menu_entry),
    {
        match self.menu_entry {
            MenuEntry::Position => MenuEntry::Resolution,
            MenuEntry::Resolution => MenuEntry::Framerate,
            MenuEntry::Framerate => MenuEntry::Scale,
            MenuEntry::Scale => MenuEntry::Primary,
            MenuEntry::Primary => MenuEntry::Left,
            MenuEntry::Left => MenuEntry::Down,
            MenuEntry::Down => MenuEntry::Up,
            MenuEntry::Up => MenuEntry::Right,
            MenuEntry::Right => MenuEntry::Resolutions,
            MenuEntry::Resolutions => MenuEntry::Resolutions,
        }
    }

    /// The entry above the current one, saturating at the top.
    pub(crate) fn get_prev_menu_item(&mut self) -> (r: MenuEntry)
        ensures
            *final(self) == *old(self),
            r == menu_prev(old(self).menu_entry),
    {
        match self.menu_entry {
            MenuEntry::Position => MenuEntry::Position,
            MenuEntry::Resolution => MenuEntry::Position,
            MenuEntry::Framerate => MenuEntry::Resolution,
            MenuEntry::Scale => MenuEntry::Framerate,
            MenuEntry::Primary => MenuEntry::Scale,
            MenuEntry::Left => MenuEntry::Primary,
            MenuEntry::Down => MenuEntry::Left,
            MenuEntry::Up => MenuEntry::Down,
            MenuEntry::Right => MenuEntry::Up,
            MenuEntry::Resolutions => MenuEntry::Right,
        }
    }
}

} // verus!
