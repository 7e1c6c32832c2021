use monitor_tui::layout::{monitor_proximity, shift_res};
use monitor_tui::monitor::Monitors;
use monitor_tui::tui::{handle_key_press, handle_menu_select, handle_monitor_connection_change, Key};
use monitor_tui::xrandr::get_monitor_info;
use monitor_tui::{App, MenuEntry, State};

#[test]
fn fixture_layout() {
    let monitors = get_monitor_info(true).unwrap();
    assert_eq!(monitors.len(), 3);
    assert_eq!(monitors[0].name, "HDMI-1");
    assert!(monitors[0].is_primary);
    assert!(monitors[0].is_enabled);
    assert_eq!(monitors[0].position, (0, 0));
    assert_eq!(monitors[0].resolution, (2560, 1440));
    assert_eq!(monitors[0].displayed_resolution, (2560, 1440));
    assert_eq!(monitors[0].scale, 100);
    assert_eq!(monitors[0].framerate, 6000);
    assert_eq!(monitors[1].name, "DP-1");
    assert_eq!(monitors[1].position, (2560, 0));
    assert_eq!(monitors[2].name, "DP-2");
    assert_eq!(monitors[2].position, (4480, 0));
}

#[test]
fn live_query_is_not_the_librarys() {
    assert!(get_monitor_info(false).is_err());
}

#[test]
fn proximity_links_fixture_row() {
    let mut monitors = get_monitor_info(true).unwrap();
    monitor_proximity(&mut monitors);
    assert_eq!(monitors[0].right, Some(1));
    assert_eq!(monitors[1].left, Some(0));
    assert_eq!(monitors[1].right, Some(2));
    assert_eq!(monitors[2].left, Some(1));
    assert_eq!(monitors[0].left, None);
    assert_eq!(monitors[2].right, None);
    assert_eq!(monitors[0].up, None);
    assert_eq!(monitors[0].down, None);
}

#[test]
fn sorted_resolutions_widest_first() {
    let monitors = get_monitor_info(true).unwrap();
    let sorted = monitors[0].sort_resolutions();
    assert_eq!(sorted[0], (2560, 1440));
    assert_eq!(sorted[1], (1920, 1200));
    assert_eq!(sorted[2], (1920, 1080));
    assert_eq!(sorted[3], (1680, 1050));
    assert_eq!(sorted[4], (1600, 1200));
    assert_eq!(sorted[sorted.len() - 1], (640, 480));
    assert_eq!(sorted.len(), 12);
}

#[test]
fn framerate_lookup_and_set() {
    let mut monitors = get_monitor_info(true).unwrap();
    assert_eq!(monitors[0].get_framerate(1), 5995);
    monitors[0].set_framerate(1);
    assert_eq!(monitors[0].framerate, 5995);
    assert_eq!(monitors[1].get_framerate(2), 5000);
}

#[test]
fn scale_math_truncates() {
    let mut monitors = get_monitor_info(true).unwrap();
    monitors[0].scale = 105;
    let diff = monitors[0].get_res_difference();
    // floor(2560 * 100 / 105) = 2438, floor(1440 * 100 / 105) = 1371
    assert_eq!(diff, (2438 - 2560, 1371 - 1440));
    monitors[0].update_scale();
    assert_eq!(monitors[0].displayed_resolution, (2438, 1371));
}

#[test]
fn scale_key_reflows_row() {
    let mut app = App::new(State::MenuSelect, true);
    let mut monitors = get_monitor_info(true).unwrap();
    let mut app_states: Vec<Monitors> = Vec::new();
    monitor_proximity(&mut monitors);
    app.menu_entry = MenuEntry::Scale;

    // grow the scale once: 1.00 -> 1.05, footprint shrinks to 2438x1371
    handle_key_press(Key::Char('l'), &mut monitors, &mut app, &mut app_states);
    assert_eq!(monitors[0].scale, 105);
    assert_eq!(monitors[0].displayed_resolution, (2438, 1371));
    // everything at or past the old right edge moved left by the shrink
    assert_eq!(monitors[1].position, (2560 - 122, 0));
    assert_eq!(monitors[2].position, (4480 - 122, 0));
}

#[test]
fn shift_res_moves_half_plane() {
    let mut monitors = get_monitor_info(true).unwrap();
    shift_res(&mut monitors, 0, (100, 0));
    assert_eq!(monitors[0].position, (0, 0));
    assert_eq!(monitors[1].position, (2660, 0));
    assert_eq!(monitors[2].position, (4580, 0));
}

#[test]
fn resolution_commit_adopts_mode() {
    let mut app = App::new(State::MonitorEdit, true);
    let mut monitors = get_monitor_info(true).unwrap();
    let mut app_states: Vec<Monitors> = Vec::new();
    monitor_proximity(&mut monitors);

    handle_key_press(Key::Enter, &mut monitors, &mut app, &mut app_states);
    handle_key_press(Key::Char('j'), &mut monitors, &mut app, &mut app_states);
    assert_eq!(app.menu_entry, MenuEntry::Resolution);
    handle_key_press(Key::Enter, &mut monitors, &mut app, &mut app_states);
    assert_eq!(app.state, State::InfoEdit);
    // move to the second-widest mode (1920x1200) and commit it
    handle_key_press(Key::Char('j'), &mut monitors, &mut app, &mut app_states);
    assert_eq!(app.extra_entry, 1);
    handle_key_press(Key::Enter, &mut monitors, &mut app, &mut app_states);
    assert_eq!(monitors[0].resolution, (1920, 1200));
    assert_eq!(monitors[0].displayed_resolution, (1920, 1200));
    assert_eq!(monitors[0].scale, 100);
    assert_eq!(monitors[0].framerate, 6000);
    // the row to the right closed the 640-pixel gap
    assert_eq!(monitors[1].position, (2560 - 640, 0));
    assert_eq!(monitors[2].position, (4480 - 640, 0));
}

#[test]
fn framerate_commit_picks_entry() {
    let mut app = App::new(State::MenuSelect, true);
    let mut monitors = get_monitor_info(true).unwrap();
    let mut app_states: Vec<Monitors> = Vec::new();
    monitor_proximity(&mut monitors);

    app.menu_entry = MenuEntry::Framerate;
    handle_key_press(Key::Enter, &mut monitors, &mut app, &mut app_states);
    assert_eq!(app.state, State::InfoEdit);
    handle_key_press(Key::Char('j'), &mut monitors, &mut app, &mut app_states);
    handle_key_press(Key::Enter, &mut monitors, &mut app, &mut app_states);
    assert_eq!(monitors[0].framerate, 5995);
}

#[test]
fn info_cursor_saturates() {
    let mut app = App::new(State::InfoEdit, true);
    let mut monitors = get_monitor_info(true).unwrap();
    let mut app_states: Vec<Monitors> = Vec::new();
    monitor_proximity(&mut monitors);
    app.menu_entry = MenuEntry::Framerate;

    // HDMI-1 offers two rates at 2560x1440: the cursor stops at 1
    handle_key_press(Key::Char('j'), &mut monitors, &mut app, &mut app_states);
    assert_eq!(app.extra_entry, 1);
    handle_key_press(Key::Char('j'), &mut monitors, &mut app, &mut app_states);
    assert_eq!(app.extra_entry, 1);
    handle_key_press(Key::Char('k'), &mut monitors, &mut app, &mut app_states);
    handle_key_press(Key::Char('k'), &mut monitors, &mut app, &mut app_states);
    assert_eq!(app.extra_entry, 0);
}

#[test]
fn menu_select_resets_option_cursor() {
    let mut app = App::new(State::MenuSelect, true);
    app.extra_entry = 7;
    handle_menu_select(&mut app, true);
    assert_eq!(app.menu_entry, MenuEntry::Resolution);
    assert_eq!(app.extra_entry, 0);
}

#[test]
fn primary_moves_to_selected() {
    let mut app = App::new(State::MonitorEdit, true);
    let mut monitors = get_monitor_info(true).unwrap();
    let mut app_states: Vec<Monitors> = Vec::new();
    monitor_proximity(&mut monitors);
    app.selected_idx = 2;

    handle_key_press(Key::Char('p'), &mut monitors, &mut app, &mut app_states);
    assert!(!monitors[0].is_primary);
    assert!(!monitors[1].is_primary);
    assert!(monitors[2].is_primary);
}

#[test]
fn undo_restores_snapshot() {
    let mut app = App::new(State::MonitorEdit, true);
    let mut monitors = get_monitor_info(true).unwrap();
    let mut app_states: Vec<Monitors> = Vec::new();
    monitor_proximity(&mut monitors);
    app.selected_idx = 1;

    handle_key_press(Key::Char('p'), &mut monitors, &mut app, &mut app_states);
    assert!(monitors[1].is_primary);
    assert!(!monitors[0].is_primary);
    handle_key_press(Key::Char('u'), &mut monitors, &mut app, &mut app_states);
    assert!(monitors[0].is_primary);
    assert!(!monitors[1].is_primary);
}

#[test]
fn undo_at_root_is_idempotent() {
    let mut app = App::new(State::MonitorEdit, true);
    let mut monitors = get_monitor_info(true).unwrap();
    let mut app_states: Vec<Monitors> = Vec::new();
    monitor_proximity(&mut monitors);
    app.selected_idx = 1;

    handle_key_press(Key::Char('p'), &mut monitors, &mut app, &mut app_states);
    handle_key_press(Key::Char('u'), &mut monitors, &mut app, &mut app_states);
    handle_key_press(Key::Char('u'), &mut monitors, &mut app, &mut app_states);
    assert!(monitors[0].is_primary);
    assert_eq!(app_states.len(), 1);
}

#[test]
fn disconnect_collapses_row() {
    let mut app = App::new(State::MonitorEdit, true);
    let mut monitors = get_monitor_info(true).unwrap();
    let mut app_states: Vec<Monitors> = Vec::new();
    monitor_proximity(&mut monitors);

    app.connected_monitor_id = 1;
    handle_monitor_connection_change(&mut app, &mut monitors, &mut app_states);
    assert!(!monitors[1].is_enabled);
    assert_eq!(monitors[1].position, (0, 0));
    assert_eq!(monitors[1].resolution, (0, 0));
    assert_eq!(monitors[1].left, None);
    assert_eq!(monitors[1].right, None);
    // DP-2 slid left into the gap
    assert_eq!(monitors[2].position, (2560, 0));
    assert_eq!(app_states.len(), 1);
}

#[test]
fn last_enabled_monitor_cannot_be_disconnected() {
    let mut app = App::new(State::MonitorEdit, true);
    let mut monitors = get_monitor_info(true).unwrap();
    let mut app_states: Vec<Monitors> = Vec::new();
    monitor_proximity(&mut monitors);

    app.connected_monitor_id = 1;
    handle_monitor_connection_change(&mut app, &mut monitors, &mut app_states);
    app.connected_monitor_id = 2;
    handle_monitor_connection_change(&mut app, &mut monitors, &mut app_states);
    assert!(!monitors[1].is_enabled);
    assert!(!monitors[2].is_enabled);

    // HDMI-1 is the last enabled output: the toggle is refused outright
    app.connected_monitor_id = 0;
    handle_monitor_connection_change(&mut app, &mut monitors, &mut app_states);
    assert!(monitors[0].is_enabled);
    assert_eq!(monitors[0].position, (0, 0));
    assert_eq!(app_states.len(), 2);
}

#[test]
fn reconnect_hangs_right_of_row() {
    let mut app = App::new(State::MonitorEdit, true);
    let mut monitors = get_monitor_info(true).unwrap();
    let mut app_states: Vec<Monitors> = Vec::new();
    monitor_proximity(&mut monitors);

    app.connected_monitor_id = 2;
    handle_monitor_connection_change(&mut app, &mut monitors, &mut app_states);
    assert!(!monitors[2].is_enabled);

    handle_monitor_connection_change(&mut app, &mut monitors, &mut app_states);
    assert!(monitors[2].is_enabled);
    // rightmost of the first row is DP-1 at 2560, displayed width 1920
    assert_eq!(monitors[2].position, (2560 + 1920, 0));
    assert_eq!(monitors[2].resolution, (1920, 1080));
    assert_eq!(monitors[2].scale, 100);
    assert_eq!(monitors[2].displayed_resolution, (1920, 1080));
}

#[test]
fn connection_cursor_stays_in_range() {
    let mut app = App::new(State::ConnectionPopup, true);
    let mut monitors = get_monitor_info(true).unwrap();
    let mut app_states: Vec<Monitors> = Vec::new();
    monitor_proximity(&mut monitors);

    handle_key_press(Key::Char('j'), &mut monitors, &mut app, &mut app_states);
    handle_key_press(Key::Char('j'), &mut monitors, &mut app, &mut app_states);
    handle_key_press(Key::Char('j'), &mut monitors, &mut app, &mut app_states);
    assert_eq!(app.connected_monitor_id, 2);
    handle_key_press(Key::Char('k'), &mut monitors, &mut app, &mut app_states);
    handle_key_press(Key::Char('k'), &mut monitors, &mut app, &mut app_states);
    handle_key_press(Key::Char('k'), &mut monitors, &mut app, &mut app_states);
    assert_eq!(app.connected_monitor_id, 0);
}

#[test]
fn save_key_leaves_model_alone() {
    let mut app = App::new(State::MonitorEdit, true);
    let mut monitors = get_monitor_info(true).unwrap();
    let mut app_states: Vec<Monitors> = Vec::new();
    monitor_proximity(&mut monitors);

    handle_key_press(Key::Char('s'), &mut monitors, &mut app, &mut app_states);
    assert_eq!(app.state, State::MonitorEdit);
    assert_eq!(monitors[0].position, (0, 0));
    assert_eq!(monitors[1].position, (2560, 0));
    assert_eq!(app_states.len(), 0);
}

#[test]
fn serialize_fixture_arguments() {
    let monitors = get_monitor_info(true).unwrap();
    let args = monitor_tui::serialize::convert_monitors_to_args(&monitors, false);
    let expected: Vec<String> = vec![
        "--output", "HDMI-1", "--primary", "--mode", "2560x1440", "--rate", "60", "--pos", "0x0",
        "--scale", "1.00", "--output", "DP-1", "--mode", "1920x1080", "--rate", "60", "--pos",
        "2560x0", "--scale", "1.00", "--output", "DP-2", "--mode", "1920x1080", "--rate", "60",
        "--pos", "4480x0", "--scale", "1.00",
    ]
    .into_iter()
    .map(|s| s.to_string())
    .collect();
    assert_eq!(args, expected);
}

#[test]
fn serialize_rates_scales_and_negatives() {
    let mut monitors = get_monitor_info(true).unwrap();
    monitors[0].set_framerate(1); // 59.95 Hz
    monitors[0].scale = 105; // reciprocal 0.95
    monitors[1].is_enabled = false; // omitted entirely
    monitors[2].position = (-3, 7);
    let args = monitor_tui::serialize::convert_monitors_to_args(&monitors, false);
    let expected: Vec<String> = vec![
        "--output", "HDMI-1", "--primary", "--mode", "2560x1440", "--rate", "59.95", "--pos",
        "0x0", "--scale", "0.95", "--output", "DP-2", "--mode", "1920x1080", "--rate", "60",
        "--pos", "-3x7", "--scale", "1.00",
    ]
    .into_iter()
    .map(|s| s.to_string())
    .collect();
    assert_eq!(args, expected);
}

#[test]
fn reconnect_uses_displayed_width() {
    let mut app = App::new(State::MonitorEdit, true);
    let mut monitors = get_monitor_info(true).unwrap();
    let mut app_states: Vec<Monitors> = Vec::new();

    // DP-1 runs at scale 2.00: its footprint is 960x540
    monitors[1].scale = 200;
    monitors[1].update_scale();
    assert_eq!(monitors[1].displayed_resolution, (960, 540));
    monitors[2].position = (2560 + 960, 0);
    monitor_proximity(&mut monitors);
    assert_eq!(monitors[1].right, Some(2));

    app.connected_monitor_id = 2;
    handle_monitor_connection_change(&mut app, &mut monitors, &mut app_states);
    assert!(!monitors[2].is_enabled);
    assert_eq!(monitors[2].position, (0, 0));

    // re-enabling hangs DP-2 against DP-1's displayed edge, not its native one
    handle_monitor_connection_change(&mut app, &mut monitors, &mut app_states);
    assert!(monitors[2].is_enabled);
    assert_eq!(monitors[2].position, (2560 + 960, 0));
    assert_eq!(monitors[2].scale, 100);
    assert_eq!(monitors[2].displayed_resolution, (1920, 1080));
    assert_eq!(monitors[1].right, Some(2));
    assert_eq!(monitors[2].left, Some(1));
}

#[test]
fn swap_down_equal_displayed_heights() {
    let mut monitors = get_monitor_info(true).unwrap();

    // DP-1's native mode is taller, but at scale 1.50 its footprint is
    // 1280x1440 — the same displayed height as HDMI-1, so the vertical
    // swap needs no compensating shift
    monitors[1].resolution = (1920, 2160);
    monitors[1].scale = 150;
    monitors[1].update_scale();
    assert_eq!(monitors[1].displayed_resolution, (1280, 1440));
    monitors[1].position = (0, 1440);
    monitors[2].position = (10000, 10000);
    monitor_proximity(&mut monitors);
    assert_eq!(monitors[0].down, Some(1));

    monitor_tui::layout::swap_monitors(&mut monitors, 0, 1, monitor_tui::Dir::Down);

    assert_eq!(monitors[0].name, "DP-1");
    assert_eq!(monitors[0].position, (0, 0));
    assert_eq!(monitors[1].name, "HDMI-1");
    assert_eq!(monitors[1].position, (0, 1440));
}

#[test]
fn parse_report_builds_fixture_model() {
    let report = "\
Screen 0: minimum 320 x 200, current 5760 x 1440, maximum 16384 x 16384
HDMI-1 connected primary 2560x1440+0+0 (normal left inverted right x axis y axis) 597mm x 336mm
   2560x1440     60.00*+  59.95
   1920x1200     60.00
DP-1 connected 1920x1080+2560+0 (normal left inverted right x axis y axis) 521mm x 293mm
   1920x1080     60.00*+  59.94    50.00
";
    let monitors = monitor_tui::xrandr::parse_monitor_info(report.as_bytes());
    assert_eq!(monitors.len(), 2);
    assert_eq!(monitors[0].name, "HDMI-1");
    assert!(monitors[0].is_primary);
    assert!(monitors[0].is_enabled);
    assert_eq!(monitors[0].position, (0, 0));
    assert_eq!(monitors[0].resolution, (2560, 1440));
    assert_eq!(monitors[0].displayed_resolution, (2560, 1440));
    assert_eq!(monitors[0].scale, 100);
    assert_eq!(monitors[0].framerate, 6000);
    assert_eq!(monitors[0].available_resolutions.len(), 2);
    assert_eq!(monitors[0].available_resolutions[0].resolution, (2560, 1440));
    assert_eq!(monitors[0].available_resolutions[0].framerates, vec![6000, 5995]);
    assert_eq!(monitors[0].available_resolutions[1].resolution, (1920, 1200));
    assert_eq!(monitors[0].available_resolutions[1].framerates, vec![6000]);
    assert_eq!(monitors[0].left, None);
    assert_eq!(monitors[0].right, None);
    assert_eq!(monitors[1].name, "DP-1");
    assert!(!monitors[1].is_primary);
    assert_eq!(monitors[1].position, (2560, 0));
    assert_eq!(monitors[1].resolution, (1920, 1080));
    assert_eq!(monitors[1].available_resolutions[0].framerates, vec![6000, 5994, 5000]);
}

#[test]
fn parse_report_skips_malformed_lines() {
    let report = "\
garbage that is not a monitor line
DP-3 connected 1920x1080+0+0 (normal) 521mm x 293mm
   not-a-mode 60.00
   1920x1080     59.94*
DP-4 disconnected (normal)
HDMI-9 connected garbled header without millimetres
";
    let monitors = monitor_tui::xrandr::parse_monitor_info(report.as_bytes());
    // DP-3 survives with its one good mode; the header without the
    // millimetre suffix is not in use and opens nothing
    assert_eq!(monitors.len(), 1);
    assert_eq!(monitors[0].name, "DP-3");
    assert_eq!(monitors[0].resolution, (1920, 1080));
    assert_eq!(monitors[0].framerate, 5994);
    assert_eq!(monitors[0].available_resolutions.len(), 1);
    assert_eq!(monitors[0].available_resolutions[0].framerates, vec![5994]);
}

#[test]
fn parse_report_scaled_header() {
    // the header footprint is half the active mode on each axis, so the
    // monitor comes up at scale 2.00: displayed = floor(resolution/scale)
    let report = "\
DP-5 connected 960x540+0+0 (normal) 521mm x 293mm
   1920x1080     60.00*
";
    let monitors = monitor_tui::xrandr::parse_monitor_info(report.as_bytes());
    assert_eq!(monitors.len(), 1);
    assert_eq!(monitors[0].displayed_resolution, (960, 540));
    assert_eq!(monitors[0].resolution, (1920, 1080));
    assert_eq!(monitors[0].scale, 200);
}

#[test]
fn parse_report_active_pair_is_per_record() {
    // the second record marks no rate as active: it must not inherit the
    // first record's pair
    let report = "\
DP-6 connected 1920x1080+0+0 (normal) 521mm x 293mm
   1920x1080     60.00*
DP-7 connected 1280x720+1920+0 (normal) 400mm x 225mm
   1280x720      59.94
";
    let monitors = monitor_tui::xrandr::parse_monitor_info(report.as_bytes());
    assert_eq!(monitors.len(), 2);
    assert_eq!(monitors[0].resolution, (1920, 1080));
    assert_eq!(monitors[0].framerate, 6000);
    assert_eq!(monitors[1].resolution, (0, 0));
    assert_eq!(monitors[1].framerate, 0);
    assert_eq!(monitors[1].scale, 100);
}

fn assert_same_monitors(a: &Monitors, b: &Monitors) {
    assert_eq!(a.len(), b.len());
    for i in 0..a.len() {
        assert_eq!(a[i].name, b[i].name);
        assert_eq!(a[i].resolution, b[i].resolution);
        assert_eq!(a[i].displayed_resolution, b[i].displayed_resolution);
        assert_eq!(a[i].position, b[i].position);
        assert_eq!(a[i].scale, b[i].scale);
        assert_eq!(a[i].framerate, b[i].framerate);
        assert_eq!(a[i].is_primary, b[i].is_primary);
        assert_eq!(a[i].is_selected, b[i].is_selected);
        assert_eq!(a[i].is_enabled, b[i].is_enabled);
        assert_eq!(a[i].left, b[i].left);
        assert_eq!(a[i].right, b[i].right);
        assert_eq!(a[i].up, b[i].up);
        assert_eq!(a[i].down, b[i].down);
        assert_eq!(a[i].available_resolutions.len(), b[i].available_resolutions.len());
        for j in 0..a[i].available_resolutions.len() {
            assert_eq!(
                a[i].available_resolutions[j].resolution,
                b[i].available_resolutions[j].resolution
            );
            assert_eq!(
                a[i].available_resolutions[j].framerates,
                b[i].available_resolutions[j].framerates
            );
        }
    }
}

#[test]
fn fixture_report_parses_to_fixture_model() {
    let parsed = monitor_tui::xrandr::parse_monitor_info(
        monitor_tui::debug::xrandr_debug_output().as_bytes(),
    );
    let built = get_monitor_info(true).unwrap();
    assert_same_monitors(&parsed, &built);
}

#[test]
fn proximity_clears_stale_links() {
    let mut monitors = get_monitor_info(true).unwrap();
    // a leftover link that matches no geometry must not survive the pass
    monitors[0].down = Some(2);
    monitors[2].up = Some(0);
    monitor_proximity(&mut monitors);
    assert_eq!(monitors[0].down, None);
    assert_eq!(monitors[2].up, None);
    assert_eq!(monitors[0].right, Some(1));
    assert_eq!(monitors[1].left, Some(0));
    assert_eq!(monitors[1].right, Some(2));
    assert_eq!(monitors[2].left, Some(1));
}

#[test]
fn proximity_measures_with_parent_footprint() {
    let mut monitors = get_monitor_info(true).unwrap();
    // a 50-wide monitor starting inside a 100-wide one is not adjacent to
    // it: the right edge of the first is at 100, not at 50
    monitors[0].displayed_resolution = (100, 100);
    monitors[0].position = (0, 0);
    monitors[1].displayed_resolution = (50, 50);
    monitors[1].position = (50, 0);
    monitors[2].position = (9000, 9000);
    monitor_proximity(&mut monitors);
    assert_eq!(monitors[0].right, None);
    assert_eq!(monitors[1].left, None);
    assert_eq!(monitors[0].left, None);
    assert_eq!(monitors[1].right, None);

    // moved to the true right edge, the pair links up symmetrically
    monitors[1].position = (100, 0);
    monitor_proximity(&mut monitors);
    assert_eq!(monitors[0].right, Some(1));
    assert_eq!(monitors[1].left, Some(0));
}
