//! The built-in three-monitor arrangement used when no live display
//! server should be queried: one 2560x1440 primary output at the origin
//! and two 1920x1080 outputs in a row to its right, each with its usual
//! mode table. Test suites start from this model.

use vstd::prelude::*;

use crate::monitor::{mons_view, Mode, ModeV, Monitor, MonitorV, Monitors};

verus! {

/// The mode table shared by the two DP outputs.
pub open spec fn dp_modes_spec() -> Seq<ModeV> {
    seq![
        ModeV { resolution: (1920, 1080), framerates: seq![6000, 5994, 5000] },
        ModeV { resolution: (1680, 1050), framerates: seq![6000] },
        ModeV { resolution: (1600, 900), framerates: seq![6000] },
        ModeV { resolution: (1280, 1024), framerates: seq![7502, 6002] },
        ModeV { resolution: (1440, 900), framerates: seq![5989] },
        ModeV { resolution: (1280, 800), framerates: seq![5991] },
        ModeV { resolution: (1280, 720), framerates: seq![6000, 5994, 5000] },
        ModeV { resolution: (1024, 768), framerates: seq![7503, 6000] },
        ModeV { resolution: (800, 600), framerates: seq![7500, 6032] },
        ModeV { resolution: (640, 480), framerates: seq![7500, 6000, 5994] },
    ]
}

/// The mode table of the HDMI output.
pub open spec fn hdmi_modes_spec() -> Seq<ModeV> {
    seq![
        ModeV { resolution: (2560, 1440), framerates: seq![6000, 5995] },
        ModeV { resolution: (1920, 1200), framerates: seq![6000] },
        ModeV { resolution: (1920, 1080), framerates: seq![6000, 5994, 5000] },
        ModeV { resolution: (1600, 1200), framerates: seq![6000] },
        ModeV { resolution: (1680, 1050), framerates: seq![6000] },
        ModeV { resolution: (1280, 1024), framerates: seq![7502, 6002] },
        ModeV { resolution: (1440, 900), framerates: seq![5989] },
        ModeV { resolution: (1280, 800), framerates: seq![5991] },
        ModeV { resolution: (1280, 720), framerates: seq![6000, 5994, 5000] },
        ModeV { resolution: (1024, 768), framerates: seq![7503, 6000] },
        ModeV { resolution: (800, 600), framerates: seq![7500, 6032] },
        ModeV { resolution: (640, 480), framerates: seq![7500, 6000, 5994] },
    ]
}

pub open spec fn debug_monitor_spec(
    name: Seq<char>,
    w: int,
    h: int,
    x: int,
    primary: bool,
    modes: Seq<ModeV>,
) -> MonitorV {
    MonitorV {
        name: name,
        resolution: (w, h),
        displayed_resolution: (w, h),
        available_resolutions: modes,
        scale: 100,
        framerate: 6000,
        position: (x, 0),
        is_primary: primary,
        is_selected: false,
        is_enabled: true,
        left: None,
        right: None,
        up: None,
        down: None,
    }
}

/// The whole fixture: HDMI-1 at the origin, DP-1 and DP-2 to its right.
/// Links start out absent; callers derive them with the proximity pass.
pub open spec fn debug_monitors_spec() -> Seq<MonitorV> {
    seq![
        debug_monitor_spec("HDMI-1"@, 2560, 1440, 0, true, hdmi_modes_spec()),
        debug_monitor_spec("DP-1"@, 1920, 1080, 2560, false, dp_modes_spec()),
        debug_monitor_spec("DP-2"@, 1920, 1080, 4480, false, dp_modes_spec()),
    ]
}


/// The fixture as the query tool would report it; parsing this text
/// yields exactly the model `debug_monitor_info` builds.
pub fn xrandr_debug_output() -> &'static str {
    "Screen 0: minimum 320 x 200, current 5760 x 1440, maximum 16384 x 16384\nHDMI-1 connected primary 2560x1440+0+0 (normal left inverted right x axis y axis) 597mm x 336mm\n   2560x1440     60.00*+  59.95\n   1920x1200     60.00\n   1920x1080     60.00    59.94    50.00\n   1600x1200     60.00\n   1680x1050     60.00\n   1280x1024     75.02    60.02\n   1440x900      59.89\n   1280x800      59.91\n   1280x720      60.00    59.94    50.00\n   1024x768      75.03    60.00\n   800x600       75.00    60.32\n   640x480       75.00    60.00    59.94\nDP-1 connected 1920x1080+2560+0 (normal left inverted right x axis y axis) 521mm x 293mm\n   1920x1080     60.00*+  59.94    50.00\n   1680x1050     60.00\n   1600x900      60.00\n   1280x1024     75.02    60.02\n   1440x900      59.89\n   1280x800      59.91\n   1280x720      60.00    59.94    50.00\n   1024x768      75.03    60.00\n   800x600       75.00    60.32\n   640x480       75.00    60.00    59.94\nDP-2 connected 1920x1080+4480+0 (normal left inverted right x axis y axis) 521mm x 293mm\n   1920x1080     60.00*+  59.94    50.00\n   1680x1050     60.00\n   1600x900      60.00\n   1280x1024     75.02    60.02\n   1440x900      59.89\n   1280x800      59.91\n   1280x720      60.00    59.94    50.00\n   1024x768      75.03    60.00\n   800x600       75.00    60.32\n   640x480       75.00    60.00    59.94\n"
}

/// The fixture's mode tables list each resolution once, like every table
/// the report parser builds.
pub proof fn lemma_debug_modes_unique()
    ensures
        forall|k: int|
            0 <= k < debug_monitors_spec().len() ==> crate::xrandr::modes_unique(
                (#[trigger] debug_monitors_spec()[k]).available_resolutions,
            ),
{
    assert(crate::xrandr::modes_unique(hdmi_modes_spec()));
    assert(crate::xrandr::modes_unique(dp_modes_spec()));
    assert forall|k: int| 0 <= k < debug_monitors_spec().len() implies crate::xrandr::modes_unique(
        (#[trigger] debug_monitors_spec()[k]).available_resolutions,
    ) by {
        if k == 0 {
            assert(debug_monitors_spec()[0].available_resolutions == hdmi_modes_spec());
        } else if k == 1 {
            assert(debug_monitors_spec()[1].available_resolutions == dp_modes_spec());
        } else {
            assert(debug_monitors_spec()[2].available_resolutions == dp_modes_spec());
        }
    }
}

fn rates1(a: u32) -> (r: Vec<u32>)
    ensures
        r@.map_values(|f: u32| f as int) =~= seq![a as int],
{
    let mut r: Vec<u32> = Vec::new();
    r.push(a);
    r
}

fn rates2(a: u32, b: u32) -> (r: Vec<u32>)
    ensures
        r@.map_values(|f: u32| f as int) =~= seq![a as int, b as int],
{
    let mut r: Vec<u32> = Vec::new();
    r.push(a);
    r.push(b);
    r
}

fn rates3(a: u32, b: u32, c: u32) -> (r: Vec<u32>)
    ensures
        r@.map_values(|f: u32| f as int) =~= seq![a as int, b as int, c as int],
{
    let mut r: Vec<u32> = Vec::new();
    r.push(a);
    r.push(b);
    r.push(c);
    r
}

fn dp_modes() -> (modes: Vec<Mode>)
    ensures
        modes.deep_view() =~= dp_modes_spec(),
{
    let mut modes: Vec<Mode> = Vec::new();
    modes.push(Mode { resolution: (1920, 1080), framerates: rates3(6000, 5994, 5000) });
    modes.push(Mode { resolution: (1680, 1050), framerates: rates1(6000) });
    modes.push(Mode { resolution: (1600, 900), framerates: rates1(6000) });
    modes.push(Mode { resolution: (1280, 1024), framerates: rates2(7502, 6002) });
    modes.push(Mode { resolution: (1440, 900), framerates: rates1(5989) });
    modes.push(Mode { resolution: (1280, 800), framerates: rates1(5991) });
    modes.push(Mode { resolution: (1280, 720), framerates: rates3(6000, 5994, 5000) });
    modes.push(Mode { resolution: (1024, 768), framerates: rates2(7503, 6000) });
    modes.push(Mode { resolution: (800, 600), framerates: rates2(7500, 6032) });
    modes.push(Mode { resolution: (640, 480), framerates: rates3(7500, 6000, 5994) });
    modes
}

fn hdmi_modes() -> (modes: Vec<Mode>)
    ensures
        modes.deep_view() =~= hdmi_modes_spec(),
{
    let mut modes: Vec<Mode> = Vec::new();
    modes.push(Mode { resolution: (2560, 1440), framerates: rates2(6000, 5995) });
    modes.push(Mode { resolution: (1920, 1200), framerates: rates1(6000) });
    modes.push(Mode { resolution: (1920, 1080), framerates: rates3(6000, 5994, 5000) });
    modes.push(Mode { resolution: (1600, 1200), framerates: rates1(6000) });
    modes.push(Mode { resolution: (1680, 1050), framerates: rates1(6000) });
    modes.push(Mode { resolution: (1280, 1024), framerates: rates2(7502, 6002) });
    modes.push(Mode { resolution: (1440, 900), framerates: rates1(5989) });
    modes.push(Mode { resolution: (1280, 800), framerates: rates1(5991) });
    modes.push(Mode { resolution: (1280, 720), framerates: rates3(6000, 5994, 5000) });
    modes.push(Mode { resolution: (1024, 768), framerates: rates2(7503, 6000) });
    modes.push(Mode { resolution: (800, 600), framerates: rates2(7500, 6032) });
    modes.push(Mode { resolution: (640, 480), framerates: rates3(7500, 6000, 5994) });
    modes
}

fn debug_monitor(
    name: &str,
    w: i64,
    h: i64,
    x: i64,
    primary: bool,
    modes: Vec<Mode>,
) -> (m: Monitor)
    ensures
        m@ == debug_monitor_spec(name@, w as int, h as int, x as int, primary, modes.deep_view()),
{
    let m = Monitor {
        name: name.to_owned(),
        resolution: (w, h),
        displayed_resolution: (w, h),
        available_resolutions: modes,
        scale: 100,
        framerate: 6000,
        position: (x, 0),
        is_primary: primary,
        is_selected: false,
        is_enabled: true,
        left: None,
        right: None,
        up: None,
        down: None,
    };
    proof {
        assert(m@ =~= debug_monitor_spec(
            name@,
            w as int,
            h as int,
            x as int,
            primary,
            m.available_resolutions.deep_view(),
        ));
    }
    m
}

/// Build the fixture model.
pub fn debug_monitor_info() -> (monitors: Monitors)
    ensures
        mons_view(monitors) == debug_monitors_spec(),
{
    let mut monitors: Monitors = Vec::new();
    monitors.push(debug_monitor("HDMI-1", 2560, 1440, 0, true, hdmi_modes()));
    monitors.push(debug_monitor("DP-1", 1920, 1080, 2560, false, dp_modes()));
    monitors.push(debug_monitor("DP-2", 1920, 1080, 4480, false, dp_modes()));
    proof {
        assert(mons_view(monitors) =~= debug_monitors_spec());
    }
    monitors
}

} // verus!
