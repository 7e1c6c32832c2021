//! Serialization of the model into the external tool's argument vector:
//! for every enabled monitor, in list order,
//! `--output <name> [--primary] --mode WxH --rate R --pos XxY --scale S`,
//! where the scale handed out is the reciprocal of the internal one, with
//! two decimal places.

use vstd::prelude::*;

use crate::monitor::{mons_view, MonitorV, Monitors};
use crate::App;

verus! {

/// The decimal digit characters.
pub open spec fn dec_digit(d: int) -> char {
    if d == 0 {
        '0'
    } else if d == 1 {
        '1'
    } else if d == 2 {
        '2'
    } else if d == 3 {
        '3'
    } else if d == 4 {
        '4'
    } else if d == 5 {
        '5'
    } else if d == 6 {
        '6'
    } else if d == 7 {
        '7'
    } else if d == 8 {
        '8'
    } else {
        '9'
    }
}

/// The decimal digits of `n`, most significant first, no padding.
pub open spec fn dec_digits(n: nat) -> Seq<char>
    decreases n,
{
    if n < 10 {
        seq![dec_digit(n as int)]
    } else {
        dec_digits(n / 10) + seq![dec_digit((n % 10) as int)]
    }
}

/// A signed integer in decimal.
pub open spec fn int_str(i: int) -> Seq<char> {
    if i < 0 {
        seq!['-'] + dec_digits((-i) as nat)
    } else {
        dec_digits(i as nat)
    }
}

/// A rate in hundredths of a hertz, written the short way: no trailing
/// zero decimals (6000 is "60", 6050 is "60.5", 5994 is "59.94").
pub open spec fn rate_str(f: int) -> Seq<char> {
    let whole = f / 100;
    let frac = f % 100;
    if frac == 0 {
        dec_digits(whole as nat)
    } else if frac % 10 == 0 {
        dec_digits(whole as nat) + seq!['.'] + dec_digits((frac / 10) as nat)
    } else if frac < 10 {
        dec_digits(whole as nat) + seq!['.', '0'] + dec_digits(frac as nat)
    } else {
        dec_digits(whole as nat) + seq!['.'] + dec_digits(frac as nat)
    }
}

/// The reciprocal of the internal scale (in hundredths), rounded half up
/// to two decimals and always written with both of them.
pub open spec fn scale_str(s: int) -> Seq<char> {
    let v = (10000 + s / 2) / s;
    let whole = v / 100;
    let frac = v % 100;
    dec_digits(whole as nat) + seq!['.'] + (if frac < 10 {
        seq!['0'] + dec_digits(frac as nat)
    } else {
        dec_digits(frac as nat)
    })
}

/// The argument slice one enabled monitor contributes.
pub open spec fn monitor_args(m: MonitorV, debug: bool) -> Seq<Seq<char>> {
    (if debug {
        seq!["\n> "@]
    } else {
        Seq::<Seq<char>>::empty()
    }) + seq!["--output"@, m.name] + (if m.is_primary {
        seq!["--primary"@]
    } else {
        Seq::<Seq<char>>::empty()
    }) + seq![
        "--mode"@,
        int_str(m.resolution.0) + seq!['x'] + int_str(m.resolution.1),
        "--rate"@,
        rate_str(m.framerate),
        "--pos"@,
        int_str(m.position.0) + seq!['x'] + int_str(m.position.1),
        "--scale"@,
        scale_str(m.scale),
    ]
}

/// The argument vector of the first `k` monitors.
pub open spec fn args_upto(ms: Seq<MonitorV>, debug: bool, k: int) -> Seq<Seq<char>>
    decreases k,
{
    if k <= 0 {
        Seq::empty()
    } else {
        args_upto(ms, debug, k - 1) + (if ms[k - 1].is_enabled {
            monitor_args(ms[k - 1], debug)
        } else {
            Seq::<Seq<char>>::empty()
        })
    }
}

/// The whole argument vector: every enabled monitor, in list order,
/// disabled ones omitted entirely.
pub open spec fn args_spec(ms: Seq<MonitorV>, debug: bool) -> Seq<Seq<char>> {
    args_upto(ms, debug, ms.len() as int)
}

/// Relies on the standard decimal formatting of `u64`: the digits of the
/// value, most significant first, no sign and no padding.
#[verifier::external_body]
fn u64_string(n: u64) -> (r: String)
    ensures
        r@ == dec_digits(n as nat),
{
    n.to_string()
}

/// Relies on `format!` concatenating its two pieces in order.
#[verifier::external_body]
fn concat_str(a: &str, b: &str) -> (r: String)
    ensures
        r@ == a@ + b@,
{
    format!("{}{}", a, b)
}

fn i64_string(n: i64) -> (r: String)
    requires
        n > i64::MIN,
    ensures
        r@ == int_str(n as int),
{
    if n < 0 {
        let r = concat_str("-", u64_string((-n) as u64).as_str());
        proof {
            assert("-"@ =~= seq!['-']) by {
                reveal_strlit("-");
            }
            assert(r@ =~= int_str(n as int));
        }
        r
    } else {
        u64_string(n as u64)
    }
}

fn pair_string(a: i64, b: i64) -> (r: String)
    requires
        a > i64::MIN,
        b > i64::MIN,
    ensures
        r@ == int_str(a as int) + seq!['x'] + int_str(b as int),
{
    let left = concat_str(i64_string(a).as_str(), "x");
    let r = concat_str(left.as_str(), i64_string(b).as_str());
    proof {
        assert("x"@ =~= seq!['x']) by {
            reveal_strlit("x");
        }
        assert(r@ =~= int_str(a as int) + seq!['x'] + int_str(b as int));
    }
    r
}

fn rate_string(f: u32) -> (r: String)
    ensures
        r@ == rate_str(f as int),
{
    let whole = f / 100;
    let frac = f % 100;
    if frac == 0 {
        u64_string(whole as u64)
    } else if frac % 10 == 0 {
        let left = concat_str(u64_string(whole as u64).as_str(), ".");
        let r = concat_str(left.as_str(), u64_string((frac / 10) as u64).as_str());
        proof {
            assert("."@ =~= seq!['.']) by {
                reveal_strlit(".");
            }
            assert(r@ =~= rate_str(f as int));
        }
        r
    } else if frac < 10 {
        let left = concat_str(u64_string(whole as u64).as_str(), ".0");
        let r = concat_str(left.as_str(), u64_string(frac as u64).as_str());
        proof {
            assert(".0"@ =~= seq!['.', '0']) by {
                reveal_strlit(".0");
            }
            assert(r@ =~= rate_str(f as int));
        }
        r
    } else {
        let left = concat_str(u64_string(whole as u64).as_str(), ".");
        let r = concat_str(left.as_str(), u64_string(frac as u64).as_str());
        proof {
            assert("."@ =~= seq!['.']) by {
                reveal_strlit(".");
            }
            assert(r@ =~= rate_str(f as int));
        }
        r
    }
}

fn scale_string(s: u32) -> (r: String)
    requires
        s >= 1,
    ensures
        r@ == scale_str(s as int),
{
    let v = (10000 + s / 2) / s;
    let whole = v / 100;
    let frac = v % 100;
    let left = concat_str(u64_string(whole as u64).as_str(), ".");
    let r = if frac < 10 {
        let mid = concat_str(left.as_str(), "0");
        concat_str(mid.as_str(), u64_string(frac as u64).as_str())
    } else {
        concat_str(left.as_str(), u64_string(frac as u64).as_str())
    };
    proof {
        assert("."@ =~= seq!['.']) by {
            reveal_strlit(".");
        }
        assert("0"@ =~= seq!['0']) by {
            reveal_strlit("0");
        }
        assert(r@ =~= scale_str(s as int));
    }
    r
}

/// Turn the model into the external tool's argument vector. With `debug`
/// set, a visual separator precedes each monitor's slice, for the command
/// preview popup.
pub fn convert_monitors_to_args(monitors: &Monitors, debug: bool) -> (args: Vec<String>)
    requires
        forall|k: int|
            0 <= k < mons_view(*monitors).len() ==> {
                &&& (#[trigger] mons_view(*monitors)[k]).scale >= 1
                &&& mons_view(*monitors)[k].position.0 > i64::MIN
                &&& mons_view(*monitors)[k].position.1 > i64::MIN
                &&& mons_view(*monitors)[k].resolution.0 > i64::MIN
                &&& mons_view(*monitors)[k].resolution.1 > i64::MIN
            },
    ensures
        args@.map_values(|s: String| s@) == args_spec(mons_view(*monitors), debug),
{
    let ghost ms = mons_view(*monitors);
    let mut args: Vec<String> = Vec::new();
    let mut k: usize = 0;
    proof {
        assert(args@.map_values(|s: String| s@) =~= args_upto(ms, debug, 0));
    }
    while k < monitors.len()
        invariant
            k <= monitors.len(),
            monitors.len() == ms.len(),
            ms == mons_view(*monitors),
            args@.map_values(|s: String| s@) == args_upto(ms, debug, k as int),
            forall|q: int|
                0 <= q < ms.len() ==> {
                    &&& (#[trigger] ms[q]).scale >= 1
                    &&& ms[q].position.0 > i64::MIN
                    &&& ms[q].position.1 > i64::MIN
                    &&& ms[q].resolution.0 > i64::MIN
                    &&& ms[q].resolution.1 > i64::MIN
                },
        decreases monitors.len() - k,
    {
        let ghost before = args@.map_values(|s: String| s@);
        let element = &monitors[k];
        proof {
            assert(element@ == ms[k as int]);
        }
        if element.is_enabled {
            if debug {
                args.push("\n> ".to_owned());
            }
            args.push("--output".to_owned());
            args.push(element.name.clone());
            if element.is_primary {
                args.push("--primary".to_owned());
            }
            args.push("--mode".to_owned());
            args.push(pair_string(element.resolution.0, element.resolution.1));
            args.push("--rate".to_owned());
            args.push(rate_string(element.framerate));
            args.push("--pos".to_owned());
            args.push(pair_string(element.position.0, element.position.1));
            args.push("--scale".to_owned());
            args.push(scale_string(element.scale));
        }
        proof {
            assert(args@.map_values(|s: String| s@) =~= before + (if ms[k as int].is_enabled {
                monitor_args(ms[k as int], debug)
            } else {
                Seq::<Seq<char>>::empty()
            }));
            assert(args@.map_values(|s: String| s@) =~= args_upto(ms, debug, k as int + 1));
        }
        k = k + 1;
    }
    args
}

/// What pressing the save key hands the external tool, stated against the
/// dispatcher: the model is unchanged, and the arguments serialize the
/// very model the user sees.
pub fn serialize_for_apply(monitors: &Monitors, app: &App) -> (args: Option<Vec<String>>)
    requires
        forall|k: int|
            0 <= k < mons_view(*monitors).len() ==> {
                &&& (#[trigger] mons_view(*monitors)[k]).scale >= 1
                &&& mons_view(*monitors)[k].position.0 > i64::MIN
                &&& mons_view(*monitors)[k].position.1 > i64::MIN
                &&& mons_view(*monitors)[k].resolution.0 > i64::MIN
                &&& mons_view(*monitors)[k].resolution.1 > i64::MIN
            },
    ensures
        (args is Some) <==> (!app.debug && crate::tui::is_main_state(app.state)),
        args is Some ==> args->Some_0@.map_values(|s: String| s@) == args_spec(
            mons_view(*monitors),
            false,
        ),
{
    if !app.debug && matches!(
        app.state,
        crate::State::MonitorEdit
            | crate::State::MonitorSwap
            | crate::State::MenuSelect
            | crate::State::InfoEdit,
    ) {
        Some(convert_monitors_to_args(monitors, false))
    } else {
        None
    }
}

} // verus!
