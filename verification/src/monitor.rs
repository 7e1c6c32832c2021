//! The monitor record: one X11 output with a chosen mode, a footprint on
//! the virtual canvas, and four optional neighbor links (indices into the
//! monitor list). All geometry works on `displayed_resolution`, the
//! footprint after the fractional scale is applied.
//!
//! Fractional quantities are held in hundredths: `scale` is the scale
//! factor times 100 (so 100 means 1.0, one step is 5), `framerate` and the
//! entries of a mode's rate list are hertz times 100 (5994 means 59.94 Hz).

use vstd::prelude::*;
use vstd::seq_lib::*;

verus! {

/// Positions and sizes stay far below this bound, which leaves room for
/// every sum and difference the layout operations form.
pub const GEOM_BOUND: i64 = 0x4000_0000_0000;

/// One supported mode: a resolution and the rates (in hundredths of a
/// hertz) available at it.
pub struct Mode {
    pub resolution: (i64, i64),
    pub framerates: Vec<u32>,
}

/// Mathematical image of a `Mode`.
#[verifier::ext_equal]
pub ghost struct ModeV {
    pub resolution: (int, int),
    pub framerates: Seq<int>,
}

impl View for Mode {
    type V = ModeV;

    open spec fn view(&self) -> ModeV {
        ModeV {
            resolution: (self.resolution.0 as int, self.resolution.1 as int),
            framerates: self.framerates@.map_values(|f: u32| f as int),
        }
    }
}

impl DeepView for Mode {
    type V = ModeV;

    open spec fn deep_view(&self) -> ModeV {
        self.view()
    }
}

impl Clone for Mode {
    fn clone(&self) -> (res: Self)
        ensures
            res@ == self@,
    {
        let res = Mode { resolution: self.resolution, framerates: self.framerates.clone() };
        proof {
            assert(res.framerates@ =~= self.framerates@);
            assert(res@ =~= self@);
        }
        res
    }
}

/// One X11 output.
pub struct Monitor {
    pub name: String,
    pub resolution: (i64, i64),
    pub displayed_resolution: (i64, i64),
    pub available_resolutions: Vec<Mode>,
    pub scale: u32,
    pub framerate: u32,
    pub position: (i64, i64),
    pub is_primary: bool,
    pub is_selected: bool,
    pub is_enabled: bool,
    pub left: Option<usize>,
    pub right: Option<usize>,
    pub up: Option<usize>,
    pub down: Option<usize>,
}

/// Mathematical image of a `Monitor`.
#[verifier::ext_equal]
pub ghost struct MonitorV {
    pub name: Seq<char>,
    pub resolution: (int, int),
    pub displayed_resolution: (int, int),
    pub available_resolutions: Seq<ModeV>,
    pub scale: int,
    pub framerate: int,
    pub position: (int, int),
    pub is_primary: bool,
    pub is_selected: bool,
    pub is_enabled: bool,
    pub left: Option<int>,
    pub right: Option<int>,
    pub up: Option<int>,
    pub down: Option<int>,
}

pub open spec fn link_view(l: Option<usize>) -> Option<int> {
    match l {
        Some(j) => Some(j as int),
        None => None,
    }
}

impl View for Monitor {
    type V = MonitorV;

    open spec fn view(&self) -> MonitorV {
        MonitorV {
            name: self.name@,
            resolution: (self.resolution.0 as int, self.resolution.1 as int),
            displayed_resolution: (
                self.displayed_resolution.0 as int,
                self.displayed_resolution.1 as int,
            ),
            available_resolutions: self.available_resolutions.deep_view(),
            scale: self.scale as int,
            framerate: self.framerate as int,
            position: (self.position.0 as int, self.position.1 as int),
            is_primary: self.is_primary,
            is_selected: self.is_selected,
            is_enabled: self.is_enabled,
            left: link_view(self.left),
            right: link_view(self.right),
            up: link_view(self.up),
            down: link_view(self.down),
        }
    }
}

impl DeepView for Monitor {
    type V = MonitorV;

    open spec fn deep_view(&self) -> MonitorV {
        self.view()
    }
}

impl Clone for Monitor {
    fn clone(&self) -> (res: Self)
        ensures
            res@ == self@,
    {
        let res = Monitor {
            name: self.name.clone(),
            resolution: self.resolution,
            displayed_resolution: self.displayed_resolution,
            available_resolutions: self.available_resolutions.clone(),
            scale: self.scale,
            framerate: self.framerate,
            position: self.position,
            is_primary: self.is_primary,
            is_selected: self.is_selected,
            is_enabled: self.is_enabled,
            left: self.left,
            right: self.right,
            up: self.up,
            down: self.down,
        };
        proof {
            assert forall|i: int|
                0 <= i < self.available_resolutions.len() implies #[trigger] res
                .available_resolutions
                .deep_view()[i] == self.available_resolutions.deep_view()[i] by {
                assert(cloned::<Mode>(self.available_resolutions[i], res.available_resolutions[i]));
            }
            assert(res.available_resolutions.deep_view() =~= self.available_resolutions.deep_view());
            assert(res@ =~= self@);
        }
        res
    }
}

/// The ordered monitor list. Order carries identity: neighbor links are
/// indices into this sequence.
pub type Monitors = Vec<Monitor>;

/// The view of a whole monitor list.
pub open spec fn mons_view(ms: Monitors) -> Seq<MonitorV> {
    ms.deep_view()
}

// ---------------------------------------------------------------------------
// Well-formedness
// ---------------------------------------------------------------------------

pub open spec fn link_in_range(l: Option<int>, n: int) -> bool {
    match l {
        Some(j) => 0 <= j < n,
        None => true,
    }
}

/// Every neighbor link points inside the list.
pub open spec fn links_in_range(ms: Seq<MonitorV>) -> bool {
    forall|i: int|
        0 <= i < ms.len() ==> {
            &&& link_in_range(#[trigger] ms[i].left, ms.len() as int)
            &&& link_in_range(ms[i].right, ms.len() as int)
            &&& link_in_range(ms[i].up, ms.len() as int)
            &&& link_in_range(ms[i].down, ms.len() as int)
        }
}

pub open spec fn disp_ok_mon(m: MonitorV) -> bool {
    &&& 0 <= m.displayed_resolution.0 <= GEOM_BOUND
    &&& 0 <= m.displayed_resolution.1 <= GEOM_BOUND
    &&& -GEOM_BOUND <= m.resolution.0 <= GEOM_BOUND
    &&& -GEOM_BOUND <= m.resolution.1 <= GEOM_BOUND
}

/// Every footprint is a bounded, non-negative size.
pub open spec fn disp_ok(ms: Seq<MonitorV>) -> bool {
    forall|i: int| 0 <= i < ms.len() ==> disp_ok_mon(#[trigger] ms[i])
}

/// Every position is within `b` of the origin on both axes.
pub open spec fn pos_bounded(ms: Seq<MonitorV>, b: int) -> bool {
    forall|i: int|
        0 <= i < ms.len() ==> {
            &&& -b <= (#[trigger] ms[i]).position.0 <= b
            &&& -b <= ms[i].position.1 <= b
        }
}

/// The monitor lists handed to layout operations: links point inside the
/// list, sizes and positions are bounded, and the list is not absurdly
/// long — together these keep every intermediate sum far from the edges
/// of `i64`.
pub open spec fn wf_mons(ms: Seq<MonitorV>) -> bool {
    &&& links_in_range(ms)
    &&& disp_ok(ms)
    &&& pos_bounded(ms, GEOM_BOUND as int)
    &&& ms.len() <= 0x10000
}

// ---------------------------------------------------------------------------
// Mode lookup
// ---------------------------------------------------------------------------

/// The first mode entry with the given resolution, if any.
pub open spec fn find_mode(modes: Seq<ModeV>, res: (int, int)) -> Option<ModeV>
    decreases modes.len(),
{
    if modes.len() == 0 {
        None
    } else if modes[0].resolution == res {
        Some(modes[0])
    } else {
        find_mode(modes.drop_first(), res)
    }
}


/// A mode list containing `res` has a first entry for it, and whatever
/// `find_mode` returns is one of the entries.
pub proof fn lemma_find_mode_some(modes: Seq<ModeV>, res: (int, int))
    ensures
        (exists|k: int| 0 <= k < modes.len() && (#[trigger] modes[k]).resolution == res)
            ==> (find_mode(modes, res) is Some),
        (find_mode(modes, res) is Some) ==> exists|j: int|
            0 <= j < modes.len() && (#[trigger] modes[j]) == find_mode(modes, res)->Some_0,
    decreases modes.len(),
{
    if modes.len() > 0 {
        if modes[0].resolution == res {
        } else {
            lemma_find_mode_some(modes.drop_first(), res);
            assert forall|k: int|
                0 <= k < modes.len() && (#[trigger] modes[k]).resolution == res implies (find_mode(
                modes,
                res,
            ) is Some) by {
                if k > 0 {
                    assert(modes.drop_first()[k - 1].resolution == res);
                }
            }
            if find_mode(modes, res) is Some {
                let j0 = choose|j0: int|
                    0 <= j0 < modes.drop_first().len() && (#[trigger] modes.drop_first()[j0])
                        == find_mode(modes.drop_first(), res)->Some_0;
                assert(modes[j0 + 1] == find_mode(modes, res)->Some_0);
            }
        }
    }
}

/// The rates offered at a monitor's currently chosen resolution.
pub open spec fn rates_of(m: MonitorV) -> Option<Seq<int>> {
    match find_mode(m.available_resolutions, m.resolution) {
        Some(mode) => Some(mode.framerates),
        None => None,
    }
}

// ---------------------------------------------------------------------------
// Scale arithmetic
// ---------------------------------------------------------------------------

/// A native length under a scale in hundredths, truncated:
/// `floor(r / (scale/100))`.
pub open spec fn scaled_dim(r: int, scale: int) -> int {
    r * 100 / scale
}

pub open spec fn res_difference_spec(m: MonitorV) -> (int, int) {
    (
        scaled_dim(m.resolution.0, m.scale) - m.displayed_resolution.0,
        scaled_dim(m.resolution.1, m.scale) - m.displayed_resolution.1,
    )
}

// ---------------------------------------------------------------------------
// Sorted resolution list
// ---------------------------------------------------------------------------

/// Descending order on resolutions: wider first, then taller.
pub open spec fn res_ge(a: (i64, i64), b: (i64, i64)) -> bool {
    a.0 > b.0 || (a.0 == b.0 && a.1 >= b.1)
}

pub open spec fn sorted_desc(s: Seq<(i64, i64)>) -> bool {
    forall|i: int, j: int| 0 <= i < j < s.len() ==> res_ge(#[trigger] s[i], #[trigger] s[j])
}


/// Descending order on resolution pairs, at the mathematical level.
pub open spec fn res_ge_v(a: (int, int), b: (int, int)) -> bool {
    a.0 > b.0 || (a.0 == b.0 && a.1 >= b.1)
}

/// Insert `x` into a descending-sorted list, before the first entry that
/// is strictly smaller.
pub open spec fn insert_sorted(s: Seq<(int, int)>, x: (int, int)) -> Seq<(int, int)>
    decreases s.len(),
{
    if s.len() == 0 {
        seq![x]
    } else if res_ge_v(s[0], x) {
        seq![s[0]] + insert_sorted(s.drop_first(), x)
    } else {
        seq![x] + s
    }
}

/// The first `i` keys, insertion-sorted in order.
pub open spec fn sort_res_upto(keys: Seq<(int, int)>, i: int) -> Seq<(int, int)>
    decreases i,
{
    if i <= 0 {
        Seq::empty()
    } else {
        insert_sorted(sort_res_upto(keys, i - 1), keys[i - 1])
    }
}

/// The sorted resolution list: widest first, ties broken by height.
pub open spec fn sort_res_spec(keys: Seq<(int, int)>) -> Seq<(int, int)> {
    sort_res_upto(keys, keys.len() as int)
}

/// Inserting before the first strictly-smaller entry is what
/// `insert_sorted` does.
pub proof fn lemma_insert_sorted_at(s: Seq<(int, int)>, x: (int, int), p: int)
    requires
        0 <= p <= s.len(),
        forall|q: int| 0 <= q < p ==> res_ge_v(#[trigger] s[q], x),
        p < s.len() ==> !res_ge_v(s[p], x),
    ensures
        insert_sorted(s, x) == s.insert(p, x),
    decreases s.len(),
{
    if s.len() == 0 {
        assert(s.insert(0, x) =~= seq![x]);
    } else if p == 0 {
        assert(!res_ge_v(s[0], x));
        assert(seq![x] + s =~= s.insert(0, x));
    } else {
        assert(res_ge_v(s[0], x));
        assert forall|q: int| 0 <= q < p - 1 implies res_ge_v(#[trigger] s.drop_first()[q], x) by {
            assert(s.drop_first()[q] == s[q + 1]);
        }
        assert(p - 1 < s.drop_first().len() ==> !res_ge_v(s.drop_first()[p - 1], x));
        lemma_insert_sorted_at(s.drop_first(), x, p - 1);
        assert(seq![s[0]] + s.drop_first().insert(p - 1, x) =~= s.insert(p, x));
    }
}

/// The resolutions of a mode list, in list order.
pub open spec fn mode_resolutions(modes: Seq<ModeV>) -> Seq<(int, int)> {
    modes.map_values(|m: ModeV| m.resolution)
}

impl Monitor {
    /// The rate at `index` in the rate list of the currently chosen
    /// resolution. The caller owes invariant 7: the chosen resolution has
    /// an entry, and the index is inside it.
    pub fn get_framerate(&self, index: usize) -> (r: u32)
        requires
            rates_of(self@) is Some,
            index < rates_of(self@)->Some_0.len(),
        ensures
            r as int == rates_of(self@)->Some_0[index as int],
    {
        let ghost target = self@.resolution;
        let mut i: usize = 0;
        proof {
            assert(self@.available_resolutions.skip(0) =~= self@.available_resolutions);
        }
        while i < self.available_resolutions.len()
            invariant
                i <= self.available_resolutions.len(),
                rates_of(self@) is Some,
                index < rates_of(self@)->Some_0.len(),
                target == self@.resolution,
                find_mode(self@.available_resolutions.skip(i as int), target)
                    == find_mode(self@.available_resolutions, target),
            decreases self.available_resolutions.len() - i,
        {
            let mode = &self.available_resolutions[i];
            proof {
                let sk = self@.available_resolutions.skip(i as int);
                assert(sk[0] == self@.available_resolutions[i as int]);
                assert(sk.drop_first() =~= self@.available_resolutions.skip(i as int + 1));
            }
            if mode.resolution.0 == self.resolution.0 && mode.resolution.1 == self.resolution.1 {
                return mode.framerates[index];
            }
            i = i + 1;
        }
        proof {
            assert(self@.available_resolutions.skip(i as int).len() == 0);
            assert(false);
        }
        unreached()
    }


    /// How many rates the currently chosen resolution offers.
    pub fn get_framerate_count(&self) -> (r: usize)
        requires
            rates_of(self@) is Some,
        ensures
            r as int == rates_of(self@)->Some_0.len(),
    {
        let ghost target = self@.resolution;
        let mut i: usize = 0;
        proof {
            assert(self@.available_resolutions.skip(0) =~= self@.available_resolutions);
        }
        while i < self.available_resolutions.len()
            invariant
                i <= self.available_resolutions.len(),
                rates_of(self@) is Some,
                target == self@.resolution,
                find_mode(self@.available_resolutions.skip(i as int), target)
                    == find_mode(self@.available_resolutions, target),
            decreases self.available_resolutions.len() - i,
        {
            let mode = &self.available_resolutions[i];
            proof {
                let sk = self@.available_resolutions.skip(i as int);
                assert(sk[0] == self@.available_resolutions[i as int]);
                assert(sk.drop_first() =~= self@.available_resolutions.skip(i as int + 1));
            }
            if mode.resolution.0 == self.resolution.0 && mode.resolution.1 == self.resolution.1 {
                return mode.framerates.len();
            }
            i = i + 1;
        }
        proof {
            assert(self@.available_resolutions.skip(i as int).len() == 0);
            assert(false);
        }
        unreached()
    }

    /// Set the monitor's rate to the `index`-th rate of the chosen
    /// resolution.
    pub fn set_framerate(&mut self, index: usize)
        requires
            rates_of(old(self)@) is Some,
            index < rates_of(old(self)@)->Some_0.len(),
        ensures
            final(self)@ == (MonitorV {
                framerate: rates_of(old(self)@)->Some_0[index as int],
                ..old(self)@
            }),
    {
        self.framerate = self.get_framerate(index);
        proof {
            assert(final(self)@ =~= MonitorV {
                framerate: rates_of(old(self)@)->Some_0[index as int],
                ..old(self)@
            });
        }
    }

    /// How far the footprint will move when the current scale is applied
    /// to the native resolution: `floor(resolution/scale)` minus the
    /// current `displayed_resolution`, componentwise.
    pub fn get_res_difference(&self) -> (r: (i64, i64))
        requires
            self.scale >= 1,
            0 <= self.resolution.0 <= GEOM_BOUND,
            0 <= self.resolution.1 <= GEOM_BOUND,
            -GEOM_BOUND <= self.displayed_resolution.0,
            -GEOM_BOUND <= self.displayed_resolution.1,
        ensures
            (r.0 as int, r.1 as int) == res_difference_spec(self@),
    {
        let new_w = ((self.resolution.0 as u64 * 100) / (self.scale as u64)) as i64;
        let new_h = ((self.resolution.1 as u64 * 100) / (self.scale as u64)) as i64;
        (new_w - self.displayed_resolution.0, new_h - self.displayed_resolution.1)
    }

    /// Recompute the footprint from the native resolution and the scale.
    pub fn update_scale(&mut self)
        requires
            old(self).scale >= 1,
            0 <= old(self).resolution.0 <= GEOM_BOUND,
            0 <= old(self).resolution.1 <= GEOM_BOUND,
        ensures
            final(self)@ == (MonitorV {
                displayed_resolution: (
                    scaled_dim(old(self)@.resolution.0, old(self)@.scale),
                    scaled_dim(old(self)@.resolution.1, old(self)@.scale),
                ),
                ..old(self)@
            }),
    {
        let new_w = ((self.resolution.0 as u64 * 100) / (self.scale as u64)) as i64;
        let new_h = ((self.resolution.1 as u64 * 100) / (self.scale as u64)) as i64;
        self.displayed_resolution = (new_w, new_h);
        proof {
            assert(final(self)@ =~= MonitorV {
                displayed_resolution: (
                    scaled_dim(old(self)@.resolution.0, old(self)@.scale),
                    scaled_dim(old(self)@.resolution.1, old(self)@.scale),
                ),
                ..old(self)@
            });
        }
    }

    /// The supported resolutions, widest first, ties broken by height,
    /// tallest first. Deterministic and restartable.
    pub fn sort_resolutions(&self) -> (r: Vec<(i64, i64)>)
        ensures
            sorted_desc(r@),
            r@.map_values(|p: (i64, i64)| (p.0 as int, p.1 as int)) == sort_res_spec(
                mode_resolutions(self@.available_resolutions),
            ),
            r@.map_values(|p: (i64, i64)| (p.0 as int, p.1 as int)).to_multiset()
                == mode_resolutions(self@.available_resolutions).to_multiset(),
            r@.len() == self@.available_resolutions.len(),
    {
        let ghost all = mode_resolutions(self@.available_resolutions);
        let mut out: Vec<(i64, i64)> = Vec::new();
        let mut i: usize = 0;
        proof {
            assert(out@.map_values(|p: (i64, i64)| (p.0 as int, p.1 as int)) =~= all.take(0));
        }
        while i < self.available_resolutions.len()
            invariant
                i <= self.available_resolutions.len(),
                sorted_desc(out@),
                out@.len() == i,
                all == mode_resolutions(self@.available_resolutions),
                all.len() == self.available_resolutions.len(),
                out@.map_values(|p: (i64, i64)| (p.0 as int, p.1 as int)).to_multiset()
                    == all.take(i as int).to_multiset(),
                out@.map_values(|p: (i64, i64)| (p.0 as int, p.1 as int)) == sort_res_upto(
                    all,
                    i as int,
                ),
            decreases self.available_resolutions.len() - i,
        {
            let key = self.available_resolutions[i].resolution;
            let mut p: usize = 0;
            while p < out.len()
                invariant_except_break
                    p <= out.len(),
                    forall|q: int| 0 <= q < p ==> res_ge(#[trigger] out@[q], key),
                ensures
                    p <= out.len(),
                    forall|q: int| 0 <= q < p ==> res_ge(#[trigger] out@[q], key),
                    p < out.len() ==> !res_ge(out@[p as int], key),
                decreases out.len() - p,
            {
                let cur = out[p];
                if !(cur.0 > key.0 || (cur.0 == key.0 && cur.1 >= key.1)) {
                    break;
                }
                p = p + 1;
            }
            let ghost out_before = out@;
            out.insert(p, key);
            proof {
                let m = |pp: (i64, i64)| (pp.0 as int, pp.1 as int);
                assert(sorted_desc(out@)) by {
                    assert forall|x: int, y: int| 0 <= x < y < out@.len() implies res_ge(
                        out@[x],
                        out@[y],
                    ) by {
                        if x < p && y > p {
                            assert(out@[x] == out_before[x]);
                            assert(out@[y] == out_before[y - 1]);
                        } else if x == p {
                            assert(out@[y] == out_before[y - 1]);
                            assert(!res_ge(out_before[p as int], key) ==> res_ge(key, out_before[p as int]));
                        } else if y == p {
                            assert(out@[x] == out_before[x]);
                        }
                    }
                }
                assert(out@.map_values(m) =~= out_before.map_values(m).insert(
                    p as int,
                    (key.0 as int, key.1 as int),
                ));
                to_multiset_insert(out_before.map_values(m), p as int, (key.0 as int, key.1 as int));
                assert forall|q: int| 0 <= q < p implies res_ge_v(
                    #[trigger] out_before.map_values(m)[q],
                    (key.0 as int, key.1 as int),
                ) by {
                    assert(res_ge(out_before[q], key));
                }
                assert(p < out_before.len() ==> !res_ge_v(
                    out_before.map_values(m)[p as int],
                    (key.0 as int, key.1 as int),
                ));
                lemma_insert_sorted_at(
                    out_before.map_values(m),
                    (key.0 as int, key.1 as int),
                    p as int,
                );
                assert(all.take(i as int + 1) =~= all.take(i as int).push(all[i as int]));
                to_multiset_build(all.take(i as int), all[i as int]);
                assert(all[i as int] == (key.0 as int, key.1 as int));
            }
            i = i + 1;
        }
        proof {
            assert(all.take(i as int) =~= all);
        }
        out
    }
}

} // verus!
