use crate::calibration::{OverlayConfig, OverlayResult, OverlayStep};
use crate::solver::MonitorRect;
use vstd::prelude::*;

verus! {

/// How close, in pixels along the calibration axis, a press must land to a
/// line to pick it up.
pub const HIT_TOLERANCE: i64 = 20;

/// The keys that the interaction reacts to.
#[derive(Clone, Copy, Debug, PartialEq, Eq, Structural)]
pub enum OverlayKey {
    Enter,
    Escape,
    Up,
    Down,
    Left,
    Right,
    Other,
}

/// `v` clamped into the range of `i32`.
pub open spec fn clamp_i32(v: int) -> i32 {
    if v < i32::MIN { i32::MIN } else if v > i32::MAX { i32::MAX } else { v as i32 }
}

fn clamp_i32_exec(v: i64) -> (r: i32)
    ensures
        r == clamp_i32(v as int),
{
    if v < i32::MIN as i64 {
        i32::MIN
    } else if v > i32::MAX as i64 {
        i32::MAX
    } else {
        v as i32
    }
}

/// The logical state of one interactive step for one pair of monitors.
/// Line positions and the gap saturate at the bounds of `i32`.
#[derive(Clone, Copy, Debug)]
pub struct OverlayState {
    pub step: OverlayStep,
    /// The monitor being calibrated and the one it is calibrated against.
    pub m1: MonitorRect,
    pub m2: MonitorRect,
    pub bind_horizontal: bool,
    /// `[near on m1, near on m2, far on m1, far on m2]`.
    pub segments: [i32; 4],
    pub gap: i32,
    pub mid_m1: i32,
    pub mid_m2: i32,
    pub selected: Option<usize>,
    pub dragging: bool,
    pub drag_start: i32,
    pub drag_start_val: i32,
    pub last_interacted: Option<usize>,
    pub confirmed: bool,
    pub cancelled: bool,
}

/// A rectangle whose coordinates and extents stay clear of overflow.
pub open spec fn rect_ok(r: MonitorRect) -> bool {
    &&& -0x1_0000_0000 <= r.x <= 0x1_0000_0000
    &&& -0x1_0000_0000 <= r.y <= 0x1_0000_0000
    &&& 0 <= r.w <= 0xFFFF_FFFF
    &&& 0 <= r.h <= 0xFFFF_FFFF
}

/// The four lines start at a quarter and three quarters of the smaller
/// monitor's extent along the calibration axis, from each monitor's origin.
pub open spec fn initial_segments(m1: MonitorRect, m2: MonitorRect, horizontal: bool) -> [i32; 4] {
    let (o1, o2, ext) = if horizontal {
        (m1.y as int, m2.y as int, if m1.h <= m2.h { m1.h as int } else { m2.h as int })
    } else {
        (m1.x as int, m2.x as int, if m1.w <= m2.w { m1.w as int } else { m2.w as int })
    };
    [clamp_i32(o1 + ext / 4), clamp_i32(o2 + ext / 4), clamp_i32(o1 + 3 * ext / 4), clamp_i32(o2 + 3 * ext / 4)]
}

/// The default midpoints: each monitor's centre along the calibration axis.
pub open spec fn default_middles(m1: MonitorRect, m2: MonitorRect, horizontal: bool) -> [i32; 2] {
    if horizontal {
        [clamp_i32(m1.y + m1.h / 2), clamp_i32(m2.y + m2.h / 2)]
    } else {
        [clamp_i32(m1.x + m1.w / 2), clamp_i32(m2.x + m2.w / 2)]
    }
}

impl OverlayState {
    /// Both rectangles are in range and the selections name one of the four lines.
    pub open spec fn wf(&self) -> bool {
        &&& rect_ok(self.m1)
        &&& rect_ok(self.m2)
        &&& self.selected is Some ==> self.selected->Some_0 < 4
        &&& self.last_interacted is Some ==> self.last_interacted->Some_0 < 4
    }

    /// The session has reached `Confirmed` or `Cancelled`.
    pub open spec fn is_done(&self) -> bool {
        self.confirmed || self.cancelled
    }

    /// Line `i` lies under the point: within the other coordinate's extent of
    /// its monitor and within the tolerance of its position.
    pub open spec fn hits(&self, i: int, mx: i32, my: i32) -> bool {
        let m = if i % 2 == 0 { self.m1 } else { self.m2 };
        let line = self.segments[i] as int;
        if self.bind_horizontal {
            m.x <= mx <= m.x + m.w && -HIT_TOLERANCE <= my - line <= HIT_TOLERANCE
        } else {
            m.y <= my <= m.y + m.h && -HIT_TOLERANCE <= mx - line <= HIT_TOLERANCE
        }
    }

    /// The first line, in the order of `segments`, under the point.
    pub open spec fn hit_test_spec(&self, mx: i32, my: i32) -> Option<usize> {
        if self.hits(0, mx, my) {
            Some(0usize)
        } else if self.hits(1, mx, my) {
            Some(1usize)
        } else if self.hits(2, mx, my) {
            Some(2usize)
        } else if self.hits(3, mx, my) {
            Some(3usize)
        } else {
            None
        }
    }

    /// Opens a step for the pair that `config` names.
    pub fn new(config: &OverlayConfig) -> (r: OverlayState)
        requires
            config.m1_idx < config.monitors@.len(),
            config.m2_idx < config.monitors@.len(),
            rect_ok(config.monitors@[config.m1_idx as int]),
            rect_ok(config.monitors@[config.m2_idx as int]),
        ensures
            r.wf(),
            r.step == config.step,
            r.m1 == config.monitors@[config.m1_idx as int],
            r.m2 == config.monitors@[config.m2_idx as int],
            r.bind_horizontal == config.bind_horizontal,
            r.segments@ == if config.step == OverlayStep::Scale {
                initial_segments(r.m1, r.m2, r.bind_horizontal)@
            } else {
                seq![0i32, 0i32, 0i32, 0i32]
            },
            r.gap == 0,
            [r.mid_m1, r.mid_m2] == match config.temp_middles {
                Some(m) => m,
                None => default_middles(r.m1, r.m2, r.bind_horizontal),
            },
            r.selected is None,
            !r.dragging,
            r.last_interacted is None,
            !r.confirmed,
            !r.cancelled,
    {
        let m1 = config.monitors[config.m1_idx];
        let m2 = config.monitors[config.m2_idx];
        let h = config.bind_horizontal;
        let segments: [i32; 4] = if config.step == OverlayStep::Scale {
            let (o1, o2, ext) = if h {
                (m1.y, m2.y, if m1.h <= m2.h { m1.h } else { m2.h })
            } else {
                (m1.x, m2.x, if m1.w <= m2.w { m1.w } else { m2.w })
            };
            [
                clamp_i32_exec(o1 + ext / 4),
                clamp_i32_exec(o2 + ext / 4),
                clamp_i32_exec(o1 + 3 * ext / 4),
                clamp_i32_exec(o2 + 3 * ext / 4),
            ]
        } else {
            [0, 0, 0, 0]
        };
        let middles: [i32; 2] = match config.temp_middles {
            Some(m) => m,
            None => if h {
                [clamp_i32_exec(m1.y + m1.h / 2), clamp_i32_exec(m2.y + m2.h / 2)]
            } else {
                [clamp_i32_exec(m1.x + m1.w / 2), clamp_i32_exec(m2.x + m2.w / 2)]
            },
        };
        proof {
            if config.step == OverlayStep::Scale {
                assert(segments@ =~= initial_segments(m1, m2, h)@);
            } else {
                assert(segments@ =~= seq![0i32, 0i32, 0i32, 0i32]);
            }
        }
        OverlayState {
            step: config.step,
            m1,
            m2,
            bind_horizontal: h,
            segments,
            gap: 0,
            mid_m1: middles[0],
            mid_m2: middles[1],
            selected: None,
            dragging: false,
            drag_start: 0,
            drag_start_val: 0,
            last_interacted: None,
            confirmed: false,
            cancelled: false,
        }
    }

    fn hits_exec(&self, i: usize, mx: i32, my: i32) -> (r: bool)
        requires
            self.wf(),
            i < 4,
        ensures
            r == self.hits(i as int, mx, my),
    {
        let m = if i % 2 == 0 { self.m1 } else { self.m2 };
        let line = self.segments[i] as i64;
        if self.bind_horizontal {
            m.x <= mx as i64 && mx as i64 <= m.x + m.w && -HIT_TOLERANCE <= my as i64 - line && my as i64 - line
                <= HIT_TOLERANCE
        } else {
            m.y <= my as i64 && my as i64 <= m.y + m.h && -HIT_TOLERANCE <= mx as i64 - line && mx as i64 - line
                <= HIT_TOLERANCE
        }
    }

    /// The line a press at `(mx, my)` picks up, if any.
    pub fn hit_test_scale(&self, mx: i32, my: i32) -> (r: Option<usize>)
        requires
            self.wf(),
        ensures
            r == self.hit_test_spec(mx, my),
    {
        let mut i: usize = 0;
        while i < 4
            invariant
                self.wf(),
                0 <= i <= 4,
                forall|j: int| 0 <= j < i ==> !self.hits(j, mx, my),
            decreases 4 - i,
        {
            if self.hits_exec(i, mx, my) {
                return Some(i);
            }
            i += 1;
        }
        None
    }

    /// The pair, step and midpoints are those of `o`.
    pub open spec fn same_setup(&self, o: OverlayState) -> bool {
        &&& self.step == o.step
        &&& self.m1 == o.m1
        &&& self.m2 == o.m2
        &&& self.bind_horizontal == o.bind_horizontal
        &&& self.mid_m1 == o.mid_m1
        &&& self.mid_m2 == o.mid_m2
    }

    /// The pointer and selection fields are those of `o`.
    pub open spec fn same_pointer(&self, o: OverlayState) -> bool {
        &&& self.selected == o.selected
        &&& self.dragging == o.dragging
        &&& self.drag_start == o.drag_start
        &&& self.drag_start_val == o.drag_start_val
        &&& self.last_interacted == o.last_interacted
    }

    /// The adjusted values are those of `o`.
    pub open spec fn same_values(&self, o: OverlayState) -> bool {
        self.segments@ == o.segments@ && self.gap == o.gap
    }

    /// A key press: Enter confirms, Escape cancels, an arrow nudges the last
    /// line touched (scale step) or the gap (gap step) by one; up and left
    /// lower it, down and right raise it. Other keys do nothing.
    pub fn key_down(&mut self, key: OverlayKey)
        requires
            old(self).wf(),
        ensures
            final(self).wf(),
            final(self).same_setup(*old(self)),
            final(self).same_pointer(*old(self)),
            final(self).confirmed == (old(self).confirmed || key == OverlayKey::Enter),
            final(self).cancelled == (old(self).cancelled || key == OverlayKey::Escape),
            ({
                let o = *old(self);
                let n = *final(self);
                let delta: int = if key == OverlayKey::Up || key == OverlayKey::Left { -1 } else { 1 };
                let arrow = key == OverlayKey::Up || key == OverlayKey::Down || key == OverlayKey::Left || key
                    == OverlayKey::Right;
                if arrow && o.step == OverlayStep::Scale && o.last_interacted is Some {
                    let i = o.last_interacted->Some_0 as int;
                    n.segments@ == o.segments@.update(i, clamp_i32(o.segments[i] + delta)) && n.gap == o.gap
                } else if arrow && o.step == OverlayStep::Gap {
                    n.segments@ == o.segments@ && n.gap == clamp_i32(o.gap + delta)
                } else {
                    n.same_values(o)
                }
            }),
    {
        match key {
            OverlayKey::Enter => {
                self.confirmed = true;
            },
            OverlayKey::Escape => {
                self.cancelled = true;
            },
            OverlayKey::Other => {},
            _ => {
                let delta: i64 = if key == OverlayKey::Up || key == OverlayKey::Left { -1 } else { 1 };
                if self.step == OverlayStep::Scale {
                    if let Some(i) = self.last_interacted {
                        let v = clamp_i32_exec(self.segments[i] as i64 + delta);
                        self.segments[i] = v;
                    }
                } else {
                    self.gap = clamp_i32_exec(self.gap as i64 + delta);
                }
            },
        }
    }

    /// A press of the button at `(mx, my)`: in the scale step it picks up the
    /// line under the point, if any; in the gap step any point starts
    /// dragging the gap.
    pub fn button_down(&mut self, mx: i32, my: i32)
        requires
            old(self).wf(),
        ensures
            final(self).wf(),
            final(self).same_setup(*old(self)),
            final(self).same_values(*old(self)),
            final(self).confirmed == old(self).confirmed,
            final(self).cancelled == old(self).cancelled,
            ({
                let o = *old(self);
                let n = *final(self);
                if o.step == OverlayStep::Scale {
                    let hit = o.hit_test_spec(mx, my);
                    &&& n.selected == hit
                    &&& match hit {
                        Some(i) => {
                            &&& n.dragging
                            &&& n.drag_start == if o.bind_horizontal { my } else { mx }
                            &&& n.drag_start_val == o.segments[i as int]
                            &&& n.last_interacted == hit
                        },
                        None => n.dragging == o.dragging && n.drag_start == o.drag_start && n.drag_start_val
                            == o.drag_start_val && n.last_interacted == o.last_interacted,
                    }
                } else {
                    &&& n.dragging
                    &&& n.drag_start == if o.bind_horizontal { mx } else { my }
                    &&& n.drag_start_val == o.gap
                    &&& n.selected == o.selected
                    &&& n.last_interacted == o.last_interacted
                }
            }),
    {
        if self.step == OverlayStep::Scale {
            let hit = self.hit_test_scale(mx, my);
            self.selected = hit;
            if let Some(i) = hit {
                self.dragging = true;
                self.drag_start = if self.bind_horizontal { my } else { mx };
                self.drag_start_val = self.segments[i];
                self.last_interacted = hit;
            }
        } else {
            self.dragging = true;
            self.drag_start = if self.bind_horizontal { mx } else { my };
            self.drag_start_val = self.gap;
        }
    }

    /// The pointer moved to `(mx, my)`: while dragging, the dragged value
    /// becomes its value at the press plus the distance moved along the
    /// calibration axis (across it, for the gap). No clamping to the monitor.
    pub fn mouse_move(&mut self, mx: i32, my: i32)
        requires
            old(self).wf(),
        ensures
            final(self).wf(),
            final(self).same_setup(*old(self)),
            final(self).same_pointer(*old(self)),
            final(self).confirmed == old(self).confirmed,
            final(self).cancelled == old(self).cancelled,
            ({
                let o = *old(self);
                let n = *final(self);
                if o.dragging && o.step == OverlayStep::Scale && o.selected is Some {
                    let i = o.selected->Some_0 as int;
                    let pos: int = if o.bind_horizontal { my as int } else { mx as int };
                    n.segments@ == o.segments@.update(i, clamp_i32(o.drag_start_val + (pos - o.drag_start)))
                        && n.gap == o.gap
                } else if o.dragging && o.step == OverlayStep::Gap {
                    let pos: int = if o.bind_horizontal { mx as int } else { my as int };
                    n.segments@ == o.segments@ && n.gap == clamp_i32(o.drag_start_val + (pos - o.drag_start))
                } else {
                    n.same_values(o)
                }
            }),
    {
        if self.dragging {
            if self.step == OverlayStep::Scale {
                if let Some(i) = self.selected {
                    let pos: i64 = if self.bind_horizontal { my as i64 } else { mx as i64 };
                    let v = clamp_i32_exec(self.drag_start_val as i64 + (pos - self.drag_start as i64));
                    self.segments[i] = v;
                }
            } else {
                let pos: i64 = if self.bind_horizontal { mx as i64 } else { my as i64 };
                self.gap = clamp_i32_exec(self.drag_start_val as i64 + (pos - self.drag_start as i64));
            }
        }
    }

    /// The button was released: dragging stops and nothing stays selected.
    pub fn button_up(&mut self)
        requires
            old(self).wf(),
        ensures
            final(self).wf(),
            final(self).same_setup(*old(self)),
            final(self).same_values(*old(self)),
            final(self).confirmed == old(self).confirmed,
            final(self).cancelled == old(self).cancelled,
            final(self).drag_start == old(self).drag_start,
            final(self).drag_start_val == old(self).drag_start_val,
            final(self).last_interacted == old(self).last_interacted,
            old(self).dragging ==> !final(self).dragging && final(self).selected is None,
            !old(self).dragging ==> final(self).dragging == old(self).dragging && final(self).selected == old(self).selected,
    {
        if self.dragging {
            self.dragging = false;
            self.selected = None;
        }
    }

    /// What the step hands back: the line positions and the gap, and whether
    /// it was cancelled.
    pub fn result(&self) -> (r: OverlayResult)
        ensures
            r.cancelled == self.cancelled,
            r.segments@ == self.segments@,
            r.gap == self.gap,
    {
        OverlayResult { cancelled: self.cancelled, segments: self.segments, gap: self.gap }
    }
}

} // verus!
