//! Device reader model: classification of a device's reported capabilities
//! into axes, buttons and hats, and decoding of raw hardware events into
//! normalized values.

use crate::code_map::CodeMap;
use crate::state::{JoystickState, StateView};
use vstd::prelude::*;

verus! {

/// Fixed-point scale for normalized axis values: a reading of `AXIS_SCALE`
/// stands for 1.0, `-AXIS_SCALE` for -1.0.
pub const AXIS_SCALE: i64 = 1_000_000;

/// Clamp a raw reading into the axis's reported range.
pub open spec fn clamp_raw(value: int, min: int, max: int) -> int {
    if value < min {
        min
    } else if value > max {
        max
    } else {
        value
    }
}

/// The normalized value of a raw axis reading: the reading is clamped into
/// `[min, max]` and that range is rescaled linearly onto
/// `[-AXIS_SCALE, AXIS_SCALE]` (rounding down).
pub open spec fn normalized(value: int, min: int, max: int) -> int {
    ((clamp_raw(value, min, max) - min) * 2 * AXIS_SCALE) / (max - min) - AXIS_SCALE
}

/// Rescale a raw axis reading from its native `[min, max]` range onto the
/// fixed-point range `[-AXIS_SCALE, AXIS_SCALE]`.
pub fn normalize_axis(value: i32, min: i32, max: i32) -> (r: i64)
    requires
        min < max,
    ensures
        r == normalized(value as int, min as int, max as int),
        -AXIS_SCALE <= r <= AXIS_SCALE,
{
    let clamped: i32 = if value < min {
        min
    } else if value > max {
        max
    } else {
        value
    };
    let offset: u64 = (clamped as i64 - min as i64) as u64;
    let span: u64 = (max as i64 - min as i64) as u64;
    let scaled: u64 = (offset * 2 * (AXIS_SCALE as u64)) / span;
    assert(scaled <= 2 * AXIS_SCALE) by {
        let o = offset as int;
        let s = span as int;
        let k = AXIS_SCALE as int;
        assert(o <= s);
        assert(o * 2 * k <= s * 2 * k) by (nonlinear_arith)
            requires
                0 <= o <= s,
                k == AXIS_SCALE as int,
        ;
        assert(s * 2 * k / s == 2 * k) by (nonlinear_arith)
            requires
                s > 0,
                k == AXIS_SCALE as int,
        ;
        assert(o * 2 * k / s <= s * 2 * k / s) by (nonlinear_arith)
            requires
                s > 0,
                o * 2 * k <= s * 2 * k,
        ;
    }
    let r: i64 = scaled as i64 - AXIS_SCALE;
    proof {
        assert(clamped as int == clamp_raw(value as int, min as int, max as int));
        assert(offset as int == clamp_raw(value as int, min as int, max as int) - min);
        assert(scaled as int == ((offset as int) * 2 * (AXIS_SCALE as int)) / (span as int));
    }
    r
}

/// Hardware code of the first hat switch's horizontal axis.
pub const HAT_X_CODE: u16 = 16;

/// Hardware code of the first hat switch's vertical axis.
pub const HAT_Y_CODE: u16 = 17;

/// Whether an absolute-axis code designates a hat switch direction.
pub open spec fn is_hat_code(c: u16) -> bool {
    c == HAT_X_CODE || c == HAT_Y_CODE
}

/// One raw hardware event, as handed in by the transport layer.
pub enum InputEvent {
    /// A key (button) event: code and raw value (`1` means pressed).
    Key { code: u16, value: i32 },
    /// An absolute-axis event: code and raw reading.
    Axis { code: u16, value: i32 },
    /// Any other event kind; ignored.
    Other,
}

/// The reported value range of one absolute axis.
#[derive(Clone, Copy)]
pub struct AxisRange {
    pub min: i32,
    pub max: i32,
}

/// One reported absolute axis of a device: its code and range.
#[derive(Clone, Copy)]
pub struct AbsAxisInfo {
    pub code: u16,
    pub min: i32,
    pub max: i32,
}

/// Whether some entry of `s` reports `code`.
pub open spec fn abs_has_code(s: Seq<AbsAxisInfo>, code: u16) -> bool {
    exists|i: int| 0 <= i < s.len() && s[i].code == code
}

/// The value a button takes from a raw key reading.
pub open spec fn button_value(v: int) -> i64 {
    if v == 1 {
        1i64
    } else {
        0i64
    }
}

/// The value a hat takes from a raw axis reading: its sign.
pub open spec fn hat_value(v: int) -> i64 {
    if v < 0 {
        -1i64
    } else if v > 0 {
        1i64
    } else {
        0i64
    }
}

/// A device reader's classification of one device: which codes are plain
/// axes, buttons and hats, and each absolute axis's reported range.
pub struct Joystick {
    pub axes: Vec<u16>,
    pub buttons: Vec<u16>,
    pub hats: Vec<u16>,
    pub axis_info: CodeMap<AxisRange>,
}

impl Joystick {
    /// Every classified plain axis has a recorded, non-degenerate range.
    pub open spec fn wf(&self) -> bool {
        &&& self.axis_info.wf()
        &&& forall|c: u16| #[trigger]
            self.axes@.contains(c) ==> self.axis_info@.contains_key(c)
                && self.axis_info@[c].min < self.axis_info@[c].max
    }

    /// Classify a device's reported capabilities: every reported key becomes
    /// a button; a reported absolute axis becomes a hat if its code is a hat
    /// code, otherwise a plain axis, provided its reported range is
    /// non-degenerate (a degenerate range admits no normalization and the
    /// axis is left unclassified).
    ///
    /// Hardware reports each absolute axis once, so the reported codes are
    /// pairwise distinct.
    #[verifier::loop_isolation(false)]
    pub fn new(abs_axes: Vec<AbsAxisInfo>, keys: Vec<u16>) -> (j: Joystick)
        requires
            forall|i: int, k: int|
                0 <= i < k < abs_axes@.len() ==> abs_axes@[i].code != abs_axes@[k].code,
        ensures
            j.wf(),
            j.buttons@ == keys@,
            forall|c: u16| #[trigger] j.axis_info@.contains_key(c) <==> abs_has_code(abs_axes@, c),
            forall|i: int|
                0 <= i < abs_axes@.len() ==> j.axis_info@[#[trigger] abs_axes@[i].code]
                    == (AxisRange { min: abs_axes@[i].min, max: abs_axes@[i].max }),
            forall|c: u16| #[trigger]
                j.hats@.contains(c) <==> (abs_has_code(abs_axes@, c) && is_hat_code(c)),
            forall|c: u16| #[trigger]
                j.axes@.contains(c) <==> (j.axis_info@.contains_key(c) && !is_hat_code(c)
                    && j.axis_info@[c].min < j.axis_info@[c].max),
    {
        let mut axes: Vec<u16> = Vec::new();
        let mut hats: Vec<u16> = Vec::new();
        let mut axis_info: CodeMap<AxisRange> = CodeMap::new();
        let mut i: usize = 0;
        while i < abs_axes.len()
            invariant
                i <= abs_axes@.len(),
                axis_info.wf(),
                forall|c: u16| #[trigger]
                    axis_info@.contains_key(c) <==> abs_has_code(
                        abs_axes@.subrange(0, i as int),
                        c,
                    ),
                forall|k: int|
                    0 <= k < i ==> axis_info@[#[trigger] abs_axes@[k].code]
                        == (AxisRange { min: abs_axes@[k].min, max: abs_axes@[k].max }),
                forall|c: u16| #[trigger]
                    hats@.contains(c) <==> (abs_has_code(abs_axes@.subrange(0, i as int), c)
                        && is_hat_code(c)),
                forall|c: u16| #[trigger]
                    axes@.contains(c) <==> (axis_info@.contains_key(c) && !is_hat_code(c)
                        && axis_info@[c].min < axis_info@[c].max),
            decreases abs_axes@.len() - i,
        {
            let a = abs_axes[i];
            let ghost pre = abs_axes@.subrange(0, i as int);
            let ghost axes0 = axes@;
            let ghost hats0 = hats@;
            proof {
                assert(!abs_has_code(pre, a.code)) by {
                    if abs_has_code(pre, a.code) {
                        let k = choose|k: int| 0 <= k < pre.len() && pre[k].code == a.code;
                        assert(abs_axes@[k].code == abs_axes@[i as int].code);
                        assert(false);
                    }
                }
            }
            axis_info.insert(a.code, AxisRange { min: a.min, max: a.max });
            if a.code == HAT_X_CODE || a.code == HAT_Y_CODE {
                hats.push(a.code);
            } else if a.min < a.max {
                axes.push(a.code);
            }
            proof {
                assert(abs_axes@.subrange(0, i + 1 as int) =~= pre.push(a));
                assert forall|c: u16|
                    abs_has_code(#[trigger] abs_axes@.subrange(0, i + 1 as int), c) <==> (
                abs_has_code(pre, c) || a.code == c) by {
                    if abs_has_code(pre.push(a), c) {
                        let k = choose|k: int|
                            0 <= k < pre.push(a).len() && pre.push(a)[k].code == c;
                        if k < pre.len() {
                            assert(pre[k].code == c);
                        }
                    }
                    if abs_has_code(pre, c) {
                        let k = choose|k: int| 0 <= k < pre.len() && pre[k].code == c;
                        assert(pre.push(a)[k].code == c);
                    }
                    if a.code == c {
                        assert(pre.push(a)[pre.len() as int].code == c);
                    }
                }
                assert forall|c: u16| #[trigger]
                    hats@.contains(c) <==> (hats0.contains(c) || (hats@ != hats0 && a.code
                        == c)) by {
                    if hats@ != hats0 {
                        assert(hats@ == hats0.push(a.code));
                        if hats@.contains(c) {
                            let k = choose|k: int| 0 <= k < hats@.len() && hats@[k] == c;
                            if k < hats0.len() {
                                assert(hats0[k] == c);
                            }
                        }
                        if hats0.contains(c) {
                            let k = choose|k: int| 0 <= k < hats0.len() && hats0[k] == c;
                            assert(hats@[k] == c);
                        }
                        if a.code == c {
                            assert(hats@[hats0.len() as int] == c);
                        }
                    }
                }
                assert forall|c: u16| #[trigger]
                    axes@.contains(c) <==> (axes0.contains(c) || (axes@ != axes0 && a.code
                        == c)) by {
                    if axes@ != axes0 {
                        assert(axes@ == axes0.push(a.code));
                        if axes@.contains(c) {
                            let k = choose|k: int| 0 <= k < axes@.len() && axes@[k] == c;
                            if k < axes0.len() {
                                assert(axes0[k] == c);
                            }
                        }
                        if axes0.contains(c) {
                            let k = choose|k: int| 0 <= k < axes0.len() && axes0[k] == c;
                            assert(axes@[k] == c);
                        }
                        if a.code == c {
                            assert(axes@[axes0.len() as int] == c);
                        }
                    }
                }
            }
            i = i + 1;
        }
        proof {
            assert(abs_axes@.subrange(0, abs_axes@.len() as int) =~= abs_axes@);
        }
        Joystick { axes, buttons: keys, hats, axis_info }
    }

    /// Decode the drained hardware events of one poll into a sparse state
    /// update: buttons from classified key events, normalized readings from
    /// classified plain-axis events, signs from classified hat events;
    /// everything else is dropped.  The result is exactly
    /// `read_events(self, events@)`.
    #[verifier::loop_isolation(false)]
    pub fn get_state(&self, events: &Vec<InputEvent>) -> (s: JoystickState)
        requires
            self.wf(),
        ensures
            s.wf(),
            s@ == read_events(self, events@),
    {
        let mut s = JoystickState::new();
        let mut i: usize = 0;
        while i < events.len()
            invariant
                i <= events@.len(),
                s.wf(),
                s@ == read_events(self, events@.subrange(0, i as int)),
            decreases events@.len() - i,
        {
            let ghost pre = events@.subrange(0, i as int);
            let ghost s_in = s@;
            match events[i] {
                InputEvent::Key { code, value } => {
                    if code_listed(&self.buttons, code) {
                        let v: i64 = if value == 1 {
                            1
                        } else {
                            0
                        };
                        s.buttons.insert(code, v);
                    }
                },
                InputEvent::Axis { code, value } => {
                    match self.axis_info.get(code) {
                        Some(range) => {
                            if code_listed(&self.axes, code) {
                                let v = normalize_axis(value, range.min, range.max);
                                s.axes.insert(code, v);
                            } else if code_listed(&self.hats, code) {
                                let v: i64 = if value < 0 {
                                    -1
                                } else if value > 0 {
                                    1
                                } else {
                                    0
                                };
                                s.hats.insert(code, v);
                            }
                        },
                        None => {},
                    }
                },
                InputEvent::Other => {},
            }
            proof {
                assert(events@.subrange(0, i + 1 as int) =~= pre.push(events@[i as int]));
                assert(events@.subrange(0, i + 1 as int).drop_last() =~= pre);
                assert(s@ =~= event_effect(self, s_in, events@[i as int]));
            }
            i = i + 1;
        }
        proof {
            assert(events@.subrange(0, events@.len() as int) =~= events@);
        }
        s
    }
}

/// The effect of one raw event on a sparse update under `j`'s
/// classification.
pub open spec fn event_effect(j: &Joystick, s: StateView, e: InputEvent) -> StateView {
    match e {
        InputEvent::Key { code, value } => if j.buttons@.contains(code) {
            StateView { buttons: s.buttons.insert(code, button_value(value as int)), ..s }
        } else {
            s
        },
        InputEvent::Axis { code, value } => if j.axis_info@.contains_key(code) {
            if j.axes@.contains(code) {
                StateView {
                    axes: s.axes.insert(
                        code,
                        normalized(
                            value as int,
                            j.axis_info@[code].min as int,
                            j.axis_info@[code].max as int,
                        ) as i64,
                    ),
                    ..s
                }
            } else if j.hats@.contains(code) {
                StateView { hats: s.hats.insert(code, hat_value(value as int)), ..s }
            } else {
                s
            }
        } else {
            s
        },
        InputEvent::Other => s,
    }
}

/// The sparse update that draining `events` produces under `j`'s
/// classification, applied left to right on an empty update.
pub open spec fn read_events(j: &Joystick, events: Seq<InputEvent>) -> StateView
    decreases events.len(),
{
    if events.len() == 0 {
        StateView {
            axes: Map::empty(),
            buttons: Map::empty(),
            hats: Map::empty(),
        }
    } else {
        event_effect(j, read_events(j, events.drop_last()), events.last())
    }
}

/// Linear membership test in a code list.
#[verifier::loop_isolation(false)]
fn code_listed(codes: &Vec<u16>, code: u16) -> (r: bool)
    ensures
        r == codes@.contains(code),
{
    let mut i: usize = 0;
    while i < codes.len()
        invariant
            i <= codes@.len(),
            forall|j: int| 0 <= j < i ==> codes@[j] != code,
        decreases codes@.len() - i,
    {
        if codes[i] == code {
            return true;
        }
        i = i + 1;
    }
    assert(!codes@.contains(code)) by {
        if codes@.contains(code) {
            let j = choose|j: int| 0 <= j < codes@.len() && codes@[j] == code;
            assert(false);
        }
    }
    false
}

} // verus!
