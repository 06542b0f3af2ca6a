//! The per-device input state: current values of one device's declared axes,
//! buttons and hats, together with its mathematical view and the view-level
//! merge semantics of one poll batch.

use crate::code_map::{
    debounced_merge, plain_merge, stamped_times, CodeMap,
};
use crate::joystick::AXIS_SCALE;
use vstd::prelude::*;

verus! {

/// Path and display name of one connected device, as reported by hardware
/// enumeration.
pub struct JoystickInfo {
    pub path: String,
    pub name: String,
}

/// The mathematical contents of a `JoystickState`.
#[verifier::ext_equal]
pub ghost struct StateView {
    pub axes: Map<u16, i64>,
    pub buttons: Map<u16, i64>,
    pub hats: Map<u16, i64>,
}

/// Input values of one device, keyed by hardware code: axes as fixed-point
/// readings in `[-AXIS_SCALE, AXIS_SCALE]`, buttons as `0`/`1`, hats as
/// `-1`/`0`/`1`.
pub struct JoystickState {
    pub axes: CodeMap<i64>,
    pub buttons: CodeMap<i64>,
    pub hats: CodeMap<i64>,
}

impl View for JoystickState {
    type V = StateView;

    open spec fn view(&self) -> StateView {
        StateView { axes: self.axes@, buttons: self.buttons@, hats: self.hats@ }
    }
}

impl JoystickState {
    /// The maps are well formed and every value lies in its documented range:
    /// axes in `[-AXIS_SCALE, AXIS_SCALE]`, buttons `0` or `1`, hats `-1`,
    /// `0` or `1`.
    pub open spec fn wf(&self) -> bool {
        &&& self.axes.wf()
        &&& self.buttons.wf()
        &&& self.hats.wf()
        &&& forall|c: u16| #[trigger]
            self@.axes.contains_key(c) ==> -AXIS_SCALE <= self@.axes[c] <= AXIS_SCALE
        &&& forall|c: u16| #[trigger]
            self@.buttons.contains_key(c) ==> (self@.buttons[c] == 0 || self@.buttons[c] == 1)
        &&& forall|c: u16| #[trigger] self@.hats.contains_key(c) ==> -1 <= self@.hats[c] <= 1
    }

    /// A state with no recorded inputs.
    pub fn new() -> (s: Self)
        ensures
            s.wf(),
            s@.axes == Map::<u16, i64>::empty(),
            s@.buttons == Map::<u16, i64>::empty(),
            s@.hats == Map::<u16, i64>::empty(),
    {
        JoystickState { axes: CodeMap::new(), buttons: CodeMap::new(), hats: CodeMap::new() }
    }

    /// An independent copy with the same contents.
    pub fn duplicate(&self) -> (r: Self)
        requires
            self.wf(),
        ensures
            r.wf(),
            r@ == self@,
    {
        let r = JoystickState {
            axes: self.axes.duplicate(),
            buttons: self.buttons.duplicate(),
            hats: self.hats.duplicate(),
        };
        assert(r@ =~= self@);
        r
    }

    /// Whether both states record exactly the same values.
    pub fn same_state(&self, other: &JoystickState) -> (r: bool)
        requires
            self.wf(),
            other.wf(),
        ensures
            r == (self@ == other@),
    {
        let r = self.axes.same_contents(&other.axes) && self.buttons.same_contents(&other.buttons)
            && self.hats.same_contents(&other.hats);
        proof {
            if r {
                assert(self@ =~= other@);
            }
        }
        r
    }
}

/// Every value of `m` replaced by zero; the key set is kept.
pub open spec fn zeroed_values(m: Map<u16, i64>) -> Map<u16, i64> {
    Map::new(|c: u16| m.contains_key(c), |c: u16| 0i64)
}

/// The state after a consumer read it: axes keep their values, buttons and
/// hats fall back to neutral.
pub open spec fn cleared_state(s: StateView) -> StateView {
    StateView { axes: s.axes, buttons: zeroed_values(s.buttons), hats: zeroed_values(s.hats) }
}

/// The state after one poll batch `u` is merged into `s` at `now`: axes are
/// overwritten unconditionally, buttons and hats only where the debounce
/// filter (with timestamps `times`) accepts them, buttons before hats.
pub open spec fn state_after_update(
    s: StateView,
    u: StateView,
    times: Map<u16, u64>,
    now: u64,
    debounce: u64,
) -> StateView {
    StateView {
        axes: plain_merge(s.axes, u.axes),
        buttons: debounced_merge(s.buttons, u.buttons, times, now, debounce),
        hats: debounced_merge(
            s.hats,
            u.hats,
            stamped_times(times, u.buttons.dom(), now, debounce),
            now,
            debounce,
        ),
    }
}

/// The debounce timestamps after one poll batch `u` is merged at `now`:
/// buttons are stamped first, then hats.
pub open spec fn times_after_update(
    times: Map<u16, u64>,
    u: StateView,
    now: u64,
    debounce: u64,
) -> Map<u16, u64> {
    stamped_times(
        stamped_times(times, u.buttons.dom(), now, debounce),
        u.hats.dom(),
        now,
        debounce,
    )
}

} // verus!
