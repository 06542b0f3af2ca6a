//! The device pool: the registry of live device states, the baseline
//! registry of what a consumer last observed, the global debounce
//! timestamps, and the running/stopped lifecycle.
//!
//! The pool is a sequential state machine.  The surrounding runtime owns the
//! clock, the hardware and the task scheduling: it hands poll batches to
//! `apply_update` (one call per device poll, with the current time in
//! milliseconds), drives `fetch_step` from its own wait loop, and performs
//! task spawning and teardown around `reset` and `stop`.

use crate::code_map::{debounce_accepts, stamped_times, CodeMap};
use crate::description::{zeroed_registry, DeviceDescription};
use crate::registry::{cleared_triggers, Registry};
use crate::state::{
    state_after_update, times_after_update, JoystickInfo, JoystickState, StateView,
};
use vstd::prelude::*;

verus! {

/// Why a pool query failed.
#[derive(Clone, Copy, PartialEq, Eq, Structural, Debug)]
pub enum PoolError {
    /// The pool is stopped; no monitoring has been started.
    NotRunning,
    /// The wait deadline elapsed with no observed change.
    TimedOut,
}

/// The outcome of one change-detection step of a waiting fetch.
pub enum FetchStep {
    /// A snapshot is ready: either the registry changed against the
    /// baseline, or the pool is stopped.
    Ready(Registry),
    /// The deadline elapsed with no change; the wait fails.
    Failed(PoolError),
    /// No change yet; the caller should sleep briefly and step again.
    Pending,
}

/// The names of the connected devices that the registry knows, in
/// enumeration order.
pub open spec fn matched_names(
    infos: Seq<JoystickInfo>,
    reg: Map<Seq<char>, StateView>,
) -> Seq<Seq<char>>
    decreases infos.len(),
{
    if infos.len() == 0 {
        Seq::empty()
    } else {
        let rest = matched_names(infos.drop_last(), reg);
        if reg.contains_key(infos.last().name@) {
            rest.push(infos.last().name@)
        } else {
            rest
        }
    }
}

/// A pool of monitored input devices with debouncing and change detection.
pub struct DevicePool {
    debounce_millis: u64,
    devices: Vec<DeviceDescription>,
    input_register: Registry,
    last_input_register: Registry,
    last_button_time: CodeMap<u64>,
    running: bool,
}

/// A zeroed registry over a description list.
#[verifier::loop_isolation(false)]
fn build_registry(descs: &Vec<DeviceDescription>) -> (r: Registry)
    ensures
        r.wf(),
        r@ == zeroed_registry(descs@),
{
    let mut r = Registry::new();
    let mut i: usize = 0;
    while i < descs.len()
        invariant
            i <= descs@.len(),
            r.wf(),
            r@ == zeroed_registry(descs@.subrange(0, i as int)),
        decreases descs@.len() - i,
    {
        let name = descs[i].device_name.clone();
        let st = descs[i].build_state();
        r.insert(name, st);
        proof {
            assert(descs@.subrange(0, i + 1 as int).drop_last() =~= descs@.subrange(0, i as int));
            assert(descs@.subrange(0, i + 1 as int).last() == descs@[i as int]);
        }
        i = i + 1;
    }
    proof {
        assert(descs@.subrange(0, descs@.len() as int) =~= descs@);
    }
    r
}

impl DevicePool {
    /// The registries and the timestamp map are well formed.
    pub closed spec fn wf(&self) -> bool {
        self.input_register.wf() && self.last_input_register.wf() && self.last_button_time.wf()
    }

    /// Whether monitoring is running.
    pub closed spec fn is_running(&self) -> bool {
        self.running
    }

    /// The live registry's contents.
    pub closed spec fn input_view(&self) -> Map<Seq<char>, StateView> {
        self.input_register@
    }

    /// The baseline registry's contents: what a consumer last observed.
    pub closed spec fn baseline_view(&self) -> Map<Seq<char>, StateView> {
        self.last_input_register@
    }

    /// The global debounce timestamps.
    pub closed spec fn times_view(&self) -> Map<u16, u64> {
        self.last_button_time@
    }

    /// The configured debounce window in milliseconds.
    pub closed spec fn debounce(&self) -> u64 {
        self.debounce_millis
    }

    /// The configured device descriptions.
    pub closed spec fn descriptions(&self) -> Seq<DeviceDescription> {
        self.devices@
    }

    /// A new pool over the given descriptions: the live registry starts with
    /// one zeroed state per description, the baseline empty, no debounce
    /// stamps, and monitoring stopped.
    pub fn new(devices: Vec<DeviceDescription>, debounce_millis: u64) -> (p: DevicePool)
        ensures
            p.wf(),
            !p.is_running(),
            p.input_view() == zeroed_registry(devices@),
            p.baseline_view() == Map::<Seq<char>, StateView>::empty(),
            p.times_view() == Map::<u16, u64>::empty(),
            p.debounce() == debounce_millis,
            p.descriptions() == devices@,
    {
        let input_register = build_registry(&devices);
        DevicePool {
            debounce_millis,
            devices,
            input_register,
            last_input_register: Registry::new(),
            last_button_time: CodeMap::new(),
            running: false,
        }
    }

    /// Re-seed and restart the pool: the live registry goes back to the
    /// zeroed state per description, the baseline matches it, all debounce
    /// stamps are cleared, monitoring is running, and the names of the
    /// connected devices that match a description are returned in
    /// enumeration order.  Devices connected later stay invisible until the
    /// next reset.
    #[verifier::loop_isolation(false)]
    pub fn reset(&mut self, connected: &Vec<JoystickInfo>) -> (matched: Vec<String>)
        requires
            old(self).wf(),
        ensures
            final(self).wf(),
            final(self).is_running(),
            final(self).descriptions() == old(self).descriptions(),
            final(self).debounce() == old(self).debounce(),
            final(self).input_view() == zeroed_registry(old(self).descriptions()),
            final(self).baseline_view() == final(self).input_view(),
            final(self).times_view() == Map::<u16, u64>::empty(),
            matched.deep_view() == matched_names(connected@, final(self).input_view()),
    {
        self.running = false;
        self.input_register = build_registry(&self.devices);
        self.last_input_register = self.input_register.duplicate();
        self.last_button_time = CodeMap::new();
        self.running = true;
        let mut matched: Vec<String> = Vec::new();
        let mut i: usize = 0;
        while i < connected.len()
            invariant
                i <= connected@.len(),
                matched.deep_view() == matched_names(
                    connected@.subrange(0, i as int),
                    self.input_register@,
                ),
            decreases connected@.len() - i,
        {
            let ghost m0 = matched.deep_view();
            if self.input_register.contains_name(&connected[i].name) {
                matched.push(connected[i].name.clone());
                proof {
                    assert(matched.deep_view() =~= m0.push(connected@[i as int].name@));
                }
            }
            proof {
                assert(connected@.subrange(0, i + 1 as int).drop_last() =~= connected@.subrange(
                    0,
                    i as int,
                ));
                assert(connected@.subrange(0, i + 1 as int).last() == connected@[i as int]);
            }
            i = i + 1;
        }
        proof {
            assert(connected@.subrange(0, connected@.len() as int) =~= connected@);
        }
        matched
    }

    /// A snapshot of the live registry, without waiting.  Fails if the pool
    /// is stopped.  On success the snapshot becomes the new baseline and the
    /// live registry's buttons and hats fall back to neutral, so a consumed
    /// press is not re-reported.
    pub fn fetch_nowait(&mut self) -> (r: Result<Registry, PoolError>)
        requires
            old(self).wf(),
        ensures
            final(self).wf(),
            !old(self).is_running() ==> (r matches Err(e) && e == PoolError::NotRunning
                && *final(self) == *old(self)),
            old(self).is_running() ==> (r matches Ok(snap) && snap.wf() && snap@ == old(self).input_view() && final(self).input_view() == cleared_triggers(old(self).input_view())
                && final(self).baseline_view() == old(self).input_view() && final(self).is_running()
                && final(self).times_view() == old(self).times_view() && final(self).debounce()
                == old(self).debounce() && final(self).descriptions() == old(self).descriptions()),
    {
        if !self.running {
            return Err(PoolError::NotRunning);
        }
        let snapshot = self.input_register.duplicate();
        self.last_input_register = self.input_register.duplicate();
        self.input_register.clear_triggers();
        Ok(snapshot)
    }

    /// One change-detection step of a waiting fetch; the caller's wait loop
    /// sleeps a short interval between steps and passes `timed_out` once its
    /// deadline has elapsed.  A stopped pool yields the live snapshot
    /// immediately and changes nothing.  A change against the baseline
    /// yields the live snapshot, makes it the new baseline, and resets the
    /// live buttons and hats to neutral.  Without a change the step times
    /// out exactly when the caller's deadline has, and otherwise stays
    /// pending.
    pub fn fetch_step(&mut self, timed_out: bool) -> (r: FetchStep)
        requires
            old(self).wf(),
        ensures
            final(self).wf(),
            !old(self).is_running() ==> (r matches FetchStep::Ready(snap) && snap.wf() && snap@
                == old(self).input_view() && *final(self) == *old(self)),
            old(self).is_running() && old(self).input_view() != old(self).baseline_view()
                ==> (r matches FetchStep::Ready(snap) && snap.wf() && snap@ == old(self).input_view()
                && final(self).input_view() == cleared_triggers(old(self).input_view()) && final(self).baseline_view() == old(self).input_view() && final(self).is_running() && final(self).times_view() == old(self).times_view() && final(self).debounce() == old(self).debounce() && final(self).descriptions() == old(self).descriptions()),
            old(self).is_running() && old(self).input_view() == old(self).baseline_view() ==> *final(self) == *old(self) && r == (if timed_out {
                FetchStep::Failed(PoolError::TimedOut)
            } else {
                FetchStep::Pending
            }),
    {
        if !self.running {
            return FetchStep::Ready(self.input_register.duplicate());
        }
        let changed = !self.input_register.same_registries(&self.last_input_register);
        if changed {
            let snapshot = self.input_register.duplicate();
            self.last_input_register = self.input_register.duplicate();
            self.input_register.clear_triggers();
            return FetchStep::Ready(snapshot);
        }
        if timed_out {
            return FetchStep::Failed(PoolError::TimedOut);
        }
        FetchStep::Pending
    }

    /// Merge one poll batch for the named device into the live registry at
    /// `now_millis`: axes are overwritten unconditionally, buttons and hats
    /// pass the global debounce filter (buttons stamped before hats).  A
    /// batch for an unknown device changes nothing.
    pub fn apply_update(&mut self, device_name: &String, update: &JoystickState, now_millis: u64)
        requires
            old(self).wf(),
            update.wf(),
        ensures
            final(self).wf(),
            final(self).is_running() == old(self).is_running(),
            final(self).debounce() == old(self).debounce(),
            final(self).descriptions() == old(self).descriptions(),
            final(self).baseline_view() == old(self).baseline_view(),
            old(self).input_view().contains_key(device_name@) ==> final(self).input_view() == old(self).input_view().insert(
                device_name@,
                state_after_update(
                    old(self).input_view()[device_name@],
                    update@,
                    old(self).times_view(),
                    now_millis,
                    old(self).debounce(),
                ),
            ) && final(self).times_view() == times_after_update(
                old(self).times_view(),
                update@,
                now_millis,
                old(self).debounce(),
            ),
            !old(self).input_view().contains_key(device_name@) ==> *final(self) == *old(self),
    {
        let debounce = self.debounce_millis;
        self.input_register.update_device(
            device_name,
            update,
            &mut self.last_button_time,
            now_millis,
            debounce,
        );
    }

    /// Whether monitoring is running; monitor loops poll this each
    /// iteration and terminate once it goes false.
    pub fn running(&self) -> (r: bool)
        ensures
            r == self.is_running(),
    {
        self.running
    }

    /// Stop monitoring: queries fail (or, for a waiting fetch, return the
    /// live snapshot) until the next reset.  All registries, stamps and
    /// configuration are kept.
    pub fn stop(&mut self)
        requires
            old(self).wf(),
        ensures
            final(self).wf(),
            !final(self).is_running(),
            final(self).input_view() == old(self).input_view(),
            final(self).baseline_view() == old(self).baseline_view(),
            final(self).times_view() == old(self).times_view(),
            final(self).debounce() == old(self).debounce(),
            final(self).descriptions() == old(self).descriptions(),
    {
        self.running = false;
    }
}

/// Law: within one debounce window only the first update to a code is
/// accepted, and an update at or past the window's end is accepted again —
/// even though a suppressed update was seen in between, because a suppressed
/// update leaves no stamp.  Here the first update to `code` arrives at `t0`
/// with no earlier stamp, a second at `t1` within the window, a third at
/// `t2` at or past it.
pub proof fn lemma_debounce_window(
    code: u16,
    t0: u64,
    t1: u64,
    t2: u64,
    debounce: u64,
    times: Map<u16, u64>,
)
    requires
        !times.contains_key(code),
        t0 <= t1 <= t2,
        t1 - t0 < debounce,
        t2 - t0 >= debounce,
    ensures
        debounce_accepts(times, code, t0, debounce),
        !debounce_accepts(
            stamped_times(times, set![code], t0, debounce),
            code,
            t1,
            debounce,
        ),
        stamped_times(
            stamped_times(times, set![code], t0, debounce),
            set![code],
            t1,
            debounce,
        ) == stamped_times(times, set![code], t0, debounce),
        debounce_accepts(
            stamped_times(
                stamped_times(times, set![code], t0, debounce),
                set![code],
                t1,
                debounce,
            ),
            code,
            t2,
            debounce,
        ),
{
    let stamped = stamped_times(times, set![code], t0, debounce);
    assert(stamped.contains_key(code) && stamped[code] == t0);
    assert(stamped_times(stamped, set![code], t1, debounce) =~= stamped);
}

/// Law: debouncing across whole poll batches.  With no earlier stamp for
/// `code`, a batch `u1` carrying a button update for it at `t0` gets that
/// update applied; a batch `u2` carrying another at `t1`, within the
/// debounce window, is suppressed, so the button keeps `u1`'s value; and a
/// batch `u3` at `t2`, a full window or more after `t0`, is applied again.
pub proof fn lemma_button_debounce(
    base: StateView,
    u1: StateView,
    u2: StateView,
    u3: StateView,
    times: Map<u16, u64>,
    code: u16,
    t0: u64,
    t1: u64,
    t2: u64,
    debounce: u64,
)
    requires
        base.buttons.contains_key(code),
        u1.buttons.contains_key(code),
        u2.buttons.contains_key(code),
        u3.buttons.contains_key(code),
        !times.contains_key(code),
        t0 <= t1 <= t2,
        t1 - t0 < debounce,
        t2 - t0 >= debounce,
    ensures
        state_after_update(base, u1, times, t0, debounce).buttons[code] == u1.buttons[code],
        state_after_update(
            state_after_update(base, u1, times, t0, debounce),
            u2,
            times_after_update(times, u1, t0, debounce),
            t1,
            debounce,
        ).buttons[code] == u1.buttons[code],
        state_after_update(
            state_after_update(
                state_after_update(base, u1, times, t0, debounce),
                u2,
                times_after_update(times, u1, t0, debounce),
                t1,
                debounce,
            ),
            u3,
            times_after_update(
                times_after_update(times, u1, t0, debounce),
                u2,
                t1,
                debounce,
            ),
            t2,
            debounce,
        ).buttons[code] == u3.buttons[code],
{
    let s1 = state_after_update(base, u1, times, t0, debounce);
    let tm1 = times_after_update(times, u1, t0, debounce);
    let s2 = state_after_update(s1, u2, tm1, t1, debounce);
    let tm2 = times_after_update(tm1, u2, t1, debounce);
    assert(debounce_accepts(times, code, t0, debounce));
    assert(s1.buttons[code] == u1.buttons[code]);
    // The accepted button update stamps `code` at `t0`; the hat stage of the
    // same batch cannot restamp it within the window.
    assert(tm1.contains_key(code) && tm1[code] == t0);
    // `u2`'s update falls inside the window, is rejected, and leaves no
    // stamp of its own.
    assert(!debounce_accepts(tm1, code, t1, debounce));
    assert(s2.buttons[code] == s1.buttons[code]);
    assert(tm2.contains_key(code) && tm2[code] == t0);
    // A full window after `t0`, `u3`'s update passes the filter again.
    assert(debounce_accepts(tm2, code, t2, debounce));
}

/// Law: edge triggering.  Clearing a registry's transient values keeps every
/// device and every axis value exactly as they were, while every button and
/// hat entry stays present but reads back as neutral — so two consecutive
/// reads with no intervening hardware events agree on axes, and the second
/// read sees only neutral buttons and hats.
pub proof fn lemma_edge_trigger(reg: Map<Seq<char>, StateView>, name: Seq<char>)
    requires
        reg.contains_key(name),
    ensures
        cleared_triggers(reg).dom() == reg.dom(),
        cleared_triggers(reg)[name].axes == reg[name].axes,
        cleared_triggers(reg)[name].buttons.dom() == reg[name].buttons.dom(),
        cleared_triggers(reg)[name].hats.dom() == reg[name].hats.dom(),
        forall|c: u16| #[trigger]
            cleared_triggers(reg)[name].buttons.contains_key(c) ==> cleared_triggers(
                reg,
            )[name].buttons[c] == 0,
        forall|c: u16| #[trigger]
            cleared_triggers(reg)[name].hats.contains_key(c) ==> cleared_triggers(
                reg,
            )[name].hats[c] == 0,
{
    assert(cleared_triggers(reg).dom() =~= reg.dom());
    assert(cleared_triggers(reg)[name].buttons.dom() =~= reg[name].buttons.dom());
    assert(cleared_triggers(reg)[name].hats.dom() =~= reg[name].hats.dom());
}

} // verus!
