//! The input registry: one `JoystickState` per configured device, keyed by
//! device name, with the merge and edge-trigger operations the pool performs
//! on it.

use crate::code_map::{merge_debounced, CodeMap};
use crate::state::{
    cleared_state, state_after_update, times_after_update, JoystickState, StateView,
};
use vstd::prelude::*;

verus! {

/// One named device state of the registry.
pub struct RegistryEntry {
    pub name: String,
    pub state: JoystickState,
}

/// The mathematical contents of an entry sequence; a later entry for the same
/// name wins.
pub open spec fn reg_to_map(s: Seq<RegistryEntry>) -> Map<Seq<char>, StateView>
    decreases s.len(),
{
    if s.len() == 0 {
        Map::empty()
    } else {
        reg_to_map(s.drop_last()).insert(s.last().name@, s.last().state@)
    }
}

/// Whether some entry of `s` carries `name`.
pub open spec fn reg_has_name(s: Seq<RegistryEntry>, name: Seq<char>) -> bool {
    exists|i: int| 0 <= i < s.len() && s[i].name@ == name
}

/// Pairwise distinct names.
pub open spec fn reg_unique_names(s: Seq<RegistryEntry>) -> bool {
    forall|i: int, j: int| 0 <= i < j < s.len() ==> s[i].name@ != s[j].name@
}

/// Every recorded state well formed.
pub open spec fn reg_states_wf(s: Seq<RegistryEntry>) -> bool {
    forall|i: int| 0 <= i < s.len() ==> (#[trigger] s[i].state).wf()
}

/// Every state of `r` cleared of its transient (button and hat) values.
pub open spec fn cleared_triggers(r: Map<Seq<char>, StateView>) -> Map<Seq<char>, StateView> {
    Map::new(|n: Seq<char>| r.contains_key(n), |n: Seq<char>| cleared_state(r[n]))
}

/// The shared registry of live device states.
pub struct Registry {
    entries: Vec<RegistryEntry>,
}

impl View for Registry {
    type V = Map<Seq<char>, StateView>;

    closed spec fn view(&self) -> Map<Seq<char>, StateView> {
        reg_to_map(self.entries@)
    }
}

proof fn lemma_reg_dom(s: Seq<RegistryEntry>)
    ensures
        forall|n: Seq<char>| #[trigger] reg_to_map(s).contains_key(n) <==> reg_has_name(s, n),
    decreases s.len(),
{
    if s.len() == 0 {
        assert forall|n: Seq<char>| !reg_has_name(s, n) by {
            if reg_has_name(s, n) {
                let i = choose|i: int| 0 <= i < s.len() && s[i].name@ == n;
                assert(false);
            }
        }
    } else {
        let pre = s.drop_last();
        lemma_reg_dom(pre);
        assert forall|n: Seq<char>| #[trigger] reg_to_map(s).contains_key(n) <==> reg_has_name(
            s,
            n,
        ) by {
            if reg_to_map(s).contains_key(n) {
                if n == s.last().name@ {
                    assert(s[s.len() - 1].name@ == n);
                } else {
                    assert(reg_to_map(pre).contains_key(n));
                    assert(reg_has_name(pre, n));
                    let i = choose|i: int| 0 <= i < pre.len() && pre[i].name@ == n;
                    assert(s[i].name@ == n);
                }
            }
            if reg_has_name(s, n) {
                let i = choose|i: int| 0 <= i < s.len() && s[i].name@ == n;
                if i < s.len() - 1 {
                    assert(pre[i].name@ == n);
                    assert(reg_has_name(pre, n));
                    assert(reg_to_map(pre).contains_key(n));
                }
            }
        }
    }
}

proof fn lemma_reg_index(s: Seq<RegistryEntry>)
    requires
        reg_unique_names(s),
    ensures
        forall|i: int|
            0 <= i < s.len() ==> reg_to_map(s).contains_key(#[trigger] s[i].name@) && reg_to_map(
                s,
            )[s[i].name@] == s[i].state@,
    decreases s.len(),
{
    if s.len() > 0 {
        let pre = s.drop_last();
        lemma_reg_index(pre);
        assert forall|i: int|
            0 <= i < s.len() implies reg_to_map(s).contains_key(#[trigger] s[i].name@)
            && reg_to_map(s)[s[i].name@] == s[i].state@ by {
            if i < s.len() - 1 {
                assert(pre[i].name@ == s[i].name@ && pre[i].state@ == s[i].state@);
                assert(s[i].name@ != s[s.len() - 1].name@);
            }
        }
    }
}

proof fn lemma_reg_update(s: Seq<RegistryEntry>, i: int, e: RegistryEntry)
    requires
        reg_unique_names(s),
        0 <= i < s.len(),
        e.name@ == s[i].name@,
    ensures
        reg_to_map(s.update(i, e)) == reg_to_map(s).insert(e.name@, e.state@),
    decreases s.len(),
{
    let t = s.update(i, e);
    if i == s.len() - 1 {
        assert(t.drop_last() =~= s.drop_last());
        assert(reg_to_map(t) =~= reg_to_map(s).insert(e.name@, e.state@));
    } else {
        assert(t.drop_last() =~= s.drop_last().update(i, e));
        lemma_reg_update(s.drop_last(), i, e);
        assert(e.name@ != s.last().name@);
        assert(reg_to_map(t) =~= reg_to_map(s).insert(e.name@, e.state@));
    }
}

proof fn lemma_reg_has_name_push_at(s: Seq<RegistryEntry>, e: RegistryEntry, n: Seq<char>)
    ensures
        reg_has_name(s.push(e), n) <==> (reg_has_name(s, n) || e.name@ == n),
{
    if reg_has_name(s.push(e), n) {
        let i = choose|i: int| 0 <= i < s.push(e).len() && s.push(e)[i].name@ == n;
        if i < s.len() {
            assert(s[i].name@ == n);
        }
    }
    if reg_has_name(s, n) {
        let i = choose|i: int| 0 <= i < s.len() && s[i].name@ == n;
        assert(s.push(e)[i].name@ == n);
    }
    if e.name@ == n {
        assert(s.push(e)[s.len() as int].name@ == n);
    }
}

impl Registry {
    /// Pairwise distinct device names and well-formed states.
    pub closed spec fn wf(&self) -> bool {
        reg_unique_names(self.entries@) && reg_states_wf(self.entries@)
    }

    /// An empty registry.
    pub fn new() -> (r: Self)
        ensures
            r.wf(),
            r@ == Map::<Seq<char>, StateView>::empty(),
    {
        Registry { entries: Vec::new() }
    }

    fn find(&self, name: &String) -> (r: Option<usize>)
        ensures
            match r {
                Some(i) => i < self.entries@.len() && self.entries@[i as int].name@ == name@,
                None => !reg_has_name(self.entries@, name@),
            },
    {
        let mut i: usize = 0;
        while i < self.entries.len()
            invariant
                i <= self.entries@.len(),
                forall|j: int| 0 <= j < i ==> self.entries@[j].name@ != name@,
            decreases self.entries@.len() - i,
        {
            if self.entries[i].name == *name {
                return Some(i);
            }
            i = i + 1;
        }
        assert(!reg_has_name(self.entries@, name@)) by {
            if reg_has_name(self.entries@, name@) {
                let j = choose|j: int|
                    0 <= j < self.entries@.len() && self.entries@[j].name@ == name@;
                assert(false);
            }
        }
        None
    }

    /// Whether the registry holds a state for `name`.
    pub fn contains_name(&self, name: &String) -> (r: bool)
        ensures
            r == self@.contains_key(name@),
    {
        proof {
            lemma_reg_dom(self.entries@);
        }
        self.find(name).is_some()
    }

    /// The state recorded for `name`, if any.
    pub fn get(&self, name: &String) -> (r: Option<&JoystickState>)
        requires
            self.wf(),
        ensures
            match r {
                Some(st) => self@.contains_key(name@) && st@ == self@[name@] && st.wf(),
                None => !self@.contains_key(name@),
            },
    {
        proof {
            lemma_reg_dom(self.entries@);
            lemma_reg_index(self.entries@);
        }
        match self.find(name) {
            Some(i) => Some(&self.entries[i].state),
            None => None,
        }
    }

    /// Record `state` under `name`, replacing any earlier state.
    pub fn insert(&mut self, name: String, state: JoystickState)
        requires
            old(self).wf(),
            state.wf(),
        ensures
            final(self).wf(),
            final(self)@ == old(self)@.insert(name@, state@),
    {
        let e = RegistryEntry { name, state };
        match self.find(&e.name) {
            Some(i) => {
                proof {
                    lemma_reg_update(self.entries@, i as int, e);
                }
                let ghost s0 = self.entries@;
                self.entries.set(i, e);
                assert(self.wf()) by {
                    assert(forall|k: int|
                        0 <= k < self.entries@.len() ==> self.entries@[k].name@ == s0[k].name@);
                    assert(forall|k: int|
                        0 <= k < self.entries@.len() && k != i ==> (#[trigger] self.entries@[k].state)
                            == s0[k].state);
                }
            },
            None => {
                let ghost s0 = self.entries@;
                self.entries.push(e);
                proof {
                    assert(self.entries@.drop_last() =~= s0);
                    assert(self.wf()) by {
                        assert(forall|j: int| 0 <= j < s0.len() ==> s0[j].name@ != self.entries@[s0.len() as int].name@);
                        assert(forall|j: int|
                            0 <= j < s0.len() ==> (#[trigger] self.entries@[j]) == s0[j]);
                    }
                }
            },
        }
    }

    /// An independent copy with the same contents.
    #[verifier::loop_isolation(false)]
    pub fn duplicate(&self) -> (r: Self)
        requires
            self.wf(),
        ensures
            r.wf(),
            r@ == self@,
    {
        let ghost s0 = self.entries@;
        let mut entries: Vec<RegistryEntry> = Vec::new();
        let mut i: usize = 0;
        while i < self.entries.len()
            invariant
                i <= s0.len(),
                entries@.len() == i,
                forall|j: int|
                    0 <= j < i ==> (#[trigger] entries@[j].name@) == s0[j].name@
                        && entries@[j].state@ == s0[j].state@ && entries@[j].state.wf(),
                reg_to_map(entries@) == reg_to_map(s0.subrange(0, i as int)),
            decreases s0.len() - i,
        {
            let name = self.entries[i].name.clone();
            let state = self.entries[i].state.duplicate();
            let ghost before = entries@;
            entries.push(RegistryEntry { name, state });
            proof {
                assert(entries@.drop_last() =~= before);
                assert(s0.subrange(0, i + 1 as int).drop_last() =~= s0.subrange(0, i as int));
                assert(reg_to_map(entries@) == reg_to_map(s0.subrange(0, i + 1 as int)));
                assert forall|j: int|
                    0 <= j < i + 1 implies (#[trigger] entries@[j].name@) == s0[j].name@
                        && entries@[j].state@ == s0[j].state@ && entries@[j].state.wf() by {
                    if j < i {
                        assert(entries@[j] == before[j]);
                    } else {
                        assert(entries@[j].name@ == s0[i as int].name@);
                    }
                }
            }
            i = i + 1;
        }
        proof {
            assert(s0.subrange(0, s0.len() as int) =~= s0);
            assert forall|i2: int, j2: int|
                0 <= i2 < j2 < entries@.len() implies entries@[i2].name@ != entries@[j2].name@ by {
                assert(entries@[i2].name@ == s0[i2].name@);
                assert(entries@[j2].name@ == s0[j2].name@);
            }
        }
        Registry { entries }
    }

    /// Whether both registries record exactly the same states for the same
    /// names.
    #[verifier::loop_isolation(false)]
    pub fn same_registries(&self, other: &Registry) -> (r: bool)
        requires
            self.wf(),
            other.wf(),
        ensures
            r == (self@ == other@),
    {
        proof {
            lemma_reg_dom(self.entries@);
            lemma_reg_index(self.entries@);
            lemma_reg_dom(other.entries@);
            lemma_reg_index(other.entries@);
        }
        let mut i: usize = 0;
        while i < self.entries.len()
            invariant
                i <= self.entries@.len(),
                forall|j: int|
                    0 <= j < i ==> other@.contains_key(#[trigger] self.entries@[j].name@)
                        && other@[self.entries@[j].name@] == self.entries@[j].state@,
            decreases self.entries@.len() - i,
        {
            let same = match other.get(&self.entries[i].name) {
                Some(st) => self.entries[i].state.same_state(st),
                None => false,
            };
            if !same {
                proof {
                    let n = self.entries@[i as int].name@;
                    assert(self@.contains_key(n) && self@[n] == self.entries@[i as int].state@);
                    if other@.contains_key(n) {
                        assert(self@[n] != other@[n]);
                    }
                }
                return false;
            }
            i = i + 1;
        }
        let mut k: usize = 0;
        while k < other.entries.len()
            invariant
                k <= other.entries@.len(),
                forall|j: int|
                    0 <= j < self.entries@.len() ==> other@.contains_key(
                        #[trigger] self.entries@[j].name@,
                    ) && other@[self.entries@[j].name@] == self.entries@[j].state@,
                forall|j: int|
                    0 <= j < k ==> self@.contains_key(#[trigger] other.entries@[j].name@),
            decreases other.entries@.len() - k,
        {
            if !self.contains_name(&other.entries[k].name) {
                proof {
                    let n = other.entries@[k as int].name@;
                    assert(other@.contains_key(n) && !self@.contains_key(n));
                }
                return false;
            }
            k = k + 1;
        }
        proof {
            assert(self@ =~= other@) by {
                assert forall|n: Seq<char>| self@.contains_key(n) implies other@.contains_key(n)
                    && other@[n] == self@[n] by {
                    let j = choose|j: int|
                        0 <= j < self.entries@.len() && self.entries@[j].name@ == n;
                    assert(other@.contains_key(self.entries@[j].name@));
                }
                assert forall|n: Seq<char>| other@.contains_key(n) implies self@.contains_key(
                    n,
                ) by {
                    let j = choose|j: int|
                        0 <= j < other.entries@.len() && other.entries@[j].name@ == n;
                    assert(self@.contains_key(other.entries@[j].name@));
                }
            }
        }
        true
    }

    /// Reset every button and hat back to neutral, keeping axis values: the
    /// edge-trigger step after a consumer read a snapshot.
    #[verifier::loop_isolation(false)]
    pub fn clear_triggers(&mut self)
        requires
            old(self).wf(),
        ensures
            final(self).wf(),
            final(self)@ == cleared_triggers(old(self)@),
    {
        let ghost s0 = self.entries@;
        proof {
            lemma_reg_dom(s0);
            lemma_reg_index(s0);
        }
        let mut i: usize = 0;
        while i < self.entries.len()
            invariant
                i <= s0.len(),
                self.entries@.len() == s0.len(),
                forall|j: int|
                    0 <= j < s0.len() ==> (#[trigger] self.entries@[j].name@) == s0[j].name@,
                forall|j: int|
                    0 <= j < i ==> (#[trigger] self.entries@[j].state@) == cleared_state(
                        s0[j].state@,
                    ) && self.entries@[j].state.wf(),
                forall|j: int|
                    i <= j < s0.len() ==> (#[trigger] self.entries@[j].state) == s0[j].state,
            decreases s0.len() - i,
        {
            let name = self.entries[i].name.clone();
            let mut state = self.entries[i].state.duplicate();
            state.buttons.set_all(0);
            state.hats.set_all(0);
            proof {
                assert(state@ =~= cleared_state(s0[i as int].state@));
            }
            let ghost before = self.entries@;
            self.entries.set(i, RegistryEntry { name, state });
            proof {
                assert forall|j: int|
                    0 <= j < i + 1 implies (#[trigger] self.entries@[j].state@) == cleared_state(
                        s0[j].state@,
                    ) && self.entries@[j].state.wf() by {
                    if j < i {
                        assert(self.entries@[j] == before[j]);
                    }
                }
                assert forall|j: int|
                    0 <= j < s0.len() implies (#[trigger] self.entries@[j].name@)
                        == s0[j].name@ by {
                    if j != i {
                        assert(self.entries@[j] == before[j]);
                    } else {
                        assert(self.entries@[j].name == before[j].name);
                        assert(before[j].name@ == s0[j].name@);
                    }
                }
            }
            i = i + 1;
        }
        proof {
            assert forall|i2: int, j2: int|
                0 <= i2 < j2 < self.entries@.len() implies self.entries@[i2].name@
                != self.entries@[j2].name@ by {
                assert(self.entries@[i2].name@ == s0[i2].name@);
                assert(self.entries@[j2].name@ == s0[j2].name@);
            }
            lemma_reg_dom(self.entries@);
            lemma_reg_index(self.entries@);
            assert(self@ =~= cleared_triggers(old(self)@)) by {
                assert forall|n: Seq<char>| #[trigger] self@.contains_key(n) == old(
                    self,
                )@.contains_key(n) by {
                    if reg_has_name(self.entries@, n) {
                        let j = choose|j: int|
                            0 <= j < self.entries@.len() && self.entries@[j].name@ == n;
                        assert(s0[j].name@ == n);
                    }
                    if reg_has_name(s0, n) {
                        let j = choose|j: int| 0 <= j < s0.len() && s0[j].name@ == n;
                        assert(self.entries@[j].name@ == n);
                    }
                }
                assert forall|n: Seq<char>| old(self)@.contains_key(n) implies self@[n]
                    == cleared_state(old(self)@[n]) by {
                    let j = choose|j: int| 0 <= j < s0.len() && s0[j].name@ == n;
                    assert(self.entries@[j].name@ == n);
                    assert(self@[self.entries@[j].name@] == self.entries@[j].state@);
                    assert(old(self)@[s0[j].name@] == s0[j].state@);
                }
            }
        }
    }

    /// Merge one poll batch for the device called `name` into the registry,
    /// consulting and stamping the shared debounce timestamps.  A batch for
    /// an unknown device changes nothing.
    pub fn update_device(
        &mut self,
        name: &String,
        update: &JoystickState,
        times: &mut CodeMap<u64>,
        now: u64,
        debounce: u64,
    )
        requires
            old(self).wf(),
            old(times).wf(),
            update.wf(),
        ensures
            final(self).wf(),
            final(times).wf(),
            old(self)@.contains_key(name@) ==> final(self)@ == old(self)@.insert(
                name@,
                state_after_update(old(self)@[name@], update@, old(times)@, now, debounce),
            ) && final(times)@ == times_after_update(old(times)@, update@, now, debounce),
            !old(self)@.contains_key(name@) ==> *final(self) == *old(self) && *final(times)
                == *old(times),
    {
        proof {
            lemma_reg_dom(self.entries@);
            lemma_reg_index(self.entries@);
        }
        match self.find(name) {
            Some(i) => {
                let entry_name = self.entries[i].name.clone();
                let mut state = self.entries[i].state.duplicate();
                state.axes.merge_plain(&update.axes);
                merge_debounced(&mut state.buttons, times, &update.buttons, now, debounce);
                merge_debounced(&mut state.hats, times, &update.hats, now, debounce);
                proof {
                    assert(state@ =~= state_after_update(
                        old(self)@[name@],
                        update@,
                        old(times)@,
                        now,
                        debounce,
                    ));
                    assert(state.wf()) by {
                        let merged = state@;
                        let base = old(self)@[name@];
                        assert forall|c: u16| #[trigger] merged.axes.contains_key(c) implies
                            -crate::joystick::AXIS_SCALE <= merged.axes[c]
                            <= crate::joystick::AXIS_SCALE by {
                            assert(base.axes.contains_key(c));
                        }
                        assert forall|c: u16| #[trigger] merged.buttons.contains_key(c) implies
                            (merged.buttons[c] == 0 || merged.buttons[c] == 1) by {
                            assert(base.buttons.contains_key(c));
                        }
                        assert forall|c: u16| #[trigger] merged.hats.contains_key(c) implies -1
                            <= merged.hats[c] <= 1 by {
                            assert(base.hats.contains_key(c));
                        }
                    }
                    assert(times@ =~= times_after_update(old(times)@, update@, now, debounce));
                    lemma_reg_update(
                        self.entries@,
                        i as int,
                        RegistryEntry { name: entry_name, state },
                    );
                }
                let ghost s0 = self.entries@;
                self.entries.set(i, RegistryEntry { name: entry_name, state });
                assert(self.wf()) by {
                    assert(forall|k: int|
                        0 <= k < self.entries@.len() ==> self.entries@[k].name@ == s0[k].name@);
                    assert(forall|k: int|
                        0 <= k < self.entries@.len() && k != i ==> (#[trigger] self.entries@[k].state)
                            == s0[k].state);
                }
            },
            None => {},
        }
    }
}

} // verus!
