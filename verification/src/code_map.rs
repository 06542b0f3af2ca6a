//! Maps from 16-bit hardware codes to values, kept as short entry vectors
//! with pairwise distinct codes, together with the merge operations of the
//! device pool: plain (level-triggered) merges for axes and debounced merges
//! for buttons and hats.

use vstd::prelude::*;

verus! {

/// One entry of a `CodeMap`.
#[derive(Clone, Copy)]
pub struct CodeEntry<V> {
    pub code: u16,
    pub value: V,
}

/// The mathematical contents of an entry sequence; a later entry for the same
/// code wins.
pub open spec fn entries_to_map<V>(s: Seq<CodeEntry<V>>) -> Map<u16, V>
    decreases s.len(),
{
    if s.len() == 0 {
        Map::empty()
    } else {
        entries_to_map(s.drop_last()).insert(s.last().code, s.last().value)
    }
}

/// Whether some entry of `s` carries `code`.
pub open spec fn has_code<V>(s: Seq<CodeEntry<V>>, code: u16) -> bool {
    exists|i: int| 0 <= i < s.len() && s[i].code == code
}

/// Pairwise distinct codes.
pub open spec fn unique_codes<V>(s: Seq<CodeEntry<V>>) -> bool {
    forall|i: int, j: int| 0 <= i < j < s.len() ==> s[i].code != s[j].code
}

/// A map from hardware codes to values.
pub struct CodeMap<V> {
    entries: Vec<CodeEntry<V>>,
}

impl<V> View for CodeMap<V> {
    type V = Map<u16, V>;

    closed spec fn view(&self) -> Map<u16, V> {
        entries_to_map(self.entries@)
    }
}

proof fn lemma_entries_dom<V>(s: Seq<CodeEntry<V>>)
    ensures
        forall|c: u16| #[trigger] entries_to_map(s).contains_key(c) <==> has_code(s, c),
    decreases s.len(),
{
    if s.len() == 0 {
        assert forall|c: u16| !has_code(s, c) by {
            if has_code(s, c) {
                let i = choose|i: int| 0 <= i < s.len() && s[i].code == c;
                assert(false);
            }
        }
    } else {
        let pre = s.drop_last();
        lemma_entries_dom(pre);
        assert forall|c: u16| #[trigger] entries_to_map(s).contains_key(c) <==> has_code(s, c) by {
            if entries_to_map(s).contains_key(c) {
                if c == s.last().code {
                    assert(s[s.len() - 1].code == c);
                } else {
                    assert(entries_to_map(pre).contains_key(c));
                    assert(has_code(pre, c));
                    let i = choose|i: int| 0 <= i < pre.len() && pre[i].code == c;
                    assert(s[i].code == c);
                }
            }
            if has_code(s, c) {
                let i = choose|i: int| 0 <= i < s.len() && s[i].code == c;
                if i < s.len() - 1 {
                    assert(pre[i].code == c);
                    assert(has_code(pre, c));
                    assert(entries_to_map(pre).contains_key(c));
                }
            }
        }
    }
}

proof fn lemma_entries_index<V>(s: Seq<CodeEntry<V>>)
    requires
        unique_codes(s),
    ensures
        forall|i: int|
            0 <= i < s.len() ==> entries_to_map(s).contains_key(#[trigger] s[i].code)
                && entries_to_map(s)[s[i].code] == s[i].value,
    decreases s.len(),
{
    if s.len() > 0 {
        let pre = s.drop_last();
        lemma_entries_index(pre);
        assert forall|i: int|
            0 <= i < s.len() implies entries_to_map(s).contains_key(#[trigger] s[i].code)
            && entries_to_map(s)[s[i].code] == s[i].value by {
            if i < s.len() - 1 {
                assert(pre[i].code == s[i].code && pre[i].value == s[i].value);
                assert(s[i].code != s[s.len() - 1].code);
            }
        }
    }
}

proof fn lemma_entries_len<V>(s: Seq<CodeEntry<V>>)
    requires
        unique_codes(s),
    ensures
        entries_to_map(s).dom().finite(),
        entries_to_map(s).dom().len() == s.len(),
    decreases s.len(),
{
    if s.len() == 0 {
        assert(entries_to_map(s).dom() =~= Set::<u16>::empty());
    } else {
        let pre = s.drop_last();
        lemma_entries_len(pre);
        lemma_entries_dom(pre);
        if entries_to_map(pre).contains_key(s.last().code) {
            let i = choose|i: int| 0 <= i < pre.len() && pre[i].code == s.last().code;
            assert(s[i].code == s[s.len() - 1].code);
            assert(false);
        }
        assert(entries_to_map(s).dom() =~= entries_to_map(pre).dom().insert(s.last().code));
    }
}

proof fn lemma_entries_update<V>(s: Seq<CodeEntry<V>>, i: int, e: CodeEntry<V>)
    requires
        unique_codes(s),
        0 <= i < s.len(),
        e.code == s[i].code,
    ensures
        entries_to_map(s.update(i, e)) == entries_to_map(s).insert(e.code, e.value),
    decreases s.len(),
{
    let t = s.update(i, e);
    if i == s.len() - 1 {
        assert(t.drop_last() =~= s.drop_last());
        assert(entries_to_map(t) =~= entries_to_map(s).insert(e.code, e.value));
    } else {
        assert(t.drop_last() =~= s.drop_last().update(i, e));
        lemma_entries_update(s.drop_last(), i, e);
        assert(e.code != s.last().code);
        assert(entries_to_map(t) =~= entries_to_map(s).insert(e.code, e.value));
    }
}

proof fn lemma_has_code_push_at<V>(s: Seq<CodeEntry<V>>, e: CodeEntry<V>, c: u16)
    ensures
        has_code(s.push(e), c) <==> (has_code(s, c) || e.code == c),
{
    if has_code(s.push(e), c) {
        let i = choose|i: int| 0 <= i < s.push(e).len() && s.push(e)[i].code == c;
        if i < s.len() {
            assert(s[i].code == c);
        }
    }
    if has_code(s, c) {
        let i = choose|i: int| 0 <= i < s.len() && s[i].code == c;
        assert(s.push(e)[i].code == c);
    }
    if e.code == c {
        assert(s.push(e)[s.len() as int].code == c);
    }
}

impl<V: Copy> CodeMap<V> {
    /// Pairwise distinct entry codes.
    pub closed spec fn wf(&self) -> bool {
        unique_codes(self.entries@)
    }

    /// An empty map.
    pub fn new() -> (r: Self)
        ensures
            r.wf(),
            r@ == Map::<u16, V>::empty(),
    {
        CodeMap { entries: Vec::new() }
    }

    #[verifier::loop_isolation(false)]
    fn find(&self, code: u16) -> (r: Option<usize>)
        ensures
            match r {
                Some(i) => i < self.entries@.len() && self.entries@[i as int].code == code,
                None => !has_code(self.entries@, code),
            },
    {
        let mut i: usize = 0;
        while i < self.entries.len()
            invariant
                i <= self.entries@.len(),
                forall|j: int| 0 <= j < i ==> self.entries@[j].code != code,
            decreases self.entries@.len() - i,
        {
            if self.entries[i].code == code {
                return Some(i);
            }
            i = i + 1;
        }
        assert(!has_code(self.entries@, code)) by {
            if has_code(self.entries@, code) {
                let j = choose|j: int| 0 <= j < self.entries@.len() && self.entries@[j].code == code;
                assert(false);
            }
        }
        None
    }

    /// Whether the map holds an entry for `code`.
    pub fn contains(&self, code: u16) -> (r: bool)
        ensures
            r == self@.contains_key(code),
    {
        proof {
            lemma_entries_dom(self.entries@);
        }
        self.find(code).is_some()
    }

    /// The value recorded for `code`, if any.
    pub fn get(&self, code: u16) -> (r: Option<V>)
        requires
            self.wf(),
        ensures
            r == if self@.contains_key(code) {
                Some(self@[code])
            } else {
                None::<V>
            },
    {
        proof {
            lemma_entries_dom(self.entries@);
            lemma_entries_index(self.entries@);
        }
        match self.find(code) {
            Some(i) => Some(self.entries[i].value),
            None => None,
        }
    }

    /// Record `value` for `code`, replacing any earlier value.
    pub fn insert(&mut self, code: u16, value: V)
        requires
            old(self).wf(),
        ensures
            final(self).wf(),
            final(self)@ == old(self)@.insert(code, value),
    {
        let e = CodeEntry { code, value };
        match self.find(code) {
            Some(i) => {
                proof {
                    lemma_entries_update(self.entries@, i as int, e);
                }
                let ghost s0 = self.entries@;
                self.entries.set(i, e);
                assert(self.wf()) by {
                    assert(forall|k: int|
                        0 <= k < self.entries@.len() ==> self.entries@[k].code == s0[k].code);
                }
            },
            None => {
                let ghost s0 = self.entries@;
                self.entries.push(e);
                proof {
                    assert(self.entries@.drop_last() =~= s0);
                    assert(self.wf()) by {
                        assert(forall|j: int| 0 <= j < s0.len() ==> s0[j].code != code);
                    }
                }
            },
        }
    }

    /// The number of codes the map holds.
    pub fn len(&self) -> (n: usize)
        requires
            self.wf(),
        ensures
            n == self@.dom().len(),
    {
        proof {
            lemma_entries_len(self.entries@);
        }
        self.entries.len()
    }

    /// Overwrite every recorded value with `value`, keeping the key set.
    #[verifier::loop_isolation(false)]
    pub fn set_all(&mut self, value: V)
        requires
            old(self).wf(),
        ensures
            final(self).wf(),
            final(self)@.dom() == old(self)@.dom(),
            forall|c: u16| #[trigger] final(self)@.contains_key(c) ==> final(self)@[c] == value,
    {
        let ghost s0 = self.entries@;
        let mut i: usize = 0;
        while i < self.entries.len()
            invariant
                i <= self.entries@.len(),
                self.entries@.len() == s0.len(),
                forall|j: int| 0 <= j < s0.len() ==> self.entries@[j].code == s0[j].code,
                forall|j: int| 0 <= j < i ==> self.entries@[j].value == value,
                forall|j: int| i <= j < s0.len() ==> self.entries@[j].value == s0[j].value,
                unique_codes(s0),
            decreases s0.len() - i,
        {
            let code = self.entries[i].code;
            self.entries.set(i, CodeEntry { code, value });
            i = i + 1;
        }
        proof {
            assert forall|i2: int, j2: int|
                0 <= i2 < j2 < self.entries@.len() implies self.entries@[i2].code
                != self.entries@[j2].code by {
                assert(self.entries@[i2].code == s0[i2].code);
                assert(self.entries@[j2].code == s0[j2].code);
            }
            assert(unique_codes(self.entries@));
            lemma_entries_dom(s0);
            lemma_entries_dom(self.entries@);
            lemma_entries_index(self.entries@);
            assert forall|c: u16| #[trigger] has_code(self.entries@, c) <==> has_code(s0, c) by {
                if has_code(self.entries@, c) {
                    let j = choose|j: int|
                        0 <= j < self.entries@.len() && self.entries@[j].code == c;
                    assert(s0[j].code == c);
                }
                if has_code(s0, c) {
                    let j = choose|j: int| 0 <= j < s0.len() && s0[j].code == c;
                    assert(self.entries@[j].code == c);
                }
            }
            assert(self@.dom() =~= old(self)@.dom());
            assert forall|c: u16| #[trigger] self@.contains_key(c) implies self@[c] == value by {
                let j = choose|j: int| 0 <= j < self.entries@.len() && self.entries@[j].code == c;
                assert(self@[self.entries@[j].code] == self.entries@[j].value);
            }
        }
    }

    /// An independent copy with the same contents.
    #[verifier::loop_isolation(false)]
    pub fn duplicate(&self) -> (r: Self)
        requires
            self.wf(),
        ensures
            r.wf(),
            r@ == self@,
    {
        let mut entries: Vec<CodeEntry<V>> = Vec::new();
        let mut i: usize = 0;
        while i < self.entries.len()
            invariant
                i <= self.entries@.len(),
                entries@ =~= self.entries@.subrange(0, i as int),
            decreases self.entries@.len() - i,
        {
            entries.push(self.entries[i]);
            i = i + 1;
        }
        proof {
            assert(entries@ =~= self.entries@);
        }
        CodeMap { entries }
    }
}

/// A level-triggered merge: every code named by both maps takes the update's
/// value; the key set of `state` is unchanged.
pub open spec fn plain_merge(state: Map<u16, i64>, update: Map<u16, i64>) -> Map<u16, i64> {
    Map::new(
        |c: u16| state.contains_key(c),
        |c: u16|
            if update.contains_key(c) {
                update[c]
            } else {
                state[c]
            },
    )
}

/// Milliseconds elapsed from a recorded instant to `now`; zero if the
/// recorded instant lies in the future.
pub open spec fn elapsed(now: u64, t: u64) -> int {
    if t <= now {
        now - t
    } else {
        0
    }
}

/// Whether a discrete update to `code` arriving at `now` passes the debounce
/// filter: it does unless the code was last accepted less than `debounce`
/// milliseconds ago.
pub open spec fn debounce_accepts(times: Map<u16, u64>, code: u16, now: u64, debounce: u64) -> bool {
    !(times.contains_key(code) && elapsed(now, times[code]) < debounce)
}

/// The timestamp map after one update batch naming `codes` arrived at `now`:
/// every accepted code is stamped `now`, rejected and unnamed codes keep
/// their stamps.
pub open spec fn stamped_times(times: Map<u16, u64>, codes: Set<u16>, now: u64, debounce: u64) -> Map<
    u16,
    u64,
> {
    Map::new(
        |c: u16| times.contains_key(c) || (codes.contains(c) && debounce_accepts(times, c, now, debounce)),
        |c: u16|
            if codes.contains(c) && debounce_accepts(times, c, now, debounce) {
                now
            } else {
                times[c]
            },
    )
}

/// A debounced merge of one update batch into a state map: a code named by
/// the update takes its new value only if the debounce filter accepts it, and
/// the key set of `state` is unchanged.
pub open spec fn debounced_merge(
    state: Map<u16, i64>,
    update: Map<u16, i64>,
    times: Map<u16, u64>,
    now: u64,
    debounce: u64,
) -> Map<u16, i64> {
    Map::new(
        |c: u16| state.contains_key(c),
        |c: u16|
            if update.contains_key(c) && debounce_accepts(times, c, now, debounce) {
                update[c]
            } else {
                state[c]
            },
    )
}

/// Debounce decision for one code: consult the shared timestamp map and, when
/// the update is accepted, stamp the code with `now`.
fn should_update(times: &mut CodeMap<u64>, code: u16, now: u64, debounce: u64) -> (r: bool)
    requires
        old(times).wf(),
    ensures
        final(times).wf(),
        r == debounce_accepts(old(times)@, code, now, debounce),
        r ==> final(times)@ == old(times)@.insert(code, now),
        !r ==> final(times)@ == old(times)@,
{
    match times.get(code) {
        Some(t) => {
            let since: u64 = if now >= t {
                now - t
            } else {
                0
            };
            if since < debounce {
                return false;
            }
        },
        None => {},
    }
    times.insert(code, now);
    true
}

impl CodeMap<i64> {
    /// Whether both maps hold exactly the same codes with the same values.
    #[verifier::loop_isolation(false)]
    pub fn same_contents(&self, other: &CodeMap<i64>) -> (r: bool)
        requires
            self.wf(),
            other.wf(),
        ensures
            r == (self@ == other@),
    {
        proof {
            lemma_entries_dom(self.entries@);
            lemma_entries_index(self.entries@);
            lemma_entries_dom(other.entries@);
            lemma_entries_index(other.entries@);
        }
        let mut i: usize = 0;
        while i < self.entries.len()
            invariant
                i <= self.entries@.len(),
                self.wf(),
                other.wf(),
                forall|j: int|
                    0 <= j < i ==> other@.contains_key(#[trigger] self.entries@[j].code)
                        && other@[self.entries@[j].code] == self.entries@[j].value,
                forall|j: int|
                    0 <= j < self.entries@.len() ==> self@.contains_key(
                        #[trigger] self.entries@[j].code,
                    ) && self@[self.entries@[j].code] == self.entries@[j].value,
            decreases self.entries@.len() - i,
        {
            let e = self.entries[i];
            match other.get(e.code) {
                Some(v) => {
                    if v != e.value {
                        proof {
                            assert(self@[e.code] != other@[e.code]);
                        }
                        return false;
                    }
                },
                None => {
                    proof {
                        assert(self@.contains_key(e.code) && !other@.contains_key(e.code));
                    }
                    return false;
                },
            }
            i = i + 1;
        }
        let mut k: usize = 0;
        while k < other.entries.len()
            invariant
                k <= other.entries@.len(),
                self.wf(),
                other.wf(),
                forall|j: int|
                    0 <= j < self.entries@.len() ==> other@.contains_key(
                        #[trigger] self.entries@[j].code,
                    ) && other@[self.entries@[j].code] == self.entries@[j].value,
                forall|j: int|
                    0 <= j < k ==> self@.contains_key(#[trigger] other.entries@[j].code),
                forall|j: int|
                    0 <= j < other.entries@.len() ==> other@.contains_key(
                        #[trigger] other.entries@[j].code,
                    ),
            decreases other.entries@.len() - k,
        {
            let e = other.entries[k];
            if !self.contains(e.code) {
                proof {
                    assert(other@.contains_key(e.code) && !self@.contains_key(e.code));
                }
                return false;
            }
            k = k + 1;
        }
        proof {
            assert(self@ =~= other@) by {
                assert forall|c: u16| self@.contains_key(c) implies other@.contains_key(c)
                    && other@[c] == self@[c] by {
                    lemma_entries_dom(self.entries@);
                    let j = choose|j: int|
                        0 <= j < self.entries@.len() && self.entries@[j].code == c;
                    assert(other@.contains_key(self.entries@[j].code));
                }
                assert forall|c: u16| other@.contains_key(c) implies self@.contains_key(c) by {
                    lemma_entries_dom(other.entries@);
                    let j = choose|j: int|
                        0 <= j < other.entries@.len() && other.entries@[j].code == c;
                    assert(self@.contains_key(other.entries@[j].code));
                }
            }
        }
        true
    }

    /// Merge one update batch without debouncing: codes the state does not
    /// declare are dropped, declared codes take the update's value.
    #[verifier::loop_isolation(false)]
    pub fn merge_plain(&mut self, update: &CodeMap<i64>)
        requires
            old(self).wf(),
            update.wf(),
        ensures
            final(self).wf(),
            final(self)@ == plain_merge(old(self)@, update@),
    {
        let ghost s0 = self@;
        let ghost u = update.entries@;
        proof {
            lemma_entries_dom(u);
            lemma_entries_index(u);
        }
        let mut i: usize = 0;
        while i < update.entries.len()
            invariant
                i <= u.len(),
                update.entries@ == u,
                update.wf(),
                self.wf(),
                forall|c: u16| #[trigger] self@.contains_key(c) == s0.contains_key(c),
                forall|c: u16|
                    s0.contains_key(c) && has_code(#[trigger] u.subrange(0, i as int), c)
                        ==> self@[c] == update@[c],
                forall|c: u16|
                    s0.contains_key(c) && !has_code(#[trigger] u.subrange(0, i as int), c)
                        ==> self@[c] == s0[c],
            decreases u.len() - i,
        {
            let e = update.entries[i];
            let ghost pre = u.subrange(0, i as int);
            if self.contains(e.code) {
                self.insert(e.code, e.value);
            }
            proof {
                assert(u.subrange(0, i + 1 as int) =~= pre.push(e));
                assert(u[i as int] == e);
                assert(update@.contains_key(e.code) && update@[e.code] == e.value);
                assert forall|c: u16|
                    has_code(#[trigger] u.subrange(0, i + 1 as int), c) <==> (has_code(
                        u.subrange(0, i as int),
                        c,
                    ) || e.code == c) by {
                    lemma_has_code_push_at(pre, e, c);
                    assert(has_code(u.subrange(0, i + 1 as int), c) == has_code(pre.push(e), c));
                }
            }
            i = i + 1;
        }
        proof {
            lemma_entries_dom(u);
            assert(u.subrange(0, u.len() as int) =~= u);
            assert forall|c: u16| #[trigger] update@.contains_key(c) == has_code(
                u.subrange(0, u.len() as int),
                c,
            ) by {
                assert(has_code(u.subrange(0, u.len() as int), c) == has_code(u, c));
            }
            assert(self@ =~= plain_merge(s0, update@));
        }
    }
}

/// Merge one debounced update batch (buttons or hats) into a state map,
/// consulting and stamping the shared timestamp map code by code.
#[verifier::loop_isolation(false)]
pub fn merge_debounced(
    state: &mut CodeMap<i64>,
    times: &mut CodeMap<u64>,
    update: &CodeMap<i64>,
    now: u64,
    debounce: u64,
)
    requires
        old(state).wf(),
        old(times).wf(),
        update.wf(),
    ensures
        final(state).wf(),
        final(times).wf(),
        final(state)@ == debounced_merge(old(state)@, update@, old(times)@, now, debounce),
        final(times)@ == stamped_times(old(times)@, update@.dom(), now, debounce),
{
    let ghost s0 = state@;
    let ghost t0 = times@;
    let ghost u = update.entries@;
    proof {
        lemma_entries_dom(u);
        lemma_entries_index(u);
    }
    let mut i: usize = 0;
    while i < update.entries.len()
        invariant
            i <= u.len(),
            update.entries@ == u,
            update.wf(),
            state.wf(),
            times.wf(),
            forall|c: u16| #[trigger] state@.contains_key(c) == s0.contains_key(c),
            forall|c: u16|
                s0.contains_key(c) && has_code(#[trigger] u.subrange(0, i as int), c)
                    ==> state@[c] == (if debounce_accepts(t0, c, now, debounce) {
                    update@[c]
                } else {
                    s0[c]
                }),
            forall|c: u16|
                s0.contains_key(c) && !has_code(#[trigger] u.subrange(0, i as int), c)
                    ==> state@[c] == s0[c],
            forall|c: u16|
                has_code(#[trigger] u.subrange(0, i as int), c) ==> (#[trigger] times@.contains_key(
                    c,
                ) == (t0.contains_key(c) || debounce_accepts(t0, c, now, debounce))
                    && (times@.contains_key(c) ==> times@[c] == (
                    if debounce_accepts(t0, c, now, debounce) {
                        now
                    } else {
                        t0[c]
                    }))),
            forall|c: u16|
                !has_code(#[trigger] u.subrange(0, i as int), c) ==> #[trigger] times@.contains_key(
                    c,
                ) == t0.contains_key(c) && (t0.contains_key(c) ==> times@[c] == t0[c]),
        decreases u.len() - i,
    {
        let e = update.entries[i];
        let ghost pre = u.subrange(0, i as int);
        let ghost t_in = times@;
        let ghost s_in = state@;
        proof {
            assert(!has_code(pre, e.code)) by {
                if has_code(pre, e.code) {
                    let j = choose|j: int| 0 <= j < pre.len() && pre[j].code == e.code;
                    assert(u[j].code == u[i as int].code);
                    assert(false);
                }
            }
            assert(t_in.contains_key(e.code) == t0.contains_key(e.code));
            assert(t0.contains_key(e.code) ==> t_in[e.code] == t0[e.code]);
            assert(debounce_accepts(t_in, e.code, now, debounce) == debounce_accepts(
                t0,
                e.code,
                now,
                debounce,
            ));
        }
        let accepted = should_update(times, e.code, now, debounce);
        if accepted {
            if state.contains(e.code) {
                state.insert(e.code, e.value);
            }
        }
        proof {
            let ghost nxt = u.subrange(0, i + 1 as int);
            assert(accepted == debounce_accepts(t0, e.code, now, debounce));
            assert(nxt =~= pre.push(e));
            assert(u[i as int] == e);
            assert(update@.contains_key(e.code) && update@[e.code] == e.value);
            if accepted {
                assert(times@ == t_in.insert(e.code, now));
            } else {
                assert(times@ == t_in);
            }
            if accepted && s_in.contains_key(e.code) {
                assert(state@ == s_in.insert(e.code, e.value));
            } else {
                assert(state@ == s_in);
            }
            assert forall|c: u16| #[trigger] state@.contains_key(c) == s0.contains_key(c) by {
                assert(s_in.contains_key(c) == s0.contains_key(c));
            }
            assert forall|c: u16|
                s0.contains_key(c) && has_code(#[trigger] u.subrange(0, i + 1 as int), c)
                    implies state@[c] == (if debounce_accepts(t0, c, now, debounce) {
                update@[c]
            } else {
                s0[c]
            }) by {
                lemma_has_code_push_at(pre, e, c);
                assert(has_code(nxt, c) == has_code(pre.push(e), c));
                if c == e.code {
                    assert(s_in.contains_key(c) == s0.contains_key(c));
                } else {
                    assert(has_code(pre, c));
                    assert(state@[c] == s_in[c]);
                }
            }
            assert forall|c: u16|
                s0.contains_key(c) && !has_code(#[trigger] u.subrange(0, i + 1 as int), c)
                    implies state@[c] == s0[c] by {
                lemma_has_code_push_at(pre, e, c);
                assert(has_code(nxt, c) == has_code(pre.push(e), c));
                assert(!has_code(pre, c) && c != e.code);
                assert(state@[c] == s_in[c]);
            }
            assert forall|c: u16|
                has_code(#[trigger] u.subrange(0, i + 1 as int), c) implies (
            #[trigger] times@.contains_key(c) == (t0.contains_key(c) || debounce_accepts(
                t0,
                c,
                now,
                debounce,
            )) && (times@.contains_key(c) ==> times@[c] == (if debounce_accepts(
                t0,
                c,
                now,
                debounce,
            ) {
                now
            } else {
                t0[c]
            }))) by {
                lemma_has_code_push_at(pre, e, c);
                assert(has_code(nxt, c) == has_code(pre.push(e), c));
                if c != e.code {
                    assert(has_code(pre, c));
                    assert(times@.contains_key(c) == t_in.contains_key(c));
                    assert(t_in.contains_key(c) ==> times@[c] == t_in[c]);
                }
            }
            assert forall|c: u16|
                !has_code(#[trigger] u.subrange(0, i + 1 as int), c) implies (
            #[trigger] times@.contains_key(c) == t0.contains_key(c) && (t0.contains_key(c)
                ==> times@[c] == t0[c])) by {
                lemma_has_code_push_at(pre, e, c);
                assert(has_code(nxt, c) == has_code(pre.push(e), c));
                assert(!has_code(pre, c) && c != e.code);
                assert(t_in.contains_key(c) == t0.contains_key(c));
                assert(t0.contains_key(c) ==> t_in[c] == t0[c]);
                assert(times@.contains_key(c) == t_in.contains_key(c));
                assert(t_in.contains_key(c) ==> times@[c] == t_in[c]);
            }
        }
        i = i + 1;
    }
    proof {
        lemma_entries_dom(u);
        assert(u.subrange(0, u.len() as int) =~= u);
        assert forall|c: u16| #[trigger] update@.contains_key(c) == has_code(
            u.subrange(0, u.len() as int),
            c,
        ) by {
            assert(has_code(u.subrange(0, u.len() as int), c) == has_code(u, c));
        }
        assert(state@ =~= debounced_merge(s0, update@, t0, now, debounce));
        assert(times@ =~= stamped_times(t0, update@.dom(), now, debounce));
    }
}

} // verus!
