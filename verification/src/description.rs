//! Device descriptions: the declared schema of a device's axis, button and
//! hat codes, and the zeroed initial state built from it.

use crate::code_map::CodeMap;
use crate::state::{JoystickState, StateView};
use vstd::prelude::*;

verus! {

/// One declared input of a device: its hardware code and a cosmetic alias.
pub struct DeviceItem {
    /// The hardware code of the input.
    pub code: u16,
    /// An alias for the input, used for easier reference.
    pub alias: Option<String>,
}

impl DeviceItem {
    /// A new item with the given code and optional alias.
    pub fn new(code: u16, alias: Option<String>) -> (r: Self)
        ensures
            r.code == code,
            r.alias == alias,
    {
        DeviceItem { code, alias }
    }
}

/// The declared schema of one device: its name (the key used to match it
/// against connected hardware), some descriptive metadata, and the lists of
/// its axis, button and hat codes.
pub struct DeviceDescription {
    pub device_name: String,
    pub author: Option<String>,
    pub created: Option<String>,
    pub description: Option<String>,
    pub axes: Vec<DeviceItem>,
    pub buttons: Vec<DeviceItem>,
    pub hats: Vec<DeviceItem>,
}

/// Whether some item of `items` declares `code`.
pub open spec fn item_has_code(items: Seq<DeviceItem>, code: u16) -> bool {
    exists|i: int| 0 <= i < items.len() && items[i].code == code
}

/// The zeroed map over exactly the declared codes.
pub open spec fn zeroed_codes(items: Seq<DeviceItem>) -> Map<u16, i64> {
    Map::new(|c: u16| item_has_code(items, c), |c: u16| 0i64)
}

/// The zeroed state of one described device: every declared axis, button and
/// hat present, every value zero.
pub open spec fn zeroed_state(d: DeviceDescription) -> StateView {
    StateView {
        axes: zeroed_codes(d.axes@),
        buttons: zeroed_codes(d.buttons@),
        hats: zeroed_codes(d.hats@),
    }
}

/// The zeroed registry over a description list: one zeroed state per
/// description, keyed by device name; a later description of the same name
/// wins.
pub open spec fn zeroed_registry(descs: Seq<DeviceDescription>) -> Map<Seq<char>, StateView>
    decreases descs.len(),
{
    if descs.len() == 0 {
        Map::empty()
    } else {
        zeroed_registry(descs.drop_last()).insert(
            descs.last().device_name@,
            zeroed_state(descs.last()),
        )
    }
}

/// Law: the zeroed registry over descriptions with pairwise distinct names
/// holds exactly one entry per description, keyed by its name, and that
/// entry is the description's zeroed state — every declared code present
/// with value zero, no other code present.
pub proof fn lemma_zeroed_registry_lookup(descs: Seq<DeviceDescription>)
    requires
        forall|i: int, j: int|
            0 <= i < j < descs.len() ==> descs[i].device_name@ != descs[j].device_name@,
    ensures
        forall|n: Seq<char>| #[trigger]
            zeroed_registry(descs).contains_key(n) <==> exists|i: int|
                0 <= i < descs.len() && descs[i].device_name@ == n,
        forall|i: int|
            0 <= i < descs.len() ==> zeroed_registry(descs)[#[trigger] descs[i].device_name@]
                == zeroed_state(descs[i]),
    decreases descs.len(),
{
    if descs.len() > 0 {
        let pre = descs.drop_last();
        lemma_zeroed_registry_lookup(pre);
        assert forall|n: Seq<char>| #[trigger] zeroed_registry(descs).contains_key(n) <==> exists|
            i: int,
        | 0 <= i < descs.len() && descs[i].device_name@ == n by {
            if zeroed_registry(descs).contains_key(n) {
                if n == descs.last().device_name@ {
                    assert(descs[descs.len() - 1].device_name@ == n);
                } else {
                    assert(zeroed_registry(pre).contains_key(n));
                    let i = choose|i: int| 0 <= i < pre.len() && pre[i].device_name@ == n;
                    assert(descs[i].device_name@ == n);
                }
            }
            if exists|i: int| 0 <= i < descs.len() && descs[i].device_name@ == n {
                let i = choose|i: int| 0 <= i < descs.len() && descs[i].device_name@ == n;
                if i < descs.len() - 1 {
                    assert(pre[i].device_name@ == n);
                    assert(zeroed_registry(pre).contains_key(n));
                }
            }
        }
        assert forall|i: int|
            0 <= i < descs.len() implies zeroed_registry(descs)[#[trigger] descs[i].device_name@]
            == zeroed_state(descs[i]) by {
            if i < descs.len() - 1 {
                assert(pre[i].device_name@ == descs[i].device_name@ && pre[i] == descs[i]);
                assert(descs[i].device_name@ != descs[descs.len() - 1].device_name@);
            }
        }
    }
}

proof fn lemma_item_has_code_push_at(items: Seq<DeviceItem>, it: DeviceItem, c: u16)
    ensures
        item_has_code(items.push(it), c) <==> (item_has_code(items, c) || it.code == c),
{
    if item_has_code(items.push(it), c) {
        let i = choose|i: int| 0 <= i < items.push(it).len() && items.push(it)[i].code == c;
        if i < items.len() {
            assert(items[i].code == c);
        }
    }
    if item_has_code(items, c) {
        let i = choose|i: int| 0 <= i < items.len() && items[i].code == c;
        assert(items.push(it)[i].code == c);
    }
    if it.code == c {
        assert(items.push(it)[items.len() as int].code == c);
    }
}

/// A map holding zero for exactly the codes that `items` declares.
#[verifier::loop_isolation(false)]
fn zeroed_codes_map(items: &Vec<DeviceItem>) -> (m: CodeMap<i64>)
    ensures
        m.wf(),
        m@ == zeroed_codes(items@),
{
    let mut m: CodeMap<i64> = CodeMap::new();
    let mut i: usize = 0;
    while i < items.len()
        invariant
            i <= items@.len(),
            m.wf(),
            m@ == zeroed_codes(items@.subrange(0, i as int)),
        decreases items@.len() - i,
    {
        let code = items[i].code;
        m.insert(code, 0);
        proof {
            let pre = items@.subrange(0, i as int);
            let nxt = items@.subrange(0, i + 1 as int);
            assert(nxt =~= pre.push(items@[i as int]));
            assert(m@ =~= zeroed_codes(nxt)) by {
                assert forall|c: u16| #[trigger] item_has_code(nxt, c) <==> (item_has_code(pre, c)
                    || code == c) by {
                    lemma_item_has_code_push_at(pre, items@[i as int], c);
                }
            }
        }
        i = i + 1;
    }
    proof {
        assert(items@.subrange(0, items@.len() as int) =~= items@);
    }
    m
}

impl DeviceDescription {
    /// A new description; a missing name falls back to "Unknown Device",
    /// missing input lists fall back to empty.
    pub fn new(
        device_name: Option<String>,
        author: Option<String>,
        created: Option<String>,
        description: Option<String>,
        axes: Option<Vec<DeviceItem>>,
        buttons: Option<Vec<DeviceItem>>,
        hats: Option<Vec<DeviceItem>>,
    ) -> (d: Self)
        ensures
            match device_name {
                Some(n) => d.device_name == n,
                None => d.device_name@ == "Unknown Device"@,
            },
            d.author == author,
            d.created == created,
            d.description == description,
            match axes {
                Some(v) => d.axes == v,
                None => d.axes@.len() == 0,
            },
            match buttons {
                Some(v) => d.buttons == v,
                None => d.buttons@.len() == 0,
            },
            match hats {
                Some(v) => d.hats == v,
                None => d.hats@.len() == 0,
            },
    {
        let name = match device_name {
            Some(n) => n,
            None => "Unknown Device".to_owned(),
        };
        DeviceDescription {
            device_name: name,
            author,
            created,
            description,
            axes: match axes {
                Some(v) => v,
                None => Vec::new(),
            },
            buttons: match buttons {
                Some(v) => v,
                None => Vec::new(),
            },
            hats: match hats {
                Some(v) => v,
                None => Vec::new(),
            },
        }
    }

    /// The zeroed initial state of this device: the key set of each map is
    /// exactly the declared codes of that category, and every value is zero.
    pub fn build_state(&self) -> (s: JoystickState)
        ensures
            s.wf(),
            s@ == zeroed_state(*self),
    {
        let s = JoystickState {
            axes: zeroed_codes_map(&self.axes),
            buttons: zeroed_codes_map(&self.buttons),
            hats: zeroed_codes_map(&self.hats),
        };
        assert(s@ =~= zeroed_state(*self));
        s
    }
}

} // verus!
