//! Hotplug detection: each poll diffs the adapters now attached against the
//! addresses already known and reports what was added and what was removed.
use vstd::prelude::*;
use crate::{PRODUCT_ID, VENDOR_ID};

verus! {

/// What the enumeration of the bus says of one attached device.
#[derive(Clone, Copy, Debug, PartialEq, Eq, Structural)]
pub struct DeviceInfo {
    pub address: u8,
    pub vendor_id: u16,
    pub product_id: u16,
}

/// A change in the set of attached adapters, by bus address.
#[derive(Clone, Copy, Debug, PartialEq, Eq, Structural)]
pub enum AdapterEvent {
    Added(u8),
    Removed(u8),
}

/// Whether a device is a GameCube adapter.
pub open spec fn is_adapter(d: DeviceInfo) -> bool {
    d.vendor_id == VENDOR_ID && d.product_id == PRODUCT_ID
}

/// Whether one of the first `n` devices is an adapter at address `a`.
pub open spec fn present_in(devices: Seq<DeviceInfo>, n: int, a: u8) -> bool {
    exists|k: int| 0 <= k < n && is_adapter(#[trigger] devices[k]) && devices[k].address == a
}

/// Whether an adapter at address `a` is among `devices`.
pub open spec fn is_present(devices: Seq<DeviceInfo>, a: u8) -> bool {
    present_in(devices, devices.len() as int, a)
}

/// What one poll owes: `known` is the set of addresses before it, `devices`
/// what the bus reported, `events` what it emitted and `known_after` the set
/// of addresses after it. Removals come before additions.
pub open spec fn poll_outcome(
    known: Seq<u8>,
    devices: Seq<DeviceInfo>,
    events: Seq<AdapterEvent>,
    known_after: Seq<u8>,
) -> bool {
    &&& known_after.no_duplicates()
    &&& forall|a: u8| #[trigger] known_after.contains(a) <==> is_present(devices, a)
    &&& forall|a: u8|
        #[trigger] events.contains(AdapterEvent::Removed(a)) <==> (known.contains(a)
            && !is_present(devices, a))
    &&& forall|a: u8|
        #[trigger] events.contains(AdapterEvent::Added(a)) <==> (!known.contains(a)
            && is_present(devices, a))
    &&& events.no_duplicates()
    &&& forall|i: int, j: int|
        0 <= i < j < events.len() && #[trigger] events[i] is Added ==> #[trigger] events[j] is Added
}

/// Whether `a` is in `v`.
pub fn contains_address(v: &Vec<u8>, a: u8) -> (r: bool)
    ensures
        r == v@.contains(a),
{
    let mut i: usize = 0;
    while i < v.len()
        invariant
            i <= v@.len(),
            forall|k: int| 0 <= k < i ==> v@[k] != a,
        decreases v.len() - i,
    {
        if v[i] == a {
            return true;
        }
        i = i + 1;
    }
    false
}

/// Whether a device is a GameCube adapter.
pub fn device_is_adapter(d: &DeviceInfo) -> (r: bool)
    ensures
        r == is_adapter(*d),
{
    d.vendor_id == VENDOR_ID && d.product_id == PRODUCT_ID
}

/// Whether an adapter at address `a` is among `devices`.
pub fn adapter_present(devices: &Vec<DeviceInfo>, a: u8) -> (r: bool)
    ensures
        r == is_present(devices@, a),
{
    let mut i: usize = 0;
    while i < devices.len()
        invariant
            i <= devices@.len(),
            !present_in(devices@, i as int, a),
        decreases devices.len() - i,
    {
        let d = devices[i];
        if device_is_adapter(&d) && d.address == a {
            return true;
        }
        i = i + 1;
    }
    false
}

/// The loop that watches the bus: it remembers the addresses of the adapters
/// attached at the last poll.
pub struct HotplugMonitor {
    known: Vec<u8>,
}

impl View for HotplugMonitor {
    type V = Seq<u8>;

    closed spec fn view(&self) -> Seq<u8> {
        self.known@
    }
}

impl HotplugMonitor {
    /// Well formed: no address is known twice.
    pub open spec fn wf(&self) -> bool {
        self@.no_duplicates()
    }

    /// A monitor that knows no adapter.
    pub fn new() -> (m: HotplugMonitor)
        ensures
            m.wf(),
            m@ == Seq::<u8>::empty(),
    {
        HotplugMonitor { known: Vec::new() }
    }

    /// The addresses known after the last poll.
    pub fn known_addresses(&self) -> (r: &Vec<u8>)
        ensures
            r@ == self@,
    {
        &self.known
    }

    /// Takes the devices that one enumeration of the bus reported, emits a
    /// `Removed` for each known adapter that is gone and an `Added` for each
    /// adapter that is new, and remembers the adapters now present.
    pub fn poll(&mut self, devices: &Vec<DeviceInfo>) -> (events: Vec<AdapterEvent>)
        requires
            old(self).wf(),
        ensures
            final(self).wf(),
            poll_outcome(old(self)@, devices@, events@, final(self)@),
    {
        let ghost known = self@;
        let mut events: Vec<AdapterEvent> = Vec::new();
        let mut kept: Vec<u8> = Vec::new();
        let n = self.known.len();
        let mut i: usize = 0;
        while i < n
            invariant
                n == known.len(),
                self@ == known,
                known.no_duplicates(),
                i <= n,
                kept@.no_duplicates(),
                events@.no_duplicates(),
                forall|a: u8|
                    #[trigger] kept@.contains(a) <==> (known.subrange(0, i as int).contains(a)
                        && is_present(devices@, a)),
                forall|a: u8|
                    #[trigger] events@.contains(AdapterEvent::Removed(a)) <==> (known.subrange(
                        0,
                        i as int,
                    ).contains(a) && !is_present(devices@, a)),
                forall|k: int| 0 <= k < events@.len() ==> #[trigger] events@[k] is Removed,
            decreases n - i,
        {
            let a = self.known[i];
            proof {
                assert(known.subrange(0, i as int + 1) =~= known.subrange(0, i as int).push(a));
                assert(!known.subrange(0, i as int).contains(a)) by {
                    if known.subrange(0, i as int).contains(a) {
                        let k = choose|k: int|
                            0 <= k < i && #[trigger] known.subrange(0, i as int)[k] == a;
                        assert(known[k] == known[i as int]);
                    }
                }
            }
            proof {
                lemma_push_facts(kept@, a);
                lemma_push_facts(events@, AdapterEvent::Removed(a));
                lemma_push_facts(known.subrange(0, i as int), a);
            }
            if adapter_present(devices, a) {
                kept.push(a);
            } else {
                events.push(AdapterEvent::Removed(a));
            }
            i = i + 1;
        }
        proof {
            assert(known.subrange(0, n as int) =~= known);
        }
        let ghost n_removed = events@.len();
        let m = devices.len();
        let mut j: usize = 0;
        while j < m
            invariant
                m == devices@.len(),
                j <= m,
                n_removed <= events@.len(),
                kept@.no_duplicates(),
                events@.no_duplicates(),
                forall|a: u8|
                    #[trigger] kept@.contains(a) <==> ((known.contains(a) && is_present(
                        devices@,
                        a,
                    )) || present_in(devices@, j as int, a)),
                forall|a: u8|
                    #[trigger] events@.contains(AdapterEvent::Removed(a)) <==> (known.contains(a)
                        && !is_present(devices@, a)),
                forall|a: u8|
                    #[trigger] events@.contains(AdapterEvent::Added(a)) <==> (!known.contains(a)
                        && present_in(devices@, j as int, a)),
                forall|k: int| 0 <= k < n_removed ==> #[trigger] events@[k] is Removed,
                forall|k: int| n_removed <= k < events@.len() ==> #[trigger] events@[k] is Added,
            decreases m - j,
        {
            let d = devices[j];
            proof {
                assert forall|a: u8|
                    present_in(devices@, j as int + 1, a) <==> (present_in(devices@, j as int, a)
                        || (is_adapter(d) && d.address == a)) by {
                    if present_in(devices@, j as int + 1, a) && !(is_adapter(d) && d.address
                        == a) {
                        let k = choose|k: int|
                            0 <= k < j + 1 && is_adapter(#[trigger] devices@[k])
                                && devices@[k].address == a;
                        assert(k < j);
                    }
                    if is_adapter(d) && d.address == a {
                        assert(devices@[j as int] == d);
                    }
                }
                if is_adapter(d) {
                    assert(is_present(devices@, d.address)) by {
                        assert(devices@[j as int] == d);
                    }
                }
            }
            if device_is_adapter(&d) && !contains_address(&kept, d.address) {
                proof {
                    assert(!events@.contains(AdapterEvent::Added(d.address)));
                    lemma_push_facts(kept@, d.address);
                    lemma_push_facts(events@, AdapterEvent::Added(d.address));
                }
                kept.push(d.address);
                events.push(AdapterEvent::Added(d.address));
            }
            j = j + 1;
        }
        self.known = kept;
        events
    }

    /// Takes the outcome of one enumeration of the bus: a failed enumeration
    /// contributes no events and leaves the known addresses as they are, to
    /// be retried at the next poll; a successful one is diffed as by `poll`.
    pub fn poll_enumeration(&mut self, enumerated: Option<Vec<DeviceInfo>>) -> (events: Vec<
        AdapterEvent,
    >)
        requires
            old(self).wf(),
        ensures
            final(self).wf(),
            enumerated is None ==> *final(self) == *old(self) && events@.len() == 0,
            enumerated matches Some(devices) ==> poll_outcome(
                old(self)@,
                devices@,
                events@,
                final(self)@,
            ),
    {
        match enumerated {
            None => Vec::new(),
            Some(devices) => self.poll(&devices),
        }
    }
}

/// What pushing `x` onto `s` does to membership and to uniqueness.
proof fn lemma_push_facts<A>(s: Seq<A>, x: A)
    ensures
        forall|b: A| #[trigger] s.push(x).contains(b) <==> (s.contains(b) || b == x),
        s.no_duplicates() && !s.contains(x) ==> s.push(x).no_duplicates(),
{
    let t = s.push(x);
    assert forall|b: A| #[trigger] t.contains(b) <==> (s.contains(b) || b == x) by {
        if t.contains(b) && b != x {
            let k = choose|k: int| 0 <= k < t.len() && t[k] == b;
            assert(s[k] == b);
        }
        if s.contains(b) {
            let k = choose|k: int| 0 <= k < s.len() && s[k] == b;
            assert(t[k] == b);
        }
        if b == x {
            assert(t[s.len() as int] == b);
        }
    }
    if s.no_duplicates() && !s.contains(x) {
        assert forall|p: int, q: int| 0 <= p < t.len() && 0 <= q < t.len() && p != q implies t[p]
            != t[q] by {
            if p < s.len() && q < s.len() {
                assert(s[p] != s[q]);
            } else if p < s.len() {
                assert(s.contains(s[p]));
            } else {
                assert(s.contains(s[q]));
            }
        }
    }
}

/// While the set of attached adapters does not change, a poll emits nothing.
pub proof fn lemma_steady_presence_is_silent(
    known: Seq<u8>,
    devices: Seq<DeviceInfo>,
    events: Seq<AdapterEvent>,
    known_after: Seq<u8>,
)
    requires
        poll_outcome(known, devices, events, known_after),
        forall|a: u8| #[trigger] known.contains(a) <==> is_present(devices, a),
    ensures
        events.len() == 0,
{
    if events.len() > 0 {
        let e = events[0];
        assert(events.contains(e));
        match e {
            AdapterEvent::Added(a) => {
                assert(known.contains(a));
            },
            AdapterEvent::Removed(a) => {
                assert(known.contains(a));
            },
        }
    }
}

/// A poll that first sees an adapter emits its `Added` exactly once, and one
/// that no longer sees a known adapter emits its `Removed` exactly once.
pub proof fn lemma_changes_reported_once(
    known: Seq<u8>,
    devices: Seq<DeviceInfo>,
    events: Seq<AdapterEvent>,
    known_after: Seq<u8>,
    a: u8,
)
    requires
        poll_outcome(known, devices, events, known_after),
    ensures
        !known.contains(a) && is_present(devices, a) ==> events.filter(
            |e: AdapterEvent| e == AdapterEvent::Added(a),
        ).len() == 1,
        known.contains(a) && !is_present(devices, a) ==> events.filter(
            |e: AdapterEvent| e == AdapterEvent::Removed(a),
        ).len() == 1,
        is_present(devices, a) ==> known_after.contains(a),
        !is_present(devices, a) ==> !known_after.contains(a),
{
    if !known.contains(a) && is_present(devices, a) {
        lemma_unique_count(events, AdapterEvent::Added(a));
    }
    if known.contains(a) && !is_present(devices, a) {
        lemma_unique_count(events, AdapterEvent::Removed(a));
    }
}

/// An element of a sequence without duplicates occurs in it exactly once.
proof fn lemma_unique_count(s: Seq<AdapterEvent>, x: AdapterEvent)
    requires
        s.no_duplicates(),
        s.contains(x),
    ensures
        s.filter(|e: AdapterEvent| e == x).len() == 1,
    decreases s.len(),
{
    let f = |e: AdapterEvent| e == x;
    reveal(Seq::filter);
    let t = s.drop_last();
    assert(s =~= t.push(s.last()));
    if s.last() == x {
        assert(!t.contains(x)) by {
            if t.contains(x) {
                let k = choose|k: int| 0 <= k < t.len() && t[k] == x;
                assert(s[k] == s[s.len() - 1]);
            }
        }
        lemma_absent_count(t, x);
    } else {
        assert(t.no_duplicates()) by {
            assert forall|p: int, q: int| 0 <= p < t.len() && 0 <= q < t.len() && p != q implies t[p] != t[q] by {
                assert(s[p] != s[q]);
            }
        }
        let k = choose|k: int| 0 <= k < s.len() && s[k] == x;
        assert(t[k] == x);
        lemma_unique_count(t, x);
    }
}

/// An element absent from a sequence occurs in it zero times.
proof fn lemma_absent_count(s: Seq<AdapterEvent>, x: AdapterEvent)
    requires
        !s.contains(x),
    ensures
        s.filter(|e: AdapterEvent| e == x).len() == 0,
    decreases s.len(),
{
    reveal(Seq::filter);
    if s.len() > 0 {
        let t = s.drop_last();
        assert(s =~= t.push(s.last()));
        assert(s[s.len() - 1] == s.last());
        assert(!t.contains(x)) by {
            if t.contains(x) {
                let k = choose|k: int| 0 <= k < t.len() && t[k] == x;
                assert(s[k] == x);
            }
        }
        lemma_absent_count(t, x);
    }
}

} // verus!
