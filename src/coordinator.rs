//! The polling coordinator's state and decisions: which adapters are live,
//! which slot base each holds, the working snapshot of every controller, and
//! the plug and unplug transitions that each event or report causes.
use vstd::prelude::*;
use crate::controller::{
    decode, port_bytes, port_slice, spec_decode, unplugged_state, ControllerId, ControllerState,
    PORTS_PER_ADAPTER,
};
use crate::slots::{
    after_alloc, all_taken_below, lemma_lowest_free, lemma_released_base_reused, lowest_free,
    ControllerSlots,
};
use crate::sync_cell::SyncCell;

verus! {

/// The most slot bases the table can hold, so that every controller id fits
/// in a `usize`.
pub const MAX_SLOT_BASES: usize = usize::MAX / 4;

/// A plug or unplug transition of one controller, for the application's
/// callbacks.
#[derive(Clone, Copy, Debug, PartialEq, Eq, Structural)]
pub enum ControllerEvent {
    Plugged(ControllerId),
    Unplugged(ControllerId),
}

/// A live adapter: its bus address and the slot base of its four ports.
#[derive(Clone, Copy, Debug, PartialEq, Eq, Structural)]
pub struct AdapterSlot {
    pub address: u8,
    pub base: usize,
}

/// The controller id of port `port` of the adapter at slot base `base`.
pub open spec fn port_id(base: int, port: int) -> int {
    4 * base + port
}

/// The state that port `p` of a whole-adapter report describes.
pub open spec fn port_state(report: Seq<u8>, p: int) -> ControllerState {
    spec_decode(port_slice(report, p))
}

/// The callback that a change of the plugged flag from `was` to `now` causes
/// for controller `id`.
pub open spec fn transition(was: bool, now: bool, id: int) -> Seq<ControllerEvent> {
    if now && !was {
        seq![ControllerEvent::Plugged(id as usize)]
    } else if !now && was {
        seq![ControllerEvent::Unplugged(id as usize)]
    } else {
        Seq::empty()
    }
}

/// The callbacks that the first `n` ports of a report cause, in port order.
pub open spec fn report_events(
    states: Seq<ControllerState>,
    base: int,
    report: Seq<u8>,
    n: int,
) -> Seq<ControllerEvent>
    decreases n,
{
    if n <= 0 {
        Seq::empty()
    } else {
        report_events(states, base, report, n - 1) + port_events(states, base, report, n - 1)
    }
}

/// The callback that port `q` of a report causes.
pub open spec fn port_events(states: Seq<ControllerState>, base: int, report: Seq<u8>, q: int) -> Seq<
    ControllerEvent,
> {
    transition(states[port_id(base, q)].plugged_in, port_state(report, q).plugged_in, port_id(base, q))
}

/// The unplug callbacks that removing the adapter at `base` causes for its
/// first `n` ports, in port order: one for each port that was plugged.
pub open spec fn unplug_events(states: Seq<ControllerState>, base: int, n: int) -> Seq<
    ControllerEvent,
>
    decreases n,
{
    if n <= 0 {
        Seq::empty()
    } else {
        let prev = unplug_events(states, base, n - 1);
        if states[port_id(base, n - 1)].plugged_in {
            prev.push(ControllerEvent::Unplugged(port_id(base, n - 1) as usize))
        } else {
            prev
        }
    }
}

/// The snapshot with the first `n` ports at `base` replaced by what the
/// report says.
pub open spec fn apply_ports(states: Seq<ControllerState>, base: int, report: Seq<u8>, n: int) -> Seq<
    ControllerState,
> {
    Seq::new(
        states.len(),
        |i: int|
            if port_id(base, 0) <= i < port_id(base, n) {
                port_state(report, i - port_id(base, 0))
            } else {
                states[i]
            },
    )
}

/// The snapshot with the first `n` ports at `base` reset to unplugged.
pub open spec fn clear_ports(states: Seq<ControllerState>, base: int, n: int) -> Seq<ControllerState> {
    Seq::new(
        states.len(),
        |i: int|
            if port_id(base, 0) <= i < port_id(base, n) {
                unplugged_state()
            } else {
                states[i]
            },
    )
}

/// The snapshot grown to `len` entries, the new ones unplugged.
pub open spec fn grow_states(states: Seq<ControllerState>, len: nat) -> Seq<ControllerState> {
    Seq::new(
        len,
        |i: int|
            if i < states.len() {
                states[i]
            } else {
                unplugged_state()
            },
    )
}

/// The entry of a snapshot for controller `id`, or the unplugged state when
/// the snapshot has none.
pub open spec fn spec_state_at(states: Seq<ControllerState>, id: int) -> ControllerState {
    if 0 <= id < states.len() {
        states[id]
    } else {
        unplugged_state()
    }
}

/// The entry of a snapshot for controller `id`, or the unplugged state when
/// the snapshot has none. Never fails.
pub fn state_at(states: &Vec<ControllerState>, id: ControllerId) -> (r: ControllerState)
    ensures
        r == spec_state_at(states@, id as int),
{
    if id < states.len() {
        states[id]
    } else {
        ControllerState::unplugged()
    }
}

/// Reads the snapshot current in `cell` and returns its entry for
/// controller `id` as `state_at` does: the unplugged state when that snapshot
/// has no entry for it. Never fails. Which publish a concurrent read sees is
/// not stated here (see `SyncCell::read`).
pub fn read_latest_state(cell: &SyncCell<Vec<ControllerState>>, id: ControllerId) -> (r:
    ControllerState)
{
    let snapshot = cell.read();
    state_at(&snapshot, id)
}

/// What adding the adapter at `a` owes when it gets slot base `b`: `c1` is
/// `c0` with the lowest free base claimed, the adapter appended, and the
/// snapshot grown with unplugged controllers to four per slot base.
pub open spec fn addition_outcome(c0: PollingCoordinator, a: u8, b: usize, c1: PollingCoordinator) -> bool {
    &&& b == lowest_free(c0.slot_table())
    &&& c1.slot_table() == after_alloc(c0.slot_table())
    &&& c1.adapters() == c0.adapters().push(AdapterSlot { address: a, base: b })
    &&& c1.states() == grow_states(c0.states(), 4 * c1.slot_table().len())
}

/// What removing the live adapter at `a` owes: `c1` is `c0` with its slot
/// base released, the adapter dropped and its four controllers reset to
/// unplugged; `events` unplugs each of them that was plugged, in port order.
pub open spec fn removal_outcome(
    c0: PollingCoordinator,
    a: u8,
    c1: PollingCoordinator,
    events: Seq<ControllerEvent>,
) -> bool {
    let b = c0.base_of(a) as int;
    &&& c1.slot_table() == c0.slot_table().update(b, false)
    &&& c1.adapters() == c0.adapters().remove(c0.index_of(a))
    &&& c1.states() == clear_ports(c0.states(), b, 4)
    &&& events == unplug_events(c0.states(), b, 4)
}

/// The live adapters, the slot table and the working snapshot of the
/// polling loop.
pub struct PollingCoordinator {
    adapters: Vec<AdapterSlot>,
    slots: ControllerSlots,
    states: Vec<ControllerState>,
}

impl PollingCoordinator {
    /// The live adapters, in the order in which they were added.
    pub closed spec fn adapters(&self) -> Seq<AdapterSlot> {
        self.adapters@
    }

    /// The slot table: entry `b` is `true` while slot base `b` is claimed.
    pub closed spec fn slot_table(&self) -> Seq<bool> {
        self.slots@
    }

    /// The working snapshot, indexed by controller id.
    pub closed spec fn states(&self) -> Seq<ControllerState> {
        self.states@
    }

    /// Whether an adapter at address `a` is live.
    pub open spec fn is_tracked(&self, a: u8) -> bool {
        exists|k: int| 0 <= k < self.adapters().len() && (#[trigger] self.adapters()[k]).address == a
    }

    /// The position of the live adapter at address `a`.
    pub open spec fn index_of(&self, a: u8) -> int {
        choose|k: int| 0 <= k < self.adapters().len() && (#[trigger] self.adapters()[k]).address == a
    }

    /// The slot base of the live adapter at address `a`.
    pub open spec fn base_of(&self, a: u8) -> usize {
        self.adapters()[self.index_of(a)].base
    }

    /// Whether a new adapter could find no slot base.
    pub open spec fn table_full(&self) -> bool {
        lowest_free(self.slot_table()) == self.slot_table().len() && self.slot_table().len()
            >= MAX_SLOT_BASES
    }

    /// Well formed: the snapshot has four entries per slot base; each live
    /// adapter has its own address and its own claimed slot base; and every
    /// controller of an unclaimed slot base reads as unplugged.
    pub open spec fn wf(&self) -> bool {
        &&& self.states().len() == 4 * self.slot_table().len()
        &&& self.slot_table().len() <= MAX_SLOT_BASES
        &&& forall|k: int|
            0 <= k < self.adapters().len() ==> (#[trigger] self.adapters()[k]).base
                < self.slot_table().len() && self.slot_table()[self.adapters()[k].base as int]
        &&& forall|k: int, l: int|
            0 <= k < self.adapters().len() && 0 <= l < self.adapters().len() && k != l
                ==> (#[trigger] self.adapters()[k]).address != (#[trigger] self.adapters()[l]).address
                && self.adapters()[k].base != self.adapters()[l].base
        &&& forall|b: int|
            0 <= b < self.slot_table().len() && #[trigger] self.slot_table()[b] ==> exists|k: int|
                0 <= k < self.adapters().len() && (#[trigger] self.adapters()[k]).base == b
        &&& forall|i: int|
            0 <= i < self.states().len() && !self.slot_table()[i / 4] ==> #[trigger] self.states()[i]
                == unplugged_state()
    }

    /// A coordinator with no adapter.
    pub fn new() -> (c: PollingCoordinator)
        ensures
            c.wf(),
            c.adapters() == Seq::<AdapterSlot>::empty(),
            c.slot_table() == Seq::<bool>::empty(),
            c.states() == Seq::<ControllerState>::empty(),
    {
        PollingCoordinator { adapters: Vec::new(), slots: ControllerSlots::new(), states: Vec::new() }
    }

    /// The position of the live adapter at `address`, if there is one.
    fn find(&self, address: u8) -> (r: Option<usize>)
        requires
            self.wf(),
        ensures
            r is None <==> !self.is_tracked(address),
            r matches Some(k) ==> k == self.index_of(address) && k < self.adapters().len(),
    {
        let mut k: usize = 0;
        while k < self.adapters.len()
            invariant
                self.wf(),
                k <= self.adapters@.len(),
                forall|j: int| 0 <= j < k ==> (#[trigger] self.adapters@[j]).address != address,
            decreases self.adapters.len() - k,
        {
            if self.adapters[k].address == address {
                proof {
                    assert(self.adapters()[k as int].address == address);
                    assert(self.is_tracked(address));
                    let c = self.index_of(address);
                    if c != k {
                        assert(self.adapters()[c].address != self.adapters()[k as int].address);
                    }
                }
                return Some(k);
            }
            k = k + 1;
        }
        None
    }

    /// Records a newly opened adapter at `address` and claims the lowest free
    /// slot base for it, growing the snapshot by four unplugged controllers
    /// when the slot table grows. Returns the slot base, or `None`, with
    /// nothing changed, when the address is already live or no slot base is
    /// left.
    pub fn add_adapter(&mut self, address: u8) -> (r: Option<usize>)
        requires
            old(self).wf(),
        ensures
            final(self).wf(),
            r is None <==> (old(self).is_tracked(address) || old(self).table_full()),
            r is None ==> *final(self) == *old(self),
            r matches Some(b) ==> addition_outcome(*old(self), address, b, *final(self)),
    {
        if self.find(address).is_some() {
            return None;
        }
        let n = self.slots.len();
        if n >= MAX_SLOT_BASES && self.slots.lowest_free_index() == n {
            return None;
        }
        let ghost old_self = *self;
        proof {
            lemma_lowest_free(self.slots@);
        }
        let b = self.slots.allocate();
        self.adapters.push(AdapterSlot { address, base: b });
        if b == n {
            self.states.push(ControllerState::unplugged());
            self.states.push(ControllerState::unplugged());
            self.states.push(ControllerState::unplugged());
            self.states.push(ControllerState::unplugged());
        }
        proof {
            let t0 = old_self.slot_table();
            let t1 = self.slot_table();
            assert(self.states() =~= grow_states(old_self.states(), 4 * t1.len()));
            assert forall|k: int|
                0 <= k < self.adapters().len() implies (#[trigger] self.adapters()[k]).base
                < t1.len() && t1[self.adapters()[k].base as int] by {
                if k < old_self.adapters().len() {
                    assert(self.adapters()[k] == old_self.adapters()[k]);
                }
            }
            assert forall|k: int, l: int|
                0 <= k < self.adapters().len() && 0 <= l < self.adapters().len() && k != l
                    implies (#[trigger] self.adapters()[k]).address != (#[trigger] self.adapters()[l]).address
                && self.adapters()[k].base != self.adapters()[l].base by {
                let m = old_self.adapters().len() as int;
                if k < m {
                    assert(self.adapters()[k] == old_self.adapters()[k]);
                }
                if l < m {
                    assert(self.adapters()[l] == old_self.adapters()[l]);
                }
                if k == m {
                    assert(old_self.adapters()[l].address != address);
                    assert(t0[old_self.adapters()[l].base as int]);
                }
                if l == m {
                    assert(old_self.adapters()[k].address != address);
                    assert(t0[old_self.adapters()[k].base as int]);
                }
            }
            assert forall|c: int| 0 <= c < t1.len() && #[trigger] t1[c] implies exists|j: int|
                0 <= j < self.adapters().len() && (#[trigger] self.adapters()[j]).base == c by {
                let m = old_self.adapters().len() as int;
                if c == b {
                    assert(self.adapters()[m].base == c);
                } else {
                    assert(t0[c]);
                    let j = choose|j: int|
                        0 <= j < m && (#[trigger] old_self.adapters()[j]).base == c;
                    assert(self.adapters()[j] == old_self.adapters()[j]);
                }
            }
            assert forall|i: int|
                0 <= i < self.states().len() && !t1[i / 4] implies #[trigger] self.states()[i]
                == unplugged_state() by {
                if i < old_self.states().len() {
                    assert(t1[i / 4] == t0[i / 4] || i / 4 == b);
                }
            }
        }
        Some(b)
    }

    /// Forgets the adapter at `address`, releases its slot base and resets
    /// its four controllers to unplugged. Returns an unplug callback for each
    /// of them that was plugged, in port order; nothing happens when the
    /// address is not live.
    pub fn remove_adapter(&mut self, address: u8) -> (events: Vec<ControllerEvent>)
        requires
            old(self).wf(),
        ensures
            final(self).wf(),
            !old(self).is_tracked(address) ==> *final(self) == *old(self) && events@.len() == 0,
            old(self).is_tracked(address) ==> removal_outcome(
                *old(self),
                address,
                *final(self),
                events@,
            ),
    {
        let k = match self.find(address) {
            None => {
                return Vec::new();
            },
            Some(k) => k,
        };
        let ghost old_self = *self;
        let b = self.adapters[k].base;
        self.slots.dealloc(b);
        self.adapters.remove(k);
        let ghost adapters_after = self.adapters@;
        let ghost slots_after = self.slots@;
        assert(adapters_after == old_self.adapters().remove(k as int));
        assert(slots_after == old_self.slot_table().update(b as int, false));
        let mut events: Vec<ControllerEvent> = Vec::new();
        let mut p: usize = 0;
        assert(self.states@ =~= clear_ports(old_self.states(), b as int, 0));
        while p < PORTS_PER_ADAPTER
            invariant
                self.adapters@ == adapters_after,
                self.slots@ == slots_after,
                p <= 4,
                b < old_self.slot_table().len(),
                old_self.wf(),
                self.states@ == clear_ports(old_self.states(), b as int, p as int),
                events@ == unplug_events(old_self.states(), b as int, p as int),
            decreases 4 - p,
        {
            let id: usize = 4 * b + p;
            if self.states[id].plugged_in {
                events.push(ControllerEvent::Unplugged(id));
            }
            self.states.set(id, ControllerState::unplugged());
            p = p + 1;
            assert(self.states@ =~= clear_ports(old_self.states(), b as int, p as int));
        }
        proof {
            let t0 = old_self.slot_table();
            let t1 = self.slot_table();
            let a0 = old_self.adapters();
            let a1 = self.adapters();
            assert forall|j: int| 0 <= j < a1.len() implies (#[trigger] a1[j]).base < t1.len()
                && t1[a1[j].base as int] by {
                if j < k {
                    assert(a1[j] == a0[j]);
                    assert(a0[j].base != a0[k as int].base);
                } else {
                    assert(a1[j] == a0[j + 1]);
                    assert(a0[j + 1].base != a0[k as int].base);
                }
            }
            assert forall|j: int, l: int|
                0 <= j < a1.len() && 0 <= l < a1.len() && j != l implies (#[trigger] a1[j]).address
                != (#[trigger] a1[l]).address && a1[j].base != a1[l].base by {
                let jj = if j < k { j } else { j + 1 };
                let ll = if l < k { l } else { l + 1 };
                assert(a1[j] == a0[jj]);
                assert(a1[l] == a0[ll]);
                assert(a0[jj].address != a0[ll].address);
            }
            assert forall|c: int| 0 <= c < t1.len() && #[trigger] t1[c] implies exists|j: int|
                0 <= j < a1.len() && (#[trigger] a1[j]).base == c by {
                assert(t0[c] && c != b);
                let j0 = choose|j: int| 0 <= j < a0.len() && (#[trigger] a0[j]).base == c;
                assert(j0 != k);
                if j0 < k {
                    assert(a1[j0] == a0[j0]);
                } else {
                    assert(a1[j0 - 1] == a0[j0]);
                }
            }
            assert forall|i: int|
                0 <= i < self.states().len() && !t1[i / 4] implies #[trigger] self.states()[i]
                == unplugged_state() by {
                if i / 4 != b {
                    assert(t1[i / 4] == t0[i / 4]);
                }
            }
        }
        events
    }

    /// Applies one whole-adapter report read from the adapter at `address`:
    /// each of its four ports replaces its controller's entry in the
    /// snapshot, and each change of a plugged flag gives a plug or unplug
    /// callback, in port order. Nothing happens when the address is not live.
    pub fn apply_report(&mut self, address: u8, report: &[u8; 37]) -> (events: Vec<ControllerEvent>)
        requires
            old(self).wf(),
        ensures
            final(self).wf(),
            !old(self).is_tracked(address) ==> *final(self) == *old(self) && events@.len() == 0,
            old(self).is_tracked(address) ==> {
                let b = old(self).base_of(address) as int;
                &&& final(self).slot_table() == old(self).slot_table()
                &&& final(self).adapters() == old(self).adapters()
                &&& final(self).states() == apply_ports(old(self).states(), b, report@, 4)
                &&& events@ == report_events(old(self).states(), b, report@, 4)
            },
    {
        let k = match self.find(address) {
            None => {
                return Vec::new();
            },
            Some(k) => k,
        };
        let ghost old_self = *self;
        let b = self.adapters[k].base;
        let mut events: Vec<ControllerEvent> = Vec::new();
        let mut p: usize = 0;
        assert(self.states@ =~= apply_ports(old_self.states(), b as int, report@, 0));
        while p < PORTS_PER_ADAPTER
            invariant
                self.adapters@ == old_self.adapters(),
                self.slots@ == old_self.slot_table(),
                p <= 4,
                b < old_self.slot_table().len(),
                old_self.wf(),
                self.states@ == apply_ports(old_self.states(), b as int, report@, p as int),
                events@ == report_events(old_self.states(), b as int, report@, p as int),
            decreases 4 - p,
        {
            let d = port_bytes(report, p);
            let (now, state) = decode(&d);
            let id: usize = 4 * b + p;
            let was = self.states[id].plugged_in;
            let ghost before = events@;
            if now && !was {
                events.push(ControllerEvent::Plugged(id));
            } else if !now && was {
                events.push(ControllerEvent::Unplugged(id));
            }
            self.states.set(id, state);
            p = p + 1;
            assert(events@ =~= before + port_events(old_self.states(), b as int, report@, p - 1));
            assert(self.states@ =~= apply_ports(old_self.states(), b as int, report@, p as int));
        }
        proof {
            let t0 = old_self.slot_table();
            assert(self.adapters() == old_self.adapters());
            assert(self.slot_table() == t0);
            assert forall|c: int| 0 <= c < t0.len() && #[trigger] t0[c] implies exists|j: int|
                0 <= j < self.adapters().len() && (#[trigger] self.adapters()[j]).base == c by {
                let j = choose|j: int|
                    0 <= j < old_self.adapters().len() && (#[trigger] old_self.adapters()[j]).base
                        == c;
                assert(self.adapters()[j].base == c);
            }
            assert forall|i: int|
                0 <= i < self.states().len() && !t0[i / 4] implies #[trigger] self.states()[i]
                == unplugged_state() by {
                assert(i / 4 != b);
            }
        }
        events
    }

    /// Every controller id whose slot base no live adapter holds reads as
    /// unplugged: never an error and never the data of another controller.
    pub proof fn lemma_unassigned_reads_unplugged(&self, id: int)
        requires
            self.wf(),
            0 <= id,
            forall|k: int| 0 <= k < self.adapters().len() ==> (#[trigger] self.adapters()[k]).base != id / 4,
        ensures
            spec_state_at(self.states(), id) == unplugged_state(),
    {
        if id < self.states().len() {
            assert(!self.slot_table()[id / 4]);
        }
    }

    /// Takes the outcome of one report read from the adapter at `address`: a
    /// report is applied as by `apply_report`; a failed read drops the
    /// adapter as by `remove_adapter`, since it almost always means that the
    /// adapter was pulled out.
    pub fn apply_read(&mut self, address: u8, read: Option<&[u8; 37]>) -> (events: Vec<
        ControllerEvent,
    >)
        requires
            old(self).wf(),
        ensures
            final(self).wf(),
            !old(self).is_tracked(address) ==> *final(self) == *old(self) && events@.len() == 0,
            old(self).is_tracked(address) ==> {
                let b = old(self).base_of(address) as int;
                match read {
                    Some(report) => {
                        &&& final(self).slot_table() == old(self).slot_table()
                        &&& final(self).adapters() == old(self).adapters()
                        &&& final(self).states() == apply_ports(old(self).states(), b, report@, 4)
                        &&& events@ == report_events(old(self).states(), b, report@, 4)
                    },
                    None => removal_outcome(*old(self), address, *final(self), events@),
                }
            },
    {
        match read {
            Some(report) => self.apply_report(address, report),
            None => self.remove_adapter(address),
        }
    }

    /// The bus addresses of the live adapters, in the order they were added.
    pub fn addresses(&self) -> (r: Vec<u8>)
        ensures
            r@ == self.adapters().map_values(|s: AdapterSlot| s.address),
    {
        let mut r: Vec<u8> = Vec::new();
        let mut k: usize = 0;
        while k < self.adapters.len()
            invariant
                k <= self.adapters@.len(),
                r@ == self.adapters@.subrange(0, k as int).map_values(|s: AdapterSlot| s.address),
            decreases self.adapters.len() - k,
        {
            r.push(self.adapters[k].address);
            k = k + 1;
            assert(r@ =~= self.adapters@.subrange(0, k as int).map_values(
                |s: AdapterSlot| s.address,
            ));
        }
        assert(self.adapters@.subrange(0, k as int) =~= self.adapters@);
        r
    }

    /// A copy of the working snapshot, indexed by controller id.
    pub fn snapshot(&self) -> (r: Vec<ControllerState>)
        ensures
            r@ == self.states(),
    {
        let mut r: Vec<ControllerState> = Vec::new();
        let mut i: usize = 0;
        while i < self.states.len()
            invariant
                i <= self.states@.len(),
                r@ == self.states@.subrange(0, i as int),
            decreases self.states.len() - i,
        {
            r.push(self.states[i]);
            i = i + 1;
            assert(r@ =~= self.states@.subrange(0, i as int));
        }
        assert(self.states@.subrange(0, i as int) =~= self.states@);
        r
    }

    /// The entry of the working snapshot for controller `id`, or the
    /// unplugged state when there is none.
    pub fn latest_state(&self, id: ControllerId) -> (r: ControllerState)
        ensures
            r == spec_state_at(self.states(), id as int),
    {
        state_at(&self.states, id)
    }
}

/// Removing an adapter releases its slot base and resets its four
/// controllers; the next adapter added then gets the lowest free base, at
/// most the released one, and exactly it when every base below it is
/// claimed.
pub proof fn lemma_remove_then_add(
    c0: PollingCoordinator,
    a: u8,
    c1: PollingCoordinator,
    events: Seq<ControllerEvent>,
    a2: u8,
    b2: usize,
    c2: PollingCoordinator,
)
    requires
        c0.wf(),
        c0.is_tracked(a),
        removal_outcome(c0, a, c1, events),
        addition_outcome(c1, a2, b2, c2),
    ensures
        ({
            let b = c0.base_of(a) as int;
            &&& c0.slot_table()[b]
            &&& !c1.slot_table()[b]
            &&& forall|p: int|
                0 <= p < 4 ==> #[trigger] c1.states()[port_id(b, p)] == unplugged_state()
            &&& b2 <= b
            &&& all_taken_below(c0.slot_table(), b) ==> b2 == b
        }),
{
    let k = c0.index_of(a);
    let b = c0.base_of(a) as int;
    assert(c0.adapters()[k].base == b);
    lemma_released_base_reused(c0.slot_table(), b);
}

/// The controller id that a callback is for.
pub open spec fn event_id(e: ControllerEvent) -> int {
    match e {
        ControllerEvent::Plugged(i) => i as int,
        ControllerEvent::Unplugged(i) => i as int,
    }
}

/// Picks the callbacks for controller `id`.
pub open spec fn concerns(id: int) -> spec_fn(ControllerEvent) -> bool {
    |e: ControllerEvent| event_id(e) == id
}

/// Port `q`'s callbacks, picked for the controller of port `p`: all of them
/// when `q == p`, none otherwise.
proof fn lemma_port_events_filter(
    states: Seq<ControllerState>,
    base: int,
    report: Seq<u8>,
    q: int,
    p: int,
)
    requires
        0 <= base,
        0 <= q < 4,
        0 <= p < 4,
        port_id(base, 3) <= usize::MAX,
    ensures
        port_events(states, base, report, q).filter(concerns(port_id(base, p))) == (if q == p {
            port_events(states, base, report, q)
        } else {
            Seq::<ControllerEvent>::empty()
        }),
{
    let ev = port_events(states, base, report, q);
    let f = concerns(port_id(base, p));
    reveal(Seq::filter);
    if ev.len() == 1 {
        assert(event_id(ev[0]) == port_id(base, q));
        assert(ev =~= Seq::<ControllerEvent>::empty().push(ev[0]));
        assert(Seq::<ControllerEvent>::empty().filter(f) =~= Seq::<ControllerEvent>::empty());
        assert(ev.drop_last() =~= Seq::<ControllerEvent>::empty());
        if q == p {
            assert(ev.filter(f) =~= ev);
        } else {
            assert(!f(ev.last()));
            assert(ev.filter(f) =~= Seq::<ControllerEvent>::empty());
        }
    } else {
        assert(ev =~= Seq::<ControllerEvent>::empty());
        assert(ev.filter(f) =~= Seq::<ControllerEvent>::empty());
    }
}

/// The callbacks for the controller of port `p` among those of the first
/// `n` ports: its own transition once `p` is among them, nothing before.
proof fn lemma_report_events_filter(
    states: Seq<ControllerState>,
    base: int,
    report: Seq<u8>,
    n: int,
    p: int,
)
    requires
        0 <= base,
        0 <= n <= 4,
        0 <= p < 4,
        port_id(base, 3) <= usize::MAX,
    ensures
        report_events(states, base, report, n).filter(concerns(port_id(base, p))) == (if p < n {
            port_events(states, base, report, p)
        } else {
            Seq::<ControllerEvent>::empty()
        }),
    decreases n,
{
    let f = concerns(port_id(base, p));
    if n == 0 {
        reveal(Seq::filter);
        assert(report_events(states, base, report, 0).filter(f) =~= Seq::<ControllerEvent>::empty());
    } else {
        lemma_report_events_filter(states, base, report, n - 1, p);
        lemma_port_events_filter(states, base, report, n - 1, p);
        let a = report_events(states, base, report, n - 1);
        let b = port_events(states, base, report, n - 1);
        assert((a + b).filter(f) == a.filter(f) + b.filter(f)) by {
            Seq::filter_distributes_over_add(a, b, f);
        }
        assert(report_events(states, base, report, n).filter(f) =~= (if p < n {
            port_events(states, base, report, p)
        } else {
            Seq::<ControllerEvent>::empty()
        }));
    }
}

/// Of the callbacks that a report causes, those for any one controller of
/// the adapter are exactly its own transition: one unplug when it goes from
/// plugged to unplugged, one plug for the reverse, and none when its
/// plugged flag stays; so a sibling whose flag stays gets none.
pub proof fn lemma_report_events_per_controller(
    states: Seq<ControllerState>,
    base: int,
    report: Seq<u8>,
    p: int,
)
    requires
        0 <= base,
        0 <= p < 4,
        port_id(base, 3) <= usize::MAX,
    ensures
        report_events(states, base, report, 4).filter(concerns(port_id(base, p))) == transition(
            states[port_id(base, p)].plugged_in,
            port_state(report, p).plugged_in,
            port_id(base, p),
        ),
{
    lemma_report_events_filter(states, base, report, 4, p);
}

/// Unplugging one controller while its siblings on the same adapter keep
/// their plugged flags fires exactly one unplug callback, for that
/// controller, and none for the siblings.
pub proof fn lemma_unplug_fires_once(
    states: Seq<ControllerState>,
    base: int,
    report: Seq<u8>,
    p: int,
)
    requires
        0 <= base,
        0 <= p < 4,
        port_id(base, 4) <= states.len(),
        states[port_id(base, p)].plugged_in,
        !port_state(report, p).plugged_in,
        forall|q: int|
            0 <= q < 4 && q != p ==> (#[trigger] port_state(report, q)).plugged_in == states[port_id(
                base,
                q,
            )].plugged_in,
    ensures
        report_events(states, base, report, 4) == seq![
            ControllerEvent::Unplugged(port_id(base, p) as usize),
        ],
{
    reveal_with_fuel(report_events, 5);
    assert forall|q: int| 0 <= q < 4 && q != p implies #[trigger] port_events(states, base, report, q)
        == Seq::<ControllerEvent>::empty() by {
        assert(port_state(report, q).plugged_in == states[port_id(base, q)].plugged_in);
    }
    assert(report_events(states, base, report, 4) =~= port_events(states, base, report, 0)
        + port_events(states, base, report, 1) + port_events(states, base, report, 2)
        + port_events(states, base, report, 3));
    assert(report_events(states, base, report, 4) =~= seq![
        ControllerEvent::Unplugged(port_id(base, p) as usize),
    ]);
}

} // verus!
