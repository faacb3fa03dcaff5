//! A cell that hands the most recently published value to any number of
//! readers. The writer fills a ring of slots and then swings a marker to the
//! slot it filled; it never writes the slot that the marker points at, so a
//! reader only ever sees whole published values.
use std::sync::Arc;
use vstd::prelude::*;
use vstd::rwlock::{RwLock, RwLockPredicate};

verus! {

/// Number of slots of the ring.
pub const BUFFER_SIZE: usize = 32;

/// Relies on `Arc::clone`: the new handle shares the value of the original.
#[verifier::external_body]
fn share<T>(a: &Arc<T>) -> (r: Arc<T>)
    ensures
        r == *a,
{
    Arc::clone(a)
}

/// The ring of slots, the marker of the last published slot, and the record
/// of every value made current so far (the initial value first).
pub struct ControlBlock<T> {
    current: usize,
    buffer: Vec<Arc<T>>,
    published: Ghost<Seq<T>>,
}

impl<T> ControlBlock<T> {
    /// Every value made current so far, in order; the first is the initial
    /// value.
    pub closed spec fn history(&self) -> Seq<T> {
        self.published@
    }

    /// The slot that the marker points at.
    pub closed spec fn marker(&self) -> int {
        self.current as int
    }

    /// The values held by the slots of the ring.
    pub closed spec fn slots(&self) -> Seq<T> {
        self.buffer@.map_values(|a: Arc<T>| *a)
    }

    /// The value that a read returns: the last one published.
    pub open spec fn latest(&self) -> T {
        self.history().last()
    }

    /// Well formed: the ring has its fixed size, the marker points into it
    /// at the latest value, and every slot holds a value that was published.
    pub open spec fn wf(&self) -> bool {
        &&& self.slots().len() == BUFFER_SIZE
        &&& 0 <= self.marker() < BUFFER_SIZE
        &&& self.history().len() >= 1
        &&& self.slots()[self.marker()] == self.latest()
        &&& forall|i: int| 0 <= i < BUFFER_SIZE ==> self.history().contains(#[trigger] self.slots()[i])
    }

    /// A ring whose every slot holds `initial`, which is current.
    pub fn with_initial(initial: T) -> (cb: ControlBlock<T>)
        ensures
            cb.wf(),
            cb.history() == seq![initial],
            cb.marker() == 0,
    {
        let ghost first_value = initial;
        let first = Arc::new(initial);
        let mut buffer: Vec<Arc<T>> = Vec::new();
        let mut i: usize = 0;
        while i < BUFFER_SIZE
            invariant
                i <= BUFFER_SIZE,
                *first == first_value,
                buffer@.len() == i,
                forall|j: int| 0 <= j < i ==> *#[trigger] buffer@[j] == first_value,
            decreases BUFFER_SIZE - i,
        {
            buffer.push(share(&first));
            i = i + 1;
        }
        let published: Ghost<Seq<T>> = Ghost(Seq::empty().push(first_value));
        let cb = ControlBlock { current: 0, buffer, published };
        proof {
            assert(cb.history() =~= seq![first_value]);
            assert forall|j: int| 0 <= j < BUFFER_SIZE implies cb.history().contains(
                #[trigger] cb.slots()[j],
            ) by {
                assert(cb.history()[0] == first_value);
            }
        }
        cb
    }

    /// Publishes `data`: writes it to the slot after the marker, which is
    /// never the slot that the marker points at, then moves the marker there.
    pub fn update(&mut self, data: T)
        requires
            old(self).wf(),
        ensures
            final(self).wf(),
            final(self).history() == old(self).history().push(data),
            final(self).latest() == data,
            final(self).marker() == (old(self).marker() + 1) % (BUFFER_SIZE as int),
            final(self).marker() != old(self).marker(),
            final(self).slots() == old(self).slots().update(final(self).marker(), data),
    {
        let ghost old_self = *self;
        let next: usize = if self.current + 1 == BUFFER_SIZE {
            0
        } else {
            self.current + 1
        };
        self.buffer.set(next, Arc::new(data));
        self.current = next;
        self.published = Ghost(self.published@.push(data));
        proof {
            assert(self.slots() =~= old_self.slots().update(next as int, data));
            assert forall|j: int| 0 <= j < BUFFER_SIZE implies self.history().contains(
                #[trigger] self.slots()[j],
            ) by {
                if j == next {
                    assert(self.history()[self.history().len() - 1] == data);
                } else {
                    assert(old_self.history().contains(old_self.slots()[j]));
                    let k = choose|k: int|
                        0 <= k < old_self.history().len() && old_self.history()[k]
                            == old_self.slots()[j];
                    assert(self.history()[k] == old_self.history()[k]);
                }
            }
        }
    }

    /// The last published value, shared.
    pub fn read(&self) -> (r: Arc<T>)
        requires
            self.wf(),
        ensures
            *r == self.latest(),
    {
        share(&self.buffer[self.current])
    }
}

impl<T: Default> ControlBlock<T> {
    /// A ring whose every slot holds `T`'s default value, which is current.
    pub fn new() -> (cb: ControlBlock<T>)
        ensures
            cb.wf(),
            cb.history().len() == 1,
            T::default.ensures((), cb.latest()),
    {
        ControlBlock::with_initial(T::default())
    }
}

/// What a reader can meet under the lock: a well formed control block whose
/// first value is the one the cell was made with.
pub struct CellInvariant<T> {
    pub first: T,
}

impl<T> RwLockPredicate<ControlBlock<T>> for CellInvariant<T> {
    open spec fn inv(self, cb: ControlBlock<T>) -> bool {
        cb.wf() && cb.history()[0] == self.first
    }
}

/// A value that every slot of a well formed control block holds was
/// published, and the marked slot holds the last value published: what a
/// read returns is always one whole published value.
pub proof fn lemma_reads_are_published<T>(cb: ControlBlock<T>, i: int)
    requires
        cb.wf(),
        0 <= i < BUFFER_SIZE,
    ensures
        exists|k: int| 0 <= k < cb.history().len() && cb.history()[k] == cb.slots()[i],
        cb.slots()[cb.marker()] == cb.history()[cb.history().len() - 1],
{
    assert(cb.history().contains(cb.slots()[i]));
}

/// The read side of the cell. Readers share it by reference; it hands out
/// the one writer.
pub struct SyncCell<T> {
    control_block: Arc<RwLock<ControlBlock<T>, CellInvariant<T>>>,
    writer_created: bool,
}

/// The write side of the cell; a cell has at most one.
pub struct SyncCellWriter<T> {
    control_block: Arc<RwLock<ControlBlock<T>, CellInvariant<T>>>,
}

impl<T> SyncCell<T> {
    /// The lock that guards the control block.
    pub closed spec fn lock(&self) -> RwLock<ControlBlock<T>, CellInvariant<T>> {
        *self.control_block
    }

    /// The value the cell was made with, current until the first publish.
    pub open spec fn first_value(&self) -> T {
        self.lock().pred().first
    }

    /// Whether the cell's writer was already handed out.
    pub closed spec fn writer_issued(&self) -> bool {
        self.writer_created
    }

    /// A cell whose current value is `initial`, with its writer not yet
    /// handed out.
    pub fn with_initial(initial: T) -> (c: SyncCell<T>)
        ensures
            c.first_value() == initial,
            !c.writer_issued(),
    {
        let ghost first = initial;
        let cb = ControlBlock::with_initial(initial);
        let ghost pred = CellInvariant { first };
        let lock = RwLock::new(cb, Ghost(pred));
        SyncCell { control_block: Arc::new(lock), writer_created: false }
    }

    /// Reads the value under the marker while holding the read lock. The
    /// writer holds the write lock for the whole of a publish, so a read
    /// never meets a publish halfway. Which publish a concurrent read sees
    /// is not stated here: that would take ghost state shared between the
    /// threads.
    pub fn read(&self) -> (r: Arc<T>) {
        let handle = self.control_block.acquire_read();
        let cb = handle.borrow();
        let r = cb.read();
        handle.release_read();
        r
    }

    /// Hands out the cell's one writer: `Some` the first time, `None` ever
    /// after. The writer publishes through the cell's own lock.
    pub fn create_writer(&mut self) -> (w: Option<SyncCellWriter<T>>)
        ensures
            w is Some <==> !old(self).writer_issued(),
            w matches Some(w) ==> w.lock() == old(self).lock(),
            final(self).writer_issued(),
            final(self).lock() == old(self).lock(),
    {
        if self.writer_created {
            return None;
        }
        self.writer_created = true;
        Some(SyncCellWriter { control_block: share(&self.control_block) })
    }
}

impl<T: Default> SyncCell<T> {
    /// A cell whose current value is `T`'s default value, with its writer
    /// not yet handed out.
    pub fn new() -> (c: SyncCell<T>)
        ensures
            T::default.ensures((), c.first_value()),
            !c.writer_issued(),
    {
        SyncCell::with_initial(T::default())
    }
}

impl<T> SyncCellWriter<T> {
    /// The lock of the cell that this writer publishes into.
    pub closed spec fn lock(&self) -> RwLock<ControlBlock<T>, CellInvariant<T>> {
        *self.control_block
    }

    /// Publishes `data` under the write lock: it goes to a slot that no
    /// reader can reach, and the marker then moves to it.
    pub fn write(&self, data: T) {
        let (mut cb, handle) = self.control_block.acquire_write();
        cb.update(data);
        handle.release_write(cb);
    }
}

} // verus!
