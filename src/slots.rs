//! The controller-slot allocator: hands out the lowest free slot base.
use vstd::prelude::*;

verus! {

/// Whether every slot below `i` is allocated.
pub open spec fn all_taken_below(s: Seq<bool>, i: int) -> bool {
    forall|j: int| 0 <= j < i ==> #[trigger] s[j]
}

/// The lowest free index of `s`: the first `false`, or `s.len()` when every
/// entry is allocated.
pub open spec fn lowest_free(s: Seq<bool>) -> nat
    decreases s.len(),
{
    if s.len() == 0 {
        0
    } else if !s[0] {
        0
    } else {
        1 + lowest_free(s.drop_first())
    }
}

/// The allocation table after claiming its lowest free index.
pub open spec fn after_alloc(s: Seq<bool>) -> Seq<bool> {
    let i = lowest_free(s);
    if i < s.len() {
        s.update(i as int, true)
    } else {
        s.push(true)
    }
}

/// `lowest_free` is the first free index, or the length when there is none.
pub proof fn lemma_lowest_free(s: Seq<bool>)
    ensures
        lowest_free(s) <= s.len(),
        all_taken_below(s, lowest_free(s) as int),
        lowest_free(s) < s.len() ==> !s[lowest_free(s) as int],
    decreases s.len(),
{
    if s.len() > 0 && s[0] {
        let t = s.drop_first();
        lemma_lowest_free(t);
        assert forall|j: int| 0 <= j < lowest_free(s) implies #[trigger] s[j] by {
            if j > 0 {
                assert(s[j] == t[j - 1]);
            }
        }
    }
}

/// An index that is free and has only allocated entries below it is the
/// lowest free one.
pub proof fn lemma_lowest_free_unique(s: Seq<bool>, i: int)
    requires
        0 <= i <= s.len(),
        all_taken_below(s, i),
        i < s.len() ==> !s[i],
    ensures
        lowest_free(s) == i,
{
    lemma_lowest_free(s);
    let k = lowest_free(s) as int;
    if k < i {
        assert(s[k]);
    } else if i < k {
        assert(s[i]);
    }
}

/// Tracks which slot bases are claimed. Entry `i` is `true` while slot base
/// `i` belongs to an adapter.
pub struct ControllerSlots {
    allocated: Vec<bool>,
}

impl View for ControllerSlots {
    type V = Seq<bool>;

    closed spec fn view(&self) -> Seq<bool> {
        self.allocated@
    }
}

impl ControllerSlots {
    /// An allocator with no slot claimed.
    pub fn new() -> (s: ControllerSlots)
        ensures
            s@ == Seq::<bool>::empty(),
    {
        ControllerSlots { allocated: Vec::new() }
    }

    /// Whether slot `idx` is currently claimed.
    pub fn is_allocated(&self, idx: usize) -> (r: bool)
        ensures
            r == (idx < self@.len() && self@[idx as int]),
    {
        idx < self.allocated.len() && self.allocated[idx]
    }

    /// The number of entries of the table.
    pub fn len(&self) -> (r: usize)
        ensures
            r == self@.len(),
    {
        self.allocated.len()
    }

    /// The lowest free slot, or the table's length when every slot is claimed.
    pub fn lowest_free_index(&self) -> (r: usize)
        ensures
            r == lowest_free(self@),
    {
        proof {
            lemma_lowest_free(self@);
        }
        let n = self.allocated.len();
        let mut i: usize = 0;
        while i < n
            invariant
                n == self@.len(),
                i <= n,
                all_taken_below(self@, i as int),
            decreases n - i,
        {
            if !self.allocated[i] {
                proof {
                    lemma_lowest_free_unique(self@, i as int);
                }
                return i;
            }
            i = i + 1;
        }
        proof {
            lemma_lowest_free_unique(self@, n as int);
        }
        n
    }

    /// Claims the lowest slot available. The table grows only when every
    /// existing entry is claimed.
    pub fn allocate(&mut self) -> (idx: usize)
        ensures
            idx == lowest_free(old(self)@),
            final(self)@ == after_alloc(old(self)@),
            final(self)@[idx as int],
    {
        proof {
            lemma_lowest_free(self@);
        }
        let n = self.allocated.len();
        let mut i: usize = 0;
        while i < n
            invariant
                n == self.allocated@.len(),
                i <= n,
                self@ == old(self)@,
                all_taken_below(self@, i as int),
            decreases n - i,
        {
            if !self.allocated[i] {
                proof {
                    lemma_lowest_free_unique(self@, i as int);
                }
                self.allocated.set(i, true);
                return i;
            }
            i = i + 1;
        }
        proof {
            lemma_lowest_free_unique(self@, n as int);
        }
        self.allocated.push(true);
        n
    }

    /// Releases slot `idx`, which must be claimed.
    pub fn dealloc(&mut self, idx: usize)
        requires
            idx < old(self)@.len(),
            old(self)@[idx as int],
        ensures
            final(self)@ == old(self)@.update(idx as int, false),
    {
        self.allocated.set(idx, false);
    }
}

/// Allocating, releasing what was allocated, and allocating again hands out
/// the same index: `alloc` always returns the smallest free index.
pub proof fn lemma_alloc_dealloc_alloc(s: Seq<bool>)
    ensures
        lowest_free(after_alloc(s).update(lowest_free(s) as int, false)) == lowest_free(s),
{
    lemma_lowest_free(s);
    let i = lowest_free(s) as int;
    let t = after_alloc(s).update(i, false);
    assert forall|j: int| 0 <= j < i implies #[trigger] t[j] by {
        assert(s[j]);
    }
    lemma_lowest_free_unique(t, i);
}

/// Releasing slot `b` makes the next allocation return `b` or a lower free
/// index: exactly `b` when every slot below it is claimed.
pub proof fn lemma_released_base_reused(s: Seq<bool>, b: int)
    requires
        0 <= b < s.len(),
        s[b],
    ensures
        lowest_free(s.update(b, false)) <= b,
        all_taken_below(s, b) ==> lowest_free(s.update(b, false)) == b,
{
    let t = s.update(b, false);
    lemma_lowest_free(t);
    if lowest_free(t) > b {
        assert(t[b]);
    }
    if all_taken_below(s, b) {
        assert forall|j: int| 0 <= j < b implies #[trigger] t[j] by {
            assert(s[j]);
        }
        lemma_lowest_free_unique(t, b);
    }
}

} // verus!
