//! The bounded circular history one provider keeps for one key: a fixed
//! array of `RING_BUF_LEN` slots plus the circular index of the next write.

use vstd::prelude::*;
use crate::types::{DataType, RING_BUF_LEN};

verus! {

/// One provider's history for one key.  The first submission pre-fills
/// every slot; each later submission overwrites the slot at the write
/// index, which then moves one step and wraps around.
#[derive(Clone, Debug)]
pub struct FeededData {
    /// Exactly `RING_BUF_LEN` stored values.
    pub slots: Vec<DataType>,
    /// Slot the next submission will overwrite; always below `RING_BUF_LEN`.
    pub next: usize,
}

impl FeededData {
    /// Well-formed: full capacity and an in-range write index.
    pub open spec fn wf(self) -> bool {
        &&& self.slots@.len() == RING_BUF_LEN
        &&& self.next < RING_BUF_LEN
    }

    /// The history made by a first submission of `value`: every slot holds
    /// `value`, and the write index has moved one step.
    pub fn first(value: DataType) -> (r: FeededData)
        ensures
            r.wf(),
            r.slots@ =~= Seq::new(RING_BUF_LEN as nat, |i: int| value),
            r.next == 1usize % RING_BUF_LEN,
    {
        let mut slots: Vec<DataType> = Vec::new();
        let mut i: usize = 0;
        while i < RING_BUF_LEN
            invariant
                i <= RING_BUF_LEN,
                slots@.len() == i,
                forall|j: int| 0 <= j < i ==> slots@[j] == value,
            decreases RING_BUF_LEN - i,
        {
            slots.push(value);
            i = i + 1;
        }
        FeededData { slots, next: 1 % RING_BUF_LEN }
    }

    /// A later submission: overwrites the slot at the write index and moves
    /// the index one step, wrapping at the capacity.
    pub fn push(&mut self, value: DataType)
        requires
            old(self).wf(),
        ensures
            final(self).wf(),
            final(self).slots@ == old(self).slots@.update(old(self).next as int, value),
            final(self).next == (old(self).next + 1) % (RING_BUF_LEN as int),
    {
        let i = self.next;
        self.slots.set(i, value);
        self.next = (self.next + 1) % RING_BUF_LEN;
    }

    /// The stored value at slot `i`.
    pub fn slot(&self, i: usize) -> (r: DataType)
        requires
            i < self.slots@.len(),
        ensures
            r == self.slots@[i as int],
    {
        self.slots[i]
    }

    /// A copy of the stored history, in slot order.
    pub fn slots_vec(&self) -> (r: Vec<DataType>)
        ensures
            r@ == self.slots@,
    {
        let mut out: Vec<DataType> = Vec::new();
        let mut i: usize = 0;
        while i < self.slots.len()
            invariant
                i <= self.slots@.len(),
                out@ =~= self.slots@.take(i as int),
            decreases self.slots@.len() - i,
        {
            out.push(self.slots[i]);
            i = i + 1;
        }
        proof {
            assert(out@ =~= self.slots@);
        }
        out
    }
}

/// The stored history never exceeds the capacity `RING_BUF_LEN`.
pub proof fn lemma_ring_capacity(fd: FeededData)
    requires
        fd.wf(),
    ensures
        fd.slots@.len() <= RING_BUF_LEN,
{
}

/// Write indices cycle with period `RING_BUF_LEN`: a submission one full
/// lap after another lands on the same slot, so with capacity N the
/// (N+1)-th submission overwrites the slot the 1st one wrote.
pub proof fn lemma_ring_overwrite(i: int)
    requires
        0 <= i,
    ensures
        (i + RING_BUF_LEN) % (RING_BUF_LEN as int) == i % (RING_BUF_LEN as int),
{
    assert((i + RING_BUF_LEN) % (RING_BUF_LEN as int) == i % (RING_BUF_LEN as int))
        by (nonlinear_arith)
        requires 0 <= i;
}

} // verus!
