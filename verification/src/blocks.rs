//! The block bitset: one bit per block of a carrier, tracking which blocks
//! are free. A set bit means the block is free; a cleared bit means it is
//! used. Claiming and releasing touch exactly one bit.

use vstd::prelude::*;

use vstd::pervasive::VecAdditionalExecFns;

verus! {

/// The number of used (cleared) bits.
pub open spec fn count_used(s: Seq<bool>) -> int
    decreases s.len(),
{
    if s.len() == 0 {
        0
    } else {
        count_used(s.drop_last()) + if s.last() {
            0int
        } else {
            1int
        }
    }
}

/// A carrier can never hold more used blocks than it has bits.
pub proof fn lemma_used_at_most_capacity(s: Seq<bool>)
    ensures
        0 <= count_used(s) <= s.len(),
    decreases s.len(),
{
    if s.len() > 0 {
        lemma_used_at_most_capacity(s.drop_last());
    }
}

/// A fixed-capacity bitmap over the blocks of one carrier. Bit `i` is `true`
/// while block `i` is free.
pub struct BlockBitset {
    /// One flag per block; `true` means free.
    pub bits: Vec<bool>,
}

impl BlockBitset {
    /// A bitset of `count` blocks, all free.
    pub fn new(count: usize) -> (b: BlockBitset)
        ensures
            b.bits@.len() == count,
            forall|i: int| 0 <= i < count ==> b.bits@[i] == true,
    {
        let mut bits: Vec<bool> = Vec::new();
        let mut i: usize = 0;
        while i < count
            invariant
                0 <= i <= count,
                bits@.len() == i,
                forall|j: int| 0 <= j < i ==> bits@[j] == true,
            decreases count - i,
        {
            bits.push(true);
            i = i + 1;
        }
        BlockBitset { bits }
    }

    /// Claims the first free block: clears its bit and returns its index, or
    /// returns nothing when every block is used. No other bit changes, so
    /// two claims can never return the same block.
    pub fn claim_first_free(&mut self) -> (r: Option<usize>)
        ensures
            match r {
                Some(i) => {
                    &&& 0 <= i < old(self).bits@.len()
                    &&& old(self).bits@[i as int] == true
                    &&& final(self).bits@ == old(self).bits@.update(i as int, false)
                    &&& forall|j: int| 0 <= j < i ==> old(self).bits@[j] == false
                },
                None => {
                    &&& final(self).bits@ == old(self).bits@
                    &&& forall|j: int| 0 <= j < old(self).bits@.len() ==> old(self).bits@[j]
                        == false
                },
            },
    {
        let n = self.bits.len();
        let mut i: usize = 0;
        while i < n
            invariant
                0 <= i <= n,
                n == self.bits@.len(),
                *self == *old(self),
                forall|j: int| 0 <= j < i ==> self.bits@[j] == false,
            decreases n - i,
        {
            if self.bits[i] {
                self.bits.set(i, false);
                return Some(i);
            }
            i = i + 1;
        }
        None
    }

    /// Releases a block: sets its bit. No other bit changes.
    pub fn release(&mut self, i: usize)
        requires
            i < old(self).bits@.len(),
        ensures
            final(self).bits@ == old(self).bits@.update(i as int, true),
    {
        self.bits.set(i, true);
    }
}

} // verus!
