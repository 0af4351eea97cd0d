//! The slab carrier: one superaligned memory region, self-describing,
//! partitioned into equal blocks of a single size class. The struct's fields
//! stand for the carrier header (size class, base address, block bitset);
//! the data vector stands for the region's storage.

use vstd::prelude::*;

use crate::blocks::BlockBitset;
use vstd::pervasive::VecAdditionalExecFns;

verus! {

/// The fixed size, in bytes, of a carrier obtained through `SizeClassAlloc::new`:
/// a power of two, so that the base of the carrier owning an address is
/// recovered by clearing the address's low bits.
pub const SUPERALIGNED_CARRIER_SIZE: usize = 262144;

/// Multiplying a quotient's lower bound back up stays within the dividend.
pub proof fn lemma_block_fits(total: int, block: int, i: int)
    requires
        block >= 1,
        0 <= i < total / block,
    ensures
        i * block + block <= total,
{
    assert(i * block + block <= total) by (nonlinear_arith)
        requires
            block >= 1,
            0 <= i < total / block,
    ;
}

/// One carrier: a region of `carrier_bytes` bytes at `base`, split into
/// blocks of `block_bytes` for a single size class.
pub struct SlabCarrier {
    /// The size class served by this carrier, in bytes.
    pub block_bytes: usize,
    /// The base address of the region; a multiple of its own size.
    pub base: usize,
    /// The total size of the region.
    pub carrier_bytes: usize,
    /// One bit per block; set while the block is free.
    pub bitset: BlockBitset,
    /// The region's storage.
    pub data: Vec<u8>,
}

impl SlabCarrier {
    /// The number of blocks the carrier holds at its size class.
    pub open spec fn block_count(self) -> int {
        self.carrier_bytes as int / self.block_bytes as int
    }

    /// Well-formedness: the size class fits the region, the bitset covers
    /// exactly the blocks, and the region is aligned to its own size.
    pub open spec fn wf(self) -> bool {
        &&& 1 <= self.block_bytes < self.carrier_bytes
        &&& self.bitset.bits@.len() == self.block_count()
        &&& self.data@.len() == self.carrier_bytes
        &&& self.base as int % self.carrier_bytes as int == 0
        &&& self.base >= self.carrier_bytes
        &&& self.base + self.carrier_bytes <= usize::MAX
    }

    /// Some block is still free.
    pub open spec fn has_free(self) -> bool {
        exists|b: int| 0 <= b < self.block_count() && self.bitset.bits@[b] == true
    }

    /// True while block `b` is used (its bit is cleared).
    pub open spec fn live(self, b: int) -> bool {
        0 <= b < self.block_count() && self.bitset.bits@[b] == false
    }

    /// The address of block `b`.
    pub open spec fn block_addr(self, b: int) -> int {
        self.base + b * self.block_bytes
    }

    /// The block index owning an address of this carrier.
    pub open spec fn index_of_addr(self, addr: int) -> int {
        (addr - self.base) / (self.block_bytes as int)
    }

    /// An empty placeholder carrier, used to swap a real carrier out of the
    /// allocator's table while it is operated on.
    pub fn placeholder() -> SlabCarrier {
        SlabCarrier {
            block_bytes: 1,
            base: 0,
            carrier_bytes: 0,
            bitset: BlockBitset { bits: Vec::new() },
            data: Vec::new(),
        }
    }

    /// Initializes a region of `carrier_bytes` bytes at `base` as a carrier
    /// of the given size class, with every block free.
    pub fn init(base: usize, carrier_bytes: usize, block_bytes: usize) -> (c: SlabCarrier)
        requires
            1 <= block_bytes < carrier_bytes,
            base as int % carrier_bytes as int == 0,
            base >= carrier_bytes,
            base + carrier_bytes <= usize::MAX,
        ensures
            c.wf(),
            c.block_bytes == block_bytes,
            c.base == base,
            c.carrier_bytes == carrier_bytes,
            forall|b: int| !c.live(b),
            forall|i: int| 0 <= i < carrier_bytes ==> c.data@[i] == 0,
    {
        let count = carrier_bytes / block_bytes;
        let bitset = BlockBitset::new(count);
        let mut data: Vec<u8> = Vec::new();
        let mut i: usize = 0;
        while i < carrier_bytes
            invariant
                0 <= i <= carrier_bytes,
                data@.len() == i,
                forall|j: int| 0 <= j < i ==> data@[j] == 0,
            decreases carrier_bytes - i,
        {
            data.push(0);
            i = i + 1;
        }
        SlabCarrier { block_bytes, base, carrier_bytes, bitset, data }
    }

    /// Atomically claims the first free block and returns its address, or
    /// reports that the carrier is full. Exactly the claimed block changes.
    pub fn alloc_block(&mut self) -> (r: Option<usize>)
        requires
            old(self).wf(),
        ensures
            final(self).wf(),
            final(self).block_bytes == old(self).block_bytes,
            final(self).base == old(self).base,
            final(self).carrier_bytes == old(self).carrier_bytes,
            final(self).data == old(self).data,
            match r {
                Some(addr) => {
                    let b = old(self).index_of_addr(addr as int);
                    &&& 0 <= b < old(self).block_count()
                    &&& addr == old(self).block_addr(b)
                    &&& !old(self).live(b)
                    &&& final(self).bitset.bits@ == old(self).bitset.bits@.update(b, false)
                    &&& forall|j: int| 0 <= j < b ==> old(self).live(j)
                },
                None => {
                    &&& final(self).bitset.bits@ == old(self).bitset.bits@
                    &&& forall|b: int| 0 <= b < old(self).block_count() ==> old(self).live(b)
                },
            },
    {
        let claimed = self.bitset.claim_first_free();
        match claimed {
            Some(i) => {
                proof {
                    lemma_block_fits(self.carrier_bytes as int, self.block_bytes as int, i as int);
                    assert((i * self.block_bytes) as int == i as int * self.block_bytes as int)
                        by (nonlinear_arith)
                        requires
                            i as int * self.block_bytes as int + self.block_bytes as int
                                <= self.carrier_bytes as int,
                            i >= 0,
                            self.block_bytes >= 1,
                    ;
                }
                let offset = i * self.block_bytes;
                let addr = self.base + offset;
                proof {
                    let bb = self.block_bytes as int;
                    assert((addr - self.base) == i as int * bb);
                    assert((i as int * bb) / bb == i as int) by (nonlinear_arith)
                        requires
                            bb >= 1,
                            i >= 0,
                    ;
                }
                Some(addr)
            },
            None => None,
        }
    }

    /// Releases the block owning the given address: its bit is set again.
    /// Exactly that block changes.
    pub fn free_block(&mut self, addr: usize)
        requires
            old(self).wf(),
            old(self).base <= addr,
            0 <= old(self).index_of_addr(addr as int) < old(self).block_count(),
        ensures
            final(self).wf(),
            final(self).block_bytes == old(self).block_bytes,
            final(self).base == old(self).base,
            final(self).carrier_bytes == old(self).carrier_bytes,
            final(self).data == old(self).data,
            final(self).bitset.bits@ == old(self).bitset.bits@.update(
                old(self).index_of_addr(addr as int),
                true,
            ),
    {
        let offset = addr - self.base;
        let index = offset / self.block_bytes;
        self.bitset.release(index);
    }

    /// Writes one byte of the carrier's storage.
    pub fn write_byte(&mut self, addr: usize, value: u8)
        requires
            old(self).wf(),
            old(self).base <= addr,
            addr - old(self).base < old(self).carrier_bytes,
        ensures
            final(self).wf(),
            final(self).block_bytes == old(self).block_bytes,
            final(self).base == old(self).base,
            final(self).carrier_bytes == old(self).carrier_bytes,
            final(self).bitset == old(self).bitset,
            final(self).data@ == old(self).data@.update(addr - old(self).base, value),
    {
        let offset = addr - self.base;
        self.data.set(offset, value);
    }

    /// Reads one byte of the carrier's storage.
    pub fn read_byte(&self, addr: usize) -> (v: u8)
        requires
            self.wf(),
            self.base <= addr,
            addr - self.base < self.carrier_bytes,
        ensures
            v == self.data@[addr - self.base],
    {
        let offset = addr - self.base;
        self.data[offset]
    }
}

} // verus!
