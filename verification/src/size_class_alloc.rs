//! The size-class allocator facade: a table of size classes, one carrier
//! list per class, and allocate / reallocate / deallocate over them.
//!
//! The model of memory: carrier `id` occupies the address range
//! `[(id + 1) * carrier_bytes, (id + 2) * carrier_bytes)`, so every carrier
//! is aligned to its own size and the carrier owning an address is recovered
//! from the address alone. Creating a carrier fails once `max_carriers`
//! regions are mapped; that bound models the operating system refusing to
//! map further memory.

use vstd::prelude::*;

use crate::carriers::{lemma_block_fits, SlabCarrier, SUPERALIGNED_CARRIER_SIZE};
use vstd::pervasive::VecAdditionalExecFns;

verus! {

/// One allocation granularity, in bytes.
#[derive(Clone, Copy, PartialEq, Eq, Structural, Debug)]
pub struct SizeClass {
    /// The granularity in bytes.
    pub bytes: usize,
}

impl SizeClass {
    /// A size class of the given number of bytes.
    pub fn new(bytes: usize) -> (c: SizeClass)
        ensures
            c.bytes == bytes,
    {
        SizeClass { bytes }
    }

    /// The granularity in bytes.
    pub fn to_bytes(&self) -> (b: usize)
        ensures
            b == self.bytes,
    {
        self.bytes
    }
}

/// An allocation request failed: it exceeds the largest size class, or no
/// further carrier could be mapped.
#[derive(Clone, Copy, PartialEq, Eq, Structural, Debug)]
pub struct AllocErr;

/// The block cannot be resized in place: the old and new sizes fall in
/// different size classes.
#[derive(Clone, Copy, PartialEq, Eq, Structural, Debug)]
pub struct CannotReallocInPlace;

/// Strictly ascending.
pub open spec fn sorted_strict(s: Seq<usize>) -> bool {
    forall|i: int, j: int| 0 <= i < j < s.len() ==> #[trigger] s[i] < #[trigger] s[j]
}

/// Finds the first element not smaller than the target in a strictly
/// ascending table, with its position; nothing when every element is
/// smaller.
pub fn binary_search_next_largest(s: &Vec<usize>, target: usize) -> (r: Option<(usize, usize)>)
    requires
        sorted_strict(s@),
    ensures
        match r {
            Some(p) => {
                &&& 0 <= p.0 < s@.len()
                &&& p.1 == s@[p.0 as int]
                &&& p.1 >= target
                &&& forall|j: int| 0 <= j < p.0 ==> s@[j] < target
            },
            None => forall|j: int| 0 <= j < s@.len() ==> s@[j] < target,
        },
{
    let n = s.len();
    let mut lo: usize = 0;
    let mut hi: usize = n;
    while lo < hi
        invariant
            0 <= lo <= hi <= n,
            n == s@.len(),
            sorted_strict(s@),
            forall|j: int| 0 <= j < lo ==> s@[j] < target,
            forall|j: int| hi <= j < n ==> s@[j] >= target,
        decreases hi - lo,
    {
        let mid = lo + (hi - lo) / 2;
        if s[mid] < target {
            proof {
                assert forall|j: int| 0 <= j <= mid implies s@[j] < target by {
                    if j < mid {
                        assert(s@[j] < s@[mid as int]);
                    }
                }
            }
            lo = mid + 1;
        } else {
            proof {
                assert forall|j: int| mid <= j < n implies s@[j] >= target by {
                    if j > mid {
                        assert(s@[mid as int] < s@[j]);
                    }
                }
            }
            hi = mid;
        }
    }
    if lo < n {
        Some((lo, s[lo]))
    } else {
        None
    }
}

/// The size-class allocator: the class table and one carrier list per class.
/// The head of a carrier list is its last element, so that a fresh carrier
/// is pushed at the head cheaply.
pub struct SizeClassAlloc {
    /// The size classes, in bytes, strictly ascending.
    pub size_classes: Vec<usize>,
    /// Per class, the ids of the carriers backing it.
    pub lists: Vec<Vec<usize>>,
    /// All carriers ever mapped, indexed by id.
    pub carriers: Vec<SlabCarrier>,
    /// The fixed size of every carrier; a power of two.
    pub carrier_bytes: usize,
    /// How many carriers can be mapped in all; the model of the address
    /// space the operating system will grant.
    pub max_carriers: usize,
}

/// A power of two.
pub open spec fn is_power_of_two(n: int) -> bool
    decreases n,
{
    if n <= 0 {
        false
    } else if n == 1 {
        true
    } else {
        n % 2 == 0 && is_power_of_two(n / 2)
    }
}

impl SizeClassAlloc {
    /// The number of size classes.
    pub open spec fn n_classes(self) -> int {
        self.size_classes@.len() as int
    }

    /// The number of carriers mapped.
    pub open spec fn n_carriers(self) -> int {
        self.carriers@.len() as int
    }

    /// The largest size class.
    pub open spec fn spec_max_size_class(self) -> int {
        self.size_classes@.last() as int
    }

    /// `k` is the position of the smallest size class that can hold `size`.
    pub open spec fn is_class_index(self, size: int, k: int) -> bool {
        &&& 0 <= k < self.n_classes()
        &&& self.size_classes@[k] >= size
        &&& forall|j: int| 0 <= j < k ==> self.size_classes@[j] < size
    }

    /// The base address of carrier `id`.
    pub open spec fn carrier_base(self, id: int) -> int {
        (id + 1) * self.carrier_bytes
    }

    /// The id of the carrier owning an address (meaningful for mapped
    /// addresses).
    pub open spec fn carrier_of_addr(self, addr: int) -> int {
        addr / (self.carrier_bytes as int) - 1
    }

    /// The block index that an address of carrier `id` falls in.
    pub open spec fn block_of_addr(self, id: int, addr: int) -> int {
        self.carriers@[id].index_of_addr(addr)
    }

    /// True while block `b` of carrier `id` is allocated.
    pub open spec fn live(self, id: int, b: int) -> bool {
        0 <= id < self.n_carriers() && self.carriers@[id].live(b)
    }

    /// The byte of storage at a mapped address.
    pub open spec fn mem_at(self, addr: int) -> u8 {
        let id = self.carrier_of_addr(addr);
        self.carriers@[id].data@[addr - self.carrier_base(id)]
    }

    /// Class `k` has a carrier with a free block.
    pub open spec fn class_has_free(self, k: int) -> bool {
        exists|j: int|
            0 <= j < self.lists@[k]@.len() && self.carriers@[self.lists@[k]@[j] as int].has_free()
    }

    /// Carrier `id` stands in some class list.
    pub open spec fn carrier_listed(self, id: int) -> bool {
        listed_in(self.lists@, id)
    }

    /// Well-formedness: the class table is strictly ascending and fits the
    /// carrier size; every carrier is aligned at its id's base and belongs
    /// to exactly one class list, whose class it serves.
    pub open spec fn wf(self) -> bool {
        &&& self.n_classes() >= 1
        &&& sorted_strict(self.size_classes@)
        &&& forall|k: int|
            0 <= k < self.n_classes() ==> 1 <= #[trigger] self.size_classes@[k]
                < self.carrier_bytes
        &&& self.lists@.len() == self.n_classes()
        &&& is_power_of_two(self.carrier_bytes as int)
        &&& (self.max_carriers + 1) * (self.carrier_bytes as int) <= usize::MAX
        &&& self.n_carriers() <= self.max_carriers
        &&& forall|id: int|
            0 <= id < self.n_carriers() ==> {
                &&& (#[trigger] self.carriers@[id]).wf()
                &&& self.carriers@[id].carrier_bytes == self.carrier_bytes
                &&& self.carriers@[id].base == self.carrier_base(id)
            }
        &&& forall|k: int, j: int|
            0 <= k < self.n_classes() && 0 <= j < self.lists@[k]@.len() ==> {
                &&& (#[trigger] self.lists@[k]@[j]) < self.n_carriers()
                &&& self.carriers@[self.lists@[k]@[j] as int].block_bytes == self.size_classes@[k]
            }
        &&& forall|k1: int, j1: int, k2: int, j2: int|
            #![trigger self.lists@[k1]@[j1], self.lists@[k2]@[j2]]
            0 <= k1 < self.n_classes() && 0 <= j1 < self.lists@[k1]@.len() && 0 <= k2
                < self.n_classes() && 0 <= j2 < self.lists@[k2]@.len() && (k1 != k2 || j1 != j2)
                ==> self.lists@[k1]@[j1] != self.lists@[k2]@[j2]
        &&& forall|id: int| 0 <= id < self.n_carriers() ==> #[trigger] self.carrier_listed(id)
    }

    /// The largest size class, in bytes: requests above it are rejected.
    pub fn max_size_class(&self) -> (b: usize)
        requires
            self.wf(),
        ensures
            b == self.spec_max_size_class(),
    {
        self.size_classes[self.size_classes.len() - 1]
    }

    /// The smallest size class that can hold a request of `request_size`
    /// bytes, or nothing when the request exceeds the largest class.
    pub fn size_class_for(&self, request_size: usize) -> (r: Option<SizeClass>)
        requires
            self.wf(),
        ensures
            r is Some <==> request_size <= self.spec_max_size_class(),
            r matches Some(c) ==> {
                &&& c.bytes >= request_size
                &&& exists|k: int| self.is_class_index(request_size as int, k) && c.bytes
                    == self.size_classes@[k]
                &&& forall|j: int|
                    0 <= j < self.n_classes() && #[trigger] self.size_classes@[j] >= request_size
                        ==> c.bytes <= self.size_classes@[j]
            },
    {
        let r = binary_search_next_largest(&self.size_classes, request_size);
        match r {
            Some((k, bytes)) => {
                proof {
                    assert(self.is_class_index(request_size as int, k as int));
                    assert forall|j: int|
                        0 <= j < self.n_classes() && #[trigger] self.size_classes@[j]
                            >= request_size implies bytes <= self.size_classes@[j] by {
                        if j < k {
                            assert(self.size_classes@[j] < request_size);
                        } else if j > k {
                            assert(self.size_classes@[k as int] < self.size_classes@[j]);
                        }
                    }
                }
                Some(SizeClass { bytes })
            },
            None => {
                proof {
                    assert(self.size_classes@[self.n_classes() - 1] < request_size);
                }
                None
            },
        }
    }

    /// The position of a size class in the table, for array-aligned lookups;
    /// the largest machine integer when the class is not in the table.
    pub fn index_for(&self, size_class: SizeClass) -> (r: usize)
        requires
            self.wf(),
        ensures
            (exists|k: int|
                0 <= k < self.n_classes() && self.size_classes@[k] == size_class.bytes) ==> 0 <= r
                < self.n_classes() && self.size_classes@[r as int] == size_class.bytes,
            !(exists|k: int|
                0 <= k < self.n_classes() && self.size_classes@[k] == size_class.bytes) ==> r
                == usize::MAX,
    {
        let r = binary_search_next_largest(&self.size_classes, size_class.bytes);
        match r {
            Some((k, bytes)) => {
                if bytes == size_class.bytes {
                    k
                } else {
                    proof {
                        assert forall|j: int|
                            0 <= j < self.n_classes() implies self.size_classes@[j]
                            != size_class.bytes by {
                            if j > k {
                                assert(self.size_classes@[k as int] < self.size_classes@[j]);
                            }
                        }
                    }
                    usize::MAX
                }
            },
            None => usize::MAX,
        }
    }

    /// The class for a request already known to be satisfiable.
    pub fn size_class_for_unchecked(&self, request_size: usize) -> (c: SizeClass)
        requires
            self.wf(),
            request_size <= self.spec_max_size_class(),
        ensures
            exists|k: int|
                self.is_class_index(request_size as int, k) && c.bytes == self.size_classes@[k],
    {
        let r = self.size_class_for(request_size);
        r.unwrap()
    }
}

} // verus!

verus! {

/// Carrier `id` stands in one of the lists.
pub open spec fn listed_in(lists: Seq<Vec<usize>>, id: int) -> bool {
    exists|k: int, j: int|
        0 <= k < lists.len() && 0 <= j < lists[k]@.len() && (#[trigger] lists[k]@[j]) == id
}

/// Two carriers with the same content have free blocks together.
pub proof fn lemma_has_free_equiv(a: SlabCarrier, b: SlabCarrier)
    requires
        carrier_equiv(a, b),
    ensures
        a.has_free() == b.has_free(),
{
    if a.has_free() {
        let w = choose|w: int| 0 <= w < a.block_count() && a.bitset.bits@[w] == true;
        assert(0 <= w < b.block_count() && b.bitset.bits@[w] == true);
    }
    if b.has_free() {
        let w = choose|w: int| 0 <= w < b.block_count() && b.bitset.bits@[w] == true;
        assert(0 <= w < a.block_count() && a.bitset.bits@[w] == true);
    }
}

/// Observational equality of carriers: same class, place and content.
pub open spec fn carrier_equiv(a: SlabCarrier, b: SlabCarrier) -> bool {
    &&& a.block_bytes == b.block_bytes
    &&& a.base == b.base
    &&& a.carrier_bytes == b.carrier_bytes
    &&& a.bitset.bits@ == b.bitset.bits@
    &&& a.data@ == b.data@
}

/// The old carriers keep their place, class and size (new ones may appear).
pub open spec fn layout_preserved(a: SizeClassAlloc, b: SizeClassAlloc) -> bool {
    &&& a.carriers@.len() >= b.carriers@.len()
    &&& forall|id: int|
        0 <= id < b.carriers@.len() ==> {
            &&& (#[trigger] a.carriers@[id]).block_bytes == b.carriers@[id].block_bytes
            &&& a.carriers@[id].base == b.carriers@[id].base
            &&& a.carriers@[id].carrier_bytes == b.carriers@[id].carrier_bytes
        }
}

/// Observational equality of allocator states.
pub open spec fn state_equiv(a: SizeClassAlloc, b: SizeClassAlloc) -> bool {
    &&& a.size_classes@ == b.size_classes@
    &&& a.carrier_bytes == b.carrier_bytes
    &&& a.max_carriers == b.max_carriers
    &&& a.lists@.len() == b.lists@.len()
    &&& forall|k: int| 0 <= k < a.lists@.len() ==> #[trigger] a.lists@[k]@ == b.lists@[k]@
    &&& a.carriers@.len() == b.carriers@.len()
    &&& forall|id: int|
        0 <= id < a.carriers@.len() ==> carrier_equiv(
            #[trigger] a.carriers@[id],
            b.carriers@[id],
        )
}

/// Multiplication keeps order.
proof fn lemma_mul_le(a: int, b: int, c: int)
    requires
        0 <= a <= b,
        c >= 0,
    ensures
        a * c <= b * c,
{
    assert(a * c <= b * c) by (nonlinear_arith)
        requires
            0 <= a <= b,
            c >= 0,
    ;
}

/// The base of a carrier inside the budget lies in the address space, above
/// the first carrier boundary.
proof fn lemma_base_bounds(cb: int, id: int, cap: int, limit: int)
    requires
        cb >= 1,
        0 <= id < cap,
        (cap + 1) * cb <= limit,
    ensures
        (id + 1) * cb + cb <= limit,
        (id + 1) * cb >= cb,
{
    assert((id + 1) * cb + cb <= (cap + 1) * cb && (id + 1) * cb >= cb) by (nonlinear_arith)
        requires
            cb >= 1,
            0 <= id < cap,
    ;
}

/// A multiple of the carrier size is aligned to it, and the quotient and
/// remainder of an address inside a carrier recover the carrier and offset.
proof fn lemma_carrier_addr(cb: int, id: int, off: int)
    requires
        cb >= 1,
        id >= 0,
        0 <= off < cb,
    ensures
        ((id + 1) * cb + off) / cb == id + 1,
        ((id + 1) * cb + off) % cb == off,
        ((id + 1) * cb) % cb == 0,
    {
    vstd::arithmetic::div_mod::lemma_fundamental_div_mod_converse((id + 1) * cb + off, cb, id + 1, off);
    vstd::arithmetic::div_mod::lemma_fundamental_div_mod_converse((id + 1) * cb, cb, id + 1, 0);
}

/// Recovering a block index from a block address.
proof fn lemma_block_index(bb: int, b: int)
    requires
        bb >= 1,
        b >= 0,
    ensures
        (b * bb) / bb == b,
{
    vstd::arithmetic::div_mod::lemma_fundamental_div_mod_converse(b * bb, bb, b, 0);
}

/// Inserts a value into a strictly ascending table, keeping it strictly
/// ascending and deduplicated.
fn insert_sorted_dedup(v: &mut Vec<usize>, x: usize)
    requires
        sorted_strict(old(v)@),
    ensures
        sorted_strict(final(v)@),
        forall|y: usize| final(v)@.contains(y) <==> (old(v)@.contains(y) || y == x),
        final(v)@.len() >= 1,
        old(v)@.len() <= final(v)@.len() <= old(v)@.len() + 1,
{
    let n = v.len();
    let mut i: usize = 0;
    while i < n && v[i] < x
        invariant
            0 <= i <= n,
            n == v@.len(),
            sorted_strict(v@),
            *v == *old(v),
            forall|j: int| 0 <= j < i ==> v@[j] < x,
        decreases n - i,
    {
        i = i + 1;
    }
    if i < n && v[i] == x {
        proof {
            assert(v@.contains(x));
        }
        return ;
    }
    let ghost before = v@;
    v.insert(i, x);
    proof {
        assert forall|i1: int, i2: int| 0 <= i1 < i2 < v@.len() implies #[trigger] v@[i1]
            < #[trigger] v@[i2] by {
            if i1 < i && i2 < i {
            } else if i1 < i && i2 == i {
            } else if i1 == i {
                assert(v@[i2] == before[i2 - 1]);
                if i2 - 1 > i as int {
                    assert(before[i as int] < before[i2 - 1]);
                }
            } else if i2 > i && i1 > i {
                assert(v@[i1] == before[i1 - 1] && v@[i2] == before[i2 - 1]);
            } else {
                assert(v@[i2] == before[i2 - 1]);
                if i1 < i2 - 1 {
                    assert(before[i1] < before[i2 - 1]);
                }
            }
        }
        assert forall|y: usize| v@.contains(y) <==> (before.contains(y) || y == x) by {
            if v@.contains(y) {
                let w = choose|w: int| 0 <= w < v@.len() && v@[w] == y;
                if w < i {
                    assert(before[w] == y);
                } else if w > i {
                    assert(before[w - 1] == y);
                }
            }
            if before.contains(y) {
                let w = choose|w: int| 0 <= w < before.len() && before[w] == y;
                if w < i {
                    assert(v@[w] == y);
                } else {
                    assert(v@[w + 1] == y);
                }
            }
            if y == x {
                assert(v@[i as int] == y);
            }
        }
    }
}

impl SizeClassAlloc {
    /// An allocator over the given size classes with a chosen carrier size
    /// and carrier budget. The classes are sorted ascending and
    /// deduplicated; every class starts with one empty carrier.
    pub fn new_with_carrier_size(
        size_classes: &[SizeClass],
        carrier_bytes: usize,
        max_carriers: usize,
    ) -> (a: SizeClassAlloc)
        requires
            size_classes@.len() >= 1,
            forall|i: int|
                0 <= i < size_classes@.len() ==> 1 <= (#[trigger] size_classes@[i]).bytes
                    < carrier_bytes,
            is_power_of_two(carrier_bytes as int),
            (max_carriers + 1) * (carrier_bytes as int) <= usize::MAX,
            size_classes@.len() <= max_carriers,
        ensures
            a.wf(),
            a.carrier_bytes == carrier_bytes,
            a.max_carriers == max_carriers,
            forall|y: usize|
                a.size_classes@.contains(y) <==> exists|i: int|
                    0 <= i < size_classes@.len() && (#[trigger] size_classes@[i]).bytes == y,
            a.n_carriers() == a.n_classes(),
            forall|id: int, b: int| !a.live(id, b),
            forall|k: int| 0 <= k < a.n_classes() ==> #[trigger] a.lists@[k]@ == seq![k as usize],
            forall|k: int|
                0 <= k < a.n_classes() ==> (#[trigger] a.carriers@[k]).block_bytes
                    == a.size_classes@[k],
    {
        let mut classes: Vec<usize> = Vec::new();
        let mut i: usize = 0;
        while i < size_classes.len()
            invariant
                0 <= i <= size_classes@.len(),
                sorted_strict(classes@),
                classes@.len() <= i,
                i > 0 ==> classes@.len() >= 1,
                forall|y: usize|
                    classes@.contains(y) <==> exists|w: int|
                        0 <= w < i && (#[trigger] size_classes@[w]).bytes == y,
            decreases size_classes@.len() - i,
        {
            insert_sorted_dedup(&mut classes, size_classes[i].bytes);
            i = i + 1;
        }
        proof {
            assert(size_classes@[0].bytes == size_classes@[0].bytes);
            assert(classes@.contains(size_classes@[0].bytes));
            assert forall|k: int| 0 <= k < classes@.len() implies 1 <= #[trigger] classes@[k]
                < carrier_bytes by {
                assert(classes@.contains(classes@[k]));
            }
            assert(classes@.len() <= max_carriers);
        }
        let n = classes.len();
        let mut lists: Vec<Vec<usize>> = Vec::new();
        let mut carriers: Vec<SlabCarrier> = Vec::new();
        let mut k: usize = 0;
        while k < n
            invariant
                0 <= k <= n,
                n == classes@.len(),
                sorted_strict(classes@),
                forall|kk: int|
                    0 <= kk < n ==> 1 <= #[trigger] classes@[kk] < carrier_bytes,
                n <= max_carriers,
                (max_carriers + 1) * (carrier_bytes as int) <= usize::MAX,
                lists@.len() == k,
                carriers@.len() == k,
                forall|kk: int| 0 <= kk < k ==> (#[trigger] lists@[kk])@ == seq![kk as usize],
                forall|id: int|
                    0 <= id < k ==> {
                        &&& (#[trigger] carriers@[id]).wf()
                        &&& carriers@[id].carrier_bytes == carrier_bytes
                        &&& carriers@[id].base == (id + 1) * carrier_bytes
                        &&& carriers@[id].block_bytes == classes@[id]
                        &&& forall|b: int| !carriers@[id].live(b)
                    },
            decreases n - k,
        {
            proof {
                assert(1 <= classes@[k as int] < carrier_bytes);
                lemma_base_bounds(
                    carrier_bytes as int,
                    k as int,
                    max_carriers as int,
                    usize::MAX as int,
                );
                lemma_carrier_addr(carrier_bytes as int, k as int, 0);
            }
            let base = (k + 1) * carrier_bytes;
            let c = SlabCarrier::init(base, carrier_bytes, classes[k]);
            carriers.push(c);
            let mut l: Vec<usize> = Vec::new();
            l.push(k);
            proof {
                assert(l@ =~= seq![k as usize]);
            }
            lists.push(l);
            k = k + 1;
        }
        let a = SizeClassAlloc { size_classes: classes, lists, carriers, carrier_bytes, max_carriers };
        proof {
            assert forall|k1: int, j1: int, k2: int, j2: int|
                0 <= k1 < a.n_classes() && 0 <= j1 < a.lists@[k1]@.len() && 0 <= k2
                    < a.n_classes() && 0 <= j2 < a.lists@[k2]@.len() && (k1 != k2 || j1 != j2)
                    implies a.lists@[k1]@[j1] != a.lists@[k2]@[j2] by {
                assert(a.lists@[k1]@ == seq![k1 as usize]);
                assert(a.lists@[k2]@ == seq![k2 as usize]);
            }
            assert forall|id: int| 0 <= id < a.n_carriers() implies #[trigger] a.carrier_listed(
                id,
            ) by {
                assert(a.lists@[id]@ == seq![id as usize]);
                assert(a.lists@[id]@[0] == id as usize);
                assert(listed_in(a.lists@, id));
            }
            assert forall|k2: int, j2: int|
                0 <= k2 < a.n_classes() && 0 <= j2 < a.lists@[k2]@.len() implies (
            #[trigger] a.lists@[k2]@[j2]) < a.n_carriers() && a.carriers@[a.lists@[k2]@[j2] as int].block_bytes
                == a.size_classes@[k2] by {
                assert(a.lists@[k2]@ == seq![k2 as usize]);
            }
        }
        a
    }

    /// An allocator over the given size classes, with superaligned carriers
    /// of the fixed carrier size and a carrier budget filling the model's
    /// address space.
    pub fn new(size_classes: &[SizeClass]) -> (a: SizeClassAlloc)
        requires
            size_classes@.len() >= 1,
            forall|i: int|
                0 <= i < size_classes@.len() ==> 1 <= (#[trigger] size_classes@[i]).bytes
                    < SUPERALIGNED_CARRIER_SIZE,
            size_classes@.len() <= usize::MAX as int / SUPERALIGNED_CARRIER_SIZE as int - 1,
        ensures
            a.wf(),
            a.carrier_bytes == SUPERALIGNED_CARRIER_SIZE,
            forall|y: usize|
                a.size_classes@.contains(y) <==> exists|i: int|
                    0 <= i < size_classes@.len() && (#[trigger] size_classes@[i]).bytes == y,
            a.n_carriers() == a.n_classes(),
            forall|id: int, b: int| !a.live(id, b),
            forall|k: int| 0 <= k < a.n_classes() ==> #[trigger] a.lists@[k]@ == seq![k as usize],
            forall|k: int|
                0 <= k < a.n_classes() ==> (#[trigger] a.carriers@[k]).block_bytes
                    == a.size_classes@[k],
    {
        proof {
            reveal_with_fuel(is_power_of_two, 20);
            assert(is_power_of_two(SUPERALIGNED_CARRIER_SIZE as int));
            vstd::arithmetic::div_mod::lemma_fundamental_div_mod(
                usize::MAX as int,
                SUPERALIGNED_CARRIER_SIZE as int,
            );
        }
        let max_carriers = usize::MAX / SUPERALIGNED_CARRIER_SIZE - 1;
        Self::new_with_carrier_size(size_classes, SUPERALIGNED_CARRIER_SIZE, max_carriers)
    }
}

} // verus!

verus! {

impl SizeClassAlloc {
    /// Allocates a block of at least `size` bytes (rounded up to the
    /// request's size class), returning its address. The alignment request
    /// is not honored beyond the natural size-class alignment. Fails when
    /// the request exceeds the largest size class, or when every carrier of
    /// the class is full and no further carrier can be mapped.
    pub fn allocate(&mut self, size: usize, _align: usize) -> (r: Result<usize, AllocErr>)
        requires
            old(self).wf(),
        ensures
            final(self).wf(),
            final(self).size_classes@ == old(self).size_classes@,
            final(self).carrier_bytes == old(self).carrier_bytes,
            final(self).max_carriers == old(self).max_carriers,
            old(self).n_carriers() <= final(self).n_carriers() <= old(self).n_carriers() + 1,
            layout_preserved(*final(self), *old(self)),
            r is Err ==> state_equiv(*final(self), *old(self)) && (size
                > old(self).spec_max_size_class() || (forall|k: int|
                old(self).is_class_index(size as int, k) ==> !old(self).class_has_free(k) && old(self).n_carriers() == old(self).max_carriers)),
            r is Ok ==> size <= old(self).spec_max_size_class(),
            (size <= old(self).spec_max_size_class() && forall|k: int|
                old(self).is_class_index(size as int, k) ==> (old(self).class_has_free(k) || old(self).n_carriers() < old(self).max_carriers)) ==> r is Ok,
            r matches Ok(addr) ==> ({
                let id = old(self).carrier_of_addr(addr as int);
                let b = final(self).carriers@[id].index_of_addr(addr as int);
                &&& 0 <= id < final(self).n_carriers()
                &&& 0 <= b < final(self).carriers@[id].block_count()
                &&& addr == final(self).carriers@[id].block_addr(b)
                &&& forall|k: int|
                    old(self).is_class_index(size as int, k) ==> final(self).carriers@[id].block_bytes == old(self).size_classes@[k]
                &&& !old(self).live(id, b)
                &&& final(self).live(id, b)
                &&& forall|id2: int, b2: int|
                    !(id2 == id && b2 == b) ==> #[trigger] final(self).live(id2, b2) == old(self).live(id2, b2)
                &&& forall|id2: int|
                    0 <= id2 < old(self).n_carriers() ==> (#[trigger] final(self).carriers@[id2]).data@ == old(self).carriers@[id2].data@
                &&& final(self).n_carriers() == old(self).n_carriers() + 1 ==> (id == old(self).n_carriers() && forall|k: int|
                    old(self).is_class_index(size as int, k) ==> !old(self).class_has_free(k))
                &&& final(self).n_carriers() == old(self).n_carriers() ==> forall|k2: int|
                    0 <= k2 < old(self).n_classes() ==> #[trigger] final(self).lists@[k2]@ == old(self).lists@[k2]@
                &&& final(self).n_carriers() == old(self).n_carriers() + 1 ==> forall|k: int|
                    old(self).is_class_index(size as int, k) ==> #[trigger] final(self).lists@[k]@
                        == old(self).lists@[k]@.push(old(self).n_carriers() as usize)
            }),
    {
        let max = self.max_size_class();
        if size > max {
            return Err(AllocErr);
        }
        let found = binary_search_next_largest(&self.size_classes, size);
        let (k, class_bytes) = match found {
            Some(p) => p,
            None => {
                return Err(AllocErr);
            },
        };
        proof {
            assert(self.is_class_index(size as int, k as int));
        }
        let list_len = self.lists[k].len();
        let mut j: usize = list_len;
        while j > 0
            invariant
                old(self).wf(),
                self.wf(),
                state_equiv(*self, *old(self)),
                self.size_classes == old(self).size_classes,
                self.lists == old(self).lists,
                self.carrier_bytes == old(self).carrier_bytes,
                self.max_carriers == old(self).max_carriers,
                self.carriers@.len() == old(self).carriers@.len(),
                0 <= j <= list_len,
                0 <= k < self.n_classes(),
                self.is_class_index(size as int, k as int),
                list_len == self.lists@[k as int]@.len(),
                forall|jj: int|
                    j <= jj < list_len ==> !self.carriers@[(#[trigger] self.lists@[k as int]@[jj])
                        as int].has_free(),
            decreases j,
        {
            j = j - 1;
            let id = self.lists[k][j];
            let ghost prev = self.carriers@;
            let ghost prev_c = self.carriers@[id as int];
            let mut c = SlabCarrier::placeholder();
            self.carriers.set_and_swap(id, &mut c);
            let got = c.alloc_block();
            self.carriers.set_and_swap(id, &mut c);
            proof {
                assert(self.carriers@ =~= prev.update(id as int, self.carriers@[id as int]));
            }
            match got {
                Some(addr) => {
                    proof {
                        let idi = id as int;
                        let cb = self.carrier_bytes as int;
                        let bb = prev_c.block_bytes as int;
                        let b = prev_c.index_of_addr(addr as int);
                        lemma_block_fits(prev_c.carrier_bytes as int, bb, b);
                        lemma_carrier_addr(cb, idi, b * bb);
                        assert(old(self).carrier_of_addr(addr as int) == idi);
                        assert forall|id2: int, b2: int|
                            !(id2 == idi && b2 == b) implies #[trigger] self.live(id2, b2) == old(self).live(id2, b2) by {
                            if id2 != idi && 0 <= id2 < old(self).n_carriers() {
                                assert(carrier_equiv(self.carriers@[id2], old(self).carriers@[id2]));
                            }
                        }
                        assert forall|id2: int|
                            0 <= id2 < self.n_carriers() implies #[trigger] self.carrier_listed(
                            id2,
                        ) by {
                            assert(old(self).carrier_listed(id2));
                        }
                        assert(self.wf());
                    }
                    return Ok(addr);
                },
                None => {
                    proof {
                        assert(carrier_equiv(self.carriers@[id as int], prev_c));
                        assert forall|id2: int|
                            0 <= id2 < old(self).n_carriers() implies carrier_equiv(
                            #[trigger] self.carriers@[id2],
                            old(self).carriers@[id2],
                        ) by {
                            if id2 != id as int {
                                assert(self.carriers@[id2] == prev[id2]);
                            } else {
                                lemma_has_free_equiv(self.carriers@[id2], prev_c);
                            }
                        }
                        assert(state_equiv(*self, *old(self)));
                        assert forall|jj: int|
                            j <= jj < list_len implies !self.carriers@[(
                        #[trigger] self.lists@[k as int]@[jj]) as int].has_free() by {
                            let id2 = self.lists@[k as int]@[jj] as int;
                            if jj == j {
                                lemma_has_free_equiv(self.carriers@[id2], prev_c);
                                assert(!prev_c.has_free()) by {
                                    if prev_c.has_free() {
                                        let w = choose|w: int|
                                            0 <= w < prev_c.block_count() && prev_c.bitset.bits@[w]
                                                == true;
                                        assert(prev_c.live(w));
                                    }
                                }
                            } else {
                                assert(self.carriers@[id2] == prev[id2]);
                            }
                        }
                        assert forall|id2: int|
                            0 <= id2 < self.n_carriers() implies #[trigger] self.carrier_listed(
                            id2,
                        ) by {
                            assert(old(self).carrier_listed(id2));
                        }
                        assert(self.wf());
                    }
                },
            }
        }
        // No carrier of the class had room: map a fresh carrier. This is the
        // growth path that a write lock serializes when many threads share
        // the allocator.
        let n = self.carriers.len();
        let ghost exit_carriers = self.carriers@;
        proof {
            assert forall|id2: int|
                0 <= id2 < old(self).n_carriers() implies carrier_equiv(
                #[trigger] exit_carriers[id2],
                old(self).carriers@[id2],
            ) by {
                assert(carrier_equiv(self.carriers@[id2], old(self).carriers@[id2]));
            }
            assert(!old(self).class_has_free(k as int)) by {
                if old(self).class_has_free(k as int) {
                    let j = choose|j: int|
                        0 <= j < old(self).lists@[k as int]@.len() && old(self).carriers@[old(self).lists@[k as int]@[j] as int].has_free();
                    let id2 = old(self).lists@[k as int]@[j] as int;
                    lemma_has_free_equiv(self.carriers@[id2], old(self).carriers@[id2]);
                    assert(!self.carriers@[(self.lists@[k as int]@[j]) as int].has_free());
                }
            }
        }
        if n == self.max_carriers {
            proof {
                assert forall|kk: int|
                    old(self).is_class_index(size as int, kk) implies !old(self).class_has_free(
                    kk,
                ) by {
                    assert(kk == k as int);
                }
            }
            return Err(AllocErr);
        }
        proof {
            lemma_base_bounds(
                self.carrier_bytes as int,
                n as int,
                self.max_carriers as int,
                usize::MAX as int,
            );
            lemma_carrier_addr(self.carrier_bytes as int, n as int, 0);
            assert(1 <= self.size_classes@[k as int] < self.carrier_bytes);
        }
        let id = n;
        let base = (id + 1) * self.carrier_bytes;
        let mut c = SlabCarrier::init(base, self.carrier_bytes, class_bytes);
        proof {
            assert(c.block_count() >= 1) by {
                assert(c.carrier_bytes as int / c.block_bytes as int >= 1) by (nonlinear_arith)
                    requires
                        1 <= c.block_bytes < c.carrier_bytes,
                ;
            }
        }
        let ghost c0 = c;
        let got = c.alloc_block();
        let addr = match got {
            Some(a) => a,
            None => {
                proof {
                    assert(!c0.live(0));
                    assert(false);
                }
                return Err(AllocErr);
            },
        };
        let ghost c_after = c;
        self.carriers.push(c);
        let mut l: Vec<usize> = Vec::new();
        self.lists.set_and_swap(k, &mut l);
        let ghost old_list = l@;
        l.push(id);
        self.lists.set_and_swap(k, &mut l);
        proof {
            let ki = k as int;
            let idi = id as int;
            let cb = self.carrier_bytes as int;
            let bb = class_bytes as int;
            let b = c_after.index_of_addr(addr as int);
            lemma_block_fits(cb, bb, b);
            lemma_carrier_addr(cb, idi, b * bb);
            assert(old(self).carrier_of_addr(addr as int) == idi);
            assert(self.lists@[ki]@ == old_list.push(id));
            assert(old_list == old(self).lists@[ki]@);
            // the new state is well formed
            assert forall|k2: int, j2: int|
                0 <= k2 < self.n_classes() && 0 <= j2 < self.lists@[k2]@.len() implies (
            #[trigger] self.lists@[k2]@[j2]) < self.n_carriers()
                && self.carriers@[self.lists@[k2]@[j2] as int].block_bytes
                == self.size_classes@[k2] by {
                if k2 == ki && j2 == old_list.len() {
                } else {
                    assert(self.lists@[k2]@[j2] == old(self).lists@[k2]@[j2]);
                }
            }
            assert forall|k1: int, j1: int, k2: int, j2: int|
                0 <= k1 < self.n_classes() && 0 <= j1 < self.lists@[k1]@.len() && 0 <= k2
                    < self.n_classes() && 0 <= j2 < self.lists@[k2]@.len() && (k1 != k2 || j1
                    != j2) implies self.lists@[k1]@[j1] != self.lists@[k2]@[j2] by {
                let new1 = k1 == ki && j1 == old_list.len();
                let new2 = k2 == ki && j2 == old_list.len();
                if new1 && !new2 {
                    assert(old(self).lists@[k2]@[j2] < old(self).n_carriers());
                } else if !new1 && new2 {
                    assert(old(self).lists@[k1]@[j1] < old(self).n_carriers());
                } else if !new1 && !new2 {
                    assert(old(self).lists@[k1]@[j1] != old(self).lists@[k2]@[j2]);
                }
            }
            assert forall|id2: int| 0 <= id2 < self.n_carriers() implies
                #[trigger] self.carrier_listed(id2) by {
                if id2 < old(self).n_carriers() {
                    assert(old(self).carrier_listed(id2));
                    let (kw, jw) = choose|kw: int, jw: int|
                        0 <= kw < old(self).n_classes() && 0 <= jw < old(self).lists@[kw]@.len()
                            && (#[trigger] old(self).lists@[kw]@[jw]) == id2;
                    assert(self.lists@[kw]@[jw] == id2);
                } else {
                    assert(self.lists@[ki]@[old_list.len() as int] == id2);
                }
            }
            assert(self.wf());
            assert forall|id2: int, b2: int|
                !(id2 == idi && b2 == b) implies #[trigger] self.live(id2, b2) == old(self).live(
                id2,
                b2,
            ) by {
                if 0 <= id2 < old(self).n_carriers() {
                    assert(self.carriers@[id2] == exit_carriers[id2]);
                    assert(carrier_equiv(exit_carriers[id2], old(self).carriers@[id2]));
                } else if id2 == idi {
                    if 0 <= b2 < c_after.block_count() && b2 != b {
                        assert(!c0.live(b2));
                        assert(c_after.bitset.bits@[b2] == c0.bitset.bits@[b2]);
                    }
                }
            }
        }
        Ok(addr)
    }

    /// Releases the block at `ptr`, located through the carrier that the
    /// address's high bits name. The caller owns the block: it must be the
    /// address of a live block.
    pub fn deallocate(&mut self, ptr: usize, _size: usize)
        requires
            old(self).wf(),
            ({
                let id = old(self).carrier_of_addr(ptr as int);
                let b = old(self).block_of_addr(id, ptr as int);
                &&& 0 <= id < old(self).n_carriers()
                &&& old(self).live(id, b)
                &&& ptr == old(self).carriers@[id].block_addr(b)
            }),
        ensures
            final(self).wf(),
            final(self).size_classes@ == old(self).size_classes@,
            final(self).carrier_bytes == old(self).carrier_bytes,
            final(self).max_carriers == old(self).max_carriers,
            final(self).n_carriers() == old(self).n_carriers(),
            layout_preserved(*final(self), *old(self)),
            forall|k: int|
                0 <= k < final(self).lists@.len() ==> #[trigger] final(self).lists@[k]@ == old(self).lists@[k]@,
            ({
                let id = old(self).carrier_of_addr(ptr as int);
                let b = old(self).block_of_addr(id, ptr as int);
                &&& !final(self).live(id, b)
                &&& forall|id2: int, b2: int|
                    !(id2 == id && b2 == b) ==> #[trigger] final(self).live(id2, b2) == old(self).live(id2, b2)
                &&& forall|id2: int|
                    0 <= id2 < old(self).n_carriers() ==> (#[trigger] final(self).carriers@[id2]).data@ == old(self).carriers@[id2].data@
            }),
    {
        proof {
            let id = old(self).carrier_of_addr(ptr as int);
            let b = old(self).block_of_addr(id, ptr as int);
            let bb = old(self).carriers@[id].block_bytes as int;
            lemma_block_fits(self.carrier_bytes as int, bb, b);
            lemma_carrier_addr(self.carrier_bytes as int, id, b * bb);
        }
        let id = ptr / self.carrier_bytes - 1;
        let ghost prev = self.carriers@;
        let mut c = SlabCarrier::placeholder();
        self.carriers.set_and_swap(id, &mut c);
        c.free_block(ptr);
        self.carriers.set_and_swap(id, &mut c);
        proof {
            assert(self.carriers@ =~= prev.update(id as int, self.carriers@[id as int]));
            assert forall|id2: int| 0 <= id2 < self.n_carriers() implies #[trigger] self.carrier_listed(id2) by {
                assert(old(self).carrier_listed(id2));
            }
            assert(self.wf());
        }
    }

    /// Writes one byte inside a live block.
    pub fn write_byte(&mut self, addr: usize, value: u8)
        requires
            old(self).wf(),
            ({
                let id = old(self).carrier_of_addr(addr as int);
                let b = old(self).block_of_addr(id, addr as int);
                0 <= id < old(self).n_carriers() && old(self).live(id, b) && addr >= old(self).carrier_base(id)
            }),
        ensures
            final(self).wf(),
            final(self).size_classes@ == old(self).size_classes@,
            final(self).carrier_bytes == old(self).carrier_bytes,
            final(self).max_carriers == old(self).max_carriers,
            final(self).n_carriers() == old(self).n_carriers(),
            layout_preserved(*final(self), *old(self)),
            forall|k: int|
                0 <= k < final(self).lists@.len() ==> #[trigger] final(self).lists@[k]@ == old(self).lists@[k]@,
            forall|id2: int, b2: int|
                #[trigger] final(self).live(id2, b2) == old(self).live(id2, b2),
            final(self).mem_at(addr as int) == value,
            ({
                let id = old(self).carrier_of_addr(addr as int);
                &&& final(self).carriers@[id].data@ == old(self).carriers@[id].data@.update(
                    addr - old(self).carrier_base(id),
                    value,
                )
                &&& forall|id2: int|
                    0 <= id2 < old(self).n_carriers() && id2 != id ==> (#[trigger] final(self).carriers@[id2]).data@ == old(self).carriers@[id2].data@
            }),
    {
        proof {
            let id = old(self).carrier_of_addr(addr as int);
            let b = old(self).block_of_addr(id, addr as int);
            let bb = old(self).carriers@[id].block_bytes as int;
            vstd::arithmetic::div_mod::lemma_fundamental_div_mod(
                addr as int,
                self.carrier_bytes as int,
            );
            vstd::arithmetic::div_mod::lemma_fundamental_div_mod(
                addr as int - old(self).carrier_base(id),
                bb,
            );
            lemma_block_fits(self.carrier_bytes as int, bb, b);
        }
        let id = addr / self.carrier_bytes - 1;
        let ghost prev = self.carriers@;
        let mut c = SlabCarrier::placeholder();
        self.carriers.set_and_swap(id, &mut c);
        c.write_byte(addr, value);
        self.carriers.set_and_swap(id, &mut c);
        proof {
            assert(self.carriers@ =~= prev.update(id as int, self.carriers@[id as int]));
            assert forall|id2: int| 0 <= id2 < self.n_carriers() implies #[trigger] self.carrier_listed(id2) by {
                assert(old(self).carrier_listed(id2));
            }
            assert(self.wf());
        }
    }

    /// Reads one byte inside a live block.
    pub fn read_byte(&self, addr: usize) -> (v: u8)
        requires
            self.wf(),
            ({
                let id = self.carrier_of_addr(addr as int);
                let b = self.block_of_addr(id, addr as int);
                0 <= id < self.n_carriers() && self.live(id, b) && addr >= self.carrier_base(id)
            }),
        ensures
            v == self.mem_at(addr as int),
    {
        proof {
            let id = self.carrier_of_addr(addr as int);
            let b = self.block_of_addr(id, addr as int);
            let bb = self.carriers@[id].block_bytes as int;
            vstd::arithmetic::div_mod::lemma_fundamental_div_mod(
                addr as int,
                self.carrier_bytes as int,
            );
            vstd::arithmetic::div_mod::lemma_fundamental_div_mod(
                addr as int - self.carrier_base(id),
                bb,
            );
            lemma_block_fits(self.carrier_bytes as int, bb, b);
        }
        let id = addr / self.carrier_bytes - 1;
        let c = &self.carriers[id];
        c.read_byte(addr)
    }
}

} // verus!

verus! {

/// Distinct carriers have distinct bases.
proof fn lemma_base_injective(cb: int, id1: int, id2: int)
    requires
        cb >= 1,
        id1 >= 0,
        id2 >= 0,
        id1 != id2,
    ensures
        (id1 + 1) * cb != (id2 + 1) * cb,
{
    assert((id1 + 1) * cb != (id2 + 1) * cb) by (nonlinear_arith)
        requires
            cb >= 1,
            id1 >= 0,
            id2 >= 0,
            id1 != id2,
    ;
}

/// Every live block is one of the slots its carrier's bitset tracks, so the
/// live blocks of a size class can never outnumber the blocks its carriers
/// hold: each carrier contributes at most `block_count` used bits (see
/// `lemma_used_at_most_capacity`), and no allocation returns a block that is
/// already live (see `allocate`).
pub proof fn lemma_live_block_is_tracked(a: SizeClassAlloc, id: int, b: int)
    requires
        a.wf(),
        a.live(id, b),
    ensures
        0 <= id < a.n_carriers(),
        0 <= b < a.carriers@[id].block_count(),
        a.carriers@[id].bitset.bits@.len() == a.carriers@[id].block_count(),
        crate::blocks::count_used(a.carriers@[id].bitset.bits@) <= a.carriers@[id].block_count(),
{
    crate::blocks::lemma_used_at_most_capacity(a.carriers@[id].bitset.bits@);
}

/// Two distinct live blocks occupy disjoint address ranges: writing a byte
/// pattern into one allocated block can never change another. Together with
/// the bitset (one bit per block), the live blocks of a class can never
/// outnumber the blocks its carriers hold.
pub proof fn lemma_live_blocks_disjoint(
    a: SizeClassAlloc,
    id1: int,
    b1: int,
    id2: int,
    b2: int,
)
    requires
        a.wf(),
        a.live(id1, b1),
        a.live(id2, b2),
        !(id1 == id2 && b1 == b2),
    ensures
        a.carriers@[id1].block_addr(b1) + a.carriers@[id1].block_bytes <= a.carriers@[id2].block_addr(b2)
            || a.carriers@[id2].block_addr(b2) + a.carriers@[id2].block_bytes
            <= a.carriers@[id1].block_addr(b1),
{
    let c1 = a.carriers@[id1];
    let c2 = a.carriers@[id2];
    let cb = a.carrier_bytes as int;
    lemma_block_fits(cb, c1.block_bytes as int, b1);
    lemma_block_fits(cb, c2.block_bytes as int, b2);
    if id1 == id2 {
        if b1 < b2 {
            assert((b1 + 1) * c1.block_bytes <= b2 * c1.block_bytes) by (nonlinear_arith)
                requires
                    b1 + 1 <= b2,
                    c1.block_bytes >= 1,
            ;
            assert(b1 * c1.block_bytes + c1.block_bytes == (b1 + 1) * c1.block_bytes)
                by (nonlinear_arith);
        } else {
            assert((b2 + 1) * c2.block_bytes <= b1 * c2.block_bytes) by (nonlinear_arith)
                requires
                    b2 + 1 <= b1,
                    c2.block_bytes >= 1,
            ;
            assert(b2 * c2.block_bytes + c2.block_bytes == (b2 + 1) * c2.block_bytes)
                by (nonlinear_arith);
        }
    } else {
        assert(b1 * c1.block_bytes >= 0 && b2 * c2.block_bytes >= 0) by (nonlinear_arith)
            requires
                b1 >= 0,
                b2 >= 0,
                c1.block_bytes >= 1,
                c2.block_bytes >= 1,
        ;
        if id1 < id2 {
            assert((id1 + 2) * cb <= (id2 + 1) * cb) by (nonlinear_arith)
                requires
                    id1 + 2 <= id2 + 1,
                    cb >= 1,
            ;
            assert((id1 + 1) * cb + cb == (id1 + 2) * cb) by (nonlinear_arith);
        } else {
            assert((id2 + 2) * cb <= (id1 + 1) * cb) by (nonlinear_arith)
                requires
                    id2 + 2 <= id1 + 1,
                    cb >= 1,
            ;
            assert((id2 + 1) * cb + cb == (id2 + 2) * cb) by (nonlinear_arith);
        }
    }
}

impl SizeClassAlloc {
    /// Resizes in place: succeeds, doing nothing, exactly when the old and
    /// new sizes fall in the same size class; it never succeeds across class
    /// boundaries and never moves data.
    pub fn realloc_in_place(&self, _ptr: usize, old_size: usize, new_size: usize) -> (r: Result<
        (),
        CannotReallocInPlace,
    >)
        requires
            self.wf(),
            old_size <= self.spec_max_size_class(),
            new_size <= self.spec_max_size_class(),
        ensures
            r is Ok <==> (forall|k1: int, k2: int|
                self.is_class_index(old_size as int, k1) && self.is_class_index(
                    new_size as int,
                    k2,
                ) ==> k1 == k2),
    {
        let c_old = self.size_class_for_unchecked(old_size);
        let c_new = self.size_class_for_unchecked(new_size);
        let ghost k1 = choose|k: int|
            self.is_class_index(old_size as int, k) && c_old.bytes == self.size_classes@[k];
        let ghost k2 = choose|k: int|
            self.is_class_index(new_size as int, k) && c_new.bytes == self.size_classes@[k];
        proof {
            assert forall|ka: int, kb: int|
                self.is_class_index(old_size as int, ka) && self.is_class_index(
                    new_size as int,
                    kb,
                ) implies ka == k1 && kb == k2 by {
                if ka < k1 {
                    assert(self.size_classes@[ka] < old_size);
                } else if ka > k1 {
                    assert(self.size_classes@[k1] < old_size);
                }
                if kb < k2 {
                    assert(self.size_classes@[kb] < new_size);
                } else if kb > k2 {
                    assert(self.size_classes@[k2] < new_size);
                }
            }
            if k1 != k2 {
                if k1 < k2 {
                    assert(self.size_classes@[k1] < self.size_classes@[k2]);
                } else {
                    assert(self.size_classes@[k2] < self.size_classes@[k1]);
                }
            }
        }
        if c_old.bytes == c_new.bytes {
            Ok(())
        } else {
            Err(CannotReallocInPlace)
        }
    }

    /// Grows a block in place: possible exactly when the new size still
    /// falls in the block's size class.
    pub fn grow_in_place(&self, ptr: usize, old_size: usize, new_size: usize) -> (r: Result<
        (),
        CannotReallocInPlace,
    >)
        requires
            self.wf(),
            old_size <= self.spec_max_size_class(),
            new_size <= self.spec_max_size_class(),
        ensures
            r is Ok <==> (forall|k1: int, k2: int|
                self.is_class_index(old_size as int, k1) && self.is_class_index(
                    new_size as int,
                    k2,
                ) ==> k1 == k2),
    {
        self.realloc_in_place(ptr, old_size, new_size)
    }

    /// Shrinks a block in place: possible exactly when the new size still
    /// falls in the block's size class.
    pub fn shrink_in_place(&self, ptr: usize, old_size: usize, new_size: usize) -> (r: Result<
        (),
        CannotReallocInPlace,
    >)
        requires
            self.wf(),
            old_size <= self.spec_max_size_class(),
            new_size <= self.spec_max_size_class(),
        ensures
            r is Ok <==> (forall|k1: int, k2: int|
                self.is_class_index(old_size as int, k1) && self.is_class_index(
                    new_size as int,
                    k2,
                ) ==> k1 == k2),
    {
        self.realloc_in_place(ptr, old_size, new_size)
    }

    /// Unmaps every carrier the allocator owns and returns the released
    /// region bases: every owned region exactly once — no leak and no double
    /// unmap. The class lists hold every carrier exactly once (the
    /// allocator's invariant), so detaching them and releasing by carrier id
    /// release the same regions; the allocator is consumed and cannot be
    /// used afterwards.
    pub fn destroy(self) -> (released: Vec<usize>)
        requires
            self.wf(),
        ensures
            released@.len() == self.n_carriers(),
            forall|m1: int, m2: int|
                0 <= m1 < m2 < released@.len() ==> released@[m1] != released@[m2],
            forall|id: int|
                0 <= id < self.n_carriers() ==> released@.contains(
                    #[trigger] self.carriers@[id].base,
                ),
            forall|m: int|
                0 <= m < released@.len() ==> #[trigger] released@[m]
                    == self.carriers@[m].base,
    {
        let mut released: Vec<usize> = Vec::new();
        let n = self.carriers.len();
        let mut id: usize = 0;
        while id < n
            invariant
                self.wf(),
                0 <= id <= n,
                n == self.n_carriers(),
                released@.len() == id,
                forall|m: int|
                    0 <= m < id ==> #[trigger] released@[m] == self.carriers@[m].base,
            decreases n - id,
        {
            let base = self.carriers[id].base;
            released.push(base);
            id = id + 1;
        }
        proof {
            assert forall|m1: int, m2: int|
                0 <= m1 < m2 < released@.len() implies released@[m1] != released@[m2] by {
                lemma_base_injective(self.carrier_bytes as int, m1, m2);
            }
            assert forall|id2: int|
                0 <= id2 < self.n_carriers() implies released@.contains(
                #[trigger] self.carriers@[id2].base,
            ) by {
                assert(released@[id2] == self.carriers@[id2].base);
            }
        }
        released
    }
}

} // verus!

verus! {

impl SizeClassAlloc {
    /// Reallocates the block at `ptr` (allocated for `old_size` bytes) to
    /// hold `new_size` bytes. Within one size class the very same pointer is
    /// returned and nothing changes. Across classes a fresh block is
    /// allocated in the new class, the first `min(old_size, new_size)` bytes
    /// are copied, and the old block is released; it is never resized in
    /// place across classes. Fails when `new_size` exceeds the largest
    /// class, or when the new class is full and no carrier can be mapped.
    pub fn reallocate(&mut self, ptr: usize, old_size: usize, new_size: usize) -> (r: Result<
        usize,
        AllocErr,
    >)
        requires
            old(self).wf(),
            old_size <= old(self).spec_max_size_class(),
            ({
                let id = old(self).carrier_of_addr(ptr as int);
                let b = old(self).block_of_addr(id, ptr as int);
                &&& 0 <= id < old(self).n_carriers()
                &&& old(self).live(id, b)
                &&& ptr == old(self).carriers@[id].block_addr(b)
                &&& old_size <= old(self).carriers@[id].block_bytes
                &&& forall|k: int|
                    old(self).is_class_index(old_size as int, k) ==> old(self).carriers@[id].block_bytes == old(self).size_classes@[k]
            }),
        ensures
            final(self).wf(),
            final(self).size_classes@ == old(self).size_classes@,
            final(self).carrier_bytes == old(self).carrier_bytes,
            final(self).max_carriers == old(self).max_carriers,
            layout_preserved(*final(self), *old(self)),
            old(self).n_carriers() <= final(self).n_carriers() <= old(self).n_carriers() + 1,
            new_size > old(self).spec_max_size_class() ==> r is Err && state_equiv(
                *final(self),
                *old(self),
            ),
            (new_size <= old(self).spec_max_size_class() && forall|k1: int, k2: int|
                old(self).is_class_index(old_size as int, k1) && old(self).is_class_index(
                    new_size as int,
                    k2,
                ) ==> k1 == k2) ==> r == Ok::<usize, AllocErr>(ptr) && state_equiv(
                *final(self),
                *old(self),
            ),
            r is Err ==> state_equiv(*final(self), *old(self)),
            (new_size <= old(self).spec_max_size_class() && (forall|k1: int, k2: int|
                old(self).is_class_index(old_size as int, k1) && old(self).is_class_index(
                    new_size as int,
                    k2,
                ) ==> k1 != k2)) ==> match r {
                Ok(new_ptr) => {
                    let id_old = old(self).carrier_of_addr(ptr as int);
                    let b_old = old(self).block_of_addr(id_old, ptr as int);
                    let id_new = old(self).carrier_of_addr(new_ptr as int);
                    let b_new = final(self).carriers@[id_new].index_of_addr(new_ptr as int);
                    &&& 0 <= id_new < final(self).n_carriers()
                    &&& new_ptr == final(self).carriers@[id_new].block_addr(b_new)
                    &&& forall|k: int|
                        old(self).is_class_index(new_size as int, k) ==> final(self).carriers@[id_new].block_bytes == old(self).size_classes@[k]
                    &&& id_new != id_old
                    &&& new_ptr != ptr
                    &&& !old(self).live(id_new, b_new)
                    &&& final(self).live(id_new, b_new)
                    &&& !final(self).live(id_old, b_old)
                    &&& forall|id2: int, b2: int|
                        !(id2 == id_new && b2 == b_new) && !(id2 == id_old && b2 == b_old)
                            ==> #[trigger] final(self).live(id2, b2) == old(self).live(id2, b2)
                    &&& forall|id2: int|
                        0 <= id2 < old(self).n_carriers() && id2 != id_new ==> (#[trigger] final(self).carriers@[id2]).data@ == old(self).carriers@[id2].data@
                    &&& (id_new < old(self).n_carriers() ==> ({
                        let base = old(self).carriers@[id_new].base as int;
                        let copied = if old_size <= new_size {
                            old_size as int
                        } else {
                            new_size as int
                        };
                        &&& final(self).carriers@[id_new].data@.len() == old(self).carriers@[id_new].data@.len()
                        &&& forall|o: int|
                            0 <= o < old(self).carriers@[id_new].data@.len() && !(new_ptr - base
                                <= o < new_ptr - base + copied) ==> (#[trigger] final(self).carriers@[id_new].data@[o]) == old(self).carriers@[id_new].data@[o]
                    }))
                    &&& forall|i: int|
                        0 <= i < (if old_size <= new_size {
                            old_size as int
                        } else {
                            new_size as int
                        }) ==> #[trigger] final(self).mem_at(new_ptr + i) == old(self).mem_at(
                            ptr + i,
                        )
                },
                Err(_) => forall|k: int|
                    old(self).is_class_index(new_size as int, k) ==> !old(self).class_has_free(k)
                        && old(self).n_carriers() == old(self).max_carriers,
            },
    {
        let max = self.max_size_class();
        if new_size > max {
            return Err(AllocErr);
        }
        let c_old = self.size_class_for_unchecked(old_size);
        let c_new = self.size_class_for_unchecked(new_size);
        let ghost k1 = choose|k: int|
            self.is_class_index(old_size as int, k) && c_old.bytes == self.size_classes@[k];
        let ghost k2 = choose|k: int|
            self.is_class_index(new_size as int, k) && c_new.bytes == self.size_classes@[k];
        proof {
            assert forall|ka: int, kb: int|
                self.is_class_index(old_size as int, ka) && self.is_class_index(
                    new_size as int,
                    kb,
                ) implies ka == k1 && kb == k2 by {
                if ka < k1 {
                    assert(self.size_classes@[ka] < old_size);
                } else if ka > k1 {
                    assert(self.size_classes@[k1] < old_size);
                }
                if kb < k2 {
                    assert(self.size_classes@[kb] < new_size);
                } else if kb > k2 {
                    assert(self.size_classes@[k2] < new_size);
                }
            }
            if k1 != k2 {
                if k1 < k2 {
                    assert(self.size_classes@[k1] < self.size_classes@[k2]);
                } else {
                    assert(self.size_classes@[k2] < self.size_classes@[k1]);
                }
            }
        }
        proof {
            assert(old(self).is_class_index(old_size as int, k1) && c_old.bytes == old(
                self,
            ).size_classes@[k1]);
            assert(old(self).is_class_index(new_size as int, k2) && c_new.bytes == old(
                self,
            ).size_classes@[k2]);
        }
        if c_old.bytes == c_new.bytes {
            return Ok(ptr);
        }
        proof {
            assert(k1 != k2);
        }
        let ghost id_old = old(self).carrier_of_addr(ptr as int);
        let ghost b_old = old(self).block_of_addr(id_old, ptr as int);
        let new_ptr = match self.allocate(new_size, 1) {
            Ok(a) => a,
            Err(e) => {
                return Err(e);
            },
        };
        let ghost after_alloc = *self;
        let ghost id_new = old(self).carrier_of_addr(new_ptr as int);
        let ghost b_new = self.carriers@[id_new].index_of_addr(new_ptr as int);
        proof {
            assert(self.carriers@[id_new].block_bytes == self.size_classes@[k2]);
            assert(old(self).carriers@[id_old].block_bytes == self.size_classes@[k1]);
            assert(id_old != id_new) by {
                if id_old == id_new {
                    assert(carrier_equiv(after_alloc.carriers@[id_old], old(self).carriers@[id_old])
                        || after_alloc.carriers@[id_old].block_bytes == old(self).carriers@[id_old].block_bytes);
                    assert(self.size_classes@[k1] == self.size_classes@[k2]);
                    if k1 < k2 {
                        assert(self.size_classes@[k1] < self.size_classes@[k2]);
                    } else {
                        assert(self.size_classes@[k2] < self.size_classes@[k1]);
                    }
                }
            }
            assert(!(id_old == id_new && b_old == b_new));
            assert(self.live(id_old, b_old));
        }
        let count = if old_size <= new_size {
            old_size
        } else {
            new_size
        };
        let ghost bb_old = old(self).carriers@[id_old].block_bytes as int;
        let ghost bb_new = self.carriers@[id_new].block_bytes as int;
        proof {
            assert(count <= bb_new) by {
                if new_size <= old_size {
                } else {
                    assert(old_size <= self.size_classes@[k2]);
                }
            }
            lemma_block_fits(self.carrier_bytes as int, bb_old, b_old);
            lemma_block_fits(self.carrier_bytes as int, bb_new, b_new);
            assert(after_alloc.live(id_new, b_new));
            assert(after_alloc.live(id_old, b_old));
        }
        let mut i: usize = 0;
        while i < count
            invariant
                0 <= i <= count,
                self.wf(),
                old(self).wf(),
                after_alloc.wf(),
                count <= bb_old,
                count <= bb_new,
                bb_old == old(self).carriers@[id_old].block_bytes,
                bb_new == after_alloc.carriers@[id_new].block_bytes,
                self.size_classes@ == old(self).size_classes@,
                self.carrier_bytes == old(self).carrier_bytes,
                self.max_carriers == old(self).max_carriers,
                self.n_carriers() == after_alloc.n_carriers(),
                0 <= id_old < old(self).n_carriers(),
                0 <= id_new < after_alloc.n_carriers(),
                id_old != id_new,
                old(self).live(id_old, b_old),
                ptr == old(self).carriers@[id_old].block_addr(b_old),
                b_old == old(self).block_of_addr(id_old, ptr as int),
                id_old == old(self).carrier_of_addr(ptr as int),
                new_ptr == after_alloc.carriers@[id_new].block_addr(b_new),
                b_new == after_alloc.carriers@[id_new].index_of_addr(new_ptr as int),
                id_new == old(self).carrier_of_addr(new_ptr as int),
                0 <= b_old < old(self).carriers@[id_old].block_count(),
                0 <= b_new < after_alloc.carriers@[id_new].block_count(),
                after_alloc.live(id_old, b_old),
                after_alloc.live(id_new, b_new),
                layout_preserved(*self, *old(self)),
                forall|id2: int, b2: int|
                    #[trigger] self.live(id2, b2) == after_alloc.live(id2, b2),
                forall|k: int|
                    0 <= k < self.lists@.len() ==> #[trigger] self.lists@[k]@
                        == after_alloc.lists@[k]@,
                self.carriers@[id_new].block_bytes == bb_new,
                self.carriers@[id_new].base == after_alloc.carriers@[id_new].base,
                self.carriers@[id_old].block_bytes == old(self).carriers@[id_old].block_bytes,
                self.carriers@[id_old].base == old(self).carriers@[id_old].base,
                bb_old >= 1,
                bb_new >= 1,
                self.carrier_bytes >= 2,
                self.carriers@[id_old].data@ == old(self).carriers@[id_old].data@,
                forall|id2: int|
                    0 <= id2 < self.n_carriers() && id2 != id_new ==> (#[trigger] self.carriers@[id2]).data@
                        == after_alloc.carriers@[id2].data@,
                self.carriers@[id_new].data@.len() == after_alloc.carriers@[id_new].data@.len(),
                forall|o: int|
                    0 <= o < self.carriers@[id_new].data@.len() && !(new_ptr
                        - after_alloc.carriers@[id_new].base <= o < new_ptr
                        - after_alloc.carriers@[id_new].base + i) ==> (
                    #[trigger] self.carriers@[id_new].data@[o])
                        == after_alloc.carriers@[id_new].data@[o],
                forall|j: int|
                    0 <= j < i ==> (#[trigger] self.carriers@[id_new].data@[new_ptr
                        - after_alloc.carriers@[id_new].base + j]) == old(self).carriers@[id_old].data@[ptr - old(self).carriers@[id_old].base + j],
            decreases count - i,
        {
            proof {
                let cb = self.carrier_bytes as int;
                lemma_block_fits(cb, bb_old, b_old);
                lemma_block_fits(cb, bb_new, b_new);
                assert(b_old * bb_old >= 0 && b_new * bb_new >= 0) by (nonlinear_arith)
                    requires
                        b_old >= 0,
                        b_new >= 0,
                        bb_old >= 1,
                        bb_new >= 1,
                ;
                vstd::arithmetic::div_mod::lemma_fundamental_div_mod(ptr as int, cb);
                lemma_carrier_addr(cb, id_old, b_old * bb_old + i);
                lemma_carrier_addr(cb, id_new, b_new * bb_new + i);
                vstd::arithmetic::div_mod::lemma_fundamental_div_mod_converse(
                    b_old * bb_old + i,
                    bb_old,
                    b_old,
                    i as int,
                );
                vstd::arithmetic::div_mod::lemma_fundamental_div_mod_converse(
                    b_new * bb_new + i,
                    bb_new,
                    b_new,
                    i as int,
                );
                assert(old(self).carriers@[id_old].base == (id_old + 1) * cb);
                assert(after_alloc.carriers@[id_new].base == (id_new + 1) * cb);
                assert(ptr + i == (id_old + 1) * cb + (b_old * bb_old + i));
                assert(new_ptr + i == (id_new + 1) * cb + (b_new * bb_new + i));
                assert(self.carrier_of_addr(ptr as int + i) == id_old);
                assert(self.block_of_addr(id_old, ptr as int + i) == b_old);
                assert(self.carrier_of_addr(new_ptr as int + i) == id_new);
                assert(self.block_of_addr(id_new, new_ptr as int + i) == b_new);
                assert(after_alloc.live(id_old, b_old));
                assert(self.live(id_old, b_old));
                assert(after_alloc.live(id_new, b_new));
                assert(self.live(id_new, b_new));
            }
            let v = self.read_byte(ptr + i);
            proof {
                assert(v == self.carriers@[id_old].data@[ptr - old(self).carriers@[id_old].base
                    + i]);
            }
            self.write_byte(new_ptr + i, v);
            i = i + 1;
        }
        let ghost before_free = *self;
        self.deallocate(ptr, old_size);
        proof {
            assert forall|id2: int|
                0 <= id2 < old(self).n_carriers() implies {
                &&& (#[trigger] self.carriers@[id2]).block_bytes == old(self).carriers@[id2].block_bytes
                &&& self.carriers@[id2].base == old(self).carriers@[id2].base
                &&& self.carriers@[id2].carrier_bytes == old(self).carriers@[id2].carrier_bytes
            } by {
                assert(before_free.carriers@[id2].block_bytes == old(self).carriers@[id2].block_bytes);
                assert(self.carriers@[id2].block_bytes == before_free.carriers@[id2].block_bytes);
            }
            assert(layout_preserved(*self, *old(self)));
        }
        proof {
            let cb = self.carrier_bytes as int;
            assert forall|j: int| 0 <= j < count implies #[trigger] self.mem_at(new_ptr + j)
                == old(self).mem_at(ptr + j) by {
                lemma_block_fits(cb, bb_old, b_old);
                lemma_block_fits(cb, bb_new, b_new);
                assert(b_old * bb_old >= 0 && b_new * bb_new >= 0) by (nonlinear_arith)
                    requires
                        b_old >= 0,
                        b_new >= 0,
                        bb_old >= 1,
                        bb_new >= 1,
                ;
                lemma_carrier_addr(cb, id_old, b_old * bb_old + j);
                lemma_carrier_addr(cb, id_new, b_new * bb_new + j);
            }
        }
        Ok(new_ptr)
    }
}

} // verus!
