//! A first-fit free list over a contiguous byte region.
//!
//! The list hands out heap-relative byte indices. Allocations are stable:
//! a block stays where it was carved until it is returned. The first word
//! of the region is never handed out, so a valid index is always nonzero
//! and can serve as a GC reference encoding.

use crate::header::HEADER_ALIGN;
use crate::header::HEADER_SIZE;
use vstd::arithmetic::div_mod::lemma_fundamental_div_mod;
use vstd::arithmetic::div_mod::lemma_mod_multiples_basic;
use vstd::prelude::*;

verus! {

/// Byte offsets below this are reserved so that the zero (null) index is
/// never a valid allocation.
pub const FIRST_ALLOCATABLE_OFFSET: u32 = 8;

/// The largest supported allocation alignment, in bytes.
pub const MAX_ALLOC_ALIGN: u32 = 4096;

/// The free list cannot satisfy a request it considers malformed.
#[derive(Clone, Copy, PartialEq, Eq, Structural, Debug)]
pub enum FreeListError {
    /// The requested alignment exceeds `MAX_ALLOC_ALIGN`.
    UnsupportedAlignment,
}

/// One contiguous free range of the managed byte region.
#[derive(Clone, Copy, PartialEq, Eq, Structural, Debug)]
pub struct FreeBlock {
    /// First byte of the range.
    pub offset: u32,
    /// Length of the range in bytes; always positive.
    pub size: u32,
}

/// Whether byte address `a` lies inside block `b`.
pub open spec fn block_contains(b: FreeBlock, a: int) -> bool {
    b.offset <= a < b.offset + b.size
}

/// Whether two blocks cover no common byte.
pub open spec fn block_disjoint(b1: FreeBlock, b2: FreeBlock) -> bool {
    b1.offset + b1.size <= b2.offset || b2.offset + b2.size <= b1.offset
}

/// A block is well formed when it is nonempty, lies above the reserved
/// prefix, and ends within the managed capacity.
pub open spec fn block_wf(b: FreeBlock, capacity: int) -> bool {
    &&& FIRST_ALLOCATABLE_OFFSET <= b.offset
    &&& 1 <= b.size
    &&& b.offset + b.size <= capacity
}

/// `offset` rounded up to the next multiple of `align`.
pub open spec fn align_up(offset: int, align: int) -> int
    recommends
        align > 0,
{
    if offset % align == 0 {
        offset
    } else {
        offset + align - offset % align
    }
}

/// Rounding up to an even alignment yields a multiple of that alignment,
/// which in particular is even.
proof fn lemma_align_up_multiple(offset: int, align: int)
    requires
        offset >= 0,
        align >= 2,
        align % 2 == 0,
    ensures
        align_up(offset, align) % align == 0,
        align_up(offset, align) % 2 == 0,
{
    let a = align_up(offset, align);
    lemma_fundamental_div_mod(offset, align);
    let q = offset / align;
    if offset % align == 0 {
        assert(a == q * align);
    } else {
        assert(a == (q + 1) * align) by (nonlinear_arith)
            requires
                a == offset + align - offset % align,
                offset == align * q + offset % align,
        ;
    }
    let m = if offset % align == 0 {
        q
    } else {
        q + 1
    };
    assert(a == m * align);
    lemma_mod_multiples_basic(m, align);
    lemma_fundamental_div_mod(align, 2);
    let h = align / 2;
    assert(a == (m * h) * 2) by (nonlinear_arith)
        requires
            a == m * align,
            align == 2 * h,
    ;
    lemma_mod_multiples_basic(m * h, 2);
}

/// Whether a request of `size` bytes at alignment `align` can be carved out
/// of block `b`.
pub open spec fn block_fits(b: FreeBlock, size: int, align: int) -> bool {
    align_up(b.offset as int, align) + size <= b.offset + b.size
}

/// A size-agnostic first-fit allocator over `[0, capacity)` byte offsets.
pub struct FreeList {
    capacity: u32,
    blocks: Vec<FreeBlock>,
}

impl FreeList {
    /// The free blocks, in list order.
    pub closed spec fn blocks(&self) -> Seq<FreeBlock> {
        self.blocks@
    }

    /// The managed capacity in bytes.
    pub closed spec fn capacity_spec(&self) -> u32 {
        self.capacity
    }

    /// Whether byte address `a` is currently free.
    pub open spec fn free_addr(&self, a: int) -> bool {
        exists|j: int| 0 <= j < self.blocks().len() && block_contains(self.blocks()[j], a)
    }

    /// Whether some free block can satisfy a request.
    pub open spec fn some_block_fits(&self, size: int, align: int) -> bool {
        exists|j: int| 0 <= j < self.blocks().len() && block_fits(self.blocks()[j], size, align)
    }

    /// Every block is well formed and no two blocks overlap.
    pub open spec fn wf(&self) -> bool {
        &&& forall|j: int|
            0 <= j < self.blocks().len() ==> block_wf(
                #[trigger] self.blocks()[j],
                self.capacity_spec() as int,
            )
        &&& forall|j: int, k: int|
            0 <= j < self.blocks().len() && 0 <= k < self.blocks().len() && j != k
                ==> block_disjoint(#[trigger] self.blocks()[j], #[trigger] self.blocks()[k])
    }

    /// Initialize a free list over `[0, capacity)` bytes; the reserved
    /// prefix stays out of circulation.
    pub fn new(capacity: u32) -> (r: FreeList)
        ensures
            r.wf(),
            r.capacity_spec() == capacity,
            forall|a: int| r.free_addr(a) <==> FIRST_ALLOCATABLE_OFFSET <= a < capacity,
            forall|size: int, align: int|
                0 < size && 0 < align && align_up(FIRST_ALLOCATABLE_OFFSET as int, align) + size
                    <= capacity ==> #[trigger] r.some_block_fits(size, align),
    {
        let mut blocks: Vec<FreeBlock> = Vec::new();
        if capacity > FIRST_ALLOCATABLE_OFFSET {
            blocks.push(
                FreeBlock {
                    offset: FIRST_ALLOCATABLE_OFFSET,
                    size: capacity - FIRST_ALLOCATABLE_OFFSET,
                },
            );
        }
        let r = FreeList { capacity, blocks };
        proof {
            assert forall|a: int| r.free_addr(a) implies FIRST_ALLOCATABLE_OFFSET <= a < capacity by {
                let j = choose|j: int|
                    0 <= j < r.blocks().len() && block_contains(r.blocks()[j], a);
                assert(block_contains(r.blocks()[j], a));
            }
            assert forall|a: int| FIRST_ALLOCATABLE_OFFSET <= a < capacity implies r.free_addr(a) by {
                assert(block_contains(r.blocks()[0], a));
            }
            assert forall|size: int, align: int|
                0 < size && 0 < align && align_up(FIRST_ALLOCATABLE_OFFSET as int, align) + size
                    <= capacity implies #[trigger] r.some_block_fits(size, align) by {
                assert(block_fits(r.blocks()[0], size, align));
            }
        }
        r
    }

    /// The managed capacity in bytes.
    pub fn capacity(&self) -> (r: u32)
        ensures
            r == self.capacity_spec(),
    {
        self.capacity
    }

    /// Carve an aligned block of `size` bytes out of the first free block
    /// that can hold one.
    ///
    /// Returns `Ok(Some(index))` when a block was carved, `Ok(None)` when no
    /// free block fits (the caller may grow the region or collect), and an
    /// error only for an unsupported alignment.
    pub fn allocate(&mut self, size: u32, align: u32) -> (r: Result<Option<u32>, FreeListError>)
        requires
            old(self).wf(),
            HEADER_SIZE <= size,
            HEADER_ALIGN <= align,
            align % 2 == 0,
        ensures
            final(self).capacity_spec() == old(self).capacity_spec(),
            final(self).wf(),
            r is Err <==> align > MAX_ALLOC_ALIGN,
            r is Err ==> *final(self) == *old(self),
            r == Ok::<Option<u32>, FreeListError>(None::<u32>) ==> *final(self) == *old(self)
                && !old(self).some_block_fits(size as int, align as int),
            r matches Ok(Some(i)) ==> {
                &&& old(self).some_block_fits(size as int, align as int)
                &&& i % align == 0
                &&& i % 2 == 0
                &&& FIRST_ALLOCATABLE_OFFSET <= i
                &&& i + size <= final(self).capacity_spec()
                &&& forall|a: int| i <= a < i + size ==> old(self).free_addr(a)
                &&& forall|a: int|
                    final(self).free_addr(a) <==> (old(self).free_addr(a) && !(i <= a < i + size))
            },
    {
        if align > MAX_ALLOC_ALIGN {
            return Err(FreeListError::UnsupportedAlignment);
        }

        let mut j: usize = 0;
        let n: usize = self.blocks.len();
        while j < n
            invariant
                *self == *old(self),
                n == self.blocks().len(),
                j <= n,
                forall|k: int|
                    0 <= k < j ==> !block_fits(
                        #[trigger] self.blocks()[k],
                        size as int,
                        align as int,
                    ),
                self.wf(),
                1 <= size,
                2 <= align <= MAX_ALLOC_ALIGN,
                align % 2 == 0,
            decreases n - j,
        {
            let b = self.blocks[j];
            let off: u64 = b.offset as u64;
            let bsize: u64 = b.size as u64;
            let bend: u64 = off + bsize;
            let al: u64 = align as u64;
            let rem: u64 = off % al;
            let pad: u64 = if rem == 0 {
                0
            } else {
                al - rem
            };
            let aligned: u64 = off + pad;
            proof {
                assert(aligned as int == align_up(b.offset as int, align as int));
            }
            if aligned <= bend && size as u64 <= bend - aligned {
                // This block fits; carve the request out of it.
                let i: u32 = aligned as u32;
                proof {
                    assert(block_fits(b, size as int, align as int));
                    lemma_align_up_multiple(b.offset as int, align as int);
                    assert(i % align == 0);
                    assert(i % 2 == 0);
                }
                let ghost old_blocks = old(self).blocks();
                let ghost gi = i as int;
                let _removed = self.blocks.remove(j);
                if aligned > off {
                    self.blocks.push(FreeBlock { offset: b.offset, size: (aligned - off) as u32 });
                }
                if bend > aligned + size as u64 {
                    self.blocks.push(
                        FreeBlock {
                            offset: (aligned + size as u64) as u32,
                            size: (bend - (aligned + size as u64)) as u32,
                        },
                    );
                }
                proof {
                    let s = self.blocks();
                    let jj = j as int;
                    let cut = old_blocks.len() - 1;
                    // Entries below `cut` are the untouched old blocks;
                    // entries at or above `cut` are remnants of the carved
                    // block, the front piece first.
                    assert forall|k: int| 0 <= k < cut implies #[trigger] s[k] == old_blocks[
                        if k < jj {
                            k
                        } else {
                            k + 1
                        }
                    ] by {}
                    assert forall|k: int| cut <= k < s.len() implies block_contains_within(
                        #[trigger] s[k],
                        b,
                        gi,
                        size as int,
                    ) by {}
                    assert forall|k: int| 0 <= k < s.len() implies block_wf(
                        #[trigger] s[k],
                        self.capacity_spec() as int,
                    ) by {
                        if k < cut {
                            let m: int = if k < jj {
                                k
                            } else {
                                k + 1
                            };
                            assert(block_wf(old_blocks[m], self.capacity_spec() as int));
                        } else {
                            assert(block_wf(old_blocks[jj], self.capacity_spec() as int));
                        }
                    }
                    assert forall|k1: int, k2: int|
                        0 <= k1 < s.len() && 0 <= k2 < s.len() && k1 != k2 implies block_disjoint(
                        #[trigger] s[k1],
                        #[trigger] s[k2],
                    ) by {
                        if k1 < cut && k2 < cut {
                            let m1: int = if k1 < jj {
                                k1
                            } else {
                                k1 + 1
                            };
                            let m2: int = if k2 < jj {
                                k2
                            } else {
                                k2 + 1
                            };
                            assert(block_disjoint(old_blocks[m1], old_blocks[m2]));
                        } else if k1 >= cut && k2 >= cut {
                            // Both are remnants: the front piece ends at the
                            // carved index and the tail starts past it.
                            assert(s.len() == old_blocks.len() + 1);
                            assert(s[cut].offset + s[cut].size <= gi);
                            assert(gi + size <= s[cut + 1].offset);
                        } else {
                            let ko: int = if k1 < cut {
                                k1
                            } else {
                                k2
                            };
                            let kn: int = if k1 < cut {
                                k2
                            } else {
                                k1
                            };
                            let m: int = if ko < jj {
                                ko
                            } else {
                                ko + 1
                            };
                            assert(block_disjoint(old_blocks[m], old_blocks[jj]));
                            assert(block_contains_within(s[kn], b, gi, size as int));
                        }
                    }
                    assert forall|a: int| self.free_addr(a) implies (old(self).free_addr(a) && !(gi
                        <= a < gi + size)) by {
                        let k = choose|k: int| 0 <= k < s.len() && block_contains(s[k], a);
                        if k < cut {
                            let m: int = if k < jj {
                                k
                            } else {
                                k + 1
                            };
                            assert(block_contains(old_blocks[m], a));
                            assert(block_disjoint(old_blocks[m], old_blocks[jj]));
                        } else {
                            assert(block_contains_within(s[k], b, gi, size as int));
                            assert(block_contains(old_blocks[jj], a));
                        }
                    }
                    assert forall|a: int| old(self).free_addr(a) && !(gi <= a < gi + size)
                        implies self.free_addr(a) by {
                        let m = choose|m: int|
                            0 <= m < old_blocks.len() && block_contains(old_blocks[m], a);
                        if m == jj {
                            if a < gi {
                                assert(aligned > off);
                                assert(block_contains(s[cut], a));
                            } else {
                                assert(block_contains(s[s.len() - 1], a));
                            }
                        } else {
                            let k: int = if m < jj {
                                m
                            } else {
                                m - 1
                            };
                            assert(block_contains(s[k], a));
                        }
                    }
                    assert forall|a: int| gi <= a < gi + size implies old(self).free_addr(a) by {
                        assert(block_contains(old_blocks[jj], a));
                    }
                }
                return Ok(Some(i));
            }
            proof {
                assert(!block_fits(self.blocks()[j as int], size as int, align as int));
            }
            j += 1;
        }
        Ok(None)
    }

    /// Return the block `[index, index + size)` to the list.
    ///
    /// The range must have been carved out earlier and not returned since,
    /// which is what the caller's "no byte of it is free" obligation says.
    pub fn dealloc(&mut self, index: u32, size: u32)
        requires
            old(self).wf(),
            1 <= size,
            FIRST_ALLOCATABLE_OFFSET <= index,
            index + size <= old(self).capacity_spec(),
            forall|a: int| index <= a < index + size ==> !old(self).free_addr(a),
        ensures
            final(self).wf(),
            final(self).capacity_spec() == old(self).capacity_spec(),
            forall|a: int|
                final(self).free_addr(a) <==> (old(self).free_addr(a) || index <= a < index
                    + size),
    {
        let nb = FreeBlock { offset: index, size };
        let ghost old_blocks = old(self).blocks();
        self.blocks.push(nb);
        proof {
            let s = self.blocks();
            let last = s.len() - 1;
            assert forall|k1: int, k2: int|
                0 <= k1 < s.len() && 0 <= k2 < s.len() && k1 != k2 implies block_disjoint(
                #[trigger] s[k1],
                #[trigger] s[k2],
            ) by {
                if k1 < last && k2 < last {
                    assert(block_disjoint(old_blocks[k1], old_blocks[k2]));
                } else {
                    let m: int = if k1 < last {
                        k1
                    } else {
                        k2
                    };
                    let ob = old_blocks[m];
                    assert(block_wf(old_blocks[m], old(self).capacity_spec() as int));
                    if !block_disjoint(ob, nb) {
                        // Overlapping blocks share their larger start
                        // address, which would make a supposedly unfree
                        // byte free.
                        let a: int = if ob.offset >= nb.offset {
                            ob.offset as int
                        } else {
                            nb.offset as int
                        };
                        assert(block_contains(old_blocks[m], a));
                        assert(old(self).free_addr(a));
                        assert(index <= a < index + size);
                    }
                }
            }
            assert forall|a: int|
                self.free_addr(a) implies (old(self).free_addr(a) || index <= a < index + size) by {
                let k = choose|k: int| 0 <= k < s.len() && block_contains(s[k], a);
                if k < last {
                    assert(block_contains(old_blocks[k], a));
                }
            }
            assert forall|a: int|
                (old(self).free_addr(a) || index <= a < index + size) implies self.free_addr(a) by {
                if old(self).free_addr(a) {
                    let m = choose|m: int|
                        0 <= m < old_blocks.len() && block_contains(old_blocks[m], a);
                    assert(block_contains(s[m], a));
                } else {
                    assert(block_contains(s[last], a));
                }
            }
        }
    }

    /// Extend the managed range by `delta` bytes after the backing region
    /// grew.
    pub fn add_capacity(&mut self, delta: u32)
        requires
            old(self).wf(),
            old(self).capacity_spec() + delta <= u32::MAX,
        ensures
            final(self).wf(),
            final(self).capacity_spec() == old(self).capacity_spec() + delta,
            forall|a: int|
                final(self).free_addr(a) <==> (old(self).free_addr(a) || (max_int(
                    old(self).capacity_spec() as int,
                    FIRST_ALLOCATABLE_OFFSET as int,
                ) <= a < old(self).capacity_spec() + delta)),
    {
        let old_cap = self.capacity;
        let start: u32 = if old_cap > FIRST_ALLOCATABLE_OFFSET {
            old_cap
        } else {
            FIRST_ALLOCATABLE_OFFSET
        };
        let new_cap = old_cap + delta;
        self.capacity = new_cap;
        let ghost old_blocks = old(self).blocks();
        if new_cap > start {
            self.blocks.push(FreeBlock { offset: start, size: new_cap - start });
        }
        proof {
            let s = self.blocks();
            assert forall|k: int| 0 <= k < s.len() implies block_wf(
                #[trigger] s[k],
                new_cap as int,
            ) by {
                if k < old_blocks.len() {
                    assert(block_wf(old_blocks[k], old_cap as int));
                }
            }
            assert forall|k1: int, k2: int|
                0 <= k1 < s.len() && 0 <= k2 < s.len() && k1 != k2 implies block_disjoint(
                #[trigger] s[k1],
                #[trigger] s[k2],
            ) by {
                if k1 < old_blocks.len() && k2 < old_blocks.len() {
                    assert(block_disjoint(old_blocks[k1], old_blocks[k2]));
                } else {
                    let m: int = if k1 < old_blocks.len() {
                        k1
                    } else {
                        k2
                    };
                    assert(block_wf(old_blocks[m], old_cap as int));
                }
            }
            assert forall|a: int|
                self.free_addr(a) implies (old(self).free_addr(a) || (max_int(
                old_cap as int,
                FIRST_ALLOCATABLE_OFFSET as int,
            ) <= a < old_cap + delta)) by {
                let k = choose|k: int| 0 <= k < s.len() && block_contains(s[k], a);
                if k < old_blocks.len() {
                    assert(block_contains(old_blocks[k], a));
                }
            }
            assert forall|a: int|
                (old(self).free_addr(a) || (max_int(old_cap as int, FIRST_ALLOCATABLE_OFFSET as int)
                    <= a < old_cap + delta)) implies self.free_addr(a) by {
                if old(self).free_addr(a) {
                    let m = choose|m: int|
                        0 <= m < old_blocks.len() && block_contains(old_blocks[m], a);
                    assert(block_contains(s[m], a));
                } else {
                    let last = s.len() - 1;
                    assert(block_contains(s[last], a));
                }
            }
        }
    }
}

/// The larger of two integers.
pub open spec fn max_int(a: int, b: int) -> int {
    if a >= b {
        a
    } else {
        b
    }
}

/// Whether block `nb` is a remnant of carving `[i, i + size)` out of block
/// `b`: it lies within `b` and misses the carved range.
pub open spec fn block_contains_within(nb: FreeBlock, b: FreeBlock, i: int, size: int) -> bool {
    &&& b.offset <= nb.offset
    &&& nb.offset + nb.size <= b.offset + b.size
    &&& (nb.offset + nb.size <= i || i + size <= nb.offset)
}

} // verus!
