//! A first-fit sub-allocator over a contiguous byte range.
//!
//! The pool tracks a partition of `[0, total_bytes)` into contiguous
//! blocks, each free or rented.  Renting finds the first free block that
//! can hold an aligned request, splits off any alignment padding and any
//! remainder as free blocks, and hands out a placement; the backing memory
//! itself lives with the caller.

use vstd::prelude::*;

verus! {

/// One block of the partition: its start offset, length, and whether it is
/// currently rented out.
#[derive(Debug, Clone, Copy, PartialEq, Eq, Structural)]
pub struct MemoryBlock {
    pub index: usize,
    pub size: usize,
    pub owned: bool,
}

/// A rented placement: `size` bytes starting at byte `index` of the pool.
#[derive(Debug, Clone, Copy, PartialEq, Eq, Structural)]
pub struct MemorySlice {
    pub index: usize,
    pub size: usize,
}

/// Whether a free block can hold `size` bytes at alignment `align` once its
/// start is padded up to the alignment.
pub open spec fn block_fits(b: MemoryBlock, size: int, align: int) -> bool {
    &&& !b.owned
    &&& b.size >= ((align - (b.index as int) % align) % align) + size
}

/// The total number of bytes in the free blocks of `s`.
pub open spec fn free_bytes(s: Seq<MemoryBlock>) -> int
    decreases s.len(),
{
    if s.len() == 0 {
        0
    } else {
        (if !s[0].owned {
            s[0].size as int
        } else {
            0
        }) + free_bytes(s.skip(1))
    }
}

/// The first-fit pool.
pub struct MemoryPool {
    blocks: Vec<MemoryBlock>,
    total_bytes: usize,
}

impl MemoryPool {
    /// The current partition, in address order.
    pub closed spec fn blocks_seq(&self) -> Seq<MemoryBlock> {
        self.blocks@
    }

    /// The size of the managed range.
    pub closed spec fn spec_total(&self) -> int {
        self.total_bytes as int
    }

    /// The blocks tile `[0, total_bytes)` without gap or overlap.
    pub open spec fn wf(&self) -> bool {
        let s = self.blocks_seq();
        &&& s.len() >= 1
        &&& s[0].index == 0
        &&& forall|i: int|
            0 <= i < s.len() - 1 ==> (#[trigger] s[i + 1].index) == s[i].index + s[i].size
        &&& s[s.len() - 1].index + s[s.len() - 1].size == self.spec_total()
        &&& forall|i: int|
            0 <= i < s.len() ==> (#[trigger] s[i].index) + s[i].size <= self.spec_total()
    }

    /// A pool whose whole range is one free block.
    pub fn new(byte_len: usize) -> (r: MemoryPool)
        requires
            byte_len >= 1,
        ensures
            r.wf(),
            r.spec_total() == byte_len,
            r.blocks_seq() =~= seq![MemoryBlock { index: 0, size: byte_len, owned: false }],
    {
        let mut blocks: Vec<MemoryBlock> = Vec::new();
        blocks.push(MemoryBlock { index: 0, size: byte_len, owned: false });
        MemoryPool { blocks, total_bytes: byte_len }
    }

    /// How many bytes are left in free blocks.
    pub fn remaining_bytes(&self) -> (r: usize)
        requires
            self.wf(),
        ensures
            r == free_bytes(self.blocks_seq()),
    {
        let ghost s = self.blocks_seq();
        let n = self.blocks.len();
        let mut acc: usize = 0;
        let mut i: usize = 0;
        proof {
            assert(s.skip(0) =~= s);
        }
        while i < n
            invariant
                self.wf(),
                s == self.blocks_seq(),
                n == s.len(),
                i <= n,
                acc + free_bytes(s.skip(i as int)) == free_bytes(s),
                i < n ==> acc <= s[i as int].index,
                i == n ==> acc <= self.spec_total(),
            decreases n - i,
        {
            let b = self.blocks[i];
            proof {
                assert(s.skip(i as int).skip(1) =~= s.skip(i as int + 1));
                assert(s.skip(i as int)[0] == s[i as int]);
                if i + 1 < n {
                    assert(s[i as int + 1].index == s[i as int].index + s[i as int].size);
                }
            }
            if !b.owned {
                acc = acc + b.size;
            }
            i = i + 1;
        }
        proof {
            assert(s.skip(n as int) =~= Seq::<MemoryBlock>::empty());
        }
        acc
    }

    /// Rents `size` bytes at alignment `alignment`, first-fit: succeeds
    /// exactly when some free block can hold the aligned request.  On
    /// success the placement starts at an aligned offset inside the range,
    /// the chosen block is split into padding, the rented block, and any
    /// remainder; every other block is untouched.
    #[verifier::rlimit(100)]
    pub fn rent_slice(&mut self, size: usize, alignment: usize) -> (r: Option<MemorySlice>)
        requires
            old(self).wf(),
            1 <= size,
            1 <= alignment,
        ensures
            final(self).wf(),
            final(self).spec_total() == old(self).spec_total(),
            (r is Some) <==> exists|i: int|
                0 <= i < old(self).blocks_seq().len() && block_fits(
                    #[trigger] old(self).blocks_seq()[i],
                    size as int,
                    alignment as int,
                ),
            r is None ==> *final(self) == *old(self),
            match r {
                Some(s) => {
                    &&& s.size == size
                    &&& s.index as int % alignment as int == 0
                    &&& s.index + s.size <= old(self).spec_total()
                    &&& exists|j: int|
                        0 <= j < final(self).blocks_seq().len() && final(self).blocks_seq()[j]
                            == (MemoryBlock { index: s.index, size: s.size, owned: true })
                    &&& forall|i: int|
                        0 <= i < old(self).blocks_seq().len() && (#[trigger] old(
                            self,
                        ).blocks_seq()[i]).owned ==> exists|j: int|
                            0 <= j < final(self).blocks_seq().len() && final(self).blocks_seq()[j]
                                == old(self).blocks_seq()[i]
                },
                None => true,
            },
    {
        let n = self.blocks.len();
        let mut i: usize = 0;
        while i < n
            invariant
                self.wf(),
                *self == *old(self),
                n == self.blocks_seq().len(),
                i <= n,
                1 <= size,
                1 <= alignment,
                forall|k: int|
                    0 <= k < i ==> !block_fits(
                        #[trigger] self.blocks_seq()[k],
                        size as int,
                        alignment as int,
                    ),
            decreases n - i,
        {
            let b = self.blocks[i];
            let pad = (alignment - (b.index % alignment)) % alignment;
            if !b.owned && b.size >= pad && b.size - pad >= size {
                let place_index = b.index + pad;
                let rest = b.size - pad - size;
                proof {
                    assert(block_fits(self.blocks_seq()[i as int], size as int, alignment as int));
                    lemma_pad_aligns(b.index as int, alignment as int);
                }
                let ghost s0 = self.blocks_seq();
                let ghost pad_block = MemoryBlock { index: b.index, size: pad, owned: false };
                let ghost own_block = MemoryBlock { index: place_index, size, owned: true };
                let ghost rest_block = MemoryBlock {
                    index: (place_index + size) as usize,
                    size: rest,
                    owned: false,
                };
                self.blocks.set(i, MemoryBlock { index: place_index, size, owned: true });
                self.blocks.insert(
                    i + 1,
                    MemoryBlock { index: place_index + size, size: rest, owned: false },
                );
                self.blocks.insert(i, MemoryBlock { index: b.index, size: pad, owned: false });
                proof {
                    let ii = i as int;
                    let sa = s0.update(ii, own_block);
                    let sb = sa.insert(ii + 1, rest_block);
                    let s1 = self.blocks_seq();
                    sa.insert_ensures(ii + 1, rest_block);
                    sb.insert_ensures(ii, pad_block);
                    assert(s1 == sb.insert(ii, pad_block));
                    assert(s1.len() == s0.len() + 2);
                    assert forall|k: int| 0 <= k < s1.len() implies #[trigger] s1[k] == (if k < ii {
                        s0[k]
                    } else if k == ii {
                        pad_block
                    } else if k == ii + 1 {
                        own_block
                    } else if k == ii + 2 {
                        rest_block
                    } else {
                        s0[k - 2]
                    }) by {
                        if k < ii {
                            assert(s1[k] == sb[k]);
                            assert(sb[k] == sa[k]);
                        } else if k == ii {
                            assert(s1[k] == pad_block);
                        } else if k == ii + 1 {
                            assert(s1[k] == sb[k - 1]);
                            assert(sb[ii] == sa[ii]);
                        } else if k == ii + 2 {
                            assert(s1[k] == sb[k - 1]);
                            assert(sb[ii + 1] == rest_block);
                        } else {
                            assert(s1[k] == sb[k - 1]);
                            assert(sb[k - 1] == sa[k - 2]);
                            assert(sa[k - 2] == s0[k - 2]);
                        }
                    }
                    assert forall|k: int| 0 <= k < s1.len() - 1 implies (#[trigger] s1[k
                        + 1].index) == s1[k].index + s1[k].size by {}
                    assert(self.wf());
                    assert forall|k: int|
                        0 <= k < s0.len() && (#[trigger] s0[k]).owned implies exists|j: int|
                        0 <= j < s1.len() && s1[j] == s0[k] by {
                        if k < ii {
                            assert(s1[k] == s0[k]);
                        } else {
                            assert(s1[k + 2] == s0[k]);
                        }
                    }
                    assert(s1[ii + 1] == own_block);
                }
                return Some(MemorySlice { index: place_index, size });
            }
            i = i + 1;
        }
        None
    }

    /// Returns a rented placement: the matching rented block becomes free
    /// again, and nothing else changes.
    pub fn return_slice(&mut self, slice: &MemorySlice)
        requires
            old(self).wf(),
            exists|i: int|
                0 <= i < old(self).blocks_seq().len() && old(self).blocks_seq()[i] == (MemoryBlock {
                    index: slice.index,
                    size: slice.size,
                    owned: true,
                }),
        ensures
            final(self).wf(),
            final(self).spec_total() == old(self).spec_total(),
            exists|i: int|
                0 <= i < old(self).blocks_seq().len() && old(self).blocks_seq()[i] == (MemoryBlock {
                    index: slice.index,
                    size: slice.size,
                    owned: true,
                }) && final(self).blocks_seq() == old(self).blocks_seq().update(
                    i,
                    MemoryBlock { index: slice.index, size: slice.size, owned: false },
                ),
    {
        let n = self.blocks.len();
        let mut i: usize = 0;
        while i < n
            invariant
                self.wf(),
                *self == *old(self),
                n == self.blocks_seq().len(),
                i <= n,
                exists|k: int|
                    0 <= k < old(self).blocks_seq().len() && old(self).blocks_seq()[k]
                        == (MemoryBlock { index: slice.index, size: slice.size, owned: true }),
                forall|k: int|
                    0 <= k < i ==> old(self).blocks_seq()[k] != (MemoryBlock {
                        index: slice.index,
                        size: slice.size,
                        owned: true,
                    }),
            decreases n - i,
        {
            let b = self.blocks[i];
            if b.owned && b.index == slice.index && b.size == slice.size {
                self.blocks.set(
                    i,
                    MemoryBlock { index: slice.index, size: slice.size, owned: false },
                );
                return ;
            }
            i = i + 1;
        }
        proof {
            assert(false);
        }
    }
}

/// Padding a start offset up to the next multiple of `align` aligns it.
proof fn lemma_pad_aligns(index: int, align: int)
    by (nonlinear_arith)
    requires
        align >= 1,
        index >= 0,
    ensures
        (index + ((align - index % align) % align)) % align == 0,
        0 <= (align - index % align) % align < align,
{
}

} // verus!
