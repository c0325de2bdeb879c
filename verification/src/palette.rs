//! Palette-compressed storage: a fixed index space `[0, N)` of small codes,
//! resolved through a growable, duplicate-free lookup table of blocks.
//!
//! Codes are packed `index_bits` bits each into 64-bit words; `index_bits` is
//! always a power of two, so a code never spans a word boundary.  When the
//! lookup table outgrows the current code width, the width doubles and the
//! whole store is re-encoded losslessly.

use vstd::prelude::*;

use crate::block::Block;

verus! {

/// Largest admissible index space, chosen so every bit-offset computation
/// fits comfortably in 64-bit arithmetic.
pub const PALETTE_MAX_LEN: u64 = 0x0100_0000_0000_0000;

/// The code widths the palette can use: powers of two up to one full word.
pub open spec fn valid_width(w: u64) -> bool {
    w == 1 || w == 2 || w == 4 || w == 8 || w == 16 || w == 32 || w == 64
}

/// The low-bits mask holding `w` one bits.
pub open spec fn mask_of(w: u64) -> u64 {
    if w == 1 {
        0x1
    } else if w == 2 {
        0x3
    } else if w == 4 {
        0xf
    } else if w == 8 {
        0xff
    } else if w == 16 {
        0xffff
    } else if w == 32 {
        0xffff_ffff
    } else {
        0xffff_ffff_ffff_ffff
    }
}

/// The `w`-bit field of `word` that starts at bit `off`.
pub open spec fn field_get(word: u64, w: u64, off: u64) -> u64 {
    (word >> off) & mask_of(w)
}

/// How many 64-bit words are needed for `n` codes of `w` bits each.
pub open spec fn num_words(w: u64, n: nat) -> nat {
    ((n * w + 63) / 64) as nat
}

/// Writing a field leaves the written field holding the code and any
/// non-overlapping field of the same word unchanged.
proof fn lemma_field_set(word: u64, w: u64, o1: u64, o2: u64, c: u64)
    by (bit_vector)
    requires
        valid_width(w),
        o1 <= 64 - w,
        o2 <= 64 - w,
        c <= mask_of(w),
    ensures
        field_get((word & !(mask_of(w) << o1)) | (c << o1), w, o1) == c,
        o1 + w <= o2 || o2 + w <= o1 ==> field_get(
            (word & !(mask_of(w) << o1)) | (c << o1),
            w,
            o2,
        ) == field_get(word, w, o2),
{
}

/// Every field of an all-zero word is zero.
proof fn lemma_field_zero(w: u64, off: u64)
    by (bit_vector)
    requires
        off < 64,
    ensures
        field_get(0u64, w, off) == 0,
{
}

/// Doubling a valid width below 64 yields the next valid width, whose mask
/// strictly more than doubles.
proof fn lemma_width_double(w: u64)
    requires
        valid_width(w),
        w < 64,
    ensures
        valid_width((2 * w) as u64),
        mask_of((2 * w) as u64) >= 2 * mask_of(w) + 1,
{
}

/// An index below the slice capacity lands inside the word array.
proof fn lemma_slot_in_range(i: int, words: int, per: int)
    by (nonlinear_arith)
    requires
        per >= 1,
        0 <= i < words * per,
    ensures
        0 <= i / per < words,
        0 <= i % per < per,
{
}

/// Distinct slots of one word occupy non-overlapping bit ranges.
proof fn lemma_offsets_disjoint(s1: int, s2: int, w: int)
    by (nonlinear_arith)
    requires
        w >= 1,
        0 <= s1,
        0 <= s2,
        s1 != s2,
    ensures
        s1 * w + w <= s2 * w || s2 * w + w <= s1 * w,
{
}

/// The slice count covers the whole index space, and never exceeds it.
proof fn lemma_num_words_bounds(w: u64, n: nat)
    by (nonlinear_arith)
    requires
        valid_width(w),
        n * w + 63 < 0x1_0000_0000_0000_0000,
    ensures
        n <= num_words(w, n) * ((64u64 / w) as nat),
        num_words(w, n) <= n,
{
}

/// Does the lookup table already hold a block with this identity?
pub open spec fn lookup_contains(s: Seq<Block>, v: Block) -> bool {
    exists|j: int| 0 <= j < s.len() && s[j].id == v.id
}

/// The value a write of `v` resolves to: the stored block with `v`'s
/// identity if one exists, otherwise `v` itself.
pub open spec fn resolved(s: Seq<Block>, v: Block) -> Block {
    if lookup_contains(s, v) {
        s[choose|j: int| 0 <= j < s.len() && s[j].id == v.id]
    } else {
        v
    }
}

/// The palette-compressed container.
pub struct Palette {
    lookup: Vec<Block>,
    index_bits: u64,
    index_mask: u64,
    indexes_per_slice: u64,
    elements: Vec<u64>,
    len: usize,
}

impl View for Palette {
    type V = Seq<Block>;

    /// The resolved block at every index of the container.
    closed spec fn view(&self) -> Seq<Block> {
        Seq::new(self.len as nat, |i: int| self.lookup@[self.code_at(i) as int])
    }
}

impl Palette {
    /// The packed code stored for index `i`.
    pub closed spec fn code_at(&self, i: int) -> u64 {
        field_get(
            self.elements@[i / (self.indexes_per_slice as int)],
            self.index_bits,
            (((i % (self.indexes_per_slice as int)) * (self.index_bits as int)) as u64),
        )
    }

    /// The deduplicated code-to-block table.
    pub closed spec fn lookup_seq(&self) -> Seq<Block> {
        self.lookup@
    }

    /// The current code width in bits.
    pub closed spec fn width(&self) -> u64 {
        self.index_bits
    }

    /// The packed storage is shaped consistently with the code width and the
    /// index space.
    pub closed spec fn storage_wf(&self) -> bool {
        &&& valid_width(self.index_bits)
        &&& self.index_mask == mask_of(self.index_bits)
        &&& self.indexes_per_slice == 64u64 / self.index_bits
        &&& self.len as u64 <= PALETTE_MAX_LEN
        &&& self.elements@.len() == num_words(self.index_bits, self.len as nat)
        &&& self.len as int <= self.elements@.len() * (self.indexes_per_slice as int)
    }

    /// Full well-formedness: shaped storage, a non-empty duplicate-free
    /// lookup table that the code width can address, and a valid code at
    /// every index.
    pub closed spec fn wf(&self) -> bool {
        &&& self.storage_wf()
        &&& 1 <= self.lookup@.len()
        &&& self.lookup@.len() <= self.index_mask as nat + 1
        &&& forall|i: int| 0 <= i < self.len ==> (#[trigger] self.code_at(i)) < self.lookup@.len()
        &&& forall|j1: int, j2: int|
            0 <= j1 < j2 < self.lookup@.len() ==> self.lookup@[j1].id != self.lookup@[j2].id
    }

    /// A fresh container: every index resolves to the background block.
    pub fn new(len: usize) -> (r: Palette)
        requires
            len as u64 <= PALETTE_MAX_LEN,
        ensures
            r.wf(),
            r@.len() == len,
            r.lookup_seq() =~= seq![Block { id: 0, color: 0, light_lvl: 0 }],
            forall|i: int| 0 <= i < len ==> r@[i] == (Block { id: 0, color: 0, light_lvl: 0 }),
    {
        let mut lookup: Vec<Block> = Vec::new();
        lookup.push(Block::air());
        let word_count = Self::compute_slices(1, len);
        let elements = zero_words(word_count);
        let r = Palette {
            lookup,
            index_bits: 1,
            index_mask: 1,
            indexes_per_slice: 64,
            elements,
            len,
        };
        proof {
            lemma_num_words_bounds(1, len as nat);
            assert forall|i: int| 0 <= i < len implies r.code_at(i) == 0 by {
                lemma_slot_in_range(i, r.elements@.len() as int, 64);
                lemma_field_zero(1, ((i % 64) * 1) as u64);
            }
            assert(r@ =~= Seq::new(len as nat, |i: int| Block { id: 0, color: 0, light_lvl: 0 }));
        }
        r
    }

    /// Converts a code count into the number of 64-bit words that hold it.
    fn compute_slices(index_bits: u64, array_len: usize) -> (r: usize)
        requires
            valid_width(index_bits),
            array_len as u64 <= PALETTE_MAX_LEN,
        ensures
            r == num_words(index_bits, array_len as nat),
    {
        proof {
            assert((array_len as nat) * (index_bits as nat) <= 0x4000_0000_0000_0000)
                by (nonlinear_arith)
                requires
                    array_len as u64 <= PALETTE_MAX_LEN,
                    index_bits <= 64,
            ;
            lemma_num_words_bounds(index_bits, array_len as nat);
        }
        (((array_len as u64) * index_bits + 63) / 64) as usize
    }

    /// The fixed length of the index space.
    pub fn len(&self) -> (r: usize)
        ensures
            r == self@.len(),
    {
        self.len
    }

    /// How many distinct blocks the lookup table currently holds.
    pub fn lookup_len(&self) -> (r: usize)
        ensures
            r == self.lookup_seq().len(),
    {
        self.lookup.len()
    }

    /// Writes the code `lookup_index` at `index`, leaving every other index
    /// and the lookup table unchanged.
    fn set_value(&mut self, index: usize, lookup_index: u64)
        requires
            old(self).wf(),
            index < old(self)@.len(),
            (lookup_index as nat) < old(self).lookup_seq().len(),
        ensures
            final(self).wf(),
            final(self).lookup_seq() == old(self).lookup_seq(),
            final(self).width() == old(self).width(),
            final(self)@ =~= old(self)@.update(
                index as int,
                old(self).lookup_seq()[lookup_index as int],
            ),
            forall|j: int|
                0 <= j < old(self)@.len() && j != index
                    ==> final(self).code_at(j) == old(self).code_at(j),
            final(self).code_at(index as int) == lookup_index,
    {
        let w = self.index_bits;
        let mask = self.index_mask;
        store_code(&mut self.elements, w, mask, index, lookup_index);
        proof {
            assert(self.code_at(index as int) == word_code_at(self.elements@, w, index as int));
            assert forall|j: int|
                0 <= j < old(self)@.len() && j != index implies self.code_at(j)
                == old(self).code_at(j) by {
                assert(self.code_at(j) == word_code_at(self.elements@, w, j));
                assert(old(self).code_at(j) == word_code_at(old(self).elements@, w, j));
            }
            assert(self@ =~= old(self)@.update(
                index as int,
                old(self).lookup_seq()[lookup_index as int],
            ));
        }
    }

    /// Appends a block that is not yet in the lookup table, doubling the code
    /// width and re-encoding the whole store first if the table would
    /// otherwise outgrow the width.  The resolved value of every index is
    /// unchanged.
    fn allocate_lookup_entry(&mut self, entry: Block) -> (r: usize)
        requires
            old(self).wf(),
            !lookup_contains(old(self).lookup_seq(), entry),
            old(self).width() < 64,
        ensures
            final(self).wf(),
            r == old(self).lookup_seq().len(),
            final(self).lookup_seq() == old(self).lookup_seq().push(entry),
            final(self)@ =~= old(self)@,
    {
        let entry_index = self.lookup.len();
        self.lookup.push(entry);
        if self.lookup.len() as u64 > self.index_mask {
            proof {
                lemma_width_double(self.index_bits);
            }
            let new_index_bits = self.index_bits * 2;
            let new_mask = Self::compute_mask(new_index_bits);
            let new_per = 64u64 / new_index_bits;
            let word_count = Self::compute_slices(new_index_bits, self.len);
            let mut new_elements = zero_words(word_count);
            proof {
                assert((self.len as nat) * (new_index_bits as nat) <= 0x4000_0000_0000_0000)
                    by (nonlinear_arith)
                    requires
                        self.len as u64 <= PALETTE_MAX_LEN,
                        new_index_bits <= 64,
                ;
                lemma_num_words_bounds(new_index_bits, self.len as nat);
            }
            let ghost old_palette = *old(self);
            let mut i: usize = 0;
            while i < self.len
                invariant
                    self.index_bits == old_palette.index_bits,
                    self.index_mask == old_palette.index_mask,
                    self.indexes_per_slice == old_palette.indexes_per_slice,
                    self.elements == old_palette.elements,
                    self.len == old_palette.len,
                    self.lookup@ == old_palette.lookup@.push(entry),
                    old_palette.wf(),
                    valid_width(new_index_bits),
                    new_index_bits == 2 * old_palette.index_bits,
                    new_mask == mask_of(new_index_bits),
                    new_per == 64u64 / new_index_bits,
                    new_elements@.len() == num_words(new_index_bits, self.len as nat),
                    (self.len as int) <= new_elements@.len() * (new_per as int),
                    i <= self.len,
                    forall|j: int|
                        0 <= j < i
                            ==> word_code_at(new_elements@, new_index_bits, j)
                                == old_palette.code_at(j),
                decreases self.len - i,
            {
                let code = self.calculate_lookup_from_index(i);
                proof {
                    assert(code <= mask_of(old_palette.index_bits));
                    lemma_width_double(old_palette.index_bits);
                }
                store_code(&mut new_elements, new_index_bits, new_mask, i, code);
                i = i + 1;
            }
            self.index_bits = new_index_bits;
            self.index_mask = new_mask;
            self.indexes_per_slice = new_per;
            self.elements = new_elements;
            proof {
                assert forall|j: int| 0 <= j < self.len implies self.code_at(j)
                    == old_palette.code_at(j) by {
                    assert(self.code_at(j) == word_code_at(self.elements@, new_index_bits, j));
                }
                assert(self@ =~= old(self)@);
            }
        } else {
            proof {
                assert forall|j: int| 0 <= j < self.len implies self.code_at(j)
                    == old(self).code_at(j) by {
                    assert(self.code_at(j) == word_code_at(self.elements@, self.index_bits, j));
                    assert(old(self).code_at(j) == word_code_at(
                        old(self).elements@,
                        old(self).index_bits,
                        j,
                    ));
                }
            }
        }
        proof {
            assert forall|i: int| 0 <= i < self.len implies (#[trigger] self.code_at(i))
                < self.lookup@.len() by {
                assert(self.code_at(i) == old(self).code_at(i));
                assert(old(self).code_at(i) < old(self).lookup@.len());
            }
            assert forall|j1: int, j2: int|
                0 <= j1 < j2 < self.lookup@.len() implies self.lookup@[j1].id
                != self.lookup@[j2].id by {
                if j2 == self.lookup@.len() - 1 {
                    assert(!lookup_contains(old(self).lookup_seq(), entry));
                    assert(old(self).lookup_seq()[j1].id != entry.id);
                }
            }
            assert(self@ =~= old(self)@);
        }
        entry_index
    }

    /// Finds or allocates the code for `value` and stores it at `index`.
    ///
    /// Resolution is by identity: if a block with `value`'s identity is
    /// already in the lookup table, the index resolves to that stored block,
    /// and the table does not grow.
    pub fn set(&mut self, index: usize, value: Block)
        requires
            old(self).wf(),
            index < old(self)@.len(),
            lookup_contains(old(self).lookup_seq(), value) || old(self).width() < 64,
        ensures
            final(self).wf(),
            final(self)@ =~= old(self)@.update(
                index as int,
                resolved(old(self).lookup_seq(), value),
            ),
            final(self)@[index as int].id == value.id,
            forall|j: int|
                0 <= j < old(self)@.len() && j != index ==> final(self)@[j] == old(self)@[j],
            lookup_contains(old(self).lookup_seq(), value)
                ==> final(self).lookup_seq() == old(self).lookup_seq(),
            !lookup_contains(old(self).lookup_seq(), value)
                ==> final(self).lookup_seq() == old(self).lookup_seq().push(value),
    {
        let n = self.lookup.len();
        let mut found: bool = false;
        let mut code: usize = 0;
        let mut j: usize = 0;
        while j < n
            invariant
                *self == *old(self),
                n == self.lookup@.len(),
                j <= n,
                !found ==> forall|k: int| 0 <= k < j ==> self.lookup@[k].id != value.id,
                found ==> code < n && self.lookup@[code as int].id == value.id,
            decreases n - j,
        {
            if !found && self.lookup[j].id == value.id {
                found = true;
                code = j;
            }
            j = j + 1;
        }
        let code_final: usize = if found {
            code
        } else {
            self.allocate_lookup_entry(value)
        };
        let ghost mid = *self;
        self.set_value(index, code_final as u64);
        proof {
            let s = old(self).lookup_seq();
            if found {
                let k = choose|k: int| 0 <= k < s.len() && s[k].id == value.id;
                assert(s[code as int].id == value.id);
                assert(k == code as int);
                assert(mid.lookup_seq()[code_final as int] == resolved(s, value));
            } else {
                assert(!lookup_contains(s, value));
                assert(mid.lookup_seq()[code_final as int] == value);
            }
            assert(self@ =~= old(self)@.update(index as int, resolved(s, value)));
        }
    }

    /// Reads the block stored at `index`.
    pub fn get(&self, index: usize) -> (r: &Block)
        requires
            self.wf(),
            index < self@.len(),
        ensures
            *r == self@[index as int],
    {
        let code = self.calculate_lookup_from_index(index);
        let table_len = self.lookup.len();
        proof {
            assert(self.code_at(index as int) < self.lookup@.len());
            assert(code < table_len as u64);
        }
        &self.lookup[code as usize]
    }

    /// Reads the block the lookup table assigns to code `index`.
    pub fn get_lookup_value(&self, index: usize) -> (r: &Block)
        requires
            index < self.lookup_seq().len(),
        ensures
            *r == self.lookup_seq()[index as int],
    {
        &self.lookup[index]
    }

    /// Decodes the whole container into the front of `slice`, which must be
    /// at least as long as the index space.  Entries past the index space
    /// are left unchanged.
    pub fn copy_to_slice(&self, slice: &mut Vec<Block>)
        requires
            self.wf(),
            old(slice)@.len() >= self@.len(),
        ensures
            final(slice)@.len() == old(slice)@.len(),
            forall|i: int| 0 <= i < self@.len() ==> final(slice)@[i] == self@[i],
            forall|i: int|
                self@.len() <= i < old(slice)@.len() ==> final(slice)@[i] == old(slice)@[i],
    {
        let n = self.len;
        let mut i: usize = 0;
        while i < n
            invariant
                self.wf(),
                n == self@.len(),
                i <= n,
                slice@.len() == old(slice)@.len(),
                old(slice)@.len() >= n,
                forall|k: int| 0 <= k < i ==> slice@[k] == self@[k],
                forall|k: int| i <= k < old(slice)@.len() ==> slice@[k] == old(slice)@[k],
            decreases n - i,
        {
            let code = self.calculate_lookup_from_index(i);
            let table_len = self.lookup.len();
            proof {
                assert(self.code_at(i as int) < self.lookup@.len());
                assert(code < table_len as u64);
            }
            let b = self.lookup[code as usize];
            slice.set(i, b);
            i = i + 1;
        }
    }

    /// Computes the mask with `index_bits` low bits set.
    fn compute_mask(index_bits: u64) -> (r: u64)
        requires
            valid_width(index_bits),
        ensures
            r == mask_of(index_bits),
    {
        if index_bits == 64 {
            0xffff_ffff_ffff_ffffu64
        } else {
            proof {
                lemma_mask_shift(index_bits);
            }
            (1u64 << index_bits) - 1
        }
    }

    /// Reads the packed code stored for `index`.
    fn calculate_lookup_from_index(&self, index: usize) -> (r: u64)
        requires
            self.storage_wf(),
            index < self.len,
        ensures
            r == self.code_at(index as int),
            r <= mask_of(self.width()),
    {
        let per = self.indexes_per_slice as usize;
        proof {
            lemma_slot_in_range(index as int, self.elements@.len() as int, per as int);
            lemma_offset_bound(index as int, self.indexes_per_slice, self.index_bits);
        }
        let palette_index = index / per;
        let slice_offset = ((index % per) as u64) * self.index_bits;
        let r = (self.elements[palette_index] >> slice_offset) & self.index_mask;
        proof {
            lemma_mask_bound(self.elements@[palette_index as int], self.index_bits, slice_offset);
        }
        r
    }
}

/// The packed code stored for index `i` in a raw word array, at width `w`.
pub open spec fn word_code_at(words: Seq<u64>, w: u64, i: int) -> u64 {
    field_get(
        words[i / ((64u64 / w) as int)],
        w,
        (((i % ((64u64 / w) as int)) * (w as int)) as u64),
    )
}

/// Writes `code` into slot `index` of a packed word array of width `w`,
/// leaving every other slot unchanged.
fn store_code(words: &mut Vec<u64>, w: u64, mask: u64, index: usize, code: u64)
    requires
        valid_width(w),
        mask == mask_of(w),
        code <= mask,
        (index as int) < old(words)@.len() * ((64u64 / w) as int),
    ensures
        final(words)@.len() == old(words)@.len(),
        word_code_at(final(words)@, w, index as int) == code,
        forall|j: int|
            0 <= j < old(words)@.len() * ((64u64 / w) as int) && j != index
                ==> word_code_at(final(words)@, w, j) == word_code_at(old(words)@, w, j),
{
    let per = (64u64 / w) as usize;
    proof {
        lemma_slot_in_range(index as int, words@.len() as int, per as int);
        lemma_offset_bound(index as int, 64u64 / w, w);
    }
    let word_index = index / per;
    let offset = ((index % per) as u64) * w;
    let old_word = words[word_index];
    let new_word = (old_word & !(mask << offset)) | (code << offset);
    words.set(word_index, new_word);
    proof {
        let per_i = per as int;
        lemma_field_set(old_word, w, offset, offset, code);
        assert forall|j: int|
            0 <= j < words@.len() * per_i && j != index implies word_code_at(
            words@,
            w,
            j,
        ) == word_code_at(old(words)@, w, j) by {
            lemma_slot_in_range(j, words@.len() as int, per_i);
            lemma_offset_bound(j, 64u64 / w, w);
            if j / per_i == word_index as int {
                vstd::arithmetic::div_mod::lemma_fundamental_div_mod(j, per_i);
                vstd::arithmetic::div_mod::lemma_fundamental_div_mod(index as int, per_i);
                lemma_offsets_disjoint(j % per_i, index as int % per_i, w as int);
                lemma_field_set(old_word, w, offset, (((j % per_i) * (w as int)) as u64), code);
            }
        }
    }
}

/// A field offset computed from a slot inside one word stays below 64.
proof fn lemma_offset_bound(i: int, per: u64, w: u64)
    by (nonlinear_arith)
    requires
        valid_width(w),
        per == 64u64 / w,
        0 <= i,
    ensures
        0 <= (i % (per as int)) * (w as int) <= 64 - w,
        (((i % (per as int)) * (w as int)) as u64) == ((i % (per as int)) as u64) * w,
{
}

/// Resolution keeps the identity: whatever the lookup table holds, the
/// value a write of `v` resolves to carries `v`'s identity.
pub proof fn lemma_resolved_identity(s: Seq<Block>, v: Block)
    ensures
        resolved(s, v).id == v.id,
{
    if lookup_contains(s, v) {
        let j = choose|j: int| 0 <= j < s.len() && s[j].id == v.id;
        assert(s[j].id == v.id);
    }
}

/// Write-then-read consistency: a write of `v` at index `i` leaves the
/// container's resolved values unchanged everywhere else, and index `i`
/// resolves to `v`'s identity — exactly the update that `set` promises and
/// the value that `get` returns.
pub proof fn lemma_write_then_read(values: Seq<Block>, lookup: Seq<Block>, i: int, v: Block)
    requires
        0 <= i < values.len(),
    ensures
        values.update(i, resolved(lookup, v))[i].id == v.id,
        forall|j: int|
            0 <= j < values.len() && j != i ==> values.update(i, resolved(lookup, v))[j]
                == values[j],
{
    lemma_resolved_identity(lookup, v);
}

/// Every resolved value of a well-formed palette is one of its lookup
/// entries.
pub proof fn lemma_view_values(p: &Palette)
    requires
        p.wf(),
    ensures
        forall|i: int|
            0 <= i < p@.len() ==> (#[trigger] p.code_at(i) as int) < p.lookup_seq().len() && p@[i]
                == p.lookup_seq()[p.code_at(i) as int],
{
}

/// Below a full word, the mask is one less than the width's power of two.
proof fn lemma_mask_shift(w: u64)
    by (bit_vector)
    requires
        valid_width(w),
        w < 64,
    ensures
        (1u64 << w) >= 1,
        (1u64 << w) - 1 == mask_of(w),
{
}

/// A masked field value never exceeds the mask.
proof fn lemma_mask_bound(word: u64, w: u64, off: u64)
    by (bit_vector)
    ensures
        (word >> off) & mask_of(w) <= mask_of(w),
{
}

/// A vector of `n` zeroed words.
fn zero_words(n: usize) -> (r: Vec<u64>)
    ensures
        r@.len() == n,
        forall|i: int| 0 <= i < n ==> r@[i] == 0u64,
{
    let mut r: Vec<u64> = Vec::new();
    let mut i: usize = 0;
    while i < n
        invariant
            i <= n,
            r@.len() == i,
            forall|k: int| 0 <= k < i ==> r@[k] == 0u64,
        decreases n - i,
    {
        r.push(0u64);
        i = i + 1;
    }
    r
}

} // verus!
