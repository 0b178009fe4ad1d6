//! Static memory accounting: one caller-supplied block, carved into aligned
//! sub-arrays exactly once, at setup. The kernel never allocates afterwards.
//! Addresses are plain numbers here; the arrays the kernel actually reads and
//! writes live as ordinary vectors next to these descriptors, so the
//! arithmetic of carving (alignment, bounds, exhaustion) is what this module
//! proves.

use vstd::arithmetic::div_mod::{
    lemma_fundamental_div_mod, lemma_mod_bound, lemma_mod_multiples_basic,
};
use vstd::prelude::*;

use crate::MTErr;

verus! {

/// `x` rounded up to the next multiple of `align`.
pub open spec fn spec_align_up(x: int, align: int) -> int {
    ((x + align - 1) / align) * align
}

/// `x` rounded down to a multiple of `align`.
pub open spec fn spec_align_down(x: int, align: int) -> int {
    (x / align) * align
}

/// Rounding up lands on a multiple of `align`, at or above `x` and less than
/// one whole `align` above it.
pub proof fn lemma_align_up(x: int, align: int)
    requires
        x >= 0,
        align >= 1,
    ensures
        x <= spec_align_up(x, align) < x + align,
        spec_align_up(x, align) % align == 0,
{
    let d = x + align - 1;
    lemma_fundamental_div_mod(d, align);
    lemma_mod_bound(d, align);
    lemma_mod_multiples_basic(d / align, align);
    assert(align * (d / align) == (d / align) * align) by (nonlinear_arith);
    assert((d / align) * align == d - d % align);
}

/// Rounding down lands on a multiple of `align`, at or below `x` and less
/// than one whole `align` below it.
pub proof fn lemma_align_down(x: int, align: int)
    requires
        x >= 0,
        align >= 1,
    ensures
        x - align < spec_align_down(x, align) <= x,
        spec_align_down(x, align) % align == 0,
{
    lemma_fundamental_div_mod(x, align);
    lemma_mod_bound(x, align);
    lemma_mod_multiples_basic(x / align, align);
    assert(align * (x / align) == (x / align) * align) by (nonlinear_arith);
    assert((x / align) * align == x - x % align);
}

/// Round an address down to a multiple of `align` (stacks grow down, so this
/// is the safe direction for a stack pointer).
pub fn align_down(x: usize, align: usize) -> (r: usize)
    requires
        align >= 1,
    ensures
        r == spec_align_down(x as int, align as int),
        r <= x,
        x - align < r,
        r as int % align as int == 0,
{
    proof {
        lemma_align_down(x as int, align as int);
    }
    (x / align) * align
}

/// Round an address up to a multiple of `align`.
pub fn align_up(x: usize, align: usize) -> (r: usize)
    requires
        align >= 1,
        x + align - 1 <= usize::MAX,
    ensures
        r == spec_align_up(x as int, align as int),
        x <= r,
        r < x + align,
        r as int % align as int == 0,
{
    proof {
        lemma_align_up(x as int, align as int);
    }
    ((x + (align - 1)) / align) * align
}

/// The caller-supplied memory block: an address range that the allocator
/// hands out pieces of.
pub struct MTMemBlk {
    /// First address of the block.
    pub base: usize,
    /// Size of the block in bytes.
    pub size: usize,
}

impl MTMemBlk {
    /// The block stays within the address space.
    pub open spec fn wf(self) -> bool {
        self.base + self.size <= usize::MAX
    }

    /// A block of `size` bytes.
    pub fn new(base: usize, size: usize) -> (r: MTMemBlk)
        requires
            base + size <= usize::MAX,
        ensures
            r.wf(),
            r.base == base,
            r.size == size,
    {
        MTMemBlk { base, size }
    }

    /// Size of the block in bytes.
    pub fn size(&self) -> (r: usize)
        ensures
            r == self.size,
    {
        self.size
    }

    /// First address of the block.
    pub fn head(&self) -> (r: usize)
        ensures
            r == self.base,
    {
        self.base
    }
}

/// An array carved out of the memory block: its first address, element size
/// and element count. The kernel uses it for stack bounds and for accounting;
/// the data itself lives elsewhere in this model.
#[derive(Clone, Copy, Debug)]
pub struct MTRawArray {
    /// First address of the array.
    pub head: usize,
    /// Size of one element in bytes.
    pub elem_size: usize,
    /// Number of elements.
    pub len: usize,
}

impl MTRawArray {
    /// One-past-the-end address of the array.
    pub open spec fn tail_addr(self) -> int {
        self.head + self.elem_size * self.len
    }

    /// The array stays within the address space.
    pub open spec fn wf(self) -> bool {
        self.tail_addr() <= usize::MAX
    }

    /// First address.
    pub fn head(&self) -> (r: usize)
        ensures
            r == self.head,
    {
        self.head
    }

    /// Number of elements.
    pub fn len(&self) -> (r: usize)
        ensures
            r == self.len,
    {
        self.len
    }

    /// One-past-the-end address.
    pub fn tail(&self) -> (r: usize)
        requires
            self.wf(),
        ensures
            r == self.tail_addr(),
    {
        self.head + self.elem_size * self.len
    }
}

/// The one-shot bump allocator over a memory block.
pub struct MTAlloc {
    /// Next free address.
    pub cur_pos: usize,
    /// One past the last usable address.
    pub end_cap: usize,
}

impl MTAlloc {
    /// The allocator's cursor never passes its cap.
    pub open spec fn wf(self) -> bool {
        self.cur_pos <= self.end_cap
    }

    /// An allocator over the whole of `mem`.
    pub fn new(mem: &MTMemBlk) -> (r: MTAlloc)
        requires
            mem.wf(),
        ensures
            r.wf(),
            r.cur_pos == mem.base,
            r.end_cap == mem.base + mem.size,
    {
        MTAlloc { cur_pos: mem.base, end_cap: mem.base + mem.size }
    }

    /// Whether an array of `len` elements of the given size and alignment
    /// fits in what is left of the block.
    pub open spec fn array_fits(self, len: int, elem_size: int, elem_align: int) -> bool {
        spec_align_up(self.cur_pos as int, elem_align) + elem_size * len <= self.end_cap
    }

    /// Carve an aligned array of `len` elements out of the block, or report
    /// by how it fails: the one fatal setup error of the kernel.
    pub fn array(&mut self, len: usize, elem_size: usize, elem_align: usize) -> (r: Result<
        MTRawArray,
        MTErr,
    >)
        requires
            old(self).wf(),
            elem_align >= 1,
        ensures
            final(self).wf(),
            final(self).end_cap == old(self).end_cap,
            r is Ok <==> old(self).array_fits(len as int, elem_size as int, elem_align as int),
            r is Err ==> r == Err::<MTRawArray, MTErr>(MTErr::MemShortage) && *final(self) == *old(
                self,
            ),
            r is Ok ==> {
                let arr = r->Ok_0;
                &&& arr.len == len
                &&& arr.elem_size == elem_size
                &&& arr.wf()
                &&& arr.head == spec_align_up(old(self).cur_pos as int, elem_align as int)
                &&& old(self).cur_pos <= arr.head
                &&& arr.head as int % elem_align as int == 0
                &&& arr.tail_addr() == final(self).cur_pos
                &&& final(self).cur_pos <= final(self).end_cap
            },
    {
        proof {
            lemma_align_up(self.cur_pos as int, elem_align as int);
        }
        let a = elem_align as u128;
        let d = self.cur_pos as u128 + (a - 1);
        let q = d / a;
        proof {
            lemma_fundamental_div_mod(d as int, a as int);
            lemma_mod_bound(d as int, a as int);
            assert((a as int) * ((d as int) / (a as int)) == ((d as int) / (a as int)) * (
            a as int)) by (nonlinear_arith);
            assert((q as int) * (a as int) == d as int - (d as int) % (a as int));
        }
        let p128 = q * a;
        proof {
            assert((elem_size as int) * (len as int) <= (u64::MAX as int) * (u64::MAX as int))
                by (nonlinear_arith)
                requires
                    0 <= elem_size as int <= u64::MAX as int,
                    0 <= len as int <= u64::MAX as int,
            ;
        }
        let sz128 = (elem_size as u128) * (len as u128);

        if p128 > u128::MAX - sz128 || p128 + sz128 > self.end_cap as u128 {
            return Err(MTErr::MemShortage);
        }

        let p = p128 as usize;
        let e = (p128 + sz128) as usize;
        self.cur_pos = e;

        Ok(MTRawArray { head: p, elem_size, len })
    }
}

} // verus!
