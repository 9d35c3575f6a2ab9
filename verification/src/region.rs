//! The offset region: a contiguous memory range addressed by base-relative
//! integer offsets across an isolation boundary.
//!
//! The host and the isolated domain map the same range at different bases, so
//! only offsets cross the boundary.  This module holds the address/offset
//! translation, alignment, a bump allocator scoped to one region, and the
//! shared byte range itself with word-sized reads and writes.

use vstd::prelude::*;

verus! {

/// A contiguous address range `[base, base + size)` with offset translation.
pub struct Region {
    /// First address of the range, in the mapping this handle belongs to.
    pub base: usize,
    /// Length of the range in bytes.
    pub size: usize,
}

impl Region {
    /// The range does not wrap around the address space.
    pub open spec fn wf(&self) -> bool {
        self.base + self.size <= usize::MAX
    }

    pub open spec fn spec_contains(&self, addr: int) -> bool {
        self.base <= addr < self.base + self.size
    }

    pub open spec fn spec_to_offset(&self, addr: int) -> int {
        addr - self.base
    }

    pub open spec fn spec_from_offset(&self, off: int) -> int {
        self.base + off
    }

    pub fn new(base: usize, size: usize) -> (r: Region)
        requires
            base + size <= usize::MAX,
        ensures
            r.base == base,
            r.size == size,
            r.wf(),
    {
        Region { base, size }
    }

    /// Translate an in-region address to its byte offset from the base.
    pub fn to_offset(&self, addr: usize) -> (off: usize)
        requires
            self.spec_contains(addr as int),
        ensures
            off == self.spec_to_offset(addr as int),
            off < self.size,
    {
        addr - self.base
    }

    /// Translate a byte offset back to an address in this mapping.
    pub fn from_offset(&self, off: usize) -> (addr: usize)
        requires
            self.wf(),
            off < self.size,
        ensures
            addr == self.spec_from_offset(off as int),
            self.spec_contains(addr as int),
    {
        self.base + off
    }
}

/// Translating an in-region address to an offset and back yields the original
/// address exactly, and likewise starting from an offset.
pub proof fn lemma_offset_round_trip(r: Region, addr: int, off: int)
    requires
        r.wf(),
        r.spec_contains(addr),
        0 <= off < r.size,
    ensures
        r.spec_from_offset(r.spec_to_offset(addr)) == addr,
        r.spec_to_offset(r.spec_from_offset(off)) == off,
{
}

/// The least multiple of `alignment` that is at least `val`.
pub open spec fn spec_align_up(val: int, alignment: int) -> int
    recommends
        alignment >= 1,
{
    if val % alignment == 0 {
        val
    } else {
        val + alignment - val % alignment
    }
}

/// Round `val` up to a multiple of `alignment`.
pub fn align(unaligned_val: usize, alignment: usize) -> (r: usize)
    requires
        alignment >= 1,
        unaligned_val + alignment - 1 <= usize::MAX,
    ensures
        r == spec_align_up(unaligned_val as int, alignment as int),
        r % alignment == 0,
        unaligned_val <= r < unaligned_val + alignment,
{
    let rem: usize = unaligned_val % alignment;
    if rem == 0 {
        unaligned_val
    } else {
        proof {
            lemma_align_up_multiple(unaligned_val as int, alignment as int);
        }
        unaligned_val + (alignment - rem)
    }
}

proof fn lemma_align_up_multiple(val: int, alignment: int)
    requires
        alignment >= 1,
        val >= 0,
        val % alignment != 0,
    ensures
        (val + alignment - val % alignment) % alignment == 0,
{
    vstd::arithmetic::div_mod::lemma_fundamental_div_mod(val, alignment);
    assert(val + alignment - val % alignment == (val / alignment + 1) * alignment)
        by (nonlinear_arith)
        requires
            val == alignment * (val / alignment) + val % alignment,
    ;
    vstd::arithmetic::div_mod::lemma_mod_multiples_basic(val / alignment + 1, alignment);
}

/// A bump allocator scoped to one offset region: it hands out disjoint,
/// aligned byte ranges as offsets, low to high, and never recycles them.
pub struct BumpAllocator {
    /// Total bytes of the region this allocator is scoped to.
    pub size: usize,
    /// Offset of the first byte not yet handed out.
    pub next: usize,
}

impl BumpAllocator {
    pub open spec fn wf(&self) -> bool {
        self.next <= self.size
    }

    pub fn new(size: usize) -> (a: BumpAllocator)
        ensures
            a.size == size,
            a.next == 0,
            a.wf(),
    {
        BumpAllocator { size, next: 0 }
    }

    /// Hand out `len` bytes at the next `alignment`-aligned offset, or report
    /// exhaustion.  The region never grows: a range that does not fit is
    /// refused.
    pub fn allocate(&mut self, len: usize, alignment: usize) -> (r: Option<usize>)
        requires
            old(self).wf(),
            alignment >= 1,
        ensures
            final(self).wf(),
            final(self).size == old(self).size,
            match r {
                Some(off) => {
                    &&& off == spec_align_up(old(self).next as int, alignment as int)
                    &&& off as int % alignment as int == 0
                    &&& old(self).next <= off
                    &&& off + len <= old(self).size
                    &&& final(self).next == off + len
                },
                None => {
                    &&& spec_align_up(old(self).next as int, alignment as int) + len
                        > old(self).size
                    &&& final(self).next == old(self).next
                },
            },
    {
        let rem: usize = self.next % alignment;
        let pad: usize = if rem == 0 {
            0
        } else {
            proof {
                lemma_align_up_multiple(self.next as int, alignment as int);
            }
            alignment - rem
        };
        if pad > self.size - self.next {
            return None;
        }
        let off: usize = self.next + pad;
        if len > self.size - off {
            return None;
        }
        self.next = off + len;
        Some(off)
    }
}

/// The value of a byte sequence read as a little-endian integer.
pub open spec fn le_word_value(bs: Seq<u8>) -> nat
    decreases bs.len(),
{
    if bs.len() == 0 {
        0
    } else {
        (bs[0] + 256 * le_word_value(bs.subrange(1, bs.len() as int))) as nat
    }
}

/// 256 raised to `n`: the number of values a `n`-byte word can take.
pub open spec fn pow256(n: nat) -> nat
    decreases n,
{
    if n == 0 {
        1
    } else {
        256 * pow256((n - 1) as nat)
    }
}

pub proof fn lemma_le_word_value_bound(bs: Seq<u8>)
    ensures
        le_word_value(bs) < pow256(bs.len()),
    decreases bs.len(),
{
    if bs.len() > 0 {
        let rest = bs.subrange(1, bs.len() as int);
        lemma_le_word_value_bound(rest);
        assert(bs[0] + 256 * le_word_value(rest) < 256 * pow256(rest.len()))
            by (nonlinear_arith)
            requires
                bs[0] < 256,
                le_word_value(rest) < pow256(rest.len()),
        ;
    }
}

proof fn lemma_pow256_pos(n: nat)
    ensures
        pow256(n) >= 1,
    decreases n,
{
    if n > 0 {
        lemma_pow256_pos((n - 1) as nat);
    }
}

proof fn lemma_le_word_value_push(s: Seq<u8>, b: u8)
    ensures
        le_word_value(s.push(b)) == le_word_value(s) + b * pow256(s.len()),
    decreases s.len(),
{
    if s.len() == 0 {
        assert(s.push(b).subrange(1, 1) =~= Seq::<u8>::empty());
        assert(le_word_value(s.push(b).subrange(1, 1)) == 0);
        assert(le_word_value(s.push(b)) == b);
        assert(le_word_value(s) == 0);
        assert(pow256(s.len()) == 1);
        assert(b * pow256(s.len()) == b) by (nonlinear_arith)
            requires
                pow256(s.len()) == 1,
        ;
    } else {
        let rest = s.subrange(1, s.len() as int);
        assert(s.push(b).subrange(1, s.len() as int + 1) =~= rest.push(b));
        lemma_le_word_value_push(rest, b);
        assert(le_word_value(s.push(b)) == s[0] + 256 * le_word_value(rest.push(b)));
        assert(le_word_value(rest.push(b)) == le_word_value(rest) + b * pow256(rest.len()));
        assert(256 * (le_word_value(rest) + b * pow256(rest.len())) == 256 * le_word_value(
            rest,
        ) + b * (256 * pow256(rest.len()))) by (nonlinear_arith);
        assert(le_word_value(s) == s[0] + 256 * le_word_value(rest));
        assert(pow256(s.len()) == 256 * pow256(rest.len()));
        assert(b * pow256(s.len()) == b * (256 * pow256(rest.len())));
        assert(le_word_value(s.push(b)) == le_word_value(s) + b * pow256(s.len()));
    }
}

/// The contiguous byte range shared between host and isolated domain.
///
/// The host owns it exclusively during setup, fills it, and hands it to the
/// domain at start; ownership transfers back when the domain returns.  All
/// addressing inside it is by byte offset.
pub struct SharedRegion {
    /// The bytes of the range; its length is the region size.
    pub data: Vec<u8>,
}

impl SharedRegion {
    pub open spec fn view(&self) -> Seq<u8> {
        self.data@
    }

    /// A fresh zeroed region of `size` bytes.
    pub fn new(size: usize) -> (r: SharedRegion)
        ensures
            r@.len() == size,
            forall|i: int| 0 <= i < size ==> r@[i] == 0u8,
    {
        let mut data: Vec<u8> = Vec::new();
        let mut i: usize = 0;
        while i < size
            invariant
                i <= size,
                data@.len() == i,
                forall|j: int| 0 <= j < i ==> data@[j] == 0u8,
            decreases size - i,
        {
            data.push(0);
            i = i + 1;
        }
        SharedRegion { data }
    }

    pub fn size(&self) -> (n: usize)
        ensures
            n == self@.len(),
    {
        self.data.len()
    }

    /// Copy `src` into the region at byte offset `off`.
    pub fn write_bytes(&mut self, off: usize, src: &Vec<u8>)
        requires
            off + src@.len() <= old(self)@.len(),
        ensures
            final(self)@.len() == old(self)@.len(),
            final(self)@.subrange(off as int, off + src@.len()) =~= src@,
            forall|j: int|
                0 <= j < old(self)@.len() && !(off <= j < off + src@.len())
                    ==> final(self)@[j] == old(self)@[j],
    {
        let n: usize = src.len();
        let sz: usize = self.data.len();
        let mut i: usize = 0;
        while i < n
            invariant
                i <= n,
                off + n <= sz,
                sz == self@.len(),
                self@.len() == old(self)@.len(),
                n == src@.len(),
                forall|j: int| 0 <= j < i ==> self@[off + j] == src@[j],
                forall|j: int|
                    0 <= j < old(self)@.len() && !(off <= j < off + n) ==> self@[j] == old(
                        self,
                    )@[j],
            decreases n - i,
        {
            self.data[off + i] = src[i];
            i = i + 1;
        }
    }

    /// Copy `len` bytes out of the region, starting at byte offset `off`.
    pub fn read_bytes(&self, off: usize, len: usize) -> (r: Vec<u8>)
        requires
            off + len <= self@.len(),
        ensures
            r@ =~= self@.subrange(off as int, off + len),
    {
        let mut r: Vec<u8> = Vec::new();
        let sz: usize = self.data.len();
        let mut i: usize = 0;
        while i < len
            invariant
                i <= len,
                off + len <= sz,
                sz == self@.len(),
                r@.len() == i,
                forall|j: int| 0 <= j < i ==> r@[j] == self@[off + j],
            decreases len - i,
        {
            r.push(self.data[off + i]);
            i = i + 1;
        }
        r
    }

    /// Write `w` as eight little-endian bytes at byte offset `off`.
    pub fn write_word(&mut self, off: usize, w: u64)
        requires
            off + 8 <= old(self)@.len(),
        ensures
            final(self)@.len() == old(self)@.len(),
            le_word_value(final(self)@.subrange(off as int, off + 8)) == w,
            forall|j: int|
                0 <= j < old(self)@.len() && !(off <= j < off + 8) ==> final(self)@[j] == old(
                    self,
                )@[j],
    {
        let mut cur: u64 = w;
        let sz: usize = self.data.len();
        let mut i: usize = 0;
        proof {
            assert(old(self)@.subrange(off as int, off as int) =~= Seq::<u8>::empty());
            assert(cur * pow256(0) == cur * 1);
        }
        while i < 8
            invariant
                i <= 8,
                off + 8 <= sz,
                sz == self@.len(),
                self@.len() == old(self)@.len(),
                le_word_value(self@.subrange(off as int, off + i)) + cur * pow256(i as nat)
                    == w,
                forall|j: int|
                    0 <= j < old(self)@.len() && !(off <= j < off + i) ==> self@[j] == old(
                        self,
                    )@[j],
            decreases 8 - i,
        {
            let b: u8 = (cur % 256) as u8;
            let ghost prefix = self@.subrange(off as int, off + i);
            self.data[off + i] = b;
            let next: u64 = cur / 256;
            proof {
                let p: int = pow256(i as nat) as int;
                assert(self@.subrange(off as int, off + i + 1) =~= prefix.push(b));
                lemma_le_word_value_push(prefix, b);
                assert(pow256((i + 1) as nat) == 256 * pow256(i as nat));
                assert(cur == 256 * next + b);
                assert((b + 256 * (next as int)) * p == b * p + (next as int) * (256 * p))
                    by (nonlinear_arith);
                assert(cur * p == (b + 256 * (next as int)) * p);
            }
            cur = next;
            i = i + 1;
        }
        proof {
            lemma_pow256_pos(8);
            lemma_pow256_value();
            if cur > 0 {
                assert(cur * pow256(8) >= pow256(8)) by (nonlinear_arith)
                    requires
                        cur >= 1,
                        pow256(8) >= 1,
                ;
                assert(false);
            }
            assert(cur * pow256(8) == 0);
        }
    }

    /// Read eight bytes at byte offset `off` as a little-endian word.
    pub fn read_word(&self, off: usize) -> (w: u64)
        requires
            off + 8 <= self@.len(),
        ensures
            w == le_word_value(self@.subrange(off as int, off + 8)),
    {
        read_le_word(&self.data, off)
    }
}

/// Read eight bytes of `data` at index `off` as a little-endian word.
pub fn read_le_word(data: &Vec<u8>, off: usize) -> (w: u64)
    requires
        off + 8 <= data@.len(),
    ensures
        w == le_word_value(data@.subrange(off as int, off + 8)),
{
    let mut acc: u64 = 0;
    let sz: usize = data.len();
    let mut i: usize = 8;
    proof {
        assert(data@.subrange(off + 8, off + 8) =~= Seq::<u8>::empty());
    }
    while i > 0
        invariant
            i <= 8,
            off + 8 <= sz,
            sz == data@.len(),
            acc == le_word_value(data@.subrange(off + i, off + 8)),
        decreases i,
    {
        let ghost suffix = data@.subrange(off + i, off + 8);
        proof {
            lemma_le_word_value_bound(suffix);
            lemma_pow256_monotone((8 - i) as nat, 7);
            assert(pow256(8) == 256 * pow256(7));
            assert(acc * 256 + 255 < pow256(8)) by (nonlinear_arith)
                requires
                    acc < pow256(7),
                    pow256(8) == 256 * pow256(7),
            ;
            lemma_pow256_value();
        }
        let b: u8 = data[off + i - 1];
        acc = acc * 256 + (b as u64);
        i = i - 1;
        proof {
            let longer = data@.subrange(off + i, off + 8);
            assert(longer.subrange(1, longer.len() as int) =~= suffix);
            assert(longer[0] == data@[off + i]);
        }
    }
    acc
}

proof fn lemma_pow256_monotone(a: nat, b: nat)
    requires
        a <= b,
    ensures
        pow256(a) <= pow256(b),
    decreases b,
{
    if a < b {
        lemma_pow256_monotone(a, (b - 1) as nat);
    }
}

proof fn lemma_pow256_value()
    ensures
        pow256(8) == 0x1_0000_0000_0000_0000,
{
    reveal_with_fuel(pow256, 9);
}

} // verus!
