//! The sex-rt runtime: the bump heap's arithmetic and its expansion protocol, and the
//! byte-buffer primitives (copy, fill, compare, overlapping move).
use vstd::prelude::*;

verus! {

/// First address of the user heap.
pub const HEAP_START_VADDR: u64 = 0x4000_0000_0000;
/// Heap growth is counted in pages of this size.
pub const PAGE_SIZE: u64 = 4096;
/// Bytes mapped when the heap is first set up.
pub const INITIAL_HEAP: u64 = 65536;

/// `align` is a power of two.
pub open spec fn is_pow2(align: u64) -> bool {
    align > 0 && align & ((align - 1) as u64) == 0
}

/// `addr` rounded up by clearing the low bits of `addr + align - 1`.
pub open spec fn spec_align_up(addr: u64, align: u64) -> u64 {
    ((addr + align - 1) as u64) & !((align - 1) as u64)
}

/// Rounds `addr` up to a multiple of the power of two `align`.
pub fn align_up(addr: u64, align: u64) -> (r: u64)
    requires
        is_pow2(align),
        addr + align - 1 <= u64::MAX,
    ensures
        r == spec_align_up(addr, align),
        addr <= r,
        r - addr < align,
        r & ((align - 1) as u64) == 0,
{
    let m: u64 = align - 1;
    let x: u64 = addr + m;
    let r: u64 = x & !m;
    assert(r <= x && x - r == x & m && x & m <= m) by (bit_vector)
        requires
            r == x & !m,
    ;
    assert(r & m == 0) by (bit_vector)
        requires
            r == x & !m,
    ;
    r
}

/// Where a heap expansion stands: a system call the caller must make, or the outcome.
#[derive(Debug, Clone, Copy, PartialEq, Eq, Structural)]
pub enum ExpandStep {
    /// Ask the kernel for `size` bytes of memory; its frame number comes back.
    Allocate { size: u64 },
    /// Map `size` bytes at frame `pfn`; the address comes back.
    MapPages { pfn: u64, size: u64 },
    /// The heap grew from `start`, or (`None`) it could not.
    Done { start: Option<u64> },
}

/// What a bump allocation needs.
#[derive(Debug, Clone, Copy, PartialEq, Eq, Structural)]
pub enum BumpOutcome {
    /// Zero bytes were asked for: the null pointer.
    Null,
    /// The block starts at this address.
    Allocated(u64),
    /// The heap must grow by at least this many bytes first.
    NeedsExpansion(u64),
}

/// The bump heap: the next free address and the end of the mapped range (both 0
/// before the heap is set up).
pub struct HeapState {
    pub top: u64,
    pub limit: u64,
}

/// The address a heap expansion starts at.
pub open spec fn expansion_start(limit: u64) -> u64 {
    if limit == 0 {
        HEAP_START_VADDR
    } else {
        limit
    }
}

/// `needed` rounded up to whole pages.
pub open spec fn page_round(needed: u64) -> int {
    ((needed + 4095) / 4096) * 4096
}

impl HeapState {
    /// The free address never passes the mapped end; both are set together.
    pub open spec fn wf(&self) -> bool {
        &&& self.top <= self.limit
        &&& (self.top == 0 <==> self.limit == 0)
    }

    pub fn new() -> (h: Self)
        ensures
            h.wf(),
            h.top == 0,
            h.limit == 0,
    {
        HeapState { top: 0, limit: 0 }
    }

    /// First step of growing the heap by `needed` bytes (rounded up to pages).
    pub fn expand_begin(&self, needed: u64) -> (s: ExpandStep)
        requires
            needed + 4095 <= u64::MAX,
        ensures
            s == (ExpandStep::Allocate { size: page_round(needed) as u64 }),
    {
        assert(4096u64 & ((4096u64 - 1) as u64) == 0) by (bit_vector);
        let size = align_up(needed, PAGE_SIZE);
        assert(size % 4096 == 0) by (bit_vector)
            requires
                size & 4095 == 0,
        ;
        assert(size == page_round(needed)) by (nonlinear_arith)
            requires
                needed <= size,
                size - needed < 4096,
                size % 4096 == 0,
        ;
        ExpandStep::Allocate { size }
    }

    /// The step after the kernel answered `reply` to `step`: a failed allocation or
    /// mapping (answer `u64::MAX`) ends the expansion without growing the heap; a
    /// successful mapping moves the heap's end past the new pages and, on the first
    /// expansion, sets the free address to their start.
    pub fn expand_advance(&mut self, step: ExpandStep, reply: u64) -> (s: ExpandStep)
        requires
            old(self).wf(),
            step matches ExpandStep::MapPages { size, .. } ==> expansion_start(old(self).limit) + size
                <= u64::MAX,
        ensures
            match step {
                ExpandStep::Allocate { size } => if reply == u64::MAX {
                    s == (ExpandStep::Done { start: None }) && *final(self) == *old(self)
                } else {
                    s == (ExpandStep::MapPages { pfn: reply, size }) && *final(self) == *old(self)
                },
                ExpandStep::MapPages { pfn, size } => if reply == u64::MAX {
                    s == (ExpandStep::Done { start: None }) && *final(self) == *old(self)
                } else {
                    let start = expansion_start(old(self).limit);
                    &&& s == (ExpandStep::Done { start: Some(start) })
                    &&& final(self).limit == start + size
                    &&& final(self).top == (if old(self).top == 0 {
                        start
                    } else {
                        old(self).top
                    })
                },
                ExpandStep::Done { start } => s == step && *final(self) == *old(self),
            },
    {
        match step {
            ExpandStep::Allocate { size } => {
                if reply == u64::MAX {
                    ExpandStep::Done { start: None }
                } else {
                    ExpandStep::MapPages { pfn: reply, size }
                }
            },
            ExpandStep::MapPages { pfn, size } => {
                if reply == u64::MAX {
                    return ExpandStep::Done { start: None };
                }
                let start = if self.limit == 0 {
                    HEAP_START_VADDR
                } else {
                    self.limit
                };
                self.limit = start + size;
                if self.top == 0 {
                    self.top = start;
                }
                ExpandStep::Done { start: Some(start) }
            },
            ExpandStep::Done { start } => ExpandStep::Done { start },
        }
    }

    /// One attempt at a bump allocation of `size` bytes aligned to `align`: zero
    /// bytes give the null pointer; an unset heap, or a block that would pass the
    /// mapped end, asks for `size + align` more bytes; otherwise the block is taken.
    pub fn try_bump(&mut self, size: u64, align: u64) -> (r: BumpOutcome)
        requires
            old(self).wf(),
            is_pow2(align),
            old(self).limit + size + align <= u64::MAX,
        ensures
            final(self).wf(),
            size == 0 ==> r == BumpOutcome::Null && *final(self) == *old(self),
            size != 0 && old(self).top == 0 ==> r == BumpOutcome::NeedsExpansion((size + align) as u64)
                && *final(self) == *old(self),
            size != 0 && old(self).top != 0 ==> {
                let a = spec_align_up(old(self).top, align);
                if a + size > old(self).limit {
                    r == BumpOutcome::NeedsExpansion((size + align) as u64) && *final(self) == *old(self)
                } else {
                    &&& r == BumpOutcome::Allocated(a)
                    &&& final(self).top == a + size
                    &&& final(self).limit == old(self).limit
                }
            },
    {
        if size == 0 {
            return BumpOutcome::Null;
        }
        if self.top == 0 {
            return BumpOutcome::NeedsExpansion(size + align);
        }
        let aligned = align_up(self.top, align);
        let next = aligned + size;
        if next > self.limit {
            return BumpOutcome::NeedsExpansion(size + align);
        }
        self.top = next;
        BumpOutcome::Allocated(aligned)
    }
}

/// The runtime's global allocator: a bump heap that never reclaims.
pub struct SimpleAllocator {
    pub heap: HeapState,
}

impl SimpleAllocator {
    /// An allocator whose heap is not set up yet.
    pub fn new() -> (a: Self)
        ensures
            a.heap.wf(),
            a.heap.top == 0,
            a.heap.limit == 0,
    {
        SimpleAllocator { heap: HeapState::new() }
    }

    /// One attempt at allocating `size` bytes aligned to `align`, as `try_bump` makes
    /// it; the caller grows the heap and retries when asked to.
    pub fn allocate(&mut self, size: u64, align: u64) -> (r: BumpOutcome)
        requires
            old(self).heap.wf(),
            is_pow2(align),
            old(self).heap.limit + size + align <= u64::MAX,
        ensures
            final(self).heap.wf(),
            size == 0 ==> r == BumpOutcome::Null && final(self).heap == old(self).heap,
            size != 0 && old(self).heap.top == 0 ==> r == BumpOutcome::NeedsExpansion((size + align) as u64)
                && final(self).heap == old(self).heap,
            size != 0 && old(self).heap.top != 0 ==> {
                let a = spec_align_up(old(self).heap.top, align);
                if a + size > old(self).heap.limit {
                    r == BumpOutcome::NeedsExpansion((size + align) as u64) && final(self).heap == old(self).heap
                } else {
                    &&& r == BumpOutcome::Allocated(a)
                    &&& final(self).heap.top == a + size
                    &&& final(self).heap.limit == old(self).heap.limit
                }
            },
    {
        self.heap.try_bump(size, align)
    }

    /// Frees nothing: a bump heap does not reclaim blocks.
    pub fn dealloc(&mut self, addr: u64, size: u64)
        ensures
            final(self).heap == old(self).heap,
    {
    }
}

/// The first step of setting up the heap: an expansion by 64 KiB.
pub fn heap_init(heap: &HeapState) -> (s: ExpandStep)
    ensures
        s == (ExpandStep::Allocate { size: INITIAL_HEAP }),
{
    let s = heap.expand_begin(INITIAL_HEAP);
    proof {
        assert(page_round(65536) == 65536);
    }
    s
}

// ---------------------------------------------------------------------------
// Byte buffers
// ---------------------------------------------------------------------------

/// Copies the first `n` bytes of `src` to `dest`.
pub fn memcpy(dest: &mut [u8], src: &[u8], n: usize)
    requires
        n <= old(dest)@.len(),
        n <= src@.len(),
    ensures
        final(dest)@ == src@.take(n as int) + old(dest)@.skip(n as int),
{
    let mut i: usize = 0;
    while i < n
        invariant
            i <= n,
            n <= dest@.len(),
            n <= src@.len(),
            dest@.len() == old(dest)@.len(),
            forall|k: int| 0 <= k < i ==> dest@[k] == src@[k],
            forall|k: int| i <= k < dest@.len() ==> dest@[k] == old(dest)@[k],
        decreases n - i,
    {
        dest[i] = src[i];
        i += 1;
    }
    proof {
        assert(dest@ =~= src@.take(n as int) + old(dest)@.skip(n as int));
    }
}

/// Sets the first `n` bytes of `s` to the low byte of `c`.
pub fn memset(s: &mut [u8], c: i32, n: usize)
    requires
        n <= old(s)@.len(),
    ensures
        final(s)@.len() == old(s)@.len(),
        forall|k: int| 0 <= k < n ==> final(s)@[k] == (c as u8),
        forall|k: int| n <= k < old(s)@.len() ==> final(s)@[k] == old(s)@[k],
{
    let b: u8 = c as u8;
    let mut i: usize = 0;
    while i < n
        invariant
            i <= n,
            n <= s@.len(),
            b == c as u8,
            s@.len() == old(s)@.len(),
            forall|k: int| 0 <= k < i ==> s@[k] == b,
            forall|k: int| i <= k < s@.len() ==> s@[k] == old(s)@[k],
        decreases n - i,
    {
        s[i] = b;
        i += 1;
    }
}

/// The first difference between the first `n` bytes of two buffers, from index `i`
/// on: the first byte less the second; 0 when they agree.
pub open spec fn first_difference(a: Seq<u8>, b: Seq<u8>, n: int, i: int) -> i32
    decreases n - i,
{
    if i >= n || i < 0 {
        0
    } else if a[i] != b[i] {
        (a[i] - b[i]) as i32
    } else {
        first_difference(a, b, n, i + 1)
    }
}

/// The first difference of the first `n` bytes, from index `i` on.
pub open spec fn difference_from(a: Seq<u8>, b: Seq<u8>, n: usize, i: usize) -> i32 {
    first_difference(a, b, n as int, i as int)
}

/// `a - b` as a signed number.
fn byte_difference(a: u8, b: u8) -> (r: i32)
    ensures
        r == a - b,
{
    (a as i32) - (b as i32)
}

/// Compares the first `n` bytes of `s1` and `s2`.
pub fn memcmp(s1: &[u8], s2: &[u8], n: usize) -> (r: i32)
    requires
        n <= s1@.len(),
        n <= s2@.len(),
    ensures
        r == difference_from(s1@, s2@, n, 0),
{
    let mut i: usize = 0;
    while i < n
        invariant
            i <= n,
            n <= s1@.len(),
            n <= s2@.len(),
            difference_from(s1@, s2@, n, 0) == difference_from(s1@, s2@, n, i),
        decreases n - i,
    {
        let a = s1[i];
        let b = s2[i];
        if a != b {
            return byte_difference(a, b);
        }
        i += 1;
    }
    0
}

/// Moves `n` bytes from offset `src` to offset `dest` of `buf`; the ranges may
/// overlap.
pub fn memmove(buf: &mut [u8], dest: usize, src: usize, n: usize)
    requires
        dest + n <= old(buf)@.len(),
        src + n <= old(buf)@.len(),
    ensures
        final(buf)@.len() == old(buf)@.len(),
        final(buf)@.subrange(dest as int, dest + n) == old(buf)@.subrange(src as int, src + n),
        forall|k: int| 0 <= k < old(buf)@.len() && !(dest <= k < dest + n) ==> final(buf)@[k] == old(buf)@[k],
{
    let total: usize = buf.len();
    if dest < src {
        let mut i: usize = 0;
        while i < n
            invariant
                i <= n,
                dest < src,
                dest + n <= buf@.len(),
                src + n <= buf@.len(),
                buf@.len() == old(buf)@.len(),
                buf@.len() == total,
                forall|k: int| dest <= k < dest + i ==> #[trigger] buf@[k] == old(buf)@[k - dest + src],
                forall|k: int| 0 <= k < buf@.len() && !(dest <= k < dest + i) ==> buf@[k] == old(buf)@[k],
            decreases n - i,
        {
            let v = buf[src + i];
            buf[dest + i] = v;
            i += 1;
        }
    } else {
        let mut i: usize = n;
        while i > 0
            invariant
                i <= n,
                dest >= src,
                dest + n <= buf@.len(),
                src + n <= buf@.len(),
                buf@.len() == old(buf)@.len(),
                buf@.len() == total,
                forall|k: int| dest + i <= k < dest + n ==> #[trigger] buf@[k] == old(buf)@[k - dest + src],
                forall|k: int| 0 <= k < buf@.len() && !(dest + i <= k < dest + n) ==> buf@[k] == old(buf)@[k],
            decreases i,
        {
            i -= 1;
            let v = buf[src + i];
            buf[dest + i] = v;
        }
    }
    proof {
        assert(buf@.subrange(dest as int, dest + n) =~= old(buf)@.subrange(src as int, src + n));
    }
}

// ---------------------------------------------------------------------------
// Laws
// ---------------------------------------------------------------------------

/// Rounding up to a power of two moves an address forward by less than the
/// alignment, onto a multiple of it.
pub proof fn lemma_align_up(addr: u64, align: u64)
    requires
        is_pow2(align),
        addr + align - 1 <= u64::MAX,
    ensures
        addr <= spec_align_up(addr, align),
        spec_align_up(addr, align) - addr < align,
        spec_align_up(addr, align) & ((align - 1) as u64) == 0,
{
    let m: u64 = (align - 1) as u64;
    let x: u64 = (addr + m) as u64;
    let r: u64 = x & !m;
    assert(r <= x && x - r == x & m && x & m <= m) by (bit_vector)
        requires
            r == x & !m,
    ;
    assert(r & m == 0) by (bit_vector)
        requires
            r == x & !m,
    ;
}

/// Two bump allocations in a row never overlap: the second block starts at or
/// after the end of the first, and each starts on its alignment.
pub proof fn law_bumps_disjoint(top: u64, size1: u64, align1: u64, size2: u64, align2: u64)
    requires
        is_pow2(align1),
        is_pow2(align2),
        top + align1 - 1 + size1 + align2 - 1 + size2 <= u64::MAX,
    ensures
        ({
            let b1 = spec_align_up(top, align1);
            let b2 = spec_align_up((b1 + size1) as u64, align2);
            &&& top <= b1
            &&& b1 + size1 <= b2
            &&& b1 & ((align1 - 1) as u64) == 0
            &&& b2 & ((align2 - 1) as u64) == 0
        }),
{
    lemma_align_up(top, align1);
    let b1 = spec_align_up(top, align1);
    lemma_align_up((b1 + size1) as u64, align2);
}

} // verus!
