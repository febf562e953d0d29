//! A first-fit allocator over a fixed range of memory, in blocks of 32 bytes.
//!
//! An allocation takes the lowest run of free blocks that is long enough, so
//! memory that was given back is the first to be handed out again.

use vstd::prelude::*;

verus! {

/// Bytes in a block.
pub const BLOCK_BYTES: usize = 32;

/// Whether the `n` blocks from `i` on exist and are all free.
pub open spec fn fits_at(taken: Seq<bool>, i: int, n: int) -> bool {
    &&& 0 <= i
    &&& i + n <= taken.len()
    &&& forall|j: int| i <= j < i + n ==> !#[trigger] taken[j]
}

/// Whether `i` is the lowest place at which `n` blocks fit.
pub open spec fn is_first_fit(taken: Seq<bool>, i: int, n: int) -> bool {
    &&& fits_at(taken, i, n)
    &&& forall|k: int| 0 <= k < i ==> !#[trigger] fits_at(taken, k, n)
}

/// Whether `n` blocks fit nowhere.
pub open spec fn no_fit(taken: Seq<bool>, n: int) -> bool {
    forall|k: int| 0 <= k ==> !#[trigger] fits_at(taken, k, n)
}

/// Whether `n` blocks fit somewhere.
pub open spec fn can_fit(taken: Seq<bool>, n: int) -> bool {
    exists|k: int| #[trigger] fits_at(taken, k, n)
}

/// The lowest place at which `n` blocks fit, if they fit somewhere.
pub open spec fn first_fit(taken: Seq<bool>, n: int) -> int {
    choose|i: int| is_first_fit(taken, i, n)
}

/// There is one lowest place at most, and `first_fit` is it.
pub proof fn lemma_first_fit(taken: Seq<bool>, i: int, n: int)
    requires
        is_first_fit(taken, i, n),
    ensures
        first_fit(taken, n) == i,
        can_fit(taken, n),
{
    let j = first_fit(taken, n);
    assert(is_first_fit(taken, j, n));
    if j < i {
        assert(!fits_at(taken, j, n));
    }
    if i < j {
        assert(!fits_at(taken, i, n));
    }
}

/// Below any place at which `n` blocks fit there is a lowest one.
proof fn lemma_least_fit(taken: Seq<bool>, k: int, n: int)
    requires
        fits_at(taken, k, n),
    ensures
        exists|i: int| is_first_fit(taken, i, n),
    decreases k,
{
    if exists|j: int| 0 <= j < k && fits_at(taken, j, n) {
        let j = choose|j: int| 0 <= j < k && fits_at(taken, j, n);
        lemma_least_fit(taken, j, n);
    } else {
        assert(is_first_fit(taken, k, n));
    }
}

/// If `n` blocks fit somewhere, `first_fit` is the lowest place at which
/// they do, and it lies within the range.
pub proof fn lemma_first_fit_exists(taken: Seq<bool>, n: int)
    requires
        can_fit(taken, n),
    ensures
        is_first_fit(taken, first_fit(taken, n), n),
{
    let k = choose|k: int| #[trigger] fits_at(taken, k, n);
    lemma_least_fit(taken, k, n);
}

/// `taken` with the blocks of `i..i + n` that exist marked as `state`.
pub open spec fn marked(taken: Seq<bool>, i: int, n: int, state: bool) -> Seq<bool> {
    Seq::new(
        taken.len(),
        |j: int|
            if i <= j < i + n {
                state
            } else {
                taken[j]
            },
    )
}

/// A range of memory in blocks of 32 bytes, each free or allocated.
pub struct BlockAllocator {
    start: usize,
    used: Vec<bool>,
}

impl BlockAllocator {
    /// Address of the first block.
    pub closed spec fn base(&self) -> usize {
        self.start
    }

    /// Block by block, whether it is allocated.
    pub closed spec fn taken(&self) -> Seq<bool> {
        self.used@
    }

    /// The range ends within the address space.
    pub open spec fn wf(&self) -> bool {
        self.base() + BLOCK_BYTES * self.taken().len() <= usize::MAX
    }

    /// An allocator over the `blocks` blocks from address `start` on, all
    /// free.
    pub fn new(start: usize, blocks: usize) -> (allocator: Self)
        requires
            start + BLOCK_BYTES * blocks <= usize::MAX,
        ensures
            allocator.wf(),
            allocator.base() == start,
            allocator.taken() == Seq::new(blocks as nat, |j: int| false),
    {
        let mut used: Vec<bool> = Vec::new();
        let mut i: usize = 0;
        while i < blocks
            invariant
                i <= blocks,
                used@ == Seq::new(i as nat, |j: int| false),
            decreases blocks - i,
        {
            used.push(false);
            assert(used@ =~= Seq::new((i + 1) as nat, |j: int| false));
            i += 1;
        }
        BlockAllocator { start, used }
    }

    /// Number of blocks in the range.
    pub fn blocks(&self) -> (n: usize)
        ensures
            n == self.taken().len(),
    {
        self.used.len()
    }

    /// Whether the `n` blocks from `i` on exist and are all free.
    fn check_fits_at(&self, i: usize, n: usize) -> (fits: bool)
        requires
            i + n <= usize::MAX,
        ensures
            fits == fits_at(self.taken(), i as int, n as int),
    {
        if i + n > self.used.len() {
            return false;
        }
        let end = i + n;
        let mut j: usize = i;
        while j < end
            invariant
                i <= j <= end <= self.used@.len(),
                end == i + n,
                forall|k: int| i <= k < j ==> !#[trigger] self.used@[k],
            decreases end - j,
        {
            if self.used[j] {
                return false;
            }
            j += 1;
        }
        true
    }

    /// Marks the blocks of `i..i + n` as `state`.
    fn mark(&mut self, i: usize, n: usize, state: bool)
        requires
            i + n <= old(self).taken().len(),
        ensures
            final(self).taken() == marked(old(self).taken(), i as int, n as int, state),
            final(self).base() == old(self).base(),
    {
        let total = self.used.len();
        assert(i + n <= total);
        let end = i + n;
        let mut j: usize = i;
        while j < end
            invariant
                i <= j <= end <= self.used@.len(),
                end == i + n,
                self.used@.len() == old(self).used@.len(),
                self.start == old(self).start,
                self.used@ == marked(old(self).used@, i as int, j - i, state),
            decreases end - j,
        {
            self.used.set(j, state);
            assert(self.used@ =~= marked(old(self).used@, i as int, j + 1 - i, state));
            j += 1;
        }
        assert(self.used@ =~= marked(old(self).used@, i as int, n as int, state));
    }

    /// Allocates `size` bytes: the lowest run of free blocks that holds them.
    /// Hands back the address of the run, or nothing if no run is long
    /// enough.
    pub fn allocate(&mut self, size: usize) -> (address: Option<usize>)
        requires
            old(self).wf(),
            size > 0,
            size % BLOCK_BYTES == 0,
        ensures
            final(self).wf(),
            final(self).base() == old(self).base(),
            address is Some == can_fit(old(self).taken(), size as int / (BLOCK_BYTES as int)),
            address is Some ==> {
                let n = size as int / (BLOCK_BYTES as int);
                let i = first_fit(old(self).taken(), n);
                &&& is_first_fit(old(self).taken(), i, n)
                &&& address->0 == old(self).base() + BLOCK_BYTES * i
                &&& final(self).taken() == marked(old(self).taken(), i, n, true)
            },
            address is None ==> final(self).taken() == old(self).taken(),
    {
        let n = size / BLOCK_BYTES;
        let total = self.used.len();
        if n > total {
            assert(no_fit(self.taken(), n as int));
            return None;
        }
        let last = total - n;
        let mut i: usize = 0;
        while i <= last
            invariant
                n <= total,
                last == total - n,
                total == self.used@.len(),
                *self == *old(self),
                self.wf(),
                n == size as int / (BLOCK_BYTES as int),
                forall|k: int| 0 <= k < i ==> !#[trigger] fits_at(self.taken(), k, n as int),
            decreases last + 1 - i,
        {
            if self.check_fits_at(i, n) {
                proof {
                    lemma_first_fit(self.taken(), i as int, n as int);
                }
                self.mark(i, n, true);
                return Some(self.start + BLOCK_BYTES * i);
            }
            i += 1;
        }
        assert(no_fit(self.taken(), n as int));
        None
    }

    /// Gives back the `size` bytes at `address`; what of them lies within
    /// the range is free afterwards.
    pub fn deallocate(&mut self, address: usize, size: usize)
        requires
            old(self).wf(),
            address >= old(self).base(),
        ensures
            final(self).wf(),
            final(self).base() == old(self).base(),
            final(self).taken() == marked(
                old(self).taken(),
                (address - old(self).base()) / (BLOCK_BYTES as int),
                size as int / (BLOCK_BYTES as int),
                false,
            ),
    {
        let i = (address - self.start) / BLOCK_BYTES;
        let n = size / BLOCK_BYTES;
        let total = self.used.len();
        if i >= total {
            assert(self.taken() =~= marked(self.taken(), i as int, n as int, false));
            return ;
        }
        let n_within = if n > total - i {
            total - i
        } else {
            n
        };
        self.mark(i, n_within, false);
        assert(self.taken() =~= marked(old(self).taken(), i as int, n as int, false));
    }

    /// Memory that is given back is handed out again: after an allocation is
    /// given back, the same request takes the same place.
    pub proof fn lemma_reuse(taken: Seq<bool>, i: int, n: int)
        requires
            n > 0,
            is_first_fit(taken, i, n),
        ensures
            marked(marked(taken, i, n, true), i, n, false) == taken,
            !fits_at(marked(taken, i, n, true), i, n),
            forall|m: int|
                0 < m <= n ==> #[trigger] fits_at(
                    marked(marked(taken, i, n, true), i, n, false),
                    i,
                    m,
                ),
    {
        let after = marked(taken, i, n, true);
        assert(marked(after, i, n, false) =~= taken);
        assert(after[i]);
    }
}

} // verus!
