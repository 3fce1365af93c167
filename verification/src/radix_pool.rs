//! A layered size-class memory pool.
//!
//! Requests of 1 to 16 bytes are served from sixteen exact size classes,
//! 17 to 256 bytes from sixty classes four bytes apart, 257 to 4096 bytes
//! from two hundred and forty classes sixteen bytes apart, and larger ones
//! from a cache keyed by the exact size. A released block goes onto the free
//! list of its class and is handed out again, last in first out, before any
//! new block. New blocks are carved from an address space that only grows,
//! in steps of whole 64-byte lines.
use vstd::prelude::*;
use std::collections::HashMap;
use crate::semantic::Lifetime;
use crate::text::{owned, str_eq};

verus! {

broadcast use vstd::std_specs::hash::group_hash_axioms;

/// Handle of a block handed out by a pool: the block's address.
#[derive(Clone, Copy, Debug, PartialEq, Eq, Structural)]
pub struct BlockPtr {
    pub addr: usize,
}

impl BlockPtr {
    /// The handle itself, for code that reads the address through a pointer.
    pub fn as_ptr(&self) -> (r: BlockPtr)
        ensures
            r == *self,
    {
        *self
    }

    /// Whether the handle is the null address.
    pub fn is_null(&self) -> (r: bool)
        ensures
            r == (self.addr == 0),
    {
        self.addr == 0
    }
}

/// Counters kept by a pool.
#[derive(Debug, Clone, Copy)]
pub struct PoolStats {
    pub total_allocated: usize,
    pub total_deallocated: usize,
    pub current_used: usize,
    pub peak_used: usize,
    pub allocation_count: usize,
    pub deallocation_count: usize,
    pub cache_hits: usize,
    pub cache_misses: usize,
}

/// All counters zero.
pub open spec fn zero_stats() -> PoolStats {
    PoolStats {
        total_allocated: 0,
        total_deallocated: 0,
        current_used: 0,
        peak_used: 0,
        allocation_count: 0,
        deallocation_count: 0,
        cache_hits: 0,
        cache_misses: 0,
    }
}

impl Default for PoolStats {
    fn default() -> (r: PoolStats)
        ensures
            r == zero_stats(),
    {
        PoolStats {
            total_allocated: 0,
            total_deallocated: 0,
            current_used: 0,
            peak_used: 0,
            allocation_count: 0,
            deallocation_count: 0,
            cache_hits: 0,
            cache_misses: 0,
        }
    }
}

/// No block of the list is at the null address.
pub open spec fn nonnull_list(l: Seq<BlockPtr>) -> bool {
    forall|i: int| 0 <= i < l.len() ==> (#[trigger] l[i]).addr != 0
}

/// `v` rounded up to a multiple of `a`.
pub open spec fn round_up(v: int, a: int) -> int {
    (v + a - 1) / a * a
}

/// Free-list index of a request of at most 16 bytes.
pub open spec fn tiny_index(size: int) -> int {
    if size >= 1 { size - 1 } else { 0 }
}

/// Free-list index of a request of 17 to 256 bytes.
pub open spec fn small_index(size: int) -> int {
    (round_up(size, 4) - 17) / 4
}

/// Free-list index of a request of 257 to 4096 bytes.
pub open spec fn medium_index(size: int) -> int {
    (round_up(size, 16) - 257) / 16
}

/// Bytes added to `total_allocated` when a new block is made for `size`.
pub open spec fn charged(size: int) -> int {
    if size <= 4096 { size } else { round_up(size, 64) }
}

/// Address space taken by a new block for `size`.
pub open spec fn block_span(size: int) -> int {
    if size == 0 { 64 } else { round_up(size, 64) }
}

/// Mathematical state of a pool.
pub struct PoolModel {
    pub tiny: Seq<Seq<BlockPtr>>,
    pub small: Seq<Seq<BlockPtr>>,
    pub medium: Seq<Seq<BlockPtr>>,
    pub large: Map<usize, Seq<BlockPtr>>,
    pub stats: PoolStats,
    pub next_addr: int,
}

impl PoolModel {
    /// Shape of the size classes, alignment of the next address, and the
    /// count of allocations split into hits and misses.
    pub open spec fn wf(self) -> bool {
        &&& self.shaped()
        &&& self.next_addr >= 64
        &&& self.next_addr % 64 == 0
        &&& self.stats.cache_hits + self.stats.cache_misses == self.stats.allocation_count
        &&& self.stats.peak_used >= self.stats.current_used
        &&& self.blocks_nonnull()
    }

    /// One free list per size class.
    pub open spec fn shaped(self) -> bool {
        &&& self.tiny.len() == 16
        &&& self.small.len() == 60
        &&& self.medium.len() == 240
    }

    /// No free list holds the null address.
    pub open spec fn blocks_nonnull(self) -> bool {
        forall|size: usize| #[trigger] nonnull_list(self.free_list(size))
    }

    /// The free list that serves requests of `size` bytes.
    pub open spec fn free_list(self, size: usize) -> Seq<BlockPtr> {
        if size <= 16 {
            self.tiny[tiny_index(size as int)]
        } else if size <= 256 {
            self.small[small_index(size as int)]
        } else if size <= 4096 {
            self.medium[medium_index(size as int)]
        } else if self.large.contains_key(size) {
            self.large[size]
        } else {
            Seq::empty()
        }
    }

    /// The same state with the free list for `size` replaced by `l`.
    pub open spec fn set_free_list(self, size: usize, l: Seq<BlockPtr>) -> PoolModel {
        if size <= 16 {
            PoolModel { tiny: self.tiny.update(tiny_index(size as int), l), ..self }
        } else if size <= 256 {
            PoolModel { small: self.small.update(small_index(size as int), l), ..self }
        } else if size <= 4096 {
            PoolModel { medium: self.medium.update(medium_index(size as int), l), ..self }
        } else {
            PoolModel { large: self.large.insert(size, l), ..self }
        }
    }

    /// Whether an allocation of `size` bytes keeps every counter and the
    /// address space within `usize`.
    pub open spec fn can_allocate(self, size: usize) -> bool {
        &&& self.stats.allocation_count < usize::MAX
        &&& self.stats.current_used + size <= usize::MAX
        &&& self.stats.total_allocated + charged(size as int) <= usize::MAX
        &&& self.next_addr + block_span(size as int) <= usize::MAX
    }

    /// Whether a release of `size` bytes keeps every counter within `usize`.
    pub open spec fn can_deallocate(self, size: usize) -> bool {
        &&& self.stats.deallocation_count < usize::MAX
        &&& self.stats.total_deallocated + size <= usize::MAX
    }

    /// State after an allocation of `size` bytes, and the block handed out:
    /// the last block of the size's free list if there is one (a cache hit),
    /// else a new block at the next address (a miss).
    pub open spec fn alloc_result(self, size: usize) -> (PoolModel, BlockPtr) {
        let fl = self.free_list(size);
        let s = self.stats;
        let used = (s.current_used + size) as usize;
        let peak = if used > s.peak_used { used } else { s.peak_used };
        if fl.len() > 0 {
            let st = PoolStats {
                allocation_count: (s.allocation_count + 1) as usize,
                cache_hits: (s.cache_hits + 1) as usize,
                current_used: used,
                peak_used: peak,
                ..s
            };
            (PoolModel { stats: st, ..self.set_free_list(size, fl.drop_last()) }, fl.last())
        } else {
            let st = PoolStats {
                allocation_count: (s.allocation_count + 1) as usize,
                cache_misses: (s.cache_misses + 1) as usize,
                total_allocated: (s.total_allocated + charged(size as int)) as usize,
                current_used: used,
                peak_used: peak,
                ..s
            };
            (
                PoolModel { stats: st, next_addr: self.next_addr + block_span(size as int), ..self },
                BlockPtr { addr: self.next_addr as usize },
            )
        }
    }

    /// State after `ptr` of `size` bytes is released: the block goes onto the
    /// size's free list, the in-use count drops (not below zero).
    pub open spec fn after_dealloc(self, ptr: BlockPtr, size: usize) -> PoolModel {
        let s = self.stats;
        let st = PoolStats {
            deallocation_count: (s.deallocation_count + 1) as usize,
            current_used: if s.current_used >= size { (s.current_used - size) as usize } else { 0 },
            total_deallocated: (s.total_deallocated + size) as usize,
            ..s
        };
        PoolModel { stats: st, ..self.set_free_list(size, self.free_list(size).push(ptr)) }
    }

    /// State after the blocks of `items` are released one after another.
    pub open spec fn after_batch(self, items: Seq<(BlockPtr, usize)>) -> PoolModel
        decreases items.len(),
    {
        if items.len() == 0 {
            self
        } else {
            self.after_batch(items.drop_last()).after_dealloc(items.last().0, items.last().1)
        }
    }
}

/// Sum of the sizes in a list of released blocks.
pub open spec fn sizes_sum(items: Seq<(BlockPtr, usize)>) -> int
    decreases items.len(),
{
    if items.len() == 0 {
        0
    } else {
        sizes_sum(items.drop_last()) + items.last().1
    }
}

/// Whether releasing the blocks of `items` keeps every counter within `usize`.
pub open spec fn can_batch(m: PoolModel, items: Seq<(BlockPtr, usize)>) -> bool {
    &&& m.stats.deallocation_count + items.len() <= usize::MAX
    &&& m.stats.total_deallocated + sizes_sum(items) <= usize::MAX
}

/// A released block of any size is the next one handed out for that size,
/// and taking it leaves the free list as it was before the release.
pub proof fn lemma_release_then_allocate_reuses(m: PoolModel, ptr: BlockPtr, size: usize)
    requires
        m.wf(),
        m.stats.allocation_count < usize::MAX,
    ensures
        m.after_dealloc(ptr, size).alloc_result(size).1 == ptr,
        m.after_dealloc(ptr, size).alloc_result(size).0.free_list(size) == m.free_list(size),
        m.after_dealloc(ptr, size).alloc_result(size).0.stats.cache_hits == m.stats.cache_hits + 1,
{
    lemma_class_bounds(size);
    let d = m.after_dealloc(ptr, size);
    assert(d.free_list(size) == m.free_list(size).push(ptr));
    assert(m.free_list(size).push(ptr).drop_last() == m.free_list(size));
}

/// One allocation step: one more allocation, either a cache hit or a miss,
/// `size` more bytes in use, no release counted, and the peak still at
/// least the bytes in use.
pub proof fn lemma_allocate_step(m: PoolModel, size: usize)
    requires
        m.wf(),
        m.can_allocate(size),
    ensures
        ({
            let (m2, _) = m.alloc_result(size);
            &&& m2.stats.allocation_count == m.stats.allocation_count + 1
            &&& m2.stats.current_used == m.stats.current_used + size
            &&& m2.stats.cache_hits + m2.stats.cache_misses == m.stats.cache_hits + m.stats.cache_misses + 1
            &&& m2.stats.deallocation_count == m.stats.deallocation_count
            &&& m2.stats.peak_used >= m2.stats.current_used
            &&& m2.stats.peak_used >= m.stats.peak_used
        }),
{
    lemma_class_bounds(size);
}

/// Replacing one free list leaves every other size's list as it was.
pub proof fn lemma_set_free_list(m: PoolModel, size: usize, l: Seq<BlockPtr>)
    requires
        m.tiny.len() == 16,
        m.small.len() == 60,
        m.medium.len() == 240,
    ensures
        forall|s2: usize| #[trigger] m.set_free_list(size, l).free_list(s2) == l
            || m.set_free_list(size, l).free_list(s2) == m.free_list(s2),
        m.blocks_nonnull() && nonnull_list(l) ==> m.set_free_list(size, l).blocks_nonnull(),
{
    lemma_class_bounds(size);
    assert forall|s2: usize| #[trigger] m.set_free_list(size, l).free_list(s2) == l
        || m.set_free_list(size, l).free_list(s2) == m.free_list(s2) by {
        lemma_class_bounds(s2);
    }
    if m.blocks_nonnull() && nonnull_list(l) {
        assert forall|s2: usize| #[trigger] nonnull_list(m.set_free_list(size, l).free_list(s2)) by {
            assert(nonnull_list(m.free_list(s2)));
        }
    }
}

/// Every size maps to an index inside its layer.
pub proof fn lemma_class_bounds(size: usize)
    ensures
        size <= 16 ==> 0 <= tiny_index(size as int) < 16,
        16 < size <= 256 ==> 0 <= small_index(size as int) < 60,
        256 < size <= 4096 ==> 0 <= medium_index(size as int) < 240,
{
}

/// The layered pool.
pub struct RadixMemoryPool {
    tiny: Vec<Vec<BlockPtr>>,
    small: Vec<Vec<BlockPtr>>,
    medium: Vec<Vec<BlockPtr>>,
    large_cache: HashMap<usize, Vec<BlockPtr>>,
    stats: PoolStats,
    next_addr: usize,
}

fn empty_lists(n: usize) -> (r: Vec<Vec<BlockPtr>>)
    ensures
        r@.len() == n,
        forall|i: int| 0 <= i < n ==> (#[trigger] r@[i])@ == Seq::<BlockPtr>::empty(),
{
    let mut r: Vec<Vec<BlockPtr>> = Vec::new();
    let mut i: usize = 0;
    while i < n
        invariant
            i <= n,
            r@.len() == i,
            forall|j: int| 0 <= j < i ==> (#[trigger] r@[j])@ == Seq::<BlockPtr>::empty(),
        decreases n - i,
    {
        r.push(Vec::new());
        i = i + 1;
    }
    r
}

/// Removes and returns the last block of list `idx`.
fn pop_list(lists: &mut Vec<Vec<BlockPtr>>, idx: usize) -> (r: Option<BlockPtr>)
    requires
        idx < old(lists)@.len(),
    ensures
        final(lists)@.len() == old(lists)@.len(),
        match r {
            Some(p) => {
                &&& old(lists)@[idx as int]@.len() > 0
                &&& p == old(lists)@[idx as int]@.last()
                &&& final(lists)@.map_values(|l: Vec<BlockPtr>| l@) == old(lists)@.map_values(
                    |l: Vec<BlockPtr>| l@,
                ).update(idx as int, old(lists)@[idx as int]@.drop_last())
            },
            None => {
                &&& old(lists)@[idx as int]@.len() == 0
                &&& final(lists)@.map_values(|l: Vec<BlockPtr>| l@) == old(lists)@.map_values(
                    |l: Vec<BlockPtr>| l@,
                )
            },
        },
{
    let r = lists[idx].pop();
    proof {
        assert(final(lists)@.map_values(|l: Vec<BlockPtr>| l@) =~= lists@.map_values(
            |l: Vec<BlockPtr>| l@,
        ));
    }
    r
}

/// Appends a block to list `idx`.
fn push_list(lists: &mut Vec<Vec<BlockPtr>>, idx: usize, p: BlockPtr)
    requires
        idx < old(lists)@.len(),
    ensures
        final(lists)@.len() == old(lists)@.len(),
        final(lists)@.map_values(|l: Vec<BlockPtr>| l@) == old(lists)@.map_values(
            |l: Vec<BlockPtr>| l@,
        ).update(idx as int, old(lists)@[idx as int]@.push(p)),
{
    lists[idx].push(p);
    proof {
        assert(final(lists)@.map_values(|l: Vec<BlockPtr>| l@) =~= lists@.map_values(
            |l: Vec<BlockPtr>| l@,
        ));
    }
}

/// Free-list index of a request of 17 to 256 bytes.
fn small_idx(size: usize) -> (r: usize)
    requires
        16 < size <= 256,
    ensures
        r == small_index(size as int),
        r < 60,
{
    let aligned = (size + 3) / 4 * 4;
    (aligned - 17) / 4
}

/// Free-list index of a request of 257 to 4096 bytes.
fn medium_idx(size: usize) -> (r: usize)
    requires
        256 < size <= 4096,
    ensures
        r == medium_index(size as int),
        r < 240,
{
    let aligned = (size + 15) / 16 * 16;
    (aligned - 257) / 16
}

impl View for RadixMemoryPool {
    type V = PoolModel;

    closed spec fn view(&self) -> PoolModel {
        PoolModel {
            tiny: self.tiny@.map_values(|l: Vec<BlockPtr>| l@),
            small: self.small@.map_values(|l: Vec<BlockPtr>| l@),
            medium: self.medium@.map_values(|l: Vec<BlockPtr>| l@),
            large: self.large_cache@.map_values(|l: Vec<BlockPtr>| l@),
            stats: self.stats,
            next_addr: self.next_addr as int,
        }
    }
}

impl RadixMemoryPool {
    /// An empty pool: every free list empty, every counter zero.
    pub fn new() -> (r: RadixMemoryPool)
        ensures
            r@.wf(),
            r@.stats == zero_stats(),
            forall|size: usize| r@.free_list(size) == Seq::<BlockPtr>::empty(),
            r@.large == Map::<usize, Seq<BlockPtr>>::empty(),
            r@.next_addr == 64,
    {
        let r = RadixMemoryPool {
            tiny: empty_lists(16),
            small: empty_lists(60),
            medium: empty_lists(240),
            large_cache: HashMap::new(),
            stats: PoolStats::default(),
            next_addr: 64,
        };
        proof {
            assert forall|size: usize| r@.free_list(size) == Seq::<BlockPtr>::empty() by {
                lemma_class_bounds(size);
            }
            assert(r@.large =~= Map::<usize, Seq<BlockPtr>>::empty());
            assert forall|size: usize| #[trigger] nonnull_list(r@.free_list(size)) by {
                assert(r@.free_list(size) == Seq::<BlockPtr>::empty());
            }
        }
        r
    }

    /// Takes the last block of the free list for `size`, if any.
    fn take_free(&mut self, size: usize) -> (r: Option<BlockPtr>)
        requires
            old(self)@.shaped(),
        ensures
            match r {
                Some(p) => {
                    &&& old(self)@.free_list(size).len() > 0
                    &&& p == old(self)@.free_list(size).last()
                    &&& final(self)@ == old(self)@.set_free_list(
                        size,
                        old(self)@.free_list(size).drop_last(),
                    )
                },
                None => {
                    &&& old(self)@.free_list(size).len() == 0
                    &&& final(self)@ == old(self)@
                },
            },
    {
        proof {
            lemma_class_bounds(size);
        }
        if size <= 16 {
            let idx = if size == 0 { 0 } else { size - 1 };
            pop_list(&mut self.tiny, idx)
        } else if size <= 256 {
            let idx = small_idx(size);
            pop_list(&mut self.small, idx)
        } else if size <= 4096 {
            let idx = medium_idx(size);
            pop_list(&mut self.medium, idx)
        } else {
            let ghost old_map = self.large_cache@;
            match self.large_cache.remove(&size) {
                Some(mut list) => {
                    let r = list.pop();
                    let ghost kept = list@;
                    self.large_cache.insert(size, list);
                    proof {
                        assert(self.large_cache@.map_values(|l: Vec<BlockPtr>| l@)
                            =~= old_map.map_values(|l: Vec<BlockPtr>| l@).insert(size, kept));
                        if r.is_none() {
                            assert(old_map.map_values(|l: Vec<BlockPtr>| l@).insert(size, kept)
                                =~= old_map.map_values(|l: Vec<BlockPtr>| l@));
                        }
                    }
                    r
                },
                None => {
                    proof {
                        assert(self.large_cache@ =~= old_map);
                    }
                    None
                },
            }
        }
    }

    /// Puts a block onto the free list for `size`.
    fn put_free(&mut self, ptr: BlockPtr, size: usize)
        requires
            old(self)@.shaped(),
        ensures
            final(self)@ == old(self)@.set_free_list(size, old(self)@.free_list(size).push(ptr)),
    {
        proof {
            lemma_class_bounds(size);
        }
        if size <= 16 {
            let idx = if size == 0 { 0 } else { size - 1 };
            push_list(&mut self.tiny, idx, ptr);
        } else if size <= 256 {
            let idx = small_idx(size);
            push_list(&mut self.small, idx, ptr);
        } else if size <= 4096 {
            let idx = medium_idx(size);
            push_list(&mut self.medium, idx, ptr);
        } else {
            let ghost old_map = self.large_cache@;
            match self.large_cache.remove(&size) {
                Some(mut list) => {
                    list.push(ptr);
                    let ghost kept = list@;
                    self.large_cache.insert(size, list);
                    proof {
                        assert(self.large_cache@.map_values(|l: Vec<BlockPtr>| l@)
                            =~= old_map.map_values(|l: Vec<BlockPtr>| l@).insert(size, kept));
                    }
                },
                None => {
                    let mut list: Vec<BlockPtr> = Vec::new();
                    list.push(ptr);
                    let ghost kept = list@;
                    self.large_cache.insert(size, list);
                    proof {
                        assert(self.large_cache@.map_values(|l: Vec<BlockPtr>| l@)
                            =~= old_map.map_values(|l: Vec<BlockPtr>| l@).insert(size, kept));
                    }
                },
            }
        }
    }

    /// Hands out a block of `size` bytes: a released one of the same class
    /// if there is one, else a new one.
    pub fn allocate(&mut self, size: usize) -> (r: BlockPtr)
        requires
            old(self)@.wf(),
            old(self)@.can_allocate(size),
        ensures
            final(self)@.wf(),
            (final(self)@, r) == old(self)@.alloc_result(size),
            r.addr != 0,
    {
        let ghost m = self@;
        proof {
            assert(nonnull_list(m.free_list(size)));
            if m.free_list(size).len() > 0 {
                let fl = m.free_list(size);
                let l = fl.drop_last();
                assert forall|i: int| 0 <= i < l.len() implies (#[trigger] l[i]).addr != 0 by {
                    assert(l[i] == fl[i]);
                }
                lemma_set_free_list(m, size, l);
            }
        }
        match self.take_free(size) {
            Some(p) => {
                self.stats.allocation_count = self.stats.allocation_count + 1;
                self.stats.cache_hits = self.stats.cache_hits + 1;
                self.stats.current_used = self.stats.current_used + size;
                if self.stats.current_used > self.stats.peak_used {
                    self.stats.peak_used = self.stats.current_used;
                }
                proof {
                    lemma_class_bounds(size);
                    assert(self@ == m.alloc_result(size).0);
                    assert(m.free_list(size)[m.free_list(size).len() - 1].addr != 0);
                    assert forall|s2: usize| #[trigger] nonnull_list(self@.free_list(s2)) by {
                        assert(self@.free_list(s2) == m.set_free_list(size, m.free_list(size).drop_last()).free_list(s2));
                    }
                }
                p
            },
            None => {
                self.stats.allocation_count = self.stats.allocation_count + 1;
                self.stats.cache_misses = self.stats.cache_misses + 1;
                let charge = if size <= 4096 { size } else { (size + 63) / 64 * 64 };
                self.stats.total_allocated = self.stats.total_allocated + charge;
                self.stats.current_used = self.stats.current_used + size;
                if self.stats.current_used > self.stats.peak_used {
                    self.stats.peak_used = self.stats.current_used;
                }
                let p = BlockPtr { addr: self.next_addr };
                let span = if size == 0 { 64 } else { (size + 63) / 64 * 64 };
                self.next_addr = self.next_addr + span;
                proof {
                    assert(self@ == m.alloc_result(size).0);
                    assert forall|s2: usize| #[trigger] nonnull_list(self@.free_list(s2)) by {
                        assert(self@.free_list(s2) == m.free_list(s2));
                    }
                }
                p
            },
        }
    }

    /// Releases a block of `size` bytes onto the free list of its class.
    pub fn deallocate(&mut self, ptr: BlockPtr, size: usize)
        requires
            old(self)@.wf(),
            ptr.addr != 0,
            old(self)@.can_deallocate(size),
        ensures
            final(self)@.wf(),
            final(self)@ == old(self)@.after_dealloc(ptr, size),
    {
        let ghost m = self@;
        self.stats.deallocation_count = self.stats.deallocation_count + 1;
        self.stats.current_used = self.stats.current_used.saturating_sub(size);
        self.stats.total_deallocated = self.stats.total_deallocated + size;
        self.put_free(ptr, size);
        proof {
            lemma_class_bounds(size);
            assert(self@ == m.after_dealloc(ptr, size));
            lemma_dealloc_keeps_wf(m, ptr, size);
        }
    }

    /// Releases the blocks of `ptrs` in order.
    pub fn batch_deallocate(&mut self, ptrs: &[(BlockPtr, usize)])
        requires
            old(self)@.wf(),
            forall|i: int| 0 <= i < ptrs@.len() ==> (#[trigger] ptrs@[i]).0.addr != 0,
            can_batch(old(self)@, ptrs@),
        ensures
            final(self)@.wf(),
            final(self)@ == old(self)@.after_batch(ptrs@),
    {
        let ghost m = self@;
        let mut i: usize = 0;
        while i < ptrs.len()
            invariant
                i <= ptrs@.len(),
                self@.wf(),
                can_batch(m, ptrs@),
                forall|k: int| 0 <= k < ptrs@.len() ==> (#[trigger] ptrs@[k]).0.addr != 0,
                self@ == m.after_batch(ptrs@.take(i as int)),
            decreases ptrs@.len() - i,
        {
            proof {
                lemma_batch_counts(m, ptrs@, i as int);
            }
            let (ptr, size) = ptrs[i];
            self.deallocate(ptr, size);
            proof {
                assert(ptrs@.take(i + 1).drop_last() == ptrs@.take(i as int));
            }
            i = i + 1;
        }
        proof {
            assert(ptrs@.take(i as int) == ptrs@);
        }
    }

    /// Empties the large-block cache and sets the in-use count to zero.
    pub fn reset(&mut self)
        requires
            old(self)@.wf(),
        ensures
            final(self)@.wf(),
            final(self)@ == (PoolModel {
                large: Map::empty(),
                stats: PoolStats { current_used: 0, ..old(self)@.stats },
                ..old(self)@
            }),
    {
        let ghost m = self@;
        self.large_cache.clear();
        self.stats.current_used = 0;
        proof {
            assert(self.large_cache@.map_values(|l: Vec<BlockPtr>| l@) =~= Map::empty());
            assert forall|s2: usize| #[trigger] nonnull_list(self@.free_list(s2)) by {
                assert(nonnull_list(m.free_list(s2)));
                if s2 <= 4096 {
                    assert(self@.free_list(s2) == m.free_list(s2));
                } else {
                    assert(self@.free_list(s2) == Seq::<BlockPtr>::empty());
                }
            }
        }
    }

    /// The pool's counters.
    pub fn stats(&self) -> (r: &PoolStats)
        ensures
            *r == self@.stats,
    {
        &self.stats
    }
}

/// Counters after releasing a prefix of a batch stay below the bounds of the
/// whole batch.
proof fn lemma_batch_counts(m: PoolModel, items: Seq<(BlockPtr, usize)>, i: int)
    requires
        0 <= i < items.len(),
        can_batch(m, items),
    ensures
        m.after_batch(items.take(i)).can_deallocate(items[i].1),
    decreases i,
{
    lemma_sizes_prefix(items, i + 1);
    lemma_batch_prefix(m, items.take(i + 1));
    assert(items.take(i + 1).drop_last() == items.take(i));
}

/// Releasing `items` adds their number and their total size to the counters
/// and keeps the pool's shape.
proof fn lemma_batch_prefix(m: PoolModel, items: Seq<(BlockPtr, usize)>)
    requires
        m.stats.deallocation_count + items.len() <= usize::MAX,
        m.stats.total_deallocated + sizes_sum(items) <= usize::MAX,
    ensures
        m.after_batch(items).stats.deallocation_count == m.stats.deallocation_count + items.len(),
        m.after_batch(items).stats.total_deallocated == m.stats.total_deallocated + sizes_sum(items),
        m.wf() && (forall|i: int| 0 <= i < items.len() ==> (#[trigger] items[i]).0.addr != 0)
            ==> m.after_batch(items).wf(),
        items.len() > 0 ==> m.after_batch(items.drop_last()).stats.deallocation_count
            == m.stats.deallocation_count + items.len() - 1,
        items.len() > 0 ==> m.after_batch(items.drop_last()).stats.total_deallocated
            == m.stats.total_deallocated + sizes_sum(items) - items.last().1,
    decreases items.len(),
{
    if items.len() > 0 {
        lemma_batch_prefix(m, items.drop_last());
        lemma_dealloc_keeps_wf(m.after_batch(items.drop_last()), items.last().0, items.last().1);
        if m.wf() && (forall|i: int| 0 <= i < items.len() ==> (#[trigger] items[i]).0.addr != 0) {
            assert forall|i: int| 0 <= i < items.drop_last().len() implies (#[trigger] items.drop_last()[i]).0.addr != 0 by {
                assert(items.drop_last()[i] == items[i]);
            }
            assert(items[items.len() - 1].0.addr != 0);
        }
    }
}

/// A release keeps the shape of the pool and the allocation counters.
pub proof fn lemma_dealloc_keeps_wf(m: PoolModel, ptr: BlockPtr, size: usize)
    ensures
        m.wf() && ptr.addr != 0 ==> m.after_dealloc(ptr, size).wf(),
{
    lemma_class_bounds(size);
    let d = m.after_dealloc(ptr, size);
    if m.wf() && ptr.addr != 0 {
        assert(d.tiny.len() == 16);
        assert(d.small.len() == 60);
        assert(d.medium.len() == 240);
        let l = m.free_list(size).push(ptr);
        assert(nonnull_list(m.free_list(size)));
        assert(nonnull_list(l)) by {
            assert forall|i: int| 0 <= i < l.len() implies (#[trigger] l[i]).addr != 0 by {
                if i < l.len() - 1 {
                    assert(l[i] == m.free_list(size)[i]);
                }
            }
        }
        lemma_set_free_list(m, size, l);
        let st = d.stats;
        assert(d == PoolModel { stats: st, ..m.set_free_list(size, l) });
        assert forall|s2: usize| #[trigger] nonnull_list(d.free_list(s2)) by {
            assert(d.free_list(s2) == m.set_free_list(size, l).free_list(s2));
        }
    }
}

/// The sizes of a prefix sum to no more than the sizes of the whole list.
proof fn lemma_sizes_prefix(items: Seq<(BlockPtr, usize)>, k: int)
    requires
        0 <= k <= items.len(),
    ensures
        sizes_sum(items.take(k)) <= sizes_sum(items),
    decreases items.len() - k,
{
    if k < items.len() {
        lemma_sizes_prefix(items, k + 1);
        assert(items.take(k + 1).drop_last() == items.take(k));
    } else {
        assert(items.take(k) == items);
    }
}

impl Default for RadixMemoryPool {
    fn default() -> (r: RadixMemoryPool)
        ensures
            r@.wf(),
            r@.stats == zero_stats(),
            forall|size: usize| r@.free_list(size) == Seq::<BlockPtr>::empty(),
    {
        RadixMemoryPool::new()
    }
}

/// Blocks recorded under each lifetime name, in allocation order.
pub type LifetimeEntries = Seq<(Seq<char>, Seq<(BlockPtr, usize)>)>;

/// The lifetime names of a list of entries.
pub open spec fn entry_keys(s: LifetimeEntries) -> Seq<Seq<char>> {
    s.map_values(|e: (Seq<char>, Seq<(BlockPtr, usize)>)| e.0)
}

/// No lifetime name occurs twice.
pub open spec fn keys_unique(s: LifetimeEntries) -> bool {
    forall|i: int, j: int| 0 <= i < j < s.len() ==> s[i].0 != s[j].0
}

/// The entries as a map from lifetime name to its blocks.
pub open spec fn entries_map(s: LifetimeEntries) -> Map<Seq<char>, Seq<(BlockPtr, usize)>>
    decreases s.len(),
{
    if s.len() == 0 {
        Map::empty()
    } else {
        entries_map(s.drop_last()).insert(s.last().0, s.last().1)
    }
}

/// With unique names, the map holds exactly the listed names, each with its
/// own blocks.
proof fn lemma_entries_map(s: LifetimeEntries)
    requires
        keys_unique(s),
    ensures
        forall|i: int| 0 <= i < s.len() ==> #[trigger] entries_map(s).contains_key(s[i].0)
            && entries_map(s)[s[i].0] == s[i].1,
        forall|k: Seq<char>| #[trigger] entries_map(s).contains_key(k) ==> exists|i: int|
            0 <= i < s.len() && s[i].0 == k,
    decreases s.len(),
{
    if s.len() > 0 {
        let t = s.drop_last();
        lemma_entries_map(t);
        assert forall|i: int| 0 <= i < s.len() implies #[trigger] entries_map(s).contains_key(s[i].0)
            && entries_map(s)[s[i].0] == s[i].1 by {
            if i < s.len() - 1 {
                assert(t[i] == s[i]);
                assert(s[i].0 != s[s.len() - 1].0);
                assert(entries_map(t).contains_key(t[i].0));
                assert(entries_map(s) == entries_map(t).insert(s.last().0, s.last().1));
            } else {
                assert(entries_map(s) == entries_map(t).insert(s.last().0, s.last().1));
            }
        }
        assert forall|k: Seq<char>| #[trigger] entries_map(s).contains_key(k) implies exists|i: int|
            0 <= i < s.len() && s[i].0 == k by {
            if k != s.last().0 {
                assert(entries_map(t).contains_key(k));
                let i = choose|i: int| 0 <= i < t.len() && t[i].0 == k;
                assert(s[i] == t[i]);
            } else {
                assert(s[s.len() - 1].0 == k);
            }
        }
    }
}

/// Two lists with unique names and the same name-to-blocks pairs make the
/// same map.
proof fn lemma_entries_map_ext(s: LifetimeEntries, t: LifetimeEntries, m: Map<Seq<char>, Seq<(BlockPtr, usize)>>)
    requires
        keys_unique(t),
        forall|i: int| 0 <= i < t.len() ==> #[trigger] m.contains_key(t[i].0) && m[t[i].0] == t[i].1,
        forall|k: Seq<char>| #[trigger] m.contains_key(k) ==> exists|i: int| 0 <= i < t.len() && t[i].0 == k,
    ensures
        entries_map(t) == m,
{
    lemma_entries_map(t);
    assert forall|k: Seq<char>| #[trigger] entries_map(t).contains_key(k) <==> m.contains_key(k) by {
        if m.contains_key(k) {
            let i = choose|i: int| 0 <= i < t.len() && t[i].0 == k;
            assert(entries_map(t).contains_key(t[i].0));
        }
        if entries_map(t).contains_key(k) {
            let i = choose|i: int| 0 <= i < t.len() && t[i].0 == k;
            assert(m.contains_key(t[i].0));
        }
    }
    assert forall|k: Seq<char>| #[trigger] entries_map(t).contains_key(k) implies entries_map(t)[k] == m[k] by {
        let i = choose|i: int| 0 <= i < t.len() && t[i].0 == k;
        assert(entries_map(t).contains_key(t[i].0));
    }
    assert(entries_map(t) =~= m);
}

/// A pool that also records, under a lifetime name, every block allocated
/// for that lifetime, so that all of them can be released at once.
pub struct LifetimeAwarePool {
    radix_pool: RadixMemoryPool,
    lifetime_map: Vec<(String, Vec<(BlockPtr, usize)>)>,
}

/// Mathematical state of a lifetime-aware pool.
pub struct LifetimePoolModel {
    pub pool: PoolModel,
    pub lifetimes: Map<Seq<char>, Seq<(BlockPtr, usize)>>,
}

/// No recorded block is at the null address.
pub open spec fn entries_nonnull(s: LifetimeEntries) -> bool {
    forall|j: int, k: int| 0 <= j < s.len() && 0 <= k < s[j].1.len() ==> (#[trigger] s[j].1[k]).0.addr != 0
}

impl LifetimeAwarePool {
    closed spec fn entries(&self) -> LifetimeEntries {
        self.lifetime_map@.map_values(|e: (String, Vec<(BlockPtr, usize)>)| (e.0@, e.1@))
    }

    /// The underlying pool is well formed and no lifetime is listed twice.
    pub closed spec fn wf(&self) -> bool {
        &&& self.radix_pool@.wf()
        &&& keys_unique(self.entries())
        &&& entries_nonnull(self.entries())
    }

    /// The blocks recorded under `name` (none if it has no record).
    pub open spec fn blocks_of(m: LifetimePoolModel, name: Seq<char>) -> Seq<(BlockPtr, usize)> {
        if m.lifetimes.contains_key(name) { m.lifetimes[name] } else { Seq::empty() }
    }

    /// An empty pool with no lifetime records.
    pub fn new() -> (r: LifetimeAwarePool)
        ensures
            r.wf(),
            r@.pool.stats == zero_stats(),
            forall|size: usize| r@.pool.free_list(size) == Seq::<BlockPtr>::empty(),
            r@.lifetimes == Map::<Seq<char>, Seq<(BlockPtr, usize)>>::empty(),
    {
        let r = LifetimeAwarePool { radix_pool: RadixMemoryPool::new(), lifetime_map: Vec::new() };
        proof {
            assert(r.entries() =~= Seq::<(Seq<char>, Seq<(BlockPtr, usize)>)>::empty());
        }
        r
    }

    /// Position of the record of `name`, if there is one.
    fn find(&self, name: &String) -> (r: Option<usize>)
        ensures
            match r {
                Some(i) => i < self.entries().len() && self.entries()[i as int].0 == name@,
                None => forall|i: int| 0 <= i < self.entries().len() ==> self.entries()[i].0 != name@,
            },
    {
        let mut i: usize = 0;
        while i < self.lifetime_map.len()
            invariant
                i <= self.lifetime_map@.len(),
                forall|j: int| 0 <= j < i ==> self.entries()[j].0 != name@,
            decreases self.lifetime_map@.len() - i,
        {
            if str_eq(self.lifetime_map[i].0.as_str(), name.as_str()) {
                return Some(i);
            }
            i = i + 1;
        }
        None
    }

    /// Allocates `size` bytes from the pool and records the block under the
    /// lifetime's name.
    pub fn allocate_with_lifetime(&mut self, size: usize, lifetime: &Lifetime) -> (r: BlockPtr)
        requires
            old(self).wf(),
            old(self)@.pool.can_allocate(size),
        ensures
            final(self).wf(),
            (final(self)@.pool, r) == old(self)@.pool.alloc_result(size),
            final(self)@.lifetimes == old(self)@.lifetimes.insert(
                lifetime.0@,
                Self::blocks_of(old(self)@, lifetime.0@).push((r, size)),
            ),
    {
        let ghost old_entries = self.entries();
        let ghost old_map = self@.lifetimes;
        proof {
            lemma_entries_map(old_entries);
        }
        let ptr = self.radix_pool.allocate(size);
        match self.find(&lifetime.0) {
            Some(i) => {
                self.lifetime_map[i].1.push((ptr, size));
                proof {
                    let t = self.entries();
                    let key = lifetime.0@;
                    let m2 = old_map.insert(key, old_entries[i as int].1.push((ptr, size)));
                    assert(t =~= old_entries.update(i as int, (key, old_entries[i as int].1.push((ptr, size)))));
                    assert forall|a: int, b: int| 0 <= a < b < t.len() implies t[a].0 != t[b].0 by {
                        assert(old_entries[a].0 != old_entries[b].0);
                    }
                    assert forall|j: int| 0 <= j < t.len() implies #[trigger] m2.contains_key(t[j].0)
                        && m2[t[j].0] == t[j].1 by {
                        if j != i {
                            assert(t[j] == old_entries[j]);
                            if j < i {
                                assert(old_entries[j].0 != old_entries[i as int].0);
                            } else {
                                assert(old_entries[i as int].0 != old_entries[j].0);
                            }
                        }
                    }
                    assert forall|k: Seq<char>| #[trigger] m2.contains_key(k) implies exists|j: int|
                        0 <= j < t.len() && t[j].0 == k by {
                        if k == key {
                            assert(t[i as int].0 == k);
                        } else {
                            let j = choose|j: int| 0 <= j < old_entries.len() && old_entries[j].0 == k;
                            assert(t[j] == old_entries[j]);
                        }
                    }
                    lemma_entries_map_ext(t, t, m2);
                }
            },
            None => {
                let mut v: Vec<(BlockPtr, usize)> = Vec::new();
                v.push((ptr, size));
                let key = owned(lifetime.0.as_str());
                self.lifetime_map.push((key, v));
                proof {
                    let t = self.entries();
                    assert(t =~= old_entries.push((lifetime.0@, seq![(ptr, size)])));
                    assert(t.drop_last() =~= old_entries);
                    assert(!old_map.contains_key(lifetime.0@)) by {
                        if old_map.contains_key(lifetime.0@) {
                            let j = choose|j: int| 0 <= j < old_entries.len() && old_entries[j].0 == lifetime.0@;
                        }
                    }
                    assert(Seq::<(BlockPtr, usize)>::empty().push((ptr, size)) =~= seq![(ptr, size)]);
                }
            },
        }
        ptr
    }

    /// Releases every block recorded under the lifetime's name, in the order
    /// they were allocated, and drops the record.
    pub fn release_lifetime(&mut self, lifetime: &Lifetime)
        requires
            old(self).wf(),
            can_batch(old(self)@.pool, Self::blocks_of(old(self)@, lifetime.0@)),
        ensures
            final(self).wf(),
            final(self)@.pool == old(self)@.pool.after_batch(Self::blocks_of(old(self)@, lifetime.0@)),
            final(self)@.lifetimes == old(self)@.lifetimes.remove(lifetime.0@),
    {
        let ghost old_entries = self.entries();
        let ghost old_map = self@.lifetimes;
        proof {
            lemma_entries_map(old_entries);
        }
        match self.find(&lifetime.0) {
            Some(i) => {
                let (_name, ptrs) = self.lifetime_map.remove(i);
                proof {
                    let t = self.entries();
                    assert(t =~= old_entries.remove(i as int));
                    assert(keys_unique(t));
                    assert forall|j: int| 0 <= j < t.len() implies #[trigger] old_map.remove(lifetime.0@).contains_key(t[j].0)
                        && old_map.remove(lifetime.0@)[t[j].0] == t[j].1 by {
                        if j < i {
                            assert(t[j] == old_entries[j]);
                        } else {
                            assert(t[j] == old_entries[j + 1]);
                        }
                    }
                    assert forall|k: Seq<char>| #[trigger] old_map.remove(lifetime.0@).contains_key(k) implies exists|j: int|
                        0 <= j < t.len() && t[j].0 == k by {
                        let j = choose|j: int| 0 <= j < old_entries.len() && old_entries[j].0 == k;
                        if j < i {
                            assert(t[j] == old_entries[j]);
                        } else {
                            assert(t[j - 1] == old_entries[j]);
                        }
                    }
                    lemma_entries_map_ext(t, t, old_map.remove(lifetime.0@));
                }
                self.radix_pool.batch_deallocate(ptrs.as_slice());
            },
            None => {
                proof {
                    assert(!old_map.contains_key(lifetime.0@)) by {
                        if old_map.contains_key(lifetime.0@) {
                            let j = choose|j: int| 0 <= j < old_entries.len() && old_entries[j].0 == lifetime.0@;
                        }
                    }
                    assert(old_map.remove(lifetime.0@) =~= old_map);
                    assert(Self::blocks_of(self@, lifetime.0@) == Seq::<(BlockPtr, usize)>::empty());
                }
            },
        }
    }

    /// The counters of the underlying pool.
    pub fn stats(&self) -> (r: &PoolStats)
        ensures
            *r == self@.pool.stats,
    {
        self.radix_pool.stats()
    }
}

impl View for LifetimeAwarePool {
    type V = LifetimePoolModel;

    closed spec fn view(&self) -> LifetimePoolModel {
        LifetimePoolModel { pool: self.radix_pool@, lifetimes: entries_map(self.entries()) }
    }
}

impl Default for LifetimeAwarePool {
    fn default() -> (r: LifetimeAwarePool)
        ensures
            r.wf(),
            r@.pool.stats == zero_stats(),
            r@.lifetimes == Map::<Seq<char>, Seq<(BlockPtr, usize)>>::empty(),
    {
        LifetimeAwarePool::new()
    }
}

} // verus!
