//! A fixed-width block arena with a free list in LIFO discipline.
//!
//! The arena owns a contiguous sub-region `[base, base + capacity)` sliced
//! into `capacity / block_size` equally sized blocks.  A block is identified
//! by its address; the free list is the sequence of addresses of the blocks
//! the arena still owns, head first.  `allocate` pops the head and
//! `deallocate` pushes the freed block back as the new head, so the most
//! recently freed block is the next one handed out.
//!
//! This module also states the free-list discipline laws: a balanced run of
//! allocations and deallocations leaves the set of free blocks unchanged, and
//! a run of allocations succeeds exactly as long as blocks remain.

use vstd::prelude::*;
use vstd::arithmetic::div_mod::{
    lemma_add_mod_noop, lemma_fundamental_div_mod, lemma_mod_multiples_basic, lemma_small_mod,
};
use vstd::arithmetic::mul::lemma_mul_strict_inequality;
use crate::utils::is_power_of_two;

verus! {

/// Mathematical model of an arena: its geometry and its free list, the
/// sequence of addresses of the blocks it still owns, head first.
pub ghost struct ArenaView {
    /// Starting address of the sub-region.
    pub base: usize,
    /// Length of the sub-region in bytes.
    pub capacity: usize,
    /// Width in bytes of every block of the sub-region.
    pub block_size: usize,
    /// Addresses of the free blocks; the head `frees[0]` is handed out next.
    pub frees: Seq<usize>,
}

impl ArenaView {
    /// Number of blocks the sub-region is sliced into.
    pub open spec fn block_count(self) -> int {
        self.capacity as int / self.block_size as int
    }

    /// `p` is the address of one of the arena's blocks: it lies in the
    /// sub-region and is `block_size`-aligned.
    pub open spec fn valid_block(self, p: usize) -> bool {
        &&& self.base <= p < self.base + self.capacity
        &&& (p - self.base) % (self.block_size as int) == 0
        &&& (p as int) % (self.block_size as int) == 0
    }

    /// The geometry the arena is built with: a non-null base, a power-of-two
    /// block width of at least one pointer, an aligned base, and a capacity
    /// that is a whole number of blocks, all within the address space.
    pub open spec fn wf_geometry(self) -> bool {
        &&& 0 < self.base
        &&& self.base + self.capacity <= usize::MAX
        &&& 8 <= self.block_size
        &&& is_power_of_two(self.block_size as nat)
        &&& (self.base as int) % (self.block_size as int) == 0
        &&& (self.capacity as int) % (self.block_size as int) == 0
    }

    /// Arena invariant: sound geometry, and a free list whose entries are
    /// pairwise distinct block addresses of the sub-region.
    pub open spec fn wf(self) -> bool {
        &&& self.wf_geometry()
        &&& forall|i: int|
            0 <= i < self.frees.len() ==> self.valid_block(#[trigger] self.frees[i])
        &&& self.frees.no_duplicates()
    }

    /// Same sub-region and block width.
    pub open spec fn same_geometry(self, other: ArenaView) -> bool {
        &&& self.base == other.base
        &&& self.capacity == other.capacity
        &&& self.block_size == other.block_size
    }
}

/// The free list a fresh arena starts with: every block of the sub-region,
/// ascending by address, so the lowest block is the head.
pub open spec fn initial_free_list(base: usize, capacity: usize, block_size: usize) -> Seq<
    usize,
> {
    Seq::new(
        (capacity as nat) / (block_size as nat),
        |i: int| (base + i * block_size) as usize,
    )
}

/// A fixed-width block arena over the sub-region `[base, base + capacity)`.
pub struct Arena {
    /// Starting address of the sub-region.
    base: usize,
    /// Length of the sub-region in bytes.
    capacity: usize,
    /// Width in bytes of every block.
    block_size: usize,
    /// Addresses of the free blocks, the head of the free list last, so
    /// that handing out and taking back a block are both a constant-time
    /// step at the vector's tail.
    free_list: Vec<usize>,
}

impl View for Arena {
    type V = ArenaView;

    closed spec fn view(&self) -> ArenaView {
        ArenaView {
            base: self.base,
            capacity: self.capacity,
            block_size: self.block_size,
            frees: self.free_list@.reverse(),
        }
    }
}

impl Arena {
    /// Builds an arena over `[base, base + capacity)` with blocks of
    /// `block_size` bytes and every block free, ascending by address.
    pub fn new(base: usize, capacity: usize, block_size: usize) -> (arena: Arena)
        requires
            0 < base,
            base + capacity <= usize::MAX,
            8 <= block_size,
            is_power_of_two(block_size as nat),
            (base as int) % (block_size as int) == 0,
            (capacity as int) % (block_size as int) == 0,
        ensures
            arena@.wf(),
            arena@.base == base,
            arena@.capacity == capacity,
            arena@.block_size == block_size,
            arena@.frees == initial_free_list(base, capacity, block_size),
    {
        let mut arena = Arena { base, capacity, block_size, free_list: Vec::new() };
        arena.initialize_free_list();
        proof {
            lemma_initial_free_list_wf(arena@);
        }
        arena
    }

    /// Fills the free list with every block of the sub-region, in ascending
    /// address order.
    fn initialize_free_list(&mut self)
        requires
            old(self)@.wf_geometry(),
            old(self)@.frees.len() == 0,
        ensures
            final(self)@.same_geometry(old(self)@),
            final(self)@.frees == initial_free_list(
                old(self)@.base,
                old(self)@.capacity,
                old(self)@.block_size,
            ),
    {
        let ghost g = self@;
        let ghost target = initial_free_list(self.base, self.capacity, self.block_size);
        let n = self.capacity / self.block_size;
        proof {
            lemma_fundamental_div_mod(self.capacity as int, self.block_size as int);
        }
        assert(self.capacity as int == self.block_size as int * n as int);
        let mut i: usize = 0;
        while i < n
            invariant
                i <= n,
                self@.wf_geometry(),
                self@.same_geometry(g),
                target == initial_free_list(self@.base, self@.capacity, self@.block_size),
                target.len() == n,
                self@.capacity as int == self@.block_size as int * n as int,
                self.free_list@.len() == i,
                forall|j: int| 0 <= j < i ==> self.free_list@[j] == target[n - 1 - j],
            decreases n - i,
        {
            let k = n - 1 - i;
            assert(k as int * self.block_size as int + self.block_size as int
                <= self.capacity as int) by (nonlinear_arith)
                requires
                    0 <= k as int,
                    k as int + 1 <= n as int,
                    0 < self.block_size as int,
                    self.capacity as int == self.block_size as int * n as int,
            ;
            let addr = self.base + k * self.block_size;
            self.free_list.push(addr);
            i = i + 1;
        }
        assert(self@.frees =~= target);
    }

    /// Hands out the head of the free list, or the null address 0 when the
    /// arena is exhausted.  The pointer returned by a successful call is a
    /// block of the sub-region: in range and `block_size`-aligned.
    pub fn allocate(&mut self) -> (p: usize)
        requires
            old(self)@.wf(),
        ensures
            final(self)@.wf(),
            final(self)@.same_geometry(old(self)@),
            final(self)@.frees == alloc_step(old(self)@.frees),
            p == alloc_result(old(self)@.frees),
            p != 0 <==> old(self)@.frees.len() > 0,
            p != 0 ==> old(self)@.valid_block(p),
    {
        if self.free_list.len() == 0 {
            0
        } else {
            let p = self.free_list.pop().unwrap();
            assert(old(self)@.valid_block(old(self)@.frees[0]));
            assert(self@.frees =~= old(self)@.frees.drop_first());
            p
        }
    }

    /// Takes back the block at `ptr`, making it the new head of the free
    /// list, so that it is the next block handed out.
    ///
    /// The caller asserts that `ptr` came from this arena's `allocate` and is
    /// not currently free: a foreign or doubly freed pointer is outside the
    /// contract.
    pub fn deallocate(&mut self, ptr: usize)
        requires
            old(self)@.wf(),
            old(self)@.valid_block(ptr),
            !old(self)@.frees.contains(ptr),
        ensures
            final(self)@.wf(),
            final(self)@.same_geometry(old(self)@),
            final(self)@.frees == dealloc_step(old(self)@.frees, ptr),
    {
        self.free_list.push(ptr);
        assert(self@.frees =~= dealloc_step(old(self)@.frees, ptr));
        proof {
            lemma_push_front_no_duplicates(old(self)@.frees, ptr);
        }
    }

    /// Number of blocks currently free.
    pub fn free_count(&self) -> (n: usize)
        ensures
            n == self@.frees.len(),
    {
        self.free_list.len()
    }

    /// Whether the block at `ptr` is currently on the free list.
    pub fn is_free(&self, ptr: usize) -> (b: bool)
        ensures
            b == self@.frees.contains(ptr),
    {
        let mut i: usize = 0;
        while i < self.free_list.len()
            invariant
                i <= self.free_list@.len(),
                forall|j: int| 0 <= j < i ==> self.free_list@[j] != ptr,
            decreases self.free_list@.len() - i,
        {
            if self.free_list[i] == ptr {
                assert(self@.frees[self.free_list@.len() - 1 - i] == ptr);
                return true;
            }
            i = i + 1;
        }
        assert forall|j: int| 0 <= j < self@.frees.len() implies self@.frees[j] != ptr by {
            assert(self@.frees[j] == self.free_list@[self.free_list@.len() - 1 - j]);
        }
        false
    }

    /// Whether `ptr` is a block address of this arena: in the sub-region and
    /// `block_size`-aligned.  This is the bounds check a debug build makes
    /// before taking a pointer back.
    pub fn owns_block(&self, ptr: usize) -> (b: bool)
        requires
            self@.wf(),
        ensures
            b == self@.valid_block(ptr),
    {
        if ptr < self.base {
            return false;
        }
        if ptr >= self.base + self.capacity {
            return false;
        }
        let offset = ptr - self.base;
        proof {
            lemma_add_mod_noop(self.base as int, offset as int, self.block_size as int);
            lemma_small_mod(0nat, self.block_size as nat);
        }
        offset % self.block_size == 0
    }
}

/// Establishes the arena invariant for a freshly built free list: all blocks
/// of the sub-region, ascending by address, are in range, aligned, and
/// pairwise distinct.
proof fn lemma_initial_free_list_wf(v: ArenaView)
    requires
        v.wf_geometry(),
        v.frees == initial_free_list(v.base, v.capacity, v.block_size),
    ensures
        v.wf(),
{
    let base = v.base as int;
    let bs = v.block_size as int;
    let n = v.block_count();
    lemma_fundamental_div_mod(v.capacity as int, bs);
    assert(v.capacity as int == bs * n);
    assert forall|j: int| 0 <= j < v.frees.len() implies v.valid_block(#[trigger] v.frees[j]) by {
        assert(0 <= j * bs && j * bs + bs <= v.capacity as int) by (nonlinear_arith)
            requires
                0 <= j,
                j + 1 <= n,
                0 < bs,
                v.capacity as int == bs * n,
        ;
        assert(base + j * bs + bs <= base + v.capacity);
        lemma_mod_multiples_basic(j, bs);
        lemma_add_mod_noop(base, j * bs, bs);
        lemma_small_mod(0nat, bs as nat);
        assert(v.frees[j] == (base + j * bs) as usize);
        assert((base + j * bs) % bs == 0);
        assert((v.frees[j] - v.base) % bs == 0);
    }
    assert forall|j: int| 0 <= j < v.frees.len() implies v.frees[j] as int == base + j * bs by {
        assert(0 <= j * bs && j * bs + bs <= v.capacity as int) by (nonlinear_arith)
            requires
                0 <= j,
                j + 1 <= n,
                0 < bs,
                v.capacity as int == bs * n,
        ;
    }
    assert forall|j: int, k: int|
        0 <= j < v.frees.len() && 0 <= k < v.frees.len() && j != k implies v.frees[j]
        != v.frees[k] by {
        if j < k {
            lemma_mul_strict_inequality(j, k, bs);
        } else {
            lemma_mul_strict_inequality(k, j, bs);
        }
        assert(v.frees[j] as int == base + j * bs);
        assert(v.frees[k] as int == base + k * bs);
    }
    assert(v.frees.no_duplicates());
}

/// Pushing an address that is not yet on a duplicate-free list keeps the
/// list duplicate-free.
proof fn lemma_push_front_no_duplicates(l: Seq<usize>, p: usize)
    requires
        l.no_duplicates(),
        !l.contains(p),
    ensures
        (seq![p] + l).no_duplicates(),
{
    let r = seq![p] + l;
    assert forall|i: int, j: int| 0 <= i < r.len() && 0 <= j < r.len() && i != j implies r[i]
        != r[j] by {
        if i == 0 {
            assert(r[j] == l[j - 1]);
            assert(l.contains(l[j - 1]));
        } else if j == 0 {
            assert(r[i] == l[i - 1]);
            assert(l.contains(l[i - 1]));
        } else {
            assert(r[i] == l[i - 1] && r[j] == l[j - 1]);
        }
    }
}

/// The free list after one `allocate`: the head is gone, or nothing changes
/// on an exhausted arena.
pub open spec fn alloc_step(l: Seq<usize>) -> Seq<usize> {
    if l.len() == 0 {
        l
    } else {
        l.drop_first()
    }
}

/// The address one `allocate` returns: the head, or 0 on an exhausted arena.
pub open spec fn alloc_result(l: Seq<usize>) -> usize {
    if l.len() == 0 {
        0usize
    } else {
        l[0]
    }
}

/// The free list after `deallocate(p)`: `p` becomes the new head.
pub open spec fn dealloc_step(l: Seq<usize>, p: usize) -> Seq<usize> {
    seq![p] + l
}

/// Law: deallocating the block just allocated restores the free list
/// exactly, head included.
pub proof fn lemma_allocate_then_deallocate(l: Seq<usize>)
    requires
        l.len() > 0,
    ensures
        dealloc_step(alloc_step(l), alloc_result(l)) == l,
{
    assert(dealloc_step(alloc_step(l), alloc_result(l)) =~= l);
}

/// Law: allocation after a deallocation returns the block just freed, and
/// the free list returns to its previous state (LIFO reuse).
pub proof fn lemma_lifo_reuse(l: Seq<usize>, p: usize)
    ensures
        alloc_result(dealloc_step(l, p)) == p,
        alloc_step(dealloc_step(l, p)) == l,
{
    assert(alloc_step(dealloc_step(l, p)) =~= l);
}

/// One step of an arena history: an allocation, or a deallocation of a named
/// block.
pub enum ArenaOp {
    /// Pop the head of the free list.
    Allocate,
    /// Push the named block back as the new head.
    Deallocate(usize),
}

/// The free list after one operation.
pub open spec fn op_step(l: Seq<usize>, op: ArenaOp) -> Seq<usize> {
    match op {
        ArenaOp::Allocate => alloc_step(l),
        ArenaOp::Deallocate(p) => dealloc_step(l, p),
    }
}

/// The free list after a whole run of operations.
pub open spec fn run_ops(l: Seq<usize>, ops: Seq<ArenaOp>) -> Seq<usize>
    decreases ops.len(),
{
    if ops.len() == 0 {
        l
    } else {
        run_ops(op_step(l, ops[0]), ops.drop_first())
    }
}

/// A run is sound when every allocation finds a free block and every
/// deallocation returns a block that the run holds live at that point.
/// `live` is the set of blocks held by callers when the run starts.
pub open spec fn sound_run(l: Seq<usize>, ops: Seq<ArenaOp>, live: Set<usize>) -> bool
    decreases ops.len(),
{
    if ops.len() == 0 {
        true
    } else {
        match ops[0] {
            ArenaOp::Allocate => l.len() > 0 && sound_run(
                alloc_step(l),
                ops.drop_first(),
                live.insert(l[0]),
            ),
            ArenaOp::Deallocate(p) => live.contains(p) && sound_run(
                dealloc_step(l, p),
                ops.drop_first(),
                live.remove(p),
            ),
        }
    }
}

/// The blocks held live by callers after a run.
pub open spec fn live_after(l: Seq<usize>, ops: Seq<ArenaOp>, live: Set<usize>) -> Set<usize>
    decreases ops.len(),
{
    if ops.len() == 0 {
        live
    } else {
        match ops[0] {
            ArenaOp::Allocate => live_after(alloc_step(l), ops.drop_first(), live.insert(l[0])),
            ArenaOp::Deallocate(p) => live_after(
                dealloc_step(l, p),
                ops.drop_first(),
                live.remove(p),
            ),
        }
    }
}

/// Dropping the head of a non-empty list and putting it back into the set of
/// its elements changes nothing.
proof fn lemma_to_set_drop_first(l: Seq<usize>)
    requires
        l.len() > 0,
    ensures
        l.to_set() == l.drop_first().to_set().insert(l[0]),
{
    let rest = l.drop_first();
    assert forall|x: usize| l.to_set().contains(x) implies rest.to_set().insert(l[0]).contains(
        x,
    ) by {
        let i = choose|i: int| 0 <= i < l.len() && l[i] == x;
        if i > 0 {
            assert(rest[i - 1] == x);
            assert(rest.contains(x));
        }
    }
    assert forall|x: usize| rest.to_set().insert(l[0]).contains(x) implies l.to_set().contains(
        x,
    ) by {
        if rest.to_set().contains(x) {
            let i = choose|i: int| 0 <= i < rest.len() && rest[i] == x;
            assert(l[i + 1] == x);
            assert(l.contains(x));
        } else {
            assert(l.contains(l[0]));
        }
    }
    assert(l.to_set() =~= rest.to_set().insert(l[0]));
}

/// Law: over any sound run, free blocks and live blocks together always make
/// up the same collection of addresses; blocks only move between the two
/// sides, none appears and none is lost.
pub proof fn lemma_run_preserves_blocks(l: Seq<usize>, ops: Seq<ArenaOp>, live: Set<usize>)
    requires
        sound_run(l, ops, live),
    ensures
        run_ops(l, ops).to_set() + live_after(l, ops, live) == l.to_set() + live,
    decreases ops.len(),
{
    if ops.len() > 0 {
        match ops[0] {
            ArenaOp::Allocate => {
                lemma_run_preserves_blocks(alloc_step(l), ops.drop_first(), live.insert(l[0]));
                lemma_to_set_drop_first(l);
                assert(alloc_step(l).to_set() + live.insert(l[0]) =~= l.to_set() + live);
            },
            ArenaOp::Deallocate(p) => {
                lemma_run_preserves_blocks(dealloc_step(l, p), ops.drop_first(), live.remove(p));
                lemma_to_set_drop_first(dealloc_step(l, p));
                assert(dealloc_step(l, p).drop_first() =~= l);
                assert(dealloc_step(l, p).to_set() + live.remove(p) =~= l.to_set() + live);
            },
        }
    }
}

/// Law: a balanced run — one that starts with no live blocks and ends with
/// every allocated block deallocated again — leaves the set of free blocks
/// exactly as it found it, whatever order the blocks came back in.
pub proof fn lemma_balanced_run_preserves_free_set(l: Seq<usize>, ops: Seq<ArenaOp>)
    requires
        sound_run(l, ops, Set::empty()),
        live_after(l, ops, Set::empty()) == Set::<usize>::empty(),
    ensures
        run_ops(l, ops).to_set() == l.to_set(),
{
    lemma_run_preserves_blocks(l, ops, Set::empty());
    assert(run_ops(l, ops).to_set() =~= run_ops(l, ops).to_set() + Set::<usize>::empty());
    assert(l.to_set() =~= l.to_set() + Set::<usize>::empty());
}

/// The addresses handed out by `n` consecutive allocations.
pub open spec fn alloc_run_results(l: Seq<usize>, n: nat) -> Seq<usize>
    decreases n,
{
    if n == 0 {
        Seq::empty()
    } else {
        seq![alloc_result(l)] + alloc_run_results(alloc_step(l), (n - 1) as nat)
    }
}

/// The free list after `n` consecutive allocations.
pub open spec fn alloc_run_step(l: Seq<usize>, n: nat) -> Seq<usize>
    decreases n,
{
    if n == 0 {
        l
    } else {
        alloc_run_step(alloc_step(l), (n - 1) as nat)
    }
}

/// Law: over a free list of non-null addresses, the `j`-th of `n`
/// consecutive allocations succeeds exactly when a block is left for it, so
/// a run of `n` returns a null exactly when `n` exceeds the number of free
/// blocks, and the first `min(n, len)` allocations all succeed.
pub proof fn lemma_alloc_run_exhaustion(l: Seq<usize>, n: nat)
    requires
        forall|i: int| 0 <= i < l.len() ==> #[trigger] l[i] != 0usize,
    ensures
        alloc_run_results(l, n).len() == n,
        forall|j: int|
            0 <= j < n ==> (#[trigger] alloc_run_results(l, n)[j] != 0 <==> j < l.len()),
    decreases n,
{
    if n > 0 {
        assert forall|i: int|
            0 <= i < alloc_step(l).len() implies #[trigger] alloc_step(l)[i] != 0usize by {
            assert(alloc_step(l)[i] == l[i + 1]);
        }
        lemma_alloc_run_exhaustion(alloc_step(l), (n - 1) as nat);
        let r = alloc_run_results(l, n);
        let rest = alloc_run_results(alloc_step(l), (n - 1) as nat);
        assert forall|j: int| 0 <= j < n implies (#[trigger] r[j] != 0 <==> j < l.len()) by {
            if j == 0 {
                if l.len() > 0 {
                    assert(l[0] != 0);
                }
            } else {
                assert(r[j] == rest[j - 1]);
                if l.len() == 0 {
                    assert(alloc_step(l).len() == 0);
                } else {
                    assert(alloc_step(l).len() == l.len() - 1);
                }
            }
        }
    }
}

} // verus!
