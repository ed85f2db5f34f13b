//! The slab dispatcher: eight arenas, one per size class, carved out of a
//! single registered memory region.
//!
//! `initialize` splits the region into eight equal byte budgets, one per
//! class, and builds one arena over each.  `allocate` classifies the
//! requested size, rejects over-aligned or over-sized requests with the null
//! address, and otherwise pops a block from the owning arena; `deallocate`
//! reclassifies from the caller-supplied layout and pushes the block back.
//! An exhausted class never spills into a neighbouring one.

use vstd::prelude::*;
use crate::arena::{
    alloc_result, alloc_run_results, alloc_step, dealloc_step, initial_free_list, live_after,
    run_ops, sound_run, Arena, ArenaOp, ArenaView, lemma_alloc_run_exhaustion,
    lemma_allocate_then_deallocate, lemma_balanced_run_preserves_free_set, lemma_lifo_reuse,
    op_step,
};
use crate::config::{spec_categorize, BlockSize};
use crate::utils::is_power_of_two;
use vstd::arithmetic::div_mod::{lemma_fundamental_div_mod, lemma_mod_bound, lemma_mod_multiples_basic};

verus! {

/// Width in bytes of the blocks of the class at position `i`.
pub open spec fn width_of_index(i: int) -> usize {
    if i == 0 {
        8usize
    } else if i == 1 {
        16usize
    } else if i == 2 {
        32usize
    } else if i == 3 {
        64usize
    } else if i == 4 {
        128usize
    } else if i == 5 {
        256usize
    } else if i == 6 {
        512usize
    } else {
        1024usize
    }
}

/// The class at position `spec_class_index` has width `spec_width`.
pub proof fn lemma_class_width(c: BlockSize)
    ensures
        width_of_index(c.spec_class_index() as int) == c.spec_width(),
{
}

/// The eight free lists of a dispatcher state, in class order.
pub open spec fn slab_lists(vs: Seq<ArenaView>) -> Seq<Seq<usize>> {
    vs.map_values(|v: ArenaView| v.frees)
}

/// The dispatcher state and returned address after one `allocate(size,
/// align)`: nothing changes and 0 comes back for a rejected request or an
/// exhausted class; otherwise the owning class loses its head block.
pub open spec fn spec_allocate(lists: Seq<Seq<usize>>, size: usize, align: usize) -> (
    Seq<Seq<usize>>,
    usize,
) {
    match spec_categorize(size) {
        None => (lists, 0usize),
        Some(c) => {
            if align > c.spec_width() {
                (lists, 0usize)
            } else {
                let i = c.spec_class_index() as int;
                (lists.update(i, alloc_step(lists[i])), alloc_result(lists[i]))
            }
        },
    }
}

/// The dispatcher state after one `deallocate(ptr, size, _)`: the class that
/// `size` classifies to gets `ptr` back as its new head.
pub open spec fn spec_deallocate(lists: Seq<Seq<usize>>, ptr: usize, size: usize) -> Seq<
    Seq<usize>,
> {
    match spec_categorize(size) {
        None => lists,
        Some(c) => {
            let i = c.spec_class_index() as int;
            lists.update(i, dealloc_step(lists[i], ptr))
        },
    }
}

/// A layout under which `ptr` may be handed back: its size classifies to a
/// class whose width honours `align`, and `ptr` is a block of that class's
/// arena that is not currently free.
pub open spec fn can_deallocate(vs: Seq<ArenaView>, ptr: usize, size: usize, align: usize) -> bool {
    match spec_categorize(size) {
        None => false,
        Some(c) => {
            let i = c.spec_class_index() as int;
            &&& align <= c.spec_width()
            &&& vs[i].valid_block(ptr)
            &&& !vs[i].frees.contains(ptr)
        },
    }
}

/// A byte-writing capability for diagnostic output.  Callers inject an
/// implementation when asking for a debug dump; the dispatcher itself never
/// performs any other output.
pub trait ByteSink {
    /// Accepts one byte of diagnostic output.
    fn write_byte(&mut self, byte: u8);
}

/// The decimal digits of `n`, most significant first, as bytes.
pub open spec fn spec_decimal(n: nat) -> Seq<u8>
    decreases n,
{
    if n < 10 {
        seq![(48 + n) as u8]
    } else {
        spec_decimal(n / 10).push((48 + n % 10) as u8)
    }
}

/// Renders `n` in decimal, most significant digit first.
pub fn decimal_digits(n: usize) -> (v: Vec<u8>)
    ensures
        v@ == spec_decimal(n as nat),
    decreases n,
{
    if n < 10 {
        let mut v: Vec<u8> = Vec::new();
        v.push(48 + n as u8);
        assert(v@ =~= spec_decimal(n as nat));
        v
    } else {
        let mut v = decimal_digits(n / 10);
        v.push(48 + (n % 10) as u8);
        v
    }
}

/// The debug-dump line for the arena at position `i`: the bytes of
/// "arena <i>: <free count> free" and a newline.
pub open spec fn spec_dump_line(v: ArenaView, i: int) -> Seq<u8> {
    seq![97u8, 114u8, 101u8, 110u8, 97u8, 32u8, (48 + i) as u8, 58u8, 32u8]
        + spec_decimal(v.frees.len()) + seq![32u8, 102u8, 114u8, 101u8, 101u8, 10u8]
}

/// The debug-dump lines of the first `n` arenas, concatenated in order.
pub open spec fn spec_dump_prefix(views: Seq<ArenaView>, n: int) -> Seq<u8>
    decreases n,
{
    if n <= 0 {
        Seq::empty()
    } else {
        spec_dump_prefix(views, n - 1) + spec_dump_line(views[n - 1], n - 1)
    }
}

/// The whole debug dump: one summary line per arena, in class order.
pub open spec fn spec_dump(views: Seq<ArenaView>) -> Seq<u8> {
    spec_dump_prefix(views, 8)
}

/// Writes every byte of `bytes` to the sink, in order.
fn write_all<S: ByteSink>(sink: &mut S, bytes: &Vec<u8>) {
    let mut i: usize = 0;
    while i < bytes.len()
        decreases bytes.len() - i,
    {
        sink.write_byte(bytes[i]);
        i = i + 1;
    }
}

/// The slab dispatcher: one arena per size class, in ascending width order.
pub struct SlabMemory {
    arenas: Vec<Arena>,
}

impl View for SlabMemory {
    type V = Seq<ArenaView>;

    closed spec fn view(&self) -> Seq<ArenaView> {
        self.arenas@.map_values(|a: Arena| a@)
    }
}

impl SlabMemory {
    /// Dispatcher invariant: eight well-formed arenas, the one at position
    /// `i` serving blocks of the `i`-th class width.
    pub open spec fn wf(self) -> bool {
        &&& self@.len() == 8
        &&& forall|i: int| 0 <= i < 8 ==> (#[trigger] self@[i]).wf()
        &&& forall|i: int| 0 <= i < 8 ==> (#[trigger] self@[i]).block_size == width_of_index(i)
    }

    /// Carves the region `[base, base + length)` into eight sub-regions of
    /// `length / 8` bytes each, one per class in ascending width order, and
    /// builds an arena over each with every block free.
    ///
    /// The region must be 1024-aligned at a non-null base and hold at least
    /// 1024 bytes per class; the truncated per-class budget `length / 8`
    /// must be a multiple of 1024, so that every sub-region starts
    /// 1024-aligned.
    #[verifier::rlimit(30)]
    pub fn initialize(base: usize, length: usize) -> (m: SlabMemory)
        requires
            0 < base,
            base as int % 1024 == 0,
            8192 <= length,
            (length as int / 8) % 1024 == 0,
            base + length <= usize::MAX,
        ensures
            m.wf(),
            forall|i: int|
                0 <= i < 8 ==> (#[trigger] m@[i]).base == base + i * (length as int / 8),
            forall|i: int| 0 <= i < 8 ==> (#[trigger] m@[i]).capacity == length / 8,
            forall|i: int|
                0 <= i < 8 ==> (#[trigger] m@[i]).frees == initial_free_list(
                    m@[i].base,
                    m@[i].capacity,
                    m@[i].block_size,
                ),
    {
        let s = length / 8;
        proof {
            lemma_fundamental_div_mod(length as int, 8);
            lemma_mod_bound(length as int, 8);
            assert(8 * (s as int) <= length as int);
            lemma_powers_of_two_widths();
            lemma_carve_aligned(base as int, s as int, 0, 8);
            lemma_carve_aligned(base as int, s as int, 1, 16);
            lemma_carve_aligned(base as int, s as int, 2, 32);
            lemma_carve_aligned(base as int, s as int, 3, 64);
            lemma_carve_aligned(base as int, s as int, 4, 128);
            lemma_carve_aligned(base as int, s as int, 5, 256);
            lemma_carve_aligned(base as int, s as int, 6, 512);
            lemma_carve_aligned(base as int, s as int, 7, 1024);
        }
        let a0 = Arena::new(base, s, 8);
        let a1 = Arena::new(base + s, s, 16);
        let a2 = Arena::new(base + 2 * s, s, 32);
        let a3 = Arena::new(base + 3 * s, s, 64);
        let a4 = Arena::new(base + 4 * s, s, 128);
        let a5 = Arena::new(base + 5 * s, s, 256);
        let a6 = Arena::new(base + 6 * s, s, 512);
        let a7 = Arena::new(base + 7 * s, s, 1024);
        let ghost views = seq![a0@, a1@, a2@, a3@, a4@, a5@, a6@, a7@];
        let mut arenas: Vec<Arena> = Vec::new();
        arenas.push(a0);
        arenas.push(a1);
        arenas.push(a2);
        arenas.push(a3);
        arenas.push(a4);
        arenas.push(a5);
        arenas.push(a6);
        arenas.push(a7);
        let m = SlabMemory { arenas };
        proof {
            assert(m@ =~= views);
            assert(m@[0] == views[0] && m@[1] == views[1] && m@[2] == views[2] && m@[3]
                == views[3] && m@[4] == views[4] && m@[5] == views[5] && m@[6] == views[6] && m@[7]
                == views[7]);
            let sp = length as int / 8;
            assert forall|i: int| 0 <= i < 8 implies (#[trigger] m@[i]).base == base + i * sp by {
                if i == 0 {
                    assert(i * sp == 0 * sp) by (nonlinear_arith)
                        requires
                            i == 0,
                    ;
                } else if i == 1 {
                    assert(i * sp == 1 * sp) by (nonlinear_arith)
                        requires
                            i == 1,
                    ;
                } else if i == 2 {
                    assert(i * sp == 2 * sp) by (nonlinear_arith)
                        requires
                            i == 2,
                    ;
                } else if i == 3 {
                    assert(i * sp == 3 * sp) by (nonlinear_arith)
                        requires
                            i == 3,
                    ;
                } else if i == 4 {
                    assert(i * sp == 4 * sp) by (nonlinear_arith)
                        requires
                            i == 4,
                    ;
                } else if i == 5 {
                    assert(i * sp == 5 * sp) by (nonlinear_arith)
                        requires
                            i == 5,
                    ;
                } else if i == 6 {
                    assert(i * sp == 6 * sp) by (nonlinear_arith)
                        requires
                            i == 6,
                    ;
                } else {
                    assert(i * sp == 7 * sp) by (nonlinear_arith)
                        requires
                            i == 7,
                    ;
                }
            }
        }
        m
    }

    /// Serves one allocation request of `size` bytes with alignment `align`.
    ///
    /// Returns the null address 0 exactly when the size classifies to no
    /// class (zero or over 1024 bytes), the alignment exceeds the class
    /// width, or the class's arena is exhausted; otherwise pops and returns
    /// the head block of the owning arena, which lies in that arena's
    /// sub-region and is aligned to the class width.
    pub fn allocate(&mut self, size: usize, align: usize) -> (p: usize)
        requires
            old(self).wf(),
        ensures
            final(self).wf(),
            slab_lists(final(self)@) == spec_allocate(slab_lists(old(self)@), size, align).0,
            p == spec_allocate(slab_lists(old(self)@), size, align).1,
            forall|i: int|
                0 <= i < 8 ==> (#[trigger] final(self)@[i]).same_geometry(old(self)@[i]),
            size == 0 || size > 1024 ==> p == 0,
            p != 0 ==> (spec_categorize(size) matches Some(c) && align <= c.spec_width()
                && old(self)@[c.spec_class_index() as int].valid_block(p)),
            spec_categorize(size) matches Some(c) && align <= c.spec_width() && slab_lists(
                old(self)@,
            )[c.spec_class_index() as int].len() > 0 ==> p != 0,
    {
        match BlockSize::categorize(size) {
            None => 0,
            Some(c) => {
                if align > c.width() {
                    0
                } else {
                    let i = c.class_index();
                    proof {
                        assert(self@[i as int] == self.arenas@[i as int]@);
                        assert(self.arenas@[i as int]@.wf());
                    }
                    let p = self.arenas[i].allocate();
                    proof {
                        lemma_class_width(c);
                        assert(self@ =~= old(self)@.update(i as int, self@[i as int]));
                        assert(slab_lists(self@) =~= slab_lists(old(self)@).update(
                            i as int,
                            self@[i as int].frees,
                        ));
                        assert(slab_lists(self@) =~~= spec_allocate(
                            slab_lists(old(self)@),
                            size,
                            align,
                        ).0);
                    }
                    p
                }
            },
        }
    }

    /// Takes back the block at `ptr`, handed out earlier for the same
    /// layout: the layout's size recovers the owning class, and the block
    /// becomes the new head of that arena's free list.
    pub fn deallocate(&mut self, ptr: usize, size: usize, align: usize)
        requires
            old(self).wf(),
            can_deallocate(old(self)@, ptr, size, align),
        ensures
            final(self).wf(),
            slab_lists(final(self)@) == spec_deallocate(slab_lists(old(self)@), ptr, size),
            forall|i: int|
                0 <= i < 8 ==> (#[trigger] final(self)@[i]).same_geometry(old(self)@[i]),
    {
        match BlockSize::categorize(size) {
            None => {
            },
            Some(c) => {
                let i = c.class_index();
                proof {
                    assert(self@[i as int] == self.arenas@[i as int]@);
                    assert(self.arenas@[i as int]@.wf());
                }
                self.arenas[i].deallocate(ptr);
                proof {
                    assert(self@ =~= old(self)@.update(i as int, self@[i as int]));
                    assert(slab_lists(self@) =~= slab_lists(old(self)@).update(
                        i as int,
                        self@[i as int].frees,
                    ));
                    assert(slab_lists(self@) =~~= spec_deallocate(
                        slab_lists(old(self)@),
                        ptr,
                        size,
                    ));
                }
            },
        }
    }

    /// Whether `deallocate(ptr, size, align)` may be called in the current
    /// state: the bounds-and-alignment check a debug build makes before
    /// taking a pointer back, plus a scan for a double free.
    pub fn may_deallocate(&self, ptr: usize, size: usize, align: usize) -> (b: bool)
        requires
            self.wf(),
        ensures
            b == can_deallocate(self@, ptr, size, align),
    {
        match BlockSize::categorize(size) {
            None => false,
            Some(c) => {
                if align > c.width() {
                    false
                } else {
                    let i = c.class_index();
                    proof {
                        assert(self@[i as int] == self.arenas@[i as int]@);
                        assert(self.arenas@[i as int]@.wf());
                    }
                    self.arenas[i].owns_block(ptr) && !self.arenas[i].is_free(ptr)
                }
            },
        }
    }

    /// Number of free blocks left in the arena of class `c`.
    pub fn free_blocks(&self, c: BlockSize) -> (n: usize)
        requires
            self.wf(),
        ensures
            n == slab_lists(self@)[c.spec_class_index() as int].len(),
    {
        let i = c.class_index();
        proof {
            assert(self@[i as int] == self.arenas@[i as int]@);
        }
        self.arenas[i].free_count()
    }

    /// The whole debug dump as bytes: the eight summary lines of
    /// `spec_dump`, exactly.
    pub fn dump_bytes(&self) -> (v: Vec<u8>)
        requires
            self.wf(),
        ensures
            v@ == spec_dump(self@),
    {
        let mut out: Vec<u8> = Vec::new();
        let mut i: usize = 0;
        while i < 8
            invariant
                self.wf(),
                i <= 8,
                out@ == spec_dump_prefix(self@, i as int),
            decreases 8 - i,
        {
            // "arena <i>: <count> free\n", spelled out in ASCII bytes
            let mut line: Vec<u8> = vec![97u8, 114u8, 101u8, 110u8, 97u8, 32u8];
            line.push(48 + i as u8);
            line.push(58);
            line.push(32);
            proof {
                assert(self@[i as int] == self.arenas@[i as int]@);
            }
            let mut digits = decimal_digits(self.arenas[i].free_count());
            line.append(&mut digits);
            line.push(32);
            line.push(102);
            line.push(114);
            line.push(101);
            line.push(101);
            line.push(10);
            assert(line@ =~= spec_dump_line(self@[i as int], i as int));
            out.append(&mut line);
            i = i + 1;
        }
        out
    }

    /// Writes one human-readable line per arena to the sink, giving its
    /// position and its current number of free blocks: `dump_bytes` pins the
    /// bytes to `spec_dump(self@)`, and `write_all` hands the sink exactly
    /// those bytes, first to last.  Performs no allocation through the
    /// dispatcher being dumped.
    pub fn debug_print<S: ByteSink>(&self, sink: &mut S)
        requires
            self.wf(),
    {
        let bytes = self.dump_bytes();
        write_all(sink, &bytes);
    }
}

/// A sub-region boundary `base + i * s` built from 1024-aligned `base` and
/// `s` stays aligned to any class width `w` dividing 1024, and so does the
/// budget `s` itself.
proof fn lemma_carve_aligned(base: int, s: int, i: int, w: int)
    requires
        base % 1024 == 0,
        s % 1024 == 0,
        0 <= i,
        0 < w,
        w * (1024int / w) == 1024,
    ensures
        (base + i * s) % w == 0,
        s % w == 0,
{
    lemma_fundamental_div_mod(base, 1024);
    lemma_fundamental_div_mod(s, 1024);
    let qb = base / 1024;
    let qs = s / 1024;
    let m = 1024int / w;
    assert(base == 1024 * qb);
    assert(s == 1024 * qs);
    assert(base + i * s == ((qb + i * qs) * m) * w) by (nonlinear_arith)
        requires
            base == 1024 * qb,
            s == 1024 * qs,
            w * m == 1024,
    ;
    lemma_mod_multiples_basic((qb + i * qs) * m, w);
    assert(s == (qs * m) * w) by (nonlinear_arith)
        requires
            s == 1024 * qs,
            w * m == 1024,
    ;
    lemma_mod_multiples_basic(qs * m, w);
}

/// Every class width is a power of two.
proof fn lemma_powers_of_two_widths()
    ensures
        is_power_of_two(8nat),
        is_power_of_two(16nat),
        is_power_of_two(32nat),
        is_power_of_two(64nat),
        is_power_of_two(128nat),
        is_power_of_two(256nat),
        is_power_of_two(512nat),
        is_power_of_two(1024nat),
{
    reveal_with_fuel(is_power_of_two, 12);
}

/// Law: deallocating the block just allocated, under the same layout,
/// restores the dispatcher's free lists exactly.
pub proof fn lemma_slab_roundtrip(lists: Seq<Seq<usize>>, size: usize, align: usize)
    requires
        lists.len() == 8,
        spec_categorize(size) matches Some(c) && align <= c.spec_width() && lists[
            c.spec_class_index() as int
        ].len() > 0,
    ensures
        spec_deallocate(
            spec_allocate(lists, size, align).0,
            spec_allocate(lists, size, align).1,
            size,
        ) == lists,
{
    let c = choose|c: BlockSize| spec_categorize(size) == Some(c);
    let i = c.spec_class_index() as int;
    lemma_allocate_then_deallocate(lists[i]);
    assert(spec_deallocate(
        spec_allocate(lists, size, align).0,
        spec_allocate(lists, size, align).1,
        size,
    ) =~~= lists);
}

/// Law: allocating right after a deallocation of the same layout returns
/// the block just freed, and the free lists return to their previous state
/// (LIFO reuse).
pub proof fn lemma_slab_lifo_reuse(lists: Seq<Seq<usize>>, ptr: usize, size: usize, align: usize)
    requires
        lists.len() == 8,
        spec_categorize(size) matches Some(c) && align <= c.spec_width(),
    ensures
        spec_allocate(spec_deallocate(lists, ptr, size), size, align).1 == ptr,
        spec_allocate(spec_deallocate(lists, ptr, size), size, align).0 == lists,
{
    let c = choose|c: BlockSize| spec_categorize(size) == Some(c);
    let i = c.spec_class_index() as int;
    lemma_lifo_reuse(lists[i], ptr);
    assert(spec_allocate(spec_deallocate(lists, ptr, size), size, align).0 =~~= lists);
}

/// The dispatcher state after one request of the given kind, all under one
/// layout `(size, align)`.
pub open spec fn slab_op_step(lists: Seq<Seq<usize>>, op: ArenaOp, size: usize, align: usize) -> Seq<
    Seq<usize>,
> {
    match op {
        ArenaOp::Allocate => spec_allocate(lists, size, align).0,
        ArenaOp::Deallocate(p) => spec_deallocate(lists, p, size),
    }
}

/// The dispatcher state after a whole run of requests under one layout.
pub open spec fn slab_run_ops(lists: Seq<Seq<usize>>, ops: Seq<ArenaOp>, size: usize, align: usize) -> Seq<
    Seq<usize>,
>
    decreases ops.len(),
{
    if ops.len() == 0 {
        lists
    } else {
        slab_run_ops(slab_op_step(lists, ops[0], size, align), ops.drop_first(), size, align)
    }
}

/// A run of requests under one accepted layout only ever touches the owning
/// class: its free list evolves exactly as the arena's own run semantics
/// say, and every other class keeps its free list untouched.
pub proof fn lemma_slab_run_stays_in_class(
    lists: Seq<Seq<usize>>,
    c: BlockSize,
    ops: Seq<ArenaOp>,
    size: usize,
    align: usize,
)
    requires
        lists.len() == 8,
        spec_categorize(size) == Some(c),
        align <= c.spec_width(),
    ensures
        slab_run_ops(lists, ops, size, align) == lists.update(
            c.spec_class_index() as int,
            run_ops(lists[c.spec_class_index() as int], ops),
        ),
    decreases ops.len(),
{
    let i = c.spec_class_index() as int;
    if ops.len() == 0 {
        assert(slab_run_ops(lists, ops, size, align) =~~= lists.update(i, run_ops(lists[i], ops)));
    } else {
        let stepped = slab_op_step(lists, ops[0], size, align);
        assert(stepped == lists.update(i, op_step(lists[i], ops[0])));
        lemma_slab_run_stays_in_class(stepped, c, ops.drop_first(), size, align);
        assert(slab_run_ops(lists, ops, size, align) =~~= lists.update(i, run_ops(lists[i], ops)));
    }
}

/// Law: a balanced run of requests under one accepted layout — every
/// allocation finds a block, and every block allocated in the run comes
/// back — leaves every class's set of free blocks exactly as it found it:
/// the owning class keeps the same blocks, in whatever order they came
/// back, and no other class is touched at all.
pub proof fn lemma_slab_balanced_run_preserves_free_sets(
    lists: Seq<Seq<usize>>,
    c: BlockSize,
    ops: Seq<ArenaOp>,
    size: usize,
    align: usize,
)
    requires
        lists.len() == 8,
        spec_categorize(size) == Some(c),
        align <= c.spec_width(),
        sound_run(lists[c.spec_class_index() as int], ops, Set::empty()),
        live_after(lists[c.spec_class_index() as int], ops, Set::empty()) == Set::<usize>::empty(),
    ensures
        forall|j: int|
            0 <= j < 8 ==> (#[trigger] slab_run_ops(lists, ops, size, align)[j]).to_set()
                == lists[j].to_set(),
        forall|j: int|
            0 <= j < 8 && j != c.spec_class_index() as int ==> #[trigger] slab_run_ops(
                lists,
                ops,
                size,
                align,
            )[j] == lists[j],
{
    let i = c.spec_class_index() as int;
    lemma_slab_run_stays_in_class(lists, c, ops, size, align);
    lemma_balanced_run_preserves_free_set(lists[i], ops);
}

/// The addresses handed out by `n` consecutive allocation requests under
/// one layout.
pub open spec fn slab_alloc_run_results(
    lists: Seq<Seq<usize>>,
    size: usize,
    align: usize,
    n: nat,
) -> Seq<usize>
    decreases n,
{
    if n == 0 {
        Seq::empty()
    } else {
        seq![spec_allocate(lists, size, align).1] + slab_alloc_run_results(
            spec_allocate(lists, size, align).0,
            size,
            align,
            (n - 1) as nat,
        )
    }
}

/// `n` consecutive allocation requests under one accepted layout hand out
/// exactly what the owning arena's own allocation run hands out.
pub proof fn lemma_slab_alloc_run_matches_arena(
    lists: Seq<Seq<usize>>,
    c: BlockSize,
    size: usize,
    align: usize,
    n: nat,
)
    requires
        lists.len() == 8,
        spec_categorize(size) == Some(c),
        align <= c.spec_width(),
    ensures
        slab_alloc_run_results(lists, size, align, n) == alloc_run_results(
            lists[c.spec_class_index() as int],
            n,
        ),
    decreases n,
{
    let i = c.spec_class_index() as int;
    if n > 0 {
        let stepped = spec_allocate(lists, size, align).0;
        assert(stepped == lists.update(i, alloc_step(lists[i])));
        assert(stepped[i] == alloc_step(lists[i]));
        lemma_slab_alloc_run_matches_arena(stepped, c, size, align, (n - 1) as nat);
    }
}

/// Law: starting from free lists of non-null addresses, the `j`-th of `n`
/// consecutive allocation requests under one accepted layout succeeds
/// exactly when the owning class still has a block for it: a null appears
/// in the run exactly when `n` exceeds that class's free-block count.
pub proof fn lemma_slab_alloc_run_exhaustion(
    lists: Seq<Seq<usize>>,
    c: BlockSize,
    size: usize,
    align: usize,
    n: nat,
)
    requires
        lists.len() == 8,
        spec_categorize(size) == Some(c),
        align <= c.spec_width(),
        forall|k: int|
            0 <= k < lists[c.spec_class_index() as int].len()
                ==> #[trigger] lists[c.spec_class_index() as int][k] != 0usize,
    ensures
        slab_alloc_run_results(lists, size, align, n).len() == n,
        forall|j: int|
            0 <= j < n ==> (#[trigger] slab_alloc_run_results(lists, size, align, n)[j] != 0 <==> j
                < lists[c.spec_class_index() as int].len()),
{
    let i = c.spec_class_index() as int;
    lemma_slab_alloc_run_matches_arena(lists, c, size, align, n);
    lemma_alloc_run_exhaustion(lists[i], n);
}

} // verus!
