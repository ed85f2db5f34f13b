//! A size-class segregated slab allocator, modelled and verified over plain
//! addresses.
//!
//! The allocator carves one contiguous memory region into eight sub-regions,
//! one per block width (8 to 1024 bytes), and serves fixed-size blocks from
//! each off a per-class free list.  Raw memory itself stays outside this
//! crate: blocks
//! are identified by their addresses, and each arena's free list is kept as an
//! explicit sequence of block addresses.  A deployment that owns real memory
//! wires these addresses to it; the address 0 is the null sentinel.

pub mod arena;
pub mod config;
pub mod memory;
pub mod utils;

use vstd::prelude::*;
use crate::arena::ArenaView;
use crate::memory::{
    can_deallocate, slab_lists, spec_allocate, spec_deallocate, width_of_index, ByteSink,
    SlabMemory,
};

verus! {

/// The process-wide allocation surface.
///
/// A `SlabAllocator` starts with no registered memory and answers requests
/// only after `initialize` has handed it a region exactly once, mirroring
/// the lifecycle of a global allocation hook: uninitialized at program
/// start, populated once, then mutated only through `allocate` and `deallocate`.
pub struct SlabAllocator {
    memory: Option<SlabMemory>,
}

impl SlabAllocator {
    /// Whether `initialize` has run.
    pub closed spec fn is_initialized(self) -> bool {
        self.memory is Some
    }

    /// The dispatcher state: eight arena models, in class order, or nothing
    /// before initialization.
    pub closed spec fn views(self) -> Seq<ArenaView> {
        match self.memory {
            Some(m) => m@,
            None => Seq::empty(),
        }
    }

    /// Allocator invariant: once initialized, the dispatcher is well formed.
    pub closed spec fn wf(self) -> bool {
        match self.memory {
            Some(m) => m.wf(),
            None => true,
        }
    }

    /// An allocator with no memory registered yet.
    pub fn new() -> (a: SlabAllocator)
        ensures
            a.wf(),
            !a.is_initialized(),
    {
        SlabAllocator { memory: None }
    }

    /// Registers the region `[base, base + length)` and carves it into the
    /// eight class arenas.  To be called exactly once, before any `allocate` or
    /// `deallocate`.
    pub fn initialize(&mut self, base: usize, length: usize)
        requires
            !old(self).is_initialized(),
            0 < base,
            base as int % 1024 == 0,
            8192 <= length,
            (length as int / 8) % 1024 == 0,
            base + length <= usize::MAX,
        ensures
            final(self).wf(),
            final(self).is_initialized(),
            final(self).views().len() == 8,
            forall|i: int|
                0 <= i < 8 ==> (#[trigger] final(self).views()[i]).block_size == width_of_index(
                    i,
                ),
            forall|i: int|
                0 <= i < 8 ==> (#[trigger] final(self).views()[i]).base == base + i * (
                length as int / 8),
            forall|i: int|
                0 <= i < 8 ==> (#[trigger] final(self).views()[i]).capacity == length / 8,
            forall|i: int|
                0 <= i < 8 ==> (#[trigger] final(self).views()[i]).frees
                    == crate::arena::initial_free_list(
                    final(self).views()[i].base,
                    final(self).views()[i].capacity,
                    final(self).views()[i].block_size,
                ),
    {
        self.memory = Some(SlabMemory::initialize(base, length));
    }

    /// Serves one allocation request, as the dispatcher does: the null
    /// address 0 for a zero, over-sized or over-aligned request and for an
    /// exhausted class, otherwise the head block of the owning arena.
    pub fn allocate(&mut self, size: usize, align: usize) -> (p: usize)
        requires
            old(self).wf(),
            old(self).is_initialized(),
        ensures
            final(self).wf(),
            final(self).is_initialized(),
            slab_lists(final(self).views()) == spec_allocate(
                slab_lists(old(self).views()),
                size,
                align,
            ).0,
            p == spec_allocate(slab_lists(old(self).views()), size, align).1,
            forall|i: int|
                0 <= i < 8 ==> (#[trigger] final(self).views()[i]).same_geometry(
                    old(self).views()[i],
                ),
    {
        match &mut self.memory {
            Some(m) => m.allocate(size, align),
            None => 0,
        }
    }

    /// Takes back a block handed out earlier under the same layout.
    pub fn deallocate(&mut self, ptr: usize, size: usize, align: usize)
        requires
            old(self).wf(),
            old(self).is_initialized(),
            can_deallocate(old(self).views(), ptr, size, align),
        ensures
            final(self).wf(),
            final(self).is_initialized(),
            slab_lists(final(self).views()) == spec_deallocate(
                slab_lists(old(self).views()),
                ptr,
                size,
            ),
            forall|i: int|
                0 <= i < 8 ==> (#[trigger] final(self).views()[i]).same_geometry(
                    old(self).views()[i],
                ),
    {
        match &mut self.memory {
            Some(m) => m.deallocate(ptr, size, align),
            None => {
            },
        }
    }

    /// Whether `deallocate(ptr, size, align)` may be called in the current
    /// state; always false before initialization.
    pub fn may_deallocate(&self, ptr: usize, size: usize, align: usize) -> (b: bool)
        requires
            self.wf(),
        ensures
            b == (self.is_initialized() && can_deallocate(self.views(), ptr, size, align)),
    {
        match &self.memory {
            Some(m) => m.may_deallocate(ptr, size, align),
            None => false,
        }
    }

    /// Writes one summary line per arena to the sink — exactly the bytes of
    /// `memory::spec_dump` over the dispatcher state; nothing before
    /// initialization.
    pub fn debug_dump<S: ByteSink>(&self, sink: &mut S)
        requires
            self.wf(),
    {
        match &self.memory {
            Some(m) => m.debug_print(sink),
            None => {
            },
        }
    }
}

} // verus!
