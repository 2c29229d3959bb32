//! Fixed-layout object pools.
//!
//! A pool here is the bookkeeping of a slab: it numbers the slots of a
//! region that holds objects of one layout, and knows which of them are
//! handed out. It holds neither the region nor the objects. Those belong to
//! whoever keeps the handles: a [`SlabBox`] keeps its object beside the
//! handle of the slot that is set aside for it.
//!
//! Which slots are free is kept in a free list; an allocation takes the slot
//! at the head of that list, and handing a slot back puts it there. Every
//! handle names the pool that it comes from, and a pool takes back none but
//! its own. [`SlabAllocator`] pins one pool to one type.

use crate::id::Id;
use core::marker::PhantomData;
use vstd::arithmetic::div_mod::lemma_fundamental_div_mod;
use vstd::prelude::*;

verus! {

/// The number of slots in a pool made by [`SlabAllocator::new`].
pub const SLAB_SLOTS: usize = 64;

/// The number by which the pool made by [`SlabAllocator::new`] is known.
pub const DEFAULT_POOL: usize = 0;

/// Marks the types that may have a [`SlabAllocator`] of their own.
pub trait SlabAllocatable {

}

/// Size and alignment of the objects of one type, in bytes.
#[derive(Clone, Copy, Debug, PartialEq, Eq, Structural)]
pub struct ObjectLayout {
    pub size: usize,
    pub align: usize,
}

impl ObjectLayout {
    /// Whether this is the layout of the type `T`.
    pub open spec fn is_layout_of<T>(self) -> bool {
        &&& self.size as nat == vstd::layout::size_of::<T>()
        &&& self.align as nat == vstd::layout::align_of::<T>()
    }

    /// The layout of the type `T`.
    pub fn of<T>() -> (layout: ObjectLayout)
        ensures
            layout.is_layout_of::<T>(),
    {
        ObjectLayout { size: core::mem::size_of::<T>(), align: core::mem::align_of::<T>() }
    }
}

/// A type has one layout: a layout that differs from the layout of `T` in
/// size or alignment is not a layout of `T`.
pub proof fn lemma_one_layout_per_type<T>(first: ObjectLayout, second: ObjectLayout)
    requires
        first.is_layout_of::<T>(),
    ensures
        second.is_layout_of::<T>() <==> second == first,
{
}

/// What an allocation hands to its caller: the pool that it comes from, the
/// slot that now belongs to the caller, and the size in bytes of the object
/// that the slot is for.
#[derive(Clone, Copy, Debug, PartialEq, Eq, Structural)]
pub struct ObjectHandle {
    pub pool: Id,
    pub slot: usize,
    pub size: usize,
}

/// The pool has no free slot left.
#[derive(Clone, Copy, Debug, PartialEq, Eq, Structural)]
pub struct AllocError;

/// The handle is not one that the pool has handed out and not yet taken
/// back.
#[derive(Clone, Copy, Debug, PartialEq, Eq, Structural)]
pub struct FreeError;

/// Why a slab allocator refuses a request.
#[derive(Clone, Copy, Debug, PartialEq, Eq, Structural)]
pub enum SlabError {
    /// The layout is not the layout of the type that the allocator is for.
    ForeignLayout,
    /// No slot is free.
    OutOfSlots,
    /// The handle is not one that this allocator has handed out and not yet
    /// taken back.
    ForeignHandle,
}

/// A pool as contracts see it.
pub struct PoolView {
    /// The identifier by which the pool is known and which its handles
    /// carry.
    pub id: Id,
    /// The layout of the objects that the slots are for.
    pub layout: ObjectLayout,
    /// The number of slots, free or not.
    pub capacity: nat,
    /// The free slots, in the order in which allocations will take them: the
    /// last one first.
    pub free: Seq<usize>,
}

impl PoolView {
    /// Every free slot is a slot of the pool and is listed once.
    pub open spec fn wf(self) -> bool {
        &&& self.free.no_duplicates()
        &&& forall|i: int| 0 <= i < self.free.len() ==> (#[trigger] self.free[i]) < self.capacity
    }

    /// A pool of `slots` free slots, of which slot 0 is taken first, then
    /// slot 1, and so on.
    pub open spec fn fresh(id: Id, layout: ObjectLayout, slots: nat) -> PoolView {
        PoolView {
            id,
            layout,
            capacity: slots,
            free: Seq::new(slots, |i: int| (slots - 1 - i) as usize),
        }
    }

    /// Whether `slot` is a slot of the pool that is handed out at present.
    pub open spec fn in_use(self, slot: usize) -> bool {
        slot < self.capacity && !self.free.contains(slot)
    }

    /// Whether `handle` is a handle of this pool whose slot is handed out
    /// at present, so that the pool takes it back.
    pub open spec fn owns(self, handle: ObjectHandle) -> bool {
        handle.pool == self.id && self.in_use(handle.slot)
    }

    /// Whether a slot starts `offset` bytes into the region of the pool,
    /// in which the slots follow each other without gaps, and no other
    /// slot starts there too.
    pub open spec fn slot_starts_at(self, offset: usize) -> bool {
        &&& self.layout.size > 0
        &&& offset % self.layout.size == 0
        &&& offset / self.layout.size < self.capacity
    }

    /// The number of slots that are handed out at present.
    pub open spec fn used(self) -> int {
        self.capacity - self.free.len()
    }

    /// Whether no slot is free.
    pub open spec fn is_full(self) -> bool {
        self.free.len() == 0
    }

    /// The handle that the next allocation hands out. Meaningful unless
    /// the pool is full.
    pub open spec fn next_handle(self) -> ObjectHandle {
        ObjectHandle { pool: self.id, slot: self.free.last(), size: self.layout.size }
    }

    /// The pool after an allocation: unchanged if it was full.
    pub open spec fn after_allocate(self) -> PoolView {
        if self.is_full() {
            self
        } else {
            PoolView { free: self.free.drop_last(), ..self }
        }
    }

    /// The pool after `handle` was handed back: unchanged if the pool does
    /// not own it.
    pub open spec fn after_free(self, handle: ObjectHandle) -> PoolView {
        if self.owns(handle) {
            PoolView { free: self.free.push(handle.slot), ..self }
        } else {
            self
        }
    }

    /// The pool after `count` allocations in a row.
    pub open spec fn after_allocations(self, count: nat) -> PoolView
        decreases count,
    {
        if count == 0 {
            self
        } else {
            self.after_allocate().after_allocations((count - 1) as nat)
        }
    }
}

/// A list without its last entry holds what the list holds, but for that
/// entry where the list holds nothing twice.
proof fn lemma_contains_without_last(list: Seq<usize>)
    requires
        list.len() > 0,
        list.no_duplicates(),
    ensures
        list.drop_last().no_duplicates(),
        forall|slot: usize| #[trigger]
            list.drop_last().contains(slot) <==> list.contains(slot) && slot != list.last(),
{
    let shorter = list.drop_last();
    assert forall|slot: usize| #[trigger]
        shorter.contains(slot) <==> list.contains(slot) && slot != list.last() by {
        if shorter.contains(slot) {
            let i = choose|i: int| 0 <= i < shorter.len() && shorter[i] == slot;
            assert(list[i] == slot);
        }
        if list.contains(slot) && slot != list.last() {
            let i = choose|i: int| 0 <= i < list.len() && list[i] == slot;
            assert(shorter[i] == slot);
        }
    }
}

/// A list with one more entry holds what the list holds, and that entry.
proof fn lemma_contains_with_one_more(list: Seq<usize>, added: usize)
    ensures
        forall|slot: usize| #[trigger]
            list.push(added).contains(slot) <==> list.contains(slot) || slot == added,
        !list.contains(added) && list.no_duplicates() ==> list.push(added).no_duplicates(),
{
    let longer = list.push(added);
    assert(longer[longer.len() - 1] == added);
    assert forall|slot: usize| #[trigger]
        longer.contains(slot) <==> list.contains(slot) || slot == added by {
        if longer.contains(slot) && slot != added {
            let i = choose|i: int| 0 <= i < longer.len() && longer[i] == slot;
            assert(list[i] == slot);
        }
        if list.contains(slot) {
            let i = choose|i: int| 0 <= i < list.len() && list[i] == slot;
            assert(longer[i] == slot);
        }
    }
}

/// Allocating keeps a pool in order, and the slot handed out was free before
/// and is handed out afterwards. No other slot changes hands.
pub proof fn lemma_allocate_takes_free_slot(pool: PoolView)
    requires
        pool.wf(),
        !pool.is_full(),
    ensures
        pool.after_allocate().wf(),
        pool.next_handle().slot < pool.capacity,
        !pool.owns(pool.next_handle()),
        pool.after_allocate().owns(pool.next_handle()),
        pool.after_allocate().used() == pool.used() + 1,
        forall|slot: usize|
            slot != pool.next_handle().slot ==> (pool.after_allocate().in_use(slot)
                <==> pool.in_use(slot)),
{
    lemma_contains_without_last(pool.free);
    assert(pool.free[pool.free.len() - 1] == pool.free.last());
}

/// Handing back a handle that the pool owns keeps the pool in order and
/// frees the slot of the handle and no other.
pub proof fn lemma_free_releases_slot(pool: PoolView, handle: ObjectHandle)
    requires
        pool.wf(),
        pool.owns(handle),
    ensures
        pool.after_free(handle).wf(),
        !pool.after_free(handle).owns(handle),
        pool.after_free(handle).next_handle().slot == handle.slot,
        pool.after_free(handle).used() == pool.used() - 1,
        forall|slot: usize|
            slot != handle.slot ==> (pool.after_free(handle).in_use(slot) <==> pool.in_use(slot)),
{
    lemma_contains_with_one_more(pool.free, handle.slot);
    let after = pool.after_free(handle);
    assert forall|i: int| 0 <= i < after.free.len() implies (#[trigger] after.free[i])
        < after.capacity by {
        if i < pool.free.len() {
            assert(after.free[i] == pool.free[i]);
        }
    }
}

/// A pool takes back no handle of another pool, whatever its slot: the
/// request is refused and nothing changes.
pub proof fn lemma_foreign_handle_refused(pool: PoolView, handle: ObjectHandle)
    requires
        handle.pool != pool.id,
    ensures
        !pool.owns(handle),
        pool.after_free(handle) == pool,
{
}

/// An allocation followed by handing the same handle back leaves the pool
/// as it was, so the allocation after that takes the very same slot:
/// nothing leaks over such a cycle.
pub proof fn lemma_allocate_free_round_trip(pool: PoolView)
    requires
        pool.wf(),
        !pool.is_full(),
    ensures
        pool.after_allocate().after_free(pool.next_handle()) == pool,
        !pool.after_allocate().after_free(pool.next_handle()).is_full(),
        pool.after_allocate().after_free(pool.next_handle()).next_handle() == pool.next_handle(),
{
    lemma_allocate_takes_free_slot(pool);
    assert(pool.free.drop_last().push(pool.free.last()) =~= pool.free);
}

/// Of allocations in a row, those succeed for which a free slot is left: a
/// pool with `n` free slots serves `n` of them and fails the one after, and
/// is meanwhile in order.
pub proof fn lemma_allocations_until_full(pool: PoolView, count: nat)
    requires
        pool.wf(),
    ensures
        pool.after_allocations(count).wf(),
        pool.after_allocations(count).capacity == pool.capacity,
        pool.after_allocations(count).id == pool.id,
        pool.after_allocations(count).layout == pool.layout,
        count <= pool.free.len() ==> pool.after_allocations(count).free == pool.free.subrange(
            0,
            pool.free.len() - count,
        ),
        count < pool.free.len() ==> !pool.after_allocations(count).is_full(),
        count >= pool.free.len() ==> pool.after_allocations(count).is_full(),
    decreases count,
{
    if count == 0 {
        assert(pool.free.subrange(0, pool.free.len() as int) =~= pool.free);
    } else if pool.is_full() {
        lemma_allocations_until_full(pool, (count - 1) as nat);
    } else {
        lemma_allocate_takes_free_slot(pool);
        let next = pool.after_allocate();
        lemma_allocations_until_full(next, (count - 1) as nat);
        if count <= pool.free.len() {
            assert(next.free.subrange(0, next.free.len() - (count - 1)) =~= pool.free.subrange(
                0,
                pool.free.len() - count,
            ));
        }
    }
}

/// A pool made with `slots` slots serves exactly `slots` allocations in a
/// row, the first in slot 0, the next in slot 1 and so on, and fails the one
/// after them.
pub proof fn lemma_fresh_pool_serves_its_slots(
    id: Id,
    layout: ObjectLayout,
    slots: usize,
    count: nat,
)
    requires
        count <= slots,
    ensures
        PoolView::fresh(id, layout, slots as nat).wf(),
        PoolView::fresh(id, layout, slots as nat).used() == 0,
        count < slots ==> !PoolView::fresh(id, layout, slots as nat).after_allocations(
            count,
        ).is_full() && PoolView::fresh(id, layout, slots as nat).after_allocations(
            count,
        ).next_handle().slot == count,
        PoolView::fresh(id, layout, slots as nat).after_allocations(slots as nat).is_full(),
{
    let pool = PoolView::fresh(id, layout, slots as nat);
    lemma_allocations_until_full(pool, count);
    lemma_allocations_until_full(pool, slots as nat);
}

/// Whether `free` lists, each once, exactly the slots that `occupied` marks
/// as not in use.
spec fn free_list_matches(occupied: Seq<bool>, free: Seq<usize>) -> bool {
    &&& free.no_duplicates()
    &&& forall|i: int| 0 <= i < free.len() ==> (#[trigger] free[i]) < occupied.len()
    &&& forall|s: usize|
        s < occupied.len() ==> (#[trigger] occupied[s as int] <==> !free.contains(s))
}

/// Marking the last slot of the free list as in use and dropping it from
/// the list keeps flags and list in step.
proof fn lemma_take_keeps_match(occupied: Seq<bool>, free: Seq<usize>)
    requires
        free_list_matches(occupied, free),
        free.len() > 0,
    ensures
        free.last() < occupied.len(),
        free_list_matches(occupied.update(free.last() as int, true), free.drop_last()),
{
    lemma_contains_without_last(free);
    assert(free[free.len() - 1] == free.last());
    let flags = occupied.update(free.last() as int, true);
    let list = free.drop_last();
    assert forall|i: int| 0 <= i < list.len() implies (#[trigger] list[i]) < flags.len() by {
        assert(list[i] == free[i]);
    }
}

/// Marking a slot that is in use as free and putting it on the free list
/// keeps flags and list in step.
proof fn lemma_give_keeps_match(occupied: Seq<bool>, free: Seq<usize>, slot: usize)
    requires
        free_list_matches(occupied, free),
        slot < occupied.len(),
        occupied[slot as int],
    ensures
        !free.contains(slot),
        free_list_matches(occupied.update(slot as int, false), free.push(slot)),
{
    lemma_contains_with_one_more(free, slot);
    let flags = occupied.update(slot as int, false);
    let list = free.push(slot);
    assert forall|i: int| 0 <= i < list.len() implies (#[trigger] list[i]) < flags.len() by {
        if i < free.len() {
            assert(list[i] == free[i]);
        }
    }
}

/// The bookkeeping of a pool of slots for objects of one layout. It is made
/// with all its slots and never grows.
pub struct InternalSlabAllocator {
    id: Id,
    layout: ObjectLayout,
    occupied: Vec<bool>,
    free: Vec<usize>,
}

impl View for InternalSlabAllocator {
    type V = PoolView;

    closed spec fn view(&self) -> PoolView {
        PoolView {
            id: self.id,
            layout: self.layout,
            capacity: self.occupied@.len(),
            free: self.free@,
        }
    }
}

impl InternalSlabAllocator {
    /// Whether the pool keeps its books in order: the flag of each slot says
    /// whether the free list holds it.
    pub closed spec fn wf(&self) -> bool {
        free_list_matches(self.occupied@, self.free@)
    }

    /// A pool in order has a view in order.
    pub proof fn lemma_view_wf(&self)
        requires
            self.wf(),
        ensures
            self@.wf(),
    {
    }

    /// A pool known as `id` with `slots` slots for objects of the layout
    /// `layout`, all of them free.
    pub fn new(id: Id, layout: ObjectLayout, slots: usize) -> (pool: Self)
        ensures
            pool.wf(),
            pool@ == PoolView::fresh(id, layout, slots as nat),
    {
        let mut occupied: Vec<bool> = Vec::new();
        let mut free: Vec<usize> = Vec::new();
        let mut done: usize = 0;
        while done < slots
            invariant
                done <= slots,
                occupied@.len() == done,
                free@.len() == done,
                forall|s: int| 0 <= s < done ==> !(#[trigger] occupied@[s]),
                forall|i: int| 0 <= i < done ==> (#[trigger] free@[i]) == slots - 1 - i,
            decreases slots - done,
        {
            occupied.push(false);
            free.push(slots - 1 - done);
            done = done + 1;
        }
        proof {
            assert forall|s: usize| s < occupied@.len() implies (#[trigger] occupied@[s as int]
                <==> !free@.contains(s)) by {
                assert(free@[slots - 1 - s] == s);
            }
            assert(free@ =~= PoolView::fresh(id, layout, slots as nat).free);
        }
        InternalSlabAllocator { id, layout, occupied, free }
    }

    /// Takes the slot at the head of the free list, if there is one.
    pub fn allocate(&mut self) -> (got: Option<ObjectHandle>)
        requires
            old(self).wf(),
        ensures
            final(self).wf(),
            final(self)@ == old(self)@.after_allocate(),
            got is None <==> old(self)@.is_full(),
            got matches Some(handle) ==> {
                &&& handle == old(self)@.next_handle()
                &&& !old(self)@.owns(handle)
                &&& final(self)@.owns(handle)
            },
    {
        proof {
            if !old(self)@.is_full() {
                lemma_allocate_takes_free_slot(old(self)@);
                lemma_take_keeps_match(old(self).occupied@, old(self).free@);
            }
        }
        match self.free.pop() {
            Some(slot) => {
                self.occupied.set(slot, true);
                Some(ObjectHandle { pool: self.id, slot, size: self.layout.size })
            },
            None => None,
        }
    }

    /// Puts the slot of `handle` back at the head of the free list. Refuses
    /// a handle that the pool does not own, and then changes nothing.
    pub fn free(&mut self, handle: ObjectHandle) -> (done: Result<(), FreeError>)
        requires
            old(self).wf(),
        ensures
            final(self).wf(),
            final(self)@ == old(self)@.after_free(handle),
            done is Ok <==> old(self)@.owns(handle),
    {
        if !self.owns(handle) {
            return Err(FreeError);
        }
        proof {
            lemma_give_keeps_match(self.occupied@, self.free@, handle.slot);
        }
        self.occupied.set(handle.slot, false);
        self.free.push(handle.slot);
        Ok(())
    }

    /// Whether no slot is free.
    pub fn is_full(&self) -> (yes: bool)
        ensures
            yes == self@.is_full(),
    {
        self.free.len() == 0
    }

    /// Whether `handle` is a handle of this pool whose slot is handed out
    /// at present.
    pub fn owns(&self, handle: ObjectHandle) -> (yes: bool)
        requires
            self.wf(),
        ensures
            yes == self@.owns(handle),
    {
        handle.pool == self.id && handle.slot < self.occupied.len() && self.occupied[handle.slot]
    }

    /// The handle of the slot that starts `offset` bytes into the region
    /// of the pool, in which the slots follow each other without gaps.
    /// There is none where no slot starts there, nor where the objects
    /// have no size and so all slots start at once.
    pub fn handle_at(&self, offset: usize) -> (found: Option<ObjectHandle>)
        ensures
            found is Some <==> self@.slot_starts_at(offset),
            found matches Some(handle) ==> {
                &&& handle.pool == self@.id
                &&& handle.size == self@.layout.size
                &&& handle.slot < self@.capacity
                &&& handle.slot * handle.size == offset
            },
    {
        let size = self.layout.size;
        if size == 0 || offset % size != 0 || offset / size >= self.occupied.len() {
            return None;
        }
        proof {
            lemma_fundamental_div_mod(offset as int, size as int);
            assert((offset / size) * size == size * (offset / size)) by (nonlinear_arith);
        }
        Some(ObjectHandle { pool: self.id, slot: offset / size, size })
    }

    /// The identifier by which the pool is known.
    pub fn id(&self) -> (id: Id)
        ensures
            id == self@.id,
    {
        self.id
    }

    /// The layout of the objects that the slots are for.
    pub fn layout(&self) -> (layout: ObjectLayout)
        ensures
            layout == self@.layout,
    {
        self.layout
    }
}

/// The bookkeeping of a slab that is pinned to the type `T`: it serves
/// requests for the layout of `T` and no other.
pub struct SlabAllocator<T: SlabAllocatable> {
    allocator: InternalSlabAllocator,
    phantom_data: PhantomData<T>,
}

impl<T: SlabAllocatable> View for SlabAllocator<T> {
    type V = PoolView;

    closed spec fn view(&self) -> PoolView {
        self.allocator@
    }
}

impl<T: SlabAllocatable> SlabAllocator<T> {
    /// Whether the pool keeps its books in order and is for objects of the
    /// layout of `T`.
    pub closed spec fn wf(&self) -> bool {
        self.allocator.wf() && self.allocator@.layout.is_layout_of::<T>()
    }

    /// A pool in order has a view in order, with the layout of `T`.
    pub proof fn lemma_view_wf(&self)
        requires
            self.wf(),
        ensures
            self@.wf(),
            self@.layout.is_layout_of::<T>(),
    {
    }

    /// The pool of the type `T`: [`SLAB_SLOTS`] free slots, known as
    /// [`DEFAULT_POOL`]. Where a type has more pools than this one, the
    /// others are made by [`Self::with_id`] with identifiers of their own.
    pub fn new() -> (slab: Self)
        ensures
            slab.wf(),
            slab@.layout.is_layout_of::<T>(),
            slab@ == PoolView::fresh(Id(DEFAULT_POOL), slab@.layout, SLAB_SLOTS as nat),
    {
        let allocator = InternalSlabAllocator::new(
            Id(DEFAULT_POOL),
            ObjectLayout::of::<T>(),
            SLAB_SLOTS,
        );

        Self { allocator, phantom_data: PhantomData }
    }

    /// A pool of `slots` free slots for objects of type `T`, known as `id`.
    pub fn with_id(id: Id, slots: usize) -> (slab: Self)
        ensures
            slab.wf(),
            slab@.layout.is_layout_of::<T>(),
            slab@ == PoolView::fresh(id, slab@.layout, slots as nat),
    {
        let allocator = InternalSlabAllocator::new(id, ObjectLayout::of::<T>(), slots);

        Self { allocator, phantom_data: PhantomData }
    }

    /// The identifier by which the pool is known.
    pub fn id(&self) -> (id: Id)
        ensures
            id == self@.id,
    {
        self.allocator.id()
    }

    /// The handle of the slot that starts `offset` bytes into the region
    /// of the pool, if a slot starts there.
    pub fn handle_at(&self, offset: usize) -> (found: Option<ObjectHandle>)
        ensures
            found is Some <==> self@.slot_starts_at(offset),
            found matches Some(handle) ==> {
                &&& handle.pool == self@.id
                &&& handle.size == self@.layout.size
                &&& handle.slot < self@.capacity
                &&& handle.slot * handle.size == offset
            },
    {
        self.allocator.handle_at(offset)
    }

    /// Whether `layout` is the one layout that this pool serves.
    pub fn serves(&self, layout: ObjectLayout) -> (yes: bool)
        requires
            self.wf(),
        ensures
            yes == layout.is_layout_of::<T>(),
    {
        layout == self.allocator.layout()
    }

    /// Whether no slot is free, so that an allocation would fail.
    pub fn is_full(&self) -> (yes: bool)
        requires
            self.wf(),
        ensures
            yes == self@.is_full(),
    {
        self.allocator.is_full()
    }

    /// Whether `handle` is a handle of this pool whose slot is handed out
    /// at present, so that it can be handed back.
    pub fn owns(&self, handle: ObjectHandle) -> (yes: bool)
        requires
            self.wf(),
        ensures
            yes == self@.owns(handle),
    {
        self.allocator.owns(handle)
    }

    /// Hands out the slot at the head of the free list for an object of the
    /// layout `layout`, which has to be the layout of `T`. Fails when no slot
    /// is free, and only then.
    pub fn allocate(&mut self, layout: ObjectLayout) -> (got: Result<ObjectHandle, AllocError>)
        requires
            old(self).wf(),
            layout.is_layout_of::<T>(),
        ensures
            final(self).wf(),
            final(self)@ == old(self)@.after_allocate(),
            got is Err <==> old(self)@.is_full(),
            got matches Ok(handle) ==> {
                &&& handle == old(self)@.next_handle()
                &&& handle.size == layout.size
                &&& !old(self)@.owns(handle)
                &&& final(self)@.owns(handle)
            },
    {
        match self.allocator.allocate() {
            Some(handle) => Ok(handle),
            None => Err(AllocError),
        }
    }

    /// Takes back `handle`, which this pool owns, for an object of the
    /// layout `layout`, the layout of `T`. Its slot is the next one to be
    /// handed out again.
    pub fn deallocate(&mut self, handle: ObjectHandle, layout: ObjectLayout)
        requires
            old(self).wf(),
            layout.is_layout_of::<T>(),
            old(self)@.owns(handle),
        ensures
            final(self).wf(),
            final(self)@ == old(self)@.after_free(handle),
            final(self)@.free == old(self)@.free.push(handle.slot),
            !final(self)@.owns(handle),
    {
        proof {
            lemma_free_releases_slot(old(self)@, handle);
        }
        let _ = self.allocator.free(handle);
    }

    /// Allocates as [`Self::allocate`] does where `layout` is the layout of
    /// `T` and a slot is free. For any other layout, and when no slot is
    /// free, hands out nothing, says which of the two it was, and changes
    /// nothing.
    pub fn try_allocate(&mut self, layout: ObjectLayout) -> (got: Result<ObjectHandle, SlabError>)
        requires
            old(self).wf(),
        ensures
            final(self).wf(),
            got is Ok <==> layout.is_layout_of::<T>() && !old(self)@.is_full(),
            got matches Ok(handle) ==> {
                &&& handle == old(self)@.next_handle()
                &&& handle.size == layout.size
                &&& final(self)@ == old(self)@.after_allocate()
                &&& final(self)@.owns(handle)
            },
            got matches Err(error) ==> {
                &&& final(self)@ == old(self)@
                &&& error == SlabError::ForeignLayout <==> !layout.is_layout_of::<T>()
                &&& error == SlabError::OutOfSlots <==> layout.is_layout_of::<T>()
            },
    {
        if !self.serves(layout) {
            return Err(SlabError::ForeignLayout);
        }
        match self.allocate(layout) {
            Ok(handle) => Ok(handle),
            Err(_) => Err(SlabError::OutOfSlots),
        }
    }

    /// Takes `handle` back as [`Self::deallocate`] does where `layout` is
    /// the layout of `T` and this pool owns the handle. For any other
    /// layout or handle, takes nothing back, says which of the two it was,
    /// and changes nothing.
    pub fn try_deallocate(&mut self, handle: ObjectHandle, layout: ObjectLayout) -> (done: Result<
        (),
        SlabError,
    >)
        requires
            old(self).wf(),
        ensures
            final(self).wf(),
            done is Ok <==> layout.is_layout_of::<T>() && old(self)@.owns(handle),
            done is Ok ==> final(self)@ == old(self)@.after_free(handle) && !final(self)@.owns(
                handle,
            ),
            done matches Err(error) ==> {
                &&& final(self)@ == old(self)@
                &&& error == SlabError::ForeignLayout <==> !layout.is_layout_of::<T>()
                &&& error == SlabError::ForeignHandle <==> layout.is_layout_of::<T>()
            },
    {
        if !self.serves(layout) {
            return Err(SlabError::ForeignLayout);
        }
        if !self.owns(handle) {
            return Err(SlabError::ForeignHandle);
        }
        self.deallocate(handle, layout);
        Ok(())
    }
}

/// An object together with the slot of the pool of its type that is set
/// aside for it. The box owns the object and holds the slot until it is
/// released into the pool again.
pub struct SlabBox<T: SlabAllocatable> {
    value: T,
    handle: ObjectHandle,
}

impl<T: SlabAllocatable> SlabBox<T> {
    /// The object in the box.
    pub closed spec fn value(&self) -> T {
        self.value
    }

    /// The handle of the slot that is set aside for the object.
    pub closed spec fn spec_handle(&self) -> ObjectHandle {
        self.handle
    }

    /// Sets the slot at the head of the free list of `slab` aside for
    /// `value`. Fails when the pool has no free slot, and only then.
    pub fn try_new_in(value: T, slab: &mut SlabAllocator<T>) -> (made: Result<Self, AllocError>)
        requires
            old(slab).wf(),
        ensures
            final(slab).wf(),
            final(slab)@ == old(slab)@.after_allocate(),
            made is Err <==> old(slab)@.is_full(),
            made matches Ok(boxed) ==> {
                &&& boxed.value() == value
                &&& boxed.spec_handle() == old(slab)@.next_handle()
                &&& final(slab)@.owns(boxed.spec_handle())
            },
    {
        match slab.allocate(ObjectLayout::of::<T>()) {
            Ok(handle) => Ok(SlabBox { value, handle }),
            Err(error) => Err(error),
        }
    }

    /// The handle of the slot that is set aside for the object.
    #[verifier::when_used_as_spec(spec_handle)]
    pub fn handle(&self) -> (handle: ObjectHandle)
        ensures
            handle == self.spec_handle(),
    {
        self.handle
    }

    /// The object in the box.
    pub fn get(&self) -> (value: &T)
        ensures
            *value == self.value(),
    {
        &self.value
    }

    /// The object in the box, to change it. The slot stays the same.
    pub fn get_mut(&mut self) -> (value: &mut T)
        ensures
            *value == old(self).value(),
            final(self).value() == *final(value),
            final(self).spec_handle() == old(self).spec_handle(),
    {
        &mut self.value
    }

    /// Takes the object out and hands its slot back to `slab`, the pool
    /// that the box was made in.
    pub fn release(self, slab: &mut SlabAllocator<T>) -> (value: T)
        requires
            old(slab).wf(),
            old(slab)@.owns(self.spec_handle()),
        ensures
            value == self.value(),
            final(slab).wf(),
            final(slab)@ == old(slab)@.after_free(self.spec_handle()),
            !final(slab)@.owns(self.spec_handle()),
    {
        slab.deallocate(self.handle, ObjectLayout::of::<T>());
        self.value
    }
}

} // verus!
