//! Guest execution contexts.
//!
//! A vessel is one guest: an identifier of its own and the control block of
//! the virtualization technology that runs it, for which a slot of the pool
//! of its type is set aside. To a scheduler a vessel is something with an
//! identifier that can be run.

use crate::id::{HanderView, Id, IdHander};
use crate::slab::{ObjectHandle, SlabAllocatable, SlabAllocator, SlabBox};
use core::marker::PhantomData;
use vstd::prelude::*;

verus! {

/// The number of the last identifier that a vessel can have.
pub const MAX_VESSEL_ID: usize = 0xffff_ffff;

/// What a scheduler asks of the things it runs.
pub trait Schedulable {
    /// The identifier by which the scheduler knows this one.
    fn id(&self) -> Id;

    /// Runs it until it gives up the processor.
    fn run(&mut self);
}

/// A virtualization technology: the control block that it keeps for each
/// guest, and how it is switched on.
pub trait VirtTech {
    type VesselControlBlock: Vesselable;

    /// Switches the technology on in the hardware.
    fn start();
}

/// What a vessel asks of the control block of a guest. Each technology says
/// for itself, in `starts_at` and `runs_to`, what its control blocks hold at
/// the start and how a run changes them.
pub trait Vesselable: SlabAllocatable + Sized {
    /// Whether this is the state of a guest that has not run yet and whose
    /// first instruction is the one at `rip`.
    open spec fn starts_at(&self, rip: usize) -> bool {
        true
    }

    /// Whether one run can take a guest from this state to the state
    /// `after`.
    open spec fn runs_to(&self, after: &Self) -> bool {
        true
    }

    /// The state of a guest that is about to execute its first instruction,
    /// the one at `rip`.
    fn new(rip: usize) -> (block: Self)
        ensures
            block.starts_at(rip),
    ;

    /// Resumes the guest until it exits.
    fn run(&mut self)
        ensures
            old(self).runs_to(final(self)),
    ;
}

/// Why a guest cannot be made.
#[derive(Clone, Copy, Debug, PartialEq, Eq, Structural)]
pub enum VesselError {
    /// The hander of vessel identifiers has none left.
    OutOfIds,
    /// The pool of control blocks has no free slot.
    OutOfSlots,
}

/// A guest execution context of the virtualization technology `T`.
pub struct Vessel<T: VirtTech> {
    id: Id,
    phantom: PhantomData<T>,
    control: SlabBox<T::VesselControlBlock>,
}

/// The hander that issues the identifiers of vessels: 0 to
/// [`MAX_VESSEL_ID`].
pub fn vid_allocator() -> (hander: IdHander)
    ensures
        hander@ == (HanderView { next: 0, max: MAX_VESSEL_ID as int }),
{
    IdHander::new(Id(MAX_VESSEL_ID))
}

impl<T: VirtTech> Vessel<T> {
    /// The identifier of the vessel.
    pub closed spec fn spec_id(&self) -> Id {
        self.id
    }

    /// The box that holds the control block of the vessel.
    pub closed spec fn control(&self) -> SlabBox<T::VesselControlBlock> {
        self.control
    }

    /// The vessel with the identifier `id` and the control block `control`.
    pub fn from_parts(id: Id, control: SlabBox<T::VesselControlBlock>) -> (vessel: Self)
        ensures
            vessel.spec_id() == id,
            vessel.control() == control,
    {
        Self { id, phantom: PhantomData, control }
    }

    /// A new guest that starts executing at `rip`. Its identifier is the
    /// next one of `vid_allocator`, which has to have one left; its control
    /// block is made by the technology and gets the next free slot of
    /// `slab`, which has to have one.
    pub fn new(
        rip: usize,
        vid_allocator: &mut IdHander,
        slab: &mut SlabAllocator<T::VesselControlBlock>,
    ) -> (vessel: Self)
        requires
            old(vid_allocator)@.can_handout(0),
            old(slab).wf(),
            !old(slab)@.is_full(),
        ensures
            vessel.spec_id().0 == old(vid_allocator)@.handed_out(0),
            final(vid_allocator)@ == old(vid_allocator)@.after_handout(0),
            final(slab).wf(),
            final(slab)@ == old(slab)@.after_allocate(),
            vessel.control().spec_handle() == old(slab)@.next_handle(),
            final(slab)@.owns(vessel.control().spec_handle()),
            vessel.control().value().starts_at(rip),
    {
        let id = vid_allocator.handout().unwrap();
        let block = T::VesselControlBlock::new(rip);
        let control = SlabBox::try_new_in(block, slab).unwrap();
        Self::from_parts(id, control)
    }

    /// A new guest as [`Self::new`] makes it, where an identifier and a
    /// slot are left. Where one of them is not, there is no guest: the
    /// error says which is used up, no identifier is drawn, no slot is
    /// taken and no control block is made.
    pub fn try_new(
        rip: usize,
        vid_allocator: &mut IdHander,
        slab: &mut SlabAllocator<T::VesselControlBlock>,
    ) -> (made: Result<Self, VesselError>)
        requires
            old(slab).wf(),
        ensures
            final(slab).wf(),
            made is Ok <==> old(vid_allocator)@.can_handout(0) && !old(slab)@.is_full(),
            made matches Ok(vessel) ==> {
                &&& vessel.spec_id().0 == old(vid_allocator)@.handed_out(0)
                &&& final(vid_allocator)@ == old(vid_allocator)@.after_handout(0)
                &&& final(slab)@ == old(slab)@.after_allocate()
                &&& vessel.control().spec_handle() == old(slab)@.next_handle()
                &&& final(slab)@.owns(vessel.control().spec_handle())
                &&& vessel.control().value().starts_at(rip)
            },
            made matches Err(error) ==> {
                &&& final(vid_allocator)@ == old(vid_allocator)@
                &&& final(slab)@ == old(slab)@
                &&& error == VesselError::OutOfIds <==> !old(vid_allocator)@.can_handout(0)
                &&& error == VesselError::OutOfSlots <==> old(vid_allocator)@.can_handout(0)
            },
    {
        if !vid_allocator.can_handout(0) {
            return Err(VesselError::OutOfIds);
        }
        if slab.is_full() {
            return Err(VesselError::OutOfSlots);
        }
        Ok(Self::new(rip, vid_allocator, slab))
    }

    /// The control block of the guest.
    pub fn control_block(&self) -> (block: &T::VesselControlBlock)
        ensures
            *block == self.control().value(),
    {
        self.control.get()
    }

    /// The handle of the slot that is set aside for the control block.
    pub fn slot(&self) -> (handle: ObjectHandle)
        ensures
            handle == self.control().spec_handle(),
    {
        self.control.handle()
    }

    /// Ends the guest: hands the slot of its control block back to `slab`,
    /// the pool that the vessel was made in, and returns its identifier.
    pub fn destroy(self, slab: &mut SlabAllocator<T::VesselControlBlock>) -> (id: Id)
        requires
            old(slab).wf(),
            old(slab)@.owns(self.control().spec_handle()),
        ensures
            id == self.spec_id(),
            final(slab).wf(),
            final(slab)@ == old(slab)@.after_free(self.control().spec_handle()),
            !final(slab)@.owns(self.control().spec_handle()),
    {
        let _ = self.control.release(slab);
        self.id
    }
}

impl<T: VirtTech> Schedulable for Vessel<T> {
    fn id(&self) -> (id: Id)
        ensures
            id == self.spec_id(),
    {
        self.id
    }

    fn run(&mut self)
        ensures
            final(self).spec_id() == old(self).spec_id(),
            final(self).control().spec_handle() == old(self).control().spec_handle(),
            old(self).control().value().runs_to(&final(self).control().value()),
    {
        self.control.get_mut().run();
    }
}

/// Switches the virtualization technology `T` on.
pub fn start<T: VirtTech>() {
    T::start();
}

} // verus!
