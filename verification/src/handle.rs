use core::marker::PhantomData;

use vstd::prelude::*;

use crate::destroy::events_of_seq;
use crate::destroy::AllocationCallbacks;
use crate::destroy::DestroyEvent;
use crate::destroy::DestroyLog;
use crate::destroy::Destroyable;

verus! {

/// Relies on `core::marker::PhantomData`'s `Clone`: `PhantomData<T>` is a
/// zero-sized marker with a single value, so cloning returns that same value.
/// Needed by the derived `Clone` of [`Handle`].
pub assume_specification<T: core::marker::PointeeSized>[ <PhantomData<T> as Clone>::clone ](
    marker: &PhantomData<T>,
) -> (cloned: PhantomData<T>)
    ensures
        cloned == *marker,
;

/// An opaque externally allocated resource handle.
///
/// Stands for a handle returned by a creation primitive: an identity, plus the
/// fact that it has not been destroyed yet. Destroying it performs exactly one
/// destruction, recorded with the handle's identity, the destroyer value used,
/// and the allocation callbacks replayed. `D` is the type of destroyer its
/// capability requires.
#[derive(Clone, Copy, Debug)]
pub struct Handle<D> {
    id: u64,
    is_live: bool,
    destroyer_type: PhantomData<D>,
}

impl<D: Copy> Handle<D> {
    /// Identity of the handle, as the creation primitive returned it.
    pub closed spec fn id(&self) -> u64 {
        self.id
    }

    /// Wraps a raw handle identity freshly returned by a creation primitive.
    pub fn new(id: u64) -> (handle: Self)
        ensures
            handle.id() == id,
            handle.live(),
    {
        Handle { id, is_live: true, destroyer_type: PhantomData }
    }

    /// The raw handle identity.
    pub fn raw(&self) -> (id: u64)
        ensures
            id == self.id(),
    {
        self.id
    }
}

impl<D: Copy> Destroyable for Handle<D> {
    type Destroyer = D;

    /// A handle may be destroyed until it has been destroyed once.
    closed spec fn live(&self) -> bool {
        self.is_live
    }

    /// Destroying a handle performs exactly one destruction, carrying the
    /// handle's identity, the destroyer value, and the callbacks.
    open spec fn destroy_events(
        &self,
        destroyer: D,
        callbacks: Option<AllocationCallbacks>,
    ) -> Seq<DestroyEvent<D>> {
        seq![DestroyEvent { resource: self.id(), destroyer, callbacks }]
    }

    fn destroy_with(
        &mut self,
        destroyer: &D,
        callbacks: Option<AllocationCallbacks>,
        log: &mut DestroyLog<D>,
    )
        ensures
            !final(self).live(),
            final(self).id() == old(self).id(),
    {
        self.is_live = false;
        let event = DestroyEvent { resource: self.id, destroyer: *destroyer, callbacks };
        log.record(event);
        proof {
            assert(old(log)@.push(event) =~= old(log)@ + seq![event]);
        }
    }
}

/// A value that needs no destruction.
///
/// Its capability has the unit destroyer: guarding it demands no destroyer value
/// beyond `()`, and destroying it does nothing and records nothing, however often
/// it happens.
#[derive(Clone, Copy, Debug, PartialEq, Eq)]
pub struct Inert<T>(pub T);

impl<T: Copy> Inert<T> {
    /// The wrapped value.
    pub fn value(&self) -> (value: T)
        ensures
            value == self.0,
    {
        self.0
    }

    /// Replaces the wrapped value.
    pub fn set_value(&mut self, new_value: T)
        ensures
            final(self).0 == new_value,
    {
        self.0 = new_value;
    }
}

impl<T> Destroyable for Inert<T> {
    type Destroyer = ();

    /// Destruction is a no-op, so it is always still valid.
    open spec fn live(&self) -> bool {
        true
    }

    /// Destruction records nothing.
    open spec fn destroy_events(
        &self,
        destroyer: (),
        callbacks: Option<AllocationCallbacks>,
    ) -> Seq<DestroyEvent<()>> {
        Seq::empty()
    }

    fn destroy_with(
        &mut self,
        _destroyer: &(),
        _callbacks: Option<AllocationCallbacks>,
        log: &mut DestroyLog<()>,
    )
        ensures
            *final(self) == *old(self),
    {
        proof {
            assert(old(log)@ + Seq::<DestroyEvent<()>>::empty() =~= old(log)@);
        }
    }
}

/// The no-op destroyer is idempotent: destroying a value whose capability has the
/// unit destroyer performs no destruction and leaves the value valid for
/// destruction again, so tearing such a guard down any number of times is
/// harmless.
pub proof fn lemma_unit_destroyer_idempotent<T>(
    resource: Inert<T>,
    callbacks: Option<AllocationCallbacks>,
)
    ensures
        resource.destroy_events((), callbacks) == Seq::<DestroyEvent<()>>::empty(),
        resource.live(),
{
}

/// Destroying a sequence of handles records one event per handle, in ascending
/// index order, each carrying that handle's identity, the shared destroyer and
/// the shared callbacks.
pub proof fn lemma_handle_seq_events<D: Copy>(
    handles: Seq<Handle<D>>,
    destroyer: D,
    callbacks: Option<AllocationCallbacks>,
)
    ensures
        events_of_seq(handles, destroyer, callbacks) =~= Seq::new(
            handles.len(),
            |i: int| (DestroyEvent { resource: handles[i].id(), destroyer, callbacks }),
        ),
    decreases handles.len(),
{
    if handles.len() > 0 {
        lemma_handle_seq_events(handles.drop_first(), destroyer, callbacks);
    }
}

/// A handle removed from a sequence before the sequence is destroyed is itself
/// never destroyed: no event recorded for the remaining handles carries its
/// identity, provided it is distinct from them.
pub proof fn lemma_removed_handle_not_destroyed<D: Copy>(
    handles: Seq<Handle<D>>,
    destroyer: D,
    callbacks: Option<AllocationCallbacks>,
)
    requires
        handles.len() > 0,
        forall|i: int| 0 <= i < handles.len() - 1 ==> (#[trigger] handles[i]).id()
            != handles.last().id(),
    ensures
        forall|k: int|
            0 <= k < events_of_seq(handles.drop_last(), destroyer, callbacks).len()
                ==> (#[trigger] events_of_seq(handles.drop_last(), destroyer, callbacks)[k]).resource
                != handles.last().id(),
{
    lemma_handle_seq_events(handles.drop_last(), destroyer, callbacks);
}

} // verus!
