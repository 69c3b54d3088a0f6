use vstd::prelude::*;

verus! {

/// Opaque allocation-parameter token.
///
/// Vulkan-style APIs thread an externally owned, pointer-sized allocation-callbacks
/// value from resource creation to resource destruction. The guard's only duty is to
/// remember the token and replay it verbatim when it destroys its resource, so the
/// token is modelled here by its address-sized identity alone.
#[derive(Clone, Copy, Debug, PartialEq, Eq)]
pub struct AllocationCallbacks {
    /// Address-sized identity of the externally owned callback structure.
    pub addr: usize,
}

/// One recorded destruction: which resource was destroyed, with which destroyer
/// value, and with which allocation callbacks.
#[derive(Clone, Copy, Debug, PartialEq, Eq)]
pub struct DestroyEvent<D> {
    /// Identity of the destroyed resource handle.
    pub resource: u64,
    /// The destroyer value the destruction was performed with.
    pub destroyer: D,
    /// The allocation callbacks replayed at destruction.
    pub callbacks: Option<AllocationCallbacks>,
}

/// The record of destructions performed, in the order they were performed.
///
/// Destruction of an externally allocated handle is a side effect on the outside
/// world; the log makes that effect a value, so that contracts can state exactly
/// which destructions a call performs, with which destroyer and callbacks, and in
/// which order.
pub struct DestroyLog<D> {
    events: Vec<DestroyEvent<D>>,
}

impl<D> View for DestroyLog<D> {
    type V = Seq<DestroyEvent<D>>;

    closed spec fn view(&self) -> Seq<DestroyEvent<D>> {
        self.events@
    }
}

impl<D> DestroyLog<D> {
    /// An empty log: no destruction has been recorded yet.
    pub fn new() -> (log: Self)
        ensures
            log@ == Seq::<DestroyEvent<D>>::empty(),
    {
        DestroyLog { events: Vec::new() }
    }

    /// The number of destructions recorded so far.
    pub fn len(&self) -> (n: usize)
        ensures
            n == self@.len(),
    {
        self.events.len()
    }

    /// True if no destruction has been recorded.
    pub fn is_empty(&self) -> (empty: bool)
        ensures
            empty == (self@.len() == 0),
    {
        self.events.len() == 0
    }

    /// Appends one destruction to the record.
    pub fn record(&mut self, event: DestroyEvent<D>)
        ensures
            final(self)@ == old(self)@.push(event),
    {
        self.events.push(event);
    }
}

impl<D: Copy> DestroyLog<D> {
    /// The `i`-th recorded destruction, oldest first.
    pub fn get(&self, i: usize) -> (event: DestroyEvent<D>)
        requires
            i < self@.len(),
        ensures
            event == self@[i as int],
    {
        self.events[i]
    }
}

/// A resource type that knows how to destroy itself.
///
/// The trait maps each resource type, at compile time, to the type of destroyer
/// object its destruction needs and to the one destruction operation for it.
/// `destroy_events` is the specification of that operation: the exact destructions
/// it performs, in order, for a given destroyer and allocation callbacks.
pub trait Destroyable: Sized {
    /// The type that performs the destruction of this resource.
    type Destroyer;

    /// Whether it is still valid to destroy this value.
    ///
    /// Destroying a resource that was already destroyed is forbidden; this
    /// predicate is the precondition of [`Destroyable::destroy_with`].
    spec fn live(&self) -> bool;

    /// The destructions this value performs, in order, when destroyed with the
    /// given destroyer and allocation callbacks.
    spec fn destroy_events(
        &self,
        destroyer: Self::Destroyer,
        callbacks: Option<AllocationCallbacks>,
    ) -> Seq<DestroyEvent<Self::Destroyer>>;

    /// Destroys this value, appending exactly its destruction events to `log`.
    fn destroy_with(
        &mut self,
        destroyer: &Self::Destroyer,
        callbacks: Option<AllocationCallbacks>,
        log: &mut DestroyLog<Self::Destroyer>,
    )
        requires
            old(self).live(),
        ensures
            final(log)@ == old(log)@ + old(self).destroy_events(*destroyer, callbacks),
    ;
}

/// The destructions performed when a sequence of resources is destroyed one by
/// one in ascending index order, all with the same destroyer and callbacks.
pub open spec fn events_of_seq<R: Destroyable>(
    resources: Seq<R>,
    destroyer: R::Destroyer,
    callbacks: Option<AllocationCallbacks>,
) -> Seq<DestroyEvent<R::Destroyer>>
    decreases resources.len(),
{
    if resources.len() == 0 {
        Seq::empty()
    } else {
        resources[0].destroy_events(destroyer, callbacks)
            + events_of_seq(resources.drop_first(), destroyer, callbacks)
    }
}

/// Destroying two sequences back to back records the same events as destroying
/// their concatenation.
pub proof fn lemma_events_of_seq_concat<R: Destroyable>(
    s1: Seq<R>,
    s2: Seq<R>,
    destroyer: R::Destroyer,
    callbacks: Option<AllocationCallbacks>,
)
    ensures
        events_of_seq(s1 + s2, destroyer, callbacks) == events_of_seq(s1, destroyer, callbacks)
            + events_of_seq(s2, destroyer, callbacks),
    decreases s1.len(),
{
    if s1.len() == 0 {
        assert(s1 + s2 =~= s2);
        assert(events_of_seq(s1, destroyer, callbacks) + events_of_seq(s2, destroyer, callbacks)
            =~= events_of_seq(s2, destroyer, callbacks));
    } else {
        assert((s1 + s2).drop_first() =~= s1.drop_first() + s2);
        assert((s1 + s2)[0] == s1[0]);
        lemma_events_of_seq_concat(s1.drop_first(), s2, destroyer, callbacks);
        assert(events_of_seq(s1 + s2, destroyer, callbacks) =~= events_of_seq(
            s1,
            destroyer,
            callbacks,
        ) + events_of_seq(s2, destroyer, callbacks));
    }
}

/// The events of the first `i + 1` resources are the events of the first `i`
/// followed by the events of resource `i`.
pub proof fn lemma_events_of_seq_take_succ<R: Destroyable>(
    resources: Seq<R>,
    i: int,
    destroyer: R::Destroyer,
    callbacks: Option<AllocationCallbacks>,
)
    requires
        0 <= i < resources.len(),
    ensures
        events_of_seq(resources.take(i + 1), destroyer, callbacks) == events_of_seq(
            resources.take(i),
            destroyer,
            callbacks,
        ) + resources[i].destroy_events(destroyer, callbacks),
{
    let singleton = seq![resources[i]];
    assert(resources.take(i + 1) =~= resources.take(i) + singleton);
    lemma_events_of_seq_concat(resources.take(i), singleton, destroyer, callbacks);
    assert(singleton.drop_first() =~= Seq::<R>::empty());
    assert(events_of_seq(Seq::<R>::empty(), destroyer, callbacks)
        == Seq::<DestroyEvent<R::Destroyer>>::empty());
    assert(events_of_seq(singleton, destroyer, callbacks) == singleton[0].destroy_events(
        destroyer,
        callbacks,
    ) + events_of_seq(singleton.drop_first(), destroyer, callbacks));
    assert(events_of_seq(singleton, destroyer, callbacks) =~= resources[i].destroy_events(
        destroyer,
        callbacks,
    ));
}

impl<R: Destroyable> Destroyable for Vec<R> {
    type Destroyer = R::Destroyer;

    /// A sequence may still be destroyed when every element may.
    open spec fn live(&self) -> bool {
        forall|i: int| 0 <= i < self@.len() ==> (#[trigger] self@[i]).live()
    }

    /// A sequence destroys its elements in ascending index order, each with the
    /// shared destroyer and callbacks.
    open spec fn destroy_events(
        &self,
        destroyer: R::Destroyer,
        callbacks: Option<AllocationCallbacks>,
    ) -> Seq<DestroyEvent<R::Destroyer>> {
        events_of_seq(self@, destroyer, callbacks)
    }

    /// Destroys every element in ascending index order, removing each from the
    /// vector as it is destroyed; the vector is left empty.
    fn destroy_with(
        &mut self,
        destroyer: &R::Destroyer,
        callbacks: Option<AllocationCallbacks>,
        log: &mut DestroyLog<R::Destroyer>,
    )
        ensures
            final(self)@.len() == 0,
    {
        let ghost orig: Seq<R> = self@;
        let ghost destroyed: int = 0;
        while self.len() > 0
            invariant
                0 <= destroyed <= orig.len(),
                self@ =~= orig.skip(destroyed),
                forall|i: int| destroyed <= i < orig.len() ==> (#[trigger] orig[i]).live(),
                log@ == old(log)@ + events_of_seq(orig.take(destroyed), *destroyer, callbacks),
            decreases self@.len(),
        {
            let mut resource = self.remove(0);
            proof {
                assert(resource == orig[destroyed]);
                assert(self@ =~= orig.skip(destroyed + 1));
            }
            resource.destroy_with(destroyer, callbacks, log);
            proof {
                lemma_events_of_seq_take_succ(orig, destroyed, *destroyer, callbacks);
                destroyed = destroyed + 1;
            }
        }
        proof {
            assert(orig.take(destroyed) =~= orig);
        }
    }
}

impl<R: Destroyable + Copy, const N: usize> Destroyable for [R; N] {
    type Destroyer = R::Destroyer;

    /// An array may still be destroyed when every element may.
    open spec fn live(&self) -> bool {
        forall|i: int| 0 <= i < self@.len() ==> (#[trigger] self@[i]).live()
    }

    /// An array destroys its elements in ascending index order, each with the
    /// shared destroyer and callbacks: the same composite capability as an
    /// ordered dynamic sequence of the same elements.
    open spec fn destroy_events(
        &self,
        destroyer: R::Destroyer,
        callbacks: Option<AllocationCallbacks>,
    ) -> Seq<DestroyEvent<R::Destroyer>> {
        events_of_seq(self@, destroyer, callbacks)
    }

    /// Destroys every element in place, in ascending index order.
    fn destroy_with(
        &mut self,
        destroyer: &R::Destroyer,
        callbacks: Option<AllocationCallbacks>,
        log: &mut DestroyLog<R::Destroyer>,
    ) {
        let ghost orig: Seq<R> = self@;
        let mut i: usize = 0;
        while i < N
            invariant
                0 <= i <= N,
                orig.len() == N,
                self@.len() == N,
                forall|j: int| i <= j < N ==> self@[j] == orig[j],
                forall|j: int| i <= j < N ==> (#[trigger] orig[j]).live(),
                log@ == old(log)@ + events_of_seq(orig.take(i as int), *destroyer, callbacks),
            decreases N - i,
        {
            let mut resource = self[i];
            proof {
                assert(resource == orig[i as int]);
            }
            resource.destroy_with(destroyer, callbacks, log);
            self[i] = resource;
            proof {
                lemma_events_of_seq_take_succ(orig, i as int, *destroyer, callbacks);
            }
            i = i + 1;
        }
        proof {
            assert(orig.take(N as int) =~= orig);
        }
    }
}

/// A fixed-size array guarded as a whole and an ordered dynamic sequence holding
/// the same resources destroy identically: the same events, in the same ascending
/// index order.
pub proof fn lemma_array_vec_same_destruction<R: Destroyable + Copy, const N: usize>(
    array: [R; N],
    vec: Vec<R>,
    destroyer: R::Destroyer,
    callbacks: Option<AllocationCallbacks>,
)
    requires
        array@ == vec@,
    ensures
        array.destroy_events(destroyer, callbacks) == vec.destroy_events(destroyer, callbacks),
        array.live() == vec.live(),
{
}

} // verus!
