use vstd::prelude::*;

use crate::destroy::events_of_seq;
use crate::destroy::AllocationCallbacks;
use crate::destroy::DestroyLog;
use crate::destroy::Destroyable;

verus! {

/// The owning wrapper that binds one resource to the capability needed to
/// destroy it.
///
/// A guard holds exactly one resource — a single handle, an ordered dynamic
/// sequence, or a fixed-size array — together with a borrowed destroyer and the
/// allocation callbacks supplied at construction. The guard is consumed exactly
/// once: by [`GuardedResource::destroy`], which performs the resource's
/// destruction with the stored destroyer and callbacks, or by
/// [`GuardedResource::take`], which hands the resource back and destroys
/// nothing, now or ever. Because both operations move the guard, using a
/// consumed guard — and with it any double destruction or destruction after
/// extraction — is ruled out by ownership itself.
pub struct GuardedResource<'d, R: Destroyable> {
    resource: R,
    destroyer: &'d R::Destroyer,
    allocation_callbacks: Option<AllocationCallbacks>,
}

/// Most common use of [`GuardedResource`]: fine-grained guards are short-lived,
/// so the destroyer is borrowed.
pub type Guarded<'d, R> = GuardedResource<'d, R>;

impl<'d, R: Destroyable> GuardedResource<'d, R> {
    /// The resource the guard holds.
    pub closed spec fn resource(&self) -> R {
        self.resource
    }

    /// The destroyer value destruction will use.
    pub closed spec fn destroyer_value(&self) -> R::Destroyer {
        *self.destroyer
    }

    /// The allocation callbacks destruction will replay.
    pub closed spec fn callbacks(&self) -> Option<AllocationCallbacks> {
        self.allocation_callbacks
    }

    /// Takes ownership of an already successfully created resource. `destroyer`
    /// and `allocation_callbacks` are remembered verbatim and used only at
    /// destruction.
    ///
    /// The caller asserts that it is valid to destroy exactly this resource with
    /// exactly this destroyer and these callbacks; for resources of this crate
    /// that is the `live` precondition.
    pub fn new(
        resource: R,
        destroyer: &'d R::Destroyer,
        allocation_callbacks: Option<AllocationCallbacks>,
    ) -> (guard: Self)
        requires
            resource.live(),
        ensures
            guard.resource() == resource,
            guard.destroyer_value() == *destroyer,
            guard.callbacks() == allocation_callbacks,
    {
        GuardedResource { resource, destroyer, allocation_callbacks }
    }

    /// Read access to the held resource; ownership is unaffected.
    pub fn peek(&self) -> (resource: &R)
        ensures
            *resource == self.resource(),
    {
        &self.resource
    }

    /// Write access to the held resource; ownership is unaffected, and the
    /// destroyer and callbacks stay as they were.
    pub fn peek_mut(&mut self) -> (resource: &mut R)
        ensures
            *resource == old(self).resource(),
            final(self).resource() == *final(resource),
            final(self).destroyer_value() == old(self).destroyer_value(),
            final(self).callbacks() == old(self).callbacks(),
    {
        &mut self.resource
    }

    /// The destroyer reference passed during construction, for building sibling
    /// guards that share it.
    pub fn destroyer(&self) -> (destroyer: &'d R::Destroyer)
        ensures
            *destroyer == self.destroyer_value(),
    {
        self.destroyer
    }

    /// The allocation callbacks passed during construction.
    pub fn allocation_callbacks(&self) -> (callbacks: Option<AllocationCallbacks>)
        ensures
            callbacks == self.callbacks(),
    {
        self.allocation_callbacks
    }

    /// Extracts the resource without destroying it.
    ///
    /// The guard is consumed and the destruction it would have performed never
    /// happens: responsibility for the returned resource passes to the caller.
    pub fn take(self) -> (resource: R)
        ensures
            resource == self.resource(),
    {
        self.resource
    }

    /// Ends the guard's scope: destroys the held resource with the stored
    /// destroyer and callbacks, recording exactly the resource's destruction
    /// events — once, since the guard is consumed.
    pub fn destroy(self, log: &mut DestroyLog<R::Destroyer>)
        requires
            self.resource().live(),
        ensures
            final(log)@ == old(log)@ + self.resource().destroy_events(
                self.destroyer_value(),
                self.callbacks(),
            ),
    {
        let GuardedResource { mut resource, destroyer, allocation_callbacks } = self;
        resource.destroy_with(destroyer, allocation_callbacks, log);
    }
}

/// Every construction result in the sequence is a success.
pub open spec fn all_ok<R, E>(results: Seq<Result<R, E>>) -> bool {
    forall|i: int| 0 <= i < results.len() ==> (#[trigger] results[i]) is Ok
}

/// The successful construction values, position by position. Meaningful at the
/// positions that hold successes.
pub open spec fn ok_values<R, E>(results: Seq<Result<R, E>>) -> Seq<R> {
    Seq::new(results.len(), |i: int| results[i]->Ok_0)
}

/// The position of the first failed construction; the sequence length when every
/// construction succeeded.
pub open spec fn first_err_index<R, E>(results: Seq<Result<R, E>>) -> int
    decreases results.len(),
{
    if results.len() == 0 {
        0
    } else if results[0] is Err {
        0
    } else {
        1 + first_err_index(results.drop_first())
    }
}

/// `first_err_index` points at the first failure: everything before it succeeded,
/// it lies within the sequence unless everything succeeded, and it equals the
/// length exactly when everything succeeded.
pub proof fn lemma_first_err_index<R, E>(results: Seq<Result<R, E>>)
    ensures
        0 <= first_err_index(results) <= results.len(),
        forall|i: int| 0 <= i < first_err_index(results) ==> (#[trigger] results[i]) is Ok,
        first_err_index(results) < results.len() ==> results[first_err_index(results)] is Err,
        all_ok(results) <==> first_err_index(results) == results.len(),
    decreases results.len(),
{
    if results.len() > 0 && !(results[0] is Err) {
        lemma_first_err_index(results.drop_first());
        assert forall|i: int| 0 <= i < first_err_index(results) implies (#[trigger] results[i])
            is Ok by {
            if i > 0 {
                assert(results.drop_first()[i - 1] is Ok);
            }
        }
        if all_ok(results) {
            assert(all_ok(results.drop_first()));
        }
        if first_err_index(results) == results.len() {
            assert forall|i: int| 0 <= i < results.len() implies (#[trigger] results[i])
                is Ok by {
                if i > 0 {
                    assert(results.drop_first()[i - 1] is Ok);
                }
            }
        }
    }
}

impl<'d, R: Destroyable> GuardedResource<'d, Vec<R>> {
    /// The number of resources currently under guard management.
    pub fn len(&self) -> (n: usize)
        ensures
            n == self.resource()@.len(),
    {
        self.resource.len()
    }

    /// Appends one more resource to guard management; it will be destroyed after
    /// the resources already held.
    pub fn push(&mut self, resource: R)
        ensures
            final(self).resource()@ == old(self).resource()@.push(resource),
            final(self).destroyer_value() == old(self).destroyer_value(),
            final(self).callbacks() == old(self).callbacks(),
    {
        self.resource.push(resource);
    }

    /// Removes the last resource from guard management and returns it without
    /// destroying it; the remaining resources are still destroyed normally.
    pub fn pop(&mut self) -> (removed: Option<R>)
        ensures
            old(self).resource()@.len() == 0 ==> removed is None && final(self).resource()@
                == old(self).resource()@,
            old(self).resource()@.len() > 0 ==> removed == Some(old(self).resource()@.last())
                && final(self).resource()@ == old(self).resource()@.drop_last(),
            final(self).destroyer_value() == old(self).destroyer_value(),
            final(self).callbacks() == old(self).callbacks(),
    {
        self.resource.pop()
    }

    /// Creates a guard holding a sequence populated from `resources`, appending
    /// each successfully constructed resource as it is consumed.
    ///
    /// If some construction failed, consumption stops at the first failure: the
    /// resources constructed strictly before it are destroyed in ascending index
    /// order with `destroyer` and `allocation_callbacks`, the first failure is
    /// returned, and no later result is inspected.
    pub fn try_new_from<E>(
        resources: Vec<Result<R, E>>,
        destroyer: &'d R::Destroyer,
        allocation_callbacks: Option<AllocationCallbacks>,
        log: &mut DestroyLog<R::Destroyer>,
    ) -> (result: Result<Self, E>)
        requires
            forall|i: int| 0 <= i < resources@.len() && (#[trigger] resources@[i]) is Ok
                ==> resources@[i]->Ok_0.live(),
        ensures
            result is Ok <==> all_ok(resources@),
            result is Ok ==> result->Ok_0.resource()@ == ok_values(resources@)
                && result->Ok_0.destroyer_value() == *destroyer
                && result->Ok_0.callbacks() == allocation_callbacks
                && final(log)@ == old(log)@,
            result is Err ==> result->Err_0 == resources@[first_err_index(resources@)]->Err_0
                && final(log)@ == old(log)@ + events_of_seq(
                    ok_values(resources@).take(first_err_index(resources@)),
                    *destroyer,
                    allocation_callbacks,
                ),
    {
        let ghost results: Seq<Result<R, E>> = resources@;
        let mut remaining = resources;
        let mut guard = Self::new(Vec::new(), destroyer, allocation_callbacks);
        let ghost consumed: int = 0;
        while remaining.len() > 0
            invariant
                results == resources@,
                0 <= consumed <= results.len(),
                remaining@ =~= results.skip(consumed),
                forall|i: int| 0 <= i < consumed ==> (#[trigger] results[i]) is Ok,
                guard.resource()@ =~= ok_values(results).take(consumed),
                guard.destroyer_value() == *destroyer,
                guard.callbacks() == allocation_callbacks,
                log@ == old(log)@,
                forall|i: int| 0 <= i < results.len() && (#[trigger] results[i]) is Ok
                    ==> results[i]->Ok_0.live(),
            decreases remaining@.len(),
        {
            let next = remaining.remove(0);
            proof {
                assert(next == results[consumed]);
                assert(remaining@ =~= results.skip(consumed + 1));
            }
            match next {
                Ok(resource) => {
                    guard.push(resource);
                    proof {
                        assert(ok_values(results).take(consumed + 1) =~= ok_values(
                            results,
                        ).take(consumed).push(resource));
                        consumed = consumed + 1;
                    }
                },
                Err(error) => {
                    proof {
                        lemma_first_err_index_at(results, consumed);
                        assert(!(results[consumed] is Ok));
                        assert(!all_ok(results));
                        assert forall|j: int|
                            0 <= j < guard.resource()@.len() implies (#[trigger] guard.resource()@[j]).live() by {
                            assert(results[j] is Ok);
                            assert(guard.resource()@[j] == ok_values(results)[j]);
                        }
                    }
                    guard.destroy(log);
                    return Err(error);
                },
            }
        }
        proof {
            assert(consumed == results.len());
            lemma_first_err_index(results);
            assert(all_ok(results));
            assert(ok_values(results).take(consumed) =~= ok_values(results));
        }
        Ok(guard)
    }
}

/// Relies on the standard `TryFrom<Vec<R>>` conversion to `[R; N]`: it succeeds
/// exactly when the vector's length is `N`, returning an array of the vector's
/// elements in their original order.
#[verifier::external_body]
fn vec_into_array<R, const N: usize>(resources: Vec<R>) -> (array: [R; N])
    requires
        resources@.len() == N,
    ensures
        array@ == resources@,
{
    resources.try_into().ok().unwrap()
}

impl<'d, R: Destroyable + Copy, const N: usize> GuardedResource<'d, [R; N]> {
    /// Creates a guard holding an array of `N` resources, populated by calling
    /// `resource_factory(index)` for each index in ascending order.
    ///
    /// If some call fails, construction stops at that failure: every resource
    /// produced for a smaller index is destroyed in ascending index order with
    /// the shared `destroyer` and `allocation_callbacks`, and that first error is
    /// returned; the factory is never called for a larger index.
    #[verifier::loop_isolation(false)]
    pub fn try_new_with<E, F: Fn(usize) -> Result<R, E>>(
        resource_factory: F,
        destroyer: &'d R::Destroyer,
        allocation_callbacks: Option<AllocationCallbacks>,
        log: &mut DestroyLog<R::Destroyer>,
    ) -> (result: Result<Self, E>)
        requires
            forall|i: usize| i < N ==> call_requires(resource_factory, (i,)),
            forall|i: usize, produced: Result<R, E>|
                i < N && #[trigger] call_ensures(resource_factory, (i,), produced) && produced
                    is Ok ==> produced->Ok_0.live(),
        ensures
            result is Ok ==> result->Ok_0.resource()@.len() == N && (forall|i: int|
                0 <= i < N ==> call_ensures(
                    resource_factory,
                    ((i as usize),),
                    Ok(#[trigger] result->Ok_0.resource()@[i]),
                )) && result->Ok_0.destroyer_value() == *destroyer && result->Ok_0.callbacks()
                == allocation_callbacks && final(log)@ == old(log)@,
            result is Err ==> exists|failed_at: usize, built: Seq<R>|
                #![trigger call_requires(resource_factory, (failed_at,)),
                    events_of_seq(built, *destroyer, allocation_callbacks)]
                failed_at < N && call_ensures(
                    resource_factory,
                    (failed_at,),
                    Err::<R, E>(result->Err_0),
                ) && built.len() == failed_at && (forall|i: int|
                    0 <= i < built.len() ==> call_ensures(
                        resource_factory,
                        ((i as usize),),
                        Ok(#[trigger] built[i]),
                    )) && final(log)@ == old(log)@ + events_of_seq(
                    built,
                    *destroyer,
                    allocation_callbacks,
                ),
    {
        let mut built: Vec<R> = Vec::new();
        let mut index: usize = 0;
        while index < N
            invariant
                index <= N,
                built@.len() == index,
                forall|j: int| 0 <= j < index ==> call_ensures(
                    resource_factory,
                    ((j as usize),),
                    Ok(#[trigger] built@[j]),
                ),
                forall|j: int| 0 <= j < index ==> (#[trigger] built@[j]).live(),
                log@ == old(log)@,
                forall|j: usize| j < N ==> call_requires(resource_factory, (j,)),
                forall|j: usize, produced: Result<R, E>|
                    j < N && #[trigger] call_ensures(resource_factory, (j,), produced) && produced
                        is Ok ==> produced->Ok_0.live(),
            decreases N - index,
        {
            match resource_factory(index) {
                Ok(resource) => {
                    built.push(resource);
                },
                Err(error) => {
                    let ghost partial: Seq<R> = built@;
                    let ghost failed_index: usize = index;
                    built.destroy_with(destroyer, allocation_callbacks, log);
                    proof {
                        assert(call_ensures(
                            resource_factory,
                            (failed_index,),
                            Err::<R, E>(error),
                        ));
                        assert(partial.len() == failed_index);
                        assert(log@ == old(log)@ + events_of_seq(
                            partial,
                            *destroyer,
                            allocation_callbacks,
                        ));
                        assert(forall|i: int|
                            0 <= i < partial.len() ==> call_ensures(
                                resource_factory,
                                ((i as usize),),
                                Ok(#[trigger] partial[i]),
                            ));
                        assert(call_requires(resource_factory, (failed_index,)));
                    }
                    return Err(error);
                },
            }
            index = index + 1;
        }
        let resources: [R; N] = vec_into_array(built);
        Ok(Self::new(resources, destroyer, allocation_callbacks))
    }
}

/// When everything before position `k` succeeded and position `k` failed, `k` is
/// the first failure.
pub proof fn lemma_first_err_index_at<R, E>(results: Seq<Result<R, E>>, k: int)
    requires
        0 <= k < results.len(),
        results[k] is Err,
        forall|i: int| 0 <= i < k ==> (#[trigger] results[i]) is Ok,
    ensures
        first_err_index(results) == k,
    decreases k,
{
    if k > 0 {
        assert forall|i: int| 0 <= i < k - 1 implies (#[trigger] results.drop_first()[i])
            is Ok by {
            assert(results[i + 1] is Ok);
        }
        assert(results.drop_first()[k - 1] is Err);
        lemma_first_err_index_at(results.drop_first(), k - 1);
    }
}

} // verus!
