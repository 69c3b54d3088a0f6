//! Scoped-resource guards with verified exactly-once destruction.
//!
//! Graphics APIs hand out opaque resource handles that must later be destroyed by
//! an explicit, type-specific call: forgetting the call leaks the resource, and
//! making it twice is undefined behaviour. This crate binds a handle to the
//! capability needed to destroy it and proves that destruction happens exactly
//! once — with the destroyer and allocation callbacks supplied at construction —
//! unless the caller explicitly releases the handle, in which case destruction
//! never happens.
//!
//! * [`Destroyable`] maps a resource type to its destroyer type and destruction
//!   operation; ordered sequences and fixed-size arrays of resources derive the
//!   composite capability that destroys every element in ascending index order.
//! * [`GuardedResource`] owns one resource (or a collection of resources) plus the
//!   destroyer indirection and allocation callbacks, and is consumed either by
//!   [`GuardedResource::destroy`] or by [`GuardedResource::take`].
//! * [`DestroyLog`] records every destruction performed, so contracts can state
//!   exactly which destructions a call makes and in which order.

mod destroy;
mod guarded;
mod handle;

pub use destroy::events_of_seq;
pub use destroy::lemma_array_vec_same_destruction;
pub use destroy::lemma_events_of_seq_concat;
pub use destroy::lemma_events_of_seq_take_succ;
pub use destroy::AllocationCallbacks;
pub use destroy::DestroyEvent;
pub use destroy::DestroyLog;
pub use destroy::Destroyable;
pub use guarded::all_ok;
pub use guarded::first_err_index;
pub use guarded::lemma_first_err_index;
pub use guarded::lemma_first_err_index_at;
pub use guarded::ok_values;
pub use guarded::Guarded;
pub use guarded::GuardedResource;
pub use handle::lemma_handle_seq_events;
pub use handle::lemma_removed_handle_not_destroyed;
pub use handle::lemma_unit_destroyer_idempotent;
pub use handle::Handle;
pub use handle::Inert;
