//! Small inline batches for the entity lists the lifecycle systems
//! collect while they work through a tick's events.
//!
//! A batch is a vector from the `smallvec` crate, which keeps a handful
//! of items inline before it spills to the heap; the runtime handles a
//! few windows at a time, so most batches never allocate.  Verus sees the
//! vector only through the trusted wrappers below.

use vstd::prelude::*;

verus! {

/// A batch of entity identifiers, held inline up to four.
#[verifier::external_body]
pub struct EntityBatch {
    inner: smallvec::SmallVec<[u64; 4]>,
}

/// The items a batch holds, in the order they were pushed.
pub uninterp spec fn entity_batch_items(v: EntityBatch) -> Seq<u64>;

/// Relies on smallvec::SmallVec::new: a new vector holds no items.
#[verifier::external_body]
pub(crate) fn entity_batch_new() -> (r: EntityBatch)
    ensures
        entity_batch_items(r) == Seq::<u64>::empty(),
{
    EntityBatch { inner: smallvec::SmallVec::new() }
}

/// Relies on smallvec::SmallVec::push: appends the value at the end and
/// moves nothing else.
#[verifier::external_body]
pub(crate) fn entity_batch_push(v: &mut EntityBatch, value: u64)
    requires
        entity_batch_items(*old(v)).len() < usize::MAX,
    ensures
        entity_batch_items(*final(v)) == entity_batch_items(*old(v)).push(value),
{
    v.inner.push(value)
}

/// Relies on smallvec::SmallVec::len: the number of items held.
#[verifier::external_body]
pub(crate) fn entity_batch_len(v: &EntityBatch) -> (n: usize)
    ensures
        n == entity_batch_items(*v).len(),
{
    v.inner.len()
}

/// Relies on smallvec's Index impl, which indexes the items in push
/// order through its slice view.
#[verifier::external_body]
pub(crate) fn entity_batch_get(v: &EntityBatch, i: usize) -> (x: u64)
    requires
        i < entity_batch_items(*v).len(),
    ensures
        x == entity_batch_items(*v)[i as int],
{
    v.inner[i]
}

} // verus!
