//! The identifier allocator's durable counter: a single `u64` kept in a
//! stable-memory cell of `ic_stable_structures`.  Every write is
//! persisted to the cell's memory region before it returns, so the
//! counter picks up where it left off when the region is carried across
//! a restart — which is why an identifier, once handed out, is never
//! handed out again, whatever value the region held to begin with.
use vstd::prelude::*;

verus! {

/// A durable `u64` counter.  The cell inside persists every write to its
/// memory region before returning, which on the Internet Computer is
/// stable memory and in tests an in-process page vector.
#[verifier::external_body]
pub struct StableCounter {
    cell: ic_stable_structures::Cell<u64, ic_stable_structures::DefaultMemoryImpl>,
}

/// The value a [`StableCounter`] currently holds.
pub uninterp spec fn counter_value(c: StableCounter) -> u64;

/// Relies on `ic_stable_structures::Cell::init`: on a fresh memory region
/// it writes zero and holds it; on a region that already carries a cell
/// it restores the previously persisted value instead.  Nothing is
/// promised about the value the new counter holds: everything the store
/// guarantees is relative to it.
#[verifier::external_body]
pub(crate) fn counter_new() -> (c: StableCounter) {
    StableCounter {
        cell: ic_stable_structures::Cell::init(
            ic_stable_structures::DefaultMemoryImpl::default(),
            0,
        ),
    }
}

/// Relies on `ic_stable_structures::Cell::get`: returns the value the
/// cell holds.
#[verifier::external_body]
pub(crate) fn counter_get(c: &StableCounter) -> (r: u64)
    ensures
        r == counter_value(*c),
{
    *c.cell.get()
}

/// Relies on `ic_stable_structures::Cell::set`: writes the new value to
/// the cell's memory before updating it, and returns the previous value.
/// An eight-byte value always fits in the page the cell acquired when it
/// was initialized, so the write cannot fail.
#[verifier::external_body]
pub(crate) fn counter_set(c: &mut StableCounter, v: u64) -> (r: u64)
    ensures
        counter_value(*final(c)) == v,
        r == counter_value(*old(c)),
{
    c.cell.set(v)
}

} // verus!
