//! Wraparound addressing: the mapping from logical indices to physical
//! slots, and what it means for a slot to be live.

use vstd::prelude::*;
use vstd::arithmetic::div_mod::{lemma_fundamental_div_mod_converse, lemma_small_mod};

verus! {

/// A position reduced into `[0, capacity)`.
pub open spec fn spec_wrap(position: int, capacity: int) -> int {
    position % capacity
}

/// The physical slot of logical index `index` in a buffer whose logical
/// index 0 lives in slot `origin`.
pub open spec fn spec_physical(origin: int, index: int, capacity: int) -> int {
    spec_wrap(origin + index, capacity)
}

/// Whether slot `slot` lies in the wrapped window of `length` slots that
/// starts at `origin`.
pub open spec fn is_live(origin: int, length: int, capacity: int, slot: int) -> bool {
    &&& 0 <= slot < capacity
    &&& spec_wrap(slot - origin, capacity) < length
}

/// A position below twice the capacity wraps at most once.
pub proof fn lemma_wrap_once(position: int, capacity: int)
    requires
        0 < capacity,
        0 <= position < 2 * capacity,
    ensures
        position < capacity ==> spec_wrap(position, capacity) == position,
        position >= capacity ==> spec_wrap(position, capacity) == position - capacity,
        0 <= spec_wrap(position, capacity) < capacity,
{
    if position < capacity {
        lemma_small_mod(position as nat, capacity as nat);
    } else {
        lemma_fundamental_div_mod_converse(position, capacity, 1, position - capacity);
    }
}

/// A distance between two slots, taken backwards across the wrap.
pub proof fn lemma_wrap_back(delta: int, capacity: int)
    requires
        0 < capacity,
        -capacity < delta < capacity,
    ensures
        delta >= 0 ==> spec_wrap(delta, capacity) == delta,
        delta < 0 ==> spec_wrap(delta, capacity) == delta + capacity,
{
    if delta >= 0 {
        lemma_small_mod(delta as nat, capacity as nat);
    } else {
        lemma_fundamental_div_mod_converse(delta, capacity, -1, delta + capacity);
    }
}

/// Liveness without the wrap: a slot at or after the origin is live when it
/// is near enough to it, one before the origin when the window reaches it
/// across the end of the array.
pub proof fn lemma_live_cases(origin: int, length: int, capacity: int, slot: int)
    requires
        0 < capacity,
        0 <= origin < capacity,
        0 <= slot < capacity,
    ensures
        is_live(origin, length, capacity, slot) <==> (if slot >= origin {
            slot - origin < length
        } else {
            slot - origin + capacity < length
        }),
{
    lemma_wrap_back(slot - origin, capacity);
}

/// Within a buffer the mapping is injective, and it lands on live slots
/// only.
pub proof fn lemma_physical_injective(origin: int, length: int, capacity: int, i: int, j: int)
    requires
        0 < capacity,
        0 <= origin < capacity,
        0 <= length <= capacity,
        0 <= i < length,
        0 <= j < length,
    ensures
        is_live(origin, length, capacity, spec_physical(origin, i, capacity)),
        spec_wrap(spec_physical(origin, i, capacity) - origin, capacity) == i,
        i != j ==> spec_physical(origin, i, capacity) != spec_physical(origin, j, capacity),
{
    lemma_wrap_once(origin + i, capacity);
    lemma_wrap_once(origin + j, capacity);
    lemma_wrap_back(spec_physical(origin, i, capacity) - origin, capacity);
}

/// Every live slot is the image of exactly one logical index of the buffer.
pub proof fn lemma_live_has_index(origin: int, length: int, capacity: int, slot: int)
    requires
        0 < capacity,
        0 <= origin < capacity,
        0 <= length <= capacity,
        is_live(origin, length, capacity, slot),
    ensures
        0 <= spec_wrap(slot - origin, capacity) < length,
        spec_physical(origin, spec_wrap(slot - origin, capacity), capacity) == slot,
{
    lemma_wrap_back(slot - origin, capacity);
    lemma_wrap_once(origin + spec_wrap(slot - origin, capacity), capacity);
}

/// Stepping a logical index moves its slot by the same distance, wrapped.
pub proof fn lemma_physical_step(origin: int, index: int, step: int, capacity: int)
    requires
        0 < capacity,
        0 <= origin < capacity,
        0 <= index,
        0 <= step,
        index + step <= capacity,
    ensures
        spec_physical(origin, index + step, capacity) == spec_wrap(
            spec_physical(origin, index, capacity) + step,
            capacity,
        ),
{
    lemma_wrap_once(origin + index, capacity);
    lemma_wrap_once(origin + index + step, capacity);
    lemma_wrap_once(spec_physical(origin, index, capacity) + step, capacity);
}

/// Reduces an unwrapped position to the slot it names.
pub fn wrap(position: usize, capacity: usize) -> (slot: usize)
    requires
        capacity > 0,
    ensures
        slot == spec_wrap(position as int, capacity as int),
        slot < capacity,
{
    position % capacity
}

/// The physical slot that holds the logical index `index` of a buffer with
/// origin `origin`.
pub fn physical(origin: usize, index: usize, capacity: usize) -> (slot: usize)
    requires
        capacity > 0,
        origin + index <= usize::MAX,
    ensures
        slot == spec_physical(origin as int, index as int, capacity as int),
        slot < capacity,
{
    wrap(origin + index, capacity)
}

} // verus!
