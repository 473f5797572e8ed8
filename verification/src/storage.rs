//! The storage model: an array of slots, each occupied or vacant, read
//! through an origin and a length.

use vstd::prelude::*;
use vstd::relations::injective_on;
use vstd::set_lib::{lemma_int_range, lemma_map_size, set_int_range};
use crate::layout::{
    is_live, lemma_live_cases, lemma_live_has_index, lemma_physical_injective, lemma_wrap_once,
    spec_physical, spec_wrap,
};

verus! {

/// The storage invariant: the window lies within the array, and a slot is
/// occupied exactly when it is live.
pub open spec fn slots_wf<A>(raw: Seq<Option<A>>, origin: int, length: int, capacity: int) -> bool {
    &&& 0 < capacity
    &&& raw.len() == capacity
    &&& 0 <= origin < capacity
    &&& 0 <= length <= capacity
    &&& forall|slot: int|
        0 <= slot < capacity ==> ((#[trigger] raw[slot]) is Some <==> is_live(
            origin,
            length,
            capacity,
            slot,
        ))
}

/// The elements that the live slots hold, in logical order.
pub open spec fn slots_view<A>(raw: Seq<Option<A>>, origin: int, length: int, capacity: int) -> Seq<A> {
    Seq::new(length as nat, |i: int| raw[spec_physical(origin, i, capacity)]->0)
}

/// The slots of an array that hold an element.
pub open spec fn occupied_slots<A>(raw: Seq<Option<A>>) -> Set<int> {
    Set::new(|slot: int| 0 <= slot < raw.len() && raw[slot] is Some)
}

/// A well-formed storage holds exactly as many elements as its length says:
/// when it is dropped, that many elements are dropped, one for each logical
/// index, and every other slot is vacant.
pub proof fn lemma_occupied_count<A>(raw: Seq<Option<A>>, origin: int, length: int, capacity: int)
    requires
        slots_wf(raw, origin, length, capacity),
    ensures
        occupied_slots(raw).finite(),
        occupied_slots(raw).len() == length,
        forall|slot: int|
            occupied_slots(raw).contains(slot) <==> exists|index: int|
                0 <= index < length && #[trigger] spec_physical(origin, index, capacity) == slot,
{
    let indices = set_int_range(0, length);
    let slot_of = |index: int| spec_physical(origin, index, capacity);
    lemma_int_range(0, length);
    assert forall|slot: int| occupied_slots(raw).contains(slot) implies exists|index: int|
        0 <= index < length && #[trigger] spec_physical(origin, index, capacity) == slot by {
        assert(raw[slot] is Some);
        lemma_live_has_index(origin, length, capacity, slot);
        let index = spec_wrap(slot - origin, capacity);
        assert(spec_physical(origin, index, capacity) == slot);
    }
    assert forall|index: int| 0 <= index < length implies occupied_slots(raw).contains(
        #[trigger] spec_physical(origin, index, capacity),
    ) by {
        lemma_physical_injective(origin, length, capacity, index, index);
        assert(raw[spec_physical(origin, index, capacity)] is Some);
    }
    assert forall|i: int, j: int|
        indices.contains(i) && indices.contains(j) && slot_of(i) == slot_of(j) implies i
        == j by {
        lemma_physical_injective(origin, length, capacity, i, j);
    }
    assert(injective_on(slot_of, indices));
    assert(indices.map(slot_of) =~= occupied_slots(raw)) by {
        assert forall|slot: int| indices.map(slot_of).contains(slot) implies occupied_slots(
            raw,
        ).contains(slot) by {
            let index = choose|index: int| indices.contains(index) && slot_of(index) == slot;
            assert(occupied_slots(raw).contains(spec_physical(origin, index, capacity)));
        }
        assert forall|slot: int| occupied_slots(raw).contains(slot) implies indices.map(
            slot_of,
        ).contains(slot) by {
            let index = choose|index: int|
                0 <= index < length && #[trigger] spec_physical(origin, index, capacity) == slot;
            assert(indices.contains(index) && slot_of(index) == slot);
        }
    }
    lemma_map_size(indices, occupied_slots(raw), slot_of);
}

/// An array of vacant slots is the storage of an empty buffer.
pub proof fn lemma_vacant_storage<A>(raw: Seq<Option<A>>, capacity: int)
    requires
        0 < capacity,
        raw.len() == capacity,
        forall|slot: int| 0 <= slot < capacity ==> (#[trigger] raw[slot]) is None,
    ensures
        slots_wf(raw, 0, 0, capacity),
        slots_view(raw, 0, 0, capacity) == Seq::<A>::empty(),
{
    assert forall|slot: int| 0 <= slot < capacity implies !is_live(0, 0, capacity, slot) by {
        lemma_live_cases(0, 0, capacity, slot);
    }
}

/// Every logical index of a well-formed storage names an occupied slot.
pub proof fn lemma_index_occupied<A>(
    raw: Seq<Option<A>>,
    origin: int,
    length: int,
    capacity: int,
    index: int,
)
    requires
        slots_wf(raw, origin, length, capacity),
        0 <= index < length,
    ensures
        0 <= spec_physical(origin, index, capacity) < capacity,
        raw[spec_physical(origin, index, capacity)] is Some,
        raw[spec_physical(origin, index, capacity)]->0 == slots_view(raw, origin, length, capacity)[index],
{
    lemma_physical_injective(origin, length, capacity, index, index);
}

/// Writing a value into the slot of one logical index changes that element
/// of the view and nothing else.
pub proof fn lemma_slot_replaced<A>(
    raw: Seq<Option<A>>,
    origin: int,
    length: int,
    capacity: int,
    index: int,
    value: A,
)
    requires
        slots_wf(raw, origin, length, capacity),
        0 <= index < length,
    ensures
        slots_wf(
            raw.update(spec_physical(origin, index, capacity), Some(value)),
            origin,
            length,
            capacity,
        ),
        slots_view(
            raw.update(spec_physical(origin, index, capacity), Some(value)),
            origin,
            length,
            capacity,
        ) == slots_view(raw, origin, length, capacity).update(index, value),
{
    let slot = spec_physical(origin, index, capacity);
    let after = raw.update(slot, Some(value));
    lemma_physical_injective(origin, length, capacity, index, index);
    assert forall|s: int| 0 <= s < capacity implies ((#[trigger] after[s]) is Some <==> is_live(
        origin,
        length,
        capacity,
        s,
    )) by {
        assert(raw[s] is Some <==> is_live(origin, length, capacity, s));
    }
    assert forall|i: int| 0 <= i < length implies slots_view(after, origin, length, capacity)[i]
        == slots_view(raw, origin, length, capacity).update(index, value)[i] by {
        lemma_physical_injective(origin, length, capacity, i, index);
    }
}

/// Occupying the slot after the last element appends to the view.
pub proof fn lemma_slot_appended<A>(
    raw: Seq<Option<A>>,
    origin: int,
    length: int,
    capacity: int,
    value: A,
)
    requires
        slots_wf(raw, origin, length, capacity),
        length < capacity,
    ensures
        slots_wf(
            raw.update(spec_physical(origin, length, capacity), Some(value)),
            origin,
            length + 1,
            capacity,
        ),
        slots_view(
            raw.update(spec_physical(origin, length, capacity), Some(value)),
            origin,
            length + 1,
            capacity,
        ) == slots_view(raw, origin, length, capacity).push(value),
{
    let slot = spec_physical(origin, length, capacity);
    let after = raw.update(slot, Some(value));
    lemma_wrap_once(origin + length, capacity);
    assert forall|s: int| 0 <= s < capacity implies ((#[trigger] after[s]) is Some <==> is_live(
        origin,
        length + 1,
        capacity,
        s,
    )) by {
        assert(raw[s] is Some <==> is_live(origin, length, capacity, s));
        lemma_live_cases(origin, length, capacity, s);
        lemma_live_cases(origin, length + 1, capacity, s);
    }
    assert forall|i: int| 0 <= i < length + 1 implies slots_view(
        after,
        origin,
        length + 1,
        capacity,
    )[i] == slots_view(raw, origin, length, capacity).push(value)[i] by {
        lemma_physical_injective(origin, length + 1, capacity, i, length);
    }
}

/// Vacating the slot of the last element drops it from the view.
pub proof fn lemma_slot_dropped_last<A>(
    raw: Seq<Option<A>>,
    origin: int,
    length: int,
    capacity: int,
)
    requires
        slots_wf(raw, origin, length, capacity),
        0 < length,
    ensures
        slots_wf(
            raw.update(spec_physical(origin, length - 1, capacity), None),
            origin,
            length - 1,
            capacity,
        ),
        slots_view(
            raw.update(spec_physical(origin, length - 1, capacity), None),
            origin,
            length - 1,
            capacity,
        ) == slots_view(raw, origin, length, capacity).drop_last(),
{
    let slot = spec_physical(origin, length - 1, capacity);
    let after = raw.update(slot, None);
    lemma_wrap_once(origin + length - 1, capacity);
    assert forall|s: int| 0 <= s < capacity implies ((#[trigger] after[s]) is Some <==> is_live(
        origin,
        length - 1,
        capacity,
        s,
    )) by {
        assert(raw[s] is Some <==> is_live(origin, length, capacity, s));
        lemma_live_cases(origin, length, capacity, s);
        lemma_live_cases(origin, length - 1, capacity, s);
    }
    assert forall|i: int| 0 <= i < length - 1 implies slots_view(
        after,
        origin,
        length - 1,
        capacity,
    )[i] == slots_view(raw, origin, length, capacity).drop_last()[i] by {
        lemma_physical_injective(origin, length, capacity, i, length - 1);
    }
}

/// Occupying the slot before the origin, and moving the origin there,
/// prepends to the view.
pub proof fn lemma_slot_prepended<A>(
    raw: Seq<Option<A>>,
    origin: int,
    length: int,
    capacity: int,
    value: A,
)
    requires
        slots_wf(raw, origin, length, capacity),
        length < capacity,
    ensures
        ({
            let before = if origin == 0 {
                capacity - 1
            } else {
                origin - 1
            };
            &&& slots_wf(raw.update(before, Some(value)), before, length + 1, capacity)
            &&& slots_view(raw.update(before, Some(value)), before, length + 1, capacity) == seq![
                value,
            ] + slots_view(raw, origin, length, capacity)
        }),
{
    let before = if origin == 0 {
        capacity - 1
    } else {
        origin - 1
    };
    let after = raw.update(before, Some(value));
    assert forall|s: int| 0 <= s < capacity implies ((#[trigger] after[s]) is Some <==> is_live(
        before,
        length + 1,
        capacity,
        s,
    )) by {
        assert(raw[s] is Some <==> is_live(origin, length, capacity, s));
        lemma_live_cases(origin, length, capacity, s);
        lemma_live_cases(before, length + 1, capacity, s);
    }
    assert forall|i: int| 0 <= i < length + 1 implies slots_view(
        after,
        before,
        length + 1,
        capacity,
    )[i] == (seq![value] + slots_view(raw, origin, length, capacity))[i] by {
        lemma_wrap_once(before + i, capacity);
        if i > 0 {
            lemma_wrap_once(origin + (i - 1), capacity);
        }
    }
}

/// Vacating the slot at the origin, and moving the origin on, drops the
/// first element from the view.
pub proof fn lemma_slot_dropped_first<A>(
    raw: Seq<Option<A>>,
    origin: int,
    length: int,
    capacity: int,
)
    requires
        slots_wf(raw, origin, length, capacity),
        0 < length,
    ensures
        slots_wf(
            raw.update(origin, None),
            spec_physical(origin, 1, capacity),
            length - 1,
            capacity,
        ),
        slots_view(
            raw.update(origin, None),
            spec_physical(origin, 1, capacity),
            length - 1,
            capacity,
        ) == slots_view(raw, origin, length, capacity).drop_first(),
{
    let next = spec_physical(origin, 1, capacity);
    let after = raw.update(origin, None);
    lemma_wrap_once(origin + 1, capacity);
    assert forall|s: int| 0 <= s < capacity implies ((#[trigger] after[s]) is Some <==> is_live(
        next,
        length - 1,
        capacity,
        s,
    )) by {
        assert(raw[s] is Some <==> is_live(origin, length, capacity, s));
        lemma_live_cases(origin, length, capacity, s);
        lemma_live_cases(next, length - 1, capacity, s);
    }
    assert forall|i: int| 0 <= i < length - 1 implies slots_view(
        after,
        next,
        length - 1,
        capacity,
    )[i] == slots_view(raw, origin, length, capacity).drop_first()[i] by {
        lemma_wrap_once(next + i, capacity);
        lemma_wrap_once(origin + i + 1, capacity);
    }
}

} // verus!
