//! What a view sees of a buffer's storage: one or two runs of its slot
//! array, and the logical range that is read through them.

use vstd::prelude::*;
use crate::layout::{
    is_live, lemma_live_cases, lemma_physical_injective, lemma_physical_step, lemma_wrap_once,
    spec_physical,
};
use crate::storage::{lemma_index_occupied, slots_view, slots_wf};

verus! {

/// The model of a view.
///
/// `head` holds the slots `head_base, head_base + 1, ..` of the buffer's
/// array and `tail` the slots `tail_base, tail_base + 1, ..`. The view shows
/// the logical indices `start .. end` of a buffer with origin `origin`.
pub struct Window<A> {
    pub head: Seq<Option<A>>,
    pub head_base: int,
    pub tail: Seq<Option<A>>,
    pub tail_base: int,
    pub origin: int,
    pub start: int,
    pub end: int,
    pub capacity: int,
}

/// The values of a run of occupied slots.
pub open spec fn occupants<A>(slots: Seq<Option<A>>) -> Seq<A> {
    Seq::new(slots.len(), |i: int| slots[i]->0)
}

/// Whether every slot of a run is occupied.
pub open spec fn all_occupied<A>(slots: Seq<Option<A>>) -> bool {
    forall|i: int| 0 <= i < slots.len() ==> (#[trigger] slots[i]) is Some
}

impl<A> Window<A> {
    /// The number of elements that the view shows.
    pub open spec fn len(self) -> int {
        self.end - self.start
    }

    /// Whether `slot` is one of the slots that `head` holds.
    pub open spec fn in_head(self, slot: int) -> bool {
        self.head_base <= slot < self.head_base + self.head.len()
    }

    /// Whether `slot` is one of the slots that `tail` holds.
    pub open spec fn in_tail(self, slot: int) -> bool {
        self.tail_base <= slot < self.tail_base + self.tail.len()
    }

    /// What the window holds for the physical slot `slot`.
    pub open spec fn slot(self, slot: int) -> Option<A> {
        if self.in_head(slot) {
            self.head[slot - self.head_base]
        } else {
            self.tail[slot - self.tail_base]
        }
    }

    /// The physical slot of the view's index `index`.
    pub open spec fn position(self, index: int) -> int {
        spec_physical(self.origin, self.start + index, self.capacity)
    }

    /// The range and the origin are those of a buffer of this capacity.
    pub open spec fn framed(self) -> bool {
        &&& 0 < self.capacity
        &&& 2 * self.capacity <= usize::MAX
        &&& 0 <= self.origin < self.capacity
        &&& 0 <= self.start <= self.end <= self.capacity
        &&& 0 <= self.head_base
        &&& 0 <= self.tail_base
    }

    /// The window reaches an occupied slot for every index of the view.
    pub open spec fn wf(self) -> bool {
        &&& self.framed()
        &&& forall|i: int|
            0 <= i < self.len() ==> {
                &&& self.in_head(#[trigger] self.position(i)) || self.in_tail(self.position(i))
                &&& self.slot(self.position(i)) is Some
            }
    }

    /// The elements that the view shows, in logical order.
    pub open spec fn elements(self) -> Seq<A> {
        Seq::new(self.len() as nat, |i: int| self.slot(self.position(i))->0)
    }

    /// The window holds the slots of the view's range and no others: `head`
    /// the first of them, `tail` those that follow across the wrap.
    pub open spec fn exact(self) -> bool {
        &&& self.framed()
        &&& self.head.len() + self.tail.len() == self.len()
        &&& self.head_base + self.head.len() <= self.capacity
        &&& self.tail_base + self.tail.len() <= self.capacity
        &&& self.head.len() > 0 ==> self.head_base == self.position(0)
        &&& self.tail.len() > 0 ==> self.tail_base == self.position(self.head.len() as int)
        &&& all_occupied(self.head)
        &&& all_occupied(self.tail)
    }

    /// The same window over the narrower range `start .. end`.
    pub open spec fn narrowed(self, start: int, end: int) -> Window<A> {
        Window { start, end, ..self }
    }

    /// The two halves of an exact window cut before index `index`.
    pub open spec fn split(self, index: int) -> (Window<A>, Window<A>) {
        let a = if index <= self.head.len() {
            index
        } else {
            self.head.len() as int
        };
        let b = index - a;
        (
            Window {
                head: self.head.subrange(0, a),
                tail: self.tail.subrange(0, b),
                end: self.start + index,
                ..self
            },
            Window {
                head: self.head.subrange(a, self.head.len() as int),
                head_base: self.head_base + a,
                tail: self.tail.subrange(b, self.tail.len() as int),
                tail_base: self.tail_base + b,
                start: self.start + index,
                ..self
            },
        )
    }

    /// The window after `value` has been written into the slot of index
    /// `index`.
    pub open spec fn replaced(self, index: int, value: A) -> Window<A> {
        let slot = self.position(index);
        if self.in_head(slot) {
            Window { head: self.head.update(slot - self.head_base, Some(value)), ..self }
        } else {
            Window { tail: self.tail.update(slot - self.tail_base, Some(value)), ..self }
        }
    }

    /// Writing through a window changes the element written and no other.
    pub proof fn lemma_replaced(self, index: int, value: A)
        requires
            self.wf(),
            0 <= index < self.len(),
        ensures
            self.replaced(index, value).wf(),
            self.replaced(index, value).elements() == self.elements().update(index, value),
            self.exact() ==> self.replaced(index, value).exact(),
    {
        let after = self.replaced(index, value);
        assert(self.in_head(self.position(index)) || self.in_tail(self.position(index)));
        assert forall|i: int| 0 <= i < after.len() implies {
            &&& after.in_head(#[trigger] after.position(i)) || after.in_tail(after.position(i))
            &&& after.slot(after.position(i)) is Some
        } by {
            assert(after.position(i) == self.position(i));
            assert(self.slot(self.position(i)) is Some);
        }
        assert forall|i: int| 0 <= i < after.len() implies after.elements()[i]
            == self.elements().update(index, value)[i] by {
            assert(after.position(i) == self.position(i));
            if i != index {
                lemma_physical_injective(
                    self.origin,
                    self.capacity,
                    self.capacity,
                    self.start + i,
                    self.start + index,
                );
            }
        }
        if self.exact() {
            assert(after.position(0) == self.position(0));
            assert(after.position(after.head.len() as int) == self.position(self.head.len() as int));
        }
    }

    /// Narrowing a window keeps it well formed and shows the matching part of
    /// its elements.
    pub proof fn lemma_narrowed(self, start: int, end: int)
        requires
            self.wf(),
            self.start <= start <= end <= self.end,
        ensures
            self.narrowed(start, end).wf(),
            self.narrowed(start, end).elements() == self.elements().subrange(
                start - self.start,
                end - self.start,
            ),
    {
        let narrow = self.narrowed(start, end);
        let shift = start - self.start;
        assert forall|i: int| 0 <= i < narrow.len() implies {
            &&& narrow.in_head(#[trigger] narrow.position(i)) || narrow.in_tail(narrow.position(i))
            &&& narrow.slot(narrow.position(i)) is Some
        } by {
            assert(narrow.position(i) == self.position(i + shift));
        }
        assert forall|i: int| 0 <= i < narrow.len() implies narrow.elements()[i]
            == self.elements().subrange(shift, end - self.start)[i] by {
            assert(narrow.position(i) == self.position(i + shift));
        }
    }

    /// In an exact window the view's indices run through `head` and then
    /// through `tail`.
    pub proof fn lemma_exact_positions(self, index: int)
        requires
            self.exact(),
            0 <= index < self.len(),
        ensures
            index < self.head.len() ==> self.position(index) == self.head_base + index,
            index >= self.head.len() ==> self.position(index) == self.tail_base + index
                - self.head.len() && !self.in_head(self.position(index)),
            self.in_head(self.position(index)) || self.in_tail(self.position(index)),
            self.slot(self.position(index)) == (self.head + self.tail)[index],
    {
        let h = self.head.len() as int;
        if index < h {
            lemma_physical_step(self.origin, self.start, index, self.capacity);
            lemma_wrap_once(self.head_base + index, self.capacity);
        } else {
            lemma_physical_step(self.origin, self.start + h, index - h, self.capacity);
            lemma_wrap_once(self.tail_base + index - h, self.capacity);
            let slot = self.position(index);
            if self.in_head(slot) {
                let twin = slot - self.head_base;
                lemma_physical_step(self.origin, self.start, twin, self.capacity);
                lemma_wrap_once(self.head_base + twin, self.capacity);
                lemma_physical_injective(
                    self.origin,
                    self.capacity,
                    self.capacity,
                    self.start + twin,
                    self.start + index,
                );
            }
        }
    }

    /// An exact window is well formed, and its elements are those of `head`
    /// followed by those of `tail`.
    pub proof fn lemma_exact_wf(self)
        requires
            self.exact(),
        ensures
            self.wf(),
            self.elements() == occupants(self.head + self.tail),
    {
        assert forall|i: int| 0 <= i < self.len() implies {
            &&& self.in_head(#[trigger] self.position(i)) || self.in_tail(self.position(i))
            &&& self.slot(self.position(i)) is Some
        } by {
            self.lemma_exact_positions(i);
        }
        assert forall|i: int| 0 <= i < self.len() implies self.elements()[i] == occupants(
            self.head + self.tail,
        )[i] by {
            self.lemma_exact_positions(i);
        }
    }

    /// Cutting an exact window gives two exact windows that show what lies
    /// before the cut and what lies after it.
    pub proof fn lemma_split(self, index: int)
        requires
            self.exact(),
            0 <= index <= self.len(),
        ensures
            self.split(index).0.exact(),
            self.split(index).1.exact(),
            occupants(self.split(index).0.head + self.split(index).0.tail) == occupants(
                self.head + self.tail,
            ).take(index),
            occupants(self.split(index).1.head + self.split(index).1.tail) == occupants(
                self.head + self.tail,
            ).skip(index),
    {
        let h = self.head.len() as int;
        let (left, right) = self.split(index);
        if index < self.len() {
            self.lemma_exact_positions(index);
        }
        if h < self.len() {
            self.lemma_exact_positions(h);
        }
        assert(left.position(0) == self.position(0));
        assert(left.position(h) == self.position(h));
        assert(right.position(0) == self.position(index));
        assert(right.position(right.head.len() as int) == self.position(
            index + right.head.len(),
        ));
        assert(occupants(left.head + left.tail) =~= occupants(self.head + self.tail).take(index));
        assert(occupants(right.head + right.tail) =~= occupants(self.head + self.tail).skip(index));
    }
}

/// The whole slot array of a well-formed storage, read as a window over all
/// of its elements.
pub open spec fn whole_window<A>(raw: Seq<Option<A>>, origin: int, length: int, capacity: int) -> Window<
    A,
> {
    Window {
        head: raw,
        head_base: 0,
        tail: Seq::empty(),
        tail_base: 0,
        origin,
        start: 0,
        end: length,
        capacity,
    }
}

/// The window over a whole storage is well formed and shows the storage's
/// elements.
pub proof fn lemma_whole_window<A>(raw: Seq<Option<A>>, origin: int, length: int, capacity: int)
    requires
        slots_wf(raw, origin, length, capacity),
        2 * capacity <= usize::MAX,
    ensures
        whole_window(raw, origin, length, capacity).wf(),
        whole_window(raw, origin, length, capacity).elements() == slots_view(
            raw,
            origin,
            length,
            capacity,
        ),
{
    let w = whole_window(raw, origin, length, capacity);
    assert forall|i: int| 0 <= i < w.len() implies {
        &&& w.in_head(#[trigger] w.position(i)) || w.in_tail(w.position(i))
        &&& w.slot(w.position(i)) is Some
    } by {
        lemma_index_occupied(raw, origin, length, capacity, i);
    }
    assert forall|i: int| 0 <= i < w.len() implies w.elements()[i] == slots_view(
        raw,
        origin,
        length,
        capacity,
    )[i] by {
        lemma_index_occupied(raw, origin, length, capacity, i);
    }
}

/// The slots of a storage's live window, read as an exact window: the run
/// from the origin up to the end of the array, and the run that follows it
/// from slot 0.
pub open spec fn live_window<A>(raw: Seq<Option<A>>, origin: int, length: int, capacity: int) -> Window<
    A,
> {
    let run = if length <= capacity - origin {
        length
    } else {
        capacity - origin
    };
    Window {
        head: raw.subrange(origin, origin + run),
        head_base: origin,
        tail: raw.subrange(0, length - run),
        tail_base: 0,
        origin,
        start: 0,
        end: length,
        capacity,
    }
}

/// The live window of a storage is exact and shows the storage's elements.
pub proof fn lemma_live_window<A>(raw: Seq<Option<A>>, origin: int, length: int, capacity: int)
    requires
        slots_wf(raw, origin, length, capacity),
        2 * capacity <= usize::MAX,
    ensures
        live_window(raw, origin, length, capacity).exact(),
        live_window(raw, origin, length, capacity).elements() == slots_view(
            raw,
            origin,
            length,
            capacity,
        ),
{
    let w = live_window(raw, origin, length, capacity);
    let run = w.head.len() as int;
    lemma_wrap_once(origin, capacity);
    lemma_wrap_once(origin + run, capacity);
    assert forall|i: int| 0 <= i < w.head.len() implies (#[trigger] w.head[i]) is Some by {
        lemma_index_occupied(raw, origin, length, capacity, i);
        lemma_wrap_once(origin + i, capacity);
    }
    assert forall|i: int| 0 <= i < w.tail.len() implies (#[trigger] w.tail[i]) is Some by {
        lemma_index_occupied(raw, origin, length, capacity, run + i);
        lemma_wrap_once(origin + run + i, capacity);
    }
    w.lemma_exact_wf();
    assert forall|i: int| 0 <= i < length implies w.elements()[i] == slots_view(
        raw,
        origin,
        length,
        capacity,
    )[i] by {
        lemma_wrap_once(origin + i, capacity);
    }
}

/// What a storage holds once the two runs of its live window `lent` have
/// come back holding `head` and `tail`: those, and around them the slots
/// that were never lent.
pub open spec fn restored<A>(
    raw: Seq<Option<A>>,
    lent: Window<A>,
    head: Seq<Option<A>>,
    tail: Seq<Option<A>>,
) -> Seq<Option<A>> {
    tail + raw.subrange(lent.tail.len() as int, lent.origin) + head + raw.subrange(
        lent.origin + lent.head.len(),
        raw.len() as int,
    )
}

/// A storage whose live window comes back with every slot occupied is well
/// formed, and its elements are those that came back.
pub proof fn lemma_restored<A>(
    raw: Seq<Option<A>>,
    origin: int,
    length: int,
    capacity: int,
    head: Seq<Option<A>>,
    tail: Seq<Option<A>>,
)
    requires
        slots_wf(raw, origin, length, capacity),
        2 * capacity <= usize::MAX,
        head.len() == live_window(raw, origin, length, capacity).head.len(),
        tail.len() == live_window(raw, origin, length, capacity).tail.len(),
        all_occupied(head),
        all_occupied(tail),
    ensures
        slots_wf(
            restored(raw, live_window(raw, origin, length, capacity), head, tail),
            origin,
            length,
            capacity,
        ),
        slots_view(
            restored(raw, live_window(raw, origin, length, capacity), head, tail),
            origin,
            length,
            capacity,
        ) == occupants(head + tail),
{
    let after = restored(raw, live_window(raw, origin, length, capacity), head, tail);
    let run = head.len() as int;
    assert forall|slot: int| 0 <= slot < capacity implies ((#[trigger] after[slot]) is Some
        <==> is_live(origin, length, capacity, slot)) by {
        lemma_live_cases(origin, length, capacity, slot);
        assert(raw[slot] is Some <==> is_live(origin, length, capacity, slot));
        if slot < tail.len() {
            assert(after[slot] == tail[slot]);
        } else if slot < origin {
            assert(after[slot] == raw[slot]);
        } else if slot < origin + run {
            assert(after[slot] == head[slot - origin]);
        } else {
            assert(after[slot] == raw[slot]);
        }
    }
    assert forall|i: int| 0 <= i < length implies slots_view(after, origin, length, capacity)[i]
        == occupants(head + tail)[i] by {
        lemma_wrap_once(origin + i, capacity);
    }
}

/// Finds the physical slot `slot` in a window of two runs: whether it is in
/// the head run, and at which offset of its run it stands.
pub fn locate(
    head_len: usize,
    head_base: usize,
    tail_len: usize,
    tail_base: usize,
    slot: usize,
) -> (found: (bool, usize))
    requires
        head_base <= slot < head_base + head_len || tail_base <= slot < tail_base + tail_len,
    ensures
        found.0 == (head_base <= slot < head_base + head_len),
        found.0 ==> found.1 == slot - head_base,
        !found.0 ==> found.1 == slot - tail_base,
{
    if slot >= head_base && slot - head_base < head_len {
        (true, slot - head_base)
    } else {
        (false, slot - tail_base)
    }
}

} // verus!
