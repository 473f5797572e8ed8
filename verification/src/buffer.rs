//! The owning buffer: a fixed array of slots, an origin and a length.

use vstd::prelude::*;
use crate::layout::{is_live, lemma_physical_injective, lemma_wrap_once, physical, spec_physical};
use crate::storage::{
    lemma_index_occupied, lemma_occupied_count, lemma_slot_appended, lemma_slot_dropped_first, lemma_slot_dropped_last,
    lemma_slot_prepended, lemma_slot_replaced, lemma_vacant_storage, occupied_slots, slots_view,
    slots_wf,
};

use crate::window::{all_occupied, lemma_restored, live_window, occupants, restored, Window};

verus! {

/// A ring buffer that holds at most `N` elements.
///
/// Each of the `N` slots is either occupied or vacant. The occupied slots are
/// exactly those of the wrapped window of `length` slots that starts at
/// `origin`, so dropping the buffer drops each live element once and touches
/// nothing else.
pub struct RingBuffer<A, const N: usize> {
    slots: Vec<Option<A>>,
    origin: usize,
    length: usize,
}

impl<A, const N: usize> View for RingBuffer<A, N> {
    type V = Seq<A>;

    /// The elements in logical order.
    open spec fn view(&self) -> Seq<A> {
        slots_view(self.raw(), self.spec_origin() as int, self.spec_len() as int, N as int)
    }
}

impl<A, const N: usize> RingBuffer<A, N> {
    /// The slot array, vacant slots included.
    pub closed spec fn raw(&self) -> Seq<Option<A>> {
        self.slots@
    }

    /// The physical slot of logical index 0.
    pub closed spec fn spec_origin(&self) -> usize {
        self.origin
    }

    /// The number of live elements.
    pub closed spec fn spec_len(&self) -> usize {
        self.length
    }

    /// The slots of the buffer's elements, as an exclusive view of the whole
    /// buffer borrows them.
    pub open spec fn lent(&self) -> Window<A> {
        live_window(self.raw(), self.spec_origin() as int, self.spec_len() as int, N as int)
    }

    /// The buffer's invariant: its storage is well formed, and an unwrapped
    /// cursor over it fits in a `usize`.
    pub open spec fn wf(&self) -> bool {
        &&& 2 * N <= usize::MAX
        &&& slots_wf(self.raw(), self.spec_origin() as int, self.spec_len() as int, N as int)
    }

    /// The slot of a logical index of the buffer is live and holds the
    /// element at that index, and two indices never share a slot.
    pub proof fn lemma_slot_of_index(&self, i: int, j: int)
        requires
            self.wf(),
            0 <= i < self@.len(),
            0 <= j < self@.len(),
        ensures
            is_live(
                self.spec_origin() as int,
                self.spec_len() as int,
                N as int,
                spec_physical(self.spec_origin() as int, i, N as int),
            ),
            self.raw()[spec_physical(self.spec_origin() as int, i, N as int)] == Some(self@[i]),
            i != j ==> spec_physical(self.spec_origin() as int, i, N as int) != spec_physical(
                self.spec_origin() as int,
                j,
                N as int,
            ),
    {
        lemma_physical_injective(self.spec_origin() as int, self.spec_len() as int, N as int, i, j);
        lemma_index_occupied(
            self.raw(),
            self.spec_origin() as int,
            self.spec_len() as int,
            N as int,
            i,
        );
    }

    /// The buffer holds exactly as many values as it has elements: dropping
    /// it drops that many, one for each logical index, and finds every other
    /// slot vacant.
    pub proof fn lemma_holds_its_length(&self)
        requires
            self.wf(),
        ensures
            occupied_slots(self.raw()).finite(),
            occupied_slots(self.raw()).len() == self@.len(),
    {
        lemma_occupied_count(
            self.raw(),
            self.spec_origin() as int,
            self.spec_len() as int,
            N as int,
        );
    }

    /// A buffer whose live window was lent out and has come back holding
    /// `head` and `tail`, every slot of them occupied, is well formed and
    /// has the elements that came back.
    pub proof fn lemma_returned(&self, after: &Self, head: Seq<Option<A>>, tail: Seq<Option<A>>)
        requires
            self.wf(),
            after.spec_origin() == self.spec_origin(),
            after.spec_len() == self.spec_len(),
            head.len() == self.lent().head.len(),
            tail.len() == self.lent().tail.len(),
            all_occupied(head),
            all_occupied(tail),
            after.raw() == restored(self.raw(), self.lent(), head, tail),
        ensures
            after.wf(),
            after@ == occupants(head + tail),
    {
        lemma_restored(
            self.raw(),
            self.spec_origin() as int,
            self.spec_len() as int,
            N as int,
            head,
            tail,
        );
    }

    /// Creates an empty buffer.
    pub fn new() -> (buffer: Self)
        requires
            0 < N,
            2 * N <= usize::MAX,
        ensures
            buffer.wf(),
            buffer@ == Seq::<A>::empty(),
            buffer.spec_origin() == 0,
    {
        let mut slots: Vec<Option<A>> = Vec::new();
        let mut filled: usize = 0;
        while filled < N
            invariant
                filled <= N,
                slots@.len() == filled,
                forall|i: int| 0 <= i < filled ==> (#[trigger] slots@[i]) is None,
            decreases N - filled,
        {
            slots.push(None);
            filled = filled + 1;
        }
        proof {
            lemma_vacant_storage(slots@, N as int);
        }
        RingBuffer { slots, origin: 0, length: 0 }
    }

    /// The number of elements in the buffer.
    pub fn len(&self) -> (length: usize)
        ensures
            length == self.spec_len(),
            length == self@.len(),
    {
        self.length
    }

    /// Whether the buffer holds no element.
    pub fn is_empty(&self) -> (empty: bool)
        ensures
            empty == (self@.len() == 0),
    {
        self.length == 0
    }

    /// Whether every slot is occupied.
    pub fn is_full(&self) -> (full: bool)
        ensures
            full == (self@.len() == N),
    {
        self.length == N
    }

    /// The physical slot of logical index 0.
    pub fn origin(&self) -> (origin: usize)
        ensures
            origin == self.spec_origin(),
    {
        self.origin
    }

    /// The slot array, for a view to read through.
    pub(crate) fn slots(&self) -> (slots: &[Option<A>])
        ensures
            slots@ == self.raw(),
    {
        self.slots.as_slice()
    }

    /// The slot array, for a view to write through. The buffer holds what
    /// the view leaves in it.
    pub(crate) fn slots_mut(&mut self) -> (slots: &mut [Option<A>])
        ensures
            slots@ == old(self).raw(),
            final(self).raw() == final(slots)@,
            final(self).spec_origin() == old(self).spec_origin(),
            final(self).spec_len() == old(self).spec_len(),
    {
        self.slots.as_mut_slice()
    }

    /// The element at logical index `index`, if there is one.
    pub fn get(&self, index: usize) -> (element: Option<&A>)
        requires
            self.wf(),
        ensures
            element == (if index < self@.len() {
                Some(&self@[index as int])
            } else {
                None
            }),
    {
        if index >= self.length {
            None
        } else {
            Some(self.get_unchecked(index))
        }
    }

    /// The element at logical index `index`, for a caller that knows the
    /// index to be in range.
    pub fn get_unchecked(&self, index: usize) -> (element: &A)
        requires
            self.wf(),
            index < self@.len(),
        ensures
            *element == self@[index as int],
    {
        let slot = physical(self.origin, index, N);
        proof {
            lemma_index_occupied(
                self.slots@,
                self.origin as int,
                self.length as int,
                N as int,
                index as int,
            );
        }
        self.slots[slot].as_ref().unwrap()
    }

    /// Exclusive access to the element at logical index `index`, if there is
    /// one. Whatever the caller leaves there is what the buffer then holds.
    pub fn get_mut(&mut self, index: usize) -> (element: Option<&mut A>)
        requires
            old(self).wf(),
        ensures
            final(self).wf(),
            final(self).spec_origin() == old(self).spec_origin(),
            final(self).spec_len() == old(self).spec_len(),
            index >= old(self)@.len() ==> element is None && final(self)@ == old(self)@,
            index < old(self)@.len() ==> element is Some && *element->0 == old(self)@[index as int]
                && final(self)@ == old(self)@.update(index as int, *final(element->0)),
    {
        if index >= self.length {
            None
        } else {
            let slot = physical(self.origin, index, N);
            proof {
                lemma_index_occupied(
                    self.slots@,
                    self.origin as int,
                    self.length as int,
                    N as int,
                    index as int,
                );
            }
            let element = self.slots[slot].as_mut();
            proof {
                lemma_slot_replaced(
                    old(self).slots@,
                    old(self).origin as int,
                    old(self).length as int,
                    N as int,
                    index as int,
                    *final(element->0),
                );
            }
            element
        }
    }

    /// Replaces the element at logical index `index` and hands the previous
    /// one to the caller.
    pub fn set(&mut self, index: usize, value: A) -> (previous: A)
        requires
            old(self).wf(),
            index < old(self)@.len(),
        ensures
            final(self).wf(),
            previous == old(self)@[index as int],
            final(self)@ == old(self)@.update(index as int, value),
            final(self).spec_origin() == old(self).spec_origin(),
            final(self).spec_len() == old(self).spec_len(),
    {
        let slot = physical(self.origin, index, N);
        proof {
            lemma_index_occupied(
                self.slots@,
                self.origin as int,
                self.length as int,
                N as int,
                index as int,
            );
            lemma_slot_replaced(
                self.slots@,
                self.origin as int,
                self.length as int,
                N as int,
                index as int,
                value,
            );
        }
        let mut cell = Some(value);
        core::mem::swap(&mut self.slots[slot], &mut cell);
        cell.unwrap()
    }

    /// Appends `value`, or hands it back when the buffer is full.
    pub fn push_back(&mut self, value: A) -> (outcome: Result<(), A>)
        requires
            old(self).wf(),
        ensures
            final(self).wf(),
            final(self).spec_origin() == old(self).spec_origin(),
            old(self)@.len() < N ==> outcome is Ok && final(self)@ == old(self)@.push(value),
            old(self)@.len() == N ==> outcome == Err::<(), A>(value) && final(self)@ == old(self)@,
    {
        if self.length == N {
            return Err(value);
        }
        let slot = physical(self.origin, self.length, N);
        proof {
            lemma_slot_appended(self.slots@, self.origin as int, self.length as int, N as int, value);
        }
        self.slots[slot] = Some(value);
        self.length = self.length + 1;
        Ok(())
    }

    /// Prepends `value`, or hands it back when the buffer is full.
    pub fn push_front(&mut self, value: A) -> (outcome: Result<(), A>)
        requires
            old(self).wf(),
        ensures
            final(self).wf(),
            old(self)@.len() < N ==> outcome is Ok && final(self)@ == seq![value] + old(self)@,
            old(self)@.len() == N ==> outcome == Err::<(), A>(value) && final(self)@ == old(self)@
                && final(self).spec_origin() == old(self).spec_origin(),
    {
        if self.length == N {
            return Err(value);
        }
        let before = if self.origin == 0 {
            N - 1
        } else {
            self.origin - 1
        };
        proof {
            lemma_slot_prepended(self.slots@, self.origin as int, self.length as int, N as int, value);
        }
        self.slots[before] = Some(value);
        self.origin = before;
        self.length = self.length + 1;
        Ok(())
    }

    /// Removes the last element, if there is one.
    pub fn pop_back(&mut self) -> (element: Option<A>)
        requires
            old(self).wf(),
        ensures
            final(self).wf(),
            final(self).spec_origin() == old(self).spec_origin(),
            old(self)@.len() == 0 ==> element is None && final(self)@ == old(self)@,
            old(self)@.len() > 0 ==> element == Some(old(self)@.last()) && final(self)@ == old(
                self,
            )@.drop_last(),
    {
        if self.length == 0 {
            return None;
        }
        let slot = physical(self.origin, self.length - 1, N);
        proof {
            lemma_index_occupied(
                self.slots@,
                self.origin as int,
                self.length as int,
                N as int,
                self.length - 1,
            );
            lemma_slot_dropped_last(self.slots@, self.origin as int, self.length as int, N as int);
        }
        let element = self.slots[slot].take();
        self.length = self.length - 1;
        element
    }

    /// Removes the first element, if there is one.
    pub fn pop_front(&mut self) -> (element: Option<A>)
        requires
            old(self).wf(),
        ensures
            final(self).wf(),
            old(self)@.len() == 0 ==> element is None && final(self)@ == old(self)@
                && final(self).spec_origin() == old(self).spec_origin(),
            old(self)@.len() > 0 ==> element == Some(old(self)@.first()) && final(self)@ == old(
                self,
            )@.drop_first(),
    {
        if self.length == 0 {
            return None;
        }
        let slot = self.origin;
        proof {
            lemma_wrap_once(self.origin as int, N as int);
            lemma_index_occupied(self.slots@, self.origin as int, self.length as int, N as int, 0);
            lemma_slot_dropped_first(self.slots@, self.origin as int, self.length as int, N as int);
        }
        let element = self.slots[slot].take();
        self.origin = physical(self.origin, 1, N);
        self.length = self.length - 1;
        element
    }
}

} // verus!
