//! Double-ended cursors over a view.

use vstd::prelude::*;
use crate::layout::wrap;
use crate::window::{all_occupied, locate, Window};

verus! {

/// A double-ended cursor over the elements of a shared view.
///
/// `left_index` and `right_index` are unwrapped positions: the origin of the
/// buffer plus a logical index, not reduced to a slot. Their difference is
/// the number of elements still to come.
pub struct Iter<'a, A, const N: usize> {
    pub(crate) head: &'a [Option<A>],
    pub(crate) head_base: usize,
    pub(crate) tail: &'a [Option<A>],
    pub(crate) tail_base: usize,
    pub(crate) origin: usize,
    pub(crate) left_index: usize,
    pub(crate) right_index: usize,
    pub(crate) remaining: usize,
}

impl<'a, A, const N: usize> View for Iter<'a, A, N> {
    type V = Seq<A>;

    /// The elements still to come, front to back.
    open spec fn view(&self) -> Seq<A> {
        self.window().elements()
    }
}

impl<'a, A, const N: usize> Iter<'a, A, N> {
    /// What the cursor sees of the buffer's storage, over the range still to
    /// come.
    pub closed spec fn window(&self) -> Window<A> {
        Window {
            head: self.head@,
            head_base: self.head_base as int,
            tail: self.tail@,
            tail_base: self.tail_base as int,
            origin: self.origin as int,
            start: self.left_index - self.origin,
            end: self.right_index - self.origin,
            capacity: N as int,
        }
    }

    /// The unwrapped position of the next element from the front.
    pub closed spec fn spec_left_index(&self) -> int {
        self.left_index as int
    }

    /// The unwrapped position after the next element from the back.
    pub closed spec fn spec_right_index(&self) -> int {
        self.right_index as int
    }

    /// The number of elements still to come.
    pub closed spec fn spec_remaining(&self) -> int {
        self.remaining as int
    }

    /// The cursor's invariant: the two positions have not crossed, they are
    /// `remaining` apart, and every position between them reaches an
    /// occupied slot.
    pub open spec fn wf(&self) -> bool {
        &&& self.window().wf()
        &&& self.window().capacity == N
        &&& self.spec_left_index() == self.window().origin + self.window().start
        &&& self.spec_right_index() == self.window().origin + self.window().end
        &&& self.spec_remaining() == self.spec_right_index() - self.spec_left_index()
    }

    /// A cursor over the range `start .. end` of the buffer that the two
    /// runs belong to.
    pub(crate) fn over(
        head: &'a [Option<A>],
        head_base: usize,
        tail: &'a [Option<A>],
        tail_base: usize,
        origin: usize,
        start: usize,
        end: usize,
    ) -> (cursor: Self)
        requires
            (Window {
                head: head@,
                head_base: head_base as int,
                tail: tail@,
                tail_base: tail_base as int,
                origin: origin as int,
                start: start as int,
                end: end as int,
                capacity: N as int,
            }).wf(),
        ensures
            cursor.wf(),
            cursor@ == (Window {
                head: head@,
                head_base: head_base as int,
                tail: tail@,
                tail_base: tail_base as int,
                origin: origin as int,
                start: start as int,
                end: end as int,
                capacity: N as int,
            }).elements(),
            cursor.spec_left_index() == origin + start,
            cursor.spec_right_index() == origin + end,
            cursor.spec_remaining() == end - start,
    {
        Iter {
            head,
            head_base,
            tail,
            tail_base,
            origin,
            left_index: origin + start,
            right_index: origin + start + (end - start),
            remaining: end - start,
        }
    }

    /// The number of elements still to come.
    pub fn len(&self) -> (length: usize)
        requires
            self.wf(),
        ensures
            length == self@.len(),
    {
        self.remaining
    }

    /// Takes the next element from the front.
    pub fn next(&mut self) -> (element: Option<&'a A>)
        requires
            old(self).wf(),
        ensures
            final(self).wf(),
            old(self)@.len() == 0 ==> element is None && final(self)@ == old(self)@,
            old(self)@.len() > 0 ==> element == Some(&old(self)@.first()) && final(self)@ == old(
                self,
            )@.drop_first(),
            old(self)@.len() == 0 ==> final(self).spec_left_index() == old(self).spec_left_index(),
            old(self)@.len() > 0 ==> final(self).spec_left_index() == old(self).spec_left_index()
                + 1,
            final(self).spec_right_index() == old(self).spec_right_index(),
    {
        if self.remaining == 0 {
            return None;
        }
        let slot = wrap(self.left_index, N);
        proof {
            let window = self.window();
            assert(slot == window.position(0));
            window.lemma_narrowed(window.start + 1, window.end);
        }
        let (in_head, offset) = locate(
            self.head.len(),
            self.head_base,
            self.tail.len(),
            self.tail_base,
            slot,
        );
        let head = self.head;
        let tail = self.tail;
        let element = if in_head {
            head[offset].as_ref().unwrap()
        } else {
            tail[offset].as_ref().unwrap()
        };
        self.left_index = self.left_index + 1;
        self.remaining = self.remaining - 1;
        Some(element)
    }

    /// Takes the next element from the back.
    pub fn next_back(&mut self) -> (element: Option<&'a A>)
        requires
            old(self).wf(),
        ensures
            final(self).wf(),
            old(self)@.len() == 0 ==> element is None && final(self)@ == old(self)@,
            old(self)@.len() > 0 ==> element == Some(&old(self)@.last()) && final(self)@ == old(
                self,
            )@.drop_last(),
            old(self)@.len() == 0 ==> final(self).spec_right_index() == old(
                self,
            ).spec_right_index(),
            old(self)@.len() > 0 ==> final(self).spec_right_index() == old(self).spec_right_index()
                - 1,
            final(self).spec_left_index() == old(self).spec_left_index(),
    {
        if self.remaining == 0 {
            return None;
        }
        self.right_index = self.right_index - 1;
        self.remaining = self.remaining - 1;
        let slot = wrap(self.right_index, N);
        proof {
            let window = old(self).window();
            assert(slot == window.position(window.len() - 1));
            window.lemma_narrowed(window.start, window.end - 1);
        }
        let (in_head, offset) = locate(
            self.head.len(),
            self.head_base,
            self.tail.len(),
            self.tail_base,
            slot,
        );
        let head = self.head;
        let tail = self.tail;
        let element = if in_head {
            head[offset].as_ref().unwrap()
        } else {
            tail[offset].as_ref().unwrap()
        };
        Some(element)
    }
}

/// A double-ended cursor over the elements of an exclusive view, which
/// hands out each element for writing.
///
/// The two positions never cross, so an element handed out from the front
/// is never one handed out from the back.
///
/// The fields are public so that contracts can speak of what the borrowed
/// runs hold once the cursor is gone. Code that writes to them directly has
/// to keep `wf`.
pub struct IterMut<'a, A, const N: usize> {
    pub head: &'a mut [Option<A>],
    pub head_base: usize,
    pub tail: &'a mut [Option<A>],
    pub tail_base: usize,
    pub origin: usize,
    pub left_index: usize,
    pub right_index: usize,
    pub remaining: usize,
}

impl<'a, A, const N: usize> View for IterMut<'a, A, N> {
    type V = Seq<A>;

    /// The elements still to come, front to back.
    open spec fn view(&self) -> Seq<A> {
        self.window().elements()
    }
}

impl<'a, A, const N: usize> IterMut<'a, A, N> {
    /// What the cursor holds of the buffer's storage, over the range still
    /// to come.
    pub open spec fn window(&self) -> Window<A> {
        Window {
            head: self.head@,
            head_base: self.head_base as int,
            tail: self.tail@,
            tail_base: self.tail_base as int,
            origin: self.origin as int,
            start: self.left_index - self.origin,
            end: self.right_index - self.origin,
            capacity: N as int,
        }
    }

    /// The cursor's invariant: the two positions have not crossed, they are
    /// `remaining` apart, every position between them reaches an occupied
    /// slot, and no slot of the two runs is vacant.
    pub open spec fn wf(&self) -> bool {
        &&& self.window().wf()
        &&& self.remaining == self.right_index - self.left_index
        &&& all_occupied(self.head@)
        &&& all_occupied(self.tail@)
    }

    /// The number of elements still to come.
    pub fn len(&self) -> (length: usize)
        requires
            self.wf(),
        ensures
            length == self@.len(),
    {
        self.remaining
    }

    /// Hands out the next element from the front. Whatever the caller
    /// leaves there stays behind the cursor.
    pub fn next(&mut self) -> (element: Option<&mut A>)
        requires
            old(self).wf(),
        ensures
            final(self).wf(),
            old(self)@.len() == 0 ==> element is None && final(self).window() == old(self).window(),
            old(self)@.len() > 0 ==> element is Some && *element->0 == old(self)@.first()
                && final(self)@ == old(self)@.drop_first() && final(self).window() == old(
                self,
            ).window().replaced(0, *final(element->0)).narrowed(
                old(self).window().start + 1,
                old(self).window().end,
            ),
            final(final(self).head)@ == final(old(self).head)@,
            final(final(self).tail)@ == final(old(self).tail)@,
    {
        if self.remaining == 0 {
            return None;
        }
        let slot = wrap(self.left_index, N);
        assert(slot == self.window().position(0));
        let (in_head, offset) = locate(
            self.head.len(),
            self.head_base,
            self.tail.len(),
            self.tail_base,
            slot,
        );
        self.left_index = self.left_index + 1;
        self.remaining = self.remaining - 1;
        let element = if in_head {
            self.head[offset].as_mut().unwrap()
        } else {
            self.tail[offset].as_mut().unwrap()
        };
        proof {
            let before = old(self).window();
            before.lemma_replaced(0, *final(element));
            before.replaced(0, *final(element)).lemma_narrowed(before.start + 1, before.end);
        }
        Some(element)
    }

    /// Hands out the next element from the back. Whatever the caller
    /// leaves there stays behind the cursor.
    pub fn next_back(&mut self) -> (element: Option<&mut A>)
        requires
            old(self).wf(),
        ensures
            final(self).wf(),
            old(self)@.len() == 0 ==> element is None && final(self).window() == old(self).window(),
            old(self)@.len() > 0 ==> element is Some && *element->0 == old(self)@.last()
                && final(self)@ == old(self)@.drop_last() && final(self).window() == old(
                self,
            ).window().replaced(old(self)@.len() - 1, *final(element->0)).narrowed(
                old(self).window().start,
                old(self).window().end - 1,
            ),
            final(final(self).head)@ == final(old(self).head)@,
            final(final(self).tail)@ == final(old(self).tail)@,
    {
        if self.remaining == 0 {
            return None;
        }
        self.right_index = self.right_index - 1;
        self.remaining = self.remaining - 1;
        let slot = wrap(self.right_index, N);
        assert(slot == old(self).window().position(old(self).window().len() - 1));
        let (in_head, offset) = locate(
            self.head.len(),
            self.head_base,
            self.tail.len(),
            self.tail_base,
            slot,
        );
        let element = if in_head {
            self.head[offset].as_mut().unwrap()
        } else {
            self.tail[offset].as_mut().unwrap()
        };
        proof {
            let before = old(self).window();
            before.lemma_replaced(before.len() - 1, *final(element));
            before.replaced(before.len() - 1, *final(element)).lemma_narrowed(
                before.start,
                before.end - 1,
            );
        }
        Some(element)
    }
}

/// What a cursor over `elements` hands out when it is consumed from the
/// front: the first element, then what the rest hands out.
pub open spec fn front_to_back<A>(elements: Seq<A>) -> Seq<A>
    decreases elements.len(),
{
    if elements.len() == 0 {
        Seq::empty()
    } else {
        seq![elements.first()] + front_to_back(elements.drop_first())
    }
}

/// What a cursor over `elements` hands out when it is consumed from the
/// back: the last element, then what the rest hands out.
pub open spec fn back_to_front<A>(elements: Seq<A>) -> Seq<A>
    decreases elements.len(),
{
    if elements.len() == 0 {
        Seq::empty()
    } else {
        seq![elements.last()] + back_to_front(elements.drop_last())
    }
}

/// Consumed from the front a cursor hands out its elements in order, and
/// consumed from the back it hands out the same elements in reverse.
pub proof fn lemma_iteration_symmetry<A>(elements: Seq<A>)
    ensures
        front_to_back(elements) == elements,
        back_to_front(elements) == elements.reverse(),
        back_to_front(elements) == front_to_back(elements).reverse(),
    decreases elements.len(),
{
    if elements.len() > 0 {
        lemma_iteration_symmetry(elements.drop_first());
        lemma_iteration_symmetry(elements.drop_last());
        assert(seq![elements.first()] + elements.drop_first() =~= elements);
        assert(seq![elements.last()] + elements.drop_last().reverse() =~= elements.reverse());
    } else {
        assert(elements.reverse() =~= Seq::<A>::empty());
        assert(elements =~= Seq::<A>::empty());
    }
}

} // verus!
