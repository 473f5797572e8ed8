//! Exclusive views: the slots of a contiguous logical range of a buffer,
//! borrowed for writing.

use vstd::prelude::*;
use core::cmp::Ordering;
use vstd::std_specs::cmp::{OrdSpec, PartialEqSpec, PartialOrdSpec};
use crate::layout::physical;
use crate::order::{elements_eq, lexicographic, partial_lexicographic};
use crate::buffer::RingBuffer;
use crate::iter::{Iter, IterMut};
use crate::search::{keyed_by, ranked_by, ranks_against, search, Rank};
use crate::range::{range_fits, range_fits_in, resolve_lower, resolve_upper, Bound};
use crate::slice::Slice;
use crate::window::{lemma_live_window, locate, restored, Window};

verus! {

/// An exclusive view of a contiguous logical range of a ring buffer.
///
/// The view borrows the slots of its range and no others: `head` is the run
/// of slots that starts at the slot of its first element, `tail` the run that
/// follows from slot 0 where the range wraps. Two views that were split from
/// one hold disjoint runs, so each has its slots to itself.
///
/// The fields are public so that contracts can speak of what the borrowed
/// runs hold once the view is gone. Code that writes to them directly has to
/// keep `wf`.
pub struct SliceMut<'a, A, const N: usize> {
    pub head: &'a mut [Option<A>],
    pub head_base: usize,
    pub tail: &'a mut [Option<A>],
    pub tail_base: usize,
    pub origin: usize,
    pub start: usize,
    pub end: usize,
}

impl<'a, A, const N: usize> View for SliceMut<'a, A, N> {
    type V = Seq<A>;

    /// The elements of the view in logical order.
    open spec fn view(&self) -> Seq<A> {
        self.window().elements()
    }
}

impl<'a, A, const N: usize> SliceMut<'a, A, N> {
    /// What the view holds of the buffer's storage.
    pub open spec fn window(&self) -> Window<A> {
        Window {
            head: self.head@,
            head_base: self.head_base as int,
            tail: self.tail@,
            tail_base: self.tail_base as int,
            origin: self.origin as int,
            start: self.start as int,
            end: self.end as int,
            capacity: N as int,
        }
    }

    /// The view's invariant: it holds exactly the slots of its range, and
    /// all of them are occupied.
    pub open spec fn wf(&self) -> bool {
        self.window().exact()
    }

    /// An exclusive view of all of `buffer`. When the view is gone the
    /// buffer holds, in the slots of its live window, what the view's two
    /// runs hold then.
    pub fn from(buffer: &'a mut RingBuffer<A, N>) -> (slice: Self)
        requires
            old(buffer).wf(),
        ensures
            slice.wf(),
            slice@ == old(buffer)@,
            slice.window() == old(buffer).lent(),
            final(buffer).spec_origin() == old(buffer).spec_origin(),
            final(buffer).spec_len() == old(buffer).spec_len(),
            final(buffer).raw() == restored(
                old(buffer).raw(),
                slice.window(),
                final(slice.head)@,
                final(slice.tail)@,
            ),
    {
        let origin = buffer.origin();
        let length = buffer.len();
        proof {
            lemma_live_window(
                buffer.raw(),
                buffer.spec_origin() as int,
                buffer.spec_len() as int,
                N as int,
            );
        }
        let run = if length <= N - origin {
            length
        } else {
            N - origin
        };
        let slots = buffer.slots_mut();
        let (low, high) = slots.split_at_mut(origin);
        let (head, _) = high.split_at_mut(run);
        let (tail, _) = low.split_at_mut(length - run);
        proof {
            assert(head@ =~= old(buffer).raw().subrange(origin as int, origin + run));
            assert(tail@ =~= old(buffer).raw().subrange(0, length - run));
        }
        SliceMut { head, head_base: origin, tail, tail_base: 0, origin, start: 0, end: length }
    }

    /// The number of elements in the view.
    pub fn len(&self) -> (length: usize)
        requires
            self.wf(),
        ensures
            length == self@.len(),
            length == self.end - self.start,
    {
        self.end - self.start
    }

    /// Whether the view shows no element.
    pub fn is_empty(&self) -> (empty: bool)
        requires
            self.wf(),
        ensures
            empty == (self@.len() == 0),
    {
        self.len() == 0
    }

    /// Gives up exclusive access: a shared view of the same range.
    pub fn unmut(self) -> (slice: Slice<'a, A, N>)
        requires
            self.wf(),
        ensures
            slice.wf(),
            slice@ == self@,
            slice.spec_origin() == self.origin,
            slice.spec_start() == self.start,
            slice.spec_end() == self.end,
            final(self.head)@ == old(self.head)@,
            final(self.tail)@ == old(self.tail)@,
    {
        proof {
            self.window().lemma_exact_wf();
        }
        Slice::over(
            self.head,
            self.head_base,
            self.tail,
            self.tail_base,
            self.origin,
            self.start,
            self.end,
        )
    }

    /// A shared view of the same range, for as long as this view is not
    /// written through.
    pub fn as_slice(&self) -> (slice: Slice<'_, A, N>)
        requires
            self.wf(),
        ensures
            slice.wf(),
            slice@ == self@,
            slice.spec_origin() == self.origin,
            slice.spec_start() == self.start,
            slice.spec_end() == self.end,
    {
        proof {
            self.window().lemma_exact_wf();
        }
        Slice::over(
            &*self.head,
            self.head_base,
            &*self.tail,
            self.tail_base,
            self.origin,
            self.start,
            self.end,
        )
    }

    /// The element at index `index` of the view, if there is one.
    pub fn get(&self, index: usize) -> (element: Option<&A>)
        requires
            self.wf(),
        ensures
            element == (if index < self@.len() {
                Some(&self@[index as int])
            } else {
                None
            }),
    {
        if index >= self.len() {
            None
        } else {
            Some(self.get_unchecked(index))
        }
    }

    /// The element at index `index` of the view, for a caller that knows the
    /// index to be in range.
    pub fn get_unchecked(&self, index: usize) -> (element: &A)
        requires
            self.wf(),
            index < self@.len(),
        ensures
            *element == self@[index as int],
    {
        proof {
            self.window().lemma_exact_wf();
        }
        let slot = physical(self.origin, self.start + index, N);
        assert(slot == self.window().position(index as int));
        let (in_head, offset) = locate(
            self.head.len(),
            self.head_base,
            self.tail.len(),
            self.tail_base,
            slot,
        );
        if in_head {
            self.head[offset].as_ref().unwrap()
        } else {
            self.tail[offset].as_ref().unwrap()
        }
    }

    /// The first element of the view, if there is one.
    pub fn first(&self) -> (element: Option<&A>)
        requires
            self.wf(),
        ensures
            element == (if self@.len() > 0 {
                Some(&self@.first())
            } else {
                None
            }),
    {
        self.get(0)
    }

    /// The last element of the view, if there is one.
    pub fn last(&self) -> (element: Option<&A>)
        requires
            self.wf(),
        ensures
            element == (if self@.len() > 0 {
                Some(&self@.last())
            } else {
                None
            }),
    {
        if self.is_empty() {
            None
        } else {
            self.get(self.len() - 1)
        }
    }

    /// Replaces the element at index `index` of the view and hands the
    /// previous one to the caller.
    pub fn set(&mut self, index: usize, value: A) -> (previous: A)
        requires
            old(self).wf(),
            index < old(self)@.len(),
        ensures
            final(self).wf(),
            previous == old(self)@[index as int],
            final(self)@ == old(self)@.update(index as int, value),
            final(self)@.len() == old(self)@.len(),
            final(self).origin == old(self).origin,
            final(self).start == old(self).start,
            final(self).end == old(self).end,
            final(self).window() == old(self).window().replaced(index as int, value),
            final(final(self).head)@ == final(old(self).head)@,
            final(final(self).tail)@ == final(old(self).tail)@,
    {
        proof {
            self.window().lemma_exact_wf();
            self.window().lemma_replaced(index as int, value);
        }
        let slot = physical(self.origin, self.start + index, N);
        assert(slot == self.window().position(index as int));
        let (in_head, offset) = locate(
            self.head.len(),
            self.head_base,
            self.tail.len(),
            self.tail_base,
            slot,
        );
        let mut cell = Some(value);
        if in_head {
            core::mem::swap(&mut self.head[offset], &mut cell);
        } else {
            core::mem::swap(&mut self.tail[offset], &mut cell);
        }
        cell.unwrap()
    }

    /// Exclusive access to the element at index `index` of the view, for a
    /// caller that knows the index to be in range. Whatever the caller leaves
    /// there is what the view then holds.
    pub fn get_unchecked_mut(&mut self, index: usize) -> (element: &mut A)
        requires
            old(self).wf(),
            index < old(self)@.len(),
        ensures
            *element == old(self)@[index as int],
            final(self).wf(),
            final(self)@ == old(self)@.update(index as int, *final(element)),
            final(self).window() == old(self).window().replaced(index as int, *final(element)),
            final(final(self).head)@ == final(old(self).head)@,
            final(final(self).tail)@ == final(old(self).tail)@,
    {
        proof {
            self.window().lemma_exact_wf();
        }
        let slot = physical(self.origin, self.start + index, N);
        assert(slot == self.window().position(index as int));
        let (in_head, offset) = locate(
            self.head.len(),
            self.head_base,
            self.tail.len(),
            self.tail_base,
            slot,
        );
        let element = if in_head {
            self.head[offset].as_mut().unwrap()
        } else {
            self.tail[offset].as_mut().unwrap()
        };
        proof {
            old(self).window().lemma_replaced(index as int, *final(element));
        }
        element
    }

    /// Exclusive access to the element at index `index` of the view, if
    /// there is one.
    pub fn get_mut(&mut self, index: usize) -> (element: Option<&mut A>)
        requires
            old(self).wf(),
        ensures
            final(self).wf(),
            index >= old(self)@.len() ==> element is None && final(self).window() == old(
                self,
            ).window(),
            index < old(self)@.len() ==> element is Some && *element->0 == old(self)@[index as int]
                && final(self)@ == old(self)@.update(index as int, *final(element->0))
                && final(self).window() == old(self).window().replaced(
                index as int,
                *final(element->0),
            ),
            final(final(self).head)@ == final(old(self).head)@,
            final(final(self).tail)@ == final(old(self).tail)@,
    {
        if index >= self.len() {
            None
        } else {
            Some(self.get_unchecked_mut(index))
        }
    }

    /// Exclusive access to the first element of the view, if there is one.
    pub fn first_mut(&mut self) -> (element: Option<&mut A>)
        requires
            old(self).wf(),
        ensures
            final(self).wf(),
            old(self)@.len() == 0 ==> element is None && final(self).window() == old(self).window(),
            old(self)@.len() > 0 ==> element is Some && *element->0 == old(self)@.first()
                && final(self)@ == old(self)@.update(0, *final(element->0)) && final(self).window()
                == old(self).window().replaced(0, *final(element->0)),
            final(final(self).head)@ == final(old(self).head)@,
            final(final(self).tail)@ == final(old(self).tail)@,
    {
        self.get_mut(0)
    }

    /// Exclusive access to the last element of the view, if there is one.
    pub fn last_mut(&mut self) -> (element: Option<&mut A>)
        requires
            old(self).wf(),
        ensures
            final(self).wf(),
            old(self)@.len() == 0 ==> element is None && final(self).window() == old(self).window(),
            old(self)@.len() > 0 ==> element is Some && *element->0 == old(self)@.last()
                && final(self)@ == old(self)@.update(old(self)@.len() - 1, *final(element->0))
                && final(self).window() == old(self).window().replaced(
                old(self)@.len() - 1,
                *final(element->0),
            ),
            final(final(self).head)@ == final(old(self).head)@,
            final(final(self).tail)@ == final(old(self).tail)@,
    {
        if self.is_empty() {
            None
        } else {
            self.get_mut(self.len() - 1)
        }
    }

    /// Splits the view in two before index `index`. The two halves hold
    /// disjoint runs of slots: what the first holds ends where what the
    /// second holds begins.
    pub fn split_at(self, index: usize) -> (halves: (SliceMut<'a, A, N>, SliceMut<'a, A, N>))
        requires
            self.wf(),
            index <= self@.len(),
        ensures
            halves.0.wf(),
            halves.1.wf(),
            halves.0.window() == self.window().split(index as int).0,
            halves.1.window() == self.window().split(index as int).1,
            halves.0.end == halves.1.start,
            halves.0@ == self@.take(index as int),
            halves.1@ == self@.skip(index as int),
            halves.0@.len() + halves.1@.len() == self@.len(),
            final(self.head)@ == final(halves.0.head)@ + final(halves.1.head)@,
            final(self.tail)@ == final(halves.0.tail)@ + final(halves.1.tail)@,
    {
        proof {
            self.window().lemma_exact_wf();
            self.window().lemma_split(index as int);
            self.window().split(index as int).0.lemma_exact_wf();
            self.window().split(index as int).1.lemma_exact_wf();
        }
        let run = self.head.len();
        let in_head = if index <= run {
            index
        } else {
            run
        };
        let in_tail = index - in_head;
        let (head_left, head_right) = self.head.split_at_mut(in_head);
        let (tail_left, tail_right) = self.tail.split_at_mut(in_tail);
        (
            SliceMut {
                head: head_left,
                head_base: self.head_base,
                tail: tail_left,
                tail_base: self.tail_base,
                origin: self.origin,
                start: self.start,
                end: self.start + index,
            },
            SliceMut {
                head: head_right,
                head_base: self.head_base + in_head,
                tail: tail_right,
                tail_base: self.tail_base + in_tail,
                origin: self.origin,
                start: self.start + index,
                end: self.end,
            },
        )
    }

    /// Whether `slice` accepts the range from `lower` to `upper`.
    pub fn can_slice(&self, lower: Bound, upper: Bound) -> (fits: bool)
        requires
            self.wf(),
        ensures
            fits == range_fits(lower, upper, self.start as int, self.end as int),
    {
        range_fits_in(lower, upper, self.start, self.end)
    }

    /// The view without its first `count` elements, whose slots are given up
    /// as they are.
    fn without_front(self, count: usize) -> (rest: SliceMut<'a, A, N>)
        requires
            self.wf(),
            count <= self@.len(),
        ensures
            rest.wf(),
            rest.window() == self.window().split(count as int).1,
            rest@ == self@.skip(count as int),
            final(self.head)@ == self.window().split(count as int).0.head + final(rest.head)@,
            final(self.tail)@ == self.window().split(count as int).0.tail + final(rest.tail)@,
    {
        let (_, rest) = self.split_at(count);
        rest
    }

    /// The first `count` elements of the view; the slots of the others are
    /// given up as they are.
    fn only_front(self, count: usize) -> (front: SliceMut<'a, A, N>)
        requires
            self.wf(),
            count <= self@.len(),
        ensures
            front.wf(),
            front.window() == self.window().split(count as int).0,
            front@ == self@.take(count as int),
            final(self.head)@ == final(front.head)@ + self.window().split(count as int).1.head,
            final(self.tail)@ == final(front.tail)@ + self.window().split(count as int).1.tail,
    {
        let (front, _) = self.split_at(count);
        front
    }

    /// Narrows the view to the range from `lower` to `upper`, both counted
    /// from the start of this view. The slots outside the range are given
    /// up as they are.
    #[verifier::rlimit(30)]
    pub fn slice(self, lower: Bound, upper: Bound) -> (narrow: SliceMut<'a, A, N>)
        requires
            self.wf(),
            range_fits(lower, upper, self.start as int, self.end as int),
        ensures
            narrow.wf(),
            narrow.origin == self.origin,
            narrow.start == resolve_lower(lower, self.start as int),
            narrow.end == resolve_upper(upper, self.start as int, self.end as int),
            narrow@ == self@.subrange(narrow.start - self.start, narrow.end - self.start),
            narrow@.len() == narrow.end - narrow.start,
            ({
                let first = narrow.start - self.start;
                let count = narrow.end - narrow.start;
                let before = self.window().split(first).0;
                let rest = self.window().split(first).1;
                let after = rest.split(count).1;
                &&& narrow.window() == rest.split(count).0
                &&& final(self.head)@ == before.head + (final(narrow.head)@ + after.head)
                &&& final(self.tail)@ == before.tail + (final(narrow.tail)@ + after.tail)
            }),
    {
        let length = self.len();
        let first = match lower {
            Bound::Unbounded => 0,
            Bound::Included(index) => index,
            Bound::Excluded(_) => unreached(),
        };
        let last = match upper {
            Bound::Unbounded => length,
            Bound::Included(index) => index + 1,
            Bound::Excluded(index) => index,
        };
        let ghost whole = self@;
        let rest = self.without_front(first);
        let ghost kept = rest@;
        let narrow = rest.only_front(last - first);
        proof {
            assert(kept.take(last - first) =~= whole.subrange(first as int, last as int));
        }
        narrow
    }

    /// A new buffer that holds a clone of every element of the view, in the
    /// view's order.
    pub fn to_owned(&self) -> (buffer: RingBuffer<A, N>) where A: Clone
        requires
            self.wf(),
        ensures
            buffer.wf(),
            buffer.spec_origin() == 0,
            buffer@.len() == self@.len(),
            forall|i: int| 0 <= i < self@.len() ==> cloned(self@[i], #[trigger] buffer@[i]),
    {
        self.as_slice().to_owned()
    }

    /// A cursor over the elements of the view, in order.
    pub fn iter(&self) -> (cursor: Iter<'_, A, N>)
        requires
            self.wf(),
        ensures
            cursor.wf(),
            cursor@ == self@,
            cursor.spec_left_index() == self.origin + self.start,
            cursor.spec_right_index() == self.origin + self.start + self@.len(),
            cursor.spec_remaining() == self@.len(),
    {
        self.as_slice().iter()
    }

    /// A cursor that hands out the elements of the view for writing, in
    /// order. When the cursor is gone the view holds what the cursor's runs
    /// hold then.
    pub fn iter_mut(&mut self) -> (cursor: IterMut<'_, A, N>)
        requires
            old(self).wf(),
        ensures
            cursor.wf(),
            cursor@ == old(self)@,
            cursor.window() == old(self).window(),
            cursor.left_index == old(self).origin + old(self).start,
            cursor.right_index == old(self).origin + old(self).end,
            cursor.remaining == old(self)@.len(),
            final(self).head@ == final(cursor.head)@,
            final(self).tail@ == final(cursor.tail)@,
            final(self).head_base == old(self).head_base,
            final(self).tail_base == old(self).tail_base,
            final(self).origin == old(self).origin,
            final(self).start == old(self).start,
            final(self).end == old(self).end,
            final(final(self).head)@ == final(old(self).head)@,
            final(final(self).tail)@ == final(old(self).tail)@,
    {
        proof {
            self.window().lemma_exact_wf();
        }
        IterMut {
            head: &mut *self.head,
            head_base: self.head_base,
            tail: &mut *self.tail,
            tail_base: self.tail_base,
            origin: self.origin,
            left_index: self.origin + self.start,
            right_index: self.origin + self.end,
            remaining: self.end - self.start,
        }
    }

    /// Whether this view and `other` show equal elements in the same order,
    /// wherever in their buffers the elements lie.
    pub fn eq(&self, other: &SliceMut<'_, A, N>) -> (equal: bool) where A: PartialEq
        requires
            self.wf(),
            other.wf(),
        ensures
            A::obeys_eq_spec() ==> equal == elements_eq(self@, other@),
    {
        self.as_slice().eq(&other.as_slice())
    }

    /// Whether this view and the shared view `other` show equal elements in
    /// the same order.
    pub fn eq_slice(&self, other: &Slice<'_, A, N>) -> (equal: bool) where A: PartialEq
        requires
            self.wf(),
            other.wf(),
        ensures
            A::obeys_eq_spec() ==> equal == elements_eq(self@, other@),
    {
        self.as_slice().eq(other)
    }

    /// Whether this view shows the elements of `other`, in the same order.
    pub fn eq_buffer(&self, other: &RingBuffer<A, N>) -> (equal: bool) where A: PartialEq
        requires
            self.wf(),
            other.wf(),
        ensures
            A::obeys_eq_spec() ==> equal == elements_eq(self@, other@),
    {
        self.as_slice().eq_buffer(other)
    }

    /// Whether this view shows the elements of the contiguous sequence
    /// `other`, in the same order.
    pub fn eq_elements(&self, other: &[A]) -> (equal: bool) where A: PartialEq
        requires
            self.wf(),
        ensures
            A::obeys_eq_spec() ==> equal == elements_eq(self@, other@),
    {
        self.as_slice().eq_elements(other)
    }

    /// How this view stands to `other` in lexicographic order.
    pub fn cmp(&self, other: &SliceMut<'_, A, N>) -> (ordering: Ordering) where A: Ord
        requires
            self.wf(),
            other.wf(),
        ensures
            A::obeys_cmp_spec() ==> ordering == lexicographic(self@, other@),
    {
        self.as_slice().cmp(&other.as_slice())
    }

    /// How this view stands to `other` in lexicographic order, if the
    /// elements that decide it can be compared.
    pub fn partial_cmp(&self, other: &SliceMut<'_, A, N>) -> (ordering: Option<Ordering>) where
        A: PartialOrd,

        requires
            self.wf(),
            other.wf(),
        ensures
            A::obeys_partial_cmp_spec() ==> ordering == partial_lexicographic(self@, other@),
    {
        self.as_slice().partial_cmp(&other.as_slice())
    }

    /// Searches the view for `target`, by the elements' own order.
    pub fn binary_search(&self, target: &A) -> (outcome: Result<usize, usize>) where A: Ord
        requires
            self.wf(),
        ensures
            A::obeys_cmp_spec() ==> outcome == search(ranks_against(self@, *target)),
    {
        self.as_slice().binary_search(target)
    }

    /// Searches the view with the comparator `f`, which says how an element
    /// stands to what is searched for.
    ///
    /// Where the comparator gives each element one answer, the outcome is
    /// that of `search` on the ranks of those answers.
    pub fn binary_search_by<F>(&self, f: F) -> (outcome: Result<usize, usize>) where
        F: FnMut(&A) -> Ordering,

        requires
            self.wf(),
            forall|i: int| 0 <= i < self@.len() ==> call_requires(f, (&self@[i],)),
        ensures
            forall|ranks: Seq<Rank>| ranked_by(self@, f, ranks) ==> outcome == search(ranks),
    {
        self.as_slice().binary_search_by(f)
    }

    /// Searches the view for the key `b`, comparing the keys that `f`
    /// extracts from the elements.
    pub fn binary_search_by_key<K, F>(&self, b: &K, f: F) -> (outcome: Result<usize, usize>) where
        F: FnMut(&A) -> K,
        K: Ord,

        requires
            self.wf(),
            forall|i: int| 0 <= i < self@.len() ==> call_requires(f, (&self@[i],)),
        ensures
            forall|keys: Seq<K>|
                K::obeys_cmp_spec() && keyed_by(self@, f, keys) ==> outcome == search(
                    ranks_against(keys, *b),
                ),
    {
        self.as_slice().binary_search_by_key(b, f)
    }
}

} // verus!
