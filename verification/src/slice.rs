//! Shared views: a window onto a contiguous logical range of a buffer.

use vstd::prelude::*;
use core::cmp::Ordering;
use vstd::std_specs::cmp::{OrdSpec, PartialEqSpec, PartialOrdSpec};
use crate::iter::Iter;
use crate::layout::physical;
use crate::order::{
    elements_eq, lemma_rest_from, lemma_rest_from_ends, lexicographic, partial_lexicographic,
    rest_from,
};
use crate::range::{range_fits, range_fits_in, resolve_lower, resolve_upper, Bound};
use crate::buffer::RingBuffer;
use crate::slice_mut::SliceMut;
use crate::search::{
    keyed_by, rank_at, rank_of, ranked_by, ranks_against, search, search_step, Rank,
};
use crate::window::{lemma_whole_window, locate, whole_window, Window};

verus! {

/// Where a clone of an element is the element, a sequence of clones is the
/// sequence cloned.
pub proof fn lemma_clones_are_equal<A: Clone>(source: Seq<A>, clones: Seq<A>)
    requires
        source.len() == clones.len(),
        forall|i: int| 0 <= i < source.len() ==> cloned(source[i], #[trigger] clones[i]),
        forall|x: A, y: A| #[trigger] cloned(x, y) ==> x == y,
    ensures
        clones == source,
{
    assert(clones =~= source);
}

/// A shared view of a contiguous logical range of a ring buffer.
pub struct Slice<'a, A, const N: usize> {
    pub(crate) head: &'a [Option<A>],
    pub(crate) head_base: usize,
    pub(crate) tail: &'a [Option<A>],
    pub(crate) tail_base: usize,
    pub(crate) origin: usize,
    pub(crate) start: usize,
    pub(crate) end: usize,
}

impl<'a, A, const N: usize> View for Slice<'a, A, N> {
    type V = Seq<A>;

    /// The elements of the view in logical order.
    open spec fn view(&self) -> Seq<A> {
        self.window().elements()
    }
}

impl<'a, A, const N: usize> Clone for Slice<'a, A, N> {
    fn clone(&self) -> (copy: Self)
        ensures
            copy == *self,
    {
        Slice {
            head: self.head,
            head_base: self.head_base,
            tail: self.tail,
            tail_base: self.tail_base,
            origin: self.origin,
            start: self.start,
            end: self.end,
        }
    }
}

impl<'a, A, const N: usize> Slice<'a, A, N> {
    /// What the view sees of the buffer's storage.
    pub closed spec fn window(&self) -> Window<A> {
        Window {
            head: self.head@,
            head_base: self.head_base as int,
            tail: self.tail@,
            tail_base: self.tail_base as int,
            origin: self.origin as int,
            start: self.start as int,
            end: self.end as int,
            capacity: N as int,
        }
    }

    /// The buffer index at which the view starts.
    pub open spec fn spec_start(&self) -> int {
        self.window().start
    }

    /// The buffer index before which the view ends.
    pub open spec fn spec_end(&self) -> int {
        self.window().end
    }

    /// The origin of the buffer that the view reads.
    pub open spec fn spec_origin(&self) -> int {
        self.window().origin
    }

    /// The view's invariant: its range lies within a buffer of capacity `N`,
    /// and every index of the range reaches an occupied slot.
    pub open spec fn wf(&self) -> bool {
        &&& self.window().wf()
        &&& self.window().capacity == N
    }

    /// A view of the range `start .. end` of the buffer that the two runs
    /// belong to.
    pub(crate) fn over(
        head: &'a [Option<A>],
        head_base: usize,
        tail: &'a [Option<A>],
        tail_base: usize,
        origin: usize,
        start: usize,
        end: usize,
    ) -> (slice: Self)
        requires
            (Window {
                head: head@,
                head_base: head_base as int,
                tail: tail@,
                tail_base: tail_base as int,
                origin: origin as int,
                start: start as int,
                end: end as int,
                capacity: N as int,
            }).wf(),
        ensures
            slice.wf(),
            slice.window() == (Window {
                head: head@,
                head_base: head_base as int,
                tail: tail@,
                tail_base: tail_base as int,
                origin: origin as int,
                start: start as int,
                end: end as int,
                capacity: N as int,
            }),
    {
        Slice { head, head_base, tail, tail_base, origin, start, end }
    }

    /// A view of all of `buffer`.
    pub fn from(buffer: &'a RingBuffer<A, N>) -> (slice: Self)
        requires
            buffer.wf(),
        ensures
            slice.wf(),
            slice@ == buffer@,
            slice.spec_start() == 0,
            slice.spec_end() == buffer@.len(),
            slice.spec_origin() == buffer.spec_origin(),
    {
        let slots = buffer.slots();
        let (tail, head) = slots.split_at(0);
        proof {
            lemma_whole_window(
                buffer.raw(),
                buffer.spec_origin() as int,
                buffer.spec_len() as int,
                N as int,
            );
            assert(head@ =~= buffer.raw());
            assert(tail@ =~= Seq::<Option<A>>::empty());
        }
        Slice {
            head,
            head_base: 0,
            tail,
            tail_base: 0,
            origin: buffer.origin(),
            start: 0,
            end: buffer.len(),
        }
    }

    /// The number of elements in the view.
    pub fn len(&self) -> (length: usize)
        requires
            self.wf(),
        ensures
            length == self@.len(),
            length == self.spec_end() - self.spec_start(),
    {
        self.end - self.start
    }

    /// Whether the view shows no element.
    pub fn is_empty(&self) -> (empty: bool)
        requires
            self.wf(),
        ensures
            empty == (self@.len() == 0),
    {
        self.len() == 0
    }

    /// The element at index `index` of the view, if there is one.
    pub fn get(&self, index: usize) -> (element: Option<&A>)
        requires
            self.wf(),
        ensures
            element == (if index < self@.len() {
                Some(&self@[index as int])
            } else {
                None
            }),
    {
        if index >= self.len() {
            None
        } else {
            Some(self.get_unchecked(index))
        }
    }

    /// The element at index `index` of the view, for a caller that knows the
    /// index to be in range.
    pub fn get_unchecked(&self, index: usize) -> (element: &A)
        requires
            self.wf(),
            index < self@.len(),
        ensures
            *element == self@[index as int],
    {
        let slot = physical(self.origin, self.start + index, N);
        assert(slot == self.window().position(index as int));
        let (in_head, offset) = locate(
            self.head.len(),
            self.head_base,
            self.tail.len(),
            self.tail_base,
            slot,
        );
        if in_head {
            self.head[offset].as_ref().unwrap()
        } else {
            self.tail[offset].as_ref().unwrap()
        }
    }

    /// The first element of the view, if there is one.
    pub fn first(&self) -> (element: Option<&A>)
        requires
            self.wf(),
        ensures
            element == (if self@.len() > 0 {
                Some(&self@.first())
            } else {
                None
            }),
    {
        self.get(0)
    }

    /// The last element of the view, if there is one.
    pub fn last(&self) -> (element: Option<&A>)
        requires
            self.wf(),
        ensures
            element == (if self@.len() > 0 {
                Some(&self@.last())
            } else {
                None
            }),
    {
        if self.is_empty() {
            None
        } else {
            self.get(self.len() - 1)
        }
    }

    /// A cursor over the elements of the view, in order.
    pub fn iter(&self) -> (cursor: Iter<'a, A, N>)
        requires
            self.wf(),
        ensures
            cursor.wf(),
            cursor@ == self@,
            cursor.spec_left_index() == self.spec_origin() + self.spec_start(),
            cursor.spec_right_index() == self.spec_origin() + self.spec_start() + self@.len(),
            cursor.spec_remaining() == self@.len(),
    {
        Iter::over(
            self.head,
            self.head_base,
            self.tail,
            self.tail_base,
            self.origin,
            self.start,
            self.end,
        )
    }

    /// Whether `slice` accepts the range from `lower` to `upper`.
    pub fn can_slice(&self, lower: Bound, upper: Bound) -> (fits: bool)
        requires
            self.wf(),
        ensures
            fits == range_fits(lower, upper, self.spec_start(), self.spec_end()),
    {
        range_fits_in(lower, upper, self.start, self.end)
    }

    /// Narrows the view to the range from `lower` to `upper`, both counted
    /// from the start of this view.
    pub fn slice(self, lower: Bound, upper: Bound) -> (narrow: Slice<'a, A, N>)
        requires
            self.wf(),
            range_fits(lower, upper, self.spec_start(), self.spec_end()),
        ensures
            narrow.wf(),
            narrow.spec_origin() == self.spec_origin(),
            narrow.spec_start() == resolve_lower(lower, self.spec_start()),
            narrow.spec_end() == resolve_upper(upper, self.spec_start(), self.spec_end()),
            narrow@ == self@.subrange(
                narrow.spec_start() - self.spec_start(),
                narrow.spec_end() - self.spec_start(),
            ),
            narrow@.len() == narrow.spec_end() - narrow.spec_start(),
    {
        let start = match lower {
            Bound::Unbounded => self.start,
            Bound::Included(index) => self.start + index,
            Bound::Excluded(_) => unreached(),
        };
        let end = match upper {
            Bound::Unbounded => self.end,
            Bound::Included(index) => self.start + index + 1,
            Bound::Excluded(index) => self.start + index,
        };
        proof {
            self.window().lemma_narrowed(start as int, end as int);
        }
        Slice {
            head: self.head,
            head_base: self.head_base,
            tail: self.tail,
            tail_base: self.tail_base,
            origin: self.origin,
            start,
            end,
        }
    }

    /// Splits the view in two before index `index`.
    pub fn split_at(self, index: usize) -> (halves: (Slice<'a, A, N>, Slice<'a, A, N>))
        requires
            self.wf(),
            index <= self@.len(),
        ensures
            halves.0.wf(),
            halves.1.wf(),
            halves.0.spec_origin() == self.spec_origin(),
            halves.1.spec_origin() == self.spec_origin(),
            halves.0.spec_start() == self.spec_start(),
            halves.0.spec_end() == self.spec_start() + index,
            halves.1.spec_start() == self.spec_start() + index,
            halves.1.spec_end() == self.spec_end(),
            halves.0@ == self@.take(index as int),
            halves.1@ == self@.skip(index as int),
            halves.0@.len() + halves.1@.len() == self@.len(),
    {
        let index = self.start + index;
        proof {
            self.window().lemma_narrowed(self.start as int, index as int);
            self.window().lemma_narrowed(index as int, self.end as int);
        }
        (
            Slice {
                head: self.head,
                head_base: self.head_base,
                tail: self.tail,
                tail_base: self.tail_base,
                origin: self.origin,
                start: self.start,
                end: index,
            },
            Slice {
                head: self.head,
                head_base: self.head_base,
                tail: self.tail,
                tail_base: self.tail_base,
                origin: self.origin,
                start: index,
                end: self.end,
            },
        )
    }

    /// A new buffer that holds a clone of every element of the view, in the
    /// view's order.
    pub fn to_owned(&self) -> (buffer: RingBuffer<A, N>) where A: Clone
        requires
            self.wf(),
        ensures
            buffer.wf(),
            buffer.spec_origin() == 0,
            buffer@.len() == self@.len(),
            forall|i: int| 0 <= i < self@.len() ==> cloned(self@[i], #[trigger] buffer@[i]),
    {
        let mut buffer: RingBuffer<A, N> = RingBuffer::new();
        let length = self.len();
        let mut index: usize = 0;
        while index < length
            invariant
                self.wf(),
                length == self@.len(),
                index <= length,
                buffer.wf(),
                buffer.spec_origin() == 0,
                buffer@.len() == index,
                forall|i: int| 0 <= i < index ==> cloned(self@[i], #[trigger] buffer@[i]),
            decreases length - index,
        {
            let element = self.get_unchecked(index).clone();
            let _ = buffer.push_back(element);
            index = index + 1;
        }
        buffer
    }

    /// Whether this view and `other` show equal elements in the same order,
    /// wherever in their buffers the elements lie.
    pub fn eq(&self, other: &Slice<'_, A, N>) -> (equal: bool) where A: PartialEq
        requires
            self.wf(),
            other.wf(),
        ensures
            A::obeys_eq_spec() ==> equal == elements_eq(self@, other@),
    {
        let length = self.len();
        if length != other.len() {
            return false;
        }
        let mut index: usize = 0;
        while index < length
            invariant
                self.wf(),
                other.wf(),
                length == self@.len(),
                length == other@.len(),
                index <= length,
                A::obeys_eq_spec() ==> forall|i: int|
                    0 <= i < index ==> (#[trigger] self@[i]).eq_spec(&other@[i]),
            decreases length - index,
        {
            if !(*self.get_unchecked(index) == *other.get_unchecked(index)) {
                return false;
            }
            index = index + 1;
        }
        true
    }

    /// Whether this view and the exclusive view `other` show equal elements
    /// in the same order.
    pub fn eq_slice_mut(&self, other: &SliceMut<'_, A, N>) -> (equal: bool) where A: PartialEq
        requires
            self.wf(),
            other.wf(),
        ensures
            A::obeys_eq_spec() ==> equal == elements_eq(self@, other@),
    {
        self.eq(&other.as_slice())
    }

    /// Whether this view shows the elements of `other`, in the same order.
    pub fn eq_buffer(&self, other: &RingBuffer<A, N>) -> (equal: bool) where A: PartialEq
        requires
            self.wf(),
            other.wf(),
        ensures
            A::obeys_eq_spec() ==> equal == elements_eq(self@, other@),
    {
        self.eq(&Slice::from(other))
    }

    /// Whether this view shows the elements of the contiguous sequence
    /// `other`, in the same order.
    pub fn eq_elements(&self, other: &[A]) -> (equal: bool) where A: PartialEq
        requires
            self.wf(),
        ensures
            A::obeys_eq_spec() ==> equal == elements_eq(self@, other@),
    {
        let length = self.len();
        if length != other.len() {
            return false;
        }
        let mut index: usize = 0;
        while index < length
            invariant
                self.wf(),
                length == self@.len(),
                length == other@.len(),
                index <= length,
                A::obeys_eq_spec() ==> forall|i: int|
                    0 <= i < index ==> (#[trigger] self@[i]).eq_spec(&other@[i]),
            decreases length - index,
        {
            if !(*self.get_unchecked(index) == other[index]) {
                return false;
            }
            index = index + 1;
        }
        true
    }

    /// How this view stands to `other` in lexicographic order.
    pub fn cmp(&self, other: &Slice<'_, A, N>) -> (ordering: Ordering) where A: Ord
        requires
            self.wf(),
            other.wf(),
        ensures
            A::obeys_cmp_spec() ==> ordering == lexicographic(self@, other@),
    {
        let length = self.len();
        let other_length = other.len();
        let mut index: usize = 0;
        proof {
            lemma_rest_from_ends(self@, index);
            lemma_rest_from_ends(other@, index);
        }
        while index < length && index < other_length
            invariant
                self.wf(),
                other.wf(),
                length == self@.len(),
                other_length == other@.len(),
                index <= length,
                index <= other_length,
                A::obeys_cmp_spec() ==> lexicographic(self@, other@) == lexicographic(
                    rest_from(self@, index),
                    rest_from(other@, index),
                ),
            decreases length - index,
        {
            let decided = self.get_unchecked(index).cmp(other.get_unchecked(index));
            proof {
                lemma_rest_from(self@, index);
                lemma_rest_from(other@, index);
            }
            match decided {
                Ordering::Equal => {},
                _ => {
                    return decided;
                },
            }
            index = index + 1;
        }
        proof {
            lemma_rest_from_ends(self@, index);
            lemma_rest_from_ends(other@, index);
        }
        if index < other_length {
            Ordering::Less
        } else if index < length {
            Ordering::Greater
        } else {
            Ordering::Equal
        }
    }

    /// How this view stands to `other` in lexicographic order, if the
    /// elements that decide it can be compared.
    pub fn partial_cmp(&self, other: &Slice<'_, A, N>) -> (ordering: Option<Ordering>) where
        A: PartialOrd,

        requires
            self.wf(),
            other.wf(),
        ensures
            A::obeys_partial_cmp_spec() ==> ordering == partial_lexicographic(self@, other@),
    {
        let length = self.len();
        let other_length = other.len();
        let mut index: usize = 0;
        proof {
            lemma_rest_from_ends(self@, index);
            lemma_rest_from_ends(other@, index);
        }
        while index < length && index < other_length
            invariant
                self.wf(),
                other.wf(),
                length == self@.len(),
                other_length == other@.len(),
                index <= length,
                index <= other_length,
                A::obeys_partial_cmp_spec() ==> partial_lexicographic(self@, other@)
                    == partial_lexicographic(rest_from(self@, index), rest_from(other@, index)),
            decreases length - index,
        {
            let decided = self.get_unchecked(index).partial_cmp(other.get_unchecked(index));
            proof {
                lemma_rest_from(self@, index);
                lemma_rest_from(other@, index);
            }
            match decided {
                Some(Ordering::Equal) => {},
                _ => {
                    return decided;
                },
            }
            index = index + 1;
        }
        proof {
            lemma_rest_from_ends(self@, index);
            lemma_rest_from_ends(other@, index);
        }
        if index < other_length {
            Some(Ordering::Less)
        } else if index < length {
            Some(Ordering::Greater)
        } else {
            Some(Ordering::Equal)
        }
    }

    /// Searches the view with the comparator `f`, which says how an element
    /// stands to what is searched for.
    ///
    /// Where the comparator gives each element one answer, the outcome is
    /// that of `search` on the ranks of those answers.
    pub fn binary_search_by<F>(&self, mut f: F) -> (outcome: Result<usize, usize>) where
        F: FnMut(&A) -> Ordering,

        requires
            self.wf(),
            forall|i: int| 0 <= i < self@.len() ==> call_requires(f, (&self@[i],)),
        ensures
            forall|ranks: Seq<Rank>| ranked_by(self@, f, ranks) ==> outcome == search(ranks),
    {
        let mut size = self.len();
        if size == 0 {
            return Err(0);
        }
        let mut base: usize = 0;
        let ghost comparator = f;
        while size > 1
            invariant
                self.wf(),
                f == comparator,
                forall|i: int| 0 <= i < self@.len() ==> call_requires(f, (&self@[i],)),
                1 <= size,
                base + size <= self@.len(),
                forall|ranks: Seq<Rank>|
                    ranked_by(self@, f, ranks) ==> search_step(ranks, base, size) == search(ranks),
            decreases size,
        {
            let half = size / 2;
            let mid = base + half;
            let ordering = f(self.get_unchecked(mid));
            let next = match ordering {
                Ordering::Greater => base,
                _ => mid,
            };
            let rest = size - half;
            proof {
                assert forall|ranks: Seq<Rank>| ranked_by(self@, f, ranks) implies search_step(
                    ranks,
                    next,
                    rest,
                ) == search(ranks) by {
                    assert(rank_at(ranks, mid) == rank_of(ordering));
                    assert(search_step(ranks, base, size) == search(ranks));
                }
            }
            base = next;
            size = rest;
        }
        let ordering = f(self.get_unchecked(base));
        let outcome = match ordering {
            Ordering::Equal => Ok(base),
            Ordering::Less => Err(base + 1),
            Ordering::Greater => Err(base),
        };
        proof {
            assert forall|ranks: Seq<Rank>| ranked_by(self@, f, ranks) implies outcome == search(
                ranks,
            ) by {
                assert(rank_at(ranks, base) == rank_of(ordering));
                assert(search_step(ranks, base, size) == search(ranks));
            }
        }
        outcome
    }

    /// Searches the view for `target`, by the elements' own order.
    pub fn binary_search(&self, target: &A) -> (outcome: Result<usize, usize>) where A: Ord
        requires
            self.wf(),
        ensures
            A::obeys_cmp_spec() ==> outcome == search(ranks_against(self@, *target)),
    {
        let comparator = |value: &A| -> (ordering: Ordering)
            ensures
                A::obeys_cmp_spec() ==> ordering == value.cmp_spec(target),
            { value.cmp(target) };
        let ghost witness = comparator;
        let outcome = self.binary_search_by(comparator);
        proof {
            if A::obeys_cmp_spec() {
                assert(ranked_by(self@, witness, ranks_against(self@, *target)));
            }
        }
        outcome
    }

    /// Searches the view for the key `b`, comparing the keys that `f`
    /// extracts from the elements.
    pub fn binary_search_by_key<K, F>(&self, b: &K, mut f: F) -> (outcome: Result<usize, usize>) where
        F: FnMut(&A) -> K,
        K: Ord,

        requires
            self.wf(),
            forall|i: int| 0 <= i < self@.len() ==> call_requires(f, (&self@[i],)),
        ensures
            forall|keys: Seq<K>|
                K::obeys_cmp_spec() && keyed_by(self@, f, keys) ==> outcome == search(
                    ranks_against(keys, *b),
                ),
    {
        let mut size = self.len();
        if size == 0 {
            return Err(0);
        }
        let mut base: usize = 0;
        let ghost extract = f;
        while size > 1
            invariant
                self.wf(),
                f == extract,
                forall|i: int| 0 <= i < self@.len() ==> call_requires(f, (&self@[i],)),
                1 <= size,
                base + size <= self@.len(),
                forall|keys: Seq<K>|
                    K::obeys_cmp_spec() && keyed_by(self@, f, keys) ==> search_step(
                        ranks_against(keys, *b),
                        base,
                        size,
                    ) == search(ranks_against(keys, *b)),
            decreases size,
        {
            let half = size / 2;
            let mid = base + half;
            let key = f(self.get_unchecked(mid));
            let ordering = key.cmp(b);
            let next = match ordering {
                Ordering::Greater => base,
                _ => mid,
            };
            let rest = size - half;
            proof {
                assert forall|keys: Seq<K>|
                    K::obeys_cmp_spec() && keyed_by(self@, f, keys) implies search_step(
                    ranks_against(keys, *b),
                    next,
                    rest,
                ) == search(ranks_against(keys, *b)) by {
                    let ranks = ranks_against(keys, *b);
                    assert(rank_at(ranks, mid) == rank_of(ordering));
                    assert(search_step(ranks, base, size) == search(ranks));
                }
            }
            base = next;
            size = rest;
        }
        let key = f(self.get_unchecked(base));
        let ordering = key.cmp(b);
        let outcome = match ordering {
            Ordering::Equal => Ok(base),
            Ordering::Less => Err(base + 1),
            Ordering::Greater => Err(base),
        };
        proof {
            assert forall|keys: Seq<K>| K::obeys_cmp_spec() && keyed_by(self@, f, keys) implies outcome
                == search(ranks_against(keys, *b)) by {
                let ranks = ranks_against(keys, *b);
                assert(rank_at(ranks, base) == rank_of(ordering));
                assert(search_step(ranks, base, size) == search(ranks));
            }
        }
        outcome
    }
}

} // verus!
