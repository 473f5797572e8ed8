//! Equality and order of views: element by element, wherever in their
//! buffers the elements lie.

use vstd::prelude::*;
use core::cmp::Ordering;
use vstd::std_specs::cmp::{OrdSpec, PartialEqSpec, PartialOrdSpec};

verus! {

/// Whether two sequences have the same length and, index by index, elements
/// that their own `==` takes for equal.
pub open spec fn elements_eq<A: PartialEq>(left: Seq<A>, right: Seq<A>) -> bool {
    &&& left.len() == right.len()
    &&& forall|i: int| 0 <= i < left.len() ==> (#[trigger] left[i]).eq_spec(&right[i])
}

/// Where the elements' `==` is equality, two sequences are taken for equal
/// exactly when they are the same sequence.
pub proof fn lemma_elements_eq_structural<A: PartialEq>(left: Seq<A>, right: Seq<A>)
    requires
        forall|x: A, y: A| #[trigger] x.eq_spec(&y) <==> x == y,
    ensures
        elements_eq(left, right) <==> left == right,
{
    if elements_eq(left, right) {
        assert(left =~= right);
    }
}

/// How `left` stands to `right` in lexicographic order, by the elements' own
/// order: the first pair of elements that are not equal decides, and a
/// sequence that runs out first comes first.
pub open spec fn lexicographic<A: Ord>(left: Seq<A>, right: Seq<A>) -> Ordering
    decreases left.len(),
{
    if left.len() == 0 {
        if right.len() == 0 {
            Ordering::Equal
        } else {
            Ordering::Less
        }
    } else if right.len() == 0 {
        Ordering::Greater
    } else {
        match left.first().cmp_spec(&right.first()) {
            Ordering::Equal => lexicographic(left.drop_first(), right.drop_first()),
            decided => decided,
        }
    }
}

/// How `left` stands to `right` in lexicographic order where the elements'
/// order is partial: a pair of elements that cannot be compared leaves the
/// sequences without an order.
pub open spec fn partial_lexicographic<A: PartialOrd>(left: Seq<A>, right: Seq<A>) -> Option<
    Ordering,
>
    decreases left.len(),
{
    if left.len() == 0 {
        if right.len() == 0 {
            Some(Ordering::Equal)
        } else {
            Some(Ordering::Less)
        }
    } else if right.len() == 0 {
        Some(Ordering::Greater)
    } else {
        match left.first().partial_cmp_spec(&right.first()) {
            Some(Ordering::Equal) => partial_lexicographic(left.drop_first(), right.drop_first()),
            decided => decided,
        }
    }
}

/// What is left of a sequence from an index held in a machine integer.
pub open spec fn rest_from<A>(elements: Seq<A>, index: usize) -> Seq<A> {
    elements.skip(index as int)
}

/// What is left of a sequence from an index starts with the element there
/// and goes on with what is left from the next index.
pub proof fn lemma_rest_from<A>(elements: Seq<A>, index: usize)
    requires
        index < elements.len(),
    ensures
        rest_from(elements, index).len() == elements.len() - index,
        rest_from(elements, index).first() == elements[index as int],
        rest_from(elements, index).drop_first() == elements.skip(index + 1),
{
    assert(rest_from(elements, index).drop_first() =~= elements.skip(index + 1));
}

/// Nothing is left of a sequence from its length on, and all of it from 0.
pub proof fn lemma_rest_from_ends<A>(elements: Seq<A>, index: usize)
    requires
        index <= elements.len(),
    ensures
        rest_from(elements, index).len() == elements.len() - index,
        index == 0 ==> rest_from(elements, index) == elements,
{
    if index == 0 {
        assert(rest_from(elements, index) =~= elements);
    }
}

} // verus!
