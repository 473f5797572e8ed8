//! Binary search over a view: what the search returns for any sequence of
//! comparison results, and what that means when the sequence is sorted.

use vstd::prelude::*;
use core::cmp::Ordering;
use vstd::std_specs::cmp::OrdSpec;

verus! {

/// How an element stands to what is searched for.
pub enum Rank {
    /// The element comes before the target.
    Less,
    /// The element matches the target.
    Equal,
    /// The element comes after the target.
    Greater,
}

/// The rank that a comparator's answer stands for.
pub open spec fn rank_of(ordering: Ordering) -> Rank {
    match ordering {
        Ordering::Less => Rank::Less,
        Ordering::Equal => Rank::Equal,
        Ordering::Greater => Rank::Greater,
    }
}

/// Whether `ranks` holds, for each of `elements`, the rank of the one answer
/// that the comparator `f` gives for it.
pub open spec fn ranked_by<A, F: FnMut(&A) -> Ordering>(
    elements: Seq<A>,
    f: F,
    ranks: Seq<Rank>,
) -> bool {
    &&& ranks.len() == elements.len()
    &&& forall|i: int, ordering: Ordering|
        0 <= i < elements.len() && call_ensures(f, (&elements[i],), ordering) ==> ranks[i]
            == rank_of(ordering)
}

/// The rank of each of `elements` against `target`, by the elements' own
/// order.
pub open spec fn ranks_against<A: Ord>(elements: Seq<A>, target: A) -> Seq<Rank> {
    Seq::new(elements.len(), |i: int| rank_of(elements[i].cmp_spec(&target)))
}

/// Whether `keys` holds, for each of `elements`, the one key that `f`
/// extracts from it.
pub open spec fn keyed_by<A, K, F: FnMut(&A) -> K>(elements: Seq<A>, f: F, keys: Seq<K>) -> bool {
    &&& keys.len() == elements.len()
    &&& forall|i: int, key: K|
        0 <= i < elements.len() && call_ensures(f, (&elements[i],), key) ==> keys[i] == key
}

/// The ranks in their order: `Less`, then `Equal`, then `Greater`.
pub open spec fn level(rank: Rank) -> int {
    match rank {
        Rank::Less => 0,
        Rank::Equal => 1,
        Rank::Greater => 2,
    }
}

/// Whether the ranks never step down: all that come before the target, then
/// all that match it, then all that come after it.
pub open spec fn sorted(ranks: Seq<Rank>) -> bool {
    forall|i: int, j: int| 0 <= i <= j < ranks.len() ==> level(ranks[i]) <= level(ranks[j])
}

/// The search from the state `base`, `size`: while more than one candidate
/// is left, probe the middle one and keep the base unless the probe is not
/// `Greater`; then compare the one that is left.
pub open spec fn search_from(ranks: Seq<Rank>, base: int, size: int) -> Result<usize, usize>
    decreases size,
{
    if size <= 1 {
        match ranks[base] {
            Rank::Equal => Ok(base as usize),
            Rank::Less => Err((base + 1) as usize),
            Rank::Greater => Err(base as usize),
        }
    } else {
        let half = size / 2;
        let mid = base + half;
        let next = if ranks[mid] is Greater {
            base
        } else {
            mid
        };
        search_from(ranks, next, size - half)
    }
}

/// What the search returns for elements of these ranks: `Ok` with the index
/// of a match, or `Err` with the index at which the target would go.
pub open spec fn search(ranks: Seq<Rank>) -> Result<usize, usize> {
    if ranks.len() == 0 {
        Err(0)
    } else {
        search_from(ranks, 0, ranks.len() as int)
    }
}

/// `search_from` for a state held in machine integers.
pub open spec fn search_step(ranks: Seq<Rank>, base: usize, size: usize) -> Result<usize, usize> {
    search_from(ranks, base as int, size as int)
}

/// The rank at an index held in a machine integer.
pub open spec fn rank_at(ranks: Seq<Rank>, index: usize) -> Rank {
    ranks[index as int]
}

/// What `search_from` returns on sorted ranks, from a state in which all
/// that lies after the candidates is `Greater` and nothing up to the base
/// is, the base itself excepted while it is still 0.
proof fn lemma_search_from_sorted(ranks: Seq<Rank>, base: int, size: int)
    requires
        sorted(ranks),
        ranks.len() <= usize::MAX,
        0 <= base,
        1 <= size,
        base + size <= ranks.len(),
        forall|j: int| base + size <= j < ranks.len() ==> ranks[j] is Greater,
        base > 0 ==> !(ranks[base] is Greater),
    ensures
        match search_from(ranks, base, size) {
            Ok(found) => {
                &&& found < ranks.len()
                &&& ranks[found as int] is Equal
                &&& forall|j: int| found < j < ranks.len() ==> ranks[j] is Greater
            },
            Err(point) => {
                &&& point <= ranks.len()
                &&& forall|j: int| 0 <= j < point ==> ranks[j] is Less
                &&& forall|j: int| point <= j < ranks.len() ==> ranks[j] is Greater
            },
        },
    decreases size,
{
    if size <= 1 {
        assert forall|j: int| 0 <= j < base implies !(ranks[j] is Greater) by {
            assert(level(ranks[j]) <= level(ranks[base]));
        }
        assert forall|j: int| 0 <= j < base && ranks[base] is Less implies ranks[j] is Less by {
            assert(level(ranks[j]) <= level(ranks[base]));
        }
    } else {
        let half = size / 2;
        let mid = base + half;
        if ranks[mid] is Greater {
            assert forall|j: int| base + (size - half) <= j < ranks.len() implies ranks[j] is Greater by {
                assert(level(ranks[mid]) <= level(ranks[j]));
            }
            lemma_search_from_sorted(ranks, base, size - half);
        } else {
            lemma_search_from_sorted(ranks, mid, size - half);
        }
    }
}

/// On sorted ranks the search finds the last match if there is a match, and
/// otherwise the point that parts the elements before the target from those
/// after it.
pub proof fn lemma_search_sorted(ranks: Seq<Rank>)
    requires
        sorted(ranks),
        ranks.len() <= usize::MAX,
    ensures
        match search(ranks) {
            Ok(found) => {
                &&& found < ranks.len()
                &&& ranks[found as int] is Equal
                &&& forall|j: int| found < j < ranks.len() ==> ranks[j] is Greater
            },
            Err(point) => {
                &&& point <= ranks.len()
                &&& forall|j: int| 0 <= j < point ==> ranks[j] is Less
                &&& forall|j: int| point <= j < ranks.len() ==> ranks[j] is Greater
            },
        },
{
    if ranks.len() > 0 {
        lemma_search_from_sorted(ranks, 0, ranks.len() as int);
    }
}

} // verus!
