use ring_buffer::range::range_fits_in;
use ring_buffer::{Bound, RingBuffer, Slice};

fn wrapped() -> RingBuffer<u32, 4> {
    let mut buffer: RingBuffer<u32, 4> = RingBuffer::new();
    for value in 1..=4 {
        assert!(buffer.push_back(value).is_ok());
    }
    assert_eq!(buffer.pop_front(), Some(1));
    assert_eq!(buffer.pop_front(), Some(2));
    assert!(buffer.push_back(5).is_ok());
    assert!(buffer.push_back(6).is_ok());
    buffer
}

fn contents<const N: usize>(slice: &Slice<'_, u32, N>) -> Vec<u32> {
    let mut out = Vec::new();
    for index in 0..slice.len() {
        out.push(*slice.get(index).unwrap());
    }
    out
}

#[test]
fn whole_view_shows_the_buffer() {
    let buffer = wrapped();
    let slice = Slice::from(&buffer);
    assert_eq!(slice.len(), 4);
    assert!(!slice.is_empty());
    assert_eq!(contents(&slice), vec![3, 4, 5, 6]);
    assert_eq!(slice.first(), Some(&3));
    assert_eq!(slice.last(), Some(&6));
    assert_eq!(slice.get(4), None);
    assert_eq!(*slice.get_unchecked(1), 4);
}

#[test]
fn view_of_an_empty_buffer() {
    let buffer: RingBuffer<u32, 3> = RingBuffer::new();
    let slice = Slice::from(&buffer);
    assert_eq!(slice.len(), 0);
    assert!(slice.is_empty());
    assert_eq!(slice.first(), None);
    assert_eq!(slice.last(), None);
    assert_eq!(slice.get(0), None);
}

#[test]
fn slice_resolves_every_kind_of_bound() {
    let buffer = wrapped();
    let whole = Slice::from(&buffer);
    assert_eq!(contents(&whole.clone().slice(Bound::Unbounded, Bound::Unbounded)), vec![3, 4, 5, 6]);
    assert_eq!(contents(&whole.clone().slice(Bound::Included(1), Bound::Unbounded)), vec![4, 5, 6]);
    assert_eq!(contents(&whole.clone().slice(Bound::Unbounded, Bound::Excluded(3))), vec![3, 4, 5]);
    assert_eq!(contents(&whole.clone().slice(Bound::Unbounded, Bound::Included(2))), vec![3, 4, 5]);
    assert_eq!(contents(&whole.clone().slice(Bound::Included(1), Bound::Excluded(3))), vec![4, 5]);
    assert_eq!(contents(&whole.clone().slice(Bound::Included(2), Bound::Included(3))), vec![5, 6]);
    assert_eq!(contents(&whole.clone().slice(Bound::Included(4), Bound::Excluded(4))), vec![]);
    assert_eq!(contents(&whole.slice(Bound::Included(2), Bound::Excluded(2))), vec![]);
}

#[test]
fn slice_has_the_length_of_its_range() {
    let buffer = wrapped();
    let whole = Slice::from(&buffer);
    for start in 0..=4usize {
        for end in start..=4usize {
            let narrow = whole.clone().slice(Bound::Included(start), Bound::Excluded(end));
            assert_eq!(narrow.len(), end - start);
            let all = [3u32, 4, 5, 6];
            assert_eq!(contents(&narrow), all[start..end].to_vec());
        }
    }
}

#[test]
fn slice_of_a_slice_counts_from_the_inner_start() {
    let buffer = wrapped();
    let inner = Slice::from(&buffer).slice(Bound::Included(1), Bound::Unbounded);
    assert_eq!(contents(&inner), vec![4, 5, 6]);
    let innermost = inner.slice(Bound::Included(1), Bound::Included(1));
    assert_eq!(contents(&innermost), vec![5]);
    assert_eq!(innermost.first(), Some(&5));
    assert_eq!(innermost.last(), Some(&5));
}

#[test]
fn can_slice_refuses_what_slice_does_not_take() {
    let buffer = wrapped();
    let whole = Slice::from(&buffer);
    let inner = whole.clone().slice(Bound::Included(1), Bound::Excluded(3));
    assert!(inner.can_slice(Bound::Unbounded, Bound::Unbounded));
    assert!(inner.can_slice(Bound::Included(0), Bound::Excluded(2)));
    assert!(inner.can_slice(Bound::Included(2), Bound::Excluded(2)));
    assert!(inner.can_slice(Bound::Included(1), Bound::Included(1)));
    assert!(inner.can_slice(Bound::Included(2), Bound::Included(1)));
    assert!(!inner.can_slice(Bound::Excluded(0), Bound::Unbounded));
    assert!(!inner.can_slice(Bound::Unbounded, Bound::Excluded(3)));
    assert!(!inner.can_slice(Bound::Unbounded, Bound::Included(2)));
    assert!(!inner.can_slice(Bound::Included(2), Bound::Excluded(1)));
    assert!(!inner.can_slice(Bound::Included(3), Bound::Unbounded));
    assert!(!inner.can_slice(Bound::Included(usize::MAX), Bound::Unbounded));
    assert!(!inner.can_slice(Bound::Unbounded, Bound::Included(usize::MAX)));
    assert!(!inner.can_slice(Bound::Included(1), Bound::Excluded(usize::MAX)));
}

#[test]
fn range_fits_in_decides_by_the_resolved_ends() {
    assert!(range_fits_in(Bound::Unbounded, Bound::Unbounded, 2, 2));
    assert!(range_fits_in(Bound::Included(3), Bound::Excluded(3), 2, 5));
    assert!(!range_fits_in(Bound::Included(4), Bound::Unbounded, 2, 5));
    assert!(!range_fits_in(Bound::Included(0), Bound::Included(3), 2, 5));
    assert!(range_fits_in(Bound::Included(0), Bound::Included(2), 2, 5));
    assert!(!range_fits_in(Bound::Excluded(0), Bound::Excluded(1), 2, 5));
}

#[test]
fn split_at_covers_the_view_for_every_index() {
    let buffer = wrapped();
    let whole = Slice::from(&buffer);
    let all = [3u32, 4, 5, 6];
    for index in 0..=4usize {
        let (left, right) = whole.clone().split_at(index);
        assert_eq!(left.len() + right.len(), whole.len());
        assert_eq!(left.len(), index);
        assert_eq!(contents(&left), all[..index].to_vec());
        assert_eq!(contents(&right), all[index..].to_vec());
    }
}

#[test]
fn split_at_of_a_part_splits_the_part() {
    let buffer = wrapped();
    let (_, right) = Slice::from(&buffer).split_at(1);
    let (middle, rest) = right.split_at(2);
    assert_eq!(contents(&middle), vec![4, 5]);
    assert_eq!(contents(&rest), vec![6]);
}

#[test]
fn to_owned_copies_the_view_in_order() {
    let buffer = wrapped();
    let part = Slice::from(&buffer).slice(Bound::Included(1), Bound::Unbounded);
    let owned = part.to_owned();
    assert_eq!(owned.len(), 3);
    assert_eq!(owned.origin(), 0);
    assert_eq!(owned.get(0), Some(&4));
    assert_eq!(owned.get(1), Some(&5));
    assert_eq!(owned.get(2), Some(&6));
    assert_eq!(owned.get(3), None);
    assert_eq!(contents(&Slice::from(&owned)), contents(&part));
    assert_eq!(buffer.len(), 4);
}

#[test]
fn to_owned_of_an_empty_view_is_empty() {
    let buffer = wrapped();
    let owned = Slice::from(&buffer).slice(Bound::Included(2), Bound::Excluded(2)).to_owned();
    assert!(owned.is_empty());
}

#[test]
fn clone_shows_the_same_elements() {
    let buffer = wrapped();
    let slice = Slice::from(&buffer).slice(Bound::Included(1), Bound::Excluded(3));
    let copy = slice.clone();
    assert_eq!(contents(&copy), contents(&slice));
    assert_eq!(copy.len(), 2);
}
