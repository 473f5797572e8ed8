use ring_buffer::{Bound, RingBuffer, Slice, SliceMut};
use std::cell::Cell;
use std::rc::Rc;

fn wrapped() -> RingBuffer<u32, 4> {
    let mut buffer: RingBuffer<u32, 4> = RingBuffer::new();
    for value in 1..=4 {
        assert!(buffer.push_back(value).is_ok());
    }
    assert_eq!(buffer.pop_front(), Some(1));
    assert_eq!(buffer.pop_front(), Some(2));
    assert!(buffer.push_back(5).is_ok());
    assert!(buffer.push_back(6).is_ok());
    buffer
}

fn contents<const N: usize>(slice: &SliceMut<'_, u32, N>) -> Vec<u32> {
    let mut out = Vec::new();
    for index in 0..slice.len() {
        out.push(*slice.get(index).unwrap());
    }
    out
}

fn all<const N: usize>(buffer: &RingBuffer<u32, N>) -> Vec<u32> {
    let mut out = Vec::new();
    for index in 0..buffer.len() {
        out.push(*buffer.get(index).unwrap());
    }
    out
}

struct Counted {
    drops: Rc<Cell<usize>>,
}

impl Drop for Counted {
    fn drop(&mut self) {
        self.drops.set(self.drops.get() + 1);
    }
}

#[test]
fn exclusive_view_shows_the_buffer() {
    let mut buffer = wrapped();
    let slice = SliceMut::from(&mut buffer);
    assert_eq!(slice.len(), 4);
    assert!(!slice.is_empty());
    assert_eq!(contents(&slice), vec![3, 4, 5, 6]);
    assert_eq!(slice.first(), Some(&3));
    assert_eq!(slice.last(), Some(&6));
    assert_eq!(slice.get(4), None);
    assert_eq!(*slice.get_unchecked(3), 6);
}

#[test]
fn exclusive_view_of_an_empty_buffer() {
    let mut buffer: RingBuffer<u32, 3> = RingBuffer::new();
    let mut slice = SliceMut::from(&mut buffer);
    assert_eq!(slice.len(), 0);
    assert!(slice.is_empty());
    assert_eq!(slice.first(), None);
    assert_eq!(slice.last(), None);
    assert!(slice.first_mut().is_none());
    assert!(slice.last_mut().is_none());
    assert!(slice.get_mut(0).is_none());
}

#[test]
fn exclusive_view_of_a_buffer_that_does_not_wrap() {
    let mut buffer: RingBuffer<u32, 4> = RingBuffer::new();
    for value in [7, 8] {
        assert!(buffer.push_back(value).is_ok());
    }
    {
        let mut slice = SliceMut::from(&mut buffer);
        assert_eq!(contents(&slice), vec![7, 8]);
        assert_eq!(slice.set(1, 9), 8);
    }
    assert_eq!(all(&buffer), vec![7, 9]);
    assert!(buffer.push_back(10).is_ok());
    assert_eq!(all(&buffer), vec![7, 9, 10]);
}

#[test]
fn set_returns_the_previous_element_and_keeps_the_range() {
    let mut buffer = wrapped();
    let origin = buffer.origin();
    {
        let mut slice = SliceMut::from(&mut buffer);
        assert_eq!(slice.set(0, 30), 3);
        assert_eq!(slice.set(3, 60), 6);
        assert_eq!(slice.len(), 4);
        assert_eq!(contents(&slice), vec![30, 4, 5, 60]);
    }
    assert_eq!(buffer.len(), 4);
    assert_eq!(buffer.origin(), origin);
    assert_eq!(all(&buffer), vec![30, 4, 5, 60]);
}

#[test]
fn set_in_a_part_counts_from_the_part() {
    let mut buffer = wrapped();
    {
        let mut part = SliceMut::from(&mut buffer).slice(Bound::Included(1), Bound::Excluded(3));
        assert_eq!(part.len(), 2);
        assert_eq!(part.set(1, 50), 5);
        assert_eq!(contents(&part), vec![4, 50]);
    }
    assert_eq!(all(&buffer), vec![3, 4, 50, 6]);
}

#[test]
fn set_hands_over_the_old_element_without_dropping_it() {
    let drops = Rc::new(Cell::new(0));
    let mut buffer: RingBuffer<Counted, 2> = RingBuffer::new();
    assert!(buffer.push_back(Counted { drops: drops.clone() }).is_ok());
    {
        let mut slice = SliceMut::from(&mut buffer);
        let previous = slice.set(0, Counted { drops: drops.clone() });
        assert_eq!(drops.get(), 0);
        drop(previous);
        assert_eq!(drops.get(), 1);
    }
    assert_eq!(drops.get(), 1);
    drop(buffer);
    assert_eq!(drops.get(), 2);
}

#[test]
fn exclusive_get_mut_writes_in_place() {
    let mut buffer = wrapped();
    {
        let mut slice = SliceMut::from(&mut buffer);
        *slice.get_mut(2).unwrap() += 100;
        *slice.get_unchecked_mut(1) += 10;
        assert!(slice.get_mut(4).is_none());
        *slice.first_mut().unwrap() = 0;
        *slice.last_mut().unwrap() = 9;
        assert_eq!(contents(&slice), vec![0, 14, 105, 9]);
    }
    assert_eq!(all(&buffer), vec![0, 14, 105, 9]);
}

#[test]
fn split_at_gives_two_views_that_can_be_written_together() {
    let mut buffer = wrapped();
    {
        let slice = SliceMut::from(&mut buffer);
        let (mut left, mut right) = slice.split_at(1);
        assert_eq!(left.len(), 1);
        assert_eq!(right.len(), 3);
        let first = left.first_mut().unwrap();
        let last = right.last_mut().unwrap();
        std::mem::swap(first, last);
        assert_eq!(right.set(0, 40), 4);
        assert_eq!(contents(&left), vec![6]);
        assert_eq!(contents(&right), vec![40, 5, 3]);
    }
    assert_eq!(all(&buffer), vec![6, 40, 5, 3]);
}

#[test]
fn exclusive_split_at_covers_the_view_for_every_index() {
    let expected = [3u32, 4, 5, 6];
    for index in 0..=4usize {
        let mut buffer = wrapped();
        let slice = SliceMut::from(&mut buffer);
        let length = slice.len();
        let (left, right) = slice.split_at(index);
        assert_eq!(left.len() + right.len(), length);
        assert_eq!(left.end, right.start);
        assert_eq!(contents(&left), expected[..index].to_vec());
        assert_eq!(contents(&right), expected[index..].to_vec());
    }
}

#[test]
fn split_at_in_a_buffer_that_wraps_at_every_origin() {
    for shift in 0..5usize {
        let mut buffer: RingBuffer<u32, 5> = RingBuffer::new();
        for _ in 0..shift {
            assert!(buffer.push_back(0).is_ok());
            assert_eq!(buffer.pop_front(), Some(0));
        }
        for value in 1..=5 {
            assert!(buffer.push_back(value).is_ok());
        }
        assert_eq!(buffer.origin(), shift);
        for index in 0..=5usize {
            {
                let (mut left, mut right) = SliceMut::from(&mut buffer).split_at(index);
                let mut cursor = left.iter_mut();
                while let Some(element) = cursor.next() {
                    *element += 100;
                }
                let mut cursor = right.iter_mut();
                while let Some(element) = cursor.next_back() {
                    *element += 200;
                }
            }
            for position in 0..5usize {
                let base = position as u32 + 1;
                let expected = if position < index { base + 100 } else { base + 200 };
                assert_eq!(buffer.set(position, base), expected);
            }
        }
    }
}

#[test]
fn exclusive_slice_resolves_every_kind_of_bound() {
    let expected = [3u32, 4, 5, 6];
    let cases = [
        (Bound::Unbounded, Bound::Unbounded, 0usize, 4usize),
        (Bound::Included(1), Bound::Unbounded, 1, 4),
        (Bound::Unbounded, Bound::Excluded(3), 0, 3),
        (Bound::Unbounded, Bound::Included(2), 0, 3),
        (Bound::Included(1), Bound::Excluded(3), 1, 3),
        (Bound::Included(3), Bound::Included(3), 3, 4),
        (Bound::Included(4), Bound::Excluded(4), 4, 4),
    ];
    for (lower, upper, start, end) in cases {
        let mut buffer = wrapped();
        let slice = SliceMut::from(&mut buffer);
        assert!(slice.can_slice(lower, upper));
        let narrow = slice.slice(lower, upper);
        assert_eq!(narrow.len(), end - start);
        assert_eq!(contents(&narrow), expected[start..end].to_vec());
    }
}

#[test]
fn exclusive_can_slice_refuses_what_slice_does_not_take() {
    let mut buffer = wrapped();
    let slice = SliceMut::from(&mut buffer).slice(Bound::Included(1), Bound::Excluded(3));
    assert!(slice.can_slice(Bound::Included(2), Bound::Unbounded));
    assert!(!slice.can_slice(Bound::Excluded(0), Bound::Unbounded));
    assert!(!slice.can_slice(Bound::Unbounded, Bound::Excluded(3)));
    assert!(!slice.can_slice(Bound::Included(2), Bound::Excluded(1)));
    assert!(!slice.can_slice(Bound::Included(3), Bound::Included(3)));
}

#[test]
fn unmut_keeps_the_range() {
    let mut buffer = wrapped();
    let part = SliceMut::from(&mut buffer).slice(Bound::Included(1), Bound::Unbounded);
    let shared: Slice<'_, u32, 4> = part.unmut();
    assert_eq!(shared.len(), 3);
    assert_eq!(shared.get(0), Some(&4));
    assert_eq!(shared.get(1), Some(&5));
    assert_eq!(shared.get(2), Some(&6));
    let copy = shared.clone();
    let (left, right) = shared.split_at(2);
    assert_eq!(left.last(), Some(&5));
    assert_eq!(right.first(), Some(&6));
    assert_eq!(copy.slice(Bound::Included(2), Bound::Unbounded).first(), Some(&6));
}

#[test]
fn as_slice_reads_what_was_written() {
    let mut buffer = wrapped();
    let mut slice = SliceMut::from(&mut buffer);
    assert_eq!(slice.set(3, 66), 6);
    let shared = slice.as_slice();
    assert_eq!(shared.len(), 4);
    assert_eq!(shared.get(3), Some(&66));
    assert_eq!(shared.binary_search(&66), Ok(3));
    assert_eq!(shared.binary_search(&6), Err(3));
}

#[test]
fn exclusive_to_owned_copies_the_view_in_order() {
    let mut buffer = wrapped();
    let part = SliceMut::from(&mut buffer).slice(Bound::Unbounded, Bound::Excluded(3));
    let owned = part.to_owned();
    assert_eq!(owned.origin(), 0);
    assert_eq!(all(&owned), vec![3, 4, 5]);
    assert_eq!(contents(&part), all(&owned));
}
