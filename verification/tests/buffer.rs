use ring_buffer::layout::{physical, wrap};
use ring_buffer::RingBuffer;
use std::cell::Cell;
use std::rc::Rc;

fn wrapped() -> RingBuffer<u32, 4> {
    let mut buffer: RingBuffer<u32, 4> = RingBuffer::new();
    for value in 1..=4 {
        assert!(buffer.push_back(value).is_ok());
    }
    assert_eq!(buffer.pop_front(), Some(1));
    assert_eq!(buffer.pop_front(), Some(2));
    assert!(buffer.push_back(5).is_ok());
    assert!(buffer.push_back(6).is_ok());
    buffer
}

struct Counted {
    drops: Rc<Cell<usize>>,
}

impl Drop for Counted {
    fn drop(&mut self) {
        self.drops.set(self.drops.get() + 1);
    }
}

#[test]
fn wrap_reduces_a_position() {
    assert_eq!(wrap(0, 4), 0);
    assert_eq!(wrap(3, 4), 3);
    assert_eq!(wrap(4, 4), 0);
    assert_eq!(wrap(7, 4), 3);
    assert_eq!(wrap(9, 1), 0);
}

#[test]
fn physical_adds_the_origin_and_wraps() {
    assert_eq!(physical(0, 0, 4), 0);
    assert_eq!(physical(2, 1, 4), 3);
    assert_eq!(physical(2, 2, 4), 0);
    assert_eq!(physical(3, 3, 4), 2);
    assert_eq!(physical(5, 6, 7), 4);
}

#[test]
fn physical_is_injective_on_every_small_buffer() {
    for capacity in 1..=8usize {
        for origin in 0..capacity {
            let mut seen = vec![false; capacity];
            for index in 0..capacity {
                let slot = physical(origin, index, capacity);
                assert!(slot < capacity);
                assert!(!seen[slot]);
                seen[slot] = true;
            }
        }
    }
}

#[test]
fn new_buffer_is_empty() {
    let buffer: RingBuffer<u32, 3> = RingBuffer::new();
    assert_eq!(buffer.len(), 0);
    assert!(buffer.is_empty());
    assert!(!buffer.is_full());
    assert_eq!(buffer.origin(), 0);
    assert_eq!(buffer.get(0), None);
}

#[test]
fn push_back_appends_until_full() {
    let mut buffer: RingBuffer<u32, 2> = RingBuffer::new();
    assert_eq!(buffer.push_back(1), Ok(()));
    assert_eq!(buffer.push_back(2), Ok(()));
    assert!(buffer.is_full());
    assert_eq!(buffer.push_back(3), Err(3));
    assert_eq!(buffer.len(), 2);
    assert_eq!(buffer.get(0), Some(&1));
    assert_eq!(buffer.get(1), Some(&2));
}

#[test]
fn push_front_prepends_and_moves_the_origin() {
    let mut buffer: RingBuffer<u32, 3> = RingBuffer::new();
    assert_eq!(buffer.push_front(2), Ok(()));
    assert_eq!(buffer.origin(), 2);
    assert_eq!(buffer.push_front(1), Ok(()));
    assert_eq!(buffer.origin(), 1);
    assert_eq!(buffer.push_back(3), Ok(()));
    assert_eq!(buffer.push_front(0), Err(0));
    assert_eq!(buffer.origin(), 1);
    assert_eq!(buffer.get(0), Some(&1));
    assert_eq!(buffer.get(1), Some(&2));
    assert_eq!(buffer.get(2), Some(&3));
    assert_eq!(buffer.get(3), None);
}

#[test]
fn pop_takes_from_either_end() {
    let mut buffer = wrapped();
    assert_eq!(buffer.origin(), 2);
    assert_eq!(buffer.pop_back(), Some(6));
    assert_eq!(buffer.pop_front(), Some(3));
    assert_eq!(buffer.origin(), 3);
    assert_eq!(buffer.len(), 2);
    assert_eq!(buffer.pop_front(), Some(4));
    assert_eq!(buffer.origin(), 0);
    assert_eq!(buffer.pop_front(), Some(5));
    assert_eq!(buffer.pop_front(), None);
    assert_eq!(buffer.pop_back(), None);
    assert!(buffer.is_empty());
}

#[test]
fn get_reads_across_the_wrap() {
    let buffer = wrapped();
    assert_eq!(buffer.len(), 4);
    assert_eq!(buffer.get(0), Some(&3));
    assert_eq!(buffer.get(1), Some(&4));
    assert_eq!(buffer.get(2), Some(&5));
    assert_eq!(buffer.get(3), Some(&6));
    assert_eq!(buffer.get(4), None);
    assert_eq!(*buffer.get_unchecked(2), 5);
}

#[test]
fn set_returns_the_previous_element() {
    let mut buffer = wrapped();
    let origin = buffer.origin();
    assert_eq!(buffer.set(2, 50), 5);
    assert_eq!(buffer.len(), 4);
    assert_eq!(buffer.origin(), origin);
    assert_eq!(buffer.get(1), Some(&4));
    assert_eq!(buffer.get(2), Some(&50));
    assert_eq!(buffer.get(3), Some(&6));
}

#[test]
fn get_mut_writes_in_place() {
    let mut buffer = wrapped();
    if let Some(element) = buffer.get_mut(3) {
        *element += 1;
    }
    assert!(buffer.get_mut(4).is_none());
    assert_eq!(buffer.get(3), Some(&7));
    assert_eq!(buffer.get(0), Some(&3));
}

#[test]
fn drop_destroys_each_live_element_once() {
    let drops = Rc::new(Cell::new(0));
    {
        let mut buffer: RingBuffer<Counted, 4> = RingBuffer::new();
        for _ in 0..3 {
            assert!(buffer.push_back(Counted { drops: drops.clone() }).is_ok());
        }
        assert!(buffer.push_front(Counted { drops: drops.clone() }).is_ok());
        drop(buffer.pop_front());
        drop(buffer.pop_back());
        assert_eq!(drops.get(), 2);
        assert_eq!(buffer.len(), 2);
    }
    assert_eq!(drops.get(), 4);
}

#[test]
fn drop_of_an_empty_buffer_destroys_nothing() {
    let drops = Rc::new(Cell::new(0));
    {
        let mut buffer: RingBuffer<Counted, 2> = RingBuffer::new();
        assert!(buffer.push_back(Counted { drops: drops.clone() }).is_ok());
        drop(buffer.pop_back());
        assert_eq!(drops.get(), 1);
    }
    assert_eq!(drops.get(), 1);
}

#[test]
fn set_drops_nothing_itself() {
    let drops = Rc::new(Cell::new(0));
    let mut buffer: RingBuffer<Counted, 2> = RingBuffer::new();
    assert!(buffer.push_back(Counted { drops: drops.clone() }).is_ok());
    let previous = buffer.set(0, Counted { drops: drops.clone() });
    assert_eq!(drops.get(), 0);
    drop(previous);
    assert_eq!(drops.get(), 1);
    drop(buffer);
    assert_eq!(drops.get(), 2);
}
