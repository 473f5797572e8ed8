use ring_buffer::{Bound, RingBuffer, Slice, SliceMut};

fn straight() -> RingBuffer<u32, 4> {
    let mut buffer: RingBuffer<u32, 4> = RingBuffer::new();
    for value in [1, 2, 3] {
        assert!(buffer.push_back(value).is_ok());
    }
    buffer
}

fn wrapped() -> RingBuffer<u32, 4> {
    let mut buffer: RingBuffer<u32, 4> = RingBuffer::new();
    for value in [9, 9, 9, 1] {
        assert!(buffer.push_back(value).is_ok());
    }
    for _ in 0..3 {
        assert_eq!(buffer.pop_front(), Some(9));
    }
    for value in [2, 3] {
        assert!(buffer.push_back(value).is_ok());
    }
    buffer
}

#[test]
fn views_of_equal_elements_are_equal_whatever_the_layout() {
    let first = straight();
    let second = wrapped();
    let mut third = wrapped();
    assert_eq!(second.origin(), 3);
    let shared = Slice::from(&first);
    let other = Slice::from(&second);
    let exclusive = SliceMut::from(&mut third);
    let plain = [1u32, 2, 3];
    let vector = vec![1u32, 2, 3];

    assert!(shared.eq(&other));
    assert!(other.eq(&shared));
    assert!(shared.eq_slice_mut(&exclusive));
    assert!(shared.eq_buffer(&second));
    assert!(shared.eq_buffer(&first));
    assert!(shared.eq_elements(&plain));
    assert!(other.eq_elements(&vector));

    assert!(exclusive.eq_slice(&shared));
    assert!(exclusive.eq_slice(&other));
    assert!(exclusive.eq(&exclusive));
    assert!(exclusive.eq_buffer(&first));
    assert!(exclusive.eq_elements(&plain));
    assert!(exclusive.eq_elements(&vector));
}

#[test]
fn views_that_differ_in_an_element_are_not_equal() {
    let first = straight();
    let mut second = wrapped();
    assert_eq!(second.set(2, 4), 3);
    let shared = Slice::from(&first);
    assert!(!shared.eq(&Slice::from(&second)));
    assert!(!shared.eq_buffer(&second));
    assert!(!shared.eq_elements(&[1, 2, 4]));
    assert!(!shared.eq_elements(&[0, 2, 3]));
    let exclusive = SliceMut::from(&mut second);
    assert!(!shared.eq_slice_mut(&exclusive));
    assert!(!exclusive.eq_slice(&shared));
    assert!(!exclusive.eq_buffer(&first));
    assert!(!exclusive.eq_elements(&[1, 2, 3]));
    assert!(exclusive.eq_elements(&[1, 2, 4]));
}

#[test]
fn views_of_different_lengths_are_not_equal() {
    let first = straight();
    let second = wrapped();
    let shared = Slice::from(&first);
    let shorter = Slice::from(&second).slice(Bound::Unbounded, Bound::Excluded(2));
    assert!(!shared.eq(&shorter));
    assert!(!shorter.eq(&shared));
    assert!(!shared.eq_elements(&[1, 2]));
    assert!(!shared.eq_elements(&[1, 2, 3, 4]));
    assert!(shorter.eq_elements(&[1, 2]));
    let empty: [u32; 0] = [];
    assert!(!shared.eq_elements(&empty));
    assert!(shorter.slice(Bound::Included(1), Bound::Excluded(1)).eq_elements(&empty));
}

#[test]
fn parts_are_compared_by_what_they_show() {
    let first = straight();
    let second = wrapped();
    let left = Slice::from(&first).slice(Bound::Included(1), Bound::Unbounded);
    let right = Slice::from(&second).split_at(1).1;
    assert!(left.eq(&right));
    assert!(left.eq_elements(&[2, 3]));
}
