use circular_buffer::{CircularBuffer, Error};
use std::collections::VecDeque;
use std::rc::Rc;

#[test]
fn new_buffer_is_empty() {
    for c in 1..6usize {
        let b: CircularBuffer<u32> = CircularBuffer::new(c);
        assert_eq!(b.len(), 0);
        assert!(b.is_empty());
        assert!(!b.full());
        assert_eq!(b.capacity(), c);
    }
}

#[test]
fn fill_to_capacity_then_write_fails() {
    for c in 1..6usize {
        let mut b = CircularBuffer::new(c);
        for i in 0..c {
            assert_eq!(b.write(i), Ok(()));
        }
        assert!(b.full());
        assert_eq!(b.write(100), Err((Error::FullBuffer, 100)));
        assert_eq!(b.len(), c);
    }
}

#[test]
fn reads_come_out_in_write_order() {
    let mut b = CircularBuffer::new(4);
    for e in ['a', 'b', 'c'] {
        assert_eq!(b.write(e), Ok(()));
    }
    assert_eq!(b.read(), Ok('a'));
    assert_eq!(b.read(), Ok('b'));
    assert_eq!(b.read(), Ok('c'));
    assert_eq!(b.read(), Err(Error::EmptyBuffer));
}

#[test]
fn read_from_empty_fails_and_keeps_length() {
    let mut b: CircularBuffer<i64> = CircularBuffer::new(3);
    assert_eq!(b.read(), Err(Error::EmptyBuffer));
    assert_eq!(b.len(), 0);
    assert_eq!(b.write(7), Ok(()));
    assert_eq!(b.read(), Ok(7));
    assert_eq!(b.read(), Err(Error::EmptyBuffer));
    assert_eq!(b.len(), 0);
}

#[test]
fn overwrite_on_full_evicts_oldest() {
    let mut b = CircularBuffer::new(3);
    for e in [1, 2, 3] {
        assert_eq!(b.write(e), Ok(()));
    }
    b.overwrite(4);
    assert_eq!(b.len(), 3);
    assert!(b.full());
    assert_eq!(b.read(), Ok(2));
    assert_eq!(b.read(), Ok(3));
    assert_eq!(b.read(), Ok(4));
    assert_eq!(b.read(), Err(Error::EmptyBuffer));
}

#[test]
fn overwrite_on_non_full_acts_as_write() {
    let mut a = CircularBuffer::new(3);
    let mut b = CircularBuffer::new(3);
    assert_eq!(a.write(1), Ok(()));
    assert_eq!(b.write(1), Ok(()));
    a.overwrite(2);
    assert_eq!(b.write(2), Ok(()));
    assert_eq!(a.len(), b.len());
    for _ in 0..3 {
        assert_eq!(a.read(), b.read());
    }
}

#[test]
fn clear_empties_the_buffer() {
    let mut b = CircularBuffer::new(3);
    b.clear();
    assert_eq!(b.len(), 0);
    for e in [1, 2, 3] {
        assert_eq!(b.write(e), Ok(()));
    }
    assert_eq!(b.read(), Ok(1));
    b.clear();
    assert_eq!(b.len(), 0);
    assert!(b.is_empty());
    assert_eq!(b.read(), Err(Error::EmptyBuffer));
    assert_eq!(b.write(9), Ok(()));
    assert_eq!(b.read(), Ok(9));
}

#[test]
fn interleaved_use_matches_a_reference_queue() {
    let c = 4usize;
    let mut b = CircularBuffer::new(c);
    let mut reference: VecDeque<u32> = VecDeque::new();
    let mut next = 0u32;
    let mut seed = 12345u32;
    for _ in 0..500 {
        seed = seed.wrapping_mul(1103515245).wrapping_add(12345);
        let want_write = (seed >> 16) % 2 == 0;
        if want_write && reference.len() < c {
            assert_eq!(b.write(next), Ok(()));
            reference.push_back(next);
            next += 1;
        } else if !reference.is_empty() {
            assert_eq!(b.read(), Ok(reference.pop_front().unwrap()));
        }
        assert_eq!(b.len(), reference.len());
        assert_eq!(b.is_empty(), reference.is_empty());
        assert_eq!(b.full(), reference.len() == c);
    }
    while let Some(e) = reference.pop_front() {
        assert_eq!(b.read(), Ok(e));
    }
    assert_eq!(b.read(), Err(Error::EmptyBuffer));
}

#[test]
fn zero_capacity_buffer_takes_nothing() {
    let mut b = CircularBuffer::new(0);
    assert_eq!(b.capacity(), 0);
    assert_eq!(b.len(), 0);
    assert!(b.is_empty());
    assert!(b.full());
    assert_eq!(b.write(1), Err((Error::FullBuffer, 1)));
    assert_eq!(b.read(), Err(Error::EmptyBuffer));
    b.overwrite(2);
    assert_eq!(b.len(), 0);
    assert_eq!(b.read(), Err(Error::EmptyBuffer));
    b.clear();
    assert_eq!(b.len(), 0);
}

#[test]
fn every_element_leaves_exactly_once() {
    let token = Rc::new(());
    let mut b = CircularBuffer::new(3);
    for _ in 0..3 {
        assert_eq!(b.write(Rc::clone(&token)).is_ok(), true);
    }
    assert_eq!(Rc::strong_count(&token), 4);
    let refused = b.write(Rc::clone(&token));
    assert_eq!(Rc::strong_count(&token), 5);
    drop(refused);
    assert_eq!(Rc::strong_count(&token), 4);
    b.overwrite(Rc::clone(&token));
    assert_eq!(Rc::strong_count(&token), 4);
    let out = b.read().unwrap();
    assert_eq!(Rc::strong_count(&token), 4);
    drop(out);
    assert_eq!(Rc::strong_count(&token), 3);
    b.clear();
    assert_eq!(Rc::strong_count(&token), 1);
    drop(b);
    assert_eq!(Rc::strong_count(&token), 1);
}

#[test]
fn dropping_a_buffer_drops_its_elements() {
    let token = Rc::new(());
    {
        let mut b = CircularBuffer::new(2);
        b.overwrite(Rc::clone(&token));
        b.overwrite(Rc::clone(&token));
        b.overwrite(Rc::clone(&token));
        assert_eq!(Rc::strong_count(&token), 3);
    }
    assert_eq!(Rc::strong_count(&token), 1);
}

#[test]
fn cursors_wrap_around_many_times() {
    let mut b = CircularBuffer::new(3);
    let mut expected = 0u64;
    let mut written = 0u64;
    for round in 0..50u64 {
        let k = round % 3 + 1;
        for _ in 0..k {
            assert_eq!(b.write(written), Ok(()));
            written += 1;
        }
        for _ in 0..k {
            assert_eq!(b.read(), Ok(expected));
            expected += 1;
        }
        assert!(b.is_empty());
    }
}

#[test]
fn capacity_one_alternates_full_and_empty() {
    let mut b = CircularBuffer::new(1);
    for i in 0..10 {
        assert!(b.is_empty());
        assert_eq!(b.write(i), Ok(()));
        assert!(b.full());
        assert!(!b.is_empty());
        assert_eq!(b.write(i), Err((Error::FullBuffer, i)));
        b.overwrite(i + 100);
        assert_eq!(b.len(), 1);
        assert_eq!(b.read(), Ok(i + 100));
    }
}

#[test]
fn overwrite_keeps_the_newest_elements() {
    let mut b = CircularBuffer::new(3);
    for e in 1..=10 {
        b.overwrite(e);
    }
    assert_eq!(b.read(), Ok(8));
    assert_eq!(b.read(), Ok(9));
    assert_eq!(b.read(), Ok(10));
    assert_eq!(b.read(), Err(Error::EmptyBuffer));
}

#[test]
fn write_to_full_buffer_hands_element_back() {
    let mut b = CircularBuffer::new(2);
    assert_eq!(b.write(String::from("first")), Ok(()));
    assert_eq!(b.write(String::from("second")), Ok(()));
    let original = String::from("third");
    let address = original.as_ptr();
    match b.write(original) {
        Err((Error::FullBuffer, back)) => {
            assert_eq!(back, "third");
            assert_eq!(back.as_ptr(), address);
        }
        other => panic!("expected the element back, got {:?}", other),
    }
    assert_eq!(b.len(), 2);
    assert_eq!(b.read(), Ok(String::from("first")));
    assert_eq!(b.read(), Ok(String::from("second")));
}
