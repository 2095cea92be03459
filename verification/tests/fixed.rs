use std::collections::VecDeque;

use panda_party::queues::fixed::Fixed;
use panda_party::queues::Queue;

/// A small deterministic pseudo-random source for operation sequences.
struct Lcg(u64);

impl Lcg {
    fn next(&mut self) -> u64 {
        self.0 = self.0.wrapping_mul(6364136223846793005).wrapping_add(1442695040888963407);
        self.0 >> 33
    }
}

fn run_enqueue_dequeue(seed: u64, steps: usize) {
    let cap = 32;
    let mut rng = Lcg(seed);
    let mut control: VecDeque<u8> = VecDeque::new();
    let mut test: Fixed<u8> = Fixed::new(cap);
    for _ in 0..steps {
        if rng.next() % 2 == 0 {
            let t = (rng.next() % 256) as u8;
            let control_result = if control.len() >= cap {
                Some(t)
            } else {
                control.push_back(t);
                None
            };
            assert_eq!(test.enqueue(t), control_result);
        } else {
            assert_eq!(test.dequeue(), control.pop_front());
        }
        assert_eq!(test.get_amount(), control.len());
    }
}

#[test]
fn fixed_behaves_like_bounded_vecdeque() {
    for seed in 0..20 {
        run_enqueue_dequeue(seed, 2000);
    }
}

fn run_bulk(seed: u64, steps: usize) {
    let cap = 32;
    let mut rng = Lcg(seed);
    let mut control: VecDeque<u8> = VecDeque::new();
    let mut test: Fixed<u8> = Fixed::new(cap);
    for _ in 0..steps {
        match rng.next() % 4 {
            0 => {
                let t = (rng.next() % 256) as u8;
                let control_result = if control.len() >= cap {
                    Some(t)
                } else {
                    control.push_back(t);
                    None
                };
                assert_eq!(test.enqueue(t), control_result);
            }
            1 => {
                assert_eq!(test.dequeue(), control.pop_front());
            }
            2 => {
                let len = 1 + (rng.next() % 40) as usize;
                let ts: Vec<u8> = (0..len).map(|_| (rng.next() % 256) as u8).collect();
                let test_result = test.bulk_enqueue(&ts);
                if control.len() < cap {
                    assert!(test_result >= 1);
                } else {
                    assert_eq!(test_result, 0);
                }
                for t in &ts[..test_result] {
                    control.push_back(*t);
                }
            }
            _ => {
                let n = 1 + (rng.next() % 40) as usize;
                let mut test_buffer = vec![0u8; n];
                let test_result = test.bulk_dequeue(&mut test_buffer);
                let mut control_buffer = vec![];
                for _ in 0..test_result {
                    control_buffer.push(control.pop_front().unwrap());
                }
                assert_eq!(&test_buffer[..test_result], &control_buffer[..]);
                assert!(test_buffer[test_result..].iter().all(|x| *x == 0));
            }
        }
        assert_eq!(test.get_amount(), control.len());
    }
}

#[test]
fn fixed_bulk_behaves_like_bounded_vecdeque() {
    for seed in 0..20 {
        run_bulk(seed, 2000);
    }
}

#[test]
fn new_queue_is_empty_with_its_capacity() {
    let mut q: Fixed<u32> = Fixed::new(3);
    assert_eq!(q.get_capacity(), 3);
    assert_eq!(q.get_amount(), 0);
    assert_eq!(q.dequeue(), None);
    assert!(q.dequeue_slots().is_none());
    assert_eq!(q.enqueue_slots(), Some(3));
}

#[test]
fn enqueue_rejects_when_full() {
    let mut q: Fixed<u32> = Fixed::new(2);
    assert_eq!(q.enqueue(1), None);
    assert_eq!(q.enqueue(2), None);
    assert_eq!(q.enqueue(3), Some(3));
    assert_eq!(q.enqueue_slots(), None);
    assert_eq!(q.get_amount(), 2);
    assert_eq!(q.get_capacity(), 2);
    assert_eq!(q.dequeue(), Some(1));
    assert_eq!(q.dequeue(), Some(2));
    assert_eq!(q.dequeue(), None);
}

#[test]
fn first_in_first_out() {
    let mut q: Fixed<char> = Fixed::new(4);
    for c in ['a', 'b', 'c'] {
        assert_eq!(q.enqueue(c), None);
    }
    assert_eq!(q.dequeue(), Some('a'));
    assert_eq!(q.enqueue('d'), None);
    assert_eq!(q.enqueue('e'), None);
    assert_eq!(q.dequeue(), Some('b'));
    assert_eq!(q.dequeue(), Some('c'));
    assert_eq!(q.dequeue(), Some('d'));
    assert_eq!(q.dequeue(), Some('e'));
    assert_eq!(q.dequeue(), None);
}

#[test]
fn runs_follow_the_ring() {
    let mut q: Fixed<u8> = Fixed::new(5);
    // head 0, three items: the free run goes to the end of the ring
    assert_eq!(q.bulk_enqueue(&[1, 2, 3]), 3);
    assert_eq!(q.enqueue_slots(), Some(2));
    assert_eq!(q.dequeue_slots().unwrap(), &[1, 2, 3][..]);
    // remove two: head 2, one item
    q.did_dequeue(2);
    assert_eq!(q.get_amount(), 1);
    assert_eq!(q.enqueue_slots(), Some(2));
    // fill up to the end of the ring: the items reach the end, the free run
    // now lies before the head
    q.did_enqueue(&[4, 5]);
    assert_eq!(q.enqueue_slots(), Some(2));
    assert_eq!(q.dequeue_slots().unwrap(), &[3, 4, 5][..]);
    // wrap around
    assert_eq!(q.bulk_enqueue(&[6, 7, 8]), 2);
    assert_eq!(q.enqueue_slots(), None);
    assert_eq!(q.dequeue_slots().unwrap(), &[3, 4, 5][..]);
    let mut out = [0u8; 10];
    assert_eq!(q.bulk_dequeue(&mut out), 3);
    assert_eq!(&out[..4], &[3, 4, 5, 0]);
    assert_eq!(q.dequeue_slots().unwrap(), &[6, 7][..]);
    assert_eq!(q.dequeue(), Some(6));
    assert_eq!(q.dequeue(), Some(7));
    assert_eq!(q.dequeue(), None);
}

#[test]
fn bulk_enqueue_of_empty_buffer_adds_nothing() {
    let mut q: Fixed<u8> = Fixed::new(2);
    assert_eq!(q.bulk_enqueue(&[]), 0);
    assert_eq!(q.get_amount(), 0);
    let mut out: [u8; 0] = [];
    assert_eq!(q.bulk_dequeue(&mut out), 0);
}

#[test]
fn bulk_dequeue_from_empty_queue_moves_nothing() {
    let mut q: Fixed<u8> = Fixed::new(2);
    let mut out = [9u8; 3];
    assert_eq!(q.bulk_dequeue(&mut out), 0);
    assert_eq!(out, [9, 9, 9]);
}

#[test]
fn bulk_dequeue_is_limited_by_buffer() {
    let mut q: Fixed<u8> = Fixed::new(8);
    assert_eq!(q.bulk_enqueue(&[1, 2, 3, 4, 5]), 5);
    let mut out = [0u8; 2];
    assert_eq!(q.bulk_dequeue(&mut out), 2);
    assert_eq!(out, [1, 2]);
    assert_eq!(q.get_amount(), 3);
    assert_eq!(q.dequeue(), Some(3));
}

#[test]
fn did_dequeue_beyond_readable_run_removes_oldest() {
    let mut q: Fixed<u8> = Fixed::new(3);
    assert_eq!(q.bulk_enqueue(&[1, 2, 3]), 3);
    q.did_dequeue(2);
    assert_eq!(q.bulk_enqueue(&[4, 5]), 2);
    // items 3, 4, 5 with 3 at the end of the ring: the readable run is [3]
    assert_eq!(q.dequeue_slots().unwrap(), &[3][..]);
    q.did_dequeue(2);
    assert_eq!(q.dequeue(), Some(5));
}

#[test]
fn capacity_one_queue() {
    let mut q: Fixed<i64> = Fixed::new(1);
    for i in 0..10 {
        assert_eq!(q.enqueue(i), None);
        assert_eq!(q.enqueue(i + 100), Some(i + 100));
        assert_eq!(q.dequeue(), Some(i));
    }
}

#[test]
fn bulk_operations_act_as_repeated_single_operations() {
    let mut bulk: Fixed<u16> = Fixed::new(6);
    let mut single: Fixed<u16> = Fixed::new(6);
    for round in 0..20u16 {
        let items: Vec<u16> = (0..4).map(|i| round * 10 + i).collect();
        let k = bulk.bulk_enqueue(&items);
        for t in &items[..k] {
            assert_eq!(single.enqueue(*t), None);
        }
        let mut out = [0u16; 3];
        let k = bulk.bulk_dequeue(&mut out);
        for t in &out[..k] {
            assert_eq!(single.dequeue(), Some(*t));
        }
        assert_eq!(bulk.get_amount(), single.get_amount());
    }
    while let Some(t) = single.dequeue() {
        assert_eq!(bulk.dequeue(), Some(t));
    }
    assert_eq!(bulk.dequeue(), None);
}

#[test]
fn taking_part_of_the_readable_run_leaves_the_rest_in_front() {
    let mut q: Fixed<u8> = Fixed::new(4);
    assert_eq!(q.bulk_enqueue(&[1, 2, 3, 4]), 4);
    q.did_dequeue(3);
    assert_eq!(q.bulk_enqueue(&[5, 6]), 2);
    assert_eq!(q.dequeue_slots().unwrap(), &[4][..]);
    q.did_dequeue(1);
    assert_eq!(q.dequeue_slots().unwrap(), &[5, 6][..]);
    q.did_dequeue(1);
    assert_eq!(q.dequeue_slots().unwrap(), &[6][..]);
}
