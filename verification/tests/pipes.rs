use panda_party::pile::{BulkConsumer, BulkProducer, Consumer, Producer, SequenceState};
use panda_party::sync::con;
use panda_party::sync::con::{ConsumeOperation, ConsumeOperations};
use panda_party::sync::pro;
use panda_party::sync::pro::{ProduceOperation, ProduceOperations};

/// Moves items from `p` to `c` by asking the consumer for slots and filling
/// them from the producer's exposed items, until one side ends.
fn pipe_bulk_produce<P, C>(p: &mut P, c: &mut C)
where
    P: BulkProducer<Repeated = u8>,
    C: BulkConsumer<Repeated = u8>,
{
    loop {
        match c.consumer_slots() {
            SequenceState::More(n) => match p.producer_slots() {
                SequenceState::More(items) => {
                    let k = if n < items.len() { n } else { items.len() };
                    c.did_consume(&items[..k]);
                    p.did_produce(k);
                }
                SequenceState::Final(_) => return,
            },
            SequenceState::Final(_) => return,
        }
    }
}

/// Moves items from `p` to `c` by taking the producer's exposed items and
/// writing as many as the consumer offers, until one side ends.
fn pipe_bulk_consume<P, C>(p: &mut P, c: &mut C)
where
    P: BulkProducer<Repeated = u8>,
    C: BulkConsumer<Repeated = u8>,
{
    loop {
        match p.producer_slots() {
            SequenceState::More(items) => match c.consumer_slots() {
                SequenceState::More(n) => {
                    let k = if n < items.len() { n } else { items.len() };
                    c.did_consume(&items[..k]);
                    p.did_produce(k);
                }
                SequenceState::Final(_) => return,
            },
            SequenceState::Final(_) => return,
        }
    }
}

/// Moves items one at a time.
fn pipe<P, C>(p: &mut P, c: &mut C)
where
    P: Producer<Repeated = u8>,
    C: Consumer<Repeated = u8>,
{
    loop {
        match p.produce() {
            SequenceState::More(x) => {
                if c.consume(x).is_some() {
                    return;
                }
            }
            SequenceState::Final(_) => return,
        }
    }
}

fn data(len: usize, seed: u8) -> Vec<u8> {
    (0..len).map(|i| (i as u8).wrapping_mul(31).wrapping_add(seed)).collect()
}

fn consume_schedules() -> Vec<Vec<ConsumeOperation>> {
    vec![
        vec![ConsumeOperation::Consume],
        vec![ConsumeOperation::ConsumerSlots(1)],
        vec![ConsumeOperation::ConsumerSlots(3), ConsumeOperation::Flush],
        vec![
            ConsumeOperation::Flush,
            ConsumeOperation::Flush,
            ConsumeOperation::Consume,
            ConsumeOperation::ConsumerSlots(7),
        ],
        vec![ConsumeOperation::ConsumerSlots(1000), ConsumeOperation::Consume],
    ]
}

fn produce_schedules() -> Vec<Vec<ProduceOperation>> {
    vec![
        vec![ProduceOperation::Produce],
        vec![ProduceOperation::ProducerSlots(1)],
        vec![ProduceOperation::ProducerSlots(3), ProduceOperation::Slurp],
        vec![
            ProduceOperation::Slurp,
            ProduceOperation::Slurp,
            ProduceOperation::Produce,
            ProduceOperation::ProducerSlots(7),
        ],
        vec![ProduceOperation::ProducerSlots(1000), ProduceOperation::Produce],
    ]
}

#[test]
fn cursor_into_cursor_copies_the_common_prefix() {
    for (a_len, b_len) in [(0, 0), (0, 5), (5, 0), (3, 7), (7, 3), (16, 16)] {
        let a = data(a_len, 1);
        let mut b = vec![0u8; b_len];
        let mut o = pro::cursor(&a[..]);
        let mut i = con::cursor(&mut b[..]);
        pipe_bulk_consume(&mut o, &mut i);
        let m = a_len.min(b_len);
        assert_eq!(&i.as_ref()[..m], &o.as_ref()[..m]);
    }
}

#[test]
fn scrambled_into_vec_receives_every_item_in_order() {
    for len in [0usize, 1, 2, 5, 31, 100, 300] {
        for ops in consume_schedules() {
            for cap in [1usize, 2, 3, 16, 2048] {
                let a = data(len, 7);
                let ops = ConsumeOperations::new(ops.clone()).unwrap();
                let mut o = pro::cursor(&a[..]);
                let mut i = con::scramble(con::into_vec(), ops, cap);
                pipe_bulk_produce(&mut o, &mut i);
                assert_eq!(i.flush(), None);
                let vector = i.into_inner().into_inner();
                assert_eq!(&vector[..], &o.as_ref()[..]);
            }
        }
    }
}

#[test]
fn nested_scramblers_into_cursor_keep_the_prefix() {
    for len in [0usize, 1, 4, 40, 200] {
        for ops_a in consume_schedules() {
            for ops_b in consume_schedules() {
                for (cap_a, cap_b) in [(1usize, 1usize), (2, 5), (16, 3)] {
                    let a = data(len, 3);
                    let mut b = vec![0u8; len + 3];
                    let mut o = pro::cursor(&a[..]);
                    let mut i = con::scramble(
                        con::scramble(
                            con::cursor(&mut b[..]),
                            ConsumeOperations::new(ops_b.clone()).unwrap(),
                            cap_b,
                        ),
                        ConsumeOperations::new(ops_a.clone()).unwrap(),
                        cap_a,
                    );
                    pipe_bulk_produce(&mut o, &mut i);
                    let _ = i.flush();
                    let inner = i.into_inner().into_inner();
                    let m = len.min(inner.as_ref().len());
                    assert_eq!(&inner.as_ref()[..m], &o.as_ref()[..m]);
                }
            }
        }
    }
}

#[test]
fn scrambled_producer_emits_every_item_in_order() {
    for len in [0usize, 1, 2, 5, 31, 100] {
        for ops in produce_schedules() {
            for cap in [1usize, 2, 3, 16, 2048] {
                let a = data(len, 11);
                let mut o = pro::scramble(
                    pro::cursor(&a[..]),
                    ProduceOperations::new(ops.clone()).unwrap(),
                    cap,
                );
                let mut i = con::into_vec();
                pipe_bulk_produce(&mut o, &mut i);
                assert_eq!(i.into_vec(), a);
            }
        }
    }
}

#[test]
fn scrambled_producer_item_by_item() {
    for ops in produce_schedules() {
        let a = data(50, 5);
        let mut o = pro::scramble(
            pro::cursor(&a[..]),
            ProduceOperations::new(ops.clone()).unwrap(),
            4,
        );
        let mut i = con::into_vec();
        pipe(&mut o, &mut i);
        assert_eq!(i.into_vec(), a);
    }
}

#[test]
fn scrambled_producer_slurp_buffers_then_ends() {
    let a = data(3, 0);
    let mut o = pro::scramble(
        pro::cursor(&a[..]),
        ProduceOperations::new(vec![ProduceOperation::Produce]).unwrap(),
        8,
    );
    // the buffer has room for everything: the inner producer ends while slurping
    assert_eq!(o.slurp(), None);
    assert!(matches!(o.produce(), SequenceState::More(x) if x == a[0]));
    // the inner producer has ended: slurping hands out nothing new
    assert_eq!(o.slurp(), None);
    assert!(matches!(o.produce(), SequenceState::More(x) if x == a[1]));
    assert!(matches!(o.produce(), SequenceState::More(x) if x == a[2]));
    assert_eq!(o.slurp(), Some(()));
}

#[test]
fn scrambled_consumer_item_by_item_keeps_items_when_full() {
    for ops in consume_schedules() {
        let a = data(50, 9);
        let mut o = pro::cursor(&a[..]);
        let mut i = con::scramble(con::into_vec(), ConsumeOperations::new(ops.clone()).unwrap(), 3);
        pipe(&mut o, &mut i);
        assert_eq!(i.flush(), None);
        assert_eq!(i.into_inner().into_vec(), a);
    }
}

#[test]
fn scrambled_consumer_close_hands_over_everything() {
    let a = data(10, 2);
    let mut o = pro::cursor(&a[..]);
    let mut i = con::scramble(
        con::into_vec(),
        ConsumeOperations::new(vec![ConsumeOperation::ConsumerSlots(2)]).unwrap(),
        4,
    );
    pipe_bulk_produce(&mut o, &mut i);
    assert_eq!(i.close(()), None);
    assert_eq!(i.into_inner().into_vec(), a);
}

#[test]
fn scrambled_consumer_reports_inner_stop() {
    let a = data(10, 4);
    let mut b = vec![0u8; 4];
    let mut o = pro::cursor(&a[..]);
    let mut i = con::scramble(
        con::cursor(&mut b[..]),
        ConsumeOperations::new(vec![ConsumeOperation::Consume]).unwrap(),
        2,
    );
    pipe_bulk_produce(&mut o, &mut i);
    // the cursor is full after four items; the scrambler holds two more
    assert_eq!(i.flush(), Some(()));
    assert_eq!(&b[..], &a[..4]);
}

#[test]
fn scrambler_flushing_a_cursor_passes_items_on() {
    let a = data(3, 1);
    let mut b = vec![0u8; 5];
    let mut o = pro::cursor(&a[..]);
    let mut i = con::scramble(
        con::cursor(&mut b[..]),
        ConsumeOperations::new(vec![ConsumeOperation::Flush, ConsumeOperation::Consume]).unwrap(),
        4,
    );
    pipe_bulk_produce(&mut o, &mut i);
    // flushing a cursor with room left changes nothing, so every item arrives
    assert_eq!(i.flush(), None);
    assert_eq!(&b[..3], &a[..]);
    assert_eq!(&b[3..], &[0, 0][..]);
}

#[test]
fn scrambler_flushing_a_full_cursor_stops() {
    let a = data(3, 1);
    let mut b = vec![0u8; 3];
    let mut o = pro::cursor(&a[..]);
    let mut i = con::scramble(
        con::cursor(&mut b[..]),
        ConsumeOperations::new(vec![ConsumeOperation::Flush, ConsumeOperation::Consume]).unwrap(),
        4,
    );
    pipe_bulk_produce(&mut o, &mut i);
    // every item fits, and the final flush finds the cursor full
    assert_eq!(i.flush(), Some(()));
    assert_eq!(b, a);
}

#[test]
fn scrambled_consumer_hands_over_with_single_slots() {
    let mut b = vec![0u8; 3];
    let mut i = con::scramble(
        con::cursor(&mut b[..]),
        ConsumeOperations::new(vec![ConsumeOperation::ConsumerSlots(1)]).unwrap(),
        4,
    );
    assert_eq!(i.consume(7), None);
    assert_eq!(i.consume(8), None);
    assert_eq!(i.as_ref().as_ref(), &[0, 0, 0][..]);
    assert_eq!(i.flush(), None);
    assert_eq!(i.as_ref().as_ref(), &[7, 8, 0][..]);
}

#[test]
fn scrambled_producer_slurp_keeps_buffered_items() {
    let a = data(1, 7);
    let inner = pro::scramble(
        pro::cursor(&a[..]),
        ProduceOperations::new(vec![ProduceOperation::Produce]).unwrap(),
        8,
    );
    let mut o = pro::scramble(
        inner,
        ProduceOperations::new(vec![ProduceOperation::ProducerSlots(1)]).unwrap(),
        1,
    );
    assert_eq!(o.slurp(), None);
    // the inner producer reports its end while an item is still buffered
    assert_eq!(o.slurp(), None);
    assert!(matches!(o.produce(), SequenceState::More(x) if x == a[0]));
    assert!(matches!(o.produce(), SequenceState::Final(())));
}

#[test]
fn consume_operations_are_checked() {
    assert!(ConsumeOperations::new(vec![]).is_none());
    assert!(ConsumeOperations::new(vec![ConsumeOperation::Flush]).is_none());
    assert!(ConsumeOperations::new(vec![ConsumeOperation::Flush, ConsumeOperation::Flush]).is_none());
    assert!(ConsumeOperations::new(vec![ConsumeOperation::Flush, ConsumeOperation::Consume]).is_some());
    assert!(ConsumeOperations::new(vec![ConsumeOperation::ConsumerSlots(4)]).is_some());
    assert!(ConsumeOperations::new(vec![ConsumeOperation::Consume; 256]).is_some());
    assert!(ConsumeOperations::new(vec![ConsumeOperation::Consume; 257]).is_none());
}

#[test]
fn produce_operations_are_checked() {
    assert!(ProduceOperations::new(vec![]).is_none());
    assert!(ProduceOperations::new(vec![ProduceOperation::Slurp]).is_none());
    assert!(ProduceOperations::new(vec![ProduceOperation::Slurp, ProduceOperation::Produce]).is_some());
    assert!(ProduceOperations::new(vec![ProduceOperation::ProducerSlots(1)]).is_some());
    assert!(ProduceOperations::new(vec![ProduceOperation::Produce; 256]).is_some());
    assert!(ProduceOperations::new(vec![ProduceOperation::Produce; 257]).is_none());
}

#[test]
fn nested_scramblers_slurp_before_ending() {
    let a = vec![1u8];
    let ops = || ProduceOperations::new(vec![ProduceOperation::Produce]).unwrap();
    let mut s = pro::scramble(pro::scramble(pro::cursor(&a[..]), ops(), 1), ops(), 1);
    assert_eq!(s.slurp(), None);
    // the item is still buffered, so the end is not reported yet
    assert_eq!(s.slurp(), None);
    assert!(matches!(s.produce(), SequenceState::More(1)));
    assert!(matches!(s.produce(), SequenceState::Final(())));
}
