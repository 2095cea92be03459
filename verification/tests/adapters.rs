use panda_party::pile::{BulkConsumer, BulkProducer, Consumer, Producer, SequenceState};
use panda_party::sync::con;
use panda_party::sync::pro;

#[test]
fn producer_cursor_produces_then_ends() {
    let a = [1u8, 2, 3];
    let mut c = pro::cursor(&a[..]);
    assert!(matches!(c.produce(), SequenceState::More(1)));
    assert!(matches!(c.producer_slots(), SequenceState::More(s) if s == &[2, 3][..]));
    c.did_produce(2);
    assert!(matches!(c.produce(), SequenceState::Final(())));
    assert!(matches!(c.producer_slots(), SequenceState::Final(())));
    assert_eq!(c.slurp(), None);
    assert_eq!(c.into_inner(), &a[..]);
}

#[test]
fn consumer_cursor_fills_then_stops() {
    let mut b = [0u8; 3];
    {
        let mut c = con::cursor(&mut b[..]);
        assert_eq!(c.consume(7), None);
        assert!(matches!(c.consumer_slots(), SequenceState::More(2)));
        c.did_consume(&[8, 9]);
        assert!(matches!(c.consumer_slots(), SequenceState::Final(())));
        assert_eq!(c.consume(10), Some(()));
        assert_eq!(c.flush(), Some(()));
        assert_eq!(c.as_ref(), &[7, 8, 9][..]);
        c.as_mut()[0] = 1;
        assert_eq!(c.close(()), Some(()));
    }
    assert_eq!(b, [1, 8, 9]);
}

#[test]
fn consumer_cursor_flush_with_room_keeps_going() {
    let mut b = [0u8; 3];
    {
        let mut c = con::cursor(&mut b[..]);
        assert_eq!(c.consume(7), None);
        assert_eq!(c.flush(), None);
        assert_eq!(c.consume(8), None);
        assert_eq!(c.close(()), None);
    }
    assert_eq!(b, [7, 8, 0]);
}

#[test]
fn into_vec_collects_and_offers_spare_capacity() {
    let mut c = con::into_vec::<u8>();
    assert_eq!(c.consume(1), None);
    match c.consumer_slots() {
        SequenceState::More(n) => {
            assert!(n >= 1);
            assert!(n >= c.as_ref().capacity() - c.as_ref().len());
            let items: Vec<u8> = (0..n as u8).collect();
            c.did_consume(&items);
        }
        SequenceState::Final(()) => panic!("a vector always accepts more items"),
    }
    // a full vector grows before offering slots
    let len = c.as_ref().len();
    match c.consumer_slots() {
        SequenceState::More(n) => assert!(n >= 1 && c.as_ref().capacity() >= len + n),
        SequenceState::Final(()) => panic!("a vector always accepts more items"),
    }
    assert_eq!(c.flush(), None);
    assert_eq!(c.close(()), None);
    let v = c.into_vec();
    assert_eq!(v[0], 1);
    assert_eq!(v.len(), len);
}

#[test]
fn checked_producer_tracks_state() {
    let a = [4u8, 5, 6];
    let mut p = pro::inv(pro::cursor(&a[..]));
    assert!(matches!(p.producer_slots(), SequenceState::More(s) if s.len() == 3));
    p.did_produce(1);
    assert!(matches!(p.produce(), SequenceState::More(5)));
    assert!(matches!(p.producer_slots(), SequenceState::More(s) if s == &[6][..]));
    p.did_produce(1);
    assert!(matches!(p.produce(), SequenceState::Final(())));
    assert_eq!(p.as_ref().as_ref(), &a[..]);
}

#[test]
fn checked_consumer_tracks_state() {
    let mut c = con::inv(con::into_vec::<u8>());
    assert_eq!(c.consume(1), None);
    match c.consumer_slots() {
        SequenceState::More(n) => c.did_consume(&vec![2u8; n.min(2)]),
        SequenceState::Final(()) => unreachable!(),
    }
    assert_eq!(c.flush(), None);
    assert_eq!(c.close(()), None);
    let v = c.into_inner().into_vec();
    assert_eq!(v[0], 1);
    assert!(v.len() >= 2 && v[1] == 2);
}

#[test]
fn forwarding_adapters_are_transparent() {
    let a = [1u8, 2, 3, 4];
    let mut p = pro::wrap_noop::inv(pro::cursor(&a[..]));
    let mut c = con::wrap_noop::inv(con::into_vec::<u8>());
    loop {
        match p.producer_slots() {
            SequenceState::More(s) => {
                let k = s.len();
                match c.consumer_slots() {
                    SequenceState::More(n) => {
                        let k = k.min(n);
                        c.did_consume(&s[..k]);
                        p.did_produce(k);
                    }
                    SequenceState::Final(()) => break,
                }
            }
            SequenceState::Final(()) => break,
        }
    }
    assert_eq!(c.into_inner().into_vec(), a.to_vec());
}

#[test]
fn map_last_maps_only_the_last_item() {
    let a = [1u8, 2];
    let mut p = pro::map_last(pro::cursor(&a[..]), |_: ()| 42u32);
    assert!(matches!(p.produce(), SequenceState::More(1)));
    assert!(matches!(p.producer_slots(), SequenceState::More(s) if s == &[2][..]));
    p.did_produce(1);
    assert!(matches!(p.producer_slots(), SequenceState::Final(42)));
    let mut q = pro::map_last(pro::cursor(&a[..0]), |_: ()| "done");
    assert!(matches!(q.produce(), SequenceState::Final("done")));
}
