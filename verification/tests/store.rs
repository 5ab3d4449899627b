use queueing_port::{BackingStore, Message, QueueError, QueueingPort};

#[test]
fn slot_i_starts_at_i_times_the_message_size() {
    let mut region = vec![0xEEu8; 12];
    {
        let store = BackingStore::shared(&mut region[..], 3, 4).unwrap();
        let mut port = QueueingPort::with_store(store);
        assert_eq!(port.enqueue(Message::new(&[1, 2, 3, 4], 4).unwrap()), Ok(()));
        assert_eq!(port.enqueue(Message::new(&[5, 6, 7, 8], 4).unwrap()), Ok(()));
    }
    assert_eq!(region, vec![1, 2, 3, 4, 5, 6, 7, 8, 0xEE, 0xEE, 0xEE, 0xEE]);
}

#[test]
fn dequeue_zeroes_the_slot_it_read() {
    let mut region = vec![0xEEu8; 12];
    {
        let store = BackingStore::shared(&mut region[..], 3, 4).unwrap();
        let mut port = QueueingPort::with_store(store);
        port.enqueue(Message::new(&[1, 2, 3, 4], 4).unwrap()).unwrap();
        port.enqueue(Message::new(&[5, 6, 7, 8], 4).unwrap()).unwrap();
        assert_eq!(port.dequeue().unwrap().as_bytes(), &[1, 2, 3, 4][..]);
    }
    assert_eq!(region, vec![0, 0, 0, 0, 5, 6, 7, 8, 0xEE, 0xEE, 0xEE, 0xEE]);
}

#[test]
fn the_write_cursor_wraps_to_slot_zero() {
    let mut region = vec![0u8; 6];
    {
        let store = BackingStore::shared(&mut region[..], 3, 2).unwrap();
        let mut port = QueueingPort::with_store(store);
        for i in 1..=3u8 {
            port.enqueue(Message::filled(i, 2)).unwrap();
        }
        assert_eq!(port.dequeue().unwrap().as_bytes(), &[1, 1][..]);
        port.enqueue(Message::filled(4, 2)).unwrap();
    }
    assert_eq!(region, vec![4, 4, 2, 2, 3, 3]);
}

#[test]
fn the_read_cursor_wraps_to_slot_zero() {
    let mut region = vec![0u8; 4];
    {
        let store = BackingStore::shared(&mut region[..], 2, 2).unwrap();
        let mut port = QueueingPort::with_store(store);
        port.enqueue(Message::filled(1, 2)).unwrap();
        port.enqueue(Message::filled(2, 2)).unwrap();
        port.dequeue().unwrap();
        port.dequeue().unwrap();
        port.enqueue(Message::filled(3, 2)).unwrap();
        port.enqueue(Message::filled(4, 2)).unwrap();
        assert_eq!(port.dequeue().unwrap().as_bytes(), &[3, 3][..]);
    }
    assert_eq!(region, vec![0, 0, 4, 4]);
}

#[test]
fn a_port_over_a_lent_region_starts_empty_whatever_the_bytes() {
    let mut region = vec![0x77u8; 8];
    let store = BackingStore::shared(&mut region[..], 2, 4).unwrap();
    let mut port = QueueingPort::with_store(store);
    assert_eq!(port.occupancy(), 0);
    assert_eq!(port.dequeue(), Err(QueueError::QueueEmpty));
}

#[test]
fn a_region_of_the_wrong_length_is_no_store() {
    let mut region = vec![0u8; 12];
    assert_eq!(
        BackingStore::shared(&mut region[..11], 3, 4).err(),
        Some(QueueError::BackingStoreUnavailable)
    );
    assert_eq!(
        BackingStore::shared(&mut region[..], 3, 5).err(),
        Some(QueueError::BackingStoreUnavailable)
    );
    assert_eq!(
        BackingStore::shared(&mut region[..], 4, 4).err(),
        Some(QueueError::BackingStoreUnavailable)
    );
    assert_eq!(
        BackingStore::shared(&mut region[..], 0, 4).err(),
        Some(QueueError::BackingStoreUnavailable)
    );
    assert_eq!(
        BackingStore::shared(&mut region[..], 12, 0).err(),
        Some(QueueError::BackingStoreUnavailable)
    );
    assert_eq!(
        BackingStore::shared(&mut region[..0], 0, 0).err(),
        Some(QueueError::BackingStoreUnavailable)
    );
    assert_eq!(
        BackingStore::shared(&mut region[..], usize::MAX, 2).err(),
        Some(QueueError::BackingStoreUnavailable)
    );
    assert!(BackingStore::shared(&mut region[..], 3, 4).is_ok());
    assert!(BackingStore::shared(&mut region[..], 12, 1).is_ok());
}

#[test]
fn a_local_store_is_zeroed() {
    let store = BackingStore::local(3, 4).unwrap();
    assert_eq!(store.capacity(), 3);
    assert_eq!(store.message_size(), 4);
    for slot in 0..3 {
        assert_eq!(store.read_slot(slot).as_bytes(), &[0u8; 4][..]);
    }
}

#[test]
fn no_local_store_without_slots_or_bytes() {
    assert_eq!(BackingStore::local(0, 4).err(), Some(QueueError::BackingStoreUnavailable));
    assert_eq!(BackingStore::local(4, 0).err(), Some(QueueError::BackingStoreUnavailable));
    assert_eq!(
        BackingStore::local(usize::MAX, usize::MAX).err(),
        Some(QueueError::BackingStoreUnavailable)
    );
    assert_eq!(
        BackingStore::local(usize::MAX / 2 + 1, 1).err(),
        Some(QueueError::BackingStoreUnavailable)
    );
}

#[test]
fn slots_are_written_read_and_cleared_one_by_one() {
    let mut store = BackingStore::local(3, 2).unwrap();
    store.write_slot(1, &Message::new(&[8, 9], 2).unwrap());
    store.write_slot(2, &Message::new(&[6, 7], 2).unwrap());
    assert_eq!(store.read_slot(0).as_bytes(), &[0, 0][..]);
    assert_eq!(store.read_slot(1).as_bytes(), &[8, 9][..]);
    assert_eq!(store.read_slot(2).as_bytes(), &[6, 7][..]);
    store.clear_slot(1);
    assert_eq!(store.read_slot(0).as_bytes(), &[0, 0][..]);
    assert_eq!(store.read_slot(1).as_bytes(), &[0, 0][..]);
    assert_eq!(store.read_slot(2).as_bytes(), &[6, 7][..]);
}
