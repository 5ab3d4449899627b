use queueing_port::{Message, QueueError};

#[test]
fn a_message_copies_bytes_of_the_right_length() {
    let bytes = [7u8, 8, 9, 10];
    let message = Message::new(&bytes, 4).unwrap();
    assert_eq!(message.len(), 4);
    assert_eq!(message.as_bytes(), &bytes[..]);
}

#[test]
fn a_message_of_the_reference_size() {
    let bytes = [3u8; 256];
    let message = Message::new(&bytes, 256).unwrap();
    assert_eq!(message.len(), 256);
    assert_eq!(message, Message::filled(3, 256));
}

#[test]
fn bytes_of_the_wrong_length_make_no_message() {
    assert_eq!(Message::new(&[1, 2, 3], 4), Err(QueueError::InvalidMessageSize));
    assert_eq!(Message::new(&[1, 2, 3, 4, 5], 4), Err(QueueError::InvalidMessageSize));
    assert_eq!(Message::new(&[], 4), Err(QueueError::InvalidMessageSize));
    assert_eq!(Message::new(&[0u8; 255], 256), Err(QueueError::InvalidMessageSize));
    assert_eq!(Message::new(&[0u8; 257], 256), Err(QueueError::InvalidMessageSize));
    assert_eq!(Message::new(&[1], 0), Err(QueueError::InvalidMessageSize));
}

#[test]
fn a_message_does_not_follow_its_source() {
    let mut bytes = vec![1u8, 2, 3];
    let message = Message::new(&bytes, 3).unwrap();
    bytes[0] = 9;
    assert_eq!(message.as_bytes(), &[1, 2, 3][..]);
}

#[test]
fn filled_repeats_the_tag() {
    let message = Message::filled(0x5A, 6);
    assert_eq!(message.as_bytes(), &[0x5A; 6][..]);
    assert_eq!(Message::filled(1, 0).len(), 0);
}

#[test]
fn a_mapping_that_fails_leaves_no_store() {
    let failure = shared_memory::ShmemError::MapSizeZero;
    assert_eq!(QueueError::from(failure), QueueError::BackingStoreUnavailable);
    let failure = shared_memory::ShmemError::MapCreateFailed(12);
    assert_eq!(QueueError::from(failure), QueueError::BackingStoreUnavailable);
}
