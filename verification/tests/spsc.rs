use queueing_port::{Message, QueueError, QueueingPort};
use spin::Mutex;

const SIZE: usize = 256;
const MSGS: usize = 10;

fn tag_of(i: usize) -> u8 {
    (i % 251) as u8
}

/// The writer's side: offers message `sent` until it is taken.
fn writer_step(port: &Mutex<QueueingPort<'_>>, sent: &mut usize) {
    let result = port.lock().enqueue(Message::filled(tag_of(*sent), SIZE));
    match result {
        Ok(()) => *sent += 1,
        Err(e) => assert_eq!(e, QueueError::QueueFull),
    }
}

/// The reader's side: asks for a message until one is there.
fn reader_step(port: &Mutex<QueueingPort<'_>>, seen: &mut Vec<u8>) {
    let result = port.lock().dequeue();
    match result {
        Ok(message) => {
            let bytes = message.as_bytes();
            assert_eq!(bytes.len(), SIZE);
            assert!(bytes.iter().all(|b| *b == bytes[0]));
            seen.push(bytes[0]);
        },
        Err(e) => assert_eq!(e, QueueError::QueueEmpty),
    }
}

/// Runs a writer of `n` messages against a reader, the next to move being
/// picked by `writer_moves`, and returns what the reader saw.
fn interleave(n: usize, mut writer_moves: impl FnMut(usize) -> bool) -> Vec<u8> {
    let port = Mutex::new(QueueingPort::new(MSGS, SIZE).unwrap());
    let mut sent = 0usize;
    let mut seen = Vec::new();
    let mut turn = 0usize;
    while seen.len() < n {
        if sent < n && writer_moves(turn) {
            writer_step(&port, &mut sent);
        } else {
            reader_step(&port, &mut seen);
        }
        assert_eq!(port.lock().occupancy(), sent - seen.len());
        turn += 1;
    }
    assert_eq!(sent, n);
    assert_eq!(port.lock().occupancy(), 0);
    seen
}

#[test]
fn writer_and_reader_in_lockstep() {
    let sent: Vec<u8> = (0..100).map(tag_of).collect();
    assert_eq!(interleave(100, |turn| turn % 2 == 0), sent);
}

#[test]
fn a_fast_writer_waits_on_the_full_port() {
    let sent: Vec<u8> = (0..300).map(tag_of).collect();
    assert_eq!(interleave(300, |turn| turn % 4 != 0), sent);
}

#[test]
fn a_fast_reader_waits_on_the_empty_port() {
    let sent: Vec<u8> = (0..300).map(tag_of).collect();
    assert_eq!(interleave(300, |turn| turn % 4 == 0), sent);
}

#[test]
fn writer_and_reader_in_bursts() {
    let sent: Vec<u8> = (0..500).map(tag_of).collect();
    assert_eq!(interleave(500, |turn| (turn / 17) % 2 == 0), sent);
}

#[test]
fn writer_and_reader_on_an_uneven_schedule() {
    let sent: Vec<u8> = (0..1000).map(tag_of).collect();
    let mut state = 0x2545_F491u32;
    let seen = interleave(1000, |_| {
        state = state.wrapping_mul(1_664_525).wrapping_add(1_013_904_223);
        (state >> 16) % 3 != 0
    });
    assert_eq!(seen, sent);
}
