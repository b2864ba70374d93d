use bitewire::conn::{ConnError, Connection, ReadEvent, ReadStep, Response, WriteEvent, WriteStep};
use bitewire::reassembly::HeaderShape;

/// One simple frame: two big-endian length bytes (counting themselves), then
/// the payload.
fn frame(payload: &[u8]) -> Vec<u8> {
    let total = payload.len() + 2;
    let mut bytes = vec![((total >> 8) & 0xFF) as u8, (total & 0xFF) as u8];
    bytes.extend_from_slice(payload);
    bytes
}

/// Hands one chunk to the connection and keeps calling, as the contract
/// asks, until no complete frame is left; panics on a protocol error.
fn deliver(conn: &mut Connection, chunk: Vec<u8>) -> Vec<Vec<u8>> {
    let mut messages = Vec::new();
    let mut next = chunk;
    loop {
        match conn.try_read_message(next) {
            Response::NeedMoreData => return messages,
            Response::Complete(payload) => {
                messages.push(payload);
                return messages;
            }
            Response::Pending(payload) => {
                messages.push(payload);
                next = Vec::new();
            }
            Response::Error(err) => panic!("protocol error: {:?}", err),
        }
    }
}

#[test]
fn round_trip_one_message() {
    let mut writer = Connection::new(0, HeaderShape::Simple);
    let framed = writer.try_write_message(b"hello".to_vec()).unwrap();
    assert_eq!(framed, frame(b"hello"));

    let mut reader = Connection::new(1, HeaderShape::Simple);
    let r = reader.try_read_message(framed);
    assert_eq!(r, Response::Complete(b"hello".to_vec()));
    assert!(!reader.closed);
}

#[test]
fn empty_payload_round_trips() {
    let mut writer = Connection::new(0, HeaderShape::Simple);
    let framed = writer.try_write_message(Vec::new()).unwrap();
    assert_eq!(framed, vec![0, 2]);

    let mut reader = Connection::new(1, HeaderShape::Simple);
    let r = reader.try_read_message(framed);
    // An empty message, never "no message".
    assert_eq!(r, Response::Complete(Vec::new()));
}

#[test]
fn two_frames_in_one_read() {
    let mut stream = frame(b"first");
    stream.extend_from_slice(&frame(b"second"));

    let mut reader = Connection::new(0, HeaderShape::Simple);
    let r = reader.try_read_message(stream);
    assert_eq!(r, Response::Pending(b"first".to_vec()));
    let r = reader.try_read_message(Vec::new());
    assert_eq!(r, Response::Complete(b"second".to_vec()));
}

#[test]
fn byte_by_byte_delivery() {
    let mut stream = frame(b"chop");
    stream.extend_from_slice(&frame(b""));
    stream.extend_from_slice(&frame(b"me up"));

    let mut reader = Connection::new(0, HeaderShape::Simple);
    let mut messages = Vec::new();
    for byte in stream {
        messages.extend(deliver(&mut reader, vec![byte]));
    }
    assert_eq!(
        messages,
        vec![b"chop".to_vec(), b"".to_vec(), b"me up".to_vec()]
    );
}

#[test]
fn frame_and_a_half_in_one_read() {
    let mut stream = frame(b"whole");
    let tail = frame(b"half");
    stream.extend_from_slice(&tail[..3]);

    let mut reader = Connection::new(0, HeaderShape::Simple);
    let r = reader.try_read_message(stream);
    assert_eq!(r, Response::Pending(b"whole".to_vec()));
    let r = reader.try_read_message(Vec::new());
    assert_eq!(r, Response::NeedMoreData);
    let r = reader.try_read_message(tail[3..].to_vec());
    assert_eq!(r, Response::Complete(b"half".to_vec()));
}

#[test]
fn largest_frame_round_trips() {
    let payload = vec![7u8; 65533];
    let mut writer = Connection::new(0, HeaderShape::Simple);
    let framed = writer.try_write_message(payload.clone()).unwrap();
    assert_eq!(framed.len(), 65535);
    assert_eq!(&framed[..2], &[0xFF, 0xFF]);

    let mut reader = Connection::new(1, HeaderShape::Simple);
    let r = reader.try_read_message(framed);
    assert_eq!(r, Response::Complete(payload));
}

#[test]
fn oversized_write_rejected_before_sending() {
    let mut writer = Connection::new(0, HeaderShape::Simple);
    let r = writer.try_write_message(vec![0u8; 65534]);
    assert_eq!(r, Err(ConnError::Oversize));
    // Nothing went out, so the connection is still usable.
    assert!(!writer.closed);
}

#[test]
fn oversized_backlog_rejected() {
    // A frame that declares the largest possible size but keeps growing past
    // the ceiling before completing.
    let mut reader = Connection::new(0, HeaderShape::Simple);
    let r = reader.try_read_message(vec![0xFF; 60000]);
    assert_eq!(r, Response::NeedMoreData);
    let r = reader.try_read_message(vec![0xFF; 10000]);
    assert_eq!(r, Response::Error(ConnError::Oversize));
    assert!(reader.closed);
    assert!(reader.buffer.is_empty());
}

#[test]
fn oversized_single_read_rejected() {
    let mut reader = Connection::new(0, HeaderShape::Simple);
    let r = reader.try_read_message(vec![0u8; 70000]);
    assert_eq!(r, Response::Error(ConnError::Oversize));
    assert!(reader.closed);
}

#[test]
fn malformed_length_rejected() {
    // The header declares one byte, less than the header itself.
    let mut reader = Connection::new(0, HeaderShape::Simple);
    let r = reader.try_read_message(vec![0, 1, 42]);
    assert_eq!(r, Response::Error(ConnError::Malformed));
    assert!(reader.closed);
    assert!(reader.buffer.is_empty());
}

#[test]
fn zero_byte_read_is_fatal() {
    let mut conn = Connection::new(0, HeaderShape::Simple);
    let step = conn.try_read(Vec::new(), ReadEvent::Closed);
    assert_eq!(step, ReadStep::Fail(ConnError::PeerClosed));
    assert!(conn.closed);
}

#[test]
fn read_drain_accumulates_until_would_block() {
    let mut conn = Connection::new(0, HeaderShape::Simple);
    let step = conn.try_read(Vec::new(), ReadEvent::Data(vec![1, 2]));
    let acc = match step {
        ReadStep::More(acc) => acc,
        other => panic!("unexpected step: {:?}", other),
    };
    let step = conn.try_read(acc, ReadEvent::Interrupted);
    let acc = match step {
        ReadStep::More(acc) => acc,
        other => panic!("unexpected step: {:?}", other),
    };
    let step = conn.try_read(acc, ReadEvent::Data(vec![3]));
    let acc = match step {
        ReadStep::More(acc) => acc,
        other => panic!("unexpected step: {:?}", other),
    };
    let step = conn.try_read(acc, ReadEvent::WouldBlock);
    assert_eq!(step, ReadStep::Done(vec![1, 2, 3]));
    assert!(!conn.closed);
}

#[test]
fn would_block_between_two_chunks_of_one_frame() {
    let framed = frame(b"whole");
    let (first, second) = framed.split_at(3);

    let mut conn = Connection::new(0, HeaderShape::Simple);

    // First read attempt: part of the frame, then "would block".
    let step = conn.try_read(Vec::new(), ReadEvent::Data(first.to_vec()));
    let acc = match step {
        ReadStep::More(acc) => acc,
        other => panic!("unexpected step: {:?}", other),
    };
    let step = conn.try_read(acc, ReadEvent::WouldBlock);
    assert_eq!(step, ReadStep::Done(first.to_vec()));
    let r = conn.try_read_message(first.to_vec());
    assert_eq!(r, Response::NeedMoreData);

    // Second attempt: the rest arrives and the frame comes out whole.
    let step = conn.try_read(Vec::new(), ReadEvent::Data(second.to_vec()));
    let acc = match step {
        ReadStep::More(acc) => acc,
        other => panic!("unexpected step: {:?}", other),
    };
    let step = conn.try_read(acc, ReadEvent::WouldBlock);
    assert_eq!(step, ReadStep::Done(second.to_vec()));
    let r = conn.try_read_message(second.to_vec());
    assert_eq!(r, Response::Complete(b"whole".to_vec()));
}

#[test]
fn scenario_stub_peer_echoes() {
    // Writing "s set Set!", "g set", "s set", "g set" to a stub peer that
    // answers "OK", the stored value, "OK", and an empty payload: the four
    // answers arrive in one read and decode frame by frame.
    let mut writer = Connection::new(0, HeaderShape::Simple);
    for request in [&b"s set Set!"[..], b"g set", b"s set", b"g set"] {
        let framed = writer.try_write_message(request.to_vec()).unwrap();
        assert_eq!(framed.len(), request.len() + 2);
    }

    let mut stream = frame(b"OK");
    stream.extend_from_slice(&frame(b"Set!"));
    stream.extend_from_slice(&frame(b"OK"));
    stream.extend_from_slice(&frame(b""));

    let mut reader = Connection::new(1, HeaderShape::Simple);
    let r = reader.try_read_message(stream);
    assert_eq!(r, Response::Pending(b"OK".to_vec()));
    let r = reader.try_read_message(Vec::new());
    assert_eq!(r, Response::Pending(b"Set!".to_vec()));
    let r = reader.try_read_message(Vec::new());
    assert_eq!(r, Response::Pending(b"OK".to_vec()));
    let r = reader.try_read_message(Vec::new());
    assert_eq!(r, Response::Complete(b"".to_vec()));
    assert!(!reader.closed);
}

#[test]
fn full_write_succeeds() {
    let mut conn = Connection::new(0, HeaderShape::Simple);
    let step = conn.try_write(5, WriteEvent::Wrote(5));
    assert_eq!(step, WriteStep::Done(5));
    assert!(!conn.closed);
}

#[test]
fn short_write_is_fatal() {
    let mut conn = Connection::new(0, HeaderShape::Simple);
    let step = conn.try_write(5, WriteEvent::Wrote(3));
    assert_eq!(step, WriteStep::Fail(ConnError::ShortWrite));
    assert!(conn.closed);
}

#[test]
fn write_would_block_keeps_connection_open() {
    let mut conn = Connection::new(0, HeaderShape::Simple);
    let step = conn.try_write(5, WriteEvent::WouldBlock);
    assert_eq!(step, WriteStep::NotReady);
    assert!(!conn.closed);
}

#[test]
fn interrupted_write_retries() {
    let mut conn = Connection::new(0, HeaderShape::Simple);
    let step = conn.try_write(5, WriteEvent::Interrupted);
    assert_eq!(step, WriteStep::Retry);
    assert!(!conn.closed);
    let step = conn.try_write(5, WriteEvent::Wrote(5));
    assert_eq!(step, WriteStep::Done(5));
}

#[test]
fn fatal_events_close_the_connection() {
    let mut conn = Connection::new(0, HeaderShape::Simple);
    let step = conn.try_read(Vec::new(), ReadEvent::Fatal);
    assert_eq!(step, ReadStep::Fail(ConnError::Io));
    assert!(conn.closed);

    let mut conn = Connection::new(1, HeaderShape::Simple);
    let step = conn.try_write(9, WriteEvent::Fatal);
    assert_eq!(step, WriteStep::Fail(ConnError::Io));
    assert!(conn.closed);
}
