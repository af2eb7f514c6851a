use ooproxy::error::ErrorKind;
use ooproxy::stream::{
    pipe, PipeStatus, Side, SideTask, StreamWithBuffer, PRIVATE_BUF_SIZE, SHARED_BUF_SIZE,
};

/// A deterministic test payload.
fn payload(len: usize) -> Vec<u8> {
    (0..len).map(|i| (i * 7 + 3) as u8).collect()
}

#[test]
fn fresh_side_reads_first() {
    let p = pipe(StreamWithBuffer::new(), StreamWithBuffer::new());
    assert_eq!(p.next_task(Side::Left), SideTask::Read);
    assert_eq!(p.next_task(Side::Right), SideTask::Read);
}

#[test]
fn relay_conserves_bytes_through_partial_writes_and_handoff() {
    // One direction of a pipe, driven the way the application drives
    // it: reads fill the shared scratch buffer, writes drain it in
    // arbitrary partial steps, and a blocked write forces the handoff
    // to a private buffer.  Every byte read must come out exactly once,
    // in order.
    let message = payload(10000);
    let mut sent: Vec<u8> = Vec::new(); // what the "destination socket" saw
    let mut shared = vec![0u8; SHARED_BUF_SIZE];

    let mut side = StreamWithBuffer::new();

    // First read: 6000 bytes arrive in the shared buffer.
    shared[..6000].copy_from_slice(&message[..6000]);
    side.note_shared_read(&shared, 6000);
    assert!(!side.is_empty());

    // A partial write of 1000 bytes succeeds...
    sent.extend_from_slice(&shared[side.pos..side.pos + 1000]);
    assert_eq!(side.note_shared_write(&shared, 1000).unwrap(), 1000);

    // ...then the socket blocks: the remainder moves to a private
    // buffer sized at least the private floor.
    side.hand_off_to_private(&shared);
    let chunk = side.private_chunk();
    assert_eq!(chunk, &message[1000..6000]);
    match &side.buf {
        Some(b) => assert_eq!(b.len(), PRIVATE_BUF_SIZE.max(5000)),
        None => panic!("handoff must install a private buffer"),
    }

    // Drain the private buffer in uneven steps.
    let mut step = 611;
    while !side.is_empty() {
        let chunk = side.private_chunk().to_vec();
        let n = step.min(chunk.len());
        sent.extend_from_slice(&chunk[..n]);
        assert_eq!(side.note_private_write(n).unwrap(), n);
        step += 101;
    }

    // Later reads land in the private buffer.
    let mut read_at = 6000;
    while read_at < message.len() {
        let mut b = side.begin_private_read();
        let n = (message.len() - read_at).min(b.len());
        b[..n].copy_from_slice(&message[read_at..read_at + n]);
        side.note_private_read(b, n);
        read_at += n;
        while !side.is_empty() {
            let chunk = side.private_chunk().to_vec();
            let n = 997.min(chunk.len());
            sent.extend_from_slice(&chunk[..n]);
            assert_eq!(side.note_private_write(n).unwrap(), n);
        }
    }

    // EOF arrives; the side asks for the peer's shutdown.
    let b = side.begin_private_read();
    side.note_private_read(b, 0);
    assert!(side.read_eof);

    // Total bytes written equal total bytes read: no duplication, no
    // gap, no reordering, across the shared-to-private handoff.
    assert_eq!(sent, message);
}

#[test]
fn relay_shared_only_conserves_bytes() {
    // The same property with no handoff: reads and partial writes all
    // through the shared buffer.
    let message = payload(3000);
    let mut sent: Vec<u8> = Vec::new();
    let mut shared = vec![0u8; SHARED_BUF_SIZE];
    let mut side = StreamWithBuffer::new();

    let mut read_at = 0;
    while read_at < message.len() {
        let n = 1234.min(message.len() - read_at);
        shared[..n].copy_from_slice(&message[read_at..read_at + n]);
        side.note_shared_read(&shared, n);
        read_at += n;
        while !side.is_empty() {
            let k = 501.min(side.cap - side.pos);
            sent.extend_from_slice(&shared[side.pos..side.pos + k]);
            side.note_shared_write(&shared, k).unwrap();
        }
    }
    shared[0] = 0;
    side.note_shared_read(&shared, 0);
    assert!(side.read_eof);
    assert_eq!(sent, message);
}

#[test]
fn zero_byte_write_is_fatal() {
    let mut shared = vec![0u8; 64];
    shared[..4].copy_from_slice(b"abcd");
    let mut side = StreamWithBuffer::new();
    side.note_shared_read(&shared, 4);
    let e = side.note_shared_write(&shared, 0).unwrap_err();
    assert_eq!(e.kind, ErrorKind::WriteZero);
    // The state is untouched: the bytes are still owed.
    assert_eq!(side.pos, 0);
    assert_eq!(side.cap, 4);
}

#[test]
fn side_task_decisions() {
    let mut shared = vec![0u8; 64];
    shared[..2].copy_from_slice(b"hi");
    let mut p = pipe(StreamWithBuffer::new(), StreamWithBuffer::new());

    // Bytes waiting: write them.
    p.left.note_shared_read(&shared, 2);
    assert_eq!(p.next_task(Side::Left), SideTask::Write);
    p.left.note_shared_write(&shared, 2).unwrap();

    // Empty again: read.
    assert_eq!(p.next_task(Side::Left), SideTask::Read);

    // EOF: shut the peer down, then the side is finished.
    p.left.note_shared_read(&shared, 0);
    assert_eq!(p.next_task(Side::Left), SideTask::Shutdown);
    p.mark_done(Side::Left);
    assert_eq!(p.next_task(Side::Left), SideTask::Finished);
    assert!(p.left.done);
    assert!(!p.right.done);
}

#[test]
fn half_close_completes_at_deadline_not_before() {
    let mut p = pipe(StreamWithBuffer::new(), StreamWithBuffer::new());

    // Both sides alive: pending, no deadline armed.
    assert_eq!(p.poll_completion(false), PipeStatus::Pending);
    assert!(!p.timer_armed);

    // One side finishes: the first poll arms the deadline and the pipe
    // keeps running.
    p.mark_done(Side::Left);
    assert_eq!(p.poll_completion(false), PipeStatus::Pending);
    assert!(p.timer_armed);

    // Polls before the deadline fires never complete the pipe.
    for _ in 0..5 {
        assert_eq!(p.poll_completion(false), PipeStatus::Pending);
    }

    // The deadline fires with one side still open: forced completion,
    // treated as success.
    assert_eq!(p.poll_completion(true), PipeStatus::Ready);
}

#[test]
fn both_sides_done_completes_immediately() {
    let mut p = pipe(StreamWithBuffer::new(), StreamWithBuffer::new());
    p.mark_done(Side::Left);
    p.mark_done(Side::Right);
    assert_eq!(p.poll_completion(false), PipeStatus::Ready);
}
