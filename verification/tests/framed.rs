use bytes::{Bytes, BytesMut};
use zeromq::error::{CodecError, ErrorKind, IoError};
use zeromq::poll::Poll;
use zeromq::runtime::framed::{FramedIo, ReadHalf, WriteHalf};
use zeromq::runtime::framed_read::{
    prepare_read, reserve_for_read, ReadAction, ZmqFramedRead, READ_BUF_SIZE,
};
use zeromq::runtime::framed_write::{Goal, WriteAction, ZmqFramedWrite};

type Read = ReadAction<char, BytesMut, &'static str>;
type Write = WriteAction<char, Bytes>;

fn failure(message: &str) -> IoError {
    IoError {
        kind: ErrorKind::Other,
        os_error: None,
        message: message.to_string(),
    }
}

/// A reader that has started its first read, and the buffer given to that read.
fn reading() -> (ZmqFramedRead<char>, BytesMut) {
    let mut reader = ZmqFramedRead::new('r');
    let action: Read = reader.poll_next();
    assert!(matches!(action, ReadAction::Decode));
    let action: Read = reader.decoded(Ok(None));
    match action {
        ReadAction::StartRead('r', buf) => (reader, buf),
        other => panic!("a read is expected, not {:?}", other),
    }
}

/// A writer with these bytes to write.
fn writing(bytes: &[u8]) -> ZmqFramedWrite<char> {
    let mut writer = ZmqFramedWrite::new('w');
    writer.start_send().unwrap().extend_from_slice(bytes);
    writer
}

fn is_done(action: &Write) -> bool {
    matches!(action, WriteAction::Return(Poll::Ready(Ok(()))))
}

fn is_pending(action: &Write) -> bool {
    matches!(action, WriteAction::Return(Poll::Pending))
}

#[test]
fn reader_decodes_before_it_reads() {
    let mut reader = ZmqFramedRead::new('r');
    let action: Read = reader.decoded(Ok(Some("message")));
    assert!(matches!(
        action,
        ReadAction::Return(Poll::Ready(Some(Ok("message"))))
    ));
    let action: Read = reader.poll_next();
    assert!(matches!(action, ReadAction::Decode));
}

#[test]
fn reader_keeps_the_bytes_between_reads() {
    let (mut reader, mut buf) = reading();
    let action: Read = reader.poll_next();
    assert!(matches!(action, ReadAction::PollRead));
    let action: Read = reader.read_polled(Poll::Pending);
    assert!(matches!(action, ReadAction::Return(Poll::Pending)));
    buf.extend_from_slice(b"abc");
    let action: Read = reader.read_polled(Poll::Ready(('r', Ok(3), buf)));
    assert!(matches!(action, ReadAction::Decode));
    assert_eq!(&reader.decode_buf()[..], b"abc");
    let first = reader.decode_buf().split_to(1);
    assert_eq!(&first[..], b"a");
    let action: Read = reader.decoded(Ok(None));
    match action {
        ReadAction::StartRead('r', buf) => assert_eq!(&buf[..], b"bc"),
        other => panic!("a read is expected, not {:?}", other),
    }
    assert!(reader.decode_buf().is_empty());
}

#[test]
fn reader_ends_at_an_empty_read() {
    let (mut reader, mut buf) = reading();
    buf.extend_from_slice(b"left over");
    let action: Read = reader.read_polled(Poll::Ready(('r', Ok(0), buf)));
    assert!(matches!(action, ReadAction::Return(Poll::Ready(None))));
    for _ in 0..3 {
        let action: Read = reader.poll_next();
        assert!(matches!(action, ReadAction::Return(Poll::Ready(None))));
    }
}

#[test]
fn reader_goes_on_after_errors() {
    let (mut reader, buf) = reading();
    let action: Read = reader.read_polled(Poll::Ready(('r', Err(failure("reset")), buf)));
    match action {
        ReadAction::Return(Poll::Ready(Some(Err(CodecError::Io(e))))) => {
            assert_eq!(e.message, "reset");
            assert_eq!(e.kind, ErrorKind::Other);
        }
        other => panic!("an error is expected, not {:?}", other),
    }
    let action: Read = reader.poll_next();
    assert!(matches!(action, ReadAction::Decode));
    let action: Read = reader.decoded(Err(CodecError::Protocol("bad frame".to_string())));
    match action {
        ReadAction::Return(Poll::Ready(Some(Err(CodecError::Protocol(m))))) => {
            assert_eq!(m, "bad frame")
        }
        other => panic!("an error is expected, not {:?}", other),
    }
    let action: Read = reader.poll_next();
    assert!(matches!(action, ReadAction::Decode));
}

#[test]
fn full_buffers_grow_before_a_read() {
    assert_eq!(READ_BUF_SIZE, 8192);
    assert_eq!(reserve_for_read(0, 0), 8192);
    assert_eq!(reserve_for_read(8192, 8192), 8192);
    assert_eq!(reserve_for_read(8191, 8192), 0);
}

#[test]
fn reads_have_room_behind_the_bytes() {
    let window = prepare_read(BytesMut::new());
    assert_eq!(window.start, 0);
    assert!(window.end >= 8192);
    assert_eq!(window.buf.capacity(), window.end);

    let full = BytesMut::from(&b"hello"[..]);
    assert_eq!(full.len(), full.capacity());
    let window = prepare_read(full);
    assert_eq!(window.start, 5);
    assert!(window.end >= 5 + 8192);
    assert_eq!(&window.buf[..], b"hello");

    let mut roomy = BytesMut::with_capacity(100);
    roomy.extend_from_slice(b"hello");
    let window = prepare_read(roomy);
    assert_eq!((window.start, window.end), (5, 100));
}

#[test]
fn writer_hands_over_all_bytes_at_once() {
    let mut writer = writing(b"one");
    writer.start_send().unwrap().extend_from_slice(b"two");
    match writer.poll_ready() {
        WriteAction::StartWrite('w', chunk) => assert_eq!(&chunk[..], b"onetwo"),
        other => panic!("a write is expected, not {:?}", other),
    }
    // Bytes encoded meanwhile go with the next write.
    writer.start_send().unwrap().extend_from_slice(b"three");
    assert!(matches!(writer.poll_ready(), WriteAction::PollWrite));
    assert!(is_pending(&writer.write_polled(Goal::Ready, Poll::Pending)));
    match writer.write_polled(Goal::Ready, Poll::Ready(('w', Ok(6)))) {
        WriteAction::StartWrite('w', chunk) => assert_eq!(&chunk[..], b"three"),
        other => panic!("a write is expected, not {:?}", other),
    }
    assert!(is_done(
        &writer.write_polled(Goal::Ready, Poll::Ready(('w', Ok(5))))
    ));
    assert!(is_done(&writer.poll_write_buf()));
}

#[test]
fn flush_follows_the_writes() {
    let mut writer = writing(b"one");
    assert!(matches!(
        writer.poll_flush(),
        WriteAction::StartWrite('w', _)
    ));
    assert!(matches!(
        writer.write_polled(Goal::Flush, Poll::Ready(('w', Ok(3)))),
        WriteAction::StartFlush('w')
    ));
    assert!(is_pending(&writer.flush_polled(Goal::Flush, Poll::Pending)));
    assert!(matches!(
        writer.poll_flush_inner(),
        WriteAction::PollFlush
    ));
    assert!(is_done(
        &writer.flush_polled(Goal::Flush, Poll::Ready(('w', Ok(()))))
    ));
}

#[test]
fn bytes_wait_while_a_flush_is_under_way() {
    let mut writer: ZmqFramedWrite<char> = ZmqFramedWrite::new('w');
    assert!(matches!(writer.poll_flush(), WriteAction::StartFlush('w')));
    writer.start_send().unwrap().extend_from_slice(b"one");
    assert!(is_pending(&writer.poll_ready()));
    assert!(is_pending(&writer.poll_flush()));
    assert!(is_done(
        &writer.flush_polled(Goal::Flush, Poll::Ready(('w', Ok(()))))
    ));
    assert!(matches!(
        writer.poll_ready(),
        WriteAction::StartWrite('w', _)
    ));
}

#[test]
fn close_flushes_and_shuts_down() {
    let mut writer = writing(b"one");
    assert!(matches!(
        writer.poll_close(),
        WriteAction::StartWrite('w', _)
    ));
    assert!(matches!(
        writer.write_polled(Goal::Close, Poll::Ready(('w', Ok(3)))),
        WriteAction::StartFlush('w')
    ));
    assert!(matches!(
        writer.flush_polled(Goal::Close, Poll::Ready(('w', Ok(())))),
        WriteAction::StartShutdown('w')
    ));
    // While the shutdown is under way, the write half is not there for anything else.
    assert!(is_pending(&writer.shutdown_polled(Poll::Pending)));
    assert!(is_pending(&writer.poll_close()));
    assert!(is_done(
        &writer.shutdown_polled(Poll::Ready(('w', Ok(()))))
    ));
    assert!(is_done(&writer.poll_close()));
    match writer.start_send() {
        Err(CodecError::Io(e)) => {
            assert_eq!(e.kind, ErrorKind::BrokenPipe);
            assert_eq!(e.os_error, None);
            assert_eq!(e.message, "framed writer is closed");
        }
        other => panic!("an error is expected, not {:?}", other),
    }
}

#[test]
fn failed_operations_are_reported() {
    let mut writer = writing(b"one");
    assert!(matches!(
        writer.poll_close(),
        WriteAction::StartWrite('w', _)
    ));
    let action = writer.write_polled(Goal::Close, Poll::Ready(('w', Err(failure("write")))));
    match action {
        WriteAction::Return(Poll::Ready(Err(CodecError::Io(e)))) => assert_eq!(e.message, "write"),
        other => panic!("an error is expected, not {:?}", other),
    }
    assert!(matches!(writer.poll_close(), WriteAction::StartFlush('w')));
    let action = writer.flush_polled(Goal::Close, Poll::Ready(('w', Err(failure("flush")))));
    match action {
        WriteAction::Return(Poll::Ready(Err(CodecError::Io(e)))) => assert_eq!(e.message, "flush"),
        other => panic!("an error is expected, not {:?}", other),
    }
    assert!(matches!(writer.poll_close(), WriteAction::StartFlush('w')));
    assert!(matches!(
        writer.flush_polled(Goal::Close, Poll::Ready(('w', Ok(())))),
        WriteAction::StartShutdown('w')
    ));
    let action = writer.shutdown_polled(Poll::Ready(('w', Err(failure("shutdown")))));
    match action {
        WriteAction::Return(Poll::Ready(Err(CodecError::Io(e)))) => {
            assert_eq!(e.message, "shutdown")
        }
        other => panic!("an error is expected, not {:?}", other),
    }
    assert!(writer.start_send().is_ok());
}

#[test]
fn halves_carry_their_transport() {
    let io: FramedIo<ReadHalf<u8, u16>, WriteHalf<u32, u64>> = FramedIo::new_tcp(1, 2);
    let (mut reader, mut writer) = io.into_parts();
    let action: ReadAction<ReadHalf<u8, u16>, BytesMut, ()> = reader.decoded(Ok(None));
    assert!(matches!(action, ReadAction::StartRead(ReadHalf::Tcp(1), _)));
    assert!(matches!(
        writer.poll_flush(),
        WriteAction::StartFlush(WriteHalf::Tcp(2))
    ));

    let io: FramedIo<ReadHalf<u8, u16>, WriteHalf<u32, u64>> = FramedIo::new_unix(3, 4);
    let (mut reader, mut writer) = io.into_parts();
    let action: ReadAction<ReadHalf<u8, u16>, BytesMut, ()> = reader.decoded(Ok(None));
    assert!(matches!(
        action,
        ReadAction::StartRead(ReadHalf::Unix(3), _)
    ));
    assert!(matches!(
        writer.poll_flush(),
        WriteAction::StartFlush(WriteHalf::Unix(4))
    ));
}

/// Takes a frame, one byte of length and that many bytes, from the front of the buffer.
fn decode(buf: &mut BytesMut) -> Option<Vec<u8>> {
    let len = *buf.first()? as usize;
    if buf.len() <= len {
        return None;
    }
    Some(buf.split_to(len + 1)[1..].to_vec())
}

/// What a reader gives over a transport that delivers `bytes` in pieces of this size, and is
/// pending before each.
fn messages(bytes: &[u8], size: usize) -> Vec<Vec<u8>> {
    let mut pieces = bytes.chunks(size);
    let mut reader = ZmqFramedRead::new('r');
    let mut out = Vec::new();
    let mut held = BytesMut::new();
    let mut was_pending = false;
    let mut action: ReadAction<char, BytesMut, Vec<u8>> = reader.poll_next();
    loop {
        action = match action {
            ReadAction::Decode => {
                let result = decode(reader.decode_buf());
                reader.decoded(Ok(result))
            }
            ReadAction::StartRead('r', buf) => {
                held = buf;
                was_pending = true;
                reader.read_polled(Poll::Pending)
            }
            ReadAction::PollRead => {
                assert!(was_pending);
                let piece = pieces.next().unwrap_or(&[]);
                held.extend_from_slice(piece);
                let buf = std::mem::replace(&mut held, BytesMut::new());
                reader.read_polled(Poll::Ready(('r', Ok(piece.len()), buf)))
            }
            ReadAction::Return(Poll::Pending) => reader.poll_next(),
            ReadAction::Return(Poll::Ready(Some(Ok(message)))) => {
                out.push(message);
                reader.poll_next()
            }
            ReadAction::Return(Poll::Ready(None)) => return out,
            other => panic!("not expected: {:?}", other),
        };
    }
}

#[test]
fn messages_do_not_depend_on_the_split() {
    let bytes = b"\x03one\x00\x05three\x04lost".split_at(13).0;
    let expected = vec![b"one".to_vec(), b"".to_vec(), b"three".to_vec()];
    for size in 1..=bytes.len() {
        assert_eq!(messages(bytes, size), expected);
    }
    assert_eq!(messages(b"", 1), Vec::<Vec<u8>>::new());
}

#[test]
fn pending_shutdown_is_not_polled_again() {
    let mut writer = ZmqFramedWrite::new('w');
    assert!(matches!(writer.poll_close(), WriteAction::StartFlush('w')));
    assert!(matches!(
        writer.flush_polled(Goal::Close, Poll::Ready(('w', Ok(())))),
        WriteAction::StartShutdown('w')
    ));
    assert!(is_pending(&writer.shutdown_polled(Poll::Pending)));
    assert!(is_done(&writer.poll_ready()));
    writer.start_send().unwrap().extend_from_slice(b"late");
    for _ in 0..3 {
        assert!(is_pending(&writer.poll_ready()));
        assert!(is_pending(&writer.poll_flush()));
        assert!(is_pending(&writer.poll_close()));
    }
}
