use fluxio::body::BodyPoll;
use fluxio::body::fluxio_body_data_reply;
use fluxio::body::fluxio_body_new;
use fluxio::body::fluxio_body_push_reply;
use fluxio::body::fluxio_body_set_userdata;
use fluxio::buf::fluxio_buf_bytes;
use fluxio::buf::fluxio_buf_copy;
use fluxio::buf::fluxio_buf_len;
use fluxio::error::ErrorKind;
use fluxio::io::IoReadPoll;
use fluxio::io::IoWritePoll;
use fluxio::io::fluxio_io_new;
use fluxio::io::fluxio_io_push_read_reply;
use fluxio::io::fluxio_io_push_write_reply;
use fluxio::io::fluxio_io_read_reply;
use fluxio::io::fluxio_io_write_reply;

#[test]
fn buf_copy_round_trip() {
    let data = b"hello buffer".to_vec();
    let buf = fluxio_buf_copy(&data);
    assert_eq!(fluxio_buf_len(&buf), 12);
    assert_eq!(fluxio_buf_bytes(&buf), data);
    let shared = buf.share();
    assert_eq!(fluxio_buf_bytes(&shared), data);
}

#[test]
fn body_poll_maps_the_sentinel_protocol() {
    let mut body = fluxio_body_new();
    fluxio_body_set_userdata(&mut body, 7);
    fluxio_body_push_reply(
        &mut body,
        fluxio_body_data_reply::Ready(Some(fluxio_buf_copy(&b"chunk".to_vec()))),
    );
    fluxio_body_push_reply(&mut body, fluxio_body_data_reply::Pending { wake: false });
    fluxio_body_push_reply(&mut body, fluxio_body_data_reply::Fault);
    fluxio_body_push_reply(&mut body, fluxio_body_data_reply::Unexpected(7));
    fluxio_body_push_reply(&mut body, fluxio_body_data_reply::Ready(None));

    match body.poll_data() {
        BodyPoll::Chunk(b) => assert_eq!(fluxio_buf_bytes(&b), b"chunk".to_vec()),
        _ => panic!("expected a chunk"),
    }
    assert!(matches!(body.poll_data(), BodyPoll::NotYet { woke: false }));
    match body.poll_data() {
        BodyPoll::Failed(e) => assert_eq!(e.kind(), ErrorKind::BodyWriteAborted),
        _ => panic!("expected a failure"),
    }
    match body.poll_data() {
        BodyPoll::Failed(e) => assert_eq!(e.kind(), ErrorKind::BodyWrite),
        _ => panic!("expected a protocol violation"),
    }
    assert!(matches!(body.poll_data(), BodyPoll::Finished));
    // An exhausted reply queue acts as an empty payload.
    assert!(matches!(body.poll_data(), BodyPoll::Finished));
    assert!(body.poll_trailers().is_none());
}

#[test]
fn io_read_pending_consumes_no_bytes() {
    let mut io = fluxio_io_new();
    fluxio_io_push_read_reply(&mut io, fluxio_io_read_reply::Pending { wake: false });
    fluxio_io_push_read_reply(&mut io, fluxio_io_read_reply::Data(b"payload".to_vec()));

    // The pending reply suspends the read and leaves the data untouched.
    assert!(matches!(io.poll_read(64), IoReadPoll::NotYet { woke: false }));
    match io.poll_read(64) {
        IoReadPoll::Filled(b) => assert_eq!(b, b"payload".to_vec()),
        _ => panic!("expected the bytes to survive the suspension"),
    }
    // Exhaustion reads as a clean end of stream.
    match io.poll_read(64) {
        IoReadPoll::Filled(b) => assert_eq!(b.len(), 0),
        _ => panic!("expected EOF"),
    }
}

#[test]
fn io_read_respects_buffer_length() {
    let mut io = fluxio_io_new();
    fluxio_io_push_read_reply(&mut io, fluxio_io_read_reply::Data(b"0123456789".to_vec()));
    match io.poll_read(4) {
        IoReadPoll::Filled(b) => assert_eq!(b, b"0123".to_vec()),
        _ => panic!("expected data"),
    }
}

#[test]
fn io_write_reports_counts_and_errors() {
    let mut io = fluxio_io_new();
    fluxio_io_push_write_reply(&mut io, fluxio_io_write_reply::Accepted(3));
    fluxio_io_push_write_reply(&mut io, fluxio_io_write_reply::Pending { wake: true });
    fluxio_io_push_write_reply(&mut io, fluxio_io_write_reply::Fault);

    let buf = b"abc".to_vec();
    assert!(matches!(io.poll_write(&buf), IoWritePoll::Wrote(3)));
    assert!(matches!(io.poll_write(&buf), IoWritePoll::NotYet { woke: true }));
    assert!(matches!(io.poll_write(&buf), IoWritePoll::Fail));
    // Exhaustion reports a zero count, like the default callback.
    assert!(matches!(io.poll_write(&buf), IoWritePoll::Wrote(0)));
    assert!(io.poll_flush().is_none());
    assert!(io.poll_shutdown().is_none());
}

#[test]
fn io_sentinel_codes_have_their_reserved_values() {
    assert_eq!(fluxio::FLUXIO_IO_PENDING, 0xFFFFFFFF);
    assert_eq!(fluxio::FLUXIO_IO_ERROR, 0xFFFFFFFE);
    assert_eq!(fluxio::FLUXIO_POLL_READY, 0);
    assert_eq!(fluxio::FLUXIO_POLL_PENDING, 1);
    assert_eq!(fluxio::FLUXIO_POLL_ERROR, 3);
    assert_eq!(fluxio::FLUXIO_ITER_CONTINUE, 0);
    assert_eq!(fluxio::FLUXIO_ITER_BREAK, 1);
}

#[test]
fn buf_wraps_an_already_shared_byte_range() {
    let raw = bytes::Bytes::from_static(b"shared range");
    let buf = fluxio::buf::fluxio_buf::from_bytes(raw);
    assert_eq!(fluxio_buf_len(&buf), 12);
    assert_eq!(fluxio_buf_bytes(&buf), b"shared range".to_vec());
    fluxio::buf::fluxio_buf_free(buf);
}
