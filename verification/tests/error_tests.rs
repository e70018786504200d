use fluxio::error::ErrorKind;
use fluxio::error::fluxio_code;
use fluxio::error::fluxio_error;
use fluxio::error::fluxio_error_code;
use fluxio::error::fluxio_error_print;

#[test]
fn error_codes_map_by_kind() {
    let parse = fluxio_error::new(ErrorKind::Parse, b"p".to_vec());
    assert_eq!(parse.code(), fluxio_code::FLUXIO_INVALID_PEER_MESSAGE);

    let eof = fluxio_error::new(ErrorKind::IncompleteMessage, b"e".to_vec());
    assert_eq!(fluxio_error_code(&eof), fluxio_code::FLUXIO_UNEXPECTED_EOF);

    let aborted = fluxio_error::aborted_by_callback();
    assert_eq!(aborted.code(), fluxio_code::FLUXIO_ABORTED_BY_CALLBACK);

    assert_eq!(fluxio_error::body_write_aborted().code(), fluxio_code::FLUXIO_ERROR);
    assert_eq!(fluxio_error::body_write_unexpected().code(), fluxio_code::FLUXIO_ERROR);
    assert_eq!(fluxio_error::io_error().code(), fluxio_code::FLUXIO_ERROR);
}

#[test]
fn error_print_copies_message_prefix() {
    let err = fluxio_error::new(ErrorKind::Parse, b"parse went wrong".to_vec());

    let mut big = vec![b'.'; 32];
    let n = fluxio_error_print(&err, &mut big);
    assert_eq!(n, 16);
    assert_eq!(&big[..16], b"parse went wrong");
    assert_eq!(&big[16..], &vec![b'.'; 16][..]);

    let mut small = vec![b'.'; 5];
    let n = fluxio_error_print(&err, &mut small);
    assert_eq!(n, 5);
    assert_eq!(small, b"parse".to_vec());

    let mut empty: Vec<u8> = Vec::new();
    assert_eq!(fluxio_error_print(&err, &mut empty), 0);
}
