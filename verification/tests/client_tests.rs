use fluxio::body::fluxio_body_new;
use fluxio::buf::fluxio_buf_bytes;
use fluxio::buf::fluxio_buf_copy;
use fluxio::client::fluxio_clientconn_handshake;
use fluxio::client::fluxio_clientconn_options_exec;
use fluxio::client::fluxio_clientconn_options_headers_raw;
use fluxio::client::fluxio_clientconn_options_http2;
use fluxio::client::fluxio_clientconn_options_new;
use fluxio::client::fluxio_clientconn_options_set_preserve_header_case;
use fluxio::client::fluxio_clientconn_options_set_preserve_header_order;
use fluxio::client::fluxio_clientconn_send;
use fluxio::client::fluxio_send_reply;
use fluxio::error::ErrorKind;
use fluxio::error::fluxio_code;
use fluxio::error::fluxio_error;
use fluxio::headers::HeaderCaseMap;
use fluxio::headers::OriginalHeaderOrder;
use fluxio::headers::fluxio_headers_add;
use fluxio::headers::fluxio_headers_foreach;
use fluxio::http_types::HttpVersion;
use fluxio::http_types::ResponseParts;
use fluxio::http_types::fluxio_request_headers;
use fluxio::http_types::fluxio_request_new;
use fluxio::http_types::fluxio_request_on_informational;
use fluxio::http_types::fluxio_request_set_body;
use fluxio::http_types::fluxio_request_set_method;
use fluxio::http_types::fluxio_request_set_uri;
use fluxio::http_types::fluxio_request_set_uri_parts;
use fluxio::http_types::fluxio_request_set_version;
use fluxio::http_types::fluxio_response_body;
use fluxio::http_types::fluxio_response_headers_raw;
use fluxio::http_types::fluxio_response_reason_phrase;
use fluxio::http_types::fluxio_response_reason_phrase_len;
use fluxio::http_types::fluxio_response_status;
use fluxio::http_types::fluxio_response_version;
use fluxio::io::fluxio_io_new;
use fluxio::io::fluxio_io_push_read_reply;
use fluxio::io::fluxio_io_read_reply;
use fluxio::task::TaskValue;
use fluxio::task::fluxio_executor_new;
use fluxio::task::fluxio_executor_poll;
use fluxio::task::fluxio_executor_push;
use fluxio::task::fluxio_task_return_type;
use fluxio::task::fluxio_task_type;
use fluxio::task::fluxio_task_value;

fn plain_parts(status: u16) -> ResponseParts {
    ResponseParts {
        status,
        version: HttpVersion::Http11,
        headers: http::HeaderMap::new(),
        orig_casing: None,
        orig_order: None,
        reason: None,
        raw_headers: None,
        body: fluxio_body_new(),
    }
}

#[test]
fn request_setters_validate_their_inputs() {
    let mut req = fluxio_request_new();
    assert_eq!(req.method, b"GET".to_vec());
    assert_eq!(req.uri, b"/".to_vec());

    assert_eq!(
        fluxio_request_set_method(&mut req, &b"POST".to_vec()),
        fluxio_code::FLUXIO_OK
    );
    assert_eq!(req.method, b"POST".to_vec());
    assert_eq!(
        fluxio_request_set_method(&mut req, &b"BAD METHOD".to_vec()),
        fluxio_code::FLUXIO_INVALID_ARG
    );
    assert_eq!(req.method, b"POST".to_vec());

    assert_eq!(
        fluxio_request_set_uri(&mut req, &b"/where?q=1".to_vec()),
        fluxio_code::FLUXIO_OK
    );
    assert_eq!(req.uri, b"/where?q=1".to_vec());
    assert_eq!(
        fluxio_request_set_uri(&mut req, &b"ht tp://bad uri".to_vec()),
        fluxio_code::FLUXIO_INVALID_ARG
    );

    assert_eq!(
        fluxio_request_set_uri_parts(
            &mut req,
            Some(&b"http".to_vec()),
            Some(&b"example.com".to_vec()),
            Some(&b"/path?x=2".to_vec()),
        ),
        fluxio_code::FLUXIO_OK
    );
    assert_eq!(req.uri, b"http://example.com/path?x=2".to_vec());
    assert_eq!(
        fluxio_request_set_uri_parts(&mut req, Some(&b"not a scheme".to_vec()), None, None),
        fluxio_code::FLUXIO_INVALID_ARG
    );

    assert_eq!(
        fluxio_request_set_version(&mut req, fluxio::FLUXIO_HTTP_VERSION_1_0),
        fluxio_code::FLUXIO_OK
    );
    assert_eq!(req.version, HttpVersion::Http10);
    assert_eq!(
        fluxio_request_set_version(&mut req, fluxio::FLUXIO_HTTP_VERSION_NONE),
        fluxio_code::FLUXIO_OK
    );
    assert_eq!(req.version, HttpVersion::Http11);
    assert_eq!(
        fluxio_request_set_version(&mut req, 42),
        fluxio_code::FLUXIO_INVALID_ARG
    );

    assert_eq!(
        fluxio_request_set_body(&mut req, fluxio_body_new()),
        fluxio_code::FLUXIO_OK
    );
    assert_eq!(
        fluxio_request_on_informational(&mut req, 9),
        fluxio_code::FLUXIO_OK
    );
}

#[test]
fn options_toggles_and_http2_feature() {
    let mut opts = fluxio_clientconn_options_new();
    assert!(!opts.preserve_header_case);
    assert!(!opts.preserve_header_order);
    assert!(!opts.headers_raw);
    assert!(!opts.exec_ref.attached);

    fluxio_clientconn_options_set_preserve_header_case(&mut opts, 1);
    fluxio_clientconn_options_set_preserve_header_order(&mut opts, 1);
    assert!(opts.preserve_header_case && opts.preserve_header_order);
    assert_eq!(
        fluxio_clientconn_options_headers_raw(&mut opts, 1),
        fluxio_code::FLUXIO_OK
    );
    assert!(opts.headers_raw);
    // This build carries no HTTP/2 engine.
    assert_eq!(
        fluxio_clientconn_options_http2(&mut opts, 1),
        fluxio_code::FLUXIO_FEATURE_NOT_ENABLED
    );
}

#[test]
fn handshake_spawns_the_driver_on_the_attached_executor() {
    let mut exec = fluxio_executor_new();
    let mut opts = fluxio_clientconn_options_new();
    fluxio_clientconn_options_exec(&mut opts, &exec);

    let mut io = fluxio_io_new();
    fluxio_io_push_read_reply(&mut io, fluxio_io_read_reply::Data(b"keep".to_vec()));
    fluxio_io_push_read_reply(&mut io, fluxio_io_read_reply::Data(Vec::new()));

    let task = fluxio_clientconn_handshake(io, opts);
    fluxio_executor_push(&mut exec, task);

    let mut done = fluxio_executor_poll(&mut exec).expect("the handshake resolves");
    assert_eq!(fluxio_task_type(&done), fluxio_task_return_type::FLUXIO_TASK_CLIENTCONN);
    assert!(matches!(fluxio_task_value(&mut done), Some(TaskValue::Conn(_))));

    // The spawned driver reads until EOF and resolves empty.
    let driver_done = fluxio_executor_poll(&mut exec).expect("the driver resolves at EOF");
    assert_eq!(fluxio_task_type(&driver_done), fluxio_task_return_type::FLUXIO_TASK_EMPTY);
    assert!(fluxio_executor_poll(&mut exec).is_none());
}

#[test]
fn handshake_without_executor_drops_the_driver() {
    let mut exec = fluxio_executor_new();
    let opts = fluxio_clientconn_options_new();
    let io = fluxio_io_new();
    let task = fluxio_clientconn_handshake(io, opts);
    fluxio_executor_push(&mut exec, task);

    let done = fluxio_executor_poll(&mut exec).expect("the handshake resolves");
    assert_eq!(fluxio_task_type(&done), fluxio_task_return_type::FLUXIO_TASK_CLIENTCONN);
    // No driver was spawned: nothing is ready afterwards.
    assert!(fluxio_executor_poll(&mut exec).is_none());
}

#[test]
fn send_resolves_to_the_wrapped_response() {
    let mut exec = fluxio_executor_new();
    let opts = fluxio_clientconn_options_new();
    let task = fluxio_clientconn_handshake(fluxio_io_new(), opts);
    fluxio_executor_push(&mut exec, task);
    let mut done = fluxio_executor_poll(&mut exec).expect("the handshake resolves");
    let mut conn = match fluxio_task_value(&mut done) {
        Some(TaskValue::Conn(c)) => c,
        _ => panic!("expected a connection"),
    };

    // The engine's reply: a 200 with one header whose casing and order
    // side tables were kept.
    let mut headers = http::HeaderMap::new();
    headers.insert("set-cookie", http::HeaderValue::from_static("a=b"));
    let mut casing = HeaderCaseMap::new();
    casing.append_spelling(b"set-cookie".to_vec(), b"Set-CookiE".to_vec());
    let mut order = OriginalHeaderOrder::new();
    order.append_entry(b"set-cookie".to_vec());
    let parts = ResponseParts {
        status: 200,
        version: HttpVersion::Http11,
        headers,
        orig_casing: Some(casing),
        orig_order: Some(order),
        reason: None,
        raw_headers: Some(fluxio_buf_copy(&b"Set-CookiE: a=b\r\n".to_vec())),
        body: fluxio_body_new(),
    };
    conn.push_reply_script(vec![
        fluxio_send_reply::NotYet { wake: true },
        fluxio_send_reply::Answer(parts),
    ]);

    let mut req = fluxio_request_new();
    fluxio_request_set_method(&mut req, &b"GET".to_vec());
    let h = fluxio_request_headers(&mut req);
    fluxio_headers_add(h, &b"X-Client".to_vec(), &b"me".to_vec());

    let send_task = fluxio_clientconn_send(&mut conn, req);
    assert_eq!(conn.sent.len(), 1);
    // Finalizing moved the header collection into sending position.
    assert!(conn.sent[0].headers_ext.is_none());
    assert!(conn.sent[0].orig_casing.is_some());

    fluxio_executor_push(&mut exec, send_task);
    let mut resp_task = fluxio_executor_poll(&mut exec).expect("pend-then-wake resolves");
    assert_eq!(fluxio_task_type(&resp_task), fluxio_task_return_type::FLUXIO_TASK_RESPONSE);
    let mut resp = match fluxio_task_value(&mut resp_task) {
        Some(TaskValue::Resp(r)) => r,
        _ => panic!("expected a response"),
    };

    assert_eq!(fluxio_response_status(&resp), 200);
    assert_eq!(fluxio_response_version(&resp), fluxio::FLUXIO_HTTP_VERSION_1_1);
    // The canonical phrase of 200.
    assert_eq!(fluxio_response_reason_phrase(&resp), b"OK".to_vec());
    assert_eq!(fluxio_response_reason_phrase_len(&resp), 2);
    match fluxio_response_headers_raw(&resp) {
        Some(raw) => assert_eq!(fluxio_buf_bytes(raw), b"Set-CookiE: a=b\r\n".to_vec()),
        None => panic!("raw headers were captured"),
    }

    // Iteration over the response's headers reproduces the casing the
    // peer sent.
    let rh = fluxio::http_types::fluxio_response_headers(&mut resp);
    let pairs = fluxio_headers_foreach(rh, &vec![fluxio::FLUXIO_ITER_CONTINUE]);
    assert_eq!(pairs.len(), 1);
    assert_eq!(pairs[0].0, b"Set-CookiE".to_vec());
    assert_eq!(pairs[0].1, b"a=b".to_vec());

    let _body = fluxio_response_body(&mut resp);
}

#[test]
fn send_failure_surfaces_the_typed_error() {
    let mut exec = fluxio_executor_new();
    let opts = fluxio_clientconn_options_new();
    let task = fluxio_clientconn_handshake(fluxio_io_new(), opts);
    fluxio_executor_push(&mut exec, task);
    let mut done = fluxio_executor_poll(&mut exec).unwrap();
    let mut conn = match fluxio_task_value(&mut done) {
        Some(TaskValue::Conn(c)) => c,
        _ => panic!("expected a connection"),
    };

    conn.push_reply_script(vec![fluxio_send_reply::Failure(fluxio_error::new(
        ErrorKind::Parse,
        b"bad frame".to_vec(),
    ))]);
    conn.push_reply_script(vec![fluxio_send_reply::Failure(fluxio_error::new(
        ErrorKind::IncompleteMessage,
        b"closed early".to_vec(),
    ))]);

    for expected in [
        fluxio_code::FLUXIO_INVALID_PEER_MESSAGE,
        fluxio_code::FLUXIO_UNEXPECTED_EOF,
    ] {
        let send_task = fluxio_clientconn_send(&mut conn, fluxio_request_new());
        fluxio_executor_push(&mut exec, send_task);
        let mut failed = fluxio_executor_poll(&mut exec).expect("the failure resolves");
        assert_eq!(fluxio_task_type(&failed), fluxio_task_return_type::FLUXIO_TASK_ERROR);
        match fluxio_task_value(&mut failed) {
            Some(TaskValue::Failed(e)) => assert_eq!(e.code(), expected),
            _ => panic!("expected the error"),
        }
    }
}

#[test]
fn custom_reason_phrase_wins_over_canonical() {
    let mut parts = plain_parts(200);
    parts.reason = Some(fluxio_buf_copy(&b"Very Fine".to_vec()));
    let resp = fluxio::http_types::fluxio_response::wrap(parts);
    assert_eq!(fluxio_response_reason_phrase(&resp), b"Very Fine".to_vec());

    // An unknown status without a custom phrase shows nothing.
    let unnamed = fluxio::http_types::fluxio_response::wrap(plain_parts(599));
    assert_eq!(fluxio_response_reason_phrase_len(&unnamed), 0);
    assert!(fluxio_response_headers_raw(&unnamed).is_none());
}

#[test]
fn response_headers_without_order_tables_fall_back_to_map_order() {
    let mut headers = http::HeaderMap::new();
    headers.insert("x-alpha", http::HeaderValue::from_static("1"));
    headers.insert("x-beta", http::HeaderValue::from_static("2"));
    let mut parts = plain_parts(204);
    parts.headers = headers;
    let mut resp = fluxio::http_types::fluxio_response::wrap(parts);

    let rh = fluxio::http_types::fluxio_response_headers(&mut resp);
    let pairs = fluxio_headers_foreach(rh, &vec![fluxio::FLUXIO_ITER_CONTINUE; 2]);
    // The map's own key order is unspecified: compare as a set.
    assert_eq!(pairs.len(), 2);
    let mut seen: Vec<(Vec<u8>, Vec<u8>)> = pairs.clone();
    seen.sort();
    assert_eq!(seen[0], (b"x-alpha".to_vec(), b"1".to_vec()));
    assert_eq!(seen[1], (b"x-beta".to_vec(), b"2".to_vec()));
}

#[test]
fn request_headers_slot_is_created_once() {
    let mut req = fluxio_request_new();
    {
        let h = fluxio_request_headers(&mut req);
        fluxio_headers_add(h, &b"X-One".to_vec(), &b"1".to_vec());
    }
    // A second access sees the same collection, not a fresh one.
    let h = fluxio_request_headers(&mut req);
    let pairs = fluxio_headers_foreach(h, &vec![fluxio::FLUXIO_ITER_CONTINUE]);
    assert_eq!(pairs.len(), 1);
    assert_eq!(pairs[0].0, b"X-One".to_vec());
}

#[test]
fn informational_responses_are_recorded() {
    let mut req = fluxio_request_new();
    fluxio_request_on_informational(&mut req, 31);
    let oi = req.on_informational.as_mut().unwrap();
    assert_eq!(oi.userdata, 31);
    oi.call(plain_parts(100));
    oi.call(plain_parts(103));
    assert_eq!(oi.received.len(), 2);
    assert_eq!(fluxio_response_status(&oi.received[0]), 100);
    assert_eq!(fluxio_response_status(&oi.received[1]), 103);
}

#[test]
fn finalize_moves_the_header_collection_into_place() {
    let mut req = fluxio_request_new();
    {
        let h = fluxio_request_headers(&mut req);
        fluxio_headers_add(h, &b"X-Keep-CaSe".to_vec(), &b"yes".to_vec());
    }
    assert!(req.headers_ext.is_some());
    req.finalize_request();
    assert!(req.headers_ext.is_none());
    assert!(req.orig_casing.is_some());
    assert!(req.orig_order.is_some());
    assert_eq!(
        req.headers.get("x-keep-case").map(|v| v.as_bytes().to_vec()),
        Some(b"yes".to_vec())
    );
    // Finalizing again changes nothing.
    req.finalize_request();
    assert!(req.orig_casing.is_some());
}

#[test]
fn handshake_fault_resolves_to_the_error_and_spawns_nothing() {
    let mut exec = fluxio_executor_new();
    let mut opts = fluxio_clientconn_options_new();
    fluxio_clientconn_options_exec(&mut opts, &exec);

    let mut io = fluxio_io_new();
    fluxio_io_push_read_reply(&mut io, fluxio_io_read_reply::Data(b"never read".to_vec()));
    let mut task = fluxio_clientconn_handshake(io, opts);
    fluxio::task::fluxio_task_set_handshake_fault(&mut task, fluxio_error::io_error());
    fluxio_executor_push(&mut exec, task);

    let mut failed = fluxio_executor_poll(&mut exec).expect("the handshake resolves");
    assert_eq!(fluxio_task_type(&failed), fluxio_task_return_type::FLUXIO_TASK_ERROR);
    match fluxio_task_value(&mut failed) {
        Some(TaskValue::Failed(e)) => assert_eq!(e.code(), fluxio_code::FLUXIO_ERROR),
        _ => panic!("expected the scripted fault"),
    }
    // No driver was spawned for the failed connection.
    assert!(fluxio_executor_poll(&mut exec).is_none());
}
