use fluxio::FLUXIO_ITER_CONTINUE;
use fluxio::error::fluxio_code;
use fluxio::headers::fluxio_headers;
use fluxio::headers::fluxio_headers_add;
use fluxio::headers::fluxio_headers_foreach;
use fluxio::headers::fluxio_headers_set;
use fluxio::headers::raw_name_value;

fn concat_pairs(pairs: &[(Vec<u8>, Vec<u8>)]) -> Vec<u8> {
    let mut out = Vec::new();
    for (name, value) in pairs {
        out.extend(name.iter().copied());
        out.extend(b": ".iter().copied());
        out.extend(value.iter().copied());
        out.extend(b"\r\n".iter().copied());
    }
    out
}

#[test]
fn test_headers_foreach_cases_preserved() {
    let mut headers = fluxio_headers::default();

    let name1 = b"Set-CookiE".to_vec();
    let value1 = b"a=b".to_vec();
    assert_eq!(
        fluxio_headers_add(&mut headers, &name1, &value1),
        fluxio_code::FLUXIO_OK
    );

    let name2 = b"SET-COOKIE".to_vec();
    let value2 = b"c=d".to_vec();
    assert_eq!(
        fluxio_headers_add(&mut headers, &name2, &value2),
        fluxio_code::FLUXIO_OK
    );

    let decisions = vec![FLUXIO_ITER_CONTINUE, FLUXIO_ITER_CONTINUE];
    let pairs = fluxio_headers_foreach(&headers, &decisions);
    let concatenated = concat_pairs(&pairs);

    assert_eq!(concatenated, b"Set-CookiE: a=b\r\nSET-COOKIE: c=d\r\n".to_vec());
}

#[test]
fn test_headers_foreach_order_preserved() {
    let mut headers = fluxio_headers::default();

    let name1 = b"Set-CookiE".to_vec();
    let value1 = b"a=b".to_vec();
    fluxio_headers_add(&mut headers, &name1, &value1);

    let name2 = b"Content-Encoding".to_vec();
    let value2 = b"gzip".to_vec();
    fluxio_headers_add(&mut headers, &name2, &value2);

    let name3 = b"SET-COOKIE".to_vec();
    let value3 = b"c=d".to_vec();
    fluxio_headers_add(&mut headers, &name3, &value3);

    let decisions = vec![FLUXIO_ITER_CONTINUE; 3];
    let pairs = fluxio_headers_foreach(&headers, &decisions);
    let concatenated = concat_pairs(&pairs);

    println!("{}", String::from_utf8(concatenated.clone()).unwrap());
    assert_eq!(
        concatenated,
        b"Set-CookiE: a=b\r\nContent-Encoding: gzip\r\nSET-COOKIE: c=d\r\n".to_vec()
    );
}

#[test]
fn headers_add_rejects_invalid_name() {
    let mut headers = fluxio_headers::default();
    let code = fluxio_headers_add(&mut headers, &b"Bad Name".to_vec(), &b"v".to_vec());
    assert_eq!(code, fluxio_code::FLUXIO_INVALID_ARG);
    let code = fluxio_headers_add(&mut headers, &b"".to_vec(), &b"v".to_vec());
    assert_eq!(code, fluxio_code::FLUXIO_INVALID_ARG);
    assert_eq!(fluxio_headers_foreach(&headers, &vec![]).len(), 0);
}

#[test]
fn headers_add_rejects_invalid_value() {
    let mut headers = fluxio_headers::default();
    let code = fluxio_headers_add(&mut headers, &b"X-A".to_vec(), &vec![0u8]);
    assert_eq!(code, fluxio_code::FLUXIO_INVALID_ARG);
}

#[test]
fn headers_set_overwrites_in_place() {
    let mut headers = fluxio_headers::default();
    assert_eq!(
        fluxio_headers_set(&mut headers, &b"X-First".to_vec(), &b"1".to_vec()),
        fluxio_code::FLUXIO_OK
    );
    fluxio_headers_add(&mut headers, &b"X-Second".to_vec(), &b"2".to_vec());
    // Overwriting X-First keeps its place at the front.
    assert_eq!(
        fluxio_headers_set(&mut headers, &b"x-fIRST".to_vec(), &b"one".to_vec()),
        fluxio_code::FLUXIO_OK
    );
    let pairs = fluxio_headers_foreach(&headers, &vec![FLUXIO_ITER_CONTINUE; 2]);
    let concatenated = concat_pairs(&pairs);
    assert_eq!(concatenated, b"x-fIRST: one\r\nX-Second: 2\r\n".to_vec());
}

#[test]
fn headers_foreach_break_stops_early() {
    let mut headers = fluxio_headers::default();
    fluxio_headers_add(&mut headers, &b"A".to_vec(), &b"1".to_vec());
    fluxio_headers_add(&mut headers, &b"B".to_vec(), &b"2".to_vec());
    fluxio_headers_add(&mut headers, &b"C".to_vec(), &b"3".to_vec());
    let decisions = vec![FLUXIO_ITER_CONTINUE, fluxio::FLUXIO_ITER_BREAK, FLUXIO_ITER_CONTINUE];
    let pairs = fluxio_headers_foreach(&headers, &decisions);
    // The pair whose callback declined is still delivered, then iteration stops.
    assert_eq!(pairs.len(), 2);
    assert_eq!(pairs[1].0, b"B".to_vec());
}

#[test]
fn raw_name_value_normalizes_and_copies() {
    let r = raw_name_value(&b"X-MiXeD".to_vec(), &b"v".to_vec()).unwrap();
    assert_eq!(r.0, b"x-mixed".to_vec());
    assert_eq!(r.1, b"v".to_vec());
    assert_eq!(r.2, b"X-MiXeD".to_vec());
    let e = raw_name_value(&b"bad name".to_vec(), &b"v".to_vec()).unwrap_err();
    assert_eq!(e, fluxio_code::FLUXIO_INVALID_ARG);
}
