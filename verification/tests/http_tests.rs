use minlambda::http::{
    build_request_head, check_response_code, error, finish_scan, scan_headers, split_header,
    BodyFraming, HeaderScan,
};
use minlambda::codec::Body;
use minlambda::HttpError;

fn lines(raw: &[&[u8]]) -> Vec<Vec<u8>> {
    raw.iter().map(|l| l.to_vec()).collect()
}

#[test]
fn status_ok_codes_pass() {
    assert_eq!(check_response_code(b"HTTP/1.1 200"), Ok(()));
    assert_eq!(check_response_code(b"HTTP/1.1 204"), Ok(()));
    assert_eq!(check_response_code(b"HTTP/1.1 399"), Ok(()));
}

#[test]
fn status_error_codes_carry_the_code() {
    assert_eq!(check_response_code(b"HTTP/1.1 404"), Err(HttpError::ErrorCode(404)));
    assert_eq!(check_response_code(b"HTTP/1.1 500"), Err(HttpError::ErrorCode(500)));
    assert_eq!(check_response_code(b"HTTP/1.1 400"), Err(HttpError::ErrorCode(400)));
}

#[test]
fn malformed_status_lines_fail() {
    assert_eq!(check_response_code(b"HTTP/1.0 200"), Err(HttpError::MalformedResponse));
    assert_eq!(check_response_code(b"HTTP/1.1  20"), Err(HttpError::MalformedResponse));
    assert_eq!(check_response_code(b"HTTP/1.1 2x0"), Err(HttpError::MalformedResponse));
    assert_eq!(check_response_code(b"http/1.1 200"), Err(HttpError::MalformedResponse));
    assert_eq!(check_response_code(b"XTTP/1.1 200"), Err(HttpError::MalformedResponse));
}

#[test]
fn split_header_on_first_colon_and_trims() {
    assert_eq!(
        split_header(b"Content-Length: 42\r\n"),
        Some((b"Content-Length".to_vec(), b"42".to_vec()))
    );
    assert_eq!(
        split_header(b"a:b:c\r\n"),
        Some((b"a".to_vec(), b"b:c".to_vec()))
    );
    assert_eq!(split_header(b"no colon here\r\n"), None);
}

#[test]
fn scan_finds_headers_in_any_case() {
    let scan = scan_headers(&lines(&[
        b"Lambda-Runtime-Aws-Request-Id: abc-123\r\n",
        b"CONTENT-LENGTH: 10\r\n",
    ]));
    assert_eq!(scan.request_id, Some(b"abc-123".to_vec()));
    assert_eq!(scan.framing, Some(BodyFraming::Fixed(10)));

    let scan = scan_headers(&lines(&[
        b"lambda-runtime-aws-request-id: abc-123\r\n",
        b"content-length: 10\r\n",
    ]));
    assert_eq!(scan.request_id, Some(b"abc-123".to_vec()));
    assert_eq!(scan.framing, Some(BodyFraming::Fixed(10)));
}

#[test]
fn scan_prefers_first_valid_occurrence() {
    let scan = scan_headers(&lines(&[
        b"Content-Length: not-a-number\r\n",
        b"Content-Length: 7\r\n",
        b"Content-Length: 9\r\n",
        b"Lambda-Runtime-Aws-Request-Id: first\r\n",
        b"Lambda-Runtime-Aws-Request-Id: second\r\n",
    ]));
    assert_eq!(scan.request_id, Some(b"first".to_vec()));
    assert_eq!(scan.framing, Some(BodyFraming::Fixed(7)));
}

#[test]
fn scan_skips_overlarge_content_length() {
    let scan = scan_headers(&lines(&[
        b"Content-Length: 99999999999999999999999999\r\n",
        b"Content-Length: 18446744073709551615\r\n",
    ]));
    assert_eq!(scan.framing, Some(BodyFraming::Fixed(usize::MAX)));
}

#[test]
fn scan_requires_exact_chunked_value() {
    let scan = scan_headers(&lines(&[b"Transfer-Encoding: CHUNKED\r\n"]));
    assert_eq!(scan.framing, None);
}

#[test]
fn scan_selects_chunked_framing() {
    let scan = scan_headers(&lines(&[
        b"Transfer-Encoding: chunked\r\n",
        b"Content-Length: 5\r\n",
    ]));
    assert_eq!(scan.framing, Some(BodyFraming::Chunked));
}

#[test]
fn scan_skips_malformed_lines() {
    let scan = scan_headers(&lines(&[
        b"garbage without a colon\r\n",
        b"Transfer-Encoding: chunked\r\n",
    ]));
    assert_eq!(scan.framing, Some(BodyFraming::Chunked));
    assert_eq!(scan.request_id, None);
}

#[test]
fn finish_scan_demands_request_id_then_framing() {
    let nothing = HeaderScan { request_id: None, framing: None };
    assert_eq!(finish_scan(nothing), Err(HttpError::MissingRequestId));

    let no_framing = HeaderScan { request_id: Some(b"id".to_vec()), framing: None };
    assert_eq!(finish_scan(no_framing), Err(HttpError::UnknownBodyLength));

    let chunked = HeaderScan {
        request_id: Some(b"id".to_vec()),
        framing: Some(BodyFraming::Chunked),
    };
    let (id, body) = finish_scan(chunked).unwrap();
    assert_eq!(id, b"id");
    assert_eq!(body, Body { chunked: true, remaining: 0, done: false });

    let fixed = HeaderScan {
        request_id: Some(b"id".to_vec()),
        framing: Some(BodyFraming::Fixed(9)),
    };
    let (_, body) = finish_scan(fixed).unwrap();
    assert_eq!(body, Body { chunked: false, remaining: 9, done: false });
}

#[test]
fn request_head_for_get() {
    let head = build_request_head(b"GET", b"invocation/next", b"127.0.0.1:9001", false);
    assert_eq!(
        head,
        b"GET /2018-06-01/runtime/invocation/next HTTP/1.1\r\nhost: 127.0.0.1:9001\r\n\r\n"
    );
}

#[test]
fn request_head_for_post_adds_chunked_header() {
    let head = build_request_head(b"POST", b"init/error", b"host", true);
    assert_eq!(
        head,
        b"POST /2018-06-01/runtime/init/error HTTP/1.1\r\nhost: host\r\ntransfer-encoding: chunked\r\n\r\n"
    );
}

#[test]
fn error_builds_invalid_data_error() {
    match error("missing request ID") {
        HttpError::Invalid(m) => assert_eq!(m, "missing request ID"),
        other => panic!("unexpected error: {:?}", other),
    }
}
