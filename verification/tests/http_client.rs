//! Requests on the wire, their checks, and responses decoded in chunks.
use harbor::http_client::{
    Header, Protocol, ReqEncodable, Request, RequestIntegrityErrorKind, Response, ResponseDecoder,
    ResponseDecoderState,
};

fn request(protocol: Protocol, method: &str, headers: Vec<Header>, body: Option<&str>) -> Request {
    Request {
        method: String::from(method),
        request_target: String::from("/"),
        protocol,
        headers,
        body: body.map(String::from),
    }
}

#[test]
fn protocol_versions() {
    assert_eq!(Protocol::HTTP0_9.encode(), "");
    assert_eq!(Protocol::HTTP1_0.encode(), "HTTP/1.0");
    assert_eq!(Protocol::HTTP1_1.encode(), "HTTP/1.1");
    assert_eq!(Protocol::HTTP2_0.encode(), "HTTP/2.0");
    assert_eq!(Protocol::HTTP3_0.encode(), "HTTP/3.0");
}

#[test]
fn header_line() {
    let h = Header::new(String::from("Host"), String::from("a.b"));
    assert!(h.is_complete);
    assert_eq!(h.encode(), "Host: a.b\n");
    let mut e = Header::empty();
    assert!(!e.is_complete);
    e.mark_complete();
    assert!(e.is_complete);
}

#[test]
fn request_text_one_line_protocol() {
    let r = request(Protocol::HTTP0_9, "GET", vec![], None);
    assert_eq!(r.encode(), "GET /\r\n\r\n");
}

#[test]
fn request_text_with_headers_and_body() {
    let h = Header::new(String::from("Host"), String::from("example.com"));
    let r = request(Protocol::HTTP1_1, "GET", vec![h], None);
    assert_eq!(r.encode(), "GET / HTTP/1.1\r\nHost: example.com\n\r\n\r\n");
    let bare = request(Protocol::HTTP1_0, "GET", vec![], None);
    assert_eq!(bare.encode(), "GET / HTTP/1.0\r\n\r\n");
    let with_body = request(Protocol::HTTP1_1, "POST", vec![], Some("x=1"));
    assert_eq!(with_body.encode(), "POST / HTTP/1.1\r\n\r\nx=1\r\n\r\n");
}

#[test]
fn integrity_of_one_line_requests() {
    let ok = request(Protocol::HTTP0_9, "GET", vec![], None);
    assert!(ok.ensure_integrity(false).is_ok());
    let post = request(Protocol::HTTP0_9, "POST", vec![], None);
    let e = post.ensure_integrity(false).unwrap_err();
    assert!(matches!(e.kind, RequestIntegrityErrorKind::InvalidMethod));
    assert_eq!(e.message, "Only allowed method in HTTP/0.9 is 'GET', not POST");
    assert_eq!(e.describe(), "RequestIntegrityError: InvalidMethod\nInfo: Only allowed method in HTTP/0.9 is 'GET', not POST");
    let headers = request(
        Protocol::HTTP0_9,
        "GET",
        vec![Header::new(String::from("a"), String::from("b")), Header::new(String::from("c"), String::from("d"))],
        None,
    );
    let e = headers.ensure_integrity(false).unwrap_err();
    assert!(matches!(e.kind, RequestIntegrityErrorKind::InvalidHeaders));
    assert_eq!(e.message, "HTTP/0.9 must take 0 header, found 2");
    assert!(headers.ensure_integrity(true).is_ok());
    let body = request(Protocol::HTTP0_9, "GET", vec![], Some("x"));
    let e = body.ensure_integrity(true).unwrap_err();
    assert!(matches!(e.kind, RequestIntegrityErrorKind::InvalidBody));
    assert_eq!(e.message, "No request body allowed in HTTP/0.9, found 'x'");
    let other = request(Protocol::HTTP1_1, "POST", vec![], Some("x"));
    assert!(other.ensure_integrity(false).is_ok());
}

#[test]
fn response_in_one_chunk() {
    let mut d = ResponseDecoder::new();
    d.decode(b"HTTP/1.1 200 OK\r\nContent-Type: text/html\r\n\r\nhello");
    assert!(matches!(d.state, ResponseDecoderState::Body));
    let r = &d.response;
    assert!(matches!(r.protocol, Some(Protocol::HTTP1_1)));
    assert_eq!(r.status_code, Some(200));
    assert_eq!(r.reason.as_deref(), Some("OK"));
    assert_eq!(r.headers.len(), 1);
    assert_eq!(r.headers[0].name, "Content-Type");
    assert_eq!(r.headers[0].value, "text/html");
    assert!(r.headers[0].is_complete);
    assert_eq!(r.body.as_deref(), Some("hello"));
}

#[test]
fn response_over_several_chunks() {
    let mut d = ResponseDecoder::new();
    d.decode(b"HTTP/1.0 404 Not ");
    assert!(matches!(d.state, ResponseDecoderState::Reason));
    d.decode(b"Found\r\nX-A");
    d.decode(b"b: 1");
    d.decode(b"2\r\n\r\nbo");
    d.decode(b"dy");
    let r = &d.response;
    assert_eq!(r.status_code, Some(404));
    assert_eq!(r.reason.as_deref(), Some("Not Found"));
    assert_eq!(r.headers.len(), 1);
    assert_eq!(r.headers[0].name, "X-Ab");
    assert_eq!(r.headers[0].value, "12");
    assert_eq!(r.body.as_deref(), Some("body"));
}

#[test]
fn response_chunks_that_would_panic() {
    let mut short = ResponseDecoder::new();
    assert!(!short.decode_checked(b"HTTP/1.1"));
    let mut unknown = ResponseDecoder::new();
    assert!(!unknown.decode_checked(b"HTTP/9.9 200 OK"));
    let mut bad = ResponseDecoder::new();
    assert!(!bad.decode_checked(&[0xff, 0xfe]));
}

#[test]
fn one_line_protocol_body() {
    let mut r = Response::new();
    r.decode_body_chunk(b"hi\r\n\r\n");
    assert_eq!(r.body.as_deref(), Some("hi"));
    r.decode_body_chunk(b" there\0\0");
    r.strip_zeros();
    assert_eq!(r.body.as_deref(), Some("hi there"));
    let mut bad = Response::new();
    assert!(!bad.decode_body_chunk_checked(&[0xc3]));
    assert_eq!(bad.body, None);
}

fn summary(d: &ResponseDecoder) -> String {
    let r = &d.response;
    let mut out = format!("{:?}|{:?}|", r.status_code, r.reason);
    for h in &r.headers {
        out.push_str(&format!("{}={};{}|", h.name, h.value, h.is_complete));
    }
    out.push_str(&format!("{:?}", r.body));
    out
}

#[test]
fn decoding_in_pieces_equals_decoding_at_once() {
    let whole: &[u8] = b"HTTP/1.1 200 All Good\r\nContent-Type: text/html\r\nX-Id: 42\r\n\r\nhello world";
    let mut once = ResponseDecoder::new();
    once.decode(whole);
    // Cuts inside the reason, a header name, a header value and the body.
    for cut in [15usize, 19, 27, 45, 52, 70] {
        let mut twice = ResponseDecoder::new();
        twice.decode(&whole[..cut]);
        twice.decode(&whole[cut..]);
        assert_eq!(summary(&twice), summary(&once), "cut at {}", cut);
    }
    assert_eq!(
        summary(&once),
        "Some(200)|Some(\"All Good\")|Content-Type=text/html;true|X-Id=42;true|Some(\"hello world\")"
    );
}
