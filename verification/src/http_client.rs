//! The HTTP/1.x client's logic: encoding requests, checking that a request
//! suits its protocol, and decoding a response that arrives in chunks.
use vstd::prelude::*;
use vstd::utf8::{decode_utf8, encode_utf8, encode_scalar, valid_utf8};
use vstd::slice::slice_to_vec;
use crate::text::{chars_of, push_char, push_decimal, push_str, string_from, string_of, decimal};
use crate::http::{find_from, find_char};
use crate::http::url::ipv4::{from_str_radix, from_str_radix_u32, is_unicode_whitespace, unicode_whitespace};
use crate::http::url::percent::utf8_decode_checked;

verus! {

/// The fewest bytes that the first chunk of a response may hold.
pub const MINIMUM_CHUNK_LENGTH: usize = 8;

/// The size of the chunks in which a response is read.
pub const CHUNK_LENGTH: usize = 512;

/// A part of a request with a textual form on the wire.
pub trait ReqEncodable {
    /// The text that `encode` writes.
    spec fn encoded(&self) -> Seq<char>;

    fn encode(&self) -> (r: String)
        ensures
            r@ == self.encoded(),
    ;
}

/// The HTTP protocol with which a request is encoded and sent.
#[derive(Debug)]
pub enum Protocol {
    HTTP0_9,
    HTTP1_0,
    HTTP1_1,
    HTTP2_0,
    HTTP3_0,
}

/// The version text of a protocol; empty for HTTP/0.9.
pub open spec fn protocol_text(p: Protocol) -> Seq<char> {
    match p {
        Protocol::HTTP0_9 => Seq::empty(),
        Protocol::HTTP1_0 => seq!['H', 'T', 'T', 'P', '/', '1', '.', '0'],
        Protocol::HTTP1_1 => seq!['H', 'T', 'T', 'P', '/', '1', '.', '1'],
        Protocol::HTTP2_0 => seq!['H', 'T', 'T', 'P', '/', '2', '.', '0'],
        Protocol::HTTP3_0 => seq!['H', 'T', 'T', 'P', '/', '3', '.', '0'],
    }
}

/// Appends the characters of `t` to `s`.
fn push_chars(s: &mut String, t: &[char])
    ensures
        final(s)@ == old(s)@ + t@,
{
    let mut i: usize = 0;
    let ghost start = s@;
    while i < t.len()
        invariant
            i <= t@.len(),
            s@ == start + t@.take(i as int),
        decreases t@.len() - i,
    {
        assert(t@.take(i + 1) =~= t@.take(i as int).push(t@[i as int]));
        push_char(s, t[i]);
        i = i + 1;
    }
    assert(t@.take(t@.len() as int) =~= t@);
}

impl ReqEncodable for Protocol {
    open spec fn encoded(&self) -> Seq<char> {
        protocol_text(*self)
    }

    fn encode(&self) -> (r: String) {
        let mut out = String::new();
        match self {
            Protocol::HTTP0_9 => {},
            Protocol::HTTP1_0 => {
                let t = ['H', 'T', 'T', 'P', '/', '1', '.', '0'];
                push_chars(&mut out, &t);
                assert(out@ =~= protocol_text(*self));
            },
            Protocol::HTTP1_1 => {
                let t = ['H', 'T', 'T', 'P', '/', '1', '.', '1'];
                push_chars(&mut out, &t);
                assert(out@ =~= protocol_text(*self));
            },
            Protocol::HTTP2_0 => {
                let t = ['H', 'T', 'T', 'P', '/', '2', '.', '0'];
                push_chars(&mut out, &t);
                assert(out@ =~= protocol_text(*self));
            },
            Protocol::HTTP3_0 => {
                let t = ['H', 'T', 'T', 'P', '/', '3', '.', '0'];
                push_chars(&mut out, &t);
                assert(out@ =~= protocol_text(*self));
            },
        }
        out
    }
}

/// A header of a request or response; a header of a response is complete
/// once its value has ended.
#[derive(Debug)]
pub struct Header {
    pub name: String,
    pub value: String,
    pub is_complete: bool,
}

/// The mathematical form of a header.
#[verifier::ext_equal]
pub struct HeaderView {
    pub name: Seq<char>,
    pub value: Seq<char>,
    pub is_complete: bool,
}

impl View for Header {
    type V = HeaderView;

    open spec fn view(&self) -> HeaderView {
        HeaderView { name: self.name@, value: self.value@, is_complete: self.is_complete }
    }
}

impl Header {
    /// A header with no name and no value, not complete.
    pub fn empty() -> (r: Self)
        ensures
            r@ == (HeaderView { name: Seq::empty(), value: Seq::empty(), is_complete: false }),
    {
        Self { name: String::new(), value: String::new(), is_complete: false }
    }

    /// A complete header.
    pub fn new(name: String, value: String) -> (r: Self)
        ensures
            r@ == (HeaderView { name: name@, value: value@, is_complete: true }),
    {
        Self { name, value, is_complete: true }
    }

    pub fn mark_complete(&mut self)
        ensures
            final(self)@ == (HeaderView { is_complete: true, ..old(self)@ }),
    {
        self.is_complete = true;
    }
}

/// The line of a header: the name, `: `, the value and a newline.
pub open spec fn header_text(h: HeaderView) -> Seq<char> {
    h.name + seq![':', ' '] + h.value + seq!['\n']
}

impl ReqEncodable for Header {
    open spec fn encoded(&self) -> Seq<char> {
        header_text(self@)
    }

    fn encode(&self) -> (r: String) {
        let mut out = self.name.clone();
        push_char(&mut out, ':');
        push_char(&mut out, ' ');
        push_str(&mut out, self.value.as_str());
        push_char(&mut out, '\n');
        assert(out@ =~= header_text(self@));
        out
    }
}

/// The views of a list of headers.
pub open spec fn header_views(v: Seq<Header>) -> Seq<HeaderView> {
    v.map_values(|h: Header| h@)
}

/// The lines of a list of headers, one after the other.
pub open spec fn headers_text(hs: Seq<HeaderView>) -> Seq<char>
    decreases hs.len(),
{
    if hs.len() == 0 {
        Seq::empty()
    } else {
        headers_text(hs.drop_last()) + header_text(hs.last())
    }
}

/// A request: method, target, protocol, headers and an optional body.
pub struct Request {
    pub method: String,
    pub request_target: String,
    pub protocol: Protocol,
    pub headers: Vec<Header>,
    pub body: Option<String>,
}

/// `s` ends with a carriage return and a line feed.
pub open spec fn ends_with_crlf(s: Seq<char>) -> bool {
    s.len() >= 2 && s[s.len() - 2] == '\r' && s[s.len() - 1] == '\n'
}

/// The text of a request. HTTP/0.9: the method, a space, the target and an
/// empty line. Otherwise: the request line with the protocol, the header
/// lines, the body after a line break if there is one; then one line break
/// at the end is dropped and an empty line ends the request.
pub open spec fn request_text(r: &Request) -> Seq<char> {
    match r.protocol {
        Protocol::HTTP0_9 => r.method@ + seq![' '] + r.request_target@ + seq!['\r', '\n', '\r', '\n'],
        _ => {
            let pre = r.method@ + seq![' '] + r.request_target@ + seq![' '] + protocol_text(r.protocol)
                + seq!['\r', '\n'] + headers_text(header_views(r.headers@)) + match r.body {
                Some(b) => seq!['\r', '\n'] + b@,
                None => Seq::empty(),
            };
            let stripped = if ends_with_crlf(pre) {
                pre.take(pre.len() - 2)
            } else {
                pre
            };
            stripped + seq!['\r', '\n', '\r', '\n']
        },
    }
}

/// A request of a protocol after HTTP/0.9 with a body is encoded as its
/// request line, its header lines, a line break, the body and an empty
/// line, however many headers it has (where the body does not itself end
/// with a line break, which the encoding would drop).
pub proof fn lemma_request_body_after_line_break(r: &Request)
    requires
        !(r.protocol is HTTP0_9),
        r.body is Some,
        !ends_with_crlf(seq!['\r', '\n'] + r.body->0@),
    ensures
        request_text(r) == r.method@ + seq![' '] + r.request_target@ + seq![' '] + protocol_text(r.protocol) + seq![
            '\r',
            '\n',
        ] + headers_text(header_views(r.headers@)) + seq!['\r', '\n'] + r.body->0@ + seq!['\r', '\n', '\r', '\n'],
{
    let head = r.method@ + seq![' '] + r.request_target@ + seq![' '] + protocol_text(r.protocol) + seq!['\r', '\n']
        + headers_text(header_views(r.headers@));
    let tail = seq!['\r', '\n'] + r.body->0@;
    let pre = head + tail;
    assert(pre[pre.len() - 2] == tail[tail.len() - 2]);
    assert(pre[pre.len() - 1] == tail[tail.len() - 1]);
    assert(!ends_with_crlf(pre));
    assert(request_text(r) == pre + seq!['\r', '\n', '\r', '\n']);
    assert(pre + seq!['\r', '\n', '\r', '\n'] =~= head + seq!['\r', '\n'] + r.body->0@ + seq!['\r', '\n', '\r', '\n']);
}

/// The request text with one line break at its end dropped, and an empty
/// line after it.
fn finish_request(request: String) -> (out: String)
    ensures
        out@ == (if ends_with_crlf(request@) {
            request@.take(request@.len() - 2)
        } else {
            request@
        }) + seq!['\r', '\n', '\r', '\n'],
{
    let chars = chars_of(request.as_str());
    let n = chars.len();
    let mut out = if n >= 2 && chars[n - 2] == '\r' && chars[n - 1] == '\n' {
        string_of(chars.as_slice(), 0, n - 2)
    } else {
        string_from(chars.as_slice())
    };
    push_char(&mut out, '\r');
    push_char(&mut out, '\n');
    push_char(&mut out, '\r');
    push_char(&mut out, '\n');
    out
}

impl ReqEncodable for Request {
    open spec fn encoded(&self) -> Seq<char> {
        request_text(self)
    }

    #[verifier::rlimit(40)]
    fn encode(&self) -> (r: String) {
        match self.protocol {
            Protocol::HTTP0_9 => {
                let mut out = self.method.clone();
                push_char(&mut out, ' ');
                push_str(&mut out, self.request_target.as_str());
                push_char(&mut out, '\r');
                push_char(&mut out, '\n');
                push_char(&mut out, '\r');
                push_char(&mut out, '\n');
                assert(out@ =~= request_text(self));
                out
            },
            _ => {
                let mut request = self.method.clone();
                push_char(&mut request, ' ');
                push_str(&mut request, self.request_target.as_str());
                push_char(&mut request, ' ');
                let p = self.protocol.encode();
                push_str(&mut request, p.as_str());
                push_char(&mut request, '\r');
                push_char(&mut request, '\n');
                let ghost line = request@;
                let mut i: usize = 0;
                while i < self.headers.len()
                    invariant
                        i <= self.headers@.len(),
                        request@ == line + headers_text(header_views(self.headers@).take(i as int)),
                    decreases self.headers@.len() - i,
                {
                    assert(header_views(self.headers@).take(i + 1).drop_last() =~= header_views(self.headers@).take(i as int));
                    let h = self.headers[i].encode();
                    push_str(&mut request, h.as_str());
                    i = i + 1;
                }
                assert(header_views(self.headers@).take(self.headers@.len() as int) =~= header_views(self.headers@));
                if let Some(body) = &self.body {
                    push_char(&mut request, '\r');
                    push_char(&mut request, '\n');
                    push_str(&mut request, body.as_str());
                }
                let out = finish_request(request);
                assert(out@ =~= request_text(self));
                out
            },
        }
    }
}

/// What a request breaks.
#[derive(Debug)]
pub enum RequestIntegrityErrorKind {
    InvalidMethod,
    InvalidHeaders,
    InvalidBody,
}

/// Why a request does not suit its protocol.
#[derive(Debug)]
pub struct RequestIntegrityError {
    pub kind: RequestIntegrityErrorKind,
    pub message: String,
}

/// The name of a kind of integrity error.
pub open spec fn kind_name(k: RequestIntegrityErrorKind) -> Seq<char> {
    match k {
        RequestIntegrityErrorKind::InvalidMethod => "InvalidMethod"@,
        RequestIntegrityErrorKind::InvalidHeaders => "InvalidHeaders"@,
        RequestIntegrityErrorKind::InvalidBody => "InvalidBody"@,
    }
}

impl RequestIntegrityError {
    /// The error as text: its kind and its message.
    pub fn describe(&self) -> (r: String)
        ensures
            r@ == "RequestIntegrityError: "@ + kind_name(self.kind) + "\nInfo: "@ + self.message@,
    {
        let mut out = "RequestIntegrityError: ".to_owned();
        let name = match self.kind {
            RequestIntegrityErrorKind::InvalidMethod => "InvalidMethod",
            RequestIntegrityErrorKind::InvalidHeaders => "InvalidHeaders",
            RequestIntegrityErrorKind::InvalidBody => "InvalidBody",
        };
        push_str(&mut out, name);
        push_str(&mut out, "\nInfo: ");
        push_str(&mut out, self.message.as_str());
        out
    }
}

/// The method is `GET`.
pub open spec fn is_get(m: Seq<char>) -> bool {
    m == seq!['G', 'E', 'T']
}

impl Request {
    /// Checks that the request suits HTTP/0.9 when it uses it: only `GET`,
    /// no headers (both unless the client is permissive), and no body.
    /// Other protocols take any request.
    pub fn ensure_integrity(&self, permissive: bool) -> (r: Result<(), RequestIntegrityError>)
        ensures
            match r {
                Ok(()) => !(self.protocol is HTTP0_9) || ((is_get(self.method@) || permissive)
                    && (self.headers@.len() == 0 || permissive) && self.body is None),
                Err(e) => {
                    &&& self.protocol is HTTP0_9
                    &&& if !is_get(self.method@) && !permissive {
                        &&& e.kind is InvalidMethod
                        &&& e.message@ == "Only allowed method in HTTP/0.9 is 'GET', not "@ + self.method@
                    } else if self.headers@.len() != 0 && !permissive {
                        &&& e.kind is InvalidHeaders
                        &&& e.message@ == "HTTP/0.9 must take 0 header, found "@ + decimal(self.headers@.len())
                    } else {
                        &&& self.body is Some
                        &&& e.kind is InvalidBody
                        &&& e.message@ == "No request body allowed in HTTP/0.9, found '"@ + self.body->0@ + "'"@
                    }
                },
            },
    {
        match self.protocol {
            Protocol::HTTP0_9 => {
                let get = ['G', 'E', 'T'];
                assert(get@ =~= seq!['G', 'E', 'T']);
                if !crate::http::url::string_is(&self.method, &get) && !permissive {
                    let mut message = "Only allowed method in HTTP/0.9 is 'GET', not ".to_owned();
                    push_str(&mut message, self.method.as_str());
                    return Err(RequestIntegrityError { kind: RequestIntegrityErrorKind::InvalidMethod, message });
                }
                if self.headers.len() != 0 && !permissive {
                    let mut message = "HTTP/0.9 must take 0 header, found ".to_owned();
                    push_decimal(&mut message, self.headers.len() as u64);
                    return Err(RequestIntegrityError { kind: RequestIntegrityErrorKind::InvalidHeaders, message });
                }
                if let Some(body) = &self.body {
                    let mut message = "No request body allowed in HTTP/0.9, found '".to_owned();
                    push_str(&mut message, body.as_str());
                    push_str(&mut message, "'");
                    return Err(RequestIntegrityError { kind: RequestIntegrityErrorKind::InvalidBody, message });
                }
                Ok(())
            },
            _ => Ok(()),
        }
    }
}

/// Where the response decoder is in the response.
#[derive(Debug)]
pub enum ResponseDecoderState {
    /// The protocol, read whole from the first chunk.
    Protocol,
    /// The status code.
    Status,
    /// The reason phrase, possibly over several chunks.
    Reason,
    /// A header name, possibly over several chunks.
    HeaderName,
    /// A header value, possibly over several chunks.
    HeaderValue,
    /// The body.
    Body,
}

/// A response. The fields are optional: an HTTP/0.9 response is a body alone.
#[derive(Debug)]
pub struct Response {
    pub protocol: Option<Protocol>,
    pub status_code: Option<u32>,
    pub reason: Option<String>,
    pub headers: Vec<Header>,
    /// Some responses (201 Created, 204 No Content) have no body.
    pub body: Option<String>,
}

/// The mathematical form of a response.
#[verifier::ext_equal]
pub struct ResponseView {
    pub protocol: Option<Protocol>,
    pub status_code: Option<u32>,
    pub reason: Option<Seq<char>>,
    pub headers: Seq<HeaderView>,
    pub body: Option<Seq<char>>,
}

/// The view of an optional string.
pub open spec fn opt_chars(s: Option<String>) -> Option<Seq<char>> {
    match s {
        Some(x) => Some(x@),
        None => None,
    }
}

impl View for Response {
    type V = ResponseView;

    open spec fn view(&self) -> ResponseView {
        ResponseView {
            protocol: self.protocol,
            status_code: self.status_code,
            reason: opt_chars(self.reason),
            headers: header_views(self.headers@),
            body: opt_chars(self.body),
        }
    }
}

/// The empty response.
pub open spec fn empty_response() -> ResponseView {
    ResponseView { protocol: None, status_code: None, reason: None, headers: Seq::empty(), body: None }
}

impl Default for Response {
    fn default() -> (r: Self)
        ensures
            r@ == empty_response(),
    {
        let r = Response { protocol: None, status_code: None, reason: None, headers: Vec::new(), body: None };
        assert(header_views(Seq::<Header>::empty()) =~= Seq::<HeaderView>::empty());
        r
    }
}

/// `t` appended to an optional text, which starts empty.
pub open spec fn append_opt(o: Option<Seq<char>>, t: Seq<char>) -> Option<Seq<char>> {
    match o {
        Some(c) => Some(c + t),
        None => Some(t),
    }
}

/// Part of a header name: the last header grows when it is not complete,
/// else a new header starts with it.
pub open spec fn add_name(hs: Seq<HeaderView>, t: Seq<char>) -> Seq<HeaderView> {
    if hs.len() > 0 && !hs.last().is_complete {
        hs.update(hs.len() - 1, HeaderView { name: hs.last().name + t, ..hs.last() })
    } else {
        hs.push(HeaderView { name: t, value: Seq::empty(), is_complete: false })
    }
}

/// Part of a header value, added to the last header (and completing it with
/// `complete`); `None` when there is no header.
pub open spec fn add_value(hs: Seq<HeaderView>, t: Seq<char>, complete: bool) -> Option<Seq<HeaderView>> {
    if hs.len() == 0 {
        None
    } else {
        Some(
            hs.update(
                hs.len() - 1,
                HeaderView { value: hs.last().value + t, is_complete: hs.last().is_complete || complete, ..hs.last() },
            ),
        )
    }
}

/// Where the run of `c` that starts at `i` ends.
pub open spec fn skip_while_eq(s: Seq<char>, c: char, i: int) -> int
    decreases s.len() - i,
{
    if 0 <= i < s.len() && s[i] == c {
        skip_while_eq(s, c, i + 1)
    } else {
        i
    }
}

/// Where the run of Unicode white space that starts at `i` ends.
pub open spec fn skip_white(s: Seq<char>, i: int) -> int
    decreases s.len() - i,
{
    if 0 <= i < s.len() && is_unicode_whitespace(s[i]) {
        skip_white(s, i + 1)
    } else {
        i
    }
}

/// The first carriage return and line feed in `s` from `i` on.
pub open spec fn find_crlf(s: Seq<char>, i: int) -> Option<int>
    decreases s.len() - i,
{
    if i < 0 || i + 2 > s.len() {
        None
    } else if s[i] == '\r' && s[i + 1] == '\n' {
        Some(i)
    } else {
        find_crlf(s, i + 1)
    }
}

pub proof fn lemma_skip_while_eq_bound(s: Seq<char>, c: char, i: int)
    requires
        0 <= i <= s.len(),
    ensures
        i <= skip_while_eq(s, c, i) <= s.len(),
    decreases s.len() - i,
{
    if i < s.len() && s[i] == c {
        lemma_skip_while_eq_bound(s, c, i + 1);
    }
}

pub proof fn lemma_skip_white_bound(s: Seq<char>, i: int)
    requires
        0 <= i <= s.len(),
    ensures
        i <= skip_white(s, i) <= s.len(),
    decreases s.len() - i,
{
    if i < s.len() && is_unicode_whitespace(s[i]) {
        lemma_skip_white_bound(s, i + 1);
    }
}

pub proof fn lemma_find_from_bound(s: Seq<char>, c: char, i: int)
    ensures
        find_from(s, c, i) matches Some(k) ==> i <= k < s.len() && s[k] == c,
    decreases s.len() - i,
{
    if 0 <= i < s.len() && s[i] != c {
        lemma_find_from_bound(s, c, i + 1);
    }
}

pub proof fn lemma_find_crlf_bound(s: Seq<char>, i: int)
    ensures
        find_crlf(s, i) matches Some(k) ==> i <= k && k + 2 <= s.len(),
    decreases s.len() - i,
{
    if i >= 0 && i + 2 <= s.len() && !(s[i] == '\r' && s[i + 1] == '\n') {
        lemma_find_crlf_bound(s, i + 1);
    }
}

/// The protocol named by a version text, if it is one of the four known.
pub open spec fn protocol_of(t: Seq<char>) -> Option<Protocol> {
    if t == protocol_text(Protocol::HTTP1_0) {
        Some(Protocol::HTTP1_0)
    } else if t == protocol_text(Protocol::HTTP1_1) {
        Some(Protocol::HTTP1_1)
    } else if t == protocol_text(Protocol::HTTP2_0) {
        Some(Protocol::HTTP2_0)
    } else if t == protocol_text(Protocol::HTTP3_0) {
        Some(Protocol::HTTP3_0)
    } else {
        None
    }
}

/// The decoder on a text, with the leading spaces dropped first: the state
/// and the response it ends with, or `None` on a text it refuses (a
/// first chunk of 8 bytes or fewer, a missing space after the protocol or
/// the status, an unknown protocol, a status that is not a number, a header
/// value before any header). A state that ends its part goes on with the
/// rest of the text.
pub open spec fn decode_text(st: ResponseDecoderState, r: ResponseView, s: Seq<char>) -> Option<(ResponseDecoderState, ResponseView)>
    decreases s.len(),
{
    let k = skip_while_eq(s, ' ', 0);
    let d = s.skip(k);
    proof {
        lemma_skip_while_eq_bound(s, ' ', 0);
    }
    match st {
        ResponseDecoderState::Protocol => if encode_utf8(d).len() <= 8 {
            None
        } else {
            match find_from(d, ' ', 0) {
                None => None,
                Some(i) => {
                    proof {
                        lemma_find_from_bound(d, ' ', 0);
                    }
                    match protocol_of(d.take(i)) {
                        None => None,
                        Some(p) => decode_text(
                            ResponseDecoderState::Status,
                            ResponseView { protocol: Some(p), ..r },
                            d.skip(i + 1),
                        ),
                    }
                },
            }
        },
        ResponseDecoderState::Status => if encode_utf8(d).len() < 3 {
            Some((st, r))
        } else {
            match find_from(d, ' ', 0) {
                None => None,
                Some(i) => {
                    proof {
                        lemma_find_from_bound(d, ' ', 0);
                    }
                    match from_str_radix_u32(d.take(i), 10) {
                        None => None,
                        Some(code) => decode_text(
                            ResponseDecoderState::Reason,
                            ResponseView { status_code: Some(code), ..r },
                            d.skip(i + 1),
                        ),
                    }
                },
            }
        },
        ResponseDecoderState::Reason => if d.len() == 0 {
            Some((st, r))
        } else if find_crlf(d, 0) == Some(0int) {
            decode_text(ResponseDecoderState::HeaderName, r, d.skip(2))
        } else {
            match find_crlf(d, 0) {
                Some(j) => {
                    proof {
                        lemma_find_crlf_bound(d, 0);
                    }
                    decode_text(
                        ResponseDecoderState::HeaderName,
                        ResponseView { reason: append_opt(r.reason, d.take(j)), ..r },
                        d.skip(j + 2),
                    )
                },
                None => Some((st, ResponseView { reason: append_opt(r.reason, d), ..r })),
            }
        },
        ResponseDecoderState::HeaderName => if d.len() == 0 {
            Some((st, r))
        } else if d[0] == ':' {
            let rest = d.skip(1);
            proof {
                lemma_skip_white_bound(rest, 0);
            }
            decode_text(ResponseDecoderState::HeaderValue, r, rest.skip(skip_white(rest, 0)))
        } else if find_crlf(d, 0) == Some(0int) {
            decode_text(ResponseDecoderState::Body, r, d.skip(2))
        } else {
            match find_from(d, ':', 0) {
                Some(j) => {
                    proof {
                        lemma_find_from_bound(d, ':', 0);
                    }
                    decode_text(
                        ResponseDecoderState::HeaderValue,
                        ResponseView { headers: add_name(r.headers, d.take(j)), ..r },
                        d.skip(j + 1),
                    )
                },
                None => Some((st, ResponseView { headers: add_name(r.headers, d), ..r })),
            }
        },
        ResponseDecoderState::HeaderValue => if d.len() == 0 {
            Some((st, r))
        } else if find_crlf(d, 0) == Some(0int) {
            match add_value(r.headers, Seq::empty(), true) {
                None => None,
                Some(h) => decode_text(ResponseDecoderState::HeaderName, ResponseView { headers: h, ..r }, d.skip(2)),
            }
        } else {
            match find_crlf(d, 0) {
                Some(j) => {
                    proof {
                        lemma_find_crlf_bound(d, 0);
                    }
                    match add_value(r.headers, d.take(j), true) {
                        None => None,
                        Some(h) => decode_text(
                            ResponseDecoderState::HeaderName,
                            ResponseView { headers: h, ..r },
                            d.skip(j + 2),
                        ),
                    }
                },
                None => match add_value(r.headers, d, false) {
                    None => None,
                    Some(h) => Some((st, ResponseView { headers: h, ..r })),
                },
            }
        },
        ResponseDecoderState::Body => if d.len() == 0 {
            Some((st, r))
        } else {
            Some((st, ResponseView { body: append_opt(r.body, d), ..r }))
        },
    }
}

/// A position found in `b`, moved past `a`.
pub open spec fn shifted(o: Option<int>, n: int) -> Option<int> {
    match o {
        Some(j) => Some(j + n),
        None => None,
    }
}

proof fn lemma_find_from_concat(a: Seq<char>, b: Seq<char>, c: char, i: int)
    requires
        0 <= i <= a.len(),
    ensures
        find_from(a + b, c, i) == match find_from(a, c, i) {
            Some(j) => Some(j),
            None => shifted(find_from(b, c, 0), a.len() as int),
        },
    decreases a.len() - i,
{
    if i < a.len() {
        assert((a + b)[i] == a[i]);
        lemma_find_from_concat(a, b, c, i + 1);
    } else {
        lemma_find_from_shift(a, b, c, 0);
    }
}

proof fn lemma_find_from_shift(a: Seq<char>, b: Seq<char>, c: char, j: int)
    requires
        0 <= j <= b.len(),
    ensures
        find_from(a + b, c, a.len() + j) == shifted(find_from(b, c, j), a.len() as int),
    decreases b.len() - j,
{
    if j < b.len() {
        assert((a + b)[a.len() + j] == b[j]);
        lemma_find_from_shift(a, b, c, j + 1);
    }
}

proof fn lemma_find_crlf_concat(a: Seq<char>, b: Seq<char>, i: int)
    requires
        0 <= i <= a.len(),
        !(a.len() > i && a.last() == '\r' && b.len() > 0 && b[0] == '\n'),
    ensures
        find_crlf(a + b, i) == match find_crlf(a, i) {
            Some(j) => Some(j),
            None => shifted(find_crlf(b, 0), a.len() as int),
        },
    decreases a.len() - i,
{
    if i + 2 <= a.len() {
        assert((a + b)[i] == a[i]);
        assert((a + b)[i + 1] == a[i + 1]);
        lemma_find_crlf_concat(a, b, i + 1);
    } else if i + 1 == a.len() {
        if b.len() > 0 {
            assert((a + b)[i] == a[i]);
            assert((a + b)[i + 1] == b[0]);
        }
        lemma_find_crlf_shift(a, b, 0);
    } else {
        lemma_find_crlf_shift(a, b, 0);
    }
}

proof fn lemma_find_crlf_prefix(a: Seq<char>, b: Seq<char>, i: int)
    requires
        0 <= i,
        find_crlf(a, i) is Some,
    ensures
        find_crlf(a + b, i) == find_crlf(a, i),
    decreases a.len() - i,
{
    assert((a + b)[i] == a[i]);
    assert((a + b)[i + 1] == a[i + 1]);
    if !(a[i] == '\r' && a[i + 1] == '\n') {
        lemma_find_crlf_prefix(a, b, i + 1);
    }
}

proof fn lemma_find_crlf_shift(a: Seq<char>, b: Seq<char>, j: int)
    requires
        0 <= j <= b.len(),
    ensures
        find_crlf(a + b, a.len() + j) == shifted(find_crlf(b, j), a.len() as int),
    decreases b.len() - j,
{
    if j + 2 <= b.len() {
        assert((a + b)[a.len() + j] == b[j]);
        assert((a + b)[a.len() + j + 1] == b[j + 1]);
        lemma_find_crlf_shift(a, b, j + 1);
    }
}

proof fn lemma_skip_eq_concat(a: Seq<char>, b: Seq<char>, c: char, i: int)
    requires
        0 <= i <= a.len(),
    ensures
        skip_while_eq(a + b, c, i) == if skip_while_eq(a, c, i) < a.len() {
            skip_while_eq(a, c, i)
        } else {
            a.len() + skip_while_eq(b, c, 0)
        },
    decreases a.len() - i,
{
    lemma_skip_while_eq_bound(a, c, i);
    if i < a.len() {
        assert((a + b)[i] == a[i]);
        lemma_skip_eq_concat(a, b, c, i + 1);
    } else {
        lemma_skip_eq_shift(a, b, c, 0);
    }
}

proof fn lemma_skip_eq_shift(a: Seq<char>, b: Seq<char>, c: char, j: int)
    requires
        0 <= j <= b.len(),
    ensures
        skip_while_eq(a + b, c, a.len() + j) == a.len() + skip_while_eq(b, c, j),
    decreases b.len() - j,
{
    if j < b.len() {
        assert((a + b)[a.len() + j] == b[j]);
        lemma_skip_eq_shift(a, b, c, j + 1);
    }
}

proof fn lemma_skip_white_concat(a: Seq<char>, b: Seq<char>, i: int)
    requires
        0 <= i <= a.len(),
    ensures
        skip_white(a + b, i) == if skip_white(a, i) < a.len() {
            skip_white(a, i)
        } else {
            a.len() + skip_white(b, 0)
        },
    decreases a.len() - i,
{
    lemma_skip_white_bound(a, i);
    if i < a.len() {
        assert((a + b)[i] == a[i]);
        lemma_skip_white_concat(a, b, i + 1);
    } else {
        lemma_skip_white_shift(a, b, 0);
    }
}

proof fn lemma_skip_white_shift(a: Seq<char>, b: Seq<char>, j: int)
    requires
        0 <= j <= b.len(),
    ensures
        skip_white(a + b, a.len() + j) == a.len() + skip_white(b, j),
    decreases b.len() - j,
{
    if j < b.len() {
        assert((a + b)[a.len() + j] == b[j]);
        lemma_skip_white_shift(a, b, j + 1);
    }
}

/// `s` starts with `c`.
pub open spec fn starts_with_char(s: Seq<char>, c: char) -> bool {
    s.len() > 0 && s[0] == c
}

/// Where decoding `a` stops, `b` may follow it as a second read: `a` gets
/// past the status code, and at the cut `b` does not start with a space,
/// does not complete a carriage return and line feed that `a` began in a
/// reason, header name or header value, does not start the blank line or
/// the colon of a header whose name `a` began (with other white space than
/// spaces after that colon), and does not start with other white space
/// than spaces where `a` ended after a header name's colon.
pub open spec fn cut_ok(st: ResponseDecoderState, a: Seq<char>, b: Seq<char>) -> bool
    decreases a.len(),
{
    let k = skip_while_eq(a, ' ', 0);
    let d = a.skip(k);
    if !(0 <= k <= a.len()) {
        false
    } else {
        match st {
            ResponseDecoderState::Protocol => match find_from(d, ' ', 0) {
                Some(i) => 0 <= i < d.len() && cut_ok(ResponseDecoderState::Status, d.skip(i + 1), b),
                None => false,
            },
            ResponseDecoderState::Status => if encode_utf8(d).len() < 3 {
                false
            } else {
                match find_from(d, ' ', 0) {
                    Some(i) => 0 <= i < d.len() && cut_ok(ResponseDecoderState::Reason, d.skip(i + 1), b),
                    None => false,
                }
            },
            ResponseDecoderState::Reason => if d.len() == 0 {
                true
            } else {
                match find_crlf(d, 0) {
                    Some(j) => 0 <= j && j + 2 <= d.len() && cut_ok(ResponseDecoderState::HeaderName, d.skip(j + 2), b),
                    None => !(d.last() == '\r' && starts_with_char(b, '\n')),
                }
            },
            ResponseDecoderState::HeaderName => if d.len() == 0 {
                true
            } else if d[0] == ':' {
                let rest = d.skip(1);
                let w = skip_white(rest, 0);
                if 0 <= w < rest.len() {
                    cut_ok(ResponseDecoderState::HeaderValue, rest.skip(w), b)
                } else {
                    skip_white(b, 0) == 0
                }
            } else if find_crlf(d, 0) == Some(0int) {
                cut_ok(ResponseDecoderState::Body, d.skip(2), b)
            } else {
                match find_from(d, ':', 0) {
                    Some(j) => 0 <= j < d.len() && cut_ok(ResponseDecoderState::HeaderValue, d.skip(j + 1), b),
                    None => {
                        &&& !(starts_with_char(b, '\r') && b.len() > 1 && b[1] == '\n')
                        &&& !(d.len() == 1 && d[0] == '\r' && starts_with_char(b, '\n'))
                        &&& starts_with_char(b, ':') ==> skip_white(b.skip(1), 0) == skip_while_eq(b.skip(1), ' ', 0)
                    },
                }
            },
            ResponseDecoderState::HeaderValue => if d.len() == 0 {
                true
            } else {
                match find_crlf(d, 0) {
                    Some(j) => 0 <= j && j + 2 <= d.len() && cut_ok(ResponseDecoderState::HeaderName, d.skip(j + 2), b),
                    None => !(d.last() == '\r' && starts_with_char(b, '\n')),
                }
            },
            ResponseDecoderState::Body => true,
        }
    }
}

proof fn lemma_add_name_twice(h: Seq<HeaderView>, d: Seq<char>, t: Seq<char>)
    ensures
        add_name(add_name(h, d), t) == add_name(h, d + t),
{
    let h1 = add_name(h, d);
    if h.len() > 0 && !h.last().is_complete {
        assert(h.last().name + d + t =~= h.last().name + (d + t));
        assert(add_name(h1, t) =~= add_name(h, d + t));
    } else {
        assert(add_name(h1, t) =~= add_name(h, d + t));
    }
}

proof fn lemma_add_value_twice(h: Seq<HeaderView>, d: Seq<char>, t: Seq<char>, c1: bool, c2: bool)
    requires
        add_value(h, d, c1) is Some,
    ensures
        add_value(add_value(h, d, c1)->0, t, c2) == add_value(h, d + t, c1 || c2),
{
    assert(h.last().value + d + t =~= h.last().value + (d + t));
    assert(add_value(add_value(h, d, c1)->0, t, c2)->0 =~= add_value(h, d + t, c1 || c2)->0);
}

proof fn lemma_append_opt_twice(o: Option<Seq<char>>, d: Seq<char>, t: Seq<char>)
    ensures
        append_opt(append_opt(o, d), t) == append_opt(o, d + t),
{
    match o {
        Some(c) => assert(c + d + t =~= c + (d + t)),
        None => {},
    }
}

/// Decoding a response in two reads gives what decoding it in one does,
/// wherever the reads may be cut (see `cut_ok`).
pub proof fn lemma_decode_in_two_reads(st: ResponseDecoderState, r: ResponseView, a: Seq<char>, b: Seq<char>)
    requires
        decode_text(st, r, a) is Some,
        cut_ok(st, a, b),
        !starts_with_char(b, ' '),
    ensures
        match decode_text(st, r, a) {
            Some((st1, r1)) => decode_text(st, r, a + b) == decode_text(st1, r1, b),
            None => false,
        },
    decreases a.len(), 1int,
{
    let k = skip_while_eq(a, ' ', 0);
    let d = a.skip(k);
    lemma_skip_while_eq_bound(a, ' ', 0);
    lemma_skip_eq_concat(a, b, ' ', 0);
    lemma_skip_eq_idem(a);
    assert(skip_while_eq(b, ' ', 0) == 0);
    let kw = skip_while_eq(a + b, ' ', 0);
    assert((a + b).skip(kw) =~= d + b);
    assert(d.skip(0) =~= d);
    let db = d + b;
    assert(skip_while_eq(db, ' ', 0) == 0) by {
        lemma_skip_eq_concat(d, b, ' ', 0);
    }
    assert(db.skip(0) =~= db);
    assert(decode_text(st, r, a) == decode_text(st, r, d));
    assert(cut_ok(st, a, b) == cut_ok(st, d, b));
    assert(decode_text(st, r, a + b) == decode_text(st, r, db));
    match st {
        ResponseDecoderState::Protocol => lemma_two_reads_protocol(r, d, b),
        ResponseDecoderState::Status => lemma_two_reads_status(r, d, b),
        ResponseDecoderState::Reason => lemma_two_reads_reason(r, d, b),
        ResponseDecoderState::HeaderName => lemma_two_reads_headername(r, d, b),
        ResponseDecoderState::HeaderValue => lemma_two_reads_headervalue(r, d, b),
        ResponseDecoderState::Body => lemma_two_reads_body(r, d, b),
    }
}

#[verifier::rlimit(60)]
proof fn lemma_two_reads_protocol(r: ResponseView, d: Seq<char>, b: Seq<char>)
    requires
        skip_while_eq(d, ' ', 0) == 0,
        skip_while_eq(d + b, ' ', 0) == 0,
        decode_text(ResponseDecoderState::Protocol, r, d) is Some,
        cut_ok(ResponseDecoderState::Protocol, d, b),
        !starts_with_char(b, ' '),
    ensures
        match decode_text(ResponseDecoderState::Protocol, r, d) {
            Some((st1, r1)) => decode_text(ResponseDecoderState::Protocol, r, d + b) == decode_text(st1, r1, b),
            None => false,
        },
    decreases d.len(), 0int,
{
    let db = d + b;
    assert(d.skip(0) =~= d);
    assert(db.skip(0) =~= db);
    assert(b.skip(0) =~= b);
    assert(skip_while_eq(b, ' ', 0) == 0);
    assert(d + Seq::<char>::empty() =~= d);
            lemma_find_from_concat(d, b, ' ', 0);
            lemma_find_from_bound(d, ' ', 0);
            let i = find_from(d, ' ', 0)->0;
            lemma_utf8_concat_len(d, b);
            assert(db.take(i) =~= d.take(i));
            assert(db.skip(i + 1) =~= d.skip(i + 1) + b);
            match protocol_of(d.take(i)) {
                Some(p) => {
                    lemma_decode_in_two_reads(ResponseDecoderState::Status, ResponseView { protocol: Some(p), ..r }, d.skip(i + 1), b);
                },
                None => {},
            }
        
}

#[verifier::rlimit(60)]
proof fn lemma_two_reads_status(r: ResponseView, d: Seq<char>, b: Seq<char>)
    requires
        skip_while_eq(d, ' ', 0) == 0,
        skip_while_eq(d + b, ' ', 0) == 0,
        decode_text(ResponseDecoderState::Status, r, d) is Some,
        cut_ok(ResponseDecoderState::Status, d, b),
        !starts_with_char(b, ' '),
    ensures
        match decode_text(ResponseDecoderState::Status, r, d) {
            Some((st1, r1)) => decode_text(ResponseDecoderState::Status, r, d + b) == decode_text(st1, r1, b),
            None => false,
        },
    decreases d.len(), 0int,
{
    let db = d + b;
    assert(d.skip(0) =~= d);
    assert(db.skip(0) =~= db);
    assert(b.skip(0) =~= b);
    assert(skip_while_eq(b, ' ', 0) == 0);
    assert(d + Seq::<char>::empty() =~= d);
            lemma_find_from_concat(d, b, ' ', 0);
            lemma_find_from_bound(d, ' ', 0);
            let i = find_from(d, ' ', 0)->0;
            lemma_utf8_concat_len(d, b);
            assert(db.take(i) =~= d.take(i));
            assert(db.skip(i + 1) =~= d.skip(i + 1) + b);
            match from_str_radix_u32(d.take(i), 10) {
                Some(code) => {
                    lemma_decode_in_two_reads(ResponseDecoderState::Reason, ResponseView { status_code: Some(code), ..r }, d.skip(i + 1), b);
                },
                None => {},
            }
        
}

#[verifier::rlimit(60)]
proof fn lemma_two_reads_reason(r: ResponseView, d: Seq<char>, b: Seq<char>)
    requires
        skip_while_eq(d, ' ', 0) == 0,
        skip_while_eq(d + b, ' ', 0) == 0,
        decode_text(ResponseDecoderState::Reason, r, d) is Some,
        cut_ok(ResponseDecoderState::Reason, d, b),
        !starts_with_char(b, ' '),
    ensures
        match decode_text(ResponseDecoderState::Reason, r, d) {
            Some((st1, r1)) => decode_text(ResponseDecoderState::Reason, r, d + b) == decode_text(st1, r1, b),
            None => false,
        },
    decreases d.len(), 0int,
{
    let db = d + b;
    assert(d.skip(0) =~= d);
    assert(db.skip(0) =~= db);
    assert(b.skip(0) =~= b);
    assert(skip_while_eq(b, ' ', 0) == 0);
    assert(d + Seq::<char>::empty() =~= d);
            if d.len() == 0 {
                assert(db =~= b);
            } else {
                lemma_find_crlf_bound(d, 0);
                match find_crlf(d, 0) {
                    Some(j) => {
                        lemma_find_crlf_prefix(d, b, 0);
                        assert(db.take(j) =~= d.take(j));
                        assert(db.skip(j + 2) =~= d.skip(j + 2) + b);
                        assert(db.skip(2) =~= d.skip(2) + b);
                        let r1 = if j == 0 { r } else { ResponseView { reason: append_opt(r.reason, d.take(j)), ..r } };
                        lemma_decode_in_two_reads(ResponseDecoderState::HeaderName, r1, d.skip(j + 2), b);
                    },
                    None => {
                        lemma_find_crlf_concat(d, b, 0);
                        let r1 = ResponseView { reason: append_opt(r.reason, d), ..r };
                        lemma_find_crlf_bound(b, 0);
                        match find_crlf(b, 0) {
                            Some(j) => {
                                assert(db.take(d.len() + j) =~= d + b.take(j));
                                assert(db.skip(d.len() + j + 2) =~= b.skip(j + 2));
                                lemma_append_opt_twice(r.reason, d, b.take(j));
                                assert(b.take(0) =~= Seq::<char>::empty());
                            },
                            None => {
                                lemma_append_opt_twice(r.reason, d, b);
                            },
                        }
                    },
                }
            }
        
}

#[verifier::rlimit(60)]
proof fn lemma_two_reads_headername(r: ResponseView, d: Seq<char>, b: Seq<char>)
    requires
        skip_while_eq(d, ' ', 0) == 0,
        skip_while_eq(d + b, ' ', 0) == 0,
        decode_text(ResponseDecoderState::HeaderName, r, d) is Some,
        cut_ok(ResponseDecoderState::HeaderName, d, b),
        !starts_with_char(b, ' '),
    ensures
        match decode_text(ResponseDecoderState::HeaderName, r, d) {
            Some((st1, r1)) => decode_text(ResponseDecoderState::HeaderName, r, d + b) == decode_text(st1, r1, b),
            None => false,
        },
    decreases d.len(), 0int,
{
    let db = d + b;
    assert(d.skip(0) =~= d);
    assert(db.skip(0) =~= db);
    assert(b.skip(0) =~= b);
    assert(skip_while_eq(b, ' ', 0) == 0);
    assert(d + Seq::<char>::empty() =~= d);
            if d.len() == 0 {
                assert(db =~= b);
            } else if d[0] == ':' {
                let rest = d.skip(1);
                assert(db[0] == ':');
                assert(db.skip(1) =~= rest + b);
                lemma_skip_white_concat(rest, b, 0);
                lemma_skip_white_bound(rest, 0);
                let w = skip_white(rest, 0);
                if w < rest.len() {
                    assert((rest + b).skip(w) =~= rest.skip(w) + b);
                    lemma_decode_in_two_reads(ResponseDecoderState::HeaderValue, r, rest.skip(w), b);
                } else {
                    assert(skip_white(b, 0) == 0);
                    assert((rest + b).skip(rest.len() as int) =~= b);
                    assert(rest.skip(w) =~= Seq::<char>::empty());
                    assert(decode_text(ResponseDecoderState::HeaderValue, r, Seq::<char>::empty()) == Some((ResponseDecoderState::HeaderValue, r)));
                }
            } else if find_crlf(d, 0) == Some(0int) {
                lemma_find_crlf_prefix(d, b, 0);
                assert(db.skip(2) =~= d.skip(2) + b);
                lemma_decode_in_two_reads(ResponseDecoderState::Body, r, d.skip(2), b);
            } else {
                assert(db[0] == d[0]);
                lemma_find_from_concat(d, b, ':', 0);
                lemma_find_from_bound(d, ':', 0);
                lemma_find_crlf_bound(db, 1);
                assert(d.len() >= 2 ==> !(d[0] == '\r' && d[1] == '\n'));
                if find_from(d, ':', 0) is None {
                    assert(!(d.len() == 1 && d[0] == '\r' && starts_with_char(b, '\n')));
                    assert(find_crlf(db, 0) != Some(0int)) by {
                        if d.len() == 1 {
                            if b.len() > 0 {
                                assert(db[1] == b[0]);
                            }
                        } else {
                            assert(db[1] == d[1]);
                        }
                    }
                } else {
                    assert(find_crlf(db, 0) != Some(0int)) by {
                        if d.len() >= 2 {
                            assert(db[1] == d[1]);
                        } else {
                            assert(d[0] == ':');
                        }
                    }
                }
                match find_from(d, ':', 0) {
                    Some(j) => {
                        assert(db.take(j) =~= d.take(j));
                        assert(db.skip(j + 1) =~= d.skip(j + 1) + b);
                        lemma_decode_in_two_reads(
                            ResponseDecoderState::HeaderValue,
                            ResponseView { headers: add_name(r.headers, d.take(j)), ..r },
                            d.skip(j + 1),
                            b,
                        );
                    },
                    None => {
                        assert(find_crlf(db, 0) != Some(0int)) by {
                            if d.len() == 1 {
                                if b.len() > 0 {
                                    assert(db[1] == b[0]);
                                }
                            } else {
                                assert(db[1] == d[1]);
                            }
                        }
                        lemma_find_from_bound(b, ':', 0);
                        lemma_find_crlf_bound(b, 1);
                        assert(!(starts_with_char(b, '\r') && b.len() > 1 && b[1] == '\n'));
                        match find_from(b, ':', 0) {
                            Some(j) => {
                                assert(db.take(d.len() + j) =~= d + b.take(j));
                                assert(db.skip(d.len() + j + 1) =~= b.skip(j + 1));
                                lemma_add_name_twice(r.headers, d, b.take(j));
                                if j == 0 {
                                    assert(b.take(0) =~= Seq::<char>::empty());
                                    assert(d + b.take(0) =~= d);
                                    let rest = b.skip(1);
                                    lemma_skip_white_bound(rest, 0);
                                    lemma_skip_while_eq_bound(rest, ' ', 0);
                                    assert(skip_white(rest, 0) == skip_while_eq(rest, ' ', 0));
                                    let w = skip_white(rest, 0);
                                    lemma_skip_eq_idem(rest);
                                    assert(rest.skip(w).skip(0) =~= rest.skip(w));
                                    let hr = ResponseView { headers: add_name(r.headers, d), ..r };
                                    assert(decode_text(ResponseDecoderState::HeaderValue, hr, rest)
                                        == decode_text(ResponseDecoderState::HeaderValue, hr, rest.skip(w)));
                                    assert(b[0] == ':');
                                } else {
                                    assert(b[0] != ':');
                                    assert(find_crlf(b, 0) != Some(0int));
                                }
                            },
                            None => {
                                lemma_add_name_twice(r.headers, d, b);
                                if b.len() > 0 {
                                    assert(b[0] != ':');
                                    assert(find_crlf(b, 0) != Some(0int));
                                }
                            },
                        }
                    },
                }
            }
        
}

#[verifier::rlimit(60)]
proof fn lemma_two_reads_headervalue(r: ResponseView, d: Seq<char>, b: Seq<char>)
    requires
        skip_while_eq(d, ' ', 0) == 0,
        skip_while_eq(d + b, ' ', 0) == 0,
        decode_text(ResponseDecoderState::HeaderValue, r, d) is Some,
        cut_ok(ResponseDecoderState::HeaderValue, d, b),
        !starts_with_char(b, ' '),
    ensures
        match decode_text(ResponseDecoderState::HeaderValue, r, d) {
            Some((st1, r1)) => decode_text(ResponseDecoderState::HeaderValue, r, d + b) == decode_text(st1, r1, b),
            None => false,
        },
    decreases d.len(), 0int,
{
    let db = d + b;
    assert(d.skip(0) =~= d);
    assert(db.skip(0) =~= db);
    assert(b.skip(0) =~= b);
    assert(skip_while_eq(b, ' ', 0) == 0);
    assert(d + Seq::<char>::empty() =~= d);
            if d.len() == 0 {
                assert(db =~= b);
            } else {
                lemma_find_crlf_bound(d, 0);
                match find_crlf(d, 0) {
                    Some(j) => {
                        lemma_find_crlf_prefix(d, b, 0);
                        assert(db.take(j) =~= d.take(j));
                        assert(db.skip(j + 2) =~= d.skip(j + 2) + b);
                        assert(db.skip(2) =~= d.skip(2) + b);
                        match add_value(r.headers, if j == 0 { Seq::<char>::empty() } else { d.take(j) }, true) {
                            Some(h) => {
                                lemma_decode_in_two_reads(
                                    ResponseDecoderState::HeaderName,
                                    ResponseView { headers: h, ..r },
                                    d.skip(j + 2),
                                    b,
                                );
                            },
                            None => {},
                        }
                    },
                    None => {
                        lemma_find_crlf_concat(d, b, 0);
                        lemma_find_crlf_bound(b, 0);
                        match find_crlf(b, 0) {
                            Some(j) => {
                                assert(db.take(d.len() + j) =~= d + b.take(j));
                                assert(db.skip(d.len() + j + 2) =~= b.skip(j + 2));
                                lemma_add_value_twice(r.headers, d, b.take(j), false, true);
                                assert(b.take(0) =~= Seq::<char>::empty());
                                lemma_add_value_twice(r.headers, d, Seq::<char>::empty(), false, true);
                            },
                            None => {
                                lemma_add_value_twice(r.headers, d, b, false, false);
                            },
                        }
                    },
                }
            }
        
}

#[verifier::rlimit(60)]
proof fn lemma_two_reads_body(r: ResponseView, d: Seq<char>, b: Seq<char>)
    requires
        skip_while_eq(d, ' ', 0) == 0,
        skip_while_eq(d + b, ' ', 0) == 0,
        decode_text(ResponseDecoderState::Body, r, d) is Some,
        cut_ok(ResponseDecoderState::Body, d, b),
        !starts_with_char(b, ' '),
    ensures
        match decode_text(ResponseDecoderState::Body, r, d) {
            Some((st1, r1)) => decode_text(ResponseDecoderState::Body, r, d + b) == decode_text(st1, r1, b),
            None => false,
        },
    decreases d.len(), 0int,
{
    let db = d + b;
    assert(d.skip(0) =~= d);
    assert(db.skip(0) =~= db);
    assert(b.skip(0) =~= b);
    assert(skip_while_eq(b, ' ', 0) == 0);
    assert(d + Seq::<char>::empty() =~= d);
            if d.len() == 0 {
                assert(db =~= b);
            } else {
                lemma_append_opt_twice(r.body, d, b);
            }
        
}

/// A response decoder fed two chunks of bytes ends as one fed both at
/// once, wherever the chunks may be cut (see `cut_ok`).
pub proof fn lemma_decode_bytes_in_two_reads(st: ResponseDecoderState, r: ResponseView, a: Seq<u8>, b: Seq<u8>)
    requires
        valid_utf8(a),
        valid_utf8(b),
        spec_decode(st, r, a) is Some,
        cut_ok(st, decode_utf8(a), decode_utf8(b)),
        !starts_with_char(decode_utf8(b), ' '),
    ensures
        match spec_decode(st, r, a) {
            Some((st1, r1)) => spec_decode(st, r, a + b) == spec_decode(st1, r1, b),
            None => false,
        },
{
    let ca = decode_utf8(a);
    let cb = decode_utf8(b);
    vstd::utf8::decode_utf8_encode_utf8(a);
    vstd::utf8::decode_utf8_encode_utf8(b);
    crate::html5::dom::lemma_utf8_concat(ca, cb);
    assert(a + b == encode_utf8(ca + cb));
    vstd::utf8::encode_utf8_valid_utf8(ca + cb);
    vstd::utf8::encode_utf8_decode_utf8(ca + cb);
    lemma_decode_in_two_reads(st, r, ca, cb);
}

proof fn lemma_utf8_concat_len(a: Seq<char>, b: Seq<char>)
    ensures
        encode_utf8(a + b).len() >= encode_utf8(a).len(),
{
    crate::html5::dom::lemma_utf8_concat(a, b);
}

proof fn lemma_skip_no_spaces(s: Seq<char>)
    ensures
        !starts_with_char(s, ' ') ==> skip_while_eq(s, ' ', 0) == 0,
{
}

proof fn lemma_skip_eq_idem(s: Seq<char>)
    ensures
        skip_while_eq(s.skip(skip_while_eq(s, ' ', 0)), ' ', 0) == 0,
{
    lemma_skip_while_eq_bound(s, ' ', 0);
    let k = skip_while_eq(s, ' ', 0);
    lemma_skip_end(s, 0);
    if k < s.len() {
        assert(s.skip(k)[0] == s[k]);
    }
}

proof fn lemma_skip_end(s: Seq<char>, i: int)
    requires
        0 <= i <= s.len(),
    ensures
        skip_while_eq(s, ' ', i) < s.len() ==> s[skip_while_eq(s, ' ', i)] != ' ',
    decreases s.len() - i,
{
    if i < s.len() && s[i] == ' ' {
        lemma_skip_end(s, i + 1);
    }
}

/// The decoder on a chunk of bytes: `None` where they are not UTF-8, else
/// `decode_text` on their text.
pub open spec fn spec_decode(st: ResponseDecoderState, r: ResponseView, data: Seq<u8>) -> Option<(ResponseDecoderState, ResponseView)> {
    if valid_utf8(data) {
        decode_text(st, r, decode_utf8(data))
    } else {
        None
    }
}

/// The decoder of a response that arrives in chunks.
pub struct ResponseDecoder {
    pub state: ResponseDecoderState,
    pub response: Response,
}

/// The UTF-8 form of `d` is longer than `limit` bytes.
fn utf8_longer_than(d: &Vec<char>, limit: usize) -> (r: bool)
    requires
        limit < 64,
    ensures
        r == (encode_utf8(d@).len() > limit),
{
    let mut acc: usize = 0;
    let mut i: usize = d.len();
    assert(d@.skip(i as int) =~= Seq::<char>::empty());
    while i > 0
        invariant
            i <= d@.len(),
            limit < 64,
            acc <= limit + 1,
            acc == (if encode_utf8(d@.skip(i as int)).len() > limit {
                limit + 1
            } else {
                encode_utf8(d@.skip(i as int)).len() as int
            }),
        decreases i,
    {
        let c = d[i - 1];
        let v = c as u32;
        let w: usize = if v <= 0x7F {
            1
        } else if v <= 0x7FF {
            2
        } else if v <= 0xFFFF {
            3
        } else {
            4
        };
        proof {
            let t = d@.skip(i - 1);
            assert(t.drop_first() =~= d@.skip(i as int));
            assert(t[0] == c);
            assert(encode_utf8(t) == encode_scalar(c as u32) + encode_utf8(d@.skip(i as int)));
            vstd::utf8::char_is_scalar(c);
            assert(encode_scalar(c as u32).len() == w);
        }
        acc = if acc + w > limit {
            limit + 1
        } else {
            acc + w
        };
        i = i - 1;
    }
    assert(d@.skip(0) =~= d@);
    acc > limit
}

/// Where the leading spaces of `s` end.
fn skip_spaces(s: &Vec<char>) -> (k: usize)
    ensures
        k == skip_while_eq(s@, ' ', 0),
        k <= s@.len(),
{
    let mut i: usize = 0;
    while i < s.len() && s[i] == ' '
        invariant
            i <= s@.len(),
            skip_while_eq(s@, ' ', 0) == skip_while_eq(s@, ' ', i as int),
        decreases s@.len() - i,
    {
        i = i + 1;
    }
    i
}

/// Where the leading white space of `s` ends.
fn skip_white_space(s: &Vec<char>) -> (k: usize)
    ensures
        k == skip_white(s@, 0),
        k <= s@.len(),
{
    let mut i: usize = 0;
    while i < s.len() && unicode_whitespace(s[i])
        invariant
            i <= s@.len(),
            skip_white(s@, 0) == skip_white(s@, i as int),
        decreases s@.len() - i,
    {
        i = i + 1;
    }
    i
}

/// The first carriage return and line feed in `s`.
fn find_line_break(s: &Vec<char>) -> (r: Option<usize>)
    ensures
        match r {
            Some(k) => find_crlf(s@, 0) == Some(k as int) && k + 2 <= s@.len(),
            None => find_crlf(s@, 0) is None,
        },
{
    let mut i: usize = 0;
    while i < s.len() && s.len() - i >= 2
        invariant
            i <= s@.len(),
            find_crlf(s@, 0) == find_crlf(s@, i as int),
        decreases s@.len() - i,
    {
        if s[i] == '\r' && s[i + 1] == '\n' {
            return Some(i);
        }
        i = i + 1;
    }
    None
}

/// The code points of `s` from `from` on.
fn tail(s: &Vec<char>, from: usize) -> (r: Vec<char>)
    requires
        from <= s@.len(),
    ensures
        r@ == s@.skip(from as int),
{
    let v = chars_of(string_of(s.as_slice(), from, s.len()).as_str());
    assert(v@ =~= s@.skip(from as int));
    v
}

/// The string of the first `to` code points of `s`.
fn head(s: &Vec<char>, to: usize) -> (r: String)
    requires
        to <= s@.len(),
    ensures
        r@ == s@.take(to as int),
{
    let r = string_of(s.as_slice(), 0, to);
    assert(r@ =~= s@.take(to as int));
    r
}

/// The protocol named by `s[..to]`.
fn protocol_named(s: &Vec<char>, to: usize) -> (r: Option<Protocol>)
    requires
        to <= s@.len(),
    ensures
        r == protocol_of(s@.take(to as int)),
{
    let t = head(s, to);
    let v10 = ['H', 'T', 'T', 'P', '/', '1', '.', '0'];
    let v11 = ['H', 'T', 'T', 'P', '/', '1', '.', '1'];
    let v20 = ['H', 'T', 'T', 'P', '/', '2', '.', '0'];
    let v30 = ['H', 'T', 'T', 'P', '/', '3', '.', '0'];
    assert(v10@ =~= protocol_text(Protocol::HTTP1_0));
    assert(v11@ =~= protocol_text(Protocol::HTTP1_1));
    assert(v20@ =~= protocol_text(Protocol::HTTP2_0));
    assert(v30@ =~= protocol_text(Protocol::HTTP3_0));
    if crate::http::url::string_is(&t, &v10) {
        Some(Protocol::HTTP1_0)
    } else if crate::http::url::string_is(&t, &v11) {
        Some(Protocol::HTTP1_1)
    } else if crate::http::url::string_is(&t, &v20) {
        Some(Protocol::HTTP2_0)
    } else if crate::http::url::string_is(&t, &v30) {
        Some(Protocol::HTTP3_0)
    } else {
        None
    }
}

/// Appends `t` to an optional text, which starts empty.
fn append_opt_string(o: &mut Option<String>, t: String)
    ensures
        opt_chars(*final(o)) == append_opt(opt_chars(*old(o)), t@),
{
    match o {
        Some(c) => {
            push_str(c, t.as_str());
        },
        None => {
            *o = Some(t);
        },
    }
}

/// Adds part of a header name (see `add_name`).
fn add_name_part(headers: &mut Vec<Header>, t: String)
    ensures
        header_views(final(headers)@) == add_name(header_views(old(headers)@), t@),
{
    let ghost before = header_views(headers@);
    let n = headers.len();
    if n > 0 && !headers[n - 1].is_complete {
        let mut last = headers.pop().unwrap();
        push_str(&mut last.name, t.as_str());
        headers.push(last);
        assert(header_views(headers@) =~= add_name(before, t@));
    } else {
        let mut h = Header::empty();
        h.name = t;
        headers.push(h);
        assert(header_views(headers@) =~= add_name(before, t@));
    }
}

/// Adds part of a header value to the last header (see `add_value`);
/// `false`, with nothing changed, when there is none.
fn add_value_part(headers: &mut Vec<Header>, t: String, complete: bool) -> (ok: bool)
    ensures
        match add_value(header_views(old(headers)@), t@, complete) {
            None => !ok && final(headers)@ == old(headers)@,
            Some(h) => ok && header_views(final(headers)@) == h,
        },
{
    let ghost before = header_views(headers@);
    if headers.len() == 0 {
        return false;
    }
    let mut last = headers.pop().unwrap();
    push_str(&mut last.value, t.as_str());
    if complete {
        last.mark_complete();
    }
    headers.push(last);
    assert(header_views(headers@) =~= add_value(before, t@, complete)->0);
    true
}

impl ResponseDecoder {
    pub fn new() -> (r: Self)
        ensures
            r.state is Protocol,
            r.response@ == empty_response(),
    {
        Self { state: ResponseDecoderState::Protocol, response: Response::default() }
    }

    /// The decoder on a text (see `decode_text`); `false` where
    /// `decode_text` gives `None`.
    #[verifier::spinoff_prover]
    #[verifier::rlimit(40)]
    fn decode_chars(&mut self, s: Vec<char>) -> (ok: bool)
        ensures
            match decode_text(old(self).state, old(self).response@, s@) {
                Some((st, r)) => ok && final(self).state == st && final(self).response@ == r,
                None => !ok,
            },
        decreases s@.len(),
    {
        let k = skip_spaces(&s);
        let d = tail(&s, k);
        match self.state {
            ResponseDecoderState::Protocol => {
                if !utf8_longer_than(&d, MINIMUM_CHUNK_LENGTH) {
                    return false;
                }
                match find_char(&d, ' ', 0) {
                    None => false,
                    Some(i) => match protocol_named(&d, i) {
                        None => false,
                        Some(p) => {
                            self.response.protocol = Some(p);
                            self.state = ResponseDecoderState::Status;
                            self.decode_chars(tail(&d, i + 1))
                        },
                    },
                }
            },
            ResponseDecoderState::Status => {
                if !utf8_longer_than(&d, 2) {
                    return true;
                }
                match find_char(&d, ' ', 0) {
                    None => false,
                    Some(i) => {
                        let status = chars_of(head(&d, i).as_str());
                        assert(status@.subrange(0, status@.len() as int) =~= d@.take(i as int));
                        match from_str_radix(status.as_slice(), 0, 10) {
                            None => false,
                            Some(code) => {
                                self.response.status_code = Some(code);
                                self.state = ResponseDecoderState::Reason;
                                self.decode_chars(tail(&d, i + 1))
                            },
                        }
                    },
                }
            },
            ResponseDecoderState::Reason => {
                if d.len() == 0 {
                    return true;
                }
                match find_line_break(&d) {
                    Some(0) => {
                        self.state = ResponseDecoderState::HeaderName;
                        self.decode_chars(tail(&d, 2))
                    },
                    Some(j) => {
                        append_opt_string(&mut self.response.reason, head(&d, j));
                        self.state = ResponseDecoderState::HeaderName;
                        self.decode_chars(tail(&d, j + 2))
                    },
                    None => {
                        append_opt_string(&mut self.response.reason, string_from(d.as_slice()));
                        true
                    },
                }
            },
            ResponseDecoderState::HeaderName => {
                if d.len() == 0 {
                    return true;
                }
                if d[0] == ':' {
                    let rest = tail(&d, 1);
                    let w = skip_white_space(&rest);
                    self.state = ResponseDecoderState::HeaderValue;
                    return self.decode_chars(tail(&rest, w));
                }
                match find_line_break(&d) {
                    Some(0) => {
                        self.state = ResponseDecoderState::Body;
                        return self.decode_chars(tail(&d, 2));
                    },
                    _ => {},
                }
                match find_char(&d, ':', 0) {
                    Some(j) => {
                        add_name_part(&mut self.response.headers, head(&d, j));
                        self.state = ResponseDecoderState::HeaderValue;
                        self.decode_chars(tail(&d, j + 1))
                    },
                    None => {
                        add_name_part(&mut self.response.headers, string_from(d.as_slice()));
                        true
                    },
                }
            },
            ResponseDecoderState::HeaderValue => {
                if d.len() == 0 {
                    return true;
                }
                match find_line_break(&d) {
                    Some(0) => {
                        if !add_value_part(&mut self.response.headers, String::new(), true) {
                            return false;
                        }
                        self.state = ResponseDecoderState::HeaderName;
                        self.decode_chars(tail(&d, 2))
                    },
                    Some(j) => {
                        if !add_value_part(&mut self.response.headers, head(&d, j), true) {
                            return false;
                        }
                        self.state = ResponseDecoderState::HeaderName;
                        self.decode_chars(tail(&d, j + 2))
                    },
                    None => add_value_part(&mut self.response.headers, string_from(d.as_slice()), false),
                }
            },
            ResponseDecoderState::Body => {
                if d.len() == 0 {
                    return true;
                }
                append_opt_string(&mut self.response.body, string_from(d.as_slice()));
                true
            },
        }
    }

    /// Decodes a chunk of the response (see `spec_decode`); `false` where
    /// `spec_decode` gives `None`, with the decoder then in an unspecified
    /// state.
    pub fn decode_checked(&mut self, data: &[u8]) -> (ok: bool)
        ensures
            match spec_decode(old(self).state, old(self).response@, data@) {
                Some((st, r)) => ok && final(self).state == st && final(self).response@ == r,
                None => !ok,
            },
    {
        match utf8_decode_checked(slice_to_vec(data)) {
            None => false,
            Some(text) => self.decode_chars(chars_of(text.as_str())),
        }
    }

    /// Decodes a chunk of the response (see `spec_decode`), on chunks that
    /// `spec_decode` accepts.
    pub fn decode(&mut self, data: &[u8])
        requires
            spec_decode(old(self).state, old(self).response@, data@) is Some,
        ensures
            spec_decode(old(self).state, old(self).response@, data@) == Some((final(self).state, final(self).response@)),
    {
        let ok = self.decode_checked(data);
    }
}

/// `s` ends with two line breaks, each a carriage return and a line feed.
pub open spec fn ends_with_blank_line(s: Seq<char>) -> bool {
    s.len() >= 4 && s.subrange(s.len() - 4, s.len() as int) == seq!['\r', '\n', '\r', '\n']
}

/// The body after a chunk of an HTTP/0.9 response: the text of the chunk
/// appended, then one blank line at the end dropped.
pub open spec fn body_after_chunk(body: Option<Seq<char>>, text: Seq<char>) -> Seq<char> {
    let b = match body {
        Some(x) => x,
        None => Seq::empty(),
    } + text;
    if ends_with_blank_line(b) {
        b.take(b.len() - 4)
    } else {
        b
    }
}

/// `s` without its trailing NUL characters.
pub open spec fn trim_end_nul(s: Seq<char>) -> Seq<char>
    decreases s.len(),
{
    if s.len() > 0 && s.last() == '\0' {
        trim_end_nul(s.drop_last())
    } else {
        s
    }
}

impl Response {
    /// The empty response.
    pub fn new() -> (r: Self)
        ensures
            r@ == empty_response(),
    {
        Response::default()
    }

    /// Appends a chunk of an HTTP/0.9 response to the body (see
    /// `body_after_chunk`); `false`, with nothing changed, on a chunk that is
    /// not UTF-8.
    pub fn decode_body_chunk_checked(&mut self, chunk: &[u8]) -> (ok: bool)
        ensures
            ok == valid_utf8(chunk@),
            ok ==> final(self)@ == (ResponseView {
                body: Some(body_after_chunk(old(self)@.body, decode_utf8(chunk@))),
                ..old(self)@
            }),
            !ok ==> final(self)@ == old(self)@,
    {
        let text = match utf8_decode_checked(slice_to_vec(chunk)) {
            None => {
                return false;
            },
            Some(t) => t,
        };
        let mut body = match &self.body {
            Some(b) => b.clone(),
            None => String::new(),
        };
        push_str(&mut body, text.as_str());
        let chars = chars_of(body.as_str());
        let n = chars.len();
        let blank = n >= 4 && chars[n - 4] == '\r' && chars[n - 3] == '\n' && chars[n - 2] == '\r'
            && chars[n - 1] == '\n';
        proof {
            if n >= 4 {
                assert(blank == (chars@.subrange(n - 4, n as int) =~= seq!['\r', '\n', '\r', '\n']));
            }
        }
        let result = if blank {
            string_of(chars.as_slice(), 0, n - 4)
        } else {
            body
        };
        assert(result@ =~= body_after_chunk(old(self)@.body, decode_utf8(chunk@)));
        self.body = Some(result);
        true
    }

    /// Appends a chunk of an HTTP/0.9 response to the body, on chunks that
    /// are UTF-8.
    pub fn decode_body_chunk(&mut self, chunk: &[u8])
        requires
            valid_utf8(chunk@),
        ensures
            final(self)@ == (ResponseView {
                body: Some(body_after_chunk(old(self)@.body, decode_utf8(chunk@))),
                ..old(self)@
            }),
    {
        let ok = self.decode_body_chunk_checked(chunk);
    }

    /// Drops the NUL characters at the end of the body.
    pub fn strip_zeros(&mut self)
        ensures
            final(self)@ == (ResponseView {
                body: match old(self)@.body {
                    Some(b) => Some(trim_end_nul(b)),
                    None => None,
                },
                ..old(self)@
            }),
    {
        match &self.body {
            Some(body) => {
                let chars = chars_of(body.as_str());
                let mut j = chars.len();
                assert(chars@.take(j as int) =~= chars@);
                while j > 0 && chars[j - 1] == '\0'
                    invariant
                        j <= chars@.len(),
                        trim_end_nul(chars@) == trim_end_nul(chars@.take(j as int)),
                    decreases j,
                {
                    assert(chars@.take(j as int).drop_last() =~= chars@.take(j - 1));
                    j = j - 1;
                }
                assert(chars@.take(chars@.len() as int) =~= chars@);
                let trimmed = string_of(chars.as_slice(), 0, j);
                assert(trimmed@ =~= chars@.take(j as int));
                self.body = Some(trimmed);
            },
            None => {},
        }
    }
}

} // verus!
