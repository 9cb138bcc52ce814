//! The URL parser: code-point classes, IPv4 and IPv6 addresses, percent
//! encoding, hosts, and the URL state machine.
use vstd::prelude::*;
use crate::text::{ascii_alpha, is_alpha, is_digit, is_hex_digit, lower, lower_seq, to_lower};

pub mod ipv6;
pub mod ipv4;
pub mod percent;
pub mod host;
pub mod parser;
pub mod engine;
pub mod serialize;

verus! {

/// An IPv4 address as a 32-bit number.
#[derive(Clone, Debug, Eq, PartialEq, Hash)]
pub struct IPv4(pub u32);

/// An IPv6 address as eight 16-bit pieces.
#[derive(Clone, Debug, Eq, PartialEq, Hash)]
pub struct IPv6(pub [u16; 8]);

#[derive(Clone, Debug, Eq, PartialEq, Hash)]
pub enum IPAddress {
    IPv4(IPv4),
    IPv6(IPv6),
}

/// Why an IPv6 address was refused.
#[derive(Debug)]
pub enum IPv6ParseError {
    IPv6InvalidCompression,
    IPv6TooManyPieces,
    IPv6MultipleCompression,
    IPv4InIPv6InvalidCodePoint,
    IPv4InIPv6TooManyPieces,
    IPv4InIPv6OutOfRange,
    IPv4InIPv4TooFewParts,
    IPv6InvalidCodePoint,
    IPv6TooFewPieces,
}

/// Why an IPv4 address was refused.
#[derive(Debug)]
pub enum IPv4ParseError {
    NumberParsingError,
    IPv4TooManyParts,
    IPv4NonNumericPart,
    IPv4OutOfRange,
}


/// Why an opaque host was refused.
#[derive(Debug)]
pub enum OpaqueParseError {
    HostInvalidCodePoint,
    InvalidURLUnit,
}

/// An opaque host: the host of a URL whose scheme is not special.
#[derive(Clone, Debug, Eq, PartialEq, Hash)]
pub struct Opaque(pub String);

/// The path of a URL: opaque (one segment) or a list of segments.
#[derive(Debug, Clone, Eq, PartialEq)]
pub enum URLPath {
    Segment(String),
    List(Vec<String>),
}

/// A host of a URL.
#[derive(Clone, Debug, Eq, PartialEq, Hash)]
pub enum Host {
    Domain(String),
    IPAddress(IPAddress),
    Opaque(Opaque),
    Empty,
}

/// The mathematical form of a path.
#[verifier::ext_equal]
pub enum PathView {
    Opaque(Seq<char>),
    List(Seq<Seq<char>>),
}

/// The mathematical form of a host.
#[verifier::ext_equal]
pub enum HostView {
    Domain(Seq<char>),
    IPv4(u32),
    IPv6(Seq<u16>),
    Opaque(Seq<char>),
    Empty,
}

/// The mathematical form of a URL.
#[verifier::ext_equal]
pub struct URLView {
    pub scheme: Seq<char>,
    pub username: Seq<char>,
    pub password: Seq<char>,
    pub host: Option<HostView>,
    pub port: Option<u16>,
    pub path: PathView,
    pub query: Option<Seq<char>>,
    pub fragment: Option<Seq<char>>,
}

/// The character sequences of a list of strings.
pub open spec fn string_views(v: Seq<String>) -> Seq<Seq<char>> {
    v.map_values(|x: String| x@)
}

impl View for URLPath {
    type V = PathView;

    open spec fn view(&self) -> PathView {
        match self {
            URLPath::Segment(s) => PathView::Opaque(s@),
            URLPath::List(l) => PathView::List(string_views(l@)),
        }
    }
}

impl View for Host {
    type V = HostView;

    open spec fn view(&self) -> HostView {
        match self {
            Host::Domain(d) => HostView::Domain(d@),
            Host::IPAddress(IPAddress::IPv4(a)) => HostView::IPv4(a.0),
            Host::IPAddress(IPAddress::IPv6(a)) => HostView::IPv6(a.0@),
            Host::Opaque(o) => HostView::Opaque(o.0@),
            Host::Empty => HostView::Empty,
        }
    }
}

/// The view of an optional host.
pub open spec fn opt_host_view(h: Option<Host>) -> Option<HostView> {
    match h {
        Some(x) => Some(x@),
        None => None,
    }
}

/// The view of an optional string.
pub open spec fn opt_view(s: Option<String>) -> Option<Seq<char>> {
    match s {
        Some(x) => Some(x@),
        None => None,
    }
}

/// A URL: scheme, credentials, host, port, path, query and fragment.
#[derive(Clone, Debug, PartialEq, Eq)]
pub struct URL {
    pub scheme: String,
    pub username: String,
    pub password: String,
    pub host: Option<Host>,
    pub port: Option<u16>,
    pub path: URLPath,
    pub query: Option<String>,
    pub fragment: Option<String>,
}

impl View for URL {
    type V = URLView;

    open spec fn view(&self) -> URLView {
        URLView {
            scheme: self.scheme@,
            username: self.username@,
            password: self.password@,
            host: opt_host_view(self.host),
            port: self.port,
            path: self.path@,
            query: opt_view(self.query),
            fragment: opt_view(self.fragment),
        }
    }
}

/// The empty URL: empty strings, no host, port, query or fragment, and an
/// empty list as path.
pub open spec fn empty_url() -> URLView {
    URLView {
        scheme: Seq::empty(),
        username: Seq::empty(),
        password: Seq::empty(),
        host: None,
        port: None,
        path: PathView::List(Seq::empty()),
        query: None,
        fragment: None,
    }
}

impl Default for URLPath {
    fn default() -> (r: Self)
        ensures
            r@ == PathView::List(Seq::empty()),
    {
        let r = URLPath::List(Vec::new());
        assert(string_views(Seq::<String>::empty()) =~= Seq::empty());
        r
    }
}

impl Default for URL {
    fn default() -> (r: Self)
        ensures
            r@ == empty_url(),
    {
        URL {
            scheme: String::new(),
            username: String::new(),
            password: String::new(),
            host: None,
            port: None,
            path: URLPath::default(),
            query: None,
            fragment: None,
        }
    }
}

/// A URL code point: an ASCII letter or digit, one of
/// ``!$&'()*+,-./:;=?@_~``, or a non-ASCII scalar value that is not a
/// surrogate, a noncharacter of U+FDD0..=U+FDEF, or one of the last two code
/// points of a plane (U+E0000..=U+E0FFF excluded too).
pub open spec fn spec_is_url_codepoint(c: char) -> bool {
    let u = c as u32;
    is_alpha(c) || is_digit(c) || c == '!' || c == '$' || c == '&' || c == '\'' || c == '('
        || c == ')' || c == '*' || c == '+' || c == ',' || c == '-' || c == '.' || c == '/' || c
        == ':' || c == ';' || c == '=' || c == '?' || c == '@' || c == '_' || c == '~' || (0xA0
        <= u <= 0xD7FF) || (0xE000 <= u <= 0xFDCF) || (0xFDF0 <= u <= 0xFFFD) || (0x10000 <= u
        <= 0x1FFFD) || (0x20000 <= u <= 0x2FFFD) || (0x30000 <= u <= 0x3FFFD) || (0x40000 <= u
        <= 0x4FFFD) || (0x50000 <= u <= 0x5FFFD) || (0x60000 <= u <= 0x6FFFD) || (0x70000 <= u
        <= 0x7FFFD) || (0x80000 <= u <= 0x8FFFD) || (0x90000 <= u <= 0x9FFFD) || (0xA0000 <= u
        <= 0xAFFFD) || (0xB0000 <= u <= 0xBFFFD) || (0xC0000 <= u <= 0xCFFFD) || (0xD0000 <= u
        <= 0xDFFFD) || (0xE1000 <= u <= 0xEFFFD) || (0xF0000 <= u <= 0xFFFFD) || (0x100000 <= u
        <= 0x10FFFD)
}

pub fn is_url_codepoint(c: char) -> (r: bool)
    ensures
        r == spec_is_url_codepoint(c),
{
    let u = c as u32;
    ('a' <= c && c <= 'z') || ('A' <= c && c <= 'Z') || ('0' <= c && c <= '9') || c == '!' || c
        == '$' || c == '&' || c == '\'' || c == '(' || c == ')' || c == '*' || c == '+' || c
        == ',' || c == '-' || c == '.' || c == '/' || c == ':' || c == ';' || c == '=' || c
        == '?' || c == '@' || c == '_' || c == '~' || (0xA0 <= u && u <= 0xD7FF) || (0xE000 <= u
        && u <= 0xFDCF) || (0xFDF0 <= u && u <= 0xFFFD) || (0x10000 <= u && u <= 0x1FFFD) || (
    0x20000 <= u && u <= 0x2FFFD) || (0x30000 <= u && u <= 0x3FFFD) || (0x40000 <= u && u
        <= 0x4FFFD) || (0x50000 <= u && u <= 0x5FFFD) || (0x60000 <= u && u <= 0x6FFFD) || (
    0x70000 <= u && u <= 0x7FFFD) || (0x80000 <= u && u <= 0x8FFFD) || (0x90000 <= u && u
        <= 0x9FFFD) || (0xA0000 <= u && u <= 0xAFFFD) || (0xB0000 <= u && u <= 0xBFFFD) || (
    0xC0000 <= u && u <= 0xCFFFD) || (0xD0000 <= u && u <= 0xDFFFD) || (0xE1000 <= u && u
        <= 0xEFFFD) || (0xF0000 <= u && u <= 0xFFFFD) || (0x100000 <= u && u <= 0x10FFFD)
}

/// A forbidden host code point: NUL, tab, LF, CR, space, `#`, `/`, `:`,
/// `<`, `>`, `?`, `@`, `[`, `\`, `]`, `^` or `|`.
pub open spec fn is_forbidden_host_code_point(c: char) -> bool {
    c == '\0' || c == '\t' || c == '\n' || c == '\r' || c == ' ' || c == '#' || c == '/' || c
        == ':' || c == '<' || c == '>' || c == '?' || c == '@' || c == '[' || c == '\\' || c
        == ']' || c == '^' || c == '|'
}

pub fn forbidden_host_code_point(c: char) -> (r: bool)
    ensures
        r == is_forbidden_host_code_point(c),
{
    c == '\0' || c == '\t' || c == '\n' || c == '\r' || c == ' ' || c == '#' || c == '/' || c
        == ':' || c == '<' || c == '>' || c == '?' || c == '@' || c == '[' || c == '\\' || c
        == ']' || c == '^' || c == '|'
}

pub open spec fn s_ftp() -> Seq<char> { seq!['f', 't', 'p'] }
pub open spec fn s_file() -> Seq<char> { seq!['f', 'i', 'l', 'e'] }
pub open spec fn s_http() -> Seq<char> { seq!['h', 't', 't', 'p'] }
pub open spec fn s_https() -> Seq<char> { seq!['h', 't', 't', 'p', 's'] }
pub open spec fn s_ws() -> Seq<char> { seq!['w', 's'] }
pub open spec fn s_wss() -> Seq<char> { seq!['w', 's', 's'] }
pub open spec fn s_blob() -> Seq<char> { seq!['b', 'l', 'o', 'b'] }

/// One of the special schemes: ftp, file, http, https, ws, wss.
pub open spec fn spec_is_special_scheme(s: Seq<char>) -> bool {
    s == s_ftp() || s == s_file() || s == s_http() || s == s_https() || s == s_ws() || s == s_wss()
}

/// The default port of a special scheme; `file` and other schemes have none.
pub open spec fn spec_default_port(s: Seq<char>) -> Option<u16> {
    if s == s_ftp() {
        Some(21)
    } else if s == s_http() || s == s_ws() {
        Some(80)
    } else if s == s_https() || s == s_wss() {
        Some(443)
    } else {
        None
    }
}

/// The characters of `s` equal `t`.
pub fn chars_equal(s: &[char], t: &[char]) -> (r: bool)
    ensures
        r == (s@ == t@),
{
    if s.len() != t.len() {
        return false;
    }
    let mut i: usize = 0;
    while i < s.len()
        invariant
            s@.len() == t@.len(),
            i <= s@.len(),
            forall|j: int| 0 <= j < i ==> s@[j] == t@[j],
        decreases s@.len() - i,
    {
        if s[i] != t[i] {
            return false;
        }
        i = i + 1;
    }
    assert(s@ =~= t@);
    true
}

/// The string `s` equals the characters `t`.
pub fn string_is(s: &String, t: &[char]) -> (r: bool)
    ensures
        r == (s@ == t@),
{
    let v = crate::text::chars_of(s.as_str());
    chars_equal(v.as_slice(), t)
}

pub fn is_special_scheme(scheme: &String) -> (r: bool)
    ensures
        r == spec_is_special_scheme(scheme@),
{
    let v = crate::text::chars_of(scheme.as_str());
    let ftp = ['f', 't', 'p'];
    let file = ['f', 'i', 'l', 'e'];
    let http = ['h', 't', 't', 'p'];
    let https = ['h', 't', 't', 'p', 's'];
    let ws = ['w', 's'];
    let wss = ['w', 's', 's'];
    assert(ftp@ =~= s_ftp());
    assert(file@ =~= s_file());
    assert(http@ =~= s_http());
    assert(https@ =~= s_https());
    assert(ws@ =~= s_ws());
    assert(wss@ =~= s_wss());
    chars_equal(v.as_slice(), &ftp) || chars_equal(v.as_slice(), &file) || chars_equal(
        v.as_slice(),
        &http,
    ) || chars_equal(v.as_slice(), &https) || chars_equal(v.as_slice(), &ws) || chars_equal(
        v.as_slice(),
        &wss,
    )
}

/// The default port of the scheme, when it is special and has one.
pub fn special_scheme_default_port(scheme: &String) -> (r: Option<u16>)
    ensures
        r == spec_default_port(scheme@),
{
    if !is_special_scheme(scheme) {
        return None;
    }
    let v = crate::text::chars_of(scheme.as_str());
    let ftp = ['f', 't', 'p'];
    let http = ['h', 't', 't', 'p'];
    let https = ['h', 't', 't', 'p', 's'];
    let ws = ['w', 's'];
    let wss = ['w', 's', 's'];
    assert(ftp@ =~= s_ftp());
    assert(http@ =~= s_http());
    assert(https@ =~= s_https());
    assert(ws@ =~= s_ws());
    assert(wss@ =~= s_wss());
    if chars_equal(v.as_slice(), &ftp) {
        Some(21)
    } else if chars_equal(v.as_slice(), &http) || chars_equal(v.as_slice(), &ws) {
        Some(80)
    } else if chars_equal(v.as_slice(), &https) || chars_equal(v.as_slice(), &wss) {
        Some(443)
    } else {
        None
    }
}

/// The first two code points of `s` are an ASCII letter and one of the
/// `seconds`: `None` on an empty `s` or on a single letter.
pub open spec fn spec_drive_letter(s: Seq<char>, allow_bar: bool) -> Option<bool> {
    if s.len() == 0 {
        None
    } else if !is_alpha(s[0]) {
        Some(false)
    } else if s.len() < 2 {
        None
    } else {
        Some(s[1] == ':' || (allow_bar && s[1] == '|'))
    }
}

/// `s` starts with a Windows drive letter: a letter, `:` or `|`, and then the
/// end or one of `/`, `\`, `?`, `#`.
pub open spec fn spec_starts_with_drive_letter(s: Seq<char>) -> bool {
    s.len() >= 2 && is_alpha(s[0]) && (s[1] == ':' || s[1] == '|') && (s.len() == 2 || s[2]
        == '/' || s[2] == '\\' || s[2] == '?' || s[2] == '#')
}

fn _is_windows_drive_letter(codepoint: &[char], allow_bar: bool) -> (r: Option<bool>)
    ensures
        r == spec_drive_letter(codepoint@, allow_bar),
{
    if codepoint.len() == 0 {
        return None;
    }
    if !ascii_alpha(codepoint[0]) {
        return Some(false);
    }
    if codepoint.len() < 2 {
        return None;
    }
    Some(codepoint[1] == ':' || (allow_bar && codepoint[1] == '|'))
}

/// A Windows drive letter: a letter and `:` or `|`; `None` on fewer than
/// two code points (see `spec_drive_letter`).
pub(crate) fn is_windows_drive_letter(codepoint: &[char]) -> (r: Option<bool>)
    ensures
        r == spec_drive_letter(codepoint@, true),
{
    _is_windows_drive_letter(codepoint, true)
}

/// A normalized Windows drive letter: a letter and `:`; `None` on fewer
/// than two code points (see `spec_drive_letter`).
pub(crate) fn is_normalized_windows_drive_letter(codepoint: &[char]) -> (r: Option<bool>)
    ensures
        r == spec_drive_letter(codepoint@, false),
{
    _is_windows_drive_letter(codepoint, false)
}

pub(crate) fn starts_with_windows_drive_letter(string: &[char]) -> (r: bool)
    ensures
        r == spec_starts_with_drive_letter(string@),
{
    string.len() >= 2 && ascii_alpha(string[0]) && (string[1] == ':' || string[1] == '|') && (
    string.len() == 2 || string[2] == '/' || string[2] == '\\' || string[2] == '?' || string[2]
        == '#')
}

/// A single-dot path segment: `.` or `%2e`, up to ASCII case.
pub open spec fn spec_is_single_dot(s: Seq<char>) -> bool {
    let l = lower_seq(s);
    l == seq!['.'] || l == seq!['%', '2', 'e']
}

/// A double-dot path segment: `..`, `.%2e`, `%2e.` or `%2e%2e`, up to ASCII
/// case.
pub open spec fn spec_is_double_dot(s: Seq<char>) -> bool {
    let l = lower_seq(s);
    l == seq!['.', '.'] || l == seq!['.', '%', '2', 'e'] || l == seq!['%', '2', 'e', '.'] || l
        == seq!['%', '2', 'e', '%', '2', 'e']
}

/// The ASCII lower-case form of `s`.
pub fn lowered(s: &[char]) -> (r: Vec<char>)
    ensures
        r@ == lower_seq(s@),
{
    let mut r: Vec<char> = Vec::new();
    let mut i: usize = 0;
    while i < s.len()
        invariant
            i <= s@.len(),
            r@ =~= lower_seq(s@.take(i as int)),
        decreases s@.len() - i,
    {
        r.push(to_lower(s[i]));
        i = i + 1;
    }
    assert(s@.take(s@.len() as int) =~= s@);
    r
}

pub(crate) fn is_single_dot(segment: &[char]) -> (r: bool)
    ensures
        r == spec_is_single_dot(segment@),
{
    let l = lowered(segment);
    let a = ['.'];
    let b = ['%', '2', 'e'];
    assert(a@ =~= seq!['.']);
    assert(b@ =~= seq!['%', '2', 'e']);
    chars_equal(l.as_slice(), &a) || chars_equal(l.as_slice(), &b)
}

pub(crate) fn is_double_dot(segment: &[char]) -> (r: bool)
    ensures
        r == spec_is_double_dot(segment@),
{
    let l = lowered(segment);
    let a = ['.', '.'];
    let b = ['.', '%', '2', 'e'];
    let c = ['%', '2', 'e', '.'];
    let d = ['%', '2', 'e', '%', '2', 'e'];
    assert(a@ =~= seq!['.', '.']);
    assert(b@ =~= seq!['.', '%', '2', 'e']);
    assert(c@ =~= seq!['%', '2', 'e', '.']);
    assert(d@ =~= seq!['%', '2', 'e', '%', '2', 'e']);
    chars_equal(l.as_slice(), &a) || chars_equal(l.as_slice(), &b) || chars_equal(
        l.as_slice(),
        &c,
    ) || chars_equal(l.as_slice(), &d)
}

} // verus!
