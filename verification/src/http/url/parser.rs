//! The URL parser: a state machine over the code points of the input, with
//! a pointer that may step back, as in the URL standard's basic URL parser.
//!
//! `spec_url_parse` states what the parser does: the prepared input (white
//! space trimmed, tabs and newlines removed) is run through `url_step` until
//! the machine finishes. The outcome `Crash` stands for the places where the
//! parser panics (an index out of bounds, an assertion, an `unwrap` of
//! nothing); the public parsers require inputs on which it does not.
use vstd::prelude::*;
use vstd::utf8::encode_utf8;
use vstd::slice::{slice_to_vec, slice_subrange};
use crate::text::{ascii_alpha, ascii_digit, chars_of, push_char, push_str, string_from, to_lower};
use super::{Host, IPAddress, IPv6, Opaque, URL, URLPath, opt_host_view, opt_view, string_views, is_special_scheme, special_scheme_default_port, string_is, s_http, s_https, s_ftp};
use super::host::{HostParseError, host_outcome_view};
use super::percent::{TextEncoding, percent_encoding_after_encoding};
use super::ipv4::{lemma_radix_mono, lemma_radix_none_extends};
use crate::text::{is_alpha, is_digit, lower, eq_ignore_ascii_case, no_ascii_upper, lemma_lower_not_upper, lemma_no_ascii_upper_push};
use super::{HostView, PathView, URLView, empty_url, spec_is_special_scheme, spec_default_port, spec_drive_letter, spec_starts_with_drive_letter, spec_is_single_dot, spec_is_double_dot, s_file, s_ws, s_wss, s_blob};
use super::host::{HostErrorView, spec_host_parse};
use super::percent::{PercentEncodeSet, percent_encode_bytes, encoded_text, utf8_name};
use super::ipv4::{radix_value, is_unicode_whitespace};

verus! {

#[verifier::external_type_specification]
#[verifier::external_body]
pub struct ExParseIntError(std::num::ParseIntError);

/// The states of the parser.
#[derive(Clone, Copy, Debug, PartialEq, Eq)]
pub enum ParseURLState {
    SchemeStart,
    Scheme,
    NoScheme,
    SpecialRelativeOrAuthority,
    PathOrAuthority,
    Relative,
    RelativeSlash,
    SpecialAuthoritySlashes,
    SpecialAuthorityIgnoreSlashes,
    Authority,
    Host,
    Hostname,
    Port,
    File,
    FileSlash,
    FileHost,
    PathStart,
    Path,
    OpaquePath,
    Query,
    Fragment,
}

/// The mathematical form of a parse error.
pub enum ParseURLErrorView {
    Failure,
    MissingSchemeNonRelativeURL,
    HostMissing,
    HostParseError(HostErrorView),
    PortOutOfRange,
    ParseIntError,
    PortInvalid,
}

/// `char::is_alphanumeric`: the Unicode `Alphabetic` or `Numeric` property.
pub uninterp spec fn char_is_alphanumeric(c: char) -> bool;

/// `char::is_alphanumeric`.
///
/// Trusted: the result is a function of the code point, named
/// `char_is_alphanumeric`; on ASCII code points it holds exactly of the
/// letters and digits, as the standard library documents for the Unicode
/// `Alphabetic` and `Numeric` properties.
#[verifier::external_body]
pub(crate) fn is_alphanumeric(c: char) -> (r: bool)
    ensures
        r == char_is_alphanumeric(c),
        (c as u32) < 0x80 ==> (r == (is_alpha(c) || is_digit(c))),
{
    c.is_alphanumeric()
}

/// The state of the parser between two code points.
#[verifier::ext_equal]
pub struct Machine {
    pub state: ParseURLState,
    pub buffer: Seq<char>,
    pub at_sign_seen: bool,
    pub inside_brackets: bool,
    pub password_token_seen: bool,
    /// The pointer: the position of the current code point.
    pub p: int,
    /// The pointer has reached the end once (it stays set).
    pub eof: bool,
    pub url: URLView,
    /// The name of the encoding of the query and fragment.
    pub encoding: Option<Seq<char>>,
}

/// What one step of the parser does.
#[verifier::ext_equal]
pub enum Step {
    Next(Machine),
    Done(Result<URLView, ParseURLErrorView>),
    Crash,
}

/// The code point at the pointer; NUL past the end.
pub open spec fn cat(s: Seq<char>, p: int) -> char {
    if 0 <= p < s.len() {
        s[p]
    } else {
        '\0'
    }
}

/// The code points after the pointer start with `ch`.
pub open spec fn rem_starts(s: Seq<char>, p: int, ch: char) -> bool {
    0 <= p && p + 1 < s.len() && s[p + 1] == ch
}

/// The machine with the pointer moved by `d`: `None` when it would go
/// before the start (reading there panics). The end flag, once set, stays.
pub open spec fn moved(s: Seq<char>, m: Machine, d: int) -> Option<Machine> {
    let np = m.p + d;
    if np < 0 {
        None
    } else {
        Some(Machine { p: np, eof: m.eof || np >= s.len(), ..m })
    }
}

/// Continue with the pointer moved by `d`.
pub open spec fn go_moved(s: Seq<char>, m: Machine, d: int) -> Step {
    match moved(s, m, d) {
        None => Step::Crash,
        Some(m2) => Step::Next(m2),
    }
}

/// The percent-encoding of the UTF-8 form of one code point.
pub open spec fn pct_char(c: char, set: PercentEncodeSet) -> Seq<char> {
    percent_encode_bytes(encode_utf8(seq![c]), set, false)
}

/// The URL with `seg` appended to its path; `None` on an opaque path.
pub open spec fn path_push(u: URLView, seg: Seq<char>) -> Option<URLView> {
    match u.path {
        PathView::Opaque(_) => None,
        PathView::List(l) => Some(URLView { path: PathView::List(l.push(seg)), ..u }),
    }
}

/// Path shortening: the last segment goes, unless the scheme is `file` and
/// the only segment is a normalized drive letter. `None` on an opaque path, or a drive-letter check on an empty segment or a
/// single letter.
pub open spec fn shorten(u: URLView) -> Option<URLView> {
    match u.path {
        PathView::Opaque(_) => None,
        PathView::List(l) => {
            let popped = URLView {
                path: PathView::List(
                    if l.len() > 0 {
                        l.drop_last()
                    } else {
                        l
                    },
                ),
                ..u
            };
            if u.scheme == s_file() && l.len() == 1 {
                match spec_drive_letter(l[0], false) {
                    None => None,
                    Some(true) => Some(u),
                    Some(false) => Some(popped),
                }
            } else {
                Some(popped)
            }
        },
    }
}

/// The credentials after the code points of `buf` from `i` on: the first
/// `:` starts the password, the rest is percent-encoded with the path set
/// into the username or the password.
pub open spec fn auth_fold(buf: Seq<char>, i: int, pts: bool, user: Seq<char>, pass: Seq<char>) -> (
    bool,
    Seq<char>,
    Seq<char>,
)
    decreases buf.len() - i,
{
    if i >= buf.len() || i < 0 {
        (pts, user, pass)
    } else if buf[i] == ':' && !pts {
        auth_fold(buf, i + 1, true, user, pass)
    } else {
        let e = pct_char(buf[i], PercentEncodeSet::Path);
        if pts {
            auth_fold(buf, i + 1, pts, user, pass + e)
        } else {
            auth_fold(buf, i + 1, pts, user + e, pass)
        }
    }
}

/// A code point that ends an authority, host or port: the end, `/`, `?`,
/// `#`, or `\` in a special scheme.
pub open spec fn ends_host(m: Machine, c: char) -> bool {
    m.eof || c == '/' || c == '?' || c == '#' || (spec_is_special_scheme(m.url.scheme) && c == '\\')
}

/// The lower-case label `utf-8`.
pub open spec fn s_utf8() -> Seq<char> {
    seq!['u', 't', 'f', '-', '8']
}

pub open spec fn host_step(s: Seq<char>, m: Machine, c: char) -> Step {
    let special = spec_is_special_scheme(m.url.scheme);
    if c == ':' && !m.inside_brackets {
        if m.buffer.len() == 0 {
            Step::Done(Err(ParseURLErrorView::HostMissing))
        } else {
            match spec_host_parse(m.buffer, !special) {
                None => Step::Crash,
                Some(Err(e)) => Step::Done(Err(ParseURLErrorView::HostParseError(e))),
                Some(Ok(h)) => Step::Next(
                    Machine {
                        url: URLView { host: Some(h), ..m.url },
                        buffer: Seq::empty(),
                        state: ParseURLState::Port,
                        ..m
                    },
                ),
            }
        }
    } else if ends_host(m, c) {
        match moved(s, m, -1) {
            None => Step::Crash,
            Some(m1) => if special && m.buffer.len() == 0 {
                Step::Done(Err(ParseURLErrorView::HostMissing))
            } else {
                match spec_host_parse(m.buffer, !special) {
                    None => Step::Crash,
                    Some(Err(e)) => Step::Done(Err(ParseURLErrorView::HostParseError(e))),
                    Some(Ok(h)) => Step::Next(
                        Machine {
                            url: URLView { host: Some(h), ..m.url },
                            buffer: Seq::empty(),
                            state: ParseURLState::PathStart,
                            ..m1
                        },
                    ),
                }
            },
        }
    } else {
        let ib = if c == '[' {
            true
        } else if c == ']' {
            false
        } else {
            m.inside_brackets
        };
        Step::Next(Machine { inside_brackets: ib, buffer: m.buffer.push(c), ..m })
    }
}

pub open spec fn port_step(s: Seq<char>, m: Machine, c: char) -> Step {
    if is_digit(c) {
        Step::Next(Machine { buffer: m.buffer.push(c), ..m })
    } else if ends_host(m, c) {
        let m1 = if m.buffer.len() == 0 {
            Some(m)
        } else {
            match radix_value(m.buffer, 10) {
                Some(v) => if v <= 65535 {
                    let port = if spec_default_port(m.url.scheme) == Some(v as u16) {
                        None
                    } else {
                        Some(v as u16)
                    };
                    Some(Machine { url: URLView { port: port, ..m.url }, buffer: Seq::empty(), ..m })
                } else {
                    None
                },
                None => None,
            }
        };
        match m1 {
            Some(m2) => go_moved(s, Machine { state: ParseURLState::PathStart, ..m2 }, -1),
            None => match radix_value(m.buffer, 10) {
                Some(_) => Step::Done(Err(ParseURLErrorView::PortOutOfRange)),
                None => Step::Crash,
            },
        }
    } else {
        Step::Done(Err(ParseURLErrorView::PortInvalid))
    }
}

pub open spec fn path_step(s: Seq<char>, m: Machine, c: char) -> Step {
    let special = spec_is_special_scheme(m.url.scheme);
    if m.eof || c == '/' || (special && c == '\\') || c == '?' || c == '#' {
        let back_slash_push = !special && c == '\\';
        let url1: Option<URLView> = if spec_is_double_dot(m.buffer) {
            match shorten(m.url) {
                None => None,
                Some(u) => if back_slash_push {
                    path_push(u, Seq::empty())
                } else {
                    Some(u)
                },
            }
        } else if spec_is_single_dot(m.buffer) && back_slash_push {
            path_push(m.url, Seq::empty())
        } else if !spec_is_single_dot(m.buffer) {
            let buf2: Option<Seq<char>> = if m.url.scheme == s_file() {
                match m.url.path {
                    PathView::Opaque(_) => None,
                    PathView::List(l) => if l.len() == 0 {
                        match spec_drive_letter(m.buffer, true) {
                            None => None,
                            Some(true) => if m.buffer.len() < 3 {
                                None
                            } else {
                                Some(m.buffer.update(2, ':'))
                            },
                            Some(false) => Some(m.buffer),
                        }
                    } else {
                        Some(m.buffer)
                    },
                }
            } else {
                Some(m.buffer)
            };
            match buf2 {
                None => None,
                Some(b) => path_push(m.url, b),
            }
        } else {
            Some(m.url)
        };
        match url1 {
            None => Step::Crash,
            Some(u) => {
                let m2 = Machine { url: u, buffer: Seq::empty(), ..m };
                if c == '?' {
                    Step::Next(
                        Machine {
                            url: URLView { query: Some(Seq::empty()), ..u },
                            state: ParseURLState::Query,
                            ..m2
                        },
                    )
                } else if c == '#' {
                    Step::Next(
                        Machine {
                            url: URLView { fragment: Some(Seq::empty()), ..u },
                            state: ParseURLState::Fragment,
                            ..m2
                        },
                    )
                } else {
                    Step::Next(m2)
                }
            },
        }
    } else {
        Step::Next(Machine { buffer: m.buffer + pct_char(c, PercentEncodeSet::Path), ..m })
    }
}

/// One step of the state machine at the current code point, before the
/// pointer moves on.
#[verifier::opaque]
pub open spec fn state_step(s: Seq<char>, base: Option<URLView>, m: Machine) -> Step {
    let c = cat(s, m.p);
    let special = spec_is_special_scheme(m.url.scheme);
    match m.state {
        ParseURLState::SchemeStart => if is_alpha(c) {
            Step::Next(Machine { buffer: m.buffer.push(lower(c)), state: ParseURLState::Scheme, ..m })
        } else {
            go_moved(s, Machine { state: ParseURLState::NoScheme, ..m }, -1)
        },
        ParseURLState::Scheme => if char_is_alphanumeric(c) || c == '+' || c == '-' || c == '.' {
            Step::Next(Machine { buffer: m.buffer.push(lower(c)), ..m })
        } else if c == ':' {
            let scheme = m.buffer;
            let m1 = Machine { url: URLView { scheme: scheme, ..m.url }, buffer: Seq::empty(), ..m };
            if scheme == s_file() {
                Step::Next(Machine { state: ParseURLState::File, ..m1 })
            } else if spec_is_special_scheme(scheme) && (base matches Some(b) && b.scheme == scheme) {
                Step::Next(Machine { state: ParseURLState::SpecialRelativeOrAuthority, ..m1 })
            } else if spec_is_special_scheme(scheme) {
                Step::Next(Machine { state: ParseURLState::SpecialAuthoritySlashes, ..m1 })
            } else if rem_starts(s, m.p, '/') {
                go_moved(s, Machine { state: ParseURLState::PathOrAuthority, ..m1 }, 1)
            } else {
                Step::Next(
                    Machine {
                        url: URLView { path: PathView::Opaque(Seq::empty()), ..m1.url },
                        state: ParseURLState::OpaquePath,
                        ..m1
                    },
                )
            }
        } else {
            go_moved(s, Machine { buffer: Seq::empty(), state: ParseURLState::NoScheme, ..m }, -m.p)
        },
        ParseURLState::NoScheme => match base {
            None => Step::Done(Err(ParseURLErrorView::MissingSchemeNonRelativeURL)),
            Some(b) => if (b.path is Opaque) && c != '#' {
                Step::Done(Err(ParseURLErrorView::MissingSchemeNonRelativeURL))
            } else if b.scheme != s_file() {
                go_moved(s, Machine { state: ParseURLState::Relative, ..m }, -1)
            } else {
                go_moved(s, Machine { state: ParseURLState::File, ..m }, -1)
            },
        },
        ParseURLState::SpecialRelativeOrAuthority => if c == '/' && rem_starts(s, m.p, '/') {
            go_moved(s, Machine { state: ParseURLState::SpecialAuthorityIgnoreSlashes, ..m }, 1)
        } else {
            go_moved(s, Machine { state: ParseURLState::Relative, ..m }, -1)
        },
        ParseURLState::PathOrAuthority => if c == '/' {
            Step::Next(Machine { state: ParseURLState::Authority, ..m })
        } else {
            go_moved(s, Machine { state: ParseURLState::Path, ..m }, -1)
        },
        ParseURLState::Relative => match base {
            None => Step::Crash,
            Some(b) => if b.scheme == s_file() {
                Step::Crash
            } else {
                let url1 = URLView { scheme: b.scheme, ..m.url };
                if c == '/' || (spec_is_special_scheme(b.scheme) && c == '\\') {
                    Step::Next(Machine { url: url1, state: ParseURLState::RelativeSlash, ..m })
                } else {
                    let url2 = URLView {
                        username: b.username,
                        password: b.password,
                        host: b.host,
                        port: b.port,
                        path: b.path,
                        query: b.query,
                        ..url1
                    };
                    if c == '?' {
                        Step::Next(
                            Machine {
                                url: URLView { query: Some(Seq::empty()), ..url2 },
                                state: ParseURLState::Query,
                                ..m
                            },
                        )
                    } else if c == '#' {
                        Step::Next(
                            Machine {
                                url: URLView { fragment: Some(Seq::empty()), ..url2 },
                                state: ParseURLState::Fragment,
                                ..m
                            },
                        )
                    } else if !m.eof {
                        match shorten(URLView { query: None, ..url2 }) {
                            None => Step::Crash,
                            Some(u) => go_moved(
                                s,
                                Machine { url: u, state: ParseURLState::Path, ..m },
                                -1,
                            ),
                        }
                    } else {
                        Step::Next(Machine { url: url2, ..m })
                    }
                }
            },
        },
        ParseURLState::RelativeSlash => if special && (c == '/' || c == '\\') {
            Step::Next(Machine { state: ParseURLState::SpecialAuthorityIgnoreSlashes, ..m })
        } else if c == '/' {
            Step::Next(Machine { state: ParseURLState::Authority, ..m })
        } else {
            match base {
                Some(b) => go_moved(
                    s,
                    Machine {
                        url: URLView {
                            username: b.username,
                            password: b.password,
                            host: b.host,
                            port: b.port,
                            ..m.url
                        },
                        state: ParseURLState::Path,
                        ..m
                    },
                    -1,
                ),
                None => Step::Next(m),
            }
        },
        ParseURLState::SpecialAuthoritySlashes => if c == '/' && rem_starts(s, m.p, '/') {
            go_moved(s, Machine { state: ParseURLState::SpecialAuthorityIgnoreSlashes, ..m }, 1)
        } else {
            go_moved(s, Machine { state: ParseURLState::SpecialAuthorityIgnoreSlashes, ..m }, -1)
        },
        ParseURLState::SpecialAuthorityIgnoreSlashes => if c != '/' && c != '\\' {
            go_moved(s, Machine { state: ParseURLState::Authority, ..m }, -1)
        } else {
            Step::Next(m)
        },
        ParseURLState::Authority => if c == '@' {
            let buf1 = if m.at_sign_seen {
                m.buffer + seq!['%', '4', '0']
            } else {
                m.buffer
            };
            let (pts, user, pass) = auth_fold(
                buf1,
                0,
                m.password_token_seen,
                m.url.username,
                m.url.password,
            );
            Step::Next(
                Machine {
                    at_sign_seen: true,
                    password_token_seen: pts,
                    url: URLView { username: user, password: pass, ..m.url },
                    buffer: Seq::empty(),
                    ..m
                },
            )
        } else if ends_host(m, c) {
            if m.at_sign_seen && m.buffer.len() == 0 {
                Step::Done(Err(ParseURLErrorView::HostMissing))
            } else {
                go_moved(
                    s,
                    Machine { buffer: Seq::empty(), state: ParseURLState::Host, ..m },
                    -(m.buffer.len() + 1),
                )
            }
        } else {
            Step::Next(Machine { buffer: m.buffer.push(c), ..m })
        },
        ParseURLState::Host => host_step(s, m, c),
        ParseURLState::Hostname => host_step(s, m, c),
        ParseURLState::Port => port_step(s, m, c),
        ParseURLState::File => {
            let url1 = URLView { scheme: s_file(), host: Some(HostView::Empty), ..m.url };
            if c == '/' || c == '\\' {
                Step::Next(Machine { url: url1, state: ParseURLState::FileSlash, ..m })
            } else if base matches Some(b) && b.scheme == s_file() {
                let b = base->0;
                let url2 = URLView { host: b.host, path: b.path, query: b.query, ..url1 };
                if c == '?' {
                    Step::Next(
                        Machine {
                            url: URLView { query: Some(Seq::empty()), ..url2 },
                            state: ParseURLState::Query,
                            ..m
                        },
                    )
                } else if c == '#' {
                    Step::Next(
                        Machine {
                            url: URLView { fragment: Some(Seq::empty()), ..url2 },
                            state: ParseURLState::Fragment,
                            ..m
                        },
                    )
                } else if !m.eof {
                    let url3 = URLView { query: None, ..url2 };
                    if !spec_starts_with_drive_letter(s.skip(m.p)) {
                        match shorten(url3) {
                            None => Step::Crash,
                            Some(u) => go_moved(
                                s,
                                Machine { url: u, state: ParseURLState::Path, ..m },
                                -1,
                            ),
                        }
                    } else {
                        go_moved(
                            s,
                            Machine {
                                url: URLView { path: PathView::List(Seq::empty()), ..url3 },
                                state: ParseURLState::Path,
                                ..m
                            },
                            -1,
                        )
                    }
                } else {
                    Step::Next(Machine { url: url2, ..m })
                }
            } else {
                go_moved(s, Machine { url: url1, state: ParseURLState::Path, ..m }, -1)
            }
        },
        ParseURLState::FileSlash => if c == '/' || c == '\\' {
            Step::Next(Machine { state: ParseURLState::FileHost, ..m })
        } else {
            let url2: Option<URLView> = match base {
                Some(b) => if b.scheme == s_file() {
                    match b.path {
                        PathView::Opaque(_) => None,
                        PathView::List(l) => {
                            let url1 = URLView { host: b.host, ..m.url };
                            if !spec_starts_with_drive_letter(s.skip(m.p)) {
                                if l.len() == 0 {
                                    None
                                } else {
                                    match spec_drive_letter(l[0], false) {
                                        None => None,
                                        Some(true) => path_push(url1, l[0]),
                                        Some(false) => Some(url1),
                                    }
                                }
                            } else {
                                Some(url1)
                            }
                        },
                    }
                } else {
                    Some(m.url)
                },
                None => Some(m.url),
            };
            match url2 {
                None => Step::Crash,
                Some(u) => go_moved(s, Machine { url: u, state: ParseURLState::Path, ..m }, -1),
            }
        },
        ParseURLState::FileHost => if m.eof || c == '/' || c == '\\' || c == '?' || c == '#' {
            match moved(s, m, -1) {
                None => Step::Crash,
                Some(m1) => match spec_drive_letter(m.buffer, true) {
                    None => Step::Crash,
                    Some(true) => Step::Next(Machine { state: ParseURLState::Path, ..m1 }),
                    Some(false) => match spec_host_parse(m.buffer, !special) {
                        None => Step::Crash,
                        Some(Err(e)) => Step::Done(Err(ParseURLErrorView::HostParseError(e))),
                        Some(Ok(h)) => {
                            let h2 = if h == HostView::Opaque(seq!['l', 'o', 'c', 'a', 'l', 'h', 'o', 's', 't']) {
                                HostView::Empty
                            } else {
                                h
                            };
                            Step::Next(
                                Machine {
                                    url: URLView { host: Some(h2), ..m.url },
                                    buffer: Seq::empty(),
                                    state: ParseURLState::PathStart,
                                    ..m1
                                },
                            )
                        },
                    },
                },
            }
        } else {
            Step::Next(Machine { buffer: m.buffer.push(c), ..m })
        },
        ParseURLState::PathStart => if special {
            let m1 = Machine { state: ParseURLState::Path, ..m };
            if c != '/' && c != '\\' {
                go_moved(s, m1, -1)
            } else {
                Step::Next(m1)
            }
        } else if c == '?' {
            Step::Next(
                Machine {
                    url: URLView { query: Some(Seq::empty()), ..m.url },
                    state: ParseURLState::Query,
                    ..m
                },
            )
        } else if c == '#' {
            Step::Next(
                Machine {
                    url: URLView { fragment: Some(Seq::empty()), ..m.url },
                    state: ParseURLState::Fragment,
                    ..m
                },
            )
        } else if !m.eof {
            let m1 = Machine { state: ParseURLState::Path, ..m };
            if c != '/' {
                go_moved(s, m1, -1)
            } else {
                Step::Next(m1)
            }
        } else {
            Step::Next(m)
        },
        ParseURLState::Path => path_step(s, m, c),
        ParseURLState::OpaquePath => if c == '?' {
            Step::Next(
                Machine {
                    url: URLView { query: Some(Seq::empty()), ..m.url },
                    state: ParseURLState::Query,
                    ..m
                },
            )
        } else if c == '#' {
            Step::Next(
                Machine {
                    url: URLView { fragment: Some(Seq::empty()), ..m.url },
                    state: ParseURLState::Fragment,
                    ..m
                },
            )
        } else if c == ' ' {
            let seg = if rem_starts(s, m.p, '?') || rem_starts(s, m.p, '#') {
                seq!['%', '2', '0']
            } else {
                seq![' ']
            };
            match path_push(m.url, seg) {
                None => Step::Crash,
                Some(u) => Step::Next(Machine { url: u, ..m }),
            }
        } else if !m.eof {
            Step::Next(Machine { buffer: m.buffer + pct_char(c, PercentEncodeSet::C0), ..m })
        } else {
            Step::Next(m)
        },
        ParseURLState::Query => {
            let not_utf8 = match m.encoding {
                None => true,
                Some(n) => !eq_ignore_ascii_case(n, s_utf8()),
            };
            let enc = if not_utf8 && (!special || m.url.scheme == s_ws() || m.url.scheme == s_wss()) {
                Some(utf8_name())
            } else {
                m.encoding
            };
            if !m.eof {
                Step::Next(Machine { encoding: enc, buffer: m.buffer.push(c), ..m })
            } else {
                Step::Next(Machine { encoding: enc, ..m })
            }
        },
        ParseURLState::Fragment => if !m.eof {
            match m.encoding {
                None => Step::Crash,
                Some(n) => {
                    let result = percent_encode_bytes(
                        encoded_text(n, m.buffer),
                        PercentEncodeSet::Fragment,
                        false,
                    );
                    let f = match m.url.fragment {
                        Some(f) => f + result,
                        None => result,
                    };
                    Step::Next(Machine { url: URLView { fragment: Some(f), ..m.url }, ..m })
                },
            }
        } else {
            Step::Next(m)
        },
    }
}

/// One turn of the loop: the state's step, then the end check (the loop
/// stops once the end was reached) and the pointer's move to the next code
/// point.
pub open spec fn url_step(s: Seq<char>, base: Option<URLView>, m: Machine) -> Step {
    match state_step(s, base, m) {
        Step::Next(m2) => if m2.eof {
            Step::Done(Ok(m2.url))
        } else {
            Step::Next(Machine { p: m2.p + 1, eof: m2.eof || m2.p + 1 >= s.len(), ..m2 })
        },
        other => other,
    }
}

/// The machine run for at most `fuel` turns.
pub open spec fn run(s: Seq<char>, base: Option<URLView>, m: Machine, fuel: nat) -> Step
    decreases fuel,
{
    if fuel == 0 {
        Step::Crash
    } else {
        match url_step(s, base, m) {
            Step::Next(m2) => run(s, base, m2, (fuel - 1) as nat),
            other => other,
        }
    }
}

/// The input with the white space at both ends trimmed.
pub open spec fn trim_ws(s: Seq<char>) -> Seq<char>
    decreases s.len(),
{
    if s.len() == 0 {
        s
    } else if is_unicode_whitespace(s[0]) {
        trim_ws(s.drop_first())
    } else if is_unicode_whitespace(s.last()) {
        trim_ws(s.drop_last())
    } else {
        s
    }
}

/// The input without its tabs and newlines.
pub open spec fn remove_tab_newline(s: Seq<char>) -> Seq<char>
    decreases s.len(),
{
    if s.len() == 0 {
        s
    } else if s.last() == '\t' || s.last() == '\n' {
        remove_tab_newline(s.drop_last())
    } else {
        remove_tab_newline(s.drop_last()).push(s.last())
    }
}

/// The input that the state machine reads.
pub open spec fn prepared(input: Seq<char>) -> Seq<char> {
    remove_tab_newline(trim_ws(input))
}

/// The machine before the first code point.
pub open spec fn initial_machine(s: Seq<char>, encoding: Option<Seq<char>>) -> Machine {
    Machine {
        state: ParseURLState::SchemeStart,
        buffer: Seq::empty(),
        at_sign_seen: false,
        inside_brackets: false,
        password_token_seen: false,
        p: 0,
        eof: s.len() == 0,
        url: empty_url(),
        encoding: encoding,
    }
}

/// A bound on the number of turns: the phase of the state (the scheme, the
/// authority, the rest), the position, and the rank of the state within its
/// phase, one after the other, all go down at each turn.
pub open spec fn turn_bound(len: int) -> nat {
    (3 * (len + 2) * 16 + 16) as nat
}

/// The basic URL parser: its outcome on the input, with an optional base
/// URL and the name of the encoding of the query and fragment.
pub open spec fn spec_basic_url_parse(input: Seq<char>, base: Option<URLView>, encoding: Option<Seq<char>>) -> Step {
    let s = prepared(input);
    run(s, base, initial_machine(s, encoding), turn_bound(s.len() as int))
}

/// The URL parser: `None` on the inputs that `spec_basic_url_parse`
/// refuses outright (a `blob` URL among them); else the URL or why it was refused.
pub open spec fn spec_url_parse(input: Seq<char>, base: Option<URLView>, encoding: Option<Seq<char>>) -> Option<Result<URLView, ParseURLErrorView>> {
    match spec_basic_url_parse(input, base, encoding) {
        Step::Done(Ok(u)) => if u.scheme == s_blob() {
            None
        } else {
            Some(Ok(u))
        },
        Step::Done(Err(e)) => Some(Err(e)),
        _ => None,
    }
}


/// The phase of a state: the scheme, then what comes before the host, then
/// the rest. No turn goes back to an earlier phase.
pub open spec fn phase(st: ParseURLState) -> int {
    match st {
        ParseURLState::SchemeStart | ParseURLState::Scheme => 2,
        ParseURLState::NoScheme | ParseURLState::SpecialRelativeOrAuthority | ParseURLState::Relative
        | ParseURLState::File | ParseURLState::SpecialAuthoritySlashes
        | ParseURLState::SpecialAuthorityIgnoreSlashes | ParseURLState::Authority
        | ParseURLState::PathOrAuthority | ParseURLState::RelativeSlash
        | ParseURLState::FileSlash => 1,
        _ => 0,
    }
}

/// The rank of a state within its phase: a turn that leaves the pointer
/// where it was goes to a state of lower rank.
pub open spec fn state_rank(st: ParseURLState) -> int {
    match st {
        ParseURLState::SchemeStart => 1,
        ParseURLState::Scheme => 0,
        ParseURLState::NoScheme => 9,
        ParseURLState::SpecialRelativeOrAuthority => 8,
        ParseURLState::Relative => 7,
        ParseURLState::File => 6,
        ParseURLState::SpecialAuthoritySlashes => 5,
        ParseURLState::SpecialAuthorityIgnoreSlashes => 4,
        ParseURLState::Authority => 3,
        ParseURLState::PathOrAuthority => 2,
        ParseURLState::RelativeSlash => 1,
        ParseURLState::FileSlash => 0,
        ParseURLState::Host => 8,
        ParseURLState::Hostname => 8,
        ParseURLState::Port => 7,
        ParseURLState::FileHost => 6,
        ParseURLState::PathStart => 5,
        ParseURLState::Path => 4,
        ParseURLState::OpaquePath => 3,
        ParseURLState::Query => 2,
        ParseURLState::Fragment => 1,
    }
}

/// The turns left, at most: the phase, the position and the rank of the
/// state, one after the other.
pub open spec fn turns_left(len: int, m: Machine) -> int {
    let w = (len + 2) * 16;
    let ph = if phase(m.state) == 2 {
        2 * w
    } else if phase(m.state) == 1 {
        w
    } else {
        0
    };
    ph + (len + 1 - m.p) * 16 + state_rank(m.state)
}

/// A machine between two turns: the pointer within the input or at its
/// end, and the end flag set once the pointer has reached the end.
pub open spec fn in_bounds(len: int, m: Machine) -> bool {
    &&& 0 <= m.p <= len
    &&& !m.eof ==> m.p < len
}

/// How a state step moves on: to an earlier phase, or within the phase with
/// the pointer at most one back (and then to a state of lower rank).
pub open spec fn moves_on(m: Machine, m2: Machine) -> bool {
    ||| phase(m2.state) < phase(m.state)
    ||| phase(m2.state) == phase(m.state) && (m2.p >= m.p || (m2.p == m.p - 1 && state_rank(m2.state)
        < state_rank(m.state)))
}

/// A state step that does not finish moves on, with the end flag set
/// exactly when the pointer has reached the end.
pub open spec fn steps_on(s: Seq<char>, m: Machine, r: Step) -> bool {
    r matches Step::Next(m2) ==> {
        &&& moves_on(m, m2)
        &&& m2.p >= 0
        &&& m2.eof == (m.eof || m2.p >= s.len())
    }
}

#[verifier::rlimit(50)]
proof fn lemma_state_step_moves_on(s: Seq<char>, base: Option<URLView>, m: Machine)
    requires
        in_bounds(s.len() as int, m),
    ensures
        steps_on(s, m, state_step(s, base, m)),
{
    reveal(state_step);
    match m.state {
        ParseURLState::SchemeStart => assert(steps_on(s, m, state_step(s, base, m))),
        ParseURLState::Scheme => assert(steps_on(s, m, state_step(s, base, m))),
        ParseURLState::NoScheme => assert(steps_on(s, m, state_step(s, base, m))),
        ParseURLState::SpecialRelativeOrAuthority => assert(steps_on(s, m, state_step(s, base, m))),
        ParseURLState::PathOrAuthority => assert(steps_on(s, m, state_step(s, base, m))),
        ParseURLState::Relative => assert(steps_on(s, m, state_step(s, base, m))),
        ParseURLState::RelativeSlash => assert(steps_on(s, m, state_step(s, base, m))),
        ParseURLState::SpecialAuthoritySlashes => assert(steps_on(s, m, state_step(s, base, m))),
        ParseURLState::SpecialAuthorityIgnoreSlashes => assert(steps_on(s, m, state_step(s, base, m))),
        ParseURLState::Authority => assert(steps_on(s, m, state_step(s, base, m))),
        ParseURLState::Host => assert(steps_on(s, m, state_step(s, base, m))),
        ParseURLState::Hostname => assert(steps_on(s, m, state_step(s, base, m))),
        ParseURLState::Port => assert(steps_on(s, m, state_step(s, base, m))),
        ParseURLState::File => assert(steps_on(s, m, state_step(s, base, m))),
        ParseURLState::FileSlash => assert(steps_on(s, m, state_step(s, base, m))),
        ParseURLState::FileHost => assert(steps_on(s, m, state_step(s, base, m))),
        ParseURLState::PathStart => assert(steps_on(s, m, state_step(s, base, m))),
        ParseURLState::Path => assert(steps_on(s, m, state_step(s, base, m))),
        ParseURLState::OpaquePath => assert(steps_on(s, m, state_step(s, base, m))),
        ParseURLState::Query => assert(steps_on(s, m, state_step(s, base, m))),
        ParseURLState::Fragment => assert(steps_on(s, m, state_step(s, base, m))),
    }
}

/// Each turn that does not finish lowers `turns_left`, and keeps the
/// machine within bounds.
pub proof fn lemma_turn_lowers_rank(s: Seq<char>, base: Option<URLView>, m: Machine)
    requires
        in_bounds(s.len() as int, m),
    ensures
        url_step(s, base, m) matches Step::Next(m2) ==> {
            &&& in_bounds(s.len() as int, m2)
            &&& 0 <= turns_left(s.len() as int, m2) < turns_left(s.len() as int, m)
        },
{
    lemma_state_step_moves_on(s, base, m);
}

/// Given more turns than `turns_left`, the machine finishes before the
/// turns run out: any two such numbers of turns give the same outcome.
pub proof fn lemma_run_fuel_enough(s: Seq<char>, base: Option<URLView>, m: Machine, f1: nat, f2: nat)
    requires
        in_bounds(s.len() as int, m),
        f1 > turns_left(s.len() as int, m),
        f2 > turns_left(s.len() as int, m),
    ensures
        run(s, base, m, f1) == run(s, base, m, f2),
    decreases f1,
{
    lemma_turn_lowers_rank(s, base, m);
    match url_step(s, base, m) {
        Step::Next(m2) => {
            lemma_run_fuel_enough(s, base, m2, (f1 - 1) as nat, (f2 - 1) as nat);
        },
        _ => {},
    }
}

/// The parser finishes by itself: with any number of turns from
/// `turn_bound` on, the outcome is that of `spec_basic_url_parse`.
pub proof fn lemma_parser_terminates(input: Seq<char>, base: Option<URLView>, encoding: Option<Seq<char>>, fuel: nat)
    requires
        fuel >= turn_bound(prepared(input).len() as int),
    ensures
        run(prepared(input), base, initial_machine(prepared(input), encoding), fuel)
            == spec_basic_url_parse(input, base, encoding),
{
    let s = prepared(input);
    let m = initial_machine(s, encoding);
    lemma_run_fuel_enough(s, base, m, fuel, turn_bound(s.len() as int));
}



/// The scheme of the URL being built holds no ASCII upper-case letter, nor
/// does the buffer while it holds the scheme being read.
pub open spec fn scheme_lower(m: Machine) -> bool {
    &&& no_ascii_upper(m.url.scheme)
    &&& (m.state is SchemeStart || m.state is Scheme) ==> no_ascii_upper(m.buffer)
}

/// A base URL whose scheme holds no ASCII upper-case letter, if there is one.
pub open spec fn base_scheme_lower(base: Option<URLView>) -> bool {
    base matches Some(b) ==> no_ascii_upper(b.scheme)
}

/// A state step that goes on keeps `scheme_lower`, and one that gives a
/// URL gives one whose scheme holds no ASCII upper-case letter.
pub open spec fn keeps_scheme_lower(r: Step) -> bool {
    match r {
        Step::Next(m2) => scheme_lower(m2),
        Step::Done(Ok(u)) => no_ascii_upper(u.scheme),
        _ => true,
    }
}

proof fn lemma_scheme_lower_facts(s: Seq<char>, m: Machine)
    ensures
        no_ascii_upper(Seq::<char>::empty()),
        no_ascii_upper(s_file()),
        no_ascii_upper(m.buffer) ==> no_ascii_upper(m.buffer.push(lower(cat(s, m.p)))),
{
    lemma_lower_not_upper(cat(s, m.p));
    if no_ascii_upper(m.buffer) {
        lemma_no_ascii_upper_push(m.buffer, lower(cat(s, m.p)));
    }
    assert forall|i: int| 0 <= i < s_file().len() implies !crate::text::is_upper_alpha(#[trigger] s_file()[i]) by {}
}

proof fn lemma_scheme_lower_in_scheme_start(s: Seq<char>, base: Option<URLView>, m: Machine)
    requires
        scheme_lower(m),
        base_scheme_lower(base),
        m.state is SchemeStart,
    ensures
        keeps_scheme_lower(state_step(s, base, m)),
{
    reveal(state_step);
    lemma_scheme_lower_facts(s, m);
}

proof fn lemma_scheme_lower_in_scheme(s: Seq<char>, base: Option<URLView>, m: Machine)
    requires
        scheme_lower(m),
        base_scheme_lower(base),
        m.state is Scheme,
    ensures
        keeps_scheme_lower(state_step(s, base, m)),
{
    reveal(state_step);
    lemma_scheme_lower_facts(s, m);
}

proof fn lemma_scheme_lower_in_no_scheme(s: Seq<char>, base: Option<URLView>, m: Machine)
    requires
        scheme_lower(m),
        base_scheme_lower(base),
        m.state is NoScheme,
    ensures
        keeps_scheme_lower(state_step(s, base, m)),
{
    reveal(state_step);
    lemma_scheme_lower_facts(s, m);
}

proof fn lemma_scheme_lower_in_special_relative_or_authority(s: Seq<char>, base: Option<URLView>, m: Machine)
    requires
        scheme_lower(m),
        base_scheme_lower(base),
        m.state is SpecialRelativeOrAuthority,
    ensures
        keeps_scheme_lower(state_step(s, base, m)),
{
    reveal(state_step);
    lemma_scheme_lower_facts(s, m);
}

proof fn lemma_scheme_lower_in_path_or_authority(s: Seq<char>, base: Option<URLView>, m: Machine)
    requires
        scheme_lower(m),
        base_scheme_lower(base),
        m.state is PathOrAuthority,
    ensures
        keeps_scheme_lower(state_step(s, base, m)),
{
    reveal(state_step);
    lemma_scheme_lower_facts(s, m);
}

proof fn lemma_scheme_lower_in_relative(s: Seq<char>, base: Option<URLView>, m: Machine)
    requires
        scheme_lower(m),
        base_scheme_lower(base),
        m.state is Relative,
    ensures
        keeps_scheme_lower(state_step(s, base, m)),
{
    reveal(state_step);
    lemma_scheme_lower_facts(s, m);
}

proof fn lemma_scheme_lower_in_relative_slash(s: Seq<char>, base: Option<URLView>, m: Machine)
    requires
        scheme_lower(m),
        base_scheme_lower(base),
        m.state is RelativeSlash,
    ensures
        keeps_scheme_lower(state_step(s, base, m)),
{
    reveal(state_step);
    lemma_scheme_lower_facts(s, m);
}

proof fn lemma_scheme_lower_in_special_authority_slashes(s: Seq<char>, base: Option<URLView>, m: Machine)
    requires
        scheme_lower(m),
        base_scheme_lower(base),
        m.state is SpecialAuthoritySlashes,
    ensures
        keeps_scheme_lower(state_step(s, base, m)),
{
    reveal(state_step);
    lemma_scheme_lower_facts(s, m);
}

proof fn lemma_scheme_lower_in_special_authority_ignore_slashes(s: Seq<char>, base: Option<URLView>, m: Machine)
    requires
        scheme_lower(m),
        base_scheme_lower(base),
        m.state is SpecialAuthorityIgnoreSlashes,
    ensures
        keeps_scheme_lower(state_step(s, base, m)),
{
    reveal(state_step);
    lemma_scheme_lower_facts(s, m);
}

proof fn lemma_scheme_lower_in_authority(s: Seq<char>, base: Option<URLView>, m: Machine)
    requires
        scheme_lower(m),
        base_scheme_lower(base),
        m.state is Authority,
    ensures
        keeps_scheme_lower(state_step(s, base, m)),
{
    reveal(state_step);
    lemma_scheme_lower_facts(s, m);
}

proof fn lemma_scheme_lower_in_host(s: Seq<char>, base: Option<URLView>, m: Machine)
    requires
        scheme_lower(m),
        base_scheme_lower(base),
        m.state is Host,
    ensures
        keeps_scheme_lower(state_step(s, base, m)),
{
    reveal(state_step);
    lemma_scheme_lower_facts(s, m);
}

proof fn lemma_scheme_lower_in_hostname(s: Seq<char>, base: Option<URLView>, m: Machine)
    requires
        scheme_lower(m),
        base_scheme_lower(base),
        m.state is Hostname,
    ensures
        keeps_scheme_lower(state_step(s, base, m)),
{
    reveal(state_step);
    lemma_scheme_lower_facts(s, m);
}

proof fn lemma_scheme_lower_in_port(s: Seq<char>, base: Option<URLView>, m: Machine)
    requires
        scheme_lower(m),
        base_scheme_lower(base),
        m.state is Port,
    ensures
        keeps_scheme_lower(state_step(s, base, m)),
{
    reveal(state_step);
    lemma_scheme_lower_facts(s, m);
}

proof fn lemma_scheme_lower_in_file(s: Seq<char>, base: Option<URLView>, m: Machine)
    requires
        scheme_lower(m),
        base_scheme_lower(base),
        m.state is File,
    ensures
        keeps_scheme_lower(state_step(s, base, m)),
{
    reveal(state_step);
    lemma_scheme_lower_facts(s, m);
}

proof fn lemma_scheme_lower_in_file_slash(s: Seq<char>, base: Option<URLView>, m: Machine)
    requires
        scheme_lower(m),
        base_scheme_lower(base),
        m.state is FileSlash,
    ensures
        keeps_scheme_lower(state_step(s, base, m)),
{
    reveal(state_step);
    lemma_scheme_lower_facts(s, m);
}

proof fn lemma_scheme_lower_in_file_host(s: Seq<char>, base: Option<URLView>, m: Machine)
    requires
        scheme_lower(m),
        base_scheme_lower(base),
        m.state is FileHost,
    ensures
        keeps_scheme_lower(state_step(s, base, m)),
{
    reveal(state_step);
    lemma_scheme_lower_facts(s, m);
}

proof fn lemma_scheme_lower_in_path_start(s: Seq<char>, base: Option<URLView>, m: Machine)
    requires
        scheme_lower(m),
        base_scheme_lower(base),
        m.state is PathStart,
    ensures
        keeps_scheme_lower(state_step(s, base, m)),
{
    reveal(state_step);
    lemma_scheme_lower_facts(s, m);
}

proof fn lemma_scheme_lower_in_path(s: Seq<char>, base: Option<URLView>, m: Machine)
    requires
        scheme_lower(m),
        base_scheme_lower(base),
        m.state is Path,
    ensures
        keeps_scheme_lower(state_step(s, base, m)),
{
    reveal(state_step);
    lemma_scheme_lower_facts(s, m);
}

proof fn lemma_scheme_lower_in_opaque_path(s: Seq<char>, base: Option<URLView>, m: Machine)
    requires
        scheme_lower(m),
        base_scheme_lower(base),
        m.state is OpaquePath,
    ensures
        keeps_scheme_lower(state_step(s, base, m)),
{
    reveal(state_step);
    lemma_scheme_lower_facts(s, m);
}

proof fn lemma_scheme_lower_in_query(s: Seq<char>, base: Option<URLView>, m: Machine)
    requires
        scheme_lower(m),
        base_scheme_lower(base),
        m.state is Query,
    ensures
        keeps_scheme_lower(state_step(s, base, m)),
{
    reveal(state_step);
    lemma_scheme_lower_facts(s, m);
}

proof fn lemma_scheme_lower_in_fragment(s: Seq<char>, base: Option<URLView>, m: Machine)
    requires
        scheme_lower(m),
        base_scheme_lower(base),
        m.state is Fragment,
    ensures
        keeps_scheme_lower(state_step(s, base, m)),
{
    reveal(state_step);
    lemma_scheme_lower_facts(s, m);
}

/// A state step keeps the scheme free of ASCII upper-case letters (given a
/// base URL whose scheme is).
proof fn lemma_state_step_scheme_lower(s: Seq<char>, base: Option<URLView>, m: Machine)
    requires
        scheme_lower(m),
        base_scheme_lower(base),
    ensures
        keeps_scheme_lower(state_step(s, base, m)),
{
    match m.state {
        ParseURLState::SchemeStart => lemma_scheme_lower_in_scheme_start(s, base, m),
        ParseURLState::Scheme => lemma_scheme_lower_in_scheme(s, base, m),
        ParseURLState::NoScheme => lemma_scheme_lower_in_no_scheme(s, base, m),
        ParseURLState::SpecialRelativeOrAuthority => lemma_scheme_lower_in_special_relative_or_authority(s, base, m),
        ParseURLState::PathOrAuthority => lemma_scheme_lower_in_path_or_authority(s, base, m),
        ParseURLState::Relative => lemma_scheme_lower_in_relative(s, base, m),
        ParseURLState::RelativeSlash => lemma_scheme_lower_in_relative_slash(s, base, m),
        ParseURLState::SpecialAuthoritySlashes => lemma_scheme_lower_in_special_authority_slashes(s, base, m),
        ParseURLState::SpecialAuthorityIgnoreSlashes => lemma_scheme_lower_in_special_authority_ignore_slashes(s, base, m),
        ParseURLState::Authority => lemma_scheme_lower_in_authority(s, base, m),
        ParseURLState::Host => lemma_scheme_lower_in_host(s, base, m),
        ParseURLState::Hostname => lemma_scheme_lower_in_hostname(s, base, m),
        ParseURLState::Port => lemma_scheme_lower_in_port(s, base, m),
        ParseURLState::File => lemma_scheme_lower_in_file(s, base, m),
        ParseURLState::FileSlash => lemma_scheme_lower_in_file_slash(s, base, m),
        ParseURLState::FileHost => lemma_scheme_lower_in_file_host(s, base, m),
        ParseURLState::PathStart => lemma_scheme_lower_in_path_start(s, base, m),
        ParseURLState::Path => lemma_scheme_lower_in_path(s, base, m),
        ParseURLState::OpaquePath => lemma_scheme_lower_in_opaque_path(s, base, m),
        ParseURLState::Query => lemma_scheme_lower_in_query(s, base, m),
        ParseURLState::Fragment => lemma_scheme_lower_in_fragment(s, base, m),
    }
}

/// Running the machine from a state that keeps `scheme_lower` gives a URL
/// whose scheme holds no ASCII upper-case letter.
proof fn lemma_run_scheme_lower(s: Seq<char>, base: Option<URLView>, m: Machine, fuel: nat)
    requires
        scheme_lower(m),
        base_scheme_lower(base),
    ensures
        run(s, base, m, fuel) matches Step::Done(Ok(u)) ==> no_ascii_upper(u.scheme),
    decreases fuel,
{
    if fuel > 0 {
        lemma_state_step_scheme_lower(s, base, m);
        match state_step(s, base, m) {
            Step::Next(m2) => {
                assert(scheme_lower(m2));
                if !m2.eof {
                    let m3 = Machine { p: m2.p + 1, eof: m2.eof || m2.p + 1 >= s.len(), ..m2 };
                    assert(url_step(s, base, m) == Step::Next(m3));
                    assert(scheme_lower(m3));
                    lemma_run_scheme_lower(s, base, m3, (fuel - 1) as nat);
                }
            },
            _ => {},
        }
    }
}

/// The scheme of a parsed URL holds no ASCII upper-case letter: the
/// parser lowers the letters of the scheme it reads (a relative URL takes
/// the scheme of its base, which is taken to be lowered likewise).
pub proof fn lemma_parsed_scheme_lower(input: Seq<char>, base: Option<URLView>, encoding: Option<Seq<char>>)
    requires
        base_scheme_lower(base),
    ensures
        spec_basic_url_parse(input, base, encoding) matches Step::Done(Ok(u)) ==> no_ascii_upper(u.scheme),
        spec_url_parse(input, base, encoding) matches Some(Ok(u)) ==> no_ascii_upper(u.scheme),
{
    let s = prepared(input);
    lemma_scheme_lower_facts(s, initial_machine(s, encoding));
    lemma_run_scheme_lower(s, base, initial_machine(s, encoding), turn_bound(s.len() as int));
}

/// A pointer into the code points of the input: the current code point `c`
/// (NUL past the end), the code points after it, and whether the end has
/// been reached.
pub struct StringPointer {
    pub chars: Vec<char>,
    pub pointer: isize,
    pub c: char,
    pub remaining: Vec<char>,
    pub is_eof: bool,
}

impl StringPointer {
    /// The fields agree with the position of the pointer.
    pub open spec fn wf(&self) -> bool {
        &&& 0 <= self.pointer
        &&& self.chars@.len() < isize::MAX
        &&& self.c == cat(self.chars@, self.pointer as int)
        &&& self.remaining@ == if self.pointer < self.chars@.len() {
            self.chars@.skip(self.pointer + 1)
        } else {
            Seq::<char>::empty()
        }
    }

    pub fn new(target: String) -> (r: StringPointer)
        requires
            target@.len() < isize::MAX,
        ensures
            r.wf(),
            r.chars@ == target@,
            r.pointer == 0,
            r.is_eof == (target@.len() == 0),
    {
        let chars = chars_of(target.as_str());
        let mut p = StringPointer {
            chars,
            pointer: 0,
            c: '\0',
            remaining: Vec::new(),
            is_eof: false,
        };
        p.update_c();
        p
    }

    /// Reads the code point at the pointer, and sets the end flag past the
    /// end.
    pub fn update_c(&mut self)
        requires
            old(self).pointer >= 0,
            old(self).chars@.len() < isize::MAX,
        ensures
            final(self).wf(),
            final(self).chars == old(self).chars,
            final(self).pointer == old(self).pointer,
            final(self).is_eof == (old(self).is_eof || old(self).pointer >= old(self).chars@.len()),
    {
        if self.pointer >= (self.chars.len() as isize) {
            self.is_eof = true;
            self.c = '\0';
            self.remaining = Vec::new();
        } else {
            let at = self.pointer as usize;
            self.c = self.chars[at];
            let rest = slice_subrange(self.chars.as_slice(), at + 1, self.chars.len());
            self.remaining = slice_to_vec(rest);
            assert(self.remaining@ =~= self.chars@.skip(self.pointer + 1));
        }
    }

    /// Moves the pointer by `size`.
    pub fn advance_by(&mut self, size: isize)
        requires
            old(self).wf(),
            old(self).pointer + size >= 0,
            old(self).pointer + size <= old(self).chars@.len() + 1,
        ensures
            final(self).wf(),
            final(self).chars == old(self).chars,
            final(self).pointer == old(self).pointer + size,
            final(self).is_eof == (old(self).is_eof || old(self).pointer + size >= old(self).chars@.len()),
    {
        self.pointer = self.pointer + size;
        self.update_c();
    }
}

/// A copy of a string.
pub(crate) fn copy_string(s: &String) -> (r: String)
    ensures
        r@ == s@,
{
    s.clone()
}

pub(crate) fn copy_opt_string(s: &Option<String>) -> (r: Option<String>)
    ensures
        opt_view(r) == opt_view(*s),
{
    match s {
        Some(x) => Some(x.clone()),
        None => None,
    }
}

fn copy_host(h: &Host) -> (r: Host)
    ensures
        r@ == h@,
{
    match h {
        Host::Domain(d) => Host::Domain(d.clone()),
        Host::IPAddress(IPAddress::IPv4(a)) => Host::IPAddress(IPAddress::IPv4(super::IPv4(a.0))),
        Host::IPAddress(IPAddress::IPv6(a)) => {
            let p = a.0;
            Host::IPAddress(IPAddress::IPv6(IPv6(p)))
        },
        Host::Opaque(o) => Host::Opaque(Opaque(o.0.clone())),
        Host::Empty => Host::Empty,
    }
}

pub(crate) fn copy_opt_host(h: &Option<Host>) -> (r: Option<Host>)
    ensures
        opt_host_view(r) == opt_host_view(*h),
{
    match h {
        Some(x) => Some(copy_host(x)),
        None => None,
    }
}

fn copy_segments(l: &Vec<String>) -> (r: Vec<String>)
    ensures
        string_views(r@) == string_views(l@),
{
    let mut out: Vec<String> = Vec::new();
    let mut i: usize = 0;
    while i < l.len()
        invariant
            i <= l@.len(),
            string_views(out@) =~= string_views(l@.take(i as int)),
        decreases l@.len() - i,
    {
        let ghost before = out@;
        let item = copy_string(&l[i]);
        out.push(item);
        assert(l@.take(i + 1) =~= l@.take(i as int).push(l@[i as int]));
        assert(string_views(out@) =~= string_views(before).push(l@[i as int]@));
        assert(string_views(l@.take(i + 1)) =~= string_views(l@.take(i as int)).push(l@[i as int]@));
        i = i + 1;
    }
    assert(l@.take(l@.len() as int) =~= l@);
    out
}

pub(crate) fn copy_path(p: &URLPath) -> (r: URLPath)
    ensures
        r@ == p@,
{
    match p {
        URLPath::Segment(s) => URLPath::Segment(s.clone()),
        URLPath::List(l) => URLPath::List(copy_segments(l)),
    }
}

/// A copy of a URL.
pub fn copy_url(u: &URL) -> (r: URL)
    ensures
        r@ == u@,
{
    URL {
        scheme: copy_string(&u.scheme),
        username: copy_string(&u.username),
        password: copy_string(&u.password),
        host: copy_opt_host(&u.host),
        port: u.port,
        path: copy_path(&u.path),
        query: copy_opt_string(&u.query),
        fragment: copy_opt_string(&u.fragment),
    }
}

impl URLPath {
    pub fn is_opaque(&self) -> (r: bool)
        ensures
            r == (self@ is Opaque),
    {
        match self {
            URLPath::Segment(_) => true,
            URLPath::List(_) => false,
        }
    }

    /// The segments of a path that is a list.
    fn _ensure_list(&self) -> (r: &Vec<String>)
        requires
            !(self@ is Opaque),
        ensures
            self@ == PathView::List(string_views(r@)),
    {
        match self {
            URLPath::Segment(_) => vstd::pervasive::unreached(),
            URLPath::List(l) => l,
        }
    }

    /// Appends a segment to a path that is a list.
    pub fn push(&mut self, elem: String)
        requires
            !(old(self)@ is Opaque),
        ensures
            final(self)@ == PathView::List(old(self)@->List_0.push(elem@)),
    {
        match self {
            URLPath::Segment(_) => {},
            URLPath::List(l) => {
                let ghost before = l@;
                l.push(elem);
                assert(string_views(l@) =~= string_views(before).push(elem@));
            },
        }
    }

    /// The path is an empty list.
    pub fn is_empty_list(&self) -> (r: bool)
        requires
            !(self@ is Opaque),
        ensures
            r == (self@->List_0.len() == 0),
    {
        match self {
            URLPath::Segment(_) => false,
            URLPath::List(l) => l.len() == 0,
        }
    }
}

impl URL {
    pub fn has_credentials(&self) -> (r: bool)
        ensures
            r == (self@.username.len() > 0 || self@.password.len() > 0),
    {
        self.username.as_str().unicode_len() > 0 || self.password.as_str().unicode_len() > 0
    }

    /// Path shortening (see `shorten`); `false`, with the URL unchanged,
    /// where `shorten` gives `None`.
    pub(crate) fn shorten_path(&mut self) -> (ok: bool)
        ensures
            ok == (shorten(old(self)@) is Some),
            ok ==> final(self)@ == shorten(old(self)@)->0,
            !ok ==> final(self)@ == old(self)@,
    {
        if self.path.is_opaque() {
            return false;
        }
        let file = ['f', 'i', 'l', 'e'];
        assert(file@ =~= s_file());
        let is_file = string_is(&self.scheme, &file);
        match &mut self.path {
            URLPath::Segment(_) => false,
            URLPath::List(path) => {
                if is_file && path.len() == 1 {
                    let first = chars_of(path[0].as_str());
                    match super::is_normalized_windows_drive_letter(first.as_slice()) {
                        None => {
                            return false;
                        },
                        Some(true) => {
                            return true;
                        },
                        Some(false) => {},
                    }
                }
                let ghost before = path@;
                let _ = path.pop();
                proof {
                    if before.len() > 0 {
                        assert(string_views(path@) =~= string_views(before).drop_last());
                    }
                }
                true
            },
        }
    }
}

} // verus!
