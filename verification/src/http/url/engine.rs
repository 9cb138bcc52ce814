//! The URL parser itself: the state machine of `parser` run over the
//! prepared input, one step per code point, with each step proved to do what
//! `state_step` says.
use vstd::prelude::*;
use vstd::utf8::encode_utf8;
use vstd::slice::{slice_subrange, slice_to_vec};
use crate::text::{eq_ignore_ascii_case, ascii_alpha, ascii_digit, chars_of, push_char, push_str, string_from, to_lower, is_alpha, is_digit, lower};
use super::{Host, HostView, IPAddress, URL, URLView, URLPath, PathView, is_special_scheme, special_scheme_default_port, string_is, spec_is_special_scheme, s_file, s_blob, empty_url, is_windows_drive_letter, is_normalized_windows_drive_letter, starts_with_windows_drive_letter, is_single_dot, is_double_dot, string_views, spec_is_double_dot, spec_is_single_dot, spec_drive_letter, s_ws, s_wss};
use super::ipv4::{is_unicode_whitespace, unicode_whitespace, radix_value, digit_in_radix, lemma_radix_none_extends};
use super::host::{HostParseError, HostErrorView, host_outcome_view, spec_host_parse};
use super::percent::{TextEncoding, PercentEncodeSet, percent_encoding_after_encoding, percent_encode_bytes, encoded_text, utf8_name, utf8_label};
use super::parser::{ParseURLState, ParseURLErrorView, Machine, Step, state_step, url_step, run, cat, rem_starts, moved, go_moved, pct_char, path_push, shorten, auth_fold, ends_host, in_bounds, turns_left, lemma_turn_lowers_rank, StringPointer, is_alphanumeric, char_is_alphanumeric, copy_url, copy_string, copy_opt_string, copy_opt_host, copy_path, s_utf8, trim_ws, remove_tab_newline, prepared, initial_machine, turn_bound, spec_basic_url_parse, spec_url_parse, base_scheme_lower, lemma_parsed_scheme_lower};
use crate::text::no_ascii_upper;

verus! {

/// Why the URL parser refused an input.
#[derive(Debug)]
pub enum ParseURLError {
    Failure,
    MissingSchemeNonRelativeURL,
    HostMissing,
    HostParseError(HostParseError),
    PortOutOfRange,
    ParseIntError(std::num::ParseIntError),
    PortInvalid,
}

impl View for ParseURLError {
    type V = ParseURLErrorView;

    open spec fn view(&self) -> ParseURLErrorView {
        match self {
            ParseURLError::Failure => ParseURLErrorView::Failure,
            ParseURLError::MissingSchemeNonRelativeURL => ParseURLErrorView::MissingSchemeNonRelativeURL,
            ParseURLError::HostMissing => ParseURLErrorView::HostMissing,
            ParseURLError::HostParseError(e) => ParseURLErrorView::HostParseError(e@),
            ParseURLError::PortOutOfRange => ParseURLErrorView::PortOutOfRange,
            ParseURLError::ParseIntError(_) => ParseURLErrorView::ParseIntError,
            ParseURLError::PortInvalid => ParseURLErrorView::PortInvalid,
        }
    }
}

/// The view of an optional URL.
pub open spec fn opt_url(u: Option<URL>) -> Option<URLView> {
    match u {
        Some(x) => Some(x@),
        None => None,
    }
}

/// How a step ended: the machine goes on, the parser stops with an error,
/// or the input is one the parser refuses outright (see `spec_url_parse`).
enum Flow {
    Go,
    Stop(ParseURLError),
    Crash,
}

/// The outcome of a step agrees with `step`, the machine ending as `after`.
spec fn flow_matches(r: Flow, step: Step, after: Machine) -> bool {
    match r {
        Flow::Go => step == Step::Next(after),
        Flow::Stop(e) => step == Step::Done(Err(e@)),
        Flow::Crash => step is Crash,
    }
}

/// The running parser: the state, the buffer, the flags, the pointer into
/// the prepared input, the URL so far and the encoding of the query.
struct UrlParser {
    state: ParseURLState,
    buffer: Vec<char>,
    at_sign_seen: bool,
    inside_brackets: bool,
    password_token_seen: bool,
    pointer: StringPointer,
    url: URL,
    encoding: Option<TextEncoding>,
}

/// The name of an optional encoding.
pub open spec fn encoding_name(e: Option<TextEncoding>) -> Option<Seq<char>> {
    match e {
        Some(x) => Some(x.spec_name()),
        None => None,
    }
}

impl UrlParser {
    spec fn machine(&self) -> Machine {
        Machine {
            state: self.state,
            buffer: self.buffer@,
            at_sign_seen: self.at_sign_seen,
            inside_brackets: self.inside_brackets,
            password_token_seen: self.password_token_seen,
            p: self.pointer.pointer as int,
            eof: self.pointer.is_eof,
            url: self.url@,
            encoding: encoding_name(self.encoding),
        }
    }

    spec fn input(&self) -> Seq<char> {
        self.pointer.chars@
    }

    /// A machine ready for its next step.
    spec fn ready(&self) -> bool {
        &&& self.pointer.wf()
        &&& in_bounds(self.input().len() as int, self.machine())
    }

    /// Moves the pointer by `d`; `Crash` when it would go before the start.
    fn go(&mut self, d: isize) -> (r: Flow)
        requires
            old(self).pointer.wf(),
            old(self).pointer.pointer <= old(self).input().len(),
            -isize::MAX <= d <= 1,
        ensures
            final(self).pointer.wf(),
            final(self).input() == old(self).input(),
            r is Go || r is Crash,
            flow_matches(r, go_moved(old(self).input(), old(self).machine(), d as int), final(self).machine()),
    {
        let np = self.pointer.pointer + d;
        if np < 0 {
            Flow::Crash
        } else {
            self.pointer.advance_by(d);
            Flow::Go
        }
    }

    /// The code points after the pointer start with `ch`.
    fn remaining_starts(&self, ch: char) -> (r: bool)
        requires
            self.pointer.wf(),
        ensures
            r == rem_starts(self.input(), self.pointer.pointer as int, ch),
    {
        self.pointer.remaining.len() > 0 && self.pointer.remaining[0] == ch
    }
}

/// The state step of `before` ended as `r`, with the machine as `after`.
spec fn stepped(before: UrlParser, after: UrlParser, base: Option<URLView>, r: Flow) -> bool {
    &&& after.input() == before.input()
    &&& after.pointer.wf()
    &&& flow_matches(r, state_step(before.input(), base, before.machine()), after.machine())
}

/// The characters of two strings are equal.
pub(crate) fn same_string(a: &String, b: &String) -> (r: bool)
    ensures
        r == (a@ == b@),
{
    let v = chars_of(b.as_str());
    string_is(a, v.as_slice())
}

/// The percent-encoding of the UTF-8 form of `c`.
fn pct_encoded(c: char, set: PercentEncodeSet) -> (r: String)
    ensures
        r@ == pct_char(c, set),
{
    let mut one = String::new();
    push_char(&mut one, c);
    assert(one@ =~= seq![c]);
    let enc = TextEncoding::utf8();
    percent_encoding_after_encoding(&enc, &one, set, None)
}

/// Appends the characters of `t` to `v`.
fn append_chars(v: &mut Vec<char>, t: &String)
    ensures
        final(v)@ == old(v)@ + t@,
{
    let mut more = chars_of(t.as_str());
    v.append(&mut more);
}

impl UrlParser {
    fn step_scheme_start(&mut self, base: &Option<URL>) -> (r: Flow)
        requires
            old(self).ready(),
            old(self).state == ParseURLState::SchemeStart,
        ensures
            stepped(*old(self), *final(self), opt_url(*base), r),
    {
        proof {
            reveal(state_step);
        }
        let c = self.pointer.c;
        if ascii_alpha(c) {
            self.buffer.push(to_lower(c));
            self.state = ParseURLState::Scheme;
            Flow::Go
        } else {
            self.state = ParseURLState::NoScheme;
            self.go(-1)
        }
    }

    fn step_scheme(&mut self, base: &Option<URL>) -> (r: Flow)
        requires
            old(self).ready(),
            old(self).state == ParseURLState::Scheme,
        ensures
            stepped(*old(self), *final(self), opt_url(*base), r),
    {
        proof {
            reveal(state_step);
        }
        let c = self.pointer.c;
        if is_alphanumeric(c) || c == '+' || c == '-' || c == '.' {
            self.buffer.push(to_lower(c));
            Flow::Go
        } else if c == ':' {
            self.url.scheme = string_from(self.buffer.as_slice());
            self.buffer = Vec::new();
            let file = ['f', 'i', 'l', 'e'];
            assert(file@ =~= s_file());
            let same_as_base = match base {
                Some(b) => same_string(&b.scheme, &self.url.scheme),
                None => false,
            };
            if string_is(&self.url.scheme, &file) {
                self.state = ParseURLState::File;
                Flow::Go
            } else if is_special_scheme(&self.url.scheme) && same_as_base {
                self.state = ParseURLState::SpecialRelativeOrAuthority;
                Flow::Go
            } else if is_special_scheme(&self.url.scheme) {
                self.state = ParseURLState::SpecialAuthoritySlashes;
                Flow::Go
            } else if self.remaining_starts('/') {
                self.state = ParseURLState::PathOrAuthority;
                self.go(1)
            } else {
                self.url.path = URLPath::Segment(String::new());
                self.state = ParseURLState::OpaquePath;
                Flow::Go
            }
        } else {
            self.buffer = Vec::new();
            self.state = ParseURLState::NoScheme;
            let back = -self.pointer.pointer;
            self.go(back)
        }
    }

    fn step_no_scheme(&mut self, base: &Option<URL>) -> (r: Flow)
        requires
            old(self).ready(),
            old(self).state == ParseURLState::NoScheme,
        ensures
            stepped(*old(self), *final(self), opt_url(*base), r),
    {
        proof {
            reveal(state_step);
        }
        let c = self.pointer.c;
        match base {
            None => Flow::Stop(ParseURLError::MissingSchemeNonRelativeURL),
            Some(b) => {
                let file = ['f', 'i', 'l', 'e'];
                assert(file@ =~= s_file());
                if b.path.is_opaque() && c != '#' {
                    Flow::Stop(ParseURLError::MissingSchemeNonRelativeURL)
                } else if !string_is(&b.scheme, &file) {
                    self.state = ParseURLState::Relative;
                    self.go(-1)
                } else {
                    self.state = ParseURLState::File;
                    self.go(-1)
                }
            },
        }
    }

    fn step_special_relative_or_authority(&mut self, base: &Option<URL>) -> (r: Flow)
        requires
            old(self).ready(),
            old(self).state == ParseURLState::SpecialRelativeOrAuthority,
        ensures
            stepped(*old(self), *final(self), opt_url(*base), r),
    {
        proof {
            reveal(state_step);
        }
        if self.pointer.c == '/' && self.remaining_starts('/') {
            self.state = ParseURLState::SpecialAuthorityIgnoreSlashes;
            self.go(1)
        } else {
            self.state = ParseURLState::Relative;
            self.go(-1)
        }
    }

    fn step_path_or_authority(&mut self, base: &Option<URL>) -> (r: Flow)
        requires
            old(self).ready(),
            old(self).state == ParseURLState::PathOrAuthority,
        ensures
            stepped(*old(self), *final(self), opt_url(*base), r),
    {
        proof {
            reveal(state_step);
        }
        if self.pointer.c == '/' {
            self.state = ParseURLState::Authority;
            Flow::Go
        } else {
            self.state = ParseURLState::Path;
            self.go(-1)
        }
    }

    fn step_special_authority_slashes(&mut self, base: &Option<URL>) -> (r: Flow)
        requires
            old(self).ready(),
            old(self).state == ParseURLState::SpecialAuthoritySlashes,
        ensures
            stepped(*old(self), *final(self), opt_url(*base), r),
    {
        proof {
            reveal(state_step);
        }
        self.state = ParseURLState::SpecialAuthorityIgnoreSlashes;
        if self.pointer.c == '/' && self.remaining_starts('/') {
            self.go(1)
        } else {
            self.go(-1)
        }
    }

    fn step_special_authority_ignore_slashes(&mut self, base: &Option<URL>) -> (r: Flow)
        requires
            old(self).ready(),
            old(self).state == ParseURLState::SpecialAuthorityIgnoreSlashes,
        ensures
            stepped(*old(self), *final(self), opt_url(*base), r),
    {
        proof {
            reveal(state_step);
        }
        let c = self.pointer.c;
        if c != '/' && c != '\\' {
            self.state = ParseURLState::Authority;
            self.go(-1)
        } else {
            Flow::Go
        }
    }
}

impl UrlParser {
    fn step_relative(&mut self, base: &Option<URL>) -> (r: Flow)
        requires
            old(self).ready(),
            old(self).state == ParseURLState::Relative,
        ensures
            stepped(*old(self), *final(self), opt_url(*base), r),
    {
        proof {
            reveal(state_step);
        }
        let c = self.pointer.c;
        let b = match base {
            None => {
                return Flow::Crash;
            },
            Some(b) => b,
        };
        let file = ['f', 'i', 'l', 'e'];
        assert(file@ =~= s_file());
        if string_is(&b.scheme, &file) {
            return Flow::Crash;
        }
        self.url.scheme = copy_string(&b.scheme);
        if c == '/' || (is_special_scheme(&b.scheme) && c == '\\') {
            self.state = ParseURLState::RelativeSlash;
            return Flow::Go;
        }
        self.url.username = copy_string(&b.username);
        self.url.password = copy_string(&b.password);
        self.url.host = copy_opt_host(&b.host);
        self.url.port = b.port;
        self.url.path = copy_path(&b.path);
        self.url.query = copy_opt_string(&b.query);
        if c == '?' {
            self.url.query = Some(String::new());
            self.state = ParseURLState::Query;
            Flow::Go
        } else if c == '#' {
            self.url.fragment = Some(String::new());
            self.state = ParseURLState::Fragment;
            Flow::Go
        } else if !self.pointer.is_eof {
            self.url.query = None;
            if !self.url.shorten_path() {
                return Flow::Crash;
            }
            self.state = ParseURLState::Path;
            self.go(-1)
        } else {
            Flow::Go
        }
    }

    fn step_relative_slash(&mut self, base: &Option<URL>) -> (r: Flow)
        requires
            old(self).ready(),
            old(self).state == ParseURLState::RelativeSlash,
        ensures
            stepped(*old(self), *final(self), opt_url(*base), r),
    {
        proof {
            reveal(state_step);
        }
        let c = self.pointer.c;
        if is_special_scheme(&self.url.scheme) && (c == '/' || c == '\\') {
            self.state = ParseURLState::SpecialAuthorityIgnoreSlashes;
            Flow::Go
        } else if c == '/' {
            self.state = ParseURLState::Authority;
            Flow::Go
        } else {
            match base {
                Some(b) => {
                    self.url.username = copy_string(&b.username);
                    self.url.password = copy_string(&b.password);
                    self.url.host = copy_opt_host(&b.host);
                    self.url.port = b.port;
                    self.state = ParseURLState::Path;
                    self.go(-1)
                },
                None => Flow::Go,
            }
        }
    }

    /// The credentials after the buffer of an authority that ends at `@`:
    /// see `auth_fold`.
    fn fold_credentials(&mut self)
        requires
            old(self).ready(),
        ensures
            final(self).ready(),
            final(self).input() == old(self).input(),
            final(self).state == old(self).state,
            final(self).buffer@ == Seq::<char>::empty(),
            final(self).at_sign_seen,
            final(self).inside_brackets == old(self).inside_brackets,
            final(self).pointer == old(self).pointer,
            final(self).encoding == old(self).encoding,
            ({
                let buf1 = if old(self).at_sign_seen {
                    old(self).buffer@ + seq!['%', '4', '0']
                } else {
                    old(self).buffer@
                };
                let (pts, user, pass) = auth_fold(
                    buf1,
                    0,
                    old(self).password_token_seen,
                    old(self).url@.username,
                    old(self).url@.password,
                );
                &&& final(self).password_token_seen == pts
                &&& final(self).url@ == URLView { username: user, password: pass, ..old(self).url@ }
            }),
    {
        let mut buf1: Vec<char> = Vec::new();
        buf1.append(&mut self.buffer);
        if self.at_sign_seen {
            buf1.push('%');
            buf1.push('4');
            buf1.push('0');
        }
        let ghost b1 = buf1@;
        let ghost start = (old(self).password_token_seen, old(self).url@.username, old(self).url@.password);
        assert(b1 =~= if old(self).at_sign_seen {
            old(self).buffer@ + seq!['%', '4', '0']
        } else {
            old(self).buffer@
        });
        let mut pts = self.password_token_seen;
        let mut user = copy_string(&self.url.username);
        let mut pass = copy_string(&self.url.password);
        let mut i: usize = 0;
        while i < buf1.len()
            invariant
                buf1@ == b1,
                i <= b1.len(),
                auth_fold(b1, 0, start.0, start.1, start.2) == auth_fold(b1, i as int, pts, user@, pass@),
            decreases b1.len() - i,
        {
            let cp = buf1[i];
            if cp == ':' && !pts {
                pts = true;
            } else {
                let enc = pct_encoded(cp, PercentEncodeSet::Path);
                if pts {
                    push_str(&mut pass, enc.as_str());
                } else {
                    push_str(&mut user, enc.as_str());
                }
            }
            i = i + 1;
        }
        self.url.username = user;
        self.url.password = pass;
        self.password_token_seen = pts;
        self.at_sign_seen = true;
        self.buffer = Vec::new();
    }

    fn step_authority(&mut self, base: &Option<URL>) -> (r: Flow)
        requires
            old(self).ready(),
            old(self).state == ParseURLState::Authority,
        ensures
            stepped(*old(self), *final(self), opt_url(*base), r),
    {
        proof {
            reveal(state_step);
        }
        let c = self.pointer.c;
        if c == '@' {
            self.fold_credentials();
            Flow::Go
        } else if self.pointer.is_eof || c == '/' || c == '?' || c == '#' || (is_special_scheme(&self.url.scheme) && c == '\\') {
            if self.at_sign_seen && self.buffer.len() == 0 {
                return Flow::Stop(ParseURLError::HostMissing);
            }
            let k = self.buffer.len();
            self.buffer = Vec::new();
            self.state = ParseURLState::Host;
            if k >= self.pointer.pointer as usize {
                return Flow::Crash;
            }
            let back = -((k as isize) + 1);
            self.go(back)
        } else {
            self.buffer.push(c);
            Flow::Go
        }
    }
}

/// The decimal value of a port buffer, capped at 65536: `None` when a code
/// point is not a digit.
fn port_number(buf: &Vec<char>) -> (r: Option<u32>)
    ensures
        r is None <==> radix_value(buf@, 10) is None,
        r matches Some(v) ==> {
            let x = radix_value(buf@, 10)->0;
            &&& (x <= 65535 ==> v == x)
            &&& (x > 65535 <==> v > 65535)
        },
{
    let mut value: u32 = 0;
    let mut i: usize = 0;
    while i < buf.len()
        invariant
            i <= buf@.len(),
            radix_value(buf@.take(i as int), 10) is Some,
            ({
                let x = radix_value(buf@.take(i as int), 10)->0;
                &&& x >= 0
                &&& (x <= 65535 ==> value == x)
                &&& (x > 65535 <==> value == 65536)
            }),
        decreases buf@.len() - i,
    {
        assert(buf@.take(i + 1).drop_last() =~= buf@.take(i as int));
        match digit_in_radix(buf[i], 10) {
            None => {
                proof {
                    lemma_radix_none_extends(buf@, 10, i + 1);
                }
                return None;
            },
            Some(d) => {
                if value > 65535 {
                    value = 65536;
                } else {
                    value = value * 10 + d;
                    if value > 65535 {
                        value = 65536;
                    }
                }
            },
        }
        i = i + 1;
    }
    assert(buf@.take(buf@.len() as int) =~= buf@);
    Some(value)
}

impl UrlParser {
    fn step_host(&mut self, base: &Option<URL>) -> (r: Flow)
        requires
            old(self).ready(),
            old(self).state == ParseURLState::Host || old(self).state == ParseURLState::Hostname,
        ensures
            stepped(*old(self), *final(self), opt_url(*base), r),
    {
        proof {
            reveal(state_step);
        }
        let c = self.pointer.c;
        let special = is_special_scheme(&self.url.scheme);
        if c == ':' && !self.inside_brackets {
            if self.buffer.len() == 0 {
                return Flow::Stop(ParseURLError::HostMissing);
            }
            let text = string_from(self.buffer.as_slice());
            match Host::parse_checked(&text, Some(!special)) {
                None => Flow::Crash,
                Some(Err(e)) => Flow::Stop(ParseURLError::HostParseError(e)),
                Some(Ok(h)) => {
                    self.url.host = Some(h);
                    self.buffer = Vec::new();
                    self.state = ParseURLState::Port;
                    Flow::Go
                },
            }
        } else if self.pointer.is_eof || c == '/' || c == '?' || c == '#' || (special && c == '\\') {
            if self.pointer.pointer == 0 {
                return Flow::Crash;
            }
            if special && self.buffer.len() == 0 {
                return Flow::Stop(ParseURLError::HostMissing);
            }
            let text = string_from(self.buffer.as_slice());
            match Host::parse_checked(&text, Some(!special)) {
                None => Flow::Crash,
                Some(Err(e)) => Flow::Stop(ParseURLError::HostParseError(e)),
                Some(Ok(h)) => {
                    self.url.host = Some(h);
                    self.buffer = Vec::new();
                    self.state = ParseURLState::PathStart;
                    self.go(-1)
                },
            }
        } else {
            if c == '[' {
                self.inside_brackets = true;
            } else if c == ']' {
                self.inside_brackets = false;
            }
            self.buffer.push(c);
            Flow::Go
        }
    }

    fn step_port(&mut self, base: &Option<URL>) -> (r: Flow)
        requires
            old(self).ready(),
            old(self).state == ParseURLState::Port,
        ensures
            stepped(*old(self), *final(self), opt_url(*base), r),
    {
        proof {
            reveal(state_step);
        }
        let c = self.pointer.c;
        if ascii_digit(c) {
            self.buffer.push(c);
            Flow::Go
        } else if self.pointer.is_eof || c == '/' || c == '?' || c == '#' || (is_special_scheme(&self.url.scheme) && c == '\\') {
            if self.buffer.len() > 0 {
                match port_number(&self.buffer) {
                    None => {
                        return Flow::Crash;
                    },
                    Some(v) => {
                        if v > 65535 {
                            return Flow::Stop(ParseURLError::PortOutOfRange);
                        }
                        let port = v as u16;
                        let is_default = match special_scheme_default_port(&self.url.scheme) {
                            Some(d) => d == port,
                            None => false,
                        };
                        if is_default {
                            self.url.port = None;
                        } else {
                            self.url.port = Some(port);
                        }
                        self.buffer = Vec::new();
                    },
                }
            }
            self.state = ParseURLState::PathStart;
            self.go(-1)
        } else {
            Flow::Stop(ParseURLError::PortInvalid)
        }
    }

    fn step_file(&mut self, base: &Option<URL>) -> (r: Flow)
        requires
            old(self).ready(),
            old(self).state == ParseURLState::File,
        ensures
            stepped(*old(self), *final(self), opt_url(*base), r),
    {
        proof {
            reveal(state_step);
        }
        let c = self.pointer.c;
        let file = ['f', 'i', 'l', 'e'];
        assert(file@ =~= s_file());
        self.url.scheme = string_from(&file);
        self.url.host = Some(Host::Empty);
        if c == '/' || c == '\\' {
            self.state = ParseURLState::FileSlash;
            return Flow::Go;
        }
        let b = match base {
            Some(b) => {
                if !string_is(&b.scheme, &file) {
                    self.state = ParseURLState::Path;
                    return self.go(-1);
                }
                b
            },
            None => {
                self.state = ParseURLState::Path;
                return self.go(-1);
            },
        };
        self.url.host = copy_opt_host(&b.host);
        self.url.path = copy_path(&b.path);
        self.url.query = copy_opt_string(&b.query);
        if c == '?' {
            self.url.query = Some(String::new());
            self.state = ParseURLState::Query;
            Flow::Go
        } else if c == '#' {
            self.url.fragment = Some(String::new());
            self.state = ParseURLState::Fragment;
            Flow::Go
        } else if !self.pointer.is_eof {
            self.url.query = None;
            let at = self.pointer.pointer as usize;
            let rest = slice_subrange(self.pointer.chars.as_slice(), at, self.pointer.chars.len());
            assert(rest@ =~= self.input().skip(at as int));
            if !starts_with_windows_drive_letter(rest) {
                if !self.url.shorten_path() {
                    return Flow::Crash;
                }
            } else {
                self.url.path = URLPath::List(Vec::new());
                assert(string_views(Seq::<String>::empty()) =~= Seq::<Seq<char>>::empty());
            }
            self.state = ParseURLState::Path;
            self.go(-1)
        } else {
            Flow::Go
        }
    }

    fn step_file_slash(&mut self, base: &Option<URL>) -> (r: Flow)
        requires
            old(self).ready(),
            old(self).state == ParseURLState::FileSlash,
        ensures
            stepped(*old(self), *final(self), opt_url(*base), r),
    {
        proof {
            reveal(state_step);
        }
        let c = self.pointer.c;
        if c == '/' || c == '\\' {
            self.state = ParseURLState::FileHost;
            return Flow::Go;
        }
        let file = ['f', 'i', 'l', 'e'];
        assert(file@ =~= s_file());
        match base {
            Some(b) => {
                if string_is(&b.scheme, &file) {
                    match &b.path {
                        URLPath::Segment(_) => {
                            return Flow::Crash;
                        },
                        URLPath::List(l) => {
                            self.url.host = copy_opt_host(&b.host);
                            let at = self.pointer.pointer as usize;
                            let rest = slice_subrange(self.pointer.chars.as_slice(), at, self.pointer.chars.len());
                            assert(rest@ =~= self.input().skip(at as int));
                            if !starts_with_windows_drive_letter(rest) {
                                if l.len() == 0 {
                                    return Flow::Crash;
                                }
                                let first = chars_of(l[0].as_str());
                                match is_normalized_windows_drive_letter(first.as_slice()) {
                                    None => {
                                        return Flow::Crash;
                                    },
                                    Some(true) => {
                                        if self.url.path.is_opaque() {
                                            return Flow::Crash;
                                        }
                                        self.url.path.push(copy_string(&l[0]));
                                    },
                                    Some(false) => {},
                                }
                            }
                        },
                    }
                }
            },
            None => {},
        }
        self.state = ParseURLState::Path;
        self.go(-1)
    }

    fn step_file_host(&mut self, base: &Option<URL>) -> (r: Flow)
        requires
            old(self).ready(),
            old(self).state == ParseURLState::FileHost,
        ensures
            stepped(*old(self), *final(self), opt_url(*base), r),
    {
        proof {
            reveal(state_step);
        }
        let c = self.pointer.c;
        if self.pointer.is_eof || c == '/' || c == '\\' || c == '?' || c == '#' {
            if self.pointer.pointer == 0 {
                return Flow::Crash;
            }
            match is_windows_drive_letter(self.buffer.as_slice()) {
                None => Flow::Crash,
                Some(true) => {
                    self.state = ParseURLState::Path;
                    self.go(-1)
                },
                Some(false) => {
                    let special = is_special_scheme(&self.url.scheme);
                    let text = string_from(self.buffer.as_slice());
                    match Host::parse_checked(&text, Some(!special)) {
                        None => Flow::Crash,
                        Some(Err(e)) => Flow::Stop(ParseURLError::HostParseError(e)),
                        Some(Ok(h)) => {
                            let localhost = ['l', 'o', 'c', 'a', 'l', 'h', 'o', 's', 't'];
                            assert(localhost@ =~= seq!['l', 'o', 'c', 'a', 'l', 'h', 'o', 's', 't']);
                            let is_localhost = match &h {
                                Host::Opaque(o) => string_is(&o.0, &localhost),
                                _ => false,
                            };
                            if is_localhost {
                                self.url.host = Some(Host::Empty);
                            } else {
                                self.url.host = Some(h);
                            }
                            self.buffer = Vec::new();
                            self.state = ParseURLState::PathStart;
                            self.go(-1)
                        },
                    }
                },
            }
        } else {
            self.buffer.push(c);
            Flow::Go
        }
    }
}

/// The two sequences are equal up to ASCII case.
fn ascii_case_eq(a: &[char], b: &[char]) -> (r: bool)
    ensures
        r == eq_ignore_ascii_case(a@, b@),
{
    if a.len() != b.len() {
        return false;
    }
    let mut i: usize = 0;
    while i < a.len()
        invariant
            a@.len() == b@.len(),
            i <= a@.len(),
            forall|j: int| 0 <= j < i ==> lower(#[trigger] a@[j]) == lower(b@[j]),
        decreases a@.len() - i,
    {
        if to_lower(a[i]) != to_lower(b[i]) {
            return false;
        }
        i = i + 1;
    }
    true
}

impl UrlParser {
    fn step_path_start(&mut self, base: &Option<URL>) -> (r: Flow)
        requires
            old(self).ready(),
            old(self).state == ParseURLState::PathStart,
        ensures
            stepped(*old(self), *final(self), opt_url(*base), r),
    {
        proof {
            reveal(state_step);
        }
        let c = self.pointer.c;
        if is_special_scheme(&self.url.scheme) {
            self.state = ParseURLState::Path;
            if c != '/' && c != '\\' {
                self.go(-1)
            } else {
                Flow::Go
            }
        } else if c == '?' {
            self.url.query = Some(String::new());
            self.state = ParseURLState::Query;
            Flow::Go
        } else if c == '#' {
            self.url.fragment = Some(String::new());
            self.state = ParseURLState::Fragment;
            Flow::Go
        } else if !self.pointer.is_eof {
            self.state = ParseURLState::Path;
            if c != '/' {
                self.go(-1)
            } else {
                Flow::Go
            }
        } else {
            Flow::Go
        }
    }

    /// The segment that the path state appends at the end of a segment;
    /// `None` where `path_push` or `shorten` gives `None`.
    fn path_segment_end(&mut self, c: char) -> (ok: bool)
        requires
            old(self).ready(),
        ensures
            final(self).ready(),
            final(self).input() == old(self).input(),
            final(self).state == old(self).state,
            final(self).pointer == old(self).pointer,
            final(self).at_sign_seen == old(self).at_sign_seen,
            final(self).inside_brackets == old(self).inside_brackets,
            final(self).password_token_seen == old(self).password_token_seen,
            final(self).encoding == old(self).encoding,
            ({
                let m = old(self).machine();
                let special = spec_is_special_scheme(m.url.scheme);
                let back_slash_push = !special && c == '\\';
                let url1: Option<URLView> = if spec_is_double_dot(m.buffer) {
                    match shorten(m.url) {
                        None => None,
                        Some(u) => if back_slash_push {
                            path_push(u, Seq::empty())
                        } else {
                            Some(u)
                        },
                    }
                } else if spec_is_single_dot(m.buffer) && back_slash_push {
                    path_push(m.url, Seq::empty())
                } else if !spec_is_single_dot(m.buffer) {
                    let buf2: Option<Seq<char>> = if m.url.scheme == s_file() {
                        match m.url.path {
                            PathView::Opaque(_) => None,
                            PathView::List(l) => if l.len() == 0 {
                                match spec_drive_letter(m.buffer, true) {
                                    None => None,
                                    Some(true) => if m.buffer.len() < 3 {
                                        None
                                    } else {
                                        Some(m.buffer.update(2, ':'))
                                    },
                                    Some(false) => Some(m.buffer),
                                }
                            } else {
                                Some(m.buffer)
                            },
                        }
                    } else {
                        Some(m.buffer)
                    };
                    match buf2 {
                        None => None,
                        Some(b) => path_push(m.url, b),
                    }
                } else {
                    Some(m.url)
                };
                &&& ok == (url1 is Some)
                &&& ok ==> final(self).url@ == url1->0
                &&& final(self).buffer@ == Seq::<char>::empty()
            }),
    {
        let special = is_special_scheme(&self.url.scheme);
        let back_slash_push = !special && c == '\\';
        let ok = if is_double_dot(self.buffer.as_slice()) {
            if !self.url.shorten_path() {
                false
            } else if back_slash_push {
                if self.url.path.is_opaque() {
                    false
                } else {
                    self.url.path.push(String::new());
                    true
                }
            } else {
                true
            }
        } else if is_single_dot(self.buffer.as_slice()) && back_slash_push {
            if self.url.path.is_opaque() {
                false
            } else {
                self.url.path.push(String::new());
                true
            }
        } else if !is_single_dot(self.buffer.as_slice()) {
            let file = ['f', 'i', 'l', 'e'];
            assert(file@ =~= s_file());
            let mut fine = true;
            if string_is(&self.url.scheme, &file) {
                if self.url.path.is_opaque() {
                    fine = false;
                } else if self.url.path.is_empty_list() {
                    match is_windows_drive_letter(self.buffer.as_slice()) {
                        None => {
                            fine = false;
                        },
                        Some(true) => {
                            if self.buffer.len() < 3 {
                                fine = false;
                            } else {
                                self.buffer.set(2, ':');
                            }
                        },
                        Some(false) => {},
                    }
                }
            }
            if !fine || self.url.path.is_opaque() {
                false
            } else {
                let seg = string_from(self.buffer.as_slice());
                self.url.path.push(seg);
                true
            }
        } else {
            true
        };
        self.buffer = Vec::new();
        ok
    }

    fn step_path(&mut self, base: &Option<URL>) -> (r: Flow)
        requires
            old(self).ready(),
            old(self).state == ParseURLState::Path,
        ensures
            stepped(*old(self), *final(self), opt_url(*base), r),
    {
        proof {
            reveal(state_step);
        }
        let c = self.pointer.c;
        let special = is_special_scheme(&self.url.scheme);
        if self.pointer.is_eof || c == '/' || (special && c == '\\') || c == '?' || c == '#' {
            if !self.path_segment_end(c) {
                return Flow::Crash;
            }
            if c == '?' {
                self.url.query = Some(String::new());
                self.state = ParseURLState::Query;
            } else if c == '#' {
                self.url.fragment = Some(String::new());
                self.state = ParseURLState::Fragment;
            }
            Flow::Go
        } else {
            let e = pct_encoded(c, PercentEncodeSet::Path);
            append_chars(&mut self.buffer, &e);
            Flow::Go
        }
    }

    fn step_opaque_path(&mut self, base: &Option<URL>) -> (r: Flow)
        requires
            old(self).ready(),
            old(self).state == ParseURLState::OpaquePath,
        ensures
            stepped(*old(self), *final(self), opt_url(*base), r),
    {
        proof {
            reveal(state_step);
        }
        let c = self.pointer.c;
        if c == '?' {
            self.url.query = Some(String::new());
            self.state = ParseURLState::Query;
            Flow::Go
        } else if c == '#' {
            self.url.fragment = Some(String::new());
            self.state = ParseURLState::Fragment;
            Flow::Go
        } else if c == ' ' {
            let mut seg = String::new();
            if self.remaining_starts('?') || self.remaining_starts('#') {
                push_char(&mut seg, '%');
                push_char(&mut seg, '2');
                push_char(&mut seg, '0');
                assert(seg@ =~= seq!['%', '2', '0']);
            } else {
                push_char(&mut seg, ' ');
                assert(seg@ =~= seq![' ']);
            }
            if self.url.path.is_opaque() {
                return Flow::Crash;
            }
            self.url.path.push(seg);
            Flow::Go
        } else if !self.pointer.is_eof {
            let e = pct_encoded(c, PercentEncodeSet::C0);
            append_chars(&mut self.buffer, &e);
            Flow::Go
        } else {
            Flow::Go
        }
    }

    fn step_query(&mut self, base: &Option<URL>) -> (r: Flow)
        requires
            old(self).ready(),
            old(self).state == ParseURLState::Query,
        ensures
            stepped(*old(self), *final(self), opt_url(*base), r),
    {
        proof {
            reveal(state_step);
        }
        let utf8 = ['u', 't', 'f', '-', '8'];
        assert(utf8@ =~= s_utf8());
        let not_utf8 = match &self.encoding {
            None => true,
            Some(e) => {
                let name = chars_of(e.name().as_str());
                !ascii_case_eq(name.as_slice(), &utf8)
            },
        };
        let ws = ['w', 's'];
        let wss = ['w', 's', 's'];
        assert(ws@ =~= s_ws());
        assert(wss@ =~= s_wss());
        if not_utf8 && (!is_special_scheme(&self.url.scheme) || string_is(&self.url.scheme, &ws)
            || string_is(&self.url.scheme, &wss)) {
            let label: [u8; 5] = [0x75u8, 0x74u8, 0x66u8, 0x2du8, 0x38u8];
            assert(label@ =~= utf8_label());
            self.encoding = TextEncoding::for_label(&label);
        }
        if !self.pointer.is_eof {
            self.buffer.push(self.pointer.c);
        }
        Flow::Go
    }

    fn step_fragment(&mut self, base: &Option<URL>) -> (r: Flow)
        requires
            old(self).ready(),
            old(self).state == ParseURLState::Fragment,
        ensures
            stepped(*old(self), *final(self), opt_url(*base), r),
    {
        proof {
            reveal(state_step);
        }
        if self.pointer.is_eof {
            return Flow::Go;
        }
        match &self.encoding {
            None => Flow::Crash,
            Some(e) => {
                let text = string_from(self.buffer.as_slice());
                let result = percent_encoding_after_encoding(e, &text, PercentEncodeSet::Fragment, None);
                let f = match &self.url.fragment {
                    Some(f) => {
                        let mut g = copy_string(f);
                        push_str(&mut g, result.as_str());
                        g
                    },
                    None => result,
                };
                self.url.fragment = Some(f);
                Flow::Go
            },
        }
    }

    /// One step of the machine, by its state.
    fn step(&mut self, base: &Option<URL>) -> (r: Flow)
        requires
            old(self).ready(),
        ensures
            stepped(*old(self), *final(self), opt_url(*base), r),
    {
        match self.state {
            ParseURLState::SchemeStart => self.step_scheme_start(base),
            ParseURLState::Scheme => self.step_scheme(base),
            ParseURLState::NoScheme => self.step_no_scheme(base),
            ParseURLState::SpecialRelativeOrAuthority => self.step_special_relative_or_authority(base),
            ParseURLState::PathOrAuthority => self.step_path_or_authority(base),
            ParseURLState::Relative => self.step_relative(base),
            ParseURLState::RelativeSlash => self.step_relative_slash(base),
            ParseURLState::SpecialAuthoritySlashes => self.step_special_authority_slashes(base),
            ParseURLState::SpecialAuthorityIgnoreSlashes => self.step_special_authority_ignore_slashes(base),
            ParseURLState::Authority => self.step_authority(base),
            ParseURLState::Host => self.step_host(base),
            ParseURLState::Hostname => self.step_host(base),
            ParseURLState::Port => self.step_port(base),
            ParseURLState::File => self.step_file(base),
            ParseURLState::FileSlash => self.step_file_slash(base),
            ParseURLState::FileHost => self.step_file_host(base),
            ParseURLState::PathStart => self.step_path_start(base),
            ParseURLState::Path => self.step_path(base),
            ParseURLState::OpaquePath => self.step_opaque_path(base),
            ParseURLState::Query => self.step_query(base),
            ParseURLState::Fragment => self.step_fragment(base),
        }
    }
}

/// The code points of `v` with the white space at both ends trimmed.
fn trim_chars(v: &Vec<char>) -> (r: Vec<char>)
    ensures
        r@ == trim_ws(v@),
        r@.len() <= v@.len(),
{
    let mut i: usize = 0;
    let mut j: usize = v.len();
    assert(v@.subrange(0, j as int) =~= v@);
    while i < j && unicode_whitespace(v[i])
        invariant
            i <= j == v@.len(),
            trim_ws(v@) == trim_ws(v@.subrange(i as int, j as int)),
        decreases j - i,
    {
        assert(v@.subrange(i as int, j as int).drop_first() =~= v@.subrange(i + 1, j as int));
        i = i + 1;
    }
    while j > i && unicode_whitespace(v[j - 1])
        invariant
            i <= j <= v@.len(),
            i < j ==> !is_unicode_whitespace(v@[i as int]),
            trim_ws(v@) == trim_ws(v@.subrange(i as int, j as int)),
        decreases j - i,
    {
        assert(v@.subrange(i as int, j as int).drop_last() =~= v@.subrange(i as int, j - 1));
        j = j - 1;
    }
    slice_to_vec(slice_subrange(v.as_slice(), i, j))
}

/// The code points of `v` without its tabs and newlines.
fn without_tab_newline(v: &Vec<char>) -> (r: Vec<char>)
    ensures
        r@ == remove_tab_newline(v@),
        r@.len() <= v@.len(),
{
    let mut out: Vec<char> = Vec::new();
    let mut i: usize = 0;
    while i < v.len()
        invariant
            i <= v@.len(),
            out@ == remove_tab_newline(v@.take(i as int)),
            out@.len() <= i,
        decreases v@.len() - i,
    {
        assert(v@.take(i + 1).drop_last() =~= v@.take(i as int));
        let c = v[i];
        if c != '\t' && c != '\n' {
            out.push(c);
        }
        i = i + 1;
    }
    assert(v@.take(v@.len() as int) =~= v@);
    out
}

/// The outcome of a run of the machine: the URL or the error it finished
/// with, or `None` where it would panic.
pub open spec fn step_outcome(r: Step) -> Option<Result<URLView, ParseURLErrorView>> {
    match r {
        Step::Done(x) => Some(x),
        _ => None,
    }
}

/// The view of a parser outcome, `None` standing for a panic.
pub open spec fn url_outcome_view(r: Option<Result<URL, ParseURLError>>) -> Option<Result<URLView, ParseURLErrorView>> {
    match r {
        None => None,
        Some(Ok(u)) => Some(Ok(u@)),
        Some(Err(e)) => Some(Err(e@)),
    }
}

impl URL {
    /// The basic URL parser: trims the input, drops its tabs and newlines,
    /// and runs the state machine until it finishes. `None` where
    /// `spec_basic_url_parse` gives `None`.
    fn basic_url_parser(input: String, base: &Option<URL>, encoding: Option<TextEncoding>) -> (r: Option<Result<URL, ParseURLError>>)
        requires
            input@.len() < isize::MAX,
        ensures
            url_outcome_view(r) == step_outcome(spec_basic_url_parse(input@, opt_url(*base), encoding_name(encoding))),
    {
        let raw = chars_of(input.as_str());
        let trimmed = trim_chars(&raw);
        let prepared_chars = without_tab_newline(&trimmed);
        let ghost s = prepared_chars@;
        let ghost b = opt_url(*base);
        let ghost target = spec_basic_url_parse(input@, b, encoding_name(encoding));
        let mut parser = UrlParser {
            state: ParseURLState::SchemeStart,
            buffer: Vec::new(),
            at_sign_seen: false,
            inside_brackets: false,
            password_token_seen: false,
            pointer: StringPointer::new(string_from(prepared_chars.as_slice())),
            url: URL::default(),
            encoding: encoding,
        };
        assert(parser.machine() == initial_machine(s, encoding_name(encoding)));
        let ghost mut fuel: nat = turn_bound(s.len() as int);
        loop
            invariant
                parser.ready(),
                parser.input() == s,
                b == opt_url(*base),
                target == spec_basic_url_parse(input@, opt_url(*base), encoding_name(encoding)),
                fuel > turns_left(s.len() as int, parser.machine()),
                run(s, b, parser.machine(), fuel) == target,
            decreases turns_left(s.len() as int, parser.machine()),
        {
            proof {
                lemma_turn_lowers_rank(s, b, parser.machine());
            }
            let ghost before = parser.machine();
            assert(run(s, b, before, fuel) == match url_step(s, b, before) {
                Step::Next(m2) => run(s, b, m2, (fuel - 1) as nat),
                other => other,
            });
            match parser.step(base) {
                Flow::Crash => {
                    assert(url_step(s, b, before) is Crash);
                    return None;
                },
                Flow::Stop(e) => {
                    assert(url_step(s, b, before) == Step::Done(Err::<URLView, ParseURLErrorView>(e@)));
                    return Some(Err(e));
                },
                Flow::Go => {},
            }
            if parser.pointer.is_eof {
                assert(url_step(s, b, before) == Step::Done(Ok::<URLView, ParseURLErrorView>(parser.url@)));
                return Some(Ok(parser.url));
            }
            parser.pointer.advance_by(1);
            proof {
                fuel = (fuel - 1) as nat;
            }
        }
    }
}

impl URL {
    /// The URL parser, with an optional base URL and the encoding of the
    /// query and fragment: the URL, the error that refused the input, or
    /// `None` where `spec_url_parse` gives `None`.
    pub fn try_parse(input: String, base: Option<URL>, encoding: Option<TextEncoding>) -> (r: Option<Result<URL, ParseURLError>>)
        requires
            input@.len() < isize::MAX,
        ensures
            url_outcome_view(r) == spec_url_parse(input@, opt_url(base), encoding_name(encoding)),
    {
        match URL::basic_url_parser(input, &base, encoding) {
            None => None,
            Some(Err(e)) => Some(Err(e)),
            Some(Ok(url)) => {
                let blob = ['b', 'l', 'o', 'b'];
                assert(blob@ =~= s_blob());
                if string_is(&url.scheme, &blob) {
                    None
                } else {
                    Some(Ok(url))
                }
            },
        }
    }

    /// The URL parser on inputs where it does not panic.
    pub fn parse(input: String, base: Option<URL>, encoding: Option<TextEncoding>) -> (r: Result<URL, ParseURLError>)
        requires
            input@.len() < isize::MAX,
            spec_url_parse(input@, opt_url(base), encoding_name(encoding)) is Some,
        ensures
            url_outcome_view(Some(r)) == spec_url_parse(input@, opt_url(base), encoding_name(encoding)),
            base_scheme_lower(opt_url(base)) ==> (r matches Ok(u) ==> no_ascii_upper(u@.scheme)),
    {
        proof {
            if base_scheme_lower(opt_url(base)) {
                lemma_parsed_scheme_lower(input@, opt_url(base), encoding_name(encoding));
            }
        }
        match URL::try_parse(input, base, encoding) {
            Some(r) => r,
            None => vstd::pervasive::unreached(),
        }
    }

    /// The URL parser with no base URL and no encoding.
    pub fn pure_parse(input: String) -> (r: Result<URL, ParseURLError>)
        requires
            input@.len() < isize::MAX,
            spec_url_parse(input@, None, None) is Some,
        ensures
            url_outcome_view(Some(r)) == spec_url_parse(input@, None, None),
            r matches Ok(u) ==> no_ascii_upper(u@.scheme),
    {
        URL::parse(input, None, None)
    }

    /// The URL parser with no base URL and no encoding, or `None` where it
    /// would panic.
    pub fn try_pure_parse(input: String) -> (r: Option<Result<URL, ParseURLError>>)
        requires
            input@.len() < isize::MAX,
        ensures
            url_outcome_view(r) == spec_url_parse(input@, None, None),
            r matches Some(Ok(u)) ==> no_ascii_upper(u@.scheme),
    {
        proof {
            lemma_parsed_scheme_lower(input@, None, None);
        }
        let probe = URL::try_parse(copy_string(&input), None, None);
        match probe {
            None => None,
            Some(_) => Some(URL::pure_parse(input)),
        }
    }
}

} // verus!
