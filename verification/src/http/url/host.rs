//! Opaque hosts, host parsing (IPv6 in brackets, opaque, or a domain that
//! goes through IDNA and may turn out to be IPv4), and serialization.
use vstd::prelude::*;
use vstd::utf8::{decode_utf8, encode_utf8, valid_utf8};
use crate::text::{ascii_digit, ascii_hex_digit, chars_of, is_digit, is_hex_digit, push_char, push_decimal, push_str, string_of, decimal, string_from};
use crate::infra::Serializable;
use super::{Host, HostView, IPAddress, IPv4, IPv4ParseError, IPv6, IPv6ParseError, Opaque, OpaqueParseError, URLPath, PathView, is_url_codepoint, spec_is_url_codepoint, forbidden_host_code_point, is_forbidden_host_code_point, string_views};
use super::ipv6::spec_ipv6_parse;
use super::ipv4::spec_ipv4_parse;
use super::percent::{TextEncoding, PercentEncodeSet, percent_encoding_after_encoding, percent_encode_bytes, spec_percent_decode, percent_decode_checked, utf8_decode_checked, utf8_name};

verus! {

#[verifier::external_type_specification]
#[verifier::external_body]
pub struct ExIdnaErrors(idna::Errors);

/// The ASCII form that `idna::domain_to_ascii` gives a domain, if it gives
/// one.
pub uninterp spec fn domain_to_ascii_result(domain: Seq<char>) -> Option<Seq<char>>;

/// `idna::domain_to_ascii`: the UTS 46 ASCII form of a domain.
///
/// Trusted: the outcome is a function of the domain alone, named
/// `domain_to_ascii_result`; what it is on given domains is not stated.
#[verifier::external_body]
fn domain_to_ascii(domain: &str) -> (r: Result<String, idna::Errors>)
    ensures
        domain_to_ascii_result(domain@) == match r {
            Ok(s) => Some(s@),
            Err(_) => None::<Seq<char>>,
        },
{
    idna::domain_to_ascii(domain)
}

/// Why a host was refused.
#[derive(Debug)]
pub enum HostParseError {
    IPv6UnclosedValidation,
    IPv6ParsingError(IPv6ParseError),
    IPv4ParsingError(IPv4ParseError),
    OpaqueParseError(OpaqueParseError),
    DomainToAsciiError(idna::Errors),
}

/// The mathematical form of a host error.
pub enum HostErrorView {
    IPv6UnclosedValidation,
    IPv6ParsingError(IPv6ParseError),
    IPv4ParsingError(IPv4ParseError),
    OpaqueParseError(OpaqueParseError),
    DomainToAsciiError,
}

impl View for HostParseError {
    type V = HostErrorView;

    open spec fn view(&self) -> HostErrorView {
        match self {
            HostParseError::IPv6UnclosedValidation => HostErrorView::IPv6UnclosedValidation,
            HostParseError::IPv6ParsingError(e) => HostErrorView::IPv6ParsingError(*e),
            HostParseError::IPv4ParsingError(e) => HostErrorView::IPv4ParsingError(*e),
            HostParseError::OpaqueParseError(e) => HostErrorView::OpaqueParseError(*e),
            HostParseError::DomainToAsciiError(_) => HostErrorView::DomainToAsciiError,
        }
    }
}

/// The view of a host outcome, `None` standing for a panic.
pub open spec fn host_outcome_view(r: Option<Result<Host, HostParseError>>) -> Option<Result<HostView, HostErrorView>> {
    match r {
        None => None,
        Some(Ok(h)) => Some(Ok(h@)),
        Some(Err(e)) => Some(Err(e@)),
    }
}

/// The check of the code points of an opaque host from `i` on: each is a URL
/// code point or a `%` between two hexadecimal digits. `None` on a `%`
/// first, or a `%` last after a hexadecimal digit.
pub open spec fn opaque_scan(s: Seq<char>, i: int) -> Option<Result<(), OpaqueParseError>>
    decreases s.len() - i,
{
    if i >= s.len() || i < 0 {
        Some(Ok(()))
    } else {
        let c = s[i];
        if !spec_is_url_codepoint(c) && c != '%' {
            Some(Err(OpaqueParseError::InvalidURLUnit))
        } else if c == '%' {
            if i == 0 {
                None
            } else if !is_hex_digit(s[i - 1]) {
                Some(Err(OpaqueParseError::InvalidURLUnit))
            } else if i + 1 >= s.len() {
                None
            } else if !is_hex_digit(s[i + 1]) {
                Some(Err(OpaqueParseError::InvalidURLUnit))
            } else {
                opaque_scan(s, i + 1)
            }
        } else {
            opaque_scan(s, i + 1)
        }
    }
}

/// The opaque-host parser: refused when it holds a forbidden host code point
/// or fails the code-point check, else its UTF-8 bytes percent-encoded with
/// the C0 control set. `None` where `opaque_scan` gives `None`.
pub open spec fn spec_opaque_parse(s: Seq<char>) -> Option<Result<Seq<char>, OpaqueParseError>> {
    if exists|i: int| 0 <= i < s.len() && is_forbidden_host_code_point(#[trigger] s[i]) {
        Some(Err(OpaqueParseError::HostInvalidCodePoint))
    } else {
        match opaque_scan(s, 0) {
            None => None,
            Some(Err(e)) => Some(Err(e)),
            Some(Ok(())) => Some(Ok(percent_encode_bytes(encode_utf8(s), PercentEncodeSet::C0, false))),
        }
    }
}

/// The host of an ASCII domain: `None` on an empty domain, or where
/// `spec_ipv4_parse` gives `None`; an IPv4 address when the last code
/// point is a digit; else the domain.
pub open spec fn spec_from_ascii_domain(d: Seq<char>) -> Option<Result<HostView, HostErrorView>> {
    if d.len() == 0 {
        None
    } else if is_digit(d.last()) {
        match spec_ipv4_parse(d) {
            None => None,
            Some(Ok(v)) => Some(Ok(HostView::IPv4(v))),
            Some(Err(e)) => Some(Err(HostErrorView::IPv4ParsingError(e))),
        }
    } else {
        Some(Ok(HostView::Domain(d)))
    }
}

/// The host parser. `[...]` is an IPv6 address: what lies between the
/// bracket and the last two bytes (the code point before `]` is dropped) is
/// parsed. With `is_opaque` the input is an opaque host. Otherwise the input
/// is percent-decoded, read as UTF-8, turned into ASCII by IDNA, and read as
/// a domain or an IPv4 address. `None` on: a bracket pair with nothing or
/// a non-ASCII code point before `]`, an opaque or IPv4 parse that gives
/// `None`, a percent-decoding that panics or that gives
/// bytes that are not UTF-8, or an empty ASCII domain.
pub open spec fn spec_host_parse(s: Seq<char>, is_opaque: bool) -> Option<Result<HostView, HostErrorView>> {
    if s.len() > 0 && s[0] == '[' {
        if s.last() != ']' {
            Some(Err(HostErrorView::IPv6UnclosedValidation))
        } else if s.len() < 3 || (s[s.len() - 2] as u32) >= 0x80 {
            None
        } else {
            match spec_ipv6_parse(s.subrange(1, s.len() - 2)) {
                Ok(a) => Some(Ok(HostView::IPv6(a))),
                Err(e) => Some(Err(HostErrorView::IPv6ParsingError(e))),
            }
        }
    } else if is_opaque {
        match spec_opaque_parse(s) {
            None => None,
            Some(Ok(o)) => Some(Ok(HostView::Opaque(o))),
            Some(Err(e)) => Some(Err(HostErrorView::OpaqueParseError(e))),
        }
    } else {
        match spec_percent_decode(encode_utf8(s)) {
            None => None,
            Some(b) => if !valid_utf8(b) {
                None
            } else {
                match domain_to_ascii_result(decode_utf8(b)) {
                    None => Some(Err(HostErrorView::DomainToAsciiError)),
                    Some(d) => spec_from_ascii_domain(d),
                }
            },
        }
    }
}

impl Opaque {
    /// The opaque-host parser: `None` where `spec_opaque_parse` gives
    /// `None`.
    pub fn parse_checked(input: &String) -> (r: Option<Result<Opaque, OpaqueParseError>>)
        ensures
            match spec_opaque_parse(input@) {
                None => r is None,
                Some(Ok(o)) => r matches Some(Ok(x)) && x.0@ == o,
                Some(Err(e)) => r matches Some(Err(e2)) && e2 == e,
            },
    {
        let chars = chars_of(input.as_str());
        let n = chars.len();
        let mut k: usize = 0;
        while k < n
            invariant
                n == chars@.len(),
                chars@ == input@,
                k <= n,
                forall|j: int| 0 <= j < k ==> !is_forbidden_host_code_point(#[trigger] chars@[j]),
            decreases n - k,
        {
            if forbidden_host_code_point(chars[k]) {
                return Some(Err(OpaqueParseError::HostInvalidCodePoint));
            }
            k = k + 1;
        }
        let mut i: usize = 0;
        while i < n
            invariant
                n == chars@.len(),
                chars@ == input@,
                i <= n,
                opaque_scan(chars@, i as int) == opaque_scan(chars@, 0),
                forall|j: int| 0 <= j < n ==> !is_forbidden_host_code_point(#[trigger] chars@[j]),
            decreases n - i,
        {
            let c = chars[i];
            if !is_url_codepoint(c) && c != '%' {
                return Some(Err(OpaqueParseError::InvalidURLUnit));
            }
            if c == '%' {
                if i == 0 {
                    return None;
                }
                if !ascii_hex_digit(chars[i - 1]) {
                    return Some(Err(OpaqueParseError::InvalidURLUnit));
                }
                if i + 1 >= n {
                    return None;
                }
                if !ascii_hex_digit(chars[i + 1]) {
                    return Some(Err(OpaqueParseError::InvalidURLUnit));
                }
            }
            i = i + 1;
        }
        let enc = TextEncoding::utf8();
        let result = percent_encoding_after_encoding(&enc, input, PercentEncodeSet::C0, None);
        Some(Ok(Opaque(result)))
    }

    /// The opaque-host parser, on inputs where it does not panic.
    pub fn parse(input: &String) -> (r: Result<Opaque, OpaqueParseError>)
        requires
            spec_opaque_parse(input@) is Some,
        ensures
            match spec_opaque_parse(input@) {
                Some(Ok(o)) => r matches Ok(x) && x.0@ == o,
                Some(Err(e)) => r matches Err(e2) && e2 == e,
                None => false,
            },
    {
        match Opaque::parse_checked(input) {
            Some(r) => r,
            None => Err(OpaqueParseError::InvalidURLUnit),
        }
    }
}

impl Host {
    /// The host of an ASCII domain (what IDNA gave): an IPv4 address when
    /// its last code point is a digit, else the domain. `None` where
    /// `spec_from_ascii_domain` gives `None`.
    pub fn from_ascii_domain(dom_ascii: String) -> (r: Option<Result<Host, HostParseError>>)
        ensures
            host_outcome_view(r) == spec_from_ascii_domain(dom_ascii@),
    {
        let chars = chars_of(dom_ascii.as_str());
        if chars.len() == 0 {
            return None;
        }
        if ascii_digit(chars[chars.len() - 1]) {
            match IPv4::parse_checked(&chars) {
                None => None,
                Some(Ok(ipv4)) => Some(Ok(Host::IPAddress(IPAddress::IPv4(ipv4)))),
                Some(Err(e)) => Some(Err(HostParseError::IPv4ParsingError(e))),
            }
        } else {
            Some(Ok(Host::Domain(dom_ascii)))
        }
    }

    /// The host parser: `None` where `spec_host_parse` gives `None`.
    pub fn parse_checked(input: &String, is_opaque: Option<bool>) -> (r: Option<Result<Host, HostParseError>>)
        ensures
            host_outcome_view(r) == spec_host_parse(input@, is_opaque == Some(true)),
    {
        let chars = chars_of(input.as_str());
        let n = chars.len();
        if n > 0 && chars[0] == '[' {
            if chars[n - 1] != ']' {
                return Some(Err(HostParseError::IPv6UnclosedValidation));
            }
            if n < 3 || (chars[n - 2] as u32) >= 0x80 {
                return None;
            }
            let inner = string_of(chars.as_slice(), 1, n - 2);
            return match IPv6::parse(inner) {
                Ok(ip) => Some(Ok(Host::IPAddress(IPAddress::IPv6(ip)))),
                Err(e) => Some(Err(HostParseError::IPv6ParsingError(e))),
            };
        }
        let opaque = match is_opaque {
            Some(b) => b,
            None => false,
        };
        if opaque {
            return match Opaque::parse_checked(input) {
                None => None,
                Some(Ok(o)) => Some(Ok(Host::Opaque(o))),
                Some(Err(e)) => Some(Err(HostParseError::OpaqueParseError(e))),
            };
        }
        let decoded = match percent_decode_checked(input.as_str().as_bytes()) {
            None => {
                return None;
            },
            Some(d) => d,
        };
        let domain = match utf8_decode_checked(decoded) {
            None => {
                return None;
            },
            Some(d) => d,
        };
        match domain_to_ascii(domain.as_str()) {
            Err(e) => Some(Err(HostParseError::DomainToAsciiError(e))),
            Ok(dom_ascii) => Host::from_ascii_domain(dom_ascii),
        }
    }

    /// The host parser (see `spec_host_parse`), on inputs where it does not
    /// panic.
    pub fn parse(input: &String, is_opaque: Option<bool>) -> (r: Result<Host, HostParseError>)
        requires
            spec_host_parse(input@, is_opaque == Some(true)) is Some,
        ensures
            Some(match r {
                Ok(h) => Ok(h@),
                Err(e) => Err(e@),
            }) == spec_host_parse(input@, is_opaque == Some(true)),
    {
        match Host::parse_checked(input, is_opaque) {
            Some(r) => r,
            None => Err(HostParseError::IPv6UnclosedValidation),
        }
    }

    /// The host parser, or `None` where it would panic.
    pub fn try_parse(input: &String, is_opaque: Option<bool>) -> (r: Option<Result<Host, HostParseError>>)
        ensures
            host_outcome_view(r) == spec_host_parse(input@, is_opaque == Some(true)),
    {
        match Host::parse_checked(input, is_opaque) {
            None => None,
            Some(_) => Some(Host::parse(input, is_opaque)),
        }
    }
}

} // verus!
