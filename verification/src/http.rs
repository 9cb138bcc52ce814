//! HTTP-side addressing: a small `scheme://host[:port]/path` splitter and the
//! WHATWG URL parser (`url`).
use vstd::prelude::*;
use crate::text::{chars_of, push_char, push_decimal, push_str, string_of, decimal};
use url::ipv4::{from_str_radix, from_str_radix_u32, radix_value, digit_value};
use crate::text::digit_char;
use url::{s_http, s_https};

pub mod url;
pub mod dns;

verus! {

/// The two schemes that the HTTP client speaks.
#[derive(Debug, Clone)]
pub enum Scheme {
    HTTP,
    HTTPS,
}

impl Default for Scheme {
    fn default() -> (r: Self)
        ensures
            r == Scheme::HTTP,
    {
        Scheme::HTTP
    }
}

/// An address of the HTTP client: scheme, host, optional port and path.
#[derive(Debug)]
pub struct URL {
    pub scheme: Scheme,
    pub host: String,
    pub port: Option<u16>,
    pub path: String,
}

/// The mathematical form of an address.
pub struct AddressView {
    pub scheme: Scheme,
    pub host: Seq<char>,
    pub port: Option<u16>,
    pub path: Seq<char>,
}

impl View for URL {
    type V = AddressView;

    open spec fn view(&self) -> AddressView {
        AddressView { scheme: self.scheme, host: self.host@, port: self.port, path: self.path@ }
    }
}

impl Default for URL {
    fn default() -> (r: Self)
        ensures
            r@ == (AddressView { scheme: Scheme::HTTP, host: Seq::empty(), port: None, path: Seq::empty() }),
    {
        URL { scheme: Scheme::default(), host: String::new(), port: None, path: String::new() }
    }
}

/// The port that a scheme uses when none is given.
pub open spec fn spec_preferred_default_port(scheme: Scheme) -> u16 {
    match scheme {
        Scheme::HTTP => 80,
        Scheme::HTTPS => 443,
    }
}

pub fn preferred_default_port(scheme: Scheme) -> (r: u16)
    ensures
        r == spec_preferred_default_port(scheme),
{
    match scheme {
        Scheme::HTTP => 80,
        Scheme::HTTPS => 443,
    }
}

/// The text of an address: the scheme, `://`, the host, the port after `:`
/// unless it is the scheme's own, and the path.
pub open spec fn address_text(a: AddressView) -> Seq<char> {
    (match a.scheme {
        Scheme::HTTP => s_http(),
        Scheme::HTTPS => s_https(),
    }) + seq![':', '/', '/'] + a.host + (match a.port {
        Some(p) => if p != spec_preferred_default_port(a.scheme) {
            seq![':'] + decimal(p as nat)
        } else {
            Seq::empty()
        },
        None => Seq::empty(),
    }) + a.path
}

impl URL {
    /// The text of the address (see `address_text`).
    pub fn reconstruct(&self) -> (r: String)
        ensures
            r@ == address_text(self@),
    {
        let mut url = String::new();
        match self.scheme {
            Scheme::HTTP => {
                push_char(&mut url, 'h');
                push_char(&mut url, 't');
                push_char(&mut url, 't');
                push_char(&mut url, 'p');
            },
            Scheme::HTTPS => {
                push_char(&mut url, 'h');
                push_char(&mut url, 't');
                push_char(&mut url, 't');
                push_char(&mut url, 'p');
                push_char(&mut url, 's');
            },
        }
        push_char(&mut url, ':');
        push_char(&mut url, '/');
        push_char(&mut url, '/');
        push_str(&mut url, self.host.as_str());
        let default = match self.scheme {
            Scheme::HTTP => 80u16,
            Scheme::HTTPS => 443u16,
        };
        if self.port.is_some() && self.port.unwrap() != default {
            push_char(&mut url, ':');
            push_decimal(&mut url, self.port.unwrap() as u64);
        }
        push_str(&mut url, self.path.as_str());
        assert(url@ =~= address_text(self@));
        url
    }
}

/// The first position of `c` in `s` from `i` on.
pub open spec fn find_from(s: Seq<char>, c: char, i: int) -> Option<int>
    decreases s.len() - i,
{
    if i < 0 || i >= s.len() {
        None
    } else if s[i] == c {
        Some(i)
    } else {
        find_from(s, c, i + 1)
    }
}

/// The first position of `://` in `s` from `i` on.
pub open spec fn find_scheme_sep(s: Seq<char>, i: int) -> Option<int>
    decreases s.len() - i,
{
    if i < 0 || i + 3 > s.len() {
        None
    } else if s[i] == ':' && s[i + 1] == '/' && s[i + 2] == '/' {
        Some(i)
    } else {
        find_scheme_sep(s, i + 1)
    }
}

/// `str::parse::<u16>`: an optional `+` and decimal digits worth at most
/// 65535.
pub open spec fn parse_u16(s: Seq<char>) -> Option<u16> {
    match from_str_radix_u32(s, 10) {
        Some(v) => if v <= 65535 {
            Some(v as u16)
        } else {
            None
        },
        None => None,
    }
}

/// The address in `s`: `None` where there is no `://`, or a port that is
/// not a number of 16 bits; `Some(None)` for a scheme other than
/// `http` and `https`. After the scheme, the host runs to the first `:`
/// (then the port runs to the first `/`) or else to the first `/`; the path
/// is `/` and what follows that `/`.
pub open spec fn spec_construct_url(s: Seq<char>) -> Option<Option<AddressView>> {
    match find_scheme_sep(s, 0) {
        None => None,
        Some(i) => {
            let scheme = s.take(i);
            let rest = s.skip(i + 3);
            if scheme != s_http() && scheme != s_https() {
                Some(None)
            } else {
                let sc = if scheme == s_http() {
                    Scheme::HTTP
                } else {
                    Scheme::HTTPS
                };
                match find_from(rest, ':', 0) {
                    Some(j) => {
                        let r2 = rest.skip(j + 1);
                        let port_text = match find_from(r2, '/', 0) {
                            Some(k) => r2.take(k),
                            None => r2,
                        };
                        let path = match find_from(r2, '/', 0) {
                            Some(k) => seq!['/'] + r2.skip(k + 1),
                            None => seq!['/'],
                        };
                        match parse_u16(port_text) {
                            None => None,
                            Some(port) => Some(
                                Some(AddressView { scheme: sc, host: rest.take(j), port: Some(port), path }),
                            ),
                        }
                    },
                    None => match find_from(rest, '/', 0) {
                        Some(k) => Some(
                            Some(
                                AddressView {
                                    scheme: sc,
                                    host: rest.take(k),
                                    port: None,
                                    path: seq!['/'] + rest.skip(k + 1),
                                },
                            ),
                        ),
                        None => Some(Some(AddressView { scheme: sc, host: rest, port: None, path: seq!['/'] })),
                    },
                }
            }
        },
    }
}

/// The first position of `c` in `s` from `start` on.
pub(crate) fn find_char(s: &Vec<char>, c: char, start: usize) -> (r: Option<usize>)
    requires
        start <= s@.len(),
    ensures
        match r {
            Some(k) => find_from(s@, c, start as int) == Some(k as int) && start <= k < s@.len(),
            None => find_from(s@, c, start as int) is None,
        },
{
    let mut i = start;
    while i < s.len()
        invariant
            start <= i <= s@.len(),
            find_from(s@, c, start as int) == find_from(s@, c, i as int),
        decreases s@.len() - i,
    {
        if s[i] == c {
            return Some(i);
        }
        i = i + 1;
    }
    None
}

/// The first position of `://` in `s`.
fn find_sep(s: &Vec<char>) -> (r: Option<usize>)
    ensures
        match r {
            Some(k) => find_scheme_sep(s@, 0) == Some(k as int) && k + 3 <= s@.len(),
            None => find_scheme_sep(s@, 0) is None,
        },
{
    let mut i: usize = 0;
    while i < s.len() && s.len() - i >= 3
        invariant
            i <= s@.len(),
            find_scheme_sep(s@, 0) == find_scheme_sep(s@, i as int),
        decreases s@.len() - i,
    {
        if s[i] == ':' && s[i + 1] == '/' && s[i + 2] == '/' {
            return Some(i);
        }
        i = i + 1;
    }
    None
}

/// Parses a port: `str::parse::<u16>` on `s[from..to]`.
fn port_of(s: &Vec<char>, from: usize, to: usize) -> (r: Option<u16>)
    requires
        from <= to <= s@.len(),
    ensures
        r == parse_u16(s@.subrange(from as int, to as int)),
{
    let part = string_of(s.as_slice(), from, to);
    let v = chars_of(part.as_str());
    assert(v@.subrange(0, v@.len() as int) =~= v@);
    match from_str_radix(v.as_slice(), 0, 10) {
        Some(n) => if n <= 65535 {
            Some(n as u16)
        } else {
            None
        },
        None => None,
    }
}

/// The address in `url`, or `None` where `spec_construct_url` gives
/// `None`.
pub fn try_construct_url(url: String) -> (r: Option<Option<URL>>)
    ensures
        match r {
            None => spec_construct_url(url@) is None,
            Some(None) => spec_construct_url(url@) == Some(None::<AddressView>),
            Some(Some(u)) => spec_construct_url(url@) == Some(Some(u@)),
        },
{
    let s = chars_of(url.as_str());
    let n = s.len();
    let i = match find_sep(&s) {
        None => {
            return None;
        },
        Some(i) => i,
    };
    let http = ['h', 't', 't', 'p'];
    let https = ['h', 't', 't', 'p', 's'];
    assert(http@ =~= s_http());
    assert(https@ =~= s_https());
    let scheme = string_of(s.as_slice(), 0, i);
    assert(scheme@ =~= s@.take(i as int));
    let sc = if url::string_is(&scheme, &http) {
        Scheme::HTTP
    } else if url::string_is(&scheme, &https) {
        Scheme::HTTPS
    } else {
        return Some(None);
    };
    let rest_start = i + 3;
    let ghost rest = s@.skip(rest_start as int);
    let rest_v = chars_of(string_of(s.as_slice(), rest_start, n).as_str());
    assert(rest_v@ =~= rest);
    match find_char(&rest_v, ':', 0) {
        Some(j) => {
            let host = string_of(rest_v.as_slice(), 0, j);
            let r2 = chars_of(string_of(rest_v.as_slice(), j + 1, rest_v.len()).as_str());
            assert(r2@ =~= rest.skip(j + 1));
            let (port, path) = match find_char(&r2, '/', 0) {
                Some(k) => {
                    let port = port_of(&r2, 0, k);
                    assert(r2@.subrange(0, k as int) =~= r2@.take(k as int));
                    let mut path = String::new();
                    push_char(&mut path, '/');
                    let tail = string_of(r2.as_slice(), k + 1, r2.len());
                    push_str(&mut path, tail.as_str());
                    assert(path@ =~= seq!['/'] + r2@.skip(k + 1));
                    (port, path)
                },
                None => {
                    let port = port_of(&r2, 0, r2.len());
                    assert(r2@.subrange(0, r2@.len() as int) =~= r2@);
                    let mut path = String::new();
                    push_char(&mut path, '/');
                    assert(path@ =~= seq!['/']);
                    (port, path)
                },
            };
            match port {
                None => None,
                Some(p) => {
                    assert(host@ =~= rest.take(j as int));
                    Some(Some(URL { scheme: sc, host, port: Some(p), path }))
                },
            }
        },
        None => match find_char(&rest_v, '/', 0) {
            Some(k) => {
                let host = string_of(rest_v.as_slice(), 0, k);
                let mut path = String::new();
                push_char(&mut path, '/');
                let tail = string_of(rest_v.as_slice(), k + 1, rest_v.len());
                push_str(&mut path, tail.as_str());
                assert(host@ =~= rest.take(k as int));
                assert(path@ =~= seq!['/'] + rest.skip(k + 1));
                Some(Some(URL { scheme: sc, host, port: None, path }))
            },
            None => {
                let host = string_of(rest_v.as_slice(), 0, rest_v.len());
                let mut path = String::new();
                push_char(&mut path, '/');
                assert(host@ =~= rest);
                assert(path@ =~= seq!['/']);
                Some(Some(URL { scheme: sc, host, port: None, path }))
            },
        },
    }
}

/// The address in `url` (see `spec_construct_url`), on inputs that
/// `spec_construct_url` accepts.
pub fn construct_url(url: String) -> (r: Option<URL>)
    requires
        spec_construct_url(url@) is Some,
    ensures
        match r {
            None => spec_construct_url(url@) == Some(None::<AddressView>),
            Some(u) => spec_construct_url(url@) == Some(Some(u@)),
        },
{
    match try_construct_url(url) {
        Some(r) => r,
        None => vstd::pervasive::unreached(),
    }
}

/// `c` does not occur in `s`.
pub open spec fn lacks(s: Seq<char>, c: char) -> bool {
    forall|i: int| 0 <= i < s.len() ==> s[i] != c
}

/// The decimal notation of `n` reads back as `n`, and is made of digits.
proof fn lemma_decimal_reads_back(n: nat)
    ensures
        radix_value(decimal(n), 10) == Some(n as int),
        decimal(n).len() > 0,
        forall|i: int| 0 <= i < decimal(n).len() ==> '0' <= #[trigger] decimal(n)[i] <= '9',
    decreases n,
{
    let d = decimal(n);
    let last = (n % 10) as int;
    assert(digit_value(digit_char(last), 10) == Some(last));
    if n < 10 {
        assert(d.drop_last() =~= Seq::<char>::empty());
        assert(radix_value(d.drop_last(), 10) == Some(0int));
    } else {
        lemma_decimal_reads_back(n / 10);
        assert(d.drop_last() =~= decimal(n / 10));
        assert((n / 10) * 10 + n % 10 == n) by (nonlinear_arith);
        assert forall|i: int| 0 <= i < d.len() implies '0' <= #[trigger] d[i] <= '9' by {
            if i < d.len() - 1 {
                assert(d[i] == decimal(n / 10)[i]);
            }
        }
    }
}

/// The first `c` in `a + b`, when `a` has none and `b` starts with one, is
/// where `b` starts.
proof fn lemma_find_after(a: Seq<char>, b: Seq<char>, c: char, i: int)
    requires
        0 <= i <= a.len(),
        lacks(a, c),
        b.len() > 0,
        b[0] == c,
    ensures
        find_from(a + b, c, i) == Some(a.len() as int),
    decreases a.len() - i,
{
    if i < a.len() {
        assert((a + b)[i] == a[i]);
        lemma_find_after(a, b, c, i + 1);
    } else {
        assert((a + b)[i] == b[0]);
    }
}

/// No `c` in `a + b` when neither has one.
proof fn lemma_find_none(a: Seq<char>, c: char, i: int)
    requires
        0 <= i <= a.len(),
        lacks(a, c),
    ensures
        find_from(a, c, i) is None,
    decreases a.len() - i,
{
    if i < a.len() {
        lemma_find_none(a, c, i + 1);
    }
}

/// Reading an address's text and writing the address back gives the text
/// again: for a text `scheme://host[:port]path` with the conditions of
/// `lemma_construct_reconstruct`, `construct_url` accepts it and
/// `reconstruct` on the result gives the same text.
pub proof fn lemma_text_round_trip(a: AddressView)
    requires
        lacks(a.host, ':'),
        lacks(a.host, '/'),
        a.path.len() > 0,
        a.path[0] == '/',
        a.port matches Some(p) ==> p != spec_preferred_default_port(a.scheme),
        a.port is None ==> lacks(a.path, ':'),
    ensures
        spec_construct_url(address_text(a)) matches Some(Some(b)) && address_text(b) == address_text(a),
{
    lemma_construct_reconstruct(a);
}

/// Reading an address back from its text gives the address again, when the
/// host has no `:` or `/`, the path starts with `/` (and has no `:` when no
/// port is written), and the port, if any, is not the scheme's own (which
/// the text leaves out).
#[verifier::rlimit(80)]
pub proof fn lemma_construct_reconstruct(a: AddressView)
    requires
        lacks(a.host, ':'),
        lacks(a.host, '/'),
        a.path.len() > 0,
        a.path[0] == '/',
        a.port matches Some(p) ==> p != spec_preferred_default_port(a.scheme),
        a.port is None ==> lacks(a.path, ':'),
    ensures
        spec_construct_url(address_text(a)) == Some(Some(a)),
{
    let scheme = match a.scheme {
        Scheme::HTTP => s_http(),
        Scheme::HTTPS => s_https(),
    };
    let port_part = match a.port {
        Some(p) => seq![':'] + decimal(p as nat),
        None => Seq::empty(),
    };
    let rest = a.host + port_part + a.path;
    let t = address_text(a);
    assert(t =~= scheme + seq![':', '/', '/'] + rest);
    let k = scheme.len() as int;
    assert(find_scheme_sep(t, 0) == Some(k)) by {
        reveal_with_fuel(find_scheme_sep, 7);
    }
    assert(t.take(k) =~= scheme);
    assert(t.skip(k + 3) =~= rest);
    match a.port {
        Some(p) => {
            lemma_decimal_reads_back(p as nat);
            let dp = decimal(p as nat);
            lemma_find_after(a.host, port_part + a.path, ':', 0);
            assert(rest =~= a.host + (port_part + a.path));
            let j = a.host.len() as int;
            let r2 = rest.skip(j + 1);
            assert(r2 =~= dp + a.path);
            assert(lacks(dp, '/'));
            lemma_find_after(dp, a.path, '/', 0);
            assert(r2.take(dp.len() as int) =~= dp);
            assert(seq!['/'] + r2.skip(dp.len() + 1int) =~= a.path);
            assert(rest.take(j) =~= a.host);
            assert(dp[0] != '+');
            assert(from_str_radix_u32(dp, 10) == Some(p as u32));
        },
        None => {
            assert(rest =~= a.host + a.path);
            assert(lacks(rest, ':')) by {
                assert forall|i: int| 0 <= i < rest.len() implies rest[i] != ':' by {
                    if i < a.host.len() {
                        assert(rest[i] == a.host[i]);
                    } else {
                        assert(rest[i] == a.path[i - a.host.len()]);
                    }
                }
            }
            lemma_find_none(rest, ':', 0);
            lemma_find_after(a.host, a.path, '/', 0);
            let k2 = a.host.len() as int;
            assert(rest.take(k2) =~= a.host);
            assert(seq!['/'] + rest.skip(k2 + 1) =~= a.path);
        },
    }
}

} // verus!
