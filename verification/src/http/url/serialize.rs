//! The textual forms of addresses, hosts, paths and URLs.
use vstd::prelude::*;
use crate::text::{push_char, push_decimal, push_str, decimal, digit_char};
use crate::infra::Serializable;
use super::ipv4::{radix_value, digit_value};
use super::{Host, HostView, IPAddress, IPv4, IPv6, URL, URLView, URLPath, PathView, string_views};

verus! {

/// The dotted-decimal form of an IPv4 address: its four bytes, most
/// significant first.
pub open spec fn ipv4_text(n: u32) -> Seq<char> {
    decimal((n / 0x1000000) as nat) + seq!['.'] + decimal(((n / 0x10000) % 256) as nat) + seq!['.']
        + decimal(((n / 0x100) % 256) as nat) + seq!['.'] + decimal((n % 256) as nat)
}

/// The decimal notation of `n` is made of decimal digits whose value is
/// `n`, without a leading zero.
pub proof fn lemma_decimal_value(n: nat)
    ensures
        radix_value(decimal(n), 10) == Some(n as int),
        decimal(n).len() > 0,
        forall|i: int| 0 <= i < decimal(n).len() ==> '0' <= #[trigger] decimal(n)[i] <= '9',
        decimal(n).len() > 1 ==> decimal(n)[0] != '0',
    decreases n,
{
    if n < 10 {
        let s = decimal(n);
        assert(s.drop_last() =~= Seq::<char>::empty());
        assert(radix_value(s.drop_last(), 10) == Some(0int));
        assert(digit_value(s.last(), 10) == Some(n as int));
        assert(radix_value(s, 10) == Some(0int * 10 + n));
    } else {
        lemma_decimal_value(n / 10);
        let s = decimal(n);
        assert(s.drop_last() =~= decimal(n / 10));
        assert forall|i: int| 0 <= i < s.len() implies '0' <= #[trigger] s[i] <= '9' by {
            if i < s.len() - 1 {
                assert(s[i] == decimal(n / 10)[i]);
            }
        }
        if n / 10 < 10 {
            assert(n / 10 >= 1);
            assert(decimal(n / 10)[0] == digit_char((n / 10) as int));
        } else {
            lemma_decimal_value(n / 100);
            assert(decimal(n / 10) == decimal(n / 10 / 10).push(digit_char((n / 10 % 10) as int)));
            assert(n / 10 / 10 == n / 100);
            assert(decimal(n / 10).len() > 1);
        }
        assert(s[0] == decimal(n / 10)[0]);
        assert(digit_value(s.last(), 10) == Some((n % 10) as int));
        assert((n / 10) as int * 10 + (n % 10) as int == n as int) by (nonlinear_arith);
        assert(radix_value(s, 10) == Some((n / 10) as int * 10 + (n % 10) as int));
    }
}

/// The text of the IPv4 address with bytes `a`, `b`, `c` and `d`, most
/// significant first, is their four decimal notations joined by dots.
pub proof fn lemma_ipv4_text_bytes(a: u32, b: u32, c: u32, d: u32)
    requires
        a < 256,
        b < 256,
        c < 256,
        d < 256,
    ensures
        ipv4_text((a * 0x1000000 + b * 0x10000 + c * 0x100 + d) as u32) == decimal(a as nat) + seq!['.']
            + decimal(b as nat) + seq!['.'] + decimal(c as nat) + seq!['.'] + decimal(d as nat),
{
    let n: u32 = (a * 0x1000000 + b * 0x10000 + c * 0x100 + d) as u32;
    assert(n / 0x1000000 == a && (n / 0x10000) % 256 == b && (n / 0x100) % 256 == c && n % 256 == d)
        by (bit_vector)
        requires
            a < 256,
            b < 256,
            c < 256,
            d < 256,
            n == (a * 0x1000000 + b * 0x10000 + c * 0x100 + d) as u32,
    ;
}

impl Serializable for IPv4 {
    open spec fn serializable(&self) -> bool {
        true
    }

    open spec fn serialized(&self) -> Seq<char> {
        ipv4_text(self.0)
    }

    fn serialize(&self) -> (r: String) {
        let n = self.0;
        let mut output = String::new();
        push_decimal(&mut output, (n / 0x1000000) as u64);
        push_char(&mut output, '.');
        push_decimal(&mut output, ((n / 0x10000) % 256) as u64);
        push_char(&mut output, '.');
        push_decimal(&mut output, ((n / 0x100) % 256) as u64);
        push_char(&mut output, '.');
        push_decimal(&mut output, (n % 256) as u64);
        output
    }
}

/// The lower-case hexadecimal digit of `d`, for `d` below sixteen.
pub open spec fn hex_digit(d: int) -> char {
    if d < 10 {
        (('0' as int) + d) as char
    } else {
        (('a' as int) + d - 10) as char
    }
}

/// The lower-case hexadecimal notation of `n`, without leading zeros.
pub open spec fn hex_text(n: nat) -> Seq<char>
    decreases n,
{
    if n < 16 {
        seq![hex_digit(n as int)]
    } else {
        hex_text(n / 16).push(hex_digit((n % 16) as int))
    }
}

/// Appends the lower-case hexadecimal notation of `n` to `s`.
fn push_hex(s: &mut String, n: u32)
    ensures
        final(s)@ == old(s)@ + hex_text(n as nat),
    decreases n,
{
    if n >= 16 {
        push_hex(s, n / 16);
    }
    let d: u32 = n % 16;
    let c: char = if d < 10 {
        let b: u8 = (0x30 + d) as u8;
        b as char
    } else {
        let b: u8 = (0x61 + d - 10) as u8;
        b as char
    };
    push_char(s, c);
    proof {
        assert(c == hex_digit((n % 16) as int));
        if n >= 16 {
            assert(hex_text(n as nat) == hex_text((n / 16) as nat).push(hex_digit((n % 16) as int)));
        } else {
            assert(hex_text(n as nat) == seq![hex_digit(n as int)]);
        }
    }
}

/// The state of the search for the run of zero pieces to compress: the
/// longest run so far and the current one, each as where it starts and how
/// long it is.
pub struct CompressScan {
    pub longest_index: Option<int>,
    pub longest_size: int,
    pub found_index: Option<int>,
    pub found_size: int,
}

/// The search after the first `k` pieces. A run's length is counted on its
/// first zero only.
pub open spec fn compress_scan(p: Seq<u16>, k: int) -> CompressScan
    decreases k,
{
    if k <= 0 {
        CompressScan { longest_index: None, longest_size: 1, found_index: None, found_size: 0 }
    } else {
        let st = compress_scan(p, k - 1);
        let i = k - 1;
        if p[i] != 0 {
            if st.found_size > st.longest_size {
                CompressScan { longest_index: st.found_index, longest_size: st.found_size, found_index: None, found_size: 0 }
            } else {
                CompressScan { found_index: None, found_size: 0, ..st }
            }
        } else if st.found_index is None {
            CompressScan { found_index: Some(i), found_size: st.found_size + 1, ..st }
        } else {
            st
        }
    }
}

/// The piece where the serialization of an IPv6 address compresses zeros:
/// `None` where no run of zeros longer than the longest one seen is found.
pub open spec fn spec_compressed_piece_index(p: Seq<u16>) -> Option<int> {
    let st = compress_scan(p, 8);
    if st.found_size > st.longest_size {
        st.found_index
    } else {
        st.longest_index
    }
}

proof fn lemma_compress_scan_shape(p: Seq<u16>, k: int)
    ensures
        compress_scan(p, k).longest_index is None,
        compress_scan(p, k).longest_size == 1,
        0 <= compress_scan(p, k).found_size <= 1,
    decreases k,
{
    if k > 0 {
        lemma_compress_scan_shape(p, k - 1);
    }
}

/// No IPv6 address has a piece to compress: a run's length never passes
/// one, so the longest run is never set, and serializing always panics.
pub proof fn lemma_compressed_piece_index_never_found(p: Seq<u16>)
    ensures
        spec_compressed_piece_index(p) is None,
{
    lemma_compress_scan_shape(p, 8);
}

impl IPv6 {
    /// The piece to compress, or `None` where there is none (always; see
    /// `lemma_compressed_piece_index_never_found`).
    fn compressed_piece_index(&self) -> (r: Option<usize>)
        ensures
            match r {
                Some(i) => spec_compressed_piece_index(self.0@) == Some(i as int),
                None => spec_compressed_piece_index(self.0@) is None,
            },
    {
        let mut longest_index: Option<usize> = None;
        let mut longest_size: usize = 1;
        let mut found_index: Option<usize> = None;
        let mut found_size: usize = 0;
        let mut piece_index: usize = 0;
        while piece_index < 8
            invariant
                piece_index <= 8,
                ({
                    let st = compress_scan(self.0@, piece_index as int);
                    &&& st.longest_size == longest_size
                    &&& st.found_size == found_size
                    &&& st.longest_index == match longest_index {
                        Some(i) => Some(i as int),
                        None => None::<int>,
                    }
                    &&& st.found_index == match found_index {
                        Some(i) => Some(i as int),
                        None => None::<int>,
                    }
                }),
            decreases 8 - piece_index,
        {
            proof {
                lemma_compress_scan_shape(self.0@, piece_index as int);
            }
            if self.0[piece_index] != 0 {
                if found_size > longest_size {
                    longest_index = found_index;
                    longest_size = found_size;
                }
                found_index = None;
                found_size = 0;
            } else {
                if found_index.is_none() {
                    found_index = Some(piece_index);
                    found_size = found_size + 1;
                }
            }
            piece_index = piece_index + 1;
        }
        if found_size > longest_size {
            return found_index;
        }
        longest_index
    }
}

/// The serialization of the pieces of an IPv6 address from `i` on, with the
/// zeros after the compressed piece skipped.
pub open spec fn ipv6_pieces_text(p: Seq<u16>, compress: int, i: int, ignore0: bool) -> Seq<char>
    decreases 8 - i,
{
    if i >= 8 || i < 0 {
        Seq::empty()
    } else if ignore0 && p[i] == 0 {
        ipv6_pieces_text(p, compress, i + 1, true)
    } else if compress == i {
        (if i == 0 {
            seq![':', ':']
        } else {
            seq![':']
        }) + ipv6_pieces_text(p, compress, i + 1, true)
    } else {
        hex_text(p[i] as nat) + (if i != 7 {
            seq![':']
        } else {
            Seq::empty()
        }) + ipv6_pieces_text(p, compress, i + 1, false)
    }
}

impl Serializable for IPv6 {
    open spec fn serializable(&self) -> bool {
        spec_compressed_piece_index(self.0@) is Some
    }

    open spec fn serialized(&self) -> Seq<char> {
        ipv6_pieces_text(self.0@, spec_compressed_piece_index(self.0@)->0, 0, false)
    }

    fn serialize(&self) -> (r: String) {
        let compress = match self.compressed_piece_index() {
            Some(i) => i,
            None => vstd::pervasive::unreached(),
        };
        let mut output = String::new();
        let mut ignore0 = false;
        let mut piece_index: usize = 0;
        while piece_index < 8
            invariant
                piece_index <= 8,
                compress == spec_compressed_piece_index(self.0@)->0,
                output@ + ipv6_pieces_text(self.0@, compress as int, piece_index as int, ignore0)
                    == ipv6_pieces_text(self.0@, compress as int, 0, false),
            decreases 8 - piece_index,
        {
            let ghost before = output@;
            if ignore0 && self.0[piece_index] == 0 {
                piece_index = piece_index + 1;
                continue;
            } else if ignore0 {
                ignore0 = false;
            }
            if compress == piece_index {
                if piece_index == 0 {
                    push_char(&mut output, ':');
                    push_char(&mut output, ':');
                    assert(output@ =~= before + seq![':', ':']);
                } else {
                    push_char(&mut output, ':');
                    assert(output@ =~= before + seq![':']);
                }
                ignore0 = true;
                piece_index = piece_index + 1;
                assert(before + ipv6_pieces_text(self.0@, compress as int, piece_index - 1, false)
                    =~= output@ + ipv6_pieces_text(self.0@, compress as int, piece_index as int, true));
                continue;
            }
            push_hex(&mut output, self.0[piece_index] as u32);
            if piece_index != 7 {
                push_char(&mut output, ':');
            }
            piece_index = piece_index + 1;
            assert(before + ipv6_pieces_text(self.0@, compress as int, piece_index - 1, false)
                =~= output@ + ipv6_pieces_text(self.0@, compress as int, piece_index as int, false));
        }
        output
    }
}

/// The segments of a path list, each after a `/`.
pub open spec fn path_list_text(l: Seq<Seq<char>>) -> Seq<char>
    decreases l.len(),
{
    if l.len() == 0 {
        Seq::empty()
    } else {
        path_list_text(l.drop_last()) + seq!['/'] + l.last()
    }
}

/// The textual form of a path: an opaque path as it is, a list as its
/// segments each after a `/`.
pub open spec fn path_text(p: PathView) -> Seq<char> {
    match p {
        PathView::Opaque(s) => s,
        PathView::List(l) => path_list_text(l),
    }
}

impl Serializable for URLPath {
    open spec fn serializable(&self) -> bool {
        true
    }

    open spec fn serialized(&self) -> Seq<char> {
        path_text(self@)
    }

    fn serialize(&self) -> (r: String) {
        match self {
            URLPath::Segment(segment) => segment.clone(),
            URLPath::List(l) => {
                let mut output = String::new();
                let mut i: usize = 0;
                while i < l.len()
                    invariant
                        i <= l@.len(),
                        output@ == path_list_text(string_views(l@).take(i as int)),
                    decreases l@.len() - i,
                {
                    assert(string_views(l@).take(i + 1).drop_last() =~= string_views(l@).take(i as int));
                    push_char(&mut output, '/');
                    push_str(&mut output, l[i].as_str());
                    i = i + 1;
                }
                assert(string_views(l@).take(l@.len() as int) =~= string_views(l@));
                output
            },
        }
    }
}

impl Serializable for Host {
    open spec fn serializable(&self) -> bool {
        match self {
            Host::IPAddress(IPAddress::IPv6(a)) => a.serializable(),
            _ => true,
        }
    }

    open spec fn serialized(&self) -> Seq<char> {
        match self {
            Host::IPAddress(IPAddress::IPv4(a)) => ipv4_text(a.0),
            Host::IPAddress(IPAddress::IPv6(a)) => seq!['['] + a.serialized() + seq![']'],
            Host::Domain(d) => d@,
            Host::Opaque(o) => o.0@,
            Host::Empty => Seq::empty(),
        }
    }

    fn serialize(&self) -> (r: String) {
        match self {
            Host::IPAddress(IPAddress::IPv4(ipv4)) => ipv4.serialize(),
            Host::IPAddress(IPAddress::IPv6(ipv6)) => {
                let mut output = String::new();
                push_char(&mut output, '[');
                let inner = ipv6.serialize();
                push_str(&mut output, inner.as_str());
                push_char(&mut output, ']');
                output
            },
            Host::Domain(domain) => domain.clone(),
            Host::Opaque(opaque) => opaque.0.clone(),
            Host::Empty => String::new(),
        }
    }
}

/// The textual form of the authority of a URL with a host: `//`, the
/// credentials and `@` when there are any, the host and `:` with the port.
pub open spec fn authority_text(u: &URL, host: Seq<char>) -> Seq<char> {
    seq!['/', '/'] + (if u.username@.len() > 0 || u.password@.len() > 0 {
        u.username@ + (if u.password@.len() > 0 {
            seq![':'] + u.password@
        } else {
            Seq::empty()
        }) + seq!['@']
    } else {
        Seq::empty()
    }) + host + match u.port {
        Some(p) => seq![':'] + decimal(p as nat),
        None => Seq::empty(),
    }
}

impl Serializable for URL {
    open spec fn serializable(&self) -> bool {
        match self.host {
            Some(h) => h.serializable(),
            None => true,
        }
    }

    open spec fn serialized(&self) -> Seq<char> {
        self.scheme@ + seq![':'] + match self.host {
            Some(h) => authority_text(self, h.serialized()),
            None => Seq::empty(),
        } + (if self.host is None && (self.path@ matches PathView::List(l) && l.len() > 1 && l[0].len()
            == 0) {
            seq!['/', '.']
        } else {
            Seq::empty()
        }) + path_text(self.path@) + match self.query {
            Some(q) => seq!['?'] + q@,
            None => Seq::empty(),
        } + match self.fragment {
            Some(f) => seq!['#'] + f@,
            None => Seq::empty(),
        }
    }

    #[verifier::rlimit(40)]
    fn serialize(&self) -> (r: String) {
        let mut output = self.scheme.clone();
        push_char(&mut output, ':');
        let ghost after_scheme = output@;
        if let Some(host) = &self.host {
            push_char(&mut output, '/');
            push_char(&mut output, '/');
            if self.has_credentials() {
                push_str(&mut output, self.username.as_str());
                if self.password.as_str().unicode_len() > 0 {
                    push_char(&mut output, ':');
                    push_str(&mut output, self.password.as_str());
                }
                push_char(&mut output, '@');
            }
            let h = host.serialize();
            push_str(&mut output, h.as_str());
            if let Some(port) = self.port {
                push_char(&mut output, ':');
                push_decimal(&mut output, port as u64);
            }
            assert(output@ =~= after_scheme + authority_text(self, host.serialized()));
        }
        let ghost after_authority = output@;
        let mut dot = false;
        if self.host.is_none() {
            if let URLPath::List(path_list) = &self.path {
                if path_list.len() > 1 && path_list[0].as_str().unicode_len() == 0 {
                    dot = true;
                }
            }
        }
        if dot {
            push_char(&mut output, '/');
            push_char(&mut output, '.');
        }
        let p = self.path.serialize();
        push_str(&mut output, p.as_str());
        if let Some(query) = &self.query {
            push_char(&mut output, '?');
            push_str(&mut output, query.as_str());
        }
        if let Some(fragment) = &self.fragment {
            push_char(&mut output, '#');
            push_str(&mut output, fragment.as_str());
        }
        assert(output@ =~= self.serialized());
        output
    }
}

} // verus!
