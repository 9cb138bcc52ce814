//! The IPv6 parser of <https://url.spec.whatwg.org/#concept-ipv6-parser>.
use vstd::prelude::*;
use crate::text::{ascii_digit, ascii_hex_digit, chars_of, is_digit, is_hex_digit};
use super::{IPv6, IPv6ParseError};

verus! {

/// The value of a hexadecimal digit.
pub open spec fn hex_digit_value(c: char) -> int {
    if '0' <= c && c <= '9' {
        c as int - '0' as int
    } else if 'a' <= c && c <= 'f' {
        c as int - 'a' as int + 10
    } else if 'A' <= c && c <= 'F' {
        c as int - 'A' as int + 10
    } else {
        0
    }
}

/// The number of hexadecimal digits, at most four, that start at `i + k`
/// and after, given that `k` of them were already read.
pub open spec fn hex_len(s: Seq<char>, i: int, k: nat) -> nat
    decreases 4 - k,
{
    if k < 4 && 0 <= i + k < s.len() && is_hex_digit(s[i + k]) {
        hex_len(s, i, k + 1)
    } else {
        k
    }
}

/// The value of the `k` hexadecimal digits at `i`.
pub open spec fn hex_val(s: Seq<char>, i: int, k: nat) -> int
    decreases k,
{
    if k == 0 {
        0
    } else {
        hex_val(s, i, (k - 1) as nat) * 16 + hex_digit_value(s[i + k - 1])
    }
}

/// Reads the decimal number of an IPv4 part at `j`, where `acc` is the value
/// of the digits read so far: the position after it and its value.
pub open spec fn v4_piece(s: Seq<char>, j: int, acc: Option<int>) -> Result<
    (int, int),
    IPv6ParseError,
>
    decreases s.len() - j,
{
    if 0 <= j < s.len() && is_digit(s[j]) {
        let number = s[j] as int - '0' as int;
        match acc {
            None => v4_piece(s, j + 1, Some(number)),
            Some(v) => if v == 0 {
                Err(IPv6ParseError::IPv4InIPv6InvalidCodePoint)
            } else if v * 10 + number > 255 {
                Err(IPv6ParseError::IPv4InIPv6OutOfRange)
            } else {
                v4_piece(s, j + 1, Some(v * 10 + number))
            },
        }
    } else {
        Ok((j, if acc is Some { acc->0 } else { 0 }))
    }
}

/// The pieces after the compression step: the pieces after the compressed
/// position are moved to the end of the address, from the last one down.
pub open spec fn swap_loop(addr: Seq<u16>, p: int, swaps: int, comp: int) -> Seq<u16>
    decreases swaps,
{
    if p != 0 && swaps > 0 {
        let j = comp + swaps - 1;
        swap_loop(addr.update(p, addr[j]).update(j, addr[p]), p - 1, swaps - 1, comp)
    } else {
        addr
    }
}

/// The end of the parser: with a compression, the pieces read after it move
/// to the end; without one, all eight pieces must have been read.
pub open spec fn v6_finish(addr: Seq<u16>, pi: int, compress: Option<int>) -> Result<
    Seq<u16>,
    IPv6ParseError,
> {
    match compress {
        Some(c) => Ok(swap_loop(addr, 7, pi - c, c)),
        None => if pi != 8 {
            Err(IPv6ParseError::IPv6TooFewPieces)
        } else {
            Ok(addr)
        },
    }
}

/// The IPv4 part at the end of an IPv6 address, from position `i`, with
/// `seen` numbers read and the next number going into piece `pi`.
pub open spec fn v4_loop(
    s: Seq<char>,
    i: int,
    pi: int,
    seen: int,
    addr: Seq<u16>,
    compress: Option<int>,
) -> Result<Seq<u16>, IPv6ParseError>
    decreases s.len() - i,
{
    if i >= s.len() || i < 0 {
        if seen != 4 {
            Err(IPv6ParseError::IPv4InIPv4TooFewParts)
        } else {
            v6_finish(addr, pi, compress)
        }
    } else if seen > 0 && !(s[i] == '.' && seen < 4) {
        Err(IPv6ParseError::IPv4InIPv6InvalidCodePoint)
    } else {
        let i1 = if seen > 0 {
            i + 1
        } else {
            i
        };
        if !(i1 < s.len() && is_digit(s[i1])) {
            Err(IPv6ParseError::IPv4InIPv6InvalidCodePoint)
        } else {
            match v4_piece(s, i1, None) {
                Err(e) => Err(e),
                Ok((j, v)) => {
                    proof {
                        lemma_v4_piece_advances(s, i1, None);
                    }
                    let addr2 = addr.update(pi, (addr[pi] * 256 + v) as u16);
                    let seen2 = seen + 1;
                    let pi2 = if seen2 == 2 || seen2 == 4 {
                        pi + 1
                    } else {
                        pi
                    };
                    v4_loop(s, j, pi2, seen2, addr2, compress)
                },
            }
        }
    }
}

/// The main loop of the parser, at position `i`, with the next piece at `pi`.
pub open spec fn v6_loop(
    s: Seq<char>,
    i: int,
    pi: int,
    compress: Option<int>,
    addr: Seq<u16>,
) -> Result<Seq<u16>, IPv6ParseError>
    decreases s.len() - i,
{
    if i >= s.len() || i < 0 {
        v6_finish(addr, pi, compress)
    } else if pi == 8 {
        Err(IPv6ParseError::IPv6TooManyPieces)
    } else if s[i] == ':' {
        if compress is Some {
            Err(IPv6ParseError::IPv6MultipleCompression)
        } else {
            v6_loop(s, i + 1, pi + 1, Some(pi + 1), addr)
        }
    } else {
        let k = hex_len(s, i, 0);
        let value = hex_val(s, i, k);
        let i2 = i + k;
        if i2 < s.len() && s[i2] == '.' {
            if k == 0 {
                Err(IPv6ParseError::IPv4InIPv6InvalidCodePoint)
            } else if pi > 6 {
                Err(IPv6ParseError::IPv4InIPv6TooManyPieces)
            } else {
                v4_loop(s, i, pi, 0, addr, compress)
            }
        } else if i2 < s.len() && s[i2] == ':' {
            if i2 + 1 >= s.len() {
                Err(IPv6ParseError::IPv6InvalidCodePoint)
            } else {
                v6_loop(s, i2 + 1, pi + 1, compress, addr.update(pi, value as u16))
            }
        } else if i2 < s.len() {
            Err(IPv6ParseError::IPv6InvalidCodePoint)
        } else {
            v6_finish(addr.update(pi, value as u16), pi + 1, compress)
        }
    }
}

/// Eight zero pieces.
pub open spec fn zero_pieces() -> Seq<u16> {
    seq![0u16, 0u16, 0u16, 0u16, 0u16, 0u16, 0u16, 0u16]
}

/// The IPv6 parser: the eight pieces of the address written in `s`, or why
/// `s` is not an IPv6 address.
pub open spec fn spec_ipv6_parse(s: Seq<char>) -> Result<Seq<u16>, IPv6ParseError> {
    if s.len() > 0 && s[0] == ':' {
        if !(s.len() > 1 && s[1] == ':') {
            Err(IPv6ParseError::IPv6InvalidCompression)
        } else {
            v6_loop(s, 2, 1, Some(1), zero_pieces())
        }
    } else {
        v6_loop(s, 0, 0, None, zero_pieces())
    }
}

pub proof fn lemma_v4_piece_advances(s: Seq<char>, j: int, acc: Option<int>)
    requires
        0 <= j < s.len(),
        is_digit(s[j]),
    ensures
        v4_piece(s, j, acc) matches Ok((e, _)) ==> j < e <= s.len(),
    decreases s.len() - j,
{
    reveal_with_fuel(v4_piece, 2);
    let number = s[j] as int - '0' as int;
    if j + 1 < s.len() && is_digit(s[j + 1]) {
        match acc {
            None => lemma_v4_piece_advances(s, j + 1, Some(number)),
            Some(v) => {
                if v != 0 && v * 10 + number <= 255 {
                    lemma_v4_piece_advances(s, j + 1, Some(v * 10 + number));
                }
            },
        }
    }
}

/// The value of a hexadecimal digit.
fn char_as_hex(c: char) -> (r: u32)
    ensures
        r == hex_digit_value(c),
        r < 16,
{
    if c >= '0' && c <= '9' {
        (c as u32) - ('0' as u32)
    } else if c >= 'a' && c <= 'f' {
        (c as u32) - ('a' as u32) + 10
    } else if c >= 'A' && c <= 'F' {
        (c as u32) - ('A' as u32) + 10
    } else {
        0
    }
}

pub open spec fn opt_int(o: Option<usize>) -> Option<int> {
    match o {
        Some(v) => Some(v as int),
        None => None,
    }
}

/// The piece values of an address read so far are zero from `from` on.
pub open spec fn zero_from(addr: Seq<u16>, from: int) -> bool {
    forall|j: int| from <= j < addr.len() ==> #[trigger] addr[j] == 0
}

pub proof fn lemma_swap_loop_len(addr: Seq<u16>, p: int, swaps: int, comp: int)
    requires
        addr.len() == 8,
        0 <= p <= 7,
        1 <= comp,
        comp + swaps <= p + 1,
    ensures
        swap_loop(addr, p, swaps, comp).len() == addr.len(),
    decreases swaps,
{
    if p != 0 && swaps > 0 {
        let j = comp + swaps - 1;
        lemma_swap_loop_len(addr.update(p, addr[j]).update(j, addr[p]), p - 1, swaps - 1, comp);
    }
}

/// Moves the pieces read after the compression to the end.
fn compress_swap(addr: &mut Vec<u16>, pi: usize, comp: usize)
    requires
        old(addr)@.len() == 8,
        1 <= comp <= pi <= 8,
    ensures
        final(addr)@ == swap_loop(old(addr)@, 7, pi - comp, comp as int),
        final(addr)@.len() == 8,
{
    proof {
        lemma_swap_loop_len(addr@, 7, pi - comp, comp as int);
    }
    let mut swaps: usize = pi - comp;
    let mut p: usize = 7;
    while p != 0 && swaps > 0
        invariant
            addr@.len() == 8,
            1 <= comp,
            p <= 7,
            comp + swaps <= p + 1,
            swap_loop(addr@, p as int, swaps as int, comp as int) == swap_loop(
                old(addr)@,
                7,
                pi - comp,
                comp as int,
            ),
        decreases swaps,
    {
        let j = comp + swaps - 1;
        let a = addr[p];
        let b = addr[j];
        addr.set(p, b);
        addr.set(j, a);
        p = p - 1;
        swaps = swaps - 1;
    }
}

/// Reads the decimal number of an IPv4 part that starts with a digit at `i`.
fn read_v4_piece(s: &Vec<char>, i: usize) -> (r: Result<(usize, u32), IPv6ParseError>)
    requires
        i < s@.len(),
        is_digit(s@[i as int]),
    ensures
        r matches Ok((j, v)) ==> v4_piece(s@, i as int, None) == Ok::<(int, int), IPv6ParseError>(
            (j as int, v as int),
        ) && v <= 255 && i < j <= s@.len(),
        r matches Err(e) ==> v4_piece(s@, i as int, None) == Err::<(int, int), IPv6ParseError>(e),
{
    let n = s.len();
    let mut j = i;
    let mut piece: Option<u32> = None;
    proof {
        lemma_v4_piece_advances(s@, i as int, None);
    }
    while j < n && ascii_digit(s[j])
        invariant
            n == s@.len(),
            i <= j <= n,
            j > i ==> piece is Some,
            piece matches Some(v) ==> v <= 255,
            v4_piece(s@, j as int, opt_int_u32(piece)) == v4_piece(s@, i as int, None),
        decreases n - j,
    {
        let number = (s[j] as u32) - ('0' as u32);
        match piece {
            None => {
                piece = Some(number);
            },
            Some(v) => {
                if v == 0 {
                    return Err(IPv6ParseError::IPv4InIPv6InvalidCodePoint);
                }
                if v * 10 + number > 255 {
                    return Err(IPv6ParseError::IPv4InIPv6OutOfRange);
                }
                piece = Some(v * 10 + number);
            },
        }
        j = j + 1;
    }
    let v = match piece {
        Some(v) => v,
        None => 0,
    };
    Ok((j, v))
}

/// The IPv4 part at the end of an IPv6 address, from position `i`.
fn parse_ipv4_tail(s: &Vec<char>, i: usize, pi: usize, addr: Vec<u16>, compress: Option<usize>) -> (r:
    Result<Vec<u16>, IPv6ParseError>)
    requires
        i < s@.len(),
        pi <= 6,
        addr@.len() == 8,
        zero_from(addr@, pi as int),
        compress matches Some(c) ==> 1 <= c <= pi,
    ensures
        r matches Ok(a) ==> v4_loop(s@, i as int, pi as int, 0, addr@, opt_int(compress)) == Ok::<Seq<u16>, IPv6ParseError>(a@),
        r matches Err(e) ==> v4_loop(s@, i as int, pi as int, 0, addr@, opt_int(compress)) == Err::<Seq<u16>, IPv6ParseError>(e),
        r matches Ok(a) ==> a@.len() == 8,
{
    let n = s.len();
    let ghost outcome = v4_loop(s@, i as int, pi as int, 0, addr@, opt_int(compress));
    let mut address = addr;
    let mut cur = i;
    let mut piece_idx = pi;
    let mut seen: usize = 0;
    let ghost pi_start = piece_idx as int;
    let ghost start = v4_loop(s@, cur as int, piece_idx as int, 0, address@, opt_int(compress));
    assert(start == outcome);
    while cur < n
        invariant
            n == s@.len(),
            cur <= n,
            seen <= 4,
            piece_idx as int == pi_start + (seen as int) / 2,
            pi_start <= 6,
            address@.len() == 8,
            seen % 2 == 0 ==> zero_from(address@, piece_idx as int),
            seen % 2 == 1 ==> zero_from(address@, piece_idx + 1) && address@[piece_idx as int] < 256,
            compress matches Some(c) ==> 1 <= c <= piece_idx,
            v4_loop(s@, cur as int, piece_idx as int, seen as int, address@, opt_int(compress)) == start,
            start == outcome,
            outcome == v4_loop(s@, i as int, pi as int, 0, addr@, opt_int(compress)),
        decreases n - cur,
    {
        let ghost i_top = cur;
        if seen > 0 {
            if s[cur] == '.' && seen < 4 {
                cur = cur + 1;
            } else {
                assert(v4_loop(s@, i_top as int, piece_idx as int, seen as int, address@, opt_int(compress))
                    == Err::<Seq<u16>, IPv6ParseError>(IPv6ParseError::IPv4InIPv6InvalidCodePoint));
                assert(outcome == Err::<Seq<u16>, IPv6ParseError>(IPv6ParseError::IPv4InIPv6InvalidCodePoint));
                return Err(IPv6ParseError::IPv4InIPv6InvalidCodePoint);
            }
        }
        if !(cur < n && ascii_digit(s[cur])) {
            assert(v4_loop(s@, i_top as int, piece_idx as int, seen as int, address@, opt_int(compress))
                == Err::<Seq<u16>, IPv6ParseError>(IPv6ParseError::IPv4InIPv6InvalidCodePoint));
            return Err(IPv6ParseError::IPv4InIPv6InvalidCodePoint);
        }
        let ghost i0 = cur;
        let (j, v) = match read_v4_piece(s, cur) {
            Ok(p) => p,
            Err(e) => {
                assert(v4_loop(s@, i_top as int, piece_idx as int, seen as int, address@, opt_int(compress))
                    == Err::<Seq<u16>, IPv6ParseError>(e));
                assert(outcome == Err::<Seq<u16>, IPv6ParseError>(e));
                return Err(e);
            },
        };
        cur = j;
        let old_piece = address[piece_idx];
        let new_piece: u16 = (old_piece as u32 * 256 + v) as u16;
        address.set(piece_idx, new_piece);
        seen = seen + 1;
        if seen == 2 || seen == 4 {
            piece_idx = piece_idx + 1;
        }
    }
    if seen != 4 {
        return Err(IPv6ParseError::IPv4InIPv4TooFewParts);
    }
    match compress {
        Some(c) => {
            compress_swap(&mut address, piece_idx, c);
        },
        None => {
            if piece_idx != 8 {
                return Err(IPv6ParseError::IPv6TooFewPieces);
            }
        },
    }
    Ok(address)
}

pub open spec fn opt_int_u32(o: Option<u32>) -> Option<int> {
    match o {
        Some(v) => Some(v as int),
        None => None,
    }
}

impl IPv6 {
    /// The IPv6 parser of <https://url.spec.whatwg.org/#concept-ipv6-parser>.
    pub fn parse(input: String) -> (r: Result<IPv6, IPv6ParseError>)
        ensures
            r matches Ok(a) ==> spec_ipv6_parse(input@) == Ok::<Seq<u16>, IPv6ParseError>(a.0@),
            r matches Err(e) ==> spec_ipv6_parse(input@) == Err::<Seq<u16>, IPv6ParseError>(e),
    {
        let s = chars_of(input.as_str());
        let n = s.len();
        let mut addr: Vec<u16> = vec![0u16, 0u16, 0u16, 0u16, 0u16, 0u16, 0u16, 0u16];
        let mut pi: usize = 0;
        let mut compress: Option<usize> = None;
        let mut i: usize = 0;
        assert(addr@ == zero_pieces());
        if n > 0 && s[0] == ':' {
            if !(n > 1 && s[1] == ':') {
                return Err(IPv6ParseError::IPv6InvalidCompression);
            }
            i = 2;
            pi = 1;
            compress = Some(1);
        }
        while i < n
            invariant
                n == s@.len(),
                s@ == input@,
                i <= n,
                pi <= 8,
                addr@.len() == 8,
                zero_from(addr@, pi as int),
                compress matches Some(c) ==> 1 <= c <= pi,
                v6_loop(s@, i as int, pi as int, opt_int(compress), addr@) == spec_ipv6_parse(
                    input@,
                ),
            decreases n - i,
        {
            if pi == 8 {
                return Err(IPv6ParseError::IPv6TooManyPieces);
            }
            if s[i] == ':' {
                if compress.is_some() {
                    return Err(IPv6ParseError::IPv6MultipleCompression);
                }
                i = i + 1;
                pi = pi + 1;
                compress = Some(pi);
                continue;
            }
            let mut value: u32 = 0;
            let mut k: usize = 0;
            while k < 4 && k < n - i && ascii_hex_digit(s[i + k])
                invariant
                    n == s@.len(),
                    i < n,
                    k <= 4,
                    k <= n - i,
                    value == hex_val(s@, i as int, k as nat),
                    k == 0 ==> value == 0,
                    k == 1 ==> value < 16,
                    k == 2 ==> value < 256,
                    k == 3 ==> value < 4096,
                    value < 65536,
                    hex_len(s@, i as int, k as nat) == hex_len(s@, i as int, 0),
                decreases 4 - k,
            {
                let d = char_as_hex(s[i + k]);
                value = value * 16 + d;
                k = k + 1;
            }
            let i2 = i + k;
            if i2 < n && s[i2] == '.' {
                if k == 0 {
                    return Err(IPv6ParseError::IPv4InIPv6InvalidCodePoint);
                }
                if pi > 6 {
                    return Err(IPv6ParseError::IPv4InIPv6TooManyPieces);
                }
                let r = parse_ipv4_tail(&s, i, pi, addr, compress);
                return match r {
                    Ok(a) => {
                        let ip = IPv6([a[0], a[1], a[2], a[3], a[4], a[5], a[6], a[7]]);
                        assert(ip.0@ =~= a@);
                        Ok(ip)
                    },
                    Err(e) => Err(e),
                };
            } else if i2 < n && s[i2] == ':' {
                if i2 + 1 >= n {
                    return Err(IPv6ParseError::IPv6InvalidCodePoint);
                }
                addr.set(pi, value as u16);
                pi = pi + 1;
                i = i2 + 1;
            } else if i2 < n {
                return Err(IPv6ParseError::IPv6InvalidCodePoint);
            } else {
                addr.set(pi, value as u16);
                pi = pi + 1;
                i = i2;
            }
        }
        match compress {
            Some(c) => {
                compress_swap(&mut addr, pi, c);
            },
            None => {
                if pi != 8 {
                    return Err(IPv6ParseError::IPv6TooFewPieces);
                }
            },
        }
        let a = IPv6([addr[0], addr[1], addr[2], addr[3], addr[4], addr[5], addr[6], addr[7]]);
        assert(a.0@ =~= addr@);
        Ok(a)
    }
}

/// Sixteen to the power `k`.
pub open spec fn pow16(k: nat) -> int
    decreases k,
{
    if k == 0 {
        1
    } else {
        16 * pow16((k - 1) as nat)
    }
}

} // verus!
