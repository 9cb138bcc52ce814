//! The IPv4 parser: a dotted address of up to four numbers, each decimal,
//! octal (leading `0`) or hexadecimal (leading `0x`).
use vstd::prelude::*;
use crate::text::{chars_of, push_char, string_from, is_digit};
use super::{IPv4, IPv4ParseError};

verus! {

/// A code point with the Unicode `White_Space` property, which `str::trim`
/// removes.
pub open spec fn is_unicode_whitespace(c: char) -> bool {
    let u = c as u32;
    (0x09 <= u <= 0x0D) || u == 0x20 || u == 0x85 || u == 0xA0 || u == 0x1680 || (0x2000 <= u
        <= 0x200A) || u == 0x2028 || u == 0x2029 || u == 0x202F || u == 0x205F || u == 0x3000
}

/// `s` is empty once trimmed: all its code points are white space.
pub open spec fn trims_to_empty(s: Seq<char>) -> bool {
    forall|i: int| 0 <= i < s.len() ==> is_unicode_whitespace(#[trigger] s[i])
}

pub fn unicode_whitespace(c: char) -> (r: bool)
    ensures
        r == is_unicode_whitespace(c),
{
    let u = c as u32;
    (0x09 <= u && u <= 0x0D) || u == 0x20 || u == 0x85 || u == 0xA0 || u == 0x1680 || (0x2000
        <= u && u <= 0x200A) || u == 0x2028 || u == 0x2029 || u == 0x202F || u == 0x205F || u
        == 0x3000
}

pub fn all_whitespace(s: &[char]) -> (r: bool)
    ensures
        r == trims_to_empty(s@),
{
    let mut i: usize = 0;
    while i < s.len()
        invariant
            i <= s@.len(),
            forall|j: int| 0 <= j < i ==> is_unicode_whitespace(#[trigger] s@[j]),
        decreases s@.len() - i,
    {
        if !unicode_whitespace(s[i]) {
            return false;
        }
        i = i + 1;
    }
    true
}

/// The value of `c` as a digit in base `radix` (at most 36), if it is one.
pub open spec fn digit_value(c: char, radix: int) -> Option<int> {
    let v = if '0' <= c && c <= '9' {
        c as int - '0' as int
    } else if 'a' <= c && c <= 'z' {
        c as int - 'a' as int + 10
    } else if 'A' <= c && c <= 'Z' {
        c as int - 'A' as int + 10
    } else {
        99
    };
    if v < radix {
        Some(v)
    } else {
        None
    }
}

/// The value of the digits of `s` in base `radix`, if they all are digits.
pub open spec fn radix_value(s: Seq<char>, radix: int) -> Option<int>
    decreases s.len(),
{
    if s.len() == 0 {
        Some(0)
    } else {
        match (radix_value(s.drop_last(), radix), digit_value(s.last(), radix)) {
            (Some(v), Some(d)) => Some(v * radix + d),
            _ => None,
        }
    }
}

/// `u32::from_str_radix`: an optional `+` and at least one digit in base
/// `radix`, with a value that fits in 32 bits.
pub open spec fn from_str_radix_u32(s: Seq<char>, radix: int) -> Option<u32> {
    let d = if s.len() > 0 && s[0] == '+' {
        s.skip(1)
    } else {
        s
    };
    if d.len() == 0 {
        None
    } else {
        match radix_value(d, radix) {
            Some(v) => if v <= u32::MAX {
                Some(v as u32)
            } else {
                None
            },
            None => None,
        }
    }
}

/// The IPv4 number parser on one part: `None` where the part starts with a
/// code point of more than one byte in its first two (the slicing of its
/// first bytes panics there); else the number and whether a prefix (`0` or
/// `0x`) was seen. A part made of white space is an error; a lone prefix is
/// zero. A leading `0` makes the rest octal, also after `0x`.
pub open spec fn spec_parse_number(num: Seq<char>) -> Option<Result<(u32, bool), IPv4ParseError>> {
    if trims_to_empty(num) {
        Some(Err(IPv4ParseError::NumberParsingError))
    } else if num.len() >= 2 && ((num[0] as u32) >= 0x80 || (num[1] as u32) >= 0x80) {
        None
    } else {
        let oct = num.len() >= 2 && num[0] == '0';
        let hex = num.len() >= 2 && num[0] == '0' && (num[1] == 'x' || num[1] == 'X');
        let (input, radix, flagged) = if oct {
            (num.skip(1), 8int, true)
        } else if hex {
            (num.skip(2), 16int, true)
        } else {
            (num, 10int, false)
        };
        if input.len() == 0 {
            Some(Ok((0u32, true)))
        } else {
            match from_str_radix_u32(input, radix) {
                None => Some(Err(IPv4ParseError::NumberParsingError)),
                Some(v) => Some(Ok((v, flagged))),
            }
        }
    }
}

/// The parts of `s` between the separators `sep`, from `start` on, after the
/// parts already collected in `acc` (`acc_cur` being the part being read).
pub open spec fn split_from(s: Seq<char>, sep: char, i: int, cur: Seq<char>, acc: Seq<Seq<char>>) -> Seq<Seq<char>>
    decreases s.len() - i,
{
    if i >= s.len() || i < 0 {
        acc.push(cur)
    } else if s[i] == sep {
        split_from(s, sep, i + 1, Seq::empty(), acc.push(cur))
    } else {
        split_from(s, sep, i + 1, cur.push(s[i]), acc)
    }
}

/// `str::split`: the parts of `s` between the separators `sep`, the empty
/// ones included.
pub open spec fn split_on(s: Seq<char>, sep: char) -> Seq<Seq<char>> {
    split_from(s, sep, 0, Seq::empty(), Seq::empty())
}

/// The parts of an IPv4 address: a trailing part made of white space is
/// dropped when there is another part.
pub open spec fn ipv4_parts(s: Seq<char>) -> Seq<Seq<char>> {
    let parts = split_on(s, '.');
    if trims_to_empty(parts.last()) && parts.len() > 1 {
        parts.drop_last()
    } else {
        parts
    }
}

/// The numbers of the parts `parts[k..]`, or the first failure; `None` where
/// the number parser panics first.
pub open spec fn parse_parts(parts: Seq<Seq<char>>, k: int) -> Option<Result<Seq<u32>, IPv4ParseError>>
    decreases parts.len() - k,
{
    if k >= parts.len() || k < 0 {
        Some(Ok(Seq::empty()))
    } else {
        match spec_parse_number(parts[k]) {
            None => None,
            Some(Err(_)) => Some(Err(IPv4ParseError::IPv4NonNumericPart)),
            Some(Ok((v, _))) => match parse_parts(parts, k + 1) {
                None => None,
                Some(Err(e)) => Some(Err(e)),
                Some(Ok(rest)) => Some(Ok(seq![v].add(rest))),
            },
        }
    }
}

/// 256 to the power `k`.
pub open spec fn pow256(k: nat) -> int
    decreases k,
{
    if k == 0 {
        1
    } else {
        256 * pow256((k - 1) as nat)
    }
}

/// The sum of `nums[i] * 256^(3 - i)` over the first `k` numbers.
pub open spec fn prefix_sum(nums: Seq<u32>, k: int) -> int
    decreases k,
{
    if k <= 0 {
        0
    } else {
        prefix_sum(nums, k - 1) + nums[k - 1] * pow256((3 - (k - 1)) as nat)
    }
}

/// The address of the numbers `nums`: the last number, plus each other
/// number at the byte it stands for, from the top.
pub open spec fn ipv4_value(nums: Seq<u32>) -> int {
    nums.last() + prefix_sum(nums, nums.len() - 1)
}

/// The IPv4 parser: `None` on a part whose first two code points are not
/// ASCII, a single number, or an address past 32 bits;
/// else the address or why it was refused.
pub open spec fn spec_ipv4_parse(s: Seq<char>) -> Option<Result<u32, IPv4ParseError>> {
    let parts = ipv4_parts(s);
    if parts.len() > 4 {
        Some(Err(IPv4ParseError::IPv4TooManyParts))
    } else {
        match parse_parts(parts, 0) {
            None => None,
            Some(Err(e)) => Some(Err(e)),
            Some(Ok(nums)) => {
                let m = nums.len();
                if exists|i: int| 0 <= i < m - 1 && nums[i] > 255 {
                    Some(Err(IPv4ParseError::IPv4OutOfRange))
                } else if m == 1 {
                    None
                } else if nums[m - 1] > pow256((5 - m) as nat) {
                    Some(Err(IPv4ParseError::IPv4OutOfRange))
                } else if ipv4_value(nums) > u32::MAX {
                    None
                } else {
                    Some(Ok(ipv4_value(nums) as u32))
                }
            },
        }
    }
}

pub proof fn lemma_radix_none_extends(s: Seq<char>, radix: int, i: int)
    requires
        0 <= i <= s.len(),
        radix_value(s.take(i), radix) is None,
    ensures
        radix_value(s, radix) is None,
    decreases s.len(),
{
    if i == s.len() {
        assert(s.take(i) =~= s);
    } else {
        assert(s.drop_last().take(i) =~= s.take(i));
        lemma_radix_none_extends(s.drop_last(), radix, i);
    }
}

pub proof fn lemma_radix_mono(s: Seq<char>, radix: int, i: int)
    requires
        0 <= i <= s.len(),
        radix >= 1,
        radix_value(s.take(i), radix) is Some,
        radix_value(s, radix) is Some,
    ensures
        radix_value(s, radix)->0 >= radix_value(s.take(i), radix)->0,
    decreases s.len(),
{
    if i == s.len() {
        assert(s.take(i) =~= s);
    } else {
        assert(s.drop_last().take(i) =~= s.take(i));
        lemma_radix_mono(s.drop_last(), radix, i);
        lemma_radix_nonneg(s.drop_last(), radix);
        let v = radix_value(s.drop_last(), radix)->0;
        assert(v * radix >= v) by (nonlinear_arith)
            requires
                v >= 0,
                radix >= 1,
        ;
    }
}

pub proof fn lemma_radix_nonneg(s: Seq<char>, radix: int)
    requires
        radix >= 1,
    ensures
        radix_value(s, radix) matches Some(v) ==> v >= 0,
    decreases s.len(),
{
    if s.len() > 0 {
        lemma_radix_nonneg(s.drop_last(), radix);
        assert(radix_value(s.drop_last(), radix) matches Some(v) ==> v * radix >= 0) by (nonlinear_arith)
            requires
                radix >= 1,
                radix_value(s.drop_last(), radix) matches Some(v) ==> v >= 0,
        ;
    }
}

/// The value of `c` as a digit in base `radix`, if it is one.
pub(crate) fn digit_in_radix(c: char, radix: u32) -> (r: Option<u32>)
    requires
        radix <= 36,
    ensures
        r matches Some(v) ==> digit_value(c, radix as int) == Some(v as int),
        r is None ==> digit_value(c, radix as int) is None,
{
    let v: u32 = if '0' <= c && c <= '9' {
        (c as u32) - ('0' as u32)
    } else if 'a' <= c && c <= 'z' {
        (c as u32) - ('a' as u32) + 10
    } else if 'A' <= c && c <= 'Z' {
        (c as u32) - ('A' as u32) + 10
    } else {
        99
    };
    if v < radix {
        Some(v)
    } else {
        None
    }
}

/// `u32::from_str_radix` on `s[start..]`.
pub(crate) fn from_str_radix(s: &[char], start: usize, radix: u32) -> (r: Option<u32>)
    requires
        start <= s@.len(),
        2 <= radix <= 36,
    ensures
        r == from_str_radix_u32(s@.subrange(start as int, s@.len() as int), radix as int),
{
    let n = s.len();
    let ghost whole = s@.subrange(start as int, n as int);
    let mut b = start;
    if b < n && s[b] == '+' {
        b = b + 1;
    }
    let ghost d = s@.subrange(b as int, n as int);
    assert(d =~= (if whole.len() > 0 && whole[0] == '+' { whole.skip(1) } else { whole }));
    if b == n {
        return None;
    }
    let mut value: u64 = 0;
    let mut i = b;
    while i < n
        invariant
            b <= i <= n == s@.len(),
            d == s@.subrange(b as int, n as int),
            whole == s@.subrange(start as int, n as int),
            d == (if whole.len() > 0 && whole[0] == '+' { whole.skip(1) } else { whole }),
            d.len() > 0,
            2 <= radix <= 36,
            radix_value(s@.subrange(b as int, i as int), radix as int) == Some(value as int),
            value <= u32::MAX,
        decreases n - i,
    {
        assert(s@.subrange(b as int, i + 1).drop_last() =~= s@.subrange(b as int, i as int));
        assert(s@.subrange(b as int, i + 1).last() == s@[i as int]);
        assert(d.take(i + 1 - b) =~= s@.subrange(b as int, i + 1));
        match digit_in_radix(s[i], radix) {
            None => {
                proof {
                    lemma_radix_none_extends(d, radix as int, i + 1 - b);
                }
                return None;
            },
            Some(dv) => {
                assert(value * (radix as u64) + (dv as u64) <= 0xFFFF_FFFF * 36 + 36) by (nonlinear_arith)
                    requires
                        value <= 0xFFFF_FFFF,
                        radix <= 36,
                        dv < 36,
                ;
                value = value * (radix as u64) + (dv as u64);
                if value > 0xFFFF_FFFF {
                    proof {
                        if radix_value(d, radix as int) is Some {
                            lemma_radix_mono(d, radix as int, i + 1 - b);
                        }
                    }
                    return None;
                }
            },
        }
        i = i + 1;
    }
    assert(s@.subrange(b as int, i as int) =~= d);
    Some(value as u32)
}

/// The character sequences of a sequence of character vectors.
pub open spec fn char_views(v: Seq<Vec<char>>) -> Seq<Seq<char>> {
    v.map_values(|x: Vec<char>| x@)
}

/// The parts of `s` between the dots.
pub fn split_dots(s: &Vec<char>) -> (parts: Vec<Vec<char>>)
    ensures
        char_views(parts@) == split_on(s@, '.'),
{
    let n = s.len();
    let mut parts: Vec<Vec<char>> = Vec::new();
    let mut cur: Vec<char> = Vec::new();
    let mut i: usize = 0;
    assert(char_views(parts@) =~= Seq::<Seq<char>>::empty());
    assert(cur@ =~= Seq::<char>::empty());
    while i < n
        invariant
            n == s@.len(),
            i <= n,
            split_from(s@, '.', i as int, cur@, char_views(parts@)) == split_on(s@, '.'),
        decreases n - i,
    {
        if s[i] == '.' {
            let done = cur;
            let ghost before = parts@;
            parts.push(done);
            assert(parts@ =~= before.push(done));
            assert(char_views(parts@) =~= char_views(before).push(done@));
            cur = Vec::new();
            assert(cur@ =~= Seq::<char>::empty());
        } else {
            cur.push(s[i]);
        }
        i = i + 1;
    }
    let ghost before = parts@;
    parts.push(cur);
    assert(char_views(parts@) =~= char_views(before).push(cur@));
    parts
}

pub proof fn lemma_split_from_nonempty(s: Seq<char>, sep: char, i: int, cur: Seq<char>, acc: Seq<Seq<char>>)
    ensures
        split_from(s, sep, i, cur, acc).len() >= acc.len() + 1,
    decreases s.len() - i,
{
    if i >= s.len() || i < 0 {
    } else if s[i] == sep {
        lemma_split_from_nonempty(s, sep, i + 1, Seq::empty(), acc.push(cur));
    } else {
        lemma_split_from_nonempty(s, sep, i + 1, cur.push(s[i]), acc);
    }
}

pub proof fn lemma_parse_parts_len(parts: Seq<Seq<char>>, k: int)
    requires
        0 <= k <= parts.len(),
    ensures
        parse_parts(parts, k) matches Some(Ok(nums)) ==> nums.len() == parts.len() - k,
    decreases parts.len() - k,
{
    if k < parts.len() {
        lemma_parse_parts_len(parts, k + 1);
    }
}

/// The numbers read so far, before the outcome of the remaining parts.
pub open spec fn prepend_nums(nums: Seq<u32>, rest: Option<Result<Seq<u32>, IPv4ParseError>>) -> Option<
    Result<Seq<u32>, IPv4ParseError>,
> {
    match rest {
        None => None,
        Some(Err(e)) => Some(Err(e)),
        Some(Ok(r)) => Some(Ok(nums + r)),
    }
}

/// 256 to the power `k`, for `k` at most 4.
fn pow256_exec(k: u32) -> (r: u64)
    requires
        k <= 4,
    ensures
        r == pow256(k as nat),
        k <= 3 ==> r <= 16777216,
{
    reveal_with_fuel(pow256, 5);
    if k == 0 {
        1
    } else if k == 1 {
        256
    } else if k == 2 {
        65536
    } else if k == 3 {
        16777216
    } else {
        4294967296
    }
}

impl IPv4 {
    /// The IPv4 parser: `None` where `spec_ipv4_parse` gives `None`.
    pub fn parse_checked(input: &Vec<char>) -> (r: Option<Result<IPv4, IPv4ParseError>>)
        ensures
            match spec_ipv4_parse(input@) {
                None => r is None,
                Some(Ok(v)) => r matches Some(Ok(a)) && a.0 == v,
                Some(Err(e)) => r matches Some(Err(e2)) && e2 == e,
            },
    {
        let mut parts = split_dots(input);
        proof {
            lemma_split_from_nonempty(input@, '.', 0, Seq::empty(), Seq::empty());
        }
        let last_blank = all_whitespace(parts[parts.len() - 1].as_slice());
        if last_blank && parts.len() > 1 {
            let ghost before = parts@;
            let _ = parts.pop();
            assert(char_views(parts@) =~= char_views(before).drop_last());
        }
        let ghost pv = char_views(parts@);
        assert(pv == ipv4_parts(input@));
        if parts.len() > 4 {
            return Some(Err(IPv4ParseError::IPv4TooManyParts));
        }
        let mut nums: Vec<u32> = Vec::new();
        let mut k: usize = 0;
        assert(nums@ + Seq::<u32>::empty() =~= nums@);
        while k < parts.len()
            invariant
                pv == char_views(parts@),
                pv == ipv4_parts(input@),
                pv.len() <= 4,
                k <= parts@.len(),
                nums@.len() == k,
                prepend_nums(nums@, parse_parts(pv, k as int)) == parse_parts(pv, 0),
            decreases parts@.len() - k,
        {
            assert(pv[k as int] == parts@[k as int]@);
            match IPv4::parse_number(parts[k].as_slice()) {
                None => {
                    return None;
                },
                Some(Err(_)) => {
                    return Some(Err(IPv4ParseError::IPv4NonNumericPart));
                },
                Some(Ok((v, _))) => {
                    proof {
                        let rest = parse_parts(pv, k + 1);
                        if let Some(Ok(r)) = rest {
                            assert(nums@ + (seq![v] + r) =~= nums@.push(v) + r);
                        }
                    }
                    nums.push(v);
                },
            }
            k = k + 1;
        }
        proof {
            assert(nums@ + Seq::<u32>::empty() =~= nums@);
            lemma_parse_parts_len(pv, 0);
            assert(parse_parts(pv, k as int) == Some::<Result<Seq<u32>, IPv4ParseError>>(Ok(Seq::<u32>::empty())));
        }
        let m = nums.len();
        let mut i: usize = 0;
        while i < m - 1
            invariant
                m == nums@.len() >= 1,
                prepend_nums(nums@, Some(Ok(Seq::<u32>::empty()))) == parse_parts(ipv4_parts(input@), 0),
                ipv4_parts(input@).len() <= 4,
                i <= m,
                forall|j: int| 0 <= j < i ==> nums@[j] <= 255,
            decreases m - i,
        {
            if nums[i] > 255 {
                assert(nums@ + Seq::<u32>::empty() =~= nums@);
                assert(0 <= i < m - 1 && nums@[i as int] > 255);
                return Some(Err(IPv4ParseError::IPv4OutOfRange));
            }
            i = i + 1;
        }
        if m == 1 {
            return None;
        }
        let limit = pow256_exec((5 - m) as u32);
        if (nums[m - 1] as u64) > limit {
            return Some(Err(IPv4ParseError::IPv4OutOfRange));
        }
        let mut value: u64 = 0;
        let mut j: usize = 0;
        while j + 1 < m
            invariant
                2 <= m == nums@.len() <= 4,
                j + 1 <= m,
                value == prefix_sum(nums@, j as int),
                value <= j * 0x1_0000_0000,
                forall|t: int| 0 <= t < m - 1 ==> nums@[t] <= 255,
            decreases m - j,
        {
            let p = pow256_exec((3 - j) as u32);
            assert(nums@[j as int] * p <= 255 * 16777216) by (nonlinear_arith)
                requires
                    nums@[j as int] <= 255,
                    p <= 16777216,
            ;
            value = value + (nums[j] as u64) * p;
            j = j + 1;
        }
        let total = value + (nums[m - 1] as u64);
        if total > 0xFFFF_FFFF {
            return None;
        }
        Some(Ok(IPv4(total as u32)))
    }

    /// The IPv4 parser on the text of an address.
    pub fn parse(input: String) -> (r: Result<IPv4, IPv4ParseError>)
        requires
            spec_ipv4_parse(input@) is Some,
        ensures
            match spec_ipv4_parse(input@) {
                Some(Ok(v)) => r matches Ok(a) && a.0 == v,
                Some(Err(e)) => r matches Err(e2) && e2 == e,
                None => false,
            },
    {
        let chars = chars_of(input.as_str());
        match IPv4::parse_checked(&chars) {
            Some(r) => r,
            None => Err(IPv4ParseError::NumberParsingError),
        }
    }

    /// The IPv4 number parser on one part; `None` where the part's first
    /// two code points are not ASCII.
    fn parse_number(num: &[char]) -> (r: Option<Result<(u32, bool), IPv4ParseError>>)
        ensures
            r == spec_parse_number(num@),
    {
        if all_whitespace(num) {
            return Some(Err(IPv4ParseError::NumberParsingError));
        }
        let n = num.len();
        if n >= 2 && ((num[0] as u32) >= 0x80 || (num[1] as u32) >= 0x80) {
            return None;
        }
        let oct = n >= 2 && num[0] == '0';
        let hex = n >= 2 && num[0] == '0' && (num[1] == 'x' || num[1] == 'X');
        let (skip, radix, flagged): (usize, u32, bool) = if oct {
            (1, 8, true)
        } else if hex {
            (2, 16, true)
        } else {
            (0, 10, false)
        };
        proof {
            assert(num@.skip(skip as int) =~= num@.subrange(skip as int, n as int));
            assert(num@.skip(0) =~= num@);
        }
        if skip == n {
            return Some(Ok((0, true)));
        }
        match from_str_radix(num, skip, radix) {
            None => Some(Err(IPv4ParseError::NumberParsingError)),
            Some(v) => Some(Ok((v, flagged))),
        }
    }
}

} // verus!
