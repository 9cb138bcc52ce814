//! Percent encoding and decoding, character encodings, and UTF-8 decoding.
use vstd::prelude::*;
use vstd::utf8::{decode_utf8, encode_utf8, valid_utf8};
use crate::text::push_char;

verus! {

#[verifier::external_type_specification]
#[verifier::external_body]
pub struct ExEncoding(encoding_rs::Encoding);

/// The canonical name that `encoding_rs` gives the encoding of a label, if
/// the label names one.
pub uninterp spec fn encoding_name_for_label(label: Seq<u8>) -> Option<Seq<char>>;

/// The bytes that `encoding_rs` writes for `input` in the encoding of the
/// given canonical name.
pub uninterp spec fn encoded_text(name: Seq<char>, input: Seq<char>) -> Seq<u8>;

/// The label `utf-8`.
pub open spec fn utf8_label() -> Seq<u8> {
    seq![0x75u8, 0x74u8, 0x66u8, 0x2du8, 0x38u8]
}

/// The canonical name `UTF-8`.
pub open spec fn utf8_name() -> Seq<char> {
    seq!['U', 'T', 'F', '-', '8']
}

/// A character encoding of `encoding_rs`, with its canonical name.
pub struct TextEncoding {
    encoding: &'static encoding_rs::Encoding,
    name: String,
}

impl TextEncoding {
    /// The canonical name of the encoding.
    pub closed spec fn spec_name(&self) -> Seq<char> {
        self.name@
    }

    /// The encoding of a label, by `encoding_rs::Encoding::for_label`.
    ///
    /// Trusted: the result is the encoding that `encoding_rs` finds for the
    /// label, with the name that its `name()` gives; for the label `utf-8` it
    /// is the UTF-8 encoding, named `UTF-8` (both shown by the crate's
    /// documentation). Which other labels are known is left to the name
    /// `encoding_name_for_label`.
    #[verifier::external_body]
    pub fn for_label(label: &[u8]) -> (r: Option<TextEncoding>)
        ensures
            encoding_name_for_label(label@) == match r {
                Some(e) => Some(e.spec_name()),
                None => None::<Seq<char>>,
            },
            label@ == utf8_label() ==> r is Some && r->0.spec_name() == utf8_name(),
    {
        match encoding_rs::Encoding::for_label(label) {
            Some(e) => Some(TextEncoding { encoding: e, name: e.name().to_string() }),
            None => None,
        }
    }

    /// The UTF-8 encoding.
    pub fn utf8() -> (r: TextEncoding)
        ensures
            r.spec_name() == utf8_name(),
    {
        let label: [u8; 5] = [0x75u8, 0x74u8, 0x66u8, 0x2du8, 0x38u8];
        assert(label@ =~= utf8_label());
        TextEncoding::for_label(&label).unwrap()
    }

    /// The canonical name of the encoding.
    pub fn name(&self) -> (r: &String)
        ensures
            r@ == self.spec_name(),
    {
        &self.name
    }

    /// The bytes of `input` in this encoding, by `encoding_rs::Encoding::encode`.
    ///
    /// Trusted: the result is what `encode` writes (its first item); for the
    /// UTF-8 encoding it is the UTF-8 form of the input, as the crate's source
    /// shows (it hands back the input's bytes). For other encodings the bytes
    /// are left to the name `encoded_text`.
    #[verifier::external_body]
    pub fn encode(&self, input: &str) -> (r: Vec<u8>)
        ensures
            r@ == encoded_text(self.spec_name(), input@),
            self.spec_name() == utf8_name() ==> r@ == encode_utf8(input@),
    {
        self.encoding.encode(input).0.into_owned()
    }
}

/// The byte sets that the URL standard percent-encodes.
#[derive(Clone, Copy, Debug, PartialEq, Eq)]
pub enum PercentEncodeSet {
    /// The C0 control set: bytes up to 0x1F and above 0x7E.
    C0,
    /// The query set: C0, space, `"`, `#`, `<`, `>`.
    Query,
    /// The special-query set: the query set and `'`.
    SpecialQuery,
    /// The path set: the query set, `?`, `^`, backtick, `{`, `}`.
    Path,
    /// The fragment set: C0, space, `"`, `<`, `>`, backtick.
    Fragment,
}

pub open spec fn spec_c0(b: u8) -> bool {
    b <= 0x1f || b > 0x7e
}

pub open spec fn spec_query(b: u8) -> bool {
    spec_c0(b) || b == 0x20 || b == 0x22 || b == 0x23 || b == 0x3c || b == 0x3e
}

pub open spec fn spec_special_query(b: u8) -> bool {
    spec_query(b) || b == 0x27
}

pub open spec fn spec_path(b: u8) -> bool {
    spec_query(b) || b == 0x3f || b == 0x5e || b == 0x60 || b == 0x7b || b == 0x7d
}

pub open spec fn spec_fragment(b: u8) -> bool {
    spec_c0(b) || b == 0x20 || b == 0x22 || b == 0x3c || b == 0x3e || b == 0x60
}

/// `b` belongs to the set.
pub open spec fn in_set(set: PercentEncodeSet, b: u8) -> bool {
    match set {
        PercentEncodeSet::C0 => spec_c0(b),
        PercentEncodeSet::Query => spec_query(b),
        PercentEncodeSet::SpecialQuery => spec_special_query(b),
        PercentEncodeSet::Path => spec_path(b),
        PercentEncodeSet::Fragment => spec_fragment(b),
    }
}

/// The bytes of each percent-encode set, listed one by one: the C0 controls
/// (up to 0x1F) and the bytes above 0x7E are in all of them; the query set
/// adds space, `"`, `#`, `<` and `>`; the special-query set adds `'` to it;
/// the path set adds `?`, `^`, backtick, `{` and `}` to the query set; the
/// fragment set is the C0 set with space, `"`, `<`, `>` and backtick.
pub proof fn lemma_percent_encode_set_tables(b: u8)
    ensures
        in_set(PercentEncodeSet::C0, b) <==> (b < 0x20 || b >= 0x7f),
        in_set(PercentEncodeSet::Query, b) <==> (b < 0x20 || b >= 0x7f || b == 0x20 || b == 0x22 || b == 0x23
            || b == 0x3c || b == 0x3e),
        in_set(PercentEncodeSet::SpecialQuery, b) <==> (b < 0x20 || b >= 0x7f || b == 0x20 || b == 0x22 || b
            == 0x23 || b == 0x27 || b == 0x3c || b == 0x3e),
        in_set(PercentEncodeSet::Path, b) <==> (b < 0x20 || b >= 0x7f || b == 0x20 || b == 0x22 || b == 0x23
            || b == 0x3c || b == 0x3e || b == 0x3f || b == 0x5e || b == 0x60 || b == 0x7b || b == 0x7d),
        in_set(PercentEncodeSet::Fragment, b) <==> (b < 0x20 || b >= 0x7f || b == 0x20 || b == 0x22 || b == 0x3c
            || b == 0x3e || b == 0x60),
{
}

/// Each set holds the C0 set, and the special-query and path sets hold the
/// query set.
pub proof fn lemma_percent_encode_sets_nest(b: u8)
    ensures
        in_set(PercentEncodeSet::C0, b) ==> in_set(PercentEncodeSet::Query, b) && in_set(
            PercentEncodeSet::Fragment,
            b,
        ),
        in_set(PercentEncodeSet::Query, b) ==> in_set(PercentEncodeSet::SpecialQuery, b) && in_set(
            PercentEncodeSet::Path,
            b,
        ),
{
}

pub fn c0_percent_encode_set(b: u8) -> (r: bool)
    ensures
        r == spec_c0(b),
{
    b <= 0x1f || b > 0x7e
}

pub fn query_percent_encode_set(b: u8) -> (r: bool)
    ensures
        r == spec_query(b),
{
    c0_percent_encode_set(b) || b == 0x20 || b == 0x22 || b == 0x23 || b == 0x3c || b == 0x3e
}

pub fn special_query_percent_encode_set(b: u8) -> (r: bool)
    ensures
        r == spec_special_query(b),
{
    query_percent_encode_set(b) || b == 0x27
}

pub fn path_percent_encode_set(b: u8) -> (r: bool)
    ensures
        r == spec_path(b),
{
    query_percent_encode_set(b) || b == 0x3f || b == 0x5e || b == 0x60 || b == 0x7b || b == 0x7d
}

pub fn fragment_percent_encode_set(b: u8) -> (r: bool)
    ensures
        r == spec_fragment(b),
{
    c0_percent_encode_set(b) || b == 0x20 || b == 0x22 || b == 0x3c || b == 0x3e || b == 0x60
}

impl PercentEncodeSet {
    pub fn contains(&self, b: u8) -> (r: bool)
        ensures
            r == in_set(*self, b),
    {
        match self {
            PercentEncodeSet::C0 => c0_percent_encode_set(b),
            PercentEncodeSet::Query => query_percent_encode_set(b),
            PercentEncodeSet::SpecialQuery => special_query_percent_encode_set(b),
            PercentEncodeSet::Path => path_percent_encode_set(b),
            PercentEncodeSet::Fragment => fragment_percent_encode_set(b),
        }
    }
}

/// The upper-case hexadecimal digit of `d`, below sixteen.
pub open spec fn upper_hex_digit(d: int) -> char {
    if d < 10 {
        (('0' as int) + d) as char
    } else {
        (('A' as int) + d - 10) as char
    }
}

/// The text of one byte: `+` for a space when `space_as_plus`, the byte's
/// code point when outside the set, else `%` and two upper-case hex digits.
pub open spec fn encode_byte(b: u8, set: PercentEncodeSet, space_as_plus: bool) -> Seq<char> {
    if space_as_plus && b == 0x20 {
        seq!['+']
    } else if !in_set(set, b) {
        seq![b as char]
    } else {
        seq!['%', upper_hex_digit(b as int / 16), upper_hex_digit(b as int % 16)]
    }
}

/// The percent-encoding of a byte sequence.
pub open spec fn percent_encode_bytes(bytes: Seq<u8>, set: PercentEncodeSet, space_as_plus: bool) -> Seq<char>
    decreases bytes.len(),
{
    if bytes.len() == 0 {
        Seq::empty()
    } else {
        percent_encode_bytes(bytes.drop_last(), set, space_as_plus) + encode_byte(
            bytes.last(),
            set,
            space_as_plus,
        )
    }
}

/// What percent-encoding writes is ASCII, and holds no code point of the
/// set bare: those bytes all became `%XX`.
pub proof fn lemma_percent_encoded_is_safe(bytes: Seq<u8>, set: PercentEncodeSet, space_as_plus: bool)
    ensures
        forall|i: int| 0 <= i < percent_encode_bytes(bytes, set, space_as_plus).len() ==> {
            let c = #[trigger] percent_encode_bytes(bytes, set, space_as_plus)[i];
            &&& (c as u32) < 0x80
            &&& !in_set(set, c as u8)
        },
    decreases bytes.len(),
{
    if bytes.len() > 0 {
        lemma_percent_encoded_is_safe(bytes.drop_last(), set, space_as_plus);
        let front = percent_encode_bytes(bytes.drop_last(), set, space_as_plus);
        let e = encode_byte(bytes.last(), set, space_as_plus);
        let all = percent_encode_bytes(bytes, set, space_as_plus);
        assert(all == front + e);
        let b = bytes.last();
        assert(upper_hex_digit(b as int / 16) as u32 >= 0x30);
        assert forall|i: int| 0 <= i < all.len() implies {
            let c = #[trigger] all[i];
            &&& (c as u32) < 0x80
            &&& !in_set(set, c as u8)
        } by {
            if i >= front.len() {
                assert(all[i] == e[i - front.len()]);
            } else {
                assert(all[i] == front[i]);
            }
        }
    }
}

fn hex_digit_char(d: u8) -> (c: char)
    requires
        d < 16,
    ensures
        c == upper_hex_digit(d as int),
{
    if d < 10 {
        ((0x30u8 + d) as char)
    } else {
        ((0x41u8 + d - 10) as char)
    }
}

/// Appends the percent-encoding of `bytes` to `out`.
pub fn push_percent_encoded(out: &mut String, bytes: &[u8], set: PercentEncodeSet, space_as_plus: bool)
    ensures
        final(out)@ == old(out)@ + percent_encode_bytes(bytes@, set, space_as_plus),
{
    let mut i: usize = 0;
    while i < bytes.len()
        invariant
            i <= bytes@.len(),
            out@ == old(out)@ + percent_encode_bytes(bytes@.take(i as int), set, space_as_plus),
        decreases bytes@.len() - i,
    {
        let b = bytes[i];
        let ghost before = out@;
        if space_as_plus && b == 0x20 {
            push_char(out, '+');
        } else if !set.contains(b) {
            push_char(out, b as char);
        } else {
            push_char(out, '%');
            push_char(out, hex_digit_char(b / 16));
            push_char(out, hex_digit_char(b % 16));
        }
        proof {
            assert(bytes@.take(i + 1).drop_last() =~= bytes@.take(i as int));
            assert(bytes@.take(i + 1).last() == b);
            assert(out@ =~= before + encode_byte(b, set, space_as_plus));
        }
        i = i + 1;
    }
    assert(bytes@.take(bytes@.len() as int) =~= bytes@);
}

/// Percent-encodes `input` after encoding it in `encoding`: each byte
/// becomes itself, `+` (a space, with `space_as_plus`) or `%XX`.
pub fn percent_encoding_after_encoding(
    encoding: &TextEncoding,
    input: &String,
    percent_encode_set: PercentEncodeSet,
    space_as_plus: Option<bool>,
) -> (r: String)
    ensures
        r@ == percent_encode_bytes(
            encoded_text(encoding.spec_name(), input@),
            percent_encode_set,
            space_as_plus == Some(true),
        ),
        encoding.spec_name() == utf8_name() ==> r@ == percent_encode_bytes(
            encode_utf8(input@),
            percent_encode_set,
            space_as_plus == Some(true),
        ),
{
    let mut output = String::new();
    let bytes = encoding.encode(input.as_str());
    let plus = match space_as_plus {
        Some(b) => b,
        None => false,
    };
    push_percent_encoded(&mut output, bytes.as_slice(), percent_encode_set, plus);
    output
}

/// The value of a hexadecimal digit byte.
pub open spec fn hex_byte_value(b: u8) -> int {
    if 0x30 <= b <= 0x39 {
        b - 0x30
    } else if 0x61 <= b <= 0x66 {
        b - 0x61 + 10
    } else {
        b - 0x41 + 10
    }
}

pub open spec fn is_hex_byte(b: u8) -> bool {
    (0x30 <= b <= 0x39) || (0x61 <= b <= 0x66) || (0x41 <= b <= 0x46)
}

/// The decoding of `bytes[i..]`: a `%` followed by two hexadecimal digits
/// becomes the byte `0x11 * h`, where `h` is the value of the first digit
/// (the digit is read twice); any other byte stays. `None` where a `%` is the
/// last byte, or is followed by a digit that is the last byte.
pub open spec fn percent_decode_from(bytes: Seq<u8>, i: int) -> Option<Seq<u8>>
    decreases bytes.len() - i,
{
    if i >= bytes.len() || i < 0 {
        Some(Seq::empty())
    } else if bytes[i] != 0x25 {
        match percent_decode_from(bytes, i + 1) {
            Some(rest) => Some(seq![bytes[i]] + rest),
            None => None,
        }
    } else if i + 1 >= bytes.len() {
        None
    } else if !is_hex_byte(bytes[i + 1]) {
        match percent_decode_from(bytes, i + 1) {
            Some(rest) => Some(seq![bytes[i]] + rest),
            None => None,
        }
    } else if i + 2 >= bytes.len() {
        None
    } else if !is_hex_byte(bytes[i + 2]) {
        match percent_decode_from(bytes, i + 1) {
            Some(rest) => Some(seq![bytes[i]] + rest),
            None => None,
        }
    } else {
        match percent_decode_from(bytes, i + 3) {
            Some(rest) => Some(seq![(hex_byte_value(bytes[i + 1]) * 17) as u8] + rest),
            None => None,
        }
    }
}

pub open spec fn spec_percent_decode(bytes: Seq<u8>) -> Option<Seq<u8>> {
    percent_decode_from(bytes, 0)
}

fn hex_byte(b: u8) -> (r: u8)
    requires
        is_hex_byte(b),
    ensures
        r == hex_byte_value(b),
        r < 16,
{
    if b >= 0x30 && b <= 0x39 {
        b - 0x30
    } else if b >= 0x61 && b <= 0x66 {
        b - 0x61 + 10
    } else {
        b - 0x41 + 10
    }
}

fn hex_byte_check(b: u8) -> (r: bool)
    ensures
        r == is_hex_byte(b),
{
    (b >= 0x30 && b <= 0x39) || (b >= 0x61 && b <= 0x66) || (b >= 0x41 && b <= 0x46)
}

/// Percent-decoding: `None` where `spec_percent_decode` gives `None`.
pub fn percent_decode_checked(bytes: &[u8]) -> (r: Option<Vec<u8>>)
    ensures
        match spec_percent_decode(bytes@) {
            Some(v) => r matches Some(out) && out@ == v,
            None => r is None,
        },
{
    let n = bytes.len();
    let mut output: Vec<u8> = Vec::new();
    let mut i: usize = 0;
    while i < n
        invariant
            n == bytes@.len(),
            i <= n,
            match percent_decode_from(bytes@, 0) {
                Some(v) => percent_decode_from(bytes@, i as int) matches Some(rest) && v == output@ + rest,
                None => percent_decode_from(bytes@, i as int) is None,
            },
        decreases n - i,
    {
        let b = bytes[i];
        let ghost before = output@;
        if b != 0x25 {
            output.push(b);
            i = i + 1;
        } else if i + 1 >= n {
            return None;
        } else if !hex_byte_check(bytes[i + 1]) {
            output.push(b);
            i = i + 1;
        } else if i + 2 >= n {
            return None;
        } else if !hex_byte_check(bytes[i + 2]) {
            output.push(b);
            i = i + 1;
        } else {
            let h = hex_byte(bytes[i + 1]);
            let l = hex_byte(bytes[i + 1]);
            let v: u8 = (h << 4) | l;
            assert(v == h * 17) by (bit_vector)
                requires
                    h < 16,
                    l == h,
                    v == (h << 4) | l,
            ;
            output.push(v);
            i = i + 3;
        }
        proof {
            match percent_decode_from(bytes@, i as int) {
                Some(rest) => {
                    assert(before + (output@.subrange(before.len() as int, output@.len() as int) + rest) =~= output@ + rest);
                },
                None => {},
            }
        }
    }
    assert(output@ + Seq::<u8>::empty() =~= output@);
    Some(output)
}

/// Percent-decoding (see `percent_decode_from`).
pub fn percent_decode(bytes: &[u8]) -> (r: Vec<u8>)
    requires
        spec_percent_decode(bytes@) is Some,
    ensures
        spec_percent_decode(bytes@) == Some(r@),
{
    match percent_decode_checked(bytes) {
        Some(v) => v,
        None => Vec::new(),
    }
}

/// The string of a byte sequence, by `String::from_utf8`.
///
/// Trusted: as the standard library documents, the result is `None` exactly
/// when the bytes are not UTF-8, and otherwise the string that they encode.
#[verifier::external_body]
fn string_from_utf8(bytes: Vec<u8>) -> (r: Option<String>)
    ensures
        r is Some <==> valid_utf8(bytes@),
        r matches Some(s) ==> s@ == decode_utf8(bytes@),
{
    String::from_utf8(bytes).ok()
}

/// UTF-8 decoding without a byte-order mark check; `None` on bytes that are
/// not UTF-8.
pub fn utf8_decode_checked(bytes: Vec<u8>) -> (r: Option<String>)
    ensures
        r is Some <==> valid_utf8(bytes@),
        r matches Some(s) ==> s@ == decode_utf8(bytes@),
{
    string_from_utf8(bytes)
}

/// UTF-8 decoding of bytes that are UTF-8.
pub fn utf8_decode_no_bom(bytes: Vec<u8>) -> (r: String)
    requires
        valid_utf8(bytes@),
    ensures
        r@ == decode_utf8(bytes@),
{
    match string_from_utf8(bytes) {
        Some(s) => s,
        None => String::new(),
    }
}

} // verus!
