//! Code-point classification and the generic input stream shared by the
//! tokenizers.
use vstd::prelude::*;
use vstd::string::*;
use crate::text::{ascii_alpha, ascii_digit, eq_ignore_ascii_case, is_alpha, is_digit, lower, to_lower};

verus! {

/// `code` is a leading (high) surrogate: 0xD800..=0xDBFF.
pub open spec fn spec_is_leading_surrogate(code: u32) -> bool {
    0xD800 <= code <= 0xDBFF
}

/// `code` is a trailing (low) surrogate: 0xDC00..=0xDFFF.
pub open spec fn spec_is_trailing_surrogate(code: u32) -> bool {
    0xDC00 <= code <= 0xDFFF
}

/// `code` is a surrogate: 0xD800..=0xDFFF.
pub open spec fn spec_is_surrogate(code: u32) -> bool {
    0xD800 <= code <= 0xDFFF
}

pub fn is_leading_surrogate(code: u32) -> (r: bool)
    ensures
        r == spec_is_leading_surrogate(code),
{
    0xD800 <= code && code <= 0xDBFF
}

pub fn is_trailing_surrogate(code: u32) -> (r: bool)
    ensures
        r == spec_is_trailing_surrogate(code),
{
    0xDC00 <= code && code <= 0xDFFF
}

pub fn is_surrogate(code: u32) -> (r: bool)
    ensures
        r == spec_is_surrogate(code),
        r == (spec_is_leading_surrogate(code) || spec_is_trailing_surrogate(code)),
{
    is_leading_surrogate(code) || is_trailing_surrogate(code)
}

/// An ident-start code point: an ASCII letter, a non-ASCII code point, or `_`.
pub open spec fn spec_char_is_ident_start(ch: char) -> bool {
    is_alpha(ch) || (ch as u32) >= 0x80 || ch == '_'
}

/// An ident code point: an ident-start code point, an ASCII digit or `-`.
pub open spec fn spec_char_is_ident(ch: char) -> bool {
    spec_char_is_ident_start(ch) || is_digit(ch) || ch == '-'
}

/// Two code points are a valid escape: a backslash followed by anything but a
/// newline (and not by the end of input).
pub open spec fn spec_is_valid_escape(first: char, second: Option<char>) -> bool {
    first == '\\' && (second matches Some(c) && c != '\n')
}

/// The code point at `i` of `s`, if there is one.
pub open spec fn at(s: Seq<char>, i: int) -> Option<char> {
    if 0 <= i < s.len() {
        Some(s[i])
    } else {
        None
    }
}

/// The first code points of `s` would start an ident sequence.
pub open spec fn spec_would_start_ident(s: Seq<char>) -> bool {
    if s.len() == 0 {
        false
    } else if s[0] == '-' {
        s.len() >= 2 && (spec_char_is_ident_start(s[1]) || s[1] == '-' || spec_is_valid_escape(
            s[1],
            at(s, 2),
        ))
    } else if spec_char_is_ident_start(s[0]) {
        true
    } else {
        s[0] == '\\' && spec_is_valid_escape('\\', at(s, 1))
    }
}

/// Whitespace in the sense of the stylesheet tokenizer: tab, newline or space.
pub open spec fn spec_char_is_whitespace(ch: char) -> bool {
    ch == '\t' || ch == '\n' || ch == ' '
}

/// A non-printable code point: U+0000..=U+0008, U+000B, U+000E..=U+001F,
/// U+007F, the C1 controls U+0080..=U+009F, U+FDD0..=U+FDEF, or a code point
/// whose low sixteen bits are 0xFFFE or 0xFFFF.
pub open spec fn spec_char_is_non_printable(ch: char) -> bool {
    let code = ch as u32;
    code <= 0x08 || code == 0x0B || (0x0E <= code <= 0x1F) || code == 0x7F || (0x80 <= code
        <= 0x9F) || (0xFDD0 <= code <= 0xFDEF) || (0xFFFE <= code <= 0x10FFFF && code % 0x10000
        >= 0xFFFE)
}

pub fn char_is_ident_start(ch: char) -> (r: bool)
    ensures
        r == spec_char_is_ident_start(ch),
{
    ascii_alpha(ch) || (ch as u32) >= 0x80 || ch == '_'
}

pub fn char_is_ident(ch: char) -> (r: bool)
    ensures
        r == spec_char_is_ident(ch),
{
    char_is_ident_start(ch) || ascii_digit(ch) || ch == '-'
}

pub fn is_valid_escape(first: char, second: Option<char>) -> (r: bool)
    ensures
        r == spec_is_valid_escape(first, second),
{
    if first != '\\' {
        return false;
    }
    match second {
        Some(second_ch) => second_ch != '\n',
        None => false,
    }
}

pub fn would_start_ident(chars: &[char]) -> (r: bool)
    ensures
        r == spec_would_start_ident(chars@),
{
    if chars.len() == 0 {
        return false;
    }
    let first = chars[0];
    if first == '-' {
        if chars.len() < 2 {
            return false;
        }
        let second = chars[1];
        if char_is_ident_start(second) || second == '-' {
            return true;
        }
        let third = if chars.len() < 3 {
            None
        } else {
            Some(chars[2])
        };
        is_valid_escape(second, third)
    } else if char_is_ident_start(first) {
        true
    } else if first == '\\' {
        let second = if chars.len() < 2 {
            None
        } else {
            Some(chars[1])
        };
        is_valid_escape('\\', second)
    } else {
        false
    }
}

pub fn char_is_whitespace(ch: char) -> (r: bool)
    ensures
        r == spec_char_is_whitespace(ch),
{
    ch == '\t' || ch == '\n' || ch == ' '
}

pub fn char_is_non_printable(ch: char) -> (r: bool)
    ensures
        r == spec_char_is_non_printable(ch),
{
    let code = ch as u32;
    let low_bits = (code & 0xFFFE) == 0xFFFE;
    proof {
        assert(((code & 0xFFFE) == 0xFFFE) == (code % 0x10000 >= 0xFFFE)) by (bit_vector);
    }
    (code <= 0x0008) || code == 0x000B || (code >= 0x000E && code <= 0x001F) || code == 0x007F
        || (code >= 0x0080 && code <= 0x009F) || (code >= 0xFDD0 && code <= 0xFDEF) || low_bits
        && code >= 0xFFFE && code <= 0x10FFFF
}

/// A stream of items read one at a time, with one item of look-back
/// (`reconsume`) and look-ahead (`peek`, `peek_nth`, `peek_range`).
///
/// `pos` is the position of the current item. Before the first `consume` the
/// stream has not started, and the first `consume` returns the item at `pos`
/// without moving.
#[derive(Clone)]
pub struct InputStream<T> {
    input: Vec<T>,
    pos: usize,
    is_reconsume: bool,
    pub is_eof: bool,
    is_started: bool,
}

impl<T: Clone> InputStream<T> {
    /// The items of the stream.
    pub closed spec fn items(&self) -> Seq<T> {
        self.input@
    }

    /// The position of the current item.
    pub closed spec fn position(&self) -> int {
        self.pos as int
    }

    /// The next `consume` gives the current item again.
    pub closed spec fn reconsuming(&self) -> bool {
        self.is_reconsume
    }

    /// The end of the input has been reached.
    pub closed spec fn at_end(&self) -> bool {
        self.is_eof
    }

    /// The flag `is_eof`: the end of the input has been reached.
    pub fn eof(&self) -> (r: bool)
        ensures
            r == self.at_end(),
    {
        self.is_eof
    }

    /// The first item has been consumed.
    pub closed spec fn started(&self) -> bool {
        self.is_started
    }

    pub fn new(data: &[T]) -> (s: InputStream<T>)
        ensures
            s.items().len() == data@.len(),
            forall|i: int| 0 <= i < data@.len() ==> cloned(data@[i], #[trigger] s.items()[i]),
            s.position() == 0,
            !s.reconsuming(),
            !s.at_end(),
            !s.started(),
    {
        let mut input: Vec<T> = Vec::new();
        let mut i: usize = 0;
        while i < data.len()
            invariant
                i <= data@.len(),
                input@.len() == i,
                forall|j: int| 0 <= j < i ==> cloned(data@[j], #[trigger] input@[j]),
            decreases data@.len() - i,
        {
            input.push(data[i].clone());
            i = i + 1;
        }
        InputStream { input, pos: 0, is_reconsume: false, is_eof: false, is_started: false }
    }

    pub fn current(&self) -> (r: T)
        requires
            self.position() < self.items().len(),
        ensures
            cloned(self.items()[self.position()], r),
    {
        self.input[self.pos].clone()
    }

    /// The item that the next `consume` would return, if any.
    pub fn peek(&self) -> (r: Option<T>)
        requires
            self.position() < self.items().len(),
        ensures
            self.reconsuming() || !self.started() ==> (r matches Some(x) && cloned(
                self.items()[self.position()],
                x,
            )),
            !self.reconsuming() && self.started() ==> if self.position() + 1 >= self.items().len() {
                r is None
            } else {
                r matches Some(x) && cloned(self.items()[self.position() + 1], x)
            },
    {
        if self.is_reconsume {
            return Some(self.current());
        }
        if !self.is_started {
            return Some(self.current());
        }
        assert(self.input@.len() == self.input.len());
        if self.pos + 1 >= self.input.len() {
            return None;
        }
        Some(self.input[self.pos + 1].clone())
    }

    /// The item `n` places after the one that the next `consume` would return.
    pub fn peek_nth(&self, n: usize) -> (r: Option<T>)
        requires
            self.position() + 1 + n <= usize::MAX,
            !self.started() && self.reconsuming() ==> self.position() + n >= 1,
        ensures
            ({
                let diff: int = if self.reconsuming() { 0 } else { 1 };
                let idx: int = if !self.started() {
                    self.position() + diff + n - 1
                } else {
                    self.position() + diff + n
                };
                if idx >= self.items().len() {
                    r is None
                } else {
                    r matches Some(x) && cloned(self.items()[idx], x)
                }
            }),
    {
        let diff: usize = if self.is_reconsume { 0 } else { 1 };
        if !self.is_started {
            if self.pos + diff + n - 1 >= self.input.len() {
                return None;
            }
            return Some(self.input[self.pos + diff + n - 1].clone());
        }
        if self.pos + diff + n >= self.input.len() {
            return None;
        }
        Some(self.input[self.pos + diff + n].clone())
    }

    /// The `n` items that start `start` places after the current one, when
    /// at least one more item follows them.
    pub fn peek_range(&self, start: usize, n: usize) -> (r: Option<&[T]>)
        requires
            self.position() + start + n <= usize::MAX,
        ensures
            self.position() + start + n >= self.items().len() ==> r is None,
            self.position() + start + n < self.items().len() ==> (r matches Some(s) && s@
                == self.items().subrange(
                self.position() + start,
                self.position() + start + n,
            )),
    {
        if self.pos + start + n >= self.input.len() {
            return None;
        }
        let data_string = &self.input.as_slice()[self.pos + start..self.pos + start + n];
        Some(data_string)
    }

    fn advance(&mut self) -> (r: Option<T>)
        requires
            old(self).position() < old(self).items().len(),
        ensures
            final(self).items() == old(self).items(),
            final(self).reconsuming() == old(self).reconsuming(),
            !old(self).started() ==> {
                &&& final(self).started()
                &&& final(self).position() == old(self).position()
                &&& final(self).at_end() == old(self).at_end()
                &&& r matches Some(x) && cloned(old(self).items()[old(self).position()], x)
            },
            old(self).started() && old(self).position() + 1 >= old(self).items().len() ==> {
                &&& final(self).at_end()
                &&& final(self).started()
                &&& final(self).position() == old(self).position()
                &&& r is None
            },
            old(self).started() && old(self).position() + 1 < old(self).items().len() ==> {
                &&& final(self).started()
                &&& final(self).at_end() == old(self).at_end()
                &&& final(self).position() == old(self).position() + 1
                &&& r matches Some(x) && cloned(old(self).items()[old(self).position() + 1], x)
            },
    {
        if !self.is_started {
            self.is_started = true;
            return Some(self.current());
        }
        assert(self.input@.len() == self.input.len());
        if self.pos + 1 >= self.input.len() {
            self.is_eof = true;
            return None;
        }
        self.pos = self.pos + 1;
        Some(self.current())
    }

    /// Takes the next item: the current one again after `reconsume`, the
    /// first one when the stream has not started, else the one after the
    /// current one. `None` at the end of the input, which also sets `is_eof`.
    pub fn consume(&mut self) -> (r: Option<T>)
        requires
            old(self).position() < old(self).items().len(),
        ensures
            final(self).items() == old(self).items(),
            final(self).position() < final(self).items().len(),
            old(self).at_end() ==> r is None && *final(self) == *old(self),
            !old(self).at_end() && old(self).reconsuming() ==> {
                &&& !final(self).reconsuming()
                &&& final(self).started() == old(self).started()
                &&& final(self).position() == old(self).position()
                &&& !final(self).at_end()
                &&& r matches Some(x) && cloned(old(self).items()[old(self).position()], x)
            },
            !old(self).at_end() && !old(self).reconsuming() && !old(self).started() ==> {
                &&& final(self).started()
                &&& !final(self).reconsuming()
                &&& final(self).position() == old(self).position()
                &&& !final(self).at_end()
                &&& r matches Some(x) && cloned(old(self).items()[old(self).position()], x)
            },
            !old(self).at_end() && !old(self).reconsuming() && old(self).started() ==> {
                &&& final(self).started()
                &&& !final(self).reconsuming()
                &&& if old(self).position() + 1 >= old(self).items().len() {
                    &&& final(self).at_end()
                    &&& final(self).position() == old(self).position()
                    &&& r is None
                } else {
                    &&& !final(self).at_end()
                    &&& final(self).position() == old(self).position() + 1
                    &&& r matches Some(x) && cloned(old(self).items()[old(self).position() + 1], x)
                }
            },
    {
        if self.is_eof {
            return None;
        }
        if self.is_reconsume {
            self.is_reconsume = false;
            Some(self.current())
        } else {
            self.advance()
        }
    }

    /// Makes the next `consume` give the current item again.
    pub fn reconsume(&mut self)
        ensures
            final(self).items() == old(self).items(),
            final(self).position() == old(self).position(),
            final(self).started() == old(self).started(),
            final(self).at_end() == old(self).at_end(),
            final(self).reconsuming(),
    {
        self.is_reconsume = true;
    }

    /// Ends the stream and hands back the items from the current one on.
    pub fn finish(&mut self) -> (r: Vec<T>)
        requires
            old(self).position() <= old(self).items().len(),
        ensures
            r@ == old(self).items().subrange(
                old(self).position(),
                old(self).items().len() as int,
            ),
            final(self).items() == old(self).items().subrange(0, old(self).position()),
            final(self).at_end(),
            final(self).position() == old(self).position(),
            final(self).started() == old(self).started(),
            final(self).reconsuming() == old(self).reconsuming(),
    {
        self.is_eof = true;
        self.input.split_off(self.pos)
    }
}

/// The text at `from` in `input` equals `text`, exactly or up to ASCII case.
pub open spec fn window_matches(
    input: Seq<char>,
    from: int,
    width: int,
    text: Seq<char>,
    case_sensitive: bool,
) -> bool {
    if from + width > input.len() {
        false
    } else if case_sensitive {
        input.subrange(from, from + width) == text
    } else {
        eq_ignore_ascii_case(input.subrange(from, from + width), text)
    }
}

/// Compares `input[from..from + width]` with `text`.
pub fn window_equals(
    input: &Vec<char>,
    from: usize,
    width: usize,
    text: &str,
    case_sensitive: bool,
) -> (r: bool)
    requires
        from + width <= usize::MAX,
    ensures
        r == window_matches(input@, from as int, width as int, text@, case_sensitive),
{
    if from + width > input.len() {
        return false;
    }
    let n = text.unicode_len();
    if n != width {
        proof {
            assert(input@.subrange(from as int, from + width).len() != text@.len());
        }
        return false;
    }
    let mut i: usize = 0;
    while i < width
        invariant
            i <= width,
            from + width <= usize::MAX,
            n == width == text@.len(),
            from + width <= input@.len(),
            forall|j: int|
                0 <= j < i ==> if case_sensitive {
                    input@[from + j] == #[trigger] text@[j]
                } else {
                    lower(input@[from + j]) == lower(#[trigger] text@[j])
                },
        decreases width - i,
    {
        let a = input[from + i];
        let b = text.get_char(i);
        let same = if case_sensitive {
            a == b
        } else {
            to_lower(a) == to_lower(b)
        };
        if !same {
            proof {
                let w = input@.subrange(from as int, from + width);
                assert(w[i as int] == a);
            }
            return false;
        }
        i = i + 1;
    }
    proof {
        let w = input@.subrange(from as int, from + width);
        if case_sensitive {
            assert(w =~= text@);
        } else {
            assert forall|j: int| 0 <= j < w.len() implies lower(#[trigger] w[j]) == lower(
                text@[j],
            ) by {
                assert(w[j] == input@[from + j]);
            }
        }
    }
    true
}

impl InputStream<char> {
    /// The `text.len()` code points at the current position (or right after
    /// it, once started, when `start_from_next` is set) spell `text`, exactly
    /// or, when `case_sensitive` is `Some(false)`, up to ASCII case. The
    /// window is as wide as the UTF-8 length of `text`.
    pub fn matches(&self, text: &str, case_sensitive: Option<bool>, start_from_next: Option<bool>) -> (r:
        bool)
        requires
            self.position() + text.spec_bytes().len() + 1 <= usize::MAX,
        ensures
            ({
                let add: int = if start_from_next == Some(true) && self.started() {
                    1
                } else {
                    0
                };
                r == window_matches(
                    self.items(),
                    self.position() + add,
                    text.spec_bytes().len() as int,
                    text@,
                    case_sensitive != Some(false),
                )
            }),
    {
        let add: usize = if start_from_next == Some(true) {
            if self.is_started {
                1
            } else {
                0
            }
        } else {
            0
        };
        let cs = match case_sensitive {
            Some(b) => b,
            None => true,
        };
        window_equals(&self.input, self.pos + add, text.len(), text, cs)
    }
}

/// A value with a textual form.
pub trait Serializable {
    /// The value can be written out; on the others `serialize` panics.
    spec fn serializable(&self) -> bool;

    /// The text that `serialize` writes.
    spec fn serialized(&self) -> Seq<char>;

    fn serialize(&self) -> (r: String)
        requires
            self.serializable(),
        ensures
            r@ == self.serialized(),
    ;
}

} // verus!
