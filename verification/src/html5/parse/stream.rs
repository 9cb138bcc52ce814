//! The input stream of the tokenizer: the code points of the document, a
//! position, and the flags for reconsuming, starting and ending.
use vstd::prelude::*;
use vstd::string::StringSliceAdditionalSpecFns;
use crate::infra::{window_equals, window_matches};

verus! {

/// The input stream of the tokenizer. Before it starts, the first `consume`
/// gives the code point at the position without moving; the stream ends
/// when there is no code point after the position.
pub struct InputStream {
    input: Vec<char>,
    pos: usize,
    is_reconsume: bool,
    pub is_eof: bool,
    is_started: bool,
}

impl InputStream {
    /// The code points of the stream.
    pub closed spec fn items(&self) -> Seq<char> {
        self.input@
    }

    /// The position of the current code point.
    pub closed spec fn position(&self) -> int {
        self.pos as int
    }

    /// The next `consume` gives the current code point again.
    pub closed spec fn reconsuming(&self) -> bool {
        self.is_reconsume
    }

    /// The end of the input has been reached.
    pub closed spec fn at_end(&self) -> bool {
        self.is_eof
    }

    /// The flag `is_eof`: the end of the input has been reached.
    pub fn eof(&self) -> (r: bool)
        ensures
            r == self.at_end(),
    {
        self.is_eof
    }

    /// The first code point has been consumed.
    pub closed spec fn started(&self) -> bool {
        self.is_started
    }

    /// The position is that of a code point, or the start of an empty
    /// stream.
    pub closed spec fn wf(&self) -> bool {
        self.pos == 0 || self.pos < self.input@.len()
    }

    pub fn new(data: String) -> (s: InputStream)
        ensures
            s.wf(),
            s.items() == data@,
            s.position() == 0,
            !s.reconsuming(),
            !s.at_end(),
            !s.started(),
    {
        InputStream {
            input: crate::text::chars_of(data.as_str()),
            pos: 0,
            is_reconsume: false,
            is_eof: false,
            is_started: false,
        }
    }

    /// The code point at the position.
    pub fn current(&self) -> (r: char)
        requires
            self.position() < self.items().len(),
        ensures
            r == self.items()[self.position()],
    {
        self.input[self.pos]
    }

    /// Moves on: at the last code point (or in an empty stream) the stream
    /// ends and gives nothing; the first time it gives the code point at the
    /// position without moving; else it moves by one and gives that code
    /// point.
    fn advance(&mut self) -> (r: Option<char>)
        requires
            old(self).wf(),
        ensures
            final(self).wf(),
            final(self).items() == old(self).items(),
            final(self).reconsuming() == old(self).reconsuming(),
            if old(self).position() + 1 >= old(self).items().len() {
                &&& r is None
                &&& final(self).at_end()
                &&& final(self).position() == old(self).position()
                &&& final(self).started() == old(self).started()
            } else if !old(self).started() {
                &&& r == Some(old(self).items()[old(self).position()])
                &&& final(self).started()
                &&& final(self).position() == old(self).position()
                &&& final(self).at_end() == old(self).at_end()
            } else {
                &&& r == Some(old(self).items()[old(self).position() + 1])
                &&& final(self).started()
                &&& final(self).position() == old(self).position() + 1
                &&& final(self).at_end() == old(self).at_end()
            },
    {
        let n = self.input.len();
        if self.pos >= n || n - self.pos <= 1 {
            self.is_eof = true;
            return None;
        }
        if !self.is_started {
            self.is_started = true;
            return Some(self.current());
        }
        self.pos = self.pos + 1;
        Some(self.current())
    }

    /// The next code point: the current one again after `reconsume`, else
    /// what `advance` gives.
    pub fn consume(&mut self) -> (r: Option<char>)
        requires
            old(self).wf(),
            old(self).reconsuming() ==> old(self).position() < old(self).items().len(),
        ensures
            final(self).wf(),
            final(self).items() == old(self).items(),
            !final(self).reconsuming(),
            old(self).reconsuming() ==> {
                &&& r == Some(old(self).items()[old(self).position()])
                &&& final(self).position() == old(self).position()
                &&& final(self).started() == old(self).started()
                &&& final(self).at_end() == old(self).at_end()
            },
            !old(self).reconsuming() ==> if old(self).position() + 1 >= old(self).items().len() {
                &&& r is None
                &&& final(self).at_end()
                &&& final(self).position() == old(self).position()
                &&& final(self).started() == old(self).started()
            } else if !old(self).started() {
                &&& r == Some(old(self).items()[old(self).position()])
                &&& final(self).started()
                &&& final(self).position() == old(self).position()
                &&& final(self).at_end() == old(self).at_end()
            } else {
                &&& r == Some(old(self).items()[old(self).position() + 1])
                &&& final(self).started()
                &&& final(self).position() == old(self).position() + 1
                &&& final(self).at_end() == old(self).at_end()
            },
    {
        if self.is_reconsume {
            self.is_reconsume = false;
            Some(self.current())
        } else {
            self.advance()
        }
    }

    /// The next `consume` gives the current code point again.
    pub fn reconsume(&mut self)
        ensures
            final(self).wf() == old(self).wf(),
            final(self).items() == old(self).items(),
            final(self).position() == old(self).position(),
            final(self).started() == old(self).started(),
            final(self).at_end() == old(self).at_end(),
            final(self).reconsuming(),
    {
        self.is_reconsume = true;
    }

    /// The code points from the position (or the next one, with
    /// `start_from_next`), as many as `text` has UTF-8 bytes, spell `text`:
    /// exactly, or up to ASCII case when `case_sensitive` is `Some(false)`.
    /// The window must lie within the stream (it panics else).
    pub fn matches(&self, text: &str, case_sensitive: Option<bool>, start_from_next: Option<bool>) -> (r: bool)
        requires
            self.position() + (if start_from_next == Some(true) { 1int } else { 0int })
                + text.spec_bytes().len() <= self.items().len(),
        ensures
            r == window_matches(
                self.items(),
                self.position() + if start_from_next == Some(true) {
                    1int
                } else {
                    0int
                },
                text.spec_bytes().len() as int,
                text@,
                case_sensitive != Some(false),
            ),
    {
        let n = self.input.len();
        let add: usize = if start_from_next == Some(true) {
            1
        } else {
            0
        };
        let cs = match case_sensitive {
            Some(b) => b,
            None => true,
        };
        window_equals(&self.input, self.pos + add, text.len(), text, cs)
    }
}

} // verus!
