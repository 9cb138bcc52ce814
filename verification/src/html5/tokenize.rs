//! The tokens, errors, states and input stream of the standalone tokenizer.
use vstd::prelude::*;
use vstd::utf8::encode_utf8;
use vstd::string::StringSliceAdditionalSpecFns;
use crate::infra::{window_equals, window_matches};

pub use super::parse::tree::{Tag, TagToken};

pub mod steps;

use steps::{names_lower, lemma_names_lower_at_start, lemma_tokenize_names_lower, Tok, TokenView, consume, emit, emit_char, reconsume_in, start_tag, push_to_tag, new_tag_attr, push_to_attr_name, push_to_attr_val, set_self_closing, emit_tag, emit_comment, emit_doctype, push_to_comment, push_to_doctype_name, appropriate, last_start_name, emit_chars, text_step, end_tag_open_step, end_tag_name_step, double_escape_step, escaped_step, quoted_value_step, temp_is_script, is_space, state_step, tokenize_step, lemma_emit_chars_appends};
use crate::text::{ascii_alpha, to_lower};
use super::parse::tree::{TagView, attr_views};

verus! {

/// The input stream of the standalone tokenizer: it moves before it reads,
/// so the first `consume` gives the second code point.
pub struct InputStream {
    input: Vec<char>,
    pos: usize,
    is_reconsume: bool,
    is_eof: bool,
}

impl InputStream {
    /// The code points of the stream.
    pub closed spec fn items(&self) -> Seq<char> {
        self.input@
    }

    /// The position of the current code point.
    pub closed spec fn position(&self) -> int {
        self.pos as int
    }

    /// The next `consume` gives the current code point again.
    pub closed spec fn reconsuming(&self) -> bool {
        self.is_reconsume
    }

    /// The end of the input has been reached.
    pub closed spec fn at_end(&self) -> bool {
        self.is_eof
    }

    /// The position is within the stream or just past it.
    pub closed spec fn wf(&self) -> bool {
        self.pos <= self.input@.len()
    }

    pub fn new(data: String) -> (s: InputStream)
        ensures
            s.wf(),
            s.items() == data@,
            s.position() == 0,
            !s.reconsuming(),
            !s.at_end(),
    {
        InputStream { input: crate::text::chars_of(data.as_str()), pos: 0, is_reconsume: false, is_eof: false }
    }

    /// The code point at the position.
    pub fn current(&self) -> (r: char)
        requires
            self.position() < self.items().len(),
        ensures
            r == self.items()[self.position()],
    {
        self.input[self.pos]
    }

    /// Moves on by one and gives the code point there; past the end it
    /// ends the stream and gives nothing. Moving onto the end itself panics,
    /// so that is left out.
    fn advance(&mut self) -> (r: Option<char>)
        requires
            old(self).wf(),
            old(self).position() + 1 != old(self).items().len(),
        ensures
            final(self).wf(),
            final(self).items() == old(self).items(),
            final(self).reconsuming() == old(self).reconsuming(),
            if old(self).position() + 1 > old(self).items().len() {
                &&& r is None
                &&& final(self).at_end()
                &&& final(self).position() == old(self).position()
            } else {
                &&& r == Some(old(self).items()[old(self).position() + 1])
                &&& final(self).position() == old(self).position() + 1
                &&& final(self).at_end() == old(self).at_end()
            },
    {
        if self.pos >= self.input.len() {
            self.is_eof = true;
            return None;
        }
        self.pos = self.pos + 1;
        Some(self.current())
    }

    /// The next code point: the current one again after `reconsume`, else
    /// what `advance` gives.
    pub fn consume(&mut self) -> (r: Option<char>)
        requires
            old(self).wf(),
            old(self).reconsuming() ==> old(self).position() < old(self).items().len(),
            !old(self).reconsuming() ==> old(self).position() + 1 != old(self).items().len(),
        ensures
            final(self).wf(),
            final(self).items() == old(self).items(),
            !final(self).reconsuming(),
            old(self).reconsuming() ==> {
                &&& r == Some(old(self).items()[old(self).position()])
                &&& final(self).position() == old(self).position()
                &&& final(self).at_end() == old(self).at_end()
            },
            !old(self).reconsuming() ==> if old(self).position() + 1 > old(self).items().len() {
                &&& r is None
                &&& final(self).at_end()
                &&& final(self).position() == old(self).position()
            } else {
                &&& r == Some(old(self).items()[old(self).position() + 1])
                &&& final(self).position() == old(self).position() + 1
                &&& final(self).at_end() == old(self).at_end()
            },
    {
        if self.is_reconsume {
            self.is_reconsume = false;
            Some(self.current())
        } else {
            self.advance()
        }
    }

    /// The next `consume` gives the current code point again.
    pub fn reconsume(&mut self)
        ensures
            final(self).wf() == old(self).wf(),
            final(self).items() == old(self).items(),
            final(self).position() == old(self).position(),
            final(self).at_end() == old(self).at_end(),
            final(self).reconsuming(),
    {
        self.is_reconsume = true;
    }

    /// Compares `text` with the code points from the position, one more of
    /// them than `text` has UTF-8 bytes: exactly, or up to ASCII case when
    /// `case_sensitive` is `Some(false)`. The window is longer than `text`,
    /// so this is never true. The window must lie within the stream.
    pub fn matches(&self, text: &str, case_sensitive: Option<bool>) -> (r: bool)
        requires
            self.position() + text.spec_bytes().len() + 1 <= self.items().len(),
        ensures
            r == window_matches(
                self.items(),
                self.position(),
                text.spec_bytes().len() + 1int,
                text@,
                case_sensitive != Some(false),
            ),
            !r,
    {
        let n = self.input.len();
        let cs = match case_sensitive {
            Some(b) => b,
            None => true,
        };
        proof {
            lemma_utf8_at_least_one_byte_each(text@);
        }
        window_equals(&self.input, self.pos, text.len() + 1, text, cs)
    }
}

/// Each code point takes at least one byte in UTF-8.
pub proof fn lemma_utf8_at_least_one_byte_each(s: Seq<char>)
    ensures
        encode_utf8(s).len() >= s.len(),
    decreases s.len(),
{
    if s.len() > 0 {
        lemma_utf8_at_least_one_byte_each(s.drop_first());
    }
}

/// A DOCTYPE token of the standalone tokenizer: name, identifiers and the
/// force-quirks flag.
#[derive(Clone)]
pub struct DOCTYPE {
    name: String,
    public_identifier: String,
    system_identifier: String,
    force_quirks: bool,
}

/// The mathematical form of a DOCTYPE token.
#[verifier::ext_equal]
pub struct DoctypeView {
    pub name: Seq<char>,
    pub public_identifier: Seq<char>,
    pub system_identifier: Seq<char>,
    pub force_quirks: bool,
}

impl View for DOCTYPE {
    type V = DoctypeView;

    closed spec fn view(&self) -> DoctypeView {
        DoctypeView {
            name: self.name@,
            public_identifier: self.public_identifier@,
            system_identifier: self.system_identifier@,
            force_quirks: self.force_quirks,
        }
    }
}

impl Default for DOCTYPE {
    fn default() -> (r: Self)
        ensures
            r@ == (DoctypeView {
                name: Seq::empty(),
                public_identifier: Seq::empty(),
                system_identifier: Seq::empty(),
                force_quirks: false,
            }),
    {
        DOCTYPE {
            name: String::new(),
            public_identifier: String::new(),
            system_identifier: String::new(),
            force_quirks: false,
        }
    }
}

impl DOCTYPE {
    /// Sets the force-quirks flag.
    pub fn set_quirks(&mut self)
        ensures
            final(self)@ == (DoctypeView { force_quirks: true, ..old(self)@ }),
    {
        self.force_quirks = true;
    }
}

/// A token of the standalone tokenizer.
pub enum Token {
    DOCTYPE(DOCTYPE),
    StartTag(Tag),
    EndTag(Tag),
    Comment(String),
    Character(char),
    EOF,
}

/// The errors of the standalone tokenizer.
pub enum ParseError {
    UnexpectedNullCharacter,
    UnexpectedQuestionMarkInsteadOfTagName,
    EOFBeforeTagName,
    InvalidFirstCharacterOfTagName,
    MissingEndTagName,
    EOFInTag,
    EOFInScriptHTMLCommentLikeText,
    UnexpectedEqualsSignBeforeAttributeName,
    UnexpectedCharacterInAttributeName,
    DuplicateAttribute,
    MissingAttributeValue,
    UnexpectedCharacterInUnquotedAttributeValue,
    UnexpectedSolidusInTag,
    IncorrectlyOpenedComment,
    AbruptClosingOfEmptyComment,
    EOFInComment,
    NestedComment,
    IncorrectlyClosedComment,
    EOFInDOCTYPE,
    MissingWhitespaceBeforeDOCTYPEName,
    MissingDOCTYPEName,
}

/// The states of the standalone tokenizer.
#[derive(Clone, Copy, Debug, PartialEq, Eq, Structural)]
pub enum TokenizerState {
    Data,
    RCDATA,
    RAWTEXT,
    ScriptData,
    PLAINTEXT,
    TagOpen,
    EndTagOpen,
    TagName,
    RCDATALessThanSign,
    RCDATAEndTagOpen,
    RCDATAEndTagName,
    RAWTEXTLessThanSign,
    RAWTEXTEndTagOpen,
    RAWTEXTEndTagName,
    ScriptDataLessThanSign,
    ScriptDataEndTagOpen,
    ScriptDataEndTagName,
    ScriptDataEscapeStart,
    ScriptDataEscapeStartDash,
    ScriptDataEscaped,
    ScriptDataEscapedDash,
    ScriptDataEscapedDashDash,
    ScriptDataEscapedLessThanSign,
    ScriptDataEscapedEndTagOpen,
    ScriptDataEscapedEndTagName,
    ScriptDataDoubleEscapeStart,
    ScriptDataDoubleEscaped,
    ScriptDataDoubleEscapedDash,
    ScriptDataDoubleEscapedDashDash,
    ScriptDataDoubleEscapedLessThanSign,
    ScriptDataDoubleEscapeEnd,
    BeforeAttributeName,
    AttributeName,
    AfterAttributeName,
    BeforeAttributeValue,
    AttributeValueDoubleQuoted,
    AttributeValueSingleQuoted,
    AttributeValueUnquoted,
    AfterAttributeValueQuoted,
    SelfClosingStartTag,
    BogusComment,
    MarkupDeclarationOpen,
    CommentStart,
    CommentStartDash,
    Comment,
    CommentLessThanSign,
    CommentLessThanSignBang,
    CommentLessThanSignBangDash,
    CommentLessThanSignBangDashDash,
    CommentEndDash,
    CommentEnd,
    CommentEndBang,
    DOCTYPE,
    BeforeDOCTYPEName,
    DOCTYPEName,
    AfterDOCTYPEName,
    CharacterReference,
}


/// The view of a token.
pub open spec fn token_view(k: Token) -> TokenView {
    match k {
        Token::DOCTYPE(d) => TokenView::DOCTYPE(d@),
        Token::StartTag(t) => TokenView::StartTag(t@),
        Token::EndTag(t) => TokenView::EndTag(t@),
        Token::Comment(c) => TokenView::Comment(c@),
        Token::Character(c) => TokenView::Character(c),
        Token::EOF => TokenView::EOF,
    }
}

/// The views of a list of tokens.
pub open spec fn token_views(v: Seq<Token>) -> Seq<TokenView> {
    v.map_values(|k: Token| token_view(k))
}

/// The view of the tag being built.
pub open spec fn tag_token_view(t: Option<TagToken>) -> Option<(bool, TagView)> {
    match t {
        Some(TagToken::Start(tag)) => Some((true, tag@)),
        Some(TagToken::End(tag)) => Some((false, tag@)),
        None => None,
    }
}

/// The view of an optional string.
pub open spec fn opt_text(s: Option<String>) -> Option<Seq<char>> {
    match s {
        Some(x) => Some(x@),
        None => None,
    }
}

/// The standalone HTML tokenizer: a state machine over its input stream that
/// appends the tokens it finds to `emitted_tokens`, one step per call of
/// `tokenize`.
pub struct Tokenizer {
    stream: InputStream,
    state: TokenizerState,
    prev_state: TokenizerState,
    /// The duplicate-attribute check is due on leaving the state.
    leave_check: bool,
    return_state: Option<TokenizerState>,
    tag_token: Option<TagToken>,
    comment_token: Option<String>,
    doctype_token: Option<DOCTYPE>,
    temporary_buffer: Vec<char>,
    pub emitted_tokens: Vec<Token>,
}

/// A helper of a step ended as `spec` says: `ok` exactly when it did not
/// panic, and then with the tokenizer as `spec` has it.
pub open spec fn stepped_as(after: Tok, result: Tok, ok: bool) -> bool {
    &&& ok == !result.crashed
    &&& ok ==> after == result
}

impl Tokenizer {
    /// The mathematical form of the tokenizer.
    pub closed spec fn tok(&self) -> Tok {
        Tok {
            input: self.stream.input@,
            pos: self.stream.pos as int,
            reconsume: self.stream.is_reconsume,
            eof: self.stream.is_eof,
            state: self.state,
            prev_state: self.prev_state,
            leave_check: self.leave_check,
            return_state: self.return_state,
            tag: tag_token_view(self.tag_token),
            comment: opt_text(self.comment_token),
            doctype: match self.doctype_token {
                Some(d) => Some(d@),
                None => None,
            },
            temp: self.temporary_buffer@,
            emitted: token_views(self.emitted_tokens@),
            crashed: false,
        }
    }

    /// The stream is well formed.
    pub closed spec fn wf(&self) -> bool {
        self.stream.wf()
    }

    /// The tokens emitted so far (the field `emitted_tokens`).
    pub fn emitted(&self) -> (r: &Vec<Token>)
        ensures
            token_views(r@) == self.tok().emitted,
    {
        &self.emitted_tokens
    }

    /// A tokenizer in the data state over the stream.
    pub fn new(stream: InputStream) -> (t: Tokenizer)
        requires
            stream.wf(),
        ensures
            t.wf(),
            t.tok() == (Tok {
                input: stream.items(),
                pos: stream.position(),
                reconsume: stream.reconsuming(),
                eof: stream.at_end(),
                state: TokenizerState::Data,
                prev_state: TokenizerState::Data,
                leave_check: false,
                return_state: None,
                tag: None,
                comment: None,
                doctype: None,
                temp: Seq::empty(),
                emitted: Seq::empty(),
                crashed: false,
            }),
            names_lower(t.tok()),
    {
        let t = Tokenizer {
            stream,
            state: TokenizerState::Data,
            prev_state: TokenizerState::Data,
            leave_check: false,
            return_state: None,
            tag_token: None,
            comment_token: None,
            doctype_token: None,
            temporary_buffer: Vec::new(),
            emitted_tokens: Vec::new(),
        };
        assert(token_views(Seq::<Token>::empty()) =~= Seq::<TokenView>::empty());
        proof {
            lemma_names_lower_at_start(t.tok());
        }
        t
    }

    /// The next code point of the stream (see `steps::consume`); `false`
    /// where reading panics.
    fn consume_next(&mut self) -> (r: (bool, Option<char>))
        requires
            old(self).wf(),
        ensures
            final(self).wf(),
            stepped_as(final(self).tok(), consume(old(self).tok()).1, r.0),
            r.0 ==> r.1 == consume(old(self).tok()).0,
    {
        let n = self.stream.input.len();
        if self.stream.is_reconsume {
            if self.stream.pos >= n {
                return (false, None);
            }
        } else if self.stream.pos < n && self.stream.pos + 1 == n {
            return (false, None);
        }
        let c = self.stream.consume();
        (true, c)
    }

    fn emit(&mut self, k: Token)
        ensures
            final(self).wf() == old(self).wf(),
            final(self).tok() == emit(old(self).tok(), token_view(k)),
    {
        let ghost before = self.emitted_tokens@;
        self.emitted_tokens.push(k);
        assert(token_views(self.emitted_tokens@) =~= token_views(before).push(token_view(k)));
    }

    fn emit_char(&mut self, c: char)
        ensures
            final(self).wf() == old(self).wf(),
            final(self).tok() == emit_char(old(self).tok(), c),
    {
        self.emit(Token::Character(c));
    }

    /// Switches to `state` and reads the current code point again.
    fn reconsume(&mut self, state: TokenizerState)
        ensures
            final(self).wf() == old(self).wf(),
            final(self).tok() == reconsume_in(old(self).tok(), state),
    {
        self.state = state;
        self.stream.reconsume();
    }

    fn start_tag(&mut self, start: bool)
        ensures
            final(self).wf() == old(self).wf(),
            final(self).tok() == start_tag(old(self).tok(), start),
    {
        self.tag_token = Some(if start {
            TagToken::Start(Tag::empty())
        } else {
            TagToken::End(Tag::empty())
        });
    }

    fn push_to_tag(&mut self, ch: char) -> (ok: bool)
        ensures
            final(self).wf() == old(self).wf(),
            stepped_as(final(self).tok(), push_to_tag(old(self).tok(), ch), ok),
    {
        match &mut self.tag_token {
            Some(TagToken::Start(t)) => {
                crate::text::push_char(&mut t.name, ch);
                true
            },
            Some(TagToken::End(t)) => {
                crate::text::push_char(&mut t.name, ch);
                true
            },
            None => false,
        }
    }

    fn new_tag_attr(&mut self, data: Option<(String, String)>) -> (ok: bool)
        ensures
            final(self).wf() == old(self).wf(),
            stepped_as(
                final(self).tok(),
                new_tag_attr(
                    old(self).tok(),
                    match data {
                        Some(d) => (d.0@, d.1@),
                        None => (Seq::<char>::empty(), Seq::<char>::empty()),
                    },
                ),
                ok,
            ),
    {
        match &mut self.tag_token {
            Some(t) => {
                t.new_tag_attr(data);
                true
            },
            None => false,
        }
    }

    fn push_to_attr_name(&mut self, ch: char) -> (ok: bool)
        ensures
            final(self).wf() == old(self).wf(),
            stepped_as(final(self).tok(), push_to_attr_name(old(self).tok(), ch), ok),
    {
        match &mut self.tag_token {
            Some(t) => {
                let n = match t {
                    TagToken::Start(tag) => tag.attributes.len(),
                    TagToken::End(tag) => tag.attributes.len(),
                };
                if n == 0 {
                    return false;
                }
                t.push_to_attr_name(ch);
                true
            },
            None => false,
        }
    }

    fn push_to_attr_val(&mut self, ch: char) -> (ok: bool)
        ensures
            final(self).wf() == old(self).wf(),
            stepped_as(final(self).tok(), push_to_attr_val(old(self).tok(), ch), ok),
    {
        match &mut self.tag_token {
            Some(t) => {
                let n = match t {
                    TagToken::Start(tag) => tag.attributes.len(),
                    TagToken::End(tag) => tag.attributes.len(),
                };
                if n == 0 {
                    return false;
                }
                t.push_to_attr_val(ch);
                true
            },
            None => false,
        }
    }

    fn tag_set_self_closing(&mut self) -> (ok: bool)
        ensures
            final(self).wf() == old(self).wf(),
            stepped_as(final(self).tok(), set_self_closing(old(self).tok()), ok),
    {
        match &mut self.tag_token {
            Some(t) => {
                t.set_self_closing();
                true
            },
            None => false,
        }
    }

    /// Emits the tag being built, if there is one.
    fn emit_tag(&mut self)
        ensures
            final(self).wf() == old(self).wf(),
            final(self).tok() == emit_tag(old(self).tok()),
    {
        let k = match &self.tag_token {
            Some(TagToken::Start(t)) => Some(Token::StartTag(copy_tag(t))),
            Some(TagToken::End(t)) => Some(Token::EndTag(copy_tag(t))),
            None => None,
        };
        match k {
            Some(k) => self.emit(k),
            None => {},
        }
    }

    /// Emits the comment being built, or an empty one.
    fn emit_comment(&mut self)
        ensures
            final(self).wf() == old(self).wf(),
            final(self).tok() == emit_comment(old(self).tok()),
    {
        let c = match &self.comment_token {
            Some(c) => c.clone(),
            None => String::new(),
        };
        self.emit(Token::Comment(c));
    }

    fn emit_doctype(&mut self) -> (ok: bool)
        ensures
            final(self).wf() == old(self).wf(),
            stepped_as(final(self).tok(), emit_doctype(old(self).tok()), ok),
    {
        match &self.doctype_token {
            Some(d) => {
                let k = Token::DOCTYPE(d.copy());
                self.emit(k);
                true
            },
            None => false,
        }
    }

    fn push_to_comment(&mut self, ch: char)
        ensures
            final(self).wf() == old(self).wf(),
            final(self).tok() == push_to_comment(old(self).tok(), ch),
    {
        if let Some(comment) = &mut self.comment_token {
            crate::text::push_char(comment, ch);
        }
    }

    fn push_to_doctype_name(&mut self, ch: char)
        ensures
            final(self).wf() == old(self).wf(),
            final(self).tok() == push_to_doctype_name(old(self).tok(), ch),
    {
        if let Some(doctype) = &mut self.doctype_token {
            crate::text::push_char(&mut doctype.name, ch);
        }
    }

    /// The tag being built is an end tag named as the last start tag
    /// emitted.
    fn is_current_appropriate_end_tag(&self) -> (r: bool)
        ensures
            r == appropriate(self.tok()),
    {
        match &self.tag_token {
            Some(TagToken::End(tag)) => self.is_appropriate_end_tag(tag),
            _ => false,
        }
    }

    /// `tag` is named as the last start tag emitted.
    fn is_appropriate_end_tag(&self, tag: &Tag) -> (r: bool)
        ensures
            r == (last_start_name(token_views(self.emitted_tokens@)) == Some(tag@.name)),
    {
        let ghost all = token_views(self.emitted_tokens@);
        let mut i = self.emitted_tokens.len();
        assert(all.take(i as int) =~= all);
        while i > 0
            invariant
                i <= self.emitted_tokens@.len(),
                all == token_views(self.emitted_tokens@),
                last_start_name(all) == last_start_name(all.take(i as int)),
            decreases i,
        {
            assert(all.take(i as int).drop_last() =~= all.take(i - 1));
            match &self.emitted_tokens[i - 1] {
                Token::StartTag(start) => {
                    return crate::http::url::engine::same_string(&tag.name, &start.name);
                },
                _ => {},
            }
            i = i - 1;
        }
        false
    }

    /// Emits the code points of the temporary buffer, one by one.
    fn emit_temporary_buffer(&mut self)
        ensures
            final(self).wf() == old(self).wf(),
            final(self).tok() == emit_chars(old(self).tok(), old(self).tok().temp),
    {
        let buf = copy_chars(&self.temporary_buffer);
        let ghost start = self.tok();
        let mut i: usize = 0;
        while i < buf.len()
            invariant
                i <= buf@.len(),
                buf@ == start.temp,
                self.wf() == old(self).wf(),
                start == old(self).tok(),
                self.tok() == emit_chars(start, buf@.take(i as int)),
            decreases buf@.len() - i,
        {
            assert(buf@.take(i + 1).drop_last() =~= buf@.take(i as int));
            self.emit_char(buf[i]);
            i = i + 1;
        }
        assert(buf@.take(buf@.len() as int) =~= buf@);
    }
}

/// A copy of a tag.
fn copy_tag(t: &Tag) -> (r: Tag)
    ensures
        r@ == t@,
{
    let mut attrs: Vec<(String, String)> = Vec::new();
    let mut i: usize = 0;
    while i < t.attributes.len()
        invariant
            i <= t.attributes@.len(),
            attr_views(attrs@) =~= attr_views(t.attributes@.take(i as int)),
        decreases t.attributes@.len() - i,
    {
        let ghost before = attrs@;
        let a = (t.attributes[i].0.clone(), t.attributes[i].1.clone());
        attrs.push(a);
        assert(t.attributes@.take(i + 1) =~= t.attributes@.take(i as int).push(t.attributes@[i as int]));
        assert(attr_views(attrs@) =~= attr_views(before).push((a.0@, a.1@)));
        i = i + 1;
    }
    assert(t.attributes@.take(t.attributes@.len() as int) =~= t.attributes@);
    Tag { name: t.name.clone(), is_self_closing: t.is_self_closing, attributes: attrs }
}

/// A copy of a sequence of code points.
fn copy_chars(v: &Vec<char>) -> (r: Vec<char>)
    ensures
        r@ == v@,
{
    let mut r: Vec<char> = Vec::new();
    let mut i: usize = 0;
    while i < v.len()
        invariant
            i <= v@.len(),
            r@ == v@.take(i as int),
        decreases v@.len() - i,
    {
        assert(v@.take(i + 1) =~= v@.take(i as int).push(v@[i as int]));
        r.push(v[i]);
        i = i + 1;
    }
    assert(v@.take(v@.len() as int) =~= v@);
    r
}

impl DOCTYPE {
    /// A copy of the token.
    fn copy(&self) -> (r: DOCTYPE)
        ensures
            r@ == self@,
    {
        DOCTYPE {
            name: self.name.clone(),
            public_identifier: self.public_identifier.clone(),
            system_identifier: self.system_identifier.clone(),
            force_quirks: self.force_quirks,
        }
    }
}

/// HTML's ASCII white space.
fn space(c: char) -> (r: bool)
    ensures
        r == is_space(c),
{
    c == '\t' || c == '\n' || c == '\x0C' || c == ' '
}

impl Tokenizer {
    fn step_text(&mut self, amp: bool, lt: Option<TokenizerState>) -> (ok: bool)
        requires
            old(self).wf(),
        ensures
            final(self).wf(),
            stepped_as(final(self).tok(), text_step(old(self).tok(), amp, lt), ok),
    {
        let here = self.state;
        let (ok, c) = self.consume_next();
        if !ok {
            return false;
        }
        match c {
            Some(ch) => {
                if amp && ch == '&' {
                    self.return_state = Some(here);
                    self.state = TokenizerState::CharacterReference;
                    true
                } else if lt.is_some() && ch == '<' {
                    self.state = lt.unwrap();
                    true
                } else if ch == '\0' {
                    false
                } else {
                    self.emit_char(ch);
                    true
                }
            },
            None => {
                self.emit(Token::EOF);
                true
            },
        }
    }

    fn step_end_tag_opening(&mut self, name_state: TokenizerState, text_state: TokenizerState) -> (ok: bool)
        requires
            old(self).wf(),
        ensures
            final(self).wf(),
            stepped_as(final(self).tok(), end_tag_open_step(old(self).tok(), name_state, text_state), ok),
    {
        let (ok, c) = self.consume_next();
        if !ok {
            return false;
        }
        let alpha = match c {
            Some(ch) => ascii_alpha(ch),
            None => false,
        };
        if alpha {
            self.start_tag(false);
            self.reconsume(name_state);
        } else {
            self.emit_char('<');
            self.emit_char('/');
            self.reconsume(text_state);
        }
        true
    }

    /// `</`, the temporary buffer, and the current code point again in
    /// `text_state`.
    fn end_tag_name_anything_else(&mut self, text_state: TokenizerState)
        ensures
            final(self).wf() == old(self).wf(),
            final(self).tok() == reconsume_in(
                emit_chars(emit_char(emit_char(old(self).tok(), '<'), '/'), old(self).tok().temp),
                text_state,
            ),
    {
        self.emit_char('<');
        self.emit_char('/');
        self.emit_temporary_buffer();
        self.reconsume(text_state);
    }

    fn step_end_tag_name(&mut self, text_state: TokenizerState) -> (ok: bool)
        requires
            old(self).wf(),
        ensures
            final(self).wf(),
            stepped_as(final(self).tok(), end_tag_name_step(old(self).tok(), text_state), ok),
    {
        let appr = self.is_current_appropriate_end_tag();
        proof {
            let t1 = consume(self.tok()).1;
            lemma_emit_chars_appends(emit_char(emit_char(t1, '<'), '/'), t1.temp);
        }
        let (ok, c) = self.consume_next();
        if !ok {
            return false;
        }
        match c {
            Some(ch) => {
                if space(ch) && appr {
                    self.state = TokenizerState::BeforeAttributeName;
                    true
                } else if ch == '/' && appr {
                    self.state = TokenizerState::SelfClosingStartTag;
                    true
                } else if ch == '>' && appr {
                    self.state = TokenizerState::Data;
                    self.emit_tag();
                    true
                } else if 'A' <= ch && ch <= 'Z' {
                    if !self.push_to_tag(to_lower(ch)) {
                        return false;
                    }
                    self.temporary_buffer.push(ch);
                    true
                } else if 'a' <= ch && ch <= 'z' {
                    if !self.push_to_tag(ch) {
                        return false;
                    }
                    self.temporary_buffer.push(ch);
                    true
                } else {
                    self.end_tag_name_anything_else(text_state);
                    true
                }
            },
            None => {
                self.end_tag_name_anything_else(text_state);
                true
            },
        }
    }

    /// The temporary buffer spells `script`.
    fn temporary_buffer_is_script(&self) -> (r: bool)
        ensures
            r == temp_is_script(self.tok()),
    {
        let script = ['s', 'c', 'r', 'i', 'p', 't'];
        assert(script@ =~= seq!['s', 'c', 'r', 'i', 'p', 't']);
        crate::http::url::chars_equal(self.temporary_buffer.as_slice(), &script)
    }

    fn step_double_escape(&mut self, if_script: TokenizerState, other: TokenizerState) -> (ok: bool)
        requires
            old(self).wf(),
        ensures
            final(self).wf(),
            stepped_as(final(self).tok(), double_escape_step(old(self).tok(), if_script, other), ok),
    {
        let (ok, c) = self.consume_next();
        if !ok {
            return false;
        }
        match c {
            Some(ch) => {
                if space(ch) || ch == '/' || ch == '>' {
                    self.state = if self.temporary_buffer_is_script() {
                        if_script
                    } else {
                        other
                    };
                    self.emit_char(ch);
                } else if 'A' <= ch && ch <= 'Z' {
                    self.temporary_buffer.push(to_lower(ch));
                    self.emit_char(ch);
                } else if 'a' <= ch && ch <= 'z' {
                    self.temporary_buffer.push(ch);
                    self.emit_char(ch);
                } else {
                    self.reconsume(other);
                }
            },
            None => {
                self.reconsume(other);
            },
        }
        true
    }

    fn step_escaped(
        &mut self,
        dash_state: Option<TokenizerState>,
        lt_state: TokenizerState,
        emit_lt: bool,
        gt_ends: bool,
        base: TokenizerState,
    ) -> (ok: bool)
        requires
            old(self).wf(),
        ensures
            final(self).wf(),
            stepped_as(
                final(self).tok(),
                escaped_step(old(self).tok(), dash_state, lt_state, emit_lt, gt_ends, base),
                ok,
            ),
    {
        let (ok, c) = self.consume_next();
        if !ok {
            return false;
        }
        match c {
            Some(ch) => {
                if ch == '-' {
                    if let Some(d) = dash_state {
                        self.state = d;
                    }
                    self.emit_char('-');
                    true
                } else if ch == '<' {
                    self.state = lt_state;
                    if emit_lt {
                        self.emit_char('<');
                    }
                    true
                } else if ch == '>' && gt_ends {
                    self.state = TokenizerState::ScriptData;
                    self.emit_char('>');
                    true
                } else if ch == '\0' {
                    false
                } else {
                    self.state = base;
                    self.emit_char(ch);
                    true
                }
            },
            None => false,
        }
    }

    fn step_quoted_value(&mut self, quote: char) -> (ok: bool)
        requires
            old(self).wf(),
        ensures
            final(self).wf(),
            stepped_as(final(self).tok(), quoted_value_step(old(self).tok(), quote), ok),
    {
        let here = self.state;
        let (ok, c) = self.consume_next();
        if !ok {
            return false;
        }
        match c {
            Some(ch) => {
                if ch == quote {
                    self.state = TokenizerState::AfterAttributeValueQuoted;
                    true
                } else if ch == '&' {
                    self.return_state = Some(here);
                    self.state = TokenizerState::CharacterReference;
                    true
                } else if ch == '\0' {
                    false
                } else {
                    self.push_to_attr_val(ch)
                }
            },
            None => false,
        }
    }
}

impl Tokenizer {
    fn step_tag_open(&mut self) -> (ok: bool)
        requires
            old(self).wf(),
            old(self).state == TokenizerState::TagOpen,
        ensures
            final(self).wf(),
            stepped_as(final(self).tok(), state_step(old(self).tok()), ok),
    {
        proof {
            reveal(state_step);
        }
        let (ok, c) = self.consume_next();
        if !ok {
            return false;
        }
        match c {
            Some(ch) => {
                if ch == '!' {
                    self.state = TokenizerState::MarkupDeclarationOpen;
                    true
                } else if ch == '/' {
                    self.state = TokenizerState::EndTagOpen;
                    true
                } else if ascii_alpha(ch) {
                    self.start_tag(true);
                    self.reconsume(TokenizerState::TagName);
                    true
                } else {
                    false
                }
            },
            None => false,
        }
    }

    fn step_end_tag_open(&mut self) -> (ok: bool)
        requires
            old(self).wf(),
            old(self).state == TokenizerState::EndTagOpen,
        ensures
            final(self).wf(),
            stepped_as(final(self).tok(), state_step(old(self).tok()), ok),
    {
        proof {
            reveal(state_step);
        }
        let (ok, c) = self.consume_next();
        if !ok {
            return false;
        }
        match c {
            Some(ch) => {
                if ascii_alpha(ch) {
                    self.start_tag(false);
                    self.reconsume(TokenizerState::TagName);
                    true
                } else {
                    false
                }
            },
            None => false,
        }
    }

    fn step_tag_name(&mut self) -> (ok: bool)
        requires
            old(self).wf(),
            old(self).state == TokenizerState::TagName,
        ensures
            final(self).wf(),
            stepped_as(final(self).tok(), state_step(old(self).tok()), ok),
    {
        proof {
            reveal(state_step);
        }
        let (ok, c) = self.consume_next();
        if !ok {
            return false;
        }
        match c {
            Some(ch) => {
                if space(ch) {
                    self.state = TokenizerState::BeforeAttributeName;
                    true
                } else if ch == '/' {
                    self.state = TokenizerState::SelfClosingStartTag;
                    true
                } else if ch == '>' {
                    self.state = TokenizerState::Data;
                    self.emit_tag();
                    true
                } else if 'A' <= ch && ch <= 'Z' {
                    self.push_to_tag(to_lower(ch))
                } else if ch == '\0' {
                    false
                } else {
                    self.push_to_tag(ch)
                }
            },
            None => false,
        }
    }

    fn step_rcdata_less_than_sign(&mut self) -> (ok: bool)
        requires
            old(self).wf(),
            old(self).state == TokenizerState::RCDATALessThanSign,
        ensures
            final(self).wf(),
            stepped_as(final(self).tok(), state_step(old(self).tok()), ok),
    {
        proof {
            reveal(state_step);
        }
        let (ok, c) = self.consume_next();
        if !ok {
            return false;
        }
        if c == Some('/') {
            self.temporary_buffer = Vec::new();
        } else {
            self.emit_char('<');
            self.reconsume(TokenizerState::RCDATA);
        }
        true
    }

    fn step_rawtext_less_than_sign(&mut self) -> (ok: bool)
        requires
            old(self).wf(),
            old(self).state == TokenizerState::RAWTEXTLessThanSign,
        ensures
            final(self).wf(),
            stepped_as(final(self).tok(), state_step(old(self).tok()), ok),
    {
        proof {
            reveal(state_step);
        }
        let (ok, c) = self.consume_next();
        if !ok {
            return false;
        }
        if c == Some('/') {
            self.temporary_buffer = Vec::new();
            self.state = TokenizerState::RAWTEXTEndTagOpen;
        } else {
            self.emit_char('<');
            self.reconsume(TokenizerState::RAWTEXT);
        }
        true
    }

    fn step_script_data_less_than_sign(&mut self) -> (ok: bool)
        requires
            old(self).wf(),
            old(self).state == TokenizerState::ScriptDataLessThanSign,
        ensures
            final(self).wf(),
            stepped_as(final(self).tok(), state_step(old(self).tok()), ok),
    {
        proof {
            reveal(state_step);
        }
        let (ok, c) = self.consume_next();
        if !ok {
            return false;
        }
        if c == Some('/') {
            self.temporary_buffer = Vec::new();
            self.state = TokenizerState::ScriptDataEndTagOpen;
        } else if c == Some('!') {
            self.state = TokenizerState::ScriptDataEscapeStart;
            self.emit_char('<');
            self.emit_char('!');
        } else {
            self.emit_char('<');
            self.reconsume(TokenizerState::ScriptData);
        }
        true
    }

    fn step_script_data_escape_start(&mut self) -> (ok: bool)
        requires
            old(self).wf(),
            old(self).state == TokenizerState::ScriptDataEscapeStart,
        ensures
            final(self).wf(),
            stepped_as(final(self).tok(), state_step(old(self).tok()), ok),
    {
        proof {
            reveal(state_step);
        }
        let (ok, c) = self.consume_next();
        if !ok {
            return false;
        }
        if c == Some('-') {
            self.state = TokenizerState::ScriptDataEscapeStartDash;
            self.emit_char('-');
        } else {
            self.reconsume(TokenizerState::ScriptData);
        }
        true
    }

    fn step_script_data_escape_start_dash(&mut self) -> (ok: bool)
        requires
            old(self).wf(),
            old(self).state == TokenizerState::ScriptDataEscapeStartDash,
        ensures
            final(self).wf(),
            stepped_as(final(self).tok(), state_step(old(self).tok()), ok),
    {
        proof {
            reveal(state_step);
        }
        let (ok, c) = self.consume_next();
        if !ok {
            return false;
        }
        if c == Some('-') {
            self.state = TokenizerState::ScriptDataEscapedDashDash;
            self.emit_char('-');
        } else {
            self.reconsume(TokenizerState::ScriptData);
        }
        true
    }

    fn step_script_data_escaped_less_than_sign(&mut self) -> (ok: bool)
        requires
            old(self).wf(),
            old(self).state == TokenizerState::ScriptDataEscapedLessThanSign,
        ensures
            final(self).wf(),
            stepped_as(final(self).tok(), state_step(old(self).tok()), ok),
    {
        proof {
            reveal(state_step);
        }
        let (ok, c) = self.consume_next();
        if !ok {
            return false;
        }
        match c {
            Some(ch) => {
                if ch == '/' {
                    self.temporary_buffer = Vec::new();
                    self.state = TokenizerState::ScriptDataEscapedEndTagOpen;
                } else if ascii_alpha(ch) {
                    self.temporary_buffer = Vec::new();
                    self.emit_char('<');
                    self.reconsume(TokenizerState::ScriptDataDoubleEscapeStart);
                } else {
                    self.emit_char('<');
                    self.reconsume(TokenizerState::ScriptData);
                }
            },
            None => {
                self.emit_char('<');
                self.reconsume(TokenizerState::ScriptData);
            },
        }
        true
    }

    fn step_script_data_double_escaped_less_than_sign(&mut self) -> (ok: bool)
        requires
            old(self).wf(),
            old(self).state == TokenizerState::ScriptDataDoubleEscapedLessThanSign,
        ensures
            final(self).wf(),
            stepped_as(final(self).tok(), state_step(old(self).tok()), ok),
    {
        proof {
            reveal(state_step);
        }
        let (ok, c) = self.consume_next();
        if !ok {
            return false;
        }
        if c == Some('/') {
            self.temporary_buffer = Vec::new();
            self.state = TokenizerState::ScriptDataDoubleEscapeEnd;
            self.emit_char('/');
        } else {
            self.reconsume(TokenizerState::ScriptDataDoubleEscaped);
        }
        true
    }

    fn step_before_attribute_name(&mut self) -> (ok: bool)
        requires
            old(self).wf(),
            old(self).state == TokenizerState::BeforeAttributeName,
        ensures
            final(self).wf(),
            stepped_as(final(self).tok(), state_step(old(self).tok()), ok),
    {
        proof {
            reveal(state_step);
        }
        let (ok, c) = self.consume_next();
        if !ok {
            return false;
        }
        match c {
            Some(ch) => {
                if space(ch) {
                    true
                } else if ch == '/' || ch == '>' {
                    self.reconsume(TokenizerState::AfterAttributeName);
                    true
                } else if ch == '=' {
                    false
                } else {
                    if !self.new_tag_attr(None) {
                        return false;
                    }
                    self.reconsume(TokenizerState::AttributeName);
                    true
                }
            },
            None => {
                self.reconsume(TokenizerState::AfterAttributeName);
                true
            },
        }
    }

    fn step_attribute_name(&mut self) -> (ok: bool)
        requires
            old(self).wf(),
            old(self).state == TokenizerState::AttributeName,
        ensures
            final(self).wf(),
            stepped_as(final(self).tok(), state_step(old(self).tok()), ok),
    {
        proof {
            reveal(state_step);
        }
        self.leave_check = true;
        let (ok, c) = self.consume_next();
        if !ok {
            return false;
        }
        match c {
            Some(ch) => {
                if space(ch) || ch == '/' || ch == '>' {
                    self.reconsume(TokenizerState::AfterAttributeName);
                    true
                } else if ch == '=' {
                    self.state = TokenizerState::BeforeAttributeValue;
                    true
                } else if 'A' <= ch && ch <= 'Z' {
                    self.push_to_attr_name(to_lower(ch))
                } else if ch == '\0' || ch == '"' || ch == '\'' || ch == '<' {
                    false
                } else {
                    self.push_to_attr_name(ch)
                }
            },
            None => {
                self.reconsume(TokenizerState::AfterAttributeName);
                true
            },
        }
    }

    fn step_after_attribute_name(&mut self) -> (ok: bool)
        requires
            old(self).wf(),
            old(self).state == TokenizerState::AfterAttributeName,
        ensures
            final(self).wf(),
            stepped_as(final(self).tok(), state_step(old(self).tok()), ok),
    {
        proof {
            reveal(state_step);
        }
        let (ok, c) = self.consume_next();
        if !ok {
            return false;
        }
        match c {
            Some(ch) => {
                if space(ch) {
                    true
                } else if ch == '/' {
                    self.state = TokenizerState::SelfClosingStartTag;
                    true
                } else if ch == '=' {
                    self.state = TokenizerState::BeforeAttributeValue;
                    true
                } else if ch == '>' {
                    self.state = TokenizerState::Data;
                    self.emit_tag();
                    true
                } else {
                    if !self.new_tag_attr(None) {
                        return false;
                    }
                    self.reconsume(TokenizerState::AttributeName);
                    true
                }
            },
            None => false,
        }
    }

    fn step_before_attribute_value(&mut self) -> (ok: bool)
        requires
            old(self).wf(),
            old(self).state == TokenizerState::BeforeAttributeValue,
        ensures
            final(self).wf(),
            stepped_as(final(self).tok(), state_step(old(self).tok()), ok),
    {
        proof {
            reveal(state_step);
        }
        let (ok, c) = self.consume_next();
        if !ok {
            return false;
        }
        match c {
            Some(ch) => {
                if space(ch) {
                    true
                } else if ch == '"' {
                    self.state = TokenizerState::AttributeValueDoubleQuoted;
                    true
                } else if ch == '\'' {
                    self.state = TokenizerState::AttributeValueSingleQuoted;
                    true
                } else if ch == '>' {
                    false
                } else {
                    self.reconsume(TokenizerState::AttributeValueUnquoted);
                    true
                }
            },
            None => {
                self.reconsume(TokenizerState::AttributeValueUnquoted);
                true
            },
        }
    }

    fn step_attribute_value_unquoted(&mut self) -> (ok: bool)
        requires
            old(self).wf(),
            old(self).state == TokenizerState::AttributeValueUnquoted,
        ensures
            final(self).wf(),
            stepped_as(final(self).tok(), state_step(old(self).tok()), ok),
    {
        proof {
            reveal(state_step);
        }
        let (ok, c) = self.consume_next();
        if !ok {
            return false;
        }
        match c {
            Some(ch) => {
                if space(ch) {
                    self.state = TokenizerState::BeforeAttributeName;
                    true
                } else if ch == '&' {
                    self.return_state = Some(TokenizerState::AttributeValueUnquoted);
                    self.state = TokenizerState::CharacterReference;
                    true
                } else if ch == '>' {
                    self.state = TokenizerState::Data;
                    self.emit_tag();
                    true
                } else if ch == '\0' || ch == '"' || ch == '\'' || ch == '<' || ch == '=' || ch == '`' {
                    false
                } else {
                    self.push_to_attr_val(ch)
                }
            },
            None => false,
        }
    }

    fn step_self_closing_start_tag(&mut self) -> (ok: bool)
        requires
            old(self).wf(),
            old(self).state == TokenizerState::SelfClosingStartTag,
        ensures
            final(self).wf(),
            stepped_as(final(self).tok(), state_step(old(self).tok()), ok),
    {
        proof {
            reveal(state_step);
        }
        let (ok, c) = self.consume_next();
        if !ok {
            return false;
        }
        if c == Some('>') {
            if !self.tag_set_self_closing() {
                return false;
            }
            self.state = TokenizerState::Data;
            self.emit_tag();
            true
        } else {
            false
        }
    }

    fn step_bogus_comment(&mut self) -> (ok: bool)
        requires
            old(self).wf(),
            old(self).state == TokenizerState::BogusComment,
        ensures
            final(self).wf(),
            stepped_as(final(self).tok(), state_step(old(self).tok()), ok),
    {
        proof {
            reveal(state_step);
        }
        let (ok, c) = self.consume_next();
        if !ok {
            return false;
        }
        match c {
            Some(ch) => {
                if ch == '>' {
                    self.state = TokenizerState::Data;
                    self.emit_comment();
                    true
                } else if ch == '\0' {
                    false
                } else {
                    self.push_to_comment(ch);
                    true
                }
            },
            None => {
                self.emit_comment();
                true
            },
        }
    }

    fn step_markup_declaration_open(&mut self) -> (ok: bool)
        requires
            old(self).wf(),
            old(self).state == TokenizerState::MarkupDeclarationOpen,
        ensures
            final(self).wf(),
            stepped_as(final(self).tok(), state_step(old(self).tok()), ok),
    {
        proof {
            reveal(state_step);
        }
        // The look-ahead compares a window one code point wider than the text
        // it looks for, so it never matches (or the window runs past the end
        // and the slice panics); falling through is a parse error, which
        // panics too.
        false
    }

    fn step_comment_start(&mut self) -> (ok: bool)
        requires
            old(self).wf(),
            old(self).state == TokenizerState::CommentStart,
        ensures
            final(self).wf(),
            stepped_as(final(self).tok(), state_step(old(self).tok()), ok),
    {
        proof {
            reveal(state_step);
        }
        let (ok, c) = self.consume_next();
        if !ok {
            return false;
        }
        if c == Some('-') {
            self.state = TokenizerState::CommentStartDash;
            true
        } else if c == Some('>') {
            false
        } else {
            self.reconsume(TokenizerState::Comment);
            true
        }
    }

    fn step_comment_start_dash(&mut self) -> (ok: bool)
        requires
            old(self).wf(),
            old(self).state == TokenizerState::CommentStartDash,
        ensures
            final(self).wf(),
            stepped_as(final(self).tok(), state_step(old(self).tok()), ok),
    {
        proof {
            reveal(state_step);
        }
        let (ok, c) = self.consume_next();
        if !ok {
            return false;
        }
        match c {
            Some(ch) => {
                if ch == '-' {
                    self.state = TokenizerState::CommentEnd;
                    true
                } else if ch == '>' {
                    false
                } else {
                    self.push_to_comment('-');
                    self.reconsume(TokenizerState::Comment);
                    true
                }
            },
            None => false,
        }
    }

    fn step_comment(&mut self) -> (ok: bool)
        requires
            old(self).wf(),
            old(self).state == TokenizerState::Comment,
        ensures
            final(self).wf(),
            stepped_as(final(self).tok(), state_step(old(self).tok()), ok),
    {
        proof {
            reveal(state_step);
        }
        let (ok, c) = self.consume_next();
        if !ok {
            return false;
        }
        match c {
            Some(ch) => {
                if ch == '<' {
                    self.push_to_comment(ch);
                    self.state = TokenizerState::CommentLessThanSign;
                    true
                } else if ch == '-' {
                    self.state = TokenizerState::CommentEndDash;
                    true
                } else if ch == '\0' {
                    false
                } else {
                    self.push_to_comment(ch);
                    true
                }
            },
            None => false,
        }
    }

    fn step_comment_less_than_sign(&mut self) -> (ok: bool)
        requires
            old(self).wf(),
            old(self).state == TokenizerState::CommentLessThanSign,
        ensures
            final(self).wf(),
            stepped_as(final(self).tok(), state_step(old(self).tok()), ok),
    {
        proof {
            reveal(state_step);
        }
        let (ok, c) = self.consume_next();
        if !ok {
            return false;
        }
        if c == Some('!') {
            self.push_to_comment('!');
            self.state = TokenizerState::CommentLessThanSignBang;
        } else if c == Some('<') {
            self.push_to_comment('<');
        } else {
            self.reconsume(TokenizerState::Comment);
        }
        true
    }

    fn step_comment_less_than_sign_bang(&mut self) -> (ok: bool)
        requires
            old(self).wf(),
            old(self).state == TokenizerState::CommentLessThanSignBang,
        ensures
            final(self).wf(),
            stepped_as(final(self).tok(), state_step(old(self).tok()), ok),
    {
        proof {
            reveal(state_step);
        }
        let (ok, c) = self.consume_next();
        if !ok {
            return false;
        }
        if c == Some('-') {
            self.state = TokenizerState::CommentLessThanSignBangDash;
        } else {
            self.reconsume(TokenizerState::Comment);
        }
        true
    }

    fn step_comment_less_than_sign_bang_dash(&mut self) -> (ok: bool)
        requires
            old(self).wf(),
            old(self).state == TokenizerState::CommentLessThanSignBangDash,
        ensures
            final(self).wf(),
            stepped_as(final(self).tok(), state_step(old(self).tok()), ok),
    {
        proof {
            reveal(state_step);
        }
        let (ok, c) = self.consume_next();
        if !ok {
            return false;
        }
        if c == Some('-') {
            self.state = TokenizerState::CommentLessThanSignBangDashDash;
        } else {
            self.reconsume(TokenizerState::CommentEndDash);
        }
        true
    }

    fn step_comment_less_than_sign_bang_dash_dash(&mut self) -> (ok: bool)
        requires
            old(self).wf(),
            old(self).state == TokenizerState::CommentLessThanSignBangDashDash,
        ensures
            final(self).wf(),
            stepped_as(final(self).tok(), state_step(old(self).tok()), ok),
    {
        proof {
            reveal(state_step);
        }
        let (ok, c) = self.consume_next();
        if !ok {
            return false;
        }
        if c.is_none() || c == Some('>') {
            self.reconsume(TokenizerState::CommentEnd);
            true
        } else {
            false
        }
    }

    fn step_comment_end_dash(&mut self) -> (ok: bool)
        requires
            old(self).wf(),
            old(self).state == TokenizerState::CommentEndDash,
        ensures
            final(self).wf(),
            stepped_as(final(self).tok(), state_step(old(self).tok()), ok),
    {
        proof {
            reveal(state_step);
        }
        let (ok, c) = self.consume_next();
        if !ok {
            return false;
        }
        match c {
            Some(ch) => {
                if ch == '-' {
                    self.state = TokenizerState::CommentEnd;
                } else {
                    self.push_to_comment(ch);
                    self.reconsume(TokenizerState::Comment);
                }
                true
            },
            None => false,
        }
    }

    fn step_comment_end(&mut self) -> (ok: bool)
        requires
            old(self).wf(),
            old(self).state == TokenizerState::CommentEnd,
        ensures
            final(self).wf(),
            stepped_as(final(self).tok(), state_step(old(self).tok()), ok),
    {
        proof {
            reveal(state_step);
        }
        let (ok, c) = self.consume_next();
        if !ok {
            return false;
        }
        match c {
            Some(ch) => {
                if ch == '>' {
                    self.state = TokenizerState::Data;
                    self.emit_comment();
                } else if ch == '!' {
                    self.state = TokenizerState::CommentEndBang;
                } else if ch == '-' {
                    self.push_to_comment('-');
                } else {
                    self.push_to_comment('-');
                    self.push_to_comment('-');
                    self.reconsume(TokenizerState::Comment);
                }
                true
            },
            None => false,
        }
    }

    fn step_comment_end_bang(&mut self) -> (ok: bool)
        requires
            old(self).wf(),
            old(self).state == TokenizerState::CommentEndBang,
        ensures
            final(self).wf(),
            stepped_as(final(self).tok(), state_step(old(self).tok()), ok),
    {
        proof {
            reveal(state_step);
        }
        let (ok, c) = self.consume_next();
        if !ok {
            return false;
        }
        match c {
            Some(ch) => {
                if ch == '>' {
                    return false;
                }
                self.push_to_comment('-');
                self.push_to_comment('-');
                self.push_to_comment('!');
                if ch == '-' {
                    self.state = TokenizerState::CommentEndDash;
                } else {
                    self.reconsume(TokenizerState::Comment);
                }
                true
            },
            None => false,
        }
    }

    fn step_doctype(&mut self) -> (ok: bool)
        requires
            old(self).wf(),
            old(self).state == TokenizerState::DOCTYPE,
        ensures
            final(self).wf(),
            stepped_as(final(self).tok(), state_step(old(self).tok()), ok),
    {
        proof {
            reveal(state_step);
        }
        let (ok, c) = self.consume_next();
        if !ok {
            return false;
        }
        match c {
            Some(ch) => {
                if space(ch) {
                    self.state = TokenizerState::BeforeDOCTYPEName;
                    true
                } else if ch == '>' {
                    self.reconsume(TokenizerState::BeforeDOCTYPEName);
                    true
                } else {
                    false
                }
            },
            None => false,
        }
    }

    fn step_before_doctype_name(&mut self) -> (ok: bool)
        requires
            old(self).wf(),
            old(self).state == TokenizerState::BeforeDOCTYPEName,
        ensures
            final(self).wf(),
            stepped_as(final(self).tok(), state_step(old(self).tok()), ok),
    {
        proof {
            reveal(state_step);
        }
        let (ok, c) = self.consume_next();
        if !ok {
            return false;
        }
        match c {
            Some(ch) => {
                if space(ch) {
                    true
                } else if ch == '\0' || ch == '>' {
                    false
                } else {
                    let first = if 'A' <= ch && ch <= 'Z' {
                        to_lower(ch)
                    } else {
                        ch
                    };
                    let mut token = DOCTYPE::default();
                    crate::text::push_char(&mut token.name, first);
                    self.doctype_token = Some(token);
                    self.state = TokenizerState::DOCTYPEName;
                    true
                }
            },
            None => false,
        }
    }

    fn step_doctype_name(&mut self) -> (ok: bool)
        requires
            old(self).wf(),
            old(self).state == TokenizerState::DOCTYPEName,
        ensures
            final(self).wf(),
            stepped_as(final(self).tok(), state_step(old(self).tok()), ok),
    {
        proof {
            reveal(state_step);
        }
        let (ok, c) = self.consume_next();
        if !ok {
            return false;
        }
        match c {
            Some(ch) => {
                if space(ch) {
                    self.state = TokenizerState::AfterDOCTYPEName;
                    true
                } else if ch == '>' {
                    self.state = TokenizerState::Data;
                    self.emit_doctype()
                } else if 'A' <= ch && ch <= 'Z' {
                    self.push_to_doctype_name(to_lower(ch));
                    true
                } else if ch == '\0' {
                    false
                } else {
                    self.push_to_doctype_name(ch);
                    true
                }
            },
            None => false,
        }
    }

}

impl Tokenizer {
    /// One step in the current state (see `steps::state_step`); `false`
    /// on a step that `state_step` marks as crashed.
    fn state_step_exec(&mut self) -> (ok: bool)
        requires
            old(self).wf(),
        ensures
            final(self).wf(),
            stepped_as(final(self).tok(), state_step(old(self).tok()), ok),
    {
        let ghost t = self.tok();
        match self.state {
            TokenizerState::Data => {
                assert(state_step(t) == text_step(t, true, Some(TokenizerState::TagOpen))) by {
                    reveal(state_step);
                }
                self.step_text(true, Some(TokenizerState::TagOpen))
            },
            TokenizerState::RCDATA => {
                assert(state_step(t) == text_step(t, true, Some(TokenizerState::RCDATALessThanSign))) by {
                    reveal(state_step);
                }
                self.step_text(true, Some(TokenizerState::RCDATALessThanSign))
            },
            TokenizerState::RAWTEXT => {
                assert(state_step(t) == text_step(t, false, Some(TokenizerState::RAWTEXTLessThanSign))) by {
                    reveal(state_step);
                }
                self.step_text(false, Some(TokenizerState::RAWTEXTLessThanSign))
            },
            TokenizerState::ScriptData => {
                assert(state_step(t) == text_step(t, false, Some(TokenizerState::ScriptDataLessThanSign))) by {
                    reveal(state_step);
                }
                self.step_text(false, Some(TokenizerState::ScriptDataLessThanSign))
            },
            TokenizerState::PLAINTEXT => {
                assert(state_step(t) == text_step(t, false, None)) by {
                    reveal(state_step);
                }
                self.step_text(false, None)
            },
            TokenizerState::RCDATAEndTagOpen => {
                assert(state_step(t) == end_tag_open_step(t, TokenizerState::RCDATAEndTagName, TokenizerState::RCDATA)) by {
                    reveal(state_step);
                }
                self.step_end_tag_opening(TokenizerState::RCDATAEndTagName, TokenizerState::RCDATA)
            },
            TokenizerState::RCDATAEndTagName => {
                assert(state_step(t) == end_tag_name_step(t, TokenizerState::RCDATA)) by {
                    reveal(state_step);
                }
                self.step_end_tag_name(TokenizerState::RCDATA)
            },
            TokenizerState::RAWTEXTEndTagOpen => {
                assert(state_step(t) == end_tag_open_step(t, TokenizerState::RAWTEXTEndTagOpen, TokenizerState::RAWTEXT)) by {
                    reveal(state_step);
                }
                self.step_end_tag_opening(TokenizerState::RAWTEXTEndTagOpen, TokenizerState::RAWTEXT)
            },
            TokenizerState::RAWTEXTEndTagName => {
                assert(state_step(t) == end_tag_name_step(t, TokenizerState::RAWTEXT)) by {
                    reveal(state_step);
                }
                self.step_end_tag_name(TokenizerState::RAWTEXT)
            },
            TokenizerState::ScriptDataEndTagOpen => {
                assert(state_step(t) == end_tag_open_step(t, TokenizerState::ScriptDataEndTagName, TokenizerState::ScriptData)) by {
                    reveal(state_step);
                }
                self.step_end_tag_opening(TokenizerState::ScriptDataEndTagName, TokenizerState::ScriptData)
            },
            TokenizerState::ScriptDataEndTagName => {
                assert(state_step(t) == end_tag_name_step(t, TokenizerState::ScriptData)) by {
                    reveal(state_step);
                }
                self.step_end_tag_name(TokenizerState::ScriptData)
            },
            TokenizerState::ScriptDataEscaped => {
                assert(state_step(t) == escaped_step(t, Some(TokenizerState::ScriptDataEscapedDash), TokenizerState::ScriptDataEscapedLessThanSign, false, false, TokenizerState::ScriptDataEscaped)) by {
                    reveal(state_step);
                }
                self.step_escaped(Some(TokenizerState::ScriptDataEscapedDash), TokenizerState::ScriptDataEscapedLessThanSign, false, false, TokenizerState::ScriptDataEscaped)
            },
            TokenizerState::ScriptDataEscapedDash => {
                assert(state_step(t) == escaped_step(t, Some(TokenizerState::ScriptDataEscapedDashDash), TokenizerState::ScriptDataEscapedLessThanSign, false, false, TokenizerState::ScriptDataEscaped)) by {
                    reveal(state_step);
                }
                self.step_escaped(Some(TokenizerState::ScriptDataEscapedDashDash), TokenizerState::ScriptDataEscapedLessThanSign, false, false, TokenizerState::ScriptDataEscaped)
            },
            TokenizerState::ScriptDataEscapedDashDash => {
                assert(state_step(t) == escaped_step(t, None, TokenizerState::ScriptDataEscapedLessThanSign, false, true, TokenizerState::ScriptData)) by {
                    reveal(state_step);
                }
                self.step_escaped(None, TokenizerState::ScriptDataEscapedLessThanSign, false, true, TokenizerState::ScriptData)
            },
            TokenizerState::ScriptDataEscapedEndTagOpen => {
                assert(state_step(t) == end_tag_open_step(t, TokenizerState::ScriptDataEscapedEndTagName, TokenizerState::ScriptDataEscaped)) by {
                    reveal(state_step);
                }
                self.step_end_tag_opening(TokenizerState::ScriptDataEscapedEndTagName, TokenizerState::ScriptDataEscaped)
            },
            TokenizerState::ScriptDataEscapedEndTagName => {
                assert(state_step(t) == end_tag_name_step(t, TokenizerState::ScriptDataEscaped)) by {
                    reveal(state_step);
                }
                self.step_end_tag_name(TokenizerState::ScriptDataEscaped)
            },
            TokenizerState::ScriptDataDoubleEscapeStart => {
                assert(state_step(t) == double_escape_step(t, TokenizerState::ScriptDataDoubleEscaped, TokenizerState::ScriptDataEscaped)) by {
                    reveal(state_step);
                }
                self.step_double_escape(TokenizerState::ScriptDataDoubleEscaped, TokenizerState::ScriptDataEscaped)
            },
            TokenizerState::ScriptDataDoubleEscaped => {
                assert(state_step(t) == escaped_step(t, Some(TokenizerState::ScriptDataDoubleEscapedDash), TokenizerState::ScriptDataEscapedLessThanSign, true, false, TokenizerState::ScriptDataDoubleEscaped)) by {
                    reveal(state_step);
                }
                self.step_escaped(Some(TokenizerState::ScriptDataDoubleEscapedDash), TokenizerState::ScriptDataEscapedLessThanSign, true, false, TokenizerState::ScriptDataDoubleEscaped)
            },
            TokenizerState::ScriptDataDoubleEscapedDash => {
                assert(state_step(t) == escaped_step(t, Some(TokenizerState::ScriptDataDoubleEscapedDashDash), TokenizerState::ScriptDataDoubleEscapedLessThanSign, true, false, TokenizerState::ScriptDataDoubleEscaped)) by {
                    reveal(state_step);
                }
                self.step_escaped(Some(TokenizerState::ScriptDataDoubleEscapedDashDash), TokenizerState::ScriptDataDoubleEscapedLessThanSign, true, false, TokenizerState::ScriptDataDoubleEscaped)
            },
            TokenizerState::ScriptDataDoubleEscapedDashDash => {
                assert(state_step(t) == escaped_step(t, None, TokenizerState::ScriptDataDoubleEscapedLessThanSign, true, true, TokenizerState::ScriptDataDoubleEscaped)) by {
                    reveal(state_step);
                }
                self.step_escaped(None, TokenizerState::ScriptDataDoubleEscapedLessThanSign, true, true, TokenizerState::ScriptDataDoubleEscaped)
            },
            TokenizerState::ScriptDataDoubleEscapeEnd => {
                assert(state_step(t) == double_escape_step(t, TokenizerState::ScriptDataEscaped, TokenizerState::ScriptDataDoubleEscaped)) by {
                    reveal(state_step);
                }
                self.step_double_escape(TokenizerState::ScriptDataEscaped, TokenizerState::ScriptDataDoubleEscaped)
            },
            TokenizerState::AttributeValueDoubleQuoted => {
                assert(state_step(t) == quoted_value_step(t, '"')) by {
                    reveal(state_step);
                }
                self.step_quoted_value('"')
            },
            TokenizerState::AttributeValueSingleQuoted => {
                assert(state_step(t) == quoted_value_step(t, '\'')) by {
                    reveal(state_step);
                }
                self.step_quoted_value('\'')
            },
            TokenizerState::TagOpen => self.step_tag_open(),
            TokenizerState::EndTagOpen => self.step_end_tag_open(),
            TokenizerState::TagName => self.step_tag_name(),
            TokenizerState::RCDATALessThanSign => self.step_rcdata_less_than_sign(),
            TokenizerState::RAWTEXTLessThanSign => self.step_rawtext_less_than_sign(),
            TokenizerState::ScriptDataLessThanSign => self.step_script_data_less_than_sign(),
            TokenizerState::ScriptDataEscapeStart => self.step_script_data_escape_start(),
            TokenizerState::ScriptDataEscapeStartDash => self.step_script_data_escape_start_dash(),
            TokenizerState::ScriptDataEscapedLessThanSign => self.step_script_data_escaped_less_than_sign(),
            TokenizerState::ScriptDataDoubleEscapedLessThanSign => self.step_script_data_double_escaped_less_than_sign(),
            TokenizerState::BeforeAttributeName => self.step_before_attribute_name(),
            TokenizerState::AttributeName => self.step_attribute_name(),
            TokenizerState::AfterAttributeName => self.step_after_attribute_name(),
            TokenizerState::BeforeAttributeValue => self.step_before_attribute_value(),
            TokenizerState::AttributeValueUnquoted => self.step_attribute_value_unquoted(),
            TokenizerState::SelfClosingStartTag => self.step_self_closing_start_tag(),
            TokenizerState::BogusComment => self.step_bogus_comment(),
            TokenizerState::MarkupDeclarationOpen => self.step_markup_declaration_open(),
            TokenizerState::CommentStart => self.step_comment_start(),
            TokenizerState::CommentStartDash => self.step_comment_start_dash(),
            TokenizerState::Comment => self.step_comment(),
            TokenizerState::CommentLessThanSign => self.step_comment_less_than_sign(),
            TokenizerState::CommentLessThanSignBang => self.step_comment_less_than_sign_bang(),
            TokenizerState::CommentLessThanSignBangDash => self.step_comment_less_than_sign_bang_dash(),
            TokenizerState::CommentLessThanSignBangDashDash => self.step_comment_less_than_sign_bang_dash_dash(),
            TokenizerState::CommentEndDash => self.step_comment_end_dash(),
            TokenizerState::CommentEnd => self.step_comment_end(),
            TokenizerState::CommentEndBang => self.step_comment_end_bang(),
            TokenizerState::DOCTYPE => self.step_doctype(),
            TokenizerState::BeforeDOCTYPEName => self.step_before_doctype_name(),
            TokenizerState::DOCTYPEName => self.step_doctype_name(),
            TokenizerState::AfterAttributeValueQuoted | TokenizerState::AfterDOCTYPEName
            | TokenizerState::CharacterReference => {
                assert(state_step(t) == t) by {
                    reveal(state_step);
                }
                true
            },
        }
    }

    /// One step of the tokenizer (see `steps::tokenize_step`): `false`, with
    /// the tokenizer in an unspecified state, on a step that `tokenize_step`
    /// marks as crashed (a parse error, or reading at the end of the input).
    pub fn tokenize_checked(&mut self) -> (ok: bool)
        requires
            old(self).wf(),
        ensures
            final(self).wf(),
            stepped_as(final(self).tok(), tokenize_step(old(self).tok()), ok),
    {
        if self.prev_state != self.state && self.leave_check {
            return false;
        }
        self.prev_state = self.state;
        self.state_step_exec()
    }

    /// One step of the tokenizer (see `steps::tokenize_step`), on a step
    /// that `tokenize_step` does not mark as crashed.
    pub fn tokenize(&mut self)
        requires
            old(self).wf(),
            !tokenize_step(old(self).tok()).crashed,
        ensures
            final(self).wf(),
            final(self).tok() == tokenize_step(old(self).tok()),
            names_lower(old(self).tok()) ==> names_lower(final(self).tok()),
    {
        proof {
            if names_lower(old(self).tok()) {
                lemma_tokenize_names_lower(old(self).tok());
            }
        }
        let ok = self.tokenize_checked();
    }

}

} // verus!
