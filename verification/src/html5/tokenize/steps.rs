//! What one step of the standalone tokenizer does, stated over a
//! mathematical tokenizer: the input and its position, the state, the token
//! being built, the temporary buffer and the tokens emitted so far.
//!
//! Every parse error of this tokenizer panics, as do the slices and
//! `unwrap`s that it takes without checking; such a step sets the
//! `crashed` flag, and the other fields of a crashed tokenizer mean nothing.
use vstd::prelude::*;
use crate::html5::parse::tree::TagView;
use crate::text::{is_lower_alpha, is_upper_alpha, is_alpha, lower, no_ascii_upper, lemma_lower_not_upper, lemma_no_ascii_upper_push};
use super::{DoctypeView, TokenizerState};

verus! {

/// The mathematical form of a token.
#[verifier::ext_equal]
pub enum TokenView {
    DOCTYPE(DoctypeView),
    StartTag(TagView),
    EndTag(TagView),
    Comment(Seq<char>),
    Character(char),
    EOF,
}

/// The mathematical form of the tokenizer between two steps.
#[verifier::ext_equal]
pub struct Tok {
    pub input: Seq<char>,
    pub pos: int,
    pub reconsume: bool,
    pub eof: bool,
    pub state: TokenizerState,
    pub prev_state: TokenizerState,
    /// The duplicate-attribute check is due when the state changes.
    pub leave_check: bool,
    pub return_state: Option<TokenizerState>,
    /// The tag being built: whether it is a start tag, and the tag.
    pub tag: Option<(bool, TagView)>,
    pub comment: Option<Seq<char>>,
    pub doctype: Option<DoctypeView>,
    pub temp: Seq<char>,
    pub emitted: Seq<TokenView>,
    pub crashed: bool,
}

/// The step panicked.
pub open spec fn crash(t: Tok) -> Tok {
    Tok { crashed: true, ..t }
}

pub open spec fn emit(t: Tok, k: TokenView) -> Tok {
    Tok { emitted: t.emitted.push(k), ..t }
}

pub open spec fn emit_char(t: Tok, c: char) -> Tok {
    emit(t, TokenView::Character(c))
}

pub open spec fn goto(t: Tok, st: TokenizerState) -> Tok {
    Tok { state: st, ..t }
}

/// Switches to `st` and reads the current code point again.
pub open spec fn reconsume_in(t: Tok, st: TokenizerState) -> Tok {
    Tok { state: st, reconsume: true, ..t }
}

/// The next code point of the stream: after `reconsume` the current one;
/// else the stream moves by one and reads, ending past the end. Reading at
/// the very end panics.
pub open spec fn consume(t: Tok) -> (Option<char>, Tok) {
    if t.reconsume {
        if 0 <= t.pos < t.input.len() {
            (Some(t.input[t.pos]), Tok { reconsume: false, ..t })
        } else {
            (None, crash(t))
        }
    } else if t.pos + 1 > t.input.len() {
        (None, Tok { eof: true, ..t })
    } else if t.pos + 1 == t.input.len() {
        (None, crash(t))
    } else {
        (Some(t.input[t.pos + 1]), Tok { pos: t.pos + 1, ..t })
    }
}

/// An empty start or end tag.
pub open spec fn empty_tag() -> TagView {
    TagView { name: Seq::empty(), is_self_closing: false, attributes: Seq::empty() }
}

pub open spec fn start_tag(t: Tok, start: bool) -> Tok {
    Tok { tag: Some((start, empty_tag())), ..t }
}

pub open spec fn push_to_tag(t: Tok, c: char) -> Tok {
    match t.tag {
        Some((s, tv)) => Tok { tag: Some((s, TagView { name: tv.name.push(c), ..tv })), ..t },
        None => crash(t),
    }
}

pub open spec fn new_tag_attr(t: Tok, a: (Seq<char>, Seq<char>)) -> Tok {
    match t.tag {
        Some((s, tv)) => Tok { tag: Some((s, TagView { attributes: tv.attributes.push(a), ..tv })), ..t },
        None => crash(t),
    }
}

pub open spec fn push_to_attr_name(t: Tok, c: char) -> Tok {
    match t.tag {
        Some((s, tv)) => if tv.attributes.len() == 0 {
            crash(t)
        } else {
            let a = tv.attributes;
            Tok {
                tag: Some((s, TagView { attributes: a.update(a.len() - 1, (a.last().0.push(c), a.last().1)), ..tv })),
                ..t
            }
        },
        None => crash(t),
    }
}

pub open spec fn push_to_attr_val(t: Tok, c: char) -> Tok {
    match t.tag {
        Some((s, tv)) => if tv.attributes.len() == 0 {
            crash(t)
        } else {
            let a = tv.attributes;
            Tok {
                tag: Some((s, TagView { attributes: a.update(a.len() - 1, (a.last().0, a.last().1.push(c))), ..tv })),
                ..t
            }
        },
        None => crash(t),
    }
}

pub open spec fn set_self_closing(t: Tok) -> Tok {
    match t.tag {
        Some((s, tv)) => Tok { tag: Some((s, TagView { is_self_closing: true, ..tv })), ..t },
        None => crash(t),
    }
}

/// Emits the tag being built, if there is one.
pub open spec fn emit_tag(t: Tok) -> Tok {
    match t.tag {
        Some((true, tv)) => emit(t, TokenView::StartTag(tv)),
        Some((false, tv)) => emit(t, TokenView::EndTag(tv)),
        None => t,
    }
}

/// Emits the comment being built, or an empty one.
pub open spec fn emit_comment(t: Tok) -> Tok {
    emit(
        t,
        TokenView::Comment(
            match t.comment {
                Some(c) => c,
                None => Seq::empty(),
            },
        ),
    )
}

pub open spec fn emit_doctype(t: Tok) -> Tok {
    match t.doctype {
        Some(d) => emit(t, TokenView::DOCTYPE(d)),
        None => crash(t),
    }
}

pub open spec fn push_to_comment(t: Tok, c: char) -> Tok {
    match t.comment {
        Some(s) => Tok { comment: Some(s.push(c)), ..t },
        None => t,
    }
}

pub open spec fn push_to_doctype_name(t: Tok, c: char) -> Tok {
    match t.doctype {
        Some(d) => Tok { doctype: Some(DoctypeView { name: d.name.push(c), ..d }), ..t },
        None => t,
    }
}

/// A new DOCTYPE token with the given name.
pub open spec fn new_doctype(t: Tok, name: Seq<char>, quirks: bool) -> Tok {
    Tok {
        doctype: Some(
            DoctypeView {
                name: name,
                public_identifier: Seq::empty(),
                system_identifier: Seq::empty(),
                force_quirks: quirks,
            },
        ),
        ..t
    }
}

/// The name of the last start tag among the emitted tokens.
pub open spec fn last_start_name(e: Seq<TokenView>) -> Option<Seq<char>>
    decreases e.len(),
{
    if e.len() == 0 {
        None
    } else {
        match e.last() {
            TokenView::StartTag(tv) => Some(tv.name),
            _ => last_start_name(e.drop_last()),
        }
    }
}

/// The tag being built is an end tag named as the last start tag emitted.
pub open spec fn appropriate(t: Tok) -> bool {
    match t.tag {
        Some((false, tv)) => last_start_name(t.emitted) == Some(tv.name),
        _ => false,
    }
}

/// HTML's ASCII white space: tab, line feed, form feed, space.
pub open spec fn is_space(c: char) -> bool {
    c == '\t' || c == '\n' || c == '\x0C' || c == ' '
}

/// The characters of `s` emitted one by one.
pub open spec fn emit_chars(t: Tok, s: Seq<char>) -> Tok
    decreases s.len(),
{
    if s.len() == 0 {
        t
    } else {
        emit_char(emit_chars(t, s.drop_last()), s.last())
    }
}

/// Emitting characters keeps the input and whether the step panicked, and
/// only adds tokens after those emitted before.
pub proof fn lemma_emit_chars_appends(t: Tok, s: Seq<char>)
    ensures
        emit_chars(t, s).input == t.input,
        emit_chars(t, s).crashed == t.crashed,
        t.emitted.is_prefix_of(emit_chars(t, s).emitted),
    decreases s.len(),
{
    if s.len() == 0 {
        assert(t.emitted.subrange(0, t.emitted.len() as int) =~= t.emitted);
    } else {
        let prev = emit_chars(t, s.drop_last());
        lemma_emit_chars_appends(t, s.drop_last());
        lemma_emit_char_appends(prev, s.last());
        lemma_emitted_prefix_trans(t, prev, emit_char(prev, s.last()));
    }
}

/// Emitting one character only adds a token.
proof fn lemma_emit_char_appends(t: Tok, c: char)
    ensures
        t.emitted.is_prefix_of(emit_char(t, c).emitted),
{
    assert(emit_char(t, c).emitted.subrange(0, t.emitted.len() as int) =~= t.emitted);
}

proof fn lemma_emitted_prefix_trans(a: Tok, b: Tok, c: Tok)
    requires
        a.emitted.is_prefix_of(b.emitted),
        b.emitted.is_prefix_of(c.emitted),
    ensures
        a.emitted.is_prefix_of(c.emitted),
{
    let n = a.emitted.len() as int;
    assert forall|i: int| 0 <= i < n implies c.emitted.subrange(0, n)[i] == a.emitted[i] by {
        assert(b.emitted.subrange(0, n)[i] == a.emitted[i]);
        assert(c.emitted.subrange(0, b.emitted.len() as int)[i] == b.emitted[i]);
    }
    assert(c.emitted.subrange(0, n) =~= a.emitted);
}

/// The temporary buffer spells `script`.
pub open spec fn temp_is_script(t: Tok) -> bool {
    t.temp == seq!['s', 'c', 'r', 'i', 'p', 't']
}

/// A text state (data, RCDATA, RAWTEXT, script data, PLAINTEXT): `&` (where
/// character references count) goes to the character reference state,
/// `<` (where markup counts) to `lt_state`, NUL is an error, anything else
/// is emitted; the end emits the end-of-file token.
pub open spec fn text_step(t: Tok, amp: bool, lt: Option<TokenizerState>) -> Tok {
    let (c, t1) = consume(t);
    match c {
        Some(ch) => if amp && ch == '&' {
            Tok { return_state: Some(t.state), state: TokenizerState::CharacterReference, ..t1 }
        } else if lt is Some && ch == '<' {
            goto(t1, lt->0)
        } else if ch == '\0' {
            crash(t1)
        } else {
            emit_char(t1, ch)
        },
        None => emit(t1, TokenView::EOF),
    }
}

/// The end tag open states of RCDATA, RAWTEXT and script data: a letter
/// starts an end tag read again in `name_state`; else `</` is text again in
/// `text_state`.
pub open spec fn end_tag_open_step(t: Tok, name_state: TokenizerState, text_state: TokenizerState) -> Tok {
    let (c, t1) = consume(t);
    if c matches Some(ch) && is_alpha(ch) {
        reconsume_in(start_tag(t1, false), name_state)
    } else {
        reconsume_in(emit_char(emit_char(t1, '<'), '/'), text_state)
    }
}

/// The end tag name states of RCDATA, RAWTEXT and script data: an
/// appropriate end tag ends at white space, `/` or `>`; letters grow the name
/// and the buffer; anything else is the text `</`, the buffer, and the code
/// point again in `text_state`.
pub open spec fn end_tag_name_step(t: Tok, text_state: TokenizerState) -> Tok {
    let appr = appropriate(t);
    let (c, t1) = consume(t);
    let anything_else = reconsume_in(emit_chars(emit_char(emit_char(t1, '<'), '/'), t1.temp), text_state);
    match c {
        Some(ch) => if is_space(ch) && appr {
            goto(t1, TokenizerState::BeforeAttributeName)
        } else if ch == '/' && appr {
            goto(t1, TokenizerState::SelfClosingStartTag)
        } else if ch == '>' && appr {
            emit_tag(goto(t1, TokenizerState::Data))
        } else if is_upper_alpha(ch) {
            Tok { temp: push_to_tag(t1, lower(ch)).temp.push(ch), ..push_to_tag(t1, lower(ch)) }
        } else if is_lower_alpha(ch) {
            Tok { temp: t1.temp.push(ch), ..push_to_tag(t1, ch) }
        } else {
            anything_else
        },
        None => anything_else,
    }
}

/// The double-escape start and end states: white space, `/` or `>` decide
/// by the buffer, letters grow it (lowered) and are emitted, anything else is
/// read again in `other`.
pub open spec fn double_escape_step(t: Tok, if_script: TokenizerState, other: TokenizerState) -> Tok {
    let (c, t1) = consume(t);
    match c {
        Some(ch) => if is_space(ch) || ch == '/' || ch == '>' {
            emit_char(goto(t1, if temp_is_script(t1) { if_script } else { other }), ch)
        } else if is_upper_alpha(ch) {
            emit_char(Tok { temp: t1.temp.push(lower(ch)), ..t1 }, ch)
        } else if is_lower_alpha(ch) {
            emit_char(Tok { temp: t1.temp.push(ch), ..t1 }, ch)
        } else {
            reconsume_in(t1, other)
        },
        None => reconsume_in(t1, other),
    }
}

/// The escaped and double-escaped script data states, after a dash, after
/// two dashes, or neither: a dash moves on to `dash_state`, `<` to
/// `lt_state` (emitting it when `emit_lt`), `>` after two dashes ends the
/// escape, NUL is an error, anything else is emitted in `base`; the end is
/// an error.
pub open spec fn escaped_step(
    t: Tok,
    dash_state: Option<TokenizerState>,
    lt_state: TokenizerState,
    emit_lt: bool,
    gt_ends: bool,
    base: TokenizerState,
) -> Tok {
    let (c, t1) = consume(t);
    match c {
        Some(ch) => if ch == '-' {
            emit_char(
                match dash_state {
                    Some(d) => goto(t1, d),
                    None => t1,
                },
                '-',
            )
        } else if ch == '<' {
            if emit_lt {
                emit_char(goto(t1, lt_state), '<')
            } else {
                goto(t1, lt_state)
            }
        } else if ch == '>' && gt_ends {
            emit_char(goto(t1, TokenizerState::ScriptData), '>')
        } else if ch == '\0' {
            crash(t1)
        } else {
            emit_char(goto(t1, base), ch)
        },
        None => crash(t1),
    }
}

/// One step of the tokenizer in its state.
#[verifier::opaque]
pub open spec fn state_step(t: Tok) -> Tok {
    match t.state {
        TokenizerState::Data => text_step(t, true, Some(TokenizerState::TagOpen)),
        TokenizerState::RCDATA => text_step(t, true, Some(TokenizerState::RCDATALessThanSign)),
        TokenizerState::RAWTEXT => text_step(t, false, Some(TokenizerState::RAWTEXTLessThanSign)),
        TokenizerState::ScriptData => text_step(t, false, Some(TokenizerState::ScriptDataLessThanSign)),
        TokenizerState::PLAINTEXT => text_step(t, false, None),
        TokenizerState::TagOpen => {
            let (c, t1) = consume(t);
            match c {
                Some(ch) => if ch == '!' {
                    goto(t1, TokenizerState::MarkupDeclarationOpen)
                } else if ch == '/' {
                    goto(t1, TokenizerState::EndTagOpen)
                } else if is_alpha(ch) {
                    reconsume_in(start_tag(t1, true), TokenizerState::TagName)
                } else {
                    crash(t1)
                },
                None => crash(t1),
            }
        },
        TokenizerState::EndTagOpen => {
            let (c, t1) = consume(t);
            match c {
                Some(ch) => if is_alpha(ch) {
                    reconsume_in(start_tag(t1, false), TokenizerState::TagName)
                } else {
                    crash(t1)
                },
                None => crash(t1),
            }
        },
        TokenizerState::TagName => {
            let (c, t1) = consume(t);
            match c {
                Some(ch) => if is_space(ch) {
                    goto(t1, TokenizerState::BeforeAttributeName)
                } else if ch == '/' {
                    goto(t1, TokenizerState::SelfClosingStartTag)
                } else if ch == '>' {
                    emit_tag(goto(t1, TokenizerState::Data))
                } else if is_upper_alpha(ch) {
                    push_to_tag(t1, lower(ch))
                } else if ch == '\0' {
                    crash(t1)
                } else {
                    push_to_tag(t1, ch)
                },
                None => crash(t1),
            }
        },
        TokenizerState::RCDATALessThanSign => {
            let (c, t1) = consume(t);
            if c == Some('/') {
                Tok { temp: Seq::empty(), ..t1 }
            } else {
                reconsume_in(emit_char(t1, '<'), TokenizerState::RCDATA)
            }
        },
        TokenizerState::RCDATAEndTagOpen => end_tag_open_step(
            t,
            TokenizerState::RCDATAEndTagName,
            TokenizerState::RCDATA,
        ),
        TokenizerState::RCDATAEndTagName => end_tag_name_step(t, TokenizerState::RCDATA),
        TokenizerState::RAWTEXTLessThanSign => {
            let (c, t1) = consume(t);
            if c == Some('/') {
                Tok { temp: Seq::empty(), state: TokenizerState::RAWTEXTEndTagOpen, ..t1 }
            } else {
                reconsume_in(emit_char(t1, '<'), TokenizerState::RAWTEXT)
            }
        },
        TokenizerState::RAWTEXTEndTagOpen => end_tag_open_step(
            t,
            TokenizerState::RAWTEXTEndTagOpen,
            TokenizerState::RAWTEXT,
        ),
        TokenizerState::RAWTEXTEndTagName => end_tag_name_step(t, TokenizerState::RAWTEXT),
        TokenizerState::ScriptDataLessThanSign => {
            let (c, t1) = consume(t);
            if c == Some('/') {
                Tok { temp: Seq::empty(), state: TokenizerState::ScriptDataEndTagOpen, ..t1 }
            } else if c == Some('!') {
                emit_char(emit_char(goto(t1, TokenizerState::ScriptDataEscapeStart), '<'), '!')
            } else {
                reconsume_in(emit_char(t1, '<'), TokenizerState::ScriptData)
            }
        },
        TokenizerState::ScriptDataEndTagOpen => end_tag_open_step(
            t,
            TokenizerState::ScriptDataEndTagName,
            TokenizerState::ScriptData,
        ),
        TokenizerState::ScriptDataEndTagName => end_tag_name_step(t, TokenizerState::ScriptData),
        TokenizerState::ScriptDataEscapeStart => {
            let (c, t1) = consume(t);
            if c == Some('-') {
                emit_char(goto(t1, TokenizerState::ScriptDataEscapeStartDash), '-')
            } else {
                reconsume_in(t1, TokenizerState::ScriptData)
            }
        },
        TokenizerState::ScriptDataEscapeStartDash => {
            let (c, t1) = consume(t);
            if c == Some('-') {
                emit_char(goto(t1, TokenizerState::ScriptDataEscapedDashDash), '-')
            } else {
                reconsume_in(t1, TokenizerState::ScriptData)
            }
        },
        TokenizerState::ScriptDataEscaped => escaped_step(
            t,
            Some(TokenizerState::ScriptDataEscapedDash),
            TokenizerState::ScriptDataEscapedLessThanSign,
            false,
            false,
            TokenizerState::ScriptDataEscaped,
        ),
        TokenizerState::ScriptDataEscapedDash => escaped_step(
            t,
            Some(TokenizerState::ScriptDataEscapedDashDash),
            TokenizerState::ScriptDataEscapedLessThanSign,
            false,
            false,
            TokenizerState::ScriptDataEscaped,
        ),
        TokenizerState::ScriptDataEscapedDashDash => escaped_step(
            t,
            None,
            TokenizerState::ScriptDataEscapedLessThanSign,
            false,
            true,
            TokenizerState::ScriptData,
        ),
        TokenizerState::ScriptDataEscapedLessThanSign => {
            let (c, t1) = consume(t);
            match c {
                Some(ch) => if ch == '/' {
                    Tok { temp: Seq::empty(), state: TokenizerState::ScriptDataEscapedEndTagOpen, ..t1 }
                } else if is_alpha(ch) {
                    reconsume_in(
                        emit_char(Tok { temp: Seq::empty(), ..t1 }, '<'),
                        TokenizerState::ScriptDataDoubleEscapeStart,
                    )
                } else {
                    reconsume_in(emit_char(t1, '<'), TokenizerState::ScriptData)
                },
                None => reconsume_in(emit_char(t1, '<'), TokenizerState::ScriptData),
            }
        },
        TokenizerState::ScriptDataEscapedEndTagOpen => end_tag_open_step(
            t,
            TokenizerState::ScriptDataEscapedEndTagName,
            TokenizerState::ScriptDataEscaped,
        ),
        TokenizerState::ScriptDataEscapedEndTagName => end_tag_name_step(t, TokenizerState::ScriptDataEscaped),
        TokenizerState::ScriptDataDoubleEscapeStart => double_escape_step(
            t,
            TokenizerState::ScriptDataDoubleEscaped,
            TokenizerState::ScriptDataEscaped,
        ),
        TokenizerState::ScriptDataDoubleEscaped => escaped_step(
            t,
            Some(TokenizerState::ScriptDataDoubleEscapedDash),
            TokenizerState::ScriptDataEscapedLessThanSign,
            true,
            false,
            TokenizerState::ScriptDataDoubleEscaped,
        ),
        TokenizerState::ScriptDataDoubleEscapedDash => escaped_step(
            t,
            Some(TokenizerState::ScriptDataDoubleEscapedDashDash),
            TokenizerState::ScriptDataDoubleEscapedLessThanSign,
            true,
            false,
            TokenizerState::ScriptDataDoubleEscaped,
        ),
        TokenizerState::ScriptDataDoubleEscapedDashDash => escaped_step(
            t,
            None,
            TokenizerState::ScriptDataDoubleEscapedLessThanSign,
            true,
            true,
            TokenizerState::ScriptDataDoubleEscaped,
        ),
        TokenizerState::ScriptDataDoubleEscapedLessThanSign => {
            let (c, t1) = consume(t);
            if c == Some('/') {
                emit_char(Tok { temp: Seq::empty(), state: TokenizerState::ScriptDataDoubleEscapeEnd, ..t1 }, '/')
            } else {
                reconsume_in(t1, TokenizerState::ScriptDataDoubleEscaped)
            }
        },
        TokenizerState::ScriptDataDoubleEscapeEnd => double_escape_step(
            t,
            TokenizerState::ScriptDataEscaped,
            TokenizerState::ScriptDataDoubleEscaped,
        ),
        TokenizerState::BeforeAttributeName => {
            let (c, t1) = consume(t);
            match c {
                Some(ch) => if is_space(ch) {
                    t1
                } else if ch == '/' || ch == '>' {
                    reconsume_in(t1, TokenizerState::AfterAttributeName)
                } else if ch == '=' {
                    crash(t1)
                } else {
                    reconsume_in(new_tag_attr(t1, (Seq::empty(), Seq::empty())), TokenizerState::AttributeName)
                },
                None => reconsume_in(t1, TokenizerState::AfterAttributeName),
            }
        },
        TokenizerState::AttributeName => {
            let (c, t1) = consume(Tok { leave_check: true, ..t });
            match c {
                Some(ch) => if is_space(ch) || ch == '/' || ch == '>' {
                    reconsume_in(t1, TokenizerState::AfterAttributeName)
                } else if ch == '=' {
                    goto(t1, TokenizerState::BeforeAttributeValue)
                } else if is_upper_alpha(ch) {
                    push_to_attr_name(t1, lower(ch))
                } else if ch == '\0' || ch == '"' || ch == '\'' || ch == '<' {
                    crash(t1)
                } else {
                    push_to_attr_name(t1, ch)
                },
                None => reconsume_in(t1, TokenizerState::AfterAttributeName),
            }
        },
        TokenizerState::AfterAttributeName => {
            let (c, t1) = consume(t);
            match c {
                Some(ch) => if is_space(ch) {
                    t1
                } else if ch == '/' {
                    goto(t1, TokenizerState::SelfClosingStartTag)
                } else if ch == '=' {
                    goto(t1, TokenizerState::BeforeAttributeValue)
                } else if ch == '>' {
                    emit_tag(goto(t1, TokenizerState::Data))
                } else {
                    reconsume_in(new_tag_attr(t1, (Seq::empty(), Seq::empty())), TokenizerState::AttributeName)
                },
                None => crash(t1),
            }
        },
        TokenizerState::BeforeAttributeValue => {
            let (c, t1) = consume(t);
            match c {
                Some(ch) => if is_space(ch) {
                    t1
                } else if ch == '"' {
                    goto(t1, TokenizerState::AttributeValueDoubleQuoted)
                } else if ch == '\'' {
                    goto(t1, TokenizerState::AttributeValueSingleQuoted)
                } else if ch == '>' {
                    crash(t1)
                } else {
                    reconsume_in(t1, TokenizerState::AttributeValueUnquoted)
                },
                None => reconsume_in(t1, TokenizerState::AttributeValueUnquoted),
            }
        },
        TokenizerState::AttributeValueDoubleQuoted => quoted_value_step(t, '"'),
        TokenizerState::AttributeValueSingleQuoted => quoted_value_step(t, '\''),
        TokenizerState::AttributeValueUnquoted => {
            let (c, t1) = consume(t);
            match c {
                Some(ch) => if is_space(ch) {
                    goto(t1, TokenizerState::BeforeAttributeName)
                } else if ch == '&' {
                    Tok {
                        return_state: Some(TokenizerState::AttributeValueUnquoted),
                        state: TokenizerState::CharacterReference,
                        ..t1
                    }
                } else if ch == '>' {
                    emit_tag(goto(t1, TokenizerState::Data))
                } else if ch == '\0' || ch == '"' || ch == '\'' || ch == '<' || ch == '=' || ch == '`' {
                    crash(t1)
                } else {
                    push_to_attr_val(t1, ch)
                },
                None => crash(t1),
            }
        },
        TokenizerState::SelfClosingStartTag => {
            let (c, t1) = consume(t);
            if c == Some('>') {
                emit_tag(goto(set_self_closing(t1), TokenizerState::Data))
            } else {
                crash(t1)
            }
        },
        TokenizerState::BogusComment => {
            let (c, t1) = consume(t);
            match c {
                Some(ch) => if ch == '>' {
                    emit_comment(goto(t1, TokenizerState::Data))
                } else if ch == '\0' {
                    crash(t1)
                } else {
                    push_to_comment(t1, ch)
                },
                None => emit_comment(t1),
            }
        },
        TokenizerState::MarkupDeclarationOpen => crash(t),
        TokenizerState::CommentStart => {
            let (c, t1) = consume(t);
            if c == Some('-') {
                goto(t1, TokenizerState::CommentStartDash)
            } else if c == Some('>') {
                crash(t1)
            } else {
                reconsume_in(t1, TokenizerState::Comment)
            }
        },
        TokenizerState::CommentStartDash => {
            let (c, t1) = consume(t);
            match c {
                Some(ch) => if ch == '-' {
                    goto(t1, TokenizerState::CommentEnd)
                } else if ch == '>' {
                    crash(t1)
                } else {
                    reconsume_in(push_to_comment(t1, '-'), TokenizerState::Comment)
                },
                None => crash(t1),
            }
        },
        TokenizerState::Comment => {
            let (c, t1) = consume(t);
            match c {
                Some(ch) => if ch == '<' {
                    goto(push_to_comment(t1, ch), TokenizerState::CommentLessThanSign)
                } else if ch == '-' {
                    goto(t1, TokenizerState::CommentEndDash)
                } else if ch == '\0' {
                    crash(t1)
                } else {
                    push_to_comment(t1, ch)
                },
                None => crash(t1),
            }
        },
        TokenizerState::CommentLessThanSign => {
            let (c, t1) = consume(t);
            if c == Some('!') {
                goto(push_to_comment(t1, '!'), TokenizerState::CommentLessThanSignBang)
            } else if c == Some('<') {
                push_to_comment(t1, '<')
            } else {
                reconsume_in(t1, TokenizerState::Comment)
            }
        },
        TokenizerState::CommentLessThanSignBang => {
            let (c, t1) = consume(t);
            if c == Some('-') {
                goto(t1, TokenizerState::CommentLessThanSignBangDash)
            } else {
                reconsume_in(t1, TokenizerState::Comment)
            }
        },
        TokenizerState::CommentLessThanSignBangDash => {
            let (c, t1) = consume(t);
            if c == Some('-') {
                goto(t1, TokenizerState::CommentLessThanSignBangDashDash)
            } else {
                reconsume_in(t1, TokenizerState::CommentEndDash)
            }
        },
        TokenizerState::CommentLessThanSignBangDashDash => {
            let (c, t1) = consume(t);
            if c is None || c == Some('>') {
                reconsume_in(t1, TokenizerState::CommentEnd)
            } else {
                crash(t1)
            }
        },
        TokenizerState::CommentEndDash => {
            let (c, t1) = consume(t);
            match c {
                Some(ch) => if ch == '-' {
                    goto(t1, TokenizerState::CommentEnd)
                } else {
                    reconsume_in(push_to_comment(t1, ch), TokenizerState::Comment)
                },
                None => crash(t1),
            }
        },
        TokenizerState::CommentEnd => {
            let (c, t1) = consume(t);
            match c {
                Some(ch) => if ch == '>' {
                    emit_comment(goto(t1, TokenizerState::Data))
                } else if ch == '!' {
                    goto(t1, TokenizerState::CommentEndBang)
                } else if ch == '-' {
                    push_to_comment(t1, '-')
                } else {
                    reconsume_in(push_to_comment(push_to_comment(t1, '-'), '-'), TokenizerState::Comment)
                },
                None => crash(t1),
            }
        },
        TokenizerState::CommentEndBang => {
            let (c, t1) = consume(t);
            let bang = push_to_comment(push_to_comment(push_to_comment(t1, '-'), '-'), '!');
            match c {
                Some(ch) => if ch == '-' {
                    goto(bang, TokenizerState::CommentEndDash)
                } else if ch == '>' {
                    crash(t1)
                } else {
                    reconsume_in(bang, TokenizerState::Comment)
                },
                None => crash(t1),
            }
        },
        TokenizerState::DOCTYPE => {
            let (c, t1) = consume(t);
            match c {
                Some(ch) => if is_space(ch) {
                    goto(t1, TokenizerState::BeforeDOCTYPEName)
                } else if ch == '>' {
                    reconsume_in(t1, TokenizerState::BeforeDOCTYPEName)
                } else {
                    crash(t1)
                },
                None => crash(t1),
            }
        },
        TokenizerState::BeforeDOCTYPEName => {
            let (c, t1) = consume(t);
            match c {
                Some(ch) => if is_space(ch) {
                    t1
                } else if is_upper_alpha(ch) {
                    goto(new_doctype(t1, seq![lower(ch)], false), TokenizerState::DOCTYPEName)
                } else if ch == '\0' || ch == '>' {
                    crash(t1)
                } else {
                    goto(new_doctype(t1, seq![ch], false), TokenizerState::DOCTYPEName)
                },
                None => crash(t1),
            }
        },
        TokenizerState::DOCTYPEName => {
            let (c, t1) = consume(t);
            match c {
                Some(ch) => if is_space(ch) {
                    goto(t1, TokenizerState::AfterDOCTYPEName)
                } else if ch == '>' {
                    emit_doctype(goto(t1, TokenizerState::Data))
                } else if is_upper_alpha(ch) {
                    push_to_doctype_name(t1, lower(ch))
                } else if ch == '\0' {
                    crash(t1)
                } else {
                    push_to_doctype_name(t1, ch)
                },
                None => crash(t1),
            }
        },
        _ => t,
    }
}

/// The quoted attribute value states: the closing quote ends the value, `&`
/// goes to the character reference state, NUL and the end are errors,
/// anything else grows the value. (A NUL in the double-quoted state would
/// grow the name; the error panics first.)
pub open spec fn quoted_value_step(t: Tok, quote: char) -> Tok {
    let (c, t1) = consume(t);
    match c {
        Some(ch) => if ch == quote {
            goto(t1, TokenizerState::AfterAttributeValueQuoted)
        } else if ch == '&' {
            Tok { return_state: Some(t.state), state: TokenizerState::CharacterReference, ..t1 }
        } else if ch == '\0' {
            crash(t1)
        } else {
            push_to_attr_val(t1, ch)
        },
        None => crash(t1),
    }
}

/// One call of `tokenize`: leaving a state after the attribute name state
/// runs the duplicate-attribute check, which panics (the attribute being
/// checked is always among the names it is checked against); then the
/// state's step.
pub open spec fn tokenize_step(t: Tok) -> Tok {
    if t.prev_state != t.state && t.leave_check {
        crash(t)
    } else {
        state_step(Tok { prev_state: t.state, ..t })
    }
}

/// A step that did not panic kept the input and every token emitted
/// before it, adding new ones after them.
pub open spec fn appends(t: Tok, r: Tok) -> bool {
    !r.crashed ==> {
        &&& r.input == t.input
        &&& t.emitted.is_prefix_of(r.emitted)
    }
}

#[verifier::rlimit(60)]
proof fn lemma_state_step_appends(t: Tok)
    ensures
        appends(t, state_step(t)),
{
    reveal(state_step);
    let t1 = consume(t).1;
    let lt = emit_char(t1, '<');
    let lt_slash = emit_char(lt, '/');
    lemma_emit_chars_appends(lt_slash, t1.temp);
    lemma_emit_char_appends(t1, '<');
    lemma_emit_char_appends(lt, '/');
    lemma_emitted_prefix_trans(t1, lt, lt_slash);
    lemma_emitted_prefix_trans(t1, lt_slash, emit_chars(lt_slash, t1.temp));
    match t.state {
        TokenizerState::Data => assert(appends(t, state_step(t))),
        TokenizerState::RCDATA => assert(appends(t, state_step(t))),
        TokenizerState::RAWTEXT => assert(appends(t, state_step(t))),
        TokenizerState::ScriptData => assert(appends(t, state_step(t))),
        TokenizerState::PLAINTEXT => assert(appends(t, state_step(t))),
        TokenizerState::TagOpen => assert(appends(t, state_step(t))),
        TokenizerState::EndTagOpen => assert(appends(t, state_step(t))),
        TokenizerState::TagName => assert(appends(t, state_step(t))),
        TokenizerState::RCDATALessThanSign => assert(appends(t, state_step(t))),
        TokenizerState::RCDATAEndTagOpen => assert(appends(t, state_step(t))),
        TokenizerState::RCDATAEndTagName => assert(appends(t, state_step(t))),
        TokenizerState::RAWTEXTLessThanSign => assert(appends(t, state_step(t))),
        TokenizerState::RAWTEXTEndTagOpen => assert(appends(t, state_step(t))),
        TokenizerState::RAWTEXTEndTagName => assert(appends(t, state_step(t))),
        TokenizerState::ScriptDataLessThanSign => assert(appends(t, state_step(t))),
        TokenizerState::ScriptDataEndTagOpen => assert(appends(t, state_step(t))),
        TokenizerState::ScriptDataEndTagName => assert(appends(t, state_step(t))),
        TokenizerState::ScriptDataEscapeStart => assert(appends(t, state_step(t))),
        TokenizerState::ScriptDataEscapeStartDash => assert(appends(t, state_step(t))),
        TokenizerState::ScriptDataEscaped => assert(appends(t, state_step(t))),
        TokenizerState::ScriptDataEscapedDash => assert(appends(t, state_step(t))),
        TokenizerState::ScriptDataEscapedDashDash => assert(appends(t, state_step(t))),
        TokenizerState::ScriptDataEscapedLessThanSign => assert(appends(t, state_step(t))),
        TokenizerState::ScriptDataEscapedEndTagOpen => assert(appends(t, state_step(t))),
        TokenizerState::ScriptDataEscapedEndTagName => assert(appends(t, state_step(t))),
        TokenizerState::ScriptDataDoubleEscapeStart => assert(appends(t, state_step(t))),
        TokenizerState::ScriptDataDoubleEscaped => assert(appends(t, state_step(t))),
        TokenizerState::ScriptDataDoubleEscapedDash => assert(appends(t, state_step(t))),
        TokenizerState::ScriptDataDoubleEscapedDashDash => assert(appends(t, state_step(t))),
        TokenizerState::ScriptDataDoubleEscapedLessThanSign => assert(appends(t, state_step(t))),
        TokenizerState::ScriptDataDoubleEscapeEnd => assert(appends(t, state_step(t))),
        TokenizerState::BeforeAttributeName => assert(appends(t, state_step(t))),
        TokenizerState::AttributeName => assert(appends(t, state_step(t))),
        TokenizerState::AfterAttributeName => assert(appends(t, state_step(t))),
        TokenizerState::BeforeAttributeValue => assert(appends(t, state_step(t))),
        TokenizerState::AttributeValueDoubleQuoted => assert(appends(t, state_step(t))),
        TokenizerState::AttributeValueSingleQuoted => assert(appends(t, state_step(t))),
        TokenizerState::AttributeValueUnquoted => assert(appends(t, state_step(t))),
        TokenizerState::AfterAttributeValueQuoted => assert(appends(t, state_step(t))),
        TokenizerState::SelfClosingStartTag => assert(appends(t, state_step(t))),
        TokenizerState::BogusComment => assert(appends(t, state_step(t))),
        TokenizerState::MarkupDeclarationOpen => assert(appends(t, state_step(t))),
        TokenizerState::CommentStart => assert(appends(t, state_step(t))),
        TokenizerState::CommentStartDash => assert(appends(t, state_step(t))),
        TokenizerState::Comment => assert(appends(t, state_step(t))),
        TokenizerState::CommentLessThanSign => assert(appends(t, state_step(t))),
        TokenizerState::CommentLessThanSignBang => assert(appends(t, state_step(t))),
        TokenizerState::CommentLessThanSignBangDash => assert(appends(t, state_step(t))),
        TokenizerState::CommentLessThanSignBangDashDash => assert(appends(t, state_step(t))),
        TokenizerState::CommentEndDash => assert(appends(t, state_step(t))),
        TokenizerState::CommentEnd => assert(appends(t, state_step(t))),
        TokenizerState::CommentEndBang => assert(appends(t, state_step(t))),
        TokenizerState::DOCTYPE => assert(appends(t, state_step(t))),
        TokenizerState::BeforeDOCTYPEName => assert(appends(t, state_step(t))),
        TokenizerState::DOCTYPEName => assert(appends(t, state_step(t))),
        TokenizerState::AfterDOCTYPEName => assert(appends(t, state_step(t))),
        TokenizerState::CharacterReference => assert(appends(t, state_step(t))),
    }
}

/// The tokenizer only ever adds tokens: a step that does not panic keeps
/// its input and the tokens emitted before it, in order.
pub proof fn lemma_tokenize_appends(t: Tok)
    ensures
        appends(t, tokenize_step(t)),
{
    lemma_state_step_appends(Tok { prev_state: t.state, ..t });
}

/// The name and the attribute names of a tag hold no ASCII upper-case
/// letter.
pub open spec fn tag_names_lower(tv: TagView) -> bool {
    &&& no_ascii_upper(tv.name)
    &&& forall|k: int| 0 <= k < tv.attributes.len() ==> no_ascii_upper(#[trigger] tv.attributes[k].0)
}

/// A token is not a tag or DOCTYPE with an ASCII upper-case letter in a
/// name.
pub open spec fn token_names_lower(k: TokenView) -> bool {
    match k {
        TokenView::StartTag(tv) => tag_names_lower(tv),
        TokenView::EndTag(tv) => tag_names_lower(tv),
        TokenView::DOCTYPE(d) => no_ascii_upper(d.name),
        _ => true,
    }
}

/// No tag name, attribute name or DOCTYPE name, of the tokens being built
/// or of those emitted, holds an ASCII upper-case letter.
pub open spec fn names_lower(t: Tok) -> bool {
    &&& match t.tag {
        Some((_, tv)) => tag_names_lower(tv),
        None => true,
    }
    &&& match t.doctype {
        Some(d) => no_ascii_upper(d.name),
        None => true,
    }
    &&& forall|k: int| 0 <= k < t.emitted.len() ==> token_names_lower(#[trigger] t.emitted[k])
}

proof fn lemma_emit_names_lower(t: Tok, k: TokenView)
    requires
        names_lower(t),
        token_names_lower(k),
    ensures
        names_lower(emit(t, k)),
{
    let e = emit(t, k).emitted;
    assert forall|i: int| 0 <= i < e.len() implies token_names_lower(#[trigger] e[i]) by {
        if i < t.emitted.len() {
            assert(e[i] == t.emitted[i]);
        }
    }
}

proof fn lemma_emit_chars_names_lower(t: Tok, s: Seq<char>)
    requires
        names_lower(t),
    ensures
        names_lower(emit_chars(t, s)),
        emit_chars(t, s).tag == t.tag,
    decreases s.len(),
{
    if s.len() > 0 {
        lemma_emit_chars_names_lower(t, s.drop_last());
        lemma_emit_names_lower(emit_chars(t, s.drop_last()), TokenView::Character(s.last()));
    }
}

/// Emitting the tag being built, or a character, comment or DOCTYPE, and
/// pushing a code point that is not an ASCII upper-case letter onto a tag
/// name, an attribute name or a DOCTYPE name, keep names free of such
/// letters.
proof fn lemma_builders_names_lower(t: Tok, c: char)
    requires
        names_lower(t),
    ensures
        names_lower(emit_tag(t)),
        names_lower(emit_char(t, c)),
        names_lower(emit_comment(t)),
        names_lower(emit_doctype(t)),
        !is_upper_alpha(c) ==> names_lower(push_to_attr_name(t, c)),
        names_lower(push_to_attr_val(t, c)),
        names_lower(new_tag_attr(t, (Seq::empty(), Seq::empty()))),
        names_lower(start_tag(t, true)),
        names_lower(start_tag(t, false)),
        !is_upper_alpha(c) ==> names_lower(push_to_tag(t, c)),
        names_lower(set_self_closing(t)),
        !is_upper_alpha(c) ==> names_lower(new_doctype(t, seq![c], false)),
        !is_upper_alpha(c) ==> names_lower(push_to_doctype_name(t, c)),
{
    assert(no_ascii_upper(Seq::<char>::empty()));
    assert(seq![c] =~= Seq::<char>::empty().push(c));
    if !is_upper_alpha(c) {
        lemma_no_ascii_upper_push(Seq::<char>::empty(), c);
        match t.doctype {
            Some(d) => lemma_no_ascii_upper_push(d.name, c),
            None => {},
        }
        match t.tag {
            Some((s, tv)) => lemma_no_ascii_upper_push(tv.name, c),
            None => {},
        }
    }
    match t.tag {
        Some((s, tv)) => {
            lemma_emit_names_lower(t, TokenView::StartTag(tv));
            lemma_emit_names_lower(t, TokenView::EndTag(tv));
            if tv.attributes.len() > 0 {
                let a = tv.attributes;
                if !is_upper_alpha(c) {
                    lemma_no_ascii_upper_push(a.last().0, c);
                    let a2 = a.update(a.len() - 1, (a.last().0.push(c), a.last().1));
                    assert forall|k: int| 0 <= k < a2.len() implies no_ascii_upper(#[trigger] a2[k].0) by {
                        if k < a.len() - 1 {
                            assert(a2[k] == a[k]);
                        }
                    }
                }
                let a3 = a.update(a.len() - 1, (a.last().0, a.last().1.push(c)));
                assert forall|k: int| 0 <= k < a3.len() implies no_ascii_upper(#[trigger] a3[k].0) by {
                    if k < a.len() - 1 {
                        assert(a3[k] == a[k]);
                    }
                }
            }
            let a4 = tv.attributes.push((Seq::<char>::empty(), Seq::<char>::empty()));
            assert forall|k: int| 0 <= k < a4.len() implies no_ascii_upper(#[trigger] a4[k].0) by {
                if k < tv.attributes.len() {
                    assert(a4[k] == tv.attributes[k]);
                }
            }
        },
        None => {},
    }
    lemma_emit_names_lower(t, TokenView::Character(c));
    lemma_emit_names_lower(
        t,
        TokenView::Comment(
            match t.comment {
                Some(x) => x,
                None => Seq::empty(),
            },
        ),
    );
    match t.doctype {
        Some(d) => lemma_emit_names_lower(t, TokenView::DOCTYPE(d)),
        None => {},
    }
}

/// The building blocks of the steps, on the tokenizer after it reads a
/// code point, keep attribute names free of ASCII upper-case letters.
proof fn lemma_step_parts_names_lower(t: Tok)
    requires
        names_lower(t),
    ensures
        ({
            let t1 = consume(t).1;
            let ta = consume(Tok { leave_check: true, ..t }).1;
            let c = match consume(t).0 {
                Some(ch) => ch,
                None => ' ',
            };
            let lt = emit_char(t1, '<');
            let lt_slash = emit_char(lt, '/');
            &&& names_lower(t1)
            &&& names_lower(ta)
            &&& !is_upper_alpha(lower(c))
            &&& names_lower(emit_chars(lt_slash, t1.temp))
            &&& emit_chars(lt_slash, t1.temp).tag == t1.tag
        }),
{
    let t1 = consume(t).1;
    let ta = consume(Tok { leave_check: true, ..t }).1;
    let c = match consume(t).0 {
        Some(ch) => ch,
        None => ' ',
    };
    lemma_lower_not_upper(c);
    lemma_builders_names_lower(t1, '<');
    let lt = emit_char(t1, '<');
    lemma_builders_names_lower(lt, '/');
    lemma_emit_chars_names_lower(emit_char(lt, '/'), t1.temp);
}

proof fn lemma_names_lower_in_data(t: Tok)
    requires
        names_lower(t),
        t.state == TokenizerState::Data,
    ensures
        names_lower(state_step(t)),
{
    reveal(state_step);
    lemma_step_parts_names_lower(t);
    let t1 = consume(t).1;
    let ta = consume(Tok { leave_check: true, ..t }).1;
    let c = match consume(t).0 {
        Some(ch) => ch,
        None => ' ',
    };
    lemma_builders_names_lower(t1, c);
    lemma_builders_names_lower(t1, lower(c));
    lemma_builders_names_lower(ta, c);
    lemma_builders_names_lower(ta, lower(c));
}

proof fn lemma_names_lower_in_rcdata(t: Tok)
    requires
        names_lower(t),
        t.state == TokenizerState::RCDATA,
    ensures
        names_lower(state_step(t)),
{
    reveal(state_step);
    lemma_step_parts_names_lower(t);
    let t1 = consume(t).1;
    let ta = consume(Tok { leave_check: true, ..t }).1;
    let c = match consume(t).0 {
        Some(ch) => ch,
        None => ' ',
    };
    lemma_builders_names_lower(t1, c);
    lemma_builders_names_lower(t1, lower(c));
    lemma_builders_names_lower(ta, c);
    lemma_builders_names_lower(ta, lower(c));
}

proof fn lemma_names_lower_in_rawtext(t: Tok)
    requires
        names_lower(t),
        t.state == TokenizerState::RAWTEXT,
    ensures
        names_lower(state_step(t)),
{
    reveal(state_step);
    lemma_step_parts_names_lower(t);
    let t1 = consume(t).1;
    let ta = consume(Tok { leave_check: true, ..t }).1;
    let c = match consume(t).0 {
        Some(ch) => ch,
        None => ' ',
    };
    lemma_builders_names_lower(t1, c);
    lemma_builders_names_lower(t1, lower(c));
    lemma_builders_names_lower(ta, c);
    lemma_builders_names_lower(ta, lower(c));
}

proof fn lemma_names_lower_in_script_data(t: Tok)
    requires
        names_lower(t),
        t.state == TokenizerState::ScriptData,
    ensures
        names_lower(state_step(t)),
{
    reveal(state_step);
    lemma_step_parts_names_lower(t);
    let t1 = consume(t).1;
    let ta = consume(Tok { leave_check: true, ..t }).1;
    let c = match consume(t).0 {
        Some(ch) => ch,
        None => ' ',
    };
    lemma_builders_names_lower(t1, c);
    lemma_builders_names_lower(t1, lower(c));
    lemma_builders_names_lower(ta, c);
    lemma_builders_names_lower(ta, lower(c));
}

proof fn lemma_names_lower_in_plaintext(t: Tok)
    requires
        names_lower(t),
        t.state == TokenizerState::PLAINTEXT,
    ensures
        names_lower(state_step(t)),
{
    reveal(state_step);
    lemma_step_parts_names_lower(t);
    let t1 = consume(t).1;
    let ta = consume(Tok { leave_check: true, ..t }).1;
    let c = match consume(t).0 {
        Some(ch) => ch,
        None => ' ',
    };
    lemma_builders_names_lower(t1, c);
    lemma_builders_names_lower(t1, lower(c));
    lemma_builders_names_lower(ta, c);
    lemma_builders_names_lower(ta, lower(c));
}

proof fn lemma_names_lower_in_tag_open(t: Tok)
    requires
        names_lower(t),
        t.state == TokenizerState::TagOpen,
    ensures
        names_lower(state_step(t)),
{
    reveal(state_step);
    lemma_step_parts_names_lower(t);
    let t1 = consume(t).1;
    let ta = consume(Tok { leave_check: true, ..t }).1;
    let c = match consume(t).0 {
        Some(ch) => ch,
        None => ' ',
    };
    lemma_builders_names_lower(t1, c);
    lemma_builders_names_lower(t1, lower(c));
    lemma_builders_names_lower(ta, c);
    lemma_builders_names_lower(ta, lower(c));
}

proof fn lemma_names_lower_in_end_tag_open(t: Tok)
    requires
        names_lower(t),
        t.state == TokenizerState::EndTagOpen,
    ensures
        names_lower(state_step(t)),
{
    reveal(state_step);
    lemma_step_parts_names_lower(t);
    let t1 = consume(t).1;
    let ta = consume(Tok { leave_check: true, ..t }).1;
    let c = match consume(t).0 {
        Some(ch) => ch,
        None => ' ',
    };
    lemma_builders_names_lower(t1, c);
    lemma_builders_names_lower(t1, lower(c));
    lemma_builders_names_lower(ta, c);
    lemma_builders_names_lower(ta, lower(c));
}

proof fn lemma_names_lower_in_tag_name(t: Tok)
    requires
        names_lower(t),
        t.state == TokenizerState::TagName,
    ensures
        names_lower(state_step(t)),
{
    reveal(state_step);
    lemma_step_parts_names_lower(t);
    let t1 = consume(t).1;
    let ta = consume(Tok { leave_check: true, ..t }).1;
    let c = match consume(t).0 {
        Some(ch) => ch,
        None => ' ',
    };
    lemma_builders_names_lower(t1, c);
    lemma_builders_names_lower(t1, lower(c));
    lemma_builders_names_lower(ta, c);
    lemma_builders_names_lower(ta, lower(c));
}

proof fn lemma_names_lower_in_rcdata_less_than_sign(t: Tok)
    requires
        names_lower(t),
        t.state == TokenizerState::RCDATALessThanSign,
    ensures
        names_lower(state_step(t)),
{
    reveal(state_step);
    lemma_step_parts_names_lower(t);
    let t1 = consume(t).1;
    let ta = consume(Tok { leave_check: true, ..t }).1;
    let c = match consume(t).0 {
        Some(ch) => ch,
        None => ' ',
    };
    lemma_builders_names_lower(t1, c);
    lemma_builders_names_lower(t1, lower(c));
    lemma_builders_names_lower(ta, c);
    lemma_builders_names_lower(ta, lower(c));
}

proof fn lemma_names_lower_in_rcdata_end_tag_open(t: Tok)
    requires
        names_lower(t),
        t.state == TokenizerState::RCDATAEndTagOpen,
    ensures
        names_lower(state_step(t)),
{
    reveal(state_step);
    lemma_step_parts_names_lower(t);
    let t1 = consume(t).1;
    let ta = consume(Tok { leave_check: true, ..t }).1;
    let c = match consume(t).0 {
        Some(ch) => ch,
        None => ' ',
    };
    lemma_builders_names_lower(t1, c);
    lemma_builders_names_lower(t1, lower(c));
    lemma_builders_names_lower(ta, c);
    lemma_builders_names_lower(ta, lower(c));
}

proof fn lemma_names_lower_in_rcdata_end_tag_name(t: Tok)
    requires
        names_lower(t),
        t.state == TokenizerState::RCDATAEndTagName,
    ensures
        names_lower(state_step(t)),
{
    reveal(state_step);
    lemma_step_parts_names_lower(t);
    let t1 = consume(t).1;
    let ta = consume(Tok { leave_check: true, ..t }).1;
    let c = match consume(t).0 {
        Some(ch) => ch,
        None => ' ',
    };
    lemma_builders_names_lower(t1, c);
    lemma_builders_names_lower(t1, lower(c));
    lemma_builders_names_lower(ta, c);
    lemma_builders_names_lower(ta, lower(c));
}

proof fn lemma_names_lower_in_rawtext_less_than_sign(t: Tok)
    requires
        names_lower(t),
        t.state == TokenizerState::RAWTEXTLessThanSign,
    ensures
        names_lower(state_step(t)),
{
    reveal(state_step);
    lemma_step_parts_names_lower(t);
    let t1 = consume(t).1;
    let ta = consume(Tok { leave_check: true, ..t }).1;
    let c = match consume(t).0 {
        Some(ch) => ch,
        None => ' ',
    };
    lemma_builders_names_lower(t1, c);
    lemma_builders_names_lower(t1, lower(c));
    lemma_builders_names_lower(ta, c);
    lemma_builders_names_lower(ta, lower(c));
}

proof fn lemma_names_lower_in_rawtext_end_tag_open(t: Tok)
    requires
        names_lower(t),
        t.state == TokenizerState::RAWTEXTEndTagOpen,
    ensures
        names_lower(state_step(t)),
{
    reveal(state_step);
    lemma_step_parts_names_lower(t);
    let t1 = consume(t).1;
    let ta = consume(Tok { leave_check: true, ..t }).1;
    let c = match consume(t).0 {
        Some(ch) => ch,
        None => ' ',
    };
    lemma_builders_names_lower(t1, c);
    lemma_builders_names_lower(t1, lower(c));
    lemma_builders_names_lower(ta, c);
    lemma_builders_names_lower(ta, lower(c));
}

proof fn lemma_names_lower_in_rawtext_end_tag_name(t: Tok)
    requires
        names_lower(t),
        t.state == TokenizerState::RAWTEXTEndTagName,
    ensures
        names_lower(state_step(t)),
{
    reveal(state_step);
    lemma_step_parts_names_lower(t);
    let t1 = consume(t).1;
    let ta = consume(Tok { leave_check: true, ..t }).1;
    let c = match consume(t).0 {
        Some(ch) => ch,
        None => ' ',
    };
    lemma_builders_names_lower(t1, c);
    lemma_builders_names_lower(t1, lower(c));
    lemma_builders_names_lower(ta, c);
    lemma_builders_names_lower(ta, lower(c));
}

proof fn lemma_names_lower_in_script_data_less_than_sign(t: Tok)
    requires
        names_lower(t),
        t.state == TokenizerState::ScriptDataLessThanSign,
    ensures
        names_lower(state_step(t)),
{
    reveal(state_step);
    lemma_step_parts_names_lower(t);
    let t1 = consume(t).1;
    let ta = consume(Tok { leave_check: true, ..t }).1;
    let c = match consume(t).0 {
        Some(ch) => ch,
        None => ' ',
    };
    lemma_builders_names_lower(t1, c);
    lemma_builders_names_lower(t1, lower(c));
    lemma_builders_names_lower(ta, c);
    lemma_builders_names_lower(ta, lower(c));
}

proof fn lemma_names_lower_in_script_data_end_tag_open(t: Tok)
    requires
        names_lower(t),
        t.state == TokenizerState::ScriptDataEndTagOpen,
    ensures
        names_lower(state_step(t)),
{
    reveal(state_step);
    lemma_step_parts_names_lower(t);
    let t1 = consume(t).1;
    let ta = consume(Tok { leave_check: true, ..t }).1;
    let c = match consume(t).0 {
        Some(ch) => ch,
        None => ' ',
    };
    lemma_builders_names_lower(t1, c);
    lemma_builders_names_lower(t1, lower(c));
    lemma_builders_names_lower(ta, c);
    lemma_builders_names_lower(ta, lower(c));
}

proof fn lemma_names_lower_in_script_data_end_tag_name(t: Tok)
    requires
        names_lower(t),
        t.state == TokenizerState::ScriptDataEndTagName,
    ensures
        names_lower(state_step(t)),
{
    reveal(state_step);
    lemma_step_parts_names_lower(t);
    let t1 = consume(t).1;
    let ta = consume(Tok { leave_check: true, ..t }).1;
    let c = match consume(t).0 {
        Some(ch) => ch,
        None => ' ',
    };
    lemma_builders_names_lower(t1, c);
    lemma_builders_names_lower(t1, lower(c));
    lemma_builders_names_lower(ta, c);
    lemma_builders_names_lower(ta, lower(c));
}

proof fn lemma_names_lower_in_script_data_escape_start(t: Tok)
    requires
        names_lower(t),
        t.state == TokenizerState::ScriptDataEscapeStart,
    ensures
        names_lower(state_step(t)),
{
    reveal(state_step);
    lemma_step_parts_names_lower(t);
    let t1 = consume(t).1;
    let ta = consume(Tok { leave_check: true, ..t }).1;
    let c = match consume(t).0 {
        Some(ch) => ch,
        None => ' ',
    };
    lemma_builders_names_lower(t1, c);
    lemma_builders_names_lower(t1, lower(c));
    lemma_builders_names_lower(ta, c);
    lemma_builders_names_lower(ta, lower(c));
}

proof fn lemma_names_lower_in_script_data_escape_start_dash(t: Tok)
    requires
        names_lower(t),
        t.state == TokenizerState::ScriptDataEscapeStartDash,
    ensures
        names_lower(state_step(t)),
{
    reveal(state_step);
    lemma_step_parts_names_lower(t);
    let t1 = consume(t).1;
    let ta = consume(Tok { leave_check: true, ..t }).1;
    let c = match consume(t).0 {
        Some(ch) => ch,
        None => ' ',
    };
    lemma_builders_names_lower(t1, c);
    lemma_builders_names_lower(t1, lower(c));
    lemma_builders_names_lower(ta, c);
    lemma_builders_names_lower(ta, lower(c));
}

proof fn lemma_names_lower_in_script_data_escaped(t: Tok)
    requires
        names_lower(t),
        t.state == TokenizerState::ScriptDataEscaped,
    ensures
        names_lower(state_step(t)),
{
    reveal(state_step);
    lemma_step_parts_names_lower(t);
    let t1 = consume(t).1;
    let ta = consume(Tok { leave_check: true, ..t }).1;
    let c = match consume(t).0 {
        Some(ch) => ch,
        None => ' ',
    };
    lemma_builders_names_lower(t1, c);
    lemma_builders_names_lower(t1, lower(c));
    lemma_builders_names_lower(ta, c);
    lemma_builders_names_lower(ta, lower(c));
}

proof fn lemma_names_lower_in_script_data_escaped_dash(t: Tok)
    requires
        names_lower(t),
        t.state == TokenizerState::ScriptDataEscapedDash,
    ensures
        names_lower(state_step(t)),
{
    reveal(state_step);
    lemma_step_parts_names_lower(t);
    let t1 = consume(t).1;
    let ta = consume(Tok { leave_check: true, ..t }).1;
    let c = match consume(t).0 {
        Some(ch) => ch,
        None => ' ',
    };
    lemma_builders_names_lower(t1, c);
    lemma_builders_names_lower(t1, lower(c));
    lemma_builders_names_lower(ta, c);
    lemma_builders_names_lower(ta, lower(c));
}

proof fn lemma_names_lower_in_script_data_escaped_dash_dash(t: Tok)
    requires
        names_lower(t),
        t.state == TokenizerState::ScriptDataEscapedDashDash,
    ensures
        names_lower(state_step(t)),
{
    reveal(state_step);
    lemma_step_parts_names_lower(t);
    let t1 = consume(t).1;
    let ta = consume(Tok { leave_check: true, ..t }).1;
    let c = match consume(t).0 {
        Some(ch) => ch,
        None => ' ',
    };
    lemma_builders_names_lower(t1, c);
    lemma_builders_names_lower(t1, lower(c));
    lemma_builders_names_lower(ta, c);
    lemma_builders_names_lower(ta, lower(c));
}

proof fn lemma_names_lower_in_script_data_escaped_less_than_sign(t: Tok)
    requires
        names_lower(t),
        t.state == TokenizerState::ScriptDataEscapedLessThanSign,
    ensures
        names_lower(state_step(t)),
{
    reveal(state_step);
    lemma_step_parts_names_lower(t);
    let t1 = consume(t).1;
    let ta = consume(Tok { leave_check: true, ..t }).1;
    let c = match consume(t).0 {
        Some(ch) => ch,
        None => ' ',
    };
    lemma_builders_names_lower(t1, c);
    lemma_builders_names_lower(t1, lower(c));
    lemma_builders_names_lower(ta, c);
    lemma_builders_names_lower(ta, lower(c));
}

proof fn lemma_names_lower_in_script_data_escaped_end_tag_open(t: Tok)
    requires
        names_lower(t),
        t.state == TokenizerState::ScriptDataEscapedEndTagOpen,
    ensures
        names_lower(state_step(t)),
{
    reveal(state_step);
    lemma_step_parts_names_lower(t);
    let t1 = consume(t).1;
    let ta = consume(Tok { leave_check: true, ..t }).1;
    let c = match consume(t).0 {
        Some(ch) => ch,
        None => ' ',
    };
    lemma_builders_names_lower(t1, c);
    lemma_builders_names_lower(t1, lower(c));
    lemma_builders_names_lower(ta, c);
    lemma_builders_names_lower(ta, lower(c));
}

proof fn lemma_names_lower_in_script_data_escaped_end_tag_name(t: Tok)
    requires
        names_lower(t),
        t.state == TokenizerState::ScriptDataEscapedEndTagName,
    ensures
        names_lower(state_step(t)),
{
    reveal(state_step);
    lemma_step_parts_names_lower(t);
    let t1 = consume(t).1;
    let ta = consume(Tok { leave_check: true, ..t }).1;
    let c = match consume(t).0 {
        Some(ch) => ch,
        None => ' ',
    };
    lemma_builders_names_lower(t1, c);
    lemma_builders_names_lower(t1, lower(c));
    lemma_builders_names_lower(ta, c);
    lemma_builders_names_lower(ta, lower(c));
}

proof fn lemma_names_lower_in_script_data_double_escape_start(t: Tok)
    requires
        names_lower(t),
        t.state == TokenizerState::ScriptDataDoubleEscapeStart,
    ensures
        names_lower(state_step(t)),
{
    reveal(state_step);
    lemma_step_parts_names_lower(t);
    let t1 = consume(t).1;
    let ta = consume(Tok { leave_check: true, ..t }).1;
    let c = match consume(t).0 {
        Some(ch) => ch,
        None => ' ',
    };
    lemma_builders_names_lower(t1, c);
    lemma_builders_names_lower(t1, lower(c));
    lemma_builders_names_lower(ta, c);
    lemma_builders_names_lower(ta, lower(c));
}

proof fn lemma_names_lower_in_script_data_double_escaped(t: Tok)
    requires
        names_lower(t),
        t.state == TokenizerState::ScriptDataDoubleEscaped,
    ensures
        names_lower(state_step(t)),
{
    reveal(state_step);
    lemma_step_parts_names_lower(t);
    let t1 = consume(t).1;
    let ta = consume(Tok { leave_check: true, ..t }).1;
    let c = match consume(t).0 {
        Some(ch) => ch,
        None => ' ',
    };
    lemma_builders_names_lower(t1, c);
    lemma_builders_names_lower(t1, lower(c));
    lemma_builders_names_lower(ta, c);
    lemma_builders_names_lower(ta, lower(c));
}

proof fn lemma_names_lower_in_script_data_double_escaped_dash(t: Tok)
    requires
        names_lower(t),
        t.state == TokenizerState::ScriptDataDoubleEscapedDash,
    ensures
        names_lower(state_step(t)),
{
    reveal(state_step);
    lemma_step_parts_names_lower(t);
    let t1 = consume(t).1;
    let ta = consume(Tok { leave_check: true, ..t }).1;
    let c = match consume(t).0 {
        Some(ch) => ch,
        None => ' ',
    };
    lemma_builders_names_lower(t1, c);
    lemma_builders_names_lower(t1, lower(c));
    lemma_builders_names_lower(ta, c);
    lemma_builders_names_lower(ta, lower(c));
}

proof fn lemma_names_lower_in_script_data_double_escaped_dash_dash(t: Tok)
    requires
        names_lower(t),
        t.state == TokenizerState::ScriptDataDoubleEscapedDashDash,
    ensures
        names_lower(state_step(t)),
{
    reveal(state_step);
    lemma_step_parts_names_lower(t);
    let t1 = consume(t).1;
    let ta = consume(Tok { leave_check: true, ..t }).1;
    let c = match consume(t).0 {
        Some(ch) => ch,
        None => ' ',
    };
    lemma_builders_names_lower(t1, c);
    lemma_builders_names_lower(t1, lower(c));
    lemma_builders_names_lower(ta, c);
    lemma_builders_names_lower(ta, lower(c));
}

proof fn lemma_names_lower_in_script_data_double_escaped_less_than_sign(t: Tok)
    requires
        names_lower(t),
        t.state == TokenizerState::ScriptDataDoubleEscapedLessThanSign,
    ensures
        names_lower(state_step(t)),
{
    reveal(state_step);
    lemma_step_parts_names_lower(t);
    let t1 = consume(t).1;
    let ta = consume(Tok { leave_check: true, ..t }).1;
    let c = match consume(t).0 {
        Some(ch) => ch,
        None => ' ',
    };
    lemma_builders_names_lower(t1, c);
    lemma_builders_names_lower(t1, lower(c));
    lemma_builders_names_lower(ta, c);
    lemma_builders_names_lower(ta, lower(c));
}

proof fn lemma_names_lower_in_script_data_double_escape_end(t: Tok)
    requires
        names_lower(t),
        t.state == TokenizerState::ScriptDataDoubleEscapeEnd,
    ensures
        names_lower(state_step(t)),
{
    reveal(state_step);
    lemma_step_parts_names_lower(t);
    let t1 = consume(t).1;
    let ta = consume(Tok { leave_check: true, ..t }).1;
    let c = match consume(t).0 {
        Some(ch) => ch,
        None => ' ',
    };
    lemma_builders_names_lower(t1, c);
    lemma_builders_names_lower(t1, lower(c));
    lemma_builders_names_lower(ta, c);
    lemma_builders_names_lower(ta, lower(c));
}

proof fn lemma_names_lower_in_before_attribute_name(t: Tok)
    requires
        names_lower(t),
        t.state == TokenizerState::BeforeAttributeName,
    ensures
        names_lower(state_step(t)),
{
    reveal(state_step);
    lemma_step_parts_names_lower(t);
    let t1 = consume(t).1;
    let ta = consume(Tok { leave_check: true, ..t }).1;
    let c = match consume(t).0 {
        Some(ch) => ch,
        None => ' ',
    };
    lemma_builders_names_lower(t1, c);
    lemma_builders_names_lower(t1, lower(c));
    lemma_builders_names_lower(ta, c);
    lemma_builders_names_lower(ta, lower(c));
}

proof fn lemma_names_lower_in_attribute_name(t: Tok)
    requires
        names_lower(t),
        t.state == TokenizerState::AttributeName,
    ensures
        names_lower(state_step(t)),
{
    reveal(state_step);
    lemma_step_parts_names_lower(t);
    let t1 = consume(t).1;
    let ta = consume(Tok { leave_check: true, ..t }).1;
    let c = match consume(t).0 {
        Some(ch) => ch,
        None => ' ',
    };
    lemma_builders_names_lower(t1, c);
    lemma_builders_names_lower(t1, lower(c));
    lemma_builders_names_lower(ta, c);
    lemma_builders_names_lower(ta, lower(c));
}

proof fn lemma_names_lower_in_after_attribute_name(t: Tok)
    requires
        names_lower(t),
        t.state == TokenizerState::AfterAttributeName,
    ensures
        names_lower(state_step(t)),
{
    reveal(state_step);
    lemma_step_parts_names_lower(t);
    let t1 = consume(t).1;
    let ta = consume(Tok { leave_check: true, ..t }).1;
    let c = match consume(t).0 {
        Some(ch) => ch,
        None => ' ',
    };
    lemma_builders_names_lower(t1, c);
    lemma_builders_names_lower(t1, lower(c));
    lemma_builders_names_lower(ta, c);
    lemma_builders_names_lower(ta, lower(c));
}

proof fn lemma_names_lower_in_before_attribute_value(t: Tok)
    requires
        names_lower(t),
        t.state == TokenizerState::BeforeAttributeValue,
    ensures
        names_lower(state_step(t)),
{
    reveal(state_step);
    lemma_step_parts_names_lower(t);
    let t1 = consume(t).1;
    let ta = consume(Tok { leave_check: true, ..t }).1;
    let c = match consume(t).0 {
        Some(ch) => ch,
        None => ' ',
    };
    lemma_builders_names_lower(t1, c);
    lemma_builders_names_lower(t1, lower(c));
    lemma_builders_names_lower(ta, c);
    lemma_builders_names_lower(ta, lower(c));
}

proof fn lemma_names_lower_in_attribute_value_double_quoted(t: Tok)
    requires
        names_lower(t),
        t.state == TokenizerState::AttributeValueDoubleQuoted,
    ensures
        names_lower(state_step(t)),
{
    reveal(state_step);
    lemma_step_parts_names_lower(t);
    let t1 = consume(t).1;
    let ta = consume(Tok { leave_check: true, ..t }).1;
    let c = match consume(t).0 {
        Some(ch) => ch,
        None => ' ',
    };
    lemma_builders_names_lower(t1, c);
    lemma_builders_names_lower(t1, lower(c));
    lemma_builders_names_lower(ta, c);
    lemma_builders_names_lower(ta, lower(c));
}

proof fn lemma_names_lower_in_attribute_value_single_quoted(t: Tok)
    requires
        names_lower(t),
        t.state == TokenizerState::AttributeValueSingleQuoted,
    ensures
        names_lower(state_step(t)),
{
    reveal(state_step);
    lemma_step_parts_names_lower(t);
    let t1 = consume(t).1;
    let ta = consume(Tok { leave_check: true, ..t }).1;
    let c = match consume(t).0 {
        Some(ch) => ch,
        None => ' ',
    };
    lemma_builders_names_lower(t1, c);
    lemma_builders_names_lower(t1, lower(c));
    lemma_builders_names_lower(ta, c);
    lemma_builders_names_lower(ta, lower(c));
}

proof fn lemma_names_lower_in_attribute_value_unquoted(t: Tok)
    requires
        names_lower(t),
        t.state == TokenizerState::AttributeValueUnquoted,
    ensures
        names_lower(state_step(t)),
{
    reveal(state_step);
    lemma_step_parts_names_lower(t);
    let t1 = consume(t).1;
    let ta = consume(Tok { leave_check: true, ..t }).1;
    let c = match consume(t).0 {
        Some(ch) => ch,
        None => ' ',
    };
    lemma_builders_names_lower(t1, c);
    lemma_builders_names_lower(t1, lower(c));
    lemma_builders_names_lower(ta, c);
    lemma_builders_names_lower(ta, lower(c));
}

proof fn lemma_names_lower_in_after_attribute_value_quoted(t: Tok)
    requires
        names_lower(t),
        t.state == TokenizerState::AfterAttributeValueQuoted,
    ensures
        names_lower(state_step(t)),
{
    reveal(state_step);
    lemma_step_parts_names_lower(t);
    let t1 = consume(t).1;
    let ta = consume(Tok { leave_check: true, ..t }).1;
    let c = match consume(t).0 {
        Some(ch) => ch,
        None => ' ',
    };
    lemma_builders_names_lower(t1, c);
    lemma_builders_names_lower(t1, lower(c));
    lemma_builders_names_lower(ta, c);
    lemma_builders_names_lower(ta, lower(c));
}

proof fn lemma_names_lower_in_self_closing_start_tag(t: Tok)
    requires
        names_lower(t),
        t.state == TokenizerState::SelfClosingStartTag,
    ensures
        names_lower(state_step(t)),
{
    reveal(state_step);
    lemma_step_parts_names_lower(t);
    let t1 = consume(t).1;
    let ta = consume(Tok { leave_check: true, ..t }).1;
    let c = match consume(t).0 {
        Some(ch) => ch,
        None => ' ',
    };
    lemma_builders_names_lower(t1, c);
    lemma_builders_names_lower(t1, lower(c));
    lemma_builders_names_lower(ta, c);
    lemma_builders_names_lower(ta, lower(c));
}

proof fn lemma_names_lower_in_bogus_comment(t: Tok)
    requires
        names_lower(t),
        t.state == TokenizerState::BogusComment,
    ensures
        names_lower(state_step(t)),
{
    reveal(state_step);
    lemma_step_parts_names_lower(t);
    let t1 = consume(t).1;
    let ta = consume(Tok { leave_check: true, ..t }).1;
    let c = match consume(t).0 {
        Some(ch) => ch,
        None => ' ',
    };
    lemma_builders_names_lower(t1, c);
    lemma_builders_names_lower(t1, lower(c));
    lemma_builders_names_lower(ta, c);
    lemma_builders_names_lower(ta, lower(c));
}

proof fn lemma_names_lower_in_markup_declaration_open(t: Tok)
    requires
        names_lower(t),
        t.state == TokenizerState::MarkupDeclarationOpen,
    ensures
        names_lower(state_step(t)),
{
    reveal(state_step);
    lemma_step_parts_names_lower(t);
    let t1 = consume(t).1;
    let ta = consume(Tok { leave_check: true, ..t }).1;
    let c = match consume(t).0 {
        Some(ch) => ch,
        None => ' ',
    };
    lemma_builders_names_lower(t1, c);
    lemma_builders_names_lower(t1, lower(c));
    lemma_builders_names_lower(ta, c);
    lemma_builders_names_lower(ta, lower(c));
}

proof fn lemma_names_lower_in_comment_start(t: Tok)
    requires
        names_lower(t),
        t.state == TokenizerState::CommentStart,
    ensures
        names_lower(state_step(t)),
{
    reveal(state_step);
    lemma_step_parts_names_lower(t);
    let t1 = consume(t).1;
    let ta = consume(Tok { leave_check: true, ..t }).1;
    let c = match consume(t).0 {
        Some(ch) => ch,
        None => ' ',
    };
    lemma_builders_names_lower(t1, c);
    lemma_builders_names_lower(t1, lower(c));
    lemma_builders_names_lower(ta, c);
    lemma_builders_names_lower(ta, lower(c));
}

proof fn lemma_names_lower_in_comment_start_dash(t: Tok)
    requires
        names_lower(t),
        t.state == TokenizerState::CommentStartDash,
    ensures
        names_lower(state_step(t)),
{
    reveal(state_step);
    lemma_step_parts_names_lower(t);
    let t1 = consume(t).1;
    let ta = consume(Tok { leave_check: true, ..t }).1;
    let c = match consume(t).0 {
        Some(ch) => ch,
        None => ' ',
    };
    lemma_builders_names_lower(t1, c);
    lemma_builders_names_lower(t1, lower(c));
    lemma_builders_names_lower(ta, c);
    lemma_builders_names_lower(ta, lower(c));
}

proof fn lemma_names_lower_in_comment(t: Tok)
    requires
        names_lower(t),
        t.state == TokenizerState::Comment,
    ensures
        names_lower(state_step(t)),
{
    reveal(state_step);
    lemma_step_parts_names_lower(t);
    let t1 = consume(t).1;
    let ta = consume(Tok { leave_check: true, ..t }).1;
    let c = match consume(t).0 {
        Some(ch) => ch,
        None => ' ',
    };
    lemma_builders_names_lower(t1, c);
    lemma_builders_names_lower(t1, lower(c));
    lemma_builders_names_lower(ta, c);
    lemma_builders_names_lower(ta, lower(c));
}

proof fn lemma_names_lower_in_comment_less_than_sign(t: Tok)
    requires
        names_lower(t),
        t.state == TokenizerState::CommentLessThanSign,
    ensures
        names_lower(state_step(t)),
{
    reveal(state_step);
    lemma_step_parts_names_lower(t);
    let t1 = consume(t).1;
    let ta = consume(Tok { leave_check: true, ..t }).1;
    let c = match consume(t).0 {
        Some(ch) => ch,
        None => ' ',
    };
    lemma_builders_names_lower(t1, c);
    lemma_builders_names_lower(t1, lower(c));
    lemma_builders_names_lower(ta, c);
    lemma_builders_names_lower(ta, lower(c));
}

proof fn lemma_names_lower_in_comment_less_than_sign_bang(t: Tok)
    requires
        names_lower(t),
        t.state == TokenizerState::CommentLessThanSignBang,
    ensures
        names_lower(state_step(t)),
{
    reveal(state_step);
    lemma_step_parts_names_lower(t);
    let t1 = consume(t).1;
    let ta = consume(Tok { leave_check: true, ..t }).1;
    let c = match consume(t).0 {
        Some(ch) => ch,
        None => ' ',
    };
    lemma_builders_names_lower(t1, c);
    lemma_builders_names_lower(t1, lower(c));
    lemma_builders_names_lower(ta, c);
    lemma_builders_names_lower(ta, lower(c));
}

proof fn lemma_names_lower_in_comment_less_than_sign_bang_dash(t: Tok)
    requires
        names_lower(t),
        t.state == TokenizerState::CommentLessThanSignBangDash,
    ensures
        names_lower(state_step(t)),
{
    reveal(state_step);
    lemma_step_parts_names_lower(t);
    let t1 = consume(t).1;
    let ta = consume(Tok { leave_check: true, ..t }).1;
    let c = match consume(t).0 {
        Some(ch) => ch,
        None => ' ',
    };
    lemma_builders_names_lower(t1, c);
    lemma_builders_names_lower(t1, lower(c));
    lemma_builders_names_lower(ta, c);
    lemma_builders_names_lower(ta, lower(c));
}

proof fn lemma_names_lower_in_comment_less_than_sign_bang_dash_dash(t: Tok)
    requires
        names_lower(t),
        t.state == TokenizerState::CommentLessThanSignBangDashDash,
    ensures
        names_lower(state_step(t)),
{
    reveal(state_step);
    lemma_step_parts_names_lower(t);
    let t1 = consume(t).1;
    let ta = consume(Tok { leave_check: true, ..t }).1;
    let c = match consume(t).0 {
        Some(ch) => ch,
        None => ' ',
    };
    lemma_builders_names_lower(t1, c);
    lemma_builders_names_lower(t1, lower(c));
    lemma_builders_names_lower(ta, c);
    lemma_builders_names_lower(ta, lower(c));
}

proof fn lemma_names_lower_in_comment_end_dash(t: Tok)
    requires
        names_lower(t),
        t.state == TokenizerState::CommentEndDash,
    ensures
        names_lower(state_step(t)),
{
    reveal(state_step);
    lemma_step_parts_names_lower(t);
    let t1 = consume(t).1;
    let ta = consume(Tok { leave_check: true, ..t }).1;
    let c = match consume(t).0 {
        Some(ch) => ch,
        None => ' ',
    };
    lemma_builders_names_lower(t1, c);
    lemma_builders_names_lower(t1, lower(c));
    lemma_builders_names_lower(ta, c);
    lemma_builders_names_lower(ta, lower(c));
}

proof fn lemma_names_lower_in_comment_end(t: Tok)
    requires
        names_lower(t),
        t.state == TokenizerState::CommentEnd,
    ensures
        names_lower(state_step(t)),
{
    reveal(state_step);
    lemma_step_parts_names_lower(t);
    let t1 = consume(t).1;
    let ta = consume(Tok { leave_check: true, ..t }).1;
    let c = match consume(t).0 {
        Some(ch) => ch,
        None => ' ',
    };
    lemma_builders_names_lower(t1, c);
    lemma_builders_names_lower(t1, lower(c));
    lemma_builders_names_lower(ta, c);
    lemma_builders_names_lower(ta, lower(c));
}

proof fn lemma_names_lower_in_comment_end_bang(t: Tok)
    requires
        names_lower(t),
        t.state == TokenizerState::CommentEndBang,
    ensures
        names_lower(state_step(t)),
{
    reveal(state_step);
    lemma_step_parts_names_lower(t);
    let t1 = consume(t).1;
    let ta = consume(Tok { leave_check: true, ..t }).1;
    let c = match consume(t).0 {
        Some(ch) => ch,
        None => ' ',
    };
    lemma_builders_names_lower(t1, c);
    lemma_builders_names_lower(t1, lower(c));
    lemma_builders_names_lower(ta, c);
    lemma_builders_names_lower(ta, lower(c));
}

proof fn lemma_names_lower_in_doctype(t: Tok)
    requires
        names_lower(t),
        t.state == TokenizerState::DOCTYPE,
    ensures
        names_lower(state_step(t)),
{
    reveal(state_step);
    lemma_step_parts_names_lower(t);
    let t1 = consume(t).1;
    let ta = consume(Tok { leave_check: true, ..t }).1;
    let c = match consume(t).0 {
        Some(ch) => ch,
        None => ' ',
    };
    lemma_builders_names_lower(t1, c);
    lemma_builders_names_lower(t1, lower(c));
    lemma_builders_names_lower(ta, c);
    lemma_builders_names_lower(ta, lower(c));
}

proof fn lemma_names_lower_in_before_doctype_name(t: Tok)
    requires
        names_lower(t),
        t.state == TokenizerState::BeforeDOCTYPEName,
    ensures
        names_lower(state_step(t)),
{
    reveal(state_step);
    lemma_step_parts_names_lower(t);
    let t1 = consume(t).1;
    let ta = consume(Tok { leave_check: true, ..t }).1;
    let c = match consume(t).0 {
        Some(ch) => ch,
        None => ' ',
    };
    lemma_builders_names_lower(t1, c);
    lemma_builders_names_lower(t1, lower(c));
    lemma_builders_names_lower(ta, c);
    lemma_builders_names_lower(ta, lower(c));
}

proof fn lemma_names_lower_in_doctype_name(t: Tok)
    requires
        names_lower(t),
        t.state == TokenizerState::DOCTYPEName,
    ensures
        names_lower(state_step(t)),
{
    reveal(state_step);
    lemma_step_parts_names_lower(t);
    let t1 = consume(t).1;
    let ta = consume(Tok { leave_check: true, ..t }).1;
    let c = match consume(t).0 {
        Some(ch) => ch,
        None => ' ',
    };
    lemma_builders_names_lower(t1, c);
    lemma_builders_names_lower(t1, lower(c));
    lemma_builders_names_lower(ta, c);
    lemma_builders_names_lower(ta, lower(c));
}

proof fn lemma_names_lower_in_after_doctype_name(t: Tok)
    requires
        names_lower(t),
        t.state == TokenizerState::AfterDOCTYPEName,
    ensures
        names_lower(state_step(t)),
{
    reveal(state_step);
    lemma_step_parts_names_lower(t);
    let t1 = consume(t).1;
    let ta = consume(Tok { leave_check: true, ..t }).1;
    let c = match consume(t).0 {
        Some(ch) => ch,
        None => ' ',
    };
    lemma_builders_names_lower(t1, c);
    lemma_builders_names_lower(t1, lower(c));
    lemma_builders_names_lower(ta, c);
    lemma_builders_names_lower(ta, lower(c));
}

proof fn lemma_names_lower_in_character_reference(t: Tok)
    requires
        names_lower(t),
        t.state == TokenizerState::CharacterReference,
    ensures
        names_lower(state_step(t)),
{
    reveal(state_step);
    lemma_step_parts_names_lower(t);
    let t1 = consume(t).1;
    let ta = consume(Tok { leave_check: true, ..t }).1;
    let c = match consume(t).0 {
        Some(ch) => ch,
        None => ' ',
    };
    lemma_builders_names_lower(t1, c);
    lemma_builders_names_lower(t1, lower(c));
    lemma_builders_names_lower(ta, c);
    lemma_builders_names_lower(ta, lower(c));
}

proof fn lemma_state_step_names_lower(t: Tok)
    requires
        names_lower(t),
    ensures
        names_lower(state_step(t)),
{
    match t.state {
        TokenizerState::Data => lemma_names_lower_in_data(t),
        TokenizerState::RCDATA => lemma_names_lower_in_rcdata(t),
        TokenizerState::RAWTEXT => lemma_names_lower_in_rawtext(t),
        TokenizerState::ScriptData => lemma_names_lower_in_script_data(t),
        TokenizerState::PLAINTEXT => lemma_names_lower_in_plaintext(t),
        TokenizerState::TagOpen => lemma_names_lower_in_tag_open(t),
        TokenizerState::EndTagOpen => lemma_names_lower_in_end_tag_open(t),
        TokenizerState::TagName => lemma_names_lower_in_tag_name(t),
        TokenizerState::RCDATALessThanSign => lemma_names_lower_in_rcdata_less_than_sign(t),
        TokenizerState::RCDATAEndTagOpen => lemma_names_lower_in_rcdata_end_tag_open(t),
        TokenizerState::RCDATAEndTagName => lemma_names_lower_in_rcdata_end_tag_name(t),
        TokenizerState::RAWTEXTLessThanSign => lemma_names_lower_in_rawtext_less_than_sign(t),
        TokenizerState::RAWTEXTEndTagOpen => lemma_names_lower_in_rawtext_end_tag_open(t),
        TokenizerState::RAWTEXTEndTagName => lemma_names_lower_in_rawtext_end_tag_name(t),
        TokenizerState::ScriptDataLessThanSign => lemma_names_lower_in_script_data_less_than_sign(t),
        TokenizerState::ScriptDataEndTagOpen => lemma_names_lower_in_script_data_end_tag_open(t),
        TokenizerState::ScriptDataEndTagName => lemma_names_lower_in_script_data_end_tag_name(t),
        TokenizerState::ScriptDataEscapeStart => lemma_names_lower_in_script_data_escape_start(t),
        TokenizerState::ScriptDataEscapeStartDash => lemma_names_lower_in_script_data_escape_start_dash(t),
        TokenizerState::ScriptDataEscaped => lemma_names_lower_in_script_data_escaped(t),
        TokenizerState::ScriptDataEscapedDash => lemma_names_lower_in_script_data_escaped_dash(t),
        TokenizerState::ScriptDataEscapedDashDash => lemma_names_lower_in_script_data_escaped_dash_dash(t),
        TokenizerState::ScriptDataEscapedLessThanSign => lemma_names_lower_in_script_data_escaped_less_than_sign(t),
        TokenizerState::ScriptDataEscapedEndTagOpen => lemma_names_lower_in_script_data_escaped_end_tag_open(t),
        TokenizerState::ScriptDataEscapedEndTagName => lemma_names_lower_in_script_data_escaped_end_tag_name(t),
        TokenizerState::ScriptDataDoubleEscapeStart => lemma_names_lower_in_script_data_double_escape_start(t),
        TokenizerState::ScriptDataDoubleEscaped => lemma_names_lower_in_script_data_double_escaped(t),
        TokenizerState::ScriptDataDoubleEscapedDash => lemma_names_lower_in_script_data_double_escaped_dash(t),
        TokenizerState::ScriptDataDoubleEscapedDashDash => lemma_names_lower_in_script_data_double_escaped_dash_dash(t),
        TokenizerState::ScriptDataDoubleEscapedLessThanSign => lemma_names_lower_in_script_data_double_escaped_less_than_sign(t),
        TokenizerState::ScriptDataDoubleEscapeEnd => lemma_names_lower_in_script_data_double_escape_end(t),
        TokenizerState::BeforeAttributeName => lemma_names_lower_in_before_attribute_name(t),
        TokenizerState::AttributeName => lemma_names_lower_in_attribute_name(t),
        TokenizerState::AfterAttributeName => lemma_names_lower_in_after_attribute_name(t),
        TokenizerState::BeforeAttributeValue => lemma_names_lower_in_before_attribute_value(t),
        TokenizerState::AttributeValueDoubleQuoted => lemma_names_lower_in_attribute_value_double_quoted(t),
        TokenizerState::AttributeValueSingleQuoted => lemma_names_lower_in_attribute_value_single_quoted(t),
        TokenizerState::AttributeValueUnquoted => lemma_names_lower_in_attribute_value_unquoted(t),
        TokenizerState::AfterAttributeValueQuoted => lemma_names_lower_in_after_attribute_value_quoted(t),
        TokenizerState::SelfClosingStartTag => lemma_names_lower_in_self_closing_start_tag(t),
        TokenizerState::BogusComment => lemma_names_lower_in_bogus_comment(t),
        TokenizerState::MarkupDeclarationOpen => lemma_names_lower_in_markup_declaration_open(t),
        TokenizerState::CommentStart => lemma_names_lower_in_comment_start(t),
        TokenizerState::CommentStartDash => lemma_names_lower_in_comment_start_dash(t),
        TokenizerState::Comment => lemma_names_lower_in_comment(t),
        TokenizerState::CommentLessThanSign => lemma_names_lower_in_comment_less_than_sign(t),
        TokenizerState::CommentLessThanSignBang => lemma_names_lower_in_comment_less_than_sign_bang(t),
        TokenizerState::CommentLessThanSignBangDash => lemma_names_lower_in_comment_less_than_sign_bang_dash(t),
        TokenizerState::CommentLessThanSignBangDashDash => lemma_names_lower_in_comment_less_than_sign_bang_dash_dash(t),
        TokenizerState::CommentEndDash => lemma_names_lower_in_comment_end_dash(t),
        TokenizerState::CommentEnd => lemma_names_lower_in_comment_end(t),
        TokenizerState::CommentEndBang => lemma_names_lower_in_comment_end_bang(t),
        TokenizerState::DOCTYPE => lemma_names_lower_in_doctype(t),
        TokenizerState::BeforeDOCTYPEName => lemma_names_lower_in_before_doctype_name(t),
        TokenizerState::DOCTYPEName => lemma_names_lower_in_doctype_name(t),
        TokenizerState::AfterDOCTYPEName => lemma_names_lower_in_after_doctype_name(t),
        TokenizerState::CharacterReference => lemma_names_lower_in_character_reference(t),
    }
}

/// A tokenizer that builds no tag or DOCTYPE and has emitted nothing has
/// no name at all.
pub proof fn lemma_names_lower_at_start(t: Tok)
    requires
        t.tag is None,
        t.doctype is None,
        t.emitted.len() == 0,
    ensures
        names_lower(t),
{
}

/// No step of the tokenizer puts an ASCII upper-case letter into a tag
/// name, an attribute name or a DOCTYPE name: where none of the tokens being
/// built or emitted has one in a name, none has after the step (the states
/// that read names lower such letters).
pub proof fn lemma_tokenize_names_lower(t: Tok)
    requires
        names_lower(t),
    ensures
        names_lower(tokenize_step(t)),
{
    lemma_state_step_names_lower(Tok { prev_state: t.state, ..t });
}

} // verus!
