//! The in-body insertion mode: what tree construction does with each token
//! while the body is open.
use vstd::prelude::*;
use crate::html5::parse::tokenize::ParserState;
use crate::html5::parse::tree::{InsertMode, Tag, TagView, Token};
use crate::html5::tree_builder::{
    BuilderView, KindView, NodeKind, NodeView, TreeBuilder, blank, bv_adopt, bv_char, bv_close_p,
    bv_comment, bv_implied, bv_insert, bv_pop, bv_pop_until, bv_push_afe, bv_reconstruct,
    button_scope, default_scope, detached, dom_wf, element_name, head_content_name, in_head_inserts, in_head_step,
    in_scope, is_blank, is_head_content_name, is_special_name, last_marker, last_named_entry,
    lemma_detached_wf, lemma_last_marker_bound, lemma_recreated_len, lemma_rewind_entries, list_item_scope, name_in,
    named_tag, needs_reconstruct, initial_ok, initial_step, before_html_ok, before_html_step, before_head_ok,
    before_head_step, in_head_ok, after_head_ok, after_head_step, in_head_noscript_ok, in_head_noscript_step,
    text_ok, text_step, not_entry, rewind_to, scope_has, special_name_excluding, special_names,
    str_is, implied_end_tags, implied_popped, popped_until,
};

verus! {

/// The start tags of block elements, before which an open `p` in button
/// scope is closed.
pub open spec fn block_start_names() -> Seq<&'static str> {
    seq![
        "address", "article", "aside", "blockquote", "center", "details", "dialog", "dir", "div", "dl",
        "fieldset", "figcaption", "figure", "footer", "header", "hgroup", "main", "menu", "nav", "ol", "p",
        "search", "section", "summary", "ul",
    ]
}

/// The end tags that close the element of their name where it is in the
/// default scope.
pub open spec fn block_end_names() -> Seq<&'static str> {
    seq![
        "address", "article", "aside", "blockquote", "button", "center", "details", "dialog", "dir", "div",
        "dl", "fieldset", "figcaption", "figure", "footer", "header", "hgroup", "listing", "main", "menu",
        "nav", "ol", "pre", "search", "section", "select", "summary", "ul",
    ]
}

/// The names of the formatting elements (besides `a`).
pub open spec fn formatting_names() -> Seq<&'static str> {
    seq!["b", "big", "code", "em", "font", "i", "s", "small", "strike", "strong", "tt", "u"]
}

/// `n` names a heading.
pub open spec fn is_heading(n: Seq<char>) -> bool {
    n == "h1"@ || n == "h2"@ || n == "h3"@ || n == "h4"@ || n == "h5"@ || n == "h6"@
}

/// A `p` element closed, where one is in button scope.
pub open spec fn bv_close_p_if(b: BuilderView) -> BuilderView {
    if in_scope(b.dom, b.open, "p"@, button_scope()) {
        bv_close_p(b)
    } else {
        b
    }
}

/// The current node popped where it is a heading.
pub open spec fn bv_heading_popped(b: BuilderView) -> BuilderView {
    if b.open.len() > 0 && (match element_name(b.dom, b.open.last() as int) {
        Some(m) => is_heading(m),
        None => false,
    }) {
        bv_pop(b)
    } else {
        b
    }
}

/// The active formatting elements reconstructed, then an element for `t`
/// opened and pushed onto them.
pub open spec fn bv_formatting(b: BuilderView, t: TagView) -> BuilderView {
    let r = bv_reconstruct(b);
    bv_push_afe(bv_insert(r, t), r.dom.len() as usize)
}

/// Some attribute of `a` is named `n`.
pub open spec fn has_attr_named(a: Seq<(Seq<char>, Seq<char>)>, n: Seq<char>) -> bool {
    exists|k: int| 0 <= k < a.len() && a[k].0 == n
}

/// The attributes `extra` added in order to `a`, each where `a` has none of
/// its name yet.
pub open spec fn attrs_merged(a: Seq<(Seq<char>, Seq<char>)>, extra: Seq<(Seq<char>, Seq<char>)>) -> Seq<
    (Seq<char>, Seq<char>),
>
    decreases extra.len(),
{
    if extra.len() == 0 {
        a
    } else {
        let next = if has_attr_named(a, extra[0].0) {
            a
        } else {
            a.push(extra[0])
        };
        attrs_merged(next, extra.drop_first())
    }
}

/// The second open element given the attributes of `t` it lacks, and the
/// frameset flag cleared.
pub open spec fn bv_body_attrs(b: BuilderView, t: TagView) -> BuilderView {
    let e = b.open[1] as int;
    BuilderView {
        dom: b.dom.update(
            e,
            NodeView {
                kind: KindView::Element(b.dom[e].kind->Element_0, attrs_merged(b.dom[e].kind->Element_1, t.attributes)),
                ..b.dom[e]
            },
        ),
        frameset_ok: false,
        ..b
    }
}

/// The second open element is a `body` whose attributes a `body` start tag
/// may extend.
pub open spec fn body_extendable(b: BuilderView) -> bool {
    &&& b.open.len() > 1
    &&& element_name(b.dom, b.open[1] as int) == Some("body"@)
    &&& !(exists|k: int| 0 <= k < b.open.len() && element_name(b.dom, b.open[k] as int) == Some("template"@))
}

/// The second open element is a `body` that a frameset may replace.
pub open spec fn frameset_allowed(b: BuilderView) -> bool {
    &&& b.open.len() > 1
    &&& element_name(b.dom, b.open[1] as int) == Some("body"@)
    &&& b.frameset_ok
}

/// The second open element taken out of the tree, the open elements cut
/// to the first, and a frameset for `t` opened in the in-frameset mode.
pub open spec fn bv_frameset(b: BuilderView, t: TagView) -> BuilderView {
    BuilderView {
        mode: InsertMode::InFrameset,
        ..bv_insert(BuilderView { dom: detached(b.dom, b.open[1] as int), open: b.open.take(1), ..b }, t)
    }
}

/// Walking the open elements down from below position `k`: the name of
/// the first one named in `targets` (`Some(Some(..))`), or `Some(None)` where
/// one that is special, but for `address`, `div` and `p`, comes first;
/// `None` where the walk runs past the bottom.
pub open spec fn list_walk(v: Seq<NodeView>, open: Seq<usize>, targets: Seq<Seq<char>>, k: int) -> Option<
    Option<Seq<char>>,
>
    decreases k,
{
    if k <= 0 || k > open.len() {
        None
    } else {
        match element_name(v, open[k - 1] as int) {
            Some(m) => if targets.contains(m) {
                Some(Some(m))
            } else if is_special_name(m) && !(m == "address"@ || m == "div"@ || m == "p"@) {
                Some(None)
            } else {
                list_walk(v, open, targets, k - 1)
            },
            None => list_walk(v, open, targets, k - 1),
        }
    }
}

/// The list item that the walk finds closed: the implied end tags but its
/// own generated, and the open elements popped down to it.
pub open spec fn bv_list_closed(b: BuilderView, targets: Seq<Seq<char>>) -> BuilderView {
    match list_walk(b.dom, b.open, targets, b.open.len() as int) {
        Some(Some(m)) => bv_pop_until(bv_implied(b, Some(m)), m),
        _ => b,
    }
}

/// The views of a list of names.
pub open spec fn str_views(names: Seq<&str>) -> Seq<Seq<char>> {
    names.map_values(|s: &str| s@)
}

/// The names that a list item start tag named `n` closes.
pub open spec fn list_targets(n: Seq<char>) -> Seq<Seq<char>> {
    if n == "li"@ {
        seq!["li"@]
    } else {
        seq!["dd"@, "dt"@]
    }
}

/// An open `button` in the default scope closed.
pub open spec fn bv_button_closed(b: BuilderView) -> BuilderView {
    if in_scope(b.dom, b.open, "button"@, default_scope()) {
        bv_pop_until(bv_implied(b, None), "button"@)
    } else {
        b
    }
}

/// An `a` element is among the active formatting elements after the last
/// marker (from the start where there is none).
pub open spec fn a_active(b: BuilderView) -> bool {
    let lo = match last_marker(b.afe) {
        Some(i) => i,
        None => 0,
    };
    last_named_entry(b.dom, b.afe, "a"@, lo, b.afe.len() as int) is Some
}

/// The builder before an `a` start tag opens its element: the adoption
/// agency run for `a` where one is active.
pub open spec fn bv_a_prepared(b: BuilderView) -> BuilderView {
    if a_active(b) {
        bv_adopt(b, "a"@)
    } else {
        b
    }
}

/// What the in-body mode does with a start tag `t` (other than those it
/// hands to the in-head mode).
pub open spec fn in_body_start(b: BuilderView, t: TagView) -> (BuilderView, bool) {
    let n = t.name;
    if n == "html"@ {
        (b, true)
    } else if n == "body"@ {
        (if body_extendable(b) { bv_body_attrs(b, t) } else { b }, true)
    } else if n == "frameset"@ {
        (if frameset_allowed(b) { bv_frameset(b, t) } else { b }, true)
    } else if scope_has(block_start_names(), n) {
        (bv_insert(bv_close_p_if(b), t), true)
    } else if is_heading(n) {
        (bv_insert(bv_heading_popped(bv_close_p_if(b)), t), true)
    } else if n == "pre"@ || n == "listing"@ {
        (BuilderView { frameset_ok: false, ..bv_insert(bv_close_p_if(b), t) }, true)
    } else if n == "li"@ || n == "dd"@ || n == "dt"@ {
        (bv_insert(bv_close_p_if(bv_list_closed(BuilderView { frameset_ok: false, ..b }, list_targets(n))), t), true)
    } else if n == "plaintext"@ {
        (BuilderView { tokenizer_state: Some(ParserState::PLAINTEXT), ..bv_insert(bv_close_p_if(b), t) }, true)
    } else if n == "button"@ {
        (BuilderView { frameset_ok: false, ..bv_insert(bv_reconstruct(bv_button_closed(b)), t) }, true)
    } else if n == "a"@ {
        (bv_formatting(bv_a_prepared(b), t), true)
    } else {
        (bv_formatting(b, t), true)
    }
}

/// What the in-body mode does with an end tag `t` (other than `template`,
/// which it hands to the in-head mode).
pub open spec fn in_body_end(b: BuilderView, t: TagView) -> (BuilderView, bool) {
    let n = t.name;
    if n == "body"@ {
        (BuilderView { mode: InsertMode::AfterBody, ..b }, true)
    } else if n == "html"@ {
        (BuilderView { mode: InsertMode::AfterBody, ..b }, false)
    } else if scope_has(block_end_names(), n) || is_heading(n) {
        (if in_scope(b.dom, b.open, n, default_scope()) { bv_pop_until(bv_implied(b, None), n) } else { b }, true)
    } else if n == "p"@ {
        (bv_close_p(if in_scope(b.dom, b.open, "p"@, button_scope()) { b } else { bv_insert(b, named_tag("p"@)) }), true)
    } else if n == "li"@ {
        (if in_scope(b.dom, b.open, n, list_item_scope()) { bv_pop_until(bv_implied(b, Some(n)), n) } else { b }, true)
    } else if n == "dd"@ || n == "dt"@ {
        (if in_scope(b.dom, b.open, n, default_scope()) { bv_pop_until(bv_implied(b, Some(n)), n) } else { b }, true)
    } else {
        (bv_adopt(b, n), true)
    }
}

/// The tokens that the in-body mode hands to the in-head mode.
pub open spec fn is_in_head_token(token: Token) -> bool {
    match token {
        Token::StartTag(t) => is_head_content_name(t@.name),
        Token::EndTag(t) => t@.name == "template"@,
        _ => false,
    }
}

/// What the in-body mode does with `token` (other than those it hands to the
/// in-head mode): the builder after it, and `false` where the token is to
/// be handled again in the new mode.
pub open spec fn in_body(b: BuilderView, token: Token) -> (BuilderView, bool) {
    match token {
        Token::Character(c) => if c == '\0' {
            (b, true)
        } else if is_blank(c) {
            (bv_char(bv_reconstruct(b), c), true)
        } else {
            (BuilderView { frameset_ok: false, ..bv_char(bv_reconstruct(b), c) }, true)
        },
        Token::Comment(data) => (bv_comment(b, data@), true),
        Token::DOCTYPE(_) => (b, true),
        Token::StartTag(t) => in_body_start(b, t@),
        Token::EndTag(t) => in_body_end(b, t@),
        Token::EOF => (b, true),
    }
}

/// The in-body step from `old_b` on `token` to `new_b`, returning `r`.
pub open spec fn in_body_step(old_b: TreeBuilder, token: Token, new_b: TreeBuilder, r: bool) -> bool {
    if is_in_head_token(token) {
        r && (in_head_step(old_b, token, new_b, true) || in_head_step(old_b, token, new_b, false))
    } else {
        (new_b@, r) == in_body(old_b@, token)
    }
}

/// The start tags on which the in-body mode completes.
pub open spec fn in_body_start_ok(b: BuilderView, t: TagView) -> bool {
    let n = t.name;
    if is_head_content_name(n) {
        n == "template"@ || b.open.len() > 0
    } else if n == "html"@ {
        true
    } else if n == "body"@ {
        b.open.len() > 0
    } else if n == "frameset"@ {
        b.open.len() > 0 && (frameset_allowed(b) ==> b.dom[b.open[1] as int].parent is Some)
    } else if scope_has(block_start_names(), n) {
        bv_close_p_if(b).open.len() > 0
    } else if is_heading(n) {
        bv_heading_popped(bv_close_p_if(b)).open.len() > 0
    } else if n == "pre"@ || n == "listing"@ {
        bv_close_p_if(b).open.len() > 0
    } else if n == "li"@ || n == "dd"@ || n == "dt"@ {
        &&& list_walk(b.dom, b.open, list_targets(n), b.open.len() as int) is Some
        &&& bv_close_p_if(bv_list_closed(b, list_targets(n))).open.len() > 0
    } else if n == "plaintext"@ {
        bv_close_p_if(b).open.len() > 0
    } else if n == "button"@ {
        bv_button_closed(b).open.len() > 0
    } else if n == "a"@ {
        bv_a_prepared(b).open.len() > 0
    } else {
        scope_has(formatting_names(), n) && b.open.len() > 0
    }
}

/// The end tags on which the in-body mode completes.
pub open spec fn in_body_end_ok(b: BuilderView, t: TagView) -> bool {
    let n = t.name;
    if n == "p"@ {
        in_scope(b.dom, b.open, "p"@, button_scope()) || b.open.len() > 0
    } else {
        n == "template"@ || n == "body"@ || n == "html"@ || scope_has(block_end_names(), n) || is_heading(n) || n
            == "li"@ || n == "dd"@ || n == "dt"@ || scope_has(formatting_names(), n) || n == "a"@
    }
}

/// The tokens on which the in-body mode completes: those it does not leave
/// unhandled (a `form` tag, a start or end tag it has no rule for, the end
/// of input with elements open) and on which it has a current node where
/// it inserts.
pub open spec fn in_body_ok(b: BuilderView, token: Token) -> bool {
    match token {
        Token::Character(c) => c == '\0' || b.open.len() > 0,
        Token::Comment(_) => b.open.len() > 0,
        Token::DOCTYPE(_) => true,
        Token::StartTag(t) => in_body_start_ok(b, t@),
        Token::EndTag(t) => in_body_end_ok(b, t@),
        Token::EOF => b.open.len() == 0,
    }
}

/// Reconstructing the active formatting elements adds at most one node per
/// entry, keeps the open elements and the number of entries.
proof fn lemma_reconstruct_sizes(b: BuilderView)
    requires
        b.open.len() > 0,
        b.open.last() < b.dom.len(),
    ensures
        bv_reconstruct(b).dom.len() <= b.dom.len() + b.afe.len(),
        bv_reconstruct(b).open.len() >= b.open.len(),
        bv_reconstruct(b).afe.len() == b.afe.len(),
{
    if needs_reconstruct(b.dom, b.open, b.afe) {
        lemma_rewind_entries(b.dom, b.open, b.afe, b.afe.len() - 1);
        lemma_recreated_len(b.dom, b.open, b.afe, rewind_to(b.dom, b.open, b.afe, b.afe.len() - 1));
    }
}

/// The adoption agency keeps the tree and does not add entries.
proof fn lemma_adopt_sizes(b: BuilderView, subject: Seq<char>)
    ensures
        bv_adopt(b, subject).dom == b.dom,
        bv_adopt(b, subject).afe.len() <= b.afe.len(),
{
    let lo = match last_marker(b.afe) {
        Some(i) => i,
        None => 0,
    };
    match last_named_entry(b.dom, b.afe, subject, lo, b.afe.len() as int) {
        Some(k) => {
            b.afe.lemma_filter_len(not_entry(b.afe[k]->0));
        },
        None => {},
    }
}

/// The names that are both block start tags and block end tags are not
/// closed by implied end tags, and are none of `html`, `body` and
/// `frameset`.
proof fn lemma_block_name(n: Seq<char>)
    requires
        scope_has(block_start_names(), n),
        scope_has(block_end_names(), n),
    ensures
        !scope_has(implied_end_tags(), n),
        n != "html"@,
        n != "body"@,
        n != "frameset"@,
{
    reveal_strlit("address");
    reveal_strlit("article");
    reveal_strlit("aside");
    reveal_strlit("blockquote");
    reveal_strlit("body");
    reveal_strlit("button");
    reveal_strlit("center");
    reveal_strlit("dd");
    reveal_strlit("details");
    reveal_strlit("dialog");
    reveal_strlit("dir");
    reveal_strlit("div");
    reveal_strlit("dl");
    reveal_strlit("dt");
    reveal_strlit("fieldset");
    reveal_strlit("figcaption");
    reveal_strlit("figure");
    reveal_strlit("footer");
    reveal_strlit("frameset");
    reveal_strlit("header");
    reveal_strlit("hgroup");
    reveal_strlit("html");
    reveal_strlit("li");
    reveal_strlit("listing");
    reveal_strlit("main");
    reveal_strlit("menu");
    reveal_strlit("nav");
    reveal_strlit("ol");
    reveal_strlit("optgroup");
    reveal_strlit("option");
    reveal_strlit("p");
    reveal_strlit("pre");
    reveal_strlit("rb");
    reveal_strlit("rp");
    reveal_strlit("rt");
    reveal_strlit("rtc");
    reveal_strlit("search");
    reveal_strlit("section");
    reveal_strlit("select");
    reveal_strlit("summary");
    reveal_strlit("ul");
    let s = block_start_names();
    let e = block_end_names();
    let im = implied_end_tags();
    let j = choose|j: int| 0 <= j < s.len() && s[j]@ == n;
    if j == 0 {
        assert(n == "address"@);
        assert forall|k: int| 0 <= k < im.len() implies im[k]@ != "address"@ by {
            if im[k]@ == "address"@ {
                assert(im[k]@.len() == 7);
                assert(im[k]@[0] == 'a');
                assert(im[k]@[1] == 'd');
            }
        }
        assert("address"@[0] == 'a' && "address"@[1] == 'd');
        assert("html"@[0] == 'h' && "body"@[0] == 'b' && "frameset"@[1] == 'r');
    } else if j == 1 {
        assert(n == "article"@);
        assert forall|k: int| 0 <= k < im.len() implies im[k]@ != "article"@ by {
            if im[k]@ == "article"@ {
                assert(im[k]@.len() == 7);
                assert(im[k]@[0] == 'a');
                assert(im[k]@[1] == 'r');
            }
        }
        assert("article"@[0] == 'a' && "article"@[1] == 'r');
        assert("html"@[0] == 'h' && "body"@[0] == 'b' && "frameset"@[1] == 'r');
    } else if j == 2 {
        assert(n == "aside"@);
        assert forall|k: int| 0 <= k < im.len() implies im[k]@ != "aside"@ by {
            if im[k]@ == "aside"@ {
                assert(im[k]@.len() == 5);
                assert(im[k]@[0] == 'a');
                assert(im[k]@[1] == 's');
            }
        }
        assert("aside"@[0] == 'a' && "aside"@[1] == 's');
        assert("html"@[0] == 'h' && "body"@[0] == 'b' && "frameset"@[1] == 'r');
    } else if j == 3 {
        assert(n == "blockquote"@);
        assert forall|k: int| 0 <= k < im.len() implies im[k]@ != "blockquote"@ by {
            if im[k]@ == "blockquote"@ {
                assert(im[k]@.len() == 10);
                assert(im[k]@[0] == 'b');
                assert(im[k]@[1] == 'l');
            }
        }
        assert("blockquote"@[0] == 'b' && "blockquote"@[1] == 'l');
        assert("html"@[0] == 'h' && "body"@[0] == 'b' && "frameset"@[1] == 'r');
    } else if j == 4 {
        assert(n == "center"@);
        assert forall|k: int| 0 <= k < im.len() implies im[k]@ != "center"@ by {
            if im[k]@ == "center"@ {
                assert(im[k]@.len() == 6);
                assert(im[k]@[0] == 'c');
                assert(im[k]@[1] == 'e');
            }
        }
        assert("center"@[0] == 'c' && "center"@[1] == 'e');
        assert("html"@[0] == 'h' && "body"@[0] == 'b' && "frameset"@[1] == 'r');
    } else if j == 5 {
        assert(n == "details"@);
        assert forall|k: int| 0 <= k < im.len() implies im[k]@ != "details"@ by {
            if im[k]@ == "details"@ {
                assert(im[k]@.len() == 7);
                assert(im[k]@[0] == 'd');
                assert(im[k]@[1] == 'e');
            }
        }
        assert("details"@[0] == 'd' && "details"@[1] == 'e');
        assert("html"@[0] == 'h' && "body"@[0] == 'b' && "frameset"@[1] == 'r');
    } else if j == 6 {
        assert(n == "dialog"@);
        assert forall|k: int| 0 <= k < im.len() implies im[k]@ != "dialog"@ by {
            if im[k]@ == "dialog"@ {
                assert(im[k]@.len() == 6);
                assert(im[k]@[0] == 'd');
                assert(im[k]@[1] == 'i');
            }
        }
        assert("dialog"@[0] == 'd' && "dialog"@[1] == 'i');
        assert("html"@[0] == 'h' && "body"@[0] == 'b' && "frameset"@[1] == 'r');
    } else if j == 7 {
        assert(n == "dir"@);
        assert forall|k: int| 0 <= k < im.len() implies im[k]@ != "dir"@ by {
            if im[k]@ == "dir"@ {
                assert(im[k]@.len() == 3);
                assert(im[k]@[0] == 'd');
                assert(im[k]@[1] == 'i');
            }
        }
        assert("dir"@[0] == 'd' && "dir"@[1] == 'i');
        assert("html"@[0] == 'h' && "body"@[0] == 'b' && "frameset"@[1] == 'r');
    } else if j == 8 {
        assert(n == "div"@);
        assert forall|k: int| 0 <= k < im.len() implies im[k]@ != "div"@ by {
            if im[k]@ == "div"@ {
                assert(im[k]@.len() == 3);
                assert(im[k]@[0] == 'd');
                assert(im[k]@[1] == 'i');
            }
        }
        assert("div"@[0] == 'd' && "div"@[1] == 'i');
        assert("html"@[0] == 'h' && "body"@[0] == 'b' && "frameset"@[1] == 'r');
    } else if j == 9 {
        assert(n == "dl"@);
        assert forall|k: int| 0 <= k < im.len() implies im[k]@ != "dl"@ by {
            if im[k]@ == "dl"@ {
                assert(im[k]@.len() == 2);
                assert(im[k]@[0] == 'd');
                assert(im[k]@[1] == 'l');
            }
        }
        assert("dl"@[0] == 'd' && "dl"@[1] == 'l');
        assert("html"@[0] == 'h' && "body"@[0] == 'b' && "frameset"@[1] == 'r');
    } else if j == 10 {
        assert(n == "fieldset"@);
        assert forall|k: int| 0 <= k < im.len() implies im[k]@ != "fieldset"@ by {
            if im[k]@ == "fieldset"@ {
                assert(im[k]@.len() == 8);
                assert(im[k]@[0] == 'f');
                assert(im[k]@[1] == 'i');
            }
        }
        assert("fieldset"@[0] == 'f' && "fieldset"@[1] == 'i');
        assert("html"@[0] == 'h' && "body"@[0] == 'b' && "frameset"@[1] == 'r');
    } else if j == 11 {
        assert(n == "figcaption"@);
        assert forall|k: int| 0 <= k < im.len() implies im[k]@ != "figcaption"@ by {
            if im[k]@ == "figcaption"@ {
                assert(im[k]@.len() == 10);
                assert(im[k]@[0] == 'f');
                assert(im[k]@[1] == 'i');
            }
        }
        assert("figcaption"@[0] == 'f' && "figcaption"@[1] == 'i');
        assert("html"@[0] == 'h' && "body"@[0] == 'b' && "frameset"@[1] == 'r');
    } else if j == 12 {
        assert(n == "figure"@);
        assert forall|k: int| 0 <= k < im.len() implies im[k]@ != "figure"@ by {
            if im[k]@ == "figure"@ {
                assert(im[k]@.len() == 6);
                assert(im[k]@[0] == 'f');
                assert(im[k]@[1] == 'i');
            }
        }
        assert("figure"@[0] == 'f' && "figure"@[1] == 'i');
        assert("html"@[0] == 'h' && "body"@[0] == 'b' && "frameset"@[1] == 'r');
    } else if j == 13 {
        assert(n == "footer"@);
        assert forall|k: int| 0 <= k < im.len() implies im[k]@ != "footer"@ by {
            if im[k]@ == "footer"@ {
                assert(im[k]@.len() == 6);
                assert(im[k]@[0] == 'f');
                assert(im[k]@[1] == 'o');
            }
        }
        assert("footer"@[0] == 'f' && "footer"@[1] == 'o');
        assert("html"@[0] == 'h' && "body"@[0] == 'b' && "frameset"@[1] == 'r');
    } else if j == 14 {
        assert(n == "header"@);
        assert forall|k: int| 0 <= k < im.len() implies im[k]@ != "header"@ by {
            if im[k]@ == "header"@ {
                assert(im[k]@.len() == 6);
                assert(im[k]@[0] == 'h');
                assert(im[k]@[1] == 'e');
            }
        }
        assert("header"@[0] == 'h' && "header"@[1] == 'e');
        assert("html"@[0] == 'h' && "body"@[0] == 'b' && "frameset"@[1] == 'r');
    } else if j == 15 {
        assert(n == "hgroup"@);
        assert forall|k: int| 0 <= k < im.len() implies im[k]@ != "hgroup"@ by {
            if im[k]@ == "hgroup"@ {
                assert(im[k]@.len() == 6);
                assert(im[k]@[0] == 'h');
                assert(im[k]@[1] == 'g');
            }
        }
        assert("hgroup"@[0] == 'h' && "hgroup"@[1] == 'g');
        assert("html"@[0] == 'h' && "body"@[0] == 'b' && "frameset"@[1] == 'r');
    } else if j == 16 {
        assert(n == "main"@);
        assert forall|k: int| 0 <= k < im.len() implies im[k]@ != "main"@ by {
            if im[k]@ == "main"@ {
                assert(im[k]@.len() == 4);
                assert(im[k]@[0] == 'm');
                assert(im[k]@[1] == 'a');
            }
        }
        assert("main"@[0] == 'm' && "main"@[1] == 'a');
        assert("html"@[0] == 'h' && "body"@[0] == 'b' && "frameset"@[1] == 'r');
    } else if j == 17 {
        assert(n == "menu"@);
        assert forall|k: int| 0 <= k < im.len() implies im[k]@ != "menu"@ by {
            if im[k]@ == "menu"@ {
                assert(im[k]@.len() == 4);
                assert(im[k]@[0] == 'm');
                assert(im[k]@[1] == 'e');
            }
        }
        assert("menu"@[0] == 'm' && "menu"@[1] == 'e');
        assert("html"@[0] == 'h' && "body"@[0] == 'b' && "frameset"@[1] == 'r');
    } else if j == 18 {
        assert(n == "nav"@);
        assert forall|k: int| 0 <= k < im.len() implies im[k]@ != "nav"@ by {
            if im[k]@ == "nav"@ {
                assert(im[k]@.len() == 3);
                assert(im[k]@[0] == 'n');
                assert(im[k]@[1] == 'a');
            }
        }
        assert("nav"@[0] == 'n' && "nav"@[1] == 'a');
        assert("html"@[0] == 'h' && "body"@[0] == 'b' && "frameset"@[1] == 'r');
    } else if j == 19 {
        assert(n == "ol"@);
        assert forall|k: int| 0 <= k < im.len() implies im[k]@ != "ol"@ by {
            if im[k]@ == "ol"@ {
                assert(im[k]@.len() == 2);
                assert(im[k]@[0] == 'o');
                assert(im[k]@[1] == 'l');
            }
        }
        assert("ol"@[0] == 'o' && "ol"@[1] == 'l');
        assert("html"@[0] == 'h' && "body"@[0] == 'b' && "frameset"@[1] == 'r');
    } else if j == 20 {
        assert forall|k: int| 0 <= k < e.len() implies e[k]@ != "p"@ by {
            if e[k]@ == "p"@ {
                assert(e[k]@.len() == 1);
            }
        }
        assert(false);
    } else if j == 21 {
        assert(n == "search"@);
        assert forall|k: int| 0 <= k < im.len() implies im[k]@ != "search"@ by {
            if im[k]@ == "search"@ {
                assert(im[k]@.len() == 6);
                assert(im[k]@[0] == 's');
                assert(im[k]@[1] == 'e');
            }
        }
        assert("search"@[0] == 's' && "search"@[1] == 'e');
        assert("html"@[0] == 'h' && "body"@[0] == 'b' && "frameset"@[1] == 'r');
    } else if j == 22 {
        assert(n == "section"@);
        assert forall|k: int| 0 <= k < im.len() implies im[k]@ != "section"@ by {
            if im[k]@ == "section"@ {
                assert(im[k]@.len() == 7);
                assert(im[k]@[0] == 's');
                assert(im[k]@[1] == 'e');
            }
        }
        assert("section"@[0] == 's' && "section"@[1] == 'e');
        assert("html"@[0] == 'h' && "body"@[0] == 'b' && "frameset"@[1] == 'r');
    } else if j == 23 {
        assert(n == "summary"@);
        assert forall|k: int| 0 <= k < im.len() implies im[k]@ != "summary"@ by {
            if im[k]@ == "summary"@ {
                assert(im[k]@.len() == 7);
                assert(im[k]@[0] == 's');
                assert(im[k]@[1] == 'u');
            }
        }
        assert("summary"@[0] == 's' && "summary"@[1] == 'u');
        assert("html"@[0] == 'h' && "body"@[0] == 'b' && "frameset"@[1] == 'r');
    } else if j == 24 {
        assert(n == "ul"@);
        assert forall|k: int| 0 <= k < im.len() implies im[k]@ != "ul"@ by {
            if im[k]@ == "ul"@ {
                assert(im[k]@.len() == 2);
                assert(im[k]@[0] == 'u');
                assert(im[k]@[1] == 'l');
            }
        }
        assert("ul"@[0] == 'u' && "ul"@[1] == 'l');
        assert("html"@[0] == 'h' && "body"@[0] == 'b' && "frameset"@[1] == 'r');
    }
}

/// Opening a block element in the in-body mode, where no `p` is in button
/// scope, and then closing it with an end tag of the same name, leaves the
/// open elements as they were and the new element in the tree.
pub proof fn lemma_block_open_close(b: BuilderView, t: TagView, e: TagView)
    requires
        scope_has(block_start_names(), t.name),
        scope_has(block_end_names(), t.name),
        e.name == t.name,
        b.open.len() > 0,
        0 <= b.open.last() < b.dom.len() < usize::MAX,
        !in_scope(b.dom, b.open, "p"@, button_scope()),
    ensures
        in_body_start(b, t) == (bv_insert(b, t), true),
        in_body_end(in_body_start(b, t).0, e) == (BuilderView { open: b.open, ..bv_insert(b, t) }, true),
{
    lemma_block_name(t.name);
    let b2 = bv_insert(b, t);
    let n = b.dom.len();
    assert(b2.open.last() == n as usize);
    assert(b2.open.last() as int == n);
    assert(element_name(b2.dom, n as int) == Some(t.name));
    assert(element_name(b2.dom, b2.open.last() as int) == Some(t.name));
    assert(in_scope(b2.dom, b2.open, t.name, default_scope()));
    assert(implied_popped(b2.dom, b2.open, None) == b2.open);
    assert(b2.open.drop_last() =~= b.open);
    assert(popped_until(b2.dom, b2.open, t.name) == b.open);
}

/// The formatting elements and `a` are not special.
#[verifier::rlimit(50)]
proof fn lemma_formatting_not_special(n: Seq<char>)
    requires
        scope_has(formatting_names(), n) || n == "a"@,
    ensures
        !is_special_name(n),
{
    reveal_strlit("a");
    reveal_strlit("b");
    reveal_strlit("big");
    reveal_strlit("code");
    reveal_strlit("em");
    reveal_strlit("font");
    reveal_strlit("i");
    reveal_strlit("s");
    reveal_strlit("small");
    reveal_strlit("strike");
    reveal_strlit("strong");
    reveal_strlit("tt");
    reveal_strlit("u");
    reveal_strlit("address");
    reveal_strlit("applet");
    reveal_strlit("area");
    reveal_strlit("article");
    reveal_strlit("aside");
    reveal_strlit("base");
    reveal_strlit("basefont");
    reveal_strlit("bgsound");
    reveal_strlit("blockquote");
    reveal_strlit("body");
    reveal_strlit("br");
    reveal_strlit("button");
    reveal_strlit("caption");
    reveal_strlit("center");
    reveal_strlit("col");
    reveal_strlit("colgroup");
    reveal_strlit("dd");
    reveal_strlit("details");
    reveal_strlit("dir");
    reveal_strlit("div");
    reveal_strlit("dl");
    reveal_strlit("dt");
    reveal_strlit("embed");
    reveal_strlit("fieldset");
    reveal_strlit("figcaption");
    reveal_strlit("figure");
    reveal_strlit("footer");
    reveal_strlit("form");
    reveal_strlit("frame");
    reveal_strlit("frameset");
    reveal_strlit("h1");
    reveal_strlit("h2");
    reveal_strlit("h3");
    reveal_strlit("h4");
    reveal_strlit("h5");
    reveal_strlit("h6");
    reveal_strlit("head");
    reveal_strlit("header");
    reveal_strlit("hgroup");
    reveal_strlit("hr");
    reveal_strlit("html");
    reveal_strlit("iframe");
    reveal_strlit("img");
    reveal_strlit("input");
    reveal_strlit("keygen");
    reveal_strlit("li");
    reveal_strlit("link");
    reveal_strlit("listing");
    reveal_strlit("main");
    reveal_strlit("marquee");
    reveal_strlit("menu");
    reveal_strlit("meta");
    reveal_strlit("nav");
    reveal_strlit("noembed");
    reveal_strlit("noframes");
    reveal_strlit("noscript");
    reveal_strlit("object");
    reveal_strlit("ol");
    reveal_strlit("p");
    reveal_strlit("param");
    reveal_strlit("plaintext");
    reveal_strlit("pre");
    reveal_strlit("script");
    reveal_strlit("search");
    reveal_strlit("section");
    reveal_strlit("select");
    reveal_strlit("source");
    reveal_strlit("style");
    reveal_strlit("summary");
    reveal_strlit("table");
    reveal_strlit("tbody");
    reveal_strlit("td");
    reveal_strlit("template");
    reveal_strlit("textarea");
    reveal_strlit("tfoot");
    reveal_strlit("th");
    reveal_strlit("thead");
    reveal_strlit("title");
    reveal_strlit("tr");
    reveal_strlit("track");
    reveal_strlit("ul");
    reveal_strlit("wbr");
    reveal_strlit("xmp");
    let s = special_names();
    if n == "a"@ {
        assert forall|j: int| 0 <= j < s.len() implies s[j]@ != "a"@ by {
            if s[j]@ == "a"@ {
                assert(s[j]@.len() == 1);
                assert(s[j]@[0] == 'a');
            }
        }
    } else if n == "b"@ {
        assert forall|j: int| 0 <= j < s.len() implies s[j]@ != "b"@ by {
            if s[j]@ == "b"@ {
                assert(s[j]@.len() == 1);
                assert(s[j]@[0] == 'b');
            }
        }
    } else if n == "big"@ {
        assert forall|j: int| 0 <= j < s.len() implies s[j]@ != "big"@ by {
            if s[j]@ == "big"@ {
                assert(s[j]@.len() == 3);
                assert(s[j]@[0] == 'b');
                assert(s[j]@[1] == 'i');
                assert(s[j]@[2] == 'g');
            }
        }
    } else if n == "code"@ {
        assert forall|j: int| 0 <= j < s.len() implies s[j]@ != "code"@ by {
            if s[j]@ == "code"@ {
                assert(s[j]@.len() == 4);
                assert(s[j]@[0] == 'c');
                assert(s[j]@[1] == 'o');
                assert(s[j]@[2] == 'd');
            }
        }
    } else if n == "em"@ {
        assert forall|j: int| 0 <= j < s.len() implies s[j]@ != "em"@ by {
            if s[j]@ == "em"@ {
                assert(s[j]@.len() == 2);
                assert(s[j]@[0] == 'e');
                assert(s[j]@[1] == 'm');
            }
        }
    } else if n == "font"@ {
        assert forall|j: int| 0 <= j < s.len() implies s[j]@ != "font"@ by {
            if s[j]@ == "font"@ {
                assert(s[j]@.len() == 4);
                assert(s[j]@[0] == 'f');
                assert(s[j]@[1] == 'o');
                assert(s[j]@[2] == 'n');
            }
        }
    } else if n == "i"@ {
        assert forall|j: int| 0 <= j < s.len() implies s[j]@ != "i"@ by {
            if s[j]@ == "i"@ {
                assert(s[j]@.len() == 1);
                assert(s[j]@[0] == 'i');
            }
        }
    } else if n == "s"@ {
        assert forall|j: int| 0 <= j < s.len() implies s[j]@ != "s"@ by {
            if s[j]@ == "s"@ {
                assert(s[j]@.len() == 1);
                assert(s[j]@[0] == 's');
            }
        }
    } else if n == "small"@ {
        assert forall|j: int| 0 <= j < s.len() implies s[j]@ != "small"@ by {
            if s[j]@ == "small"@ {
                assert(s[j]@.len() == 5);
                assert(s[j]@[0] == 's');
                assert(s[j]@[1] == 'm');
                assert(s[j]@[2] == 'a');
            }
        }
    } else if n == "strike"@ {
        assert forall|j: int| 0 <= j < s.len() implies s[j]@ != "strike"@ by {
            if s[j]@ == "strike"@ {
                assert(s[j]@.len() == 6);
                assert(s[j]@[0] == 's');
                assert(s[j]@[1] == 't');
                assert(s[j]@[2] == 'r');
            }
        }
    } else if n == "strong"@ {
        assert forall|j: int| 0 <= j < s.len() implies s[j]@ != "strong"@ by {
            if s[j]@ == "strong"@ {
                assert(s[j]@.len() == 6);
                assert(s[j]@[0] == 's');
                assert(s[j]@[1] == 't');
                assert(s[j]@[2] == 'r');
            }
        }
    } else if n == "tt"@ {
        assert forall|j: int| 0 <= j < s.len() implies s[j]@ != "tt"@ by {
            if s[j]@ == "tt"@ {
                assert(s[j]@.len() == 2);
                assert(s[j]@[0] == 't');
                assert(s[j]@[1] == 't');
            }
        }
    } else if n == "u"@ {
        assert forall|j: int| 0 <= j < s.len() implies s[j]@ != "u"@ by {
            if s[j]@ == "u"@ {
                assert(s[j]@.len() == 1);
                assert(s[j]@[0] == 'u');
            }
        }
    }
}

/// The builder keeps its invariant where the tree stays well formed with
/// the names of its nodes, and the open and active formatting elements are
/// kept.
proof fn lemma_wf_same_names(a: TreeBuilder, b: TreeBuilder)
    requires
        a.wf(),
        dom_wf(b.dom@),
        b.dom@.len() == a.dom@.len(),
        forall|j: int| 0 <= j < a.dom@.len() ==> element_name(b.dom@, j) == #[trigger] element_name(a.dom@, j),
        b.open_elements@ == a.open_elements@,
        b.active_formatting@ == a.active_formatting@,
    ensures
        b.wf(),
{
    assert forall|k: int| 0 <= k < b.open_elements@.len() implies
        (#[trigger] element_name(b.dom@, b.open_elements@[k] as int)) is Some by {
        assert(element_name(a.dom@, a.open_elements@[k] as int) is Some);
    }
    assert forall|k: int|
        0 <= k < b.active_formatting@.len() && (#[trigger] b.active_formatting@[k]) is Some implies
        element_name(b.dom@, b.active_formatting@[k]->0 as int) is Some
            && !is_special_name(element_name(b.dom@, b.active_formatting@[k]->0 as int)->0) by {
        assert(element_name(a.dom@, a.active_formatting@[k]->0 as int) is Some);
    }
}

/// `n` names a heading.
fn heading(n: &String) -> (r: bool)
    ensures
        r == is_heading(n@),
{
    str_is(n, "h1") || str_is(n, "h2") || str_is(n, "h3") || str_is(n, "h4") || str_is(n, "h5") || str_is(n, "h6")
}

/// Closes a `p` element where one is in button scope.
fn close_p_if(b: &mut TreeBuilder)
    requires
        old(b).wf(),
    ensures
        final(b).wf(),
        final(b)@ == bv_close_p_if(old(b)@),
{
    if b.has_element_in_button_scope("p") {
        b.close_p_tag();
    }
}

/// Reconstructs the active formatting elements, opens an element for `t`
/// and pushes it onto them.
fn insert_formatting(b: &mut TreeBuilder, t: &Tag)
    requires
        old(b).wf(),
        old(b).open_elements@.len() > 0,
        old(b).dom@.len() + old(b).active_formatting@.len() + 2 < usize::MAX,
        scope_has(formatting_names(), t@.name) || t@.name == "a"@,
    ensures
        final(b).wf(),
        final(b)@ == bv_formatting(old(b)@, t@),
{
    proof {
        assert(element_name(b.dom@, b.open_elements@[b.open_elements@.len() - 1] as int) is Some);
        lemma_reconstruct_sizes(old(b)@);
        lemma_formatting_not_special(t@.name);
    }
    b.reconstruct_active_formatting_elements();
    assert(element_name(b.dom@, b.open_elements@[b.open_elements@.len() - 1] as int) is Some);
    let n = b.insert_html_element(t);
    assert(b.dom@[n as int].kind == KindView::Element(t@.name, t@.attributes));
    assert(element_name(b.dom@, n as int) == Some(t@.name));
    b.push_active_formatting(n);
}

/// The attributes of `t` that element `e` lacks added to it, in order.
fn merge_attributes(b: &mut TreeBuilder, e: usize, t: &Tag)
    requires
        old(b).wf(),
        e < old(b).dom@.len(),
        old(b).dom@[e as int].kind is Element,
    ensures
        final(b).wf(),
        final(b)@ == (BuilderView {
            dom: old(b)@.dom.update(
                e as int,
                NodeView {
                    kind: KindView::Element(
                        old(b)@.dom[e as int].kind->Element_0,
                        attrs_merged(old(b)@.dom[e as int].kind->Element_1, t@.attributes),
                    ),
                    ..old(b)@.dom[e as int]
                },
            ),
            ..old(b)@
        }),
{
    let ghost v0 = b.dom@;
    let ghost a0 = v0[e as int].kind->Element_1;
    let ghost ext = t@.attributes;
    let mut i: usize = 0;
    assert(ext.subrange(0, ext.len() as int) =~= ext);
    while i < t.attributes.len()
        invariant
            i <= t.attributes@.len(),
            ext == t@.attributes,
            ext.len() == t.attributes@.len(),
            e < v0.len(),
            v0 == old(b).dom@,
            b.wf(),
            b.dom@.len() == v0.len(),
            b.dom@[e as int].kind is Element,
            b.dom@ == v0.update(e as int, NodeView { kind: b.dom@[e as int].kind, ..v0[e as int] }),
            b.dom@[e as int].kind->Element_0 == v0[e as int].kind->Element_0,
            attrs_merged(a0, ext) == attrs_merged(b.dom@[e as int].kind->Element_1, ext.subrange(i as int, ext.len() as int)),
            a0 == v0[e as int].kind->Element_1,
            b.open_elements@ == old(b).open_elements@,
            b.active_formatting@ == old(b).active_formatting@,
            b.mode == old(b).mode,
            b.original_mode == old(b).original_mode,
            b.head == old(b).head,
            b.frameset_ok == old(b).frameset_ok,
            b.scripting == old(b).scripting,
            b.tokenizer_state == old(b).tokenizer_state,
        decreases t.attributes@.len() - i,
    {
        let ghost cur = b.dom@[e as int].kind->Element_1;
        let ghost rest = ext.subrange(i as int, ext.len() as int);
        assert(rest[0] == ext[i as int]);
        assert(rest.drop_first() =~= ext.subrange(i + 1, ext.len() as int));
        let name = &t.attributes[i].0;
        let value = &t.attributes[i].1;
        assert(ext[i as int] == (name@, value@));
        let present = match &b.dom.node(e).kind {
            NodeKind::Element { attributes, .. } => {
                let mut found = false;
                let mut j: usize = 0;
                while j < attributes.len()
                    invariant
                        j <= attributes@.len(),
                        cur.len() == attributes@.len(),
                        forall|k: int| 0 <= k < attributes@.len() ==> #[trigger] cur[k] == (attributes@[k].0@, attributes@[k].1@),
                        found == exists|k: int| 0 <= k < j && cur[k].0 == name@,
                    decreases attributes@.len() - j,
                {
                    assert(cur[j as int].0 == attributes@[j as int].0@);
                    if str_is(&attributes[j].0, name.as_str()) {
                        found = true;
                    }
                    j = j + 1;
                }
                found
            },
            _ => true,
        };
        assert(present == has_attr_named(cur, name@));
        if !present {
            let ghost w = b.dom@;
            let ghost bb = *b;
            b.dom.add_attribute(e, name.clone(), value.clone());
            proof {
                assert(b.dom@[e as int].kind->Element_1 == cur.push(ext[i as int]));
                assert(b.dom@ =~= v0.update(e as int, NodeView { kind: b.dom@[e as int].kind, ..v0[e as int] }));
                lemma_wf_same_names(bb, *b);
            }
        }
        i = i + 1;
    }
}

/// Takes the second open element out of the tree, cuts the open elements
/// to the first, and opens a frameset for `t`.
fn replace_body_with_frameset(b: &mut TreeBuilder, t: &Tag)
    requires
        old(b).wf(),
        frameset_allowed(old(b)@),
        old(b).dom@[old(b).open_elements@[1] as int].parent is Some,
        old(b).dom@.len() < usize::MAX,
    ensures
        final(b).wf(),
        final(b)@ == bv_frameset(old(b)@, t@),
{
    let c = b.open_elements[1];
    let ghost bb = *b;
    assert(element_name(b.dom@, c as int) is Some);
    b.dom.detach(c);
    proof {
        lemma_detached_wf(bb.dom@, c as int);
        lemma_wf_same_names(bb, *b);
    }
    b.open_elements.truncate(1);
    assert(b.open_elements@ =~= bb.open_elements@.take(1));
    assert(element_name(b.dom@, b.open_elements@[0] as int) is Some) by {
        assert(b.open_elements@[0] == bb.open_elements@[0]);
        assert(element_name(bb.dom@, bb.open_elements@[0] as int) is Some);
    }
    b.insert_html_element(t);
    b.mode = InsertMode::InFrameset;
}

/// Closes the list item that the walk down the open elements finds, for a
/// start tag whose names are `targets`.
fn close_list_item(b: &mut TreeBuilder, targets: &[&str])
    requires
        old(b).wf(),
        list_walk(old(b).dom@, old(b).open_elements@, str_views(targets@), old(b).open_elements@.len() as int) is Some,
    ensures
        final(b).wf(),
        final(b)@ == bv_list_closed(old(b)@, str_views(targets@)),
{
    let ghost ts = str_views(targets@);
    let ghost v = b.dom@;
    let ghost open = b.open_elements@;
    let mut i: usize = b.open_elements.len();
    while i > 0
        invariant
            i <= open.len(),
            b.wf(),
            b@ == old(b)@,
            v == b.dom@,
            open == b.open_elements@,
            ts == str_views(targets@),
            list_walk(v, open, ts, open.len() as int) == list_walk(v, open, ts, i as int),
            list_walk(v, open, ts, i as int) is Some,
        decreases i,
    {
        let e = b.open_elements[i - 1];
        assert(element_name(v, open[i - 1] as int) is Some);
        let name = match b.dom.element_name(e) {
            Some(n) => n,
            None => {
                return;
            },
        };
        if name_in(targets, name) {
            assert(ts.contains(name@)) by {
                let j = choose|j: int| 0 <= j < targets@.len() && targets@[j]@ == name@;
                assert(ts[j] == name@);
            }
            let found = name.clone();
            b.generate_implied_end_tags(Some(found.as_str()));
            b.pop_until(found.as_str());
            return;
        }
        assert(!ts.contains(name@)) by {
            if ts.contains(name@) {
                let j = choose|j: int| 0 <= j < ts.len() && ts[j] == name@;
                assert(targets@[j]@ == name@);
            }
        }
        if special_name_excluding(name) {
            return;
        }
        i = i - 1;
    }
}

/// The builder's second open element is a `body` whose attributes a
/// `body` start tag may extend.
fn can_extend_body(b: &TreeBuilder) -> (r: bool)
    requires
        b.wf(),
    ensures
        r == body_extendable(b@),
{
    if b.open_elements.len() <= 1 {
        return false;
    }
    let e = b.open_elements[1];
    b.dom.is_element_named(e, "body") && !b.contains_tag("template")
}

/// The builder's second open element is a `body` that a frameset may
/// replace.
fn can_replace_body(b: &TreeBuilder) -> (r: bool)
    requires
        b.wf(),
    ensures
        r == frameset_allowed(b@),
{
    if b.open_elements.len() <= 1 {
        return false;
    }
    let e = b.open_elements[1];
    b.dom.is_element_named(e, "body") && b.frameset_ok
}

/// An `a` element is among the active formatting elements after the last
/// marker.
fn a_is_active(b: &TreeBuilder) -> (r: bool)
    requires
        b.wf(),
    ensures
        r == a_active(b@),
{
    proof {
        lemma_last_marker_bound(b.active_formatting@);
    }
    let lo = match b.last_marker() {
        Some(i) => i,
        None => 0,
    };
    b.last_entry_named(lo, "a").is_some()
}

/// Inserts a character: nothing for U+0000; else the active formatting
/// elements are reconstructed and the character inserted, and a character
/// that is not white space clears the frameset flag.
fn body_character(b: &mut TreeBuilder, c: char)
    requires
        old(b).wf(),
        c == '\0' || old(b).open_elements@.len() > 0,
        old(b).dom@.len() + old(b).active_formatting@.len() + 2 < usize::MAX,
    ensures
        final(b).wf(),
        (final(b)@, true) == in_body(old(b)@, Token::Character(c)),
{
    if c == '\0' {
        return;
    }
    proof {
        assert(element_name(b.dom@, b.open_elements@[b.open_elements@.len() - 1] as int) is Some);
        lemma_reconstruct_sizes(old(b)@);
    }
    b.reconstruct_active_formatting_elements();
    b.insert_character(c);
    if !blank(c) {
        b.frameset_ok = false;
    }
}

/// The in-body mode on a start tag that it does not hand to the in-head
/// mode.
fn body_start_tag(b: &mut TreeBuilder, t: &Tag) -> (r: bool)
    requires
        old(b).wf(),
        !is_head_content_name(t@.name),
        in_body_start_ok(old(b)@, t@),
        old(b).dom@.len() + old(b).active_formatting@.len() + 2 < usize::MAX,
    ensures
        final(b).wf(),
        (final(b)@, r) == in_body_start(old(b)@, t@),
{
    let n = &t.name;
    let block: [&str; 25] = [
        "address", "article", "aside", "blockquote", "center", "details", "dialog", "dir", "div", "dl",
        "fieldset", "figcaption", "figure", "footer", "header", "hgroup", "main", "menu", "nav", "ol", "p",
        "search", "section", "summary", "ul",
    ];
    assert(block@ =~= block_start_names());
    if str_is(n, "html") {
        return true;
    }
    if str_is(n, "body") {
        if can_extend_body(b) {
            let e = b.open_elements[1];
            assert(element_name(b.dom@, e as int) is Some);
            b.frameset_ok = false;
            merge_attributes(b, e, t);
        }
        return true;
    }
    if str_is(n, "frameset") {
        if can_replace_body(b) {
            replace_body_with_frameset(b, t);
        }
        return true;
    }
    if name_in(&block, n) {
        close_p_if(b);
        b.insert_html_element(t);
        return true;
    }
    if heading(n) {
        close_p_if(b);
        let ghost mid = b@;
        match b.current_node() {
            Some(cur) => {
                let is_h = match b.dom.element_name(cur) {
                    Some(m) => heading(m),
                    None => false,
                };
                if is_h {
                    b.pop();
                }
                assert(b@ == bv_heading_popped(mid));
            },
            None => {},
        }
        b.insert_html_element(t);
        return true;
    }
    if str_is(n, "pre") || str_is(n, "listing") {
        close_p_if(b);
        b.insert_html_element(t);
        b.frameset_ok = false;
        return true;
    }
    if str_is(n, "li") {
        b.frameset_ok = false;
        let targets: [&str; 1] = ["li"];
        proof {
            reveal_strlit("li");
            assert(str_views(targets@) =~= list_targets(n@));
        }
        close_list_item(b, &targets);
        close_p_if(b);
        b.insert_html_element(t);
        return true;
    }
    if str_is(n, "dd") || str_is(n, "dt") {
        b.frameset_ok = false;
        let targets: [&str; 2] = ["dd", "dt"];
        proof {
            reveal_strlit("li");
            reveal_strlit("dd");
            reveal_strlit("dt");
            assert(str_views(targets@) =~= list_targets(n@));
        }
        close_list_item(b, &targets);
        close_p_if(b);
        b.insert_html_element(t);
        return true;
    }
    if str_is(n, "plaintext") {
        close_p_if(b);
        b.insert_html_element(t);
        b.tokenizer_state = Some(ParserState::PLAINTEXT);
        return true;
    }
    if str_is(n, "button") {
        if b.has_element_in_default_scope("button") {
            b.generate_implied_end_tags(None);
            b.pop_until("button");
        }
        proof {
            assert(element_name(b.dom@, b.open_elements@[b.open_elements@.len() - 1] as int) is Some);
            lemma_reconstruct_sizes(b@);
        }
        b.reconstruct_active_formatting_elements();
        b.insert_html_element(t);
        b.frameset_ok = false;
        return true;
    }
    if str_is(n, "a") {
        if a_is_active(b) {
            proof {
                lemma_adopt_sizes(b@, "a"@);
            }
            b.adoption_agency(t);
        }
        insert_formatting(b, t);
        return true;
    }
    insert_formatting(b, t);
    true
}

/// The in-body mode on an end tag other than `template`.
fn body_end_tag(b: &mut TreeBuilder, t: &Tag) -> (r: bool)
    requires
        old(b).wf(),
        t@.name != "template"@,
        in_body_end_ok(old(b)@, t@),
        old(b).dom@.len() < usize::MAX,
    ensures
        final(b).wf(),
        (final(b)@, r) == in_body_end(old(b)@, t@),
{
    let n = &t.name;
    let block: [&str; 28] = [
        "address", "article", "aside", "blockquote", "button", "center", "details", "dialog", "dir", "div",
        "dl", "fieldset", "figcaption", "figure", "footer", "header", "hgroup", "listing", "main", "menu",
        "nav", "ol", "pre", "search", "section", "select", "summary", "ul",
    ];
    assert(block@ =~= block_end_names());
    if str_is(n, "body") {
        b.mode = InsertMode::AfterBody;
        return true;
    }
    if str_is(n, "html") {
        b.mode = InsertMode::AfterBody;
        return false;
    }
    if name_in(&block, n) || heading(n) {
        if b.has_element_in_default_scope(n.as_str()) {
            b.generate_implied_end_tags(None);
            b.pop_until(n.as_str());
        }
        return true;
    }
    if str_is(n, "p") {
        if !b.has_element_in_button_scope("p") {
            let p = Tag::new(&"p".to_owned());
            proof {
                reveal_strlit("p");
            }
            b.insert_html_element(&p);
        }
        b.close_p_tag();
        return true;
    }
    if str_is(n, "li") {
        if b.has_element_in_list_item_scope("li") {
            b.generate_implied_end_tags(Some("li"));
            b.pop_until("li");
        }
        return true;
    }
    if str_is(n, "dd") || str_is(n, "dt") {
        if b.has_element_in_default_scope(n.as_str()) {
            b.generate_implied_end_tags(Some(n.as_str()));
            b.pop_until(n.as_str());
        }
        return true;
    }
    b.adoption_agency(t);
    true
}

/// The tokens and builders on which the insertion mode `mode` completes.
pub open spec fn handle_ok(mode: InsertMode, b: TreeBuilder, token: Token) -> bool {
    match mode {
        InsertMode::Initial => initial_ok(b, token),
        InsertMode::BeforeHTML => before_html_ok(b, token),
        InsertMode::BeforeHead => before_head_ok(b, token),
        InsertMode::InHead => in_head_ok(b, token),
        InsertMode::InHeadNoScript => in_head_noscript_ok(b, token),
        InsertMode::AfterHead => after_head_ok(b, token),
        InsertMode::InBody => b.dom@.len() + b.active_formatting@.len() + 2 < usize::MAX && in_body_ok(b@, token),
        InsertMode::Text => text_ok(b, token),
        _ => true,
    }
}

/// What the insertion mode `mode` does with `token`: `new_b` and `r` after
/// it from `old_b`. The modes that are not built yet use the token up and
/// change nothing.
pub open spec fn handle_step(mode: InsertMode, old_b: TreeBuilder, token: Token, new_b: TreeBuilder, r: bool) -> bool {
    match mode {
        InsertMode::Initial => initial_step(old_b, token, new_b, r),
        InsertMode::BeforeHTML => before_html_step(old_b, token, new_b, r),
        InsertMode::BeforeHead => before_head_step(old_b, token, new_b, r),
        InsertMode::InHead => in_head_step(old_b, token, new_b, r),
        InsertMode::InHeadNoScript => in_head_noscript_step(old_b, token, new_b, r),
        InsertMode::AfterHead => after_head_step(old_b, token, new_b, r),
        InsertMode::InBody => in_body_step(old_b, token, new_b, r),
        InsertMode::Text => text_step(old_b, token, new_b, r),
        _ => r && new_b@ == old_b@,
    }
}

impl InsertMode {
    /// The in-body insertion mode. `true` where the token was used up,
    /// `false` where it is to be handled again in the new mode.
    pub fn handle_in_body(b: &mut TreeBuilder, token: Token) -> (r: bool)
        requires
            old(b).wf(),
            old(b).dom@.len() + old(b).active_formatting@.len() + 2 < usize::MAX,
            in_body_ok(old(b)@, token),
        ensures
            final(b).wf(),
            in_body_step(*old(b), token, *final(b), r),
    {
        match token {
            Token::Character(c) => {
                body_character(b, c);
                true
            },
            Token::Comment(data) => {
                b.insert_comment(data.as_str(), None);
                true
            },
            Token::DOCTYPE(_) => true,
            Token::StartTag(t) => {
                if head_content_name(&t.name) {
                    proof {
                        reveal_strlit("template");
                        reveal_strlit("base");
                        reveal_strlit("basefont");
                        reveal_strlit("bgsound");
                        reveal_strlit("link");
                        reveal_strlit("meta");
                        reveal_strlit("title");
                        reveal_strlit("noscript");
                        reveal_strlit("noframes");
                        reveal_strlit("style");
                        reveal_strlit("script");
                    }
                    proof {
                        assert("template"@[1] == 'e' && "title"@[1] == 'i');
                        assert("template"@[0] == 't' && "basefont"@[0] == 'b');
                        assert("noframes"@[0] == 'n' && "noscript"@[0] == 'n');
                    }
                    InsertMode::handle_in_head(b, Token::StartTag(t));
                    return true;
                }
                body_start_tag(b, &t)
            },
            Token::EndTag(t) => {
                if str_is(&t.name, "template") {
                    InsertMode::handle_in_head(b, Token::EndTag(t));
                    return true;
                }
                body_end_tag(b, &t)
            },
            Token::EOF => true,
        }
    }

    /// Hands `token` to the rules of this insertion mode. `true` where the
    /// token was used up, `false` where it is to be handled again in the
    /// mode that the builder is now in.
    pub fn handle(&self, b: &mut TreeBuilder, token: Token) -> (r: bool)
        requires
            old(b).wf(),
            handle_ok(*self, *old(b), token),
        ensures
            final(b).wf(),
            handle_step(*self, *old(b), token, *final(b), r),
    {
        match self {
            InsertMode::Initial => InsertMode::handle_initial(b, token),
            InsertMode::BeforeHTML => InsertMode::handle_before_html(b, token),
            InsertMode::BeforeHead => InsertMode::handle_before_head(b, token),
            InsertMode::InHead => InsertMode::handle_in_head(b, token),
            InsertMode::InHeadNoScript => InsertMode::handle_in_head_noscript(b, token),
            InsertMode::AfterHead => InsertMode::handle_after_head(b, token),
            InsertMode::InBody => InsertMode::handle_in_body(b, token),
            InsertMode::Text => InsertMode::handle_text(b, token),
            _ => true,
        }
    }
}

} // verus!
