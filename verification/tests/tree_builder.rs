//! The document tree, the open elements and the active formatting elements.
use harbor::html5::parse::{InsertMode, Tag, TagToken, Token, DOCTYPE};
use harbor::html5::tree_builder::{NodeKind, TreeBuilder};

fn tag(name: &str) -> Tag {
    Tag::new(&String::from(name))
}

fn element_name(b: &TreeBuilder, i: usize) -> String {
    match &b.dom.node(i).kind {
        NodeKind::Element { name, .. } => name.clone(),
        _ => String::from("?"),
    }
}

fn open_names(b: &TreeBuilder) -> Vec<String> {
    b.open_elements.iter().map(|i| element_name(b, *i)).collect()
}

fn html_body(b: &mut TreeBuilder) {
    b.insert_root_element(&tag("html"));
    b.insert_html_element(&tag("body"));
}

#[test]
fn elements_and_characters_build_the_tree() {
    let mut b = TreeBuilder::new();
    html_body(&mut b);
    let p = b.insert_html_element(&tag("p"));
    b.insert_character('a');
    b.insert_character('b');
    b.insert_comment("note", None);
    b.insert_character('c');
    assert_eq!(b.dom.len(), 7);
    let kids = &b.dom.node(p).children;
    assert_eq!(kids.len(), 3);
    assert!(matches!(&b.dom.node(kids[0]).kind, NodeKind::Text(s) if s == "ab"));
    assert!(matches!(&b.dom.node(kids[1]).kind, NodeKind::Comment(s) if s == "note"));
    assert!(matches!(&b.dom.node(kids[2]).kind, NodeKind::Text(s) if s == "c"));
    assert_eq!(b.dom.node(kids[0]).parent, Some(p));
    assert_eq!(b.current_node(), Some(p));
    assert_eq!(open_names(&b), vec!["html", "body", "p"]);
}

#[test]
fn scopes() {
    let mut b = TreeBuilder::new();
    html_body(&mut b);
    b.insert_html_element(&tag("p"));
    assert!(b.has_element_in_button_scope("p"));
    assert!(b.has_element_in_default_scope("body"));
    assert!(!b.has_element_in_default_scope("div"));
    b.insert_html_element(&tag("button"));
    assert!(!b.has_element_in_button_scope("p"));
    assert!(b.has_element_in_default_scope("p"));
    b.insert_html_element(&tag("table"));
    assert!(!b.has_element_in_default_scope("p"));
    assert!(b.has_element_in_specific_scope("p", &["td"]));
    assert!(b.contains_tag("button"));
    assert!(!b.contains_tag("ul"));
    assert!(b.has_non_special_element_in_scope());
}

#[test]
fn list_item_scope() {
    let mut b = TreeBuilder::new();
    html_body(&mut b);
    b.insert_html_element(&tag("li"));
    b.insert_html_element(&tag("ul"));
    assert!(!b.has_element_in_list_item_scope("li"));
    b.pop();
    assert!(b.has_element_in_list_item_scope("li"));
}

#[test]
fn closing_a_p_element() {
    let mut b = TreeBuilder::new();
    html_body(&mut b);
    b.insert_html_element(&tag("p"));
    b.insert_html_element(&tag("span"));
    b.insert_html_element(&tag("li"));
    b.insert_html_element(&tag("dd"));
    b.generate_implied_end_tags(Some("li"));
    assert_eq!(open_names(&b), vec!["html", "body", "p", "span", "li"]);
    b.close_p_tag();
    assert_eq!(open_names(&b), vec!["html", "body"]);
    // Without a p, everything is popped.
    b.pop_until("p");
    assert!(b.open_elements.is_empty());
}

#[test]
fn noahs_ark_keeps_three() {
    let mut b = TreeBuilder::new();
    html_body(&mut b);
    let mut made = Vec::new();
    for _ in 0..5 {
        let e = b.insert_html_element(&tag("b"));
        made.push(e);
        b.push_active_formatting(e);
    }
    assert_eq!(b.active_formatting, vec![Some(made[1]), Some(made[2]), Some(made[3]), Some(made[4])]);
    assert_eq!(b.last_marker(), None);
    b.active_formatting.push(None);
    assert_eq!(b.last_marker(), Some(4));
    let i = b.insert_html_element(&tag("i"));
    b.push_active_formatting(i);
    assert_eq!(b.active_formatting.len(), 6);
}

#[test]
fn attributes_are_built_one_code_point_at_a_time() {
    let mut t = TagToken::Start(tag("a"));
    t.new_tag_attr(None);
    for c in "href".chars() {
        t.push_to_attr_name(c);
    }
    for c in "x.html".chars() {
        t.push_to_attr_val(c);
    }
    assert_eq!(t.current_attr(), (String::from("href"), String::from("x.html")));
}

#[test]
fn the_first_insertion_modes() {
    let mut b = TreeBuilder::new();
    assert!(InsertMode::handle_initial(&mut b, Token::Character('\n')));
    assert!(matches!(b.mode, InsertMode::Initial));
    let doctype = DOCTYPE::default().with_name(String::from("html"));
    assert!(InsertMode::handle_initial(&mut b, Token::DOCTYPE(doctype)));
    assert!(matches!(b.mode, InsertMode::BeforeHTML));
    assert!(matches!(&b.dom.node(1).kind, NodeKind::DocumentType { name, .. } if name == "html"));
    // A character is not used up: the root comes first.
    assert!(!InsertMode::handle_before_html(&mut b, Token::Character('x')));
    assert!(matches!(b.mode, InsertMode::BeforeHead));
    assert_eq!(open_names(&b), vec!["html"]);
    assert!(InsertMode::handle_before_head(&mut b, Token::Comment(String::from("c"))));
    assert!(InsertMode::handle_before_head(&mut b, Token::StartTag(tag("head"))));
    assert!(matches!(b.mode, InsertMode::InHead));
    assert_eq!(b.head, Some(4));
    assert_eq!(open_names(&b), vec!["html", "head"]);
    assert_eq!(b.dom.node(2).children, vec![3, 4]);
}

#[test]
fn before_html_with_an_html_start_tag() {
    let mut b = TreeBuilder::new();
    assert!(!InsertMode::handle_initial(&mut b, Token::StartTag(tag("html"))));
    assert!(InsertMode::handle_before_html(&mut b, Token::StartTag(tag("html"))));
    // An end tag other than head, body, html or br is ignored.
    assert!(InsertMode::handle_before_head(&mut b, Token::EndTag(tag("p"))));
    assert!(!InsertMode::handle_before_head(&mut b, Token::EndTag(tag("br"))));
    assert_eq!(open_names(&b), vec!["html", "head"]);
}

fn up_to_head() -> TreeBuilder {
    let mut b = TreeBuilder::new();
    assert!(InsertMode::handle_before_html(&mut b, Token::StartTag(tag("html"))));
    assert!(InsertMode::handle_before_head(&mut b, Token::StartTag(tag("head"))));
    b
}

#[test]
fn the_head_and_after_it() {
    let mut b = up_to_head();
    assert!(InsertMode::handle_in_head(&mut b, Token::StartTag(tag("meta"))));
    assert_eq!(open_names(&b), vec!["html", "head"]);
    assert!(InsertMode::handle_in_head(&mut b, Token::StartTag(tag("title"))));
    assert!(matches!(b.mode, InsertMode::Text));
    assert!(matches!(b.original_mode, Some(InsertMode::InHead)));
    assert_eq!(open_names(&b), vec!["html", "head", "title"]);
    assert!(b.tokenizer_state.is_some());
    // Leave the title as the text mode would.
    b.pop();
    b.mode = InsertMode::InHead;
    assert!(InsertMode::handle_in_head(&mut b, Token::EndTag(tag("head"))));
    assert!(matches!(b.mode, InsertMode::AfterHead));
    assert_eq!(open_names(&b), vec!["html"]);
    assert!(InsertMode::handle_after_head(&mut b, Token::Character(' ')));
    assert!(!InsertMode::handle_after_head(&mut b, Token::Character('x')));
    assert!(matches!(b.mode, InsertMode::InBody));
    assert!(b.frameset_ok);
    assert_eq!(open_names(&b), vec!["html", "body"]);
    let html = b.open_elements[0];
    let kids = b.dom.node(html).children.clone();
    assert_eq!(kids.len(), 3);
    assert!(matches!(&b.dom.node(kids[1]).kind, NodeKind::Text(s) if s == " "));
}

#[test]
fn a_body_start_tag_forbids_a_frameset() {
    let mut b = up_to_head();
    assert!(!InsertMode::handle_in_head(&mut b, Token::StartTag(tag("body"))));
    assert!(matches!(b.mode, InsertMode::AfterHead));
    assert!(InsertMode::handle_after_head(&mut b, Token::StartTag(tag("body"))));
    assert!(!b.frameset_ok);
    assert!(matches!(b.mode, InsertMode::InBody));
}

#[test]
fn noscript_in_the_head() {
    let mut b = up_to_head();
    assert!(InsertMode::handle_in_head(&mut b, Token::StartTag(tag("noscript"))));
    assert!(matches!(b.mode, InsertMode::InHeadNoScript));
    assert!(InsertMode::handle_in_head_noscript(&mut b, Token::StartTag(tag("link"))));
    assert_eq!(open_names(&b), vec!["html", "head", "noscript"]);
    assert!(InsertMode::handle_in_head_noscript(&mut b, Token::EndTag(tag("noscript"))));
    assert!(matches!(b.mode, InsertMode::InHead));
    assert_eq!(open_names(&b), vec!["html", "head"]);
}

#[test]
fn reconstructing_the_active_formatting_elements() {
    let mut b = TreeBuilder::new();
    html_body(&mut b);
    let first = b.insert_html_element(&tag("b"));
    b.push_active_formatting(first);
    let second = b.insert_html_element(&tag("i"));
    b.push_active_formatting(second);
    // Nothing to do while both are open.
    b.reconstruct_active_formatting_elements();
    assert_eq!(b.dom.len(), 5);
    b.pop();
    b.pop();
    b.insert_html_element(&tag("p"));
    b.reconstruct_active_formatting_elements();
    assert_eq!(open_names(&b), vec!["html", "body", "p", "b", "i"]);
    assert_eq!(b.active_formatting, vec![Some(6), Some(7)]);
    assert_eq!(b.dom.node(5).children, vec![6]);
    assert_eq!(b.dom.node(6).children, vec![7]);
    // After a marker, only the entries after it are recreated.
    b.active_formatting.push(None);
    let u = b.insert_html_element(&tag("u"));
    b.push_active_formatting(u);
    b.pop();
    b.reconstruct_active_formatting_elements();
    assert_eq!(open_names(&b), vec!["html", "body", "p", "b", "i", "u"]);
}

#[test]
fn the_text_mode_returns_to_where_it_was() {
    let mut b = up_to_head();
    assert!(InsertMode::handle_in_head(&mut b, Token::StartTag(tag("style"))));
    assert!(InsertMode::handle_text(&mut b, Token::Character('a')));
    assert!(InsertMode::handle_text(&mut b, Token::EndTag(tag("style"))));
    assert!(matches!(b.mode, InsertMode::InHead));
    assert_eq!(open_names(&b), vec!["html", "head"]);
    assert!(InsertMode::handle_in_head(&mut b, Token::StartTag(tag("title"))));
    assert!(!InsertMode::handle_text(&mut b, Token::EOF));
    assert!(matches!(b.mode, InsertMode::InHead));
}

fn in_body(b: &mut TreeBuilder, token: Token) -> bool {
    InsertMode::handle_in_body(b, token)
}

fn text_of(b: &TreeBuilder, i: usize) -> String {
    match &b.dom.node(i).kind {
        NodeKind::Text(s) => s.clone(),
        _ => String::from("?"),
    }
}

#[test]
fn in_body_blocks_close_an_open_paragraph() {
    let mut b = TreeBuilder::new();
    html_body(&mut b);
    assert!(in_body(&mut b, Token::StartTag(tag("p"))));
    assert!(in_body(&mut b, Token::Character('x')));
    assert!(!b.frameset_ok);
    assert!(in_body(&mut b, Token::StartTag(tag("div"))));
    assert_eq!(open_names(&b), vec!["html", "body", "div"]);
    assert!(in_body(&mut b, Token::EndTag(tag("div"))));
    assert_eq!(open_names(&b), vec!["html", "body"]);
    // An end tag whose element is not in scope changes nothing.
    assert!(in_body(&mut b, Token::EndTag(tag("section"))));
    assert_eq!(open_names(&b), vec!["html", "body"]);
    let body = b.open_elements[1];
    let kids = b.dom.node(body).children.clone();
    assert_eq!(kids.len(), 2);
    assert_eq!(element_name(&b, kids[0]), "p");
    assert_eq!(text_of(&b, b.dom.node(kids[0]).children[0]), "x");
    assert_eq!(element_name(&b, kids[1]), "div");
}

#[test]
fn in_body_white_space_keeps_the_frameset_flag() {
    let mut b = TreeBuilder::new();
    html_body(&mut b);
    assert!(in_body(&mut b, Token::Character(' ')));
    assert!(in_body(&mut b, Token::Character('\0')));
    assert!(b.frameset_ok);
    assert!(in_body(&mut b, Token::Comment(String::from("c"))));
    assert!(in_body(&mut b, Token::DOCTYPE(DOCTYPE::default())));
    assert_eq!(b.dom.node(b.open_elements[1]).children.len(), 2);
}

#[test]
fn in_body_headings_and_end_p() {
    let mut b = TreeBuilder::new();
    html_body(&mut b);
    assert!(in_body(&mut b, Token::StartTag(tag("h1"))));
    assert!(in_body(&mut b, Token::StartTag(tag("h2"))));
    assert_eq!(open_names(&b), vec!["html", "body", "h2"]);
    assert!(in_body(&mut b, Token::EndTag(tag("h2"))));
    assert_eq!(open_names(&b), vec!["html", "body"]);
    // An end p without an open p makes an empty paragraph.
    assert!(in_body(&mut b, Token::EndTag(tag("p"))));
    assert_eq!(open_names(&b), vec!["html", "body"]);
    let kids = b.dom.node(b.open_elements[1]).children.clone();
    assert_eq!(element_name(&b, kids[kids.len() - 1]), "p");
}

#[test]
fn in_body_list_items_close_each_other() {
    let mut b = TreeBuilder::new();
    html_body(&mut b);
    assert!(in_body(&mut b, Token::StartTag(tag("ul"))));
    assert!(in_body(&mut b, Token::StartTag(tag("li"))));
    assert!(in_body(&mut b, Token::Character('a')));
    assert!(in_body(&mut b, Token::StartTag(tag("li"))));
    assert_eq!(open_names(&b), vec!["html", "body", "ul", "li"]);
    assert!(in_body(&mut b, Token::EndTag(tag("li"))));
    assert_eq!(open_names(&b), vec!["html", "body", "ul"]);
    assert!(in_body(&mut b, Token::StartTag(tag("dl"))));
    assert!(in_body(&mut b, Token::StartTag(tag("dt"))));
    assert!(in_body(&mut b, Token::StartTag(tag("dd"))));
    assert_eq!(open_names(&b), vec!["html", "body", "ul", "dl", "dd"]);
    assert!(in_body(&mut b, Token::EndTag(tag("dd"))));
    assert_eq!(open_names(&b), vec!["html", "body", "ul", "dl"]);
}

#[test]
fn in_body_button_and_plaintext() {
    let mut b = TreeBuilder::new();
    html_body(&mut b);
    assert!(in_body(&mut b, Token::StartTag(tag("button"))));
    assert!(in_body(&mut b, Token::StartTag(tag("button"))));
    assert_eq!(open_names(&b), vec!["html", "body", "button"]);
    assert!(!b.frameset_ok);
    assert!(in_body(&mut b, Token::StartTag(tag("plaintext"))));
    assert_eq!(open_names(&b), vec!["html", "body", "button", "plaintext"]);
    assert!(b.tokenizer_state.is_some());
}

#[test]
fn in_body_formatting_and_adoption() {
    let mut b = TreeBuilder::new();
    html_body(&mut b);
    assert!(in_body(&mut b, Token::StartTag(tag("b"))));
    assert!(in_body(&mut b, Token::Character('y')));
    assert_eq!(b.active_formatting.len(), 1);
    assert!(in_body(&mut b, Token::EndTag(tag("b"))));
    assert_eq!(open_names(&b), vec!["html", "body"]);
    assert!(b.active_formatting.is_empty());
    // A second `a` start tag ends the first one.
    assert!(in_body(&mut b, Token::StartTag(tag("a"))));
    assert!(in_body(&mut b, Token::StartTag(tag("a"))));
    assert_eq!(open_names(&b), vec!["html", "body", "a"]);
    assert_eq!(b.active_formatting.len(), 1);
    assert_eq!(b.active_formatting[0], Some(b.open_elements[2]));
    // An end tag with no active element of its name changes nothing.
    assert!(in_body(&mut b, Token::EndTag(tag("i"))));
    assert_eq!(open_names(&b), vec!["html", "body", "a"]);
}

#[test]
fn adoption_agency_closes_a_formatting_element_out_of_order() {
    let mut b = TreeBuilder::new();
    html_body(&mut b);
    let bold = b.insert_html_element(&tag("b"));
    b.push_active_formatting(bold);
    b.insert_html_element(&tag("span"));
    b.adoption_agency(&tag("b"));
    assert_eq!(open_names(&b), vec!["html", "body"]);
    assert!(b.active_formatting.is_empty());
    // A current node of the subject's name that is not an active
    // formatting element is just popped.
    b.insert_html_element(&tag("em"));
    b.adoption_agency(&tag("em"));
    assert_eq!(open_names(&b), vec!["html", "body"]);
}

#[test]
fn in_body_body_start_tag_adds_missing_attributes() {
    let mut b = TreeBuilder::new();
    b.insert_root_element(&tag("html"));
    let mut body = tag("body");
    body.attributes.push((String::from("class"), String::from("a")));
    b.insert_html_element(&body);
    let mut again = tag("body");
    again.attributes.push((String::from("class"), String::from("b")));
    again.attributes.push((String::from("id"), String::from("x")));
    again.attributes.push((String::from("id"), String::from("y")));
    assert!(in_body(&mut b, Token::StartTag(again)));
    assert!(!b.frameset_ok);
    match &b.dom.node(b.open_elements[1]).kind {
        NodeKind::Element { attributes, .. } => assert_eq!(
            attributes,
            &vec![
                (String::from("class"), String::from("a")),
                (String::from("id"), String::from("x")),
            ]
        ),
        _ => panic!("not an element"),
    }
}

#[test]
fn in_body_frameset_replaces_the_body() {
    let mut b = TreeBuilder::new();
    html_body(&mut b);
    let html = b.open_elements[0];
    assert!(in_body(&mut b, Token::StartTag(tag("frameset"))));
    assert!(matches!(b.mode, InsertMode::InFrameset));
    assert_eq!(open_names(&b), vec!["html", "frameset"]);
    let kids = b.dom.node(html).children.clone();
    assert_eq!(kids.len(), 1);
    assert_eq!(element_name(&b, kids[0]), "frameset");
    // Once the flag is cleared a frameset start tag is ignored.
    let mut c = TreeBuilder::new();
    html_body(&mut c);
    assert!(in_body(&mut c, Token::Character('x')));
    assert!(in_body(&mut c, Token::StartTag(tag("frameset"))));
    assert_eq!(open_names(&c), vec!["html", "body"]);
}

#[test]
fn in_body_end_body_and_html() {
    let mut b = TreeBuilder::new();
    html_body(&mut b);
    assert!(in_body(&mut b, Token::EndTag(tag("body"))));
    assert!(matches!(b.mode, InsertMode::AfterBody));
    let mut c = TreeBuilder::new();
    html_body(&mut c);
    assert!(!in_body(&mut c, Token::EndTag(tag("html"))));
    assert!(matches!(c.mode, InsertMode::AfterBody));
    let mut d = TreeBuilder::new();
    assert!(in_body(&mut d, Token::EOF));
}

fn process(b: &mut TreeBuilder, token: Token) {
    loop {
        let mode = b.mode.clone();
        if mode.handle(b, token.clone()) {
            break;
        }
    }
}

#[test]
fn handing_tokens_to_the_current_mode_builds_a_document() {
    let mut b = TreeBuilder::new();
    let doctype = DOCTYPE::default().with_name(String::from("html"));
    process(&mut b, Token::DOCTYPE(doctype));
    process(&mut b, Token::StartTag(tag("p")));
    process(&mut b, Token::Character('h'));
    process(&mut b, Token::Character('i'));
    process(&mut b, Token::EndTag(tag("p")));
    assert!(matches!(b.mode, InsertMode::InBody));
    assert_eq!(open_names(&b), vec!["html", "body"]);
    let body = b.open_elements[1];
    let p = b.dom.node(body).children[0];
    assert_eq!(element_name(&b, p), "p");
    assert_eq!(text_of(&b, b.dom.node(p).children[0]), "hi");
    // A mode that is not built yet uses the token up and changes nothing.
    let before = b.dom.len();
    assert!(InsertMode::InTable.handle(&mut b, Token::Character('x')));
    assert_eq!(b.dom.len(), before);
}

#[test]
fn node_children_and_parent() {
    let mut b = TreeBuilder::new();
    html_body(&mut b);
    let body = b.open_elements[1];
    let first = b.insert_html_element(&tag("p"));
    b.pop();
    let second = b.insert_html_element(&tag("div"));
    let node = b.dom.node(body);
    assert!(node.has_child_nodes());
    assert_eq!(node.child_nodes(), &vec![first, second]);
    assert_eq!(node.first_child(), Some(first));
    assert_eq!(node.last_child(), Some(second));
    assert_eq!(node.position_of_child(second), Some(1));
    assert_eq!(node.position_of_child(body), None);
    assert_eq!(b.dom.node(second).parent_node(), Some(body));
    assert!(!b.dom.node(second).has_child_nodes());
    assert_eq!(b.dom.node(second).first_child(), None);
    assert_eq!(b.dom.node(0).parent_node(), None);
}

#[test]
fn opening_and_closing_a_block_restores_the_open_elements() {
    let mut b = TreeBuilder::new();
    html_body(&mut b);
    assert!(in_body(&mut b, Token::StartTag(tag("em"))));
    let before = open_names(&b);
    let nodes = b.dom.len();
    assert!(in_body(&mut b, Token::StartTag(tag("section"))));
    assert!(in_body(&mut b, Token::EndTag(tag("section"))));
    assert_eq!(open_names(&b), before);
    assert_eq!(b.dom.len(), nodes + 1);
    assert_eq!(element_name(&b, nodes), "section");
}
