//! The tokenizer's preprocessing, classes, streams and tokens.
use harbor::html5::dom::NodeType;
use harbor::html5::parse::{
    is_ascii_whitespace, is_c0_control, is_control, is_noncharacter, map_character_reference, preprocess_input,
    InputStream, Tag, TagToken, DOCTYPE,
};
use harbor::html5::tokenize;

#[test]
fn newlines_are_normalized() {
    assert_eq!(preprocess_input(&String::from("a\r\nb\rc\n")), "a\nb\nc\n");
    assert_eq!(preprocess_input(&String::from("\r\r\n")), "\n\n");
    assert_eq!(preprocess_input(&String::new()), "");
}

#[test]
fn code_point_classes() {
    assert!(is_noncharacter(0xFDD0));
    assert!(is_noncharacter(0xFFFE));
    assert!(is_noncharacter(0x10FFFF));
    assert!(!is_noncharacter(0xFFFD));
    assert!(!is_noncharacter(0x11FFFE));
    assert!(is_c0_control(0x1F));
    assert!(!is_c0_control(0x20));
    assert!(is_control(0x7F));
    assert!(is_control(0x9F));
    assert!(!is_control(0xA0));
    assert!(is_ascii_whitespace('\u{000C}'));
    assert!(!is_ascii_whitespace('\r'));
}

#[test]
fn numeric_references_in_the_c1_range() {
    assert_eq!(map_character_reference(0x80), 0x20AC);
    assert_eq!(map_character_reference(0x9F), 0x0178);
    assert_eq!(map_character_reference(0x81), 0x81);
    assert_eq!(map_character_reference(0x41), 0x41);
}

#[test]
fn stream_gives_the_first_code_point_first() {
    let mut s = InputStream::new(String::from("ab"));
    assert_eq!(s.consume(), Some('a'));
    assert_eq!(s.consume(), Some('b'));
    s.reconsume();
    assert_eq!(s.consume(), Some('b'));
    assert_eq!(s.consume(), None);
    assert!(s.is_eof);
}

#[test]
fn stream_of_one_code_point_ends_at_once() {
    let mut s = InputStream::new(String::from("a"));
    assert_eq!(s.consume(), None);
    assert_eq!(s.current(), 'a');
}

#[test]
fn stream_matches_a_window() {
    let s = InputStream::new(String::from("aBcd"));
    assert!(s.matches("aB", None, None));
    assert!(!s.matches("ab", None, None));
    assert!(s.matches("ab", Some(false), None));
    assert!(s.matches("Bc", None, Some(true)));
}

#[test]
fn standalone_stream_moves_before_it_reads() {
    let mut s = tokenize::InputStream::new(String::from("abc"));
    assert_eq!(s.consume(), Some('b'));
    s.reconsume();
    assert_eq!(s.consume(), Some('b'));
    assert_eq!(s.current(), 'b');
    assert!(!s.matches("b", None));
}

#[test]
fn tag_attributes() {
    let t = Tag::new(&String::from("div"));
    let mut tok = TagToken::Start(t);
    tok.new_tag_attr(None);
    tok.push_to_attr_name('i');
    tok.push_to_attr_name('d');
    tok.push_to_attr_val('x');
    assert_eq!(tok.current_attr(), (String::from("id"), String::from("x")));
    tok.new_tag_attr(Some((String::from("class"), String::from("c"))));
    tok.set_self_closing();
    match tok {
        TagToken::Start(t) => {
            assert!(t.is_self_closing);
            assert_eq!(t.name, "div");
            assert_eq!(t.attribute_names(), vec![String::from("id"), String::from("class")]);
            assert_eq!(t.attribute_names_iter().len(), 2);
        },
        TagToken::End(_) => panic!("the token stays a start tag"),
    }
    let e = Tag::empty();
    assert_eq!(e.name, "");
    assert!(e.attributes.is_empty());
}

#[test]
fn doctype_names() {
    let d = DOCTYPE::default();
    let named = d.with_name(String::from("html"));
    assert_eq!(named.name, Some(String::from("html")));
    assert_eq!(named.public_identifier, None);
    let empty = named.with_empty_name();
    assert_eq!(empty.name, Some(String::new()));
    let mut q = empty.clone();
    q.set_quirks();
    assert_ne!(q, empty);
    let mut old = tokenize::DOCTYPE::default();
    old.set_quirks();
}

#[test]
fn node_type_numbers() {
    assert_eq!(NodeType::Element.code(), 1);
    assert_eq!(NodeType::Text.code(), 3);
    assert_eq!(NodeType::Notation.code(), 12);
}
