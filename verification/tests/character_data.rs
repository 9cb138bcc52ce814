//! Character data, with offsets and counts in UTF-8 bytes.
use harbor::html5::dom::{Attr, CharacterData, Comment, DocumentType, Text};

fn data(text: &str) -> CharacterData {
    CharacterData { data: String::from(text) }
}

#[test]
fn length_counts_bytes() {
    assert_eq!(data("").length(), 0);
    assert_eq!(data("hello").length(), 5);
    assert_eq!(data("h\u{e9}llo").length(), 6);
}

#[test]
fn substrings_are_cut_at_the_end() {
    let d = data("h\u{e9}llo");
    assert_eq!(d.substring_data(1, 2), "\u{e9}");
    assert_eq!(d.substring_data(3, 100), "llo");
    assert_eq!(d.substring_data(6, 1), "");
    assert_eq!(d.substring_data(0, 0), "");
}

#[test]
fn appending() {
    let mut d = data("ab");
    d.append_ch('c');
    d.append_data("d\u{e9}");
    assert_eq!(d.data, "abcd\u{e9}");
}

#[test]
fn inserting() {
    let mut d = data("ab");
    d.insert_data(0, "x");
    assert_eq!(d.data, "xab");
    d.insert_data(3, "\u{e9}");
    assert_eq!(d.data, "xab\u{e9}");
    d.insert_data(1, "-");
    assert_eq!(d.data, "x-ab\u{e9}");
    // An offset past the end changes nothing.
    d.insert_data(100, "y");
    assert_eq!(d.data, "x-ab\u{e9}");
}

#[test]
fn deleting() {
    let mut d = data("h\u{e9}llo");
    d.delete_data(1, 2);
    assert_eq!(d.data, "hllo");
    d.delete_data(2, 100);
    assert_eq!(d.data, "hl");
    // An empty range changes nothing.
    d.delete_data(10, 1);
    d.delete_data(1, 0);
    assert_eq!(d.data, "hl");
}

#[test]
fn replacing() {
    let mut d = data("h\u{e9}llo");
    d.replace_data(1, 2, "e");
    assert_eq!(d.data, "hello");
    d.replace_data(4, 10, "\u{f6}!");
    assert_eq!(d.data, "hell\u{f6}!");
    d.replace_data(7, 1, "x");
    assert_eq!(d.data, "hell\u{f6}!");
}

#[test]
fn split_text_keeps_the_head() {
    let mut t = Text::new("h\u{e9}llo");
    let rest = t.split_text(3);
    assert_eq!(t.character_data.data, "h\u{e9}");
    assert_eq!(rest.character_data.data, "llo");
    t.push('!');
    assert_eq!(t.character_data.data, "h\u{e9}!");
    let c = Comment::new("note");
    assert_eq!(c.character_data.data, "note");
}

#[test]
fn document_type_identifiers() {
    let d = DocumentType::new("html")
        .with_public_id("-//W3C//DTD HTML 4.01//EN")
        .with_system_id("http://www.w3.org/TR/html4/strict.dtd");
    assert_eq!(d.name(), "html");
    assert_eq!(d.public_id(), "-//W3C//DTD HTML 4.01//EN");
    assert_eq!(d.system_id(), "http://www.w3.org/TR/html4/strict.dtd");
    let e = DocumentType::new("x");
    assert_eq!(e.public_id(), "");
    assert_eq!(e.system_id(), "");
}

#[test]
fn attribute_parts() {
    let mut a = Attr::new(
        Some(String::from("http://www.w3.org/1999/xhtml")),
        None,
        String::from("class"),
        String::from("a"),
    );
    assert_eq!(a.namespace_uri(), Some("http://www.w3.org/1999/xhtml"));
    assert_eq!(a.prefix(), None);
    assert_eq!(a.local_name(), "class");
    assert_eq!(a.value(), "a");
    a.set_value("b");
    assert_eq!(a.value(), "b");
    assert!(a.specified());
}
