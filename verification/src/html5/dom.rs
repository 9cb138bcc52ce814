//! The plain data types of the DOM.
use vstd::prelude::*;
use crate::http::url::Host;
use crate::text::push_str;
use vstd::utf8::{encode_utf8, is_char_boundary, valid_utf8, is_continuation_byte, encode_utf8_valid_utf8, valid_utf8_split, is_char_boundary_start_end_of_seq, is_char_boundary_iff_not_is_continuation_byte};

verus! {

/// The type of a node.
#[derive(Debug, Clone, Copy, PartialEq, Eq)]
pub enum NodeType {
    Element,
    Attribute,
    Text,
    CDataSection,
    EntityReference,
    Entity,
    ProcessingInstruction,
    Comment,
    Document,
    DocumentType,
    DocumentFragment,
    Notation,
}

/// The number that the DOM standard gives each node type.
pub open spec fn spec_node_type_code(t: NodeType) -> u16 {
    match t {
        NodeType::Element => 1,
        NodeType::Attribute => 2,
        NodeType::Text => 3,
        NodeType::CDataSection => 4,
        NodeType::EntityReference => 5,
        NodeType::Entity => 6,
        NodeType::ProcessingInstruction => 7,
        NodeType::Comment => 8,
        NodeType::Document => 9,
        NodeType::DocumentType => 10,
        NodeType::DocumentFragment => 11,
        NodeType::Notation => 12,
    }
}

impl NodeType {
    /// The number of the node type (`Element` is 1, `Notation` 12).
    pub fn code(&self) -> (r: u16)
        ensures
            r == spec_node_type_code(*self),
    {
        match self {
            NodeType::Element => 1,
            NodeType::Attribute => 2,
            NodeType::Text => 3,
            NodeType::CDataSection => 4,
            NodeType::EntityReference => 5,
            NodeType::Entity => 6,
            NodeType::ProcessingInstruction => 7,
            NodeType::Comment => 8,
            NodeType::Document => 9,
            NodeType::DocumentType => 10,
            NodeType::DocumentFragment => 11,
            NodeType::Notation => 12,
        }
    }
}

/// The definition of a custom element: its name and local name.
#[derive(Debug, Clone, PartialEq, Eq)]
pub struct CustomElementDefinition {
    pub name: String,
    pub local_name: String,
}

/// The kind of an element.
#[derive(Debug, Clone, Copy, PartialEq, Eq)]
pub enum ElementKind {
    Element,
}

/// The origin of a document: opaque, or a tuple of scheme, host, port and
/// domain.
#[derive(Debug, Clone, PartialEq, Eq)]
pub enum Origin {
    Opaque,
    Tuple(String, Host, Option<u16>, Option<String>),
}

/// The DOM implementation of a document.
#[derive(Debug, Clone, PartialEq, Eq)]
pub struct DOMImplementation {}

/// The UTF-8 bytes of a string: the unit in which the offsets and counts of
/// character data are given.
pub open spec fn utf8(s: Seq<char>) -> Seq<u8> {
    encode_utf8(s)
}

/// The end of the range that starts at `offset` and counts `count` bytes,
/// cut at the end of the data.
pub open spec fn range_end(len: int, offset: int, count: int) -> int {
    if offset + count < len {
        offset + count
    } else {
        len
    }
}

/// The bytes of two strings one after the other are the bytes of each.
pub proof fn lemma_utf8_concat(a: Seq<char>, b: Seq<char>)
    ensures
        utf8(a + b) == utf8(a) + utf8(b),
    decreases a.len(),
{
    if a.len() == 0 {
        assert(a + b =~= b);
        assert(utf8(a) + utf8(b) =~= utf8(b));
    } else {
        assert((a + b).drop_first() =~= a.drop_first() + b);
        lemma_utf8_concat(a.drop_first(), b);
        assert(utf8(a + b) =~= utf8(a) + utf8(b));
    }
}

/// A boundary of valid UTF-8 after `i` is a boundary of what follows `i`.
proof fn lemma_boundary_of_suffix(b: Seq<u8>, i: int, j: int)
    requires
        valid_utf8(b),
        is_char_boundary(b, i),
        is_char_boundary(b, j),
        0 <= i <= j <= b.len(),
    ensures
        valid_utf8(b.subrange(i, b.len() as int)),
        is_char_boundary(b.subrange(i, b.len() as int), j - i),
{
    let t = b.subrange(i, b.len() as int);
    valid_utf8_split(b, i);
    is_char_boundary_start_end_of_seq(t);
    if j < b.len() {
        is_char_boundary_iff_not_is_continuation_byte(b, j);
        is_char_boundary_iff_not_is_continuation_byte(t, j - i);
        assert(t[j - i] == b[j]);
    }
}

/// Splits `s` at byte `mid`, a character boundary.
fn split_str(s: &str, mid: usize) -> (r: (&str, &str))
    requires
        is_char_boundary(utf8(s@), mid as int),
    ensures
        utf8(r.0@) == utf8(s@).subrange(0, mid as int),
        utf8(r.1@) == utf8(s@).subrange(mid as int, utf8(s@).len() as int),
{
    s.split_at(mid)
}

/// The text of a text node, comment or processing instruction, with the
/// operations of the DOM's `CharacterData` interface. Offsets and counts
/// are in bytes of the UTF-8 encoding; one that falls inside an encoded
/// code point panics.
pub struct CharacterData {
    pub data: String,
}

impl CharacterData {
    /// The length of the data in bytes.
    pub fn length(&self) -> (r: usize)
        requires
            utf8(self.data@).len() <= usize::MAX,
        ensures
            r == utf8(self.data@).len(),
    {
        self.data.as_str().len()
    }

    /// The bytes from `offset` on, `count` of them or as many as there are.
    pub fn substring_data(&self, offset: usize, count: usize) -> (r: String)
        requires
            utf8(self.data@).len() <= usize::MAX,
            offset + count <= usize::MAX,
            offset <= utf8(self.data@).len(),
            is_char_boundary(utf8(self.data@), offset as int),
            is_char_boundary(utf8(self.data@), range_end(utf8(self.data@).len() as int, offset as int, count as int)),
        ensures
            utf8(r@) == utf8(self.data@).subrange(
                offset as int,
                range_end(utf8(self.data@).len() as int, offset as int, count as int),
            ),
    {
        let s = self.data.as_str();
        let len = s.len();
        let end = if offset + count < len {
            offset + count
        } else {
            len
        };
        let ghost b = utf8(self.data@);
        proof {
            encode_utf8_valid_utf8(self.data@);
            lemma_boundary_of_suffix(b, offset as int, end as int);
        }
        let (_, rest) = split_str(s, offset);
        assert(utf8(rest@) =~= b.subrange(offset as int, b.len() as int));
        let (mid, _) = split_str(rest, end - offset);
        assert(utf8(mid@) =~= b.subrange(offset as int, end as int));
        mid.to_owned()
    }

    /// Appends a code point.
    pub fn append_ch(&mut self, ch: char)
        ensures
            final(self).data@ == old(self).data@.push(ch),
    {
        crate::text::push_char(&mut self.data, ch);
    }

    /// Appends a string.
    pub fn append_data(&mut self, data: &str)
        ensures
            final(self).data@ == old(self).data@ + data@,
    {
        push_str(&mut self.data, data);
    }

    /// Replaces the bytes from `start` to `end` with `data`.
    fn splice(&mut self, start: usize, end: usize, data: &str)
        requires
            start <= end <= utf8(old(self).data@).len(),
            is_char_boundary(utf8(old(self).data@), start as int),
            is_char_boundary(utf8(old(self).data@), end as int),
        ensures
            utf8(final(self).data@) == utf8(old(self).data@).subrange(0, start as int) + utf8(data@)
                + utf8(old(self).data@).subrange(end as int, utf8(old(self).data@).len() as int),
    {
        let ghost b = utf8(self.data@);
        proof {
            encode_utf8_valid_utf8(self.data@);
            lemma_boundary_of_suffix(b, start as int, end as int);
        }
        let s = self.data.as_str();
        let (head, rest) = split_str(s, start);
        assert(utf8(rest@) =~= b.subrange(start as int, b.len() as int));
        let (_, tail) = split_str(rest, end - start);
        assert(utf8(tail@) =~= b.subrange(end as int, b.len() as int));
        let mut r = String::new();
        push_str(&mut r, head);
        push_str(&mut r, data);
        push_str(&mut r, tail);
        proof {
            assert(r@ == head@ + data@ + tail@);
            lemma_utf8_concat(head@, data@);
            lemma_utf8_concat(head@ + data@, tail@);
        }
        self.data = r;
    }

    /// Inserts `data` at byte `offset`; an offset past the end changes
    /// nothing.
    pub fn insert_data(&mut self, offset: usize, data: &str)
        requires
            utf8(old(self).data@).len() <= usize::MAX,
            offset <= utf8(old(self).data@).len() ==> is_char_boundary(utf8(old(self).data@), offset as int),
        ensures
            offset <= utf8(old(self).data@).len() ==> utf8(final(self).data@) == utf8(old(self).data@).subrange(
                0,
                offset as int,
            ) + utf8(data@) + utf8(old(self).data@).subrange(offset as int, utf8(old(self).data@).len() as int),
            offset > utf8(old(self).data@).len() ==> final(self).data@ == old(self).data@,
    {
        if offset <= self.data.as_str().len() {
            self.splice(offset, offset, data);
        }
    }

    /// Deletes the bytes from `offset` on, `count` of them or as many as
    /// there are; an empty range changes nothing.
    pub fn delete_data(&mut self, offset: usize, count: usize)
        requires
            utf8(old(self).data@).len() <= usize::MAX,
            offset + count <= usize::MAX,
            offset < range_end(utf8(old(self).data@).len() as int, offset as int, count as int) ==> {
                &&& is_char_boundary(utf8(old(self).data@), offset as int)
                &&& is_char_boundary(
                    utf8(old(self).data@),
                    range_end(utf8(old(self).data@).len() as int, offset as int, count as int),
                )
            },
        ensures
            ({
                let b = utf8(old(self).data@);
                let end = range_end(b.len() as int, offset as int, count as int);
                &&& offset < end ==> utf8(final(self).data@) == b.subrange(0, offset as int) + b.subrange(
                    end,
                    b.len() as int,
                )
                &&& offset >= end ==> final(self).data@ == old(self).data@
            }),
    {
        let len = self.data.as_str().len();
        let end = if offset + count < len {
            offset + count
        } else {
            len
        };
        if offset < end {
            self.splice(offset, end, "");
            proof {
                reveal_strlit("");
                let b = utf8(old(self).data@);
                assert(b.subrange(0, offset as int) + utf8(""@) =~= b.subrange(0, offset as int));
            }
        }
    }

    /// Replaces the bytes from `offset` on, `count` of them or as many as
    /// there are, with `data`; an empty range changes nothing.
    pub fn replace_data(&mut self, offset: usize, count: usize, data: &str)
        requires
            utf8(old(self).data@).len() <= usize::MAX,
            offset + count <= usize::MAX,
            offset < range_end(utf8(old(self).data@).len() as int, offset as int, count as int) ==> {
                &&& is_char_boundary(utf8(old(self).data@), offset as int)
                &&& is_char_boundary(
                    utf8(old(self).data@),
                    range_end(utf8(old(self).data@).len() as int, offset as int, count as int),
                )
            },
        ensures
            ({
                let b = utf8(old(self).data@);
                let end = range_end(b.len() as int, offset as int, count as int);
                &&& offset < end ==> utf8(final(self).data@) == b.subrange(0, offset as int) + utf8(data@)
                    + b.subrange(end, b.len() as int)
                &&& offset >= end ==> final(self).data@ == old(self).data@
            }),
    {
        let len = self.data.as_str().len();
        let end = if offset + count < len {
            offset + count
        } else {
            len
        };
        if offset < end {
            self.splice(offset, end, data);
        }
    }
}

/// A text node's data.
pub struct Text {
    pub character_data: CharacterData,
}

impl Text {
    /// A text node holding `data`.
    pub fn new(data: &str) -> (r: Text)
        ensures
            r.character_data.data@ == data@,
    {
        Text { character_data: CharacterData { data: data.to_owned() } }
    }

    /// Splits the data at byte `offset`: this node keeps what comes before
    /// it, and a new text node holds the rest.
    pub fn split_text(&mut self, offset: usize) -> (r: Text)
        requires
            offset <= utf8(old(self).character_data.data@).len(),
            is_char_boundary(utf8(old(self).character_data.data@), offset as int),
        ensures
            utf8(final(self).character_data.data@) == utf8(old(self).character_data.data@).subrange(0, offset as int),
            utf8(r.character_data.data@) == utf8(old(self).character_data.data@).subrange(
                offset as int,
                utf8(old(self).character_data.data@).len() as int,
            ),
    {
        let (head, tail) = split_str(self.character_data.data.as_str(), offset);
        let rest = tail.to_owned();
        let kept = head.to_owned();
        self.character_data.data = kept;
        Text { character_data: CharacterData { data: rest } }
    }

    /// Appends a code point.
    pub fn push(&mut self, ch: char)
        ensures
            final(self).character_data.data@ == old(self).character_data.data@.push(ch),
    {
        self.character_data.append_ch(ch);
    }
}

/// A comment node's data.
pub struct Comment {
    pub character_data: CharacterData,
}

impl Comment {
    /// A comment holding `data`.
    pub fn new(data: &str) -> (r: Comment)
        ensures
            r.character_data.data@ == data@,
    {
        Comment { character_data: CharacterData { data: data.to_owned() } }
    }
}

/// A document type node: its name and public and system identifiers.
pub struct DocumentType {
    pub name: String,
    pub public_id: String,
    pub system_id: String,
}

impl DocumentType {
    /// A document type named `name`, with empty identifiers.
    pub fn new(name: &str) -> (r: DocumentType)
        ensures
            r.name@ == name@,
            r.public_id@ == Seq::<char>::empty(),
            r.system_id@ == Seq::<char>::empty(),
    {
        DocumentType { name: name.to_owned(), public_id: String::new(), system_id: String::new() }
    }

    /// This document type with the public identifier `public_id`.
    pub fn with_public_id(self, public_id: &str) -> (r: DocumentType)
        ensures
            r.name@ == self.name@,
            r.public_id@ == public_id@,
            r.system_id@ == self.system_id@,
    {
        DocumentType { public_id: public_id.to_owned(), ..self }
    }

    /// This document type with the system identifier `system_id`.
    pub fn with_system_id(self, system_id: &str) -> (r: DocumentType)
        ensures
            r.name@ == self.name@,
            r.public_id@ == self.public_id@,
            r.system_id@ == system_id@,
    {
        DocumentType { system_id: system_id.to_owned(), ..self }
    }

    /// The name.
    pub fn name(&self) -> (r: &str)
        ensures
            r@ == self.name@,
    {
        self.name.as_str()
    }

    /// The public identifier.
    pub fn public_id(&self) -> (r: &str)
        ensures
            r@ == self.public_id@,
    {
        self.public_id.as_str()
    }

    /// The system identifier.
    pub fn system_id(&self) -> (r: &str)
        ensures
            r@ == self.system_id@,
    {
        self.system_id.as_str()
    }
}

/// An attribute: its namespace, namespace prefix, local name and value.
pub struct Attr {
    pub namespace: Option<String>,
    pub namespace_prefix: Option<String>,
    pub local_name: String,
    pub value: String,
}

/// The view of an optional string.
pub open spec fn opt_view(s: Option<String>) -> Option<Seq<char>> {
    match s {
        Some(x) => Some(x@),
        None => None,
    }
}

/// The view of an optional string slice.
pub open spec fn opt_str_view(s: Option<&str>) -> Option<Seq<char>> {
    match s {
        Some(x) => Some(x@),
        None => None,
    }
}

impl Attr {
    /// An attribute with the given namespace, prefix, local name and value.
    pub fn new(namespace: Option<String>, prefix: Option<String>, local_name: String, value: String) -> (r: Attr)
        ensures
            opt_view(r.namespace) == opt_view(namespace),
            opt_view(r.namespace_prefix) == opt_view(prefix),
            r.local_name@ == local_name@,
            r.value@ == value@,
    {
        Attr { namespace, namespace_prefix: prefix, local_name, value }
    }

    /// The namespace, where there is one.
    pub fn namespace_uri(&self) -> (r: Option<&str>)
        ensures
            opt_str_view(r) == opt_view(self.namespace),
    {
        match &self.namespace {
            Some(n) => Some(n.as_str()),
            None => None,
        }
    }

    /// The namespace prefix, where there is one.
    pub fn prefix(&self) -> (r: Option<&str>)
        ensures
            opt_str_view(r) == opt_view(self.namespace_prefix),
    {
        match &self.namespace_prefix {
            Some(n) => Some(n.as_str()),
            None => None,
        }
    }

    /// The local name.
    pub fn local_name(&self) -> (r: &str)
        ensures
            r@ == self.local_name@,
    {
        self.local_name.as_str()
    }

    /// The value.
    pub fn value(&self) -> (r: &str)
        ensures
            r@ == self.value@,
    {
        self.value.as_str()
    }

    /// Sets the value.
    pub fn set_value(&mut self, value: &str)
        ensures
            final(self).value@ == value@,
            opt_view(final(self).namespace) == opt_view(old(self).namespace),
            opt_view(final(self).namespace_prefix) == opt_view(old(self).namespace_prefix),
            final(self).local_name@ == old(self).local_name@,
    {
        self.value = value.to_owned();
    }

    /// An attribute is always specified.
    pub fn specified(&self) -> (r: bool)
        ensures
            r,
    {
        true
    }
}

} // verus!
