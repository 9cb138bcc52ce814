//! The tokens of the tokenizer: tags with their attributes, DOCTYPEs, and the
//! insertion modes of the tree builder.
use vstd::prelude::*;

verus! {

/// A start or end tag: its name, whether it closes itself, and its
/// attributes as name and value pairs, in order.
#[derive(Debug, Clone, PartialEq, Eq)]
pub struct Tag {
    pub name: String,
    pub is_self_closing: bool,
    pub attributes: Vec<(String, String)>,
}

/// The mathematical form of a tag.
#[verifier::ext_equal]
pub struct TagView {
    pub name: Seq<char>,
    pub is_self_closing: bool,
    pub attributes: Seq<(Seq<char>, Seq<char>)>,
}

/// The views of a list of attributes.
pub open spec fn attr_views(v: Seq<(String, String)>) -> Seq<(Seq<char>, Seq<char>)> {
    v.map_values(|a: (String, String)| (a.0@, a.1@))
}

impl View for Tag {
    type V = TagView;

    open spec fn view(&self) -> TagView {
        TagView { name: self.name@, is_self_closing: self.is_self_closing, attributes: attr_views(self.attributes@) }
    }
}

/// A copy of an attribute.
fn copy_attr(a: &(String, String)) -> (r: (String, String))
    ensures
        r.0@ == a.0@,
        r.1@ == a.1@,
{
    (a.0.clone(), a.1.clone())
}

impl Tag {
    /// A tag with an empty name.
    pub fn empty() -> (r: Tag)
        ensures
            r@ == (TagView { name: Seq::empty(), is_self_closing: false, attributes: Seq::empty() }),
    {
        Tag::new(&String::new())
    }

    /// A tag with the given name, not self-closing, without attributes.
    pub fn new(name: &String) -> (r: Tag)
        ensures
            r@ == (TagView { name: name@, is_self_closing: false, attributes: Seq::empty() }),
    {
        let r = Tag { name: name.clone(), is_self_closing: false, attributes: Vec::new() };
        assert(attr_views(Seq::<(String, String)>::empty()) =~= Seq::empty());
        r
    }

    /// The names of the attributes, in order (gathered in place of an
    /// iterator).
    pub fn attribute_names_iter(&self) -> (r: Vec<String>)
        ensures
            r@.len() == self@.attributes.len(),
            forall|i: int| 0 <= i < r@.len() ==> #[trigger] r@[i]@ == self@.attributes[i].0,
    {
        let mut names: Vec<String> = Vec::new();
        let mut i: usize = 0;
        while i < self.attributes.len()
            invariant
                i <= self.attributes@.len(),
                names@.len() == i,
                forall|j: int| 0 <= j < i ==> #[trigger] names@[j]@ == self.attributes@[j].0@,
            decreases self.attributes@.len() - i,
        {
            names.push(self.attributes[i].0.clone());
            i = i + 1;
        }
        names
    }

    /// The names of the attributes, in order.
    pub fn attribute_names(&self) -> (r: Vec<String>)
        ensures
            r@.len() == self@.attributes.len(),
            forall|i: int| 0 <= i < r@.len() ==> #[trigger] r@[i]@ == self@.attributes[i].0,
    {
        self.attribute_names_iter()
    }
}

/// The tag with `ch` appended to the name of its last attribute.
pub open spec fn attr_name_pushed(t: TagView, ch: char) -> TagView {
    let a = t.attributes;
    TagView { attributes: a.update(a.len() - 1, (a.last().0.push(ch), a.last().1)), ..t }
}

/// The tag with `ch` appended to the value of its last attribute.
pub open spec fn attr_value_pushed(t: TagView, ch: char) -> TagView {
    let a = t.attributes;
    TagView { attributes: a.update(a.len() - 1, (a.last().0, a.last().1.push(ch))), ..t }
}

/// The tag with the code points of `s` appended, one by one, to the name
/// of its last attribute.
pub open spec fn attr_name_pushed_all(t: TagView, s: Seq<char>) -> TagView
    decreases s.len(),
{
    if s.len() == 0 {
        t
    } else {
        attr_name_pushed(attr_name_pushed_all(t, s.drop_last()), s.last())
    }
}

/// The tag with the code points of `s` appended, one by one, to the value
/// of its last attribute.
pub open spec fn attr_value_pushed_all(t: TagView, s: Seq<char>) -> TagView
    decreases s.len(),
{
    if s.len() == 0 {
        t
    } else {
        attr_value_pushed(attr_value_pushed_all(t, s.drop_last()), s.last())
    }
}

/// The tag with one more attribute, `(name, value)`, after the others.
pub open spec fn with_attr(t: TagView, name: Seq<char>, value: Seq<char>) -> TagView {
    TagView { attributes: t.attributes.push((name, value)), ..t }
}

proof fn lemma_name_pushes(t: TagView, n: Seq<char>, v: Seq<char>, s: Seq<char>)
    ensures
        attr_name_pushed_all(with_attr(t, n, v), s) == with_attr(t, n + s, v),
    decreases s.len(),
{
    if s.len() == 0 {
        assert(n + s =~= n);
    } else {
        lemma_name_pushes(t, n, v, s.drop_last());
        assert((n + s.drop_last()).push(s.last()) =~= n + s);
        let w = with_attr(t, n + s.drop_last(), v);
        assert(attr_name_pushed(w, s.last()).attributes =~= with_attr(t, n + s, v).attributes);
    }
}

proof fn lemma_value_pushes(t: TagView, n: Seq<char>, v: Seq<char>, s: Seq<char>)
    ensures
        attr_value_pushed_all(with_attr(t, n, v), s) == with_attr(t, n, v + s),
    decreases s.len(),
{
    if s.len() == 0 {
        assert(v + s =~= v);
    } else {
        lemma_value_pushes(t, n, v, s.drop_last());
        assert((v + s.drop_last()).push(s.last()) =~= v + s);
        let w = with_attr(t, n, v + s.drop_last());
        assert(attr_value_pushed(w, s.last()).attributes =~= with_attr(t, n, v + s).attributes);
    }
}

/// Building an attribute: after a new empty attribute, pushing the code
/// points of `n` to its name and then those of `v` to its value, the tag is
/// the old one with the attribute `(n, v)` added last, so that
/// `current_attr` gives `(n, v)`; the name, the self-closing flag and the
/// attributes before it are unchanged.
pub proof fn lemma_attribute_run(t: TagView, n: Seq<char>, v: Seq<char>)
    ensures
        attr_value_pushed_all(attr_name_pushed_all(with_attr(t, Seq::empty(), Seq::empty()), n), v)
            == with_attr(t, n, v),
        with_attr(t, n, v).attributes.last() == (n, v),
        with_attr(t, n, v).attributes.take(t.attributes.len() as int) == t.attributes,
{
    lemma_name_pushes(t, Seq::empty(), Seq::empty(), n);
    assert(Seq::<char>::empty() + n =~= n);
    lemma_value_pushes(t, n, Seq::empty(), v);
    assert(Seq::<char>::empty() + v =~= v);
    assert(with_attr(t, n, v).attributes.take(t.attributes.len() as int) =~= t.attributes);
}

/// The tag being built by the tokenizer: a start tag or an end tag.
pub enum TagToken {
    Start(Tag),
    End(Tag),
}

impl TagToken {
    /// The tag, start or end.
    pub open spec fn tag(&self) -> TagView {
        match self {
            TagToken::Start(t) => t@,
            TagToken::End(t) => t@,
        }
    }

    /// The token is a start tag.
    pub open spec fn is_start(&self) -> bool {
        self is Start
    }

    /// Appends an attribute: the given pair, or an empty name and value.
    pub fn new_tag_attr(&mut self, data: Option<(String, String)>)
        ensures
            final(self).is_start() == old(self).is_start(),
            final(self).tag() == (TagView {
                attributes: old(self).tag().attributes.push(
                    match data {
                        Some(d) => (d.0@, d.1@),
                        None => (Seq::<char>::empty(), Seq::<char>::empty()),
                    },
                ),
                ..old(self).tag()
            }),
    {
        let attr = match &data {
            Some(d) => copy_attr(d),
            None => (String::new(), String::new()),
        };
        match self {
            TagToken::Start(t) => {
                let ghost before = t.attributes@;
                t.attributes.push(attr);
                assert(attr_views(t.attributes@) =~= attr_views(before).push((attr.0@, attr.1@)));
            },
            TagToken::End(t) => {
                let ghost before = t.attributes@;
                t.attributes.push(attr);
                assert(attr_views(t.attributes@) =~= attr_views(before).push((attr.0@, attr.1@)));
            },
        }
    }

    /// Appends `ch` to the name of the last attribute.
    pub fn push_to_attr_name(&mut self, ch: char)
        requires
            old(self).tag().attributes.len() > 0,
        ensures
            final(self).is_start() == old(self).is_start(),
            final(self).tag() == attr_name_pushed(old(self).tag(), ch),
    {
        match self {
            TagToken::Start(t) => push_last_name(&mut t.attributes, ch),
            TagToken::End(t) => push_last_name(&mut t.attributes, ch),
        }
    }

    /// Appends `ch` to the value of the last attribute.
    pub fn push_to_attr_val(&mut self, ch: char)
        requires
            old(self).tag().attributes.len() > 0,
        ensures
            final(self).is_start() == old(self).is_start(),
            final(self).tag() == attr_value_pushed(old(self).tag(), ch),
    {
        match self {
            TagToken::Start(t) => push_last_value(&mut t.attributes, ch),
            TagToken::End(t) => push_last_value(&mut t.attributes, ch),
        }
    }

    /// Marks the tag as self-closing.
    pub fn set_self_closing(&mut self)
        ensures
            final(self).is_start() == old(self).is_start(),
            final(self).tag() == (TagView { is_self_closing: true, ..old(self).tag() }),
    {
        match self {
            TagToken::Start(t) => {
                t.is_self_closing = true;
            },
            TagToken::End(t) => {
                t.is_self_closing = true;
            },
        }
    }

    /// A copy of the last attribute.
    pub fn current_attr(&mut self) -> (r: (String, String))
        requires
            old(self).tag().attributes.len() > 0,
        ensures
            *final(self) == *old(self),
            (r.0@, r.1@) == old(self).tag().attributes.last(),
    {
        match self {
            TagToken::Start(t) => copy_attr(&t.attributes[t.attributes.len() - 1]),
            TagToken::End(t) => copy_attr(&t.attributes[t.attributes.len() - 1]),
        }
    }
}

/// Appends `ch` to the name of the last attribute.
fn push_last_name(attrs: &mut Vec<(String, String)>, ch: char)
    requires
        old(attrs)@.len() > 0,
    ensures
        ({
            let a = attr_views(old(attrs)@);
            attr_views(final(attrs)@) == a.update(a.len() - 1, (a.last().0.push(ch), a.last().1))
        }),
{
    let ghost before = attr_views(attrs@);
    let (mut name, value) = attrs.pop().unwrap();
    crate::text::push_char(&mut name, ch);
    attrs.push((name, value));
    assert(attr_views(attrs@) =~= before.update(before.len() - 1, (before.last().0.push(ch), before.last().1)));
}

/// Appends `ch` to the value of the last attribute.
fn push_last_value(attrs: &mut Vec<(String, String)>, ch: char)
    requires
        old(attrs)@.len() > 0,
    ensures
        ({
            let a = attr_views(old(attrs)@);
            attr_views(final(attrs)@) == a.update(a.len() - 1, (a.last().0, a.last().1.push(ch)))
        }),
{
    let ghost before = attr_views(attrs@);
    let (name, mut value) = attrs.pop().unwrap();
    crate::text::push_char(&mut value, ch);
    attrs.push((name, value));
    assert(attr_views(attrs@) =~= before.update(before.len() - 1, (before.last().0, before.last().1.push(ch))));
}

/// A DOCTYPE token: the optional name and identifiers, and whether it forces
/// quirks mode.
#[derive(Clone, Debug, PartialEq, Eq)]
pub struct DOCTYPE {
    pub name: Option<String>,
    pub public_identifier: Option<String>,
    pub system_identifier: Option<String>,
    force_quirks: bool,
}

/// The mathematical form of a DOCTYPE token.
#[verifier::ext_equal]
pub struct DoctypeView {
    pub name: Option<Seq<char>>,
    pub public_identifier: Option<Seq<char>>,
    pub system_identifier: Option<Seq<char>>,
    pub force_quirks: bool,
}

/// The view of an optional string.
pub open spec fn opt_str(s: Option<String>) -> Option<Seq<char>> {
    match s {
        Some(x) => Some(x@),
        None => None,
    }
}

fn copy_opt(s: &Option<String>) -> (r: Option<String>)
    ensures
        opt_str(r) == opt_str(*s),
{
    match s {
        Some(x) => Some(x.clone()),
        None => None,
    }
}

impl View for DOCTYPE {
    type V = DoctypeView;

    closed spec fn view(&self) -> DoctypeView {
        DoctypeView {
            name: opt_str(self.name),
            public_identifier: opt_str(self.public_identifier),
            system_identifier: opt_str(self.system_identifier),
            force_quirks: self.force_quirks,
        }
    }
}

/// The text of an optional string, or the empty text.
pub open spec fn or_empty(s: Option<Seq<char>>) -> Seq<char> {
    match s {
        Some(t) => t,
        None => Seq::empty(),
    }
}

impl DOCTYPE {
    /// The name, public identifier and system identifier, each empty where
    /// it is missing.
    pub fn parts(&self) -> (r: (String, String, String))
        ensures
            r.0@ == or_empty(self@.name),
            r.1@ == or_empty(self@.public_identifier),
            r.2@ == or_empty(self@.system_identifier),
    {
        (copy_or_empty(&self.name), copy_or_empty(&self.public_identifier), copy_or_empty(&self.system_identifier))
    }
}

fn copy_or_empty(s: &Option<String>) -> (r: String)
    ensures
        r@ == or_empty(opt_str(*s)),
{
    match s {
        Some(t) => t.clone(),
        None => String::new(),
    }
}

impl Default for DOCTYPE {
    fn default() -> (r: Self)
        ensures
            r@ == (DoctypeView { name: None, public_identifier: None, system_identifier: None, force_quirks: false }),
    {
        DOCTYPE { name: None, public_identifier: None, system_identifier: None, force_quirks: false }
    }
}

impl DOCTYPE {
    /// Sets the force-quirks flag.
    pub fn set_quirks(&mut self)
        ensures
            final(self)@ == (DoctypeView { force_quirks: true, ..old(self)@ }),
    {
        self.force_quirks = true;
    }

    /// A copy with the given name.
    pub fn with_name(&self, name: String) -> (r: Self)
        ensures
            r@ == (DoctypeView { name: Some(name@), ..self@ }),
    {
        DOCTYPE {
            name: Some(name),
            public_identifier: copy_opt(&self.public_identifier),
            system_identifier: copy_opt(&self.system_identifier),
            force_quirks: self.force_quirks,
        }
    }

    /// A copy with an empty name.
    pub fn with_empty_name(&self) -> (r: Self)
        ensures
            r@ == (DoctypeView { name: Some(Seq::empty()), ..self@ }),
    {
        self.with_name(String::new())
    }
}

/// A token of the tokenizer.
#[derive(Debug, Clone, PartialEq, Eq)]
pub enum Token {
    DOCTYPE(DOCTYPE),
    StartTag(Tag),
    EndTag(Tag),
    Comment(String),
    Character(char),
    EOF,
}

/// The insertion modes of the tree builder.
#[derive(Debug, Clone)]
pub enum InsertMode {
    Initial,
    BeforeHTML,
    BeforeHead,
    InHead,
    InHeadNoScript,
    AfterHead,
    InBody,
    Text,
    InTable,
    InTableText,
    InCaption,
    InColumnGroup,
    InTableBody,
    InRow,
    InCell,
    InTemplate,
    AfterBody,
    InFrameset,
    AfterFrameset,
    AfterAfterBody,
    AfterAfterFrameset,
}

} // verus!
