//! The document tree that parsing builds, held as an arena of nodes that
//! name their parent and their children by index, with the stack of open
//! elements and the list of active formatting elements over it.
use vstd::prelude::*;
use crate::html5::parse::tokenize::ParserState;
use crate::html5::parse::tree::{InsertMode, Tag, TagView, Token, attr_views, or_empty};
use crate::http::url::string_is;
use crate::text::{chars_of, push_char};

verus! {

/// What a node is.
pub enum NodeKind {
    Document,
    DocumentType { name: String, public_id: String, system_id: String },
    Element { name: String, attributes: Vec<(String, String)> },
    Text(String),
    Comment(String),
}

/// The mathematical form of what a node is.
pub enum KindView {
    Document,
    DocumentType(Seq<char>, Seq<char>, Seq<char>),
    Element(Seq<char>, Seq<(Seq<char>, Seq<char>)>),
    Text(Seq<char>),
    Comment(Seq<char>),
}

pub open spec fn kind_view(k: NodeKind) -> KindView {
    match k {
        NodeKind::Document => KindView::Document,
        NodeKind::DocumentType { name, public_id, system_id } => KindView::DocumentType(
            name@,
            public_id@,
            system_id@,
        ),
        NodeKind::Element { name, attributes } => KindView::Element(name@, attr_views(attributes@)),
        NodeKind::Text(s) => KindView::Text(s@),
        NodeKind::Comment(s) => KindView::Comment(s@),
    }
}

/// A node of the tree: what it is, its parent and its children in order.
pub struct Node {
    pub kind: NodeKind,
    pub parent: Option<usize>,
    pub children: Vec<usize>,
}

impl Node {
    /// The parent, where there is one.
    pub fn parent_node(&self) -> (r: Option<usize>)
        ensures
            r == self.parent,
    {
        self.parent
    }

    /// The node has children.
    pub fn has_child_nodes(&self) -> (r: bool)
        ensures
            r == (self.children@.len() > 0),
    {
        self.children.len() > 0
    }

    /// The children in order.
    pub fn child_nodes(&self) -> (r: &Vec<usize>)
        ensures
            r@ == self.children@,
    {
        &self.children
    }

    /// The first child, where there is one.
    pub fn first_child(&self) -> (r: Option<usize>)
        ensures
            r == (if self.children@.len() > 0 { Some(self.children@[0]) } else { None }),
    {
        if self.children.len() > 0 {
            Some(self.children[0])
        } else {
            None
        }
    }

    /// The last child, where there is one.
    pub fn last_child(&self) -> (r: Option<usize>)
        ensures
            r == (if self.children@.len() > 0 { Some(self.children@.last()) } else { None }),
    {
        let len = self.children.len();
        if len == 0 {
            None
        } else {
            Some(self.children[len - 1])
        }
    }

    /// The position of the first child that is node `child`.
    pub fn position_of_child(&self, child: usize) -> (r: Option<usize>)
        ensures
            match r {
                Some(k) => k < self.children@.len() && self.children@[k as int] == child && forall|j: int|
                    0 <= j < k ==> self.children@[j] != child,
                None => !self.children@.contains(child),
            },
    {
        let mut k: usize = 0;
        while k < self.children.len()
            invariant
                k <= self.children@.len(),
                forall|j: int| 0 <= j < k ==> self.children@[j] != child,
            decreases self.children@.len() - k,
        {
            if self.children[k] == child {
                return Some(k);
            }
            k = k + 1;
        }
        None
    }
}

/// The mathematical form of a node.
pub struct NodeView {
    pub kind: KindView,
    pub parent: Option<usize>,
    pub children: Seq<usize>,
}

pub open spec fn node_view(n: Node) -> NodeView {
    NodeView { kind: kind_view(n.kind), parent: n.parent, children: n.children@ }
}

/// The tree is well formed: node 0 is the document, without a parent; a
/// node's parent, where it has one, lists it among its children, and a
/// node's children name it as their parent. (A node taken out of the tree
/// has no parent.)
pub open spec fn dom_wf(v: Seq<NodeView>) -> bool {
    &&& v.len() > 0
    &&& v[0].kind is Document
    &&& v[0].parent is None
    &&& forall|i: int, k: int|
        #![trigger v[i].children[k]]
        0 <= i < v.len() && 0 <= k < v[i].children.len() ==> {
            &&& 0 <= v[i].children[k] < v.len()
            &&& v[v[i].children[k] as int].parent == Some(i as usize)
        }
    &&& forall|i: int|
        #![trigger v[i].parent]
        0 < i < v.len() && v[i].parent is Some ==> {
            &&& 0 <= v[i].parent->0 < v.len()
            &&& v[v[i].parent->0 as int].children.contains(i as usize)
        }
}

/// The tree with a new last child `k` of node `p`.
pub open spec fn appended(v: Seq<NodeView>, p: int, k: KindView) -> Seq<NodeView> {
    v.update(p, NodeView { children: v[p].children.push(v.len() as usize), ..v[p] }).push(
        NodeView { kind: k, parent: Some(p as usize), children: Seq::empty() },
    )
}

/// The child indices other than `c`.
pub open spec fn not_index(c: usize) -> spec_fn(usize) -> bool {
    |x: usize| x != c
}

/// The tree with node `c` taken out of its parent's children and left
/// without a parent.
pub open spec fn detached(v: Seq<NodeView>, c: int) -> Seq<NodeView> {
    let p = v[c].parent->0 as int;
    let w = v.update(p, NodeView { children: v[p].children.filter(not_index(c as usize)), ..v[p] });
    w.update(c, NodeView { parent: None, ..w[c] })
}

proof fn lemma_index_filter_step(s: Seq<usize>, c: usize)
    requires
        s.len() > 0,
    ensures
        s.filter(not_index(c)) == if s.last() != c {
            s.drop_last().filter(not_index(c)).push(s.last())
        } else {
            s.drop_last().filter(not_index(c))
        },
{
    reveal(Seq::filter);
    assert(not_index(c)(s.last()) == (s.last() != c));
}

proof fn lemma_push_contains(q: Seq<usize>, y: usize, x: usize)
    ensures
        q.push(y).contains(x) <==> (q.contains(x) || y == x),
{
    if q.push(y).contains(x) {
        let k = choose|k: int| 0 <= k < q.push(y).len() && q.push(y)[k] == x;
        if k < q.len() {
            assert(q[k] == x);
        }
    }
    if q.contains(x) {
        let k = choose|k: int| 0 <= k < q.len() && q[k] == x;
        assert(q.push(y)[k] == x);
    }
    if y == x {
        assert(q.push(y)[q.len() as int] == x);
    }
}

proof fn lemma_index_filter_keeps(s: Seq<usize>, c: usize, x: usize)
    ensures
        s.filter(not_index(c)).contains(x) <==> (s.contains(x) && x != c),
    decreases s.len(),
{
    if s.len() == 0 {
        reveal(Seq::filter);
        assert(s.filter(not_index(c)) =~= s);
    } else {
        let t = s.drop_last();
        let l = s.last();
        lemma_index_filter_keeps(t, c, x);
        lemma_index_filter_step(s, c);
        assert(s =~= t.push(l));
        lemma_push_contains(t, l, x);
        if l != c {
            lemma_push_contains(t.filter(not_index(c)), l, x);
        }
    }
}

pub(crate) proof fn lemma_detached_wf(v: Seq<NodeView>, c: int)
    requires
        dom_wf(v),
        0 < c < v.len(),
        v.len() <= usize::MAX,
        v[c].parent is Some,
    ensures
        dom_wf(detached(v, c)),
        forall|j: int| 0 <= j < v.len() ==> element_name(detached(v, c), j) == #[trigger] element_name(v, j),
{
    let p = v[c].parent->0 as int;
    let w = detached(v, c);
    assert(w.len() == v.len());
    assert forall|y: int| 0 <= y < v.len() && y != c implies #[trigger] w[y].parent == v[y].parent by {}
    assert forall|y: int| 0 <= y < v.len() && y != p implies #[trigger] w[y].children == v[y].children by {}
    assert(w[p].children == v[p].children.filter(not_index(c as usize)));
    assert forall|a: int, k: int|
        #![trigger w[a].children[k]]
        0 <= a < w.len() && 0 <= k < w[a].children.len() implies {
            &&& 0 <= w[a].children[k] < w.len()
            &&& w[w[a].children[k] as int].parent == Some(a as usize)
        } by {
        let x = w[a].children[k];
        if a == p {
            assert(w[a].children.contains(x));
            lemma_index_filter_keeps(v[p].children, c as usize, x);
            let j = choose|j: int| 0 <= j < v[p].children.len() && v[p].children[j] == x;
            assert(v[p].children[j] == x);
            assert(v[x as int].parent == Some(a as usize));
            assert(w[x as int].parent == v[x as int].parent);
        } else {
            assert(v[a].children[k] == x);
            assert(v[x as int].parent == Some(a as usize));
            if x == c as usize {
                assert(v[c].parent == Some(a as usize));
                assert(p == a);
            }
            assert(w[x as int].parent == v[x as int].parent);
        }
    }
    assert forall|a: int|
        #![trigger w[a].parent]
        0 < a < w.len() && w[a].parent is Some implies {
            &&& 0 <= w[a].parent->0 < w.len()
            &&& w[w[a].parent->0 as int].children.contains(a as usize)
        } by {
        assert(a != c);
        assert(v[a].parent == w[a].parent);
        let q = v[a].parent->0 as int;
        assert(v[q].children.contains(a as usize));
        if q == p {
            lemma_index_filter_keeps(v[p].children, c as usize, a as usize);
            assert(w[p].children.contains(a as usize));
        } else {
            assert(w[q].children == v[q].children);
        }
    }
}

/// The name of node `i`, if it is an element.
pub open spec fn element_name(v: Seq<NodeView>, i: int) -> Option<Seq<char>> {
    if 0 <= i < v.len() {
        match v[i].kind {
            KindView::Element(name, _) => Some(name),
            _ => None,
        }
    } else {
        None
    }
}

/// The document tree.
pub struct Dom {
    nodes: Vec<Node>,
}

impl View for Dom {
    type V = Seq<NodeView>;

    closed spec fn view(&self) -> Seq<NodeView> {
        self.nodes@.map_values(|n: Node| node_view(n))
    }
}

/// `s` is the text of `t`.
pub(crate) fn str_is(s: &String, t: &str) -> (r: bool)
    ensures
        r == (s@ == t@),
{
    let v = chars_of(t);
    string_is(s, v.as_slice())
}

fn copy_string(s: &String) -> (r: String)
    ensures
        r@ == s@,
{
    s.clone()
}

fn copy_attrs(a: &Vec<(String, String)>) -> (r: Vec<(String, String)>)
    ensures
        attr_views(r@) == attr_views(a@),
{
    let mut r: Vec<(String, String)> = Vec::new();
    let mut i: usize = 0;
    while i < a.len()
        invariant
            i <= a@.len(),
            attr_views(r@) =~= attr_views(a@.take(i as int)),
        decreases a@.len() - i,
    {
        let ghost before = r@;
        let x = (a[i].0.clone(), a[i].1.clone());
        r.push(x);
        assert(a@.take(i + 1) =~= a@.take(i as int).push(a@[i as int]));
        assert(attr_views(r@) =~= attr_views(before).push((x.0@, x.1@)));
        assert(attr_views(a@.take(i + 1)) =~= attr_views(a@.take(i as int)).push((a@[i as int].0@, a@[i as int].1@)));
        i = i + 1;
    }
    assert(a@.take(a@.len() as int) =~= a@);
    r
}

impl Dom {
    /// A tree that holds only the document.
    pub fn new() -> (d: Dom)
        ensures
            d@ == seq![NodeView { kind: KindView::Document, parent: None, children: Seq::empty() }],
            dom_wf(d@),
    {
        let mut nodes: Vec<Node> = Vec::new();
        nodes.push(Node { kind: NodeKind::Document, parent: None, children: Vec::new() });
        let d = Dom { nodes };
        assert(d@ =~= seq![NodeView { kind: KindView::Document, parent: None, children: Seq::empty() }]);
        d
    }

    /// Node `i`.
    pub fn node(&self, i: usize) -> (r: &Node)
        requires
            i < self@.len(),
        ensures
            node_view(*r) == self@[i as int],
    {
        &self.nodes[i]
    }

    /// The number of nodes.
    pub fn len(&self) -> (r: usize)
        ensures
            r == self@.len(),
    {
        self.nodes.len()
    }

    /// Appends a new node `kind` as the last child of node `parent`, and
    /// gives its index.
    pub fn append(&mut self, parent: usize, kind: NodeKind) -> (n: usize)
        requires
            dom_wf(old(self)@),
            parent < old(self)@.len(),
            old(self)@.len() < usize::MAX,
        ensures
            n == old(self)@.len(),
            final(self)@ == appended(old(self)@, parent as int, kind_view(kind)),
            dom_wf(final(self)@),
    {
        let ghost v = self@;
        let ghost k = kind_view(kind);
        let n = self.nodes.len();
        self.nodes[parent].children.push(n);
        self.nodes.push(Node { kind, parent: Some(parent), children: Vec::new() });
        let ghost w = appended(v, parent as int, k);
        assert(self@ =~= w);
        assert forall|i: int, j: int|
            #![trigger w[i].children[j]]
            0 <= i < w.len() && 0 <= j < w[i].children.len() implies {
                &&& 0 <= w[i].children[j] < w.len()
                &&& w[w[i].children[j] as int].parent == Some(i as usize)
            } by {
            if i == parent as int && j == v[i].children.len() {
            } else {
                assert(w[i].children[j] == v[i].children[j]);
            }
        }
        assert forall|i: int|
            #![trigger w[i].parent]
            0 < i < w.len() && w[i].parent is Some implies {
                &&& 0 <= w[i].parent->0 < w.len()
                &&& w[w[i].parent->0 as int].children.contains(i as usize)
            } by {
            if i == n as int {
                assert(w[parent as int].children[v[parent as int].children.len() as int] == n);
            } else {
                let p = v[i].parent->0 as int;
                let k = choose|k: int| 0 <= k < v[p].children.len() && v[p].children[k] == i as usize;
                assert(w[p].children[k] == i as usize);
            }
        }
        n
    }

    /// Nodes `a` and `b` are elements with the same name and the same
    /// attributes, in the same order.
    pub fn same_element(&self, a: usize, b: usize) -> (r: bool)
        requires
            a < self@.len(),
            b < self@.len(),
            self@[a as int].kind is Element,
            self@[b as int].kind is Element,
        ensures
            r == (self@[a as int].kind == self@[b as int].kind),
    {
        assert(self@[a as int] == node_view(self.nodes@[a as int]));
        assert(self@[b as int] == node_view(self.nodes@[b as int]));
        match (&self.nodes[a].kind, &self.nodes[b].kind) {
            (NodeKind::Element { name: n1, attributes: a1 }, NodeKind::Element { name: n2, attributes: a2 }) => {
                assert(self@[a as int].kind == KindView::Element(n1@, attr_views(a1@)));
                assert(self@[b as int].kind == KindView::Element(n2@, attr_views(a2@)));
                let c2 = chars_of(n2.as_str());
                if !string_is(n1, c2.as_slice()) {
                    return false;
                }
                if a1.len() != a2.len() {
                    assert(attr_views(a1@).len() != attr_views(a2@).len());
                    return false;
                }
                let mut k: usize = 0;
                while k < a1.len()
                    invariant
                        k <= a1@.len(),
                        a1@.len() == a2@.len(),
                        forall|j: int| 0 <= j < k ==> attr_views(a1@)[j] == attr_views(a2@)[j],
                        self@[a as int].kind == KindView::Element(n1@, attr_views(a1@)),
                        self@[b as int].kind == KindView::Element(n2@, attr_views(a2@)),
                    decreases a1@.len() - k,
                {
                    let x = chars_of(a2[k].0.as_str());
                    let y = chars_of(a2[k].1.as_str());
                    if !string_is(&a1[k].0, x.as_slice()) || !string_is(&a1[k].1, y.as_slice()) {
                        assert(attr_views(a1@)[k as int] != attr_views(a2@)[k as int]);
                        assert(attr_views(a1@) != attr_views(a2@));
                        return false;
                    }
                    k = k + 1;
                }
                assert(attr_views(a1@) =~= attr_views(a2@));
                true
            },
            _ => false,
        }
    }

    /// The name of node `i`, if it is an element.
    pub fn element_name(&self, i: usize) -> (r: Option<&String>)
        ensures
            match r {
                Some(s) => element_name(self@, i as int) == Some(s@),
                None => element_name(self@, i as int) is None,
            },
    {
        if i < self.nodes.len() {
            match &self.nodes[i].kind {
                NodeKind::Element { name, .. } => Some(name),
                _ => None,
            }
        } else {
            None
        }
    }

    /// A tag with the name and attributes of node `i`, an element.
    pub fn element_tag(&self, i: usize) -> (t: Tag)
        requires
            i < self@.len(),
            self@[i as int].kind is Element,
        ensures
            KindView::Element(t@.name, t@.attributes) == self@[i as int].kind,
    {
        assert(self@[i as int] == node_view(self.nodes@[i as int]));
        match &self.nodes[i].kind {
            NodeKind::Element { name, attributes } => {
                let mut t = Tag::new(name);
                t.attributes = copy_attrs(attributes);
                t
            },
            _ => Tag::new(&String::new()),
        }
    }

    /// Appends the attribute `(name, value)` to element `i`.
    pub fn add_attribute(&mut self, i: usize, name: String, value: String)
        requires
            dom_wf(old(self)@),
            i < old(self)@.len(),
            old(self)@[i as int].kind is Element,
        ensures
            dom_wf(final(self)@),
            final(self)@ == old(self)@.update(
                i as int,
                NodeView {
                    kind: KindView::Element(
                        old(self)@[i as int].kind->Element_0,
                        old(self)@[i as int].kind->Element_1.push((name@, value@)),
                    ),
                    ..old(self)@[i as int]
                },
            ),
    {
        let ghost v = self@;
        assert(self@[i as int] == node_view(self.nodes@[i as int]));
        match &mut self.nodes[i].kind {
            NodeKind::Element { attributes, .. } => {
                let ghost before = attributes@;
                attributes.push((name, value));
                assert(attr_views(attributes@) =~= attr_views(before).push((name@, value@)));
            },
            _ => {},
        }
        let ghost w = v.update(
            i as int,
            NodeView {
                kind: KindView::Element(v[i as int].kind->Element_0, v[i as int].kind->Element_1.push((name@, value@))),
                ..v[i as int]
            },
        );
        assert(self@ =~= w);
        assert forall|a: int, k: int|
            #![trigger w[a].children[k]]
            0 <= a < w.len() && 0 <= k < w[a].children.len() implies {
                &&& 0 <= w[a].children[k] < w.len()
                &&& w[w[a].children[k] as int].parent == Some(a as usize)
            } by {
            assert(w[a].children == v[a].children);
            assert(v[a].children[k] == v[a].children[k]);
        }
        assert forall|a: int|
            #![trigger w[a].parent]
            0 < a < w.len() && w[a].parent is Some implies {
                &&& 0 <= w[a].parent->0 < w.len()
                &&& w[w[a].parent->0 as int].children.contains(a as usize)
            } by {
            assert(v[a].parent == w[a].parent);
            let q = v[a].parent->0 as int;
            assert(w[q].children == v[q].children);
        }
    }

    /// Takes node `c` out of its parent's children; it keeps its own
    /// children but has no parent.
    pub fn detach(&mut self, c: usize)
        requires
            dom_wf(old(self)@),
            0 < c < old(self)@.len(),
            old(self)@[c as int].parent is Some,
        ensures
            dom_wf(final(self)@),
            final(self)@ == detached(old(self)@, c as int),
    {
        let ghost v = self@;
        let p = match self.nodes[c].parent {
            Some(p) => p,
            None => 0,
        };
        assert(self@[c as int] == node_view(self.nodes@[c as int]));
        assert(p < v.len());
        let mut kept: Vec<usize> = Vec::new();
        let mut i: usize = 0;
        while i < self.nodes[p].children.len()
            invariant
                self@ == v,
                p < v.len(),
                i <= v[p as int].children.len(),
                kept@ == v[p as int].children.take(i as int).filter(not_index(c)),
            decreases v[p as int].children.len() - i,
        {
            assert(self@[p as int] == node_view(self.nodes@[p as int]));
            let x = self.nodes[p].children[i];
            proof {
                lemma_index_filter_step(v[p as int].children.take(i + 1), c);
                assert(v[p as int].children.take(i + 1).drop_last() =~= v[p as int].children.take(i as int));
            }
            if x != c {
                kept.push(x);
            }
            i = i + 1;
        }
        assert(v[p as int].children.take(v[p as int].children.len() as int) =~= v[p as int].children);
        self.nodes[p].children = kept;
        self.nodes[c].parent = None;
        let ghost w = detached(v, c as int);
        assert(self@ =~= w);
        let n = self.nodes.len();
        proof {
            assert(v.len() == n);
            lemma_detached_wf(v, c as int);
        }
    }

    /// Node `i` is an element named `name`.
    pub fn is_element_named(&self, i: usize, name: &str) -> (r: bool)
        ensures
            r == (element_name(self@, i as int) == Some(name@)),
    {
        match self.element_name(i) {
            Some(s) => str_is(s, name),
            None => false,
        }
    }

    /// The last child of node `i`, if it has children.
    pub fn last_child(&self, i: usize) -> (r: Option<usize>)
        requires
            i < self@.len(),
        ensures
            r == (if self@[i as int].children.len() == 0 {
                None
            } else {
                Some(self@[i as int].children.last())
            }),
    {
        let c = &self.nodes[i].children;
        if c.len() == 0 {
            None
        } else {
            Some(c[c.len() - 1])
        }
    }

    /// Node `i` is a text node.
    pub fn is_text(&self, i: usize) -> (r: bool)
        ensures
            r == (0 <= i < self@.len() && self@[i as int].kind is Text),
    {
        i < self.nodes.len() && matches!(self.nodes[i].kind, NodeKind::Text(_))
    }

    /// Appends `c` to the text of node `i`, a text node.
    pub fn push_to_text(&mut self, i: usize, c: char)
        requires
            i < old(self)@.len(),
            old(self)@[i as int].kind is Text,
        ensures
            final(self)@ == old(self)@.update(
                i as int,
                NodeView { kind: KindView::Text(old(self)@[i as int].kind->Text_0.push(c)), ..old(self)@[i as int] },
            ),
    {
        let ghost v = self@;
        match &mut self.nodes[i].kind {
            NodeKind::Text(s) => push_char(s, c),
            _ => {},
        }
        assert(self@ =~= v.update(
            i as int,
            NodeView { kind: KindView::Text(v[i as int].kind->Text_0.push(c)), ..v[i as int] },
        ));
    }
}


/// Appending a node keeps the names of the nodes there were.
pub proof fn lemma_names_kept(v: Seq<NodeView>, p: int, k: KindView)
    requires
        0 <= p < v.len(),
    ensures
        forall|i: int| 0 <= i < v.len() ==> element_name(appended(v, p, k), i) == #[trigger] element_name(v, i),
{
}

/// Changing the text of a text node keeps the tree well formed and the
/// names of the nodes.
pub proof fn lemma_text_change_keeps(v: Seq<NodeView>, i: int, t: Seq<char>)
    requires
        dom_wf(v),
        0 <= i < v.len(),
        v[i].kind is Text,
    ensures
        dom_wf(v.update(i, NodeView { kind: KindView::Text(t), ..v[i] })),
        forall|j: int| 0 <= j < v.len() ==> element_name(v.update(i, NodeView { kind: KindView::Text(t), ..v[i] }), j) == #[trigger] element_name(v, j),
{
    let w = v.update(i, NodeView { kind: KindView::Text(t), ..v[i] });
    assert forall|a: int, k: int|
        #![trigger w[a].children[k]]
        0 <= a < w.len() && 0 <= k < w[a].children.len() implies {
            &&& 0 <= w[a].children[k] < w.len()
            &&& w[w[a].children[k] as int].parent == Some(a as usize)
        } by {
        assert(w[a].children == v[a].children);
        assert(v[a].children[k] == v[a].children[k]);
    }
    assert forall|a: int|
        #![trigger w[a].parent]
        0 < a < w.len() && w[a].parent is Some implies {
            &&& 0 <= w[a].parent->0 < w.len()
            &&& w[w[a].parent->0 as int].children.contains(a as usize)
        } by {
        assert(v[a].parent == w[a].parent);
        let q = v[a].parent->0 as int;
        assert(w[q].children == v[q].children);
    }
}

/// `n` is one of the names in `scope`.
pub open spec fn scope_has(scope: Seq<&str>, n: Seq<char>) -> bool {
    exists|j: int| 0 <= j < scope.len() && scope[j]@ == n
}

/// Searching the open elements `open` from the current node down: an
/// element named `target` comes before any element named in `scope`.
pub open spec fn in_scope(v: Seq<NodeView>, open: Seq<usize>, target: Seq<char>, scope: Seq<&str>) -> bool
    decreases open.len(),
{
    if open.len() == 0 {
        false
    } else {
        let n = element_name(v, open.last() as int);
        if n == Some(target) {
            true
        } else if n is Some && scope_has(scope, n->0) {
            false
        } else {
            in_scope(v, open.drop_last(), target, scope)
        }
    }
}

/// The names that bound the default scope.
pub open spec fn default_scope() -> Seq<&'static str> {
    seq!["applet", "caption", "html", "table", "td", "th", "marquee", "object", "template", "mi", "mo", "mn", "ms", "mtext"]
}

/// The names that bound the button scope.
pub open spec fn button_scope() -> Seq<&'static str> {
    default_scope().push("button")
}

/// The names that bound the list item scope.
pub open spec fn list_item_scope() -> Seq<&'static str> {
    default_scope().push("ol").push("ul")
}

/// The elements whose end tags are implied.
pub open spec fn implied_end_tags() -> Seq<&'static str> {
    seq!["dd", "dt", "li", "option", "optgroup", "p", "rb", "rp", "rt", "rtc"]
}

/// The names that do not count for `has_non_special_element_in_scope`.
pub open spec fn plain_special_names() -> Seq<&'static str> {
    seq!["dd", "dt", "li", "optgroup", "option", "p", "rb", "rp", "rt", "rtc", "tbody", "td", "tfoot", "th", "thead", "tr", "body", "html"]
}

/// The open elements after popping down to, and including, the last one
/// named `target`; all of them where there is none.
pub open spec fn popped_until(v: Seq<NodeView>, open: Seq<usize>, target: Seq<char>) -> Seq<usize>
    decreases open.len(),
{
    if open.len() == 0 {
        open
    } else if element_name(v, open.last() as int) == Some(target) {
        open.drop_last()
    } else {
        popped_until(v, open.drop_last(), target)
    }
}

/// The open elements after popping those whose end tags are implied, but
/// for one named `exclude`.
pub open spec fn implied_popped(v: Seq<NodeView>, open: Seq<usize>, exclude: Option<Seq<char>>) -> Seq<usize>
    decreases open.len(),
{
    if open.len() == 0 {
        open
    } else {
        let n = element_name(v, open.last() as int);
        if n is Some && scope_has(implied_end_tags(), n->0) && exclude != n {
            implied_popped(v, open.drop_last(), exclude)
        } else {
            open
        }
    }
}

/// The index of the last marker among the active formatting elements.
pub open spec fn last_marker(afe: Seq<Option<usize>>) -> Option<int>
    decreases afe.len(),
{
    if afe.len() == 0 {
        None
    } else if afe.last() is None {
        Some(afe.len() - 1)
    } else {
        last_marker(afe.drop_last())
    }
}

/// Entry `k` is an element with the same name and attributes as node `e`.
pub open spec fn same_entry(v: Seq<NodeView>, afe: Seq<Option<usize>>, k: int, e: usize) -> bool {
    afe[k] matches Some(x) && 0 <= x < v.len() && v[x as int].kind == v[e as int].kind
}

/// How many entries from `lo` on are the same element as `e`.
pub open spec fn count_same(v: Seq<NodeView>, afe: Seq<Option<usize>>, e: usize, lo: int) -> nat
    decreases afe.len() - lo,
{
    if lo < 0 || lo >= afe.len() {
        0
    } else {
        (if same_entry(v, afe, lo, e) { 1nat } else { 0nat }) + count_same(v, afe, e, lo + 1)
    }
}

/// The first entry from `lo` on that is the same element as `e`.
pub open spec fn first_same(v: Seq<NodeView>, afe: Seq<Option<usize>>, e: usize, lo: int) -> Option<int>
    decreases afe.len() - lo,
{
    if lo < 0 || lo >= afe.len() {
        None
    } else if same_entry(v, afe, lo, e) {
        Some(lo)
    } else {
        first_same(v, afe, e, lo + 1)
    }
}

/// Where the Noah's Ark count starts: after the last marker, or at 1 with
/// no marker.
pub open spec fn ark_start(afe: Seq<Option<usize>>) -> int {
    match last_marker(afe) {
        Some(i) => i + 1,
        None => 1,
    }
}

/// The active formatting elements after pushing `e`: where there are
/// already three entries that are the same element after the last marker,
/// the first such entry of the list is removed first.
pub open spec fn afe_pushed(v: Seq<NodeView>, afe: Seq<Option<usize>>, e: usize) -> Seq<Option<usize>> {
    let base = if afe.len() >= 1 && count_same(v, afe, e, ark_start(afe)) >= 3 {
        afe.remove(first_same(v, afe, e, 0)->0)
    } else {
        afe
    };
    base.push(Some(e))
}

pub(crate) proof fn lemma_last_marker_bound(afe: Seq<Option<usize>>)
    ensures
        last_marker(afe) matches Some(i) ==> 0 <= i < afe.len() && afe[i] is None,
    decreases afe.len(),
{
    if afe.len() > 0 && afe.last() is Some {
        lemma_last_marker_bound(afe.drop_last());
    }
}

proof fn lemma_first_same(v: Seq<NodeView>, afe: Seq<Option<usize>>, e: usize, lo: int, hi: int)
    requires
        0 <= lo <= hi,
        count_same(v, afe, e, hi) > 0,
    ensures
        first_same(v, afe, e, lo) matches Some(k) && lo <= k < afe.len() && same_entry(v, afe, k, e),
    decreases afe.len() - lo,
{
    if lo < afe.len() && !same_entry(v, afe, lo, e) {
        if lo == hi {
            lemma_first_same(v, afe, e, lo + 1, hi + 1);
        } else {
            lemma_first_same(v, afe, e, lo + 1, hi);
        }
    }
}

/// Every entry after a push is the pushed element or one there was.
proof fn lemma_pushed_entries(v: Seq<NodeView>, afe: Seq<Option<usize>>, e: usize)
    requires
        afe.len() >= 1 && count_same(v, afe, e, ark_start(afe)) >= 3 ==> (first_same(v, afe, e, 0) matches Some(q)
            && 0 <= q < afe.len()),
    ensures
        forall|k: int|
            0 <= k < afe_pushed(v, afe, e).len() ==> #[trigger] afe_pushed(v, afe, e)[k] == Some(e)
                || exists|j: int| 0 <= j < afe.len() && afe[j] == afe_pushed(v, afe, e)[k],
{
    let r = afe_pushed(v, afe, e);
    assert forall|k: int| 0 <= k < r.len() implies #[trigger] r[k] == Some(e)
        || exists|j: int| 0 <= j < afe.len() && afe[j] == r[k] by {
        if k < r.len() - 1 {
            if afe.len() >= 1 && count_same(v, afe, e, ark_start(afe)) >= 3 {
                let q = first_same(v, afe, e, 0)->0;
                if k < q {
                    assert(afe[k] == r[k]);
                } else {
                    assert(afe[k + 1] == r[k]);
                }
            } else {
                assert(afe[k] == r[k]);
            }
        }
    }
}

proof fn lemma_count_split(v: Seq<NodeView>, afe: Seq<Option<usize>>, e: usize, lo: int, k: int)
    requires
        0 <= lo <= k < afe.len(),
    ensures
        count_same(v, afe, e, k) == (if same_entry(v, afe, k, e) { 1nat } else { 0nat }) + count_same(v, afe, e, k + 1),
{
}

/// The insertion modes, the head element and the frameset flag are
/// unchanged.
pub open spec fn same_modes(a: TreeBuilder, b: TreeBuilder) -> bool {
    &&& b.mode == a.mode
    &&& b.original_mode == a.original_mode
    &&& b.head == a.head
    &&& b.frameset_ok == a.frameset_ok
    &&& b.scripting == a.scripting
    &&& b.tokenizer_state == a.tokenizer_state
}

/// Some open element has the name of node `e`.
pub open spec fn open_has_name_of(v: Seq<NodeView>, open: Seq<usize>, e: usize) -> bool {
    exists|k: int| 0 <= k < open.len() && element_name(v, open[k] as int) == element_name(v, e as int)
}

/// An active formatting entry that stops the rewinding: a marker, or an
/// element whose name an open element has.
pub open spec fn stops_rewind(v: Seq<NodeView>, open: Seq<usize>, entry: Option<usize>) -> bool {
    match entry {
        None => true,
        Some(e) => open_has_name_of(v, open, e),
    }
}

/// Rewinding from entry `pos`: the first entry to recreate.
pub open spec fn rewind_to(v: Seq<NodeView>, open: Seq<usize>, afe: Seq<Option<usize>>, pos: int) -> int
    decreases pos,
{
    if pos <= 0 {
        0
    } else if stops_rewind(v, open, afe[pos - 1]) {
        pos
    } else {
        rewind_to(v, open, afe, pos - 1)
    }
}

/// Reconstructing the active formatting elements has work to do.
pub open spec fn needs_reconstruct(v: Seq<NodeView>, open: Seq<usize>, afe: Seq<Option<usize>>) -> bool {
    afe.len() > 0 && !stops_rewind(v, open, afe.last())
}

/// The document, open elements and active formatting elements after the
/// entries from `from` on are recreated: each a new element with the same
/// name and attributes under the current node, opened, and put in place of
/// its entry.
pub open spec fn recreated(v: Seq<NodeView>, open: Seq<usize>, afe: Seq<Option<usize>>, from: int) -> (Seq<NodeView>, Seq<usize>, Seq<Option<usize>>)
    decreases afe.len() - from,
{
    if from < 0 || from >= afe.len() {
        (v, open, afe)
    } else {
        let e = afe[from]->0;
        let n = v.len() as usize;
        recreated(
            appended(v, open.last() as int, v[e as int].kind),
            open.push(n),
            afe.update(from, Some(n)),
            from + 1,
        )
    }
}

proof fn lemma_kinds_kept(v: Seq<NodeView>, p: int, k: KindView, x: int)
    requires
        0 <= p < v.len(),
        0 <= x < v.len(),
    ensures
        appended(v, p, k)[x].kind == v[x].kind,
{
}

proof fn lemma_last_named_bound(v: Seq<NodeView>, afe: Seq<Option<usize>>, subject: Seq<char>, lo: int, k: int)
    ensures
        last_named_entry(v, afe, subject, lo, k) matches Some(i) ==> lo <= i < k && i < afe.len() && afe[i] is Some,
    decreases k - lo,
{
    if !(k <= lo || k > afe.len()) {
        lemma_last_named_bound(v, afe, subject, lo, k - 1);
    }
}

proof fn lemma_filter_step(s: Seq<Option<usize>>, e: usize)
    requires
        s.len() > 0,
    ensures
        s.filter(not_entry(e)) == if s.last() != Some(e) {
            s.drop_last().filter(not_entry(e)).push(s.last())
        } else {
            s.drop_last().filter(not_entry(e))
        },
{
    reveal(Seq::filter);
    assert(not_entry(e)(s.last()) == (s.last() != Some(e)));
}

pub(crate) proof fn lemma_rewind_entries(v: Seq<NodeView>, open: Seq<usize>, afe: Seq<Option<usize>>, pos: int)
    requires
        0 <= pos < afe.len(),
    ensures
        0 <= rewind_to(v, open, afe, pos) <= pos,
        forall|k: int| rewind_to(v, open, afe, pos) <= k < pos ==> !stops_rewind(v, open, #[trigger] afe[k]),
    decreases pos,
{
    if pos > 0 && !stops_rewind(v, open, afe[pos - 1]) {
        lemma_rewind_entries(v, open, afe, pos - 1);
    }
}

/// The names of the special elements.
pub open spec fn special_names() -> Seq<&'static str> {
    seq!["address", "applet", "area", "article", "aside", "base", "basefont", "bgsound", "blockquote", "body", "br", "button", "caption", "center", "col", "colgroup", "dd", "details", "dir", "div", "dl", "dt", "embed", "fieldset", "figcaption", "figure", "footer", "form", "frame", "frameset", "h1", "h2", "h3", "h4", "h5", "h6", "head", "header", "hgroup", "hr", "html", "iframe", "img", "input", "keygen", "li", "link", "listing", "main", "marquee", "menu", "meta", "nav", "noembed", "noframes", "noscript", "object", "ol", "p", "param", "plaintext", "pre", "script", "search", "section", "select", "source", "style", "summary", "table", "tbody", "td", "template", "textarea", "tfoot", "th", "thead", "title", "tr", "track", "ul", "wbr", "xmp"]
}

/// The element named `n` is special.
pub open spec fn is_special_name(n: Seq<char>) -> bool {
    scope_has(special_names(), n)
}

/// An element named `n` is special.
fn special_name(n: &String) -> (r: bool)
    ensures
        r == is_special_name(n@),
{
    let names: [&str; 83] = ["address", "applet", "area", "article", "aside", "base", "basefont", "bgsound", "blockquote", "body", "br", "button", "caption", "center", "col", "colgroup", "dd", "details", "dir", "div", "dl", "dt", "embed", "fieldset", "figcaption", "figure", "footer", "form", "frame", "frameset", "h1", "h2", "h3", "h4", "h5", "h6", "head", "header", "hgroup", "hr", "html", "iframe", "img", "input", "keygen", "li", "link", "listing", "main", "marquee", "menu", "meta", "nav", "noembed", "noframes", "noscript", "object", "ol", "p", "param", "plaintext", "pre", "script", "search", "section", "select", "source", "style", "summary", "table", "tbody", "td", "template", "textarea", "tfoot", "th", "thead", "title", "tr", "track", "ul", "wbr", "xmp"];
    assert(names@ =~= special_names());
    name_in(&names, n)
}

/// Recreating the entries from `from` on adds one node and one open
/// element for each of them, and keeps the number of entries.
pub(crate) proof fn lemma_recreated_len(v: Seq<NodeView>, open: Seq<usize>, afe: Seq<Option<usize>>, from: int)
    requires
        0 <= from <= afe.len(),
        open.len() > 0,
        open.last() < v.len(),
    ensures
        recreated(v, open, afe, from).0.len() == v.len() + afe.len() - from,
        recreated(v, open, afe, from).1.len() == open.len() + afe.len() - from,
        recreated(v, open, afe, from).2.len() == afe.len(),
    decreases afe.len() - from,
{
    if from < afe.len() {
        let e = afe[from]->0;
        let n = v.len() as usize;
        lemma_recreated_len(
            appended(v, open.last() as int, v[e as int].kind),
            open.push(n),
            afe.update(from, Some(n)),
            from + 1,
        );
    }
}

/// An element named `n` is special, but for `address`, `div` and `p`.
pub(crate) fn special_name_excluding(n: &String) -> (r: bool)
    ensures
        r == (is_special_name(n@) && !(n@ == "address"@ || n@ == "div"@ || n@ == "p"@)),
{
    special_name(n) && !(str_is(n, "address") || str_is(n, "div") || str_is(n, "p"))
}

/// `n` is one of the names of `names`.
pub(crate) fn name_in(names: &[&str], n: &String) -> (r: bool)
    ensures
        r == scope_has(names@, n@),
{
    let mut j: usize = 0;
    while j < names.len()
        invariant
            j <= names@.len(),
            forall|k: int| 0 <= k < j ==> names@[k]@ != n@,
        decreases names@.len() - j,
    {
        if str_is(n, names[j]) {
            return true;
        }
        j = j + 1;
    }
    false
}

/// The mathematical form of the tree-construction state.
#[verifier::ext_equal]
pub struct BuilderView {
    pub dom: Seq<NodeView>,
    pub open: Seq<usize>,
    pub afe: Seq<Option<usize>>,
    pub mode: InsertMode,
    pub original_mode: Option<InsertMode>,
    pub head: Option<usize>,
    pub frameset_ok: bool,
    pub scripting: bool,
    pub tokenizer_state: Option<ParserState>,
}

/// An element for `t` inserted under the current node and opened.
pub open spec fn bv_insert(b: BuilderView, t: TagView) -> BuilderView {
    BuilderView {
        dom: appended(b.dom, b.open.last() as int, KindView::Element(t.name, t.attributes)),
        open: b.open.push(b.dom.len() as usize),
        ..b
    }
}

/// The current node popped, if there is one.
pub open spec fn bv_pop(b: BuilderView) -> BuilderView {
    BuilderView { open: if b.open.len() > 0 { b.open.drop_last() } else { b.open }, ..b }
}

/// The open elements popped down to, and including, the last one named `n`.
pub open spec fn bv_pop_until(b: BuilderView, n: Seq<char>) -> BuilderView {
    BuilderView { open: popped_until(b.dom, b.open, n), ..b }
}

/// The implied end tags generated, but for `exclude`.
pub open spec fn bv_implied(b: BuilderView, exclude: Option<Seq<char>>) -> BuilderView {
    BuilderView { open: implied_popped(b.dom, b.open, exclude), ..b }
}

/// A `p` element closed.
pub open spec fn bv_close_p(b: BuilderView) -> BuilderView {
    bv_pop_until(bv_implied(b, Some("p"@)), "p"@)
}

/// `ch` inserted at the end of the current node.
pub open spec fn bv_char(b: BuilderView, ch: char) -> BuilderView {
    let v = b.dom;
    let p = b.open.last() as int;
    let c = v[p].children;
    BuilderView {
        dom: if c.len() > 0 && v[c.last() as int].kind is Text {
            v.update(
                c.last() as int,
                NodeView { kind: KindView::Text(v[c.last() as int].kind->Text_0.push(ch)), ..v[c.last() as int] },
            )
        } else {
            appended(v, p, KindView::Text(seq![ch]))
        },
        ..b
    }
}

/// A comment holding `data` appended to the current node.
pub open spec fn bv_comment(b: BuilderView, data: Seq<char>) -> BuilderView {
    BuilderView { dom: appended(b.dom, b.open.last() as int, KindView::Comment(data)), ..b }
}

/// The active formatting elements reconstructed.
pub open spec fn bv_reconstruct(b: BuilderView) -> BuilderView {
    if needs_reconstruct(b.dom, b.open, b.afe) {
        let r = recreated(b.dom, b.open, b.afe, rewind_to(b.dom, b.open, b.afe, b.afe.len() - 1));
        BuilderView { dom: r.0, open: r.1, afe: r.2, ..b }
    } else {
        b
    }
}

/// Node `e` pushed onto the active formatting elements.
pub open spec fn bv_push_afe(b: BuilderView, e: usize) -> BuilderView {
    BuilderView { afe: afe_pushed(b.dom, b.afe, e), ..b }
}

/// An element for `t` opened, the tokenizer switched to `state`, in the
/// text mode that returns to the current one.
pub open spec fn bv_text(b: BuilderView, t: TagView, state: ParserState) -> BuilderView {
    BuilderView {
        mode: InsertMode::Text,
        original_mode: Some(b.mode),
        tokenizer_state: Some(state),
        ..bv_insert(b, t)
    }
}

/// The entries other than `Some(e)`.
pub open spec fn not_entry(e: usize) -> spec_fn(Option<usize>) -> bool {
    |x: Option<usize>| x != Some(e)
}

/// The last entry in `lo..k` that is an element named `subject`.
pub open spec fn last_named_entry(v: Seq<NodeView>, afe: Seq<Option<usize>>, subject: Seq<char>, lo: int, k: int) -> Option<int>
    decreases k - lo,
{
    if k <= lo || k > afe.len() {
        None
    } else if afe[k - 1] matches Some(e) && element_name(v, e as int) == Some(subject) {
        Some(k - 1)
    } else {
        last_named_entry(v, afe, subject, lo, k - 1)
    }
}

/// Some open element is named `n`.
pub open spec fn open_has_name(v: Seq<NodeView>, open: Seq<usize>, n: Seq<char>) -> bool {
    exists|k: int| 0 <= k < open.len() && element_name(v, open[k] as int) == Some(n)
}

/// The adoption agency algorithm for an end tag named `subject`, on a
/// builder whose active formatting elements are none of them special (so
/// that there is never a furthest block): a current node named `subject`
/// that is not an active formatting element is popped; else the last
/// active formatting element named `subject` after the last marker (or
/// from the start) is found. Where none is, nothing changes. Where no open
/// element has its name, it leaves the list; where it is not in the default
/// scope, nothing changes; else the open elements are popped down to the
/// last one named `subject` and it leaves the list.
pub open spec fn bv_adopt(b: BuilderView, subject: Seq<char>) -> BuilderView {
    if b.open.len() > 0 && element_name(b.dom, b.open.last() as int) == Some(subject) && !b.afe.contains(
        Some(b.open.last()),
    ) {
        bv_pop(b)
    } else {
        let lo = match last_marker(b.afe) {
            Some(i) => i,
            None => 0,
        };
        match last_named_entry(b.dom, b.afe, subject, lo, b.afe.len() as int) {
            None => b,
            Some(k) => {
                let fe = b.afe[k]->0;
                if !open_has_name(b.dom, b.open, subject) {
                    BuilderView { afe: b.afe.filter(not_entry(fe)), ..b }
                } else if !in_scope(b.dom, b.open, subject, default_scope()) {
                    b
                } else {
                    BuilderView { open: popped_until(b.dom, b.open, subject), afe: b.afe.filter(not_entry(fe)), ..b }
                }
            },
        }
    }
}

/// The state of tree construction: the document, the stack of open
/// elements (by node), the list of active formatting elements (`None` for a
/// marker), the insertion mode, the mode to return to, the head element and
/// whether a frameset is still allowed; whether scripting is on, and the
/// state that the tokenizer is to switch to, where tree construction asks
/// for one.
pub struct TreeBuilder {
    pub dom: Dom,
    pub open_elements: Vec<usize>,
    pub active_formatting: Vec<Option<usize>>,
    pub mode: InsertMode,
    pub original_mode: Option<InsertMode>,
    pub head: Option<usize>,
    pub frameset_ok: bool,
    pub scripting: bool,
    pub tokenizer_state: Option<ParserState>,
}

impl View for TreeBuilder {
    type V = BuilderView;

    open spec fn view(&self) -> BuilderView {
        BuilderView {
            dom: self.dom@,
            open: self.open_elements@,
            afe: self.active_formatting@,
            mode: self.mode,
            original_mode: self.original_mode,
            head: self.head,
            frameset_ok: self.frameset_ok,
            scripting: self.scripting,
            tokenizer_state: self.tokenizer_state,
        }
    }
}

impl TreeBuilder {
    /// The tree is well formed, every open or active formatting element is
    /// an element of it, and no active formatting element is special.
    pub open spec fn wf(&self) -> bool {
        &&& dom_wf(self.dom@)
        &&& forall|k: int|
            0 <= k < self.open_elements@.len() ==> (#[trigger] element_name(self.dom@, self.open_elements@[k] as int)) is Some
        &&& forall|k: int|
            0 <= k < self.active_formatting@.len() && (#[trigger] self.active_formatting@[k]) is Some
                ==> element_name(self.dom@, self.active_formatting@[k]->0 as int) is Some
                && !is_special_name(element_name(self.dom@, self.active_formatting@[k]->0 as int)->0)
    }

    /// An empty document, nothing open, in the initial mode.
    pub fn new() -> (b: TreeBuilder)
        ensures
            b.wf(),
            b.dom@ == seq![NodeView { kind: KindView::Document, parent: None, children: Seq::empty() }],
            b.open_elements@ == Seq::<usize>::empty(),
            b.active_formatting@ == Seq::<Option<usize>>::empty(),
            b.mode == InsertMode::Initial,
            b.original_mode is None,
            b.head is None,
            b.frameset_ok,
            !b.scripting,
            b.tokenizer_state is None,
    {
        TreeBuilder {
            dom: Dom::new(),
            open_elements: Vec::new(),
            active_formatting: Vec::new(),
            mode: InsertMode::Initial,
            original_mode: None,
            head: None,
            frameset_ok: true,
            scripting: false,
            tokenizer_state: None,
        }
    }

    /// The current node: the last open element.
    pub fn current_node(&self) -> (r: Option<usize>)
        ensures
            r == (if self.open_elements@.len() == 0 {
                None
            } else {
                Some(self.open_elements@.last())
            }),
    {
        if self.open_elements.len() == 0 {
            None
        } else {
            Some(self.open_elements[self.open_elements.len() - 1])
        }
    }

    /// Some open element is named `name`.
    pub fn contains_tag(&self, name: &str) -> (r: bool)
        ensures
            r == exists|k: int|
                0 <= k < self.open_elements@.len() && element_name(self.dom@, self.open_elements@[k] as int)
                    == Some(name@),
    {
        let mut k: usize = 0;
        while k < self.open_elements.len()
            invariant
                k <= self.open_elements@.len(),
                forall|j: int|
                    0 <= j < k ==> element_name(self.dom@, self.open_elements@[j] as int) != Some(name@),
            decreases self.open_elements@.len() - k,
        {
            if self.dom.is_element_named(self.open_elements[k], name) {
                return true;
            }
            k = k + 1;
        }
        false
    }

    /// An element named `target` is in the scope bounded by `scope_names`.
    pub fn has_element_in_specific_scope(&self, target_name: &str, scope_names: &[&str]) -> (r: bool)
        ensures
            r == in_scope(self.dom@, self.open_elements@, target_name@, scope_names@),
    {
        let ghost open = self.open_elements@;
        let mut i: usize = self.open_elements.len();
        assert(open.take(i as int) =~= open);
        while i > 0
            invariant
                i <= open.len(),
                open == self.open_elements@,
                in_scope(self.dom@, open, target_name@, scope_names@)
                    == in_scope(self.dom@, open.take(i as int), target_name@, scope_names@),
            decreases i,
        {
            let ghost pre = open.take(i as int);
            assert(pre.drop_last() =~= open.take(i - 1));
            i = i - 1;
            let e = self.open_elements[i];
            match self.dom.element_name(e) {
                Some(n) => {
                    if str_is(n, target_name) {
                        return true;
                    }
                    if name_in(scope_names, n) {
                        return false;
                    }
                },
                None => {},
            }
        }
        false
    }

    /// An element named `target` is in the default scope.
    pub fn has_element_in_default_scope(&self, target_name: &str) -> (r: bool)
        ensures
            r == in_scope(self.dom@, self.open_elements@, target_name@, default_scope()),
    {
        let names: [&str; 14] = ["applet", "caption", "html", "table", "td", "th", "marquee", "object", "template", "mi", "mo", "mn", "ms", "mtext"];
        assert(names@ =~= default_scope());
        self.has_element_in_specific_scope(target_name, &names)
    }

    /// An element named `target` is in the button scope.
    pub fn has_element_in_button_scope(&self, target_name: &str) -> (r: bool)
        ensures
            r == in_scope(self.dom@, self.open_elements@, target_name@, button_scope()),
    {
        let names: [&str; 15] = ["applet", "caption", "html", "table", "td", "th", "marquee", "object", "template", "mi", "mo", "mn", "ms", "mtext", "button"];
        assert(names@ =~= button_scope());
        self.has_element_in_specific_scope(target_name, &names)
    }

    /// An element named `target` is in the list item scope.
    pub fn has_element_in_list_item_scope(&self, target_name: &str) -> (r: bool)
        ensures
            r == in_scope(self.dom@, self.open_elements@, target_name@, list_item_scope()),
    {
        let names: [&str; 16] = ["applet", "caption", "html", "table", "td", "th", "marquee", "object", "template", "mi", "mo", "mn", "ms", "mtext", "ol", "ul"];
        assert(names@ =~= list_item_scope());
        self.has_element_in_specific_scope(target_name, &names)
    }

    /// Some open element is not one of `plain_special_names`.
    pub fn has_non_special_element_in_scope(&self) -> (r: bool)
        requires
            self.wf(),
        ensures
            r == exists|k: int|
                0 <= k < self.open_elements@.len() && !scope_has(
                    plain_special_names(),
                    element_name(self.dom@, self.open_elements@[k] as int)->0,
                ),
    {
        let names: [&str; 18] = ["dd", "dt", "li", "optgroup", "option", "p", "rb", "rp", "rt", "rtc", "tbody", "td", "tfoot", "th", "thead", "tr", "body", "html"];
        assert(names@ =~= plain_special_names());
        let mut i: usize = self.open_elements.len();
        while i > 0
            invariant
                i <= self.open_elements@.len(),
                self.wf(),
                names@ == plain_special_names(),
                forall|k: int|
                    i <= k < self.open_elements@.len() ==> scope_has(
                        plain_special_names(),
                        element_name(self.dom@, self.open_elements@[k] as int)->0,
                    ),
            decreases i,
        {
            i = i - 1;
            let e = self.open_elements[i];
            assert(element_name(self.dom@, self.open_elements@[i as int] as int) is Some);
            match self.dom.element_name(e) {
                Some(n) => {
                    if !name_in(&names, n) {
                        return true;
                    }
                },
                None => {},
            }
        }
        false
    }

    /// Pops the current node, if there is one.
    pub fn pop(&mut self) -> (r: Option<usize>)
        requires
            old(self).wf(),
        ensures
            final(self)@ == bv_pop(old(self)@),
            same_modes(*old(self), *final(self)),
            final(self).wf(),
            final(self).dom@ == old(self).dom@,
            final(self).active_formatting@ == old(self).active_formatting@,
            old(self).open_elements@.len() == 0 ==> r is None && final(self).open_elements@ == old(self).open_elements@,
            old(self).open_elements@.len() > 0 ==> r == Some(old(self).open_elements@.last())
                && final(self).open_elements@ == old(self).open_elements@.drop_last(),
    {
        let r = self.open_elements.pop();
        proof {
            assert forall|k: int| 0 <= k < self.open_elements@.len() implies
                (#[trigger] element_name(self.dom@, self.open_elements@[k] as int)) is Some by {
                assert(self.open_elements@[k] == old(self).open_elements@[k]);
            }
        }
        r
    }

    /// Pops open elements down to, and including, the last one named
    /// `target_name`; all of them where there is none.
    pub fn pop_until(&mut self, target_name: &str)
        requires
            old(self).wf(),
        ensures
            final(self)@ == bv_pop_until(old(self)@, target_name@),
            same_modes(*old(self), *final(self)),
            final(self).wf(),
            final(self).dom@ == old(self).dom@,
            final(self).active_formatting@ == old(self).active_formatting@,
            final(self).open_elements@ == popped_until(old(self).dom@, old(self).open_elements@, target_name@),
        decreases old(self).open_elements@.len(),
    {
        let ghost before = self.open_elements@;
        match self.pop() {
            Some(e) => {
                if !self.dom.is_element_named(e, target_name) {
                    self.pop_until(target_name);
                }
            },
            None => {},
        }
    }

    /// Pops the open elements whose end tags are implied, but for one named
    /// `exclude`.
    pub fn generate_implied_end_tags(&mut self, exclude: Option<&str>)
        requires
            old(self).wf(),
        ensures
            final(self)@ == bv_implied(old(self)@, match exclude { Some(x) => Some(x@), None => None }),
            same_modes(*old(self), *final(self)),
            final(self).wf(),
            final(self).dom@ == old(self).dom@,
            final(self).active_formatting@ == old(self).active_formatting@,
            final(self).open_elements@ == implied_popped(
                old(self).dom@,
                old(self).open_elements@,
                match exclude {
                    Some(x) => Some(x@),
                    None => None,
                },
            ),
        decreases old(self).open_elements@.len(),
    {
        let names: [&str; 10] = ["dd", "dt", "li", "option", "optgroup", "p", "rb", "rp", "rt", "rtc"];
        assert(names@ =~= implied_end_tags());
        let e = match self.current_node() {
            Some(e) => e,
            None => return,
        };
        let implied = match self.dom.element_name(e) {
            Some(n) => name_in(&names, n) && match exclude {
                Some(x) => !str_is(n, x),
                None => true,
            },
            None => false,
        };
        if implied {
            self.pop();
            self.generate_implied_end_tags(exclude);
        }
    }

    /// Closes a `p` element: the implied end tags but `p`'s, then pops down
    /// to the last `p`.
    pub fn close_p_tag(&mut self)
        requires
            old(self).wf(),
        ensures
            final(self)@ == bv_close_p(old(self)@),
            same_modes(*old(self), *final(self)),
            final(self).wf(),
            final(self).dom@ == old(self).dom@,
            final(self).open_elements@ == popped_until(
                old(self).dom@,
                implied_popped(old(self).dom@, old(self).open_elements@, Some("p"@)),
                "p"@,
            ),
    {
        self.generate_implied_end_tags(Some("p"));
        self.pop_until("p");
    }

    /// Inserts the root element for `tag` as the last child of the
    /// document, and pushes it onto the open elements.
    pub fn insert_root_element(&mut self, tag: &Tag) -> (n: usize)
        requires
            old(self).wf(),
            old(self).dom@.len() < usize::MAX,
        ensures
            same_modes(*old(self), *final(self)),
            final(self).wf(),
            n == old(self).dom@.len(),
            final(self).dom@ == appended(old(self).dom@, 0, KindView::Element(tag@.name, tag@.attributes)),
            final(self).open_elements@ == old(self).open_elements@.push(n),
            final(self).active_formatting@ == old(self).active_formatting@,
    {
        let kind = NodeKind::Element { name: copy_string(&tag.name), attributes: copy_attrs(&tag.attributes) };
        let ghost v = self.dom@;
        let n = self.dom.append(0, kind);
        self.open_elements.push(n);
        proof {
            lemma_names_kept(v, 0, KindView::Element(tag@.name, tag@.attributes));
            assert forall|k: int| 0 <= k < self.open_elements@.len() implies
                (#[trigger] element_name(self.dom@, self.open_elements@[k] as int)) is Some by {
                if k < old(self).open_elements@.len() {
                    assert(self.open_elements@[k] == old(self).open_elements@[k]);
                    assert(element_name(v, old(self).open_elements@[k] as int) is Some);
                }
            }
            assert forall|k: int|
                0 <= k < self.active_formatting@.len() && (#[trigger] self.active_formatting@[k]) is Some implies
                element_name(self.dom@, self.active_formatting@[k]->0 as int) is Some by {
                assert(element_name(v, self.active_formatting@[k]->0 as int) is Some);
            }
        }
        n
    }

    /// Inserts an HTML element for `tag` as the last child of the current
    /// node, and pushes it onto the open elements.
    pub fn insert_html_element(&mut self, tag: &Tag) -> (n: usize)
        requires
            old(self).wf(),
            old(self).open_elements@.len() > 0,
            old(self).dom@.len() < usize::MAX,
        ensures
            final(self)@ == bv_insert(old(self)@, tag@),
            same_modes(*old(self), *final(self)),
            final(self).wf(),
            n == old(self).dom@.len(),
            final(self).dom@ == appended(
                old(self).dom@,
                old(self).open_elements@.last() as int,
                KindView::Element(tag@.name, tag@.attributes),
            ),
            final(self).open_elements@ == old(self).open_elements@.push(n),
            final(self).active_formatting@ == old(self).active_formatting@,
    {
        let p = self.open_elements[self.open_elements.len() - 1];
        assert(element_name(self.dom@, self.open_elements@[self.open_elements@.len() - 1] as int) is Some);
        let kind = NodeKind::Element { name: copy_string(&tag.name), attributes: copy_attrs(&tag.attributes) };
        let ghost v = self.dom@;
        let n = self.dom.append(p, kind);
        self.open_elements.push(n);
        proof {
            lemma_names_kept(v, p as int, KindView::Element(tag@.name, tag@.attributes));
            assert forall|k: int| 0 <= k < self.open_elements@.len() implies
                (#[trigger] element_name(self.dom@, self.open_elements@[k] as int)) is Some by {
                if k < old(self).open_elements@.len() {
                    assert(self.open_elements@[k] == old(self).open_elements@[k]);
                    assert(element_name(v, old(self).open_elements@[k] as int) is Some);
                }
            }
            assert forall|k: int|
                0 <= k < self.active_formatting@.len() && (#[trigger] self.active_formatting@[k]) is Some implies
                element_name(self.dom@, self.active_formatting@[k]->0 as int) is Some by {
                assert(element_name(v, self.active_formatting@[k]->0 as int) is Some);
            }
        }
        n
    }

    /// Inserts `ch` at the end of the current node: onto its last child
    /// where that is a text node, else as a new text node.
    pub fn insert_character(&mut self, ch: char)
        requires
            old(self).wf(),
            old(self).open_elements@.len() > 0,
            old(self).dom@.len() < usize::MAX,
        ensures
            final(self)@ == bv_char(old(self)@, ch),
            same_modes(*old(self), *final(self)),
            final(self).wf(),
            final(self).open_elements@ == old(self).open_elements@,
            final(self).active_formatting@ == old(self).active_formatting@,
            ({
                let v = old(self).dom@;
                let p = old(self).open_elements@.last() as int;
                let c = v[p].children;
                if c.len() > 0 && v[c.last() as int].kind is Text {
                    final(self).dom@ == v.update(
                        c.last() as int,
                        NodeView { kind: KindView::Text(v[c.last() as int].kind->Text_0.push(ch)), ..v[c.last() as int] },
                    )
                } else {
                    final(self).dom@ == appended(v, p, KindView::Text(seq![ch]))
                }
            }),
    {
        let p = self.open_elements[self.open_elements.len() - 1];
        assert(element_name(self.dom@, self.open_elements@[self.open_elements@.len() - 1] as int) is Some);
        let ghost v = self.dom@;
        match self.dom.last_child(p) {
            Some(last) => {
                if self.dom.is_text(last) {
                    self.dom.push_to_text(last, ch);
                    proof {
                        lemma_text_change_keeps(v, last as int, v[last as int].kind->Text_0.push(ch));
                        self.lemma_elements_kept(v);
                    }
                    return;
                }
            },
            None => {},
        }
        let mut s = String::new();
        push_char(&mut s, ch);
        assert(s@ =~= seq![ch]);
        self.dom.append(p, NodeKind::Text(s));
        proof {
            lemma_names_kept(v, p as int, KindView::Text(seq![ch]));
            self.lemma_elements_kept(v);
        }
    }

    /// Inserts a comment holding `data` as the last child of node `parent`,
    /// or of the current node where `parent` is `None`.
    pub fn insert_comment(&mut self, data: &str, parent: Option<usize>)
        requires
            old(self).wf(),
            parent is None ==> old(self).open_elements@.len() > 0,
            parent matches Some(p) ==> p < old(self).dom@.len(),
            old(self).dom@.len() < usize::MAX,
        ensures
            same_modes(*old(self), *final(self)),
            final(self).wf(),
            final(self).open_elements@ == old(self).open_elements@,
            final(self).active_formatting@ == old(self).active_formatting@,
            final(self).dom@ == appended(
                old(self).dom@,
                match parent {
                    Some(p) => p as int,
                    None => old(self).open_elements@.last() as int,
                },
                KindView::Comment(data@),
            ),
    {
        let p = match parent {
            Some(p) => p,
            None => {
                assert(element_name(self.dom@, self.open_elements@[self.open_elements@.len() - 1] as int) is Some);
                self.open_elements[self.open_elements.len() - 1]
            },
        };
        let ghost v = self.dom@;
        let text = data.to_owned();
        self.dom.append(p, NodeKind::Comment(text));
        proof {
            lemma_names_kept(v, p as int, KindView::Comment(data@));
            self.lemma_elements_kept(v);
        }
    }

    /// The index of the last marker among the active formatting elements.
    pub fn last_marker(&self) -> (r: Option<usize>)
        ensures
            r matches Some(i) ==> last_marker(self.active_formatting@) == Some(i as int),
            r is None ==> last_marker(self.active_formatting@) is None,
    {
        let ghost a = self.active_formatting@;
        let mut i: usize = self.active_formatting.len();
        assert(a.take(i as int) =~= a);
        while i > 0
            invariant
                i <= a.len(),
                a == self.active_formatting@,
                last_marker(a) == last_marker(a.take(i as int)),
            decreases i,
        {
            assert(a.take(i as int).drop_last() =~= a.take(i - 1));
            i = i - 1;
            if self.active_formatting[i].is_none() {
                return Some(i);
            }
        }
        None
    }

    /// Pushes `element` onto the active formatting elements, first removing
    /// the earliest entry that is the same element where three such come
    /// after the last marker (the Noah's Ark clause).
    pub fn push_active_formatting(&mut self, element: usize)
        requires
            old(self).wf(),
            element_name(old(self).dom@, element as int) is Some,
            !is_special_name(element_name(old(self).dom@, element as int)->0),
        ensures
            final(self)@ == bv_push_afe(old(self)@, element),
            same_modes(*old(self), *final(self)),
            final(self).wf(),
            final(self).dom@ == old(self).dom@,
            final(self).open_elements@ == old(self).open_elements@,
            final(self).active_formatting@ == afe_pushed(old(self).dom@, old(self).active_formatting@, element),
    {
        let ghost a = self.active_formatting@;
        let ghost v = self.dom@;
        proof {
            lemma_last_marker_bound(a);
        }
        let len = self.active_formatting.len();
        let start = match self.last_marker() {
            Some(i) => {
                assert(i < a.len());
                i + 1
            },
            None => 1,
        };
        assert(start == ark_start(a));
        if self.active_formatting.len() >= 1 {
            let mut count: usize = 0;
            let mut k: usize = self.active_formatting.len();
            while k > start
                invariant
                    start <= a.len(),
                    start <= k <= a.len(),
                    a == self.active_formatting@,
                    v == self.dom@,
                    self.wf(),
                    element_name(v, element as int) is Some,
                    a.len() == len,
                    count <= a.len() - k,
                    count == count_same(v, a, element, k as int),
                decreases k,
            {
                k = k - 1;
                let same = match self.active_formatting[k] {
                    Some(x) => {
                        assert(element_name(v, a[k as int]->0 as int) is Some);
                        self.dom.same_element(x, element)
                    },
                    None => false,
                };
                assert(same == same_entry(v, a, k as int, element));
                if same {
                    count = count + 1;
                }
                proof {
                    lemma_count_split(v, a, element, start as int, k as int);
                }
            }
            assert(count == count_same(v, a, element, ark_start(a)));
            if count >= 3 {
                proof {
                    lemma_first_same(v, a, element, 0, start as int);
                }
                let f = self.first_same_index(element);
                assert(f < a.len());
                self.active_formatting.remove(f);
            }
        }
        self.active_formatting.push(Some(element));
        proof {
            lemma_pushed_entries(v, a, element);
            let r = self.active_formatting@;
            assert forall|k: int| 0 <= k < r.len() && (#[trigger] r[k]) is Some implies
                element_name(self.dom@, r[k]->0 as int) is Some by {
                if r[k] != Some(element) {
                    let j = choose|j: int| 0 <= j < a.len() && a[j] == r[k];
                    assert(old(self).active_formatting@[j] is Some);
                }
            }
        }
    }

    /// The first entry that is the same element as `element`, where there
    /// is one.
    fn first_same_index(&self, element: usize) -> (f: usize)
        requires
            self.wf(),
            element_name(self.dom@, element as int) is Some,
            first_same(self.dom@, self.active_formatting@, element, 0) is Some,
        ensures
            first_same(self.dom@, self.active_formatting@, element, 0) == Some(f as int),
    {
        let ghost a = self.active_formatting@;
        let ghost v = self.dom@;
        let mut f: usize = 0;
        while f < self.active_formatting.len()
            invariant
                f <= a.len(),
                a == self.active_formatting@,
                v == self.dom@,
                self.wf(),
                element_name(v, element as int) is Some,
                first_same(v, a, element, 0) == first_same(v, a, element, f as int),
                first_same(v, a, element, 0) is Some,
            decreases a.len() - f,
        {
            let same = match self.active_formatting[f] {
                Some(x) => {
                    assert(element_name(v, a[f as int]->0 as int) is Some);
                    self.dom.same_element(x, element)
                },
                None => false,
            };
            assert(same == same_entry(v, a, f as int, element));
            if same {
                return f;
            }
            f = f + 1;
        }
        f
    }

    /// The generic raw text and RCDATA element parsing algorithms: an
    /// element for `tag` is opened, the tokenizer switches to `state`, and
    /// the mode becomes the text mode, to return to the current one.
    pub fn enter_text(&mut self, tag: &Tag, state: ParserState)
        requires
            old(self).wf(),
            old(self).open_elements@.len() > 0,
            old(self).dom@.len() < usize::MAX,
        ensures
            final(self)@ == bv_text(old(self)@, tag@, state),
            final(self).wf(),
            text_entered(*old(self), *final(self), tag@, state),
    {
        self.insert_html_element(tag);
        self.tokenizer_state = Some(state);
        self.original_mode = Some(copy_mode(&self.mode));
        self.mode = InsertMode::Text;
    }

    /// Reconstructs the active formatting elements: where the last entry
    /// is an element that no open element is named as, rewinds to the first
    /// entry after a marker or after an entry an open element is named as,
    /// and recreates the entries from there on (see `recreated`).
    pub fn reconstruct_active_formatting_elements(&mut self)
        requires
            old(self).wf(),
            needs_reconstruct(old(self).dom@, old(self).open_elements@, old(self).active_formatting@)
                ==> old(self).open_elements@.len() > 0,
            old(self).dom@.len() + old(self).active_formatting@.len() < usize::MAX,
        ensures
            final(self)@ == bv_reconstruct(old(self)@),
            final(self).wf(),
            same_modes(*old(self), *final(self)),
            ({
                let v = old(self).dom@;
                let open = old(self).open_elements@;
                let afe = old(self).active_formatting@;
                if needs_reconstruct(v, open, afe) {
                    (final(self).dom@, final(self).open_elements@, final(self).active_formatting@)
                        == recreated(v, open, afe, rewind_to(v, open, afe, afe.len() - 1))
                } else {
                    &&& final(self).dom@ == v
                    &&& final(self).open_elements@ == open
                    &&& final(self).active_formatting@ == afe
                }
            }),
    {
        let ghost v0 = self.dom@;
        let ghost open0 = self.open_elements@;
        let ghost afe0 = self.active_formatting@;
        let len = self.active_formatting.len();
        if len == 0 {
            return;
        }
        if !self.rewind_stops(len - 1) {
        } else {
            return;
        }
        let mut pos: usize = len - 1;
        while pos > 0
            invariant
                0 <= pos < len,
                len == afe0.len(),
                self.dom@ == v0,
                self.open_elements@ == open0,
                self.active_formatting@ == afe0,
                self.wf(),
                rewind_to(v0, open0, afe0, len - 1) == rewind_to(v0, open0, afe0, pos as int),
            ensures
                rewind_to(v0, open0, afe0, len - 1) == pos,
            decreases pos,
        {
            if self.rewind_stops(pos - 1) {
                break;
            }
            pos = pos - 1;
        }
        let ghost start = rewind_to(v0, open0, afe0, len - 1);
        proof {
            lemma_rewind_entries(v0, open0, afe0, len - 1);
            assert forall|k: int| pos <= k < len implies (#[trigger] afe0[k]) is Some && 0 <= afe0[k]->0 < v0.len()
                && v0[afe0[k]->0 as int].kind == v0[afe0[k]->0 as int].kind by {
                if k < len - 1 {
                    assert(!stops_rewind(v0, open0, afe0[k]));
                }
                assert(element_name(v0, afe0[k]->0 as int) is Some);
            }
        }
        let mut i: usize = pos;
        while i < len
            invariant
                pos <= i <= len,
                len == afe0.len(),
                self.wf(),
                same_modes(*old(self), *self),
                self.active_formatting@.len() == len,
                self.open_elements@.len() > 0,
                self.dom@.len() + len - i < usize::MAX,
                forall|k: int| i <= k < len ==> #[trigger] self.active_formatting@[k] == afe0[k],
                forall|k: int| i <= k < len ==> (#[trigger] afe0[k]) is Some && 0 <= afe0[k]->0 < self.dom@.len()
                    && self.dom@[afe0[k]->0 as int].kind == v0[afe0[k]->0 as int].kind,
                recreated(v0, open0, afe0, start)
                    == recreated(self.dom@, self.open_elements@, self.active_formatting@, i as int),
            decreases len - i,
        {
            let e = match self.active_formatting[i] {
                Some(e) => e,
                None => 0,
            };
            let ghost d1 = self.dom@;
            let ghost o1 = self.open_elements@;
            let ghost a1 = self.active_formatting@;
            assert(element_name(d1, o1.last() as int) is Some);
            let tag = self.dom.element_tag(e);
            let n = self.insert_html_element(&tag);
            self.active_formatting.set(i, Some(n));
            proof {
                assert(self.active_formatting@ =~= a1.update(i as int, Some(n)));
                assert(recreated(d1, o1, a1, i as int) == recreated(self.dom@, self.open_elements@, self.active_formatting@, i + 1));
                assert(element_name(self.dom@, n as int) is Some);
                assert forall|k: int|
                    0 <= k < self.active_formatting@.len() && (#[trigger] self.active_formatting@[k]) is Some implies
                    element_name(self.dom@, self.active_formatting@[k]->0 as int) is Some by {
                    if k != i {
                        assert(self.active_formatting@[k] == a1[k]);
                    }
                }
                assert forall|k: int| i + 1 <= k < len implies (#[trigger] afe0[k]) is Some && 0 <= afe0[k]->0 < self.dom@.len()
                    && self.dom@[afe0[k]->0 as int].kind == v0[afe0[k]->0 as int].kind by {
                    assert(d1[afe0[k]->0 as int].kind == v0[afe0[k]->0 as int].kind);
                    lemma_kinds_kept(d1, o1.last() as int, KindView::Element(tag@.name, tag@.attributes), afe0[k]->0 as int);
                }
            }
            i = i + 1;
        }
    }

    /// Whether entry `k` stops the rewinding.
    fn rewind_stops(&self, k: usize) -> (r: bool)
        requires
            self.wf(),
            k < self.active_formatting@.len(),
        ensures
            r == stops_rewind(self.dom@, self.open_elements@, self.active_formatting@[k as int]),
    {
        match self.active_formatting[k] {
            None => true,
            Some(e) => {
                assert(element_name(self.dom@, self.active_formatting@[k as int]->0 as int) is Some);
                let name = match self.dom.element_name(e) {
                    Some(n) => n,
                    None => return false,
                };
                let mut j: usize = 0;
                while j < self.open_elements.len()
                    invariant
                        j <= self.open_elements@.len(),
                        k < self.active_formatting@.len(),
                        self.active_formatting@[k as int] == Some(e),
                        element_name(self.dom@, e as int) == Some(name@),
                        forall|q: int| 0 <= q < j ==> element_name(self.dom@, self.open_elements@[q] as int) != Some(name@),
                    decreases self.open_elements@.len() - j,
                {
                    let x = chars_of(name.as_str());
                    let same = match self.dom.element_name(self.open_elements[j]) {
                        Some(m) => string_is(m, x.as_slice()),
                        None => false,
                    };
                    if same {
                        assert(element_name(self.dom@, self.open_elements@[j as int] as int) == element_name(self.dom@, e as int));
                        assert(open_has_name_of(self.dom@, self.open_elements@, e));
                        return true;
                    }
                    j = j + 1;
                }
                false
            },
        }
    }

    /// Removes every entry `Some(e)` from the active formatting elements.
    fn remove_entry(&mut self, e: usize)
        requires
            old(self).wf(),
        ensures
            final(self).wf(),
            final(self)@ == (BuilderView { afe: old(self)@.afe.filter(not_entry(e)), ..old(self)@ }),
    {
        let ghost a = self.active_formatting@;
        let mut kept: Vec<Option<usize>> = Vec::new();
        let mut i: usize = 0;
        while i < self.active_formatting.len()
            invariant
                i <= a.len(),
                a == self.active_formatting@,
                self.wf(),
                kept@ == a.take(i as int).filter(not_entry(e)),
                forall|k: int|
                    0 <= k < kept@.len() && (#[trigger] kept@[k]) is Some
                        ==> element_name(self.dom@, kept@[k]->0 as int) is Some
                        && !is_special_name(element_name(self.dom@, kept@[k]->0 as int)->0),
            decreases a.len() - i,
        {
            let x = self.active_formatting[i];
            assert(a.take(i + 1).drop_last() =~= a.take(i as int));
            assert(a.take(i + 1).last() == x);
            assert(not_entry(e)(x) == (x != Some(e)));
            proof {
                lemma_filter_step(a.take(i + 1), e);
            }
            if x != Some(e) {
                kept.push(x);
            }
            i = i + 1;
        }
        assert(a.take(a.len() as int) =~= a);
        self.active_formatting = kept;
    }

    /// Some active formatting entry is `Some(e)`.
    fn afe_contains(&self, e: usize) -> (r: bool)
        ensures
            r == self.active_formatting@.contains(Some(e)),
    {
        let mut i: usize = 0;
        while i < self.active_formatting.len()
            invariant
                i <= self.active_formatting@.len(),
                forall|k: int| 0 <= k < i ==> self.active_formatting@[k] != Some(e),
            decreases self.active_formatting@.len() - i,
        {
            if self.active_formatting[i] == Some(e) {
                return true;
            }
            i = i + 1;
        }
        false
    }

    /// The adoption agency algorithm for the end tag `tag` (see `bv_adopt`).
    /// The index of the last active formatting entry from `lo` on that is
    /// an element named `subject`.
    pub fn last_entry_named(&self, lo: usize, subject: &str) -> (r: Option<usize>)
        requires
            lo <= self.active_formatting@.len(),
        ensures
            match r {
                Some(f) => last_named_entry(
                    self.dom@,
                    self.active_formatting@,
                    subject@,
                    lo as int,
                    self.active_formatting@.len() as int,
                ) == Some(f as int),
                None => last_named_entry(
                    self.dom@,
                    self.active_formatting@,
                    subject@,
                    lo as int,
                    self.active_formatting@.len() as int,
                ) is None,
            },
    {
        let ghost n = self.active_formatting@.len() as int;
        let ghost v = self.dom@;
        let ghost a = self.active_formatting@;
        let mut k: usize = self.active_formatting.len();
        while k > lo
            invariant
                lo <= k <= n,
                n == a.len(),
                v == self.dom@,
                a == self.active_formatting@,
                last_named_entry(v, a, subject@, lo as int, n) == last_named_entry(v, a, subject@, lo as int, k as int),
            decreases k,
        {
            let named = match self.active_formatting[k - 1] {
                Some(e) => self.dom.is_element_named(e, subject),
                None => false,
            };
            if named {
                return Some(k - 1);
            }
            k = k - 1;
        }
        None
    }

    pub fn adoption_agency(&mut self, tag: &Tag)
        requires
            old(self).wf(),
        ensures
            final(self).wf(),
            final(self)@ == bv_adopt(old(self)@, tag@.name),
    {
        let subject = tag.name.as_str();
        let ghost b = self@;
        match self.current_node() {
            Some(cur) => {
                if self.dom.is_element_named(cur, subject) && !self.afe_contains(cur) {
                    self.pop();
                    return;
                }
            },
            None => {},
        }
        proof {
            lemma_last_marker_bound(self.active_formatting@);
        }
        let lo = match self.last_marker() {
            Some(i) => i,
            None => 0,
        };
        let ghost n = self.active_formatting@.len() as int;
        let found = self.last_entry_named(lo, subject);
        let f = match found {
            Some(f) => f,
            None => return,
        };
        proof {
            lemma_last_named_bound(b.dom, b.afe, tag@.name, lo as int, n);
        }
        let fe = match self.active_formatting[f] {
            Some(x) => x,
            None => 0,
        };
        if !self.contains_tag(subject) {
            self.remove_entry(fe);
            return;
        }
        if !self.has_element_in_default_scope(subject) {
            return;
        }
        self.pop_until(subject);
        self.remove_entry(fe);
    }

    proof fn lemma_elements_kept(&self, v: Seq<NodeView>)
        requires
            forall|i: int| 0 <= i < v.len() ==> element_name(self.dom@, i) == #[trigger] element_name(v, i),
            forall|k: int|
                0 <= k < self.open_elements@.len() ==> (#[trigger] element_name(v, self.open_elements@[k] as int)) is Some,
            forall|k: int|
                0 <= k < self.active_formatting@.len() && (#[trigger] self.active_formatting@[k]) is Some
                    ==> element_name(v, self.active_formatting@[k]->0 as int) is Some,
        ensures
            forall|k: int|
                0 <= k < self.open_elements@.len() ==> (#[trigger] element_name(self.dom@, self.open_elements@[k] as int)) is Some,
            forall|k: int|
                0 <= k < self.active_formatting@.len() && (#[trigger] self.active_formatting@[k]) is Some
                    ==> element_name(self.dom@, self.active_formatting@[k]->0 as int) is Some,
    {
        assert forall|k: int| 0 <= k < self.open_elements@.len() implies
            (#[trigger] element_name(self.dom@, self.open_elements@[k] as int)) is Some by {
            assert(element_name(v, self.open_elements@[k] as int) is Some);
        }
        assert forall|k: int|
            0 <= k < self.active_formatting@.len() && (#[trigger] self.active_formatting@[k]) is Some implies
            element_name(self.dom@, self.active_formatting@[k]->0 as int) is Some by {
            assert(element_name(v, self.active_formatting@[k]->0 as int) is Some);
        }
    }
}

/// A tag named `name`, without attributes.
pub open spec fn named_tag(name: Seq<char>) -> TagView {
    TagView { name, is_self_closing: false, attributes: Seq::empty() }
}

/// The white space that the first insertion modes pass over.
pub open spec fn is_blank(c: char) -> bool {
    c == '\t' || c == '\n' || c == '\x0C' || c == '\r' || c == ' '
}

pub(crate) fn blank(c: char) -> (r: bool)
    ensures
        r == is_blank(c),
{
    c == '\t' || c == '\n' || c == '\x0C' || c == '\r' || c == ' '
}

/// `tag` is an end tag that the first insertion modes act on: `head`,
/// `body`, `html` or `br`.
pub open spec fn is_acted_end(name: Seq<char>) -> bool {
    name == "head"@ || name == "body"@ || name == "html"@ || name == "br"@
}

fn acted_end(name: &String) -> (r: bool)
    ensures
        r == is_acted_end(name@),
{
    str_is(name, "head") || str_is(name, "body") || str_is(name, "html") || str_is(name, "br")
}

/// The builder is unchanged but for its mode.
pub open spec fn only_mode(old_b: TreeBuilder, new_b: TreeBuilder, mode: InsertMode) -> bool {
    &&& new_b.dom@ == old_b.dom@
    &&& new_b.open_elements@ == old_b.open_elements@
    &&& new_b.active_formatting@ == old_b.active_formatting@
    &&& new_b.mode == mode
    &&& new_b.original_mode == old_b.original_mode
    &&& new_b.head == old_b.head
    &&& new_b.frameset_ok == old_b.frameset_ok
    &&& new_b.scripting == old_b.scripting
    &&& new_b.tokenizer_state == old_b.tokenizer_state
}

/// The builder with a comment holding `data` appended to the current node.
pub open spec fn comment_added(old_b: TreeBuilder, new_b: TreeBuilder, data: Seq<char>) -> bool {
    &&& new_b.dom@ == appended(old_b.dom@, old_b.open_elements@.last() as int, KindView::Comment(data))
    &&& new_b.open_elements@ == old_b.open_elements@
    &&& new_b.active_formatting@ == old_b.active_formatting@
    &&& new_b.mode == old_b.mode
    &&& new_b.original_mode == old_b.original_mode
    &&& new_b.head == old_b.head
    &&& new_b.frameset_ok == old_b.frameset_ok
    &&& new_b.scripting == old_b.scripting
    &&& new_b.tokenizer_state == old_b.tokenizer_state
}

/// The builder with a root element for `t` under the document, open, in
/// the before-head mode.
pub open spec fn root_added(old_b: TreeBuilder, new_b: TreeBuilder, t: TagView) -> bool {
    &&& new_b.dom@ == appended(old_b.dom@, 0, KindView::Element(t.name, t.attributes))
    &&& new_b.open_elements@ == old_b.open_elements@.push(old_b.dom@.len() as usize)
    &&& new_b.active_formatting@ == old_b.active_formatting@
    &&& new_b.mode == InsertMode::BeforeHead
    &&& new_b.original_mode == old_b.original_mode
    &&& new_b.head == old_b.head
    &&& new_b.frameset_ok == old_b.frameset_ok
    &&& new_b.scripting == old_b.scripting
    &&& new_b.tokenizer_state == old_b.tokenizer_state
}

/// The builder with a `head` element (for `t`) under the current node,
/// open and recorded as the head, in the in-head mode.
pub open spec fn head_added(old_b: TreeBuilder, new_b: TreeBuilder, t: TagView) -> bool {
    &&& new_b.dom@ == appended(
        old_b.dom@,
        old_b.open_elements@.last() as int,
        KindView::Element(t.name, t.attributes),
    )
    &&& new_b.open_elements@ == old_b.open_elements@.push(old_b.dom@.len() as usize)
    &&& new_b.active_formatting@ == old_b.active_formatting@
    &&& new_b.mode == InsertMode::InHead
    &&& new_b.original_mode == old_b.original_mode
    &&& new_b.head == Some(old_b.dom@.len() as usize)
    &&& new_b.frameset_ok == old_b.frameset_ok
    &&& new_b.scripting == old_b.scripting
    &&& new_b.tokenizer_state == old_b.tokenizer_state
}

/// The start tags of the in-head mode that insert an element and pop it
/// at once.
pub open spec fn is_void_head_name(n: Seq<char>) -> bool {
    n == "base"@ || n == "basefont"@ || n == "bgsound"@ || n == "link"@ || n == "meta"@
}

/// The start tags that belong in the head, which the after-head mode
/// ignores.
pub open spec fn is_head_content_name(n: Seq<char>) -> bool {
    n == "base"@ || n == "basefont"@ || n == "bgsound"@ || n == "link"@ || n == "meta"@ || n == "noframes"@
        || n == "script"@ || n == "style"@ || n == "template"@ || n == "title"@
}

pub(crate) fn head_content_name(n: &String) -> (r: bool)
    ensures
        r == is_head_content_name(n@),
{
    str_is(n, "base") || str_is(n, "basefont") || str_is(n, "bgsound") || str_is(n, "link") || str_is(n, "meta")
        || str_is(n, "noframes") || str_is(n, "script") || str_is(n, "style") || str_is(n, "template")
        || str_is(n, "title")
}

/// The tokens on which the in-head mode inserts into the current node.
pub open spec fn in_head_inserts(token: Token, scripting: bool) -> bool {
    match token {
        Token::Character(c) => is_blank(c),
        Token::Comment(_) => true,
        Token::StartTag(t) => is_void_head_name(t@.name) || t@.name == "title"@ || t@.name == "noscript"@
            || t@.name == "noframes"@ || t@.name == "style"@ || t@.name == "script"@,
        _ => false,
    }
}

/// The tokens on which the after-head mode inserts into the current node.
pub open spec fn after_head_inserts(token: Token) -> bool {
    match token {
        Token::DOCTYPE(_) => false,
        Token::StartTag(t) => !(t@.name == "html"@ || t@.name == "head"@ || is_head_content_name(t@.name)),
        Token::EndTag(t) => !(t@.name == "template"@ || !(t@.name == "body"@ || t@.name == "html"@ || t@.name == "br"@)),
        _ => true,
    }
}

/// The builder after `insert_character(c)`, in the same mode.
pub open spec fn char_inserted(old_b: TreeBuilder, new_b: TreeBuilder, ch: char) -> bool {
    let v = old_b.dom@;
    let p = old_b.open_elements@.last() as int;
    let c = v[p].children;
    &&& if c.len() > 0 && v[c.last() as int].kind is Text {
        new_b.dom@ == v.update(
            c.last() as int,
            NodeView { kind: KindView::Text(v[c.last() as int].kind->Text_0.push(ch)), ..v[c.last() as int] },
        )
    } else {
        new_b.dom@ == appended(v, p, KindView::Text(seq![ch]))
    }
    &&& new_b.open_elements@ == old_b.open_elements@
    &&& new_b.active_formatting@ == old_b.active_formatting@
    &&& same_modes(old_b, new_b)
}

/// The builder with the current node popped, if there is one, in the
/// after-head mode.
pub open spec fn head_popped(old_b: TreeBuilder, new_b: TreeBuilder) -> bool {
    &&& new_b.dom@ == old_b.dom@
    &&& new_b.open_elements@ == if old_b.open_elements@.len() > 0 {
        old_b.open_elements@.drop_last()
    } else {
        old_b.open_elements@
    }
    &&& new_b.active_formatting@ == old_b.active_formatting@
    &&& new_b.mode == InsertMode::AfterHead
    &&& new_b.original_mode == old_b.original_mode
    &&& new_b.head == old_b.head
    &&& new_b.frameset_ok == old_b.frameset_ok
    &&& new_b.scripting == old_b.scripting
    &&& new_b.tokenizer_state == old_b.tokenizer_state
}

/// The builder with the current node popped, if there is one, in `mode`.
pub open spec fn popped_to(old_b: TreeBuilder, new_b: TreeBuilder, mode: InsertMode) -> bool {
    &&& new_b.dom@ == old_b.dom@
    &&& new_b.open_elements@ == if old_b.open_elements@.len() > 0 {
        old_b.open_elements@.drop_last()
    } else {
        old_b.open_elements@
    }
    &&& new_b.active_formatting@ == old_b.active_formatting@
    &&& new_b.mode == mode
    &&& new_b.original_mode == old_b.original_mode
    &&& new_b.head == old_b.head
    &&& new_b.frameset_ok == old_b.frameset_ok
    &&& new_b.scripting == old_b.scripting
    &&& new_b.tokenizer_state == old_b.tokenizer_state
}

/// The builder with an element for `t` under the current node, not left
/// open.
pub open spec fn void_inserted(old_b: TreeBuilder, new_b: TreeBuilder, t: TagView) -> bool {
    &&& new_b.dom@ == appended(old_b.dom@, old_b.open_elements@.last() as int, KindView::Element(t.name, t.attributes))
    &&& new_b.open_elements@ == old_b.open_elements@
    &&& new_b.active_formatting@ == old_b.active_formatting@
    &&& same_modes(old_b, new_b)
}

/// The builder with an element for `t` under the current node and open.
pub open spec fn element_opened(old_b: TreeBuilder, new_b: TreeBuilder, t: TagView) -> bool {
    &&& new_b.dom@ == appended(old_b.dom@, old_b.open_elements@.last() as int, KindView::Element(t.name, t.attributes))
    &&& new_b.open_elements@ == old_b.open_elements@.push(old_b.dom@.len() as usize)
    &&& new_b.active_formatting@ == old_b.active_formatting@
}

/// The builder with an element for `t` opened, in `mode`.
pub open spec fn element_entered(old_b: TreeBuilder, new_b: TreeBuilder, t: TagView, mode: InsertMode) -> bool {
    &&& element_opened(old_b, new_b, t)
    &&& new_b.mode == mode
    &&& new_b.original_mode == old_b.original_mode
    &&& new_b.head == old_b.head
    &&& new_b.frameset_ok == old_b.frameset_ok
    &&& new_b.scripting == old_b.scripting
    &&& new_b.tokenizer_state == old_b.tokenizer_state
}

/// The builder with a body element for `t` opened, in the in-body mode,
/// with the frameset flag `frameset_ok`.
pub open spec fn body_entered(old_b: TreeBuilder, new_b: TreeBuilder, t: TagView, frameset_ok: bool) -> bool {
    &&& element_opened(old_b, new_b, t)
    &&& new_b.mode == InsertMode::InBody
    &&& new_b.original_mode == old_b.original_mode
    &&& new_b.head == old_b.head
    &&& new_b.frameset_ok == frameset_ok
    &&& new_b.scripting == old_b.scripting
    &&& new_b.tokenizer_state == old_b.tokenizer_state
}

/// The builder with an element for `t` opened, the tokenizer switched to
/// `state`, in the text mode that returns to the mode it was in.
pub open spec fn text_entered(old_b: TreeBuilder, new_b: TreeBuilder, t: TagView, state: ParserState) -> bool {
    &&& element_opened(old_b, new_b, t)
    &&& new_b.mode == InsertMode::Text
    &&& new_b.original_mode == Some(old_b.mode)
    &&& new_b.head == old_b.head
    &&& new_b.frameset_ok == old_b.frameset_ok
    &&& new_b.scripting == old_b.scripting
    &&& new_b.tokenizer_state == Some(state)
}

/// The tokens and builders on which the initial insertion mode completes.
pub open spec fn initial_ok(old_b: TreeBuilder, token: Token) -> bool {
    &&& old_b.dom@.len() < usize::MAX
    &&& token is Comment ==> old_b.open_elements@.len() > 0
    &&& token matches Token::DOCTYPE(d) ==> d@.name is Some
}

/// What the initial insertion mode does with `token`: `new_b` and `r` after
/// it from `old_b`.
pub open spec fn initial_step(old_b: TreeBuilder, token: Token, new_b: TreeBuilder, r: bool) -> bool {
    &&& match token {
            Token::Character(c) => if is_blank(c) {
                r && only_mode(old_b, new_b, old_b.mode)
            } else {
                !r && only_mode(old_b, new_b, InsertMode::BeforeHTML)
            },
            Token::Comment(data) => r && comment_added(old_b, new_b, data@),
            Token::DOCTYPE(d) => {
                &&& r
                &&& new_b.dom@ == appended(
                    old_b.dom@,
                    0,
                    KindView::DocumentType(
                        or_empty(d@.name),
                        or_empty(d@.public_identifier),
                        or_empty(d@.system_identifier),
                    ),
                )
                &&& new_b.open_elements@ == old_b.open_elements@
                &&& new_b.active_formatting@ == old_b.active_formatting@
                &&& new_b.mode == InsertMode::BeforeHTML
                &&& new_b.original_mode == old_b.original_mode
                &&& new_b.head == old_b.head
                &&& new_b.frameset_ok == old_b.frameset_ok
                &&& new_b.scripting == old_b.scripting
                &&& new_b.tokenizer_state == old_b.tokenizer_state
            },
            _ => !r && only_mode(old_b, new_b, InsertMode::BeforeHTML)
    }
}

/// The tokens and builders on which the before-html insertion mode completes.
pub open spec fn before_html_ok(old_b: TreeBuilder, token: Token) -> bool {
    &&& old_b.dom@.len() < usize::MAX
    &&& token is Comment ==> old_b.open_elements@.len() > 0
}

/// What the before-html insertion mode does with `token`: `new_b` and `r` after
/// it from `old_b`.
pub open spec fn before_html_step(old_b: TreeBuilder, token: Token, new_b: TreeBuilder, r: bool) -> bool {
    &&& match token {
            Token::DOCTYPE(_) => r && only_mode(old_b, new_b, old_b.mode),
            Token::Comment(data) => r && comment_added(old_b, new_b, data@),
            Token::Character(c) => if is_blank(c) {
                r && only_mode(old_b, new_b, old_b.mode)
            } else {
                !r && root_added(old_b, new_b, named_tag("html"@))
            },
            Token::StartTag(t) => if t@.name == "html"@ {
                r && root_added(old_b, new_b, t@)
            } else {
                !r && root_added(old_b, new_b, named_tag("html"@))
            },
            Token::EndTag(t) => if !is_acted_end(t@.name) {
                r && only_mode(old_b, new_b, old_b.mode)
            } else {
                !r && root_added(old_b, new_b, named_tag("html"@))
            },
            Token::EOF => !r && root_added(old_b, new_b, named_tag("html"@))
    }
}

/// The tokens and builders on which the before-head insertion mode completes.
pub open spec fn before_head_ok(old_b: TreeBuilder, token: Token) -> bool {
    &&& old_b.dom@.len() < usize::MAX
    &&& old_b.open_elements@.len() > 0
}

/// What the before-head insertion mode does with `token`: `new_b` and `r` after
/// it from `old_b`.
pub open spec fn before_head_step(old_b: TreeBuilder, token: Token, new_b: TreeBuilder, r: bool) -> bool {
    &&& match token {
            Token::Character(c) => if is_blank(c) {
                r && only_mode(old_b, new_b, old_b.mode)
            } else {
                !r && head_added(old_b, new_b, named_tag("head"@))
            },
            Token::Comment(data) => r && comment_added(old_b, new_b, data@),
            Token::DOCTYPE(_) => r && only_mode(old_b, new_b, old_b.mode),
            Token::StartTag(t) => if t@.name == "html"@ {
                r && only_mode(old_b, new_b, old_b.mode)
            } else if t@.name == "head"@ {
                r && head_added(old_b, new_b, t@)
            } else {
                !r && head_added(old_b, new_b, named_tag("head"@))
            },
            Token::EndTag(t) => if !is_acted_end(t@.name) {
                r && only_mode(old_b, new_b, old_b.mode)
            } else {
                !r && head_added(old_b, new_b, named_tag("head"@))
            },
            Token::EOF => !r && head_added(old_b, new_b, named_tag("head"@))
    }
}

/// The tokens and builders on which the in-head insertion mode completes.
pub open spec fn in_head_ok(old_b: TreeBuilder, token: Token) -> bool {
    &&& old_b.dom@.len() < usize::MAX
    &&& in_head_inserts(token, old_b.scripting) ==> old_b.open_elements@.len() > 0
}

/// The tokens and builders on which the after-head insertion mode completes.
pub open spec fn after_head_ok(old_b: TreeBuilder, token: Token) -> bool {
    &&& old_b.dom@.len() < usize::MAX
    &&& after_head_inserts(token) ==> old_b.open_elements@.len() > 0
}

/// What the after-head insertion mode does with `token`: `new_b` and `r` after
/// it from `old_b`.
pub open spec fn after_head_step(old_b: TreeBuilder, token: Token, new_b: TreeBuilder, r: bool) -> bool {
    &&& match token {
            Token::Character(c) => if is_blank(c) {
                r && char_inserted(old_b, new_b, c)
            } else {
                !r && body_entered(old_b, new_b, named_tag("body"@), old_b.frameset_ok)
            },
            Token::Comment(data) => r && comment_added(old_b, new_b, data@),
            Token::DOCTYPE(_) => r && only_mode(old_b, new_b, old_b.mode),
            Token::StartTag(t) => if t@.name == "html"@ || t@.name == "head"@ || is_head_content_name(t@.name) {
                r && only_mode(old_b, new_b, old_b.mode)
            } else if t@.name == "body"@ {
                r && body_entered(old_b, new_b, t@, false)
            } else if t@.name == "frameset"@ {
                r && element_entered(old_b, new_b, t@, InsertMode::InFrameset)
            } else {
                !r && body_entered(old_b, new_b, named_tag("body"@), old_b.frameset_ok)
            },
            Token::EndTag(t) => if t@.name == "template"@ || !(t@.name == "body"@ || t@.name == "html"@ || t@.name == "br"@) {
                r && only_mode(old_b, new_b, old_b.mode)
            } else {
                !r && body_entered(old_b, new_b, named_tag("body"@), old_b.frameset_ok)
            },
            Token::EOF => !r && body_entered(old_b, new_b, named_tag("body"@), old_b.frameset_ok)
    }
}

/// The tokens and builders on which the in-head-noscript insertion mode completes.
pub open spec fn in_head_noscript_ok(old_b: TreeBuilder, token: Token) -> bool {
    &&& old_b.dom@.len() < usize::MAX
    &&& match token {
            Token::Character(c) => is_blank(c),
            Token::Comment(_) => true,
            Token::StartTag(t) => t@.name == "base"@ || t@.name == "basefont"@ || t@.name == "bgsound"@
                || t@.name == "link"@,
            _ => false
    } ==> old_b.open_elements@.len() > 0
}

/// What the in-head-noscript insertion mode does with `token`: `new_b` and `r` after
/// it from `old_b`.
pub open spec fn in_head_noscript_step(old_b: TreeBuilder, token: Token, new_b: TreeBuilder, r: bool) -> bool {
    &&& match token {
            Token::DOCTYPE(_) => r && only_mode(old_b, new_b, old_b.mode),
            Token::Character(c) => if is_blank(c) {
                r && char_inserted(old_b, new_b, c)
            } else {
                !r && popped_to(old_b, new_b, InsertMode::InHead)
            },
            Token::Comment(data) => r && comment_added(old_b, new_b, data@),
            Token::StartTag(t) => if t@.name == "html"@ || t@.name == "head"@ || t@.name == "noscript"@ {
                r && only_mode(old_b, new_b, old_b.mode)
            } else if t@.name == "base"@ || t@.name == "basefont"@ || t@.name == "bgsound"@ || t@.name == "link"@ {
                r && void_inserted(old_b, new_b, t@)
            } else {
                !r && popped_to(old_b, new_b, InsertMode::InHead)
            },
            Token::EndTag(t) => if t@.name == "noscript"@ {
                r && popped_to(old_b, new_b, InsertMode::InHead)
            } else if t@.name != "br"@ {
                r && only_mode(old_b, new_b, old_b.mode)
            } else {
                !r && popped_to(old_b, new_b, InsertMode::InHead)
            },
            Token::EOF => !r && popped_to(old_b, new_b, InsertMode::InHead)
    }
}

/// The tokens and builders on which the text insertion mode completes.
pub open spec fn text_ok(old_b: TreeBuilder, token: Token) -> bool {
    &&& old_b.dom@.len() < usize::MAX
    &&& token is Character ==> old_b.open_elements@.len() > 0
    &&& token is EOF || token is EndTag ==> old_b.original_mode is Some
    &&& token matches Token::EndTag(t) ==> t@.name != "script"@
    &&& token is Character || token is EOF || token is EndTag
}

/// What the text insertion mode does with `token`: `new_b` and `r` after
/// it from `old_b`.
pub open spec fn text_step(old_b: TreeBuilder, token: Token, new_b: TreeBuilder, r: bool) -> bool {
    &&& match token {
            Token::Character(c) => r && char_inserted(old_b, new_b, c),
            Token::EOF => !r && popped_to(old_b, new_b, old_b.original_mode->0),
            _ => r && popped_to(old_b, new_b, old_b.original_mode->0)
    }
}

/// What the in-head insertion mode does with `token`: `new_b` and `r`
/// after it from `old_b`.
pub open spec fn in_head_step(old_b: TreeBuilder, token: Token, new_b: TreeBuilder, r: bool) -> bool {
    match token {
        Token::Character(c) => if is_blank(c) {
            r && char_inserted(old_b, new_b, c)
        } else {
            !r && head_popped(old_b, new_b)
        },
        Token::Comment(data) => r && comment_added(old_b, new_b, data@),
        Token::DOCTYPE(_) => r && only_mode(old_b, new_b, old_b.mode),
        Token::StartTag(t) => if t@.name == "html"@ || t@.name == "head"@ {
            r && only_mode(old_b, new_b, old_b.mode)
        } else if is_void_head_name(t@.name) {
            r && void_inserted(old_b, new_b, t@)
        } else if t@.name == "title"@ {
            r && text_entered(old_b, new_b, t@, ParserState::RCDATA)
        } else if (t@.name == "noscript"@ && old_b.scripting) || t@.name == "noframes"@ || t@.name == "style"@ {
            r && text_entered(old_b, new_b, t@, ParserState::RAWTEXT)
        } else if t@.name == "noscript"@ {
            r && element_entered(old_b, new_b, t@, InsertMode::InHeadNoScript)
        } else if t@.name == "script"@ {
            r && text_entered(old_b, new_b, t@, ParserState::ScriptData)
        } else {
            !r && head_popped(old_b, new_b)
        },
        Token::EndTag(t) => if t@.name == "head"@ {
            r && head_popped(old_b, new_b)
        } else if !(t@.name == "body"@ || t@.name == "html"@ || t@.name == "br"@) {
            r && only_mode(old_b, new_b, old_b.mode)
        } else {
            !r && head_popped(old_b, new_b)
        },
        Token::EOF => !r && head_popped(old_b, new_b),
    }
}

/// A copy of an insertion mode.
fn copy_mode(m: &InsertMode) -> (r: InsertMode)
    ensures
        r == *m,
{
    match m {
        InsertMode::Initial => InsertMode::Initial,
        InsertMode::BeforeHTML => InsertMode::BeforeHTML,
        InsertMode::BeforeHead => InsertMode::BeforeHead,
        InsertMode::InHead => InsertMode::InHead,
        InsertMode::InHeadNoScript => InsertMode::InHeadNoScript,
        InsertMode::AfterHead => InsertMode::AfterHead,
        InsertMode::InBody => InsertMode::InBody,
        InsertMode::Text => InsertMode::Text,
        InsertMode::InTable => InsertMode::InTable,
        InsertMode::InTableText => InsertMode::InTableText,
        InsertMode::InCaption => InsertMode::InCaption,
        InsertMode::InColumnGroup => InsertMode::InColumnGroup,
        InsertMode::InTableBody => InsertMode::InTableBody,
        InsertMode::InRow => InsertMode::InRow,
        InsertMode::InCell => InsertMode::InCell,
        InsertMode::InTemplate => InsertMode::InTemplate,
        InsertMode::AfterBody => InsertMode::AfterBody,
        InsertMode::InFrameset => InsertMode::InFrameset,
        InsertMode::AfterFrameset => InsertMode::AfterFrameset,
        InsertMode::AfterAfterBody => InsertMode::AfterAfterBody,
        InsertMode::AfterAfterFrameset => InsertMode::AfterAfterFrameset,
    }
}

impl InsertMode {
    /// The initial insertion mode. `true` where the token was used up,
    /// `false` where it is to be handled again in the new mode.
    pub fn handle_initial(b: &mut TreeBuilder, token: Token) -> (r: bool)
        requires
            old(b).wf(),
            initial_ok(*old(b), token),
        ensures
            final(b).wf(),
            initial_step(*old(b), token, *final(b), r),
    {
        match token {
            Token::Character(c) => {
                if blank(c) {
                    return true;
                }
                b.mode = InsertMode::BeforeHTML;
                false
            },
            Token::Comment(data) => {
                b.insert_comment(data.as_str(), None);
                true
            },
            Token::DOCTYPE(d) => {
                let (name, public_id, system_id) = d.parts();
                let kind = NodeKind::DocumentType { name, public_id, system_id };
                let ghost v = b.dom@;
                let ghost k = kind_view(kind);
                b.dom.append(0, kind);
                proof {
                    lemma_names_kept(v, 0, k);
                    b.lemma_elements_kept(v);
                }
                b.mode = InsertMode::BeforeHTML;
                true
            },
            _ => {
                b.mode = InsertMode::BeforeHTML;
                false
            },
        }
    }

    /// The before-html insertion mode. `true` where the token was used up,
    /// `false` where it is to be handled again in the new mode.
    pub fn handle_before_html(b: &mut TreeBuilder, token: Token) -> (r: bool)
        requires
            old(b).wf(),
            before_html_ok(*old(b), token),
        ensures
            final(b).wf(),
            before_html_step(*old(b), token, *final(b), r),
    {
        let is_html = match &token {
            Token::DOCTYPE(_) => return true,
            Token::Comment(data) => {
                b.insert_comment(data.as_str(), None);
                return true;
            },
            Token::Character(c) => {
                if blank(*c) {
                    return true;
                }
                false
            },
            Token::StartTag(t) => str_is(&t.name, "html"),
            Token::EndTag(t) => {
                if !acted_end(&t.name) {
                    return true;
                }
                false
            },
            Token::EOF => false,
        };
        let tag = if is_html {
            match token {
                Token::StartTag(t) => t,
                _ => Tag::new(&"html".to_owned()),
            }
        } else {
            Tag::new(&"html".to_owned())
        };
        proof {
            reveal_strlit("html");
        }
        b.insert_root_element(&tag);
        b.mode = InsertMode::BeforeHead;
        is_html
    }

    /// The before-head insertion mode. `true` where the token was used up,
    /// `false` where it is to be handled again in the new mode.
    pub fn handle_before_head(b: &mut TreeBuilder, token: Token) -> (r: bool)
        requires
            old(b).wf(),
            before_head_ok(*old(b), token),
        ensures
            final(b).wf(),
            before_head_step(*old(b), token, *final(b), r),
    {
        let is_head = match &token {
            Token::DOCTYPE(_) => return true,
            Token::Comment(data) => {
                b.insert_comment(data.as_str(), None);
                return true;
            },
            Token::Character(c) => {
                if blank(*c) {
                    return true;
                }
                false
            },
            Token::StartTag(t) => {
                if str_is(&t.name, "html") {
                    return true;
                }
                str_is(&t.name, "head")
            },
            Token::EndTag(t) => {
                if !acted_end(&t.name) {
                    return true;
                }
                false
            },
            Token::EOF => false,
        };
        let tag = if is_head {
            match token {
                Token::StartTag(t) => t,
                _ => Tag::new(&"head".to_owned()),
            }
        } else {
            Tag::new(&"head".to_owned())
        };
        proof {
            reveal_strlit("head");
        }
        let h = b.insert_html_element(&tag);
        b.head = Some(h);
        b.mode = InsertMode::InHead;
        is_head
    }

    /// The in-head insertion mode. `true` where the token was used up,
    /// `false` where it is to be handled again in the new mode.
    pub fn handle_in_head(b: &mut TreeBuilder, token: Token) -> (r: bool)
        requires
            old(b).wf(),
            in_head_ok(*old(b), token),
        ensures
            final(b).wf(),
            in_head_step(*old(b), token, *final(b), r),
    {
        match token {
            Token::Character(c) => {
                if blank(c) {
                    b.insert_character(c);
                    return true;
                }
                b.pop();
                b.mode = InsertMode::AfterHead;
                false
            },
            Token::Comment(data) => {
                b.insert_comment(data.as_str(), None);
                true
            },
            Token::DOCTYPE(_) => true,
            Token::StartTag(t) => {
                if str_is(&t.name, "html") || str_is(&t.name, "head") {
                    return true;
                }
                if str_is(&t.name, "base") || str_is(&t.name, "basefont") || str_is(&t.name, "bgsound")
                    || str_is(&t.name, "link") || str_is(&t.name, "meta") {
                    b.insert_html_element(&t);
                    b.pop();
                    assert(b.open_elements@ =~= old(b).open_elements@);
                    return true;
                }
                if str_is(&t.name, "title") {
                    b.enter_text(&t, ParserState::RCDATA);
                    return true;
                }
                if (str_is(&t.name, "noscript") && b.scripting) || str_is(&t.name, "noframes") || str_is(&t.name, "style") {
                    b.enter_text(&t, ParserState::RAWTEXT);
                    return true;
                }
                if str_is(&t.name, "noscript") {
                    b.insert_html_element(&t);
                    b.mode = InsertMode::InHeadNoScript;
                    return true;
                }
                if str_is(&t.name, "script") {
                    b.enter_text(&t, ParserState::ScriptData);
                    return true;
                }
                b.pop();
                b.mode = InsertMode::AfterHead;
                false
            },
            Token::EndTag(t) => {
                if str_is(&t.name, "head") {
                    b.pop();
                    b.mode = InsertMode::AfterHead;
                    return true;
                }
                if !(str_is(&t.name, "body") || str_is(&t.name, "html") || str_is(&t.name, "br")) {
                    return true;
                }
                b.pop();
                b.mode = InsertMode::AfterHead;
                false
            },
            Token::EOF => {
                b.pop();
                b.mode = InsertMode::AfterHead;
                false
            },
        }
    }

    /// The after-head insertion mode. `true` where the token was used up,
    /// `false` where it is to be handled again in the new mode.
    pub fn handle_after_head(b: &mut TreeBuilder, token: Token) -> (r: bool)
        requires
            old(b).wf(),
            after_head_ok(*old(b), token),
        ensures
            final(b).wf(),
            after_head_step(*old(b), token, *final(b), r),
    {
        let body = match &token {
            Token::Character(c) => {
                if blank(*c) {
                    b.insert_character(*c);
                    return true;
                }
                false
            },
            Token::Comment(data) => {
                b.insert_comment(data.as_str(), None);
                return true;
            },
            Token::DOCTYPE(_) => return true,
            Token::StartTag(t) => {
                if str_is(&t.name, "html") || str_is(&t.name, "head") || head_content_name(&t.name) {
                    return true;
                }
                if str_is(&t.name, "frameset") {
                    proof {
                        reveal_strlit("body");
                        reveal_strlit("frameset");
                        assert("frameset"@.len() == 8);
                        assert("body"@.len() == 4);
                        assert(t@.name != "body"@);
                    }
                    b.insert_html_element(t);
                    b.mode = InsertMode::InFrameset;
                    return true;
                }
                str_is(&t.name, "body")
            },
            Token::EndTag(t) => {
                if str_is(&t.name, "template") || !(str_is(&t.name, "body") || str_is(&t.name, "html") || str_is(&t.name, "br")) {
                    return true;
                }
                false
            },
            Token::EOF => false,
        };
        if body {
            match &token {
                Token::StartTag(t) => {
                    b.insert_html_element(t);
                },
                _ => {},
            }
            b.frameset_ok = false;
            b.mode = InsertMode::InBody;
            true
        } else {
            let t = Tag::new(&"body".to_owned());
            proof {
                reveal_strlit("body");
            }
            b.insert_html_element(&t);
            b.mode = InsertMode::InBody;
            false
        }
    }

    /// The in-head-noscript insertion mode. `true` where the token was used
    /// up, `false` where it is to be handled again in the new mode.
    pub fn handle_in_head_noscript(b: &mut TreeBuilder, token: Token) -> (r: bool)
        requires
            old(b).wf(),
            in_head_noscript_ok(*old(b), token),
        ensures
            final(b).wf(),
            in_head_noscript_step(*old(b), token, *final(b), r),
    {
        match token {
            Token::DOCTYPE(_) => true,
            Token::Character(c) => {
                if blank(c) {
                    b.insert_character(c);
                    return true;
                }
                b.pop();
                b.mode = InsertMode::InHead;
                false
            },
            Token::Comment(data) => {
                b.insert_comment(data.as_str(), None);
                true
            },
            Token::StartTag(t) => {
                if str_is(&t.name, "html") || str_is(&t.name, "head") || str_is(&t.name, "noscript") {
                    return true;
                }
                if str_is(&t.name, "base") || str_is(&t.name, "basefont") || str_is(&t.name, "bgsound")
                    || str_is(&t.name, "link") {
                    b.insert_html_element(&t);
                    b.pop();
                    assert(b.open_elements@ =~= old(b).open_elements@);
                    return true;
                }
                b.pop();
                b.mode = InsertMode::InHead;
                false
            },
            Token::EndTag(t) => {
                if str_is(&t.name, "noscript") {
                    b.pop();
                    b.mode = InsertMode::InHead;
                    return true;
                }
                if !str_is(&t.name, "br") {
                    return true;
                }
                b.pop();
                b.mode = InsertMode::InHead;
                false
            },
            Token::EOF => {
                b.pop();
                b.mode = InsertMode::InHead;
                false
            },
        }
    }

    /// The text insertion mode. `true` where the token was used up,
    /// `false` where it is to be handled again in the mode returned to.
    pub fn handle_text(b: &mut TreeBuilder, token: Token) -> (r: bool)
        requires
            old(b).wf(),
            text_ok(*old(b), token),
        ensures
            final(b).wf(),
            text_step(*old(b), token, *final(b), r),
    {
        match token {
            Token::Character(c) => {
                b.insert_character(c);
                true
            },
            Token::EOF => {
                b.pop();
                b.mode = match &b.original_mode {
                    Some(m) => copy_mode(m),
                    None => InsertMode::Initial,
                };
                false
            },
            _ => {
                b.pop();
                b.mode = match &b.original_mode {
                    Some(m) => copy_mode(m),
                    None => InsertMode::Initial,
                };
                true
            },
        }
    }
}

} // verus!
