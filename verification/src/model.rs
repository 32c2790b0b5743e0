//! The document model: a sealed tagged union over tag elements, comments and
//! raw text runs, together with its mathematical view.
//!
//! A tag's `id` and `class` are distinguished pseudo-attributes, extracted
//! before generic attribute iteration; the generic attribute list keeps
//! document order and may itself still carry `id`/`class` entries, which the
//! emitter skips.

use vstd::prelude::*;

verus! {

/// One generic attribute: a key with an optional value.
pub struct Attr {
    pub key: Vec<char>,
    pub value: Option<Vec<char>>,
}

/// The mathematical view of an [`Attr`].
pub struct AttrView {
    pub key: Seq<char>,
    pub value: Option<Seq<char>>,
}

impl View for Attr {
    type V = AttrView;

    open spec fn view(&self) -> AttrView {
        AttrView {
            key: self.key@,
            value: match self.value {
                Option::Some(v) => Option::Some(v@),
                Option::None => Option::None,
            },
        }
    }
}

/// One node of the parsed document tree.
///
/// `classes` distinguishes a missing `class` attribute (`None`) from one whose
/// token list is empty (`Some` of an empty vector): the latter still emits an
/// empty quoted class segment.
pub enum Node {
    Tag {
        name: Vec<char>,
        classes: Option<Vec<Vec<char>>>,
        id: Option<Vec<char>>,
        attrs: Vec<Attr>,
        children: Vec<Node>,
    },
    Comment,
    Raw { text: Vec<char> },
}

/// The mathematical view of a [`Node`].
pub enum NodeView {
    Tag {
        name: Seq<char>,
        classes: Option<Seq<Seq<char>>>,
        id: Option<Seq<char>>,
        attrs: Seq<AttrView>,
        children: Seq<NodeView>,
    },
    Comment,
    Raw { text: Seq<char> },
}

broadcast use
    vstd::std_specs::vec::axiom_vec_index_decreases,
    vstd::std_specs::vec::axiom_vec_decreases_to_view,
    vstd::seq::axiom_seq_index_decreases;

/// The view of one node.
pub open spec fn view_of(n: Node) -> NodeView
    decreases n, 0int,
{
    match n {
        Node::Tag { name, classes, id, attrs, children } => NodeView::Tag {
            name: name@,
            classes: match classes {
                Option::Some(cs) => Option::Some(cs@.map_values(|c: Vec<char>| c@)),
                Option::None => Option::None,
            },
            id: match id {
                Option::Some(i) => Option::Some(i@),
                Option::None => Option::None,
            },
            attrs: attrs@.map_values(|a: Attr| a@),
            children: views_from(children@, 0),
        },
        Node::Comment => NodeView::Comment,
        Node::Raw { text } => NodeView::Raw { text: text@ },
    }
}

/// The views of `s[i..]`, in order.
pub open spec fn views_from(s: Seq<Node>, i: int) -> Seq<NodeView>
    decreases s, s.len() - i,
{
    if 0 <= i < s.len() {
        seq![view_of(s[i])] + views_from(s, i + 1)
    } else {
        Seq::<NodeView>::empty()
    }
}

impl View for Node {
    type V = NodeView;

    open spec fn view(&self) -> NodeView {
        view_of(*self)
    }
}

/// The views of a sequence of nodes, in order.
pub open spec fn views_of(ns: Seq<Node>) -> Seq<NodeView> {
    views_from(ns, 0)
}

/// `views_from(s, i)` lists exactly the views of the elements of `s` from `i` on.
pub proof fn lemma_views_from(s: Seq<Node>, i: int)
    requires
        0 <= i <= s.len(),
    ensures
        views_from(s, i).len() == s.len() - i,
        forall|k: int| i <= k < s.len() ==> views_from(s, i)[k - i] == view_of(s[k]),
    decreases s.len() - i,
{
    if i < s.len() {
        lemma_views_from(s, i + 1);
    }
}

} // verus!
