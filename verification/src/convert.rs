//! The conversion pipeline: parse HTML through the outside permissive parser,
//! mirror its tree into the crate's own [`Node`] type, render, normalize.
//!
//! The outside parser is reached only through the small trusted wrappers
//! below; everything after them — the tree walk, the emitter and the
//! normalizer — is verified. [`maud_of_nodes`] carries the exact contract
//! for every tree, and [`html2maud`] ties the whole call to its input:
//! success exactly when the parser accepts, and a result converted from the
//! parsed document ([`doc_of`]), loose only in the order of each tag's
//! generic attributes, which the parser itself does not fix.

use vstd::prelude::*;
use crate::model::{Attr, Node, NodeView, views_of, views_from, lemma_views_from};
use crate::emit::render_forest_x;
use crate::normalize::{normalize, normalize_chars};
use crate::text::chars_string;

verus! {

broadcast use
    vstd::std_specs::vec::axiom_vec_index_decreases,
    vstd::std_specs::vec::axiom_vec_decreases_to_view,
    vstd::seq::axiom_seq_index_decreases;

/// The one failure kind: the underlying HTML tree could not be built at all.
#[derive(Debug, Clone, Copy, PartialEq, Eq, Structural)]
pub struct ParseFailure;

/// The converted text for a whole document tree: the rendered forest, run
/// through the three-pass normalizer.
pub open spec fn convert_tree(ns: Seq<NodeView>) -> Seq<char> {
    normalize(crate::emit::render_forest(ns))
}

#[verifier::external_type_specification]
#[verifier::external_body]
pub struct ExVDom<'a>(tl::VDom<'a>);

/// Are two views the same document, but for the order of each tag's generic
/// attribute list? The outside parser stores a tag's attributes in a hash
/// map once they are more than a few, so their iteration order is not a
/// function of the input; everything else is.
pub open spec fn attr_perm(a: NodeView, b: NodeView) -> bool
    decreases a, 0int,
{
    match (a, b) {
        (NodeView::Comment, NodeView::Comment) => true,
        (NodeView::Raw { text: ta }, NodeView::Raw { text: tb }) => ta == tb,
        (
            NodeView::Tag { name: na, classes: ca, id: ia, attrs: aa, children: cha },
            NodeView::Tag { name: nb, classes: cb, id: ib, attrs: ab, children: chb },
        ) => na == nb && ca == cb && ia == ib && aa.to_multiset() == ab.to_multiset()
            && attr_perm_kids(cha, chb, 0),
        _ => false,
    }
}

/// [`attr_perm`], pointwise over two sibling lists from `i` on.
pub open spec fn attr_perm_kids(a: Seq<NodeView>, b: Seq<NodeView>, i: int) -> bool
    decreases a, a.len() - i,
{
    a.len() == b.len() && (if 0 <= i < a.len() {
        attr_perm(a[i], b[i]) && attr_perm_kids(a, b, i + 1)
    } else {
        true
    })
}

/// Pointwise related sibling lists of equal length are related from any
/// starting point.
proof fn lemma_attr_perm_kids(a: Seq<NodeView>, b: Seq<NodeView>, i: int)
    requires
        a.len() == b.len(),
        0 <= i <= a.len(),
        forall|t: int| i <= t < a.len() ==> attr_perm(a[t], b[t]),
    ensures
        attr_perm_kids(a, b, i),
    decreases a.len() - i,
{
    if i < a.len() {
        lemma_attr_perm_kids(a, b, i + 1);
    }
}

/// What `tl::parse` makes of the input, which it does deterministically:
/// `None` where it refuses the input, else the top-level node views in
/// document order, each tag's generic-attribute list in one fixed order.
pub uninterp spec fn doc_of(s: Seq<char>) -> Option<Seq<NodeView>>;

/// Whether the outside parser accepts the input; with default options it
/// refuses exactly the inputs whose byte length exceeds `u32::MAX`.
pub open spec fn parse_ok(s: Seq<char>) -> bool {
    doc_of(s) is Some
}

/// What a parsed document value holds: its top-level node views, in order.
pub uninterp spec fn dom_forest(dom: tl::VDom) -> Seq<NodeView>;

/// The view of the node a handle refers to within a parsed document (a
/// comment view where the handle refers to a comment or to nothing).
pub uninterp spec fn node_at(dom: tl::VDom, idx: u32) -> NodeView;

/// Relies on `tl::parse` with default options: it builds the document tree
/// for loosely well-formed input, and its one error is the input's byte
/// length exceeding `u32::MAX` — so it succeeds on every input of at most
/// `u32::MAX / 4` characters, a character holding at most four bytes.
#[verifier::external_body]
fn parse_dom(html: &str) -> (r: Option<tl::VDom<'_>>)
    ensures
        (r is Some) == parse_ok(html@),
        html@.len() * 4 <= u32::MAX as int ==> r is Some,
        r matches Option::Some(d) ==> doc_of(html@) == Option::Some(dom_forest(d)),
{
    tl::parse(html, tl::ParserOptions::default()).ok()
}

/// Relies on `tl::VDom::children` and `tl::NodeHandle::get_inner`: the
/// handles of the top-level nodes, in document order.
#[verifier::external_body]
fn dom_top(dom: &tl::VDom) -> (r: Vec<u32>)
    ensures
        r@.len() == dom_forest(*dom).len(),
        forall|k: int| 0 <= k < r@.len() ==> node_at(*dom, r@[k]) == dom_forest(*dom)[k],
{
    dom.children().iter().map(|h| h.get_inner()).collect()
}

/// Relies on `tl::NodeHandle::get`, `tl::Node::as_tag` and
/// `tl::HTMLTag::name`: the tag name, or `None` where the handle does not
/// refer to a tag element.
#[verifier::external_body]
fn tag_name(dom: &tl::VDom, idx: u32) -> (r: Option<Vec<char>>)
    ensures
        (r is Some) == (node_at(*dom, idx) is Tag),
        r matches Option::Some(nm) ==> nm@ == node_at(*dom, idx)->Tag_name,
{
    tl::NodeHandle::new(idx).get(dom.parser()).and_then(|n| n.as_tag()).map(
        |t| t.name().as_utf8_str().chars().collect(),
    )
}

/// Relies on `tl::Node::as_raw`: the text of a raw node, or `None` where the
/// handle does not refer to one.
#[verifier::external_body]
fn raw_text(dom: &tl::VDom, idx: u32) -> (r: Option<Vec<char>>)
    ensures
        (r is Some) == (node_at(*dom, idx) is Raw),
        r matches Option::Some(t) ==> t@ == node_at(*dom, idx)->Raw_text,
{
    tl::NodeHandle::new(idx).get(dom.parser()).and_then(|n| n.as_raw()).map(
        |b| b.as_utf8_str().chars().collect(),
    )
}

/// Relies on `tl::Attributes::id`: the tag's `id` attribute, if present.
#[verifier::external_body]
fn tag_id(dom: &tl::VDom, idx: u32) -> (r: Option<Vec<char>>)
    ensures
        node_at(*dom, idx) is Tag ==> ((r is Some) == (node_at(*dom, idx)->Tag_id is Some)),
        r matches Option::Some(i) ==> (node_at(*dom, idx) is Tag ==> node_at(*dom, idx)->Tag_id
            == Option::Some(i@)),
{
    tl::NodeHandle::new(idx).get(dom.parser()).and_then(|n| n.as_tag()).and_then(
        |t| t.attributes().id().map(|b| b.as_utf8_str().chars().collect()),
    )
}

/// Relies on `tl::Attributes::class_iter`: the class tokens, split on ASCII
/// whitespace, in source order; `None` where there is no textual `class`
/// attribute.
#[verifier::external_body]
fn tag_classes(dom: &tl::VDom, idx: u32) -> (r: Option<Vec<Vec<char>>>)
    ensures
        node_at(*dom, idx) is Tag ==> ((r is Some) == (node_at(*dom, idx)->Tag_classes is Some)),
        r matches Option::Some(cs) ==> (node_at(*dom, idx) is Tag ==> node_at(
            *dom,
            idx,
        )->Tag_classes == Option::Some(cs@.map_values(|c: Vec<char>| c@))),
{
    tl::NodeHandle::new(idx).get(dom.parser()).and_then(|n| n.as_tag()).and_then(
        |t| t.attributes().class_iter().map(|it| it.map(|c| c.chars().collect()).collect()),
    )
}

/// Relies on `tl::Attributes::iter`: every attribute as a key with an
/// optional value, in iteration order (the `id` and `class` entries last).
#[verifier::external_body]
fn tag_attrs(dom: &tl::VDom, idx: u32) -> (r: Vec<Attr>)
    ensures
        node_at(*dom, idx) is Tag ==> r@.map_values(|a: Attr| a@).to_multiset() == node_at(
            *dom,
            idx,
        )->Tag_attrs.to_multiset(),
{
    match tl::NodeHandle::new(idx).get(dom.parser()).and_then(|n| n.as_tag()) {
        Some(t) => t.attributes().iter().map(
            |(k, v)| Attr { key: k.chars().collect(), value: v.map(|x| x.chars().collect()) },
        ).collect(),
        None => Vec::new(),
    }
}

/// Relies on `tl::HTMLTag::children` and `tl::Children::top`: the handles of
/// the tag's direct children, in document order. The parser registers a tag
/// when it reads its opening and appends nodes to its table as it goes, so
/// every child's handle is strictly greater than its parent's — which is
/// what lets the tree walk recurse with a decreasing measure.
#[verifier::external_body]
fn tag_children(dom: &tl::VDom, idx: u32) -> (r: Vec<u32>)
    ensures
        forall|k: int| 0 <= k < r@.len() ==> idx < r@[k],
        node_at(*dom, idx) is Tag ==> r@.len() == node_at(*dom, idx)->Tag_children.len(),
        node_at(*dom, idx) is Tag ==> forall|k: int|
            0 <= k < r@.len() ==> node_at(*dom, r@[k]) == node_at(*dom, idx)->Tag_children[k],
{
    match tl::NodeHandle::new(idx).get(dom.parser()).and_then(|n| n.as_tag()) {
        Some(t) => t.children().top().iter().map(|h| h.get_inner()).collect(),
        None => Vec::new(),
    }
}

/// Mirrors one parsed node into the crate's own tree.
///
/// A handle that refers neither to a tag nor to a raw node (a comment, or a
/// dangling index) becomes [`Node::Comment`], which emits nothing but keeps
/// its place among the siblings. Child handles are strictly greater than
/// their parent's handle, so the recursion decreases.
#[verifier::loop_isolation(false)]
fn build_node(dom: &tl::VDom, idx: u32) -> (r: Node)
    ensures
        attr_perm(r@, node_at(*dom, idx)),
    decreases u32::MAX - idx,
{
    let ghost nv = node_at(*dom, idx);
    match tag_name(dom, idx) {
        Option::Some(name) => {
            let classes = tag_classes(dom, idx);
            let id = tag_id(dom, idx);
            let attrs = tag_attrs(dom, idx);
            let kids = tag_children(dom, idx);
            let mut children: Vec<Node> = Vec::new();
            let mut k: usize = 0;
            while k < kids.len()
                invariant
                    k <= kids.len(),
                    children@.len() == k,
                    forall|t: int|
                        0 <= t < k ==> attr_perm(children@[t]@, nv->Tag_children[t]),
                decreases kids.len() - k,
            {
                children.push(build_node(dom, kids[k]));
                k = k + 1;
            }
            let r = Node::Tag { name, classes, id, attrs, children };
            proof {
                let rv = r@;
                lemma_views_from(r->Tag_children@, 0);
                assert(rv->Tag_children.len() == nv->Tag_children.len());
                assert forall|t: int| 0 <= t < rv->Tag_children.len() implies attr_perm(
                    rv->Tag_children[t],
                    nv->Tag_children[t],
                ) by {
                    assert(rv->Tag_children[t] == r->Tag_children@[t]@);
                }
                lemma_attr_perm_kids(rv->Tag_children, nv->Tag_children, 0);
                assert(rv->Tag_attrs =~= r->Tag_attrs@.map_values(|a: Attr| a@));
                assert(attr_perm(rv, nv));
            }
            r
        },
        Option::None => match raw_text(dom, idx) {
            Option::Some(text) => Node::Raw { text },
            Option::None => Node::Comment,
        },
    }
}

/// Mirrors the parsed document into the crate's own node tree; `None`
/// exactly when the parser refuses the input. The mirrored views are the
/// parsed document's, but for the order of each tag's generic attributes.
#[verifier::loop_isolation(false)]
fn parse_nodes(html: &str) -> (r: Option<Vec<Node>>)
    ensures
        (r is Some) == parse_ok(html@),
        html@.len() * 4 <= u32::MAX as int ==> r is Some,
        r matches Option::Some(ns) ==> attr_perm_kids(views_of(ns@), doc_of(html@)->0, 0),
{
    let dom = match parse_dom(html) {
        Option::Some(d) => d,
        Option::None => {
            return Option::None;
        },
    };
    let top = dom_top(&dom);
    let mut nodes: Vec<Node> = Vec::new();
    let mut k: usize = 0;
    while k < top.len()
        invariant
            k <= top.len(),
            nodes@.len() == k,
            forall|t: int| 0 <= t < k ==> attr_perm(nodes@[t]@, doc_of(html@)->0[t]),
        decreases top.len() - k,
    {
        nodes.push(build_node(&dom, top[k]));
        k = k + 1;
    }
    proof {
        lemma_views_from(nodes@, 0);
        assert forall|t: int| 0 <= t < views_of(nodes@).len() implies attr_perm(
            views_of(nodes@)[t],
            doc_of(html@)->0[t],
        ) by {
            assert(views_of(nodes@)[t] == nodes@[t]@);
        }
        lemma_attr_perm_kids(views_of(nodes@), doc_of(html@)->0, 0);
    }
    Option::Some(nodes)
}

/// Renders and normalizes a document tree: the whole conversion after
/// parsing, pinned exactly for every tree.
pub fn maud_of_nodes(nodes: &Vec<Node>) -> (r: String)
    ensures
        r@ == convert_tree(views_of(nodes@)),
{
    let raw = render_forest_x(nodes);
    let norm = normalize_chars(&raw);
    chars_string(&norm)
}

/// Converts loosely well-formed HTML into the template DSL text.
///
/// Fails exactly when the underlying parser cannot build a tree at all —
/// with default options, only for inputs whose byte length exceeds
/// `u32::MAX` — and every produced text is the rendered and normalized form
/// of some document tree.
pub fn html2maud(html: &str) -> (r: Result<String, ParseFailure>)
    ensures
        (r is Ok) == parse_ok(html@),
        html@.len() * 4 <= u32::MAX as int ==> r is Ok,
        r matches Result::Ok(s) ==> exists|ns: Seq<NodeView>|
            attr_perm_kids(ns, doc_of(html@)->0, 0) && s@ == convert_tree(ns),
{
    match parse_nodes(html) {
        Option::Some(nodes) => {
            let s = maud_of_nodes(&nodes);
            proof {
                assert(attr_perm_kids(views_of(nodes@), doc_of(html@)->0, 0) && s@
                    == convert_tree(views_of(nodes@)));
            }
            Result::Ok(s)
        },
        Option::None => Result::Err(ParseFailure),
    }
}

} // verus!
