//! The tree emitter: recursive, depth-parameterized descent over the node
//! tree, producing indented DSL text.
//!
//! Each tag line is indentation, name, one combined quoted class segment,
//! `#id` shorthand, then the remaining attributes in document order. A void
//! tag ends its line with `;` and its children are never visited; any other
//! tag opens a ` {` block, emits its children (one newline inserted before
//! every child after the first) and closes with `}` at the same indentation.
//! A raw text node is trimmed and, when non-empty, quoted with inner `"`
//! escaped; a comment emits nothing.

use vstd::prelude::*;
use crate::model::{Attr, AttrView, Node, NodeView, views_of, lemma_views_from};
use crate::classify::{is_void, is_void_x};
use crate::text::{is_ws, is_ws_x, push_seq, eq2, eq5};

verus! {

broadcast use
    vstd::std_specs::vec::axiom_vec_index_decreases,
    vstd::std_specs::vec::axiom_vec_decreases_to_view,
    vstd::seq::axiom_seq_index_decreases;

/// Four spaces for each nesting level.
pub open spec fn spaces(d: nat) -> Seq<char>
    decreases d,
{
    if d == 0 {
        Seq::<char>::empty()
    } else {
        spaces((d - 1) as nat) + seq![' ', ' ', ' ', ' ']
    }
}

/// First index at or after `i` holding a non-whitespace character (or `i`
/// itself when out of range).
pub open spec fn trim_lo(s: Seq<char>, i: int) -> int
    decreases s.len() - i,
{
    if 0 <= i < s.len() && is_ws(s[i]) {
        trim_lo(s, i + 1)
    } else {
        i
    }
}

/// Last boundary at or before `i` with a non-whitespace character just before
/// it (or `i` itself when out of range).
pub open spec fn trim_hi(s: Seq<char>, i: int) -> int
    decreases i,
{
    if 0 < i <= s.len() && is_ws(s[i - 1]) {
        trim_hi(s, i - 1)
    } else {
        i
    }
}

/// `s` with leading and trailing whitespace removed.
pub open spec fn trim(s: Seq<char>) -> Seq<char> {
    let lo = trim_lo(s, 0);
    let hi = trim_hi(s, s.len() as int);
    if lo <= hi {
        s.subrange(lo, hi)
    } else {
        Seq::<char>::empty()
    }
}

/// Runtime trim.
pub fn trim_chars(v: &Vec<char>) -> (r: Vec<char>)
    ensures
        r@ == trim(v@),
{
    let mut lo: usize = 0;
    while lo < v.len() && is_ws_x(v[lo])
        invariant
            lo <= v.len(),
            trim_lo(v@, 0) == trim_lo(v@, lo as int),
        decreases v.len() - lo,
    {
        lo = lo + 1;
    }
    let mut hi: usize = v.len();
    while hi > 0 && is_ws_x(v[hi - 1])
        invariant
            hi <= v.len(),
            trim_hi(v@, v@.len() as int) == trim_hi(v@, hi as int),
        decreases hi,
    {
        hi = hi - 1;
    }
    proof {
        assert(trim_lo(v@, lo as int) == lo as int);
        assert(trim_hi(v@, hi as int) == hi as int);
    }
    let mut r: Vec<char> = Vec::new();
    if lo < hi {
        let mut k: usize = lo;
        proof {
            assert(r@ =~= v@.subrange(lo as int, lo as int));
        }
        while k < hi
            invariant
                lo <= k <= hi,
                hi <= v.len(),
                r@ == v@.subrange(lo as int, k as int),
            decreases hi - k,
        {
            r.push(v[k]);
            k = k + 1;
            proof {
                assert(r@ =~= v@.subrange(lo as int, k as int));
            }
        }
    }
    proof {
        assert(r@ =~= trim(v@));
    }
    r
}

/// Every inner `"` is written as `\"`.
pub open spec fn escape_quotes(s: Seq<char>) -> Seq<char>
    decreases s.len(),
{
    if s.len() == 0 {
        Seq::<char>::empty()
    } else {
        (if s[0] == '"' {
            seq!['\\', '"']
        } else {
            seq![s[0]]
        }) + escape_quotes(s.drop_first())
    }
}

/// Appends the escaped form of `v` to `out`.
pub fn escape_quotes_x(v: &Vec<char>, out: &mut Vec<char>)
    ensures
        final(out)@ == old(out)@ + escape_quotes(v@),
{
    let mut i: usize = 0;
    proof {
        assert(v@.skip(0) =~= v@);
    }
    while i < v.len()
        invariant
            i <= v.len(),
            out@ + escape_quotes(v@.skip(i as int)) == old(out)@ + escape_quotes(v@),
        decreases v.len() - i,
    {
        if v[i] == '"' {
            out.push('\\');
            out.push('"');
        } else {
            out.push(v[i]);
        }
        i = i + 1;
        proof {
            let s = v@.skip((i - 1) as int);
            assert(s[0] == v@[i - 1]);
            assert(s.drop_first() =~= v@.skip(i as int));
            assert(out@ + escape_quotes(v@.skip(i as int)) =~= old(out)@ + escape_quotes(v@));
        }
    }
    proof {
        assert(v@.skip(v@.len() as int) =~= Seq::<char>::empty());
        assert(out@ =~= old(out)@ + escape_quotes(v@));
    }
}

/// Class tokens joined with single spaces.
pub open spec fn join_ws_from(cs: Seq<Seq<char>>, i: int) -> Seq<char>
    decreases cs.len() - i,
{
    if 0 <= i < cs.len() {
        (if i > 0 {
            seq![' ']
        } else {
            Seq::<char>::empty()
        }) + cs[i] + join_ws_from(cs, i + 1)
    } else {
        Seq::<char>::empty()
    }
}

/// The class segment: one combined quoted literal, or nothing when the tag
/// carries no class attribute.
pub open spec fn class_part(classes: Option<Seq<Seq<char>>>) -> Seq<char> {
    match classes {
        Option::Some(cs) => seq!['.', '"'] + join_ws_from(cs, 0) + seq!['"'],
        Option::None => Seq::<char>::empty(),
    }
}

/// The id shorthand segment.
pub open spec fn id_part(id: Option<Seq<char>>) -> Seq<char> {
    match id {
        Option::Some(i) => seq![' ', '#'] + i,
        Option::None => Seq::<char>::empty(),
    }
}

/// The two pseudo-attribute keys that the generic attribute loop skips.
pub open spec fn is_id_or_class_key(k: Seq<char>) -> bool {
    k == seq!['i', 'd'] || k == seq!['c', 'l', 'a', 's', 's']
}

/// One generic attribute: ` key`, or ` key="value"` when a value is present.
pub open spec fn attr_part(a: AttrView) -> Seq<char> {
    if is_id_or_class_key(a.key) {
        Seq::<char>::empty()
    } else {
        seq![' '] + a.key + (match a.value {
            Option::Some(v) => seq!['=', '"'] + v + seq!['"'],
            Option::None => Seq::<char>::empty(),
        })
    }
}

/// The generic attributes from `i` on, in document order.
pub open spec fn attrs_from(attrs: Seq<AttrView>, i: int) -> Seq<char>
    decreases attrs.len() - i,
{
    if 0 <= i < attrs.len() {
        attr_part(attrs[i]) + attrs_from(attrs, i + 1)
    } else {
        Seq::<char>::empty()
    }
}

/// The opening text of a tag: indentation, name, classes, id, attributes.
pub open spec fn open_part(
    name: Seq<char>,
    classes: Option<Seq<Seq<char>>>,
    id: Option<Seq<char>>,
    attrs: Seq<AttrView>,
    d: nat,
) -> Seq<char> {
    spaces(d) + name + class_part(classes) + id_part(id) + attrs_from(attrs, 0)
}

/// The text emitted for one node at depth `d`.
pub open spec fn emit_node(n: NodeView, d: nat) -> Seq<char>
    decreases n, 0int,
{
    match n {
        NodeView::Comment => Seq::<char>::empty(),
        NodeView::Raw { text } => {
            let t = trim(text);
            if t.len() == 0 {
                Seq::<char>::empty()
            } else {
                spaces(d) + seq!['"'] + escape_quotes(t) + seq!['"', '\n']
            }
        },
        NodeView::Tag { name, classes, id, attrs, children } => {
            let opening = open_part(name, classes, id, attrs, d);
            if is_void(name) {
                opening + seq![';', '\n']
            } else {
                opening + seq![' ', '{', '\n'] + emit_children_from(children, d + 1, 0) + spaces(d)
                    + seq!['}', '\n']
            }
        },
    }
}

/// The text emitted for the children from `i` on, with one newline inserted
/// before every child after the first.
pub open spec fn emit_children_from(cs: Seq<NodeView>, d: nat, i: int) -> Seq<char>
    decreases cs, cs.len() - i,
{
    if 0 <= i < cs.len() {
        (if i > 0 {
            seq!['\n']
        } else {
            Seq::<char>::empty()
        }) + emit_node(cs[i], d) + emit_children_from(cs, d, i + 1)
    } else {
        Seq::<char>::empty()
    }
}

/// Emits the opening text of a tag: indentation, name, classes, id and the
/// generic attributes, with `id`/`class` keys skipped.
#[verifier::rlimit(50)]
fn emit_open_x(
    name: &Vec<char>,
    classes: &Option<Vec<Vec<char>>>,
    id: &Option<Vec<char>>,
    attrs: &Vec<Attr>,
    ind: &Vec<char>,
    Ghost(d): Ghost<nat>,
    out: &mut Vec<char>,
)
    requires
        ind@ == spaces(d),
    ensures
        ({
            let csv = match *classes {
                Option::Some(cs) => Option::Some(cs@.map_values(|c: Vec<char>| c@)),
                Option::None => Option::<Seq<Seq<char>>>::None,
            };
            let idv = match *id {
                Option::Some(i) => Option::Some(i@),
                Option::None => Option::<Seq<char>>::None,
            };
            let av = attrs@.map_values(|a: Attr| a@);
            final(out)@ == old(out)@ + open_part(name@, csv, idv, av, d)
        }),
{
    let ghost csv = match classes {
        Option::Some(cs) => Option::Some(cs@.map_values(|c: Vec<char>| c@)),
        Option::None => Option::<Seq<Seq<char>>>::None,
    };
    let ghost idv = match id {
        Option::Some(i) => Option::Some(i@),
        Option::None => Option::<Seq<char>>::None,
    };
    let ghost av = attrs@.map_values(|a: Attr| a@);
    push_seq(out, ind);
    push_seq(out, name);
    match classes {
        Option::Some(cs) => {
            out.push('.');
            out.push('"');
            let ghost cl = cs@.map_values(|c: Vec<char>| c@);
            let ghost base = out@;
            let mut j: usize = 0;
            while j < cs.len()
                invariant
                    j <= cs.len(),
                    cl == cs@.map_values(|c: Vec<char>| c@),
                    out@ + join_ws_from(cl, j as int) == base + join_ws_from(cl, 0),
                decreases cs.len() - j,
            {
                if j > 0 {
                    out.push(' ');
                }
                push_seq(out, &cs[j]);
                j = j + 1;
                proof {
                    assert(cl[j - 1] == cs@[j - 1]@);
                    assert(out@ + join_ws_from(cl, j as int) =~= base + join_ws_from(cl, 0));
                }
            }
            out.push('"');
            proof {
                assert(join_ws_from(cl, cs@.len() as int) =~= Seq::<char>::empty());
                assert(out@ =~= old(out)@ + spaces(d) + name@ + class_part(csv));
            }
        },
        Option::None => {
            proof {
                assert(out@ =~= old(out)@ + spaces(d) + name@ + class_part(csv));
            }
        },
    }
    match id {
        Option::Some(i) => {
            out.push(' ');
            out.push('#');
            push_seq(out, i);
        },
        Option::None => {},
    }
    proof {
        assert(out@ =~= old(out)@ + spaces(d) + name@ + class_part(csv) + id_part(idv));
    }
    let ghost base_a = out@;
    let mut j: usize = 0;
    while j < attrs.len()
        invariant
            j <= attrs.len(),
            av == attrs@.map_values(|a: Attr| a@),
            out@ + attrs_from(av, j as int) == base_a + attrs_from(av, 0),
        decreases attrs.len() - j,
    {
        let a = &attrs[j];
        if !(eq2(&a.key, 'i', 'd') || eq5(&a.key, 'c', 'l', 'a', 's', 's')) {
            out.push(' ');
            push_seq(out, &a.key);
            match &a.value {
                Option::Some(v) => {
                    out.push('=');
                    out.push('"');
                    push_seq(out, v);
                    out.push('"');
                },
                Option::None => {},
            }
        }
        j = j + 1;
        proof {
            assert(av[j - 1] == attrs@[j - 1]@);
            assert(out@ + attrs_from(av, j as int) =~= base_a + attrs_from(av, 0));
        }
    }
    proof {
        assert(attrs_from(av, attrs@.len() as int) =~= Seq::<char>::empty());
        assert(out@ =~= old(out)@ + open_part(name@, csv, idv, av, d));
    }
}

/// Emits one node at depth `d`, appending to `out`; `ind` carries the
/// indentation for that depth.
#[verifier::rlimit(60)]
pub fn emit_node_x(n: &Node, ind: &Vec<char>, Ghost(d): Ghost<nat>, out: &mut Vec<char>)
    requires
        ind@ == spaces(d),
    ensures
        final(out)@ == old(out)@ + emit_node(n@, d),
    decreases *n,
{
    match n {
        Node::Comment => {
            proof {
                assert(out@ =~= old(out)@ + emit_node(n@, d));
            }
        },
        Node::Raw { text } => {
            let t = trim_chars(text);
            if t.len() > 0 {
                push_seq(out, ind);
                out.push('"');
                escape_quotes_x(&t, out);
                out.push('"');
                out.push('\n');
                proof {
                    assert(out@ =~= old(out)@ + emit_node(n@, d));
                }
            } else {
                proof {
                    assert(t@ == trim(text@));
                    assert(out@ =~= old(out)@ + emit_node(n@, d));
                }
            }
        },
        Node::Tag { name, classes, id, attrs, children } => {
            let ghost nv = n@;
            let ghost csv = match classes {
                Option::Some(cs) => Option::Some(cs@.map_values(|c: Vec<char>| c@)),
                Option::None => Option::<Seq<Seq<char>>>::None,
            };
            let ghost idv = match id {
                Option::Some(i) => Option::Some(i@),
                Option::None => Option::<Seq<char>>::None,
            };
            let ghost av = attrs@.map_values(|a: Attr| a@);
            emit_open_x(name, classes, id, attrs, ind, Ghost(d), out);
            proof {
                assert(out@ == old(out)@ + open_part(name@, csv, idv, av, d));
            }
            let ghost base_o = out@;
            if is_void_x(name) {
                out.push(';');
                out.push('\n');
                proof {
                    assert(nv == NodeView::Tag {
                        name: name@,
                        classes: csv,
                        id: idv,
                        attrs: av,
                        children: crate::model::views_from(children@, 0),
                    });
                    assert(out@ =~= old(out)@ + emit_node(nv, d));
                }
            } else {
                proof {
                    assert((*n) is Tag);
                    let ghost ch = (*n)->Tag_children;
                    assert(ch == *children);
                    assert(decreases_to!(*n => (*n)->Tag_children));
                    assert(decreases_to!(ch => ch@));
                }
                emit_tag_body_x(children, ind, Ghost(d), out);
                proof {
                    assert(nv == NodeView::Tag {
                        name: name@,
                        classes: csv,
                        id: idv,
                        attrs: av,
                        children: crate::model::views_from(children@, 0),
                    });
                    assert(out@ =~= old(out)@ + emit_node(nv, d));
                }
            }
        },
    }
}

/// Emits a container's body: the ` {` opener, the children one level deeper
/// with a newline before every child after the first, and the closing `}`
/// line at the container's own indentation.
fn emit_tag_body_x(children: &Vec<Node>, ind: &Vec<char>, Ghost(d): Ghost<nat>, out: &mut Vec<char>)
    requires
        ind@ == spaces(d),
    ensures
        final(out)@ == old(out)@ + seq![' ', '{', '\n'] + emit_children_from(
            crate::model::views_from(children@, 0),
            d + 1,
            0,
        ) + spaces(d) + seq!['}', '\n'],
    decreases children@,
{
    out.push(' ');
    out.push('{');
    out.push('\n');
    let mut ind2: Vec<char> = Vec::new();
    push_seq(&mut ind2, ind);
    ind2.push(' ');
    ind2.push(' ');
    ind2.push(' ');
    ind2.push(' ');
    proof {
        assert(ind2@ =~= spaces(d + 1));
    }
    let ghost cv = crate::model::views_from(children@, 0);
    let ghost base_c = out@;
    let mut j: usize = 0;
    #[verifier::loop_isolation(false)]
    while j < children.len()
        invariant
            j <= children.len(),
            ind2@ == spaces(d + 1),
            cv == crate::model::views_from(children@, 0),
            out@ + emit_children_from(cv, d + 1, j as int) == base_c + emit_children_from(
                cv,
                d + 1,
                0,
            ),
        decreases children.len() - j,
    {
        if j > 0 {
            out.push('\n');
        }
        proof {
            lemma_views_from(children@, 0);
            assert(cv[j as int] == children@[j as int]@);
            assert(decreases_to!(children@ => children@[j as int]));
        }
        emit_node_x(&children[j], &ind2, Ghost(d + 1), out);
        j = j + 1;
        proof {
            assert(out@ + emit_children_from(cv, d + 1, j as int) =~= base_c + emit_children_from(
                cv,
                d + 1,
                0,
            ));
        }
    }
    proof {
        lemma_views_from(children@, 0);
        assert(emit_children_from(cv, d + 1, children@.len() as int) =~= Seq::<char>::empty());
    }
    push_seq(out, ind);
    out.push('}');
    out.push('\n');
    proof {
        assert(out@ =~= old(out)@ + seq![' ', '{', '\n'] + emit_children_from(cv, d + 1, 0)
            + spaces(d) + seq!['}', '\n']);
    }
}

/// The header line of the rendered template.
pub open spec fn header() -> Seq<char> {
    seq!['h', 't', 'm', 'l', '!', ' ', '{', '\n']
}

/// The closing text of the rendered template.
pub open spec fn footer() -> Seq<char> {
    seq!['\n', '}', '\n']
}

/// The top-level nodes from `i` on, emitted at depth 1, with no separators.
pub open spec fn emit_forest_from(ns: Seq<NodeView>, i: int) -> Seq<char>
    decreases ns.len() - i,
{
    if 0 <= i < ns.len() {
        emit_node(ns[i], 1) + emit_forest_from(ns, i + 1)
    } else {
        Seq::<char>::empty()
    }
}

/// The raw (pre-normalization) rendering of a whole document.
pub open spec fn render_forest(ns: Seq<NodeView>) -> Seq<char> {
    header() + emit_forest_from(ns, 0) + footer()
}

/// Renders the whole document tree, before normalization.
pub fn render_forest_x(nodes: &Vec<Node>) -> (r: Vec<char>)
    ensures
        r@ == render_forest(views_of(nodes@)),
{
    let mut out: Vec<char> = Vec::new();
    out.push('h');
    out.push('t');
    out.push('m');
    out.push('l');
    out.push('!');
    out.push(' ');
    out.push('{');
    out.push('\n');
    proof {
        assert(out@ =~= header());
    }
    let mut ind: Vec<char> = Vec::new();
    ind.push(' ');
    ind.push(' ');
    ind.push(' ');
    ind.push(' ');
    proof {
        assert(spaces(0) =~= Seq::<char>::empty());
        assert(ind@ =~= spaces(1));
    }
    let ghost nv = views_of(nodes@);
    let ghost base = out@;
    let mut j: usize = 0;
    while j < nodes.len()
        invariant
            j <= nodes.len(),
            ind@ == spaces(1),
            nv == views_of(nodes@),
            out@ + emit_forest_from(nv, j as int) == base + emit_forest_from(nv, 0),
        decreases nodes.len() - j,
    {
        proof {
            lemma_views_from(nodes@, 0);
            assert(nv[j as int] == nodes@[j as int]@);
        }
        emit_node_x(&nodes[j], &ind, Ghost(1nat), &mut out);
        j = j + 1;
        proof {
            assert(out@ + emit_forest_from(nv, j as int) =~= base + emit_forest_from(nv, 0));
        }
    }
    proof {
        lemma_views_from(nodes@, 0);
        assert(emit_forest_from(nv, nodes@.len() as int) =~= Seq::<char>::empty());
    }
    out.push('\n');
    out.push('}');
    out.push('\n');
    proof {
        assert(out@ =~= render_forest(nv));
    }
    out
}

} // verus!
