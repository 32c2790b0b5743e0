//! General properties of the emitter and the normalizer, stated and proved
//! once for all inputs.

use vstd::prelude::*;
use crate::model::{AttrView, NodeView};
use crate::classify::is_void;
use crate::emit::{
    spaces, emit_node, emit_children_from, open_part, class_part, id_part, attrs_from, attr_part,
    join_ws_from, escape_quotes, trim,
};
use crate::normalize::{
    all_ws, lines_of, line_len, chop_cr, join_nl, strip_blank, collapse, promote, promote_rec,
    hash_match, ident_len, hash_count, total_count, is_ident, kept_lines,
};

verus! {

broadcast use
    vstd::std_specs::vec::axiom_vec_index_decreases,
    vstd::std_specs::vec::axiom_vec_decreases_to_view,
    vstd::seq::axiom_seq_index_decreases;

// ---------------------------------------------------------------------------
// Determinism.
// ---------------------------------------------------------------------------
/// Determinism: the converted text is a mathematical function of the
/// document tree, so equal trees convert to equal text. (This is immediate
/// from the contract of the conversion, which pins its result to
/// `convert_tree` of the input's view.)
pub proof fn lemma_convert_deterministic(a: Seq<NodeView>, b: Seq<NodeView>)
    requires
        a == b,
    ensures
        crate::convert::convert_tree(a) == crate::convert::convert_tree(b),
{
}

// ---------------------------------------------------------------------------
// Void-tag rule.
// ---------------------------------------------------------------------------
/// Void-tag rule: a tag with a void name emits one statement whose text is
/// its opening line terminated by `;` and a newline — and nothing else,
/// whatever children the source tree reports: they are never visited, so no
/// block can follow the statement.
pub proof fn lemma_void_tag(
    name: Seq<char>,
    classes: Option<Seq<Seq<char>>>,
    id: Option<Seq<char>>,
    attrs: Seq<AttrView>,
    children: Seq<NodeView>,
    d: nat,
)
    requires
        is_void(name),
    ensures
        ({
            let n = NodeView::Tag { name, classes, id, attrs, children };
            let line = open_part(name, classes, id, attrs, d) + seq![';', '\n'];
            emit_node(n, d) == line && line[line.len() - 1] == '\n' && line[line.len() - 2] == ';'
                && emit_node(n, d) == emit_node(
                NodeView::Tag {
                    name,
                    classes,
                    id,
                    attrs,
                    children: Seq::<NodeView>::empty(),
                },
                d,
            )
        }),
{
}

// ---------------------------------------------------------------------------
// Container rule.
// ---------------------------------------------------------------------------
/// Container rule, shape half: a tag with a non-void name always emits a
/// block — its opening line, ` {`, the children one level deeper, and a
/// closing `}` on its own line at the tag's own indentation.
pub proof fn lemma_container_block(
    name: Seq<char>,
    classes: Option<Seq<Seq<char>>>,
    id: Option<Seq<char>>,
    attrs: Seq<AttrView>,
    children: Seq<NodeView>,
    d: nat,
)
    requires
        !is_void(name),
    ensures
        emit_node(NodeView::Tag { name, classes, id, attrs, children }, d) == open_part(
            name,
            classes,
            id,
            attrs,
            d,
        ) + seq![' ', '{', '\n'] + emit_children_from(children, d + 1, 0) + spaces(d) + seq![
            '}',
            '\n',
        ],
{
}

/// Text that holds no brace of its own, so that every brace in the emission
/// is a structural one.
pub open spec fn clean_text(s: Seq<char>) -> bool {
    forall|k: int| 0 <= k < s.len() ==> s[k] != '{' && s[k] != '}'
}

/// A generic attribute with brace-free key and value.
pub open spec fn clean_attr(a: AttrView) -> bool {
    clean_text(a.key) && (a.value is Some ==> clean_text(a.value->0))
}

/// A node all of whose text data is brace-free, children included.
pub open spec fn clean_node(n: NodeView) -> bool
    decreases n, 0int,
{
    match n {
        NodeView::Comment => true,
        NodeView::Raw { text } => clean_text(text),
        NodeView::Tag { name, classes, id, attrs, children } => clean_text(name) && (match classes {
            Option::Some(cs) => forall|k: int| 0 <= k < cs.len() ==> clean_text(cs[k]),
            Option::None => true,
        }) && (match id {
            Option::Some(i) => clean_text(i),
            Option::None => true,
        }) && (forall|k: int| 0 <= k < attrs.len() ==> clean_attr(attrs[k])) && clean_kids(
            children,
            0,
        ),
    }
}

/// All children from `i` on are clean.
pub open spec fn clean_kids(cs: Seq<NodeView>, i: int) -> bool
    decreases cs, cs.len() - i,
{
    if 0 <= i < cs.len() {
        clean_node(cs[i]) && clean_kids(cs, i + 1)
    } else {
        true
    }
}

/// Opening braces minus closing braces in a text.
pub open spec fn brace_diff(s: Seq<char>) -> int
    decreases s.len(),
{
    if s.len() == 0 {
        0
    } else {
        (if s[0] == '{' {
            1int
        } else if s[0] == '}' {
            -1int
        } else {
            0int
        }) + brace_diff(s.drop_first())
    }
}

/// The brace count distributes over concatenation.
pub proof fn lemma_brace_diff_add(a: Seq<char>, b: Seq<char>)
    ensures
        brace_diff(a + b) == brace_diff(a) + brace_diff(b),
    decreases a.len(),
{
    if a.len() == 0 {
        assert(a + b =~= b);
    } else {
        lemma_brace_diff_add(a.drop_first(), b);
        assert((a + b).drop_first() =~= a.drop_first() + b);
        assert((a + b)[0] == a[0]);
    }
}

/// Brace-free text counts zero.
pub proof fn lemma_brace_diff_clean(s: Seq<char>)
    requires
        clean_text(s),
    ensures
        brace_diff(s) == 0,
    decreases s.len(),
{
    if s.len() > 0 {
        assert(clean_text(s.drop_first()));
        lemma_brace_diff_clean(s.drop_first());
    }
}

/// Indentation counts zero.
pub proof fn lemma_brace_diff_spaces(d: nat)
    ensures
        brace_diff(spaces(d)) == 0,
    decreases d,
{
    if d == 0 {
        assert(brace_diff(spaces(0)) == 0);
    } else {
        lemma_brace_diff_spaces((d - 1) as nat);
        lemma_brace_diff_add(spaces((d - 1) as nat), seq![' ', ' ', ' ', ' ']);
        assert(clean_text(seq![' ', ' ', ' ', ' ']));
        lemma_brace_diff_clean(seq![' ', ' ', ' ', ' ']);
    }
}

/// Escaping quotes keeps a text brace-free.
pub proof fn lemma_escape_clean(s: Seq<char>)
    requires
        clean_text(s),
    ensures
        clean_text(escape_quotes(s)),
    decreases s.len(),
{
    if s.len() > 0 {
        assert(clean_text(s.drop_first()));
        lemma_escape_clean(s.drop_first());
        let head: Seq<char> = if s[0] == '"' {
            seq!['\\', '"']
        } else {
            seq![s[0]]
        };
        assert(clean_text(head));
        assert forall|k: int| 0 <= k < escape_quotes(s).len() implies escape_quotes(s)[k] != '{'
            && escape_quotes(s)[k] != '}' by {
            if k >= head.len() {
                assert(escape_quotes(s)[k] == escape_quotes(s.drop_first())[k - head.len()]);
            }
        }
    }
}

/// Trimming keeps a text brace-free.
pub proof fn lemma_trim_clean(s: Seq<char>)
    requires
        clean_text(s),
    ensures
        clean_text(trim(s)),
{
    assert forall|k: int| 0 <= k < trim(s).len() implies trim(s)[k] != '{' && trim(s)[k] != '}' by {
        let lo = crate::emit::trim_lo(s, 0);
        lemma_trim_lo_bounds(s, 0);
        lemma_trim_hi_bounds(s, s.len() as int);
    }
}

/// `trim_lo` stays within bounds.
pub proof fn lemma_trim_lo_bounds(s: Seq<char>, i: int)
    requires
        0 <= i <= s.len(),
    ensures
        i <= crate::emit::trim_lo(s, i) <= s.len(),
    decreases s.len() - i,
{
    if i < s.len() && crate::text::is_ws(s[i]) {
        lemma_trim_lo_bounds(s, i + 1);
    }
}

/// `trim_hi` stays within bounds.
pub proof fn lemma_trim_hi_bounds(s: Seq<char>, i: int)
    requires
        0 <= i <= s.len(),
    ensures
        0 <= crate::emit::trim_hi(s, i) <= i,
    decreases i,
{
    if 0 < i && crate::text::is_ws(s[i - 1]) {
        lemma_trim_hi_bounds(s, i - 1);
    }
}

/// The joined class tokens are brace-free when each token is.
pub proof fn lemma_join_ws_clean(cs: Seq<Seq<char>>, i: int)
    requires
        forall|k: int| 0 <= k < cs.len() ==> clean_text(cs[k]),
    ensures
        brace_diff(join_ws_from(cs, i)) == 0,
    decreases cs.len() - i,
{
    if 0 <= i < cs.len() {
        lemma_join_ws_clean(cs, i + 1);
        let sep: Seq<char> = if i > 0 {
            seq![' ']
        } else {
            Seq::<char>::empty()
        };
        lemma_brace_diff_clean(sep);
        lemma_brace_diff_clean(cs[i]);
        lemma_brace_diff_add(sep, cs[i]);
        lemma_brace_diff_add(sep + cs[i], join_ws_from(cs, i + 1));
    }
}

/// The opening text of a clean tag counts zero braces.
pub proof fn lemma_open_part_balanced(
    name: Seq<char>,
    classes: Option<Seq<Seq<char>>>,
    id: Option<Seq<char>>,
    attrs: Seq<AttrView>,
    d: nat,
)
    requires
        clean_text(name),
        (match classes {
            Option::Some(cs) => forall|k: int| 0 <= k < cs.len() ==> clean_text(cs[k]),
            Option::None => true,
        }),
        (match id {
            Option::Some(i) => clean_text(i),
            Option::None => true,
        }),
        forall|k: int| 0 <= k < attrs.len() ==> clean_attr(attrs[k]),
    ensures
        brace_diff(open_part(name, classes, id, attrs, d)) == 0,
{
    lemma_brace_diff_spaces(d);
    lemma_brace_diff_clean(name);
    match classes {
        Option::Some(cs) => {
            lemma_join_ws_clean(cs, 0);
            lemma_brace_diff_clean(seq!['.', '"']);
            lemma_brace_diff_clean(seq!['"']);
            lemma_brace_diff_add(seq!['.', '"'], join_ws_from(cs, 0));
            lemma_brace_diff_add(seq!['.', '"'] + join_ws_from(cs, 0), seq!['"']);
        },
        Option::None => {},
    }
    match id {
        Option::Some(i) => {
            lemma_brace_diff_clean(seq![' ', '#']);
            lemma_brace_diff_clean(i);
            lemma_brace_diff_add(seq![' ', '#'], i);
        },
        Option::None => {},
    }
    lemma_attrs_balanced(attrs, 0);
    lemma_brace_diff_add(spaces(d), name);
    lemma_brace_diff_add(spaces(d) + name, class_part(classes));
    lemma_brace_diff_add(spaces(d) + name + class_part(classes), id_part(id));
    lemma_brace_diff_add(
        spaces(d) + name + class_part(classes) + id_part(id),
        attrs_from(attrs, 0),
    );
}

/// The attribute text counts zero braces when each attribute is clean.
pub proof fn lemma_attrs_balanced(attrs: Seq<AttrView>, i: int)
    requires
        forall|k: int| 0 <= k < attrs.len() ==> clean_attr(attrs[k]),
    ensures
        brace_diff(attrs_from(attrs, i)) == 0,
    decreases attrs.len() - i,
{
    if 0 <= i < attrs.len() {
        lemma_attrs_balanced(attrs, i + 1);
        let a = attrs[i];
        if !crate::emit::is_id_or_class_key(a.key) {
            lemma_brace_diff_clean(seq![' ']);
            lemma_brace_diff_clean(a.key);
            match a.value {
                Option::Some(v) => {
                    lemma_brace_diff_clean(seq!['=', '"']);
                    lemma_brace_diff_clean(v);
                    lemma_brace_diff_clean(seq!['"']);
                    lemma_brace_diff_add(seq!['=', '"'], v);
                    lemma_brace_diff_add(seq!['=', '"'] + v, seq!['"']);
                },
                Option::None => {},
            }
            lemma_brace_diff_add(seq![' '], a.key);
            lemma_brace_diff_add(
                seq![' '] + a.key,
                match a.value {
                    Option::Some(v) => seq!['=', '"'] + v + seq!['"'],
                    Option::None => Seq::<char>::empty(),
                },
            );
        }
        lemma_brace_diff_add(attr_part(a), attrs_from(attrs, i + 1));
    }
}

/// Container rule, balance half: the emission of any clean node opens exactly
/// as many braces as it closes.
pub proof fn lemma_emit_balanced(n: NodeView, d: nat)
    requires
        clean_node(n),
    ensures
        brace_diff(emit_node(n, d)) == 0,
    decreases n, 0int,
{
    match n {
        NodeView::Comment => {},
        NodeView::Raw { text } => {
            if trim(text).len() > 0 {
                lemma_trim_clean(text);
                lemma_escape_clean(trim(text));
                lemma_brace_diff_spaces(d);
                lemma_brace_diff_clean(seq!['"']);
                lemma_brace_diff_clean(escape_quotes(trim(text)));
                lemma_brace_diff_clean(seq!['"', '\n']);
                lemma_brace_diff_add(spaces(d), seq!['"']);
                lemma_brace_diff_add(spaces(d) + seq!['"'], escape_quotes(trim(text)));
                lemma_brace_diff_add(
                    spaces(d) + seq!['"'] + escape_quotes(trim(text)),
                    seq!['"', '\n'],
                );
            }
        },
        NodeView::Tag { name, classes, id, attrs, children } => {
            lemma_open_part_balanced(name, classes, id, attrs, d);
            let opening = open_part(name, classes, id, attrs, d);
            if is_void(name) {
                lemma_brace_diff_clean(seq![';', '\n']);
                lemma_brace_diff_add(opening, seq![';', '\n']);
            } else {
                lemma_children_balanced(children, d + 1, 0);
                assert(brace_diff(seq![' ', '{', '\n']) == 1) by {
                    assert(brace_diff(Seq::<char>::empty()) == 0);
                    assert(seq!['\n'].drop_first() =~= Seq::<char>::empty());
                    assert(brace_diff(seq!['\n']) == 0);
                    assert(seq!['{', '\n'].drop_first() =~= seq!['\n']);
                    assert(brace_diff(seq!['{', '\n']) == 1);
                    assert(seq![' ', '{', '\n'].drop_first() =~= seq!['{', '\n']);
                }
                assert(brace_diff(seq!['}', '\n']) == -1) by {
                    assert(brace_diff(Seq::<char>::empty()) == 0);
                    assert(seq!['\n'].drop_first() =~= Seq::<char>::empty());
                    assert(brace_diff(seq!['\n']) == 0);
                    assert(seq!['}', '\n'].drop_first() =~= seq!['\n']);
                }
                lemma_brace_diff_spaces(d);
                lemma_brace_diff_add(opening, seq![' ', '{', '\n']);
                lemma_brace_diff_add(
                    opening + seq![' ', '{', '\n'],
                    emit_children_from(children, d + 1, 0),
                );
                lemma_brace_diff_add(
                    opening + seq![' ', '{', '\n'] + emit_children_from(children, d + 1, 0),
                    spaces(d),
                );
                lemma_brace_diff_add(
                    opening + seq![' ', '{', '\n'] + emit_children_from(children, d + 1, 0)
                        + spaces(d),
                    seq!['}', '\n'],
                );
            }
        },
    }
}

// ---------------------------------------------------------------------------
// No-blank-line invariant.
// ---------------------------------------------------------------------------
/// The newline-separated segments of a text; the empty text has one empty
/// segment.
pub open spec fn segments(s: Seq<char>) -> Seq<Seq<char>>
    decreases s.len(),
{
    if s.len() == 0 {
        seq![Seq::<char>::empty()]
    } else if s[0] == '\n' {
        seq![Seq::<char>::empty()] + segments(s.drop_first())
    } else {
        let rest = segments(s.drop_first());
        seq![seq![s[0]] + rest[0]] + rest.drop_first()
    }
}

/// Every text has at least one segment.
pub proof fn lemma_segments_len(s: Seq<char>)
    ensures
        segments(s).len() >= 1,
    decreases s.len(),
{
    if s.len() > 0 {
        lemma_segments_len(s.drop_first());
    }
}

/// Prepending newline-free text extends the first segment and leaves the
/// rest alone.
pub proof fn lemma_segments_prepend(p: Seq<char>, t: Seq<char>)
    requires
        forall|k: int| 0 <= k < p.len() ==> p[k] != '\n',
    ensures
        segments(p + t) == seq![p + segments(t)[0]] + segments(t).drop_first(),
    decreases p.len(),
{
    lemma_segments_len(t);
    if p.len() == 0 {
        assert(p + t =~= t);
        assert(p + segments(t)[0] =~= segments(t)[0]);
        assert(seq![segments(t)[0]] + segments(t).drop_first() =~= segments(t));
    } else {
        lemma_segments_prepend(p.drop_first(), t);
        let u = p + t;
        assert(u[0] == p[0]);
        assert(u.drop_first() =~= p.drop_first() + t);
        assert(segments(u.drop_first())[0] == p.drop_first() + segments(t)[0]);
        assert(seq![u[0]] + (p.drop_first() + segments(t)[0]) =~= p + segments(t)[0]);
        assert(segments(u.drop_first()).drop_first() =~= segments(t).drop_first());
        assert(segments(u) =~= seq![p + segments(t)[0]] + segments(t).drop_first());
    }
}

/// Whitespace-only status distributes over concatenation.
pub proof fn lemma_all_ws_add(a: Seq<char>, b: Seq<char>)
    ensures
        all_ws(a + b) == (all_ws(a) && all_ws(b)),
{
    if all_ws(a) && all_ws(b) {
        assert forall|k: int| 0 <= k < (a + b).len() implies crate::text::is_ws((a + b)[k]) by {
            if k < a.len() {
                assert((a + b)[k] == a[k]);
            } else {
                assert((a + b)[k] == b[k - a.len()]);
            }
        }
    } else if !all_ws(a) {
        let k = choose|k: int| 0 <= k < a.len() && !crate::text::is_ws(a[k]);
        assert((a + b)[k] == a[k]);
    } else {
        let k = choose|k: int| 0 <= k < b.len() && !crate::text::is_ws(b[k]);
        assert((a + b)[k + a.len()] == b[k]);
    }
}

/// No segment of the text is empty after trimming (trivially so for the
/// empty text, which has no lines).
pub open spec fn no_blank_segments(s: Seq<char>) -> bool {
    s.len() == 0 || forall|k: int| 0 <= k < segments(s).len() ==> !all_ws(segments(s)[k])
}

/// Two texts are equally profiled when they split into equally many
/// segments, blank in the same places.
pub open spec fn same_profile(a: Seq<char>, b: Seq<char>) -> bool {
    segments(a).len() == segments(b).len() && (forall|k: int|
        0 <= k < segments(a).len() ==> all_ws(segments(a)[k]) == all_ws(segments(b)[k]))
}

/// Prepending equally-blank newline-free texts to equally-profiled texts
/// keeps the profiles equal.
pub proof fn lemma_profile_prepend(p: Seq<char>, q: Seq<char>, t1: Seq<char>, t2: Seq<char>)
    requires
        forall|k: int| 0 <= k < p.len() ==> p[k] != '\n',
        forall|k: int| 0 <= k < q.len() ==> q[k] != '\n',
        all_ws(p) == all_ws(q),
        same_profile(t1, t2),
    ensures
        same_profile(p + t1, q + t2),
{
    lemma_segments_len(t1);
    lemma_segments_len(t2);
    lemma_segments_prepend(p, t1);
    lemma_segments_prepend(q, t2);
    lemma_all_ws_add(p, segments(t1)[0]);
    lemma_all_ws_add(q, segments(t2)[0]);
    assert forall|k: int| 0 <= k < segments(p + t1).len() implies all_ws(segments(p + t1)[k])
        == all_ws(segments(q + t2)[k]) by {
        if k > 0 {
            assert(segments(p + t1)[k] == segments(t1)[k]);
            assert(segments(q + t2)[k] == segments(t2)[k]);
        }
    }
}

/// The characters of a line (before the first newline) are not newlines.
pub proof fn lemma_line_len_chars(s: Seq<char>)
    ensures
        crate::normalize::line_len(s) <= s.len(),
        forall|k: int| 0 <= k < crate::normalize::line_len(s) ==> s[k] != '\n',
    decreases s.len(),
{
    if s.len() > 0 && s[0] != '\n' {
        lemma_line_len_chars(s.drop_first());
        assert forall|k: int| 0 <= k < crate::normalize::line_len(s) implies s[k] != '\n' by {
            if k > 0 {
                assert(s.drop_first()[k - 1] == s[k]);
            }
        }
    }
}

/// Every line produced by line splitting is newline-free.
pub proof fn lemma_lines_no_nl(s: Seq<char>)
    ensures
        forall|i: int, k: int|
            0 <= i < crate::normalize::lines_of(s).len() && 0 <= k < crate::normalize::lines_of(
                s,
            )[i].len() ==> crate::normalize::lines_of(s)[i][k] != '\n',
    decreases s.len(),
{
    if s.len() == 0 {
    } else {
        lemma_line_len_chars(s);
        let n = line_len(s) as int;
        let head = s.take(n);
        assert(forall|k: int| 0 <= k < head.len() ==> head[k] != '\n');
        assert(forall|k: int| 0 <= k < chop_cr(head).len() ==> chop_cr(head)[k] != '\n');
        if n + 1 <= s.len() {
            lemma_lines_no_nl(s.skip(n + 1));
            assert forall|i: int, k: int|
                0 <= i < lines_of(s).len() && 0 <= k < lines_of(s)[i].len() implies lines_of(
                s,
            )[i][k] != '\n' by {
                if i == 0 {
                    assert(lines_of(s)[0] == chop_cr(head));
                } else {
                    assert(lines_of(s)[i] == lines_of(s.skip(n + 1))[i - 1]);
                }
            }
        } else {
            assert(n == s.len());
            assert(s.take(n) =~= s);
            assert(lines_of(s) == seq![chop_cr(s)]);
        }
    }
}

/// Every kept line is a line of the input, and none is blank.
pub proof fn lemma_kept_lines_props(ls: Seq<Seq<char>>)
    ensures
        forall|i: int|
            0 <= i < kept_lines(ls).len() ==> !all_ws(kept_lines(ls)[i]) && (exists|j: int|
                0 <= j < ls.len() && kept_lines(ls)[i] == ls[j]),
    decreases ls.len(),
{
    if ls.len() > 0 {
        lemma_kept_lines_props(ls.drop_first());
        let rest = kept_lines(ls.drop_first());
        assert forall|i: int|
            0 <= i < kept_lines(ls).len() implies !all_ws(kept_lines(ls)[i]) && (exists|
        j: int|
            0 <= j < ls.len() && kept_lines(ls)[i] == ls[j]) by {
            if all_ws(ls[0]) {
                assert(kept_lines(ls)[i] == rest[i]);
                let j0 = choose|j: int|
                    0 <= j < ls.drop_first().len() && rest[i] == ls.drop_first()[j];
                assert(ls[j0 + 1] == ls.drop_first()[j0]);
            } else {
                if i == 0 {
                    assert(kept_lines(ls)[0] == ls[0]);
                } else {
                    assert(kept_lines(ls)[i] == rest[i - 1]);
                    let j0 = choose|j: int|
                        0 <= j < ls.drop_first().len() && rest[i - 1] == ls.drop_first()[j];
                    assert(ls[j0 + 1] == ls.drop_first()[j0]);
                }
            }
        }
    }
}

/// Joining newline-free lines splits back into exactly those lines.
pub proof fn lemma_segments_join(ls: Seq<Seq<char>>)
    requires
        ls.len() >= 1,
        forall|i: int, k: int| 0 <= i < ls.len() && 0 <= k < ls[i].len() ==> ls[i][k] != '\n',
    ensures
        segments(crate::normalize::join_nl(ls)) == ls,
    decreases ls.len(),
{
    if ls.len() == 1 {
        lemma_segments_prepend(ls[0], Seq::<char>::empty());
        assert(ls[0] + Seq::<char>::empty() =~= ls[0]);
        assert(segments(Seq::<char>::empty()) == seq![Seq::<char>::empty()]);
        assert(ls[0] + segments(Seq::<char>::empty())[0] =~= ls[0]);
        assert(segments(ls[0]) =~= seq![ls[0]]);
        assert(join_nl(ls) == ls[0]);
        assert(segments(join_nl(ls)) =~= ls);
    } else {
        assert forall|i: int, k: int|
            0 <= i < ls.drop_first().len() && 0 <= k < ls.drop_first()[i].len() implies ls.drop_first()[i][k]
            != '\n' by {
            assert(ls.drop_first()[i] == ls[i + 1]);
        }
        lemma_segments_join(ls.drop_first());
        let x = join_nl(ls.drop_first());
        let nx = seq!['\n'] + x;
        assert(nx[0] == '\n');
        assert(nx.drop_first() =~= x);
        assert(segments(nx) =~= seq![Seq::<char>::empty()] + segments(x));
        lemma_segments_prepend(ls[0], nx);
        assert(join_nl(ls) == ls[0] + seq!['\n'] + x);
        assert(ls[0] + nx =~= ls[0] + seq!['\n'] + x);
        assert(segments(nx)[0] == Seq::<char>::empty());
        assert(ls[0] + Seq::<char>::empty() =~= ls[0]);
        assert(segments(nx).drop_first() =~= segments(x));
        assert(segments(join_nl(ls)) =~= seq![ls[0]] + ls.drop_first());
        assert(seq![ls[0]] + ls.drop_first() =~= ls);
    }
}

/// After blank-line removal no segment of the text is blank.
pub proof fn lemma_strip_no_blank(s: Seq<char>)
    ensures
        no_blank_segments(crate::normalize::strip_blank(s)),
{
    let ks = kept_lines(lines_of(s));
    lemma_kept_lines_props(lines_of(s));
    lemma_lines_no_nl(s);
    if ks.len() == 0 {
        assert(strip_blank(s) == join_nl(ks));
        assert(join_nl(ks).len() == 0);
    } else {
        assert forall|i: int, k: int|
            0 <= i < ks.len() && 0 <= k < ks[i].len() implies ks[i][k] != '\n' by {
            let j = choose|j: int| 0 <= j < lines_of(s).len() && ks[i] == lines_of(s)[j];
        }
        lemma_segments_join(ks);
        assert(segments(strip_blank(s)) == ks);
    }
}

/// The characters of an identifier run are identifier characters.
pub proof fn lemma_ident_len_chars(s: Seq<char>)
    ensures
        crate::normalize::ident_len(s) <= s.len(),
        forall|k: int|
            0 <= k < crate::normalize::ident_len(s) ==> crate::normalize::is_ident(s[k]),
    decreases s.len(),
{
    if s.len() > 0 && crate::normalize::is_ident(s[0]) {
        lemma_ident_len_chars(s.drop_first());
        assert forall|k: int|
            0 <= k < crate::normalize::ident_len(s) implies crate::normalize::is_ident(s[k]) by {
            if k > 0 {
                assert(s.drop_first()[k - 1] == s[k]);
            }
        }
    }
}

/// Id promotion never changes which segments are blank: each rewritten
/// shorthand and its replacement are newline-free and not whitespace-only,
/// and every other character is copied unchanged.
pub proof fn lemma_promote_profile(full: Seq<char>, s: Seq<char>)
    ensures
        same_profile(crate::normalize::promote_rec(full, s), s),
    decreases s.len(),
{
    if hash_match(s) {
        let n = ident_len(s.skip(1));
        let id = s.subrange(1, 1 + n as int);
        lemma_ident_len_chars(s.skip(1));
        assert forall|k: int| 0 <= k < id.len() implies is_ident(id[k]) by {
            assert(id[k] == s.skip(1)[k]);
        }
        assert(forall|k: int| 0 <= k < id.len() ==> id[k] != '\n' && !crate::text::is_ws(id[k]));
        let piece: Seq<char> = if total_count(full, id) > 1 {
            seq!['i', 'd', '=', '"'] + id + seq!['"']
        } else {
            seq!['#'] + id
        };
        let consumed = s.take(1 + n as int);
        assert(forall|k: int| 0 <= k < piece.len() ==> piece[k] != '\n');
        assert(forall|k: int| 0 <= k < consumed.len() ==> consumed[k] != '\n') by {
            assert(consumed[0] == s[0]);
            assert forall|k: int| 1 <= k < consumed.len() implies consumed[k] != '\n' by {
                assert(consumed[k] == s.skip(1)[k - 1]);
            }
        }
        assert(!all_ws(piece)) by {
            if total_count(full, id) > 1 {
                assert(piece[0] == 'i');
            } else {
                assert(piece[0] == '#');
            }
        }
        assert(!all_ws(consumed)) by {
            assert(consumed[0] == '#');
        }
        lemma_promote_profile(full, s.skip(1 + n as int));
        lemma_profile_prepend(
            piece,
            consumed,
            promote_rec(full, s.skip(1 + n as int)),
            s.skip(1 + n as int),
        );
        assert(consumed + s.skip(1 + n as int) =~= s);
        assert(piece + promote_rec(full, s.skip(1 + n as int)) == promote_rec(full, s));
    } else if s.len() > 0 {
        lemma_promote_profile(full, s.drop_first());
        let c = s[0];
        if c == '\n' {
            let t1 = promote_rec(full, s.drop_first());
            let t2 = s.drop_first();
            assert((seq![c] + t1)[0] == '\n');
            assert((seq![c] + t1).drop_first() =~= t1);
            assert((seq![c] + t2).drop_first() =~= t2);
            assert(segments(seq![c] + t1) =~= seq![Seq::<char>::empty()] + segments(t1));
            assert(segments(seq![c] + t2) =~= seq![Seq::<char>::empty()] + segments(t2));
            lemma_segments_len(t1);
            lemma_segments_len(t2);
            assert forall|k: int| 0 <= k < segments(seq![c] + t1).len() implies all_ws(
                segments(seq![c] + t1)[k],
            ) == all_ws(segments(seq![c] + t2)[k]) by {
                if k > 0 {
                    assert(segments(seq![c] + t1)[k] == segments(t1)[k - 1]);
                    assert(segments(seq![c] + t2)[k] == segments(t2)[k - 1]);
                }
            }
            assert(seq![c] + t2 =~= s);
        } else {
            lemma_profile_prepend(
                seq![c],
                seq![c],
                promote_rec(full, s.drop_first()),
                s.drop_first(),
            );
            assert(seq![c] + s.drop_first() =~= s);
        }
    } else {
    }
}

/// No-blank-line invariant: the fully normalized text contains no line that
/// is empty after trimming.
pub proof fn lemma_normalize_no_blank(s: Seq<char>)
    ensures
        no_blank_segments(crate::normalize::normalize(s)),
{
    let u = strip_blank(collapse(s));
    lemma_strip_no_blank(collapse(s));
    lemma_promote_profile(u, u);
    let p = promote(u);
    if p.len() > 0 {
        if u.len() == 0 {
            assert(false);
        }
        lemma_segments_len(u);
        assert forall|k: int| 0 <= k < segments(p).len() implies !all_ws(segments(p)[k]) by {
            assert(all_ws(segments(p)[k]) == all_ws(segments(u)[k]));
            assert(!all_ws(segments(u)[k]));
        }
    }
}

// ---------------------------------------------------------------------------
// Restricted idempotence of id promotion.
// ---------------------------------------------------------------------------
/// A text is stable when every identifier still standing as a shorthand has
/// a combined occurrence count of at most one.
pub open spec fn stable(s: Seq<char>) -> bool {
    forall|id: Seq<char>|
        crate::normalize::hash_count(s, id) >= 1 ==> crate::normalize::total_count(s, id) <= 1
}

/// Promotion leaves a text unchanged when every shorthand in the scanned
/// suffix has a combined count of at most one in the counted text.
pub proof fn lemma_promote_noop(full: Seq<char>, s: Seq<char>)
    requires
        forall|id: Seq<char>|
            crate::normalize::hash_count(s, id) >= 1 ==> crate::normalize::total_count(full, id)
                <= 1,
    ensures
        crate::normalize::promote_rec(full, s) == s,
    decreases s.len(),
{
    if hash_match(s) {
        let n = ident_len(s.skip(1));
        let id = s.subrange(1, 1 + n as int);
        assert(hash_count(s, id) >= 1);
        assert(total_count(full, id) <= 1);
        assert forall|id2: Seq<char>|
            hash_count(s.skip(1 + n as int), id2) >= 1 implies total_count(full, id2) <= 1 by {
            assert(hash_count(s, id2) >= hash_count(s.skip(1 + n as int), id2));
        }
        lemma_promote_noop(full, s.skip(1 + n as int));
        assert(seq!['#'] + id + s.skip(1 + n as int) =~= s);
    } else if s.len() > 0 {
        assert forall|id2: Seq<char>|
            hash_count(s.drop_first(), id2) >= 1 implies total_count(full, id2) <= 1 by {
            assert(hash_count(s, id2) >= hash_count(s.drop_first(), id2));
        }
        lemma_promote_noop(full, s.drop_first());
        assert(seq![s[0]] + s.drop_first() =~= s);
    }
}

/// Restricted idempotence: on a first-pass output that is stable, a second
/// id-promotion pass is a no-op. (A first pass can itself manufacture a new
/// bare occurrence — the `d` inside an inserted `id="..."` — so stability of
/// the output is a genuine premise, not a consequence.)
pub proof fn lemma_promote_second_pass(s: Seq<char>)
    requires
        stable(crate::normalize::promote(s)),
    ensures
        crate::normalize::promote(crate::normalize::promote(s)) == crate::normalize::promote(s),
{
    lemma_promote_noop(crate::normalize::promote(s), crate::normalize::promote(s));
}

/// The children's emission is balanced when each child is clean.
pub proof fn lemma_children_balanced(cs: Seq<NodeView>, d: nat, i: int)
    requires
        clean_kids(cs, i),
    ensures
        brace_diff(emit_children_from(cs, d, i)) == 0,
    decreases cs, cs.len() - i,
{
    if 0 <= i < cs.len() {
        lemma_emit_balanced(cs[i], d);
        lemma_children_balanced(cs, d, i + 1);
        let sep: Seq<char> = if i > 0 {
            seq!['\n']
        } else {
            Seq::<char>::empty()
        };
        lemma_brace_diff_clean(sep);
        lemma_brace_diff_add(sep, emit_node(cs[i], d));
        lemma_brace_diff_add(sep + emit_node(cs[i], d), emit_children_from(cs, d, i + 1));
    }
}


// ---------------------------------------------------------------------------
// The normalizer preserves the brace count, so the container rule holds of
// the final output too.
// ---------------------------------------------------------------------------
/// A single character's brace count.
pub proof fn lemma_brace_diff_one(c: char)
    ensures
        brace_diff(seq![c]) == if c == '{' {
            1int
        } else if c == '}' {
            -1int
        } else {
            0int
        },
{
    assert(brace_diff(Seq::<char>::empty()) == 0);
    assert(seq![c].drop_first() =~= Seq::<char>::empty());
}

/// The characters of a whitespace run are whitespace.
pub proof fn lemma_ws_run_chars(s: Seq<char>, i: int)
    requires
        0 <= i <= s.len(),
    ensures
        i <= crate::normalize::ws_run_end(s, i) <= s.len(),
        forall|k: int|
            i <= k < crate::normalize::ws_run_end(s, i) ==> crate::text::is_ws(s[k]),
    decreases s.len() - i,
{
    if i < s.len() && crate::text::is_ws(s[i]) {
        lemma_ws_run_chars(s, i + 1);
    }
}

/// Empty-block collapse keeps the brace count.
#[verifier::rlimit(100)]
pub proof fn lemma_collapse_brace(s: Seq<char>)
    ensures
        brace_diff(crate::normalize::collapse(s)) == brace_diff(s),
    decreases s.len(),
{
    if s.len() == 0 {
    } else if s[0] == '{' && ({
        let j = crate::normalize::ws_run_end(s, 1);
        1 <= j < s.len() && s[j] == '}'
    }) {
        let j = crate::normalize::ws_run_end(s, 1);
        lemma_ws_run_chars(s, 1);
        let ws = s.subrange(1, j);
        assert(clean_text(ws)) by {
            assert forall|k: int| 0 <= k < ws.len() implies ws[k] != '{' && ws[k] != '}' by {
                assert(ws[k] == s[1 + k]);
            }
        }
        lemma_collapse_brace(s.skip(j + 1));
        assert(s =~= seq![s[0]] + ws + seq![s[j]] + s.skip(j + 1));
        lemma_brace_diff_one(s[0]);
        lemma_brace_diff_one(s[j]);
        lemma_brace_diff_clean(ws);
        lemma_brace_diff_add(seq![s[0]], ws);
        lemma_brace_diff_add(seq![s[0]] + ws, seq![s[j]]);
        lemma_brace_diff_add(seq![s[0]] + ws + seq![s[j]], s.skip(j + 1));
        assert(brace_diff(s) == brace_diff(s.skip(j + 1)));
        lemma_brace_diff_one('{');
        lemma_brace_diff_one('}');
        lemma_brace_diff_add(seq!['{'], seq!['}']);
        assert(seq!['{'] + seq!['}'] =~= seq!['{', '}']);
        lemma_brace_diff_add(seq!['{', '}'], crate::normalize::collapse(s.skip(j + 1)));
    } else {
        lemma_collapse_brace(s.skip(1));
        assert(s =~= seq![s[0]] + s.skip(1));
        lemma_brace_diff_one(s[0]);
        lemma_brace_diff_add(seq![s[0]], s.skip(1));
        lemma_brace_diff_add(seq![s[0]], crate::normalize::collapse(s.skip(1)));
    }
}

/// The brace counts of a list of lines, summed.
pub open spec fn sum_diff(ls: Seq<Seq<char>>) -> int
    decreases ls.len(),
{
    if ls.len() == 0 {
        0
    } else {
        brace_diff(ls[0]) + sum_diff(ls.drop_first())
    }
}

/// Chopping a carriage return keeps the brace count.
pub proof fn lemma_chop_cr_diff(l: Seq<char>)
    ensures
        brace_diff(chop_cr(l)) == brace_diff(l),
{
    if l.len() > 0 && l[l.len() - 1] == '\r' {
        assert(l =~= l.drop_last() + seq!['\r']);
        lemma_brace_diff_one('\r');
        lemma_brace_diff_add(l.drop_last(), seq!['\r']);
    }
}

/// The first newline of a non-final line really is a newline.
pub proof fn lemma_line_len_nl(s: Seq<char>)
    ensures
        crate::normalize::line_len(s) < s.len() ==> s[crate::normalize::line_len(s) as int]
            == '\n',
    decreases s.len(),
{
    if s.len() > 0 && s[0] != '\n' {
        lemma_line_len_nl(s.drop_first());
        if crate::normalize::line_len(s) < s.len() {
            assert(s.drop_first()[crate::normalize::line_len(s.drop_first()) as int] == s[
                crate::normalize::line_len(s) as int
            ]);
        }
    }
}

/// Splitting into lines keeps the brace count.
pub proof fn lemma_lines_diff(s: Seq<char>)
    ensures
        sum_diff(lines_of(s)) == brace_diff(s),
    decreases s.len(),
{
    if s.len() == 0 {
    } else {
        let n = line_len(s) as int;
        lemma_line_len_chars(s);
        lemma_line_len_nl(s);
        let head = s.take(n);
        lemma_chop_cr_diff(head);
        if n + 1 <= s.len() {
            lemma_lines_diff(s.skip(n + 1));
            assert(s =~= head + seq![s[n]] + s.skip(n + 1));
            lemma_brace_diff_one(s[n]);
            lemma_brace_diff_add(head, seq![s[n]]);
            lemma_brace_diff_add(head + seq![s[n]], s.skip(n + 1));
            assert(brace_diff(s) == brace_diff(head) + brace_diff(s.skip(n + 1)));
            assert(lines_of(s)[0] == chop_cr(head));
            assert(lines_of(s).drop_first() =~= lines_of(s.skip(n + 1)));
            assert(sum_diff(lines_of(s)) == brace_diff(chop_cr(head)) + sum_diff(
                lines_of(s.skip(n + 1)),
            ));
        } else {
            assert(n == s.len());
            assert(head =~= s);
            assert(lines_of(s) == seq![chop_cr(s)]);
            assert(lines_of(s).drop_first() =~= Seq::<Seq<char>>::empty());
            assert(sum_diff(lines_of(s).drop_first()) == 0);
            assert(sum_diff(lines_of(s)) == brace_diff(chop_cr(s)));
        }
    }
}

/// Dropping blank lines keeps the summed brace count: a blank line has none.
pub proof fn lemma_kept_diff(ls: Seq<Seq<char>>)
    ensures
        sum_diff(crate::normalize::kept_lines(ls)) == sum_diff(ls),
    decreases ls.len(),
{
    if ls.len() > 0 {
        lemma_kept_diff(ls.drop_first());
        if all_ws(ls[0]) {
            assert(clean_text(ls[0])) by {
                assert forall|k: int| 0 <= k < ls[0].len() implies ls[0][k] != '{' && ls[0][k]
                    != '}' by {
                    assert(crate::text::is_ws(ls[0][k]));
                }
            }
            lemma_brace_diff_clean(ls[0]);
            assert(kept_lines(ls) =~= kept_lines(ls.drop_first()));
        } else {
            assert(kept_lines(ls) =~= seq![ls[0]] + kept_lines(ls.drop_first()));
            assert((seq![ls[0]] + kept_lines(ls.drop_first()))[0] == ls[0]);
            assert((seq![ls[0]] + kept_lines(ls.drop_first())).drop_first() =~= kept_lines(
                ls.drop_first(),
            ));
        }
    }
}

/// Rejoining lines keeps the summed brace count: separators have none.
pub proof fn lemma_join_diff(ls: Seq<Seq<char>>)
    ensures
        brace_diff(join_nl(ls)) == sum_diff(ls),
    decreases ls.len(),
{
    if ls.len() == 0 {
    } else if ls.len() == 1 {
        assert(ls.drop_first() =~= Seq::<Seq<char>>::empty());
        assert(sum_diff(ls.drop_first()) == 0);
        assert(sum_diff(ls) == brace_diff(ls[0]));
    } else {
        lemma_join_diff(ls.drop_first());
        lemma_brace_diff_one('\n');
        lemma_brace_diff_add(ls[0], seq!['\n']);
        lemma_brace_diff_add(ls[0] + seq!['\n'], join_nl(ls.drop_first()));
        assert(sum_diff(ls) == brace_diff(ls[0]) + sum_diff(ls.drop_first()));
    }
}

/// Blank-line removal keeps the brace count.
pub proof fn lemma_strip_brace(s: Seq<char>)
    ensures
        brace_diff(strip_blank(s)) == brace_diff(s),
{
    lemma_lines_diff(s);
    lemma_kept_diff(lines_of(s));
    lemma_join_diff(crate::normalize::kept_lines(lines_of(s)));
}

/// Id promotion keeps the brace count: identifiers and the inserted
/// `id="..."` text hold no braces.
pub proof fn lemma_promote_brace(full: Seq<char>, s: Seq<char>)
    ensures
        brace_diff(promote_rec(full, s)) == brace_diff(s),
    decreases s.len(),
{
    if hash_match(s) {
        let n = ident_len(s.skip(1));
        let id = s.subrange(1, 1 + n as int);
        lemma_ident_len_chars(s.skip(1));
        assert(clean_text(id)) by {
            assert forall|k: int| 0 <= k < id.len() implies id[k] != '{' && id[k] != '}' by {
                assert(id[k] == s.skip(1)[k]);
                assert(is_ident(id[k]));
            }
        }
        let piece: Seq<char> = if total_count(full, id) > 1 {
            seq!['i', 'd', '=', '"'] + id + seq!['"']
        } else {
            seq!['#'] + id
        };
        let consumed = s.take(1 + n as int);
        assert(clean_text(consumed)) by {
            assert forall|k: int| 0 <= k < consumed.len() implies consumed[k] != '{'
                && consumed[k] != '}' by {
                if k == 0 {
                    assert(consumed[0] == s[0]);
                } else {
                    assert(consumed[k] == s.skip(1)[k - 1]);
                    assert(is_ident(consumed[k]));
                }
            }
        }
        assert(clean_text(piece)) by {
            if total_count(full, id) > 1 {
                assert(clean_text(seq!['i', 'd', '=', '"']));
                assert(clean_text(seq!['"']));
                assert forall|k: int| 0 <= k < piece.len() implies piece[k] != '{' && piece[k]
                    != '}' by {
                    if 4 <= k < 4 + id.len() {
                        assert(piece[k] == id[k - 4]);
                    }
                }
            } else {
                assert forall|k: int| 0 <= k < piece.len() implies piece[k] != '{' && piece[k]
                    != '}' by {
                    if k >= 1 {
                        assert(piece[k] == id[k - 1]);
                    }
                }
            }
        }
        lemma_promote_brace(full, s.skip(1 + n as int));
        lemma_brace_diff_clean(piece);
        lemma_brace_diff_clean(consumed);
        lemma_brace_diff_add(piece, promote_rec(full, s.skip(1 + n as int)));
        lemma_brace_diff_add(consumed, s.skip(1 + n as int));
        assert(consumed + s.skip(1 + n as int) =~= s);
    } else if s.len() > 0 {
        lemma_promote_brace(full, s.drop_first());
        lemma_brace_diff_one(s[0]);
        lemma_brace_diff_add(seq![s[0]], promote_rec(full, s.drop_first()));
        lemma_brace_diff_add(seq![s[0]], s.drop_first());
        assert(seq![s[0]] + s.drop_first() =~= s);
    }
}

/// The whole normalizer keeps the brace count.
pub proof fn lemma_normalize_brace(s: Seq<char>)
    ensures
        brace_diff(crate::normalize::normalize(s)) == brace_diff(s),
{
    lemma_collapse_brace(s);
    lemma_strip_brace(collapse(s));
    lemma_promote_brace(strip_blank(collapse(s)), strip_blank(collapse(s)));
}

/// The top-level forest emission is balanced when every tree is clean.
pub proof fn lemma_forest_balanced(ns: Seq<NodeView>, i: int)
    requires
        clean_kids(ns, i),
    ensures
        brace_diff(crate::emit::emit_forest_from(ns, i)) == 0,
    decreases ns.len() - i,
{
    if 0 <= i < ns.len() {
        lemma_emit_balanced(ns[i], 1);
        lemma_forest_balanced(ns, i + 1);
        lemma_brace_diff_add(emit_node(ns[i], 1), crate::emit::emit_forest_from(ns, i + 1));
    }
}

/// Container rule, whole-output half: the final converted text of a document
/// whose data holds no braces of its own is brace-balanced — the normalizer
/// never unbalances what the emitter built.
pub proof fn lemma_convert_balanced(ns: Seq<NodeView>)
    requires
        clean_kids(ns, 0),
    ensures
        brace_diff(crate::convert::convert_tree(ns)) == 0,
{
    lemma_forest_balanced(ns, 0);
    let header = crate::emit::header();
    let footer = crate::emit::footer();
    assert(brace_diff(header) == 1) by {
        let word = seq!['h', 't', 'm', 'l', '!', ' '];
        assert(clean_text(word));
        lemma_brace_diff_clean(word);
        lemma_brace_diff_one('{');
        lemma_brace_diff_one('\n');
        lemma_brace_diff_add(word, seq!['{']);
        lemma_brace_diff_add(word + seq!['{'], seq!['\n']);
        assert(word + seq!['{'] + seq!['\n'] =~= header);
    }
    assert(brace_diff(footer) == -1) by {
        lemma_brace_diff_one('\n');
        lemma_brace_diff_one('}');
        lemma_brace_diff_add(seq!['\n'], seq!['}']);
        lemma_brace_diff_add(seq!['\n'] + seq!['}'], seq!['\n']);
        assert(seq!['\n'] + seq!['}'] + seq!['\n'] =~= footer);
    }
    lemma_brace_diff_add(header, crate::emit::emit_forest_from(ns, 0));
    lemma_brace_diff_add(header + crate::emit::emit_forest_from(ns, 0), footer);
    lemma_normalize_brace(crate::emit::render_forest(ns));
}

} // verus!
